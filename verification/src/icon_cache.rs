//! The content-addressed icon cache.
//!
//! An icon is kept in a file whose name is derived from a digest of its
//! pixels, so equal pixels always lead to the same file. This module computes
//! the digest, the file's path within a given cache directory and the file's
//! content, and it says when the file is to be written. Writing it is the
//! caller's part.

use crate::pixmap::Pixels;
use image::ImageEncoder;
use std::collections::hash_map::DefaultHasher;
use std::hash::Hasher;
use vstd::prelude::*;
use vstd::std_specs::hash::DefaultHasherAdditionalSpecFns;
use vstd::string::{StrSliceExecFns, StringExecFns};

verus! {

/// The error type of the image encoder. Nothing is known of its values.
#[verifier::external_type_specification]
#[verifier::external_body]
pub struct ExImageError(image::ImageError);

/// The PNG file that the image encoder produces for an image of `width` by
/// `height` pixels with the samples `rgba`, or `None` where it refuses the
/// image.
pub uninterp spec fn png_encoding(width: u32, height: u32, rgba: Seq<u8>) -> Option<Seq<u8>>;

/// Runs `image::codecs::png::PngEncoder::write_image` with the colour type
/// `Rgba8` on an in-memory buffer.
///
/// The encoder panics unless the buffer holds exactly four bytes per pixel,
/// hence the precondition. It draws on nothing but its arguments, so what it
/// writes, or that it fails, is the value that [`png_encoding`] names.
#[verifier::external_body]
fn encode_png(width: u32, height: u32, rgba: &[u8]) -> (encoded: Result<Vec<u8>, image::ImageError>)
    requires
        rgba@.len() == 4 * width * height,
    ensures
        match encoded {
            Ok(bytes) => png_encoding(width, height, rgba@) == Some(bytes@),
            Err(_) => png_encoding(width, height, rgba@) is None,
        },
{
    let mut out: Vec<u8> = Vec::new();
    let encoder = image::codecs::png::PngEncoder::new(&mut out);
    match encoder.write_image(rgba, width, height, image::ColorType::Rgba8) {
        Ok(()) => Ok(out),
        Err(e) => Err(e),
    }
}

/// Why an icon could not be prepared for the cache.
#[derive(Debug, Clone, Copy, PartialEq, Eq, Structural)]
pub enum IconError {
    /// The peer's pixel buffer was not accepted.
    Pixmap(crate::pixmap::PixmapError),
    /// The image encoder refused the image.
    Encoding,
}

/// What to do next about the file of a cache entry.
#[derive(Debug, Clone, Copy, PartialEq, Eq, Structural)]
pub enum CacheStep {
    /// The file is in the cache: nothing is left to do.
    Done,
    /// Write the file, in a way that never shows a part of it under its name.
    Write,
    /// Writing failed twice: the icon cannot be stored.
    GiveUp,
}

/// The next step for a cache entry, given whether its file exists and how
/// many attempts to write it have failed. A file that exists is not written
/// again, and a failed write is tried once more.
pub open spec fn cache_step_spec(exists: bool, failed_writes: nat) -> CacheStep {
    if exists {
        CacheStep::Done
    } else if failed_writes <= 1 {
        CacheStep::Write
    } else {
        CacheStep::GiveUp
    }
}

/// The digest that addresses an image: the standard library's default hasher
/// fed all samples in one write.
pub open spec fn pixel_digest(rgba: Seq<u8>) -> u64 {
    DefaultHasher::spec_finish(seq![rgba])
}

/// The sixteen digits of lower-case hexadecimal notation.
pub open spec fn hex_digits() -> Seq<char> {
    seq!['0', '1', '2', '3', '4', '5', '6', '7', '8', '9', 'a', 'b', 'c', 'd', 'e', 'f']
}

/// `n` in lower-case hexadecimal notation, without prefix or leading zeros.
pub open spec fn lower_hex(n: nat) -> Seq<char>
    decreases n,
{
    if n < 16 {
        seq![hex_digits()[n as int]]
    } else {
        lower_hex(n / 16).push(hex_digits()[(n % 16) as int])
    }
}

/// Name of the file that holds the image with the given digest.
pub open spec fn icon_file_name(digest: u64) -> Seq<char> {
    lower_hex(digest as nat) + seq!['.', 'p', 'n', 'g']
}

/// The path of the file `name` in the directory `dir`: the two joined by one
/// `/`, which is left out where `dir` is empty or ends in one.
pub open spec fn join_spec(dir: Seq<char>, name: Seq<char>) -> Seq<char> {
    if dir.len() == 0 || dir.last() == '/' {
        dir + name
    } else {
        dir + seq!['/'] + name
    }
}

/// Path of the file that holds the image with the given digest in the cache
/// directory `dir`.
pub open spec fn icon_path(dir: Seq<char>, digest: u64) -> Seq<char> {
    join_spec(dir, icon_file_name(digest))
}

/// The mathematical value of a [`CacheEntry`].
pub struct CacheEntryView {
    pub width: nat,
    pub height: nat,
    pub path: Seq<char>,
    pub png: Seq<u8>,
}

/// An icon ready to be put into the cache directory.
#[derive(Debug, PartialEq, Eq)]
pub struct CacheEntry {
    pub width: usize,
    pub height: usize,
    /// Path of the file.
    pub path: String,
    /// Content of the file: the image in PNG format.
    pub png: Vec<u8>,
}

impl View for CacheEntry {
    type V = CacheEntryView;

    open spec fn view(&self) -> CacheEntryView {
        CacheEntryView {
            width: self.width as nat,
            height: self.height as nat,
            path: self.path@,
            png: self.png@,
        }
    }
}

/// The cache entry of an image in the cache directory `dir`, given its
/// digest and what the encoder made of it.
pub open spec fn cache_entry_spec(
    dir: Seq<char>,
    width: u32,
    height: u32,
    digest: u64,
    encoded: Option<Seq<u8>>,
) -> Result<CacheEntryView, IconError> {
    match encoded {
        Some(png) => Ok(
            CacheEntryView {
                width: width as nat,
                height: height as nat,
                path: icon_path(dir, digest),
                png,
            },
        ),
        None => Err(IconError::Encoding),
    }
}

/// The mathematical value of what the encoder made of an image.
pub open spec fn encoding_view(encoded: Option<Vec<u8>>) -> Option<Seq<u8>> {
    match encoded {
        Some(png) => Some(png@),
        None => None,
    }
}

/// The cache entry of a decoded image in the cache directory `dir`.
pub open spec fn store_spec(dir: Seq<char>, pixels: crate::pixmap::PixelsView) -> Result<
    CacheEntryView,
    IconError,
> {
    cache_entry_spec(
        dir,
        pixels.width as u32,
        pixels.height as u32,
        pixel_digest(pixels.rgba),
        png_encoding(pixels.width as u32, pixels.height as u32, pixels.rgba),
    )
}

/// Every number is written with at least one digit, and a number of two or
/// more digits is not below sixteen.
pub proof fn lemma_lower_hex_len(n: nat)
    ensures
        lower_hex(n).len() >= 1,
        lower_hex(n).len() == 1 <==> n < 16,
    decreases n,
{
    if n >= 16 {
        lemma_lower_hex_len(n / 16);
    }
}

/// Different numbers are written differently.
pub proof fn lemma_lower_hex_injective(a: nat, b: nat)
    requires
        lower_hex(a) == lower_hex(b),
    ensures
        a == b,
    decreases a,
{
    lemma_lower_hex_len(a);
    lemma_lower_hex_len(b);
    let digits = hex_digits();
    assert(forall|i: int, j: int| 0 <= i < j < 16 ==> digits[i] != digits[j]);
    if a < 16 {
        assert(lower_hex(a)[0] == digits[a as int]);
        assert(lower_hex(b)[0] == digits[b as int]);
    } else {
        let x = lower_hex(a / 16);
        let y = lower_hex(b / 16);
        assert(lower_hex(a).drop_last() =~= x);
        assert(lower_hex(b).drop_last() =~= y);
        lemma_lower_hex_injective(a / 16, b / 16);
        assert(lower_hex(a).last() == digits[(a % 16) as int]);
        assert(lower_hex(b).last() == digits[(b % 16) as int]);
        assert(a % 16 == b % 16);
    }
}

/// Images with different digests have files of different names.
pub proof fn lemma_file_name_injective(first: u64, second: u64)
    requires
        icon_file_name(first) == icon_file_name(second),
    ensures
        first == second,
{
    let a = lower_hex(first as nat);
    let b = lower_hex(second as nat);
    let suffix = seq!['.', 'p', 'n', 'g'];
    assert((a + suffix).len() == (b + suffix).len());
    assert(a =~= (a + suffix).subrange(0, a.len() as int));
    assert(b =~= (b + suffix).subrange(0, b.len() as int));
    lemma_lower_hex_injective(first as nat, second as nat);
}

/// Within one cache directory, images with different digests are kept in
/// different files.
pub proof fn lemma_icon_path_injective(dir: Seq<char>, first: u64, second: u64)
    requires
        icon_path(dir, first) == icon_path(dir, second),
    ensures
        first == second,
{
    let a = icon_file_name(first);
    let b = icon_file_name(second);
    let head = if dir.len() == 0 || dir.last() == '/' {
        dir
    } else {
        dir + seq!['/']
    };
    assert(icon_path(dir, first) == head + a);
    assert(icon_path(dir, second) == head + b);
    assert((head + a).len() == (head + b).len());
    assert(a =~= (head + a).subrange(head.len() as int, (head + a).len() as int));
    assert(b =~= (head + b).subrange(head.len() as int, (head + b).len() as int));
    lemma_file_name_injective(first, second);
}

/// Content addressing: within one cache directory the path of an image's
/// file is a function of its samples alone. Images with the same samples
/// have the same digest and are kept in the same file, whatever their shape;
/// with the same shape too, storing them yields the same entry.
pub proof fn lemma_content_addressed(
    dir: Seq<char>,
    first: crate::pixmap::PixelsView,
    second: crate::pixmap::PixelsView,
)
    requires
        first.rgba == second.rgba,
    ensures
        pixel_digest(first.rgba) == pixel_digest(second.rgba),
        store_spec(dir, first) is Ok && store_spec(dir, second) is Ok ==> store_spec(
            dir,
            first,
        )->Ok_0.path == store_spec(dir, second)->Ok_0.path,
        first.width == second.width && first.height == second.height ==> store_spec(dir, first)
            == store_spec(dir, second),
{
}

/// Computes the digest of an image's samples.
pub fn digest(rgba: &[u8]) -> (d: u64)
    ensures
        d == pixel_digest(rgba@),
{
    let mut hasher = DefaultHasher::new();
    hasher.write(rgba);
    assert(hasher@ =~= seq![rgba@]);
    hasher.finish()
}

/// The digit `d` as a string of its own.
fn hex_digit_str(d: u8) -> (s: &'static str)
    requires
        d < 16,
    ensures
        s@ == seq![hex_digits()[d as int]],
{
    proof {
        reveal_strlit("0");
        reveal_strlit("1");
        reveal_strlit("2");
        reveal_strlit("3");
        reveal_strlit("4");
        reveal_strlit("5");
        reveal_strlit("6");
        reveal_strlit("7");
        reveal_strlit("8");
        reveal_strlit("9");
        reveal_strlit("a");
        reveal_strlit("b");
        reveal_strlit("c");
        reveal_strlit("d");
        reveal_strlit("e");
        reveal_strlit("f");
    }
    let s = match d {
        0 => "0",
        1 => "1",
        2 => "2",
        3 => "3",
        4 => "4",
        5 => "5",
        6 => "6",
        7 => "7",
        8 => "8",
        9 => "9",
        10 => "a",
        11 => "b",
        12 => "c",
        13 => "d",
        14 => "e",
        _ => "f",
    };
    assert(s@ =~= seq![hex_digits()[d as int]]);
    s
}

/// Appends `n` in lower-case hexadecimal notation to `out`.
fn push_lower_hex(out: &mut String, n: u64)
    ensures
        final(out)@ == old(out)@ + lower_hex(n as nat),
    decreases n,
{
    if n >= 16 {
        push_lower_hex(out, n / 16);
    }
    out.append(hex_digit_str((n % 16) as u8));
    assert(out@ =~= old(out)@ + lower_hex(n as nat));
}

/// Renders the name of the file that holds the image with the given digest.
pub fn file_name(digest: u64) -> (name: String)
    ensures
        name@ == icon_file_name(digest),
{
    let mut name = String::new();
    push_lower_hex(&mut name, digest);
    proof {
        reveal_strlit(".png");
    }
    name.append(".png");
    assert(name@ =~= icon_file_name(digest));
    name
}

/// Joins the directory `dir` and the file name `name` into a path.
pub fn join(dir: &str, name: &str) -> (path: String)
    ensures
        path@ == join_spec(dir@, name@),
{
    let mut path = dir.to_owned();
    let len = dir.unicode_len();
    if len > 0 && dir.get_char(len - 1) != '/' {
        proof {
            reveal_strlit("/");
        }
        path.append("/");
    }
    path.append(name);
    assert(path@ =~= join_spec(dir@, name@));
    path
}

/// Decides the next step for a cache entry.
pub fn cache_step(exists: bool, failed_writes: u32) -> (step: CacheStep)
    ensures
        step == cache_step_spec(exists, failed_writes as nat),
{
    if exists {
        CacheStep::Done
    } else if failed_writes <= 1 {
        CacheStep::Write
    } else {
        CacheStep::GiveUp
    }
}

/// Builds the cache entry of an image in the cache directory `dir` from its
/// digest and from what the encoder made of it.
pub fn cache_entry(
    dir: &str,
    width: u32,
    height: u32,
    digest: u64,
    encoded: Option<Vec<u8>>,
) -> (entry: Result<CacheEntry, IconError>)
    ensures
        match entry {
            Ok(e) => cache_entry_spec(dir@, width, height, digest, encoding_view(encoded)) == Ok::<
                CacheEntryView,
                IconError,
            >(e@),
            Err(e) => cache_entry_spec(dir@, width, height, digest, encoding_view(encoded))
                == Err::<CacheEntryView, IconError>(e),
        },
{
    match encoded {
        Some(png) => {
            let name = file_name(digest);
            Ok(
                CacheEntry {
                    width: width as usize,
                    height: height as usize,
                    path: join(dir, name.as_str()),
                    png,
                },
            )
        },
        None => Err(IconError::Encoding),
    }
}

/// Prepares a decoded image for the cache directory `dir`: names its file
/// after its digest and encodes it.
pub fn store(dir: &str, pixels: &Pixels) -> (entry: Result<CacheEntry, IconError>)
    ensures
        match entry {
            Ok(e) => store_spec(dir@, pixels@) == Ok::<CacheEntryView, IconError>(e@),
            Err(e) => store_spec(dir@, pixels@) == Err::<CacheEntryView, IconError>(e),
        },
{
    let rgba = pixels.rgba();
    let d = digest(rgba.as_slice());
    let encoded = match encode_png(pixels.width(), pixels.height(), rgba.as_slice()) {
        Ok(bytes) => Some(bytes),
        Err(_) => None,
    };
    cache_entry(dir, pixels.width(), pixels.height(), d, encoded)
}

} // verus!
