//! Decoding of the pixel buffers that peers advertise.
//!
//! A peer offers its icon as a list of candidates `(width, height, bytes)`.
//! The bytes are rows of four-byte samples in the order alpha, red, green,
//! blue. The broker takes the first candidate and reorders every sample to
//! red, green, blue, alpha.

use vstd::prelude::*;

verus! {

/// Why a peer's pixel buffer was not accepted.
#[derive(Debug, Clone, Copy, PartialEq, Eq, Structural)]
pub enum PixmapError {
    /// The peer advertises no candidate at all.
    NoCandidate,
    /// The width or the height is negative.
    NegativeSize,
    /// The buffer does not hold exactly `width * height` samples.
    SizeMismatch,
}

/// Number of bytes of an image of `width` by `height` pixels.
pub open spec fn byte_len(width: int, height: int) -> int {
    4 * width * height
}

/// Position in the peer's buffer of the byte that ends up at position `i`.
///
/// Within each group of four the channels move one place to the left and the
/// leading alpha byte goes last.
pub open spec fn source_index(i: int) -> int {
    (i / 4) * 4 + (i % 4 + 1) % 4
}

/// The buffer `raw` with every complete four-byte sample reordered from
/// alpha, red, green, blue to red, green, blue, alpha. Bytes that follow the
/// last complete sample are dropped.
pub open spec fn argb_to_rgba_spec(raw: Seq<u8>) -> Seq<u8> {
    Seq::new((4 * (raw.len() / 4)) as nat, |i: int| raw[source_index(i)])
}

/// What decoding a candidate yields.
pub open spec fn decode_spec(width: int, height: int, raw: Seq<u8>) -> Result<
    PixelsView,
    PixmapError,
> {
    if width < 0 || height < 0 {
        Err(PixmapError::NegativeSize)
    } else if raw.len() != byte_len(width, height) {
        Err(PixmapError::SizeMismatch)
    } else {
        Ok(PixelsView { width: width as nat, height: height as nat, rgba: argb_to_rgba_spec(raw) })
    }
}

/// The first candidate of a list, which is the one the broker uses.
pub open spec fn first_candidate_spec(candidates: Seq<(i32, i32, Vec<u8>)>) -> Result<
    (i32, i32, Seq<u8>),
    PixmapError,
> {
    if candidates.len() == 0 {
        Err(PixmapError::NoCandidate)
    } else {
        Ok((candidates[0].0, candidates[0].1, candidates[0].2@))
    }
}

/// The mathematical value of [`Pixels`].
pub struct PixelsView {
    pub width: nat,
    pub height: nat,
    pub rgba: Seq<u8>,
}

/// A decoded image: `width * height` samples of red, green, blue, alpha.
#[derive(Debug)]
pub struct Pixels {
    width: u32,
    height: u32,
    rgba: Vec<u8>,
}

impl View for Pixels {
    type V = PixelsView;

    closed spec fn view(&self) -> PixelsView {
        PixelsView { width: self.width as nat, height: self.height as nat, rgba: self.rgba@ }
    }
}

impl Pixels {
    /// The buffer holds four bytes for every pixel and nothing more.
    #[verifier::type_invariant]
    spec fn well_formed(self) -> bool {
        self.rgba@.len() == byte_len(self.width as int, self.height as int)
    }

    /// Number of samples in a row.
    pub fn width(&self) -> (w: u32)
        ensures
            w == self@.width,
    {
        self.width
    }

    /// Number of rows.
    pub fn height(&self) -> (h: u32)
        ensures
            h == self@.height,
    {
        self.height
    }

    /// The samples, row by row.
    pub fn rgba(&self) -> (bytes: &Vec<u8>)
        ensures
            bytes@ == self@.rgba,
            bytes@.len() == byte_len(self@.width as int, self@.height as int),
    {
        proof {
            use_type_invariant(self);
        }
        &self.rgba
    }
}

/// Reorders every complete sample of `raw` from alpha, red, green, blue to
/// red, green, blue, alpha.
pub fn argb_to_rgba(raw: &[u8]) -> (rgba: Vec<u8>)
    ensures
        rgba@ == argb_to_rgba_spec(raw@),
{
    let samples: usize = raw.len() / 4;
    let mut rgba: Vec<u8> = Vec::new();
    let mut p: usize = 0;
    while p < samples
        invariant
            samples == raw@.len() / 4,
            raw@.len() <= usize::MAX,
            p <= samples,
            rgba@.len() == 4 * p,
            forall|i: int| 0 <= i < rgba@.len() ==> rgba@[i] == raw@[source_index(i)],
        decreases samples - p,
    {
        let base: usize = 4 * p;
        let ghost before = rgba@;
        rgba.push(raw[base + 1]);
        rgba.push(raw[base + 2]);
        rgba.push(raw[base + 3]);
        rgba.push(raw[base]);
        proof {
            assert forall|i: int| 0 <= i < rgba@.len() implies rgba@[i] == raw@[source_index(
                i,
            )] by {
                if i < before.len() {
                    assert(rgba@[i] == before[i]);
                } else {
                    assert(i / 4 == p && 0 <= i % 4 < 4);
                }
            }
        }
        p = p + 1;
    }
    assert(rgba@ =~= argb_to_rgba_spec(raw@));
    rgba
}

/// One sample given as alpha, red, green, blue comes out as red, green, blue,
/// alpha, in that order; so an image of one pixel decodes to that pixel.
pub proof fn lemma_single_sample_reordered(a: u8, r: u8, g: u8, b: u8)
    ensures
        argb_to_rgba_spec(seq![a, r, g, b]) == seq![r, g, b, a],
        decode_spec(1, 1, seq![a, r, g, b]) == Ok::<PixelsView, PixmapError>(
            PixelsView { width: 1, height: 1, rgba: seq![r, g, b, a] },
        ),
{
    let raw = seq![a, r, g, b];
    let out = argb_to_rgba_spec(raw);
    assert(out.len() == 4);
    assert(source_index(0) == 1 && source_index(1) == 2 && source_index(2) == 3 && source_index(3)
        == 0);
    assert(out =~= seq![r, g, b, a]);
}

/// The same holds of every complete sample of a buffer: sample `p` of the
/// result holds the red, green, blue and alpha bytes of sample `p` of the
/// input, and nothing else is in the result.
pub proof fn lemma_every_sample_reordered(raw: Seq<u8>, p: int)
    requires
        0 <= p < raw.len() / 4,
    ensures
        argb_to_rgba_spec(raw).len() == 4 * (raw.len() / 4),
        argb_to_rgba_spec(raw)[4 * p] == raw[4 * p + 1],
        argb_to_rgba_spec(raw)[4 * p + 1] == raw[4 * p + 2],
        argb_to_rgba_spec(raw)[4 * p + 2] == raw[4 * p + 3],
        argb_to_rgba_spec(raw)[4 * p + 3] == raw[4 * p],
{
    assert(source_index(4 * p) == 4 * p + 1);
    assert(source_index(4 * p + 1) == 4 * p + 2);
    assert(source_index(4 * p + 2) == 4 * p + 3);
    assert(source_index(4 * p + 3) == 4 * p);
}

/// Picks the candidate that the broker uses: always the first one.
pub fn first_candidate(candidates: &[(i32, i32, Vec<u8>)]) -> (chosen: Result<
    &(i32, i32, Vec<u8>),
    PixmapError,
>)
    ensures
        match chosen {
            Ok(c) => first_candidate_spec(candidates@) == Ok::<(i32, i32, Seq<u8>), PixmapError>(
                (c.0, c.1, c.2@),
            ) && *c == candidates@[0],
            Err(e) => first_candidate_spec(candidates@) == Err::<(i32, i32, Seq<u8>), PixmapError>(
                e,
            ),
        },
{
    if candidates.len() == 0 {
        Err(PixmapError::NoCandidate)
    } else {
        Ok(&candidates[0])
    }
}

/// Checks a candidate's size against its buffer and reorders its samples.
pub fn decode_pixmap(width: i32, height: i32, raw: &[u8]) -> (decoded: Result<Pixels, PixmapError>)
    ensures
        match decoded {
            Ok(pixels) => decode_spec(width as int, height as int, raw@) == Ok::<
                PixelsView,
                PixmapError,
            >(pixels@),
            Err(e) => decode_spec(width as int, height as int, raw@) == Err::<
                PixelsView,
                PixmapError,
            >(e),
        },
{
    if width < 0 || height < 0 {
        return Err(PixmapError::NegativeSize);
    }
    let w: u32 = width as u32;
    let h: u32 = height as u32;
    assert(0 <= (w as int) * (h as int) <= 0x7fff_ffff * 0x7fff_ffff) by (nonlinear_arith)
        requires
            0 <= w <= 0x7fff_ffff,
            0 <= h <= 0x7fff_ffff,
    ;
    let expected: u64 = 4 * ((w as u64) * (h as u64));
    assert(expected == byte_len(width as int, height as int)) by (nonlinear_arith)
        requires
            expected == 4 * ((w as int) * (h as int)),
            w == width,
            h == height,
    ;
    if raw.len() as u64 != expected {
        return Err(PixmapError::SizeMismatch);
    }
    let rgba = argb_to_rgba(raw);
    assert(rgba@.len() == raw@.len()) by {
        assert(raw@.len() == 4 * (width * height)) by (nonlinear_arith)
            requires
                raw@.len() == 4 * width * height,
        ;
    }
    Ok(Pixels { width: w, height: h, rgba })
}

} // verus!
