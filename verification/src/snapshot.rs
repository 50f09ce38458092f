//! The snapshot of a peer: its title and its icon.
//!
//! A session reads the title and the list of icon candidates from the peer.
//! This module turns the candidates into the cache entry of the icon and
//! puts title and icon together.

use crate::icon_cache::{store, store_spec, CacheEntry, CacheEntryView, IconError};
use crate::item::{Icon, IconView, Item, ItemView};
use crate::pixmap::{decode_pixmap, decode_spec, first_candidate, first_candidate_spec};
use vstd::prelude::*;

verus! {

/// The cache entry, in the cache directory `dir`, of the icon that a peer
/// advertises.
pub open spec fn snapshot_icon_spec(
    dir: Seq<char>,
    candidates: Seq<(i32, i32, Vec<u8>)>,
) -> Result<CacheEntryView, IconError> {
    match first_candidate_spec(candidates) {
        Err(e) => Err(IconError::Pixmap(e)),
        Ok(chosen) => match decode_spec(chosen.0 as int, chosen.1 as int, chosen.2) {
            Err(e) => Err(IconError::Pixmap(e)),
            Ok(pixels) => store_spec(dir, pixels),
        },
    }
}

/// Two peers whose first candidates agree in width, height and bytes get the
/// same cache entry, and so the same path; the candidates that follow the
/// first do not matter.
pub proof fn lemma_same_icon_same_entry(
    dir: Seq<char>,
    first: Seq<(i32, i32, Vec<u8>)>,
    second: Seq<(i32, i32, Vec<u8>)>,
)
    requires
        first.len() > 0,
        second.len() > 0,
        first[0].0 == second[0].0,
        first[0].1 == second[0].1,
        first[0].2@ == second[0].2@,
    ensures
        snapshot_icon_spec(dir, first) == snapshot_icon_spec(dir, second),
{
}

/// Turns the icon that a peer advertises into its entry in the cache
/// directory `dir`: takes the first candidate, checks and reorders its
/// samples, names and encodes the image.
pub fn snapshot_icon(dir: &str, candidates: &[(i32, i32, Vec<u8>)]) -> (entry: Result<
    CacheEntry,
    IconError,
>)
    ensures
        match entry {
            Ok(e) => snapshot_icon_spec(dir@, candidates@) == Ok::<CacheEntryView, IconError>(e@),
            Err(e) => snapshot_icon_spec(dir@, candidates@) == Err::<CacheEntryView, IconError>(e),
        },
{
    let chosen = match first_candidate(candidates) {
        Ok(chosen) => chosen,
        Err(e) => {
            return Err(IconError::Pixmap(e));
        },
    };
    let pixels = match decode_pixmap(chosen.0, chosen.1, chosen.2.as_slice()) {
        Ok(pixels) => pixels,
        Err(e) => {
            return Err(IconError::Pixmap(e));
        },
    };
    store(dir, &pixels)
}

/// The snapshot of a peer with the given title whose icon is kept in the
/// cache entry `entry`.
pub fn snapshot(title: String, entry: &CacheEntry) -> (item: Item)
    ensures
        item@ == (ItemView {
            title: title@,
            icon: IconView { width: entry@.width, height: entry@.height, path: entry@.path },
        }),
{
    let icon = Icon { width: entry.width, height: entry.height, path: entry.path.clone() };
    Item { title, icon }
}

} // verus!
