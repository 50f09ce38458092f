//! A broker for tray items announced over a message bus.
//!
//! The crate holds the rules of the broker as plain, verified functions: the
//! registry of announced peers, the decoding and content-addressed caching of
//! their icons, the life cycle of one peer's session, and the aggregate of all
//! current snapshots. Talking to the bus and to the file system is left to
//! the program that embeds the library.

pub mod aggregator;
pub mod icon_cache;
pub mod item;
pub mod pixmap;
pub mod session;
pub mod snapshot;
pub mod watcher;
