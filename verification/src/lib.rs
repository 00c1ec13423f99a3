//! A file-backed version history for small text notes.
//!
//! The library is the decision core of the system: it owns the in-memory
//! index of notes, decides when a working copy has diverged from the last
//! recorded version, derives slugs and blob paths, debounces filesystem
//! events for the background watcher, and judges the liveness marker that
//! keeps at most one watcher per data root. All file, process and clock
//! access stays with the surrounding binary, which hands the library plain
//! values and carries its decisions out.

pub mod bullet;
pub mod clock;
pub mod completions;
pub mod dates;
pub mod errors;
pub mod guard;
pub mod hash;
pub mod listing;
pub mod numfmt;
pub mod paths;
pub mod slug;
pub mod store;
pub mod text;
pub mod watcher;
