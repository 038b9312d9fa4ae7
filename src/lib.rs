//! An in-memory, lazily populated mirror of a hierarchical backing store.
//!
//! Items are read through an [`ImfsFetcher`] the first time a path is asked
//! for, file contents are read at most once and kept, and callers get
//! detached [`ImfsEntry`] handles that re-query the cache by path.
pub mod imfs;
pub mod item;
pub mod path;
pub mod path_map;

pub use imfs::{Imfs, ImfsEntry, ImfsFetcher};
pub use item::{ImfsDirectory, ImfsFile, ImfsItem};
pub use path_map::PathMap;
