//! The two kinds of cached node.
use vstd::prelude::*;

verus! {

/// A file, whose contents are read on first demand.
pub struct ImfsFile {
    pub path: Vec<u8>,
    pub contents: Option<Vec<u8>>,
}

/// A directory; `children_enumerated` is set once every immediate child of
/// the directory has been written into the store.
pub struct ImfsDirectory {
    pub path: Vec<u8>,
    pub children_enumerated: bool,
}

/// A cached node, carrying the path it was loaded at.
pub enum ImfsItem {
    File(ImfsFile),
    Directory(ImfsDirectory),
}

impl ImfsItem {
    /// The path the item was loaded at.
    pub open spec fn spec_path(&self) -> Seq<u8> {
        match self {
            ImfsItem::File(file) => file.path@,
            ImfsItem::Directory(dir) => dir.path@,
        }
    }

    pub fn path(&self) -> (r: &[u8])
        ensures
            r@ == self.spec_path(),
    {
        match self {
            ImfsItem::File(file) => file.path.as_slice(),
            ImfsItem::Directory(dir) => dir.path.as_slice(),
        }
    }
}

} // verus!
