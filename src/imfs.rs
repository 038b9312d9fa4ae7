//! The cache engine: lazy population of the store, memoized file contents,
//! and the residency predicate.
use vstd::prelude::*;

use crate::item::{ImfsFile, ImfsItem};
use crate::path::{is_parent_of, parent_len, parent_of, to_owned_bytes};
use crate::path_map::{children_in, lemma_children_in_keys, PathMap};

verus! {

#[verifier::external_type_specification]
#[verifier::external_body]
pub struct ExIoError(std::io::Error);

/// Relies on std::io::Error::kind: whether the backing store reported the
/// path as missing (ErrorKind::NotFound) rather than failing.
#[verifier::external_body]
fn is_not_found(e: &std::io::Error) -> bool {
    e.kind() == std::io::ErrorKind::NotFound
}

/// The only channel to the backing store.
pub trait ImfsFetcher {
    /// Whether `path` is a file or a directory, without a file's contents.
    /// A missing path is reported as an error of kind `NotFound`.
    fn read_item(&self, path: &[u8]) -> Result<ImfsItem, std::io::Error>;

    /// The items directly under the directory at `path`.
    fn read_children(&self, path: &[u8]) -> Result<Vec<ImfsItem>, std::io::Error>;

    /// The whole contents of the file at `path`.
    fn read_contents(&self, path: &[u8]) -> Result<Vec<u8>, std::io::Error>;

    fn create_directory(&self, path: &[u8]) -> Result<(), std::io::Error>;

    fn write_contents(&self, path: &[u8], contents: &[u8]) -> Result<(), std::io::Error>;

    fn remove(&self, path: &[u8]) -> Result<(), std::io::Error>;
}

/// The path and kind that an entry reports for `item`.
pub open spec fn entry_of(item: ImfsItem) -> (Seq<u8>, bool) {
    (item.spec_path(), item is File)
}

/// The loaded contents of `item`, if it is a file whose contents were read.
pub open spec fn loaded_contents(item: ImfsItem) -> Option<Seq<u8>> {
    match item {
        ImfsItem::File(file) => match file.contents {
            Some(c) => Some(c@),
            None => None,
        },
        ImfsItem::Directory(_) => None,
    }
}

/// Whether `store` tracks `p`: `p` is present, or its parent is a present
/// directory whose children have not all been enumerated yet.
pub open spec fn resident_in(store: Map<Seq<u8>, ImfsItem>, p: Seq<u8>) -> bool {
    store.contains_key(p) || match parent_of(p) {
        Some(q) => store.contains_key(q) && match store[q] {
            ImfsItem::Directory(dir) => !dir.children_enumerated,
            ImfsItem::File(_) => false,
        },
        None => false,
    }
}

/// Whether every item of `store` carries the path it is stored under.
pub open spec fn keyed_by_own_path(store: Map<Seq<u8>, ImfsItem>) -> bool {
    forall|k: Seq<u8>| #[trigger] store.contains_key(k) ==> store[k].spec_path() == k
}

/// A detached handle to a cached item, identified by its path.
pub struct ImfsEntry {
    path: Vec<u8>,
    is_file: bool,
}

impl View for ImfsEntry {
    type V = (Seq<u8>, bool);

    closed spec fn view(&self) -> (Seq<u8>, bool) {
        (self.path@, self.is_file)
    }
}

/// The cache: a store of items, filled on demand through a fetcher.
pub struct Imfs<F> {
    inner: PathMap<ImfsItem>,
    fetcher: F,
    item_reads: Ghost<Seq<Seq<u8>>>,
    content_reads: Ghost<Seq<Seq<u8>>>,
}

/// What a lookup of `p` on `before` returns and leaves behind.
pub open spec fn get_outcome<F: ImfsFetcher>(
    before: Imfs<F>,
    p: Seq<u8>,
    r: Result<Option<ImfsEntry>, std::io::Error>,
    after: Imfs<F>,
) -> bool {
    &&& after.wf()
    &&& after.content_reads() == before.content_reads()
    &&& if before.store().contains_key(p) {
        &&& after == before
        &&& r matches Ok(Some(e)) && e@ == entry_of(before.store()[p])
    } else {
        &&& after.item_reads() == before.item_reads().push(p)
        &&& match r {
            Ok(Some(e)) => {
                &&& after.store() == before.store().insert(p, after.store()[p])
                &&& after.store_keys() == before.store_keys().push(p)
                &&& e@ == entry_of(after.store()[p])
            },
            _ => {
                &&& after.store() == before.store()
                &&& after.store_keys() == before.store_keys()
            },
        }
    }
}

/// What a read of the contents of `p` on `before` returns and leaves behind.
pub open spec fn contents_outcome<F: ImfsFetcher>(
    before: Imfs<F>,
    p: Seq<u8>,
    r: Result<Option<&[u8]>, std::io::Error>,
    after: Imfs<F>,
) -> bool {
    &&& after.wf()
    &&& match r {
        Ok(Some(c)) => after.store().contains_key(p) && loaded_contents(after.store()[p]) == Some(
            c@,
        ),
        Ok(None) => !after.store().contains_key(p) || after.store()[p] is Directory,
        Err(_) => true,
    }
    &&& if before.store().contains_key(p) {
        &&& after.item_reads() == before.item_reads()
        &&& match before.store()[p] {
            ImfsItem::Directory(_) => {
                &&& after == before
                &&& r matches Ok(None)
            },
            ImfsItem::File(file) => if file.contents is Some {
                &&& after == before
                &&& r matches Ok(Some(c)) && Some(c@) == loaded_contents(before.store()[p])
            } else {
                &&& after.content_reads() == before.content_reads().push(p)
                &&& after.store_keys() == before.store_keys()
                &&& if r is Ok {
                    &&& after.store() == before.store().insert(p, after.store()[p])
                    &&& after.store()[p] is File
                    &&& after.store()[p].spec_path() == before.store()[p].spec_path()
                } else {
                    after.store() == before.store()
                }
            },
        }
    } else {
        &&& after.item_reads() == before.item_reads().push(p)
        &&& if after.store().contains_key(p) {
            &&& after.store() == before.store().insert(p, after.store()[p])
            &&& after.store_keys() == before.store_keys().push(p)
            &&& match after.store()[p] {
                ImfsItem::Directory(_) => {
                    &&& after.content_reads() == before.content_reads()
                    &&& r matches Ok(None)
                },
                ImfsItem::File(_) => {
                    &&& after.content_reads() == before.content_reads() || after.content_reads()
                        == before.content_reads().push(p)
                    &&& r is Err ==> loaded_contents(after.store()[p]) is None
                },
            }
        } else {
            &&& after.store() == before.store()
            &&& after.store_keys() == before.store_keys()
            &&& after.content_reads() == before.content_reads()
            &&& !(r matches Ok(Some(_)))
        }
    }
}

impl<F: ImfsFetcher> Imfs<F> {
    /// The items held, by the path they are stored under.
    pub closed spec fn store(&self) -> Map<Seq<u8>, ImfsItem> {
        self.inner@
    }

    /// The paths held, in the order they were first stored.
    pub closed spec fn store_keys(&self) -> Seq<Seq<u8>> {
        self.inner.keys()
    }

    /// Every path handed to the fetcher's `read_item`, in order.
    pub closed spec fn item_reads(&self) -> Seq<Seq<u8>> {
        self.item_reads@
    }

    /// Every path handed to the fetcher's `read_contents`, in order.
    pub closed spec fn content_reads(&self) -> Seq<Seq<u8>> {
        self.content_reads@
    }

    pub closed spec fn wf(&self) -> bool {
        self.inner.wf()
    }

    /// The entries for the stored children of `p`, in store order.
    pub open spec fn children_entries(&self, p: Seq<u8>) -> Seq<(Seq<u8>, bool)> {
        children_in(self.store_keys(), p).map_values(|k: Seq<u8>| entry_of(self.store()[k]))
    }

    /// The stored paths are distinct, and they are exactly the paths of the
    /// store.
    pub proof fn lemma_store_keys(&self)
        requires
            self.wf(),
        ensures
            self.store_keys().no_duplicates(),
            forall|k: Seq<u8>| #[trigger] self.store().contains_key(k) <==> self.store_keys().contains(
                k,
            ),
    {
        self.inner.lemma_keys();
    }

    pub fn new(fetcher: F) -> (r: Self)
        ensures
            r.wf(),
            r.store() == Map::<Seq<u8>, ImfsItem>::empty(),
            r.store_keys() == Seq::<Seq<u8>>::empty(),
            r.item_reads() == Seq::<Seq<u8>>::empty(),
            r.content_reads() == Seq::<Seq<u8>>::empty(),
    {
        Imfs {
            inner: PathMap::new(),
            fetcher,
            item_reads: Ghost(Seq::empty()),
            content_reads: Ghost(Seq::empty()),
        }
    }

    /// Tells whether a change at `path` concerns the cache: the path is
    /// loaded, or its parent is a loaded directory whose children have not
    /// all been enumerated.
    pub fn would_be_resident(&self, path: &[u8]) -> (r: bool)
        requires
            self.wf(),
        ensures
            r == resident_in(self.store(), path@),
    {
        if self.inner.contains_key(path) {
            return true;
        }
        match parent_len(path) {
            Some(n) => match self.inner.get(&path[0..n]) {
                Some(ImfsItem::Directory(dir)) => !dir.children_enumerated,
                Some(ImfsItem::File(_)) => false,
                None => false,
            },
            None => false,
        }
    }

    /// Stores `item` under `path`, replacing what was there; this is how an
    /// enumeration of a directory writes children and marks the directory as
    /// enumerated.
    pub fn insert_item(&mut self, path: &[u8], item: ImfsItem)
        requires
            old(self).wf(),
        ensures
            final(self).wf(),
            final(self).store() == old(self).store().insert(path@, item),
            keyed_by_own_path(old(self).store()) && item.spec_path() == path@ ==> keyed_by_own_path(
                final(self).store(),
            ),
            final(self).store_keys() == if old(self).store().contains_key(path@) {
                old(self).store_keys()
            } else {
                old(self).store_keys().push(path@)
            },
            final(self).item_reads() == old(self).item_reads(),
            final(self).content_reads() == old(self).content_reads(),
    {
        self.inner.insert(to_owned_bytes(path), item);
    }

    /// Makes `path` resident, reading its item on a miss. `Ok(false)` where
    /// the backing store reports the path as missing.
    fn read_if_not_exists(&mut self, path: &[u8]) -> (r: Result<bool, std::io::Error>)
        requires
            old(self).wf(),
        ensures
            final(self).wf(),
            final(self).content_reads() == old(self).content_reads(),
            old(self).store().contains_key(path@) ==> *final(self) == *old(self) && r
                == Ok::<bool, std::io::Error>(true),
            !old(self).store().contains_key(path@) ==> {
                &&& final(self).item_reads() == old(self).item_reads().push(path@)
                &&& if r == Ok::<bool, std::io::Error>(true) {
                    &&& final(self).store().contains_key(path@)
                    &&& final(self).store() == old(self).store().insert(
                        path@,
                        final(self).store()[path@],
                    )
                    &&& final(self).store_keys() == old(self).store_keys().push(path@)
                } else {
                    &&& final(self).store() == old(self).store()
                    &&& final(self).store_keys() == old(self).store_keys()
                }
            },
    {
        if self.inner.contains_key(path) {
            return Ok(true);
        }
        self.item_reads = Ghost(self.item_reads@.push(path@));
        let read = self.fetcher.read_item(path);
        let not_found = match &read {
            Ok(_) => false,
            Err(e) => is_not_found(e),
        };
        self.store_read_item(path, read, not_found)
    }

    /// Settles a miss on `path` with what the backing store answered: a read
    /// item is stored under `path`; a failure leaves the store as it was and
    /// is `Ok(false)` where the store reported the path as missing
    /// (`not_found`), else handed back.
    pub fn store_read_item(
        &mut self,
        path: &[u8],
        read: Result<ImfsItem, std::io::Error>,
        not_found: bool,
    ) -> (r: Result<bool, std::io::Error>)
        requires
            old(self).wf(),
            !old(self).store().contains_key(path@),
        ensures
            final(self).wf(),
            final(self).item_reads() == old(self).item_reads(),
            final(self).content_reads() == old(self).content_reads(),
            match read {
                Ok(item) => {
                    &&& r == Ok::<bool, std::io::Error>(true)
                    &&& final(self).store() == old(self).store().insert(path@, item)
                    &&& keyed_by_own_path(old(self).store()) && item.spec_path() == path@
                        ==> keyed_by_own_path(final(self).store())
                    &&& final(self).store_keys() == old(self).store_keys().push(path@)
                },
                Err(e) => {
                    &&& final(self).store() == old(self).store()
                    &&& final(self).store_keys() == old(self).store_keys()
                    &&& r == if not_found {
                        Ok::<bool, std::io::Error>(false)
                    } else {
                        Err::<bool, std::io::Error>(e)
                    }
                },
            },
    {
        match read {
            Ok(item) => {
                self.inner.insert(to_owned_bytes(path), item);
                Ok(true)
            },
            Err(e) => {
                if not_found {
                    Ok(false)
                } else {
                    Err(e)
                }
            },
        }
    }

    /// Settles a read of the contents of the unread file at `path`: read
    /// bytes are kept in the file, which keeps its path; a failure leaves the
    /// store as it was and is handed back.
    pub fn store_read_contents(&mut self, path: &[u8], read: Result<Vec<u8>, std::io::Error>) -> (r:
        Result<(), std::io::Error>)
        requires
            old(self).wf(),
            old(self).store().contains_key(path@),
            old(self).store()[path@] is File,
            loaded_contents(old(self).store()[path@]) is None,
        ensures
            final(self).wf(),
            final(self).item_reads() == old(self).item_reads(),
            final(self).content_reads() == old(self).content_reads(),
            final(self).store_keys() == old(self).store_keys(),
            keyed_by_own_path(old(self).store()) ==> keyed_by_own_path(final(self).store()),
            match read {
                Ok(b) => {
                    &&& r is Ok
                    &&& final(self).store() == old(self).store().insert(
                        path@,
                        final(self).store()[path@],
                    )
                    &&& final(self).store()[path@] is File
                    &&& final(self).store()[path@].spec_path() == old(
                        self,
                    ).store()[path@].spec_path()
                    &&& loaded_contents(final(self).store()[path@]) == Some(b@)
                },
                Err(e) => {
                    &&& r == Err::<(), std::io::Error>(e)
                    &&& final(self).store() == old(self).store()
                },
            },
    {
        match read {
            Ok(contents) => {
                let file_path = match self.inner.get(path) {
                    Some(item) => to_owned_bytes(item.path()),
                    None => Vec::new(),
                };
                let file = ImfsFile { path: file_path, contents: Some(contents) };
                self.inner.insert(to_owned_bytes(path), ImfsItem::File(file));
                Ok(())
            },
            Err(e) => Err(e),
        }
    }

    /// The entry for `path`, reading its item from the backing store on a
    /// miss. `Ok(None)` where the backing store has no such path.
    pub fn get(&mut self, path: &[u8]) -> (r: Result<Option<ImfsEntry>, std::io::Error>)
        requires
            old(self).wf(),
        ensures
            get_outcome(*old(self), path@, r, *final(self)),
    {
        match self.read_if_not_exists(path) {
            Ok(true) => {},
            Ok(false) => return Ok(None),
            Err(e) => return Err(e),
        }
        match self.inner.get(path) {
            Some(item) => Ok(Some(ImfsEntry::of_item(item))),
            None => Ok(None),
        }
    }

    /// The contents of the file at `path`, read from the backing store at
    /// most once and kept from then on. `Ok(None)` for a directory, and where
    /// the backing store has no such path.
    pub fn get_contents(&mut self, path: &[u8]) -> (r: Result<Option<&[u8]>, std::io::Error>)
        requires
            old(self).wf(),
        ensures
            contents_outcome(*old(self), path@, r, *final(self)),
    {
        let ghost before = *self;
        match self.read_if_not_exists(path) {
            Ok(true) => {},
            Ok(false) => return Ok(None),
            Err(e) => return Err(e),
        }
        let i = match self.inner.find(path) {
            Some(i) => i,
            None => return Ok(None),
        };
        let missing = match self.inner.value_at(i) {
            ImfsItem::File(file) => file.contents.is_none(),
            ImfsItem::Directory(_) => return Ok(None),
        };
        if missing {
            self.content_reads = Ghost(self.content_reads@.push(path@));
            let read = self.fetcher.read_contents(path);
            match self.store_read_contents(path, read) {
                Ok(()) => {},
                Err(e) => return Err(e),
            }
            proof {
                assert(self.store() =~= before.store().insert(path@, self.store()[path@]));
            }
        }
        let this: &Self = self;
        match this.inner.value_at(i) {
            ImfsItem::File(file) => match &file.contents {
                Some(contents) => Ok(Some(contents.as_slice())),
                None => Ok(None),
            },
            ImfsItem::Directory(_) => Ok(None),
        }
    }

    /// The entries for the children of `path` that the store holds, in store
    /// order; nothing is read from the backing store. `None` where `path`
    /// itself is not stored.
    pub fn get_children(&mut self, path: &[u8]) -> (r: Option<Vec<ImfsEntry>>)
        requires
            old(self).wf(),
        ensures
            *final(self) == *old(self),
            match r {
                Some(v) => old(self).store().contains_key(path@) && v@.map_values(
                    |e: ImfsEntry| e@,
                ) == old(self).children_entries(path@),
                None => !old(self).store().contains_key(path@),
            },
    {
        let keys = match self.inner.children(path) {
            Some(keys) => keys,
            None => return None,
        };
        let ghost child_keys = self.inner.spec_children(path@);
        let mut out: Vec<ImfsEntry> = Vec::new();
        let mut i: usize = 0;
        while i < keys.len()
            invariant
                self.wf(),
                i <= keys@.len(),
                out@.len() == i,
                keys@.map_values(|c: Vec<u8>| c@) == child_keys,
                child_keys == self.inner.spec_children(path@),
                out@.map_values(|e: ImfsEntry| e@) == child_keys.subrange(0, i as int).map_values(
                    |k: Seq<u8>| entry_of(self.store()[k]),
                ),
            decreases keys@.len() - i,
        {
            let ghost k = child_keys[i as int];
            proof {
                assert(keys@[i as int]@ == k);
                self.inner.lemma_children_present(path@);
                assert(self.store().contains_key(k));
            }
            let ghost prev = out@;
            match self.inner.get(keys[i].as_slice()) {
                Some(item) => {
                    out.push(ImfsEntry::of_item(item));
                },
                None => {},
            }
            proof {
                assert forall|j: int| 0 <= j < i implies #[trigger] out@[j]@ == entry_of(
                    self.store()[child_keys[j]],
                ) by {
                    assert(out@[j] == prev[j]);
                    assert(prev.map_values(|e: ImfsEntry| e@)[j] == child_keys.subrange(
                        0,
                        i as int,
                    ).map_values(|k: Seq<u8>| entry_of(self.store()[k]))[j]);
                }
                assert(out@.map_values(|e: ImfsEntry| e@) =~= child_keys.subrange(0, i + 1).map_values(
                    |k: Seq<u8>| entry_of(self.store()[k]),
                ));
            }
            i = i + 1;
        }
        proof {
            assert(child_keys.subrange(0, keys@.len() as int) =~= child_keys);
        }
        Some(out)
    }
}

impl ImfsEntry {
    fn of_item(item: &ImfsItem) -> (r: ImfsEntry)
        ensures
            r@ == entry_of(*item),
    {
        let is_file = match item {
            ImfsItem::File(_) => true,
            ImfsItem::Directory(_) => false,
        };
        ImfsEntry { path: to_owned_bytes(item.path()), is_file }
    }
    pub fn path(&self) -> (r: &[u8])
        ensures
            r@ == self@.0,
    {
        self.path.as_slice()
    }

    pub fn is_file(&self) -> (r: bool)
        ensures
            r == self@.1,
    {
        self.is_file
    }

    pub fn is_directory(&self) -> (r: bool)
        ensures
            r == !self@.1,
    {
        !self.is_file
    }

    /// The contents of the file at this entry's path, as the cache has them
    /// now.
    pub fn contents<'a, F: ImfsFetcher>(&self, imfs: &'a mut Imfs<F>) -> (r: Result<
        Option<&'a [u8]>,
        std::io::Error,
    >)
        requires
            old(imfs).wf(),
        ensures
            contents_outcome(*old(imfs), self@.0, r, *final(imfs)),
    {
        imfs.get_contents(self.path.as_slice())
    }

    /// The entries for the stored children of this entry's path.
    pub fn children<F: ImfsFetcher>(&self, imfs: &mut Imfs<F>) -> (r: Option<Vec<ImfsEntry>>)
        requires
            old(imfs).wf(),
        ensures
            *final(imfs) == *old(imfs),
            match r {
                Some(v) => old(imfs).store().contains_key(self@.0) && v@.map_values(
                    |e: ImfsEntry| e@,
                ) == old(imfs).children_entries(self@.0),
                None => !old(imfs).store().contains_key(self@.0),
            },
    {
        imfs.get_children(self.path.as_slice())
    }
}

/// Looking a path up twice in a row gives two entries with the same path and
/// kind, once the first lookup found one; the second lookup changes nothing
/// and reads nothing from the backing store.
pub proof fn lemma_get_twice<F: ImfsFetcher>(
    s0: Imfs<F>,
    p: Seq<u8>,
    r1: Result<Option<ImfsEntry>, std::io::Error>,
    s1: Imfs<F>,
    r2: Result<Option<ImfsEntry>, std::io::Error>,
    s2: Imfs<F>,
)
    requires
        get_outcome(s0, p, r1, s1),
        get_outcome(s1, p, r2, s2),
        r1 matches Ok(Some(_)),
    ensures
        s2 == s1,
        match (r1, r2) {
            (Ok(Some(e1)), Ok(Some(e2))) => e1@ == e2@,
            _ => false,
        },
{
    assert(s1.store().contains_key(p));
}

/// Reading the contents of a path twice in a row gives the same bytes, once
/// the first read gave some; the second read changes nothing, so
/// `read_contents` is not called for the path again.
pub proof fn lemma_contents_twice<F: ImfsFetcher>(
    s0: Imfs<F>,
    p: Seq<u8>,
    r1: Result<Option<&[u8]>, std::io::Error>,
    s1: Imfs<F>,
    r2: Result<Option<&[u8]>, std::io::Error>,
    s2: Imfs<F>,
)
    requires
        contents_outcome(s0, p, r1, s1),
        contents_outcome(s1, p, r2, s2),
        r1 matches Ok(Some(_)),
    ensures
        s2 == s1,
        s2.content_reads() == s1.content_reads(),
        s2.item_reads() == s1.item_reads(),
        match (r1, r2) {
            (Ok(Some(c1)), Ok(Some(c2))) => c1@ == c2@,
            _ => false,
        },
{
    assert(s1.store().contains_key(p));
}

/// A path that the store holds as a directory after a read of its contents
/// gave no contents and no failure.
pub proof fn lemma_directory_has_no_contents<F: ImfsFetcher>(
    s0: Imfs<F>,
    p: Seq<u8>,
    r: Result<Option<&[u8]>, std::io::Error>,
    s1: Imfs<F>,
)
    requires
        contents_outcome(s0, p, r, s1),
        s1.store().contains_key(p),
        s1.store()[p] is Directory,
    ensures
        r matches Ok(None),
{
}

/// Storing an item at a path whose parent is not `p` leaves the children of
/// `p` as they were.
pub proof fn lemma_children_ignore_unrelated<F: ImfsFetcher>(
    s0: Imfs<F>,
    q: Seq<u8>,
    item: ImfsItem,
    s1: Imfs<F>,
    p: Seq<u8>,
)
    requires
        s0.wf(),
        s1.store() == s0.store().insert(q, item),
        s1.store_keys() == if s0.store().contains_key(q) {
            s0.store_keys()
        } else {
            s0.store_keys().push(q)
        },
        !is_parent_of(p, q),
    ensures
        s1.children_entries(p) == s0.children_entries(p),
{
    if !s0.store().contains_key(q) {
        reveal(Seq::filter);
        assert(s0.store_keys().push(q).drop_last() =~= s0.store_keys());
    }
    let ks = s0.inner.spec_children(p);
    assert(s1.inner.spec_children(p) == ks);
    lemma_children_in_keys(s0.store_keys(), p);
    assert forall|i: int| 0 <= i < ks.len() implies s1.store()[#[trigger] ks[i]] == s0.store()[ks[i]] by {
        assert(is_parent_of(p, ks[i]));
        s0.inner.lemma_children_present(p);
    }
    assert(s1.children_entries(p) =~= s0.children_entries(p));
}

/// A lookup, on any path, leaves the item of a file whose contents were read
/// as it was, so those contents are not read from the backing store again.
pub proof fn lemma_get_keeps_loaded_contents<F: ImfsFetcher>(
    s0: Imfs<F>,
    q: Seq<u8>,
    r: Result<Option<ImfsEntry>, std::io::Error>,
    s1: Imfs<F>,
    p: Seq<u8>,
)
    requires
        get_outcome(s0, q, r, s1),
        s0.store().contains_key(p),
        loaded_contents(s0.store()[p]) is Some,
    ensures
        s1.store().contains_key(p),
        s1.store()[p] == s0.store()[p],
{
}

/// A read of contents, on any path, leaves the item of a file whose contents
/// were read as it was, so those contents are not read from the backing
/// store again.
pub proof fn lemma_contents_keep_loaded_contents<F: ImfsFetcher>(
    s0: Imfs<F>,
    q: Seq<u8>,
    r: Result<Option<&[u8]>, std::io::Error>,
    s1: Imfs<F>,
    p: Seq<u8>,
)
    requires
        contents_outcome(s0, q, r, s1),
        s0.store().contains_key(p),
        loaded_contents(s0.store()[p]) is Some,
    ensures
        s1.store().contains_key(p),
        s1.store()[p] == s0.store()[p],
{
}

} // verus!
