//! An ordered map from paths to values, with a query for the immediate
//! children of a path.
use vstd::prelude::*;

use crate::path::{bytes_equal, is_parent_of, parent_len, to_owned_bytes};

verus! {

/// Entries in insertion order; no key occurs twice.
pub struct PathMap<T> {
    entries: Vec<(Vec<u8>, T)>,
}

/// The keys among `keys` whose parent is `parent`, in the same order.
pub open spec fn children_in(keys: Seq<Seq<u8>>, parent: Seq<u8>) -> Seq<Seq<u8>> {
    keys.filter(|k: Seq<u8>| is_parent_of(parent, k))
}

/// Each listed child is one of the keys, and its parent is `parent`.
pub proof fn lemma_children_in_keys(keys: Seq<Seq<u8>>, parent: Seq<u8>)
    ensures
        forall|i: int|
            0 <= i < children_in(keys, parent).len() ==> keys.contains(
                #[trigger] children_in(keys, parent)[i],
            ) && is_parent_of(parent, children_in(keys, parent)[i]),
    decreases keys.len(),
{
    reveal(Seq::filter);
    if keys.len() > 0 {
        let rest = keys.drop_last();
        lemma_children_in_keys(rest, parent);
        assert forall|i: int| 0 <= i < children_in(keys, parent).len() implies keys.contains(
            #[trigger] children_in(keys, parent)[i],
        ) && is_parent_of(parent, children_in(keys, parent)[i]) by {
            let c = children_in(keys, parent)[i];
            if i < children_in(rest, parent).len() {
                assert(c == children_in(rest, parent)[i]);
                let j = choose|j: int| 0 <= j < rest.len() && rest[j] == c;
                assert(keys[j] == c);
            } else {
                assert(c == keys.last());
                assert(keys[keys.len() - 1] == c);
            }
        }
    }
}

impl<T> PathMap<T> {
    /// Every listed child of `parent` is a key of the map.
    pub proof fn lemma_children_present(&self, parent: Seq<u8>)
        ensures
            forall|i: int|
                0 <= i < self.spec_children(parent).len() ==> self@.contains_key(
                    #[trigger] self.spec_children(parent)[i],
                ),
    {
        lemma_children_in_keys(self.keys(), parent);
        assert forall|i: int| 0 <= i < self.spec_children(parent).len() implies self@.contains_key(
            #[trigger] self.spec_children(parent)[i],
        ) by {
            assert(self.keys().contains(self.spec_children(parent)[i]));
        }
    }

    /// The keys, in insertion order.
    pub closed spec fn keys(&self) -> Seq<Seq<u8>> {
        self.entries@.map_values(|e: (Vec<u8>, T)| e.0@)
    }

    pub closed spec fn wf(&self) -> bool {
        self.keys().no_duplicates()
    }

    closed spec fn position(&self, k: Seq<u8>) -> int {
        choose|i: int| 0 <= i < self.entries@.len() && self.entries@[i].0@ == k
    }

    /// The map from each key to its value.
    pub closed spec fn view(&self) -> Map<Seq<u8>, T> {
        Map::new(
            |k: Seq<u8>| self.keys().contains(k),
            |k: Seq<u8>| self.entries@[self.position(k)].1,
        )
    }

    /// The keys whose parent is `parent`, in insertion order.
    pub open spec fn spec_children(&self, parent: Seq<u8>) -> Seq<Seq<u8>> {
        children_in(self.keys(), parent)
    }

    proof fn lemma_entry(&self, i: int)
        requires
            self.wf(),
            0 <= i < self.entries@.len(),
        ensures
            self@.contains_key(self.entries@[i].0@),
            self@[self.entries@[i].0@] == self.entries@[i].1,
            self.keys()[i] == self.entries@[i].0@,
    {
        let k = self.entries@[i].0@;
        assert(self.keys()[i] == k);
        let j = self.position(k);
        assert(0 <= j < self.entries@.len() && self.entries@[j].0@ == k);
        assert(self.keys()[j] == k);
    }

    /// The keys are distinct, and they are exactly the keys of the map.
    pub proof fn lemma_keys(&self)
        requires
            self.wf(),
        ensures
            self.keys().no_duplicates(),
            forall|k: Seq<u8>| #[trigger] self@.contains_key(k) <==> self.keys().contains(k),
    {
    }

    pub fn new() -> (r: Self)
        ensures
            r.wf(),
            r@ == Map::<Seq<u8>, T>::empty(),
            r.keys() == Seq::<Seq<u8>>::empty(),
    {
        let r = PathMap { entries: Vec::new() };
        proof {
            assert(r.keys() =~= Seq::<Seq<u8>>::empty());
            assert(r@ =~= Map::<Seq<u8>, T>::empty());
        }
        r
    }

    /// Where `key` stands among the keys, if it is present.
    pub fn find(&self, key: &[u8]) -> (r: Option<usize>)
        requires
            self.wf(),
        ensures
            match r {
                Some(i) => i < self.keys().len() && self.keys()[i as int] == key@
                    && self@.contains_key(key@),
                None => !self@.contains_key(key@),
            },
    {
        let mut i: usize = 0;
        while i < self.entries.len()
            invariant
                self.wf(),
                i <= self.entries@.len(),
                forall|j: int| 0 <= j < i ==> self.keys()[j] != key@,
            decreases self.entries@.len() - i,
        {
            if bytes_equal(self.entries[i].0.as_slice(), key) {
                proof {
                    self.lemma_entry(i as int);
                }
                return Some(i);
            }
            proof {
                assert(self.keys()[i as int] == self.entries@[i as int].0@);
            }
            i = i + 1;
        }
        proof {
            if self.keys().contains(key@) {
                let j = choose|j: int| 0 <= j < self.keys().len() && self.keys()[j] == key@;
                assert(self.keys()[j] == key@);
            }
        }
        None
    }

    pub fn contains_key(&self, key: &[u8]) -> (r: bool)
        requires
            self.wf(),
        ensures
            r == self@.contains_key(key@),
    {
        self.find(key).is_some()
    }

    /// The value at position `i` of the insertion order.
    pub fn value_at(&self, i: usize) -> (r: &T)
        requires
            self.wf(),
            i < self.keys().len(),
        ensures
            *r == self@[self.keys()[i as int]],
    {
        proof {
            self.lemma_entry(i as int);
        }
        &self.entries[i].1
    }

    pub fn get(&self, key: &[u8]) -> (r: Option<&T>)
        requires
            self.wf(),
        ensures
            match r {
                Some(v) => self@.contains_key(key@) && *v == self@[key@],
                None => !self@.contains_key(key@),
            },
    {
        match self.find(key) {
            Some(i) => Some(self.value_at(i)),
            None => None,
        }
    }

    /// Sets the value of `key`; a new key goes after every present one.
    pub fn insert(&mut self, key: Vec<u8>, value: T)
        requires
            old(self).wf(),
        ensures
            final(self).wf(),
            final(self)@ == old(self)@.insert(key@, value),
            final(self).keys() == if old(self)@.contains_key(key@) {
                old(self).keys()
            } else {
                old(self).keys().push(key@)
            },
    {
        match self.find(key.as_slice()) {
            Some(i) => {
                let ghost before = *self;
                self.entries.set(i, (key, value));
                proof {
                    assert(self.keys() =~= before.keys());
                    assert forall|k: Seq<u8>| #[trigger] self@.contains_key(k) implies self@[k]
                        == before@.insert(key@, value)[k] by {
                        let j = self.position(k);
                        self.lemma_entry(j);
                        if j != i {
                            before.lemma_entry(j);
                        }
                    }
                    assert(self@ =~= before@.insert(key@, value));
                }
            },
            None => {
                let ghost before = *self;
                self.entries.push((key, value));
                proof {
                    assert(self.keys() =~= before.keys().push(key@));
                    assert forall|k: Seq<u8>| #[trigger] self@.contains_key(k) implies self@[k]
                        == before@.insert(key@, value)[k] by {
                        let j = self.position(k);
                        self.lemma_entry(j);
                        if j < before.entries@.len() {
                            before.lemma_entry(j);
                        }
                    }
                    assert forall|k: Seq<u8>| #[trigger] self.keys().contains(k) <==> (
                    before.keys().contains(k) || k == key@) by {
                        if self.keys().contains(k) {
                            let j = choose|j: int| 0 <= j < self.keys().len() && self.keys()[j] == k;
                            if j < before.keys().len() {
                                assert(before.keys()[j] == k);
                            }
                        }
                        if before.keys().contains(k) {
                            let j = choose|j: int| 0 <= j < before.keys().len() && before.keys()[j] == k;
                            assert(self.keys()[j] == k);
                        }
                        if k == key@ {
                            assert(self.keys()[before.keys().len() as int] == k);
                        }
                    }
                    assert(self@ =~= before@.insert(key@, value));
                }
            },
        }
    }

    /// The keys whose parent is `parent`, in insertion order; `None` where
    /// `parent` itself is absent.
    pub fn children(&self, parent: &[u8]) -> (r: Option<Vec<Vec<u8>>>)
        requires
            self.wf(),
        ensures
            match r {
                Some(v) => self@.contains_key(parent@) && v@.map_values(|c: Vec<u8>| c@)
                    == self.spec_children(parent@),
                None => !self@.contains_key(parent@),
            },
    {
        if !self.contains_key(parent) {
            return None;
        }
        let mut out: Vec<Vec<u8>> = Vec::new();
        let mut i: usize = 0;
        while i < self.entries.len()
            invariant
                self.wf(),
                i <= self.entries@.len(),
                out@.map_values(|c: Vec<u8>| c@) == children_in(
                    self.keys().subrange(0, i as int),
                    parent@,
                ),
            decreases self.entries@.len() - i,
        {
            let key = self.entries[i].0.as_slice();
            let ghost ks = self.keys().subrange(0, i as int + 1);
            proof {
                assert(ks.drop_last() =~= self.keys().subrange(0, i as int));
                assert(ks.last() == key@);
                reveal(Seq::filter);
            }
            let is_child = match parent_len(key) {
                Some(n) => n == parent.len() && bytes_equal(&key[0..n], parent),
                None => false,
            };
            if is_child {
                out.push(to_owned_bytes(key));
            }
            proof {
                assert(out@.map_values(|c: Vec<u8>| c@) =~= children_in(ks, parent@));
            }
            i = i + 1;
        }
        proof {
            assert(self.keys().subrange(0, self.entries@.len() as int) =~= self.keys());
        }
        Some(out)
    }
}

} // verus!
