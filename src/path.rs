//! Paths are byte strings whose components are separated by `/`.
//! Equality is byte-wise; the parent of a path is the path with its last
//! component removed.
use vstd::prelude::*;

verus! {

/// The byte that separates path components.
pub const SEPARATOR: u8 = 0x2f;

/// Index of the last separator in `p`, or -1 where there is none.
pub open spec fn last_separator(p: Seq<u8>) -> int
    decreases p.len(),
{
    if p.len() == 0 {
        -1
    } else if p.last() == SEPARATOR {
        p.len() - 1
    } else {
        last_separator(p.drop_last())
    }
}

/// The parent of `p`: everything before its last separator, or the root `/`
/// when that separator is the first byte. A path without a separator, and the
/// root itself, have no parent.
pub open spec fn parent_of(p: Seq<u8>) -> Option<Seq<u8>> {
    let i = last_separator(p);
    if i < 0 {
        None
    } else if i == 0 {
        if p.len() == 1 {
            None
        } else {
            Some(p.subrange(0, 1))
        }
    } else {
        Some(p.subrange(0, i))
    }
}

/// Whether `parent` is the parent of `child`.
pub open spec fn is_parent_of(parent: Seq<u8>, child: Seq<u8>) -> bool {
    parent_of(child) == Some(parent)
}

/// Length of the parent of `p` (which is always a prefix of `p`), or `None`
/// where `p` has no parent.
pub fn parent_len(p: &[u8]) -> (r: Option<usize>)
    ensures
        match r {
            Some(n) => n <= p@.len() && parent_of(p@) == Some(p@.subrange(0, n as int)),
            None => parent_of(p@).is_none(),
        },
{
    let mut i: usize = p.len();
    proof {
        assert(p@.subrange(0, i as int) =~= p@);
    }
    while i > 0
        invariant
            i <= p@.len(),
            last_separator(p@) == last_separator(p@.subrange(0, i as int)),
        decreases i,
    {
        let ghost q = p@.subrange(0, i as int);
        if p[i - 1] == SEPARATOR {
            proof {
                assert(q.last() == SEPARATOR);
            }
            if i == 1 {
                if p.len() == 1 {
                    return None;
                }
                return Some(1);
            }
            return Some(i - 1);
        }
        proof {
            assert(q.drop_last() =~= p@.subrange(0, i - 1));
        }
        i = i - 1;
    }
    proof {
        assert(p@.subrange(0, 0).len() == 0);
    }
    None
}

/// Whether the bytes of `a` and `b` are the same.
pub fn bytes_equal(a: &[u8], b: &[u8]) -> (r: bool)
    ensures
        r == (a@ == b@),
{
    if a.len() != b.len() {
        return false;
    }
    let mut i: usize = 0;
    while i < a.len()
        invariant
            a@.len() == b@.len(),
            i <= a@.len(),
            forall|j: int| 0 <= j < i ==> a@[j] == b@[j],
        decreases a@.len() - i,
    {
        if a[i] != b[i] {
            return false;
        }
        i = i + 1;
    }
    proof {
        assert(a@ =~= b@);
    }
    true
}

/// A fresh vector holding the bytes of `s`.
pub fn to_owned_bytes(s: &[u8]) -> (r: Vec<u8>)
    ensures
        r@ == s@,
{
    let mut r: Vec<u8> = Vec::new();
    let mut i: usize = 0;
    while i < s.len()
        invariant
            i <= s@.len(),
            r@ == s@.subrange(0, i as int),
        decreases s@.len() - i,
    {
        r.push(s[i]);
        proof {
            assert(r@ =~= s@.subrange(0, i + 1));
        }
        i = i + 1;
    }
    proof {
        assert(s@.subrange(0, s@.len() as int) =~= s@);
    }
    r
}

} // verus!
