//! Typed views over an ordered byte-keyed store: index kinds, the prefixed keys
//! under which an index keeps its entries, and the step of a prefix scan.

use vstd::prelude::*;

use crate::codec::{be_bytes, push_u64};
use crate::view::Height;

verus! {

#[derive(Debug, Clone, Copy, PartialEq, Eq, Structural)]
pub enum IndexType {
    Entry,
    KeySet,
    List,
    SparseList,
    PlainMap,
    ProofList,
    ProofMap,
    ValueSet,
}

/// The index kind stored as `num`; kinds are numbered from zero in declaration order.
pub open spec fn index_type_of(num: u8) -> IndexType
    recommends
        num < 8,
{
    if num == 0 {
        IndexType::Entry
    } else if num == 1 {
        IndexType::KeySet
    } else if num == 2 {
        IndexType::List
    } else if num == 3 {
        IndexType::SparseList
    } else if num == 4 {
        IndexType::PlainMap
    } else if num == 5 {
        IndexType::ProofList
    } else if num == 6 {
        IndexType::ProofMap
    } else {
        IndexType::ValueSet
    }
}

impl IndexType {
    /// The index kind stored as `num`.
    pub fn from(num: u8) -> (r: IndexType)
        requires
            num < 8,
        ensures
            r == index_type_of(num),
    {
        match num {
            0 => IndexType::Entry,
            1 => IndexType::KeySet,
            2 => IndexType::List,
            3 => IndexType::SparseList,
            4 => IndexType::PlainMap,
            5 => IndexType::ProofList,
            6 => IndexType::ProofMap,
            _ => IndexType::ValueSet,
        }
    }

    /// The index kind stored as `num`, or `None` where the stored byte names no kind.
    pub fn try_from_u8(num: u8) -> (r: Option<IndexType>)
        ensures
            r.is_some() <==> num < 8,
            r.is_some() ==> r.unwrap() == index_type_of(num),
    {
        if num < 8 {
            Some(IndexType::from(num))
        } else {
            None
        }
    }
}

/// The store key of `key` in the index called `name` with sub-index `index_id`.
pub open spec fn prefixed(name: Seq<u8>, index_id: Option<Vec<u8>>, key: Seq<u8>) -> Seq<u8> {
    match index_id {
        Some(id) => name + id@ + key,
        None => name + key,
    }
}

fn append(out: &mut Vec<u8>, b: &[u8])
    ensures
        final(out)@ == old(out)@ + b@,
{
    let mut i: usize = 0;
    let ghost start = out@;
    while i < b.len()
        invariant
            start == old(out)@,
            i <= b@.len(),
            out@ == start + b@.subrange(0, i as int),
        decreases b@.len() - i,
    {
        out.push(b[i]);
        assert(b@.subrange(0, i + 1) =~= b@.subrange(0, i as int).push(b@[i as int]));
        i = i + 1;
    }
    assert(b@.subrange(0, i as int) =~= b@);
}

/// The store key of `key` in the index called `name` with sub-index `index_id`:
/// the name, then the sub-index, then the key.
pub fn prefix_key(name: &[u8], index_id: &Option<Vec<u8>>, key: &[u8]) -> (r: Vec<u8>)
    ensures
        r@ == prefixed(name@, *index_id, key@),
{
    let mut out: Vec<u8> = Vec::new();
    append(&mut out, name);
    match index_id {
        Some(id) => append(&mut out, id.as_slice()),
        None => {},
    }
    append(&mut out, key);
    proof {
        match index_id {
            Some(id) => assert(out@ =~= name@ + id@ + key@),
            None => assert(out@ =~= name@ + key@),
        }
    }
    out
}

/// The key under which the hash of the block at `height` is kept: the keyspace
/// name, then the height as eight big-endian bytes.
pub fn height_key(keyspace: &[u8], height: Height) -> (r: Vec<u8>)
    ensures
        r@ == keyspace@ + be_bytes(height),
{
    let mut out: Vec<u8> = Vec::new();
    append(&mut out, keyspace);
    push_u64(&mut out, height);
    out
}

/// `s` begins with `p`.
pub open spec fn starts_with(s: Seq<u8>, p: Seq<u8>) -> bool {
    p.len() <= s.len() && s.subrange(0, p.len() as int) == p
}

/// A scan over the entries of one index: it yields entries while their keys carry
/// the index's prefix, each with that prefix's first `base_prefix_len` bytes taken
/// off the key, and stops for good at the first key that does not.
pub struct BaseIndexIter {
    pub base_prefix_len: usize,
    pub index_id: Vec<u8>,
    pub ended: bool,
}

impl BaseIndexIter {
    pub fn new(base_prefix_len: usize, index_id: Vec<u8>) -> (r: BaseIndexIter)
        ensures
            r.base_prefix_len == base_prefix_len,
            r.index_id == index_id,
            !r.ended,
    {
        BaseIndexIter { base_prefix_len, index_id, ended: false }
    }

    /// Takes the next entry of the underlying scan (`None` where it is exhausted)
    /// and returns the entry to yield, with its key shortened, or `None` at the end.
    pub fn next_entry(&mut self, item: Option<(Vec<u8>, Vec<u8>)>) -> (r: Option<(Vec<u8>, Vec<u8>)>)
        requires
            old(self).base_prefix_len <= old(self).index_id@.len(),
        ensures
            final(self).base_prefix_len == old(self).base_prefix_len,
            final(self).index_id == old(self).index_id,
            r.is_some() <==> !old(self).ended && item.is_some() && starts_with(
                item.unwrap().0@,
                old(self).index_id@,
            ),
            final(self).ended <==> r.is_none(),
            r.is_some() ==> r.unwrap().0@ == item.unwrap().0@.subrange(
                old(self).base_prefix_len as int,
                item.unwrap().0@.len() as int,
            ) && r.unwrap().1 == item.unwrap().1,
    {
        if self.ended {
            return None;
        }
        match item {
            Some((k, v)) => {
                if self.has_prefix(k.as_slice()) {
                    let mut rest: Vec<u8> = Vec::new();
                    let mut i: usize = self.base_prefix_len;
                    while i < k.len()
                        invariant
                            self.base_prefix_len <= i <= k@.len(),
                            rest@ == k@.subrange(self.base_prefix_len as int, i as int),
                        decreases k@.len() - i,
                    {
                        rest.push(k[i]);
                        assert(k@.subrange(self.base_prefix_len as int, i + 1) =~= k@.subrange(
                            self.base_prefix_len as int,
                            i as int,
                        ).push(k@[i as int]));
                        i = i + 1;
                    }
                    return Some((rest, v));
                }
                self.ended = true;
                None
            },
            None => {
                self.ended = true;
                None
            },
        }
    }

    fn has_prefix(&self, k: &[u8]) -> (r: bool)
        ensures
            r == starts_with(k@, self.index_id@),
    {
        let p = self.index_id.as_slice();
        if p.len() > k.len() {
            return false;
        }
        let mut i: usize = 0;
        while i < p.len()
            invariant
                p@ == self.index_id@,
                p@.len() <= k@.len(),
                i <= p@.len(),
                k@.subrange(0, i as int) == p@.subrange(0, i as int),
            decreases p@.len() - i,
        {
            if k[i] != p[i] {
                assert(k@.subrange(0, p@.len() as int)[i as int] != p@[i as int]);
                return false;
            }
            assert(k@.subrange(0, i + 1) =~= k@.subrange(0, i as int).push(k@[i as int]));
            assert(p@.subrange(0, i + 1) =~= p@.subrange(0, i as int).push(p@[i as int]));
            i = i + 1;
        }
        assert(p@.subrange(0, i as int) =~= p@);
        true
    }
}

} // verus!
