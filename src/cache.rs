//! The ledger's two LRU caches (hash by height, block by hash), kept in
//! `lru_time_cache::LruCache`.

use lru_time_cache::LruCache;
use vstd::prelude::*;

use crate::block::{Block, H256};
use crate::view::Height;

verus! {

#[verifier::external_type_specification]
#[verifier::external_body]
#[verifier::reject_recursive_types(Key)]
#[verifier::reject_recursive_types(Value)]
pub struct ExLruCache<Key, Value>(LruCache<Key, Value>);

/// Hash of the block at each cached height.
pub type HeightCache = LruCache<u64, H256>;

/// Cached blocks, by hash.
pub type BlockCache = LruCache<H256, Block>;

/// What a hash-by-height cache holds.
pub uninterp spec fn height_entries(c: HeightCache) -> Map<u64, Seq<u8>>;

/// The capacity a hash-by-height cache was made with.
pub uninterp spec fn height_capacity(c: HeightCache) -> nat;

/// What a block-by-hash cache holds.
pub uninterp spec fn block_entries(c: BlockCache) -> Map<Seq<u8>, Block>;

/// The capacity a block-by-hash cache was made with.
pub uninterp spec fn block_capacity(c: BlockCache) -> nat;

/// Relies on LruCache::with_capacity: an empty cache bounded by `capacity`.
#[verifier::external_body]
pub(crate) fn new_height_cache(capacity: usize) -> (r: HeightCache)
    ensures
        forall|k: u64| !(#[trigger] height_entries(r).contains_key(k)),
        height_capacity(r) == capacity,
{
    LruCache::with_capacity(capacity)
}

/// Relies on LruCache::insert: the key then maps to the value; to make room, other
/// entries may be evicted, none is added or changed. With capacity zero it panics.
#[verifier::external_body]
pub(crate) fn height_cache_insert(c: &mut HeightCache, key: Height, value: H256)
    requires
        height_capacity(*old(c)) > 0,
    ensures
        height_capacity(*final(c)) == height_capacity(*old(c)),
        height_entries(*final(c)).contains_key(key),
        height_entries(*final(c))[key] == value@,
        forall|k: u64|
            k != key && #[trigger] height_entries(*final(c)).contains_key(k) ==> height_entries(
                *old(c),
            ).contains_key(k) && height_entries(*final(c))[k] == height_entries(*old(c))[k],
{
    let _ = c.insert(key, value);
}

/// Relies on LruCache::get: a hit is the value stored under the key; the call
/// only reorders entries (or drops expired ones).
#[verifier::external_body]
pub(crate) fn height_cache_get(c: &mut HeightCache, key: Height) -> (r: Option<H256>)
    ensures
        height_capacity(*final(c)) == height_capacity(*old(c)),
        r.is_some() ==> height_entries(*old(c)).contains_key(key) && r.unwrap()@ == height_entries(
            *old(c),
        )[key],
        forall|k: u64|
            #[trigger] height_entries(*final(c)).contains_key(k) ==> height_entries(
                *old(c),
            ).contains_key(k) && height_entries(*final(c))[k] == height_entries(*old(c))[k],
{
    c.get(&key).cloned()
}

/// Relies on LruCache::with_capacity: an empty cache bounded by `capacity`.
#[verifier::external_body]
pub(crate) fn new_block_cache(capacity: usize) -> (r: BlockCache)
    ensures
        forall|k: Seq<u8>| !(#[trigger] block_entries(r).contains_key(k)),
        block_capacity(r) == capacity,
{
    LruCache::with_capacity(capacity)
}

/// Relies on LruCache::insert: the key then maps to the value; to make room, other
/// entries may be evicted, none is added or changed. With capacity zero it panics.
#[verifier::external_body]
pub(crate) fn block_cache_insert(c: &mut BlockCache, key: H256, value: Block)
    requires
        block_capacity(*old(c)) > 0,
    ensures
        block_capacity(*final(c)) == block_capacity(*old(c)),
        block_entries(*final(c)).contains_key(key@),
        block_entries(*final(c))[key@] == value,
        forall|k: Seq<u8>|
            k != key@ && #[trigger] block_entries(*final(c)).contains_key(k) ==> block_entries(
                *old(c),
            ).contains_key(k) && block_entries(*final(c))[k] == block_entries(*old(c))[k],
{
    let _ = c.insert(key, value);
}

/// Relies on LruCache::get: a hit is the block stored under the key; the call
/// only reorders entries (or drops expired ones).
#[verifier::external_body]
pub(crate) fn block_cache_get<'a>(c: &'a mut BlockCache, key: &H256) -> (r: Option<&'a Block>)
    ensures
        block_capacity(*final(c)) == block_capacity(*old(c)),
        r.is_some() ==> block_entries(*old(c)).contains_key(key@) && *r.unwrap() == block_entries(
            *old(c),
        )[key@],
        forall|k: Seq<u8>|
            #[trigger] block_entries(*final(c)).contains_key(k) ==> block_entries(
                *old(c),
            ).contains_key(k) && block_entries(*final(c))[k] == block_entries(*old(c))[k],
{
    c.get(key)
}

} // verus!
