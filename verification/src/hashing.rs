//! Deterministic routing of keys to shard indices.
//!
//! The routing function must return the same shard index for a key on every
//! call within one process run, and should spread keys roughly uniformly.
//! A 64-bit FNV-1a hash over the key's bytes satisfies both: it is a pure
//! function of the bytes, so determinism is immediate, and it distributes
//! well enough to bound worst-case contention.

use vstd::prelude::*;

verus! {

/// Offset basis of the 64-bit FNV-1a hash.
pub const FNV_OFFSET_BASIS: u64 = 0xcbf2_9ce4_8422_2325;

/// Prime of the 64-bit FNV-1a hash.
pub const FNV_PRIME: u64 = 0x100_0000_01b3;

/// One FNV-1a step: fold one byte into the running hash.
pub open spec fn fnv1a_step(h: u64, b: u8) -> u64 {
    vstd::wrapping::u64_specs::wrapping_mul(h ^ (b as u64), FNV_PRIME)
}

/// The 64-bit FNV-1a hash of a byte sequence, folded left to right.
pub open spec fn hash_spec(key: Seq<u8>) -> u64
    decreases key.len(),
{
    if key.len() == 0 {
        FNV_OFFSET_BASIS
    } else {
        fnv1a_step(hash_spec(key.drop_last()), key.last())
    }
}

/// The shard index a key routes to among `num_shards` shards: the key's
/// hash reduced modulo the shard count. A pure function of the key and the
/// shard count, so routing is stable for as long as the count is.
pub open spec fn route_spec(key: Seq<u8>, num_shards: int) -> int {
    hash_spec(key) as int % num_shards
}

/// Hash a key. The result depends on the key's bytes alone.
pub fn hash(key: &Vec<u8>) -> (h: u64)
    ensures
        h == hash_spec(key@),
{
    let mut h: u64 = FNV_OFFSET_BASIS;
    let mut i: usize = 0;
    while i < key.len()
        invariant
            i <= key@.len(),
            h == hash_spec(key@.subrange(0, i as int)),
        decreases key@.len() - i,
    {
        h = (h ^ (key[i] as u64)).wrapping_mul(FNV_PRIME);
        proof {
            assert(key@.subrange(0, i + 1).drop_last() =~= key@.subrange(0, i as int));
        }
        i = i + 1;
    }
    proof {
        assert(key@.subrange(0, key@.len() as int) =~= key@);
    }
    h
}

/// The shard index for a key among `num_shards` shards.
pub fn shard_index(key: &Vec<u8>, num_shards: usize) -> (i: usize)
    requires
        num_shards >= 1,
    ensures
        i == route_spec(key@, num_shards as int),
        i < num_shards,
{
    let h = hash(key);
    (h % (num_shards as u64)) as usize
}

} // verus!
