//! The sharded store: a fixed-length sequence of shards with deterministic
//! routing.
//!
//! The shard count is chosen at construction and never changes, so a key
//! resolves to the same shard index for the store's whole lifetime. The
//! store is viewed as one abstract map: a key is present exactly when the
//! shard it routes to holds it. `set` touches only the shard the key routes
//! to — the frame conditions in its contract say every other shard is left
//! exactly as it was, which is what lets per-shard locks run operations on
//! different shards fully in parallel.

use vstd::prelude::*;

use crate::hashing::route_spec;
use crate::hashing::shard_index;
use crate::shard::Shard;

verus! {

/// A fixed-length ordered collection of shards, routing each key to exactly
/// one of them.
pub struct ShardedStore {
    shards: Vec<Shard>,
}

impl View for ShardedStore {
    type V = Map<Seq<u8>, Seq<u8>>;

    /// The one abstract map the store holds: a key is looked up in the
    /// shard it routes to.
    closed spec fn view(&self) -> Map<Seq<u8>, Seq<u8>> {
        Map::new(
            |k: Seq<u8>| self.shards@[route_spec(k, self.shards@.len() as int)]@.contains_key(k),
            |k: Seq<u8>| self.shards@[route_spec(k, self.shards@.len() as int)]@[k],
        )
    }
}

impl ShardedStore {
    /// How many shards the store was built with.
    pub closed spec fn num_shards(&self) -> int {
        self.shards@.len() as int
    }

    /// The abstract map held by the shard at index `i`.
    pub closed spec fn shard_view(&self, i: int) -> Map<Seq<u8>, Seq<u8>> {
        self.shards@[i]@
    }

    /// The store's representation invariant: at least one shard, and every
    /// shard well-formed.
    pub closed spec fn wf(&self) -> bool {
        &&& self.shards@.len() >= 1
        &&& forall|i: int| 0 <= i < self.shards@.len() ==> (#[trigger] self.shards@[i]).wf()
    }

    /// A store of `num_shards` empty shards.
    pub fn new(num_shards: usize) -> (s: ShardedStore)
        requires
            num_shards >= 1,
        ensures
            s.wf(),
            s.num_shards() == num_shards,
            s@ == Map::<Seq<u8>, Seq<u8>>::empty(),
    {
        let mut shards: Vec<Shard> = Vec::new();
        let mut i: usize = 0;
        while i < num_shards
            invariant
                i <= num_shards,
                shards@.len() == i,
                forall|j: int| 0 <= j < i ==> (#[trigger] shards@[j]).wf(),
                forall|j: int|
                    0 <= j < i ==> (#[trigger] shards@[j])@ == Map::<Seq<u8>, Seq<u8>>::empty(),
            decreases num_shards - i,
        {
            shards.push(Shard::new());
            i = i + 1;
        }
        let s = ShardedStore { shards };
        proof {
            assert(s@ =~= Map::<Seq<u8>, Seq<u8>>::empty());
        }
        s
    }

    /// The shard index `key` routes to. The result is a pure function of
    /// the key and the shard count alone, so two calls on one store — or on
    /// any two stores with the same shard count — return the same index.
    pub fn route(&self, key: &Vec<u8>) -> (i: usize)
        requires
            self.wf(),
        ensures
            i == route_spec(key@, self.num_shards()),
            i < self.num_shards(),
    {
        shard_index(key, self.shards.len())
    }

    /// Look `key` up in the shard it routes to: a copy of the stored value
    /// if present, the absence-marker otherwise. The store is not changed.
    pub fn get(&self, key: &Vec<u8>) -> (r: Option<Vec<u8>>)
        requires
            self.wf(),
        ensures
            match r {
                Some(v) => self@.contains_key(key@) && v@ == self@[key@],
                None => !self@.contains_key(key@),
            },
    {
        let i = self.route(key);
        let r = self.shards[i].get(key);
        proof {
            assert(self@.contains_key(key@) == self.shards@[i as int]@.contains_key(key@));
        }
        r
    }

    /// Insert or overwrite the mapping for `key`. Unconditionally
    /// succeeds. Only the shard the key routes to is touched: every other
    /// shard is left exactly as it was, and the store as a whole gains the
    /// one new mapping.
    pub fn set(&mut self, key: Vec<u8>, value: Vec<u8>)
        requires
            old(self).wf(),
        ensures
            final(self).wf(),
            final(self).num_shards() == old(self).num_shards(),
            final(self)@ == old(self)@.insert(key@, value@),
            final(self).shard_view(route_spec(key@, old(self).num_shards())) == old(self).shard_view(
                route_spec(key@, old(self).num_shards()),
            ).insert(key@, value@),
            forall|j: int|
                0 <= j < old(self).num_shards() && j != route_spec(key@, old(self).num_shards())
                    ==> final(self).shard_view(j) == old(self).shard_view(j),
    {
        let i = shard_index(&key, self.shards.len());
        let ghost k = key@;
        let ghost v = value@;
        let shard = vstd::std_specs::vec::vec_index_mut(&mut self.shards, i);
        shard.set(key, value);
        proof {
            let n = old(self).num_shards();
            assert forall|q: Seq<u8>| true implies {
                &&& self@.contains_key(q) == old(self)@.insert(k, v).contains_key(q)
                &&& (self@.contains_key(q) ==> self@[q] == old(self)@.insert(k, v)[q])
            } by {
                if q != k {
                    assert(self.shards@[route_spec(q, n)]@ == old(self).shards@[route_spec(
                        q,
                        n,
                    )]@ || route_spec(q, n) == i as int);
                }
            }
            assert(self@ =~= old(self)@.insert(k, v));
        }
    }
}

} // verus!
