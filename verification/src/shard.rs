//! One shard: a mapping from byte-string keys to byte-string values.
//!
//! A shard holds one disjoint partition of the keyspace. It is represented
//! as a vector of key/value entries with pairwise-distinct keys and viewed
//! as the abstract map those entries denote. In a running server each shard
//! sits behind its own exclusive lock, so a shard never observes a
//! partially-applied write: every mutation here is a single whole-map
//! update.

use vstd::prelude::*;

verus! {

/// The abstract map denoted by a sequence of key/value entries, later
/// entries taking precedence.
pub closed spec fn map_of(entries: Seq<(Vec<u8>, Vec<u8>)>) -> Map<Seq<u8>, Seq<u8>>
    decreases entries.len(),
{
    if entries.len() == 0 {
        Map::empty()
    } else {
        map_of(entries.drop_last()).insert(entries.last().0@, entries.last().1@)
    }
}

/// The keys of `entries` are pairwise distinct.
pub open spec fn distinct_keys(entries: Seq<(Vec<u8>, Vec<u8>)>) -> bool {
    forall|p: int, q: int|
        0 <= p < q < entries.len() ==> entries[p].0@ != entries[q].0@
}

/// A map contains a key exactly when some entry carries it.
proof fn lemma_map_of_contains(entries: Seq<(Vec<u8>, Vec<u8>)>, k: Seq<u8>)
    ensures
        map_of(entries).contains_key(k) <==> (exists|i: int|
            0 <= i < entries.len() && entries[i].0@ == k),
    decreases entries.len(),
{
    if entries.len() > 0 {
        lemma_map_of_contains(entries.drop_last(), k);
        if map_of(entries).contains_key(k) {
            if entries.last().0@ != k {
                let i = choose|i: int|
                    0 <= i < entries.drop_last().len() && entries.drop_last()[i].0@ == k;
                assert(entries[i].0@ == k);
            }
        }
        if exists|i: int| 0 <= i < entries.len() && entries[i].0@ == k {
            let i = choose|i: int| 0 <= i < entries.len() && entries[i].0@ == k;
            if i < entries.len() - 1 {
                assert(entries.drop_last()[i].0@ == k);
            }
        }
    }
}

/// With distinct keys, the map's value at an entry's key is that entry's
/// value.
proof fn lemma_map_of_get(entries: Seq<(Vec<u8>, Vec<u8>)>, i: int)
    requires
        0 <= i < entries.len(),
        distinct_keys(entries),
    ensures
        map_of(entries).contains_key(entries[i].0@),
        map_of(entries)[entries[i].0@] == entries[i].1@,
    decreases entries.len(),
{
    if i < entries.len() - 1 {
        assert(entries.drop_last()[i] == entries[i]);
        lemma_map_of_get(entries.drop_last(), i);
        assert(entries.last().0@ != entries[i].0@);
    }
}

/// With distinct keys, replacing the entry that carries a key updates the
/// map at that key alone.
proof fn lemma_map_of_update(entries: Seq<(Vec<u8>, Vec<u8>)>, i: int, key: Vec<u8>, value: Vec<u8>)
    requires
        0 <= i < entries.len(),
        entries[i].0@ == key@,
        distinct_keys(entries),
    ensures
        map_of(entries.update(i, (key, value))) == map_of(entries).insert(key@, value@),
    decreases entries.len(),
{
    let updated = entries.update(i, (key, value));
    if i == entries.len() - 1 {
        assert(updated.drop_last() =~= entries.drop_last());
        assert(map_of(entries).insert(key@, value@) =~= map_of(entries.drop_last()).insert(
            key@,
            value@,
        ));
    } else {
        assert(updated.drop_last() =~= entries.drop_last().update(i, (key, value)));
        assert(entries.drop_last()[i] == entries[i]);
        lemma_map_of_update(entries.drop_last(), i, key, value);
        assert(entries.last().0@ != key@);
        assert(map_of(entries.drop_last()).insert(key@, value@).insert(
            entries.last().0@,
            entries.last().1@,
        ) =~= map_of(entries.drop_last()).insert(entries.last().0@, entries.last().1@).insert(
            key@,
            value@,
        ));
        assert(updated.last() == entries.last());
    }
}

/// One shard of the store: a mutable mapping from keys to values, holding a
/// disjoint partition of the keyspace.
pub struct Shard {
    entries: Vec<(Vec<u8>, Vec<u8>)>,
}

impl View for Shard {
    type V = Map<Seq<u8>, Seq<u8>>;

    /// The abstract map this shard holds.
    closed spec fn view(&self) -> Map<Seq<u8>, Seq<u8>> {
        map_of(self.entries@)
    }
}

impl Shard {
    /// The shard's representation invariant: no key appears twice.
    pub closed spec fn wf(&self) -> bool {
        distinct_keys(self.entries@)
    }

    /// An empty shard.
    pub fn new() -> (s: Shard)
        ensures
            s.wf(),
            s@ == Map::<Seq<u8>, Seq<u8>>::empty(),
    {
        Shard { entries: Vec::new() }
    }

    /// Look a key up: a copy of the stored value if the key is present, the
    /// absence-marker `None` otherwise. No side effects.
    pub fn get(&self, key: &Vec<u8>) -> (r: Option<Vec<u8>>)
        requires
            self.wf(),
        ensures
            match r {
                Some(v) => self@.contains_key(key@) && v@ == self@[key@],
                None => !self@.contains_key(key@),
            },
    {
        let n = self.entries.len();
        let mut i: usize = 0;
        while i < n
            invariant
                self.wf(),
                n == self.entries@.len(),
                i <= n,
                forall|j: int| 0 <= j < i ==> self.entries@[j].0@ != key@,
            decreases n - i,
        {
            if bytes_eq(&self.entries[i].0, key) {
                proof {
                    lemma_map_of_get(self.entries@, i as int);
                }
                return Some(self.entries[i].1.clone());
            }
            i = i + 1;
        }
        proof {
            lemma_map_of_contains(self.entries@, key@);
        }
        None
    }

    /// Insert or overwrite the mapping for `key`. Unconditionally succeeds;
    /// the whole update is one map insertion, so no reader of the resulting
    /// shard can see a partial write.
    pub fn set(&mut self, key: Vec<u8>, value: Vec<u8>)
        requires
            old(self).wf(),
        ensures
            final(self).wf(),
            final(self)@ == old(self)@.insert(key@, value@),
    {
        let n = self.entries.len();
        let mut i: usize = 0;
        while i < n
            invariant
                self == old(self),
                self.wf(),
                n == self.entries@.len(),
                i <= n,
                forall|j: int| 0 <= j < i ==> self.entries@[j].0@ != key@,
            decreases n - i,
        {
            if bytes_eq(&self.entries[i].0, &key) {
                proof {
                    lemma_map_of_update(self.entries@, i as int, key, value);
                }
                self.entries[i] = (key, value);
                proof {
                    let prev = old(self).entries@;
                    let cur = self.entries@;
                    assert forall|p: int, q: int|
                        0 <= p < q < cur.len() implies cur[p].0@ != cur[q].0@ by {
                        assert(cur[p].0@ == prev[p].0@);
                        assert(cur[q].0@ == prev[q].0@);
                    }
                    assert(distinct_keys(cur));
                }
                return ;
            }
            i = i + 1;
        }
        proof {
            let pushed = self.entries@.push((key, value));
            assert(pushed.drop_last() =~= self.entries@);
            lemma_map_of_contains(self.entries@, key@);
        }
        self.entries.push((key, value));
    }
}

/// Byte-string equality, stated over the abstract sequences.
pub fn bytes_eq(a: &Vec<u8>, b: &Vec<u8>) -> (r: bool)
    ensures
        r == (a@ == b@),
{
    let r = a == b;
    proof {
        if r {
            assert(a@ =~= b@);
        } else {
            if a@ == b@ {
                assert(forall|i: int| 0 <= i < a@.len() ==> a@[i] == b@[i]);
            }
        }
    }
    r
}

} // verus!
