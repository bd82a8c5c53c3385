//! The store's laws, stated over the abstract maps that the executable
//! contracts speak of.
//!
//! `Shard::set` and `ShardedStore::set` turn the store's contents `m` into
//! `m.insert(k, v)`, and the `get`s answer from the contents alone, so each
//! law below transfers directly to any sequence of calls whose contracts
//! compose to these map expressions.

use vstd::prelude::*;

use crate::handler::Command;
use crate::handler::session_state;
use crate::hashing::route_spec;
use crate::store::ShardedStore;

verus! {

/// Whether a command writes to key `k`.
pub open spec fn writes_key(c: Command, k: Seq<u8>) -> bool {
    match c {
        Command::Put { key, .. } => key@ == k,
        _ => false,
    }
}

/// Whether a command writes exactly the value `v` to key `k`.
pub open spec fn writes_value(c: Command, k: Seq<u8>, v: Seq<u8>) -> bool {
    match c {
        Command::Put { key, value } => key@ == k && value@ == v,
        _ => false,
    }
}

/// Read-your-write: after `set(k, v)`, a `get(k)` on the same store returns
/// exactly `v`.
pub proof fn lemma_read_your_write(m: Map<Seq<u8>, Seq<u8>>, k: Seq<u8>, v: Seq<u8>)
    ensures
        m.insert(k, v).contains_key(k),
        m.insert(k, v)[k] == v,
{
}

/// A key no command of a session ever writes stays absent: starting from
/// contents without `k`, any command sequence that never sets `k` leaves a
/// store in which `get(k)` returns the absence-marker.
pub proof fn lemma_never_set_stays_absent(
    m0: Map<Seq<u8>, Seq<u8>>,
    cmds: Seq<Command>,
    k: Seq<u8>,
)
    requires
        !m0.contains_key(k),
        forall|i: int| 0 <= i < cmds.len() ==> !writes_key(#[trigger] cmds[i], k),
    ensures
        !session_state(m0, cmds).contains_key(k),
    decreases cmds.len(),
{
    if cmds.len() > 0 {
        assert(forall|i: int|
            0 <= i < cmds.drop_last().len() ==> !writes_key(#[trigger] cmds.drop_last()[i], k));
        lemma_never_set_stays_absent(m0, cmds.drop_last(), k);
        assert(!writes_key(cmds.last(), k));
    }
}

/// Idempotence: applying `set(k, v)` twice leaves the same observable store
/// contents as applying it once.
pub proof fn lemma_set_idempotent(m: Map<Seq<u8>, Seq<u8>>, k: Seq<u8>, v: Seq<u8>)
    ensures
        m.insert(k, v).insert(k, v) == m.insert(k, v),
{
    assert(m.insert(k, v).insert(k, v) =~= m.insert(k, v));
}

/// Overwrite: `set(k, v1)` then `set(k, v2)` leaves exactly the contents of
/// `set(k, v2)` alone, so a `get(k)` then returns `v2`.
pub proof fn lemma_overwrite(m: Map<Seq<u8>, Seq<u8>>, k: Seq<u8>, v1: Seq<u8>, v2: Seq<u8>)
    ensures
        m.insert(k, v1).insert(k, v2) == m.insert(k, v2),
        m.insert(k, v1).insert(k, v2)[k] == v2,
{
    assert(m.insert(k, v1).insert(k, v2) =~= m.insert(k, v2));
}

/// Routing stability: the shard index a key routes to is a pure function of
/// the key and the shard count, so any two stores with equal shard counts —
/// in particular one store before and after any number of `get`/`set`
/// calls, none of which changes the count — route every key identically.
pub proof fn lemma_routing_stable(s1: ShardedStore, s2: ShardedStore, k: Seq<u8>)
    requires
        s1.num_shards() == s2.num_shards(),
    ensures
        route_spec(k, s1.num_shards()) == route_spec(k, s2.num_shards()),
{
}

/// Writes to distinct keys commute: the two execution orders leave the same
/// store contents, and each key holds its own value in both — concurrent
/// `set`s of distinct keys are all independently visible, regardless of
/// interleaving.
pub proof fn lemma_distinct_sets_commute(
    m: Map<Seq<u8>, Seq<u8>>,
    k1: Seq<u8>,
    v1: Seq<u8>,
    k2: Seq<u8>,
    v2: Seq<u8>,
)
    requires
        k1 != k2,
    ensures
        m.insert(k1, v1).insert(k2, v2) == m.insert(k2, v2).insert(k1, v1),
        m.insert(k1, v1).insert(k2, v2)[k1] == v1,
        m.insert(k1, v1).insert(k2, v2)[k2] == v2,
{
    assert(m.insert(k1, v1).insert(k2, v2) =~= m.insert(k2, v2).insert(k1, v1));
}

/// No torn values: whatever commands ran, a key a session leaves readable
/// holds exactly a value some single write gave it whole — either its value
/// in the starting contents or the value of one `Put` of the session, never
/// a mixture of two writes.
pub proof fn lemma_no_torn_values(m0: Map<Seq<u8>, Seq<u8>>, cmds: Seq<Command>, k: Seq<u8>)
    requires
        session_state(m0, cmds).contains_key(k),
    ensures
        (m0.contains_key(k) && session_state(m0, cmds)[k] == m0[k]) || exists|i: int|
            0 <= i < cmds.len() && writes_value(
                #[trigger] cmds[i],
                k,
                session_state(m0, cmds)[k],
            ),
    decreases cmds.len(),
{
    if cmds.len() > 0 {
        let v = session_state(m0, cmds)[k];
        if writes_key(cmds.last(), k) {
            assert(writes_value(cmds[cmds.len() - 1], k, v));
        } else {
            lemma_no_torn_values(m0, cmds.drop_last(), k);
            if !m0.contains_key(k) || session_state(m0, cmds)[k] != m0[k] {
                let i = choose|i: int|
                    0 <= i < cmds.drop_last().len() && writes_value(
                        #[trigger] cmds.drop_last()[i],
                        k,
                        v,
                    );
                assert(writes_value(cmds[i], k, v));
            }
        }
    }
}

/// A session of supported commands on distinct keys leaves every written
/// key at the last value some command gave it, whatever else ran before:
/// here, the special case that one `Put` makes its key visible through any
/// following commands that do not write it.
pub proof fn lemma_put_visible_through_session(
    m0: Map<Seq<u8>, Seq<u8>>,
    cmds: Seq<Command>,
    k: Seq<u8>,
    v: Seq<u8>,
)
    requires
        m0.contains_key(k),
        m0[k] == v,
        forall|i: int| 0 <= i < cmds.len() ==> !writes_key(#[trigger] cmds[i], k),
    ensures
        session_state(m0, cmds).contains_key(k),
        session_state(m0, cmds)[k] == v,
    decreases cmds.len(),
{
    if cmds.len() > 0 {
        assert(forall|i: int|
            0 <= i < cmds.drop_last().len() ==> !writes_key(#[trigger] cmds.drop_last()[i], k));
        lemma_put_visible_through_session(m0, cmds.drop_last(), k, v);
        assert(!writes_key(cmds.last(), k));
    }
}

} // verus!
