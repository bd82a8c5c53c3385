//! The per-connection command dispatch.
//!
//! A connection handler repeatedly receives one decoded command, applies it
//! to the store, and produces one response. Decoding bytes into commands
//! and encoding responses back are the frame collaborator's work and stay
//! outside the library, as do the socket reads and writes around them; what
//! is here is the decision in the middle: which store operation a command
//! performs and which response it earns.
//!
//! A syntactically valid command the store does not implement is a fault of
//! the owning connection, surfaced as [`DispatchError::UnsupportedCommand`]
//! rather than swallowed; it never disturbs the store, whose state these
//! functions change only by whole-map insertions.

use vstd::prelude::*;

use crate::shard::Shard;
use crate::store::ShardedStore;

verus! {

/// One decoded client command.
#[derive(Debug, PartialEq, Eq)]
pub enum Command {
    /// Associate `value` with `key`, inserting or overwriting.
    Put { key: Vec<u8>, value: Vec<u8> },
    /// Look `key` up.
    Get { key: Vec<u8> },
    /// A syntactically valid command the store does not implement.
    Other,
}

/// One response to a client command.
#[derive(Debug, PartialEq, Eq)]
pub enum Response {
    /// A `Set` succeeded.
    Ack,
    /// A `Get` found this value.
    Value(Vec<u8>),
    /// A `Get` found nothing: the absence-marker, a normal outcome and not
    /// an error.
    Absent,
}

/// What ends a connection from inside the dispatch: a command the store
/// does not implement.
#[derive(Debug, PartialEq, Eq)]
pub enum DispatchError {
    UnsupportedCommand,
}

/// Whether the store implements this command.
pub open spec fn command_supported(c: Command) -> bool {
    !(c is Other)
}

/// The store contents after one command: `Set` inserts its mapping, every
/// other command leaves the store as it is.
pub open spec fn apply_command(m: Map<Seq<u8>, Seq<u8>>, c: Command) -> Map<Seq<u8>, Seq<u8>> {
    match c {
        Command::Put { key, value } => m.insert(key@, value@),
        _ => m,
    }
}

/// Whether `resp` is the right answer to `c` against store contents `m`: a
/// `Set` earns the acknowledgment, a `Get` earns the stored value or the
/// absence-marker, and an unsupported command earns no response at all.
pub open spec fn response_matches(m: Map<Seq<u8>, Seq<u8>>, c: Command, resp: Response) -> bool {
    match c {
        Command::Put { .. } => resp == Response::Ack,
        Command::Get { key } => match resp {
            Response::Value(v) => m.contains_key(key@) && v@ == m[key@],
            Response::Absent => !m.contains_key(key@),
            _ => false,
        },
        Command::Other => false,
    }
}

/// The key a command addresses, if it addresses one.
pub open spec fn command_key_spec(c: Command) -> Option<Seq<u8>> {
    match c {
        Command::Put { key, .. } => Some(key@),
        Command::Get { key } => Some(key@),
        Command::Other => None,
    }
}

/// The key a command addresses — what a server routes on before picking
/// the shard lock to take. Exactly the supported commands address one.
pub fn command_key(c: &Command) -> (k: Option<&Vec<u8>>)
    ensures
        match k {
            Some(key) => command_key_spec(*c) == Some(key@),
            None => command_key_spec(*c) is None,
        },
{
    match c {
        Command::Put { key, .. } => Some(key),
        Command::Get { key } => Some(key),
        Command::Other => None,
    }
}

/// Dispatch one command against the whole store: the `Dispatch` step of a
/// connection handler. A supported command always succeeds — `Set` with the
/// acknowledgment, `Get` with the value or the absence-marker — and an
/// unsupported one fails without touching the store.
pub fn dispatch(store: &mut ShardedStore, cmd: Command) -> (r: Result<Response, DispatchError>)
    requires
        old(store).wf(),
    ensures
        final(store).wf(),
        final(store).num_shards() == old(store).num_shards(),
        final(store)@ == apply_command(old(store)@, cmd),
        match r {
            Ok(resp) => command_supported(cmd) && response_matches(old(store)@, cmd, resp),
            Err(e) => !command_supported(cmd) && e == DispatchError::UnsupportedCommand,
        },
{
    match cmd {
        Command::Put { key, value } => {
            store.set(key, value);
            Ok(Response::Ack)
        },
        Command::Get { key } => match store.get(&key) {
            Some(v) => Ok(Response::Value(v)),
            None => Ok(Response::Absent),
        },
        Command::Other => Err(DispatchError::UnsupportedCommand),
    }
}

/// Dispatch one command against a single shard: what a server runs while it
/// holds that shard's lock, having routed the command's key there. The
/// contract is the same as [`dispatch`]'s, stated over the one shard's map.
pub fn dispatch_on_shard(shard: &mut Shard, cmd: Command) -> (r: Result<Response, DispatchError>)
    requires
        old(shard).wf(),
    ensures
        final(shard).wf(),
        final(shard)@ == apply_command(old(shard)@, cmd),
        match r {
            Ok(resp) => command_supported(cmd) && response_matches(old(shard)@, cmd, resp),
            Err(e) => !command_supported(cmd) && e == DispatchError::UnsupportedCommand,
        },
{
    match cmd {
        Command::Put { key, value } => {
            shard.set(key, value);
            Ok(Response::Ack)
        },
        Command::Get { key } => match shard.get(&key) {
            Some(v) => Ok(Response::Value(v)),
            None => Ok(Response::Absent),
        },
        Command::Other => Err(DispatchError::UnsupportedCommand),
    }
}

/// The store contents after a whole command sequence, applied in order.
pub open spec fn session_state(m: Map<Seq<u8>, Seq<u8>>, cmds: Seq<Command>) -> Map<
    Seq<u8>,
    Seq<u8>,
>
    decreases cmds.len(),
{
    if cmds.len() == 0 {
        m
    } else {
        apply_command(session_state(m, cmds.drop_last()), cmds.last())
    }
}

/// The position of the first unsupported command, or the sequence's length
/// when every command is supported.
pub open spec fn first_unsupported(cmds: Seq<Command>) -> int
    decreases cmds.len(),
{
    if cmds.len() == 0 {
        0
    } else if !command_supported(cmds[0]) {
        0
    } else {
        1 + first_unsupported(cmds.skip(1))
    }
}

/// A position with no unsupported command before it, holding one itself, is
/// the first unsupported position.
proof fn lemma_first_unsupported(cmds: Seq<Command>, j: int)
    requires
        0 <= j < cmds.len(),
        !command_supported(cmds[j]),
        forall|i: int| 0 <= i < j ==> command_supported(#[trigger] cmds[i]),
    ensures
        first_unsupported(cmds) == j,
    decreases j,
{
    if j > 0 {
        assert(command_supported(cmds[0]));
        assert(cmds.skip(1)[j - 1] == cmds[j]);
        assert forall|i: int| 0 <= i < j - 1 implies command_supported(
            #[trigger] cmds.skip(1)[i],
        ) by {
            assert(cmds.skip(1)[i] == cmds[i + 1]);
        }
        lemma_first_unsupported(cmds.skip(1), j - 1);
    }
}

/// A session over `cmds` starting from contents `m0` stopped at position
/// `j`: everything before `j` was supported and applied, the command at `j`
/// is unsupported, and `m1` is the contents left behind.
pub open spec fn session_fails_at(
    m0: Map<Seq<u8>, Seq<u8>>,
    cmds: Seq<Command>,
    m1: Map<Seq<u8>, Seq<u8>>,
    j: int,
) -> bool {
    &&& 0 <= j < cmds.len()
    &&& !command_supported(cmds[j])
    &&& (forall|i: int| 0 <= i < j ==> command_supported(#[trigger] cmds[i]))
    &&& m1 == session_state(m0, cmds.take(j))
}

/// Drive one connection's command stream to completion: dispatch each
/// command strictly in the order received, collecting one response per
/// command. The first unsupported command ends the session with an error,
/// the store left exactly as the commands before it made it — a fault on
/// one connection never corrupts the store.
#[verifier::loop_isolation(false)]
pub fn run_session(store: &mut ShardedStore, cmds: Vec<Command>) -> (out: Result<
    Vec<Response>,
    DispatchError,
>)
    requires
        old(store).wf(),
    ensures
        final(store).wf(),
        final(store).num_shards() == old(store).num_shards(),
        match out {
            Ok(responses) => {
                &&& forall|i: int| 0 <= i < cmds@.len() ==> command_supported(#[trigger] cmds@[i])
                &&& responses@.len() == cmds@.len()
                &&& final(store)@ == session_state(old(store)@, cmds@)
                &&& forall|i: int|
                    0 <= i < cmds@.len() ==> response_matches(
                        session_state(old(store)@, cmds@.take(i)),
                        cmds@[i],
                        #[trigger] responses@[i],
                    )
            },
            Err(e) => {
                &&& e == DispatchError::UnsupportedCommand
                &&& session_fails_at(old(store)@, cmds@, final(store)@, first_unsupported(cmds@))
            },
        },
{
    let ghost all = cmds@;
    let ghost m0 = old(store)@;
    let mut rest = cmds;
    let total = rest.len();
    let mut responses: Vec<Response> = Vec::new();
    let mut done: usize = 0;
    while rest.len() > 0
        invariant
            store.wf(),
            store.num_shards() == old(store).num_shards(),
            total == all.len(),
            done + rest@.len() == all.len(),
            rest@ == all.skip(done as int),
            responses@.len() == done,
            forall|i: int| 0 <= i < done ==> command_supported(#[trigger] all[i]),
            store@ == session_state(m0, all.take(done as int)),
            forall|i: int|
                0 <= i < done ==> response_matches(
                    session_state(m0, all.take(i)),
                    all[i],
                    #[trigger] responses@[i],
                ),
        decreases rest@.len(),
    {
        let c = rest.remove(0);
        proof {
            assert(all.skip(done as int)[0] == all[done as int]);
            assert(c == all[done as int]);
            assert(rest@ =~= all.skip(done as int + 1));
        }
        match dispatch(store, c) {
            Ok(resp) => {
                responses.push(resp);
            },
            Err(e) => {
                proof {
                    lemma_first_unsupported(all, done as int);
                    assert(session_fails_at(m0, all, store@, done as int));
                }
                return Err(e);
            },
        }
        proof {
            assert(all.take(done as int + 1).drop_last() =~= all.take(done as int));
            assert(all.take(done as int + 1).last() == all[done as int]);
        }
        done = done + 1;
    }
    proof {
        assert(all.take(done as int) =~= all);
    }
    Ok(responses)
}

} // verus!
