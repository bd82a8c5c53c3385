use shardkv::handler::{
    command_key, dispatch, dispatch_on_shard, run_session, Command, DispatchError, Response,
};
use shardkv::shard::Shard;
use shardkv::store::ShardedStore;

fn b(s: &str) -> Vec<u8> {
    s.as_bytes().to_vec()
}

fn put(k: &str, v: &str) -> Command {
    Command::Put {
        key: b(k),
        value: b(v),
    }
}

fn get(k: &str) -> Command {
    Command::Get { key: b(k) }
}

#[test]
fn set_then_get_round_trip() {
    // A client sends `SET foo bar`, the server acknowledges; `GET foo`
    // then answers with `bar`.
    let mut store = ShardedStore::new(10);
    assert_eq!(dispatch(&mut store, put("foo", "bar")), Ok(Response::Ack));
    assert_eq!(
        dispatch(&mut store, get("foo")),
        Ok(Response::Value(b("bar")))
    );
}

#[test]
fn get_of_never_set_key_is_absent_not_an_error() {
    let mut store = ShardedStore::new(10);
    assert_eq!(dispatch(&mut store, get("missing")), Ok(Response::Absent));
}

#[test]
fn two_clients_with_distinct_keys_do_not_disturb_each_other() {
    // Two clients set distinct keys in some interleaving; each client's
    // own key then holds its own value, unaffected by the other's write.
    let mut store = ShardedStore::new(10);
    assert_eq!(dispatch(&mut store, put("a", "1")), Ok(Response::Ack));
    assert_eq!(dispatch(&mut store, put("b", "2")), Ok(Response::Ack));
    assert_eq!(dispatch(&mut store, get("a")), Ok(Response::Value(b("1"))));
    assert_eq!(dispatch(&mut store, get("b")), Ok(Response::Value(b("2"))));
}

#[test]
fn unsupported_command_is_an_error_and_leaves_the_store_alone() {
    let mut store = ShardedStore::new(4);
    dispatch(&mut store, put("k", "v")).unwrap();
    assert_eq!(
        dispatch(&mut store, Command::Other),
        Err(DispatchError::UnsupportedCommand)
    );
    assert_eq!(dispatch(&mut store, get("k")), Ok(Response::Value(b("v"))));
}

#[test]
fn dispatch_on_shard_matches_dispatch() {
    let mut shard = Shard::new();
    assert_eq!(dispatch_on_shard(&mut shard, put("k", "v")), Ok(Response::Ack));
    assert_eq!(
        dispatch_on_shard(&mut shard, get("k")),
        Ok(Response::Value(b("v")))
    );
    assert_eq!(dispatch_on_shard(&mut shard, get("nope")), Ok(Response::Absent));
    assert_eq!(
        dispatch_on_shard(&mut shard, Command::Other),
        Err(DispatchError::UnsupportedCommand)
    );
}

#[test]
fn command_key_addresses_supported_commands() {
    assert_eq!(command_key(&put("k", "v")), Some(&b("k")));
    assert_eq!(command_key(&get("k")), Some(&b("k")));
    assert_eq!(command_key(&Command::Other), None);
}

#[test]
fn session_processes_commands_in_order() {
    let mut store = ShardedStore::new(10);
    let responses = run_session(
        &mut store,
        vec![
            put("foo", "bar"),
            get("foo"),
            get("missing"),
            put("foo", "baz"),
            get("foo"),
        ],
    )
    .unwrap();
    assert_eq!(
        responses,
        vec![
            Response::Ack,
            Response::Value(b("bar")),
            Response::Absent,
            Response::Ack,
            Response::Value(b("baz")),
        ]
    );
}

#[test]
fn session_stops_at_the_first_unsupported_command() {
    let mut store = ShardedStore::new(10);
    let out = run_session(
        &mut store,
        vec![put("a", "1"), Command::Other, put("b", "2")],
    );
    assert_eq!(out, Err(DispatchError::UnsupportedCommand));
    // The commands before the fault applied; the ones after did not.
    assert_eq!(store.get(&b("a")), Some(b("1")));
    assert_eq!(store.get(&b("b")), None);
}

#[test]
fn empty_session_returns_no_responses() {
    let mut store = ShardedStore::new(2);
    assert_eq!(run_session(&mut store, vec![]), Ok(vec![]));
}
