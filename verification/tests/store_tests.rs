use shardkv::hashing::{hash, shard_index};
use shardkv::shard::{bytes_eq, Shard};
use shardkv::store::ShardedStore;

fn b(s: &str) -> Vec<u8> {
    s.as_bytes().to_vec()
}

#[test]
fn get_on_fresh_store_is_absent() {
    let store = ShardedStore::new(10);
    assert_eq!(store.get(&b("missing")), None);
    assert_eq!(store.get(&b("")), None);
}

#[test]
fn read_your_write() {
    let mut store = ShardedStore::new(10);
    store.set(b("foo"), b("bar"));
    assert_eq!(store.get(&b("foo")), Some(b("bar")));
}

#[test]
fn read_your_write_empty_key_and_value() {
    let mut store = ShardedStore::new(3);
    store.set(b(""), b(""));
    assert_eq!(store.get(&b("")), Some(b("")));
}

#[test]
fn set_twice_is_idempotent() {
    let mut once = ShardedStore::new(4);
    once.set(b("k"), b("v"));
    let mut twice = ShardedStore::new(4);
    twice.set(b("k"), b("v"));
    twice.set(b("k"), b("v"));
    assert_eq!(once.get(&b("k")), twice.get(&b("k")));
    assert_eq!(twice.get(&b("k")), Some(b("v")));
}

#[test]
fn overwrite_returns_latest_value() {
    let mut store = ShardedStore::new(4);
    store.set(b("k"), b("v1"));
    store.set(b("k"), b("v2"));
    assert_eq!(store.get(&b("k")), Some(b("v2")));
}

#[test]
fn route_is_stable_across_calls_and_operations() {
    let mut store = ShardedStore::new(10);
    let before = store.route(&b("alpha"));
    assert_eq!(before, store.route(&b("alpha")));
    store.set(b("alpha"), b("1"));
    store.set(b("beta"), b("2"));
    store.get(&b("alpha"));
    assert_eq!(before, store.route(&b("alpha")));
}

#[test]
fn route_is_below_shard_count() {
    let store = ShardedStore::new(7);
    for k in ["", "a", "b", "alpha", "beta", "some longer key"] {
        assert!(store.route(&b(k)) < 7);
    }
}

#[test]
fn distinct_keys_are_independently_visible() {
    let mut store = ShardedStore::new(10);
    let keys = ["a", "b", "c", "d", "e", "f", "g", "h"];
    for (i, k) in keys.iter().enumerate() {
        store.set(b(k), vec![i as u8]);
    }
    for (i, k) in keys.iter().enumerate() {
        assert_eq!(store.get(&b(k)), Some(vec![i as u8]));
    }
}

#[test]
fn distinct_keys_commute() {
    let mut ab = ShardedStore::new(10);
    ab.set(b("a"), b("1"));
    ab.set(b("b"), b("2"));
    let mut ba = ShardedStore::new(10);
    ba.set(b("b"), b("2"));
    ba.set(b("a"), b("1"));
    assert_eq!(ab.get(&b("a")), ba.get(&b("a")));
    assert_eq!(ab.get(&b("b")), ba.get(&b("b")));
    assert_eq!(ab.get(&b("a")), Some(b("1")));
    assert_eq!(ab.get(&b("b")), Some(b("2")));
}

#[test]
fn single_shard_store_works() {
    let mut store = ShardedStore::new(1);
    assert_eq!(store.route(&b("x")), 0);
    assert_eq!(store.route(&b("y")), 0);
    store.set(b("x"), b("1"));
    store.set(b("y"), b("2"));
    assert_eq!(store.get(&b("x")), Some(b("1")));
    assert_eq!(store.get(&b("y")), Some(b("2")));
}

#[test]
fn shard_get_and_set() {
    let mut shard = Shard::new();
    assert_eq!(shard.get(&b("k")), None);
    shard.set(b("k"), b("v"));
    assert_eq!(shard.get(&b("k")), Some(b("v")));
    shard.set(b("k"), b("w"));
    assert_eq!(shard.get(&b("k")), Some(b("w")));
    assert_eq!(shard.get(&b("other")), None);
}

#[test]
fn hash_matches_fnv1a_reference_values() {
    // 64-bit FNV-1a of the empty input is the offset basis; the value for
    // "a" is the published reference value.
    assert_eq!(hash(&b("")), 0xcbf2_9ce4_8422_2325);
    assert_eq!(hash(&b("a")), 0xaf63_dc4c_8601_ec8c);
}

#[test]
fn hash_is_deterministic() {
    let k = b("determinism");
    assert_eq!(hash(&k), hash(&k.clone()));
}

#[test]
fn shard_index_is_hash_mod_count() {
    for k in ["", "a", "foo", "bar"] {
        let key = b(k);
        assert_eq!(shard_index(&key, 10) as u64, hash(&key) % 10);
        assert_eq!(shard_index(&key, 1), 0);
    }
}

#[test]
fn bytes_eq_compares_contents() {
    assert!(bytes_eq(&b("abc"), &b("abc")));
    assert!(!bytes_eq(&b("abc"), &b("abd")));
    assert!(!bytes_eq(&b("abc"), &b("ab")));
    assert!(bytes_eq(&b(""), &b("")));
}
