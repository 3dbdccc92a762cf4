use shardkv::{calculate_hash, execute, refuse, route, Command, Frame, Shard, Store};
use shardkv::{Outcome, Token};

#[test]
fn routing_is_deterministic() {
    let store = Store::new(8).unwrap();
    for key in ["", "a", "foo", "a much longer key with spaces"] {
        let first = store.route(key.as_bytes());
        assert!(first < 8);
        for _ in 0..10 {
            assert_eq!(store.route(key.as_bytes()), first);
        }
        assert_eq!(route(key.as_bytes(), 8), first);
        assert_eq!(calculate_hash(key.as_bytes()), calculate_hash(key.as_bytes()));
        assert_eq!(first, calculate_hash(key.as_bytes()) % 8);
    }
}

#[test]
fn routing_spreads_keys() {
    let mut seen = [false; 8];
    for i in 0..200 {
        let key = format!("key{}", i);
        seen[route(key.as_bytes(), 8)] = true;
    }
    assert!(seen.iter().all(|s| *s));
}

#[test]
fn single_shard_takes_every_key() {
    for key in ["x", "y", "z"] {
        assert_eq!(route(key.as_bytes(), 1), 0);
    }
}

#[test]
fn hash_depends_on_the_key() {
    assert_ne!(calculate_hash(b"alpha"), calculate_hash(b"beta"));
}

#[test]
fn shard_executes_commands() {
    let mut shard = Shard::new();
    let get = Command::Get { key: b"k".to_vec() };
    assert_eq!(execute(&mut shard, &get), Frame::Null);
    let set = Command::SetValue { key: b"k".to_vec(), value: b"v".to_vec() };
    assert_eq!(execute(&mut shard, &set), Frame::Simple("OK".to_string()));
    assert_eq!(execute(&mut shard, &get), Frame::Bulk(b"v".to_vec()));
    assert_eq!(shard.get(b"k"), Some(b"v".to_vec()));
    let publish = Command::Publish { channel: b"c".to_vec(), message: b"m".to_vec() };
    assert_eq!(execute(&mut shard, &publish), Frame::Error("unsupported command".to_string()));
    assert_eq!(shard.get(b"k"), Some(b"v".to_vec()));
}

#[test]
fn refuse_names_the_failure() {
    let unknown = Command::Unknown { raw: Frame::Null };
    assert_eq!(refuse(&unknown), Frame::Error("unknown command".to_string()));
    let subscribe = Command::Subscribe { channels: vec![b"c".to_vec()] };
    assert_eq!(refuse(&subscribe), Frame::Error("unsupported command".to_string()));
}

#[test]
fn token_new_keeps_fields() {
    let t = Token::new("election".to_string(), 42, Outcome::No);
    assert_eq!(t.market_name, "election");
    assert_eq!(t.token_id, 42);
    assert_eq!(t.outcome, Outcome::No);
}
