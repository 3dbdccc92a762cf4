use std::sync::Arc;
use std::time::Duration;

use shardkv::{execute, route, Command, Frame, Shard};
use tokio::sync::Mutex;

fn keys_on_different_shards(n: usize) -> (Vec<u8>, Vec<u8>) {
    let first = b"key0".to_vec();
    let home = route(&first, n);
    for i in 1..1000 {
        let other = format!("key{}", i).into_bytes();
        if route(&other, n) != home {
            return (first, other);
        }
    }
    panic!("no two shards found");
}

#[test]
fn writers_on_different_shards_do_not_block() {
    let n: usize = 8;
    let shards: Arc<Vec<Mutex<Shard>>> = Arc::new((0..n).map(|_| Mutex::new(Shard::new())).collect());
    let (a, b) = keys_on_different_shards(n);
    let runtime = tokio::runtime::Builder::new_multi_thread()
        .worker_threads(2)
        .enable_all()
        .build()
        .unwrap();
    runtime.block_on(async move {
        // Hold the first key's shard while the second writer runs: it must
        // still finish.
        let held = shards[route(&a, n)].lock().await;
        let writer = {
            let shards = shards.clone();
            let b = b.clone();
            tokio::spawn(async move {
                let cmd = Command::SetValue { key: b.clone(), value: b"2".to_vec() };
                let mut shard = shards[route(&b, n)].lock().await;
                execute(&mut shard, &cmd)
            })
        };
        let reply = tokio::time::timeout(Duration::from_secs(5), writer)
            .await
            .expect("writer on another shard was blocked")
            .unwrap();
        assert_eq!(reply, Frame::Simple("OK".to_string()));
        drop(held);
        let get = Command::Get { key: b.clone() };
        let mut shard = shards[route(&b, n)].lock().await;
        assert_eq!(execute(&mut shard, &get), Frame::Bulk(b"2".to_vec()));
    });
}

#[test]
fn concurrent_writers_on_one_key_leave_a_whole_value() {
    let n: usize = 4;
    let shards: Arc<Vec<Mutex<Shard>>> = Arc::new((0..n).map(|_| Mutex::new(Shard::new())).collect());
    let runtime = tokio::runtime::Builder::new_multi_thread()
        .worker_threads(4)
        .enable_all()
        .build()
        .unwrap();
    let values: Vec<Vec<u8>> = (0..8u8).map(|i| vec![i; 64]).collect();
    let expected = values.clone();
    runtime.block_on(async move {
        let mut tasks = Vec::new();
        for v in values {
            let shards = shards.clone();
            tasks.push(tokio::spawn(async move {
                let key = b"shared".to_vec();
                let cmd = Command::SetValue { key: key.clone(), value: v };
                let mut shard = shards[route(&key, n)].lock().await;
                execute(&mut shard, &cmd);
                drop(shard);
                let mut shard = shards[route(&key, n)].lock().await;
                execute(&mut shard, &Command::Get { key })
            }));
        }
        for t in tasks {
            match t.await.unwrap() {
                Frame::Bulk(seen) => assert!(expected.contains(&seen)),
                other => panic!("unexpected reply {:?}", other),
            }
        }
    });
}
