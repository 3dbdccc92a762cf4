use std::collections::hash_map::DefaultHasher;
use std::hash::Hasher;
use vstd::prelude::*;
use vstd::std_specs::hash::DefaultHasherAdditionalSpecFns;

verus! {

/// The hash of a key: the digest that a fresh default hasher gives after one
/// write of the key's bytes. It is fixed for the life of the process.
pub open spec fn key_hash(key: Seq<u8>) -> usize {
    DefaultHasher::spec_finish(seq![key]) as usize
}

/// The shard that owns `key` among `shard_count` shards.
pub open spec fn shard_of(key: Seq<u8>, shard_count: nat) -> nat
    recommends
        shard_count > 0,
{
    key_hash(key) as nat % shard_count
}

/// Hashes a key with the standard library's default hasher.
pub fn calculate_hash(key: &[u8]) -> (r: usize)
    ensures
        r == key_hash(key@),
{
    let mut s = DefaultHasher::new();
    s.write(key);
    s.finish() as usize
}

/// Routes a key to the index of the shard that owns it.
pub fn route(key: &[u8], shard_count: usize) -> (r: usize)
    requires
        shard_count > 0,
    ensures
        r == shard_of(key@, shard_count as nat),
        r < shard_count,
{
    calculate_hash(key) % shard_count
}

} // verus!
