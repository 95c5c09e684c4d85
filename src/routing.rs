//! Deterministic mapping of an address to the shard that owns it.
use std::collections::hash_map::DefaultHasher;
use std::hash::Hasher;
use vstd::prelude::*;
use vstd::string::StringSliceAdditionalSpecFns;
use vstd::std_specs::hash::DefaultHasherAdditionalSpecFns;

verus! {

/// The routing hash of an address: std's default hasher fed the address's
/// bytes and then the `0xff` terminator, as hashing a `str` does.
pub open spec fn ip_hash(ip: &str) -> u64 {
    DefaultHasher::spec_finish(seq![ip.spec_bytes(), seq![0xffu8]])
}

/// Hashes an address for routing.
pub fn hash_ip(ip: &str) -> (r: usize)
    ensures
        r == ip_hash(ip) as usize,
{
    let mut hasher = DefaultHasher::new();
    hasher.write(ip.as_bytes());
    let terminator: Vec<u8> = vec![0xffu8];
    hasher.write(terminator.as_slice());
    assert(terminator@ =~= seq![0xffu8]);
    assert(hasher@ == seq![ip.spec_bytes(), seq![0xffu8]]);
    hasher.finish() as usize
}

/// The shard that owns a routing hash: the hash modulo the shard count.
pub fn shard_index(hash: usize, num_shards: usize) -> (r: usize)
    requires
        num_shards > 0,
    ensures
        r == hash % num_shards,
        r < num_shards,
{
    hash % num_shards
}

/// The shard that owns an address.
pub fn shard_of(ip: &str, num_shards: usize) -> (r: usize)
    requires
        num_shards > 0,
    ensures
        r == (ip_hash(ip) as usize) % num_shards,
        r < num_shards,
{
    shard_index(hash_ip(ip), num_shards)
}

} // verus!
