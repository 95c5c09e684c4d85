//! Sharded approximate counting of distinct IP addresses.
//!
//! `sketch` holds the mergeable cardinality sketch, `routing` maps an address
//! to the shard that owns it, `aggregate` merges shard snapshots on read, and
//! `laws` states the algebra of inserting and merging.
pub mod aggregate;
pub mod laws;
pub mod routing;
pub mod sketch;

pub use routing::hash_ip;
