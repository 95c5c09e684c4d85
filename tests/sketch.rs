use ip_cardinality::aggregate::merge_snapshots;
use ip_cardinality::routing::{hash_ip, shard_index, shard_of};
use ip_cardinality::sketch::{Sketch, SketchError};
use std::collections::hash_map::DefaultHasher;
use std::hash::{Hash, Hasher};

fn alpha(m: f64) -> f64 {
    if m <= 16.0 {
        0.673
    } else if m <= 32.0 {
        0.697
    } else if m <= 64.0 {
        0.709
    } else {
        0.7213 / (1.0 + 1.079 / m)
    }
}

fn estimate(s: &Sketch) -> f64 {
    let m = s.registers.len() as f64;
    let sum = s.harmonic_sum() as f64 / 18446744073709551616.0;
    let raw = alpha(m) * m * m / sum;
    let zeros = s.zero_count();
    if raw <= 2.5 * m && zeros > 0 {
        m * (m / zeros as f64).ln()
    } else {
        raw
    }
}

fn fresh(eps_millionths: u64) -> Sketch {
    Sketch::new(eps_millionths).unwrap()
}

#[test]
fn empty_sketch_estimates_zero() {
    let s = fresh(10_000);
    assert_eq!(s.registers.len(), 1 << 14);
    assert_eq!(s.zero_count(), 1 << 14);
    assert_eq!(s.harmonic_sum(), (1u128 << 14) << 64);
    assert_eq!(estimate(&s), 0.0);
}

#[test]
fn precision_from_epsilon() {
    assert_eq!(fresh(100_000).precision, 7);
    assert_eq!(fresh(10_000).precision, 14);
    assert_eq!(fresh(5_000).precision, 16);
    assert_eq!(fresh(4_000).precision, 17);
    assert_eq!(fresh(1_000).precision, 21);
    assert_eq!(fresh(1_000).registers.len(), 1 << 21);
    assert_eq!(fresh(254).precision, 24);
    assert_eq!(fresh(999_999).precision, 4);
    assert_eq!(fresh(500_000).precision, 4);
}

#[test]
fn invalid_epsilon_is_rejected() {
    assert_eq!(Sketch::new(0).err(), Some(SketchError::InvalidConfig));
    assert_eq!(Sketch::new(1_000_000).err(), Some(SketchError::InvalidConfig));
    assert_eq!(Sketch::new(2_000_000).err(), Some(SketchError::InvalidConfig));
    assert_eq!(Sketch::new(253).err(), Some(SketchError::InvalidConfig));
    assert_eq!(Sketch::new(1).err(), Some(SketchError::InvalidConfig));
}

#[test]
fn insert_hash_sets_rank_in_top_bits_register() {
    let mut s = Sketch::with_precision(4);
    s.insert_hash(0x1000_0000_0000_0000);
    assert_eq!(s.registers[1], 61);
    s.insert_hash(0x2800_0000_0000_0000);
    assert_eq!(s.registers[2], 1);
    s.insert_hash(0x0000_1000_0000_0000);
    assert_eq!(s.registers[0], 16);
    s.insert_hash(0x0800_0000_0000_0000);
    assert_eq!(s.registers[0], 16);
    assert_eq!(s.zero_count(), 13);
}

#[test]
fn insert_item_changes_some_register() {
    let mut a = fresh(100_000);
    a.insert("192.168.1.1");
    assert_eq!(a.zero_count(), 127);
    let mut b = fresh(100_000);
    b.insert("192.168.1.2");
    let mut c = fresh(100_000);
    c.insert("192.168.1.1");
    assert_eq!(a.registers, c.registers);
    let distinct: usize = (0..200)
        .filter(|i| {
            let mut d = fresh(100_000);
            d.insert(&format!("10.0.0.{}", i));
            d.registers != a.registers
        })
        .count();
    assert!(distinct > 150);
}

#[test]
fn repeated_item_is_idempotent() {
    let mut once = fresh(10_000);
    once.insert("203.0.113.7");
    let mut many = fresh(10_000);
    for _ in 0..100 {
        many.insert("203.0.113.7");
    }
    assert_eq!(once.registers, many.registers);
    assert_eq!(estimate(&once), estimate(&many));
}

#[test]
fn insert_all_matches_single_inserts() {
    let items: Vec<String> = (0..50).map(|i| format!("172.16.0.{}", i)).collect();
    let mut batch = fresh(100_000);
    batch.insert_all(&items);
    let mut single = fresh(100_000);
    for it in &items {
        single.insert(it);
    }
    assert_eq!(batch.registers, single.registers);
}

fn filled(eps: u64, prefix: &str, n: usize) -> Sketch {
    let mut s = fresh(eps);
    for i in 0..n {
        s.insert(&format!("{}{}", prefix, i));
    }
    s
}

#[test]
fn merge_is_elementwise_max() {
    let mut a = Sketch::with_precision(4);
    let mut b = Sketch::with_precision(4);
    a.insert_hash(0x1000_0000_0000_0000);
    b.insert_hash(0x1800_0000_0000_0000);
    b.insert_hash(0x2800_0000_0000_0000);
    let m = a.merge(&b).unwrap();
    assert_eq!(m.registers[1], 61);
    assert_eq!(m.registers[2], 1);
    assert_eq!(m.zero_count(), 14);
}

#[test]
fn merge_laws_hold() {
    let a = filled(10_000, "a-", 300);
    let b = filled(10_000, "b-", 500);
    let c = filled(10_000, "c-", 700);
    let ab = a.merge(&b).unwrap();
    let ba = b.merge(&a).unwrap();
    assert_eq!(ab.registers, ba.registers);
    let ab_c = ab.merge(&c).unwrap();
    let a_bc = a.merge(&b.merge(&c).unwrap()).unwrap();
    assert_eq!(ab_c.registers, a_bc.registers);
    let aa = a.merge(&a).unwrap();
    assert_eq!(aa.registers, a.registers);
}

#[test]
fn merge_is_monotone() {
    let a = filled(10_000, "x-", 2_000);
    let b = filled(10_000, "y-", 50);
    let m = a.merge(&b).unwrap();
    let e = estimate(&m);
    assert!(e >= estimate(&a));
    assert!(e >= estimate(&b));
    assert!(m.zero_count() <= a.zero_count());
    assert!(m.harmonic_sum() <= b.harmonic_sum());
}

#[test]
fn merge_of_different_sizes_fails() {
    let a = fresh(100_000);
    let b = fresh(10_000);
    assert_eq!(a.merge(&b).err(), Some(SketchError::IncompatibleSketch));
    assert_eq!(b.merge(&a).err(), Some(SketchError::IncompatibleSketch));
}

#[test]
fn estimate_is_accurate() {
    let eps = 0.01;
    for &k in &[20usize, 1_000, 200_000] {
        let s = filled(10_000, "10.1.", k);
        let e = estimate(&s);
        let rel = (e - k as f64).abs() / k as f64;
        assert!(rel <= 3.0 * eps, "k = {}, estimate = {}", k, e);
    }
}

#[test]
fn merge_snapshots_combines_all_shards() {
    let shards = vec![
        filled(100_000, "s0-", 3),
        filled(100_000, "s1-", 4),
        filled(100_000, "s2-", 5),
    ];
    let m = merge_snapshots(&shards, 7).unwrap();
    let manual = shards[0].merge(&shards[1]).unwrap().merge(&shards[2]).unwrap();
    assert_eq!(m.registers, manual.registers);
    assert_eq!(m.precision, 7);
}

#[test]
fn merge_snapshots_of_nothing_is_empty() {
    let m = merge_snapshots(&Vec::new(), 5).unwrap();
    assert_eq!(m.registers.len(), 32);
    assert_eq!(m.zero_count(), 32);
}

#[test]
fn merge_snapshots_rejects_mixed_precisions() {
    let shards = vec![fresh(100_000), fresh(10_000)];
    assert_eq!(
        merge_snapshots(&shards, 7).err(),
        Some(SketchError::IncompatibleSketch)
    );
}

#[test]
fn routing_is_deterministic_and_in_range() {
    assert_eq!(shard_index(17, 4), 1);
    assert_eq!(shard_index(8, 4), 0);
    assert_eq!(hash_ip("192.168.1.1"), hash_ip("192.168.1.1"));
    assert_ne!(hash_ip("192.168.1.1"), hash_ip("192.168.1.2"));
    for i in 0..100 {
        let ip = format!("10.0.{}.{}", i / 10, i);
        let s = shard_of(&ip, 4);
        assert!(s < 4);
        assert_eq!(s, hash_ip(&ip) % 4);
    }
}

#[test]
fn hash_ip_matches_hashing_the_str() {
    for ip in ["192.168.1.1", "10.0.0.255", ""] {
        let mut h = DefaultHasher::new();
        ip.hash(&mut h);
        assert_eq!(hash_ip(ip), h.finish() as usize);
    }
}

#[test]
fn shards_are_balanced() {
    let n = 4usize;
    let t = 40_000usize;
    let mut counts = vec![0usize; n];
    for i in 0..t {
        let ip = format!("{}.{}.{}.{}", (i * 7919) % 223 + 1, (i >> 16) & 255, (i >> 8) & 255, i & 255);
        counts[shard_of(&ip, n)] += 1;
    }
    let expected = (t / n) as f64;
    for c in counts {
        assert!(((c as f64) - expected).abs() <= 0.05 * expected, "{}", c);
    }
}

#[test]
fn test_receive_log_entries() {
    let ips = [
        "192.168.1.1",
        "192.168.1.2",
        "192.168.1.2",
        "192.168.1.2",
        "192.168.1.3",
        "192.168.1.4",
        "192.168.1.5",
        "192.168.1.6",
        "192.168.1.7",
        "192.168.1.8",
        "192.168.1.9",
        "192.168.1.10",
    ];
    let num_shards = 4;
    let mut shards: Vec<Sketch> = (0..num_shards).map(|_| fresh(100_000)).collect();
    for ip in ips.iter() {
        let idx = shard_of(ip, num_shards);
        shards[idx].insert(ip);
    }
    let merged = merge_snapshots(&shards, shards[0].precision).unwrap();
    let value = estimate(&merged);
    assert!(value > 9.0);
    assert!(value < 11.0);
}
