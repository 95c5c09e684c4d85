//! A HyperLogLog-style cardinality sketch over `m = 2^p` byte registers.
use probabilistic_collections::SipHasherBuilder;
use std::hash::{BuildHasher, Hasher};
use vstd::prelude::*;

verus! {

/// Smallest accepted precision: the bias constants start at 16 registers.
pub const MIN_PRECISION: u8 = 4;

/// Largest accepted precision: `2^24` one-byte registers, 16 MiB per sketch.
pub const MAX_PRECISION: u8 = 24;

/// First SipHash key shared by every sketch, so that sketches built
/// separately hash alike and can be merged.
pub const HASH_KEY0: u64 = 0x736f_6d65_7073_6575;

/// Second SipHash key shared by every sketch.
pub const HASH_KEY1: u64 = 0x646f_7261_6e64_6f6d;

/// SipHash-2-4 of `bytes` under the keys `(k0, k1)`.
pub uninterp spec fn sip_hash_of(k0: u64, k1: u64, bytes: Seq<u8>) -> u64;

/// Relies on `probabilistic_collections::SipHasherBuilder::from_seed`: the
/// hasher it builds is SipHash-2-4 under the two given keys, so the 64-bit
/// result of `write` then `finish` depends on the keys and the bytes alone.
#[verifier::external_body]
fn sip_hash(k0: u64, k1: u64, bytes: &[u8]) -> (r: u64)
    ensures
        r == sip_hash_of(k0, k1, bytes@),
{
    let mut hasher = SipHasherBuilder::from_seed(k0, k1).build_hasher();
    hasher.write(bytes);
    hasher.finish()
}

/// The 64-bit hash under which an item is recorded in a sketch.
pub open spec fn item_hash(item: Seq<char>) -> u64 {
    sip_hash_of(HASH_KEY0, HASH_KEY1, vstd::utf8::encode_utf8(item))
}

/// Registers after recording each item in order.
pub open spec fn insert_all_spec(regs: Seq<u8>, p: u8, items: Seq<String>) -> Seq<u8>
    decreases items.len(),
{
    if items.len() == 0 {
        regs
    } else {
        insert_spec(insert_all_spec(regs, p, items.drop_last()), p, item_hash(items.last()@))
    }
}

/// Errors reported by sketch construction and merging.
#[derive(Debug, Clone, Copy, PartialEq, Eq, Structural)]
pub enum SketchError {
    /// The target relative error lies outside `(0, 1)`, or is so small
    /// (below about 0.00025) that its sketch would exceed the largest
    /// precision.
    InvalidConfig,
    /// The two sketches were built with different register counts.
    IncompatibleSketch,
}

/// Number of registers of a sketch of precision `p`.
pub open spec fn register_count(p: u8) -> nat {
    (1u64 << (p as u64)) as nat
}

/// Largest value a register of a sketch of precision `p` can hold.
pub open spec fn max_rank(p: u8) -> u8 {
    (64 - p + 1) as u8
}

/// Register selected by hash `h`: its top `p` bits.
pub open spec fn register_index(h: u64, p: u8) -> int {
    (h >> ((64 - p) as u64)) as int
}

/// One more than the number of leading zero bits among the low `64 - p`
/// bits of `h`, capped at `64 - p + 1`.
pub open spec fn rank_of(h: u64, p: u8) -> u8 {
    let lz = vstd::std_specs::bits::u64_leading_zeros(h << (p as u64));
    if lz < 64 - p {
        (lz + 1) as u8
    } else {
        max_rank(p)
    }
}

pub open spec fn max_u8(a: u8, b: u8) -> u8 {
    if a >= b { a } else { b }
}

/// Registers after recording hash `h`.
pub open spec fn insert_spec(regs: Seq<u8>, p: u8, h: u64) -> Seq<u8> {
    let i = register_index(h, p);
    regs.update(i, max_u8(regs[i], rank_of(h, p)))
}

/// Elementwise maximum of two register arrays of equal length.
pub open spec fn merge_spec(a: Seq<u8>, b: Seq<u8>) -> Seq<u8> {
    Seq::new(a.len(), |i: int| max_u8(a[i], b[i]))
}

/// `2^k`, as a natural number.
pub open spec fn pow2n(k: nat) -> nat
    decreases k,
{
    if k == 0 {
        1
    } else {
        2 * pow2n((k - 1) as nat)
    }
}

/// Squared numerator of `1.04 / epsilon` when epsilon is counted in
/// millionths: `(1.04 * 10^6)^2`.
pub const TARGET_SCALED: u64 = 1_081_600_000_000;

/// Whether `2^k >= (1.04 / epsilon)^2`, with epsilon given as `e` millionths.
pub open spec fn covers(e: nat, k: nat) -> bool {
    pow2n(k) * e * e >= TARGET_SCALED as nat
}

/// The least `k' >= k` with `covers(e, k')`, stopping at 64.
pub open spec fn least_covering(e: nat, k: nat) -> nat
    decreases 64 - k,
{
    if k >= 64 || covers(e, k) {
        k
    } else {
        least_covering(e, k + 1)
    }
}

/// `ceil(log2((1.04 / epsilon)^2))` for epsilon given as `e` millionths.
pub open spec fn ideal_precision(e: nat) -> nat {
    least_covering(e, 0)
}

/// Whether a target error of `e` millionths is rejected.
pub open spec fn config_rejected(e: nat) -> bool {
    e == 0 || e >= 1_000_000 || ideal_precision(e) > MAX_PRECISION as nat
}

/// Precision used for an accepted target error: the ideal one, raised to
/// the smallest supported precision.
pub open spec fn precision_for(e: nat) -> nat {
    if ideal_precision(e) < MIN_PRECISION as nat {
        MIN_PRECISION as nat
    } else {
        ideal_precision(e)
    }
}

proof fn lemma_register_count_bounds(p: u8)
    requires
        MIN_PRECISION <= p <= MAX_PRECISION,
    ensures
        16 <= register_count(p) <= 16777216,
{
    assert(4 <= p <= 24 ==> 16 <= (1u64 << (p as u64)) <= 16777216) by (bit_vector);
}

proof fn lemma_pow2n_mono(a: nat, b: nat)
    requires
        a <= b,
    ensures
        pow2n(a) <= pow2n(b),
        b == 24 ==> pow2n(b) == 16777216,
    decreases b,
{
    reveal_with_fuel(pow2n, 25);
    if a < b {
        lemma_pow2n_mono(a, (b - 1) as nat);
    }
}

proof fn lemma_least_covering_ge(e: nat, k: nat)
    ensures
        least_covering(e, k) >= k,
    decreases 64 - k,
{
    if !(k >= 64 || covers(e, k)) {
        lemma_least_covering_ge(e, k + 1);
    }
}

/// Number of zero registers.
pub open spec fn zeros(s: Seq<u8>) -> nat
    decreases s.len(),
{
    if s.len() == 0 {
        0
    } else {
        zeros(s.drop_last()) + if s.last() == 0 {
            1nat
        } else {
            0nat
        }
    }
}

/// `2^(64 - r)`: the contribution of a register holding `r`, scaled by `2^64`.
pub open spec fn weight(r: u8) -> nat {
    vstd::arithmetic::power2::pow2((64 - r) as nat)
}

/// `2^64 * sum(2^-r)` over the registers.
pub open spec fn harmonic(s: Seq<u8>) -> nat
    decreases s.len(),
{
    if s.len() == 0 {
        0
    } else {
        harmonic(s.drop_last()) + weight(s.last())
    }
}

pub struct Sketch {
    pub precision: u8,
    pub registers: Vec<u8>,
}

impl Sketch {
    /// Well-formedness: the precision is in range, there are `2^p` registers
    /// and none exceeds the largest rank.
    pub open spec fn wf(&self) -> bool {
        &&& MIN_PRECISION <= self.precision <= MAX_PRECISION
        &&& self.registers@.len() == register_count(self.precision)
        &&& forall|i: int|
            0 <= i < self.registers@.len() ==> #[trigger] self.registers@[i] <= max_rank(
                self.precision,
            )
    }

    /// An empty sketch of precision `p`: every register is zero.
    pub fn with_precision(p: u8) -> (r: Sketch)
        requires
            MIN_PRECISION <= p <= MAX_PRECISION,
        ensures
            r.wf(),
            r.precision == p,
            r.registers@ == Seq::new(register_count(p), |i: int| 0u8),
    {
        assert(4 <= p <= 24 ==> (1u64 << (p as u64)) <= 16777216) by (bit_vector);
        let m = (1u64 << (p as u64)) as usize;
        let mut registers: Vec<u8> = Vec::new();
        while registers.len() < m
            invariant
                m == register_count(p),
                registers@.len() <= m,
                forall|i: int| 0 <= i < registers@.len() ==> registers@[i] == 0u8,
            decreases m - registers@.len(),
        {
            registers.push(0u8);
        }
        assert(registers@ == Seq::new(register_count(p), |i: int| 0u8));
        Sketch { precision: p, registers }
    }

    /// Builds an empty sketch for a target relative error of
    /// `epsilon_millionths / 10^6`.
    pub fn new(epsilon_millionths: u64) -> (r: Result<Sketch, SketchError>)
        ensures
            config_rejected(epsilon_millionths as nat) <==> r is Err,
            r is Err ==> r == Err::<Sketch, SketchError>(SketchError::InvalidConfig),
            r matches Ok(s) ==> {
                &&& s.wf()
                &&& s.precision as nat == precision_for(epsilon_millionths as nat)
                &&& s.registers@ == Seq::new(register_count(s.precision), |i: int| 0u8)
            },
    {
        let e = epsilon_millionths;
        if e == 0 || e >= 1_000_000 {
            return Err(SketchError::InvalidConfig);
        }
        assert(e * e < 1_000_000_000_000) by (nonlinear_arith)
            requires
                e < 1_000_000,
        ;
        let sq: u128 = (e * e) as u128;
        let mut k: u64 = 0;
        let mut pw: u128 = 1;
        assert(pow2n(0) == 1);
        assert(pw * sq == pow2n(0) * e * e) by (nonlinear_arith)
            requires
                pw == 1,
                pow2n(0) == 1,
                sq == e * e,
        ;
        let mut more: bool = pw * sq < TARGET_SCALED as u128;
        while more
            invariant
                k <= 25,
                pw == pow2n(k as nat),
                pw <= 33554432,
                sq == e * e,
                sq < 1_000_000_000_000,
                ideal_precision(e as nat) == least_covering(e as nat, k as nat),
                more ==> k < 25 && !covers(e as nat, k as nat),
                !more ==> k == 25 || covers(e as nat, k as nat),
            decreases 25 - k,
        {
            assert(least_covering(e as nat, k as nat) == least_covering(e as nat, (k + 1) as nat));
            proof {
                lemma_pow2n_mono(k as nat, 24);
            }
            k = k + 1;
            pw = pw * 2;
            assert(pw * sq <= 33554432 * 1_000_000_000_000) by (nonlinear_arith)
                requires
                    pw <= 33554432,
                    sq < 1_000_000_000_000,
            ;
            assert(pw * sq == pow2n(k as nat) * e * e) by (nonlinear_arith)
                requires
                    pw == pow2n(k as nat),
                    sq == e * e,
            ;
            more = k < 25 && pw * sq < TARGET_SCALED as u128;
        }
        proof {
            lemma_least_covering_ge(e as nat, k as nat);
        }
        if k > MAX_PRECISION as u64 {
            return Err(SketchError::InvalidConfig);
        }
        assert(ideal_precision(e as nat) == k);
        let p: u8 = if k < MIN_PRECISION as u64 { MIN_PRECISION } else { k as u8 };
        Ok(Sketch::with_precision(p))
    }

    /// Merges two sketches into a fresh one whose registers are the
    /// elementwise maximum; fails when their precisions differ.
    pub fn merge(&self, other: &Sketch) -> (r: Result<Sketch, SketchError>)
        requires
            self.wf(),
            other.wf(),
        ensures
            self.precision != other.precision <==> r is Err,
            r is Err ==> r == Err::<Sketch, SketchError>(SketchError::IncompatibleSketch),
            r matches Ok(s) ==> {
                &&& s.wf()
                &&& s.precision == self.precision
                &&& s.registers@ == merge_spec(self.registers@, other.registers@)
            },
    {
        if self.precision != other.precision {
            return Err(SketchError::IncompatibleSketch);
        }
        let n = self.registers.len();
        let mut registers: Vec<u8> = Vec::with_capacity(n);
        let mut i: usize = 0;
        while i < n
            invariant
                n == self.registers@.len(),
                n == other.registers@.len(),
                i <= n,
                registers@ == merge_spec(self.registers@, other.registers@).take(i as int),
            decreases n - i,
        {
            let a = self.registers[i];
            let b = other.registers[i];
            registers.push(if a >= b { a } else { b });
            i = i + 1;
            assert(registers@ =~= merge_spec(self.registers@, other.registers@).take(i as int));
        }
        assert(registers@ =~= merge_spec(self.registers@, other.registers@));
        Ok(Sketch { precision: self.precision, registers })
    }

    /// Number of registers still at zero.
    pub fn zero_count(&self) -> (r: u64)
        requires
            self.wf(),
        ensures
            r as nat == zeros(self.registers@),
    {
        proof {
            lemma_register_count_bounds(self.precision);
        }
        let n = self.registers.len();
        let mut c: u64 = 0;
        let mut i: usize = 0;
        while i < n
            invariant
                n == self.registers@.len(),
                n <= 16777216,
                i <= n,
                c <= i,
                c as nat == zeros(self.registers@.take(i as int)),
            decreases n - i,
        {
            assert(self.registers@.take(i + 1).drop_last() =~= self.registers@.take(i as int));
            if self.registers[i] == 0 {
                c = c + 1;
            }
            i = i + 1;
        }
        assert(self.registers@.take(n as int) =~= self.registers@);
        c
    }

    /// The register sum `sum(2^-r)`, scaled by `2^64` so that it is exact.
    pub fn harmonic_sum(&self) -> (r: u128)
        requires
            self.wf(),
        ensures
            r as nat == harmonic(self.registers@),
    {
        proof {
            lemma_register_count_bounds(self.precision);
        }
        let n = self.registers.len();
        let mut total: u128 = 0;
        let mut i: usize = 0;
        proof {
            vstd::arithmetic::power2::lemma2_to64();
        }
        while i < n
            invariant
                n == self.registers@.len(),
                n <= 16777216,
                self.wf(),
                i <= n,
                total <= i * 0x10000000000000000,
                total as nat == harmonic(self.registers@.take(i as int)),
                vstd::arithmetic::power2::pow2(64) == 0x10000000000000000,
            decreases n - i,
        {
            assert(self.registers@.take(i + 1).drop_last() =~= self.registers@.take(i as int));
            let r = self.registers[i];
            let w: u128 = if r == 0 {
                0x10000000000000000u128
            } else {
                let k: u64 = 64 - r as u64;
                proof {
                    vstd::bits::lemma_u64_pow2_no_overflow(k as nat);
                    vstd::bits::lemma_u64_shl_is_mul(1, k);
                }
                (1u64 << k) as u128
            };
            proof {
                if r != 0 {
                    vstd::arithmetic::power2::lemma_pow2_strictly_increases((64 - r) as nat, 64);
                }
            }
            assert(w <= 0x10000000000000000);
            total = total + w;
            i = i + 1;
        }
        assert(self.registers@.take(n as int) =~= self.registers@);
        total
    }

    /// Records one item: its hash goes through `insert_hash`.
    pub fn insert(&mut self, item: &str)
        requires
            old(self).wf(),
        ensures
            final(self).wf(),
            final(self).precision == old(self).precision,
            final(self).registers@ == insert_spec(
                old(self).registers@,
                old(self).precision,
                item_hash(item@),
            ),
    {
        let h = sip_hash(HASH_KEY0, HASH_KEY1, item.as_bytes());
        self.insert_hash(h);
    }

    /// Records a batch of items in order, as a shard worker does with what
    /// it drained from its queue.
    pub fn insert_all(&mut self, items: &Vec<String>)
        requires
            old(self).wf(),
        ensures
            final(self).wf(),
            final(self).precision == old(self).precision,
            final(self).registers@ == insert_all_spec(
                old(self).registers@,
                old(self).precision,
                items@,
            ),
    {
        let mut i: usize = 0;
        while i < items.len()
            invariant
                self.wf(),
                self.precision == old(self).precision,
                i <= items@.len(),
                self.registers@ == insert_all_spec(
                    old(self).registers@,
                    old(self).precision,
                    items@.take(i as int),
                ),
            decreases items@.len() - i,
        {
            assert(items@.take(i + 1).drop_last() =~= items@.take(i as int));
            self.insert(items[i].as_str());
            i = i + 1;
        }
        assert(items@.take(i as int) =~= items@);
    }

    /// Records a 64-bit hash: the register chosen by its top `p` bits keeps
    /// the larger of its value and the rank of the remaining bits.
    pub fn insert_hash(&mut self, h: u64)
        requires
            old(self).wf(),
        ensures
            final(self).wf(),
            final(self).precision == old(self).precision,
            final(self).registers@ == insert_spec(old(self).registers@, old(self).precision, h),
            forall|i: int|
                0 <= i < old(self).registers@.len() ==> #[trigger] final(self).registers@[i]
                    >= old(self).registers@[i],
    {
        let p = self.precision;
        let shift: u64 = 64 - p as u64;
        let idx = h >> shift;
        assert(4 <= p <= 24 ==> (h >> ((64 - p) as u64)) < (1u64 << (p as u64))) by (bit_vector);
        assert(4 <= p <= 24 ==> (1u64 << (p as u64)) <= 16777216) by (bit_vector);
        assert(shift == (64 - p) as u64);
        let idx = idx as usize;
        assert(idx as int == register_index(h, p));
        let lz = (h << (p as u64)).leading_zeros();
        proof {
            vstd::std_specs::bits::axiom_u64_leading_zeros(h << (p as u64));
        }
        let cap: u32 = 64 - p as u32;
        let rank: u8 = if lz < cap { (lz + 1) as u8 } else { (cap + 1) as u8 };
        assert(rank == rank_of(h, p));
        let cur = self.registers[idx];
        if rank > cur {
            self.registers.set(idx, rank);
        }
        assert(self.registers@ =~= insert_spec(old(self).registers@, p, h));
    }
}

} // verus!
