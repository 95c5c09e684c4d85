//! Algebraic laws of the sketch operations.
use crate::sketch::{
    harmonic, insert_spec, merge_spec, register_count, weight, zeros, Sketch,
};
use vstd::arithmetic::power2::{lemma_pow2_strictly_increases, pow2};
use vstd::prelude::*;

verus! {

proof fn lemma_all_zero_counts(s: Seq<u8>)
    requires
        forall|i: int| 0 <= i < s.len() ==> #[trigger] s[i] == 0u8,
    ensures
        zeros(s) == s.len(),
        harmonic(s) == s.len() * pow2(64),
    decreases s.len(),
{
    if s.len() > 0 {
        lemma_all_zero_counts(s.drop_last());
        assert(s.last() == 0u8);
        assert(harmonic(s) == (s.len() - 1) * pow2(64) + pow2(64));
        assert((s.len() - 1) * pow2(64) + pow2(64) == s.len() * pow2(64)) by (nonlinear_arith);
    }
}

proof fn lemma_weight_antitone(a: u8, b: u8)
    requires
        a <= b <= 64,
    ensures
        weight(b) <= weight(a),
{
    if ((64 - b) as nat) < ((64 - a) as nat) {
        lemma_pow2_strictly_increases((64 - b) as nat, (64 - a) as nat);
    }
}

/// Raising registers never adds a zero register and never raises the
/// harmonic sum.
proof fn lemma_pointwise_le_counts(a: Seq<u8>, b: Seq<u8>)
    requires
        a.len() == b.len(),
        forall|i: int| 0 <= i < a.len() ==> #[trigger] a[i] <= b[i] && b[i] <= 64,
    ensures
        zeros(b) <= zeros(a),
        harmonic(b) <= harmonic(a),
    decreases a.len(),
{
    if a.len() > 0 {
        let (a0, b0) = (a.drop_last(), b.drop_last());
        assert forall|i: int| 0 <= i < a0.len() implies #[trigger] a0[i] <= b0[i] by {
            assert(a[i] <= b[i] && b[i] <= 64);
        }
        lemma_pointwise_le_counts(a0, b0);
        assert(a.last() <= b.last());
        lemma_weight_antitone(a.last(), b.last());
    }
}

/// A freshly built sketch has every register at zero: all `m` registers
/// count as zeros and the scaled harmonic sum is `m * 2^64`, which makes
/// the linear-counting estimate `m * ln(m / m) = 0`.
pub proof fn law_empty_sketch(s: Sketch)
    requires
        s.wf(),
        s.registers@ == Seq::new(register_count(s.precision), |i: int| 0u8),
    ensures
        zeros(s.registers@) == register_count(s.precision),
        harmonic(s.registers@) == register_count(s.precision) * pow2(64),
{
    lemma_all_zero_counts(s.registers@);
}

/// Recording the same hash, hence the same item, a second time leaves the
/// registers as the first recording left them.
pub proof fn law_insert_idempotent(s: Sketch, h: u64)
    requires
        s.wf(),
    ensures
        insert_spec(insert_spec(s.registers@, s.precision, h), s.precision, h) == insert_spec(
            s.registers@,
            s.precision,
            h,
        ),
{
    let p = s.precision;
    assert(4 <= p <= 24 ==> (h >> ((64 - p) as u64)) < (1u64 << (p as u64))) by (bit_vector);
    let once = insert_spec(s.registers@, p, h);
    assert(insert_spec(once, p, h) =~= once);
}

/// Merging is commutative.
pub proof fn law_merge_commutative(a: Sketch, b: Sketch)
    requires
        a.wf(),
        b.wf(),
        a.precision == b.precision,
    ensures
        merge_spec(a.registers@, b.registers@) == merge_spec(b.registers@, a.registers@),
{
    assert(merge_spec(a.registers@, b.registers@) =~= merge_spec(b.registers@, a.registers@));
}

/// Merging is associative.
pub proof fn law_merge_associative(a: Sketch, b: Sketch, c: Sketch)
    requires
        a.wf(),
        b.wf(),
        c.wf(),
        a.precision == b.precision,
        b.precision == c.precision,
    ensures
        merge_spec(merge_spec(a.registers@, b.registers@), c.registers@) == merge_spec(
            a.registers@,
            merge_spec(b.registers@, c.registers@),
        ),
{
    assert(merge_spec(merge_spec(a.registers@, b.registers@), c.registers@) =~= merge_spec(
        a.registers@,
        merge_spec(b.registers@, c.registers@),
    ));
}

/// Merging a sketch with itself gives it back.
pub proof fn law_merge_idempotent(a: Sketch)
    requires
        a.wf(),
    ensures
        merge_spec(a.registers@, a.registers@) == a.registers@,
{
    assert(merge_spec(a.registers@, a.registers@) =~= a.registers@);
}

/// A merged sketch dominates both inputs: each register is at least either
/// input's, it has no more zero registers than either and no larger
/// harmonic sum.
pub proof fn law_merge_dominates(a: Sketch, b: Sketch)
    requires
        a.wf(),
        b.wf(),
        a.precision == b.precision,
    ensures
        forall|i: int|
            0 <= i < a.registers@.len() ==> #[trigger] merge_spec(a.registers@, b.registers@)[i]
                >= a.registers@[i] && merge_spec(a.registers@, b.registers@)[i] >= b.registers@[i],
        zeros(merge_spec(a.registers@, b.registers@)) <= zeros(a.registers@),
        zeros(merge_spec(a.registers@, b.registers@)) <= zeros(b.registers@),
        harmonic(merge_spec(a.registers@, b.registers@)) <= harmonic(a.registers@),
        harmonic(merge_spec(a.registers@, b.registers@)) <= harmonic(b.registers@),
{
    let m = merge_spec(a.registers@, b.registers@);
    assert forall|i: int| 0 <= i < m.len() implies #[trigger] m[i] <= 64 by {
        assert(a.registers@[i] <= 64 && b.registers@[i] <= 64);
    }
    lemma_pointwise_le_counts(a.registers@, m);
    lemma_pointwise_le_counts(b.registers@, m);
}

} // verus!
