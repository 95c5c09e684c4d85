//! Merge-on-read aggregation of shard sketches.
use crate::sketch::{merge_spec, register_count, Sketch, SketchError, MAX_PRECISION, MIN_PRECISION};
use vstd::prelude::*;

verus! {

/// Registers of an empty sketch of precision `p` merged with every snapshot
/// in order.
pub open spec fn merged_registers(shards: Seq<Sketch>, p: u8) -> Seq<u8>
    decreases shards.len(),
{
    if shards.len() == 0 {
        Seq::new(register_count(p), |i: int| 0u8)
    } else {
        merge_spec(merged_registers(shards.drop_last(), p), shards.last().registers@)
    }
}

/// Whether every snapshot was built with precision `p`.
pub open spec fn all_compatible(shards: Seq<Sketch>, p: u8) -> bool {
    forall|i: int| 0 <= i < shards.len() ==> #[trigger] shards[i].precision == p
}

/// Merges snapshots of every shard into a fresh sketch of precision `p`.
/// Fails when a snapshot was built with another precision.
pub fn merge_snapshots(shards: &Vec<Sketch>, p: u8) -> (r: Result<Sketch, SketchError>)
    requires
        MIN_PRECISION <= p <= MAX_PRECISION,
        forall|i: int| 0 <= i < shards@.len() ==> #[trigger] shards@[i].wf(),
    ensures
        all_compatible(shards@, p) <==> r is Ok,
        r is Err ==> r == Err::<Sketch, SketchError>(SketchError::IncompatibleSketch),
        r matches Ok(s) ==> {
            &&& s.wf()
            &&& s.precision == p
            &&& s.registers@ == merged_registers(shards@, p)
        },
{
    let mut acc = Sketch::with_precision(p);
    let mut i: usize = 0;
    while i < shards.len()
        invariant
            MIN_PRECISION <= p <= MAX_PRECISION,
            forall|j: int| 0 <= j < shards@.len() ==> #[trigger] shards@[j].wf(),
            i <= shards@.len(),
            acc.wf(),
            acc.precision == p,
            all_compatible(shards@.take(i as int), p),
            acc.registers@ == merged_registers(shards@.take(i as int), p),
        decreases shards@.len() - i,
    {
        assert(shards@.take(i + 1).drop_last() =~= shards@.take(i as int));
        match acc.merge(&shards[i]) {
            Ok(m) => {
                acc = m;
            },
            Err(e) => {
                assert(!all_compatible(shards@, p));
                return Err(e);
            },
        }
        i = i + 1;
        assert(all_compatible(shards@.take(i as int), p));
    }
    assert(shards@.take(i as int) =~= shards@);
    Ok(acc)
}

} // verus!
