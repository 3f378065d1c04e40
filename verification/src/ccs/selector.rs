//! CCS constraint evaluation.
use crate::field::Goldilocks;
use crate::types::{zeros, CCSInstance, CCSWitness};
use vstd::prelude::*;

verus! {

/// The per-row value of the relation that `constraint_eval` reports: zero
/// for every row of an instance without matrices, the CCS row otherwise.
pub open spec fn eval_row(instance: &CCSInstance, z: Seq<Goldilocks>, r: int) -> nat {
    if instance.matrices@.len() == 0 {
        0
    } else {
        instance.row_value(z, r)
    }
}

/// Evaluate the CCS constraint at the given witness: one scalar per row,
/// all zero exactly on a satisfying witness.
pub fn constraint_eval(instance: &CCSInstance, witness: &CCSWitness) -> (v: Vec<Goldilocks>)
    requires
        instance.matrices@.len() > 0 ==> instance.wf(),
    ensures
        v@.len() == instance.num_rows,
        forall|r: int| 0 <= r < instance.num_rows ==> #[trigger] v@[r]@ == eval_row(instance, witness.z@, r),
{
    if instance.matrices.len() == 0 {
        return zeros(instance.num_rows);
    }
    instance.evaluate(&witness.z)
}

/// Whether the witness satisfies every row of the CCS.
pub fn is_satisfied(instance: &CCSInstance, witness: &CCSWitness) -> (ok: bool)
    requires
        instance.matrices@.len() > 0 ==> instance.wf(),
    ensures
        ok == (forall|r: int| 0 <= r < instance.num_rows ==> #[trigger] eval_row(instance, witness.z@, r) == 0),
{
    let v = constraint_eval(instance, witness);
    let mut r: usize = 0;
    while r < v.len()
        invariant
            v@.len() == instance.num_rows,
            r <= v@.len(),
            forall|i: int| 0 <= i < r ==> #[trigger] eval_row(instance, witness.z@, i) == 0,
            forall|i: int| 0 <= i < instance.num_rows ==> #[trigger] v@[i]@ == eval_row(instance, witness.z@, i),
        decreases v@.len() - r,
    {
        if !v[r].is_zero() {
            proof {
                assert(eval_row(instance, witness.z@, r as int) != 0);
            }
            return false;
        }
        r = r + 1;
    }
    true
}

} // verus!
