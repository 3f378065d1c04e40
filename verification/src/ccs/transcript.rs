//! Poseidon2 squeeze rows: one permutation's post-round states as
//! universal rows, transition k → k+1 for each round.
use crate::ccs::universal::{
    nats, poseidon_regs_spec, poseidon_witness, universal_z, CapacityView, Poseidon2Constants, Z_LEN,
};
use crate::types::CCSWitness;
use vstd::prelude::*;

verus! {

/// Rounds of one Poseidon2 permutation.
pub const ROUNDS_TOTAL: usize = 24;

/// `w` is the universal witness of the transition state_k → state_{k+1}
/// at round index k.
pub open spec fn is_poseidon_row(c: &Poseidon2Constants, w: CCSWitness, state_k: [crate::field::Goldilocks; 16], state_k1: [crate::field::Goldilocks; 16], k: nat) -> bool {
    &&& w.z@.len() == Z_LEN
    &&& forall|i: int|
        0 <= i < Z_LEN ==> #[trigger] w.z@[i]@ == universal_z(
            c.partial_rc@,
            poseidon_regs_spec(nats(state_k@), k),
            poseidon_regs_spec(nats(state_k1@), k + 1),
            Some(CapacityView { k: nats(state_k@).subrange(8, 16), k1: nats(state_k1@).subrange(8, 16) }),
            i,
        )
}

/// The 24 universal rows of one permutation: transition k → k+1 for
/// k = 0..23, the last pair closing on the final state (round index 24 is
/// the squeeze sentinel, as in a trace hash block).
pub fn squeeze_rows(c: &Poseidon2Constants, states: &Vec<[crate::field::Goldilocks; 16]>) -> (rows: Vec<CCSWitness>)
    requires
        states@.len() == ROUNDS_TOTAL,
    ensures
        rows@.len() == ROUNDS_TOTAL,
        forall|k: int|
            0 <= k < ROUNDS_TOTAL ==> is_poseidon_row(c, #[trigger] rows@[k], states@[k], states@[if k + 1 < 24 { k + 1 } else { 23 }], k as nat),
{
    let mut rows: Vec<CCSWitness> = Vec::new();
    let mut k: usize = 0;
    while k < ROUNDS_TOTAL
        invariant
            k <= ROUNDS_TOTAL,
            states@.len() == ROUNDS_TOTAL,
            rows@.len() == k,
            forall|j: int|
                0 <= j < k ==> is_poseidon_row(c, #[trigger] rows@[j], states@[j], states@[if j + 1 < 24 { j + 1 } else { 23 }], j as nat),
        decreases ROUNDS_TOTAL - k,
    {
        let next = if k + 1 < ROUNDS_TOTAL {
            &states[k + 1]
        } else {
            &states[ROUNDS_TOTAL - 1]
        };
        let w = poseidon_witness(c, &states[k], next, k as u64);
        rows.push(w);
        k = k + 1;
    }
    rows
}

} // verus!
