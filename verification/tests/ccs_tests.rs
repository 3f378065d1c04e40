//! Per-pattern instances, equality rows, trace stepping and hash bindings.
use zheng::ccs::hash_binding::build_hash_binding_steps_from_trace;
use zheng::ccs::patterns::{
    build_step_ccs, pattern_add, pattern_and, pattern_axis, pattern_branch, pattern_call, pattern_eq,
    pattern_hash, pattern_inv, pattern_lt, pattern_mul, pattern_not, pattern_quote, pattern_shl,
    pattern_sub, pattern_xor, trivial_ccs,
};
use zheng::ccs::selector::{constraint_eval, is_satisfied};
use zheng::ccs::verifier_steps::{eq_instance, eq_step, read_limb, verifier_steps, OpeningView};
use zheng::ccs::{
    build_axis_transcript_steps, build_look_transcript_steps,
    axis_eval_point, build_axis_steps_from_trace, build_ccs_from_trace, is_multi_row, reg_t, reg_t1,
    witness_from_rows, AxisOpening, CONST_IDX, Z_LEN,
};
use zheng::field::Goldilocks;
use zheng::types::{CCSInstance, CCSWitness, CommitError, SparseMatrix};

fn make_z(vals: &[(usize, u64)]) -> Vec<Goldilocks> {
    let mut z = vec![Goldilocks::zero(); Z_LEN];
    z[CONST_IDX] = Goldilocks::one();
    for &(idx, v) in vals {
        z[idx] = Goldilocks::new(v);
    }
    z
}

fn g(v: u64) -> Goldilocks {
    Goldilocks::new(v)
}

#[test]
fn patterns_pattern_axis_budget_decrement() {
    // r8=10, r9=9: 9 - 10 + 1 = 0
    let z = make_z(&[(reg_t(8), 10), (reg_t(9), 9)]);
    assert!(pattern_axis().is_satisfied_by(&CCSWitness { z }));
    // r8=10, r9=8: 8 - 10 + 1 = -1 ≠ 0
    let z = make_z(&[(reg_t(8), 10), (reg_t(9), 8)]);
    assert!(!pattern_axis().is_satisfied_by(&CCSWitness { z }));
}

#[test]
fn pattern_add_satisfying_witness() {
    let z = make_z(&[(reg_t(3), 5), (reg_t(4), 3), (reg_t1(5), 8)]);
    assert!(pattern_add().is_satisfied_by(&CCSWitness { z }));
}

#[test]
fn pattern_add_wrong_witness() {
    let z = make_z(&[(reg_t(3), 5), (reg_t(4), 3), (reg_t1(5), 7)]);
    assert!(!pattern_add().is_satisfied_by(&CCSWitness { z }));
}

#[test]
fn pattern_sub_satisfying_witness() {
    let z = make_z(&[(reg_t(3), 7), (reg_t(4), 2), (reg_t1(5), 5)]);
    assert!(pattern_sub().is_satisfied_by(&CCSWitness { z }));
}

#[test]
fn pattern_mul_satisfying_witness() {
    let z = make_z(&[(reg_t(3), 6), (reg_t(4), 7), (reg_t1(5), 42)]);
    assert!(pattern_mul().is_satisfied_by(&CCSWitness { z }));
}

#[test]
fn pattern_mul_wrong_witness() {
    let z = make_z(&[(reg_t(3), 6), (reg_t(4), 7), (reg_t1(5), 43)]);
    assert!(!pattern_mul().is_satisfied_by(&CCSWitness { z }));
}

#[test]
fn pattern_lt_bit_validity_accepts_bits() {
    let z = make_z(&[(reg_t(10), 0)]);
    assert!(pattern_lt().is_satisfied_by(&CCSWitness { z }));
    let z = make_z(&[(reg_t(10), 1)]);
    assert!(pattern_lt().is_satisfied_by(&CCSWitness { z }));
}

#[test]
fn pattern_lt_bit_validity_rejects_non_bit() {
    let z = make_z(&[(reg_t(10), 2)]);
    assert!(!pattern_lt().is_satisfied_by(&CCSWitness { z }));
}

#[test]
fn pattern_xor_gadget_satisfying() {
    let z = make_z(&[(reg_t(10), 1), (reg_t(11), 0), (reg_t(12), 1)]);
    assert!(pattern_xor().is_satisfied_by(&CCSWitness { z }));
    let z = make_z(&[(reg_t(10), 1), (reg_t(11), 1), (reg_t(12), 0)]);
    assert!(pattern_xor().is_satisfied_by(&CCSWitness { z }));
    let z = make_z(&[(reg_t(10), 1), (reg_t(11), 0), (reg_t(12), 0)]);
    assert!(!pattern_xor().is_satisfied_by(&CCSWitness { z }));
}

#[test]
fn pattern_and_gadget_satisfying() {
    let z = make_z(&[(reg_t(10), 1), (reg_t(11), 1), (reg_t(12), 1)]);
    assert!(pattern_and().is_satisfied_by(&CCSWitness { z }));
    let z = make_z(&[(reg_t(10), 1), (reg_t(11), 0), (reg_t(12), 0)]);
    assert!(pattern_and().is_satisfied_by(&CCSWitness { z }));
    let z = make_z(&[(reg_t(10), 1), (reg_t(11), 1), (reg_t(12), 0)]);
    assert!(!pattern_and().is_satisfied_by(&CCSWitness { z }));
}

#[test]
fn pattern_not_bit_gadget() {
    let z = make_z(&[(reg_t(10), 0), (reg_t(12), 1)]);
    assert!(pattern_not().is_satisfied_by(&CCSWitness { z }));
    let z = make_z(&[(reg_t(10), 1), (reg_t(12), 0)]);
    assert!(pattern_not().is_satisfied_by(&CCSWitness { z }));
    let z = make_z(&[(reg_t(10), 1), (reg_t(12), 1)]);
    assert!(!pattern_not().is_satisfied_by(&CCSWitness { z }));
}

#[test]
fn patterns_pattern_shl_src_bit_propagation() {
    let z = make_z(&[(reg_t(11), 1), (reg_t(12), 1)]);
    assert!(pattern_shl().is_satisfied_by(&CCSWitness { z }));
    let z = make_z(&[(reg_t(11), 0), (reg_t(12), 1)]);
    assert!(!pattern_shl().is_satisfied_by(&CCSWitness { z }));
}

#[test]
fn patterns_pattern_hash_round_counter_increments() {
    let z = make_z(&[(reg_t(14), 5), (reg_t1(14), 6)]);
    assert!(pattern_hash().is_satisfied_by(&CCSWitness { z }));
    let z = make_z(&[(reg_t(14), 5), (reg_t1(14), 7)]);
    assert!(!pattern_hash().is_satisfied_by(&CCSWitness { z }));
}

#[test]
fn patterns_pattern_call_result_must_be_zero() {
    let z = make_z(&[(reg_t(6), 0)]);
    assert!(pattern_call().is_satisfied_by(&CCSWitness { z }));
    let z = make_z(&[(reg_t(6), 1)]);
    assert!(!pattern_call().is_satisfied_by(&CCSWitness { z }));
}

#[test]
fn pattern_quote_compose_cons_and_inv_rows() {
    let z = make_z(&[(reg_t(4), 42), (reg_t1(5), 42)]);
    assert!(pattern_quote().is_satisfied_by(&CCSWitness { z }));
    let z = make_z(&[(reg_t(4), 42), (reg_t1(5), 41)]);
    assert!(!pattern_quote().is_satisfied_by(&CCSWitness { z }));
    // inv: r5_{t+1} · r3_t = 1 with r3 = 2 and r5' = 2⁻¹
    let half = g(2).inv();
    let mut z = make_z(&[(reg_t(3), 2)]);
    z[reg_t1(5)] = half;
    assert!(pattern_inv().is_satisfied_by(&CCSWitness { z }));
    let z = make_z(&[(reg_t(3), 2), (reg_t1(5), 2)]);
    assert!(!pattern_inv().is_satisfied_by(&CCSWitness { z }));
}

#[test]
fn pattern_branch_selects_yes_or_no() {
    // r5' = r6 + r8·(r4 − r6): r8 = 1 picks r4, r8 = 0 picks r6
    let z = make_z(&[(reg_t(8), 1), (reg_t(4), 11), (reg_t(6), 22), (reg_t1(5), 11)]);
    assert!(pattern_branch().is_satisfied_by(&CCSWitness { z }));
    let z = make_z(&[(reg_t(8), 0), (reg_t(4), 11), (reg_t(6), 22), (reg_t1(5), 22)]);
    assert!(pattern_branch().is_satisfied_by(&CCSWitness { z }));
    let z = make_z(&[(reg_t(8), 1), (reg_t(4), 11), (reg_t(6), 22), (reg_t1(5), 22)]);
    assert!(!pattern_branch().is_satisfied_by(&CCSWitness { z }));
}

#[test]
fn pattern_eq_rows_follow_the_two_constraints() {
    // row 0: r8·(r3 − r4) = r9; row 1: r5' = 1 − r9
    let z = make_z(&[(reg_t(3), 7), (reg_t(4), 7), (reg_t(8), 3), (reg_t(9), 0), (reg_t1(5), 1)]);
    assert!(pattern_eq().is_satisfied_by(&CCSWitness { z }));
    let z = make_z(&[(reg_t(3), 9), (reg_t(4), 7), (reg_t(8), 1), (reg_t(9), 2), (reg_t1(5), 0)]);
    assert!(!pattern_eq().is_satisfied_by(&CCSWitness { z }));
    let mut z = make_z(&[(reg_t(3), 9), (reg_t(4), 7), (reg_t(8), 1), (reg_t(9), 2)]);
    z[reg_t1(5)] = g(1).sub(g(2));
    assert!(pattern_eq().is_satisfied_by(&CCSWitness { z }));
}

#[test]
fn step_ccs_dispatch_and_trivial_instance() {
    assert_eq!(build_step_ccs(5).matrices.len(), 3);
    assert_eq!(build_step_ccs(9).num_rows, 2);
    assert_eq!(build_step_ccs(17).matrices.len(), 0);
    assert_eq!(build_step_ccs(200).matrices.len(), 0);
    assert_eq!(trivial_ccs().num_cols, Z_LEN);
    assert!(is_multi_row(10) && is_multi_row(15) && !is_multi_row(9) && !is_multi_row(16));
}

#[test]
fn eq_step_satisfied_when_equal() {
    let v = g(9999);
    let (inst, wit) = eq_step(v, v);
    assert!(is_satisfied(&inst, &wit));
}

#[test]
fn eq_step_unsatisfied_when_different() {
    let (inst, wit) = eq_step(g(1), g(2));
    assert!(!is_satisfied(&inst, &wit));
}

#[test]
fn eq_step_trivial_zero_satisfied() {
    let (inst, wit) = eq_step(Goldilocks::zero(), Goldilocks::zero());
    assert!(is_satisfied(&inst, &wit));
}

#[test]
fn commitment_limb_bindings_reject_each_changed_limb() {
    let mut commitment = [0u8; 32];
    for (i, b) in commitment.iter_mut().enumerate() {
        *b = (i as u8).wrapping_mul(37).wrapping_add(5);
    }
    for k in 0..4 {
        let value = read_limb(&commitment, k);
        let (instance, honest) = eq_step(value, value);
        assert!(is_satisfied(&instance, &honest));
        let (_, forged) = eq_step(value, value.add(Goldilocks::one()));
        assert!(!is_satisfied(&instance, &forged));
    }
}

#[test]
fn equality_rows_have_one_uniform_shape() {
    for v in [0u64, 1, 42, 9999] {
        let (instance, witness) = eq_step(g(v), g(v));
        assert_eq!((instance.num_rows, instance.num_cols), (1, 3));
        assert_eq!(instance.matrices.len(), 2);
        assert!(is_satisfied(&instance, &witness));
    }
    assert_eq!(eq_instance().coeffs[1], Goldilocks::zero().sub(Goldilocks::one()));
}

#[test]
fn non_tensor_opening_returns_empty() {
    let steps = verifier_steps(&[7u8; 32], &[Goldilocks::zero()], Goldilocks::zero(), &OpeningView::Other);
    assert!(steps.is_empty());
}

#[test]
fn tensor_opening_rows_compare_limbs_and_final_value() {
    let commitment = [3u8; 32];
    let mut final_poly = 42u64.to_le_bytes().to_vec();
    final_poly.extend_from_slice(&[9, 9, 9]);
    let opening = OpeningView::Tensor { round_commitments: vec![commitment], final_poly };
    let steps = verifier_steps(&commitment, &[], g(42), &opening);
    assert_eq!(steps.len(), 5);
    assert!(steps.iter().all(|(i, w)| is_satisfied(i, w)));
    let limb = u64::from_le_bytes([3u8; 8]);
    assert_eq!(steps[0].1.z[0], g(limb));
    let steps = verifier_steps(&commitment, &[], g(41), &opening);
    assert!(!is_satisfied(&steps[4].0, &steps[4].1));
}

#[test]
fn witness_has_correct_length() {
    let w = witness_from_rows(&[0u64; 16], &[0u64; 16]);
    assert_eq!(w.z.len(), Z_LEN);
    assert_eq!(w.z[Z_LEN - 1], Goldilocks::one());
}

#[test]
fn witness_rows_are_laid_out_and_reduced() {
    let mut a = [0u64; 16];
    let mut b = [0u64; 16];
    a[3] = 7;
    b[5] = u64::MAX;
    let w = witness_from_rows(&a, &b);
    assert_eq!(w.z[3], g(7));
    assert_eq!(w.z[21], g(u64::MAX));
    assert_eq!(w.z[21].as_u64(), u64::MAX - 0xffff_ffff_0000_0001);
}

#[test]
fn build_from_two_row_trace_gives_one_step() {
    let rows = vec![[0u64; 16], [0u64; 16]];
    let steps = build_ccs_from_trace(&rows);
    assert_eq!(steps.len(), 1);
}

#[test]
fn multi_row_boundary_pairs_are_unconstrained() {
    let mut rows = vec![[0u64; 16]; 3];
    rows[0][0] = 15;
    rows[1][0] = 15;
    rows[2][0] = 5;
    let steps = build_ccs_from_trace(&rows);
    assert_eq!(steps.len(), 2);
    assert_eq!(steps[0].0.matrices.len(), 3);
    assert_eq!(steps[1].0.matrices.len(), 0);
    assert!(build_ccs_from_trace(&rows[..1]).is_empty());
}

#[test]
fn axis_eval_point_addr_2_is_one_bit() {
    let pt = axis_eval_point(2);
    assert_eq!(pt.len(), 1);
    assert_eq!(pt[0], Goldilocks::zero());
}

#[test]
fn axis_eval_point_addr_3_is_one_bit() {
    let pt = axis_eval_point(3);
    assert_eq!(pt.len(), 1);
    assert_eq!(pt[0], Goldilocks::one());
}

#[test]
fn axis_eval_point_addr_5_is_two_bits() {
    let pt = axis_eval_point(5);
    assert_eq!(pt.len(), 2);
    assert_eq!(pt[0], Goldilocks::one());
    assert_eq!(pt[1], Goldilocks::zero());
}

#[test]
fn axis_eval_point_addr_0_or_1_empty() {
    assert!(axis_eval_point(0).is_empty());
    assert!(axis_eval_point(1).is_empty());
    assert_eq!(axis_eval_point(u64::MAX).len(), 63);
}

#[test]
fn build_axis_steps_from_trace_empty_trace() {
    let steps = build_axis_steps_from_trace(&[], &[]).unwrap();
    assert!(steps.is_empty());
}

#[test]
fn axis_steps_need_one_opening_per_axis_row() {
    let commitment = [1u8; 32];
    let opening = AxisOpening {
        commitment,
        point: vec![],
        value: g(0),
        opening: OpeningView::Tensor { round_commitments: vec![commitment], final_poly: vec![] },
        transcript_seed: vec![],
    };
    let mut trace = vec![[0u64; 16]; 2];
    trace[1][0] = 5;
    let steps = build_axis_steps_from_trace(&trace, &[opening]).unwrap();
    assert_eq!(steps.len(), 4);
    let two_axis_rows = vec![[0u64; 16]; 2];
    let opening = AxisOpening {
        commitment,
        point: vec![],
        value: g(0),
        opening: OpeningView::Other,
        transcript_seed: vec![],
    };
    assert!(matches!(build_axis_steps_from_trace(&two_axis_rows, &[opening]), Err(CommitError::TraceOverflow)));
}

#[test]
fn empty_trace_yields_no_binding_steps() {
    let steps = build_hash_binding_steps_from_trace(&[], &[]).unwrap();
    assert!(steps.is_empty());
}

fn hash_block(states: &[[Goldilocks; 16]]) -> Vec<[u64; 16]> {
    let mut rows = Vec::new();
    for k in 0..25usize {
        let st = &states[k.min(23)];
        let mut r = [0u64; 16];
        r[0] = 15;
        for j in 0..4 {
            r[4 + j] = st[j].as_u64();
            r[10 + j] = st[4 + j].as_u64();
        }
        r[14] = k as u64;
        rows.push(r);
    }
    rows
}

fn some_states() -> Vec<[Goldilocks; 16]> {
    (0..24u64).map(|k| core::array::from_fn(|j| g(1000 * k + j as u64))).collect()
}

#[test]
fn hash_blocks_bind_every_row_to_the_replay() {
    let states = some_states();
    let mut trace = hash_block(&states);
    trace.push([0u64; 16]);
    let steps = build_hash_binding_steps_from_trace(&trace, &[states.clone()]).unwrap();
    assert_eq!(steps.len(), 25 * 9);
    assert!(steps.iter().all(|(i, w)| is_satisfied(i, w)));
    let mut forged = trace.clone();
    forged[7][11] += 1;
    assert!(matches!(build_hash_binding_steps_from_trace(&forged, &[states.clone()]), Err(CommitError::HashBinding)));
    assert!(matches!(build_hash_binding_steps_from_trace(&trace, &[]), Err(CommitError::TraceOverflow)));
    let short = trace[..10].to_vec();
    assert!(matches!(build_hash_binding_steps_from_trace(&short, &[states.clone()]), Err(CommitError::HashBinding)));
    // a single tag-15 row is not a block
    let mut single = vec![[0u64; 16]; 3];
    single[1][0] = 15;
    assert!(build_hash_binding_steps_from_trace(&single, &[]).unwrap().is_empty());
}

#[test]
fn empty_instance_evaluates_to_zero_rows() {
    let ccs = CCSInstance { matrices: vec![], multisets: vec![], coeffs: vec![], num_rows: 3, num_cols: 0 };
    let w = CCSWitness { z: vec![Goldilocks::zero(); 4] };
    assert_eq!(constraint_eval(&ccs, &w), vec![Goldilocks::zero(); 3]);
}

#[test]
fn mul_vec_oob_column_returns_zero() {
    let mut m = SparseMatrix::new(1, 10);
    m.set(0, 5, Goldilocks::one());
    m.set(0, 9, g(2));
    let z = vec![Goldilocks::one(); 4];
    let result = m.mul_vec(&z);
    assert_eq!(result[0], Goldilocks::zero());
}

#[test]
fn transcript_rows_are_taken_one_opening_per_row() {
    let w = |v: u64| CCSWitness { z: vec![g(v)] };
    let mut trace = vec![[1u64; 16]; 4];
    trace[0][0] = 0;
    trace[2][0] = 0;
    trace[3][0] = 17;
    let steps = build_axis_transcript_steps(&trace, vec![vec![w(1), w(2)], vec![w(3)], vec![w(4)]]).unwrap();
    let values: Vec<u64> = steps.iter().map(|s| s.z[0].as_u64()).collect();
    assert_eq!(values, vec![1, 2, 3]);
    assert!(matches!(build_axis_transcript_steps(&trace, vec![vec![w(1)]]), Err(CommitError::TraceOverflow)));
    let look = build_look_transcript_steps(&trace, vec![vec![w(9)]]).unwrap();
    assert_eq!(look.len(), 1);
    assert!(matches!(build_look_transcript_steps(&trace, vec![]), Err(CommitError::TraceOverflow)));
    assert!(build_look_transcript_steps(&[[1u64; 16]], vec![]).unwrap().is_empty());
}
