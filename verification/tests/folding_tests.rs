//! The fold arithmetic: errors, cross terms and folded witnesses.
use zheng::ccs::patterns::pattern_add;
use zheng::ccs::{reg_t, reg_t1, CONST_IDX, Z_LEN};
use zheng::folding::fold::{cross_term, error_evals, fold_step_decide, fold_witnesses, FoldState};
use zheng::field::Goldilocks;
use zheng::types::{CCSInstance, CCSWitness, FoldError, SparseMatrix, SumcheckPoly};

fn g(v: u64) -> Goldilocks {
    Goldilocks::new(v)
}

/// One row: c · (z0 · z1).
fn product_instance(c: u64) -> CCSInstance {
    let mut m1 = SparseMatrix::new(1, 3);
    m1.set(0, 0, g(1));
    let mut m2 = SparseMatrix::new(1, 3);
    m2.set(0, 1, g(1));
    CCSInstance { matrices: vec![m1, m2], multisets: vec![vec![0, 1]], coeffs: vec![g(c)], num_rows: 1, num_cols: 3 }
}

#[test]
fn error_evals_is_zero_exactly_on_satisfying_witnesses() {
    let u = pattern_add();
    let mut z = vec![g(0); Z_LEN];
    z[CONST_IDX] = g(1);
    z[reg_t(3)] = g(5);
    z[reg_t(4)] = g(3);
    z[reg_t1(5)] = g(8);
    assert!(u.is_satisfied_by(&CCSWitness { z: z.clone() }));
    assert!(error_evals(&u, &z).iter().all(|e| e.is_zero()));
    z[reg_t1(5)] = g(9);
    assert!(!u.is_satisfied_by(&CCSWitness { z: z.clone() }));
    assert!(error_evals(&u, &z).iter().any(|e| !e.is_zero()));
}

#[test]
fn error_of_a_product_term() {
    let u = product_instance(1);
    assert_eq!(error_evals(&u, &[g(2), g(3), g(0)]), vec![g(6)]);
    // a short witness reads zero past its end
    assert_eq!(error_evals(&u, &[g(2)]), vec![g(0)]);
    let two = product_instance(2);
    assert_eq!(error_evals(&two, &[g(2), g(3), g(0)]), vec![g(12)]);
}

#[test]
fn cross_term_of_a_product_term() {
    let u = product_instance(1);
    // a0·b1 + b0·a1
    assert_eq!(cross_term(&u, &[g(2), g(3), g(0)], &[g(5), g(7), g(0)]), vec![g(29)]);
    // linear terms contribute nothing
    let mut linear = product_instance(1);
    linear.multisets = vec![vec![0]];
    assert_eq!(cross_term(&linear, &[g(2), g(3), g(0)], &[g(5), g(7), g(0)]), vec![g(0)]);
}

#[test]
fn folded_witness_error_is_e_plus_beta_t_plus_beta_squared_e() {
    let u = product_instance(1);
    let a = [g(2), g(3), g(0)];
    let b = [g(5), g(7), g(0)];
    let beta = g(10);
    let w = fold_witnesses(&a, &b, beta);
    assert_eq!(w, vec![g(52), g(73), g(0)]);
    let lhs = error_evals(&u, &w)[0];
    let rhs = error_evals(&u, &a)[0]
        .add(beta.mul(cross_term(&u, &a, &b)[0]))
        .add(beta.mul(beta).mul(error_evals(&u, &b)[0]));
    assert_eq!(lhs, rhs);
    assert_eq!(lhs, g(3796));
}

#[test]
fn fold_wraps_in_the_field_and_keeps_the_tail() {
    let p_minus_one = g(0xffff_ffff_0000_0000);
    let w = fold_witnesses(&[p_minus_one, g(4)], &[g(1)], g(1));
    assert_eq!(w, vec![g(0), g(4)]);
}

#[test]
fn round_polynomial_ends() {
    let p = SumcheckPoly { degree: 2, coeffs: vec![g(3), g(5), g(0xffff_ffff_0000_0000)] };
    assert_eq!(p.eval(g(0)), p.eval_0());
    assert_eq!(p.eval(g(1)), p.eval_1());
    assert_eq!(p.eval_1(), g(7));
    let empty = SumcheckPoly { degree: 0, coeffs: vec![] };
    assert_eq!(empty.eval_0(), g(0));
    assert_eq!(empty.eval(g(1)), empty.eval_1());
}

#[test]
fn fold_steps_adopt_then_fold() {
    let u = product_instance(1);
    let empty = CCSInstance { matrices: vec![], multisets: vec![], coeffs: vec![], num_rows: 0, num_cols: 0 };
    let mut st = FoldState { instance: empty, witness: vec![], errors: vec![], step_count: 0 };
    // z0 · z1 = 0 holds for [0, 3, 5]
    assert!(matches!(fold_step_decide(&mut st, product_instance(1), vec![g(2), g(3), g(0)], g(10)), Err(FoldError::UnsatisfyingWitness)));
    assert_eq!(st.step_count, 0);
    fold_step_decide(&mut st, product_instance(1), vec![g(0), g(3), g(5)], g(10)).unwrap();
    assert_eq!(st.step_count, 1);
    assert_eq!(st.witness, vec![g(0), g(3), g(5)]);
    assert!(st.errors.iter().all(|e| e.is_zero()));
    fold_step_decide(&mut st, product_instance(1), vec![g(4), g(0), g(1)], g(10)).unwrap();
    assert_eq!(st.step_count, 2);
    assert_eq!(st.witness, vec![g(40), g(3), g(15)]);
    // E(w) = 40 · 3
    assert_eq!(st.errors, error_evals(&u, &[g(40), g(3), g(15)]));
    assert_eq!(st.errors, vec![g(120)]);
    assert!(matches!(fold_step_decide(&mut st, product_instance(2), vec![g(0), g(0), g(0)], g(1)), Err(FoldError::InstanceMismatch)));
    assert!(matches!(fold_step_decide(&mut st, product_instance(1), vec![g(0), g(0)], g(1)), Err(FoldError::WitnessMismatch)));
    assert_eq!(st.step_count, 2);
}
