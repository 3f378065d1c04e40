//! SpMV, tri-kernel steps and the φ statements.
use zheng::ccs::selector::is_satisfied;
use zheng::field::Goldilocks;
use zheng::phi::spmv::{spmv_ccs, spmv_native, spmv_witness, vec_bytes, SparseGraph, SpmvStatement};
use zheng::phi::trikernel::{l1_dist, trikernel_step, PhiStatement, TriKernelParams};

fn g(v: u64) -> Goldilocks {
    Goldilocks::new(v)
}

#[test]
fn spmv_native_2x2() {
    let mut graph = SparseGraph::empty(2);
    graph.add(0, 0, g(2));
    graph.add(0, 1, g(3));
    graph.add(1, 0, g(4));
    let x = vec![g(5), g(6)];
    let y = spmv_native(&graph, &x);
    // y0 = 2*5+3*6 = 28, y1 = 4*5 = 20
    assert_eq!(y[0], g(28));
    assert_eq!(y[1], g(20));
}

#[test]
fn spmv_ccs_satisfied() {
    let mut graph = SparseGraph::empty(3);
    graph.add(0, 1, g(2));
    graph.add(1, 2, g(3));
    graph.add(2, 0, g(5));
    graph.add(2, 2, g(1));
    let x = vec![g(1), g(2), g(3)];
    let y = spmv_native(&graph, &x);
    let ccs = spmv_ccs(&graph);
    let w = spmv_witness(&graph, &x, &y);
    assert!(is_satisfied(&ccs, &w));
    let mut y_bad = y.clone();
    y_bad[0] = y_bad[0].add(g(1));
    let w_bad = spmv_witness(&graph, &x, &y_bad);
    assert!(!is_satisfied(&ccs, &w_bad));
}

#[test]
fn spmv_instance_dimensions_are_powers_of_two() {
    let graph = SparseGraph::empty(3);
    let ccs = spmv_ccs(&graph);
    assert_eq!((ccs.num_rows, ccs.num_cols), (4, 8));
    let w = spmv_witness(&graph, &[g(1); 3], &[g(0); 3]);
    assert_eq!(w.z.len(), 8);
    assert!(is_satisfied(&ccs, &w));
    let empty = spmv_ccs(&SparseGraph::empty(0));
    assert_eq!((empty.num_rows, empty.num_cols), (1, 2));
}

fn cycle4() -> (SparseGraph, SparseGraph, Vec<Goldilocks>, Vec<Goldilocks>) {
    let n = 4;
    let mut t = SparseGraph::empty(n);
    let mut s = SparseGraph::empty(n);
    for i in 0..n {
        let j = (i + 1) % n;
        t.add(j, i, g(1));
        s.add(i, j, g(1));
        s.add(j, i, g(1));
    }
    let degree = vec![g(2); n];
    let q = g(1).mul(g(4).inv());
    let teleport = vec![q, q, q, q];
    (t, s, degree, teleport)
}

#[test]
fn trikernel_step_preserves_mass() {
    let (t, s, deg, tel) = cycle4();
    let params = TriKernelParams::standard();
    let phi0 = tel.clone();
    let phi1 = trikernel_step(&phi0, &t, &s, &deg, &tel, &params);
    let sum = phi1.iter().fold(Goldilocks::zero(), |a, b| a.add(*b));
    assert_eq!(sum, Goldilocks::one());
}

#[test]
fn trikernel_step_of_zero_mass_is_teleport() {
    let (t, s, deg, tel) = cycle4();
    let params = TriKernelParams { lambda_d: g(0), lambda_s: g(0), lambda_h: g(0), alpha: g(0) };
    let phi1 = trikernel_step(&tel, &t, &s, &deg, &tel, &params);
    assert_eq!(phi1, tel);
}

#[test]
fn standard_params_are_the_rational_weights() {
    let p = TriKernelParams::standard();
    assert_eq!(p.lambda_d.mul(g(2)), Goldilocks::one());
    assert_eq!(p.lambda_h.mul(g(5)), Goldilocks::one());
    assert_eq!(p.lambda_s.mul(g(10)), g(3));
    assert_eq!(p.alpha.mul(g(100)), g(15));
    let d = TriKernelParams::default();
    assert_eq!(d.alpha, p.alpha);
}

#[test]
fn l1_distance_uses_the_smaller_representative() {
    assert_eq!(l1_dist(&[g(5), g(1)], &[g(2), g(4)]), g(6));
    assert_eq!(l1_dist(&[g(5)], &[g(5), g(9)]), g(0));
}

#[test]
fn graph_and_vector_bytes_are_length_prefixed_little_endian() {
    let mut graph = SparseGraph::empty(2);
    graph.add(1, 0, g(7));
    let b = graph.commitment_bytes();
    assert_eq!(b.len(), 32);
    assert_eq!(&b[0..8], &2u64.to_le_bytes());
    assert_eq!(&b[8..16], &1u64.to_le_bytes());
    assert_eq!(&b[24..32], &7u64.to_le_bytes());
    let v = vec_bytes(&[g(3), g(4)]);
    assert_eq!(v.len(), 24);
    assert_eq!(&v[0..8], &2u64.to_le_bytes());
    assert_eq!(&v[16..24], &4u64.to_le_bytes());
}

#[test]
fn statements_frame_their_public_fields() {
    let st = SpmvStatement { graph_commit: [1; 32], x_hash: [2; 32], y_hash: [3; 32], n: 5 };
    let pre = st.output_preimage();
    assert_eq!(pre[0], 1);
    assert_eq!(pre[40], 2);
    assert_eq!(pre[95], 3);
    let z = st.to_zheng([9; 32]);
    assert_eq!(&z.program_hash[..13], b"zheng-spmv-v0");
    assert_eq!(z.program_hash[13], 0);
    assert_eq!(&z.input_hash[..8], &5u64.to_le_bytes());
    assert_eq!(z.output_hash, [9; 32]);
    assert_eq!(z.focus_bound, 5);
    let ph = PhiStatement { graph_commit: [1; 32], phi0_hash: [2; 32], phi_star_hash: [3; 32], iterations: 7, n: 4 };
    let z = ph.to_zheng([8; 32]);
    assert_eq!(&z.program_hash[..17], b"zheng-phi-star-v0");
    assert_eq!(&z.input_hash[..4], &7u32.to_le_bytes());
    assert_eq!(&z.input_hash[4..12], &4u64.to_le_bytes());
    assert_eq!(z.focus_bound, 7);
    assert_eq!(ph.output_preimage()[64], 3);
}
