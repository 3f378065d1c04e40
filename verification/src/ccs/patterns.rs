//! Per-pattern CCS constraint encodings for the nox reduction patterns.
//!
//! z = [r0_t..r15_t, r0_{t+1}..r15_{t+1}, 1]  (indices 0-32).
//!
//! Every instance here is described exactly by a `PatternShape`: for each
//! matrix, the column it reads on each row (or nothing), the index set of
//! each product term and each coefficient.
use crate::ccs::{reg_t, reg_t1, select_matrix, CONST_IDX, Z_LEN};
use crate::field::{modulus, Goldilocks};
use crate::types::{CCSInstance, SparseMatrix};
use vstd::prelude::*;

verus! {

/// The structure of a pattern instance: `cells[i][r]` is the column that
/// matrix `i` reads (with coefficient one) on row `r`, `sets[j]` and
/// `coeffs[j]` are the index set and coefficient of term `j`.
pub struct PatternShape {
    pub cells: Seq<Seq<Option<usize>>>,
    pub sets: Seq<Seq<usize>>,
    pub coeffs: Seq<nat>,
    pub rows: usize,
}

/// Matrix `m` has `rows` rows of `Z_LEN` columns and reads, on row `r`,
/// exactly the column `cs[r]` with coefficient one (nothing for `None`).
pub open spec fn mat_cells(m: SparseMatrix, cs: Seq<Option<usize>>, rows: usize) -> bool {
    &&& m.rows == rows
    &&& m.cols == Z_LEN
    &&& m.entries@.len() == rows
    &&& cs.len() == rows
    &&& forall|r: int|
        0 <= r < rows ==> match #[trigger] cs[r] {
            Some(c) => m.row(r).len() == 1 && m.row(r)[0].0 == c && m.row(r)[0].1@ == 1,
            None => m.row(r).len() == 0,
        }
}

/// `u` is exactly the instance that `shape` describes.
pub open spec fn has_shape(u: &CCSInstance, shape: PatternShape) -> bool {
    &&& u.num_rows == shape.rows
    &&& u.num_cols == Z_LEN
    &&& u.matrices@.len() == shape.cells.len()
    &&& forall|i: int| 0 <= i < shape.cells.len() ==> mat_cells(#[trigger] u.matrices@[i], shape.cells[i], shape.rows)
    &&& u.multisets@.len() == shape.sets.len()
    &&& forall|j: int| 0 <= j < shape.sets.len() ==> (#[trigger] u.multisets@[j])@ == shape.sets[j]
    &&& u.coeffs@.len() == shape.coeffs.len()
    &&& forall|j: int| 0 <= j < shape.coeffs.len() ==> (#[trigger] u.coeffs@[j])@ == shape.coeffs[j]
}

/// −1 in F_p.
pub open spec fn minus_one() -> nat {
    (modulus() - 1) as nat
}

/// −2 in F_p.
pub open spec fn minus_two() -> nat {
    (modulus() - 2) as nat
}

/// One-row matrices reading the given columns.
pub open spec fn one_row(cols: Seq<usize>) -> Seq<Seq<Option<usize>>> {
    Seq::new(cols.len(), |i: int| seq![Some(cols[i])])
}

/// A one-row shape.
pub open spec fn one_row_shape(cols: Seq<usize>, sets: Seq<Seq<usize>>, coeffs: Seq<nat>) -> PatternShape {
    PatternShape { cells: one_row(cols), sets, coeffs, rows: 1 }
}

/// The shape of the instance for pattern `tag`.
pub open spec fn pattern_shape(tag: u8) -> PatternShape {
    let one = 1nat;
    let m1 = minus_one();
    if tag == 1 {
        // quote: r5_{t+1} − r4_t
        one_row_shape(seq![21usize, 4], seq![seq![0usize], seq![1usize]], seq![one, m1])
    } else if tag == 2 || tag == 3 {
        // compose, cons: r5_{t+1} − r3_t
        one_row_shape(seq![21usize, 3], seq![seq![0usize], seq![1usize]], seq![one, m1])
    } else if tag == 4 {
        // branch: r5_{t+1} − r6_t + r8_t·r6_t − r8_t·r4_t
        one_row_shape(
            seq![21usize, 6, 8, 6, 8, 4],
            seq![seq![0usize], seq![1usize], seq![2usize, 3], seq![4usize, 5]],
            seq![one, m1, one, m1],
        )
    } else if tag == 5 {
        // add: r5_{t+1} − r3_t − r4_t
        one_row_shape(seq![21usize, 3, 4], seq![seq![0usize], seq![1usize], seq![2usize]], seq![one, m1, m1])
    } else if tag == 6 {
        // sub: r5_{t+1} − r3_t + r4_t
        one_row_shape(seq![21usize, 3, 4], seq![seq![0usize], seq![1usize], seq![2usize]], seq![one, m1, one])
    } else if tag == 7 {
        // mul: r5_{t+1} − r3_t·r4_t
        one_row_shape(seq![21usize, 3, 4], seq![seq![0usize], seq![1usize, 2]], seq![one, m1])
    } else if tag == 8 {
        // inv: r5_{t+1}·r3_t − 1
        one_row_shape(seq![21usize, 3, 32], seq![seq![0usize, 1], seq![2usize]], seq![one, m1])
    } else if tag == 9 {
        // eq: row 0  r3_t·r8_t − r4_t·r8_t − r9_t
        //     row 1  r5_{t+1} − 1 + r9_t
        PatternShape {
            cells: seq![
                seq![Some(3usize), None],
                seq![Some(4usize), None],
                seq![Some(8usize), Some(8usize)],
                seq![Some(9usize), None],
                seq![None, Some(21usize)],
                seq![None, Some(32usize)],
                seq![None, Some(9usize)],
            ],
            sets: seq![seq![0usize, 2], seq![1usize, 2], seq![3usize], seq![4usize], seq![5usize], seq![6usize]],
            coeffs: seq![one, m1, m1, one, m1, one],
            rows: 2,
        }
    } else if tag == 0 {
        // axis: r9_t − r8_t + 1
        one_row_shape(seq![9usize, 8, 32], seq![seq![0usize], seq![1usize], seq![2usize]], seq![one, m1, one])
    } else if tag == 10 {
        // lt: a_k² − a_k
        one_row_shape(seq![10usize], seq![seq![0usize, 0], seq![0usize]], seq![one, m1])
    } else if tag == 11 {
        // xor: a_k + b_k − 2·a_k·b_k − c_k
        one_row_shape(
            seq![10usize, 11, 12],
            seq![seq![0usize], seq![1usize], seq![0usize, 1], seq![2usize]],
            seq![one, one, minus_two(), m1],
        )
    } else if tag == 12 {
        // and: a_k·b_k − c_k
        one_row_shape(seq![10usize, 11, 12], seq![seq![0usize, 1], seq![2usize]], seq![one, m1])
    } else if tag == 13 {
        // not: a_k + c_k − 1
        one_row_shape(seq![10usize, 12, 32], seq![seq![0usize], seq![1usize], seq![2usize]], seq![one, one, m1])
    } else if tag == 14 {
        // shl: c_k − src_bit
        one_row_shape(seq![12usize, 11], seq![seq![0usize], seq![1usize]], seq![one, m1])
    } else if tag == 15 {
        // hash: r14_{t+1} − r14_t − 1
        one_row_shape(seq![30usize, 14, 32], seq![seq![0usize], seq![1usize], seq![2usize]], seq![one, m1, m1])
    } else if tag == 16 {
        // call: r6_t
        one_row_shape(seq![6usize], seq![seq![0usize]], seq![one])
    } else {
        // look and unknown tags: no constraint
        trivial_shape()
    }
}

/// The instance with no terms.
pub open spec fn trivial_shape() -> PatternShape {
    PatternShape { cells: seq![], sets: seq![], coeffs: seq![], rows: 1 }
}

/// The index set [a].
fn set1(a: usize) -> (v: Vec<usize>)
    ensures
        v@ == seq![a],
{
    let mut v = Vec::new();
    v.push(a);
    v
}

/// The index set [a, b].
fn set2(a: usize, b: usize) -> (v: Vec<usize>)
    ensures
        v@ == seq![a, b],
{
    let mut v = Vec::new();
    v.push(a);
    v.push(b);
    v
}

/// −1 as a field element.
fn neg_one() -> (r: Goldilocks)
    ensures
        r@ == minus_one(),
{
    let r = Goldilocks::zero().sub(Goldilocks::one());
    proof {
        vstd::arithmetic::div_mod::lemma_small_mod(1, modulus());
        vstd::arithmetic::div_mod::lemma_small_mod((modulus() - 1) as nat, modulus());
    }
    r
}

/// −2 as a field element.
fn neg_two() -> (r: Goldilocks)
    ensures
        r@ == minus_two(),
{
    let r = Goldilocks::zero().sub(Goldilocks::new(2));
    proof {
        vstd::arithmetic::div_mod::lemma_small_mod(2, modulus());
        vstd::arithmetic::div_mod::lemma_small_mod((modulus() - 2) as nat, modulus());
    }
    r
}

/// Build the CCS instance for the given pattern tag.
pub fn build_step_ccs(pattern_tag: u8) -> (u: CCSInstance)
    ensures
        has_shape(&u, pattern_shape(pattern_tag)),
        u.wf(),
{
    match pattern_tag {
        1 => pattern_quote(),
        2 => pattern_compose(),
        3 => pattern_cons(),
        4 => pattern_branch(),
        5 => pattern_add(),
        6 => pattern_sub(),
        7 => pattern_mul(),
        8 => pattern_inv(),
        9 => pattern_eq(),
        0 => pattern_axis(),
        10 => pattern_lt(),
        11 => pattern_xor(),
        12 => pattern_and(),
        13 => pattern_not(),
        14 => pattern_shl(),
        15 => pattern_hash(),
        16 => pattern_call(),
        17 => pattern_look_inline(),
        _ => trivial_ccs(),
    }
}

/// Trivial CCS with no constraints: always satisfied.
pub fn trivial_ccs() -> (u: CCSInstance)
    ensures
        has_shape(&u, trivial_shape()),
        u.wf(),
{
    CCSInstance { matrices: vec![], multisets: vec![], coeffs: vec![], num_rows: 1, num_cols: Z_LEN }
}

/// Every term of a shape names a matrix of it.
pub open spec fn shape_wf(shape: PatternShape) -> bool {
    &&& shape.sets.len() == shape.coeffs.len()
    &&& forall|j: int, k: int|
        0 <= j < shape.sets.len() && 0 <= k < shape.sets[j].len() ==> (#[trigger] shape.sets[j][k]) < shape.cells.len()
}

/// A one-row instance from select matrices and (index set, coefficient) terms.
fn build_ccs(matrices: Vec<SparseMatrix>, terms: Vec<(Vec<usize>, Goldilocks)>, Ghost(cols): Ghost<Seq<usize>>) -> (u: CCSInstance)
    requires
        matrices@.len() == cols.len(),
        matrices@.len() > 0,
        forall|i: int| 0 <= i < cols.len() ==> mat_cells(#[trigger] matrices@[i], seq![Some(cols[i])], 1),
    ensures
        u.matrices@ == matrices@,
        u.multisets@.len() == terms@.len(),
        u.coeffs@.len() == terms@.len(),
        forall|j: int| 0 <= j < terms@.len() ==> (#[trigger] u.multisets@[j])@ == terms@[j].0@,
        forall|j: int| 0 <= j < terms@.len() ==> (#[trigger] u.coeffs@[j]) == terms@[j].1,
        u.num_rows == 1,
        u.num_cols == Z_LEN,
{
    let mut multisets: Vec<Vec<usize>> = Vec::new();
    let mut coeffs: Vec<Goldilocks> = Vec::new();
    let mut j: usize = 0;
    while j < terms.len()
        invariant
            j <= terms@.len(),
            multisets@.len() == j,
            coeffs@.len() == j,
            forall|t: int| 0 <= t < j ==> (#[trigger] multisets@[t])@ == terms@[t].0@,
            forall|t: int| 0 <= t < j ==> (#[trigger] coeffs@[t]) == terms@[t].1,
        decreases terms@.len() - j,
    {
        let s = terms[j].0.clone();
        multisets.push(s);
        coeffs.push(terms[j].1);
        j = j + 1;
    }
    let num_cols = matrices[0].cols;
    proof {
        assert(mat_cells(matrices@[0], seq![Some(cols[0])], 1));
    }
    CCSInstance { matrices, multisets, coeffs, num_rows: 1, num_cols }
}

proof fn lemma_one_row_shape(u: &CCSInstance, cols: Seq<usize>, sets: Seq<Seq<usize>>, coeffs: Seq<nat>)
    requires
        u.matrices@.len() == cols.len(),
        forall|i: int| 0 <= i < cols.len() ==> mat_cells(#[trigger] u.matrices@[i], seq![Some(cols[i])], 1),
        u.multisets@.len() == sets.len(),
        forall|j: int| 0 <= j < sets.len() ==> (#[trigger] u.multisets@[j])@ == sets[j],
        u.coeffs@.len() == coeffs.len(),
        forall|j: int| 0 <= j < coeffs.len() ==> (#[trigger] u.coeffs@[j])@ == coeffs[j],
        u.num_rows == 1,
        u.num_cols == Z_LEN,
        shape_wf(one_row_shape(cols, sets, coeffs)),
    ensures
        has_shape(u, one_row_shape(cols, sets, coeffs)),
        u.wf(),
{
    let shape = one_row_shape(cols, sets, coeffs);
    assert forall|i: int| 0 <= i < shape.cells.len() implies mat_cells(#[trigger] u.matrices@[i], shape.cells[i], shape.rows) by {
        assert(shape.cells[i] == seq![Some(cols[i])]);
    }
    assert forall|i: int| 0 <= i < u.matrices@.len() implies (#[trigger] u.matrices@[i]).wf() by {
        assert(mat_cells(u.matrices@[i], seq![Some(cols[i])], 1));
    }
    assert forall|j: int, k: int|
        0 <= j < u.num_terms() && 0 <= k < u.term_set(j).len() implies (#[trigger] u.term_set(j)[k]) < u.matrices@.len() by {
        assert(u.term_set(j) == sets[j]);
        assert(shape.sets[j][k] < shape.cells.len());
    }
}

// ── pattern 1: quote ─────────────────────────────────────────────────────────
// C_1: r5_{t+1} − r4_t = 0
pub fn pattern_quote() -> (u: CCSInstance)
    ensures
        has_shape(&u, pattern_shape(1)),
        u.wf(),
{
    let ghost cols = seq![21usize, 4];
    let u = build_ccs(
        vec![select_matrix(reg_t1(5)), select_matrix(reg_t(4))],
        vec![(set1(0), Goldilocks::one()), (set1(1), neg_one())],
        Ghost(cols),
    );
    proof {
        lemma_one_row_shape(&u, cols, pattern_shape(1).sets, pattern_shape(1).coeffs);
    }
    u
}

// ── pattern 2: compose ───────────────────────────────────────────────────────
// C_2: r5_{t+1} − r3_t = 0
pub fn pattern_compose() -> (u: CCSInstance)
    ensures
        has_shape(&u, pattern_shape(2)),
        u.wf(),
{
    let ghost cols = seq![21usize, 3];
    let u = build_ccs(
        vec![select_matrix(reg_t1(5)), select_matrix(reg_t(3))],
        vec![(set1(0), Goldilocks::one()), (set1(1), neg_one())],
        Ghost(cols),
    );
    proof {
        lemma_one_row_shape(&u, cols, pattern_shape(2).sets, pattern_shape(2).coeffs);
    }
    u
}

// ── pattern 3: cons ──────────────────────────────────────────────────────────
// C_3: r5_{t+1} − r3_t = 0
pub fn pattern_cons() -> (u: CCSInstance)
    ensures
        has_shape(&u, pattern_shape(3)),
        u.wf(),
{
    let ghost cols = seq![21usize, 3];
    let u = build_ccs(
        vec![select_matrix(reg_t1(5)), select_matrix(reg_t(3))],
        vec![(set1(0), Goldilocks::one()), (set1(1), neg_one())],
        Ghost(cols),
    );
    proof {
        lemma_one_row_shape(&u, cols, pattern_shape(3).sets, pattern_shape(3).coeffs);
    }
    u
}

// ── pattern 4: branch ────────────────────────────────────────────────────────
// C_4: r5_{t+1} − r6_t + r8_t·r6_t − r8_t·r4_t = 0
pub fn pattern_branch() -> (u: CCSInstance)
    ensures
        has_shape(&u, pattern_shape(4)),
        u.wf(),
{
    let ghost cols = seq![21usize, 6, 8, 6, 8, 4];
    let u = CCSInstance {
        matrices: vec![
            select_matrix(reg_t1(5)),
            select_matrix(reg_t(6)),
            select_matrix(reg_t(8)),
            select_matrix(reg_t(6)),
            select_matrix(reg_t(8)),
            select_matrix(reg_t(4)),
        ],
        multisets: vec![set1(0), set1(1), set2(2, 3), set2(4, 5)],
        coeffs: vec![Goldilocks::one(), neg_one(), Goldilocks::one(), neg_one()],
        num_rows: 1,
        num_cols: Z_LEN,
    };
    proof {
        lemma_one_row_shape(&u, cols, pattern_shape(4).sets, pattern_shape(4).coeffs);
    }
    u
}

// ── pattern 5: add ───────────────────────────────────────────────────────────
// C_5: r5_{t+1} − r3_t − r4_t = 0
pub fn pattern_add() -> (u: CCSInstance)
    ensures
        has_shape(&u, pattern_shape(5)),
        u.wf(),
{
    let ghost cols = seq![21usize, 3, 4];
    let u = build_ccs(
        vec![select_matrix(reg_t1(5)), select_matrix(reg_t(3)), select_matrix(reg_t(4))],
        vec![(set1(0), Goldilocks::one()), (set1(1), neg_one()), (set1(2), neg_one())],
        Ghost(cols),
    );
    proof {
        lemma_one_row_shape(&u, cols, pattern_shape(5).sets, pattern_shape(5).coeffs);
    }
    u
}

// ── pattern 6: sub ───────────────────────────────────────────────────────────
// C_6: r5_{t+1} − r3_t + r4_t = 0
pub fn pattern_sub() -> (u: CCSInstance)
    ensures
        has_shape(&u, pattern_shape(6)),
        u.wf(),
{
    let ghost cols = seq![21usize, 3, 4];
    let u = build_ccs(
        vec![select_matrix(reg_t1(5)), select_matrix(reg_t(3)), select_matrix(reg_t(4))],
        vec![(set1(0), Goldilocks::one()), (set1(1), neg_one()), (set1(2), Goldilocks::one())],
        Ghost(cols),
    );
    proof {
        lemma_one_row_shape(&u, cols, pattern_shape(6).sets, pattern_shape(6).coeffs);
    }
    u
}

// ── pattern 7: mul ───────────────────────────────────────────────────────────
// C_7: r5_{t+1} − r3_t · r4_t = 0
pub fn pattern_mul() -> (u: CCSInstance)
    ensures
        has_shape(&u, pattern_shape(7)),
        u.wf(),
{
    let ghost cols = seq![21usize, 3, 4];
    let u = build_ccs(
        vec![select_matrix(reg_t1(5)), select_matrix(reg_t(3)), select_matrix(reg_t(4))],
        vec![(set1(0), Goldilocks::one()), (set2(1, 2), neg_one())],
        Ghost(cols),
    );
    proof {
        lemma_one_row_shape(&u, cols, pattern_shape(7).sets, pattern_shape(7).coeffs);
    }
    u
}

// ── pattern 8: inv ───────────────────────────────────────────────────────────
// C_8: r5_{t+1} · r3_t − 1 = 0
pub fn pattern_inv() -> (u: CCSInstance)
    ensures
        has_shape(&u, pattern_shape(8)),
        u.wf(),
{
    let ghost cols = seq![21usize, 3, 32];
    let u = build_ccs(
        vec![select_matrix(reg_t1(5)), select_matrix(reg_t(3)), select_matrix(CONST_IDX)],
        vec![(set2(0, 1), Goldilocks::one()), (set1(2), neg_one())],
        Ghost(cols),
    );
    proof {
        lemma_one_row_shape(&u, cols, pattern_shape(8).sets, pattern_shape(8).coeffs);
    }
    u
}

/// A two-row matrix reading `c0` on row 0 and `c1` on row 1.
fn two_row_matrix(c0: Option<usize>, c1: Option<usize>) -> (m: SparseMatrix)
    ensures
        mat_cells(m, seq![c0, c1], 2),
{
    let mut m = SparseMatrix::new(2, Z_LEN);
    match c0 {
        Some(c) => m.set(0, c, Goldilocks::one()),
        None => {},
    }
    match c1 {
        Some(c) => m.set(1, c, Goldilocks::one()),
        None => {},
    }
    proof {
        let cs = seq![c0, c1];
        assert forall|r: int| 0 <= r < 2 implies match #[trigger] cs[r] {
            Some(c) => m.row(r).len() == 1 && m.row(r)[0].0 == c && m.row(r)[0].1@ == 1,
            None => m.row(r).len() == 0,
        } by {
            if r == 0 {
                assert(cs[0] == c0);
            } else {
                assert(cs[1] == c1);
            }
        }
    }
    m
}

// ── pattern 9: eq ────────────────────────────────────────────────────────────
// Two rows:
// C_9a: r3_t·r8_t − r4_t·r8_t − r9_t = 0
// C_9b: r5_{t+1} − 1 + r9_t = 0
pub fn pattern_eq() -> (u: CCSInstance)
    ensures
        has_shape(&u, pattern_shape(9)),
        u.wf(),
{
    let u = CCSInstance {
        matrices: vec![
            two_row_matrix(Some(reg_t(3)), None),
            two_row_matrix(Some(reg_t(4)), None),
            two_row_matrix(Some(reg_t(8)), Some(reg_t(8))),
            two_row_matrix(Some(reg_t(9)), None),
            two_row_matrix(None, Some(reg_t1(5))),
            two_row_matrix(None, Some(CONST_IDX)),
            two_row_matrix(None, Some(reg_t(9))),
        ],
        multisets: vec![set2(0, 2), set2(1, 2), set1(3), set1(4), set1(5), set1(6)],
        coeffs: vec![Goldilocks::one(), neg_one(), neg_one(), Goldilocks::one(), neg_one(), Goldilocks::one()],
        num_rows: 2,
        num_cols: Z_LEN,
    };
    proof {
        let shape = pattern_shape(9);
        assert forall|i: int| 0 <= i < shape.cells.len() implies mat_cells(#[trigger] u.matrices@[i], shape.cells[i], shape.rows) by {
        }
        assert forall|j: int, k: int|
            0 <= j < u.num_terms() && 0 <= k < u.term_set(j).len() implies (#[trigger] u.term_set(j)[k]) < u.matrices@.len() by {
            assert(u.term_set(j) == shape.sets[j]);
        }
    }
    u
}

// ── pattern 0: axis ──────────────────────────────────────────────────────────
// Budget decrement r9 = r8 − 1: r9 − r8 + 1 = 0.
pub fn pattern_axis() -> (u: CCSInstance)
    ensures
        has_shape(&u, pattern_shape(0)),
        u.wf(),
{
    let ghost cols = seq![9usize, 8, 32];
    let u = build_ccs(
        vec![select_matrix(reg_t(9)), select_matrix(reg_t(8)), select_matrix(CONST_IDX)],
        vec![(set1(0), Goldilocks::one()), (set1(1), neg_one()), (set1(2), Goldilocks::one())],
        Ghost(cols),
    );
    proof {
        lemma_one_row_shape(&u, cols, pattern_shape(0).sets, pattern_shape(0).coeffs);
    }
    u
}

// ── pattern 10: lt ───────────────────────────────────────────────────────────
// C_10: a_k² − a_k = 0 (a_k ∈ {0,1})
pub fn pattern_lt() -> (u: CCSInstance)
    ensures
        has_shape(&u, pattern_shape(10)),
        u.wf(),
{
    let ghost cols = seq![10usize];
    let u = build_ccs(
        vec![select_matrix(reg_t(10))],
        vec![(set2(0, 0), Goldilocks::one()), (set1(0), neg_one())],
        Ghost(cols),
    );
    proof {
        lemma_one_row_shape(&u, cols, pattern_shape(10).sets, pattern_shape(10).coeffs);
    }
    u
}

// ── pattern 11: xor ──────────────────────────────────────────────────────────
// C_11: a_k + b_k − 2·a_k·b_k − c_k = 0
pub fn pattern_xor() -> (u: CCSInstance)
    ensures
        has_shape(&u, pattern_shape(11)),
        u.wf(),
{
    let ghost cols = seq![10usize, 11, 12];
    let u = build_ccs(
        vec![select_matrix(reg_t(10)), select_matrix(reg_t(11)), select_matrix(reg_t(12))],
        vec![
            (set1(0), Goldilocks::one()),
            (set1(1), Goldilocks::one()),
            (set2(0, 1), neg_two()),
            (set1(2), neg_one()),
        ],
        Ghost(cols),
    );
    proof {
        lemma_one_row_shape(&u, cols, pattern_shape(11).sets, pattern_shape(11).coeffs);
    }
    u
}

// ── pattern 12: and ──────────────────────────────────────────────────────────
// C_12: a_k·b_k − c_k = 0
pub fn pattern_and() -> (u: CCSInstance)
    ensures
        has_shape(&u, pattern_shape(12)),
        u.wf(),
{
    let ghost cols = seq![10usize, 11, 12];
    let u = build_ccs(
        vec![select_matrix(reg_t(10)), select_matrix(reg_t(11)), select_matrix(reg_t(12))],
        vec![(set2(0, 1), Goldilocks::one()), (set1(2), neg_one())],
        Ghost(cols),
    );
    proof {
        lemma_one_row_shape(&u, cols, pattern_shape(12).sets, pattern_shape(12).coeffs);
    }
    u
}

// ── pattern 13: not ──────────────────────────────────────────────────────────
// C_13: a_k + c_k − 1 = 0
pub fn pattern_not() -> (u: CCSInstance)
    ensures
        has_shape(&u, pattern_shape(13)),
        u.wf(),
{
    let ghost cols = seq![10usize, 12, 32];
    let u = build_ccs(
        vec![select_matrix(reg_t(10)), select_matrix(reg_t(12)), select_matrix(CONST_IDX)],
        vec![(set1(0), Goldilocks::one()), (set1(1), Goldilocks::one()), (set1(2), neg_one())],
        Ghost(cols),
    );
    proof {
        lemma_one_row_shape(&u, cols, pattern_shape(13).sets, pattern_shape(13).coeffs);
    }
    u
}

// ── pattern 14: shl ──────────────────────────────────────────────────────────
// C_14: c_k − src_bit = 0
pub fn pattern_shl() -> (u: CCSInstance)
    ensures
        has_shape(&u, pattern_shape(14)),
        u.wf(),
{
    let ghost cols = seq![12usize, 11];
    let u = build_ccs(
        vec![select_matrix(reg_t(12)), select_matrix(reg_t(11))],
        vec![(set1(0), Goldilocks::one()), (set1(1), neg_one())],
        Ghost(cols),
    );
    proof {
        lemma_one_row_shape(&u, cols, pattern_shape(14).sets, pattern_shape(14).coeffs);
    }
    u
}

// ── pattern 15: hash ─────────────────────────────────────────────────────────
// C_15: r14_{t+1} − r14_t − 1 = 0 (round counter increments by one)
pub fn pattern_hash() -> (u: CCSInstance)
    ensures
        has_shape(&u, pattern_shape(15)),
        u.wf(),
{
    let ghost cols = seq![30usize, 14, 32];
    let u = build_ccs(
        vec![select_matrix(reg_t1(14)), select_matrix(reg_t(14)), select_matrix(CONST_IDX)],
        vec![(set1(0), Goldilocks::one()), (set1(1), neg_one()), (set1(2), neg_one())],
        Ghost(cols),
    );
    proof {
        lemma_one_row_shape(&u, cols, pattern_shape(15).sets, pattern_shape(15).coeffs);
    }
    u
}

// ── pattern 16: call ─────────────────────────────────────────────────────────
// C_16: r6 = 0 (the check formula's result)
pub fn pattern_call() -> (u: CCSInstance)
    ensures
        has_shape(&u, pattern_shape(16)),
        u.wf(),
{
    let ghost cols = seq![6usize];
    let u = build_ccs(vec![select_matrix(reg_t(6))], vec![(set1(0), Goldilocks::one())], Ghost(cols));
    proof {
        lemma_one_row_shape(&u, cols, pattern_shape(16).sets, pattern_shape(16).coeffs);
    }
    u
}

// Pattern 17 (look): no inline constraint; its bindings are separate steps.
pub fn pattern_look_inline() -> (u: CCSInstance)
    ensures
        has_shape(&u, pattern_shape(17)),
        u.wf(),
{
    trivial_ccs()
}

} // verus!
