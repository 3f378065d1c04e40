//! What each per-pattern instance enforces: the instance of pattern `tag`
//! holds at z exactly when that pattern's transition polynomials vanish
//! modulo p.
use crate::ccs::patterns::{has_shape, pattern_shape, PatternShape};
use crate::field::{fadd, fmul, modulus, Goldilocks};
use crate::types::{row_dot, zval, CCSInstance};
use vstd::arithmetic::div_mod::{lemma_add_mod_noop, lemma_mul_mod_noop, lemma_mul_mod_noop_left, lemma_small_mod};
use vstd::prelude::*;

verus! {

/// `x ≡ 0 (mod p)`.
pub open spec fn vanishes(x: int) -> bool {
    x % (modulus() as int) == 0
}

/// z[i] as an integer (zero out of range).
pub open spec fn zv(z: Seq<Goldilocks>, i: int) -> int {
    zval(z, i) as int
}

/// The transition polynomials of nox pattern `tag` over z, each required to
/// vanish modulo p.
pub open spec fn step_holds(tag: u8, z: Seq<Goldilocks>) -> bool {
    let x = |i: int| zv(z, i);
    if tag == 0 {
        vanishes(x(9) - x(8) + x(32))
    } else if tag == 1 {
        vanishes(x(21) - x(4))
    } else if tag == 2 || tag == 3 {
        vanishes(x(21) - x(3))
    } else if tag == 4 {
        vanishes(x(21) - x(6) + x(8) * x(6) - x(8) * x(4))
    } else if tag == 5 {
        vanishes(x(21) - x(3) - x(4))
    } else if tag == 6 {
        vanishes(x(21) - x(3) + x(4))
    } else if tag == 7 {
        vanishes(x(21) - x(3) * x(4))
    } else if tag == 8 {
        vanishes(x(21) * x(3) - x(32))
    } else if tag == 9 {
        vanishes(x(3) * x(8) - x(4) * x(8) - x(9)) && vanishes(x(21) - x(32) + x(9))
    } else if tag == 10 {
        vanishes(x(10) * x(10) - x(10))
    } else if tag == 11 {
        vanishes(x(10) + x(11) - 2 * (x(10) * x(11)) - x(12))
    } else if tag == 12 {
        vanishes(x(10) * x(11) - x(12))
    } else if tag == 13 {
        vanishes(x(10) + x(12) - x(32))
    } else if tag == 14 {
        vanishes(x(12) - x(11))
    } else if tag == 15 {
        vanishes(x(30) - x(14) - x(32))
    } else if tag == 16 {
        vanishes(x(6))
    } else {
        true
    }
}

/// The value a cell reads: z[col] for `Some(col)`, zero for `None`.
pub open spec fn cell_val(c: Option<usize>, z: Seq<Goldilocks>) -> int {
    match c {
        Some(col) => zv(z, col as int),
        None => 0,
    }
}

/// ∏ over the first `k` indices of `s` of the cells they read on row `r`.
pub open spec fn term_prod(shape: PatternShape, s: Seq<usize>, k: nat, r: int, z: Seq<Goldilocks>) -> int
    decreases k,
{
    if k == 0 {
        1
    } else {
        term_prod(shape, s, (k - 1) as nat, r, z) * cell_val(shape.cells[s[k - 1] as int][r], z)
    }
}

/// A coefficient in F_p read as the integer in (−p/2, p/2].
pub open spec fn signed(c: nat) -> int {
    if c > modulus() / 2 {
        c - modulus()
    } else {
        c as int
    }
}

/// Σ over the first `n` terms of signed(c_j) · ∏_{i ∈ S_j}, on row `r`, as an integer.
pub open spec fn shape_row(shape: PatternShape, n: nat, r: int, z: Seq<Goldilocks>) -> int
    decreases n,
{
    if n == 0 {
        0
    } else {
        let s = shape.sets[n - 1];
        shape_row(shape, (n - 1) as nat, r, z) + signed(shape.coeffs[n - 1]) * term_prod(shape, s, s.len(), r, z)
    }
}

/// Terms name existing matrices and coefficients are canonical.
pub open spec fn shape_ok(shape: PatternShape) -> bool {
    &&& shape.sets.len() == shape.coeffs.len()
    &&& forall|j: int, k: int|
        0 <= j < shape.sets.len() && 0 <= k < shape.sets[j].len() ==> (#[trigger] shape.sets[j][k]) < shape.cells.len()
    &&& forall|j: int| 0 <= j < shape.coeffs.len() ==> (#[trigger] shape.coeffs[j]) < modulus()
}

proof fn lemma_factor(u: &CCSInstance, shape: PatternShape, idx: int, z: Seq<Goldilocks>, r: int)
    requires
        has_shape(u, shape),
        0 <= idx < shape.cells.len(),
        0 <= r < shape.rows,
    ensures
        u.factor(idx, z, r) == cell_val(shape.cells[idx][r], z) % (modulus() as int),
{
    let m = u.matrices@[idx];
    let row = m.row(r);
    assert(crate::ccs::patterns::mat_cells(m, shape.cells[idx], shape.rows));
    match shape.cells[idx][r] {
        Some(c) => {
            assert(row.drop_last() =~= Seq::<(usize, Goldilocks)>::empty());
            assert(row_dot(row.drop_last(), z) == 0);
            let x = zval(z, c as int);
            assert(fmul(1, x) == x % modulus());
            lemma_small_mod(x % modulus(), modulus());
            assert(fadd(0, fmul(1, x)) == x % modulus());
        },
        None => {
            assert(row =~= Seq::<(usize, Goldilocks)>::empty());
            lemma_small_mod(0, modulus());
        },
    }
}

proof fn lemma_term_prod_nonneg(shape: PatternShape, s: Seq<usize>, k: nat, r: int, z: Seq<Goldilocks>)
    ensures
        term_prod(shape, s, k, r, z) >= 0,
    decreases k,
{
    if k > 0 {
        lemma_term_prod_nonneg(shape, s, (k - 1) as nat, r, z);
        let a = term_prod(shape, s, (k - 1) as nat, r, z);
        let b = cell_val(shape.cells[s[k - 1] as int][r], z);
        assert(b >= 0);
        assert(a * b >= 0) by (nonlinear_arith)
            requires
                a >= 0,
                b >= 0,
        ;
    }
}

proof fn lemma_product(u: &CCSInstance, shape: PatternShape, s: Seq<usize>, k: nat, z: Seq<Goldilocks>, r: int)
    requires
        has_shape(u, shape),
        k <= s.len(),
        forall|t: int| 0 <= t < s.len() ==> (#[trigger] s[t]) < shape.cells.len(),
        0 <= r < shape.rows,
    ensures
        u.product(s, k, z, r) == term_prod(shape, s, k, r, z) % (modulus() as int),
    decreases k,
{
    let p = modulus() as int;
    if k == 0 {
        lemma_small_mod(1, modulus());
    } else {
        lemma_product(u, shape, s, (k - 1) as nat, z, r);
        let idx = s[k - 1] as int;
        lemma_factor(u, shape, idx, z, r);
        let a = term_prod(shape, s, (k - 1) as nat, r, z);
        let b = cell_val(shape.cells[idx][r], z);
        lemma_mul_mod_noop(a, b, p);
    }
}

proof fn lemma_signed(c: nat)
    requires
        c < modulus(),
    ensures
        signed(c) % (modulus() as int) == c as int,
{
    let p = modulus() as int;
    if c > modulus() / 2 {
        vstd::arithmetic::div_mod::lemma_mod_add_multiples_vanish(c - p, p);
        lemma_small_mod(c, modulus());
    } else {
        lemma_small_mod(c, modulus());
    }
}

proof fn lemma_sum(u: &CCSInstance, shape: PatternShape, n: nat, z: Seq<Goldilocks>, r: int)
    requires
        has_shape(u, shape),
        shape_ok(shape),
        n <= shape.sets.len(),
        0 <= r < shape.rows,
    ensures
        u.partial_sum(n, z, r) == shape_row(shape, n, r, z) % (modulus() as int),
    decreases n,
{
    let p = modulus() as int;
    if n == 0 {
        lemma_small_mod(0, modulus());
    } else {
        let j = n - 1;
        lemma_sum(u, shape, (n - 1) as nat, z, r);
        let s = shape.sets[j];
        assert(u.term_set(j) == s);
        assert forall|t: int| 0 <= t < s.len() implies (#[trigger] s[t]) < shape.cells.len() by {
            assert(shape.sets[j][t] < shape.cells.len());
        }
        lemma_product(u, shape, s, s.len(), z, r);
        let tp = term_prod(shape, s, s.len(), r, z);
        let c = shape.coeffs[j];
        assert(u.coeffs@[j]@ == c);
        assert(c < modulus());
        // fmul(c, tp % p) == (signed(c) · tp) % p
        lemma_mul_mod_noop(c as int, tp, p);
        lemma_small_mod(c, modulus());
        lemma_signed(c);
        lemma_mul_mod_noop_left(signed(c), tp, p);
        lemma_mul_mod_noop_left(c as int, tp, p);
        let prev = shape_row(shape, (n - 1) as nat, r, z);
        let t = signed(c) * tp;
        lemma_add_mod_noop(prev, t, p);
    }
}

/// An instance of a well-formed shape holds at z exactly when every row's
/// integer polynomial vanishes modulo p.
pub proof fn lemma_shape_holds(u: &CCSInstance, shape: PatternShape, z: Seq<Goldilocks>)
    requires
        has_shape(u, shape),
        shape_ok(shape),
    ensures
        u.satisfied(z) <==> forall|r: int| 0 <= r < shape.rows ==> vanishes(#[trigger] shape_row(shape, shape.sets.len(), r, z)),
{
    assert(u.num_terms() == shape.sets.len());
    assert forall|r: int| 0 <= r < shape.rows implies #[trigger] u.row_value(z, r) == shape_row(shape, shape.sets.len(), r, z) % (modulus() as int) by {
        lemma_sum(u, shape, shape.sets.len(), z, r);
    }
    if u.satisfied(z) {
        assert forall|r: int| 0 <= r < shape.rows implies vanishes(#[trigger] shape_row(shape, shape.sets.len(), r, z)) by {
            assert(u.row_value(z, r) == 0);
        }
    }
}

proof fn lemma_signed_literals()
    ensures
        signed(1) == 1,
        signed((modulus() - 1) as nat) == -1,
        signed((modulus() - 2) as nat) == -2,
{
}

proof fn lemma_rows_0(z: Seq<Goldilocks>)
    ensures
        shape_ok(pattern_shape(0)),
        pattern_shape(0).rows == 1,
        shape_row(pattern_shape(0), pattern_shape(0).sets.len(), 0, z) == zv(z, 9) - zv(z, 8) + zv(z, 32),
{
    lemma_signed_literals();
    reveal_with_fuel(shape_row, 7);
    reveal_with_fuel(term_prod, 3);
}

proof fn lemma_rows_1(z: Seq<Goldilocks>)
    ensures
        shape_ok(pattern_shape(1)),
        pattern_shape(1).rows == 1,
        shape_row(pattern_shape(1), pattern_shape(1).sets.len(), 0, z) == zv(z, 21) - zv(z, 4),
{
    lemma_signed_literals();
    reveal_with_fuel(shape_row, 7);
    reveal_with_fuel(term_prod, 3);
}

proof fn lemma_rows_2(z: Seq<Goldilocks>)
    ensures
        shape_ok(pattern_shape(2)),
        pattern_shape(2).rows == 1,
        shape_row(pattern_shape(2), pattern_shape(2).sets.len(), 0, z) == zv(z, 21) - zv(z, 3),
{
    lemma_signed_literals();
    reveal_with_fuel(shape_row, 7);
    reveal_with_fuel(term_prod, 3);
}

proof fn lemma_rows_3(z: Seq<Goldilocks>)
    ensures
        shape_ok(pattern_shape(3)),
        pattern_shape(3).rows == 1,
        shape_row(pattern_shape(3), pattern_shape(3).sets.len(), 0, z) == zv(z, 21) - zv(z, 3),
{
    lemma_signed_literals();
    reveal_with_fuel(shape_row, 7);
    reveal_with_fuel(term_prod, 3);
}

proof fn lemma_rows_4(z: Seq<Goldilocks>)
    ensures
        shape_ok(pattern_shape(4)),
        pattern_shape(4).rows == 1,
        shape_row(pattern_shape(4), pattern_shape(4).sets.len(), 0, z) == zv(z, 21) - zv(z, 6) + zv(z, 8) * zv(z, 6) - zv(z, 8) * zv(z, 4),
{
    lemma_signed_literals();
    reveal_with_fuel(shape_row, 7);
    reveal_with_fuel(term_prod, 3);
}

proof fn lemma_rows_5(z: Seq<Goldilocks>)
    ensures
        shape_ok(pattern_shape(5)),
        pattern_shape(5).rows == 1,
        shape_row(pattern_shape(5), pattern_shape(5).sets.len(), 0, z) == zv(z, 21) - zv(z, 3) - zv(z, 4),
{
    lemma_signed_literals();
    reveal_with_fuel(shape_row, 7);
    reveal_with_fuel(term_prod, 3);
}

proof fn lemma_rows_6(z: Seq<Goldilocks>)
    ensures
        shape_ok(pattern_shape(6)),
        pattern_shape(6).rows == 1,
        shape_row(pattern_shape(6), pattern_shape(6).sets.len(), 0, z) == zv(z, 21) - zv(z, 3) + zv(z, 4),
{
    lemma_signed_literals();
    reveal_with_fuel(shape_row, 7);
    reveal_with_fuel(term_prod, 3);
}

proof fn lemma_rows_7(z: Seq<Goldilocks>)
    ensures
        shape_ok(pattern_shape(7)),
        pattern_shape(7).rows == 1,
        shape_row(pattern_shape(7), pattern_shape(7).sets.len(), 0, z) == zv(z, 21) - zv(z, 3) * zv(z, 4),
{
    lemma_signed_literals();
    reveal_with_fuel(shape_row, 7);
    reveal_with_fuel(term_prod, 3);
}

proof fn lemma_rows_8(z: Seq<Goldilocks>)
    ensures
        shape_ok(pattern_shape(8)),
        pattern_shape(8).rows == 1,
        shape_row(pattern_shape(8), pattern_shape(8).sets.len(), 0, z) == zv(z, 21) * zv(z, 3) - zv(z, 32),
{
    lemma_signed_literals();
    reveal_with_fuel(shape_row, 7);
    reveal_with_fuel(term_prod, 3);
}

proof fn lemma_rows_10(z: Seq<Goldilocks>)
    ensures
        shape_ok(pattern_shape(10)),
        pattern_shape(10).rows == 1,
        shape_row(pattern_shape(10), pattern_shape(10).sets.len(), 0, z) == zv(z, 10) * zv(z, 10) - zv(z, 10),
{
    lemma_signed_literals();
    reveal_with_fuel(shape_row, 7);
    reveal_with_fuel(term_prod, 3);
}

proof fn lemma_rows_11(z: Seq<Goldilocks>)
    ensures
        shape_ok(pattern_shape(11)),
        pattern_shape(11).rows == 1,
        shape_row(pattern_shape(11), pattern_shape(11).sets.len(), 0, z) == zv(z, 10) + zv(z, 11) - 2 * (zv(z, 10) * zv(z, 11)) - zv(z, 12),
{
    lemma_signed_literals();
    reveal_with_fuel(shape_row, 7);
    reveal_with_fuel(term_prod, 3);
}

proof fn lemma_rows_12(z: Seq<Goldilocks>)
    ensures
        shape_ok(pattern_shape(12)),
        pattern_shape(12).rows == 1,
        shape_row(pattern_shape(12), pattern_shape(12).sets.len(), 0, z) == zv(z, 10) * zv(z, 11) - zv(z, 12),
{
    lemma_signed_literals();
    reveal_with_fuel(shape_row, 7);
    reveal_with_fuel(term_prod, 3);
}

proof fn lemma_rows_13(z: Seq<Goldilocks>)
    ensures
        shape_ok(pattern_shape(13)),
        pattern_shape(13).rows == 1,
        shape_row(pattern_shape(13), pattern_shape(13).sets.len(), 0, z) == zv(z, 10) + zv(z, 12) - zv(z, 32),
{
    lemma_signed_literals();
    reveal_with_fuel(shape_row, 7);
    reveal_with_fuel(term_prod, 3);
}

proof fn lemma_rows_14(z: Seq<Goldilocks>)
    ensures
        shape_ok(pattern_shape(14)),
        pattern_shape(14).rows == 1,
        shape_row(pattern_shape(14), pattern_shape(14).sets.len(), 0, z) == zv(z, 12) - zv(z, 11),
{
    lemma_signed_literals();
    reveal_with_fuel(shape_row, 7);
    reveal_with_fuel(term_prod, 3);
}

proof fn lemma_rows_15(z: Seq<Goldilocks>)
    ensures
        shape_ok(pattern_shape(15)),
        pattern_shape(15).rows == 1,
        shape_row(pattern_shape(15), pattern_shape(15).sets.len(), 0, z) == zv(z, 30) - zv(z, 14) - zv(z, 32),
{
    lemma_signed_literals();
    reveal_with_fuel(shape_row, 7);
    reveal_with_fuel(term_prod, 3);
}

proof fn lemma_rows_16(z: Seq<Goldilocks>)
    ensures
        shape_ok(pattern_shape(16)),
        pattern_shape(16).rows == 1,
        shape_row(pattern_shape(16), pattern_shape(16).sets.len(), 0, z) == zv(z, 6),
{
    lemma_signed_literals();
    reveal_with_fuel(shape_row, 7);
    reveal_with_fuel(term_prod, 3);
}

proof fn lemma_rows_9(z: Seq<Goldilocks>)
    ensures
        shape_ok(pattern_shape(9)),
        pattern_shape(9).rows == 2,
        shape_row(pattern_shape(9), 6, 0, z) == zv(z, 3) * zv(z, 8) - zv(z, 4) * zv(z, 8) - zv(z, 9),
        shape_row(pattern_shape(9), 6, 1, z) == zv(z, 21) - zv(z, 32) + zv(z, 9),
{
    lemma_signed_literals();
    reveal_with_fuel(shape_row, 7);
    reveal_with_fuel(term_prod, 3);
    let sh = pattern_shape(9);
    assert(sh.cells[0][1] == None::<usize>);
    assert(sh.cells[1][1] == None::<usize>);
    assert(sh.cells[3][1] == None::<usize>);
    assert(sh.cells[4][1] == Some(21usize));
    assert(sh.cells[5][1] == Some(32usize));
    assert(sh.cells[6][1] == Some(9usize));
    assert(sh.sets[0][0] == 0usize);
    assert(sh.sets[1][0] == 1usize);
    assert(term_prod(sh, sh.sets[0], 1, 1, z) == 0);
    assert(term_prod(sh, sh.sets[1], 1, 1, z) == 0);
    assert(term_prod(sh, sh.sets[0], 2, 1, z) == 0);
    assert(term_prod(sh, sh.sets[1], 2, 1, z) == 0);
    assert(term_prod(sh, sh.sets[2], 1, 1, z) == 0);
    assert(term_prod(sh, sh.sets[3], 1, 1, z) == zv(z, 21));
    assert(term_prod(sh, sh.sets[4], 1, 1, z) == zv(z, 32));
    assert(term_prod(sh, sh.sets[5], 1, 1, z) == zv(z, 9));
}

/// The integer row polynomials of each pattern shape are the pattern's
/// transition polynomials.
proof fn lemma_pattern_rows(tag: u8, z: Seq<Goldilocks>)
    ensures
        shape_ok(pattern_shape(tag)),
        (forall|r: int| 0 <= r < pattern_shape(tag).rows ==> vanishes(#[trigger] shape_row(pattern_shape(tag), pattern_shape(tag).sets.len(), r, z)))
            <==> step_holds(tag, z),
{
    let shape = pattern_shape(tag);
    let n = shape.sets.len();
    if tag == 0 {
        lemma_rows_0(z);
        assert(shape_row(shape, n, 0, z) == zv(z, 9) - zv(z, 8) + zv(z, 32));
    } else if tag == 1 {
        lemma_rows_1(z);
        assert(shape_row(shape, n, 0, z) == zv(z, 21) - zv(z, 4));
    } else if tag == 2 {
        lemma_rows_2(z);
        assert(shape_row(shape, n, 0, z) == zv(z, 21) - zv(z, 3));
    } else if tag == 3 {
        lemma_rows_3(z);
        assert(shape_row(shape, n, 0, z) == zv(z, 21) - zv(z, 3));
    } else if tag == 4 {
        lemma_rows_4(z);
        assert(shape_row(shape, n, 0, z) == zv(z, 21) - zv(z, 6) + zv(z, 8) * zv(z, 6) - zv(z, 8) * zv(z, 4));
    } else if tag == 5 {
        lemma_rows_5(z);
        assert(shape_row(shape, n, 0, z) == zv(z, 21) - zv(z, 3) - zv(z, 4));
    } else if tag == 6 {
        lemma_rows_6(z);
        assert(shape_row(shape, n, 0, z) == zv(z, 21) - zv(z, 3) + zv(z, 4));
    } else if tag == 7 {
        lemma_rows_7(z);
        assert(shape_row(shape, n, 0, z) == zv(z, 21) - zv(z, 3) * zv(z, 4));
    } else if tag == 8 {
        lemma_rows_8(z);
        assert(shape_row(shape, n, 0, z) == zv(z, 21) * zv(z, 3) - zv(z, 32));
    } else if tag == 10 {
        lemma_rows_10(z);
        assert(shape_row(shape, n, 0, z) == zv(z, 10) * zv(z, 10) - zv(z, 10));
    } else if tag == 11 {
        lemma_rows_11(z);
        assert(shape_row(shape, n, 0, z) == zv(z, 10) + zv(z, 11) - 2 * (zv(z, 10) * zv(z, 11)) - zv(z, 12));
    } else if tag == 12 {
        lemma_rows_12(z);
        assert(shape_row(shape, n, 0, z) == zv(z, 10) * zv(z, 11) - zv(z, 12));
    } else if tag == 13 {
        lemma_rows_13(z);
        assert(shape_row(shape, n, 0, z) == zv(z, 10) + zv(z, 12) - zv(z, 32));
    } else if tag == 14 {
        lemma_rows_14(z);
        assert(shape_row(shape, n, 0, z) == zv(z, 12) - zv(z, 11));
    } else if tag == 15 {
        lemma_rows_15(z);
        assert(shape_row(shape, n, 0, z) == zv(z, 30) - zv(z, 14) - zv(z, 32));
    } else if tag == 16 {
        lemma_rows_16(z);
        assert(shape_row(shape, n, 0, z) == zv(z, 6));
    } else if tag == 9 {
        lemma_rows_9(z);
        assert(shape_row(shape, n, 0, z) == zv(z, 3) * zv(z, 8) - zv(z, 4) * zv(z, 8) - zv(z, 9));
        assert(shape_row(shape, n, 1, z) == zv(z, 21) - zv(z, 32) + zv(z, 9));
    } else {
        assert(shape_row(shape, 0, 0, z) == 0);
        assert(vanishes(0));
    }
}

/// The instance of pattern `tag` holds at z exactly when the pattern's
/// transition polynomials vanish modulo p.
pub proof fn lemma_step_ccs_holds(u: &CCSInstance, tag: u8, z: Seq<Goldilocks>)
    requires
        has_shape(u, pattern_shape(tag)),
    ensures
        u.satisfied(z) <==> step_holds(tag, z),
{
    lemma_pattern_rows(tag, z);
    lemma_shape_holds(u, pattern_shape(tag), z);
}

} // verus!
