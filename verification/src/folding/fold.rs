//! The arithmetic of a HyperNova fold: the per-row CCS error of a witness,
//! the cross term of two witnesses, and the folded witness
//! `w_acc + beta · w_new`.
use crate::field::{fadd, fmul, modulus, Goldilocks};
use crate::types::{zeros, CCSInstance, FoldError, SparseMatrix};
use vstd::prelude::*;

verus! {

/// Every term of the instance names existing matrices.
pub open spec fn terms_in_range(u: &CCSInstance) -> bool {
    forall|j: int, k: int|
        0 <= j < u.num_terms() && 0 <= k < u.term_set(j).len() ==> (#[trigger] u.term_set(j)[k]) < u.matrices@.len()
}

/// `M_idx[r] · z`, zero past the stored rows of `M_idx`.
pub open spec fn mdot(u: &CCSInstance, idx: int, z: Seq<Goldilocks>, r: int) -> nat {
    u.matrices@[idx].apply(z, r)
}

/// ∏ over the first `k` indices of `s` of `M_i[r] · z`.
pub open spec fn term_product(u: &CCSInstance, s: Seq<usize>, k: nat, z: Seq<Goldilocks>, r: int) -> nat
    decreases k,
{
    if k == 0 {
        1
    } else {
        fmul(term_product(u, s, (k - 1) as nat, z, r), mdot(u, s[k - 1] as int, z, r))
    }
}

/// Σ over the first `n` terms of c_j · ∏_{i ∈ S_j} (M_i[r] · z).
pub open spec fn error_sum(u: &CCSInstance, n: nat, z: Seq<Goldilocks>, r: int) -> nat
    decreases n,
{
    if n == 0 {
        0
    } else {
        let s = u.term_set(n - 1);
        fadd(error_sum(u, (n - 1) as nat, z, r), fmul(u.coeffs@[n - 1]@, term_product(u, s, s.len(), z, r)))
    }
}

/// The CCS error of `z` at row `r`: zero on every row exactly when `z`
/// satisfies the instance (for matrices with a row for every CCS row).
pub open spec fn error_at(u: &CCSInstance, z: Seq<Goldilocks>, r: int) -> nat {
    error_sum(u, u.num_terms(), z, r)
}

/// The cross term over the first `n` terms at row `r`: for each term of
/// at least two matrices i, k (its first two),
/// c · ((M_i a)(M_k b) + (M_i b)(M_k a)).
pub open spec fn cross_sum(u: &CCSInstance, n: nat, a: Seq<Goldilocks>, b: Seq<Goldilocks>, r: int) -> nat
    decreases n,
{
    if n == 0 {
        0
    } else {
        let s = u.term_set(n - 1);
        let prev = cross_sum(u, (n - 1) as nat, a, b, r);
        if s.len() < 2 {
            prev
        } else {
            let i = s[0] as int;
            let k = s[1] as int;
            fadd(
                prev,
                fmul(u.coeffs@[n - 1]@, fadd(fmul(mdot(u, i, a, r), mdot(u, k, b, r)), fmul(mdot(u, i, b, r), mdot(u, k, a, r)))),
            )
        }
    }
}

/// The cross term of `a` and `b` at row `r`.
pub open spec fn cross_at(u: &CCSInstance, a: Seq<Goldilocks>, b: Seq<Goldilocks>, r: int) -> nat {
    cross_sum(u, u.num_terms(), a, b, r)
}

/// `M[r] · z`: the sparse row's dot product, zero for an unstored row.
fn row_dot(matrix: &SparseMatrix, r: usize, z: &[Goldilocks]) -> (v: Goldilocks)
    ensures
        v@ == matrix.apply(z@, r as int),
{
    if r >= matrix.entries.len() {
        return Goldilocks::zero();
    }
    let row = &matrix.entries[r];
    let mut acc = Goldilocks::zero();
    let mut k: usize = 0;
    while k < row.len()
        invariant
            k <= row@.len(),
            row@ == matrix.row(r as int),
            acc@ == crate::types::row_dot(row@.take(k as int), z@),
        decreases row@.len() - k,
    {
        let (j, c) = row[k];
        let zj = if j < z.len() {
            z[j]
        } else {
            Goldilocks::zero()
        };
        acc = acc.add(c.mul(zj));
        proof {
            assert(row@.take(k + 1).drop_last() == row@.take(k as int));
        }
        k = k + 1;
    }
    proof {
        assert(row@.take(row@.len() as int) == row@);
    }
    acc
}

/// The per-row CCS error vector of `z`:
/// e[r] = Σ_j c_j · ∏_{i ∈ S_j} (M_i[r] · z), all zero for a satisfying witness.
pub fn error_evals(instance: &CCSInstance, z: &[Goldilocks]) -> (e: Vec<Goldilocks>)
    requires
        terms_in_range(instance),
    ensures
        e@.len() == instance.num_rows,
        forall|r: int| 0 <= r < instance.num_rows ==> #[trigger] e@[r]@ == error_at(instance, z@, r),
{
    let m = instance.num_rows;
    let mut e = zeros(m);
    let nt = if instance.multisets.len() <= instance.coeffs.len() {
        instance.multisets.len()
    } else {
        instance.coeffs.len()
    };
    let mut j: usize = 0;
    while j < nt
        invariant
            terms_in_range(instance),
            m == instance.num_rows,
            nt == instance.num_terms(),
            j <= nt,
            e@.len() == m,
            forall|r: int| 0 <= r < m ==> #[trigger] e@[r]@ == error_sum(instance, j as nat, z@, r),
        decreases nt - j,
    {
        let set = &instance.multisets[j];
        let c = instance.coeffs[j];
        let mut r: usize = 0;
        while r < m
            invariant
                terms_in_range(instance),
                m == instance.num_rows,
                j < instance.num_terms(),
                set@ == instance.term_set(j as int),
                c == instance.coeffs@[j as int],
                r <= m,
                e@.len() == m,
                forall|i: int| 0 <= i < r ==> #[trigger] e@[i]@ == error_sum(instance, (j + 1) as nat, z@, i),
                forall|i: int| r <= i < m ==> #[trigger] e@[i]@ == error_sum(instance, j as nat, z@, i),
            decreases m - r,
        {
            let mut product = Goldilocks::one();
            let mut k: usize = 0;
            while k < set.len()
                invariant
                    terms_in_range(instance),
                    j < instance.num_terms(),
                    set@ == instance.term_set(j as int),
                    k <= set@.len(),
                    product@ == term_product(instance, set@, k as nat, z@, r as int),
                decreases set@.len() - k,
            {
                let idx = set[k];
                let d = row_dot(&instance.matrices[idx], r, z);
                product = product.mul(d);
                k = k + 1;
            }
            let s = e[r].add(c.mul(product));
            e.set(r, s);
            r = r + 1;
        }
        j = j + 1;
    }
    e
}

/// The HyperNova cross term of two witnesses, one entry per row: for each
/// term with at least two matrices i, k (its first two) and coefficient c,
/// T[r] += c · ((M_i[r]·w_acc)(M_k[r]·w_new) + (M_i[r]·w_new)(M_k[r]·w_acc)).
pub fn cross_term(instance: &CCSInstance, w_acc: &[Goldilocks], w_new: &[Goldilocks]) -> (t: Vec<Goldilocks>)
    requires
        terms_in_range(instance),
    ensures
        t@.len() == instance.num_rows,
        forall|r: int| 0 <= r < instance.num_rows ==> #[trigger] t@[r]@ == cross_at(instance, w_acc@, w_new@, r),
{
    let m = instance.num_rows;
    let mut t = zeros(m);
    let nt = if instance.multisets.len() <= instance.coeffs.len() {
        instance.multisets.len()
    } else {
        instance.coeffs.len()
    };
    let mut j: usize = 0;
    while j < nt
        invariant
            terms_in_range(instance),
            m == instance.num_rows,
            nt == instance.num_terms(),
            j <= nt,
            t@.len() == m,
            forall|r: int| 0 <= r < m ==> #[trigger] t@[r]@ == cross_sum(instance, j as nat, w_acc@, w_new@, r),
        decreases nt - j,
    {
        let set = &instance.multisets[j];
        let coeff = instance.coeffs[j];
        if set.len() >= 2 {
            let i = set[0];
            let k = set[1];
            proof {
                assert(instance.term_set(j as int)[0] == i);
                assert(instance.term_set(j as int)[1] == k);
            }
            let mi = &instance.matrices[i];
            let mk = &instance.matrices[k];
            let mut r: usize = 0;
            while r < m
                invariant
                    m == instance.num_rows,
                    j < instance.num_terms(),
                    set@ == instance.term_set(j as int),
                    set@.len() >= 2,
                    i == set@[0],
                    k == set@[1],
                    i < instance.matrices@.len(),
                    k < instance.matrices@.len(),
                    *mi == instance.matrices@[i as int],
                    *mk == instance.matrices@[k as int],
                    coeff == instance.coeffs@[j as int],
                    r <= m,
                    t@.len() == m,
                    forall|q: int| 0 <= q < r ==> #[trigger] t@[q]@ == cross_sum(instance, (j + 1) as nat, w_acc@, w_new@, q),
                    forall|q: int| r <= q < m ==> #[trigger] t@[q]@ == cross_sum(instance, j as nat, w_acc@, w_new@, q),
                decreases m - r,
            {
                let mi_acc = row_dot(mi, r, w_acc);
                let mk_acc = row_dot(mk, r, w_acc);
                let mi_new = row_dot(mi, r, w_new);
                let mk_new = row_dot(mk, r, w_new);
                let s = t[r].add(coeff.mul(mi_acc.mul(mk_new).add(mi_new.mul(mk_acc))));
                t.set(r, s);
                r = r + 1;
            }
        }
        j = j + 1;
    }
    t
}

/// The folded witness `w_acc + beta · z_new`, entry by entry over the
/// common prefix; entries of `w_acc` past the end of `z_new` are kept.
pub fn fold_witnesses(w_acc: &[Goldilocks], z_new: &[Goldilocks], beta: Goldilocks) -> (w: Vec<Goldilocks>)
    ensures
        w@.len() == w_acc@.len(),
        forall|i: int|
            0 <= i < w_acc@.len() ==> #[trigger] w@[i]@ == if i < z_new@.len() {
                fadd(w_acc@[i]@, fmul(beta@, z_new@[i]@))
            } else {
                w_acc@[i]@
            },
{
    let mut w: Vec<Goldilocks> = Vec::new();
    let mut i: usize = 0;
    while i < w_acc.len()
        invariant
            i <= w_acc@.len(),
            w@.len() == i,
            forall|q: int|
                0 <= q < i ==> #[trigger] w@[q]@ == if q < z_new@.len() {
                    fadd(w_acc@[q]@, fmul(beta@, z_new@[q]@))
                } else {
                    w_acc@[q]@
                },
        decreases w_acc@.len() - i,
    {
        if i < z_new.len() {
            w.push(w_acc[i].add(beta.mul(z_new[i])));
        } else {
            w.push(w_acc[i]);
        }
        i = i + 1;
    }
    w
}

/// `w` is `a + beta · b` entry by entry, in F_p.
pub open spec fn is_fold(a: Seq<Goldilocks>, b: Seq<Goldilocks>, w: Seq<Goldilocks>, beta: nat) -> bool {
    &&& a.len() == b.len()
    &&& w.len() == a.len()
    &&& forall|i: int| 0 <= i < w.len() ==> #[trigger] w[i]@ == fadd(a[i]@, fmul(beta, b[i]@))
}

/// Reduction modulo p, on integers.
spec fn md(x: int) -> int {
    x % (modulus() as int)
}

proof fn lemma_md(x: int, y: int)
    ensures
        md(md(x) + md(y)) == md(x + y),
        md(x + md(y)) == md(x + y),
        md(md(x) + y) == md(x + y),
        md(md(x) * md(y)) == md(x * y),
        md(x * md(y)) == md(x * y),
        md(md(x) * y) == md(x * y),
{
    let p = modulus() as int;
    vstd::arithmetic::div_mod::lemma_add_mod_noop(x, y, p);
    vstd::arithmetic::div_mod::lemma_add_mod_noop_right(x, y, p);
    vstd::arithmetic::div_mod::lemma_add_mod_noop_right(y, x, p);
    vstd::arithmetic::div_mod::lemma_mul_mod_noop_general(x, y, p);
}

/// One more entry of a row keeps the dot product linear.
proof fn lemma_lin_step(x: nat, y: nat, c: nat, za: nat, zb: nat, beta: nat)
    ensures
        fadd(fadd(x, fmul(beta, y)), fmul(c, fadd(za, fmul(beta, zb)))) == fadd(
            fadd(x, fmul(c, za)),
            fmul(beta, fadd(y, fmul(c, zb))),
        ),
{
    let (xi, yi, ci, ai, bi, ti) = (x as int, y as int, c as int, za as int, zb as int, beta as int);
    lemma_md(xi, ti * yi);
    lemma_md(ai, ti * bi);
    lemma_md(ci, ai + ti * bi);
    lemma_md(xi + ti * yi, ci * (ai + ti * bi));
    lemma_md(xi, ci * ai);
    lemma_md(yi, ci * bi);
    lemma_md(ti, yi + ci * bi);
    lemma_md(xi + ci * ai, ti * (yi + ci * bi));
    assert(xi + ti * yi + ci * (ai + ti * bi) == xi + ci * ai + ti * (yi + ci * bi)) by (nonlinear_arith);
}

/// A sparse row's dot product is linear in the witness.
proof fn lemma_row_dot_linear(row: Seq<(usize, Goldilocks)>, a: Seq<Goldilocks>, b: Seq<Goldilocks>, w: Seq<Goldilocks>, beta: nat)
    requires
        is_fold(a, b, w, beta),
    ensures
        crate::types::row_dot(row, w) == fadd(crate::types::row_dot(row, a), fmul(beta, crate::types::row_dot(row, b))),
    decreases row.len(),
{
    if row.len() == 0 {
        assert(fmul(beta, 0) == 0);
    } else {
        let rest = row.drop_last();
        let (col, c) = row.last();
        lemma_row_dot_linear(rest, a, b, w, beta);
        let x = crate::types::row_dot(rest, a);
        let y = crate::types::row_dot(rest, b);
        let za = crate::types::zval(a, col as int);
        let zb = crate::types::zval(b, col as int);
        assert(crate::types::zval(w, col as int) == fadd(za, fmul(beta, zb))) by {
            if !(0 <= col < w.len()) {
                assert(fmul(beta, 0) == 0);
            }
        }
        lemma_lin_step(x, y, c@, za, zb, beta);
    }
}

/// `M[r] · w` is `M[r] · a + beta · M[r] · b`.
proof fn lemma_apply_linear(m: SparseMatrix, a: Seq<Goldilocks>, b: Seq<Goldilocks>, w: Seq<Goldilocks>, beta: nat, r: int)
    requires
        is_fold(a, b, w, beta),
    ensures
        m.apply(w, r) == fadd(m.apply(a, r), fmul(beta, m.apply(b, r))),
        m.apply(a, r) < modulus(),
        m.apply(b, r) < modulus(),
{
    if 0 <= r < m.entries@.len() {
        lemma_row_dot_linear(m.row(r), a, b, w, beta);
        lemma_row_dot_small(m.row(r), a);
        lemma_row_dot_small(m.row(r), b);
    } else {
        assert(fmul(beta, 0) == 0);
    }
}

proof fn lemma_row_dot_small(row: Seq<(usize, Goldilocks)>, z: Seq<Goldilocks>)
    ensures
        crate::types::row_dot(row, z) < modulus(),
{
}

proof fn lemma_ring_step(e: int, x: int, f: int, c: int, t: int, p1: int, p2: int, q1: int, q2: int)
    ensures
        e + t * x + t * t * f + c * ((p1 + t * p2) * (q1 + t * q2)) == e + c * (p1 * q1) + t * (x + c * (p1 * q2 + p2 * q1)) + t * t * (f
            + c * (p2 * q2)),
{
    let y = p1 * q2 + p2 * q1;
    let z = p2 * q2;
    let v = p1 * q1;
    assert((p1 + t * p2) * (q1 + t * q2) == p1 * (q1 + t * q2) + (t * p2) * (q1 + t * q2)) by (nonlinear_arith);
    assert(p1 * (q1 + t * q2) == p1 * q1 + t * (p1 * q2)) by (nonlinear_arith);
    assert((t * p2) * (q1 + t * q2) == t * (p2 * q1) + t * t * (p2 * q2)) by (nonlinear_arith);
    assert(t * (p1 * q2) + t * (p2 * q1) == t * (p1 * q2 + p2 * q1)) by (nonlinear_arith);
    assert(c * (v + t * y + t * t * z) == c * v + t * (c * y) + t * t * (c * z)) by (nonlinear_arith);
    assert(t * (x + c * y) == t * x + t * (c * y)) by (nonlinear_arith);
    assert(t * t * (f + c * z) == t * t * f + t * t * (c * z)) by (nonlinear_arith);
}

/// One more term of two matrices keeps the identity.
proof fn lemma_term_step(e: nat, x: nat, f: nat, c: nat, aa: nat, ab: nat, ba: nat, bb: nat, beta: nat)
    ensures
        fadd(fadd(fadd(e, fmul(beta, x)), fmul(fmul(beta, beta), f)), fmul(c, fmul(fmul(1, fadd(aa, fmul(beta, ab))), fadd(ba, fmul(beta, bb)))))
            == fadd(
            fadd(fadd(e, fmul(c, fmul(fmul(1, aa), ba))), fmul(beta, fadd(x, fmul(c, fadd(fmul(aa, bb), fmul(ab, ba)))))),
            fmul(fmul(beta, beta), fadd(f, fmul(c, fmul(fmul(1, ab), bb)))),
        ),
{
    let (ei, xi, fi, ci, t) = (e as int, x as int, f as int, c as int, beta as int);
    let (p1, p2, q1, q2) = (aa as int, ab as int, ba as int, bb as int);
    // left side
    lemma_md(p1, t * p2);
    lemma_md(q1, t * q2);
    lemma_md(1, p1 + t * p2);
    lemma_md(1 * (p1 + t * p2), q1 + t * q2);
    lemma_md(md(1 * (p1 + t * p2)), q1 + t * q2);
    lemma_md(ci, (p1 + t * p2) * (q1 + t * q2));
    lemma_md(ei, t * xi);
    lemma_md(t, t);
    lemma_md(t * t, fi);
    lemma_md(ei + t * xi, t * t * fi);
    lemma_md(ei + t * xi + t * t * fi, ci * ((p1 + t * p2) * (q1 + t * q2)));
    // right side
    lemma_md(1, p1);
    lemma_md(1 * p1, q1);
    lemma_md(md(1 * p1), q1);
    lemma_md(ci, p1 * q1);
    lemma_md(ei, ci * (p1 * q1));
    lemma_md(p1, q2);
    lemma_md(p2, q1);
    lemma_md(p1 * q2, p2 * q1);
    lemma_md(ci, p1 * q2 + p2 * q1);
    lemma_md(xi, ci * (p1 * q2 + p2 * q1));
    lemma_md(t, xi + ci * (p1 * q2 + p2 * q1));
    lemma_md(ei + ci * (p1 * q1), t * (xi + ci * (p1 * q2 + p2 * q1)));
    lemma_md(1, p2);
    lemma_md(1 * p2, q2);
    lemma_md(md(1 * p2), q2);
    lemma_md(ci, p2 * q2);
    lemma_md(fi, ci * (p2 * q2));
    lemma_md(t * t, fi + ci * (p2 * q2));
    lemma_md(ei + ci * (p1 * q1) + t * (xi + ci * (p1 * q2 + p2 * q1)), t * t * (fi + ci * (p2 * q2)));
    lemma_ring_step(ei, xi, fi, ci, t, p1, p2, q1, q2);
}

proof fn lemma_error_sum_fold(u: &CCSInstance, n: nat, a: Seq<Goldilocks>, b: Seq<Goldilocks>, w: Seq<Goldilocks>, beta: nat, r: int)
    requires
        n <= u.num_terms(),
        terms_in_range(u),
        forall|j: int| 0 <= j < u.num_terms() ==> (#[trigger] u.term_set(j)).len() == 2,
        is_fold(a, b, w, beta),
    ensures
        error_sum(u, n, w, r) == fadd(
            fadd(error_sum(u, n, a, r), fmul(beta, cross_sum(u, n, a, b, r))),
            fmul(fmul(beta, beta), error_sum(u, n, b, r)),
        ),
    decreases n,
{
    if n == 0 {
        let bb = fmul(beta, beta);
        assert(beta * 0 == 0 && bb * 0 == 0);
        assert(fmul(beta, 0) == 0);
        assert(fmul(bb, 0) == 0);
        assert(fadd(fadd(0, 0), 0) == 0);
    } else {
        let j = n - 1;
        lemma_error_sum_fold(u, (n - 1) as nat, a, b, w, beta, r);
        let s = u.term_set(j);
        assert(s.len() == 2);
        let i = s[0] as int;
        let k = s[1] as int;
        assert(i < u.matrices@.len() && k < u.matrices@.len());
        lemma_apply_linear(u.matrices@[i], a, b, w, beta, r);
        lemma_apply_linear(u.matrices@[k], a, b, w, beta, r);
        reveal_with_fuel(term_product, 3);
        assert(term_product(u, s, 2, w, r) == fmul(fmul(1, mdot(u, i, w, r)), mdot(u, k, w, r))) by {
            assert(term_product(u, s, 1, w, r) == fmul(1, mdot(u, i, w, r)));
        }
        assert(term_product(u, s, 2, a, r) == fmul(fmul(1, mdot(u, i, a, r)), mdot(u, k, a, r))) by {
            assert(term_product(u, s, 1, a, r) == fmul(1, mdot(u, i, a, r)));
        }
        assert(term_product(u, s, 2, b, r) == fmul(fmul(1, mdot(u, i, b, r)), mdot(u, k, b, r))) by {
            assert(term_product(u, s, 1, b, r) == fmul(1, mdot(u, i, b, r)));
        }
        lemma_term_step(
            error_sum(u, (n - 1) as nat, a, r),
            cross_sum(u, (n - 1) as nat, a, b, r),
            error_sum(u, (n - 1) as nat, b, r),
            u.coeffs@[j]@,
            mdot(u, i, a, r),
            mdot(u, i, b, r),
            mdot(u, k, a, r),
            mdot(u, k, b, r),
            beta,
        );
    }
}

/// The folding identity: for an instance whose every term multiplies two
/// matrices, the error of the folded witness `a + beta · b` is
/// `E(a) + beta · T(a, b) + beta² · E(b)` on every row, with `T` the cross
/// term.
pub proof fn lemma_fold_error(u: &CCSInstance, a: Seq<Goldilocks>, b: Seq<Goldilocks>, w: Seq<Goldilocks>, beta: nat, r: int)
    requires
        terms_in_range(u),
        forall|j: int| 0 <= j < u.num_terms() ==> (#[trigger] u.term_set(j)).len() == 2,
        is_fold(a, b, w, beta),
    ensures
        error_at(u, w, r) == fadd(fadd(error_at(u, a, r), fmul(beta, cross_at(u, a, b, r))), fmul(fmul(beta, beta), error_at(u, b, r))),
{
    lemma_error_sum_fold(u, u.num_terms(), a, b, w, beta, r);
}

proof fn lemma_product_agrees(u: &CCSInstance, s: Seq<usize>, k: nat, z: Seq<Goldilocks>, r: int)
    requires
        k <= s.len(),
        forall|q: int| 0 <= q < s.len() ==> s[q] < u.matrices@.len() && r < u.matrices@[s[q] as int].rows,
    ensures
        term_product(u, s, k, z, r) == u.product(s, k, z, r),
    decreases k,
{
    if k > 0 {
        lemma_product_agrees(u, s, (k - 1) as nat, z, r);
        assert(s[k - 1] < u.matrices@.len() && r < u.matrices@[s[k - 1] as int].rows);
    }
}

proof fn lemma_sum_agrees(u: &CCSInstance, n: nat, z: Seq<Goldilocks>, r: int)
    requires
        n <= u.num_terms(),
        terms_in_range(u),
        forall|i: int| 0 <= i < u.matrices@.len() ==> r < (#[trigger] u.matrices@[i]).rows,
    ensures
        error_sum(u, n, z, r) == u.partial_sum(n, z, r),
    decreases n,
{
    if n > 0 {
        lemma_sum_agrees(u, (n - 1) as nat, z, r);
        let s = u.term_set(n - 1);
        assert forall|q: int| 0 <= q < s.len() implies s[q] < u.matrices@.len() && r < u.matrices@[s[q] as int].rows by {
            assert(u.term_set(n - 1)[q] < u.matrices@.len());
        }
        lemma_product_agrees(u, s, s.len(), z, r);
    }
}

/// Where every matrix has a row for every CCS row, the error vector is the
/// relation itself: row `r` of `error_evals` is the CCS row value, so it
/// is all zero exactly on a satisfying witness.
pub proof fn lemma_error_is_relation(u: &CCSInstance, z: Seq<Goldilocks>)
    requires
        terms_in_range(u),
        forall|i: int| 0 <= i < u.matrices@.len() ==> (#[trigger] u.matrices@[i]).rows >= u.num_rows,
    ensures
        forall|r: int| 0 <= r < u.num_rows ==> #[trigger] error_at(u, z, r) == u.row_value(z, r),
        u.satisfied(z) <==> forall|r: int| 0 <= r < u.num_rows ==> #[trigger] error_at(u, z, r) == 0,
{
    assert forall|r: int| 0 <= r < u.num_rows implies #[trigger] error_at(u, z, r) == u.row_value(z, r) by {
        lemma_sum_agrees(u, u.num_terms(), z, r);
    }
    if u.satisfied(z) {
        assert forall|r: int| 0 <= r < u.num_rows implies #[trigger] error_at(u, z, r) == 0 by {
            lemma_sum_agrees(u, u.num_terms(), z, r);
            assert(u.row_value(z, r) == 0);
        }
    }
    if forall|r: int| 0 <= r < u.num_rows ==> #[trigger] error_at(u, z, r) == 0 {
        assert forall|r: int| 0 <= r < u.num_rows implies #[trigger] u.row_value(z, r) == 0 by {
            lemma_sum_agrees(u, u.num_terms(), z, r);
            assert(error_at(u, z, r) == 0);
        }
    }
}

/// Two sparse matrices are the same: dimensions and every stored row.
pub open spec fn same_matrix(a: SparseMatrix, b: SparseMatrix) -> bool {
    &&& a.rows == b.rows
    &&& a.cols == b.cols
    &&& a.entries@.len() == b.entries@.len()
    &&& forall|r: int| 0 <= r < a.entries@.len() ==> (#[trigger] a.entries@[r])@ == b.entries@[r]@
}

/// Two instances are the same: matrices, term sets, coefficients and
/// dimensions.
pub open spec fn same_instance_spec(a: &CCSInstance, b: &CCSInstance) -> bool {
    &&& a.num_rows == b.num_rows
    &&& a.num_cols == b.num_cols
    &&& a.matrices@.len() == b.matrices@.len()
    &&& forall|i: int| 0 <= i < a.matrices@.len() ==> same_matrix(#[trigger] a.matrices@[i], b.matrices@[i])
    &&& a.multisets@.len() == b.multisets@.len()
    &&& forall|j: int| 0 <= j < a.multisets@.len() ==> (#[trigger] a.multisets@[j])@ == b.multisets@[j]@
    &&& a.coeffs@ == b.coeffs@
}

fn same_pairs(a: &Vec<(usize, Goldilocks)>, b: &Vec<(usize, Goldilocks)>) -> (r: bool)
    ensures
        r == (a@ == b@),
{
    if a.len() != b.len() {
        return false;
    }
    let mut i: usize = 0;
    while i < a.len()
        invariant
            a@.len() == b@.len(),
            i <= a@.len(),
            forall|k: int| 0 <= k < i ==> a@[k] == b@[k],
        decreases a@.len() - i,
    {
        if a[i].0 != b[i].0 || !a[i].1.equals(b[i].1) {
            proof {
                if a[i as int].0 == b[i as int].0 {
                    crate::field::lemma_view_injective(a@[i as int].1, b@[i as int].1);
                }
            }
            return false;
        }
        proof {
            crate::field::lemma_view_injective(a@[i as int].1, b@[i as int].1);
        }
        i = i + 1;
    }
    assert(a@ =~= b@);
    true
}

fn same_matrix_exec(a: &SparseMatrix, b: &SparseMatrix) -> (r: bool)
    ensures
        r == same_matrix(*a, *b),
{
    if a.rows != b.rows || a.cols != b.cols || a.entries.len() != b.entries.len() {
        return false;
    }
    let mut r: usize = 0;
    while r < a.entries.len()
        invariant
            a.entries@.len() == b.entries@.len(),
            r <= a.entries@.len(),
            forall|q: int| 0 <= q < r ==> (#[trigger] a.entries@[q])@ == b.entries@[q]@,
        decreases a.entries@.len() - r,
    {
        if !same_pairs(&a.entries[r], &b.entries[r]) {
            return false;
        }
        r = r + 1;
    }
    true
}

fn same_usizes(a: &Vec<usize>, b: &Vec<usize>) -> (r: bool)
    ensures
        r == (a@ == b@),
{
    if a.len() != b.len() {
        return false;
    }
    let mut i: usize = 0;
    while i < a.len()
        invariant
            a@.len() == b@.len(),
            i <= a@.len(),
            forall|k: int| 0 <= k < i ==> a@[k] == b@[k],
        decreases a@.len() - i,
    {
        if a[i] != b[i] {
            return false;
        }
        i = i + 1;
    }
    assert(a@ =~= b@);
    true
}

/// Whether two instances are the same.
pub fn same_instance(a: &CCSInstance, b: &CCSInstance) -> (r: bool)
    ensures
        r == same_instance_spec(a, b),
{
    if a.num_rows != b.num_rows || a.num_cols != b.num_cols || a.matrices.len() != b.matrices.len() || a.multisets.len()
        != b.multisets.len() || a.coeffs.len() != b.coeffs.len() {
        return false;
    }
    let mut i: usize = 0;
    while i < a.matrices.len()
        invariant
            a.matrices@.len() == b.matrices@.len(),
            i <= a.matrices@.len(),
            forall|k: int| 0 <= k < i ==> same_matrix(#[trigger] a.matrices@[k], b.matrices@[k]),
        decreases a.matrices@.len() - i,
    {
        if !same_matrix_exec(&a.matrices[i], &b.matrices[i]) {
            return false;
        }
        i = i + 1;
    }
    let mut j: usize = 0;
    while j < a.multisets.len()
        invariant
            a.multisets@.len() == b.multisets@.len(),
            j <= a.multisets@.len(),
            forall|k: int| 0 <= k < j ==> (#[trigger] a.multisets@[k])@ == b.multisets@[k]@,
        decreases a.multisets@.len() - j,
    {
        if !same_usizes(&a.multisets[j], &b.multisets[j]) {
            return false;
        }
        j = j + 1;
    }
    let mut k: usize = 0;
    while k < a.coeffs.len()
        invariant
            a.coeffs@.len() == b.coeffs@.len(),
            k <= a.coeffs@.len(),
            forall|q: int| 0 <= q < k ==> a.coeffs@[q] == b.coeffs@[q],
        decreases a.coeffs@.len() - k,
    {
        if !a.coeffs[k].equals(b.coeffs[k]) {
            proof {
                crate::field::lemma_view_injective(a.coeffs@[k as int], b.coeffs@[k as int]);
            }
            return false;
        }
        proof {
            crate::field::lemma_view_injective(a.coeffs@[k as int], b.coeffs@[k as int]);
        }
        k = k + 1;
    }
    assert(a.coeffs@ =~= b.coeffs@);
    true
}

/// What a fold keeps between steps, besides its witness commitment: the
/// instance every step must match, the folded witness, its error vector
/// and the number of steps folded.
pub struct FoldState {
    pub instance: CCSInstance,
    pub witness: Vec<Goldilocks>,
    pub errors: Vec<Goldilocks>,
    pub step_count: u64,
}

/// Every entry is zero.
pub open spec fn all_zero(v: Seq<Goldilocks>) -> bool {
    forall|i: int| 0 <= i < v.len() ==> (#[trigger] v[i])@ == 0
}

fn zero_vector(v: &Vec<Goldilocks>) -> (r: bool)
    ensures
        r == all_zero(v@),
{
    let mut i: usize = 0;
    while i < v.len()
        invariant
            i <= v@.len(),
            forall|k: int| 0 <= k < i ==> (#[trigger] v@[k])@ == 0,
        decreases v@.len() - i,
    {
        if !v[i].is_zero() {
            return false;
        }
        i = i + 1;
    }
    true
}

/// One fold step's decisions and arithmetic, with the challenge `beta`
/// that the transcript derives from the two witness commitments and the
/// cross term (`z_new` already padded). A witness that does not satisfy
/// `instance` is refused first. The first step adopts the instance, the
/// witness and its errors; a later one refuses another instance or a
/// witness of another length, and otherwise folds `w + beta · z_new` and
/// re-evaluates its errors.
pub fn fold_step_decide(state: &mut FoldState, instance: CCSInstance, z_new: Vec<Goldilocks>, beta: Goldilocks) -> (r: Result<(), FoldError>)
    requires
        terms_in_range(&instance),
        old(state).step_count < u64::MAX,
    ensures
        !(forall|q: int| 0 <= q < instance.num_rows ==> #[trigger] error_at(&instance, z_new@, q) == 0) ==> (r
            == Err::<(), FoldError>(FoldError::UnsatisfyingWitness) && *final(state) == *old(state)),
        (forall|q: int| 0 <= q < instance.num_rows ==> #[trigger] error_at(&instance, z_new@, q) == 0) ==> {
            if old(state).step_count == 0 {
                &&& r is Ok
                &&& final(state).instance == instance
                &&& final(state).witness@ == z_new@
                &&& final(state).errors@.len() == instance.num_rows
                &&& all_zero(final(state).errors@)
                &&& final(state).step_count == 1
            } else if !same_instance_spec(&old(state).instance, &instance) {
                r == Err::<(), FoldError>(FoldError::InstanceMismatch) && *final(state) == *old(state)
            } else if old(state).witness@.len() != z_new@.len() {
                r == Err::<(), FoldError>(FoldError::WitnessMismatch) && *final(state) == *old(state)
            } else {
                &&& r is Ok
                &&& final(state).instance == old(state).instance
                &&& final(state).witness@.len() == z_new@.len()
                &&& forall|i: int|
                    0 <= i < z_new@.len() ==> #[trigger] final(state).witness@[i]@ == fadd(old(state).witness@[i]@, fmul(beta@, z_new@[i]@))
                &&& final(state).errors@.len() == instance.num_rows
                &&& forall|q: int| 0 <= q < instance.num_rows ==> #[trigger] final(state).errors@[q]@ == error_at(&instance, final(state).witness@, q)
                &&& final(state).step_count == old(state).step_count + 1
            }
        },
{
    let z_new_error = error_evals(&instance, z_new.as_slice());
    if !zero_vector(&z_new_error) {
        proof {
            let q = choose|q: int| 0 <= q < z_new_error@.len() && (#[trigger] z_new_error@[q])@ != 0;
            assert(error_at(&instance, z_new@, q) != 0);
        }
        return Err(FoldError::UnsatisfyingWitness);
    }
    proof {
        assert forall|q: int| 0 <= q < instance.num_rows implies #[trigger] error_at(&instance, z_new@, q) == 0 by {
            assert(z_new_error@[q]@ == 0);
        }
    }
    if state.step_count == 0 {
        state.instance = instance;
        state.witness = z_new;
        state.errors = z_new_error;
        state.step_count = 1;
        return Ok(());
    }
    if !same_instance(&state.instance, &instance) {
        return Err(FoldError::InstanceMismatch);
    }
    if state.witness.len() != z_new.len() {
        return Err(FoldError::WitnessMismatch);
    }
    let w = fold_witnesses(state.witness.as_slice(), z_new.as_slice(), beta);
    let e = error_evals(&instance, w.as_slice());
    state.witness = w;
    state.errors = e;
    state.step_count = state.step_count + 1;
    Ok(())
}

} // verus!
