//! Core types: sparse matrices, CCS instances and witnesses, sumcheck round
//! polynomials, statements, parameters and error kinds.
use crate::field::{fadd, fmul, modulus, Goldilocks};
use vstd::prelude::*;

verus! {

// ── linear algebra over F_p ─────────────────────────────────────────────────

/// `z[j]` when `j` is in range, zero otherwise.
pub open spec fn zval(z: Seq<Goldilocks>, j: int) -> nat {
    if 0 <= j < z.len() {
        z[j]@
    } else {
        0
    }
}

/// Σ c · z[col] over a sparse row, accumulated left to right in F_p.
pub open spec fn row_dot(row: Seq<(usize, Goldilocks)>, z: Seq<Goldilocks>) -> nat
    decreases row.len(),
{
    if row.len() == 0 {
        0
    } else {
        fadd(row_dot(row.drop_last(), z), fmul(row.last().1@, zval(z, row.last().0 as int)))
    }
}

/// A vector of `n` zeros.
pub fn zeros(n: usize) -> (v: Vec<Goldilocks>)
    ensures
        v@.len() == n,
        forall|i: int| 0 <= i < n ==> #[trigger] v@[i]@ == 0,
{
    let mut v: Vec<Goldilocks> = Vec::new();
    while v.len() < n
        invariant
            v@.len() <= n,
            forall|i: int| 0 <= i < v@.len() ==> #[trigger] v@[i]@ == 0,
        decreases n - v@.len(),
    {
        v.push(Goldilocks::zero());
    }
    v
}

/// A vector of `n` ones.
pub fn ones(n: usize) -> (v: Vec<Goldilocks>)
    ensures
        v@.len() == n,
        forall|i: int| 0 <= i < n ==> #[trigger] v@[i]@ == 1,
{
    let mut v: Vec<Goldilocks> = Vec::new();
    while v.len() < n
        invariant
            v@.len() <= n,
            forall|i: int| 0 <= i < v@.len() ==> #[trigger] v@[i]@ == 1,
        decreases n - v@.len(),
    {
        v.push(Goldilocks::one());
    }
    v
}

/// A sparse matrix over Goldilocks in compressed sparse row format.
#[derive(Clone, Debug)]
pub struct SparseMatrix {
    pub rows: usize,
    pub cols: usize,
    /// `entries[i]` = the (column, coefficient) pairs of row `i`.
    pub entries: Vec<Vec<(usize, Goldilocks)>>,
}

impl SparseMatrix {
    /// No more stored rows than declared rows.
    pub open spec fn wf(&self) -> bool {
        self.entries@.len() <= self.rows
    }

    /// The sparse row `r` as a sequence.
    pub open spec fn row(&self, r: int) -> Seq<(usize, Goldilocks)> {
        self.entries@[r]@
    }

    /// Entry `r` of `M · z`: the row dot product, zero for an unstored row.
    pub open spec fn apply(&self, z: Seq<Goldilocks>, r: int) -> nat {
        if 0 <= r < self.entries@.len() {
            row_dot(self.row(r), z)
        } else {
            0
        }
    }

    /// An empty `rows × cols` matrix.
    pub fn new(rows: usize, cols: usize) -> (m: SparseMatrix)
        ensures
            m.rows == rows,
            m.cols == cols,
            m.entries@.len() == rows,
            forall|r: int| 0 <= r < rows ==> (#[trigger] m.entries@[r])@.len() == 0,
    {
        let mut entries: Vec<Vec<(usize, Goldilocks)>> = Vec::new();
        while entries.len() < rows
            invariant
                entries@.len() <= rows,
                forall|r: int| 0 <= r < entries@.len() ==> (#[trigger] entries@[r])@.len() == 0,
            decreases rows - entries@.len(),
        {
            entries.push(Vec::new());
        }
        SparseMatrix { rows, cols, entries }
    }

    /// Append the entry `(col, val)` to row `row`.
    pub fn set(&mut self, row: usize, col: usize, val: Goldilocks)
        requires
            row < old(self).entries@.len(),
        ensures
            final(self).rows == old(self).rows,
            final(self).cols == old(self).cols,
            final(self).entries@.len() == old(self).entries@.len(),
            final(self).row(row as int) == old(self).row(row as int).push((col, val)),
            forall|r: int|
                0 <= r < old(self).entries@.len() && r != row ==> #[trigger] final(self).entries@[r]
                    == old(self).entries@[r],
    {
        self.entries[row].push((col, val));
    }

    /// `M · z` as a dense vector of length `rows`; columns past the end of
    /// `z` contribute zero.
    pub fn mul_vec(&self, z: &Vec<Goldilocks>) -> (out: Vec<Goldilocks>)
        requires
            self.wf(),
        ensures
            out@.len() == self.rows,
            forall|r: int| 0 <= r < self.rows ==> #[trigger] out@[r]@ == self.apply(z@, r),
    {
        let mut out = zeros(self.rows);
        let n = self.entries.len();
        let mut i: usize = 0;
        while i < n
            invariant
                n == self.entries@.len(),
                n <= self.rows,
                i <= n,
                out@.len() == self.rows,
                forall|r: int| 0 <= r < i ==> #[trigger] out@[r]@ == self.apply(z@, r),
                forall|r: int| i <= r < self.rows ==> #[trigger] out@[r]@ == 0,
            decreases n - i,
        {
            let row = &self.entries[i];
            let mut acc = Goldilocks::zero();
            let mut k: usize = 0;
            while k < row.len()
                invariant
                    k <= row@.len(),
                    acc@ == row_dot(row@.take(k as int), z@),
                decreases row@.len() - k,
            {
                let (j, c) = row[k];
                let zj = if j < z.len() {
                    z[j]
                } else {
                    Goldilocks::zero()
                };
                acc = acc.add(c.mul(zj));
                proof {
                    assert(row@.take(k + 1).drop_last() == row@.take(k as int));
                }
                k = k + 1;
            }
            proof {
                assert(row@.take(row@.len() as int) == row@);
            }
            out.set(i, acc);
            i = i + 1;
        }
        out
    }
}

/// A CCS instance: the relation Σ_j c_j · ∏_{i ∈ S_j} (M_i · z) = 0.
#[derive(Clone, Debug)]
pub struct CCSInstance {
    /// M_1, …, M_t — constraint matrices.
    pub matrices: Vec<SparseMatrix>,
    /// S_1, …, S_q — index sets into `matrices` (Hadamard product groups).
    pub multisets: Vec<Vec<usize>>,
    /// c_1, …, c_q — linear combination coefficients.
    pub coeffs: Vec<Goldilocks>,
    /// m — rows per matrix.
    pub num_rows: usize,
    /// n — witness length.
    pub num_cols: usize,
}

/// A CCS witness vector z.
#[derive(Clone, Debug)]
pub struct CCSWitness {
    pub z: Vec<Goldilocks>,
}

impl CCSInstance {
    /// Number of product terms that take part (terms pair up with coefficients).
    pub open spec fn num_terms(&self) -> nat {
        if self.multisets@.len() <= self.coeffs@.len() {
            self.multisets@.len()
        } else {
            self.coeffs@.len()
        }
    }

    /// The index set of term `j`.
    pub open spec fn term_set(&self, j: int) -> Seq<usize> {
        self.multisets@[j]@
    }

    /// Every matrix is well formed and every used term names existing matrices.
    pub open spec fn wf(&self) -> bool {
        &&& forall|i: int| 0 <= i < self.matrices@.len() ==> (#[trigger] self.matrices@[i]).wf()
        &&& forall|j: int, k: int|
            0 <= j < self.num_terms() && 0 <= k < self.term_set(j).len() ==> (#[trigger] self.term_set(
                j,
            )[k]) < self.matrices@.len()
    }

    /// The factor that matrix `idx` contributes to row `r`: its product
    /// entry where the matrix has that row, one otherwise.
    pub open spec fn factor(&self, idx: int, z: Seq<Goldilocks>, r: int) -> nat {
        if r < self.matrices@[idx].rows {
            self.matrices@[idx].apply(z, r)
        } else {
            1
        }
    }

    /// ∏ over the first `k` indices of set `s`, at row `r`.
    pub open spec fn product(&self, s: Seq<usize>, k: nat, z: Seq<Goldilocks>, r: int) -> nat
        decreases k,
    {
        if k == 0 {
            1
        } else {
            fmul(self.product(s, (k - 1) as nat, z, r), self.factor(s[k - 1] as int, z, r))
        }
    }

    /// Σ over the first `n` terms of c_j · ∏_{i ∈ S_j}, at row `r`.
    pub open spec fn partial_sum(&self, n: nat, z: Seq<Goldilocks>, r: int) -> nat
        decreases n,
    {
        if n == 0 {
            0
        } else {
            let j = n - 1;
            let s = self.term_set(j);
            fadd(
                self.partial_sum((n - 1) as nat, z, r),
                fmul(self.coeffs@[j]@, self.product(s, s.len(), z, r)),
            )
        }
    }

    /// A factor of one leaves the running product unchanged.
    pub proof fn lemma_product_unit_factor(&self, s: Seq<usize>, k: nat, z: Seq<Goldilocks>, r: int)
        requires
            k < s.len(),
            r >= self.matrices@[s[k as int] as int].rows,
        ensures
            self.product(s, k + 1, z, r) == self.product(s, k, z, r),
    {
        let q = self.product(s, k, z, r);
        if k > 0 {
            assert(q == fmul(self.product(s, (k - 1) as nat, z, r), self.factor(s[k - 1] as int, z, r)));
        }
        assert(q < modulus());
        vstd::arithmetic::div_mod::lemma_small_mod(q, modulus());
        assert(self.factor(s[k as int] as int, z, r) == 1);
        assert(self.product(s, k + 1, z, r) == fmul(q, self.factor(s[k as int] as int, z, r)));
        assert(q * 1 == q);
    }

    /// Row `r` of the CCS relation at witness `z`.
    pub open spec fn row_value(&self, z: Seq<Goldilocks>, r: int) -> nat {
        self.partial_sum(self.num_terms(), z, r)
    }

    /// `z` satisfies every row of the relation.
    pub open spec fn satisfied(&self, z: Seq<Goldilocks>) -> bool {
        forall|r: int| 0 <= r < self.num_rows ==> #[trigger] self.row_value(z, r) == 0
    }

    /// Check whether a witness satisfies this instance.
    pub fn is_satisfied_by(&self, witness: &CCSWitness) -> (ok: bool)
        requires
            self.wf(),
        ensures
            ok == self.satisfied(witness.z@),
    {
        let sum = self.evaluate(&witness.z);
        let mut r: usize = 0;
        while r < sum.len()
            invariant
                sum@.len() == self.num_rows,
                r <= sum@.len(),
                forall|i: int| 0 <= i < r ==> #[trigger] self.row_value(witness.z@, i) == 0,
                forall|i: int| 0 <= i < self.num_rows ==> #[trigger] sum@[i]@ == self.row_value(witness.z@, i),
            decreases sum@.len() - r,
        {
            if !sum[r].is_zero() {
                proof {
                    assert(self.row_value(witness.z@, r as int) != 0);
                }
                return false;
            }
            r = r + 1;
        }
        true
    }

    /// The per-row values of the relation at `z`.
    pub fn evaluate(&self, z: &Vec<Goldilocks>) -> (sum: Vec<Goldilocks>)
        requires
            self.wf(),
        ensures
            sum@.len() == self.num_rows,
            forall|r: int| 0 <= r < self.num_rows ==> #[trigger] sum@[r]@ == self.row_value(z@, r),
    {
        let m = self.num_rows;
        let mut sum = zeros(m);
        let nt = if self.multisets.len() <= self.coeffs.len() {
            self.multisets.len()
        } else {
            self.coeffs.len()
        };
        let mut j: usize = 0;
        while j < nt
            invariant
                self.wf(),
                m == self.num_rows,
                nt == self.num_terms(),
                j <= nt,
                sum@.len() == m,
                forall|r: int| 0 <= r < m ==> #[trigger] sum@[r]@ == self.partial_sum(j as nat, z@, r),
            decreases nt - j,
        {
            let set = &self.multisets[j];
            let mut product = ones(m);
            let mut k: usize = 0;
            while k < set.len()
                invariant
                    self.wf(),
                    m == self.num_rows,
                    j < self.num_terms(),
                    set@ == self.term_set(j as int),
                    k <= set@.len(),
                    product@.len() == m,
                    forall|r: int| 0 <= r < m ==> #[trigger] product@[r]@ == self.product(set@, k as nat, z@, r),
                decreases set@.len() - k,
            {
                let idx = set[k];
                let mat = &self.matrices[idx];
                let mv = mat.mul_vec(z);
                let lim = if m <= mv.len() {
                    m
                } else {
                    mv.len()
                };
                let mut r: usize = 0;
                while r < lim
                    invariant
                        lim <= m,
                        lim <= mv@.len(),
                        mv@.len() == mat.rows,
                        lim == m || lim == mat.rows,
                        r <= lim,
                        product@.len() == m,
                        mat == self.matrices@[idx as int],
                        k < set@.len(),
                        set@[k as int] == idx,
                        forall|i: int| 0 <= i < mat.rows ==> #[trigger] mv@[i]@ == mat.apply(z@, i),
                        forall|i: int| 0 <= i < r ==> #[trigger] product@[i]@ == self.product(set@, (k + 1) as nat, z@, i),
                        forall|i: int| r <= i < m ==> #[trigger] product@[i]@ == self.product(set@, k as nat, z@, i),
                    decreases lim - r,
                {
                    let p = product[r].mul(mv[r]);
                    proof {
                        assert(self.product(set@, (k + 1) as nat, z@, r as int) == fmul(
                            self.product(set@, k as nat, z@, r as int),
                            self.factor(idx as int, z@, r as int),
                        ));
                    }
                    product.set(r, p);
                    r = r + 1;
                }
                proof {
                    assert forall|i: int| lim <= i < m implies #[trigger] product@[i]@ == self.product(set@, (k + 1) as nat, z@, i) by {
                        assert(i >= mat.rows);
                        self.lemma_product_unit_factor(set@, k as nat, z@, i);
                    }
                }
                k = k + 1;
            }
            let c = self.coeffs[j];
            let mut r: usize = 0;
            while r < m
                invariant
                    m == self.num_rows,
                    r <= m,
                    sum@.len() == m,
                    product@.len() == m,
                    j < self.num_terms(),
                    set@ == self.term_set(j as int),
                    c == self.coeffs@[j as int],
                    forall|i: int| 0 <= i < m ==> #[trigger] product@[i]@ == self.product(set@, set@.len(), z@, i),
                    forall|i: int| 0 <= i < r ==> #[trigger] sum@[i]@ == self.partial_sum((j + 1) as nat, z@, i),
                    forall|i: int| r <= i < m ==> #[trigger] sum@[i]@ == self.partial_sum(j as nat, z@, i),
                decreases m - r,
            {
                let s = sum[r].add(c.mul(product[r]));
                proof {
                    assert(self.partial_sum((j + 1) as nat, z@, r as int) == fadd(
                        self.partial_sum(j as nat, z@, r as int),
                        fmul(self.coeffs@[j as int]@, self.product(set@, set@.len(), z@, r as int)),
                    ));
                }
                sum.set(r, s);
                r = r + 1;
            }
            j = j + 1;
        }
        sum
    }
}


// ── sumcheck ────────────────────────────────────────────────────────────────

/// One round polynomial g_i of a sumcheck transcript, coefficients
/// ascending: g_i(X) = c_0 + c_1·X + … + c_d·X^d.
#[derive(Clone, Debug)]
pub struct SumcheckPoly {
    pub degree: u8,
    pub coeffs: Vec<Goldilocks>,
}

/// Σ c_k · x^k by Horner's rule, in F_p.
pub open spec fn horner(c: Seq<nat>, x: nat) -> nat
    decreases c.len(),
{
    if c.len() == 0 {
        0
    } else {
        fadd(fmul(horner(c.drop_first(), x), x), c[0])
    }
}

/// Σ c_k in F_p, left to right.
pub open spec fn coeff_sum(c: Seq<nat>) -> nat
    decreases c.len(),
{
    if c.len() == 0 {
        0
    } else {
        fadd(coeff_sum(c.drop_last()), c.last())
    }
}

/// The canonical integers of field elements.
pub open spec fn field_nats(s: Seq<Goldilocks>) -> Seq<nat> {
    s.map_values(|g: Goldilocks| g@)
}

impl SumcheckPoly {
    /// g(x).
    pub fn eval(&self, x: Goldilocks) -> (r: Goldilocks)
        ensures
            r@ == horner(field_nats(self.coeffs@), x@),
    {
        let ghost c = field_nats(self.coeffs@);
        let mut r = Goldilocks::zero();
        let mut i: usize = self.coeffs.len();
        while i > 0
            invariant
                i <= self.coeffs@.len(),
                c == field_nats(self.coeffs@),
                r@ == horner(c.subrange(i as int, c.len() as int), x@),
            decreases i,
        {
            i = i - 1;
            r = r.mul(x).add(self.coeffs[i]);
            proof {
                let s = c.subrange(i as int, c.len() as int);
                assert(s.drop_first() =~= c.subrange(i + 1, c.len() as int));
                assert(s[0] == self.coeffs@[i as int]@);
            }
        }
        assert(c.subrange(0, c.len() as int) =~= c);
        r
    }

    /// g(0): the constant coefficient, zero for the empty polynomial.
    pub fn eval_0(&self) -> (r: Goldilocks)
        ensures
            r@ == (if self.coeffs@.len() == 0 { 0 } else { self.coeffs@[0]@ }),
    {
        if self.coeffs.len() == 0 {
            Goldilocks::zero()
        } else {
            self.coeffs[0]
        }
    }

    /// g(1): the sum of the coefficients.
    pub fn eval_1(&self) -> (r: Goldilocks)
        ensures
            r@ == coeff_sum(field_nats(self.coeffs@)),
    {
        let ghost c = field_nats(self.coeffs@);
        let mut acc = Goldilocks::zero();
        let mut i: usize = 0;
        while i < self.coeffs.len()
            invariant
                i <= self.coeffs@.len(),
                c == field_nats(self.coeffs@),
                acc@ == coeff_sum(c.subrange(0, i as int)),
            decreases self.coeffs@.len() - i,
        {
            acc = acc.add(self.coeffs[i]);
            proof {
                let s = c.subrange(0, i + 1);
                assert(s.drop_last() =~= c.subrange(0, i as int));
                assert(s.last() == self.coeffs@[i as int]@);
            }
            i = i + 1;
        }
        assert(c.subrange(0, c.len() as int) =~= c);
        acc
    }
}


/// Σ c, first element first.
pub open spec fn sum_first(c: Seq<nat>) -> int
    decreases c.len(),
{
    if c.len() == 0 {
        0
    } else {
        c[0] + sum_first(c.drop_first())
    }
}

/// Σ c, last element last.
pub open spec fn sum_last(c: Seq<nat>) -> int
    decreases c.len(),
{
    if c.len() == 0 {
        0
    } else {
        sum_last(c.drop_last()) + c.last()
    }
}

proof fn lemma_sums_agree(c: Seq<nat>)
    ensures
        sum_first(c) == sum_last(c),
    decreases c.len(),
{
    if c.len() > 1 {
        lemma_sums_agree(c.drop_first());
        lemma_sums_agree(c.drop_last());
        let d = c.drop_first();
        let l = c.drop_last();
        let m = d.drop_last();
        lemma_sums_agree(m);
        assert(l.drop_first() =~= m);
        assert(d.last() == c.last());
        assert(l[0] == c[0]);
        assert(sum_last(d) == sum_last(m) + d.last());
        assert(sum_first(l) == l[0] + sum_first(l.drop_first()));
        assert(sum_first(c) == c[0] + sum_first(d));
        assert(sum_last(c) == sum_last(l) + c.last());
        assert(sum_first(d) == sum_last(d));
        assert(sum_first(l) == sum_last(l));
        assert(sum_first(m) == sum_last(m));
        assert(sum_first(l.drop_first()) == sum_first(m));
        assert(sum_first(c) == c[0] + sum_last(m) + c.last());
        assert(sum_last(c) == c[0] + sum_first(m) + c.last());
    } else if c.len() == 1 {
        assert(c.drop_first().len() == 0);
        assert(c.drop_last().len() == 0);
        assert(sum_first(c.drop_first()) == 0);
        assert(sum_last(c.drop_last()) == 0);
        assert(c.last() == c[0]);
        assert(sum_first(c) == c[0]);
        assert(sum_last(c) == c[0]);
    }
}

proof fn lemma_horner_one(c: Seq<nat>)
    ensures
        horner(c, 1) == sum_first(c) % (modulus() as int),
    decreases c.len(),
{
    if c.len() > 0 {
        lemma_horner_one(c.drop_first());
        let h = horner(c.drop_first(), 1);
        assert(h * 1 == h);
        vstd::arithmetic::div_mod::lemma_small_mod(h, modulus());
        vstd::arithmetic::div_mod::lemma_mod_twice(sum_first(c.drop_first()), modulus() as int);
        vstd::arithmetic::div_mod::lemma_add_mod_noop_right(c[0] as int, sum_first(c.drop_first()), modulus() as int);
    }
}

proof fn lemma_coeff_sum_mod(c: Seq<nat>)
    ensures
        coeff_sum(c) == sum_last(c) % (modulus() as int),
    decreases c.len(),
{
    if c.len() > 0 {
        lemma_coeff_sum_mod(c.drop_last());
        vstd::arithmetic::div_mod::lemma_add_mod_noop(sum_last(c.drop_last()), c.last() as int, modulus() as int);
        vstd::arithmetic::div_mod::lemma_mod_twice(c.last() as int, modulus() as int);
        vstd::arithmetic::div_mod::lemma_mod_twice(sum_last(c.drop_last()), modulus() as int);
    }
}

/// A round polynomial with canonical coefficients takes at 0 its constant
/// coefficient and at 1 the sum of its coefficients: `eval(0)` is what
/// `eval_0` returns and `eval(1)` what `eval_1` returns.
pub proof fn lemma_round_poly_ends(c: Seq<nat>)
    requires
        forall|i: int| 0 <= i < c.len() ==> #[trigger] c[i] < modulus(),
    ensures
        horner(c, 0) == (if c.len() == 0 { 0 } else { c[0] }),
        horner(c, 1) == coeff_sum(c),
{
    if c.len() > 0 {
        let h = horner(c.drop_first(), 0);
        assert(h * 0 == 0);
        vstd::arithmetic::div_mod::lemma_small_mod(0, modulus());
        vstd::arithmetic::div_mod::lemma_small_mod(c[0], modulus());
    }
    lemma_horner_one(c);
    lemma_coeff_sum_mod(c);
    lemma_sums_agree(c);
}

// ── statements and parameters ───────────────────────────────────────────────

/// The public statement a proof attests to.
#[derive(Clone, Debug, PartialEq, Eq)]
pub struct Statement {
    /// Hash of the nox program.
    pub program_hash: [u8; 32],
    /// Hash of the public inputs.
    pub input_hash: [u8; 32],
    /// Hash of the public outputs.
    pub output_hash: [u8; 32],
    /// Maximum focus consumed by the execution.
    pub focus_bound: u64,
    /// State root read by look rows, four little-endian limbs; all zero
    /// when the program reads no state.
    pub bbg_root: [u8; 32],
}

/// Security level of the proximity test.
#[derive(Clone, Copy, Debug, PartialEq, Eq, Structural)]
pub enum SecurityLevel {
    Sec100,
    Sec128,
}

impl SecurityLevel {
    /// The number of proximity query repetitions (λ).
    pub fn lambda(self) -> (r: usize)
        ensures
            r == (match self {
                SecurityLevel::Sec100 => 100usize,
                SecurityLevel::Sec128 => 128usize,
            }),
    {
        match self {
            SecurityLevel::Sec100 => 100,
            SecurityLevel::Sec128 => 128,
        }
    }
}

/// The polynomial commitment backend.
#[derive(Clone, Copy, Debug, PartialEq, Eq, Structural)]
pub enum LensBackend {
    /// Expander-graph codes over Goldilocks (the default).
    Brakedown,
    /// Binary Reed–Solomon codes over F₂.
    Binius,
}

/// Prover and verifier configuration.
#[derive(Clone, Copy, Debug)]
pub struct ProofParams {
    pub security: SecurityLevel,
    pub lens: LensBackend,
    /// log₂ of the maximal number of trace rows.
    pub max_trace_log: u32,
}

impl Default for ProofParams {
    fn default() -> (r: Self)
        ensures
            r.security == SecurityLevel::Sec128,
            r.lens == LensBackend::Brakedown,
            r.max_trace_log == 20,
    {
        ProofParams { security: SecurityLevel::Sec128, lens: LensBackend::Brakedown, max_trace_log: 20 }
    }
}

// ── errors ──────────────────────────────────────────────────────────────────

/// Why an opening failed.
#[derive(Debug)]
pub enum OpenError {
    InvalidPoint,
    LensFailed,
}

/// Why a proof was rejected.
#[derive(Debug)]
pub enum VerifyError {
    SumcheckFailed { round: usize },
    EvaluationMismatch,
    LensFailed,
    /// A degree-1 group carries a non-zero error term.
    LinearErrorNonzero,
    /// A group's error vector does not have its instance's row count.
    GroupLayout,
}

/// Why a commitment to a trace was refused.
#[derive(Debug)]
pub enum CommitError {
    /// The nox execution itself failed.
    ExecutionFailed,
    FocusExhausted,
    TraceOverflow,
    /// Statement input_hash, output_hash, or focus_bound does not match the trace.
    StatementMismatch,
    /// A look opening does not bind to the trace.
    LookBinding,
    /// A hash block does not bind to the trace: the block is not 25 rows,
    /// or a replayed sponge state / round index / digest diverges from the
    /// recorded rows.
    HashBinding,
    /// An axis opening does not bind to the trace.
    AxisBinding,
    /// Trace pair `t` (rows t, t+1) does not satisfy the universal step instance.
    StepUnsatisfied(usize),
    DecideFailed(DecideError),
    /// Recursive axis or look openings are refused until their transcripts
    /// are constrained.
    UnsupportedRecursiveOpening,
}

/// Why a fold was refused.
#[derive(Debug)]
pub enum FoldError {
    InstanceMismatch,
    WitnessMismatch,
    /// The incoming witness does not satisfy the instance.
    UnsatisfyingWitness,
}

/// Why a decision failed.
#[derive(Debug)]
pub enum DecideError {
    EmptyAccumulator,
    SumcheckFailed { round: usize },
    LensFailed,
}

} // verus!
