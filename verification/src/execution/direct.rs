//! Checks of direct, zero-error CCS proofs with a verifier-pinned public
//! witness prefix: the relation's dimensions and structure, the public
//! coordinates, the shape of the round polynomials.
use crate::execution::tagged::is_pow2;
use crate::field::Goldilocks;
use crate::types::{CCSInstance, SparseMatrix, SumcheckPoly};
use vstd::prelude::*;

verus! {

/// Largest row or column count of a direct relation.
pub const MAX_DIMENSION: usize = 0x10_0000;

/// Largest number of matrices, terms or stored entries.
pub const MAX_TERMS: usize = 0x10_0000;

/// Largest product degree of a term.
pub const MAX_DEGREE: usize = 16;

/// Why a direct proof was refused.
#[derive(Clone, Copy, Debug, PartialEq, Eq, Structural)]
pub enum DirectError {
    InvalidRelation,
    InvalidPublicCoordinates,
    InvalidWitness,
    InvalidProof,
}

impl DirectError {
    /// The message that describes this error.
    pub fn message(&self) -> (s: String)
        ensures
            s@ == match self {
                DirectError::InvalidRelation => "direct execution proof: InvalidRelation"@,
                DirectError::InvalidPublicCoordinates => "direct execution proof: InvalidPublicCoordinates"@,
                DirectError::InvalidWitness => "direct execution proof: InvalidWitness"@,
                DirectError::InvalidProof => "direct execution proof: InvalidProof"@,
            },
    {
        match self {
            DirectError::InvalidRelation => String::from_str("direct execution proof: InvalidRelation"),
            DirectError::InvalidPublicCoordinates => String::from_str("direct execution proof: InvalidPublicCoordinates"),
            DirectError::InvalidWitness => String::from_str("direct execution proof: InvalidWitness"),
            DirectError::InvalidProof => String::from_str("direct execution proof: InvalidProof"),
        }
    }
}

/// The number of stored entries of the given rows.
pub open spec fn rows_entries(rows: Seq<Vec<(usize, Goldilocks)>>) -> nat
    decreases rows.len(),
{
    if rows.len() == 0 {
        0
    } else {
        rows_entries(rows.drop_last()) + rows.last()@.len()
    }
}

/// The number of stored entries of the given matrices.
pub open spec fn total_entries(ms: Seq<SparseMatrix>) -> nat
    decreases ms.len(),
{
    if ms.len() == 0 {
        0
    } else {
        total_entries(ms.drop_last()) + rows_entries(ms.last().entries@)
    }
}

/// The largest term size.
pub open spec fn max_degree(sets: Seq<Vec<usize>>) -> nat
    decreases sets.len(),
{
    if sets.len() == 0 {
        0
    } else {
        let d = max_degree(sets.drop_last());
        if sets.last()@.len() > d {
            sets.last()@.len()
        } else {
            d
        }
    }
}

/// Matrix `m` is `rows × cols`, stores every row, and reads only columns below `cols`.
pub open spec fn matrix_fits(m: SparseMatrix, rows: usize, cols: usize) -> bool {
    &&& m.rows == rows
    &&& m.cols == cols
    &&& m.entries@.len() == rows
    &&& forall|r: int, k: int| 0 <= r < rows && 0 <= k < m.entries@[r]@.len() ==> (#[trigger] m.entries@[r]@[k]).0 < cols
}

/// The relation is one a direct proof accepts.
pub open spec fn relation_valid(u: &CCSInstance) -> bool {
    let (m, n) = (u.num_rows, u.num_cols);
    &&& is_pow2(m as nat)
    &&& is_pow2(n as nat)
    &&& n >= 64
    &&& m <= MAX_DIMENSION
    &&& n <= MAX_DIMENSION
    &&& 0 < u.matrices@.len() <= MAX_TERMS
    &&& 0 < u.multisets@.len() <= MAX_TERMS
    &&& u.multisets@.len() == u.coeffs@.len()
    &&& forall|i: int| 0 <= i < u.matrices@.len() ==> matrix_fits(#[trigger] u.matrices@[i], m, n)
    &&& total_entries(u.matrices@) <= MAX_TERMS
    &&& max_degree(u.multisets@) <= MAX_DEGREE
    &&& forall|j: int, k: int|
        0 <= j < u.multisets@.len() && 0 <= k < u.multisets@[j]@.len() ==> (#[trigger] u.multisets@[j]@[k]) < u.matrices@.len()
}

/// Public coordinates are strictly increasing, above the constant column
/// 0 and below `n`.
pub open spec fn public_valid(public: Seq<(usize, Goldilocks)>, n: usize) -> bool {
    &&& forall|i: int| 0 <= i < public.len() ==> 0 < (#[trigger] public[i]).0 < n
    &&& forall|i: int, j: int| 0 <= i < j < public.len() ==> (#[trigger] public[i]).0 < (#[trigger] public[j]).0
}

/// Whether `x` is a power of two.
fn power_of_two(x: usize) -> (b: bool)
    ensures
        b == is_pow2(x as nat),
{
    let mut y = x;
    while y > 1 && y % 2 == 0
        invariant
            is_pow2(x as nat) == is_pow2(y as nat),
        decreases y,
    {
        y = y / 2;
    }
    y == 1
}

proof fn lemma_rows_entries_prefix(rows: Seq<Vec<(usize, Goldilocks)>>, k: int)
    requires
        0 <= k < rows.len(),
    ensures
        rows_entries(rows.take(k + 1)) == rows_entries(rows.take(k)) + rows[k]@.len(),
{
    assert(rows.take(k + 1).drop_last() =~= rows.take(k));
}

proof fn lemma_total_prefix(ms: Seq<SparseMatrix>, k: int)
    requires
        0 <= k < ms.len(),
    ensures
        total_entries(ms.take(k + 1)) == total_entries(ms.take(k)) + rows_entries(ms[k].entries@),
{
    assert(ms.take(k + 1).drop_last() =~= ms.take(k));
}

proof fn lemma_rows_entries_mono(rows: Seq<Vec<(usize, Goldilocks)>>, a: int, b: int)
    requires
        0 <= a <= b <= rows.len(),
    ensures
        rows_entries(rows.take(a)) <= rows_entries(rows.take(b)),
    decreases b - a,
{
    if a < b {
        lemma_rows_entries_mono(rows, a, b - 1);
        lemma_rows_entries_prefix(rows, b - 1);
    }
}

proof fn lemma_total_mono(ms: Seq<SparseMatrix>, a: int, b: int)
    requires
        0 <= a <= b <= ms.len(),
    ensures
        total_entries(ms.take(a)) <= total_entries(ms.take(b)),
    decreases b - a,
{
    if a < b {
        lemma_total_mono(ms, a, b - 1);
        lemma_total_prefix(ms, b - 1);
    }
}

proof fn lemma_max_degree_prefix(sets: Seq<Vec<usize>>, k: int)
    requires
        0 <= k < sets.len(),
    ensures
        max_degree(sets.take(k + 1)) == if sets[k]@.len() > max_degree(sets.take(k)) {
            sets[k]@.len()
        } else {
            max_degree(sets.take(k))
        },
{
    assert(sets.take(k + 1).drop_last() =~= sets.take(k));
}

/// Check the relation and the public coordinates of a direct proof: on
/// success, one more than the largest term degree (the round polynomial
/// degree of the outer sumcheck).
pub fn validate(instance: &CCSInstance, public: &[(usize, Goldilocks)]) -> (r: Result<usize, DirectError>)
    ensures
        !relation_valid(instance) ==> r == Err::<usize, DirectError>(DirectError::InvalidRelation),
        relation_valid(instance) && !public_valid(public@, instance.num_cols) ==> r == Err::<usize, DirectError>(DirectError::InvalidPublicCoordinates),
        relation_valid(instance) && public_valid(public@, instance.num_cols) ==> r == Ok::<usize, DirectError>((max_degree(instance.multisets@) + 1) as usize),
{
    let m = instance.num_rows;
    let n = instance.num_cols;
    if !power_of_two(m) || !power_of_two(n) || n < 64 || m > MAX_DIMENSION || n > MAX_DIMENSION || instance.matrices.len() == 0
        || instance.matrices.len() > MAX_TERMS || instance.multisets.len() == 0 || instance.multisets.len() > MAX_TERMS
        || instance.multisets.len() != instance.coeffs.len() {
        return Err(DirectError::InvalidRelation);
    }
    let ghost ms = instance.matrices@;
    let mut entries: usize = 0;
    let mut i: usize = 0;
    while i < instance.matrices.len()
        invariant
            ms == instance.matrices@,
            i <= ms.len(),
            m == instance.num_rows,
            n == instance.num_cols,
            entries == total_entries(ms.take(i as int)),
            entries <= MAX_TERMS,
            forall|t: int| 0 <= t < i ==> matrix_fits(#[trigger] ms[t], m, n),
        decreases ms.len() - i,
    {
        let matrix = &instance.matrices[i];
        if matrix.rows != m || matrix.cols != n || matrix.entries.len() != m {
            return Err(DirectError::InvalidRelation);
        }
        let ghost rows = matrix.entries@;
        let ghost before = entries;
        let mut r: usize = 0;
        while r < matrix.entries.len()
            invariant
                rows == matrix.entries@,
                r <= rows.len(),
                ms == instance.matrices@,
                i < ms.len(),
                *matrix == ms[i as int],
                m == instance.num_rows,
                n == instance.num_cols,
                before == total_entries(ms.take(i as int)),
                entries == before + rows_entries(rows.take(r as int)),
                entries <= MAX_TERMS,
                forall|t: int, k: int| 0 <= t < r && 0 <= k < rows[t]@.len() ==> (#[trigger] rows[t]@[k]).0 < n,
            decreases rows.len() - r,
        {
            let row = &matrix.entries[r];
            proof {
                lemma_rows_entries_prefix(rows, r as int);
            }
            if row.len() > MAX_TERMS - entries {
                proof {
                    lemma_rows_entries_mono(rows, r + 1, rows.len() as int);
                    assert(rows.take(rows.len() as int) =~= rows);
                    lemma_total_prefix(ms, i as int);
                    lemma_total_mono(ms, i + 1, ms.len() as int);
                    assert(ms.take(ms.len() as int) =~= ms);
                }
                return Err(DirectError::InvalidRelation);
            }
            entries = entries + row.len();
            let mut k: usize = 0;
            while k < row.len()
                invariant
                    k <= row@.len(),
                    *row == rows[r as int],
                    r < rows.len(),
                    rows == matrix.entries@,
                    ms == instance.matrices@,
                    i < ms.len(),
                    *matrix == ms[i as int],
                    m == instance.num_rows,
                    n == instance.num_cols,
                    forall|q: int| 0 <= q < k ==> (#[trigger] row@[q]).0 < n,
                decreases row@.len() - k,
            {
                if row[k].0 >= n {
                    proof {
                        assert(ms[i as int].entries@[r as int]@[k as int].0 >= n);
                        assert(!matrix_fits(ms[i as int], m, n));
                    }
                    return Err(DirectError::InvalidRelation);
                }
                k = k + 1;
            }
            r = r + 1;
        }
        proof {
            assert(rows.take(rows.len() as int) =~= rows);
            lemma_total_prefix(ms, i as int);
        }
        i = i + 1;
    }
    proof {
        assert(ms.take(ms.len() as int) =~= ms);
    }
    let ghost sets = instance.multisets@;
    let mut degree: usize = 0;
    let mut j: usize = 0;
    while j < instance.multisets.len()
        invariant
            sets == instance.multisets@,
            j <= sets.len(),
            degree == max_degree(sets.take(j as int)),
            degree <= MAX_TERMS,
        decreases sets.len() - j,
    {
        proof {
            lemma_max_degree_prefix(sets, j as int);
        }
        let len = instance.multisets[j].len();
        if len > degree {
            if len > MAX_DEGREE {
                proof {
                    lemma_max_degree_ge(sets, j as int);
                }
                return Err(DirectError::InvalidRelation);
            }
            degree = len;
        }
        j = j + 1;
    }
    proof {
        assert(sets.take(sets.len() as int) =~= sets);
    }
    if degree > MAX_DEGREE {
        return Err(DirectError::InvalidRelation);
    }
    let nm = instance.matrices.len();
    let mut j: usize = 0;
    while j < instance.multisets.len()
        invariant
            sets == instance.multisets@,
            j <= sets.len(),
            nm == instance.matrices@.len(),
            forall|t: int, k: int| 0 <= t < j && 0 <= k < sets[t]@.len() ==> (#[trigger] sets[t]@[k]) < nm,
        decreases sets.len() - j,
    {
        let set = &instance.multisets[j];
        let mut k: usize = 0;
        while k < set.len()
            invariant
                k <= set@.len(),
                *set == sets[j as int],
                j < sets.len(),
                sets == instance.multisets@,
                nm == instance.matrices@.len(),
                forall|q: int| 0 <= q < k ==> (#[trigger] set@[q]) < nm,
            decreases set@.len() - k,
        {
            if set[k] >= nm {
                proof {
                    assert(instance.multisets@[j as int]@[k as int] >= nm);
                }
                return Err(DirectError::InvalidRelation);
            }
            k = k + 1;
        }
        j = j + 1;
    }
    let mut previous: usize = 0;
    let mut p: usize = 0;
    while p < public.len()
        invariant
            p <= public@.len(),
            n == instance.num_cols,
            relation_valid(instance),
            p == 0 ==> previous == 0,
            p > 0 ==> previous == public@[p - 1].0,
            forall|a: int| 0 <= a < p ==> 0 < (#[trigger] public@[a]).0 < n,
            forall|a: int, b: int| 0 <= a < b < p ==> (#[trigger] public@[a]).0 < (#[trigger] public@[b]).0,
        decreases public@.len() - p,
    {
        let index = public[p].0;
        if index <= previous || index >= n {
            return Err(DirectError::InvalidPublicCoordinates);
        }
        proof {
            assert forall|a: int, b: int| 0 <= a < b < p + 1 implies (#[trigger] public@[a]).0 < (#[trigger] public@[b]).0 by {
                if b == p && a < p - 1 {
                    assert(public@[a].0 < public@[p - 1].0);
                }
            }
        }
        previous = index;
        p = p + 1;
    }
    Ok(degree + 1)
}

proof fn lemma_max_degree_ge(sets: Seq<Vec<usize>>, j: int)
    requires
        0 <= j < sets.len(),
    ensures
        max_degree(sets) >= sets[j]@.len(),
    decreases sets.len(),
{
    if j < sets.len() - 1 {
        lemma_max_degree_ge(sets.drop_last(), j);
    }
}

/// The public coordinates with the mandatory constant z[0] = 1 in front.
pub fn coordinates(public: &[(usize, Goldilocks)]) -> (c: Vec<(usize, Goldilocks)>)
    ensures
        c@.len() == public@.len() + 1,
        c@[0].0 == 0 && c@[0].1@ == 1,
        forall|i: int| 0 <= i < public@.len() ==> #[trigger] c@[i + 1] == public@[i],
{
    let mut c: Vec<(usize, Goldilocks)> = Vec::new();
    c.push((0, Goldilocks::one()));
    let mut i: usize = 0;
    while i < public.len()
        invariant
            i <= public@.len(),
            c@.len() == i + 1,
            c@[0].0 == 0 && c@[0].1@ == 1,
            forall|k: int| 0 <= k < i ==> #[trigger] c@[k + 1] == public@[k],
        decreases public@.len() - i,
    {
        c.push(public[i]);
        i = i + 1;
    }
    c
}

/// `rounds` round polynomials, each of the given degree with one more coefficient.
pub fn valid_polynomials(polys: &[SumcheckPoly], rounds: usize, degree: usize) -> (b: bool)
    ensures
        b == (polys@.len() == rounds && forall|i: int|
            0 <= i < polys@.len() ==> (#[trigger] polys@[i]).degree as int == degree && polys@[i].coeffs@.len() == degree + 1),
{
    if polys.len() != rounds {
        return false;
    }
    let mut i: usize = 0;
    while i < polys.len()
        invariant
            i <= polys@.len(),
            forall|k: int| 0 <= k < i ==> (#[trigger] polys@[k]).degree as int == degree && polys@[k].coeffs@.len() == degree + 1,
        decreases polys@.len() - i,
    {
        if polys[i].degree as usize != degree || polys[i].coeffs.len() != degree + 1 {
            return false;
        }
        i = i + 1;
    }
    true
}

} // verus!
