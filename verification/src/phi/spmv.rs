//! Sparse matrix-vector multiply as multi-row linear CCS.
//!
//! Public: adjacency edges (i, j, w) meaning y[i] += w · x[j].
//! Witness: x[0..n), y[0..n).
//! Constraint row r:  (Σ_j A[r,j] · x[j]) − y[r] = 0.
//!
//! Encoded as a single matrix M with M·z = 0, z = [x ‖ y], num_rows = n
//! (padded to a power of two for the outer sumcheck).
use crate::execution::statement::{le_bytes, push_le};
use crate::execution::tagged::is_pow2;
use crate::field::{fadd, fmul, modulus, Goldilocks};
use crate::types::{field_nats, row_dot, zval, CCSInstance, CCSWitness, SparseMatrix, Statement};
use vstd::prelude::*;
use vstd::string::StringSliceAdditionalSpecFns;

verus! {

/// Directed weighted edges: edge (row, col, w) adds `w · x[col]` into `y[row]`.
#[derive(Clone, Debug)]
pub struct SparseGraph {
    pub n: usize,
    pub edges: Vec<(usize, usize, Goldilocks)>,
}

impl SparseGraph {
    /// Every edge joins two of the `n` nodes.
    pub open spec fn wf(&self) -> bool {
        forall|k: int| 0 <= k < self.edges@.len() ==> (#[trigger] self.edges@[k]).0 < self.n && self.edges@[k].1 < self.n
    }

    /// The graph on `n` nodes without edges.
    pub fn empty(n: usize) -> (g: SparseGraph)
        ensures
            g.n == n,
            g.edges@.len() == 0,
            g.wf(),
    {
        SparseGraph { n, edges: Vec::new() }
    }

    /// Add the edge (row, col, w).
    pub fn add(&mut self, row: usize, col: usize, w: Goldilocks)
        requires
            row < old(self).n,
            col < old(self).n,
        ensures
            final(self).n == old(self).n,
            final(self).edges@ == old(self).edges@.push((row, col, w)),
            old(self).wf() ==> final(self).wf(),
    {
        self.edges.push((row, col, w));
    }

    /// The bytes the graph commitment hashes: n, then each edge's row,
    /// column and weight, all as 8 little-endian bytes.
    pub fn commitment_bytes(&self) -> (b: Vec<u8>)
        ensures
            b@ == le_bytes(self.n as u64) + edges_bytes(self.edges@),
    {
        let mut buf: Vec<u8> = Vec::new();
        push_le(&mut buf, self.n as u64);
        let mut k: usize = 0;
        while k < self.edges.len()
            invariant
                k <= self.edges@.len(),
                buf@ == le_bytes(self.n as u64) + edges_bytes(self.edges@.take(k as int)),
            decreases self.edges@.len() - k,
        {
            let (r, c, w) = self.edges[k];
            push_le(&mut buf, r as u64);
            push_le(&mut buf, c as u64);
            push_le(&mut buf, w.as_u64());
            proof {
                let e = self.edges@;
                assert(e.take(k + 1).drop_last() =~= e.take(k as int));
            }
            k = k + 1;
        }
        proof {
            assert(self.edges@.take(self.edges@.len() as int) =~= self.edges@);
        }
        buf
    }
}

/// The bytes of a list of edges.
pub open spec fn edges_bytes(e: Seq<(usize, usize, Goldilocks)>) -> Seq<u8>
    decreases e.len(),
{
    if e.len() == 0 {
        seq![]
    } else {
        let (r, c, w) = e.last();
        edges_bytes(e.drop_last()) + le_bytes(r as u64) + le_bytes(c as u64) + le_bytes(w@ as u64)
    }
}

/// The elements' bytes following the length.
pub open spec fn elems_bytes(v: Seq<Goldilocks>) -> Seq<u8>
    decreases v.len(),
{
    if v.len() == 0 {
        seq![]
    } else {
        elems_bytes(v.drop_last()) + le_bytes(v.last()@ as u64)
    }
}

/// The bytes a vector hash hashes: 8 little-endian bytes of the length,
/// then 8 of each element.
pub fn vec_bytes(v: &[Goldilocks]) -> (b: Vec<u8>)
    ensures
        b@ == le_bytes(v@.len() as u64) + elems_bytes(v@),
{
    let mut buf: Vec<u8> = Vec::new();
    push_le(&mut buf, v.len() as u64);
    let mut k: usize = 0;
    while k < v.len()
        invariant
            k <= v@.len(),
            buf@ == le_bytes(v@.len() as u64) + elems_bytes(v@.take(k as int)),
        decreases v@.len() - k,
    {
        push_le(&mut buf, v[k].as_u64());
        proof {
            assert(v@.take(k + 1).drop_last() =~= v@.take(k as int));
        }
        k = k + 1;
    }
    proof {
        assert(v@.take(v@.len() as int) =~= v@);
    }
    buf
}

/// y after the first `k` edges: each edge adds w · x[col] into y[row], in F_p.
pub open spec fn spmv_acc(edges: Seq<(usize, usize, Goldilocks)>, x: Seq<nat>, n: nat, k: nat) -> Seq<nat>
    decreases k,
{
    if k == 0 {
        Seq::new(n, |i: int| 0nat)
    } else {
        let prev = spmv_acc(edges, x, n, (k - 1) as nat);
        let (r, c, w) = edges[k - 1];
        prev.update(r as int, fadd(prev[r as int], fmul(w@, x[c as int])))
    }
}

/// A · x for the graph's edges, in F_p.
pub open spec fn spmv_spec(g: SparseGraph, x: Seq<nat>) -> Seq<nat> {
    spmv_acc(g.edges@, x, g.n as nat, g.edges@.len())
}

proof fn lemma_spmv_acc_len(edges: Seq<(usize, usize, Goldilocks)>, x: Seq<nat>, n: nat, k: nat)
    requires
        k <= edges.len(),
        forall|t: int| 0 <= t < edges.len() ==> (#[trigger] edges[t]).0 < n,
    ensures
        spmv_acc(edges, x, n, k).len() == n,
    decreases k,
{
    if k > 0 {
        lemma_spmv_acc_len(edges, x, n, (k - 1) as nat);
    }
}

/// Every entry of A · x is a canonical field element, and there are `n` of them.
pub proof fn lemma_spmv_canonical(g: SparseGraph, x: Seq<nat>)
    requires
        g.wf(),
    ensures
        spmv_spec(g, x).len() == g.n,
        forall|i: int| 0 <= i < g.n ==> #[trigger] spmv_spec(g, x)[i] < crate::field::modulus(),
{
    lemma_spmv_acc_canonical(g.edges@, x, g.n as nat, g.edges@.len());
}

proof fn lemma_spmv_acc_canonical(edges: Seq<(usize, usize, Goldilocks)>, x: Seq<nat>, n: nat, k: nat)
    requires
        k <= edges.len(),
        forall|t: int| 0 <= t < edges.len() ==> (#[trigger] edges[t]).0 < n,
    ensures
        spmv_acc(edges, x, n, k).len() == n,
        forall|i: int| 0 <= i < n ==> #[trigger] spmv_acc(edges, x, n, k)[i] < crate::field::modulus(),
    decreases k,
{
    if k > 0 {
        lemma_spmv_acc_canonical(edges, x, n, (k - 1) as nat);
        assert(edges[k - 1].0 < n);
    }
}

/// Host-side SpMV: y = A · x.
pub fn spmv_native(graph: &SparseGraph, x: &[Goldilocks]) -> (y: Vec<Goldilocks>)
    requires
        x@.len() == graph.n,
        graph.wf(),
    ensures
        field_nats(y@) == spmv_spec(*graph, field_nats(x@)),
        y@.len() == graph.n,
{
    let ghost xs = field_nats(x@);
    let mut y = crate::types::zeros(graph.n);
    let mut k: usize = 0;
    while k < graph.edges.len()
        invariant
            k <= graph.edges@.len(),
            graph.wf(),
            x@.len() == graph.n,
            xs == field_nats(x@),
            y@.len() == graph.n,
            field_nats(y@) == spmv_acc(graph.edges@, xs, graph.n as nat, k as nat),
        decreases graph.edges@.len() - k,
    {
        let (r, c, w) = graph.edges[k];
        proof {
            assert forall|t: int| 0 <= t < graph.edges@.len() implies (#[trigger] graph.edges@[t]).0 < graph.n as nat by {
                assert(graph.edges@[t].0 < graph.n);
            }
            lemma_spmv_acc_len(graph.edges@, xs, graph.n as nat, k as nat);
            assert(graph.edges@[k as int].0 < graph.n);
        }
        let v = y[r].add(w.mul(x[c]));
        y.set(r, v);
        proof {
            assert(field_nats(y@) =~= spmv_acc(graph.edges@, xs, graph.n as nat, (k + 1) as nat));
        }
        k = k + 1;
    }
    y
}

/// The smallest power of two at least `x`.
pub fn next_power_of_two(x: usize) -> (r: usize)
    requires
        1 <= x,
        2 * x <= usize::MAX,
    ensures
        is_pow2(r as nat),
        x <= r < 2 * x,
{
    let mut r: usize = 1;
    while r < x
        invariant
            1 <= r,
            r < 2 * x,
            is_pow2(r as nat),
            2 * x <= usize::MAX,
        decreases 2 * x - r,
    {
        assert((2 * r) as nat / 2 == r as nat);
        r = 2 * r;
    }
    r
}

/// The entries of row `r` from the first `k` edges: (col, w) for each
/// edge (r, col, w), in order.
pub open spec fn row_entries(edges: Seq<(usize, usize, Goldilocks)>, r: int, k: nat) -> Seq<(usize, Goldilocks)>
    decreases k,
{
    if k == 0 {
        seq![]
    } else {
        let prev = row_entries(edges, r, (k - 1) as nat);
        let (er, c, w) = edges[k - 1];
        if er as int == r {
            prev.push((c, w))
        } else {
            prev
        }
    }
}

/// `u` is the SpMV instance of graph `g`: one matrix whose row r holds the
/// edges of row r and, for r < n, the entry −1 at column n + r; the single
/// term M with coefficient one; rows and columns the powers of two covering
/// n and 2n.
pub open spec fn is_spmv_instance(u: &CCSInstance, g: SparseGraph) -> bool {
    let n = g.n as int;
    let m = u.matrices@[0];
    &&& u.matrices@.len() == 1
    &&& u.multisets@.len() == 1
    &&& u.multisets@[0]@ == seq![0usize]
    &&& u.coeffs@.len() == 1
    &&& u.coeffs@[0]@ == 1
    &&& is_pow2(u.num_rows as nat)
    &&& (if n >= 1 { n } else { 1 }) <= u.num_rows < 2 * (if n >= 1 { n } else { 1 })
    &&& is_pow2(u.num_cols as nat)
    &&& (if n >= 1 { 2 * n } else { 2 }) <= u.num_cols < 2 * (if n >= 1 { 2 * n } else { 2 })
    &&& m.rows == u.num_rows
    &&& m.cols == u.num_cols
    &&& m.entries@.len() == u.num_rows
    &&& forall|r: int| n <= r < u.num_rows ==> (#[trigger] m.row(r)) == row_entries(g.edges@, r, g.edges@.len())
    &&& forall|r: int|
        0 <= r < n ==> (#[trigger] m.row(r)).len() == row_entries(g.edges@, r, g.edges@.len()).len() + 1
            && m.row(r).drop_last() == row_entries(g.edges@, r, g.edges@.len())
            && m.row(r).last().0 == n + r
            && m.row(r).last().1@ == modulus() - 1
}

proof fn lemma_row_entries_step(edges: Seq<(usize, usize, Goldilocks)>, r: int, k: nat)
    requires
        k < edges.len(),
    ensures
        row_entries(edges, r, k + 1) == if edges[k as int].0 as int == r {
            row_entries(edges, r, k).push((edges[k as int].1, edges[k as int].2))
        } else {
            row_entries(edges, r, k)
        },
{
}

/// Build the CCS for A·x − y = 0 with public A.
pub fn spmv_ccs(graph: &SparseGraph) -> (u: CCSInstance)
    requires
        graph.wf(),
        4 * graph.n <= usize::MAX,
    ensures
        is_spmv_instance(&u, *graph),
        u.wf(),
{
    let n = graph.n;
    let rows = next_power_of_two(if n >= 1 { n } else { 1 });
    let cols = next_power_of_two(if n >= 1 { 2 * n } else { 2 });
    let mut m = SparseMatrix::new(rows, cols);
    let neg_one = Goldilocks::zero().sub(Goldilocks::one());
    proof {
        vstd::arithmetic::div_mod::lemma_small_mod(1, modulus());
        vstd::arithmetic::div_mod::lemma_small_mod((modulus() - 1) as nat, modulus());
    }
    let mut k: usize = 0;
    while k < graph.edges.len()
        invariant
            k <= graph.edges@.len(),
            graph.wf(),
            n == graph.n,
            n <= rows,
            m.rows == rows,
            m.cols == cols,
            m.entries@.len() == rows,
            forall|r: int| 0 <= r < rows ==> (#[trigger] m.row(r)) == row_entries(graph.edges@, r, k as nat),
        decreases graph.edges@.len() - k,
    {
        let (r, c, w) = graph.edges[k];
        proof {
            assert(graph.edges@[k as int].0 < graph.n);
        }
        let ghost old_m = m;
        m.set(r, c, w);
        proof {
            assert forall|q: int| 0 <= q < rows implies (#[trigger] m.row(q)) == row_entries(graph.edges@, q, (k + 1) as nat) by {
                assert(old_m.row(q) == row_entries(graph.edges@, q, k as nat));
                lemma_row_entries_step(graph.edges@, q, k as nat);
                if q != r as int {
                    assert(m.entries@[q] == old_m.entries@[q]);
                }
            }
        }
        k = k + 1;
    }
    let mut i: usize = 0;
    while i < n
        invariant
            i <= n,
            n == graph.n,
            n <= rows,
            2 * n <= cols,
            neg_one@ == modulus() - 1,
            m.rows == rows,
            m.cols == cols,
            m.entries@.len() == rows,
            forall|r: int| i <= r < rows ==> (#[trigger] m.row(r)) == row_entries(graph.edges@, r, graph.edges@.len()),
            forall|r: int|
                0 <= r < i ==> (#[trigger] m.row(r)) == row_entries(graph.edges@, r, graph.edges@.len()).push((
                    (n + r) as usize,
                    neg_one,
                )),
        decreases n - i,
    {
        let ghost old_m = m;
        m.set(i, n + i, neg_one);
        proof {
            assert forall|r: int| i + 1 <= r < rows implies (#[trigger] m.row(r)) == row_entries(graph.edges@, r, graph.edges@.len()) by {
                assert(old_m.row(r) == row_entries(graph.edges@, r, graph.edges@.len()));
                assert(m.entries@[r] == old_m.entries@[r]);
            }
            assert forall|r: int|
                0 <= r < i + 1 implies (#[trigger] m.row(r)) == row_entries(graph.edges@, r, graph.edges@.len()).push(((n + r) as usize, neg_one)) by {
                if r < i {
                    assert(old_m.row(r) == row_entries(graph.edges@, r, graph.edges@.len()).push(((n + r) as usize, neg_one)));
                    assert(m.entries@[r] == old_m.entries@[r]);
                } else {
                    assert(old_m.row(r) == row_entries(graph.edges@, r, graph.edges@.len()));
                }
            }
        }
        i = i + 1;
    }
    proof {
        assert forall|r: int| 0 <= r < n implies (#[trigger] m.row(r)).drop_last() == row_entries(graph.edges@, r, graph.edges@.len()) by {
            assert(m.row(r).drop_last() =~= row_entries(graph.edges@, r, graph.edges@.len()));
        }
    }
    let u = CCSInstance {
        matrices: vec![m],
        multisets: vec![vec![0usize]],
        coeffs: vec![Goldilocks::one()],
        num_rows: rows,
        num_cols: cols,
    };
    proof {
        assert(u.multisets@[0]@ =~= seq![0usize]);
        assert(u.matrices@[0] == m);
        assert forall|j: int, q: int| 0 <= j < u.num_terms() && 0 <= q < u.term_set(j).len() implies (#[trigger] u.term_set(j)[q]) < u.matrices@.len() by {
            assert(u.term_set(0) =~= seq![0usize]);
        }
    }
    u
}

/// `z` is the SpMV witness [x ‖ y ‖ 0-pad] over `cols` columns.
pub open spec fn is_spmv_witness(z: Seq<Goldilocks>, n: nat, cols: nat, x: Seq<Goldilocks>, y: Seq<Goldilocks>) -> bool {
    &&& z.len() == cols
    &&& forall|i: int| 0 <= i < n ==> #[trigger] z[i] == x[i]
    &&& forall|i: int| 0 <= i < n ==> #[trigger] z[n + i] == y[i]
    &&& forall|i: int| 2 * n <= i < cols ==> (#[trigger] z[i])@ == 0
}

/// The witness z = [x ‖ y ‖ 0-pad].
pub fn spmv_witness(graph: &SparseGraph, x: &[Goldilocks], y: &[Goldilocks]) -> (w: CCSWitness)
    requires
        x@.len() == graph.n,
        y@.len() == graph.n,
        4 * graph.n <= usize::MAX,
    ensures
        is_spmv_witness(w.z@, graph.n as nat, next_cols(graph.n as nat), x@, y@),
        is_pow2(w.z@.len()),
        (if graph.n >= 1 { 2 * graph.n } else { 2 }) <= w.z@.len() < 2 * (if graph.n >= 1 { 2 * graph.n } else { 2 }),
{
    let n = graph.n;
    let cols = next_power_of_two(if n >= 1 { 2 * n } else { 2 });
    proof {
        lemma_next_cols(graph.n as nat, cols as nat);
    }
    let mut z: Vec<Goldilocks> = Vec::new();
    let mut i: usize = 0;
    while i < n
        invariant
            i <= n,
            n == graph.n,
            x@.len() == n,
            z@.len() == i,
            forall|j: int| 0 <= j < i ==> #[trigger] z@[j] == x@[j],
        decreases n - i,
    {
        z.push(x[i]);
        i = i + 1;
    }
    let mut i: usize = 0;
    while i < n
        invariant
            i <= n,
            n == graph.n,
            x@.len() == n,
            y@.len() == n,
            z@.len() == n + i,
            forall|j: int| 0 <= j < n ==> #[trigger] z@[j] == x@[j],
            forall|j: int| 0 <= j < i ==> #[trigger] z@[n + j] == y@[j],
        decreases n - i,
    {
        z.push(y[i]);
        i = i + 1;
    }
    while z.len() < cols
        invariant
            2 * n <= z@.len() <= cols,
            forall|j: int| 0 <= j < n ==> #[trigger] z@[j] == x@[j],
            forall|j: int| 0 <= j < n ==> #[trigger] z@[n + j] == y@[j],
            forall|j: int| 2 * n <= j < z@.len() ==> (#[trigger] z@[j])@ == 0,
        decreases cols - z@.len(),
    {
        z.push(Goldilocks::zero());
    }
    CCSWitness { z }
}

/// The column count of the SpMV instance for `n` nodes.
pub open spec fn next_cols(n: nat) -> nat {
    choose|c: nat| is_pow2(c) && (if n >= 1 { 2 * n } else { 2 }) <= c < 2 * (if n >= 1 { 2 * n } else { 2 })
}

proof fn lemma_pow2_unique(a: nat, b: nat, lo: nat)
    requires
        is_pow2(a),
        is_pow2(b),
        lo >= 1,
        lo <= a < 2 * lo,
        lo <= b < 2 * lo,
    ensures
        a == b,
    decreases a,
{
    if a > 1 && b > 1 {
        lemma_pow2_unique(a / 2, b / 2, (lo + 1) / 2);
    } else if a == 1 && b > 1 {
        lemma_pow2_even(b);
    } else if b == 1 && a > 1 {
        lemma_pow2_even(a);
    }
}

proof fn lemma_pow2_even(a: nat)
    requires
        is_pow2(a),
        a > 1,
    ensures
        a % 2 == 0,
        a >= 2,
{
}

/// The column count is the unique power of two in [max(2n, 2), 2·max(2n, 2)).
pub proof fn lemma_next_cols(n: nat, c: nat)
    requires
        is_pow2(c),
        (if n >= 1 { 2 * n } else { 2 }) <= c < 2 * (if n >= 1 { 2 * n } else { 2 }),
    ensures
        next_cols(n) == c,
{
    let lo: nat = if n >= 1 { 2 * n } else { 2 };
    let d = next_cols(n);
    assert(is_pow2(d) && lo <= d < 2 * lo);
    lemma_pow2_unique(c, d, lo);
}

/// Why an SpMV proof was refused.
#[derive(Clone, Copy, Debug, PartialEq, Eq, Structural)]
pub enum SpmvError {
    DimMismatch,
    Unsatisfied,
    FoldFailed,
    DecideFailed,
    VerifyFailed,
}

/// Public claim: graph G, vector hashes, y = A x.
#[derive(Clone, Debug)]
pub struct SpmvStatement {
    pub graph_commit: [u8; 32],
    pub x_hash: [u8; 32],
    pub y_hash: [u8; 32],
    pub n: usize,
}

/// `bytes` followed by zeros up to 32 bytes.
pub open spec fn padded32(bytes: Seq<u8>) -> Seq<u8> {
    bytes + Seq::new((32 - bytes.len()) as nat, |i: int| 0u8)
}

/// The 32-byte array holding `bytes` followed by zeros.
pub fn pad32(bytes: &[u8]) -> (r: [u8; 32])
    requires
        bytes@.len() <= 32,
    ensures
        r@ == padded32(bytes@),
{
    let mut r = [0u8; 32];
    let mut i: usize = 0;
    while i < bytes.len()
        invariant
            i <= bytes@.len() <= 32,
            forall|j: int| 0 <= j < i ==> #[trigger] r@[j] == bytes@[j],
            forall|j: int| i <= j < 32 ==> #[trigger] r@[j] == 0u8,
        decreases bytes@.len() - i,
    {
        r[i] = bytes[i];
        i = i + 1;
    }
    proof {
        assert(r@ =~= padded32(bytes@));
    }
    r
}

/// Three 32-byte strings one after the other.
pub fn concat96(a: &[u8; 32], b: &[u8; 32], c: &[u8; 32]) -> (r: [u8; 96])
    ensures
        r@ == a@ + b@ + c@,
{
    let mut r = [0u8; 96];
    let mut i: usize = 0;
    while i < 96
        invariant
            i <= 96,
            r@.len() == 96,
            forall|j: int| 0 <= j < i ==> #[trigger] r@[j] == (a@ + b@ + c@)[j],
        decreases 96 - i,
    {
        let v = if i < 32 {
            a[i]
        } else if i < 64 {
            b[i - 32]
        } else {
            c[i - 64]
        };
        r[i] = v;
        i = i + 1;
    }
    proof {
        assert(r@ =~= a@ + b@ + c@);
    }
    r
}

impl SpmvStatement {
    /// The bytes whose hash is the statement's output hash: the graph
    /// commitment, then the x and y hashes.
    pub fn output_preimage(&self) -> (r: [u8; 96])
        ensures
            r@ == self.graph_commit@ + self.x_hash@ + self.y_hash@,
    {
        concat96(&self.graph_commit, &self.x_hash, &self.y_hash)
    }

    /// The zheng statement of this claim, given the hash of `output_preimage`.
    pub fn to_zheng(&self, output_digest: [u8; 32]) -> (st: Statement)
        ensures
            st.program_hash@ == padded32("zheng-spmv-v0".spec_bytes()),
            st.input_hash@ == padded32(le_bytes(self.n as u64)),
            st.output_hash == output_digest,
            st.focus_bound == self.n as u64,
            st.bbg_root@ == padded32(seq![]),
    {
        let mut n_bytes: Vec<u8> = Vec::new();
        push_le(&mut n_bytes, self.n as u64);
        let empty: Vec<u8> = Vec::new();
        proof {
            reveal_strlit("zheng-spmv-v0");
            assert(vstd::string::is_ascii("zheng-spmv-v0"));
            vstd::string::is_ascii_spec_bytes("zheng-spmv-v0");
        }
        Statement {
            program_hash: pad32("zheng-spmv-v0".as_bytes()),
            input_hash: pad32(n_bytes.as_slice()),
            output_hash: output_digest,
            focus_bound: self.n as u64,
            bbg_root: pad32(empty.as_slice()),
        }
    }
}

proof fn lemma_spmv_acc_bound(edges: Seq<(usize, usize, Goldilocks)>, x: Seq<nat>, n: nat, k: nat)
    requires
        k <= edges.len(),
        forall|t: int| 0 <= t < edges.len() ==> (#[trigger] edges[t]).0 < n,
    ensures
        forall|i: int| 0 <= i < n ==> #[trigger] spmv_acc(edges, x, n, k)[i] < modulus(),
    decreases k,
{
    lemma_spmv_acc_len(edges, x, n, k);
    if k > 0 {
        lemma_spmv_acc_bound(edges, x, n, (k - 1) as nat);
        lemma_spmv_acc_len(edges, x, n, (k - 1) as nat);
    }
}

proof fn lemma_row_dot_entries(edges: Seq<(usize, usize, Goldilocks)>, x: Seq<Goldilocks>, z: Seq<Goldilocks>, n: nat, r: int, k: nat)
    requires
        k <= edges.len(),
        0 <= r < n,
        x.len() == n,
        z.len() >= n,
        forall|i: int| 0 <= i < n ==> #[trigger] z[i] == x[i],
        forall|t: int| 0 <= t < edges.len() ==> (#[trigger] edges[t]).0 < n && edges[t].1 < n,
    ensures
        row_dot(row_entries(edges, r, k), z) == spmv_acc(edges, field_nats(x), n, k)[r],
    decreases k,
{
    if k > 0 {
        lemma_row_dot_entries(edges, x, z, n, r, (k - 1) as nat);
        lemma_spmv_acc_len(edges, field_nats(x), n, (k - 1) as nat);
        let prev = row_entries(edges, r, (k - 1) as nat);
        let e = edges[k - 1];
        assert(e.0 < n && e.1 < n);
        if e.0 as int == r {
            let q = prev.push((e.1, e.2));
            assert(q.drop_last() =~= prev);
            assert(zval(z, e.1 as int) == x[e.1 as int]@);
        }
    }
}

proof fn lemma_row_entries_empty(edges: Seq<(usize, usize, Goldilocks)>, n: nat, r: int, k: nat)
    requires
        k <= edges.len(),
        r >= n,
        forall|t: int| 0 <= t < edges.len() ==> (#[trigger] edges[t]).0 < n,
    ensures
        row_entries(edges, r, k).len() == 0,
    decreases k,
{
    if k > 0 {
        lemma_row_entries_empty(edges, n, r, (k - 1) as nat);
    }
}

/// The SpMV instance of a graph holds at [x ‖ y ‖ 0-pad] exactly when
/// y = A·x (y canonical).
pub proof fn lemma_spmv_holds(u: &CCSInstance, g: SparseGraph, x: Seq<Goldilocks>, y: Seq<Goldilocks>, z: Seq<Goldilocks>)
    requires
        g.wf(),
        is_spmv_instance(u, g),
        x.len() == g.n,
        y.len() == g.n,
        forall|i: int| 0 <= i < y.len() ==> (#[trigger] y[i])@ < modulus(),
        is_spmv_witness(z, g.n as nat, u.num_cols as nat, x, y),
    ensures
        u.satisfied(z) <==> field_nats(y) == spmv_spec(g, field_nats(x)),
{
    let n = g.n as nat;
    let p = modulus() as int;
    let edges = g.edges@;
    let m = u.matrices@[0];
    let sp = spmv_spec(g, field_nats(x));
    assert forall|t: int| 0 <= t < edges.len() implies (#[trigger] edges[t]).0 < n && edges[t].1 < n by {
        assert(g.edges@[t].0 < g.n && g.edges@[t].1 < g.n);
    }
    lemma_spmv_acc_len(edges, field_nats(x), n, edges.len());
    lemma_spmv_acc_bound(edges, field_nats(x), n, edges.len());
    assert(u.num_terms() == 1);
    assert(u.term_set(0) == seq![0usize]);
    // every row's value is the matrix row applied to z
    assert forall|r: int| 0 <= r < u.num_rows implies #[trigger] u.row_value(z, r) == row_dot(m.row(r), z) by {
        let d = row_dot(m.row(r), z);
        assert(d < modulus()) by {
            if m.row(r).len() > 0 {
                assert(d == crate::field::fadd(row_dot(m.row(r).drop_last(), z), fmul(m.row(r).last().1@, zval(z, m.row(r).last().0 as int))));
            }
        }
        vstd::arithmetic::div_mod::lemma_small_mod(d, modulus());
        assert(u.factor(0, z, r) == d);
        let s0 = u.term_set(0);
        assert(s0.len() == 1 && s0[0] == 0usize);
        assert(u.product(s0, 0, z, r) == 1);
        assert(u.product(s0, 1, z, r) == fmul(1, d));
        assert(fmul(1, d) == d);
        assert(u.partial_sum(0, z, r) == 0);
        assert(u.partial_sum(1, z, r) == fadd(0, fmul(1, d)));
        vstd::arithmetic::div_mod::lemma_small_mod(0 + d, modulus());
    }
    // rows below n compare (A·x)[r] with y[r]
    assert forall|r: int| 0 <= r < n implies (#[trigger] u.row_value(z, r) == 0) == (sp[r] == y[r]@) by {
        let e = row_entries(edges, r, edges.len());
        lemma_row_dot_entries(edges, x, z, n, r, edges.len());
        let s = sp[r];
        let yr = y[r]@;
        assert(m.row(r).drop_last() == e);
        assert(zval(z, n + r) == yr);
        assert(row_dot(m.row(r), z) == fadd(s, fmul((modulus() - 1) as nat, yr)));
        let t = ((modulus() - 1) * yr) as int;
        vstd::arithmetic::div_mod::lemma_add_mod_noop(s as int, t, p);
        vstd::arithmetic::div_mod::lemma_mod_twice(t, p);
        vstd::arithmetic::div_mod::lemma_small_mod(s, modulus());
        assert(s + t == p * yr + (s - yr)) by (nonlinear_arith)
            requires
                t == (p - 1) * yr,
        ;
        vstd::arithmetic::div_mod::lemma_mod_multiples_vanish(yr as int, s - yr, p);
        if s >= yr {
            vstd::arithmetic::div_mod::lemma_small_mod((s - yr) as nat, modulus());
        } else {
            vstd::arithmetic::div_mod::lemma_small_mod((p + s - yr) as nat, modulus());
            vstd::arithmetic::div_mod::lemma_mod_multiples_vanish(-1, p + s - yr, p);
        }
    }
    // padding rows are empty
    assert forall|r: int| n <= r < u.num_rows implies #[trigger] u.row_value(z, r) == 0 by {
        lemma_row_entries_empty(edges, n, r, edges.len());
        assert(m.row(r).len() == 0);
    }
    if u.satisfied(z) {
        assert(field_nats(y) =~= sp) by {
            assert forall|r: int| 0 <= r < n implies field_nats(y)[r] == sp[r] by {
                assert(u.row_value(z, r) == 0);
            }
        }
    }
    if field_nats(y) == sp {
        assert forall|r: int| 0 <= r < u.num_rows implies #[trigger] u.row_value(z, r) == 0 by {
            if r < n {
                assert(field_nats(y)[r] == y[r]@);
            }
        }
    }
}

} // verus!
