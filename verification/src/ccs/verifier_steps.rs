//! Equality rows: the binding steps a = b over Z = [a, b, 1], and the
//! legacy Tensor-opening rows that compare commitment limbs and a residual
//! value. These rows do not establish proximity or Merkle authentication.
use crate::field::{fadd, fmul, fneg, modulus, Goldilocks};
use crate::types::{row_dot, zval, CCSInstance, CCSWitness, SparseMatrix};
use vstd::prelude::*;

verus! {

/// Length of the binding witness [a, b, 1].
pub const VZ_LEN: usize = 3;

/// What the equality rows read of a polynomial opening: a Tensor opening's
/// round commitments and final polynomial bytes, or another kind.
pub enum OpeningView {
    Tensor { round_commitments: Vec<[u8; 32]>, final_poly: Vec<u8> },
    Other,
}

/// A one-row matrix over VZ_LEN columns selecting column `col`.
pub open spec fn is_select(m: SparseMatrix, col: usize) -> bool {
    &&& m.rows == 1
    &&& m.cols == VZ_LEN
    &&& m.entries@.len() == 1
    &&& m.row(0).len() == 1
    &&& m.row(0)[0].0 == col
    &&& m.row(0)[0].1@ == 1
}

/// The selecting matrix of column `col`.
pub fn sel(col: usize) -> (m: SparseMatrix)
    ensures
        is_select(m, col),
{
    let mut m = SparseMatrix::new(1, VZ_LEN);
    m.set(0, col, Goldilocks::one());
    m
}

/// `u` is the binding instance z[0] − z[1] = 0.
pub open spec fn is_eq_instance(u: &CCSInstance) -> bool {
    &&& u.matrices@.len() == 2
    &&& is_select(u.matrices@[0], 0)
    &&& is_select(u.matrices@[1], 1)
    &&& u.multisets@.len() == 2
    &&& u.multisets@[0]@ == seq![0usize]
    &&& u.multisets@[1]@ == seq![1usize]
    &&& u.coeffs@.len() == 2
    &&& u.coeffs@[0]@ == 1
    &&& u.coeffs@[1]@ == fneg(1)
    &&& u.num_rows == 1
    &&& u.num_cols == VZ_LEN
}

/// The binding instance: z[0] − z[1] = 0 over Z = [a, b, 1].
pub fn eq_instance() -> (u: CCSInstance)
    ensures
        is_eq_instance(&u),
        u.wf(),
{
    let u = CCSInstance {
        matrices: vec![sel(0), sel(1)],
        multisets: vec![vec![0usize], vec![1usize]],
        coeffs: vec![Goldilocks::one(), Goldilocks::one().neg()],
        num_rows: 1,
        num_cols: VZ_LEN,
    };
    proof {
        assert(u.multisets@[0]@ == seq![0usize]);
        assert(u.multisets@[1]@ == seq![1usize]);
        assert(u.num_terms() == 2);
    }
    u
}

/// The step encoding `a == b`: the binding instance and [a, b, 1].
pub fn eq_step(a: Goldilocks, b: Goldilocks) -> (r: (CCSInstance, CCSWitness))
    ensures
        is_eq_instance(&r.0),
        r.0.wf(),
        r.1.z@ == seq![a, b, r.1.z@[2]],
        r.1.z@[2]@ == 1,
{
    let z = vec![a, b, Goldilocks::one()];
    (eq_instance(), CCSWitness { z })
}

/// A selecting matrix applied to z reads that column.
proof fn lemma_select_apply(m: SparseMatrix, col: usize, z: Seq<Goldilocks>)
    requires
        is_select(m, col),
        (col as int) < z.len(),
        z[col as int]@ < modulus(),
    ensures
        m.apply(z, 0) == z[col as int]@,
{
    let row = m.row(0);
    assert(row.drop_last() =~= Seq::<(usize, Goldilocks)>::empty());
    assert(row_dot(row.drop_last(), z) == 0);
    let x = z[col as int]@;
    vstd::arithmetic::div_mod::lemma_small_mod(x, modulus());
    assert(fmul(1, x) == x);
    assert(fadd(0, x) == x);
}

/// The binding instance is satisfied by [a, b, 1] exactly when a = b.
pub proof fn lemma_eq_step_sound(u: &CCSInstance, a: Goldilocks, b: Goldilocks, z: Seq<Goldilocks>)
    requires
        is_eq_instance(u),
        z.len() == VZ_LEN,
        z[0] == a,
        z[1] == b,
        a@ < modulus(),
        b@ < modulus(),
    ensures
        u.satisfied(z) <==> a@ == b@,
{
    let m = modulus();
    lemma_select_apply(u.matrices@[0], 0, z);
    lemma_select_apply(u.matrices@[1], 1, z);
    let x = a@;
    let y = b@;
    assert(u.factor(0, z, 0) == x);
    assert(u.factor(1, z, 0) == y);
    let s0 = u.term_set(0);
    let s1 = u.term_set(1);
    assert(u.product(s0, 0, z, 0) == 1);
    assert(u.product(s0, 1, z, 0) == fmul(1, x));
    vstd::arithmetic::div_mod::lemma_small_mod(x, m);
    vstd::arithmetic::div_mod::lemma_small_mod(y, m);
    assert(u.product(s0, s0.len(), z, 0) == x);
    assert(u.product(s1, 0, z, 0) == 1);
    assert(u.product(s1, s1.len(), z, 0) == y);
    assert(u.num_terms() == 2);
    assert(u.partial_sum(0, z, 0) == 0);
    assert(u.partial_sum(1, z, 0) == fadd(0, fmul(1, x)));
    assert(u.partial_sum(1, z, 0) == x);
    let n1 = fneg(1);
    assert(n1 == m - 1) by {
        vstd::arithmetic::div_mod::lemma_small_mod(1, m);
        vstd::arithmetic::div_mod::lemma_small_mod((m - 1) as nat, m);
    }
    assert(u.row_value(z, 0) == fadd(x, fmul(n1, y)));
    let t = (n1 * y) as int;
    assert(fadd(x, fmul(n1, y)) == ((x + n1 * y) as int) % (m as int)) by {
        vstd::arithmetic::div_mod::lemma_add_mod_noop(x as int, t, m as int);
        vstd::arithmetic::div_mod::lemma_mod_twice(t, m as int);
        vstd::arithmetic::div_mod::lemma_small_mod(x, m);
    }
    assert(x + n1 * y == m * y + (x - y)) by (nonlinear_arith)
        requires
            n1 == m - 1,
    ;
    vstd::arithmetic::div_mod::lemma_mod_multiples_vanish(y as int, x - y, m as int);
    if x >= y {
        vstd::arithmetic::div_mod::lemma_small_mod((x - y) as nat, m);
    } else {
        vstd::arithmetic::div_mod::lemma_small_mod((m + x - y) as nat, m);
        vstd::arithmetic::div_mod::lemma_mod_multiples_vanish(-1, m + x - y, m as int);
    }
    if u.satisfied(z) {
        assert(u.row_value(z, 0) == 0);
    }
    if x == y {
        assert(u.row_value(z, 0) == 0);
        assert forall|r: int| 0 <= r < u.num_rows implies #[trigger] u.row_value(z, r) == 0 by {
            assert(r == 0);
        }
    }
}

/// The little-endian 64-bit limb `k` of a 32-byte commitment, reduced.
pub fn read_limb(bytes: &[u8; 32], k: usize) -> (r: Goldilocks)
    requires
        k < 4,
    ensures
        r@ == le_value(bytes@.subrange(8 * k as int, 8 * k as int + 8)) % modulus(),
{
    let mut v: u64 = 0;
    let mut i: usize = 8;
    while i > 0
        invariant
            i <= 8,
            k < 4,
            v as nat == le_value(bytes@.subrange(8 * k + i, 8 * k as int + 8)),
            (v as nat) < pow256((8 - i) as nat),
        decreases i,
    {
        i = i - 1;
        let b = bytes[8 * k + i];
        proof {
            let s = bytes@.subrange(8 * k + i, 8 * k as int + 8);
            assert(s.drop_first() =~= bytes@.subrange(8 * k + i + 1, 8 * k as int + 8));
            assert(s[0] == b);
            lemma_pow256_step((7 - i) as nat);
            assert(v * 256 + b < pow256((8 - i) as nat)) by (nonlinear_arith)
                requires
                    v < pow256((7 - i) as nat),
                    b < 256,
                    pow256((8 - i) as nat) == 256 * pow256((7 - i) as nat),
            ;
            lemma_pow256_8();
            lemma_pow256_le((8 - i) as nat);
        }
        v = v * 256 + b as u64;
    }
    Goldilocks::new(v)
}

/// The little-endian value of a byte sequence.
pub open spec fn le_value(s: Seq<u8>) -> nat
    decreases s.len(),
{
    if s.len() == 0 {
        0
    } else {
        s[0] as nat + 256 * le_value(s.drop_first())
    }
}

/// 256^n.
pub open spec fn pow256(n: nat) -> nat
    decreases n,
{
    if n == 0 {
        1
    } else {
        256 * pow256((n - 1) as nat)
    }
}

proof fn lemma_pow256_step(n: nat)
    ensures
        pow256(n + 1) == 256 * pow256(n),
{
}

proof fn lemma_pow256_le(n: nat)
    requires
        n <= 8,
    ensures
        pow256(n) <= pow256(8),
    decreases 8 - n,
{
    if n < 8 {
        lemma_pow256_le(n + 1);
        lemma_pow256_step(n);
    }
}

proof fn lemma_pow256_8()
    ensures
        pow256(8) == 0x1_0000_0000_0000_0000,
{
    reveal_with_fuel(pow256, 9);
}

/// The field elements of the complete 8-byte little-endian chunks.
pub open spec fn chunks_value(bytes: Seq<u8>) -> Seq<nat> {
    Seq::new(bytes.len() / 8, |i: int| le_value(bytes.subrange(8 * i, 8 * i + 8)) % modulus())
}

/// Decode the complete 8-byte chunks of `bytes` as field elements.
pub fn de_goldilocks(bytes: &Vec<u8>) -> (r: Vec<Goldilocks>)
    ensures
        r@.map_values(|g: Goldilocks| g@) == chunks_value(bytes@),
{
    let mut r: Vec<Goldilocks> = Vec::new();
    let len = bytes.len();
    let n = len / 8;
    let mut c: usize = 0;
    while c < n
        invariant
            c <= n,
            len == bytes@.len(),
            n == bytes@.len() / 8,
            r@.len() == c,
            forall|i: int| 0 <= i < c ==> #[trigger] r@[i]@ == le_value(bytes@.subrange(8 * i, 8 * i + 8)) % modulus(),
        decreases n - c,
    {
        let mut buf = [0u8; 32];
        let mut j: usize = 0;
        assert(8 * c + 8 <= len) by (nonlinear_arith)
            requires
                c < n,
                n == len / 8,
        ;
        let base: usize = 8 * c;
        while j < 8
            invariant
                j <= 8,
                c < n,
                base == 8 * c,
                base + 8 <= bytes@.len(),
                n == bytes@.len() / 8,
                forall|t: int| 0 <= t < j ==> buf@[t] == bytes@[8 * c + t],
            decreases 8 - j,
        {
            buf[j] = bytes[base + j];
            j = j + 1;
        }
        let g = read_limb(&buf, 0);
        proof {
            assert(buf@.subrange(0, 8) =~= bytes@.subrange(8 * c as int, 8 * c as int + 8));
        }
        r.push(g);
        c = c + 1;
    }
    proof {
        assert(r@.map_values(|g: Goldilocks| g@) =~= chunks_value(bytes@));
    }
    r
}

/// The little-endian limb `k` of 32 commitment bytes, reduced.
pub open spec fn limb(bytes: Seq<u8>, k: int) -> nat {
    le_value(bytes.subrange(8 * k, 8 * k + 8)) % modulus()
}

/// The (a, b) pairs compared by the legacy equality rows of an opening:
/// the four commitment limbs against those of the first round commitment,
/// then the first element of the final polynomial against `value`.
pub open spec fn vsteps_pairs(commitment: Seq<u8>, value: nat, opening: OpeningView) -> Seq<(nat, nat)> {
    match opening {
        OpeningView::Other => seq![],
        OpeningView::Tensor { round_commitments, final_poly } => (if round_commitments@.len() > 0 {
            Seq::new(4, |k: int| (limb(commitment, k), limb(round_commitments@[0]@, k)))
        } else {
            seq![]
        }) + (if final_poly@.len() >= 8 {
            seq![(limb(final_poly@, 0), value)]
        } else {
            seq![]
        }),
    }
}

/// Witness `w` is [a, b, 1] for the pair (a, b).
pub open spec fn step_z(w: CCSWitness, pr: (nat, nat)) -> bool {
    &&& w.z@.len() == VZ_LEN
    &&& w.z@[0]@ == pr.0
    &&& w.z@[1]@ == pr.1
    &&& w.z@[2]@ == 1
}

/// Every step is a binding step over the matching pair.
pub open spec fn eq_steps_of(steps: Seq<(CCSInstance, CCSWitness)>, pairs: Seq<(nat, nat)>) -> bool {
    &&& steps.len() == pairs.len()
    &&& forall|i: int| 0 <= i < steps.len() ==> is_eq_instance(&(#[trigger] steps[i]).0) && step_z(steps[i].1, pairs[i])
}

/// The legacy Tensor equality rows for an opening: the first round
/// commitment equals the commitment limb by limb, and the first element of
/// the final polynomial equals `value`. No rows for other openings.
pub fn verifier_steps(commitment: &[u8; 32], point: &[Goldilocks], value: Goldilocks, opening: &OpeningView) -> (steps: Vec<(CCSInstance, CCSWitness)>)
    ensures
        eq_steps_of(steps@, vsteps_pairs(commitment@, value@, *opening)),
{
    let mut steps: Vec<(CCSInstance, CCSWitness)> = Vec::new();
    let ghost pairs = vsteps_pairs(commitment@, value@, *opening);
    match opening {
        OpeningView::Other => steps,
        OpeningView::Tensor { round_commitments, final_poly } => {
            let ghost head: Seq<(nat, nat)> = if round_commitments@.len() > 0 {
                Seq::new(4, |k: int| (limb(commitment@, k), limb(round_commitments@[0]@, k)))
            } else {
                seq![]
            };
            if round_commitments.len() > 0 {
                let rc0 = &round_commitments[0];
                let mut k: usize = 0;
                while k < 4
                    invariant
                        k <= 4,
                        round_commitments@.len() > 0,
                        *rc0 == round_commitments@[0],
                        head.len() == 4,
                        head == Seq::new(4, |k: int| (limb(commitment@, k), limb(round_commitments@[0]@, k))),
                        eq_steps_of(steps@, head.take(k as int)),
                    decreases 4 - k,
                {
                    let s = eq_step(read_limb(commitment, k), read_limb(rc0, k));
                    steps.push(s);
                    proof {
                        assert(head.take(k + 1) =~= head.take(k as int).push(head[k as int]));
                    }
                    k = k + 1;
                }
                proof {
                    assert(head.take(4) =~= head);
                }
            } else {
                proof {
                    assert(head =~= Seq::<(nat, nat)>::empty());
                }
            }
            let finals = de_goldilocks(final_poly);
            if finals.len() > 0 {
                proof {
                    assert(finals@.map_values(|g: Goldilocks| g@).len() == finals@.len());
                    assert(finals@.map_values(|g: Goldilocks| g@)[0] == finals@[0]@);
                }
                steps.push(eq_step(finals[0], value));
                proof {
                    assert(pairs =~= head.push((limb(final_poly@, 0), value@)));
                }
            } else {
                proof {
                    assert(finals@.map_values(|g: Goldilocks| g@).len() == finals@.len());
                    assert(pairs =~= head);
                }
            }
            steps
        },
    }
}

} // verus!
