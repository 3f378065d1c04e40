//! The universal step CCS: one instance for every Layer-1 row.
//!
//! `C(t) = Σ_p s_p · C_p(t)` with one-hot selector columns `s_0..s_17` in the
//! witness. Every trace pair (row t, row t+1) and every synthetic Poseidon2
//! round is a witness of this single instance.
//!
//! Witness layout (`Z_LEN` = 96):
//!
//! ```text
//! z[0..16]   r_t             z[16..32]  r_{t+1}         z[32]  1
//! z[33..51]  s_0..s_17       pattern selectors, one-hot on r0_t
//! z[51..76]  u_0..u_24       Poseidon2 round selectors, one-hot on r14_t
//!                            when s_15 = 1, all zero otherwise
//! z[76] π    partial-round flag  = Σ_{j=3..18} u_j
//! z[77] κ    round-counter flag  = s_15 − u_24
//! z[78] rc   round constant      = Σ_{j=3..18} RC_{j−3} · u_j
//! z[79..87]  state_k[8..16]      capacity at row t   (prover-supplied)
//! z[87..95]  state_{k+1}[8..16]  capacity at row t+1 (prover-supplied)
//! z[95] y    inv(state_k[0] + rc), the partial-round S-box witness
//! ```
//!
//! Constraint rows (`NUM_ROWS` = 64):
//!
//! ```text
//!  0..18  s_p · (r0 − p) = 0          one row per pattern p
//!  18     Σ_p s_p − 1 = 0
//! 19..44  u_k · (r14 − k) = 0         one row per round k ∈ 0..25
//!  44     Σ_k u_k − s_15 = 0
//!  45     π − Σ_{j=3..18} u_j = 0
//!  46     κ − s_15 + u_24 = 0
//!  47     rc − Σ_j RC_j · u_j = 0
//! 48..64  pattern rows: every pattern's constraints, each multiplied by
//!         its gate (s_p, π or κ)
//! ```
//!
//! The instance has 15 "slot" matrices and 6 product terms of fixed shape
//! ({A0,B0}, {C0,D0,E0}, {A1,B1}, {C1,D1,E1}, {F,G,H,I}, {P}), all with
//! coefficient 1. Family 0 hosts the selector rows and the Poseidon2 partial
//! round, family 1 the pattern gadgets, {F,G,H,I} the two degree-4 gadgets
//! (branch, inv), {P} the ungated linear rows.
//!
//! The Poseidon2 constants (the 16 partial-round constants and the internal
//! diagonal) are those of the hemera permutation; the caller supplies them.
use crate::field::{fadd, finv, fmul, fneg, fsub, modulus, Goldilocks, P};
use crate::types::{row_dot, zval, CCSInstance, CCSWitness, SparseMatrix};
use vstd::prelude::*;

verus! {

/// Number of nox reduction patterns (tags 0..17).
pub const NUM_PATTERNS: usize = 18;
/// Poseidon2 rows per hash block: 24 round rows + the squeeze row (r14 = 24).
pub const NUM_ROUNDS: usize = 25;
/// First partial round index (r14 = 3 transitions into partial round 0).
pub const PARTIAL_FIRST: usize = 3;
/// Number of partial rounds.
pub const NUM_PARTIAL: usize = 16;
/// Length of the universal witness.
pub const Z_LEN: usize = 96;
/// Rows of the universal instance.
pub const NUM_ROWS: usize = 64;
/// z-index of the constant 1.
pub const CONST_IDX: usize = 32;
/// z-index of the partial-round flag π.
pub const IDX_PI: usize = 76;
/// z-index of the round-counter flag κ.
pub const IDX_KAPPA: usize = 77;
/// z-index of the round constant rc.
pub const IDX_RC: usize = 78;
/// z-index of the S-box inverse witness y.
pub const IDX_Y: usize = 95;
/// Number of slot matrices.
pub const NUM_MATRICES: usize = 15;

/// The hemera Poseidon2 constants the universal instance is built from.
pub struct Poseidon2Constants {
    /// Round constants of the 16 partial rounds (hemera `ROUND_CONSTANTS[128..144]`).
    pub partial_rc: [Goldilocks; 16],
    /// Diagonal of the internal linear layer (hemera `MATRIX_DIAG_16`).
    pub diag: [Goldilocks; 16],
}

// ── z layout ────────────────────────────────────────────────────────────────

pub open spec fn spec_reg_t(r: usize) -> usize {
    r
}

pub open spec fn spec_reg_t1(r: usize) -> usize {
    (r + 16) as usize
}

pub open spec fn spec_sel(p: usize) -> usize {
    (33 + p) as usize
}

pub open spec fn spec_round_sel(k: usize) -> usize {
    (51 + k) as usize
}

pub open spec fn spec_cap_k(i: usize) -> usize {
    (79 + i) as usize
}

pub open spec fn spec_cap_k1(i: usize) -> usize {
    (87 + i) as usize
}

pub open spec fn spec_sk(i: usize) -> usize {
    if i <= 3 {
        (4 + i) as usize
    } else if i <= 7 {
        (10 + i - 4) as usize
    } else {
        (79 + i - 8) as usize
    }
}

pub open spec fn spec_sk1(i: usize) -> usize {
    if i <= 3 {
        (20 + i) as usize
    } else if i <= 7 {
        (26 + i - 4) as usize
    } else {
        (87 + i - 8) as usize
    }
}

/// z-index of register r at row t.
#[verifier::when_used_as_spec(spec_reg_t)]
pub fn reg_t(r: usize) -> (i: usize)
    ensures
        i == spec_reg_t(r),
{
    r
}

/// z-index of register r at row t+1.
#[verifier::when_used_as_spec(spec_reg_t1)]
pub fn reg_t1(r: usize) -> (i: usize)
    requires
        r + 16 <= usize::MAX,
    ensures
        i == spec_reg_t1(r),
{
    r + 16
}

/// z-index of pattern selector s_p.
#[verifier::when_used_as_spec(spec_sel)]
pub fn sel(p: usize) -> (i: usize)
    requires
        p + 33 <= usize::MAX,
    ensures
        i == spec_sel(p),
{
    33 + p
}

/// z-index of round selector u_k.
#[verifier::when_used_as_spec(spec_round_sel)]
pub fn round_sel(k: usize) -> (i: usize)
    requires
        k + 51 <= usize::MAX,
    ensures
        i == spec_round_sel(k),
{
    51 + k
}

/// z-index of state_k[8 + i] (capacity at row t).
#[verifier::when_used_as_spec(spec_cap_k)]
pub fn cap_k(i: usize) -> (j: usize)
    requires
        i + 79 <= usize::MAX,
    ensures
        j == spec_cap_k(i),
{
    79 + i
}

/// z-index of state_{k+1}[8 + i] (capacity at row t+1).
#[verifier::when_used_as_spec(spec_cap_k1)]
pub fn cap_k1(i: usize) -> (j: usize)
    requires
        i + 87 <= usize::MAX,
    ensures
        j == spec_cap_k1(i),
{
    87 + i
}

/// z-index of Poseidon2 state_k[i]: rate in the trace registers
/// (r4-r7 = state[0..4], r10-r13 = state[4..8]), capacity in the aux columns.
#[verifier::when_used_as_spec(spec_sk)]
pub fn sk(i: usize) -> (j: usize)
    requires
        i + 79 <= usize::MAX,
    ensures
        j == spec_sk(i),
{
    if i <= 3 {
        reg_t(4 + i)
    } else if i <= 7 {
        reg_t(10 + i - 4)
    } else {
        cap_k(i - 8)
    }
}

/// z-index of state_{k+1}[i].
#[verifier::when_used_as_spec(spec_sk1)]
pub fn sk1(i: usize) -> (j: usize)
    requires
        i + 87 <= usize::MAX,
    ensures
        j == spec_sk1(i),
{
    if i <= 3 {
        reg_t1(4 + i)
    } else if i <= 7 {
        reg_t1(10 + i - 4)
    } else {
        cap_k1(i - 8)
    }
}

// ── the instance, entry by entry ────────────────────────────────────────────

/// A linear form with canonical integer coefficients.
pub type SpecForm = Seq<(usize, nat)>;

/// The coefficient −c.
pub open spec fn neg(c: nat) -> nat {
    fneg(c)
}

/// `s · 1`: the selector column that switches a gadget on.
pub open spec fn gate(col: usize) -> SpecForm {
    seq![(col, 1nat)]
}

/// `(x_a − x_b)` for register pairs written as two columns.
pub open spec fn diff(a: usize, b: usize) -> SpecForm {
    seq![(a, 1nat), (b, neg(1))]
}

/// `(x − 1)`.
pub open spec fn minus_one(a: usize) -> SpecForm {
    seq![(a, 1nat), (CONST_IDX, neg(1))]
}

/// `(1 − x)`.
pub open spec fn one_minus(a: usize) -> SpecForm {
    seq![(CONST_IDX, 1nat), (a, neg(1))]
}

/// Slot-family-0 forms (A0, B0, C0, D0, E0) and the ungated slot P.
pub open spec fn family0_form(rc: Seq<Goldilocks>, diag: Seq<Goldilocks>, slot: int, row: int) -> SpecForm {
    if 0 <= row < 18 {
        // s_p · (r0 − p)
        if slot == 0 {
            gate(spec_sel(row as usize))
        } else if slot == 1 {
            seq![(0usize, 1nat), (CONST_IDX, neg(row as nat))]
        } else {
            seq![]
        }
    } else if 19 <= row < 44 {
        // u_k · (r14 − k)
        let k = row - 19;
        if slot == 0 {
            gate(spec_round_sel(k as usize))
        } else if slot == 1 {
            seq![(14usize, 1nat), (CONST_IDX, neg(k as nat))]
        } else {
            seq![]
        }
    } else if row == 48 {
        // π · (y · (state_k[0] + rc) − 1)
        if slot == 0 || slot == 2 {
            gate(IDX_PI)
        } else if slot == 1 {
            seq![(CONST_IDX, neg(1))]
        } else if slot == 3 {
            seq![(IDX_Y, 1nat)]
        } else if slot == 4 {
            seq![(spec_sk(0), 1nat), (IDX_RC, 1nat)]
        } else {
            seq![]
        }
    } else if row == 49 {
        // π · (state_{k+1}[0] − D_0·y − state_{k+1}[1] + D_1·state_k[1])
        if slot == 0 {
            gate(IDX_PI)
        } else if slot == 1 {
            seq![
                (spec_sk1(0), 1nat),
                (IDX_Y, neg(diag[0]@)),
                (spec_sk1(1), neg(1)),
                (spec_sk(1), diag[1]@),
            ]
        } else {
            seq![]
        }
    } else if 50 <= row < 64 {
        // π · (state_{k+1}[i] − D_i·state_k[i] − state_{k+1}[1] + D_1·state_k[1])
        let i = (row - 48) as usize;
        if slot == 0 {
            gate(IDX_PI)
        } else if slot == 1 {
            seq![
                (spec_sk1(i), 1nat),
                (spec_sk(i), neg(diag[i as int]@)),
                (spec_sk1(1), neg(1)),
                (spec_sk(1), diag[1]@),
            ]
        } else {
            seq![]
        }
    } else {
        seq![]
    }
}

/// The ungated rows of slot P.
pub open spec fn linear_form(rc: Seq<Goldilocks>, row: int) -> SpecForm {
    if row == 18 {
        Seq::new(18, |p: int| (spec_sel(p as usize), 1nat)).push((CONST_IDX, neg(1)))
    } else if row == 44 {
        Seq::new(25, |k: int| (spec_round_sel(k as usize), 1nat)).push((spec_sel(15), neg(1)))
    } else if row == 45 {
        seq![(IDX_PI, 1nat)] + Seq::new(16, |j: int| (spec_round_sel((3 + j) as usize), neg(1)))
    } else if row == 46 {
        seq![(IDX_KAPPA, 1nat), (spec_sel(15), neg(1)), (spec_round_sel(24), 1nat)]
    } else if row == 47 {
        seq![(IDX_RC, 1nat)] + Seq::new(16, |j: int| (spec_round_sel((3 + j) as usize), neg(rc[j]@)))
    } else {
        seq![]
    }
}

/// Pattern-gadget forms of slot family 1 (A1, B1, C1, D1, E1) and the
/// degree-4 slots (F, G, H, I) on pattern row `48 + i`.
pub open spec fn pattern_form(slot: int, i: int) -> SpecForm {
    let r = |x: usize| seq![(x, 1nat)];
    if i == 0 {
        // 0 axis: s_0 · (r9 − r8 + 1)
        if slot == 5 {
            gate(spec_sel(0))
        } else if slot == 6 {
            seq![(9usize, 1nat), (8usize, neg(1)), (CONST_IDX, 1nat)]
        } else {
            seq![]
        }
    } else if i == 1 {
        // 1 quote: s_1 · (r7 − r4) ; 11 xor: s_11 · r10 · (r10 − 1)
        if slot == 5 {
            gate(spec_sel(1))
        } else if slot == 6 {
            diff(7, 4)
        } else if slot == 7 {
            gate(spec_sel(11))
        } else if slot == 8 {
            r(10)
        } else if slot == 9 {
            minus_one(10)
        } else {
            seq![]
        }
    } else if i == 2 {
        // 4 branch: s_4 · r10 − s_4 · r10 · r4 · r5
        if slot == 5 || slot == 10 {
            gate(spec_sel(4))
        } else if slot == 6 {
            r(10)
        } else if slot == 11 {
            seq![(10usize, neg(1))]
        } else if slot == 12 {
            r(4)
        } else if slot == 13 {
            r(5)
        } else {
            seq![]
        }
    } else if i == 3 {
        // 4 branch: s_4 · r4 · (1 − r10) ; 15 counter: κ · (r14' − r14 − 1)
        if slot == 7 {
            gate(spec_sel(4))
        } else if slot == 8 {
            r(4)
        } else if slot == 9 {
            one_minus(10)
        } else if slot == 5 {
            gate(IDX_KAPPA)
        } else if slot == 6 {
            seq![(30usize, 1nat), (14usize, neg(1)), (CONST_IDX, neg(1))]
        } else {
            seq![]
        }
    } else if i == 4 {
        // 5 add: s_5 · (r6 − r4 − r5) ; 11 xor: s_11 · r11 · (r11 − 1)
        if slot == 5 {
            gate(spec_sel(5))
        } else if slot == 6 {
            seq![(6usize, 1nat), (4usize, neg(1)), (5usize, neg(1))]
        } else if slot == 7 {
            gate(spec_sel(11))
        } else if slot == 8 {
            r(11)
        } else if slot == 9 {
            minus_one(11)
        } else {
            seq![]
        }
    } else if i == 5 {
        // 6 sub: s_6 · (r6 − r4 + r5) ; 12 and: s_12 · r10 · (r10 − 1)
        if slot == 5 {
            gate(spec_sel(6))
        } else if slot == 6 {
            seq![(6usize, 1nat), (4usize, neg(1)), (5usize, 1nat)]
        } else if slot == 7 {
            gate(spec_sel(12))
        } else if slot == 8 {
            r(10)
        } else if slot == 9 {
            minus_one(10)
        } else {
            seq![]
        }
    } else if i == 6 {
        // 7 mul: s_7 · r6 − s_7 · r4 · r5
        if slot == 5 || slot == 7 {
            gate(spec_sel(7))
        } else if slot == 6 {
            r(6)
        } else if slot == 8 {
            seq![(4usize, neg(1))]
        } else if slot == 9 {
            r(5)
        } else {
            seq![]
        }
    } else if i == 7 {
        // 8 inv: s_8 · r6 · r6 · r4 − s_8 · r6 ; 13 not: s_13 · r11
        if slot == 10 || slot == 7 {
            gate(spec_sel(8))
        } else if slot == 11 || slot == 12 || slot == 8 {
            r(6)
        } else if slot == 13 {
            r(4)
        } else if slot == 9 {
            seq![(CONST_IDX, neg(1))]
        } else if slot == 5 {
            gate(spec_sel(13))
        } else if slot == 6 {
            r(11)
        } else {
            seq![]
        }
    } else if i == 8 {
        // 9 eq: s_9 · (r4 − r5) · (1 − r6) ; 16 call: s_16 · r6
        if slot == 7 {
            gate(spec_sel(9))
        } else if slot == 8 {
            diff(4, 5)
        } else if slot == 9 {
            one_minus(6)
        } else if slot == 5 {
            gate(spec_sel(16))
        } else if slot == 6 {
            r(6)
        } else {
            seq![]
        }
    } else if i == 9 {
        // 9 eq: s_9 · r6 · (1 − r6)
        if slot == 7 {
            gate(spec_sel(9))
        } else if slot == 8 {
            r(6)
        } else if slot == 9 {
            one_minus(6)
        } else {
            seq![]
        }
    } else if i == 10 {
        // 9 eq: s_9 · (r4 − r5) · r7 − s_9 · r6
        if slot == 7 || slot == 5 {
            gate(spec_sel(9))
        } else if slot == 8 {
            diff(4, 5)
        } else if slot == 9 {
            r(7)
        } else if slot == 6 {
            seq![(6usize, neg(1))]
        } else {
            seq![]
        }
    } else if i == 11 {
        // 10 lt: s_10 · r10 · (r10 − 1)
        if slot == 7 {
            gate(spec_sel(10))
        } else if slot == 8 {
            r(10)
        } else if slot == 9 {
            minus_one(10)
        } else {
            seq![]
        }
    } else if i == 12 {
        // 11 xor: s_11 · (r10 + r11 − r12) − 2 · s_11 · r10 · r11
        if slot == 5 || slot == 7 {
            gate(spec_sel(11))
        } else if slot == 6 {
            seq![(10usize, 1nat), (11usize, 1nat), (12usize, neg(1))]
        } else if slot == 8 {
            seq![(10usize, neg(2))]
        } else if slot == 9 {
            r(11)
        } else {
            seq![]
        }
    } else if i == 13 {
        // 12 and: s_12 · r10 · r11 − s_12 · r12
        if slot == 7 || slot == 5 {
            gate(spec_sel(12))
        } else if slot == 8 {
            r(10)
        } else if slot == 9 {
            r(11)
        } else if slot == 6 {
            seq![(12usize, neg(1))]
        } else {
            seq![]
        }
    } else if i == 14 {
        // 10 lt: s_10 · r11 · (r11 − 1) ; 13 not: s_13 · (r10 + r12 − 1)
        if slot == 7 {
            gate(spec_sel(10))
        } else if slot == 8 {
            r(11)
        } else if slot == 9 {
            minus_one(11)
        } else if slot == 5 {
            gate(spec_sel(13))
        } else if slot == 6 {
            seq![(10usize, 1nat), (12usize, 1nat), (CONST_IDX, neg(1))]
        } else {
            seq![]
        }
    } else if i == 15 {
        // 12 and: s_12 · r11 · (r11 − 1) ; 14 shl: s_14 · (r12 − r11)
        if slot == 7 {
            gate(spec_sel(12))
        } else if slot == 8 {
            r(11)
        } else if slot == 9 {
            minus_one(11)
        } else if slot == 5 {
            gate(spec_sel(14))
        } else if slot == 6 {
            diff(12, 11)
        } else {
            seq![]
        }
    } else {
        seq![]
    }
}

/// The form that slot `slot` places on row `row` of the universal instance.
pub open spec fn universal_form(rc: Seq<Goldilocks>, diag: Seq<Goldilocks>, slot: int, row: int) -> SpecForm {
    if slot == 14 {
        linear_form(rc, row)
    } else if 0 <= slot < 5 {
        family0_form(rc, diag, slot, row)
    } else if 48 <= row < 64 {
        pattern_form(slot, row - 48)
    } else {
        seq![]
    }
}

/// A stored sparse row equals a spec form, entry by entry.
pub open spec fn form_matches(f: Seq<(usize, Goldilocks)>, s: SpecForm) -> bool {
    &&& f.len() == s.len()
    &&& forall|i: int| 0 <= i < f.len() ==> (#[trigger] f[i]).0 == s[i].0 && f[i].1@ == s[i].1
}

/// The term shape of the universal instance.
pub open spec fn universal_multisets() -> Seq<Seq<usize>> {
    seq![seq![0usize, 1], seq![2usize, 3, 4], seq![5usize, 6], seq![7usize, 8, 9], seq![10usize, 11, 12, 13], seq![14usize]]
}

/// `u` is the universal instance for the given Poseidon2 constants.
pub open spec fn is_universal(u: &CCSInstance, c: &Poseidon2Constants) -> bool {
    &&& u.num_rows == NUM_ROWS
    &&& u.num_cols == Z_LEN
    &&& u.matrices@.len() == NUM_MATRICES
    &&& u.multisets@.len() == 6
    &&& forall|j: int| 0 <= j < 6 ==> (#[trigger] u.multisets@[j])@ == universal_multisets()[j]
    &&& u.coeffs@.len() == 6
    &&& forall|j: int| 0 <= j < 6 ==> (#[trigger] u.coeffs@[j])@ == 1
    &&& forall|s: int|
        0 <= s < NUM_MATRICES ==> {
            &&& (#[trigger] u.matrices@[s]).rows == NUM_ROWS
            &&& u.matrices@[s].cols == Z_LEN
            &&& u.matrices@[s].entries@.len() == NUM_ROWS
        }
    &&& forall|s: int, r: int|
        0 <= s < NUM_MATRICES && 0 <= r < NUM_ROWS ==> form_matches(
            #[trigger] u.matrices@[s].row(r),
            universal_form(c.partial_rc@, c.diag@, s, r),
        )
}

} // verus!

verus! {

// ── building the instance ───────────────────────────────────────────────────

/// The coefficient −x for a canonical integer x.
fn negc(x: u64) -> (r: Goldilocks)
    requires
        x < P,
    ensures
        r@ == neg(x as nat),
{
    proof {
        vstd::arithmetic::div_mod::lemma_small_mod(x as nat, modulus());
    }
    Goldilocks::new(x).neg()
}

/// The entry `(col, 1)`.
fn unit(col: usize) -> (e: (usize, Goldilocks))
    ensures
        e.0 == col,
        e.1@ == 1,
{
    (col, Goldilocks::one())
}

/// The entry `(col, −1)`.
fn minus(col: usize) -> (e: (usize, Goldilocks))
    ensures
        e.0 == col,
        e.1@ == neg(1),
{
    (col, negc(1))
}

fn form1(a: (usize, Goldilocks)) -> (f: Vec<(usize, Goldilocks)>)
    ensures
        f@ == seq![a],
{
    let mut f = Vec::new();
    f.push(a);
    proof {
        assert(f@ =~= seq![a]);
    }
    f
}

fn form2(a: (usize, Goldilocks), b: (usize, Goldilocks)) -> (f: Vec<(usize, Goldilocks)>)
    ensures
        f@ == seq![a, b],
{
    let mut f = Vec::new();
    f.push(a);
    f.push(b);
    proof {
        assert(f@ =~= seq![a, b]);
    }
    f
}

fn form3(a: (usize, Goldilocks), b: (usize, Goldilocks), c: (usize, Goldilocks)) -> (f: Vec<(usize, Goldilocks)>)
    ensures
        f@ == seq![a, b, c],
{
    let mut f = Vec::new();
    f.push(a);
    f.push(b);
    f.push(c);
    proof {
        assert(f@ =~= seq![a, b, c]);
    }
    f
}

fn form4(
    a: (usize, Goldilocks),
    b: (usize, Goldilocks),
    c: (usize, Goldilocks),
    d: (usize, Goldilocks),
) -> (f: Vec<(usize, Goldilocks)>)
    ensures
        f@ == seq![a, b, c, d],
{
    let mut f = Vec::new();
    f.push(a);
    f.push(b);
    f.push(c);
    f.push(d);
    proof {
        assert(f@ =~= seq![a, b, c, d]);
    }
    f
}

/// The family-0 form of `slot` (0..5) on `row`.
fn family0_exec(c: &Poseidon2Constants, slot: usize, row: usize) -> (f: Vec<(usize, Goldilocks)>)
    requires
        slot < 5,
        row < NUM_ROWS,
    ensures
        form_matches(f@, family0_form(c.partial_rc@, c.diag@, slot as int, row as int)),
{
    proof {
        P_canonical_literals();
    }
    if row < 18 {
        if slot == 0 {
            form1(unit(sel(row)))
        } else if slot == 1 {
            form2(unit(0), (CONST_IDX, negc(row as u64)))
        } else {
            Vec::new()
        }
    } else if 19 <= row && row < 44 {
        let k = row - 19;
        if slot == 0 {
            form1(unit(round_sel(k)))
        } else if slot == 1 {
            form2(unit(14), (CONST_IDX, negc(k as u64)))
        } else {
            Vec::new()
        }
    } else if row == 48 {
        if slot == 0 || slot == 2 {
            form1(unit(IDX_PI))
        } else if slot == 1 {
            form1(minus(CONST_IDX))
        } else if slot == 3 {
            form1(unit(IDX_Y))
        } else if slot == 4 {
            form2(unit(sk(0)), unit(IDX_RC))
        } else {
            Vec::new()
        }
    } else if row == 49 {
        if slot == 0 {
            form1(unit(IDX_PI))
        } else if slot == 1 {
            form4(
                unit(sk1(0)),
                (IDX_Y, c.diag[0].neg()),
                minus(sk1(1)),
                (sk(1), c.diag[1]),
            )
        } else {
            Vec::new()
        }
    } else if 50 <= row {
        let i = row - 48;
        if slot == 0 {
            form1(unit(IDX_PI))
        } else if slot == 1 {
            form4(
                unit(sk1(i)),
                (sk(i), c.diag[i].neg()),
                minus(sk1(1)),
                (sk(1), c.diag[1]),
            )
        } else {
            Vec::new()
        }
    } else {
        Vec::new()
    }
}

/// The form of the ungated slot P on `row`.
fn linear_exec(c: &Poseidon2Constants, row: usize) -> (f: Vec<(usize, Goldilocks)>)
    requires
        row < NUM_ROWS,
    ensures
        form_matches(f@, linear_form(c.partial_rc@, row as int)),
{
    let mut f: Vec<(usize, Goldilocks)> = Vec::new();
    if row == 18 {
        let mut p: usize = 0;
        while p < NUM_PATTERNS
            invariant
                p <= NUM_PATTERNS,
                f@.len() == p,
                forall|i: int| 0 <= i < p ==> (#[trigger] f@[i]).0 == spec_sel(i as usize) && f@[i].1@ == 1,
            decreases NUM_PATTERNS - p,
        {
            f.push(unit(sel(p)));
            p = p + 1;
        }
        f.push(minus(CONST_IDX));
    } else if row == 44 {
        let mut k: usize = 0;
        while k < NUM_ROUNDS
            invariant
                k <= NUM_ROUNDS,
                f@.len() == k,
                forall|i: int| 0 <= i < k ==> (#[trigger] f@[i]).0 == spec_round_sel(i as usize) && f@[i].1@ == 1,
            decreases NUM_ROUNDS - k,
        {
            f.push(unit(round_sel(k)));
            k = k + 1;
        }
        f.push(minus(sel(15)));
    } else if row == 45 || row == 47 {
        f.push(unit(if row == 45 { IDX_PI } else { IDX_RC }));
        let mut j: usize = 0;
        while j < NUM_PARTIAL
            invariant
                row == 45 || row == 47,
                j <= NUM_PARTIAL,
                f@.len() == j + 1,
                f@[0].0 == (if row == 45 { IDX_PI } else { IDX_RC }),
                f@[0].1@ == 1,
                forall|i: int|
                    1 <= i < j + 1 ==> (#[trigger] f@[i]).0 == spec_round_sel((3 + (i - 1)) as usize)
                        && f@[i].1@ == (if row == 45 { neg(1) } else { neg(c.partial_rc@[i - 1]@) }),
            decreases NUM_PARTIAL - j,
        {
            if row == 45 {
                f.push(minus(round_sel(PARTIAL_FIRST + j)));
            } else {
                f.push((round_sel(PARTIAL_FIRST + j), c.partial_rc[j].neg()));
            }
            j = j + 1;
        }
    } else if row == 46 {
        f = form3(unit(IDX_KAPPA), minus(sel(15)), unit(round_sel(24)));
    }
    f
}

/// The pattern-gadget form of `slot` (5..14) on pattern row `48 + i`.
fn pattern_exec(slot: usize, i: usize) -> (f: Vec<(usize, Goldilocks)>)
    requires
        5 <= slot < 14,
        i < 16,
    ensures
        form_matches(f@, pattern_form(slot as int, i as int)),
{
    if i == 0 {
        if slot == 5 {
            form1(unit(sel(0)))
        } else if slot == 6 {
            form3(unit(9), minus(8), unit(CONST_IDX))
        } else {
            Vec::new()
        }
    } else if i == 1 {
        if slot == 5 {
            form1(unit(sel(1)))
        } else if slot == 6 {
            form2(unit(7), minus(4))
        } else if slot == 7 {
            form1(unit(sel(11)))
        } else if slot == 8 {
            form1(unit(10))
        } else if slot == 9 {
            form2(unit(10), minus(CONST_IDX))
        } else {
            Vec::new()
        }
    } else if i == 2 {
        if slot == 5 || slot == 10 {
            form1(unit(sel(4)))
        } else if slot == 6 {
            form1(unit(10))
        } else if slot == 11 {
            form1(minus(10))
        } else if slot == 12 {
            form1(unit(4))
        } else if slot == 13 {
            form1(unit(5))
        } else {
            Vec::new()
        }
    } else if i == 3 {
        if slot == 7 {
            form1(unit(sel(4)))
        } else if slot == 8 {
            form1(unit(4))
        } else if slot == 9 {
            form2(unit(CONST_IDX), minus(10))
        } else if slot == 5 {
            form1(unit(IDX_KAPPA))
        } else if slot == 6 {
            form3(unit(30), minus(14), minus(CONST_IDX))
        } else {
            Vec::new()
        }
    } else if i == 4 {
        if slot == 5 {
            form1(unit(sel(5)))
        } else if slot == 6 {
            form3(unit(6), minus(4), minus(5))
        } else if slot == 7 {
            form1(unit(sel(11)))
        } else if slot == 8 {
            form1(unit(11))
        } else if slot == 9 {
            form2(unit(11), minus(CONST_IDX))
        } else {
            Vec::new()
        }
    } else if i == 5 {
        if slot == 5 {
            form1(unit(sel(6)))
        } else if slot == 6 {
            form3(unit(6), minus(4), unit(5))
        } else if slot == 7 {
            form1(unit(sel(12)))
        } else if slot == 8 {
            form1(unit(10))
        } else if slot == 9 {
            form2(unit(10), minus(CONST_IDX))
        } else {
            Vec::new()
        }
    } else if i == 6 {
        if slot == 5 || slot == 7 {
            form1(unit(sel(7)))
        } else if slot == 6 {
            form1(unit(6))
        } else if slot == 8 {
            form1(minus(4))
        } else if slot == 9 {
            form1(unit(5))
        } else {
            Vec::new()
        }
    } else if i == 7 {
        if slot == 10 || slot == 7 {
            form1(unit(sel(8)))
        } else if slot == 11 || slot == 12 || slot == 8 {
            form1(unit(6))
        } else if slot == 13 {
            form1(unit(4))
        } else if slot == 9 {
            form1(minus(CONST_IDX))
        } else if slot == 5 {
            form1(unit(sel(13)))
        } else if slot == 6 {
            form1(unit(11))
        } else {
            Vec::new()
        }
    } else if i == 8 {
        if slot == 7 {
            form1(unit(sel(9)))
        } else if slot == 8 {
            form2(unit(4), minus(5))
        } else if slot == 9 {
            form2(unit(CONST_IDX), minus(6))
        } else if slot == 5 {
            form1(unit(sel(16)))
        } else if slot == 6 {
            form1(unit(6))
        } else {
            Vec::new()
        }
    } else if i == 9 {
        if slot == 7 {
            form1(unit(sel(9)))
        } else if slot == 8 {
            form1(unit(6))
        } else if slot == 9 {
            form2(unit(CONST_IDX), minus(6))
        } else {
            Vec::new()
        }
    } else if i == 10 {
        if slot == 7 || slot == 5 {
            form1(unit(sel(9)))
        } else if slot == 8 {
            form2(unit(4), minus(5))
        } else if slot == 9 {
            form1(unit(7))
        } else if slot == 6 {
            form1(minus(6))
        } else {
            Vec::new()
        }
    } else if i == 11 {
        if slot == 7 {
            form1(unit(sel(10)))
        } else if slot == 8 {
            form1(unit(10))
        } else if slot == 9 {
            form2(unit(10), minus(CONST_IDX))
        } else {
            Vec::new()
        }
    } else if i == 12 {
        if slot == 5 || slot == 7 {
            form1(unit(sel(11)))
        } else if slot == 6 {
            form3(unit(10), unit(11), minus(12))
        } else if slot == 8 {
            form1((10, negc(2)))
        } else if slot == 9 {
            form1(unit(11))
        } else {
            Vec::new()
        }
    } else if i == 13 {
        if slot == 7 || slot == 5 {
            form1(unit(sel(12)))
        } else if slot == 8 {
            form1(unit(10))
        } else if slot == 9 {
            form1(unit(11))
        } else if slot == 6 {
            form1(minus(12))
        } else {
            Vec::new()
        }
    } else if i == 14 {
        if slot == 7 {
            form1(unit(sel(10)))
        } else if slot == 8 {
            form1(unit(11))
        } else if slot == 9 {
            form2(unit(11), minus(CONST_IDX))
        } else if slot == 5 {
            form1(unit(sel(13)))
        } else if slot == 6 {
            form3(unit(10), unit(12), minus(CONST_IDX))
        } else {
            Vec::new()
        }
    } else {
        if slot == 7 {
            form1(unit(sel(12)))
        } else if slot == 8 {
            form1(unit(11))
        } else if slot == 9 {
            form2(unit(11), minus(CONST_IDX))
        } else if slot == 5 {
            form1(unit(sel(14)))
        } else if slot == 6 {
            form2(unit(12), minus(11))
        } else {
            Vec::new()
        }
    }
}

/// The form that `slot` places on `row`.
fn form_exec(c: &Poseidon2Constants, slot: usize, row: usize) -> (f: Vec<(usize, Goldilocks)>)
    requires
        slot < NUM_MATRICES,
        row < NUM_ROWS,
    ensures
        form_matches(f@, universal_form(c.partial_rc@, c.diag@, slot as int, row as int)),
{
    if slot == 14 {
        linear_exec(c, row)
    } else if slot < 5 {
        family0_exec(c, slot, row)
    } else if 48 <= row {
        pattern_exec(slot, row - 48)
    } else {
        Vec::new()
    }
}

/// Build the universal instance for the given Poseidon2 constants.
pub fn universal_ccs(c: &Poseidon2Constants) -> (u: CCSInstance)
    ensures
        is_universal(&u, c),
        u.wf(),
{
    let mut matrices: Vec<SparseMatrix> = Vec::new();
    let mut s: usize = 0;
    while s < NUM_MATRICES
        invariant
            s <= NUM_MATRICES,
            matrices@.len() == s,
            forall|t: int|
                0 <= t < s ==> {
                    &&& (#[trigger] matrices@[t]).rows == NUM_ROWS
                    &&& matrices@[t].cols == Z_LEN
                    &&& matrices@[t].entries@.len() == NUM_ROWS
                },
            forall|t: int, r: int|
                0 <= t < s && 0 <= r < NUM_ROWS ==> form_matches(
                    #[trigger] matrices@[t].row(r),
                    universal_form(c.partial_rc@, c.diag@, t, r),
                ),
        decreases NUM_MATRICES - s,
    {
        let mut entries: Vec<Vec<(usize, Goldilocks)>> = Vec::new();
        let mut r: usize = 0;
        while r < NUM_ROWS
            invariant
                s < NUM_MATRICES,
                r <= NUM_ROWS,
                entries@.len() == r,
                forall|q: int|
                    0 <= q < r ==> form_matches(
                        (#[trigger] entries@[q])@,
                        universal_form(c.partial_rc@, c.diag@, s as int, q),
                    ),
            decreases NUM_ROWS - r,
        {
            entries.push(form_exec(c, s, r));
            r = r + 1;
        }
        matrices.push(SparseMatrix { rows: NUM_ROWS, cols: Z_LEN, entries });
        s = s + 1;
    }
    let mut multisets: Vec<Vec<usize>> = Vec::new();
    multisets.push(vec![0, 1]);
    multisets.push(vec![2, 3, 4]);
    multisets.push(vec![5, 6]);
    multisets.push(vec![7, 8, 9]);
    multisets.push(vec![10, 11, 12, 13]);
    multisets.push(vec![14]);
    let mut coeffs: Vec<Goldilocks> = Vec::new();
    let mut j: usize = 0;
    while j < 6
        invariant
            j <= 6,
            coeffs@.len() == j,
            forall|i: int| 0 <= i < j ==> (#[trigger] coeffs@[i])@ == 1,
        decreases 6 - j,
    {
        coeffs.push(Goldilocks::one());
        j = j + 1;
    }
    let u = CCSInstance { matrices, multisets, coeffs, num_rows: NUM_ROWS, num_cols: Z_LEN };
    proof {
        assert(u.multisets@[0]@ =~= universal_multisets()[0]);
        assert(u.multisets@[1]@ =~= universal_multisets()[1]);
        assert(u.multisets@[2]@ =~= universal_multisets()[2]);
        assert(u.multisets@[3]@ =~= universal_multisets()[3]);
        assert(u.multisets@[4]@ =~= universal_multisets()[4]);
        assert(u.multisets@[5]@ =~= universal_multisets()[5]);
    }
    u
}

// ── the witness ──────────────────────────────────────────────────────────────

/// Poseidon2 capacity columns of one witness: state_k[8..16], state_{k+1}[8..16].
#[derive(Clone, Copy, Debug)]
pub struct Capacity {
    pub k: [Goldilocks; 8],
    pub k1: [Goldilocks; 8],
}

/// Entry `i` of the universal witness for the pair (`rt`, `rt1`): the
/// registers, the constant, the selectors derived from r0 and r14, the
/// flags, the round constant, the capacity columns and the S-box inverse.
pub open spec fn universal_z(
    rc: Seq<Goldilocks>,
    rt: Seq<nat>,
    rt1: Seq<nat>,
    caps: Option<CapacityView>,
    i: int,
) -> nat {
    let tag = rt[0];
    let k = rt[14];
    let hash = tag == 15;
    let partial = hash && 3 <= k < 19;
    if 0 <= i < 16 {
        rt[i]
    } else if 16 <= i < 32 {
        rt1[i - 16]
    } else if i == 32 {
        1
    } else if 33 <= i < 51 {
        if tag < 18 && i == 33 + tag { 1 } else { 0 }
    } else if 51 <= i < 76 {
        if hash && k < 25 && i == 51 + k { 1 } else { 0 }
    } else if i == 76 {
        if partial { 1 } else { 0 }
    } else if i == 77 {
        if hash && k < 24 { 1 } else { 0 }
    } else if i == 78 {
        if partial { rc[k - 3]@ } else { 0 }
    } else if 79 <= i < 87 {
        if hash && caps is Some { caps->0.k[i - 79] } else { 0 }
    } else if 87 <= i < 95 {
        if hash && caps is Some { caps->0.k1[i - 87] } else { 0 }
    } else if i == 95 {
        if partial { finv(fadd(rt[4], rc[k - 3]@)) } else { 0 }
    } else {
        0
    }
}

/// Build the universal witness for the pair (row t, row t+1).
///
/// Selectors, round selectors, flags, the round constant and the S-box
/// inverse are derived from the registers; the prover supplies only the
/// capacity columns (needed on hash rows). A tag outside 0..18 or a round
/// index outside 0..25 leaves the one-hot rows unsatisfiable.
pub fn universal_witness(
    c: &Poseidon2Constants,
    regs_t: &[Goldilocks; 16],
    regs_t1: &[Goldilocks; 16],
    caps: Option<&Capacity>,
) -> (w: CCSWitness)
    ensures
        w.z@.len() == Z_LEN,
        forall|i: int|
            0 <= i < Z_LEN ==> #[trigger] w.z@[i]@ == universal_z(
                c.partial_rc@,
                nats(regs_t@),
                nats(regs_t1@),
                option_copy(caps),
                i,
            ),
{
    let ghost cp = option_copy(caps);
    let tag = regs_t[0].as_u64();
    let k = regs_t[14].as_u64();
    let hash = tag == 15;
    let partial = hash && 3 <= k && k < 19;
    let mut z: Vec<Goldilocks> = Vec::new();
    let mut i: usize = 0;
    while i < 32
        invariant
            i <= 32,
            cp == option_copy(caps),
            z@.len() == i,
            forall|q: int| 0 <= q < i ==> #[trigger] z@[q]@ == universal_z(c.partial_rc@, nats(regs_t@), nats(regs_t1@), cp, q),
        decreases 32 - i,
    {
        if i < 16 {
            z.push(regs_t[i]);
        } else {
            z.push(regs_t1[i - 16]);
        }
        i = i + 1;
    }
    z.push(Goldilocks::one());
    let mut p: u64 = 0;
    while p < 18
        invariant
            p <= 18,
            tag == regs_t@[0]@,
            cp == option_copy(caps),
            z@.len() == 33 + p,
            forall|q: int| 0 <= q < 33 + p ==> #[trigger] z@[q]@ == universal_z(c.partial_rc@, nats(regs_t@), nats(regs_t1@), cp, q),
        decreases 18 - p,
    {
        z.push(if tag < 18 && p == tag { Goldilocks::one() } else { Goldilocks::zero() });
        p = p + 1;
    }
    let mut r: u64 = 0;
    while r < 25
        invariant
            r <= 25,
            tag == regs_t@[0]@,
            k == regs_t@[14]@,
            hash == (tag == 15),
            cp == option_copy(caps),
            z@.len() == 51 + r,
            forall|q: int| 0 <= q < 51 + r ==> #[trigger] z@[q]@ == universal_z(c.partial_rc@, nats(regs_t@), nats(regs_t1@), cp, q),
        decreases 25 - r,
    {
        z.push(if hash && k < 25 && r == k { Goldilocks::one() } else { Goldilocks::zero() });
        r = r + 1;
    }
    let rc = if partial { c.partial_rc[(k - 3) as usize] } else { Goldilocks::zero() };
    z.push(if partial { Goldilocks::one() } else { Goldilocks::zero() });
    z.push(if hash && k < 24 { Goldilocks::one() } else { Goldilocks::zero() });
    z.push(rc);
    let mut j: usize = 0;
    while j < 16
        invariant
            j <= 16,
            tag == regs_t@[0]@,
            hash == (tag == 15),
            cp == option_copy(caps),
            partial == (hash && 3 <= regs_t@[14]@ < 19),
            z@.len() == 79 + j,
            forall|q: int| 0 <= q < 79 + j ==> #[trigger] z@[q]@ == universal_z(c.partial_rc@, nats(regs_t@), nats(regs_t1@), cp, q),
        decreases 16 - j,
    {
        let v = match caps {
            Some(cap) => {
                if !hash {
                    Goldilocks::zero()
                } else if j < 8 {
                    cap.k[j]
                } else {
                    cap.k1[j - 8]
                }
            },
            None => Goldilocks::zero(),
        };
        z.push(v);
        j = j + 1;
    }
    z.push(if partial { regs_t[4].add(rc).inv() } else { Goldilocks::zero() });
    proof {
        assert forall|q: int| 0 <= q < Z_LEN implies #[trigger] z@[q]@ == universal_z(c.partial_rc@, nats(regs_t@), nats(regs_t1@), cp, q) by {
            if q < 95 {
            }
        }
    }
    CCSWitness { z }
}

/// The canonical integers of a sequence of field elements.
pub open spec fn nats(s: Seq<Goldilocks>) -> Seq<nat> {
    s.map_values(|g: Goldilocks| g@)
}

/// Capacity columns as integers.
pub ghost struct CapacityView {
    pub k: Seq<nat>,
    pub k1: Seq<nat>,
}

/// The capacity columns as integers.
pub open spec fn cap_nats(c: Capacity) -> CapacityView {
    CapacityView { k: nats(c.k@), k1: nats(c.k1@) }
}

/// The capacity columns of an optional capacity reference, as integers.
pub open spec fn option_copy(caps: Option<&Capacity>) -> Option<CapacityView> {
    match caps {
        Some(x) => Some(cap_nats(*x)),
        None => None,
    }
}

/// The registers of a synthetic Poseidon2 round row for the post-round
/// `state` at round index `k`: r0 = 15, rate in r4-r7 / r10-r13, r14 = k.
pub open spec fn poseidon_regs_spec(state: Seq<nat>, k: nat) -> Seq<nat> {
    Seq::new(
        16,
        |i: int|
            if i == 0 {
                15
            } else if 4 <= i < 8 {
                state[i - 4]
            } else if 10 <= i < 14 {
                state[i - 6]
            } else if i == 14 {
                k % modulus()
            } else {
                0
            },
    )
}

/// Registers of a synthetic Poseidon2 round row: the post-round state laid
/// out as nox lays out a hash row (r0 = 15, rate in r4-r7 / r10-r13,
/// r14 = k), everything else zero.
pub fn poseidon_regs(state: &[Goldilocks; 16], k: u64) -> (r: [Goldilocks; 16])
    ensures
        nats(r@) == poseidon_regs_spec(nats(state@), k as nat),
{
    let mut r = [Goldilocks::zero(); 16];
    r[0] = Goldilocks::new(15);
    let mut i: usize = 0;
    while i < 4
        invariant
            i <= 4,
            r@[0]@ == 15,
            forall|j: int| 0 <= j < i ==> #[trigger] r@[4 + j] == state@[j],
            forall|j: int| 0 <= j < i ==> #[trigger] r@[10 + j] == state@[4 + j],
            forall|j: int| 0 <= j < 16 && j != 0 && !(4 <= j < 4 + i) && !(10 <= j < 10 + i) ==> #[trigger] r@[j]@ == 0,
        decreases 4 - i,
    {
        r[4 + i] = state[i];
        r[10 + i] = state[4 + i];
        i = i + 1;
    }
    r[14] = Goldilocks::new(k);
    proof {
        assert forall|j: int| 0 <= j < 16 implies #[trigger] nats(r@)[j] == poseidon_regs_spec(nats(state@), k as nat)[j] by {
            if 4 <= j < 8 {
                assert(r@[4 + (j - 4)] == state@[j - 4]);
            } else if 10 <= j < 14 {
                assert(r@[10 + (j - 10)] == state@[4 + (j - 10)]);
            }
        }
        assert(nats(r@) =~= poseidon_regs_spec(nats(state@), k as nat));
    }
    r
}

/// Capacity columns from two full 16-element states.
pub fn capacity(state_k: &[Goldilocks; 16], state_k1: &[Goldilocks; 16]) -> (c: Capacity)
    ensures
        forall|i: int| 0 <= i < 8 ==> #[trigger] c.k@[i] == state_k@[8 + i],
        forall|i: int| 0 <= i < 8 ==> #[trigger] c.k1@[i] == state_k1@[8 + i],
{
    let mut c = Capacity { k: [Goldilocks::zero(); 8], k1: [Goldilocks::zero(); 8] };
    let mut i: usize = 0;
    while i < 8
        invariant
            i <= 8,
            forall|j: int| 0 <= j < i ==> #[trigger] c.k@[j] == state_k@[8 + j],
            forall|j: int| 0 <= j < i ==> #[trigger] c.k1@[j] == state_k1@[8 + j],
        decreases 8 - i,
    {
        c.k[i] = state_k[8 + i];
        c.k1[i] = state_k1[8 + i];
        i = i + 1;
    }
    c
}

/// The universal witness of one synthetic Poseidon2 transition
/// state_k → state_{k+1} (round index k) — the row shape shared by the
/// Fiat-Shamir transcript replay and the root chain.
pub fn poseidon_witness(
    c: &Poseidon2Constants,
    state_k: &[Goldilocks; 16],
    state_k1: &[Goldilocks; 16],
    k: u64,
) -> (w: CCSWitness)
    requires
        k < u64::MAX,
    ensures
        w.z@.len() == Z_LEN,
        forall|i: int|
            0 <= i < Z_LEN ==> #[trigger] w.z@[i]@ == universal_z(
                c.partial_rc@,
                poseidon_regs_spec(nats(state_k@), k as nat),
                poseidon_regs_spec(nats(state_k1@), (k + 1) as nat),
                Some(CapacityView { k: nats(state_k@).subrange(8, 16), k1: nats(state_k1@).subrange(8, 16) }),
                i,
            ),
{
    let caps = capacity(state_k, state_k1);
    let rt = poseidon_regs(state_k, k);
    let rt1 = poseidon_regs(state_k1, k + 1);
    let w = universal_witness(c, &rt, &rt1, Some(&caps));
    proof {
        assert(nats(caps.k@) =~= nats(state_k@).subrange(8, 16));
        assert(nats(caps.k1@) =~= nats(state_k1@).subrange(8, 16));
    }
    w
}

/// Facts about small literals used as coefficients.
proof fn P_canonical_literals()
    ensures
        P as nat == modulus(),
{
}

} // verus!

verus! {

// ── what the instance enforces ──────────────────────────────────────────────

/// Σ c · z[col] of a spec form, over the integers.
pub open spec fn form_idot(s: SpecForm, z: Seq<Goldilocks>) -> nat
    decreases s.len(),
{
    if s.len() == 0 {
        0
    } else {
        form_idot(s.drop_last(), z) + s.last().1 * zval(z, s.last().0 as int)
    }
}

/// A stored row that matches a form evaluates to the form's integer dot
/// product reduced modulo p.
pub proof fn lemma_row_dot_form(f: Seq<(usize, Goldilocks)>, s: SpecForm, z: Seq<Goldilocks>)
    requires
        form_matches(f, s),
    ensures
        row_dot(f, z) == form_idot(s, z) % modulus(),
    decreases f.len(),
{
    if f.len() > 0 {
        let f0 = f.drop_last();
        let s0 = s.drop_last();
        assert(form_matches(f0, s0)) by {
            assert forall|i: int| 0 <= i < f0.len() implies (#[trigger] f0[i]).0 == s0[i].0 && f0[i].1@ == s0[i].1 by {
                assert(f0[i] == f[i]);
            }
        }
        lemma_row_dot_form(f0, s0, z);
        let a = form_idot(s0, z);
        let b = s.last().1 * zval(z, s.last().0 as int);
        vstd::arithmetic::div_mod::lemma_add_mod_noop(a as int, b as int, modulus() as int);
        vstd::arithmetic::div_mod::lemma_mod_twice(b as int, modulus() as int);
    }
}

/// The integer value of slot `i` on row `r` of the universal instance.
pub open spec fn slot_value(c: &Poseidon2Constants, z: Seq<Goldilocks>, i: int, r: int) -> nat {
    form_idot(universal_form(c.partial_rc@, c.diag@, i, r), z)
}

/// Row `r` of the universal relation as an integer polynomial in z:
/// A0·B0 + C0·D0·E0 + A1·B1 + C1·D1·E1 + F·G·H·I + P.
pub open spec fn universal_poly(c: &Poseidon2Constants, z: Seq<Goldilocks>, r: int) -> nat {
    let v = |i: int| slot_value(c, z, i, r);
    v(0) * v(1) + v(2) * v(3) * v(4) + v(5) * v(6) + v(7) * v(8) * v(9) + v(10) * v(11) * v(12) * v(13) + v(14)
}

proof fn lemma_fmul_red(x: nat, y: nat)
    ensures
        fmul(x % modulus(), y % modulus()) == (x * y) % modulus(),
        fmul(x % modulus(), y) == (x * y) % modulus(),
{
    vstd::arithmetic::div_mod::lemma_mul_mod_noop(x as int, y as int, modulus() as int);
    vstd::arithmetic::div_mod::lemma_mul_mod_noop_left(x as int, y as int, modulus() as int);
}

proof fn lemma_fadd_red(x: nat, y: nat)
    ensures
        fadd(x % modulus(), y % modulus()) == (x + y) % modulus(),
{
    vstd::arithmetic::div_mod::lemma_add_mod_noop(x as int, y as int, modulus() as int);
}

/// Each row of the universal instance evaluates to its integer polynomial
/// reduced modulo p.
pub proof fn lemma_universal_row(u: &CCSInstance, c: &Poseidon2Constants, z: Seq<Goldilocks>, r: int)
    requires
        is_universal(u, c),
        0 <= r < NUM_ROWS,
    ensures
        u.row_value(z, r) == universal_poly(c, z, r) % modulus(),
{
    let m = modulus();
    let v = |i: int| slot_value(c, z, i, r);
    assert forall|i: int| 0 <= i < NUM_MATRICES implies #[trigger] u.factor(i, z, r) == v(i) % m by {
        lemma_row_dot_form(u.matrices@[i].row(r), universal_form(c.partial_rc@, c.diag@, i, r), z);
    }
    assert(u.num_terms() == 6);
    let ms = universal_multisets();
    assert(u.term_set(0) == ms[0]);
    assert(u.term_set(1) == ms[1]);
    assert(u.term_set(2) == ms[2]);
    assert(u.term_set(3) == ms[3]);
    assert(u.term_set(4) == ms[4]);
    assert(u.term_set(5) == ms[5]);
    assert(ms[0][0] == 0 && ms[0][1] == 1 && ms[0].len() == 2);
    assert(ms[1][0] == 2 && ms[1][1] == 3 && ms[1][2] == 4 && ms[1].len() == 3);
    assert(ms[2][0] == 5 && ms[2][1] == 6 && ms[2].len() == 2);
    assert(ms[3][0] == 7 && ms[3][1] == 8 && ms[3][2] == 9 && ms[3].len() == 3);
    assert(ms[4][0] == 10 && ms[4][1] == 11 && ms[4][2] == 12 && ms[4][3] == 13 && ms[4].len() == 4);
    assert(ms[5][0] == 14 && ms[5].len() == 1);
    assert forall|x: nat| #[trigger] (1 * x) == x by {}
    // products of each term
    vstd::arithmetic::div_mod::lemma_small_mod(1, m);
    lemma_fmul_red(1, v(0));
    lemma_fmul_red(v(0), v(1));
    assert(u.product(ms[0], 0, z, r) == 1);
    let p0 = u.product(ms[0], 2, z, r);
    assert(p0 == (v(0) * v(1)) % m) by {
        assert(u.factor(0, z, r) == v(0) % m);
        assert(u.product(ms[0], 1, z, r) == fmul(1, u.factor(0, z, r)));
        assert(u.product(ms[0], 1, z, r) == v(0) % m);
        assert(u.factor(1, z, r) == v(1) % m);
    }
    assert(u.product(ms[1], 0, z, r) == 1);
    let p1 = u.product(ms[1], 3, z, r);
    assert(p1 == (v(2) * v(3) * v(4)) % m) by {
        lemma_fmul_red(1, v(2));
        assert(u.product(ms[1], 1, z, r) == v(2) % m);
        lemma_fmul_red(v(2), v(3));
        assert(u.product(ms[1], 2, z, r) == (v(2) * v(3)) % m);
        lemma_fmul_red(v(2) * v(3), v(4));
    }
    assert(u.product(ms[2], 0, z, r) == 1);
    let p2 = u.product(ms[2], 2, z, r);
    assert(p2 == (v(5) * v(6)) % m) by {
        lemma_fmul_red(1, v(5));
        assert(u.factor(5, z, r) == v(5) % m);
        assert(u.product(ms[2], 1, z, r) == v(5) % m);
        assert(u.factor(6, z, r) == v(6) % m);
        lemma_fmul_red(v(5), v(6));
    }
    assert(u.product(ms[3], 0, z, r) == 1);
    let p3 = u.product(ms[3], 3, z, r);
    assert(p3 == (v(7) * v(8) * v(9)) % m) by {
        lemma_fmul_red(1, v(7));
        assert(u.product(ms[3], 1, z, r) == v(7) % m);
        lemma_fmul_red(v(7), v(8));
        assert(u.product(ms[3], 2, z, r) == (v(7) * v(8)) % m);
        lemma_fmul_red(v(7) * v(8), v(9));
    }
    assert(u.product(ms[4], 0, z, r) == 1);
    let p4 = u.product(ms[4], 4, z, r);
    assert(p4 == (v(10) * v(11) * v(12) * v(13)) % m) by {
        lemma_fmul_red(1, v(10));
        assert(u.product(ms[4], 1, z, r) == v(10) % m);
        lemma_fmul_red(v(10), v(11));
        assert(u.product(ms[4], 2, z, r) == (v(10) * v(11)) % m);
        lemma_fmul_red(v(10) * v(11), v(12));
        assert(u.product(ms[4], 3, z, r) == (v(10) * v(11) * v(12)) % m);
        lemma_fmul_red(v(10) * v(11) * v(12), v(13));
    }
    assert(u.product(ms[5], 0, z, r) == 1);
    let p5 = u.product(ms[5], 1, z, r);
    assert(p5 == v(14) % m) by {
        lemma_fmul_red(1, v(14));
    }
    // the sum over the six terms, each with coefficient one
    let t0 = v(0) * v(1);
    let t1 = v(2) * v(3) * v(4);
    let t2 = v(5) * v(6);
    let t3 = v(7) * v(8) * v(9);
    let t4 = v(10) * v(11) * v(12) * v(13);
    let t5 = v(14);
    assert forall|x: nat| #[trigger] fmul(1, x % m) == x % m by {
        lemma_fmul_red(1, x);
    }
    vstd::arithmetic::div_mod::lemma_small_mod(0, m);
    assert(u.partial_sum(0, z, r) == 0);
    assert(u.coeffs@[0]@ == 1 && u.coeffs@[1]@ == 1 && u.coeffs@[2]@ == 1);
    assert(u.coeffs@[3]@ == 1 && u.coeffs@[4]@ == 1 && u.coeffs@[5]@ == 1);
    assert(u.product(u.term_set(0), u.term_set(0).len(), z, r) == t0 % m);
    assert(u.product(u.term_set(1), u.term_set(1).len(), z, r) == t1 % m);
    assert(u.product(u.term_set(2), u.term_set(2).len(), z, r) == t2 % m);
    assert(u.product(u.term_set(3), u.term_set(3).len(), z, r) == t3 % m);
    assert(u.product(u.term_set(4), u.term_set(4).len(), z, r) == t4 % m);
    assert(u.product(u.term_set(5), u.term_set(5).len(), z, r) == t5 % m);
    assert(u.partial_sum(1, z, r) == t0 % m) by {
        lemma_fadd_red(0, t0);
    }
    assert(u.partial_sum(2, z, r) == (t0 + t1) % m) by {
        lemma_fadd_red(t0, t1);
    }
    assert(u.partial_sum(3, z, r) == (t0 + t1 + t2) % m) by {
        lemma_fadd_red(t0 + t1, t2);
    }
    assert(u.partial_sum(4, z, r) == (t0 + t1 + t2 + t3) % m) by {
        lemma_fadd_red(t0 + t1 + t2, t3);
    }
    assert(u.partial_sum(5, z, r) == (t0 + t1 + t2 + t3 + t4) % m) by {
        lemma_fadd_red(t0 + t1 + t2 + t3, t4);
    }
    assert(u.partial_sum(6, z, r) == (t0 + t1 + t2 + t3 + t4 + t5) % m) by {
        lemma_fadd_red(t0 + t1 + t2 + t3 + t4, t5);
    }
}

} // verus!
