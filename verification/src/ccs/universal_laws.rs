//! What the universal instance enforces on the witnesses that
//! `universal_witness` builds: for every non-hash pattern tag, exactly that
//! pattern's transition constraints, and nothing for an unknown tag.
use crate::ccs::universal::{
    form_idot, is_universal, lemma_universal_row, neg, pattern_form, slot_value, spec_round_sel,
    spec_sel, universal_form, universal_poly, universal_z, CapacityView, Poseidon2Constants,
    SpecForm, NUM_ROWS, Z_LEN,
};
use crate::field::{fsub, modulus, Goldilocks};
use crate::types::{zval, CCSInstance};
use vstd::arithmetic::div_mod::{lemma_mod_multiples_vanish, lemma_small_mod, lemma_mod_self_0};
use vstd::prelude::*;

verus! {

/// `x ≡ 0 (mod p)`.
pub open spec fn cong0(x: int) -> bool {
    x % (modulus() as int) == 0
}

/// The transition constraints of nox pattern `tag` on the register rows
/// `r` (row t) and `r1` (row t+1), as congruences modulo p.
pub open spec fn pattern_holds(tag: nat, r: Seq<nat>, r1: Seq<nat>) -> bool {
    let x = |i: int| r[i] as int;
    let bit = |i: int| cong0(x(i) * (x(i) - 1));
    if tag == 0 {
        // axis: budget decrement r9 = r8 − 1
        cong0(x(9) - x(8) + 1)
    } else if tag == 1 {
        // quote: r7 = r4
        cong0(x(7) - x(4))
    } else if tag == 4 {
        // branch: r10 · (1 − r4·r5) = 0, r4 · (1 − r10) = 0
        cong0(x(10) * (1 - x(4) * x(5))) && cong0(x(4) * (1 - x(10)))
    } else if tag == 5 {
        // add: r6 = r4 + r5
        cong0(x(6) - x(4) - x(5))
    } else if tag == 6 {
        // sub: r6 = r4 − r5
        cong0(x(6) - x(4) + x(5))
    } else if tag == 7 {
        // mul: r6 = r4 · r5
        cong0(x(6) - x(4) * x(5))
    } else if tag == 8 {
        // inv: r6 · (r6·r4 − 1) = 0
        cong0(x(6) * (x(6) * x(4) - 1))
    } else if tag == 9 {
        // eq: (r4 − r5)(1 − r6) = 0, r6 ∈ {0,1}, (r4 − r5)·r7 = r6
        cong0((x(4) - x(5)) * (1 - x(6))) && cong0(x(6) * (1 - x(6))) && cong0((x(4) - x(5)) * x(7) - x(6))
    } else if tag == 10 {
        // lt: r10, r11 ∈ {0,1}
        bit(10) && bit(11)
    } else if tag == 11 {
        // xor: r12 = r10 + r11 − 2·r10·r11, r10, r11 ∈ {0,1}
        bit(10) && bit(11) && cong0(x(10) + x(11) - x(12) - 2 * x(10) * x(11))
    } else if tag == 12 {
        // and: r12 = r10 · r11, r10, r11 ∈ {0,1}
        bit(10) && bit(11) && cong0(x(10) * x(11) - x(12))
    } else if tag == 13 {
        // not: r12 = 1 − r10, r11 = 0
        cong0(x(10) + x(12) - 1) && cong0(x(11))
    } else if tag == 14 {
        // shl: r12 = r11
        cong0(x(12) - x(11))
    } else if tag == 16 {
        // call: the check result r6 is zero
        cong0(x(6))
    } else {
        // compose, cons, look: no in-row constraint
        true
    }
}

/// `z` is the witness `universal_witness` builds for the register rows
/// `rt`, `rt1` and capacity columns `caps`.
pub open spec fn honest(c: &Poseidon2Constants, z: Seq<Goldilocks>, rt: Seq<nat>, rt1: Seq<nat>, caps: Option<CapacityView>) -> bool {
    &&& z.len() == Z_LEN
    &&& rt.len() == 16
    &&& rt1.len() == 16
    &&& forall|i: int| 0 <= i < Z_LEN ==> #[trigger] z[i]@ == universal_z(c.partial_rc@, rt, rt1, caps, i)
}

proof fn lemma_neg_small(x: nat)
    requires
        0 < x < modulus(),
    ensures
        neg(x) == modulus() - x,
{
    lemma_small_mod(x, modulus());
    lemma_small_mod((modulus() - x) as nat, modulus());
}

proof fn lemma_neg_zero()
    ensures
        neg(0) == 0,
{
    lemma_mod_self_0(modulus() as int);
}

proof fn lemma_idot1(a: (usize, nat), z: Seq<Goldilocks>)
    ensures
        form_idot(seq![a], z) == a.1 * zval(z, a.0 as int),
{
    let s = seq![a];
    assert(s.drop_last() =~= Seq::<(usize, nat)>::empty());
    assert(s.last() == a);
    assert(form_idot(s.drop_last(), z) == 0);
}

proof fn lemma_idot2(a: (usize, nat), b: (usize, nat), z: Seq<Goldilocks>)
    ensures
        form_idot(seq![a, b], z) == a.1 * zval(z, a.0 as int) + b.1 * zval(z, b.0 as int),
{
    let s = seq![a, b];
    assert(s.drop_last() =~= seq![a]);
    assert(s.last() == b);
    lemma_idot1(a, z);
}

proof fn lemma_idot3(a: (usize, nat), b: (usize, nat), c: (usize, nat), z: Seq<Goldilocks>)
    ensures
        form_idot(seq![a, b, c], z) == a.1 * zval(z, a.0 as int) + b.1 * zval(z, b.0 as int) + c.1 * zval(z, c.0 as int),
{
    let s = seq![a, b, c];
    assert(s.drop_last() =~= seq![a, b]);
    assert(s.last() == c);
    lemma_idot2(a, b, z);
}

proof fn lemma_idot_empty(z: Seq<Goldilocks>)
    ensures
        form_idot(Seq::<(usize, nat)>::empty(), z) == 0,
{
}

/// The integer dot product of a form whose columns all read zero is zero.
proof fn lemma_idot_zero(s: SpecForm, z: Seq<Goldilocks>)
    requires
        forall|i: int| 0 <= i < s.len() ==> zval(z, #[trigger] s[i].0 as int) == 0,
    ensures
        form_idot(s, z) == 0,
    decreases s.len(),
{
    if s.len() > 0 {
        let s0 = s.drop_last();
        assert forall|i: int| 0 <= i < s0.len() implies zval(z, #[trigger] s0[i].0 as int) == 0 by {
            assert(s0[i] == s[i]);
        }
        lemma_idot_zero(s0, z);
        assert(zval(z, s.last().0 as int) == 0);
    }
}

/// The sum of the first `n` pattern selectors of an honest witness.
proof fn lemma_selector_sum(c: &Poseidon2Constants, z: Seq<Goldilocks>, rt: Seq<nat>, rt1: Seq<nat>, caps: Option<CapacityView>, n: nat)
    requires
        honest(c, z, rt, rt1, caps),
        n <= 18,
    ensures
        form_idot(Seq::new(n, |p: int| (spec_sel(p as usize), 1nat)), z) == (if rt[0] < n { 1nat } else { 0nat }),
    decreases n,
{
    let s = Seq::new(n, |p: int| (spec_sel(p as usize), 1nat));
    if n > 0 {
        lemma_selector_sum(c, z, rt, rt1, caps, (n - 1) as nat);
        assert(s.drop_last() =~= Seq::new((n - 1) as nat, |p: int| (spec_sel(p as usize), 1nat)));
        let j = 33 + (n - 1);
        assert(z[j]@ == universal_z(c.partial_rc@, rt, rt1, caps, j));
        assert(s.last() == (spec_sel((n - 1) as usize), 1nat));
        assert(spec_sel((n - 1) as usize) as int == j);
        assert(zval(z, j) == (if rt[0] == n - 1 { 1nat } else { 0nat }));
        assert(form_idot(s, z) == form_idot(s.drop_last(), z) + 1 * zval(z, j));
    } else {
        assert(s.len() == 0);
    }
}

/// Rows 0..48 (selector rows, sums, flags) vanish on an honest witness of a
/// known, non-hash tag.
proof fn lemma_low_rows(c: &Poseidon2Constants, z: Seq<Goldilocks>, rt: Seq<nat>, rt1: Seq<nat>, caps: Option<CapacityView>, r: int)
    requires
        honest(c, z, rt, rt1, caps),
        rt[0] < 18,
        rt[0] != 15,
        0 <= r < 48,
    ensures
        universal_poly(c, z, r) % modulus() == 0,
{
    let m = modulus();
    let tag = rt[0];
    let v = |i: int| slot_value(c, z, i, r);
    let rc = c.partial_rc@;
    let diag = c.diag@;
    assert forall|i: int| 2 <= i < 14 implies #[trigger] v(i) == 0 by {
        assert(universal_form(rc, diag, i, r) =~= seq![]);
    }
    assert(universal_poly(c, z, r) == v(0) * v(1) + v(14)) by {
        assert(v(2) == 0 && v(5) == 0 && v(7) == 0 && v(10) == 0);
        vstd::arithmetic::mul::lemma_mul_basics((v(3) * v(4)) as int);
        vstd::arithmetic::mul::lemma_mul_basics(v(6) as int);
        vstd::arithmetic::mul::lemma_mul_basics((v(8) * v(9)) as int);
        vstd::arithmetic::mul::lemma_mul_basics((v(11) * v(12) * v(13)) as int);
        assert(v(2) * v(3) * v(4) == 0) by (nonlinear_arith) requires v(2) == 0;
        assert(v(7) * v(8) * v(9) == 0) by (nonlinear_arith) requires v(7) == 0;
        assert(v(10) * v(11) * v(12) * v(13) == 0) by (nonlinear_arith) requires v(10) == 0;
        assert(v(5) * v(6) == 0) by (nonlinear_arith) requires v(5) == 0;
    }
    assert(z[32]@ == universal_z(rc, rt, rt1, caps, 32));
    assert(zval(z, 32) == 1);
    if r < 18 {
        assert(universal_form(rc, diag, 14, r) =~= seq![]);
        lemma_idot_empty(z);
        lemma_idot1((spec_sel(r as usize), 1nat), z);
        lemma_idot2((0usize, 1nat), (32usize, neg(r as nat)), z);
        assert(universal_form(rc, diag, 0, r) == seq![(spec_sel(r as usize), 1nat)]);
        assert(universal_form(rc, diag, 1, r) == seq![(0usize, 1nat), (32usize, neg(r as nat))]);
        let j = 33 + r;
        assert(spec_sel(r as usize) as int == j);
        vstd::arithmetic::mul::lemma_mul_basics(zval(z, 0) as int);
        vstd::arithmetic::mul::lemma_mul_basics(neg(r as nat) as int);
        assert(v(1) == zval(z, 0) + neg(r as nat));
        vstd::arithmetic::mul::lemma_mul_basics(zval(z, j) as int);
        assert(v(0) == zval(z, j));
        assert(z[j]@ == universal_z(rc, rt, rt1, caps, j));
        assert(z[0]@ == universal_z(rc, rt, rt1, caps, 0));
        assert(zval(z, j) == universal_z(rc, rt, rt1, caps, j));
        assert(zval(z, 0) == tag);
        if r == tag {
            if tag == 0 {
                lemma_neg_zero();
            } else {
                lemma_neg_small(tag);
            }
            assert(v(1) == tag + neg(tag));
            assert(v(1) == m || v(1) == 0);
            assert(v(0) == 1);
            lemma_mod_self_0(m as int);
            lemma_small_mod(0, m);
            assert(universal_poly(c, z, r) == v(1)) by {
                vstd::arithmetic::mul::lemma_mul_basics(v(1) as int);
            }
        } else {
            assert(v(0) == 0);
            assert(universal_poly(c, z, r) == 0) by {
                vstd::arithmetic::mul::lemma_mul_basics(v(1) as int);
            }
            lemma_small_mod(0, m);
        }
    } else if r == 18 {
        lemma_selector_sum(c, z, rt, rt1, caps, 18);
        let s18 = Seq::new(18, |p: int| (spec_sel(p as usize), 1nat));
        assert(universal_form(rc, diag, 14, r) == s18.push((32usize, neg(1))));
        assert(universal_form(rc, diag, 14, r).drop_last() == s18);
        lemma_neg_small(1);
        assert(v(14) == form_idot(s18, z) + neg(1) * zval(z, 32));
        assert(v(14) == 1 + (m - 1) * 1);
        lemma_mod_self_0(m as int);
        assert(universal_form(rc, diag, 0, r) =~= seq![]);
        lemma_idot_empty(z);
        assert(v(0) == 0);
        assert(universal_poly(c, z, r) == m) by {
            vstd::arithmetic::mul::lemma_mul_basics(v(1) as int);
        }
    } else if 19 <= r < 44 {
        let k = r - 19;
        assert(universal_form(rc, diag, 14, r) =~= seq![]);
        let j = 51 + k;
        assert(z[j]@ == universal_z(rc, rt, rt1, caps, j));
        assert(zval(z, j) == universal_z(rc, rt, rt1, caps, j));
        assert(universal_z(rc, rt, rt1, caps, j) == 0);
        lemma_idot_empty(z);
        lemma_idot1((spec_round_sel(k as usize), 1nat), z);
        assert(spec_round_sel(k as usize) as int == j);
        assert(universal_form(rc, diag, 0, r) == seq![(spec_round_sel(k as usize), 1nat)]);
        vstd::arithmetic::mul::lemma_mul_basics(zval(z, j) as int);
        assert(v(0) == 0);
        assert(universal_poly(c, z, r) == 0) by {
            vstd::arithmetic::mul::lemma_mul_basics(v(1) as int);
        }
        lemma_small_mod(0, m);
    } else if 44 <= r < 48 {
        assert(universal_form(rc, diag, 0, r) =~= seq![]);
        assert(universal_form(rc, diag, 1, r) =~= seq![]);
        lemma_idot_empty(z);
        let f = universal_form(rc, diag, 14, r);
        assert forall|i: int| 0 <= i < f.len() implies zval(z, #[trigger] f[i].0 as int) == 0 by {
            let col = f[i].0 as int;
            assert(zval(z, col) == universal_z(rc, rt, rt1, caps, col));
        }
        lemma_idot_zero(f, z);
        assert(v(0) == 0);
        assert(universal_poly(c, z, r) == 0) by {
            vstd::arithmetic::mul::lemma_mul_basics(v(1) as int);
        }
        lemma_small_mod(0, m);
    } else {
        // row 18 handled above; r == 19..48 exhausted
    }
}


/// The entries that the pattern rows read: the registers of both rows, the
/// constant, the pattern selectors and the (cleared) hash flags.
spec fn reads(z: Seq<Goldilocks>, rt: Seq<nat>, rt1: Seq<nat>) -> bool {
    &&& forall|j: int| 0 <= j < 16 ==> #[trigger] zval(z, j) == rt[j]
    &&& forall|j: int| 16 <= j < 32 ==> #[trigger] zval(z, j) == rt1[j - 16]
    &&& forall|j: int| 33 <= j < 51 ==> #[trigger] zval(z, j) == (if rt[0] == j - 33 { 1nat } else { 0nat })
    &&& zval(z, 32) == 1
    &&& zval(z, 76) == 0
    &&& zval(z, 77) == 0
}

/// An honest witness of a known non-hash tag shows the pattern rows the
/// registers, the constant and the selectors.
proof fn lemma_honest_zval(c: &Poseidon2Constants, z: Seq<Goldilocks>, rt: Seq<nat>, rt1: Seq<nat>, caps: Option<CapacityView>)
    requires
        honest(c, z, rt, rt1, caps),
        rt[0] < 18,
        rt[0] != 15,
    ensures
        reads(z, rt, rt1),
{
    let rc = c.partial_rc@;
    assert forall|j: int| 0 <= j < Z_LEN implies #[trigger] zval(z, j) == universal_z(rc, rt, rt1, caps, j) by {
        assert(z[j]@ == universal_z(rc, rt, rt1, caps, j));
    }
    assert(zval(z, 32) == universal_z(rc, rt, rt1, caps, 32));
    assert(zval(z, 76) == universal_z(rc, rt, rt1, caps, 76));
    assert(zval(z, 77) == universal_z(rc, rt, rt1, caps, 77));
}


/// A slot with no form on row `r` contributes zero.
proof fn lemma_slot_empty(c: &Poseidon2Constants, z: Seq<Goldilocks>, k: int, r: int)
    requires
        universal_form(c.partial_rc@, c.diag@, k, r) =~= Seq::<(usize, nat)>::empty(),
    ensures
        slot_value(c, z, k, r) == 0,
{
    lemma_idot_empty(z);
}

/// A one-term slot on row `r`.
proof fn lemma_slot1(c: &Poseidon2Constants, z: Seq<Goldilocks>, k: int, r: int, a: (usize, nat))
    requires
        universal_form(c.partial_rc@, c.diag@, k, r) =~= seq![a],
    ensures
        slot_value(c, z, k, r) == a.1 * zval(z, a.0 as int),
{
    lemma_idot1(a, z);
}

/// A two-term slot on row `r`.
proof fn lemma_slot2(c: &Poseidon2Constants, z: Seq<Goldilocks>, k: int, r: int, a: (usize, nat), b: (usize, nat))
    requires
        universal_form(c.partial_rc@, c.diag@, k, r) =~= seq![a, b],
    ensures
        slot_value(c, z, k, r) == a.1 * zval(z, a.0 as int) + b.1 * zval(z, b.0 as int),
{
    lemma_idot2(a, b, z);
}

/// A three-term slot on row `r`.
proof fn lemma_slot3(c: &Poseidon2Constants, z: Seq<Goldilocks>, k: int, r: int, a: (usize, nat), b: (usize, nat), d: (usize, nat))
    requires
        universal_form(c.partial_rc@, c.diag@, k, r) =~= seq![a, b, d],
    ensures
        slot_value(c, z, k, r) == a.1 * zval(z, a.0 as int) + b.1 * zval(z, b.0 as int) + d.1 * zval(z, d.0 as int),
{
    lemma_idot3(a, b, d, z);
}

/// (a + m·b)(c + m·d) = m·(b·c + a·d + m·b·d) + a·c.
proof fn lemma_shift_product(a: int, b: int, c: int, d: int, m: int)
    ensures
        (a + m * b) * (c + m * d) == m * (b * c + a * d + m * b * d) + a * c,
{
    assert((a + m * b) * (c + m * d) == m * (b * c + a * d + m * b * d) + a * c) by (nonlinear_arith);
}

/// Row `48 + i` of the universal relation on an honest witness of tag
/// `tag`, as an integer polynomial in the registers before reduction; the
/// coefficients −1 and −2 appear as `neg(1)` and `neg(2)`.
pub open spec fn pattern_row(tag: nat, rt: Seq<nat>, rt1: Seq<nat>, i: int) -> int {
    let x = |j: int| rt[j] as int;
    let y = |j: int| rt1[j] as int;
    let sv = |q: nat| if tag == q { 1int } else { 0int };
    if i == 0 {
        sv(0) * (x(9) + neg(1) * x(8) + 1)
    } else if i == 1 {
        sv(1) * (x(7) + neg(1) * x(4))
            + sv(11) * x(10) * (x(10) + neg(1))
    } else if i == 2 {
        sv(4) * x(10)
            + sv(4) * (neg(1) * x(10)) * x(4) * x(5)
    } else if i == 3 {
        sv(4) * x(4) * (1 + neg(1) * x(10))
    } else if i == 4 {
        sv(5) * (x(6) + neg(1) * x(4) + neg(1) * x(5))
            + sv(11) * x(11) * (x(11) + neg(1))
    } else if i == 5 {
        sv(6) * (x(6) + neg(1) * x(4) + x(5))
            + sv(12) * x(10) * (x(10) + neg(1))
    } else if i == 6 {
        sv(7) * x(6)
            + sv(7) * (neg(1) * x(4)) * x(5)
    } else if i == 7 {
        sv(13) * x(11)
            + sv(8) * x(6) * neg(1)
            + sv(8) * x(6) * x(6) * x(4)
    } else if i == 8 {
        sv(16) * x(6)
            + sv(9) * (x(4) + neg(1) * x(5)) * (1 + neg(1) * x(6))
    } else if i == 9 {
        sv(9) * x(6) * (1 + neg(1) * x(6))
    } else if i == 10 {
        sv(9) * (neg(1) * x(6))
            + sv(9) * (x(4) + neg(1) * x(5)) * x(7)
    } else if i == 11 {
        sv(10) * x(10) * (x(10) + neg(1))
    } else if i == 12 {
        sv(11) * (x(10) + x(11) + neg(1) * x(12))
            + sv(11) * (neg(2) * x(10)) * x(11)
    } else if i == 13 {
        sv(12) * (neg(1) * x(12))
            + sv(12) * x(10) * x(11)
    } else if i == 14 {
        sv(13) * (x(10) + x(12) + neg(1))
            + sv(10) * x(11) * (x(11) + neg(1))
    } else if i == 15 {
        sv(14) * (x(12) + neg(1) * x(11))
            + sv(12) * x(11) * (x(11) + neg(1))
    } else {
        0
    }
}

/// Row 48 of the universal relation on a witness that shows the
/// registers, the constant and the selectors.
proof fn lemma_gadget_row_0(c: &Poseidon2Constants, z: Seq<Goldilocks>, rt: Seq<nat>, rt1: Seq<nat>) by (nonlinear_arith)
    requires
        reads(z, rt, rt1),
    ensures
        universal_poly(c, z, 48) as int == pattern_row(rt[0], rt, rt1, 0),
{
    let r = 48int;
    let tag = rt[0];
    let x = |j: int| rt[j] as int;
    let y = |j: int| rt1[j] as int;
    let sv = |q: nat| if tag == q { 1int } else { 0int };
    let v = |s: int| slot_value(c, z, s, r) as int;
    assert(v(0) == 0) by {
        lemma_slot1(c, z, 0, r, (76usize, 1nat));
    }
    assert(v(2) == 0) by {
        lemma_slot1(c, z, 2, r, (76usize, 1nat));
    }
    assert(v(14) == 0) by {
        lemma_slot_empty(c, z, 14, r);
    }
    assert(v(5) == sv(0)) by {
        lemma_slot1(c, z, 5, r, (33usize, 1nat));
    }
    assert(v(6) == x(9) + neg(1) * x(8) + 1) by {
        lemma_slot3(c, z, 6, r, (9usize, 1nat), (8usize, neg(1)), (32usize, 1nat));
    }
    assert(v(7) == 0) by {
        lemma_slot_empty(c, z, 7, r);
    }
    assert(v(8) == 0) by {
        lemma_slot_empty(c, z, 8, r);
    }
    assert(v(9) == 0) by {
        lemma_slot_empty(c, z, 9, r);
    }
    assert(v(10) == 0) by {
        lemma_slot_empty(c, z, 10, r);
    }
    assert(v(11) == 0) by {
        lemma_slot_empty(c, z, 11, r);
    }
    assert(v(12) == 0) by {
        lemma_slot_empty(c, z, 12, r);
    }
    assert(v(13) == 0) by {
        lemma_slot_empty(c, z, 13, r);
    }
    assert(v(0) * v(1) == 0);
    assert(v(2) * v(3) * v(4) == 0);
    assert(v(5) * v(6) == sv(0) * (x(9) + neg(1) * x(8) + 1));
    assert(v(7) * v(8) * v(9) == 0);
    assert(v(10) * v(11) * v(12) * v(13) == 0);
}

/// Row 49 of the universal relation on a witness that shows the
/// registers, the constant and the selectors.
proof fn lemma_gadget_row_1(c: &Poseidon2Constants, z: Seq<Goldilocks>, rt: Seq<nat>, rt1: Seq<nat>) by (nonlinear_arith)
    requires
        reads(z, rt, rt1),
    ensures
        universal_poly(c, z, 49) as int == pattern_row(rt[0], rt, rt1, 1),
{
    let r = 49int;
    let tag = rt[0];
    let x = |j: int| rt[j] as int;
    let y = |j: int| rt1[j] as int;
    let sv = |q: nat| if tag == q { 1int } else { 0int };
    let v = |s: int| slot_value(c, z, s, r) as int;
    assert(v(0) == 0) by {
        lemma_slot1(c, z, 0, r, (76usize, 1nat));
    }
    assert(v(2) == 0) by {
        lemma_slot_empty(c, z, 2, r);
    }
    assert(v(14) == 0) by {
        lemma_slot_empty(c, z, 14, r);
    }
    assert(v(5) == sv(1)) by {
        lemma_slot1(c, z, 5, r, (34usize, 1nat));
    }
    assert(v(6) == x(7) + neg(1) * x(4)) by {
        lemma_slot2(c, z, 6, r, (7usize, 1nat), (4usize, neg(1)));
    }
    assert(v(7) == sv(11)) by {
        lemma_slot1(c, z, 7, r, (44usize, 1nat));
    }
    assert(v(8) == x(10)) by {
        lemma_slot1(c, z, 8, r, (10usize, 1nat));
    }
    assert(v(9) == x(10) + neg(1)) by {
        lemma_slot2(c, z, 9, r, (10usize, 1nat), (32usize, neg(1)));
    }
    assert(v(10) == 0) by {
        lemma_slot_empty(c, z, 10, r);
    }
    assert(v(11) == 0) by {
        lemma_slot_empty(c, z, 11, r);
    }
    assert(v(12) == 0) by {
        lemma_slot_empty(c, z, 12, r);
    }
    assert(v(13) == 0) by {
        lemma_slot_empty(c, z, 13, r);
    }
    assert(v(0) * v(1) == 0);
    assert(v(2) * v(3) * v(4) == 0);
    assert(v(5) * v(6) == sv(1) * (x(7) + neg(1) * x(4)));
    assert(v(7) * v(8) * v(9) == sv(11) * x(10) * (x(10) + neg(1)));
    assert(v(10) * v(11) * v(12) * v(13) == 0);
}

/// Row 50 of the universal relation on a witness that shows the
/// registers, the constant and the selectors.
proof fn lemma_gadget_row_2(c: &Poseidon2Constants, z: Seq<Goldilocks>, rt: Seq<nat>, rt1: Seq<nat>) by (nonlinear_arith)
    requires
        reads(z, rt, rt1),
    ensures
        universal_poly(c, z, 50) as int == pattern_row(rt[0], rt, rt1, 2),
{
    let r = 50int;
    let tag = rt[0];
    let x = |j: int| rt[j] as int;
    let y = |j: int| rt1[j] as int;
    let sv = |q: nat| if tag == q { 1int } else { 0int };
    let v = |s: int| slot_value(c, z, s, r) as int;
    assert(v(0) == 0) by {
        lemma_slot1(c, z, 0, r, (76usize, 1nat));
    }
    assert(v(2) == 0) by {
        lemma_slot_empty(c, z, 2, r);
    }
    assert(v(14) == 0) by {
        lemma_slot_empty(c, z, 14, r);
    }
    assert(v(5) == sv(4)) by {
        lemma_slot1(c, z, 5, r, (37usize, 1nat));
    }
    assert(v(6) == x(10)) by {
        lemma_slot1(c, z, 6, r, (10usize, 1nat));
    }
    assert(v(7) == 0) by {
        lemma_slot_empty(c, z, 7, r);
    }
    assert(v(8) == 0) by {
        lemma_slot_empty(c, z, 8, r);
    }
    assert(v(9) == 0) by {
        lemma_slot_empty(c, z, 9, r);
    }
    assert(v(10) == sv(4)) by {
        lemma_slot1(c, z, 10, r, (37usize, 1nat));
    }
    assert(v(11) == neg(1) * x(10)) by {
        lemma_slot1(c, z, 11, r, (10usize, neg(1)));
    }
    assert(v(12) == x(4)) by {
        lemma_slot1(c, z, 12, r, (4usize, 1nat));
    }
    assert(v(13) == x(5)) by {
        lemma_slot1(c, z, 13, r, (5usize, 1nat));
    }
    assert(v(0) * v(1) == 0);
    assert(v(2) * v(3) * v(4) == 0);
    assert(v(5) * v(6) == sv(4) * x(10));
    assert(v(7) * v(8) * v(9) == 0);
    assert(v(10) * v(11) * v(12) * v(13) == sv(4) * (neg(1) * x(10)) * x(4) * x(5));
}

/// Row 51 of the universal relation on a witness that shows the
/// registers, the constant and the selectors.
proof fn lemma_gadget_row_3(c: &Poseidon2Constants, z: Seq<Goldilocks>, rt: Seq<nat>, rt1: Seq<nat>) by (nonlinear_arith)
    requires
        reads(z, rt, rt1),
    ensures
        universal_poly(c, z, 51) as int == pattern_row(rt[0], rt, rt1, 3),
{
    let r = 51int;
    let tag = rt[0];
    let x = |j: int| rt[j] as int;
    let y = |j: int| rt1[j] as int;
    let sv = |q: nat| if tag == q { 1int } else { 0int };
    let v = |s: int| slot_value(c, z, s, r) as int;
    assert(v(0) == 0) by {
        lemma_slot1(c, z, 0, r, (76usize, 1nat));
    }
    assert(v(2) == 0) by {
        lemma_slot_empty(c, z, 2, r);
    }
    assert(v(14) == 0) by {
        lemma_slot_empty(c, z, 14, r);
    }
    assert(v(5) == 0) by {
        lemma_slot1(c, z, 5, r, (77usize, 1nat));
    }
    assert(v(6) == y(14) + neg(1) * x(14) + neg(1)) by {
        lemma_slot3(c, z, 6, r, (30usize, 1nat), (14usize, neg(1)), (32usize, neg(1)));
    }
    assert(v(7) == sv(4)) by {
        lemma_slot1(c, z, 7, r, (37usize, 1nat));
    }
    assert(v(8) == x(4)) by {
        lemma_slot1(c, z, 8, r, (4usize, 1nat));
    }
    assert(v(9) == 1 + neg(1) * x(10)) by {
        lemma_slot2(c, z, 9, r, (32usize, 1nat), (10usize, neg(1)));
    }
    assert(v(10) == 0) by {
        lemma_slot_empty(c, z, 10, r);
    }
    assert(v(11) == 0) by {
        lemma_slot_empty(c, z, 11, r);
    }
    assert(v(12) == 0) by {
        lemma_slot_empty(c, z, 12, r);
    }
    assert(v(13) == 0) by {
        lemma_slot_empty(c, z, 13, r);
    }
    assert(v(0) * v(1) == 0);
    assert(v(2) * v(3) * v(4) == 0);
    assert(v(5) * v(6) == 0);
    assert(v(7) * v(8) * v(9) == sv(4) * x(4) * (1 + neg(1) * x(10)));
    assert(v(10) * v(11) * v(12) * v(13) == 0);
}

/// Row 52 of the universal relation on a witness that shows the
/// registers, the constant and the selectors.
proof fn lemma_gadget_row_4(c: &Poseidon2Constants, z: Seq<Goldilocks>, rt: Seq<nat>, rt1: Seq<nat>) by (nonlinear_arith)
    requires
        reads(z, rt, rt1),
    ensures
        universal_poly(c, z, 52) as int == pattern_row(rt[0], rt, rt1, 4),
{
    let r = 52int;
    let tag = rt[0];
    let x = |j: int| rt[j] as int;
    let y = |j: int| rt1[j] as int;
    let sv = |q: nat| if tag == q { 1int } else { 0int };
    let v = |s: int| slot_value(c, z, s, r) as int;
    assert(v(0) == 0) by {
        lemma_slot1(c, z, 0, r, (76usize, 1nat));
    }
    assert(v(2) == 0) by {
        lemma_slot_empty(c, z, 2, r);
    }
    assert(v(14) == 0) by {
        lemma_slot_empty(c, z, 14, r);
    }
    assert(v(5) == sv(5)) by {
        lemma_slot1(c, z, 5, r, (38usize, 1nat));
    }
    assert(v(6) == x(6) + neg(1) * x(4) + neg(1) * x(5)) by {
        lemma_slot3(c, z, 6, r, (6usize, 1nat), (4usize, neg(1)), (5usize, neg(1)));
    }
    assert(v(7) == sv(11)) by {
        lemma_slot1(c, z, 7, r, (44usize, 1nat));
    }
    assert(v(8) == x(11)) by {
        lemma_slot1(c, z, 8, r, (11usize, 1nat));
    }
    assert(v(9) == x(11) + neg(1)) by {
        lemma_slot2(c, z, 9, r, (11usize, 1nat), (32usize, neg(1)));
    }
    assert(v(10) == 0) by {
        lemma_slot_empty(c, z, 10, r);
    }
    assert(v(11) == 0) by {
        lemma_slot_empty(c, z, 11, r);
    }
    assert(v(12) == 0) by {
        lemma_slot_empty(c, z, 12, r);
    }
    assert(v(13) == 0) by {
        lemma_slot_empty(c, z, 13, r);
    }
    assert(v(0) * v(1) == 0);
    assert(v(2) * v(3) * v(4) == 0);
    assert(v(5) * v(6) == sv(5) * (x(6) + neg(1) * x(4) + neg(1) * x(5)));
    assert(v(7) * v(8) * v(9) == sv(11) * x(11) * (x(11) + neg(1)));
    assert(v(10) * v(11) * v(12) * v(13) == 0);
}

/// Row 53 of the universal relation on a witness that shows the
/// registers, the constant and the selectors.
proof fn lemma_gadget_row_5(c: &Poseidon2Constants, z: Seq<Goldilocks>, rt: Seq<nat>, rt1: Seq<nat>) by (nonlinear_arith)
    requires
        reads(z, rt, rt1),
    ensures
        universal_poly(c, z, 53) as int == pattern_row(rt[0], rt, rt1, 5),
{
    let r = 53int;
    let tag = rt[0];
    let x = |j: int| rt[j] as int;
    let y = |j: int| rt1[j] as int;
    let sv = |q: nat| if tag == q { 1int } else { 0int };
    let v = |s: int| slot_value(c, z, s, r) as int;
    assert(v(0) == 0) by {
        lemma_slot1(c, z, 0, r, (76usize, 1nat));
    }
    assert(v(2) == 0) by {
        lemma_slot_empty(c, z, 2, r);
    }
    assert(v(14) == 0) by {
        lemma_slot_empty(c, z, 14, r);
    }
    assert(v(5) == sv(6)) by {
        lemma_slot1(c, z, 5, r, (39usize, 1nat));
    }
    assert(v(6) == x(6) + neg(1) * x(4) + x(5)) by {
        lemma_slot3(c, z, 6, r, (6usize, 1nat), (4usize, neg(1)), (5usize, 1nat));
    }
    assert(v(7) == sv(12)) by {
        lemma_slot1(c, z, 7, r, (45usize, 1nat));
    }
    assert(v(8) == x(10)) by {
        lemma_slot1(c, z, 8, r, (10usize, 1nat));
    }
    assert(v(9) == x(10) + neg(1)) by {
        lemma_slot2(c, z, 9, r, (10usize, 1nat), (32usize, neg(1)));
    }
    assert(v(10) == 0) by {
        lemma_slot_empty(c, z, 10, r);
    }
    assert(v(11) == 0) by {
        lemma_slot_empty(c, z, 11, r);
    }
    assert(v(12) == 0) by {
        lemma_slot_empty(c, z, 12, r);
    }
    assert(v(13) == 0) by {
        lemma_slot_empty(c, z, 13, r);
    }
    assert(v(0) * v(1) == 0);
    assert(v(2) * v(3) * v(4) == 0);
    assert(v(5) * v(6) == sv(6) * (x(6) + neg(1) * x(4) + x(5)));
    assert(v(7) * v(8) * v(9) == sv(12) * x(10) * (x(10) + neg(1)));
    assert(v(10) * v(11) * v(12) * v(13) == 0);
}

/// Row 54 of the universal relation on a witness that shows the
/// registers, the constant and the selectors.
proof fn lemma_gadget_row_6(c: &Poseidon2Constants, z: Seq<Goldilocks>, rt: Seq<nat>, rt1: Seq<nat>) by (nonlinear_arith)
    requires
        reads(z, rt, rt1),
    ensures
        universal_poly(c, z, 54) as int == pattern_row(rt[0], rt, rt1, 6),
{
    let r = 54int;
    let tag = rt[0];
    let x = |j: int| rt[j] as int;
    let y = |j: int| rt1[j] as int;
    let sv = |q: nat| if tag == q { 1int } else { 0int };
    let v = |s: int| slot_value(c, z, s, r) as int;
    assert(v(0) == 0) by {
        lemma_slot1(c, z, 0, r, (76usize, 1nat));
    }
    assert(v(2) == 0) by {
        lemma_slot_empty(c, z, 2, r);
    }
    assert(v(14) == 0) by {
        lemma_slot_empty(c, z, 14, r);
    }
    assert(v(5) == sv(7)) by {
        lemma_slot1(c, z, 5, r, (40usize, 1nat));
    }
    assert(v(6) == x(6)) by {
        lemma_slot1(c, z, 6, r, (6usize, 1nat));
    }
    assert(v(7) == sv(7)) by {
        lemma_slot1(c, z, 7, r, (40usize, 1nat));
    }
    assert(v(8) == neg(1) * x(4)) by {
        lemma_slot1(c, z, 8, r, (4usize, neg(1)));
    }
    assert(v(9) == x(5)) by {
        lemma_slot1(c, z, 9, r, (5usize, 1nat));
    }
    assert(v(10) == 0) by {
        lemma_slot_empty(c, z, 10, r);
    }
    assert(v(11) == 0) by {
        lemma_slot_empty(c, z, 11, r);
    }
    assert(v(12) == 0) by {
        lemma_slot_empty(c, z, 12, r);
    }
    assert(v(13) == 0) by {
        lemma_slot_empty(c, z, 13, r);
    }
    assert(v(0) * v(1) == 0);
    assert(v(2) * v(3) * v(4) == 0);
    assert(v(5) * v(6) == sv(7) * x(6));
    assert(v(7) * v(8) * v(9) == sv(7) * (neg(1) * x(4)) * x(5));
    assert(v(10) * v(11) * v(12) * v(13) == 0);
}

/// Row 55 of the universal relation on a witness that shows the
/// registers, the constant and the selectors.
proof fn lemma_gadget_row_7(c: &Poseidon2Constants, z: Seq<Goldilocks>, rt: Seq<nat>, rt1: Seq<nat>) by (nonlinear_arith)
    requires
        reads(z, rt, rt1),
    ensures
        universal_poly(c, z, 55) as int == pattern_row(rt[0], rt, rt1, 7),
{
    let r = 55int;
    let tag = rt[0];
    let x = |j: int| rt[j] as int;
    let y = |j: int| rt1[j] as int;
    let sv = |q: nat| if tag == q { 1int } else { 0int };
    let v = |s: int| slot_value(c, z, s, r) as int;
    assert(v(0) == 0) by {
        lemma_slot1(c, z, 0, r, (76usize, 1nat));
    }
    assert(v(2) == 0) by {
        lemma_slot_empty(c, z, 2, r);
    }
    assert(v(14) == 0) by {
        lemma_slot_empty(c, z, 14, r);
    }
    assert(v(5) == sv(13)) by {
        lemma_slot1(c, z, 5, r, (46usize, 1nat));
    }
    assert(v(6) == x(11)) by {
        lemma_slot1(c, z, 6, r, (11usize, 1nat));
    }
    assert(v(7) == sv(8)) by {
        lemma_slot1(c, z, 7, r, (41usize, 1nat));
    }
    assert(v(8) == x(6)) by {
        lemma_slot1(c, z, 8, r, (6usize, 1nat));
    }
    assert(v(9) == neg(1)) by {
        lemma_slot1(c, z, 9, r, (32usize, neg(1)));
    }
    assert(v(10) == sv(8)) by {
        lemma_slot1(c, z, 10, r, (41usize, 1nat));
    }
    assert(v(11) == x(6)) by {
        lemma_slot1(c, z, 11, r, (6usize, 1nat));
    }
    assert(v(12) == x(6)) by {
        lemma_slot1(c, z, 12, r, (6usize, 1nat));
    }
    assert(v(13) == x(4)) by {
        lemma_slot1(c, z, 13, r, (4usize, 1nat));
    }
    assert(v(0) * v(1) == 0);
    assert(v(2) * v(3) * v(4) == 0);
    assert(v(5) * v(6) == sv(13) * x(11));
    assert(v(7) * v(8) * v(9) == sv(8) * x(6) * neg(1));
    assert(v(10) * v(11) * v(12) * v(13) == sv(8) * x(6) * x(6) * x(4));
}

/// Row 56 of the universal relation on a witness that shows the
/// registers, the constant and the selectors.
proof fn lemma_gadget_row_8(c: &Poseidon2Constants, z: Seq<Goldilocks>, rt: Seq<nat>, rt1: Seq<nat>) by (nonlinear_arith)
    requires
        reads(z, rt, rt1),
    ensures
        universal_poly(c, z, 56) as int == pattern_row(rt[0], rt, rt1, 8),
{
    let r = 56int;
    let tag = rt[0];
    let x = |j: int| rt[j] as int;
    let y = |j: int| rt1[j] as int;
    let sv = |q: nat| if tag == q { 1int } else { 0int };
    let v = |s: int| slot_value(c, z, s, r) as int;
    assert(v(0) == 0) by {
        lemma_slot1(c, z, 0, r, (76usize, 1nat));
    }
    assert(v(2) == 0) by {
        lemma_slot_empty(c, z, 2, r);
    }
    assert(v(14) == 0) by {
        lemma_slot_empty(c, z, 14, r);
    }
    assert(v(5) == sv(16)) by {
        lemma_slot1(c, z, 5, r, (49usize, 1nat));
    }
    assert(v(6) == x(6)) by {
        lemma_slot1(c, z, 6, r, (6usize, 1nat));
    }
    assert(v(7) == sv(9)) by {
        lemma_slot1(c, z, 7, r, (42usize, 1nat));
    }
    assert(v(8) == x(4) + neg(1) * x(5)) by {
        lemma_slot2(c, z, 8, r, (4usize, 1nat), (5usize, neg(1)));
    }
    assert(v(9) == 1 + neg(1) * x(6)) by {
        lemma_slot2(c, z, 9, r, (32usize, 1nat), (6usize, neg(1)));
    }
    assert(v(10) == 0) by {
        lemma_slot_empty(c, z, 10, r);
    }
    assert(v(11) == 0) by {
        lemma_slot_empty(c, z, 11, r);
    }
    assert(v(12) == 0) by {
        lemma_slot_empty(c, z, 12, r);
    }
    assert(v(13) == 0) by {
        lemma_slot_empty(c, z, 13, r);
    }
    assert(v(0) * v(1) == 0);
    assert(v(2) * v(3) * v(4) == 0);
    assert(v(5) * v(6) == sv(16) * x(6));
    assert(v(7) * v(8) * v(9) == sv(9) * (x(4) + neg(1) * x(5)) * (1 + neg(1) * x(6)));
    assert(v(10) * v(11) * v(12) * v(13) == 0);
}

/// Row 57 of the universal relation on a witness that shows the
/// registers, the constant and the selectors.
proof fn lemma_gadget_row_9(c: &Poseidon2Constants, z: Seq<Goldilocks>, rt: Seq<nat>, rt1: Seq<nat>) by (nonlinear_arith)
    requires
        reads(z, rt, rt1),
    ensures
        universal_poly(c, z, 57) as int == pattern_row(rt[0], rt, rt1, 9),
{
    let r = 57int;
    let tag = rt[0];
    let x = |j: int| rt[j] as int;
    let y = |j: int| rt1[j] as int;
    let sv = |q: nat| if tag == q { 1int } else { 0int };
    let v = |s: int| slot_value(c, z, s, r) as int;
    assert(v(0) == 0) by {
        lemma_slot1(c, z, 0, r, (76usize, 1nat));
    }
    assert(v(2) == 0) by {
        lemma_slot_empty(c, z, 2, r);
    }
    assert(v(14) == 0) by {
        lemma_slot_empty(c, z, 14, r);
    }
    assert(v(5) == 0) by {
        lemma_slot_empty(c, z, 5, r);
    }
    assert(v(6) == 0) by {
        lemma_slot_empty(c, z, 6, r);
    }
    assert(v(7) == sv(9)) by {
        lemma_slot1(c, z, 7, r, (42usize, 1nat));
    }
    assert(v(8) == x(6)) by {
        lemma_slot1(c, z, 8, r, (6usize, 1nat));
    }
    assert(v(9) == 1 + neg(1) * x(6)) by {
        lemma_slot2(c, z, 9, r, (32usize, 1nat), (6usize, neg(1)));
    }
    assert(v(10) == 0) by {
        lemma_slot_empty(c, z, 10, r);
    }
    assert(v(11) == 0) by {
        lemma_slot_empty(c, z, 11, r);
    }
    assert(v(12) == 0) by {
        lemma_slot_empty(c, z, 12, r);
    }
    assert(v(13) == 0) by {
        lemma_slot_empty(c, z, 13, r);
    }
    assert(v(0) * v(1) == 0);
    assert(v(2) * v(3) * v(4) == 0);
    assert(v(5) * v(6) == 0);
    assert(v(7) * v(8) * v(9) == sv(9) * x(6) * (1 + neg(1) * x(6)));
    assert(v(10) * v(11) * v(12) * v(13) == 0);
}

/// Row 58 of the universal relation on a witness that shows the
/// registers, the constant and the selectors.
proof fn lemma_gadget_row_10(c: &Poseidon2Constants, z: Seq<Goldilocks>, rt: Seq<nat>, rt1: Seq<nat>) by (nonlinear_arith)
    requires
        reads(z, rt, rt1),
    ensures
        universal_poly(c, z, 58) as int == pattern_row(rt[0], rt, rt1, 10),
{
    let r = 58int;
    let tag = rt[0];
    let x = |j: int| rt[j] as int;
    let y = |j: int| rt1[j] as int;
    let sv = |q: nat| if tag == q { 1int } else { 0int };
    let v = |s: int| slot_value(c, z, s, r) as int;
    assert(v(0) == 0) by {
        lemma_slot1(c, z, 0, r, (76usize, 1nat));
    }
    assert(v(2) == 0) by {
        lemma_slot_empty(c, z, 2, r);
    }
    assert(v(14) == 0) by {
        lemma_slot_empty(c, z, 14, r);
    }
    assert(v(5) == sv(9)) by {
        lemma_slot1(c, z, 5, r, (42usize, 1nat));
    }
    assert(v(6) == neg(1) * x(6)) by {
        lemma_slot1(c, z, 6, r, (6usize, neg(1)));
    }
    assert(v(7) == sv(9)) by {
        lemma_slot1(c, z, 7, r, (42usize, 1nat));
    }
    assert(v(8) == x(4) + neg(1) * x(5)) by {
        lemma_slot2(c, z, 8, r, (4usize, 1nat), (5usize, neg(1)));
    }
    assert(v(9) == x(7)) by {
        lemma_slot1(c, z, 9, r, (7usize, 1nat));
    }
    assert(v(10) == 0) by {
        lemma_slot_empty(c, z, 10, r);
    }
    assert(v(11) == 0) by {
        lemma_slot_empty(c, z, 11, r);
    }
    assert(v(12) == 0) by {
        lemma_slot_empty(c, z, 12, r);
    }
    assert(v(13) == 0) by {
        lemma_slot_empty(c, z, 13, r);
    }
    assert(v(0) * v(1) == 0);
    assert(v(2) * v(3) * v(4) == 0);
    assert(v(5) * v(6) == sv(9) * (neg(1) * x(6)));
    assert(v(7) * v(8) * v(9) == sv(9) * (x(4) + neg(1) * x(5)) * x(7));
    assert(v(10) * v(11) * v(12) * v(13) == 0);
}

/// Row 59 of the universal relation on a witness that shows the
/// registers, the constant and the selectors.
proof fn lemma_gadget_row_11(c: &Poseidon2Constants, z: Seq<Goldilocks>, rt: Seq<nat>, rt1: Seq<nat>) by (nonlinear_arith)
    requires
        reads(z, rt, rt1),
    ensures
        universal_poly(c, z, 59) as int == pattern_row(rt[0], rt, rt1, 11),
{
    let r = 59int;
    let tag = rt[0];
    let x = |j: int| rt[j] as int;
    let y = |j: int| rt1[j] as int;
    let sv = |q: nat| if tag == q { 1int } else { 0int };
    let v = |s: int| slot_value(c, z, s, r) as int;
    assert(v(0) == 0) by {
        lemma_slot1(c, z, 0, r, (76usize, 1nat));
    }
    assert(v(2) == 0) by {
        lemma_slot_empty(c, z, 2, r);
    }
    assert(v(14) == 0) by {
        lemma_slot_empty(c, z, 14, r);
    }
    assert(v(5) == 0) by {
        lemma_slot_empty(c, z, 5, r);
    }
    assert(v(6) == 0) by {
        lemma_slot_empty(c, z, 6, r);
    }
    assert(v(7) == sv(10)) by {
        lemma_slot1(c, z, 7, r, (43usize, 1nat));
    }
    assert(v(8) == x(10)) by {
        lemma_slot1(c, z, 8, r, (10usize, 1nat));
    }
    assert(v(9) == x(10) + neg(1)) by {
        lemma_slot2(c, z, 9, r, (10usize, 1nat), (32usize, neg(1)));
    }
    assert(v(10) == 0) by {
        lemma_slot_empty(c, z, 10, r);
    }
    assert(v(11) == 0) by {
        lemma_slot_empty(c, z, 11, r);
    }
    assert(v(12) == 0) by {
        lemma_slot_empty(c, z, 12, r);
    }
    assert(v(13) == 0) by {
        lemma_slot_empty(c, z, 13, r);
    }
    assert(v(0) * v(1) == 0);
    assert(v(2) * v(3) * v(4) == 0);
    assert(v(5) * v(6) == 0);
    assert(v(7) * v(8) * v(9) == sv(10) * x(10) * (x(10) + neg(1)));
    assert(v(10) * v(11) * v(12) * v(13) == 0);
}

/// Row 60 of the universal relation on a witness that shows the
/// registers, the constant and the selectors.
proof fn lemma_gadget_row_12(c: &Poseidon2Constants, z: Seq<Goldilocks>, rt: Seq<nat>, rt1: Seq<nat>) by (nonlinear_arith)
    requires
        reads(z, rt, rt1),
    ensures
        universal_poly(c, z, 60) as int == pattern_row(rt[0], rt, rt1, 12),
{
    let r = 60int;
    let tag = rt[0];
    let x = |j: int| rt[j] as int;
    let y = |j: int| rt1[j] as int;
    let sv = |q: nat| if tag == q { 1int } else { 0int };
    let v = |s: int| slot_value(c, z, s, r) as int;
    assert(v(0) == 0) by {
        lemma_slot1(c, z, 0, r, (76usize, 1nat));
    }
    assert(v(2) == 0) by {
        lemma_slot_empty(c, z, 2, r);
    }
    assert(v(14) == 0) by {
        lemma_slot_empty(c, z, 14, r);
    }
    assert(v(5) == sv(11)) by {
        lemma_slot1(c, z, 5, r, (44usize, 1nat));
    }
    assert(v(6) == x(10) + x(11) + neg(1) * x(12)) by {
        lemma_slot3(c, z, 6, r, (10usize, 1nat), (11usize, 1nat), (12usize, neg(1)));
    }
    assert(v(7) == sv(11)) by {
        lemma_slot1(c, z, 7, r, (44usize, 1nat));
    }
    assert(v(8) == neg(2) * x(10)) by {
        lemma_slot1(c, z, 8, r, (10usize, neg(2)));
    }
    assert(v(9) == x(11)) by {
        lemma_slot1(c, z, 9, r, (11usize, 1nat));
    }
    assert(v(10) == 0) by {
        lemma_slot_empty(c, z, 10, r);
    }
    assert(v(11) == 0) by {
        lemma_slot_empty(c, z, 11, r);
    }
    assert(v(12) == 0) by {
        lemma_slot_empty(c, z, 12, r);
    }
    assert(v(13) == 0) by {
        lemma_slot_empty(c, z, 13, r);
    }
    assert(v(0) * v(1) == 0);
    assert(v(2) * v(3) * v(4) == 0);
    assert(v(5) * v(6) == sv(11) * (x(10) + x(11) + neg(1) * x(12)));
    assert(v(7) * v(8) * v(9) == sv(11) * (neg(2) * x(10)) * x(11));
    assert(v(10) * v(11) * v(12) * v(13) == 0);
}

/// Row 61 of the universal relation on a witness that shows the
/// registers, the constant and the selectors.
proof fn lemma_gadget_row_13(c: &Poseidon2Constants, z: Seq<Goldilocks>, rt: Seq<nat>, rt1: Seq<nat>) by (nonlinear_arith)
    requires
        reads(z, rt, rt1),
    ensures
        universal_poly(c, z, 61) as int == pattern_row(rt[0], rt, rt1, 13),
{
    let r = 61int;
    let tag = rt[0];
    let x = |j: int| rt[j] as int;
    let y = |j: int| rt1[j] as int;
    let sv = |q: nat| if tag == q { 1int } else { 0int };
    let v = |s: int| slot_value(c, z, s, r) as int;
    assert(v(0) == 0) by {
        lemma_slot1(c, z, 0, r, (76usize, 1nat));
    }
    assert(v(2) == 0) by {
        lemma_slot_empty(c, z, 2, r);
    }
    assert(v(14) == 0) by {
        lemma_slot_empty(c, z, 14, r);
    }
    assert(v(5) == sv(12)) by {
        lemma_slot1(c, z, 5, r, (45usize, 1nat));
    }
    assert(v(6) == neg(1) * x(12)) by {
        lemma_slot1(c, z, 6, r, (12usize, neg(1)));
    }
    assert(v(7) == sv(12)) by {
        lemma_slot1(c, z, 7, r, (45usize, 1nat));
    }
    assert(v(8) == x(10)) by {
        lemma_slot1(c, z, 8, r, (10usize, 1nat));
    }
    assert(v(9) == x(11)) by {
        lemma_slot1(c, z, 9, r, (11usize, 1nat));
    }
    assert(v(10) == 0) by {
        lemma_slot_empty(c, z, 10, r);
    }
    assert(v(11) == 0) by {
        lemma_slot_empty(c, z, 11, r);
    }
    assert(v(12) == 0) by {
        lemma_slot_empty(c, z, 12, r);
    }
    assert(v(13) == 0) by {
        lemma_slot_empty(c, z, 13, r);
    }
    assert(v(0) * v(1) == 0);
    assert(v(2) * v(3) * v(4) == 0);
    assert(v(5) * v(6) == sv(12) * (neg(1) * x(12)));
    assert(v(7) * v(8) * v(9) == sv(12) * x(10) * x(11));
    assert(v(10) * v(11) * v(12) * v(13) == 0);
}

/// Row 62 of the universal relation on a witness that shows the
/// registers, the constant and the selectors.
proof fn lemma_gadget_row_14(c: &Poseidon2Constants, z: Seq<Goldilocks>, rt: Seq<nat>, rt1: Seq<nat>) by (nonlinear_arith)
    requires
        reads(z, rt, rt1),
    ensures
        universal_poly(c, z, 62) as int == pattern_row(rt[0], rt, rt1, 14),
{
    let r = 62int;
    let tag = rt[0];
    let x = |j: int| rt[j] as int;
    let y = |j: int| rt1[j] as int;
    let sv = |q: nat| if tag == q { 1int } else { 0int };
    let v = |s: int| slot_value(c, z, s, r) as int;
    assert(v(0) == 0) by {
        lemma_slot1(c, z, 0, r, (76usize, 1nat));
    }
    assert(v(2) == 0) by {
        lemma_slot_empty(c, z, 2, r);
    }
    assert(v(14) == 0) by {
        lemma_slot_empty(c, z, 14, r);
    }
    assert(v(5) == sv(13)) by {
        lemma_slot1(c, z, 5, r, (46usize, 1nat));
    }
    assert(v(6) == x(10) + x(12) + neg(1)) by {
        lemma_slot3(c, z, 6, r, (10usize, 1nat), (12usize, 1nat), (32usize, neg(1)));
    }
    assert(v(7) == sv(10)) by {
        lemma_slot1(c, z, 7, r, (43usize, 1nat));
    }
    assert(v(8) == x(11)) by {
        lemma_slot1(c, z, 8, r, (11usize, 1nat));
    }
    assert(v(9) == x(11) + neg(1)) by {
        lemma_slot2(c, z, 9, r, (11usize, 1nat), (32usize, neg(1)));
    }
    assert(v(10) == 0) by {
        lemma_slot_empty(c, z, 10, r);
    }
    assert(v(11) == 0) by {
        lemma_slot_empty(c, z, 11, r);
    }
    assert(v(12) == 0) by {
        lemma_slot_empty(c, z, 12, r);
    }
    assert(v(13) == 0) by {
        lemma_slot_empty(c, z, 13, r);
    }
    assert(v(0) * v(1) == 0);
    assert(v(2) * v(3) * v(4) == 0);
    assert(v(5) * v(6) == sv(13) * (x(10) + x(12) + neg(1)));
    assert(v(7) * v(8) * v(9) == sv(10) * x(11) * (x(11) + neg(1)));
    assert(v(10) * v(11) * v(12) * v(13) == 0);
}

/// Row 63 of the universal relation on a witness that shows the
/// registers, the constant and the selectors.
proof fn lemma_gadget_row_15(c: &Poseidon2Constants, z: Seq<Goldilocks>, rt: Seq<nat>, rt1: Seq<nat>) by (nonlinear_arith)
    requires
        reads(z, rt, rt1),
    ensures
        universal_poly(c, z, 63) as int == pattern_row(rt[0], rt, rt1, 15),
{
    let r = 63int;
    let tag = rt[0];
    let x = |j: int| rt[j] as int;
    let y = |j: int| rt1[j] as int;
    let sv = |q: nat| if tag == q { 1int } else { 0int };
    let v = |s: int| slot_value(c, z, s, r) as int;
    assert(v(0) == 0) by {
        lemma_slot1(c, z, 0, r, (76usize, 1nat));
    }
    assert(v(2) == 0) by {
        lemma_slot_empty(c, z, 2, r);
    }
    assert(v(14) == 0) by {
        lemma_slot_empty(c, z, 14, r);
    }
    assert(v(5) == sv(14)) by {
        lemma_slot1(c, z, 5, r, (47usize, 1nat));
    }
    assert(v(6) == x(12) + neg(1) * x(11)) by {
        lemma_slot2(c, z, 6, r, (12usize, 1nat), (11usize, neg(1)));
    }
    assert(v(7) == sv(12)) by {
        lemma_slot1(c, z, 7, r, (45usize, 1nat));
    }
    assert(v(8) == x(11)) by {
        lemma_slot1(c, z, 8, r, (11usize, 1nat));
    }
    assert(v(9) == x(11) + neg(1)) by {
        lemma_slot2(c, z, 9, r, (11usize, 1nat), (32usize, neg(1)));
    }
    assert(v(10) == 0) by {
        lemma_slot_empty(c, z, 10, r);
    }
    assert(v(11) == 0) by {
        lemma_slot_empty(c, z, 11, r);
    }
    assert(v(12) == 0) by {
        lemma_slot_empty(c, z, 12, r);
    }
    assert(v(13) == 0) by {
        lemma_slot_empty(c, z, 13, r);
    }
    assert(v(0) * v(1) == 0);
    assert(v(2) * v(3) * v(4) == 0);
    assert(v(5) * v(6) == sv(14) * (x(12) + neg(1) * x(11)));
    assert(v(7) * v(8) * v(9) == sv(12) * x(11) * (x(11) + neg(1)));
    assert(v(10) * v(11) * v(12) * v(13) == 0);
}

/// The pattern rows of tag 0 vanish modulo p exactly when its
/// transition constraints hold.
proof fn lemma_tag_rows_0(tag: nat, rt: Seq<nat>, rt1: Seq<nat>) by (nonlinear_arith)
    requires
        tag == 0,
    ensures
        (forall|i: int| 0 <= i < 16 ==> cong0(#[trigger] pattern_row(tag, rt, rt1, i))) <==> pattern_holds(tag, rt, rt1),
{
    let m = modulus() as int;
    let n1 = neg(1) as int;
    let n2 = neg(2) as int;
    let x8 = rt[8] as int;
    let x9 = rt[9] as int;
    lemma_neg_small(1);
    lemma_neg_small(2);
    assert(pattern_row(tag, rt, rt1, 0) == 1 * (x9 + n1 * x8 + 1));
    assert(1 * (x9 + n1 * x8 + 1) == m * (x8) + (x9 - x8 + 1));
    lemma_mod_multiples_vanish(x8, x9 - x8 + 1, m);
    assert(pattern_row(tag, rt, rt1, 1) == 0);
    assert(pattern_row(tag, rt, rt1, 2) == 0);
    assert(pattern_row(tag, rt, rt1, 3) == 0);
    assert(pattern_row(tag, rt, rt1, 4) == 0);
    assert(pattern_row(tag, rt, rt1, 5) == 0);
    assert(pattern_row(tag, rt, rt1, 6) == 0);
    assert(pattern_row(tag, rt, rt1, 7) == 0);
    assert(pattern_row(tag, rt, rt1, 8) == 0);
    assert(pattern_row(tag, rt, rt1, 9) == 0);
    assert(pattern_row(tag, rt, rt1, 10) == 0);
    assert(pattern_row(tag, rt, rt1, 11) == 0);
    assert(pattern_row(tag, rt, rt1, 12) == 0);
    assert(pattern_row(tag, rt, rt1, 13) == 0);
    assert(pattern_row(tag, rt, rt1, 14) == 0);
    assert(pattern_row(tag, rt, rt1, 15) == 0);
    if pattern_holds(tag, rt, rt1) {
        assert forall|i: int| 0 <= i < 16 implies cong0(#[trigger] pattern_row(tag, rt, rt1, i)) by {
            if i == 0 {} else if i == 1 {} else if i == 2 {} else if i == 3 {} else if i == 4 {} else if i == 5 {} else if i == 6 {} else if i == 7 {} else if i == 8 {} else if i == 9 {} else if i == 10 {} else if i == 11 {} else if i == 12 {} else if i == 13 {} else if i == 14 {} else if i == 15 {}
        }
    }
}

/// The pattern rows of tag 1 vanish modulo p exactly when its
/// transition constraints hold.
proof fn lemma_tag_rows_1(tag: nat, rt: Seq<nat>, rt1: Seq<nat>) by (nonlinear_arith)
    requires
        tag == 1,
    ensures
        (forall|i: int| 0 <= i < 16 ==> cong0(#[trigger] pattern_row(tag, rt, rt1, i))) <==> pattern_holds(tag, rt, rt1),
{
    let m = modulus() as int;
    let n1 = neg(1) as int;
    let n2 = neg(2) as int;
    let x4 = rt[4] as int;
    let x7 = rt[7] as int;
    let x10 = rt[10] as int;
    lemma_neg_small(1);
    lemma_neg_small(2);
    assert(pattern_row(tag, rt, rt1, 0) == 0);
    assert(pattern_row(tag, rt, rt1, 1) == 1 * (x7 + n1 * x4) + 0 * x10 * (x10 + n1));
    assert(1 * (x7 + n1 * x4) + 0 * x10 * (x10 + n1) == m * (x4) + (x7 - x4));
    lemma_mod_multiples_vanish(x4, x7 - x4, m);
    assert(pattern_row(tag, rt, rt1, 2) == 0);
    assert(pattern_row(tag, rt, rt1, 3) == 0);
    assert(pattern_row(tag, rt, rt1, 4) == 0);
    assert(pattern_row(tag, rt, rt1, 5) == 0);
    assert(pattern_row(tag, rt, rt1, 6) == 0);
    assert(pattern_row(tag, rt, rt1, 7) == 0);
    assert(pattern_row(tag, rt, rt1, 8) == 0);
    assert(pattern_row(tag, rt, rt1, 9) == 0);
    assert(pattern_row(tag, rt, rt1, 10) == 0);
    assert(pattern_row(tag, rt, rt1, 11) == 0);
    assert(pattern_row(tag, rt, rt1, 12) == 0);
    assert(pattern_row(tag, rt, rt1, 13) == 0);
    assert(pattern_row(tag, rt, rt1, 14) == 0);
    assert(pattern_row(tag, rt, rt1, 15) == 0);
    if pattern_holds(tag, rt, rt1) {
        assert forall|i: int| 0 <= i < 16 implies cong0(#[trigger] pattern_row(tag, rt, rt1, i)) by {
            if i == 0 {} else if i == 1 {} else if i == 2 {} else if i == 3 {} else if i == 4 {} else if i == 5 {} else if i == 6 {} else if i == 7 {} else if i == 8 {} else if i == 9 {} else if i == 10 {} else if i == 11 {} else if i == 12 {} else if i == 13 {} else if i == 14 {} else if i == 15 {}
        }
    }
}

/// The pattern rows of tag 2 vanish modulo p exactly when its
/// transition constraints hold.
proof fn lemma_tag_rows_2(tag: nat, rt: Seq<nat>, rt1: Seq<nat>) by (nonlinear_arith)
    requires
        tag == 2,
    ensures
        (forall|i: int| 0 <= i < 16 ==> cong0(#[trigger] pattern_row(tag, rt, rt1, i))) <==> pattern_holds(tag, rt, rt1),
{
    let m = modulus() as int;
    let n1 = neg(1) as int;
    let n2 = neg(2) as int;
    lemma_neg_small(1);
    lemma_neg_small(2);
    assert(pattern_row(tag, rt, rt1, 0) == 0);
    assert(pattern_row(tag, rt, rt1, 1) == 0);
    assert(pattern_row(tag, rt, rt1, 2) == 0);
    assert(pattern_row(tag, rt, rt1, 3) == 0);
    assert(pattern_row(tag, rt, rt1, 4) == 0);
    assert(pattern_row(tag, rt, rt1, 5) == 0);
    assert(pattern_row(tag, rt, rt1, 6) == 0);
    assert(pattern_row(tag, rt, rt1, 7) == 0);
    assert(pattern_row(tag, rt, rt1, 8) == 0);
    assert(pattern_row(tag, rt, rt1, 9) == 0);
    assert(pattern_row(tag, rt, rt1, 10) == 0);
    assert(pattern_row(tag, rt, rt1, 11) == 0);
    assert(pattern_row(tag, rt, rt1, 12) == 0);
    assert(pattern_row(tag, rt, rt1, 13) == 0);
    assert(pattern_row(tag, rt, rt1, 14) == 0);
    assert(pattern_row(tag, rt, rt1, 15) == 0);
    if pattern_holds(tag, rt, rt1) {
        assert forall|i: int| 0 <= i < 16 implies cong0(#[trigger] pattern_row(tag, rt, rt1, i)) by {
            if i == 0 {} else if i == 1 {} else if i == 2 {} else if i == 3 {} else if i == 4 {} else if i == 5 {} else if i == 6 {} else if i == 7 {} else if i == 8 {} else if i == 9 {} else if i == 10 {} else if i == 11 {} else if i == 12 {} else if i == 13 {} else if i == 14 {} else if i == 15 {}
        }
    }
}

/// The pattern rows of tag 3 vanish modulo p exactly when its
/// transition constraints hold.
proof fn lemma_tag_rows_3(tag: nat, rt: Seq<nat>, rt1: Seq<nat>) by (nonlinear_arith)
    requires
        tag == 3,
    ensures
        (forall|i: int| 0 <= i < 16 ==> cong0(#[trigger] pattern_row(tag, rt, rt1, i))) <==> pattern_holds(tag, rt, rt1),
{
    let m = modulus() as int;
    let n1 = neg(1) as int;
    let n2 = neg(2) as int;
    lemma_neg_small(1);
    lemma_neg_small(2);
    assert(pattern_row(tag, rt, rt1, 0) == 0);
    assert(pattern_row(tag, rt, rt1, 1) == 0);
    assert(pattern_row(tag, rt, rt1, 2) == 0);
    assert(pattern_row(tag, rt, rt1, 3) == 0);
    assert(pattern_row(tag, rt, rt1, 4) == 0);
    assert(pattern_row(tag, rt, rt1, 5) == 0);
    assert(pattern_row(tag, rt, rt1, 6) == 0);
    assert(pattern_row(tag, rt, rt1, 7) == 0);
    assert(pattern_row(tag, rt, rt1, 8) == 0);
    assert(pattern_row(tag, rt, rt1, 9) == 0);
    assert(pattern_row(tag, rt, rt1, 10) == 0);
    assert(pattern_row(tag, rt, rt1, 11) == 0);
    assert(pattern_row(tag, rt, rt1, 12) == 0);
    assert(pattern_row(tag, rt, rt1, 13) == 0);
    assert(pattern_row(tag, rt, rt1, 14) == 0);
    assert(pattern_row(tag, rt, rt1, 15) == 0);
    if pattern_holds(tag, rt, rt1) {
        assert forall|i: int| 0 <= i < 16 implies cong0(#[trigger] pattern_row(tag, rt, rt1, i)) by {
            if i == 0 {} else if i == 1 {} else if i == 2 {} else if i == 3 {} else if i == 4 {} else if i == 5 {} else if i == 6 {} else if i == 7 {} else if i == 8 {} else if i == 9 {} else if i == 10 {} else if i == 11 {} else if i == 12 {} else if i == 13 {} else if i == 14 {} else if i == 15 {}
        }
    }
}

/// The pattern rows of tag 4 vanish modulo p exactly when its
/// transition constraints hold.
proof fn lemma_tag_rows_4(tag: nat, rt: Seq<nat>, rt1: Seq<nat>) by (nonlinear_arith)
    requires
        tag == 4,
    ensures
        (forall|i: int| 0 <= i < 16 ==> cong0(#[trigger] pattern_row(tag, rt, rt1, i))) <==> pattern_holds(tag, rt, rt1),
{
    let m = modulus() as int;
    let n1 = neg(1) as int;
    let n2 = neg(2) as int;
    let x4 = rt[4] as int;
    let x5 = rt[5] as int;
    let x10 = rt[10] as int;
    lemma_neg_small(1);
    lemma_neg_small(2);
    assert(pattern_row(tag, rt, rt1, 0) == 0);
    assert(pattern_row(tag, rt, rt1, 1) == 0);
    assert(pattern_row(tag, rt, rt1, 2) == 1 * x10 + 1 * (n1 * x10) * x4 * x5);
    assert(1 * x10 + 1 * (n1 * x10) * x4 * x5 == m * (x10 * x4 * x5) + (x10 * (1 - x4 * x5)));
    lemma_mod_multiples_vanish(x10 * x4 * x5, x10 * (1 - x4 * x5), m);
    assert(pattern_row(tag, rt, rt1, 3) == 1 * x4 * (1 + n1 * x10));
    assert(1 * x4 * (1 + n1 * x10) == m * (x10 * x4) + (x4 * (1 - x10)));
    lemma_mod_multiples_vanish(x10 * x4, x4 * (1 - x10), m);
    assert(pattern_row(tag, rt, rt1, 4) == 0);
    assert(pattern_row(tag, rt, rt1, 5) == 0);
    assert(pattern_row(tag, rt, rt1, 6) == 0);
    assert(pattern_row(tag, rt, rt1, 7) == 0);
    assert(pattern_row(tag, rt, rt1, 8) == 0);
    assert(pattern_row(tag, rt, rt1, 9) == 0);
    assert(pattern_row(tag, rt, rt1, 10) == 0);
    assert(pattern_row(tag, rt, rt1, 11) == 0);
    assert(pattern_row(tag, rt, rt1, 12) == 0);
    assert(pattern_row(tag, rt, rt1, 13) == 0);
    assert(pattern_row(tag, rt, rt1, 14) == 0);
    assert(pattern_row(tag, rt, rt1, 15) == 0);
    if pattern_holds(tag, rt, rt1) {
        assert forall|i: int| 0 <= i < 16 implies cong0(#[trigger] pattern_row(tag, rt, rt1, i)) by {
            if i == 0 {} else if i == 1 {} else if i == 2 {} else if i == 3 {} else if i == 4 {} else if i == 5 {} else if i == 6 {} else if i == 7 {} else if i == 8 {} else if i == 9 {} else if i == 10 {} else if i == 11 {} else if i == 12 {} else if i == 13 {} else if i == 14 {} else if i == 15 {}
        }
    }
}

/// The pattern rows of tag 5 vanish modulo p exactly when its
/// transition constraints hold.
proof fn lemma_tag_rows_5(tag: nat, rt: Seq<nat>, rt1: Seq<nat>) by (nonlinear_arith)
    requires
        tag == 5,
    ensures
        (forall|i: int| 0 <= i < 16 ==> cong0(#[trigger] pattern_row(tag, rt, rt1, i))) <==> pattern_holds(tag, rt, rt1),
{
    let m = modulus() as int;
    let n1 = neg(1) as int;
    let n2 = neg(2) as int;
    let x4 = rt[4] as int;
    let x5 = rt[5] as int;
    let x6 = rt[6] as int;
    let x11 = rt[11] as int;
    lemma_neg_small(1);
    lemma_neg_small(2);
    assert(pattern_row(tag, rt, rt1, 0) == 0);
    assert(pattern_row(tag, rt, rt1, 1) == 0);
    assert(pattern_row(tag, rt, rt1, 2) == 0);
    assert(pattern_row(tag, rt, rt1, 3) == 0);
    assert(pattern_row(tag, rt, rt1, 4) == 1 * (x6 + n1 * x4 + n1 * x5) + 0 * x11 * (x11 + n1));
    assert(1 * (x6 + n1 * x4 + n1 * x5) + 0 * x11 * (x11 + n1) == m * (x4 + x5) + (x6 - x4 - x5));
    lemma_mod_multiples_vanish(x4 + x5, x6 - x4 - x5, m);
    assert(pattern_row(tag, rt, rt1, 5) == 0);
    assert(pattern_row(tag, rt, rt1, 6) == 0);
    assert(pattern_row(tag, rt, rt1, 7) == 0);
    assert(pattern_row(tag, rt, rt1, 8) == 0);
    assert(pattern_row(tag, rt, rt1, 9) == 0);
    assert(pattern_row(tag, rt, rt1, 10) == 0);
    assert(pattern_row(tag, rt, rt1, 11) == 0);
    assert(pattern_row(tag, rt, rt1, 12) == 0);
    assert(pattern_row(tag, rt, rt1, 13) == 0);
    assert(pattern_row(tag, rt, rt1, 14) == 0);
    assert(pattern_row(tag, rt, rt1, 15) == 0);
    if pattern_holds(tag, rt, rt1) {
        assert forall|i: int| 0 <= i < 16 implies cong0(#[trigger] pattern_row(tag, rt, rt1, i)) by {
            if i == 0 {} else if i == 1 {} else if i == 2 {} else if i == 3 {} else if i == 4 {} else if i == 5 {} else if i == 6 {} else if i == 7 {} else if i == 8 {} else if i == 9 {} else if i == 10 {} else if i == 11 {} else if i == 12 {} else if i == 13 {} else if i == 14 {} else if i == 15 {}
        }
    }
}

/// The pattern rows of tag 6 vanish modulo p exactly when its
/// transition constraints hold.
proof fn lemma_tag_rows_6(tag: nat, rt: Seq<nat>, rt1: Seq<nat>) by (nonlinear_arith)
    requires
        tag == 6,
    ensures
        (forall|i: int| 0 <= i < 16 ==> cong0(#[trigger] pattern_row(tag, rt, rt1, i))) <==> pattern_holds(tag, rt, rt1),
{
    let m = modulus() as int;
    let n1 = neg(1) as int;
    let n2 = neg(2) as int;
    let x4 = rt[4] as int;
    let x5 = rt[5] as int;
    let x6 = rt[6] as int;
    let x10 = rt[10] as int;
    lemma_neg_small(1);
    lemma_neg_small(2);
    assert(pattern_row(tag, rt, rt1, 0) == 0);
    assert(pattern_row(tag, rt, rt1, 1) == 0);
    assert(pattern_row(tag, rt, rt1, 2) == 0);
    assert(pattern_row(tag, rt, rt1, 3) == 0);
    assert(pattern_row(tag, rt, rt1, 4) == 0);
    assert(pattern_row(tag, rt, rt1, 5) == 1 * (x6 + n1 * x4 + x5) + 0 * x10 * (x10 + n1));
    assert(1 * (x6 + n1 * x4 + x5) + 0 * x10 * (x10 + n1) == m * (x4) + (x6 - x4 + x5));
    lemma_mod_multiples_vanish(x4, x6 - x4 + x5, m);
    assert(pattern_row(tag, rt, rt1, 6) == 0);
    assert(pattern_row(tag, rt, rt1, 7) == 0);
    assert(pattern_row(tag, rt, rt1, 8) == 0);
    assert(pattern_row(tag, rt, rt1, 9) == 0);
    assert(pattern_row(tag, rt, rt1, 10) == 0);
    assert(pattern_row(tag, rt, rt1, 11) == 0);
    assert(pattern_row(tag, rt, rt1, 12) == 0);
    assert(pattern_row(tag, rt, rt1, 13) == 0);
    assert(pattern_row(tag, rt, rt1, 14) == 0);
    assert(pattern_row(tag, rt, rt1, 15) == 0);
    if pattern_holds(tag, rt, rt1) {
        assert forall|i: int| 0 <= i < 16 implies cong0(#[trigger] pattern_row(tag, rt, rt1, i)) by {
            if i == 0 {} else if i == 1 {} else if i == 2 {} else if i == 3 {} else if i == 4 {} else if i == 5 {} else if i == 6 {} else if i == 7 {} else if i == 8 {} else if i == 9 {} else if i == 10 {} else if i == 11 {} else if i == 12 {} else if i == 13 {} else if i == 14 {} else if i == 15 {}
        }
    }
}

/// The pattern rows of tag 7 vanish modulo p exactly when its
/// transition constraints hold.
proof fn lemma_tag_rows_7(tag: nat, rt: Seq<nat>, rt1: Seq<nat>) by (nonlinear_arith)
    requires
        tag == 7,
    ensures
        (forall|i: int| 0 <= i < 16 ==> cong0(#[trigger] pattern_row(tag, rt, rt1, i))) <==> pattern_holds(tag, rt, rt1),
{
    let m = modulus() as int;
    let n1 = neg(1) as int;
    let n2 = neg(2) as int;
    let x4 = rt[4] as int;
    let x5 = rt[5] as int;
    let x6 = rt[6] as int;
    lemma_neg_small(1);
    lemma_neg_small(2);
    assert(pattern_row(tag, rt, rt1, 0) == 0);
    assert(pattern_row(tag, rt, rt1, 1) == 0);
    assert(pattern_row(tag, rt, rt1, 2) == 0);
    assert(pattern_row(tag, rt, rt1, 3) == 0);
    assert(pattern_row(tag, rt, rt1, 4) == 0);
    assert(pattern_row(tag, rt, rt1, 5) == 0);
    assert(pattern_row(tag, rt, rt1, 6) == 1 * x6 + 1 * (n1 * x4) * x5);
    assert(1 * x6 + 1 * (n1 * x4) * x5 == m * (x4 * x5) + (x6 - x4 * x5));
    lemma_mod_multiples_vanish(x4 * x5, x6 - x4 * x5, m);
    assert(pattern_row(tag, rt, rt1, 7) == 0);
    assert(pattern_row(tag, rt, rt1, 8) == 0);
    assert(pattern_row(tag, rt, rt1, 9) == 0);
    assert(pattern_row(tag, rt, rt1, 10) == 0);
    assert(pattern_row(tag, rt, rt1, 11) == 0);
    assert(pattern_row(tag, rt, rt1, 12) == 0);
    assert(pattern_row(tag, rt, rt1, 13) == 0);
    assert(pattern_row(tag, rt, rt1, 14) == 0);
    assert(pattern_row(tag, rt, rt1, 15) == 0);
    if pattern_holds(tag, rt, rt1) {
        assert forall|i: int| 0 <= i < 16 implies cong0(#[trigger] pattern_row(tag, rt, rt1, i)) by {
            if i == 0 {} else if i == 1 {} else if i == 2 {} else if i == 3 {} else if i == 4 {} else if i == 5 {} else if i == 6 {} else if i == 7 {} else if i == 8 {} else if i == 9 {} else if i == 10 {} else if i == 11 {} else if i == 12 {} else if i == 13 {} else if i == 14 {} else if i == 15 {}
        }
    }
}

/// The pattern rows of tag 8 vanish modulo p exactly when its
/// transition constraints hold.
proof fn lemma_tag_rows_8(tag: nat, rt: Seq<nat>, rt1: Seq<nat>) by (nonlinear_arith)
    requires
        tag == 8,
    ensures
        (forall|i: int| 0 <= i < 16 ==> cong0(#[trigger] pattern_row(tag, rt, rt1, i))) <==> pattern_holds(tag, rt, rt1),
{
    let m = modulus() as int;
    let n1 = neg(1) as int;
    let n2 = neg(2) as int;
    let x4 = rt[4] as int;
    let x6 = rt[6] as int;
    let x11 = rt[11] as int;
    lemma_neg_small(1);
    lemma_neg_small(2);
    assert(pattern_row(tag, rt, rt1, 0) == 0);
    assert(pattern_row(tag, rt, rt1, 1) == 0);
    assert(pattern_row(tag, rt, rt1, 2) == 0);
    assert(pattern_row(tag, rt, rt1, 3) == 0);
    assert(pattern_row(tag, rt, rt1, 4) == 0);
    assert(pattern_row(tag, rt, rt1, 5) == 0);
    assert(pattern_row(tag, rt, rt1, 6) == 0);
    assert(pattern_row(tag, rt, rt1, 7) == 0 * x11 + 1 * x6 * n1 + 1 * x6 * x6 * x4);
    assert(0 * x11 + 1 * x6 * n1 + 1 * x6 * x6 * x4 == m * (x6) + (x6 * (x6 * x4 - 1)));
    lemma_mod_multiples_vanish(x6, x6 * (x6 * x4 - 1), m);
    assert(pattern_row(tag, rt, rt1, 8) == 0);
    assert(pattern_row(tag, rt, rt1, 9) == 0);
    assert(pattern_row(tag, rt, rt1, 10) == 0);
    assert(pattern_row(tag, rt, rt1, 11) == 0);
    assert(pattern_row(tag, rt, rt1, 12) == 0);
    assert(pattern_row(tag, rt, rt1, 13) == 0);
    assert(pattern_row(tag, rt, rt1, 14) == 0);
    assert(pattern_row(tag, rt, rt1, 15) == 0);
    if pattern_holds(tag, rt, rt1) {
        assert forall|i: int| 0 <= i < 16 implies cong0(#[trigger] pattern_row(tag, rt, rt1, i)) by {
            if i == 0 {} else if i == 1 {} else if i == 2 {} else if i == 3 {} else if i == 4 {} else if i == 5 {} else if i == 6 {} else if i == 7 {} else if i == 8 {} else if i == 9 {} else if i == 10 {} else if i == 11 {} else if i == 12 {} else if i == 13 {} else if i == 14 {} else if i == 15 {}
        }
    }
}

/// The pattern rows of tag 9 vanish modulo p exactly when its
/// transition constraints hold.
proof fn lemma_tag_rows_9(tag: nat, rt: Seq<nat>, rt1: Seq<nat>) by (nonlinear_arith)
    requires
        tag == 9,
    ensures
        (forall|i: int| 0 <= i < 16 ==> cong0(#[trigger] pattern_row(tag, rt, rt1, i))) <==> pattern_holds(tag, rt, rt1),
{
    let m = modulus() as int;
    let n1 = neg(1) as int;
    let n2 = neg(2) as int;
    let x4 = rt[4] as int;
    let x5 = rt[5] as int;
    let x6 = rt[6] as int;
    let x7 = rt[7] as int;
    lemma_neg_small(1);
    lemma_neg_small(2);
    assert(pattern_row(tag, rt, rt1, 0) == 0);
    assert(pattern_row(tag, rt, rt1, 1) == 0);
    assert(pattern_row(tag, rt, rt1, 2) == 0);
    assert(pattern_row(tag, rt, rt1, 3) == 0);
    assert(pattern_row(tag, rt, rt1, 4) == 0);
    assert(pattern_row(tag, rt, rt1, 5) == 0);
    assert(pattern_row(tag, rt, rt1, 6) == 0);
    assert(pattern_row(tag, rt, rt1, 7) == 0);
    assert(pattern_row(tag, rt, rt1, 8) == 0 * x6 + 1 * (x4 + n1 * x5) * (1 + n1 * x6));
    assert(x4 + n1 * x5 == (x4 - x5) + m * x5);
    assert(1 + n1 * x6 == (1 - x6) + m * x6);
    lemma_shift_product(x4 - x5, x5, 1 - x6, x6, m);
    assert(0 * x6 + 1 * (x4 + n1 * x5) * (1 + n1 * x6) == m * (x5 * (1 - x6) + (x4 - x5) * x6 + m * x5 * x6) + ((x4 - x5) * (1 - x6)));
    lemma_mod_multiples_vanish(x5 * (1 - x6) + (x4 - x5) * x6 + m * x5 * x6, (x4 - x5) * (1 - x6), m);
    assert(pattern_row(tag, rt, rt1, 9) == 1 * x6 * (1 + n1 * x6));
    assert(1 * x6 * (1 + n1 * x6) == m * (x6 * x6) + (x6 * (1 - x6)));
    lemma_mod_multiples_vanish(x6 * x6, x6 * (1 - x6), m);
    assert(pattern_row(tag, rt, rt1, 10) == 1 * (n1 * x6) + 1 * (x4 + n1 * x5) * x7);
    assert(1 * (n1 * x6) + 1 * (x4 + n1 * x5) * x7 == m * (x6 + x5 * x7) + ((x4 - x5) * x7 - x6));
    lemma_mod_multiples_vanish(x6 + x5 * x7, (x4 - x5) * x7 - x6, m);
    assert(pattern_row(tag, rt, rt1, 11) == 0);
    assert(pattern_row(tag, rt, rt1, 12) == 0);
    assert(pattern_row(tag, rt, rt1, 13) == 0);
    assert(pattern_row(tag, rt, rt1, 14) == 0);
    assert(pattern_row(tag, rt, rt1, 15) == 0);
    if pattern_holds(tag, rt, rt1) {
        assert forall|i: int| 0 <= i < 16 implies cong0(#[trigger] pattern_row(tag, rt, rt1, i)) by {
            if i == 0 {} else if i == 1 {} else if i == 2 {} else if i == 3 {} else if i == 4 {} else if i == 5 {} else if i == 6 {} else if i == 7 {} else if i == 8 {} else if i == 9 {} else if i == 10 {} else if i == 11 {} else if i == 12 {} else if i == 13 {} else if i == 14 {} else if i == 15 {}
        }
    }
}

/// The pattern rows of tag 10 vanish modulo p exactly when its
/// transition constraints hold.
proof fn lemma_tag_rows_10(tag: nat, rt: Seq<nat>, rt1: Seq<nat>) by (nonlinear_arith)
    requires
        tag == 10,
    ensures
        (forall|i: int| 0 <= i < 16 ==> cong0(#[trigger] pattern_row(tag, rt, rt1, i))) <==> pattern_holds(tag, rt, rt1),
{
    let m = modulus() as int;
    let n1 = neg(1) as int;
    let n2 = neg(2) as int;
    let x10 = rt[10] as int;
    let x11 = rt[11] as int;
    let x12 = rt[12] as int;
    lemma_neg_small(1);
    lemma_neg_small(2);
    assert(pattern_row(tag, rt, rt1, 0) == 0);
    assert(pattern_row(tag, rt, rt1, 1) == 0);
    assert(pattern_row(tag, rt, rt1, 2) == 0);
    assert(pattern_row(tag, rt, rt1, 3) == 0);
    assert(pattern_row(tag, rt, rt1, 4) == 0);
    assert(pattern_row(tag, rt, rt1, 5) == 0);
    assert(pattern_row(tag, rt, rt1, 6) == 0);
    assert(pattern_row(tag, rt, rt1, 7) == 0);
    assert(pattern_row(tag, rt, rt1, 8) == 0);
    assert(pattern_row(tag, rt, rt1, 9) == 0);
    assert(pattern_row(tag, rt, rt1, 10) == 0);
    assert(pattern_row(tag, rt, rt1, 11) == 1 * x10 * (x10 + n1));
    assert(1 * x10 * (x10 + n1) == m * (x10) + (x10 * (x10 - 1)));
    lemma_mod_multiples_vanish(x10, x10 * (x10 - 1), m);
    assert(pattern_row(tag, rt, rt1, 12) == 0);
    assert(pattern_row(tag, rt, rt1, 13) == 0);
    assert(pattern_row(tag, rt, rt1, 14) == 0 * (x10 + x12 + n1) + 1 * x11 * (x11 + n1));
    assert(0 * (x10 + x12 + n1) + 1 * x11 * (x11 + n1) == m * (x11) + (x11 * (x11 - 1)));
    lemma_mod_multiples_vanish(x11, x11 * (x11 - 1), m);
    assert(pattern_row(tag, rt, rt1, 15) == 0);
    if pattern_holds(tag, rt, rt1) {
        assert forall|i: int| 0 <= i < 16 implies cong0(#[trigger] pattern_row(tag, rt, rt1, i)) by {
            if i == 0 {} else if i == 1 {} else if i == 2 {} else if i == 3 {} else if i == 4 {} else if i == 5 {} else if i == 6 {} else if i == 7 {} else if i == 8 {} else if i == 9 {} else if i == 10 {} else if i == 11 {} else if i == 12 {} else if i == 13 {} else if i == 14 {} else if i == 15 {}
        }
    }
}

/// The pattern rows of tag 11 vanish modulo p exactly when its
/// transition constraints hold.
proof fn lemma_tag_rows_11(tag: nat, rt: Seq<nat>, rt1: Seq<nat>) by (nonlinear_arith)
    requires
        tag == 11,
    ensures
        (forall|i: int| 0 <= i < 16 ==> cong0(#[trigger] pattern_row(tag, rt, rt1, i))) <==> pattern_holds(tag, rt, rt1),
{
    let m = modulus() as int;
    let n1 = neg(1) as int;
    let n2 = neg(2) as int;
    let x4 = rt[4] as int;
    let x5 = rt[5] as int;
    let x6 = rt[6] as int;
    let x7 = rt[7] as int;
    let x10 = rt[10] as int;
    let x11 = rt[11] as int;
    let x12 = rt[12] as int;
    lemma_neg_small(1);
    lemma_neg_small(2);
    assert(pattern_row(tag, rt, rt1, 0) == 0);
    assert(pattern_row(tag, rt, rt1, 1) == 0 * (x7 + n1 * x4) + 1 * x10 * (x10 + n1));
    assert(0 * (x7 + n1 * x4) + 1 * x10 * (x10 + n1) == m * (x10) + (x10 * (x10 - 1)));
    lemma_mod_multiples_vanish(x10, x10 * (x10 - 1), m);
    assert(pattern_row(tag, rt, rt1, 2) == 0);
    assert(pattern_row(tag, rt, rt1, 3) == 0);
    assert(pattern_row(tag, rt, rt1, 4) == 0 * (x6 + n1 * x4 + n1 * x5) + 1 * x11 * (x11 + n1));
    assert(0 * (x6 + n1 * x4 + n1 * x5) + 1 * x11 * (x11 + n1) == m * (x11) + (x11 * (x11 - 1)));
    lemma_mod_multiples_vanish(x11, x11 * (x11 - 1), m);
    assert(pattern_row(tag, rt, rt1, 5) == 0);
    assert(pattern_row(tag, rt, rt1, 6) == 0);
    assert(pattern_row(tag, rt, rt1, 7) == 0);
    assert(pattern_row(tag, rt, rt1, 8) == 0);
    assert(pattern_row(tag, rt, rt1, 9) == 0);
    assert(pattern_row(tag, rt, rt1, 10) == 0);
    assert(pattern_row(tag, rt, rt1, 11) == 0);
    assert(pattern_row(tag, rt, rt1, 12) == 1 * (x10 + x11 + n1 * x12) + 1 * (n2 * x10) * x11);
    assert(1 * (x10 + x11 + n1 * x12) + 1 * (n2 * x10) * x11 == m * (x12 + x10 * x11) + (x10 + x11 - x12 - 2 * x10 * x11));
    lemma_mod_multiples_vanish(x12 + x10 * x11, x10 + x11 - x12 - 2 * x10 * x11, m);
    assert(pattern_row(tag, rt, rt1, 13) == 0);
    assert(pattern_row(tag, rt, rt1, 14) == 0);
    assert(pattern_row(tag, rt, rt1, 15) == 0);
    if pattern_holds(tag, rt, rt1) {
        assert forall|i: int| 0 <= i < 16 implies cong0(#[trigger] pattern_row(tag, rt, rt1, i)) by {
            if i == 0 {} else if i == 1 {} else if i == 2 {} else if i == 3 {} else if i == 4 {} else if i == 5 {} else if i == 6 {} else if i == 7 {} else if i == 8 {} else if i == 9 {} else if i == 10 {} else if i == 11 {} else if i == 12 {} else if i == 13 {} else if i == 14 {} else if i == 15 {}
        }
    }
}

/// The pattern rows of tag 12 vanish modulo p exactly when its
/// transition constraints hold.
proof fn lemma_tag_rows_12(tag: nat, rt: Seq<nat>, rt1: Seq<nat>) by (nonlinear_arith)
    requires
        tag == 12,
    ensures
        (forall|i: int| 0 <= i < 16 ==> cong0(#[trigger] pattern_row(tag, rt, rt1, i))) <==> pattern_holds(tag, rt, rt1),
{
    let m = modulus() as int;
    let n1 = neg(1) as int;
    let n2 = neg(2) as int;
    let x4 = rt[4] as int;
    let x5 = rt[5] as int;
    let x6 = rt[6] as int;
    let x10 = rt[10] as int;
    let x11 = rt[11] as int;
    let x12 = rt[12] as int;
    lemma_neg_small(1);
    lemma_neg_small(2);
    assert(pattern_row(tag, rt, rt1, 0) == 0);
    assert(pattern_row(tag, rt, rt1, 1) == 0);
    assert(pattern_row(tag, rt, rt1, 2) == 0);
    assert(pattern_row(tag, rt, rt1, 3) == 0);
    assert(pattern_row(tag, rt, rt1, 4) == 0);
    assert(pattern_row(tag, rt, rt1, 5) == 0 * (x6 + n1 * x4 + x5) + 1 * x10 * (x10 + n1));
    assert(0 * (x6 + n1 * x4 + x5) + 1 * x10 * (x10 + n1) == m * (x10) + (x10 * (x10 - 1)));
    lemma_mod_multiples_vanish(x10, x10 * (x10 - 1), m);
    assert(pattern_row(tag, rt, rt1, 6) == 0);
    assert(pattern_row(tag, rt, rt1, 7) == 0);
    assert(pattern_row(tag, rt, rt1, 8) == 0);
    assert(pattern_row(tag, rt, rt1, 9) == 0);
    assert(pattern_row(tag, rt, rt1, 10) == 0);
    assert(pattern_row(tag, rt, rt1, 11) == 0);
    assert(pattern_row(tag, rt, rt1, 12) == 0);
    assert(pattern_row(tag, rt, rt1, 13) == 1 * (n1 * x12) + 1 * x10 * x11);
    assert(1 * (n1 * x12) + 1 * x10 * x11 == m * (x12) + (x10 * x11 - x12));
    lemma_mod_multiples_vanish(x12, x10 * x11 - x12, m);
    assert(pattern_row(tag, rt, rt1, 14) == 0);
    assert(pattern_row(tag, rt, rt1, 15) == 0 * (x12 + n1 * x11) + 1 * x11 * (x11 + n1));
    assert(0 * (x12 + n1 * x11) + 1 * x11 * (x11 + n1) == m * (x11) + (x11 * (x11 - 1)));
    lemma_mod_multiples_vanish(x11, x11 * (x11 - 1), m);
    if pattern_holds(tag, rt, rt1) {
        assert forall|i: int| 0 <= i < 16 implies cong0(#[trigger] pattern_row(tag, rt, rt1, i)) by {
            if i == 0 {} else if i == 1 {} else if i == 2 {} else if i == 3 {} else if i == 4 {} else if i == 5 {} else if i == 6 {} else if i == 7 {} else if i == 8 {} else if i == 9 {} else if i == 10 {} else if i == 11 {} else if i == 12 {} else if i == 13 {} else if i == 14 {} else if i == 15 {}
        }
    }
}

/// The pattern rows of tag 13 vanish modulo p exactly when its
/// transition constraints hold.
proof fn lemma_tag_rows_13(tag: nat, rt: Seq<nat>, rt1: Seq<nat>) by (nonlinear_arith)
    requires
        tag == 13,
    ensures
        (forall|i: int| 0 <= i < 16 ==> cong0(#[trigger] pattern_row(tag, rt, rt1, i))) <==> pattern_holds(tag, rt, rt1),
{
    let m = modulus() as int;
    let n1 = neg(1) as int;
    let n2 = neg(2) as int;
    let x4 = rt[4] as int;
    let x6 = rt[6] as int;
    let x10 = rt[10] as int;
    let x11 = rt[11] as int;
    let x12 = rt[12] as int;
    lemma_neg_small(1);
    lemma_neg_small(2);
    assert(pattern_row(tag, rt, rt1, 0) == 0);
    assert(pattern_row(tag, rt, rt1, 1) == 0);
    assert(pattern_row(tag, rt, rt1, 2) == 0);
    assert(pattern_row(tag, rt, rt1, 3) == 0);
    assert(pattern_row(tag, rt, rt1, 4) == 0);
    assert(pattern_row(tag, rt, rt1, 5) == 0);
    assert(pattern_row(tag, rt, rt1, 6) == 0);
    assert(pattern_row(tag, rt, rt1, 7) == 1 * x11 + 0 * x6 * n1 + 0 * x6 * x6 * x4);
    assert(1 * x11 + 0 * x6 * n1 + 0 * x6 * x6 * x4 == m * ((0)) + (x11));
    lemma_mod_multiples_vanish((0), x11, m);
    assert(pattern_row(tag, rt, rt1, 8) == 0);
    assert(pattern_row(tag, rt, rt1, 9) == 0);
    assert(pattern_row(tag, rt, rt1, 10) == 0);
    assert(pattern_row(tag, rt, rt1, 11) == 0);
    assert(pattern_row(tag, rt, rt1, 12) == 0);
    assert(pattern_row(tag, rt, rt1, 13) == 0);
    assert(pattern_row(tag, rt, rt1, 14) == 1 * (x10 + x12 + n1) + 0 * x11 * (x11 + n1));
    assert(1 * (x10 + x12 + n1) + 0 * x11 * (x11 + n1) == m * ((1)) + (x10 + x12 - 1));
    lemma_mod_multiples_vanish((1), x10 + x12 - 1, m);
    assert(pattern_row(tag, rt, rt1, 15) == 0);
    if pattern_holds(tag, rt, rt1) {
        assert forall|i: int| 0 <= i < 16 implies cong0(#[trigger] pattern_row(tag, rt, rt1, i)) by {
            if i == 0 {} else if i == 1 {} else if i == 2 {} else if i == 3 {} else if i == 4 {} else if i == 5 {} else if i == 6 {} else if i == 7 {} else if i == 8 {} else if i == 9 {} else if i == 10 {} else if i == 11 {} else if i == 12 {} else if i == 13 {} else if i == 14 {} else if i == 15 {}
        }
    }
}

/// The pattern rows of tag 14 vanish modulo p exactly when its
/// transition constraints hold.
proof fn lemma_tag_rows_14(tag: nat, rt: Seq<nat>, rt1: Seq<nat>) by (nonlinear_arith)
    requires
        tag == 14,
    ensures
        (forall|i: int| 0 <= i < 16 ==> cong0(#[trigger] pattern_row(tag, rt, rt1, i))) <==> pattern_holds(tag, rt, rt1),
{
    let m = modulus() as int;
    let n1 = neg(1) as int;
    let n2 = neg(2) as int;
    let x11 = rt[11] as int;
    let x12 = rt[12] as int;
    lemma_neg_small(1);
    lemma_neg_small(2);
    assert(pattern_row(tag, rt, rt1, 0) == 0);
    assert(pattern_row(tag, rt, rt1, 1) == 0);
    assert(pattern_row(tag, rt, rt1, 2) == 0);
    assert(pattern_row(tag, rt, rt1, 3) == 0);
    assert(pattern_row(tag, rt, rt1, 4) == 0);
    assert(pattern_row(tag, rt, rt1, 5) == 0);
    assert(pattern_row(tag, rt, rt1, 6) == 0);
    assert(pattern_row(tag, rt, rt1, 7) == 0);
    assert(pattern_row(tag, rt, rt1, 8) == 0);
    assert(pattern_row(tag, rt, rt1, 9) == 0);
    assert(pattern_row(tag, rt, rt1, 10) == 0);
    assert(pattern_row(tag, rt, rt1, 11) == 0);
    assert(pattern_row(tag, rt, rt1, 12) == 0);
    assert(pattern_row(tag, rt, rt1, 13) == 0);
    assert(pattern_row(tag, rt, rt1, 14) == 0);
    assert(pattern_row(tag, rt, rt1, 15) == 1 * (x12 + n1 * x11) + 0 * x11 * (x11 + n1));
    assert(1 * (x12 + n1 * x11) + 0 * x11 * (x11 + n1) == m * (x11) + (x12 - x11));
    lemma_mod_multiples_vanish(x11, x12 - x11, m);
    if pattern_holds(tag, rt, rt1) {
        assert forall|i: int| 0 <= i < 16 implies cong0(#[trigger] pattern_row(tag, rt, rt1, i)) by {
            if i == 0 {} else if i == 1 {} else if i == 2 {} else if i == 3 {} else if i == 4 {} else if i == 5 {} else if i == 6 {} else if i == 7 {} else if i == 8 {} else if i == 9 {} else if i == 10 {} else if i == 11 {} else if i == 12 {} else if i == 13 {} else if i == 14 {} else if i == 15 {}
        }
    }
}

/// The pattern rows of tag 16 vanish modulo p exactly when its
/// transition constraints hold.
proof fn lemma_tag_rows_16(tag: nat, rt: Seq<nat>, rt1: Seq<nat>) by (nonlinear_arith)
    requires
        tag == 16,
    ensures
        (forall|i: int| 0 <= i < 16 ==> cong0(#[trigger] pattern_row(tag, rt, rt1, i))) <==> pattern_holds(tag, rt, rt1),
{
    let m = modulus() as int;
    let n1 = neg(1) as int;
    let n2 = neg(2) as int;
    let x4 = rt[4] as int;
    let x5 = rt[5] as int;
    let x6 = rt[6] as int;
    lemma_neg_small(1);
    lemma_neg_small(2);
    assert(pattern_row(tag, rt, rt1, 0) == 0);
    assert(pattern_row(tag, rt, rt1, 1) == 0);
    assert(pattern_row(tag, rt, rt1, 2) == 0);
    assert(pattern_row(tag, rt, rt1, 3) == 0);
    assert(pattern_row(tag, rt, rt1, 4) == 0);
    assert(pattern_row(tag, rt, rt1, 5) == 0);
    assert(pattern_row(tag, rt, rt1, 6) == 0);
    assert(pattern_row(tag, rt, rt1, 7) == 0);
    assert(pattern_row(tag, rt, rt1, 8) == 1 * x6 + 0 * (x4 + n1 * x5) * (1 + n1 * x6));
    assert(1 * x6 + 0 * (x4 + n1 * x5) * (1 + n1 * x6) == m * ((0)) + (x6));
    lemma_mod_multiples_vanish((0), x6, m);
    assert(pattern_row(tag, rt, rt1, 9) == 0);
    assert(pattern_row(tag, rt, rt1, 10) == 0);
    assert(pattern_row(tag, rt, rt1, 11) == 0);
    assert(pattern_row(tag, rt, rt1, 12) == 0);
    assert(pattern_row(tag, rt, rt1, 13) == 0);
    assert(pattern_row(tag, rt, rt1, 14) == 0);
    assert(pattern_row(tag, rt, rt1, 15) == 0);
    if pattern_holds(tag, rt, rt1) {
        assert forall|i: int| 0 <= i < 16 implies cong0(#[trigger] pattern_row(tag, rt, rt1, i)) by {
            if i == 0 {} else if i == 1 {} else if i == 2 {} else if i == 3 {} else if i == 4 {} else if i == 5 {} else if i == 6 {} else if i == 7 {} else if i == 8 {} else if i == 9 {} else if i == 10 {} else if i == 11 {} else if i == 12 {} else if i == 13 {} else if i == 14 {} else if i == 15 {}
        }
    }
}

/// The pattern rows of tag 17 vanish modulo p exactly when its
/// transition constraints hold.
proof fn lemma_tag_rows_17(tag: nat, rt: Seq<nat>, rt1: Seq<nat>) by (nonlinear_arith)
    requires
        tag == 17,
    ensures
        (forall|i: int| 0 <= i < 16 ==> cong0(#[trigger] pattern_row(tag, rt, rt1, i))) <==> pattern_holds(tag, rt, rt1),
{
    let m = modulus() as int;
    let n1 = neg(1) as int;
    let n2 = neg(2) as int;
    lemma_neg_small(1);
    lemma_neg_small(2);
    assert(pattern_row(tag, rt, rt1, 0) == 0);
    assert(pattern_row(tag, rt, rt1, 1) == 0);
    assert(pattern_row(tag, rt, rt1, 2) == 0);
    assert(pattern_row(tag, rt, rt1, 3) == 0);
    assert(pattern_row(tag, rt, rt1, 4) == 0);
    assert(pattern_row(tag, rt, rt1, 5) == 0);
    assert(pattern_row(tag, rt, rt1, 6) == 0);
    assert(pattern_row(tag, rt, rt1, 7) == 0);
    assert(pattern_row(tag, rt, rt1, 8) == 0);
    assert(pattern_row(tag, rt, rt1, 9) == 0);
    assert(pattern_row(tag, rt, rt1, 10) == 0);
    assert(pattern_row(tag, rt, rt1, 11) == 0);
    assert(pattern_row(tag, rt, rt1, 12) == 0);
    assert(pattern_row(tag, rt, rt1, 13) == 0);
    assert(pattern_row(tag, rt, rt1, 14) == 0);
    assert(pattern_row(tag, rt, rt1, 15) == 0);
    if pattern_holds(tag, rt, rt1) {
        assert forall|i: int| 0 <= i < 16 implies cong0(#[trigger] pattern_row(tag, rt, rt1, i)) by {
            if i == 0 {} else if i == 1 {} else if i == 2 {} else if i == 3 {} else if i == 4 {} else if i == 5 {} else if i == 6 {} else if i == 7 {} else if i == 8 {} else if i == 9 {} else if i == 10 {} else if i == 11 {} else if i == 12 {} else if i == 13 {} else if i == 14 {} else if i == 15 {}
        }
    }
}

/// Each pattern row of the universal relation, on an honest witness of a
/// known non-hash tag, is the integer polynomial `pattern_row`.
proof fn lemma_pattern_row(c: &Poseidon2Constants, z: Seq<Goldilocks>, rt: Seq<nat>, rt1: Seq<nat>, caps: Option<CapacityView>, i: int)
    requires
        honest(c, z, rt, rt1, caps),
        rt[0] < 18,
        rt[0] != 15,
        0 <= i < 16,
    ensures
        universal_poly(c, z, 48 + i) as int == pattern_row(rt[0], rt, rt1, i),
{
    lemma_honest_zval(c, z, rt, rt1, caps);
    if i == 0 {
        lemma_gadget_row_0(c, z, rt, rt1);
    } else if i == 1 {
        lemma_gadget_row_1(c, z, rt, rt1);
    } else if i == 2 {
        lemma_gadget_row_2(c, z, rt, rt1);
    } else if i == 3 {
        lemma_gadget_row_3(c, z, rt, rt1);
    } else if i == 4 {
        lemma_gadget_row_4(c, z, rt, rt1);
    } else if i == 5 {
        lemma_gadget_row_5(c, z, rt, rt1);
    } else if i == 6 {
        lemma_gadget_row_6(c, z, rt, rt1);
    } else if i == 7 {
        lemma_gadget_row_7(c, z, rt, rt1);
    } else if i == 8 {
        lemma_gadget_row_8(c, z, rt, rt1);
    } else if i == 9 {
        lemma_gadget_row_9(c, z, rt, rt1);
    } else if i == 10 {
        lemma_gadget_row_10(c, z, rt, rt1);
    } else if i == 11 {
        lemma_gadget_row_11(c, z, rt, rt1);
    } else if i == 12 {
        lemma_gadget_row_12(c, z, rt, rt1);
    } else if i == 13 {
        lemma_gadget_row_13(c, z, rt, rt1);
    } else if i == 14 {
        lemma_gadget_row_14(c, z, rt, rt1);
    } else if i == 15 {
        lemma_gadget_row_15(c, z, rt, rt1);
    }
}

/// The pattern rows of a known non-hash tag all vanish modulo p exactly
/// when the pattern's transition constraints hold.
proof fn lemma_pattern_rows(tag: nat, rt: Seq<nat>, rt1: Seq<nat>)
    requires
        tag < 18,
        tag != 15,
    ensures
        (forall|i: int| 0 <= i < 16 ==> cong0(#[trigger] pattern_row(tag, rt, rt1, i))) <==> pattern_holds(tag, rt, rt1),
{
    if tag == 0 {
        lemma_tag_rows_0(tag, rt, rt1);
    } else if tag == 1 {
        lemma_tag_rows_1(tag, rt, rt1);
    } else if tag == 2 {
        lemma_tag_rows_2(tag, rt, rt1);
    } else if tag == 3 {
        lemma_tag_rows_3(tag, rt, rt1);
    } else if tag == 4 {
        lemma_tag_rows_4(tag, rt, rt1);
    } else if tag == 5 {
        lemma_tag_rows_5(tag, rt, rt1);
    } else if tag == 6 {
        lemma_tag_rows_6(tag, rt, rt1);
    } else if tag == 7 {
        lemma_tag_rows_7(tag, rt, rt1);
    } else if tag == 8 {
        lemma_tag_rows_8(tag, rt, rt1);
    } else if tag == 9 {
        lemma_tag_rows_9(tag, rt, rt1);
    } else if tag == 10 {
        lemma_tag_rows_10(tag, rt, rt1);
    } else if tag == 11 {
        lemma_tag_rows_11(tag, rt, rt1);
    } else if tag == 12 {
        lemma_tag_rows_12(tag, rt, rt1);
    } else if tag == 13 {
        lemma_tag_rows_13(tag, rt, rt1);
    } else if tag == 14 {
        lemma_tag_rows_14(tag, rt, rt1);
    } else if tag == 16 {
        lemma_tag_rows_16(tag, rt, rt1);
    } else if tag == 17 {
        lemma_tag_rows_17(tag, rt, rt1);
    }
}

/// On the witness that `universal_witness` builds for a known pattern other
/// than hash, the universal instance is satisfied exactly when that
/// pattern's transition constraints hold on the two register rows.
pub proof fn lemma_universal_pattern(
    u: &CCSInstance,
    c: &Poseidon2Constants,
    z: Seq<Goldilocks>,
    rt: Seq<nat>,
    rt1: Seq<nat>,
    caps: Option<CapacityView>,
)
    requires
        is_universal(u, c),
        honest(c, z, rt, rt1, caps),
        rt[0] < 18,
        rt[0] != 15,
    ensures
        u.satisfied(z) <==> pattern_holds(rt[0], rt, rt1),
{
    let m = modulus();
    let tag = rt[0];
    assert forall|r: int| 0 <= r < 48 implies #[trigger] u.row_value(z, r) == 0 by {
        lemma_universal_row(u, c, z, r);
        lemma_low_rows(c, z, rt, rt1, caps, r);
    }
    assert forall|i: int| 0 <= i < 16 implies #[trigger] u.row_value(z, 48 + i) == pattern_row(tag, rt, rt1, i) % (m as int) by {
        lemma_universal_row(u, c, z, 48 + i);
        lemma_pattern_row(c, z, rt, rt1, caps, i);
    }
    lemma_pattern_rows(tag, rt, rt1);
    if pattern_holds(tag, rt, rt1) {
        assert forall|r: int| 0 <= r < u.num_rows implies #[trigger] u.row_value(z, r) == 0 by {
            if r >= 48 {
                assert(u.row_value(z, 48 + (r - 48)) == pattern_row(tag, rt, rt1, r - 48) % (m as int));
                assert(cong0(pattern_row(tag, rt, rt1, r - 48)));
            }
        }
    }
    if u.satisfied(z) {
        assert forall|i: int| 0 <= i < 16 implies cong0(#[trigger] pattern_row(tag, rt, rt1, i)) by {
            assert(u.row_value(z, 48 + i) == 0);
        }
    }
}

/// On the witness that `universal_witness` builds for a tag outside the
/// pattern range, no selector is set and the instance is not satisfied.
pub proof fn lemma_universal_unknown_tag(
    u: &CCSInstance,
    c: &Poseidon2Constants,
    z: Seq<Goldilocks>,
    rt: Seq<nat>,
    rt1: Seq<nat>,
    caps: Option<CapacityView>,
)
    requires
        is_universal(u, c),
        honest(c, z, rt, rt1, caps),
        rt[0] >= 18,
    ensures
        forall|p: int| 0 <= p < 18 ==> zval(z, #[trigger] spec_sel(p as usize) as int) == 0,
        !u.satisfied(z),
{
    let m = modulus();
    let rc = c.partial_rc@;
    let diag = c.diag@;
    assert forall|p: int| 0 <= p < 18 implies zval(z, #[trigger] spec_sel(p as usize) as int) == 0 by {
        let j = spec_sel(p as usize) as int;
        assert(z[j]@ == universal_z(rc, rt, rt1, caps, j));
    }
    let s18 = Seq::new(18, |p: int| (spec_sel(p as usize), 1nat));
    assert(form_idot(s18, z) == 0) by {
        lemma_idot_zero(s18, z);
    }
    let v = |i: int| slot_value(c, z, i, 18);
    assert forall|i: int| 0 <= i < 14 implies #[trigger] v(i) == 0 by {
        assert(universal_form(rc, diag, i, 18) =~= seq![]);
        lemma_idot_empty(z);
    }
    assert(z[32]@ == universal_z(rc, rt, rt1, caps, 32));
    assert(universal_form(rc, diag, 14, 18) == s18.push((32usize, neg(1))));
    assert(universal_form(rc, diag, 14, 18).drop_last() == s18);
    lemma_neg_small(1);
    let f14 = universal_form(rc, diag, 14, 18);
    assert(f14.last() == (32usize, neg(1)));
    assert(zval(z, 32) == 1);
    assert(form_idot(f14, z) == form_idot(f14.drop_last(), z) + neg(1) * zval(z, 32));
    assert(v(14) == m - 1);
    assert(universal_poly(c, z, 18) == m - 1) by {
        assert(v(0) * v(1) == 0) by (nonlinear_arith) requires v(0) == 0;
        assert(v(2) * v(3) * v(4) == 0) by (nonlinear_arith) requires v(2) == 0;
        assert(v(5) * v(6) == 0) by (nonlinear_arith) requires v(5) == 0;
        assert(v(7) * v(8) * v(9) == 0) by (nonlinear_arith) requires v(7) == 0;
        assert(v(10) * v(11) * v(12) * v(13) == 0) by (nonlinear_arith) requires v(10) == 0;
    }
    lemma_universal_row(u, c, z, 18);
    lemma_small_mod((m - 1) as nat, m);
    assert(u.row_value(z, 18) != 0);
}

} // verus!
