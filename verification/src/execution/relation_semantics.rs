//! What the constraints of the execution relation mean: the noun a symbolic
//! value stands for under an assignment of the wires, and the part of nox
//! whose reduction the constraints force on every satisfying assignment.
use crate::execution::relation::{ExecutionNoun, SubjectShape};
use crate::execution::relation_builder::{defined, defines, has_def_row, is_unit, Builder, Op, Value};
use crate::execution::relation_compile::rel_op_value;
use crate::execution::tagged::builder::Linear;
use crate::execution::tagged::lin_value;
use crate::field::{fadd, fmul, fneg, fsub, modulus, Goldilocks};
use vstd::prelude::*;

verus! {

/// The row a · b = c holds under the wires `z`.
pub open spec fn row_holds(row: (Linear, Linear, Linear), z: Seq<nat>) -> bool {
    fmul(lin_value(row.0@, z), lin_value(row.1@, z)) == lin_value(row.2@, z)
}

/// `z` assigns canonical field elements to at least the builder's wires,
/// one to the constant wire, and satisfies every row of the builder.
pub open spec fn satisfied_by(b: &Builder, z: Seq<nat>) -> bool {
    &&& z.len() >= b.next()
    &&& z[0] == 1
    &&& forall|i: int| 0 <= i < z.len() ==> #[trigger] z[i] < modulus()
    &&& forall|r: int| 0 <= r < b.rows@.len() ==> row_holds(#[trigger] b.rows@[r], z)
}

/// The field value of an atom under `z`: a constant reduced into F_p, or
/// its wire's value.
pub open spec fn atom_val(v: Value, z: Seq<nat>) -> nat {
    match v {
        Value::Constant(c) => c@ % modulus(),
        Value::Wire(i) => z[i as int],
        Value::Pair(_, _) => 0,
    }
}

/// The noun a symbolic value stands for under `z`.
pub open spec fn den(v: Value, z: Seq<nat>) -> ExecutionNoun
    decreases v,
{
    match v {
        Value::Pair(a, b) => ExecutionNoun::Pair(Box::new(den(*a, z)), Box::new(den(*b, z))),
        _ => ExecutionNoun::Atom(atom_val(v, z) as u64),
    }
}

/// A noun with every atom read as a field element (reduced modulo p).
pub open spec fn canon(n: ExecutionNoun) -> ExecutionNoun
    decreases n,
{
    match n {
        ExecutionNoun::Atom(a) => ExecutionNoun::Atom((a as nat % modulus()) as u64),
        ExecutionNoun::Pair(a, b) => ExecutionNoun::Pair(Box::new(canon(*a)), Box::new(canon(*b))),
    }
}

/// The sub-noun at axis `a` of `s`: 1 is `s`, 2k the head and 2k + 1 the
/// tail of the sub-noun at k; none where the path meets an atom.
pub open spec fn noun_axis(s: ExecutionNoun, a: nat) -> Option<ExecutionNoun>
    decreases a,
{
    if a == 0 {
        None
    } else if a == 1 {
        Some(s)
    } else {
        match noun_axis(s, a / 2) {
            Some(ExecutionNoun::Pair(l, r)) => Some(if a % 2 == 0 { *l } else { *r }),
            _ => None,
        }
    }
}

/// The sub-value at axis `a`, as `noun_axis` walks nouns.
pub open spec fn value_axis(v: Value, a: nat) -> Option<Value>
    decreases a,
{
    if a == 0 {
        None
    } else if a == 1 {
        Some(v)
    } else {
        match value_axis(v, a / 2) {
            Some(Value::Pair(l, r)) => Some(if a % 2 == 0 { *l } else { *r }),
            _ => None,
        }
    }
}

/// The nox operators of the covered fragment on reduced operands: cons (3),
/// add (5), sub (6), mul (7) in F_p, and eq (9) of two equal atoms, which is 0.
pub open spec fn nox_binop(tag: u64, x: ExecutionNoun, y: ExecutionNoun) -> Option<ExecutionNoun> {
    if tag == 3 {
        Some(ExecutionNoun::Pair(Box::new(x), Box::new(y)))
    } else {
        match (x, y) {
            (ExecutionNoun::Atom(p), ExecutionNoun::Atom(q)) => {
                if tag == 5 {
                    Some(ExecutionNoun::Atom(fadd(p as nat, q as nat) as u64))
                } else if tag == 6 {
                    Some(ExecutionNoun::Atom(fsub(p as nat, q as nat) as u64))
                } else if tag == 7 {
                    Some(ExecutionNoun::Atom(fmul(p as nat, q as nat) as u64))
                } else if tag == 9 && p == q {
                    Some(ExecutionNoun::Atom(0))
                } else {
                    None
                }
            },
            _ => None,
        }
    }
}

/// The nox reduction of formula `f` on subject `s`, on the fragment made of
/// axis (0, nonzero address), quote (1), cons (3), the branch (4) whose test
/// reduces to 0 (it takes the first arm), add (5), sub (6), mul (7) and eq (9)
/// of equal atoms; none outside it.
pub open spec fn nox_reduce(s: ExecutionNoun, f: ExecutionNoun) -> Option<ExecutionNoun>
    decreases f,
{
    match f {
        ExecutionNoun::Pair(h, body) => match *h {
            ExecutionNoun::Atom(tag) => {
                if tag == 0 {
                    match *body {
                        ExecutionNoun::Atom(a) => if a > 0 {
                            noun_axis(s, a as nat)
                        } else {
                            None
                        },
                        _ => None,
                    }
                } else if tag == 1 {
                    Some(canon(*body))
                } else if tag == 4 {
                    match *body {
                        ExecutionNoun::Pair(t, arms) => match *arms {
                            ExecutionNoun::Pair(y, _) => match nox_reduce(s, *t) {
                                Some(ExecutionNoun::Atom(0)) => nox_reduce(s, *y),
                                _ => None,
                            },
                            _ => None,
                        },
                        _ => None,
                    }
                } else if tag == 3 || tag == 5 || tag == 6 || tag == 7 || tag == 9 {
                    match *body {
                        ExecutionNoun::Pair(fa, fb) => match (nox_reduce(s, *fa), nox_reduce(s, *fb)) {
                            (Some(x), Some(y)) => nox_binop(tag, x, y),
                            _ => None,
                        },
                        _ => None,
                    }
                } else {
                    None
                }
            },
            _ => None,
        },
        _ => None,
    }
}

/// Under every assignment that satisfies `b`, the value `out` stands for
/// the reduction of `f` on what `obj` stands for, wherever the fragment
/// defines it.
pub open spec fn reduces_to(b: &Builder, obj: Value, f: ExecutionNoun, out: Value) -> bool {
    forall|z: Seq<nat>|
        #[trigger] satisfied_by(b, z) ==> (nox_reduce(den(obj, z), f) matches Some(r) ==> den(out, z) == r)
}

/// An assignment that satisfies a builder satisfies every builder it grew from.
pub proof fn lemma_satisfied_shrink(b: &Builder, old: &Builder, z: Seq<nat>)
    requires
        b.grows(old),
        satisfied_by(b, z),
    ensures
        satisfied_by(old, z),
{
    assert forall|r: int| 0 <= r < old.rows@.len() implies row_holds(#[trigger] old.rows@[r], z) by {
        assert(b.rows@[r] == old.rows@[r]);
    }
}

/// Every linear combination evaluates to a canonical element.
pub proof fn lemma_lin_canonical(l: Seq<(usize, Goldilocks)>, z: Seq<nat>)
    ensures
        lin_value(l, z) < modulus(),
{
}

/// The one-term combination `c · z[w]` evaluates to `c · z[w]`.
pub proof fn lemma_single_term(l: Seq<(usize, Goldilocks)>, z: Seq<nat>)
    requires
        l.len() == 1,
    ensures
        lin_value(l, z) == fmul(z[l[0].0 as int], l[0].1@),
{
    assert(l.drop_last().len() == 0);
    assert(lin_value(l.drop_last(), z) == 0);
    vstd::arithmetic::div_mod::lemma_small_mod(fmul(z[l[0].0 as int], l[0].1@), modulus());
}

/// The combination that reads an atom evaluates to the atom's value.
pub proof fn lemma_atom_lin(v: Value, l: Seq<(usize, Goldilocks)>, z: Seq<nat>)
    requires
        z.len() > 0,
        z[0] == 1,
        forall|i: int| 0 <= i < z.len() ==> #[trigger] z[i] < modulus(),
        v.ok(z.len()),
        v matches Value::Constant(c) ==> l == seq![(0usize, c)],
        v matches Value::Wire(i) ==> l.len() == 1 && l[0].0 == i && l[0].1@ == 1,
        !(v is Pair),
    ensures
        lin_value(l, z) == atom_val(v, z),
{
    lemma_single_term(l, z);
    match v {
        Value::Constant(c) => {
            assert(fmul(1, c@) == c@ % modulus());
        },
        Value::Wire(i) => {
            vstd::arithmetic::div_mod::lemma_small_mod(z[i as int], modulus());
            assert(fmul(z[i as int], 1) == z[i as int]);
        },
        _ => {},
    }
}

/// A unit combination of wire `w` evaluates to that wire.
pub proof fn lemma_unit_value(l: Seq<(usize, Goldilocks)>, z: Seq<nat>, w: int)
    requires
        is_unit(l, w),
        0 <= w < z.len(),
        z[w] < modulus(),
    ensures
        lin_value(l, z) == z[w],
{
    lemma_single_term(l, z);
    vstd::arithmetic::div_mod::lemma_small_mod(z[w], modulus());
    assert(fmul(z[w], 1) == z[w]);
}

/// Under a satisfying assignment, every linear or product wire holds the
/// value of its operation.
pub proof fn lemma_satisfied_ops(b: &Builder, z: Seq<nat>, k: int)
    requires
        b.wf(),
        satisfied_by(b, z),
        0 <= k < b.ops@.len(),
        b.ops@[k] is Linear || b.ops@[k] is Product,
    ensures
        z[b.inputs + 1 + k] == rel_op_value(b.ops@[k], z),
{
    let op = b.ops@[k];
    let w = b.inputs + 1 + k;
    reveal(defined);
    assert(has_def_row(b.rows@, op, w));
    let r = choose|r: int| 0 <= r < b.rows@.len() && defines(#[trigger] b.rows@[r], op, w);
    let row = b.rows@[r];
    assert(row_holds(row, z));
    lemma_unit_value(row.2@, z, w);
    match op {
        Op::Linear(l) => {
            lemma_unit_value(row.1@, z, 0);
            lemma_lin_canonical(l@, z);
            vstd::arithmetic::div_mod::lemma_small_mod(lin_value(l@, z), modulus());
            assert(lin_value(l@, z) * 1 == lin_value(l@, z));
            assert(fmul(lin_value(l@, z), 1) == lin_value(l@, z));
        },
        _ => {},
    }
}

/// Adding the negation of a product is subtracting it: x + y·(−c) = x − y·c.
pub proof fn lemma_add_neg_term(x: nat, y: nat, c: nat)
    requires
        x < modulus(),
        y < modulus(),
    ensures
        fadd(x, fmul(y, fneg(c))) == fsub(x, fmul(y, c)),
{
    let p = modulus();
    let c2 = c % p;
    vstd::arithmetic::div_mod::lemma_mod_twice(c as int, p as int);
    assert(fneg(c) == fneg(c2));
    vstd::arithmetic::div_mod::lemma_mul_mod_noop_right(y as int, c as int, p as int);
    assert(fmul(y, c) == fmul(y, c2));
    lemma_add_neg_canonical(x, y, c2);
}

proof fn lemma_add_neg_canonical(x: nat, y: nat, c: nat)
    requires
        x < modulus(),
        y < modulus(),
        c < modulus(),
    ensures
        fadd(x, fmul(y, fneg(c))) == fsub(x, fmul(y, c)),
{
    let p = modulus();
    let b = fmul(y, c);
    vstd::arithmetic::div_mod::lemma_mod_self_0(p as int);
    vstd::arithmetic::div_mod::lemma_small_mod(0, p);
    vstd::arithmetic::div_mod::lemma_small_mod(x, p);
    if c == 0 {
        assert(fneg(c) == 0);
        assert(y * 0 == 0) by (nonlinear_arith);
        assert(fmul(y, 0) == 0);
        assert(b == 0);
        vstd::arithmetic::div_mod::lemma_mod_add_multiples_vanish(x as int, p as int);
    } else {
        vstd::arithmetic::div_mod::lemma_small_mod((p - c) as nat, p);
        assert(fneg(c) == p - c);
        let yc: int = (y * c) as int;
        let q: int = yc / (p as int);
        vstd::arithmetic::div_mod::lemma_fundamental_div_mod(yc, p as int);
        assert(yc == p * q + b);
        assert(y * (p - c) == p * (y - q - 1) + (p - b)) by (nonlinear_arith)
            requires
                yc == y * c,
                yc == p * q + b,
        ;
        vstd::arithmetic::div_mod::lemma_mod_multiples_vanish(y - q - 1, (p - b) as int, p as int);
        assert(fmul(y, fneg(c)) == (p - b) as int % (p as int));
        if b == 0 {
            assert(fmul(y, fneg(c)) == 0);
            vstd::arithmetic::div_mod::lemma_mod_add_multiples_vanish(x as int, p as int);
        } else {
            vstd::arithmetic::div_mod::lemma_small_mod((p - b) as nat, p);
        }
    }
}

/// The tag of a formula `[tag body]` with an atom head.
pub open spec fn head_tag(f: ExecutionNoun) -> Option<u64> {
    match f {
        ExecutionNoun::Pair(h, _) => match *h {
            ExecutionNoun::Atom(t) => Some(t),
            _ => None,
        },
        _ => None,
    }
}

/// A formula whose tag lies outside the fragment has no reduction there.
pub proof fn lemma_outside_fragment(f: ExecutionNoun)
    requires
        head_tag(f) matches Some(t) && !(t == 0 || t == 1 || t == 3 || t == 4 || t == 5 || t == 6 || t == 7 || t == 9),
    ensures
        forall|s: ExecutionNoun| #[trigger] nox_reduce(s, f) == None::<ExecutionNoun>,
{
}

/// Walking a value and reading the result agree with reading the value and
/// walking the noun.
pub proof fn lemma_den_axis(v: Value, a: nat, z: Seq<nat>)
    requires
        value_axis(v, a) is Some,
    ensures
        noun_axis(den(v, z), a) == Some(den(value_axis(v, a)->Some_0, z)),
    decreases a,
{
    if a > 1 {
        lemma_den_axis(v, a / 2, z);
    }
}

/// A value made of constants stands for the same noun under every assignment.
pub open spec fn is_constant_of(v: Value, n: ExecutionNoun) -> bool {
    forall|z: Seq<nat>| #[trigger] den(v, z) == canon(n)
}

/// A satisfied atom reads back as its value.
pub proof fn lemma_den_atom(v: Value, z: Seq<nat>)
    requires
        !(v is Pair),
        atom_val(v, z) < modulus(),
    ensures
        den(v, z) == ExecutionNoun::Atom(atom_val(v, z) as u64),
        (atom_val(v, z) as u64) as nat == atom_val(v, z),
{
}

/// The two-term combination `c0 · z[w0] + c1 · z[w1]`.
pub proof fn lemma_two_terms(l: Seq<(usize, Goldilocks)>, z: Seq<nat>)
    requires
        l.len() == 2,
    ensures
        lin_value(l, z) == fadd(fmul(z[l[0].0 as int], l[0].1@), fmul(z[l[1].0 as int], l[1].1@)),
{
    let d = l.drop_last();
    assert(d.len() == 1 && d[0] == l[0]);
    lemma_single_term(d, z);
}

/// The atoms of a noun, left to right.
pub open spec fn noun_leaves(n: ExecutionNoun) -> Seq<nat>
    decreases n,
{
    match n {
        ExecutionNoun::Atom(a) => seq![a as nat],
        ExecutionNoun::Pair(a, b) => noun_leaves(*a) + noun_leaves(*b),
    }
}

/// The subject of shape `s` whose atoms are the wires of `z` from `start`
/// on, left to right.
pub open spec fn shape_den(s: SubjectShape, z: Seq<nat>, start: nat) -> ExecutionNoun
    decreases s,
{
    match s {
        SubjectShape::Atom => ExecutionNoun::Atom(z[start as int] as u64),
        SubjectShape::Pair(a, b) => ExecutionNoun::Pair(
            Box::new(shape_den(*a, z, start)),
            Box::new(shape_den(*b, z, start + a.leaves())),
        ),
    }
}

/// The atoms of what a value stands for are the values of its leaves.
pub proof fn lemma_den_leaves(v: Value, z: Seq<nat>)
    requires
        v.ok(z.len()),
        forall|i: int| 0 <= i < z.len() ==> #[trigger] z[i] < modulus(),
    ensures
        noun_leaves(den(v, z)) == Seq::new(
            crate::execution::relation_compile::value_leaves(v).len(),
            |k: int| atom_val(crate::execution::relation_compile::value_leaves(v)[k], z),
        ),
    decreases v,
{
    let lv = crate::execution::relation_compile::value_leaves(v);
    match v {
        Value::Pair(a, b) => {
            lemma_den_leaves(*a, z);
            lemma_den_leaves(*b, z);
            assert(noun_leaves(den(v, z)) =~= Seq::new(lv.len(), |k: int| atom_val(lv[k], z)));
        },
        _ => {
            assert(atom_val(v, z) < modulus());
            assert(noun_leaves(den(v, z)) =~= Seq::new(lv.len(), |k: int| atom_val(lv[k], z)));
        },
    }
}

/// Every leaf of a value reads only wires below the value's bound.
pub proof fn lemma_leaf_ok(v: Value, n: nat, k: int)
    requires
        v.ok(n),
        0 <= k < crate::execution::relation_compile::value_leaves(v).len(),
    ensures
        crate::execution::relation_compile::value_leaves(v)[k].ok(n),
    decreases v,
{
    if let Value::Pair(a, b) = v {
        let la = crate::execution::relation_compile::value_leaves(*a);
        if k < la.len() {
            lemma_leaf_ok(*a, n, k);
        } else {
            lemma_leaf_ok(*b, n, k - la.len());
        }
    }
}

} // verus!
