//! What the tagged constraints mean: the noun a node stands for under an
//! assignment of the wires, and the fragment of nox whose reduction the
//! constraints force on every satisfying assignment with the branch active.
use super::builder::{defined, defines, has_def_row, Builder, Node, Op, ONE, ZERO};
use super::{lin_value, op_value};
use crate::execution::relation::ExecutionNoun as Noun;
use crate::execution::relation_semantics::{
    head_tag, lemma_lin_canonical, lemma_outside_fragment, lemma_unit_value, noun_axis, nox_reduce, row_holds,
};
use crate::field::{fmul, modulus};
use vstd::prelude::*;

verus! {

/// `z` assigns canonical field elements to at least the builder's wires,
/// one to the one wire and zero to the zero wire (which the builder's
/// first row pins), and satisfies every row of the builder.
pub open spec fn tagged_satisfied_by(b: &Builder, z: Seq<nat>) -> bool {
    &&& z.len() >= b.next()
    &&& z[ONE as int] == 1
    &&& z[ZERO as int] == 0
    &&& forall|i: int| 0 <= i < z.len() ==> #[trigger] z[i] < modulus()
    &&& forall|r: int| 0 <= r < b.rows@.len() ==> row_holds(#[trigger] b.rows@[r], z)
}

/// The noun a node stands for under `z`: a leaf is the atom on its value
/// wire, a node with children the pair of theirs.
pub open spec fn node_den(n: Node, z: Seq<nat>) -> Noun
    decreases n,
{
    match n.children {
        Some((a, b)) => Noun::Pair(Box::new(node_den(*a, z)), Box::new(node_den(*b, z))),
        None => Noun::Atom(z[n.value as int] as u64),
    }
}

/// The node at axis `a`, as `noun_axis` walks nouns.
pub open spec fn node_axis(n: Node, a: nat) -> Option<Node>
    decreases a,
{
    if a == 0 {
        None
    } else if a == 1 {
        Some(n)
    } else {
        match node_axis(n, a / 2) {
            Some(m) => match m.children {
                Some((l, r)) => Some(if a % 2 == 0 { *l } else { *r }),
                None => None,
            },
            None => None,
        }
    }
}

/// The formula uses neither eq (tag 9) nor the branch (tag 4) within the
/// arithmetic fragment.
pub open spec fn in_tagged_fragment(f: Noun) -> bool
    decreases f,
{
    match f {
        Noun::Pair(h, body) => match *h {
            Noun::Atom(t) => if t == 9 || t == 4 {
                false
            } else if t == 3 || t == 5 || t == 6 || t == 7 {
                match *body {
                    Noun::Pair(a, b) => in_tagged_fragment(*a) && in_tagged_fragment(*b),
                    _ => true,
                }
            } else {
                true
            },
            _ => true,
        },
        _ => true,
    }
}

/// Under every satisfying assignment with the branch wire `active` one, the
/// node `out` stands for the reduction of the formula `f`, within the tagged
/// fragment, on what `obj` stands for, wherever the fragment defines it.
pub open spec fn tagged_reduces_to(b: &Builder, obj: Node, f: Noun, active: usize, out: Node) -> bool {
    forall|z: Seq<nat>|
        #[trigger] tagged_satisfied_by(b, z) ==> (z[active as int] == 1 && in_tagged_fragment(f) ==> (nox_reduce(node_den(obj, z), f) matches Some(
            r,
        ) ==> node_den(out, z) == r))
}

/// An assignment that satisfies a builder satisfies every builder it grew from.
pub proof fn lemma_tagged_shrink(b: &Builder, old: &Builder, z: Seq<nat>)
    requires
        b.grows(old),
        tagged_satisfied_by(b, z),
    ensures
        tagged_satisfied_by(old, z),
{
    assert forall|r: int| 0 <= r < old.rows@.len() implies row_holds(#[trigger] old.rows@[r], z) by {
        assert(b.rows@[r] == old.rows@[r]);
    }
}

/// What a builder forces on its nodes it still forces after growing.
pub proof fn lemma_tagged_reduces_shrink(b: &Builder, old: &Builder, obj: Node, f: Noun, active: usize, out: Node)
    requires
        b.grows(old),
        tagged_reduces_to(old, obj, f, active, out),
    ensures
        tagged_reduces_to(b, obj, f, active, out),
{
    assert forall|z: Seq<nat>| #[trigger] tagged_satisfied_by(b, z) implies (z[active as int] == 1 && in_tagged_fragment(f) ==> (nox_reduce(
        node_den(obj, z),
        f,
    ) matches Some(r) ==> node_den(out, z) == r)) by {
        lemma_tagged_shrink(b, old, z);
    }
}

/// Under a satisfying assignment, every linear or product wire holds the
/// value of its operation.
pub proof fn lemma_tagged_ops(b: &Builder, z: Seq<nat>, k: int)
    requires
        b.wf(),
        tagged_satisfied_by(b, z),
        0 <= k < b.ops@.len(),
        b.ops@[k] is Linear || b.ops@[k] is Product,
    ensures
        z[b.inputs + 2 + k] == op_value(b.ops@[k], z),
{
    let op = b.ops@[k];
    let w = b.inputs + 2 + k;
    reveal(defined);
    assert(has_def_row(b.rows@, op, w));
    let r = choose|r: int| 0 <= r < b.rows@.len() && defines(#[trigger] b.rows@[r], op, w);
    let row = b.rows@[r];
    assert(row_holds(row, z));
    lemma_unit_value(row.2@, z, w);
    match op {
        Op::Linear(l) => {
            lemma_unit_value(row.1@, z, ONE as int);
            lemma_lin_canonical(l@, z);
            vstd::arithmetic::div_mod::lemma_small_mod(lin_value(l@, z), modulus());
            assert(lin_value(l@, z) * 1 == lin_value(l@, z));
        },
        Op::Product(x, y) => {
            lemma_unit_value(row.0@, z, x as int);
            lemma_unit_value(row.1@, z, y as int);
        },
        _ => {},
    }
}

/// Walking the nodes and reading the result agree with reading the node
/// and walking the noun, including where the path meets an atom.
pub proof fn lemma_node_den_axis(n: Node, a: nat, z: Seq<nat>)
    ensures
        noun_axis(node_den(n, z), a) == (match node_axis(n, a) {
            Some(m) => Some(node_den(m, z)),
            None => None,
        }),
    decreases a,
{
    if a > 1 {
        lemma_node_den_axis(n, a / 2, z);
    }
}

/// A formula outside the covered tags, an eq or a branch, has no reduction
/// within the tagged fragment.
pub proof fn lemma_tagged_outside(f: Noun)
    requires
        head_tag(f) matches Some(t) && !(t == 0 || t == 1 || t == 3 || t == 5 || t == 6 || t == 7),
    ensures
        forall|s: Noun| #[trigger] nox_reduce(s, f) is Some ==> !in_tagged_fragment(f),
{
    if head_tag(f) != Some(9u64) && head_tag(f) != Some(4u64) {
        lemma_outside_fragment(f);
    }
}

/// One times a canonical element is that element.
pub proof fn lemma_one_times(x: nat)
    requires
        x < modulus(),
    ensures
        fmul(1, x) == x,
        fmul(x, 1) == x,
{
    vstd::arithmetic::div_mod::lemma_small_mod(x, modulus());
}

} // verus!
