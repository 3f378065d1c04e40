//! Experimental tagged noun kernel: a formula over a subject of known shape
//! compiled to an R1CS-shaped instance whose matrices depend only on the
//! formula and the subject topology. Rows alone do not bind z[0]: the
//! public coordinates pin it to one.
pub mod builder;
pub mod eval;
pub mod hash;
pub mod meaning;
pub mod word;

use self::builder::{lin_ok, Builder, HashTables, Linear, Node, Op, MAX_DEPTH, MAX_GATES, MAX_INPUTS, MAX_NODES, ONE, ZERO};
use self::eval::{lemma_max_cost_bound, max_cost};
use crate::ccs::universal::nats;
use crate::execution::relation::{ExecutionNoun as Noun, RelationError as Error, SubjectShape};
use crate::field::{fmul, finv, modulus, Goldilocks, P};
use crate::types::{CCSInstance, CCSWitness, SparseMatrix};
use crate::execution::relation_compile::{lemma_lin_row_dot, lemma_r1cs_row, r1cs_shape, row_triple};
use crate::execution::relation_semantics::{lemma_unit_value, nox_reduce, row_holds, shape_den};
use vstd::prelude::*;

verus! {

/// A compiled tagged relation: the instance, the input wires, the output
/// node, the cost wire, the maximal cost and the witness program.
pub struct TaggedRelation {
    pub instance: CCSInstance,
    pub inputs: Vec<usize>,
    pub output: Box<Node>,
    pub cost: usize,
    pub max_cost: u64,
    pub ops: Vec<Op>,
}

/// Σ c · z[w] over a linear combination, in F_p, left to right.
pub open spec fn lin_value(l: Seq<(usize, Goldilocks)>, z: Seq<nat>) -> nat
    decreases l.len(),
{
    if l.len() == 0 {
        0
    } else {
        crate::field::fadd(lin_value(l.drop_last(), z), fmul(z[l.last().0 as int], l.last().1@))
    }
}

/// The value the witness gives the wire computed by `op` from `z`.
pub open spec fn op_value(op: Op, z: Seq<nat>) -> nat {
    match op {
        Op::Linear(l) => lin_value(l@, z),
        Op::Product(a, b) => fmul(z[a as int], z[b as int]),
        Op::Bit(a, k) => (((z[a as int] as u64) >> (k as u64)) & 1u64) as nat,
        Op::Inverse(a) => if z[a as int] == 0 { 0 } else { finv(z[a as int]) },
    }
}

/// The wires after running `ops` from the initial wires `z0`.
pub open spec fn run_ops(ops: Seq<Op>, z0: Seq<nat>) -> Seq<nat>
    decreases ops.len(),
{
    if ops.len() == 0 {
        z0
    } else {
        let z = run_ops(ops.drop_last(), z0);
        z.push(op_value(ops.last(), z))
    }
}

/// `run_ops` appends one wire per operation.
pub proof fn lemma_run_ops_len(ops: Seq<Op>, z0: Seq<nat>)
    ensures
        run_ops(ops, z0).len() == z0.len() + ops.len(),
    decreases ops.len(),
{
    if ops.len() > 0 {
        lemma_run_ops_len(ops.drop_last(), z0);
    }
}

/// The initial wires: one, zero, then the inputs.
pub open spec fn initial_wires(inputs: Seq<u64>) -> Seq<nat> {
    seq![1nat, 0nat] + inputs.map_values(|x: u64| x as nat)
}

/// The witness for `inputs`: the wires of the program padded with zeros to
/// the instance width.
pub open spec fn witness_spec(r: &TaggedRelation, inputs: Seq<u64>) -> Seq<nat> {
    let z = run_ops(r.ops@, initial_wires(inputs));
    z + Seq::new((r.instance.num_cols - z.len()) as nat, |i: int| 0nat)
}

/// `x` is a power of two.
pub open spec fn is_pow2(x: nat) -> bool
    decreases x,
{
    if x <= 1 {
        x == 1
    } else {
        x % 2 == 0 && is_pow2(x / 2)
    }
}

/// The smallest power of two at least `n`.
pub fn next_pow2(n: usize) -> (r: usize)
    requires
        1 <= n <= 0x10_0000,
    ensures
        r >= n,
        is_pow2(r as nat),
        r < 2 * n,
{
    let mut r: usize = 1;
    while r < n
        invariant
            1 <= r,
            r < 2 * n,
            is_pow2(r as nat),
            n <= 0x10_0000,
        decreases 2 * n - r,
    {
        assert((2 * r) as nat / 2 == r as nat);
        r = 2 * r;
    }
    r
}

impl TaggedRelation {
    /// The number of wires the program defines.
    pub open spec fn width(&self) -> nat {
        (2 + self.inputs@.len() + self.ops@.len()) as nat
    }

    /// Inputs on wires 2.., every op reading earlier wires, output and cost
    /// among the defined wires, and an R1CS instance at least as wide.
    pub open spec fn wf(&self) -> bool {
        &&& self.instance.wf()
        &&& self.inputs@.len() <= MAX_INPUTS
        &&& self.ops@.len() <= MAX_GATES
        &&& self.width() <= self.instance.num_cols
        &&& forall|i: int| 0 <= i < self.inputs@.len() ==> #[trigger] self.inputs@[i] == 2 + i
        &&& forall|k: int| 0 <= k < self.ops@.len() ==> (#[trigger] self.ops@[k]).ok((2 + self.inputs@.len() + k) as nat)
        &&& self.output.ok(self.width())
        &&& self.cost < self.width()
    }

    /// The instance.
    pub fn instance(&self) -> (r: &CCSInstance)
        ensures
            r == &self.instance,
    {
        &self.instance
    }

    /// The maximal cost.
    pub fn max_cost(&self) -> (r: u64)
        ensures
            r == self.max_cost,
    {
        self.max_cost
    }

    /// A candidate witness for `inputs`: the constants, the inputs, then
    /// every wire computed by the program. Failures of the program (an
    /// inverse of zero, an out-of-range word) still give a witness, whose
    /// rows are then unsatisfied.
    pub fn witness(&self, inputs: &[u64]) -> (res: Result<CCSWitness, Error>)
        requires
            self.wf(),
        ensures
            inputs@.len() != self.inputs@.len() ==> res == Err::<CCSWitness, Error>(Error::InputCount),
            inputs@.len() == self.inputs@.len() && (exists|i: int| 0 <= i < inputs@.len() && inputs@[i] >= P)
                ==> res == Err::<CCSWitness, Error>(Error::NonCanonical),
            res is Ok <==> inputs@.len() == self.inputs@.len() && (forall|i: int| 0 <= i < inputs@.len() ==> inputs@[i] < P),
            res is Ok ==> nats(res->Ok_0.z@) == witness_spec(self, inputs@),
    {
        if inputs.len() != self.inputs.len() {
            return Err(Error::InputCount);
        }
        let mut i: usize = 0;
        while i < inputs.len()
            invariant
                i <= inputs@.len(),
                inputs@.len() == self.inputs@.len(),
                forall|j: int| 0 <= j < i ==> inputs@[j] < P,
            decreases inputs@.len() - i,
        {
            if inputs[i] >= P {
                assert(0 <= i < inputs@.len() && inputs@[i as int] >= P);
                return Err(Error::NonCanonical);
            }
            i = i + 1;
        }
        let mut z: Vec<Goldilocks> = vec![Goldilocks::one(), Goldilocks::zero()];
        let mut i: usize = 0;
        while i < inputs.len()
            invariant
                i <= inputs@.len(),
                forall|j: int| 0 <= j < inputs@.len() ==> inputs@[j] < P,
                nats(z@) == initial_wires(inputs@.subrange(0, i as int)),
            decreases inputs@.len() - i,
        {
            let ghost before = z@;
            z.push(Goldilocks::new(inputs[i]));
            proof {
                vstd::arithmetic::div_mod::lemma_small_mod(inputs@[i as int] as nat, modulus());
                assert(inputs@.subrange(0, i + 1) =~= inputs@.subrange(0, i as int).push(inputs@[i as int]));
                assert(nats(z@) =~= nats(before).push(inputs@[i as int] as nat));
                assert(initial_wires(inputs@.subrange(0, i + 1)) =~= initial_wires(inputs@.subrange(0, i as int)).push(inputs@[i as int] as nat));
            }
            i = i + 1;
        }
        assert(inputs@.subrange(0, inputs@.len() as int) == inputs@);
        let ghost z0 = nats(z@);
        let mut k: usize = 0;
        while k < self.ops.len()
            invariant
                self.wf(),
                k <= self.ops@.len(),
                inputs@.len() == self.inputs@.len(),
                z@.len() == 2 + inputs@.len() + k,
                nats(z@) == run_ops(self.ops@.subrange(0, k as int), z0),
            decreases self.ops@.len() - k,
        {
            let ghost zs = nats(z@);
            let v = match &self.ops[k] {
                Op::Linear(l) => lin_eval(l, &z),
                Op::Product(a, b) => z[*a].mul(z[*b]),
                Op::Bit(a, bit) => Goldilocks::new((z[*a].as_u64() >> (*bit as u64)) & 1),
                Op::Inverse(a) => {
                    if z[*a].is_zero() {
                        Goldilocks::zero()
                    } else {
                        z[*a].inv()
                    }
                },
            };
            proof {
                let ops_k = self.ops@.subrange(0, k + 1);
                assert(ops_k.drop_last() == self.ops@.subrange(0, k as int));
                assert(ops_k.last() == self.ops@[k as int]);
                if let Op::Bit(a, bit) = self.ops@[k as int] {
                    let y: u64 = zs[a as int] as u64;
                    let sh: u64 = bit as u64;
                    assert((y >> sh) & 1u64 <= 1u64) by (bit_vector);
                    vstd::arithmetic::div_mod::lemma_small_mod(((y >> sh) & 1u64) as nat, modulus());
                }
                assert(v@ == op_value(self.ops@[k as int], zs));
            }
            z.push(v);
            proof {
                assert(nats(z@) =~= zs.push(v@));
            }
            k = k + 1;
        }
        assert(self.ops@.subrange(0, self.ops@.len() as int) == self.ops@);
        let ghost zr = nats(z@);
        while z.len() < self.instance.num_cols
            invariant
                zr.len() <= z@.len() <= self.instance.num_cols,
                forall|j: int| 0 <= j < zr.len() ==> #[trigger] z@[j]@ == zr[j],
                forall|j: int| zr.len() <= j < z@.len() ==> #[trigger] z@[j]@ == 0,
            decreases self.instance.num_cols - z@.len(),
        {
            z.push(Goldilocks::zero());
        }
        proof {
            lemma_run_ops_len(self.ops@, z0);
            assert(nats(z@) =~= witness_spec(self, inputs@));
        }
        Ok(CCSWitness { z })
    }
}

/// Σ c · z[w] over a linear combination whose wires are all present.
pub fn lin_eval(l: &Linear, z: &Vec<Goldilocks>) -> (r: Goldilocks)
    requires
        lin_ok(l@, z@.len() as nat),
    ensures
        r@ == lin_value(l@, nats(z@)),
{
    let mut acc = Goldilocks::zero();
    let mut i: usize = 0;
    while i < l.len()
        invariant
            i <= l@.len(),
            lin_ok(l@, z@.len() as nat),
            acc@ == lin_value(l@.subrange(0, i as int), nats(z@)),
        decreases l@.len() - i,
    {
        let (w, c) = l[i];
        acc = acc.add(z[w].mul(c));
        proof {
            let s = l@.subrange(0, i + 1);
            assert(s.drop_last() == l@.subrange(0, i as int));
            assert(s.last() == l@[i as int]);
        }
        i = i + 1;
    }
    assert(l@.subrange(0, l@.len() as int) == l@);
    acc
}


/// Whether a noun passes the size, depth and canonicity checks, threading
/// the node count: the count after the noun, or the first failure.
pub open spec fn check_spec(n: Noun, depth: nat, count: nat) -> Result<nat, Error>
    decreases n,
{
    let c = count + 1;
    if depth > MAX_DEPTH || c > MAX_NODES {
        Err(Error::Limit)
    } else {
        match n {
            Noun::Atom(x) => if x >= P { Err(Error::NonCanonical) } else { Ok(c) },
            Noun::Pair(a, b) => match check_spec(*a, depth + 1, c) {
                Ok(c2) => check_spec(*b, depth + 1, c2),
                Err(e) => Err(e),
            },
        }
    }
}

/// A noun that passes the checks has `count + size` nodes counted, within
/// the node limit.
pub proof fn lemma_check_size(n: Noun, depth: nat, count: nat)
    requires
        check_spec(n, depth, count) is Ok,
    ensures
        check_spec(n, depth, count)->Ok_0 == count + n.size(),
        count + n.size() <= MAX_NODES,
    decreases n,
{
    if let Noun::Pair(a, b) = n {
        lemma_check_size(*a, depth + 1, count + 1);
        lemma_check_size(*b, depth + 1, count + 1 + a.size());
    }
}

/// The checks fail only for size, depth or a non-canonical atom.
pub proof fn lemma_check_err(n: Noun, depth: nat, count: nat)
    ensures
        check_spec(n, depth, count) is Err ==> check_spec(n, depth, count)->Err_0 is Limit
            || check_spec(n, depth, count)->Err_0 is NonCanonical,
    decreases n,
{
    if let Noun::Pair(a, b) = n {
        lemma_check_err(*a, depth + 1, count + 1);
        if check_spec(*a, depth + 1, count + 1) is Ok {
            lemma_check_err(*b, depth + 1, check_spec(*a, depth + 1, count + 1)->Ok_0);
        }
    }
}

/// Check a noun's size, depth and canonicity.
pub fn check_noun(n: &Noun, depth: usize, count: &mut usize) -> (res: Result<(), Error>)
    requires
        *old(count) <= MAX_NODES,
        depth <= MAX_DEPTH + 1,
    ensures
        match check_spec(*n, depth as nat, *old(count) as nat) {
            Ok(c) => res is Ok && *final(count) == c,
            Err(e) => res == Err::<(), Error>(e),
        },
    decreases n,
{
    *count = *count + 1;
    if depth > MAX_DEPTH || *count > MAX_NODES {
        return Err(Error::Limit);
    }
    match n {
        Noun::Atom(x) => {
            if *x >= P {
                Err(Error::NonCanonical)
            } else {
                Ok(())
            }
        },
        Noun::Pair(a, b) => {
            let ghost c1 = *count;
            check_noun(a, depth + 1, count)?;
            proof {
                lemma_check_size(**a, depth as nat + 1, c1 as nat);
            }
            check_noun(b, depth + 1, count)
        },
    }
}

/// The atoms of a subject shape and the node count after it, or `Limit`.
pub open spec fn shape_spec(s: SubjectShape, depth: nat, count: nat) -> Result<(nat, nat), Error>
    decreases s,
{
    let c = count + 1;
    if depth > MAX_DEPTH || c > MAX_NODES {
        Err(Error::Limit)
    } else {
        match s {
            SubjectShape::Atom => Ok((1nat, c)),
            SubjectShape::Pair(a, b) => match shape_spec(*a, depth + 1, c) {
                Ok((la, c2)) => match shape_spec(*b, depth + 1, c2) {
                    Ok((lb, c3)) => Ok((la + lb, c3)),
                    Err(e) => Err(e),
                },
                Err(e) => Err(e),
            },
        }
    }
}

/// A shape that passes counts its leaves and `count + size` nodes.
pub proof fn lemma_shape_size(s: SubjectShape, depth: nat, count: nat)
    requires
        shape_spec(s, depth, count) is Ok,
    ensures
        shape_spec(s, depth, count)->Ok_0.0 == s.leaves(),
        shape_spec(s, depth, count)->Ok_0.1 == count + s.size(),
        count + s.size() <= MAX_NODES,
        s.leaves() <= s.size(),
    decreases s,
{
    if let SubjectShape::Pair(a, b) = s {
        lemma_shape_size(*a, depth + 1, count + 1);
        lemma_shape_size(*b, depth + 1, count + 1 + a.size());
    }
}

/// A shape fails only on the size or depth limit.
pub proof fn lemma_shape_err(s: SubjectShape, depth: nat, count: nat)
    ensures
        shape_spec(s, depth, count) is Err ==> shape_spec(s, depth, count)->Err_0 is Limit,
    decreases s,
{
    if let SubjectShape::Pair(a, b) = s {
        lemma_shape_err(*a, depth + 1, count + 1);
        if shape_spec(*a, depth + 1, count + 1) is Ok {
            lemma_shape_err(*b, depth + 1, shape_spec(*a, depth + 1, count + 1)->Ok_0.1);
        }
    }
}

/// The number of atoms of a subject shape, within the size and depth limits.
pub fn shape_inputs(s: &SubjectShape, depth: usize, nodes: &mut usize) -> (res: Result<usize, Error>)
    requires
        *old(nodes) <= MAX_NODES,
        depth <= MAX_DEPTH + 1,
    ensures
        match shape_spec(*s, depth as nat, *old(nodes) as nat) {
            Ok((l, c)) => res == Ok::<usize, Error>(l as usize) && *final(nodes) == c,
            Err(e) => res == Err::<usize, Error>(e),
        },
    decreases s,
{
    *nodes = *nodes + 1;
    if depth > MAX_DEPTH || *nodes > MAX_NODES {
        return Err(Error::Limit);
    }
    match s {
        SubjectShape::Atom => Ok(1),
        SubjectShape::Pair(a, b) => {
            let ghost c1 = *nodes;
            let la = shape_inputs(a, depth + 1, nodes)?;
            proof {
                lemma_shape_size(**a, depth as nat + 1, c1 as nat);
            }
            let ghost c2 = *nodes;
            let lb = shape_inputs(b, depth + 1, nodes)?;
            proof {
                lemma_shape_size(**b, depth as nat + 1, c2 as nat);
                lemma_shape_size(**a, depth as nat + 1, c1 as nat);
            }
            Ok(la + lb)
        },
    }
}

/// The (wire, value) pins as integers.
pub open spec fn pin_view(v: Seq<(usize, Goldilocks)>) -> Seq<(usize, nat)> {
    v.map_values(|p: (usize, Goldilocks)| (p.0, p.1@))
}

/// The pins that bind the output node to the claimed noun: each node's tag
/// (0 atom, 1 pair) and value (the atom, or 0); missing claimed parts pin
/// zeros, and a claimed pair where the node has no children is malformed.
pub open spec fn bind_spec(node: Node, noun: Option<Noun>) -> Option<Seq<(usize, nat)>>
    decreases node,
{
    let (tag, value, left, right) = match noun {
        Some(Noun::Atom(x)) => (0nat, x as nat % modulus(), None::<Noun>, None::<Noun>),
        Some(Noun::Pair(a, b)) => (1nat, 0nat, Some(*a), Some(*b)),
        None => (0nat, 0nat, None::<Noun>, None::<Noun>),
    };
    let head = seq![(node.tag, tag), (node.value, value)];
    match node.children {
        Some((a, b)) => match bind_spec(*a, left) {
            Some(x) => match bind_spec(*b, right) {
                Some(y) => Some(head + x + y),
                None => None,
            },
            None => None,
        },
        None => if left is Some { None } else { Some(head) },
    }
}

/// Append the pins that bind `node` to `noun`.
pub fn bind_output(node: &Node, noun: Option<&Noun>, pins: &mut Vec<(usize, Goldilocks)>) -> (res: Result<(), Error>)
    ensures
        match bind_spec(*node, match noun { Some(n) => Some(*n), None => None }) {
            Some(b) => res is Ok && pin_view(final(pins)@) == pin_view(old(pins)@) + b,
            None => res == Err::<(), Error>(Error::Malformed),
        },
    decreases node,
{
    let ghost nv = match noun { Some(n) => Some(*n), None => None::<Noun> };
    let (tag, value, left, right): (Goldilocks, Goldilocks, Option<&Noun>, Option<&Noun>) = match noun {
        Some(Noun::Atom(x)) => (Goldilocks::zero(), Goldilocks::new(*x), None, None),
        Some(Noun::Pair(a, b)) => (Goldilocks::one(), Goldilocks::zero(), Some(&**a), Some(&**b)),
        None => (Goldilocks::zero(), Goldilocks::zero(), None, None),
    };
    let ghost p0 = pin_view(pins@);
    pins.push((node.tag, tag));
    pins.push((node.value, value));
    proof {
        assert(pin_view(pins@) =~= p0 + seq![(node.tag, tag@), (node.value, value@)]);
    }
    match &node.children {
        Some((a, b)) => {
            bind_output(a, left, pins)?;
            bind_output(b, right, pins)?;
            proof {
                let lv = match left { Some(n) => Some(*n), None => None::<Noun> };
                let rv = match right { Some(n) => Some(*n), None => None::<Noun> };
                let x = bind_spec(**a, lv)->Some_0;
                let y = bind_spec(**b, rv)->Some_0;
                assert(p0 + seq![(node.tag, tag@), (node.value, value@)] + x + y =~= p0 + (seq![(node.tag, tag@), (node.value, value@)] + x + y));
            }
        },
        None => {
            if left.is_some() {
                return Err(Error::Malformed);
            }
        },
    }
    Ok(())
}

/// Whether a node tree is at most `MAX_DEPTH` deep below depth `d`.
fn check_depth(n: &Node, d: usize) -> (res: Result<(), Error>)
    requires
        d <= MAX_DEPTH + 1,
    ensures
        res is Ok <==> d + n.depth() <= MAX_DEPTH,
        res is Err ==> res == Err::<(), Error>(Error::Limit),
    decreases n,
{
    if d > MAX_DEPTH {
        return Err(Error::Limit);
    }
    if let Some((a, b)) = &n.children {
        check_depth(a, d + 1)?;
        check_depth(b, d + 1)?;
    }
    Ok(())
}

impl Builder {
    /// The relation: rows padded to a power of two (at least 2), columns to
    /// a power of two (at least 64), with the R1CS shape A∘B − C.
    pub fn finish(self, output: Box<Node>, cost: usize, max_cost: u64) -> (res: Result<TaggedRelation, Error>)
        requires
            self.wf(),
            output.ok(self.next()),
            cost < self.next(),
        ensures
            res is Ok <==> output.depth() <= MAX_DEPTH,
            res is Err ==> res == Err::<TaggedRelation, Error>(Error::Limit),
            res matches Ok(r) ==> {
                &&& r.wf()
                &&& r.max_cost == max_cost
                &&& r.cost == cost
                &&& r.inputs@.len() == self.inputs
                &&& r.ops@ == self.ops@
                &&& is_pow2(r.instance.num_rows as nat)
                &&& is_pow2(r.instance.num_cols as nat)
                &&& self.rows@.len() <= r.instance.num_rows
                &&& r.instance.matrices@.len() == 3
                &&& forces_tagged_wires(&r)
                &&& r.output == output
                &&& self.next() <= r.instance.num_cols
                &&& forall|q: int|
                    0 <= q < self.rows@.len() ==> #[trigger] row_triple(
                        r.instance.matrices@[0],
                        r.instance.matrices@[1],
                        r.instance.matrices@[2],
                        q,
                    ) == self.rows@[q]
            },
    {
        check_depth(&output, 0)?;
        let nrows = if self.rows.len() < 2 { 2 } else { self.rows.len() };
        let rows = next_pow2(nrows);
        let width = 2 + self.inputs + self.ops.len();
        let ncols = if width < 64 { 64 } else { width };
        let cols = next_pow2(ncols);
        let mut m0 = SparseMatrix::new(rows, cols);
        let mut m1 = SparseMatrix::new(rows, cols);
        let mut m2 = SparseMatrix::new(rows, cols);
        let ghost brows = self.rows@;
        let mut rest = self.rows;
        while rest.len() > 0
            invariant
                rest@.len() <= brows.len(),
                rest@ == brows.subrange(0, rest@.len() as int),
                brows.len() <= rows,
                m0.rows == rows && m0.cols == cols && m0.entries@.len() == rows,
                m1.rows == rows && m1.cols == cols && m1.entries@.len() == rows,
                m2.rows == rows && m2.cols == cols && m2.entries@.len() == rows,
                forall|i: int| rest@.len() <= i < brows.len() ==> {
                    &&& (#[trigger] m0.entries@[i]) == brows[i].0
                    &&& m1.entries@[i] == brows[i].1
                    &&& m2.entries@[i] == brows[i].2
                },
            decreases rest@.len(),
        {
            let ghost r_old = rest@;
            let ghost (om0, om1, om2) = (m0, m1, m2);
            let idx = rest.len() - 1;
            let (a, b, c) = rest.pop().unwrap();
            proof {
                assert(r_old[idx as int] == brows[idx as int]);
                assert((a, b, c) == brows[idx as int]);
                assert(rest@ =~= brows.subrange(0, rest@.len() as int));
            }
            let ghost e0 = m0.entries@;
            let ghost e1 = m1.entries@;
            let ghost e2 = m2.entries@;
            m0.entries.set(idx, a);
            m1.entries.set(idx, b);
            m2.entries.set(idx, c);
            proof {
                assert forall|i: int| rest@.len() <= i < brows.len() implies {
                    &&& (#[trigger] m0.entries@[i]) == brows[i].0
                    &&& m1.entries@[i] == brows[i].1
                    &&& m2.entries@[i] == brows[i].2
                } by {
                    if i == idx {
                        assert(m0.entries@[i] == a);
                        assert(m1.entries@[i] == b);
                        assert(m2.entries@[i] == c);
                    } else {
                        assert(om0.entries@[i] == brows[i].0);
                        assert(om1.entries@[i] == brows[i].1);
                        assert(om2.entries@[i] == brows[i].2);
                        assert(m0.entries@[i] == e0[i]);
                        assert(m1.entries@[i] == e1[i]);
                        assert(m2.entries@[i] == e2[i]);
                    }
                }
            }
        }
        let mut inputs: Vec<usize> = Vec::new();
        let mut i: usize = 0;
        while i < self.inputs
            invariant
                i <= self.inputs,
                self.inputs <= MAX_INPUTS,
                inputs@.len() == i,
                forall|j: int| 0 <= j < i ==> #[trigger] inputs@[j] == 2 + j,
            decreases self.inputs - i,
        {
            inputs.push(2 + i);
            i = i + 1;
        }
        let ghost (g0, g1, g2) = (m0, m1, m2);
        let matrices = vec![m0, m1, m2];
        assert(matrices@[0] == g0 && matrices@[1] == g1 && matrices@[2] == g2);
        let multisets: Vec<Vec<usize>> = vec![vec![0usize, 1usize], vec![2usize]];
        let mo = builder::minus_one();
        proof {
            vstd::arithmetic::div_mod::lemma_small_mod(1nat, modulus());
            vstd::arithmetic::div_mod::lemma_small_mod((modulus() - 1) as nat, modulus());
            assert(mo@ == modulus() - 1);
        }
        let one = Goldilocks::one();
        let coeffs = vec![one, mo];
        let instance = CCSInstance { matrices, multisets, coeffs, num_rows: rows, num_cols: cols };
        proof {
            assert(instance.multisets@[0]@ == seq![0usize, 1usize]);
            assert(instance.multisets@[1]@ == seq![2usize]);
            assert(instance.num_terms() == 2);
            assert(instance.matrices@[0].wf() && instance.matrices@[1].wf() && instance.matrices@[2].wf());
            assert(instance.wf());
        }
        let r = TaggedRelation { instance, inputs, output, cost, max_cost, ops: self.ops };
        proof {
            assert(r.width() == self.next());
            assert(r.width() <= r.instance.num_cols);
            assert(forall|k: int| 0 <= k < r.ops@.len() ==> (#[trigger] r.ops@[k]).ok((2 + r.inputs@.len() + k) as nat));
            assert forall|i: int| 0 <= i < brows.len() implies {
                &&& (#[trigger] r.instance.matrices@[0].entries@[i]) == brows[i].0
                &&& r.instance.matrices@[1].entries@[i] == brows[i].1
                &&& r.instance.matrices@[2].entries@[i] == brows[i].2
            } by {
                assert(g0.entries@[i] == brows[i].0);
                assert(g1.entries@[i] == brows[i].1);
                assert(g2.entries@[i] == brows[i].2);
            }
            assert(r.wf());
            assert(r.inputs@.len() == self.inputs);
            assert(r.ops@ == self.ops@);
            assert(is_pow2(r.instance.num_rows as nat));
            assert(is_pow2(r.instance.num_cols as nat));
            assert(self.rows@.len() <= r.instance.num_rows);
            assert(r.instance.matrices@.len() == 3);
            assert(r.instance.coeffs@[1]@ == modulus() - 1);
            assert(r.instance.coeffs@[0]@ == 1);
            assert(r1cs_shape(&r.instance));
            reveal(builder::defined);
            assert forall|k: int| 0 <= k < r.ops@.len() && (r.ops@[k] is Linear || r.ops@[k] is Product) implies exists|q: int|
                0 <= q < r.instance.num_rows && builder::defines(
                    #[trigger] row_triple(r.instance.matrices@[0], r.instance.matrices@[1], r.instance.matrices@[2], q),
                    r.ops@[k],
                    r.inputs@.len() + 2 + k,
                ) by {
                assert(builder::has_def_row(brows, self.ops@[k], self.inputs + 2 + k));
                let q = choose|q: int| 0 <= q < brows.len() && builder::defines(#[trigger] brows[q], self.ops@[k], self.inputs + 2 + k);
                assert(r.instance.matrices@[0].entries@[q] == brows[q].0);
                assert(row_triple(r.instance.matrices@[0], r.instance.matrices@[1], r.instance.matrices@[2], q) == brows[q]);
            }
            assert(forces_tagged_wires(&r));
            assert forall|q: int| 0 <= q < brows.len() implies #[trigger] row_triple(
                r.instance.matrices@[0],
                r.instance.matrices@[1],
                r.instance.matrices@[2],
                q,
            ) == brows[q] by {
                assert(r.instance.matrices@[0].entries@[q] == brows[q].0);
            }
        }
        Ok(r)
    }
}


/// The input pins: each input wire with its claimed value.
pub open spec fn input_pins(wires: Seq<usize>, inputs: Seq<u64>) -> Seq<(usize, nat)> {
    Seq::new(inputs.len(), |i: int| (wires[i], inputs[i] as nat))
}

/// The public coordinates of a claim, or why it is refused.
pub open spec fn coordinates_spec(r: &TaggedRelation, inputs: Seq<u64>, output: Noun, cost: u64, budget: u64) -> Result<Seq<(usize, nat)>, Error> {
    if inputs.len() != r.inputs@.len() {
        Err(Error::InputCount)
    } else if cost > budget || cost > r.max_cost || budget >= P {
        Err(Error::Limit)
    } else {
        match check_spec(output, 0, 0) {
            Err(e) => Err(e),
            Ok(_) => if exists|i: int| 0 <= i < inputs.len() && inputs[i] >= P {
                Err(Error::NonCanonical)
            } else {
                match bind_spec(*r.output, Some(output)) {
                    None => Err(Error::Malformed),
                    Some(b) => Ok(seq![(ONE, 1nat), (ZERO, 0nat), (r.cost, cost as nat)] + input_pins(r.inputs@, inputs) + b),
                }
            },
        }
    }
}

/// Every pin holds in `z`.
pub open spec fn pins_hold(pins: Seq<(usize, nat)>, z: Seq<Goldilocks>) -> bool {
    forall|i: int| 0 <= i < pins.len() ==> (#[trigger] pins[i]).0 < z.len() && z[pins[i].0 as int]@ == pins[i].1
}

impl TaggedRelation {
    /// The coordinates a verifier pins: one, zero, the cost, the inputs and
    /// the claimed output noun.
    pub fn public_coordinates(&self, inputs: &[u64], output: &Noun, cost: u64, budget: u64) -> (res: Result<Vec<(usize, Goldilocks)>, Error>)
        requires
            self.wf(),
        ensures
            match coordinates_spec(self, inputs@, *output, cost, budget) {
                Ok(pins) => res is Ok && pin_view(res->Ok_0@) == pins,
                Err(e) => res == Err::<Vec<(usize, Goldilocks)>, Error>(e),
            },
    {
        if inputs.len() != self.inputs.len() {
            return Err(Error::InputCount);
        }
        if cost > budget || cost > self.max_cost || budget >= P {
            return Err(Error::Limit);
        }
        let mut count: usize = 0;
        check_noun(output, 0, &mut count)?;
        let mut i: usize = 0;
        while i < inputs.len()
            invariant
                i <= inputs@.len(),
                inputs@.len() == self.inputs@.len(),
                cost <= budget && cost <= self.max_cost && budget < P,
                check_spec(*output, 0, 0) is Ok,
                forall|j: int| 0 <= j < i ==> inputs@[j] < P,
            decreases inputs@.len() - i,
        {
            if inputs[i] >= P {
                assert(0 <= i < inputs@.len() && inputs@[i as int] >= P);
                return Err(Error::NonCanonical);
            }
            i = i + 1;
        }
        let mut pins: Vec<(usize, Goldilocks)> = vec![
            (ONE, Goldilocks::one()),
            (ZERO, Goldilocks::zero()),
            (self.cost, Goldilocks::new(cost)),
        ];
        proof {
            vstd::arithmetic::div_mod::lemma_small_mod(cost as nat, modulus());
            assert(pin_view(pins@) =~= seq![(ONE, 1nat), (ZERO, 0nat), (self.cost, cost as nat)]);
        }
        let mut i: usize = 0;
        while i < inputs.len()
            invariant
                i <= inputs@.len(),
                inputs@.len() == self.inputs@.len(),
                forall|j: int| 0 <= j < inputs@.len() ==> inputs@[j] < P,
                pin_view(pins@) == seq![(ONE, 1nat), (ZERO, 0nat), (self.cost, cost as nat)] + input_pins(self.inputs@.subrange(0, i as int), inputs@.subrange(0, i as int)),
            decreases inputs@.len() - i,
        {
            let ghost before = pin_view(pins@);
            pins.push((self.inputs[i], Goldilocks::new(inputs[i])));
            proof {
                vstd::arithmetic::div_mod::lemma_small_mod(inputs@[i as int] as nat, modulus());
                assert(input_pins(self.inputs@.subrange(0, i + 1), inputs@.subrange(0, i + 1)) =~= input_pins(self.inputs@.subrange(0, i as int), inputs@.subrange(0, i as int)).push((self.inputs@[i as int], inputs@[i as int] as nat)));
                assert(pin_view(pins@) =~= before.push((self.inputs@[i as int], inputs@[i as int] as nat)));
            }
            i = i + 1;
        }
        proof {
            assert(self.inputs@.subrange(0, i as int) == self.inputs@);
            assert(inputs@.subrange(0, i as int) == inputs@);
        }
        bind_output(&self.output, Some(output), &mut pins)?;
        Ok(pins)
    }

    /// Whether `witness` satisfies the relation with the claimed inputs,
    /// output, cost and budget pinned.
    pub fn verify_witness(&self, inputs: &[u64], output: &Noun, cost: u64, budget: u64, witness: &CCSWitness) -> (ok: bool)
        requires
            self.wf(),
        ensures
            ok == {
                &&& witness.z@.len() == self.instance.num_cols
                &&& coordinates_spec(self, inputs@, *output, cost, budget) is Ok
                &&& pins_hold(coordinates_spec(self, inputs@, *output, cost, budget)->Ok_0, witness.z@)
                &&& self.instance.satisfied(witness.z@)
            },
    {
        if witness.z.len() != self.instance.num_cols {
            return false;
        }
        let pins = match self.public_coordinates(inputs, output, cost, budget) {
            Ok(p) => p,
            Err(_) => {
                return false;
            },
        };
        let ghost pv = pin_view(pins@);
        let mut i: usize = 0;
        while i < pins.len()
            invariant
                self.wf(),
                witness.z@.len() == self.instance.num_cols,
                coordinates_spec(self, inputs@, *output, cost, budget) is Ok,
                pv == coordinates_spec(self, inputs@, *output, cost, budget)->Ok_0,
                i <= pins@.len(),
                pv == pin_view(pins@),
                forall|j: int| 0 <= j < i ==> (#[trigger] pv[j]).0 < witness.z@.len() && witness.z@[pv[j].0 as int]@ == pv[j].1,
            decreases pins@.len() - i,
        {
            let (w, v) = pins[i];
            assert(pv[i as int] == (w, v@));
            if w >= witness.z.len() || !witness.z[w].equals(v) {
                return false;
            }
            i = i + 1;
        }
        self.instance.is_satisfied_by(witness)
    }
}

/// Compile `program` over subjects of shape `subject` into a tagged
/// relation. The matrices depend only on the program and the shape.
pub fn compile(program: &Noun, subject: &SubjectShape, tables: HashTables) -> (res: Result<TaggedRelation, Error>)
    ensures
        check_spec(*program, 0, 0) matches Err(e) ==> res == Err::<TaggedRelation, Error>(e),
        check_spec(*program, 0, 0) is Ok && shape_spec(*subject, 0, 0) is Err ==> res == Err::<TaggedRelation, Error>(shape_spec(*subject, 0, 0)->Err_0),
        res matches Ok(r) ==> {
            &&& r.wf()
            &&& r.max_cost == max_cost(*program)
            &&& r.max_cost < P
            &&& r.inputs@.len() == subject.leaves()
            &&& forces_tagged_wires(&r)
            &&& computes_tagged(&r, *program, *subject)
        },
        res is Err ==> res->Err_0 is Limit || res->Err_0 is Unsupported || res->Err_0 is NonCanonical,
{
    let mut count: usize = 0;
    proof {
        lemma_check_err(*program, 0, 0);
        lemma_shape_err(*subject, 0, 0);
    }
    check_noun(program, 0, &mut count)?;
    proof {
        lemma_check_size(*program, 0, 0);
    }
    let mut nodes: usize = 0;
    let inputs = shape_inputs(subject, 0, &mut nodes)?;
    proof {
        lemma_shape_size(*subject, 0, 0);
    }
    let mut b = Builder::new(inputs, tables);
    let ghost b0 = b;
    let mut next: usize = 2;
    let obj = b.subject(subject, &mut next)?;
    let ghost bs = b;
    let (output, cost, max) = b.eval(&obj, program, ONE, 0)?;
    let ghost be = b;
    if max >= P {
        return Err(Error::Limit);
    }
    let ghost go = *output;
    let r = b.finish(output, cost, max)?;
    proof {
        word::lemma_grows_trans(&b0, &bs, &be);
        lemma_tagged_computes(&r, &be, &b0, *obj, go, *program, *subject);
    }
    Ok(r)
}

/// Every satisfying witness of the tagged relation, with the one wire one,
/// makes its output node stand for the reduction of `program` on the
/// subject read from its input wires, wherever the tagged fragment of nox
/// defines that reduction.
pub open spec fn computes_tagged(r: &TaggedRelation, program: Noun, shape: SubjectShape) -> bool {
    forall|z: Seq<Goldilocks>|
        #[trigger] r.instance.satisfied(z) ==> (z.len() == r.instance.num_cols && z[ONE as int]@ == 1 && (forall|j: int|
            0 <= j < z.len() ==> (#[trigger] z[j])@ < modulus()) && meaning::in_tagged_fragment(program) ==> (nox_reduce(
            shape_den(shape, nats(z), 2),
            program,
        ) matches Some(n) ==> meaning::node_den(*r.output, nats(z)) == n))
}

proof fn lemma_tagged_computes(r: &TaggedRelation, b: &Builder, b0: &Builder, obj: Node, out: Node, program: Noun, shape: SubjectShape)
    requires
        b.wf(),
        b.grows(b0),
        b0.rows@.len() >= 1,
        builder::is_unit(b0.rows@[0].0@, ZERO as int),
        builder::is_unit(b0.rows@[0].1@, ONE as int),
        b0.rows@[0].2@.len() == 0,
        meaning::tagged_reduces_to(b, obj, program, ONE, out),
        forall|z: Seq<nat>| #[trigger] meaning::node_den(obj, z) == shape_den(shape, z, 2),
        r1cs_shape(&r.instance),
        b.rows@.len() <= r.instance.num_rows,
        forall|q: int|
            0 <= q < b.rows@.len() ==> #[trigger] row_triple(
                r.instance.matrices@[0],
                r.instance.matrices@[1],
                r.instance.matrices@[2],
                q,
            ) == b.rows@[q],
        b.next() <= r.instance.num_cols,
        *r.output == out,
    ensures
        computes_tagged(r, program, shape),
{
    let u = &r.instance;
    assert forall|z: Seq<Goldilocks>| #[trigger] r.instance.satisfied(z) implies (z.len() == r.instance.num_cols && z[ONE as int]@ == 1
        && (forall|j: int| 0 <= j < z.len() ==> (#[trigger] z[j])@ < modulus()) && meaning::in_tagged_fragment(program) ==> (
    nox_reduce(shape_den(shape, nats(z), 2), program) matches Some(n) ==> meaning::node_den(*r.output, nats(z)) == n)) by {
        if z.len() == r.instance.num_cols && z[ONE as int]@ == 1 && (forall|j: int| 0 <= j < z.len() ==> (#[trigger] z[j])@ < modulus()) {
            let nz = nats(z);
            assert(nz.len() == z.len());
            assert forall|i: int| 0 <= i < nz.len() implies #[trigger] nz[i] < modulus() by {
                assert(nz[i] == z[i]@);
            }
            assert forall|q: int| 0 <= q < b.rows@.len() implies row_holds(#[trigger] b.rows@[q], nz) by {
                assert(u.row_value(z, q) == 0);
                lemma_r1cs_row(u, z, q);
                let row = b.rows@[q];
                assert(row_triple(u.matrices@[0], u.matrices@[1], u.matrices@[2], q) == row);
                assert(builder::row_ok(row, b.next()));
                assert(lin_ok(row.0@, z.len()));
                assert(lin_ok(row.1@, z.len()));
                assert(lin_ok(row.2@, z.len()));
                lemma_lin_row_dot(row.0@, z);
                lemma_lin_row_dot(row.1@, z);
                lemma_lin_row_dot(row.2@, z);
            }
            let row0 = b.rows@[0];
            assert(row0 == b0.rows@[0]);
            assert(row_holds(row0, nz));
            lemma_unit_value(row0.0@, nz, ZERO as int);
            lemma_unit_value(row0.1@, nz, ONE as int);
            assert(lin_value(row0.2@, nz) == 0);
            meaning::lemma_one_times(nz[ZERO as int]);
            assert(nz[ZERO as int] == 0);
            assert(meaning::tagged_satisfied_by(b, nz));
            assert(meaning::node_den(obj, nz) == shape_den(shape, nz, 2));
        }
    }
}
/// Every linear and product wire of the tagged relation is defined by a
/// row of its R1CS-shaped instance: `l · 1 = w` or `z[a] · z[b] = w`.
pub open spec fn forces_tagged_wires(r: &TaggedRelation) -> bool {
    &&& r1cs_shape(&r.instance)
    &&& forall|k: int|
        0 <= k < r.ops@.len() && (r.ops@[k] is Linear || r.ops@[k] is Product) ==> exists|q: int|
            0 <= q < r.instance.num_rows && builder::defines(
                #[trigger] row_triple(r.instance.matrices@[0], r.instance.matrices@[1], r.instance.matrices@[2], q),
                r.ops@[k],
                r.inputs@.len() + 2 + k,
            )
}

/// Soundness of the linear and product wires of a tagged relation: on any
/// witness that satisfies its instance with the one wire pinned to one,
/// each wire a linear or product operation computes holds that
/// operation's value.
pub proof fn lemma_tagged_forced_wires(r: &TaggedRelation, z: Seq<Goldilocks>, k: int)
    requires
        r.wf(),
        forces_tagged_wires(r),
        z.len() == r.instance.num_cols,
        z[ONE as int]@ == 1,
        forall|j: int| 0 <= j < z.len() ==> (#[trigger] z[j])@ < modulus(),
        r.instance.satisfied(z),
        0 <= k < r.ops@.len(),
        r.ops@[k] is Linear || r.ops@[k] is Product,
    ensures
        z[r.inputs@.len() + 2 + k]@ == op_value(r.ops@[k], nats(z)),
{
    let u = &r.instance;
    let w = r.inputs@.len() + 2 + k;
    let q = choose|q: int|
        0 <= q < u.num_rows && builder::defines(#[trigger] row_triple(u.matrices@[0], u.matrices@[1], u.matrices@[2], q), r.ops@[k], w);
    assert(u.row_value(z, q) == 0);
    lemma_r1cs_row(u, z, q);
    let t = row_triple(u.matrices@[0], u.matrices@[1], u.matrices@[2], q);
    assert(r.ops@[k].ok((2 + r.inputs@.len() + k) as nat));
    assert(w < r.width());
    assert(u.matrices@[0].row(q) == t.0@);
    assert(u.matrices@[1].row(q) == t.1@);
    assert(u.matrices@[2].row(q) == t.2@);
    lemma_unit_dot(t.2@, z, w);
    match r.ops@[k] {
        Op::Linear(l) => {
            lemma_lin_row_dot(l@, z);
            lemma_unit_dot(t.1@, z, ONE as int);
            let az = u.matrices@[0].apply(z, q);
            vstd::arithmetic::div_mod::lemma_small_mod(az, modulus());
            assert(az * 1 == az);
            assert(fmul(az, 1) == az);
        },
        Op::Product(a, b) => {
            lemma_unit_dot(t.0@, z, a as int);
            lemma_unit_dot(t.1@, z, b as int);
            assert(nats(z)[a as int] == z[a as int]@);
            assert(nats(z)[b as int] == z[b as int]@);
        },
        _ => {},
    }
}

/// A unit combination reads its wire.
proof fn lemma_unit_dot(l: Seq<(usize, Goldilocks)>, z: Seq<Goldilocks>, w: int)
    requires
        builder::is_unit(l, w),
        0 <= w < z.len(),
        z[w]@ < modulus(),
    ensures
        crate::types::row_dot(l, z) == z[w]@,
{
    assert(l.drop_last().len() == 0);
    assert(crate::types::row_dot(l.drop_last(), z) == 0);
    assert(l.last() == l[0]);
    vstd::arithmetic::div_mod::lemma_small_mod(z[w]@, modulus());
    assert(1 * z[w]@ == z[w]@);
    assert(crate::field::fadd(0, fmul(1, z[w]@)) == z[w]@);
}

} // verus!
