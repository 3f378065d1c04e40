//! The constraint builder: wires, operations, R1CS rows and tagged nodes.
use crate::execution::relation::{ExecutionNoun as Noun, RelationError as Error, SubjectShape};
use super::lin_value;
use super::meaning::{lemma_one_times, lemma_tagged_ops, lemma_tagged_shrink, node_den, tagged_satisfied_by};
use crate::execution::relation_semantics::{canon, lemma_single_term, shape_den};
use crate::field::{fmul, modulus, Goldilocks};
use vstd::prelude::*;

verus! {

/// The wire that carries the constant one.
pub const ONE: usize = 0;
/// The wire that carries the constant zero.
pub const ZERO: usize = 1;
/// Most nodes a relation may create.
pub const MAX_NODES: usize = 4096;
/// Deepest formula or noun nesting accepted.
pub const MAX_DEPTH: usize = 128;
/// Most operations, and most rows, a relation may create.
pub const MAX_GATES: usize = 32768;
/// Most subject atoms: a subject is limited by the node budget.
pub const MAX_INPUTS: usize = 4096;

/// A linear combination of wires.
pub type Linear = Vec<(usize, Goldilocks)>;

/// The Poseidon2 constants that the hash gadgets apply.
#[derive(Clone, Copy, Debug)]
pub struct HashTables {
    /// The external (full-round) linear layer as a matrix.
    pub external: [[Goldilocks; 16]; 16],
    /// The diagonal of the internal (partial-round) linear layer.
    pub diag: [Goldilocks; 16],
    /// The round constants, full rounds first (64 + 64), then partial (16).
    pub round_constants: [u64; 144],
}

/// A node of a symbolic noun: its tag wire (0 atom, 1 pair), value wire and
/// optional children.
#[derive(Debug)]
pub struct Node {
    pub id: usize,
    pub tag: usize,
    pub value: usize,
    pub children: Option<(Box<Node>, Box<Node>)>,
}

/// How the witness computes a wire from earlier wires.
#[derive(Debug)]
pub enum Op {
    Linear(Linear),
    Product(usize, usize),
    Inverse(usize),
    Bit(usize, usize),
}

/// Every wire of `l` is below `n`.
pub open spec fn lin_ok(l: Seq<(usize, Goldilocks)>, n: nat) -> bool {
    forall|i: int| 0 <= i < l.len() ==> (#[trigger] l[i]).0 < n
}

/// Every wire of the three linear combinations of a row is below `n`.
pub open spec fn row_ok(row: (Linear, Linear, Linear), n: nat) -> bool {
    lin_ok(row.0@, n) && lin_ok(row.1@, n) && lin_ok(row.2@, n)
}

/// Every wire of a digest is below `n`.
pub open spec fn digest_ok(d: [usize; 4], n: nat) -> bool {
    forall|i: int| 0 <= i < 4 ==> #[trigger] d@[i] < n
}

impl Op {
    /// The operation reads only wires below `n`.
    pub open spec fn ok(&self, n: nat) -> bool {
        match self {
            Op::Linear(l) => lin_ok(l@, n),
            Op::Product(a, b) => *a < n && *b < n,
            Op::Inverse(a) => *a < n,
            Op::Bit(a, k) => *a < n && *k < 64,
        }
    }
}

impl Node {
    /// Every wire of the node and its descendants is below `n`.
    pub open spec fn ok(&self, n: nat) -> bool
        decreases self,
    {
        &&& self.tag < n
        &&& self.value < n
        &&& match self.children {
            Some((a, b)) => a.ok(n) && b.ok(n),
            None => true,
        }
    }

    /// Number of nodes in the tree.
    pub open spec fn size(&self) -> nat
        decreases self,
    {
        match self.children {
            Some((a, b)) => 1 + a.size() + b.size(),
            None => 1,
        }
    }

    /// Nesting depth: a leaf has depth 0.
    pub open spec fn depth(&self) -> nat
        decreases self,
    {
        match self.children {
            Some((a, b)) => 1 + vstd::math::max(a.depth() as int, b.depth() as int) as nat,
            None => 0,
        }
    }

    /// A deep copy.
    pub fn copy(&self) -> (r: Node)
        ensures
            r == *self,
        decreases self,
    {
        let children = match &self.children {
            Some((a, b)) => Some((Box::new(a.copy()), Box::new(b.copy()))),
            None => None,
        };
        Node { id: self.id, tag: self.tag, value: self.value, children }
    }
}

/// A node whose wires are below `a` has wires below any larger bound.
pub proof fn lemma_node_mono(node: &Node, a: nat, b: nat)
    requires
        node.ok(a),
        a <= b,
    ensures
        node.ok(b),
    decreases node,
{
    if let Some((l, r)) = &node.children {
        lemma_node_mono(l, a, b);
        lemma_node_mono(r, a, b);
    }
}

/// `l` is the single term one times wire `w`.
pub open spec fn is_unit(l: Seq<(usize, Goldilocks)>, w: int) -> bool {
    l.len() == 1 && l[0].0 == w && l[0].1@ == 1
}

/// `row` states that wire `w` is the value of `op`: `l · 1 = w` for a
/// linear operation, `z[a] · z[b] = w` for a product.
pub open spec fn defines(row: (Linear, Linear, Linear), op: Op, w: int) -> bool {
    match op {
        Op::Linear(l) => row.0@ == l@ && is_unit(row.1@, ONE as int) && is_unit(row.2@, w),
        Op::Product(a, b) => is_unit(row.0@, a as int) && is_unit(row.1@, b as int) && is_unit(row.2@, w),
        _ => true,
    }
}

/// Some row defines the wire of `op`.
pub open spec fn has_def_row(rows: Seq<(Linear, Linear, Linear)>, op: Op, w: int) -> bool {
    match op {
        Op::Linear(_) | Op::Product(_, _) => exists|r: int| 0 <= r < rows.len() && defines(#[trigger] rows[r], op, w),
        _ => true,
    }
}

/// Every linear and product wire has its defining row.
#[verifier::opaque]
pub open spec fn defined(ops: Seq<Op>, rows: Seq<(Linear, Linear, Linear)>, inputs: nat) -> bool {
    forall|k: int| 0 <= k < ops.len() ==> has_def_row(rows, #[trigger] ops[k], inputs + 2 + k)
}

proof fn lemma_defined_push_row(ops: Seq<Op>, rows: Seq<(Linear, Linear, Linear)>, inputs: nat, row: (Linear, Linear, Linear))
    requires
        defined(ops, rows, inputs),
    ensures
        defined(ops, rows.push(row), inputs),
{
    reveal(defined);
    assert forall|k: int| 0 <= k < ops.len() implies has_def_row(rows.push(row), #[trigger] ops[k], inputs + 2 + k) by {
        assert(has_def_row(rows, ops[k], inputs + 2 + k));
        match ops[k] {
            Op::Linear(_) | Op::Product(_, _) => {
                let r = choose|r: int| 0 <= r < rows.len() && defines(#[trigger] rows[r], ops[k], inputs + 2 + k);
                assert(rows.push(row)[r] == rows[r]);
            },
            _ => {},
        }
    }
}

proof fn lemma_defined_push_op(ops: Seq<Op>, rows: Seq<(Linear, Linear, Linear)>, inputs: nat, op: Op)
    requires
        defined(ops, rows, inputs),
        has_def_row(rows, op, (inputs + 2 + ops.len()) as int),
    ensures
        defined(ops.push(op), rows, inputs),
{
    reveal(defined);
    assert forall|k: int| 0 <= k < ops.len() + 1 implies has_def_row(rows, #[trigger] ops.push(op)[k], inputs + 2 + k) by {
        if k < ops.len() {
            assert(ops.push(op)[k] == ops[k]);
        }
    }
}

/// The constraint builder.
pub struct Builder {
    pub inputs: usize,
    pub ops: Vec<Op>,
    pub rows: Vec<(Linear, Linear, Linear)>,
    pub nodes: usize,
    pub calls: usize,
    pub digests: Vec<(usize, [usize; 4])>,
    pub atom_digests: Vec<(usize, [usize; 4])>,
    pub pair_digests: Vec<([usize; 4], [usize; 4], [usize; 4])>,
    pub tables: HashTables,
}

/// The constant −1.
pub fn minus_one() -> (r: Goldilocks)
    ensures
        r@ == crate::field::fneg(1),
{
    Goldilocks::one().neg()
}


/// A copy of a linear combination.
pub fn clone_linear(l: &Linear) -> (r: Linear)
    ensures
        r@ == l@,
{
    let mut r: Linear = Vec::new();
    let mut i: usize = 0;
    while i < l.len()
        invariant
            i <= l@.len(),
            r@ == l@.subrange(0, i as int),
        decreases l@.len() - i,
    {
        r.push(l[i]);
        i = i + 1;
    }
    assert(r@ == l@.subrange(0, l@.len() as int));
    r
}

impl Builder {
    /// The next wire to be allocated: constants, inputs, then one per op.
    pub open spec fn next(&self) -> nat {
        (2 + self.inputs + self.ops@.len()) as nat
    }

    /// Sizes within limits, and every op, row, cached digest and node reads
    /// only wires that already exist.
    pub open spec fn wf(&self) -> bool {
        &&& self.inputs <= MAX_INPUTS
        &&& self.ops@.len() <= MAX_GATES
        &&& 1 <= self.rows@.len() <= MAX_GATES
        &&& self.nodes <= MAX_NODES
        &&& self.calls <= MAX_NODES
        &&& forall|k: int| 0 <= k < self.ops@.len() ==> (#[trigger] self.ops@[k]).ok((2 + self.inputs + k) as nat)
        &&& forall|r: int| 0 <= r < self.rows@.len() ==> row_ok(#[trigger] self.rows@[r], self.next())
        &&& forall|i: int| 0 <= i < self.digests@.len() ==> digest_ok((#[trigger] self.digests@[i]).1, self.next())
        &&& forall|i: int| 0 <= i < self.atom_digests@.len() ==> digest_ok((#[trigger] self.atom_digests@[i]).1, self.next())
        &&& forall|i: int| 0 <= i < self.pair_digests@.len() ==> digest_ok((#[trigger] self.pair_digests@[i]).2, self.next())
        &&& defined(self.ops@, self.rows@, self.inputs as nat)
    }

    /// `self` extends `old`: same inputs and tables, and the operations of
    /// `old` are a prefix of those of `self`.
    pub open spec fn grows(&self, old: &Builder) -> bool {
        &&& self.inputs == old.inputs
        &&& self.tables == old.tables
        &&& old.ops@.len() <= self.ops@.len()
        &&& forall|k: int| 0 <= k < old.ops@.len() ==> self.ops@[k] == #[trigger] old.ops@[k]
        &&& old.rows@.len() <= self.rows@.len()
        &&& forall|k: int| 0 <= k < old.rows@.len() ==> self.rows@[k] == #[trigger] old.rows@[k]
    }

    /// A builder for a subject of `inputs` atoms, with the row that pins
    /// the zero wire.
    pub fn new(inputs: usize, tables: HashTables) -> (b: Builder)
        requires
            inputs <= MAX_INPUTS,
        ensures
            b.wf(),
            b.inputs == inputs,
            b.tables == tables,
            b.ops@.len() == 0,
            b.rows@.len() == 1,
            b.nodes == 0,
            b.calls == 0,
            is_unit(b.rows@[0].0@, ZERO as int),
            is_unit(b.rows@[0].1@, ONE as int),
            b.rows@[0].2@.len() == 0,
    {
        let a: Linear = vec![(ZERO, Goldilocks::one())];
        let bl: Linear = vec![(ONE, Goldilocks::one())];
        let c: Linear = Vec::new();
        let mut rows: Vec<(Linear, Linear, Linear)> = Vec::new();
        rows.push((a, bl, c));
        proof {
            reveal(defined);
        }
        Builder {
            inputs,
            ops: Vec::new(),
            rows,
            nodes: 0,
            calls: 0,
            digests: Vec::new(),
            atom_digests: Vec::new(),
            pair_digests: Vec::new(),
            tables,
        }
    }

    /// Append the row `⟨a,z⟩ · ⟨b,z⟩ = ⟨c,z⟩`.
    pub fn row(&mut self, a: Linear, b: Linear, c: Linear) -> (res: Result<(), Error>)
        requires
            old(self).wf(),
            lin_ok(a@, old(self).next()),
            lin_ok(b@, old(self).next()),
            lin_ok(c@, old(self).next()),
        ensures
            res is Ok <==> old(self).rows@.len() < MAX_GATES,
            res is Err ==> res == Err::<(), Error>(Error::Limit),
            res is Ok ==> {
                &&& final(self).wf()
                &&& final(self).grows(old(self))
                &&& final(self).ops@ == old(self).ops@
                &&& final(self).rows@ == old(self).rows@.push((a, b, c))
                &&& final(self).nodes == old(self).nodes
                &&& final(self).calls == old(self).calls
            },
    {
        if self.rows.len() >= MAX_GATES {
            return Err(Error::Limit);
        }
        let ghost before = *self;
        self.rows.push((a, b, c));
        proof {
            lemma_defined_push_row(before.ops@, before.rows@, before.inputs as nat, (a, b, c));
        }
        Ok(())
    }

    /// Allocate the next wire, computed by `op`.
    pub fn allocate(&mut self, op: Op) -> (res: Result<usize, Error>)
        requires
            old(self).wf(),
            op.ok(old(self).next()),
            !(op is Linear),
            !(op is Product),
        ensures
            res is Ok <==> old(self).ops@.len() < MAX_GATES,
            res is Err ==> res == Err::<usize, Error>(Error::Limit),
            res is Ok ==> {
                &&& final(self).wf()
                &&& final(self).grows(old(self))
                &&& res->Ok_0 == old(self).next()
                &&& final(self).ops@ == old(self).ops@.push(op)
                &&& final(self).rows@ == old(self).rows@
                &&& final(self).nodes == old(self).nodes
                &&& final(self).calls == old(self).calls
            },
    {
        if self.ops.len() >= MAX_GATES {
            return Err(Error::Limit);
        }
        let wire = 2 + self.inputs + self.ops.len();
        let ghost before = *self;
        self.ops.push(op);
        proof {
            lemma_defined_push_op(before.ops@, before.rows@, before.inputs as nat, op);
            assert forall|r: int| 0 <= r < self.rows@.len() implies row_ok(#[trigger] self.rows@[r], self.next()) by {
                assert(row_ok(old(self).rows@[r], old(self).next()));
            }
            assert forall|i: int| 0 <= i < self.digests@.len() implies digest_ok((#[trigger] self.digests@[i]).1, self.next()) by {
                assert(digest_ok(old(self).digests@[i].1, old(self).next()));
            }
            assert forall|i: int| 0 <= i < self.atom_digests@.len() implies digest_ok((#[trigger] self.atom_digests@[i]).1, self.next()) by {
                assert(digest_ok(old(self).atom_digests@[i].1, old(self).next()));
            }
            assert forall|i: int| 0 <= i < self.pair_digests@.len() implies digest_ok((#[trigger] self.pair_digests@[i]).2, self.next()) by {
                assert(digest_ok(old(self).pair_digests@[i].2, old(self).next()));
            }
        }
        Ok(wire)
    }

    /// Allocate the wire of a linear or product operation together with
    /// the row that defines it.
    fn defined_wire(&mut self, op: Op, a: Linear, b: Linear, c: Linear) -> (res: Result<usize, Error>)
        requires
            old(self).wf(),
            op.ok(old(self).next()),
            lin_ok(a@, old(self).next() + 1),
            lin_ok(b@, old(self).next() + 1),
            lin_ok(c@, old(self).next() + 1),
            defines((a, b, c), op, old(self).next() as int),
        ensures
            res is Err ==> res == Err::<usize, Error>(Error::Limit),
            res is Ok ==> {
                &&& final(self).wf()
                &&& final(self).grows(old(self))
                &&& res->Ok_0 == old(self).next()
                &&& final(self).ops@ == old(self).ops@.push(op)
                &&& final(self).rows@ == old(self).rows@.push((a, b, c))
                &&& final(self).nodes == old(self).nodes
                &&& final(self).calls == old(self).calls
            },
    {
        if self.ops.len() >= MAX_GATES || self.rows.len() >= MAX_GATES {
            return Err(Error::Limit);
        }
        let wire = 2 + self.inputs + self.ops.len();
        let ghost before = *self;
        let ghost row = (a, b, c);
        self.rows.push((a, b, c));
        proof {
            lemma_defined_push_row(before.ops@, before.rows@, before.inputs as nat, row);
            reveal(defined);
            assert(self.rows@[before.rows@.len() as int] == row);
            assert(has_def_row(self.rows@, op, before.next() as int));
        }
        self.ops.push(op);
        proof {
            lemma_defined_push_op(before.ops@, self.rows@, before.inputs as nat, op);
            assert forall|r: int| 0 <= r < self.rows@.len() implies row_ok(#[trigger] self.rows@[r], self.next()) by {
                if r < before.rows@.len() {
                    assert(self.rows@[r] == before.rows@[r]);
                    assert(row_ok(before.rows@[r], before.next()));
                }
            }
            assert forall|k: int| 0 <= k < self.ops@.len() implies (#[trigger] self.ops@[k]).ok((2 + self.inputs + k) as nat) by {
                if k < before.ops@.len() {
                    assert(self.ops@[k] == before.ops@[k]);
                }
            }
            assert forall|i: int| 0 <= i < self.digests@.len() implies digest_ok((#[trigger] self.digests@[i]).1, self.next()) by {
                assert(digest_ok(before.digests@[i].1, before.next()));
            }
            assert forall|i: int| 0 <= i < self.atom_digests@.len() implies digest_ok((#[trigger] self.atom_digests@[i]).1, self.next()) by {
                assert(digest_ok(before.atom_digests@[i].1, before.next()));
            }
            assert forall|i: int| 0 <= i < self.pair_digests@.len() implies digest_ok((#[trigger] self.pair_digests@[i]).2, self.next()) by {
                assert(digest_ok(before.pair_digests@[i].2, before.next()));
            }
        }
        Ok(wire)
    }

    /// A new wire equal to the linear combination `l`, with its row.
    pub fn lin(&mut self, l: Linear) -> (res: Result<usize, Error>)
        requires
            old(self).wf(),
            lin_ok(l@, old(self).next()),
        ensures
            res is Err ==> res == Err::<usize, Error>(Error::Limit),
            res is Ok ==> {
                &&& final(self).wf()
                &&& final(self).grows(old(self))
                &&& res->Ok_0 == old(self).next()
                &&& final(self).next() == old(self).next() + 1
                &&& (final(self).ops@.last() matches Op::Linear(m) && m@ == l@)
                &&& final(self).nodes == old(self).nodes
                &&& final(self).calls == old(self).calls
                &&& forall|z: Seq<nat>| #[trigger] tagged_satisfied_by(final(self), z) ==> z[old(self).next() as int] == lin_value(l@, z)
            },
    {
        let copy = clone_linear(&l);
        let n = 2 + self.inputs + self.ops.len();
        let one: Linear = vec![(ONE, Goldilocks::one())];
        let out: Linear = vec![(n, Goldilocks::one())];
        let ghost lv = l@;
        let w = self.defined_wire(Op::Linear(copy), l, one, out)?;
        proof {
            assert forall|z: Seq<nat>| #[trigger] tagged_satisfied_by(self, z) implies z[old(self).next() as int] == lin_value(lv, z) by {
                lemma_tagged_ops(self, z, self.ops@.len() - 1);
            }
        }
        Ok(w)
    }

    /// A new wire equal to `z[a] · z[b]`, with its row.
    pub fn mul(&mut self, a: usize, b: usize) -> (res: Result<usize, Error>)
        requires
            old(self).wf(),
            a < old(self).next(),
            b < old(self).next(),
        ensures
            res is Err ==> res == Err::<usize, Error>(Error::Limit),
            res is Ok ==> {
                &&& final(self).wf()
                &&& final(self).grows(old(self))
                &&& res->Ok_0 == old(self).next()
                &&& final(self).next() == old(self).next() + 1
                &&& final(self).nodes == old(self).nodes
                &&& final(self).calls == old(self).calls
                &&& forall|z: Seq<nat>| #[trigger] tagged_satisfied_by(final(self), z) ==> z[old(self).next() as int] == fmul(z[a as int], z[b as int])
            },
    {
        let n = 2 + self.inputs + self.ops.len();
        let w = self.defined_wire(Op::Product(a, b), vec![(a, Goldilocks::one())], vec![(b, Goldilocks::one())], vec![(n, Goldilocks::one())])?;
        proof {
            assert forall|z: Seq<nat>| #[trigger] tagged_satisfied_by(self, z) implies z[old(self).next() as int] == fmul(z[a as int], z[b as int]) by {
                lemma_tagged_ops(self, z, self.ops@.len() - 1);
            }
        }
        Ok(w)
    }

    /// The row `z[a] · ⟨b,z⟩ = 0`.
    pub fn zero_product(&mut self, a: usize, b: Linear) -> (res: Result<(), Error>)
        requires
            old(self).wf(),
            a < old(self).next(),
            lin_ok(b@, old(self).next()),
        ensures
            res is Err ==> res == Err::<(), Error>(Error::Limit),
            res is Ok ==> {
                &&& final(self).wf()
                &&& final(self).grows(old(self))
                &&& final(self).next() == old(self).next()
                &&& final(self).nodes == old(self).nodes
                &&& final(self).calls == old(self).calls
            },
    {
        self.row(vec![(a, Goldilocks::one())], b, Vec::new())
    }

    /// A new wire holding the inverse of `z[a]` (zero for zero), unconstrained.
    pub fn inv(&mut self, a: usize) -> (res: Result<usize, Error>)
        requires
            old(self).wf(),
            a < old(self).next(),
        ensures
            res is Err ==> res == Err::<usize, Error>(Error::Limit),
            res is Ok ==> {
                &&& final(self).wf()
                &&& final(self).grows(old(self))
                &&& res->Ok_0 == old(self).next()
                &&& final(self).next() == old(self).next() + 1
                &&& final(self).nodes == old(self).nodes
                &&& final(self).calls == old(self).calls
            },
    {
        self.allocate(Op::Inverse(a))
    }

    /// A wire holding the constant `x`: the constant wires for 0 and 1.
    pub fn constant(&mut self, x: u64) -> (res: Result<usize, Error>)
        requires
            old(self).wf(),
        ensures
            res is Err ==> res == Err::<usize, Error>(Error::Limit),
            x == 0 ==> res == Ok::<usize, Error>(ZERO) && *final(self) == *old(self),
            x == 1 ==> res == Ok::<usize, Error>(ONE) && *final(self) == *old(self),
            res is Ok ==> {
                &&& final(self).wf()
                &&& final(self).grows(old(self))
                &&& res->Ok_0 < final(self).next()
                &&& final(self).nodes == old(self).nodes
                &&& final(self).calls == old(self).calls
                &&& forall|z: Seq<nat>| #[trigger] tagged_satisfied_by(final(self), z) ==> z[res->Ok_0 as int] == x as nat % modulus()
            },
    {
        proof {
            vstd::arithmetic::div_mod::lemma_small_mod(0, modulus());
            vstd::arithmetic::div_mod::lemma_small_mod(1, modulus());
        }
        if x == 0 {
            Ok(ZERO)
        } else if x == 1 {
            Ok(ONE)
        } else {
            let l = vec![(ONE, Goldilocks::new(x))];
            let ghost lv = l@;
            let w = self.lin(l)?;
            proof {
                assert forall|z: Seq<nat>| #[trigger] tagged_satisfied_by(self, z) implies z[w as int] == x as nat % modulus() by {
                    lemma_single_term(lv, z);
                    vstd::arithmetic::div_mod::lemma_mod_twice(x as int, modulus() as int);
                    lemma_one_times(x as nat % modulus());
                }
            }
            Ok(w)
        }
    }

    /// A node: its tag is boolean, an atom's tag and a pair's value are
    /// zero, and the children of an inactive pair are zero.
    pub fn node(&mut self, tag: usize, value: usize, children: Option<(Box<Node>, Box<Node>)>) -> (res: Result<Box<Node>, Error>)
        requires
            old(self).wf(),
            tag < old(self).next(),
            value < old(self).next(),
            match children {
                Some((a, b)) => a.ok(old(self).next()) && b.ok(old(self).next()),
                None => true,
            },
        ensures
            res is Err ==> res == Err::<Box<Node>, Error>(Error::Limit),
            res is Ok ==> {
                &&& final(self).wf()
                &&& final(self).grows(old(self))
                &&& final(self).next() == old(self).next()
                &&& final(self).nodes == old(self).nodes + 1
                &&& final(self).calls == old(self).calls
                &&& res->Ok_0.ok(final(self).next())
                &&& res->Ok_0.id == final(self).nodes
                &&& res->Ok_0.tag == tag
                &&& res->Ok_0.value == value
                &&& res->Ok_0.children == children
            },
    {
        if self.nodes >= MAX_NODES {
            return Err(Error::Limit);
        }
        self.nodes = self.nodes + 1;
        let m1 = minus_one();
        self.zero_product(tag, vec![(ONE, Goldilocks::one()), (tag, m1)])?;
        self.zero_product(tag, vec![(value, Goldilocks::one())])?;
        match &children {
            Some((a, b)) => {
                let (at, av, bt, bv) = (a.tag, a.value, b.tag, b.value);
                self.row(vec![(ONE, Goldilocks::one()), (tag, m1)], vec![(at, Goldilocks::one())], Vec::new())?;
                self.row(vec![(ONE, Goldilocks::one()), (tag, m1)], vec![(av, Goldilocks::one())], Vec::new())?;
                self.row(vec![(ONE, Goldilocks::one()), (tag, m1)], vec![(bt, Goldilocks::one())], Vec::new())?;
                self.row(vec![(ONE, Goldilocks::one()), (tag, m1)], vec![(bv, Goldilocks::one())], Vec::new())?;
            },
            None => {
                self.zero_product(ONE, vec![(tag, Goldilocks::one())])?;
            },
        }
        Ok(Box::new(Node { id: self.nodes, tag, value, children }))
    }

    /// The zero atom.
    pub fn zero(&mut self) -> (res: Result<Box<Node>, Error>)
        requires
            old(self).wf(),
        ensures
            res is Err ==> res == Err::<Box<Node>, Error>(Error::Limit),
            res is Ok ==> {
                &&& final(self).wf()
                &&& final(self).grows(old(self))
                &&& final(self).next() == old(self).next()
                &&& final(self).nodes == old(self).nodes + 1
                &&& final(self).calls == old(self).calls
                &&& res->Ok_0.ok(final(self).next())
                &&& res->Ok_0.tag == ZERO
                &&& res->Ok_0.value == ZERO
                &&& res->Ok_0.children is None
            },
    {
        self.node(ZERO, ZERO, None)
    }

    /// The node tree of a subject of shape `s`, its atoms on consecutive
    /// input wires from `*next`.
    pub fn subject(&mut self, s: &SubjectShape, next: &mut usize) -> (res: Result<Box<Node>, Error>)
        requires
            old(self).wf(),
            2 <= *old(next),
            *old(next) + s.leaves() <= 2 + old(self).inputs,
        ensures
            res is Err ==> res == Err::<Box<Node>, Error>(Error::Limit),
            res is Ok ==> *final(next) == *old(next) + s.leaves(),
            res is Ok ==> {
                &&& final(self).wf()
                &&& final(self).grows(old(self))
                &&& final(self).calls == old(self).calls
                &&& res->Ok_0.ok(final(self).next())
                &&& forall|z: Seq<nat>| #[trigger] node_den(*res->Ok_0, z) == shape_den(*s, z, *old(next) as nat)
            },
        decreases s,
    {
        match s {
            SubjectShape::Atom => {
                let w = *next;
                *next = *next + 1;
                self.node(ZERO, w, None)
            },
            SubjectShape::Pair(a, b) => {
                let ghost n0 = *next;
                let na = self.subject(a, next)?;
                let ghost n1 = *next;
                let ghost mid = self.next();
                let nb = self.subject(b, next)?;
                proof {
                    lemma_node_mono(&na, mid, self.next());
                }
                let ghost ga = *na;
                let ghost gb = *nb;
                let out = self.node(ONE, ZERO, Some((na, nb)))?;
                proof {
                    assert forall|z: Seq<nat>| #[trigger] node_den(*out, z) == shape_den(*s, z, n0 as nat) by {
                        assert(node_den(ga, z) == shape_den(**a, z, n0 as nat));
                        assert(node_den(gb, z) == shape_den(**b, z, n1 as nat));
                    }
                }
                Ok(out)
            },
        }
    }

    /// A constant noun, its atoms and pair tags scaled by `active`.
    pub fn quoted(&mut self, n: &Noun, active: usize) -> (res: Result<Box<Node>, Error>)
        requires
            old(self).wf(),
            active < old(self).next(),
        ensures
            res is Err ==> res == Err::<Box<Node>, Error>(Error::Limit),
            res is Ok ==> {
                &&& final(self).wf()
                &&& final(self).grows(old(self))
                &&& final(self).calls == old(self).calls
                &&& res->Ok_0.ok(final(self).next())
                &&& forall|z: Seq<nat>| #[trigger] tagged_satisfied_by(final(self), z) && z[active as int] == 1 ==> node_den(*res->Ok_0, z) == canon(*n)
            },
        decreases n,
    {
        match n {
            Noun::Atom(v) => {
                let c = self.constant(*v)?;
                let ghost s1 = *self;
                let w = self.mul(active, c)?;
                let ghost s2 = *self;
                let out = self.node(ZERO, w, None)?;
                proof {
                    assert forall|z: Seq<nat>| #[trigger] tagged_satisfied_by(self, z) && z[active as int] == 1 implies node_den(*out, z) == canon(*n) by {
                        lemma_tagged_shrink(self, &s2, z);
                        lemma_tagged_shrink(&s2, &s1, z);
                        lemma_one_times(z[c as int]);
                    }
                }
                Ok(out)
            },
            Noun::Pair(a, b) => {
                let ghost s0 = *self;
                let qa = self.quoted(a, active)?;
                let ghost s1 = *self;
                let ghost mid = self.next();
                let qb = self.quoted(b, active)?;
                let ghost s2 = *self;
                proof {
                    lemma_node_mono(&qa, mid, self.next());
                }
                let out = self.node(active, ZERO, Some((qa, qb)))?;
                proof {
                    assert forall|z: Seq<nat>| #[trigger] tagged_satisfied_by(self, z) && z[active as int] == 1 implies node_den(*out, z) == canon(*n) by {
                        lemma_tagged_shrink(self, &s2, z);
                        lemma_tagged_shrink(&s2, &s1, z);
                    }
                }
                Ok(out)
            },
        }
    }

    /// The node scaled by `active`; unchanged when `active` is the one wire.
    pub fn mask(&mut self, n: &Node, active: usize) -> (res: Result<Box<Node>, Error>)
        requires
            old(self).wf(),
            active < old(self).next(),
            n.ok(old(self).next()),
        ensures
            res is Err ==> res == Err::<Box<Node>, Error>(Error::Limit),
            active == ONE ==> res == Ok::<Box<Node>, Error>(Box::new(*n)) && *final(self) == *old(self),
            res is Ok ==> {
                &&& final(self).wf()
                &&& final(self).grows(old(self))
                &&& final(self).calls == old(self).calls
                &&& res->Ok_0.ok(final(self).next())
                &&& forall|z: Seq<nat>| #[trigger] tagged_satisfied_by(final(self), z) && z[active as int] == 1 ==> node_den(*res->Ok_0, z) == node_den(*n, z)
            },
        decreases n,
    {
        if active == ONE {
            return Ok(Box::new(n.copy()));
        }
        let ghost s0 = *self;
        let tag = self.mul(active, n.tag)?;
        let value = self.mul(active, n.value)?;
        let ghost sv = *self;
        match &n.children {
            Some((a, b)) => {
                proof {
                    lemma_node_mono(a, old(self).next(), self.next());
                    lemma_node_mono(b, old(self).next(), self.next());
                }
                let ghost before = self.next();
                let ma = self.mask(a, active)?;
                let ghost sa = *self;
                proof {
                    lemma_node_mono(b, before, self.next());
                }
                let ghost mid = self.next();
                let mb = self.mask(b, active)?;
                let ghost sb = *self;
                proof {
                    lemma_node_mono(&ma, mid, self.next());
                }
                let ghost ga = *ma;
                let ghost gb = *mb;
                let out = self.node(tag, value, Some((ma, mb)))?;
                proof {
                    assert forall|z: Seq<nat>| #[trigger] tagged_satisfied_by(self, z) && z[active as int] == 1 implies node_den(*out, z) == node_den(*n, z) by {
                        lemma_tagged_shrink(self, &sb, z);
                        lemma_tagged_shrink(&sb, &sa, z);
                        assert(node_den(ga, z) == node_den(**a, z));
                        assert(node_den(gb, z) == node_den(**b, z));
                    }
                }
                Ok(out)
            },
            None => {
                let out = self.node(tag, value, None)?;
                proof {
                    assert forall|z: Seq<nat>| #[trigger] tagged_satisfied_by(self, z) && z[active as int] == 1 implies node_den(*out, z) == node_den(*n, z) by {
                        lemma_tagged_shrink(self, &sv, z);
                        lemma_one_times(z[n.value as int]);
                    }
                }
                Ok(out)
            },
        }
    }

    /// The value wire of `n`, constraining `n` to be an atom when active.
    pub fn atom(&mut self, n: &Node, active: usize) -> (res: Result<usize, Error>)
        requires
            old(self).wf(),
            active < old(self).next(),
            n.ok(old(self).next()),
        ensures
            res is Err ==> res == Err::<usize, Error>(Error::Limit),
            res is Ok ==> {
                &&& final(self).wf()
                &&& final(self).grows(old(self))
                &&& final(self).next() == old(self).next()
                &&& final(self).nodes == old(self).nodes
                &&& final(self).calls == old(self).calls
                &&& res->Ok_0 == n.value
            },
    {
        self.zero_product(active, vec![(n.tag, Goldilocks::one())])?;
        Ok(n.value)
    }

    /// `a + s · (b − a)`: `a` when `s` is zero, `b` when `s` is one.
    pub fn select(&mut self, s: usize, a: usize, b: usize) -> (res: Result<usize, Error>)
        requires
            old(self).wf(),
            s < old(self).next(),
            a < old(self).next(),
            b < old(self).next(),
        ensures
            res is Err ==> res == Err::<usize, Error>(Error::Limit),
            res is Ok ==> {
                &&& final(self).wf()
                &&& final(self).grows(old(self))
                &&& final(self).next() == old(self).next() + 3
                &&& res->Ok_0 == old(self).next() + 2
                &&& final(self).nodes == old(self).nodes
                &&& final(self).calls == old(self).calls
            },
    {
        let delta = self.lin(vec![(b, Goldilocks::one()), (a, minus_one())])?;
        let v = self.mul(s, delta)?;
        self.lin(vec![(a, Goldilocks::one()), (v, Goldilocks::one())])
    }

    /// The node-wise selection between `a` (s = 0) and `b` (s = 1); a
    /// missing child on one side is the zero atom.
    pub fn mux(&mut self, s: usize, a: &Node, b: &Node) -> (res: Result<Box<Node>, Error>)
        requires
            old(self).wf(),
            s < old(self).next(),
            a.ok(old(self).next()),
            b.ok(old(self).next()),
        ensures
            res is Err ==> res == Err::<Box<Node>, Error>(Error::Limit),
            res is Ok ==> {
                &&& final(self).wf()
                &&& final(self).grows(old(self))
                &&& final(self).calls == old(self).calls
                &&& res->Ok_0.ok(final(self).next())
            },
        decreases a.size() + b.size(),
    {
        let tag = self.select(s, a.tag, b.tag)?;
        let value = self.select(s, a.value, b.value)?;
        let ghost n1 = self.next();
        let children = match (&a.children, &b.children) {
            (None, None) => None,
            (Some((al, ar)), Some((bl, br))) => {
                proof {
                    lemma_node_mono(al, old(self).next(), n1);
                    lemma_node_mono(ar, old(self).next(), n1);
                    lemma_node_mono(bl, old(self).next(), n1);
                    lemma_node_mono(br, old(self).next(), n1);
                }
                let l = self.mux(s, al, bl)?;
                proof {
                    lemma_node_mono(ar, n1, self.next());
                    lemma_node_mono(br, n1, self.next());
                }
                let ghost n2 = self.next();
                let r = self.mux(s, ar, br)?;
                proof {
                    lemma_node_mono(&l, n2, self.next());
                }
                Some((l, r))
            },
            (Some((al, ar)), None) => {
                let z = self.zero()?;
                proof {
                    lemma_node_mono(al, old(self).next(), self.next());
                    lemma_node_mono(ar, old(self).next(), self.next());
                }
                let ghost n2 = self.next();
                let l = self.mux(s, al, &z)?;
                proof {
                    lemma_node_mono(ar, n2, self.next());
                    lemma_node_mono(&z, n2, self.next());
                }
                let ghost n3 = self.next();
                let r = self.mux(s, ar, &z)?;
                proof {
                    lemma_node_mono(&l, n3, self.next());
                }
                Some((l, r))
            },
            (None, Some((bl, br))) => {
                let z = self.zero()?;
                proof {
                    lemma_node_mono(bl, old(self).next(), self.next());
                    lemma_node_mono(br, old(self).next(), self.next());
                }
                let ghost n2 = self.next();
                let l = self.mux(s, &z, bl)?;
                proof {
                    lemma_node_mono(br, n2, self.next());
                    lemma_node_mono(&z, n2, self.next());
                }
                let ghost n3 = self.next();
                let r = self.mux(s, &z, br)?;
                proof {
                    lemma_node_mono(&l, n3, self.next());
                }
                Some((l, r))
            },
        };
        self.node(tag, value, children)
    }
}

} // verus!
