//! The constraint builder of the execution relation: symbolic values,
//! wires, operations and R1CS rows.
use crate::execution::relation::RelationError;
use crate::execution::tagged::builder::{clone_linear, lin_ok, minus_one, HashTables, Linear};
use crate::execution::relation_semantics::{
    atom_val, den, lemma_add_neg_term, lemma_atom_lin, lemma_satisfied_ops, lemma_satisfied_shrink, lemma_single_term,
    satisfied_by,
};
use crate::execution::tagged::lin_value;
use crate::field::{fadd, fmul, fneg, fsub, Goldilocks};
use vstd::prelude::*;

verus! {

/// Most evaluation calls.
pub const MAX_CALLS: usize = 4096;
/// Deepest formula nesting.
pub const MAX_DEPTH: usize = 128;
/// Most operations or rows before evaluation stops.
pub const MAX_ROWS: usize = 32768;
/// A bound on wires that keeps every index representable.
pub const MAX_WIRES: usize = 0x4000_0000;

/// A symbolic noun: a public constant, a wire, or a pair.
#[derive(Debug)]
pub enum Value {
    Constant(Goldilocks),
    Wire(usize),
    Pair(Box<Value>, Box<Value>),
}

/// How the witness computes a wire from earlier wires.
#[derive(Debug)]
pub enum Op {
    Linear(Linear),
    Product(Linear, Linear),
    Inverse(Linear),
    Bit(Linear, usize),
    Secret(Linear),
    Look { active: Linear, root: [Linear; 4], namespace: Linear, key: Linear },
}

/// The wires of a lookup: activity, the four root limbs, namespace, key
/// and the looked-up value. Each must be authenticated and pinned by the
/// state protocol.
#[derive(Clone, Copy, Debug)]
pub struct LookupCoordinates {
    pub active: usize,
    pub root: [usize; 4],
    pub namespace: usize,
    pub key: usize,
    pub value: usize,
}

impl Value {
    /// Every wire of the value is below `n`.
    pub open spec fn ok(&self, n: nat) -> bool
        decreases self,
    {
        match self {
            Value::Constant(_) => true,
            Value::Wire(i) => *i < n,
            Value::Pair(a, b) => a.ok(n) && b.ok(n),
        }
    }

    /// Number of nodes.
    pub open spec fn size(&self) -> nat
        decreases self,
    {
        match self {
            Value::Pair(a, b) => 1 + a.size() + b.size(),
            _ => 1,
        }
    }

    /// A deep copy.
    pub fn copy(&self) -> (r: Value)
        ensures
            r == *self,
        decreases self,
    {
        match self {
            Value::Constant(c) => Value::Constant(*c),
            Value::Wire(i) => Value::Wire(*i),
            Value::Pair(a, b) => Value::Pair(Box::new(a.copy()), Box::new(b.copy())),
        }
    }
}

/// A value whose wires are below `a` has wires below any larger bound.
pub proof fn lemma_value_mono(v: &Value, a: nat, b: nat)
    requires
        v.ok(a),
        a <= b,
    ensures
        v.ok(b),
    decreases v,
{
    if let Value::Pair(l, r) = v {
        lemma_value_mono(l, a, b);
        lemma_value_mono(r, a, b);
    }
}

/// Wires below a bound stay below any larger bound, for every value
/// mentioned with both bounds.
pub broadcast proof fn lemma_value_mono_auto(v: &Value, a: nat, b: nat)
    requires
        #[trigger] v.ok(a),
        a <= b,
    ensures
        #[trigger] v.ok(b),
{
    lemma_value_mono(v, a, b);
}

impl Op {
    /// The operation reads only wires below `n`.
    pub open spec fn ok(&self, n: nat) -> bool {
        match self {
            Op::Linear(l) => lin_ok(l@, n),
            Op::Product(a, b) => lin_ok(a@, n) && lin_ok(b@, n),
            Op::Inverse(a) => lin_ok(a@, n),
            Op::Bit(a, k) => lin_ok(a@, n) && *k < 64,
            Op::Secret(a) => lin_ok(a@, n),
            Op::Look { active, root, namespace, key } => {
                &&& lin_ok(active@, n)
                &&& lin_ok(root[0]@, n)
                &&& lin_ok(root[1]@, n)
                &&& lin_ok(root[2]@, n)
                &&& lin_ok(root[3]@, n)
                &&& lin_ok(namespace@, n)
                &&& lin_ok(key@, n)
            },
        }
    }
}

impl LookupCoordinates {
    /// Every coordinate is a wire below `n`.
    pub open spec fn ok(&self, n: nat) -> bool {
        &&& self.active < n
        &&& forall|i: int| 0 <= i < 4 ==> #[trigger] self.root@[i] < n
        &&& self.namespace < n
        &&& self.key < n
        &&& self.value < n
    }
}

/// Every row reads only wires below `n`.
pub open spec fn rows_ok(rows: Seq<(Linear, Linear, Linear)>, n: nat) -> bool {
    forall|r: int| 0 <= r < rows.len() ==> {
        &&& lin_ok((#[trigger] rows[r]).0@, n)
        &&& lin_ok(rows[r].1@, n)
        &&& lin_ok(rows[r].2@, n)
    }
}

/// The public state tables a relation authenticates lookups against.
#[derive(Debug)]
pub struct PublicStateTables {
    pub root: [Goldilocks; 4],
    pub dimensions: [Vec<Goldilocks>; 10],
}

impl PublicStateTables {
    /// A copy of the tables.
    pub fn copy(&self) -> (r: PublicStateTables)
        ensures
            r.root == self.root,
            forall|i: int| 0 <= i < 10 ==> (#[trigger] r.dimensions@[i])@ == self.dimensions@[i]@,
    {
        let d = &self.dimensions;
        let dimensions = [
            copy_field_vec(&d[0]),
            copy_field_vec(&d[1]),
            copy_field_vec(&d[2]),
            copy_field_vec(&d[3]),
            copy_field_vec(&d[4]),
            copy_field_vec(&d[5]),
            copy_field_vec(&d[6]),
            copy_field_vec(&d[7]),
            copy_field_vec(&d[8]),
            copy_field_vec(&d[9]),
        ];
        PublicStateTables { root: self.root, dimensions }
    }
}

/// A copy of a vector of field elements.
pub fn copy_field_vec(v: &Vec<Goldilocks>) -> (r: Vec<Goldilocks>)
    ensures
        r@ == v@,
{
    let mut r: Vec<Goldilocks> = Vec::new();
    let mut i: usize = 0;
    while i < v.len()
        invariant
            i <= v@.len(),
            r@ == v@.subrange(0, i as int),
        decreases v@.len() - i,
    {
        r.push(v[i]);
        i = i + 1;
    }
    assert(r@ =~= v@);
    r
}

/// `l` is the single term one times wire `w`.
pub open spec fn is_unit(l: Seq<(usize, Goldilocks)>, w: int) -> bool {
    l.len() == 1 && l[0].0 == w && l[0].1@ == 1
}

/// `row` states that wire `w` is the value of `op`: `l · 1 = w` for a
/// linear operation, `a · b = w` for a product.
pub open spec fn defines(row: (Linear, Linear, Linear), op: Op, w: int) -> bool {
    match op {
        Op::Linear(l) => row.0@ == l@ && is_unit(row.1@, 0) && is_unit(row.2@, w),
        Op::Product(a, b) => row.0@ == a@ && row.1@ == b@ && is_unit(row.2@, w),
        _ => true,
    }
}

/// Some row defines the wire of `op`.
pub open spec fn has_def_row(rows: Seq<(Linear, Linear, Linear)>, op: Op, w: int) -> bool {
    match op {
        Op::Linear(_) | Op::Product(_, _) => exists|r: int| 0 <= r < rows.len() && defines(#[trigger] rows[r], op, w),
        _ => true,
    }
}

/// Every linear and product wire has its defining row.
#[verifier::opaque]
pub open spec fn defined(ops: Seq<Op>, rows: Seq<(Linear, Linear, Linear)>, inputs: nat) -> bool {
    forall|k: int| 0 <= k < ops.len() ==> has_def_row(rows, #[trigger] ops[k], inputs + 1 + k)
}

proof fn lemma_defined_push_row(ops: Seq<Op>, rows: Seq<(Linear, Linear, Linear)>, inputs: nat, row: (Linear, Linear, Linear))
    requires
        defined(ops, rows, inputs),
    ensures
        defined(ops, rows.push(row), inputs),
{
    reveal(defined);
    assert forall|k: int| 0 <= k < ops.len() implies has_def_row(rows.push(row), #[trigger] ops[k], inputs + 1 + k) by {
        assert(has_def_row(rows, ops[k], inputs + 1 + k));
        match ops[k] {
            Op::Linear(_) | Op::Product(_, _) => {
                let r = choose|r: int| 0 <= r < rows.len() && defines(#[trigger] rows[r], ops[k], inputs + 1 + k);
                assert(rows.push(row)[r] == rows[r]);
            },
            _ => {},
        }
    }
}

proof fn lemma_defined_push_op(ops: Seq<Op>, rows: Seq<(Linear, Linear, Linear)>, inputs: nat, op: Op)
    requires
        defined(ops, rows, inputs),
        has_def_row(rows, op, (inputs + 1 + ops.len()) as int),
    ensures
        defined(ops.push(op), rows, inputs),
{
    reveal(defined);
    assert forall|k: int| 0 <= k < ops.len() + 1 implies has_def_row(rows, #[trigger] ops.push(op)[k], inputs + 1 + k) by {
        if k < ops.len() {
            assert(ops.push(op)[k] == ops[k]);
        }
    }
}

/// `op` computes its wire as the linear combination `l`.
pub open spec fn is_linear_of(op: Op, l: Seq<(usize, Goldilocks)>) -> bool {
    match op {
        Op::Linear(c) => c@ == l,
        _ => false,
    }
}

/// The compiler state.
pub struct Builder {
    pub inputs: usize,
    pub ops: Vec<Op>,
    pub rows: Vec<(Linear, Linear, Linear)>,
    pub calls: usize,
    pub active: Value,
    pub lookups: Vec<LookupCoordinates>,
    pub state: Option<PublicStateTables>,
    pub tables: HashTables,
}

impl Builder {
    /// The next wire: the constant, the inputs, then one per operation.
    pub open spec fn next(&self) -> nat {
        (1 + self.inputs + self.ops@.len()) as nat
    }

    /// Operations read earlier wires; rows, the activity and the lookups
    /// read existing wires; sizes within bounds.
    pub open spec fn wf(&self) -> bool {
        &&& self.inputs <= MAX_CALLS
        &&& self.calls <= MAX_CALLS
        &&& self.ops@.len() <= MAX_WIRES
        &&& forall|k: int| 0 <= k < self.ops@.len() ==> (#[trigger] self.ops@[k]).ok((1 + self.inputs + k) as nat)
        &&& rows_ok(self.rows@, self.next())
        &&& self.active.ok(self.next())
        &&& forall|i: int| 0 <= i < self.lookups@.len() ==> (#[trigger] self.lookups@[i]).ok(self.next())
        &&& defined(self.ops@, self.rows@, self.inputs as nat)
    }

    /// `self` extends `old` with the same evaluation count.
    pub open spec fn fixed(&self, old: &Builder) -> bool {
        &&& self.grows(old)
        &&& self.calls == old.calls
    }

    /// `self` extends `old`: same inputs and tables, operations extended.
    pub open spec fn grows(&self, old: &Builder) -> bool {
        &&& self.inputs == old.inputs
        &&& self.state == old.state
        &&& self.tables == old.tables
        &&& old.ops@.len() <= self.ops@.len()
        &&& old.calls <= self.calls
        &&& forall|k: int| 0 <= k < old.ops@.len() ==> self.ops@[k] == #[trigger] old.ops@[k]
        &&& old.rows@.len() <= self.rows@.len()
        &&& forall|k: int| 0 <= k < old.rows@.len() ==> self.rows@[k] == #[trigger] old.rows@[k]
    }

    /// Allocate the wire computed by `op`.
    pub fn wire(&mut self, op: Op) -> (res: Result<usize, RelationError>)
        requires
            old(self).wf(),
            op.ok(old(self).next()),
            !(op is Linear),
            !(op is Product),
        ensures
            res is Err ==> res->Err_0 == RelationError::Limit,
            res is Ok ==> {
                &&& final(self).wf()
                &&& final(self).fixed(old(self))
                &&& res->Ok_0 == old(self).next()
                &&& final(self).next() == old(self).next() + 1
                &&& final(self).ops@ == old(self).ops@.push(op)
                &&& final(self).rows@ == old(self).rows@
                &&& final(self).active == old(self).active
            },
    {
        if self.ops.len() >= MAX_WIRES {
            return Err(RelationError::Limit);
        }
        let i = 1 + self.inputs + self.ops.len();
        let ghost before = *self;
        self.ops.push(op);
        proof {
            lemma_defined_push_op(before.ops@, before.rows@, before.inputs as nat, op);
            lemma_value_mono(&self.active, before.next(), self.next());
            assert(rows_ok(self.rows@, self.next())) by {
                assert forall|r: int| 0 <= r < self.rows@.len() implies {
                    &&& lin_ok((#[trigger] self.rows@[r]).0@, self.next())
                    &&& lin_ok(self.rows@[r].1@, self.next())
                    &&& lin_ok(self.rows@[r].2@, self.next())
                } by {
                    assert(lin_ok(before.rows@[r].0@, before.next()));
                    assert(lin_ok(before.rows@[r].1@, before.next()));
                    assert(lin_ok(before.rows@[r].2@, before.next()));
                }
            }
            assert forall|i: int| 0 <= i < self.lookups@.len() implies (#[trigger] self.lookups@[i]).ok(self.next()) by {
                assert(before.lookups@[i].ok(before.next()));
            }
        }
        Ok(i)
    }

    /// Allocate the wire of a linear or product operation together with
    /// the row that defines it.
    fn defined_wire(&mut self, op: Op, a: Linear, b: Linear, c: Linear) -> (res: Result<usize, RelationError>)
        requires
            old(self).wf(),
            op.ok(old(self).next()),
            lin_ok(a@, old(self).next() + 1),
            lin_ok(b@, old(self).next() + 1),
            lin_ok(c@, old(self).next() + 1),
            defines((a, b, c), op, old(self).next() as int),
        ensures
            res is Err ==> res->Err_0 == RelationError::Limit,
            res is Ok ==> {
                &&& final(self).wf()
                &&& final(self).fixed(old(self))
                &&& res->Ok_0 == old(self).next()
                &&& final(self).next() == old(self).next() + 1
                &&& final(self).active == old(self).active
                &&& final(self).ops@ == old(self).ops@.push(op)
            },
    {
        if self.ops.len() >= MAX_WIRES {
            return Err(RelationError::Limit);
        }
        let i = 1 + self.inputs + self.ops.len();
        let ghost before = *self;
        let ghost row = (a, b, c);
        self.rows.push((a, b, c));
        proof {
            lemma_defined_push_row(before.ops@, before.rows@, before.inputs as nat, row);
            reveal(defined);
            assert(self.rows@[before.rows@.len() as int] == row);
            assert(has_def_row(self.rows@, op, before.next() as int));
        }
        self.ops.push(op);
        proof {
            lemma_defined_push_op(before.ops@, self.rows@, before.inputs as nat, op);
            lemma_value_mono(&self.active, before.next(), self.next());
            assert(rows_ok(self.rows@, self.next())) by {
                assert forall|r: int| 0 <= r < self.rows@.len() implies {
                    &&& lin_ok((#[trigger] self.rows@[r]).0@, self.next())
                    &&& lin_ok(self.rows@[r].1@, self.next())
                    &&& lin_ok(self.rows@[r].2@, self.next())
                } by {
                    if r < before.rows@.len() {
                        assert(self.rows@[r] == before.rows@[r]);
                        assert(lin_ok(before.rows@[r].0@, before.next()));
                        assert(lin_ok(before.rows@[r].1@, before.next()));
                        assert(lin_ok(before.rows@[r].2@, before.next()));
                    }
                }
            }
            assert forall|k: int| 0 <= k < self.ops@.len() implies (#[trigger] self.ops@[k]).ok((1 + self.inputs + k) as nat) by {
                if k < before.ops@.len() {
                    assert(self.ops@[k] == before.ops@[k]);
                }
            }
            assert forall|j: int| 0 <= j < self.lookups@.len() implies (#[trigger] self.lookups@[j]).ok(self.next()) by {
                assert(before.lookups@[j].ok(before.next()));
            }
        }
        Ok(i)
    }

    /// Append a row.
    pub fn row(&mut self, a: Linear, b: Linear, c: Linear)
        requires
            old(self).wf(),
            lin_ok(a@, old(self).next()),
            lin_ok(b@, old(self).next()),
            lin_ok(c@, old(self).next()),
        ensures
            final(self).wf(),
            final(self).fixed(old(self)),
            final(self).next() == old(self).next(),
            final(self).ops@ == old(self).ops@,
            final(self).active == old(self).active,
            final(self).rows@ == old(self).rows@.push((a, b, c)),
    {
        let ghost before = *self;
        self.rows.push((a, b, c));
        proof {
            lemma_defined_push_row(before.ops@, before.rows@, before.inputs as nat, (a, b, c));
        }
    }

    /// The linear combination of an atom value.
    pub fn linear(&self, v: &Value) -> (res: Result<Linear, RelationError>)
        requires
            v.ok(self.next()),
        ensures
            res is Ok <==> !(v is Pair),
            res is Err ==> res->Err_0 == RelationError::Unsupported("atom required"),
            res is Ok ==> lin_ok(res->Ok_0@, self.next()),
            v matches Value::Constant(c) ==> res is Ok && res->Ok_0@ == seq![(0usize, *c)],
            v matches Value::Wire(i) ==> res is Ok && res->Ok_0@.len() == 1 && res->Ok_0@[0].0 == i && res->Ok_0@[0].1@ == 1,
    {
        match v {
            Value::Constant(c) => Ok(vec![(0, *c)]),
            Value::Wire(i) => Ok(vec![(*i, Goldilocks::one())]),
            Value::Pair(_, _) => Err(RelationError::Unsupported("atom required")),
        }
    }

    /// A new wire equal to `l`, with its row.
    pub fn alloc_linear(&mut self, l: Linear) -> (res: Result<Value, RelationError>)
        requires
            old(self).wf(),
            lin_ok(l@, old(self).next()),
        ensures
            res is Err ==> res->Err_0 == RelationError::Limit,
            res is Ok ==> {
                &&& final(self).wf()
                &&& final(self).fixed(old(self))
                &&& res->Ok_0 == Value::Wire(old(self).next() as usize)
                &&& final(self).next() == old(self).next() + 1
                &&& final(self).active == old(self).active
                &&& final(self).ops@.drop_last() == old(self).ops@
                &&& is_linear_of(final(self).ops@.last(), l@)
            },
    {
        let copy = clone_linear(&l);
        let n = 1 + self.inputs + self.ops.len();
        let one = vec![(0usize, Goldilocks::one())];
        let w = vec![(n, Goldilocks::one())];
        let ghost before = self.ops@;
        let ghost op = Op::Linear(copy);
        let i = self.defined_wire(Op::Linear(copy), l, one, w)?;
        proof {
            assert(self.ops@.drop_last() =~= before);
        }
        Ok(Value::Wire(i))
    }

    /// A new wire equal to ⟨a,z⟩·⟨b,z⟩, with its row.
    pub fn product(&mut self, a: Linear, b: Linear) -> (res: Result<Value, RelationError>)
        requires
            old(self).wf(),
            lin_ok(a@, old(self).next()),
            lin_ok(b@, old(self).next()),
        ensures
            res is Err ==> res->Err_0 == RelationError::Limit,
            res is Ok ==> {
                &&& final(self).wf()
                &&& final(self).fixed(old(self))
                &&& res->Ok_0 == Value::Wire(old(self).next() as usize)
                &&& final(self).next() == old(self).next() + 1
                &&& final(self).active == old(self).active
                &&& forall|z: Seq<nat>| #[trigger] satisfied_by(final(self), z) ==> z[old(self).next() as int] == fmul(
                    lin_value(a@, z),
                    lin_value(b@, z),
                )
            },
    {
        let ca = clone_linear(&a);
        let cb = clone_linear(&b);
        let n = 1 + self.inputs + self.ops.len();
        let w = vec![(n, Goldilocks::one())];
        let ghost la = a@;
        let ghost lb = b@;
        let i = self.defined_wire(Op::Product(ca, cb), a, b, w)?;
        proof {
            assert forall|z: Seq<nat>| #[trigger] satisfied_by(self, z) implies z[old(self).next() as int] == fmul(
                lin_value(la, z),
                lin_value(lb, z),
            ) by {
                lemma_satisfied_ops(self, z, self.ops@.len() - 1);
            }
        }
        Ok(Value::Wire(i))
    }

    /// a + b, or a − b when `negative`, as a new wire.
    pub fn add(&mut self, a: &Value, b: &Value, negative: bool) -> (res: Result<Value, RelationError>)
        requires
            old(self).wf(),
            a.ok(old(self).next()),
            b.ok(old(self).next()),
        ensures
            res is Err ==> res->Err_0 is Limit || res->Err_0 is Unsupported,
            res is Ok ==> {
                &&& final(self).wf()
                &&& final(self).fixed(old(self))
                &&& res->Ok_0 == Value::Wire(old(self).next() as usize)
                &&& final(self).next() == old(self).next() + 1
                &&& final(self).active == old(self).active
                &&& !(a is Pair) && !(b is Pair)
                &&& forall|z: Seq<nat>| #[trigger] satisfied_by(final(self), z) ==> z[old(self).next() as int] == (if negative {
                    fsub(atom_val(*a, z), atom_val(*b, z))
                } else {
                    fadd(atom_val(*a, z), atom_val(*b, z))
                })
            },
    {
        let mut l = self.linear(a)?;
        let ghost la = l@;
        let lb = self.linear(b)?;
        let mut i: usize = 0;
        while i < lb.len()
            invariant
                i <= lb@.len(),
                lin_ok(l@, self.next()),
                lin_ok(lb@, self.next()),
                l@.len() == la.len() + i,
                l@.take(la.len() as int) == la,
                forall|j: int| 0 <= j < i ==> (#[trigger] l@[la.len() + j]).0 == lb@[j].0 && l@[la.len() + j].1@ == (if negative {
                    fneg(lb@[j].1@)
                } else {
                    lb@[j].1@
                }),
            decreases lb@.len() - i,
        {
            let (w, c) = lb[i];
            l.push((w, if negative { c.neg() } else { c }));
            proof {
                assert(l@.take(la.len() as int) =~= la);
            }
            i = i + 1;
        }
        let ghost lf = l@;
        let r = self.alloc_linear(l)?;
        proof {
            let lbs = lb@;
            assert(lf.drop_last() =~= la);
            assert(lbs.len() == 1);
            assert(lf.last() == lf[la.len() + 0int]);
            assert(lf.last().0 == lbs[0].0);
            assert forall|z: Seq<nat>| #[trigger] satisfied_by(self, z) implies z[old(self).next() as int] == (if negative {
                fsub(atom_val(*a, z), atom_val(*b, z))
            } else {
                fadd(atom_val(*a, z), atom_val(*b, z))
            }) by {
                lemma_satisfied_ops(self, z, self.ops@.len() - 1);
                lemma_value_mono(a, old(self).next(), z.len());
                lemma_value_mono(b, old(self).next(), z.len());
                lemma_atom_lin(*a, la, z);
                lemma_atom_lin(*b, lbs, z);
                lemma_single_term(lbs, z);
                assert(lin_value(lf, z) == fadd(lin_value(lf.drop_last(), z), fmul(z[lf.last().0 as int], lf.last().1@)));
                assert(lin_value(lf, z) == fadd(lin_value(la, z), fmul(z[lbs[0].0 as int], lf.last().1@)));
                if negative {
                    lemma_add_neg_term(lin_value(la, z), z[lbs[0].0 as int], lbs[0].1@);
                }
            }
        }
        Ok(r)
    }

    /// The selector `s`, one exactly when `v` is nonzero: s = v · v⁻¹ with
    /// v·(1 − s) = 0 and s·(1 − s) = 0.
    pub fn nonzero(&mut self, v: &Value) -> (res: Result<Value, RelationError>)
        requires
            old(self).wf(),
            v.ok(old(self).next()),
        ensures
            res is Err ==> res->Err_0 is Limit || res->Err_0 is Unsupported,
            res is Ok ==> {
                &&& final(self).wf()
                &&& final(self).fixed(old(self))
                &&& res->Ok_0.ok(final(self).next())
                &&& !(res->Ok_0 is Pair)
                &&& final(self).active == old(self).active
                &&& forall|z: Seq<nat>| #[trigger] satisfied_by(final(self), z) ==> {
                    &&& atom_val(*v, z) == 0 ==> atom_val(res->Ok_0, z) == 0
                    &&& fmul(atom_val(*v, z), fsub(1, atom_val(res->Ok_0, z))) == 0
                }
            },
    {
        let l = self.linear(v)?;
        let inv = self.wire(Op::Inverse(clone_linear(&l)))?;
        let ghost s1 = *self;
        let iv = vec![(inv, Goldilocks::one())];
        let ghost ivs = iv@;
        let s = self.product(clone_linear(&l), iv)?;
        let ghost s2 = *self;
        let ls = self.linear(&s)?;
        let mut one_minus: Linear = vec![(0usize, Goldilocks::one())];
        let mut i: usize = 0;
        while i < ls.len()
            invariant
                i <= ls@.len(),
                lin_ok(one_minus@, self.next()),
                lin_ok(ls@, self.next()),
                one_minus@.len() == 1 + i,
                one_minus@[0].0 == 0,
                one_minus@[0].1@ == 1,
                forall|j: int| 0 <= j < i ==> (#[trigger] one_minus@[1 + j]).0 == ls@[j].0 && one_minus@[1 + j].1@ == fneg(ls@[j].1@),
            decreases ls@.len() - i,
        {
            let (w, c) = ls[i];
            one_minus.push((w, c.neg()));
            i = i + 1;
        }
        let ghost lv = l@;
        let ghost om = one_minus@;
        let ghost r0 = self.rows@.len();
        self.row(l, clone_linear(&one_minus), Vec::new());
        let ghost s3 = *self;
        self.row(ls, one_minus, Vec::new());
        proof {
            let sw = s1.next() as int;
            assert(om.len() == 2);
            assert(om.last() == om[1 + 0int]);
            assert(om.drop_last().len() == 1);
            assert(om.drop_last()[0] == om[0]);
            assert forall|z: Seq<nat>| #[trigger] satisfied_by(self, z) implies {
                &&& atom_val(*v, z) == 0 ==> atom_val(s, z) == 0
                &&& fmul(atom_val(*v, z), fsub(1, atom_val(s, z))) == 0
            } by {
                crate::execution::relation_semantics::lemma_satisfied_shrink(self, &s2, z);
                lemma_value_mono(v, old(self).next(), z.len());
                lemma_atom_lin(*v, lv, z);
                assert(z[sw] == fmul(lin_value(lv, z), lin_value(ivs, z)));
                assert(self.rows@[r0 as int] == s3.rows@[r0 as int]);
                assert(crate::execution::relation_semantics::row_holds(self.rows@[r0 as int], z));
                assert(lin_value(Seq::<(usize, Goldilocks)>::empty(), z) == 0);
                lemma_single_term(om.drop_last(), z);
                assert(fmul(1, 1) == 1);
                assert(lin_value(om.drop_last(), z) == 1);
                assert(lin_value(om, z) == fadd(lin_value(om.drop_last(), z), fmul(z[sw], fneg(1))));
                lemma_add_neg_term(1, z[sw], 1);
                vstd::arithmetic::div_mod::lemma_small_mod(z[sw], crate::field::modulus());
                assert(fmul(z[sw], 1) == z[sw]);
                if atom_val(*v, z) == 0 {
                    vstd::arithmetic::div_mod::lemma_small_mod(0, crate::field::modulus());
                    assert(0 * lin_value(ivs, z) == 0);
                    assert(fmul(0, lin_value(ivs, z)) == 0);
                }
            }
        }
        Ok(s)
    }

    /// Node-wise `yes + s·(no − yes)`; both sides must have the same shape.
    pub fn mux(&mut self, s: &Value, yes: &Value, no: &Value) -> (res: Result<Value, RelationError>)
        requires
            old(self).wf(),
            s.ok(old(self).next()),
            yes.ok(old(self).next()),
            no.ok(old(self).next()),
        ensures
            res is Err ==> res->Err_0 is Limit || res->Err_0 is Unsupported,
            res is Ok ==> {
                &&& final(self).wf()
                &&& final(self).fixed(old(self))
                &&& res->Ok_0.ok(final(self).next())
                &&& final(self).active == old(self).active
                &&& !(yes is Pair) ==> !(res->Ok_0 is Pair)
                &&& forall|z: Seq<nat>| #[trigger] satisfied_by(final(self), z) ==> (atom_val(*s, z) == 0 ==> den(res->Ok_0, z) == den(
                    *yes,
                    z,
                ))
            },
        decreases yes,
    {
        match (yes, no) {
            (Value::Pair(a, b), Value::Pair(c, d)) => {
                let l = self.mux(s, a, c)?;
                let ghost s1 = *self;
                let ghost n1 = self.next();
                proof {
                    lemma_value_mono(s, old(self).next(), n1);
                    lemma_value_mono(b, old(self).next(), n1);
                    lemma_value_mono(d, old(self).next(), n1);
                }
                let r = self.mux(s, b, d)?;
                proof {
                    lemma_value_mono(&l, n1, self.next());
                }
                let out = Value::Pair(Box::new(l), Box::new(r));
                proof {
                    assert forall|z: Seq<nat>| #[trigger] satisfied_by(self, z) implies (atom_val(*s, z) == 0 ==> den(out, z) == den(
                        *yes,
                        z,
                    )) by {
                        lemma_satisfied_shrink(self, &s1, z);
                    }
                }
                Ok(out)
            },
            (Value::Pair(_, _), _) => Err(RelationError::Unsupported("branch output shapes differ")),
            (_, Value::Pair(_, _)) => Err(RelationError::Unsupported("branch output shapes differ")),
            _ => {
                let delta = self.add(no, yes, true)?;
                let ghost n1 = self.next();
                proof {
                    lemma_value_mono(s, old(self).next(), n1);
                    lemma_value_mono(yes, old(self).next(), n1);
                }
                let ls = self.linear(s)?;
                let ld = self.linear(&delta)?;
                let ghost lsv = ls@;
                let ghost ldv = ld@;
                let p = self.product(ls, ld)?;
                let ghost s2 = *self;
                let ghost n2 = self.next();
                proof {
                    lemma_value_mono(yes, n1, n2);
                }
                let out = self.add(yes, &p, false)?;
                proof {
                    assert forall|z: Seq<nat>| #[trigger] satisfied_by(self, z) implies (atom_val(*s, z) == 0 ==> den(out, z) == den(
                        *yes,
                        z,
                    )) by {
                        lemma_satisfied_shrink(self, &s2, z);
                        if atom_val(*s, z) == 0 {
                            lemma_value_mono(s, n1, z.len());
                            lemma_value_mono(yes, n1, z.len());
                            lemma_atom_lin(*s, lsv, z);
                            vstd::arithmetic::div_mod::lemma_small_mod(0, crate::field::modulus());
                            assert(0 * lin_value(ldv, z) == 0);
                            assert(fmul(0, lin_value(ldv, z)) == 0);
                            assert(atom_val(p, z) == 0);
                            vstd::arithmetic::div_mod::lemma_small_mod(atom_val(*yes, z), crate::field::modulus());
                            assert(fadd(atom_val(*yes, z), 0) == atom_val(*yes, z));
                            crate::execution::relation_semantics::lemma_den_atom(out, z);
                            crate::execution::relation_semantics::lemma_den_atom(*yes, z);
                        }
                    }
                }
                Ok(out)
            },
        }
    }

    /// Require ⟨a,z⟩ = ⟨b,z⟩ whenever the current branch is active.
    pub fn enforce_equal(&mut self, a: Linear, b: Linear) -> (res: Result<(), RelationError>)
        requires
            old(self).wf(),
            lin_ok(a@, old(self).next()),
            lin_ok(b@, old(self).next()),
        ensures
            res is Err ==> res->Err_0 is Unsupported,
            res is Ok ==> {
                &&& final(self).wf()
                &&& final(self).fixed(old(self))
                &&& final(self).next() == old(self).next()
                &&& final(self).active == old(self).active
            },
    {
        let mut a = a;
        let mut i: usize = 0;
        while i < b.len()
            invariant
                i <= b@.len(),
                lin_ok(a@, self.next()),
                lin_ok(b@, self.next()),
            decreases b@.len() - i,
        {
            let (w, c) = b[i];
            a.push((w, c.neg()));
            i = i + 1;
        }
        let act = self.linear(&self.active)?;
        self.row(a, act, Vec::new());
        Ok(())
    }
}

/// The constant −1 as a field element.
pub fn neg_one() -> (r: Goldilocks)
    ensures
        r@ == crate::field::fneg(1),
{
    minus_one()
}

} // verus!
