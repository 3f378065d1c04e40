//! Compilation of a formula over a subject shape into the execution
//! relation, and the witness that runs its program.
use crate::ccs::universal::nats;
use crate::execution::relation::{ExecutionNoun, RelationError, SubjectShape};
use crate::execution::relation_builder::{
    defined, defines, has_def_row, lemma_value_mono, rows_ok, Builder, LookupCoordinates, Op, PublicStateTables, Value, MAX_CALLS,
    MAX_DEPTH, MAX_WIRES,
};
use crate::execution::relation_eval::eval_ok;
use crate::execution::tagged::builder::{lin_ok, minus_one, HashTables, Linear};
use crate::execution::tagged::{check_noun, check_spec, is_pow2, lemma_check_err, lin_eval, lin_value, next_pow2};
use crate::field::{fadd, finv, fmul, modulus, Goldilocks, P};
use crate::types::{CCSInstance, CCSWitness, SparseMatrix};
use crate::execution::relation_semantics::{
    atom_val, den, lemma_atom_lin, lemma_den_leaves, lemma_satisfied_ops, lemma_satisfied_shrink, noun_leaves, nox_reduce, reduces_to,
    row_holds, satisfied_by, shape_den,
};
use vstd::prelude::*;

verus! {

/// A compiled execution relation. Wire zero must be pinned to one, and the
/// input, output and cost wires bound, by the outer protocol.
pub struct ExecutionRelation {
    pub instance: CCSInstance,
    pub input_indices: Vec<usize>,
    pub output_indices: Vec<usize>,
    pub output_shape: SubjectShape,
    pub cost_index: usize,
    pub max_cost: u64,
    pub lookups: Vec<LookupCoordinates>,
    pub ops: Vec<Op>,
}

/// Answers the lookups of a witness: the value at (namespace, key) under a
/// state root, if known.
pub trait LookupProvider {
    /// The state's value at (`namespace`, `key`) under `root`, if it has one.
    fn lookup(&mut self, root: [Goldilocks; 4], namespace: Goldilocks, key: Goldilocks) -> Option<Goldilocks>
        requires
            namespace@ <= 9,
    ;
}

/// The provider that knows no state.
pub struct NoLookups;

impl LookupProvider for NoLookups {
    fn lookup(&mut self, root: [Goldilocks; 4], namespace: Goldilocks, key: Goldilocks) -> (r: Option<Goldilocks>)
        ensures
            r is None,
    {
        None
    }
}

impl ExecutionRelation {
    /// The number of wires the program defines.
    pub open spec fn width(&self) -> nat {
        (1 + self.input_indices@.len() + self.ops@.len()) as nat
    }

    /// Inputs on wires 1.., every op reading earlier wires, outputs, cost and
    /// lookups among the defined wires, within an instance at least as wide.
    pub open spec fn wf(&self) -> bool {
        &&& self.instance.wf()
        &&& self.input_indices@.len() <= MAX_CALLS
        &&& self.ops@.len() <= MAX_WIRES
        &&& self.width() <= self.instance.num_cols
        &&& forall|i: int| 0 <= i < self.input_indices@.len() ==> #[trigger] self.input_indices@[i] == 1 + i
        &&& forall|k: int| 0 <= k < self.ops@.len() ==> (#[trigger] self.ops@[k]).ok((1 + self.input_indices@.len() + k) as nat)
        &&& forall|i: int| 0 <= i < self.output_indices@.len() ==> #[trigger] self.output_indices@[i] < self.width()
        &&& self.cost_index < self.width()
        &&& forall|i: int| 0 <= i < self.lookups@.len() ==> (#[trigger] self.lookups@[i]).ok(self.width())
    }
}

/// The value a deterministic operation gives its wire.
pub open spec fn rel_op_value(op: Op, z: Seq<nat>) -> nat {
    match op {
        Op::Linear(l) => lin_value(l@, z),
        Op::Product(a, b) => fmul(lin_value(a@, z), lin_value(b@, z)),
        Op::Bit(a, k) => (((lin_value(a@, z) as u64) >> (k as u64)) & 1u64) as nat,
        Op::Inverse(a) => if lin_value(a@, z) == 0 { 0 } else { finv(lin_value(a@, z)) },
        Op::Secret(a) => 0,
        Op::Look { active, .. } => 0,
    }
}

/// The wire `v` that the witness gives `op` over the earlier wires `z`:
/// the computed value for deterministic operations, zero for an inactive
/// secret or lookup, and anything for an active one.
pub open spec fn wire_ok(op: Op, z: Seq<nat>, v: nat) -> bool {
    match op {
        Op::Secret(a) => lin_value(a@, z) == 0 ==> v == 0,
        Op::Look { active, .. } => lin_value(active@, z) == 0 ==> v == 0,
        _ => v == rel_op_value(op, z),
    }
}

/// The values taken by the active secret wires, in order.
pub open spec fn active_secrets(ops: Seq<Op>, z: Seq<nat>, base: nat) -> Seq<nat>
    decreases ops.len(),
{
    if ops.len() == 0 {
        Seq::empty()
    } else {
        let prev = active_secrets(ops.drop_last(), z, base);
        let k = ops.len() - 1;
        match ops.last() {
            Op::Secret(a) => if lin_value(a@, z.subrange(0, base + k)) != 0 {
                prev.push(z[base + k])
            } else {
                prev
            },
            _ => prev,
        }
    }
}

/// `z` runs the program: one, the inputs, then each wire as `wire_ok`
/// says, the active secrets being exactly `secrets`, zero padding after.
pub open spec fn runs(r: &ExecutionRelation, inputs: Seq<nat>, secrets: Seq<nat>, z: Seq<nat>) -> bool {
    let base = 1 + inputs.len();
    &&& z.len() == r.instance.num_cols
    &&& z[0] == 1
    &&& forall|i: int| 0 <= i < inputs.len() ==> #[trigger] z[1 + i] == inputs[i]
    &&& forall|k: int| 0 <= k < r.ops@.len() ==> wire_ok(#[trigger] r.ops@[k], z.subrange(0, base + k), z[base + k])
    &&& active_secrets(r.ops@, z, base as nat) == secrets
    &&& forall|j: int| base + r.ops@.len() <= j < z.len() ==> #[trigger] z[j] == 0
}

impl ExecutionRelation {
    /// The witness for public `inputs` with no secrets and no lookups.
    pub fn witness(&self, inputs: &[Goldilocks]) -> (res: Result<CCSWitness, RelationError>)
        requires
            self.wf(),
        ensures
            inputs@.len() != self.input_indices@.len() ==> res == Err::<CCSWitness, RelationError>(RelationError::InputCount),
            res is Ok ==> runs(self, nats(inputs@), Seq::empty(), nats(res->Ok_0.z@)),
            inputs@.len() == self.input_indices@.len() && no_lookups(self.ops@) ==> (res is Ok <==> exists|z2: Seq<nat>|
                runs(self, nats(inputs@), Seq::empty(), z2)),
            inputs@.len() == self.input_indices@.len() && no_lookups(self.ops@) && res is Err ==> res->Err_0 is SecretCount,
    {
        let none: Vec<Goldilocks> = Vec::new();
        let r = self.witness_with_secrets(inputs, none.as_slice());
        assert(nats(none@) =~= Seq::<nat>::empty());
        r
    }

    /// The witness for public `inputs` and the `secrets` consumed, in order,
    /// by the active calls; no lookups.
    pub fn witness_with_secrets(&self, inputs: &[Goldilocks], secrets: &[Goldilocks]) -> (res: Result<CCSWitness, RelationError>)
        requires
            self.wf(),
        ensures
            inputs@.len() != self.input_indices@.len() ==> res == Err::<CCSWitness, RelationError>(RelationError::InputCount),
            res is Ok ==> runs(self, nats(inputs@), nats(secrets@), nats(res->Ok_0.z@)),
            inputs@.len() == self.input_indices@.len() && no_lookups(self.ops@) ==> (res is Ok <==> exists|z2: Seq<nat>|
                runs(self, nats(inputs@), nats(secrets@), z2)),
            inputs@.len() == self.input_indices@.len() && no_lookups(self.ops@) && res is Err ==> res->Err_0 is SecretCount,
    {
        let mut none = NoLookups;
        self.witness_with_provider(inputs, secrets, &mut none)
    }

    /// The witness for public `inputs`, the `secrets` consumed in order by
    /// the active calls, and the values `provider` gives the active lookups.
    #[verifier::rlimit(40)]
    pub fn witness_with_provider<L: LookupProvider>(&self, inputs: &[Goldilocks], secrets: &[Goldilocks], provider: &mut L) -> (res: Result<CCSWitness, RelationError>)
        requires
            self.wf(),
        ensures
            inputs@.len() != self.input_indices@.len() ==> (res == Err::<CCSWitness, RelationError>(RelationError::InputCount) && *final(provider) == *old(provider)),
            res is Err ==> res->Err_0 is InputCount || res->Err_0 is SecretCount || res->Err_0 is LookupUnavailable,
            res is Ok ==> runs(self, nats(inputs@), nats(secrets@), nats(res->Ok_0.z@)),
            inputs@.len() == self.input_indices@.len() && no_lookups(self.ops@) ==> (res is Ok <==> exists|z2: Seq<nat>|
                runs(self, nats(inputs@), nats(secrets@), z2)),
            inputs@.len() == self.input_indices@.len() && no_lookups(self.ops@) && res is Err ==> res->Err_0 is SecretCount,
    {
        if inputs.len() != self.input_indices.len() {
            return Err(RelationError::InputCount);
        }
        let ghost n = inputs@.len();
        let ghost base = 1 + n;
        let ghost ni = nats(inputs@);
        let ghost ns = nats(secrets@);
        let mut secret_index: usize = 0;
        let mut z: Vec<Goldilocks> = vec![Goldilocks::one()];
        let mut i: usize = 0;
        while i < inputs.len()
            invariant
                i <= inputs@.len(),
                z@.len() == 1 + i,
                z@[0]@ == 1,
                forall|j: int| 0 <= j < i ==> #[trigger] z@[1 + j] == inputs@[j],
            decreases inputs@.len() - i,
        {
            z.push(inputs[i]);
            i = i + 1;
        }
        proof {
            assert forall|z2: Seq<nat>| runs(self, ni, ns, z2) implies z2.subrange(0, base as int) == nats(z@) by {
                assert(self.width() <= self.instance.num_cols);
                assert(z2.len() >= base);
                assert forall|j: int| 0 <= j < base implies z2[j] == #[trigger] nats(z@)[j] by {
                    if j > 0 {
                        assert(z2[1 + (j - 1)] == ni[j - 1]);
                        assert(z@[1 + (j - 1)] == inputs@[j - 1]);
                    }
                }
                assert(z2.subrange(0, base as int) =~= nats(z@));
            }
        }
        let mut k: usize = 0;
        while k < self.ops.len()
            invariant
                ni == nats(inputs@),
                ns == nats(secrets@),
                no_lookups(self.ops@) ==> forall|z2: Seq<nat>| #[trigger] runs(self, ni, ns, z2) ==> z2.subrange(0, base + k) == nats(z@),
                self.wf(),
                inputs@.len() == self.input_indices@.len(),
                base == 1 + inputs@.len(),
                k <= self.ops@.len(),
                z@.len() == base + k,
                secret_index <= secrets@.len(),
                z@[0]@ == 1,
                forall|j: int| 0 <= j < inputs@.len() ==> #[trigger] z@[1 + j] == inputs@[j],
                forall|j: int| 0 <= j < k ==> wire_ok(#[trigger] self.ops@[j], nats(z@).subrange(0, base + j), nats(z@)[base + j]),
                active_secrets(self.ops@.subrange(0, k as int), nats(z@), base as nat) == nats(secrets@).subrange(0, secret_index as int),
            decreases self.ops@.len() - k,
        {
            let ghost zs = nats(z@);
            let ghost si0 = secret_index;
            let v = match &self.ops[k] {
                Op::Look { active, root, namespace, key } => {
                    if lin_eval(active, &z).is_zero() {
                        Goldilocks::zero()
                    } else {
                        let rt = [lin_eval(&root[0], &z), lin_eval(&root[1], &z), lin_eval(&root[2], &z), lin_eval(&root[3], &z)];
                        let ns = lin_eval(namespace, &z);
                        if ns.as_u64() > 9 {
                            return Err(RelationError::LookupUnavailable);
                        }
                        let kv = lin_eval(key, &z);
                        assert(ns@ <= 9);
                        match provider.lookup(rt, ns, kv) {
                            Some(x) => x,
                            None => {
                                return Err(RelationError::LookupUnavailable);
                            },
                        }
                    }
                },
                Op::Secret(active) => {
                    if lin_eval(active, &z).is_zero() {
                        Goldilocks::zero()
                    } else {
                        if secret_index >= secrets.len() {
                            proof {
                                if no_lookups(self.ops@) {
                                    assert forall|z2: Seq<nat>| runs(self, ni, ns, z2) implies false by {
                                        lemma_step_agrees(self, ni, ns, z2, zs, k as int, si0 as int);
                                    }
                                }
                            }
                            return Err(RelationError::SecretCount);
                        }
                        let x = secrets[secret_index];
                        secret_index = secret_index + 1;
                        x
                    }
                },
                Op::Linear(a) => lin_eval(a, &z),
                Op::Product(a, b) => lin_eval(a, &z).mul(lin_eval(b, &z)),
                Op::Bit(a, bit) => Goldilocks::new((lin_eval(a, &z).as_u64() >> (*bit as u64)) & 1),
                Op::Inverse(a) => {
                    let x = lin_eval(a, &z);
                    if x.is_zero() {
                        Goldilocks::zero()
                    } else {
                        x.inv()
                    }
                },
            };
            proof {
                if let Op::Bit(a, bit) = self.ops@[k as int] {
                    let y: u64 = lin_value(a@, zs) as u64;
                    let sh: u64 = bit as u64;
                    assert((y >> sh) & 1u64 <= 1u64) by (bit_vector);
                    vstd::arithmetic::div_mod::lemma_small_mod(((y >> sh) & 1u64) as nat, crate::field::modulus());
                }
                assert(zs =~= nats(z@));
            }
            let ghost before = z@;
            z.push(v);
            proof {
                assert(nats(z@) =~= zs.push(v@));
                assert(zs.len() == base + k);
                assert forall|j: int| 0 <= j < k + 1 implies wire_ok(#[trigger] self.ops@[j], nats(z@).subrange(0, base + j), nats(z@)[base + j]) by {
                    assert(nats(z@).subrange(0, base + j) =~= zs.subrange(0, base + j) || j == k);
                    if j < k {
                        assert(nats(z@).subrange(0, base + j) =~= zs.subrange(0, base + j));
                    } else {
                        assert(nats(z@).subrange(0, base + j) =~= zs);
                    }
                }
                lemma_active_secrets_extend(self.ops@, zs, v@, base as nat, k as nat);
                let ops_k1 = self.ops@.subrange(0, k + 1);
                assert(ops_k1.drop_last() =~= self.ops@.subrange(0, k as int));
                assert(ops_k1.last() == self.ops@[k as int]);
                assert(nats(z@).subrange(0, base + k) =~= zs);
                assert(nats(secrets@).subrange(0, secret_index as int) =~= nats(secrets@).subrange(0, secret_index as int));
                if no_lookups(self.ops@) {
                    assert forall|z2: Seq<nat>| #[trigger] runs(self, ni, ns, z2) implies z2.subrange(0, base + k + 1) == nats(z@) by {
                        assert(!(self.ops@[k as int] is Look));
                        lemma_step_agrees(self, ni, ns, z2, zs, k as int, si0 as int);
                        assert(wire_ok(self.ops@[k as int], nats(z@).subrange(0, base + k), nats(z@)[base + k]));
                        assert(nats(z@).subrange(0, base + k) =~= zs);
                        assert(z2.subrange(0, base + k + 1) =~= nats(z@));
                    }
                }
            }
            k = k + 1;
        }
        if secret_index != secrets.len() {
            proof {
                if no_lookups(self.ops@) {
                    assert(self.ops@.subrange(0, self.ops@.len() as int) =~= self.ops@);
                    assert forall|z2: Seq<nat>| runs(self, ni, ns, z2) implies false by {
                        lemma_all_secrets(self, ni, ns, z2, nats(z@), secret_index as int);
                    }
                }
            }
            return Err(RelationError::SecretCount);
        }
        let ghost zr = nats(z@);
        while z.len() < self.instance.num_cols
            invariant
                zr.len() <= z@.len() <= self.instance.num_cols,
                forall|j: int| 0 <= j < zr.len() ==> #[trigger] z@[j]@ == zr[j],
                forall|j: int| zr.len() <= j < z@.len() ==> #[trigger] z@[j]@ == 0,
            decreases self.instance.num_cols - z@.len(),
        {
            z.push(Goldilocks::zero());
        }
        proof {
            assert(self.ops@.subrange(0, self.ops@.len() as int) =~= self.ops@);
            assert(nats(secrets@).subrange(0, secrets@.len() as int) =~= nats(secrets@));
            lemma_active_secrets_prefix(self.ops@, zr, nats(z@), base as nat);
            assert forall|j: int| 0 <= j < self.ops@.len() implies wire_ok(#[trigger] self.ops@[j], nats(z@).subrange(0, base + j), nats(z@)[base + j]) by {
                assert(nats(z@).subrange(0, base + j) =~= zr.subrange(0, base + j));
            }
        }
        proof {
            assert(runs(self, nats(inputs@), nats(secrets@), nats(z@)));
        }
        Ok(CCSWitness { z })
    }
}

/// Appending one wire extends the active secrets by that wire exactly when
/// the new operation is an active secret.
proof fn lemma_active_secrets_extend(ops: Seq<Op>, zs: Seq<nat>, v: nat, base: nat, k: nat)
    requires
        k < ops.len(),
        zs.len() == base + k,
    ensures
        active_secrets(ops.subrange(0, k as int + 1), zs.push(v), base) == ({
            let prev = active_secrets(ops.subrange(0, k as int), zs, base);
            match ops[k as int] {
                Op::Secret(a) => if lin_value(a@, zs) != 0 { prev.push(v) } else { prev },
                _ => prev,
            }
        }),
{
    lemma_active_secrets_frame(ops.subrange(0, k as int), zs, zs.push(v), base);
    let s = ops.subrange(0, k as int + 1);
    assert(s.drop_last() =~= ops.subrange(0, k as int));
    assert(zs.push(v).subrange(0, (base + k) as int) =~= zs);
}

/// The active secrets of a prefix depend only on the wires it defines.
proof fn lemma_active_secrets_frame(ops: Seq<Op>, z1: Seq<nat>, z2: Seq<nat>, base: nat)
    requires
        z1.len() >= base + ops.len(),
        z2.len() >= base + ops.len(),
        forall|j: int| 0 <= j < base + ops.len() ==> z1[j] == z2[j],
    ensures
        active_secrets(ops, z1, base) == active_secrets(ops, z2, base),
    decreases ops.len(),
{
    if ops.len() > 0 {
        let k = ops.len() - 1;
        lemma_active_secrets_frame(ops.drop_last(), z1, z2, base);
        assert(z1.subrange(0, base + k) =~= z2.subrange(0, base + k));
    }
}

/// Padding after the program's wires does not change the active secrets.
proof fn lemma_active_secrets_prefix(ops: Seq<Op>, zr: Seq<nat>, z: Seq<nat>, base: nat)
    requires
        zr.len() == base + ops.len(),
        z.len() >= zr.len(),
        forall|j: int| 0 <= j < zr.len() ==> z[j] == zr[j],
    ensures
        active_secrets(ops, z, base) == active_secrets(ops, zr, base),
{
    lemma_active_secrets_frame(ops, z, zr, base);
}


/// Check a program's size, depth and canonicity.
pub fn validate_program(n: &ExecutionNoun, d: usize, count: &mut usize) -> (res: Result<(), RelationError>)
    requires
        *old(count) <= MAX_CALLS,
        d <= MAX_DEPTH + 1,
    ensures
        match check_spec(*n, d as nat, *old(count) as nat) {
            Ok(c) => res is Ok && *final(count) == c,
            Err(e) => res == Err::<(), RelationError>(e),
        },
{
    check_noun(n, d, count)
}

/// The symbolic subject: one input wire per atom, numbered from `*next`.
pub fn subject(s: &SubjectShape, next: &mut usize, d: usize) -> (res: Result<Value, RelationError>)
    requires
        *old(next) <= MAX_CALLS + 1,
    ensures
        res is Err ==> res->Err_0 == RelationError::Limit,
        res is Ok ==> {
            &&& *final(next) == *old(next) + s.leaves()
            &&& *final(next) <= MAX_CALLS + 1
            &&& res->Ok_0.ok(*final(next) as nat)
            &&& forall|z: Seq<nat>| #[trigger] den(res->Ok_0, z) == shape_den(*s, z, *old(next) as nat)
        },
    decreases s,
{
    if d > MAX_DEPTH || *next > MAX_CALLS {
        return Err(RelationError::Limit);
    }
    match s {
        SubjectShape::Atom => {
            let i = *next;
            *next = *next + 1;
            Ok(Value::Wire(i))
        },
        SubjectShape::Pair(a, b) => {
            let ghost n0 = *next;
            let va = subject(a, next, d + 1)?;
            let ghost n1 = *next;
            let vb = subject(b, next, d + 1)?;
            proof {
                lemma_value_mono(&va, n1 as nat, *next as nat);
            }
            let v = Value::Pair(Box::new(va), Box::new(vb));
            proof {
                assert forall|z: Seq<nat>| #[trigger] den(v, z) == shape_den(*s, z, n0 as nat) by {
                    assert(den(va, z) == shape_den(**a, z, n0 as nat));
                    assert(den(vb, z) == shape_den(**b, z, n1 as nat));
                }
            }
            Ok(v)
        },
    }
}

/// Allocate one output wire per atom of the value, left to right, and
/// return the value's shape.
pub fn outputs(b: &mut Builder, v: &Value, indices: &mut Vec<usize>) -> (res: Result<SubjectShape, RelationError>)
    requires
        old(b).wf(),
        v.ok(old(b).next()),
        forall|i: int| 0 <= i < old(indices)@.len() ==> #[trigger] old(indices)@[i] < old(b).next(),
    ensures
        res is Err ==> res->Err_0 is Limit || res->Err_0 is Unsupported,
        res is Ok ==> {
            &&& final(b).wf()
            &&& final(b).fixed(old(b))
            &&& final(b).active == old(b).active
            &&& forall|i: int| 0 <= i < final(indices)@.len() ==> #[trigger] final(indices)@[i] < final(b).next()
            &&& final(b).ops@.len() == old(b).ops@.len() + value_leaves(*v).len()
            &&& final(indices)@ == old(indices)@ + Seq::new(
                value_leaves(*v).len(),
                |k: int| (old(b).next() + k) as usize,
            )
            &&& forall|k: int|
                0 <= k < value_leaves(*v).len() ==> reads_atom(
                    #[trigger] final(b).ops@[old(b).ops@.len() + k],
                    value_leaves(*v)[k],
                )
        },
    decreases v,
{
    match v {
        Value::Pair(a, c) => {
            let ghost n0 = b.next();
            let ghost b0 = *b;
            let ghost i0 = indices@;
            let sa = outputs(b, a, indices)?;
            let ghost b1 = *b;
            let ghost i1 = indices@;
            proof {
                lemma_value_mono(c, n0, b.next());
            }
            let sc = outputs(b, c, indices)?;
            proof {
                let la = value_leaves(**a);
                let lc = value_leaves(**c);
                assert(value_leaves(*v) == la + lc);
                assert(indices@ =~= i0 + Seq::new((la + lc).len(), |k: int| (b0.next() + k) as usize));
                assert forall|k: int| 0 <= k < (la + lc).len() implies reads_atom(
                    #[trigger] b.ops@[b0.ops@.len() + k],
                    (la + lc)[k],
                ) by {
                    if k < la.len() {
                        assert(reads_atom(b1.ops@[b0.ops@.len() + k], la[k]));
                        assert(b.ops@[b0.ops@.len() + k] == b1.ops@[b0.ops@.len() + k]);
                    } else {
                        let k2 = k - la.len();
                        assert(reads_atom(b.ops@[b1.ops@.len() + k2], lc[k2]));
                    }
                }
            }
            Ok(SubjectShape::Pair(Box::new(sa), Box::new(sc)))
        },
        _ => {
            let ghost n0 = b.next();
            let ghost b0 = *b;
            let ghost i0 = indices@;
            let l = b.linear(v)?;
            let w = b.alloc_linear(l)?;
            match w {
                Value::Wire(i) => {
                    indices.push(i);
                },
                _ => {},
            }
            proof {
                assert(value_leaves(*v) == seq![*v]);
                assert(indices@ =~= i0 + Seq::new(1, |k: int| (b0.next() + k) as usize));
                assert(b.ops@[b0.ops@.len() as int] == b.ops@.last());
            }
            Ok(SubjectShape::Atom)
        },
    }
}

/// The atoms of a value, left to right: the head's before the tail's.
pub open spec fn value_leaves(v: Value) -> Seq<Value>
    decreases v,
{
    match v {
        Value::Pair(a, b) => value_leaves(*a) + value_leaves(*b),
        _ => seq![v],
    }
}

/// An operation that reads an atom computes the atom's value, so under a
/// satisfying assignment the output wire allocated for the k-th leaf holds
/// that leaf.
pub proof fn lemma_reads_atom_value(op: Op, leaf: Value, z: Seq<nat>)
    requires
        reads_atom(op, leaf),
        z.len() > 0,
        z[0] == 1,
        forall|i: int| 0 <= i < z.len() ==> #[trigger] z[i] < modulus(),
        leaf.ok(z.len()),
    ensures
        rel_op_value(op, z) == atom_val(leaf, z),
{
    if let Op::Linear(l) = op {
        lemma_atom_lin(leaf, l@, z);
    }
}

/// `op` computes its wire as the atom `leaf`: the constant times the
/// constant wire, or the leaf's wire once.
pub open spec fn reads_atom(op: Op, leaf: Value) -> bool {
    match op {
        Op::Linear(l) => match leaf {
            Value::Constant(c) => l@ == seq![(0usize, c)],
            Value::Wire(i) => l@.len() == 1 && l@[0].0 == i && l@[0].1@ == 1,
            Value::Pair(_, _) => false,
        },
        _ => false,
    }
}

/// Compile solely from the public formula and subject shape.
pub fn compile_relation(program: &ExecutionNoun, shape: &SubjectShape, tables: HashTables) -> (res: Result<ExecutionRelation, RelationError>)
    ensures
        check_spec(*program, 0, 0) matches Err(e) ==> res == Err::<ExecutionRelation, RelationError>(e),
        res matches Ok(r) ==> r.wf() && r.max_cost < P && r.input_indices@.len() == shape.leaves() && forces_wires(&r),
        res matches Ok(r) ==> computes(&r, *program, *shape),
{
    compile_relation_internal(program, shape, None, tables)
}

/// The number of cells of the first `n` dimensions of the tables.
pub open spec fn dims_total(state: &PublicStateTables, n: int) -> nat
    decreases n,
{
    if n <= 0 {
        0
    } else {
        dims_total(state, n - 1) + state.dimensions@[n - 1]@.len()
    }
}

proof fn lemma_dims_total_mono(state: &PublicStateTables, a: int, b: int)
    requires
        0 <= a <= b,
    ensures
        dims_total(state, a) <= dims_total(state, b),
    decreases b - a,
{
    if a < b {
        lemma_dims_total_mono(state, a, b - 1);
    }
}

/// Row `q` of three matrices, as a row of the builder.
pub open spec fn row_triple(m0: SparseMatrix, m1: SparseMatrix, m2: SparseMatrix, q: int) -> (Linear, Linear, Linear) {
    (m0.entries@[q], m1.entries@[q], m2.entries@[q])
}

/// The instance is the R1CS `(A·z)(B·z) − C·z = 0`: three matrices of
/// `num_rows` stored rows, A and B in a term with coefficient one, C alone
/// with coefficient minus one.
pub open spec fn r1cs_shape(u: &CCSInstance) -> bool {
    &&& u.matrices@.len() == 3
    &&& forall|i: int| 0 <= i < 3 ==> (#[trigger] u.matrices@[i]).rows == u.num_rows && u.matrices@[i].entries@.len() == u.num_rows
    &&& u.multisets@.len() == 2
    &&& u.multisets@[0]@ == seq![0usize, 1usize]
    &&& u.multisets@[1]@ == seq![2usize]
    &&& u.coeffs@.len() == 2
    &&& u.coeffs@[0]@ == 1
    &&& u.coeffs@[1]@ == modulus() - 1
}

/// Every linear and product wire of the relation is defined by a row of
/// its instance: `l · 1 = w` or `a · b = w`.
pub open spec fn forces_wires(r: &ExecutionRelation) -> bool {
    &&& r1cs_shape(&r.instance)
    &&& forall|k: int|
        0 <= k < r.ops@.len() && (r.ops@[k] is Linear || r.ops@[k] is Product) ==> exists|q: int|
            0 <= q < r.instance.num_rows && defines(
                #[trigger] row_triple(r.instance.matrices@[0], r.instance.matrices@[1], r.instance.matrices@[2], q),
                r.ops@[k],
                r.input_indices@.len() + 1 + k,
            )
}

/// Compile with lookups authenticated against public state tables, which
/// the state owner must already have authenticated under their root.
pub fn compile_relation_with_state(program: &ExecutionNoun, shape: &SubjectShape, state: &PublicStateTables, tables: HashTables) -> (res: Result<ExecutionRelation, RelationError>)
    ensures
        dims_total(state, 10) > 2048 ==> res == Err::<ExecutionRelation, RelationError>(RelationError::Limit),
        dims_total(state, 10) <= 2048 ==> (check_spec(*program, 0, 0) matches Err(e) ==> res == Err::<ExecutionRelation, RelationError>(e)),
        res matches Ok(r) ==> dims_total(state, 10) <= 2048 && r.wf() && r.max_cost < P && r.input_indices@.len() == shape.leaves()
            && forces_wires(&r),
        res matches Ok(r) ==> computes(&r, *program, *shape),
{
    let mut total: usize = 0;
    let mut i: usize = 0;
    while i < 10
        invariant
            i <= 10,
            total <= 2048,
            total == dims_total(state, i as int),
        decreases 10 - i,
    {
        let len = state.dimensions[i].len();
        if len > 2048 - total {
            proof {
                lemma_dims_total_mono(state, i + 1, 10);
            }
            return Err(RelationError::Limit);
        }
        total = total + len;
        i = i + 1;
    }
    compile_relation_internal(program, shape, Some(state.copy()), tables)
}

/// The compiler: validate, build the subject, evaluate, expose the outputs
/// and the cost, and lay the rows out as an R1CS-shaped instance.
pub fn compile_relation_internal(program: &ExecutionNoun, shape: &SubjectShape, state: Option<PublicStateTables>, tables: HashTables) -> (res: Result<ExecutionRelation, RelationError>)
    ensures
        check_spec(*program, 0, 0) matches Err(e) ==> res == Err::<ExecutionRelation, RelationError>(e),
        res matches Ok(r) ==> r.wf() && r.max_cost < P && r.input_indices@.len() == shape.leaves() && forces_wires(&r),
        res matches Ok(r) ==> computes(&r, *program, *shape),
{
    let mut count: usize = 0;
    validate_program(program, 0, &mut count)?;
    let mut next: usize = 1;
    let obj = subject(shape, &mut next, 0)?;
    let mut b = Builder {
        inputs: next - 1,
        ops: Vec::new(),
        rows: Vec::new(),
        calls: 0,
        active: Value::Constant(Goldilocks::one()),
        lookups: Vec::new(),
        state,
        tables,
    };
    proof {
        assert(rows_ok(b.rows@, b.next()));
        reveal(crate::execution::relation_builder::defined);
        assert(b.wf());
    }
    let (value, cost, max_cost) = b.eval(&obj, program, 0)?;
    let ghost be = b;
    if max_cost >= P {
        return Err(RelationError::Limit);
    }
    let mut output_indices: Vec<usize> = Vec::new();
    let ghost n1 = b.next();
    let output_shape = outputs(&mut b, &value, &mut output_indices)?;
    let ghost bo = b;
    proof {
        lemma_value_mono(&cost, n1, b.next());
    }
    let lc = b.linear(&cost)?;
    let ghost n2 = b.next();
    let cw = b.alloc_linear(lc)?;
    let cost_index = match cw {
        Value::Wire(i) => i,
        _ => {
            return Err(RelationError::Unsupported("atom required"));
        },
    };
    let nrows = if b.rows.len() < 2 { 2 } else { b.rows.len() };
    if nrows > 0x10_0000 {
        return Err(RelationError::Limit);
    }
    let rows = next_pow2(nrows);
    let width = next + b.ops.len();
    if width > 0x10_0000 {
        return Err(RelationError::Limit);
    }
    let ncols = if width < 64 { 64 } else { width };
    let cols = next_pow2(ncols);
    let mut m0 = SparseMatrix::new(rows, cols);
    let mut m1 = SparseMatrix::new(rows, cols);
    let mut m2 = SparseMatrix::new(rows, cols);
    let ghost brows = b.rows@;
    let ghost bops = b.ops@;
    let ghost binputs = b.inputs;
    let ghost bf = b;
    proof {
        assert(defined(bops, brows, binputs as nat));
    }
    let mut rest = b.rows;
    while rest.len() > 0
        invariant
            rest@ == brows.take(rest@.len() as int),
            rest@.len() <= brows.len(),
            brows.len() <= rows,
            m0.rows == rows && m0.cols == cols && m0.entries@.len() == rows,
            m1.rows == rows && m1.cols == cols && m1.entries@.len() == rows,
            m2.rows == rows && m2.cols == cols && m2.entries@.len() == rows,
            forall|q: int|
                rest@.len() <= q < brows.len() ==> #[trigger] row_triple(m0, m1, m2, q) == brows[q],
        decreases rest@.len(),
    {
        let idx = rest.len() - 1;
        let ghost before = rest@;
        let ghost (o0, o1, o2) = (m0, m1, m2);
        let (x, y, w) = rest.pop().unwrap();
        proof {
            assert((x, y, w) == before[idx as int]);
            assert(brows.take(idx + 1)[idx as int] == brows[idx as int]);
            assert(rest@ =~= brows.take(idx as int));
        }
        m0.entries.set(idx, x);
        m1.entries.set(idx, y);
        m2.entries.set(idx, w);
        proof {
            assert forall|q: int| rest@.len() <= q < brows.len() implies #[trigger] row_triple(m0, m1, m2, q) == brows[q] by {
                if q > idx {
                    assert(row_triple(o0, o1, o2, q) == brows[q]);
                    assert(m0.entries@[q] == o0.entries@[q]);
                    assert(m1.entries@[q] == o1.entries@[q]);
                    assert(m2.entries@[q] == o2.entries@[q]);
                }
            }
        }
    }
    proof {
        reveal(defined);
        assert forall|k: int| 0 <= k < bops.len() && (bops[k] is Linear || bops[k] is Product) implies exists|q: int|
            0 <= q < rows && defines(#[trigger] row_triple(m0, m1, m2, q), bops[k], binputs + 1 + k) by {
            assert(has_def_row(brows, bops[k], binputs + 1 + k));
            let q = choose|q: int| 0 <= q < brows.len() && defines(#[trigger] brows[q], bops[k], binputs + 1 + k);
            assert(row_triple(m0, m1, m2, q) == brows[q]);
        }
    }
    let mut input_indices: Vec<usize> = Vec::new();
    let mut i: usize = 1;
    while i < next
        invariant
            1 <= i <= next,
            next <= MAX_CALLS + 1,
            input_indices@.len() == i - 1,
            forall|j: int| 0 <= j < i - 1 ==> #[trigger] input_indices@[j] == 1 + j,
        decreases next - i,
    {
        input_indices.push(i);
        i = i + 1;
    }
    let ghost m0c = m0;
    let ghost m1c = m1;
    let ghost m2c = m2;
    let matrices = vec![m0, m1, m2];
    let multisets: Vec<Vec<usize>> = vec![vec![0usize, 1usize], vec![2usize]];
    let mo = minus_one();
    proof {
        vstd::arithmetic::div_mod::lemma_small_mod(1nat, modulus());
        vstd::arithmetic::div_mod::lemma_small_mod((modulus() - 1) as nat, modulus());
        assert(mo@ == modulus() - 1);
    }
    let one = Goldilocks::one();
    let coeffs = vec![one, mo];
    let instance = CCSInstance { matrices, multisets, coeffs, num_rows: rows, num_cols: cols };
    proof {
        assert(instance.multisets@[0]@ == seq![0usize, 1usize]);
        assert(instance.multisets@[1]@ == seq![2usize]);
        assert(instance.num_terms() == 2);
        assert(instance.matrices@[0].wf() && instance.matrices@[1].wf() && instance.matrices@[2].wf());
        assert(instance.wf());
    }
    let r = ExecutionRelation {
        instance,
        input_indices,
        output_indices,
        output_shape,
        cost_index,
        max_cost,
        lookups: b.lookups,
        ops: b.ops,
    };
    proof {
        assert(r.width() == b.next());
        assert(r.ops@ == bops);
        assert(r.input_indices@.len() == binputs);
        assert(r.instance.matrices@[0] == m0c && r.instance.matrices@[1] == m1c && r.instance.matrices@[2] == m2c);
        vstd::arithmetic::div_mod::lemma_small_mod((modulus() - 1) as nat, modulus());
        assert(r.instance.coeffs@[1]@ == modulus() - 1);
        assert(r.instance.coeffs@[0]@ == 1);
        assert(r1cs_shape(&r.instance));
        assert(output_indices@ =~= Seq::new(value_leaves(value).len(), |k: int| (be.next() + k) as usize));
        assert forall|k: int| 0 <= k < value_leaves(value).len() implies reads_atom(
            #[trigger] bf.ops@[be.ops@.len() + k],
            value_leaves(value)[k],
        ) by {
            assert(reads_atom(bo.ops@[be.ops@.len() + k], value_leaves(value)[k]));
        }
        lemma_compiled_computes(&r, &bf, &be, obj, value, *program, *shape);
    }
    Ok(r)
}

/// Every satisfying witness of the relation carries on its output wires
/// the atoms, left to right, of the reduction of `program` on the subject
/// read from its input wires, wherever the covered fragment of nox
/// defines that reduction.
pub open spec fn computes(r: &ExecutionRelation, program: ExecutionNoun, shape: SubjectShape) -> bool {
    forall|z: Seq<Goldilocks>|
        #[trigger] r.instance.satisfied(z) ==> (z.len() == r.instance.num_cols && z[0]@ == 1 && (forall|j: int|
            0 <= j < z.len() ==> (#[trigger] z[j])@ < modulus()) ==> (nox_reduce(shape_den(shape, nats(z), 1), program) matches Some(
            n,
        ) ==> noun_leaves(n) == Seq::new(r.output_indices@.len(), |k: int| z[r.output_indices@[k] as int]@)))
}

proof fn lemma_compiled_computes(
    r: &ExecutionRelation,
    b: &Builder,
    be: &Builder,
    obj: Value,
    value: Value,
    program: ExecutionNoun,
    shape: SubjectShape,
)
    requires
        b.wf(),
        b.grows(be),
        reduces_to(be, obj, program, value),
        forall|z: Seq<nat>| #[trigger] den(obj, z) == shape_den(shape, z, 1),
        value.ok(be.next()),
        r1cs_shape(&r.instance),
        b.rows@.len() <= r.instance.num_rows,
        forall|q: int|
            0 <= q < b.rows@.len() ==> #[trigger] row_triple(
                r.instance.matrices@[0],
                r.instance.matrices@[1],
                r.instance.matrices@[2],
                q,
            ) == b.rows@[q],
        b.next() <= r.instance.num_cols,
        r.output_indices@ == Seq::new(value_leaves(value).len(), |k: int| (be.next() + k) as usize),
        be.ops@.len() + value_leaves(value).len() <= b.ops@.len(),
        forall|k: int|
            0 <= k < value_leaves(value).len() ==> reads_atom(#[trigger] b.ops@[be.ops@.len() + k], value_leaves(value)[k]),
    ensures
        computes(r, program, shape),
{
    let u = &r.instance;
    let leaves = value_leaves(value);
    assert forall|z: Seq<Goldilocks>| #[trigger] r.instance.satisfied(z) implies (z.len() == r.instance.num_cols && z[0]@ == 1
        && (forall|j: int| 0 <= j < z.len() ==> (#[trigger] z[j])@ < modulus()) ==> (nox_reduce(
        shape_den(shape, nats(z), 1),
        program,
    ) matches Some(n) ==> noun_leaves(n) == Seq::new(r.output_indices@.len(), |k: int| z[r.output_indices@[k] as int]@))) by {
        if z.len() == r.instance.num_cols && z[0]@ == 1 && (forall|j: int| 0 <= j < z.len() ==> (#[trigger] z[j])@ < modulus()) {
            let nz = nats(z);
            assert(nz.len() == z.len());
            assert forall|i: int| 0 <= i < nz.len() implies #[trigger] nz[i] < modulus() by {
                assert(nz[i] == z[i]@);
            }
            assert forall|q: int| 0 <= q < b.rows@.len() implies row_holds(#[trigger] b.rows@[q], nz) by {
                assert(u.row_value(z, q) == 0);
                lemma_r1cs_row(u, z, q);
                let row = b.rows@[q];
                assert(row_triple(u.matrices@[0], u.matrices@[1], u.matrices@[2], q) == row);
                assert(lin_ok(row.0@, b.next()) && lin_ok(row.1@, b.next()) && lin_ok(row.2@, b.next()));
                assert(lin_ok(row.0@, z.len()));
                assert(lin_ok(row.1@, z.len()));
                assert(lin_ok(row.2@, z.len()));
                lemma_lin_row_dot(row.0@, z);
                lemma_lin_row_dot(row.1@, z);
                lemma_lin_row_dot(row.2@, z);
            }
            assert(satisfied_by(b, nz));
            lemma_satisfied_shrink(b, be, nz);
            assert(den(obj, nz) == shape_den(shape, nz, 1));
            lemma_value_mono(&value, be.next(), nz.len());
            lemma_den_leaves(value, nz);
            assert forall|k: int| 0 <= k < leaves.len() implies #[trigger] z[r.output_indices@[k] as int]@ == atom_val(leaves[k], nz) by {
                let kk = be.ops@.len() + k;
                assert(reads_atom(b.ops@[kk], leaves[k]));
                lemma_satisfied_ops(b, nz, kk);
                crate::execution::relation_semantics::lemma_leaf_ok(value, nz.len(), k);
                lemma_reads_atom_value(b.ops@[kk], leaves[k], nz);
                assert(r.output_indices@[k] as int == b.inputs + 1 + kk);
                assert(nz[b.inputs + 1 + kk] == z[b.inputs + 1 + kk]@);
            }
        }
    }
}
/// A linear combination over in-range wires has the same value as the
/// sparse row dot product of the instance.
pub proof fn lemma_lin_row_dot(l: Seq<(usize, Goldilocks)>, z: Seq<Goldilocks>)
    requires
        lin_ok(l, z.len()),
    ensures
        lin_value(l, nats(z)) == crate::types::row_dot(l, z),
    decreases l.len(),
{
    if l.len() > 0 {
        let rest = l.drop_last();
        assert(lin_ok(rest, z.len())) by {
            assert forall|i: int| 0 <= i < rest.len() implies (#[trigger] rest[i]).0 < z.len() by {
                assert(rest[i] == l[i]);
            }
        }
        lemma_lin_row_dot(rest, z);
        let (idx, c) = l.last();
        assert(l.last().0 < z.len()) by {
            assert(l[l.len() - 1] == l.last());
        }
        assert(nats(z)[idx as int] == z[idx as int]@);
        vstd::arithmetic::mul::lemma_mul_is_commutative(z[idx as int]@ as int, c@ as int);
    }
}

/// `(p − 1)·c + x ≡ 0` with `x, c` canonical forces `x = c`.
proof fn lemma_r1cs_cancel(x: nat, c: nat)
    requires
        x < modulus(),
        c < modulus(),
        (x + fmul((modulus() - 1) as nat, c)) % modulus() == 0,
    ensures
        x == c,
{
    let p = modulus() as int;
    if c == 0 {
        assert(((p - 1) * 0) == 0);
        vstd::arithmetic::div_mod::lemma_small_mod(x, modulus());
    } else {
        assert((p - 1) * (c as int) == p * (c - 1) + (p - c)) by (nonlinear_arith);
        vstd::arithmetic::div_mod::lemma_mod_multiples_vanish((c - 1) as int, p - c, p);
        vstd::arithmetic::div_mod::lemma_small_mod((p - c) as nat, modulus());
        assert(fmul((modulus() - 1) as nat, c) == p - c);
        if x + (p - c) < p {
            vstd::arithmetic::div_mod::lemma_small_mod((x + (p - c)) as nat, modulus());
        } else {
            vstd::arithmetic::div_mod::lemma_mod_multiples_vanish(1, x + (p - c) - p, p);
            vstd::arithmetic::div_mod::lemma_small_mod((x + (p - c) - p) as nat, modulus());
        }
    }
}

/// On a satisfied row `q` of an R1CS-shaped instance, (A·z)(B·z) = C·z.
pub proof fn lemma_r1cs_row(u: &CCSInstance, z: Seq<Goldilocks>, q: int)
    requires
        r1cs_shape(u),
        0 <= q < u.num_rows,
        u.row_value(z, q) == 0,
    ensures
        fmul(u.matrices@[0].apply(z, q), u.matrices@[1].apply(z, q)) == u.matrices@[2].apply(z, q),
{
    let a = u.matrices@[0].apply(z, q);
    let b = u.matrices@[1].apply(z, q);
    let c = u.matrices@[2].apply(z, q);
    assert(u.matrices@[0].rows == u.num_rows && u.matrices@[1].rows == u.num_rows && u.matrices@[2].rows == u.num_rows);
    assert(u.matrices@[0].entries@.len() == u.num_rows && u.matrices@[1].entries@.len() == u.num_rows
        && u.matrices@[2].entries@.len() == u.num_rows);
    assert(a < modulus() && b < modulus() && c < modulus());
    assert(u.num_terms() == 2);
    let s0 = u.term_set(0);
    let s1 = u.term_set(1);
    assert(s0 == seq![0usize, 1usize]);
    assert(s1 == seq![2usize]);
    vstd::arithmetic::div_mod::lemma_small_mod(a, modulus());
    vstd::arithmetic::div_mod::lemma_small_mod(c, modulus());
    assert(u.factor(0, z, q) == a);
    assert(u.factor(1, z, q) == b);
    assert(u.factor(2, z, q) == c);
    assert(u.product(s0, 0, z, q) == 1);
    assert(u.product(s1, 0, z, q) == 1);
    assert(u.partial_sum(0, z, q) == 0);
    assert(u.product(s0, 1, z, q) == fmul(1, a));
    assert(1 * a == a);
    assert(fmul(1, a) == a);
    assert(u.product(s0, 2, z, q) == fmul(a, b));
    assert(u.product(s1, 1, z, q) == fmul(1, c));
    assert(1 * c == c);
    assert(fmul(1, c) == c);
    let x = fmul(a, b);
    vstd::arithmetic::div_mod::lemma_small_mod(x, modulus());
    assert(fmul(1, x) == x);
    assert(u.partial_sum(1, z, q) == fadd(0, x));
    assert(fadd(0, x) == x);
    assert(u.partial_sum(2, z, q) == fadd(x, fmul((modulus() - 1) as nat, c)));
    lemma_r1cs_cancel(x, c);
}

/// Soundness of the linear and product wires: on any witness that
/// satisfies the compiled instance with the constant wire one, each wire a
/// linear or product operation computes holds that operation's value.
pub proof fn lemma_forced_wires(r: &ExecutionRelation, z: Seq<Goldilocks>, k: int)
    requires
        r.wf(),
        forces_wires(r),
        z.len() == r.instance.num_cols,
        z[0]@ == 1,
        forall|j: int| 0 <= j < z.len() ==> (#[trigger] z[j])@ < modulus(),
        r.instance.satisfied(z),
        0 <= k < r.ops@.len(),
        r.ops@[k] is Linear || r.ops@[k] is Product,
    ensures
        z[r.input_indices@.len() + 1 + k]@ == rel_op_value(r.ops@[k], nats(z)),
{
    let u = &r.instance;
    let w = r.input_indices@.len() + 1 + k;
    let q = choose|q: int|
        0 <= q < u.num_rows && defines(#[trigger] row_triple(u.matrices@[0], u.matrices@[1], u.matrices@[2], q), r.ops@[k], w);
    assert(u.row_value(z, q) == 0);
    lemma_r1cs_row(u, z, q);
    let t = row_triple(u.matrices@[0], u.matrices@[1], u.matrices@[2], q);
    assert(u.matrices@[0].entries@.len() == u.num_rows && u.matrices@[1].entries@.len() == u.num_rows
        && u.matrices@[2].entries@.len() == u.num_rows);
    assert(r.ops@[k].ok((1 + r.input_indices@.len() + k) as nat));
    assert(w < r.width());
    // C·z is the wire
    let cz = u.matrices@[2].apply(z, q);
    assert(u.matrices@[2].row(q) == t.2@);
    assert(t.2@.len() == 1 && t.2@[0].0 == w && t.2@[0].1@ == 1);
    assert(t.2@.drop_last().len() == 0);
    assert(crate::types::row_dot(t.2@.drop_last(), z) == 0);
    assert(t.2@.last() == t.2@[0]);
    vstd::arithmetic::div_mod::lemma_small_mod(z[w]@, modulus());
    assert(fadd(0, fmul(1, z[w]@)) == z[w]@);
    assert(crate::types::zval(z, w) == z[w]@);
    assert(fmul(1, z[w]@) == z[w]@);
    assert(cz == z[w]@);
    match r.ops@[k] {
        Op::Linear(l) => {
            lemma_lin_row_dot(l@, z);
            let bz = u.matrices@[1].apply(z, q);
            assert(t.1@.len() == 1 && t.1@[0].0 == 0 && t.1@[0].1@ == 1);
            assert(t.1@.drop_last().len() == 0);
            assert(crate::types::row_dot(t.1@.drop_last(), z) == 0);
            assert(t.1@.last() == t.1@[0]);
            assert(u.matrices@[1].row(q) == t.1@);
            assert(crate::types::zval(z, 0) == 1);
            vstd::arithmetic::div_mod::lemma_small_mod(1nat, modulus());
            assert(fmul(1, 1) == 1);
            assert(fadd(0, 1) == 1);
            assert(bz == 1);
            let az = u.matrices@[0].apply(z, q);
            vstd::arithmetic::div_mod::lemma_small_mod(az, modulus());
            assert(fmul(az, 1) == az);
        },
        Op::Product(a, b) => {
            lemma_lin_row_dot(a@, z);
            lemma_lin_row_dot(b@, z);
        },
        _ => {},
    }
}

/// The relation has no lookup operation.
pub open spec fn no_lookups(ops: Seq<Op>) -> bool {
    forall|k: int| 0 <= k < ops.len() ==> !(#[trigger] ops[k] is Look)
}

/// The active secrets of a prefix of the operations are a prefix of all
/// the active secrets.
proof fn lemma_active_secrets_is_prefix(ops: Seq<Op>, z: Seq<nat>, base: nat, j: int)
    requires
        0 <= j <= ops.len(),
    ensures
        active_secrets(ops.subrange(0, j), z, base).len() <= active_secrets(ops, z, base).len(),
        active_secrets(ops, z, base).subrange(0, active_secrets(ops.subrange(0, j), z, base).len() as int) == active_secrets(
            ops.subrange(0, j),
            z,
            base,
        ),
    decreases ops.len() - j,
{
    let a = active_secrets(ops, z, base);
    if j == ops.len() {
        assert(ops.subrange(0, j) =~= ops);
        assert(a.subrange(0, a.len() as int) =~= a);
    } else {
        let d = ops.drop_last();
        lemma_active_secrets_is_prefix(d, z, base, j);
        assert(d.subrange(0, j) =~= ops.subrange(0, j));
        let p = active_secrets(ops.subrange(0, j), z, base);
        let ad = active_secrets(d, z, base);
        assert(ad.subrange(0, p.len() as int) == p);
        assert(a == ad || a == ad.push(z[base + ops.len() - 1]));
        if a != ad {
            assert(a.subrange(0, p.len() as int) =~= ad.subrange(0, p.len() as int));
        }
    }
}

/// Any run agrees with the witness's wire `k` once it agrees before it.
proof fn lemma_step_agrees(r: &ExecutionRelation, ni: Seq<nat>, ns: Seq<nat>, z2: Seq<nat>, zs: Seq<nat>, k: int, si: int)
    requires
        r.wf(),
        ni.len() == r.input_indices@.len(),
        runs(r, ni, ns, z2),
        zs.len() == 1 + ni.len() + k,
        0 <= k < r.ops@.len(),
        z2.subrange(0, 1 + ni.len() + k) == zs,
        !(r.ops@[k] is Look),
        0 <= si <= ns.len(),
        active_secrets(r.ops@.subrange(0, k), zs, (1 + ni.len()) as nat) == ns.subrange(0, si),
    ensures
        match r.ops@[k] {
            Op::Secret(a) => if lin_value(a@, zs) != 0 {
                si < ns.len() && z2[1 + ni.len() + k] == ns[si]
            } else {
                z2[1 + ni.len() + k] == 0
            },
            _ => z2[1 + ni.len() + k] == rel_op_value(r.ops@[k], zs),
        },
{
    let base = (1 + ni.len()) as nat;
    assert(wire_ok(r.ops@[k], z2.subrange(0, base + k), z2[base + k]));
    if let Op::Secret(a) = r.ops@[k] {
        if lin_value(a@, zs) != 0 {
            let pre = r.ops@.subrange(0, k);
            let pre1 = r.ops@.subrange(0, k + 1);
            lemma_active_secrets_frame(pre, z2, zs, base);
            assert(pre1.drop_last() =~= pre);
            assert(pre1.last() == r.ops@[k]);
            assert(z2.subrange(0, base + k) == zs);
            assert(active_secrets(pre1, z2, base) == ns.subrange(0, si).push(z2[base + k]));
            lemma_active_secrets_is_prefix(r.ops@, z2, base, k + 1);
            let all = active_secrets(r.ops@, z2, base);
            assert(all == ns);
            assert(all.subrange(0, si + 1)[si] == ns[si]);
        }
    }
}

/// A run's active secrets are those the witness consumed, so it consumed
/// them all.
proof fn lemma_all_secrets(r: &ExecutionRelation, ni: Seq<nat>, ns: Seq<nat>, z2: Seq<nat>, zs: Seq<nat>, si: int)
    requires
        r.wf(),
        ni.len() == r.input_indices@.len(),
        runs(r, ni, ns, z2),
        zs.len() == 1 + ni.len() + r.ops@.len(),
        z2.subrange(0, zs.len() as int) == zs,
        0 <= si <= ns.len(),
        active_secrets(r.ops@, zs, (1 + ni.len()) as nat) == ns.subrange(0, si),
    ensures
        si == ns.len(),
{
    let base = (1 + ni.len()) as nat;
    lemma_active_secrets_frame(r.ops@, z2, zs, base);
    assert(ns.subrange(0, si).len() == si);
}

} // verus!
