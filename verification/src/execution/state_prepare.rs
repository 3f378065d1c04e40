//! Relations of statements over authenticated state: the subject with the
//! state root in its head, and private witness preparation against public
//! state tables.
use crate::execution::decode::{decodable, decode_result};
use crate::execution::prepare::{
    all_canonical, bind_pairs, bounds_ok, coords_u64, has_conflict, input_shape_spec, inputs_spec, merged, relation_error_spec, relation_error_text,
    u64_nats, PreparedExecution,
};
use crate::execution::relation::{ExecutionNoun, RelationError, SubjectShape};
use crate::execution::relation_builder::{LookupCoordinates, PublicStateTables};
use crate::execution::prepare::pin;
use crate::execution::relation_compile::{compile_relation, compile_relation_with_state, dims_total, forces_wires, runs, ExecutionRelation, LookupProvider};
use crate::execution::statement::{encode_spec, ExecutionStatement, PrivateStateStatement, PublicLookup, StateStatement, MAX_PROGRAM_NODES};
use crate::execution::tagged::check_spec;
use crate::execution::tagged::builder::HashTables;
use crate::field::{modulus, Goldilocks, P};
use crate::types::field_nats;
use vstd::prelude::*;

verus! {

/// The shape of a 4-limb root: [a [b [c d]]].
pub open spec fn root_shape_spec() -> SubjectShape {
    SubjectShape::Pair(
        Box::new(SubjectShape::Atom),
        Box::new(SubjectShape::Pair(
            Box::new(SubjectShape::Atom),
            Box::new(SubjectShape::Pair(Box::new(SubjectShape::Atom), Box::new(SubjectShape::Atom))),
        )),
    )
}

/// The subject of a state execution: the root in the head when it is part
/// of the subject, then the public inputs.
pub open spec fn state_shape_spec(n: nat, root_in_subject: bool) -> SubjectShape {
    if root_in_subject {
        SubjectShape::Pair(Box::new(root_shape_spec()), Box::new(input_shape_spec(n)))
    } else {
        input_shape_spec(n)
    }
}

/// The subject atoms of a state execution: the root limbs when the root is
/// in the subject, then the public inputs.
pub open spec fn state_inputs_spec(s: &StateStatement) -> Seq<nat> {
    state_inputs_of(&s.execution, s.state_root, s.root_in_subject)
}

/// The subject atoms of an execution over `root`.
pub open spec fn state_inputs_of(e: &ExecutionStatement, root: [u64; 4], root_in_subject: bool) -> Seq<nat> {
    (if root_in_subject {
        Seq::new(4, |i: int| root@[i] as nat % modulus())
    } else {
        seq![]
    }) + inputs_spec(e)
}

fn state_shape(execution: &ExecutionStatement, root_in_subject: bool) -> (shape: SubjectShape)
    ensures
        shape == state_shape_spec(execution.public_input@.len(), root_in_subject),
{
    let shape = execution.input_shape();
    if root_in_subject {
        let root = SubjectShape::Pair(
            Box::new(SubjectShape::Atom),
            Box::new(SubjectShape::Pair(
                Box::new(SubjectShape::Atom),
                Box::new(SubjectShape::Pair(Box::new(SubjectShape::Atom), Box::new(SubjectShape::Atom))),
            )),
        );
        SubjectShape::Pair(Box::new(root), Box::new(shape))
    } else {
        shape
    }
}

fn root_fits(root: &[u64; 4]) -> (b: bool)
    ensures
        b == (forall|i: int| 0 <= i < 4 ==> #[trigger] root@[i] < P),
{
    let mut i: usize = 0;
    while i < 4
        invariant
            i <= 4,
            forall|j: int| 0 <= j < i ==> #[trigger] root@[j] < P,
        decreases 4 - i,
    {
        if root[i] >= P {
            return false;
        }
        i = i + 1;
    }
    true
}

impl StateStatement {
    /// The subject atoms: the root limbs when the root is in the subject,
    /// then the public inputs.
    pub fn inputs(&self) -> (v: Vec<Goldilocks>)
        ensures
            field_nats(v@) == state_inputs_spec(self),
    {
        let mut v: Vec<Goldilocks> = Vec::new();
        if self.root_in_subject {
            let mut i: usize = 0;
            while i < 4
                invariant
                    i <= 4,
                    v@.len() == i,
                    forall|j: int| 0 <= j < i ==> #[trigger] v@[j]@ == self.state_root@[j] as nat % modulus(),
                decreases 4 - i,
            {
                v.push(Goldilocks::new(self.state_root[i]));
                i = i + 1;
            }
        }
        let ghost head = v@;
        let mut rest = self.execution.inputs();
        v.append(&mut rest);
        proof {
            assert(field_nats(v@) =~= state_inputs_spec(self));
        }
        v
    }

    /// The verifier-derived relation of the statement's program over the
    /// state subject.
    pub fn relation(&self, tables: HashTables) -> (r: Result<ExecutionRelation, String>)
        ensures
            !bounds_ok(&self.execution) ==> (r matches Err(e) && e@ == "invalid public statement bounds or field values"@),
            bounds_ok(&self.execution) && !((forall|i: int| 0 <= i < 4 ==> #[trigger] self.state_root@[i] < P) && self.reads@.len() <= 4096)
                ==> (r matches Err(e) && e@ == "invalid state execution bounds"@),
            r matches Ok(rel) ==> rel.wf() && forces_wires(&rel) && rel.input_indices@.len() == state_inputs_spec(self).len()
                && (exists|n: ExecutionNoun| decodable(n) && #[trigger] encode_spec(n) == self.execution.program@),
    {
        self.execution.validate_bounds()?;
        if !root_fits(&self.state_root) || self.reads.len() > 4096 {
            return Err(String::from_str("invalid state execution bounds"));
        }
        let shape = state_shape(&self.execution, self.root_in_subject);
        let program = self.execution.program_noun()?;
        match compile_relation(&program, &shape, tables) {
            Ok(rel) => {
                proof {
                    lemma_state_shape_leaves(self.execution.public_input@.len(), self.root_in_subject);
                }
                Ok(rel)
            },
            Err(e) => {
                let mut s = String::from_str("unsupported state execution relation: ");
                s.append(relation_error_text(&e).as_str());
                Err(s)
            },
        }
    }
}

proof fn lemma_input_leaves(n: nat)
    ensures
        input_shape_spec(n).leaves() == n + 1,
    decreases n,
{
    if n > 0 {
        lemma_input_leaves((n - 1) as nat);
        let rest = input_shape_spec((n - 1) as nat);
        assert(SubjectShape::Atom.leaves() == 1);
        assert(input_shape_spec(n).leaves() == SubjectShape::Atom.leaves() + rest.leaves());
    }
}

proof fn lemma_state_shape_leaves(n: nat, root_in_subject: bool)
    ensures
        state_shape_spec(n, root_in_subject).leaves() == (if root_in_subject { 4nat } else { 0nat }) + n + 1,
{
    lemma_input_leaves(n);
    let a = SubjectShape::Atom;
    assert(a.leaves() == 1);
    let p1 = SubjectShape::Pair(Box::new(a), Box::new(a));
    assert(p1.leaves() == 2);
    let p2 = SubjectShape::Pair(Box::new(a), Box::new(p1));
    assert(p2.leaves() == 3);
    assert(root_shape_spec().leaves() == 4);
}

/// The four limbs of a table root as integers.
pub open spec fn root_u64(root: [Goldilocks; 4]) -> Seq<u64> {
    Seq::new(4, |i: int| root@[i]@ as u64)
}

fn same_root(tables: &PublicStateTables, root: &[u64; 4]) -> (b: bool)
    ensures
        b == (root_u64(tables.root) =~= root@),
{
    let mut i: usize = 0;
    while i < 4
        invariant
            i <= 4,
            forall|j: int| 0 <= j < i ==> #[trigger] root_u64(tables.root)[j] == root@[j],
        decreases 4 - i,
    {
        if tables.root[i].as_u64() != root[i] {
            return false;
        }
        i = i + 1;
    }
    true
}

/// The statement's root is canonical and is the tables' root.
pub open spec fn root_agrees(root: [u64; 4], state: &PublicStateTables) -> bool {
    (forall|i: int| 0 <= i < 4 ==> #[trigger] root@[i] < P) && root_u64(state.root) == root@
}

/// Why the relation of a private state statement (bounds and root aside)
/// is refused before any relation is built: the program's size or
/// decoding, too many table cells, or a program the compiler refuses.
pub open spec fn private_refusal(ex: &ExecutionStatement, state: &PublicStateTables) -> Option<Seq<char>> {
    if ex.program@.len() == 0 || ex.program@.len() > MAX_PROGRAM_NODES {
        Some("program size limit"@)
    } else {
        match decode_result(ex.program@) {
            Err(m) => Some(m),
            Ok(n) => if dims_total(state, 10) > 2048 {
                Some("unsupported private state relation: "@ + relation_error_spec(RelationError::Limit))
            } else {
                match check_spec(n, 0, 0) {
                    Err(e) => Some("unsupported private state relation: "@ + relation_error_spec(e)),
                    Ok(_) => None,
                }
            },
        }
    }
}

impl PrivateStateStatement {
    /// The verifier-derived relation against public state tables whose root
    /// is the statement's root.
    pub fn relation(&self, state: &PublicStateTables, tables: HashTables) -> (r: Result<ExecutionRelation, String>)
        ensures
            !bounds_ok(&self.execution) ==> (r matches Err(e) && e@ == "invalid public statement bounds or field values"@),
            bounds_ok(&self.execution) && !root_agrees(self.root, state) ==> (r matches Err(e) && e@ == "private state root mismatch"@),
            bounds_ok(&self.execution) && root_agrees(self.root, state) ==> (private_refusal(&self.execution, state) matches Some(m) ==> (
            r matches Err(e) && e@ == m)),
            r matches Ok(rel) ==> rel.wf() && forces_wires(&rel) && rel.input_indices@.len() == (if self.root_in_subject { 4nat } else { 0nat }) + self.execution.public_input@.len() + 1
                && (exists|n: ExecutionNoun| decodable(n) && #[trigger] encode_spec(n) == self.execution.program@),
    {
        self.execution.validate_bounds()?;
        if !root_fits(&self.root) || !same_root(state, &self.root) {
            return Err(String::from_str("private state root mismatch"));
        }
        let shape = state_shape(&self.execution, self.root_in_subject);
        let program = self.execution.program_noun()?;
        match compile_relation_with_state(&program, &shape, state, tables) {
            Ok(rel) => {
                proof {
                    lemma_state_shape_leaves(self.execution.public_input@.len(), self.root_in_subject);
                }
                Ok(rel)
            },
            Err(e) => {
                let mut s = String::from_str("unsupported private state relation: ");
                s.append(relation_error_text(&e).as_str());
                Err(s)
            },
        }
    }

    /// The verifier data of the statement against tables authenticated under
    /// its root: the relation and the coordinates of the state subject.
    pub fn prepare(&self, state: &PublicStateTables, tables: HashTables) -> (r: Result<PreparedExecution, String>)
        ensures
            !bounds_ok(&self.execution) ==> (r matches Err(e) && e@ == "invalid public statement bounds or field values"@),
            bounds_ok(&self.execution) && !root_agrees(self.root, state) ==> (r matches Err(e) && e@ == "private state root mismatch"@),
            bounds_ok(&self.execution) && root_agrees(self.root, state) ==> (private_refusal(&self.execution, state) matches Some(m) ==> (
            r matches Err(e) && e@ == m)),
            r matches Ok(prep) ==> prep.relation.wf() && self.execution.public_output@.len() == prep.relation.output_indices@.len()
                && !has_conflict(bind_pairs(&self.execution, &prep.relation, state_inputs_of(&self.execution, self.root, self.root_in_subject)))
                && (exists|m: Seq<(usize, Goldilocks)>|
                    merged(m, bind_pairs(&self.execution, &prep.relation, state_inputs_of(&self.execution, self.root, self.root_in_subject)))
                        && prep.public_coordinates@ == coords_u64(m)),
    {
        let relation = self.relation(state, tables)?;
        let st = self.state_statement();
        let inputs = st.inputs();
        proof {
            assert(st.execution.public_input@ == self.execution.public_input@);
            assert(inputs_spec(&st.execution) == inputs_spec(&self.execution));
            assert(state_inputs_spec(&st) == state_inputs_of(&self.execution, self.root, self.root_in_subject));
        }
        let m = self.execution.bindings_with_inputs(&relation, inputs.as_slice())?;
        let public_coordinates = to_u64(&m);
        Ok(PreparedExecution { relation, public_coordinates })
    }

}

fn to_u64(m: &Vec<(usize, Goldilocks)>) -> (r: Vec<(usize, u64)>)
    ensures
        r@ == coords_u64(m@),
{
    let mut r: Vec<(usize, u64)> = Vec::new();
    let mut i: usize = 0;
    while i < m.len()
        invariant
            i <= m@.len(),
            r@ == coords_u64(m@.take(i as int)),
        decreases m@.len() - i,
    {
        r.push((m[i].0, m[i].1.as_u64()));
        proof {
            assert(coords_u64(m@.take(i + 1)) =~= coords_u64(m@.take(i as int)).push((m@[i as int].0, m@[i as int].1@ as u64)));
        }
        i = i + 1;
    }
    proof {
        assert(m@.take(m@.len() as int) =~= m@);
    }
    r
}

/// Lookups answered from public state tables: the cell `key` of dimension
/// `namespace`, under the tables' root only.
pub struct TablesProvider<'a> {
    pub tables: &'a PublicStateTables,
}

/// The cell a table lookup answers, if any.
pub open spec fn table_cell(t: &PublicStateTables, root: [Goldilocks; 4], ns: nat, key: nat) -> Option<Goldilocks> {
    if root@ != t.root@ || ns >= 10 || key >= t.dimensions@[ns as int]@.len() {
        None
    } else {
        Some(t.dimensions@[ns as int]@[key as int])
    }
}

impl<'a> TablesProvider<'a> {
    /// The cell at (namespace, key) under `root`.
    pub fn cell(&self, root: [Goldilocks; 4], namespace: Goldilocks, key: Goldilocks) -> (r: Option<Goldilocks>)
        ensures
            r == table_cell(self.tables, root, namespace@, key@),
    {
        let t = self.tables;
        let mut i: usize = 0;
        while i < 4
            invariant
                i <= 4,
                t == self.tables,
                forall|j: int| 0 <= j < i ==> root@[j] == t.root@[j],
            decreases 4 - i,
        {
            if !root[i].equals(t.root[i]) {
                proof {
                    crate::field::lemma_view_injective(root@[i as int], t.root@[i as int]);
                    assert(root@[i as int] != t.root@[i as int]);
                    assert(root@ != t.root@);
                }
                return None;
            }
            proof {
                crate::field::lemma_view_injective(root@[i as int], t.root@[i as int]);
            }
            i = i + 1;
        }
        proof {
            assert(root@ =~= t.root@);
        }
        let ns = namespace.as_u64();
        if ns >= 10 {
            return None;
        }
        let d = &t.dimensions[ns as usize];
        let k = key.as_u64();
        if k >= d.len() as u64 {
            return None;
        }
        Some(d[k as usize])
    }
}

impl<'a> LookupProvider for TablesProvider<'a> {
    fn lookup(&mut self, root: [Goldilocks; 4], namespace: Goldilocks, key: Goldilocks) -> (r: Option<Goldilocks>)
        ensures
            r == table_cell(old(self).tables, root, namespace@, key@),
            final(self).tables == old(self).tables,
    {
        self.cell(root, namespace, key)
    }
}

fn secrets_ok(secrets: &[u64]) -> (b: bool)
    ensures
        b == (secrets@.len() <= 4096 && all_canonical(secrets@)),
{
    if secrets.len() > 4096 {
        return false;
    }
    let mut i: usize = 0;
    while i < secrets.len()
        invariant
            i <= secrets@.len(),
            forall|j: int| 0 <= j < i ==> #[trigger] secrets@[j] < P,
        decreases secrets@.len() - i,
    {
        if secrets[i] >= P {
            return false;
        }
        i = i + 1;
    }
    true
}

/// `st`, `prep` and `z` are what preparing `program` against state gives:
/// the statement carries the program's encoding, inputs, budget and the
/// tables' root; `z` runs a well-formed relation of the program on the
/// state subject and the secrets, and the outputs and cycles are read from it.
pub open spec fn state_execution_prepared(
    program: ExecutionNoun,
    input: Seq<u64>,
    secrets: Seq<u64>,
    budget: u64,
    root_in_subject: bool,
    root: [Goldilocks; 4],
    st: PrivateStateStatement,
    prep: PreparedExecution,
    z: Seq<u64>,
) -> bool {
    &&& st.execution.program@ == encode_spec(program)
    &&& st.execution.public_input@ == input
    &&& st.execution.budget == budget
    &&& st.root@ == root_u64(root)
    &&& st.root_in_subject == root_in_subject
    &&& prep.relation.wf()
    &&& forces_wires(&prep.relation)
    &&& runs(&prep.relation, state_inputs_of(&st.execution, st.root, st.root_in_subject), u64_nats(secrets), u64_nats(z))
    &&& (exists|w: Seq<Goldilocks>| crate::ccs::universal::nats(w) == u64_nats(z) && #[trigger] prep.relation.instance.satisfied(w))
    &&& prep.relation.output_indices@.len() == st.execution.public_output@.len()
    &&& forall|k: int|
        0 <= k < prep.relation.output_indices@.len() ==> #[trigger] st.execution.public_output@[k] == z[prep.relation.output_indices@[k] as int]
    &&& st.execution.cycles == z[prep.relation.cost_index as int]
    &&& bounds_ok(&st.execution)
    &&& !has_conflict(bind_pairs(&st.execution, &prep.relation, state_inputs_of(&st.execution, st.root, st.root_in_subject)))
    &&& exists|m: Seq<(usize, Goldilocks)>|
        merged(m, bind_pairs(&st.execution, &prep.relation, state_inputs_of(&st.execution, st.root, st.root_in_subject)))
            && prep.public_coordinates@ == coords_u64(m)
}

/// Prepare a private execution over public state tables (already
/// authenticated by the state owner under their root): the statement, its
/// verifier data and every witness column as an integer.
pub fn prepare_execution(
    program: &ExecutionNoun,
    input: &[u64],
    secrets: &[u64],
    budget: u64,
    root_in_subject: bool,
    state: &PublicStateTables,
    tables: HashTables,
) -> (r: Result<(PrivateStateStatement, PreparedExecution, Vec<u64>), String>)
    ensures
        !(secrets@.len() <= 4096 && all_canonical(secrets@)) ==> (r matches Err(e) && e@ == "invalid private witness stream"@),
        r matches Ok(t) ==> state_execution_prepared(*program, input@, secrets@, budget, root_in_subject, state.root, t.0, t.1, t.2@),
{
    if !secrets_ok(secrets) {
        return Err(String::from_str("invalid private witness stream"));
    }
    let tokens = ExecutionStatement::encode_program(program)?;
    let mut public_input: Vec<u64> = Vec::new();
    let mut i: usize = 0;
    while i < input.len()
        invariant
            i <= input@.len(),
            public_input@ == input@.take(i as int),
        decreases input@.len() - i,
    {
        public_input.push(input[i]);
        proof {
            assert(input@.take(i + 1) =~= input@.take(i as int).push(input@[i as int]));
        }
        i = i + 1;
    }
    proof {
        assert(input@.take(input@.len() as int) =~= input@);
    }
    let root = [state.root[0].as_u64(), state.root[1].as_u64(), state.root[2].as_u64(), state.root[3].as_u64()];
    proof {
        assert(root@ =~= root_u64(state.root));
    }
    let mut statement = PrivateStateStatement {
        execution: ExecutionStatement { program: tokens, public_input, public_output: Vec::new(), cycles: 0, budget },
        root,
        root_in_subject,
    };
    let relation = statement.relation(state, tables)?;
    let st = statement.state_statement();
    let inputs = st.inputs();
    let mut fsecrets: Vec<Goldilocks> = Vec::new();
    let mut i: usize = 0;
    while i < secrets.len()
        invariant
            i <= secrets@.len(),
            fsecrets@.len() == i,
            all_canonical(secrets@),
            forall|j: int| 0 <= j < i ==> #[trigger] fsecrets@[j]@ == secrets@[j] as nat,
        decreases secrets@.len() - i,
    {
        proof {
            vstd::arithmetic::div_mod::lemma_small_mod(secrets@[i as int] as nat, modulus());
        }
        fsecrets.push(Goldilocks::new(secrets[i]));
        i = i + 1;
    }
    let mut provider = TablesProvider { tables: state };
    let witness = match relation.witness_with_provider(inputs.as_slice(), fsecrets.as_slice(), &mut provider) {
        Ok(w) => w,
        Err(_) => {
            return Err(String::from_str("private state witness failed"));
        },
    };
    if !relation.instance.is_satisfied_by(&witness) {
        return Err(String::from_str("private state constraints failed"));
    }
    let ghost zn = crate::ccs::universal::nats(witness.z@);
    let mut z: Vec<u64> = Vec::new();
    let mut t: usize = 0;
    while t < witness.z.len()
        invariant
            t <= witness.z@.len(),
            zn == crate::ccs::universal::nats(witness.z@),
            z@.len() == t,
            forall|j: int| 0 <= j < t ==> #[trigger] z@[j] as nat == zn[j],
        decreases witness.z@.len() - t,
    {
        z.push(witness.z[t].as_u64());
        t = t + 1;
    }
    let mut outputs: Vec<u64> = Vec::new();
    let mut k: usize = 0;
    while k < relation.output_indices.len()
        invariant
            k <= relation.output_indices@.len(),
            relation.wf(),
            z@.len() == relation.instance.num_cols,
            outputs@.len() == k,
            forall|j: int| 0 <= j < k ==> #[trigger] outputs@[j] == z@[relation.output_indices@[j] as int],
        decreases relation.output_indices@.len() - k,
    {
        outputs.push(z[relation.output_indices[k]]);
        k = k + 1;
    }
    statement.execution.public_output = outputs;
    statement.execution.cycles = z[relation.cost_index];
    statement.execution.validate_bounds()?;
    proof {
        assert(st.execution.public_input@ == statement.execution.public_input@);
        assert(inputs_spec(&st.execution) == inputs_spec(&statement.execution));
        assert(state_inputs_spec(&st) == state_inputs_of(&statement.execution, statement.root, statement.root_in_subject));
    }
    let m = statement.execution.bindings_with_inputs(&relation, inputs.as_slice())?;
    let public_coordinates = to_u64(&m);
    proof {
        assert(relation.instance.satisfied(witness.z@));
        assert(crate::ccs::universal::nats(witness.z@) == u64_nats(z@)) by {
            assert(u64_nats(z@) =~= zn);
        }
    }
    let prepared = PreparedExecution { relation, public_coordinates };
    proof {
        assert(u64_nats(z@) =~= zn);
        assert(u64_nats(secrets@) =~= crate::ccs::universal::nats(fsecrets@));
        assert(crate::ccs::universal::nats(inputs@) =~= field_nats(inputs@));
        assert(state_inputs_of(&statement.execution, statement.root, statement.root_in_subject) == state_inputs_spec(&st));
        assert(runs(&relation, state_inputs_of(&statement.execution, statement.root, statement.root_in_subject), u64_nats(secrets@), u64_nats(z@)));
        assert(forall|k: int| 0 <= k < relation.output_indices@.len() ==> #[trigger] statement.execution.public_output@[k] == z@[relation.output_indices@[k] as int]);
    }
    Ok((statement, prepared, z))
}

// ── public state bindings ───────────────────────────────────────────────────

/// The coordinates one claimed lookup pins: its active flag, and when
/// active the root limbs, namespace, key and value.
pub open spec fn read_pairs(read: PublicLookup, w: LookupCoordinates, root: [u64; 4]) -> Seq<(usize, nat)> {
    let p = modulus();
    if read.active {
        seq![
            (w.active, 1nat),
            (w.root@[0], root@[0] as nat % p),
            (w.root@[1], root@[1] as nat % p),
            (w.root@[2], root@[2] as nat % p),
            (w.root@[3], root@[3] as nat % p),
            (w.namespace, read.namespace as nat % p),
            (w.key, read.key as nat % p),
            (w.value, read.value as nat % p),
        ]
    } else {
        seq![(w.active, 0nat)]
    }
}

/// The coordinates the first `k` lookups pin, in order.
pub open spec fn reads_pairs(reads: Seq<PublicLookup>, ws: Seq<LookupCoordinates>, root: [u64; 4], k: int) -> Seq<(usize, nat)>
    decreases k,
{
    if k <= 0 {
        seq![]
    } else {
        reads_pairs(reads, ws, root, k - 1) + read_pairs(reads[k - 1], ws[k - 1], root)
    }
}

/// The answer to lookup `k`, none when missing.
pub open spec fn answer(answers: Seq<Option<u64>>, k: int) -> Option<u64> {
    if 0 <= k < answers.len() {
        answers[k]
    } else {
        None
    }
}

/// An active lookup is a canonical cell of a known namespace whose value
/// the state answers.
pub open spec fn read_checks(read: PublicLookup, ans: Option<u64>) -> bool {
    read.namespace <= 9 && read.key < P && read.value < P && ans == Some(read.value)
}

/// Why public state bindings were refused.
pub enum StateRefusal {
    Conflict,
    InactiveData,
    Unauthenticated,
}

/// The first refusal over lookups `k..`, given the coordinates `base`
/// pinned before the lookups.
pub open spec fn state_refusal(
    base: Seq<(usize, nat)>,
    reads: Seq<PublicLookup>,
    ws: Seq<LookupCoordinates>,
    root: [u64; 4],
    answers: Seq<Option<u64>>,
    k: int,
) -> Option<StateRefusal>
    decreases reads.len() - k,
{
    if k < 0 || k >= reads.len() {
        None
    } else {
        let pre = base + reads_pairs(reads, ws, root, k);
        let read = reads[k];
        if has_conflict(pre.push((ws[k].active, if read.active { 1nat } else { 0nat }))) {
            Some(StateRefusal::Conflict)
        } else if !read.active {
            if read.namespace != 0 || read.key != 0 || read.value != 0 {
                Some(StateRefusal::InactiveData)
            } else {
                state_refusal(base, reads, ws, root, answers, k + 1)
            }
        } else if !read_checks(read, answer(answers, k)) {
            Some(StateRefusal::Unauthenticated)
        } else if has_conflict(pre + read_pairs(read, ws[k], root)) {
            Some(StateRefusal::Conflict)
        } else {
            state_refusal(base, reads, ws, root, answers, k + 1)
        }
    }
}

proof fn lemma_reads_pairs_prefix(reads: Seq<PublicLookup>, ws: Seq<LookupCoordinates>, root: [u64; 4], k: int, n: int)
    requires
        0 <= k <= n,
    ensures
        reads_pairs(reads, ws, root, n).take(reads_pairs(reads, ws, root, k).len() as int) == reads_pairs(reads, ws, root, k),
        reads_pairs(reads, ws, root, k).len() <= reads_pairs(reads, ws, root, n).len(),
    decreases n - k,
{
    if k < n {
        lemma_reads_pairs_prefix(reads, ws, root, k, n - 1);
        let a = reads_pairs(reads, ws, root, k);
        let b = reads_pairs(reads, ws, root, n - 1);
        let c = reads_pairs(reads, ws, root, n);
        assert(c == b + read_pairs(reads[n - 1], ws[n - 1], root));
        assert(c.take(a.len() as int) =~= b.take(a.len() as int));
    } else {
        let a = reads_pairs(reads, ws, root, k);
        assert(a.take(a.len() as int) =~= a);
    }
}

proof fn lemma_conflict_mono(s: Seq<(usize, nat)>, a: int, b: int)
    requires
        0 <= a <= b <= s.len(),
        has_conflict(s.take(a)),
    ensures
        has_conflict(s.take(b)),
{
    let t = s.take(a);
    let (x, y) = choose|x: int, y: int| 0 <= x < y < t.len() && t[x].0 == t[y].0 && t[x].1 != t[y].1;
    assert(s.take(b)[x] == t[x] && s.take(b)[y] == t[y]);
}

impl StateStatement {
    /// The public coordinates of the statement under `relation`, with
    /// `answers[k]` the state's value at the k-th lookup's (namespace, key)
    /// (a missing answer is no answer).
    pub fn bindings(&self, relation: &ExecutionRelation, answers: &[Option<u64>]) -> (r: Result<Vec<(usize, Goldilocks)>, String>)
        ensures
            self.reads@.len() != relation.lookups@.len() ==> (r matches Err(e) && e@ == "state lookup count mismatch"@),
            self.reads@.len() == relation.lookups@.len() && self.execution.public_output@.len() != relation.output_indices@.len()
                ==> (r matches Err(e) && e@ == "output shape does not match program"@),
            self.reads@.len() == relation.lookups@.len() && self.execution.public_output@.len() == relation.output_indices@.len() ==> {
                let base = bind_pairs(&self.execution, relation, state_inputs_spec(self));
                let all = base + reads_pairs(self.reads@, relation.lookups@, self.state_root, self.reads@.len() as int);
                if has_conflict(base) {
                    r matches Err(e) && e@ == "conflicting public coordinates"@
                } else {
                    match state_refusal(base, self.reads@, relation.lookups@, self.state_root, answers@, 0) {
                        None => r matches Ok(m) && merged(m@, all),
                        Some(StateRefusal::Conflict) => r matches Err(e) && e@ == "conflicting state execution bindings"@,
                        Some(StateRefusal::InactiveData) => r matches Err(e) && e@ == "inactive lookup carries data"@,
                        Some(StateRefusal::Unauthenticated) => r matches Err(e) && e@ == "state cell authentication failed"@,
                    }
                }
            },
    {
        if self.reads.len() != relation.lookups.len() {
            return Err(String::from_str("state lookup count mismatch"));
        }
        let inputs = self.inputs();
        let mut m = self.execution.bindings_with_inputs(relation, inputs.as_slice())?;
        let ghost base = bind_pairs(&self.execution, relation, state_inputs_spec(self));
        let ghost reads = self.reads@;
        let ghost ws = relation.lookups@;
        let ghost root = self.state_root;
        let ghost n = reads.len() as int;
        let ghost all = base + reads_pairs(reads, ws, root, n);
        let mut k: usize = 0;
        proof {
            assert(base + reads_pairs(reads, ws, root, 0) =~= base);
        }
        while k < self.reads.len()
            invariant
                k <= reads.len(),
                reads == self.reads@,
                ws == relation.lookups@,
                reads.len() == ws.len(),
                n == reads.len(),
                root == self.state_root,
                base == bind_pairs(&self.execution, relation, state_inputs_spec(self)),
                all == base + reads_pairs(reads, ws, root, n),
                merged(m@, base + reads_pairs(reads, ws, root, k as int)),
                !has_conflict(base + reads_pairs(reads, ws, root, k as int)),
                state_refusal(base, reads, ws, root, answers@, 0) == state_refusal(base, reads, ws, root, answers@, k as int),
                self.reads@.len() == relation.lookups@.len(),
                self.execution.public_output@.len() == relation.output_indices@.len(),
                !has_conflict(base),
            decreases reads.len() - k,
        {
            let read = self.reads[k];
            let w = relation.lookups[k];
            let ghost pre = base + reads_pairs(reads, ws, root, k as int);
            let ghost j0 = pre.len() as int;
            let ghost rp = read_pairs(read, w, root);
            proof {
                lemma_reads_pairs_prefix(reads, ws, root, k + 1, n);
                let rk = reads_pairs(reads, ws, root, k as int);
                let rk1 = reads_pairs(reads, ws, root, k + 1);
                let rn = reads_pairs(reads, ws, root, n);
                assert(rk1 == rk + rp);
                assert(rk1.len() == rk.len() + rp.len());
                assert(all.take((base.len() + rk1.len()) as int) =~= base + rn.take(rk1.len() as int));
                assert(rn.take(rk1.len() as int) == rk1);
                assert(base + rk1 =~= pre + rp);
                assert(all.take(j0 + rp.len()) =~= pre + rp);
                assert(all.len() >= j0 + rp.len());
                assert forall|t: int| 0 <= t <= rp.len() implies #[trigger] all.take(j0 + t) == pre + rp.take(t) by {
                    assert(all.take(j0 + t) =~= (pre + rp).take(j0 + t));
                    assert((pre + rp).take(j0 + t) =~= pre + rp.take(t));
                }
                assert forall|t: int| 0 <= t < rp.len() implies #[trigger] all[j0 + t] == rp[t] by {
                    assert(all.take(j0 + rp.len())[j0 + t] == (pre + rp)[j0 + t]);
                }
                assert(rp.take(0) =~= Seq::<(usize, nat)>::empty());
                assert(pre + rp.take(0) =~= pre);
            }
            let av: u64 = if read.active { 1 } else { 0 };
            let g = Goldilocks::new(av);
            proof {
                vstd::arithmetic::div_mod::lemma_small_mod(av as nat, modulus());
                assert(all[j0] == (w.active, g@));
                assert(all.take(j0 + 1) =~= pre.push((w.active, g@)));
            }
            if !pin(&mut m, w.active, g, Ghost(all), Ghost(j0)) {
                return Err(String::from_str("conflicting state execution bindings"));
            }
            if !read.active {
                if read.namespace != 0 || read.key != 0 || read.value != 0 {
                    return Err(String::from_str("inactive lookup carries data"));
                }
                proof {
                    assert(rp.len() == 1);
                    assert(all.take(j0 + 1) =~= pre + rp);
                    assert(base + reads_pairs(reads, ws, root, k + 1) =~= pre + rp);
                }
                k = k + 1;
                continue;
            }
            let ans = if k < answers.len() {
                answers[k]
            } else {
                None
            };
            let ok = match ans {
                Some(v) => read.namespace <= 9 && read.key < P && read.value < P && v == read.value,
                None => false,
            };
            if !ok {
                return Err(String::from_str("state cell authentication failed"));
            }
            proof {
                assert(all.take(j0 + 1) =~= pre.push((w.active, 1nat)));
            }
            let mut t: usize = 0;
            while t < 7
                invariant
                    1 <= t + 1 <= 8,
                    rp == read_pairs(read, w, root),
                    rp.len() == 8,
                    read.active,
                    all.take(j0 + (t + 1)) == pre + rp.take(t + 1),
                    forall|q: int| 0 <= q < 8 ==> #[trigger] all[j0 + q] == rp[q],
                    j0 + 8 <= all.len(),
                    merged(m@, all.take(j0 + t + 1)),
                    !has_conflict(all.take(j0 + t + 1)),
                    k < ws.len(),
                    ws == relation.lookups@,
                    w == ws[k as int],
                    root == self.state_root,
                    j0 >= 0,
                    forall|q: int| 0 <= q <= 8 ==> #[trigger] all.take(j0 + q) == pre + rp.take(q),
                    reads == self.reads@,
                    read == reads[k as int],
                    pre == base + reads_pairs(reads, ws, root, k as int),
                    base == bind_pairs(&self.execution, relation, state_inputs_spec(self)),
                    all == base + reads_pairs(reads, ws, root, n),
                    n == reads.len(),
                    reads.len() == ws.len(),
                    !has_conflict(pre.push((w.active, 1nat))),
                    read_checks(read, answer(answers@, k as int)),
                    state_refusal(base, reads, ws, root, answers@, 0) == state_refusal(base, reads, ws, root, answers@, k as int),
                    self.reads@.len() == relation.lookups@.len(),
                    self.execution.public_output@.len() == relation.output_indices@.len(),
                    !has_conflict(base),
                decreases 7 - t,
            {
                let (i, x) = if t < 4 {
                    (w.root[t], self.state_root[t])
                } else if t == 4 {
                    (w.namespace, read.namespace)
                } else if t == 5 {
                    (w.key, read.key)
                } else {
                    (w.value, read.value)
                };
                let gx = Goldilocks::new(x);
                proof {
                    assert(rp[t + 1] == (i, gx@));
                    assert(all[j0 + t + 1] == (i, gx@));
                }
                if !pin(&mut m, i, gx, Ghost(all), Ghost(j0 + t + 1)) {
                    proof {
                        lemma_conflict_mono(all, j0 + t + 2, j0 + 8);
                        assert(all.take(j0 + 8) == pre + rp.take(8));
                        assert(rp.take(8) =~= rp);
                    }
                    return Err(String::from_str("conflicting state execution bindings"));
                }
                t = t + 1;
            }
            proof {
                assert(rp.take(8) =~= rp);
                assert(base + reads_pairs(reads, ws, root, k + 1) =~= pre + rp);
            }
            k = k + 1;
        }
        proof {
            assert(reads_pairs(reads, ws, root, k as int) == reads_pairs(reads, ws, root, n));
        }
        Ok(m)
    }
}

} // verus!
