//! Canonical, bounded public statements and their stable byte encodings.
use crate::execution::relation::ExecutionNoun;
use crate::field::P;
use vstd::prelude::*;
use vstd::string::StringSliceAdditionalSpecFns;

verus! {

/// Most program nodes a statement may carry.
pub const MAX_PROGRAM_NODES: usize = 4096;
/// Deepest program nesting accepted.
pub const MAX_DEPTH: usize = 128;
/// Most public inputs.
pub const MAX_INPUTS: usize = 64;
/// Most public outputs.
pub const MAX_OUTPUTS: usize = 4096;

/// One token of the flat prefix encoding of a program noun.
#[derive(Clone, Copy, Debug, PartialEq, Eq, Structural)]
pub enum NounToken {
    Atom(u64),
    Pair,
}

/// A public execution statement: program, inputs, outputs, cost and budget.
#[derive(Clone, Debug, PartialEq, Eq)]
pub struct ExecutionStatement {
    pub program: Vec<NounToken>,
    pub public_input: Vec<u64>,
    pub public_output: Vec<u64>,
    pub cycles: u64,
    pub budget: u64,
}

/// The eight little-endian bytes of `v`.
pub open spec fn le_bytes(v: u64) -> Seq<u8> {
    Seq::new(8, |i: int| ((v >> ((8 * i) as u64)) & 0xffu64) as u8)
}

/// The encoding of a token: 0 and the atom, or 1 for a pair.
pub open spec fn token_bytes(t: NounToken) -> Seq<u8> {
    match t {
        NounToken::Atom(v) => seq![0u8] + le_bytes(v),
        NounToken::Pair => seq![1u8],
    }
}

/// The encodings of a token sequence, concatenated.
pub open spec fn tokens_bytes(s: Seq<NounToken>) -> Seq<u8>
    decreases s.len(),
{
    if s.len() == 0 {
        Seq::empty()
    } else {
        tokens_bytes(s.drop_last()) + token_bytes(s.last())
    }
}

/// The little-endian bytes of each value, concatenated.
pub open spec fn values_bytes(s: Seq<u64>) -> Seq<u8>
    decreases s.len(),
{
    if s.len() == 0 {
        Seq::empty()
    } else {
        values_bytes(s.drop_last()) + le_bytes(s.last())
    }
}

/// A length-prefixed list of values.
pub open spec fn list_bytes(s: Seq<u64>) -> Seq<u8> {
    le_bytes(s.len() as u64) + values_bytes(s)
}

/// The domain tag of public execution transcripts.
pub open spec fn execution_tag() -> Seq<u8> {
    "zheng-nox-public-execution-v1".spec_bytes()
}

/// The transcript bytes of an execution statement.
pub open spec fn execution_transcript(s: &ExecutionStatement) -> Seq<u8> {
    execution_tag() + le_bytes(s.program@.len() as u64) + tokens_bytes(s.program@) + list_bytes(s.public_input@)
        + list_bytes(s.public_output@) + le_bytes(s.cycles) + le_bytes(s.budget)
}

/// Append the little-endian bytes of `v`.
pub fn push_le(bytes: &mut Vec<u8>, v: u64)
    ensures
        final(bytes)@ == old(bytes)@ + le_bytes(v),
{
    let ghost start = bytes@;
    let mut i: u64 = 0;
    while i < 8
        invariant
            i <= 8,
            bytes@ == start + le_bytes(v).subrange(0, i as int),
        decreases 8 - i,
    {
        bytes.push(((v >> (8 * i)) & 0xff) as u8);
        proof {
            assert(le_bytes(v).subrange(0, i + 1) =~= le_bytes(v).subrange(0, i as int).push(le_bytes(v)[i as int]));
        }
        i = i + 1;
    }
    assert(le_bytes(v).subrange(0, 8) =~= le_bytes(v));
}

/// Append the bytes of a string.
pub fn push_str(bytes: &mut Vec<u8>, s: &str)
    ensures
        final(bytes)@ == old(bytes)@ + s.spec_bytes(),
{
    let b = s.as_bytes();
    let ghost start = bytes@;
    let mut i: usize = 0;
    while i < b.len()
        invariant
            i <= b@.len(),
            b@ == s.spec_bytes(),
            bytes@ == start + b@.subrange(0, i as int),
        decreases b@.len() - i,
    {
        bytes.push(b[i]);
        proof {
            assert(b@.subrange(0, i + 1) =~= b@.subrange(0, i as int).push(b@[i as int]));
        }
        i = i + 1;
    }
    assert(b@.subrange(0, b@.len() as int) =~= b@);
}

/// Append a length-prefixed list of values.
pub fn push_list(bytes: &mut Vec<u8>, values: &Vec<u64>)
    ensures
        final(bytes)@ == old(bytes)@ + list_bytes(values@),
{
    let ghost start = bytes@;
    push_le(bytes, values.len() as u64);
    let mut i: usize = 0;
    while i < values.len()
        invariant
            i <= values@.len(),
            bytes@ == start + le_bytes(values@.len() as u64) + values_bytes(values@.subrange(0, i as int)),
        decreases values@.len() - i,
    {
        push_le(bytes, values[i]);
        proof {
            let s = values@.subrange(0, i + 1);
            assert(s.drop_last() =~= values@.subrange(0, i as int));
            assert(s.last() == values@[i as int]);
        }
        i = i + 1;
    }
    assert(values@.subrange(0, values@.len() as int) =~= values@);
}

/// Whether every value is a canonical field element.
pub fn canonical(values: &[u64]) -> (r: bool)
    ensures
        r == (forall|i: int| 0 <= i < values@.len() ==> values@[i] < P),
{
    let mut i: usize = 0;
    while i < values.len()
        invariant
            i <= values@.len(),
            forall|j: int| 0 <= j < i ==> values@[j] < P,
        decreases values@.len() - i,
    {
        if values[i] >= P {
            return false;
        }
        i = i + 1;
    }
    true
}

/// The prefix encoding of a noun: a pair is `Pair` then its head, then its
/// tail.
pub open spec fn encode_spec(n: ExecutionNoun) -> Seq<NounToken>
    decreases n,
{
    match n {
        ExecutionNoun::Atom(v) => seq![NounToken::Atom(v)],
        ExecutionNoun::Pair(a, b) => seq![NounToken::Pair] + encode_spec(*a) + encode_spec(*b),
    }
}

/// The first failure of a preorder walk from depth `depth` after `count`
/// tokens: the size or depth limit, or a non-canonical atom.
pub open spec fn encode_error(n: ExecutionNoun, depth: nat, count: nat) -> Option<bool>
    decreases n,
{
    if depth > MAX_DEPTH || count >= MAX_PROGRAM_NODES {
        Some(true)
    } else {
        match n {
            ExecutionNoun::Atom(v) => if v >= P { Some(false) } else { None },
            ExecutionNoun::Pair(a, b) => match encode_error(*a, depth + 1, count + 1) {
                Some(e) => Some(e),
                None => encode_error(*b, depth + 1, count + 1 + encode_spec(*a).len()),
            },
        }
    }
}

impl ExecutionStatement {
    /// Stable encoding, independent of any serialisation format.
    pub fn transcript_bytes(&self) -> (r: Vec<u8>)
        ensures
            r@ == execution_transcript(self),
    {
        let mut bytes: Vec<u8> = Vec::new();
        push_str(&mut bytes, "zheng-nox-public-execution-v1");
        push_le(&mut bytes, self.program.len() as u64);
        let ghost head = bytes@;
        let mut i: usize = 0;
        while i < self.program.len()
            invariant
                i <= self.program@.len(),
                bytes@ == head + tokens_bytes(self.program@.subrange(0, i as int)),
            decreases self.program@.len() - i,
        {
            match self.program[i] {
                NounToken::Atom(v) => {
                    bytes.push(0);
                    push_le(&mut bytes, v);
                },
                NounToken::Pair => {
                    bytes.push(1);
                },
            }
            proof {
                let s = self.program@.subrange(0, i + 1);
                assert(s.drop_last() =~= self.program@.subrange(0, i as int));
                assert(s.last() == self.program@[i as int]);
                assert(bytes@ =~= head + tokens_bytes(s));
            }
            i = i + 1;
        }
        assert(self.program@.subrange(0, self.program@.len() as int) =~= self.program@);
        push_list(&mut bytes, &self.public_input);
        push_list(&mut bytes, &self.public_output);
        push_le(&mut bytes, self.cycles);
        push_le(&mut bytes, self.budget);
        proof {
            assert(bytes@ =~= execution_transcript(self));
        }
        bytes
    }

    /// The prefix token encoding of a program, within the node and depth
    /// limits and with canonical atoms.
    pub fn encode_program(noun: &ExecutionNoun) -> (res: Result<Vec<NounToken>, String>)
        ensures
            encode_error(*noun, 0, 0) is None <==> res is Ok,
            res is Ok ==> res->Ok_0@ == encode_spec(*noun),
            encode_error(*noun, 0, 0) == Some(true) ==> (res matches Err(e) && e@ == "program size/depth limit"@),
            encode_error(*noun, 0, 0) == Some(false) ==> (res matches Err(e) && e@ == "noncanonical program atom"@),
    {
        let mut tokens: Vec<NounToken> = Vec::new();
        match encode_into(noun, 0, &mut tokens) {
            Ok(()) => Ok(tokens),
            Err(size) => {
                if size {
                    Err(String::from_str("program size/depth limit"))
                } else {
                    Err(String::from_str("noncanonical program atom"))
                }
            },
        }
    }
}

/// Append the encoding of `n` at depth `depth`; the error says whether a
/// limit (true) or a non-canonical atom (false) stopped it.
fn encode_into(n: &ExecutionNoun, depth: usize, tokens: &mut Vec<NounToken>) -> (res: Result<(), bool>)
    requires
        depth <= MAX_DEPTH + 1,
        old(tokens)@.len() <= MAX_PROGRAM_NODES,
    ensures
        res is Err <==> encode_error(*n, depth as nat, old(tokens)@.len()) is Some,
        res is Err ==> encode_error(*n, depth as nat, old(tokens)@.len()) == Some(res->Err_0),
        res is Ok ==> final(tokens)@ == old(tokens)@ + encode_spec(*n),
        res is Ok ==> final(tokens)@.len() <= MAX_PROGRAM_NODES,
    decreases n,
{
    if depth > MAX_DEPTH || tokens.len() >= MAX_PROGRAM_NODES {
        return Err(true);
    }
    match n {
        ExecutionNoun::Atom(v) => {
            if *v >= P {
                return Err(false);
            }
            tokens.push(NounToken::Atom(*v));
            Ok(())
        },
        ExecutionNoun::Pair(a, b) => {
            let ghost t0 = tokens@;
            tokens.push(NounToken::Pair);
            encode_into(a, depth + 1, tokens)?;
            encode_into(b, depth + 1, tokens)?;
            proof {
                assert(tokens@ =~= t0 + encode_spec(*n));
            }
            Ok(())
        },
    }
}


impl ExecutionStatement {
    /// A copy of the statement.
    pub fn copy(&self) -> (r: ExecutionStatement)
        ensures
            r.program@ == self.program@,
            r.public_input@ == self.public_input@,
            r.public_output@ == self.public_output@,
            r.cycles == self.cycles,
            r.budget == self.budget,
    {
        ExecutionStatement {
            program: self.program.clone(),
            public_input: self.public_input.clone(),
            public_output: self.public_output.clone(),
            cycles: self.cycles,
            budget: self.budget,
        }
    }
}

/// A state lookup the statement claims: whether it is active, and the
/// namespace, key and value read.
#[derive(Clone, Copy, Debug, PartialEq, Eq, Structural)]
pub struct PublicLookup {
    pub active: bool,
    pub namespace: u64,
    pub key: u64,
    pub value: u64,
}

/// An execution statement over authenticated state.
#[derive(Clone, Debug, PartialEq, Eq)]
pub struct StateStatement {
    pub execution: ExecutionStatement,
    pub state_root: [u64; 4],
    pub context: [u8; 32],
    /// Whether the state root is the head of the subject.
    pub root_in_subject: bool,
    pub reads: Vec<PublicLookup>,
}

/// The encoding of a claimed lookup.
pub open spec fn lookup_bytes(r: PublicLookup) -> Seq<u8> {
    seq![if r.active { 1u8 } else { 0u8 }] + le_bytes(r.namespace) + le_bytes(r.key) + le_bytes(r.value)
}

/// The encodings of the claimed lookups, concatenated.
pub open spec fn lookups_bytes(s: Seq<PublicLookup>) -> Seq<u8>
    decreases s.len(),
{
    if s.len() == 0 {
        Seq::empty()
    } else {
        lookups_bytes(s.drop_last()) + lookup_bytes(s.last())
    }
}

/// The transcript bytes of a state statement.
pub open spec fn state_transcript(s: &StateStatement) -> Seq<u8> {
    "zheng-nox-public-state-execution-v1".spec_bytes() + execution_transcript(&s.execution) + s.context@
        + le_bytes(s.state_root[0]) + le_bytes(s.state_root[1]) + le_bytes(s.state_root[2]) + le_bytes(s.state_root[3])
        + seq![if s.root_in_subject { 1u8 } else { 0u8 }] + le_bytes(s.reads@.len() as u64) + lookups_bytes(s.reads@)
}

/// Append a byte sequence.
pub fn push_all(bytes: &mut Vec<u8>, more: &[u8])
    ensures
        final(bytes)@ == old(bytes)@ + more@,
{
    let ghost start = bytes@;
    let mut i: usize = 0;
    while i < more.len()
        invariant
            i <= more@.len(),
            bytes@ == start + more@.subrange(0, i as int),
        decreases more@.len() - i,
    {
        bytes.push(more[i]);
        proof {
            assert(more@.subrange(0, i + 1) =~= more@.subrange(0, i as int).push(more@[i as int]));
        }
        i = i + 1;
    }
    assert(more@.subrange(0, more@.len() as int) =~= more@);
}

impl StateStatement {
    /// Stable encoding of the statement.
    pub fn transcript_bytes(&self) -> (r: Vec<u8>)
        ensures
            r@ == state_transcript(self),
    {
        let mut bytes: Vec<u8> = Vec::new();
        push_str(&mut bytes, "zheng-nox-public-state-execution-v1");
        let e = self.execution.transcript_bytes();
        push_all(&mut bytes, e.as_slice());
        push_all(&mut bytes, &self.context);
        push_le(&mut bytes, self.state_root[0]);
        push_le(&mut bytes, self.state_root[1]);
        push_le(&mut bytes, self.state_root[2]);
        push_le(&mut bytes, self.state_root[3]);
        bytes.push(if self.root_in_subject { 1 } else { 0 });
        push_le(&mut bytes, self.reads.len() as u64);
        let ghost head = bytes@;
        let mut i: usize = 0;
        while i < self.reads.len()
            invariant
                i <= self.reads@.len(),
                bytes@ == head + lookups_bytes(self.reads@.subrange(0, i as int)),
            decreases self.reads@.len() - i,
        {
            let r = self.reads[i];
            bytes.push(if r.active { 1 } else { 0 });
            push_le(&mut bytes, r.namespace);
            push_le(&mut bytes, r.key);
            push_le(&mut bytes, r.value);
            proof {
                let s = self.reads@.subrange(0, i + 1);
                assert(s.drop_last() =~= self.reads@.subrange(0, i as int));
                assert(s.last() == self.reads@[i as int]);
                assert(bytes@ =~= head + lookups_bytes(s));
            }
            i = i + 1;
        }
        assert(self.reads@.subrange(0, self.reads@.len() as int) =~= self.reads@);
        proof {
            assert(bytes@ =~= state_transcript(self));
        }
        bytes
    }
}

/// A statement whose witness may hold private values; only the public
/// execution statement is carried.
#[derive(Clone, Debug, PartialEq, Eq)]
pub struct PrivateStatement {
    pub execution: ExecutionStatement,
}

/// The transcript bytes of a private statement.
pub open spec fn private_transcript(s: &PrivateStatement) -> Seq<u8> {
    "zheng-nox-private-ccs-execution-v1".spec_bytes() + execution_transcript(&s.execution)
}

impl PrivateStatement {
    /// Stable encoding of the statement.
    pub fn transcript_bytes(&self) -> (r: Vec<u8>)
        ensures
            r@ == private_transcript(self),
    {
        let mut bytes: Vec<u8> = Vec::new();
        push_str(&mut bytes, "zheng-nox-private-ccs-execution-v1");
        let e = self.execution.transcript_bytes();
        push_all(&mut bytes, e.as_slice());
        bytes
    }
}

/// A private statement over state with a known root.
#[derive(Clone, Debug, PartialEq, Eq)]
pub struct PrivateStateStatement {
    pub execution: ExecutionStatement,
    pub root: [u64; 4],
    pub root_in_subject: bool,
}

impl PrivateStateStatement {
    /// The public state statement with the same execution and root, an
    /// all-zero context and no claimed lookups.
    pub fn state_statement(&self) -> (r: StateStatement)
        ensures
            r.execution.program@ == self.execution.program@,
            r.execution.public_input@ == self.execution.public_input@,
            r.execution.public_output@ == self.execution.public_output@,
            r.execution.cycles == self.execution.cycles,
            r.execution.budget == self.execution.budget,
            r.state_root == self.root,
            r.context@ == Seq::new(32, |i: int| 0u8),
            r.root_in_subject == self.root_in_subject,
            r.reads@.len() == 0,
    {
        let r = StateStatement {
            execution: self.execution.copy(),
            state_root: self.root,
            context: [0u8; 32],
            root_in_subject: self.root_in_subject,
            reads: Vec::new(),
        };
        assert(r.context@ =~= Seq::new(32, |i: int| 0u8));
        r
    }
}

} // verus!
