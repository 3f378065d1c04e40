//! From a public statement to its verifier-derived relation and public
//! coordinates, and private witness preparation.
use crate::execution::decode::{decodable, decode_result};
use crate::execution::relation::{ExecutionNoun, RelationError, SubjectShape};
use crate::execution::relation_compile::{compile_relation, computes, forces_wires, runs, ExecutionRelation};
use crate::execution::relation_semantics::{noun_leaves, nox_reduce, shape_den};
use crate::execution::statement::{encode_error, encode_spec, ExecutionStatement, PrivateStatement, MAX_INPUTS, MAX_OUTPUTS, MAX_PROGRAM_NODES};
use crate::execution::tagged::builder::HashTables;
use crate::field::{modulus, Goldilocks, P};
use crate::types::field_nats;
use vstd::prelude::*;

verus! {

// ── decimal and error texts ─────────────────────────────────────────────────

/// The ASCII digit `d`.
pub open spec fn dchar(d: nat) -> char {
    (48 + d) as char
}

/// The decimal digits of `v`.
pub open spec fn decimal_spec(v: nat) -> Seq<char>
    decreases v,
{
    if v < 10 {
        seq![dchar(v)]
    } else {
        decimal_spec(v / 10) + seq![dchar(v % 10)]
    }
}

fn digit(d: u64) -> (s: &'static str)
    requires
        d < 10,
    ensures
        s@ == seq![dchar(d as nat)],
{
    proof {
        reveal_strlit("0");
        reveal_strlit("1");
        reveal_strlit("2");
        reveal_strlit("3");
        reveal_strlit("4");
        reveal_strlit("5");
        reveal_strlit("6");
        reveal_strlit("7");
        reveal_strlit("8");
        reveal_strlit("9");
    }
    if d == 0 {
        "0"
    } else if d == 1 {
        "1"
    } else if d == 2 {
        "2"
    } else if d == 3 {
        "3"
    } else if d == 4 {
        "4"
    } else if d == 5 {
        "5"
    } else if d == 6 {
        "6"
    } else if d == 7 {
        "7"
    } else if d == 8 {
        "8"
    } else {
        "9"
    }
}

/// The decimal text of `v`.
pub fn decimal(v: u64) -> (s: String)
    ensures
        s@ == decimal_spec(v as nat),
    decreases v,
{
    if v < 10 {
        String::from_str(digit(v))
    } else {
        let mut s = decimal(v / 10);
        s.append(digit(v % 10));
        s
    }
}

/// The debug text of a relation error.
pub open spec fn relation_error_spec(e: RelationError) -> Seq<char> {
    match e {
        RelationError::Unsupported(m) => "Unsupported(\""@ + m@ + "\")"@,
        RelationError::Malformed => "Malformed"@,
        RelationError::NonCanonical => "NonCanonical"@,
        RelationError::Limit => "Limit"@,
        RelationError::InputCount => "InputCount"@,
        RelationError::SecretCount => "SecretCount"@,
        RelationError::LookupUnavailable => "LookupUnavailable"@,
    }
}

/// The debug text of a relation error.
pub fn relation_error_text(e: &RelationError) -> (s: String)
    ensures
        s@ == relation_error_spec(*e),
{
    match e {
        RelationError::Unsupported(m) => {
            let mut s = String::from_str("Unsupported(\"");
            s.append(m);
            s.append("\")");
            s
        },
        RelationError::Malformed => String::from_str("Malformed"),
        RelationError::NonCanonical => String::from_str("NonCanonical"),
        RelationError::Limit => String::from_str("Limit"),
        RelationError::InputCount => String::from_str("InputCount"),
        RelationError::SecretCount => String::from_str("SecretCount"),
        RelationError::LookupUnavailable => String::from_str("LookupUnavailable"),
    }
}

/// `prefix` followed by `text`.
fn prefixed(prefix: &str, text: &String) -> (s: String)
    ensures
        s@ == prefix@ + text@,
{
    let mut s = String::from_str(prefix);
    s.append(text.as_str());
    s
}

// ── the statement's relation ────────────────────────────────────────────────

/// Every value is a canonical field element.
pub open spec fn all_canonical(s: Seq<u64>) -> bool {
    forall|i: int| 0 <= i < s.len() ==> #[trigger] s[i] < P
}

/// The statement's public values are within bounds and canonical, and its
/// cost within its budget.
pub open spec fn bounds_ok(s: &ExecutionStatement) -> bool {
    &&& s.public_input@.len() <= MAX_INPUTS
    &&& s.public_output@.len() <= MAX_OUTPUTS
    &&& all_canonical(s.public_input@)
    &&& all_canonical(s.public_output@)
    &&& s.budget < P
    &&& s.cycles <= s.budget
}

/// The subject of `n` public inputs: `n` pairs of an atom with the rest,
/// ending in an atom.
pub open spec fn input_shape_spec(n: nat) -> SubjectShape
    decreases n,
{
    if n == 0 {
        SubjectShape::Atom
    } else {
        SubjectShape::Pair(Box::new(SubjectShape::Atom), Box::new(input_shape_spec((n - 1) as nat)))
    }
}

proof fn lemma_input_shape_leaves(n: nat)
    ensures
        input_shape_spec(n).leaves() == n + 1,
    decreases n,
{
    if n > 0 {
        lemma_input_shape_leaves((n - 1) as nat);
        let rest = input_shape_spec((n - 1) as nat);
        assert(SubjectShape::Atom.leaves() == 1);
        assert(input_shape_spec(n) == SubjectShape::Pair(Box::new(SubjectShape::Atom), Box::new(rest)));
        assert(input_shape_spec(n).leaves() == SubjectShape::Atom.leaves() + rest.leaves());
    }
}

fn fits_field(values: &Vec<u64>) -> (b: bool)
    ensures
        b == all_canonical(values@),
{
    let mut i: usize = 0;
    while i < values.len()
        invariant
            i <= values@.len(),
            forall|j: int| 0 <= j < i ==> #[trigger] values@[j] < P,
        decreases values@.len() - i,
    {
        if values[i] >= P {
            return false;
        }
        i = i + 1;
    }
    true
}

/// The public inputs as the subject's atoms: the inputs in reverse order,
/// then zero.
pub open spec fn inputs_spec(s: &ExecutionStatement) -> Seq<nat> {
    let n = s.public_input@.len();
    Seq::new(n + 1, |i: int| if i < n { s.public_input@[n - 1 - i] as nat % modulus() } else { 0 })
}

impl ExecutionStatement {
    /// Check the statement's public bounds and field encodings.
    pub fn validate_bounds(&self) -> (r: Result<(), String>)
        ensures
            r is Ok <==> bounds_ok(self),
            r matches Err(e) ==> e@ == "invalid public statement bounds or field values"@,
    {
        if self.public_input.len() > MAX_INPUTS || self.public_output.len() > MAX_OUTPUTS || !fits_field(&self.public_input)
            || !fits_field(&self.public_output) || self.budget >= P || self.cycles > self.budget {
            return Err(String::from_str("invalid public statement bounds or field values"));
        }
        Ok(())
    }

    /// The subject shape of the public inputs.
    pub fn input_shape(&self) -> (shape: SubjectShape)
        ensures
            shape == input_shape_spec(self.public_input@.len()),
    {
        let mut shape = SubjectShape::Atom;
        let mut i: usize = 0;
        while i < self.public_input.len()
            invariant
                i <= self.public_input@.len(),
                shape == input_shape_spec(i as nat),
            decreases self.public_input@.len() - i,
        {
            shape = SubjectShape::Pair(Box::new(SubjectShape::Atom), Box::new(shape));
            i = i + 1;
        }
        shape
    }

    /// The verifier-derived relation of the statement's program over its
    /// public inputs.
    pub fn relation(&self, tables: HashTables) -> (r: Result<ExecutionRelation, String>)
        ensures
            !bounds_ok(self) ==> (r matches Err(e) && e@ == "invalid public statement bounds or field values"@),
            bounds_ok(self) && (self.program@.len() == 0 || self.program@.len() > MAX_PROGRAM_NODES) ==> (r matches Err(e)
                && e@ == "program size limit"@),
            bounds_ok(self) && 0 < self.program@.len() <= MAX_PROGRAM_NODES ==> (decode_result(self.program@) matches Err(m) ==> (r matches Err(
                e,
            ) && e@ == m)),
            r matches Ok(rel) ==> bounds_ok(self) && rel.wf() && forces_wires(&rel)
                && rel.input_indices@.len() == self.public_input@.len() + 1
                && (exists|n: ExecutionNoun| decodable(n) && #[trigger] encode_spec(n) == self.program@),
            r matches Ok(rel) ==> forall|n: ExecutionNoun|
                decodable(n) && #[trigger] encode_spec(n) == self.program@ ==> computes(&rel, n, input_shape_spec(self.public_input@.len())),
    {
        self.validate_bounds()?;
        let shape = self.input_shape();
        let decoded = self.program_noun();
        let program = decoded?;
        let relation = match compile_relation(&program, &shape, tables) {
            Ok(rel) => rel,
            Err(e) => {
                return Err(prefixed("unsupported execution relation: ", &relation_error_text(&e)));
            },
        };
        proof {
            lemma_input_shape_leaves(self.public_input@.len());
            assert forall|n: ExecutionNoun| decodable(n) && #[trigger] encode_spec(n) == self.program@ implies computes(
                &relation,
                n,
                input_shape_spec(self.public_input@.len()),
            ) by {
                assert(decoded == Ok::<ExecutionNoun, String>(n));
            }
        }
        Ok(relation)
    }

    /// The public inputs as field elements, in subject order.
    pub fn inputs(&self) -> (v: Vec<Goldilocks>)
        ensures
            field_nats(v@) == inputs_spec(self),
    {
        let n = self.public_input.len();
        let mut v: Vec<Goldilocks> = Vec::new();
        let mut i: usize = 0;
        while i < n
            invariant
                i <= n,
                n == self.public_input@.len(),
                v@.len() == i,
                forall|j: int| 0 <= j < i ==> #[trigger] v@[j]@ == self.public_input@[n - 1 - j] as nat % modulus(),
            decreases n - i,
        {
            v.push(Goldilocks::new(self.public_input[n - 1 - i]));
            i = i + 1;
        }
        v.push(Goldilocks::zero());
        proof {
            assert(field_nats(v@) =~= inputs_spec(self));
        }
        v
    }
}

// ── public coordinates ──────────────────────────────────────────────────────

/// The value of the first pair with index `k`, if any.
pub open spec fn first_value(pairs: Seq<(usize, nat)>, k: usize) -> Option<nat>
    decreases pairs.len(),
{
    if pairs.len() == 0 {
        None
    } else {
        match first_value(pairs.drop_last(), k) {
            Some(x) => Some(x),
            None => if pairs.last().0 == k {
                Some(pairs.last().1)
            } else {
                None
            },
        }
    }
}

/// Two pairs give one index different values.
pub open spec fn has_conflict(pairs: Seq<(usize, nat)>) -> bool {
    exists|a: int, b: int| 0 <= a < b < pairs.len() && pairs[a].0 == pairs[b].0 && pairs[a].1 != pairs[b].1
}

/// Strictly increasing indices.
pub open spec fn sorted_keys(m: Seq<(usize, Goldilocks)>) -> bool {
    forall|a: int, b: int| 0 <= a < b < m.len() ==> (#[trigger] m[a]).0 < (#[trigger] m[b]).0
}

/// `m` holds, sorted by index, each index of `pairs` once with its first value.
pub open spec fn merged(m: Seq<(usize, Goldilocks)>, pairs: Seq<(usize, nat)>) -> bool {
    &&& sorted_keys(m)
    &&& forall|t: int| 0 <= t < m.len() ==> first_value(pairs, (#[trigger] m[t]).0) == Some(m[t].1@)
    &&& forall|s: int| 0 <= s < pairs.len() ==> exists|t: int| 0 <= t < m.len() && (#[trigger] m[t]).0 == (#[trigger] pairs[s]).0
}

proof fn lemma_first_value_take(pairs: Seq<(usize, nat)>, j: int, k: usize)
    requires
        0 <= j < pairs.len(),
    ensures
        first_value(pairs.take(j + 1), k) == match first_value(pairs.take(j), k) {
            Some(x) => Some(x),
            None => if pairs[j].0 == k {
                Some(pairs[j].1)
            } else {
                None
            },
        },
{
    assert(pairs.take(j + 1).drop_last() =~= pairs.take(j));
}

proof fn lemma_first_value_some(pairs: Seq<(usize, nat)>, k: usize)
    ensures
        first_value(pairs, k) matches Some(x) ==> exists|a: int| 0 <= a < pairs.len() && (#[trigger] pairs[a]).0 == k && pairs[a].1 == x,
        first_value(pairs, k) is None ==> forall|a: int| 0 <= a < pairs.len() ==> (#[trigger] pairs[a]).0 != k,
        !has_conflict(pairs) && first_value(pairs, k) is Some ==> forall|a: int|
            0 <= a < pairs.len() && (#[trigger] pairs[a]).0 == k ==> Some(pairs[a].1) == first_value(pairs, k),
    decreases pairs.len(),
{
    if pairs.len() > 0 {
        let d = pairs.drop_last();
        lemma_first_value_some(d, k);
        if has_conflict(d) {
            let (a, b) = choose|a: int, b: int| 0 <= a < b < d.len() && d[a].0 == d[b].0 && d[a].1 != d[b].1;
            assert(pairs[a] == d[a] && pairs[b] == d[b]);
        }
        match first_value(d, k) {
            Some(x) => {
                let a = choose|a: int| 0 <= a < d.len() && (#[trigger] d[a]).0 == k && d[a].1 == x;
                assert(pairs[a] == d[a]);
                if !has_conflict(pairs) {
                    assert forall|b: int| 0 <= b < pairs.len() && (#[trigger] pairs[b]).0 == k implies Some(pairs[b].1) == first_value(pairs, k) by {
                        if b < d.len() {
                            assert(pairs[b] == d[b]);
                        } else {
                            if pairs[b].1 != x {
                                assert(pairs[a].0 == pairs[b].0 && pairs[a].1 != pairs[b].1);
                            }
                        }
                    }
                }
            },
            None => {
                assert forall|a: int| 0 <= a < d.len() implies (#[trigger] pairs[a]).0 != k || pairs[a] == d[a] by {}
                if pairs.last().0 == k {
                    assert(pairs[pairs.len() - 1].0 == k);
                } else {
                    assert forall|a: int| 0 <= a < pairs.len() implies (#[trigger] pairs[a]).0 != k by {
                        if a < d.len() {
                            assert(pairs[a] == d[a]);
                        }
                    }
                }
            },
        }
    }
}

proof fn lemma_conflict_take(pairs: Seq<(usize, nat)>, j: int)
    requires
        0 <= j < pairs.len(),
        !has_conflict(pairs.take(j)),
    ensures
        has_conflict(pairs.take(j + 1)) <==> exists|a: int| 0 <= a < j && (#[trigger] pairs[a]).0 == pairs[j].0 && pairs[a].1 != pairs[j].1,
{
    let t = pairs.take(j + 1);
    if has_conflict(t) {
        let (a, b) = choose|a: int, b: int| 0 <= a < b < t.len() && t[a].0 == t[b].0 && t[a].1 != t[b].1;
        if b < j {
            assert(pairs.take(j)[a] == t[a] && pairs.take(j)[b] == t[b]);
        } else {
            assert(t[a] == pairs[a] && t[b] == pairs[j]);
        }
    }
    if exists|a: int| 0 <= a < j && (#[trigger] pairs[a]).0 == pairs[j].0 && pairs[a].1 != pairs[j].1 {
        let a = choose|a: int| 0 <= a < j && (#[trigger] pairs[a]).0 == pairs[j].0 && pairs[a].1 != pairs[j].1;
        assert(t[a] == pairs[a] && t[j] == pairs[j]);
    }
}

/// Add pair `j` of `pairs`, (i, v), to the sorted coordinates `m` of the
/// pairs before it; false exactly when it conflicts with one of them.
pub(crate) fn pin(m: &mut Vec<(usize, Goldilocks)>, i: usize, v: Goldilocks, Ghost(pairs): Ghost<Seq<(usize, nat)>>, Ghost(j): Ghost<int>) -> (ok: bool)
    requires
        0 <= j < pairs.len(),
        pairs[j] == (i, v@),
        merged(old(m)@, pairs.take(j)),
        !has_conflict(pairs.take(j)),
    ensures
        ok == !has_conflict(pairs.take(j + 1)),
        ok ==> merged(final(m)@, pairs.take(j + 1)),
{
    let ghost pj = pairs.take(j);
    let ghost pj1 = pairs.take(j + 1);
    proof {
        lemma_conflict_take(pairs, j);
        lemma_first_value_some(pj, i);
        assert forall|k: usize| #[trigger] first_value(pj1, k) == match first_value(pj, k) {
            Some(x) => Some(x),
            None => if k == i { Some(v@) } else { None },
        } by {
            lemma_first_value_take(pairs, j, k);
        }
    }
    let mut p: usize = 0;
    while p < m.len() && m[p].0 < i
        invariant
            p <= m@.len(),
            forall|t: int| 0 <= t < p ==> (#[trigger] m@[t]).0 < i,
        decreases m@.len() - p,
    {
        p = p + 1;
    }
    if p < m.len() && m[p].0 == i {
        proof {
            assert(first_value(pj, i) == Some(m@[p as int].1@));
        }
        if m[p].1.equals(v) {
            proof {
                assert forall|a: int| 0 <= a < j && (#[trigger] pairs[a]).0 == pairs[j].0 implies pairs[a].1 == pairs[j].1 by {
                    assert(pj[a] == pairs[a]);
                }
                assert forall|s: int| 0 <= s < pj1.len() implies exists|t: int| 0 <= t < m@.len() && (#[trigger] m@[t]).0 == (#[trigger] pj1[s]).0 by {
                    if s < j {
                        assert(pj1[s] == pj[s]);
                    } else {
                        assert(m@[p as int].0 == pj1[s].0);
                    }
                }
            }
            true
        } else {
            proof {
                let a = choose|a: int| 0 <= a < pj.len() && (#[trigger] pj[a]).0 == i && pj[a].1 == m@[p as int].1@;
                assert(pairs[a] == pj[a]);
            }
            false
        }
    } else {
        proof {
            assert forall|t: int| 0 <= t < m@.len() implies (#[trigger] m@[t]).0 != i by {
                if t >= p {
                    assert(m@[p as int].0 > i);
                    if t > p {
                        assert(m@[p as int].0 < m@[t].0);
                    }
                }
            }
            if first_value(pj, i) is Some {
                let a = choose|a: int| 0 <= a < pj.len() && (#[trigger] pj[a]).0 == i && Some(pj[a].1) == first_value(pj, i);
                let t = choose|t: int| 0 <= t < m@.len() && (#[trigger] m@[t]).0 == (#[trigger] pj[a]).0;
            }
            assert(first_value(pj, i) is None);
            assert forall|a: int| 0 <= a < j implies (#[trigger] pairs[a]).0 != pairs[j].0 by {
                assert(pj[a] == pairs[a]);
            }
        }
        let ghost old_m = m@;
        m.insert(p, (i, v));
        proof {
            assert(m@ =~= old_m.subrange(0, p as int).push((i, v)) + old_m.subrange(p as int, old_m.len() as int));
            assert forall|a: int, b: int| 0 <= a < b < m@.len() implies (#[trigger] m@[a]).0 < (#[trigger] m@[b]).0 by {
                if a < p && b < p {
                    assert(m@[a] == old_m[a] && m@[b] == old_m[b]);
                } else if a < p && b == p {
                    assert(m@[a] == old_m[a]);
                } else if a < p {
                    assert(m@[a] == old_m[a] && m@[b] == old_m[b - 1]);
                } else if a == p {
                    assert(m@[b] == old_m[b - 1]);
                    if b - 1 > p {
                        assert(old_m[p as int].0 < old_m[b - 1].0);
                    }
                } else {
                    assert(m@[a] == old_m[a - 1] && m@[b] == old_m[b - 1]);
                }
            }
            assert forall|t: int| 0 <= t < m@.len() implies first_value(pj1, (#[trigger] m@[t]).0) == Some(m@[t].1@) by {
                if t < p {
                    assert(m@[t] == old_m[t]);
                } else if t > p {
                    assert(m@[t] == old_m[t - 1]);
                }
            }
            assert forall|s: int| 0 <= s < pj1.len() implies exists|t: int| 0 <= t < m@.len() && (#[trigger] m@[t]).0 == (#[trigger] pj1[s]).0 by {
                if s < j {
                    assert(pj1[s] == pj[s]);
                    let t = choose|t: int| 0 <= t < old_m.len() && (#[trigger] old_m[t]).0 == (#[trigger] pj[s]).0;
                    if t < p {
                        assert(m@[t] == old_m[t]);
                    } else {
                        assert(m@[t + 1] == old_m[t]);
                    }
                } else {
                    assert(m@[p as int].0 == pj1[s].0);
                }
            }
        }
        true
    }
}

/// The coordinates a statement pins, in insertion order: each input wire
/// with its input, each output wire with its public output, the cost wire
/// with the cycles.
pub open spec fn bind_pairs(s: &ExecutionStatement, rel: &ExecutionRelation, inputs: Seq<nat>) -> Seq<(usize, nat)> {
    let ni = if rel.input_indices@.len() < inputs.len() { rel.input_indices@.len() } else { inputs.len() };
    Seq::new(ni, |k: int| (rel.input_indices@[k], inputs[k]))
        + Seq::new(rel.output_indices@.len(), |k: int| (rel.output_indices@[k], s.public_output@[k] as nat % modulus()))
        + seq![(rel.cost_index, s.cycles as nat % modulus())]
}

impl ExecutionStatement {
    /// The public coordinates of the statement under `relation` for the
    /// given subject inputs, sorted by wire, each wire once.
    pub fn bindings_with_inputs(&self, relation: &ExecutionRelation, inputs: &[Goldilocks]) -> (r: Result<Vec<(usize, Goldilocks)>, String>)
        ensures
            self.public_output@.len() != relation.output_indices@.len() ==> (r matches Err(e) && e@ == "output shape does not match program"@),
            self.public_output@.len() == relation.output_indices@.len() ==> {
                let pairs = bind_pairs(self, relation, field_nats(inputs@));
                &&& (r is Ok <==> !has_conflict(pairs))
                &&& (r matches Ok(m) ==> merged(m@, pairs))
                &&& (r matches Err(e) ==> e@ == "conflicting public coordinates"@)
            },
    {
        if self.public_output.len() != relation.output_indices.len() {
            return Err(String::from_str("output shape does not match program"));
        }
        let ghost pairs = bind_pairs(self, relation, field_nats(inputs@));
        let ni = if relation.input_indices.len() < inputs.len() {
            relation.input_indices.len()
        } else {
            inputs.len()
        };
        let no = relation.output_indices.len();
        let mut m: Vec<(usize, Goldilocks)> = Vec::new();
        proof {
            assert(pairs.take(0) =~= Seq::<(usize, nat)>::empty());
        }
        let mut j: usize = 0;
        while j < ni
            invariant
                j <= ni,
                pairs == bind_pairs(self, relation, field_nats(inputs@)),
                pairs.len() == ni + no + 1,
                ni <= inputs@.len(),
                ni <= relation.input_indices@.len(),
                no == relation.output_indices@.len(),
                no == self.public_output@.len(),
                merged(m@, pairs.take(j as int)),
                !has_conflict(pairs.take(j as int)),
            decreases ni - j,
        {
            let i = relation.input_indices[j];
            let v = inputs[j];
            proof {
                assert(pairs[j as int] == (i, v@));
            }
            if !pin(&mut m, i, v, Ghost(pairs), Ghost(j as int)) {
                return Err(String::from_str("conflicting public coordinates"));
            }
            j = j + 1;
        }
        let mut k: usize = 0;
        while k < no
            invariant
                k <= no,
                pairs == bind_pairs(self, relation, field_nats(inputs@)),
                pairs.len() == ni + no + 1,
                no == relation.output_indices@.len(),
                no == self.public_output@.len(),
                merged(m@, pairs.take(ni + k)),
                !has_conflict(pairs.take(ni + k)),
            decreases no - k,
        {
            let i = relation.output_indices[k];
            let v = Goldilocks::new(self.public_output[k]);
            proof {
                assert(pairs[ni + k] == (i, v@));
            }
            if !pin(&mut m, i, v, Ghost(pairs), Ghost(ni + k)) {
                return Err(String::from_str("conflicting public coordinates"));
            }
            k = k + 1;
        }
        let v = Goldilocks::new(self.cycles);
        proof {
            assert(pairs[ni + no] == (relation.cost_index, v@));
        }
        if !pin(&mut m, relation.cost_index, v, Ghost(pairs), Ghost(ni + no)) {
            return Err(String::from_str("conflicting public coordinates"));
        }
        proof {
            assert(pairs.take(ni + no + 1) =~= pairs);
        }
        Ok(m)
    }

    /// The public coordinates of the statement under `relation`.
    pub fn bindings(&self, relation: &ExecutionRelation) -> (r: Result<Vec<(usize, Goldilocks)>, String>)
        ensures
            self.public_output@.len() != relation.output_indices@.len() ==> (r matches Err(e) && e@ == "output shape does not match program"@),
            self.public_output@.len() == relation.output_indices@.len() ==> {
                let pairs = bind_pairs(self, relation, inputs_spec(self));
                &&& (r is Ok <==> !has_conflict(pairs))
                &&& (r matches Ok(m) ==> merged(m@, pairs))
            },
    {
        let inputs = self.inputs();
        self.bindings_with_inputs(relation, inputs.as_slice())
    }
}

// ── private preparation ─────────────────────────────────────────────────────

/// Verifier data derived solely from a statement's canonical program.
pub struct PreparedExecution {
    pub relation: ExecutionRelation,
    pub public_coordinates: Vec<(usize, u64)>,
}

/// Coordinates with their values as canonical integers.
pub open spec fn coords_u64(m: Seq<(usize, Goldilocks)>) -> Seq<(usize, u64)> {
    m.map_values(|e: (usize, Goldilocks)| (e.0, e.1@ as u64))
}

/// `prep` is the verifier data of execution statement `s`: a well-formed
/// relation, and the statement's coordinates under it.
pub open spec fn prepared_for(s: &ExecutionStatement, prep: &PreparedExecution) -> bool {
    &&& bounds_ok(s)
    &&& prep.relation.wf()
    &&& prep.relation.input_indices@.len() == s.public_input@.len() + 1
    &&& s.public_output@.len() == prep.relation.output_indices@.len()
    &&& !has_conflict(bind_pairs(s, &prep.relation, inputs_spec(s)))
    &&& exists|m: Seq<(usize, Goldilocks)>| merged(m, bind_pairs(s, &prep.relation, inputs_spec(s))) && prep.public_coordinates@ == coords_u64(m)
}

fn to_u64_coords(m: &Vec<(usize, Goldilocks)>) -> (r: Vec<(usize, u64)>)
    ensures
        r@ == coords_u64(m@),
{
    let mut r: Vec<(usize, u64)> = Vec::new();
    let mut i: usize = 0;
    while i < m.len()
        invariant
            i <= m@.len(),
            r@ == coords_u64(m@.take(i as int)),
        decreases m@.len() - i,
    {
        r.push((m[i].0, m[i].1.as_u64()));
        proof {
            assert(coords_u64(m@.take(i + 1)) =~= coords_u64(m@.take(i as int)).push((m@[i as int].0, m@[i as int].1@ as u64)));
        }
        i = i + 1;
    }
    proof {
        assert(m@.take(m@.len() as int) =~= m@);
    }
    r
}

impl PrivateStatement {
    /// The verifier data of the statement: its relation and public coordinates.
    pub fn prepare(&self, tables: HashTables) -> (r: Result<PreparedExecution, String>)
        ensures
            !bounds_ok(&self.execution) ==> (r matches Err(e) && e@ == "invalid public statement bounds or field values"@),
            r matches Ok(prep) ==> prepared_for(&self.execution, &prep),
    {
        let relation = self.execution.relation(tables)?;
        let m = self.execution.bindings(&relation)?;
        let public_coordinates = to_u64_coords(&m);
        Ok(PreparedExecution { relation, public_coordinates })
    }
}

/// `st`, `prep` and `z` are what preparing `program` on `input`, `secrets`
/// and `budget` gives: the statement carries the program's encoding, the
/// inputs and budget; `prep` is its verifier data; `z` runs `prep`'s
/// relation on the inputs and secrets and satisfies its instance, and the
/// statement's outputs and cycles are read from it.
pub open spec fn execution_prepared(
    program: ExecutionNoun,
    input: Seq<u64>,
    secrets: Seq<u64>,
    budget: u64,
    st: PrivateStatement,
    prep: PreparedExecution,
    z: Seq<u64>,
) -> bool {
    &&& st.execution.program@ == encode_spec(program)
    &&& st.execution.public_input@ == input
    &&& st.execution.budget == budget
    &&& prepared_for(&st.execution, &prep)
    &&& forces_wires(&prep.relation)
    &&& runs(&prep.relation, inputs_spec(&st.execution), u64_nats(secrets), u64_nats(z))
    &&& (exists|w: Seq<Goldilocks>| crate::ccs::universal::nats(w) == u64_nats(z) && #[trigger] prep.relation.instance.satisfied(w))
    &&& prep.relation.output_indices@.len() == st.execution.public_output@.len()
    &&& forall|k: int|
        0 <= k < prep.relation.output_indices@.len() ==> #[trigger] st.execution.public_output@[k] == z[prep.relation.output_indices@[k] as int]
    &&& st.execution.cycles == z[prep.relation.cost_index as int]
}

/// Integers as mathematical naturals.
pub open spec fn u64_nats(s: Seq<u64>) -> Seq<nat> {
    s.map_values(|v: u64| v as nat)
}

/// The public output of a prepared execution is the list of atoms, left to
/// right, of the noun the program reduces to on the subject held by the
/// witness's input wires (which `runs` pins to the public inputs), wherever
/// the covered fragment of nox defines that reduction.
pub proof fn lemma_prepared_output(
    program: ExecutionNoun,
    input: Seq<u64>,
    secrets: Seq<u64>,
    budget: u64,
    st: PrivateStatement,
    prep: PreparedExecution,
    z: Seq<u64>,
    n: ExecutionNoun,
)
    requires
        execution_prepared(program, input, secrets, budget, st, prep, z),
        computes(&prep.relation, program, input_shape_spec(input.len())),
        all_canonical(z),
        nox_reduce(shape_den(input_shape_spec(input.len()), u64_nats(z), 1), program) == Some(n),
    ensures
        u64_nats(st.execution.public_output@) == noun_leaves(n),
{
    let w = choose|w: Seq<Goldilocks>| crate::ccs::universal::nats(w) == u64_nats(z) && #[trigger] prep.relation.instance.satisfied(w);
    let nw = crate::ccs::universal::nats(w);
    assert(nw.len() == w.len());
    assert(w.len() == prep.relation.instance.num_cols);
    assert(nw[0] == w[0]@);
    assert(w[0]@ == 1);
    assert forall|j: int| 0 <= j < w.len() implies (#[trigger] w[j])@ < modulus() by {
        assert(nw[j] == w[j]@);
        assert(u64_nats(z)[j] == z[j] as nat);
    }
    let outs = prep.relation.output_indices@;
    assert(noun_leaves(n) == Seq::new(outs.len(), |k: int| w[outs[k] as int]@));
    assert(u64_nats(st.execution.public_output@) =~= noun_leaves(n)) by {
        assert forall|k: int| 0 <= k < outs.len() implies u64_nats(st.execution.public_output@)[k] == noun_leaves(n)[k] by {
            assert(st.execution.public_output@[k] == z[outs[k] as int]);
            assert(nw[outs[k] as int] == w[outs[k] as int]@);
        }
    }
}

fn secrets_ok(secrets: &[u64]) -> (b: bool)
    ensures
        b == (secrets@.len() <= 4096 && all_canonical(secrets@)),
{
    if secrets.len() > 4096 {
        return false;
    }
    let mut i: usize = 0;
    while i < secrets.len()
        invariant
            i <= secrets@.len(),
            forall|j: int| 0 <= j < i ==> #[trigger] secrets@[j] < P,
        decreases secrets@.len() - i,
    {
        if secrets[i] >= P {
            return false;
        }
        i = i + 1;
    }
    true
}

/// Compute the private columns of an execution on the prover: the public
/// statement (outputs and cycles read from the witness), its verifier data,
/// and every witness column as an integer.
pub fn prepare_execution(
    program: &ExecutionNoun,
    input: &[u64],
    secrets: &[u64],
    budget: u64,
    tables: HashTables,
) -> (r: Result<(PrivateStatement, PreparedExecution, Vec<u64>), String>)
    ensures
        !(secrets@.len() <= 4096 && all_canonical(secrets@)) ==> (r matches Err(e) && e@ == "invalid private input bounds or field encoding"@),
        secrets@.len() <= 4096 && all_canonical(secrets@) && encode_error(*program, 0, 0) == Some(true) ==> (r matches Err(e) && e@
            == "program size/depth limit"@),
        secrets@.len() <= 4096 && all_canonical(secrets@) && encode_error(*program, 0, 0) == Some(false) ==> (r matches Err(e) && e@
            == "noncanonical program atom"@),
        r matches Ok(t) ==> execution_prepared(*program, input@, secrets@, budget, t.0, t.1, t.2@),
        r matches Ok(t) ==> computes(&t.1.relation, *program, input_shape_spec(input@.len())),
        r matches Ok(t) ==> all_canonical(t.2@),
{
    if !secrets_ok(secrets) {
        return Err(String::from_str("invalid private input bounds or field encoding"));
    }
    let tokens = ExecutionStatement::encode_program(program)?;
    let mut public_input: Vec<u64> = Vec::new();
    let mut i: usize = 0;
    while i < input.len()
        invariant
            i <= input@.len(),
            public_input@ == input@.take(i as int),
        decreases input@.len() - i,
    {
        public_input.push(input[i]);
        proof {
            assert(input@.take(i + 1) =~= input@.take(i as int).push(input@[i as int]));
        }
        i = i + 1;
    }
    proof {
        assert(input@.take(input@.len() as int) =~= input@);
    }
    let mut execution = ExecutionStatement {
        program: tokens,
        public_input,
        public_output: Vec::new(),
        cycles: 0,
        budget,
    };
    let relation = execution.relation(tables)?;
    proof {
        crate::execution::decode::lemma_encoded_programs_decode(*program);
        assert(encode_spec(*program) == execution.program@);
        assert(computes(&relation, *program, input_shape_spec(input@.len())));
    }
    let inputs = execution.inputs();
    let mut fsecrets: Vec<Goldilocks> = Vec::new();
    let mut i: usize = 0;
    while i < secrets.len()
        invariant
            i <= secrets@.len(),
            fsecrets@.len() == i,
            all_canonical(secrets@),
            forall|j: int| 0 <= j < i ==> #[trigger] fsecrets@[j]@ == secrets@[j] as nat,
        decreases secrets@.len() - i,
    {
        proof {
            vstd::arithmetic::div_mod::lemma_small_mod(secrets@[i as int] as nat, modulus());
        }
        fsecrets.push(Goldilocks::new(secrets[i]));
        i = i + 1;
    }
    let witness = match relation.witness_with_secrets(inputs.as_slice(), fsecrets.as_slice()) {
        Ok(w) => w,
        Err(_) => {
            return Err(String::from_str("private execution witness stream does not match the program"));
        },
    };
    if !relation.instance.is_satisfied_by(&witness) {
        return Err(String::from_str("private execution constraints failed"));
    }
    let ghost zn = crate::ccs::universal::nats(witness.z@);
    let mut z: Vec<u64> = Vec::new();
    let mut t: usize = 0;
    while t < witness.z.len()
        invariant
            t <= witness.z@.len(),
            zn == crate::ccs::universal::nats(witness.z@),
            z@.len() == t,
            forall|j: int| 0 <= j < t ==> #[trigger] z@[j] as nat == zn[j],
            forall|j: int| 0 <= j < t ==> #[trigger] z@[j] < P,
        decreases witness.z@.len() - t,
    {
        z.push(witness.z[t].as_u64());
        t = t + 1;
    }
    proof {
        assert(u64_nats(z@) =~= zn);
        assert(u64_nats(secrets@) =~= crate::ccs::universal::nats(fsecrets@));
        assert(crate::ccs::universal::nats(inputs@) =~= field_nats(inputs@));
    }
    let mut outputs: Vec<u64> = Vec::new();
    let mut k: usize = 0;
    while k < relation.output_indices.len()
        invariant
            k <= relation.output_indices@.len(),
            relation.wf(),
            z@.len() == relation.instance.num_cols,
            outputs@.len() == k,
            forall|j: int| 0 <= j < k ==> #[trigger] outputs@[j] == z@[relation.output_indices@[j] as int],
        decreases relation.output_indices@.len() - k,
    {
        outputs.push(z[relation.output_indices[k]]);
        k = k + 1;
    }
    execution.public_output = outputs;
    execution.cycles = z[relation.cost_index];
    let statement = PrivateStatement { execution };
    statement.execution.validate_bounds()?;
    let m = statement.execution.bindings(&relation)?;
    let public_coordinates = to_u64_coords(&m);
    proof {
        assert(inputs_spec(&statement.execution) == field_nats(inputs@));
        assert(statement.execution.program@ == encode_spec(*program));
        assert(statement.execution.public_input@ == input@);
        assert(runs(&relation, inputs_spec(&statement.execution), u64_nats(secrets@), u64_nats(z@)));
        assert(crate::ccs::universal::nats(witness.z@) == u64_nats(z@));
        assert(relation.instance.satisfied(witness.z@));
    }
    let prepared = PreparedExecution { relation, public_coordinates };
    proof {
        assert(prepared_for(&statement.execution, &prepared));
    }
    Ok((statement, prepared, z))
}

} // verus!
