//! Statements: program decoding, relations, public coordinates and
//! private preparation.
use zheng::execution::prepare::{decimal, prepare_execution};
use zheng::execution::relation::ExecutionNoun as Noun;
use zheng::execution::relation::SubjectShape;
use zheng::execution::relation_compile::{compile_relation_with_state, LookupProvider};
use zheng::execution::relation_builder::PublicStateTables;
use zheng::execution::state_prepare;
use zheng::execution::statement::{ExecutionStatement, NounToken, PrivateStatement, PrivateStateStatement, PublicLookup, StateStatement};
use zheng::execution::tagged::builder::HashTables;
use zheng::field::Goldilocks;
use zheng::types::CCSWitness;

fn a(x: u64) -> Noun {
    Noun::Atom(x)
}
fn p(a: Noun, b: Noun) -> Noun {
    Noun::Pair(Box::new(a), Box::new(b))
}
fn axis(x: u64) -> Noun {
    p(a(0), a(x))
}
fn quote(x: u64) -> Noun {
    p(a(1), a(x))
}
fn op(t: u64, x: Noun, y: Noun) -> Noun {
    p(a(t), p(x, y))
}
fn tables() -> HashTables {
    HashTables { external: [[Goldilocks::zero(); 16]; 16], diag: [Goldilocks::zero(); 16], round_constants: [0u64; 144] }
}
fn statement(program: Vec<NounToken>, input: Vec<u64>, output: Vec<u64>, cycles: u64, budget: u64) -> ExecutionStatement {
    ExecutionStatement { program, public_input: input, public_output: output, cycles, budget }
}

#[test]
fn program_noun_decodes_what_encode_program_encodes() {
    let n = op(5, axis(2), p(quote(7), a(3)));
    let tokens = ExecutionStatement::encode_program(&n).unwrap();
    let st = statement(tokens.clone(), vec![], vec![], 0, 0);
    let back = st.program_noun().unwrap();
    assert_eq!(ExecutionStatement::encode_program(&back).unwrap(), tokens);
}

#[test]
fn program_noun_rejects_malformed_prefixes() {
    assert!(statement(vec![], vec![], vec![], 0, 0).program_noun().is_err());
    assert_eq!(statement(vec![NounToken::Pair], vec![], vec![], 0, 0).program_noun().unwrap_err(), "malformed program prefix");
    assert_eq!(
        statement(vec![NounToken::Atom(1), NounToken::Atom(2)], vec![], vec![], 0, 0).program_noun().unwrap_err(),
        "trailing program tokens"
    );
    assert_eq!(
        statement(vec![NounToken::Atom(u64::MAX)], vec![], vec![], 0, 0).program_noun().unwrap_err(),
        "noncanonical program atom"
    );
    let mut deep = vec![NounToken::Pair; 129];
    deep.extend(vec![NounToken::Atom(0); 130]);
    assert_eq!(statement(deep, vec![], vec![], 0, 0).program_noun().unwrap_err(), "program depth limit");
}

#[test]
fn decimal_texts() {
    assert_eq!(decimal(0), "0");
    assert_eq!(decimal(1234), "1234");
    assert_eq!(decimal(u64::MAX), u64::MAX.to_string());
}

fn add_program() -> Noun {
    // the head of the subject plus seven
    op(5, axis(2), quote(7))
}

#[test]
fn statement_relation_checks_bounds_and_budget() {
    let tokens = ExecutionStatement::encode_program(&add_program()).unwrap();
    let ok = statement(tokens.clone(), vec![3], vec![10], 0, 1000);
    let rel = ok.relation(tables()).unwrap();
    assert_eq!(rel.input_indices.len(), 2);
    assert!(rel.max_cost <= 1000);
    let bad = statement(tokens.clone(), vec![u64::MAX], vec![], 0, 1000);
    assert_eq!(bad.relation(tables()).err().unwrap(), "invalid public statement bounds or field values");
    let over = statement(tokens.clone(), vec![3], vec![], 5, 4);
    assert!(over.relation(tables()).is_err());
    // the budget bounds the cycles claimed, not the worst-case cost
    let poor = statement(tokens, vec![3], vec![], 0, 0);
    assert!(poor.relation(tables()).unwrap().max_cost > 0);
}

fn branch(test: Noun, yes: Noun, no: Noun) -> Noun {
    p(a(4), p(test, p(yes, no)))
}

#[test]
fn selected_branch_cost_can_fit_below_worst_case() {
    let program = branch(axis(2), quote(7), p(a(8), quote(2)));
    let (statement, prepared, witness) = prepare_execution(&program, &[0], &[], 3, tables()).unwrap();
    assert_eq!(statement.execution.cycles, 3);
    assert!(prepared.relation.max_cost > 3);
    assert_eq!(statement.execution.public_output, [7]);
    assert!(prepare_execution(&program, &[0], &[], 2, tables()).is_err());
    assert!(prepare_execution(&program, &[1], &[], 3, tables()).is_err());
    assert!(prepare_execution(&program, &[1], &[], 67, tables()).is_ok());
    let mut forged = CCSWitness { z: witness.into_iter().map(Goldilocks::new).collect() };
    forged.z[prepared.relation.cost_index] = forged.z[prepared.relation.cost_index].sub(Goldilocks::one());
    assert!(!prepared.relation.instance.is_satisfied_by(&forged));
}

#[test]
fn inputs_are_reversed_with_a_trailing_zero() {
    let st = statement(vec![NounToken::Atom(0)], vec![1, 2, 3], vec![], 0, 0);
    let v = st.inputs();
    assert_eq!(v, vec![Goldilocks::new(3), Goldilocks::new(2), Goldilocks::new(1), Goldilocks::zero()]);
}

#[test]
fn prepare_execution_reads_outputs_and_cycles_from_the_witness() {
    let (st, prep, z) = prepare_execution(&add_program(), &[3], &[], 1000, tables()).unwrap();
    assert_eq!(st.execution.public_output, vec![10]);
    assert!(st.execution.cycles > 0 && st.execution.cycles <= 1000);
    assert_eq!(z.len(), prep.relation.instance.num_cols);
    assert_eq!(z[0], 1);
    let coords = &prep.public_coordinates;
    assert!(coords.windows(2).all(|w| w[0].0 < w[1].0));
    assert!(coords.contains(&(prep.relation.cost_index, st.execution.cycles)));
    assert!(coords.contains(&(prep.relation.output_indices[0], 10)));
    let again = st.prepare(tables()).unwrap();
    assert_eq!(again.public_coordinates, prep.public_coordinates);
    assert_eq!(
        prepare_execution(&add_program(), &[3], &[u64::MAX], 1000, tables()).err().unwrap(),
        "invalid private input bounds or field encoding"
    );
}

#[test]
fn bindings_refuse_mismatched_outputs_and_conflicts() {
    let (st, prep, _) = prepare_execution(&add_program(), &[3], &[], 1000, tables()).unwrap();
    let mut wrong = st.execution.clone();
    wrong.public_output = vec![];
    assert_eq!(wrong.bindings(&prep.relation).unwrap_err(), "output shape does not match program");
    let mut other = st.execution.clone();
    other.public_output = vec![11];
    let coords = other.bindings(&prep.relation).unwrap();
    assert!(coords.contains(&(prep.relation.output_indices[0], Goldilocks::new(11))));
    let private = PrivateStatement { execution: other };
    assert!(private.prepare(tables()).is_ok());
}

fn state_tables() -> PublicStateTables {
    let mut dimensions: [Vec<Goldilocks>; 10] = Default::default();
    dimensions[2] = vec![Goldilocks::new(40), Goldilocks::new(41)];
    PublicStateTables { root: [Goldilocks::new(1), Goldilocks::new(2), Goldilocks::new(3), Goldilocks::new(4)], dimensions }
}

#[test]
fn state_statements_put_the_root_in_the_subject_head() {
    let tokens = ExecutionStatement::encode_program(&axis(2)).unwrap();
    let st = StateStatement {
        execution: statement(tokens.clone(), vec![9], vec![], 0, 1000),
        state_root: [1, 2, 3, 4],
        context: [0; 32],
        root_in_subject: true,
        reads: vec![],
    };
    let v = st.inputs();
    assert_eq!(v.len(), 6);
    assert_eq!(v[0], Goldilocks::new(1));
    assert_eq!(v[4], Goldilocks::new(9));
    let rel = st.relation(tables()).unwrap();
    assert_eq!(rel.input_indices.len(), 6);
    let mut bad = st.clone();
    bad.state_root[0] = u64::MAX;
    assert_eq!(bad.relation(tables()).err().unwrap(), "invalid state execution bounds");
    let mut reads = st.clone();
    reads.reads = vec![PublicLookup { active: false, namespace: 0, key: 0, value: 0 }];
    assert_eq!(reads.bindings(&rel, &[]).unwrap_err(), "state lookup count mismatch");
}

#[test]
fn private_state_preparation_requires_the_tables_root() {
    let program = axis(2);
    let t = state_tables();
    let (st, _prep, z) = state_prepare::prepare_execution(&program, &[5], &[], 1000, false, &t, tables()).unwrap();
    assert_eq!(st.root, [1, 2, 3, 4]);
    assert_eq!(st.execution.public_output, vec![5]);
    assert_eq!(z[0], 1);
    let wrong = PrivateStateStatement { execution: st.execution.clone(), root: [9, 9, 9, 9], root_in_subject: false };
    assert_eq!(wrong.relation(&t, tables()).err().unwrap(), "private state root mismatch");
    assert_eq!(
        state_prepare::prepare_execution(&program, &[5], &[u64::MAX], 1000, false, &t, tables()).err().unwrap(),
        "invalid private witness stream"
    );
}

#[test]
fn table_provider_answers_only_under_its_root() {
    let t = state_tables();
    let provider = state_prepare::TablesProvider { tables: &t };
    assert_eq!(provider.cell(t.root, Goldilocks::new(2), Goldilocks::new(1)), Some(Goldilocks::new(41)));
    assert_eq!(provider.cell(t.root, Goldilocks::new(2), Goldilocks::new(2)), None);
    assert_eq!(provider.cell(t.root, Goldilocks::new(10), Goldilocks::new(0)), None);
    let other = [Goldilocks::zero(); 4];
    assert_eq!(provider.cell(other, Goldilocks::new(2), Goldilocks::new(0)), None);
}

#[test]
fn table_lookups_answer_the_cell_and_big_tables_are_refused() {
    let t = state_tables();
    let mut provider = state_prepare::TablesProvider { tables: &t };
    assert_eq!(provider.lookup(t.root, Goldilocks::new(2), Goldilocks::new(0)), Some(Goldilocks::new(40)));
    assert_eq!(provider.lookup(t.root, Goldilocks::new(2), Goldilocks::new(5)), None);
    let mut big = state_tables();
    big.dimensions[3] = vec![Goldilocks::zero(); 2049];
    let r = compile_relation_with_state(&axis(2), &SubjectShape::Atom, &big, tables());
    assert!(matches!(r, Err(zheng::execution::relation::RelationError::Limit)));
    let tokens = ExecutionStatement::encode_program(&axis(2)).unwrap();
    let st = PrivateStateStatement { execution: statement(tokens, vec![5], vec![5], 0, 1000), root: [1, 2, 3, 4], root_in_subject: false };
    assert_eq!(st.prepare(&big, tables()).err().unwrap(), "unsupported private state relation: Limit");
    assert_eq!(st.prepare(&t, tables()).unwrap().relation.input_indices.len(), 2);
    let mut none = st.clone();
    none.execution.public_output = vec![];
    assert_eq!(none.prepare(&t, tables()).err().unwrap(), "output shape does not match program");
}

#[test]
fn transcripts_tell_statements_apart() {
    let base = statement(vec![NounToken::Pair, NounToken::Atom(1), NounToken::Atom(2)], vec![3], vec![4], 5, 6);
    let mut variants = vec![base.clone()];
    let mut v = base.clone();
    v.program = vec![NounToken::Pair, NounToken::Atom(1), NounToken::Atom(3)];
    variants.push(v);
    let mut v = base.clone();
    v.public_input = vec![];
    v.public_output = vec![3, 4];
    variants.push(v);
    let mut v = base.clone();
    v.cycles = 6;
    v.budget = 5;
    variants.push(v);
    let mut v = base.clone();
    v.public_output = vec![4, 0];
    variants.push(v);
    for i in 0..variants.len() {
        for j in 0..variants.len() {
            assert_eq!(variants[i].transcript_bytes() == variants[j].transcript_bytes(), i == j);
        }
    }
}
