//! Look bindings, authenticated state reads, the root layout and formulas.
use zheng::ccs::look::{build_look_steps_from_trace, LookOpening, RootChain};
use zheng::ccs::root::{root_iv, RootLeaves, ROOT_TAG};
use zheng::ccs::selector::is_satisfied;
use zheng::ccs::verifier_steps::{eq_step, OpeningView};
use zheng::execution::relation::ExecutionNoun as Noun;
use zheng::execution::relation_builder::PublicStateTables;
use zheng::execution::state_prepare;
use zheng::execution::statement::{PublicLookup, StateStatement};
use zheng::execution::tagged::builder::HashTables;
use zheng::field::Goldilocks;
use zheng::formula::{parse, tokenize, Token};
use zheng::types::CommitError;

fn g(v: u64) -> Goldilocks {
    Goldilocks::new(v)
}

fn commitment() -> [u8; 32] {
    let mut c = [0u8; 32];
    c[0] = 1;
    c[8] = 2;
    c[16] = 3;
    c[24] = 4;
    c
}

fn opening(ns: usize, value: u64) -> LookOpening {
    LookOpening {
        commitment: commitment(),
        point: vec![g(0), g(1)],
        value: g(value),
        opening: OpeningView::Other,
        transcript_seed: b"look".to_vec(),
        leaves: RootLeaves::solo(ns, [g(1), g(2), g(3), g(4)]),
        namespace: g(ns as u64),
    }
}

fn chain() -> RootChain {
    RootChain { steps: vec![eq_step(g(9), g(9))], root: [g(5), g(6), g(7), g(8)] }
}

fn look_row(ns: u64, idx: u64, value: u64) -> [u64; 16] {
    let mut r = [0u64; 16];
    r[0] = 17;
    r[4] = 5;
    r[5] = ns;
    r[6] = idx;
    r[7] = value;
    r[11] = 6;
    r[12] = 7;
    r[13] = 8;
    r
}

#[test]
fn look_rows_bind_value_point_leaf_chain_and_root() {
    let trace = vec![[0u64; 16], look_row(2, 2, 30)];
    let steps = build_look_steps_from_trace(&trace, &[opening(2, 30)], vec![chain()]).unwrap();
    // value, two point bits, four leaf limbs, one chain row, four root limbs
    assert_eq!(steps.len(), 12);
    for (u, w) in &steps {
        assert!(is_satisfied(u, w));
    }
}

#[test]
fn a_shared_root_chain_is_bound_once() {
    let trace = vec![look_row(2, 2, 30), look_row(2, 2, 30)];
    let steps =
        build_look_steps_from_trace(&trace, &[opening(2, 30), opening(2, 30)], vec![chain(), chain()]).unwrap();
    assert_eq!(steps.len(), 12 + 11);
}

#[test]
fn look_refusals() {
    let trace = vec![look_row(2, 2, 30)];
    assert!(matches!(build_look_steps_from_trace(&trace, &[], vec![]), Err(CommitError::TraceOverflow)));
    // the value nox read is not the opened value
    let wrong = vec![look_row(2, 2, 31)];
    assert!(matches!(build_look_steps_from_trace(&wrong, &[opening(2, 30)], vec![chain()]), Err(CommitError::LookBinding)));
    // the cell index disagrees with the point
    let moved = vec![look_row(2, 1, 30)];
    assert!(matches!(build_look_steps_from_trace(&moved, &[opening(2, 30)], vec![chain()]), Err(CommitError::LookBinding)));
    // the namespace leaf is not the commitment
    let other_ns = vec![look_row(3, 2, 30)];
    assert!(matches!(build_look_steps_from_trace(&other_ns, &[opening(2, 30)], vec![chain()]), Err(CommitError::LookBinding)));
    let out_of_range = vec![look_row(11, 2, 30)];
    assert!(matches!(build_look_steps_from_trace(&out_of_range, &[opening(2, 30)], vec![chain()]), Err(CommitError::LookBinding)));
    // a chain row that does not hold
    let broken = RootChain { steps: vec![eq_step(g(1), g(2))], root: [g(5), g(6), g(7), g(8)] };
    assert!(matches!(build_look_steps_from_trace(&trace, &[opening(2, 30)], vec![broken]), Err(CommitError::LookBinding)));
    // no look rows, nothing to bind
    assert!(build_look_steps_from_trace(&[[0u64; 16]], &[], vec![]).unwrap().is_empty());
}

#[test]
fn root_layout_and_tag() {
    assert_eq!(ROOT_TAG, u64::from_le_bytes(*b"bbg-root"));
    let iv = root_iv();
    assert_eq!(iv, [g(ROOT_TAG), g(0), g(0), g(0)]);
    let leaves = RootLeaves::solo(4, [g(1), g(2), g(3), g(4)]);
    let ordered = leaves.ordered();
    assert_eq!(ordered[4], [g(1), g(2), g(3), g(4)]);
    for (i, leaf) in ordered.iter().enumerate() {
        if i != 4 {
            assert_eq!(*leaf, [g(0); 4]);
        }
    }
}

fn a(v: u64) -> Noun {
    Noun::Atom(v)
}
fn p(x: Noun, y: Noun) -> Noun {
    Noun::Pair(Box::new(x), Box::new(y))
}
fn q(v: u64) -> Noun {
    p(a(1), a(v))
}
fn op(t: u64, x: Noun, y: Noun) -> Noun {
    p(a(t), p(x, y))
}
fn tables() -> HashTables {
    HashTables { external: [[Goldilocks::zero(); 16]; 16], diag: [Goldilocks::zero(); 16], round_constants: [0u64; 144] }
}

fn state() -> PublicStateTables {
    let mut dimensions: [Vec<Goldilocks>; 10] = Default::default();
    dimensions[2] = (0..12).map(|i| if i == 11 { g(42) } else { g(0) }).collect();
    PublicStateTables { root: [g(1), g(2), g(3), g(4)], dimensions }
}

#[test]
fn state_reads_are_bound_to_the_answers() {
    // (look 2 11) * 3
    let program = op(7, op(17, q(2), q(11)), q(3));
    let t = state();
    let (private, _prep, _z) = state_prepare::prepare_execution(&program, &[], &[], 1000, true, &t, tables()).unwrap();
    assert_eq!(private.execution.public_output, vec![126]);
    assert_eq!(private.execution.cycles, 5);
    let st = StateStatement {
        execution: private.execution.clone(),
        state_root: [1, 2, 3, 4],
        context: [0; 32],
        root_in_subject: true,
        reads: vec![PublicLookup { active: true, namespace: 2, key: 11, value: 42 }],
    };
    let rel = st.relation(tables()).unwrap();
    assert_eq!(rel.lookups.len(), 1);
    assert!(st.bindings(&rel, &[Some(42)]).is_ok());
    assert_eq!(st.bindings(&rel, &[Some(43)]).unwrap_err(), "state cell authentication failed");
    assert_eq!(st.bindings(&rel, &[]).unwrap_err(), "state cell authentication failed");
    let mut inactive = st.clone();
    inactive.reads[0].active = false;
    assert_eq!(inactive.bindings(&rel, &[Some(42)]).unwrap_err(), "inactive lookup carries data");
    let mut none = st.clone();
    none.reads.clear();
    assert_eq!(none.bindings(&rel, &[]).unwrap_err(), "state lookup count mismatch");
    let mut output = st.clone();
    output.execution.public_output = vec![];
    assert_eq!(output.bindings(&rel, &[Some(42)]).unwrap_err(), "output shape does not match program");
}

#[test]
fn formulas_tokenize() {
    assert_eq!(tokenize("[1  22]").unwrap(), vec![Token::Open, Token::Num(1), Token::Num(22), Token::Close]);
    assert_eq!(tokenize("").unwrap(), vec![]);
    assert_eq!(tokenize("[1 x]").unwrap_err(), "unexpected character 'x' in formula");
    assert_eq!(
        tokenize("99999999999999999999").unwrap_err(),
        "bad number '99999999999999999999': number too large to fit in target type"
    );
}

#[test]
fn formulas_parse_to_right_nested_pairs() {
    assert_eq!(parse("[1 2 3]").unwrap(), p(a(1), p(a(2), a(3))));
    assert_eq!(parse("[15 [1 42]]").unwrap(), p(a(15), p(a(1), a(42))));
    assert_eq!(parse("7").unwrap(), a(7));
    // atoms are reduced into the field
    assert_eq!(parse("18446744069414584322").unwrap(), a(1));
    assert_eq!(parse("[1]").unwrap_err(), "a bracket pair needs at least two elements");
    assert_eq!(parse("[1 2").unwrap_err(), "unterminated '['");
    assert_eq!(parse("]").unwrap_err(), "unexpected ']'");
    assert_eq!(parse("").unwrap_err(), "empty formula");
    assert_eq!(parse("1 2").unwrap_err(), "unexpected trailing tokens after position 1");
    let deep = format!("{}1 2{}", "[".repeat(70), "]".repeat(70));
    assert_eq!(parse(&deep).unwrap_err(), "formula nesting too deep");
}
