//! Word operations of the tagged kernel against their native meaning.
use zheng::execution::relation::{ExecutionNoun as Noun, SubjectShape};
use zheng::execution::tagged::builder::HashTables;
use zheng::execution::tagged::{compile, TaggedRelation};
use zheng::field::Goldilocks;

fn a(x: u64) -> Noun {
    Noun::Atom(x)
}
fn p(a: Noun, b: Noun) -> Noun {
    Noun::Pair(Box::new(a), Box::new(b))
}
fn axis(x: u64) -> Noun {
    p(a(0), a(x))
}
fn op(t: u64, x: Noun, y: Noun) -> Noun {
    p(a(t), p(x, y))
}
fn shape(n: &Noun) -> SubjectShape {
    match n {
        Noun::Atom(_) => SubjectShape::Atom,
        Noun::Pair(a, b) => SubjectShape::Pair(Box::new(shape(a)), Box::new(shape(b))),
    }
}
fn inputs(n: &Noun) -> Vec<u64> {
    match n {
        Noun::Atom(x) => vec![*x],
        Noun::Pair(a, b) => {
            let mut v = inputs(a);
            v.extend(inputs(b));
            v
        }
    }
}
fn tables() -> HashTables {
    HashTables {
        external: [[Goldilocks::zero(); 16]; 16],
        diag: [Goldilocks::zero(); 16],
        round_constants: [0u64; 144],
    }
}

/// Compile, build the witness and check it against the expected output.
/// The formulas here have no branch, so their native cost is the maximal
/// cost.
fn check(f: &Noun, n: &Noun, expected: &Noun) -> TaggedRelation {
    let r = compile(f, &shape(n), tables()).unwrap();
    let x = inputs(n);
    let cost = r.max_cost;
    let w = r.witness(&x).unwrap();
    assert!(r.verify_witness(&x, expected, cost, cost, &w));
    if cost > 0 {
        assert!(!r.verify_witness(&x, expected, cost, cost - 1, &w));
    }
    assert!(!r.verify_witness(&x, expected, cost + 1, cost + 1, &w));
    let mut bad = w.clone();
    bad.z[r.cost] = bad.z[r.cost].add(Goldilocks::one());
    assert!(!r.instance.is_satisfied_by(&bad));
    let mut bad = w;
    bad.z[r.output.value] = bad.z[r.output.value].add(Goldilocks::one());
    assert!(!r.instance.is_satisfied_by(&bad));
    r
}

#[test]
fn words_match_native_xor_and_not_and_full_shift_amount() {
    let values = [0, 1, 31, 32, 0x8000_0000, 0xffff_ffff];
    for x in values {
        let r = check(&p(a(13), axis(1)), &a(x), &a((!x) & 0xffff_ffff));
        assert_eq!(r.max_cost, 33);
        for y in values {
            for (tag, expected) in [
                (11, x ^ y),
                (12, x & y),
                (14, if y >= 32 { 0 } else { (x << y) & 0xffff_ffff }),
            ] {
                let r = check(&op(tag, axis(2), axis(3)), &p(a(x), a(y)), &a(expected));
                assert_eq!(r.max_cost, 34);
            }
        }
    }
    for shift in [0, 1, 31, 32, 33, 63, 64, u32::MAX as u64] {
        let x = 0xffff_ffff;
        check(
            &op(14, axis(2), axis(3)),
            &p(a(x), a(shift)),
            &a(if shift >= 32 { 0 } else { (x << shift) & 0xffff_ffff }),
        );
    }
}
