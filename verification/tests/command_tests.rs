//! Option flags, decimal numbers, opening counts and the zero statement.
use zheng::command::{opening_pattern_counts, parse_u64, take, zero_statement, NumberError, Opts};
use zheng::commit::commit_checks;
use zheng::types::CommitError;

fn args(v: &[&str]) -> Vec<String> {
    v.iter().map(|s| s.to_string()).collect()
}

#[test]
fn decimal_numbers_read_as_from_str_does() {
    assert_eq!(parse_u64("0"), Ok(0));
    assert_eq!(parse_u64("+17"), Ok(17));
    assert_eq!(parse_u64("18446744073709551615"), Ok(u64::MAX));
    for s in ["", "+", "-1", "1x", " 1", "18446744073709551616", "99999999999999999999x", "1x99999999999999999999"] {
        let ours = parse_u64(s).map_err(|e| e.message().to_string());
        let std = s.parse::<u64>().map_err(|e| e.to_string());
        assert_eq!(ours, std, "{s:?}");
    }
    assert_eq!(parse_u64(""), Err(NumberError::Empty));
    assert_eq!(parse_u64("18446744073709551616"), Err(NumberError::PosOverflow));
}

#[test]
fn flags_are_read_in_order() {
    let o = Opts::parse(&args(&["-e", "[1 2]", "--object", "7", "--budget", "+9", "-o", "out.tape"])).unwrap();
    assert_eq!(o.formula.as_deref(), Some("[1 2]"));
    assert_eq!(o.object, 7);
    assert_eq!(o.budget, 9);
    assert_eq!(o.output.as_deref(), Some("out.tape"));
    let d = Opts::parse(&[]).unwrap();
    assert_eq!((d.formula, d.object, d.budget, d.output), (None, 0, 1_000_000, None));
    let later = Opts::parse(&args(&["--output", "a", "-o", "b"])).unwrap();
    assert_eq!(later.output.as_deref(), Some("b"));
}

#[test]
fn flag_errors() {
    assert_eq!(Opts::parse(&args(&["-e"])).err().unwrap(), "-e requires a value");
    assert_eq!(Opts::parse(&args(&["--output"])).err().unwrap(), "-o requires a value");
    assert_eq!(Opts::parse(&args(&["--budget"])).err().unwrap(), "--budget requires a value");
    assert_eq!(Opts::parse(&args(&["--object", "x"])).err().unwrap(), "bad --object: invalid digit found in string");
    assert_eq!(Opts::parse(&args(&["--budget", ""])).err().unwrap(), "bad --budget: cannot parse integer from empty string");
    assert_eq!(Opts::parse(&args(&["-x"])).err().unwrap(), "unexpected argument '-x'");
}

#[test]
fn take_advances_onto_the_value() {
    let a = args(&["-e", "v"]);
    let mut i = 0;
    assert_eq!(take(&a, &mut i, "-e").unwrap(), "v");
    assert_eq!(i, 1);
    assert_eq!(take(&a, &mut i, "-e").unwrap_err(), "-e requires a value");
    assert_eq!(i, 2);
}

#[test]
fn opening_rows_are_counted_by_tag() {
    let mut rows = vec![[0u64; 16]; 5];
    rows[1][0] = 15;
    rows[2][0] = 17;
    rows[3][0] = 17;
    rows[4][0] = 5;
    assert_eq!(opening_pattern_counts(&rows), (1, 1, 2));
    assert_eq!(opening_pattern_counts(&[]), (0, 0, 0));
}

#[test]
fn the_zero_statement() {
    let s = zero_statement();
    assert_eq!(s.program_hash, [0u8; 32]);
    assert_eq!(s.input_hash, [0u8; 32]);
    assert_eq!(s.output_hash, [0u8; 32]);
    assert_eq!(s.focus_bound, 0);
    assert_eq!(s.bbg_root, [0u8; 32]);
}

#[test]
fn commit_statement_checks() {
    let mut s = zero_statement();
    assert!(commit_checks(10, Some([1; 32]), Some([2; 32]), 0, 0, &s).is_ok());
    s.focus_bound = 5;
    assert!(matches!(commit_checks(10, None, None, 0, 0, &s), Err(CommitError::FocusExhausted)));
    assert!(commit_checks(5, None, None, 0, 0, &s).is_ok());
    s.input_hash = [7; 32];
    assert!(matches!(commit_checks(5, Some([1; 32]), Some([1; 32]), 0, 0, &s), Err(CommitError::StatementMismatch)));
    assert!(commit_checks(5, Some([7; 32]), Some([1; 32]), 0, 0, &s).is_ok());
    s.output_hash = [9; 32];
    assert!(matches!(commit_checks(5, Some([7; 32]), Some([1; 32]), 0, 0, &s), Err(CommitError::StatementMismatch)));
    assert!(commit_checks(5, Some([7; 32]), Some([9; 32]), 0, 0, &s).is_ok());
    assert!(matches!(commit_checks(5, Some([7; 32]), Some([9; 32]), 1, 0, &s), Err(CommitError::UnsupportedRecursiveOpening)));
    assert!(matches!(commit_checks(0, None, None, 0, 2, &s), Err(CommitError::UnsupportedRecursiveOpening)));
}
