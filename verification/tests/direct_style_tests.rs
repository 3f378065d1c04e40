//! Direct-proof relation checks and terminal styling.
use zheng::execution::direct::{coordinates, valid_polynomials, validate, DirectError};
use zheng::field::Goldilocks;
use zheng::style::{banner, help, paint, GR, R, X};
use zheng::types::{CCSInstance, SparseMatrix, SumcheckPoly};

fn relation() -> (CCSInstance, Vec<(usize, Goldilocks)>) {
    // The public output z[3] must equal public input z[1] times z[2].
    let mut a = SparseMatrix::new(4, 64);
    let mut b = a.clone();
    let mut c = a.clone();
    a.set(0, 1, Goldilocks::one());
    b.set(0, 2, Goldilocks::one());
    c.set(0, 3, Goldilocks::one());
    a.set(1, 2, Goldilocks::one());
    b.set(1, 0, Goldilocks::one());
    c.set(1, 0, Goldilocks::new(7));
    let instance = CCSInstance {
        matrices: vec![a, b, c],
        multisets: vec![vec![0, 1], vec![2]],
        coeffs: vec![Goldilocks::one(), Goldilocks::one().neg()],
        num_rows: 4,
        num_cols: 64,
    };
    (instance, vec![(1, Goldilocks::new(6)), (3, Goldilocks::new(42))])
}

#[test]
fn rejects_invalid_relation_dimensions_and_public_indices() {
    let (mut instance, public) = relation();
    assert_eq!(validate(&instance, &public), Ok(3));
    assert_eq!(validate(&instance, &[(0, Goldilocks::one())]), Err(DirectError::InvalidPublicCoordinates));
    assert_eq!(
        validate(&instance, &[(1, Goldilocks::one()), (1, Goldilocks::one())]),
        Err(DirectError::InvalidPublicCoordinates)
    );
    assert_eq!(validate(&instance, &[(64, Goldilocks::one())]), Err(DirectError::InvalidPublicCoordinates));
    instance.num_cols = 63;
    assert_eq!(validate(&instance, &public), Err(DirectError::InvalidRelation));
    instance.num_cols = 64;
    instance.matrices[0].entries[0][0].0 = 64;
    assert_eq!(validate(&instance, &public), Err(DirectError::InvalidRelation));
}

#[test]
fn relation_structure_limits() {
    let (mut instance, public) = relation();
    instance.multisets[1] = vec![3];
    assert_eq!(validate(&instance, &public), Err(DirectError::InvalidRelation));
    let (mut instance, public) = relation();
    instance.coeffs.pop();
    assert_eq!(validate(&instance, &public), Err(DirectError::InvalidRelation));
    let (mut instance, public) = relation();
    instance.multisets[0] = vec![0; 17];
    assert_eq!(validate(&instance, &public), Err(DirectError::InvalidRelation));
    instance.multisets[0] = vec![0; 16];
    assert_eq!(validate(&instance, &public), Ok(17));
    let (mut instance, public) = relation();
    instance.num_rows = 3;
    assert_eq!(validate(&instance, &public), Err(DirectError::InvalidRelation));
}

#[test]
fn coordinates_pin_the_constant_first() {
    let c = coordinates(&[(2, Goldilocks::new(5))]);
    assert_eq!(c, vec![(0, Goldilocks::one()), (2, Goldilocks::new(5))]);
}

#[test]
fn round_polynomials_must_have_the_expected_shape() {
    let p = SumcheckPoly { degree: 2, coeffs: vec![Goldilocks::zero(); 3] };
    assert!(valid_polynomials(&[p.clone(), p.clone()], 2, 2));
    assert!(!valid_polynomials(&[p.clone()], 2, 2));
    let q = SumcheckPoly { degree: 3, coeffs: vec![Goldilocks::zero(); 3] };
    assert!(!valid_polynomials(&[p, q], 2, 2));
    assert_eq!(DirectError::InvalidProof.message(), "direct execution proof: InvalidProof");
}

#[test]
fn paint_wraps_only_when_colored() {
    assert_eq!(paint(false, R, "x"), "x");
    assert_eq!(paint(true, R, "x"), format!("{R}x{X}"));
}

#[test]
fn banner_and_help_carry_the_mark_and_commands() {
    let plain = banner(false);
    assert!(plain.starts_with('\n'));
    assert!(plain.contains("SuperSpartan"));
    assert!(!plain.contains('\x1b'));
    let colored = banner(true);
    assert!(colored.contains(R));
    assert!(colored.contains(GR));
    let h = help(false);
    assert!(h.starts_with(&plain));
    assert!(h.contains("zheng prove <file>"));
    assert!(h.ends_with("2 usage error\n"));
}

#[test]
fn plain_text_has_no_color_and_help_starts_with_the_banner() {
    for c in [false, true] {
        assert!(zheng::style::help(c).starts_with(&zheng::style::banner(c)));
        assert!(zheng::style::banner(c).starts_with('\n'));
        assert!(zheng::style::banner(c).ends_with("sub-ms verify\n") || c);
    }
    assert!(!zheng::style::help(false).contains('\x1b'));
    assert!(!zheng::style::banner(false).contains('\x1b'));
}
