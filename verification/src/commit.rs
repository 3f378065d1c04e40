//! The statement checks that come before a trace is folded: the focus
//! bound, the hashes of the first and last rows, and the refusal of
//! recursive openings.
use crate::types::{CommitError, Statement};
use vstd::prelude::*;

verus! {

/// Whether two 32-byte strings are equal.
fn bytes_eq(a: &[u8; 32], b: &[u8; 32]) -> (r: bool)
    ensures
        r == (a@ == b@),
{
    let mut i: usize = 0;
    while i < 32
        invariant
            i <= 32,
            forall|j: int| 0 <= j < i ==> a@[j] == b@[j],
        decreases 32 - i,
    {
        if a[i] != b[i] {
            return false;
        }
        i = i + 1;
    }
    assert(a@ =~= b@);
    true
}

/// All zero: a hash the statement leaves unchecked.
pub open spec fn is_zero_hash(h: [u8; 32]) -> bool {
    h@ == seq![0u8; 32]
}

/// Why a statement refuses a trace of `trace_len` rows whose first and
/// last rows hash to `first` and `last` (`None` for an empty trace), with
/// `n_axis` axis and `n_look` look openings; `None` when it accepts it.
pub open spec fn commit_checks_spec(
    trace_len: nat,
    first: Option<[u8; 32]>,
    last: Option<[u8; 32]>,
    n_axis: nat,
    n_look: nat,
    st: Statement,
) -> Option<CommitError> {
    if st.focus_bound > 0 && trace_len > st.focus_bound {
        Some(CommitError::FocusExhausted)
    } else if !is_zero_hash(st.input_hash) && (first matches Some(h) && h@ != st.input_hash@) {
        Some(CommitError::StatementMismatch)
    } else if !is_zero_hash(st.output_hash) && (last matches Some(h) && h@ != st.output_hash@) {
        Some(CommitError::StatementMismatch)
    } else if n_axis > 0 || n_look > 0 {
        Some(CommitError::UnsupportedRecursiveOpening)
    } else {
        None
    }
}

/// The statement checks of a commitment to a trace: the trace fits the
/// focus bound, the first and last rows hash to the statement's input and
/// output hashes where those are set, and no recursive opening is given.
pub fn commit_checks(
    trace_len: usize,
    first_row_hash: Option<[u8; 32]>,
    last_row_hash: Option<[u8; 32]>,
    n_axis: usize,
    n_look: usize,
    st: &Statement,
) -> (r: Result<(), CommitError>)
    ensures
        match commit_checks_spec(trace_len as nat, first_row_hash, last_row_hash, n_axis as nat, n_look as nat, *st) {
            None => r is Ok,
            Some(e) => r == Err::<(), CommitError>(e),
        },
{
    if st.focus_bound > 0 && trace_len as u64 > st.focus_bound {
        return Err(CommitError::FocusExhausted);
    }
    let zero = [0u8; 32];
    proof {
        assert(zero@ =~= seq![0u8; 32]);
    }
    if !bytes_eq(&st.input_hash, &zero) {
        if let Some(h) = first_row_hash {
            if !bytes_eq(&h, &st.input_hash) {
                return Err(CommitError::StatementMismatch);
            }
        }
    }
    if !bytes_eq(&st.output_hash, &zero) {
        if let Some(h) = last_row_hash {
            if !bytes_eq(&h, &st.output_hash) {
                return Err(CommitError::StatementMismatch);
            }
        }
    }
    if n_axis > 0 || n_look > 0 {
        return Err(CommitError::UnsupportedRecursiveOpening);
    }
    Ok(())
}

} // verus!
