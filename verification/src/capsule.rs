//! Program capsules: what a nox program is, independent of its byte form.
use vstd::prelude::*;

verus! {

/// A nox program: formula text, object and budget. Re-executing it
/// deterministically reproduces its trace.
pub struct Program {
    pub formula: String,
    pub object: u64,
    pub budget: u64,
}

} // verus!
