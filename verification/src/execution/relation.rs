//! Nouns, subject shapes and errors of the symbolic nox compilers.
use crate::field::P;
use vstd::prelude::*;

verus! {

/// A nox noun: an atom or an ordered pair of nouns.
#[derive(Debug)]
pub enum ExecutionNoun {
    Atom(u64),
    Pair(Box<ExecutionNoun>, Box<ExecutionNoun>),
}

/// The topology of a subject, without its atom values.
#[derive(Debug)]
pub enum SubjectShape {
    Atom,
    Pair(Box<SubjectShape>, Box<SubjectShape>),
}

/// Why a relation could not be compiled or a witness could not be built.
#[derive(Clone, Debug, PartialEq, Eq)]
pub enum RelationError {
    Unsupported(&'static str),
    Malformed,
    NonCanonical,
    Limit,
    InputCount,
    SecretCount,
    LookupUnavailable,
}

impl Clone for ExecutionNoun {
    fn clone(&self) -> (r: Self)
        ensures
            r == *self,
        decreases self,
    {
        match self {
            ExecutionNoun::Atom(x) => ExecutionNoun::Atom(*x),
            ExecutionNoun::Pair(a, b) => ExecutionNoun::Pair(Box::new((**a).clone()), Box::new((**b).clone())),
        }
    }
}

impl PartialEq for ExecutionNoun {
    fn eq(&self, other: &Self) -> (r: bool)
        decreases self,
    {
        match (self, other) {
            (ExecutionNoun::Atom(x), ExecutionNoun::Atom(y)) => *x == *y,
            (ExecutionNoun::Pair(a, b), ExecutionNoun::Pair(c, d)) => (**a).eq(&**c) && (**b).eq(&**d),
            _ => false,
        }
    }
}

impl vstd::std_specs::cmp::PartialEqSpecImpl for ExecutionNoun {
    open spec fn obeys_eq_spec() -> bool {
        true
    }

    open spec fn eq_spec(&self, other: &Self) -> bool {
        *self == *other
    }
}

impl Eq for ExecutionNoun {}

impl Clone for SubjectShape {
    fn clone(&self) -> (r: Self)
        ensures
            r == *self,
        decreases self,
    {
        match self {
            SubjectShape::Atom => SubjectShape::Atom,
            SubjectShape::Pair(a, b) => SubjectShape::Pair(Box::new((**a).clone()), Box::new((**b).clone())),
        }
    }
}

impl PartialEq for SubjectShape {
    fn eq(&self, other: &Self) -> (r: bool)
        decreases self,
    {
        match (self, other) {
            (SubjectShape::Atom, SubjectShape::Atom) => true,
            (SubjectShape::Pair(a, b), SubjectShape::Pair(c, d)) => (**a).eq(&**c) && (**b).eq(&**d),
            _ => false,
        }
    }
}

impl vstd::std_specs::cmp::PartialEqSpecImpl for SubjectShape {
    open spec fn obeys_eq_spec() -> bool {
        true
    }

    open spec fn eq_spec(&self, other: &Self) -> bool {
        *self == *other
    }
}

impl Eq for SubjectShape {}

impl ExecutionNoun {
    /// Number of nodes (atoms and pairs) of the noun.
    pub open spec fn size(&self) -> nat
        decreases self,
    {
        match self {
            ExecutionNoun::Atom(_) => 1,
            ExecutionNoun::Pair(a, b) => 1 + a.size() + b.size(),
        }
    }

    /// Every atom is a canonical field element.
    pub open spec fn canonical(&self) -> bool
        decreases self,
    {
        match self {
            ExecutionNoun::Atom(x) => *x < P,
            ExecutionNoun::Pair(a, b) => a.canonical() && b.canonical(),
        }
    }

    /// Nesting depth: an atom has depth 0.
    pub open spec fn depth(&self) -> nat
        decreases self,
    {
        match self {
            ExecutionNoun::Atom(_) => 0,
            ExecutionNoun::Pair(a, b) => 1 + vstd::math::max(a.depth() as int, b.depth() as int) as nat,
        }
    }
}

impl SubjectShape {
    /// Number of atoms (input slots) of the shape.
    pub open spec fn leaves(&self) -> nat
        decreases self,
    {
        match self {
            SubjectShape::Atom => 1,
            SubjectShape::Pair(a, b) => a.leaves() + b.leaves(),
        }
    }

    /// Number of nodes of the shape.
    pub open spec fn size(&self) -> nat
        decreases self,
    {
        match self {
            SubjectShape::Atom => 1,
            SubjectShape::Pair(a, b) => 1 + a.size() + b.size(),
        }
    }

    /// Nesting depth: an atom has depth 0.
    pub open spec fn depth(&self) -> nat
        decreases self,
    {
        match self {
            SubjectShape::Atom => 0,
            SubjectShape::Pair(a, b) => 1 + vstd::math::max(a.depth() as int, b.depth() as int) as nat,
        }
    }
}

} // verus!
