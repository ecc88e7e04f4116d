//! The typed errors the resolution and unification engines return.
//!
//! Failures classified as "not found" are recoverable: a caller tries its
//! next candidate scope or strategy before surfacing them.  Every other
//! kind aborts the current resolution attempt at once.

use vstd::prelude::*;

use crate::ty::Type;

verus! {

/// A typed check error.
#[derive(Debug)]
pub enum TyCheckError {
    /// An expected and a found type that cannot be reconciled, with
    /// best-effort candidate suggestions.
    TypeMismatch { expected: Type, found: Type, candidates: Vec<Type> },
    /// A name bound nowhere in the scope chain, with a best-effort
    /// similar-name suggestion.
    NoSuchVariable { name: String, similar: Option<String> },
    /// An attribute the object's type does not define, with a best-effort
    /// similar-name suggestion.
    NoSuchAttribute { name: String, similar: Option<String> },
    /// An access that the binding's declared visibility forbids.
    VisibilityViolation { name: String },
    /// More positional arguments than the callee's parameters can take.
    TooManyArguments { expected: usize, given: usize },
    /// Fewer positional arguments than the callee's non-default
    /// parameters, naming the parameters left unbound.
    MissingArguments { missing_len: usize, missing: Vec<String> },
    /// One named parameter bound twice in the same call.
    DuplicateArgument { name: String },
    /// A keyword argument naming no declared parameter.
    UnexpectedKeywordArgument { name: String },
    /// Several unrelated definitions of a method name with no common type.
    AmbiguousMethod { candidates: Vec<Type> },
    /// A match whose arm patterns do not cover the matched expression's
    /// type.
    MatchArmMismatch { target: Type },
    /// A callee whose type is not callable.
    NotCallable { found: Type },
}

impl TyCheckError {
    /// Whether the failure means only "not found", so that a caller may
    /// try its next candidate before surfacing it.
    pub fn is_name_error(&self) -> (r: bool)
        ensures
            r == (*self is NoSuchVariable || *self is NoSuchAttribute),
    {
        matches!(
            self,
            TyCheckError::NoSuchVariable { .. } | TyCheckError::NoSuchAttribute { .. }
        )
    }
}

} // verus!
