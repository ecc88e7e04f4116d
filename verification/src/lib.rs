//! Core of a type checker for a language with structural and nominal
//! subtyping, bidirectional inference and parametric polymorphism.
//!
//! The crate is organised around two engines:
//!
//! * the free-type-variable and constraint engine ([`free`], [`solver`]):
//!   lazily resolved type placeholders with subtype bounds, stored in an
//!   arena of shared slots, tightened by subtype-directed unification;
//! * the resolution and call-binding engine ([`context`], [`inquire`]):
//!   lexical scope chains holding variable, type and trait-implementation
//!   tables, attribute and method lookup across them, generic call
//!   substitution, and specificity ordering of overlapping supertypes.

pub mod ty;
pub mod free;
pub mod names;
pub mod context;
pub mod error;
pub mod solver;
pub mod inquire;
