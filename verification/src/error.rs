//! Error reporting for catalog registration, expression typing and plan
//! construction. Every failure is reported synchronously at the point where
//! it arises; the optimizer never raises new error kinds.

use vstd::prelude::*;

verus! {

/// A planning failure, carrying enough context (the offending table, column
/// or function name) to reproduce it.
#[derive(Debug, Clone, PartialEq, Eq)]
pub enum PlanError {
    /// A column reference did not resolve, or resolved ambiguously across
    /// join inputs.
    UnknownColumn(String),
    /// A table name did not resolve in the catalog.
    UnknownTable(String),
    /// A function name did not resolve, or no overload accepts the argument
    /// types.
    UnknownFunction(String),
    /// Two overloads of a function tie under best-match resolution.
    AmbiguousFunction(String),
    /// Incompatible operand types, or a non-boolean predicate.
    TypeMismatch,
    /// A selected expression is neither aggregated nor part of the group key.
    GroupByMismatch,
    /// A catalog registration conflicts with an existing name.
    DuplicateName(String),
    /// Join or Union input schemas are not compatible.
    SchemaIncompatible,
}

/// The kind of a [`PlanError`], without the name it carries.
#[derive(Debug, Clone, Copy, PartialEq, Eq, Structural)]
pub enum ErrorKind {
    UnknownColumn,
    UnknownTable,
    UnknownFunction,
    AmbiguousFunction,
    TypeMismatch,
    GroupByMismatch,
    DuplicateName,
    SchemaIncompatible,
}

impl PlanError {
    /// The kind of this error.
    pub open spec fn spec_kind(self) -> ErrorKind {
        match self {
            PlanError::UnknownColumn(_) => ErrorKind::UnknownColumn,
            PlanError::UnknownTable(_) => ErrorKind::UnknownTable,
            PlanError::UnknownFunction(_) => ErrorKind::UnknownFunction,
            PlanError::AmbiguousFunction(_) => ErrorKind::AmbiguousFunction,
            PlanError::TypeMismatch => ErrorKind::TypeMismatch,
            PlanError::GroupByMismatch => ErrorKind::GroupByMismatch,
            PlanError::DuplicateName(_) => ErrorKind::DuplicateName,
            PlanError::SchemaIncompatible => ErrorKind::SchemaIncompatible,
        }
    }

    /// The kind of this error, for callers that only dispatch on it.
    pub fn kind(&self) -> (k: ErrorKind)
        ensures
            k == self.spec_kind(),
    {
        match self {
            PlanError::UnknownColumn(_) => ErrorKind::UnknownColumn,
            PlanError::UnknownTable(_) => ErrorKind::UnknownTable,
            PlanError::UnknownFunction(_) => ErrorKind::UnknownFunction,
            PlanError::AmbiguousFunction(_) => ErrorKind::AmbiguousFunction,
            PlanError::TypeMismatch => ErrorKind::TypeMismatch,
            PlanError::GroupByMismatch => ErrorKind::GroupByMismatch,
            PlanError::DuplicateName(_) => ErrorKind::DuplicateName,
            PlanError::SchemaIncompatible => ErrorKind::SchemaIncompatible,
        }
    }
}

} // verus!
