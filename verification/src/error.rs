//! Lowering errors: a kind and the source span of the offending node.
use vstd::prelude::*;
use crate::ast::Span;

verus! {

#[derive(Clone, Copy, PartialEq, Eq, Structural, Debug)]
pub enum ErrorKind {
    /// An implication condition has a disallowed top-level shape
    /// (a disjunction, an implication, or an if-then-else).
    IllegalClause,
    /// A named variable occurs that no enclosing binder declares.
    UnknownVariable,
    /// The surface text does not parse.
    Syntax,
}

#[derive(Clone, Copy, PartialEq, Eq, Structural, Debug)]
pub struct Error {
    pub kind: ErrorKind,
    pub span: Span,
}

pub type LowerResult<T> = Result<T, Error>;

} // verus!
