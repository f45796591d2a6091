//! A formula-lowering engine: it converts a surface-syntax logic program
//! (facts, implications, conjunctions, disjunctions, negation, quantifiers,
//! wildcard variables) into a canonical Goal representation for a downstream
//! resolution engine, preserving binding structure exactly.
pub mod ast;
pub mod environment;
pub mod error;
pub mod goal;
pub mod lower_application;
pub mod lower_clause;
pub mod lower_goal;
pub mod lower_program;
pub mod parser;
pub mod render;
