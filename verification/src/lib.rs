//! A statically typed Lisp: its abstract syntax, scoped environments,
//! static type checker and tree-walking evaluator, with their contracts.
pub mod ast;
pub mod env;
pub mod error;
pub mod eval;
pub mod interpreter;
pub mod laws;
pub mod operator_laws;
pub mod safety;
pub mod semantics;
pub mod soundness;
pub mod table;
pub mod text;
pub mod typecheck;
pub mod types;
pub mod typing;
pub mod well_typed;

