//! The tree-walking interpreter and its model.
pub mod builtins;
pub mod error;
pub mod interpreter;
pub mod number;
pub mod operators;
pub mod scope;
pub mod semantics;
