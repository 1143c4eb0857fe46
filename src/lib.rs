//! A reversible imperative language: tokens, syntax trees, a recursive-descent
//! parser, a structural statement inverter and a reversible evaluator.
pub mod ast;
pub mod token;
pub mod value;
pub mod module;
pub mod eval;
pub mod parse;
pub mod repl;
pub mod laws;
