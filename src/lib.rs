//! A small dynamically typed expression language: scanning source text into
//! tokens, recursive-descent parsing into an expression tree, and tree-walking
//! evaluation to a runtime value.
pub mod ast;
pub mod errors;
pub mod interpreter;
pub mod parser;
pub mod scanner;
pub mod token;
