//! An embedded configuration/data language: a tokenizer, a recursive-descent
//! parser building an append-only AST heap with interned atoms, and a fluent
//! query API for reading typed values out of a parsed document.

pub mod ast;
pub mod atoms;
pub mod error;
pub mod file;
pub mod laws;
pub mod numbers;
pub mod parser;
pub mod query;
pub mod registry;
pub mod token;
pub mod tokenizer;
