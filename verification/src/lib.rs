//! Mutation testing for Rust source: which mutants a file admits, and how they are compiled in.
pub mod cfg;
pub mod error;
pub mod lexer;
pub mod model;
pub mod ops;
pub mod parse;
pub mod schema;
pub mod syntax;
pub mod table;
pub mod text;
