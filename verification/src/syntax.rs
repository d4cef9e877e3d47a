//! Syntax: the tree a source text is read as.
//!
//! `syn` parses the text. What it hands back is lowered into one plain tree of the library's own,
//! whose nodes say what kind of construct they are, where they stand in the text, which attributes
//! are written on them and which parts they hold, in the order in which they are written.

pub mod lower;
pub mod outside;
pub mod query;
pub mod tree;

pub use tree::{Kind, Node, Op};
