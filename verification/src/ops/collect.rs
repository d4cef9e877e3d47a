//! Walking a syntax tree and producing the mutants it admits.
pub mod alike;
pub mod candidate;
pub mod collector;
pub mod defaults;
pub mod definitions;
pub mod laws;
pub mod proper;
pub mod sense;
pub mod shape;
pub mod stated;
pub mod traversal;

pub use candidate::Candidate;
pub use defaults::Defaults;
pub use definitions::into_definitions;
pub use shape::Shape;
pub use stated::check as check_stated;
pub use traversal::{check_stated_and_collect_with, collect, collect_in, collect_with};
