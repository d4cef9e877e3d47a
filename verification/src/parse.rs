//! Turning source text into a syntax tree with byte-accurate spans and comment trivia.
//!
//! Comments are trivia: they are not in the syntax tree at all, so they are found by scanning the
//! raw text, with a small lexer that knows about raw strings, escapes and the ambiguity between a
//! lifetime and a character literal.
pub mod comment;
pub mod laws;
pub mod lines;
pub mod nesting;
pub mod source_file;
pub mod strain;

pub use comment::{Comment, CommentKind};
pub use source_file::{exceeds_nesting_limit, strip_bom, without_bom, SourceFile, BOM};
