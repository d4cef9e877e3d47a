//! The construct a mutation site is.
use vstd::prelude::*;

verus! {

/// What kind of construct a mutation site is.
///
/// This decides how a guard can be wrapped around it: Rust will not accept the same guard text in
/// every position, so the shape travels with the mutant all the way to instrumentation.
#[derive(Clone, Copy, Debug, PartialEq, Eq, Structural)]
pub enum Shape {
    /// An expression, guarded by a parenthesized `if`/`else` yielding one of two values.
    ///
    /// The parentheses matter: a bare `if` in condition position is rejected, and without them
    /// the guard would rebind precedence against whatever operator encloses the site.
    Expr,
    /// A block that must stay a block, such as a function body.
    Block,
    /// A function body returning `impl Iterator`, where both arms are wrapped in a variant of
    /// `gamma_rt::Either` so that they share one type.
    IterBlock,
    /// A `continue` replaced with `break`, which stays behind as the tail of the guarded block.
    Continue,
    /// A `break` replaced with `continue`, which stays behind as the tail of the guarded block.
    Break,
    /// A whole statement, which the mutant deletes.
    Stmt,
    /// A match arm's pattern, which the mutant stops from matching by a guard that is false.
    Arm,
}

} // verus!
