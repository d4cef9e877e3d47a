//! Which code a walk over a file leaves alone.
use super::predicates::{expr_attrs, skips_expr, skips_stmt, stmt_attrs};
use crate::cfg::{Build, CfgSet};
use crate::syntax::{Kind, Node};
use vstd::prelude::*;

verus! {

/// Whether a configuration takes a construct, with everything beneath it, out of the population.
///
/// Conditional compilation is written on items and the items within them, on fields and on what a
/// literal gives them, on statements, on match arms and on expressions. Code that a false predicate strips is not in the build, and
/// test code measures nothing, so neither is looked at.
pub open spec fn is_left_alone(node: Node, cfg: Build) -> bool {
    match node.kind {
        Kind::Local | Kind::StmtMacro | Kind::StmtExpr { .. } => cfg.skips(stmt_attrs(node)),
        Kind::Field | Kind::Arm | Kind::FieldValue => cfg.skips(node.attrs@),
        _ => {
            ||| node.kind.is_item() && cfg.skips(node.attrs@)
            ||| node.kind.is_expr() && cfg.skips(expr_attrs(node))
        },
    }
}

/// Returns whether a configuration takes a construct out of the population.
pub fn leaves_alone(node: &Node, cfg: &CfgSet) -> (r: bool)
    ensures
        r == is_left_alone(*node, cfg@),
{
    match node.kind {
        Kind::Local | Kind::StmtMacro | Kind::StmtExpr { .. } => skips_stmt(cfg, node),
        Kind::Field | Kind::Arm | Kind::FieldValue => cfg.skip_gate(&node.attrs),
        _ => node.kind.names_item() && cfg.skip_gate(&node.attrs) || node.kind.names_expr() && skips_expr(cfg, node),
    }
}

} // verus!
