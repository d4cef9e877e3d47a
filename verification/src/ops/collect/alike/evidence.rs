//! What files that are alike say of their names.
use crate::cfg::Build;
use crate::ops::collect::collector::indexes::{declaring_fields, evidence_of, using, using_all, Evidence, Wanted};
use crate::ops::collect::collector::predicates::digits;
use crate::syntax::query::path_ident;
use crate::syntax::tree::{Kind, Node, Op};
use super::{group_same, same, same_all, same_opt};
use super::attributes::alike_skips;
use super::forms::{alike_digits, alike_is_left_alone, alike_is_numeric_type_node, alike_path_ident};
use vstd::prelude::*;

verus! {

/// `constant` does not depend on where constructs lie.
pub(crate) broadcast proof fn alike_constant(own: Evidence, name: Seq<char>, ty: Option<Node>, ty2: Option<Node>)
    requires
        same_opt(ty, ty2),
    ensures
        #[trigger] own.constant(name, ty) == #[trigger] own.constant(name, ty2),
{
    broadcast use {group_same, alike_is_numeric_type_node};
}

/// `declaring_fields` does not depend on where constructs lie.
pub(crate) broadcast proof fn alike_declaring_fields(
    known: Map<Seq<char>, bool>,
    fields: Seq<Node>,
    fields2: Seq<Node>,
    cfg: Build,
)
    requires
        same_all(fields, fields2),
    ensures
        #[trigger] declaring_fields(known, fields, cfg) == #[trigger] declaring_fields(known, fields2, cfg),
    decreases fields.len(),
{
    broadcast use {group_same, alike_skips, alike_is_numeric_type_node};
    if fields.len() > 0 {
        alike_declaring_fields(known, fields.drop_last(), fields2.drop_last(), cfg);
    }
}

/// `used` does not depend on where constructs lie.
pub(crate) broadcast proof fn alike_used(own: Evidence, e: Node, e2: Node)
    requires
        same(e, e2),
    ensures
        #[trigger] own.used(e) == #[trigger] own.used(e2),
    decreases e,
{
    broadcast use {group_same, alike_path_ident};
    if e.kids@.len() > 0 {
        alike_used(own, e.kids@[0], e2.kids@[0]);
    }
    assert(same_opt(e.first_of(0), e2.first_of(0)));
    if e.kids@.len() == 2 {
        assert(same(e.kids@[1], e2.kids@[1]));
        assert(path_ident(e.kids@[1]) == path_ident(e2.kids@[1]));
    }
}

/// `operands` does not depend on where constructs lie.
pub(crate) broadcast proof fn alike_operands(own: Evidence, left: Node, left2: Node, op: Op, right: Node, right2: Node)
    requires
        same(left, left2),
        same(right, right2),
    ensures
        #[trigger] own.operands(left, op, right) == #[trigger] own.operands(left2, op, right2),
{
    broadcast use {group_same, alike_used, alike_digits};
    alike_used(own, left, left2);
    alike_used(own, right, right2);
    alike_used(own.used(left), right, right2);
    assert(digits(left) == digits(left2) && digits(right) == digits(right2));
}

/// `counting` does not depend on where constructs lie.
pub(crate) broadcast proof fn alike_counting(own: Evidence, node: Node, node2: Node, cfg: Build)
    requires
        same(node, node2),
    ensures
        #[trigger] own.counting(node, cfg) == #[trigger] own.counting(node2, cfg),
{
    broadcast use {group_same, alike_declaring_fields, alike_used, alike_constant, alike_operands};
    assert(same_opt(node.kid(1), node2.kid(1)) && same_opt(node.kid(2), node2.kid(2)));
    alike_declaring_fields(own.fields, node.all_of(2), node2.all_of(2), cfg);
    alike_constant(own, node.word(0), node.kid(2), node2.kid(2));
    alike_constant(own, node.word(0), node.kid(1), node2.kid(1));
    assert(node.word(0) == node2.word(0) && node.word(1) == node2.word(1));
    if node.kids@.len() == 3 {
        assert(same(node.kids@[0], node2.kids@[0]) && same(node.kids@[1], node2.kids@[1]) && same(node.kids@[2], node2.kids@[2]));
        if let Kind::Operator(op) = node.kids@[1].kind {
            alike_operands(own, node.kids@[0], node2.kids@[0], op, node.kids@[2], node2.kids@[2]);
        }
    }
    if node.kids@.len() > 0 {
        assert(same(node.kids@[0], node2.kids@[0]));
        alike_used(own, node.kids@[0], node2.kids@[0]);
    }
    if let Some(index) = node.kid(1) {
        alike_used(own, index, node2.kid(1)->0);
    }
    if node.kids@.len() == 4 {
        assert(same(node.kids@[1], node2.kids@[1]) && same(node.kids@[2], node2.kids@[2]));
    }
}

/// `using_all` does not depend on where constructs lie.
pub(crate) broadcast proof fn alike_indexes_using_all(
    known: Map<Seq<char>, Option<Seq<Seq<char>>>>,
    prefix: Seq<Seq<char>>,
    trees: Seq<Node>,
    trees2: Seq<Node>,
)
    requires
        same_all(trees, trees2),
    ensures
        #[trigger] using_all(known, prefix, trees) == #[trigger] using_all(known, prefix, trees2),
    decreases trees,
{
    broadcast use group_same;
    if trees.len() > 0 {
        let before = using_all(known, prefix, trees.drop_last());
        alike_indexes_using_all(known, prefix, trees.drop_last(), trees2.drop_last());
        alike_indexes_using(before, prefix, trees.last(), trees2.last());
    }
}

/// `using` does not depend on where constructs lie.
pub(crate) broadcast proof fn alike_indexes_using(
    known: Map<Seq<char>, Option<Seq<Seq<char>>>>,
    prefix: Seq<Seq<char>>,
    tree: Node,
    tree2: Node,
)
    requires
        same(tree, tree2),
    ensures
        #[trigger] using(known, prefix, tree) == #[trigger] using(known, prefix, tree2),
    decreases tree,
{
    broadcast use group_same;
    if tree.kids@.len() == 2 {
        alike_indexes_using(known, prefix.push(tree.word(0)), tree.kids@[1], tree2.kids@[1]);
    }
    alike_indexes_using_all(known, prefix, tree.kids@, tree2.kids@);
    assert(tree.word(0) == tree2.word(0) && tree.word(1) == tree2.word(1));
}

/// `noting` does not depend on where constructs lie.
pub(crate) broadcast proof fn alike_noting(own: Evidence, node: Node, node2: Node, wanted: Wanted, cfg: Build)
    requires
        same(node, node2),
    ensures
        #[trigger] own.noting(node, wanted, cfg) == #[trigger] own.noting(node2, wanted, cfg),
{
    broadcast use {group_same, alike_counting, alike_indexes_using};
    assert(same_opt(node.kid(0), node2.kid(0)));
    if let Some(tree) = node.kid(0) {
        alike_indexes_using(own.imports, Seq::empty(), tree, node2.kid(0)->0);
    }
    alike_counting(own, node, node2, cfg);
}

/// `reading_all` does not depend on where constructs lie.
pub(crate) broadcast proof fn alike_reading_all(own: Evidence, nodes: Seq<Node>, nodes2: Seq<Node>, wanted: Wanted, cfg: Build)
    requires
        same_all(nodes, nodes2),
    ensures
        #[trigger] own.reading_all(nodes, wanted, cfg) == #[trigger] own.reading_all(nodes2, wanted, cfg),
    decreases nodes,
{
    broadcast use group_same;
    if nodes.len() > 0 {
        let before = own.reading_all(nodes.drop_last(), wanted, cfg);
        alike_reading_all(own, nodes.drop_last(), nodes2.drop_last(), wanted, cfg);
        alike_reading(before, nodes.last(), nodes2.last(), wanted, cfg);
    }
}

/// `reading` does not depend on where constructs lie.
pub(crate) broadcast proof fn alike_reading(own: Evidence, node: Node, node2: Node, wanted: Wanted, cfg: Build)
    requires
        same(node, node2),
    ensures
        #[trigger] own.reading(node, wanted, cfg) == #[trigger] own.reading(node2, wanted, cfg),
    decreases node,
{
    broadcast use {group_same, alike_is_left_alone, alike_noting};
    node.lemma_inside();
    alike_is_left_alone(node, node2, cfg);
    alike_noting(own, node, node2, wanted, cfg);
    let noted = own.noting(node, wanted, cfg);
    alike_reading_all(noted, node.attrs@, node2.attrs@, wanted, cfg);
    alike_reading_all(noted.reading_all(node.attrs@, wanted, cfg), node.inside(), node2.inside(), wanted, cfg);
}

/// `evidence_of` does not depend on where constructs lie.
pub(crate) broadcast proof fn alike_evidence_of(file: Node, file2: Node, selection: Set<Seq<char>>, cfg: Build)
    requires
        same(file, file2),
    ensures
        #[trigger] evidence_of(file, selection, cfg) == #[trigger] evidence_of(file2, selection, cfg),
{
    broadcast use {group_same, alike_reading};
}

} // verus!
