//! What is read off constructs that are alike.
use crate::cfg::Build;
use crate::ops::collect::collector::gate::is_left_alone;
use crate::ops::collect::collector::predicates::{
    all_arms_diverge, all_promotable, binding, boolean, breaks_with_value, called, called_name, called_type,
    capacity_result, catch_all, declared, default_call, default_callee, digits, diverging, diverging_block,
    diverging_macro, expr_attrs, holds_break, label, macro_name, produces_value, promotable, some_breaks_with_value,
    some_holds_break, stmt_attrs, textual,
};
use crate::ops::collect::collector::resolve::{
    argument, class_of, is_iterator_bound, is_numeric_type_node, output_class,
};
use crate::ops::collect::collector::tables::reorder;
use crate::ops::collect::defaults::Spellings;
use crate::syntax::query::{
    is_plain, last_arguments, last_name, path_ident, path_names, path_types, stripped, type_path, types_among,
};
use crate::syntax::tree::Node;
use super::{
    group_same, lemma_each, lemma_same, lemma_same_first_of, lemma_same_last, lemma_same_word, same, same_all,
    same_opt,
};
use super::attributes::alike_skips;
use vstd::prelude::*;

verus! {

/// `is_plain` does not depend on where constructs lie.
pub(crate) broadcast proof fn alike_is_plain(segment: Node, segment2: Node)
    requires
        same(segment, segment2),
    ensures
        #[trigger] is_plain(segment) == #[trigger] is_plain(segment2),
{
    broadcast use group_same;
}

/// `path_ident` does not depend on where constructs lie.
pub(crate) broadcast proof fn alike_path_ident(path: Node, path2: Node)
    requires
        same(path, path2),
    ensures
        #[trigger] path_ident(path) == #[trigger] path_ident(path2),
{
    broadcast use {group_same, alike_is_plain};
}

/// `last_name` does not depend on where constructs lie.
pub(crate) broadcast proof fn alike_last_name(path: Node, path2: Node)
    requires
        same(path, path2),
    ensures
        #[trigger] last_name(path) == #[trigger] last_name(path2),
{
    broadcast use group_same;
}

/// `label` does not depend on where constructs lie.
pub(crate) broadcast proof fn alike_label(node: Node, node2: Node)
    requires
        same(node, node2),
    ensures
        #[trigger] label(node) == #[trigger] label(node2),
{
    broadcast use group_same;
}

/// `expr_attrs` does not depend on where constructs lie.
pub(crate) broadcast proof fn alike_expr_attrs(e: Node, e2: Node)
    requires
        same(e, e2),
    ensures
        same_all(#[trigger] expr_attrs(e), #[trigger] expr_attrs(e2)),
{
    broadcast use group_same;
}

/// `stmt_attrs` does not depend on where constructs lie.
pub(crate) broadcast proof fn alike_stmt_attrs(statement: Node, statement2: Node)
    requires
        same(statement, statement2),
    ensures
        same_all(#[trigger] stmt_attrs(statement), #[trigger] stmt_attrs(statement2)),
{
    broadcast use {group_same, alike_expr_attrs};
}

/// `is_left_alone` does not depend on where constructs lie.
pub(crate) broadcast proof fn alike_is_left_alone(node: Node, node2: Node, cfg: Build)
    requires
        same(node, node2),
    ensures
        #[trigger] is_left_alone(node, cfg) == #[trigger] is_left_alone(node2, cfg),
{
    broadcast use {group_same, alike_stmt_attrs, alike_skips, alike_expr_attrs};
}

/// `last_arguments` does not depend on where constructs lie.
pub(crate) broadcast proof fn alike_last_arguments(path: Node, path2: Node)
    requires
        same(path, path2),
    ensures
        same_opt(#[trigger] last_arguments(path), #[trigger] last_arguments(path2)),
{
    broadcast use group_same;
}

/// `among` does not depend on where constructs lie.
pub(crate) broadcast proof fn alike_types_among(args: Seq<Node>, args2: Seq<Node>)
    requires
        same_all(args, args2),
    ensures
        same_all(#[trigger] types_among(args), #[trigger] types_among(args2)),
    decreases args.len(),
{
    broadcast use group_same;
    if args.len() > 0 {
        alike_types_among(args.drop_last(), args2.drop_last());
    }
}

/// `path_types` does not depend on where constructs lie.
pub(crate) broadcast proof fn alike_path_types(path: Node, path2: Node)
    requires
        same(path, path2),
    ensures
        same_all(#[trigger] path_types(path), #[trigger] path_types(path2)),
{
    broadcast use {group_same, alike_last_arguments, alike_types_among};
}

/// `is_iterator_bound` does not depend on where constructs lie.
pub(crate) broadcast proof fn alike_is_iterator_bound(bound: Node, bound2: Node)
    requires
        same(bound, bound2),
    ensures
        #[trigger] is_iterator_bound(bound) == #[trigger] is_iterator_bound(bound2),
{
    broadcast use {group_same, alike_last_name};
}

/// `type_path` does not depend on where constructs lie.
pub(crate) broadcast proof fn alike_type_path(ty: Node, ty2: Node)
    requires
        same(ty, ty2),
    ensures
        same_opt(#[trigger] type_path(ty), #[trigger] type_path(ty2)),
{
    broadcast use group_same;
}

/// `class_of` does not depend on where constructs lie.
pub(crate) broadcast proof fn alike_class_of(ty: Node, ty2: Node)
    requires
        same(ty, ty2),
    ensures
        #[trigger] class_of(ty) == #[trigger] class_of(ty2),
    decreases ty,
{
    broadcast use {group_same, alike_last_name, alike_path_types, alike_path_ident, alike_is_iterator_bound, alike_type_path};
    if ty.kids@.len() > 0 {
        alike_class_of(ty.kids@[0], ty2.kids@[0]);
    }
    assert(same_opt(type_path(ty), type_path(ty2)));
    if let Some(path) = type_path(ty) {
        let path2 = type_path(ty2)->0;
        assert(last_name(path) == last_name(path2));
        assert(path_types(path).len() == path_types(path2).len());
    }
    if let Some(elem) = ty.kid(0) {
        let elem2 = ty2.kid(0)->0;
        assert(same_opt(type_path(elem), type_path(elem2)));
        if let Some(path) = type_path(elem) {
            assert(path_ident(path) == path_ident(type_path(elem2)->0));
        }
    }
    assert forall|i: int| 0 <= i < ty.kids@.len() implies is_iterator_bound(#[trigger] ty.kids@[i]) == is_iterator_bound(ty2.kids@[i]) by {
    }
}

/// `is_numeric_type_node` does not depend on where constructs lie.
pub(crate) broadcast proof fn alike_is_numeric_type_node(ty: Node, ty2: Node)
    requires
        same(ty, ty2),
    ensures
        #[trigger] is_numeric_type_node(ty) == #[trigger] is_numeric_type_node(ty2),
    decreases ty,
{
    broadcast use {group_same, alike_class_of};
    assert forall|i: int| 0 <= i < ty.kids@.len()
        implies is_numeric_type_node(#[trigger] ty.kids@[i]) == is_numeric_type_node(ty2.kids@[i]) by {
        alike_is_numeric_type_node(ty.kids@[i], ty2.kids@[i]);
    }
}

/// `digits` does not depend on where constructs lie.
pub(crate) broadcast proof fn alike_digits(e: Node, e2: Node)
    requires
        same(e, e2),
    ensures
        #[trigger] digits(e) == #[trigger] digits(e2),
    decreases e,
{
    broadcast use group_same;
    assert forall|i: int| 0 <= i < e.kids@.len() implies digits(#[trigger] e.kids@[i]) == digits(e2.kids@[i]) by {
        alike_digits(e.kids@[i], e2.kids@[i]);
    }
}

/// `macro_name` does not depend on where constructs lie.
pub(crate) broadcast proof fn alike_macro_name(mac: Node, mac2: Node)
    requires
        same(mac, mac2),
    ensures
        #[trigger] macro_name(mac) == #[trigger] macro_name(mac2),
{
    broadcast use {group_same, alike_last_name};
}

/// `diverging_macro` does not depend on where constructs lie.
pub(crate) broadcast proof fn alike_diverging_macro(mac: Node, mac2: Node)
    requires
        same(mac, mac2),
    ensures
        #[trigger] diverging_macro(mac) == #[trigger] diverging_macro(mac2),
{
    broadcast use {group_same, alike_macro_name};
}

/// `some_holds_break` does not depend on where constructs lie.
pub(crate) broadcast proof fn alike_some_holds_break(nodes: Seq<Node>, nodes2: Seq<Node>)
    requires
        same_all(nodes, nodes2),
    ensures
        #[trigger] some_holds_break(nodes) == #[trigger] some_holds_break(nodes2),
    decreases nodes,
{
    broadcast use group_same;
    assert forall|i: int| 0 <= i < nodes.len() implies holds_break(#[trigger] nodes[i]) == holds_break(nodes2[i]) by {
        alike_holds_break(nodes[i], nodes2[i]);
    }
    if nodes.len() > 0 {
        alike_some_holds_break(nodes.drop_last(), nodes2.drop_last());
    }
}

/// `holds_break` does not depend on where constructs lie.
pub(crate) broadcast proof fn alike_holds_break(node: Node, node2: Node)
    requires
        same(node, node2),
    ensures
        #[trigger] holds_break(node) == #[trigger] holds_break(node2),
    decreases node,
{
    broadcast use group_same;
    node.lemma_inside();
    alike_some_holds_break(node.attrs@, node2.attrs@);
    alike_some_holds_break(node.inside(), node2.inside());
}

/// `diverging_block` does not depend on where constructs lie.
pub(crate) broadcast proof fn alike_diverging_block(block: Node, block2: Node)
    requires
        same(block, block2),
    ensures
        #[trigger] diverging_block(block) == #[trigger] diverging_block(block2),
    decreases block,
{
    lemma_same(block, block2);
    lemma_each(block.kids@, block2.kids@);
    if block.kids@.len() > 0 {
        let (a, b) = (block.kids@.last(), block2.kids@.last());
        assert(same(block.kids@[block.kids@.len() - 1], block2.kids@[block.kids@.len() - 1]));
        lemma_same(a, b);
        lemma_each(a.kids@, b.kids@);
        if a.kids@.len() > 0 {
            assert(same(a.kids@[0], b.kids@[0]));
            alike_diverging(a.kids@[0], b.kids@[0]);
            alike_diverging_macro(a.kids@[0], b.kids@[0]);
        }
    }
}

/// `diverging` does not depend on where constructs lie.
pub(crate) broadcast proof fn alike_diverging(e: Node, e2: Node)
    requires
        same(e, e2),
    ensures
        #[trigger] diverging(e) == #[trigger] diverging(e2),
    decreases e,
{
    lemma_same(e, e2);
    lemma_each(e.kids@, e2.kids@);
    if e.kids@.len() > 0 {
        let (a, b) = (e.kids@[0], e2.kids@[0]);
        assert(same(a, b));
        alike_diverging(a, b);
        alike_diverging_block(a, b);
        alike_diverging_macro(a, b);
    }
    if e.kids@.len() > 1 {
        let (a, b) = (e.kids@[1], e2.kids@[1]);
        assert(same(a, b));
        lemma_same(a, b);
        lemma_each(a.kids@, b.kids@);
        alike_diverging_block(a, b);
        alike_all_arms_diverge(a.kids@, b.kids@);
        alike_holds_break(a, b);
    }
    lemma_same_first_of(e, e2, 2);
    if let Some(otherwise) = e.first_of(2) {
        alike_diverging(otherwise, e2.first_of(2)->0);
    }
}

/// `all_arms_diverge` does not depend on where constructs lie.
pub(crate) broadcast proof fn alike_all_arms_diverge(arms: Seq<Node>, arms2: Seq<Node>)
    requires
        same_all(arms, arms2),
    ensures
        #[trigger] all_arms_diverge(arms) == #[trigger] all_arms_diverge(arms2),
    decreases arms,
{
    broadcast use group_same;
    assert forall|i: int| 0 <= i < arms.len() implies diverging(#[trigger] arms[i]) == diverging(arms2[i]) by {
        alike_diverging(arms[i], arms2[i]);
    }
    assert forall|i: int, j: int| 0 <= i < arms.len() && 0 <= j < arms[i].kids@.len()
        implies diverging(#[trigger] arms[i].kids@[j]) == diverging(arms2[i].kids@[j]) by {
        alike_diverging(arms[i].kids@[j], arms2[i].kids@[j]);
    }
    if arms.len() > 0 {
        alike_all_arms_diverge(arms.drop_last(), arms2.drop_last());
    }
}

/// `promotable` does not depend on where constructs lie.
pub(crate) broadcast proof fn alike_promotable(e: Node, e2: Node)
    requires
        same(e, e2),
    ensures
        #[trigger] promotable(e) == #[trigger] promotable(e2),
    decreases e,
{
    broadcast use group_same;
    assert forall|i: int| 0 <= i < e.kids@.len() implies promotable(#[trigger] e.kids@[i]) == promotable(e2.kids@[i]) by {
        alike_promotable(e.kids@[i], e2.kids@[i]);
    }
    alike_all_promotable(e.kids@, e2.kids@);
}

/// `all_promotable` does not depend on where constructs lie.
pub(crate) broadcast proof fn alike_all_promotable(nodes: Seq<Node>, nodes2: Seq<Node>)
    requires
        same_all(nodes, nodes2),
    ensures
        #[trigger] all_promotable(nodes) == #[trigger] all_promotable(nodes2),
    decreases nodes,
{
    broadcast use group_same;
    assert forall|i: int| 0 <= i < nodes.len() implies promotable(#[trigger] nodes[i]) == promotable(nodes2[i]) by {
        alike_promotable(nodes[i], nodes2[i]);
    }
    if nodes.len() > 0 {
        alike_all_promotable(nodes.drop_last(), nodes2.drop_last());
    }
}

/// `binding` does not depend on where constructs lie.
pub(crate) broadcast proof fn alike_binding(condition: Node, condition2: Node)
    requires
        same(condition, condition2),
    ensures
        #[trigger] binding(condition) == #[trigger] binding(condition2),
    decreases condition,
{
    broadcast use group_same;
    assert forall|i: int| 0 <= i < condition.kids@.len() implies binding(#[trigger] condition.kids@[i]) == binding(condition2.kids@[i]) by {
        alike_binding(condition.kids@[i], condition2.kids@[i]);
    }
}

/// `boolean` does not depend on where constructs lie.
pub(crate) broadcast proof fn alike_boolean(condition: Node, condition2: Node)
    requires
        same(condition, condition2),
    ensures
        #[trigger] boolean(condition) == #[trigger] boolean(condition2),
    decreases condition,
{
    broadcast use group_same;
    assert forall|i: int| 0 <= i < condition.kids@.len() implies boolean(#[trigger] condition.kids@[i]) == boolean(condition2.kids@[i]) by {
        alike_boolean(condition.kids@[i], condition2.kids@[i]);
    }
}

/// `some_breaks_with_value` does not depend on where constructs lie.
pub(crate) broadcast proof fn alike_some_breaks_with_value(
    nodes: Seq<Node>,
    nodes2: Seq<Node>,
    root: Option<Seq<char>>,
    nested: bool,
    shadowed: bool,
)
    requires
        same_all(nodes, nodes2),
    ensures
        #[trigger] some_breaks_with_value(nodes, root, nested, shadowed)
            == #[trigger] some_breaks_with_value(nodes2, root, nested, shadowed),
    decreases nodes,
{
    broadcast use group_same;
    if nodes.len() > 0 {
        alike_some_breaks_with_value(nodes.drop_last(), nodes2.drop_last(), root, nested, shadowed);
        alike_breaks_with_value(nodes.last(), nodes2.last(), root, nested, shadowed);
    }
}

/// `breaks_with_value` does not depend on where constructs lie.
pub(crate) broadcast proof fn alike_breaks_with_value(
    node: Node,
    node2: Node,
    root: Option<Seq<char>>,
    nested: bool,
    shadowed: bool,
)
    requires
        same(node, node2),
    ensures
        #[trigger] breaks_with_value(node, root, nested, shadowed) == #[trigger] breaks_with_value(node2, root, nested, shadowed),
    decreases node,
{
    lemma_same(node, node2);
    lemma_each(node.kids@, node2.kids@);
    node.lemma_inside();
    alike_label(node, node2);
    lemma_same_first_of(node, node2, 1);
    if node.kids@.len() > 0 {
        lemma_same_last(node.kids@, node2.kids@);
        alike_breaks_with_value(node.kids@.last(), node2.kids@.last(), root, true, shadowed || root is Some && label(node) == root);
    }
    alike_some_breaks_with_value(node.attrs@, node2.attrs@, root, nested, shadowed);
    alike_some_breaks_with_value(node.inside(), node2.inside(), root, nested, shadowed);
}

/// `called` does not depend on where constructs lie.
pub(crate) broadcast proof fn alike_called(callee: Node, callee2: Node)
    requires
        same(callee, callee2),
    ensures
        same_opt(#[trigger] called(callee), #[trigger] called(callee2)),
    decreases callee,
{
    broadcast use group_same;
    assert forall|i: int| 0 <= i < callee.kids@.len() implies same_opt(called(#[trigger] callee.kids@[i]), called(callee2.kids@[i])) by {
        alike_called(callee.kids@[i], callee2.kids@[i]);
    }
}

/// `called_name` does not depend on where constructs lie.
pub(crate) broadcast proof fn alike_called_name(callee: Node, callee2: Node)
    requires
        same(callee, callee2),
    ensures
        #[trigger] called_name(callee) == #[trigger] called_name(callee2),
{
    broadcast use {group_same, alike_called, alike_last_name};
}

/// `called_type` does not depend on where constructs lie.
pub(crate) broadcast proof fn alike_called_type(callee: Node, callee2: Node)
    requires
        same(callee, callee2),
    ensures
        #[trigger] called_type(callee) == #[trigger] called_type(callee2),
{
    broadcast use {group_same, alike_called};
}

/// `capacity_result` does not depend on where constructs lie.
pub(crate) broadcast proof fn alike_capacity_result(e: Node, e2: Node)
    requires
        same(e, e2),
    ensures
        #[trigger] capacity_result(e) == #[trigger] capacity_result(e2),
    decreases e,
{
    broadcast use {group_same, alike_called_name};
    assert forall|i: int| 0 <= i < e.kids@.len() implies capacity_result(#[trigger] e.kids@[i]) == capacity_result(e2.kids@[i]) by {
        alike_capacity_result(e.kids@[i], e2.kids@[i]);
    }
}

/// `catch_all` does not depend on where constructs lie.
pub(crate) broadcast proof fn alike_catch_all(pat: Node, pat2: Node)
    requires
        same(pat, pat2),
    ensures
        #[trigger] catch_all(pat) == #[trigger] catch_all(pat2),
    decreases pat,
{
    broadcast use group_same;
    assert forall|i: int| 0 <= i < pat.kids@.len() implies catch_all(#[trigger] pat.kids@[i]) == catch_all(pat2.kids@[i]) by {
        alike_catch_all(pat.kids@[i], pat2.kids@[i]);
    }
    assert forall|i: int, j: int| 0 <= i < pat.kids@.len() && 0 <= j < pat.kids@[i].kids@.len()
        implies catch_all(#[trigger] pat.kids@[i].kids@[j]) == catch_all(pat2.kids@[i].kids@[j]) by {
        alike_catch_all(pat.kids@[i].kids@[j], pat2.kids@[i].kids@[j]);
    }
}

/// `declared` does not depend on where constructs lie.
pub(crate) broadcast proof fn alike_declared(pat: Node, pat2: Node)
    requires
        same(pat, pat2),
    ensures
        #[trigger] declared(pat) == #[trigger] declared(pat2),
    decreases pat,
{
    broadcast use group_same;
    assert forall|i: int| 0 <= i < pat.kids@.len() implies declared(#[trigger] pat.kids@[i]) == declared(pat2.kids@[i]) by {
        alike_declared(pat.kids@[i], pat2.kids@[i]);
    }
    assert forall|i: int, j: int| 0 <= i < pat.kids@.len() && 0 <= j < pat.kids@[i].kids@.len()
        implies declared(#[trigger] pat.kids@[i].kids@[j]) == declared(pat2.kids@[i].kids@[j]) by {
        alike_declared(pat.kids@[i].kids@[j], pat2.kids@[i].kids@[j]);
    }
}

/// `path_names` does not depend on where constructs lie.
pub(crate) broadcast proof fn alike_path_names(path: Node, path2: Node)
    requires
        same(path, path2),
    ensures
        #[trigger] path_names(path) == #[trigger] path_names(path2),
{
    broadcast use group_same;
}

/// `default_callee` does not depend on where constructs lie.
pub(crate) broadcast proof fn alike_default_callee(path: Node, path2: Node, spellings: Spellings, defaulted: Seq<Seq<char>>)
    requires
        same(path, path2),
    ensures
        #[trigger] default_callee(path, spellings, defaulted) == #[trigger] default_callee(path2, spellings, defaulted),
{
    broadcast use {group_same, alike_path_names};
}

/// `default_call` does not depend on where constructs lie.
pub(crate) broadcast proof fn alike_default_call(e: Node, e2: Node, spellings: Spellings, defaulted: Seq<Seq<char>>)
    requires
        same(e, e2),
    ensures
        #[trigger] default_call(e, spellings, defaulted) == #[trigger] default_call(e2, spellings, defaulted),
    decreases e,
{
    broadcast use {group_same, alike_called, alike_default_callee};
    assert forall|i: int| 0 <= i < e.kids@.len()
        implies default_call(#[trigger] e.kids@[i], spellings, defaulted) == default_call(e2.kids@[i], spellings, defaulted) by {
        alike_default_call(e.kids@[i], e2.kids@[i], spellings, defaulted);
    }
    assert forall|i: int, j: int| 0 <= i < e.kids@.len() && 0 <= j < e.kids@[i].kids@.len()
        implies default_call(#[trigger] e.kids@[i].kids@[j], spellings, defaulted) == default_call(e2.kids@[i].kids@[j], spellings, defaulted) by {
        alike_default_call(e.kids@[i].kids@[j], e2.kids@[i].kids@[j], spellings, defaulted);
    }
}

/// `produces_value` does not depend on where constructs lie.
pub(crate) broadcast proof fn alike_produces_value(node: Node, node2: Node)
    requires
        same(node, node2),
    ensures
        #[trigger] produces_value(node) == #[trigger] produces_value(node2),
{
    broadcast use {group_same, alike_label, alike_breaks_with_value};
}

/// `textual` does not depend on where constructs lie.
pub(crate) broadcast proof fn alike_textual(e: Node, e2: Node)
    requires
        same(e, e2),
    ensures
        #[trigger] textual(e) == #[trigger] textual(e2),
    decreases e,
{
    lemma_same(e, e2);
    lemma_each(e.kids@, e2.kids@);
    lemma_same_word(e, e2, 1);
    if e.kids@.len() > 0 {
        let (a, b) = (e.kids@[0], e2.kids@[0]);
        assert(same(a, b));
        lemma_same(a, b);
        alike_textual(a, b);
        alike_called_type(a, b);
        alike_macro_name(a, b);
    }
    if e.kids@.len() == 3 {
        assert(same(e.kids@[1], e2.kids@[1]) && same(e.kids@[2], e2.kids@[2]));
        lemma_same(e.kids@[1], e2.kids@[1]);
        alike_textual(e.kids@[2], e2.kids@[2]);
    }
}

/// `stripped` does not depend on where constructs lie.
pub(crate) broadcast proof fn alike_stripped(ty: Node, ty2: Node)
    requires
        same(ty, ty2),
    ensures
        same(#[trigger] stripped(ty), #[trigger] stripped(ty2)),
    decreases ty,
{
    lemma_same(ty, ty2);
    lemma_each(ty.kids@, ty2.kids@);
    if ty.kids@.len() > 0 {
        assert(same(ty.kids@[0], ty2.kids@[0]));
        alike_stripped(ty.kids@[0], ty2.kids@[0]);
    }
}

/// `argument` does not depend on where constructs lie.
pub(crate) broadcast proof fn alike_argument(ty: Node, ty2: Node, index: int)
    requires
        same(ty, ty2),
    ensures
        same_opt(#[trigger] argument(ty, index), #[trigger] argument(ty2, index)),
{
    broadcast use {group_same, alike_path_types, alike_stripped, alike_type_path};
}

/// `output_class` does not depend on where constructs lie.
pub(crate) broadcast proof fn alike_output_class(output: Node, output2: Node)
    requires
        same(output, output2),
    ensures
        #[trigger] output_class(output) == #[trigger] output_class(output2),
{
    broadcast use {group_same, alike_class_of};
}

/// `reorder` does not depend on where constructs lie.
pub(crate) broadcast proof fn alike_reorder(e: Node, e2: Node)
    requires
        same(e, e2),
    ensures
        #[trigger] reorder(e) == #[trigger] reorder(e2),
{
    broadcast use group_same;
}

} // verus!
