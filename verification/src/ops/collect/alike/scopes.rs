//! What holds in scopes that are alike.
use crate::cfg::Build;
use crate::ops::collect::collector::expressions::requires_value;
use crate::ops::collect::collector::scope::{known_numeric, names_binding, names_constant, typing, Scope, Setting};
use crate::ops::collect::collector::sites::{
    body_shape, deletion, initializes_deferred, is_integer, is_recursive, trailing,
};
use crate::ops::collect::collector::splices::{catches, first_catch};
use crate::ops::collect::collector::visit::{
    body_scope, bound, bound_by, declared_by, declaring, function_scope, generics_of, loop_scope, name_of,
    parameters, with_defaulted,
};
use crate::ops::collect::stated::is_stated;
use crate::syntax::tree::Node;
use super::{
    group_same, lemma_each, lemma_same, lemma_same_first_of, lemma_same_kid, lemma_same_word, same, same_all,
    same_opt, same_scope, same_setting, same_typing,
};
use super::attributes::{alike_holds, alike_skips};
use super::forms::{
    alike_binding, alike_called_type, alike_catch_all, alike_declared, alike_is_numeric_type_node, alike_label,
    alike_last_name, alike_output_class, alike_path_ident, alike_path_names, alike_produces_value, alike_reorder,
    alike_stmt_attrs,
};
use super::kinds::{alike_defaulted_params, alike_returns_undefaultable_error};
use vstd::prelude::*;

verus! {

/// `requires_value` does not depend on where constructs lie.
pub(crate) broadcast proof fn alike_requires_value(c: Scope, c2: Scope, e: Node, e2: Node)
    requires
        same_scope(c, c2),
        same(e, e2),
    ensures
        #[trigger] requires_value(c, e) == #[trigger] requires_value(c2, e2),
{
    broadcast use {group_same, alike_label};
}

/// `names_binding` does not depend on where constructs lie.
pub(crate) broadcast proof fn alike_names_binding(s: Setting, s2: Setting, c: Scope, c2: Scope, path: Node, path2: Node)
    requires
        same_setting(s, s2),
        same_scope(c, c2),
        same(path, path2),
    ensures
        #[trigger] names_binding(s, c, path) == #[trigger] names_binding(s2, c2, path2),
{
    broadcast use {group_same, alike_path_ident};
}

/// `names_constant` does not depend on where constructs lie.
pub(crate) broadcast proof fn alike_names_constant(s: Setting, s2: Setting, path: Node, path2: Node)
    requires
        same_setting(s, s2),
        same(path, path2),
    ensures
        #[trigger] names_constant(s, path) == #[trigger] names_constant(s2, path2),
{
    broadcast use {group_same, alike_last_name};
}

/// `known_numeric` does not depend on where constructs lie.
pub(crate) broadcast proof fn alike_known_numeric(s: Setting, s2: Setting, c: Scope, c2: Scope, e: Node, e2: Node)
    requires
        same_setting(s, s2),
        same_scope(c, c2),
        same(e, e2),
    ensures
        #[trigger] known_numeric(s, c, e) == #[trigger] known_numeric(s2, c2, e2),
    decreases e,
{
    lemma_same(e, e2);
    lemma_each(e.kids@, e2.kids@);
    lemma_same_kid(e, e2, 1);
    lemma_same_first_of(e, e2, 0);
    lemma_same_word(e, e2, 1);
    if e.kids@.len() > 0 {
        assert(same(e.kids@[0], e2.kids@[0]));
        alike_known_numeric(s, s2, c, c2, e.kids@[0], e2.kids@[0]);
        alike_called_type(e.kids@[0], e2.kids@[0]);
    }
    if e.kids@.len() > 1 {
        let (a, b) = (e.kids@[1], e2.kids@[1]);
        assert(same(a, b));
        lemma_same(a, b);
        lemma_same_word(a, b, 0);
        alike_is_numeric_type_node(a, b);
        alike_names_constant(s, s2, a, b);
        alike_names_binding(s, s2, c, c2, a, b);
    }
    if e.kids@.len() == 3 {
        assert(same(e.kids@[2], e2.kids@[2]));
        alike_known_numeric(s, s2, c, c2, e.kids@[2], e2.kids@[2]);
    }
}

/// `typing` does not depend on where constructs lie.
pub(crate) broadcast proof fn alike_typing(s: Setting, s2: Setting, c: Scope, c2: Scope, abstracts: Seq<Seq<char>>)
    requires
        same_setting(s, s2),
        same_scope(c, c2),
    ensures
        same_typing(#[trigger] typing(s, c, abstracts), #[trigger] typing(s2, c2, abstracts)),
{
    broadcast use group_same;
}

/// `body_shape` does not depend on where constructs lie.
pub(crate) broadcast proof fn alike_body_shape(output: Node, output2: Node)
    requires
        same(output, output2),
    ensures
        #[trigger] body_shape(output) == #[trigger] body_shape(output2),
{
    broadcast use {group_same, alike_output_class};
}

/// `initializes_deferred` does not depend on where constructs lie.
pub(crate) broadcast proof fn alike_initializes_deferred(c: Scope, c2: Scope, target: Node, target2: Node)
    requires
        same_scope(c, c2),
        same(target, target2),
    ensures
        #[trigger] initializes_deferred(c, target) == #[trigger] initializes_deferred(c2, target2),
{
    broadcast use {group_same, alike_path_ident};
}

/// `deletion` does not depend on where constructs lie.
pub(crate) broadcast proof fn alike_deletion(c: Scope, c2: Scope, e: Node, e2: Node)
    requires
        same_scope(c, c2),
        same(e, e2),
    ensures
        #[trigger] deletion(c, e) == #[trigger] deletion(c2, e2),
{
    broadcast use {group_same, alike_reorder, alike_initializes_deferred};
}

/// `is_integer` does not depend on where constructs lie.
pub(crate) broadcast proof fn alike_is_integer(e: Node, e2: Node)
    requires
        same(e, e2),
    ensures
        #[trigger] is_integer(e) == #[trigger] is_integer(e2),
{
    broadcast use group_same;
}

/// `is_recursive` does not depend on where constructs lie.
pub(crate) broadcast proof fn alike_is_recursive(c: Scope, c2: Scope, sig: Node, sig2: Node)
    requires
        same_scope(c, c2),
        same(sig, sig2),
    ensures
        #[trigger] is_recursive(c, sig) == #[trigger] is_recursive(c2, sig2),
{
    broadcast use group_same;
}

/// `trailing` does not depend on where constructs lie.
pub(crate) broadcast proof fn alike_trailing(body: Node, body2: Node)
    requires
        same(body, body2),
    ensures
        same_opt(#[trigger] trailing(body), #[trigger] trailing(body2)),
{
    broadcast use group_same;
}

/// `catches` does not depend on where constructs lie.
pub(crate) broadcast proof fn alike_catches(arm: Node, arm2: Node, cfg: Build)
    requires
        same(arm, arm2),
    ensures
        #[trigger] catches(arm, cfg) == #[trigger] catches(arm2, cfg),
{
    broadcast use {group_same, alike_holds, alike_catch_all};
}

/// `first_catch` does not depend on where constructs lie.
pub(crate) broadcast proof fn alike_first_catch(arms: Seq<Node>, arms2: Seq<Node>, cfg: Build)
    requires
        same_all(arms, arms2),
    ensures
        #[trigger] first_catch(arms, cfg) == #[trigger] first_catch(arms2, cfg),
    decreases arms.len(),
{
    broadcast use {group_same, alike_catches};
    if arms.len() > 0 {
        alike_first_catch(arms.drop_last(), arms2.drop_last(), cfg);
    }
}

/// `parameters` does not depend on where constructs lie.
pub(crate) broadcast proof fn alike_parameters(inputs: Seq<Node>, inputs2: Seq<Node>)
    requires
        same_all(inputs, inputs2),
    ensures
        #[trigger] parameters(inputs) == #[trigger] parameters(inputs2),
    decreases inputs.len(),
{
    broadcast use {group_same, alike_is_numeric_type_node};
    if inputs.len() > 0 {
        alike_parameters(inputs.drop_last(), inputs2.drop_last());
    }
}

/// `body_scope` does not depend on where constructs lie.
pub(crate) broadcast proof fn alike_body_scope(s: Setting, s2: Setting, c: Scope, c2: Scope, sig: Node, sig2: Node)
    requires
        same_setting(s, s2),
        same_scope(c, c2),
        same(sig, sig2),
    ensures
        same_scope(#[trigger] body_scope(s, c, sig), #[trigger] body_scope(s2, c2, sig2)),
{
    broadcast use {group_same, alike_parameters, alike_typing, alike_returns_undefaultable_error, alike_output_class};
}

/// `bound` does not depend on where constructs lie.
pub(crate) broadcast proof fn alike_bound(s: Setting, s2: Setting, c: Scope, c2: Scope, statement: Node, statement2: Node)
    requires
        same_setting(s, s2),
        same_scope(c, c2),
        same(statement, statement2),
    ensures
        same_scope(#[trigger] bound(s, c, statement), #[trigger] bound(s2, c2, statement2)),
{
    broadcast use {group_same, alike_binding, alike_is_numeric_type_node, alike_known_numeric};
}

/// `bound_by` does not depend on where constructs lie.
pub(crate) broadcast proof fn alike_bound_by(
    s: Setting,
    s2: Setting,
    c: Scope,
    c2: Scope,
    statements: Seq<Node>,
    statements2: Seq<Node>,
)
    requires
        same_setting(s, s2),
        same_scope(c, c2),
        same_all(statements, statements2),
    ensures
        same_scope(#[trigger] bound_by(s, c, statements), #[trigger] bound_by(s2, c2, statements2)),
    decreases statements.len(),
{
    broadcast use {group_same, alike_bound, alike_stmt_attrs, alike_skips};
    if statements.len() > 0 {
        alike_bound_by(s, s2, c, c2, statements.drop_last(), statements2.drop_last());
    }
}

/// `declaring` does not depend on where constructs lie.
pub(crate) broadcast proof fn alike_declaring(c: Scope, c2: Scope, statement: Node, statement2: Node)
    requires
        same_scope(c, c2),
        same(statement, statement2),
    ensures
        same_scope(#[trigger] declaring(c, statement), #[trigger] declaring(c2, statement2)),
{
    broadcast use {group_same, alike_declared};
}

/// `declared_by` does not depend on where constructs lie.
pub(crate) broadcast proof fn alike_declared_by(
    s: Setting,
    s2: Setting,
    c: Scope,
    c2: Scope,
    statements: Seq<Node>,
    statements2: Seq<Node>,
)
    requires
        same_setting(s, s2),
        same_scope(c, c2),
        same_all(statements, statements2),
    ensures
        same_scope(#[trigger] declared_by(s, c, statements), #[trigger] declared_by(s2, c2, statements2)),
    decreases statements.len(),
{
    broadcast use {group_same, alike_declaring, alike_stmt_attrs, alike_skips};
    if statements.len() > 0 {
        alike_declared_by(s, s2, c, c2, statements.drop_last(), statements2.drop_last());
    }
}

/// `name_of` does not depend on where constructs lie.
pub(crate) broadcast proof fn alike_name_of(node: Node, node2: Node)
    requires
        same(node, node2),
    ensures
        #[trigger] name_of(node) == #[trigger] name_of(node2),
{
    broadcast use group_same;
}

/// `with_defaulted` does not depend on where constructs lie.
pub(crate) broadcast proof fn alike_with_defaulted(
    s: Setting,
    s2: Setting,
    c: Scope,
    c2: Scope,
    generics: Option<Node>,
    generics2: Option<Node>,
)
    requires
        same_setting(s, s2),
        same_scope(c, c2),
        same_opt(generics, generics2),
    ensures
        same_scope(#[trigger] with_defaulted(s, c, generics), #[trigger] with_defaulted(s2, c2, generics2)),
{
    broadcast use {group_same, alike_defaulted_params};
}

/// `generics_of` does not depend on where constructs lie.
pub(crate) broadcast proof fn alike_generics_of(node: Node, node2: Node)
    requires
        same(node, node2),
    ensures
        same_opt(#[trigger] generics_of(node), #[trigger] generics_of(node2)),
{
    broadcast use group_same;
}

/// `function_scope` does not depend on where constructs lie.
pub(crate) broadcast proof fn alike_function_scope(s: Setting, s2: Setting, c: Scope, c2: Scope, node: Node, node2: Node)
    requires
        same_setting(s, s2),
        same_scope(c, c2),
        same(node, node2),
    ensures
        same_scope(#[trigger] function_scope(s, c, node), #[trigger] function_scope(s2, c2, node2)),
{
    broadcast use {group_same, alike_name_of, alike_with_defaulted, alike_generics_of};
}

/// `loop_scope` does not depend on where constructs lie.
pub(crate) broadcast proof fn alike_loop_scope(c: Scope, c2: Scope, node: Node, node2: Node)
    requires
        same_scope(c, c2),
        same(node, node2),
    ensures
        same_scope(#[trigger] loop_scope(c, node), #[trigger] loop_scope(c2, node2)),
{
    broadcast use {group_same, alike_label, alike_produces_value};
}

/// `is_stated` does not depend on where constructs lie.
pub(crate) broadcast proof fn alike_is_stated(attr: Node, attr2: Node)
    requires
        same(attr, attr2),
    ensures
        #[trigger] is_stated(attr) == #[trigger] is_stated(attr2),
{
    broadcast use {group_same, alike_path_names};
}

} // verus!
