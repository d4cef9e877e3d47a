//! What is offered of code that was moved.
use crate::text;
use crate::ops::collect::Shape;
use crate::ops::collect::candidate::Offer;
use crate::ops::collect::collector::expressions::{
    assign_offers, binary_offers, break_offers, call_offers, continue_offers, literal_offers, method_offers,
    neighbour_offers, operation, operator_offers, own_offers, path_offers, range_offers, return_offers, unary_offers,
};
use crate::ops::collect::collector::naming::source_of;
use crate::ops::collect::collector::predicates::{assigning, called_name};
use crate::ops::collect::collector::resolve::{output_class, Class};
use crate::ops::collect::collector::scope::{offer_over, ordinal, typing, Scope, Setting};
use crate::ops::collect::collector::sites::{
    body_shape, ending, failing, function_offers, guessed, is_recursive, perturbed, perturbed_arguments,
    perturbed_each, perturbed_if_known, stated_at, statement_offers, values_at,
};
use crate::ops::collect::collector::splices::{
    arm_offers, arms_offers, behind, condition_offers, cut, element_offers, elements_offers, field_end, field_offers,
    fields_offers, match_offers, negated, rename_offers, struct_offers,
};
use crate::ops::collect::collector::tables::{rename_of, replacements_of};
use crate::ops::collect::collector::types::undefaulted_params;
use crate::ops::collect::collector::values::Value;
use crate::ops::collect::collector::visit::{body_offers, judged, macro_offers};
use crate::ops::collect::stated::stated_span;
use crate::syntax::tree::{Kind, Node};
use crate::text::{byte_len, slice, sliceable};
use super::{group_same, lemma_each, lemma_same, lemma_same_word, same, same_scope, same_setting};
use super::attributes::alike_skips;
use super::forms::{
    alike_binding, alike_boolean, alike_called_name, alike_capacity_result, alike_default_call, alike_digits,
    alike_diverging, alike_label, alike_output_class, alike_path_ident, alike_stmt_attrs, alike_textual,
};
use super::kinds::{alike_return_values_of, alike_undefaulted_params};
use super::moved::{
    group_moved, keeps_tokens, lemma_all_joined, lemma_all_moved, lemma_all_of_none, lemma_each_moved, lemma_moved,
    lemma_moved_all_of, lemma_moved_first_of, lemma_moved_kid, lemma_moved_same, lemma_moved_same_all,
    lemma_moved_source, lemma_offer_over, moved, moved_all, moved_offers, moved_setting, Move,
};
use super::scopes::{
    alike_body_shape, alike_declared_by, alike_deletion, alike_first_catch, alike_is_integer, alike_is_recursive,
    alike_is_stated, alike_known_numeric, alike_requires_value, alike_trailing, alike_typing,
};
use vstd::prelude::*;

verus! {

/// A region that begins or ends in kept text can be cut out afterwards exactly where it could before.
proof fn lemma_region(m: Move, x: int, y: int, start: int, end: int)
    requires
        m.is_orderly(),
        m.keeps(start, end),
        start <= x,
        y <= end,
    ensures
        sliceable(m.from, x, y) == sliceable(m.to, m.at(x), m.at(y)),
        slice(m.from, x, y) == slice(m.to, m.at(x), m.at(y)),
{
    if x <= y {
        assert(m.at(y) - m.at(x) == y - x);
    } else {
        assert(m.at(y) < m.at(x));
    }
}

/// The values that are guessed for a function are those of its types.
proof fn alike_values_at(s: Setting, s2: Setting, c: Scope, c2: Scope, sig: Node, sig2: Node)
    requires
        same_setting(s, s2),
        same_scope(c, c2),
        same(sig, sig2),
        sig.kids@.len() == 4,
    ensures
        values_at(s, c, sig) == values_at(s2, c2, sig2),
{
    lemma_same(sig, sig2);
    lemma_each(sig.kids@, sig2.kids@);
    assert(same(sig.kids@[1], sig2.kids@[1]) && same(sig.kids@[3], sig2.kids@[3]));
    alike_undefaulted_params(sig.kids@[1], sig2.kids@[1], s.spellings);
    let abstracts = c.generics + undefaulted_params(sig.kids@[1], s.spellings);
    alike_typing(s, s2, c, c2, abstracts);
    alike_return_values_of(sig.kids@[3], sig2.kids@[3], typing(s, c, abstracts), typing(s2, c2, abstracts));
}

/// Offsets compare afterwards as they did before.
proof fn lemma_in_order(m: Move, x: int, y: int)
    requires
        m.is_orderly(),
    ensures
        x < y <==> m.at(x) < m.at(y),
        x == y <==> m.at(x) == m.at(y),
{
    if x < y {
        assert(m.at(x) < m.at(y));
    } else if y < x {
        assert(m.at(y) < m.at(x));
    }
}

/// The value that attributes state is stated afterwards where it was before, with the same text.
proof fn moved_stated(m: Move, attrs: Seq<Node>, attrs2: Seq<Node>)
    requires
        m.is_orderly(),
        moved_all(m, attrs, attrs2),
    ensures
        match stated_span(attrs) {
            Some((from, to)) => stated_span(attrs2) == Some((m.at(from), m.at(to))) && slice(m.from, from, to) == slice(
                m.to,
                m.at(from),
                m.at(to),
            ),
            None => stated_span(attrs2) is None,
        },
    decreases attrs.len(),
{
    if attrs.len() > 0 {
        lemma_each_moved(m, attrs, attrs2);
        lemma_all_moved(m, attrs.drop_first(), attrs2.drop_first());
        moved_stated(m, attrs.drop_first(), attrs2.drop_first());
        let (a, b) = (attrs[0], attrs2[0]);
        assert(moved(m, a, b));
        lemma_moved_same(m, a, b);
        alike_is_stated(a, b);
        lemma_each_moved(m, a.kids@, b.kids@);
        if a.kids@.len() == 2 {
            let (list, list2) = (a.kids@[1], b.kids@[1]);
            assert(moved(m, list, list2));
            lemma_each_moved(m, list.kids@, list2.kids@);
            if list.kids@.len() > 0 {
                let (first, last) = (list.kids@[0], list.kids@.last());
                assert(moved(m, first, list2.kids@[0]));
                assert(moved(m, list.kids@[list.kids@.len() - 1], list2.kids@[list.kids@.len() - 1]));
                lemma_in_order(m, first.start as int, last.end as int);
                if list.kind == (Kind::Arguments { expression: true }) {
                    assert(keeps_tokens(m, list));
                    lemma_region(m, first.start as int, last.end as int, first.start as int, last.end as int);
                }
            }
        }
    }
}

/// A field is left out afterwards where it was before.
proof fn moved_field_offers(
    m: Move,
    s: Setting,
    s2: Setting,
    c: Scope,
    c2: Scope,
    node: Node,
    node2: Node,
    fields: Seq<Node>,
    fields2: Seq<Node>,
    at: int,
    rest: int,
)
    requires
        moved_setting(m, s, s2),
        same_scope(c, c2),
        moved(m, node, node2),
        moved_all(m, fields, fields2),
        0 <= at < fields.len(),
    ensures
        moved_offers(
            m,
            field_offers(s, c, node, fields, at, rest),
            field_offers(s2, c2, node2, fields2, at, m.at(rest)),
        ),
{
    lemma_each_moved(m, fields, fields2);
    lemma_moved(m, node, node2);
    assert(moved(m, fields[at], fields2[at]));
    lemma_moved_same_all(m, fields[at].attrs@, fields2[at].attrs@);
    alike_skips(s.cfg, fields[at].attrs@, fields2[at].attrs@);
    if at + 1 < fields.len() {
        assert(moved(m, fields[at + 1], fields2[at + 1]));
    }
    let from = fields[at].start as int;
    let to = field_end(fields, at, rest);
    let (start, end) = (node.start as int, node.end as int);
    assert(field_end(fields2, at, m.at(rest)) == m.at(to));
    lemma_in_order(m, from, start);
    lemma_in_order(m, end, to);
    lemma_in_order(m, from, to);
    lemma_all_of_none(m);
    if from >= start && to <= end && from < to {
        lemma_region(m, start, from, start, end);
        lemma_region(m, to, end, start, end);
        lemma_offer_over(
            m,
            s,
            s2,
            c,
            c2,
            "struct_field.omit"@,
            node,
            node2,
            slice(s.text, start, from) + slice(s.text, to, end),
            ordinal(at),
            Shape::Expr,
        );
    }
}

/// `fields_offers` of code that was moved.
proof fn moved_fields_offers(
    m: Move,
    s: Setting,
    s2: Setting,
    c: Scope,
    c2: Scope,
    node: Node,
    node2: Node,
    fields: Seq<Node>,
    fields2: Seq<Node>,
    count: int,
    rest: int,
)
    requires
        moved_setting(m, s, s2),
        same_scope(c, c2),
        moved(m, node, node2),
        moved_all(m, fields, fields2),
        count <= fields.len(),
    ensures
        moved_offers(
            m,
            fields_offers(s, c, node, fields, count, rest),
            fields_offers(s2, c2, node2, fields2, count, m.at(rest)),
        ),
    decreases count,
{
    lemma_all_of_none(m);
    if count > 0 {
        moved_fields_offers(m, s, s2, c, c2, node, node2, fields, fields2, count - 1, rest);
        moved_field_offers(m, s, s2, c, c2, node, node2, fields, fields2, count - 1, rest);
        lemma_all_joined(m, fields_offers(s, c, node, fields, count - 1, rest), field_offers(s, c, node, fields, count - 1, rest));
    }
}

/// An element is left out afterwards where it was before.
#[verifier::spinoff_prover]
#[verifier::rlimit(30)]
proof fn moved_element_offers(
    m: Move,
    s: Setting,
    s2: Setting,
    c: Scope,
    c2: Scope,
    node: Node,
    node2: Node,
    elements: Seq<Node>,
    elements2: Seq<Node>,
    at: int,
)
    requires
        moved_setting(m, s, s2),
        same_scope(c, c2),
        moved(m, node, node2),
        moved_all(m, elements, elements2),
        0 <= at < elements.len(),
    ensures
        moved_offers(m, element_offers(s, c, node, elements, at), element_offers(s2, c2, node2, elements2, at)),
{
    lemma_each_moved(m, elements, elements2);
    lemma_moved(m, node, node2);
    assert(moved(m, elements[at], elements2[at]));
    assert(moved(m, elements[0], elements2[0]));
    assert(moved(m, elements[elements.len() - 1], elements2[elements.len() - 1]));
    if at + 1 < elements.len() {
        assert(moved(m, elements[at + 1], elements2[at + 1]));
    }
    if at > 0 {
        assert(moved(m, elements[at - 1], elements2[at - 1]));
    }
    let (start, end) = (node.start as int, node.end as int);
    let first = elements[0].start as int;
    let last = elements.last().end as int;
    let (from, to) = cut(elements, at);
    assert(cut(elements2, at) == (m.at(from), m.at(to)));
    lemma_in_order(m, start, first);
    lemma_in_order(m, first, last);
    lemma_in_order(m, last, end);
    lemma_in_order(m, from, first);
    lemma_in_order(m, last, from);
    lemma_in_order(m, to, first);
    lemma_in_order(m, last, to);
    lemma_all_of_none(m);
    if start <= first && first <= last && last <= end {
        lemma_region(m, first, last, start, end);
        lemma_region(m, start, first, start, end);
        lemma_region(m, last, end, start, end);
        let items = slice(m.from, first, last);
        assert(m.at(last) - m.at(first) == last - first);
        if sliceable(m.from, first, last) {
            text::lemma_slice_bytes(m.from, first, last);
            if first <= from <= last {
                assert(m.at(from) - m.at(first) == from - first);
            }
            if first <= to <= last {
                assert(m.at(to) - m.at(first) == to - first);
            }
            lemma_offer_over(
                m,
                s,
                s2,
                c,
                c2,
                "collection.omit_element"@,
                node,
                node2,
                slice(s.text, start, first) + slice(items, 0, behind(from, first)) + slice(items, behind(to, first), byte_len(items))
                    + slice(s.text, last, end),
                ordinal(at),
                Shape::Expr,
            );
        }
    }
}

/// `elements_offers` of code that was moved.
proof fn moved_elements_offers(
    m: Move,
    s: Setting,
    s2: Setting,
    c: Scope,
    c2: Scope,
    node: Node,
    node2: Node,
    elements: Seq<Node>,
    elements2: Seq<Node>,
    count: int,
)
    requires
        moved_setting(m, s, s2),
        same_scope(c, c2),
        moved(m, node, node2),
        moved_all(m, elements, elements2),
        count <= elements.len(),
    ensures
        moved_offers(m, elements_offers(s, c, node, elements, count), elements_offers(s2, c2, node2, elements2, count)),
    decreases count,
{
    lemma_all_of_none(m);
    if count > 0 {
        moved_elements_offers(m, s, s2, c, c2, node, node2, elements, elements2, count - 1);
        moved_element_offers(m, s, s2, c, c2, node, node2, elements, elements2, count - 1);
        lemma_all_joined(m, elements_offers(s, c, node, elements, count - 1), element_offers(s, c, node, elements, count - 1));
    }
}

/// `perturbed` of code that was moved.
pub(crate) broadcast proof fn moved_perturbed(m: Move, s: Setting, s2: Setting, c: Scope, c2: Scope, e: Node, e2: Node)
    requires
        moved_setting(m, s, s2),
        same_scope(c, c2),
        #[trigger] moved(m, e, e2),
    ensures
        moved_offers(m, #[trigger] perturbed(s, c, e), #[trigger] perturbed(s2, c2, e2)),
{
    broadcast use {group_same, group_moved, alike_capacity_result, alike_diverging};
    lemma_all_of_none(m);
}

/// `perturbed_if_known` of code that was moved.
pub(crate) broadcast proof fn moved_perturbed_if_known(m: Move, s: Setting, s2: Setting, c: Scope, c2: Scope, e: Node, e2: Node)
    requires
        moved_setting(m, s, s2),
        same_scope(c, c2),
        #[trigger] moved(m, e, e2),
    ensures
        moved_offers(m, #[trigger] perturbed_if_known(s, c, e), #[trigger] perturbed_if_known(s2, c2, e2)),
{
    broadcast use {group_same, group_moved, alike_known_numeric, moved_perturbed, alike_textual};
    lemma_all_of_none(m);
}

/// `perturbed_each` of code that was moved.
pub(crate) broadcast proof fn moved_perturbed_each(
    m: Move,
    s: Setting,
    s2: Setting,
    c: Scope,
    c2: Scope,
    args: Seq<Node>,
    args2: Seq<Node>,
)
    requires
        moved_setting(m, s, s2),
        same_scope(c, c2),
        #[trigger] moved_all(m, args, args2),
    ensures
        moved_offers(m, #[trigger] perturbed_each(s, c, args), #[trigger] perturbed_each(s2, c2, args2)),
    decreases args.len(),
{
    broadcast use {group_same, group_moved, moved_perturbed_if_known};
    lemma_all_of_none(m);
    if args.len() > 0 {
        moved_perturbed_each(m, s, s2, c, c2, args.drop_last(), args2.drop_last());
    }
}

/// `perturbed_arguments` of code that was moved.
pub(crate) broadcast proof fn moved_perturbed_arguments(
    m: Move,
    s: Setting,
    s2: Setting,
    c: Scope,
    c2: Scope,
    callee: Option<Seq<char>>,
    args: Seq<Node>,
    args2: Seq<Node>,
)
    requires
        moved_setting(m, s, s2),
        same_scope(c, c2),
        #[trigger] moved_all(m, args, args2),
    ensures
        moved_offers(m, #[trigger] perturbed_arguments(s, c, callee, args), #[trigger] perturbed_arguments(s2, c2, callee, args2)),
{
    broadcast use {group_same, group_moved, moved_perturbed_each};
    lemma_all_of_none(m);
}

/// `ending` of code that was moved.
pub(crate) broadcast proof fn moved_ending(
    m: Move,
    s: Setting,
    s2: Setting,
    c: Scope,
    c2: Scope,
    body: Node,
    body2: Node,
    output: Node,
    output2: Node,
)
    requires
        moved_setting(m, s, s2),
        same_scope(c, c2),
        #[trigger] moved(m, body, body2),
        moved(m, output, output2),
    ensures
        moved_offers(m, #[trigger] ending(s, c, body, output), #[trigger] ending(s2, c2, body2, output2)),
{
    broadcast use {group_same, group_moved, alike_is_integer, alike_output_class, moved_perturbed, alike_trailing};
    lemma_all_of_none(m);
}

/// `guessed` of code that was moved.
pub(crate) broadcast proof fn moved_guessed(
    m: Move,
    s: Setting,
    s2: Setting,
    c: Scope,
    c2: Scope,
    body: Node,
    body2: Node,
    values: Seq<Value>,
    recursive: bool,
    shape: Shape,
)
    requires
        moved_setting(m, s, s2),
        same_scope(c, c2),
        #[trigger] moved(m, body, body2),
    ensures
        moved_offers(
            m,
            #[trigger] guessed(s, c, body, values, recursive, shape),
            #[trigger] guessed(s2, c2, body2, values, recursive, shape),
        ),
    decreases values.len(),
{
    broadcast use {group_same, group_moved};
    lemma_all_of_none(m);
    if values.len() > 0 {
        moved_guessed(m, s, s2, c, c2, body, body2, values.drop_last(), recursive, shape);
    }
}

/// `failing` of code that was moved.
pub(crate) broadcast proof fn moved_failing(
    m: Move,
    s: Setting,
    s2: Setting,
    c: Scope,
    c2: Scope,
    body: Node,
    body2: Node,
    errors: Seq<Seq<char>>,
    count: nat,
)
    requires
        moved_setting(m, s, s2),
        same_scope(c, c2),
        #[trigger] moved(m, body, body2),
    ensures
        moved_offers(m, #[trigger] failing(s, c, body, errors, count), #[trigger] failing(s2, c2, body2, errors, count)),
    decreases errors.len(),
{
    broadcast use {group_same, group_moved};
    lemma_all_of_none(m);
    if errors.len() > 0 {
        moved_failing(m, s, s2, c, c2, body, body2, errors.drop_last(), count);
    }
}

/// `statement_offers` of code that was moved.
pub(crate) broadcast proof fn moved_statement_offers(
    m: Move,
    s: Setting,
    s2: Setting,
    c: Scope,
    c2: Scope,
    statement: Node,
    statement2: Node,
)
    requires
        moved_setting(m, s, s2),
        same_scope(c, c2),
        #[trigger] moved(m, statement, statement2),
    ensures
        moved_offers(m, #[trigger] statement_offers(s, c, statement), #[trigger] statement_offers(s2, c2, statement2)),
{
    broadcast use {group_same, group_moved, alike_deletion};
    lemma_all_of_none(m);
}

/// `negated` of code that was moved.
pub(crate) broadcast proof fn moved_negated(
    m: Move,
    s: Setting,
    s2: Setting,
    c: Scope,
    c2: Scope,
    negate: Seq<char>,
    condition: Node,
    condition2: Node,
)
    requires
        moved_setting(m, s, s2),
        same_scope(c, c2),
        #[trigger] moved(m, condition, condition2),
    ensures
        moved_offers(m, #[trigger] negated(s, c, negate, condition), #[trigger] negated(s2, c2, negate, condition2)),
{
    broadcast use {group_same, group_moved};
    lemma_all_of_none(m);
}

/// `condition_offers` of code that was moved.
pub(crate) broadcast proof fn moved_condition_offers(
    m: Move,
    s: Setting,
    s2: Setting,
    c: Scope,
    c2: Scope,
    negate: Seq<char>,
    always_true: Seq<char>,
    always_false: Seq<char>,
    condition: Node,
    condition2: Node,
)
    requires
        moved_setting(m, s, s2),
        same_scope(c, c2),
        #[trigger] moved(m, condition, condition2),
    ensures
        moved_offers(
            m,
            #[trigger] condition_offers(s, c, negate, always_true, always_false, condition),
            #[trigger] condition_offers(s2, c2, negate, always_true, always_false, condition2),
        ),
{
    broadcast use {group_same, group_moved, alike_binding, alike_boolean, moved_negated};
    lemma_all_of_none(m);
}

/// `arm_offers` of code that was moved.
pub(crate) broadcast proof fn moved_arm_offers(
    m: Move,
    s: Setting,
    s2: Setting,
    c: Scope,
    c2: Scope,
    arm: Node,
    arm2: Node,
    followed: bool,
)
    requires
        moved_setting(m, s, s2),
        same_scope(c, c2),
        #[trigger] moved(m, arm, arm2),
    ensures
        moved_offers(m, #[trigger] arm_offers(s, c, arm, followed), #[trigger] arm_offers(s2, c2, arm2, followed)),
{
    broadcast use {group_same, group_moved, moved_condition_offers, alike_skips};
    lemma_all_of_none(m);
}

/// `arms_offers` of code that was moved.
pub(crate) broadcast proof fn moved_arms_offers(
    m: Move,
    s: Setting,
    s2: Setting,
    c: Scope,
    c2: Scope,
    arms: Seq<Node>,
    arms2: Seq<Node>,
    wildcard: int,
    count: int,
)
    requires
        moved_setting(m, s, s2),
        same_scope(c, c2),
        #[trigger] moved_all(m, arms, arms2),
    ensures
        moved_offers(m, #[trigger] arms_offers(s, c, arms, wildcard, count), #[trigger] arms_offers(s2, c2, arms2, wildcard, count)),
    decreases arms.len(),
{
    broadcast use {group_same, group_moved, moved_arm_offers};
    lemma_all_of_none(m);
    if arms.len() > 0 {
        moved_arms_offers(m, s, s2, c, c2, arms.drop_last(), arms2.drop_last(), wildcard, count);
    }
}

/// `match_offers` of code that was moved.
pub(crate) broadcast proof fn moved_match_offers(
    m: Move,
    s: Setting,
    s2: Setting,
    c: Scope,
    c2: Scope,
    arms: Seq<Node>,
    arms2: Seq<Node>,
)
    requires
        moved_setting(m, s, s2),
        same_scope(c, c2),
        #[trigger] moved_all(m, arms, arms2),
    ensures
        moved_offers(m, #[trigger] match_offers(s, c, arms), #[trigger] match_offers(s2, c2, arms2)),
{
    broadcast use {group_same, group_moved, moved_arms_offers, alike_first_catch};
    lemma_all_of_none(m);
}

/// `struct_offers` of code that was moved.
pub(crate) broadcast proof fn moved_struct_offers(m: Move, s: Setting, s2: Setting, c: Scope, c2: Scope, node: Node, node2: Node)
    requires
        moved_setting(m, s, s2),
        same_scope(c, c2),
        #[trigger] moved(m, node, node2),
    ensures
        moved_offers(m, #[trigger] struct_offers(s, c, node), #[trigger] struct_offers(s2, c2, node2)),
{
    broadcast use {group_same, group_moved};
    lemma_all_of_none(m);
    if let Some(dots) = node.first_of(3) {
        assert(moved(m, dots, node2.first_of(3)->0));
        moved_fields_offers(
            m,
            s,
            s2,
            c,
            c2,
            node,
            node2,
            node.all_of(2),
            node2.all_of(2),
            node.all_of(2).len() as int,
            dots.start as int,
        );
    }
}

/// `operator_offers` of code that was moved.
pub(crate) broadcast proof fn moved_operator_offers(
    m: Move,
    s: Setting,
    s2: Setting,
    c: Scope,
    c2: Scope,
    e: Node,
    e2: Node,
    replacements: Seq<(Seq<char>, Seq<char>)>,
    assigns: bool,
)
    requires
        moved_setting(m, s, s2),
        same_scope(c, c2),
        #[trigger] moved(m, e, e2),
        e.kids@.len() == 3,
    ensures
        moved_offers(
            m,
            #[trigger] operator_offers(s, c, e, replacements, assigns),
            #[trigger] operator_offers(s2, c2, e2, replacements, assigns),
        ),
    decreases replacements.len(),
{
    lemma_all_of_none(m);
    if replacements.len() > 0 {
        moved_operator_offers(m, s, s2, c, c2, e, e2, replacements.drop_last(), assigns);
        lemma_moved(m, e, e2);
        lemma_each_moved(m, e.kids@, e2.kids@);
        assert(moved(m, e.kids@[0], e2.kids@[0]) && moved(m, e.kids@[2], e2.kids@[2]));
        lemma_moved_source(m, e.kids@[0], e2.kids@[0]);
        lemma_moved_source(m, e.kids@[2], e2.kids@[2]);
        let (mutator, operator) = replacements.last();
        let text = operation(source_of(s.text, e.kids@[0]), operator, source_of(s.text, e.kids@[2]), assigns);
        let index = ordinal(replacements.len() - 1);
        lemma_offer_over(m, s, s2, c, c2, mutator, e, e2, text, index, Shape::Expr);
        lemma_all_joined(
            m,
            operator_offers(s, c, e, replacements.drop_last(), assigns),
            offer_over(s, c, mutator, e, text, index, Shape::Expr),
        );
    }
}

/// `binary_offers` of code that was moved.
pub(crate) broadcast proof fn moved_binary_offers(m: Move, s: Setting, s2: Setting, c: Scope, c2: Scope, e: Node, e2: Node)
    requires
        moved_setting(m, s, s2),
        same_scope(c, c2),
        #[trigger] moved(m, e, e2),
    ensures
        moved_offers(m, #[trigger] binary_offers(s, c, e), #[trigger] binary_offers(s2, c2, e2)),
{
    lemma_all_of_none(m);
    lemma_moved(m, e, e2);
    lemma_each_moved(m, e.kids@, e2.kids@);
    if e.kids@.len() == 3 {
        assert(moved(m, e.kids@[0], e2.kids@[0]) && moved(m, e.kids@[1], e2.kids@[1]) && moved(m, e.kids@[2], e2.kids@[2]));
        lemma_moved(m, e.kids@[1], e2.kids@[1]);
        lemma_moved_same(m, e.kids@[0], e2.kids@[0]);
        lemma_moved_same(m, e.kids@[2], e2.kids@[2]);
        alike_binding(e.kids@[0], e2.kids@[0]);
        alike_binding(e.kids@[2], e2.kids@[2]);
        if let Kind::Operator(op) = e.kids@[1].kind {
            moved_operator_offers(m, s, s2, c, c2, e, e2, replacements_of(op), assigning(op));
        }
    }
}

/// `unary_offers` of code that was moved.
pub(crate) broadcast proof fn moved_unary_offers(m: Move, s: Setting, s2: Setting, c: Scope, c2: Scope, e: Node, e2: Node)
    requires
        moved_setting(m, s, s2),
        same_scope(c, c2),
        #[trigger] moved(m, e, e2),
    ensures
        moved_offers(m, #[trigger] unary_offers(s, c, e), #[trigger] unary_offers(s2, c2, e2)),
{
    lemma_all_of_none(m);
    lemma_moved(m, e, e2);
    lemma_moved_kid(m, e, e2, 0);
    if let Some(operand) = e.kid(0) {
        let operand2 = e2.kid(0)->0;
        lemma_moved_same(m, operand, operand2);
        alike_digits(operand, operand2);
        lemma_moved_source(m, operand, operand2);
        let text = source_of(s.text, operand);
        lemma_offer_over(m, s, s2, c, c2, "unary.remove_neg"@, e, e2, text, 0, Shape::Expr);
        lemma_offer_over(m, s, s2, c, c2, "unary.remove_not"@, e, e2, text, 0, Shape::Expr);
    }
}

/// `range_offers` of code that was moved.
pub(crate) broadcast proof fn moved_range_offers(
    m: Move,
    s: Setting,
    s2: Setting,
    c: Scope,
    c2: Scope,
    e: Node,
    e2: Node,
    closed: bool,
)
    requires
        moved_setting(m, s, s2),
        same_scope(c, c2),
        #[trigger] moved(m, e, e2),
    ensures
        moved_offers(m, #[trigger] range_offers(s, c, e, closed), #[trigger] range_offers(s2, c2, e2, closed)),
{
    lemma_all_of_none(m);
    lemma_moved_first_of(m, e, e2, 0);
    lemma_moved_first_of(m, e, e2, 1);
    let none = Seq::<Offer>::empty();
    let low = match e.first_of(0) {
        Some(start) => "("@ + source_of(s.text, start) + ")"@,
        None => ""@,
    };
    let behind = match e.first_of(0) {
        Some(start) => perturbed_if_known(s, c, start),
        None => none,
    };
    if let Some(start) = e.first_of(0) {
        lemma_moved_source(m, start, e2.first_of(0)->0);
        moved_perturbed_if_known(m, s, s2, c, c2, start, e2.first_of(0)->0);
    }
    if let Some(end) = e.first_of(1) {
        lemma_moved_source(m, end, e2.first_of(1)->0);
        moved_perturbed_if_known(m, s, s2, c, c2, end, e2.first_of(1)->0);
        let less = low + "..=(("@ + source_of(s.text, end) + ") - 1)"@;
        let more = low + "..(("@ + source_of(s.text, end) + ") + 1)"@;
        lemma_offer_over(m, s, s2, c, c2, "range.inclusive_to_exclusive"@, e, e2, less, 0, Shape::Expr);
        lemma_offer_over(m, s, s2, c, c2, "range.exclusive_to_inclusive"@, e, e2, more, 0, Shape::Expr);
        let own = if closed {
            offer_over(s, c, "range.inclusive_to_exclusive"@, e, less, 0, Shape::Expr)
        } else {
            offer_over(s, c, "range.exclusive_to_inclusive"@, e, more, 0, Shape::Expr)
        };
        lemma_all_joined(m, own, perturbed_if_known(s, c, end));
        lemma_all_joined(m, own + perturbed_if_known(s, c, end), behind);
    }
    lemma_all_joined(m, none, behind);
}

/// `break_offers` of code that was moved.
pub(crate) broadcast proof fn moved_break_offers(m: Move, s: Setting, s2: Setting, c: Scope, c2: Scope, e: Node, e2: Node)
    requires
        moved_setting(m, s, s2),
        same_scope(c, c2),
        #[trigger] moved(m, e, e2),
    ensures
        moved_offers(m, #[trigger] break_offers(s, c, e), #[trigger] break_offers(s2, c2, e2)),
{
    broadcast use {group_same, group_moved};
    lemma_all_of_none(m);
}

/// `continue_offers` of code that was moved.
pub(crate) broadcast proof fn moved_continue_offers(m: Move, s: Setting, s2: Setting, c: Scope, c2: Scope, e: Node, e2: Node)
    requires
        moved_setting(m, s, s2),
        same_scope(c, c2),
        #[trigger] moved(m, e, e2),
    ensures
        moved_offers(m, #[trigger] continue_offers(s, c, e), #[trigger] continue_offers(s2, c2, e2)),
{
    broadcast use {group_same, group_moved, alike_label, alike_requires_value};
    lemma_all_of_none(m);
}

/// `call_offers` of code that was moved.
pub(crate) broadcast proof fn moved_call_offers(m: Move, s: Setting, s2: Setting, c: Scope, c2: Scope, e: Node, e2: Node)
    requires
        moved_setting(m, s, s2),
        same_scope(c, c2),
        #[trigger] moved(m, e, e2),
    ensures
        moved_offers(m, #[trigger] call_offers(s, c, e), #[trigger] call_offers(s2, c2, e2)),
{
    lemma_all_of_none(m);
    lemma_moved(m, e, e2);
    lemma_each_moved(m, e.kids@, e2.kids@);
    lemma_moved_all_of(m, e, e2, 1);
    if e.kids@.len() > 0 {
        assert(moved(m, e.kids@[0], e2.kids@[0]));
        lemma_moved_same(m, e.kids@[0], e2.kids@[0]);
        alike_called_name(e.kids@[0], e2.kids@[0]);
        let callee = called_name(e.kids@[0]);
        lemma_each_moved(m, e.all_of(1), e2.all_of(1));
        moved_perturbed_arguments(m, s, s2, c, c2, callee, e.all_of(1), e2.all_of(1));
        lemma_offer_over(m, s, s2, c, c2, "option.some_to_none"@, e, e2, "None"@, 0, Shape::Expr);
        lemma_offer_over(m, s, s2, c, c2, "result.ok_to_err"@, e, e2, "Err(Default::default())"@, 0, Shape::Expr);
        lemma_offer_over(m, s, s2, c, c2, "result.err_to_ok"@, e, e2, "Ok(Default::default())"@, 0, Shape::Expr);
        let one = perturbed_arguments(s, c, callee, e.all_of(1));
        lemma_all_joined(m, one, Seq::empty());
        lemma_all_joined(m, one, offer_over(s, c, "option.some_to_none"@, e, "None"@, 0, Shape::Expr));
        lemma_all_joined(m, one, offer_over(s, c, "result.ok_to_err"@, e, "Err(Default::default())"@, 0, Shape::Expr));
        lemma_all_joined(m, one, offer_over(s, c, "result.err_to_ok"@, e, "Ok(Default::default())"@, 0, Shape::Expr));
    }
}

/// `rename_offers` of code that was moved.
pub(crate) broadcast proof fn moved_rename_offers(
    m: Move,
    s: Setting,
    s2: Setting,
    c: Scope,
    c2: Scope,
    node: Node,
    node2: Node,
    method: Seq<char>,
)
    requires
        moved_setting(m, s, s2),
        same_scope(c, c2),
        #[trigger] moved(m, node, node2),
    ensures
        moved_offers(m, #[trigger] rename_offers(s, c, node, method), #[trigger] rename_offers(s2, c2, node2, method)),
{
    lemma_all_of_none(m);
    lemma_moved(m, node, node2);
    lemma_moved_kid(m, node, node2, 1);
    lemma_moved_all_of(m, node, node2, 3);
    lemma_each_moved(m, node.all_of(3), node2.all_of(3));
    if let Some(name) = node.kid(1) {
        let name2 = node2.kid(1)->0;
        lemma_moved(m, name, name2);
        let (start, end) = (node.start as int, node.end as int);
        lemma_in_order(m, name.start as int, start);
        lemma_in_order(m, end, name.end as int);
        if name.start >= start && name.end <= end {
            lemma_region(m, start, name.start as int, start, end);
            lemma_region(m, name.end as int, end, start, end);
            if let Some((mutator, other)) = rename_of(method, node.all_of(3).len()) {
                lemma_offer_over(
                    m,
                    s,
                    s2,
                    c,
                    c2,
                    mutator,
                    node,
                    node2,
                    slice(s.text, start, name.start as int) + other + slice(s.text, name.end as int, end),
                    0,
                    Shape::Expr,
                );
            }
        }
    }
}

/// `method_offers` of code that was moved.
pub(crate) broadcast proof fn moved_method_offers(m: Move, s: Setting, s2: Setting, c: Scope, c2: Scope, e: Node, e2: Node)
    requires
        moved_setting(m, s, s2),
        same_scope(c, c2),
        #[trigger] moved(m, e, e2),
    ensures
        moved_offers(m, #[trigger] method_offers(s, c, e), #[trigger] method_offers(s2, c2, e2)),
{
    broadcast use {group_same, group_moved, moved_perturbed_arguments, moved_rename_offers};
    lemma_all_of_none(m);
}

/// `path_offers` of code that was moved.
pub(crate) broadcast proof fn moved_path_offers(m: Move, s: Setting, s2: Setting, c: Scope, c2: Scope, e: Node, e2: Node)
    requires
        moved_setting(m, s, s2),
        same_scope(c, c2),
        #[trigger] moved(m, e, e2),
    ensures
        moved_offers(m, #[trigger] path_offers(s, c, e), #[trigger] path_offers(s2, c2, e2)),
{
    broadcast use {group_same, group_moved, alike_path_ident};
    lemma_all_of_none(m);
}

/// `assign_offers` of code that was moved.
pub(crate) broadcast proof fn moved_assign_offers(m: Move, s: Setting, s2: Setting, c: Scope, c2: Scope, e: Node, e2: Node)
    requires
        moved_setting(m, s, s2),
        same_scope(c, c2),
        #[trigger] moved(m, e, e2),
    ensures
        moved_offers(m, #[trigger] assign_offers(s, c, e), #[trigger] assign_offers(s2, c2, e2)),
{
    broadcast use {group_same, group_moved, alike_default_call};
    lemma_all_of_none(m);
}

/// `return_offers` of code that was moved.
pub(crate) broadcast proof fn moved_return_offers(m: Move, s: Setting, s2: Setting, c: Scope, c2: Scope, e: Node, e2: Node)
    requires
        moved_setting(m, s, s2),
        same_scope(c, c2),
        #[trigger] moved(m, e, e2),
    ensures
        moved_offers(m, #[trigger] return_offers(s, c, e), #[trigger] return_offers(s2, c2, e2)),
{
    broadcast use {group_same, group_moved, alike_is_integer, moved_perturbed};
    lemma_all_of_none(m);
}

/// `neighbour_offers` of code that was moved.
pub(crate) broadcast proof fn moved_neighbour_offers(
    m: Move,
    s: Setting,
    s2: Setting,
    c: Scope,
    c2: Scope,
    e: Node,
    e2: Node,
    digits: Seq<char>,
    suffix: Seq<char>,
)
    requires
        moved_setting(m, s, s2),
        same_scope(c, c2),
        #[trigger] moved(m, e, e2),
    ensures
        moved_offers(m, #[trigger] neighbour_offers(s, c, e, digits, suffix), #[trigger] neighbour_offers(s2, c2, e2, digits, suffix)),
{
    broadcast use {group_same, group_moved};
    lemma_all_of_none(m);
}

/// `literal_offers` of code that was moved.
pub(crate) broadcast proof fn moved_literal_offers(m: Move, s: Setting, s2: Setting, c: Scope, c2: Scope, e: Node, e2: Node)
    requires
        moved_setting(m, s, s2),
        same_scope(c, c2),
        #[trigger] moved(m, e, e2),
    ensures
        moved_offers(m, #[trigger] literal_offers(s, c, e), #[trigger] literal_offers(s2, c2, e2)),
{
    lemma_all_of_none(m);
    lemma_moved_kid(m, e, e2, 0);
    if let Some(lit) = e.kid(0) {
        let lit2 = e2.kid(0)->0;
        lemma_moved(m, lit, lit2);
        lemma_moved_same(m, lit, lit2);
        lemma_same_word(lit, lit2, 0);
        lemma_same_word(lit, lit2, 1);
        let none = Seq::<Offer>::empty();
        let near = neighbour_offers(s, c, e, lit.word(0), lit.word(1));
        let zero = offer_over(s, c, "literal.int_to_zero"@, e, "0"@, 0, Shape::Expr);
        let one = offer_over(s, c, "literal.int_to_one"@, e, "1"@, 1, Shape::Expr);
        let empty = offer_over(s, c, "literal.str_to_empty"@, e, "\"\""@, 0, Shape::Expr);
        let xyzzy = offer_over(s, c, "literal.str_to_xyzzy"@, e, "\"xyzzy\""@, 1, Shape::Expr);
        moved_neighbour_offers(m, s, s2, c, c2, e, e2, lit.word(0), lit.word(1));
        lemma_offer_over(m, s, s2, c, c2, "literal.int_to_zero"@, e, e2, "0"@, 0, Shape::Expr);
        lemma_offer_over(m, s, s2, c, c2, "literal.int_to_one"@, e, e2, "1"@, 1, Shape::Expr);
        lemma_offer_over(m, s, s2, c, c2, "literal.bool_flip"@, e, e2, "false"@, 0, Shape::Expr);
        lemma_offer_over(m, s, s2, c, c2, "literal.bool_flip"@, e, e2, "true"@, 0, Shape::Expr);
        lemma_offer_over(m, s, s2, c, c2, "literal.str_to_empty"@, e, e2, "\"\""@, 0, Shape::Expr);
        lemma_offer_over(m, s, s2, c, c2, "literal.str_to_xyzzy"@, e, e2, "\"xyzzy\""@, 1, Shape::Expr);
        lemma_all_joined(m, near, zero);
        lemma_all_joined(m, near, none);
        lemma_all_joined(m, near + zero, one);
        lemma_all_joined(m, near + zero, none);
        lemma_all_joined(m, near + none, one);
        lemma_all_joined(m, near + none, none);
        lemma_all_joined(m, empty, xyzzy);
        lemma_all_joined(m, empty, none);
        lemma_all_joined(m, none, xyzzy);
        lemma_all_joined(m, none, none);
    }
}

/// `own_offers` of code that was moved.
pub(crate) broadcast proof fn moved_own_offers(m: Move, s: Setting, s2: Setting, c: Scope, c2: Scope, e: Node, e2: Node)
    requires
        moved_setting(m, s, s2),
        same_scope(c, c2),
        #[trigger] moved(m, e, e2),
    ensures
        moved_offers(m, #[trigger] own_offers(s, c, e), #[trigger] own_offers(s2, c2, e2)),
{
    lemma_all_of_none(m);
    lemma_moved(m, e, e2);
    lemma_moved_kid(m, e, e2, 0);
    lemma_moved_kid(m, e, e2, 1);
    match e.kind {
        Kind::Binary => moved_binary_offers(m, s, s2, c, c2, e, e2),
        Kind::Negate | Kind::Not => moved_unary_offers(m, s, s2, c, c2, e, e2),
        Kind::If => if let Some(condition) = e.kid(0) {
            moved_condition_offers(
                m,
                s,
                s2,
                c,
                c2,
                "cond.negate"@,
                "cond.always_true"@,
                "cond.always_false"@,
                condition,
                e2.kid(0)->0,
            );
        },
        Kind::While => if let Some(condition) = e.kid(1) {
            lemma_moved_same(m, condition, e2.kid(1)->0);
            alike_binding(condition, e2.kid(1)->0);
            moved_negated(m, s, s2, c, c2, "cond.negate"@, condition, e2.kid(1)->0);
        },
        Kind::Match => {
            lemma_moved_all_of(m, e, e2, 1);
            moved_match_offers(m, s, s2, c, c2, e.all_of(1), e2.all_of(1));
        },
        Kind::StructExpr => moved_struct_offers(m, s, s2, c, c2, e, e2),
        Kind::Range { closed } => moved_range_offers(m, s, s2, c, c2, e, e2, closed),
        Kind::Break => moved_break_offers(m, s, s2, c, c2, e, e2),
        Kind::Continue => moved_continue_offers(m, s, s2, c, c2, e, e2),
        Kind::Call => moved_call_offers(m, s, s2, c, c2, e, e2),
        Kind::PathExpr => moved_path_offers(m, s, s2, c, c2, e, e2),
        Kind::Assign => moved_assign_offers(m, s, s2, c, c2, e, e2),
        Kind::MethodCall => moved_method_offers(m, s, s2, c, c2, e, e2),
        Kind::Index => if let Some(index) = e.kid(1) {
            moved_perturbed_if_known(m, s, s2, c, c2, index, e2.kid(1)->0);
        },
        Kind::Return => moved_return_offers(m, s, s2, c, c2, e, e2),
        Kind::Lit => moved_literal_offers(m, s, s2, c, c2, e, e2),
        _ => {},
    }
}

/// `macro_offers` of code that was moved.
pub(crate) broadcast proof fn moved_macro_offers(m: Move, s: Setting, s2: Setting, c: Scope, c2: Scope, node: Node, node2: Node)
    requires
        moved_setting(m, s, s2),
        same_scope(c, c2),
        #[trigger] moved(m, node, node2),
    ensures
        moved_offers(m, #[trigger] macro_offers(s, c, node), #[trigger] macro_offers(s2, c2, node2)),
{
    broadcast use {group_same, group_moved, alike_path_ident};
    lemma_all_of_none(m);
    if node.kids@.len() == 2 {
        assert(moved(m, node.kids@[0], node2.kids@[0]) && moved(m, node.kids@[1], node2.kids@[1]));
        let (elements, elements2) = (node.kids@[1].kids@, node2.kids@[1].kids@);
        if elements.len() >= 2 {
            moved_elements_offers(m, s, s2, c, c2, node, node2, elements, elements2, elements.len() as int);
        }
    }
}

/// `function_offers` of code that was moved.
pub(crate) broadcast proof fn moved_function_offers(
    m: Move,
    s: Setting,
    s2: Setting,
    c: Scope,
    c2: Scope,
    attrs: Seq<Node>,
    attrs2: Seq<Node>,
    sig: Node,
    sig2: Node,
    body: Node,
    body2: Node,
)
    requires
        moved_setting(m, s, s2),
        same_scope(c, c2),
        #[trigger] moved_all(m, attrs, attrs2),
        moved(m, sig, sig2),
        moved(m, body, body2),
    ensures
        moved_offers(m, #[trigger] function_offers(s, c, attrs, sig, body), #[trigger] function_offers(s2, c2, attrs2, sig2, body2)),
{
    lemma_moved(m, sig, sig2);
    lemma_moved_same(m, sig, sig2);
    lemma_moved(m, body, body2);
    lemma_each_moved(m, sig.kids@, sig2.kids@);
    lemma_each_moved(m, body.kids@, body2.kids@);
    lemma_all_of_none(m);
    if !(sig.kind == (Kind::Signature { constant: true }) || body.kids@.len() == 0 || sig.kids@.len() != 4) {
        let (output, output2) = (sig.kids@[3], sig2.kids@[3]);
        assert(moved(m, output, output2));
        lemma_moved_same(m, output, output2);
        alike_values_at(s, s2, c, c2, sig, sig2);
        let values = values_at(s, c, sig);
        moved_ending(m, s, s2, c, c2, body, body2, output, output2);
        moved_stated(m, attrs, attrs2);
        alike_is_recursive(c, c2, sig, sig2);
        alike_body_shape(output, output2);
        alike_output_class(output, output2);
        moved_guessed(m, s, s2, c, c2, body, body2, values, is_recursive(c, sig), body_shape(output));
        moved_failing(m, s, s2, c, c2, body, body2, s.errors, values.len());
        if let Some((from, to)) = stated_at(s, attrs) {
            lemma_offer_over(
                m,
                s,
                s2,
                c,
                c2,
                "fn_value.stated"@,
                body,
                body2,
                slice(s.text, from, to),
                0,
                body_shape(output),
            );
        }
        let one = ending(s, c, body, output);
        let two = match stated_at(s, attrs) {
            Some((from, to)) => offer_over(s, c, "fn_value.stated"@, body, slice(s.text, from, to), 0, body_shape(output)),
            None => guessed(s, c, body, values, is_recursive(c, sig), body_shape(output)),
        };
        let three = if output_class(output) == Some(Class::Result) {
            failing(s, c, body, s.errors, values.len())
        } else {
            Seq::empty()
        };
        lemma_all_joined(m, one, two);
        lemma_all_joined(m, one + two, three);
    }
}

/// `body_offers` of code that was moved.
pub(crate) broadcast proof fn moved_body_offers(m: Move, s: Setting, s2: Setting, c: Scope, c2: Scope, node: Node, node2: Node)
    requires
        moved_setting(m, s, s2),
        same_scope(c, c2),
        #[trigger] moved(m, node, node2),
    ensures
        moved_offers(m, #[trigger] body_offers(s, c, node), #[trigger] body_offers(s2, c2, node2)),
{
    broadcast use {group_same, group_moved, moved_function_offers};
    lemma_all_of_none(m);
}

/// `judged` of code that was moved.
pub(crate) broadcast proof fn moved_judged(
    m: Move,
    s: Setting,
    s2: Setting,
    c: Scope,
    c2: Scope,
    statements: Seq<Node>,
    statements2: Seq<Node>,
)
    requires
        moved_setting(m, s, s2),
        same_scope(c, c2),
        #[trigger] moved_all(m, statements, statements2),
    ensures
        moved_offers(m, #[trigger] judged(s, c, statements), #[trigger] judged(s2, c2, statements2)),
    decreases statements.len(),
{
    broadcast use {group_same, group_moved, alike_declared_by, alike_skips, moved_statement_offers, alike_stmt_attrs};
    lemma_all_of_none(m);
    if statements.len() > 0 {
        moved_judged(m, s, s2, c, c2, statements.drop_last(), statements2.drop_last());
    }
}

} // verus!
