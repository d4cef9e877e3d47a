//! What a mutant of each mutator is.
use super::candidate::Offer;
use super::collector::expressions::{
    assign_offers, break_offers, call_offers, continue_offers, literal_offers, neighbour_offers, one_less, operation, operator_offers,
    own_offers, parsed, path_offers, range_offers, return_offers, unary_offers,
};
use super::collector::gate::is_left_alone;
use super::collector::naming::source_of;
use super::collector::predicates::{assigning, called_name, label};
use super::collector::scope::{offer_over, Scope, Setting};
use super::collector::sites::{
    body_shape, deletion, failing, function_offers, guessed, is_recursive, perturbed, perturbed_arguments, perturbed_each,
    perturbed_if_known, stated_at, statement_offers, values_at,
};
use super::collector::splices::{
    arm_offers, arms_offers, behind, condition_offers, cut, element_offers, elements_offers, field_end, field_offers, fields_offers,
    first_catch, negated, rename_offers,
};
use super::collector::tables::{rename_of, replacements_of};
use super::collector::types::Typing;
use super::collector::values::{composed_values, fixed_values, inner_of, references_of, tuples_of, values_of, wrapped, Value, RETURN_DEPTH};
use super::collector::resolve::Class;
use super::collector::visit::{
    body_scope, bound, bound_by, declared_by, function_scope, implementation_scope, is_inert, judged, loop_scope, visit, visit_all,
    walked, with_defaulted,
};
use super::laws::lemma_admitted;
use super::traversal::admitted;
use crate::ops::collect::Shape;
use crate::syntax::tree::{Kind, Node, Op};
use crate::text;
use crate::text::{byte_len, decimal, slice, sliceable, stands_for};
use marks::lemma_marks;
use vstd::prelude::*;

pub mod bodies;
pub mod echoes;
pub mod fallbacks;
pub mod forms;
pub mod marks;
pub mod numbers;
pub mod omissions;
pub mod operators;
pub mod scopes;
pub mod sites;
pub mod types;
pub mod words;

verus! {

// ---- What each mutator makes of the text of its site. ----

/// Two operands in brackets, with an operator between them.
pub open spec fn joins(replacement: Seq<char>, operator: Seq<char>) -> bool {
    exists|left: Seq<char>, right: Seq<char>| replacement == #[trigger] ("("@ + left + ") "@ + operator + " ("@ + right + ")"@)
}

/// A place and an operand in brackets, with an operator between them.
pub open spec fn updates(replacement: Seq<char>, operator: Seq<char>) -> bool {
    exists|left: Seq<char>, right: Seq<char>| replacement == #[trigger] (left + " "@ + operator + " ("@ + right + ")"@)
}

/// A text with a name in it.
pub open spec fn names(replacement: Seq<char>, name: Seq<char>) -> bool {
    exists|front: Seq<char>, back: Seq<char>| replacement == #[trigger] (front + name + back)
}

/// A text without a part of it.
pub open spec fn omits(original: Seq<char>, replacement: Seq<char>) -> bool {
    exists|front: Seq<char>, part: Seq<char>, back: Seq<char>|
        part.len() > 0 && original == #[trigger] (front + part + back) && replacement == front + back
}

/// A text in which a list is less than it was: some of its beginning, and some of its end.
pub open spec fn thins(original: Seq<char>, replacement: Seq<char>) -> bool {
    exists|front: Seq<char>, list: Seq<char>, back: Seq<char>, one: Seq<char>, two: Seq<char>|
        original == #[trigger] (front + list + back) && replacement == #[trigger] (front + one + two + back) && one.is_prefix_of(list)
            && two.is_suffix_of(list)
}

/// A number.
pub open spec fn is_number(replacement: Seq<char>) -> bool {
    exists|n: nat| #[trigger] stands_for(replacement, n, 10)
}

/// What a mutant of an operator is.
pub open spec fn fits_operator(mutator: Seq<char>, replacement: Seq<char>) -> bool {
    &&& mutator == "relational.lt_to_le"@ ==> joins(replacement, "<="@)
    &&& mutator == "relational.lt_to_gt"@ ==> joins(replacement, ">"@)
    &&& mutator == "relational.le_to_lt"@ ==> joins(replacement, "<"@)
    &&& mutator == "relational.le_to_ge"@ ==> joins(replacement, ">="@)
    &&& mutator == "relational.gt_to_ge"@ ==> joins(replacement, ">="@)
    &&& mutator == "relational.gt_to_lt"@ ==> joins(replacement, "<"@)
    &&& mutator == "relational.ge_to_gt"@ ==> joins(replacement, ">"@)
    &&& mutator == "relational.ge_to_le"@ ==> joins(replacement, "<="@)
    &&& mutator == "relational.eq_to_ne"@ ==> joins(replacement, "!="@)
    &&& mutator == "relational.ne_to_eq"@ ==> joins(replacement, "=="@)
    &&& mutator == "arith.add_to_sub"@ ==> joins(replacement, "-"@)
    &&& mutator == "arith.add_to_mul"@ ==> joins(replacement, "*"@)
    &&& mutator == "arith.sub_to_add"@ ==> joins(replacement, "+"@)
    &&& mutator == "arith.sub_to_div"@ ==> joins(replacement, "/"@)
    &&& mutator == "arith.mul_to_div"@ ==> joins(replacement, "/"@)
    &&& mutator == "arith.mul_to_add"@ ==> joins(replacement, "+"@)
    &&& mutator == "arith.div_to_mul"@ ==> joins(replacement, "*"@)
    &&& mutator == "arith.div_to_rem"@ ==> joins(replacement, "%"@)
    &&& mutator == "arith.rem_to_div"@ ==> joins(replacement, "/"@)
    &&& mutator == "arith.rem_to_mul"@ ==> joins(replacement, "*"@)
    &&& mutator == "bitwise.and_to_or"@ ==> joins(replacement, "|"@)
    &&& mutator == "bitwise.and_to_xor"@ ==> joins(replacement, "^"@)
    &&& mutator == "bitwise.or_to_and"@ ==> joins(replacement, "&"@)
    &&& mutator == "bitwise.xor_to_and"@ ==> joins(replacement, "&"@)
    &&& mutator == "shift.shl_to_shr"@ ==> joins(replacement, ">>"@)
    &&& mutator == "shift.shr_to_shl"@ ==> joins(replacement, "<<"@)
    &&& mutator == "logical.and_to_or"@ ==> joins(replacement, "||"@)
    &&& mutator == "logical.or_to_and"@ ==> joins(replacement, "&&"@)
    &&& mutator == "assign.add_to_sub"@ ==> updates(replacement, "-="@)
    &&& mutator == "assign.sub_to_add"@ ==> updates(replacement, "+="@)
    &&& mutator == "assign.mul_to_div"@ ==> updates(replacement, "/="@)
    &&& mutator == "assign.div_to_mul"@ ==> updates(replacement, "*="@)
    &&& mutator == "assign.rem_to_div"@ ==> updates(replacement, "/="@)
    &&& mutator == "assign.and_to_or"@ ==> updates(replacement, "|="@)
    &&& mutator == "assign.or_to_and"@ ==> updates(replacement, "&="@)
    &&& mutator == "assign.xor_to_and"@ ==> updates(replacement, "&="@)
    &&& mutator == "assign.shl_to_shr"@ ==> updates(replacement, ">>="@)
    &&& mutator == "assign.shr_to_shl"@ ==> updates(replacement, "<<="@)
}

/// What a mutant of a method's name is.
pub open spec fn fits_method(mutator: Seq<char>, replacement: Seq<char>) -> bool {
    &&& mutator == "iter.any_to_all"@ ==> names(replacement, "all"@)
    &&& mutator == "iter.all_to_any"@ ==> names(replacement, "any"@)
    &&& mutator == "iter.min_to_max"@ ==> names(replacement, "max"@)
    &&& mutator == "iter.max_to_min"@ ==> names(replacement, "min"@)
    &&& mutator == "iter.first_to_last"@ ==> names(replacement, "last"@)
    &&& mutator == "iter.last_to_first"@ ==> names(replacement, "first"@)
    &&& mutator == "string.starts_with_to_ends_with"@ ==> names(replacement, "ends_with"@)
    &&& mutator == "string.ends_with_to_starts_with"@ ==> names(replacement, "starts_with"@)
    &&& mutator == "string.lower_to_upper"@ ==> names(replacement, "to_uppercase"@) || names(replacement, "to_ascii_uppercase"@)
    &&& mutator == "string.upper_to_lower"@ ==> names(replacement, "to_lowercase"@) || names(replacement, "to_ascii_lowercase"@)
    &&& mutator == "string.trim_start_to_trim_end"@ ==> names(replacement, "trim_end"@)
    &&& mutator == "string.trim_end_to_trim_start"@ ==> names(replacement, "trim_start"@)
}

/// What a mutant of another expression is.
pub open spec fn fits_expression(mutator: Seq<char>, original: Seq<char>, replacement: Seq<char>, shape: Shape) -> bool {
    &&& mutator == "cond.negate"@ || mutator == "match_guard.negate"@ ==> replacement == "!("@ + original + ")"@
    &&& mutator == "cond.always_true"@ || mutator == "match_guard.always_true"@ ==> replacement == "true"@
    &&& mutator == "cond.always_false"@ || mutator == "match_guard.always_false"@ ==> replacement == "false"@
    &&& mutator == "struct_field.omit"@ ==> omits(original, replacement)
    &&& mutator == "collection.omit_element"@ ==> thins(original, replacement)
    &&& mutator == "range.exclusive_to_inclusive"@ ==> exists|from: Seq<char>, to: Seq<char>|
        replacement == #[trigger] (from + "..(("@ + to + ") + 1)"@)
    &&& mutator == "range.inclusive_to_exclusive"@ ==> exists|from: Seq<char>, to: Seq<char>|
        replacement == #[trigger] (from + "..=(("@ + to + ") - 1)"@)
    &&& mutator == "loop.break_to_continue"@ ==> replacement == "continue"@ && shape == Shape::Break
    &&& mutator == "loop.continue_to_break"@ ==> (replacement == "break"@ || exists|label: Seq<char>|
        replacement == #[trigger] ("break '"@ + label)) && shape == Shape::Continue
    &&& mutator == "literal.int_to_zero"@ ==> replacement == "0"@
    &&& mutator == "literal.int_to_one"@ ==> replacement == "1"@
    &&& mutator == "literal.int_increment"@ ==> is_number(replacement)
    &&& mutator == "literal.int_decrement"@ ==> is_number(replacement) || replacement == "-1"@
    &&& mutator == "literal.bool_flip"@ ==> replacement == "true"@ || replacement == "false"@
    &&& mutator == "literal.str_to_empty"@ ==> replacement == "\"\""@
    &&& mutator == "literal.str_to_xyzzy"@ ==> replacement == "\"xyzzy\""@
    &&& mutator == "expr.increment"@ ==> replacement == "("@ + original + ") + 1"@
    &&& mutator == "expr.decrement"@ ==> replacement == "("@ + original + ") - 1"@
    &&& mutator == "option.some_to_none"@ ==> replacement == "None"@
    &&& mutator == "option.none_to_some"@ ==> replacement == "Some(Default::default())"@
    &&& mutator == "result.ok_to_err"@ ==> replacement == "Err(Default::default())"@
    &&& mutator == "result.err_to_ok"@ ==> replacement == "Ok(Default::default())"@
    &&& mutator == "assign_value.default"@ ==> replacement == "Default::default()"@
}

/// Whether a mutator deletes a statement.
pub open spec fn deletes(mutator: Seq<char>) -> bool {
    ||| mutator == "stmt.delete_call"@
    ||| mutator == "stmt.delete_assign"@
    ||| mutator == "loop.delete_break"@
    ||| mutator == "loop.delete_continue"@
    ||| mutator == "iter.remove_sort"@
    ||| mutator == "iter.remove_dedup"@
}

/// Whether a mutator replaces the body of a function by a value of its type.
pub open spec fn gives_value(mutator: Seq<char>) -> bool {
    ||| mutator == "fn_value.default"@
    ||| mutator == "fn_value.unit"@
    ||| mutator == "fn_value.bool_true"@
    ||| mutator == "fn_value.bool_false"@
    ||| mutator == "fn_value.zero"@
    ||| mutator == "fn_value.one"@
    ||| mutator == "fn_value.minus_one"@
    ||| mutator == "fn_value.empty_string"@
    ||| mutator == "fn_value.xyzzy_string"@
    ||| mutator == "fn_value.none"@
    ||| mutator == "fn_value.some_default"@
    ||| mutator == "fn_value.ok_default"@
    ||| mutator == "fn_value.err_default"@
    ||| mutator == "fn_value.two"@
    ||| mutator == "fn_value.some"@
    ||| mutator == "fn_value.ok"@
    ||| mutator == "fn_value.empty_collection"@
    ||| mutator == "fn_value.one_element"@
    ||| mutator == "fn_value.tuple"@
}

/// What a mutant is that is no expression: a statement that is left out, an arm that does not match, or the
/// body of a function. All others are expressions, but for the two that change how a loop goes on.
pub open spec fn fits_shape(s: Setting, mutator: Seq<char>, replacement: Seq<char>, shape: Shape) -> bool {
    &&& deletes(mutator) <==> shape == Shape::Stmt
    &&& deletes(mutator) ==> replacement == ""@
    &&& mutator == "match_arm.never_matches"@ <==> shape == Shape::Arm
    &&& mutator == "match_arm.never_matches"@ ==> replacement == ""@
    &&& gives_value(mutator) || mutator == "fn_value.stated"@ || mutator == "fn_value.err_with"@ <==> shape == Shape::Block || shape
        == Shape::IterBlock
    &&& mutator == "fn_value.err_with"@ ==> shape == Shape::Block && exists|i: int|
        0 <= i < s.errors.len() && replacement == "Err("@ + #[trigger] s.errors[i] + ")"@
    &&& mutator == "loop.break_to_continue"@ <==> shape == Shape::Break
    &&& mutator == "loop.continue_to_break"@ <==> shape == Shape::Continue
}

/// Whether a mutant is what its mutator promises, given the text of its site.
#[verifier::opaque]
pub open spec fn fits(s: Setting, mutator: Seq<char>, original: Seq<char>, replacement: Seq<char>, shape: Shape) -> bool {
    &&& fits_operator(mutator, replacement)
    &&& fits_method(mutator, replacement)
    &&& fits_expression(mutator, original, replacement, shape)
    &&& fits_shape(s, mutator, replacement, shape)
}

/// Whether a candidate is what its mutator promises.
pub open spec fn is_fit(s: Setting, o: Offer) -> bool {
    fits(s, o.mutator, slice(s.text, o.start, o.end), o.replacement, o.shape)
}

/// Whether all of several candidates are what their mutators promise.
pub open spec fn all_fit(s: Setting, all: Seq<Offer>) -> bool {
    forall|i: int| 0 <= i < all.len() ==> is_fit(s, #[trigger] all[i])
}

// ---- Each kind of site. ----

/// What fits may be offered.
broadcast proof fn lemma_fit_over(s: Setting, c: Scope, mutator: Seq<char>, node: Node, replacement: Seq<char>, index: u32, shape: Shape)
    requires
        fits(s, mutator, slice(s.text, node.start as int, node.end as int), replacement, shape),
    ensures
        all_fit(s, #[trigger] offer_over(s, c, mutator, node, replacement, index, shape)),
{
}

broadcast proof fn lemma_fit_join(s: Setting, left: Seq<Offer>, right: Seq<Offer>)
    requires
        all_fit(s, left),
        all_fit(s, right),
    ensures
        #[trigger] all_fit(s, left + right),
{
}

proof fn lemma_perturbed(s: Setting, c: Scope, e: Node)
    ensures
        all_fit(s, perturbed(s, c, e)),
{
    broadcast use {lemma_fit_over, lemma_fit_join};

    reveal(fits);
    lemma_marks();
    let source = source_of(s.text, e);
    assert(fits(s, "expr.increment"@, source, "("@ + source + ") + 1"@, Shape::Expr));
    assert(fits(s, "expr.decrement"@, source, "("@ + source + ") - 1"@, Shape::Expr));
}

proof fn lemma_perturbed_if_known(s: Setting, c: Scope, e: Node)
    ensures
        all_fit(s, perturbed_if_known(s, c, e)),
{
    lemma_perturbed(s, c, e);
}

proof fn lemma_perturbed_each(s: Setting, c: Scope, args: Seq<Node>)
    ensures
        all_fit(s, perturbed_each(s, c, args)),
    decreases args.len(),
{
    if args.len() > 0 {
        lemma_perturbed_each(s, c, args.drop_last());
        lemma_perturbed_if_known(s, c, args.last());
        lemma_fit_join(s, perturbed_each(s, c, args.drop_last()), perturbed_if_known(s, c, args.last()));
    }
}

proof fn lemma_perturbed_arguments(s: Setting, c: Scope, callee: Option<Seq<char>>, args: Seq<Node>)
    ensures
        all_fit(s, perturbed_arguments(s, c, callee, args)),
{
    lemma_perturbed_each(s, c, args);
}

proof fn lemma_condition(s: Setting, c: Scope, condition: Node)
    ensures
        all_fit(s, condition_offers(s, c, "cond.negate"@, "cond.always_true"@, "cond.always_false"@, condition)),
        all_fit(
            s,
            condition_offers(s, c, "match_guard.negate"@, "match_guard.always_true"@, "match_guard.always_false"@, condition),
        ),
        all_fit(s, negated(s, c, "cond.negate"@, condition)),
{
    broadcast use {lemma_fit_over, lemma_fit_join};

    reveal(fits);
    lemma_marks();
    let source = source_of(s.text, condition);
    assert(fits(s, "cond.negate"@, source, "!("@ + source + ")"@, Shape::Expr));
    assert(fits(s, "match_guard.negate"@, source, "!("@ + source + ")"@, Shape::Expr));
    assert(fits(s, "cond.always_true"@, source, "true"@, Shape::Expr));
    assert(fits(s, "match_guard.always_true"@, source, "true"@, Shape::Expr));
    assert(fits(s, "cond.always_false"@, source, "false"@, Shape::Expr));
    assert(fits(s, "match_guard.always_false"@, source, "false"@, Shape::Expr));
}

proof fn lemma_arms(s: Setting, c: Scope, arms: Seq<Node>, wildcard: int, count: int)
    ensures
        all_fit(s, arms_offers(s, c, arms, wildcard, count)),
    decreases arms.len(),
{
    broadcast use {lemma_fit_over, lemma_fit_join};

    if arms.len() > 0 {
        let arm = arms.last();
        lemma_arms(s, c, arms.drop_last(), wildcard, count);
        if arm.kids@.len() > 0 {
            let pat = arm.kids@[0];
            if let Some(guard) = pat.kid(1) {
                lemma_condition(s, c, guard);
            }
            lemma_marks();
            assert(fits(s, "match_arm.never_matches"@, slice(s.text, pat.start as int, pat.end as int), ""@, Shape::Arm)) by {
                reveal(fits);
            }
        }
        assert(all_fit(s, arm_offers(s, c, arm, arms.len() - 1 < wildcard && wildcard < count)));
    }
}

/// What replaces an operator goes by its mutator.
#[verifier::spinoff_prover]
#[verifier::rlimit(80)]
proof fn lemma_operators(s: Setting, op: Op, i: int, left: Seq<char>, right: Seq<char>, original: Seq<char>)
    requires
        0 <= i < replacements_of(op).len(),
    ensures
        fits(s, replacements_of(op)[i].0, original, operation(left, replacements_of(op)[i].1, right, assigning(op)), Shape::Expr),
{
    reveal(fits);
    lemma_marks();
    let (mutator, operator) = replacements_of(op)[i];
    let text = operation(left, operator, right, assigning(op));
    if assigning(op) {
        assert(text == left + " "@ + operator + " ("@ + right + ")"@);
        assert(updates(text, operator));
    } else {
        assert(text == "("@ + left + ") "@ + operator + " ("@ + right + ")"@);
        assert(joins(text, operator));
    }
    assert(i == 0 || i == 1);
}

proof fn lemma_operator(s: Setting, c: Scope, e: Node, op: Op, n: int)
    requires
        e.kids@.len() == 3,
        0 <= n <= replacements_of(op).len(),
    ensures
        all_fit(s, operator_offers(s, c, e, replacements_of(op).take(n), assigning(op))),
    decreases n,
{
    broadcast use {lemma_fit_over, lemma_fit_join};

    let some = replacements_of(op).take(n);
    if n > 0 {
        assert(some.drop_last() =~= replacements_of(op).take(n - 1));
        assert(some.last() == replacements_of(op)[n - 1]);
        lemma_operator(s, c, e, op, n - 1);
        lemma_operators(
            s,
            op,
            n - 1,
            source_of(s.text, e.kids@[0]),
            source_of(s.text, e.kids@[2]),
            slice(s.text, e.start as int, e.end as int),
        );
    }
}

proof fn lemma_unary(s: Setting, c: Scope, e: Node)
    ensures
        all_fit(s, unary_offers(s, c, e)),
{
    broadcast use lemma_fit_over;

    lemma_marks();
    if let Some(operand) = e.kid(0) {
        let source = source_of(s.text, operand);
        let original = slice(s.text, e.start as int, e.end as int);
        assert(fits(s, "unary.remove_neg"@, original, source, Shape::Expr)) by {
            reveal(fits);
        }
        assert(fits(s, "unary.remove_not"@, original, source, Shape::Expr)) by {
            reveal(fits);
        }
    }
}

proof fn lemma_range(s: Setting, c: Scope, e: Node, closed: bool)
    ensures
        all_fit(s, range_offers(s, c, e, closed)),
{
    broadcast use {lemma_fit_over, lemma_fit_join};

    lemma_marks();
    let original = slice(s.text, e.start as int, e.end as int);
    let start = match e.first_of(0) {
        Some(start) => "("@ + source_of(s.text, start) + ")"@,
        None => ""@,
    };
    if let Some(from) = e.first_of(0) {
        lemma_perturbed_if_known(s, c, from);
    }
    if let Some(end) = e.first_of(1) {
        lemma_perturbed_if_known(s, c, end);
        let to = source_of(s.text, end);
        assert(fits(s, "range.inclusive_to_exclusive"@, original, start + "..=(("@ + to + ") - 1)"@, Shape::Expr)) by {
            reveal(fits);
        }
        assert(fits(s, "range.exclusive_to_inclusive"@, original, start + "..(("@ + to + ") + 1)"@, Shape::Expr)) by {
            reveal(fits);
        }
    }
}

proof fn lemma_jumps(s: Setting, c: Scope, e: Node)
    ensures
        all_fit(s, break_offers(s, c, e)),
        all_fit(s, continue_offers(s, c, e)),
{
    broadcast use lemma_fit_over;

    lemma_marks();
    let original = slice(s.text, e.start as int, e.end as int);
    assert(fits(s, "loop.break_to_continue"@, original, "continue"@, Shape::Break)) by {
        reveal(fits);
    }
    assert(fits(s, "loop.continue_to_break"@, original, "break"@, Shape::Continue)) by {
        reveal(fits);
    }
    if let Some(target) = label(e) {
        assert(fits(s, "loop.continue_to_break"@, original, "break '"@ + target, Shape::Continue)) by {
            reveal(fits);
        }
    }
}

proof fn lemma_call(s: Setting, c: Scope, e: Node)
    ensures
        all_fit(s, call_offers(s, c, e)),
        all_fit(s, path_offers(s, c, e)),
{
    broadcast use {lemma_fit_over, lemma_fit_join};

    lemma_marks();
    let original = slice(s.text, e.start as int, e.end as int);
    if e.kids@.len() > 0 {
        lemma_perturbed_arguments(s, c, called_name(e.kids@[0]), e.all_of(1));
    }
    assert(fits(s, "option.some_to_none"@, original, "None"@, Shape::Expr)) by {
        reveal(fits);
    }
    assert(fits(s, "option.none_to_some"@, original, "Some(Default::default())"@, Shape::Expr)) by {
        reveal(fits);
    }
    assert(fits(s, "result.ok_to_err"@, original, "Err(Default::default())"@, Shape::Expr)) by {
        reveal(fits);
    }
    assert(fits(s, "result.err_to_ok"@, original, "Ok(Default::default())"@, Shape::Expr)) by {
        reveal(fits);
    }
}

proof fn lemma_assign(s: Setting, c: Scope, e: Node)
    ensures
        all_fit(s, assign_offers(s, c, e)),
{
    broadcast use lemma_fit_over;

    lemma_marks();
    if let Some(value) = e.kid(1) {
        assert(fits(s, "assign_value.default"@, slice(s.text, value.start as int, value.end as int), "Default::default()"@, Shape::Expr)) by {
            reveal(fits);
        }
    }
}

proof fn lemma_literal(s: Setting, c: Scope, e: Node)
    ensures
        all_fit(s, literal_offers(s, c, e)),
{
    broadcast use {lemma_fit_over, lemma_fit_join};

    lemma_marks();
    let original = slice(s.text, e.start as int, e.end as int);
    if let Some(lit) = e.kid(0) {
        let digits = lit.word(0);
        if let Some(value) = parsed(digits) {
            text::law_decimals_stand_for_their_number(value + 1);
            assert(fits(s, "literal.int_increment"@, original, decimal(value + 1), Shape::Expr)) by {
                reveal(fits);
                assert(stands_for(decimal(value + 1), value + 1, 10));
            }
            assert(fits(s, "literal.int_decrement"@, original, one_less(value), Shape::Expr)) by {
                reveal(fits);
                if value > 0 {
                    text::law_decimals_stand_for_their_number((value - 1) as nat);
                    assert(stands_for(decimal((value - 1) as nat), (value - 1) as nat, 10));
                }
            }
        }
        assert(all_fit(s, neighbour_offers(s, c, e, lit.word(0), lit.word(1))));
    }
    assert(fits(s, "literal.int_to_zero"@, original, "0"@, Shape::Expr)) by {
        reveal(fits);
    }
    assert(fits(s, "literal.int_to_one"@, original, "1"@, Shape::Expr)) by {
        reveal(fits);
    }
    assert(fits(s, "literal.bool_flip"@, original, "true"@, Shape::Expr)) by {
        reveal(fits);
    }
    assert(fits(s, "literal.bool_flip"@, original, "false"@, Shape::Expr)) by {
        reveal(fits);
    }
    assert(fits(s, "literal.str_to_empty"@, original, "\"\""@, Shape::Expr)) by {
        reveal(fits);
    }
    assert(fits(s, "literal.str_to_xyzzy"@, original, "\"xyzzy\""@, Shape::Expr)) by {
        reveal(fits);
    }
}

proof fn lemma_rename(s: Setting, c: Scope, node: Node, method: Seq<char>)
    ensures
        all_fit(s, rename_offers(s, c, node, method)),
{
    if let Some(name) = node.kid(1) {
        if let Some((mutator, other)) = rename_of(method, node.all_of(3).len()) {
            let (start, end) = (node.start as int, node.end as int);
            let (from, to) = (name.start as int, name.end as int);
            if !(from < start || to > end || !sliceable(s.text, start, from) || !sliceable(s.text, to, end)) {
                let original = slice(s.text, start, end);
                let replacement = slice(s.text, start, from) + other + slice(s.text, to, end);
                assert(names(replacement, other));
                lemma_renamed(s, method, node.all_of(3).len(), original, replacement);
                lemma_fit_over(s, c, mutator, node, replacement, 0, Shape::Expr);
            }
        }
    }
}

#[verifier::spinoff_prover]
#[verifier::rlimit(60)]
proof fn lemma_renamed(s: Setting, method: Seq<char>, arity: nat, original: Seq<char>, replacement: Seq<char>)
    requires
        rename_of(method, arity) is Some,
        names(replacement, (rename_of(method, arity)->0).1),
    ensures
        fits(s, (rename_of(method, arity)->0).0, original, replacement, Shape::Expr),
{
    reveal(fits);
    lemma_marks();
}

proof fn lemma_field(s: Setting, c: Scope, node: Node, fields: Seq<Node>, at: int, rest: int)
    ensures
        all_fit(s, field_offers(s, c, node, fields, at, rest)),
{
    let from = fields[at].start as int;
    let to = field_end(fields, at, rest);
    let (start, end) = (node.start as int, node.end as int);
    if !(from < start || to > end || from >= to || !sliceable(s.text, start, from) || !sliceable(s.text, to, end)) {
        let original = slice(s.text, start, end);
        let (front, part, back) = (slice(s.text, start, from), slice(s.text, from, to), slice(s.text, to, end));
        text::lemma_slice_join(s.text, start, from, to);
        text::lemma_slice_join(s.text, start, to, end);
        assert(original == front + part + back);
        text::lemma_slice_bytes(s.text, from, to);
        if part.len() == 0 {
            assert(part =~= Seq::<char>::empty());
            assert(vstd::utf8::encode_utf8(part).len() == 0);
        }
        assert(omits(original, front + back));
        lemma_marks();
        assert(fits(s, "struct_field.omit"@, original, front + back, Shape::Expr)) by {
            reveal(fits);
        }
        lemma_fit_over(s, c, "struct_field.omit"@, node, front + back, super::collector::scope::ordinal(at), Shape::Expr);
    }
}

proof fn lemma_fields(s: Setting, c: Scope, node: Node, fields: Seq<Node>, count: int, rest: int)
    ensures
        all_fit(s, fields_offers(s, c, node, fields, count, rest)),
    decreases count,
{
    if count > 0 {
        lemma_fields(s, c, node, fields, count - 1, rest);
        lemma_field(s, c, node, fields, count - 1, rest);
        lemma_fit_join(s, fields_offers(s, c, node, fields, count - 1, rest), field_offers(s, c, node, fields, count - 1, rest));
    }
}

proof fn lemma_element(s: Setting, c: Scope, node: Node, elements: Seq<Node>, at: int)
    ensures
        all_fit(s, element_offers(s, c, node, elements, at)),
{
    let first = elements[0].start as int;
    let last = elements.last().end as int;
    let items = slice(s.text, first, last);
    let (from, to) = cut(elements, at);
    let (start, end) = (node.start as int, node.end as int);
    let (a, b) = (behind(from, first), behind(to, first));
    if !(!sliceable(s.text, first, last) || !sliceable(s.text, start, first) || !sliceable(s.text, last, end) || !sliceable(items, 0, a)
        || !sliceable(items, b, byte_len(items))) {
        let original = slice(s.text, start, end);
        let (front, back) = (slice(s.text, start, first), slice(s.text, last, end));
        text::lemma_slice_join(s.text, start, first, last);
        text::lemma_slice_join(s.text, start, last, end);
        assert(original == front + items + back);
        text::lemma_slice_whole(items);
        text::lemma_slice_join(items, 0, a, byte_len(items));
        text::lemma_slice_join(items, 0, b, byte_len(items));
        let (one, two) = (slice(items, 0, a), slice(items, b, byte_len(items)));
        assert(one.is_prefix_of(items)) by {
            assert(items.subrange(0, one.len() as int) =~= one);
        }
        assert(two.is_suffix_of(items)) by {
            assert(items.subrange(items.len() - two.len(), items.len() as int) =~= two);
        }
        let replacement = front + one + two + back;
        assert(thins(original, replacement));
        lemma_marks();
        assert(fits(s, "collection.omit_element"@, original, replacement, Shape::Expr)) by {
            reveal(fits);
        }
        lemma_fit_over(s, c, "collection.omit_element"@, node, replacement, super::collector::scope::ordinal(at), Shape::Expr);
    }
}

proof fn lemma_elements(s: Setting, c: Scope, node: Node, elements: Seq<Node>, count: int)
    ensures
        all_fit(s, elements_offers(s, c, node, elements, count)),
    decreases count,
{
    if count > 0 {
        lemma_elements(s, c, node, elements, count - 1);
        lemma_element(s, c, node, elements, count - 1);
        lemma_fit_join(s, elements_offers(s, c, node, elements, count - 1), element_offers(s, c, node, elements, count - 1));
    }
}

proof fn lemma_return(s: Setting, c: Scope, e: Node)
    ensures
        all_fit(s, return_offers(s, c, e)),
{
    if let Some(value) = e.first_of(0) {
        lemma_perturbed(s, c, value);
    }
}

proof fn lemma_own(s: Setting, c: Scope, e: Node)
    ensures
        all_fit(s, own_offers(s, c, e)),
{
    match e.kind {
        Kind::Binary => {
            if e.kids@.len() == 3 {
                if let Kind::Operator(op) = e.kids@[1].kind {
                    let all = replacements_of(op);
                    assert(all.take(all.len() as int) =~= all);
                    lemma_operator(s, c, e, op, all.len() as int);
                }
            }
        },
        Kind::Negate | Kind::Not => lemma_unary(s, c, e),
        Kind::If => {
            if let Some(condition) = e.kid(0) {
                lemma_condition(s, c, condition);
            }
        },
        Kind::While => {
            if let Some(condition) = e.kid(1) {
                lemma_condition(s, c, condition);
            }
        },
        Kind::Match => lemma_arms(s, c, e.all_of(1), first_catch(e.all_of(1), s.cfg), e.all_of(1).len() as int),
        Kind::StructExpr => {
            if let Some(dots) = e.first_of(3) {
                lemma_fields(s, c, e, e.all_of(2), e.all_of(2).len() as int, dots.start as int);
            }
        },
        Kind::Range { closed } => lemma_range(s, c, e, closed),
        Kind::Break | Kind::Continue => lemma_jumps(s, c, e),
        Kind::Call | Kind::PathExpr => lemma_call(s, c, e),
        Kind::Assign => lemma_assign(s, c, e),
        Kind::MethodCall => {
            lemma_perturbed_arguments(s, c, Some(e.word(1)), e.all_of(3));
            lemma_rename(s, c, e, e.word(1));
            lemma_fit_join(s, perturbed_arguments(s, c, Some(e.word(1)), e.all_of(3)), rename_offers(s, c, e, e.word(1)));
        },
        Kind::Index => {
            if let Some(index) = e.kid(1) {
                lemma_perturbed_if_known(s, c, index);
            }
        },
        Kind::Return => lemma_return(s, c, e),
        Kind::Lit => lemma_literal(s, c, e),
        _ => {},
    }
}

// ---- Functions. ----

/// Whether each of several values belongs to a mutator that gives values.
spec fn are_values(values: Seq<Value>) -> bool {
    forall|i: int| 0 <= i < values.len() ==> gives_value((#[trigger] values[i]).0)
}

proof fn lemma_wrapped(values: Seq<Value>, mutator: Option<Seq<char>>, before: Seq<char>, after: Seq<char>)
    requires
        are_values(values),
        mutator matches Some(mutator) ==> gives_value(mutator),
    ensures
        are_values(wrapped(values, mutator, before, after)),
{
    let all = wrapped(values, mutator, before, after);
    assert forall|i: int| 0 <= i < all.len() implies gives_value((#[trigger] all[i]).0) by {
        assert(gives_value(values[i].0));
    }
}

proof fn lemma_values(ty: Node, depth: nat, types: Typing)
    ensures
        are_values(values_of(ty, depth, types)),
    decreases depth, 0nat,
{
    if depth > 0 {
        let class = if types.is_fmt_result(ty) {
            Class::Result
        } else {
            super::collector::resolve::class_of(ty)
        };
        lemma_composed(class, ty, (depth - 1) as nat, types);
        assert(are_values(fixed_values(class, ty)));
    }
}

proof fn lemma_inner(ty: Node, index: int, depth: nat, types: Typing)
    ensures
        are_values(inner_of(ty, index, depth, types)),
    decreases depth, 1nat,
{
    if let Some(inner) = super::collector::resolve::argument(ty, index) {
        lemma_values(inner, depth, types);
    }
}

#[verifier::spinoff_prover]
#[verifier::rlimit(40)]
proof fn lemma_composed(class: Class, ty: Node, depth: nat, types: Typing)
    ensures
        are_values(composed_values(class, ty, depth, types)),
    decreases depth, 3nat,
{
    let inner = inner_of(ty, 0, depth, types);
    lemma_inner(ty, 0, depth, types);
    lemma_inner(ty, 1, depth, types);
    lemma_wrapped(inner, Some("fn_value.some"@), "Some("@, ")"@);
    lemma_wrapped(inner, Some("fn_value.ok"@), "Ok("@, ")"@);
    lemma_wrapped(inner, Some("fn_value.one_element"@), "core::iter::once("@, ").collect()"@);
    let path = super::collector::values::path_text(ty, "Vec"@);
    lemma_wrapped(inner, None, path + "::new("@, ")"@);
    lemma_wrapped(inner, None, path + "::Owned("@, ")"@);
    if let Some(item) = super::collector::values::item_of(ty) {
        lemma_values(item, depth, types);
        lemma_wrapped(values_of(item, depth, types), Some("fn_value.one_element"@), "core::iter::once("@, ")"@);
    }
    if let Some(elem) = super::collector::values::pointee(ty) {
        lemma_values(elem, depth, types);
        let values = values_of(elem, depth, types);
        lemma_wrapped(values, None, "&*"@ + "Box::leak(Box::new("@, "))"@);
        lemma_wrapped(values, None, ""@ + "Box::leak(Box::new("@, "))"@);
        assert(are_values(references_of(ty, depth, types)));
    }
    assert(are_values(tuples_of(ty, depth, types)));
}

proof fn lemma_guessed(s: Setting, c: Scope, body: Node, values: Seq<Value>, recursive: bool, shape: Shape)
    requires
        are_values(values),
        shape == Shape::Block || shape == Shape::IterBlock,
    ensures
        all_fit(s, guessed(s, c, body, values, recursive, shape)),
    decreases values.len(),
{
    broadcast use {lemma_fit_over, lemma_fit_join};

    if values.len() > 0 {
        let front = values.drop_last();
        assert forall|i: int| 0 <= i < front.len() implies gives_value((#[trigger] front[i]).0) by {
            assert(gives_value(values[i].0));
        }
        lemma_guessed(s, c, body, front, recursive, shape);
        let (mutator, text) = values.last();
        assert(gives_value(values[values.len() - 1].0));
        lemma_value_fits(s, mutator, slice(s.text, body.start as int, body.end as int), text, shape);
    }
}

#[verifier::spinoff_prover]
#[verifier::rlimit(40)]
proof fn lemma_value_fits(s: Setting, mutator: Seq<char>, original: Seq<char>, replacement: Seq<char>, shape: Shape)
    requires
        gives_value(mutator) || mutator == "fn_value.stated"@,
        shape == Shape::Block || shape == Shape::IterBlock,
    ensures
        fits(s, mutator, original, replacement, shape),
{
    reveal(fits);
    lemma_marks();
}

proof fn lemma_failing(s: Setting, c: Scope, body: Node, n: int, count: nat)
    requires
        0 <= n <= s.errors.len(),
    ensures
        all_fit(s, failing(s, c, body, s.errors.take(n), count)),
    decreases n,
{
    broadcast use {lemma_fit_over, lemma_fit_join};

    let some = s.errors.take(n);
    if n > 0 {
        assert(some.drop_last() =~= s.errors.take(n - 1));
        assert(some.last() == s.errors[n - 1]);
        lemma_failing(s, c, body, n - 1, count);
        lemma_marks();
        let text = "Err("@ + some.last() + ")"@;
        assert(fits(s, "fn_value.err_with"@, slice(s.text, body.start as int, body.end as int), text, Shape::Block)) by {
            reveal(fits);
            assert(text == "Err("@ + s.errors[n - 1] + ")"@);
        }
    }
}

proof fn lemma_function(s: Setting, c: Scope, attrs: Seq<Node>, sig: Node, body: Node)
    ensures
        all_fit(s, function_offers(s, c, attrs, sig, body)),
{
    broadcast use {lemma_fit_over, lemma_fit_join};

    if sig.kids@.len() == 4 {
        let output = sig.kids@[3];
        let values = values_at(s, c, sig);
        let abstracts = c.generics + super::collector::types::undefaulted_params(sig.kids@[1], s.spellings);
        if let Some(ty) = output.kid(0) {
            lemma_values(ty, RETURN_DEPTH as nat, super::collector::scope::typing(s, c, abstracts));
        }
        assert(are_values(values));
        lemma_guessed(s, c, body, values, is_recursive(c, sig), body_shape(output));
        assert(s.errors.take(s.errors.len() as int) =~= s.errors);
        lemma_failing(s, c, body, s.errors.len() as int, values.len());
        if let Some(e) = super::collector::sites::trailing(body) {
            lemma_perturbed(s, c, e);
        }
        if let Some((from, to)) = stated_at(s, attrs) {
            lemma_value_fits(
                s,
                "fn_value.stated"@,
                slice(s.text, body.start as int, body.end as int),
                slice(s.text, from, to),
                body_shape(output),
            );
        }
    }
}

proof fn lemma_statement(s: Setting, c: Scope, statement: Node)
    ensures
        all_fit(s, statement_offers(s, c, statement)),
{
    broadcast use lemma_fit_over;

    if statement.kids@.len() > 0 {
        if let Some(mutator) = deletion(c, statement.kids@[0]) {
            assert(deletes(mutator));
            lemma_deletion(s, mutator, slice(s.text, statement.start as int, statement.end as int));
        }
    }
}

proof fn lemma_deletion(s: Setting, mutator: Seq<char>, original: Seq<char>)
    requires
        deletes(mutator),
    ensures
        fits(s, mutator, original, ""@, Shape::Stmt),
{
    reveal(fits);
    lemma_marks();
}

// ---- The walk. ----

proof fn lemma_judged(s: Setting, c: Scope, statements: Seq<Node>)
    ensures
        all_fit(s, judged(s, c, statements)),
    decreases statements.len(),
{
    if statements.len() > 0 {
        let scope = declared_by(s, c, statements.drop_last());
        lemma_judged(s, c, statements.drop_last());
        lemma_statement(s, scope, statements.last());
        lemma_fit_join(s, judged(s, c, statements.drop_last()), statement_offers(s, scope, statements.last()));
    }
}

#[verifier::spinoff_prover]
#[verifier::rlimit(40)]
proof fn lemma_visit(s: Setting, c: Scope, node: Node)
    ensures
        all_fit(s, visit(s, c, node)),
    decreases node, 1nat,
{
    broadcast use lemma_fit_join;

    node.lemma_inside();
    if !is_inert(node.kind) && !is_left_alone(node, s.cfg) {
        lemma_own(s, c, node);
        match node.kind {
            Kind::ItemFn | Kind::ImplFn | Kind::TraitFn => {
                let outer = function_scope(s, c, node);
                if node.kids@.len() == 2 && node.kids@[1].kids@.len() > 0 {
                    lemma_function(s, outer, node.attrs@, node.kids@[0], node.kids@[1].kids@[0]);
                }
                if let Some(sig) = node.kid(0) {
                    lemma_visit_all(s, body_scope(s, outer, sig), node.inside());
                }
            },
            Kind::ItemMod => lemma_visit_all(s, c.inside_item(node.word(0)), node.inside()),
            Kind::ItemTrait => lemma_visit_all(s, with_defaulted(s, c.inside_item(node.word(0)), node.kid(1)), node.inside()),
            Kind::ItemImpl => lemma_visit_all(s, implementation_scope(s, c, node), node.inside()),
            Kind::Macro => {
                if node.kids@.len() == 2 {
                    lemma_elements(s, c, node, node.kids@[1].kids@, node.kids@[1].kids@.len() as int);
                }
            },
            Kind::Block => {
                lemma_judged(s, c, node.inside());
                lemma_walked(s, declared_by(s, c, node.inside()), node.inside());
            },
            Kind::Local => lemma_visit_all(s, bound(s, c, node), node.inside()),
            Kind::Repeat => {
                if let Some(element) = node.kid(0) {
                    lemma_visit(s, c, element);
                }
            },
            Kind::Reference => lemma_visit_all(s, c, node.inside()),
            Kind::MethodCall => {
                lemma_visit_all(s, c, node.inside());
                if let Some(receiver) = node.kid(0) {
                    lemma_visit(s, c, receiver);
                }
            },
            Kind::While | Kind::ForLoop | Kind::Loop => lemma_visit_all(s, loop_scope(c, node), node.inside()),
            _ => lemma_visit_all(s, c, node.inside()),
        }
    }
}

proof fn lemma_visit_all(s: Setting, c: Scope, nodes: Seq<Node>)
    ensures
        all_fit(s, visit_all(s, c, nodes)),
    decreases nodes, 0nat,
{
    if nodes.len() > 0 {
        lemma_visit_all(s, c, nodes.drop_last());
        lemma_visit(s, c, nodes.last());
        lemma_fit_join(s, visit_all(s, c, nodes.drop_last()), visit(s, c, nodes.last()));
    }
}

proof fn lemma_walked(s: Setting, c: Scope, statements: Seq<Node>)
    ensures
        all_fit(s, walked(s, c, statements)),
    decreases statements, 0nat,
{
    if statements.len() > 0 {
        let scope = bound_by(s, c, statements.drop_last());
        lemma_walked(s, c, statements.drop_last());
        lemma_visit(s, scope, statements.last());
        lemma_fit_join(s, walked(s, c, statements.drop_last()), visit(s, scope, statements.last()));
    }
}

/// Every candidate of a file is what its mutator promises: an operator is replaced by the one that the
/// mutator names, a success by a failure and a failure by a success, a condition by its opposite, a
/// call's name by the one it is paired with, and so on.
pub proof fn law_every_candidate_is_what_its_mutator_promises(s: Setting, file: Node, i: int)
    requires
        0 <= i < admitted(s, file).len(),
    ensures
        ({
            let o = admitted(s, file)[i];
            let original = slice(s.text, o.start, o.end);
            &&& fits_operator(o.mutator, o.replacement)
            &&& fits_method(o.mutator, o.replacement)
            &&& fits_expression(o.mutator, original, o.replacement, o.shape)
            &&& fits_shape(s, o.mutator, o.replacement, o.shape)
        }),
{
    let all = visit(s, Scope::outermost(), file);
    lemma_visit(s, Scope::outermost(), file);
    lemma_admitted(s, file, i);
    let o = admitted(s, file)[i];
    assert(all.contains(o));
    let j = choose|j: int| 0 <= j < all.len() && all[j] == o;
    assert(is_fit(s, all[j]));
    reveal(fits);
}

} // verus!
