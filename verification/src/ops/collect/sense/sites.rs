//! Which mutants each construct has.
use super::super::candidate::Offer;
use super::super::collector::expressions::own_offers;
use super::super::collector::gate::is_left_alone;
use super::super::collector::naming::source_of;
use super::super::collector::noop::reproduces;
use super::super::collector::predicates::{
    binding, boolean, called_name, capacity_result, default_call, digits, diverging, reserves_room, textual,
};
use super::super::collector::scope::{known_numeric, offer_over, Scope, Setting};
use super::super::collector::sites::{perturbed, perturbed_arguments, perturbed_each, perturbed_if_known};
use super::super::collector::splices::{arm_offers, arms_offers, catches, condition_offers, first_catch, negated, rename_offers};
use super::super::collector::tables::rename_of;
use super::super::collector::visit::{loop_scope, visit, visit_all};
use crate::ops::collect::Shape;
use crate::syntax::query::{last_name, path_ident};
use crate::syntax::tree::{Kind, Node};
use crate::text::{byte_len, slice, sliceable};
use vstd::prelude::*;

verus! {

/// Whether a mutant is asked for, over some of the text, and would change it.
pub open spec fn is_worth(s: Setting, c: Scope, node: Node, mutator: Seq<char>, replacement: Seq<char>, shape: Shape) -> bool {
    &&& s.selection.contains(mutator)
    &&& node.start < node.end <= byte_len(s.text)
    &&& !reproduces(replacement, slice(s.text, node.start as int, node.end as int), shape, s.spellings, c.defaulted)
}

/// Whether a mutant is among candidates, if it is worth trying.
pub open spec fn offered(
    s: Setting,
    c: Scope,
    all: Seq<Offer>,
    node: Node,
    mutator: Seq<char>,
    replacement: Seq<char>,
    shape: Shape,
) -> bool {
    is_worth(s, c, node, mutator, replacement, shape) ==> exists|i: int|
        0 <= i < all.len() && is_over(c, #[trigger] all[i], node, mutator, replacement, shape)
}

/// Whether a candidate is a mutant of a construct.
pub open spec fn is_over(c: Scope, o: Offer, node: Node, mutator: Seq<char>, replacement: Seq<char>, shape: Shape) -> bool {
    &&& o.mutator == mutator
    &&& o.start == node.start
    &&& o.end == node.end
    &&& o.replacement == replacement
    &&& o.shape == shape
    &&& o.item_path == c.item_path()
    &&& o.trait_impl == c.trait_impl
}

pub(crate) proof fn lemma_offered_over(s: Setting, c: Scope, mutator: Seq<char>, node: Node, replacement: Seq<char>, index: u32, shape: Shape)
    ensures
        offered(s, c, offer_over(s, c, mutator, node, replacement, index, shape), node, mutator, replacement, shape),
{
    let all = offer_over(s, c, mutator, node, replacement, index, shape);
    if is_worth(s, c, node, mutator, replacement, shape) {
        assert(is_over(c, all[0], node, mutator, replacement, shape));
    }
}

pub(crate) proof fn lemma_offered_join(
    s: Setting,
    c: Scope,
    left: Seq<Offer>,
    right: Seq<Offer>,
    node: Node,
    mutator: Seq<char>,
    replacement: Seq<char>,
    shape: Shape,
)
    requires
        offered(s, c, left, node, mutator, replacement, shape) || offered(s, c, right, node, mutator, replacement, shape),
    ensures
        offered(s, c, left + right, node, mutator, replacement, shape),
{
    let all = left + right;
    if is_worth(s, c, node, mutator, replacement, shape) {
        if exists|i: int| 0 <= i < left.len() && is_over(c, #[trigger] left[i], node, mutator, replacement, shape) {
            let i = choose|i: int| 0 <= i < left.len() && is_over(c, #[trigger] left[i], node, mutator, replacement, shape);
            assert(is_over(c, all[i], node, mutator, replacement, shape));
        } else {
            let i = choose|i: int| 0 <= i < right.len() && is_over(c, #[trigger] right[i], node, mutator, replacement, shape);
            assert(is_over(c, all[left.len() + i], node, mutator, replacement, shape));
        }
    }
}

/// Whether a construct is an expression with mutants of its own.
pub open spec fn has_own(kind: Kind) -> bool {
    match kind {
        Kind::Binary
        | Kind::Negate
        | Kind::Not
        | Kind::If
        | Kind::While
        | Kind::Match
        | Kind::StructExpr
        | Kind::Range { .. }
        | Kind::Break
        | Kind::Continue
        | Kind::Call
        | Kind::PathExpr
        | Kind::Assign
        | Kind::MethodCall
        | Kind::Index
        | Kind::Return
        | Kind::Lit => true,
        _ => false,
    }
}

/// What an expression has for itself is found by a walk.
pub(crate) proof fn lemma_own_offered(
    s: Setting,
    c: Scope,
    e: Node,
    node: Node,
    mutator: Seq<char>,
    replacement: Seq<char>,
    shape: Shape,
)
    requires
        has_own(e.kind),
        !is_left_alone(e, s.cfg),
        offered(s, c, own_offers(s, c, e), node, mutator, replacement, shape),
    ensures
        offered(s, c, visit(s, c, e), node, mutator, replacement, shape),
{
    let own = own_offers(s, c, e);
    let rest = match e.kind {
        Kind::MethodCall => if super::super::collector::predicates::diagnostic(e.word(1), e.all_of(3).len()) {
            match e.kid(0) {
                Some(receiver) => visit(s, c, receiver),
                None => Seq::empty(),
            }
        } else {
            visit_all(s, c, e.inside())
        },
        Kind::While => visit_all(s, loop_scope(c, e), e.inside()),
        _ => visit_all(s, c, e.inside()),
    };
    lemma_offered_join(s, c, own, rest, node, mutator, replacement, shape);
    assert(visit(s, c, e) == own + rest);
}

// ---- Conditions. ----

proof fn lemma_condition(
    s: Setting,
    c: Scope,
    negate: Seq<char>,
    always_true: Seq<char>,
    always_false: Seq<char>,
    condition: Node,
)
    requires
        !binding(condition),
    ensures
        ({
            let all = condition_offers(s, c, negate, always_true, always_false, condition);
            &&& offered(s, c, all, condition, negate, "!("@ + source_of(s.text, condition) + ")"@, Shape::Expr)
            &&& boolean(condition) != Some(true) ==> offered(s, c, all, condition, always_true, "true"@, Shape::Expr)
            &&& boolean(condition) != Some(false) ==> offered(s, c, all, condition, always_false, "false"@, Shape::Expr)
        }),
{
    let text = "!("@ + source_of(s.text, condition) + ")"@;
    let one = negated(s, c, negate, condition);
    let two = if boolean(condition) != Some(true) {
        offer_over(s, c, always_true, condition, "true"@, 1, Shape::Expr)
    } else {
        Seq::empty()
    };
    let three = if boolean(condition) != Some(false) {
        offer_over(s, c, always_false, condition, "false"@, 2, Shape::Expr)
    } else {
        Seq::empty()
    };
    lemma_offered_over(s, c, negate, condition, text, 0, Shape::Expr);
    lemma_offered_over(s, c, always_true, condition, "true"@, 1, Shape::Expr);
    lemma_offered_over(s, c, always_false, condition, "false"@, 2, Shape::Expr);
    lemma_offered_join(s, c, one, two, condition, negate, text, Shape::Expr);
    lemma_offered_join(s, c, one + two, three, condition, negate, text, Shape::Expr);
    if boolean(condition) != Some(true) {
        lemma_offered_join(s, c, one, two, condition, always_true, "true"@, Shape::Expr);
        lemma_offered_join(s, c, one + two, three, condition, always_true, "true"@, Shape::Expr);
    }
    if boolean(condition) != Some(false) {
        lemma_offered_join(s, c, one + two, three, condition, always_false, "false"@, Shape::Expr);
    }
}

/// A condition is turned into its opposite, and forced either way unless it is so already. That of a loop
/// is only turned: a loop that is forced would never end, or never begin.
pub proof fn law_conditions_are_turned_and_forced(s: Setting, c: Scope, e: Node, condition: Node)
    requires
        e.kind == Kind::If && e.kid(0) == Some(condition) || e.kind == Kind::While && e.kid(1) == Some(condition),
        !binding(condition),
        !is_left_alone(e, s.cfg),
    ensures
        offered(s, c, visit(s, c, e), condition, "cond.negate"@, "!("@ + source_of(s.text, condition) + ")"@, Shape::Expr),
        e.kind == Kind::If && boolean(condition) != Some(true) ==> offered(
            s,
            c,
            visit(s, c, e),
            condition,
            "cond.always_true"@,
            "true"@,
            Shape::Expr,
        ),
        e.kind == Kind::If && boolean(condition) != Some(false) ==> offered(
            s,
            c,
            visit(s, c, e),
            condition,
            "cond.always_false"@,
            "false"@,
            Shape::Expr,
        ),
        e.kind == Kind::While ==> own_offers(s, c, e).len() <= 1,
{
    let text = "!("@ + source_of(s.text, condition) + ")"@;
    lemma_condition(s, c, "cond.negate"@, "cond.always_true"@, "cond.always_false"@, condition);
    if e.kind == Kind::While {
        lemma_offered_over(s, c, "cond.negate"@, condition, text, 0, Shape::Expr);
        assert(own_offers(s, c, e) == negated(s, c, "cond.negate"@, condition));
    }
    lemma_own_offered(s, c, e, condition, "cond.negate"@, text, Shape::Expr);
    if e.kind == Kind::If {
        if boolean(condition) != Some(true) {
            lemma_own_offered(s, c, e, condition, "cond.always_true"@, "true"@, Shape::Expr);
        }
        if boolean(condition) != Some(false) {
            lemma_own_offered(s, c, e, condition, "cond.always_false"@, "false"@, Shape::Expr);
        }
    }
}

/// Whether a condition is written as a truth value, in brackets or not.
pub proof fn law_a_truth_value_is_known(e: Node, lit: Node, value: bool)
    requires
        e.kind == Kind::Lit,
        e.kid(0) == Some(lit),
    ensures
        lit.kind == (Kind::LitBool { value }) ==> boolean(e) == Some(value),
        lit.kind != (Kind::LitBool { value: true }) && lit.kind != (Kind::LitBool { value: false }) ==> boolean(e) is None,
{
}

/// A condition that binds a pattern is left as it is.
pub proof fn law_a_condition_that_binds_is_left_alone(s: Setting, c: Scope, e: Node, condition: Node)
    requires
        e.kind == Kind::If && e.kid(0) == Some(condition) || e.kind == Kind::While && e.kid(1) == Some(condition),
        condition.kind == Kind::Let,
    ensures
        own_offers(s, c, e).len() == 0,
{
    assert(binding(condition));
}

// ---- Match arms. ----

proof fn lemma_arm_offered(
    s: Setting,
    c: Scope,
    arms: Seq<Node>,
    wildcard: int,
    count: int,
    i: int,
    node: Node,
    mutator: Seq<char>,
    replacement: Seq<char>,
    shape: Shape,
)
    requires
        0 <= i < arms.len(),
        offered(s, c, arm_offers(s, c, arms[i], i < wildcard && wildcard < count), node, mutator, replacement, shape),
    ensures
        offered(s, c, arms_offers(s, c, arms, wildcard, count), node, mutator, replacement, shape),
    decreases arms.len(),
{
    let front = arms_offers(s, c, arms.drop_last(), wildcard, count);
    let own = arm_offers(s, c, arms.last(), arms.len() - 1 < wildcard && wildcard < count);
    if i < arms.len() - 1 {
        lemma_arm_offered(s, c, arms.drop_last(), wildcard, count, i, node, mutator, replacement, shape);
    }
    lemma_offered_join(s, c, front, own, node, mutator, replacement, shape);
}

/// The guard of an arm is turned and forced as a condition is.
pub proof fn law_guards_are_turned_and_forced(s: Setting, c: Scope, e: Node, i: int, guard: Node)
    requires
        e.kind == Kind::Match,
        !is_left_alone(e, s.cfg),
        0 <= i < e.all_of(1).len(),
        !s.cfg.skips(e.all_of(1)[i].attrs@),
        e.all_of(1)[i].kids@.len() > 0,
        e.all_of(1)[i].kids@[0].kind == Kind::PatGuard,
        e.all_of(1)[i].kids@[0].kid(1) == Some(guard),
        !binding(guard),
    ensures
        offered(s, c, visit(s, c, e), guard, "match_guard.negate"@, "!("@ + source_of(s.text, guard) + ")"@, Shape::Expr),
        boolean(guard) != Some(true) ==> offered(s, c, visit(s, c, e), guard, "match_guard.always_true"@, "true"@, Shape::Expr),
        boolean(guard) != Some(false) ==> offered(s, c, visit(s, c, e), guard, "match_guard.always_false"@, "false"@, Shape::Expr),
{
    let arms = e.all_of(1);
    let text = "!("@ + source_of(s.text, guard) + ")"@;
    let (wildcard, count) = (first_catch(arms, s.cfg), arms.len() as int);
    lemma_condition(s, c, "match_guard.negate"@, "match_guard.always_true"@, "match_guard.always_false"@, guard);
    lemma_arm_offered(s, c, arms, wildcard, count, i, guard, "match_guard.negate"@, text, Shape::Expr);
    lemma_own_offered(s, c, e, guard, "match_guard.negate"@, text, Shape::Expr);
    if boolean(guard) != Some(true) {
        lemma_arm_offered(s, c, arms, wildcard, count, i, guard, "match_guard.always_true"@, "true"@, Shape::Expr);
        lemma_own_offered(s, c, e, guard, "match_guard.always_true"@, "true"@, Shape::Expr);
    }
    if boolean(guard) != Some(false) {
        lemma_arm_offered(s, c, arms, wildcard, count, i, guard, "match_guard.always_false"@, "false"@, Shape::Expr);
        lemma_own_offered(s, c, e, guard, "match_guard.always_false"@, "false"@, Shape::Expr);
    }
}

/// Whether an arm matches whatever comes to it, in every build.
pub open spec fn is_wild(arm: Node) -> bool {
    arm.attrs@.len() == 0 && arm.kids@.len() > 0 && arm.kids@[0].kind == Kind::PatWild
}

proof fn lemma_wild(arms: Seq<Node>, s: Setting, at: int)
    requires
        0 <= at < arms.len(),
        is_wild(arms[at]),
    ensures
        first_catch(arms, s.cfg) <= at,
    decreases arms.len(),
{
    if at == arms.len() - 1 {
        let last = arms.last();
        assert(last.kid(0) == Some(last.kids@[0]));
        assert(catches(last, s.cfg));
        lemma_catch_bound(arms.drop_last(), s);
    } else {
        assert(arms.drop_last()[at] == arms[at]);
        lemma_wild(arms.drop_last(), s, at);
    }
}

proof fn lemma_catch_bound(arms: Seq<Node>, s: Setting)
    ensures
        0 <= first_catch(arms, s.cfg) <= arms.len(),
        forall|i: int| 0 <= i < first_catch(arms, s.cfg) ==> !catches(#[trigger] arms[i], s.cfg),
    decreases arms.len(),
{
    if arms.len() > 0 {
        lemma_catch_bound(arms.drop_last(), s);
        let front = arms.drop_last();
        assert forall|i: int| 0 <= i < first_catch(arms, s.cfg) implies !catches(#[trigger] arms[i], s.cfg) by {
            if i < front.len() {
                assert(front[i] == arms[i]);
            }
        }
    }
}

/// An arm without a guard is stopped from matching where something behind it catches what it lets through,
/// and nothing in front of it catches everything. The arm that does catch everything is not stopped.
pub proof fn law_arms_in_front_of_a_wildcard_are_stopped(s: Setting, c: Scope, e: Node, i: int, wild: int)
    requires
        e.kind == Kind::Match,
        !is_left_alone(e, s.cfg),
        0 <= i < wild < e.all_of(1).len(),
        is_wild(e.all_of(1)[wild]),
        forall|k: int| 0 <= k <= i ==> !catches(#[trigger] e.all_of(1)[k], s.cfg),
        !s.cfg.skips(e.all_of(1)[i].attrs@),
        e.all_of(1)[i].kids@.len() > 0,
        e.all_of(1)[i].kids@[0].kind != Kind::PatGuard,
    ensures
        offered(s, c, visit(s, c, e), e.all_of(1)[i].kids@[0], "match_arm.never_matches"@, ""@, Shape::Arm),
{
    let arms = e.all_of(1);
    let pat = arms[i].kids@[0];
    let (wildcard, count) = (first_catch(arms, s.cfg), arms.len() as int);
    lemma_wild(arms, s, wild);
    lemma_catch_bound(arms, s);
    lemma_first_is_caught(arms, s);
    if wildcard <= i {
        assert(catches(arms[wildcard], s.cfg));
    }
    lemma_offered_over(s, c, "match_arm.never_matches"@, pat, ""@, 0, Shape::Arm);
    lemma_arm_offered(s, c, arms, wildcard, count, i, pat, "match_arm.never_matches"@, ""@, Shape::Arm);
    lemma_own_offered(s, c, e, pat, "match_arm.never_matches"@, ""@, Shape::Arm);
}

proof fn lemma_first_is_caught(arms: Seq<Node>, s: Setting)
    ensures
        first_catch(arms, s.cfg) < arms.len() ==> catches(arms[first_catch(arms, s.cfg)], s.cfg),
    decreases arms.len(),
{
    if arms.len() > 0 {
        lemma_catch_bound(arms.drop_last(), s);
        lemma_first_is_caught(arms.drop_last(), s);
        let k = first_catch(arms.drop_last(), s.cfg);
        if k < arms.len() - 1 {
            assert(arms.drop_last()[k] == arms[k]);
        }
    }
}

// ---- Unary operators, ranges and jumps. ----

/// A sign is taken away, unless it is that of nothing, and so is a negation.
pub proof fn law_signs_and_negations_are_taken_away(s: Setting, c: Scope, e: Node, operand: Node)
    requires
        e.kid(0) == Some(operand),
        !is_left_alone(e, s.cfg),
    ensures
        e.kind == Kind::Negate && digits(operand) != Some("0"@) ==> offered(
            s,
            c,
            visit(s, c, e),
            e,
            "unary.remove_neg"@,
            source_of(s.text, operand),
            Shape::Expr,
        ),
        e.kind == Kind::Not ==> offered(s, c, visit(s, c, e), e, "unary.remove_not"@, source_of(s.text, operand), Shape::Expr),
{
    let text = source_of(s.text, operand);
    lemma_offered_over(s, c, "unary.remove_neg"@, e, text, 0, Shape::Expr);
    lemma_offered_over(s, c, "unary.remove_not"@, e, text, 0, Shape::Expr);
    if e.kind == Kind::Negate && digits(operand) != Some("0"@) {
        lemma_own_offered(s, c, e, e, "unary.remove_neg"@, text, Shape::Expr);
    }
    if e.kind == Kind::Not {
        lemma_own_offered(s, c, e, e, "unary.remove_not"@, text, Shape::Expr);
    }
}

/// A range that stops short of its end is made to reach it, and one that reaches it to stop short. Where it
/// begins stays as it is.
pub proof fn law_ranges_are_moved_by_one(s: Setting, c: Scope, e: Node, closed: bool, end: Node)
    requires
        e.kind == (Kind::Range { closed }),
        e.first_of(1) == Some(end),
        !is_left_alone(e, s.cfg),
    ensures
        ({
            let start = match e.first_of(0) {
                Some(start) => "("@ + source_of(s.text, start) + ")"@,
                None => ""@,
            };
            &&& !closed ==> offered(
                s,
                c,
                visit(s, c, e),
                e,
                "range.exclusive_to_inclusive"@,
                start + "..(("@ + source_of(s.text, end) + ") + 1)"@,
                Shape::Expr,
            )
            &&& closed ==> offered(
                s,
                c,
                visit(s, c, e),
                e,
                "range.inclusive_to_exclusive"@,
                start + "..=(("@ + source_of(s.text, end) + ") - 1)"@,
                Shape::Expr,
            )
        }),
{
    let start = match e.first_of(0) {
        Some(start) => "("@ + source_of(s.text, start) + ")"@,
        None => ""@,
    };
    let (mutator, text) = if closed {
        ("range.inclusive_to_exclusive"@, start + "..=(("@ + source_of(s.text, end) + ") - 1)"@)
    } else {
        ("range.exclusive_to_inclusive"@, start + "..(("@ + source_of(s.text, end) + ") + 1)"@)
    };
    let own = offer_over(s, c, mutator, e, text, 0, Shape::Expr);
    let two = perturbed_if_known(s, c, end);
    let three = match e.first_of(0) {
        Some(start) => perturbed_if_known(s, c, start),
        None => Seq::empty(),
    };
    lemma_offered_over(s, c, mutator, e, text, 0, Shape::Expr);
    lemma_offered_join(s, c, own, two, e, mutator, text, Shape::Expr);
    lemma_offered_join(s, c, own + two, three, e, mutator, text, Shape::Expr);
    assert(own_offers(s, c, e) == own + two + three);
    lemma_own_offered(s, c, e, e, mutator, text, Shape::Expr);
}

/// Whether the loop that a jump is in gives a value when it is left.
pub open spec fn leaves_with_value(c: Scope) -> bool {
    c.loops.len() > 0 && c.loops.last().1
}

/// A plain `break` becomes a `continue`, and a `continue` a `break` out of the same loop, unless a value is
/// owed there.
pub proof fn law_jumps_are_exchanged(s: Setting, c: Scope, e: Node)
    requires
        !is_left_alone(e, s.cfg),
    ensures
        e.kind == Kind::Break && e.first_of(0) is None && e.first_of(1) is None ==> offered(
            s,
            c,
            visit(s, c, e),
            e,
            "loop.break_to_continue"@,
            "continue"@,
            Shape::Break,
        ),
        e.kind == Kind::Continue && e.first_of(0) is None && !leaves_with_value(c) ==> offered(
            s,
            c,
            visit(s, c, e),
            e,
            "loop.continue_to_break"@,
            "break"@,
            Shape::Continue,
        ),
        e.kind == Kind::Continue && (e.first_of(0) matches Some(name) && c.loops.len() > 0 && c.loops.last() == (Some(name.text@), false))
            ==> offered(
            s,
            c,
            visit(s, c, e),
            e,
            "loop.continue_to_break"@,
            "break '"@ + e.first_of(0)->0.text@,
            Shape::Continue,
        ),
        e.kind == Kind::Continue && e.first_of(0) is None && leaves_with_value(c) ==> own_offers(s, c, e).len() == 0,
        e.kind == Kind::Break && (e.first_of(0) is Some || e.first_of(1) is Some) ==> own_offers(s, c, e).len() == 0,
{
    lemma_offered_over(s, c, "loop.break_to_continue"@, e, "continue"@, 0, Shape::Break);
    lemma_offered_over(s, c, "loop.continue_to_break"@, e, "break"@, 0, Shape::Continue);
    if e.kind == Kind::Break && e.first_of(0) is None && e.first_of(1) is None {
        lemma_own_offered(s, c, e, e, "loop.break_to_continue"@, "continue"@, Shape::Break);
    }
    if e.kind == Kind::Continue {
        match e.first_of(0) {
            None => {
                if !leaves_with_value(c) {
                    lemma_own_offered(s, c, e, e, "loop.continue_to_break"@, "break"@, Shape::Continue);
                }
            },
            Some(name) => {
                lemma_offered_over(s, c, "loop.continue_to_break"@, e, "break '"@ + name.text@, 0, Shape::Continue);
                if c.loops.len() > 0 && c.loops.last() == (Some(name.text@), false) {
                    lemma_own_offered(s, c, e, e, "loop.continue_to_break"@, "break '"@ + name.text@, Shape::Continue);
                }
            },
        }
    }
}

// ---- Calls. ----

/// Whether an expression is a call, with so many arguments, of something whose name ends so.
pub open spec fn is_call_of(e: Node, name: Seq<char>, args: nat) -> bool {
    &&& e.kind == Kind::Call
    &&& e.kids@.len() > 0
    &&& e.kids@[0].kind == Kind::PathExpr
    &&& e.kids@[0].kids@.len() > 1
    &&& last_name(e.kids@[0].kids@[1]) == Some(name)
    &&& e.all_of(1).len() == args
}

/// What is there becomes nothing, a success a failure unless there is no default for that, and a failure a
/// success: what is made is always the opposite of what is called.
pub proof fn law_what_is_made_is_the_opposite(s: Setting, c: Scope, e: Node)
    requires
        !is_left_alone(e, s.cfg),
    ensures
        is_call_of(e, "Some"@, 1) ==> offered(s, c, visit(s, c, e), e, "option.some_to_none"@, "None"@, Shape::Expr),
        is_call_of(e, "Ok"@, 1) && !c.foreign_error_return ==> offered(
            s,
            c,
            visit(s, c, e),
            e,
            "result.ok_to_err"@,
            "Err(Default::default())"@,
            Shape::Expr,
        ),
        is_call_of(e, "Err"@, 1) ==> offered(s, c, visit(s, c, e), e, "result.err_to_ok"@, "Ok(Default::default())"@, Shape::Expr),
{
    reveal_strlit("Some");
    reveal_strlit("Ok");
    reveal_strlit("Err");
    assert("Some"@.len() == 4 && "Ok"@.len() == 2 && "Err"@.len() == 3);
    if is_call_of(e, "Some"@, 1) || is_call_of(e, "Ok"@, 1) || is_call_of(e, "Err"@, 1) {
        let callee = called_name(e.kids@[0]);
        assert(e.kids@[0].kid(1) == Some(e.kids@[0].kids@[1]));
        let one = perturbed_arguments(s, c, callee, e.all_of(1));
        let (mutator, text) = if callee == Some("Some"@) {
            ("option.some_to_none"@, "None"@)
        } else if callee == Some("Ok"@) {
            ("result.ok_to_err"@, "Err(Default::default())"@)
        } else {
            ("result.err_to_ok"@, "Ok(Default::default())"@)
        };
        let two = offer_over(s, c, mutator, e, text, 0, Shape::Expr);
        lemma_offered_over(s, c, mutator, e, text, 0, Shape::Expr);
        lemma_offered_join(s, c, one, two, e, mutator, text, Shape::Expr);
        if callee == Some("Ok"@) && c.foreign_error_return {
        } else {
            assert(own_offers(s, c, e) == one + two);
            lemma_own_offered(s, c, e, e, mutator, text, Shape::Expr);
        }
    }
}

/// Only what makes an option or a result is made into its opposite: of any other call nothing is replaced
/// but its arguments.
pub proof fn law_other_calls_are_not_replaced(s: Setting, c: Scope, e: Node, name: Seq<char>, args: nat, i: int)
    requires
        is_call_of(e, name, args),
        args != 1 || name != "Some"@ && name != "Ok"@ && name != "Err"@,
        0 <= i < own_offers(s, c, e).len(),
    ensures
        own_offers(s, c, e)[i].mutator == "expr.increment"@ || own_offers(s, c, e)[i].mutator == "expr.decrement"@,
{
    assert(e.kids@[0].kid(1) == Some(e.kids@[0].kids@[1]));
    let callee = called_name(e.kids@[0]);
    let one = perturbed_arguments(s, c, callee, e.all_of(1));
    assert(own_offers(s, c, e) =~= one);
    lemma_perturbed_mutators(s, c, e.all_of(1));
}

pub(crate) proof fn lemma_perturbed_mutators(s: Setting, c: Scope, args: Seq<Node>)
    ensures
        forall|i: int| 0 <= i < perturbed_each(s, c, args).len() ==> (#[trigger] perturbed_each(s, c, args)[i]).mutator == "expr.increment"@
            || perturbed_each(s, c, args)[i].mutator == "expr.decrement"@,
    decreases args.len(),
{
    if args.len() > 0 {
        lemma_perturbed_mutators(s, c, args.drop_last());
    }
}

/// Nothing becomes something.
pub proof fn law_nothing_becomes_something(s: Setting, c: Scope, e: Node)
    requires
        e.kind == Kind::PathExpr,
        e.kids@.len() > 1,
        path_ident(e.kids@[1]) == Some("None"@),
        !is_left_alone(e, s.cfg),
    ensures
        offered(s, c, visit(s, c, e), e, "option.none_to_some"@, "Some(Default::default())"@, Shape::Expr),
{
    assert(e.kid(1) == Some(e.kids@[1]));
    lemma_offered_over(s, c, "option.none_to_some"@, e, "Some(Default::default())"@, 0, Shape::Expr);
    lemma_own_offered(s, c, e, e, "option.none_to_some"@, "Some(Default::default())"@, Shape::Expr);
}

/// What is assigned becomes a default, unless it is one.
pub proof fn law_what_is_assigned_becomes_a_default(s: Setting, c: Scope, e: Node, value: Node)
    requires
        e.kind == Kind::Assign,
        e.kid(1) == Some(value),
        !default_call(value, s.spellings, c.defaulted),
        !is_left_alone(e, s.cfg),
    ensures
        offered(s, c, visit(s, c, e), value, "assign_value.default"@, "Default::default()"@, Shape::Expr),
{
    lemma_offered_over(s, c, "assign_value.default"@, value, "Default::default()"@, 0, Shape::Expr);
    lemma_own_offered(s, c, e, value, "assign_value.default"@, "Default::default()"@, Shape::Expr);
}

/// Two methods that are each other's opposite, and how many arguments they take at least and at most.
pub open spec fn are_opposite(method: Seq<char>, other: Seq<char>, mutator: Seq<char>, least: nat, most: nat) -> bool {
    ||| (method, other, mutator, least, most) == ("any"@, "all"@, "iter.any_to_all"@, 1nat, 1nat)
    ||| (method, other, mutator, least, most) == ("all"@, "any"@, "iter.all_to_any"@, 1nat, 1nat)
    ||| (method, other, mutator, least, most) == ("min"@, "max"@, "iter.min_to_max"@, 0nat, 1nat)
    ||| (method, other, mutator, least, most) == ("max"@, "min"@, "iter.max_to_min"@, 0nat, 1nat)
    ||| (method, other, mutator, least, most) == ("first"@, "last"@, "iter.first_to_last"@, 0nat, 0nat)
    ||| (method, other, mutator, least, most) == ("last"@, "first"@, "iter.last_to_first"@, 0nat, 0nat)
    ||| (method, other, mutator, least, most) == ("starts_with"@, "ends_with"@, "string.starts_with_to_ends_with"@, 1nat, 1nat)
    ||| (method, other, mutator, least, most) == ("ends_with"@, "starts_with"@, "string.ends_with_to_starts_with"@, 1nat, 1nat)
    ||| (method, other, mutator, least, most) == ("to_lowercase"@, "to_uppercase"@, "string.lower_to_upper"@, 0nat, 0nat)
    ||| (method, other, mutator, least, most) == ("to_uppercase"@, "to_lowercase"@, "string.upper_to_lower"@, 0nat, 0nat)
    ||| (method, other, mutator, least, most) == ("to_ascii_lowercase"@, "to_ascii_uppercase"@, "string.lower_to_upper"@, 0nat, 0nat)
    ||| (method, other, mutator, least, most) == ("to_ascii_uppercase"@, "to_ascii_lowercase"@, "string.upper_to_lower"@, 0nat, 0nat)
    ||| (method, other, mutator, least, most) == ("trim_start"@, "trim_end"@, "string.trim_start_to_trim_end"@, 0nat, 0nat)
    ||| (method, other, mutator, least, most) == ("trim_end"@, "trim_start"@, "string.trim_end_to_trim_start"@, 0nat, 0nat)
}

/// How long a word is, and some of its letters.
spec fn letters(word: Seq<char>) -> (nat, char, char) {
    (
        word.len(),
        word[0],
        if word.len() >= 9 {
            word[word.len() - 9]
        } else {
            word[1]
        },
    )
}

/// No two of the methods with an opposite are named alike.
proof fn lemma_methods_differ()
    ensures
        letters("any"@) == (3nat, 'a', 'n'),
        letters("all"@) == (3nat, 'a', 'l'),
        letters("min"@) == (3nat, 'm', 'i'),
        letters("max"@) == (3nat, 'm', 'a'),
        letters("first"@) == (5nat, 'f', 'i'),
        letters("last"@) == (4nat, 'l', 'a'),
        letters("starts_with"@) == (11nat, 's', 'a'),
        letters("ends_with"@) == (9nat, 'e', 'e'),
        letters("to_lowercase"@) == (12nat, 't', 'l'),
        letters("to_uppercase"@) == (12nat, 't', 'u'),
        letters("to_ascii_lowercase"@) == (18nat, 't', 'l'),
        letters("to_ascii_uppercase"@) == (18nat, 't', 'u'),
        letters("trim_start"@) == (10nat, 't', 'r'),
        letters("trim_end"@) == (8nat, 't', 'r'),
{
    reveal_strlit("any");
    reveal_strlit("all");
    reveal_strlit("min");
    reveal_strlit("max");
    reveal_strlit("first");
    reveal_strlit("last");
    reveal_strlit("starts_with");
    reveal_strlit("ends_with");
    reveal_strlit("to_lowercase");
    reveal_strlit("to_uppercase");
    reveal_strlit("to_ascii_lowercase");
    reveal_strlit("to_ascii_uppercase");
    reveal_strlit("trim_start");
    reveal_strlit("trim_end");
}

/// A method has another name exactly where there is one that is its opposite and takes as many arguments.
pub proof fn law_methods_are_exchanged_for_their_opposites(method: Seq<char>, arity: nat)
    ensures
        rename_of(method, arity) matches Some((mutator, other)) ==> exists|least: nat, most: nat| #[trigger]
            are_opposite(method, other, mutator, least, most) && least <= arity <= most,
        forall|other: Seq<char>, mutator: Seq<char>, least: nat, most: nat| #[trigger]
            are_opposite(method, other, mutator, least, most) && least <= arity <= most ==> rename_of(method, arity) == Some((mutator, other)),
{
    lemma_methods_differ();
    if let Some((mutator, other)) = rename_of(method, arity) {
        let (least, most) = if method == "any"@ || method == "all"@ || method == "starts_with"@ || method == "ends_with"@ {
            (1nat, 1nat)
        } else if method == "min"@ || method == "max"@ {
            (0nat, 1nat)
        } else {
            (0nat, 0nat)
        };
        assert(are_opposite(method, other, mutator, least, most));
    }
}

/// A method with an opposite is called by that name instead, and all else of the call stays as it is.
pub proof fn law_a_method_is_called_by_its_opposite(
    s: Setting,
    c: Scope,
    e: Node,
    name: Node,
    other: Seq<char>,
    mutator: Seq<char>,
    least: nat,
    most: nat,
)
    requires
        e.kind == Kind::MethodCall,
        !is_left_alone(e, s.cfg),
        e.kid(1) == Some(name),
        are_opposite(name.text@, other, mutator, least, most),
        least <= e.all_of(3).len() <= most,
        e.start <= name.start,
        name.end <= e.end,
        sliceable(s.text, e.start as int, name.start as int),
        sliceable(s.text, name.end as int, e.end as int),
    ensures
        offered(
            s,
            c,
            visit(s, c, e),
            e,
            mutator,
            slice(s.text, e.start as int, name.start as int) + other + slice(s.text, name.end as int, e.end as int),
            Shape::Expr,
        ),
{
    law_methods_are_exchanged_for_their_opposites(name.text@, e.all_of(3).len());
    assert(e.word(1) == name.text@);
    let text = slice(s.text, e.start as int, name.start as int) + other + slice(s.text, name.end as int, e.end as int);
    let one = perturbed_arguments(s, c, Some(e.word(1)), e.all_of(3));
    let two = offer_over(s, c, mutator, e, text, 0, Shape::Expr);
    lemma_offered_over(s, c, mutator, e, text, 0, Shape::Expr);
    lemma_offered_join(s, c, one, two, e, mutator, text, Shape::Expr);
    assert(rename_offers(s, c, e, e.word(1)) == two);
    assert(own_offers(s, c, e) == one + two);
    lemma_own_offered(s, c, e, e, mutator, text, Shape::Expr);
}

// ---- Numbers. ----

/// A number where it counts is made one more and one less.
pub(crate) proof fn lemma_perturbed(s: Setting, c: Scope, e: Node)
    requires
        !diverging(e),
        !capacity_result(e),
        source_of(s.text, e).len() > 0,
    ensures
        offered(s, c, perturbed(s, c, e), e, "expr.increment"@, "("@ + source_of(s.text, e) + ") + 1"@, Shape::Expr),
        offered(s, c, perturbed(s, c, e), e, "expr.decrement"@, "("@ + source_of(s.text, e) + ") - 1"@, Shape::Expr),
{
    let source = source_of(s.text, e);
    let (up, down) = ("("@ + source + ") + 1"@, "("@ + source + ") - 1"@);
    let one = offer_over(s, c, "expr.increment"@, e, up, 0, Shape::Expr);
    let two = offer_over(s, c, "expr.decrement"@, e, down, 1, Shape::Expr);
    lemma_offered_over(s, c, "expr.increment"@, e, up, 0, Shape::Expr);
    lemma_offered_over(s, c, "expr.decrement"@, e, down, 1, Shape::Expr);
    lemma_offered_join(s, c, one, two, e, "expr.increment"@, up, Shape::Expr);
    lemma_offered_join(s, c, one, two, e, "expr.decrement"@, down, Shape::Expr);
}

proof fn lemma_argument_perturbed(s: Setting, c: Scope, args: Seq<Node>, i: int)
    requires
        0 <= i < args.len(),
        is_counted(s, c, args[i]),
    ensures
        is_moved(s, c, perturbed_each(s, c, args), args[i]),
    decreases args.len(),
{
    let front = perturbed_each(s, c, args.drop_last());
    let own = perturbed_if_known(s, c, args.last());
    let e = args[i];
    let source = source_of(s.text, e);
    if i < args.len() - 1 {
        lemma_argument_perturbed(s, c, args.drop_last(), i);
    } else {
        lemma_perturbed(s, c, e);
    }
    lemma_offered_join(s, c, front, own, e, "expr.increment"@, "("@ + source + ") + 1"@, Shape::Expr);
    lemma_offered_join(s, c, front, own, e, "expr.decrement"@, "("@ + source + ") - 1"@, Shape::Expr);
}

/// Whether an expression is known to be a number, and gives one.
pub open spec fn is_counted(s: Setting, c: Scope, e: Node) -> bool {
    &&& known_numeric(s, c, e)
    &&& !textual(e)
    &&& !diverging(e)
    &&& !capacity_result(e)
    &&& source_of(s.text, e).len() > 0
}

/// Whether an expression is made one more and one less.
pub open spec fn is_moved(s: Setting, c: Scope, all: Seq<Offer>, e: Node) -> bool {
    &&& offered(s, c, all, e, "expr.increment"@, "("@ + source_of(s.text, e) + ") + 1"@, Shape::Expr)
    &&& offered(s, c, all, e, "expr.decrement"@, "("@ + source_of(s.text, e) + ") - 1"@, Shape::Expr)
}

/// A number that is handed to a function, that picks an element or that a range ends or begins with is made
/// one more and one less. What only reserves room is not: nothing would tell.
pub proof fn law_numbers_that_count_are_moved_by_one(s: Setting, c: Scope, e: Node, number: Node)
    requires
        !is_left_alone(e, s.cfg),
        is_counted(s, c, number),
        ({
            ||| e.kind == Kind::Index && e.kid(1) == Some(number)
            ||| e.kind == Kind::Call && e.kids@.len() > 0 && (called_name(e.kids@[0]) matches Some(name) ==> !reserves_room(name))
                && e.all_of(1).contains(number)
            ||| e.kind == Kind::MethodCall && !reserves_room(e.word(1)) && e.all_of(3).contains(number)
            ||| (e.kind == (Kind::Range { closed: true }) || e.kind == (Kind::Range { closed: false })) && e.first_of(1) is Some && (e.first_of(
                0,
            ) == Some(number) || e.first_of(1) == Some(number))
        }),
    ensures
        is_moved(s, c, visit(s, c, e), number),
{
    let source = source_of(s.text, number);
    let (up, down) = ("("@ + source + ") + 1"@, "("@ + source + ") - 1"@);
    lemma_perturbed(s, c, number);
    assert(is_moved(s, c, perturbed_if_known(s, c, number), number));
    match e.kind {
        Kind::Call => {
            let args = e.all_of(1);
            let i = choose|i: int| 0 <= i < args.len() && args[i] == number;
            lemma_argument_perturbed(s, c, args, i);
            let one = perturbed_arguments(s, c, called_name(e.kids@[0]), args);
            let two = own_offers(s, c, e).skip(one.len() as int);
            assert(own_offers(s, c, e) =~= one + two);
            lemma_offered_join(s, c, one, two, number, "expr.increment"@, up, Shape::Expr);
            lemma_offered_join(s, c, one, two, number, "expr.decrement"@, down, Shape::Expr);
        },
        Kind::MethodCall => {
            let args = e.all_of(3);
            let i = choose|i: int| 0 <= i < args.len() && args[i] == number;
            lemma_argument_perturbed(s, c, args, i);
            let one = perturbed_arguments(s, c, Some(e.word(1)), args);
            let two = rename_offers(s, c, e, e.word(1));
            lemma_offered_join(s, c, one, two, number, "expr.increment"@, up, Shape::Expr);
            lemma_offered_join(s, c, one, two, number, "expr.decrement"@, down, Shape::Expr);
        },
        Kind::Range { closed } => {
            let three = match e.first_of(0) {
                Some(start) => perturbed_if_known(s, c, start),
                None => Seq::empty(),
            };
            let two = perturbed_if_known(s, c, e.first_of(1)->0);
            let all = own_offers(s, c, e);
            let one = all.take(all.len() - two.len() - three.len());
            assert(all =~= one + two + three);
            if e.first_of(1) == Some(number) {
                lemma_offered_join(s, c, one, two, number, "expr.increment"@, up, Shape::Expr);
                lemma_offered_join(s, c, one, two, number, "expr.decrement"@, down, Shape::Expr);
            }
            lemma_offered_join(s, c, one + two, three, number, "expr.increment"@, up, Shape::Expr);
            lemma_offered_join(s, c, one + two, three, number, "expr.decrement"@, down, Shape::Expr);
        },
        _ => {},
    }
    lemma_own_offered(s, c, e, number, "expr.increment"@, up, Shape::Expr);
    lemma_own_offered(s, c, e, number, "expr.decrement"@, down, Shape::Expr);
}

/// What a function returns early is made one more and one less where the function returns a number, unless
/// it is written out.
pub proof fn law_returned_numbers_are_moved_by_one(s: Setting, c: Scope, e: Node, value: Node)
    requires
        e.kind == Kind::Return,
        e.first_of(0) == Some(value),
        !is_left_alone(e, s.cfg),
        c.numeric_return,
        !(value.kind == Kind::Lit && value.kids@.len() > 0 && value.kids@[0].kind == Kind::LitInt),
        !diverging(value),
        !capacity_result(value),
        source_of(s.text, value).len() > 0,
    ensures
        is_moved(s, c, visit(s, c, e), value),
{
    let source = source_of(s.text, value);
    lemma_perturbed(s, c, value);
    lemma_own_offered(s, c, e, value, "expr.increment"@, "("@ + source + ") + 1"@, Shape::Expr);
    lemma_own_offered(s, c, e, value, "expr.decrement"@, "("@ + source + ") - 1"@, Shape::Expr);
}

} // verus!
