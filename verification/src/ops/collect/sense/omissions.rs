//! What has no mutants, since they would say the same, could not be told apart or would not compile.
use super::super::candidate::Offer;
use super::super::collector::expressions::own_offers;
use super::super::collector::predicates::{binding, capacity_result, default_call, digits, diverging, reserves_room, textual};
use super::super::collector::scope::{known_numeric, Scope, Setting};
use super::super::collector::sites::{perturbed, perturbed_arguments, perturbed_if_known};
use super::super::collector::splices::{arm_offers, catches};
use super::super::collector::visit::visit;
use super::numbers::is_between;
use super::sites::is_call_of;
use crate::syntax::query::path_ident;
use crate::syntax::{Kind, Node, Op};
use crate::text::begins;
use vstd::prelude::*;

verus! {

/// Whether none of some candidates is of a mutator.
pub open spec fn none_is(all: Seq<Offer>, mutator: Seq<char>) -> bool {
    forall|i: int| 0 <= i < all.len() ==> (#[trigger] all[i]).mutator != mutator
}

/// What binds a pattern stays an "and": with an "or" nothing might be bound.
pub proof fn law_what_binds_stays_an_and(s: Setting, c: Scope, e: Node, left: Node, right: Node)
    requires
        is_between(e, left, Op::And, right),
        binding(left) || binding(right),
    ensures
        own_offers(s, c, e).len() == 0,
{
}

/// The sign of nothing stays.
pub proof fn law_the_sign_of_nothing_stays(s: Setting, c: Scope, e: Node, operand: Node)
    requires
        e.kind == Kind::Negate,
        e.kid(0) == Some(operand),
        digits(operand) == Some("0"@),
    ensures
        own_offers(s, c, e).len() == 0,
{
}

/// A default that is assigned stays, and so does a name other than that of nothing.
pub proof fn law_defaults_and_names_stay(s: Setting, c: Scope, e: Node)
    requires
        e.kids@.len() > 1,
    ensures
        e.kind == Kind::Assign && default_call(e.kids@[1], s.spellings, c.defaulted) ==> own_offers(s, c, e).len() == 0,
        e.kind == Kind::PathExpr && path_ident(e.kids@[1]) != Some("None"@) ==> own_offers(s, c, e).len() == 0,
{
}

/// A call is one of a default where it has no arguments and calls `default` of the trait, or of a parameter that
/// promises one, in brackets or not.
pub proof fn law_what_calls_a_default(e: Node, spellings: crate::ops::collect::defaults::Spellings, defaulted: Seq<Seq<char>>)
    ensures
        e.kind == Kind::Call && e.kids@.len() == 2 && e.kids@[1].kids@.len() > 0 ==> !default_call(e, spellings, defaulted),
        e.kind == Kind::Paren && e.kids@.len() > 0 ==> (default_call(e, spellings, defaulted) <==> default_call(
            e.kids@[0],
            spellings,
            defaulted,
        )),
        e.kind == Kind::Call && e.kids@.len() == 2 && e.kids@[1].kids@.len() == 0 && e.kids@[0].kind == Kind::PathExpr && e.kids@[0].kids@.len()
            > 1 ==> (default_call(e, spellings, defaulted) <==> {
            let names = crate::syntax::query::path_names(e.kids@[0].kids@[1]);
            names.len() >= 2 && names.last() == "default"@ && (spellings.names_function(names) || names.len() == 2 && defaulted.contains(
                names[0],
            ))
        }),
        e.kind == Kind::MethodCall || e.kind == Kind::Lit || e.kind == Kind::PathExpr ==> !default_call(e, spellings, defaulted),
{
}

/// A success stays one where its error has no default.
pub proof fn law_a_success_stays_where_its_error_has_no_default(s: Setting, c: Scope, e: Node)
    requires
        is_call_of(e, "Ok"@, 1),
        c.foreign_error_return,
    ensures
        none_is(own_offers(s, c, e), "result.ok_to_err"@),
        none_is(own_offers(s, c, e), "result.err_to_ok"@),
{
    reveal_strlit("Some");
    reveal_strlit("Ok");
    reveal_strlit("Err");
    reveal_strlit("expr.increment");
    reveal_strlit("expr.decrement");
    reveal_strlit("result.ok_to_err");
    reveal_strlit("result.err_to_ok");
    assert("Some"@.len() == 4 && "Ok"@.len() == 2 && "Err"@.len() == 3);
    assert("expr.increment"@.len() == 14 && "expr.decrement"@.len() == 14 && "result.ok_to_err"@.len() == 16);
    assert("result.err_to_ok"@.len() == 16);
    assert(e.kids@[0].kid(1) == Some(e.kids@[0].kids@[1]));
    super::sites::lemma_perturbed_mutators(s, c, e.all_of(1));
    let args = perturbed_arguments(s, c, Some("Ok"@), e.all_of(1));
    assert(own_offers(s, c, e) =~= args);
}

/// A list of fewer than two elements keeps them, and no other macro is looked into.
pub proof fn law_short_lists_and_other_macros_stay(s: Setting, c: Scope, e: Node)
    requires
        e.kind == Kind::Macro,
        e.kids@.len() == 2,
        path_ident(e.kids@[0]) != Some("vec"@) || e.kids@[1].kids@.len() < 2,
    ensures
        visit(s, c, e).len() == 0,
{
}

/// A structure without a rest keeps its fields.
pub proof fn law_fields_without_a_rest_stay(s: Setting, c: Scope, e: Node)
    requires
        e.kind == Kind::StructExpr,
        e.first_of(3) is None,
    ensures
        own_offers(s, c, e).len() == 0,
{
}

/// Nothing is less than an unsigned nothing, and what is nothing or one does not become so.
pub proof fn law_a_number_does_not_become_itself(s: Setting, c: Scope, e: Node, lit: Node)
    requires
        e.kind == Kind::Lit,
        e.kid(0) == Some(lit),
        lit.kind == Kind::LitInt,
    ensures
        lit.word(0) == "0"@ && begins(lit.word(1), "u"@) ==> none_is(own_offers(s, c, e), "literal.int_decrement"@),
        lit.word(0) == "0"@ ==> none_is(own_offers(s, c, e), "literal.int_to_zero"@),
        lit.word(0) == "1"@ ==> none_is(own_offers(s, c, e), "literal.int_to_one"@),
{
    reveal_strlit("literal.int_to_zero");
    reveal_strlit("literal.int_to_one");
    reveal_strlit("literal.int_increment");
    reveal_strlit("literal.int_decrement");
    assert("literal.int_to_zero"@.len() == 19 && "literal.int_to_one"@.len() == 18);
    assert("literal.int_increment"@.len() == 21 && "literal.int_increment"@[12] == 'i');
    assert("literal.int_decrement"@.len() == 21 && "literal.int_decrement"@[12] == 'd');
}

/// A number is moved only where it is known to be one, is no text, gives a value and does not only reserve room.
pub proof fn law_what_is_not_moved(s: Setting, c: Scope, e: Node, args: Seq<Node>, name: Seq<char>)
    ensures
        !known_numeric(s, c, e) || textual(e) || diverging(e) || capacity_result(e) ==> perturbed_if_known(s, c, e).len() == 0,
        diverging(e) || capacity_result(e) ==> perturbed(s, c, e).len() == 0,
        reserves_room(name) ==> perturbed_arguments(s, c, Some(name), args).len() == 0,
{
}

/// What reserves room is a call of what does so, in brackets or not.
pub proof fn law_what_reserves_room(e: Node)
    ensures
        e.kind == Kind::MethodCall && e.kids@.len() > 1 ==> (capacity_result(e) <==> reserves_room(e.kids@[1].text@)),
        e.kind == Kind::Paren && e.kids@.len() > 0 ==> (capacity_result(e) <==> capacity_result(e.kids@[0])),
        e.kind == Kind::Lit || e.kind == Kind::PathExpr || e.kind == Kind::Binary || e.kind == Kind::Cast ==> !capacity_result(e),
{
}

/// What is returned is moved only where it is a number that is not written out.
pub proof fn law_what_is_returned_stays(s: Setting, c: Scope, e: Node)
    requires
        e.kind == Kind::Return,
    ensures
        !c.numeric_return ==> own_offers(s, c, e).len() == 0,
        e.first_of(0) is None ==> own_offers(s, c, e).len() == 0,
        e.first_of(0) matches Some(value) && value.kind == Kind::Lit && value.kids@.len() > 0 && value.kids@[0].kind == Kind::LitInt
            ==> own_offers(s, c, e).len() == 0,
{
}

/// A range without an end does not end elsewhere.
pub proof fn law_a_range_without_an_end_stays(s: Setting, c: Scope, e: Node, closed: bool)
    requires
        e.kind == (Kind::Range { closed }),
        e.first_of(1) is None,
    ensures
        none_is(own_offers(s, c, e), "range.exclusive_to_inclusive"@),
        none_is(own_offers(s, c, e), "range.inclusive_to_exclusive"@),
{
    reveal_strlit("expr.increment");
    reveal_strlit("expr.decrement");
    reveal_strlit("range.exclusive_to_inclusive");
    reveal_strlit("range.inclusive_to_exclusive");
    assert("expr.increment"@.len() == 14 && "expr.decrement"@.len() == 14);
    assert("range.exclusive_to_inclusive"@.len() == 28 && "range.inclusive_to_exclusive"@.len() == 28);
}

/// An arm is stopped only where it has no guard and something behind it catches what it lets through. An arm that is
/// left out of the build has no mutants.
pub proof fn law_arms_that_stay(s: Setting, c: Scope, arm: Node, followed: bool)
    ensures
        s.cfg.skips(arm.attrs@) ==> arm_offers(s, c, arm, followed).len() == 0,
        arm.kids@.len() > 0 && arm.kids@[0].kind != Kind::PatGuard && !followed ==> arm_offers(s, c, arm, followed).len() == 0,
        catches(arm, s.cfg) ==> s.cfg.holds(arm.attrs@),
{
}

/// What has no mutants of its own: what only groups, borrows, converts or builds.
pub proof fn law_what_has_none_of_its_own(s: Setting, c: Scope, e: Node)
    requires
        e.kind == Kind::Block || e.kind == Kind::Paren || e.kind == Kind::Array || e.kind == Kind::Tuple || e.kind == Kind::Closure || e.kind
            == Kind::Reference || e.kind == Kind::Cast || e.kind == Kind::Try || e.kind == Kind::Await || e.kind == Kind::FieldAccess || e.kind
            == Kind::Loop || e.kind == Kind::ForLoop || e.kind == Kind::Let || e.kind == Kind::Deref,
    ensures
        own_offers(s, c, e).len() == 0,
{
}

} // verus!
