//! How constructs are told apart, and what of them is looked into.
use super::super::candidate::Offer;
use super::super::collector::expressions::own_offers;
use super::super::collector::gate::is_left_alone;
use super::super::collector::predicates::{
    all_arms_diverge, all_promotable, binding, breaks_with_value, called_type, catch_all, constant_case, diagnostic, diverging,
    diverging_block, holds_break, is_lower, label, macro_name, promotable, stmt_attrs, textual, yields_text,
};
use super::super::collector::scope::{Scope, Setting};
use super::super::collector::visit::{
    body_scope, bound, bound_by, declared_by, function_scope, implementation_scope, is_inert, judged, loop_scope, visit, visit_all,
    walked, with_defaulted,
};
use crate::syntax::{Kind, Node, Op};
use vstd::prelude::*;

verus! {

/// A condition binds where it is a pattern, where either side of an "and" does and where what is in brackets
/// does. Nothing else binds.
pub proof fn law_what_binds(e: Node)
    ensures
        e.kind == Kind::Let ==> binding(e),
        e.kind == Kind::Binary && e.kids@.len() == 3 && e.kids@[1].kind == Kind::Operator(Op::And) ==> (binding(e) <==> binding(e.kids@[0])
            || binding(e.kids@[2])),
        e.kind == Kind::Binary && e.kids@.len() == 3 && e.kids@[1].kind == Kind::Operator(Op::Or) ==> !binding(e),
        e.kind == Kind::Paren && e.kids@.len() > 0 ==> (binding(e) <==> binding(e.kids@[0])),
        e.kind != Kind::Let && e.kind != Kind::Binary && e.kind != Kind::Paren ==> !binding(e),
{
}

/// A pattern catches everything where it is `_` or a plain name that is not written as a constant is, in
/// brackets or not.
pub proof fn law_what_catches_everything(pat: Node)
    ensures
        pat.kind == Kind::PatWild ==> catch_all(pat),
        pat.kind == Kind::PatIdent && pat.first_of(1) is Some ==> !catch_all(pat),
        pat.kind == Kind::PatIdent && pat.first_of(1) is None && pat.word(0).len() > 0 ==> (catch_all(pat) <==> pat.word(0)[0] == '_'
            || is_lower(pat.word(0)[0])),
        pat.kind == Kind::PatIdent && pat.word(0).len() > 0 && 'A' <= pat.word(0)[0] <= 'Z' ==> !catch_all(pat),
        pat.kind == Kind::PatIdent && pat.first_of(1) is None && pat.word(0).len() > 0 && 'a' <= pat.word(0)[0] <= 'z' ==> catch_all(pat),
        pat.kind == Kind::PatParen && pat.kids@.len() > 0 ==> (catch_all(pat) <==> catch_all(pat.kids@[0])),
        pat.kind == Kind::PatGuard || pat.kind == Kind::PatTupleStruct || pat.kind == Kind::PatLit || pat.kind == Kind::PatPath || pat.kind
            == Kind::PatOr || pat.kind == Kind::PatRange ==> !catch_all(pat),
{
}

/// Names are written as constants are where they have a capital letter and no small one.
pub proof fn law_how_constants_are_written(name: Seq<char>, i: int)
    requires
        0 <= i < name.len(),
    ensures
        'a' <= name[i] <= 'z' ==> !constant_case(name),
        'A' <= name[i] <= 'Z' && (forall|k: int| 0 <= k < name.len() ==> (#[trigger] name[k]) as u32 <= 0x7f && !('a' <= name[k] <= 'z'))
            ==> constant_case(name),
        (forall|k: int| 0 <= k < name.len() ==> !('A' <= (#[trigger] name[k]) <= 'Z')) ==> !constant_case(name),
{
}

/// Whether an expression calls a macro by one name.
pub open spec fn is_macro(e: Node, name: Seq<char>) -> bool {
    e.kind == Kind::MacroExpr && e.kids@.len() > 0 && macro_name(e.kids@[0]) == Some(name)
}

/// What never gives a value is a jump, a macro that gives up, a loop that nothing leaves, and what ends in one
/// of those whichever way it goes.
pub proof fn law_what_never_gives_a_value(e: Node)
    ensures
        e.kind == Kind::Return || e.kind == Kind::Break || e.kind == Kind::Continue ==> diverging(e),
        is_macro(e, "panic"@) || is_macro(e, "unreachable"@) || is_macro(e, "todo"@) || is_macro(e, "unimplemented"@) ==> diverging(e),
        e.kind == Kind::MacroExpr && diverging(e) ==> is_macro(e, "panic"@) || is_macro(e, "unreachable"@) || is_macro(e, "todo"@)
            || is_macro(e, "unimplemented"@),
        e.kind == Kind::Loop && e.kids@.len() > 1 ==> (diverging(e) <==> !holds_break(e.kids@[1])),
        (e.kind == Kind::Paren || e.kind == Kind::Group) && e.kids@.len() > 0 ==> (diverging(e) <==> diverging(e.kids@[0])),
        e.kind == Kind::BlockExpr && e.kids@.len() > 1 ==> (diverging(e) <==> diverging_block(e.kids@[1])),
        e.kind == Kind::Unsafe && e.kids@.len() > 0 ==> (diverging(e) <==> diverging_block(e.kids@[0])),
        e.kind == Kind::If && e.first_of(2) is None ==> !diverging(e),
        e.kind == Kind::If && e.first_of(2) is Some ==> (diverging(e) <==> diverging_block(e.kids@[1]) && diverging(e.first_of(2)->0)),
        e.kind == Kind::Call || e.kind == Kind::MethodCall || e.kind == Kind::Lit || e.kind == Kind::PathExpr || e.kind == Kind::While || e.kind
            == Kind::ForLoop || e.kind == Kind::Binary || e.kind == Kind::Closure ==> !diverging(e),
{
}

/// A block gives no value where its last statement never does.
pub proof fn law_a_block_ends_as_its_last_statement(block: Node)
    ensures
        block.kids@.len() == 0 ==> !diverging_block(block),
        block.kids@.len() > 0 && block.kids@.last().kids@.len() > 0 && (block.kids@.last().kind == (Kind::StmtExpr { semi: true })
            || block.kids@.last().kind == (Kind::StmtExpr { semi: false })) ==> (diverging_block(block) <==> diverging(
            block.kids@.last().kids@[0],
        )),
        block.kids@.len() > 0 && (block.kids@.last().kind == Kind::Local || block.kids@.last().kind == Kind::StmtItem) ==> !diverging_block(
            block,
        ),
{
}

/// A match gives no value where none of its arms does.
pub proof fn law_a_match_ends_as_all_its_arms(e: Node, i: int)
    requires
        e.kind == Kind::Match,
        e.kids@.len() > 1,
        0 <= i < e.kids@[1].kids@.len(),
        e.kids@[1].kids@[i].kids@.len() > 1,
    ensures
        diverging(e) ==> diverging(e.kids@[1].kids@[i].kids@[1]),
{
    lemma_each_arm(e.kids@[1].kids@, i);
}

proof fn lemma_each_arm(arms: Seq<Node>, i: int)
    requires
        0 <= i < arms.len(),
        arms[i].kids@.len() > 1,
    ensures
        all_arms_diverge(arms) ==> diverging(arms[i].kids@[1]),
    decreases arms.len(),
{
    if i < arms.len() - 1 {
        lemma_each_arm(arms.drop_last(), i);
    }
}

/// Text is what is written as text, what a macro or a method makes into text, what a type of text makes, a sum
/// of which either part is text, and what is chosen, borrowed or put in brackets of text.
pub proof fn law_what_is_text(e: Node, lit: Node)
    ensures
        e.kind == Kind::Lit && e.kid(0) == Some(lit) ==> (textual(e) <==> lit.kind == Kind::LitStr || lit.kind == Kind::LitByteStr || lit.kind
            == Kind::LitChar || lit.kind == Kind::LitByte),
        e.kind == Kind::MacroExpr ==> (textual(e) <==> is_macro(e, "format"@) || is_macro(e, "concat"@) || is_macro(e, "stringify"@)),
        e.kind == Kind::MethodCall && yields_text(e.word(1)) ==> textual(e),
        e.kind == Kind::MethodCall && e.kids@.len() > 0 && (e.word(1) == "min"@ || e.word(1) == "max"@ || e.word(1) == "clamp"@)
            && !yields_text(e.word(1)) ==> (textual(e) <==> textual(e.kids@[0])),
        e.kind == Kind::Call && e.kids@.len() > 0 ==> (textual(e) <==> called_type(e.kids@[0]) == Some("String"@) || called_type(e.kids@[0])
            == Some("str"@) || called_type(e.kids@[0]) == Some("OsString"@) || called_type(e.kids@[0]) == Some("PathBuf"@)),
        e.kind == Kind::Binary && e.kids@.len() == 3 && e.kids@[1].kind == Kind::Operator(Op::Add) ==> (textual(e) <==> textual(e.kids@[0])
            || textual(e.kids@[2])),
        (e.kind == Kind::Paren || e.kind == Kind::Reference) && e.kids@.len() > 0 ==> (textual(e) <==> textual(e.kids@[0])),
        e.kind == Kind::PathExpr || e.kind == Kind::Index || e.kind == Kind::Cast ==> !textual(e),
{
}

/// What is borrowed lives as long as the program where all of it is written out.
pub proof fn law_what_lives_as_long_as_the_program(e: Node, i: int)
    ensures
        e.kind == Kind::Lit || e.kind == Kind::PathExpr ==> promotable(e),
        (e.kind == Kind::Array || e.kind == Kind::Tuple) && promotable(e) && 0 <= i < e.kids@.len() ==> promotable(e.kids@[i]),
        (e.kind == Kind::Array || e.kind == Kind::Tuple) && (forall|k: int| 0 <= k < e.kids@.len() ==> promotable(#[trigger] e.kids@[k]))
            ==> promotable(e),
        (e.kind == Kind::Repeat || e.kind == Kind::Reference || e.kind == Kind::Negate || e.kind == Kind::Paren) && e.kids@.len() > 0 ==> (
        promotable(e) <==> promotable(e.kids@[0])),
        e.kind == Kind::Call || e.kind == Kind::MethodCall || e.kind == Kind::Binary || e.kind == Kind::MacroExpr || e.kind == Kind::StructExpr
            ==> !promotable(e),
{
    lemma_promotable(e.kids@, i);
}

proof fn lemma_promotable(nodes: Seq<Node>, i: int)
    ensures
        all_promotable(nodes) && 0 <= i < nodes.len() ==> promotable(nodes[i]),
        (forall|k: int| 0 <= k < nodes.len() ==> promotable(#[trigger] nodes[k])) ==> all_promotable(nodes),
    decreases nodes.len(),
{
    if nodes.len() > 0 {
        lemma_promotable(nodes.drop_last(), i);
        if forall|k: int| 0 <= k < nodes.len() ==> promotable(#[trigger] nodes[k]) {
            assert forall|k: int| 0 <= k < nodes.drop_last().len() implies promotable(#[trigger] nodes.drop_last()[k]) by {
                assert(nodes.drop_last()[k] == nodes[k]);
            }
        }
    }
}

/// A loop gives a value where a `break` in it has one: one without a label that no other loop is around, or
/// one with the label of the loop that no other loop has taken. What is in a closure leaves no loop.
pub proof fn law_a_break_leaves_its_loop(e: Node, root: Option<Seq<char>>, nested: bool, shadowed: bool)
    ensures
        e.kind == Kind::Break && e.first_of(1) is None ==> !breaks_with_value(e, root, nested, shadowed),
        e.kind == Kind::Break && e.first_of(1) is Some && label(e) is None ==> (breaks_with_value(e, root, nested, shadowed) <==> !nested),
        e.kind == Kind::Break && e.first_of(1) is Some && label(e) is Some && label(e) != root ==> !breaks_with_value(
            e,
            root,
            nested,
            shadowed,
        ),
        e.kind == Kind::Break && e.first_of(1) is Some && label(e) is Some && label(e) == root ==> (breaks_with_value(
            e,
            root,
            nested,
            shadowed,
        ) <==> !shadowed),
        e.kind == Kind::Closure || e.kind == Kind::StmtItem ==> !breaks_with_value(e, root, nested, shadowed),
        (e.kind == Kind::Loop || e.kind == Kind::While || e.kind == Kind::ForLoop) && e.kids@.len() > 0 ==> (breaks_with_value(
            e,
            root,
            nested,
            shadowed,
        ) <==> breaks_with_value(e.kids@.last(), root, true, shadowed || root is Some && label(e) == root)),
{
}

/// Inside a loop its label is known, and whether it gives a value: only a plain loop does.
pub proof fn law_loops_are_known_by_label_and_value(c: Scope, e: Node)
    ensures
        loop_scope(c, e).loops.len() == c.loops.len() + 1,
        loop_scope(c, e).loops.last().0 == label(e),
        e.kind == Kind::While || e.kind == Kind::ForLoop ==> !loop_scope(c, e).loops.last().1,
        e.kind == Kind::Loop && e.kids@.len() > 0 ==> loop_scope(c, e).loops.last().1 == breaks_with_value(
            e.kids@.last(),
            label(e),
            false,
            false,
        ),
{
}

// ---- What is looked into. ----

/// Whether all of some candidates are among others.
pub open spec fn are_among(some: Seq<Offer>, all: Seq<Offer>) -> bool {
    forall|i: int| 0 <= i < some.len() ==> all.contains(#[trigger] some[i])
}

proof fn lemma_among_joined(left: Seq<Offer>, right: Seq<Offer>)
    ensures
        are_among(left, left + right),
        are_among(right, left + right),
{
    let all = left + right;
    assert forall|i: int| 0 <= i < left.len() implies all.contains(#[trigger] left[i]) by {
        assert(all[i] == left[i]);
    }
    assert forall|i: int| 0 <= i < right.len() implies all.contains(#[trigger] right[i]) by {
        assert(all[left.len() + i] == right[i]);
    }
}

proof fn lemma_among(one: Seq<Offer>, two: Seq<Offer>, three: Seq<Offer>)
    requires
        are_among(one, two),
        are_among(two, three),
    ensures
        are_among(one, three),
{
    assert forall|i: int| 0 <= i < one.len() implies three.contains(#[trigger] one[i]) by {
        let k = choose|k: int| 0 <= k < two.len() && two[k] == one[i];
        assert(three.contains(two[k]));
    }
}

proof fn lemma_visited(s: Setting, c: Scope, nodes: Seq<Node>, i: int)
    requires
        0 <= i < nodes.len(),
    ensures
        are_among(visit(s, c, nodes[i]), visit_all(s, c, nodes)),
    decreases nodes.len(),
{
    let front = visit_all(s, c, nodes.drop_last());
    let last = visit(s, c, nodes.last());
    lemma_among_joined(front, last);
    if i < nodes.len() - 1 {
        lemma_visited(s, c, nodes.drop_last(), i);
        lemma_among(visit(s, c, nodes[i]), front, visit_all(s, c, nodes));
    }
}

/// The scope that the parts of a construct are in.
pub open spec fn scope_inside(s: Setting, c: Scope, e: Node) -> Scope {
    match e.kind {
        Kind::While | Kind::ForLoop | Kind::Loop => loop_scope(c, e),
        Kind::ItemMod => c.inside_item(e.word(0)),
        Kind::ItemTrait => with_defaulted(s, c.inside_item(e.word(0)), e.kid(1)),
        Kind::ItemImpl => implementation_scope(s, c, e),
        _ => c,
    }
}

/// Whether each part of a construct is looked into: nothing in it is written for a reader alone, settled
/// elsewhere or bound for what follows.
pub open spec fn is_looked_into(e: Node) -> bool {
    match e.kind {
        Kind::ItemFn | Kind::ImplFn | Kind::TraitFn | Kind::Macro | Kind::Block | Kind::Local | Kind::Repeat | Kind::Reference => false,
        Kind::MethodCall => !diagnostic(e.word(1), e.all_of(3).len()),
        _ => !is_inert(e.kind),
    }
}

/// What a part of a construct has for mutants, the construct has.
pub proof fn law_every_part_is_looked_into(s: Setting, c: Scope, e: Node, i: int)
    requires
        is_looked_into(e),
        !is_left_alone(e, s.cfg),
        0 <= i < e.kids@.len(),
    ensures
        are_among(visit(s, scope_inside(s, c, e), e.kids@[i]), visit(s, c, e)),
{
    let inner = scope_inside(s, c, e);
    let all = visit_all(s, inner, e.inside());
    assert(e.inside() == e.kids@);
    lemma_visited(s, inner, e.kids@, i);
    lemma_among_joined(own_offers(s, c, e), all);
    match e.kind {
        Kind::ItemMod | Kind::ItemTrait | Kind::ItemImpl => {},
        _ => {
            lemma_among(visit(s, inner, e.kids@[i]), all, visit(s, c, e));
        },
    }
}

/// What a function's body has for mutants, the function has, unless the compiler runs it.
pub proof fn law_the_body_of_a_function_is_looked_into(s: Setting, c: Scope, e: Node, sig: Node, i: int)
    requires
        e.kind == Kind::ItemFn || e.kind == Kind::ImplFn || e.kind == Kind::TraitFn,
        !is_left_alone(e, s.cfg),
        e.kids@.len() > 0,
        e.kids@[0] == sig,
        sig.kind != (Kind::Signature { constant: true }),
        0 <= i < e.kids@.len(),
    ensures
        are_among(visit(s, body_scope(s, function_scope(s, c, e), sig), e.kids@[i]), visit(s, c, e)),
{
    let inner = body_scope(s, function_scope(s, c, e), sig);
    let all = visit_all(s, inner, e.inside());
    assert(e.inside() == e.kids@);
    lemma_visited(s, inner, e.kids@, i);
    let rest = visit(s, c, e).take(visit(s, c, e).len() - all.len());
    assert(visit(s, c, e) =~= rest + all);
    lemma_among_joined(rest, all);
    lemma_among(visit(s, inner, e.kids@[i]), all, visit(s, c, e));
}

proof fn lemma_walked(s: Setting, c: Scope, statements: Seq<Node>, i: int)
    requires
        0 <= i < statements.len(),
        !s.cfg.skips(stmt_attrs(statements[i])),
    ensures
        are_among(visit(s, bound_by(s, c, statements.take(i)), statements[i]), walked(s, c, statements)),
    decreases statements.len(),
{
    let front = statements.drop_last();
    let before = walked(s, c, front);
    let last = visit(s, bound_by(s, c, front), statements.last());
    lemma_among_joined(before, last);
    if i < statements.len() - 1 {
        assert(front.take(i) =~= statements.take(i));
        lemma_walked(s, c, front, i);
        lemma_among(visit(s, bound_by(s, c, statements.take(i)), statements[i]), before, walked(s, c, statements));
    } else {
        assert(statements.take(i) =~= front);
    }
}

/// Each statement of a block is looked into, with what the statements in front of it bind.
pub proof fn law_every_statement_is_looked_into(s: Setting, c: Scope, e: Node, i: int)
    requires
        e.kind == Kind::Block,
        0 <= i < e.kids@.len(),
        !s.cfg.skips(stmt_attrs(e.kids@[i])),
    ensures
        are_among(visit(s, bound_by(s, declared_by(s, c, e.kids@), e.kids@.take(i)), e.kids@[i]), visit(s, c, e)),
{
    let outer = declared_by(s, c, e.kids@);
    let (one, two) = (judged(s, c, e.kids@), walked(s, outer, e.kids@));
    assert(e.inside() == e.kids@);
    lemma_walked(s, outer, e.kids@, i);
    lemma_among_joined(one, two);
    lemma_among(visit(s, bound_by(s, outer, e.kids@.take(i)), e.kids@[i]), two, visit(s, c, e));
}

/// The value of a binding is looked into.
pub proof fn law_the_value_of_a_binding_is_looked_into(s: Setting, c: Scope, e: Node, i: int)
    requires
        e.kind == Kind::Local,
        !is_left_alone(e, s.cfg),
        0 <= i < e.kids@.len(),
    ensures
        are_among(visit(s, bound(s, c, e), e.kids@[i]), visit(s, c, e)),
{
    assert(e.inside() == e.kids@);
    lemma_visited(s, bound(s, c, e), e.kids@, i);
}

/// What is written for a reader of a failure is left as it is: of such a call only what it is made on is
/// looked into.
pub proof fn law_messages_are_left_alone(s: Setting, c: Scope, e: Node)
    requires
        e.kind == Kind::MethodCall,
        !is_left_alone(e, s.cfg),
        e.kids@.len() > 0,
        e.word(1) == "expect"@ || e.word(1) == "expect_err"@,
        e.all_of(3).len() == 1,
    ensures
        visit(s, c, e) == own_offers(s, c, e) + visit(s, c, e.kids@[0]),
{
}

/// How often a value is repeated is left as it is, and so is what lives as long as the program.
pub proof fn law_lengths_and_what_lives_on_are_left_alone(s: Setting, c: Scope, e: Node)
    requires
        !is_left_alone(e, s.cfg),
        e.kids@.len() > 0,
    ensures
        e.kind == Kind::Repeat ==> visit(s, c, e) == visit(s, c, e.kids@[0]),
        e.kind == Kind::Reference && promotable(e.kids@[0]) ==> visit(s, c, e).len() == 0,
        e.kind == Kind::Reference && !promotable(e.kids@[0]) ==> are_among(visit(s, c, e.kids@[0]), visit(s, c, e)),
{
    if e.kind == Kind::Reference && !promotable(e.kids@[0]) {
        assert(e.inside() == e.kids@);
        lemma_visited(s, c, e.kids@, 0);
    }
}

/// Types and patterns are no code that runs, and neither is what a constant is worked out from.
pub proof fn law_what_does_not_run_is_left_alone(s: Setting, c: Scope, e: Node)
    requires
        ({
            ||| e.kind == Kind::ItemConst || e.kind == Kind::ItemStatic || e.kind == Kind::ImplConst || e.kind == Kind::TraitConst
            ||| e.kind == Kind::Variant || e.kind == Kind::ArgConst || e.kind == Kind::TypeArray || e.kind == Kind::TypePath
            ||| e.kind == Kind::PatLit || e.kind == Kind::PatRange || e.kind == Kind::PatIdent || e.kind == Kind::PatTuple
        }),
    ensures
        visit(s, c, e).len() == 0,
{
}

} // verus!
