//! What is done to literals, statements, fields, elements and the bodies of functions.
use super::sites::{is_moved, lemma_offered_join, lemma_offered_over, lemma_own_offered, offered};
use super::super::candidate::Offer;
use super::super::collector::expressions::{one_less, own_offers, parsed};
use super::super::collector::gate::is_left_alone;
use super::super::collector::naming::source_of;
use super::super::collector::predicates::{assigning, capacity_result, diverging, stmt_attrs};
use super::super::collector::scope::{offer_over, ordinal, Scope, Setting};
use super::super::collector::sites::{
    body_shape, ending, failing, function_offers, guessed, is_recursive, perturbed, stated_at, statement_offers, values_at,
};
use super::super::collector::splices::{behind, cut, element_offers, elements_offers, field_end, field_offers, fields_offers};
use super::super::collector::tables::reorder;
use super::super::collector::resolve::{is_number, output_class, Class};
use super::super::collector::values::Value;
use super::super::collector::visit::{body_offers, body_scope, declared_by, function_scope, judged, macro_offers, visit, visit_all, walked};
use crate::ops::collect::Shape;
use crate::syntax::query::path_ident;
use crate::syntax::tree::{Kind, Node};
use crate::text::{
    begins, byte_len, decimal, digit_value, law_decimals_stand_for_their_number, lemma_slice_bytes, lemma_slice_join,
    lemma_slice_of_parts, number_in, slice, sliceable, stands_for,
};
use vstd::prelude::*;

verus! {

// ---- Literals. ----

proof fn lemma_parsed(digits: Seq<char>)
    requires
        forall|i: int| 0 <= i < digits.len() ==> (#[trigger] digit_value(digits[i]) matches Some(value) && value < 10),
        number_in(digits.map_values(|c: char| digit_value(c)->0), 10) <= i64::MAX,
    ensures
        parsed(digits) == Some(number_in(digits.map_values(|c: char| digit_value(c)->0), 10)),
    decreases digits.len(),
{
    let values = digits.map_values(|c: char| digit_value(c)->0);
    if digits.len() > 0 {
        let front = digits.drop_last();
        assert(values.drop_last() =~= front.map_values(|c: char| digit_value(c)->0));
        assert(digit_value(digits[digits.len() - 1]) is Some);
        let before = number_in(values.drop_last(), 10);
        assert(number_in(values, 10) == before * 10 + values.last());
        assert forall|i: int| 0 <= i < front.len() implies (#[trigger] digit_value(front[i]) matches Some(value) && value < 10) by {
            assert(front[i] == digits[i]);
        }
        lemma_parsed(front);
    }
}

/// Whether a literal that is a number has one number or another for a mutant.
pub open spec fn is_made(s: Setting, c: Scope, all: Seq<Offer>, e: Node, mutator: Seq<char>, n: nat) -> bool {
    exists|text: Seq<char>| #[trigger] stands_for(text, n, 10) && offered(s, c, all, e, mutator, text, Shape::Expr)
}

/// A whole number becomes nothing and one unless it is so, one more, and one less unless no number is less.
pub proof fn law_whole_numbers_become_their_neighbours(s: Setting, c: Scope, e: Node, lit: Node, n: nat)
    requires
        e.kind == Kind::Lit,
        e.kid(0) == Some(lit),
        !is_left_alone(e, s.cfg),
        lit.kind == Kind::LitInt,
        stands_for(lit.word(0), n, 10),
        n <= i64::MAX,
    ensures
        lit.word(0) != "0"@ ==> offered(s, c, visit(s, c, e), e, "literal.int_to_zero"@, "0"@, Shape::Expr),
        lit.word(0) != "1"@ ==> offered(s, c, visit(s, c, e), e, "literal.int_to_one"@, "1"@, Shape::Expr),
        n < i64::MAX ==> is_made(s, c, visit(s, c, e), e, "literal.int_increment"@, n + 1),
        n > 0 ==> is_made(s, c, visit(s, c, e), e, "literal.int_decrement"@, (n - 1) as nat),
        lit.word(0) == "0"@ && !begins(lit.word(1), "u"@) ==> offered(
            s,
            c,
            visit(s, c, e),
            e,
            "literal.int_decrement"@,
            "-1"@,
            Shape::Expr,
        ),
{
    let digits = lit.word(0);
    lemma_parsed(digits);
    reveal_strlit("0");
    assert("0"@.len() == 1 && "0"@[0] == '0');
    if digits == "0"@ {
        assert(digits.drop_last() =~= Seq::<char>::empty());
        assert(parsed(digits.drop_last()) == Some(0nat));
        assert(n == 0);
    }
    let more = if n < i64::MAX {
        offer_over(s, c, "literal.int_increment"@, e, decimal(n + 1), 2, Shape::Expr)
    } else {
        Seq::empty()
    };
    let unsigned = digits == "0"@ && begins(lit.word(1), "u"@);
    let less = if unsigned {
        Seq::empty()
    } else {
        offer_over(s, c, "literal.int_decrement"@, e, one_less(n), 3, Shape::Expr)
    };
    let none = if digits == "0"@ {
        Seq::empty()
    } else {
        offer_over(s, c, "literal.int_to_zero"@, e, "0"@, 0, Shape::Expr)
    };
    let one = if digits == "1"@ {
        Seq::empty()
    } else {
        offer_over(s, c, "literal.int_to_one"@, e, "1"@, 1, Shape::Expr)
    };
    assert(own_offers(s, c, e) == more + less + none + one);
    lemma_offered_over(s, c, "literal.int_increment"@, e, decimal(n + 1), 2, Shape::Expr);
    lemma_offered_over(s, c, "literal.int_decrement"@, e, one_less(n), 3, Shape::Expr);
    lemma_offered_over(s, c, "literal.int_to_zero"@, e, "0"@, 0, Shape::Expr);
    lemma_offered_over(s, c, "literal.int_to_one"@, e, "1"@, 1, Shape::Expr);
    if digits != "0"@ {
        lemma_offered_join(s, c, more + less, none, e, "literal.int_to_zero"@, "0"@, Shape::Expr);
        lemma_offered_join(s, c, more + less + none, one, e, "literal.int_to_zero"@, "0"@, Shape::Expr);
        lemma_own_offered(s, c, e, e, "literal.int_to_zero"@, "0"@, Shape::Expr);
    }
    if digits != "1"@ {
        lemma_offered_join(s, c, more + less + none, one, e, "literal.int_to_one"@, "1"@, Shape::Expr);
        lemma_own_offered(s, c, e, e, "literal.int_to_one"@, "1"@, Shape::Expr);
    }
    if n < i64::MAX {
        let text = decimal(n + 1);
        law_decimals_stand_for_their_number(n + 1);
        lemma_offered_join(s, c, more, less, e, "literal.int_increment"@, text, Shape::Expr);
        lemma_offered_join(s, c, more + less, none, e, "literal.int_increment"@, text, Shape::Expr);
        lemma_offered_join(s, c, more + less + none, one, e, "literal.int_increment"@, text, Shape::Expr);
        lemma_own_offered(s, c, e, e, "literal.int_increment"@, text, Shape::Expr);
        assert(stands_for(text, n + 1, 10));
    }
    if !unsigned {
        let text = one_less(n);
        lemma_offered_join(s, c, more, less, e, "literal.int_decrement"@, text, Shape::Expr);
        lemma_offered_join(s, c, more + less, none, e, "literal.int_decrement"@, text, Shape::Expr);
        lemma_offered_join(s, c, more + less + none, one, e, "literal.int_decrement"@, text, Shape::Expr);
        lemma_own_offered(s, c, e, e, "literal.int_decrement"@, text, Shape::Expr);
        if n > 0 {
            law_decimals_stand_for_their_number((n - 1) as nat);
            assert(stands_for(text, (n - 1) as nat, 10));
        }
    }
}

/// A truth value becomes the other, and a string empty and something else unless it is so.
pub proof fn law_truth_values_and_strings_become_others(s: Setting, c: Scope, e: Node, lit: Node)
    requires
        e.kind == Kind::Lit,
        e.kid(0) == Some(lit),
        !is_left_alone(e, s.cfg),
    ensures
        lit.kind == (Kind::LitBool { value: true }) ==> offered(s, c, visit(s, c, e), e, "literal.bool_flip"@, "false"@, Shape::Expr),
        lit.kind == (Kind::LitBool { value: false }) ==> offered(s, c, visit(s, c, e), e, "literal.bool_flip"@, "true"@, Shape::Expr),
        lit.kind == Kind::LitStr && lit.word(0).len() > 0 ==> offered(
            s,
            c,
            visit(s, c, e),
            e,
            "literal.str_to_empty"@,
            seq!['"', '"'],
            Shape::Expr,
        ),
        lit.kind == Kind::LitStr && lit.word(0) != "xyzzy"@ ==> offered(
            s,
            c,
            visit(s, c, e),
            e,
            "literal.str_to_xyzzy"@,
            seq!['"'] + "xyzzy"@ + seq!['"'],
            Shape::Expr,
        ),
{
    reveal_strlit("\"\"");
    reveal_strlit("xyzzy");
    reveal_strlit("\"xyzzy\"");
    assert("\"\""@ =~= seq!['"', '"']);
    assert("\"xyzzy\""@ =~= seq!['"'] + "xyzzy"@ + seq!['"']);
    lemma_offered_over(s, c, "literal.bool_flip"@, e, "false"@, 0, Shape::Expr);
    lemma_offered_over(s, c, "literal.bool_flip"@, e, "true"@, 0, Shape::Expr);
    lemma_offered_over(s, c, "literal.str_to_empty"@, e, "\"\""@, 0, Shape::Expr);
    lemma_offered_over(s, c, "literal.str_to_xyzzy"@, e, "\"xyzzy\""@, 1, Shape::Expr);
    if lit.kind == (Kind::LitBool { value: true }) {
        lemma_own_offered(s, c, e, e, "literal.bool_flip"@, "false"@, Shape::Expr);
    }
    if lit.kind == (Kind::LitBool { value: false }) {
        lemma_own_offered(s, c, e, e, "literal.bool_flip"@, "true"@, Shape::Expr);
    }
    if lit.kind == Kind::LitStr {
        let empty = if lit.word(0).len() == 0 {
            Seq::empty()
        } else {
            offer_over(s, c, "literal.str_to_empty"@, e, "\"\""@, 0, Shape::Expr)
        };
        let word = if lit.word(0) == "xyzzy"@ {
            Seq::empty()
        } else {
            offer_over(s, c, "literal.str_to_xyzzy"@, e, "\"xyzzy\""@, 1, Shape::Expr)
        };
        assert(own_offers(s, c, e) == empty + word);
        if lit.word(0).len() > 0 {
            lemma_offered_join(s, c, empty, word, e, "literal.str_to_empty"@, "\"\""@, Shape::Expr);
            lemma_own_offered(s, c, e, e, "literal.str_to_empty"@, "\"\""@, Shape::Expr);
        }
        if lit.word(0) != "xyzzy"@ {
            lemma_offered_join(s, c, empty, word, e, "literal.str_to_xyzzy"@, "\"xyzzy\""@, Shape::Expr);
            lemma_own_offered(s, c, e, e, "literal.str_to_xyzzy"@, "\"xyzzy\""@, Shape::Expr);
        }
    }
}

// ---- Statements. ----

/// Whether a method puts what it is called on in order, or takes repetitions out of it, where it stands.
pub open spec fn settles(method: Seq<char>, base: Seq<char>) -> bool {
    method == base || method == base + "_by"@ || method == base + "_by_key"@
}

/// What removing a statement is called, where it is removed.
pub open spec fn removal(e: Node) -> Option<Seq<char>> {
    match e.kind {
        Kind::MethodCall => Some(
            if settles(e.word(1), "sort"@) || settles(e.word(1), "sort_unstable"@) {
                "iter.remove_sort"@
            } else if settles(e.word(1), "dedup"@) {
                "iter.remove_dedup"@
            } else {
                "stmt.delete_call"@
            },
        ),
        Kind::Call => Some("stmt.delete_call"@),
        Kind::Assign => if e.kid(0) matches Some(target) && target.kind == Kind::PathExpr {
            None
        } else {
            Some("stmt.delete_assign"@)
        },
        Kind::Break => if e.first_of(1) is None {
            Some("loop.delete_break"@)
        } else {
            None
        },
        Kind::Continue => Some("loop.delete_continue"@),
        _ => None,
    }
}

proof fn lemma_settling(e: Node)
    requires
        e.kind == Kind::MethodCall,
    ensures
        reorder(e) == (if settles(e.word(1), "sort"@) || settles(e.word(1), "sort_unstable"@) {
            Some("iter.remove_sort"@)
        } else if settles(e.word(1), "dedup"@) {
            Some("iter.remove_dedup"@)
        } else {
            None
        }),
{
    reveal_strlit("sort");
    reveal_strlit("sort_unstable");
    reveal_strlit("dedup");
    reveal_strlit("_by");
    reveal_strlit("_by_key");
    reveal_strlit("sort_by");
    reveal_strlit("sort_by_key");
    reveal_strlit("sort_unstable_by");
    reveal_strlit("sort_unstable_by_key");
    reveal_strlit("dedup_by");
    reveal_strlit("dedup_by_key");
    assert("sort_by"@ =~= "sort"@ + "_by"@);
    assert("sort_by_key"@ =~= "sort"@ + "_by_key"@);
    assert("sort_unstable_by"@ =~= "sort_unstable"@ + "_by"@);
    assert("sort_unstable_by_key"@ =~= "sort_unstable"@ + "_by_key"@);
    assert("dedup_by"@ =~= "dedup"@ + "_by"@);
    assert("dedup_by_key"@ =~= "dedup"@ + "_by_key"@);
}

proof fn lemma_declared_keeps(s: Setting, c: Scope, statements: Seq<Node>)
    ensures
        declared_by(s, c, statements) == (Scope { deferred: declared_by(s, c, statements).deferred, ..c }),
    decreases statements.len(),
{
    if statements.len() > 0 {
        lemma_declared_keeps(s, c, statements.drop_last());
    }
}

proof fn lemma_judged(s: Setting, c: Scope, statements: Seq<Node>, i: int, mutator: Seq<char>)
    requires
        0 <= i < statements.len(),
        !s.cfg.skips(stmt_attrs(statements[i])),
        offered(s, c, statement_offers(s, declared_by(s, c, statements.take(i)), statements[i]), statements[i], mutator, ""@, Shape::Stmt),
    ensures
        offered(s, c, judged(s, c, statements), statements[i], mutator, ""@, Shape::Stmt),
    decreases statements.len(),
{
    let front = statements.drop_last();
    let before = judged(s, c, front);
    let own = statement_offers(s, declared_by(s, c, front), statements.last());
    if i < statements.len() - 1 {
        assert(front.take(i) =~= statements.take(i));
        lemma_judged(s, c, front, i, mutator);
    } else {
        assert(statements.take(i) =~= front);
    }
    if !s.cfg.skips(stmt_attrs(statements.last())) {
        lemma_offered_join(s, c, before, own, statements[i], mutator, ""@, Shape::Stmt);
    }
}

/// A statement that only has an effect is removed: a call, an assignment, a jump. Removing what puts in order
/// or takes repetitions out is called by its own name.
pub proof fn law_effects_are_removed(s: Setting, c: Scope, block: Node, i: int)
    requires
        block.kind == Kind::Block,
        0 <= i < block.kids@.len(),
        block.kids@[i].kind == (Kind::StmtExpr { semi: true }),
        block.kids@[i].kids@.len() > 0,
        !s.cfg.skips(stmt_attrs(block.kids@[i])),
    ensures
        removal(block.kids@[i].kids@[0]) matches Some(mutator) ==> offered(
            s,
            c,
            visit(s, c, block),
            block.kids@[i],
            mutator,
            ""@,
            Shape::Stmt,
        ),
        forall|op: crate::syntax::tree::Op|
            #![trigger assigning(op)]
            block.kids@[i].kids@[0].kind == Kind::Binary && block.kids@[i].kids@[0].kids@.len() > 1 && block.kids@[i].kids@[0].kids@[1].kind
                == Kind::Operator(op) && super::operators::family(op) == "assign"@ ==> offered(
                s,
                c,
                visit(s, c, block),
                block.kids@[i],
                "stmt.delete_assign"@,
                ""@,
                Shape::Stmt,
            ),
{
    let statements = block.inside();
    assert(statements == block.kids@);
    let statement = statements[i];
    let e = statement.kids@[0];
    let inner = declared_by(s, c, statements.take(i));
    let all = judged(s, c, statements);
    let rest = walked(s, declared_by(s, c, statements), statements);
    lemma_declared_keeps(s, c, statements.take(i));
    if e.kind == Kind::MethodCall {
        lemma_settling(e);
    }
    if let Some(mutator) = removal(e) {
        lemma_offered_over(s, inner, mutator, statement, ""@, 0, Shape::Stmt);
        lemma_judged(s, c, statements, i, mutator);
        lemma_offered_join(s, c, all, rest, statement, mutator, ""@, Shape::Stmt);
    }
    assert forall|op: crate::syntax::tree::Op|
        #![trigger assigning(op)]
        e.kind == Kind::Binary && e.kids@.len() > 1 && e.kids@[1].kind == Kind::Operator(op) && super::operators::family(op)
            == "assign"@ implies offered(s, c, visit(s, c, block), statement, "stmt.delete_assign"@, ""@, Shape::Stmt) by {
        super::operators::lemma_assign_family();
        reveal_strlit("assign");
        assert("assign"@.len() == 6);
        assert(assigning(op));
        assert(e.kid(1) == Some(e.kids@[1]));
        lemma_offered_over(s, inner, "stmt.delete_assign"@, statement, ""@, 0, Shape::Stmt);
        lemma_judged(s, c, statements, i, "stmt.delete_assign"@);
        lemma_offered_join(s, c, all, rest, statement, "stmt.delete_assign"@, ""@, Shape::Stmt);
    }
}

/// Nothing that has a value is removed, and a statement is removed in one way only.
pub proof fn law_only_effects_are_removed(s: Setting, c: Scope, statement: Node)
    ensures
        statement_offers(s, c, statement).len() <= 1,
        statement_offers(s, c, statement).len() > 0 ==> {
            &&& statement.kind == (Kind::StmtExpr { semi: true })
            &&& match statement.kids@[0].kind {
                Kind::Call | Kind::MethodCall | Kind::Assign | Kind::Continue => true,
                Kind::Break => statement.kids@[0].first_of(1) is None,
                Kind::Binary => statement.kids@[0].kids@.len() > 1 && (statement.kids@[0].kids@[1].kind matches Kind::Operator(op)
                    && super::operators::family(op) == "assign"@),
                _ => false,
            }
            &&& statement_offers(s, c, statement)[0].replacement == ""@
            &&& statement_offers(s, c, statement)[0].start == statement.start
            &&& statement_offers(s, c, statement)[0].end == statement.end
        },
{
}

// ---- Fields and elements. ----

proof fn lemma_field(s: Setting, c: Scope, e: Node, fields: Seq<Node>, count: int, rest: int, i: int, text: Seq<char>)
    requires
        0 <= i < count <= fields.len(),
        offered(s, c, field_offers(s, c, e, fields, i, rest), e, "struct_field.omit"@, text, Shape::Expr),
    ensures
        offered(s, c, fields_offers(s, c, e, fields, count, rest), e, "struct_field.omit"@, text, Shape::Expr),
    decreases count,
{
    let front = fields_offers(s, c, e, fields, count - 1, rest);
    let own = field_offers(s, c, e, fields, count - 1, rest);
    if i < count - 1 {
        lemma_field(s, c, e, fields, count - 1, rest, i, text);
    }
    lemma_offered_join(s, c, front, own, e, "struct_field.omit"@, text, Shape::Expr);
}

/// Where the rest of a value comes from another, each field is left out, up to the next field or the rest.
pub proof fn law_fields_are_left_to_the_rest(s: Setting, c: Scope, e: Node, i: int, rest: Node, next: Node)
    requires
        e.kind == Kind::StructExpr,
        !is_left_alone(e, s.cfg),
        e.first_of(3) == Some(rest),
        0 <= i < e.all_of(2).len(),
        next == if i + 1 < e.all_of(2).len() {
            e.all_of(2)[i + 1]
        } else {
            rest
        },
        !s.cfg.skips(e.all_of(2)[i].attrs@),
        e.start <= e.all_of(2)[i].start < next.start <= e.end,
        sliceable(s.text, e.start as int, e.all_of(2)[i].start as int),
        sliceable(s.text, next.start as int, e.end as int),
    ensures
        offered(
            s,
            c,
            visit(s, c, e),
            e,
            "struct_field.omit"@,
            slice(s.text, e.start as int, e.all_of(2)[i].start as int) + slice(s.text, next.start as int, e.end as int),
            Shape::Expr,
        ),
{
    let fields = e.all_of(2);
    let text = slice(s.text, e.start as int, fields[i].start as int) + slice(s.text, next.start as int, e.end as int);
    lemma_offered_over(s, c, "struct_field.omit"@, e, text, ordinal(i), Shape::Expr);
    assert(field_end(fields, i, rest.start as int) == next.start);
    lemma_field(s, c, e, fields, fields.len() as int, rest.start as int, i, text);
    lemma_own_offered(s, c, e, e, "struct_field.omit"@, text, Shape::Expr);
}

proof fn lemma_element(s: Setting, c: Scope, e: Node, elements: Seq<Node>, count: int, i: int, text: Seq<char>)
    requires
        0 <= i < count <= elements.len(),
        offered(s, c, element_offers(s, c, e, elements, i), e, "collection.omit_element"@, text, Shape::Expr),
    ensures
        offered(s, c, elements_offers(s, c, e, elements, count), e, "collection.omit_element"@, text, Shape::Expr),
    decreases count,
{
    let front = elements_offers(s, c, e, elements, count - 1);
    let own = element_offers(s, c, e, elements, count - 1);
    if i < count - 1 {
        lemma_element(s, c, e, elements, count - 1, i, text);
    }
    lemma_offered_join(s, c, front, own, e, "collection.omit_element"@, text, Shape::Expr);
}

proof fn lemma_inner_slice(text: Seq<char>, from: int, at: int, to: int)
    requires
        sliceable(text, from, at),
        sliceable(text, at, to),
    ensures
        sliceable(slice(text, from, to), 0, at - from),
        sliceable(slice(text, from, to), at - from, to - from),
        slice(slice(text, from, to), 0, at - from) == slice(text, from, at),
        slice(slice(text, from, to), at - from, to - from) == slice(text, at, to),
        byte_len(slice(text, from, to)) == to - from,
{
    lemma_slice_join(text, from, at, to);
    lemma_slice_bytes(text, from, at);
    lemma_slice_bytes(text, at, to);
    lemma_slice_bytes(text, from, to);
    lemma_slice_of_parts(slice(text, from, at), slice(text, at, to), Seq::empty());
    let whole = slice(text, from, at) + slice(text, at, to);
    assert(whole + Seq::<char>::empty() =~= whole);
}

/// Where each element of a list begins and ends, and that the list is where it is said to be.
pub open spec fn are_in_place(text: Seq<char>, e: Node, elements: Seq<Node>) -> bool {
    &&& sliceable(text, e.start as int, elements[0].start as int)
    &&& sliceable(text, elements.last().end as int, e.end as int)
    &&& forall|i: int| 0 <= i < elements.len() ==> sliceable(text, (#[trigger] elements[i]).start as int, elements[i].end as int)
    &&& forall|i: int, k: int|
        #![trigger elements[i], elements[k]]
        0 <= i < elements.len() && k == i + 1 && k < elements.len() ==> sliceable(text, elements[i].end as int, elements[k].start as int)
}

proof fn lemma_up_to(text: Seq<char>, e: Node, elements: Seq<Node>, i: int)
    requires
        0 <= i < elements.len(),
        are_in_place(text, e, elements),
    ensures
        sliceable(text, elements[0].start as int, elements[i].start as int),
        sliceable(text, elements[0].start as int, elements[i].end as int),
    decreases i,
{
    let first = elements[0].start as int;
    if i > 0 {
        lemma_up_to(text, e, elements, i - 1);
        lemma_slice_join(text, first, elements[i - 1].end as int, elements[i].start as int);
    } else {
        assert(sliceable(text, elements[0].start as int, elements[0].end as int));
        lemma_slice_empty(text, first, elements[0].end as int);
    }
    lemma_slice_join(text, first, elements[i].start as int, elements[i].end as int);
}

proof fn lemma_slice_empty(text: Seq<char>, from: int, to: int)
    requires
        sliceable(text, from, to),
    ensures
        sliceable(text, from, from),
{
}

proof fn lemma_from_on(text: Seq<char>, e: Node, elements: Seq<Node>, i: int)
    requires
        0 <= i < elements.len(),
        are_in_place(text, e, elements),
    ensures
        sliceable(text, elements[i].start as int, elements.last().end as int),
    decreases elements.len() - i,
{
    if i < elements.len() - 1 {
        lemma_from_on(text, e, elements, i + 1);
        lemma_slice_join(text, elements[i].start as int, elements[i].end as int, elements[i + 1].start as int);
        lemma_slice_join(text, elements[i].start as int, elements[i + 1].start as int, elements.last().end as int);
    }
}

/// Each element of a list is left out, together with what parts it from the next one, or from the one in
/// front of it where there is no next.
pub proof fn law_elements_are_left_out(s: Setting, c: Scope, e: Node, i: int)
    requires
        e.kind == Kind::Macro,
        e.kids@.len() == 2,
        path_ident(e.kids@[0]) == Some("vec"@),
        e.kids@[1].kids@.len() >= 2,
        0 <= i < e.kids@[1].kids@.len(),
        are_in_place(s.text, e, e.kids@[1].kids@),
    ensures
        ({
            let elements = e.kids@[1].kids@;
            let (from, to) = if i + 1 < elements.len() {
                (elements[i].start as int, elements[i + 1].start as int)
            } else {
                (elements[i - 1].end as int, elements[i].end as int)
            };
            offered(
                s,
                c,
                visit(s, c, e),
                e,
                "collection.omit_element"@,
                slice(s.text, e.start as int, from) + slice(s.text, to, e.end as int),
                Shape::Expr,
            )
        }),
{
    let elements = e.kids@[1].kids@;
    let (first, last) = (elements[0].start as int, elements.last().end as int);
    let (from, to) = cut(elements, i);
    let items = slice(s.text, first, last);
    if i + 1 < elements.len() {
        lemma_up_to(s.text, e, elements, i);
        lemma_up_to(s.text, e, elements, i + 1);
        lemma_from_on(s.text, e, elements, i);
        lemma_from_on(s.text, e, elements, i + 1);
    } else {
        lemma_up_to(s.text, e, elements, i - 1);
        lemma_up_to(s.text, e, elements, i);
        lemma_slice_join(s.text, elements[i - 1].end as int, elements[i].start as int, elements[i].end as int);
        lemma_slice_end(s.text, elements[i].start as int, elements[i].end as int);
    }
    lemma_inner_slice(s.text, first, from, last);
    lemma_inner_slice(s.text, first, to, last);
    lemma_slice_join(s.text, first, from, last);
    lemma_slice_join(s.text, e.start as int, first, from);
    lemma_slice_join(s.text, to, last, e.end as int);
    let text = slice(s.text, e.start as int, from) + slice(s.text, to, e.end as int);
    let built = slice(s.text, e.start as int, first) + slice(items, 0, behind(from, first)) + slice(
        items,
        behind(to, first),
        byte_len(items),
    ) + slice(s.text, last, e.end as int);
    assert(text =~= built);
    lemma_offered_over(s, c, "collection.omit_element"@, e, text, ordinal(i), Shape::Expr);
    lemma_element(s, c, e, elements, elements.len() as int, i, text);
    assert(visit(s, c, e) == macro_offers(s, c, e));
}

proof fn lemma_slice_end(text: Seq<char>, from: int, to: int)
    requires
        sliceable(text, from, to),
    ensures
        sliceable(text, to, to),
{
}

// ---- The bodies of functions. ----

/// Whether a function has a body that can be replaced: one that does something, and runs when the program
/// does.
pub open spec fn is_running(node: Node, sig: Node, body: Node) -> bool {
    &&& node.kind == Kind::ItemFn || node.kind == Kind::ImplFn || node.kind == Kind::TraitFn
    &&& node.kids@.len() == 2
    &&& node.kids@[0] == sig
    &&& sig.kind == (Kind::Signature { constant: false })
    &&& sig.kids@.len() == 4
    &&& node.kids@[1].kids@.len() > 0
    &&& node.kids@[1].kids@[0] == body
    &&& body.kids@.len() > 0
}

proof fn lemma_body_offered(
    s: Setting,
    c: Scope,
    node: Node,
    sig: Node,
    body: Node,
    over: Node,
    mutator: Seq<char>,
    text: Seq<char>,
    shape: Shape,
)
    requires
        is_running(node, sig, body),
        !is_left_alone(node, s.cfg),
        offered(s, function_scope(s, c, node), function_offers(s, function_scope(s, c, node), node.attrs@, sig, body), over, mutator, text, shape),
    ensures
        offered(s, function_scope(s, c, node), visit(s, c, node), over, mutator, text, shape),
{
    let outer = function_scope(s, c, node);
    assert(body_offers(s, outer, node) == function_offers(s, outer, node.attrs@, sig, body));
    let rest = visit_all(s, body_scope(s, outer, sig), node.inside());
    lemma_offered_join(s, outer, body_offers(s, outer, node), rest, over, mutator, text, shape);
    assert(visit(s, c, node) == body_offers(s, outer, node) + rest);
}

proof fn lemma_guessed(s: Setting, c: Scope, body: Node, values: Seq<Value>, recursive: bool, shape: Shape, i: int)
    requires
        0 <= i < values.len(),
        !recursive || values[i].0 != "fn_value.default"@,
    ensures
        offered(s, c, guessed(s, c, body, values, recursive, shape), body, values[i].0, values[i].1, shape),
    decreases values.len(),
{
    let before = guessed(s, c, body, values.drop_last(), recursive, shape);
    let (mutator, text) = values.last();
    let own = offer_over(s, c, mutator, body, text, ordinal(values.len() - 1), shape);
    if i < values.len() - 1 {
        lemma_guessed(s, c, body, values.drop_last(), recursive, shape, i);
    } else {
        lemma_offered_over(s, c, mutator, body, text, ordinal(values.len() - 1), shape);
    }
    lemma_offered_join(s, c, before, own, body, values[i].0, values[i].1, shape);
}

proof fn lemma_failing(s: Setting, c: Scope, body: Node, errors: Seq<Seq<char>>, count: nat, i: int)
    requires
        0 <= i < errors.len(),
    ensures
        offered(s, c, failing(s, c, body, errors, count), body, "fn_value.err_with"@, "Err("@ + errors[i] + ")"@, Shape::Block),
    decreases errors.len(),
{
    let before = failing(s, c, body, errors.drop_last(), count);
    let index = ordinal(count + errors.len() - 1);
    let own = offer_over(s, c, "fn_value.err_with"@, body, "Err("@ + errors.last() + ")"@, index, Shape::Block);
    if i < errors.len() - 1 {
        lemma_failing(s, c, body, errors.drop_last(), count, i);
    } else {
        lemma_offered_over(s, c, "fn_value.err_with"@, body, "Err("@ + errors.last() + ")"@, index, Shape::Block);
    }
    lemma_offered_join(s, c, before, own, body, "fn_value.err_with"@, "Err("@ + errors[i] + ")"@, Shape::Block);
}

/// The body of a function is replaced by the value that is stated for it, if there is one and stated values
/// are asked for, and else by each value of what the function returns. A default is not defined by itself.
pub proof fn law_bodies_are_replaced_by_values(s: Setting, c: Scope, node: Node, sig: Node, body: Node)
    requires
        is_running(node, sig, body),
        !is_left_alone(node, s.cfg),
    ensures
        ({
            let outer = function_scope(s, c, node);
            let shape = body_shape(sig.kids@[3]);
            let values = values_at(s, outer, sig);
            &&& stated_at(s, node.attrs@) matches Some((from, to)) ==> offered(
                s,
                outer,
                visit(s, c, node),
                body,
                "fn_value.stated"@,
                slice(s.text, from, to),
                shape,
            )
            &&& stated_at(s, node.attrs@) is None ==> forall|i: int|
                0 <= i < values.len() && !(outer.in_default_impl && sig.word(0) == "default"@ && values[i].0 == "fn_value.default"@)
                    ==> #[trigger] is_replaced(s, outer, visit(s, c, node), body, values[i], shape)
        }),
{
    let outer = function_scope(s, c, node);
    let output = sig.kids@[3];
    let shape = body_shape(output);
    let values = values_at(s, outer, sig);
    let one = ending(s, outer, body, output);
    let three = if output_class(output) == Some(Class::Result) {
        failing(s, outer, body, s.errors, values.len())
    } else {
        Seq::empty()
    };
    match stated_at(s, node.attrs@) {
        Some((from, to)) => {
            let text = slice(s.text, from, to);
            let two = offer_over(s, outer, "fn_value.stated"@, body, text, 0, shape);
            lemma_offered_over(s, outer, "fn_value.stated"@, body, text, 0, shape);
            lemma_offered_join(s, outer, one, two, body, "fn_value.stated"@, text, shape);
            lemma_offered_join(s, outer, one + two, three, body, "fn_value.stated"@, text, shape);
            lemma_body_offered(s, c, node, sig, body, body, "fn_value.stated"@, text, shape);
        },
        None => {
            let recursive = is_recursive(outer, sig);
            let two = guessed(s, outer, body, values, recursive, shape);
            assert forall|i: int|
                0 <= i < values.len() && !(outer.in_default_impl && sig.word(0) == "default"@ && values[i].0
                    == "fn_value.default"@) implies #[trigger] is_replaced(
                s,
                outer,
                visit(s, c, node),
                body,
                values[i],
                shape,
            ) by {
                let (mutator, text) = values[i];
                lemma_guessed(s, outer, body, values, recursive, shape, i);
                lemma_offered_join(s, outer, one, two, body, mutator, text, shape);
                lemma_offered_join(s, outer, one + two, three, body, mutator, text, shape);
                lemma_body_offered(s, c, node, sig, body, body, mutator, text, shape);
            }
        },
    }
}

/// Whether a body has a value for a mutant.
pub open spec fn is_replaced(s: Setting, c: Scope, all: Seq<Offer>, body: Node, value: Value, shape: Shape) -> bool {
    offered(s, c, all, body, value.0, value.1, shape)
}

/// Where a function can fail, it is made to fail with each of the errors that are given.
pub proof fn law_bodies_are_made_to_fail(s: Setting, c: Scope, node: Node, sig: Node, body: Node, i: int)
    requires
        is_running(node, sig, body),
        !is_left_alone(node, s.cfg),
        output_class(sig.kids@[3]) == Some(Class::Result),
        0 <= i < s.errors.len(),
    ensures
        offered(
            s,
            function_scope(s, c, node),
            visit(s, c, node),
            body,
            "fn_value.err_with"@,
            "Err("@ + s.errors[i] + ")"@,
            Shape::Block,
        ),
{
    let outer = function_scope(s, c, node);
    let output = sig.kids@[3];
    let text = "Err("@ + s.errors[i] + ")"@;
    let three = failing(s, outer, body, s.errors, values_at(s, outer, sig).len());
    let all = function_offers(s, outer, node.attrs@, sig, body);
    let front = all.take(all.len() - three.len());
    lemma_failing(s, outer, body, s.errors, values_at(s, outer, sig).len(), i);
    assert(all =~= front + three);
    lemma_offered_join(s, outer, front, three, body, "fn_value.err_with"@, text, Shape::Block);
    lemma_body_offered(s, c, node, sig, body, body, "fn_value.err_with"@, text, Shape::Block);
}

/// The number that a function ends with is made one more and one less, unless it is written out.
pub proof fn law_the_number_at_the_end_is_moved_by_one(s: Setting, c: Scope, node: Node, sig: Node, body: Node, value: Node)
    requires
        is_running(node, sig, body),
        !is_left_alone(node, s.cfg),
        output_class(sig.kids@[3]) matches Some(class) && is_number(class),
        body.kids@.last().kind == (Kind::StmtExpr { semi: false }),
        body.kids@.last().kid(0) == Some(value),
        !(value.kind == Kind::Lit && value.kids@.len() > 0 && value.kids@[0].kind == Kind::LitInt),
        !diverging(value),
        !capacity_result(value),
        source_of(s.text, value).len() > 0,
    ensures
        is_moved(s, function_scope(s, c, node), visit(s, c, node), value),
{
    let outer = function_scope(s, c, node);
    let source = source_of(s.text, value);
    let (up, down) = ("("@ + source + ") + 1"@, "("@ + source + ") - 1"@);
    let one = perturbed(s, outer, value);
    super::sites::lemma_perturbed(s, outer, value);
    assert(ending(s, outer, body, sig.kids@[3]) == one);
    let all = function_offers(s, outer, node.attrs@, sig, body);
    let rest = all.skip(one.len() as int);
    assert(all =~= one + rest);
    lemma_offered_join(s, outer, one, rest, value, "expr.increment"@, up, Shape::Expr);
    lemma_offered_join(s, outer, one, rest, value, "expr.decrement"@, down, Shape::Expr);
    lemma_body_offered(s, c, node, sig, body, value, "expr.increment"@, up, Shape::Expr);
    lemma_body_offered(s, c, node, sig, body, value, "expr.decrement"@, down, Shape::Expr);
}

/// Nothing is done to a function that the compiler runs, nor to the body of one that has none.
pub proof fn law_constant_functions_are_left_alone(s: Setting, c: Scope, node: Node)
    requires
        node.kind == Kind::ItemFn || node.kind == Kind::ImplFn || node.kind == Kind::TraitFn,
        node.kids@.len() > 0,
    ensures
        node.kids@[0].kind == (Kind::Signature { constant: true }) ==> visit(s, c, node).len() == 0,
        node.kids@.len() == 2 && node.kids@[1].kids@.len() > 0 && node.kids@[1].kids@[0].kids@.len() == 0 ==> body_offers(
            s,
            function_scope(s, c, node),
            node,
        ).len() == 0,
{
}

} // verus!
