//! What is left out, what is remembered on the way in, and how replacements are numbered.
use super::super::candidate::Offer;
use super::super::collector::expressions::{labelled_value, neighbour_offers, one_less, operator_offers, own_offers, parsed};
use super::super::collector::gate::is_left_alone;
use super::super::collector::naming::written;
use super::super::collector::noop::Lexed;
use super::super::collector::predicates::declared;
use super::super::collector::resolve::{class_of, output_class, Class};
use super::super::collector::scope::{latest, offer_over, Scope, Setting};
use super::super::collector::sites::{body_shape, failing, guessed, initializes_deferred, statement_offers};
use super::super::collector::splices::{condition_offers, element_offers, field_offers};
use super::super::collector::types::{undefaulted_params, Typing};
use super::super::collector::values::Value;
use super::super::collector::visit::{declaring, function_scope, generics_of, implementation_scope, visit};
use super::super::defaults::{defaulted_params, known_name};
use super::super::definitions::place_of;
use super::sites::{lemma_offered_over, offered};
use crate::ops::collect::Shape;
use crate::syntax::query::path_ident;
use crate::syntax::{Kind, Node};
use crate::text::{begins, breaks, byte_len, decimal};
use vstd::prelude::*;

verus! {

// ---- What is left out. ----

/// Whether a construct carries its attributes itself.
pub open spec fn carries(kind: Kind) -> bool {
    match kind {
        Kind::ItemFn | Kind::ItemImpl | Kind::ItemMod | Kind::ItemTrait | Kind::ItemStruct | Kind::ItemEnum | Kind::ItemUnion
        | Kind::ItemConst | Kind::ItemStatic | Kind::ItemType | Kind::ItemUse | Kind::ItemMacro | Kind::ItemForeignMod => true,
        Kind::ImplFn | Kind::ImplConst | Kind::ImplType | Kind::ImplMacro | Kind::TraitFn | Kind::TraitConst | Kind::TraitType
        | Kind::TraitMacro => true,
        Kind::Field | Kind::Arm | Kind::FieldValue | Kind::Local | Kind::StmtMacro => true,
        Kind::Array | Kind::Assign | Kind::Async | Kind::Await | Kind::Binary | Kind::BlockExpr | Kind::Break | Kind::Call | Kind::Cast
        | Kind::Closure | Kind::ConstBlock | Kind::Continue | Kind::FieldAccess | Kind::ForLoop | Kind::Group | Kind::If | Kind::Index
        | Kind::Infer | Kind::Let | Kind::Lit | Kind::Loop | Kind::MacroExpr | Kind::Match | Kind::MethodCall | Kind::Paren
        | Kind::PathExpr | Kind::Range { .. } | Kind::Reference | Kind::Repeat | Kind::Return | Kind::StructExpr | Kind::Try
        | Kind::TryBlock | Kind::Tuple | Kind::Negate | Kind::Not | Kind::Deref | Kind::Unsafe | Kind::While | Kind::Yield => true,
        _ => false,
    }
}

/// A construct is left alone where an attribute of its own leaves it out, and a statement where one of its
/// expression does. Nothing else is left alone.
pub proof fn law_attributes_leave_out_what_they_are_on(s: Setting, c: Scope, e: Node)
    ensures
        carries(e.kind) ==> (is_left_alone(e, s.cfg) <==> s.cfg.skips(e.attrs@)),
        carries(e.kind) && s.cfg.skips(e.attrs@) ==> visit(s, c, e).len() == 0,
        (e.kind == (Kind::StmtExpr { semi: true }) || e.kind == (Kind::StmtExpr { semi: false })) && e.kids@.len() > 0 && e.kids@[0].kind
            != Kind::RawAddr ==> (is_left_alone(e, s.cfg) <==> s.cfg.skips(e.kids@[0].attrs@)),
        e.kind == Kind::Block || e.kind == Kind::File || e.kind == Kind::List || e.kind == Kind::Macro || e.kind == Kind::StmtItem
            ==> !is_left_alone(e, s.cfg),
{
    if e.kind == Kind::Block || e.kind == Kind::File || e.kind == Kind::List || e.kind == Kind::Macro || e.kind == Kind::StmtItem {
        assert(!e.kind.is_item() && !e.kind.is_expr());
    }
}

// ---- What is remembered. ----

/// The value that a label's loop is left with is that of the innermost loop with the label.
pub proof fn law_a_label_is_of_the_innermost_loop(loops: Seq<(Option<Seq<char>>, bool)>, label: Option<Seq<char>>, value: bool, target: Seq<char>)
    ensures
        labelled_value(loops.push((Some(target), value)), target) == value,
        label != Some(target) ==> labelled_value(loops.push((label, value)), target) == labelled_value(loops, target),
        !labelled_value(Seq::empty(), target),
{
    assert(loops.push((Some(target), value)).last() == (Some(target), value));
    assert(loops.push((label, value)).drop_last() =~= loops);
    assert(loops.push((label, value)).last() == (label, value));
}

/// Whether a statement assigns to a name.
pub open spec fn assigns_to(statement: Node, name: Seq<char>) -> bool {
    &&& statement.kind == (Kind::StmtExpr { semi: true })
    &&& statement.kids@.len() > 0
    &&& statement.kids@[0].kind == Kind::Assign
    &&& statement.kids@[0].kids@.len() > 0
    &&& statement.kids@[0].kids@[0].kind == Kind::PathExpr
    &&& statement.kids@[0].kids@[0].kids@.len() > 1
    &&& path_ident(statement.kids@[0].kids@[0].kids@[1]) == Some(name)
}

/// An assignment to what was declared without a value gives it its value, and stays. One to what has a value is
/// removed.
pub proof fn law_what_gives_a_value_first_stays(s: Setting, c: Scope, local: Node, statement: Node, name: Seq<char>)
    requires
        local.kind == Kind::Local,
        local.kids@.len() == 3,
        declared(local.kids@[0]) == Some(name),
        assigns_to(statement, name),
    ensures
        local.first_of(1) is None ==> statement_offers(s, declaring(c, local), statement).len() == 0,
        local.first_of(1) is Some ==> offered(
            s,
            declaring(c, local),
            statement_offers(s, declaring(c, local), statement),
            statement,
            "stmt.delete_assign"@,
            ""@,
            Shape::Stmt,
        ),
{
    let inner = declaring(c, local);
    assert(inner.deferred.last() == (name, local.first_of(1) is None));
    assert(latest(inner.deferred, name) == Some(local.first_of(1) is None));
    lemma_offered_over(s, inner, "stmt.delete_assign"@, statement, ""@, 0, Shape::Stmt);
    let target = statement.kids@[0].kids@[0];
    assert(initializes_deferred(inner, target) == (local.first_of(1) is None));
    assert(statement.kids@[0].kid(0) == Some(target));
    assert(target.kid(1) == Some(target.kids@[1]));
}

/// A pattern declares one name where it is a name, with a type or not, and nothing else stands for it.
pub proof fn law_a_pattern_declares_a_name(pat: Node)
    ensures
        pat.kind == Kind::PatIdent && pat.first_of(1) is None ==> declared(pat) == Some(pat.word(0)),
        pat.kind == Kind::PatIdent && pat.first_of(1) is Some ==> declared(pat) is None,
        pat.kind == Kind::PatType && pat.kids@.len() > 0 ==> declared(pat) == declared(pat.kids@[0]),
        pat.kind == Kind::PatTuple || pat.kind == Kind::PatStruct || pat.kind == Kind::PatWild ==> declared(pat) is None,
{
}

/// The parameters of an implementation, a trait and a function are remembered inside: those that promise a default
/// as such, and those of an implementation that do not as unknown types.
pub proof fn law_parameters_are_remembered(s: Setting, c: Scope, e: Node, name: Seq<char>)
    ensures
        e.kind == Kind::ItemImpl && e.kids@.len() > 0 ==> {
            let inner = implementation_scope(s, c, e);
            &&& inner.defaulted == c.defaulted + defaulted_params(e.kids@[0], s.spellings)
            &&& inner.generics == c.generics + undefaulted_params(e.kids@[0], s.spellings)
        },
        e.kind == Kind::ItemImpl && e.kids@.len() > 0 ==> (implementation_scope(s, c, e).in_default_impl <==> (e.first_of(1) matches Some(path)
            && s.spellings.is_fallback(path))),
        generics_of(e) matches Some(generics) ==> function_scope(s, c, e).defaulted == c.defaulted + defaulted_params(generics, s.spellings),
        generics_of(e) is None ==> function_scope(s, c, e).defaulted == c.defaulted,
{
}

/// A body that gives an iterator is replaced as one, and any other as a block.
pub proof fn law_bodies_that_give_iterators(output: Node, ty: Node)
    ensures
        output.kid(0) == Some(ty) && class_of(ty) == Class::Iterator ==> body_shape(output) == Shape::IterBlock,
        output.kid(0) == Some(ty) && class_of(ty) != Class::Iterator ==> body_shape(output) == Shape::Block,
        output.kids@.len() == 0 ==> body_shape(output) == Shape::Block && output_class(output) is None,
{
}

/// Where a result is known by another name, its error is that of the name: it has no default where it is known,
/// is a type of the crate and has none.
pub proof fn law_errors_behind_another_name(types: Typing, output: Node, ty: Node, alias: Seq<char>, error: Seq<char>)
    requires
        output.kid(0) == Some(ty),
        !types.is_fmt_result(ty),
        class_of(ty) != Class::Result,
        known_name(ty) == Some(alias),
    ensures
        !types.known.errors.contains_key(alias) ==> !types.returns_undefaultable_error(output),
        types.known.errors.contains_key(alias) && types.known.errors[alias] is None ==> !types.returns_undefaultable_error(output),
        types.known.errors.contains_key(alias) && types.known.errors[alias] == Some(error) ==> (types.returns_undefaultable_error(output)
            <==> types.known.defined.contains(error) && !types.known.defaulted.contains(error)),
{
}

/// A type has no default where it is foreign, or is one of the crate's own that has none.
pub proof fn law_what_lacks_a_default(types: Typing, ty: Node, name: Seq<char>)
    requires
        types.resolved(ty) == ty,
        known_name(ty) == Some(name),
        !super::super::collector::types::is_foreign(ty, types.imports),
    ensures
        types.lacks_default(ty) <==> types.known.defined.contains(name) && !types.known.defaulted.contains(name),
{
}

/// A type is known by the last name of its path, in brackets or not.
pub proof fn law_what_a_type_is_known_by(ty: Node)
    ensures
        ty.kind == Kind::TypePath && ty.kids@.len() > 1 && ty.kids@[1].kids@.len() > 0 ==> known_name(ty) == Some(
            ty.kids@[1].kids@.last().word(0),
        ),
        (ty.kind == Kind::TypeParen || ty.kind == Kind::TypeGroup) && ty.kids@.len() > 0 ==> known_name(ty) == known_name(ty.kids@[0]),
        ty.kind == Kind::TypeTuple || ty.kind == Kind::TypeSlice || ty.kind == Kind::TypeTraitObject ==> known_name(ty) is None,
{
}

// ---- How texts and places are written. ----

/// What is written without its layout is its tokens in order, with a space only where two words would run
/// together.
pub proof fn law_layout_is_left_out_between_tokens(front: Seq<Lexed>, token: Lexed)
    ensures
        written(Seq::empty()).len() == 0,
        written(seq![token]) == token.text,
        front.len() > 0 && front.last().token is Ident && token.token is Ident ==> written(front.push(token)) == written(front) + seq![' ']
            + token.text,
        front.len() > 0 && front.last().token is Literal && token.token is Ident ==> written(front.push(token)) == written(front) + seq![
            ' ',
        ] + token.text,
        front.len() > 0 && (front.last().token is Mark || token.token is Mark || front.last().token is Bracket || token.token is Bracket)
            ==> written(front.push(token)) == written(front) + token.text,
{
    reveal_strlit(" ");
    assert(" "@ =~= seq![' ']);
    let all = front.push(token);
    assert(all.drop_last() =~= front);
    assert(seq![token].drop_last() =~= Seq::<Lexed>::empty());
    assert(written(Seq::<Lexed>::empty()) =~= Seq::<char>::empty());
    assert(seq![token].last() == token);
    assert(written(seq![token]) =~= written(Seq::<Lexed>::empty()) + Seq::<char>::empty() + token.text);
    assert(written(seq![token]) =~= token.text);
    if front.len() > 0 {
        assert(all[all.len() - 2] == front.last());
        if front.last().token is Mark || token.token is Mark || front.last().token is Bracket || token.token is Bracket {
            assert(written(all) =~= written(front) + token.text);
        }
    }
}

/// A mutant ends on the line that walking the text up to its end counts.
pub proof fn law_a_mutant_ends_on_its_last_line(text: Seq<char>, offer: Offer, k: int)
    requires
        0 <= k < text.len(),
        offer.end == byte_len(text.take(k)),
    ensures
        place_of(text, offer).end_line == breaks(text.take(k)) + 1,
{
    crate::parse::lines::law_location_agrees_with_walking(text, k);
}

// ---- How replacements are numbered. ----

/// Whether each candidate of a mutator has this number.
pub open spec fn are_numbered(all: Seq<Offer>, mutator: Seq<char>, index: int) -> bool {
    forall|i: int| 0 <= i < all.len() && (#[trigger] all[i]).mutator == mutator ==> all[i].index == index
}

/// The replacements of a condition are numbered: the opposite first, and then what is always and never so.
pub proof fn law_conditions_are_numbered(s: Setting, c: Scope, negate: Seq<char>, always: Seq<char>, never: Seq<char>, condition: Node)
    requires
        negate != always,
        negate != never,
        always != never,
    ensures
        are_numbered(condition_offers(s, c, negate, always, never, condition), negate, 0),
        are_numbered(condition_offers(s, c, negate, always, never, condition), always, 1),
        are_numbered(condition_offers(s, c, negate, always, never, condition), never, 2),
{
}

proof fn lemma_literal_names()
    ensures
        "literal.int_to_zero"@.len() == 19,
        "literal.int_to_one"@.len() == 18,
        "literal.int_increment"@.len() == 21,
        "literal.int_increment"@[12] == 'i',
        "literal.int_decrement"@.len() == 21,
        "literal.int_decrement"@[12] == 'd',
        "literal.str_to_empty"@.len() == 20,
        "literal.str_to_empty"@[15] == 'e',
        "literal.str_to_xyzzy"@.len() == 20,
        "literal.str_to_xyzzy"@[15] == 'x',
        "literal.bool_flip"@.len() == 17,
{
    reveal_strlit("literal.int_to_zero");
    reveal_strlit("literal.int_to_one");
    reveal_strlit("literal.int_increment");
    reveal_strlit("literal.int_decrement");
    reveal_strlit("literal.str_to_empty");
    reveal_strlit("literal.str_to_xyzzy");
    reveal_strlit("literal.bool_flip");
}

proof fn lemma_numbered_over(s: Setting, c: Scope, mutator: Seq<char>, e: Node, text: Seq<char>, index: u32, name: Seq<char>, wanted: int)
    requires
        mutator == name ==> index == wanted,
    ensures
        are_numbered(offer_over(s, c, mutator, e, text, index, Shape::Expr), name, wanted),
{
}

proof fn lemma_numbered_join(left: Seq<Offer>, right: Seq<Offer>, name: Seq<char>, wanted: int)
    requires
        are_numbered(left, name, wanted),
        are_numbered(right, name, wanted),
    ensures
        are_numbered(left + right, name, wanted),
{
    let all = left + right;
    assert forall|i: int| 0 <= i < all.len() && (#[trigger] all[i]).mutator == name implies all[i].index == wanted by {
        if i < left.len() {
            assert(all[i] == left[i]);
        } else {
            assert(all[i] == right[i - left.len()]);
        }
    }
}

/// The number of a replacement of a literal.
pub open spec fn number_of(mutator: Seq<char>) -> int {
    if mutator == "literal.int_to_one"@ || mutator == "literal.str_to_xyzzy"@ {
        1
    } else if mutator == "literal.int_increment"@ {
        2
    } else if mutator == "literal.int_decrement"@ {
        3
    } else {
        0
    }
}

/// The replacements of a literal are numbered: nothing, one, one more and one less, and of a string the empty one
/// and another.
pub proof fn law_literals_are_numbered(s: Setting, c: Scope, e: Node, mutator: Seq<char>)
    requires
        e.kind == Kind::Lit,
    ensures
        are_numbered(own_offers(s, c, e), mutator, number_of(mutator)),
{
    lemma_literal_names();
    let none = Seq::<Offer>::empty();
    let n = number_of(mutator);
    if let Some(lit) = e.kid(0) {
        match lit.kind {
            Kind::LitInt => {
                let digits = lit.word(0);
                let near = neighbour_offers(s, c, e, digits, lit.word(1));
                if let Some(value) = parsed(digits) {
                    lemma_numbered_over(s, c, "literal.int_increment"@, e, decimal(value + 1), 2, mutator, n);
                    lemma_numbered_over(s, c, "literal.int_decrement"@, e, one_less(value), 3, mutator, n);
                    let up = if value < i64::MAX {
                        offer_over(s, c, "literal.int_increment"@, e, decimal(value + 1), 2, Shape::Expr)
                    } else {
                        none
                    };
                    let down = if digits == "0"@ && begins(lit.word(1), "u"@) {
                        none
                    } else {
                        offer_over(s, c, "literal.int_decrement"@, e, one_less(value), 3, Shape::Expr)
                    };
                    lemma_numbered_join(up, down, mutator, n);
                    assert(digits.len() > 0 ==> near == up + down);
                }
                assert(are_numbered(near, mutator, n));
                lemma_numbered_over(s, c, "literal.int_to_zero"@, e, "0"@, 0, mutator, n);
                lemma_numbered_over(s, c, "literal.int_to_one"@, e, "1"@, 1, mutator, n);
                let zero = if digits == "0"@ {
                    none
                } else {
                    offer_over(s, c, "literal.int_to_zero"@, e, "0"@, 0, Shape::Expr)
                };
                let one = if digits == "1"@ {
                    none
                } else {
                    offer_over(s, c, "literal.int_to_one"@, e, "1"@, 1, Shape::Expr)
                };
                lemma_numbered_join(near, zero, mutator, n);
                lemma_numbered_join(near + zero, one, mutator, n);
                assert(own_offers(s, c, e) == near + zero + one);
            },
            Kind::LitBool { value } => {
                let text = if value {
                    "false"@
                } else {
                    "true"@
                };
                lemma_numbered_over(s, c, "literal.bool_flip"@, e, text, 0, mutator, n);
            },
            Kind::LitStr => {
                lemma_numbered_over(s, c, "literal.str_to_empty"@, e, "\"\""@, 0, mutator, n);
                lemma_numbered_over(s, c, "literal.str_to_xyzzy"@, e, "\"xyzzy\""@, 1, mutator, n);
                let empty = if lit.word(0).len() == 0 {
                    none
                } else {
                    offer_over(s, c, "literal.str_to_empty"@, e, "\"\""@, 0, Shape::Expr)
                };
                let word = if lit.word(0) == "xyzzy"@ {
                    none
                } else {
                    offer_over(s, c, "literal.str_to_xyzzy"@, e, "\"xyzzy\""@, 1, Shape::Expr)
                };
                lemma_numbered_join(empty, word, mutator, n);
                assert(own_offers(s, c, e) == empty + word);
            },
            _ => {},
        }
    }
}

/// The elements and the fields that are left out are numbered in order.
pub proof fn law_parts_are_numbered_in_order(s: Setting, c: Scope, e: Node, parts: Seq<Node>, at: int, rest: int)
    requires
        0 <= at < parts.len(),
        at <= u32::MAX,
    ensures
        are_numbered(element_offers(s, c, e, parts, at), "collection.omit_element"@, at),
        are_numbered(field_offers(s, c, e, parts, at, rest), "struct_field.omit"@, at),
{
}

/// The exchanges of an operator are numbered in order.
pub proof fn law_exchanges_are_numbered_in_order(s: Setting, c: Scope, e: Node, all: Seq<(Seq<char>, Seq<char>)>, more: (Seq<char>, Seq<char>), assigns: bool, i: int)
    requires
        all.len() <= u32::MAX,
        operator_offers(s, c, e, all, assigns).len() <= i < operator_offers(s, c, e, all.push(more), assigns).len(),
    ensures
        operator_offers(s, c, e, all.push(more), assigns)[i].index == all.len(),
        operator_offers(s, c, e, all.push(more), assigns)[i].mutator == more.0,
{
    assert(all.push(more).drop_last() =~= all);
    assert(all.push(more).last() == more);
}

/// The values that a body is replaced by are numbered in order, and the errors behind them go on counting.
pub proof fn law_values_and_errors_are_numbered_in_order(
    s: Setting,
    c: Scope,
    body: Node,
    values: Seq<Value>,
    value: Value,
    errors: Seq<Seq<char>>,
    error: Seq<char>,
    shape: Shape,
    i: int,
)
    requires
        values.len() + errors.len() <= u32::MAX,
    ensures
        guessed(s, c, body, values, false, shape).len() <= i < guessed(s, c, body, values.push(value), false, shape).len() ==> guessed(
            s,
            c,
            body,
            values.push(value),
            false,
            shape,
        )[i].index == values.len(),
        failing(s, c, body, errors, values.len()).len() <= i < failing(s, c, body, errors.push(error), values.len()).len() ==> failing(
            s,
            c,
            body,
            errors.push(error),
            values.len(),
        )[i].index == values.len() + errors.len(),
{
    assert(values.push(value).drop_last() =~= values);
    assert(errors.push(error).drop_last() =~= errors);
}

} // verus!
