//! What is promised of the candidates of a file as a whole.
use super::candidate::{
    distinct, is_repeated, is_sorted, law_candidates_come_back_in_order, law_every_edit_is_kept_once,
    law_no_edit_is_kept_twice, lemma_place, place_of, same_edit, sorted, Offer,
};
use super::collector::expressions::{binary_offers, literal_offers, operator_offers, own_offers, range_offers};
use super::collector::gate::is_left_alone;
use super::collector::indexes::{Evidence, Wanted};
use super::collector::predicates::{assigning, called_name, stmt_attrs};
use super::collector::scope::{offer_over, Scope, Setting};
use super::collector::sites::{
    body_shape, ending, failing, function_offers, guessed, is_recursive, perturbed_arguments, perturbed_each,
    perturbed_if_known, statement_offers, values_at,
};
use super::collector::phase_one::is_sound;
use super::collector::resolve::{output_class, Class};
use super::collector::splices::{
    arm_offers, arms_offers, element_offers, elements_offers, field_offers, fields_offers, first_catch,
    rename_offers,
};
use super::collector::values::Value;
use super::collector::tables::replacements_of;
use super::collector::visit::{
    body_scope, bound, bound_by, declared_by, function_scope, implementation_scope, is_inert, judged,
    loop_scope, visit, visit_all, walked, with_defaulted,
};
use super::stated::{earliest, inert, is_stated, reports, stated_among, stated_span, Audited};
use super::proper::{all_proper, is_proper, lemma_join, lemma_offer};
use super::traversal::admitted;
use crate::cfg::Build;
use crate::error::Fault;
use crate::ops::collect::Shape;
use crate::parse::SourceFile;
use crate::syntax::tree::{Kind, Node};
use crate::text::slice;
use vstd::prelude::*;

verus! {

broadcast use {lemma_offer, lemma_join};

// ---- Each kind of site. ----

proof fn lemma_perturbed_each(s: Setting, c: Scope, args: Seq<Node>)
    ensures
        all_proper(s, perturbed_each(s, c, args)),
    decreases args.len(),
{
    if args.len() > 0 {
        lemma_perturbed_each(s, c, args.drop_last());
        assert(all_proper(s, perturbed_if_known(s, c, args.last())));
    }
}

proof fn lemma_arguments(s: Setting, c: Scope, callee: Option<Seq<char>>, args: Seq<Node>)
    ensures
        all_proper(s, perturbed_arguments(s, c, callee, args)),
{
    lemma_perturbed_each(s, c, args);
}

proof fn lemma_guessed(s: Setting, c: Scope, body: Node, values: Seq<Value>, recursive: bool, shape: Shape)
    ensures
        all_proper(s, guessed(s, c, body, values, recursive, shape)),
    decreases values.len(),
{
    if values.len() > 0 {
        lemma_guessed(s, c, body, values.drop_last(), recursive, shape);
    }
}

proof fn lemma_failing(s: Setting, c: Scope, body: Node, errors: Seq<Seq<char>>, count: nat)
    ensures
        all_proper(s, failing(s, c, body, errors, count)),
    decreases errors.len(),
{
    if errors.len() > 0 {
        lemma_failing(s, c, body, errors.drop_last(), count);
    }
}

proof fn lemma_function(s: Setting, c: Scope, attrs: Seq<Node>, sig: Node, body: Node)
    ensures
        all_proper(s, function_offers(s, c, attrs, sig, body)),
{
    if sig.kids@.len() == 4 {
        let values = values_at(s, c, sig);
        lemma_guessed(s, c, body, values, is_recursive(c, sig), body_shape(sig.kids@[3]));
        lemma_failing(s, c, body, s.errors, values.len());
        assert(all_proper(s, ending(s, c, body, sig.kids@[3])));
    }
}

proof fn lemma_arms(s: Setting, c: Scope, arms: Seq<Node>, wildcard: int, count: int)
    ensures
        all_proper(s, arms_offers(s, c, arms, wildcard, count)),
    decreases arms.len(),
{
    if arms.len() > 0 {
        lemma_arms(s, c, arms.drop_last(), wildcard, count);
        assert(all_proper(s, arm_offers(s, c, arms.last(), arms.len() - 1 < wildcard && wildcard < count)));
    }
}

proof fn lemma_fields(s: Setting, c: Scope, node: Node, fields: Seq<Node>, count: int, rest: int)
    ensures
        all_proper(s, fields_offers(s, c, node, fields, count, rest)),
    decreases count,
{
    if count > 0 {
        lemma_fields(s, c, node, fields, count - 1, rest);
        assert(all_proper(s, field_offers(s, c, node, fields, count - 1, rest)));
    }
}

proof fn lemma_elements(s: Setting, c: Scope, node: Node, elements: Seq<Node>, count: int)
    ensures
        all_proper(s, elements_offers(s, c, node, elements, count)),
    decreases count,
{
    if count > 0 {
        lemma_elements(s, c, node, elements, count - 1);
        assert(all_proper(s, element_offers(s, c, node, elements, count - 1)));
    }
}

proof fn lemma_operator(s: Setting, c: Scope, e: Node, replacements: Seq<(Seq<char>, Seq<char>)>, assigns: bool)
    ensures
        all_proper(s, operator_offers(s, c, e, replacements, assigns)),
    decreases replacements.len(),
{
    if replacements.len() > 0 {
        lemma_operator(s, c, e, replacements.drop_last(), assigns);
    }
}

proof fn lemma_binary(s: Setting, c: Scope, e: Node)
    ensures
        all_proper(s, binary_offers(s, c, e)),
{
    if e.kids@.len() == 3 {
        if let Kind::Operator(op) = e.kids@[1].kind {
            lemma_operator(s, c, e, replacements_of(op), assigning(op));
        }
    }
}

proof fn lemma_range(s: Setting, c: Scope, e: Node, closed: bool)
    ensures
        all_proper(s, range_offers(s, c, e, closed)),
{
    if let Some(end) = e.first_of(1) {
        assert(all_proper(s, perturbed_if_known(s, c, end)));
    }
    if let Some(start) = e.first_of(0) {
        assert(all_proper(s, perturbed_if_known(s, c, start)));
    }
}

proof fn lemma_own(s: Setting, c: Scope, e: Node)
    ensures
        all_proper(s, own_offers(s, c, e)),
{
    match e.kind {
        Kind::Binary => lemma_binary(s, c, e),
        Kind::Match => lemma_arms(
            s,
            c,
            e.all_of(1),
            first_catch(e.all_of(1), s.cfg),
            e.all_of(1).len() as int,
        ),
        Kind::StructExpr => {
            if let Some(dots) = e.first_of(3) {
                lemma_fields(s, c, e, e.all_of(2), e.all_of(2).len() as int, dots.start as int);
            }
        },
        Kind::Range { closed } => lemma_range(s, c, e, closed),
        Kind::Call => {
            if e.kids@.len() > 0 {
                lemma_arguments(s, c, called_name(e.kids@[0]), e.all_of(1));
            }
        },
        Kind::MethodCall => {
            lemma_arguments(s, c, Some(e.word(1)), e.all_of(3));
            assert(all_proper(s, rename_offers(s, c, e, e.word(1))));
        },
        Kind::Lit => {
            assert(all_proper(s, literal_offers(s, c, e)));
        },
        _ => {},
    }
}

// ---- The walk. ----

proof fn lemma_judged(s: Setting, c: Scope, statements: Seq<Node>)
    ensures
        all_proper(s, judged(s, c, statements)),
    decreases statements.len(),
{
    if statements.len() > 0 {
        lemma_judged(s, c, statements.drop_last());
        assert(all_proper(
            s,
            statement_offers(s, declared_by(s, c, statements.drop_last()), statements.last()),
        ));
    }
}

proof fn lemma_visit(s: Setting, c: Scope, node: Node)
    ensures
        all_proper(s, visit(s, c, node)),
    decreases node, 1nat,
{
    node.lemma_inside();
    if !is_inert(node.kind) && !is_left_alone(node, s.cfg) {
        lemma_own(s, c, node);
        match node.kind {
            Kind::ItemFn | Kind::ImplFn | Kind::TraitFn => {
                let outer = function_scope(s, c, node);
                if node.kids@.len() == 2 && node.kids@[1].kids@.len() > 0 {
                    lemma_function(s, outer, node.attrs@, node.kids@[0], node.kids@[1].kids@[0]);
                }
                if let Some(sig) = node.kid(0) {
                    lemma_visit_all(s, body_scope(s, outer, sig), node.inside());
                }
            },
            Kind::ItemMod => lemma_visit_all(s, c.inside_item(node.word(0)), node.inside()),
            Kind::ItemTrait => lemma_visit_all(
                s,
                with_defaulted(s, c.inside_item(node.word(0)), node.kid(1)),
                node.inside(),
            ),
            Kind::ItemImpl => lemma_visit_all(s, implementation_scope(s, c, node), node.inside()),
            Kind::Macro => {
                if node.kids@.len() == 2 {
                    lemma_elements(s, c, node, node.kids@[1].kids@, node.kids@[1].kids@.len() as int);
                }
            },
            Kind::Block => {
                lemma_judged(s, c, node.inside());
                lemma_walked(s, declared_by(s, c, node.inside()), node.inside());
            },
            Kind::Local => lemma_visit_all(s, bound(s, c, node), node.inside()),
            Kind::Repeat => {
                if let Some(element) = node.kid(0) {
                    lemma_visit(s, c, element);
                }
            },
            Kind::Reference => lemma_visit_all(s, c, node.inside()),
            Kind::MethodCall => {
                lemma_visit_all(s, c, node.inside());
                if let Some(receiver) = node.kid(0) {
                    lemma_visit(s, c, receiver);
                }
            },
            Kind::While | Kind::ForLoop | Kind::Loop => lemma_visit_all(
                s,
                loop_scope(c, node),
                node.inside(),
            ),
            _ => lemma_visit_all(s, c, node.inside()),
        }
    }
}

proof fn lemma_visit_all(s: Setting, c: Scope, nodes: Seq<Node>)
    ensures
        all_proper(s, visit_all(s, c, nodes)),
    decreases nodes, 0nat,
{
    if nodes.len() > 0 {
        lemma_visit_all(s, c, nodes.drop_last());
        lemma_visit(s, c, nodes.last());
    }
}

proof fn lemma_walked(s: Setting, c: Scope, statements: Seq<Node>)
    ensures
        all_proper(s, walked(s, c, statements)),
    decreases statements, 0nat,
{
    if statements.len() > 0 {
        lemma_walked(s, c, statements.drop_last());
        lemma_visit(s, bound_by(s, c, statements.drop_last()), statements.last());
    }
}

// ---- What is promised. ----

/// Whether no two candidates are the same edit.
pub open spec fn no_edit_twice(all: Seq<Offer>) -> bool {
    forall|i: int, j: int| 0 <= i < j < all.len() ==> !same_edit(#[trigger] all[i], #[trigger] all[j])
}

/// Putting candidates in order adds none and makes no two of them the same edit.
proof fn lemma_sorted(all: Seq<Offer>)
    requires
        no_edit_twice(all),
    ensures
        no_edit_twice(sorted(all)),
        forall|o: Offer| #[trigger] sorted(all).contains(o) <==> all.contains(o),
    decreases all.len(),
{
    if all.len() > 0 {
        let front = all.drop_last();
        assert forall|i: int, j: int| 0 <= i < j < front.len() implies !same_edit(#[trigger] front[i], #[trigger] front[j]) by {
            assert(!same_edit(all[i], all[j]));
        }
        lemma_sorted(front);
        let before = sorted(front);
        let own = all.last();
        let at = place_of(before, own);
        lemma_place(before, own);
        let after = before.insert(at, own);
        assert forall|i: int| 0 <= i < before.len() implies !same_edit(#[trigger] before[i], own) by {
            assert(before.contains(before[i]));
            let k = choose|k: int| 0 <= k < front.len() && front[k] == before[i];
            assert(!same_edit(all[k], all[all.len() - 1]));
        }
        assert forall|i: int, j: int| 0 <= i < j < after.len() implies !same_edit(#[trigger] after[i], #[trigger] after[j]) by {
            if i == at {
                assert(after[j] == before[j - 1]);
            } else if j == at {
                assert(after[i] == before[i]);
            } else {
                let x = if i < at {
                    i
                } else {
                    i - 1
                };
                let y = if j < at {
                    j
                } else {
                    j - 1
                };
                assert(!same_edit(before[x], before[y]));
            }
        }
        assert forall|o: Offer| #[trigger] after.contains(o) <==> all.contains(o) by {
            if after.contains(o) {
                let i = choose|i: int| 0 <= i < after.len() && after[i] == o;
                if i == at {
                    assert(all[all.len() - 1] == o);
                } else {
                    let k = if i < at {
                        i
                    } else {
                        i - 1
                    };
                    assert(before[k] == o);
                    assert(before.contains(o));
                    let m = choose|m: int| 0 <= m < front.len() && front[m] == o;
                    assert(all[m] == o);
                }
            }
            if all.contains(o) {
                let m = choose|m: int| 0 <= m < all.len() && all[m] == o;
                if m == all.len() - 1 {
                    assert(after[at] == o);
                } else {
                    assert(front[m] == o);
                    assert(before.contains(o));
                    let k = choose|k: int| 0 <= k < before.len() && before[k] == o;
                    let i = if k < at {
                        k
                    } else {
                        k + 1
                    };
                    assert(after[i] == o);
                }
            }
        }
    }
}

/// What is admitted was found by the walk.
pub(crate) proof fn lemma_admitted(s: Setting, file: Node, i: int)
    requires
        0 <= i < admitted(s, file).len(),
    ensures
        visit(s, Scope::outermost(), file).contains(admitted(s, file)[i]),
{
    let all = visit(s, Scope::outermost(), file);
    law_no_edit_is_kept_twice(all);
    lemma_sorted(distinct(all));
    let kept = admitted(s, file);
    assert(kept.contains(kept[i]));
    let j = choose|j: int| 0 <= j < distinct(all).len() && distinct(all)[j] == kept[i];
    assert(all.contains(distinct(all)[j]));
}

/// Every candidate of a file comes from a mutator that was asked for, covers a region of the text that
/// is not empty, and would change it: a mutant that reproduces the code it replaces could never be
/// caught.
pub proof fn law_every_candidate_is_proper(s: Setting, file: Node)
    ensures
        all_proper(s, admitted(s, file)),
{
    let all = visit(s, Scope::outermost(), file);
    lemma_visit(s, Scope::outermost(), file);
    law_no_edit_is_kept_twice(all);
    lemma_sorted(distinct(all));
    let kept = admitted(s, file);
    assert forall|i: int| 0 <= i < kept.len() implies is_proper(s, #[trigger] kept[i]) by {
        assert(kept.contains(kept[i]));
        let j = choose|j: int| 0 <= j < distinct(all).len() && distinct(all)[j] == kept[i];
        assert(all.contains(distinct(all)[j]));
    }
}

/// A file whose selection is empty has no candidates.
pub proof fn law_an_empty_selection_admits_nothing(s: Setting, file: Node)
    requires
        s.selection == Set::<Seq<char>>::empty(),
    ensures
        admitted(s, file).len() == 0,
{
    law_every_candidate_is_proper(s, file);
    if admitted(s, file).len() > 0 {
        assert(is_proper(s, admitted(s, file)[0]));
    }
}

/// No two candidates of a file are the same edit.
pub proof fn law_no_edit_is_admitted_twice(s: Setting, file: Node)
    ensures
        no_edit_twice(admitted(s, file)),
{
    let all = visit(s, Scope::outermost(), file);
    law_no_edit_is_kept_twice(all);
    lemma_sorted(distinct(all));
}

/// The candidates of a file come in the order of the source, however its parts were visited.
pub proof fn law_candidates_are_in_order(s: Setting, file: Node)
    ensures
        is_sorted(admitted(s, file)),
{
    law_candidates_come_back_in_order(distinct(visit(s, Scope::outermost(), file)));
}

/// Every edit that a file offers is among its candidates, under the first name that reached it.
pub proof fn law_every_edit_is_admitted(s: Setting, file: Node, at: int)
    requires
        0 <= at < visit(s, Scope::outermost(), file).len(),
    ensures
        is_repeated(admitted(s, file), visit(s, Scope::outermost(), file)[at]),
{
    let all = visit(s, Scope::outermost(), file);
    law_no_edit_is_kept_twice(all);
    law_every_edit_is_kept_once(all, at);
    lemma_sorted(distinct(all));
    let i = choose|i: int| 0 <= i < distinct(all).len() && same_edit(#[trigger] distinct(all)[i], all[at]);
    assert(distinct(all).contains(distinct(all)[i]));
    assert(sorted(distinct(all)).contains(distinct(all)[i]));
    let j = choose|j: int| 0 <= j < admitted(s, file).len() && admitted(s, file)[j] == distinct(all)[i];
    assert(same_edit(admitted(s, file)[j], all[at]));
}

/// Code that is not in the build, and test code, offers nothing.
pub proof fn law_code_outside_the_build_offers_nothing(s: Setting, c: Scope, node: Node)
    requires
        is_left_alone(node, s.cfg),
    ensures
        visit(s, c, node) == Seq::<Offer>::empty(),
{
}

/// A statement that is not in the build neither offers anything nor says anything of the names that
/// later statements use.
pub proof fn law_statements_outside_the_build_change_nothing(s: Setting, c: Scope, before: Seq<Node>, statement: Node)
    requires
        s.cfg.skips(stmt_attrs(statement)),
    ensures
        judged(s, c, before.push(statement)) == judged(s, c, before),
        walked(s, c, before.push(statement)) == walked(s, c, before),
        declared_by(s, c, before.push(statement)) == declared_by(s, c, before),
        bound_by(s, c, before.push(statement)) == bound_by(s, c, before),
{
    assert(before.push(statement).drop_last() =~= before);
}

/// Nothing in the value of a constant or a static, a discriminant, a const argument, a type or a pattern
/// is a candidate: no guard can be written there.
pub proof fn law_inert_constructs_offer_nothing(s: Setting, c: Scope, node: Node)
    requires
        is_inert(node.kind),
    ensures
        visit(s, c, node) == Seq::<Offer>::empty(),
{
}

/// Nothing in a `const fn` is a candidate.
pub proof fn law_a_const_fn_offers_nothing(s: Setting, c: Scope, node: Node)
    requires
        node.kind == Kind::ItemFn || node.kind == Kind::ImplFn || node.kind == Kind::TraitFn,
        node.kid(0) matches Some(sig) && sig.kind == (Kind::Signature { constant: true }),
    ensures
        visit(s, c, node) == Seq::<Offer>::empty(),
{
    assert(Seq::<Offer>::empty() + Seq::<Offer>::empty() =~= Seq::<Offer>::empty());
}

/// The values that a return type admits do not depend on the errors that are supplied.
proof fn lemma_guessed_alike(
    s: Setting,
    t: Setting,
    c: Scope,
    body: Node,
    values: Seq<Value>,
    recursive: bool,
    shape: Shape,
)
    requires
        t == (Setting { errors: t.errors, ..s }),
    ensures
        guessed(s, c, body, values, recursive, shape) == guessed(t, c, body, values, recursive, shape),
    decreases values.len(),
{
    if values.len() > 0 {
        lemma_guessed_alike(s, t, c, body, values.drop_last(), recursive, shape);
    }
}

/// The errors that come first are offered alike, whatever follows them.
proof fn lemma_failing_alike(s: Setting, t: Setting, c: Scope, body: Node, errors: Seq<Seq<char>>, count: nat)
    requires
        t == (Setting { errors: t.errors, ..s }),
    ensures
        failing(s, c, body, errors, count) == failing(t, c, body, errors, count),
    decreases errors.len(),
{
    if errors.len() > 0 {
        lemma_failing_alike(s, t, c, body, errors.drop_last(), count);
    }
}

/// Supplying one more error value adds at most one candidate to a function, behind the others, and
/// leaves every other one, its index included, as it was.
pub proof fn law_another_error_value_renumbers_nothing(
    s: Setting,
    c: Scope,
    attrs: Seq<Node>,
    sig: Node,
    body: Node,
    error: Seq<char>,
)
    ensures
        ({
            let more = Setting { errors: s.errors.push(error), ..s };
            let before = function_offers(s, c, attrs, sig, body);
            let after = function_offers(more, c, attrs, sig, body);
            before.len() <= after.len() <= before.len() + 1 && after.take(before.len() as int) == before
        }),
{
    let more = Setting { errors: s.errors.push(error), ..s };
    let before = function_offers(s, c, attrs, sig, body);
    let after = function_offers(more, c, attrs, sig, body);
    if sig.kind == (Kind::Signature { constant: true }) || body.kids@.len() == 0 || sig.kids@.len() != 4 {
        assert(after.take(0) =~= before);
    } else {
        let values = values_at(s, c, sig);
        let shape = body_shape(sig.kids@[3]);
        assert(values_at(more, c, sig) == values);
        lemma_guessed_alike(s, more, c, body, values, is_recursive(c, sig), shape);
        lemma_failing_alike(s, more, c, body, s.errors, values.len());
        assert(more.errors.drop_last() =~= s.errors);
        assert(ending(s, c, body, sig.kids@[3]) == ending(more, c, body, sig.kids@[3]));
        assert(after.take(before.len() as int) =~= before);
    }
}

/// The candidates of the values that a return type admits, other than the default.
proof fn lemma_no_default_guessed(s: Setting, c: Scope, body: Node, values: Seq<Value>, shape: Shape)
    ensures
        forall|i: int|
            0 <= i < guessed(s, c, body, values, true, shape).len() ==> (#[trigger] guessed(
                s,
                c,
                body,
                values,
                true,
                shape,
            )[i]).mutator != "fn_value.default"@,
    decreases values.len(),
{
    if values.len() > 0 {
        lemma_no_default_guessed(s, c, body, values.drop_last(), shape);
    }
}

/// The candidates of supplied errors are of one mutator.
proof fn lemma_failing_mutator(s: Setting, c: Scope, body: Node, errors: Seq<Seq<char>>, count: nat)
    ensures
        forall|i: int|
            0 <= i < failing(s, c, body, errors, count).len() ==> (#[trigger] failing(s, c, body, errors, count)[i]).mutator
                == "fn_value.err_with"@,
    decreases errors.len(),
{
    if errors.len() > 0 {
        lemma_failing_mutator(s, c, body, errors.drop_last(), count);
    }
}

/// `Default::default()` is never offered for the body of the very function that it would call, which
/// would be an unbounded recursion rather than a different answer.
pub proof fn law_a_default_is_never_replaced_by_itself(s: Setting, c: Scope, attrs: Seq<Node>, sig: Node, body: Node, at: int)
    requires
        is_recursive(c, sig),
        0 <= at < function_offers(s, c, attrs, sig, body).len(),
    ensures
        function_offers(s, c, attrs, sig, body)[at].mutator != "fn_value.default"@,
{
    reveal_strlit("fn_value.default");
    reveal_strlit("fn_value.stated");
    reveal_strlit("fn_value.err_with");
    reveal_strlit("expr.increment");
    reveal_strlit("expr.decrement");
    assert("fn_value.default"@[9] == 'd');
    assert("fn_value.stated"@[9] == 's');
    assert("fn_value.err_with"@[9] == 'e');
    assert("expr.increment"@[0] == 'e');
    assert("expr.decrement"@[0] == 'e');
    assert("fn_value.default"@[0] == 'f');
    if sig.kids@.len() == 4 {
        let values = values_at(s, c, sig);
        lemma_no_default_guessed(s, c, body, values, body_shape(sig.kids@[3]));
        lemma_failing_mutator(s, c, body, s.errors, values.len());
    }
}

/// What a function offers for the errors that are supplied.
pub open spec fn supplied(s: Setting, c: Scope, sig: Node, body: Node) -> Seq<Offer> {
    if output_class(sig.kids@[3]) == Some(Class::Result) {
        failing(s, c, body, s.errors, values_at(s, c, sig).len())
    } else {
        Seq::empty()
    }
}

/// A stated value takes the place of the guesses, and leaves the errors that are supplied, their
/// indices included, as they are.
pub proof fn law_a_stated_value_leaves_the_errors_alone(
    s: Setting,
    c: Scope,
    attrs: Seq<Node>,
    others: Seq<Node>,
    sig: Node,
    body: Node,
)
    requires
        sig.kind == (Kind::Signature { constant: false }),
        sig.kids@.len() == 4,
        body.kids@.len() > 0,
    ensures
        ({
            let count = supplied(s, c, sig, body).len() as int;
            let left = function_offers(s, c, attrs, sig, body);
            let right = function_offers(s, c, others, sig, body);
            &&& count <= left.len()
            &&& count <= right.len()
            &&& left.skip(left.len() - count) == supplied(s, c, sig, body)
            &&& right.skip(right.len() - count) == supplied(s, c, sig, body)
        }),
{
    let tail = supplied(s, c, sig, body);
    let left = function_offers(s, c, attrs, sig, body);
    let right = function_offers(s, c, others, sig, body);
    assert(left.skip(left.len() - tail.len()) =~= tail);
    assert(right.skip(right.len() - tail.len()) =~= tail);
}

/// A stated value that a run does not ask for changes nothing: it may change what a site substitutes,
/// but never takes the site's mutants away.
pub proof fn law_a_stated_value_that_is_not_asked_for_changes_nothing(
    s: Setting,
    c: Scope,
    attrs: Seq<Node>,
    others: Seq<Node>,
    sig: Node,
    body: Node,
)
    requires
        !s.selection.contains("fn_value.stated"@),
    ensures
        function_offers(s, c, attrs, sig, body) == function_offers(s, c, others, sig, body),
{
}

/// A value that is stated on a function is refused exactly where it would do nothing: where it is not
/// refused it is offered, unless it is what the function does already.
pub proof fn law_a_stated_value_is_refused_where_it_does_nothing(
    s: Setting,
    c: Scope,
    attrs: Seq<Node>,
    sig: Node,
    body: Node,
    constant: bool,
)
    requires
        sig.kind == (Kind::Signature { constant }),
        sig.kids@.len() == 4,
        s.selection.contains("fn_value.stated"@),
        stated_span(attrs) is Some,
    ensures
        inert(constant, body.kids@.len() == 0) is Some ==> function_offers(s, c, attrs, sig, body) == Seq::<Offer>::empty(),
        inert(constant, body.kids@.len() == 0) is None ==> ({
            let (from, to) = stated_span(attrs)->0;
            let stated = offer_over(
                s,
                c,
                "fn_value.stated"@,
                body,
                slice(s.text, from, to),
                0,
                body_shape(sig.kids@[3]),
            );
            forall|i: int| 0 <= i < stated.len() ==> function_offers(s, c, attrs, sig, body).contains(#[trigger] stated[i])
        }),
{
    if inert(constant, body.kids@.len() == 0) is None {
        let (from, to) = stated_span(attrs)->0;
        let shape = body_shape(sig.kids@[3]);
        let stated = offer_over(s, c, "fn_value.stated"@, body, slice(s.text, from, to), 0, shape);
        let front = ending(s, c, body, sig.kids@[3]);
        let all = function_offers(s, c, attrs, sig, body);
        assert(all =~= front + stated + supplied(s, c, sig, body));
        assert forall|i: int| 0 <= i < stated.len() implies all.contains(#[trigger] stated[i]) by {
            assert(all[front.len() + i] == stated[i]);
        }
    }
}

// ---- What the build strips might as well not be there. ----

/// Taking out of a list of constructs one that is not in the build changes nothing of what they offer.
pub proof fn law_removing_code_outside_the_build_changes_no_offer(s: Setting, c: Scope, nodes: Seq<Node>, at: int)
    requires
        0 <= at < nodes.len(),
        is_left_alone(nodes[at], s.cfg),
    ensures
        visit_all(s, c, nodes.remove(at)) == visit_all(s, c, nodes),
    decreases nodes.len(),
{
    if at == nodes.len() - 1 {
        assert(nodes.remove(at) =~= nodes.drop_last());
        assert(nodes.last() == nodes[at]);
        law_code_outside_the_build_offers_nothing(s, c, nodes.last());
        assert(visit_all(s, c, nodes.drop_last()) + Seq::<Offer>::empty() =~= visit_all(s, c, nodes.drop_last()));
    } else {
        assert(nodes.remove(at).drop_last() =~= nodes.drop_last().remove(at));
        assert(nodes.remove(at).last() == nodes.last());
        law_removing_code_outside_the_build_changes_no_offer(s, c, nodes.drop_last(), at);
        let rest = nodes.remove(at);
        assert(rest.len() > 0);
        assert(visit_all(s, c, rest) == visit_all(s, c, rest.drop_last()) + visit(s, c, rest.last()));
    }
}

/// Taking it out changes nothing of what is known of the file's names either: code that the build
/// strips does not inform the guesses made about code that the build keeps.
pub proof fn law_code_outside_the_build_is_no_evidence(known: Evidence, nodes: Seq<Node>, at: int, wanted: Wanted, cfg: Build)
    requires
        0 <= at < nodes.len(),
        is_left_alone(nodes[at], cfg),
    ensures
        known.reading_all(nodes.remove(at), wanted, cfg) == known.reading_all(nodes, wanted, cfg),
    decreases nodes.len(),
{
    if at == nodes.len() - 1 {
        assert(nodes.remove(at) =~= nodes.drop_last());
        assert(nodes.last() == nodes[at]);
        let before = known.reading_all(nodes.drop_last(), wanted, cfg);
        assert(before.reading(nodes.last(), wanted, cfg) == before);
    } else {
        assert(nodes.remove(at).drop_last() =~= nodes.drop_last().remove(at));
        assert(nodes.remove(at).last() == nodes.last());
        law_code_outside_the_build_is_no_evidence(known, nodes.drop_last(), at, wanted, cfg);
        let rest = nodes.remove(at);
        assert(rest.len() > 0);
        assert(known.reading_all(rest, wanted, cfg) == known.reading_all(rest.drop_last(), wanted, cfg).reading(
            rest.last(),
            wanted,
            cfg,
        ));
    }
}

/// Nor is a stated value in it audited, where the build is known.
pub proof fn law_code_outside_the_build_is_not_audited(audited: Audited, nodes: Seq<Node>, at: int, cfg: Build)
    requires
        0 <= at < nodes.len(),
        is_left_alone(nodes[at], cfg),
    ensures
        audited.reading_all(nodes.remove(at), Some(cfg)) == audited.reading_all(nodes, Some(cfg)),
    decreases nodes.len(),
{
    if at == nodes.len() - 1 {
        assert(nodes.remove(at) =~= nodes.drop_last());
        assert(nodes.last() == nodes[at]);
        let before = audited.reading_all(nodes.drop_last(), Some(cfg));
        assert(before.reading(nodes.last(), Some(cfg)) == before);
    } else {
        assert(nodes.remove(at).drop_last() =~= nodes.drop_last().remove(at));
        assert(nodes.remove(at).last() == nodes.last());
        law_code_outside_the_build_is_not_audited(audited, nodes.drop_last(), at, cfg);
        let rest = nodes.remove(at);
        assert(rest.len() > 0);
        assert(audited.reading_all(rest, Some(cfg)) == audited.reading_all(rest.drop_last(), Some(cfg)).reading(
            rest.last(),
            Some(cfg),
        ));
    }
}

/// Whether no value is stated at a construct or beneath it.
pub open spec fn states_nothing(node: Node) -> bool
    decreases node,
{
    proof {
        node.lemma_inside();
    }
    &&& node.kind == Kind::AttrPath || node.kind == Kind::AttrList || node.kind == Kind::AttrValue ==> !is_stated(node)
    &&& forall|i: int| 0 <= i < node.attrs@.len() ==> !is_stated(#[trigger] node.attrs@[i])
    &&& all_state_nothing(node.attrs@)
    &&& all_state_nothing(node.inside())
}

/// The same of several constructs.
pub open spec fn all_state_nothing(nodes: Seq<Node>) -> bool
    decreases nodes,
{
    nodes.len() == 0 || all_state_nothing(nodes.drop_last()) && states_nothing(nodes.last())
}

/// Whether no value is stated in code that a configuration leaves alone.
pub open spec fn states_nothing_aside(node: Node, cfg: Build) -> bool
    decreases node,
{
    proof {
        node.lemma_inside();
    }
    if is_left_alone(node, cfg) {
        states_nothing(node)
    } else {
        all_state_nothing_aside(node.attrs@, cfg) && all_state_nothing_aside(node.inside(), cfg)
    }
}

/// The same of several constructs.
pub open spec fn all_state_nothing_aside(nodes: Seq<Node>, cfg: Build) -> bool
    decreases nodes,
{
    nodes.len() == 0 || all_state_nothing_aside(nodes.drop_last(), cfg) && states_nothing_aside(nodes.last(), cfg)
}

proof fn lemma_none_stated(attrs: Seq<Node>)
    requires
        forall|i: int| 0 <= i < attrs.len() ==> !is_stated(#[trigger] attrs[i]),
    ensures
        stated_among(attrs).len() == 0,
    decreases attrs.len(),
{
    reveal(Seq::filter);
    if attrs.len() > 0 {
        let front = attrs.drop_last();
        assert forall|i: int| 0 <= i < front.len() implies !is_stated(#[trigger] front[i]) by {
            assert(front[i] == attrs[i]);
        }
        lemma_none_stated(front);
        assert(!is_stated(attrs[attrs.len() - 1]));
    }
}

/// Where no value is stated, an audit sees nothing.
proof fn lemma_nothing_to_audit(audited: Audited, node: Node)
    requires
        states_nothing(node),
    ensures
        audited.reading(node, None) == audited,
    decreases node,
{
    node.lemma_inside();
    lemma_none_stated(node.attrs@);
    assert(audited.noting(node) == audited);
    lemma_nothing_to_audit_among(audited, node.attrs@);
    lemma_nothing_to_audit_among(audited, node.inside());
}

proof fn lemma_nothing_to_audit_among(audited: Audited, nodes: Seq<Node>)
    requires
        all_state_nothing(nodes),
    ensures
        audited.reading_all(nodes, None) == audited,
    decreases nodes,
{
    if nodes.len() > 0 {
        lemma_nothing_to_audit_among(audited, nodes.drop_last());
        lemma_nothing_to_audit(audited, nodes.last());
    }
}

proof fn lemma_same_audit(audited: Audited, node: Node, cfg: Build)
    requires
        states_nothing_aside(node, cfg),
    ensures
        audited.reading(node, Some(cfg)) == audited.reading(node, None),
    decreases node,
{
    node.lemma_inside();
    if is_left_alone(node, cfg) {
        lemma_nothing_to_audit(audited, node);
    } else {
        let noted = audited.noting(node);
        lemma_same_audit_among(noted, node.attrs@, cfg);
        lemma_same_audit_among(noted.reading_all(node.attrs@, None), node.inside(), cfg);
    }
}

proof fn lemma_same_audit_among(audited: Audited, nodes: Seq<Node>, cfg: Build)
    requires
        all_state_nothing_aside(nodes, cfg),
    ensures
        audited.reading_all(nodes, Some(cfg)) == audited.reading_all(nodes, None),
    decreases nodes,
{
    if nodes.len() > 0 {
        lemma_same_audit_among(audited, nodes.drop_last(), cfg);
        lemma_same_audit(audited.reading_all(nodes.drop_last(), None), nodes.last(), cfg);
    }
}

/// Where no value is stated in code that the configuration leaves alone, which without a configuration is
/// test code, the pass that checks and collects at once fails exactly where the check by itself does,
/// and says the same.
pub proof fn law_checking_on_the_way_finds_what_the_check_finds(file: SourceFile, cfg: Build, r: Result<(), Fault>)
    requires
        states_nothing_aside(file.ast, cfg),
    ensures
        is_sound(file.ast, cfg) <==> earliest(Audited::nothing().reading(file.ast, None).complaints()) is None,
        reports(r, file, Audited::nothing().reading(file.ast, Some(cfg))) <==> reports(
            r,
            file,
            Audited::nothing().reading(file.ast, None),
        ),
{
    lemma_same_audit(Audited::nothing(), file.ast, cfg);
}

} // verus!
