//! What a walk over code that was moved finds.
use super::evidence::alike_evidence_of;
use super::attributes::alike_skips;
use super::forms::{alike_is_left_alone, alike_last_name, alike_promotable, alike_stmt_attrs};
use super::kinds::{alike_defaulted_params, alike_is_fallback, alike_spellings_of, alike_undefaulted_params};
use super::moved::{
    kept, lemma_all_joined, lemma_all_of_none, lemma_each_moved, lemma_moved, lemma_moved_all_of,
    lemma_moved_first_of, lemma_moved_front, lemma_moved_kid, lemma_moved_same, lemma_moved_same_all,
    lemma_moved_source, moved, moved_all, moved_offers, moved_setting, Move,
};
use super::offered::{moved_function_offers, moved_judged, moved_macro_offers, moved_own_offers};
use super::scopes::{
    alike_body_scope, alike_bound, alike_bound_by, alike_declared_by, alike_function_scope, alike_loop_scope,
    alike_with_defaulted,
};
use super::{lemma_same_word, same_scope};
use crate::cfg::Build;
use crate::ops::collect::candidate::{comes_before, distinct, is_repeated, place_of, same_edit, sorted, Offer};
use crate::ops::collect::collector::naming::impl_scope;
use crate::ops::collect::collector::predicates::stmt_attrs;
use crate::ops::collect::collector::scope::{Scope, Setting};
use crate::ops::collect::collector::setting_of;
use crate::ops::collect::collector::visit::{
    body_offers, body_scope, bound, bound_by, declared_by, function_scope, implementation_scope, is_inert, judged,
    loop_scope, visit, visit_all, walked, with_defaulted,
};
use crate::ops::collect::collector::gate::is_left_alone;
use crate::ops::collect::collector::expressions::own_offers;
use crate::ops::collect::defaults::Known;
use crate::ops::collect::definitions::{definitions_of, law_identities_survive_reformatting, site_text};
use crate::ops::collect::traversal::admitted;
use crate::parse::SourceFile;
use crate::syntax::tree::{Kind, Node};
use crate::text::slice;
use vstd::prelude::*;

verus! {

/// An implementation that was moved has the same scope.
proof fn moved_implementation_scope(m: Move, s: Setting, s2: Setting, c: Scope, c2: Scope, node: Node, node2: Node)
    requires
        moved_setting(m, s, s2),
        same_scope(c, c2),
        moved(m, node, node2),
    ensures
        same_scope(implementation_scope(s, c, node), implementation_scope(s2, c2, node2)),
{
    lemma_moved_same(m, node, node2);
    lemma_moved_kid(m, node, node2, 0);
    lemma_moved_kid(m, node, node2, 2);
    lemma_moved_first_of(m, node, node2, 1);
    if let Some(generics) = node.kid(0) {
        let generics2 = node2.kid(0)->0;
        lemma_moved_same(m, generics, generics2);
        alike_undefaulted_params(generics, generics2, s.spellings);
        alike_defaulted_params(generics, generics2, s.spellings);
    }
    if let Some(path) = node.first_of(1) {
        let path2 = node2.first_of(1)->0;
        lemma_moved_same(m, path, path2);
        alike_last_name(path, path2);
        alike_is_fallback(s.spellings, path, path2);
        lemma_moved_source(m, path, path2);
    }
    if let Some(ty) = node.kid(2) {
        lemma_moved_same(m, ty, node2.kid(2)->0);
        lemma_moved_source(m, ty, node2.kid(2)->0);
    }
    assert(impl_scope(s.text, node) == impl_scope(s2.text, node2));
}

/// A walk over a construct that was moved finds what it found before, where that is then.
#[verifier::spinoff_prover]
#[verifier::rlimit(60)]
proof fn moved_visit(m: Move, s: Setting, s2: Setting, c: Scope, c2: Scope, node: Node, node2: Node)
    requires
        moved_setting(m, s, s2),
        same_scope(c, c2),
        moved(m, node, node2),
    ensures
        moved_offers(m, visit(s, c, node), visit(s2, c2, node2)),
    decreases node, 1nat,
{
    node.lemma_inside();
    lemma_all_of_none(m);
    lemma_moved(m, node, node2);
    lemma_moved_same(m, node, node2);
    alike_is_left_alone(node, node2, s.cfg);
    lemma_moved_kid(m, node, node2, 0);
    lemma_moved_kid(m, node, node2, 1);
    lemma_same_word(node, node2, 0);
    lemma_same_word(node, node2, 1);
    if !is_inert(node.kind) && !is_left_alone(node, s.cfg) {
        match node.kind {
            Kind::ItemFn | Kind::ImplFn | Kind::TraitFn => {
                alike_function_scope(s, s2, c, c2, node, node2);
                let outer = function_scope(s, c, node);
                let outer2 = function_scope(s2, c2, node2);
                moved_body_offers(m, s, s2, outer, outer2, node, node2);
                if let Some(sig) = node.kid(0) {
                    let sig2 = node2.kid(0)->0;
                    lemma_moved_same(m, sig, sig2);
                    lemma_moved(m, sig, sig2);
                    alike_body_scope(s, s2, outer, outer2, sig, sig2);
                    moved_visit_all(
                        m,
                        s,
                        s2,
                        body_scope(s, outer, sig),
                        body_scope(s2, outer2, sig2),
                        node.inside(),
                        node2.inside(),
                    );
                    lemma_all_joined(m, body_offers(s, outer, node), visit_all(s, body_scope(s, outer, sig), node.inside()));
                }
                lemma_all_joined(m, body_offers(s, outer, node), Seq::empty());
            },
            Kind::ItemMod => {
                let inner = c.inside_item(node.word(0));
                moved_visit_all(m, s, s2, inner, c2.inside_item(node.word(0)), node.inside(), node2.inside());
            },
            Kind::ItemTrait => {
                let inner = c.inside_item(node.word(0));
                let inner2 = c2.inside_item(node.word(0));
                if let Some(generics) = node.kid(1) {
                    lemma_moved_same(m, generics, node2.kid(1)->0);
                }
                alike_with_defaulted(s, s2, inner, inner2, node.kid(1), node2.kid(1));
                moved_visit_all(
                    m,
                    s,
                    s2,
                    with_defaulted(s, inner, node.kid(1)),
                    with_defaulted(s2, inner2, node2.kid(1)),
                    node.inside(),
                    node2.inside(),
                );
            },
            Kind::ItemImpl => {
                moved_implementation_scope(m, s, s2, c, c2, node, node2);
                moved_visit_all(
                    m,
                    s,
                    s2,
                    implementation_scope(s, c, node),
                    implementation_scope(s2, c2, node2),
                    node.inside(),
                    node2.inside(),
                );
            },
            Kind::Macro => moved_macro_offers(m, s, s2, c, c2, node, node2),
            Kind::Block => {
                lemma_moved_same_all(m, node.inside(), node2.inside());
                moved_judged(m, s, s2, c, c2, node.inside(), node2.inside());
                alike_declared_by(s, s2, c, c2, node.inside(), node2.inside());
                let inner = declared_by(s, c, node.inside());
                moved_walked(m, s, s2, inner, declared_by(s2, c2, node2.inside()), node.inside(), node2.inside());
                lemma_all_joined(m, judged(s, c, node.inside()), walked(s, inner, node.inside()));
            },
            Kind::Local => {
                alike_bound(s, s2, c, c2, node, node2);
                moved_visit_all(m, s, s2, bound(s, c, node), bound(s2, c2, node2), node.inside(), node2.inside());
            },
            Kind::Repeat => if let Some(element) = node.kid(0) {
                moved_visit(m, s, s2, c, c2, element, node2.kid(0)->0);
            },
            Kind::Reference => {
                if let Some(borrowed) = node.kid(0) {
                    lemma_moved_same(m, borrowed, node2.kid(0)->0);
                    alike_promotable(borrowed, node2.kid(0)->0);
                }
                moved_visit_all(m, s, s2, c, c2, node.inside(), node2.inside());
            },
            Kind::MethodCall => {
                moved_own_offers(m, s, s2, c, c2, node, node2);
                lemma_moved_all_of(m, node, node2, 3);
                lemma_each_moved(m, node.all_of(3), node2.all_of(3));
                let own = own_offers(s, c, node);
                if let Some(receiver) = node.kid(0) {
                    moved_visit(m, s, s2, c, c2, receiver, node2.kid(0)->0);
                    lemma_all_joined(m, own, visit(s, c, receiver));
                }
                moved_visit_all(m, s, s2, c, c2, node.inside(), node2.inside());
                lemma_all_joined(m, own, visit_all(s, c, node.inside()));
                lemma_all_joined(m, own, Seq::empty());
            },
            Kind::While | Kind::ForLoop | Kind::Loop => {
                moved_own_offers(m, s, s2, c, c2, node, node2);
                alike_loop_scope(c, c2, node, node2);
                moved_visit_all(m, s, s2, loop_scope(c, node), loop_scope(c2, node2), node.inside(), node2.inside());
                lemma_all_joined(m, own_offers(s, c, node), visit_all(s, loop_scope(c, node), node.inside()));
            },
            _ => {
                moved_own_offers(m, s, s2, c, c2, node, node2);
                moved_visit_all(m, s, s2, c, c2, node.inside(), node2.inside());
                lemma_all_joined(m, own_offers(s, c, node), visit_all(s, c, node.inside()));
            },
        }
    }
}

/// What a function that was moved offers for its body.
proof fn moved_body_offers(m: Move, s: Setting, s2: Setting, c: Scope, c2: Scope, node: Node, node2: Node)
    requires
        moved_setting(m, s, s2),
        same_scope(c, c2),
        moved(m, node, node2),
    ensures
        moved_offers(m, body_offers(s, c, node), body_offers(s2, c2, node2)),
{
    lemma_all_of_none(m);
    lemma_moved(m, node, node2);
    lemma_each_moved(m, node.kids@, node2.kids@);
    if node.kids@.len() == 2 {
        let (list, list2) = (node.kids@[1], node2.kids@[1]);
        assert(moved(m, node.kids@[0], node2.kids@[0]) && moved(m, list, list2));
        lemma_moved(m, list, list2);
        lemma_each_moved(m, list.kids@, list2.kids@);
        if list.kids@.len() > 0 {
            assert(moved(m, list.kids@[0], list2.kids@[0]));
            moved_function_offers(
                m,
                s,
                s2,
                c,
                c2,
                node.attrs@,
                node2.attrs@,
                node.kids@[0],
                node2.kids@[0],
                list.kids@[0],
                list2.kids@[0],
            );
        }
    }
}

/// `visit_all` of code that was moved.
proof fn moved_visit_all(m: Move, s: Setting, s2: Setting, c: Scope, c2: Scope, nodes: Seq<Node>, nodes2: Seq<Node>)
    requires
        moved_setting(m, s, s2),
        same_scope(c, c2),
        moved_all(m, nodes, nodes2),
    ensures
        moved_offers(m, visit_all(s, c, nodes), visit_all(s2, c2, nodes2)),
    decreases nodes, 0nat,
{
    lemma_all_of_none(m);
    if nodes.len() > 0 {
        lemma_moved_front(m, nodes, nodes2);
        moved_visit_all(m, s, s2, c, c2, nodes.drop_last(), nodes2.drop_last());
        moved_visit(m, s, s2, c, c2, nodes.last(), nodes2.last());
        lemma_all_joined(m, visit_all(s, c, nodes.drop_last()), visit(s, c, nodes.last()));
    }
}

/// `walked` of code that was moved.
proof fn moved_walked(m: Move, s: Setting, s2: Setting, c: Scope, c2: Scope, statements: Seq<Node>, statements2: Seq<Node>)
    requires
        moved_setting(m, s, s2),
        same_scope(c, c2),
        moved_all(m, statements, statements2),
    ensures
        moved_offers(m, walked(s, c, statements), walked(s2, c2, statements2)),
    decreases statements, 0nat,
{
    lemma_all_of_none(m);
    if statements.len() > 0 {
        let (front, front2) = (statements.drop_last(), statements2.drop_last());
        let (last, last2) = (statements.last(), statements2.last());
        lemma_moved_front(m, statements, statements2);
        moved_walked(m, s, s2, c, c2, front, front2);
        lemma_moved_same(m, last, last2);
        lemma_moved_same_all(m, front, front2);
        alike_stmt_attrs(last, last2);
        alike_skips(s.cfg, stmt_attrs(last), stmt_attrs(last2));
        alike_bound_by(s, s2, c, c2, front, front2);
        moved_visit(m, s, s2, bound_by(s, c, front), bound_by(s2, c2, front2), last, last2);
        lemma_all_joined(m, walked(s, c, front), visit(s, bound_by(s, c, front), last));
    }
}

// ---- Putting offers in order. ----

proof fn lemma_same_offers(m: Move, left: Offer, right: Offer)
    requires
        m.is_orderly(),
    ensures
        same_edit(m.one(left), m.one(right)) == same_edit(left, right),
        comes_before(m.one(left), m.one(right)) == comes_before(left, right),
{
    lemma_offsets(m, left.start, right.start);
    lemma_offsets(m, left.end, right.end);
}

proof fn lemma_offsets(m: Move, x: int, y: int)
    requires
        m.is_orderly(),
    ensures
        m.at(x) < m.at(y) <==> x < y,
        m.at(x) == m.at(y) <==> x == y,
{
    if x < y {
        assert(m.at(x) < m.at(y));
    } else if y < x {
        assert(m.at(y) < m.at(x));
    }
}

proof fn lemma_moved_repeats(m: Move, kept: Seq<Offer>, offer: Offer)
    requires
        m.is_orderly(),
    ensures
        is_repeated(m.all(kept), m.one(offer)) == is_repeated(kept, offer),
{
    assert forall|i: int| 0 <= i < kept.len() implies same_edit(#[trigger] m.all(kept)[i], m.one(offer)) == same_edit(kept[i], offer) by {
        lemma_same_offers(m, kept[i], offer);
    }
    if is_repeated(kept, offer) {
        let i = choose|i: int| 0 <= i < kept.len() && same_edit(#[trigger] kept[i], offer);
        assert(same_edit(m.all(kept)[i], m.one(offer)));
    }
    if is_repeated(m.all(kept), m.one(offer)) {
        let i = choose|i: int| 0 <= i < m.all(kept).len() && same_edit(#[trigger] m.all(kept)[i], m.one(offer));
        assert(same_edit(kept[i], offer));
    }
}

proof fn lemma_moved_distinct(m: Move, all: Seq<Offer>)
    requires
        m.is_orderly(),
    ensures
        distinct(m.all(all)) == m.all(distinct(all)),
    decreases all.len(),
{
    if all.len() == 0 {
        assert(distinct(m.all(all)) =~= m.all(distinct(all)));
    } else {
        assert(m.all(all).drop_last() =~= m.all(all.drop_last()));
        assert(m.all(all).last() == m.one(all.last()));
        lemma_moved_distinct(m, all.drop_last());
        let kept = distinct(all.drop_last());
        lemma_moved_repeats(m, kept, all.last());
        assert(m.all(kept.push(all.last())) =~= m.all(kept).push(m.one(all.last())));
    }
}

proof fn lemma_moved_place(m: Move, all: Seq<Offer>, offer: Offer)
    requires
        m.is_orderly(),
    ensures
        place_of(m.all(all), m.one(offer)) == place_of(all, offer),
        0 <= place_of(all, offer) <= all.len(),
    decreases all.len(),
{
    if all.len() > 0 {
        assert(m.all(all).drop_last() =~= m.all(all.drop_last()));
        assert(m.all(all).last() == m.one(all.last()));
        lemma_same_offers(m, offer, all.last());
        lemma_moved_place(m, all.drop_last(), offer);
    }
}

proof fn lemma_moved_sorted(m: Move, all: Seq<Offer>)
    requires
        m.is_orderly(),
    ensures
        sorted(m.all(all)) == m.all(sorted(all)),
    decreases all.len(),
{
    if all.len() == 0 {
        assert(sorted(m.all(all)) =~= m.all(sorted(all)));
    } else {
        assert(m.all(all).drop_last() =~= m.all(all.drop_last()));
        assert(m.all(all).last() == m.one(all.last()));
        lemma_moved_sorted(m, all.drop_last());
        let before = sorted(all.drop_last());
        lemma_moved_place(m, before, all.last());
        let at = place_of(before, all.last());
        assert(m.all(before.insert(at, all.last())) =~= m.all(before).insert(at, m.one(all.last())));
    }
}

proof fn lemma_kept_distinct(m: Move, all: Seq<Offer>)
    requires
        kept(m, all),
    ensures
        kept(m, distinct(all)),
    decreases all.len(),
{
    reveal(kept);
    if all.len() > 0 {
        assert forall|i: int| 0 <= i < all.len() - 1 implies m.keeps((#[trigger] all.drop_last()[i]).start, all.drop_last()[i].end) by {
            assert(m.keeps(all[i].start, all[i].end));
        }
        lemma_kept_distinct(m, all.drop_last());
        assert(m.keeps(all[all.len() - 1].start, all[all.len() - 1].end));
    }
}

proof fn lemma_kept_sorted(m: Move, all: Seq<Offer>)
    requires
        m.is_orderly(),
        kept(m, all),
    ensures
        kept(m, sorted(all)),
    decreases all.len(),
{
    reveal(kept);
    if all.len() > 0 {
        assert forall|i: int| 0 <= i < all.len() - 1 implies m.keeps((#[trigger] all.drop_last()[i]).start, all.drop_last()[i].end) by {
            assert(m.keeps(all[i].start, all[i].end));
        }
        lemma_kept_sorted(m, all.drop_last());
        let before = sorted(all.drop_last());
        let at = place_of(before, all.last());
        lemma_moved_place(m, before, all.last());
        assert(m.keeps(all[all.len() - 1].start, all[all.len() - 1].end));
        let after = before.insert(at, all.last());
        assert forall|i: int| 0 <= i < after.len() implies m.keeps((#[trigger] after[i]).start, after[i].end) by {
            if i < at {
                assert(after[i] == before[i]);
            } else if i > at {
                assert(after[i] == before[i - 1]);
            }
        }
    }
}

/// What a file admits once its code has been moved is what it admitted before, where that is then.
pub proof fn law_moving_code_moves_what_it_admits(
    m: Move,
    file: SourceFile,
    edited: SourceFile,
    selection: Set<Seq<char>>,
    errors: Seq<Seq<char>>,
    cfg: Build,
    known: Known,
)
    requires
        m.is_orderly(),
        m.from == file.text@,
        m.to == edited.text@,
        moved(m, file.ast, edited.ast),
    ensures
        moved_offers(
            m,
            admitted(setting_of(file, selection, errors, cfg, known), file.ast),
            admitted(setting_of(edited, selection, errors, cfg, known), edited.ast),
        ),
{
    let s = setting_of(file, selection, errors, cfg, known);
    let s2 = setting_of(edited, selection, errors, cfg, known);
    lemma_moved_same(m, file.ast, edited.ast);
    lemma_moved_all_of(m, file.ast, edited.ast, 0);
    lemma_moved_same_all(m, file.ast.all_of(0), edited.ast.all_of(0));
    alike_evidence_of(file.ast, edited.ast, selection, cfg);
    alike_spellings_of(file.ast.all_of(0), edited.ast.all_of(0), Build::unknown());
    let c = Scope::outermost();
    moved_visit(m, s, s2, c, c, file.ast, edited.ast);
    let all = visit(s, c, file.ast);
    lemma_moved_distinct(m, all);
    lemma_moved_sorted(m, distinct(all));
    lemma_kept_distinct(m, all);
    lemma_kept_sorted(m, distinct(all));
}

/// Moving code changes no identity, nor does what is put between or taken from between the constructs of
/// a file: a blank line, or a comment above an item.
///
/// What is inside a construct that has an extent of its own has to be the same text. Whether a candidate
/// would change anything is decided by the tokens of its text, so how a text is spaced within a
/// site is not settled by the tree alone.
pub proof fn law_identities_survive_moving_code(
    m: Move,
    file: SourceFile,
    edited: SourceFile,
    selection: Set<Seq<char>>,
    errors: Seq<Seq<char>>,
    cfg: Build,
    known: Known,
    i: int,
)
    requires
        m.is_orderly(),
        m.from == file.text@,
        m.to == edited.text@,
        moved(m, file.ast, edited.ast),
        file.path@ == edited.path@,
        0 <= i < admitted(setting_of(file, selection, errors, cfg, known), file.ast).len(),
    ensures
        ({
            let all = admitted(setting_of(file, selection, errors, cfg, known), file.ast);
            let after = admitted(setting_of(edited, selection, errors, cfg, known), edited.ast);
            &&& after.len() == all.len()
            &&& definitions_of(file.path@, file.text@, all)[i].id == definitions_of(edited.path@, edited.text@, after)[i].id
        }),
{
    let all = admitted(setting_of(file, selection, errors, cfg, known), file.ast);
    let after = admitted(setting_of(edited, selection, errors, cfg, known), edited.ast);
    law_moving_code_moves_what_it_admits(m, file, edited, selection, errors, cfg, known);
    reveal(kept);
    assert forall|j: int| 0 <= j < all.len() implies site_text(file.text@, #[trigger] all[j]) == site_text(edited.text@, after[j]) by {
        let (start, end) = (all[j].start, all[j].end);
        assert(m.keeps(start, end));
        assert(after[j] == m.one(all[j]));
        lemma_offsets(m, start, end);
        if start <= end {
            assert(m.at(end) - m.at(start) == end - start);
        }
        assert(slice(m.from, start, end) == slice(m.to, m.at(start), m.at(end)));
    }
    assert forall|j: int, k: int| 0 <= j < all.len() && 0 <= k < all.len() implies ((#[trigger] all[j]).start == (#[trigger] all[k]).start
        && all[j].end == all[k].end <==> after[j].start == after[k].start && after[j].end == after[k].end) by {
        lemma_offsets(m, all[j].start, all[k].start);
        lemma_offsets(m, all[j].end, all[k].end);
    }
    law_identities_survive_reformatting(file.path@, file.text@, all, edited.text@, after, i);
}

} // verus!
