//! One mutation opportunity, and which of several are kept.
use super::shape::Shape;
use crate::text;
use crate::text::{sorts_before, viewed_string};
use std::ops::Range;
use vstd::prelude::*;

verus! {

/// One mutation opportunity, before it is given a run-wide ordinal.
#[derive(Debug)]
pub struct Candidate {
    /// Registry name of the mutator.
    pub mutator: &'static str,
    /// Byte range of the construct being replaced.
    pub span: Range<usize>,
    /// The text that replaces the whole span.
    ///
    /// Whole-span, not just the changed token: every mutant is then a uniform (range, text) pair,
    /// so instrumentation never has to know what family produced it.
    pub replacement: String,
    /// Index among the replacements this mutator offers at this site.
    pub replacement_index: u32,
    /// Path of the enclosing item.
    pub item_path: String,
    /// How the site must be guarded.
    pub shape: Shape,
    /// The last name of the trait that the enclosing `impl` block implements, if it implements one.
    pub trait_impl: Option<String>,
}

/// What a candidate says.
#[verifier::ext_equal]
pub ghost struct Offer {
    pub mutator: Seq<char>,
    pub start: int,
    pub end: int,
    pub replacement: Seq<char>,
    pub index: u32,
    pub item_path: Seq<char>,
    pub shape: Shape,
    pub trait_impl: Option<Seq<char>>,
}

impl View for Candidate {
    type V = Offer;

    open spec fn view(&self) -> Offer {
        Offer {
            mutator: self.mutator@,
            start: self.span.start as int,
            end: self.span.end as int,
            replacement: self.replacement@,
            index: self.replacement_index,
            item_path: self.item_path@,
            shape: self.shape,
            trait_impl: viewed_string(self.trait_impl),
        }
    }
}

/// What candidates say.
pub open spec fn offers(candidates: Seq<Candidate>) -> Seq<Offer> {
    candidates.map_values(|candidate: Candidate| candidate@)
}

impl Clone for Candidate {
    fn clone(&self) -> (r: Candidate)
        ensures
            r@ == self@,
    {
        let trait_impl = match &self.trait_impl {
            Some(name) => Some(text::owned(name.as_str())),
            None => None,
        };
        Candidate {
            mutator: self.mutator,
            span: self.span.start..self.span.end,
            replacement: text::owned(self.replacement.as_str()),
            replacement_index: self.replacement_index,
            item_path: text::owned(self.item_path.as_str()),
            shape: self.shape,
            trait_impl,
        }
    }
}

// ---- One edit, once. ----

/// Whether two candidates are the same edit.
pub open spec fn same_edit(left: Offer, right: Offer) -> bool {
    left.start == right.start && left.end == right.end && left.replacement == right.replacement
}

/// Whether a candidate is the same edit as one of several.
pub open spec fn is_repeated(kept: Seq<Offer>, offer: Offer) -> bool {
    exists|i: int| 0 <= i < kept.len() && same_edit(#[trigger] kept[i], offer)
}

/// The candidates that are not the same edit as one before them.
///
/// Mutators are written independently and several of them converge on the same text. Two names for
/// one edit is still one edit, so whichever reached it first keeps it.
pub open spec fn distinct(all: Seq<Offer>) -> Seq<Offer>
    decreases all.len(),
{
    if all.len() == 0 {
        Seq::empty()
    } else {
        let kept = distinct(all.drop_last());
        if is_repeated(kept, all.last()) {
            kept
        } else {
            kept.push(all.last())
        }
    }
}

/// Keeps the candidates that are not the same edit as one before them.
pub fn keep_distinct(all: Vec<Candidate>) -> (r: Vec<Candidate>)
    ensures
        offers(r@) == distinct(offers(all@)),
{
    let ghost given = offers(all@);
    let mut kept: Vec<Candidate> = Vec::new();
    proof {
        assert(given.take(0) =~= Seq::<Offer>::empty());
        assert(offers(kept@) =~= distinct(given.take(0)));
    }
    let ghost candidates = all@;
    for candidate in it: all
        invariant
            it.seq() == candidates,
            given == offers(candidates),
            offers(kept@) == distinct(given.take(it.index() as int)),
    {
        let ghost at = it.index() as int;
        proof {
            assert(given.take(at + 1).drop_last() =~= given.take(at));
            assert(given.take(at + 1).last() == candidate@);
        }
        if !repeats(&kept, &candidate) {
            let ghost before = offers(kept@);
            let ghost own = candidate@;
            kept.push(candidate);
            proof {
                assert(offers(kept@) =~= before.push(own));
            }
        }
    }
    proof {
        assert(given.take(given.len() as int) =~= given);
    }
    kept
}

/// Whether a candidate is the same edit as one of several.
fn repeats(kept: &Vec<Candidate>, candidate: &Candidate) -> (r: bool)
    ensures
        r == is_repeated(offers(kept@), candidate@),
{
    let mut at: usize = kept.len();
    while at > 0
        invariant
            at <= kept@.len(),
            forall|i: int| at <= i < kept@.len() ==> !same_edit(#[trigger] offers(kept@)[i], candidate@),
        decreases at,
    {
        let other = &kept[at - 1];
        proof {
            assert(offers(kept@)[at - 1] == other@);
        }
        if other.span.start == candidate.span.start && other.span.end == candidate.span.end && text::same(
            other.replacement.as_str(),
            candidate.replacement.as_str(),
        ) {
            proof {
                assert(same_edit(offers(kept@)[at - 1], candidate@));
            }
            return true;
        }
        at -= 1;
    }
    false
}

// ---- Order. ----

/// Whether a candidate comes before another: by where it begins, its mutator, where it ends and its
/// index.
pub open spec fn comes_before(left: Offer, right: Offer) -> bool {
    if left.start != right.start {
        left.start < right.start
    } else if left.mutator != right.mutator {
        sorts_before(left.mutator, right.mutator)
    } else if left.end != right.end {
        left.end < right.end
    } else {
        left.index < right.index
    }
}

/// How many of the first candidates stay in front of another: all up to the last that it does not
/// come before.
pub open spec fn place_of(sorted: Seq<Offer>, offer: Offer) -> int
    decreases sorted.len(),
{
    if sorted.len() > 0 && comes_before(offer, sorted.last()) {
        place_of(sorted.drop_last(), offer)
    } else {
        sorted.len() as int
    }
}

/// Candidates in order; those that neither comes before the other stay as they were.
pub open spec fn sorted(all: Seq<Offer>) -> Seq<Offer>
    decreases all.len(),
{
    if all.len() == 0 {
        Seq::empty()
    } else {
        let before = sorted(all.drop_last());
        before.insert(place_of(before, all.last()), all.last())
    }
}

/// A place is one among the candidates.
pub proof fn lemma_place(sorted: Seq<Offer>, offer: Offer)
    ensures
        0 <= place_of(sorted, offer) <= sorted.len(),
        forall|i: int| place_of(sorted, offer) <= i < sorted.len() ==> comes_before(offer, #[trigger] sorted[i]),
        place_of(sorted, offer) > 0 ==> !comes_before(offer, sorted[place_of(sorted, offer) - 1]),
    decreases sorted.len(),
{
    if sorted.len() > 0 && comes_before(offer, sorted.last()) {
        lemma_place(sorted.drop_last(), offer);
        assert forall|i: int| place_of(sorted, offer) <= i < sorted.len() implies comes_before(offer, #[trigger] sorted[i]) by {
            if i < sorted.len() - 1 {
                assert(sorted.drop_last()[i] == sorted[i]);
            }
        }
    }
}

/// Whether a candidate comes before another.
fn is_before(left: &Candidate, right: &Candidate) -> (r: bool)
    ensures
        r == comes_before(left@, right@),
{
    if left.span.start != right.span.start {
        left.span.start < right.span.start
    } else if !text::same(left.mutator, right.mutator) {
        text::is_before(left.mutator, right.mutator)
    } else if left.span.end != right.span.end {
        left.span.end < right.span.end
    } else {
        left.replacement_index < right.replacement_index
    }
}

/// Puts candidates in order.
///
/// They are sorted by span start, then by mutator name, so that two runs over the same source produce
/// the same order however the traversal visits siblings.
pub fn put_in_order(all: Vec<Candidate>) -> (r: Vec<Candidate>)
    ensures
        offers(r@) == sorted(offers(all@)),
{
    let ghost given = offers(all@);
    let ghost candidates = all@;
    let mut placed: Vec<Candidate> = Vec::new();
    proof {
        assert(given.take(0) =~= Seq::<Offer>::empty());
        assert(offers(placed@) =~= sorted(given.take(0)));
    }
    for candidate in it: all
        invariant
            it.seq() == candidates,
            given == offers(candidates),
            offers(placed@) == sorted(given.take(it.index() as int)),
    {
        let ghost index = it.index() as int;
        let ghost own = candidate@;
        let ghost before = offers(placed@);
        proof {
            assert(given.take(index + 1).drop_last() =~= given.take(index));
            assert(given.take(index + 1).last() == own);
            assert(before.take(before.len() as int) =~= before);
        }
        let mut at: usize = placed.len();
        while at > 0 && is_before(&candidate, &placed[at - 1])
            invariant
                at <= placed@.len(),
                before == offers(placed@),
                own == candidate@,
                place_of(before, own) == place_of(before.take(at as int), own),
            decreases at,
        {
            proof {
                assert(before.take(at as int).last() == placed@[at - 1]@);
                assert(before.take(at as int).drop_last() =~= before.take(at - 1));
            }
            at -= 1;
        }
        proof {
            if at > 0 {
                assert(before.take(at as int).last() == placed@[at - 1]@);
            }
            assert(place_of(before, own) == at);
        }
        placed.insert(at, candidate);
        proof {
            assert(offers(placed@) =~= before.insert(at as int, own));
        }
    }
    proof {
        assert(given.take(given.len() as int) =~= given);
    }
    placed
}

// ---- What is promised of what is kept. ----

/// No two of the kept candidates are the same edit, and each was offered.
pub proof fn law_no_edit_is_kept_twice(all: Seq<Offer>)
    ensures
        forall|i: int, j: int|
            0 <= i < j < distinct(all).len() ==> !same_edit(#[trigger] distinct(all)[i], #[trigger] distinct(all)[j]),
        forall|i: int| 0 <= i < distinct(all).len() ==> all.contains(#[trigger] distinct(all)[i]),
    decreases all.len(),
{
    if all.len() > 0 {
        law_no_edit_is_kept_twice(all.drop_last());
        let kept = distinct(all.drop_last());
        assert forall|i: int| 0 <= i < distinct(all).len() implies all.contains(#[trigger] distinct(all)[i]) by {
            if i < kept.len() {
                assert(all.drop_last().contains(kept[i]));
                let j = choose|j: int| 0 <= j < all.drop_last().len() && all.drop_last()[j] == kept[i];
                assert(all[j] == kept[i]);
            } else {
                assert(all[all.len() - 1] == distinct(all)[i]);
            }
        }
    }
}

/// Every edit that is offered is kept, under the first name that reached it.
pub proof fn law_every_edit_is_kept_once(all: Seq<Offer>, at: int)
    requires
        0 <= at < all.len(),
    ensures
        is_repeated(distinct(all), all[at]),
        (forall|i: int| 0 <= i < at ==> !same_edit(#[trigger] all[i], all[at])) ==> distinct(all).contains(all[at]),
    decreases all.len(),
{
    let kept = distinct(all.drop_last());
    if at < all.len() - 1 {
        law_every_edit_is_kept_once(all.drop_last(), at);
        let i = choose|i: int| 0 <= i < kept.len() && same_edit(#[trigger] kept[i], all[at]);
        assert(same_edit(distinct(all)[i], all[at]));
        if forall|i: int| 0 <= i < at ==> !same_edit(#[trigger] all[i], all[at]) {
            assert forall|i: int| 0 <= i < at implies !same_edit(#[trigger] all.drop_last()[i], all[at]) by {
                assert(!same_edit(all[i], all[at]));
            }
            let j = choose|j: int| 0 <= j < kept.len() && kept[j] == all[at];
            assert(distinct(all)[j] == all[at]);
        }
    } else {
        if is_repeated(kept, all[at]) {
            if forall|i: int| 0 <= i < at ==> !same_edit(#[trigger] all[i], all[at]) {
                let i = choose|i: int| 0 <= i < kept.len() && same_edit(#[trigger] kept[i], all[at]);
                law_no_edit_is_kept_twice(all.drop_last());
                assert(all.drop_last().contains(kept[i]));
                let j = choose|j: int| 0 <= j < all.drop_last().len() && all.drop_last()[j] == kept[i];
                assert(!same_edit(all[j], all[at]));
            }
        } else {
            assert(same_edit(distinct(all)[kept.len() as int], all[at]));
            assert(distinct(all)[kept.len() as int] == all[at]);
        }
    }
}

/// Whether no candidate comes before one that stands in front of it.
pub open spec fn is_sorted(all: Seq<Offer>) -> bool {
    forall|i: int, j: int| 0 <= i < j < all.len() ==> !comes_before(#[trigger] all[j], #[trigger] all[i])
}

/// The order between candidates is a strict weak one.
proof fn lemma_order(a: Offer, b: Offer, c: Offer)
    ensures
        comes_before(a, b) ==> !comes_before(b, a),
        !comes_before(b, a) && !comes_before(c, b) ==> !comes_before(c, a),
{
    text::lemma_sorts_one_way(a.mutator, b.mutator);
    text::lemma_sorts_one_way(b.mutator, a.mutator);
    text::lemma_sorts_one_way(b.mutator, c.mutator);
    text::lemma_sorts_one_way(c.mutator, b.mutator);
    text::lemma_sorts_one_way(a.mutator, c.mutator);
    text::lemma_sorts_one_way(c.mutator, a.mutator);
    if sorts_before(a.mutator, b.mutator) && sorts_before(b.mutator, c.mutator) {
        text::lemma_sorts_on(a.mutator, b.mutator, c.mutator);
    }
}

/// Candidates come back in the order of the source, and none is lost or added.
pub proof fn law_candidates_come_back_in_order(all: Seq<Offer>)
    ensures
        is_sorted(sorted(all)),
        sorted(all).to_multiset() == all.to_multiset(),
    decreases all.len(),
{
    broadcast use vstd::seq_lib::group_to_multiset_ensures;

    if all.len() > 0 {
        law_candidates_come_back_in_order(all.drop_last());
        let before = sorted(all.drop_last());
        let own = all.last();
        let at = place_of(before, own);
        lemma_place(before, own);
        let after = before.insert(at, own);
        assert forall|i: int, j: int| 0 <= i < j < after.len() implies !comes_before(#[trigger] after[j], #[trigger] after[i]) by {
            if i < at && j < at {
                assert(!comes_before(before[j], before[i]));
            } else if i < at && j == at {
                assert(!comes_before(own, before[at - 1]));
                if i < at - 1 {
                    assert(!comes_before(before[at - 1], before[i]));
                    lemma_order(before[i], before[at - 1], own);
                }
            } else if i < at && j > at {
                assert(!comes_before(before[j - 1], before[i]));
            } else if i == at {
                assert(comes_before(own, before[j - 1]));
                lemma_order(own, before[j - 1], own);
            } else {
                assert(!comes_before(before[j - 1], before[i - 1]));
            }
        }
        assert(all =~= all.drop_last().push(own));
        vstd::seq_lib::to_multiset_insert(before, at, own);
        vstd::seq_lib::to_multiset_build(all.drop_last(), own);
    } else {
        assert(sorted(all) =~= all);
    }
}

/// Candidates are ordered by where they begin, then by the name of their mutator as in a dictionary, then by where
/// they end and last by their number.
pub proof fn law_candidates_are_ordered_by_place_and_name(all: Seq<Offer>, i: int, j: int)
    requires
        0 <= i < j < sorted(all).len(),
    ensures
        ({
            let (a, b) = (sorted(all)[i], sorted(all)[j]);
            &&& a.start <= b.start
            &&& a.start == b.start ==> !sorts_before(b.mutator, a.mutator)
            &&& a.start == b.start && a.mutator == b.mutator ==> a.end <= b.end
            &&& a.start == b.start && a.mutator == b.mutator && a.end == b.end ==> a.index <= b.index
        }),
{
    law_candidates_come_back_in_order(all);
    let (a, b) = (sorted(all)[i], sorted(all)[j]);
    assert(!comes_before(b, a));
    text::law_texts_sort_as_in_a_dictionary(a.mutator, Seq::empty(), Seq::empty());
}

/// Two candidates that are kept replace different stretches, or one stretch by different texts.
pub proof fn law_kept_candidates_differ_in_what_they_do(all: Seq<Offer>, i: int, j: int)
    requires
        0 <= i < j < distinct(all).len(),
    ensures
        ({
            let (a, b) = (distinct(all)[i], distinct(all)[j]);
            a.start != b.start || a.end != b.end || a.replacement != b.replacement
        }),
{
    law_no_edit_is_kept_twice(all);
    assert(!same_edit(distinct(all)[i], distinct(all)[j]));
}

} // verus!
