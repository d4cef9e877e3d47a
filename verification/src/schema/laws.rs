//! What instrumentation promises of every text and every population of mutants.
use super::encoding::{asks, lemma_guard_call};
use super::{
    ambiguous, closing, closings, guard_call, guard_of, is_first_overlap, laminar, lead, lemma_ambiguous, lemma_plan, lemma_reach_end,
    lemma_run_end, openings, ordered, overlap_message, overlaps, plan, plotted, position, precedes, says_overlap, shares, spliceable, together, trailing,
    turn, with_guards, within, woven, written, Guard, Position, Site, EITHER_PATH,
};
use crate::ops::collect::Shape;
use crate::text::{breaks, byte_len, decimal, slice, sliceable, tail};
use std::ops::Range;
use vstd::prelude::*;

verus! {

/// Whether sites can be woven into the region from `from` up to `to`.
pub open spec fn weavable(text: Seq<char>, sites: Seq<Site>, from: int, to: int) -> bool {
    &&& sliceable(text, from, to)
    &&& ordered(sites)
    &&& laminar(sites)
    &&& forall|i: int|
        0 <= i < sites.len() ==> {
            &&& spliceable(text, #[trigger] sites[i])
            &&& from <= sites[i].start
            &&& sites[i].end <= to
        }
}

/// The sites that lie in the first one can be woven into it, and those behind it into the rest.
pub(crate) proof fn lemma_weavable_parts(text: Seq<char>, sites: Seq<Site>, from: int, to: int)
    requires
        weavable(text, sites, from, to),
        sites.len() > 0,
    ensures
        1 <= together(sites) <= within(sites) <= sites.len(),
        sliceable(text, from, sites[0].start),
        weavable(text, sites.subrange(together(sites), within(sites)), sites[0].start, sites[0].end),
        weavable(text, sites.skip(within(sites)), sites[0].end, to),
{
    lemma_run_end(sites, 1);
    lemma_reach_end(sites, together(sites));
    let head = sites[0];
    let inside = sites.subrange(together(sites), within(sites));
    let rest = sites.skip(within(sites));
    assert(spliceable(text, sites[0]));
    assert forall|i: int| 0 <= i < inside.len() implies {
        &&& spliceable(text, #[trigger] inside[i])
        &&& head.start <= inside[i].start
        &&& inside[i].end <= head.end
    } by {
        let k = i + together(sites);
        assert(inside[i] == sites[k]);
        assert(!precedes(sites[k], sites[0]));
        assert(!overlaps(sites[0], sites[k]));
    }
    assert forall|i: int, j: int| 0 <= i < j < inside.len() implies !precedes(
        #[trigger] inside[j],
        #[trigger] inside[i],
    ) by {
        assert(!precedes(sites[j + together(sites)], sites[i + together(sites)]));
    }
    assert forall|i: int, j: int| 0 <= i < inside.len() && 0 <= j < inside.len() implies !overlaps(
        #[trigger] inside[i],
        #[trigger] inside[j],
    ) by {
        assert(!overlaps(sites[i + together(sites)], sites[j + together(sites)]));
    }
    assert forall|i: int| 0 <= i < rest.len() implies {
        &&& spliceable(text, #[trigger] rest[i])
        &&& head.end <= rest[i].start
        &&& rest[i].end <= to
    } by {
        let k = i + within(sites);
        assert(rest[i] == sites[k]);
        if i > 0 {
            assert(!precedes(sites[k], sites[within(sites)]));
        }
    }
    assert forall|i: int, j: int| 0 <= i < j < rest.len() implies !precedes(
        #[trigger] rest[j],
        #[trigger] rest[i],
    ) by {
        assert(!precedes(sites[j + within(sites)], sites[i + within(sites)]));
    }
    assert forall|i: int, j: int| 0 <= i < rest.len() && 0 <= j < rest.len() implies !overlaps(
        #[trigger] rest[i],
        #[trigger] rest[j],
    ) by {
        assert(!overlaps(sites[i + within(sites)], sites[j + within(sites)]));
    }
}

/// The plan of mutants that are not ambiguous can be woven into the whole text.
pub(crate) proof fn lemma_plan_is_weavable(text: Seq<char>, mutants: Seq<Site>)
    requires
        !ambiguous(text, mutants),
    ensures
        weavable(text, plan(text, mutants), 0, byte_len(text)),
{
    let sites = plan(text, mutants);
    lemma_plan(text, mutants);
    lemma_ambiguous(text, mutants);
    crate::text::lemma_slice_whole(text);
    assert forall|i: int| 0 <= i < sites.len() implies spliceable(text, #[trigger] sites[i]) by {
        assert(sites.contains(sites[i]));
    }
}

/// With nothing to splice, the text is left untouched.
pub proof fn law_nothing_spliceable_leaves_the_text_untouched(text: Seq<char>, mutants: Seq<Site>)
    requires
        forall|i: int| 0 <= i < mutants.len() ==> !spliceable(text, #[trigger] mutants[i]),
    ensures
        woven(text, plan(text, mutants), 0, byte_len(text)) == text,
        plotted(Map::empty(), Seq::empty(), text, plan(text, mutants), 0) == Map::<u32, Guard>::empty(),
{
    lemma_plan(text, mutants);
    let sites = plan(text, mutants);
    if sites.len() > 0 {
        assert(sites.contains(sites[0]));
        let i = choose|i: int| 0 <= i < mutants.len() && mutants[i] == sites[0];
        assert(!spliceable(text, mutants[i]));
    }
    crate::text::lemma_slice_whole(text);
}

// ---- Nothing of the original is lost, and nothing is written twice. ----

/// What `woven` copies of the original text, with every guard left out.
pub open spec fn copied(text: Seq<char>, sites: Seq<Site>, from: int, to: int) -> Seq<char>
    decreases sites.len(),
{
    if sites.len() == 0 {
        slice(text, from, to)
    } else {
        proof {
            lemma_run_end(sites, 1);
            lemma_reach_end(sites, together(sites));
        }
        slice(text, from, sites[0].start) + copied(
            text,
            sites.subrange(together(sites), within(sites)),
            sites[0].start,
            sites[0].end,
        ) + copied(text, sites.skip(within(sites)), sites[0].end, to)
    }
}

proof fn lemma_copied(text: Seq<char>, sites: Seq<Site>, from: int, to: int)
    requires
        weavable(text, sites, from, to),
    ensures
        copied(text, sites, from, to) == slice(text, from, to),
    decreases sites.len(),
{
    if sites.len() > 0 {
        lemma_weavable_parts(text, sites, from, to);
        let head = sites[0];
        lemma_copied(text, sites.subrange(together(sites), within(sites)), head.start, head.end);
        lemma_copied(text, sites.skip(within(sites)), head.end, to);
        crate::text::lemma_slice_join(text, from, head.start, head.end);
        crate::text::lemma_slice_join(text, from, head.end, to);
    }
}

/// Leaving every guard out gives back the original text, exactly.
///
/// The text outside every site is preserved, and so is the text inside one: the branch taken when
/// no mutant is active is the program as it was written.
pub proof fn law_the_original_text_is_preserved(text: Seq<char>, mutants: Seq<Site>)
    requires
        !ambiguous(text, mutants),
    ensures
        copied(text, plan(text, mutants), 0, byte_len(text)) == text,
{
    lemma_plan_is_weavable(text, mutants);
    lemma_copied(text, plan(text, mutants), 0, byte_len(text));
    crate::text::lemma_slice_whole(text);
}

/// The characters one mutant adds to the output, wherever it stands.
pub open spec fn cost(site: Site) -> nat {
    lead(site.shape, site.ordinal).len() + written(site.shape, site.replacement).len() + turn(site.shape).len()
        + closing(site.shape).len() + (if site.shape == Shape::Arm {
        5 + guard_call(site.ordinal).len()
    } else {
        0
    })
}

/// The characters a sequence of mutants adds to the output.
pub open spec fn costs(sites: Seq<Site>) -> nat
    decreases sites.len(),
{
    if sites.len() == 0 {
        0
    } else {
        costs(sites.drop_last()) + cost(sites.last())
    }
}

proof fn lemma_costs_add(left: Seq<Site>, right: Seq<Site>)
    ensures
        costs(left + right) == costs(left) + costs(right),
    decreases right.len(),
{
    if right.len() == 0 {
        assert(left + right =~= left);
    } else {
        assert((left + right).drop_last() =~= left + right.drop_last());
        lemma_costs_add(left, right.drop_last());
    }
}

/// What the guards of one site come to, counted mutant by mutant.
proof fn lemma_group_cost(shape: Shape, mutants: Seq<Site>, n: nat)
    requires
        n <= mutants.len(),
        forall|i: int| 0 <= i < mutants.len() ==> (#[trigger] mutants[i]).shape == shape,
    ensures
        costs(mutants.take(n as int)) == openings(shape, mutants, n).len() + closings(shape, n).len() + (if shape
            == Shape::Arm {
            trailing(mutants, n).len()
        } else {
            0
        }),
    decreases n,
{
    if n > 0 {
        lemma_group_cost(shape, mutants, (n - 1) as nat);
        assert(mutants.take(n as int).drop_last() =~= mutants.take(n - 1));
        assert(mutants[n - 1].shape == shape);
        reveal_strlit(" if !");
        reveal_strlit(" && !");
        assert(" if !"@.len() == 5);
        assert(" && !"@.len() == 5);
    } else {
        assert(mutants.take(0) =~= Seq::<Site>::empty());
    }
}

#[verifier::spinoff_prover]
#[verifier::rlimit(40)]
proof fn lemma_woven_length(text: Seq<char>, sites: Seq<Site>, from: int, to: int)
    requires
        weavable(text, sites, from, to),
    ensures
        woven(text, sites, from, to).len() == slice(text, from, to).len() + costs(sites),
    decreases sites.len(),
{
    if sites.len() > 0 {
        lemma_weavable_parts(text, sites, from, to);
        lemma_run_end(sites, 1);
        let head = sites[0];
        let group = sites.take(together(sites));
        let inside = sites.subrange(together(sites), within(sites));
        let rest = sites.skip(within(sites));
        lemma_woven_length(text, inside, head.start, head.end);
        lemma_woven_length(text, rest, head.end, to);
        crate::text::lemma_slice_join(text, from, head.start, head.end);
        crate::text::lemma_slice_join(text, from, head.end, to);
        assert forall|i: int| 0 <= i < group.len() implies (#[trigger] group[i]).shape == head.shape by {
            if i > 0 {
                assert(shares(sites[0], sites[i]));
            }
        }
        lemma_group_cost(head.shape, group, group.len());
        assert(group.take(group.len() as int) =~= group);
        lemma_costs_add(group, inside);
        lemma_costs_add(group + inside, rest);
        assert(group + inside + rest =~= sites);
    }
}

/// The output grows by what each mutant adds once, however deeply the sites nest.
///
/// Only one arm of a guard carries the sites nested in it, so nothing is written twice and the
/// encoding is linear in the size of the source.
pub proof fn law_output_is_linear(text: Seq<char>, mutants: Seq<Site>)
    requires
        !ambiguous(text, mutants),
    ensures
        woven(text, plan(text, mutants), 0, byte_len(text)).len() == text.len() + costs(plan(text, mutants)),
{
    lemma_plan_is_weavable(text, mutants);
    lemma_woven_length(text, plan(text, mutants), 0, byte_len(text));
    crate::text::lemma_slice_whole(text);
}

// ---- Where the guards land, one against another. ----

/// Whether one position reads no later than another.
pub open spec fn no_later(left: Position, right: Position) -> bool {
    left.line < right.line || left.line == right.line && left.column <= right.column
}

/// Whether one range ends before another begins.
pub open spec fn apart(left: Range<Position>, right: Range<Position>) -> bool {
    no_later(left.end, right.start) || no_later(right.end, left.start)
}

proof fn lemma_breaks_grow(left: Seq<char>, right: Seq<char>)
    ensures
        breaks(left) <= breaks(left + right),
        breaks(left) == breaks(left + right) ==> tail(left + right) == tail(left)
            + right.len(),
    decreases right.len(),
{
    if right.len() == 0 {
        assert(left + right =~= left);
    } else {
        lemma_breaks_grow(left, right.drop_last());
        assert((left + right).drop_last() =~= left + right.drop_last());
    }
}

/// More text moves the position on, as long as the lines can be counted.
proof fn lemma_position_grows(left: Seq<char>, right: Seq<char>, whole: Seq<char>)
    requires
        whole == left + right,
        breaks(whole) < u32::MAX - 1,
    ensures
        no_later(position(left), position(whole)),
        breaks(left) <= breaks(whole),
{
    lemma_breaks_grow(left, right);
}

proof fn lemma_openings_grow(shape: Shape, mutants: Seq<Site>, n: nat, m: nat) -> (more: Seq<char>)
    requires
        n <= m <= mutants.len(),
    ensures
        openings(shape, mutants, m) == openings(shape, mutants, n) + more,
    decreases m - n,
{
    if n == m {
        assert(openings(shape, mutants, m) =~= openings(shape, mutants, n) + Seq::<char>::empty());
        Seq::empty()
    } else {
        let shorter = lemma_openings_grow(shape, mutants, n, (m - 1) as nat);
        let last = mutants[m - 1];
        let more = shorter + lead(shape, last.ordinal) + written(shape, last.replacement) + turn(shape);
        assert(openings(shape, mutants, m) =~= openings(shape, mutants, n) + more);
        more
    }
}

/// Whether no two mutants share an ordinal.
pub open spec fn distinct(sites: Seq<Site>) -> bool {
    forall|i: int, j: int|
        0 <= i < j < sites.len() ==> (#[trigger] sites[i]).ordinal != (#[trigger] sites[j]).ordinal
}

/// Whether a guard lies between two positions, its mutated branch inside it.
spec fn lies(guard: Guard, from: Position, to: Position) -> bool {
    &&& no_later(from, guard.site.start)
    &&& no_later(guard.site.end, to)
    &&& no_later(guard.site.start, guard.site.end)
    &&& holds_its_branch(guard)
}

/// Whether none of `sites` has the ordinal `o`.
spec fn absent(sites: Seq<Site>, o: u32) -> bool {
    forall|i: int| 0 <= i < sites.len() ==> (#[trigger] sites[i]).ordinal != o
}

/// Adding the guards of one site leaves every other ordinal alone.
proof fn lemma_with_guards_elsewhere(
    guards: Map<u32, Guard>,
    before: Seq<char>,
    whole: Seq<char>,
    shape: Shape,
    mutants: Seq<Site>,
    n: nat,
    o: u32,
)
    requires
        n <= mutants.len(),
        absent(mutants, o),
    ensures
        with_guards(guards, before, whole, shape, mutants, n).dom().contains(o) <==> guards.dom().contains(o),
        with_guards(guards, before, whole, shape, mutants, n)[o] == guards[o],
    decreases n,
{
    if n > 0 {
        lemma_with_guards_elsewhere(guards, before, whole, shape, mutants, (n - 1) as nat, o);
        assert(mutants[n - 1].ordinal != o);
    }
}

/// Adding the guards of one site adds the guard of each of its mutants.
proof fn lemma_with_guards_own(
    guards: Map<u32, Guard>,
    before: Seq<char>,
    whole: Seq<char>,
    shape: Shape,
    mutants: Seq<Site>,
    n: nat,
    i: int,
)
    requires
        0 <= i < n <= mutants.len(),
        distinct(mutants),
    ensures
        with_guards(guards, before, whole, shape, mutants, n).dom().contains(mutants[i].ordinal),
        with_guards(guards, before, whole, shape, mutants, n)[mutants[i].ordinal] == guard_of(
            before,
            whole,
            shape,
            mutants,
            i,
        ),
    decreases n,
{
    if i < n - 1 {
        lemma_with_guards_own(guards, before, whole, shape, mutants, (n - 1) as nat, i);
        assert(mutants[i].ordinal != mutants[n - 1].ordinal);
    }
}

/// The guard of one mutant of a site lies in the site, its mutated branch ahead of the original.
proof fn lemma_guard_of(
    before: Seq<char>,
    whole: Seq<char>,
    more: Seq<char>,
    shape: Shape,
    mutants: Seq<Site>,
    n: int,
)
    requires
        0 <= n < mutants.len(),
        whole == before + openings(shape, mutants, mutants.len()) + more,
        breaks(whole) < u32::MAX - 1,
    ensures
        lies(guard_of(before, whole, shape, mutants, n), position(before), position(whole)),
        guard_of(before, whole, shape, mutants, n).mutated matches Some(range) ==> {
            &&& no_later(range.end, position(before + openings(shape, mutants, (n + 1) as nat)))
            &&& no_later(position(before + openings(shape, mutants, n as nat)), range.start)
            &&& no_later(range.end, position(before + openings(shape, mutants, mutants.len())))
        },
{
    let opened = before + openings(shape, mutants, n as nat);
    let from = opened + lead(shape, mutants[n].ordinal);
    let text = written(shape, mutants[n].replacement);
    let next = before + openings(shape, mutants, (n + 1) as nat);
    let all = before + openings(shape, mutants, mutants.len());
    let to_next = lemma_openings_grow(shape, mutants, (n + 1) as nat, mutants.len());
    let from_start = lemma_openings_grow(shape, mutants, n as nat, mutants.len());
    assert(next =~= from + text + turn(shape));
    assert(all =~= next + to_next);
    lemma_position_grows(all, more, whole);
    lemma_position_grows(next, to_next, all);
    lemma_position_grows(from + text, turn(shape), next);
    lemma_position_grows(from, text, from + text);
    assert(from =~= opened + lead(shape, mutants[n].ordinal));
    lemma_position_grows(opened, lead(shape, mutants[n].ordinal), from);
    lemma_position_grows(before, openings(shape, mutants, n as nat), opened);
    assert(whole =~= before + (openings(shape, mutants, mutants.len()) + more));
    lemma_position_grows(before, openings(shape, mutants, mutants.len()) + more, whole);
}

/// Whether the mutated branches of two mutants do not overlap.
pub open spec fn branches_apart(guards: Map<u32, Guard>, left: Site, right: Site) -> bool {
    guards[left.ordinal].mutated matches Some(one) ==> guards[right.ordinal].mutated matches Some(other) ==> apart(
        one,
        other,
    )
}

/// Whether the guard of `inner` lies in the site of `outer`, behind its mutated branch.
pub open spec fn encloses_plainly(guards: Map<u32, Guard>, outer: Site, inner: Site) -> bool {
    &&& no_later(guards[outer.ordinal].site.start, guards[inner.ordinal].site.start)
    &&& no_later(guards[inner.ordinal].site.end, guards[outer.ordinal].site.end)
    &&& guards[outer.ordinal].mutated matches Some(range) ==> no_later(range.end, guards[inner.ordinal].site.start)
}

/// Whether a guard's mutated branch, if it has one, lies in its site.
pub open spec fn holds_its_branch(guard: Guard) -> bool {
    guard.mutated matches Some(range) ==> {
        &&& no_later(guard.site.start, range.start)
        &&& no_later(range.start, range.end)
        &&& no_later(range.end, guard.site.end)
    }
}

/// Whether the guards of some of `sites` are settled between two outputs.
spec fn settled_between(
    guards: Map<u32, Guard>,
    sites: Seq<Site>,
    lo: int,
    hi: int,
    from: Position,
    to: Position,
) -> bool {
    &&& forall|i: int|
        lo <= i < hi ==> guards.dom().contains((#[trigger] sites[i]).ordinal) && lies(
            guards[sites[i].ordinal],
            from,
            to,
        )
    &&& forall|i: int, j: int|
        lo <= i < j < hi ==> branches_apart(guards, #[trigger] sites[i], #[trigger] sites[j])
    &&& forall|i: int, j: int|
        lo <= i < j < hi && sites[j].start < sites[i].end && !shares(sites[i], sites[j]) ==> encloses_plainly(
            guards,
            #[trigger] sites[i],
            #[trigger] sites[j],
        )
}

/// Three stretches of sites, each settled in its own stretch of output, are settled in the whole.
proof fn lemma_settled_together(
    all: Map<u32, Guard>,
    sites: Seq<Site>,
    k: int,
    m: int,
    before: Position,
    at: Position,
    opened: Position,
    closed: Position,
    whole: Position,
    end: Position,
)
    requires
        0 < k <= m <= sites.len(),
        no_later(before, at),
        no_later(at, opened),
        no_later(opened, closed),
        no_later(closed, whole),
        no_later(whole, end),
        settled_between(all, sites, 0, k, at, whole),
        settled_between(all, sites, k, m, opened, closed),
        settled_between(all, sites, m, sites.len() as int, whole, end),
        forall|i: int|
            0 <= i < k ==> (all[(#[trigger] sites[i]).ordinal].mutated matches Some(range) ==> no_later(
                range.end,
                opened,
            )),
        forall|i: int| 0 <= i < k ==> all[(#[trigger] sites[i]).ordinal].site == (Range { start: at, end: whole }),
        forall|i: int, j: int|
            0 <= i < m <= j < sites.len() ==> (#[trigger] sites[j]).start >= (#[trigger] sites[i]).end,
    ensures
        settled_between(all, sites, 0, sites.len() as int, before, end),
{
    assert forall|i: int| 0 <= i < sites.len() implies all.dom().contains((#[trigger] sites[i]).ordinal) && lies(
        all[sites[i].ordinal],
        before,
        end,
    ) by {}
    assert forall|i: int, j: int| 0 <= i < j < sites.len() implies branches_apart(
        all,
        #[trigger] sites[i],
        #[trigger] sites[j],
    ) by {
        if i < k && k <= j < m {
            assert(lies(all[sites[j].ordinal], opened, closed));
        } else if i < m && j >= m {
            assert(lies(all[sites[j].ordinal], whole, end));
            if i < k {
                assert(lies(all[sites[i].ordinal], at, whole));
            } else {
                assert(lies(all[sites[i].ordinal], opened, closed));
            }
        }
    }
    assert forall|i: int, j: int|
        0 <= i < j < sites.len() && sites[j].start < sites[i].end && !shares(
            sites[i],
            sites[j],
        ) implies encloses_plainly(all, #[trigger] sites[i], #[trigger] sites[j]) by {
        if i < k && k <= j < m {
            assert(lies(all[sites[j].ordinal], opened, closed));
        }
    }
}

/// The guards of sites that stand elsewhere in a sequence are settled there all the same.
proof fn lemma_settled_part(
    part_guards: Map<u32, Guard>,
    part: Seq<Site>,
    all: Map<u32, Guard>,
    sites: Seq<Site>,
    lo: int,
    from: Position,
    to: Position,
)
    requires
        0 <= lo,
        lo + part.len() <= sites.len(),
        part == sites.subrange(lo, lo + part.len()),
        settled_between(part_guards, part, 0, part.len() as int, from, to),
        forall|i: int|
            lo <= i < lo + part.len() ==> all.dom().contains((#[trigger] sites[i]).ordinal) && all[sites[i].ordinal]
                == part_guards[sites[i].ordinal],
    ensures
        settled_between(all, sites, lo, lo + part.len(), from, to),
{
    let hi = lo + part.len();
    assert forall|i: int| lo <= i < hi implies all.dom().contains((#[trigger] sites[i]).ordinal) && lies(
        all[sites[i].ordinal],
        from,
        to,
    ) by {
        assert(part[i - lo] == sites[i]);
    }
    assert forall|i: int, j: int| lo <= i < j < hi implies branches_apart(
        all,
        #[trigger] sites[i],
        #[trigger] sites[j],
    ) by {
        assert(part[i - lo] == sites[i] && part[j - lo] == sites[j]);
        assert(branches_apart(part_guards, part[i - lo], part[j - lo]));
    }
    assert forall|i: int, j: int|
        lo <= i < j < hi && sites[j].start < sites[i].end && !shares(sites[i], sites[j]) implies encloses_plainly(
        all,
        #[trigger] sites[i],
        #[trigger] sites[j],
    ) by {
        assert(part[i - lo] == sites[i] && part[j - lo] == sites[j]);
        assert(encloses_plainly(part_guards, part[i - lo], part[j - lo]));
    }
}

/// What one mutant of a site writes ends before what a later one writes begins.
proof fn lemma_openings_in_order(before: Seq<char>, shape: Shape, mutants: Seq<Site>, i: int, j: int)
    requires
        0 <= i < j < mutants.len(),
        breaks(before + openings(shape, mutants, mutants.len())) < u32::MAX - 1,
    ensures
        no_later(
            position(before + openings(shape, mutants, (i + 1) as nat)),
            position(before + openings(shape, mutants, j as nat)),
        ),
{
    let more_open = lemma_openings_grow(shape, mutants, (i + 1) as nat, j as nat);
    let more_after = lemma_openings_grow(shape, mutants, j as nat, mutants.len());
    let low = before + openings(shape, mutants, (i + 1) as nat);
    let high = before + openings(shape, mutants, j as nat);
    assert(high =~= low + more_open);
    assert(before + openings(shape, mutants, mutants.len()) =~= high + more_after);
    lemma_position_grows(high, more_after, before + openings(shape, mutants, mutants.len()));
    lemma_position_grows(low, more_open, high);
}

/// The guards of one site are settled in it, their mutated branches ahead of the original.
#[verifier::spinoff_prover]
#[verifier::rlimit(60)]
proof fn lemma_settled_group(
    guards: Map<u32, Guard>,
    before: Seq<char>,
    whole: Seq<char>,
    more: Seq<char>,
    shape: Shape,
    mutants: Seq<Site>,
)
    requires
        distinct(mutants),
        forall|i: int, j: int|
            0 <= i < mutants.len() && 0 <= j < mutants.len() ==> shares(#[trigger] mutants[i], #[trigger] mutants[j]),
        whole == before + openings(shape, mutants, mutants.len()) + more,
        breaks(whole) < u32::MAX - 1,
    ensures
        settled_between(
            with_guards(guards, before, whole, shape, mutants, mutants.len()),
            mutants,
            0,
            mutants.len() as int,
            position(before),
            position(whole),
        ),
        forall|i: int|
            0 <= i < mutants.len() ==> (with_guards(guards, before, whole, shape, mutants, mutants.len())[(
            #[trigger] mutants[i]).ordinal].mutated matches Some(range) ==> no_later(
                range.end,
                position(before + openings(shape, mutants, mutants.len())),
            )),
        forall|i: int|
            0 <= i < mutants.len() ==> with_guards(guards, before, whole, shape, mutants, mutants.len())[(
            #[trigger] mutants[i]).ordinal].site == (Range { start: position(before), end: position(whole) }),
{
    let own = with_guards(guards, before, whole, shape, mutants, mutants.len());
    let opened = before + openings(shape, mutants, mutants.len());
    lemma_position_grows(opened, more, whole);
    assert forall|i: int| 0 <= i < mutants.len() implies {
        &&& own.dom().contains((#[trigger] mutants[i]).ordinal)
        &&& own[mutants[i].ordinal] == guard_of(before, whole, shape, mutants, i)
        &&& lies(own[mutants[i].ordinal], position(before), position(whole))
        &&& own[mutants[i].ordinal].mutated matches Some(range) ==> {
            &&& no_later(range.end, position(before + openings(shape, mutants, (i + 1) as nat)))
            &&& no_later(position(before + openings(shape, mutants, i as nat)), range.start)
            &&& no_later(range.end, position(opened))
        }
    } by {
        lemma_with_guards_own(guards, before, whole, shape, mutants, mutants.len(), i);
        lemma_guard_of(before, whole, more, shape, mutants, i);
    }
    assert forall|i: int, j: int| 0 <= i < j < mutants.len() implies branches_apart(
        own,
        #[trigger] mutants[i],
        #[trigger] mutants[j],
    ) by {
        lemma_openings_in_order(before, shape, mutants, i, j);
    }
}

/// Whether two maps of guards agree on every ordinal that none of `sites` has.
spec fn elsewhere_unchanged(before: Map<u32, Guard>, after: Map<u32, Guard>, sites: Seq<Site>) -> bool {
    forall|o: u32| #[trigger]
        absent(sites, o) ==> (after.dom().contains(o) <==> before.dom().contains(o)) && after[o] == before[o]
}

/// Three steps that each touch their own sites touch no others.
proof fn lemma_elsewhere_unchanged(
    guards: Map<u32, Guard>,
    nested: Map<u32, Guard>,
    own: Map<u32, Guard>,
    all: Map<u32, Guard>,
    sites: Seq<Site>,
    k: int,
    m: int,
)
    requires
        0 <= k <= m <= sites.len(),
        distinct(sites),
        elsewhere_unchanged(guards, nested, sites.subrange(k, m)),
        elsewhere_unchanged(nested, own, sites.take(k)),
        elsewhere_unchanged(own, all, sites.skip(m)),
    ensures
        elsewhere_unchanged(guards, all, sites),
        forall|i: int|
            0 <= i < m ==> (all.dom().contains((#[trigger] sites[i]).ordinal) <==> own.dom().contains(
                sites[i].ordinal,
            )) && all[sites[i].ordinal] == own[sites[i].ordinal],
        forall|i: int|
            k <= i < m ==> (own.dom().contains((#[trigger] sites[i]).ordinal) <==> nested.dom().contains(
                sites[i].ordinal,
            )) && own[sites[i].ordinal] == nested[sites[i].ordinal],
{
    let group = sites.take(k);
    let inside = sites.subrange(k, m);
    let rest = sites.skip(m);
    assert forall|i: int| 0 <= i < m implies (all.dom().contains((#[trigger] sites[i]).ordinal)
        <==> own.dom().contains(sites[i].ordinal)) && all[sites[i].ordinal] == own[sites[i].ordinal] by {
        assert forall|j: int| 0 <= j < rest.len() implies (#[trigger] rest[j]).ordinal != sites[i].ordinal by {
            assert(sites[i].ordinal != sites[j + m].ordinal);
        }
        assert(absent(rest, sites[i].ordinal));
    }
    assert forall|i: int| k <= i < m implies (own.dom().contains((#[trigger] sites[i]).ordinal)
        <==> nested.dom().contains(sites[i].ordinal)) && own[sites[i].ordinal] == nested[sites[i].ordinal] by {
        assert forall|j: int| 0 <= j < group.len() implies (#[trigger] group[j]).ordinal != sites[i].ordinal by {
            assert(sites[j].ordinal != sites[i].ordinal);
        }
        assert(absent(group, sites[i].ordinal));
    }
    assert forall|o: u32| #[trigger] absent(sites, o) implies (all.dom().contains(o) <==> guards.dom().contains(o))
        && all[o] == guards[o] by {
        assert forall|i: int| 0 <= i < inside.len() implies (#[trigger] inside[i]).ordinal != o by {
            assert(sites[i + k].ordinal != o);
        }
        assert forall|i: int| 0 <= i < rest.len() implies (#[trigger] rest[i]).ordinal != o by {
            assert(sites[i + m].ordinal != o);
        }
        assert forall|i: int| 0 <= i < group.len() implies (#[trigger] group[i]).ordinal != o by {
            assert(sites[i].ordinal != o);
        }
        assert(absent(inside, o) && absent(group, o) && absent(rest, o));
    }
}

/// What is settled of a site's own guards, of those in it and of those behind it is settled of all.
proof fn lemma_combined(
    guards: Map<u32, Guard>,
    nested: Map<u32, Guard>,
    own: Map<u32, Guard>,
    all: Map<u32, Guard>,
    sites: Seq<Site>,
    k: int,
    m: int,
    before: Position,
    at: Position,
    opened: Position,
    closed: Position,
    whole: Position,
    end: Position,
)
    requires
        0 < k <= m <= sites.len(),
        distinct(sites),
        no_later(before, at),
        no_later(at, opened),
        no_later(opened, closed),
        no_later(closed, whole),
        no_later(whole, end),
        settled_between(own, sites.take(k), 0, k, at, whole),
        settled_between(nested, sites.subrange(k, m), 0, m - k, opened, closed),
        settled_between(all, sites.skip(m), 0, sites.len() - m, whole, end),
        elsewhere_unchanged(guards, nested, sites.subrange(k, m)),
        elsewhere_unchanged(nested, own, sites.take(k)),
        elsewhere_unchanged(own, all, sites.skip(m)),
        forall|i: int|
            0 <= i < k ==> (own[(#[trigger] sites[i]).ordinal].mutated matches Some(range) ==> no_later(
                range.end,
                opened,
            )),
        forall|i: int| 0 <= i < k ==> own[(#[trigger] sites[i]).ordinal].site == (Range { start: at, end: whole }),
        forall|i: int, j: int|
            0 <= i < m <= j < sites.len() ==> (#[trigger] sites[j]).start >= (#[trigger] sites[i]).end,
    ensures
        settled_between(all, sites, 0, sites.len() as int, before, end),
        elsewhere_unchanged(guards, all, sites),
{
    let group = sites.take(k);
    let inside = sites.subrange(k, m);
    let rest = sites.skip(m);
    lemma_elsewhere_unchanged(guards, nested, own, all, sites, k, m);
    assert forall|i: int| 0 <= i < k implies all.dom().contains((#[trigger] sites[i]).ordinal) by {
        assert(group[i] == sites[i]);
    }
    assert forall|i: int| k <= i < m implies all.dom().contains((#[trigger] sites[i]).ordinal) by {
        assert(inside[i - k] == sites[i]);
    }
    assert forall|i: int| m <= i < sites.len() implies all.dom().contains((#[trigger] sites[i]).ordinal) by {
        assert(rest[i - m] == sites[i]);
    }
    assert(group =~= sites.subrange(0, group.len() as int));
    lemma_settled_part(own, group, all, sites, 0, at, whole);
    lemma_settled_part(nested, inside, all, sites, k, opened, closed);
    assert(rest =~= sites.subrange(m, m + rest.len()));
    lemma_settled_part(all, rest, all, sites, m, whole, end);
    lemma_settled_together(all, sites, k, m, before, at, opened, closed, whole, end);
}

/// The positions that follow the parts of a region come in order.
proof fn lemma_parts_in_order(
    before: Seq<char>,
    copied: Seq<char>,
    open: Seq<char>,
    inner: Seq<char>,
    close: Seq<char>,
    last: Seq<char>,
)
    requires
        breaks(before + copied + open + inner + close + last) < u32::MAX - 1,
    ensures
        no_later(position(before), position(before + copied)),
        no_later(position(before + copied), position(before + copied + open)),
        no_later(position(before + copied + open), position(before + copied + open + inner)),
        no_later(position(before + copied + open + inner), position(before + copied + open + inner + close)),
        no_later(
            position(before + copied + open + inner + close),
            position(before + copied + open + inner + close + last),
        ),
        breaks(before + copied + open + inner + close) < u32::MAX - 1,
        breaks(before + copied + open + inner) < u32::MAX - 1,
{
    let at = before + copied;
    let opened = at + open;
    let closed = opened + inner;
    let whole = closed + close;
    lemma_position_grows(whole, last, whole + last);
    lemma_position_grows(closed, close, whole);
    lemma_position_grows(opened, inner, closed);
    lemma_position_grows(at, open, opened);
    lemma_position_grows(before, copied, at);
}

#[verifier::spinoff_prover]
#[verifier::rlimit(60)]
proof fn lemma_plotted(
    guards: Map<u32, Guard>,
    before: Seq<char>,
    text: Seq<char>,
    sites: Seq<Site>,
    from: int,
    to: int,
)
    requires
        weavable(text, sites, from, to),
        distinct(sites),
        breaks(before + woven(text, sites, from, to)) < u32::MAX - 1,
    ensures
        settled_between(
            plotted(guards, before, text, sites, from),
            sites,
            0,
            sites.len() as int,
            position(before),
            position(before + woven(text, sites, from, to)),
        ),
        elsewhere_unchanged(guards, plotted(guards, before, text, sites, from), sites),
    decreases sites.len(),
{
    if sites.len() > 0 {
        lemma_weavable_parts(text, sites, from, to);
        lemma_run_end(sites, 1);
        let k = together(sites);
        let m = within(sites);
        let head = sites[0];
        let group = sites.take(k);
        let inside = sites.subrange(k, m);
        let rest = sites.skip(m);
        let lead_in = slice(text, from, head.start);
        let open = openings(head.shape, group, k as nat);
        let inner = woven(text, inside, head.start, head.end);
        let close = super::ending(head.shape, group);
        let last = woven(text, rest, head.end, to);
        let at = before + lead_in;
        let opened = at + open;
        let closed = opened + inner;
        let whole = closed + close;
        let end = whole + last;
        let nested = plotted(guards, opened, text, inside, head.start);
        let own = with_guards(nested, at, whole, head.shape, group, group.len());
        let all = plotted(own, whole, text, rest, head.end);
        assert(before + woven(text, sites, from, to) =~= end);
        assert(all == plotted(guards, before, text, sites, from));
        lemma_parts_in_order(before, lead_in, open, inner, close, last);
        lemma_distinct_parts(sites, k, m);
        lemma_plotted(guards, opened, text, inside, head.start, head.end);
        lemma_plotted(own, whole, text, rest, head.end, to);
        assert(elsewhere_unchanged(nested, own, group)) by {
            assert forall|o: u32| #[trigger] absent(group, o) implies (own.dom().contains(o)
                <==> nested.dom().contains(o)) && own[o] == nested[o] by {
                lemma_with_guards_elsewhere(nested, at, whole, head.shape, group, group.len(), o);
            }
        }
        assert(whole =~= at + openings(head.shape, group, group.len()) + (inner + close));
        assert forall|i: int, j: int| 0 <= i < group.len() && 0 <= j < group.len() implies shares(
            #[trigger] group[i],
            #[trigger] group[j],
        ) by {
            assert(i > 0 ==> shares(sites[0], sites[i]));
            assert(j > 0 ==> shares(sites[0], sites[j]));
        }
        lemma_settled_group(nested, at, whole, inner + close, head.shape, group);
        assert forall|i: int| 0 <= i < k implies (own[(#[trigger] sites[i]).ordinal].mutated matches Some(
            range,
        ) ==> no_later(range.end, position(opened))) by {
            assert(group[i] == sites[i]);
        }
        assert forall|i: int| 0 <= i < k implies own[(#[trigger] sites[i]).ordinal].site == (Range {
            start: position(at),
            end: position(whole),
        }) by {
            assert(group[i] == sites[i]);
        }
        assert forall|i: int, j: int| 0 <= i < m <= j < sites.len() implies (#[trigger] sites[j]).start >= (
        #[trigger] sites[i]).end by {
            assert(rest[j - m] == sites[j]);
            if i < k {
                assert(i > 0 ==> shares(sites[0], sites[i]));
            } else {
                assert(inside[i - k] == sites[i]);
            }
        }
        lemma_combined(
            guards,
            nested,
            own,
            all,
            sites,
            k,
            m,
            position(before),
            position(at),
            position(opened),
            position(closed),
            position(whole),
            position(end),
        );
    }
}

/// Parts of sites that share no ordinal share none.
proof fn lemma_distinct_parts(sites: Seq<Site>, k: int, m: int)
    requires
        0 <= k <= m <= sites.len(),
        distinct(sites),
    ensures
        distinct(sites.take(k)),
        distinct(sites.subrange(k, m)),
        distinct(sites.skip(m)),
{
    let inside = sites.subrange(k, m);
    let rest = sites.skip(m);
    assert forall|i: int, j: int| 0 <= i < j < inside.len() implies (#[trigger] inside[i]).ordinal != (
    #[trigger] inside[j]).ordinal by {
        assert(sites[i + k].ordinal != sites[j + k].ordinal);
    }
    assert forall|i: int, j: int| 0 <= i < j < rest.len() implies (#[trigger] rest[i]).ordinal != (
    #[trigger] rest[j]).ordinal by {
        assert(sites[i + m].ordinal != sites[j + m].ordinal);
    }
}

/// A compiler diagnostic names its cause: no two mutated branches overlap, and a guard nested in
/// another site lies in that site, outside its mutated branch.
///
/// Every mutant that can be spliced has its guard reported, and its mutated branch lies in its
/// site. Lines are counted in thirty-two bits, so the output has to be one whose lines fit.
pub proof fn law_a_mutated_branch_names_its_mutant(text: Seq<char>, mutants: Seq<Site>)
    requires
        !ambiguous(text, mutants),
        distinct(plan(text, mutants)),
        breaks(woven(text, plan(text, mutants), 0, byte_len(text))) < u32::MAX - 1,
    ensures
        ({
            let sites = plan(text, mutants);
            let guards = plotted(Map::empty(), Seq::empty(), text, sites, 0);
            &&& forall|i: int|
                0 <= i < sites.len() ==> guards.dom().contains((#[trigger] sites[i]).ordinal) && holds_its_branch(
                    guards[sites[i].ordinal],
                )
            &&& forall|i: int, j: int|
                0 <= i < j < sites.len() ==> branches_apart(guards, #[trigger] sites[i], #[trigger] sites[j])
            &&& forall|i: int, j: int|
                0 <= i < j < sites.len() && sites[j].start < sites[i].end && !shares(sites[i], sites[j])
                    ==> encloses_plainly(guards, #[trigger] sites[i], #[trigger] sites[j])
        }),
{
    lemma_plan_is_weavable(text, mutants);
    let sites = plan(text, mutants);
    let out = woven(text, sites, 0, byte_len(text));
    assert(Seq::<char>::empty() + out =~= out);
    lemma_plotted(Map::empty(), Seq::empty(), text, sites, 0, byte_len(text));
}

// ---- Which guards are reported, and where they stand. ----

/// Whether one of `sites` has the ordinal `o`.
pub open spec fn present(sites: Seq<Site>, o: u32) -> bool {
    exists|i: int| 0 <= i < sites.len() && (#[trigger] sites[i]).ordinal == o
}

proof fn lemma_with_guards_keys(
    guards: Map<u32, Guard>,
    before: Seq<char>,
    whole: Seq<char>,
    shape: Shape,
    mutants: Seq<Site>,
    n: nat,
    o: u32,
)
    requires
        n <= mutants.len(),
    ensures
        with_guards(guards, before, whole, shape, mutants, n).dom().contains(o) <==> guards.dom().contains(o) || present(
            mutants.take(n as int),
            o,
        ),
    decreases n,
{
    if n > 0 {
        lemma_with_guards_keys(guards, before, whole, shape, mutants, (n - 1) as nat, o);
        let less = mutants.take(n - 1);
        let more = mutants.take(n as int);
        if present(less, o) {
            let i = choose|i: int| 0 <= i < less.len() && (#[trigger] less[i]).ordinal == o;
            assert(more[i].ordinal == o);
        }
        if present(more, o) && mutants[n - 1].ordinal != o {
            let i = choose|i: int| 0 <= i < more.len() && (#[trigger] more[i]).ordinal == o;
            assert(less[i].ordinal == o);
        }
        if mutants[n - 1].ordinal == o {
            assert(more[n - 1].ordinal == o);
        }
    }
}

proof fn lemma_plotted_keys(guards: Map<u32, Guard>, before: Seq<char>, text: Seq<char>, sites: Seq<Site>, from: int, o: u32)
    ensures
        plotted(guards, before, text, sites, from).dom().contains(o) <==> guards.dom().contains(o) || present(sites, o),
    decreases sites.len(),
{
    if sites.len() > 0 {
        lemma_run_end(sites, 1);
        lemma_reach_end(sites, together(sites));
        let k = together(sites);
        let m = within(sites);
        let head = sites[0];
        let group = sites.take(k);
        let inside = sites.subrange(k, m);
        let rest = sites.skip(m);
        let at = before + slice(text, from, head.start);
        let opened = at + openings(head.shape, group, k as nat);
        let whole = opened + woven(text, inside, head.start, head.end) + super::ending(head.shape, group);
        let nested = plotted(guards, opened, text, inside, head.start);
        let own = with_guards(nested, at, whole, head.shape, group, group.len());
        lemma_plotted_keys(guards, opened, text, inside, head.start, o);
        lemma_with_guards_keys(nested, at, whole, head.shape, group, group.len(), o);
        assert(group.take(group.len() as int) =~= group);
        lemma_plotted_keys(own, whole, text, rest, head.end, o);
        if present(group, o) {
            let i = choose|i: int| 0 <= i < group.len() && (#[trigger] group[i]).ordinal == o;
            assert(sites[i].ordinal == o);
        }
        if present(inside, o) {
            let i = choose|i: int| 0 <= i < inside.len() && (#[trigger] inside[i]).ordinal == o;
            assert(sites[i + k].ordinal == o);
        }
        if present(rest, o) {
            let i = choose|i: int| 0 <= i < rest.len() && (#[trigger] rest[i]).ordinal == o;
            assert(sites[i + m].ordinal == o);
        }
        if present(sites, o) {
            let i = choose|i: int| 0 <= i < sites.len() && (#[trigger] sites[i]).ordinal == o;
            if i < k {
                assert(group[i].ordinal == o);
            } else if i < m {
                assert(inside[i - k].ordinal == o);
            } else {
                assert(rest[i - m].ordinal == o);
            }
        }
    }
}

/// A guard is reported for the ordinals of the mutants that can be spliced, and for no others.
pub proof fn law_guards_are_those_of_the_spliced_mutants(text: Seq<char>, mutants: Seq<Site>, o: u32)
    ensures
        plotted(Map::empty(), Seq::empty(), text, plan(text, mutants), 0).dom().contains(o) <==> exists|i: int|
            0 <= i < mutants.len() && spliceable(text, #[trigger] mutants[i]) && mutants[i].ordinal == o,
{
    let sites = plan(text, mutants);
    lemma_plan(text, mutants);
    lemma_plotted_keys(Map::empty(), Seq::empty(), text, sites, 0, o);
    if present(sites, o) {
        let i = choose|i: int| 0 <= i < sites.len() && (#[trigger] sites[i]).ordinal == o;
        assert(sites.contains(sites[i]));
        let j = choose|j: int| 0 <= j < mutants.len() && mutants[j] == sites[i];
        assert(spliceable(text, mutants[j]) && mutants[j].ordinal == o);
    }
    if exists|i: int| 0 <= i < mutants.len() && spliceable(text, #[trigger] mutants[i]) && mutants[i].ordinal == o {
        let i = choose|i: int| 0 <= i < mutants.len() && spliceable(text, #[trigger] mutants[i]) && mutants[i].ordinal == o;
        assert(mutants.contains(mutants[i]));
        let j = choose|j: int| 0 <= j < sites.len() && sites[j] == mutants[i];
        assert(sites[j].ordinal == o);
    }
}

/// Whether a text holds another one at `at`.
pub open spec fn reads_at(text: Seq<char>, part: Seq<char>, at: int) -> bool {
    0 <= at && at + part.len() <= text.len() && text.subrange(at, at + part.len()) == part
}

/// Whether a guard's site runs from `from` up to `to` in the output, and its mutant is asked for at `at`
/// in it.
pub open spec fn guarded_at(out: Seq<char>, guard: Guard, ordinal: u32, from: int, at: int, to: int) -> bool {
    &&& 0 <= from <= at
    &&& at + guard_call(ordinal).len() <= to
    &&& to <= out.len()
    &&& guard.site == (Range { start: position(out.take(from)), end: position(out.take(to)) })
    &&& reads_at(out, guard_call(ordinal), at)
}

/// Whether a guard's site in the output holds the call that asks for its mutant.
pub open spec fn is_guarded(out: Seq<char>, guard: Guard, ordinal: u32) -> bool {
    exists|from: int, at: int, to: int| guarded_at(out, guard, ordinal, from, at, to)
}

/// What follows a guard does not change what it is.
proof fn lemma_guarded_before_more(out: Seq<char>, more: Seq<char>, guard: Guard, ordinal: u32)
    requires
        is_guarded(out, guard, ordinal),
    ensures
        is_guarded(out + more, guard, ordinal),
{
    let (from, at, to) = choose|from: int, at: int, to: int| guarded_at(out, guard, ordinal, from, at, to);
    let longer = out + more;
    let call = guard_call(ordinal);
    assert(longer.take(from) =~= out.take(from));
    assert(longer.take(to) =~= out.take(to));
    assert(longer.subrange(at, at + call.len()) =~= out.subrange(at, at + call.len()));
    assert(guarded_at(longer, guard, ordinal, from, at, to));
}

/// A part of a part of a text is a part of it.
proof fn lemma_reads_within(before: Seq<char>, inner: Seq<char>, after: Seq<char>, part: Seq<char>, at: int)
    requires
        reads_at(inner, part, at),
    ensures
        reads_at(before + inner + after, part, before.len() + at),
{
    let whole = before + inner + after;
    let from = before.len() + at;
    assert(whole.subrange(from, from + part.len()) =~= inner.subrange(at, at + part.len()));
}

/// What one mutant writes ahead of the original asks whether it is the active one.
proof fn lemma_lead_calls(shape: Shape, ordinal: u32) -> (at: int)
    requires
        shape != Shape::Arm,
    ensures
        reads_at(lead(shape, ordinal), guard_call(ordinal), at),
{
    let call = guard_call(ordinal);
    let first = match shape {
        Shape::Expr => "(if "@,
        Shape::Stmt => "if !"@,
        _ => "{ if "@,
    };
    let last = match shape {
        Shape::IterBlock => " { "@ + EITHER_PATH@ + "::L("@,
        _ => " { "@,
    };
    assert(lead(shape, ordinal) =~= first + call + last);
    assert(call.subrange(0, call.len() as int) =~= call);
    lemma_reads_within(first, call, last, call, 0);
    first.len() as int
}

/// What the mutants of a site write ahead of the original asks for each of them.
proof fn lemma_openings_call(shape: Shape, mutants: Seq<Site>, n: nat, i: int) -> (at: int)
    requires
        shape != Shape::Arm,
        0 <= i < n <= mutants.len(),
    ensures
        reads_at(openings(shape, mutants, n), guard_call(mutants[i].ordinal), at),
    decreases n,
{
    let less = openings(shape, mutants, (n - 1) as nat);
    let last = mutants[n - 1];
    let own = lead(shape, last.ordinal);
    let more = written(shape, last.replacement) + turn(shape);
    let call = guard_call(mutants[i].ordinal);
    if i < n - 1 {
        let at = lemma_openings_call(shape, mutants, (n - 1) as nat, i);
        lemma_reads_within(Seq::empty(), less, own + more, call, at);
        assert(Seq::<char>::empty() + less + (own + more) =~= openings(shape, mutants, n));
        at
    } else {
        let at = lemma_lead_calls(shape, last.ordinal);
        lemma_reads_within(less, own, more, call, at);
        assert(less + own + more =~= openings(shape, mutants, n));
        less.len() + at
    }
}

/// What trails an arm's pattern asks for each of its mutants.
proof fn lemma_trailing_call(mutants: Seq<Site>, n: nat, i: int) -> (at: int)
    requires
        0 <= i < n <= mutants.len(),
    ensures
        reads_at(trailing(mutants, n), guard_call(mutants[i].ordinal), at),
    decreases n,
{
    let less = trailing(mutants, (n - 1) as nat);
    let joint = if n == 1 {
        " if !"@
    } else {
        " && !"@
    };
    let call = guard_call(mutants[n - 1].ordinal);
    let sought = guard_call(mutants[i].ordinal);
    if i < n - 1 {
        let at = lemma_trailing_call(mutants, (n - 1) as nat, i);
        lemma_reads_within(Seq::empty(), less, joint + call, sought, at);
        assert(Seq::<char>::empty() + less + (joint + call) =~= trailing(mutants, n));
        at
    } else {
        assert(call.subrange(0, call.len() as int) =~= call);
        lemma_reads_within(less + joint, call, Seq::empty(), sought, 0);
        assert(less + joint + call + Seq::<char>::empty() =~= trailing(mutants, n));
        (less + joint).len() as int
    }
}

/// What is written for a site asks for each of its mutants.
proof fn lemma_group_calls(before: Seq<char>, inner: Seq<char>, shape: Shape, mutants: Seq<Site>, i: int)
    requires
        0 <= i < mutants.len(),
    ensures
        ({
            let whole = before + openings(shape, mutants, mutants.len()) + inner + super::ending(shape, mutants);
            is_guarded(whole, guard_of(before, whole, shape, mutants, i), mutants[i].ordinal)
        }),
{
    let open = openings(shape, mutants, mutants.len());
    let close = super::ending(shape, mutants);
    let whole = before + open + inner + close;
    let call = guard_call(mutants[i].ordinal);
    let ordinal = mutants[i].ordinal;
    let at = if shape == Shape::Arm {
        let trail = trailing(mutants, mutants.len());
        let at = lemma_trailing_call(mutants, mutants.len(), i);
        let front = before + open + inner;
        lemma_reads_within(front, trail, closings(shape, mutants.len()), call, at);
        assert(front + trail + closings(shape, mutants.len()) =~= whole);
        front.len() + at
    } else {
        let at = lemma_openings_call(shape, mutants, mutants.len(), i);
        lemma_reads_within(before, open, inner + close, call, at);
        assert(before + open + (inner + close) =~= whole);
        before.len() + at
    };
    assert(whole.take(before.len() as int) =~= before);
    assert(whole.take(whole.len() as int) =~= whole);
    let guard = guard_of(before, whole, shape, mutants, i);
    assert(guarded_at(whole, guard, ordinal, before.len() as int, at, whole.len() as int));
}

#[verifier::spinoff_prover]
#[verifier::rlimit(60)]
proof fn lemma_guarded(guards: Map<u32, Guard>, before: Seq<char>, text: Seq<char>, sites: Seq<Site>, from: int, to: int)
    requires
        distinct(sites),
    ensures
        forall|i: int|
            0 <= i < sites.len() ==> is_guarded(
                before + woven(text, sites, from, to),
                plotted(guards, before, text, sites, from)[(#[trigger] sites[i]).ordinal],
                sites[i].ordinal,
            ),
        elsewhere_unchanged(guards, plotted(guards, before, text, sites, from), sites),
    decreases sites.len(),
{
    if sites.len() > 0 {
        lemma_run_end(sites, 1);
        lemma_reach_end(sites, together(sites));
        let k = together(sites);
        let m = within(sites);
        let head = sites[0];
        let group = sites.take(k);
        let inside = sites.subrange(k, m);
        let rest = sites.skip(m);
        let at = before + slice(text, from, head.start);
        let open = openings(head.shape, group, k as nat);
        let opened = at + open;
        let inner = woven(text, inside, head.start, head.end);
        let close = super::ending(head.shape, group);
        let whole = opened + inner + close;
        let last = woven(text, rest, head.end, to);
        let out = before + woven(text, sites, from, to);
        let nested = plotted(guards, opened, text, inside, head.start);
        let own = with_guards(nested, at, whole, head.shape, group, group.len());
        let all = plotted(own, whole, text, rest, head.end);
        assert(out =~= whole + last);
        assert(out =~= opened + inner + (close + last));
        lemma_distinct_parts(sites, k, m);
        lemma_guarded(guards, opened, text, inside, head.start, head.end);
        lemma_guarded(own, whole, text, rest, head.end, to);
        assert(elsewhere_unchanged(nested, own, group)) by {
            assert forall|o: u32| #[trigger] absent(group, o) implies (own.dom().contains(o)
                <==> nested.dom().contains(o)) && own[o] == nested[o] by {
                lemma_with_guards_elsewhere(nested, at, whole, head.shape, group, group.len(), o);
            }
        }
        lemma_elsewhere_unchanged(guards, nested, own, all, sites, k, m);
        assert forall|i: int| 0 <= i < sites.len() implies is_guarded(out, all[(#[trigger] sites[i]).ordinal], sites[i].ordinal) by {
            let o = sites[i].ordinal;
            if i < k {
                assert(group[i] == sites[i]);
                lemma_with_guards_own(nested, at, whole, head.shape, group, group.len(), i);
                lemma_group_calls(at, inner, head.shape, group, i);
                lemma_guarded_before_more(whole, last, all[o], o);
            } else if i < m {
                assert(inside[i - k] == sites[i]);
                lemma_guarded_before_more(opened + inner, close + last, all[o], o);
            } else {
                assert(rest[i - m] == sites[i]);
            }
        }
    }
}

/// Putting a site in its place adds its ordinal and no other.
proof fn lemma_placed_distinct(sites: Seq<Site>, site: Site)
    requires
        distinct(sites),
        absent(sites, site.ordinal),
    ensures
        distinct(super::placed(sites, site)),
        forall|o: u32| #[trigger] absent(super::placed(sites, site), o) <==> absent(sites, o) && o != site.ordinal,
    decreases sites.len(),
{
    if sites.len() > 0 && precedes(site, sites.last()) {
        let front = sites.drop_last();
        let last = sites.last();
        assert forall|i: int| 0 <= i < front.len() implies (#[trigger] front[i]).ordinal != site.ordinal by {
            assert(sites[i].ordinal != site.ordinal);
        }
        assert forall|i: int, j: int| 0 <= i < j < front.len() implies (#[trigger] front[i]).ordinal != (#[trigger] front[j]).ordinal by {
            assert(sites[i].ordinal != sites[j].ordinal);
        }
        lemma_placed_distinct(front, site);
        assert(absent(front, last.ordinal)) by {
            assert forall|i: int| 0 <= i < front.len() implies (#[trigger] front[i]).ordinal != last.ordinal by {
                assert(sites[i].ordinal != sites[sites.len() - 1].ordinal);
            }
        }
        assert(last.ordinal != site.ordinal) by {
            assert(sites[sites.len() - 1].ordinal != site.ordinal);
        }
        let shorter = super::placed(front, site);
        assert(absent(shorter, last.ordinal));
        lemma_pushed_absent(shorter, last);
        assert(sites =~= front.push(last));
        lemma_pushed_absent(front, last);
    } else {
        lemma_pushed_absent(sites, site);
    }
}

/// What a sequence holds once one more is added to it.
proof fn lemma_pushed_absent(sites: Seq<Site>, site: Site)
    ensures
        forall|o: u32| #[trigger] absent(sites.push(site), o) <==> absent(sites, o) && o != site.ordinal,
        distinct(sites) && absent(sites, site.ordinal) ==> distinct(sites.push(site)),
{
    let all = sites.push(site);
    assert forall|o: u32| #[trigger] absent(all, o) <==> absent(sites, o) && o != site.ordinal by {
        if absent(all, o) {
            assert(all[sites.len() as int].ordinal != o);
            assert forall|i: int| 0 <= i < sites.len() implies (#[trigger] sites[i]).ordinal != o by {
                assert(all[i].ordinal != o);
            }
        }
    }
}

/// Mutants that share no ordinal still share none once they are in order.
proof fn lemma_plan_distinct(text: Seq<char>, mutants: Seq<Site>)
    requires
        distinct(mutants),
    ensures
        distinct(plan(text, mutants)),
        forall|o: u32| absent(mutants, o) ==> #[trigger] absent(plan(text, mutants), o),
    decreases mutants.len(),
{
    if mutants.len() > 0 {
        let front = mutants.drop_last();
        let last = mutants.last();
        assert forall|i: int, j: int| 0 <= i < j < front.len() implies (#[trigger] front[i]).ordinal != (#[trigger] front[j]).ordinal by {
            assert(mutants[i].ordinal != mutants[j].ordinal);
        }
        lemma_plan_distinct(text, front);
        assert(mutants =~= front.push(last));
        lemma_pushed_absent(front, last);
        assert forall|i: int| 0 <= i < front.len() implies (#[trigger] front[i]).ordinal != last.ordinal by {
            assert(mutants[i].ordinal != mutants[mutants.len() - 1].ordinal);
        }
        assert(absent(front, last.ordinal));
        assert(absent(plan(text, front), last.ordinal));
        lemma_placed_distinct(plan(text, front), last);
    }
}

/// Every mutant that can be spliced has its guard reported where it is: the part of the output that the
/// guard's site covers holds the call that asks for that mutant.
pub proof fn law_a_guard_stands_where_it_is_reported(text: Seq<char>, mutants: Seq<Site>, i: int)
    requires
        distinct(mutants),
        0 <= i < mutants.len(),
        spliceable(text, mutants[i]),
    ensures
        ({
            let out = woven(text, plan(text, mutants), 0, byte_len(text));
            let guards = plotted(Map::empty(), Seq::empty(), text, plan(text, mutants), 0);
            guards.dom().contains(mutants[i].ordinal) && is_guarded(out, guards[mutants[i].ordinal], mutants[i].ordinal)
        }),
{
    let sites = plan(text, mutants);
    let out = woven(text, sites, 0, byte_len(text));
    lemma_plan(text, mutants);
    lemma_plan_distinct(text, mutants);
    lemma_guarded(Map::empty(), Seq::empty(), text, sites, 0, byte_len(text));
    assert(Seq::<char>::empty() + out =~= out);
    assert(mutants.contains(mutants[i]));
    let j = choose|j: int| 0 <= j < sites.len() && sites[j] == mutants[i];
    assert(sites[j].ordinal == mutants[i].ordinal);
    law_guards_are_those_of_the_spliced_mutants(text, mutants, mutants[i].ordinal);
}

// ---- The order in which mutants are given. ----

/// A sequence in order, in which no ordinal occurs twice, begins with the site that precedes all others.
proof fn lemma_ordered_first(sites: Seq<Site>, i: int)
    requires
        ordered(sites),
        distinct(sites),
        0 < i < sites.len(),
    ensures
        precedes(sites[0], sites[i]),
{
    assert(!precedes(sites[i], sites[0]));
    assert(sites[0].ordinal != sites[i].ordinal);
}

/// Two sequences in order that hold the same sites, with no ordinal twice, are the same.
proof fn lemma_ordered_once(left: Seq<Site>, right: Seq<Site>)
    requires
        ordered(left),
        ordered(right),
        distinct(left),
        distinct(right),
        forall|site: Site| left.contains(site) <==> right.contains(site),
    ensures
        left == right,
    decreases left.len(),
{
    if left.len() == 0 {
        if right.len() > 0 {
            assert(right.contains(right[0]));
        }
        assert(left =~= right);
    } else {
        assert(left.contains(left[0]));
        assert(right.len() > 0);
        assert(right.contains(right[0]));
        let i = choose|i: int| 0 <= i < left.len() && left[i] == right[0];
        let j = choose|j: int| 0 <= j < right.len() && right[j] == left[0];
        if i > 0 && j > 0 {
            lemma_ordered_first(left, i);
            lemma_ordered_first(right, j);
        }
        assert(left[0] == right[0]);
        let fewer = left.drop_first();
        let less = right.drop_first();
        lemma_ordered_rest(left);
        lemma_ordered_rest(right);
        assert forall|site: Site| fewer.contains(site) <==> less.contains(site) by {
            lemma_rest_holds(left, site);
            lemma_rest_holds(right, site);
        }
        lemma_ordered_once(fewer, less);
        assert(left =~= seq![left[0]] + fewer);
        assert(right =~= seq![right[0]] + less);
    }
}

proof fn lemma_ordered_rest(sites: Seq<Site>)
    requires
        ordered(sites),
        distinct(sites),
        sites.len() > 0,
    ensures
        ordered(sites.drop_first()),
        distinct(sites.drop_first()),
{
    let rest = sites.drop_first();
    assert forall|i: int, j: int| 0 <= i < j < rest.len() implies !precedes(#[trigger] rest[j], #[trigger] rest[i]) by {
        assert(!precedes(sites[j + 1], sites[i + 1]));
    }
    assert forall|i: int, j: int| 0 <= i < j < rest.len() implies (#[trigger] rest[i]).ordinal != (#[trigger] rest[j]).ordinal by {
        assert(sites[i + 1].ordinal != sites[j + 1].ordinal);
    }
}

proof fn lemma_rest_holds(sites: Seq<Site>, site: Site)
    requires
        distinct(sites),
        sites.len() > 0,
    ensures
        sites.drop_first().contains(site) <==> sites.contains(site) && site != sites[0],
{
    let rest = sites.drop_first();
    if rest.contains(site) {
        let i = choose|i: int| 0 <= i < rest.len() && rest[i] == site;
        assert(sites[i + 1] == site);
        assert(sites[0].ordinal != sites[i + 1].ordinal);
    }
    if sites.contains(site) && site != sites[0] {
        let i = choose|i: int| 0 <= i < sites.len() && sites[i] == site;
        assert(rest[i - 1] == site);
    }
}

/// Whether two sequences hold the same mutants, in whatever order.
pub open spec fn same_mutants(left: Seq<Site>, right: Seq<Site>) -> bool {
    left.to_multiset() == right.to_multiset()
}

/// The order in which mutants are given does not matter, where no two share an ordinal: they are spliced
/// in the same order, so that the same text comes out with the same guards, or the same two are
/// refused for overlapping.
pub proof fn law_the_order_of_mutants_does_not_matter(text: Seq<char>, mutants: Seq<Site>, shuffled: Seq<Site>)
    requires
        distinct(mutants),
        same_mutants(mutants, shuffled),
    ensures
        plan(text, mutants) == plan(text, shuffled),
        ambiguous(text, mutants) <==> ambiguous(text, shuffled),
        woven(text, plan(text, mutants), 0, byte_len(text)) == woven(text, plan(text, shuffled), 0, byte_len(text)),
        plotted(Map::empty(), Seq::empty(), text, plan(text, mutants), 0) == plotted(
            Map::empty(),
            Seq::empty(),
            text,
            plan(text, shuffled),
            0,
        ),
        forall|message: Seq<char>| says_overlap(message, plan(text, mutants)) <==> #[trigger] says_overlap(
            message,
            plan(text, shuffled),
        ),
{
    broadcast use vstd::seq_lib::group_to_multiset_ensures;

    lemma_shuffled_distinct(mutants, shuffled);
    lemma_plan(text, mutants);
    lemma_plan(text, shuffled);
    lemma_plan_distinct(text, mutants);
    lemma_plan_distinct(text, shuffled);
    let left = plan(text, mutants);
    let right = plan(text, shuffled);
    assert forall|site: Site| left.contains(site) <==> right.contains(site) by {
        assert(mutants.contains(site) <==> mutants.to_multiset().count(site) > 0);
        assert(shuffled.contains(site) <==> shuffled.to_multiset().count(site) > 0);
    }
    lemma_ordered_once(left, right);
    lemma_ambiguous(text, mutants);
    lemma_ambiguous(text, shuffled);
}

/// Shuffling mutants makes no two of them share an ordinal.
proof fn lemma_shuffled_distinct(mutants: Seq<Site>, shuffled: Seq<Site>)
    requires
        distinct(mutants),
        same_mutants(mutants, shuffled),
    ensures
        distinct(shuffled),
{
    broadcast use vstd::seq_lib::group_to_multiset_ensures;

    assert(mutants.no_duplicates()) by {
        assert forall|i: int, j: int| 0 <= i < mutants.len() && 0 <= j < mutants.len() && i != j implies mutants[i] != mutants[j] by {
            if i < j {
                assert(mutants[i].ordinal != mutants[j].ordinal);
            } else {
                assert(mutants[j].ordinal != mutants[i].ordinal);
            }
        }
    }
    mutants.lemma_multiset_has_no_duplicates();
    shuffled.lemma_multiset_has_no_duplicates_conv();
    assert forall|i: int, j: int| 0 <= i < j < shuffled.len() implies (#[trigger] shuffled[i]).ordinal != (#[trigger] shuffled[j]).ordinal by {
        assert(shuffled.contains(shuffled[i]) && shuffled.contains(shuffled[j]));
        assert(mutants.to_multiset().count(shuffled[i]) > 0 && mutants.to_multiset().count(shuffled[j]) > 0);
        assert(mutants.contains(shuffled[i]) && mutants.contains(shuffled[j]));
        let a = choose|a: int| 0 <= a < mutants.len() && mutants[a] == shuffled[i];
        let b = choose|b: int| 0 <= b < mutants.len() && mutants[b] == shuffled[j];
        assert(shuffled[i] != shuffled[j]);
        if a < b {
            assert(mutants[a].ordinal != mutants[b].ordinal);
        } else {
            assert(mutants[b].ordinal != mutants[a].ordinal);
        }
    }
}

// ---- What exactly a guard reports. ----

/// Whether a text ends with another.
pub open spec fn ends_with(text: Seq<char>, part: Seq<char>) -> bool {
    part.len() <= text.len() && text.skip(text.len() - part.len()) == part
}

/// What is written right in front of a mutant's replacement.
pub open spec fn announces(site: Site) -> Seq<char> {
    if site.shape == Shape::IterBlock {
        asks(site.ordinal) + " { ::gamma_rt::Either::L("@
    } else {
        asks(site.ordinal) + " { "@
    }
}

/// What is written right behind a mutant's replacement.
pub open spec fn follows(site: Site) -> Seq<char> {
    match site.shape {
        Shape::Expr | Shape::Block => " } else { "@,
        Shape::IterBlock => ") } else { ::gamma_rt::Either::R("@,
        _ => "; } "@,
    }
}

/// Whether a guard's mutated branch runs from `from` up to `to` in the output: there stands the
/// replacement, behind the question for it and in front of the original.
pub open spec fn mutated_at(out: Seq<char>, range: Range<Position>, site: Site, from: int, to: int) -> bool {
    &&& 0 <= from <= to <= out.len()
    &&& range == (Range { start: position(out.take(from)), end: position(out.take(to)) })
    &&& out.subrange(from, to) == site.replacement
    &&& ends_with(out.take(from), announces(site))
    &&& reads_at(out, follows(site), to)
}

/// Whether a guard reports its mutated branch: that of a replacement that is written, and no other.
pub open spec fn reports_branch(out: Seq<char>, guard: Guard, site: Site) -> bool {
    if site.shape == Shape::Stmt || site.shape == Shape::Arm || site.replacement.len() == 0 {
        guard.mutated is None
    } else {
        guard.mutated matches Some(range) && exists|from: int, to: int| mutated_at(out, range, site, from, to)
    }
}

proof fn lemma_branch_before_more(out: Seq<char>, more: Seq<char>, guard: Guard, site: Site)
    requires
        reports_branch(out, guard, site),
    ensures
        reports_branch(out + more, guard, site),
{
    if !(site.shape == Shape::Stmt || site.shape == Shape::Arm || site.replacement.len() == 0) {
        let range = guard.mutated->0;
        let (from, to) = choose|from: int, to: int| mutated_at(out, range, site, from, to);
        let longer = out + more;
        let part = follows(site);
        assert(longer.take(from) =~= out.take(from));
        assert(longer.take(to) =~= out.take(to));
        assert(longer.subrange(from, to) =~= out.subrange(from, to));
        assert(longer.subrange(to, to + part.len()) =~= out.subrange(to, to + part.len()));
        assert(mutated_at(longer, range, site, from, to));
    }
}

proof fn lemma_lead_announces(site: Site)
    requires
        site.shape != Shape::Stmt,
        site.shape != Shape::Arm,
    ensures
        ends_with(lead(site.shape, site.ordinal), announces(site)),
        turn(site.shape) == follows(site),
{
    lemma_guard_call(site.ordinal);
    reveal_strlit(" { ");
    reveal_strlit("::gamma_rt::Either");
    reveal_strlit("::L(");
    reveal_strlit("::R(");
    reveal_strlit(") } else { ");
    reveal_strlit(" { ::gamma_rt::Either::L(");
    reveal_strlit(") } else { ::gamma_rt::Either::R(");
    assert(" { "@ + "::gamma_rt::Either"@ + "::L("@ =~= " { ::gamma_rt::Either::L("@);
    assert(") } else { "@ + "::gamma_rt::Either"@ + "::R("@ =~= ") } else { ::gamma_rt::Either::R("@);
    let first = match site.shape {
        Shape::Expr => "(if "@,
        _ => "{ if "@,
    };
    assert(lead(site.shape, site.ordinal) =~= first + announces(site));
    assert((first + announces(site)).skip(first.len() as int) =~= announces(site));
}

/// Each mutant of a site reports its own replacement.
proof fn lemma_group_branches(before: Seq<char>, more: Seq<char>, shape: Shape, mutants: Seq<Site>, i: int)
    requires
        0 <= i < mutants.len(),
        mutants[i].shape == shape,
    ensures
        ({
            let whole = before + openings(shape, mutants, mutants.len()) + more;
            reports_branch(whole, guard_of(before, whole, shape, mutants, i), mutants[i])
        }),
{
    let site = mutants[i];
    let whole = before + openings(shape, mutants, mutants.len()) + more;
    if !(shape == Shape::Stmt || shape == Shape::Arm || site.replacement.len() == 0) {
        let less = openings(shape, mutants, i as nat);
        let own = lead(shape, site.ordinal);
        let rest = lemma_openings_grow(shape, mutants, (i + 1) as nat, mutants.len());
        let front = before + less + own;
        let text = site.replacement;
        lemma_lead_announces(site);
        assert(openings(shape, mutants, (i + 1) as nat) == less + own + text + turn(shape));
        assert(whole =~= front + text + turn(shape) + (rest + more));
        let from = front.len() as int;
        let to = from + text.len();
        assert(whole.take(from) =~= front);
        assert(whole.take(to) =~= front + text);
        assert(whole.subrange(from, to) =~= text);
        assert(whole.subrange(to, to + turn(shape).len()) =~= turn(shape));
        let part = announces(site);
        assert(front.skip(front.len() - part.len()) =~= own.skip(own.len() - part.len()));
        let range = guard_of(before, whole, shape, mutants, i).mutated->0;
        assert(mutated_at(whole, range, site, from, to));
    }
}

#[verifier::spinoff_prover]
#[verifier::rlimit(60)]
proof fn lemma_branches(guards: Map<u32, Guard>, before: Seq<char>, text: Seq<char>, sites: Seq<Site>, from: int, to: int)
    requires
        distinct(sites),
    ensures
        forall|i: int|
            0 <= i < sites.len() ==> reports_branch(
                before + woven(text, sites, from, to),
                plotted(guards, before, text, sites, from)[(#[trigger] sites[i]).ordinal],
                sites[i],
            ),
    decreases sites.len(),
{
    if sites.len() > 0 {
        lemma_run_end(sites, 1);
        lemma_reach_end(sites, together(sites));
        let k = together(sites);
        let m = within(sites);
        let head = sites[0];
        let group = sites.take(k);
        let inside = sites.subrange(k, m);
        let rest = sites.skip(m);
        let at = before + slice(text, from, head.start);
        let open = openings(head.shape, group, k as nat);
        let opened = at + open;
        let inner = woven(text, inside, head.start, head.end);
        let close = super::ending(head.shape, group);
        let whole = opened + inner + close;
        let last = woven(text, rest, head.end, to);
        let out = before + woven(text, sites, from, to);
        let nested = plotted(guards, opened, text, inside, head.start);
        let own = with_guards(nested, at, whole, head.shape, group, group.len());
        let all = plotted(own, whole, text, rest, head.end);
        assert(out =~= whole + last);
        assert(out =~= opened + inner + (close + last));
        assert(whole =~= at + openings(head.shape, group, group.len()) + (inner + close));
        lemma_distinct_parts(sites, k, m);
        lemma_branches(guards, opened, text, inside, head.start, head.end);
        lemma_branches(own, whole, text, rest, head.end, to);
        lemma_guarded(guards, opened, text, inside, head.start, head.end);
        lemma_guarded(own, whole, text, rest, head.end, to);
        assert(elsewhere_unchanged(nested, own, group)) by {
            assert forall|o: u32| #[trigger] absent(group, o) implies (own.dom().contains(o)
                <==> nested.dom().contains(o)) && own[o] == nested[o] by {
                lemma_with_guards_elsewhere(nested, at, whole, head.shape, group, group.len(), o);
            }
        }
        lemma_elsewhere_unchanged(guards, nested, own, all, sites, k, m);
        assert forall|i: int| 0 <= i < sites.len() implies reports_branch(out, all[(#[trigger] sites[i]).ordinal], sites[i]) by {
            let o = sites[i].ordinal;
            if i < k {
                assert(group[i] == sites[i]);
                assert(i > 0 ==> shares(sites[0], sites[i]));
                lemma_with_guards_own(nested, at, whole, head.shape, group, group.len(), i);
                lemma_group_branches(at, inner + close, head.shape, group, i);
                lemma_branch_before_more(whole, last, all[o], sites[i]);
            } else if i < m {
                assert(inside[i - k] == sites[i]);
                lemma_branch_before_more(opened + inner, close + last, all[o], sites[i]);
            } else {
                assert(rest[i - m] == sites[i]);
            }
        }
    }
}

/// The mutated branch that is reported of a mutant is its replacement, where it is written behind the
/// question for that mutant. A deletion writes none, and reports none.
pub proof fn law_a_mutated_branch_is_the_replacement(text: Seq<char>, mutants: Seq<Site>, i: int)
    requires
        distinct(mutants),
        0 <= i < mutants.len(),
        spliceable(text, mutants[i]),
    ensures
        reports_branch(
            woven(text, plan(text, mutants), 0, byte_len(text)),
            plotted(Map::empty(), Seq::empty(), text, plan(text, mutants), 0)[mutants[i].ordinal],
            mutants[i],
        ),
{
    let sites = plan(text, mutants);
    let out = woven(text, sites, 0, byte_len(text));
    lemma_plan(text, mutants);
    lemma_plan_distinct(text, mutants);
    lemma_branches(Map::empty(), Seq::empty(), text, sites, 0, byte_len(text));
    assert(Seq::<char>::empty() + out =~= out);
    assert(mutants.contains(mutants[i]));
    let j = choose|j: int| 0 <= j < sites.len() && sites[j] == mutants[i];
    assert(sites[j].ordinal == mutants[i].ordinal);
}

/// A position counts lines and columns from one: a line break begins the next line, and any other
/// character is one more column.
pub proof fn law_positions_count_lines_and_columns(text: Seq<char>, c: char)
    requires
        text.len() < u32::MAX - 2,
    ensures
        position(Seq::empty()) == (Position { line: 1, column: 1 }),
        position(text.push('\n')) == (Position { line: (position(text).line + 1) as u32, column: 1 }),
        c != '\n' ==> position(text.push(c)) == (Position {
            line: position(text).line,
            column: (position(text).column + 1) as u32,
        }),
{
    lemma_breaks_bound(text);
    assert(text.push('\n').drop_last() =~= text);
    assert(text.push(c).drop_last() =~= text);
}

proof fn lemma_breaks_bound(text: Seq<char>)
    ensures
        breaks(text) <= text.len(),
        tail(text) <= text.len(),
    decreases text.len(),
{
    if text.len() > 0 {
        lemma_breaks_bound(text.drop_last());
    }
}

/// A mutant can be spliced where its span is some of the text: what is in front of it, what it replaces
/// and what is behind it make up the text, and it replaces something.
pub proof fn law_what_can_be_spliced_is_some_of_the_text(text: Seq<char>, front: Seq<char>, part: Seq<char>, back: Seq<char>, site: Site)
    requires
        text == front + part + back,
        part.len() > 0,
        site.start == byte_len(front),
        site.end == byte_len(front) + byte_len(part),
    ensures
        spliceable(text, site),
        slice(text, 0, site.start) == front,
        slice(text, site.start, site.end) == part,
        slice(text, site.end, byte_len(text)) == back,
{
    crate::text::lemma_slice_of_parts(front, part, back);
}

/// Nothing else can be spliced: of a mutant that can be, what is in front, what it replaces and what is
/// behind make up the text.
pub proof fn law_nothing_else_can_be_spliced(text: Seq<char>, site: Site)
    requires
        spliceable(text, site),
    ensures
        text == slice(text, 0, site.start) + slice(text, site.start, site.end) + slice(text, site.end, byte_len(text)),
        byte_len(slice(text, 0, site.start)) == site.start,
        byte_len(slice(text, site.start, site.end)) == site.end - site.start,
        slice(text, site.start, site.end).len() > 0,
{
    crate::text::lemma_slice_whole(text);
    crate::text::lemma_slice_join(text, 0, site.start, site.end);
    crate::text::lemma_slice_join(text, 0, site.end, byte_len(text));
    crate::text::lemma_slice_bytes(text, 0, site.start);
    crate::text::lemma_slice_bytes(text, site.start, site.end);
    let part = slice(text, site.start, site.end);
    if part.len() == 0 {
        assert(part =~= Seq::<char>::empty());
        assert(vstd::utf8::encode_utf8(part).len() == 0);
    }
}

/// Whether an offset lies in a site.
pub open spec fn covers(site: Site, at: int) -> bool {
    site.start <= at < site.end
}

/// Mutants are refused exactly where two of them share some of the text while each has some for itself.
pub proof fn law_mutants_are_refused_where_they_cross(left: Site, right: Site)
    requires
        left.start < left.end,
        right.start < right.end,
    ensures
        overlaps(left, right) <==> {
            &&& exists|at: int| covers(left, at) && covers(right, at)
            &&& exists|at: int| covers(left, at) && !covers(right, at)
            &&& exists|at: int| !covers(left, at) && covers(right, at)
        },
{
    if overlaps(left, right) {
        if left.start < right.start {
            assert(covers(left, right.start) && covers(right, right.start));
            assert(covers(left, left.start) && !covers(right, left.start));
            assert(!covers(left, left.end) && covers(right, left.end));
        } else {
            assert(covers(left, left.start) && covers(right, left.start));
            assert(covers(left, right.end) && !covers(right, right.end));
            assert(!covers(left, right.start) && covers(right, right.start));
        }
    }
}

/// The mutants that can be spliced are taken in the order of the text, the longer of two that begin
/// together first, and of several over the same text the one with the lowest ordinal.
pub proof fn law_mutants_are_taken_outermost_first(text: Seq<char>, mutants: Seq<Site>, i: int, j: int)
    requires
        0 <= i < j < plan(text, mutants).len(),
    ensures
        ({
            let (first, second) = (plan(text, mutants)[i], plan(text, mutants)[j]);
            &&& first.start <= second.start
            &&& first.start == second.start ==> first.end >= second.end
            &&& first.start == second.start && first.end == second.end ==> first.ordinal <= second.ordinal
        }),
        forall|site: Site|
            plan(text, mutants).contains(site) <==> #[trigger] mutants.contains(site) && spliceable(text, site),
{
    lemma_plan(text, mutants);
    assert(!precedes(plan(text, mutants)[j], plan(text, mutants)[i]));
}

/// What is said of two mutants that cross gives the offsets of both, in the order in which they begin.
pub proof fn law_crossing_mutants_are_named_by_their_offsets(left: Site, right: Site)
    requires
        0 <= left.start,
        0 <= left.end,
        0 <= right.start,
        0 <= right.end,
    ensures
        overlap_message(left, right) == "mutation sites "@ + decimal(left.start as nat) + ".."@ + decimal(left.end as nat) + " and "@
            + decimal(right.start as nat) + ".."@ + decimal(right.end as nat) + " overlap without nesting"@,
        forall|sites: Seq<Site>, i: int, j: int| ordered(sites) && #[trigger] is_first_overlap(sites, i, j) ==> sites[i].start
            < sites[j].start,
{
    assert forall|sites: Seq<Site>, i: int, j: int| ordered(sites) && #[trigger] is_first_overlap(sites, i, j) implies sites[i].start
        < sites[j].start by {
        assert(!precedes(sites[j], sites[i]));
    }
}

} // verus!
