//! What the encoding of mutants looks like, character by character.
use super::laws::{lemma_plan_is_weavable, lemma_weavable_parts, weavable};
use super::{
    closing, closings, ending, guard_call, lead, lemma_plan, lemma_reach_end, lemma_run_end, openings, overlaps, placed, plan, precedes,
    reach_end, run_end, shares, spliceable, together, trailing, turn, within, woven, written, Site,
};
use crate::ops::collect::Shape;
use crate::text;
use crate::text::{byte_len, decimal, is_cut, slice, sliceable};
use vstd::prelude::*;

verus! {

/// The text that encodes every one of the given mutants.
pub open spec fn encoded(text: Seq<char>, mutants: Seq<Site>) -> Seq<char> {
    woven(text, plan(text, mutants), 0, byte_len(text))
}

/// The question whether a mutant is the active one, as Rust is written.
pub open spec fn asks(ordinal: u32) -> Seq<char> {
    "::gamma_rt::a("@ + decimal(ordinal as nat) + "u32)"@
}

/// What a mutant makes of the text of its site.
///
/// An expression and a block become an `if` whose value is theirs, so it is the last thing in its
/// brackets, with nothing behind it. A jump is made before what would have been done, a statement is
/// done only where it is not deleted, and an arm is given a guard.
pub open spec fn guarded(site: Site, original: Seq<char>) -> Seq<char> {
    match site.shape {
        Shape::Expr => "(if "@ + asks(site.ordinal) + " { "@ + site.replacement + " } else { "@ + original + " })"@,
        Shape::Block => "{ if "@ + asks(site.ordinal) + " { "@ + site.replacement + " } else { "@ + original + " } }"@,
        Shape::IterBlock => "{ if "@ + asks(site.ordinal) + " { ::gamma_rt::Either::L("@ + site.replacement
            + ") } else { ::gamma_rt::Either::R("@ + original + ") } }"@,
        Shape::Continue => "{ if "@ + asks(site.ordinal) + " { "@ + site.replacement + "; } "@ + original + " }"@,
        Shape::Break => "{ if "@ + asks(site.ordinal) + " { "@ + site.replacement + "; } "@ + original + " }"@,
        Shape::Stmt => "if !"@ + asks(site.ordinal) + " { "@ + original + " }"@,
        Shape::Arm => original + " if !"@ + asks(site.ordinal),
    }
}

// ---- Literals. ----

pub(crate) proof fn lemma_guard_call(ordinal: u32)
    ensures
        guard_call(ordinal) == asks(ordinal),
{
    reveal_strlit("::gamma_rt::a");
    reveal_strlit("(");
    reveal_strlit("::gamma_rt::a(");
    assert("::gamma_rt::a"@ + "("@ =~= "::gamma_rt::a("@);
    assert(guard_call(ordinal) =~= asks(ordinal));
}

/// What the parts that are written around a site come to.
proof fn lemma_wrapped(site: Site, original: Seq<char>)
    requires
        site.shape != Shape::Arm,
    ensures
        lead(site.shape, site.ordinal) + written(site.shape, site.replacement) + turn(site.shape) + original + closing(site.shape)
            == guarded(site, original),
{
    lemma_guard_call(site.ordinal);
    reveal_strlit(" { ");
    reveal_strlit("::gamma_rt::Either");
    reveal_strlit("::L(");
    reveal_strlit("::R(");
    reveal_strlit(") } else { ");
    reveal_strlit(" { ::gamma_rt::Either::L(");
    reveal_strlit(") } else { ::gamma_rt::Either::R(");
    assert(" { "@ + "::gamma_rt::Either"@ + "::L("@ =~= " { ::gamma_rt::Either::L("@);
    assert(") } else { "@ + "::gamma_rt::Either"@ + "::R("@ =~= ") } else { ::gamma_rt::Either::R("@);
    assert(lead(site.shape, site.ordinal) + written(site.shape, site.replacement) + turn(site.shape) + original + closing(site.shape)
        =~= guarded(site, original));
}

// ---- Taking the outermost mutant off. ----

proof fn lemma_run_rest(sites: Seq<Site>, at: int)
    requires
        2 <= at <= sites.len(),
        shares(sites[0], sites[1]),
    ensures
        run_end(sites.skip(1), at - 1) == run_end(sites, at) - 1,
    decreases sites.len() - at,
{
    let rest = sites.skip(1);
    if at < sites.len() {
        assert(rest[at - 1] == sites[at]);
        assert(rest[0] == sites[1]);
        if shares(sites[0], sites[at]) {
            lemma_run_rest(sites, at + 1);
        }
    }
}

proof fn lemma_reach_rest(sites: Seq<Site>, at: int)
    requires
        1 <= at <= sites.len(),
        sites.len() > 1,
        sites[1].end == sites[0].end,
    ensures
        reach_end(sites.skip(1), at - 1) == reach_end(sites, at) - 1,
    decreases sites.len() - at,
{
    let rest = sites.skip(1);
    if at < sites.len() {
        assert(rest[at - 1] == sites[at]);
        assert(rest[0] == sites[1]);
        if sites[at].start < sites[0].end {
            lemma_reach_rest(sites, at + 1);
        }
    }
}

/// What the first of several mutants of one site writes comes first.
#[verifier::spinoff_prover]
#[verifier::rlimit(60)]
proof fn lemma_openings_first(shape: Shape, mutants: Seq<Site>, n: nat)
    requires
        1 <= n <= mutants.len(),
    ensures
        openings(shape, mutants, n) == lead(shape, mutants[0].ordinal) + written(shape, mutants[0].replacement) + turn(shape) + openings(
            shape,
            mutants.skip(1),
            (n - 1) as nat,
        ),
    decreases n,
{
    let first = lead(shape, mutants[0].ordinal) + written(shape, mutants[0].replacement) + turn(shape);
    let rest = mutants.skip(1);
    if n == 1 {
        assert(openings(shape, mutants, 0) =~= Seq::<char>::empty());
        assert(openings(shape, mutants, 1) =~= first + openings(shape, rest, 0));
    } else {
        lemma_openings_first(shape, mutants, (n - 1) as nat);
        let last = mutants[n - 1];
        assert(rest[n - 2] == last);
        let own = lead(shape, last.ordinal) + written(shape, last.replacement) + turn(shape);
        assert(openings(shape, mutants, n) =~= openings(shape, mutants, (n - 1) as nat) + own);
        assert(openings(shape, rest, (n - 1) as nat) =~= openings(shape, rest, (n - 2) as nat) + own);
        assert(openings(shape, mutants, n) =~= first + openings(shape, rest, (n - 1) as nat));
    }
}

/// Whether nothing else is guarded in the same way over the same arm.
pub open spec fn stands_apart(outer: Site, others: Seq<Site>) -> bool {
    outer.shape == Shape::Arm ==> forall|i: int|
        0 <= i < others.len() ==> !((#[trigger] others[i]).shape == Shape::Arm && others[i].start == outer.start && others[i].end == outer.end)
}

#[verifier::spinoff_prover]
#[verifier::rlimit(40)]
proof fn lemma_outermost(text: Seq<char>, sites: Seq<Site>, from: int, to: int)
    requires
        weavable(text, sites, from, to),
        sites.len() > 0,
        within(sites) == sites.len(),
        stands_apart(sites[0], sites.skip(1)),
    ensures
        woven(text, sites, from, to) == slice(text, from, sites[0].start) + guarded(
            sites[0],
            woven(text, sites.skip(1), sites[0].start, sites[0].end),
        ) + slice(text, sites[0].end, to),
        sliceable(text, from, sites[0].start),
        sliceable(text, sites[0].end, to),
{
    lemma_weavable_parts(text, sites, from, to);
    lemma_run_end(sites, 1);
    let head = sites[0];
    let k = together(sites);
    let group = sites.take(k);
    let rest = sites.skip(1);
    let inside = sites.subrange(k, sites.len() as int);
    let inner = woven(text, inside, head.start, head.end);
    let shape = head.shape;
    let none = Seq::<Site>::empty();
    assert(sites.skip(sites.len() as int) =~= none);
    assert(woven(text, none, head.end, to) == slice(text, head.end, to));
    lemma_guard_call(head.ordinal);
    reveal_with_fuel(closings, 2);
    if k == 1 {
        assert(inside =~= rest);
        assert(group[0] == head);
        lemma_openings_first(shape, group, 1);
        assert(openings(shape, group.skip(1), 0) =~= Seq::<char>::empty());
        if shape == Shape::Arm {
            reveal_with_fuel(trailing, 2);
            assert(openings(shape, group, 1) =~= Seq::<char>::empty());
            assert(ending(shape, group) =~= " if !"@ + asks(head.ordinal));
        } else {
            lemma_wrapped(head, inner);
            assert(ending(shape, group) =~= closing(shape));
            assert(openings(shape, group, 1) + inner + ending(shape, group) =~= guarded(head, inner));
        }
        assert(woven(text, sites, from, to) =~= slice(text, from, head.start) + guarded(head, inner) + slice(text, head.end, to));
    } else {
        assert(shares(sites[0], sites[1]));
        assert(rest[0] == sites[1]);
        assert(shape != Shape::Arm);
        lemma_run_rest(sites, 2);
        assert(run_end(sites, 1) == run_end(sites, 2));
        lemma_reach_rest(sites, k);
        assert(together(rest) == k - 1);
        assert(within(rest) == sites.len() - 1);
        let fewer = rest.take(k - 1);
        assert(fewer =~= group.skip(1));
        assert(rest.subrange(k - 1, sites.len() - 1) =~= inside);
        assert(rest.skip(sites.len() - 1) =~= none);
        assert(woven(text, none, head.end, head.end) == slice(text, head.end, head.end));
        lemma_openings_first(shape, group, k as nat);
        assert(spliceable(text, sites[0]));
        assert(sliceable(text, head.start, head.start) && sliceable(text, head.end, head.end));
        text::lemma_slice_bytes(text, head.start, head.start);
        text::lemma_slice_bytes(text, head.end, head.end);
        lemma_nothing(text, head.start);
        lemma_nothing(text, head.end);
        let original = openings(shape, fewer, (k - 1) as nat) + inner + closings(shape, (k - 1) as nat);
        assert(ending(shape, fewer) =~= closings(shape, (k - 1) as nat));
        assert(woven(text, rest, head.start, head.end) =~= original);
        assert(ending(shape, group) =~= closings(shape, (k - 1) as nat) + closing(shape));
        lemma_wrapped(head, original);
        assert(openings(shape, group, k as nat) + inner + ending(shape, group) =~= guarded(head, original));
        assert(woven(text, sites, from, to) =~= slice(text, from, head.start) + guarded(head, original) + slice(text, head.end, to));
    }
}

/// There is nothing between an offset and itself.
proof fn lemma_nothing(text: Seq<char>, at: int)
    requires
        sliceable(text, at, at),
    ensures
        slice(text, at, at) == Seq::<char>::empty(),
{
    text::lemma_slice_bytes(text, at, at);
    let part = slice(text, at, at);
    if part.len() > 0 {
        vstd::utf8::encode_utf8_first_scalar(part);
        assert(vstd::utf8::encode_utf8(part).len() == 0);
    }
    assert(part =~= Seq::<char>::empty());
}

// ---- Sites that stand side by side. ----

/// What stands in front of all sites is copied.
proof fn lemma_in_front(text: Seq<char>, sites: Seq<Site>, from: int, mid: int, to: int)
    requires
        weavable(text, sites, mid, to),
        sliceable(text, from, mid),
    ensures
        woven(text, sites, from, to) == slice(text, from, mid) + woven(text, sites, mid, to),
{
    if sites.len() == 0 {
        text::lemma_slice_join(text, from, mid, to);
    } else {
        lemma_weavable_parts(text, sites, mid, to);
        text::lemma_slice_join(text, from, mid, sites[0].start);
        assert(woven(text, sites, from, to) =~= slice(text, from, mid) + woven(text, sites, mid, to));
    }
}

/// What stands behind all sites is copied.
proof fn lemma_behind(text: Seq<char>, sites: Seq<Site>, from: int, mid: int, to: int)
    requires
        weavable(text, sites, from, mid),
        sliceable(text, mid, to),
    ensures
        woven(text, sites, from, to) == woven(text, sites, from, mid) + slice(text, mid, to),
    decreases sites.len(),
{
    if sites.len() == 0 {
        text::lemma_slice_join(text, from, mid, to);
    } else {
        lemma_weavable_parts(text, sites, from, mid);
        let rest = sites.skip(within(sites));
        lemma_behind(text, rest, sites[0].end, mid, to);
        assert(woven(text, sites, from, to) =~= woven(text, sites, from, mid) + slice(text, mid, to));
    }
}

proof fn lemma_run_beside(left: Seq<Site>, right: Seq<Site>, at: int)
    requires
        1 <= at <= left.len(),
        left[0].start < left[0].end,
        forall|j: int| 0 <= j < right.len() ==> left[0].end <= (#[trigger] right[j]).start,
    ensures
        run_end(left + right, at) == run_end(left, at),
    decreases left.len() - at,
{
    let all = left + right;
    if at < left.len() {
        assert(all[at] == left[at] && all[0] == left[0]);
        if shares(left[0], left[at]) {
            lemma_run_beside(left, right, at + 1);
        }
    } else if right.len() > 0 {
        assert(all[at] == right[0] && all[0] == left[0]);
    }
}

proof fn lemma_reach_beside(left: Seq<Site>, right: Seq<Site>, at: int)
    requires
        1 <= at <= left.len(),
        forall|j: int| 0 <= j < right.len() ==> left[0].end <= (#[trigger] right[j]).start,
    ensures
        reach_end(left + right, at) == reach_end(left, at),
    decreases left.len() - at,
{
    let all = left + right;
    if at < left.len() {
        assert(all[at] == left[at] && all[0] == left[0]);
        if left[at].start < left[0].end {
            lemma_reach_beside(left, right, at + 1);
        }
    } else if right.len() > 0 {
        assert(all[at] == right[0] && all[0] == left[0]);
    }
}

#[verifier::spinoff_prover]
#[verifier::rlimit(40)]
proof fn lemma_beside(text: Seq<char>, left: Seq<Site>, right: Seq<Site>, from: int, mid: int, to: int)
    requires
        weavable(text, left, from, mid),
        weavable(text, right, mid, to),
    ensures
        woven(text, left + right, from, to) == woven(text, left, from, mid) + woven(text, right, mid, to),
    decreases left.len(),
{
    let all = left + right;
    if left.len() == 0 {
        assert(all =~= right);
        lemma_in_front(text, right, from, mid, to);
    } else {
        let head = left[0];
        assert(all[0] == head);
        assert(spliceable(text, left[0]));
        lemma_weavable_parts(text, left, from, mid);
        lemma_run_end(left, 1);
        lemma_reach_end(left, together(left));
        assert forall|j: int| 0 <= j < right.len() implies head.end <= (#[trigger] right[j]).start by {
            assert(mid <= right[j].start);
        }
        lemma_run_beside(left, right, 1);
        lemma_reach_beside(left, right, together(left));
        let k = together(left);
        let m = within(left);
        assert(together(all) == k && within(all) == m);
        assert(all.take(k) =~= left.take(k));
        assert(all.subrange(k, m) =~= left.subrange(k, m));
        assert(all.skip(m) =~= left.skip(m) + right);
        lemma_beside(text, left.skip(m), right, head.end, mid, to);
        assert(woven(text, all, from, to) =~= woven(text, left, from, mid) + woven(text, right, mid, to));
    }
}

// ---- Plans. ----

/// A site that precedes all others is put in front of them.
proof fn lemma_placed_first(sites: Seq<Site>, site: Site)
    requires
        forall|i: int| 0 <= i < sites.len() ==> precedes(site, #[trigger] sites[i]),
    ensures
        placed(sites, site) == seq![site] + sites,
    decreases sites.len(),
{
    if sites.len() > 0 {
        assert(precedes(site, sites[sites.len() - 1]));
        assert forall|i: int| 0 <= i < sites.len() - 1 implies precedes(site, #[trigger] sites.drop_last()[i]) by {
            assert(precedes(site, sites[i]));
        }
        lemma_placed_first(sites.drop_last(), site);
        assert(placed(sites, site) =~= seq![site] + sites);
    } else {
        assert(placed(sites, site) =~= seq![site] + sites);
    }
}

/// A site that stands behind some others is put in its place among those behind them.
proof fn lemma_placed_behind(left: Seq<Site>, right: Seq<Site>, site: Site)
    requires
        forall|i: int| 0 <= i < left.len() ==> !precedes(site, #[trigger] left[i]),
    ensures
        placed(left + right, site) == left + placed(right, site),
    decreases right.len(),
{
    let all = left + right;
    if right.len() > 0 && precedes(site, right.last()) {
        assert(all.last() == right.last());
        assert(all.drop_last() =~= left + right.drop_last());
        lemma_placed_behind(left, right.drop_last(), site);
        assert(placed(all, site) =~= left + placed(right, site));
    } else {
        if right.len() == 0 {
            assert(all =~= left);
            if left.len() > 0 {
                assert(!precedes(site, left[left.len() - 1]));
            }
        } else {
            assert(all.last() == right.last());
        }
        assert(placed(all, site) =~= left + placed(right, site));
    }
}

proof fn lemma_plan_beside(text: Seq<char>, left: Seq<Site>, right: Seq<Site>, mid: int)
    requires
        forall|i: int| 0 <= i < left.len() ==> (#[trigger] left[i]).end <= mid,
        forall|i: int| 0 <= i < right.len() ==> mid <= (#[trigger] right[i]).start,
    ensures
        plan(text, left + right) == plan(text, left) + plan(text, right),
    decreases right.len(),
{
    let all = left + right;
    if right.len() == 0 {
        assert(all =~= left);
        assert(plan(text, left) + plan(text, right) =~= plan(text, left));
    } else {
        let last = right.last();
        let fewer = right.drop_last();
        assert(all.last() == last);
        assert(all.drop_last() =~= left + fewer);
        assert forall|i: int| 0 <= i < fewer.len() implies mid <= (#[trigger] fewer[i]).start by {
            assert(mid <= right[i].start);
        }
        lemma_plan_beside(text, left, fewer, mid);
        if spliceable(text, last) {
            let front = plan(text, left);
            lemma_plan(text, left);
            assert forall|i: int| 0 <= i < front.len() implies !precedes(last, #[trigger] front[i]) by {
                assert(front.contains(front[i]));
                let j = choose|j: int| 0 <= j < left.len() && left[j] == front[i];
                assert(left[j].end <= mid);
                assert(mid <= right[right.len() - 1].start);
            }
            lemma_placed_behind(front, plan(text, fewer), last);
        }
    }
}

/// Whether a mutant is written around all of the others: it contains them, and of several over the same
/// text it has the lowest ordinal.
pub open spec fn surrounds(outer: Site, others: Seq<Site>) -> bool {
    forall|i: int|
        0 <= i < others.len() ==> {
            &&& outer.start <= (#[trigger] others[i]).start
            &&& others[i].end <= outer.end
            &&& outer.start == others[i].start && outer.end == others[i].end ==> outer.ordinal < others[i].ordinal
        }
}

proof fn lemma_plan_outermost(text: Seq<char>, others: Seq<Site>, outer: Site)
    requires
        spliceable(text, outer),
        surrounds(outer, others),
    ensures
        plan(text, others.push(outer)) == seq![outer] + plan(text, others),
        within(seq![outer] + plan(text, others)) == plan(text, others).len() + 1,
        forall|i: int| 0 <= i < plan(text, others).len() ==> #[trigger] others.contains(plan(text, others)[i]),
{
    let all = others.push(outer);
    let inner = plan(text, others);
    assert(all.drop_last() =~= others);
    assert(all.last() == outer);
    lemma_plan(text, others);
    assert forall|i: int| 0 <= i < inner.len() implies precedes(outer, #[trigger] inner[i]) && inner[i].start < outer.end && others.contains(inner[i]) by {
        assert(inner.contains(inner[i]));
        let j = choose|j: int| 0 <= j < others.len() && others[j] == inner[i];
        assert(outer.start <= others[j].start);
        assert(spliceable(text, inner[i]));
    }
    lemma_placed_first(inner, outer);
    let sites = seq![outer] + inner;
    lemma_run_end(sites, 1);
    lemma_reach_end(sites, together(sites));
    if within(sites) < sites.len() {
        let k = within(sites);
        assert(sites[k] == inner[k - 1]);
        assert(sites[k].start < outer.end);
    }
}

// ---- What is promised. ----

/// A mutant alone is written around the text of its site, and the rest of the text is as it was.
pub proof fn law_a_mutant_is_written_around_its_site(text: Seq<char>, site: Site)
    requires
        spliceable(text, site),
    ensures
        encoded(text, seq![site]) == slice(text, 0, site.start) + guarded(site, slice(text, site.start, site.end)) + slice(
            text,
            site.end,
            byte_len(text),
        ),
{
    let none = Seq::<Site>::empty();
    assert(none.push(site) =~= seq![site]);
    law_a_mutant_is_written_around_what_it_contains(text, none, site);
    assert(plan(text, none) =~= none);
    text::lemma_slice_whole(text);
    assert(encoded(text, none) == text);
    let front = slice(text, 0, site.start);
    let back = slice(text, site.end, byte_len(text));
    text::lemma_slice_join(text, 0, site.start, site.end);
    text::lemma_slice_join(text, 0, site.end, byte_len(text));
    let x = choose|x: Seq<char>|
        encoded(text, none) == front + x + back && encoded(text, none.push(site)) == front + #[trigger] guarded(site, x) + back;
    let own = slice(text, site.start, site.end);
    assert(text == front + own + back);
    assert(front + x + back == front + own + back);
    assert(x =~= own) by {
        let whole = front + x + back;
        assert(x.len() == own.len());
        assert(x =~= whole.subrange(front.len() as int, (front.len() + x.len()) as int));
        assert(own =~= (front + own + back).subrange(front.len() as int, (front.len() + own.len()) as int));
    }
}

/// A mutant whose site contains all of the others is written around what these make of the text there.
///
/// One more mutant changes nothing else: with the others alone the text of its site is encoded as some
/// `x`, and with it as what it makes of `x`.
pub proof fn law_a_mutant_is_written_around_what_it_contains(text: Seq<char>, others: Seq<Site>, outer: Site)
    requires
        spliceable(text, outer),
        surrounds(outer, others),
        stands_apart(outer, others),
        !super::ambiguous(text, others.push(outer)),
    ensures
        exists|x: Seq<char>|
            encoded(text, others) == slice(text, 0, outer.start) + x + slice(text, outer.end, byte_len(text)) && encoded(
                text,
                others.push(outer),
            ) == slice(text, 0, outer.start) + #[trigger] guarded(outer, x) + slice(text, outer.end, byte_len(text)),
{
    let all = others.push(outer);
    let inner = plan(text, others);
    let sites = seq![outer] + inner;
    let size = byte_len(text);
    lemma_plan_is_weavable(text, all);
    lemma_plan_outermost(text, others, outer);
    assert(sites.skip(1) =~= inner);
    assert forall|i: int| 0 <= i < inner.len() && outer.shape == Shape::Arm implies !shares(outer, #[trigger] inner[i]) by {
        assert(others.contains(inner[i]));
        let j = choose|j: int| 0 <= j < others.len() && others[j] == inner[i];
        assert(!shares(outer, others[j]));
    }
    lemma_outermost(text, sites, 0, size);
    let x = woven(text, inner, outer.start, outer.end);
    assert(weavable(text, inner, outer.start, outer.end)) by {
        assert forall|i: int| 0 <= i < inner.len() implies {
            &&& spliceable(text, #[trigger] inner[i])
            &&& outer.start <= inner[i].start
            &&& inner[i].end <= outer.end
        } by {
            assert(sites[i + 1] == inner[i]);
            assert(spliceable(text, sites[i + 1]));
            assert(others.contains(inner[i]));
            let j = choose|j: int| 0 <= j < others.len() && others[j] == inner[i];
            assert(outer.start <= others[j].start);
        }
        lemma_plan(text, others);
        assert forall|i: int, j: int| 0 <= i < inner.len() && 0 <= j < inner.len() implies !overlaps(#[trigger] inner[i], #[trigger] inner[j]) by {
            assert(!overlaps(sites[i + 1], sites[j + 1]));
        }
    }
    text::lemma_slice_whole(text);
    lemma_behind(text, inner, outer.start, outer.end, size);
    assert(weavable(text, inner, outer.start, size));
    lemma_in_front(text, inner, 0, outer.start, size);
    assert(encoded(text, others) =~= slice(text, 0, outer.start) + x + slice(text, outer.end, size));
    assert(encoded(text, all) == slice(text, 0, outer.start) + guarded(outer, x) + slice(text, outer.end, size));
}

/// Mutants on either side of an offset do not concern each other: what is in front of it is encoded as
/// if there were none behind it, and the other way round.
pub proof fn law_mutants_side_by_side_are_encoded_apart(text: Seq<char>, left: Seq<Site>, right: Seq<Site>, mid: int)
    requires
        0 <= mid <= byte_len(text),
        is_cut(text, mid),
        forall|i: int| 0 <= i < left.len() ==> (#[trigger] left[i]).end <= mid,
        forall|i: int| 0 <= i < right.len() ==> mid <= (#[trigger] right[i]).start,
        !super::ambiguous(text, left),
        !super::ambiguous(text, right),
    ensures
        exists|x: Seq<char>, y: Seq<char>|
            encoded(text, left) == x + slice(text, mid, byte_len(text)) && encoded(text, right) == slice(text, 0, mid) + y && encoded(
                text,
                left + right,
            ) == #[trigger] (x + y),
{
    let size = byte_len(text);
    text::lemma_slice_whole(text);
    lemma_plan_beside(text, left, right, mid);
    lemma_plan_is_weavable(text, left);
    lemma_plan_is_weavable(text, right);
    lemma_plan(text, left);
    lemma_plan(text, right);
    let one = plan(text, left);
    let two = plan(text, right);
    assert forall|i: int| 0 <= i < one.len() implies (#[trigger] one[i]).end <= mid && spliceable(text, one[i]) by {
        assert(one.contains(one[i]));
        let j = choose|j: int| 0 <= j < left.len() && left[j] == one[i];
        assert(left[j].end <= mid);
    }
    assert forall|i: int| 0 <= i < two.len() implies mid <= (#[trigger] two[i]).start && spliceable(text, two[i]) by {
        assert(two.contains(two[i]));
        let j = choose|j: int| 0 <= j < right.len() && right[j] == two[i];
        assert(mid <= right[j].start);
    }
    assert(weavable(text, one, 0, mid));
    assert(weavable(text, two, mid, size));
    lemma_beside(text, one, two, 0, mid, size);
    lemma_behind(text, one, 0, mid, size);
    lemma_in_front(text, two, 0, mid, size);
    let x = woven(text, one, 0, mid);
    let y = woven(text, two, mid, size);
    assert(encoded(text, left + right) == x + y);
}

/// Whether several mutants stop the same arm from matching.
pub open spec fn stop_one_arm(mutants: Seq<Site>, start: int, end: int) -> bool {
    forall|i: int|
        0 <= i < mutants.len() ==> (#[trigger] mutants[i]).shape == Shape::Arm && mutants[i].start == start && mutants[i].end == end
}

proof fn lemma_arms_open(mutants: Seq<Site>, n: nat)
    ensures
        openings(Shape::Arm, mutants, n) == Seq::<char>::empty(),
        closings(Shape::Arm, n) == Seq::<char>::empty(),
    decreases n,
{
    if n > 0 {
        lemma_arms_open(mutants, (n - 1) as nat);
        assert(openings(Shape::Arm, mutants, n) =~= Seq::<char>::empty());
        assert(closings(Shape::Arm, n) =~= Seq::<char>::empty());
    }
}

proof fn lemma_run_whole(sites: Seq<Site>, at: int)
    requires
        1 <= at <= sites.len(),
        forall|i: int| 0 <= i < sites.len() ==> shares(sites[0], #[trigger] sites[i]),
    ensures
        run_end(sites, at) == sites.len(),
    decreases sites.len() - at,
{
    if at < sites.len() {
        assert(shares(sites[0], sites[at]));
        lemma_run_whole(sites, at + 1);
    }
}

/// What mutants that stop one arm write behind its pattern.
proof fn lemma_arms(text: Seq<char>, sites: Seq<Site>, start: int, end: int)
    requires
        sites.len() > 0,
        stop_one_arm(sites, start, end),
        spliceable(text, sites[0]),
    ensures
        woven(text, sites, 0, byte_len(text)) == slice(text, 0, start) + (slice(text, start, end) + trailing(sites, sites.len())) + slice(
            text,
            end,
            byte_len(text),
        ),
{
    let size = byte_len(text);
    let none = Seq::<Site>::empty();
    assert(sites[0].start == start && sites[0].end == end);
    assert forall|i: int| 0 <= i < sites.len() implies shares(sites[0], #[trigger] sites[i]) by {
        assert(sites[i].start == start);
    }
    lemma_run_whole(sites, 1);
    lemma_reach_end(sites, sites.len() as int);
    assert(sites.take(sites.len() as int) =~= sites);
    assert(sites.subrange(sites.len() as int, sites.len() as int) =~= none);
    assert(sites.skip(sites.len() as int) =~= none);
    assert(woven(text, none, start, end) == slice(text, start, end));
    assert(woven(text, none, end, size) == slice(text, end, size));
    lemma_arms_open(sites, sites.len());
    assert(woven(text, sites, 0, size) =~= slice(text, 0, start) + (slice(text, start, end) + trailing(sites, sites.len())) + slice(
        text,
        end,
        size,
    ));
}

/// Several mutants that stop the same arm are one guard: the arm matches while none of them is active.
pub proof fn law_mutants_of_one_arm_share_a_guard(text: Seq<char>, arms: Seq<Site>, more: Site)
    requires
        arms.len() > 0,
        spliceable(text, more),
        stop_one_arm(arms.push(more), more.start, more.end),
        forall|i: int| 0 <= i < arms.len() ==> (#[trigger] arms[i]).ordinal < more.ordinal,
    ensures
        exists|x: Seq<char>|
            encoded(text, arms) == slice(text, 0, more.start) + x + slice(text, more.end, byte_len(text)) && encoded(text, arms.push(more))
                == slice(text, 0, more.start) + #[trigger] (x + " && !"@ + asks(more.ordinal)) + slice(text, more.end, byte_len(text)),
{
    let all = arms.push(more);
    let sites = plan(text, arms);
    lemma_plan(text, arms);
    assert(all[arms.len() as int] == more);
    assert(all.drop_last() =~= arms);
    assert forall|i: int| 0 <= i < arms.len() implies spliceable(text, #[trigger] arms[i]) && arms[i].shape == Shape::Arm && arms[i].start
        == more.start && arms[i].end == more.end by {
        assert(all[i] == arms[i]);
    }
    assert(arms.contains(arms[0]));
    assert(sites.contains(arms[0]));
    assert forall|i: int| 0 <= i < sites.len() implies (#[trigger] sites[i]).shape == Shape::Arm && sites[i].start == more.start && sites[i].end
        == more.end && !precedes(more, sites[i]) by {
        assert(sites.contains(sites[i]));
        let j = choose|j: int| 0 <= j < arms.len() && arms[j] == sites[i];
        assert(arms[j].ordinal < more.ordinal);
    }
    assert(!precedes(more, sites[sites.len() - 1]));
    let longer = sites.push(more);
    assert(plan(text, all) == longer);
    lemma_arms(text, sites, more.start, more.end);
    lemma_arms(text, longer, more.start, more.end);
    lemma_guard_call(more.ordinal);
    lemma_trailing_before(sites, more, sites.len());
    let x = slice(text, more.start, more.end) + trailing(sites, sites.len());
    assert(slice(text, more.start, more.end) + trailing(longer, longer.len()) =~= x + " && !"@ + asks(more.ordinal));
}

proof fn lemma_trailing_before(sites: Seq<Site>, more: Site, n: nat)
    requires
        n <= sites.len(),
    ensures
        trailing(sites.push(more), n) == trailing(sites, n),
    decreases n,
{
    if n > 0 {
        lemma_trailing_before(sites, more, (n - 1) as nat);
    }
}

} // verus!
