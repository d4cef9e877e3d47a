//! Encoding a whole population of mutants into a single compilable source text.
//!
//! Every mutant is compiled into the text at once, each one behind a runtime guard, so that a
//! build happens once and testing a mutant costs a process launch. A guarded site looks like
//! this:
//!
//! ```text
//! original:     a < b
//! instrumented: (if ::gamma_rt::a(7u32) { (a) <= (b) } else { a < b })
//! ```
//!
//! A mutation site can contain others. Exactly one mutant is active in a process, so the arm that
//! holds a replacement needs no guards of its own, and only the other arm carries the sites nested
//! in this one. That makes the encoding linear in the size of the source.
use crate::error::{ErrorKind, Fault};
use crate::model::MutantDefinition;
use crate::ops::collect::Shape;
use crate::text;
use crate::text::{breaks, byte_len, decimal, slice, sliceable, tail};
use std::collections::HashMap;
use std::ops::Range;
use vstd::prelude::*;

pub mod encoding;
pub mod laws;

verus! {

broadcast use vstd::std_specs::hash::group_hash_axioms;

/// The crate path of the guard predicate, as it appears in instrumented source.
pub const GUARD_PATH: &'static str = "::gamma_rt::a";

/// The crate path of the two-variant iterator wrapper, as it appears in instrumented source.
pub const EITHER_PATH: &'static str = "::gamma_rt::Either";

/// A one-based line and column in instrumented text, ordered as the text reads.
#[derive(Clone, Copy, Debug, PartialEq, Eq, PartialOrd, Ord)]
pub struct Position {
    pub line: u32,
    pub column: u32,
}

/// Where one mutant's guard landed in instrumented text.
#[derive(Debug, PartialEq, Eq)]
pub struct Guard {
    /// The whole guarded site: the `if`, the mutated branch, and the original text.
    pub site: Range<Position>,
    /// Just the mutated branch, the only text that is not a copy of the original.
    ///
    /// A mutant that writes no replacement has nothing here.
    pub mutated: Option<Range<Position>>,
}

impl Clone for Guard {
    fn clone(&self) -> (r: Self)
        ensures
            r == *self,
    {
        let mutated = match &self.mutated {
            Some(range) => Some(Range { start: range.start, end: range.end }),
            None => None,
        };
        Guard { site: Range { start: self.site.start, end: self.site.end }, mutated }
    }
}

/// A mutant as instrumentation sees it.
pub struct Site {
    pub ordinal: u32,
    pub start: int,
    pub end: int,
    pub replacement: Seq<char>,
    pub shape: Shape,
}

/// The run-local number that selects a mutant's guard.
#[derive(Clone, Copy, Debug, PartialEq, Eq, Structural)]
pub struct Ordinal {
    pub number: u32,
}

impl Ordinal {
    /// The ordinal of a number.
    pub fn new(number: u32) -> (r: Self)
        ensures
            r.number == number,
    {
        Ordinal { number }
    }
}

/// A mutant paired with the run-local ordinal that selects its guard.
#[derive(Clone, Copy, Debug)]
pub struct AssignedMutant<'a> {
    ordinal: u32,
    span: &'a Range<usize>,
    replacement: &'a str,
    shape: Shape,
}

impl<'a> View for AssignedMutant<'a> {
    type V = Site;

    closed spec fn view(&self) -> Site {
        Site {
            ordinal: self.ordinal,
            start: self.span.start as int,
            end: self.span.end as int,
            replacement: self.replacement@,
            shape: self.shape,
        }
    }
}

impl<'a> AssignedMutant<'a> {
    /// Pairs an ordinal with the definition it selects.
    pub fn new(ordinal: Ordinal, definition: &'a MutantDefinition) -> (r: Self)
        ensures
            r@ == (Site {
                ordinal: ordinal.number,
                start: definition@.site.start,
                end: definition@.site.end,
                replacement: definition@.replacement,
                shape: definition@.shape,
            }),
    {
        AssignedMutant::from_parts(ordinal.number, definition.span(), definition.replacement.as_str(), definition.shape)
    }

    /// Pairs an ordinal with what it selects.
    pub fn from_parts(ordinal: u32, span: &'a Range<usize>, replacement: &'a str, shape: Shape) -> (r: Self)
        ensures
            r@ == (Site {
                ordinal,
                start: span.start as int,
                end: span.end as int,
                replacement: replacement@,
                shape,
            }),
    {
        AssignedMutant { ordinal, span, replacement, shape }
    }
}

/// The mutants a slice holds.
pub open spec fn sites_of(mutants: Seq<AssignedMutant>) -> Seq<Site> {
    mutants.map_values(|m: AssignedMutant| m@)
}

// ---- Which mutants are spliced, and in what order. ----

/// Whether a site names a region of `text` that can be replaced.
pub open spec fn spliceable(text: Seq<char>, site: Site) -> bool {
    site.start < site.end && sliceable(text, site.start, site.end)
}

/// Whether one site is handled strictly before another.
///
/// Outermost first, and within one span the lowest ordinal first.
pub open spec fn precedes(left: Site, right: Site) -> bool {
    ||| left.start < right.start
    ||| left.start == right.start && left.end > right.end
    ||| left.start == right.start && left.end == right.end && left.ordinal < right.ordinal
}

/// Puts a site in its place, after every site it does not precede.
pub open spec fn placed(sites: Seq<Site>, site: Site) -> Seq<Site>
    decreases sites.len(),
{
    if sites.len() > 0 && precedes(site, sites.last()) {
        placed(sites.drop_last(), site).push(sites.last())
    } else {
        sites.push(site)
    }
}

/// The sites that are spliced into `text`, outermost first.
pub open spec fn plan(text: Seq<char>, mutants: Seq<Site>) -> Seq<Site>
    decreases mutants.len(),
{
    if mutants.len() == 0 {
        Seq::empty()
    } else {
        let before = plan(text, mutants.drop_last());
        if spliceable(text, mutants.last()) {
            placed(before, mutants.last())
        } else {
            before
        }
    }
}

/// Whether two sites share text without one containing the other.
pub open spec fn overlaps(left: Site, right: Site) -> bool {
    ||| left.start < right.start < left.end < right.end
    ||| right.start < left.start < right.end < left.end
}

/// Whether any two sites that can be spliced overlap without nesting.
pub open spec fn ambiguous(text: Seq<char>, mutants: Seq<Site>) -> bool {
    exists|i: int, j: int|
        0 <= i < mutants.len() && 0 <= j < mutants.len() && spliceable(text, mutants[i])
            && spliceable(text, mutants[j]) && #[trigger] overlaps(mutants[i], mutants[j])
}

/// Whether a site is the first, outermost sites first, that crosses the end of one before it, and the
/// other the innermost that is still open where it begins.
pub open spec fn is_first_overlap(sites: Seq<Site>, i: int, j: int) -> bool {
    &&& 0 <= i < j < sites.len()
    &&& overlaps(sites[i], sites[j])
    &&& forall|a: int, b: int| 0 <= a < b < j ==> !overlaps(#[trigger] sites[a], #[trigger] sites[b])
    &&& forall|k: int| i < k < j ==> (#[trigger] sites[k]).end <= sites[j].start
}

/// What is said of two sites that overlap without nesting.
pub open spec fn overlap_message(left: Site, right: Site) -> Seq<char> {
    "mutation sites "@ + decimal(left.start as nat) + ".."@ + decimal(left.end as nat) + " and "@ + decimal(
        right.start as nat,
    ) + ".."@ + decimal(right.end as nat) + " overlap without nesting"@
}

/// Whether a message names the first two sites that overlap without nesting.
pub open spec fn says_overlap(message: Seq<char>, sites: Seq<Site>) -> bool {
    exists|i: int, j: int| #[trigger] is_first_overlap(sites, i, j) && message == overlap_message(sites[i], sites[j])
}

// ---- What is written for one site. ----

/// The call that asks whether a mutant is the active one.
pub open spec fn guard_call(ordinal: u32) -> Seq<char> {
    GUARD_PATH@ + "("@ + decimal(ordinal as nat) + "u32)"@
}

/// What stands before a mutant's replacement text.
pub open spec fn lead(shape: Shape, ordinal: u32) -> Seq<char> {
    match shape {
        Shape::Expr => "(if "@ + guard_call(ordinal) + " { "@,
        Shape::Block => "{ if "@ + guard_call(ordinal) + " { "@,
        Shape::IterBlock => "{ if "@ + guard_call(ordinal) + " { "@ + EITHER_PATH@ + "::L("@,
        Shape::Continue => "{ if "@ + guard_call(ordinal) + " { "@,
        Shape::Break => "{ if "@ + guard_call(ordinal) + " { "@,
        Shape::Stmt => "if !"@ + guard_call(ordinal) + " { "@,
        Shape::Arm => Seq::empty(),
    }
}

/// The replacement text a mutant writes, which a deletion does not.
pub open spec fn written(shape: Shape, replacement: Seq<char>) -> Seq<char> {
    if shape == Shape::Stmt || shape == Shape::Arm {
        Seq::empty()
    } else {
        replacement
    }
}

/// What stands between a mutant's replacement text and the original.
pub open spec fn turn(shape: Shape) -> Seq<char> {
    match shape {
        Shape::Expr => " } else { "@,
        Shape::Block => " } else { "@,
        Shape::IterBlock => ") } else { "@ + EITHER_PATH@ + "::R("@,
        Shape::Continue => "; } "@,
        Shape::Break => "; } "@,
        Shape::Stmt => Seq::empty(),
        Shape::Arm => Seq::empty(),
    }
}

/// What the first `n` mutants of one site write ahead of the original text.
pub open spec fn openings(shape: Shape, mutants: Seq<Site>, n: nat) -> Seq<char>
    decreases n,
{
    if n == 0 {
        Seq::empty()
    } else {
        let last = mutants[n - 1];
        openings(shape, mutants, (n - 1) as nat) + lead(shape, last.ordinal) + written(shape, last.replacement) + turn(
            shape,
        )
    }
}

/// The guards that trail an arm's pattern.
pub open spec fn trailing(mutants: Seq<Site>, n: nat) -> Seq<char>
    decreases n,
{
    if n == 0 {
        Seq::empty()
    } else {
        trailing(mutants, (n - 1) as nat) + (if n == 1 {
            " if !"@
        } else {
            " && !"@
        }) + guard_call(mutants[n - 1].ordinal)
    }
}

/// What closes one mutant's guard.
pub open spec fn closing(shape: Shape) -> Seq<char> {
    match shape {
        Shape::Expr => " })"@,
        Shape::Block => " } }"@,
        Shape::IterBlock => ") } }"@,
        Shape::Continue => " }"@,
        Shape::Break => " }"@,
        Shape::Stmt => " }"@,
        Shape::Arm => Seq::empty(),
    }
}

/// What closes the guards of `n` mutants.
pub open spec fn closings(shape: Shape, n: nat) -> Seq<char>
    decreases n,
{
    if n == 0 {
        Seq::empty()
    } else {
        closings(shape, (n - 1) as nat) + closing(shape)
    }
}

/// What follows the original text of a site.
pub open spec fn ending(shape: Shape, mutants: Seq<Site>) -> Seq<char> {
    (if shape == Shape::Arm {
        trailing(mutants, mutants.len())
    } else {
        Seq::empty()
    }) + closings(shape, mutants.len())
}

// ---- What is written for a whole region. ----

/// Whether two sites are guarded together.
pub open spec fn shares(left: Site, right: Site) -> bool {
    left.start == right.start && left.end == right.end && left.shape == right.shape
}

/// How many of the first sites, counted from `at`, mutate exactly what the first one does.
pub open spec fn run_end(sites: Seq<Site>, at: int) -> int
    decreases sites.len() - at,
{
    if 0 <= at < sites.len() && shares(sites[0], sites[at]) {
        run_end(sites, at + 1)
    } else {
        at
    }
}

/// The first site at or after `at` that begins behind the first one.
pub open spec fn reach_end(sites: Seq<Site>, at: int) -> int
    decreases sites.len() - at,
{
    if 0 <= at < sites.len() && sites[at].start < sites[0].end {
        reach_end(sites, at + 1)
    } else {
        at
    }
}

/// A run ends behind where it began, and within the sites.
pub proof fn lemma_run_end(sites: Seq<Site>, at: int)
    requires
        0 <= at <= sites.len(),
    ensures
        at <= run_end(sites, at) <= sites.len(),
        at < sites.len() && shares(sites[0], sites[at]) ==> run_end(sites, at) > at,
        forall|i: int| at <= i < run_end(sites, at) ==> shares(sites[0], #[trigger] sites[i]),
        run_end(sites, at) < sites.len() ==> !shares(sites[0], sites[run_end(sites, at)]),
    decreases sites.len() - at,
{
    if at < sites.len() && shares(sites[0], sites[at]) {
        lemma_run_end(sites, at + 1);
    }
}

/// What a site reaches ends behind where it began, and within the sites.
pub proof fn lemma_reach_end(sites: Seq<Site>, at: int)
    requires
        0 <= at <= sites.len(),
    ensures
        at <= reach_end(sites, at) <= sites.len(),
        forall|i: int| at <= i < reach_end(sites, at) ==> (#[trigger] sites[i]).start < sites[0].end,
        reach_end(sites, at) < sites.len() ==> sites[reach_end(sites, at)].start >= sites[0].end,
    decreases sites.len() - at,
{
    if at < sites.len() && sites[at].start < sites[0].end {
        lemma_reach_end(sites, at + 1);
    }
}

/// How many sites are guarded together with the first one.
pub open spec fn together(sites: Seq<Site>) -> int {
    run_end(sites, 1)
}

/// Where the sites end that lie in the first one.
pub open spec fn within(sites: Seq<Site>) -> int {
    reach_end(sites, together(sites))
}

/// The text from `from` up to `to` with every one of `sites` guarded.
///
/// The first site is guarded around its own text, in which the sites it contains are guarded in
/// their turn, and the sites behind it follow.
pub open spec fn woven(text: Seq<char>, sites: Seq<Site>, from: int, to: int) -> Seq<char>
    decreases sites.len(),
{
    if sites.len() == 0 {
        slice(text, from, to)
    } else {
        proof {
            lemma_run_end(sites, 1);
            lemma_reach_end(sites, together(sites));
        }
        let head = sites[0];
        slice(text, from, head.start) + openings(
            head.shape,
            sites.take(together(sites)),
            together(sites) as nat,
        ) + woven(text, sites.subrange(together(sites), within(sites)), head.start, head.end) + ending(
            head.shape,
            sites.take(together(sites)),
        ) + woven(text, sites.skip(within(sites)), head.end, to)
    }
}

// ---- Where each guard lands. ----

/// A count as the machine keeps it.
pub open spec fn clamped(n: nat) -> u32 {
    if n < u32::MAX {
        n as u32
    } else {
        u32::MAX
    }
}

/// The position that follows a text.
pub open spec fn position(text: Seq<char>) -> Position {
    Position { line: clamped(breaks(text) + 1), column: clamped(tail(text) + 1) }
}

/// Where the guard of the `n`th mutant of one site lands.
///
/// `before` is the output up to the site, and `whole` the output up to its end.
pub open spec fn guard_of(before: Seq<char>, whole: Seq<char>, shape: Shape, mutants: Seq<Site>, n: int) -> Guard {
    let from = before + openings(shape, mutants, n as nat) + lead(shape, mutants[n].ordinal);
    let text = written(shape, mutants[n].replacement);
    Guard {
        site: Range { start: position(before), end: position(whole) },
        mutated: if text.len() == 0 {
            None
        } else {
            Some(Range { start: position(from), end: position(from + text) })
        },
    }
}

/// Adds the guards of the first `n` mutants of one site.
pub open spec fn with_guards(
    guards: Map<u32, Guard>,
    before: Seq<char>,
    whole: Seq<char>,
    shape: Shape,
    mutants: Seq<Site>,
    n: nat,
) -> Map<u32, Guard>
    decreases n,
{
    if n == 0 {
        guards
    } else {
        with_guards(guards, before, whole, shape, mutants, (n - 1) as nat).insert(
            mutants[n - 1].ordinal,
            guard_of(before, whole, shape, mutants, n - 1),
        )
    }
}

/// Adds where the guard of every one of `sites` lands, given the output `before` the region.
pub open spec fn plotted(
    guards: Map<u32, Guard>,
    before: Seq<char>,
    text: Seq<char>,
    sites: Seq<Site>,
    from: int,
) -> Map<u32, Guard>
    decreases sites.len(),
{
    if sites.len() == 0 {
        guards
    } else {
        proof {
            lemma_run_end(sites, 1);
            lemma_reach_end(sites, together(sites));
        }
        let head = sites[0];
        let group = sites.take(together(sites));
        let inside = sites.subrange(together(sites), within(sites));
        let at = before + slice(text, from, head.start);
        let opened = at + openings(head.shape, group, together(sites) as nat);
        let whole = opened + woven(text, inside, head.start, head.end) + ending(head.shape, group);
        let nested = plotted(guards, opened, text, inside, head.start);
        plotted(
            with_guards(nested, at, whole, head.shape, group, group.len()),
            whole,
            text,
            sites.skip(within(sites)),
            head.end,
        )
    }
}

// ---- Writing it. ----

/// Output under construction, with the position that follows it.
struct Sink {
    text: String,
    line: u32,
    column: u32,
}

impl Sink {
    spec fn wf(&self) -> bool {
        position(self.text@) == (Position { line: self.line, column: self.column })
    }

    fn new() -> (r: Sink)
        ensures
            r.wf(),
            r.text@ == Seq::<char>::empty(),
    {
        Sink { text: String::new(), line: 1, column: 1 }
    }

    /// Appends a text and moves the position past it.
    fn push(&mut self, part: &str)
        requires
            old(self).wf(),
        ensures
            final(self).wf(),
            final(self).text@ == old(self).text@ + part@,
    {
        let ghost before = self.text@;
        for c in it: part.chars()
            invariant
                it.seq() == part@,
                self.text@ == before,
                position(before + part@.take(it.index() as int)) == (Position { line: self.line, column: self.column }),
        {
            let ghost at = it.index() as int;
            let ghost longer = before + part@.take(at + 1);
            proof {
                assert(longer.drop_last() =~= before + part@.take(at));
                assert(longer.last() == c);
            }
            if c == '\n' {
                if self.line < u32::MAX {
                    self.line = self.line + 1;
                }
                self.column = 1;
            } else if self.column < u32::MAX {
                self.column = self.column + 1;
            }
        }
        proof {
            assert(part@.take(part@.len() as int) =~= part@);
        }
        self.text.append(part);
    }

    fn position(&self) -> (r: Position)
        requires
            self.wf(),
        ensures
            r == position(self.text@),
    {
        Position { line: self.line, column: self.column }
    }

    /// Appends the call that asks whether a mutant is the active one.
    fn push_guard(&mut self, ordinal: u32)
        requires
            old(self).wf(),
        ensures
            final(self).wf(),
            final(self).text@ == old(self).text@ + guard_call(ordinal),
    {
        let mut digits = String::new();
        text::push_decimal(&mut digits, ordinal as u64);
        proof {
            assert(digits@ =~= decimal(ordinal as nat));
        }
        self.push(GUARD_PATH);
        self.push("(");
        self.push(digits.as_str());
        self.push("u32)");
        proof {
            assert(self.text@ =~= old(self).text@ + guard_call(ordinal));
        }
    }

    /// Appends what stands before a mutant's replacement text.
    fn push_lead(&mut self, shape: Shape, ordinal: u32)
        requires
            old(self).wf(),
        ensures
            final(self).wf(),
            final(self).text@ == old(self).text@ + lead(shape, ordinal),
    {
        match shape {
            Shape::Expr => self.push("(if "),
            Shape::Block | Shape::IterBlock | Shape::Continue | Shape::Break => self.push("{ if "),
            Shape::Stmt => self.push("if !"),
            Shape::Arm => {
                proof {
                    assert(self.text@ =~= old(self).text@ + lead(shape, ordinal));
                }
                return ;
            },
        }
        self.push_guard(ordinal);
        self.push(" { ");
        if shape == Shape::IterBlock {
            self.push(EITHER_PATH);
            self.push("::L(");
        }
        proof {
            assert(self.text@ =~= old(self).text@ + lead(shape, ordinal));
        }
    }

    /// Appends what stands between a mutant's replacement text and the original.
    fn push_turn(&mut self, shape: Shape)
        requires
            old(self).wf(),
        ensures
            final(self).wf(),
            final(self).text@ == old(self).text@ + turn(shape),
    {
        match shape {
            Shape::Expr | Shape::Block => self.push(" } else { "),
            Shape::IterBlock => {
                self.push(") } else { ");
                self.push(EITHER_PATH);
                self.push("::R(");
            },
            Shape::Continue | Shape::Break => self.push("; } "),
            Shape::Stmt | Shape::Arm => {},
        }
        proof {
            assert(self.text@ =~= old(self).text@ + turn(shape));
        }
    }

    /// Appends what follows the original text of a site.
    fn push_ending(&mut self, shape: Shape, sites: &Vec<AssignedMutant<'_>>, from: usize, to: usize)
        requires
            old(self).wf(),
            from <= to <= sites@.len(),
        ensures
            final(self).wf(),
            final(self).text@ == old(self).text@ + ending(shape, sites_of(sites@).subrange(from as int, to as int)),
    {
        let ghost mutants = sites_of(sites@).subrange(from as int, to as int);
        let ghost before = self.text@;
        let mut at: usize = from;
        if shape == Shape::Arm {
            while at < to
                invariant
                    from <= at <= to <= sites@.len(),
                    mutants == sites_of(sites@).subrange(from as int, to as int),
                    self.wf(),
                    self.text@ == before + trailing(mutants, (at - from) as nat),
                decreases to - at,
            {
                let ghost so_far = self.text@;
                if at == from {
                    self.push(" if !");
                } else {
                    self.push(" && !");
                }
                self.push_guard(sites[at].ordinal);
                at += 1;
                proof {
                    assert(mutants[at - from - 1] == sites@[at - 1]@);
                    assert(self.text@ =~= before + trailing(mutants, (at - from) as nat));
                }
            }
        }
        let ghost middle = self.text@;
        proof {
            assert(middle =~= before + (if shape == Shape::Arm {
                trailing(mutants, mutants.len())
            } else {
                Seq::empty()
            }));
        }
        let mut closed: usize = from;
        while closed < to
            invariant
                from <= closed <= to <= sites@.len(),
                self.wf(),
                self.text@ == middle + closings(shape, (closed - from) as nat),
            decreases to - closed,
        {
            match shape {
                Shape::Expr => self.push(" })"),
                Shape::Block => self.push(" } }"),
                Shape::IterBlock => self.push(") } }"),
                Shape::Continue | Shape::Break | Shape::Stmt => self.push(" }"),
                Shape::Arm => {},
            }
            closed += 1;
            proof {
                assert(self.text@ =~= middle + closings(shape, (closed - from) as nat));
            }
        }
        proof {
            assert(self.text@ =~= before + ending(shape, mutants));
        }
    }
}

/// Whether a site names a region of `text` that can be replaced.
fn is_spliceable(text: &str, mutant: &AssignedMutant<'_>) -> (r: bool)
    ensures
        r == spliceable(text@, mutant@),
{
    let span = mutant.span;
    span.start < span.end && text::get(text, span.start, span.end).is_some()
}

/// Whether one site is handled strictly before another.
fn is_before(left: &AssignedMutant<'_>, right: &AssignedMutant<'_>) -> (r: bool)
    ensures
        r == precedes(left@, right@),
{
    if left.span.start != right.span.start {
        left.span.start < right.span.start
    } else if left.span.end != right.span.end {
        left.span.end > right.span.end
    } else {
        left.ordinal < right.ordinal
    }
}

/// A site belongs before the last sites it precedes, and after everything else.
proof fn lemma_placed(sites: Seq<Site>, site: Site, at: int)
    requires
        0 <= at <= sites.len(),
        forall|i: int| at <= i < sites.len() ==> precedes(site, #[trigger] sites[i]),
        at > 0 ==> !precedes(site, sites[at - 1]),
    ensures
        placed(sites, site) == sites.insert(at, site),
    decreases sites.len(),
{
    if at < sites.len() {
        assert(precedes(site, sites[sites.len() - 1]));
        lemma_placed(sites.drop_last(), site, at);
        assert(sites.drop_last().insert(at, site).push(sites.last()) =~= sites.insert(at, site));
    } else {
        assert(sites.push(site) =~= sites.insert(at, site));
    }
}

/// The sites that are spliced into `text`, outermost first.
fn planned<'a>(text: &str, mutants: &[AssignedMutant<'a>]) -> (r: Vec<AssignedMutant<'a>>)
    ensures
        sites_of(r@) == plan(text@, sites_of(mutants@)),
{
    let mut out: Vec<AssignedMutant<'a>> = Vec::new();
    let mut next: usize = 0;
    proof {
        assert(sites_of(mutants@).take(0) =~= Seq::<Site>::empty());
        assert(sites_of(out@) =~= Seq::<Site>::empty());
    }
    while next < mutants.len()
        invariant
            next <= mutants@.len(),
            sites_of(out@) == plan(text@, sites_of(mutants@).take(next as int)),
        decreases mutants@.len() - next,
    {
        let mutant = mutants[next];
        let ghost taken = sites_of(mutants@).take(next as int + 1);
        proof {
            assert(taken.drop_last() =~= sites_of(mutants@).take(next as int));
            assert(taken.last() == mutant@);
        }
        if is_spliceable(text, &mutant) {
            let mut at: usize = out.len();
            while at > 0 && is_before(&mutant, &out[at - 1])
                invariant
                    at <= out@.len(),
                    forall|i: int| at <= i < out@.len() ==> precedes(mutant@, #[trigger] sites_of(out@)[i]),
                decreases at,
            {
                at -= 1;
            }
            proof {
                lemma_placed(sites_of(out@), mutant@, at as int);
                if at > 0 {
                    assert(sites_of(out@)[at - 1] == out@[at - 1]@);
                }
            }
            let ghost earlier = out@;
            out.insert(at, mutant);
            proof {
                assert(sites_of(out@) =~= sites_of(earlier).insert(at as int, mutant@));
            }
        }
        next += 1;
    }
    proof {
        assert(sites_of(mutants@).take(next as int) =~= sites_of(mutants@));
    }
    out
}

/// Where the sites end that are guarded together with the one at `at`.
fn group_end(sites: &Vec<AssignedMutant<'_>>, at: usize, hi: usize) -> (r: usize)
    requires
        at < hi <= sites@.len(),
    ensures
        r == at + together(sites_of(sites@).subrange(at as int, hi as int)),
        at < r <= hi,
{
    let ghost rest = sites_of(sites@).subrange(at as int, hi as int);
    let mut end: usize = at + 1;
    proof {
        lemma_run_end(rest, 1);
    }
    while end < hi && sites[end].span.start == sites[at].span.start && sites[end].span.end == sites[at].span.end
        && sites[end].shape == sites[at].shape
        invariant
            at < end <= hi <= sites@.len(),
            rest == sites_of(sites@).subrange(at as int, hi as int),
            run_end(rest, end - at) == run_end(rest, 1),
        decreases hi - end,
    {
        proof {
            assert(rest[end - at] == sites@[end as int]@);
            assert(rest[0] == sites@[at as int]@);
        }
        end += 1;
    }
    proof {
        assert(rest[0] == sites@[at as int]@);
        if end < hi {
            assert(rest[end - at] == sites@[end as int]@);
        }
    }
    end
}

/// Where the sites end that lie in the one at `at`.
fn inside_end(sites: &Vec<AssignedMutant<'_>>, at: usize, from: usize, hi: usize) -> (r: usize)
    requires
        at < from <= hi <= sites@.len(),
        from == at + together(sites_of(sites@).subrange(at as int, hi as int)),
    ensures
        r == at + within(sites_of(sites@).subrange(at as int, hi as int)),
        from <= r <= hi,
{
    let ghost rest = sites_of(sites@).subrange(at as int, hi as int);
    let mut end: usize = from;
    proof {
        lemma_reach_end(rest, from - at);
    }
    while end < hi && sites[end].span.start < sites[at].span.end
        invariant
            at < from <= end <= hi <= sites@.len(),
            rest == sites_of(sites@).subrange(at as int, hi as int),
            reach_end(rest, end - at) == reach_end(rest, from - at),
        decreases hi - end,
    {
        proof {
            assert(rest[end - at] == sites@[end as int]@);
            assert(rest[0] == sites@[at as int]@);
        }
        end += 1;
    }
    proof {
        assert(rest[0] == sites@[at as int]@);
        if end < hi {
            assert(rest[end - at] == sites@[end as int]@);
        }
    }
    end
}

/// Appends what the mutants of one site write ahead of the original text, and says where each of
/// their replacements landed.
fn push_openings(sink: &mut Sink, shape: Shape, sites: &Vec<AssignedMutant<'_>>, from: usize, to: usize) -> (r: Vec<
    Option<Range<Position>>,
>)
    requires
        old(sink).wf(),
        from <= to <= sites@.len(),
    ensures
        final(sink).wf(),
        final(sink).text@ == old(sink).text@ + openings(
            shape,
            sites_of(sites@).subrange(from as int, to as int),
            (to - from) as nat,
        ),
        r@.len() == to - from,
        forall|whole: Seq<char>, i: int|
            0 <= i < to - from ==> r@[i] == (#[trigger] guard_of(
                old(sink).text@,
                whole,
                shape,
                sites_of(sites@).subrange(from as int, to as int),
                i,
            )).mutated,
{
    let ghost mutants = sites_of(sites@).subrange(from as int, to as int);
    let ghost before = sink.text@;
    let mut regions: Vec<Option<Range<Position>>> = Vec::new();
    let mut at: usize = from;
    proof {
        assert(before =~= before + openings(shape, mutants, 0));
    }
    while at < to
        invariant
            from <= at <= to <= sites@.len(),
            mutants == sites_of(sites@).subrange(from as int, to as int),
            sink.wf(),
            sink.text@ == before + openings(shape, mutants, (at - from) as nat),
            regions@.len() == at - from,
            forall|whole: Seq<char>, i: int|
                0 <= i < at - from ==> regions@[i] == (#[trigger] guard_of(before, whole, shape, mutants, i)).mutated,
        decreases to - at,
    {
        let mutant = &sites[at];
        let ghost n = (at - from) as nat;
        proof {
            assert(mutants[n as int] == mutant@);
        }
        sink.push_lead(shape, mutant.ordinal);
        let start = sink.position();
        let ghost led = sink.text@;
        let replaced = if shape == Shape::Stmt || shape == Shape::Arm {
            text::between("", 0, 0)
        } else {
            mutant.replacement
        };
        proof {
            reveal_strlit("");
            assert(""@ =~= Seq::<char>::empty());
            text::lemma_slice_whole(""@);
            assert(replaced@ == written(shape, mutant@.replacement));
        }
        sink.push(replaced);
        let end = sink.position();
        sink.push_turn(shape);
        let region = if replaced.is_empty() {
            None
        } else {
            Some(Range { start, end })
        };
        regions.push(region);
        proof {
            assert(led =~= before + openings(shape, mutants, n) + lead(shape, mutant@.ordinal));
            assert(sink.text@ =~= before + openings(shape, mutants, n + 1));
            assert forall|whole: Seq<char>, i: int| 0 <= i < at + 1 - from implies regions@[i] == (
            #[trigger] guard_of(before, whole, shape, mutants, i)).mutated by {
                if i == n {
                    assert(led + replaced@ =~= before + openings(shape, mutants, n) + lead(shape, mutant@.ordinal)
                        + written(shape, mutant@.replacement));
                }
            }
        }
        at += 1;
    }
    regions
}

/// Records where the guards of one site landed.
fn add_guards(
    guards: &mut HashMap<u32, Guard>,
    site_start: Position,
    site_end: Position,
    regions: &Vec<Option<Range<Position>>>,
    sites: &Vec<AssignedMutant<'_>>,
    from: usize,
    Ghost(before): Ghost<Seq<char>>,
    Ghost(whole): Ghost<Seq<char>>,
    shape: Shape,
)
    requires
        from + regions@.len() <= sites@.len(),
        site_start == position(before),
        site_end == position(whole),
        forall|i: int|
            0 <= i < regions@.len() ==> regions@[i] == (#[trigger] guard_of(
                before,
                whole,
                shape,
                sites_of(sites@).subrange(from as int, from + regions@.len()),
                i,
            )).mutated,
    ensures
        final(guards)@ == with_guards(
            old(guards)@,
            before,
            whole,
            shape,
            sites_of(sites@).subrange(from as int, from + regions@.len()),
            regions@.len(),
        ),
{
    let ghost mutants = sites_of(sites@).subrange(from as int, from + regions@.len());
    let ghost earlier = guards@;
    let mut n: usize = 0;
    let count: usize = sites.len();
    while n < regions.len()
        invariant
            n <= regions@.len(),
            count == sites@.len(),
            from + regions@.len() <= sites@.len(),
            mutants == sites_of(sites@).subrange(from as int, from + regions@.len()),
            site_start == position(before),
            site_end == position(whole),
            forall|i: int|
                0 <= i < regions@.len() ==> regions@[i] == (#[trigger] guard_of(before, whole, shape, mutants, i)).mutated,
            guards@ == with_guards(earlier, before, whole, shape, mutants, n as nat),
        decreases regions@.len() - n,
    {
        let mutated = match &regions[n] {
            Some(range) => Some(Range { start: range.start, end: range.end }),
            None => None,
        };
        let guard = Guard { site: Range { start: site_start, end: site_end }, mutated };
        proof {
            assert(mutants[n as int] == sites@[from + n]@);
            assert(guard == guard_of(before, whole, shape, mutants, n as int));
        }
        let _ = guards.insert(sites[from + n].ordinal, guard);
        n += 1;
    }
}

/// What one site writes, given the output up to it: the output up to its end.
spec fn past_head(before: Seq<char>, text: Seq<char>, sites: Seq<Site>) -> Seq<char> {
    before + openings(sites[0].shape, sites.take(together(sites)), together(sites) as nat) + woven(
        text,
        sites.subrange(together(sites), within(sites)),
        sites[0].start,
        sites[0].end,
    ) + ending(sites[0].shape, sites.take(together(sites)))
}

/// The first of several sites is written, and then the rest.
proof fn lemma_head_then_rest(
    guards: Map<u32, Guard>,
    earlier: Seq<char>,
    text: Seq<char>,
    sites: Seq<Site>,
    from: int,
    to: int,
)
    requires
        sites.len() > 0,
    ensures
        ({
            let before = earlier + slice(text, from, sites[0].start);
            let group = sites.take(together(sites));
            let inside = sites.subrange(together(sites), within(sites));
            let whole = past_head(before, text, sites);
            let opened = before + openings(sites[0].shape, group, together(sites) as nat);
            let nested = plotted(guards, opened, text, inside, sites[0].start);
            &&& earlier + woven(text, sites, from, to) == whole + woven(
                text,
                sites.skip(within(sites)),
                sites[0].end,
                to,
            )
            &&& plotted(guards, earlier, text, sites, from) == plotted(
                with_guards(nested, before, whole, sites[0].shape, group, group.len()),
                whole,
                text,
                sites.skip(within(sites)),
                sites[0].end,
            )
        }),
{
    let before = earlier + slice(text, from, sites[0].start);
    let whole = past_head(before, text, sites);
    assert(earlier + woven(text, sites, from, to) =~= whole + woven(
        text,
        sites.skip(within(sites)),
        sites[0].end,
        to,
    ));
}

/// Writes the text from `from` up to `to` with the sites from `lo` up to `hi` guarded, recording
/// where each guard lands.
#[verifier::spinoff_prover]
#[verifier::rlimit(40)]
fn render(
    text: &str,
    sites: &Vec<AssignedMutant<'_>>,
    lo: usize,
    hi: usize,
    from: usize,
    to: usize,
    sink: &mut Sink,
    guards: &mut HashMap<u32, Guard>,
)
    requires
        lo <= hi <= sites@.len(),
        old(sink).wf(),
    ensures
        final(sink).wf(),
        final(sink).text@ == old(sink).text@ + woven(
            text@,
            sites_of(sites@).subrange(lo as int, hi as int),
            from as int,
            to as int,
        ),
        final(guards)@ == plotted(
            old(guards)@,
            old(sink).text@,
            text@,
            sites_of(sites@).subrange(lo as int, hi as int),
            from as int,
        ),
    decreases hi - lo,
{
    let ghost all = sites_of(sites@);
    let ghost goal = sink.text@ + woven(text@, all.subrange(lo as int, hi as int), from as int, to as int);
    let ghost plot = plotted(guards@, sink.text@, text@, all.subrange(lo as int, hi as int), from as int);
    let mut at: usize = lo;
    let mut cursor: usize = from;
    while at < hi
        invariant
            lo <= at <= hi <= sites@.len(),
            all == sites_of(sites@),
            sink.wf(),
            goal == sink.text@ + woven(text@, all.subrange(at as int, hi as int), cursor as int, to as int),
            plot == plotted(guards@, sink.text@, text@, all.subrange(at as int, hi as int), cursor as int),
        decreases hi - at,
    {
        let ghost rest = all.subrange(at as int, hi as int);
        let ghost earlier = sink.text@;
        let head = sites[at];
        let shape = head.shape;
        let end = group_end(sites, at, hi);
        let last = inside_end(sites, at, end, hi);
        let ghost group = rest.take(together(rest));
        let ghost inside = rest.subrange(together(rest), within(rest));
        proof {
            assert(rest[0] == head@);
            assert(group =~= all.subrange(at as int, end as int));
            assert(inside =~= all.subrange(end as int, last as int));
            assert(rest.skip(within(rest)) =~= all.subrange(last as int, hi as int));
            lemma_head_then_rest(guards@, earlier, text@, rest, cursor as int, to as int);
        }
        sink.push(text::between(text, cursor, head.span.start));
        let start = sink.position();
        let ghost before = sink.text@;
        let regions = push_openings(sink, shape, sites, at, end);
        let ghost opened = sink.text@;
        render(text, sites, end, last, head.span.start, head.span.end, sink, guards);
        sink.push_ending(shape, sites, at, end);
        let ghost whole = sink.text@;
        add_guards(guards, start, sink.position(), &regions, sites, at, Ghost(before), Ghost(whole), shape);
        proof {
            assert(whole == past_head(before, text@, rest));
        }
        at = last;
        cursor = head.span.end;
    }
    sink.push(text::between(text, cursor, to));
}

// ---- Which sites can be woven at all. ----

/// Whether no site precedes one that stands before it.
pub open spec fn ordered(sites: Seq<Site>) -> bool {
    forall|i: int, j: int| 0 <= i < j < sites.len() ==> !precedes(#[trigger] sites[j], #[trigger] sites[i])
}

/// Putting a site in its place adds that site and no other, and keeps the order.
proof fn lemma_placed_members(sites: Seq<Site>, site: Site)
    requires
        ordered(sites),
    ensures
        ordered(placed(sites, site)),
        placed(sites, site).len() == sites.len() + 1,
        forall|other: Site|
            #![trigger placed(sites, site).contains(other)]
            #![trigger sites.contains(other)]
            placed(sites, site).contains(other) <==> other == site || sites.contains(other),
    decreases sites.len(),
{
    let result = placed(sites, site);
    if sites.len() > 0 && precedes(site, sites.last()) {
        let front = sites.drop_last();
        lemma_placed_members(front, site);
        let moved = placed(front, site);
        assert forall|other: Site|
            #![trigger result.contains(other)]
            #![trigger sites.contains(other)]
            result.contains(other) <==> other == site || sites.contains(other) by {
            if result.contains(other) {
                let k = choose|k: int| 0 <= k < result.len() && result[k] == other;
                if k < moved.len() {
                    assert(moved[k] == other);
                    assert(moved.contains(other));
                    if other != site {
                        let m = choose|m: int| 0 <= m < front.len() && front[m] == other;
                        assert(sites[m] == other);
                    }
                } else {
                    assert(sites[sites.len() - 1] == other);
                }
            }
            if sites.contains(other) {
                let m = choose|m: int| 0 <= m < sites.len() && sites[m] == other;
                if m < front.len() {
                    assert(front[m] == other);
                    assert(moved.contains(other));
                    let k = choose|k: int| 0 <= k < moved.len() && moved[k] == other;
                    assert(result[k] == other);
                } else {
                    assert(result[result.len() - 1] == other);
                }
            }
            if other == site {
                assert(moved.contains(other));
                let k = choose|k: int| 0 <= k < moved.len() && moved[k] == other;
                assert(result[k] == other);
            }
        }
        assert forall|i: int, j: int| 0 <= i < j < result.len() implies !precedes(
            #[trigger] result[j],
            #[trigger] result[i],
        ) by {
            if j == moved.len() {
                assert(moved.contains(moved[i]));
                if moved[i] != site {
                    let m = choose|m: int| 0 <= m < front.len() && front[m] == moved[i];
                    assert(sites[m] == moved[i]);
                    assert(!precedes(sites[sites.len() - 1], sites[m]));
                }
            } else {
                assert(result[j] == moved[j] && result[i] == moved[i]);
            }
        }
    } else {
        assert forall|other: Site|
            #![trigger result.contains(other)]
            #![trigger sites.contains(other)]
            result.contains(other) <==> other == site || sites.contains(other) by {
            if result.contains(other) {
                let k = choose|k: int| 0 <= k < result.len() && result[k] == other;
                if k < sites.len() {
                    assert(sites[k] == other);
                }
            }
            if sites.contains(other) {
                let m = choose|m: int| 0 <= m < sites.len() && sites[m] == other;
                assert(result[m] == other);
            }
            assert(result[result.len() - 1] == site);
        }
        assert forall|i: int, j: int| 0 <= i < j < result.len() implies !precedes(
            #[trigger] result[j],
            #[trigger] result[i],
        ) by {
            if j == sites.len() {
                if i < sites.len() - 1 {
                    assert(!precedes(sites[sites.len() - 1], sites[i]));
                }
            } else {
                assert(result[j] == sites[j] && result[i] == sites[i]);
            }
        }
    }
}

/// The plan of a text holds exactly the mutants that can be spliced into it, in order.
pub proof fn lemma_plan(text: Seq<char>, mutants: Seq<Site>)
    ensures
        ordered(plan(text, mutants)),
        plan(text, mutants).len() <= mutants.len(),
        forall|site: Site|
            #![trigger plan(text, mutants).contains(site)]
            #![trigger mutants.contains(site)]
            plan(text, mutants).contains(site) <==> mutants.contains(site) && spliceable(text, site),
    decreases mutants.len(),
{
    if mutants.len() > 0 {
        let front = mutants.drop_last();
        let last = mutants.last();
        lemma_plan(text, front);
        if spliceable(text, last) {
            lemma_placed_members(plan(text, front), last);
        }
        assert forall|site: Site|
            #![trigger plan(text, mutants).contains(site)]
            #![trigger mutants.contains(site)]
            plan(text, mutants).contains(site) <==> mutants.contains(site) && spliceable(text, site) by {
            if mutants.contains(site) && site != last {
                let m = choose|m: int| 0 <= m < mutants.len() && mutants[m] == site;
                assert(front[m] == site);
            }
            if front.contains(site) {
                let m = choose|m: int| 0 <= m < front.len() && front[m] == site;
                assert(mutants[m] == site);
            }
            assert(mutants[mutants.len() - 1] == last);
        }
    }
}

/// Whether every two sites are nested or apart.
pub open spec fn laminar(sites: Seq<Site>) -> bool {
    forall|i: int, j: int|
        0 <= i < sites.len() && 0 <= j < sites.len() ==> !overlaps(#[trigger] sites[i], #[trigger] sites[j])
}

/// The mutants of a text are ambiguous exactly when its plan is not laminar.
pub proof fn lemma_ambiguous(text: Seq<char>, mutants: Seq<Site>)
    ensures
        ambiguous(text, mutants) <==> !laminar(plan(text, mutants)),
{
    let sites = plan(text, mutants);
    lemma_plan(text, mutants);
    if ambiguous(text, mutants) {
        let (i, j) = choose|i: int, j: int|
            0 <= i < mutants.len() && 0 <= j < mutants.len() && spliceable(text, mutants[i]) && spliceable(
                text,
                mutants[j],
            ) && #[trigger] overlaps(mutants[i], mutants[j]);
        assert(mutants.contains(mutants[i]) && mutants.contains(mutants[j]));
        let a = choose|a: int| 0 <= a < sites.len() && sites[a] == mutants[i];
        let b = choose|b: int| 0 <= b < sites.len() && sites[b] == mutants[j];
        assert(overlaps(sites[a], sites[b]));
    }
    if !laminar(sites) {
        let (a, b) = choose|a: int, b: int|
            0 <= a < sites.len() && 0 <= b < sites.len() && overlaps(#[trigger] sites[a], #[trigger] sites[b]);
        assert(sites.contains(sites[a]) && sites.contains(sites[b]));
        let i = choose|i: int| 0 <= i < mutants.len() && mutants[i] == sites[a];
        let j = choose|j: int| 0 <= j < mutants.len() && mutants[j] == sites[b];
        assert(overlaps(mutants[i], mutants[j]));
    }
}

/// Whether a site is among the open ones.
spec fn is_open(open: Seq<usize>, i: int) -> bool {
    exists|k: int| 0 <= k < open.len() && open[k] == i
}

/// The first site that overlaps one before it without nesting, and the innermost such one.
fn first_overlap(sites: &Vec<AssignedMutant<'_>>) -> (r: Option<(usize, usize)>)
    requires
        ordered(sites_of(sites@)),
    ensures
        r is None <==> laminar(sites_of(sites@)),
        r matches Some((i, j)) ==> is_first_overlap(sites_of(sites@), i as int, j as int),
{
    let ghost all = sites_of(sites@);
    let mut open: Vec<usize> = Vec::new();
    let mut at: usize = 0;
    while at < sites.len()
        invariant
            at <= sites@.len(),
            all == sites_of(sites@),
            ordered(all),
            forall|k: int| 0 <= k < open@.len() ==> #[trigger] open@[k] < at,
            forall|k: int, m: int| 0 <= k < m < open@.len() ==> #[trigger] open@[k] < #[trigger] open@[m],
            forall|k: int, m: int|
                0 <= k < m < open@.len() ==> all[#[trigger] open@[m] as int].end <= all[#[trigger] open@[k] as int].end,
            forall|i: int|
                0 <= i < at ==> is_open(open@, i) || at > 0 && (#[trigger] all[i]).end <= all[at - 1].start,
            forall|i: int, j: int| 0 <= i < j < at ==> !overlaps(#[trigger] all[i], #[trigger] all[j]),
        decreases sites@.len() - at,
    {
        let mutant = &sites[at];
        let ghost settled = open@;
        proof {
            if at > 0 {
                assert(!precedes(all[at as int], all[at - 1]));
            }
        }
        while open.len() > 0 && sites[open[open.len() - 1]].span.end <= mutant.span.start
            invariant
                at < sites@.len(),
                mutant@ == all[at as int],
                all == sites_of(sites@),
                forall|k: int| 0 <= k < open@.len() ==> #[trigger] open@[k] < at,
                forall|k: int, m: int| 0 <= k < m < open@.len() ==> #[trigger] open@[k] < #[trigger] open@[m],
                forall|k: int, m: int|
                    0 <= k < m < open@.len() ==> all[#[trigger] open@[m] as int].end <= all[#[trigger] open@[k] as int].end,
                forall|i: int|
                    0 <= i < at ==> is_open(open@, i) || (#[trigger] all[i]).end <= mutant@.start,
            decreases open@.len(),
        {
            let ghost longer = open@;
            let _ = open.pop();
            proof {
                assert forall|i: int| 0 <= i < at implies is_open(open@, i) || (#[trigger] all[i]).end
                    <= mutant@.start by {
                    if is_open(longer, i) {
                        let k = choose|k: int| 0 <= k < longer.len() && longer[k] == i;
                        if k < longer.len() - 1 {
                            assert(open@[k] == i);
                        } else {
                            assert(all[i] == sites@[i]@);
                        }
                    }
                }
            }
        }
        if open.len() > 0 {
            let top = open[open.len() - 1];
            if sites[top].span.end < mutant.span.end {
                proof {
                    assert(!precedes(all[at as int], all[top as int]));
                    assert(all[top as int] == sites@[top as int]@);
                    assert(overlaps(all[top as int], all[at as int]));
                    assert forall|k: int| top < k < at implies (#[trigger] all[k]).end <= all[at as int].start by {
                        if is_open(open@, k) {
                            let m = choose|m: int| 0 <= m < open@.len() && open@[m] == k;
                            assert(open@[m] <= open@[open@.len() - 1]);
                        }
                    }
                }
                return Some((top, at));
            }
        }
        proof {
            assert forall|i: int, j: int| 0 <= i < j < at + 1 implies !overlaps(
                #[trigger] all[i],
                #[trigger] all[j],
            ) by {
                if j == at {
                    assert(!precedes(all[j], all[i]));
                    if is_open(open@, i) {
                        let k = choose|k: int| 0 <= k < open@.len() && open@[k] == i;
                        let top = open@[open@.len() - 1];
                        assert(all[top as int] == sites@[top as int]@);
                        assert(all[top as int].end <= all[open@[k] as int].end);
                    }
                }
            }
        }
        let ghost shorter = open@;
        open.push(at);
        proof {
            assert forall|i: int| 0 <= i < at + 1 implies is_open(open@, i) || (#[trigger] all[i]).end
                <= all[at as int].start by {
                if i == at {
                    assert(open@[open@.len() - 1] == i);
                } else if is_open(shorter, i) {
                    let k = choose|k: int| 0 <= k < shorter.len() && shorter[k] == i;
                    assert(open@[k] == i);
                }
            }
            assert forall|k: int, m: int| 0 <= k < m < open@.len() implies all[#[trigger] open@[m] as int].end
                <= all[#[trigger] open@[k] as int].end by {
                if m == shorter.len() {
                    let top = shorter[shorter.len() - 1];
                    assert(all[top as int] == sites@[top as int]@);
                    assert(all[top as int].end <= all[shorter[k] as int].end);
                }
            }
        }
        at += 1;
    }
    proof {
        assert forall|i: int, j: int| 0 <= i < all.len() && 0 <= j < all.len() implies !overlaps(
            #[trigger] all[i],
            #[trigger] all[j],
        ) by {
            if i > j {
                assert(!overlaps(all[j], all[i]));
            }
        }
    }
    None
}

/// What is said of two sites that overlap without nesting.
fn overlap_error(left: &AssignedMutant<'_>, right: &AssignedMutant<'_>) -> (r: Fault)
    ensures
        r.kind == ErrorKind::Failure,
        r.message@ == overlap_message(left@, right@),
{
    let mut message = String::new();
    message.append("mutation sites ");
    text::push_decimal(&mut message, left.span.start as u64);
    message.append("..");
    text::push_decimal(&mut message, left.span.end as u64);
    message.append(" and ");
    text::push_decimal(&mut message, right.span.start as u64);
    message.append("..");
    text::push_decimal(&mut message, right.span.end as u64);
    message.append(" overlap without nesting");
    proof {
        assert(message@ =~= overlap_message(left@, right@));
    }
    Fault::new(ErrorKind::Failure, message)
}

/// Rewrites one text so that it encodes every one of the given mutants, and reports where each
/// guard landed.
///
/// A mutant whose span is not a region of `text` that can be replaced is skipped rather than
/// spliced at a wrong offset. The positions are one-based and refer to the returned text.
///
/// # Errors
///
/// Two mutants that can be spliced have spans that overlap without nesting.
pub fn instrument_with_guards(text: &str, mutants: &[AssignedMutant<'_>]) -> (r: Result<
    (String, HashMap<u32, Guard>),
    Fault,
>)
    ensures
        r is Err <==> ambiguous(text@, sites_of(mutants@)),
        r matches Ok((out, guards)) ==> {
            &&& out@ == woven(text@, plan(text@, sites_of(mutants@)), 0, byte_len(text@))
            &&& guards@ == plotted(Map::empty(), Seq::empty(), text@, plan(text@, sites_of(mutants@)), 0)
        },
        r matches Err(error) ==> error.kind == ErrorKind::Failure && says_overlap(
            error.message@,
            plan(text@, sites_of(mutants@)),
        ),
{
    let sites = planned(text, mutants);
    proof {
        lemma_plan(text@, sites_of(mutants@));
        lemma_ambiguous(text@, sites_of(mutants@));
    }
    if let Some((left, right)) = first_overlap(&sites) {
        proof {
            let all = plan(text@, sites_of(mutants@));
            assert(all[left as int] == sites@[left as int]@);
            assert(all[right as int] == sites@[right as int]@);
            assert(is_first_overlap(all, left as int, right as int));
        }
        return Err(overlap_error(&sites[left], &sites[right]));
    }
    let mut sink = Sink::new();
    let mut guards: HashMap<u32, Guard> = HashMap::new();
    render(text, &sites, 0, sites.len(), 0, text::length(text), &mut sink, &mut guards);
    proof {
        assert(sites_of(sites@).subrange(0, sites@.len() as int) =~= sites_of(sites@));
        assert(sink.text@ =~= woven(text@, plan(text@, sites_of(mutants@)), 0, byte_len(text@)));
    }
    Ok((sink.text, guards))
}

/// Rewrites one text so that it encodes every one of the given mutants.
///
/// # Errors
///
/// Two mutants that can be spliced have spans that overlap without nesting.
pub fn instrument(text: &str, mutants: &[AssignedMutant<'_>]) -> (r: Result<String, Fault>)
    ensures
        r is Err <==> ambiguous(text@, sites_of(mutants@)),
        r matches Ok(out) ==> out@ == woven(text@, plan(text@, sites_of(mutants@)), 0, byte_len(text@)),
        r matches Err(error) ==> error.kind == ErrorKind::Failure && says_overlap(
            error.message@,
            plan(text@, sites_of(mutants@)),
        ),
{
    match instrument_with_guards(text, mutants) {
        Ok((out, _)) => Ok(out),
        Err(error) => Err(error),
    }
}

} // verus!
