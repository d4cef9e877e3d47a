//! The value a site states for its own return-value mutant.
//!
//! `#[gamma::value(<expr>)]` states what to substitute for what a function returns. It replaces the
//! guess where one is made, and creates the mutant where no guess could hold.
//!
//! It can only ever add a mutant or change what one substitutes. There is no spelling of it that
//! removes a site or reaches another family.
use crate::cfg::Build;
use crate::error::{ErrorKind, Fault};
use crate::ops::collect::collector::gate::is_left_alone;
use crate::parse::lines::{location_of, starts_of};
use crate::parse::SourceFile;
use crate::syntax::query::path_names;
use crate::syntax::{Kind, Node};
use crate::text;
use crate::text::decimal;
use std::ops::Range;
use vstd::prelude::*;
use vstd::utf8::*;

verus! {

/// What can be wrong with a stated value.
#[derive(Clone, Copy, Debug, PartialEq, Eq, Structural)]
pub enum Wrong {
    /// The argument list is not one expression.
    Malformed,
    /// It is written on something that is not a function.
    Misplaced,
    /// The item states another one too.
    Duplicated,
    /// The function has no body.
    Bodiless,
    /// The function is a `const fn`.
    Constant,
    /// The body of the function is empty.
    Empty,
}

/// What to say about each.
pub open spec fn wording(wrong: Wrong) -> Seq<char> {
    match wrong {
        Wrong::Malformed => "a site states one value, so `#[gamma::value(...)]` takes one Rust expression, as in `#[gamma::value(0)]`"@,
        Wrong::Misplaced => "`#[gamma::value(...)]` states the value one function returns, so it goes on a function or a method; one expression cannot be the body of every function beneath an `impl` block or a module"@,
        Wrong::Duplicated => "an item may state one value; two would leave which of them applies to the order they were written in"@,
        Wrong::Bodiless => "`#[gamma::value(...)]` replaces the body of the function it is written on, and a declaration has none; a trait method's implementations do not inherit it"@,
        Wrong::Constant => "`#[gamma::value(...)]` states what a mutant substitutes, and a mutant is spliced in behind a run-time guard call that no `const fn` body may make; this value would replace nothing"@,
        Wrong::Empty => "`#[gamma::value(...)]` requires a non-empty function body; empty bodies are not eligible for stated-value mutation"@,
    }
}

/// What to say about each.
fn word(wrong: Wrong) -> (r: &'static str)
    ensures
        r@ == wording(wrong),
{
    match wrong {
        Wrong::Malformed => "a site states one value, so `#[gamma::value(...)]` takes one Rust expression, as in `#[gamma::value(0)]`",
        Wrong::Misplaced => "`#[gamma::value(...)]` states the value one function returns, so it goes on a function or a method; one expression cannot be the body of every function beneath an `impl` block or a module",
        Wrong::Duplicated => "an item may state one value; two would leave which of them applies to the order they were written in",
        Wrong::Bodiless => "`#[gamma::value(...)]` replaces the body of the function it is written on, and a declaration has none; a trait method's implementations do not inherit it",
        Wrong::Constant => "`#[gamma::value(...)]` states what a mutant substitutes, and a mutant is spliced in behind a run-time guard call that no `const fn` body may make; this value would replace nothing",
        Wrong::Empty => "`#[gamma::value(...)]` requires a non-empty function body; empty bodies are not eligible for stated-value mutation",
    }
}

// ---- One attribute. ----

/// Whether an attribute is a stated value, whatever it happens to state.
pub open spec fn is_stated(attr: Node) -> bool {
    attr.kid(0) matches Some(path) && path_names(path) == seq!["gamma"@, "value"@]
}

/// The argument list of an attribute that states a value.
pub open spec fn arguments(attr: Node) -> Option<Node> {
    if is_stated(attr) && attr.kind == Kind::AttrList && attr.kids@.len() == 2 && attr.kids@[1].kids@.len() > 0 {
        Some(attr.kids@[1])
    } else {
        None
    }
}

/// Whether an attribute states a value that can be read.
pub open spec fn is_readable(attr: Node) -> bool {
    arguments(attr) matches Some(list) && list.kind == (Kind::Arguments { expression: true })
}

/// The byte range of the expression that attributes state, if they state one.
///
/// The first attribute with an argument list counts. One that is not an expression states nothing.
pub open spec fn stated_span(attrs: Seq<Node>) -> Option<(int, int)>
    decreases attrs.len(),
{
    if attrs.len() == 0 {
        None
    } else {
        match arguments(attrs[0]) {
            Some(list) => if list.kind == (Kind::Arguments { expression: true }) && list.kids@[0].start < list.kids@.last().end {
                Some((list.kids@[0].start as int, list.kids@.last().end as int))
            } else {
                None
            },
            None => stated_span(attrs.drop_first()),
        }
    }
}

/// The ends of a range, if there is one.
pub open spec fn ends(range: Option<Range<usize>>) -> Option<(int, int)> {
    match range {
        Some(range) => Some((range.start as int, range.end as int)),
        None => None,
    }
}

/// Returns whether an attribute is a stated value, whatever it happens to state.
///
/// An attribute nobody can read still counts: that is exactly the one worth reporting.
fn is_stated_value(attr: &Node) -> (r: bool)
    ensures
        r == is_stated(*attr),
{
    match attr.get(0) {
        Some(path) => {
            if path.kids.len() != 2 {
                proof {
                    assert(path_names(*path).len() != seq!["gamma"@, "value"@].len());
                }
                return false;
            }
            let r = text::same(path.kids[0].get_word(0), "gamma") && text::same(path.kids[1].get_word(0), "value");
            proof {
                let names = path_names(*path);
                if r {
                    assert(names =~= seq!["gamma"@, "value"@]);
                } else {
                    assert(names[0] == path.kids@[0].word(0) && names[1] == path.kids@[1].word(0));
                    assert(seq!["gamma"@, "value"@][0] == "gamma"@ && seq!["gamma"@, "value"@][1] == "value"@);
                }
            }
            r
        },
        None => false,
    }
}

/// The argument list of an attribute that states a value.
///
/// A bare `#[gamma::value]` has none, and neither does `#[gamma::value = 1]`.
fn arguments_of(attr: &Node) -> (r: Option<&Node>)
    ensures
        r is Some <==> arguments(*attr) is Some,
        r matches Some(list) ==> arguments(*attr) == Some(*list) && list.kids@.len() > 0,
{
    if is_stated_value(attr) && matches!(attr.kind, Kind::AttrList) && attr.kids.len() == 2 && attr.kids[1].kids.len() > 0 {
        Some(&attr.kids[1])
    } else {
        None
    }
}

/// Returns the byte range of the expression an item's attributes state, if they state one.
///
/// A range rather than the tokens, because what the mutant substitutes is the text the user wrote.
/// A malformed argument yields nothing; it is diagnosed by [`check`].
pub fn stated_range(attrs: &Vec<Node>) -> (r: Option<Range<usize>>)
    ensures
        ends(r) == stated_span(attrs@),
{
    let mut at: usize = 0;
    proof {
        assert(attrs@.skip(0) =~= attrs@);
    }
    while at < attrs.len()
        invariant
            at <= attrs@.len(),
            stated_span(attrs@) == stated_span(attrs@.skip(at as int)),
        decreases attrs@.len() - at,
    {
        proof {
            assert(attrs@.skip(at as int)[0] == attrs@[at as int]);
            assert(attrs@.skip(at as int).drop_first() =~= attrs@.skip(at + 1));
        }
        if let Some(list) = arguments_of(&attrs[at]) {
            let start: usize = list.kids[0].start;
            let end: usize = list.kids[list.kids.len() - 1].end;
            return if matches!(list.kind, Kind::Arguments { expression: true }) && start < end {
                Some(start..end)
            } else {
                None
            };
        }
        at += 1;
    }
    None
}

// ---- The audit. ----

/// Every stated value in a file, and what is wrong with the ones that are wrong.
///
/// An attribute is misplaced exactly when it was seen and no function claimed it. Deciding that by
/// enumerating the items it must not appear on would have to be revised every time the language
/// grows another one.
#[verifier::ext_equal]
pub ghost struct Audited {
    /// Where every stated value begins.
    pub stated: Seq<int>,
    /// Where the ones written on a function or a method begin.
    pub claimed: Set<int>,
    /// What is wrong, and where.
    pub faults: Seq<(int, Wrong)>,
}

/// The stated values among attributes.
pub open spec fn stated_among(attrs: Seq<Node>) -> Seq<Node> {
    attrs.filter(|attr: Node| is_stated(attr))
}

/// Why discovery would never read a stated value from a function it reaches.
pub open spec fn inert(constant: bool, empty: bool) -> Option<Wrong> {
    if constant {
        Some(Wrong::Constant)
    } else if empty {
        Some(Wrong::Empty)
    } else {
        None
    }
}

impl Audited {
    /// Nothing was seen.
    pub open spec fn nothing() -> Audited {
        Audited { stated: Seq::empty(), claimed: Set::empty(), faults: Seq::empty() }
    }

    /// A fault is noted.
    pub open spec fn wrong(self, at: int, wrong: Wrong) -> Audited {
        Audited { faults: self.faults.push((at, wrong)), ..self }
    }

    /// A function claims the stated values of its attributes, which are faulty if it is inert.
    pub open spec fn claiming(self, stated: Seq<Node>, reason: Option<Wrong>) -> Audited
        decreases stated.len(),
    {
        if stated.len() == 0 {
            self
        } else {
            let before = self.claiming(stated.drop_last(), reason);
            let attr = stated.last();
            let claimed = Audited { claimed: before.claimed.insert(attr.start as int), ..before };
            if !is_readable(attr) {
                claimed.wrong(attr.start as int, Wrong::Malformed)
            } else {
                match reason {
                    Some(reason) => claimed.wrong(attr.start as int, reason),
                    None => claimed,
                }
            }
        }
    }

    /// A function with a body is seen.
    pub open spec fn with_function(self, attrs: Seq<Node>, reason: Option<Wrong>) -> Audited {
        let stated = stated_among(attrs);
        (if stated.len() > 1 {
            self.wrong(stated[1].start as int, Wrong::Duplicated)
        } else {
            self
        }).claiming(stated, reason)
    }

    /// A function without a body is seen.
    pub open spec fn with_declaration(self, stated: Seq<Node>) -> Audited
        decreases stated.len(),
    {
        if stated.len() == 0 {
            self
        } else {
            let before = self.with_declaration(stated.drop_last());
            let at = stated.last().start as int;
            Audited { claimed: before.claimed.insert(at), ..before.wrong(at, Wrong::Bodiless) }
        }
    }

    /// What is seen at a node, but not beneath it.
    pub open spec fn noting(self, node: Node) -> Audited {
        match node.kind {
            Kind::AttrPath | Kind::AttrList | Kind::AttrValue => if is_stated(node) {
                Audited { stated: self.stated.push(node.start as int), ..self }
            } else {
                self
            },
            Kind::ItemFn | Kind::ImplFn | Kind::TraitFn => match node.first_of(1) {
                Some(body) => self.with_function(
                    node.attrs@,
                    inert(node.kid(0) matches Some(sig) && sig.kind == (Kind::Signature { constant: true }), body.kids@.len() == 0),
                ),
                None => self.with_declaration(stated_among(node.attrs@)),
            },
            _ => self,
        }
    }

    /// What is seen at a node and beneath it. With a configuration, code that it leaves alone is
    /// not looked at.
    pub open spec fn reading(self, node: Node, gate: Option<Build>) -> Audited
        decreases node,
    {
        proof {
            node.lemma_inside();
        }
        if gate matches Some(cfg) && is_left_alone(node, cfg) {
            self
        } else {
            self.noting(node).reading_all(node.attrs@, gate).reading_all(node.inside(), gate)
        }
    }

    /// What is seen at several nodes and beneath them.
    pub open spec fn reading_all(self, nodes: Seq<Node>, gate: Option<Build>) -> Audited
        decreases nodes,
    {
        if nodes.len() == 0 {
            self
        } else {
            self.reading_all(nodes.drop_last(), gate).reading(nodes.last(), gate)
        }
    }

    /// The faults once every stated value that no function claimed is one.
    pub open spec fn with_misplaced(self, stated: Seq<int>) -> Seq<(int, Wrong)>
        decreases stated.len(),
    {
        if stated.len() == 0 {
            self.faults
        } else if self.claimed.contains(stated.last()) {
            self.with_misplaced(stated.drop_last())
        } else {
            self.with_misplaced(stated.drop_last()).push((stated.last(), Wrong::Misplaced))
        }
    }

    /// All there is to complain of.
    pub open spec fn complaints(self) -> Seq<(int, Wrong)> {
        self.with_misplaced(self.stated)
    }
}

/// The fault that comes first in the file; of several at one place, the first that was found.
pub open spec fn earliest(faults: Seq<(int, Wrong)>) -> Option<(int, Wrong)>
    decreases faults.len(),
{
    if faults.len() == 0 {
        None
    } else {
        match earliest(faults.drop_last()) {
            Some(fault) => if faults.last().0 < fault.0 {
                Some(faults.last())
            } else {
                Some(fault)
            },
            None => Some(faults.last()),
        }
    }
}

/// What is said of a fault.
pub open spec fn fault_message(path: Seq<char>, text: Seq<char>, fault: (int, Wrong)) -> Seq<char> {
    path + ":"@ + decimal(location_of(text, starts_of(encode_utf8(text)), fault.0).0 as nat) + ": "@ + wording(fault.1)
}

/// Whether a result reports the first fault of an audit, and none where there is none.
pub open spec fn reports(r: Result<(), Fault>, file: SourceFile, audited: Audited) -> bool {
    match earliest(audited.complaints()) {
        Some(fault) => r matches Err(error) && error.kind == ErrorKind::Usage && error.message@ == fault_message(
            file.path@,
            file.text@,
            fault,
        ),
        None => r is Ok,
    }
}

/// Every stated value in a file, and what is wrong with the ones that are wrong.
#[derive(Debug)]
pub struct Audit {
    pub stated: Vec<usize>,
    pub claimed: Vec<usize>,
    pub faults: Vec<(usize, Wrong)>,
}

/// Offsets as numbers.
pub open spec fn numbers(offsets: Seq<usize>) -> Seq<int> {
    offsets.map_values(|offset: usize| offset as int)
}

/// Faults with their offsets as numbers.
pub open spec fn placed(faults: Seq<(usize, Wrong)>) -> Seq<(int, Wrong)> {
    faults.map_values(|fault: (usize, Wrong)| (fault.0 as int, fault.1))
}

impl View for Audit {
    type V = Audited;

    open spec fn view(&self) -> Audited {
        Audited {
            stated: numbers(self.stated@),
            claimed: Set::new(|at: int| numbers(self.claimed@).contains(at)),
            faults: placed(self.faults@),
        }
    }
}

impl Audit {
    /// Nothing was seen.
    pub fn new() -> (r: Audit)
        ensures
            r@ == Audited::nothing(),
    {
        let r = Audit { stated: Vec::new(), claimed: Vec::new(), faults: Vec::new() };
        proof {
            assert(r@ =~= Audited::nothing());
        }
        r
    }

    /// Notes a fault.
    fn wrong(&mut self, at: usize, wrong: Wrong)
        ensures
            final(self)@ == old(self)@.wrong(at as int, wrong),
    {
        let ghost before = *self;
        self.faults.push((at, wrong));
        proof {
            assert(placed(self.faults@) =~= placed(before.faults@).push((at as int, wrong)));
            assert(self@ =~= before@.wrong(at as int, wrong));
        }
    }

    /// Claims a stated value for a function.
    fn claim(&mut self, at: usize)
        ensures
            final(self)@ == (Audited { claimed: old(self)@.claimed.insert(at as int), ..old(self)@ }),
    {
        let ghost before = *self;
        self.claimed.push(at);
        proof {
            let less = numbers(before.claimed@);
            let more = numbers(self.claimed@);
            assert(more =~= less.push(at as int));
            assert forall|n: int| more.contains(n) == (less.contains(n) || n == at) by {
                if less.contains(n) {
                    let i = choose|i: int| 0 <= i < less.len() && less[i] == n;
                    assert(more[i] == n);
                }
                if n == at {
                    assert(more[less.len() as int] == n);
                }
                if more.contains(n) {
                    let i = choose|i: int| 0 <= i < more.len() && more[i] == n;
                    if i < less.len() {
                        assert(less[i] == n);
                    }
                }
            }
            assert(self@ =~= (Audited { claimed: before@.claimed.insert(at as int), ..before@ }));
        }
    }

    /// Whether a function claimed the stated value at an offset.
    fn is_claimed(&self, at: usize) -> (r: bool)
        ensures
            r == self@.claimed.contains(at as int),
    {
        let mut index: usize = 0;
        while index < self.claimed.len()
            invariant
                index <= self.claimed@.len(),
                forall|i: int| 0 <= i < index ==> #[trigger] numbers(self.claimed@)[i] != at,
            decreases self.claimed@.len() - index,
        {
            if self.claimed[index] == at {
                proof {
                    assert(numbers(self.claimed@)[index as int] == at);
                }
                return true;
            }
            index += 1;
        }
        false
    }

    /// Records what an item's own attributes get wrong, and which of them a function claimed.
    ///
    /// A malformed argument list is reported ahead of an inert position, because it is the more
    /// specific mistake.
    fn item(&mut self, attrs: &Vec<Node>, reason: Option<Wrong>)
        ensures
            final(self)@ == old(self)@.with_function(attrs@, reason),
    {
        let stated = stated_of(attrs);
        let ghost all = stated_among(attrs@);
        if stated.len() > 1 {
            self.wrong(attrs[stated[1]].start, Wrong::Duplicated);
        }
        let ghost start = self@;
        let mut at: usize = 0;
        proof {
            assert(all.take(0) =~= Seq::<Node>::empty());
        }
        while at < stated.len()
            invariant
                at <= stated@.len(),
                stated@.len() == all.len(),
                forall|i: int| 0 <= i < stated@.len() ==> #[trigger] stated@[i] < attrs@.len() && attrs@[stated@[i] as int] == all[i],
                self@ == start.claiming(all.take(at as int), reason),
            decreases stated@.len() - at,
        {
            let attr = &attrs[stated[at]];
            proof {
                assert(all.take(at + 1).drop_last() =~= all.take(at as int));
                assert(all.take(at + 1).last() == *attr);
            }
            self.claim(attr.start);
            let readable = match arguments_of(attr) {
                Some(list) => matches!(list.kind, Kind::Arguments { expression: true }),
                None => false,
            };
            if !readable {
                self.wrong(attr.start, Wrong::Malformed);
            } else if let Some(reason) = reason {
                self.wrong(attr.start, reason);
            }
            at += 1;
        }
        proof {
            assert(all.take(at as int) =~= all);
        }
    }

    /// Records the stated values of a declaration, which has no body to replace.
    fn declaration(&mut self, attrs: &Vec<Node>)
        ensures
            final(self)@ == old(self)@.with_declaration(stated_among(attrs@)),
    {
        let stated = stated_of(attrs);
        let ghost all = stated_among(attrs@);
        let ghost start = self@;
        let mut at: usize = 0;
        proof {
            assert(all.take(0) =~= Seq::<Node>::empty());
        }
        while at < stated.len()
            invariant
                at <= stated@.len(),
                stated@.len() == all.len(),
                forall|i: int| 0 <= i < stated@.len() ==> #[trigger] stated@[i] < attrs@.len() && attrs@[stated@[i] as int] == all[i],
                self@ == start.with_declaration(all.take(at as int)),
            decreases stated@.len() - at,
        {
            let attr = &attrs[stated[at]];
            proof {
                assert(all.take(at + 1).drop_last() =~= all.take(at as int));
                assert(all.take(at + 1).last() == *attr);
            }
            self.wrong(attr.start, Wrong::Bodiless);
            self.claim(attr.start);
            at += 1;
        }
        proof {
            assert(all.take(at as int) =~= all);
        }
    }

    /// Records what is to be seen at a node, but nothing beneath it.
    pub fn note(&mut self, node: &Node)
        ensures
            final(self)@ == old(self)@.noting(*node),
    {
        match node.kind {
            Kind::AttrPath | Kind::AttrList | Kind::AttrValue => {
                if is_stated_value(node) {
                    let ghost before = *self;
                    self.stated.push(node.start);
                    proof {
                        assert(numbers(self.stated@) =~= numbers(before.stated@).push(node.start as int));
                    }
                }
            },
            Kind::ItemFn | Kind::ImplFn | Kind::TraitFn => {
                match node.get_first(1) {
                    Some(body) => {
                        let constant = match node.get(0) {
                            Some(sig) => matches!(sig.kind, Kind::Signature { constant: true }),
                            None => false,
                        };
                        self.item(&node.attrs, inert_reason(constant, body.kids.len() == 0));
                    },
                    None => {
                        self.declaration(&node.attrs);
                    },
                }
            },
            _ => {},
        }
    }

    /// Records what is to be seen at a node and beneath it.
    fn read(&mut self, node: &Node)
        ensures
            final(self)@ == old(self)@.reading(*node, None),
        decreases node, 1nat,
    {
        proof {
            node.lemma_inside();
            assert(node.attrs@.take(node.attrs@.len() as int) =~= node.attrs@);
            assert(node.kids@.take(node.inside().len() as int) =~= node.inside());
        }
        self.note(node);
        self.read_all(&node.attrs, node.attrs.len());
        self.read_all(&node.kids, node.count_inside());
    }

    /// Records what is to be seen at the first of several nodes and beneath them.
    fn read_all(&mut self, nodes: &Vec<Node>, count: usize)
        requires
            count <= nodes@.len(),
        ensures
            final(self)@ == old(self)@.reading_all(nodes@.take(count as int), None),
        decreases nodes@, 0nat,
    {
        let ghost start = self@;
        let mut at: usize = 0;
        proof {
            assert(nodes@.take(0) =~= Seq::<Node>::empty());
        }
        while at < count
            invariant
                at <= count <= nodes@.len(),
                self@ == start.reading_all(nodes@.take(at as int), None),
            decreases count - at,
        {
            proof {
                assert(nodes@.take(at + 1).drop_last() =~= nodes@.take(at as int));
                assert(decreases_to!(nodes@ => nodes@[at as int]));
            }
            self.read(&nodes[at]);
            at += 1;
        }
    }
}

/// Where the stated values among attributes are.
fn stated_of(attrs: &Vec<Node>) -> (r: Vec<usize>)
    ensures
        r@.len() == stated_among(attrs@).len(),
        forall|i: int| 0 <= i < r@.len() ==> #[trigger] r@[i] < attrs@.len() && attrs@[r@[i] as int] == stated_among(attrs@)[i],
{
    let mut found: Vec<usize> = Vec::new();
    let mut at: usize = 0;
    let ghost keep = |attr: Node| is_stated(attr);
    proof {
        reveal(Seq::filter);
        assert(attrs@.take(0) =~= Seq::<Node>::empty());
    }
    while at < attrs.len()
        invariant
            at <= attrs@.len(),
            keep == (|attr: Node| is_stated(attr)),
            found@.len() == attrs@.take(at as int).filter(keep).len(),
            forall|i: int|
                0 <= i < found@.len() ==> #[trigger] found@[i] < attrs@.len() && attrs@[found@[i] as int] == attrs@.take(at as int).filter(
                    keep,
                )[i],
        decreases attrs@.len() - at,
    {
        proof {
            reveal(Seq::filter);
            assert(attrs@.take(at + 1).drop_last() =~= attrs@.take(at as int));
            assert(attrs@.take(at + 1).last() == attrs@[at as int]);
        }
        if is_stated_value(&attrs[at]) {
            found.push(at);
        }
        at += 1;
    }
    proof {
        assert(attrs@.take(at as int) =~= attrs@);
    }
    found
}

/// Returns why discovery would never read a stated value from a function it reaches.
///
/// `const` is named first because resolving it is required before any mutant can exist.
fn inert_reason(constant: bool, empty: bool) -> (r: Option<Wrong>)
    ensures
        r == inert(constant, empty),
{
    if constant {
        Some(Wrong::Constant)
    } else if empty {
        Some(Wrong::Empty)
    } else {
        None
    }
}

/// The fault that comes first in the file.
fn earliest_of(faults: &Vec<(usize, Wrong)>) -> (r: Option<(usize, Wrong)>)
    ensures
        match r {
            Some(fault) => earliest(placed(faults@)) == Some((fault.0 as int, fault.1)),
            None => earliest(placed(faults@)) is None,
        },
{
    let mut first: Option<(usize, Wrong)> = None;
    let mut at: usize = 0;
    let ghost all = placed(faults@);
    proof {
        assert(all.take(0) =~= Seq::<(int, Wrong)>::empty());
    }
    while at < faults.len()
        invariant
            at <= faults@.len(),
            all == placed(faults@),
            match first {
                Some(fault) => earliest(all.take(at as int)) == Some((fault.0 as int, fault.1)),
                None => earliest(all.take(at as int)) is None,
            },
        decreases faults@.len() - at,
    {
        let (place, wrong) = faults[at];
        proof {
            assert(all.take(at + 1).drop_last() =~= all.take(at as int));
            assert(all.take(at + 1).last() == (place as int, wrong));
        }
        first = match first {
            Some(fault) => if place < fault.0 {
                Some((place, wrong))
            } else {
                Some(fault)
            },
            None => Some((place, wrong)),
        };
        at += 1;
    }
    proof {
        assert(all.take(at as int) =~= all);
    }
    first
}

/// Turns a completed audit into what is reported of it.
pub fn fault(file: &SourceFile, audit: Audit) -> (r: Result<(), Fault>)
    requires
        file.is_navigable(),
    ensures
        reports(r, *file, audit@),
{
    let mut whole = audit;
    let ghost audited = whole@;
    let ghost all = audited.stated;
    let mut at: usize = 0;
    let count: usize = whole.stated.len();
    proof {
        assert(all.len() == count);
        assert(all.take(0) =~= Seq::<int>::empty());
    }
    while at < count
        invariant
            at <= count,
            count == whole.stated@.len(),
            count == all.len(),
            whole@.stated == all,
            whole@.claimed == audited.claimed,
            whole@.faults == audited.with_misplaced(all.take(at as int)),
        decreases count - at,
    {
        let place: usize = whole.stated[at];
        proof {
            assert(all.take(at + 1).drop_last() =~= all.take(at as int));
            assert(all.take(at + 1).last() == place as int);
        }
        if !whole.is_claimed(place) {
            whole.wrong(place, Wrong::Misplaced);
            proof {
                assert(whole@.stated.len() == whole.stated@.len());
            }
        }
        at += 1;
    }
    proof {
        assert(all.take(at as int) =~= all);
    }
    match earliest_of(&whole.faults) {
        Some((place, wrong)) => {
            let mut message = text::owned(file.path.as_str());
            message.append(":");
            text::push_decimal(&mut message, file.line_of(place) as u64);
            message.append(": ");
            message.append(word(wrong));
            Err(Fault::new(ErrorKind::Usage, message))
        },
        None => Ok(()),
    }
}

/// Checks every stated value a file carries.
///
/// A stated value that is malformed, duplicated, written on something that is not a function, or on
/// a function from which no value is ever read, is a failure: ignoring it would leave a hint that
/// reads as if it works and does nothing. Of several faults the first in the file is reported.
pub fn check(file: &SourceFile) -> (r: Result<(), Fault>)
    requires
        file.is_navigable(),
    ensures
        reports(r, *file, Audited::nothing().reading(file.ast, None)),
{
    let mut audit = Audit::new();
    audit.read(&file.ast);
    fault(file, audit)
}

} // verus!
