//! Code that lies elsewhere with the same text.
use super::{same, same_all, same_scope, same_setting};
use crate::ops::collect::candidate::Offer;
use crate::ops::collect::collector::naming::source_of;
use crate::ops::collect::collector::scope::{offer, offer_over, Scope, Setting};
use crate::ops::collect::Shape;
use crate::syntax::tree::{Kind, Node};
use crate::text::{byte_len, slice, sliceable};
use vstd::prelude::*;

verus! {

/// A change of a text that moves parts of it, in order, and leaves each of them as it is.
pub ghost struct Move {
    /// The text before.
    pub from: Seq<char>,
    /// The text after.
    pub to: Seq<char>,
    /// Where what was at an offset is afterwards.
    pub by: spec_fn(int) -> int,
}

impl Move {
    /// Where what was at an offset is afterwards.
    pub open spec fn at(self, offset: int) -> int {
        (self.by)(offset)
    }

    /// Whether offsets stay in order and within the text, and the beginning of the text where it is.
    pub open spec fn is_orderly(self) -> bool {
        &&& self.at(0) == 0
        &&& forall|x: int, y: int| x < y ==> #[trigger] self.at(x) < #[trigger] self.at(y)
        &&& forall|x: int| x <= byte_len(self.from) <==> #[trigger] self.at(x) <= byte_len(self.to)
    }

    /// Whether the text between two offsets is the same afterwards.
    pub open spec fn keeps(self, start: int, end: int) -> bool {
        forall|x: int, y: int|
            start <= x <= y <= end ==> {
                &&& (#[trigger] self.at(y)) - (#[trigger] self.at(x)) == y - x
                &&& sliceable(self.from, x, y) == sliceable(self.to, self.at(x), self.at(y))
                &&& slice(self.from, x, y) == slice(self.to, self.at(x), self.at(y))
            }
    }

    /// What is offered, where it is afterwards.
    pub open spec fn one(self, offer: Offer) -> Offer {
        Offer { start: self.at(offer.start), end: self.at(offer.end), ..offer }
    }

    /// The same of several.
    pub open spec fn all(self, offers: Seq<Offer>) -> Seq<Offer> {
        offers.map_values(|offer: Offer| self.one(offer))
    }
}

/// Whether one construct is another that was moved: they have the same text, and so have their parts.
pub open spec fn moved(m: Move, a: Node, b: Node) -> bool
    decreases a,
{
    &&& a.kind == b.kind
    &&& a.text@ == b.text@
    &&& a.start <= a.end
    &&& b.start == m.at(a.start as int)
    &&& b.end == m.at(a.end as int)
    &&& m.keeps(a.start as int, a.end as int)
    &&& keeps_tokens(m, a)
    &&& moved_all(m, a.attrs@, b.attrs@)
    &&& moved_all(m, a.kids@, b.kids@)
}

/// Whether the tokens of an attribute have the same text together.
pub open spec fn keeps_tokens(m: Move, a: Node) -> bool {
    (a.kind == (Kind::Arguments { expression: true }) || a.kind == (Kind::Arguments { expression: false })) && a.kids@.len() > 0
        ==> m.keeps(a.kids@[0].start as int, a.kids@.last().end as int)
}

/// The same of several constructs.
pub open spec fn moved_all(m: Move, a: Seq<Node>, b: Seq<Node>) -> bool
    decreases a,
{
    &&& a.len() == b.len()
    &&& a.len() > 0 ==> moved_all(m, a.drop_last(), b.drop_last()) && moved(m, a.last(), b.last())
}

/// The same of a construct that may be missing.
pub open spec fn moved_opt(m: Move, a: Option<Node>, b: Option<Node>) -> bool {
    match (a, b) {
        (Some(a), Some(b)) => moved(m, a, b),
        (None, None) => true,
        _ => false,
    }
}

/// Whether two settings are those of a text before and after.
pub open spec fn moved_setting(m: Move, a: Setting, b: Setting) -> bool {
    &&& m.is_orderly()
    &&& same_setting(a, b)
    &&& a.text == m.from
    &&& b.text == m.to
}

/// Whether the text of every site is the same afterwards.
#[verifier::opaque]
pub open spec fn kept(m: Move, offers: Seq<Offer>) -> bool {
    forall|i: int| 0 <= i < offers.len() ==> m.keeps((#[trigger] offers[i]).start, offers[i].end)
}

/// What is offered afterwards is what was offered before, where it is then, over the same text.
pub open spec fn moved_offers(m: Move, a: Seq<Offer>, b: Seq<Offer>) -> bool {
    b == m.all(a) && kept(m, a)
}

proof fn lemma_moved_at(m: Move, a: Seq<Node>, b: Seq<Node>, i: int)
    requires
        moved_all(m, a, b),
        0 <= i < a.len(),
    ensures
        moved(m, a[i], b[i]),
    decreases a.len(),
{
    if i < a.len() - 1 {
        lemma_moved_at(m, a.drop_last(), b.drop_last(), i);
    }
}

/// Each of several constructs was moved.
pub broadcast proof fn lemma_each_moved(m: Move, a: Seq<Node>, b: Seq<Node>)
    requires
        #[trigger] moved_all(m, a, b),
    ensures
        a.len() == b.len(),
        forall|i: int| #![trigger a[i]] #![trigger b[i]] 0 <= i < a.len() ==> moved(m, a[i], b[i]),
{
    assert forall|i: int| 0 <= i < a.len() implies moved(m, a[i], b[i]) by {
        lemma_moved_at(m, a, b, i);
    }
}

/// Several constructs that each were moved were so together.
pub proof fn lemma_all_moved(m: Move, a: Seq<Node>, b: Seq<Node>)
    requires
        a.len() == b.len(),
        forall|i: int| 0 <= i < a.len() ==> moved(m, #[trigger] a[i], b[i]),
    ensures
        moved_all(m, a, b),
    decreases a.len(),
{
    if a.len() > 0 {
        assert(moved(m, a[a.len() - 1], b[a.len() - 1]));
        assert forall|i: int| 0 <= i < a.len() - 1 implies moved(m, #[trigger] a.drop_last()[i], b.drop_last()[i]) by {
            assert(moved(m, a[i], b[i]));
        }
        lemma_all_moved(m, a.drop_last(), b.drop_last());
    }
}

/// What was moved is the same but for where it lies.
pub broadcast proof fn lemma_moved_same(m: Move, a: Node, b: Node)
    requires
        #[trigger] moved(m, a, b),
    ensures
        same(a, b),
    decreases a,
{
    lemma_moved_same_all(m, a.attrs@, b.attrs@);
    lemma_moved_same_all(m, a.kids@, b.kids@);
}

pub broadcast proof fn lemma_moved_same_all(m: Move, a: Seq<Node>, b: Seq<Node>)
    requires
        #[trigger] moved_all(m, a, b),
    ensures
        same_all(a, b),
    decreases a,
{
    if a.len() > 0 {
        lemma_moved_same_all(m, a.drop_last(), b.drop_last());
        lemma_moved_same(m, a.last(), b.last());
    }
}

/// What a construct that was moved has in common with what it was.
pub broadcast proof fn lemma_moved(m: Move, a: Node, b: Node)
    requires
        #[trigger] moved(m, a, b),
    ensures
        a.kind == b.kind,
        a.text@ == b.text@,
        a.start <= a.end,
        b.start == m.at(a.start as int),
        b.end == m.at(a.end as int),
        m.keeps(a.start as int, a.end as int),
        moved_all(m, a.attrs@, b.attrs@),
        moved_all(m, a.kids@, b.kids@),
        moved_all(m, a.inside(), b.inside()),
{
    lemma_each_moved(m, a.kids@, b.kids@);
    lemma_all_moved(m, a.inside(), b.inside());
}

pub broadcast proof fn lemma_moved_kid(m: Move, a: Node, b: Node, at: int)
    requires
        #[trigger] moved(m, a, b),
    ensures
        moved_opt(m, #[trigger] a.kid(at), #[trigger] b.kid(at)),
{
    lemma_each_moved(m, a.kids@, b.kids@);
}

pub broadcast proof fn lemma_moved_first_of(m: Move, a: Node, b: Node, at: int)
    requires
        #[trigger] moved(m, a, b),
    ensures
        moved_opt(m, #[trigger] a.first_of(at), #[trigger] b.first_of(at)),
{
    lemma_each_moved(m, a.kids@, b.kids@);
    if let Some(list) = a.kid(at) {
        lemma_each_moved(m, list.kids@, b.kid(at)->0.kids@);
    }
}

pub broadcast proof fn lemma_moved_all_of(m: Move, a: Node, b: Node, at: int)
    requires
        #[trigger] moved(m, a, b),
    ensures
        moved_all(m, #[trigger] a.all_of(at), #[trigger] b.all_of(at)),
{
    lemma_each_moved(m, a.kids@, b.kids@);
}

pub broadcast proof fn lemma_moved_front(m: Move, a: Seq<Node>, b: Seq<Node>)
    requires
        #[trigger] moved_all(m, a, b),
        a.len() > 0,
    ensures
        moved_all(m, #[trigger] a.drop_last(), #[trigger] b.drop_last()),
        moved(m, a.last(), b.last()),
{
}

/// The text of a construct that was moved is the same.
pub broadcast proof fn lemma_moved_source(m: Move, a: Node, b: Node)
    requires
        #[trigger] moved(m, a, b),
        m.is_orderly(),
    ensures
        source_of(m.from, a) == source_of(m.to, b),
{
    assert(m.at(a.end as int) - m.at(a.start as int) == a.end - a.start);
}

pub broadcast proof fn lemma_all_joined(m: Move, a: Seq<Offer>, b: Seq<Offer>)
    ensures
        #[trigger] m.all(a + b) == m.all(a) + m.all(b),
        kept(m, a) && kept(m, b) ==> kept(m, a + b),
{
    reveal(kept);
    assert(m.all(a + b) =~= m.all(a) + m.all(b));
}

pub broadcast proof fn lemma_all_of_none(m: Move)
    ensures
        #[trigger] m.all(Seq::empty()) == Seq::<Offer>::empty(),
        kept(m, Seq::empty()),
{
    reveal(kept);
    assert(m.all(Seq::empty()) =~= Seq::<Offer>::empty());
}

/// An offer over a region whose text is kept is made afterwards where it was made before.
pub proof fn lemma_offer(
    m: Move,
    s: Setting,
    s2: Setting,
    c: Scope,
    c2: Scope,
    mutator: Seq<char>,
    start: int,
    end: int,
    replacement: Seq<char>,
    index: u32,
    shape: Shape,
)
    requires
        moved_setting(m, s, s2),
        same_scope(c, c2),
        m.keeps(start, end),
    ensures
        moved_offers(
            m,
            offer(s, c, mutator, start, end, replacement, index, shape),
            offer(s2, c2, mutator, m.at(start), m.at(end), replacement, index, shape),
        ),
{
    reveal(kept);
    let before = offer(s, c, mutator, start, end, replacement, index, shape);
    let after = offer(s2, c2, mutator, m.at(start), m.at(end), replacement, index, shape);
    if start < end {
        assert(m.at(start) < m.at(end));
        assert(m.at(end) - m.at(start) == end - start);
        assert(slice(m.from, start, end) == slice(m.to, m.at(start), m.at(end)));
    } else if start > end {
        assert(m.at(end) < m.at(start));
    }
    assert(end <= byte_len(m.from) <==> m.at(end) <= byte_len(m.to));
    assert(after =~= m.all(before));
}

/// An offer over a construct is made afterwards where it was made before.
pub broadcast proof fn lemma_offer_over(
    m: Move,
    s: Setting,
    s2: Setting,
    c: Scope,
    c2: Scope,
    mutator: Seq<char>,
    a: Node,
    b: Node,
    replacement: Seq<char>,
    index: u32,
    shape: Shape,
)
    requires
        #[trigger] moved(m, a, b),
        moved_setting(m, s, s2),
        same_scope(c, c2),
    ensures
        moved_offers(
            m,
            #[trigger] offer_over(s, c, mutator, a, replacement, index, shape),
            #[trigger] offer_over(s2, c2, mutator, b, replacement, index, shape),
        ),
{
    lemma_offer(m, s, s2, c, c2, mutator, a.start as int, a.end as int, replacement, index, shape);
}

pub broadcast group group_moved {
    lemma_each_moved,
    lemma_moved_same,
    lemma_moved_same_all,
    lemma_moved,
    lemma_moved_kid,
    lemma_moved_first_of,
    lemma_moved_all_of,
    lemma_moved_front,
    lemma_moved_source,
    lemma_all_joined,
    lemma_all_of_none,
    lemma_offer_over,
}

} // verus!
