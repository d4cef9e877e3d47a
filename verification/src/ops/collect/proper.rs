//! What every candidate has to be.
use super::candidate::Offer;
use super::collector::noop::{are_same, compared};
use super::collector::scope::{offer, Scope, Setting};
use crate::ops::collect::Shape;
use crate::text::{byte_len, slice};
use vstd::prelude::*;

verus! {

/// Whether a candidate is one that was asked for, over a region of the text, and would change it.
pub open spec fn is_proper(s: Setting, o: Offer) -> bool {
    &&& s.selection.contains(o.mutator)
    &&& o.start < o.end <= byte_len(s.text)
    &&& !are_same(o.replacement, compared(slice(s.text, o.start, o.end), o.shape))
}

/// Whether all of several candidates are proper.
pub open spec fn all_proper(s: Setting, all: Seq<Offer>) -> bool {
    forall|i: int| 0 <= i < all.len() ==> is_proper(s, #[trigger] all[i])
}

/// What is offered is proper.
pub broadcast proof fn lemma_offer(
    s: Setting,
    c: Scope,
    mutator: Seq<char>,
    start: int,
    end: int,
    replacement: Seq<char>,
    index: u32,
    shape: Shape,
)
    ensures
        all_proper(s, #[trigger] offer(s, c, mutator, start, end, replacement, index, shape)),
{
}

/// Proper candidates behind proper candidates are proper.
pub broadcast proof fn lemma_join(s: Setting, left: Seq<Offer>, right: Seq<Offer>)
    requires
        all_proper(s, left),
        all_proper(s, right),
    ensures
        #[trigger] all_proper(s, left + right),
{
}

} // verus!
