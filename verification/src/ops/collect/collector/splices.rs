//! What is offered where only a part of a construct changes: conditions, match arms, the fields of a
//! literal, the elements of a list and the names of methods.
use super::naming::source_of;
use super::predicates;
use super::predicates::{binding, boolean, catch_all};
use super::scope::{number, offer_over, ordinal, Frame, Lens, Scope, Setting};
use super::sites::around;
use super::tables;
use super::tables::rename_of;
use crate::cfg::{Build, CfgSet};
use crate::ops::collect::candidate::{offers, Candidate, Offer};
use crate::ops::collect::Shape;
use crate::syntax::tree::{Kind, Node};
use crate::text;
use crate::text::{byte_len, slice, sliceable};
use vstd::prelude::*;

verus! {

// ---- Conditions. ----

/// What is offered for a boolean condition: its negation and both constants, but for the one that it
/// already is. Nothing for a condition that binds a pattern.
pub open spec fn condition_offers(
    s: Setting,
    c: Scope,
    negate: Seq<char>,
    always_true: Seq<char>,
    always_false: Seq<char>,
    condition: Node,
) -> Seq<Offer> {
    if binding(condition) {
        Seq::empty()
    } else {
        negated(s, c, negate, condition) + (if boolean(condition) != Some(true) {
            offer_over(s, c, always_true, condition, "true"@, 1, Shape::Expr)
        } else {
            Seq::empty()
        }) + (if boolean(condition) != Some(false) {
            offer_over(s, c, always_false, condition, "false"@, 2, Shape::Expr)
        } else {
            Seq::empty()
        })
    }
}

/// What is offered for the negation of a condition.
pub open spec fn negated(s: Setting, c: Scope, negate: Seq<char>, condition: Node) -> Seq<Offer> {
    offer_over(s, c, negate, condition, "!("@ + source_of(s.text, condition) + ")"@, 0, Shape::Expr)
}

impl<'a> Lens<'a> {
    /// Offers the negation of a condition.
    ///
    /// The parentheses are not optional. `!` binds tighter than every binary operator, so negating
    /// `a == b` without them yields a different expression.
    pub fn negate(&self, frame: &Frame<'a>, found: &mut Vec<Candidate>, negate: &'static str, condition: &Node)
        ensures
            offers(final(found)@) == offers(old(found)@) + negated(self@, frame@, negate@, *condition),
    {
        let replacement = around("!(", self.text_of(condition), ")");
        self.emit(frame, found, negate, condition, replacement.as_str(), 0, Shape::Expr);
    }

    /// Offers the guard mutants for one boolean condition.
    ///
    /// Shared by `if` and match arms, which ask the same question in two syntaxes and should not
    /// answer it differently.
    pub fn condition(
        &self,
        frame: &Frame<'a>,
        found: &mut Vec<Candidate>,
        negate: &'static str,
        always_true: &'static str,
        always_false: &'static str,
        condition: &Node,
    )
        ensures
            offers(final(found)@) == offers(old(found)@) + condition_offers(
                self@,
                frame@,
                negate@,
                always_true@,
                always_false@,
                *condition,
            ),
    {
        let ghost before = offers(found@);
        if predicates::binds_a_pattern(condition) {
            proof {
                assert(before + Seq::<Offer>::empty() =~= before);
            }
            return;
        }
        self.negate(frame, found, negate, condition);
        let literal = predicates::boolean_literal(condition);
        if !matches!(literal, Some(true)) {
            self.emit(frame, found, always_true, condition, "true", 1, Shape::Expr);
        }
        if !matches!(literal, Some(false)) {
            self.emit(frame, found, always_false, condition, "false", 2, Shape::Expr);
        }
        proof {
            assert(offers(found@) =~= before + condition_offers(
                self@,
                frame@,
                negate@,
                always_true@,
                always_false@,
                *condition,
            ));
        }
    }
}

// ---- Match arms. ----

/// Whether an arm catches whatever the arms above it do not: it has no guard and is in the build.
pub open spec fn catches(arm: Node, cfg: Build) -> bool {
    (arm.kid(0) matches Some(pat) && catch_all(pat)) && cfg.holds(arm.attrs@)
}

/// Where the first arm that catches everything stands, or the number of arms.
pub open spec fn first_catch(arms: Seq<Node>, cfg: Build) -> int
    decreases arms.len(),
{
    if arms.len() == 0 {
        0
    } else {
        let before = first_catch(arms.drop_last(), cfg);
        if before < arms.len() - 1 || catches(arms.last(), cfg) {
            before
        } else {
            arms.len() as int
        }
    }
}

/// What is offered for one arm, which may be followed by one that catches everything.
pub open spec fn arm_offers(s: Setting, c: Scope, arm: Node, followed: bool) -> Seq<Offer> {
    if s.cfg.skips(arm.attrs@) || arm.kids@.len() == 0 {
        Seq::empty()
    } else {
        let pat = arm.kids@[0];
        if pat.kind == Kind::PatGuard {
            match pat.kid(1) {
                Some(guard) => condition_offers(
                    s,
                    c,
                    "match_guard.negate"@,
                    "match_guard.always_true"@,
                    "match_guard.always_false"@,
                    guard,
                ),
                None => Seq::empty(),
            }
        } else if followed {
            offer_over(s, c, "match_arm.never_matches"@, pat, ""@, 0, Shape::Arm)
        } else {
            Seq::empty()
        }
    }
}

/// What is offered for arms, of which the one at `wildcard` catches everything.
pub open spec fn arms_offers(s: Setting, c: Scope, arms: Seq<Node>, wildcard: int, count: int) -> Seq<Offer>
    decreases arms.len(),
{
    if arms.len() == 0 {
        Seq::empty()
    } else {
        arms_offers(s, c, arms.drop_last(), wildcard, count) + arm_offers(
            s,
            c,
            arms.last(),
            arms.len() - 1 < wildcard && wildcard < count,
        )
    }
}

/// What is offered for the arms of a `match`.
///
/// An arm with a guard is a condition like any other. An arm without one can be made to stop
/// matching, but only where a later arm receives what falls through.
pub open spec fn match_offers(s: Setting, c: Scope, arms: Seq<Node>) -> Seq<Offer> {
    arms_offers(s, c, arms, first_catch(arms, s.cfg), arms.len() as int)
}

/// Where the first arm that catches everything stands, or the number of arms.
fn find_catch(arms: &Vec<Node>, cfg: &CfgSet) -> (r: usize)
    ensures
        r == first_catch(arms@, cfg@),
{
    let mut wildcard: usize = 0;
    proof {
        assert(arms@.take(0) =~= Seq::<Node>::empty());
    }
    for at in 0..arms.len()
        invariant
            wildcard <= at,
            wildcard == first_catch(arms@.take(at as int), cfg@),
    {
        proof {
            assert(arms@.take(at + 1).drop_last() =~= arms@.take(at as int));
        }
        let arm = &arms[at];
        if wildcard == at {
            let catching = match arm.get(0) {
                Some(pat) => predicates::is_catch_all(pat) && cfg.holds_for(&arm.attrs),
                None => false,
            };
            if !catching {
                wildcard = at + 1;
            }
        }
    }
    proof {
        assert(arms@.take(arms@.len() as int) =~= arms@);
    }
    wildcard
}

impl<'a> Lens<'a> {
    /// Offers the mutants for one arm.
    fn match_arm(&self, frame: &Frame<'a>, found: &mut Vec<Candidate>, arm: &Node, followed: bool)
        ensures
            offers(final(found)@) == offers(old(found)@) + arm_offers(self@, frame@, *arm, followed),
    {
        proof {
            assert(offers(found@) + Seq::<Offer>::empty() =~= offers(found@));
        }
        if self.cfg.skip_gate(&arm.attrs) || arm.kids.len() == 0 {
            return;
        }
        let pat = &arm.kids[0];
        if pat.kind == Kind::PatGuard {
            if let Some(guard) = pat.get(1) {
                self.condition(
                    frame,
                    found,
                    "match_guard.negate",
                    "match_guard.always_true",
                    "match_guard.always_false",
                    guard,
                );
            }
        } else if followed {
            self.emit(frame, found, "match_arm.never_matches", pat, "", 0, Shape::Arm);
        }
    }

    /// Offers the mutants for the arms of one `match`.
    pub fn match_arms(&self, frame: &Frame<'a>, found: &mut Vec<Candidate>, arms: &Vec<Node>)
        ensures
            offers(final(found)@) == offers(old(found)@) + match_offers(self@, frame@, arms@),
    {
        let ghost before = offers(found@);
        let wildcard: usize = find_catch(arms, self.cfg);
        proof {
            assert(arms@.take(0) =~= Seq::<Node>::empty());
            assert(offers(found@) =~= before + arms_offers(self@, frame@, arms@.take(0), wildcard as int, arms@.len() as int));
        }
        for at in 0..arms.len()
            invariant
                offers(found@) == before + arms_offers(
                    self@,
                    frame@,
                    arms@.take(at as int),
                    wildcard as int,
                    arms@.len() as int,
                ),
        {
            proof {
                assert(arms@.take(at + 1).drop_last() =~= arms@.take(at as int));
            }
            self.match_arm(frame, found, &arms[at], at < wildcard && wildcard < arms.len());
            proof {
                assert(offers(found@) =~= before + arms_offers(
                    self@,
                    frame@,
                    arms@.take(at + 1),
                    wildcard as int,
                    arms@.len() as int,
                ));
            }
        }
        proof {
            assert(arms@.take(arms@.len() as int) =~= arms@);
        }
    }
}

// ---- Struct literals. ----

/// Where the text of the field at an index ends: where the next field or the base begins.
pub open spec fn field_end(fields: Seq<Node>, at: int, rest: int) -> int {
    if at + 1 < fields.len() {
        fields[at + 1].start as int
    } else {
        rest
    }
}

/// What is offered for the field at an index of a literal, whose base begins at `rest`.
pub open spec fn field_offers(s: Setting, c: Scope, node: Node, fields: Seq<Node>, at: int, rest: int) -> Seq<Offer> {
    let from = fields[at].start as int;
    let to = field_end(fields, at, rest);
    if s.cfg.skips(fields[at].attrs@) || from < node.start || to > node.end || from >= to || !sliceable(
        s.text,
        node.start as int,
        from,
    ) || !sliceable(s.text, to, node.end as int) {
        Seq::empty()
    } else {
        offer_over(
            s,
            c,
            "struct_field.omit"@,
            node,
            slice(s.text, node.start as int, from) + slice(s.text, to, node.end as int),
            ordinal(at),
            Shape::Expr,
        )
    }
}

/// What is offered for the first fields of a literal.
pub open spec fn fields_offers(s: Setting, c: Scope, node: Node, fields: Seq<Node>, count: int, rest: int) -> Seq<Offer>
    decreases count,
{
    if count <= 0 {
        Seq::empty()
    } else {
        fields_offers(s, c, node, fields, count - 1, rest) + field_offers(s, c, node, fields, count - 1, rest)
    }
}

/// What is offered for a struct literal: each field left out, where a base supplies the value.
pub open spec fn struct_offers(s: Setting, c: Scope, node: Node) -> Seq<Offer> {
    match node.first_of(3) {
        Some(dots) => fields_offers(s, c, node, node.all_of(2), node.all_of(2).len() as int, dots.start as int),
        None => Seq::empty(),
    }
}

impl<'a> Lens<'a> {
    /// Offers a literal with one field left out.
    fn omit_field(&self, frame: &Frame<'a>, found: &mut Vec<Candidate>, node: &Node, at: usize, rest: usize)
        requires
            at < node.all_of(2).len(),
        ensures
            offers(final(found)@) == offers(old(found)@) + field_offers(
                self@,
                frame@,
                *node,
                node.all_of(2),
                at as int,
                rest as int,
            ),
    {
        proof {
            assert(offers(found@) + Seq::<Offer>::empty() =~= offers(found@));
        }
        let field = node.get_in(2, at);
        let from: usize = field.start;
        let count: usize = node.count_of(2);
        let to: usize = if count - at > 1 {
            node.get_in(2, at + 1).start
        } else {
            rest
        };
        if self.cfg.skip_gate(&field.attrs) || from < node.start || to > node.end || from >= to {
            return;
        }
        let Some(head) = text::get(self.text, node.start, from) else {
            return;
        };
        let Some(tail) = text::get(self.text, to, node.end) else {
            return;
        };
        let replacement = text::joined(head, tail);
        self.emit(frame, found, "struct_field.omit", node, replacement.as_str(), number(at), Shape::Expr);
    }

    /// Offers the field-omission mutants for one struct literal.
    ///
    /// Only a literal with a base expression is eligible, because the base is what keeps the
    /// result well formed once a field is taken out.
    pub fn struct_fields(&self, frame: &Frame<'a>, found: &mut Vec<Candidate>, node: &Node)
        ensures
            offers(final(found)@) == offers(old(found)@) + struct_offers(self@, frame@, *node),
    {
        let ghost before = offers(found@);
        proof {
            assert(before + Seq::<Offer>::empty() =~= before);
        }
        let Some(dots) = node.get_first(3) else {
            return;
        };
        let rest: usize = dots.start;
        let ghost fields = node.all_of(2);
        proof {
            assert(before =~= before + fields_offers(self@, frame@, *node, fields, 0, rest as int));
        }
        let count: usize = node.count_of(2);
        for at in 0..count
            invariant
                fields == node.all_of(2),
                count == fields.len(),
                offers(found@) == before + fields_offers(self@, frame@, *node, fields, at as int, rest as int),
        {
            self.omit_field(frame, found, node, at, rest);
            proof {
                assert(offers(found@) =~= before + fields_offers(self@, frame@, *node, fields, at + 1, rest as int));
            }
        }
    }
}

// ---- Elements of a list. ----

/// The region that is taken out with the element at an index: up to the next element, or, for the
/// last, from the end of the element before it.
pub open spec fn cut(elements: Seq<Node>, at: int) -> (int, int) {
    if at + 1 < elements.len() {
        (elements[at].start as int, elements[at + 1].start as int)
    } else if at > 0 {
        (elements[at - 1].end as int, elements[at].end as int)
    } else {
        (elements[at].start as int, elements[at].end as int)
    }
}

/// How far an offset lies behind another.
pub open spec fn behind(offset: int, base: int) -> int {
    if offset < base {
        0
    } else {
        offset - base
    }
}

/// What is offered for the element at an index of a list in a macro.
pub open spec fn element_offers(s: Setting, c: Scope, node: Node, elements: Seq<Node>, at: int) -> Seq<Offer> {
    let first = elements[0].start as int;
    let last = elements.last().end as int;
    let items = slice(s.text, first, last);
    let (from, to) = cut(elements, at);
    if !sliceable(s.text, first, last) || !sliceable(s.text, node.start as int, first) || !sliceable(s.text, last, node.end as int)
        || !sliceable(items, 0, behind(from, first)) || !sliceable(items, behind(to, first), byte_len(items)) {
        Seq::empty()
    } else {
        offer_over(
            s,
            c,
            "collection.omit_element"@,
            node,
            slice(s.text, node.start as int, first) + slice(items, 0, behind(from, first)) + slice(
                items,
                behind(to, first),
                byte_len(items),
            ) + slice(s.text, last, node.end as int),
            ordinal(at),
            Shape::Expr,
        )
    }
}

/// What is offered for the first elements of a list in a macro.
pub open spec fn elements_offers(s: Setting, c: Scope, node: Node, elements: Seq<Node>, count: int) -> Seq<Offer>
    decreases count,
{
    if count <= 0 {
        Seq::empty()
    } else {
        elements_offers(s, c, node, elements, count - 1) + element_offers(s, c, node, elements, count - 1)
    }
}

impl<'a> Lens<'a> {
    /// Offers a list with one element left out.
    fn omit_element(&self, frame: &Frame<'a>, found: &mut Vec<Candidate>, node: &Node, elements: &Vec<Node>, at: usize)
        requires
            at < elements@.len(),
        ensures
            offers(final(found)@) == offers(old(found)@) + element_offers(self@, frame@, *node, elements@, at as int),
    {
        proof {
            assert(offers(found@) + Seq::<Offer>::empty() =~= offers(found@));
        }
        let count: usize = elements.len();
        let first: usize = elements[0].start;
        let last: usize = elements[count - 1].end;
        let Some(items) = text::get(self.text, first, last) else {
            return;
        };
        let Some(head) = text::get(self.text, node.start, first) else {
            return;
        };
        let Some(tail) = text::get(self.text, last, node.end) else {
            return;
        };
        let (from, to): (usize, usize) = if count - at > 1 {
            (elements[at].start, elements[at + 1].start)
        } else if at > 0 {
            (elements[at - 1].end, elements[at].end)
        } else {
            (elements[at].start, elements[at].end)
        };
        let Some(before) = text::get(items, 0, from.saturating_sub(first)) else {
            return;
        };
        let Some(after) = text::get(items, to.saturating_sub(first), text::length(items)) else {
            return;
        };
        let mut replacement = text::joined(head, before);
        replacement.append(after);
        replacement.append(tail);
        self.emit(frame, found, "collection.omit_element", node, replacement.as_str(), number(at), Shape::Expr);
    }

    /// Offers a mutant for each element of a `vec!` literal, with that element removed.
    ///
    /// The removal sweeps up the separating comma along with the element, so the list that is left
    /// is still well formed wherever the element sat in it. The site is the whole `vec![..]`: a
    /// guarded mutant is one arm of an `if`, and `1, 2` is a list rather than an expression.
    pub fn omit_elements(&self, frame: &Frame<'a>, found: &mut Vec<Candidate>, node: &Node, elements: &Vec<Node>)
        ensures
            offers(final(found)@) == offers(old(found)@) + elements_offers(
                self@,
                frame@,
                *node,
                elements@,
                elements@.len() as int,
            ),
    {
        let ghost before = offers(found@);
        proof {
            assert(before =~= before + elements_offers(self@, frame@, *node, elements@, 0));
        }
        for at in 0..elements.len()
            invariant
                offers(found@) == before + elements_offers(self@, frame@, *node, elements@, at as int),
        {
            self.omit_element(frame, found, node, elements, at);
            proof {
                assert(offers(found@) =~= before + elements_offers(self@, frame@, *node, elements@, at + 1));
            }
        }
    }
}

// ---- Method names. ----

/// What is offered for a method call: the same call of the method that the name is mistaken for.
pub open spec fn rename_offers(s: Setting, c: Scope, node: Node, method: Seq<char>) -> Seq<Offer> {
    match node.kid(1) {
        Some(name) => match rename_of(method, node.all_of(3).len()) {
            Some((mutator, other)) => if name.start < node.start || name.end > node.end || !sliceable(
                s.text,
                node.start as int,
                name.start as int,
            ) || !sliceable(s.text, name.end as int, node.end as int) {
                Seq::empty()
            } else {
                offer_over(
                    s,
                    c,
                    mutator,
                    node,
                    slice(s.text, node.start as int, name.start as int) + other + slice(
                        s.text,
                        name.end as int,
                        node.end as int,
                    ),
                    0,
                    Shape::Expr,
                )
            },
            None => Seq::empty(),
        },
        None => Seq::empty(),
    }
}

impl<'a> Lens<'a> {
    /// Offers the curated same-shape renames of a standard-library method.
    ///
    /// Rewriting the name inside a copy of the call's own text keeps any turbofish and every
    /// argument exactly as written.
    pub fn rename_method(&self, frame: &Frame<'a>, found: &mut Vec<Candidate>, node: &Node, method: &str)
        ensures
            offers(final(found)@) == offers(old(found)@) + rename_offers(self@, frame@, *node, method@),
    {
        proof {
            assert(offers(found@) + Seq::<Offer>::empty() =~= offers(found@));
        }
        let Some(name) = node.get(1) else {
            return;
        };
        let Some((mutator, other)) = tables::method_renames(method, node.count_of(3)) else {
            return;
        };
        if name.start < node.start || name.end > node.end {
            return;
        }
        let Some(before) = text::get(self.text, node.start, name.start) else {
            return;
        };
        let Some(after) = text::get(self.text, name.end, node.end) else {
            return;
        };
        let replacement = around(before, other, after);
        self.emit(frame, found, mutator, node, replacement.as_str(), 0, Shape::Expr);
    }
}

} // verus!
