//! What an expression itself offers, before what stands inside it is looked at.
use super::naming::source_of;
use super::predicates;
use super::predicates::{assigning, binding, called_name, default_call, digits, label};
use super::scope::{looping, number, offer_over, ordinal, Frame, Lens, Scope, Setting};
use super::sites::{around, is_bare_integer, is_integer, perturbed, perturbed_arguments, perturbed_if_known};
use super::splices::{condition_offers, match_offers, negated, rename_offers, struct_offers};
use super::tables;
use super::tables::{pairs, replacements_of};
use crate::ops::collect::candidate::{offers, Candidate, Offer};
use crate::ops::collect::Shape;
use crate::syntax::query;
use crate::syntax::query::path_ident;
use crate::syntax::tree::{Kind, Node, Op};
use crate::text;
use crate::text::{begins, decimal, viewed};
use vstd::prelude::*;

verus! {

/// The marker string every string-valued mutant is replaced by.
///
/// It is deliberately implausible: a test that happens to accept it was almost certainly not
/// asserting on the string at all.
pub const XYZZY: &'static str = "xyzzy";

// ---- Operators. ----

/// Two operands with an operator between them. They are parenthesized, because the replacement must
/// not renegotiate precedence with whatever encloses it; but what is assigned to is left bare.
pub open spec fn operation(left: Seq<char>, operator: Seq<char>, right: Seq<char>, assigns: bool) -> Seq<char> {
    if assigns {
        left + " "@ + operator + " ("@ + right + ")"@
    } else {
        "("@ + left + ") "@ + operator + " ("@ + right + ")"@
    }
}

/// What is offered for the first replacements of a binary operator.
pub open spec fn operator_offers(s: Setting, c: Scope, e: Node, replacements: Seq<(Seq<char>, Seq<char>)>, assigns: bool) -> Seq<Offer>
    decreases replacements.len(),
{
    if replacements.len() == 0 {
        Seq::empty()
    } else {
        let (mutator, operator) = replacements.last();
        operator_offers(s, c, e, replacements.drop_last(), assigns) + offer_over(
            s,
            c,
            mutator,
            e,
            operation(source_of(s.text, e.kids@[0]), operator, source_of(s.text, e.kids@[2]), assigns),
            ordinal(replacements.len() - 1),
            Shape::Expr,
        )
    }
}

/// What is offered for a binary expression. Nothing for a `&&` that joins a binding to a condition.
pub open spec fn binary_offers(s: Setting, c: Scope, e: Node) -> Seq<Offer> {
    if e.kids@.len() != 3 {
        Seq::empty()
    } else {
        match e.kids@[1].kind {
            Kind::Operator(op) => if op == Op::And && (binding(e.kids@[0]) || binding(e.kids@[2])) {
                Seq::empty()
            } else {
                operator_offers(s, c, e, replacements_of(op), assigning(op))
            },
            _ => Seq::empty(),
        }
    }
}

/// What is offered for a unary expression: its operand.
pub open spec fn unary_offers(s: Setting, c: Scope, e: Node) -> Seq<Offer> {
    match e.kid(0) {
        Some(operand) => match e.kind {
            Kind::Negate => if digits(operand) == Some("0"@) {
                Seq::empty()
            } else {
                offer_over(s, c, "unary.remove_neg"@, e, source_of(s.text, operand), 0, Shape::Expr)
            },
            Kind::Not => offer_over(s, c, "unary.remove_not"@, e, source_of(s.text, operand), 0, Shape::Expr),
            _ => Seq::empty(),
        },
        None => Seq::empty(),
    }
}

/// Two operands with an operator between them.
fn operate(left: &str, operator: &str, right: &str, assigns: bool) -> (r: String)
    ensures
        r@ == operation(left@, operator@, right@, assigns),
{
    let mut out = if assigns {
        around(left, " ", operator)
    } else {
        around("(", left, ") ")
    };
    if !assigns {
        out.append(operator);
    }
    out.append(" (");
    out.append(right);
    out.append(")");
    out
}

impl<'a> Lens<'a> {
    /// Offers the replacements of a binary operator.
    fn operator(&self, frame: &Frame<'a>, found: &mut Vec<Candidate>, e: &Node, op: Op)
        requires
            e.kids@.len() == 3,
        ensures
            offers(final(found)@) == offers(old(found)@) + operator_offers(self@, frame@, *e, replacements_of(op), assigning(op)),
    {
        let ghost before = offers(found@);
        let list = tables::binary_replacements(op);
        let assigns = predicates::is_assign_op(op);
        let left = self.text_of(&e.kids[0]);
        let right = self.text_of(&e.kids[2]);
        let ghost all = replacements_of(op);
        proof {
            assert(all.take(0) =~= Seq::<(Seq<char>, Seq<char>)>::empty());
            assert(offers(found@) =~= before + operator_offers(self@, frame@, *e, all.take(0), assigns));
        }
        for at in 0..list.len()
            invariant
                e.kids@.len() == 3,
                all == pairs(list@),
                left@ == source_of(self@.text, e.kids@[0]),
                right@ == source_of(self@.text, e.kids@[2]),
                offers(found@) == before + operator_offers(self@, frame@, *e, all.take(at as int), assigns),
        {
            proof {
                assert(all.take(at + 1).drop_last() =~= all.take(at as int));
                assert(all.take(at + 1).last() == (list@[at as int].0@, list@[at as int].1@));
            }
            let replacement = operate(left, list[at].1, right, assigns);
            self.emit(frame, found, list[at].0, e, replacement.as_str(), number(at), Shape::Expr);
            proof {
                assert(offers(found@) =~= before + operator_offers(self@, frame@, *e, all.take(at + 1), assigns));
            }
        }
        proof {
            assert(all.take(all.len() as int) =~= all);
        }
    }

    /// Offers what a binary expression offers.
    fn binary(&self, frame: &Frame<'a>, found: &mut Vec<Candidate>, e: &Node)
        ensures
            offers(final(found)@) == offers(old(found)@) + binary_offers(self@, frame@, *e),
    {
        proof {
            assert(offers(found@) + Seq::<Offer>::empty() =~= offers(found@));
        }
        if e.kids.len() != 3 {
            return;
        }
        if let Kind::Operator(op) = e.kids[1].kind {
            if op == Op::And && (predicates::binds_a_pattern(&e.kids[0]) || predicates::binds_a_pattern(&e.kids[2])) {
                return;
            }
            self.operator(frame, found, e, op);
        }
    }

    /// Offers what a unary expression offers.
    fn unary(&self, frame: &Frame<'a>, found: &mut Vec<Candidate>, e: &Node)
        ensures
            offers(final(found)@) == offers(old(found)@) + unary_offers(self@, frame@, *e),
    {
        proof {
            assert(offers(found@) + Seq::<Offer>::empty() =~= offers(found@));
        }
        if let Some(operand) = e.get(0) {
            match e.kind {
                Kind::Negate => {
                    if !predicates::is_integer_zero_literal(operand) {
                        self.emit(frame, found, "unary.remove_neg", e, self.text_of(operand), 0, Shape::Expr);
                    }
                },
                Kind::Not => {
                    self.emit(frame, found, "unary.remove_not", e, self.text_of(operand), 0, Shape::Expr);
                },
                _ => {},
            }
        }
    }
}

// ---- Ranges and loops. ----

/// What is offered for a range: its end moved by one, and both ends perturbed.
///
/// The end is moved rather than `..` swapped for `..=`, because the two are different types and the
/// arms of a guard must have the same one.
pub open spec fn range_offers(s: Setting, c: Scope, e: Node, closed: bool) -> Seq<Offer> {
    let start = match e.first_of(0) {
        Some(start) => "("@ + source_of(s.text, start) + ")"@,
        None => ""@,
    };
    (match e.first_of(1) {
        Some(end) => (if closed {
            offer_over(
                s,
                c,
                "range.inclusive_to_exclusive"@,
                e,
                start + "..=(("@ + source_of(s.text, end) + ") - 1)"@,
                0,
                Shape::Expr,
            )
        } else {
            offer_over(
                s,
                c,
                "range.exclusive_to_inclusive"@,
                e,
                start + "..(("@ + source_of(s.text, end) + ") + 1)"@,
                0,
                Shape::Expr,
            )
        }) + perturbed_if_known(s, c, end),
        None => Seq::empty(),
    }) + (match e.first_of(0) {
        Some(start) => perturbed_if_known(s, c, start),
        None => Seq::empty(),
    })
}

/// Whether the innermost loop of a label is left with a value.
pub open spec fn labelled_value(loops: Seq<(Option<Seq<char>>, bool)>, target: Seq<char>) -> bool
    decreases loops.len(),
{
    if loops.len() == 0 {
        false
    } else if loops.last().0 == Some(target) {
        loops.last().1
    } else {
        labelled_value(loops.drop_last(), target)
    }
}

/// Whether the loop that a `continue` goes on with is left with a value.
pub open spec fn requires_value(c: Scope, e: Node) -> bool {
    match label(e) {
        Some(target) => labelled_value(c.loops, target),
        None => c.loops.len() > 0 && c.loops.last().1,
    }
}

/// What is offered for a `break`: a `continue`, unless it has a label or a value.
pub open spec fn break_offers(s: Setting, c: Scope, e: Node) -> Seq<Offer> {
    if e.first_of(0) is None && e.first_of(1) is None {
        offer_over(s, c, "loop.break_to_continue"@, e, "continue"@, 0, Shape::Break)
    } else {
        Seq::empty()
    }
}

/// What is offered for a `continue`: a `break` out of the same loop, unless it is left with a value.
pub open spec fn continue_offers(s: Setting, c: Scope, e: Node) -> Seq<Offer> {
    if requires_value(c, e) {
        Seq::empty()
    } else {
        offer_over(
            s,
            c,
            "loop.continue_to_break"@,
            e,
            match label(e) {
                Some(target) => "break '"@ + target,
                None => "break"@,
            },
            0,
            Shape::Continue,
        )
    }
}

/// Whether the innermost loop of a label is left with a value.
fn find_value(loops: &Vec<(Option<&str>, bool)>, target: &str) -> (r: bool)
    ensures
        r == labelled_value(looping(loops@), target@),
{
    let mut at: usize = loops.len();
    let ghost all = looping(loops@);
    proof {
        assert(all.take(all.len() as int) =~= all);
    }
    while at > 0
        invariant
            at <= loops@.len(),
            all == looping(loops@),
            labelled_value(all, target@) == labelled_value(all.take(at as int), target@),
        decreases at,
    {
        proof {
            assert(all.take(at as int).last() == (viewed(loops@[at - 1].0), loops@[at - 1].1));
            assert(all.take(at as int).drop_last() =~= all.take(at - 1));
        }
        if let Some(name) = loops[at - 1].0 {
            if text::same(name, target) {
                return loops[at - 1].1;
            }
        }
        at -= 1;
    }
    false
}

impl<'a> Lens<'a> {
    /// Offers what a range offers.
    fn range(&self, frame: &Frame<'a>, found: &mut Vec<Candidate>, e: &Node, closed: bool)
        ensures
            offers(final(found)@) == offers(old(found)@) + range_offers(self@, frame@, *e, closed),
    {
        let ghost before = offers(found@);
        let start = match e.get_first(0) {
            Some(start) => around("(", self.text_of(start), ")"),
            None => text::owned(""),
        };
        if let Some(end) = e.get_first(1) {
            if closed {
                let mut replacement = around(start.as_str(), "..=((", self.text_of(end));
                replacement.append(") - 1)");
                self.emit(frame, found, "range.inclusive_to_exclusive", e, replacement.as_str(), 0, Shape::Expr);
            } else {
                let mut replacement = around(start.as_str(), "..((", self.text_of(end));
                replacement.append(") + 1)");
                self.emit(frame, found, "range.exclusive_to_inclusive", e, replacement.as_str(), 0, Shape::Expr);
            }
            self.perturb(frame, found, end);
        }
        if let Some(start) = e.get_first(0) {
            self.perturb(frame, found, start);
        }
        proof {
            assert(offers(found@) =~= before + range_offers(self@, frame@, *e, closed));
        }
    }

    /// Offers what a `continue` offers.
    ///
    /// A label on a `continue` can only name a loop, so the same label is always valid on a `break`.
    fn go_on(&self, frame: &Frame<'a>, found: &mut Vec<Candidate>, e: &Node)
        ensures
            offers(final(found)@) == offers(old(found)@) + continue_offers(self@, frame@, *e),
    {
        proof {
            assert(offers(found@) + Seq::<Offer>::empty() =~= offers(found@));
        }
        let target = predicates::label_of(e);
        let size: usize = frame.loops.len();
        let needed = match target {
            Some(target) => find_value(&frame.loops, target),
            None => size > 0 && frame.loops[size - 1].1,
        };
        if needed {
            return;
        }
        let replacement = match target {
            Some(target) => text::joined("break '", target),
            None => text::owned("break"),
        };
        self.emit(frame, found, "loop.continue_to_break", e, replacement.as_str(), 0, Shape::Continue);
    }
}

// ---- Calls. ----

/// What is offered for a call: its arguments perturbed, and, for `Some`, `Ok` and `Err` of one
/// value, the opposite.
pub open spec fn call_offers(s: Setting, c: Scope, e: Node) -> Seq<Offer> {
    if e.kids@.len() == 0 {
        Seq::empty()
    } else {
        let callee = called_name(e.kids@[0]);
        perturbed_arguments(s, c, callee, e.all_of(1)) + (if e.all_of(1).len() != 1 {
            Seq::empty()
        } else if callee == Some("Some"@) {
            offer_over(s, c, "option.some_to_none"@, e, "None"@, 0, Shape::Expr)
        } else if callee == Some("Ok"@) && !c.foreign_error_return {
            offer_over(s, c, "result.ok_to_err"@, e, "Err(Default::default())"@, 0, Shape::Expr)
        } else if callee == Some("Err"@) {
            offer_over(s, c, "result.err_to_ok"@, e, "Ok(Default::default())"@, 0, Shape::Expr)
        } else {
            Seq::empty()
        })
    }
}

/// What is offered for a method call: its arguments perturbed, and the method renamed.
pub open spec fn method_offers(s: Setting, c: Scope, e: Node) -> Seq<Offer> {
    perturbed_arguments(s, c, Some(e.word(1)), e.all_of(3)) + rename_offers(s, c, e, e.word(1))
}

/// What is offered for a path: a value in place of `None`.
pub open spec fn path_offers(s: Setting, c: Scope, e: Node) -> Seq<Offer> {
    if e.kid(1) matches Some(path) && path_ident(path) == Some("None"@) {
        offer_over(s, c, "option.none_to_some"@, e, "Some(Default::default())"@, 0, Shape::Expr)
    } else {
        Seq::empty()
    }
}

/// What is offered for an assignment: the default in place of the value, unless it is that already.
pub open spec fn assign_offers(s: Setting, c: Scope, e: Node) -> Seq<Offer> {
    match e.kid(1) {
        Some(value) => if default_call(value, s.spellings, c.defaulted) {
            Seq::empty()
        } else {
            offer_over(s, c, "assign_value.default"@, value, "Default::default()"@, 0, Shape::Expr)
        },
        None => Seq::empty(),
    }
}

/// What is offered for a `return`: its value perturbed, where the function returns a number and the
/// value is no integer literal.
pub open spec fn return_offers(s: Setting, c: Scope, e: Node) -> Seq<Offer> {
    match e.first_of(0) {
        Some(value) => if c.numeric_return && !is_integer(value) {
            perturbed(s, c, value)
        } else {
            Seq::empty()
        },
        None => Seq::empty(),
    }
}

impl<'a> Lens<'a> {
    /// Offers the perturbations for the arguments that stand in a part of a call.
    fn perturb_listed(&self, frame: &Frame<'a>, found: &mut Vec<Candidate>, callee: Option<&str>, e: &Node, at: usize)
        ensures
            offers(final(found)@) == offers(old(found)@) + perturbed_arguments(self@, frame@, viewed(callee), e.all_of(at as int)),
    {
        match e.get(at) {
            Some(list) => {
                self.perturb_arguments(frame, found, callee, &list.kids);
            },
            None => {
                proof {
                    assert(offers(found@) + Seq::<Offer>::empty() =~= offers(found@));
                }
            },
        }
    }

    /// Offers what a call offers.
    ///
    /// `Some(v)`, `Ok(v)` and `Err(v)` decide, at the point it is decided, whether a value is
    /// present and whether an operation succeeded.
    fn call(&self, frame: &Frame<'a>, found: &mut Vec<Candidate>, e: &Node)
        ensures
            offers(final(found)@) == offers(old(found)@) + call_offers(self@, frame@, *e),
    {
        let ghost before = offers(found@);
        if e.kids.len() == 0 {
            proof {
                assert(before + Seq::<Offer>::empty() =~= before);
            }
            return;
        }
        let callee = predicates::callee_name(&e.kids[0]);
        self.perturb_listed(frame, found, callee, e, 1);
        if e.count_of(1) == 1 {
            if let Some(name) = callee {
                if text::same(name, "Some") {
                    self.emit(frame, found, "option.some_to_none", e, "None", 0, Shape::Expr);
                } else if text::same(name, "Ok") && !frame.foreign_error_return {
                    self.emit(frame, found, "result.ok_to_err", e, "Err(Default::default())", 0, Shape::Expr);
                } else if text::same(name, "Err") {
                    self.emit(frame, found, "result.err_to_ok", e, "Ok(Default::default())", 0, Shape::Expr);
                }
            }
        }
        proof {
            assert(offers(found@) =~= before + call_offers(self@, frame@, *e));
        }
    }

    /// Offers what a method call offers.
    fn method(&self, frame: &Frame<'a>, found: &mut Vec<Candidate>, e: &Node)
        ensures
            offers(final(found)@) == offers(old(found)@) + method_offers(self@, frame@, *e),
    {
        let ghost before = offers(found@);
        let name = e.get_word(1);
        self.perturb_listed(frame, found, Some(name), e, 3);
        self.rename_method(frame, found, e, name);
        proof {
            assert(offers(found@) =~= before + method_offers(self@, frame@, *e));
        }
    }

    /// Offers what an assignment offers.
    ///
    /// What is assigned is what the rest of the function reads, so replacing it with the type's
    /// default asks whether anything downstream depends on the value rather than the write.
    fn assign(&self, frame: &Frame<'a>, found: &mut Vec<Candidate>, e: &Node)
        ensures
            offers(final(found)@) == offers(old(found)@) + assign_offers(self@, frame@, *e),
    {
        proof {
            assert(offers(found@) + Seq::<Offer>::empty() =~= offers(found@));
        }
        if let Some(value) = e.get(1) {
            if !predicates::is_default_call(value, &self.paths, &frame.defaulted) {
                self.emit(frame, found, "assign_value.default", value, "Default::default()", 0, Shape::Expr);
            }
        }
    }
}

// ---- Literals. ----

/// The number that decimal digits are, if it is one that 63 bits can hold.
pub open spec fn parsed(digits: Seq<char>) -> Option<nat>
    decreases digits.len(),
{
    if digits.len() == 0 {
        Some(0)
    } else {
        match parsed(digits.drop_last()) {
            Some(before) => if '0' <= digits.last() <= '9' && before * 10 + (digits.last() as u32 - 48) <= i64::MAX {
                Some((before * 10 + (digits.last() as u32 - 48)) as nat)
            } else {
                None
            },
            None => None,
        }
    }
}

/// The number before another, as it is written.
pub open spec fn one_less(value: nat) -> Seq<char> {
    if value == 0 {
        "-1"@
    } else {
        decimal((value - 1) as nat)
    }
}

/// What is offered for the neighbours of an integer literal. An unsigned zero has none below it.
pub open spec fn neighbour_offers(s: Setting, c: Scope, e: Node, digits: Seq<char>, suffix: Seq<char>) -> Seq<Offer> {
    match parsed(digits) {
        Some(value) => if digits.len() == 0 {
            Seq::empty()
        } else {
            (if value < i64::MAX {
                offer_over(s, c, "literal.int_increment"@, e, decimal(value + 1), 2, Shape::Expr)
            } else {
                Seq::empty()
            }) + (if digits == "0"@ && begins(suffix, "u"@) {
                Seq::empty()
            } else {
                offer_over(s, c, "literal.int_decrement"@, e, one_less(value), 3, Shape::Expr)
            })
        },
        None => Seq::empty(),
    }
}

/// What is offered for a literal: the neighbours of an integer, then zero and one; the other
/// boolean; and for a string the empty one and the marker.
pub open spec fn literal_offers(s: Setting, c: Scope, e: Node) -> Seq<Offer> {
    match e.kid(0) {
        Some(lit) => match lit.kind {
            Kind::LitInt => neighbour_offers(s, c, e, lit.word(0), lit.word(1)) + (if lit.word(0) == "0"@ {
                Seq::empty()
            } else {
                offer_over(s, c, "literal.int_to_zero"@, e, "0"@, 0, Shape::Expr)
            }) + (if lit.word(0) == "1"@ {
                Seq::empty()
            } else {
                offer_over(s, c, "literal.int_to_one"@, e, "1"@, 1, Shape::Expr)
            }),
            Kind::LitBool { value } => offer_over(
                s,
                c,
                "literal.bool_flip"@,
                e,
                if value {
                    "false"@
                } else {
                    "true"@
                },
                0,
                Shape::Expr,
            ),
            Kind::LitStr => (if lit.word(0).len() == 0 {
                Seq::empty()
            } else {
                offer_over(s, c, "literal.str_to_empty"@, e, "\"\""@, 0, Shape::Expr)
            }) + (if lit.word(0) == XYZZY@ {
                Seq::empty()
            } else {
                offer_over(s, c, "literal.str_to_xyzzy"@, e, "\"xyzzy\""@, 1, Shape::Expr)
            }),
            _ => Seq::empty(),
        },
        None => Seq::empty(),
    }
}

/// The number that decimal digits are, if it is one that 63 bits can hold.
fn parse(digits: &str) -> (r: Option<u64>)
    ensures
        match r {
            Some(value) => parsed(digits@) == Some(value as nat) && value <= i64::MAX,
            None => parsed(digits@) is None,
        },
{
    let chars = text::characters(digits);
    let ghost all = digits@;
    let mut value: u64 = 0;
    let mut fits = true;
    proof {
        assert(all.take(0) =~= Seq::<char>::empty());
    }
    for at in 0..chars.len()
        invariant
            chars@ == all,
            value <= i64::MAX,
            fits ==> parsed(all.take(at as int)) == Some(value as nat),
            !fits ==> parsed(all.take(at as int)) is None,
    {
        proof {
            assert(all.take(at + 1).drop_last() =~= all.take(at as int));
            assert(all.take(at + 1).last() == chars@[at as int]);
        }
        let c = chars[at];
        if fits && '0' <= c && c <= '9' {
            let digit: u64 = (c as u32 - 48) as u64;
            if value <= (i64::MAX as u64 - digit) / 10 {
                value = value * 10 + digit;
            } else {
                fits = false;
            }
        } else {
            fits = false;
        }
    }
    proof {
        assert(all.take(all.len() as int) =~= all);
    }
    if fits {
        Some(value)
    } else {
        None
    }
}

/// A number as it is written.
fn write(value: u64) -> (r: String)
    ensures
        r@ == decimal(value as nat),
{
    let mut out = text::owned("");
    proof {
        reveal_strlit("");
    }
    text::push_decimal(&mut out, value);
    proof {
        assert(out@ =~= decimal(value as nat));
    }
    out
}

impl<'a> Lens<'a> {
    /// Offers the neighbours of an integer literal.
    ///
    /// They go before the values, so that where they collide on a small literal the name that
    /// survives is the one a reader checking a boundary is looking for.
    fn neighbours(&self, frame: &Frame<'a>, found: &mut Vec<Candidate>, e: &Node, digits: &str, suffix: &str)
        ensures
            offers(final(found)@) == offers(old(found)@) + neighbour_offers(self@, frame@, *e, digits@, suffix@),
    {
        let ghost before = offers(found@);
        if let Some(value) = parse(digits) {
            if !digits.is_empty() {
                if value < i64::MAX as u64 {
                    self.emit(frame, found, "literal.int_increment", e, write(value + 1).as_str(), 2, Shape::Expr);
                }
                if !(text::same(digits, "0") && text::starts_with(suffix, "u")) {
                    let decremented = if value == 0 {
                        text::owned("-1")
                    } else {
                        write(value - 1)
                    };
                    self.emit(frame, found, "literal.int_decrement", e, decremented.as_str(), 3, Shape::Expr);
                }
            }
        }
        proof {
            assert(offers(found@) =~= before + neighbour_offers(self@, frame@, *e, digits@, suffix@));
        }
    }

    /// Offers what a literal offers.
    fn literal(&self, frame: &Frame<'a>, found: &mut Vec<Candidate>, e: &Node)
        ensures
            offers(final(found)@) == offers(old(found)@) + literal_offers(self@, frame@, *e),
    {
        let ghost before = offers(found@);
        if let Some(lit) = e.get(0) {
            match lit.kind {
                Kind::LitInt => {
                    let digits = lit.get_word(0);
                    self.neighbours(frame, found, e, digits, lit.get_word(1));
                    if !text::same(digits, "0") {
                        self.emit(frame, found, "literal.int_to_zero", e, "0", 0, Shape::Expr);
                    }
                    if !text::same(digits, "1") {
                        self.emit(frame, found, "literal.int_to_one", e, "1", 1, Shape::Expr);
                    }
                },
                Kind::LitBool { value } => {
                    let flipped = if value {
                        "false"
                    } else {
                        "true"
                    };
                    self.emit(frame, found, "literal.bool_flip", e, flipped, 0, Shape::Expr);
                },
                Kind::LitStr => {
                    let text = lit.get_word(0);
                    if !text.is_empty() {
                        self.emit(frame, found, "literal.str_to_empty", e, "\"\"", 0, Shape::Expr);
                    }
                    if !text::same(text, XYZZY) {
                        self.emit(frame, found, "literal.str_to_xyzzy", e, "\"xyzzy\"", 1, Shape::Expr);
                    }
                },
                _ => {},
            }
        }
        proof {
            assert(offers(found@) =~= before + literal_offers(self@, frame@, *e));
        }
    }
}

// ---- All of them. ----

/// What an expression itself offers.
pub open spec fn own_offers(s: Setting, c: Scope, e: Node) -> Seq<Offer> {
    match e.kind {
        Kind::Binary => binary_offers(s, c, e),
        Kind::Negate | Kind::Not => unary_offers(s, c, e),
        Kind::If => match e.kid(0) {
            Some(condition) => condition_offers(s, c, "cond.negate"@, "cond.always_true"@, "cond.always_false"@, condition),
            None => Seq::empty(),
        },
        Kind::While => match e.kid(1) {
            Some(condition) => if binding(condition) {
                Seq::empty()
            } else {
                negated(s, c, "cond.negate"@, condition)
            },
            None => Seq::empty(),
        },
        Kind::Match => match_offers(s, c, e.all_of(1)),
        Kind::StructExpr => struct_offers(s, c, e),
        Kind::Range { closed } => range_offers(s, c, e, closed),
        Kind::Break => break_offers(s, c, e),
        Kind::Continue => continue_offers(s, c, e),
        Kind::Call => call_offers(s, c, e),
        Kind::PathExpr => path_offers(s, c, e),
        Kind::Assign => assign_offers(s, c, e),
        Kind::MethodCall => method_offers(s, c, e),
        Kind::Index => match e.kid(1) {
            Some(index) => perturbed_if_known(s, c, index),
            None => Seq::empty(),
        },
        Kind::Return => return_offers(s, c, e),
        Kind::Lit => literal_offers(s, c, e),
        _ => Seq::empty(),
    }
}

impl<'a> Lens<'a> {
    /// Offers what an expression itself offers.
    pub fn expression(&self, frame: &Frame<'a>, found: &mut Vec<Candidate>, e: &Node)
        ensures
            offers(final(found)@) == offers(old(found)@) + own_offers(self@, frame@, *e),
    {
        proof {
            assert(offers(found@) + Seq::<Offer>::empty() =~= offers(found@));
        }
        match e.kind {
            Kind::Binary => self.binary(frame, found, e),
            Kind::Negate | Kind::Not => self.unary(frame, found, e),
            Kind::If => {
                if let Some(condition) = e.get(0) {
                    self.condition(frame, found, "cond.negate", "cond.always_true", "cond.always_false", condition);
                }
            },
            Kind::While => {
                if let Some(condition) = e.get(1) {
                    if !predicates::binds_a_pattern(condition) {
                        self.negate(frame, found, "cond.negate", condition);
                    }
                }
            },
            Kind::Match => {
                if let Some(arms) = e.get(1) {
                    self.match_arms(frame, found, &arms.kids);
                }
            },
            Kind::StructExpr => self.struct_fields(frame, found, e),
            Kind::Range { closed } => self.range(frame, found, e, closed),
            Kind::Break => {
                if e.get_first(0).is_none() && e.get_first(1).is_none() {
                    self.emit(frame, found, "loop.break_to_continue", e, "continue", 0, Shape::Break);
                }
            },
            Kind::Continue => self.go_on(frame, found, e),
            Kind::Call => self.call(frame, found, e),
            Kind::PathExpr => {
                if let Some(path) = e.get(1) {
                    if query::is_ident(path, "None") {
                        self.emit(frame, found, "option.none_to_some", e, "Some(Default::default())", 0, Shape::Expr);
                    }
                }
            },
            Kind::Assign => self.assign(frame, found, e),
            Kind::MethodCall => self.method(frame, found, e),
            Kind::Index => {
                if let Some(index) = e.get(1) {
                    self.perturb(frame, found, index);
                }
            },
            Kind::Return => {
                if let Some(value) = e.get_first(0) {
                    if frame.numeric_return && !is_bare_integer(value) {
                        self.perturb_proven(frame, found, value);
                    }
                }
            },
            Kind::Lit => self.literal(frame, found, e),
            _ => {},
        }
    }
}

} // verus!
