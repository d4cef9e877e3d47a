//! What is offered at each kind of site.
use super::naming::source_of;
use super::predicates;
use super::predicates::{capacity_result, diverging, reserves_room, textual};
use super::resolve;
use super::resolve::{is_number, output_class, Class};
use super::scope::{known_numeric, latest, number, offer_over, ordinal, typing, Frame, Lens, Scope, Setting};
use super::tables;
use super::tables::reorder;
use super::types::{undefaulted_parameters, undefaulted_params, Types};
use super::values;
use super::values::{read_values, return_values_of, Value};
use crate::ops::collect::candidate::{offers, Candidate, Offer};
use crate::ops::collect::defaults::copied;
use crate::ops::collect::stated;
use crate::ops::collect::stated::stated_span;
use crate::ops::collect::Shape;
use crate::syntax::query;
use crate::syntax::query::path_ident;
use crate::syntax::tree::{Kind, Node};
use crate::text;
use crate::text::{slice, strings};
use vstd::prelude::*;

verus! {

/// A text between two others.
pub(crate) fn around(before: &str, middle: &str, after: &str) -> (r: String)
    ensures
        r@ == before@ + middle@ + after@,
{
    let mut out = text::owned(before);
    out.append(middle);
    out.append(after);
    out
}

// ---- Perturbations. ----

/// What is offered for an expression that is a number: one more and one less.
///
/// Nothing for one that is never left with a value, and nothing for a result that only reserves
/// room.
pub open spec fn perturbed(s: Setting, c: Scope, e: Node) -> Seq<Offer> {
    let source = source_of(s.text, e);
    if diverging(e) || capacity_result(e) || source.len() == 0 {
        Seq::empty()
    } else {
        offer_over(s, c, "expr.increment"@, e, "("@ + source + ") + 1"@, 0, Shape::Expr) + offer_over(
            s,
            c,
            "expr.decrement"@,
            e,
            "("@ + source + ") - 1"@,
            1,
            Shape::Expr,
        )
    }
}

/// What is offered for an expression if the source says that it is a number.
pub open spec fn perturbed_if_known(s: Setting, c: Scope, e: Node) -> Seq<Offer> {
    if known_numeric(s, c, e) && !textual(e) {
        perturbed(s, c, e)
    } else {
        Seq::empty()
    }
}

/// What is offered for each of several expressions.
pub open spec fn perturbed_each(s: Setting, c: Scope, args: Seq<Node>) -> Seq<Offer>
    decreases args.len(),
{
    if args.len() == 0 {
        Seq::empty()
    } else {
        perturbed_each(s, c, args.drop_last()) + perturbed_if_known(s, c, args.last())
    }
}

/// What is offered for the arguments of a call, unless they only reserve room.
pub open spec fn perturbed_arguments(s: Setting, c: Scope, callee: Option<Seq<char>>, args: Seq<Node>) -> Seq<Offer> {
    if callee matches Some(name) && reserves_room(name) {
        Seq::empty()
    } else {
        perturbed_each(s, c, args)
    }
}

impl<'a> Lens<'a> {
    /// Offers the perturbations for an expression the surrounding code has already typed.
    pub fn perturb_proven(&self, frame: &Frame<'a>, found: &mut Vec<Candidate>, e: &Node)
        ensures
            offers(final(found)@) == offers(old(found)@) + perturbed(self@, frame@, *e),
    {
        let ghost before = offers(found@);
        let source = self.text_of(e);
        if predicates::diverges(e) || predicates::is_capacity_result(e) || source.is_empty() {
            proof {
                assert(before + Seq::<Offer>::empty() =~= before);
            }
            return;
        }
        let incremented = around("(", source, ") + 1");
        let decremented = around("(", source, ") - 1");
        self.emit(frame, found, "expr.increment", e, incremented.as_str(), 0, Shape::Expr);
        self.emit(frame, found, "expr.decrement", e, decremented.as_str(), 1, Shape::Expr);
        proof {
            assert(offers(found@) =~= before + perturbed(self@, frame@, *e));
        }
    }

    /// Offers `+ 1` and `- 1` for one expression, in a position where a boundary is being decided.
    pub fn perturb(&self, frame: &Frame<'a>, found: &mut Vec<Candidate>, e: &Node)
        ensures
            offers(final(found)@) == offers(old(found)@) + perturbed_if_known(self@, frame@, *e),
    {
        if self.is_known_numeric(frame, e) && !predicates::is_textual(e) {
            self.perturb_proven(frame, found, e);
        } else {
            proof {
                assert(offers(found@) + Seq::<Offer>::empty() =~= offers(found@));
            }
        }
    }

    /// Offers the perturbations for every argument of a call, unless the callee is one whose
    /// arguments are a performance decision rather than a behavioural one.
    pub fn perturb_arguments(&self, frame: &Frame<'a>, found: &mut Vec<Candidate>, callee: Option<&str>, args: &Vec<Node>)
        ensures
            offers(final(found)@) == offers(old(found)@) + perturbed_arguments(self@, frame@, text::viewed(callee), args@),
    {
        let ghost before = offers(found@);
        if let Some(name) = callee {
            if predicates::is_capacity_call(name) {
                proof {
                    assert(before + Seq::<Offer>::empty() =~= before);
                }
                return;
            }
        }
        proof {
            assert(args@.take(0) =~= Seq::<Node>::empty());
            assert(offers(found@) =~= before + perturbed_each(self@, frame@, args@.take(0)));
        }
        for at in 0..args.len()
            invariant
                offers(found@) == before + perturbed_each(self@, frame@, args@.take(at as int)),
        {
            proof {
                assert(args@.take(at + 1).drop_last() =~= args@.take(at as int));
            }
            self.perturb(frame, found, &args[at]);
            proof {
                assert(offers(found@) =~= before + perturbed_each(self@, frame@, args@.take(at + 1)));
            }
        }
        proof {
            assert(args@.take(args@.len() as int) =~= args@);
        }
    }
}

// ---- Functions. ----

/// The last expression of a body, if it is what the body evaluates to.
pub open spec fn trailing(body: Node) -> Option<Node> {
    if body.kids@.len() > 0 && body.kids@.last().kind == (Kind::StmtExpr { semi: false }) {
        body.kids@.last().kid(0)
    } else {
        None
    }
}

/// Whether an expression is an integer literal itself.
pub open spec fn is_integer(e: Node) -> bool {
    e.kind == Kind::Lit && (e.kid(0) matches Some(lit) && lit.kind == Kind::LitInt)
}

/// What is offered for the value that a body of a numeric function ends on.
pub open spec fn ending(s: Setting, c: Scope, body: Node, output: Node) -> Seq<Offer> {
    if output_class(output) matches Some(class) && is_number(class) {
        match trailing(body) {
            Some(e) => if is_integer(e) {
                Seq::empty()
            } else {
                perturbed(s, c, e)
            },
            None => Seq::empty(),
        }
    } else {
        Seq::empty()
    }
}

/// What is offered for the values that a return type admits.
pub open spec fn guessed(s: Setting, c: Scope, body: Node, values: Seq<Value>, recursive: bool, shape: Shape) -> Seq<Offer>
    decreases values.len(),
{
    if values.len() == 0 {
        Seq::empty()
    } else {
        let before = guessed(s, c, body, values.drop_last(), recursive, shape);
        let (mutator, text) = values.last();
        if recursive && mutator == "fn_value.default"@ {
            before
        } else {
            before + offer_over(s, c, mutator, body, text, ordinal(values.len() - 1), shape)
        }
    }
}

/// What is offered for the error values that are supplied; their indices follow those of the values.
pub open spec fn failing(s: Setting, c: Scope, body: Node, errors: Seq<Seq<char>>, count: nat) -> Seq<Offer>
    decreases errors.len(),
{
    if errors.len() == 0 {
        Seq::empty()
    } else {
        failing(s, c, body, errors.drop_last(), count) + offer_over(
            s,
            c,
            "fn_value.err_with"@,
            body,
            "Err("@ + errors.last() + ")"@,
            ordinal(count + errors.len() - 1),
            Shape::Block,
        )
    }
}

/// How the body of a function is guarded.
pub open spec fn body_shape(output: Node) -> Shape {
    if output_class(output) == Some(Class::Iterator) {
        Shape::IterBlock
    } else {
        Shape::Block
    }
}

/// The values that a function's return type admits.
pub open spec fn values_at(s: Setting, c: Scope, sig: Node) -> Seq<Value> {
    return_values_of(sig.kids@[3], typing(s, c, c.generics + undefaulted_params(sig.kids@[1], s.spellings)))
}

/// The value that is stated for a function, if one is and the run asks for it.
pub open spec fn stated_at(s: Setting, attrs: Seq<Node>) -> Option<(int, int)> {
    if s.selection.contains("fn_value.stated"@) {
        stated_span(attrs)
    } else {
        None
    }
}

/// Whether a function is the one that `Default::default()` would call.
pub open spec fn is_recursive(c: Scope, sig: Node) -> bool {
    c.in_default_impl && sig.word(0) == "default"@
}

/// What is offered for the body of a function: what it ends on, the values its return type admits or
/// the one that is stated in their place, and the errors that are supplied.
///
/// Nothing for a `const fn`, and nothing for an empty body.
pub open spec fn function_offers(s: Setting, c: Scope, attrs: Seq<Node>, sig: Node, body: Node) -> Seq<Offer> {
    if sig.kind == (Kind::Signature { constant: true }) || body.kids@.len() == 0 || sig.kids@.len() != 4 {
        Seq::empty()
    } else {
        let output = sig.kids@[3];
        let values = values_at(s, c, sig);
        ending(s, c, body, output) + (match stated_at(s, attrs) {
            Some((from, to)) => offer_over(s, c, "fn_value.stated"@, body, slice(s.text, from, to), 0, body_shape(output)),
            None => guessed(s, c, body, values, is_recursive(c, sig), body_shape(output)),
        }) + (if output_class(output) == Some(Class::Result) {
            failing(s, c, body, s.errors, values.len())
        } else {
            Seq::empty()
        })
    }
}

/// Whether an expression is an integer literal itself.
pub(crate) fn is_bare_integer(e: &Node) -> (r: bool)
    ensures
        r == is_integer(*e),
{
    match e.kind {
        Kind::Lit => match e.get(0) {
            Some(lit) => lit.kind == Kind::LitInt,
            None => false,
        },
        _ => false,
    }
}

impl<'a> Lens<'a> {
    /// Offers the perturbations for the value that a body of a numeric function ends on.
    fn end(&self, frame: &Frame<'a>, found: &mut Vec<Candidate>, body: &Node, output: &Node)
        ensures
            offers(final(found)@) == offers(old(found)@) + ending(self@, frame@, *body, *output),
    {
        let ghost before = offers(found@);
        proof {
            assert(before + Seq::<Offer>::empty() =~= before);
        }
        let size: usize = body.kids.len();
        if size == 0 || !resolve::is_numeric_return(output) || body.kids[size - 1].kind != (Kind::StmtExpr { semi: false }) {
            return;
        }
        if let Some(e) = body.kids[size - 1].get(0) {
            if !is_bare_integer(e) {
                self.perturb_proven(frame, found, e);
            }
        }
    }

    /// Offers the values that a return type admits.
    fn guess(
        &self,
        frame: &Frame<'a>,
        found: &mut Vec<Candidate>,
        body: &Node,
        values: &Vec<(&'static str, String)>,
        recursive: bool,
        shape: Shape,
    )
        ensures
            offers(final(found)@) == offers(old(found)@) + guessed(self@, frame@, *body, read_values(values@), recursive, shape),
    {
        let ghost before = offers(found@);
        let ghost all = read_values(values@);
        proof {
            assert(all.take(0) =~= Seq::<Value>::empty());
            assert(offers(found@) =~= before + guessed(self@, frame@, *body, all.take(0), recursive, shape));
        }
        for at in 0..values.len()
            invariant
                all == read_values(values@),
                offers(found@) == before + guessed(self@, frame@, *body, all.take(at as int), recursive, shape),
        {
            proof {
                assert(all.take(at + 1).drop_last() =~= all.take(at as int));
                assert(all.take(at + 1).last() == (values@[at as int].0@, values@[at as int].1@));
            }
            if !(recursive && text::same(values[at].0, "fn_value.default")) {
                self.emit(frame, found, values[at].0, body, values[at].1.as_str(), number(at), shape);
                proof {
                    assert(offers(found@) =~= before + guessed(self@, frame@, *body, all.take(at + 1), recursive, shape));
                }
            }
        }
        proof {
            assert(all.take(all.len() as int) =~= all);
        }
    }

    /// Offers the error values that are supplied.
    ///
    /// Their indices continue those of the values, so that adding one does not renumber the mutants
    /// already generated at this site.
    fn fail(&self, frame: &Frame<'a>, found: &mut Vec<Candidate>, body: &Node, count: usize)
        ensures
            offers(final(found)@) == offers(old(found)@) + failing(self@, frame@, *body, self@.errors, count as nat),
    {
        let ghost before = offers(found@);
        let ghost all = self@.errors;
        proof {
            assert(all.take(0) =~= Seq::<Seq<char>>::empty());
            assert(offers(found@) =~= before + failing(self@, frame@, *body, all.take(0), count as nat));
        }
        for at in 0..self.errors.len()
            invariant
                all == strings(self.errors@),
                offers(found@) == before + failing(self@, frame@, *body, all.take(at as int), count as nat),
        {
            proof {
                assert(all.take(at + 1).drop_last() =~= all.take(at as int));
                assert(all.take(at + 1).last() == self.errors@[at as int]@);
            }
            let replacement = around("Err(", self.errors[at].as_str(), ")");
            let index: u32 = match count.checked_add(at) {
                Some(index) => number(index),
                None => u32::MAX,
            };
            self.emit(frame, found, "fn_value.err_with", body, replacement.as_str(), index, Shape::Block);
            proof {
                assert(offers(found@) =~= before + failing(self@, frame@, *body, all.take(at + 1), count as nat));
            }
        }
        proof {
            assert(all.take(all.len() as int) =~= all);
        }
    }

    /// Offers the function-value mutants for a function with the given signature and body.
    ///
    /// The bluntest question that can be asked of a test suite: replacing a whole function body
    /// with a plausible constant asks whether the suite looks at the answer at all.
    pub fn function(&self, frame: &Frame<'a>, found: &mut Vec<Candidate>, attrs: &Vec<Node>, sig: &Node, body: &Node)
        ensures
            offers(final(found)@) == offers(old(found)@) + function_offers(self@, frame@, attrs@, *sig, *body),
    {
        let ghost before = offers(found@);
        if sig.kind == (Kind::Signature { constant: true }) || body.kids.len() == 0 || sig.kids.len() != 4 {
            proof {
                assert(before + Seq::<Offer>::empty() =~= before);
            }
            return;
        }
        let output = &sig.kids[3];
        let shape = match output.get(0) {
            Some(ty) => if matches!(resolve::resolve_type(ty), Class::Iterator) {
                Shape::IterBlock
            } else {
                Shape::Block
            },
            None => Shape::Block,
        };
        let mut abstracts: Vec<String> = Vec::new();
        copied(&frame.generics, 0, &mut abstracts);
        let own = undefaulted_parameters(&sig.kids[1], &self.paths);
        copied(&own, 0, &mut abstracts);
        proof {
            assert(strings(abstracts@) =~= frame@.generics + undefaulted_params(sig.kids@[1], self@.spellings));
        }
        let types = Types {
            abstracts: &abstracts,
            imports: &self.indexes.imports,
            defaults: self.defaults,
            self_type: frame.self_type,
            implementation: frame.implementation,
        };
        let values = values::return_values(output, &types);
        let recursive = frame.in_default_impl && text::same(sig.get_word(0), "default");
        self.end(frame, found, body, output);
        let stated = if self.wants("fn_value.stated") {
            stated::stated_range(attrs)
        } else {
            None
        };
        match stated {
            Some(range) => {
                let expression = text::between(self.text, range.start, range.end);
                self.emit(frame, found, "fn_value.stated", body, expression, 0, shape);
            },
            None => {
                self.guess(frame, found, body, &values, recursive, shape);
            },
        }
        if resolve::returns_result(output) {
            self.fail(frame, found, body, values.len());
        }
        proof {
            assert(read_values(values@) == values_at(self@, frame@, *sig));
            assert(offers(found@) =~= before + function_offers(self@, frame@, attrs@, *sig, *body));
        }
    }
}

// ---- Statements. ----

/// Whether the target of an assignment is a binding that was declared without a value.
pub open spec fn initializes_deferred(c: Scope, target: Node) -> bool {
    target.kind == Kind::PathExpr && (target.kid(1) matches Some(path) && (path_ident(path) matches Some(name) && latest(
        c.deferred,
        name,
    ) == Some(true)))
}

/// The mutator that deletes a statement of an expression, if one does.
pub open spec fn deletion(c: Scope, e: Node) -> Option<Seq<char>> {
    match e.kind {
        Kind::Call | Kind::MethodCall => match reorder(e) {
            Some(mutator) => Some(mutator),
            None => Some("stmt.delete_call"@),
        },
        Kind::Assign => if e.kid(0) matches Some(target) && initializes_deferred(c, target) {
            None
        } else {
            Some("stmt.delete_assign"@)
        },
        Kind::Binary => match e.kid(1) {
            Some(operator) => match operator.kind {
                Kind::Operator(op) => if predicates::assigning(op) {
                    Some("stmt.delete_assign"@)
                } else {
                    None
                },
                _ => None,
            },
            None => None,
        },
        Kind::Break => if e.first_of(1) is None {
            Some("loop.delete_break"@)
        } else {
            None
        },
        Kind::Continue => Some("loop.delete_continue"@),
        _ => None,
    }
}

/// What is offered for a statement whose value is discarded.
pub open spec fn statement_offers(s: Setting, c: Scope, statement: Node) -> Seq<Offer> {
    if statement.kind == (Kind::StmtExpr { semi: true }) && statement.kids@.len() > 0 {
        match deletion(c, statement.kids@[0]) {
            Some(mutator) => offer_over(s, c, mutator, statement, ""@, 0, Shape::Stmt),
            None => Seq::empty(),
        }
    } else {
        Seq::empty()
    }
}

/// Whether the target of an assignment is a binding that was declared without a value.
///
/// Only a bare name can be the thing that first gives a deferred `let` its value; assigning
/// through a field, an index or a dereference presupposes that the binding already holds one.
fn is_deferred(frame: &Frame<'_>, target: &Node) -> (r: bool)
    ensures
        r == initializes_deferred(frame@, *target),
{
    match target.kind {
        Kind::PathExpr => match target.get(1) {
            Some(path) => match query::ident_of(path) {
                Some(name) => match super::scope::find_latest(&frame.deferred, name) {
                    Some(deferred) => deferred,
                    None => false,
                },
                None => false,
            },
            None => false,
        },
        _ => false,
    }
}

/// The mutator that deletes a statement of an expression, if one does.
fn deleting(frame: &Frame<'_>, e: &Node) -> (r: Option<&'static str>)
    ensures
        text::viewed(r) == deletion(frame@, *e),
{
    match e.kind {
        Kind::Call | Kind::MethodCall => match tables::in_place_reorder(e) {
            Some(mutator) => Some(mutator),
            None => Some("stmt.delete_call"),
        },
        Kind::Assign => match e.get(0) {
            Some(target) => if is_deferred(frame, target) {
                None
            } else {
                Some("stmt.delete_assign")
            },
            None => Some("stmt.delete_assign"),
        },
        Kind::Binary => match e.get(1) {
            Some(operator) => match operator.kind {
                Kind::Operator(op) => if predicates::is_assign_op(op) {
                    Some("stmt.delete_assign")
                } else {
                    None
                },
                _ => None,
            },
            None => None,
        },
        Kind::Break => if e.get_first(1).is_none() {
            Some("loop.delete_break")
        } else {
            None
        },
        Kind::Continue => Some("loop.delete_continue"),
        _ => None,
    }
}

impl<'a> Lens<'a> {
    /// Offers the statement-deletion mutants for one statement.
    ///
    /// Only statements whose value is discarded are eligible. Deleting a `let` would leave every
    /// later use of the binding unresolved, and deleting a block's trailing expression would change
    /// the block's type.
    pub fn statement(&self, frame: &Frame<'a>, found: &mut Vec<Candidate>, statement: &Node)
        ensures
            offers(final(found)@) == offers(old(found)@) + statement_offers(self@, frame@, *statement),
    {
        proof {
            assert(offers(found@) + Seq::<Offer>::empty() =~= offers(found@));
        }
        if statement.kind == (Kind::StmtExpr { semi: true }) && statement.kids.len() > 0 {
            if let Some(mutator) = deleting(frame, &statement.kids[0]) {
                self.emit(frame, found, mutator, statement, "", 0, Shape::Stmt);
            }
        }
    }
}

} // verus!
