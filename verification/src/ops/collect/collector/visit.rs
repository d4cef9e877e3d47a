//! What a syntax tree offers: everything that each of its sites offers, in the order of the walk.
use super::expressions::own_offers;
use super::gate::{is_left_alone, leaves_alone};
use super::naming;
use super::naming::impl_scope;
use super::predicates;
use super::predicates::{declared, diagnostic, label, produces_value, promotable, stmt_attrs};
use super::resolve;
use super::resolve::{is_number, is_numeric_type_node, output_class};
use super::scope::{entries, known_numeric, typing, Frame, Lens, Scope, Setting};
use super::sites::{function_offers, statement_offers};
use super::splices::elements_offers;
use super::types::{node_of, returns_undefaultable_error, undefaulted_parameters, undefaulted_params, Types};
use crate::ops::collect::candidate::{offers, Candidate, Offer};
use crate::ops::collect::defaults::{defaulted_params, standard_defaulted_parameters};
use crate::syntax::query;
use crate::syntax::query::{last_name, path_ident};
use crate::syntax::tree::{Kind, Node};
use crate::text;
use crate::text::strings;
use vstd::prelude::*;

verus! {

// ---- What is not looked at. ----

/// Whether nothing inside a construct can be guarded.
///
/// A guard is a function call. The initializer of a constant, an enum's discriminant, and every
/// expression reachable from inside a type or a const argument stand in a const context, which
/// disallows one; and a pattern is matched against, not evaluated.
pub open spec fn is_inert(kind: Kind) -> bool {
    match kind {
        Kind::ItemConst | Kind::ItemStatic | Kind::ImplConst | Kind::TraitConst | Kind::Variant | Kind::ArgConst => true,
        Kind::TypeArray
        | Kind::TypeFnPtr
        | Kind::TypeGroup
        | Kind::TypeImplTrait
        | Kind::TypeInfer
        | Kind::TypeMacro
        | Kind::TypeNever
        | Kind::TypeParen
        | Kind::TypePath
        | Kind::TypePtr
        | Kind::TypeReference { .. }
        | Kind::TypeSlice
        | Kind::TypeTraitObject
        | Kind::TypeTuple
        | Kind::TypeOther => true,
        Kind::PatConst
        | Kind::PatGuard
        | Kind::PatIdent
        | Kind::PatLit
        | Kind::PatMacro
        | Kind::PatOr
        | Kind::PatParen
        | Kind::PatPath
        | Kind::PatRange
        | Kind::PatReference
        | Kind::PatRest
        | Kind::PatSlice
        | Kind::PatStruct
        | Kind::PatTuple
        | Kind::PatTupleStruct
        | Kind::PatType
        | Kind::PatWild
        | Kind::PatOther => true,
        _ => false,
    }
}

// ---- Scopes. ----

/// Whether each parameter of a function holds a number.
pub open spec fn parameters(inputs: Seq<Node>) -> Seq<(Seq<char>, bool)>
    decreases inputs.len(),
{
    if inputs.len() == 0 {
        Seq::empty()
    } else {
        let before = parameters(inputs.drop_last());
        let input = inputs.last();
        if input.kind == Kind::Typed && input.kids@.len() == 2 && input.kids@[0].kind == Kind::PatIdent {
            before.push((input.kids@[0].word(0), is_numeric_type_node(input.kids@[1])))
        } else {
            before
        }
    }
}

/// The scope of an item's generics.
pub open spec fn with_defaulted(s: Setting, c: Scope, generics: Option<Node>) -> Scope {
    match generics {
        Some(generics) => Scope { defaulted: c.defaulted + defaulted_params(generics, s.spellings), ..c },
        None => c,
    }
}

/// The generics of a function.
pub open spec fn generics_of(node: Node) -> Option<Node> {
    match node.kid(0) {
        Some(sig) => sig.kid(1),
        None => None,
    }
}

/// The name of a function.
pub open spec fn name_of(node: Node) -> Seq<char> {
    match node.kid(0) {
        Some(sig) => sig.word(0),
        None => Seq::empty(),
    }
}

/// The scope of a function.
pub open spec fn function_scope(s: Setting, c: Scope, node: Node) -> Scope {
    with_defaulted(s, c.inside_item(name_of(node)), generics_of(node))
}

/// The scope inside a function of a signature.
///
/// A function defined inside another one cannot see the outer function's locals.
pub open spec fn body_scope(s: Setting, c: Scope, sig: Node) -> Scope {
    match sig.kid(3) {
        Some(output) => Scope {
            numeric_return: output_class(output) matches Some(class) && is_number(class),
            foreign_error_return: typing(s, c, Seq::empty()).returns_undefaultable_error(output),
            bindings: parameters(sig.all_of(2)),
            deferred: Seq::empty(),
            ..c
        },
        None => c,
    }
}

/// The scope inside an implementation.
pub open spec fn implementation_scope(s: Setting, c: Scope, node: Node) -> Scope {
    match node.kid(0) {
        Some(generics) => Scope {
            trait_impl: match node.first_of(1) {
                Some(path) => last_name(path),
                None => None,
            },
            in_default_impl: node.first_of(1) matches Some(path) && s.spellings.is_fallback(path),
            self_type: node.kid(2),
            implementation: Some(node),
            generics: c.generics + undefaulted_params(generics, s.spellings),
            defaulted: c.defaulted + defaulted_params(generics, s.spellings),
            ..c.inside_item(impl_scope(s.text, node))
        },
        None => c,
    }
}

/// The scope inside a loop.
pub open spec fn loop_scope(c: Scope, node: Node) -> Scope {
    Scope { loops: c.loops.push((label(node), node.kind == Kind::Loop && produces_value(node))), ..c }
}

/// The scope after a `let` has declared its name.
pub open spec fn declaring(c: Scope, statement: Node) -> Scope {
    if statement.kind == Kind::Local && statement.kids@.len() == 3 {
        match declared(statement.kids@[0]) {
            Some(name) => Scope { deferred: c.deferred.push((name, statement.first_of(1) is None)), ..c },
            None => c,
        }
    } else {
        c
    }
}

/// The scope after a `let` has bound its name.
///
/// An annotation says whether the name holds a number. Where there is none, an initialiser that is
/// known to be a number does.
pub open spec fn bound(s: Setting, c: Scope, statement: Node) -> Scope {
    if statement.kind == Kind::Local && statement.kids@.len() == 3 {
        let pat = statement.kids@[0];
        match pat.kind {
            Kind::PatType => if pat.kids@.len() == 2 && pat.kids@[0].kind == Kind::PatIdent {
                c.binding(pat.kids@[0].word(0), is_numeric_type_node(pat.kids@[1]))
            } else {
                c
            },
            Kind::PatIdent => match statement.first_of(1) {
                Some(init) => if statement.first_of(2) is None && known_numeric(s, c, init) {
                    c.binding(pat.word(0), true)
                } else {
                    c
                },
                None => c,
            },
            _ => c,
        }
    } else {
        c
    }
}

/// The scope after statements have declared their names.
pub open spec fn declared_by(s: Setting, c: Scope, statements: Seq<Node>) -> Scope
    decreases statements.len(),
{
    if statements.len() == 0 {
        c
    } else {
        let before = declared_by(s, c, statements.drop_last());
        if s.cfg.skips(stmt_attrs(statements.last())) {
            before
        } else {
            declaring(before, statements.last())
        }
    }
}

/// The scope after statements have bound their names.
pub open spec fn bound_by(s: Setting, c: Scope, statements: Seq<Node>) -> Scope
    decreases statements.len(),
{
    if statements.len() == 0 {
        c
    } else {
        let before = bound_by(s, c, statements.drop_last());
        if s.cfg.skips(stmt_attrs(statements.last())) {
            before
        } else {
            bound(s, before, statements.last())
        }
    }
}

/// What the statements of a block offer for being deleted.
pub open spec fn judged(s: Setting, c: Scope, statements: Seq<Node>) -> Seq<Offer>
    decreases statements.len(),
{
    if statements.len() == 0 {
        Seq::empty()
    } else {
        let before = judged(s, c, statements.drop_last());
        if s.cfg.skips(stmt_attrs(statements.last())) {
            before
        } else {
            before + statement_offers(s, declared_by(s, c, statements.drop_last()), statements.last())
        }
    }
}

// ---- The walk. ----

/// What a macro offers: a `vec!` of several elements, one of them left out. What other macros come to
/// is settled by their expansion.
pub open spec fn macro_offers(s: Setting, c: Scope, node: Node) -> Seq<Offer> {
    if node.kind == Kind::Macro && node.kids@.len() == 2 && path_ident(node.kids@[0]) == Some("vec"@)
        && node.kids@[1].kids@.len() >= 2 {
        elements_offers(s, c, node, node.kids@[1].kids@, node.kids@[1].kids@.len() as int)
    } else {
        Seq::empty()
    }
}

/// What a function offers for its body.
pub open spec fn body_offers(s: Setting, c: Scope, node: Node) -> Seq<Offer> {
    if node.kids@.len() == 2 && node.kids@[1].kids@.len() > 0 {
        function_offers(s, c, node.attrs@, node.kids@[0], node.kids@[1].kids@[0])
    } else {
        Seq::empty()
    }
}

/// What a construct and everything beneath it offers.
pub open spec fn visit(s: Setting, c: Scope, node: Node) -> Seq<Offer>
    decreases node, 1nat,
{
    proof {
        node.lemma_inside();
    }
    if is_inert(node.kind) || is_left_alone(node, s.cfg) {
        Seq::empty()
    } else {
        match node.kind {
            Kind::ItemFn | Kind::ImplFn | Kind::TraitFn => {
                let outer = function_scope(s, c, node);
                body_offers(s, outer, node) + (match node.kid(0) {
                    Some(sig) => if sig.kind == (Kind::Signature { constant: true }) {
                        Seq::empty()
                    } else {
                        visit_all(s, body_scope(s, outer, sig), node.inside())
                    },
                    None => Seq::empty(),
                })
            },
            Kind::ItemMod => visit_all(s, c.inside_item(node.word(0)), node.inside()),
            Kind::ItemTrait => visit_all(s, with_defaulted(s, c.inside_item(node.word(0)), node.kid(1)), node.inside()),
            Kind::ItemImpl => visit_all(s, implementation_scope(s, c, node), node.inside()),
            Kind::Macro => macro_offers(s, c, node),
            Kind::Block => judged(s, c, node.inside()) + walked(s, declared_by(s, c, node.inside()), node.inside()),
            Kind::Local => visit_all(s, bound(s, c, node), node.inside()),
            Kind::Repeat => match node.kid(0) {
                Some(element) => visit(s, c, element),
                None => Seq::empty(),
            },
            Kind::Reference => if node.kid(0) matches Some(borrowed) && promotable(borrowed) {
                Seq::empty()
            } else {
                visit_all(s, c, node.inside())
            },
            Kind::MethodCall => own_offers(s, c, node) + (if diagnostic(node.word(1), node.all_of(3).len()) {
                match node.kid(0) {
                    Some(receiver) => visit(s, c, receiver),
                    None => Seq::empty(),
                }
            } else {
                visit_all(s, c, node.inside())
            }),
            Kind::While | Kind::ForLoop | Kind::Loop => own_offers(s, c, node) + visit_all(s, loop_scope(c, node), node.inside()),
            _ => own_offers(s, c, node) + visit_all(s, c, node.inside()),
        }
    }
}

/// What several constructs and everything beneath them offer.
pub open spec fn visit_all(s: Setting, c: Scope, nodes: Seq<Node>) -> Seq<Offer>
    decreases nodes, 0nat,
{
    if nodes.len() == 0 {
        Seq::empty()
    } else {
        visit_all(s, c, nodes.drop_last()) + visit(s, c, nodes.last())
    }
}

/// What the statements of a block and everything beneath them offer, each in the scope that those
/// before it leave.
pub open spec fn walked(s: Setting, c: Scope, statements: Seq<Node>) -> Seq<Offer>
    decreases statements, 0nat,
{
    if statements.len() == 0 {
        Seq::empty()
    } else {
        let before = walked(s, c, statements.drop_last());
        if s.cfg.skips(stmt_attrs(statements.last())) {
            before
        } else {
            before + visit(s, bound_by(s, c, statements.drop_last()), statements.last())
        }
    }
}


// ---- Walking. ----

/// Whether nothing inside a construct can be guarded.
fn holds_no_site(kind: Kind) -> (r: bool)
    ensures
        r == is_inert(kind),
{
    matches!(
        kind,
        Kind::ItemConst | Kind::ItemStatic | Kind::ImplConst | Kind::TraitConst | Kind::Variant | Kind::ArgConst
            | Kind::TypeArray | Kind::TypeFnPtr | Kind::TypeGroup | Kind::TypeImplTrait | Kind::TypeInfer
            | Kind::TypeMacro | Kind::TypeNever | Kind::TypeParen | Kind::TypePath | Kind::TypePtr
            | Kind::TypeReference { .. } | Kind::TypeSlice | Kind::TypeTraitObject | Kind::TypeTuple
            | Kind::TypeOther | Kind::PatConst | Kind::PatGuard | Kind::PatIdent | Kind::PatLit | Kind::PatMacro
            | Kind::PatOr | Kind::PatParen | Kind::PatPath | Kind::PatRange | Kind::PatReference | Kind::PatRest
            | Kind::PatSlice | Kind::PatStruct | Kind::PatTuple | Kind::PatTupleStruct | Kind::PatType
            | Kind::PatWild | Kind::PatOther
    )
}

impl<'a> Frame<'a> {
    /// Whether two frames hold the same.
    pub open spec fn is_as(self, other: Frame<'a>) -> bool {
        &&& self.scope@ == other.scope@
        &&& self.trait_impl == other.trait_impl
        &&& self.in_default_impl == other.in_default_impl
        &&& self.self_type == other.self_type
        &&& self.implementation == other.implementation
        &&& self.numeric_return == other.numeric_return
        &&& self.foreign_error_return == other.foreign_error_return
        &&& self.bindings@ == other.bindings@
        &&& self.deferred@ == other.deferred@
        &&& self.generics@ == other.generics@
        &&& self.defaulted@ == other.defaulted@
        &&& self.loops@ == other.loops@
    }

    /// The frame outside any item.
    pub fn outermost() -> (r: Frame<'a>)
        ensures
            r@ == Scope::outermost(),
    {
        let r = Frame {
            scope: Vec::new(),
            trait_impl: None,
            in_default_impl: false,
            self_type: None,
            implementation: None,
            numeric_return: false,
            foreign_error_return: false,
            bindings: Vec::new(),
            deferred: Vec::new(),
            generics: Vec::new(),
            defaulted: Vec::new(),
            loops: Vec::new(),
        };
        proof {
            assert(r@ =~= Scope::outermost());
        }
        r
    }

    /// Opens an item of a name.
    fn enter(&mut self, name: &str)
        ensures
            final(self)@ == old(self)@.inside_item(name@),
            final(self).scope@.len() == old(self).scope@.len() + 1,
            final(self).scope@.drop_last() == old(self).scope@,
            final(self).is_as((Frame { scope: final(self).scope, ..*old(self) })),
    {
        let path = match self.scope.last() {
            Some(parent) => {
                let mut path = text::joined(parent.as_str(), "::");
                path.append(name);
                path
            },
            None => text::owned(name),
        };
        self.scope.push(path);
        proof {
            assert(self.scope@.drop_last() =~= old(self).scope@);
            assert(self@ =~= old(self)@.inside_item(name@));
        }
    }

    /// Notes whether a `let` leaves its binding empty for a later assignment to settle.
    ///
    /// Declarations are seen in source order, so re-declaring a name with a value lifts an earlier
    /// deferral, which is what shadowing a deferred binding means.
    fn record_declaration(&mut self, statement: &'a Node)
        ensures
            final(self)@ == declaring(old(self)@, *statement),
            final(self).deferred@.len() >= old(self).deferred@.len(),
            final(self).deferred@.take(old(self).deferred@.len() as int) == old(self).deferred@,
            final(self).is_as((Frame { deferred: final(self).deferred, ..*old(self) })),
    {
        proof {
            assert(self.deferred@.take(self.deferred@.len() as int) =~= self.deferred@);
        }
        if statement.kind == Kind::Local && statement.kids.len() == 3 {
            if let Some(name) = predicates::declared_name(&statement.kids[0]) {
                self.deferred.push((name, statement.get_first(1).is_none()));
                proof {
                    assert(self.deferred@.take(old(self).deferred@.len() as int) =~= old(self).deferred@);
                    assert(self@ =~= declaring(old(self)@, *statement));
                }
            }
        }
    }

    /// Records a name's type evidence.
    fn bind(&mut self, name: &'a str, numeric: bool)
        ensures
            final(self)@ == old(self)@.binding(name@, numeric),
            final(self).bindings@ == old(self).bindings@.push((name, numeric)),
            final(self).is_as((Frame { bindings: final(self).bindings, ..*old(self) })),
    {
        self.bindings.push((name, numeric));
        proof {
            assert(self@ =~= old(self)@.binding(name@, numeric));
        }
    }
}

/// Whether each parameter of a function holds a number.
fn read_parameters<'a>(sig: &'a Node) -> (r: Vec<(&'a str, bool)>)
    ensures
        entries(r@) == parameters(sig.all_of(2)),
{
    let mut list: Vec<(&'a str, bool)> = Vec::new();
    let ghost inputs = sig.all_of(2);
    let count: usize = sig.count_of(2);
    proof {
        assert(inputs.take(0) =~= Seq::<Node>::empty());
        assert(entries(list@) =~= parameters(inputs.take(0)));
    }
    for at in 0..count
        invariant
            inputs == sig.all_of(2),
            count == inputs.len(),
            entries(list@) == parameters(inputs.take(at as int)),
    {
        proof {
            assert(inputs.take(at + 1).drop_last() =~= inputs.take(at as int));
        }
        let input = sig.get_in(2, at);
        if input.kind == Kind::Typed && input.kids.len() == 2 && input.kids[0].kind == Kind::PatIdent {
            let ghost before = entries(list@);
            let entry = (input.kids[0].get_word(0), resolve::is_numeric_binding(&input.kids[1]));
            list.push(entry);
            proof {
                assert(entries(list@) =~= before.push((entry.0@, entry.1)));
            }
        }
    }
    proof {
        assert(inputs.take(inputs.len() as int) =~= inputs);
    }
    list
}

impl<'a> Lens<'a> {
    /// Records the type of a `let`, so that later uses of the name can be judged.
    ///
    /// Most locals carry no annotation, so an initialiser that can already be typed answers the same
    /// question the annotation would have.
    pub(crate) fn record_binding(&self, frame: &mut Frame<'a>, statement: &'a Node)
        ensures
            final(frame)@ == bound(self@, old(frame)@, *statement),
            final(frame).bindings@.len() >= old(frame).bindings@.len(),
            final(frame).bindings@.take(old(frame).bindings@.len() as int) == old(frame).bindings@,
            final(frame).is_as((Frame { bindings: final(frame).bindings, ..*old(frame) })),
    {
        proof {
            assert(frame.bindings@.take(frame.bindings@.len() as int) =~= frame.bindings@);
        }
        if statement.kind == Kind::Local && statement.kids.len() == 3 {
            let pat = &statement.kids[0];
            match pat.kind {
                Kind::PatType => {
                    if pat.kids.len() == 2 && pat.kids[0].kind == Kind::PatIdent {
                        frame.bind(pat.kids[0].get_word(0), resolve::is_numeric_binding(&pat.kids[1]));
                    }
                },
                Kind::PatIdent => {
                    if let Some(init) = statement.get_first(1) {
                        if statement.get_first(2).is_none() && self.is_known_numeric(frame, init) {
                            frame.bind(pat.get_word(0), true);
                        }
                    }
                },
                _ => {},
            }
            proof {
                assert(frame.bindings@.take(old(frame).bindings@.len() as int) =~= old(frame).bindings@);
            }
        }
    }

    /// Brings the type parameters that explicitly implement standard `Default` into scope.
    fn with_defaulted_parameters(&self, frame: &mut Frame<'a>, generics: Option<&Node>)
        ensures
            final(frame)@ == with_defaulted(self@, old(frame)@, node_of(generics)),
            final(frame).defaulted@.len() >= old(frame).defaulted@.len(),
            final(frame).defaulted@.take(old(frame).defaulted@.len() as int) == old(frame).defaulted@,
            final(frame).is_as((Frame { defaulted: final(frame).defaulted, ..*old(frame) })),
    {
        proof {
            assert(frame.defaulted@.take(frame.defaulted@.len() as int) =~= frame.defaulted@);
        }
        if let Some(generics) = generics {
            let names = standard_defaulted_parameters(generics, &self.paths);
            extend(&mut frame.defaulted, names);
            proof {
                assert(frame.defaulted@.take(old(frame).defaulted@.len() as int) =~= old(frame).defaulted@);
                assert(frame@ =~= with_defaulted(self@, old(frame)@, Some(*generics)));
            }
        }
    }
}

/// Adds texts to others.
fn extend(texts: &mut Vec<String>, names: Vec<String>)
    ensures
        final(texts)@ == old(texts)@ + names@,
        strings(final(texts)@) == strings(old(texts)@) + strings(names@),
{
    let mut more = names;
    texts.append(&mut more);
    proof {
        assert(strings(texts@) =~= strings(old(texts)@) + strings(names@));
    }
}

impl<'a> Lens<'a> {
    /// Visits a construct and everything beneath it.
    pub fn visit(&self, frame: &mut Frame<'a>, found: &mut Vec<Candidate>, node: &'a Node)
        ensures
            offers(final(found)@) == offers(old(found)@) + visit(self@, old(frame)@, *node),
            final(frame).is_as(*old(frame)),
        decreases node, 4nat,
    {
        let ghost before = offers(found@);
        proof {
            node.lemma_inside();
            assert(before + Seq::<Offer>::empty() =~= before);
        }
        if holds_no_site(node.kind) || leaves_alone(node, self.cfg) {
            return;
        }
        match node.kind {
            Kind::ItemFn | Kind::ImplFn | Kind::TraitFn => self.visit_function(frame, found, node),
            Kind::ItemMod => self.visit_mod(frame, found, node),
            Kind::ItemTrait => self.visit_trait(frame, found, node),
            Kind::ItemImpl => self.visit_impl(frame, found, node),
            Kind::Macro => self.visit_macro(frame, found, node),
            Kind::Block => self.visit_block(frame, found, node),
            Kind::Local => {
                let size: usize = frame.bindings.len();
                self.record_binding(frame, node);
                self.visit_inside(frame, found, node);
                frame.bindings.truncate(size);
            },
            Kind::Repeat => {
                if let Some(element) = node.get(0) {
                    self.visit(frame, found, element);
                }
            },
            Kind::Reference => {
                let promoted = match node.get(0) {
                    Some(borrowed) => predicates::is_promotable(borrowed),
                    None => false,
                };
                if !promoted {
                    self.visit_inside(frame, found, node);
                }
            },
            Kind::MethodCall => {
                self.expression(frame, found, node);
                if predicates::is_diagnostic_message(node.get_word(1), node.count_of(3)) {
                    if let Some(receiver) = node.get(0) {
                        self.visit(frame, found, receiver);
                    }
                } else {
                    self.visit_inside(frame, found, node);
                }
            },
            Kind::While | Kind::ForLoop | Kind::Loop => {
                self.expression(frame, found, node);
                self.visit_loop(frame, found, node);
            },
            _ => {
                self.expression(frame, found, node);
                self.visit_inside(frame, found, node);
            },
        }
        proof {
            assert(frame.is_as(*old(frame)));
            assert(offers(found@) =~= before + visit(self@, old(frame)@, *node));
        }
    }

    /// Visits what is inside a construct.
    fn visit_inside(&self, frame: &mut Frame<'a>, found: &mut Vec<Candidate>, node: &'a Node)
        ensures
            offers(final(found)@) == offers(old(found)@) + visit_all(self@, old(frame)@, node.inside()),
            final(frame).is_as(*old(frame)),
        decreases node, 1nat,
    {
        proof {
            node.lemma_inside();
            assert(node.kids@.take(node.inside().len() as int) =~= node.inside());
        }
        self.visit_all(frame, found, &node.kids, node.count_inside());
    }

    /// Visits the first of several constructs and everything beneath them.
    fn visit_all(&self, frame: &mut Frame<'a>, found: &mut Vec<Candidate>, nodes: &'a Vec<Node>, count: usize)
        requires
            count <= nodes@.len(),
        ensures
            offers(final(found)@) == offers(old(found)@) + visit_all(self@, old(frame)@, nodes@.take(count as int)),
            final(frame).is_as(*old(frame)),
        decreases nodes@, 0nat,
    {
        let ghost before = offers(found@);
        let ghost scope = frame@;
        let ghost start = *frame;
        let mut at: usize = 0;
        proof {
            assert(nodes@.take(0) =~= Seq::<Node>::empty());
            assert(before =~= before + visit_all(self@, scope, nodes@.take(0)));
        }
        while at < count
            invariant
                at <= count <= nodes@.len(),
                scope == start@,
                frame.is_as(start),
                offers(found@) == before + visit_all(self@, scope, nodes@.take(at as int)),
            decreases count - at,
        {
            proof {
                assert(nodes@.take(at + 1).drop_last() =~= nodes@.take(at as int));
                assert(decreases_to!(nodes@ => nodes@[at as int]));
                assert(frame@ == scope);
            }
            self.visit(frame, found, &nodes[at]);
            at += 1;
            proof {
                assert(offers(found@) =~= before + visit_all(self@, scope, nodes@.take(at as int)));
            }
        }
    }

    /// Visits a loop.
    fn visit_loop(&self, frame: &mut Frame<'a>, found: &mut Vec<Candidate>, node: &'a Node)
        ensures
            offers(final(found)@) == offers(old(found)@) + visit_all(self@, loop_scope(old(frame)@, *node), node.inside()),
            final(frame).is_as(*old(frame)),
        decreases node, 2nat,
    {
        let produces = node.kind == Kind::Loop && predicates::loop_produces_value(node);
        frame.loops.push((predicates::label_of(node), produces));
        proof {
            assert(frame@ =~= loop_scope(old(frame)@, *node));
        }
        self.visit_inside(frame, found, node);
        frame.loops.pop();
        proof {
            assert(frame.loops@ =~= old(frame).loops@);
        }
    }

    /// Visits a macro.
    ///
    /// `vec![a, b, c]` is the exception worth making: the elements are written literally at the call
    /// site, so removing one is an ordinary splice. One element and the list would become empty,
    /// which is a different question.
    fn visit_macro(&self, frame: &Frame<'a>, found: &mut Vec<Candidate>, node: &'a Node)
        ensures
            offers(final(found)@) == offers(old(found)@) + macro_offers(self@, frame@, *node),
    {
        proof {
            assert(offers(found@) + Seq::<Offer>::empty() =~= offers(found@));
        }
        if node.kind == Kind::Macro && node.kids.len() == 2 && query::is_ident(&node.kids[0], "vec")
            && node.kids[1].kids.len() >= 2 {
            self.omit_elements(frame, found, node, &node.kids[1].kids);
        }
    }

    /// Visits a module.
    fn visit_mod(&self, frame: &mut Frame<'a>, found: &mut Vec<Candidate>, node: &'a Node)
        ensures
            offers(final(found)@) == offers(old(found)@) + visit_all(
                self@,
                old(frame)@.inside_item(node.word(0)),
                node.inside(),
            ),
            final(frame).is_as(*old(frame)),
        decreases node, 2nat,
    {
        frame.enter(node.get_word(0));
        self.visit_inside(frame, found, node);
        frame.scope.pop();
    }

    /// Visits a trait.
    fn visit_trait(&self, frame: &mut Frame<'a>, found: &mut Vec<Candidate>, node: &'a Node)
        ensures
            offers(final(found)@) == offers(old(found)@) + visit_all(
                self@,
                with_defaulted(self@, old(frame)@.inside_item(node.word(0)), node.kid(1)),
                node.inside(),
            ),
            final(frame).is_as(*old(frame)),
        decreases node, 2nat,
    {
        let size: usize = frame.defaulted.len();
        frame.enter(node.get_word(0));
        self.with_defaulted_parameters(frame, node.get(1));
        self.visit_inside(frame, found, node);
        frame.defaulted.truncate(size);
        frame.scope.pop();
    }

    /// Visits an implementation.
    fn visit_impl(&self, frame: &mut Frame<'a>, found: &mut Vec<Candidate>, node: &'a Node)
        ensures
            offers(final(found)@) == offers(old(found)@) + visit_all(
                self@,
                implementation_scope(self@, old(frame)@, *node),
                node.inside(),
            ),
            final(frame).is_as(*old(frame)),
        decreases node, 2nat,
    {
        let Some(generics) = node.get(0) else {
            self.visit_inside(frame, found, node);
            return;
        };
        let depth: usize = frame.generics.len();
        let defaulted_depth: usize = frame.defaulted.len();
        let outer_trait = frame.trait_impl;
        let outer_default = frame.in_default_impl;
        let outer_self_type = frame.self_type;
        let outer_implementation = frame.implementation;
        let name = naming::name_impl(self.text, node);
        frame.enter(name.as_str());
        extend(&mut frame.generics, undefaulted_parameters(generics, &self.paths));
        extend(&mut frame.defaulted, standard_defaulted_parameters(generics, &self.paths));
        match node.get_first(1) {
            Some(path) => {
                frame.trait_impl = query::last_name_of(path);
                frame.in_default_impl = self.paths.is_fallback_trait(path);
            },
            None => {
                frame.trait_impl = None;
                frame.in_default_impl = false;
            },
        }
        frame.self_type = node.get(2);
        frame.implementation = Some(node);
        proof {
            assert(frame@ =~= implementation_scope(self@, old(frame)@, *node));
        }
        self.visit_inside(frame, found, node);
        frame.scope.pop();
        frame.generics.truncate(depth);
        frame.defaulted.truncate(defaulted_depth);
        frame.trait_impl = outer_trait;
        frame.in_default_impl = outer_default;
        frame.self_type = outer_self_type;
        frame.implementation = outer_implementation;
        proof {
            assert(frame.generics@ =~= old(frame).generics@);
            assert(frame.defaulted@ =~= old(frame).defaulted@);
        }
    }

    /// Visits the inside of a function, with its return type and its parameters recorded.
    fn visit_body(&self, frame: &mut Frame<'a>, found: &mut Vec<Candidate>, node: &'a Node, sig: &'a Node)
        ensures
            offers(final(found)@) == offers(old(found)@) + visit_all(self@, body_scope(self@, old(frame)@, *sig), node.inside()),
            final(frame).is_as(*old(frame)),
        decreases node, 2nat,
    {
        let Some(output) = sig.get(3) else {
            self.visit_inside(frame, found, node);
            return;
        };
        let outer_numeric = frame.numeric_return;
        let outer_error = frame.foreign_error_return;
        let none: Vec<String> = Vec::new();
        let types = Types {
            abstracts: &none,
            imports: &self.indexes.imports,
            defaults: self.defaults,
            self_type: frame.self_type,
            implementation: frame.implementation,
        };
        proof {
            assert(strings(none@) =~= Seq::<Seq<char>>::empty());
        }
        let foreign = returns_undefaultable_error(output, &types);
        let mut bindings = read_parameters(sig);
        let mut deferred: Vec<(&'a str, bool)> = Vec::new();
        std::mem::swap(&mut frame.bindings, &mut bindings);
        std::mem::swap(&mut frame.deferred, &mut deferred);
        frame.numeric_return = resolve::is_numeric_return(output);
        frame.foreign_error_return = foreign;
        proof {
            assert(frame@ =~= body_scope(self@, old(frame)@, *sig));
        }
        self.visit_inside(frame, found, node);
        frame.bindings = bindings;
        frame.deferred = deferred;
        frame.numeric_return = outer_numeric;
        frame.foreign_error_return = outer_error;
    }

    /// Visits a function.
    fn visit_function(&self, frame: &mut Frame<'a>, found: &mut Vec<Candidate>, node: &'a Node)
        ensures
            offers(final(found)@) == offers(old(found)@) + (body_offers(self@, function_scope(self@, old(frame)@, *node), *node) + (
            match node.kid(0) {
                Some(sig) => if sig.kind == (Kind::Signature { constant: true }) {
                    Seq::empty()
                } else {
                    visit_all(self@, body_scope(self@, function_scope(self@, old(frame)@, *node), sig), node.inside())
                },
                None => Seq::empty(),
            })),
            final(frame).is_as(*old(frame)),
        decreases node, 3nat,
    {
        let ghost before = offers(found@);
        let Some(sig) = node.get(0) else {
            proof {
                assert(before + (Seq::<Offer>::empty() + Seq::<Offer>::empty()) =~= before);
            }
            return;
        };
        let size: usize = frame.defaulted.len();
        frame.enter(sig.get_word(0));
        self.with_defaulted_parameters(frame, sig.get(1));
        proof {
            assert(frame@ == function_scope(self@, old(frame)@, *node));
        }
        if node.kids.len() == 2 && node.kids[1].kids.len() > 0 {
            self.function(frame, found, &node.attrs, sig, &node.kids[1].kids[0]);
        }
        if sig.kind != (Kind::Signature { constant: true }) {
            self.visit_body(frame, found, node, sig);
        }
        frame.defaulted.truncate(size);
        frame.scope.pop();
    }

    /// Visits a block.
    ///
    /// Every statement is judged before the walk descends into any of them, so that a deferral is
    /// noted before the assignment that settles it is looked at. A block can see its enclosing
    /// scope's locals, but its own do not outlive it.
    fn visit_block(&self, frame: &mut Frame<'a>, found: &mut Vec<Candidate>, node: &'a Node)
        requires
            node.kind == Kind::Block,
        ensures
            offers(final(found)@) == offers(old(found)@) + (judged(self@, old(frame)@, node.inside()) + walked(
                self@,
                declared_by(self@, old(frame)@, node.inside()),
                node.inside(),
            )),
            final(frame).is_as(*old(frame)),
        decreases node, 2nat,
    {
        let ghost before = offers(found@);
        let bound_depth: usize = frame.bindings.len();
        let deferred_depth: usize = frame.deferred.len();
        self.judge(frame, found, &node.kids);
        self.walk(frame, found, &node.kids);
        frame.bindings.truncate(bound_depth);
        frame.deferred.truncate(deferred_depth);
        proof {
            assert(offers(found@) =~= before + (judged(self@, old(frame)@, node.inside()) + walked(
                self@,
                declared_by(self@, old(frame)@, node.inside()),
                node.inside(),
            )));
        }
    }

    /// Judges the statements of a block, and records what they declare.
    fn judge(&self, frame: &mut Frame<'a>, found: &mut Vec<Candidate>, statements: &'a Vec<Node>)
        ensures
            offers(final(found)@) == offers(old(found)@) + judged(self@, old(frame)@, statements@),
            final(frame)@ == declared_by(self@, old(frame)@, statements@),
            final(frame).deferred@.len() >= old(frame).deferred@.len(),
            final(frame).deferred@.take(old(frame).deferred@.len() as int) == old(frame).deferred@,
            final(frame).is_as((Frame { deferred: final(frame).deferred, ..*old(frame) })),
    {
        let ghost before = offers(found@);
        let ghost scope = frame@;
        let ghost start = *frame;
        proof {
            assert(statements@.take(0) =~= Seq::<Node>::empty());
            assert(before =~= before + judged(self@, scope, statements@.take(0)));
            assert(start.deferred@.take(start.deferred@.len() as int) =~= start.deferred@);
        }
        for at in 0..statements.len()
            invariant
                scope == start@,
                frame@ == declared_by(self@, scope, statements@.take(at as int)),
                frame.deferred@.len() >= start.deferred@.len(),
                frame.deferred@.take(start.deferred@.len() as int) == start.deferred@,
                frame.is_as((Frame { deferred: frame.deferred, ..start })),
                offers(found@) == before + judged(self@, scope, statements@.take(at as int)),
        {
            let statement = &statements[at];
            let ghost held = *frame;
            proof {
                assert(statements@.take(at + 1).drop_last() =~= statements@.take(at as int));
                assert(statements@.take(at + 1).last() == *statement);
            }
            if !predicates::skips_stmt(self.cfg, statement) {
                self.statement(frame, found, statement);
                frame.record_declaration(statement);
                proof {
                    assert(frame.deferred@.take(start.deferred@.len() as int) =~= frame.deferred@.take(
                        held.deferred@.len() as int,
                    ).take(start.deferred@.len() as int));
                    assert(offers(found@) =~= before + judged(self@, scope, statements@.take(at + 1)));
                }
            }
        }
        proof {
            assert(statements@.take(statements@.len() as int) =~= statements@);
        }
    }

    /// Visits the statements of a block and everything beneath them, and records what they bind.
    fn walk(&self, frame: &mut Frame<'a>, found: &mut Vec<Candidate>, statements: &'a Vec<Node>)
        ensures
            offers(final(found)@) == offers(old(found)@) + walked(self@, old(frame)@, statements@),
            final(frame).bindings@.len() >= old(frame).bindings@.len(),
            final(frame).bindings@.take(old(frame).bindings@.len() as int) == old(frame).bindings@,
            final(frame).is_as((Frame { bindings: final(frame).bindings, ..*old(frame) })),
        decreases statements@, 0nat,
    {
        let ghost before = offers(found@);
        let ghost scope = frame@;
        let ghost start = *frame;
        let mut at: usize = 0;
        proof {
            assert(statements@.take(0) =~= Seq::<Node>::empty());
            assert(before =~= before + walked(self@, scope, statements@.take(0)));
            assert(start.bindings@.take(start.bindings@.len() as int) =~= start.bindings@);
        }
        while at < statements.len()
            invariant
                at <= statements@.len(),
                scope == start@,
                frame@ == bound_by(self@, scope, statements@.take(at as int)),
                frame.bindings@.len() >= start.bindings@.len(),
                frame.bindings@.take(start.bindings@.len() as int) == start.bindings@,
                frame.is_as((Frame { bindings: frame.bindings, ..start })),
                offers(found@) == before + walked(self@, scope, statements@.take(at as int)),
            decreases statements@.len() - at,
        {
            let statement = &statements[at];
            let ghost held = *frame;
            proof {
                assert(statements@.take(at + 1).drop_last() =~= statements@.take(at as int));
                assert(statements@.take(at + 1).last() == *statement);
                assert(decreases_to!(statements@ => statements@[at as int]));
            }
            if !predicates::skips_stmt(self.cfg, statement) {
                self.visit(frame, found, statement);
                self.record_binding(frame, statement);
                proof {
                    assert(frame.bindings@.take(start.bindings@.len() as int) =~= frame.bindings@.take(
                        held.bindings@.len() as int,
                    ).take(start.bindings@.len() as int));
                    assert(offers(found@) =~= before + walked(self@, scope, statements@.take(at + 1)));
                }
            }
            at += 1;
        }
        proof {
            assert(statements@.take(statements@.len() as int) =~= statements@);
        }
    }
}

} // verus!
