//! What a site is judged by: what holds for the whole file, and what holds where the site stands.
use super::indexes::{Evidence, Indexes};
use super::naming::source_of;
use super::noop;
use super::noop::reproduces;
use super::predicates;
use super::predicates::{called_type, constant_case, names_number, yields_number};
use super::resolve;
use super::resolve::is_numeric_type_node;
use super::types::{node_of, Typing};
use crate::cfg::{Build, CfgSet};
use crate::ops::collect::candidate::{offers, Candidate, Offer};
use crate::ops::collect::defaults::{DefaultPaths, Defaults, Known, Spellings};
use crate::ops::collect::Shape;
use crate::ops::registry::Selection;
use crate::syntax::query;
use crate::syntax::query::{last_name, path_ident};
use crate::syntax::tree::{Kind, Node, Op};
use crate::text;
use crate::text::{byte_len, slice, strings, viewed};
use vstd::prelude::*;

verus! {

/// What holds for a whole file.
pub ghost struct Setting {
    /// The text of the file.
    pub text: Seq<char>,
    /// The mutators that are selected.
    pub selection: Set<Seq<char>>,
    /// The `Err(...)` payloads that are supplied.
    pub errors: Seq<Seq<char>>,
    /// The configuration predicates that hold for the build.
    pub cfg: Build,
    /// What the workspace implements `Default` for.
    pub known: Known,
    /// The names the file uses for the standard `Default` trait.
    pub spellings: Spellings,
    /// What the file says of its names.
    pub evidence: Evidence,
}

/// What holds where a site stands.
#[verifier::ext_equal]
pub ghost struct Scope {
    /// The path of the enclosing item, if there is one.
    pub item: Option<Seq<char>>,
    /// The last name of the trait that the enclosing `impl` block implements.
    pub trait_impl: Option<Seq<char>>,
    /// Whether the enclosing `impl` block implements `Default`.
    pub in_default_impl: bool,
    /// The type named by `Self`.
    pub self_type: Option<Node>,
    /// The enclosing `impl` block.
    pub implementation: Option<Node>,
    /// Whether the enclosing function returns a number.
    pub numeric_return: bool,
    /// Whether the enclosing function returns a `Result` whose error cannot be defaulted.
    pub foreign_error_return: bool,
    /// Whether each named binding holds a number; the last entry of a name counts.
    pub bindings: Seq<(Seq<char>, bool)>,
    /// Whether each declared name was declared without a value; the last entry of a name counts.
    pub deferred: Seq<(Seq<char>, bool)>,
    /// The type parameters that are not known to implement `Default`.
    pub generics: Seq<Seq<char>>,
    /// The type parameters that are known to implement the standard `Default`.
    pub defaulted: Seq<Seq<char>>,
    /// The label of each enclosing loop, and whether it is left with a value.
    pub loops: Seq<(Option<Seq<char>>, bool)>,
}

impl Scope {
    /// The scope outside any item.
    pub open spec fn outermost() -> Scope {
        Scope {
            item: None,
            trait_impl: None,
            in_default_impl: false,
            self_type: None,
            implementation: None,
            numeric_return: false,
            foreign_error_return: false,
            bindings: Seq::empty(),
            deferred: Seq::empty(),
            generics: Seq::empty(),
            defaulted: Seq::empty(),
            loops: Seq::empty(),
        }
    }

    /// The path of the enclosing item, which is empty outside any.
    pub open spec fn item_path(self) -> Seq<char> {
        match self.item {
            Some(path) => path,
            None => ""@,
        }
    }

    /// The scope inside an item of a name.
    pub open spec fn inside_item(self, name: Seq<char>) -> Scope {
        Scope {
            item: Some(
                match self.item {
                    Some(parent) => parent + "::"@ + name,
                    None => name,
                },
            ),
            ..self
        }
    }

    /// A binding is recorded.
    pub open spec fn binding(self, name: Seq<char>, numeric: bool) -> Scope {
        Scope { bindings: self.bindings.push((name, numeric)), ..self }
    }
}

/// What the last entry of a name says.
pub open spec fn latest(entries: Seq<(Seq<char>, bool)>, name: Seq<char>) -> Option<bool>
    decreases entries.len(),
{
    if entries.len() == 0 {
        None
    } else if entries.last().0 == name {
        Some(entries.last().1)
    } else {
        latest(entries.drop_last(), name)
    }
}

/// What a type in a signature is judged by.
pub open spec fn typing(s: Setting, c: Scope, abstracts: Seq<Seq<char>>) -> Typing {
    Typing {
        abstracts,
        imports: s.evidence.imports,
        known: s.known,
        self_type: c.self_type,
        implementation: c.implementation,
    }
}

/// What is offered at a range, for a mutator, a replacement and its index: one candidate, unless
/// the mutator is not selected, the range is not one of the text, or the replacement would leave
/// the program as it was.
pub open spec fn offer(
    s: Setting,
    c: Scope,
    mutator: Seq<char>,
    start: int,
    end: int,
    replacement: Seq<char>,
    index: u32,
    shape: Shape,
) -> Seq<Offer> {
    if !s.selection.contains(mutator) || start >= end || end > byte_len(s.text) || reproduces(
        replacement,
        slice(s.text, start, end),
        shape,
        s.spellings,
        c.defaulted,
    ) {
        Seq::empty()
    } else {
        seq![Offer { mutator, start, end, replacement, index, item_path: c.item_path(), shape, trait_impl: c.trait_impl }]
    }
}

/// What is offered over a whole construct.
pub open spec fn offer_over(
    s: Setting,
    c: Scope,
    mutator: Seq<char>,
    node: Node,
    replacement: Seq<char>,
    index: u32,
    shape: Shape,
) -> Seq<Offer> {
    offer(s, c, mutator, node.start as int, node.end as int, replacement, index, shape)
}

/// An index as it is recorded.
pub open spec fn ordinal(index: int) -> u32 {
    if index <= u32::MAX {
        index as u32
    } else {
        u32::MAX
    }
}

/// Whether the source positively says that an expression is a number.
pub open spec fn known_numeric(s: Setting, c: Scope, e: Node) -> bool
    decreases e,
{
    match e.kind {
        Kind::Cast => e.kid(1) matches Some(ty) && is_numeric_type_node(ty),
        Kind::Negate => true,
        Kind::Binary => e.kids@.len() == 3 && match e.kids@[1].kind {
            Kind::Operator(op) => match op {
                Op::Sub | Op::Mul | Op::Div | Op::Rem => true,
                Op::Add => known_numeric(s, c, e.kids@[0]) || known_numeric(s, c, e.kids@[2]),
                _ => false,
            },
            _ => false,
        },
        Kind::PathExpr => e.kids@.len() == 2 && e.first_of(0) is None && (names_constant(s, e.kids@[1]) || names_binding(
            s,
            c,
            e.kids@[1],
        )),
        Kind::MethodCall => yields_number(e.word(1)),
        Kind::Call => e.kids@.len() > 0 && (called_type(e.kids@[0]) matches Some(name) && names_number(name)),
        Kind::FieldAccess => e.kids@.len() == 2 && e.kids@[1].kind == Kind::MemberNamed && field_is_number(s, e.kids@[1].word(0)),
        Kind::Paren => e.kids@.len() > 0 && known_numeric(s, c, e.kids@[0]),
        _ => false,
    }
}

/// Whether a path names a constant that is a number: what the file declares outranks how the name
/// is spelled.
pub open spec fn names_constant(s: Setting, path: Node) -> bool {
    last_name(path) matches Some(name) && if s.evidence.constants.contains_key(name) {
        s.evidence.constants[name]
    } else {
        constant_case(name)
    }
}

/// Whether a path names a binding that is a number: what was written down outranks how the name is
/// used elsewhere.
pub open spec fn names_binding(s: Setting, c: Scope, path: Node) -> bool {
    path_ident(path) matches Some(name) && match latest(c.bindings, name) {
        Some(numeric) => numeric,
        None => s.evidence.names.contains(name),
    }
}

/// Whether a field holds a number.
pub open spec fn field_is_number(s: Setting, name: Seq<char>) -> bool {
    if s.evidence.fields.contains_key(name) {
        s.evidence.fields[name]
    } else {
        s.evidence.used_fields.contains(name)
    }
}

// ---- Reading it. ----

/// What holds for a whole file.
pub struct Lens<'a> {
    pub text: &'a str,
    pub selection: &'a Selection,
    pub errors: &'a Vec<String>,
    pub cfg: &'a CfgSet,
    pub defaults: &'a Defaults,
    pub paths: DefaultPaths,
    pub indexes: Indexes,
}

impl<'a> View for Lens<'a> {
    type V = Setting;

    open spec fn view(&self) -> Setting {
        Setting {
            text: self.text@,
            selection: self.selection@,
            errors: strings(self.errors@),
            cfg: self.cfg@,
            known: self.defaults@,
            spellings: self.paths@,
            evidence: self.indexes@,
        }
    }
}

/// What holds where a site stands.
pub struct Frame<'a> {
    pub scope: Vec<String>,
    pub trait_impl: Option<&'a str>,
    pub in_default_impl: bool,
    pub self_type: Option<&'a Node>,
    pub implementation: Option<&'a Node>,
    pub numeric_return: bool,
    pub foreign_error_return: bool,
    pub bindings: Vec<(&'a str, bool)>,
    pub deferred: Vec<(&'a str, bool)>,
    pub generics: Vec<String>,
    pub defaulted: Vec<String>,
    pub loops: Vec<(Option<&'a str>, bool)>,
}

/// The names and what is said of them.
pub open spec fn entries(list: Seq<(&str, bool)>) -> Seq<(Seq<char>, bool)> {
    list.map_values(|entry: (&str, bool)| (entry.0@, entry.1))
}

/// The loops and what is said of them.
pub open spec fn looping(list: Seq<(Option<&str>, bool)>) -> Seq<(Option<Seq<char>>, bool)> {
    list.map_values(|entry: (Option<&str>, bool)| (viewed(entry.0), entry.1))
}

/// The innermost of the paths that are open.
pub open spec fn innermost(paths: Seq<String>) -> Option<Seq<char>> {
    if paths.len() > 0 {
        Some(paths.last()@)
    } else {
        None
    }
}

impl<'a> View for Frame<'a> {
    type V = Scope;

    open spec fn view(&self) -> Scope {
        Scope {
            item: innermost(self.scope@),
            trait_impl: viewed(self.trait_impl),
            in_default_impl: self.in_default_impl,
            self_type: node_of(self.self_type),
            implementation: node_of(self.implementation),
            numeric_return: self.numeric_return,
            foreign_error_return: self.foreign_error_return,
            bindings: entries(self.bindings@),
            deferred: entries(self.deferred@),
            generics: strings(self.generics@),
            defaulted: strings(self.defaulted@),
            loops: looping(self.loops@),
        }
    }
}

/// What the last entry of a name says.
pub(crate) fn find_latest(list: &Vec<(&str, bool)>, name: &str) -> (r: Option<bool>)
    ensures
        r == latest(entries(list@), name@),
{
    let mut at: usize = list.len();
    let ghost all = entries(list@);
    proof {
        assert(all.take(all.len() as int) =~= all);
    }
    while at > 0
        invariant
            at <= list@.len(),
            all == entries(list@),
            latest(all, name@) == latest(all.take(at as int), name@),
        decreases at,
    {
        proof {
            assert(all.take(at as int).last() == (list@[at - 1].0@, list@[at - 1].1));
            assert(all.take(at as int).drop_last() =~= all.take(at - 1));
        }
        if text::same(list[at - 1].0, name) {
            return Some(list[at - 1].1);
        }
        at -= 1;
    }
    None
}

impl<'a> Lens<'a> {
    /// Returns whether a mutator would produce anything.
    pub fn wants(&self, mutator: &str) -> (r: bool)
        ensures
            r == self@.selection.contains(mutator@),
    {
        self.selection.contains(mutator)
    }

    /// Returns the source text a construct covers, or an empty string if it is not in the file.
    pub fn text_of(&self, node: &Node) -> (r: &'a str)
        ensures
            r@ == source_of(self@.text, *node),
    {
        text::between(self.text, node.start, node.end)
    }

    /// Returns whether a path names a constant that is a number.
    fn is_constant(&self, path: &Node) -> (r: bool)
        ensures
            r == names_constant(self@, *path),
    {
        match query::last_name_of(path) {
            Some(name) => match self.indexes.constants.get(name) {
                Some(numeric) => *numeric,
                None => predicates::is_constant_case(name),
            },
            None => false,
        }
    }

    /// Returns whether a path names a binding that is a number.
    fn is_binding(&self, frame: &Frame<'a>, path: &Node) -> (r: bool)
        ensures
            r == names_binding(self@, frame@, *path),
    {
        match query::ident_of(path) {
            Some(name) => match find_latest(&frame.bindings, name) {
                Some(numeric) => numeric,
                None => self.indexes.numeric_uses.names.contains(name),
            },
            None => false,
        }
    }

    /// Returns whether a field holds a number.
    fn is_number_field(&self, name: &str) -> (r: bool)
        ensures
            r == field_is_number(self@, name@),
    {
        match self.indexes.fields.get(name) {
            Some(numeric) => *numeric,
            None => self.indexes.numeric_uses.fields.contains(name),
        }
    }

    /// Returns whether the source positively says an expression is a number.
    ///
    /// Without type resolution this can only read what the source wrote down, so it is an
    /// allowlist rather than an attempt to rule out everything that is not a number. A literal
    /// answers no despite plainly being a number, because the literal family already perturbs it.
    pub fn is_known_numeric(&self, frame: &Frame<'a>, e: &Node) -> (r: bool)
        ensures
            r == known_numeric(self@, frame@, *e),
        decreases e,
    {
        match e.kind {
            Kind::Cast => match e.get(1) {
                Some(ty) => resolve::is_numeric_binding(ty),
                None => false,
            },
            Kind::Negate => true,
            Kind::Binary => {
                if e.kids.len() != 3 {
                    return false;
                }
                match e.kids[1].kind {
                    Kind::Operator(op) => match op {
                        Op::Sub | Op::Mul | Op::Div | Op::Rem => true,
                        Op::Add => self.is_known_numeric(frame, &e.kids[0]) || self.is_known_numeric(frame, &e.kids[2]),
                        _ => false,
                    },
                    _ => false,
                }
            },
            Kind::PathExpr => e.kids.len() == 2 && e.get_first(0).is_none() && (self.is_constant(&e.kids[1]) || self.is_binding(
                frame,
                &e.kids[1],
            )),
            Kind::MethodCall => predicates::returns_numeric(e.get_word(1)),
            Kind::Call => e.kids.len() > 0 && match predicates::callee_type(&e.kids[0]) {
                Some(name) => predicates::is_numeric_type(name),
                None => false,
            },
            Kind::FieldAccess => e.kids.len() == 2 && e.kids[1].kind == Kind::MemberNamed && self.is_number_field(
                e.kids[1].get_word(0),
            ),
            Kind::Paren => e.kids.len() > 0 && self.is_known_numeric(frame, &e.kids[0]),
            _ => false,
        }
    }

    /// Records a candidate over an explicit byte range.
    ///
    /// Most sites come from a single construct and can use its span, but a site can also span
    /// several with no one construct covering exactly the text being replaced. A range outside the
    /// text is one that nothing can be spliced into.
    pub fn emit_at(
        &self,
        frame: &Frame<'a>,
        found: &mut Vec<Candidate>,
        mutator: &'static str,
        start: usize,
        end: usize,
        replacement: &str,
        index: u32,
        shape: Shape,
    )
        ensures
            offers(final(found)@) == offers(old(found)@) + offer(
                self@,
                frame@,
                mutator@,
                start as int,
                end as int,
                replacement@,
                index,
                shape,
            ),
    {
        let ghost before = offers(found@);
        if !self.wants(mutator) || start >= end || end > text::length(self.text) || noop::is_noop(
            replacement,
            text::between(self.text, start, end),
            shape,
            &self.paths,
            &frame.defaulted,
        ) {
            proof {
                assert(before + Seq::<Offer>::empty() =~= before);
            }
            return;
        }
        let item_path = match frame.scope.last() {
            Some(path) => text::owned(path.as_str()),
            None => text::owned(""),
        };
        let trait_impl = match frame.trait_impl {
            Some(name) => Some(text::owned(name)),
            None => None,
        };
        let candidate = Candidate {
            mutator,
            span: start..end,
            replacement: text::owned(replacement),
            replacement_index: index,
            item_path,
            shape,
            trait_impl,
        };
        let ghost own = candidate@;
        found.push(candidate);
        proof {
            assert(offers(found@) =~= before + seq![own]);
        }
    }

    /// Records a candidate over a whole construct.
    pub fn emit(
        &self,
        frame: &Frame<'a>,
        found: &mut Vec<Candidate>,
        mutator: &'static str,
        node: &Node,
        replacement: &str,
        index: u32,
        shape: Shape,
    )
        ensures
            offers(final(found)@) == offers(old(found)@) + offer_over(self@, frame@, mutator@, *node, replacement@, index, shape),
    {
        self.emit_at(frame, found, mutator, node.start, node.end, replacement, index, shape);
    }
}

/// An index as it is recorded.
pub fn number(index: usize) -> (r: u32)
    ensures
        r == ordinal(index as int),
{
    if index <= u32::MAX as usize {
        index as u32
    } else {
        u32::MAX
    }
}

} // verus!
