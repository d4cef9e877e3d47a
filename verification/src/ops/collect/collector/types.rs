//! What is known of the types that a signature names.
use super::resolve;
use super::resolve::{argument, class_of, Class};
use crate::ops::collect::defaults;
use crate::ops::collect::defaults::{defaulted_params, is_among, known_name, standard_defaulted_parameters, DefaultPaths, Defaults, Known, Spellings};
use crate::syntax::query;
use crate::syntax::query::{path_names, stripped, type_path};
use crate::syntax::{Kind, Node};
use crate::table::Table;
use crate::text;
use crate::text::strings;
use vstd::prelude::*;

verus! {

/// What a type in a signature is judged by.
pub ghost struct Typing {
    /// The type parameters in scope that are not known to have a `Default`.
    pub abstracts: Seq<Seq<char>>,
    /// The path each imported name was brought in from, or nothing where that is disputed.
    pub imports: Map<Seq<char>, Option<Seq<Seq<char>>>>,
    /// What the workspace says of its own types.
    pub known: Known,
    /// The type that `Self` names.
    pub self_type: Option<Node>,
    /// The implementation whose associated types `Self::` leads to.
    pub implementation: Option<Node>,
}

/// The import paths a table holds.
pub open spec fn imports_in(table: Map<Seq<char>, Option<Vec<String>>>) -> Map<Seq<char>, Option<Seq<Seq<char>>>> {
    table.map_values(
        |path: Option<Vec<String>>|
            match path {
                Some(path) => Some(strings(path@)),
                None => None,
            },
    )
}

/// What a type in a signature is judged by.
pub struct Types<'a> {
    pub abstracts: &'a Vec<String>,
    pub imports: &'a Table<Option<Vec<String>>>,
    pub defaults: &'a Defaults,
    pub self_type: Option<&'a Node>,
    pub implementation: Option<&'a Node>,
}

/// A node that there may be.
pub open spec fn node_of(node: Option<&Node>) -> Option<Node> {
    match node {
        Some(node) => Some(*node),
        None => None,
    }
}

impl<'a> View for Types<'a> {
    type V = Typing;

    open spec fn view(&self) -> Typing {
        Typing {
            abstracts: strings(self.abstracts@),
            imports: imports_in(self.imports@),
            known: self.defaults@,
            self_type: node_of(self.self_type),
            implementation: node_of(self.implementation),
        }
    }
}

// ---- Abstract types. ----

/// Whether nothing promises that a type has a `Default`: a type parameter without one, what is
/// reached through it, a trait object, an `impl Trait`, or a smart pointer to one of these.
pub open spec fn is_abstract(ty: Node, abstracts: Seq<Seq<char>>) -> bool
    decreases ty,
{
    match ty.kind {
        Kind::TypeParen | Kind::TypeGroup => ty.kids@.len() > 0 && is_abstract(ty.kids@[0], abstracts),
        Kind::TypeTraitObject | Kind::TypeImplTrait => true,
        Kind::TypePath => {
            ||| ty.first_of(0) matches Some(qualified) && is_abstract(qualified, abstracts)
            ||| ty.first_of(0) is None && (ty.kid(1) matches Some(path) && path.kids@.len() > 0 && abstracts.contains(path.kids@[0].word(0)))
            ||| is_pointer(ty) && pointee_is_abstract(ty, abstracts)
        },
        _ => false,
    }
}

/// Whether a type is a smart pointer.
pub open spec fn is_pointer(ty: Node) -> bool {
    type_path(ty) matches Some(path) && (query::last_name(path) matches Some(name) && (name == "Box"@ || name == "Rc"@ || name == "Arc"@))
}

/// Whether what a smart pointer points at is abstract.
pub open spec fn pointee_is_abstract(ty: Node, abstracts: Seq<Seq<char>>) -> bool
    decreases ty, 0nat,
{
    match ty.kid(1) {
        Some(path) => match query::last_arguments(path) {
            Some(args) => args.kids@.len() > 0 && args.kids@[0].kind == Kind::ArgType && args.kids@[0].kids@.len() > 0 && is_abstract(
                args.kids@[0].kids@[0],
                abstracts,
            ),
            None => false,
        },
        None => false,
    }
}

/// Returns whether nothing promises that a type has a `Default`.
///
/// `Default::default()` for a caller's type parameter or a trait object would be a guess rather
/// than a fact.
pub fn is_abstract_type(ty: &Node, abstracts: &Vec<String>) -> (r: bool)
    ensures
        r == is_abstract(*ty, strings(abstracts@)),
    decreases ty, 1nat,
{
    match ty.kind {
        Kind::TypeParen | Kind::TypeGroup => ty.kids.len() > 0 && is_abstract_type(&ty.kids[0], abstracts),
        Kind::TypeTraitObject | Kind::TypeImplTrait => true,
        Kind::TypePath => {
            match ty.get_first(0) {
                Some(qualified) => {
                    if is_abstract_type(qualified, abstracts) {
                        return true;
                    }
                },
                None => {
                    if let Some(path) = ty.get(1) {
                        if path.kids.len() > 0 && is_among(abstracts, path.kids[0].get_word(0)) {
                            return true;
                        }
                    }
                },
            }
            points(ty) && points_at_abstract(ty, abstracts)
        },
        _ => false,
    }
}

/// Whether a type is a smart pointer.
fn points(ty: &Node) -> (r: bool)
    ensures
        r == is_pointer(*ty),
{
    match query::path_of_type(ty) {
        Some(path) => match query::last_name_of(path) {
            Some(name) => text::same(name, "Box") || text::same(name, "Rc") || text::same(name, "Arc"),
            None => false,
        },
        None => false,
    }
}

/// Whether what a smart pointer points at is abstract.
fn points_at_abstract(ty: &Node, abstracts: &Vec<String>) -> (r: bool)
    ensures
        r == pointee_is_abstract(*ty, strings(abstracts@)),
    decreases ty, 0nat,
{
    match ty.get(1) {
        Some(path) => match query::arguments_of(path) {
            Some(args) => args.kids.len() > 0 && matches!(args.kids[0].kind, Kind::ArgType) && args.kids[0].kids.len() > 0
                && is_abstract_type(&args.kids[0].kids[0], abstracts),
            None => false,
        },
        None => false,
    }
}

// ---- Names. ----

/// The path a type is written as, led back to where its first name was imported from.
pub open spec fn full_path(ty: Node, imports: Map<Seq<char>, Option<Seq<Seq<char>>>>) -> Seq<Seq<char>> {
    match type_path(stripped(ty)) {
        Some(path) => {
            let names = path_names(path);
            if names.len() > 0 && imports.contains_key(names[0]) && imports[names[0]] is Some {
                imports[names[0]]->0 + names
            } else {
                names
            }
        },
        None => Seq::empty(),
    }
}

/// Whether a path leads into the standard library.
pub open spec fn is_standard(path: Seq<Seq<char>>) -> bool {
    path.len() > 1 && (path[0] == "std"@ || path[0] == "core"@ || path[0] == "alloc"@)
}

/// Whether a path leads out of the crate by a name that was imported.
pub open spec fn is_imported_from_outside(ty: Node, imports: Map<Seq<char>, Option<Seq<Seq<char>>>>) -> bool {
    match type_path(stripped(ty)) {
        Some(path) => {
            let names = path_names(path);
            &&& names.len() > 0
            &&& imports.contains_key(names[0])
            &&& imports[names[0]] matches Some(prefix) && prefix.len() > 0 && prefix[0] != "crate"@ && prefix[0] != "self"@ && prefix[0]
                != "super"@
        },
        None => false,
    }
}

/// Whether a name is that of an error.
pub open spec fn is_error_name(name: Seq<char>) -> bool {
    name.len() >= 5 && name.skip(name.len() - 5) == "Error"@
}

/// Whether a type comes from outside the workspace and is known to have no `Default`: an error type
/// other than the one of formatting, or a point in time.
pub open spec fn is_foreign(ty: Node, imports: Map<Seq<char>, Option<Seq<Seq<char>>>>) -> bool {
    let path = full_path(ty, imports);
    &&& path.len() > 0
    &&& is_standard(path) || is_imported_from_outside(ty, imports)
    &&& {
        ||| is_error_name(path.last()) && !(is_standard(path) && path.len() == 3 && path[1] == "fmt"@ && path[2] == "Error"@)
        ||| is_standard(path) && path.len() == 3 && path[1] == "time"@ && (path[2] == "Instant"@ || path[2] == "SystemTime"@)
    }
}

/// The last associated type of a name among the items of an implementation.
pub open spec fn associated(items: Seq<Node>, name: Seq<char>) -> Option<Node>
    decreases items.len(),
{
    if items.len() == 0 {
        None
    } else if items.last().kind == Kind::ImplType && items.last().word(0) == name && items.last().kids@.len() == 3 {
        Some(items.last().kids@[2])
    } else {
        associated(items.drop_last(), name)
    }
}

impl Typing {
    /// The type that `Self`, or an associated type of it, stands for; else the type itself.
    pub open spec fn resolved(self, ty: Node) -> Node {
        match type_path(stripped(ty)) {
            Some(path) => {
                let names = path_names(path);
                if names.len() == 1 && names[0] == "Self"@ {
                    match self.self_type {
                        Some(own) => own,
                        None => ty,
                    }
                } else if names.len() == 2 && names[0] == "Self"@ && self.implementation is Some {
                    match associated(self.implementation->0.all_of(3), names[1]) {
                        Some(own) => own,
                        None => ty,
                    }
                } else {
                    ty
                }
            },
            None => ty,
        }
    }

    /// Whether a type is known to have no `Default`.
    pub open spec fn lacks_default(self, ty: Node) -> bool {
        let own = self.resolved(ty);
        is_foreign(own, self.imports) || (known_name(own) matches Some(name) && self.known.defined.contains(name)
            && !self.known.defaulted.contains(name))
    }

    /// Whether there is no value of a type to be had: it is abstract, or it has no `Default`.
    pub open spec fn is_undefaultable(self, ty: Node) -> bool {
        is_abstract(ty, self.abstracts) || self.lacks_default(ty)
    }

    /// Whether a type is the `Result` of formatting.
    pub open spec fn is_fmt_result(self, ty: Node) -> bool {
        let path = full_path(ty, self.imports);
        is_standard(path) && path.len() == 3 && path[1] == "fmt"@ && path[2] == "Result"@ && argument(ty, 0) is None
    }

    /// Whether a return type is a `Result` of an error that there is no value of.
    pub open spec fn returns_undefaultable_error(self, output: Node) -> bool {
        match output.kid(0) {
            Some(ty) => if self.is_fmt_result(ty) {
                false
            } else if class_of(ty) == Class::Result && argument(ty, 1) is Some {
                self.is_undefaultable(argument(ty, 1)->0)
            } else {
                match known_name(ty) {
                    Some(alias) => self.known.errors.contains_key(alias) && (self.known.errors[alias] matches Some(error)
                        && self.known.defined.contains(error) && !self.known.defaulted.contains(error)),
                    None => false,
                }
            },
            None => false,
        }
    }
}

/// The names of type parameters that are not among those with a `Default`.
pub open spec fn undefaulted_among(params: Seq<Node>, defaulted: Seq<Seq<char>>) -> Seq<Seq<char>>
    decreases params.len(),
{
    if params.len() == 0 {
        Seq::empty()
    } else {
        let before = undefaulted_among(params.drop_last(), defaulted);
        let param = params.last();
        if param.kind == Kind::TypeParam && !defaulted.contains(param.word(0)) {
            before.push(param.word(0))
        } else {
            before
        }
    }
}

/// The type parameters that no bound promises the standard `Default` trait for.
pub open spec fn undefaulted_params(generics: Node, spellings: Spellings) -> Seq<Seq<char>> {
    undefaulted_among(generics.all_of(0), defaulted_params(generics, spellings))
}

/// Names the type parameters that no bound promises the standard `Default` trait for.
///
/// Only a type parameter can carry such a bound, so lifetimes and constants are passed over.
pub fn undefaulted_parameters(generics: &Node, defaults: &DefaultPaths) -> (r: Vec<String>)
    ensures
        strings(r@) == undefaulted_params(*generics, defaults@),
{
    let defaulted = standard_defaulted_parameters(generics, defaults);
    let ghost params = generics.all_of(0);
    let count = generics.count_of(0);
    let mut names: Vec<String> = Vec::new();
    let mut at: usize = 0;
    proof {
        assert(strings(names@) =~= undefaulted_among(params.take(0), strings(defaulted@)));
    }
    while at < count
        invariant
            at <= count,
            count == params.len(),
            params == generics.all_of(0),
            strings(names@) == undefaulted_among(params.take(at as int), strings(defaulted@)),
        decreases count - at,
    {
        let param = generics.get_in(0, at);
        proof {
            assert(params.take(at + 1).drop_last() =~= params.take(at as int));
        }
        let ghost before = strings(names@);
        if matches!(param.kind, Kind::TypeParam) && !is_among(&defaulted, param.get_word(0)) {
            names.push(text::owned(param.get_word(0)));
            proof {
                assert(strings(names@) =~= before.push(param.word(0)));
            }
        }
        at += 1;
    }
    proof {
        assert(params.take(at as int) =~= params);
    }
    names
}

/// Whether a name is that of an error.
fn names_error(name: &str) -> (r: bool)
    ensures
        r == is_error_name(name@),
{
    let chars = text::characters(name);
    let size: usize = chars.len();
    if size < 5 {
        return false;
    }
    let end = name.substring_char(size - 5, size);
    proof {
        assert(end@ =~= name@.skip(name@.len() - 5));
    }
    text::same(end, "Error")
}

/// The last associated type of a name among the items of an implementation.
fn associated_of<'a>(implementation: &'a Node, name: &str) -> (r: Option<&'a Node>)
    ensures
        node_of(r) == associated(implementation.all_of(3), name@),
{
    let ghost items = implementation.all_of(3);
    let mut at: usize = implementation.count_of(3);
    proof {
        assert(items.take(at as int) =~= items);
    }
    while at > 0
        invariant
            at <= items.len(),
            items == implementation.all_of(3),
            associated(items, name@) == associated(items.take(at as int), name@),
        decreases at,
    {
        let item = implementation.get_in(3, at - 1);
        proof {
            assert(items.take(at as int).drop_last() =~= items.take(at - 1));
            assert(items.take(at as int).last() == items[at - 1]);
        }
        if matches!(item.kind, Kind::ImplType) && text::same(item.get_word(0), name) && item.kids.len() == 3 {
            return Some(&item.kids[2]);
        }
        at -= 1;
    }
    None
}

impl<'a> Types<'a> {
    /// The path a type is written as, led back to where its first name was imported from.
    fn full_path_of(&self, ty: &Node) -> (r: Vec<String>)
        ensures
            strings(r@) == full_path(*ty, self@.imports),
    {
        let Some(path) = query::path_of_type(query::strip(ty)) else {
            let none: Vec<String> = Vec::new();
            proof {
                assert(strings(none@) =~= Seq::<Seq<char>>::empty());
            }
            return none;
        };
        let names = query::names_of(path);
        if names.len() == 0 {
            return names;
        }
        proof {
            assert(strings(names@)[0] == names@[0]@);
        }
        if let Some(Some(prefix)) = self.imports.get(names[0].as_str()) {
            let mut full: Vec<String> = Vec::new();
            proof {
                assert(strings(full@) =~= Seq::<Seq<char>>::empty());
            }
            defaults::copied(prefix, 0, &mut full);
            defaults::copied(&names, 0, &mut full);
            proof {
                assert(strings(full@) =~= strings(prefix@) + strings(names@));
            }
            return full;
        }
        names
    }

    /// Whether a path leads out of the crate by a name that was imported.
    fn comes_from_outside(&self, ty: &Node) -> (r: bool)
        ensures
            r == is_imported_from_outside(*ty, self@.imports),
    {
        let Some(path) = query::path_of_type(query::strip(ty)) else {
            return false;
        };
        let names = query::names_of(path);
        if names.len() == 0 {
            return false;
        }
        proof {
            assert(strings(names@)[0] == names@[0]@);
        }
        if let Some(Some(prefix)) = self.imports.get(names[0].as_str()) {
            proof {
                if prefix@.len() > 0 {
                    assert(strings(prefix@)[0] == prefix@[0]@);
                }
            }
            return prefix.len() > 0 && !text::same(prefix[0].as_str(), "crate") && !text::same(prefix[0].as_str(), "self") && !text::same(
                prefix[0].as_str(),
                "super",
            );
        }
        false
    }

    /// Whether a type comes from outside the workspace and is known to have no `Default`.
    fn is_from_outside(&self, ty: &Node) -> (r: bool)
        ensures
            r == is_foreign(*ty, self@.imports),
    {
        let path = self.full_path_of(ty);
        let size: usize = path.len();
        if size == 0 {
            return false;
        }
        let standard = leads_into_standard(&path);
        if !standard && !self.comes_from_outside(ty) {
            return false;
        }
        proof {
            assert(strings(path@).last() == path@.last()@);
        }
        let last = path[size - 1].as_str();
        if names_error(last) && !(standard && size == 3 && text::same(path[1].as_str(), "fmt") && text::same(path[2].as_str(), "Error")) {
            return true;
        }
        standard && size == 3 && text::same(path[1].as_str(), "time") && (text::same(path[2].as_str(), "Instant") || text::same(
            path[2].as_str(),
            "SystemTime",
        ))
    }

    /// The type that `Self`, or an associated type of it, stands for; else the type itself.
    fn resolve_self<'b>(&'b self, ty: &'b Node) -> (r: &'b Node)
        ensures
            *r == self@.resolved(*ty),
    {
        let Some(path) = query::path_of_type(query::strip(ty)) else {
            return ty;
        };
        let names = query::names_of(path);
        if names.len() == 0 {
            return ty;
        }
        proof {
            assert(strings(names@)[0] == names@[0]@);
        }
        if names.len() == 1 && text::same(names[0].as_str(), "Self") {
            return match self.self_type {
                Some(own) => own,
                None => ty,
            };
        }
        if names.len() == 2 && text::same(names[0].as_str(), "Self") {
            proof {
                assert(strings(names@)[1] == names@[1]@);
            }
            if let Some(implementation) = self.implementation {
                return match associated_of(implementation, names[1].as_str()) {
                    Some(own) => own,
                    None => ty,
                };
            }
        }
        ty
    }

    /// Returns whether a type is known to have no `Default`.
    pub fn lacks_default(&self, ty: &Node) -> (r: bool)
        ensures
            r == self@.lacks_default(*ty),
    {
        let own = self.resolve_self(ty);
        self.is_from_outside(own) || self.defaults.lacks_default(own)
    }

    /// Returns whether there is no value of a type to be had.
    pub fn is_undefaultable(&self, ty: &Node) -> (r: bool)
        ensures
            r == self@.is_undefaultable(*ty),
    {
        is_abstract_type(ty, self.abstracts) || self.lacks_default(ty)
    }

    /// Returns whether a type is the `Result` of formatting, which names neither of its parts.
    pub fn is_fmt_result(&self, ty: &Node) -> (r: bool)
        ensures
            r == self@.is_fmt_result(*ty),
    {
        let path = self.full_path_of(ty);
        leads_into_standard(&path) && path.len() == 3 && text::same(path[1].as_str(), "fmt") && text::same(path[2].as_str(), "Result")
            && resolve::type_argument(ty, 0).is_none()
    }
}

/// Whether a path leads into the standard library.
fn leads_into_standard(path: &Vec<String>) -> (r: bool)
    ensures
        r == is_standard(strings(path@)),
{
    if path.len() < 2 {
        return false;
    }
    proof {
        assert(strings(path@)[0] == path@[0]@);
    }
    let root = path[0].as_str();
    text::same(root, "std") || text::same(root, "core") || text::same(root, "alloc")
}

/// Returns whether a signature returns a `Result` of an error that there is no value of.
///
/// `Ok(v)` becoming `Err(Default::default())` needs an error value, and the error type is fixed by
/// the signature rather than visible at the call site.
pub fn returns_undefaultable_error(output: &Node, types: &Types<'_>) -> (r: bool)
    ensures
        r == types@.returns_undefaultable_error(*output),
{
    let Some(ty) = output.get(0) else {
        return false;
    };
    if types.is_fmt_result(ty) {
        return false;
    }
    if matches!(resolve::resolve_type(ty), Class::Result) {
        if let Some(error) = resolve::type_argument(ty, 1) {
            return types.is_undefaultable(error);
        }
    }
    match defaults::name_of(ty) {
        Some(alias) => match types.defaults.aliased_error(alias) {
            Some(error) => types.defaults.lacks_error_default(error),
            None => false,
        },
        None => false,
    }
}

} // verus!
