//! What kind of type is written down, read off its syntax alone.
use crate::syntax::query;
use crate::syntax::query::{last_name, path_ident, path_types, stripped, type_path};
use crate::syntax::{Kind, Node};
use crate::text;
use crate::text::begins;
use vstd::prelude::*;

verus! {

/// The coarse classification of a type that decides which values of it are worth trying.
#[derive(Clone, Copy, Debug, PartialEq, Eq, Structural)]
pub enum Class {
    Unit,
    Bool,
    Signed,
    Unsigned,
    Float,
    StaticStr,
    /// A mutable string slice, whose values cannot be string literals.
    MutStr,
    String,
    NonZero,
    Option,
    Result,
    /// Anything built from an iterator of a single element type: `Vec`, `VecDeque`, sets, heaps.
    Collection,
    /// Anything built from an iterator of key-value pairs.
    Mapping,
    /// A smart pointer constructed by `new`: `Box`, `Rc`, `Arc`.
    Wrapper,
    Cow,
    Iterator,
    Tuple,
    Reference,
    Unknown,
}

/// The class of a type by the name of its last path segment and the number of its type arguments.
pub open spec fn class_of_name(name: Seq<char>, arity: nat) -> Class {
    if begins(name, "NonZero"@) && name != "NonZero"@ {
        if arity == 0 {
            Class::NonZero
        } else {
            Class::Unknown
        }
    } else if arity == 0 {
        if name == "bool"@ {
            Class::Bool
        } else if name == "i8"@ || name == "i16"@ || name == "i32"@ || name == "i64"@ || name == "i128"@ || name == "isize"@ {
            Class::Signed
        } else if name == "u8"@ || name == "u16"@ || name == "u32"@ || name == "u64"@ || name == "u128"@ || name == "usize"@ {
            Class::Unsigned
        } else if name == "f32"@ || name == "f64"@ {
            Class::Float
        } else if name == "String"@ {
            Class::String
        } else {
            Class::Unknown
        }
    } else if name == "Option"@ {
        Class::Option
    } else if name == "Result"@ {
        Class::Result
    } else if name == "Vec"@ || name == "VecDeque"@ || name == "HashSet"@ || name == "BTreeSet"@ || name == "BinaryHeap"@ || name
        == "LinkedList"@ {
        Class::Collection
    } else if (name == "HashMap"@ || name == "BTreeMap"@) && arity >= 2 {
        Class::Mapping
    } else if name == "Box"@ || name == "Rc"@ || name == "Arc"@ {
        Class::Wrapper
    } else if name == "Cow"@ {
        Class::Cow
    } else {
        Class::Unknown
    }
}

/// Whether a bound is one of the iterator traits that a value can be made up for.
pub open spec fn is_iterator_bound(bound: Node) -> bool {
    bound.kind == Kind::BoundTrait && (bound.kid(0) matches Some(path) && (last_name(path) matches Some(name) && (name == "Iterator"@
        || name == "DoubleEndedIterator"@ || name == "ExactSizeIterator"@ || name == "FusedIterator"@)))
}

/// The class of a type.
///
/// Only the last segment of a path is compared, because a standard type may be written bare, fully
/// qualified, or re-exported. The number of type arguments is compared as well: a `Vec` that takes
/// none is somebody else's `Vec`.
pub open spec fn class_of(ty: Node) -> Class
    decreases ty,
{
    if ty.kind == Kind::TypeTuple {
        if ty.kids@.len() == 0 {
            Class::Unit
        } else {
            Class::Tuple
        }
    } else if ty.kind == (Kind::TypeReference { mutable: false }) || ty.kind == (Kind::TypeReference { mutable: true }) {
        match ty.kid(0) {
            Some(elem) => if type_path(elem) matches Some(path) && path_ident(path) == Some("str"@) {
                if ty.kind == (Kind::TypeReference { mutable: true }) {
                    Class::MutStr
                } else {
                    Class::StaticStr
                }
            } else if elem.kind == Kind::TypeSlice {
                Class::Unknown
            } else {
                Class::Reference
            },
            None => Class::Reference,
        }
    } else if ty.kind == Kind::TypeParen && ty.kids@.len() > 0 {
        class_of(ty.kids@[0])
    } else if ty.kind == Kind::TypeImplTrait {
        if exists|i: int| 0 <= i < ty.kids@.len() && is_iterator_bound(#[trigger] ty.kids@[i]) {
            Class::Iterator
        } else {
            Class::Unknown
        }
    } else {
        match type_path(ty) {
            Some(path) => match last_name(path) {
                Some(name) => class_of_name(name, path_types(path).len()),
                None => Class::Unknown,
            },
            None => Class::Unknown,
        }
    }
}

/// The class of a type by the name of its last path segment and the number of its type arguments.
fn resolve_name(name: &str, arity: usize) -> (r: Class)
    ensures
        r == class_of_name(name@, arity as nat),
{
    if text::starts_with(name, "NonZero") && !text::same(name, "NonZero") {
        if arity == 0 {
            Class::NonZero
        } else {
            Class::Unknown
        }
    } else if arity == 0 {
        if text::same(name, "bool") {
            Class::Bool
        } else if text::same(name, "i8") || text::same(name, "i16") || text::same(name, "i32") || text::same(name, "i64") || text::same(
            name,
            "i128",
        ) || text::same(name, "isize") {
            Class::Signed
        } else if text::same(name, "u8") || text::same(name, "u16") || text::same(name, "u32") || text::same(name, "u64") || text::same(
            name,
            "u128",
        ) || text::same(name, "usize") {
            Class::Unsigned
        } else if text::same(name, "f32") || text::same(name, "f64") {
            Class::Float
        } else if text::same(name, "String") {
            Class::String
        } else {
            Class::Unknown
        }
    } else if text::same(name, "Option") {
        Class::Option
    } else if text::same(name, "Result") {
        Class::Result
    } else if text::same(name, "Vec") || text::same(name, "VecDeque") || text::same(name, "HashSet") || text::same(name, "BTreeSet")
        || text::same(name, "BinaryHeap") || text::same(name, "LinkedList") {
        Class::Collection
    } else if (text::same(name, "HashMap") || text::same(name, "BTreeMap")) && arity >= 2 {
        Class::Mapping
    } else if text::same(name, "Box") || text::same(name, "Rc") || text::same(name, "Arc") {
        Class::Wrapper
    } else if text::same(name, "Cow") {
        Class::Cow
    } else {
        Class::Unknown
    }
}

/// Whether a bound is one of the iterator traits that a value can be made up for.
fn bounds_iterator(bound: &Node) -> (r: bool)
    ensures
        r == is_iterator_bound(*bound),
{
    if !matches!(bound.kind, Kind::BoundTrait) {
        return false;
    }
    match bound.get(0) {
        Some(path) => match query::last_name_of(path) {
            Some(name) => text::same(name, "Iterator") || text::same(name, "DoubleEndedIterator") || text::same(name, "ExactSizeIterator")
                || text::same(name, "FusedIterator"),
            None => false,
        },
        None => false,
    }
}

/// Classifies a type syntactically.
///
/// A local type that shadows a standard name and matches its arity remains indistinguishable from
/// it, which is the accepted cost of not resolving names.
pub fn resolve_type(ty: &Node) -> (r: Class)
    ensures
        r == class_of(*ty),
    decreases ty,
{
    match ty.kind {
        Kind::TypeTuple => if ty.kids.len() == 0 {
            Class::Unit
        } else {
            Class::Tuple
        },
        Kind::TypeReference { mutable } => match ty.get(0) {
            Some(elem) => {
                let text = match query::path_of_type(elem) {
                    Some(path) => query::is_ident(path, "str"),
                    None => false,
                };
                if text {
                    if mutable {
                        Class::MutStr
                    } else {
                        Class::StaticStr
                    }
                } else if matches!(elem.kind, Kind::TypeSlice) {
                    Class::Unknown
                } else {
                    Class::Reference
                }
            },
            None => Class::Reference,
        },
        Kind::TypeParen if ty.kids.len() > 0 => resolve_type(&ty.kids[0]),
        Kind::TypeImplTrait => {
            let mut at: usize = 0;
            while at < ty.kids.len()
                invariant
                    at <= ty.kids@.len(),
                    forall|i: int| 0 <= i < at ==> !is_iterator_bound(#[trigger] ty.kids@[i]),
                    ty.kind == Kind::TypeImplTrait,
                decreases ty.kids@.len() - at,
            {
                if bounds_iterator(&ty.kids[at]) {
                    return Class::Iterator;
                }
                at += 1;
            }
            Class::Unknown
        },
        _ => match query::path_of_type(ty) {
            Some(path) => match query::last_name_of(path) {
                Some(name) => resolve_name(name, query::count_types(path)),
                None => Class::Unknown,
            },
            None => Class::Unknown,
        },
    }
}

/// A type argument of a type that is a path, behind any parentheses.
pub open spec fn argument(ty: Node, index: int) -> Option<Node> {
    match type_path(stripped(ty)) {
        Some(path) => if 0 <= index < path_types(path).len() {
            Some(path_types(path)[index])
        } else {
            None
        },
        None => None,
    }
}

/// The `index`th type argument of a path type, ignoring lifetimes and const generics.
pub fn type_argument(ty: &Node, index: usize) -> (r: Option<&Node>)
    ensures
        r is Some <==> argument(*ty, index as int) is Some,
        r matches Some(inner) ==> argument(*ty, index as int) == Some(*inner) && decreases_to!(*ty => *inner),
{
    match query::path_of_type(query::strip(ty)) {
        Some(path) => query::type_at(path, index),
        None => None,
    }
}

/// Whether a class is that of a number.
pub open spec fn is_number(class: Class) -> bool {
    class == Class::Signed || class == Class::Unsigned || class == Class::Float
}

/// Whether a written-down type is one that `+ 1` applies to, behind any references.
pub open spec fn is_numeric_type_node(ty: Node) -> bool
    decreases ty,
{
    if ty.kind == (Kind::TypeReference { mutable: false }) || ty.kind == (Kind::TypeReference { mutable: true }) {
        match ty.kid(0) {
            Some(elem) => is_numeric_type_node(elem),
            None => false,
        }
    } else {
        is_number(class_of(ty))
    }
}

/// Whether a written-down type is one that `+ 1` applies to.
///
/// References are peeled first: `&usize + 1` compiles, so treating a reference as a non-number
/// would throw away a mutant that builds and runs.
pub fn is_numeric_binding(ty: &Node) -> (r: bool)
    ensures
        r == is_numeric_type_node(*ty),
    decreases ty,
{
    match ty.kind {
        Kind::TypeReference { .. } => match ty.get(0) {
            Some(elem) => is_numeric_binding(elem),
            None => false,
        },
        _ => matches!(resolve_type(ty), Class::Signed | Class::Unsigned | Class::Float),
    }
}

/// The class of a return type, if one is written.
pub open spec fn output_class(output: Node) -> Option<Class> {
    match output.kid(0) {
        Some(ty) => Some(class_of(ty)),
        None => None,
    }
}

/// Whether a signature promises a number, which is the only thing worth perturbing by one.
pub fn is_numeric_return(output: &Node) -> (r: bool)
    ensures
        r == (output_class(*output) matches Some(class) && is_number(class)),
{
    match output.get(0) {
        Some(ty) => matches!(resolve_type(ty), Class::Signed | Class::Unsigned | Class::Float),
        None => false,
    }
}

/// Whether a function's return type is syntactically a `Result`.
pub fn returns_result(output: &Node) -> (r: bool)
    ensures
        r == (output_class(*output) == Some(Class::Result)),
{
    match output.get(0) {
        Some(ty) => matches!(resolve_type(ty), Class::Result),
        None => false,
    }
}

} // verus!
