//! The replacement values a function's return type admits.
use super::resolve;
use super::resolve::{argument, class_of, Class};
use super::types::{is_abstract, is_abstract_type, node_of, Types, Typing};
use crate::syntax::query;
use crate::syntax::query::{last_arguments, path_names, stripped, type_path};
use crate::syntax::{Kind, Node};
use crate::text;
use crate::text::strings;
use vstd::prelude::*;

pub mod laws;

verus! {

/// How deep the recursion through nested return types is allowed to go.
///
/// Each level multiplies the number of values below it. Three levels reach `Result<Option<bool>,
/// E>`, which is the shape this exists for.
pub const RETURN_DEPTH: usize = 3;

/// The most replacement values any single return type may contribute.
///
/// The bound is on the product, not on any one level, because it is the product that decides how
/// many mutants a function costs.
pub const RETURN_WIDTH: usize = 8;

/// A mutator and the text of a value.
pub type Value = (Seq<char>, Seq<char>);

/// What there is to read in mutators and the texts of values.
pub open spec fn read_values(values: Seq<(&'static str, String)>) -> Seq<Value> {
    values.map_values(|value: (&'static str, String)| (value.0@, value.1@))
}

// ---- Texts. ----

/// Texts with a separator between them.
pub open spec fn joined(parts: Seq<Seq<char>>, separator: Seq<char>) -> Seq<char>
    decreases parts.len(),
{
    if parts.len() == 0 {
        Seq::empty()
    } else if parts.len() == 1 {
        parts[0]
    } else {
        joined(parts.drop_last(), separator) + separator + parts.last()
    }
}

/// Joins texts with a separator between them.
pub fn join(parts: &Vec<String>, separator: &str) -> (r: String)
    ensures
        r@ == joined(strings(parts@), separator@),
{
    let mut out = String::new();
    let mut at: usize = 0;
    let ghost all = strings(parts@);
    proof {
        assert(all.take(0) =~= Seq::<Seq<char>>::empty());
    }
    while at < parts.len()
        invariant
            at <= parts@.len(),
            all == strings(parts@),
            out@ == joined(all.take(at as int), separator@),
        decreases parts@.len() - at,
    {
        let ghost next = all.take(at + 1);
        proof {
            assert(next.drop_last() =~= all.take(at as int));
            assert(next.last() == parts@[at as int]@);
        }
        if at > 0 {
            out.append(separator);
        }
        out.append(parts[at].as_str());
        proof {
            if at == 0 {
                assert(next.len() == 1);
                assert(out@ =~= parts@[0]@);
            }
        }
        at += 1;
    }
    proof {
        assert(all.take(at as int) =~= all);
    }
    out
}

/// The path text of a type, or another text for a type that is no path.
pub open spec fn path_text(ty: Node, otherwise: Seq<char>) -> Seq<char> {
    match type_path(stripped(ty)) {
        Some(path) => joined(path_names(path), "::"@),
        None => otherwise,
    }
}

/// The path text of a type, or another text for a type that is no path.
fn path_text_of(ty: &Node, otherwise: &str) -> (r: String)
    ensures
        r@ == path_text(*ty, otherwise@),
{
    match query::path_of_type(query::strip(ty)) {
        Some(path) => join(&query::names_of(path), "::"),
        None => text::owned(otherwise),
    }
}

/// The path text of a type, so that an associated function can be called on it.
pub fn type_text(ty: &Node) -> (r: String)
    ensures
        r@ == path_text(*ty, "Default"@),
{
    path_text_of(ty, "Default")
}

/// The constructor path for a collection type, keeping any qualification the author wrote.
pub fn collection_ctor(ty: &Node) -> (r: String)
    ensures
        r@ == path_text(*ty, "Vec"@),
{
    path_text_of(ty, "Vec")
}

// ---- Lists of values. ----

/// A value of one kind.
pub open spec fn value(mutator: Seq<char>, text: Seq<char>) -> Seq<Value> {
    seq![(mutator, text)]
}

/// Truncates a value list to the width bound.
pub open spec fn capped(values: Seq<Value>) -> Seq<Value> {
    if values.len() <= RETURN_WIDTH {
        values
    } else {
        values.take(RETURN_WIDTH as int)
    }
}

/// Values with text around them, under another mutator if one is given.
pub open spec fn wrapped(values: Seq<Value>, mutator: Option<Seq<char>>, before: Seq<char>, after: Seq<char>) -> Seq<Value> {
    values.map_values(
        |value: Value|
            (
                match mutator {
                    Some(mutator) => mutator,
                    None => value.0,
                },
                before + value.1 + after,
            ),
    )
}

/// A list of one value.
fn one(mutator: &'static str, text: &str) -> (r: Vec<(&'static str, String)>)
    ensures
        read_values(r@) == value(mutator@, text@),
{
    let mut values: Vec<(&'static str, String)> = Vec::new();
    push(&mut values, mutator, text);
    proof {
        assert(read_values(values@) =~= value(mutator@, text@));
    }
    values
}

/// Appends a value to a list.
fn push(values: &mut Vec<(&'static str, String)>, mutator: &'static str, text: &str)
    ensures
        read_values(final(values)@) == read_values(old(values)@).push((mutator@, text@)),
{
    let ghost before = read_values(values@);
    values.push((mutator, text::owned(text)));
    proof {
        assert(read_values(values@) =~= before.push((mutator@, text@)));
    }
}

/// Truncates a value list to the width bound.
pub fn cap(values: Vec<(&'static str, String)>) -> (r: Vec<(&'static str, String)>)
    ensures
        read_values(r@) == capped(read_values(values@)),
{
    let ghost all = read_values(values@);
    let mut kept = values;
    if kept.len() > RETURN_WIDTH {
        kept.truncate(RETURN_WIDTH);
        proof {
            assert(read_values(kept@) =~= all.take(RETURN_WIDTH as int));
        }
    }
    kept
}

/// Appends values with text around them, under another mutator if one is given.
fn extend_wrapped(
    out: &mut Vec<(&'static str, String)>,
    values: &Vec<(&'static str, String)>,
    mutator: Option<&'static str>,
    before: &str,
    after: &str,
)
    ensures
        read_values(final(out)@) == read_values(old(out)@) + wrapped(read_values(values@), text::viewed(mutator), before@, after@),
{
    let ghost start = read_values(out@);
    let ghost all = wrapped(read_values(values@), text::viewed(mutator), before@, after@);
    let mut at: usize = 0;
    proof {
        assert(read_values(out@) =~= start + all.take(0));
    }
    while at < values.len()
        invariant
            at <= values@.len(),
            all == wrapped(read_values(values@), text::viewed(mutator), before@, after@),
            read_values(out@) == start + all.take(at as int),
        decreases values@.len() - at,
    {
        let mut text = text::owned(before);
        text.append(values[at].1.as_str());
        text.append(after);
        let name = match mutator {
            Some(mutator) => mutator,
            None => values[at].0,
        };
        let ghost earlier = read_values(out@);
        let ghost written = text@;
        out.push((name, text));
        proof {
            assert(read_values(out@) =~= earlier.push((name@, written)));
            assert(all[at as int] == (name@, written));
            assert(all.take(at + 1) =~= all.take(at as int).push(all[at as int]));
            assert(read_values(out@) =~= start + all.take(at + 1));
        }
        at += 1;
    }
    proof {
        assert(all.take(at as int) =~= all);
    }
}

/// Values with text around them, under another mutator if one is given.
fn wrap(values: &Vec<(&'static str, String)>, mutator: Option<&'static str>, before: &str, after: &str) -> (r: Vec<(&'static str, String)>)
    ensures
        read_values(r@) == wrapped(read_values(values@), text::viewed(mutator), before@, after@),
{
    let mut out: Vec<(&'static str, String)> = Vec::new();
    extend_wrapped(&mut out, values, mutator, before, after);
    proof {
        assert(read_values(out@) =~= wrapped(read_values(values@), text::viewed(mutator), before@, after@));
    }
    out
}

// ---- Fixed values. ----

/// The replacement values for a type that has a fixed list of them.
pub open spec fn fixed_values(class: Class, ty: Node) -> Seq<Value> {
    match class {
        Class::Unit => seq![("fn_value.unit"@, "()"@)],
        Class::Bool => seq![("fn_value.bool_true"@, "true"@), ("fn_value.bool_false"@, "false"@)],
        Class::Signed => seq![("fn_value.zero"@, "0"@), ("fn_value.one"@, "1"@), ("fn_value.minus_one"@, "-1"@)],
        Class::Unsigned => seq![("fn_value.zero"@, "0"@), ("fn_value.one"@, "1"@)],
        Class::Float => seq![("fn_value.zero"@, "0.0"@), ("fn_value.one"@, "1.0"@), ("fn_value.minus_one"@, "-1.0"@)],
        Class::StaticStr => seq![("fn_value.empty_string"@, "\"\""@), ("fn_value.xyzzy_string"@, "\"xyzzy\""@)],
        Class::MutStr => seq![
            ("fn_value.empty_string"@, "Box::leak(String::new().into_boxed_str())"@),
            ("fn_value.xyzzy_string"@, "Box::leak(String::from(\"xyzzy\").into_boxed_str())"@),
        ],
        Class::String => seq![("fn_value.empty_string"@, "String::new()"@), ("fn_value.xyzzy_string"@, "\"xyzzy\".to_owned()"@)],
        Class::NonZero => seq![
            ("fn_value.one"@, path_text(ty, "Default"@) + "::new(1).unwrap()"@),
            ("fn_value.two"@, path_text(ty, "Default"@) + "::new(2).unwrap()"@),
        ],
        _ => Seq::empty(),
    }
}

/// The replacement values for a type that has a fixed list of them.
///
/// These are the classes whose values can be written down directly, as opposed to the containers
/// and wrappers whose values are built from another type's. The others contribute nothing here.
pub fn literal_values(class: Class, ty: &Node) -> (r: Vec<(&'static str, String)>)
    ensures
        read_values(r@) == fixed_values(class, *ty),
{
    let mut values: Vec<(&'static str, String)> = Vec::new();
    proof {
        assert(read_values(values@) =~= Seq::<Value>::empty());
    }
    match class {
        Class::Unit => {
            push(&mut values, "fn_value.unit", "()");
        },
        Class::Bool => {
            push(&mut values, "fn_value.bool_true", "true");
            push(&mut values, "fn_value.bool_false", "false");
        },
        Class::Signed => {
            push(&mut values, "fn_value.zero", "0");
            push(&mut values, "fn_value.one", "1");
            push(&mut values, "fn_value.minus_one", "-1");
        },
        Class::Unsigned => {
            push(&mut values, "fn_value.zero", "0");
            push(&mut values, "fn_value.one", "1");
        },
        Class::Float => {
            push(&mut values, "fn_value.zero", "0.0");
            push(&mut values, "fn_value.one", "1.0");
            push(&mut values, "fn_value.minus_one", "-1.0");
        },
        Class::StaticStr => {
            push(&mut values, "fn_value.empty_string", "\"\"");
            push(&mut values, "fn_value.xyzzy_string", "\"xyzzy\"");
        },
        Class::MutStr => {
            push(&mut values, "fn_value.empty_string", "Box::leak(String::new().into_boxed_str())");
            push(&mut values, "fn_value.xyzzy_string", "Box::leak(String::from(\"xyzzy\").into_boxed_str())");
        },
        Class::String => {
            push(&mut values, "fn_value.empty_string", "String::new()");
            push(&mut values, "fn_value.xyzzy_string", "\"xyzzy\".to_owned()");
        },
        Class::NonZero => {
            let mut first = type_text(ty);
            first.append("::new(1).unwrap()");
            let mut second = type_text(ty);
            second.append("::new(2).unwrap()");
            push(&mut values, "fn_value.one", first.as_str());
            push(&mut values, "fn_value.two", second.as_str());
        },
        _ => {},
    }
    proof {
        assert(read_values(values@) =~= fixed_values(class, *ty));
    }
    values
}

// ---- Parts of types. ----

/// The type a reference points at, seeing through parentheses.
pub open spec fn pointee(ty: Node) -> Option<Node>
    decreases ty,
{
    match ty.kind {
        Kind::TypeReference { .. } => ty.kid(0),
        Kind::TypeParen => if ty.kids@.len() > 0 {
            pointee(ty.kids@[0])
        } else {
            None
        },
        _ => None,
    }
}

/// The type a reference points at, seeing through parentheses.
pub fn reference_elem(ty: &Node) -> (r: Option<&Node>)
    ensures
        node_of(r) == pointee(*ty),
    decreases ty,
{
    match ty.kind {
        Kind::TypeReference { .. } => ty.get(0),
        Kind::TypeParen => if ty.kids.len() > 0 {
            reference_elem(&ty.kids[0])
        } else {
            None
        },
        _ => None,
    }
}

/// The first `Item` that generic arguments bind.
pub open spec fn item_among(args: Seq<Node>) -> Option<Node>
    decreases args.len(),
{
    if args.len() == 0 {
        None
    } else if args[0].kind == Kind::ArgAssocType && args[0].word(0) == "Item"@ && args[0].kids@.len() == 3 {
        Some(args[0].kids@[2])
    } else {
        item_among(args.drop_first())
    }
}

/// The `Item` that a bound binds.
pub open spec fn bound_item(bound: Node) -> Option<Node> {
    if bound.kind == Kind::BoundTrait {
        match bound.kid(0) {
            Some(path) => match last_arguments(path) {
                Some(args) => item_among(args.kids@),
                None => None,
            },
            None => None,
        }
    } else {
        None
    }
}

/// The first `Item` that bounds bind.
pub open spec fn first_item(bounds: Seq<Node>) -> Option<Node>
    decreases bounds.len(),
{
    if bounds.len() == 0 {
        None
    } else if bound_item(bounds[0]) is Some {
        bound_item(bounds[0])
    } else {
        first_item(bounds.drop_first())
    }
}

/// The `Item` type an `impl Iterator` binds, if it writes one.
pub open spec fn item_of(ty: Node) -> Option<Node> {
    if stripped(ty).kind == Kind::TypeImplTrait {
        first_item(stripped(ty).kids@)
    } else {
        None
    }
}

/// The first `Item` that generic arguments bind, from `at` on.
fn find_item(args: &Node, at: usize) -> (r: Option<&Node>)
    requires
        at <= args.kids@.len(),
    ensures
        node_of(r) == item_among(args.kids@.skip(at as int)),
    decreases args.kids@.len() - at,
{
    if at == args.kids.len() {
        return None;
    }
    let arg = &args.kids[at];
    proof {
        let part = args.kids@.skip(at as int);
        assert(part[0] == *arg);
        assert(part.drop_first() =~= args.kids@.skip(at + 1));
    }
    if matches!(arg.kind, Kind::ArgAssocType) && text::same(arg.get_word(0), "Item") && arg.kids.len() == 3 {
        Some(&arg.kids[2])
    } else {
        find_item(args, at + 1)
    }
}

/// The `Item` that a bound binds.
fn item_of_bound(bound: &Node) -> (r: Option<&Node>)
    ensures
        node_of(r) == bound_item(*bound),
{
    if !matches!(bound.kind, Kind::BoundTrait) {
        return None;
    }
    match bound.get(0) {
        Some(path) => match query::arguments_of(path) {
            Some(args) => {
                proof {
                    assert(args.kids@.skip(0) =~= args.kids@);
                }
                find_item(args, 0)
            },
            None => None,
        },
        None => None,
    }
}

/// The first `Item` that bounds bind, from `at` on.
fn find_bound_item(ty: &Node, at: usize) -> (r: Option<&Node>)
    requires
        at <= ty.kids@.len(),
    ensures
        node_of(r) == first_item(ty.kids@.skip(at as int)),
    decreases ty.kids@.len() - at,
{
    if at == ty.kids.len() {
        return None;
    }
    proof {
        let part = ty.kids@.skip(at as int);
        assert(part[0] == ty.kids@[at as int]);
        assert(part.drop_first() =~= ty.kids@.skip(at + 1));
    }
    match item_of_bound(&ty.kids[at]) {
        Some(item) => Some(item),
        None => find_bound_item(ty, at + 1),
    }
}

/// The `Item` type an `impl Iterator` signature binds, when it wrote one.
///
/// A bare `impl Iterator` gives nothing to build a value from. That costs only the one-element
/// mutant: the empty one needs no item type.
pub fn iterator_item(ty: &Node) -> (r: Option<&Node>)
    ensures
        node_of(r) == item_of(*ty),
{
    let bare = query::strip(ty);
    if !matches!(bare.kind, Kind::TypeImplTrait) {
        return None;
    }
    proof {
        assert(bare.kids@.skip(0) =~= bare.kids@);
    }
    find_bound_item(bare, 0)
}

// ---- Values by recursion. ----

/// `Default::default()`, the guess for a type whose values cannot be named.
pub open spec fn fallback() -> Seq<Value> {
    value("fn_value.default"@, "Default::default()"@)
}

/// The values of a generic type's type argument, read to a depth.
pub open spec fn inner_of(ty: Node, index: int, depth: nat, types: Typing) -> Seq<Value>
    decreases depth, 1nat,
{
    match argument(ty, index) {
        Some(inner) => values_of(inner, depth, types),
        None => fallback(),
    }
}

/// Every combination of texts with one more text at their end.
pub open spec fn products(existing: Seq<Seq<Seq<char>>>, choices: Seq<Value>) -> Seq<Seq<Seq<char>>>
    decreases existing.len(),
{
    if existing.len() == 0 {
        Seq::empty()
    } else {
        products(existing.drop_last(), choices) + choices.map_values(|choice: Value| existing.last().push(choice.1))
    }
}

/// The first combinations, up to the width bound.
pub open spec fn narrow(combinations: Seq<Seq<Seq<char>>>) -> Seq<Seq<Seq<char>>> {
    if combinations.len() <= RETURN_WIDTH {
        combinations
    } else {
        combinations.take(RETURN_WIDTH as int)
    }
}

/// The combinations of the values of several types.
pub open spec fn combinations_of(elems: Seq<Node>, depth: nat, types: Typing) -> Seq<Seq<Seq<char>>>
    decreases depth, 1nat, elems.len(),
{
    if elems.len() == 0 {
        seq![Seq::empty()]
    } else {
        let choices = values_of(elems.last(), depth, types);
        narrow(products(combinations_of(elems.drop_last(), depth, types), choices))
    }
}

/// The text of a tuple of values.
pub open spec fn tuple_text(parts: Seq<Seq<char>>) -> Seq<char> {
    if parts.len() == 1 {
        "("@ + parts[0] + ",)"@
    } else {
        "("@ + joined(parts, ", "@) + ")"@
    }
}

/// Every combination of a tuple's element values.
pub open spec fn tuples_of(ty: Node, depth: nat, types: Typing) -> Seq<Value>
    decreases depth, 2nat,
{
    if stripped(ty).kind == Kind::TypeTuple {
        combinations_of(stripped(ty).kids@, depth, types).map_values(|parts: Seq<Seq<char>>| ("fn_value.tuple"@, tuple_text(parts)))
    } else {
        fallback()
    }
}

/// The values for a reference, produced by leaking a box.
pub open spec fn references_of(ty: Node, depth: nat, types: Typing) -> Seq<Value>
    decreases depth, 2nat,
{
    match pointee(ty) {
        Some(elem) => {
            let inner = values_of(elem, depth, types);
            let prefix = if stripped(ty).kind == (Kind::TypeReference { mutable: false }) {
                "&*"@
            } else {
                ""@
            };
            capped(wrapped(inner, None, prefix + "Box::leak(Box::new("@, "))"@))
        },
        None => Seq::empty(),
    }
}

/// The values of a class that is built from another type's values, which are read to a depth.
pub open spec fn composed_values(class: Class, ty: Node, depth: nat, types: Typing) -> Seq<Value>
    decreases depth, 3nat,
{
    let inner = inner_of(ty, 0, depth, types);
    let screened = argument(ty, 0) matches Some(payload) && types.is_undefaultable(payload);
    match class {
        Class::Option => capped(
            value("fn_value.none"@, "None"@) + if inner.len() > 0 {
                wrapped(inner, Some("fn_value.some"@), "Some("@, ")"@)
            } else if screened {
                Seq::empty()
            } else {
                value("fn_value.some_default"@, "Some(Default::default())"@)
            },
        ),
        Class::Result => capped(
            (if inner.len() > 0 {
                wrapped(inner, Some("fn_value.ok"@), "Ok("@, ")"@)
            } else if screened {
                Seq::empty()
            } else {
                value("fn_value.ok_default"@, "Ok(Default::default())"@)
            }) + if argument(ty, 1) matches Some(error) && !types.is_undefaultable(error) {
                value("fn_value.err_default"@, "Err(Default::default())"@)
            } else {
                Seq::empty()
            },
        ),
        Class::Collection => capped(
            value("fn_value.empty_collection"@, path_text(ty, "Vec"@) + "::new()"@) + wrapped(
                inner,
                Some("fn_value.one_element"@),
                "core::iter::once("@,
                ").collect()"@,
            ),
        ),
        Class::Mapping => {
            let values = inner_of(ty, 1, depth, types);
            capped(
                value("fn_value.empty_collection"@, path_text(ty, "Vec"@) + "::new()"@) + if inner.len() > 0 && values.len() > 0 {
                    value("fn_value.one_element"@, "core::iter::once(("@ + inner[0].1 + ", "@ + values[0].1 + ")).collect()"@)
                } else {
                    Seq::empty()
                },
            )
        },
        Class::Wrapper => capped(wrapped(inner, None, path_text(ty, "Vec"@) + "::new("@, ")"@)),
        Class::Cow => capped(wrapped(inner, None, path_text(ty, "Vec"@) + "::Owned("@, ")"@)),
        Class::Iterator => capped(
            value("fn_value.empty_collection"@, "core::iter::empty()"@) + match item_of(ty) {
                Some(item) => wrapped(
                    values_of(item, depth, types),
                    Some("fn_value.one_element"@),
                    "core::iter::once("@,
                    ")"@,
                ),
                None => Seq::empty(),
            },
        ),
        Class::Reference => references_of(ty, depth, types),
        Class::Tuple => tuples_of(ty, depth, types),
        _ => fallback(),
    }
}

/// Whether the values of a class are written out rather than built from another type's.
pub open spec fn is_fixed(class: Class) -> bool {
    match class {
        Class::Unit
        | Class::Bool
        | Class::Signed
        | Class::Unsigned
        | Class::Float
        | Class::StaticStr
        | Class::MutStr
        | Class::String
        | Class::NonZero => true,
        _ => false,
    }
}

/// The replacement values for a type, read to a depth.
///
/// An abstract type contributes nothing rather than a guess, and so does a type that is known to
/// have no `Default`. At depth zero a type contributes `Default::default()`, because a value that
/// type-checks is still worth trying even when its shape is unknown.
pub open spec fn values_of(ty: Node, depth: nat, types: Typing) -> Seq<Value>
    decreases depth, 0nat,
{
    let class = if types.is_fmt_result(ty) {
        Class::Result
    } else {
        class_of(ty)
    };
    if class != Class::Iterator && is_abstract(ty, types.abstracts) {
        Seq::empty()
    } else if class == Class::Unknown && types.lacks_default(ty) {
        Seq::empty()
    } else if depth == 0 {
        fallback()
    } else if is_fixed(class) {
        fixed_values(class, ty)
    } else {
        composed_values(class, ty, (depth - 1) as nat, types)
    }
}

/// One level less.
pub open spec fn less(depth: usize) -> nat {
    if depth == 0 {
        0
    } else {
        (depth - 1) as nat
    }
}

/// The values of a generic type's `index`th type parameter.
///
/// Lifetime and const parameters are skipped, so `Cow<'a, str>` finds `str` at index zero the way
/// `Option<T>` finds `T`.
pub fn inner_values(ty: &Node, index: usize, depth: usize, types: &Types<'_>) -> (r: Vec<(&'static str, String)>)
    ensures
        read_values(r@) == inner_of(*ty, index as int, less(depth), types@),
    decreases less(depth), 1nat,
{
    match resolve::type_argument(ty, index) {
        Some(inner) => values_for(
            inner,
            if depth == 0 {
                0
            } else {
                depth - 1
            },
            types,
        ),
        None => one("fn_value.default", "Default::default()"),
    }
}

/// A copy of texts with one more at their end.
fn with_last(parts: &Vec<String>, last: &str) -> (r: Vec<String>)
    ensures
        strings(r@) == strings(parts@).push(last@),
{
    let mut out: Vec<String> = Vec::new();
    crate::ops::collect::defaults::copied(parts, 0, &mut out);
    let ghost before = strings(out@);
    out.push(text::owned(last));
    proof {
        assert(before =~= strings(parts@));
        assert(strings(out@) =~= strings(parts@).push(last@));
    }
    out
}

/// What there is to read in combinations of texts.
pub open spec fn read_combinations(combinations: Seq<Vec<String>>) -> Seq<Seq<Seq<char>>> {
    combinations.map_values(|parts: Vec<String>| strings(parts@))
}

/// Every combination of texts with one more text at their end, up to the width bound.
fn extend_combinations(existing: &Vec<Vec<String>>, choices: &Vec<(&'static str, String)>) -> (r: Vec<Vec<String>>)
    ensures
        read_combinations(r@) == narrow(products(read_combinations(existing@), read_values(choices@))),
{
    let mut next: Vec<Vec<String>> = Vec::new();
    let ghost all = read_combinations(existing@);
    let ghost given = read_values(choices@);
    let mut at: usize = 0;
    proof {
        assert(all.take(0) =~= Seq::<Seq<Seq<char>>>::empty());
        assert(read_combinations(next@) =~= narrow(products(all.take(0), given)));
    }
    while at < existing.len()
        invariant
            at <= existing@.len(),
            all == read_combinations(existing@),
            given == read_values(choices@),
            read_combinations(next@) == narrow(products(all.take(at as int), given)),
        decreases existing@.len() - at,
    {
        let ghost done = products(all.take(at as int), given);
        let ghost own = given.map_values(|choice: Value| all[at as int].push(choice.1));
        let mut index: usize = 0;
        proof {
            assert(all.take(at + 1).drop_last() =~= all.take(at as int));
            assert(all.take(at + 1).last() == all[at as int]);
            assert(done + own.take(0) =~= done);
        }
        while index < choices.len() && next.len() < RETURN_WIDTH
            invariant
                index <= choices@.len(),
                at < existing@.len(),
                all == read_combinations(existing@),
                given == read_values(choices@),
                own == given.map_values(|choice: Value| all[at as int].push(choice.1)),
                read_combinations(next@) == narrow(done + own.take(index as int)),
            decreases choices@.len() - index,
        {
            let ghost before = read_combinations(next@);
            let combination = with_last(&existing[at], choices[index].1.as_str());
            let ghost made = strings(combination@);
            next.push(combination);
            proof {
                assert(read_combinations(next@) =~= before.push(made));
                assert(made == own[index as int]);
                assert(before.len() < RETURN_WIDTH);
                assert((done + own.take(index as int)).len() < RETURN_WIDTH);
                assert(done + own.take(index + 1) =~= (done + own.take(index as int)).push(own[index as int]));
            }
            index += 1;
        }
        proof {
            let whole = done + own;
            assert(products(all.take(at + 1), given) =~= whole);
            if index == choices@.len() {
                assert(own.take(index as int) =~= own);
            } else {
                assert(next@.len() >= RETURN_WIDTH);
                let part = done + own.take(index as int);
                assert(part.len() >= RETURN_WIDTH);
                assert(whole.take(RETURN_WIDTH as int) =~= part.take(RETURN_WIDTH as int));
            }
        }
        at += 1;
    }
    proof {
        assert(all.take(at as int) =~= all);
    }
    next
}

/// Every combination of a tuple's element values, which is where the width bound earns its keep:
/// three fields with three values each is twenty-seven mutants for a single function.
pub fn tuple_values(ty: &Node, depth: usize, types: &Types<'_>) -> (r: Vec<(&'static str, String)>)
    ensures
        read_values(r@) == tuples_of(*ty, less(depth), types@),
    decreases less(depth), 2nat,
{
    let tuple = query::strip(ty);
    if !matches!(tuple.kind, Kind::TypeTuple) {
        return one("fn_value.default", "Default::default()");
    }
    let inner: usize = if depth == 0 {
        0
    } else {
        depth - 1
    };
    let mut combinations: Vec<Vec<String>> = Vec::new();
    combinations.push(Vec::new());
    let mut at: usize = 0;
    proof {
        assert(strings(combinations@[0]@) =~= Seq::<Seq<char>>::empty());
        assert(tuple.kids@.take(0) =~= Seq::<Node>::empty());
        assert(read_combinations(combinations@) =~= combinations_of(tuple.kids@.take(0), inner as nat, types@));
    }
    while at < tuple.kids.len()
        invariant
            at <= tuple.kids@.len(),
            inner as nat == less(depth),
            read_combinations(combinations@) == combinations_of(tuple.kids@.take(at as int), inner as nat, types@),
        decreases tuple.kids@.len() - at,
    {
        let choices = values_for(&tuple.kids[at], inner, types);
        proof {
            assert(tuple.kids@.take(at + 1).drop_last() =~= tuple.kids@.take(at as int));
            assert(tuple.kids@.take(at + 1).last() == tuple.kids@[at as int]);
        }
        combinations = extend_combinations(&combinations, &choices);
        at += 1;
    }
    proof {
        assert(tuple.kids@.take(at as int) =~= tuple.kids@);
    }
    let ghost all = read_combinations(combinations@);
    let ghost wanted = all.map_values(|parts: Seq<Seq<char>>| ("fn_value.tuple"@, tuple_text(parts)));
    let mut values: Vec<(&'static str, String)> = Vec::new();
    let mut index: usize = 0;
    proof {
        assert(read_values(values@) =~= wanted.take(0));
    }
    while index < combinations.len()
        invariant
            index <= combinations@.len(),
            all == read_combinations(combinations@),
            wanted == all.map_values(|parts: Seq<Seq<char>>| ("fn_value.tuple"@, tuple_text(parts))),
            read_values(values@) == wanted.take(index as int),
        decreases combinations@.len() - index,
    {
        let parts = &combinations[index];
        let mut text = text::owned("(");
        proof {
            assert(all[index as int] == strings(parts@));
        }
        if parts.len() == 1 {
            text.append(parts[0].as_str());
            text.append(",)");
        } else {
            text.append(join(parts, ", ").as_str());
            text.append(")");
        }
        proof {
            assert(text@ =~= tuple_text(all[index as int]));
        }
        push(&mut values, "fn_value.tuple", text.as_str());
        index += 1;
        proof {
            assert(wanted.take(index as int) =~= wanted.take(index - 1).push(wanted[index - 1]));
        }
    }
    proof {
        assert(wanted.take(index as int) =~= wanted);
    }
    values
}

/// The values for a reference return, produced by leaking a box.
///
/// A reference has to point at something that outlives the call. `Box::leak` yields a `&'static mut
/// T`, which coerces to a reference of any shorter lifetime and to a shared one. Where the
/// signature asks for a shared one it is reborrowed, because in some positions the type is inferred
/// from the value.
pub fn reference_values(ty: &Node, depth: usize, types: &Types<'_>) -> (r: Vec<(&'static str, String)>)
    ensures
        read_values(r@) == references_of(*ty, less(depth), types@),
    decreases less(depth), 2nat,
{
    let Some(elem) = reference_elem(ty) else {
        let none: Vec<(&'static str, String)> = Vec::new();
        proof {
            assert(read_values(none@) =~= Seq::<Value>::empty());
        }
        return none;
    };
    let shared = matches!(query::strip(ty).kind, Kind::TypeReference { mutable: false });
    let mut before = text::owned(
        if shared {
            "&*"
        } else {
            ""
        },
    );
    before.append("Box::leak(Box::new(");
    let inner = values_for(
        elem,
        if depth == 0 {
            0
        } else {
            depth - 1
        },
        types,
    );
    cap(wrap(&inner, None, before.as_str(), "))"))
}

/// Whether the payload of a type is one that there is no value of.
fn is_screened(ty: &Node, types: &Types<'_>) -> (r: bool)
    ensures
        r == (argument(*ty, 0) matches Some(payload) && types@.is_undefaultable(payload)),
{
    match resolve::type_argument(ty, 0) {
        Some(payload) => types.is_undefaultable(payload),
        None => false,
    }
}

/// The values of an `Option`: the empty case is universal, the other needs a value to put in it.
fn option_values(inner: &Vec<(&'static str, String)>, screened: bool) -> (r: Vec<(&'static str, String)>)
    ensures
        read_values(r@) == capped(
            value("fn_value.none"@, "None"@) + if inner@.len() > 0 {
                wrapped(read_values(inner@), Some("fn_value.some"@), "Some("@, ")"@)
            } else if screened {
                Seq::empty()
            } else {
                value("fn_value.some_default"@, "Some(Default::default())"@)
            },
        ),
{
    let mut values = one("fn_value.none", "None");
    if inner.len() > 0 {
        extend_wrapped(&mut values, inner, Some("fn_value.some"), "Some(", ")");
    } else if !screened {
        push(&mut values, "fn_value.some_default", "Some(Default::default())");
    }
    proof {
        let first = value("fn_value.none"@, "None"@);
        if inner@.len() > 0 {
        } else if screened {
            assert(read_values(values@) =~= first + Seq::<Value>::empty());
        } else {
            assert(read_values(values@) =~= first + value("fn_value.some_default"@, "Some(Default::default())"@));
        }
    }
    cap(values)
}

/// The values of a `Result`.
///
/// The error type is only named when the path spells it. What an alias fixed it to is almost never
/// something with a `Default`.
fn result_values(inner: &Vec<(&'static str, String)>, screened: bool, error: bool) -> (r: Vec<(&'static str, String)>)
    ensures
        read_values(r@) == capped(
            (if inner@.len() > 0 {
                wrapped(read_values(inner@), Some("fn_value.ok"@), "Ok("@, ")"@)
            } else if screened {
                Seq::empty()
            } else {
                value("fn_value.ok_default"@, "Ok(Default::default())"@)
            }) + if error {
                value("fn_value.err_default"@, "Err(Default::default())"@)
            } else {
                Seq::empty()
            },
        ),
{
    let mut values: Vec<(&'static str, String)> = Vec::new();
    proof {
        assert(read_values(values@) =~= Seq::<Value>::empty());
    }
    if inner.len() > 0 {
        extend_wrapped(&mut values, inner, Some("fn_value.ok"), "Ok(", ")");
    } else if !screened {
        push(&mut values, "fn_value.ok_default", "Ok(Default::default())");
    }
    let ghost first = if inner@.len() > 0 {
        wrapped(read_values(inner@), Some("fn_value.ok"@), "Ok("@, ")"@)
    } else if screened {
        Seq::<Value>::empty()
    } else {
        value("fn_value.ok_default"@, "Ok(Default::default())"@)
    };
    proof {
        assert(read_values(values@) =~= first);
    }
    if error {
        push(&mut values, "fn_value.err_default", "Err(Default::default())");
        proof {
            assert(read_values(values@) =~= first + value("fn_value.err_default"@, "Err(Default::default())"@));
        }
    } else {
        proof {
            assert(read_values(values@) =~= first + Seq::<Value>::empty());
        }
    }
    cap(values)
}

/// The values of a map, whose element is a pair.
fn map_values(ty: &Node, keys: &Vec<(&'static str, String)>, values: &Vec<(&'static str, String)>) -> (r: Vec<(&'static str, String)>)
    ensures
        read_values(r@) == capped(
            value("fn_value.empty_collection"@, path_text(*ty, "Vec"@) + "::new()"@) + if keys@.len() > 0 && values@.len() > 0 {
                value(
                    "fn_value.one_element"@,
                    "core::iter::once(("@ + read_values(keys@)[0].1 + ", "@ + read_values(values@)[0].1 + ")).collect()"@,
                )
            } else {
                Seq::empty()
            },
        ),
{
    let mut empty = collection_ctor(ty);
    empty.append("::new()");
    let mut out = one("fn_value.empty_collection", empty.as_str());
    let ghost first = read_values(out@);
    if keys.len() > 0 && values.len() > 0 {
        let mut text = text::owned("core::iter::once((");
        text.append(keys[0].1.as_str());
        text.append(", ");
        text.append(values[0].1.as_str());
        text.append(")).collect()");
        push(&mut out, "fn_value.one_element", text.as_str());
        proof {
            assert(read_values(out@) =~= first + value("fn_value.one_element"@, text@));
        }
    } else {
        proof {
            assert(read_values(out@) =~= first + Seq::<Value>::empty());
        }
    }
    cap(out)
}

/// The values of a class that is built from another type's values.
fn composed(class: Class, ty: &Node, depth: usize, types: &Types<'_>) -> (r: Vec<(&'static str, String)>)
    requires
        depth > 0,
    ensures
        read_values(r@) == composed_values(class, *ty, less(depth), types@),
    decreases less(depth), 3nat,
{
    match class {
        Class::Option => {
            let inner = inner_values(ty, 0, depth, types);
            option_values(&inner, is_screened(ty, types))
        },
        Class::Result => {
            let inner = inner_values(ty, 0, depth, types);
            let error = match resolve::type_argument(ty, 1) {
                Some(error) => !types.is_undefaultable(error),
                None => false,
            };
            result_values(&inner, is_screened(ty, types), error)
        },
        Class::Collection => {
            let inner = inner_values(ty, 0, depth, types);
            let mut empty = collection_ctor(ty);
            empty.append("::new()");
            let mut values = one("fn_value.empty_collection", empty.as_str());
            extend_wrapped(&mut values, &inner, Some("fn_value.one_element"), "core::iter::once(", ").collect()");
            cap(values)
        },
        Class::Mapping => {
            let keys = inner_values(ty, 0, depth, types);
            let values = inner_values(ty, 1, depth, types);
            map_values(ty, &keys, &values)
        },
        Class::Wrapper => {
            let inner = inner_values(ty, 0, depth, types);
            let mut before = collection_ctor(ty);
            before.append("::new(");
            cap(wrap(&inner, None, before.as_str(), ")"))
        },
        Class::Cow => {
            let inner = inner_values(ty, 0, depth, types);
            let mut before = collection_ctor(ty);
            before.append("::Owned(");
            cap(wrap(&inner, None, before.as_str(), ")"))
        },
        Class::Iterator => {
            let mut values = one("fn_value.empty_collection", "core::iter::empty()");
            let ghost first = read_values(values@);
            match iterator_item(ty) {
                Some(item) => {
                    let inner = values_for(item, depth - 1, types);
                    extend_wrapped(&mut values, &inner, Some("fn_value.one_element"), "core::iter::once(", ")");
                },
                None => {
                    proof {
                        assert(read_values(values@) =~= first + Seq::<Value>::empty());
                    }
                },
            }
            cap(values)
        },
        Class::Reference => reference_values(ty, depth, types),
        Class::Tuple => tuple_values(ty, depth, types),
        _ => one("fn_value.default", "Default::default()"),
    }
}

/// The replacement values for one type, recursing through its parameters.
///
/// `depth` bounds the recursion.
pub fn values_for(ty: &Node, depth: usize, types: &Types<'_>) -> (r: Vec<(&'static str, String)>)
    ensures
        read_values(r@) == values_of(*ty, depth as nat, types@),
    decreases depth as nat, 0nat,
{
    let class = if types.is_fmt_result(ty) {
        Class::Result
    } else {
        resolve::resolve_type(ty)
    };
    if !matches!(class, Class::Iterator) && is_abstract_type(ty, types.abstracts) || matches!(class, Class::Unknown)
        && types.lacks_default(ty) {
        let none: Vec<(&'static str, String)> = Vec::new();
        proof {
            assert(read_values(none@) =~= Seq::<Value>::empty());
        }
        return none;
    }
    if depth == 0 {
        return one("fn_value.default", "Default::default()");
    }
    match class {
        Class::Unit
        | Class::Bool
        | Class::Signed
        | Class::Unsigned
        | Class::Float
        | Class::StaticStr
        | Class::MutStr
        | Class::String
        | Class::NonZero => literal_values(class, ty),
        _ => composed(class, ty, depth, types),
    }
}

/// The replacement values for a return type.
pub open spec fn return_values_of(output: Node, types: Typing) -> Seq<Value> {
    match output.kid(0) {
        Some(ty) => values_of(ty, RETURN_DEPTH as nat, types),
        None => value("fn_value.unit"@, "()"@),
    }
}

/// The replacement values worth trying for a function's return type.
///
/// Each entry is a mutator name and the text of a value of that type. The list is generated rather
/// than looked up so that nested types compose: a `Result<Option<bool>, E>` is a `Result` whose
/// success values are the `Option` values, which are in turn the `bool` values.
pub fn return_values(output: &Node, types: &Types<'_>) -> (r: Vec<(&'static str, String)>)
    ensures
        read_values(r@) == return_values_of(*output, types@),
{
    match output.get(0) {
        Some(ty) => values_for(ty, RETURN_DEPTH, types),
        None => one("fn_value.unit", "()"),
    }
}

/// No return type contributes more values than the bound, however deeply it is nested.
pub proof fn law_a_return_type_contributes_a_bounded_number_of_values(output: Node, types: Typing)
    ensures
        return_values_of(output, types).len() <= RETURN_WIDTH,
{
    if let Some(ty) = output.kid(0) {
        lemma_bounded(ty, RETURN_DEPTH as nat, types);
    }
}

/// Combinations are no more than the bound.
proof fn lemma_combinations_bounded(elems: Seq<Node>, depth: nat, types: Typing)
    ensures
        combinations_of(elems, depth, types).len() <= RETURN_WIDTH,
{
    if elems.len() > 0 {
        let choices = values_of(elems.last(), depth, types);
        assert(combinations_of(elems, depth, types) == narrow(products(combinations_of(elems.drop_last(), depth, types), choices)));
    }
}

/// No class contributes more values than the bound.
proof fn lemma_composed_bounded(class: Class, ty: Node, depth: nat, types: Typing)
    ensures
        composed_values(class, ty, depth, types).len() <= RETURN_WIDTH,
{
    match class {
        Class::Tuple => {
            lemma_combinations_bounded(stripped(ty).kids@, depth, types);
            assert(tuples_of(ty, depth, types).len() <= RETURN_WIDTH);
        },
        Class::Reference => {
            assert(references_of(ty, depth, types).len() <= RETURN_WIDTH);
        },
        _ => {},
    }
}

/// No type contributes more values than the bound.
proof fn lemma_bounded(ty: Node, depth: nat, types: Typing)
    ensures
        values_of(ty, depth, types).len() <= RETURN_WIDTH,
{
    if depth > 0 {
        let class = if types.is_fmt_result(ty) {
            Class::Result
        } else {
            class_of(ty)
        };
        lemma_composed_bounded(class, ty, (depth - 1) as nat, types);
    }
}

} // verus!
