//! How types are told apart.
use super::super::collector::resolve::{class_of, class_of_name, is_iterator_bound, is_number, is_numeric_type_node, Class};
use super::super::collector::types::{associated, undefaulted_among, undefaulted_params, Typing};
use super::super::defaults::{
    bounded_params, default_param, defaulted_params, is_default_bound, known_name, promised_params, some_default_bound, type_ident,
    Spellings,
};
use crate::syntax::query::{last_name, path_ident, path_names, path_types, type_path, types_among};
use crate::syntax::{Kind, Node};
use vstd::prelude::*;

verus! {

/// Whether a type is named by one name and nothing more.
pub open spec fn is_named(ty: Node, name: Seq<char>) -> bool {
    &&& ty.kind == Kind::TypePath
    &&& ty.kids@.len() > 1
    &&& ty.kids@[1].kind == (Kind::Path { global: false })
    &&& ty.kids@[1].kids@.len() == 1
    &&& ty.kids@[1].kids@[0].kids@.len() == 2
    &&& ty.kids@[1].kids@[0].kids@[0].text@ == name
    &&& ty.kids@[1].kids@[0].kids@[1].kind == Kind::NoArgs
}

/// A type that is named alone is known by its name, and is made of no others.
pub proof fn law_a_type_named_alone(ty: Node, name: Seq<char>)
    requires
        is_named(ty, name),
    ensures
        type_path(ty) == Some(ty.kids@[1]),
        path_ident(ty.kids@[1]) == Some(name),
        last_name(ty.kids@[1]) == Some(name),
        known_name(ty) == Some(name),
        type_ident(ty) == Some(name),
        class_of(ty) == class_of_name(name, 0),
        path_names(ty.kids@[1]) == seq![name],
{
    let path = ty.kids@[1];
    assert(path.kids@[0].word(0) == name);
    assert(path_names(path) =~= seq![name]);
    assert(path_types(path) == Seq::<Node>::empty());
}

/// The form of a type tells it apart where its name does not: a tuple of none is nothing, a reference to `str` is
/// a string, one to a slice is not known, brackets say nothing, and what promises a trait is an iterator where
/// one of the traits is.
pub proof fn law_types_are_known_by_form(ty: Node, inner: Node, i: int)
    ensures
        ty.kind == Kind::TypeTuple && ty.kids@.len() == 0 ==> class_of(ty) == Class::Unit,
        ty.kind == Kind::TypeTuple && ty.kids@.len() > 0 ==> class_of(ty) == Class::Tuple,
        ty.kind == (Kind::TypeReference { mutable: false }) && ty.kid(0) == Some(inner) && is_named(inner, "str"@) ==> class_of(ty)
            == Class::StaticStr,
        ty.kind == (Kind::TypeReference { mutable: true }) && ty.kid(0) == Some(inner) && is_named(inner, "str"@) ==> class_of(ty)
            == Class::MutStr,
        (ty.kind == (Kind::TypeReference { mutable: true }) || ty.kind == (Kind::TypeReference { mutable: false })) && ty.kid(0) == Some(inner)
            && inner.kind == Kind::TypeSlice ==> class_of(ty) == Class::Unknown,
        (ty.kind == (Kind::TypeReference { mutable: true }) || ty.kind == (Kind::TypeReference { mutable: false })) && ty.kid(0) == Some(inner)
            && inner.kind != Kind::TypeSlice && inner.kind != Kind::TypePath ==> class_of(ty) == Class::Reference,
        ty.kind == Kind::TypeParen && ty.kid(0) == Some(inner) ==> class_of(ty) == class_of(inner),
        ty.kind == Kind::TypeImplTrait && 0 <= i < ty.kids@.len() && is_iterator_bound(ty.kids@[i]) ==> class_of(ty) == Class::Iterator,
        ty.kind == Kind::TypeImplTrait && (forall|k: int| 0 <= k < ty.kids@.len() ==> !is_iterator_bound(#[trigger] ty.kids@[k])) ==> class_of(
            ty,
        ) == Class::Unknown,
        ty.kind == Kind::TypeNever || ty.kind == Kind::TypeSlice || ty.kind == Kind::TypeArray || ty.kind == Kind::TypePtr || ty.kind
            == Kind::TypeTraitObject ==> class_of(ty) == Class::Unknown,
{
    if is_named(inner, "str"@) {
        law_a_type_named_alone(inner, "str"@);
    }
}

/// The traits of iterators, by their last name.
pub proof fn law_what_promises_an_iterator(bound: Node, path: Node, name: Seq<char>)
    requires
        bound.kid(0) == Some(path),
        last_name(path) == Some(name),
    ensures
        is_iterator_bound(bound) <==> bound.kind == Kind::BoundTrait && (name == "Iterator"@ || name == "DoubleEnded"@ + "Iterator"@ || name
            == "ExactSize"@ + "Iterator"@ || name == "Fused"@ + "Iterator"@),
{
    reveal_strlit("Iterator");
    reveal_strlit("DoubleEnded");
    reveal_strlit("ExactSize");
    reveal_strlit("Fused");
    reveal_strlit("DoubleEndedIterator");
    reveal_strlit("ExactSizeIterator");
    reveal_strlit("FusedIterator");
    assert("DoubleEndedIterator"@ =~= "DoubleEnded"@ + "Iterator"@);
    assert("ExactSizeIterator"@ =~= "ExactSize"@ + "Iterator"@);
    assert("FusedIterator"@ =~= "Fused"@ + "Iterator"@);
}

/// A type is a number where it is signed, unsigned or a float, or a reference to one.
pub proof fn law_what_is_a_number(ty: Node, inner: Node, class: Class)
    ensures
        is_number(class) <==> class == Class::Signed || class == Class::Unsigned || class == Class::Float,
        (ty.kind == (Kind::TypeReference { mutable: true }) || ty.kind == (Kind::TypeReference { mutable: false })) && ty.kid(0) == Some(inner)
            ==> (is_numeric_type_node(ty) <==> is_numeric_type_node(inner)),
        ty.kind == Kind::TypePath ==> (is_numeric_type_node(ty) <==> is_number(class_of(ty))),
        ty.kind == Kind::TypeTuple ==> !is_numeric_type_node(ty),
{
}

/// What a type is made of is what stands in its angle brackets, in order, apart from what is no type.
pub proof fn law_what_a_type_is_made_of(front: Seq<Node>, arg: Node)
    ensures
        types_among(Seq::empty()).len() == 0,
        arg.kind == Kind::ArgType && arg.kids@.len() > 0 ==> types_among(front.push(arg)) == types_among(front).push(arg.kids@[0]),
        arg.kind != Kind::ArgType ==> types_among(front.push(arg)) == types_among(front),
{
    assert(front.push(arg).drop_last() =~= front);
}

/// Inside an implementation `Self` is what it is for, and a name behind `Self` is the last type that it gives
/// that name. Another type is itself.
pub proof fn law_self_is_what_an_implementation_is_for(types: Typing, ty: Node, own: Node)
    ensures
        is_named(ty, "Self"@) && types.self_type == Some(own) ==> types.resolved(ty) == own,
        is_named(ty, "Self"@) && types.self_type is None ==> types.resolved(ty) == ty,
        ty.kind == Kind::TypeTuple || ty.kind == Kind::TypeSlice ==> types.resolved(ty) == ty,
        forall|name: Seq<char>| name != "Self"@ && #[trigger] is_named(ty, name) ==> types.resolved(ty) == ty,
{
    if is_named(ty, "Self"@) {
        law_a_type_named_alone(ty, "Self"@);
        assert(path_names(ty.kids@[1])[0] == "Self"@);
    }
    assert forall|name: Seq<char>| name != "Self"@ && #[trigger] is_named(ty, name) implies types.resolved(ty) == ty by {
        law_a_type_named_alone(ty, name);
        assert(path_names(ty.kids@[1])[0] == name);
    }
}

/// An implementation gives a name to the last type that it gives it to.
pub proof fn law_an_implementation_names_types(items: Seq<Node>, item: Node, name: Seq<char>)
    ensures
        item.kind == Kind::ImplType && item.kids@.len() == 3 && item.kids@[0].text@ == name ==> associated(items.push(item), name) == Some(
            item.kids@[2],
        ),
        item.kind != Kind::ImplType || item.word(0) != name ==> associated(items.push(item), name) == associated(items, name),
        associated(Seq::empty(), name) is None,
{
    assert(items.push(item).drop_last() =~= items);
    assert(items.push(item).last() == item);
}

// ---- Parameters. ----

/// A parameter promises a default where a bound on it does, and a lifetime or a constant never does.
pub proof fn law_a_parameter_promises_a_default_by_its_bounds(params: Seq<Node>, param: Node, spellings: Spellings)
    ensures
        param.kind == Kind::TypeParam && some_default_bound(param.all_of(1), spellings) ==> bounded_params(params.push(param), spellings)
            == bounded_params(params, spellings).push(param.word(0)),
        param.kind != Kind::TypeParam || !some_default_bound(param.all_of(1), spellings) ==> bounded_params(params.push(param), spellings)
            == bounded_params(params, spellings),
{
    assert(params.push(param).drop_last() =~= params);
}

/// A bound promises a default where it is a trait that is spelled as that of defaults.
pub proof fn law_a_bound_promises_a_default(bounds: Seq<Node>, i: int, path: Node, spellings: Spellings)
    requires
        0 <= i < bounds.len(),
        bounds[i].kind == Kind::BoundTrait,
        bounds[i].kid(0) == Some(path),
    ensures
        spellings.names_trait(path_names(path)) ==> some_default_bound(bounds, spellings),
        bounds.len() == 1 && !spellings.names_trait(path_names(path)) ==> !some_default_bound(bounds, spellings),
{
    if spellings.names_trait(path_names(path)) {
        assert(is_default_bound(bounds[i], spellings));
    }
}

/// A parameter promises a default too where a predicate behind the parameters does so of it.
pub proof fn law_a_predicate_promises_a_default(names: Seq<Seq<char>>, predicates: Seq<Node>, predicate: Node, name: Seq<char>, spellings: Spellings)
    requires
        predicate.kind == Kind::WhereType,
        predicate.kids@.len() > 0,
        is_named(predicate.kids@[0], name),
    ensures
        some_default_bound(predicate.all_of(1), spellings) ==> promised_params(names, predicates.push(predicate), spellings).contains(name),
        !some_default_bound(predicate.all_of(1), spellings) ==> promised_params(names, predicates.push(predicate), spellings)
            == promised_params(names, predicates, spellings),
{
    let all = predicates.push(predicate);
    assert(all.drop_last() =~= predicates);
    law_a_type_named_alone(predicate.kids@[0], name);
    let before = promised_params(names, predicates, spellings);
    if some_default_bound(predicate.all_of(1), spellings) && !before.contains(name) {
        assert(before.push(name).last() == name);
    }
}

/// The parameters without a default are the types among them that promise none, and each is one or the other.
pub proof fn law_a_parameter_promises_a_default_or_not(generics: Node, i: int, spellings: Spellings)
    requires
        0 <= i < generics.all_of(0).len(),
        generics.all_of(0)[i].kind == Kind::TypeParam,
    ensures
        undefaulted_params(generics, spellings).contains(generics.all_of(0)[i].word(0)) <==> !defaulted_params(generics, spellings).contains(
            generics.all_of(0)[i].word(0),
        ),
{
    lemma_undefaulted(generics.all_of(0), defaulted_params(generics, spellings), i);
}

proof fn lemma_undefaulted(params: Seq<Node>, defaulted: Seq<Seq<char>>, i: int)
    requires
        0 <= i < params.len(),
        params[i].kind == Kind::TypeParam,
    ensures
        undefaulted_among(params, defaulted).contains(params[i].word(0)) <==> !defaulted.contains(params[i].word(0)),
    decreases params.len(),
{
    let name = params[i].word(0);
    let all = undefaulted_among(params, defaulted);
    lemma_only_undefaulted(params, defaulted);
    if !defaulted.contains(name) {
        let before = undefaulted_among(params.drop_last(), defaulted);
        if i < params.len() - 1 {
            lemma_undefaulted(params.drop_last(), defaulted, i);
            let k = choose|k: int| 0 <= k < before.len() && before[k] == name;
            assert(all[k] == name);
        } else {
            assert(all[all.len() - 1] == name);
        }
    }
}

proof fn lemma_only_undefaulted(params: Seq<Node>, defaulted: Seq<Seq<char>>)
    ensures
        forall|k: int| 0 <= k < undefaulted_among(params, defaulted).len() ==> !defaulted.contains(
            #[trigger] undefaulted_among(params, defaulted)[k],
        ),
    decreases params.len(),
{
    if params.len() > 0 {
        lemma_only_undefaulted(params.drop_last(), defaulted);
        let before = undefaulted_among(params.drop_last(), defaulted);
        let all = undefaulted_among(params, defaulted);
        assert forall|k: int| 0 <= k < all.len() implies !defaulted.contains(#[trigger] all[k]) by {
            if k < before.len() {
                assert(all[k] == before[k]);
            }
        }
    }
}

/// What a parameter falls back to is the type behind the first that has one.
pub proof fn law_a_parameter_falls_back_to_a_type(params: Seq<Node>, param: Node)
    ensures
        default_param(params) is Some ==> default_param(params.push(param)) == default_param(params),
        default_param(params) is None && param.kind == Kind::TypeParam && param.first_of(2) is Some ==> default_param(params.push(param))
            == known_name(param.first_of(2)->0),
        default_param(params) is None && (param.kind != Kind::TypeParam || param.first_of(2) is None) ==> default_param(params.push(param)) is None,
{
    assert(params.push(param).drop_last() =~= params);
}

} // verus!
