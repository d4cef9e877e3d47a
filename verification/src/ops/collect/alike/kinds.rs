//! What is known of types that are alike.
use crate::cfg::Build;
use crate::ops::collect::collector::resolve::{argument, class_of, Class};
use crate::ops::collect::collector::types::{
    associated, full_path, is_abstract, is_foreign, is_imported_from_outside, is_pointer, pointee_is_abstract,
    undefaulted_among, undefaulted_params, Typing,
};
use crate::ops::collect::collector::values::{
    bound_item, combinations_of, composed_values, first_item, fixed_values, inner_of, item_among, item_of, path_text,
    pointee, references_of, return_values_of, tuples_of, values_of,
};
use crate::ops::collect::defaults::{
    bounded_params, defaulted_params, is_default_bound, known_name, promised_params, some_default_bound,
    spellings_of, type_ident, Spellings,
};
use crate::syntax::query::{last_arguments, stripped};
use crate::syntax::tree::Node;
use super::{
    group_same, lemma_each, lemma_same, lemma_same_first_of, lemma_same_kid, lemma_same_word, same, same_all,
    same_opt, same_typing,
};
use super::attributes::alike_holds;
use super::forms::{
    alike_argument, alike_class_of, alike_last_arguments, alike_last_name, alike_path_ident, alike_path_names,
    alike_stripped, alike_type_path,
};
use vstd::prelude::*;

verus! {

/// `associated` does not depend on where constructs lie.
pub(crate) broadcast proof fn alike_associated(items: Seq<Node>, items2: Seq<Node>, name: Seq<char>)
    requires
        same_all(items, items2),
    ensures
        same_opt(#[trigger] associated(items, name), #[trigger] associated(items2, name)),
    decreases items.len(),
{
    broadcast use group_same;
    if items.len() > 0 {
        alike_associated(items.drop_last(), items2.drop_last(), name);
    }
}

/// `full_path` does not depend on where constructs lie.
pub(crate) broadcast proof fn alike_full_path(ty: Node, ty2: Node, imports: Map<Seq<char>, Option<Seq<Seq<char>>>>)
    requires
        same(ty, ty2),
    ensures
        #[trigger] full_path(ty, imports) == #[trigger] full_path(ty2, imports),
{
    broadcast use {group_same, alike_path_names, alike_stripped, alike_type_path};
}

/// `is_pointer` does not depend on where constructs lie.
pub(crate) broadcast proof fn alike_is_pointer(ty: Node, ty2: Node)
    requires
        same(ty, ty2),
    ensures
        #[trigger] is_pointer(ty) == #[trigger] is_pointer(ty2),
{
    broadcast use {group_same, alike_type_path, alike_last_name};
}

/// `pointee_is_abstract` does not depend on where constructs lie.
pub(crate) broadcast proof fn alike_pointee_is_abstract(ty: Node, ty2: Node, abstracts: Seq<Seq<char>>)
    requires
        same(ty, ty2),
    ensures
        #[trigger] pointee_is_abstract(ty, abstracts) == #[trigger] pointee_is_abstract(ty2, abstracts),
    decreases ty, 0nat,
{
    lemma_same(ty, ty2);
    lemma_same_kid(ty, ty2, 1);
    if let Some(path) = ty.kid(1) {
        let path2 = ty2.kid(1)->0;
        alike_last_arguments(path, path2);
        if let Some(args) = last_arguments(path) {
            let args2 = last_arguments(path2)->0;
            lemma_same(args, args2);
            lemma_each(args.kids@, args2.kids@);
            if args.kids@.len() > 0 {
                let (a, b) = (args.kids@[0], args2.kids@[0]);
                assert(same(a, b));
                lemma_same(a, b);
                lemma_each(a.kids@, b.kids@);
                if a.kids@.len() > 0 {
                    assert(same(a.kids@[0], b.kids@[0]));
                    alike_is_abstract(a.kids@[0], b.kids@[0], abstracts);
                }
            }
        }
    }
}

/// `is_abstract` does not depend on where constructs lie.
pub(crate) broadcast proof fn alike_is_abstract(ty: Node, ty2: Node, abstracts: Seq<Seq<char>>)
    requires
        same(ty, ty2),
    ensures
        #[trigger] is_abstract(ty, abstracts) == #[trigger] is_abstract(ty2, abstracts),
    decreases ty,
{
    lemma_same(ty, ty2);
    lemma_each(ty.kids@, ty2.kids@);
    lemma_same_first_of(ty, ty2, 0);
    lemma_same_kid(ty, ty2, 1);
    if ty.kids@.len() > 0 {
        assert(same(ty.kids@[0], ty2.kids@[0]));
        alike_is_abstract(ty.kids@[0], ty2.kids@[0], abstracts);
    }
    if let Some(qualified) = ty.first_of(0) {
        alike_is_abstract(qualified, ty2.first_of(0)->0, abstracts);
    }
    if let Some(path) = ty.kid(1) {
        let path2 = ty2.kid(1)->0;
        lemma_same(path, path2);
        lemma_each(path.kids@, path2.kids@);
        if path.kids@.len() > 0 {
            assert(same(path.kids@[0], path2.kids@[0]));
            lemma_same_word(path.kids@[0], path2.kids@[0], 0);
        }
    }
    alike_is_pointer(ty, ty2);
    alike_pointee_is_abstract(ty, ty2, abstracts);
}

/// `is_fmt_result` does not depend on where constructs lie.
pub(crate) broadcast proof fn alike_is_fmt_result(own: Typing, own2: Typing, ty: Node, ty2: Node)
    requires
        same_typing(own, own2),
        same(ty, ty2),
    ensures
        #[trigger] own.is_fmt_result(ty) == #[trigger] own2.is_fmt_result(ty2),
{
    broadcast use {group_same, alike_argument, alike_full_path};
}

/// `is_imported_from_outside` does not depend on where constructs lie.
pub(crate) broadcast proof fn alike_is_imported_from_outside(ty: Node, ty2: Node, imports: Map<Seq<char>, Option<Seq<Seq<char>>>>)
    requires
        same(ty, ty2),
    ensures
        #[trigger] is_imported_from_outside(ty, imports) == #[trigger] is_imported_from_outside(ty2, imports),
{
    broadcast use {group_same, alike_path_names, alike_stripped, alike_type_path};
}

/// `is_foreign` does not depend on where constructs lie.
pub(crate) broadcast proof fn alike_is_foreign(ty: Node, ty2: Node, imports: Map<Seq<char>, Option<Seq<Seq<char>>>>)
    requires
        same(ty, ty2),
    ensures
        #[trigger] is_foreign(ty, imports) == #[trigger] is_foreign(ty2, imports),
{
    broadcast use {group_same, alike_is_imported_from_outside, alike_full_path};
}

/// `known_name` does not depend on where constructs lie.
pub(crate) broadcast proof fn alike_known_name(ty: Node, ty2: Node)
    requires
        same(ty, ty2),
    ensures
        #[trigger] known_name(ty) == #[trigger] known_name(ty2),
    decreases ty,
{
    broadcast use {group_same, alike_last_name};
    assert forall|i: int| 0 <= i < ty.kids@.len() implies known_name(#[trigger] ty.kids@[i]) == known_name(ty2.kids@[i]) by {
        alike_known_name(ty.kids@[i], ty2.kids@[i]);
    }
}

/// `resolved` does not depend on where constructs lie.
pub(crate) broadcast proof fn alike_resolved(own: Typing, own2: Typing, ty: Node, ty2: Node)
    requires
        same_typing(own, own2),
        same(ty, ty2),
    ensures
        same(#[trigger] own.resolved(ty), #[trigger] own2.resolved(ty2)),
{
    broadcast use {group_same, alike_path_names, alike_stripped, alike_associated, alike_type_path};
}

/// `lacks_default` does not depend on where constructs lie.
pub(crate) broadcast proof fn alike_lacks_default(own: Typing, own2: Typing, ty: Node, ty2: Node)
    requires
        same_typing(own, own2),
        same(ty, ty2),
    ensures
        #[trigger] own.lacks_default(ty) == #[trigger] own2.lacks_default(ty2),
{
    broadcast use {group_same, alike_known_name, alike_resolved, alike_is_foreign};
}

/// `is_undefaultable` does not depend on where constructs lie.
pub(crate) broadcast proof fn alike_is_undefaultable(own: Typing, own2: Typing, ty: Node, ty2: Node)
    requires
        same_typing(own, own2),
        same(ty, ty2),
    ensures
        #[trigger] own.is_undefaultable(ty) == #[trigger] own2.is_undefaultable(ty2),
{
    broadcast use {group_same, alike_lacks_default, alike_is_abstract};
}

/// `returns_undefaultable_error` does not depend on where constructs lie.
pub(crate) broadcast proof fn alike_returns_undefaultable_error(own: Typing, own2: Typing, output: Node, output2: Node)
    requires
        same_typing(own, own2),
        same(output, output2),
    ensures
        #[trigger] own.returns_undefaultable_error(output) == #[trigger] own2.returns_undefaultable_error(output2),
{
    broadcast use {group_same, alike_known_name, alike_class_of, alike_is_fmt_result, alike_argument, alike_is_undefaultable};
}

/// `undefaulted_among` does not depend on where constructs lie.
pub(crate) broadcast proof fn alike_undefaulted_among(params: Seq<Node>, params2: Seq<Node>, defaulted: Seq<Seq<char>>)
    requires
        same_all(params, params2),
    ensures
        #[trigger] undefaulted_among(params, defaulted) == #[trigger] undefaulted_among(params2, defaulted),
    decreases params.len(),
{
    broadcast use group_same;
    if params.len() > 0 {
        alike_undefaulted_among(params.drop_last(), params2.drop_last(), defaulted);
    }
}

/// `is_default_bound` does not depend on where constructs lie.
pub(crate) broadcast proof fn alike_is_default_bound(bound: Node, bound2: Node, spellings: Spellings)
    requires
        same(bound, bound2),
    ensures
        #[trigger] is_default_bound(bound, spellings) == #[trigger] is_default_bound(bound2, spellings),
{
    broadcast use {group_same, alike_path_names};
}

/// `some_default_bound` does not depend on where constructs lie.
pub(crate) broadcast proof fn alike_some_default_bound(bounds: Seq<Node>, bounds2: Seq<Node>, spellings: Spellings)
    requires
        same_all(bounds, bounds2),
    ensures
        #[trigger] some_default_bound(bounds, spellings) == #[trigger] some_default_bound(bounds2, spellings),
{
    broadcast use {group_same, alike_is_default_bound};
    assert forall|i: int| 0 <= i < bounds.len()
        implies is_default_bound(#[trigger] bounds[i], spellings) == is_default_bound(bounds2[i], spellings) by {
        assert(same(bounds[i], bounds2[i]));
    }
    if some_default_bound(bounds, spellings) {
        let i = choose|i: int| 0 <= i < bounds.len() && is_default_bound(#[trigger] bounds[i], spellings);
        assert(is_default_bound(bounds2[i], spellings));
    }
    if some_default_bound(bounds2, spellings) {
        let i = choose|i: int| 0 <= i < bounds2.len() && is_default_bound(#[trigger] bounds2[i], spellings);
        assert(is_default_bound(bounds[i], spellings));
    }
}

/// `bounded_params` does not depend on where constructs lie.
pub(crate) broadcast proof fn alike_bounded_params(params: Seq<Node>, params2: Seq<Node>, spellings: Spellings)
    requires
        same_all(params, params2),
    ensures
        #[trigger] bounded_params(params, spellings) == #[trigger] bounded_params(params2, spellings),
    decreases params.len(),
{
    broadcast use {group_same, alike_some_default_bound};
    if params.len() > 0 {
        alike_bounded_params(params.drop_last(), params2.drop_last(), spellings);
    }
}

/// `type_ident` does not depend on where constructs lie.
pub(crate) broadcast proof fn alike_type_ident(ty: Node, ty2: Node)
    requires
        same(ty, ty2),
    ensures
        #[trigger] type_ident(ty) == #[trigger] type_ident(ty2),
{
    broadcast use {group_same, alike_path_ident, alike_type_path};
}

/// `promised_params` does not depend on where constructs lie.
pub(crate) broadcast proof fn alike_promised_params(
    names: Seq<Seq<char>>,
    predicates: Seq<Node>,
    predicates2: Seq<Node>,
    spellings: Spellings,
)
    requires
        same_all(predicates, predicates2),
    ensures
        #[trigger] promised_params(names, predicates, spellings) == #[trigger] promised_params(names, predicates2, spellings),
    decreases predicates.len(),
{
    broadcast use {group_same, alike_some_default_bound, alike_type_ident};
    if predicates.len() > 0 {
        alike_promised_params(names, predicates.drop_last(), predicates2.drop_last(), spellings);
    }
}

/// `defaulted_params` does not depend on where constructs lie.
pub(crate) broadcast proof fn alike_defaulted_params(generics: Node, generics2: Node, spellings: Spellings)
    requires
        same(generics, generics2),
    ensures
        #[trigger] defaulted_params(generics, spellings) == #[trigger] defaulted_params(generics2, spellings),
{
    broadcast use {group_same, alike_bounded_params, alike_promised_params};
}

/// `undefaulted_params` does not depend on where constructs lie.
pub(crate) broadcast proof fn alike_undefaulted_params(generics: Node, generics2: Node, spellings: Spellings)
    requires
        same(generics, generics2),
    ensures
        #[trigger] undefaulted_params(generics, spellings) == #[trigger] undefaulted_params(generics2, spellings),
{
    broadcast use {group_same, alike_undefaulted_among, alike_defaulted_params};
}

/// `item_among` does not depend on where constructs lie.
pub(crate) broadcast proof fn alike_item_among(args: Seq<Node>, args2: Seq<Node>)
    requires
        same_all(args, args2),
    ensures
        same_opt(#[trigger] item_among(args), #[trigger] item_among(args2)),
    decreases args.len(),
{
    broadcast use group_same;
    if args.len() > 0 {
        alike_item_among(args.drop_first(), args2.drop_first());
    }
}

/// `bound_item` does not depend on where constructs lie.
pub(crate) broadcast proof fn alike_bound_item(bound: Node, bound2: Node)
    requires
        same(bound, bound2),
    ensures
        same_opt(#[trigger] bound_item(bound), #[trigger] bound_item(bound2)),
{
    broadcast use {group_same, alike_last_arguments, alike_item_among};
}

/// `path_text` does not depend on where constructs lie.
pub(crate) broadcast proof fn alike_path_text(ty: Node, ty2: Node, otherwise: Seq<char>)
    requires
        same(ty, ty2),
    ensures
        #[trigger] path_text(ty, otherwise) == #[trigger] path_text(ty2, otherwise),
{
    broadcast use {group_same, alike_path_names, alike_stripped, alike_type_path};
}

/// `fixed_values` does not depend on where constructs lie.
pub(crate) broadcast proof fn alike_fixed_values(class: Class, ty: Node, ty2: Node)
    requires
        same(ty, ty2),
    ensures
        #[trigger] fixed_values(class, ty) == #[trigger] fixed_values(class, ty2),
{
    broadcast use {group_same, alike_path_text};
}

/// `pointee` does not depend on where constructs lie.
pub(crate) broadcast proof fn alike_pointee(ty: Node, ty2: Node)
    requires
        same(ty, ty2),
    ensures
        same_opt(#[trigger] pointee(ty), #[trigger] pointee(ty2)),
    decreases ty,
{
    broadcast use group_same;
    assert forall|i: int| 0 <= i < ty.kids@.len() implies same_opt(pointee(#[trigger] ty.kids@[i]), pointee(ty2.kids@[i])) by {
        alike_pointee(ty.kids@[i], ty2.kids@[i]);
    }
}

/// `first_item` does not depend on where constructs lie.
pub(crate) broadcast proof fn alike_first_item(bounds: Seq<Node>, bounds2: Seq<Node>)
    requires
        same_all(bounds, bounds2),
    ensures
        same_opt(#[trigger] first_item(bounds), #[trigger] first_item(bounds2)),
    decreases bounds.len(),
{
    broadcast use {group_same, alike_bound_item};
    if bounds.len() > 0 {
        alike_first_item(bounds.drop_first(), bounds2.drop_first());
    }
}

/// `item_of` does not depend on where constructs lie.
pub(crate) broadcast proof fn alike_item_of(ty: Node, ty2: Node)
    requires
        same(ty, ty2),
    ensures
        same_opt(#[trigger] item_of(ty), #[trigger] item_of(ty2)),
{
    broadcast use {group_same, alike_stripped, alike_first_item};
}

/// `inner_of` does not depend on where constructs lie.
pub(crate) broadcast proof fn alike_inner_of(ty: Node, ty2: Node, index: int, depth: nat, types: Typing, types2: Typing)
    requires
        same(ty, ty2),
        same_typing(types, types2),
    ensures
        #[trigger] inner_of(ty, index, depth, types) == #[trigger] inner_of(ty2, index, depth, types2),
    decreases depth, 1nat,
{
    broadcast use {group_same, alike_argument};
    alike_argument(ty, ty2, index);
    if let Some(inner) = argument(ty, index) {
        alike_values_of(inner, argument(ty2, index)->0, depth, types, types2);
    }
}

/// `tuples_of` does not depend on where constructs lie.
pub(crate) broadcast proof fn alike_tuples_of(ty: Node, ty2: Node, depth: nat, types: Typing, types2: Typing)
    requires
        same(ty, ty2),
        same_typing(types, types2),
    ensures
        #[trigger] tuples_of(ty, depth, types) == #[trigger] tuples_of(ty2, depth, types2),
    decreases depth, 2nat,
{
    broadcast use {group_same, alike_stripped};
    alike_stripped(ty, ty2);
    alike_combinations_of(stripped(ty).kids@, stripped(ty2).kids@, depth, types, types2);
}

/// `references_of` does not depend on where constructs lie.
pub(crate) broadcast proof fn alike_references_of(ty: Node, ty2: Node, depth: nat, types: Typing, types2: Typing)
    requires
        same(ty, ty2),
        same_typing(types, types2),
    ensures
        #[trigger] references_of(ty, depth, types) == #[trigger] references_of(ty2, depth, types2),
    decreases depth, 2nat,
{
    broadcast use {group_same, alike_pointee, alike_stripped};
    alike_pointee(ty, ty2);
    alike_stripped(ty, ty2);
    if let Some(elem) = pointee(ty) {
        alike_values_of(elem, pointee(ty2)->0, depth, types, types2);
    }
}

/// `composed_values` does not depend on where constructs lie.
pub(crate) broadcast proof fn alike_composed_values(class: Class, ty: Node, ty2: Node, depth: nat, types: Typing, types2: Typing)
    requires
        same(ty, ty2),
        same_typing(types, types2),
    ensures
        #[trigger] composed_values(class, ty, depth, types) == #[trigger] composed_values(class, ty2, depth, types2),
    decreases depth, 3nat,
{
    lemma_same(ty, ty2);
    alike_inner_of(ty, ty2, 0, depth, types, types2);
    alike_inner_of(ty, ty2, 1, depth, types, types2);
    alike_argument(ty, ty2, 0);
    alike_argument(ty, ty2, 1);
    if let Some(payload) = argument(ty, 0) {
        alike_is_undefaultable(types, types2, payload, argument(ty2, 0)->0);
    }
    if let Some(error) = argument(ty, 1) {
        alike_is_undefaultable(types, types2, error, argument(ty2, 1)->0);
    }
    alike_path_text(ty, ty2, "Vec"@);
    alike_item_of(ty, ty2);
    if let Some(item) = item_of(ty) {
        alike_values_of(item, item_of(ty2)->0, depth, types, types2);
    }
    alike_references_of(ty, ty2, depth, types, types2);
    alike_tuples_of(ty, ty2, depth, types, types2);
}

/// `of` does not depend on where constructs lie.
pub(crate) broadcast proof fn alike_values_of(ty: Node, ty2: Node, depth: nat, types: Typing, types2: Typing)
    requires
        same(ty, ty2),
        same_typing(types, types2),
    ensures
        #[trigger] values_of(ty, depth, types) == #[trigger] values_of(ty2, depth, types2),
    decreases depth, 0nat,
{
    broadcast use {group_same, alike_fixed_values, alike_class_of, alike_lacks_default, alike_is_abstract, alike_is_fmt_result};
    assert(types.is_fmt_result(ty) == types2.is_fmt_result(ty2));
    assert(class_of(ty) == class_of(ty2));
    assert(is_abstract(ty, types.abstracts) == is_abstract(ty2, types.abstracts));
    assert(types.lacks_default(ty) == types2.lacks_default(ty2));
    let class = if types.is_fmt_result(ty) {
        Class::Result
    } else {
        class_of(ty)
    };
    alike_fixed_values(class, ty, ty2);
    if depth > 0 {
        alike_composed_values(class, ty, ty2, (depth - 1) as nat, types, types2);
    }
}

/// `combinations_of` does not depend on where constructs lie.
pub(crate) broadcast proof fn alike_combinations_of(
    elems: Seq<Node>,
    elems2: Seq<Node>,
    depth: nat,
    types: Typing,
    types2: Typing,
)
    requires
        same_all(elems, elems2),
        same_typing(types, types2),
    ensures
        #[trigger] combinations_of(elems, depth, types) == #[trigger] combinations_of(elems2, depth, types2),
    decreases depth, 1nat, elems.len(),
{
    broadcast use group_same;
    if elems.len() > 0 {
        alike_values_of(elems.last(), elems2.last(), depth, types, types2);
        alike_combinations_of(elems.drop_last(), elems2.drop_last(), depth, types, types2);
    }
}

/// `return_values_of` does not depend on where constructs lie.
pub(crate) broadcast proof fn alike_return_values_of(output: Node, output2: Node, types: Typing, types2: Typing)
    requires
        same(output, output2),
        same_typing(types, types2),
    ensures
        #[trigger] return_values_of(output, types) == #[trigger] return_values_of(output2, types2),
{
    broadcast use {group_same, alike_values_of};
}

/// `using_all` does not depend on where constructs lie.
pub(crate) broadcast proof fn alike_defaults_using_all(
    own: Spellings,
    prefix: Seq<Seq<char>>,
    trees: Seq<Node>,
    trees2: Seq<Node>,
)
    requires
        same_all(trees, trees2),
    ensures
        #[trigger] own.using_all(prefix, trees) == #[trigger] own.using_all(prefix, trees2),
    decreases trees,
{
    broadcast use group_same;
    if trees.len() > 0 {
        let before = own.using_all(prefix, trees.drop_last());
        alike_defaults_using_all(own, prefix, trees.drop_last(), trees2.drop_last());
        alike_defaults_using(before, prefix, trees.last(), trees2.last());
    }
}

/// `using` does not depend on where constructs lie.
pub(crate) broadcast proof fn alike_defaults_using(own: Spellings, prefix: Seq<Seq<char>>, tree: Node, tree2: Node)
    requires
        same(tree, tree2),
    ensures
        #[trigger] own.using(prefix, tree) == #[trigger] own.using(prefix, tree2),
    decreases tree,
{
    broadcast use group_same;
    if tree.kids@.len() == 2 {
        alike_defaults_using(own, prefix.push(tree.word(0)), tree.kids@[1], tree2.kids@[1]);
    }
    alike_defaults_using_all(own, prefix, tree.kids@, tree2.kids@);
    assert(tree.word(0) == tree2.word(0) && tree.word(1) == tree2.word(1));
}

/// `behind` does not depend on where constructs lie.
pub(crate) broadcast proof fn alike_behind(own: Spellings, item: Node, item2: Node, cfg: Build)
    requires
        same(item, item2),
    ensures
        #[trigger] own.behind(item, cfg) == #[trigger] own.behind(item2, cfg),
{
    broadcast use {group_same, alike_holds, alike_defaults_using};
    alike_holds(cfg, item.attrs@, item2.attrs@);
    assert(same_opt(item.kid(0), item2.kid(0)));
    if let Some(tree) = item.kid(0) {
        alike_defaults_using(own, Seq::empty(), tree, item2.kid(0)->0);
    }
    assert(item.word(0) == item2.word(0));
}

/// `is_fallback` does not depend on where constructs lie.
pub(crate) broadcast proof fn alike_is_fallback(own: Spellings, path: Node, path2: Node)
    requires
        same(path, path2),
    ensures
        #[trigger] own.is_fallback(path) == #[trigger] own.is_fallback(path2),
{
    broadcast use {group_same, alike_path_names};
}

/// `spellings_of` does not depend on where constructs lie.
pub(crate) broadcast proof fn alike_spellings_of(items: Seq<Node>, items2: Seq<Node>, cfg: Build)
    requires
        same_all(items, items2),
    ensures
        #[trigger] spellings_of(items, cfg) == #[trigger] spellings_of(items2, cfg),
    decreases items.len(),
{
    broadcast use {group_same, alike_behind};
    if items.len() > 0 {
        alike_spellings_of(items.drop_last(), items2.drop_last(), cfg);
        alike_behind(spellings_of(items.drop_last(), cfg), items.last(), items2.last(), cfg);
    }
}

} // verus!
