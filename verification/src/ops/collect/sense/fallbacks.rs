//! What has a default, what a value is stated for and what a mutant is known by.
use super::super::candidate::Offer;
use super::super::collector::naming::layout_free;
use super::super::collector::resolve::{argument, class_of, Class};
use super::super::collector::types::{full_path, is_abstract, is_error_name, is_foreign, is_imported_from_outside, is_standard, Typing};
use super::super::defaults::{alias_error, default_param, known_name, lists_default, with_alias, Known, Spellings};
use super::super::definitions::{definition_of, occurrence};
use super::super::stated::{arguments, earliest, fault_message, inert, is_readable, is_stated, stated_among, stated_span, wording, Audited, Wrong};
use crate::cfg::{head, is_mark, is_word, lemma_pieces, rest};
use crate::syntax::query::{last_name, path_ident, path_names, stripped, type_path};
use crate::syntax::{Kind, Node};
use crate::text::{breaks, byte_len, decimal, slice, stands_for, law_decimals_stand_for_their_number, tail};
use vstd::prelude::*;

verus! {

// ---- How the trait is spelled. ----

proof fn lemma_names()
    ensures
        "std"@ != "core"@,
        "default"@ != "Default"@,
        "self"@ != "Default"@,
        "std"@ != "Default"@,
        "core"@ != "Default"@,
{
    reveal_strlit("std");
    reveal_strlit("core");
    reveal_strlit("default");
    reveal_strlit("Default");
    reveal_strlit("self");
    assert("std"@.len() == 3 && "core"@.len() == 4 && "default"@.len() == 7 && "Default"@.len() == 7 && "self"@.len() == 4);
    assert("default"@[0] == 'd' && "Default"@[0] == 'D');
}

/// The trait is known by its full path in either library, and by its name alone where nothing else has taken
/// that.
pub proof fn law_the_trait_is_known_by_its_path(spellings: Spellings, library: Seq<char>)
    requires
        library == "std"@ || library == "core"@,
        !spellings.modules.contains_key(library),
    ensures
        spellings.names_trait(seq![library, "default"@, "Default"@]),
        spellings.names_function(seq![library, "default"@, "Default"@, "default"@]),
        !spellings.shadowed ==> spellings.names_trait(seq!["Default"@]),
        Spellings::none().names_trait(seq!["Default"@]),
        spellings.shadowed && !spellings.aliases.contains("Default"@) && !spellings.modules.contains_key("Default"@) ==> !spellings.names_trait(seq!["Default"@]),
{
    let path = seq![library, "default"@, "Default"@];
    assert(spellings.expanded(path, path.len()) == path);
    let function = seq![library, "default"@, "Default"@, "default"@];
    assert(function.drop_last() =~= path);
    let name = seq!["Default"@];
    if !spellings.modules.contains_key("Default"@) {
        assert(spellings.expanded(name, name.len()) == name);
    }
}

/// The trait is known by whatever name it is imported under. What is imported under its name and is not it
/// takes the name away, and other imports change nothing.
pub proof fn law_imports_spell_the_trait(spellings: Spellings, binding: Seq<char>, prefix: Seq<Seq<char>>, source: Seq<char>)
    requires
        prefix.len() > 0 ==> !spellings.modules.contains_key(prefix[0]),
        prefix.len() == 0 ==> !spellings.modules.contains_key(source),
    ensures
        prefix == seq!["std"@, "default"@] && source == "Default"@ ==> spellings.importing(binding, prefix, source).names_trait(seq![binding]),
        prefix == seq!["core"@, "default"@] && source == "Default"@ ==> spellings.importing(binding, prefix, source).names_trait(seq![binding]),
        prefix.len() == 1 && prefix[0] != "std"@ && prefix[0] != "core"@ && source != "self"@ && binding != "Default"@ ==> spellings.importing(
            binding,
            prefix,
            source,
        ) == spellings,
        prefix.len() == 1 && prefix[0] != "std"@ && prefix[0] != "core"@ && source != "self"@ && binding == "Default"@ ==> {
            let after = spellings.importing(binding, prefix, source);
            after.shadowed && after.derive_shadowed && after.aliases == spellings.aliases
        },
{
    lemma_names();
    let written = if source == "self"@ {
        prefix
    } else {
        prefix.push(source)
    };
    if written.len() > 0 {
        assert(written[0] == if prefix.len() > 0 {
            prefix[0]
        } else {
            source
        });
        assert(spellings.expanded(written, written.len()) == written);
    }
}

/// What an import binds is spelled so: a name binds itself, or what it is renamed to, to the path in front of it.
pub proof fn law_imports_are_read_as_they_are_written(spellings: Spellings, prefix: Seq<Seq<char>>, tree: Node)
    ensures
        tree.kind == Kind::UseName && tree.kids@.len() > 0 ==> spellings.using(prefix, tree) == spellings.importing(
            tree.kids@[0].text@,
            prefix,
            tree.kids@[0].text@,
        ),
        tree.kind == Kind::UseRename && tree.kids@.len() > 1 ==> spellings.using(prefix, tree) == spellings.importing(
            tree.kids@[1].text@,
            prefix,
            tree.kids@[0].text@,
        ),
        tree.kind == Kind::UsePath && tree.kids@.len() == 2 ==> spellings.using(prefix, tree) == spellings.using(
            prefix.push(tree.kids@[0].text@),
            tree.kids@[1],
        ),
        tree.kind == Kind::UseGroup && tree.kids@.len() == 1 ==> spellings.using(prefix, tree) == spellings.using(prefix, tree.kids@[0]),
        tree.kind == Kind::UseGlob ==> spellings.using(prefix, tree) == spellings,
{
    if tree.kind == Kind::UseGroup && tree.kids@.len() == 1 {
        assert(tree.kids@.drop_last() =~= Seq::<Node>::empty());
        assert(spellings.using_all(prefix, Seq::empty()) == spellings);
        assert(spellings.using_all(prefix, tree.kids@) == spellings.using_all(prefix, tree.kids@.drop_last()).using(prefix, tree.kids@[0]));
    }
}

/// A type of a file's own by the trait's name takes the name away.
pub proof fn law_a_type_takes_the_name_away(spellings: Spellings, item: Node, cfg: crate::cfg::Build)
    requires
        item.kind == Kind::ItemTrait || item.kind == Kind::ItemStruct || item.kind == Kind::ItemEnum || item.kind == Kind::ItemUnion
            || item.kind == Kind::ItemType || item.kind == Kind::ItemMod,
    ensures
        item.word(0) == "Default"@ && cfg.holds(item.attrs@) ==> spellings.behind(item, cfg).shadowed,
        item.word(0) != "Default"@ || !cfg.holds(item.attrs@) ==> spellings.behind(item, cfg) == spellings,
        spellings.behind(item, cfg).derive_shadowed == spellings.derive_shadowed,
{
}

// ---- What has a default. ----

/// A type of a file's own is known. It has a default where it derives one or the trait is implemented for it.
pub proof fn law_what_has_a_default(known: Known, node: Node, spellings: Spellings)
    ensures
        node.kind == Kind::ItemStruct || node.kind == Kind::ItemEnum || node.kind == Kind::ItemUnion ==> known.noting(
            node,
            spellings,
        ).defined.contains(node.word(0)),
        node.kind == Kind::ItemImpl && node.kids@.len() == 4 && (node.first_of(1) matches Some(path) && spellings.names_trait(
            path_names(path),
        )) && known_name(node.kids@[2]) is Some ==> known.noting(node, spellings).defaulted.contains(known_name(node.kids@[2])->0),
        node.kind == Kind::ItemImpl && !(node.first_of(1) matches Some(path) && spellings.names_trait(path_names(path))) ==> known.noting(
            node,
            spellings,
        ) == known,
        node.kind == Kind::ItemFn || node.kind == Kind::ItemMod || node.kind == Kind::ItemTrait ==> known.noting(node, spellings) == known,
{
}

/// A type derives a default where an attribute lists it, whatever is listed in front of it and behind it, as
/// long as nothing else has taken the name.
pub proof fn law_a_derived_default_is_found(known: Known, node: Node, spellings: Spellings, at: int, front: Seq<Node>, word: Node)
    requires
        node.kind == Kind::ItemStruct || node.kind == Kind::ItemEnum || node.kind == Kind::ItemUnion,
        0 <= at < node.attrs@.len(),
        node.attrs@[at].kind == Kind::AttrList,
        node.attrs@[at].kids@.len() == 2,
        path_ident(node.attrs@[at].kids@[0]) == Some("derive"@),
        is_word(word, "Default"@),
        node.attrs@[at].kids@[1].kids@ == front.push(word),
        front.len() > 0 ==> is_mark(front.last(), ","@),
        !spellings.derive_shadowed,
    ensures
        known.noting(node, spellings).defaulted.contains(node.word(0)),
{
    lemma_listed(front, word);
    assert(super::super::defaults::derives(node.attrs@[at]));
}

proof fn lemma_listed(front: Seq<Node>, word: Node)
    requires
        is_word(word, "Default"@),
        front.len() > 0 ==> is_mark(front.last(), ","@),
    ensures
        lists_default(front.push(word)),
    decreases front.len(),
{
    let all = front.push(word);
    lemma_pieces(all);
    crate::cfg::lemma_comma(all);
    if front.len() == 0 {
        assert(all[0] == word);
        assert(all.drop_first() =~= Seq::<Node>::empty());
        assert(crate::cfg::comma(Seq::empty()) == 0);
        assert(!is_mark(word, ","@));
        assert(crate::cfg::comma(all) == 1);
        assert(head(all) =~= all);
    } else {
        let k = crate::cfg::comma(all);
        lemma_comma_reached(all, front.len() - 1);
        let later = front.skip(k + 1);
        assert(rest(all) =~= later.push(word));
        if later.len() > 0 {
            assert(later.last() == front.last());
        }
        lemma_listed(later, word);
    }
}

proof fn lemma_comma_reached(tokens: Seq<Node>, at: int)
    requires
        0 <= at < tokens.len(),
        is_mark(tokens[at], ","@),
    ensures
        crate::cfg::comma(tokens) <= at,
    decreases tokens.len(),
{
    if !is_mark(tokens[0], ","@) {
        assert(tokens.drop_first()[at - 1] == tokens[at]);
        lemma_comma_reached(tokens.drop_first(), at - 1);
    }
}

/// What is derived by a path of several names is not the default of the standard library, whatever it begins with.
pub proof fn law_a_path_derives_something_else(word: Node, mark: Node, more: Seq<Node>)
    requires
        is_word(word, "Default"@),
    ensures
        super::super::defaults::is_default_entry(seq![word]),
        is_mark(mark, ":"@) ==> !super::super::defaults::is_default_entry(seq![word, mark] + more),
{
    let all = seq![word, mark] + more;
    assert(all[0] == word && all[1] == mark);
}

/// An implementation is of the trait of defaults where the trait is named alone as that is, or spelled as it where
/// nothing else has taken its name.
pub proof fn law_an_implementation_of_the_trait(spellings: Spellings, path: Node)
    ensures
        path.kids@.len() == 1 && path.kids@[0].word(0) == "Default"@ ==> spellings.is_fallback(path),
        path.kids@.len() != 1 && spellings.shadowed ==> !spellings.is_fallback(path),
        path.kids@.len() != 1 && !spellings.shadowed ==> (spellings.is_fallback(path) <==> spellings.names_trait(path_names(path))),
{
}

/// A name for results that is given twice stands for an error only if both times it is the same.
pub proof fn law_two_names_for_results_must_agree(
    errors: Map<Seq<char>, Option<Seq<char>>>,
    alias: Seq<char>,
    one: Option<Seq<char>>,
    two: Option<Seq<char>>,
    other: Seq<char>,
)
    ensures
        ({
            let once = with_alias(errors, alias, one);
            &&& !errors.contains_key(alias) ==> once[alias] == one
            &&& !errors.contains_key(alias) ==> with_alias(once, alias, one)[alias] == one
            &&& !errors.contains_key(alias) && one != two ==> with_alias(once, alias, two)[alias] is None
            &&& other != alias ==> (once.contains_key(other) <==> errors.contains_key(other))
            &&& other != alias && errors.contains_key(other) ==> once[other] == errors[other]
        }),
{
}

/// A name for results stands for the error that its parameter falls back to, or else for the second of the
/// types that it is made of.
pub proof fn law_a_name_for_results_has_an_error(item: Node)
    requires
        item.kind == Kind::ItemType,
        item.kids@.len() == 3,
    ensures
        known_name(item.kids@[2]) != Some("Result"@) ==> alias_error(item) is None,
        known_name(item.kids@[2]) == Some("Result"@) && default_param(item.kids@[1].all_of(0)) is Some ==> alias_error(item) == default_param(
            item.kids@[1].all_of(0),
        ),
        known_name(item.kids@[2]) == Some("Result"@) && default_param(item.kids@[1].all_of(0)) is None && argument(item.kids@[2], 1) is Some
            && item.kids@[2].kind == Kind::TypePath ==> alias_error(item) == known_name(argument(item.kids@[2], 1)->0),
{
    assert(item.kids@[2].kind == Kind::TypePath ==> stripped(item.kids@[2]) == item.kids@[2]);
}

/// A path is of the standard library where it begins with one of its crates, and an error is named as one at the
/// end.
pub proof fn law_how_errors_are_named(path: Seq<Seq<char>>, name: Seq<char>)
    ensures
        is_standard(path) <==> path.len() > 1 && (path[0] == "std"@ || path[0] == "core"@ || path[0] == "alloc"@),
        is_error_name(name) <==> exists|front: Seq<char>| name == #[trigger] (front + "Error"@),
{
    reveal_strlit("Error");
    assert("Error"@.len() == 5);
    if is_error_name(name) {
        let front = name.take(name.len() - 5);
        assert(name =~= front + "Error"@);
    }
    if exists|front: Seq<char>| name == #[trigger] (front + "Error"@) {
        let front = choose|front: Seq<char>| name == #[trigger] (front + "Error"@);
        assert(name.skip(name.len() - 5) =~= "Error"@);
    }
}

/// What is foreign is an error of another crate or a moment in time: the rest of a library's types are taken to
/// have a default.
pub proof fn law_what_is_foreign(ty: Node, imports: Map<Seq<char>, Option<Seq<Seq<char>>>>)
    ensures
        ({
            let path = full_path(ty, imports);
            &&& is_foreign(ty, imports) ==> path.len() > 0 && (is_standard(path) || is_imported_from_outside(ty, imports))
            &&& path == seq!["std"@, "fmt"@, "Error"@] || path == seq!["core"@, "fmt"@, "Error"@] ==> !is_foreign(ty, imports)
            &&& path == seq!["std"@, "io"@, "Error"@] ==> is_foreign(ty, imports)
            &&& path == seq!["std"@, "time"@, "Instant"@] || path == seq!["std"@, "time"@, "SystemTime"@] ==> is_foreign(ty, imports)
            &&& is_standard(path) && path.len() != 3 && !is_error_name(path.last()) ==> !is_foreign(ty, imports)
            &&& is_imported_from_outside(ty, imports) && path.len() > 0 && is_error_name(path.last()) && !is_standard(path) ==> is_foreign(
                ty,
                imports,
            )
        }),
{
    reveal_strlit("Error");
    reveal_strlit("Instant");
    reveal_strlit("SystemTime");
    reveal_strlit("time");
    reveal_strlit("io");
    reveal_strlit("fmt");
    assert("Error"@.len() == 5 && "time"@.len() == 4 && "io"@.len() == 2 && "fmt"@.len() == 3);
    assert("Instant"@.len() == 7 && "SystemTime"@.len() == 10);
    assert("Instant"@[6] == 't' && "Error"@[4] == 'r' && "SystemTime"@[9] == 'e');
    assert("Error"@.skip(0) =~= "Error"@);
}

/// What is imported from inside the crate is not foreign.
pub proof fn law_what_is_imported_from_inside_is_not_foreign(ty: Node, path: Node, imports: Map<Seq<char>, Option<Seq<Seq<char>>>>)
    requires
        type_path(stripped(ty)) == Some(path),
        path_names(path).len() > 0,
        imports.contains_key(path_names(path)[0]),
        imports[path_names(path)[0]] matches Some(prefix) && prefix.len() > 0,
    ensures
        is_imported_from_outside(ty, imports) <==> {
            let first = (imports[path_names(path)[0]]->0)[0];
            first != "crate"@ && first != "self"@ && first != "super"@
        },
        full_path(ty, imports) == imports[path_names(path)[0]]->0 + path_names(path),
{
}

/// An abstract type has no default: a trait object, what only promises a trait, a parameter, and a pointer to
/// one of those.
pub proof fn law_what_is_abstract(ty: Node, abstracts: Seq<Seq<char>>)
    ensures
        ty.kind == Kind::TypeTraitObject || ty.kind == Kind::TypeImplTrait ==> is_abstract(ty, abstracts),
        (ty.kind == Kind::TypeParen || ty.kind == Kind::TypeGroup) && ty.kids@.len() > 0 ==> (is_abstract(ty, abstracts) <==> is_abstract(
            ty.kids@[0],
            abstracts,
        )),
        ty.kind == Kind::TypePath && ty.first_of(0) is None && ty.kids@.len() > 1 && ty.kids@[1].kids@.len() > 0 && abstracts.contains(
            ty.kids@[1].kids@[0].word(0),
        ) ==> is_abstract(ty, abstracts),
        ty.kind == Kind::TypePath && ty.first_of(0) is None && ty.kids@.len() > 1 && ty.kids@[1].kids@.len() > 0 && !abstracts.contains(
            ty.kids@[1].kids@[0].word(0),
        ) && last_name(ty.kids@[1]) != Some("Box"@) && last_name(ty.kids@[1]) != Some("Rc"@) && last_name(ty.kids@[1]) != Some("Arc"@)
            ==> !is_abstract(ty, abstracts),
        ty.kind == Kind::TypeTuple ==> !is_abstract(ty, abstracts),
{
}

/// The error of formatting has a default. Another result has an error without one where its second type has none.
pub proof fn law_errors_without_a_default(types: Typing, output: Node, ty: Node)
    requires
        output.kid(0) == Some(ty),
    ensures
        types.is_fmt_result(ty) ==> !types.returns_undefaultable_error(output),
        !types.is_fmt_result(ty) && class_of(ty) == Class::Result && argument(ty, 1) is Some ==> (types.returns_undefaultable_error(output)
            <==> types.is_undefaultable(argument(ty, 1)->0)),
{
}

// ---- Stated values. ----

/// A stated value goes on a function with a body that runs and does something, and is one expression.
pub proof fn law_a_stated_value_is_at_home_on_a_function(audited: Audited, node: Node, attr: Node, sig: Node)
    requires
        node.kind == Kind::ItemFn || node.kind == Kind::ImplFn || node.kind == Kind::TraitFn,
        node.kids@.len() == 2,
        node.kids@[0] == sig,
        stated_among(node.attrs@) == seq![attr],
    ensures
        ({
            let after = audited.noting(node);
            let at = attr.start as int;
            &&& after.claimed.contains(at)
            &&& node.kids@[1].kids@.len() == 0 ==> after.faults == audited.faults.push((at, Wrong::Bodiless))
            &&& node.kids@[1].kids@.len() > 0 ==> {
                let constant = sig.kind == (Kind::Signature { constant: true });
                let empty = node.kids@[1].kids@[0].kids@.len() == 0;
                &&& !is_readable(attr) ==> after.faults == audited.faults.push((at, Wrong::Malformed))
                &&& is_readable(attr) && constant ==> after.faults == audited.faults.push((at, Wrong::Constant))
                &&& is_readable(attr) && !constant && empty ==> after.faults == audited.faults.push((at, Wrong::Empty))
                &&& is_readable(attr) && !constant && !empty ==> after.faults == audited.faults
            }
        }),
{
    let stated = seq![attr];
    assert(stated.drop_last() =~= Seq::<Node>::empty());
    assert(stated.last() == attr);
    let body = node.first_of(1);
    if node.kids@[1].kids@.len() == 0 {
        assert(audited.with_declaration(Seq::empty()) == audited);
    } else {
        let reason = inert(sig.kind == (Kind::Signature { constant: true }), node.kids@[1].kids@[0].kids@.len() == 0);
        assert(audited.claiming(Seq::empty(), reason) == audited);
    }
}

/// Two values that are stated for one function are one too many, and the second is complained of.
pub proof fn law_one_value_is_stated_for_one_function(audited: Audited, attrs: Seq<Node>, reason: Option<Wrong>)
    requires
        stated_among(attrs).len() > 1,
    ensures
        audited.with_function(attrs, reason).faults.contains((stated_among(attrs)[1].start as int, Wrong::Duplicated)),
{
    let stated = stated_among(attrs);
    let fault = (stated[1].start as int, Wrong::Duplicated);
    let wrong = audited.wrong(stated[1].start as int, Wrong::Duplicated);
    assert(wrong.faults.last() == fault);
    assert(wrong.faults.contains(fault));
    lemma_claiming_keeps(wrong, stated, reason, fault);
}

proof fn lemma_claiming_keeps(audited: Audited, stated: Seq<Node>, reason: Option<Wrong>, fault: (int, Wrong))
    requires
        audited.faults.contains(fault),
    ensures
        audited.claiming(stated, reason).faults.contains(fault),
    decreases stated.len(),
{
    if stated.len() > 0 {
        lemma_claiming_keeps(audited, stated.drop_last(), reason, fault);
        let before = audited.claiming(stated.drop_last(), reason).faults;
        let after = audited.claiming(stated, reason).faults;
        let k = choose|k: int| 0 <= k < before.len() && before[k] == fault;
        assert(after[k] == fault);
    }
}

/// A value that is stated elsewhere is out of place, and only such a one is.
pub proof fn law_a_value_stated_elsewhere_is_out_of_place(audited: Audited, stated: Seq<int>, at: int)
    requires
        stated.contains(at),
    ensures
        !audited.claimed.contains(at) ==> audited.with_misplaced(stated).contains((at, Wrong::Misplaced)),
        (forall|k: int| 0 <= k < stated.len() ==> audited.claimed.contains(#[trigger] stated[k])) ==> audited.with_misplaced(stated)
            == audited.faults,
    decreases stated.len(),
{
    let k = choose|k: int| 0 <= k < stated.len() && stated[k] == at;
    let front = stated.drop_last();
    let before = audited.with_misplaced(front);
    let after = audited.with_misplaced(stated);
    if k < stated.len() - 1 {
        assert(front[k] == at);
        law_a_value_stated_elsewhere_is_out_of_place(audited, front, at);
        if !audited.claimed.contains(at) {
            let i = choose|i: int| 0 <= i < before.len() && before[i] == (at, Wrong::Misplaced);
            assert(after[i] == (at, Wrong::Misplaced));
        }
        if forall|k: int| 0 <= k < stated.len() ==> audited.claimed.contains(#[trigger] stated[k]) {
            assert forall|k: int| 0 <= k < front.len() implies audited.claimed.contains(#[trigger] front[k]) by {
                assert(front[k] == stated[k]);
            }
        }
    } else {
        if !audited.claimed.contains(at) {
            assert(after[after.len() - 1] == (at, Wrong::Misplaced));
        }
        if forall|k: int| 0 <= k < stated.len() ==> audited.claimed.contains(#[trigger] stated[k]) {
            assert forall|k: int| 0 <= k < front.len() implies audited.claimed.contains(#[trigger] front[k]) by {
                assert(front[k] == stated[k]);
            }
            if front.len() > 0 {
                assert(front.contains(front[0]));
                law_a_value_stated_elsewhere_is_out_of_place(audited, front, front[0]);
            }
        }
    }
}

/// Of several complaints the first in the file is made, and of several at one place the first that was found.
pub proof fn law_the_first_complaint_is_made(faults: Seq<(int, Wrong)>)
    ensures
        faults.len() == 0 <==> earliest(faults) is None,
        earliest(faults) matches Some(fault) ==> exists|k: int|
            0 <= k < faults.len() && #[trigger] faults[k] == fault && (forall|i: int| 0 <= i < faults.len() ==> fault.0 <= (#[trigger] faults[i]).0)
                && (forall|i: int| 0 <= i < k ==> fault.0 < (#[trigger] faults[i]).0),
    decreases faults.len(),
{
    if faults.len() > 0 {
        law_the_first_complaint_is_made(faults.drop_last());
        let front = faults.drop_last();
        match earliest(front) {
            Some(fault) => {
                let k = choose|k: int|
                    0 <= k < front.len() && #[trigger] front[k] == fault && (forall|i: int|
                        0 <= i < front.len() ==> fault.0 <= (#[trigger] front[i]).0) && (forall|i: int|
                        0 <= i < k ==> fault.0 < (#[trigger] front[i]).0);
                let at = if faults.last().0 < fault.0 {
                    faults.len() - 1
                } else {
                    k
                };
                let best = faults[at];
                assert forall|i: int| 0 <= i < faults.len() implies best.0 <= (#[trigger] faults[i]).0 by {
                    if i < front.len() {
                        assert(front[i] == faults[i]);
                    }
                }
                assert forall|i: int| 0 <= i < at implies best.0 < (#[trigger] faults[i]).0 by {
                    assert(front[i] == faults[i]);
                }
                assert(faults[at] == best);
            },
            None => {
                assert(faults[0] == faults.last());
            },
        }
    }
}

/// A complaint says in which file it is and on which line, counted as lines are walked.
pub proof fn law_a_complaint_says_where_it_is(path: Seq<char>, text: Seq<char>, k: int, wrong: Wrong)
    requires
        0 <= k < text.len(),
    ensures
        exists|line: Seq<char>| #[trigger]
            stands_for(line, breaks(text.take(k)) + 1, 10) && fault_message(path, text, (byte_len(text.take(k)) as int, wrong)) == path + seq![
                ':',
            ] + line + seq![':', ' '] + wording(wrong),
{
    crate::parse::lines::law_location_agrees_with_walking(text, k);
    law_decimals_stand_for_their_number(breaks(text.take(k)) + 1);
    reveal_strlit(":");
    reveal_strlit(": ");
    assert(":"@ =~= seq![':']);
    assert(": "@ =~= seq![':', ' ']);
    assert(stands_for(decimal(breaks(text.take(k)) + 1), breaks(text.take(k)) + 1, 10));
}

/// A value is stated by an attribute whose path is `gamma::value`.
pub proof fn law_how_a_value_is_stated(attr: Node, path: Node)
    requires
        attr.kid(0) == Some(path),
        path.kids@.len() == 2,
    ensures
        is_stated(attr) <==> path.kids@[0].word(0) == "gamma"@ && path.kids@[1].word(0) == "value"@,
        is_stated(attr) && attr.kind == Kind::AttrList && attr.kids@.len() == 2 && attr.kids@[1].kids@.len() > 0 ==> arguments(attr) == Some(
            attr.kids@[1],
        ),
        attr.kind != Kind::AttrList ==> arguments(attr) is None,
{
    let names = path_names(path);
    let wanted = seq!["gamma"@, "value"@];
    if path.kids@[0].word(0) == "gamma"@ && path.kids@[1].word(0) == "value"@ {
        assert(names =~= wanted);
    }
    if names == wanted {
        assert(names[0] == wanted[0] && names[1] == wanted[1]);
    }
}

/// What is stated is what is between the brackets of the first attribute that states a value.
pub proof fn law_the_first_stated_value_counts(attr: Node, others: Seq<Node>)
    ensures
        arguments(attr) is None ==> stated_span(seq![attr] + others) == stated_span(others),
        arguments(attr) matches Some(list) && list.kind == (Kind::Arguments { expression: true }) && list.kids@[0].start
            < list.kids@.last().end ==> stated_span(seq![attr] + others) == Some(
            ((arguments(attr)->0).kids@[0].start as int, (arguments(attr)->0).kids@.last().end as int),
        ),
        path_names(attr.kids@[0]) != seq!["gamma"@, "value"@] ==> arguments(attr) is None,
{
    let all = seq![attr] + others;
    assert(all[0] == attr);
    assert(all.drop_first() =~= others);
}

// ---- What a mutant is known by. ----

/// A mutant says what it replaces, by what, where and how, and is known by the file, the place in it, the
/// mutator, what is written there without its layout, and which of several it is.
pub proof fn law_a_mutant_says_what_it_is(path: Seq<char>, text: Seq<char>, all: Seq<Offer>, offer: Offer, k: int)
    requires
        0 <= k < text.len(),
        offer.start == byte_len(text.take(k)),
    ensures
        ({
            let d = definition_of(path, text, all, offer);
            &&& d.file == path
            &&& d.mutator == offer.mutator
            &&& d.item_path == offer.item_path
            &&& d.replacement == offer.replacement
            &&& d.replacement_index == offer.index
            &&& d.shape == offer.shape
            &&& d.site.start == offer.start
            &&& d.site.end == offer.end
            &&& d.site.original == slice(text, offer.start, offer.end)
            &&& d.site.line == breaks(text.take(k)) + 1
            &&& d.site.column == tail(text.take(k)) + 1
            &&& d.id.file == path
            &&& d.id.item_path == offer.item_path
            &&& d.id.mutator == offer.mutator
            &&& d.id.site == layout_free(slice(text, offer.start, offer.end))
            &&& d.id.replacement_index == offer.index
            &&& d.id.occurrence == d.occurrence
            &&& d.id.discriminator is Some <==> offer.mutator == "fn_value.err_with"@
            &&& d.id.discriminator matches Some(error) ==> error == offer.replacement
        }),
{
    crate::parse::lines::law_location_agrees_with_walking(text, k);
}

} // verus!
