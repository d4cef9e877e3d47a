//! What the catalog, its families and its presets promise together.
use crate::ops::registry::catalog::{catalog, preset_groups};
use crate::ops::registry::lookup::{
    all_aliases, asked, best_score, entry_named, families_of, family_of, lemma_entry_named, member_names, members_names, named_from, names_asked, picked, plain_names,
    preset_from, preset_spellings, resolved, spellings, unknown_message, Ask,
};
use crate::ops::registry::names::{
    bounds, family_names, is_of, is_stretch, is_undotted, lemma_family_names, lemma_family_undotted, lemma_found_at,
    lemma_off_by_default, lemma_stretches,
};
use crate::ops::registry::selection::{applied, applied_list, applied_one, ascending};
use crate::ops::registry::Entry;
use crate::text::{begins, index_from, is_white, lemma_index_from, lemma_sorts_one_way, pieces_from, same_but_case, sorts_before, trim};
use vstd::prelude::*;

verus! {

// ---- Families. ----

/// What several families expand to, one after the other.
pub open spec fn expansion(rows: Seq<Entry>, families: Seq<Seq<char>>) -> Seq<Seq<char>>
    decreases families.len(),
{
    if families.len() == 0 {
        Seq::empty()
    } else {
        expansion(rows, families.drop_last()) + picked(rows, rows.len(), Ask::Prefix(families.last() + "."@))
    }
}

/// Whether entries are grouped by family: joined in order, the families give the entries in order.
spec fn is_grouped(rows: Seq<Entry>, families: Seq<Seq<char>>) -> bool {
    &&& families == families_of(rows, rows.len())
    &&& expansion(rows, families) == picked(rows, rows.len(), Ask::All)
    &&& forall|i: int| 0 <= i < rows.len() ==> is_of((#[trigger] rows[i]).name, family_of(rows[i].name))
    &&& forall|i: int| 0 <= i < rows.len() ==> families.contains(family_of((#[trigger] rows[i]).name))
    &&& forall|i: int| 0 <= i < families.len() ==> is_undotted(#[trigger] families[i])
}

/// A name begins with a family and a dot where it is of that family.
proof fn lemma_prefix(name: Seq<char>, family: Seq<char>)
    requires
        is_undotted(family),
        is_of(name, family_of(name)),
    ensures
        begins(name, family + "."@) <==> family_of(name) == family,
{
    reveal_strlit(".");
    let prefix = family + "."@;
    let at = index_from(name, '.', 0);
    lemma_index_from(name, '.', 0);
    lemma_family_undotted(name);
    if begins(name, prefix) {
        let end = family.len() as int;
        assert(name[end] == prefix[end]) by {
            assert(name.take(end + 1)[end] == name[end]);
        }
        assert forall|i: int| 0 <= i < end implies name[i] == family[i] by {
            assert(name.take(end + 1)[i] == name[i]);
            assert(prefix[i] == family[i]);
        }
        if at < end {
            assert(name[at] == family[at]);
        } else if at > end {
            assert(family_of(name)[end] == name[end]);
        }
        assert(family_of(name) =~= family);
    }
    if family_of(name) == family {
        assert(name.take(prefix.len() as int) =~= prefix);
    }
}

/// One more entry does not change what was said of those before it.
proof fn lemma_picked_before(rows: Seq<Entry>, entry: Entry, n: nat, ask: Ask)
    requires
        n <= rows.len(),
    ensures
        picked(rows.push(entry), n, ask) == picked(rows, n, ask),
    decreases n,
{
    if n > 0 {
        lemma_picked_before(rows, entry, (n - 1) as nat, ask);
        assert(rows.push(entry)[n - 1] == rows[n - 1]);
    }
}

proof fn lemma_families_before(rows: Seq<Entry>, entry: Entry, n: nat)
    requires
        n <= rows.len(),
    ensures
        families_of(rows.push(entry), n) == families_of(rows, n),
    decreases n,
{
    if n > 0 {
        lemma_families_before(rows, entry, (n - 1) as nat);
        assert(rows.push(entry)[n - 1] == rows[n - 1]);
    }
}

/// Families that an entry is not of expand to the same without it.
proof fn lemma_expansion_elsewhere(rows: Seq<Entry>, entry: Entry, families: Seq<Seq<char>>)
    requires
        is_of(entry.name, family_of(entry.name)),
        forall|i: int| 0 <= i < families.len() ==> is_undotted(#[trigger] families[i]) && families[i] != family_of(entry.name),
    ensures
        expansion(rows.push(entry), families) == expansion(rows, families),
    decreases families.len(),
{
    if families.len() > 0 {
        let rest = families.drop_last();
        assert forall|i: int| 0 <= i < rest.len() implies is_undotted(#[trigger] rest[i]) && rest[i] != family_of(entry.name) by {
            assert(rest[i] == families[i]);
        }
        lemma_expansion_elsewhere(rows, entry, rest);
        let ask = Ask::Prefix(families.last() + "."@);
        lemma_picked_before(rows, entry, rows.len(), ask);
        lemma_prefix(entry.name, families[families.len() - 1]);
    }
}

/// A family that no entry is of expands to nothing.
proof fn lemma_picked_none(rows: Seq<Entry>, n: nat, family: Seq<char>)
    requires
        n <= rows.len(),
        is_undotted(family),
        forall|i: int|
            0 <= i < rows.len() ==> is_of((#[trigger] rows[i]).name, family_of(rows[i].name)) && family_of(rows[i].name) != family,
    ensures
        picked(rows, n, Ask::Prefix(family + "."@)).len() == 0,
    decreases n,
{
    if n > 0 {
        lemma_picked_none(rows, (n - 1) as nat, family);
        assert(is_of(rows[n - 1].name, family_of(rows[n - 1].name)));
        lemma_prefix(rows[n - 1].name, family);
    }
}

/// One more entry of the last family, or of a new one, leaves the entries grouped.
proof fn lemma_grouped_push(rows: Seq<Entry>, entry: Entry, families: Seq<Seq<char>>)
    requires
        is_grouped(rows, families),
        is_of(entry.name, family_of(entry.name)),
        !families.contains(family_of(entry.name)) || families.len() > 0 && families.last() == family_of(entry.name)
            && !families.drop_last().contains(family_of(entry.name)),
    ensures
        is_grouped(
            rows.push(entry),
            if families.contains(family_of(entry.name)) {
                families
            } else {
                families.push(family_of(entry.name))
            },
        ),
{
    let family = family_of(entry.name);
    let more = rows.push(entry);
    let ask = Ask::Prefix(family + "."@);
    lemma_family_undotted(entry.name);
    lemma_prefix(entry.name, family);
    lemma_families_before(rows, entry, rows.len());
    lemma_picked_before(rows, entry, rows.len(), ask);
    lemma_picked_before(rows, entry, rows.len(), Ask::All);
    let grown = if families.contains(family) {
        families
    } else {
        families.push(family)
    };
    let before = grown.drop_last();
    if families.contains(family) {
        assert(families[families.len() - 1] == family);
    } else {
        assert(before =~= families);
        assert(grown[families.len() as int] == family);
        assert forall|i: int| 0 <= i < rows.len() implies is_of((#[trigger] rows[i]).name, family_of(rows[i].name)) && family_of(
            rows[i].name,
        ) != family by {
            assert(families.contains(family_of(rows[i].name)));
        }
        lemma_picked_none(rows, rows.len(), family);
    }
    assert forall|i: int| 0 <= i < before.len() implies is_undotted(#[trigger] before[i]) && before[i] != family by {
        assert(before[i] == families[i]);
        assert(before.contains(before[i]));
    }
    lemma_expansion_elsewhere(rows, entry, before);
    assert(grown.contains(family)) by {
        assert(grown[grown.len() - 1] == family);
    }
    assert forall|i: int| 0 <= i < more.len() implies grown.contains(family_of((#[trigger] more[i]).name)) by {
        if i < rows.len() {
            assert(families.contains(family_of(rows[i].name)));
            let j = choose|j: int| 0 <= j < families.len() && families[j] == family_of(rows[i].name);
            assert(grown[j] == families[j]);
        }
    }
    assert(expansion(more, grown) =~= picked(more, more.len(), Ask::All));
}

/// A stretch of entries of a new family leaves the entries grouped.
proof fn lemma_grouped_stretch(rows: Seq<Entry>, from: nat, to: nat, families: Seq<Seq<char>>, family: Seq<char>)
    requires
        from < to <= rows.len(),
        is_stretch(rows, from, to, family),
        is_grouped(rows.take(from as int), families),
        !families.contains(family),
    ensures
        is_grouped(rows.take(to as int), families.push(family)),
    decreases to - from,
{
    let last = rows[to - 1];
    let before = rows.take(to - 1);
    assert(rows.take(to as int) =~= before.push(last));
    assert(is_of(last.name, family));
    if from < to - 1 {
        lemma_grouped_stretch(rows, from, (to - 1) as nat, families, family);
        let grown = families.push(family);
        assert(grown[families.len() as int] == family);
        assert(grown.drop_last() =~= families);
        lemma_grouped_push(before, last, grown);
    } else {
        lemma_grouped_push(before, last, families);
    }
}

proof fn lemma_grouped_families(n: nat)
    requires
        n <= family_names().len(),
    ensures
        bounds()[n as int] <= catalog().len(),
        is_grouped(catalog().take(bounds()[n as int] as int), family_names().take(n as int)),
    decreases n,
{
    let all = family_names();
    lemma_stretches();
    lemma_family_names();
    if n == 0 {
        assert(catalog().take(0) =~= Seq::<Entry>::empty());
        assert(all.take(0) =~= Seq::<Seq<char>>::empty());
    } else {
        let k = n - 1;
        lemma_grouped_families(k as nat);
        lemma_bounds_within(n);
        assert(bounds()[k] < bounds()[k + 1]);
        assert(is_stretch(catalog(), bounds()[k], bounds()[k + 1], all[k]));
        let before = all.take(k);
        assert(!before.contains(all[k])) by {
            if before.contains(all[k]) {
                let i = choose|i: int| 0 <= i < before.len() && before[i] == all[k];
                assert(all[i] != all[k]);
            }
        }
        assert(all.take(n as int) =~= before.push(all[k]));
        lemma_grouped_stretch(catalog(), bounds()[k], bounds()[n as int], before, all[k]);
    }
}

proof fn lemma_bounds_within(n: nat)
    requires
        n <= family_names().len(),
    ensures
        bounds()[n as int] <= catalog().len(),
    decreases family_names().len() - n,
{
    lemma_stretches();
    if n < family_names().len() {
        let k = n as int;
        lemma_bounds_within(n + 1);
        assert(bounds()[k] < bounds()[k + 1]);
    }
}

/// Every entry of the catalog belongs to one of the stretches.
proof fn lemma_entry(i: int)
    requires
        0 <= i < catalog().len(),
    ensures
        is_of(catalog()[i].name, family_of(catalog()[i].name)),
        catalog()[i].default_on <==> catalog()[i].name != "fn_value.some"@,
{
    lemma_stretches();
    lemma_entry_among(i, family_names().len());
}

proof fn lemma_entry_among(i: int, n: nat)
    requires
        0 <= i < bounds()[n as int],
        n <= family_names().len(),
    ensures
        is_of(catalog()[i].name, family_of(catalog()[i].name)),
        catalog()[i].default_on <==> catalog()[i].name != "fn_value.some"@,
    decreases n,
{
    lemma_stretches();
    if n > 0 {
        let k = n - 1;
        if i < bounds()[k] {
            lemma_entry_among(i, k as nat);
        } else {
            assert(is_stretch(catalog(), bounds()[k], bounds()[k + 1], family_names()[k]));
        }
    }
}

/// An entry with a name is found by it.
proof fn lemma_found(name: Seq<char>, i: int, from: int)
    requires
        0 <= from <= i < catalog().len(),
        catalog()[i].name == name,
    ensures
        named_from(catalog(), name, from) <= i,
    decreases i - from,
{
    if catalog()[from].name != name {
        lemma_found(name, i, from + 1);
    }
}

/// A text without a dot names no entry.
proof fn lemma_family_is_no_entry(family: Seq<char>)
    requires
        is_undotted(family),
    ensures
        entry_named(family) is None,
{
    lemma_entry_named(family);
    let at = named_from(catalog(), family, 0);
    lemma_named_from_is_not_before(family, 0);
    if at < catalog().len() {
        lemma_entry(at);
        lemma_index_from(family, '.', 0);
        assert(family[index_from(family, '.', 0)] == '.');
    }
}

proof fn lemma_named_from_is_not_before(name: Seq<char>, at: int)
    ensures
        named_from(catalog(), name, at) >= at,
    decreases catalog().len() - at,
{
    if 0 <= at < catalog().len() && catalog()[at].name != name {
        lemma_named_from_is_not_before(name, at + 1);
    }
}

/// What several selectors expand to, one after the other, where each of them matches something.
pub open spec fn joined(selectors: Seq<Seq<char>>) -> Result<Seq<Seq<char>>, Seq<char>>
    decreases selectors.len(),
{
    if selectors.len() == 0 {
        Ok(Seq::empty())
    } else {
        match (joined(selectors.drop_last()), resolved(selectors.last())) {
            (Ok(before), Ok(names)) => Ok(before + names),
            (Err(selector), _) => Err(selector),
            (_, Err(selector)) => Err(selector),
        }
    }
}

/// A family of the catalog expands to its entries.
proof fn lemma_family_resolves(k: int)
    requires
        0 <= k < family_names().len(),
    ensures
        resolved(family_names()[k]) == Ok::<Seq<Seq<char>>, Seq<char>>(names_asked(Ask::Prefix(family_names()[k] + "."@))),
{
    let family = family_names()[k];
    lemma_family_names();
    lemma_stretches();
    let i = bounds()[k] as int;
    lemma_bounds_within((k + 1) as nat);
    assert(bounds()[k] < bounds()[k + 1]);
    assert(is_stretch(catalog(), bounds()[k], bounds()[k + 1], family));
    assert(is_of(catalog()[i].name, family));
    lemma_family_undotted(catalog()[i].name);
    lemma_prefix(catalog()[i].name, family);
    lemma_family_is_no_entry(family);
    lemma_picked_some(catalog(), catalog().len(), Ask::Prefix(family + "."@), i);
    assert(family != "all"@ && family[0] != '@');
}

proof fn lemma_picked_some(rows: Seq<Entry>, n: nat, ask: Ask, i: int)
    requires
        0 <= i < n <= rows.len(),
        asked(rows[i], ask),
    ensures
        picked(rows, n, ask).contains(rows[i].name),
        picked(rows, n, ask).len() > 0,
    decreases n,
{
    let all = picked(rows, n, ask);
    if i < n - 1 {
        lemma_picked_some(rows, (n - 1) as nat, ask, i);
        let before = picked(rows, (n - 1) as nat, ask);
        let j = choose|j: int| 0 <= j < before.len() && before[j] == rows[i].name;
        assert(all[j] == before[j]);
    } else {
        assert(all[all.len() - 1] == rows[i].name);
    }
}

proof fn lemma_joined(n: nat)
    requires
        n <= family_names().len(),
    ensures
        joined(family_names().take(n as int)) == Ok::<Seq<Seq<char>>, Seq<char>>(
            expansion(catalog(), family_names().take(n as int)),
        ),
    decreases n,
{
    if n > 0 {
        let some = family_names().take(n as int);
        assert(some.drop_last() =~= family_names().take(n - 1));
        lemma_joined((n - 1) as nat);
        lemma_family_resolves(n - 1);
    }
}

/// The families partition the registry: each of them resolves, and what they resolve to, joined in the
/// order in which they are listed, is what `all` resolves to.
pub proof fn law_the_families_make_up_the_registry()
    ensures
        joined(families_of(catalog(), catalog().len())) == resolved("all"@),
        resolved("all"@) == Ok::<Seq<Seq<char>>, Seq<char>>(names_asked(Ask::All)),
        forall|i: int|
            0 <= i < families_of(catalog(), catalog().len()).len() ==> resolved(
                #[trigger] families_of(catalog(), catalog().len())[i],
            ) is Ok,
{
    let n = family_names().len();
    lemma_stretches();
    lemma_grouped_families(n);
    assert(catalog().take(catalog().len() as int) =~= catalog());
    assert(family_names().take(n as int) =~= family_names());
    lemma_joined(n);
    assert forall|i: int| 0 <= i < family_names().len() implies resolved(#[trigger] family_names()[i]) is Ok by {
        lemma_family_resolves(i);
    }
}

// ---- Presets. ----

/// What is asked for is in the catalog, and is asked for.
proof fn lemma_picked_are_asked(rows: Seq<Entry>, n: nat, ask: Ask, name: Seq<char>)
    requires
        n <= rows.len(),
        picked(rows, n, ask).contains(name),
    ensures
        exists|i: int| 0 <= i < n && asked(#[trigger] rows[i], ask) && rows[i].name == name,
    decreases n,
{
    let all = picked(rows, n, ask);
    let j = choose|j: int| 0 <= j < all.len() && all[j] == name;
    if n > 0 {
        let before = picked(rows, (n - 1) as nat, ask);
        if asked(rows[n - 1], ask) && j == all.len() - 1 {
            assert(rows[n - 1].name == name);
        } else {
            assert(before[j] == name);
            lemma_picked_are_asked(rows, (n - 1) as nat, ask, name);
        }
    }
}

/// The one name that is off by default is in the catalog.
proof fn lemma_off_is_registered()
    ensures
        entry_named("fn_value.some"@) is Some,
        names_asked(Ask::All).contains("fn_value.some"@),
{
    lemma_off_by_default();
    let i = choose|i: int| 0 <= i < catalog().len() && (#[trigger] catalog()[i]).name == "fn_value.some"@;
    lemma_found("fn_value.some"@, i, 0);
    lemma_picked_some(catalog(), catalog().len(), Ask::All, i);
}

/// Every name is on by default but one.
proof fn lemma_on_by_default(name: Seq<char>)
    ensures
        names_asked(Ask::All).contains(name) <==> names_asked(Ask::Default).contains(name) || name == "fn_value.some"@,
        !names_asked(Ask::Default).contains("fn_value.some"@),
{
    let rows = catalog();
    lemma_off_is_registered();
    if names_asked(Ask::All).contains(name) && name != "fn_value.some"@ {
        lemma_picked_are_asked(rows, rows.len(), Ask::All, name);
        let i = choose|i: int| 0 <= i < rows.len() && asked(#[trigger] rows[i], Ask::All) && rows[i].name == name;
        lemma_entry(i);
        lemma_picked_some(rows, rows.len(), Ask::Default, i);
    }
    if names_asked(Ask::Default).contains(name) {
        lemma_picked_are_asked(rows, rows.len(), Ask::Default, name);
        let i = choose|i: int| 0 <= i < rows.len() && asked(#[trigger] rows[i], Ask::Default) && rows[i].name == name;
        lemma_picked_some(rows, rows.len(), Ask::All, i);
    }
    if names_asked(Ask::Default).contains("fn_value.some"@) {
        let off = "fn_value.some"@;
        lemma_picked_are_asked(rows, rows.len(), Ask::Default, off);
        let i = choose|i: int| 0 <= i < rows.len() && asked(#[trigger] rows[i], Ask::Default) && rows[i].name == off;
        lemma_entry(i);
    }
}

/// What the two presets that part the registry expand to.
proof fn lemma_two_presets()
    ensures
        resolved("@default"@) == Ok::<Seq<Seq<char>>, Seq<char>>(names_asked(Ask::Default)),
        resolved("@pedantic"@) == Ok::<Seq<Seq<char>>, Seq<char>>(seq!["fn_value.some"@]),
{
    reveal(preset_groups);
    reveal_with_fuel(preset_from, 4);
    reveal_with_fuel(members_names, 2);
    reveal_strlit("all");
    reveal_strlit("*");
    reveal_strlit("default");
    reveal_strlit("pedantic");
    reveal_strlit("@default");
    reveal_strlit("@pedantic");
    reveal_strlit("fn_value.some");
    let rows = preset_groups();
    assert(rows[0].name == "all"@ && "all"@.len() == 3);
    assert(rows[1].name == "default"@ && "default"@.len() == 7);
    assert(rows[2].name == "pedantic"@ && "pedantic"@.len() == 8);
    assert("@default"@.drop_first() =~= "default"@);
    assert("@pedantic"@.drop_first() =~= "pedantic"@);
    assert(preset_from(rows, "default"@, 0) == 1);
    assert(preset_from(rows, "pedantic"@, 0) == 2);
    assert(rows[1].members =~= seq!["@default"@]);
    assert(rows[2].members =~= seq!["fn_value.some"@]);
    assert("@default"@.len() == 8 && "@pedantic"@.len() == 9 && "*"@.len() == 1 && "fn_value.some"@.len() == 13);
    lemma_off_is_registered();
    assert(member_names("@default"@) == Some(names_asked(Ask::Default)));
    assert(member_names("fn_value.some"@) == Some(seq!["fn_value.some"@]));
    assert(Seq::<Seq<char>>::empty() + names_asked(Ask::Default) =~= names_asked(Ask::Default));
    assert(Seq::<Seq<char>>::empty() + seq!["fn_value.some"@] =~= seq!["fn_value.some"@]);
    assert(members_names(rows[1].members, 1) == Ok::<Seq<Seq<char>>, Seq<char>>(names_asked(Ask::Default)));
    assert(members_names(rows[2].members, 1) == Ok::<Seq<Seq<char>>, Seq<char>>(seq!["fn_value.some"@]));
}

/// A text that begins and ends with something else is not surrounded by white space.
proof fn lemma_untrimmed(text: Seq<char>)
    requires
        text.len() > 0,
        !is_white(text[0]),
        !is_white(text.last()),
    ensures
        trim(text) == text,
{
}

/// What a list of one selector without white space or commas does.
proof fn lemma_one_selector(names: Set<Seq<char>>, selector: Seq<char>, found: Seq<Seq<char>>)
    requires
        selector.len() > 0,
        forall|i: int| 0 <= i < selector.len() ==> #[trigger] selector[i] != ',',
        !is_white(selector[0]),
        !is_white(selector.last()),
        selector[0] != '!',
        resolved(selector) == Ok::<Seq<Seq<char>>, Seq<char>>(found),
    ensures
        pieces_from(selector, ',', 0) == seq![selector],
        applied_one(names, selector) == Ok::<Set<Seq<char>>, Seq<char>>(names.union(found.to_set())),
        applied_list(names, selector) == (names.union(found.to_set()), None::<Seq<char>>),
{
    lemma_index_from(selector, ',', 0);
    assert(selector.subrange(0, selector.len() as int) =~= selector);
    lemma_untrimmed(selector);
    reveal_with_fuel(applied, 2);
}

/// The default and the pedantic preset partition everything: every name is in exactly one of them, the
/// pedantic one holds a single name, and selecting both selects everything.
pub proof fn law_two_presets_partition_everything()
    ensures
        applied_list(Set::empty(), "@default"@) == (names_asked(Ask::Default).to_set(), None::<Seq<char>>),
        applied_list(Set::empty(), "@pedantic"@) == (set!["fn_value.some"@], None::<Seq<char>>),
        applied_list(Set::empty(), "@default,@pedantic"@) == (names_asked(Ask::All).to_set(), None::<Seq<char>>),
        forall|names: Seq<Seq<char>>| #[trigger] ascending(names) && names.to_set() == set!["fn_value.some"@] ==> names == seq![
            "fn_value.some"@,
        ],
        forall|name: Seq<char>| #[trigger]
            names_asked(Ask::All).to_set().contains(name) <==> names_asked(Ask::Default).to_set().contains(name) || set![
                "fn_value.some"@,
            ].contains(name),
        !names_asked(Ask::Default).to_set().contains("fn_value.some"@),
{
    let on = names_asked(Ask::Default);
    let off = seq!["fn_value.some"@];
    let list = "@default,@pedantic"@;
    lemma_two_presets();
    reveal_strlit("@default");
    reveal_strlit("@pedantic");
    reveal_strlit("@default,@pedantic");
    assert("@default"@[0] == '@' && "@default"@.last() == 't');
    assert("@pedantic"@[0] == '@' && "@pedantic"@.last() == 'c');
    lemma_one_selector(Set::empty(), "@default"@, on);
    lemma_one_selector(Set::empty(), "@pedantic"@, off);
    lemma_one_selector(on.to_set(), "@pedantic"@, off);
    assert(Set::<Seq<char>>::empty().union(on.to_set()) =~= on.to_set());
    assert(off.to_set() =~= set!["fn_value.some"@]) by {
        assert(off[0] == "fn_value.some"@);
    }
    assert(Set::<Seq<char>>::empty().union(off.to_set()) =~= off.to_set());
    assert(list.subrange(0, 8) =~= "@default"@);
    assert(list.subrange(9, 18) =~= "@pedantic"@);
    lemma_found_at(list, ',', 0, 8);
    assert(pieces_from(list, ',', 9) =~= seq!["@pedantic"@]) by {
        lemma_index_from(list, ',', 9);
    }
    assert(pieces_from(list, ',', 0) =~= seq!["@default"@, "@pedantic"@]);
    reveal_with_fuel(applied, 3);
    assert forall|name: Seq<char>| #[trigger]
        names_asked(Ask::All).to_set().contains(name) <==> on.to_set().contains(name) || off.to_set().contains(name) by {
        lemma_on_by_default(name);
    }
    assert(on.to_set().union(off.to_set()) =~= names_asked(Ask::All).to_set());
    lemma_on_by_default("fn_value.some"@);
    assert forall|names: Seq<Seq<char>>| #[trigger] ascending(names) && names.to_set() == set!["fn_value.some"@] implies names == off by {
        let sole = "fn_value.some"@;
        assert forall|i: int| 0 <= i < names.len() implies names[i] == sole by {
            assert(names.to_set().contains(names[i]));
        }
        assert(names.to_set().contains(sole));
        lemma_sorts_one_way(sole, sole);
        if names.len() > 1 {
            assert(sorts_before(names[0], names[1]));
        }
        assert(names =~= off);
    }
}

/// A preset is found by its name.
proof fn lemma_preset_at(name: Seq<char>, at: int, from: int)
    requires
        0 <= from <= at < preset_groups().len(),
        preset_groups()[at].name == name,
        forall|i: int| from <= i < at ==> (#[trigger] preset_groups()[i]).name != name,
    ensures
        preset_from(preset_groups(), name, from) == at,
    decreases at - from,
{
    if from < at {
        assert(preset_groups()[from].name != name);
        lemma_preset_at(name, at, from + 1);
    }
}

/// Where the presets stand in their table.
proof fn lemma_preset_names()
    ensures
        preset_groups().len() == 12,
        preset_groups()[0].name == "all"@,
        preset_groups()[1].name == "default"@,
        preset_groups()[2].name == "pedantic"@,
        preset_groups()[3].name == "boundary"@,
        preset_groups()[4].name == "arithmetic"@,
        preset_groups()[5].name == "logical"@,
        preset_groups()[6].name == "control"@,
        preset_groups()[7].name == "removal"@,
        preset_groups()[8].name == "semantics"@,
        preset_groups()[9].name == "literals"@,
        preset_groups()[10].name == "numeric"@,
        preset_groups()[11].name == "extreme"@,
        forall|i: int, j: int| 0 <= i < j < 12 ==> (#[trigger] preset_groups()[i]).name != (#[trigger] preset_groups()[j]).name,
{
    reveal(preset_groups);
    let rows = preset_groups();
    reveal_strlit("all");
    assert("all"@.len() == 3 && "all"@[0] == 'a' && "all"@[1] == 'l' && "all"@[2] == 'l');
    reveal_strlit("default");
    assert("default"@.len() == 7 && "default"@[0] == 'd' && "default"@[1] == 'e' && "default"@[2] == 'f' && "default"@[3] == 'a' && "default"@[4] == 'u' && "default"@[5] == 'l' && "default"@[6] == 't');
    reveal_strlit("pedantic");
    assert("pedantic"@.len() == 8 && "pedantic"@[0] == 'p' && "pedantic"@[1] == 'e' && "pedantic"@[2] == 'd' && "pedantic"@[3] == 'a' && "pedantic"@[4] == 'n' && "pedantic"@[5] == 't' && "pedantic"@[6] == 'i' && "pedantic"@[7] == 'c');
    reveal_strlit("boundary");
    assert("boundary"@.len() == 8 && "boundary"@[0] == 'b' && "boundary"@[1] == 'o' && "boundary"@[2] == 'u' && "boundary"@[3] == 'n' && "boundary"@[4] == 'd' && "boundary"@[5] == 'a' && "boundary"@[6] == 'r' && "boundary"@[7] == 'y');
    reveal_strlit("arithmetic");
    assert("arithmetic"@.len() == 10 && "arithmetic"@[0] == 'a' && "arithmetic"@[1] == 'r' && "arithmetic"@[2] == 'i' && "arithmetic"@[3] == 't' && "arithmetic"@[4] == 'h' && "arithmetic"@[5] == 'm' && "arithmetic"@[6] == 'e' && "arithmetic"@[7] == 't' && "arithmetic"@[8] == 'i' && "arithmetic"@[9] == 'c');
    reveal_strlit("logical");
    assert("logical"@.len() == 7 && "logical"@[0] == 'l' && "logical"@[1] == 'o' && "logical"@[2] == 'g' && "logical"@[3] == 'i' && "logical"@[4] == 'c' && "logical"@[5] == 'a' && "logical"@[6] == 'l');
    reveal_strlit("control");
    assert("control"@.len() == 7 && "control"@[0] == 'c' && "control"@[1] == 'o' && "control"@[2] == 'n' && "control"@[3] == 't' && "control"@[4] == 'r' && "control"@[5] == 'o' && "control"@[6] == 'l');
    reveal_strlit("removal");
    assert("removal"@.len() == 7 && "removal"@[0] == 'r' && "removal"@[1] == 'e' && "removal"@[2] == 'm' && "removal"@[3] == 'o' && "removal"@[4] == 'v' && "removal"@[5] == 'a' && "removal"@[6] == 'l');
    reveal_strlit("semantics");
    assert("semantics"@.len() == 9 && "semantics"@[0] == 's' && "semantics"@[1] == 'e' && "semantics"@[2] == 'm' && "semantics"@[3] == 'a' && "semantics"@[4] == 'n' && "semantics"@[5] == 't' && "semantics"@[6] == 'i' && "semantics"@[7] == 'c' && "semantics"@[8] == 's');
    reveal_strlit("literals");
    assert("literals"@.len() == 8 && "literals"@[0] == 'l' && "literals"@[1] == 'i' && "literals"@[2] == 't' && "literals"@[3] == 'e' && "literals"@[4] == 'r' && "literals"@[5] == 'a' && "literals"@[6] == 'l' && "literals"@[7] == 's');
    reveal_strlit("numeric");
    assert("numeric"@.len() == 7 && "numeric"@[0] == 'n' && "numeric"@[1] == 'u' && "numeric"@[2] == 'm' && "numeric"@[3] == 'e' && "numeric"@[4] == 'r' && "numeric"@[5] == 'i' && "numeric"@[6] == 'c');
    reveal_strlit("extreme");
    assert("extreme"@.len() == 7 && "extreme"@[0] == 'e' && "extreme"@[1] == 'x' && "extreme"@[2] == 't' && "extreme"@[3] == 'r' && "extreme"@[4] == 'e' && "extreme"@[5] == 'm' && "extreme"@[6] == 'e');
    assert(rows[0].name == "all"@);
    assert(rows[1].name == "default"@);
    assert(rows[2].name == "pedantic"@);
    assert(rows[3].name == "boundary"@);
    assert(rows[4].name == "arithmetic"@);
    assert(rows[5].name == "logical"@);
    assert(rows[6].name == "control"@);
    assert(rows[7].name == "removal"@);
    assert(rows[8].name == "semantics"@);
    assert(rows[9].name == "literals"@);
    assert(rows[10].name == "numeric"@);
    assert(rows[11].name == "extreme"@);
}

/// What a preset of families expands to.
proof fn lemma_preset_of_families(at: int, name: Seq<char>, selector: Seq<char>, families: Seq<Seq<char>>)
    requires
        0 <= at < preset_groups().len(),
        preset_groups()[at].name == name,
        preset_groups()[at].members == families,
        selector.len() > 0,
        selector[0] == '@',
        selector.drop_first() == name,
        selector != "all"@,
        forall|i: int| 0 <= i < families.len() ==> family_names().contains(#[trigger] families[i]),
    ensures
        resolved(selector) == joined(families),
        resolved(selector) is Ok,
{
    lemma_preset_names();
    assert forall|i: int| 0 <= i < at implies (#[trigger] preset_groups()[i]).name != name by {
        assert(preset_groups()[i].name != preset_groups()[at].name);
    }
    lemma_preset_at(name, at, 0);
    lemma_members(families, families.len());
    assert(families.take(families.len() as int) =~= families);
}

proof fn lemma_members(families: Seq<Seq<char>>, n: nat)
    requires
        n <= families.len(),
        forall|i: int| 0 <= i < families.len() ==> family_names().contains(#[trigger] families[i]),
    ensures
        members_names(families, n) == joined(families.take(n as int)),
        members_names(families, n) is Ok,
    decreases n,
{
    let some = families.take(n as int);
    if n > 0 {
        lemma_members(families, (n - 1) as nat);
        assert(some.drop_last() =~= families.take(n - 1));
        let family = families[n - 1];
        assert(family_names().contains(family));
        let k = choose|k: int| 0 <= k < family_names().len() && family_names()[k] == family;
        lemma_family_resolves(k);
        lemma_family_names();
        assert(family != "all"@ && family[0] != '@');
        reveal_strlit("*");
        reveal_strlit("@default");
        assert("*"@[0] == '*' && "@default"@[0] == '@');
        lemma_no_star(k);
        assert(member_names(family) == plain_names(family));
    }
}

/// No family is named like the member that stands for everything.
proof fn lemma_no_star(k: int)
    requires
        0 <= k < family_names().len(),
    ensures
        family_names()[k] != "*"@,
{
    reveal_strlit("*");
    assert("*"@.len() == 1);
    lemma_stretches();
    lemma_bounds_within((k + 1) as nat);
    lemma_family_lengths(k);
}

proof fn lemma_family_lengths(k: int)
    requires
        0 <= k < family_names().len(),
    ensures
        family_names()[k].len() > 1,
{
    reveal_strlit("fn_value");
    reveal_strlit("relational");
    reveal_strlit("arith");
    reveal_strlit("bitwise");
    reveal_strlit("shift");
    reveal_strlit("assign");
    reveal_strlit("logical");
    reveal_strlit("cond");
    reveal_strlit("match_guard");
    reveal_strlit("match_arm");
    reveal_strlit("struct_field");
    reveal_strlit("range");
    reveal_strlit("loop");
    reveal_strlit("unary");
    reveal_strlit("literal");
    reveal_strlit("stmt");
    reveal_strlit("expr");
    reveal_strlit("option");
    reveal_strlit("result");
    reveal_strlit("iter");
    reveal_strlit("string");
    reveal_strlit("collection");
    reveal_strlit("assign_value");
    let all = family_names();
    assert(all[0].len() == 8);
    assert(all[1].len() == 10);
    assert(all[2].len() == 5);
    assert(all[3].len() == 7);
    assert(all[4].len() == 5);
    assert(all[5].len() == 6);
    assert(all[6].len() == 7);
    assert(all[7].len() == 4);
    assert(all[8].len() == 11);
    assert(all[9].len() == 9);
    assert(all[10].len() == 12);
    assert(all[11].len() == 5);
    assert(all[12].len() == 4);
    assert(all[13].len() == 5);
    assert(all[14].len() == 7);
    assert(all[15].len() == 4);
    assert(all[16].len() == 4);
    assert(all[17].len() == 6);
    assert(all[18].len() == 6);
    assert(all[19].len() == 4);
    assert(all[20].len() == 6);
    assert(all[21].len() == 10);
    assert(all[22].len() == 12);
}

/// Each named preset is what the families that it is made of are together, in their order.
pub proof fn law_presets_are_made_of_families()
    ensures
        resolved("@all"@) == resolved("all"@),
        resolved("@extreme"@) == resolved("all"@),
        resolved("@boundary"@) == joined(seq!["relational"@, "range"@]),
        resolved("@boundary"@) is Ok,
        resolved("@arithmetic"@) == joined(seq!["arith"@, "bitwise"@, "shift"@, "assign"@]),
        resolved("@arithmetic"@) is Ok,
        resolved("@logical"@) == joined(seq!["logical"@, "cond"@, "match_guard"@]),
        resolved("@logical"@) is Ok,
        resolved("@control"@) == joined(seq!["cond"@, "match_guard"@, "match_arm"@, "loop"@]),
        resolved("@control"@) is Ok,
        resolved("@removal"@) == joined(seq!["stmt"@, "unary"@, "match_arm"@, "struct_field"@, "collection"@]),
        resolved("@removal"@) is Ok,
        resolved("@semantics"@) == joined(seq!["option"@, "result"@, "iter"@, "string"@, "collection"@, "assign_value"@]),
        resolved("@semantics"@) is Ok,
        resolved("@literals"@) == joined(seq!["literal"@]),
        resolved("@literals"@) is Ok,
        resolved("@numeric"@) == joined(seq!["literal"@, "expr"@]),
        resolved("@numeric"@) is Ok,
{
    lemma_preset_names();
    lemma_preset_rows();
    lemma_family_members();
    reveal_strlit("all");
    assert("all"@.len() == 3 && "all"@[0] == 'a' && "all"@[1] == 'l' && "all"@[2] == 'l');
    reveal_strlit("default");
    assert("default"@.len() == 7 && "default"@[0] == 'd' && "default"@[1] == 'e' && "default"@[2] == 'f' && "default"@[3] == 'a' && "default"@[4] == 'u' && "default"@[5] == 'l' && "default"@[6] == 't');
    reveal_strlit("pedantic");
    assert("pedantic"@.len() == 8 && "pedantic"@[0] == 'p' && "pedantic"@[1] == 'e' && "pedantic"@[2] == 'd' && "pedantic"@[3] == 'a' && "pedantic"@[4] == 'n' && "pedantic"@[5] == 't' && "pedantic"@[6] == 'i' && "pedantic"@[7] == 'c');
    reveal_strlit("boundary");
    assert("boundary"@.len() == 8 && "boundary"@[0] == 'b' && "boundary"@[1] == 'o' && "boundary"@[2] == 'u' && "boundary"@[3] == 'n' && "boundary"@[4] == 'd' && "boundary"@[5] == 'a' && "boundary"@[6] == 'r' && "boundary"@[7] == 'y');
    reveal_strlit("arithmetic");
    assert("arithmetic"@.len() == 10 && "arithmetic"@[0] == 'a' && "arithmetic"@[1] == 'r' && "arithmetic"@[2] == 'i' && "arithmetic"@[3] == 't' && "arithmetic"@[4] == 'h' && "arithmetic"@[5] == 'm' && "arithmetic"@[6] == 'e' && "arithmetic"@[7] == 't' && "arithmetic"@[8] == 'i' && "arithmetic"@[9] == 'c');
    reveal_strlit("logical");
    assert("logical"@.len() == 7 && "logical"@[0] == 'l' && "logical"@[1] == 'o' && "logical"@[2] == 'g' && "logical"@[3] == 'i' && "logical"@[4] == 'c' && "logical"@[5] == 'a' && "logical"@[6] == 'l');
    reveal_strlit("control");
    assert("control"@.len() == 7 && "control"@[0] == 'c' && "control"@[1] == 'o' && "control"@[2] == 'n' && "control"@[3] == 't' && "control"@[4] == 'r' && "control"@[5] == 'o' && "control"@[6] == 'l');
    reveal_strlit("removal");
    assert("removal"@.len() == 7 && "removal"@[0] == 'r' && "removal"@[1] == 'e' && "removal"@[2] == 'm' && "removal"@[3] == 'o' && "removal"@[4] == 'v' && "removal"@[5] == 'a' && "removal"@[6] == 'l');
    reveal_strlit("semantics");
    assert("semantics"@.len() == 9 && "semantics"@[0] == 's' && "semantics"@[1] == 'e' && "semantics"@[2] == 'm' && "semantics"@[3] == 'a' && "semantics"@[4] == 'n' && "semantics"@[5] == 't' && "semantics"@[6] == 'i' && "semantics"@[7] == 'c' && "semantics"@[8] == 's');
    reveal_strlit("literals");
    assert("literals"@.len() == 8 && "literals"@[0] == 'l' && "literals"@[1] == 'i' && "literals"@[2] == 't' && "literals"@[3] == 'e' && "literals"@[4] == 'r' && "literals"@[5] == 'a' && "literals"@[6] == 'l' && "literals"@[7] == 's');
    reveal_strlit("numeric");
    assert("numeric"@.len() == 7 && "numeric"@[0] == 'n' && "numeric"@[1] == 'u' && "numeric"@[2] == 'm' && "numeric"@[3] == 'e' && "numeric"@[4] == 'r' && "numeric"@[5] == 'i' && "numeric"@[6] == 'c');
    reveal_strlit("extreme");
    assert("extreme"@.len() == 7 && "extreme"@[0] == 'e' && "extreme"@[1] == 'x' && "extreme"@[2] == 't' && "extreme"@[3] == 'r' && "extreme"@[4] == 'e' && "extreme"@[5] == 'm' && "extreme"@[6] == 'e');
    reveal_strlit("@all");
    assert("@all"@.len() == 4 && "@all"@[0] == '@' && "@all"@[1] == 'a' && "@all"@[2] == 'l' && "@all"@[3] == 'l');
    reveal_strlit("@default");
    assert("@default"@.len() == 8 && "@default"@[0] == '@' && "@default"@[1] == 'd' && "@default"@[2] == 'e' && "@default"@[3] == 'f' && "@default"@[4] == 'a' && "@default"@[5] == 'u' && "@default"@[6] == 'l' && "@default"@[7] == 't');
    reveal_strlit("@pedantic");
    assert("@pedantic"@.len() == 9 && "@pedantic"@[0] == '@' && "@pedantic"@[1] == 'p' && "@pedantic"@[2] == 'e' && "@pedantic"@[3] == 'd' && "@pedantic"@[4] == 'a' && "@pedantic"@[5] == 'n' && "@pedantic"@[6] == 't' && "@pedantic"@[7] == 'i' && "@pedantic"@[8] == 'c');
    reveal_strlit("@boundary");
    assert("@boundary"@.len() == 9 && "@boundary"@[0] == '@' && "@boundary"@[1] == 'b' && "@boundary"@[2] == 'o' && "@boundary"@[3] == 'u' && "@boundary"@[4] == 'n' && "@boundary"@[5] == 'd' && "@boundary"@[6] == 'a' && "@boundary"@[7] == 'r' && "@boundary"@[8] == 'y');
    reveal_strlit("@arithmetic");
    assert("@arithmetic"@.len() == 11 && "@arithmetic"@[0] == '@' && "@arithmetic"@[1] == 'a' && "@arithmetic"@[2] == 'r' && "@arithmetic"@[3] == 'i' && "@arithmetic"@[4] == 't' && "@arithmetic"@[5] == 'h' && "@arithmetic"@[6] == 'm' && "@arithmetic"@[7] == 'e' && "@arithmetic"@[8] == 't' && "@arithmetic"@[9] == 'i' && "@arithmetic"@[10] == 'c');
    reveal_strlit("@logical");
    assert("@logical"@.len() == 8 && "@logical"@[0] == '@' && "@logical"@[1] == 'l' && "@logical"@[2] == 'o' && "@logical"@[3] == 'g' && "@logical"@[4] == 'i' && "@logical"@[5] == 'c' && "@logical"@[6] == 'a' && "@logical"@[7] == 'l');
    reveal_strlit("@control");
    assert("@control"@.len() == 8 && "@control"@[0] == '@' && "@control"@[1] == 'c' && "@control"@[2] == 'o' && "@control"@[3] == 'n' && "@control"@[4] == 't' && "@control"@[5] == 'r' && "@control"@[6] == 'o' && "@control"@[7] == 'l');
    reveal_strlit("@removal");
    assert("@removal"@.len() == 8 && "@removal"@[0] == '@' && "@removal"@[1] == 'r' && "@removal"@[2] == 'e' && "@removal"@[3] == 'm' && "@removal"@[4] == 'o' && "@removal"@[5] == 'v' && "@removal"@[6] == 'a' && "@removal"@[7] == 'l');
    reveal_strlit("@semantics");
    assert("@semantics"@.len() == 10 && "@semantics"@[0] == '@' && "@semantics"@[1] == 's' && "@semantics"@[2] == 'e' && "@semantics"@[3] == 'm' && "@semantics"@[4] == 'a' && "@semantics"@[5] == 'n' && "@semantics"@[6] == 't' && "@semantics"@[7] == 'i' && "@semantics"@[8] == 'c' && "@semantics"@[9] == 's');
    reveal_strlit("@literals");
    assert("@literals"@.len() == 9 && "@literals"@[0] == '@' && "@literals"@[1] == 'l' && "@literals"@[2] == 'i' && "@literals"@[3] == 't' && "@literals"@[4] == 'e' && "@literals"@[5] == 'r' && "@literals"@[6] == 'a' && "@literals"@[7] == 'l' && "@literals"@[8] == 's');
    reveal_strlit("@numeric");
    assert("@numeric"@.len() == 8 && "@numeric"@[0] == '@' && "@numeric"@[1] == 'n' && "@numeric"@[2] == 'u' && "@numeric"@[3] == 'm' && "@numeric"@[4] == 'e' && "@numeric"@[5] == 'r' && "@numeric"@[6] == 'i' && "@numeric"@[7] == 'c');
    reveal_strlit("@extreme");
    assert("@extreme"@.len() == 8 && "@extreme"@[0] == '@' && "@extreme"@[1] == 'e' && "@extreme"@[2] == 'x' && "@extreme"@[3] == 't' && "@extreme"@[4] == 'r' && "@extreme"@[5] == 'e' && "@extreme"@[6] == 'm' && "@extreme"@[7] == 'e');
    let boundary_families = seq!["relational"@, "range"@];
    assert("@boundary"@.drop_first() =~= "boundary"@);
    assert forall|i: int| 0 <= i < boundary_families.len() implies family_names().contains(#[trigger] boundary_families[i]) by {
        assert(i == 0 || i == 1);
    }
    lemma_preset_of_families(3, "boundary"@, "@boundary"@, boundary_families);
    let arithmetic_families = seq!["arith"@, "bitwise"@, "shift"@, "assign"@];
    assert("@arithmetic"@.drop_first() =~= "arithmetic"@);
    assert forall|i: int| 0 <= i < arithmetic_families.len() implies family_names().contains(#[trigger] arithmetic_families[i]) by {
        assert(i == 0 || i == 1 || i == 2 || i == 3);
    }
    lemma_preset_of_families(4, "arithmetic"@, "@arithmetic"@, arithmetic_families);
    let logical_families = seq!["logical"@, "cond"@, "match_guard"@];
    assert("@logical"@.drop_first() =~= "logical"@);
    assert forall|i: int| 0 <= i < logical_families.len() implies family_names().contains(#[trigger] logical_families[i]) by {
        assert(i == 0 || i == 1 || i == 2);
    }
    lemma_preset_of_families(5, "logical"@, "@logical"@, logical_families);
    let control_families = seq!["cond"@, "match_guard"@, "match_arm"@, "loop"@];
    assert("@control"@.drop_first() =~= "control"@);
    assert forall|i: int| 0 <= i < control_families.len() implies family_names().contains(#[trigger] control_families[i]) by {
        assert(i == 0 || i == 1 || i == 2 || i == 3);
    }
    lemma_preset_of_families(6, "control"@, "@control"@, control_families);
    let removal_families = seq!["stmt"@, "unary"@, "match_arm"@, "struct_field"@, "collection"@];
    assert("@removal"@.drop_first() =~= "removal"@);
    assert forall|i: int| 0 <= i < removal_families.len() implies family_names().contains(#[trigger] removal_families[i]) by {
        assert(i == 0 || i == 1 || i == 2 || i == 3 || i == 4);
    }
    lemma_preset_of_families(7, "removal"@, "@removal"@, removal_families);
    let semantics_families = seq!["option"@, "result"@, "iter"@, "string"@, "collection"@, "assign_value"@];
    assert("@semantics"@.drop_first() =~= "semantics"@);
    assert forall|i: int| 0 <= i < semantics_families.len() implies family_names().contains(#[trigger] semantics_families[i]) by {
        assert(i == 0 || i == 1 || i == 2 || i == 3 || i == 4 || i == 5);
    }
    lemma_preset_of_families(8, "semantics"@, "@semantics"@, semantics_families);
    let literals_families = seq!["literal"@];
    assert("@literals"@.drop_first() =~= "literals"@);
    assert forall|i: int| 0 <= i < literals_families.len() implies family_names().contains(#[trigger] literals_families[i]) by {
        assert(i == 0);
    }
    lemma_preset_of_families(9, "literals"@, "@literals"@, literals_families);
    let numeric_families = seq!["literal"@, "expr"@];
    assert("@numeric"@.drop_first() =~= "numeric"@);
    assert forall|i: int| 0 <= i < numeric_families.len() implies family_names().contains(#[trigger] numeric_families[i]) by {
        assert(i == 0 || i == 1);
    }
    lemma_preset_of_families(10, "numeric"@, "@numeric"@, numeric_families);
    assert("@all"@.drop_first() =~= "all"@);
    lemma_preset_of_everything(0, "all"@, "@all"@);
    assert("@extreme"@.drop_first() =~= "extreme"@);
    lemma_preset_of_everything(11, "extreme"@, "@extreme"@);
}

proof fn lemma_preset_of_everything(at: int, name: Seq<char>, selector: Seq<char>)
    requires
        0 <= at < preset_groups().len(),
        preset_groups()[at].name == name,
        preset_groups()[at].members == seq!["*"@],
        selector.len() > 0,
        selector[0] == '@',
        selector.drop_first() == name,
        selector != "all"@,
    ensures
        resolved(selector) == resolved("all"@),
{
    lemma_preset_names();
    assert forall|i: int| 0 <= i < at implies (#[trigger] preset_groups()[i]).name != name by {
        assert(preset_groups()[i].name != preset_groups()[at].name);
    }
    lemma_preset_at(name, at, 0);
    reveal_with_fuel(members_names, 2);
    let members = seq!["*"@];
    assert(members[0] == "*"@);
    assert(Seq::<Seq<char>>::empty() + names_asked(Ask::All) =~= names_asked(Ask::All));
}

proof fn lemma_preset_rows()
    ensures
        preset_groups()[0].members == seq!["*"@],
        preset_groups()[11].members == seq!["*"@],
        preset_groups()[3].members == seq!["relational"@, "range"@],
        preset_groups()[4].members == seq!["arith"@, "bitwise"@, "shift"@, "assign"@],
        preset_groups()[5].members == seq!["logical"@, "cond"@, "match_guard"@],
        preset_groups()[6].members == seq!["cond"@, "match_guard"@, "match_arm"@, "loop"@],
        preset_groups()[7].members == seq!["stmt"@, "unary"@, "match_arm"@, "struct_field"@, "collection"@],
        preset_groups()[8].members == seq!["option"@, "result"@, "iter"@, "string"@, "collection"@, "assign_value"@],
        preset_groups()[9].members == seq!["literal"@],
        preset_groups()[10].members == seq!["literal"@, "expr"@],
{
    reveal(preset_groups);
}

proof fn lemma_family_members()
    ensures
        family_names().contains("fn_value"@),
        family_names().contains("relational"@),
        family_names().contains("arith"@),
        family_names().contains("bitwise"@),
        family_names().contains("shift"@),
        family_names().contains("assign"@),
        family_names().contains("logical"@),
        family_names().contains("cond"@),
        family_names().contains("match_guard"@),
        family_names().contains("match_arm"@),
        family_names().contains("struct_field"@),
        family_names().contains("range"@),
        family_names().contains("loop"@),
        family_names().contains("unary"@),
        family_names().contains("literal"@),
        family_names().contains("stmt"@),
        family_names().contains("expr"@),
        family_names().contains("option"@),
        family_names().contains("result"@),
        family_names().contains("iter"@),
        family_names().contains("string"@),
        family_names().contains("collection"@),
        family_names().contains("assign_value"@),
{
    let all = family_names();
    assert(all[0] == "fn_value"@);
    assert(all[1] == "relational"@);
    assert(all[2] == "arith"@);
    assert(all[3] == "bitwise"@);
    assert(all[4] == "shift"@);
    assert(all[5] == "assign"@);
    assert(all[6] == "logical"@);
    assert(all[7] == "cond"@);
    assert(all[8] == "match_guard"@);
    assert(all[9] == "match_arm"@);
    assert(all[10] == "struct_field"@);
    assert(all[11] == "range"@);
    assert(all[12] == "loop"@);
    assert(all[13] == "unary"@);
    assert(all[14] == "literal"@);
    assert(all[15] == "stmt"@);
    assert(all[16] == "expr"@);
    assert(all[17] == "option"@);
    assert(all[18] == "result"@);
    assert(all[19] == "iter"@);
    assert(all[20] == "string"@);
    assert(all[21] == "collection"@);
    assert(all[22] == "assign_value"@);
}

// ---- Selectors. ----

/// A full name selects itself alone.
pub proof fn law_a_name_selects_itself(i: int)
    requires
        0 <= i < catalog().len(),
    ensures
        resolved(catalog()[i].name) == Ok::<Seq<Seq<char>>, Seq<char>>(seq![catalog()[i].name]),
{
    let name = catalog()[i].name;
    lemma_entry(i);
    lemma_found(name, i, 0);
    lemma_named_from_is_not_before(name, 0);
    reveal_strlit("all");
    let at = index_from(name, '.', 0);
    lemma_index_from(name, '.', 0);
    assert(name[at] == '.');
    if name == "all"@ {
        assert("all"@.len() == 3 && "all"@[0] == 'a' && "all"@[1] == 'l' && "all"@[2] == 'l');
    }
    lemma_stretches();
    lemma_entry_family(i, family_names().len());
    lemma_family_names();
    let k = choose|k: int| 0 <= k < family_names().len() && family_names()[k] == family_of(name);
    assert(family_names()[k][0] != '@' && family_names()[k].len() > 0);
    assert(name[0] == family_of(name)[0]);
}

/// Every entry is of one of the families.
proof fn lemma_entry_family(i: int, n: nat)
    requires
        0 <= i < bounds()[n as int],
        n <= family_names().len(),
    ensures
        exists|k: int| 0 <= k < n && #[trigger] family_names()[k] == family_of(catalog()[i].name),
    decreases n,
{
    lemma_stretches();
    if n > 0 {
        let k = n - 1;
        if i < bounds()[k] {
            lemma_entry_family(i, k as nat);
        } else {
            assert(is_stretch(catalog(), bounds()[k], bounds()[k + 1], family_names()[k]));
            assert(family_names()[k] == family_of(catalog()[i].name));
        }
    }
}

/// A family selects the entries whose names have it in front of their dot, and no others.
pub proof fn law_a_family_selects_its_members(k: int, name: Seq<char>)
    requires
        0 <= k < family_names().len(),
    ensures
        resolved(family_names()[k]) matches Ok(names) && (names.contains(name) <==> family_of(name) == family_names()[k] && exists|i: int|
            0 <= i < catalog().len() && (#[trigger] catalog()[i]).name == name),
{
    let family = family_names()[k];
    let rows = catalog();
    let ask = Ask::Prefix(family + "."@);
    lemma_family_resolves(k);
    lemma_family_is_undotted(k);
    if names_asked(ask).contains(name) {
        lemma_picked_are_asked(rows, rows.len(), ask, name);
        let i = choose|i: int| 0 <= i < rows.len() && asked(#[trigger] rows[i], ask) && rows[i].name == name;
        lemma_entry(i);
        lemma_prefix(name, family);
    }
    if family_of(name) == family && exists|i: int| 0 <= i < rows.len() && (#[trigger] rows[i]).name == name {
        let i = choose|i: int| 0 <= i < rows.len() && (#[trigger] rows[i]).name == name;
        lemma_entry(i);
        lemma_prefix(name, family);
        lemma_picked_some(rows, rows.len(), ask, i);
    }
}

proof fn lemma_family_is_undotted(k: int)
    requires
        0 <= k < family_names().len(),
    ensures
        is_undotted(family_names()[k]),
{
    lemma_stretches();
    let i = bounds()[k] as int;
    lemma_bounds_within((k + 1) as nat);
    assert(bounds()[k] < bounds()[k + 1]);
    assert(is_stretch(catalog(), bounds()[k], bounds()[k + 1], family_names()[k]));
    assert(is_of(catalog()[i].name, family_names()[k]));
    lemma_family_undotted(catalog()[i].name);
}

/// Any other word selects the entries that are also known by it, in any case, and is refused where there
/// are none.
pub proof fn law_an_alias_selects_what_is_known_by_it(word: Seq<char>, name: Seq<char>)
    requires
        is_undotted(word),
        word != "all"@,
        word.len() > 0,
        word[0] != '@',
        !family_names().contains(word),
    ensures
        resolved(word) is Ok <==> exists|i: int| 0 <= i < catalog().len() && is_known_as(#[trigger] catalog()[i], word),
        resolved(word) is Err ==> resolved(word) == Err::<Seq<Seq<char>>, Seq<char>>(word),
        resolved(word) matches Ok(names) ==> (names.contains(name) <==> exists|i: int|
            0 <= i < catalog().len() && is_known_as(#[trigger] catalog()[i], word) && catalog()[i].name == name),
{
    let rows = catalog();
    let ask = Ask::Alias(word);
    lemma_family_is_no_entry(word);
    lemma_stretches();
    assert forall|i: int| 0 <= i < rows.len() implies is_of((#[trigger] rows[i]).name, family_of(rows[i].name)) && family_of(rows[i].name)
        != word by {
        lemma_entry(i);
        lemma_entry_family(i, family_names().len());
        let k = choose|k: int| 0 <= k < family_names().len() && #[trigger] family_names()[k] == family_of(rows[i].name);
        assert(family_names().contains(family_of(rows[i].name)));
    }
    lemma_picked_none(rows, rows.len(), word);
    assert forall|i: int| 0 <= i < rows.len() implies (#[trigger] asked(rows[i], ask) <==> is_known_as(rows[i], word)) by {}
    if exists|i: int| 0 <= i < rows.len() && is_known_as(#[trigger] rows[i], word) {
        let i = choose|i: int| 0 <= i < rows.len() && is_known_as(#[trigger] rows[i], word);
        assert(asked(rows[i], ask));
        lemma_picked_some(rows, rows.len(), ask, i);
    }
    if names_asked(ask).len() > 0 {
        let first = names_asked(ask)[0];
        assert(names_asked(ask).contains(first));
        lemma_picked_are_asked(rows, rows.len(), ask, first);
        let i = choose|i: int| 0 <= i < rows.len() && asked(#[trigger] rows[i], ask) && rows[i].name == first;
        assert(is_known_as(rows[i], word));
    }
    if names_asked(ask).contains(name) {
        lemma_picked_are_asked(rows, rows.len(), ask, name);
        let i = choose|i: int| 0 <= i < rows.len() && asked(#[trigger] rows[i], ask) && rows[i].name == name;
        assert(is_known_as(rows[i], word));
    }
    if exists|i: int| 0 <= i < rows.len() && is_known_as(#[trigger] rows[i], word) && rows[i].name == name {
        let i = choose|i: int| 0 <= i < rows.len() && is_known_as(#[trigger] rows[i], word) && rows[i].name == name;
        assert(asked(rows[i], ask));
        lemma_picked_some(rows, rows.len(), ask, i);
    }
}

/// Whether an entry is also known by a name, in any case.
pub open spec fn is_known_as(entry: Entry, word: Seq<char>) -> bool {
    exists|i: int| 0 <= i < entry.aliases.len() && same_but_case(#[trigger] entry.aliases[i], word)
}

/// A selector adds what it matches to what was selected, with an exclamation mark in front it takes that
/// away, and nothing but white space changes nothing.
pub proof fn law_a_selector_adds_or_takes_away(names: Set<Seq<char>>, selector: Seq<char>, name: Seq<char>)
    requires
        selector.len() > 0,
        !is_white(selector[0]),
        !is_white(selector.last()),
        selector[0] != '!',
        resolved(selector) is Ok,
    ensures
        applied_one(names, selector) matches Ok(after) && (after.contains(name) <==> names.contains(name) || resolved(selector)->Ok_0.contains(name)),
        applied_one(names, "!"@ + selector) matches Ok(after) && (after.contains(name) <==> names.contains(name) && !resolved(
            selector,
        )->Ok_0.contains(name)),
        applied_one(names, Seq::empty()) == Ok::<Set<Seq<char>>, Seq<char>>(names),
{
    lemma_untrimmed(selector);
    reveal_strlit("!");
    let with = "!"@ + selector;
    assert(with[0] == '!' && with.last() == selector.last());
    assert(!is_white('!'));
    lemma_untrimmed(with);
    assert(with.drop_first() =~= selector);
}

/// What is suggested is the most alike, the first of several that are equally so, and nothing where none is
/// more than seventeen twentieths alike.
pub proof fn law_the_most_alike_is_suggested(scores: Seq<u64>, n: nat)
    requires
        n <= scores.len(),
    ensures
        best_score(scores, n) is None <==> forall|i: int| 0 <= i < n ==> #[trigger] scores[i] <= 0x3feb_3333_3333_3333u64,
        best_score(scores, n) matches Some(at) ==> {
            &&& 0 <= at < n
            &&& scores[at] > 0x3feb_3333_3333_3333u64
            &&& forall|i: int| 0 <= i < n ==> #[trigger] scores[i] <= scores[at]
            &&& forall|i: int| 0 <= i < at ==> #[trigger] scores[i] < scores[at]
        },
    decreases n,
{
    if n > 0 {
        law_the_most_alike_is_suggested(scores, (n - 1) as nat);
    }
}

/// What is said of a selector that matches nothing names it, and what may have been meant.
pub proof fn law_an_unmatched_selector_is_named(selector: Seq<char>, spelling: Seq<char>)
    ensures
        unknown_message(selector, Some(spelling)) == "unknown mutator selector `"@ + selector + "`; did you mean `"@ + spelling + "`?"@,
        unknown_message(selector, None) == "unknown mutator selector `"@ + selector
            + "`; run `cargo gamma list mutators` to see the registry"@,
{
}

/// Every name, family, alias and preset of the registry can be suggested.
pub proof fn law_everything_that_can_be_selected_can_be_suggested(i: int)
    requires
        0 <= i < catalog().len(),
    ensures
        spellings().contains(catalog()[i].name),
        spellings().contains(family_of(catalog()[i].name)),
        forall|j: int| 0 <= j < catalog()[i].aliases.len() ==> spellings().contains(#[trigger] catalog()[i].aliases[j]),
{
    let rows = catalog();
    let one = names_asked(Ask::All);
    let two = families_of(rows, rows.len());
    let three = all_aliases(rows, rows.len());
    let four = preset_spellings(preset_groups(), preset_groups().len());
    lemma_picked_some(rows, rows.len(), Ask::All, i);
    let a = choose|a: int| 0 <= a < one.len() && one[a] == rows[i].name;
    assert(spellings()[a] == rows[i].name);
    lemma_families_hold(rows, rows.len(), i);
    let b = choose|b: int| 0 <= b < two.len() && two[b] == family_of(rows[i].name);
    assert(spellings()[one.len() + b] == family_of(rows[i].name));
    assert forall|j: int| 0 <= j < rows[i].aliases.len() implies spellings().contains(#[trigger] rows[i].aliases[j]) by {
        lemma_aliases_hold(rows, rows.len(), i, j);
        let c = choose|c: int| 0 <= c < three.len() && three[c] == rows[i].aliases[j];
        assert(spellings()[one.len() + two.len() + c] == rows[i].aliases[j]);
    }
}

proof fn lemma_families_hold(rows: Seq<Entry>, n: nat, i: int)
    requires
        0 <= i < n <= rows.len(),
    ensures
        families_of(rows, n).contains(family_of(rows[i].name)),
    decreases n,
{
    let before = families_of(rows, (n - 1) as nat);
    let all = families_of(rows, n);
    if i < n - 1 {
        lemma_families_hold(rows, (n - 1) as nat, i);
        let k = choose|k: int| 0 <= k < before.len() && before[k] == family_of(rows[i].name);
        assert(all[k] == before[k]);
    } else if !before.contains(family_of(rows[i].name)) {
        assert(all[all.len() - 1] == family_of(rows[i].name));
    }
}

proof fn lemma_aliases_hold(rows: Seq<Entry>, n: nat, i: int, j: int)
    requires
        0 <= i < n <= rows.len(),
        0 <= j < rows[i].aliases.len(),
    ensures
        all_aliases(rows, n).contains(rows[i].aliases[j]),
    decreases n,
{
    let before = all_aliases(rows, (n - 1) as nat);
    let all = all_aliases(rows, n);
    if i < n - 1 {
        lemma_aliases_hold(rows, (n - 1) as nat, i, j);
        let k = choose|k: int| 0 <= k < before.len() && before[k] == rows[i].aliases[j];
        assert(all[k] == before[k]);
    } else {
        assert(all[before.len() + j] == rows[i].aliases[j]);
    }
}

} // verus!
