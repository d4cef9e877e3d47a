//! Resolving a name or a selector against the catalog.
use crate::error::{ErrorKind, Fault};
use crate::ops::registry::catalog::{catalog, entries, groups, preset_groups, presets, registry};
use crate::ops::registry::{Entry, Group, Mutator, Preset};
use crate::text;
use crate::text::{begins, same_but_case, strings, texts, until, without_first};
use vstd::prelude::*;

verus! {

// ---- Names. ----

/// The first of the entries from `at` on that has a name, or their number.
pub open spec fn named_from(rows: Seq<Entry>, name: Seq<char>, at: int) -> int
    decreases rows.len() - at,
{
    if 0 <= at < rows.len() && rows[at].name != name {
        named_from(rows, name, at + 1)
    } else {
        at
    }
}

/// The first of the presets from `at` on that has a name, or their number.
pub open spec fn preset_from(rows: Seq<Group>, name: Seq<char>, at: int) -> int
    decreases rows.len() - at,
{
    if 0 <= at < rows.len() && rows[at].name != name {
        preset_from(rows, name, at + 1)
    } else {
        at
    }
}

/// The entry with a name, if there is one.
pub open spec fn entry_named(name: Seq<char>) -> Option<Entry> {
    let at = named_from(catalog(), name, 0);
    if at < catalog().len() {
        Some(catalog()[at])
    } else {
        None
    }
}

/// The preset with a name, if there is one.
pub open spec fn preset_named(name: Seq<char>) -> Option<Group> {
    let at = preset_from(preset_groups(), name, 0);
    if at < preset_groups().len() {
        Some(preset_groups()[at])
    } else {
        None
    }
}

/// Looks up a mutator by its exact registry name.
pub fn find(name: &str) -> (r: Option<Mutator>)
    ensures
        r is Some <==> entry_named(name@) is Some,
        r matches Some(found) ==> entry_named(name@) == Some(found@),
{
    let rows = registry();
    let mut at: usize = 0;
    while at < rows.len()
        invariant
            at <= rows@.len(),
            entries(rows@) == catalog(),
            named_from(catalog(), name@, at as int) == named_from(catalog(), name@, 0),
        decreases rows@.len() - at,
    {
        proof {
            assert(catalog()[at as int] == rows@[at as int]@);
        }
        if text::same(rows[at].name, name) {
            return Some(rows[at]);
        }
        at += 1;
    }
    proof {
        assert(catalog().len() == rows@.len());
    }
    None
}

/// Looks up a mutator preset by name, without the leading `@`.
pub fn find_preset(name: &str) -> (r: Option<Preset>)
    ensures
        r is Some <==> preset_named(name@) is Some,
        r matches Some(found) ==> preset_named(name@) == Some(found@),
{
    let rows = presets();
    let mut at: usize = 0;
    while at < rows.len()
        invariant
            at <= rows@.len(),
            groups(rows@) == preset_groups(),
            preset_from(preset_groups(), name@, at as int) == preset_from(preset_groups(), name@, 0),
        decreases rows@.len() - at,
    {
        proof {
            assert(preset_groups()[at as int] == rows@[at as int]@);
        }
        if text::same(rows[at].name, name) {
            return Some(rows[at]);
        }
        at += 1;
    }
    proof {
        assert(preset_groups().len() == rows@.len());
    }
    None
}

// ---- Families. ----

/// The family of a name: what stands before its first dot.
pub open spec fn family_of(name: Seq<char>) -> Seq<char> {
    until(name, '.')
}

/// The distinct families of the first `n` entries, in order.
pub open spec fn families_of(rows: Seq<Entry>, n: nat) -> Seq<Seq<char>>
    decreases n,
{
    if n == 0 {
        Seq::empty()
    } else {
        let before = families_of(rows, (n - 1) as nat);
        let family = family_of(rows[n - 1].name);
        if before.contains(family) {
            before
        } else {
            before.push(family)
        }
    }
}

/// Whether one of several texts is the given one.
pub fn holds(parts: &Vec<&'static str>, wanted: &str) -> (r: bool)
    ensures
        r == texts(parts@).contains(wanted@),
{
    let mut at: usize = 0;
    while at < parts.len()
        invariant
            at <= parts@.len(),
            forall|i: int| 0 <= i < at ==> texts(parts@)[i] != wanted@,
        decreases parts@.len() - at,
    {
        if text::same(parts[at], wanted) {
            proof {
                assert(texts(parts@)[at as int] == wanted@);
            }
            return true;
        }
        at += 1;
    }
    proof {
        assert(!texts(parts@).contains(wanted@));
    }
    false
}

/// The distinct family prefixes present in the registry, in registry order.
pub fn families() -> (r: Vec<&'static str>)
    ensures
        texts(r@) == families_of(catalog(), catalog().len()),
{
    let rows = registry();
    let mut out: Vec<&'static str> = Vec::new();
    let mut at: usize = 0;
    proof {
        assert(texts(out@) =~= families_of(catalog(), 0));
    }
    while at < rows.len()
        invariant
            at <= rows@.len(),
            entries(rows@) == catalog(),
            texts(out@) == families_of(catalog(), at as nat),
        decreases rows@.len() - at,
    {
        proof {
            assert(catalog()[at as int] == rows@[at as int]@);
        }
        let family: &'static str = text::before_char(rows[at].name, '.');
        if !holds(&out, family) {
            let ghost earlier = texts(out@);
            out.push(family);
            proof {
                assert(texts(out@) =~= earlier.push(family@));
            }
        }
        at += 1;
    }
    proof {
        assert(catalog().len() == rows@.len());
    }
    out
}

// ---- Selectors. ----

/// What a selector that names no preset can ask of an entry.
pub enum Ask {
    /// Every entry.
    All,
    /// The entries that are on by default.
    Default,
    /// The entries whose name begins with a text.
    Prefix(Seq<char>),
    /// The entries that are also known by a name, in any case.
    Alias(Seq<char>),
}

/// Whether an entry is asked for.
pub open spec fn asked(entry: Entry, ask: Ask) -> bool {
    match ask {
        Ask::All => true,
        Ask::Default => entry.default_on,
        Ask::Prefix(prefix) => begins(entry.name, prefix),
        Ask::Alias(name) => exists|i: int|
            0 <= i < entry.aliases.len() && same_but_case(#[trigger] entry.aliases[i], name),
    }
}

/// The names of those of the first `n` entries that are asked for, in order.
pub open spec fn picked(rows: Seq<Entry>, n: nat, ask: Ask) -> Seq<Seq<char>>
    decreases n,
{
    if n == 0 {
        Seq::empty()
    } else if asked(rows[n - 1], ask) {
        picked(rows, (n - 1) as nat, ask).push(rows[n - 1].name)
    } else {
        picked(rows, (n - 1) as nat, ask)
    }
}

/// The names of the entries that are asked for, in order.
pub open spec fn names_asked(ask: Ask) -> Seq<Seq<char>> {
    picked(catalog(), catalog().len(), ask)
}

/// What a selector that names no preset expands to, if it matches anything.
///
/// It is `all`, a full name, a family or sub-family prefix, or an alias in any case.
pub open spec fn plain_names(selector: Seq<char>) -> Option<Seq<Seq<char>>> {
    let family = names_asked(Ask::Prefix(selector + "."@));
    let known_as = names_asked(Ask::Alias(selector));
    if selector == "all"@ {
        Some(names_asked(Ask::All))
    } else if entry_named(selector) is Some {
        Some(seq![selector])
    } else if family.len() > 0 {
        Some(family)
    } else if known_as.len() > 0 {
        Some(known_as)
    } else {
        None
    }
}

/// What a member of a preset expands to, if it matches anything.
pub open spec fn member_names(member: Seq<char>) -> Option<Seq<Seq<char>>> {
    if member == "*"@ {
        Some(names_asked(Ask::All))
    } else if member == "@default"@ {
        Some(names_asked(Ask::Default))
    } else {
        plain_names(member)
    }
}

/// What the first `n` members of a preset expand to, or the first of them that matches nothing.
pub open spec fn members_names(members: Seq<Seq<char>>, n: nat) -> Result<Seq<Seq<char>>, Seq<char>>
    decreases n,
{
    if n == 0 {
        Ok(Seq::empty())
    } else {
        match members_names(members, (n - 1) as nat) {
            Err(member) => Err(member),
            Ok(before) => match member_names(members[n - 1]) {
                Some(names) => Ok(before + names),
                None => Err(members[n - 1]),
            },
        }
    }
}

/// What a selector expands to, or the selector that matches nothing.
pub open spec fn resolved(selector: Seq<char>) -> Result<Seq<Seq<char>>, Seq<char>> {
    if selector == "all"@ {
        Ok(names_asked(Ask::All))
    } else {
        match without_first(selector, '@') {
            Some(name) => match preset_named(name) {
                Some(preset) => members_names(preset.members, preset.members.len()),
                None => Err(selector),
            },
            None => match plain_names(selector) {
                Some(names) => Ok(names),
                None => Err(selector),
            },
        }
    }
}

/// What a selection of entries asks for, as the machine keeps it.
enum Wanted<'a> {
    All,
    Default,
    Prefix(&'a str),
    Alias(&'a str),
}

impl<'a> View for Wanted<'a> {
    type V = Ask;

    closed spec fn view(&self) -> Ask {
        match self {
            Wanted::All => Ask::All,
            Wanted::Default => Ask::Default,
            Wanted::Prefix(prefix) => Ask::Prefix(prefix@),
            Wanted::Alias(name) => Ask::Alias(name@),
        }
    }
}

/// Whether a mutator is also known by a name, in any case.
fn is_known_as(row: &Mutator, name: &str) -> (r: bool)
    ensures
        r == asked(row@, Ask::Alias(name@)),
{
    let mut at: usize = 0;
    while at < row.aliases.len()
        invariant
            at <= row.aliases@.len(),
            row@.aliases.len() == row.aliases@.len(),
            forall|i: int| 0 <= i < at ==> !same_but_case(#[trigger] row@.aliases[i], name@),
        decreases row.aliases@.len() - at,
    {
        proof {
            assert(row@.aliases[at as int] == row.aliases@[at as int]@);
        }
        if text::is_same_but_case(row.aliases[at], name) {
            return true;
        }
        at += 1;
    }
    false
}

/// Whether a mutator is asked for.
fn is_asked(row: &Mutator, wanted: &Wanted<'_>) -> (r: bool)
    ensures
        r == asked(row@, wanted@),
{
    match wanted {
        Wanted::All => true,
        Wanted::Default => row.default_on,
        Wanted::Prefix(prefix) => text::starts_with(row.name, prefix),
        Wanted::Alias(name) => is_known_as(row, name),
    }
}

/// The names of the mutators that are asked for, in order.
fn pick(wanted: &Wanted<'_>) -> (r: Vec<&'static str>)
    ensures
        texts(r@) == names_asked(wanted@),
{
    let rows = registry();
    let mut out: Vec<&'static str> = Vec::new();
    let mut at: usize = 0;
    proof {
        assert(texts(out@) =~= picked(catalog(), 0, wanted@));
    }
    while at < rows.len()
        invariant
            at <= rows@.len(),
            entries(rows@) == catalog(),
            texts(out@) == picked(catalog(), at as nat, wanted@),
        decreases rows@.len() - at,
    {
        proof {
            assert(catalog()[at as int] == rows@[at as int]@);
        }
        if is_asked(&rows[at], wanted) {
            let ghost earlier = texts(out@);
            out.push(rows[at].name);
            proof {
                assert(texts(out@) =~= earlier.push(rows@[at as int].name@));
            }
        }
        at += 1;
    }
    proof {
        assert(catalog().len() == rows@.len());
    }
    out
}

/// The names of every mutator, in registry order.
pub fn all_names() -> (r: Vec<&'static str>)
    ensures
        texts(r@) == names_asked(Ask::All),
{
    pick(&Wanted::All)
}

/// The names of the mutators that are on by default, in registry order.
pub fn default_names() -> (r: Vec<&'static str>)
    ensures
        texts(r@) == names_asked(Ask::Default),
{
    pick(&Wanted::Default)
}

/// Expands a selector that names no preset.
fn resolve_plain(selector: &str) -> (r: Option<Vec<&'static str>>)
    ensures
        r is Some <==> plain_names(selector@) is Some,
        r matches Some(names) ==> plain_names(selector@) == Some(texts(names@)),
{
    if text::same(selector, "all") {
        return Some(all_names());
    }
    if let Some(found) = find(selector) {
        proof {
            lemma_entry_named(selector@);
        }
        let mut one: Vec<&'static str> = Vec::new();
        one.push(found.name);
        proof {
            assert(texts(one@) =~= seq![selector@]);
        }
        return Some(one);
    }
    let prefix = text::joined(selector, ".");
    let family = pick(&Wanted::Prefix(prefix.as_str()));
    proof {
        assert(texts(family@).len() == family@.len());
    }
    if family.len() > 0 {
        return Some(family);
    }
    let known_as = pick(&Wanted::Alias(selector));
    proof {
        assert(texts(known_as@).len() == known_as@.len());
    }
    if known_as.len() > 0 {
        Some(known_as)
    } else {
        None
    }
}

/// The entry with a name has that name.
pub proof fn lemma_entry_named(name: Seq<char>)
    ensures
        entry_named(name) matches Some(entry) ==> entry.name == name,
{
    lemma_named_from(name, 0);
}

proof fn lemma_named_from(name: Seq<char>, at: int)
    requires
        0 <= at,
    ensures
        named_from(catalog(), name, at) < catalog().len() ==> catalog()[named_from(catalog(), name, at)].name == name,
    decreases catalog().len() - at,
{
    if at < catalog().len() && catalog()[at].name != name {
        lemma_named_from(name, at + 1);
    }
}

/// Expands one selector into the mutator names it matches.
///
/// A selector is a full name, a family prefix, an `@preset`, an academic alias, or `all`.
///
/// # Errors
///
/// The selector matches nothing, which is never a silent no-op.
pub fn resolve(selector: &str) -> (r: Result<Vec<&'static str>, Fault>)
    ensures
        r is Ok <==> resolved(selector@) is Ok,
        r matches Ok(names) ==> resolved(selector@) == Ok::<Seq<Seq<char>>, Seq<char>>(texts(names@)),
        r matches Err(error) ==> is_unknown(error, resolved(selector@)->Err_0),
{
    if text::same(selector, "all") {
        return Ok(all_names());
    }
    let name = match text::strip_first(selector, '@') {
        Some(name) => name,
        None => {
            return match resolve_plain(selector) {
                Some(names) => Ok(names),
                None => Err(unknown(selector)),
            };
        },
    };
    let preset = match find_preset(name) {
        Some(preset) => preset,
        None => return Err(unknown(selector)),
    };
    let members = preset.members;
    let ghost wanted = preset@.members;
    let mut names: Vec<&'static str> = Vec::new();
    let mut at: usize = 0;
    proof {
        assert(texts(names@) =~= Seq::<Seq<char>>::empty());
        assert(wanted.len() == members@.len());
    }
    while at < members.len()
        invariant
            at <= members@.len(),
            wanted == members@.map_values(|member: &'static str| member@),
            wanted.len() == members@.len(),
            resolved(selector@) == members_names(wanted, wanted.len()),
            members_names(wanted, at as nat) == Ok::<Seq<Seq<char>>, Seq<char>>(texts(names@)),
        decreases members@.len() - at,
    {
        let member = members[at];
        proof {
            assert(wanted[at as int] == member@);
        }
        let found = if text::same(member, "*") {
            Some(all_names())
        } else if text::same(member, "@default") {
            Some(default_names())
        } else {
            resolve_plain(member)
        };
        let mut more = match found {
            Some(more) => more,
            None => {
                proof {
                    lemma_members_fail(wanted, at as nat + 1, wanted.len());
                }
                return Err(unknown(member));
            },
        };
        let ghost earlier = texts(names@);
        let ghost added = texts(more@);
        names.append(&mut more);
        proof {
            assert(texts(names@) =~= earlier + added);
        }
        at += 1;
    }
    Ok(names)
}

/// Once a member matches nothing, no more members change that.
proof fn lemma_members_fail(members: Seq<Seq<char>>, n: nat, m: nat)
    requires
        n <= m,
        members_names(members, n) is Err,
    ensures
        members_names(members, m) == members_names(members, n),
    decreases m - n,
{
    if n < m {
        lemma_members_fail(members, n, (m - 1) as nat);
    }
}

// ---- Suggestions. ----

/// How alike two texts are to `strsim::jaro_winkler`, from its smallest value to its largest.
pub uninterp spec fn likeness(left: Seq<char>, right: Seq<char>) -> u64;

/// `strsim::jaro_winkler`, whose results lie between zero and one, each given by its bits: those
/// of a larger value are the larger number.
#[verifier::external_body]
fn likeness_of(left: &str, right: &str) -> (r: u64)
    ensures
        r == likeness(left@, right@),
{
    strsim::jaro_winkler(left, right).to_bits()
}

/// How alike a suggestion has to be, at least, for it to be made: the bits of seventeen
/// twentieths.
pub const LIKELY: u64 = 0x3feb_3333_3333_3333;

/// Everything of a catalog that a selector can be a misspelling of: names, families, aliases and
/// presets.
pub open spec fn spellings() -> Seq<Seq<char>> {
    names_asked(Ask::All) + families_of(catalog(), catalog().len()) + all_aliases(catalog(), catalog().len())
        + preset_spellings(preset_groups(), preset_groups().len())
}

/// The aliases of the first `n` entries, in order.
pub open spec fn all_aliases(rows: Seq<Entry>, n: nat) -> Seq<Seq<char>>
    decreases n,
{
    if n == 0 {
        Seq::empty()
    } else {
        all_aliases(rows, (n - 1) as nat) + rows[n - 1].aliases
    }
}

/// The first `n` presets as they are written in a selector.
pub open spec fn preset_spellings(rows: Seq<Group>, n: nat) -> Seq<Seq<char>>
    decreases n,
{
    if n == 0 {
        Seq::empty()
    } else {
        preset_spellings(rows, (n - 1) as nat).push("@"@ + rows[n - 1].name)
    }
}

/// The first of the `n` first scores that is higher than all before it, and high enough for a suggestion.
pub open spec fn best_score(scores: Seq<u64>, n: nat) -> Option<int>
    decreases n,
{
    if n == 0 {
        None
    } else {
        let before = best_score(scores, (n - 1) as nat);
        let best = match before {
            Some(at) => scores[at],
            None => LIKELY,
        };
        if scores[n - 1] > best {
            Some(n - 1)
        } else {
            before
        }
    }
}

/// What is suggested among several spellings, by how alike each is to what was written.
pub open spec fn suggestion(offered: Seq<Seq<char>>, scores: Seq<u64>) -> Option<Seq<char>> {
    match best_score(scores, scores.len()) {
        Some(at) => Some(offered[at]),
        None => None,
    }
}

/// How alike each of several spellings is to a selector.
pub open spec fn likenesses(selector: Seq<char>, offered: Seq<Seq<char>>) -> Seq<u64> {
    offered.map_values(|spelling: Seq<char>| likeness(selector, spelling))
}

/// What is said of a selector that matches nothing, given what it is most like.
pub open spec fn unknown_message(selector: Seq<char>, suggestion: Option<Seq<char>>) -> Seq<char> {
    match suggestion {
        Some(spelling) => "unknown mutator selector `"@ + selector + "`; did you mean `"@ + spelling + "`?"@,
        None => "unknown mutator selector `"@ + selector
            + "`; run `cargo gamma list mutators` to see the registry"@,
    }
}

/// Whether an error is the one for a selector that matches nothing.
pub open spec fn is_unknown(error: Fault, selector: Seq<char>) -> bool {
    &&& error.kind == ErrorKind::Usage
    &&& error.message@ == unknown_message(selector, suggestion(spellings(), likenesses(selector, spellings())))
}

/// Appends copies of texts.
fn extend(out: &mut Vec<String>, parts: &[&'static str])
    ensures
        strings(final(out)@) == strings(old(out)@) + texts(parts@),
{
    let ghost before = strings(out@);
    let mut at: usize = 0;
    proof {
        assert(strings(out@) =~= before + texts(parts@).take(0));
    }
    while at < parts.len()
        invariant
            at <= parts@.len(),
            strings(out@) == before + texts(parts@).take(at as int),
        decreases parts@.len() - at,
    {
        let ghost earlier = strings(out@);
        out.push(text::owned(parts[at]));
        proof {
            assert(strings(out@) =~= earlier.push(parts@[at as int]@));
            assert(strings(out@) =~= before + texts(parts@).take(at + 1));
        }
        at += 1;
    }
    proof {
        assert(texts(parts@).take(at as int) =~= texts(parts@));
    }
}

/// Everything that a selector can be a misspelling of.
fn offered() -> (r: Vec<String>)
    ensures
        strings(r@) == spellings(),
{
    let mut out: Vec<String> = Vec::new();
    extend(&mut out, all_names().as_slice());
    extend(&mut out, families().as_slice());
    let rows = registry();
    let ghost before = strings(out@);
    let mut at: usize = 0;
    proof {
        assert(before =~= names_asked(Ask::All) + families_of(catalog(), catalog().len()));
        assert(before =~= before + all_aliases(catalog(), 0));
    }
    while at < rows.len()
        invariant
            at <= rows@.len(),
            entries(rows@) == catalog(),
            strings(out@) == before + all_aliases(catalog(), at as nat),
        decreases rows@.len() - at,
    {
        proof {
            assert(catalog()[at as int] == rows@[at as int]@);
            assert(texts(rows@[at as int].aliases@) =~= rows@[at as int]@.aliases);
        }
        extend(&mut out, rows[at].aliases);
        at += 1;
        proof {
            assert(strings(out@) =~= before + all_aliases(catalog(), at as nat));
        }
    }
    let shown = presets();
    let ghost middle = strings(out@);
    let mut next: usize = 0;
    proof {
        assert(catalog().len() == rows@.len());
        assert(middle =~= middle + preset_spellings(preset_groups(), 0));
    }
    while next < shown.len()
        invariant
            next <= shown@.len(),
            groups(shown@) == preset_groups(),
            strings(out@) == middle + preset_spellings(preset_groups(), next as nat),
        decreases shown@.len() - next,
    {
        proof {
            assert(preset_groups()[next as int] == shown@[next as int]@);
        }
        let ghost earlier = strings(out@);
        out.push(text::joined("@", shown[next].name));
        next += 1;
        proof {
            assert(strings(out@) =~= earlier.push("@"@ + shown@[next - 1].name@));
            assert(strings(out@) =~= middle + preset_spellings(preset_groups(), next as nat));
        }
    }
    proof {
        assert(preset_groups().len() == shown@.len());
        assert(strings(out@) =~= spellings());
    }
    out
}

/// Finds the first of several scores that is higher than all before it, and high enough for a suggestion.
pub fn best_of(scores: &Vec<u64>) -> (r: Option<usize>)
    ensures
        match r {
            Some(at) => best_score(scores@, scores@.len()) == Some(at as int) && at < scores@.len(),
            None => best_score(scores@, scores@.len()) is None,
        },
{
    let mut best: Option<usize> = None;
    let mut at: usize = 0;
    while at < scores.len()
        invariant
            at <= scores@.len(),
            best is Some <==> best_score(scores@, at as nat) is Some,
            best matches Some(found) ==> found < at && best_score(scores@, at as nat) == Some(found as int),
        decreases scores@.len() - at,
    {
        let threshold: u64 = match best {
            Some(found) => scores[found],
            None => LIKELY,
        };
        if scores[at] > threshold {
            best = Some(at);
        }
        at += 1;
    }
    best
}

/// Builds the error for an unmatched selector, given how alike each of the spellings that could have been
/// meant is to it.
pub fn unmatched(selector: &str, offered: &Vec<String>, scores: &Vec<u64>) -> (r: Fault)
    requires
        offered@.len() == scores@.len(),
    ensures
        r.kind == ErrorKind::Usage,
        r.message@ == unknown_message(selector@, suggestion(strings(offered@), scores@)),
{
    let mut message = text::owned("unknown mutator selector `");
    message.append(selector);
    match best_of(scores) {
        Some(found) => {
            message.append("`; did you mean `");
            message.append(offered[found].as_str());
            message.append("`?");
            proof {
                assert(strings(offered@)[found as int] == offered@[found as int]@);
                assert(message@ =~= unknown_message(selector@, Some(offered@[found as int]@)));
            }
        },
        None => {
            message.append("`; run `cargo gamma list mutators` to see the registry");
            proof {
                assert(message@ =~= unknown_message(selector@, None));
            }
        },
    }
    Fault::new(ErrorKind::Usage, message)
}

/// Builds the error for an unmatched selector, with a spelling suggestion.
fn unknown(selector: &str) -> (r: Fault)
    ensures
        is_unknown(r, selector@),
{
    let candidates = offered();
    let mut scores: Vec<u64> = Vec::new();
    let mut at: usize = 0;
    let ghost all = likenesses(selector@, spellings());
    proof {
        assert(spellings().len() == candidates@.len());
        assert(scores@ =~= all.take(0));
    }
    while at < candidates.len()
        invariant
            at <= candidates@.len(),
            spellings() == strings(candidates@),
            all == likenesses(selector@, spellings()),
            all.len() == candidates@.len(),
            scores@ == all.take(at as int),
        decreases candidates@.len() - at,
    {
        proof {
            assert(spellings()[at as int] == candidates@[at as int]@);
        }
        scores.push(likeness_of(selector, candidates[at].as_str()));
        at += 1;
        proof {
            assert(scores@ =~= all.take(at as int));
        }
    }
    proof {
        assert(all.take(at as int) =~= all);
    }
    unmatched(selector, &candidates, &scores)
}

} // verus!
