//! Turning the candidates a file admits into mutant definitions with stable identities.
use super::candidate::{offers, Candidate, Offer};
use super::collector::naming::layout_free;
use crate::model;
use crate::model::{Definition, Identity, MutantDefinition, MutationSite, Place, SiteIndex};
use crate::parse::lines::{location_of, starts_of};
use crate::parse::SourceFile;
use crate::text;
use crate::text::slice;
use std::sync::Arc;
use vstd::prelude::*;
use vstd::utf8::encode_utf8;

verus! {

// ---- Counting sites. ----

/// The text of a candidate's site as its identity sees it.
pub open spec fn site_text(text: Seq<char>, offer: Offer) -> Seq<char> {
    layout_free(slice(text, offer.start, offer.end))
}

/// Whether the sites of two candidates cannot be told apart but by counting them.
pub open spec fn same_key(text: Seq<char>, left: Offer, right: Offer) -> bool {
    &&& left.item_path == right.item_path
    &&& left.mutator == right.mutator
    &&& site_text(text, left) == site_text(text, right)
}

/// Whether two candidates of one mutator stand at the same site.
pub open spec fn same_site(text: Seq<char>, left: Offer, right: Offer) -> bool {
    same_key(text, left, right) && left.start == right.start && left.end == right.end
}

/// Where the first candidate at the same site as another stands, from `at` on.
pub open spec fn first_at(text: Seq<char>, all: Seq<Offer>, offer: Offer, at: int) -> int
    decreases all.len() - at,
{
    if at < 0 || at >= all.len() || same_site(text, all[at], offer) {
        at
    } else {
        first_at(text, all, offer, at + 1)
    }
}

/// How many of the sites that cannot be told apart from a candidate's begin among the first
/// candidates.
pub open spec fn sites_among(text: Seq<char>, all: Seq<Offer>, count: int, offer: Offer) -> nat
    decreases count,
{
    if count <= 0 {
        0
    } else {
        let before = sites_among(text, all, count - 1, offer);
        if same_key(text, all[count - 1], offer) && first_at(text, all, all[count - 1], 0) == count - 1 {
            before + 1
        } else {
            before
        }
    }
}

/// How many sites that cannot be told apart from it come before that of a candidate.
///
/// Sites are counted rather than replacements, so that a site that offers several leaves the numbers
/// of later ones as they are.
pub open spec fn occurrence(text: Seq<char>, all: Seq<Offer>, offer: Offer) -> nat {
    sites_among(text, all, first_at(text, all, offer, 0), offer)
}

// ---- Definitions. ----

/// Where a candidate stands.
pub open spec fn place_of(text: Seq<char>, offer: Offer) -> Place {
    let starts = starts_of(encode_utf8(text));
    Place {
        start: offer.start,
        end: offer.end,
        line: location_of(text, starts, offer.start).0,
        end_line: location_of(text, starts, offer.end).0,
        column: location_of(text, starts, offer.start).1,
        original: slice(text, offer.start, offer.end),
    }
}

/// What a candidate becomes among all of them.
pub open spec fn definition_of(path: Seq<char>, text: Seq<char>, all: Seq<Offer>, offer: Offer) -> Definition {
    Definition {
        id: Identity {
            file: path,
            item_path: offer.item_path,
            mutator: offer.mutator,
            site: site_text(text, offer),
            occurrence: occurrence(text, all, offer) as u32,
            replacement_index: offer.index,
            discriminator: if offer.mutator == "fn_value.err_with"@ {
                Some(offer.replacement)
            } else {
                None
            },
        },
        file: path,
        site: place_of(text, offer),
        mutator: offer.mutator,
        item_path: offer.item_path,
        occurrence: occurrence(text, all, offer) as u32,
        replacement_index: offer.index,
        replacement: offer.replacement,
        shape: offer.shape,
    }
}

/// What definitions say.
pub open spec fn read_definitions(definitions: Seq<MutantDefinition>) -> Seq<Definition> {
    definitions.map_values(|definition: MutantDefinition| definition@)
}

/// What each candidate becomes.
pub open spec fn definitions_of(path: Seq<char>, text: Seq<char>, all: Seq<Offer>) -> Seq<Definition> {
    all.map_values(|offer: Offer| definition_of(path, text, all, offer))
}

// ---- Lemmas. ----

/// The first candidate at a site is at it, and none before it is.
proof fn lemma_first_at(text: Seq<char>, all: Seq<Offer>, offer: Offer, at: int)
    requires
        0 <= at <= all.len(),
    ensures
        at <= first_at(text, all, offer, at) <= all.len(),
        first_at(text, all, offer, at) < all.len() ==> same_site(text, all[first_at(text, all, offer, at)], offer),
        forall|i: int| at <= i < first_at(text, all, offer, at) ==> !same_site(text, #[trigger] all[i], offer),
    decreases all.len() - at,
{
    if at < all.len() && !same_site(text, all[at], offer) {
        lemma_first_at(text, all, offer, at + 1);
    }
}

/// The first candidate at a site stands where one is found with none before it.
proof fn lemma_found_at(text: Seq<char>, all: Seq<Offer>, offer: Offer, at: int)
    requires
        0 <= at < all.len(),
        same_site(text, all[at], offer),
        forall|i: int| 0 <= i < at ==> !same_site(text, #[trigger] all[i], offer),
    ensures
        first_at(text, all, offer, 0) == at,
{
    lemma_first_at(text, all, offer, 0);
    let first = first_at(text, all, offer, 0);
    if first < at {
        assert(!same_site(text, all[first], offer));
    }
    if first > at {
        assert(!same_site(text, all[at], offer));
    }
}

/// Candidates whose sites cannot be told apart count the same sites.
proof fn lemma_same_count(text: Seq<char>, all: Seq<Offer>, count: int, left: Offer, right: Offer)
    requires
        same_key(text, left, right),
    ensures
        sites_among(text, all, count, left) == sites_among(text, all, count, right),
    decreases count,
{
    if count > 0 {
        lemma_same_count(text, all, count - 1, left, right);
    }
}

/// There are no more sites than candidates.
proof fn lemma_count_bound(text: Seq<char>, all: Seq<Offer>, count: int, offer: Offer)
    requires
        0 <= count,
    ensures
        sites_among(text, all, count, offer) <= count,
    decreases count,
{
    if count > 0 {
        lemma_count_bound(text, all, count - 1, offer);
    }
}

// ---- Making them. ----

/// Whether a definition's site cannot be told apart from a candidate's but by counting.
fn has_key(definition: &MutantDefinition, candidate: &Candidate, normalized: &str) -> (r: bool)
    ensures
        r == (definition@.item_path == candidate@.item_path && definition@.mutator == candidate@.mutator && definition@.id.site
            == normalized@),
{
    text::same(definition.item_path.as_str(), candidate.item_path.as_str()) && text::same(definition.mutator, candidate.mutator)
        && text::same(definition.id.site.as_str(), normalized)
}

/// Whether a definition stands over a candidate's span.
fn has_span(definition: &MutantDefinition, candidate: &Candidate) -> (r: bool)
    ensures
        r == (definition@.site.start == candidate@.start && definition@.site.end == candidate@.end),
{
    definition.site.span.start == candidate.span.start && definition.site.span.end == candidate.span.end
}

/// Counts the sites before a candidate's that cannot be told apart from it.
fn count_sites(
    definitions: &Vec<MutantDefinition>,
    news: &Vec<bool>,
    candidate: &Candidate,
    normalized: &str,
    path: Ghost<Seq<char>>,
    text: Ghost<Seq<char>>,
    all: Ghost<Seq<Offer>>,
) -> (r: (u32, bool))
    requires
        definitions@.len() < all@.len() <= u32::MAX,
        news@.len() == definitions@.len(),
        all@[definitions@.len() as int] == candidate@,
        normalized@ == site_text(text@, candidate@),
        forall|i: int| 0 <= i < definitions@.len() ==> (#[trigger] definitions@[i])@ == definition_of(path@, text@, all@, all@[i]),
        forall|i: int| 0 <= i < news@.len() ==> (#[trigger] news@[i] <==> first_at(text@, all@, all@[i], 0) == i),
    ensures
        r.0 == occurrence(text@, all@, candidate@),
        r.1 <==> first_at(text@, all@, candidate@, 0) == definitions@.len(),
{
    let ghost offer = candidate@;
    let size: usize = definitions.len();
    let mut count: u32 = 0;
    let mut at: usize = 0;
    while at < size
        invariant
            at <= size,
            size == definitions@.len(),
            definitions@.len() < all@.len() <= u32::MAX,
            news@.len() == definitions@.len(),
            offer == candidate@,
            all@[definitions@.len() as int] == offer,
            normalized@ == site_text(text@, offer),
            forall|i: int| 0 <= i < definitions@.len() ==> (#[trigger] definitions@[i])@ == definition_of(path@, text@, all@, all@[i]),
            forall|i: int| 0 <= i < news@.len() ==> (#[trigger] news@[i] <==> first_at(text@, all@, all@[i], 0) == i),
            forall|i: int| 0 <= i < at ==> !same_site(text@, #[trigger] all@[i], offer),
            count == sites_among(text@, all@, at as int, offer),
            count <= at,
        decreases size - at,
    {
        let definition = &definitions[at];
        proof {
            assert(definitions@[at as int]@ == definition_of(path@, text@, all@, all@[at as int]));
        }
        if has_key(definition, candidate, normalized) {
            proof {
                assert(same_key(text@, all@[at as int], offer));
            }
            if has_span(definition, candidate) {
                proof {
                    assert(same_site(text@, all@[at as int], offer));
                    lemma_found_at(text@, all@, offer, at as int);
                    lemma_first_at(text@, all@, all@[at as int], 0);
                    assert forall|i: int| 0 <= i < at implies !same_site(text@, #[trigger] all@[i], all@[at as int]) by {
                        assert(!same_site(text@, all@[i], offer));
                    }
                    lemma_found_at(text@, all@, all@[at as int], at as int);
                    lemma_same_count(text@, all@, at as int, all@[at as int], offer);
                    lemma_count_bound(text@, all@, at as int, offer);
                }
                return (definition.occurrence, false);
            }
            if news[at] {
                count += 1;
            }
        }
        at += 1;
    }
    proof {
        lemma_found_at(text@, all@, offer, size as int);
    }
    (count, true)
}

/// The region that a candidate replaces, which the definitions over the same span share.
fn share_site(
    file: &SourceFile,
    definitions: &Vec<MutantDefinition>,
    candidate: &Candidate,
    all: Ghost<Seq<Offer>>,
) -> (r: Arc<MutationSite>)
    requires
        file.is_navigable(),
        definitions@.len() <= all@.len(),
        forall|i: int|
            0 <= i < definitions@.len() ==> (#[trigger] definitions@[i])@ == definition_of(file.path@, file.text@, all@, all@[i]),
    ensures
        r@ == place_of(file.text@, candidate@),
{
    let mut at: usize = definitions.len();
    while at > 0
        invariant
            at <= definitions@.len() <= all@.len(),
            forall|i: int|
                0 <= i < definitions@.len() ==> (#[trigger] definitions@[i])@ == definition_of(file.path@, file.text@, all@, all@[i]),
        decreases at,
    {
        at -= 1;
        proof {
            assert(definitions@[at as int]@ == definition_of(file.path@, file.text@, all@, all@[at as int]));
        }
        if has_span(&definitions[at], candidate) {
            return definitions[at].site.clone();
        }
    }
    let (line, column) = file.location(candidate.span.start);
    let end_line: usize = file.line_of(candidate.span.end);
    Arc::new(
        MutationSite {
            span: candidate.span.start..candidate.span.end,
            line,
            end_line,
            column,
            original: text::owned(file.slice(&candidate.span)),
        },
    )
}

/// Turns candidates into source-level mutant definitions, assigning stable ids.
pub fn into_definitions(file: &SourceFile, candidates: Vec<Candidate>) -> (r: Vec<MutantDefinition>)
    requires
        file.is_navigable(),
        candidates@.len() <= u32::MAX,
    ensures
        read_definitions(r@) == definitions_of(file.path@, file.text@, offers(candidates@)),
{
    let ghost all = offers(candidates@);
    let ghost given = candidates@;
    let path = Arc::new(text::owned(file.path.as_str()));
    let mut definitions: Vec<MutantDefinition> = Vec::new();
    let mut news: Vec<bool> = Vec::new();
    for candidate in it: candidates
        invariant
            it.seq() == given,
            all == offers(given),
            all.len() <= u32::MAX,
            file.is_navigable(),
            path@ == file.path@,
            definitions@.len() == it.index(),
            news@.len() == it.index(),
            forall|i: int|
                0 <= i < definitions@.len() ==> (#[trigger] definitions@[i])@ == definition_of(file.path@, file.text@, all, all[i]),
            forall|i: int| 0 <= i < news@.len() ==> (#[trigger] news@[i] <==> first_at(file.text@, all, all[i], 0) == i),
    {
        proof {
            assert(all[it.index() as int] == candidate@);
        }
        let site = share_site(file, &definitions, &candidate, Ghost(all));
        let normalized = model::normalize_site_text(site.original.as_str());
        let (occurrence, new) = count_sites(
            &definitions,
            &news,
            &candidate,
            normalized.as_str(),
            Ghost(file.path@),
            Ghost(file.text@),
            Ghost(all),
        );
        let discriminator = if text::same(candidate.mutator, "fn_value.err_with") {
            Some(candidate.replacement.as_str())
        } else {
            None
        };
        let id = model::mutant_id_with_discriminator(
            file.path.as_str(),
            candidate.item_path.as_str(),
            candidate.mutator,
            normalized.as_str(),
            SiteIndex::new(occurrence, candidate.replacement_index),
            discriminator,
        );
        let definition = MutantDefinition {
            id,
            file: path.clone(),
            site,
            mutator: candidate.mutator,
            item_path: text::owned(candidate.item_path.as_str()),
            occurrence,
            replacement_index: candidate.replacement_index,
            replacement: text::owned(candidate.replacement.as_str()),
            shape: candidate.shape,
        };
        proof {
            assert(definition@ =~= definition_of(file.path@, file.text@, all, candidate@));
        }
        definitions.push(definition);
        news.push(new);
    }
    proof {
        assert(read_definitions(definitions@) =~= definitions_of(file.path@, file.text@, all));
    }
    definitions
}

// ---- What is promised of identities. ----

/// More candidates begin no fewer sites.
proof fn lemma_count_grows(text: Seq<char>, all: Seq<Offer>, few: int, many: int, offer: Offer)
    requires
        0 <= few <= many,
    ensures
        sites_among(text, all, few, offer) <= sites_among(text, all, many, offer),
    decreases many,
{
    if few < many {
        lemma_count_grows(text, all, few, many - 1, offer);
    }
}

/// An earlier site has a lower number.
proof fn lemma_earlier_site(text: Seq<char>, all: Seq<Offer>, left: Offer, right: Offer)
    requires
        same_key(text, left, right),
        first_at(text, all, left, 0) < first_at(text, all, right, 0),
    ensures
        occurrence(text, all, left) < occurrence(text, all, right),
{
    lemma_first_at(text, all, left, 0);
    lemma_first_at(text, all, right, 0);
    let at = first_at(text, all, left, 0);
    let own = all[at];
    assert forall|i: int| 0 <= i < at implies !same_site(text, #[trigger] all[i], own) by {
        assert(!same_site(text, all[i], left));
    }
    lemma_found_at(text, all, own, at);
    lemma_same_count(text, all, at, left, right);
    assert(sites_among(text, all, at + 1, right) == sites_among(text, all, at, right) + 1);
    lemma_count_grows(text, all, at + 1, first_at(text, all, right, 0), right);
}

/// The replacements that a mutator offers at one site share its number, however many there are.
pub proof fn law_occurrences_count_sites(text: Seq<char>, all: Seq<Offer>, left: Offer, right: Offer)
    requires
        same_site(text, left, right),
    ensures
        occurrence(text, all, left) == occurrence(text, all, right),
{
    lemma_same_first(text, all, left, right, 0);
    lemma_same_count(text, all, first_at(text, all, left, 0), left, right);
}

/// Candidates at one site have the same first one.
proof fn lemma_same_first(text: Seq<char>, all: Seq<Offer>, left: Offer, right: Offer, at: int)
    requires
        same_site(text, left, right),
    ensures
        first_at(text, all, left, at) == first_at(text, all, right, at),
    decreases all.len() - at,
{
    if 0 <= at < all.len() && !same_site(text, all[at], left) {
        lemma_same_first(text, all, left, right, at + 1);
    }
}

/// Two mutants of a file share an identity only if they are of one mutator, stand at one site and
/// have one index there; and two values that were supplied from outside only if they are the same.
pub proof fn law_an_identity_names_one_replacement_of_one_site(path: Seq<char>, text: Seq<char>, all: Seq<Offer>, i: int, j: int)
    requires
        0 <= i < all.len() <= u32::MAX,
        0 <= j < all.len(),
        definitions_of(path, text, all)[i].id == definitions_of(path, text, all)[j].id,
    ensures
        all[i].mutator == all[j].mutator,
        all[i].item_path == all[j].item_path,
        all[i].start == all[j].start,
        all[i].end == all[j].end,
        all[i].index == all[j].index,
        all[i].mutator == "fn_value.err_with"@ ==> all[i].replacement == all[j].replacement,
{
    let left = all[i];
    let right = all[j];
    assert(definitions_of(path, text, all)[i] == definition_of(path, text, all, left));
    assert(definitions_of(path, text, all)[j] == definition_of(path, text, all, right));
    assert(same_key(text, left, right));
    assert(same_key(text, right, left));
    lemma_first_at(text, all, left, 0);
    lemma_first_at(text, all, right, 0);
    lemma_count_bound(text, all, first_at(text, all, left, 0), left);
    lemma_count_bound(text, all, first_at(text, all, right, 0), right);
    assert(same_site(text, all[i], left));
    assert(same_site(text, all[j], right));
    assert(first_at(text, all, left, 0) <= i);
    assert(first_at(text, all, right, 0) <= j);
    if first_at(text, all, left, 0) < first_at(text, all, right, 0) {
        lemma_earlier_site(text, all, left, right);
    } else if first_at(text, all, right, 0) < first_at(text, all, left, 0) {
        lemma_earlier_site(text, all, right, left);
    }
}

// ---- Identities survive edits elsewhere. ----

/// Whether candidates of two texts stand for the same mutants: they agree in everything but where
/// their sites lie and how these are laid out, and the same of them share a site.
pub open spec fn correspond(text: Seq<char>, all: Seq<Offer>, edited: Seq<char>, moved: Seq<Offer>) -> bool {
    &&& all.len() == moved.len()
    &&& forall|i: int|
        0 <= i < all.len() ==> (#[trigger] all[i]).mutator == moved[i].mutator && all[i].item_path == moved[i].item_path && all[i].index
            == moved[i].index && all[i].replacement == moved[i].replacement && site_text(text, all[i]) == site_text(edited, moved[i])
    &&& forall|i: int, j: int|
        0 <= i < all.len() && 0 <= j < all.len() ==> ((#[trigger] all[i]).start == (#[trigger] all[j]).start && all[i].end == all[j].end
            <==> moved[i].start == moved[j].start && moved[i].end == moved[j].end)
}

/// Corresponding candidates share their keys and their sites alike.
proof fn lemma_correspond(text: Seq<char>, all: Seq<Offer>, edited: Seq<char>, moved: Seq<Offer>, i: int, j: int)
    requires
        correspond(text, all, edited, moved),
        0 <= i < all.len(),
        0 <= j < all.len(),
    ensures
        same_key(text, all[i], all[j]) == same_key(edited, moved[i], moved[j]),
        same_site(text, all[i], all[j]) == same_site(edited, moved[i], moved[j]),
{
    assert(all[i].mutator == moved[i].mutator);
    assert(all[j].mutator == moved[j].mutator);
}

/// Corresponding candidates have the same first one at their site.
proof fn lemma_corresponding_first(text: Seq<char>, all: Seq<Offer>, edited: Seq<char>, moved: Seq<Offer>, i: int, at: int)
    requires
        correspond(text, all, edited, moved),
        0 <= i < all.len(),
        0 <= at <= all.len(),
    ensures
        first_at(text, all, all[i], at) == first_at(edited, moved, moved[i], at),
    decreases all.len() - at,
{
    if at < all.len() {
        lemma_correspond(text, all, edited, moved, at, i);
        lemma_corresponding_first(text, all, edited, moved, i, at + 1);
    }
}

/// Corresponding candidates count the same sites.
proof fn lemma_corresponding_count(text: Seq<char>, all: Seq<Offer>, edited: Seq<char>, moved: Seq<Offer>, i: int, count: int)
    requires
        correspond(text, all, edited, moved),
        0 <= i < all.len(),
        0 <= count <= all.len(),
    ensures
        sites_among(text, all, count, all[i]) == sites_among(edited, moved, count, moved[i]),
    decreases count,
{
    if count > 0 {
        lemma_corresponding_count(text, all, edited, moved, i, count - 1);
        lemma_correspond(text, all, edited, moved, count - 1, i);
        lemma_corresponding_first(text, all, edited, moved, count - 1, 0);
    }
}

/// Moving code and laying it out otherwise changes no identity: neither where a site lies nor how its
/// tokens are spaced is part of one.
pub proof fn law_identities_survive_reformatting(
    path: Seq<char>,
    text: Seq<char>,
    all: Seq<Offer>,
    edited: Seq<char>,
    moved: Seq<Offer>,
    i: int,
)
    requires
        correspond(text, all, edited, moved),
        0 <= i < all.len(),
    ensures
        definitions_of(path, text, all)[i].id == definitions_of(path, edited, moved)[i].id,
{
    lemma_corresponding_first(text, all, edited, moved, i, 0);
    lemma_first_at(text, all, all[i], 0);
    lemma_corresponding_count(text, all, edited, moved, i, first_at(text, all, all[i], 0));
    assert(all[i].mutator == moved[i].mutator);
    assert(definitions_of(path, text, all)[i] == definition_of(path, text, all, all[i]));
    assert(definitions_of(path, edited, moved)[i] == definition_of(path, edited, moved, moved[i]));
}

/// Where a candidate stands once another has been put in at an index.
pub open spec fn shifted(at: int, i: int) -> int {
    if i < at {
        i
    } else {
        i + 1
    }
}

/// A candidate at another site moves the first one at a site along, and no more.
proof fn lemma_first_beside(text: Seq<char>, all: Seq<Offer>, at: int, other: Offer, offer: Offer)
    requires
        0 <= at <= all.len(),
        !same_site(text, other, offer),
    ensures
        first_at(text, all.insert(at, other), offer, 0) == shifted(at, first_at(text, all, offer, 0)),
{
    let more = all.insert(at, other);
    lemma_first_at(text, all, offer, 0);
    lemma_first_at(text, more, offer, 0);
    let first = first_at(text, all, offer, 0);
    let found = first_at(text, more, offer, 0);
    assert forall|i: int| 0 <= i < shifted(at, first) implies !same_site(text, #[trigger] more[i], offer) by {
        if i < at {
            assert(more[i] == all[i]);
        } else if i > at {
            assert(more[i] == all[i - 1]);
        }
    }
    if first < all.len() {
        assert(more[shifted(at, first)] == all[first]);
        lemma_found_at(text, more, offer, shifted(at, first));
    } else {
        if found < more.len() {
            assert(!same_site(text, more[found], offer));
        }
    }
}

/// A candidate with another key adds nothing to a count.
proof fn lemma_count_beside(text: Seq<char>, all: Seq<Offer>, at: int, other: Offer, count: int, offer: Offer)
    requires
        0 <= at <= all.len(),
        0 <= count <= all.len(),
        !same_key(text, other, offer),
    ensures
        sites_among(text, all.insert(at, other), shifted(at, count), offer) == sites_among(text, all, count, offer),
        count == at ==> sites_among(text, all.insert(at, other), at, offer) == sites_among(text, all, at, offer),
    decreases count,
{
    let more = all.insert(at, other);
    if count > 0 {
        lemma_count_beside(text, all, at, other, count - 1, offer);
        let k = count - 1;
        assert(more[shifted(at, k)] == all[k]);
        if same_key(text, all[k], offer) {
            assert(!same_site(text, other, all[k]));
            lemma_first_beside(text, all, at, other, all[k]);
        }
        if count < at {
            assert(shifted(at, count) == count);
        } else if count == at {
            assert(sites_among(text, more, at, offer) == sites_among(text, all, at, offer));
            assert(more[at] == other);
        } else {
            assert(shifted(at, count) == count + 1);
        }
    } else if at == 0 {
        assert(more[0] == other);
        assert(sites_among(text, more, 0, offer) == 0);
        assert(sites_among(text, more, 1, offer) == 0);
    }
}

/// A mutant that appears or goes away anywhere in a file renumbers no site but those that it cannot be
/// told apart from: those of its own mutator, in its own item, with its own text.
pub proof fn law_unrelated_code_renumbers_nothing(text: Seq<char>, all: Seq<Offer>, at: int, other: Offer, offer: Offer)
    requires
        0 <= at <= all.len(),
        !same_key(text, other, offer),
    ensures
        occurrence(text, all.insert(at, other), offer) == occurrence(text, all, offer),
{
    lemma_first_at(text, all, offer, 0);
    lemma_first_beside(text, all, at, other, offer);
    lemma_count_beside(text, all, at, other, first_at(text, all, offer, 0), offer);
}

} // verus!
