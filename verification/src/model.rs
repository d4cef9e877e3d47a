//! Mutants as a run knows them: where they stand, what they replace, and how they are told apart.
use crate::ops::collect::collector::naming;
use crate::ops::collect::collector::naming::{layout_free, written};
use crate::ops::collect::collector::noop::{lexed, Lexed};
use crate::ops::collect::Shape;
use crate::text;
use crate::text::{decimal, viewed, viewed_string};
use std::ops::Range;
use std::sync::Arc;
use vstd::prelude::*;

verus! {

// ---- Sites. ----

/// A region of a source file that mutants replace.
#[derive(Debug)]
pub struct MutationSite {
    /// Byte range of the construct being replaced.
    pub span: Range<usize>,
    /// 1-based line of its first character.
    pub line: usize,
    /// 1-based line of its end.
    pub end_line: usize,
    /// 1-based column of its first character, counted in characters.
    pub column: usize,
    /// The text being replaced.
    pub original: String,
}

/// Where a region lies, and what it holds.
#[verifier::ext_equal]
pub ghost struct Place {
    pub start: int,
    pub end: int,
    pub line: int,
    pub end_line: int,
    pub column: int,
    pub original: Seq<char>,
}

impl View for MutationSite {
    type V = Place;

    open spec fn view(&self) -> Place {
        Place {
            start: self.span.start as int,
            end: self.span.end as int,
            line: self.line as int,
            end_line: self.end_line as int,
            column: self.column as int,
            original: self.original@,
        }
    }
}

/// Which of the sites with the same text a mutant stands at, and which of the replacements there it
/// is.
#[derive(Clone, Copy, Debug, PartialEq, Eq, Structural)]
pub struct SiteIndex {
    /// How many such sites come before it.
    pub occurrence: u32,
    /// Index among the replacements its mutator offers at the site.
    pub replacement_index: u32,
}

impl SiteIndex {
    /// Names a site and a replacement.
    pub fn new(occurrence: u32, replacement_index: u32) -> (r: Self)
        ensures
            r == (SiteIndex { occurrence, replacement_index }),
    {
        SiteIndex { occurrence, replacement_index }
    }
}

/// The text of a site as its identity sees it: its tokens, whatever their layout.
pub fn normalize_site_text(text: &str) -> (r: String)
    ensures
        r@ == layout_free(text@),
{
    naming::without_layout(text)
}

/// Laying out the tokens of a site otherwise does not change how its identity sees it.
pub proof fn law_layout_does_not_change_the_normalized_text(left: Seq<char>, right: Seq<char>)
    requires
        lexed(left) matches Some(one) && (lexed(right) matches Some(other) && reads_the_same(one, other)),
    ensures
        layout_free(left) == layout_free(right),
{
    lemma_written(lexed(left)->0, lexed(right)->0);
}

/// Whether tokens are the same ones, wherever they stand.
pub open spec fn reads_the_same(left: Seq<Lexed>, right: Seq<Lexed>) -> bool {
    left.len() == right.len() && forall|i: int|
        0 <= i < left.len() ==> (#[trigger] left[i]).token == right[i].token && left[i].text == right[i].text
}

/// The same tokens are written in the same way.
proof fn lemma_written(left: Seq<Lexed>, right: Seq<Lexed>)
    requires
        reads_the_same(left, right),
    ensures
        written(left) == written(right),
    decreases left.len(),
{
    if left.len() > 0 {
        assert forall|i: int| 0 <= i < left.drop_last().len() implies (#[trigger] left.drop_last()[i]).token
            == right.drop_last()[i].token && left.drop_last()[i].text == right.drop_last()[i].text by {
            assert(left[i].token == right[i].token);
        }
        lemma_written(left.drop_last(), right.drop_last());
        assert(left.last() == left[left.len() - 1]);
        if left.len() > 1 {
            assert(left[left.len() - 2].token == right[left.len() - 2].token);
        }
    }
}

// ---- Identities. ----

/// What tells a mutant apart from every other.
///
/// It names the site by its enclosing item, its text and its occurrence rather than by its position,
/// so that an edit elsewhere in the file leaves it as it was: suppressions and stored verdicts name
/// mutants by it.
#[derive(Clone, Debug, PartialEq, Eq, Hash)]
pub struct MutantId {
    pub file: String,
    pub item_path: String,
    pub mutator: String,
    pub site: String,
    pub occurrence: u32,
    pub replacement_index: u32,
    pub discriminator: Option<String>,
}

/// What an identity is made of.
#[verifier::ext_equal]
pub ghost struct Identity {
    pub file: Seq<char>,
    pub item_path: Seq<char>,
    pub mutator: Seq<char>,
    pub site: Seq<char>,
    pub occurrence: u32,
    pub replacement_index: u32,
    pub discriminator: Option<Seq<char>>,
}

impl View for MutantId {
    type V = Identity;

    open spec fn view(&self) -> Identity {
        Identity {
            file: self.file@,
            item_path: self.item_path@,
            mutator: self.mutator@,
            site: self.site@,
            occurrence: self.occurrence,
            replacement_index: self.replacement_index,
            discriminator: viewed_string(self.discriminator),
        }
    }
}

/// A text behind its length, so that what follows it can be told from it.
pub open spec fn framed(text: Seq<char>) -> Seq<char> {
    decimal(text.len()) + ":"@ + text
}

impl Identity {
    /// The last parts of an identity as they are written down.
    pub open spec fn spelled_end(self) -> Seq<char> {
        framed(decimal(self.occurrence as nat)) + (framed(decimal(self.replacement_index as nat)) + match self.discriminator {
            Some(text) => framed(text),
            None => Seq::empty(),
        })
    }

    /// An identity as it is written down.
    pub open spec fn spelled(self) -> Seq<char> {
        framed(self.file) + (framed(self.item_path) + (framed(self.mutator) + (framed(self.site) + self.spelled_end())))
    }
}

/// A text behind its length, and then the rest.
fn frame(text: &str, rest: &str) -> (r: String)
    ensures
        r@ == framed(text@) + rest@,
{
    let chars = text::characters(text);
    let mut out = text::owned("");
    proof {
        reveal_strlit("");
        assert(out@ =~= Seq::<char>::empty());
    }
    text::push_decimal(&mut out, chars.len() as u64);
    proof {
        assert(out@ =~= decimal(text@.len()));
    }
    out.append(":");
    out.append(text);
    out.append(rest);
    out
}

/// A number as it is written.
fn write_number(n: u32) -> (r: String)
    ensures
        r@ == decimal(n as nat),
{
    let mut out = text::owned("");
    proof {
        reveal_strlit("");
    }
    text::push_decimal(&mut out, n as u64);
    proof {
        assert(out@ =~= decimal(n as nat));
    }
    out
}

impl MutantId {
    /// The identity as it is written down.
    pub fn spell(&self) -> (r: String)
        ensures
            r@ == self@.spelled(),
    {
        let last = match &self.discriminator {
            Some(text) => {
                let empty = text::owned("");
                let out = frame(text.as_str(), empty.as_str());
                proof {
                    reveal_strlit("");
                    assert(framed(text@) + ""@ =~= framed(text@));
                }
                out
            },
            None => {
                proof {
                    reveal_strlit("");
                    assert(""@ =~= Seq::<char>::empty());
                }
                text::owned("")
            },
        };
        let index = frame(write_number(self.replacement_index).as_str(), last.as_str());
        let end = frame(write_number(self.occurrence).as_str(), index.as_str());
        let site = frame(self.site.as_str(), end.as_str());
        let mutator = frame(self.mutator.as_str(), site.as_str());
        let item_path = frame(self.item_path.as_str(), mutator.as_str());
        frame(self.file.as_str(), item_path.as_str())
    }
}

/// The identity of a mutant.
///
/// A replacement that was supplied from outside is part of it, because its index alone would let one
/// supplied value inherit what is known of another.
pub fn mutant_id_with_discriminator(
    path: &str,
    item_path: &str,
    mutator: &str,
    normalized: &str,
    index: SiteIndex,
    discriminator: Option<&str>,
) -> (r: MutantId)
    ensures
        r@ == (Identity {
            file: path@,
            item_path: item_path@,
            mutator: mutator@,
            site: normalized@,
            occurrence: index.occurrence,
            replacement_index: index.replacement_index,
            discriminator: viewed(discriminator),
        }),
{
    MutantId {
        file: text::owned(path),
        item_path: text::owned(item_path),
        mutator: text::owned(mutator),
        site: text::owned(normalized),
        occurrence: index.occurrence,
        replacement_index: index.replacement_index,
        discriminator: match discriminator {
            Some(text) => Some(text::owned(text)),
            None => None,
        },
    }
}

// ---- Distinct identities are written differently. ----

/// The digits of a number are digits, and there is one.
proof fn lemma_decimal(n: nat)
    ensures
        decimal(n).len() > 0,
        forall|i: int| 0 <= i < decimal(n).len() ==> '0' <= #[trigger] decimal(n)[i] <= '9',
    decreases n,
{
    if n >= 10 {
        lemma_decimal(n / 10);
    }
}

/// Two digits are written alike only if they are the same.
proof fn lemma_digit(a: nat, b: nat)
    requires
        a < 10,
        b < 10,
        text::digit(a) == text::digit(b),
    ensures
        a == b,
{
    let x = (48 + a) as char;
    let y = (48 + b) as char;
    assert(x as u32 == 48 + a);
    assert(y as u32 == 48 + b);
}

/// Two numbers are written alike only if they are the same.
proof fn lemma_decimal_tells(a: nat, b: nat)
    requires
        decimal(a) == decimal(b),
    ensures
        a == b,
    decreases a,
{
    lemma_decimal(a / 10);
    lemma_decimal(b / 10);
    if a < 10 && b < 10 {
        assert(decimal(a) == seq![text::digit(a)]);
        assert(decimal(b) == seq![text::digit(b)]);
        assert(decimal(a)[0] == text::digit(a));
        assert(decimal(b)[0] == text::digit(b));
        lemma_digit(a, b);
    } else if a >= 10 && b >= 10 {
        assert(decimal(a) == decimal(a / 10).push(text::digit(a % 10)));
        assert(decimal(b) == decimal(b / 10).push(text::digit(b % 10)));
        assert(decimal(a).drop_last() =~= decimal(a / 10));
        assert(decimal(b).drop_last() =~= decimal(b / 10));
        assert(decimal(a).last() == text::digit(a % 10));
        assert(decimal(b).last() == text::digit(b % 10));
        lemma_decimal_tells(a / 10, b / 10);
        lemma_digit(a % 10, b % 10);
    } else {
        assert(decimal(a).len() != decimal(b).len());
    }
}

/// A framed text can be told from what follows it.
proof fn lemma_framed(a: Seq<char>, x: Seq<char>, b: Seq<char>, y: Seq<char>)
    requires
        framed(a) + x == framed(b) + y,
    ensures
        a == b,
        x == y,
{
    reveal_strlit(":");
    lemma_decimal(a.len());
    lemma_decimal(b.len());
    let left = framed(a) + x;
    let right = framed(b) + y;
    let m = decimal(a.len()).len() as int;
    let n = decimal(b.len()).len() as int;
    assert(left[m] == ':');
    assert(right[n] == ':');
    if m < n {
        assert(right[m] == decimal(b.len())[m]);
    } else if n < m {
        assert(left[n] == decimal(a.len())[n]);
    }
    assert(m == n);
    assert(decimal(a.len()) =~= left.take(m));
    assert(decimal(b.len()) =~= right.take(n));
    lemma_decimal_tells(a.len(), b.len());
    let size = a.len() as int;
    assert(a =~= left.subrange(m + 1, m + 1 + size));
    assert(b =~= right.subrange(m + 1, m + 1 + size));
    assert(x =~= left.skip(m + 1 + size));
    assert(y =~= right.skip(m + 1 + size));
}

/// The last parts of two identities are written alike only if they are the same.
proof fn lemma_spelled_end(one: Identity, other: Identity)
    requires
        one.spelled_end() == other.spelled_end(),
    ensures
        one.occurrence == other.occurrence,
        one.replacement_index == other.replacement_index,
        one.discriminator == other.discriminator,
{
    let left = match one.discriminator {
        Some(text) => framed(text),
        None => Seq::<char>::empty(),
    };
    let right = match other.discriminator {
        Some(text) => framed(text),
        None => Seq::<char>::empty(),
    };
    let a = decimal(one.replacement_index as nat);
    let b = decimal(other.replacement_index as nat);
    lemma_framed(decimal(one.occurrence as nat), framed(a) + left, decimal(other.occurrence as nat), framed(b) + right);
    lemma_framed(a, left, b, right);
    lemma_decimal_tells(one.occurrence as nat, other.occurrence as nat);
    lemma_decimal_tells(one.replacement_index as nat, other.replacement_index as nat);
    if let Some(text) = one.discriminator {
        lemma_decimal(text.len());
        assert(left.len() > 0);
    }
    if let Some(text) = other.discriminator {
        lemma_decimal(text.len());
        assert(right.len() > 0);
    }
    if one.discriminator is Some && other.discriminator is Some {
        let empty = Seq::<char>::empty();
        assert(left + empty =~= right + empty);
        lemma_framed(one.discriminator->0, empty, other.discriminator->0, empty);
    }
}

/// Two identities are written alike only if they are the same.
pub proof fn law_distinct_identities_are_written_differently(one: Identity, other: Identity)
    requires
        one.spelled() == other.spelled(),
    ensures
        one == other,
{
    let (x4, y4) = (one.spelled_end(), other.spelled_end());
    let (x3, y3) = (framed(one.site) + x4, framed(other.site) + y4);
    let (x2, y2) = (framed(one.mutator) + x3, framed(other.mutator) + y3);
    let (x1, y1) = (framed(one.item_path) + x2, framed(other.item_path) + y2);
    lemma_framed(one.file, x1, other.file, y1);
    lemma_framed(one.item_path, x2, other.item_path, y2);
    lemma_framed(one.mutator, x3, other.mutator, y3);
    lemma_framed(one.site, x4, other.site, y4);
    lemma_spelled_end(one, other);
}

// ---- Definitions. ----

/// A mutant, before it is given a run-wide ordinal.
#[derive(Debug)]
pub struct MutantDefinition {
    /// What tells it apart.
    pub id: MutantId,
    /// Path of the file.
    pub file: Arc<String>,
    /// The region that it replaces, shared by every mutant of the same region.
    pub site: Arc<MutationSite>,
    /// Registry name of the mutator.
    pub mutator: &'static str,
    /// Path of the enclosing item.
    pub item_path: String,
    /// How many sites with the same text in the same item come before it.
    pub occurrence: u32,
    /// Index among the replacements its mutator offers at the site.
    pub replacement_index: u32,
    /// The text that replaces the whole span.
    pub replacement: String,
    /// How the site must be guarded.
    pub shape: Shape,
}

/// What a definition says.
#[verifier::ext_equal]
pub ghost struct Definition {
    pub id: Identity,
    pub file: Seq<char>,
    pub site: Place,
    pub mutator: Seq<char>,
    pub item_path: Seq<char>,
    pub occurrence: u32,
    pub replacement_index: u32,
    pub replacement: Seq<char>,
    pub shape: Shape,
}

impl View for MutantDefinition {
    type V = Definition;

    open spec fn view(&self) -> Definition {
        Definition {
            id: self.id@,
            file: self.file@,
            site: self.site@,
            mutator: self.mutator@,
            item_path: self.item_path@,
            occurrence: self.occurrence,
            replacement_index: self.replacement_index,
            replacement: self.replacement@,
            shape: self.shape,
        }
    }
}

impl MutantDefinition {
    /// Byte range of the construct being replaced.
    pub fn span(&self) -> (r: &Range<usize>)
        ensures
            r.start == self@.site.start,
            r.end == self@.site.end,
    {
        &self.site.span
    }
}

} // verus!
