//! Where literals end, so that nothing inside them is taken for a comment.
use super::{hashes_from, literal_end_of, next_quote, raw_end_from, string_end_from};
use crate::lexer::{begins_identifier, continues_identifier, identifier_from, identifier_tail};
use crate::text::{char_from, width};
use vstd::prelude::*;

verus! {

/// Whether a byte is a character of ASCII.
pub open spec fn reads(byte: u8, c: char) -> bool {
    byte as int == c as int
}

/// Whether a string can go on over some bytes: none is a quote or escapes what follows.
pub open spec fn are_plain(bytes: Seq<u8>, from: int, to: int) -> bool {
    forall|i: int| from <= i < to ==> !reads(#[trigger] bytes[i], '"') && !reads(bytes[i], '\\')
}

proof fn lemma_string(bytes: Seq<u8>, at: int, close: int)
    requires
        0 <= at <= close <= bytes.len(),
        are_plain(bytes, at, close),
    ensures
        string_end_from(bytes, at) == string_end_from(bytes, close),
    decreases close - at,
{
    if at < close {
        assert(!reads(bytes[at], '"') && !reads(bytes[at], '\\'));
        lemma_string(bytes, at + 1, close);
    }
}

/// A string ends behind the next quote. One that has none runs to the end of the text.
pub proof fn law_a_string_ends_behind_its_quote(bytes: Seq<u8>, start: int, close: int)
    requires
        0 <= start < close <= bytes.len(),
        reads(bytes[start], '"'),
        are_plain(bytes, start + 1, close),
        close < bytes.len() ==> reads(bytes[close], '"'),
    ensures
        close < bytes.len() ==> literal_end_of(bytes, start) == Some(close + 1),
        close == bytes.len() && close > start + 1 ==> literal_end_of(bytes, start) == Some(close),
{
    lemma_string(bytes, start + 1, close);
}

/// What is escaped does not end a string, be it a quote or what escapes.
pub proof fn law_an_escaped_quote_ends_no_string(bytes: Seq<u8>, start: int, escape: int, close: int)
    requires
        0 <= start < escape,
        escape + 2 <= close < bytes.len(),
        reads(bytes[start], '"'),
        are_plain(bytes, start + 1, escape),
        reads(bytes[escape], '\\'),
        are_plain(bytes, escape + 2, close),
        reads(bytes[close], '"'),
    ensures
        literal_end_of(bytes, start) == Some(close + 1),
{
    lemma_string(bytes, start + 1, escape);
    assert(string_end_from(bytes, escape) == string_end_from(bytes, escape + 2));
    lemma_string(bytes, escape + 2, close);
}

/// Whether there are so many `#` at a place, and no more.
pub open spec fn are_hashes(bytes: Seq<u8>, at: int, count: nat) -> bool {
    &&& 0 <= at
    &&& at + count <= bytes.len()
    &&& forall|i: int| at <= i < at + count ==> reads(#[trigger] bytes[i], '#')
    &&& at + count < bytes.len() ==> !reads(bytes[at + count], '#')
}

proof fn lemma_hashes(bytes: Seq<u8>, at: int, count: nat)
    requires
        are_hashes(bytes, at, count),
    ensures
        hashes_from(bytes, at) == count,
    decreases count,
{
    if count > 0 {
        assert(reads(bytes[at], '#'));
        lemma_hashes(bytes, at + 1, (count - 1) as nat);
    }
}

proof fn lemma_raw(bytes: Seq<u8>, at: int, close: int, hashes: nat)
    requires
        0 <= at <= close < bytes.len(),
        forall|i: int| at <= i < close && reads(#[trigger] bytes[i], '"') ==> hashes_from(bytes, i + 1) < hashes,
    ensures
        raw_end_from(bytes, at, hashes) == raw_end_from(bytes, close, hashes),
    decreases close - at,
{
    if at < close {
        if reads(bytes[at], '"') {
            assert(hashes_from(bytes, at + 1) < hashes);
        }
        lemma_raw(bytes, at + 1, close, hashes);
    }
}

/// A raw string ends behind the first quote with as many `#` behind it as are in front of the string. Nothing in
/// it is escaped.
pub proof fn law_a_raw_string_ends_behind_its_hashes(bytes: Seq<u8>, start: int, hashes: nat, close: int, behind: nat)
    requires
        0 <= start,
        start + 1 + hashes < close < bytes.len(),
        reads(bytes[start], 'r'),
        are_hashes(bytes, start + 1, hashes),
        reads(bytes[start + 1 + hashes], '"'),
        reads(bytes[close], '"'),
        are_hashes(bytes, close + 1, behind),
        behind >= hashes,
        forall|i: int| start + 1 + hashes < i < close && reads(#[trigger] bytes[i], '"') ==> hashes_from(bytes, i + 1) < hashes,
    ensures
        literal_end_of(bytes, start) == Some(close + 1 + hashes),
{
    lemma_hashes(bytes, start + 1, hashes);
    lemma_hashes(bytes, close + 1, behind);
    lemma_raw(bytes, start + 2 + hashes, close, hashes);
    if hashes > 0 {
        assert(reads(bytes[start + 1], '#'));
    }
}

/// A quote of so many `#` counts them as they stand.
pub proof fn law_hashes_are_counted(bytes: Seq<u8>, at: int, count: nat)
    requires
        are_hashes(bytes, at, count),
    ensures
        hashes_from(bytes, at) == count,
{
    lemma_hashes(bytes, at, count);
}

/// A character in quotes ends behind the second one, however many bytes it takes. A quote that no other follows
/// behind one character begins a lifetime, which is no literal.
pub proof fn law_a_character_is_in_quotes(bytes: Seq<u8>, start: int, wide: int)
    requires
        0 <= start,
        start + 1 < bytes.len(),
        reads(bytes[start], '\''),
        !reads(bytes[start + 1], '\\'),
        wide == if bytes[start + 1] < 0x80 {
            1int
        } else if 0xc0 <= bytes[start + 1] < 0xe0 {
            2
        } else if 0xe0 <= bytes[start + 1] < 0xf0 {
            3
        } else {
            4
        },
    ensures
        start + 1 + wide < bytes.len() && reads(bytes[start + 1 + wide], '\'') ==> literal_end_of(bytes, start) == Some(start + wide + 2),
        start + 1 + wide >= bytes.len() || !reads(bytes[start + 1 + wide], '\'') ==> literal_end_of(bytes, start) is None,
{
}

proof fn lemma_quote(bytes: Seq<u8>, at: int, close: int)
    requires
        0 <= at <= close < bytes.len(),
        reads(bytes[close], '\''),
        forall|i: int| at <= i < close ==> !reads(#[trigger] bytes[i], '\''),
    ensures
        next_quote(bytes, at) == close,
    decreases close - at,
{
    if at < close {
        assert(!reads(bytes[at], '\''));
        lemma_quote(bytes, at + 1, close);
    }
}

/// An escaped character ends behind the first quote that is not the one escaped.
pub proof fn law_an_escaped_character_is_in_quotes(bytes: Seq<u8>, start: int, close: int)
    requires
        0 <= start,
        start + 3 <= close < bytes.len(),
        reads(bytes[start], '\''),
        reads(bytes[start + 1], '\\'),
        reads(bytes[close], '\''),
        forall|i: int| start + 3 <= i < close ==> !reads(#[trigger] bytes[i], '\''),
    ensures
        literal_end_of(bytes, start) == Some(close + 1),
{
    lemma_quote(bytes, start + 3, close);
}

/// Nothing else begins a literal that a comment could hide in.
pub proof fn law_nothing_else_hides_a_comment(bytes: Seq<u8>, start: int)
    requires
        0 <= start < bytes.len(),
    ensures
        !reads(bytes[start], '"') && !reads(bytes[start], '\'') && !reads(bytes[start], 'r') ==> literal_end_of(bytes, start) is None,
        reads(bytes[start], 'r') && (start + 1 == bytes.len() || !reads(bytes[start + 1], '"') && !reads(bytes[start + 1], '#')) ==> literal_end_of(
            bytes,
            start,
        ) is None,
{
}

/// A name begins with a letter or `_`, and goes on with those and digits. Marks and white space are in no name.
pub proof fn law_what_names_are_made_of(c: char)
    requires
        c as u32 <= 0x7f,
    ensures
        begins_identifier(c) <==> 'a' <= c <= 'z' || 'A' <= c <= 'Z' || c == '_',
        continues_identifier(c) <==> begins_identifier(c) || '0' <= c <= '9',
{
}

/// A name ends in front of the first character that cannot go on with it.
pub proof fn law_a_name_ends_where_it_cannot_go_on(text: Seq<char>, at: int)
    ensures
        char_from(text, at) is None ==> identifier_from(text, at) is None,
        char_from(text, at) matches Some(c) && !begins_identifier(c) ==> identifier_from(text, at) is None,
        char_from(text, at) matches Some(c) && begins_identifier(c) && !(char_from(text, at + width(c)) matches Some(d)
            && continues_identifier(d)) ==> identifier_from(text, at) == Some(at + width(char_from(text, at)->0)),
        char_from(text, at) matches Some(c) && continues_identifier(c) ==> identifier_tail(text, at) == identifier_tail(
            text,
            at + width(char_from(text, at)->0),
        ),
{
}

} // verus!
