//! Comment trivia: scanning raw source text for comments that a syntax tree never holds.
use crate::parse::lines;
use crate::parse::lines::{line_index, offsets, starts_of};
use crate::text;
use crate::text::{begins, byte_len, slice, sliceable, strip_back, strip_front, trim, without_first};
use std::ops::Range;
use vstd::prelude::*;
use vstd::utf8::*;

pub mod laws;
pub mod literals;

verus! {

/// What kind of comment was found.
#[derive(Clone, Copy, Debug, PartialEq, Eq, Structural)]
pub enum CommentKind {
    /// `// ...`, the only kind that can carry a directive.
    Line,
    /// `/// ...` or `/** ... */`, documentation for the item that follows.
    OuterDoc,
    /// `//! ...` or `/*! ... */`, documentation for the enclosing item.
    InnerDoc,
    /// `/* ... */`.
    Block,
}

/// One comment, located in the file.
#[derive(Debug)]
pub struct Comment {
    /// What kind of comment this is.
    pub kind: CommentKind,
    /// Byte range of the comment including its delimiters.
    pub span: Range<usize>,
    /// The comment text with its delimiters and one leading space removed.
    pub body: String,
    /// 1-based line number of the comment's first line.
    pub line: usize,
    /// Whether anything other than white space precedes the comment on its own line.
    pub trailing: bool,
}

// ---- Where things end. ----

/// The offset of the first line break at or after `at`, or the end.
pub open spec fn line_end(bytes: Seq<u8>, at: int) -> int
    decreases bytes.len() - at,
{
    if 0 <= at < bytes.len() && bytes[at] != 10u8 {
        line_end(bytes, at + 1)
    } else {
        at
    }
}

/// Whether the two bytes at `at` are the given ones.
pub open spec fn pair_at(bytes: Seq<u8>, at: int, first: u8, second: u8) -> bool {
    at + 1 < bytes.len() && bytes[at] == first && bytes[at + 1] == second
}

/// The offset just past the end of a block comment that has `depth` comments open at `at`.
pub open spec fn block_end(bytes: Seq<u8>, at: int, depth: nat) -> int
    decreases bytes.len() - at,
{
    if at < 0 || at >= bytes.len() {
        bytes.len() as int
    } else if pair_at(bytes, at, 47u8, 42u8) {
        block_end(bytes, at + 2, depth + 1)
    } else if pair_at(bytes, at, 42u8, 47u8) {
        if depth <= 1 {
            at + 2
        } else {
            block_end(bytes, at + 2, (depth - 1) as nat)
        }
    } else {
        block_end(bytes, at + 1, depth)
    }
}

/// The offset just past the end of a string literal whose contents go on at `at`.
pub open spec fn string_end_from(bytes: Seq<u8>, at: int) -> int
    decreases bytes.len() - at,
{
    if at < 0 || at >= bytes.len() {
        bytes.len() as int
    } else if bytes[at] == 92u8 && at + 1 < bytes.len() {
        string_end_from(bytes, at + 2)
    } else if bytes[at] == 34u8 {
        at + 1
    } else {
        string_end_from(bytes, at + 1)
    }
}

/// How many `#` stand in a row from `at`.
pub open spec fn hashes_from(bytes: Seq<u8>, at: int) -> nat
    decreases bytes.len() - at,
{
    if 0 <= at < bytes.len() && bytes[at] == 35u8 {
        hashes_from(bytes, at + 1) + 1
    } else {
        0
    }
}

/// The offset just past a raw string whose contents go on at `at` and which `hashes` close.
pub open spec fn raw_end_from(bytes: Seq<u8>, at: int, hashes: nat) -> int
    decreases bytes.len() - at,
{
    if at < 0 || at >= bytes.len() {
        bytes.len() as int
    } else if bytes[at] == 34u8 && hashes_from(bytes, at + 1) >= hashes {
        at + 1 + hashes
    } else {
        raw_end_from(bytes, at + 1, hashes)
    }
}

/// The offset just past the raw string at `start`, or past its `r` where it is none.
pub open spec fn raw_end(bytes: Seq<u8>, start: int) -> int {
    let hashes = hashes_from(bytes, start + 1);
    let quote = start + 1 + hashes;
    if quote < bytes.len() && bytes[quote] == 34u8 {
        raw_end_from(bytes, quote + 1, hashes)
    } else {
        start + 1
    }
}

/// The offset of the first single quote at or after `at`, or the end.
pub open spec fn next_quote(bytes: Seq<u8>, at: int) -> int
    decreases bytes.len() - at,
{
    if 0 <= at < bytes.len() && bytes[at] != 39u8 {
        next_quote(bytes, at + 1)
    } else {
        at
    }
}

/// The number of bytes a character takes, given its leading byte.
pub open spec fn width_of(first: u8) -> int {
    if first <= 0x7f {
        1
    } else if 0xc0 <= first <= 0xdf {
        2
    } else if 0xe0 <= first <= 0xef {
        3
    } else {
        4
    }
}

/// The smaller of two offsets.
pub open spec fn earlier(left: int, right: int) -> int {
    if left <= right {
        left
    } else {
        right
    }
}

/// The offset just past the single quote at `start`, or past the character literal it opens.
pub open spec fn quoted_end(bytes: Seq<u8>, start: int) -> int {
    if start + 1 < bytes.len() && bytes[start + 1] == 92u8 {
        earlier(next_quote(bytes, start + 3) + 1, bytes.len() as int)
    } else {
        let width = if start + 1 < bytes.len() {
            width_of(bytes[start + 1])
        } else {
            1
        };
        if start + 1 + width < bytes.len() && bytes[start + 1 + width] == 39u8 {
            start + 2 + width
        } else {
            start + 1
        }
    }
}

/// The offset just past the literal that begins at `start`, if one does.
pub open spec fn literal_end_of(bytes: Seq<u8>, start: int) -> Option<int> {
    if start < 0 || start >= bytes.len() {
        None
    } else {
        let end = if bytes[start] == 34u8 {
            string_end_from(bytes, start + 1)
        } else if bytes[start] == 114u8 && start + 1 < bytes.len() && (bytes[start + 1] == 34u8 || bytes[start + 1]
            == 35u8) {
            raw_end(bytes, start)
        } else if bytes[start] == 39u8 {
            quoted_end(bytes, start)
        } else {
            start + 1
        };
        if end > start + 1 {
            Some(end)
        } else {
            None
        }
    }
}

/// Every end lies behind its beginning and within the text.
pub proof fn lemma_ends(bytes: Seq<u8>, at: int, depth: nat)
    requires
        0 <= at,
    ensures
        at <= bytes.len() ==> at <= line_end(bytes, at) <= bytes.len(),
        at <= bytes.len() ==> at <= block_end(bytes, at, depth) <= bytes.len(),
        at <= bytes.len() ==> at <= string_end_from(bytes, at) <= bytes.len(),
        string_end_from(bytes, at) <= bytes.len(),
        at <= next_quote(bytes, at),
        at <= bytes.len() ==> next_quote(bytes, at) <= bytes.len(),
        at <= bytes.len() ==> at + hashes_from(bytes, at) <= bytes.len(),
        at <= bytes.len() ==> at <= raw_end_from(bytes, at, depth) <= bytes.len(),
    decreases bytes.len() - at,
{
    if at < bytes.len() {
        lemma_ends(bytes, at + 1, depth);
        lemma_ends(bytes, at + 1, depth + 1);
        if at + 1 < bytes.len() {
            lemma_ends(bytes, at + 2, depth);
            lemma_ends(bytes, at + 2, depth + 1);
            if depth > 0 {
                lemma_ends(bytes, at + 2, (depth - 1) as nat);
            }
        }
    }
}

/// A literal ends behind its beginning and within the text.
pub proof fn lemma_literal_end(bytes: Seq<u8>, start: int)
    ensures
        literal_end_of(bytes, start) matches Some(end) ==> start + 1 < end <= bytes.len(),
{
    if 0 <= start < bytes.len() {
        lemma_ends(bytes, start + 1, 0);
        lemma_ends(bytes, start + 3, 0);
        let hashes = hashes_from(bytes, start + 1);
        if start + 1 + hashes < bytes.len() {
            lemma_ends(bytes, start + 2 + hashes, hashes);
        }
    }
}

/// Where the comments of a text lie, from `at` on.
///
/// A comment is found by its delimiter, and a literal is stepped over whole, so that what looks
/// like a comment inside one is not.
pub open spec fn spans_from(bytes: Seq<u8>, at: int) -> Seq<(int, int)>
    decreases bytes.len() - at,
{
    if at < 0 || at >= bytes.len() {
        Seq::empty()
    } else {
        proof {
            lemma_ends(bytes, at + 2, 1);
            lemma_literal_end(bytes, at);
        }
        if pair_at(bytes, at, 47u8, 47u8) {
            let end = line_end(bytes, at + 2);
            seq![(at, end)] + spans_from(bytes, end)
        } else if pair_at(bytes, at, 47u8, 42u8) {
            let end = block_end(bytes, at + 2, 1);
            seq![(at, end)] + spans_from(bytes, end)
        } else if let Some(end) = literal_end_of(bytes, at) {
            spans_from(bytes, end)
        } else {
            spans_from(bytes, at + 1)
        }
    }
}

// ---- Finding them. ----

/// The offset just past the end of a line comment.
pub(crate) fn line_comment_end(bytes: &[u8], start: usize) -> (r: usize)
    requires
        start + 2 <= bytes@.len(),
    ensures
        r == line_end(bytes@, start + 2),
        start + 2 <= r <= bytes@.len(),
{
    let size: usize = bytes.len();
    let mut at: usize = start + 2;
    while at < size && bytes[at] != 10u8
        invariant
            size == bytes@.len(),
            start + 2 <= at <= bytes@.len(),
            line_end(bytes@, at as int) == line_end(bytes@, start + 2),
        decreases bytes@.len() - at,
    {
        at += 1;
    }
    at
}

/// The offset of the end of the first line.
pub(crate) fn first_line_end(bytes: &[u8]) -> (r: usize)
    ensures
        r == line_end(bytes@, 0),
        r <= bytes@.len(),
{
    let size: usize = bytes.len();
    let mut at: usize = 0;
    while at < size && bytes[at] != 10u8
        invariant
            size == bytes@.len(),
            at <= bytes@.len(),
            line_end(bytes@, at as int) == line_end(bytes@, 0),
        decreases bytes@.len() - at,
    {
        at += 1;
    }
    at
}

/// Whether the two bytes at `at` are the given ones.
pub(crate) fn is_pair(bytes: &[u8], at: usize, first: u8, second: u8) -> (r: bool)
    requires
        at < bytes@.len(),
    ensures
        r == pair_at(bytes@, at as int, first, second),
{
    let size: usize = bytes.len();
    size - at > 1 && bytes[at] == first && bytes[at + 1] == second
}

/// The offset just past the end of a block comment, which may nest.
pub(crate) fn block_comment_end(bytes: &[u8], start: usize) -> (r: usize)
    requires
        start + 2 <= bytes@.len(),
    ensures
        r == block_end(bytes@, start + 2, 1),
        start + 2 <= r <= bytes@.len(),
{
    let size: usize = bytes.len();
    let mut at: usize = start + 2;
    let mut depth: usize = 1;
    proof {
        lemma_ends(bytes@, start + 2, 1);
    }
    while at < size
        invariant
            size == bytes@.len(),
            start + 2 <= at <= bytes@.len(),
            1 <= depth <= at,
            block_end(bytes@, at as int, depth as nat) == block_end(bytes@, start + 2, 1),
            start + 2 <= block_end(bytes@, start + 2, 1) <= bytes@.len(),
        decreases bytes@.len() - at,
    {
        if is_pair(bytes, at, 47u8, 42u8) {
            depth += 1;
            at += 2;
        } else if is_pair(bytes, at, 42u8, 47u8) {
            depth -= 1;
            at += 2;
            if depth == 0 {
                return at;
            }
        } else {
            at += 1;
        }
    }
    bytes.len()
}

/// The offset just past the end of the string literal at `start`.
pub fn string_end(bytes: &[u8], start: usize) -> (r: usize)
    requires
        start < bytes@.len(),
    ensures
        r == string_end_from(bytes@, start + 1),
        start < r <= bytes@.len(),
{
    let size: usize = bytes.len();
    let mut at: usize = start + 1;
    proof {
        lemma_ends(bytes@, start + 1, 0);
    }
    while at < size
        invariant
            start < at <= size,
            size == bytes@.len(),
            string_end_from(bytes@, at as int) == string_end_from(bytes@, start + 1),
            start < string_end_from(bytes@, start + 1) <= bytes@.len(),
        decreases bytes@.len() - at,
    {
        if bytes[at] == 92u8 {
            if size - at == 1 {
                proof {
                    assert(string_end_from(bytes@, at + 1) == size);
                }
                return size;
            }
            at += 2;
        } else if bytes[at] == 34u8 {
            return at + 1;
        } else {
            at += 1;
        }
    }
    size
}

/// How many `#` stand in a row from `at`.
fn hashes_at(bytes: &[u8], at: usize) -> (r: usize)
    requires
        at <= bytes@.len(),
    ensures
        r == hashes_from(bytes@, at as int),
        at + r <= bytes@.len(),
{
    let mut end: usize = at;
    while end < bytes.len() && bytes[end] == 35u8
        invariant
            at <= end <= bytes@.len(),
            (end - at) + hashes_from(bytes@, end as int) == hashes_from(bytes@, at as int),
        decreases bytes@.len() - end,
    {
        end += 1;
    }
    end - at
}

/// The offset just past the raw string literal at `start`.
pub fn raw_string_end(bytes: &[u8], start: usize) -> (r: usize)
    requires
        start < bytes@.len(),
    ensures
        r == raw_end(bytes@, start as int),
        start < r <= bytes@.len(),
{
    let size: usize = bytes.len();
    let hashes = hashes_at(bytes, start + 1);
    let quote: usize = start + 1 + hashes;
    if quote >= size || bytes[quote] != 34u8 {
        return start + 1;
    }
    let mut at: usize = quote + 1;
    proof {
        lemma_ends(bytes@, at as int, hashes as nat);
    }
    let ghost goal = raw_end_from(bytes@, at as int, hashes as nat);
    while at < size
        invariant
            size == bytes@.len(),
            start < at <= bytes@.len(),
            raw_end_from(bytes@, at as int, hashes as nat) == goal,
            start < goal <= bytes@.len(),
            goal == raw_end(bytes@, start as int),
        decreases bytes@.len() - at,
    {
        if bytes[at] == 34u8 && hashes_at(bytes, at + 1) >= hashes {
            return at + 1 + hashes;
        }
        at += 1;
    }
    bytes.len()
}

/// The number of bytes a character takes, given its leading byte.
pub fn utf8_width(first: u8) -> (r: usize)
    ensures
        r == width_of(first),
{
    if first <= 0x7f {
        1
    } else if 0xc0 <= first && first <= 0xdf {
        2
    } else if 0xe0 <= first && first <= 0xef {
        3
    } else {
        4
    }
}

/// The offset just past a single quote, which may open a character literal or a lifetime.
///
/// Treating the quote of a lifetime as an unterminated character literal would swallow the rest of
/// the file and lose every comment in it.
pub fn quote_end(bytes: &[u8], start: usize) -> (r: usize)
    requires
        start < bytes@.len(),
    ensures
        r == quoted_end(bytes@, start as int),
        start < r <= bytes@.len(),
{
    let size: usize = bytes.len();
    if size - start > 1 && bytes[start + 1] == 92u8 {
        if size - start <= 3 {
            proof {
                lemma_ends(bytes@, start + 3, 0);
            }
            return size;
        }
        let mut at: usize = start + 3;
        while at < size && bytes[at] != 39u8
            invariant
                start + 3 <= at <= bytes@.len(),
                size == bytes@.len(),
                next_quote(bytes@, at as int) == next_quote(bytes@, start + 3),
            decreases bytes@.len() - at,
        {
            at += 1;
        }
        return if at < size {
            at + 1
        } else {
            size
        };
    }
    let width: usize = if size - start > 1 {
        utf8_width(bytes[start + 1])
    } else {
        1
    };
    if size - start > 1 + width && bytes[start + 1 + width] == 39u8 {
        return start + 2 + width;
    }
    start + 1
}

/// The offset just past a literal that begins at `start`, or `None` for ordinary syntax.
pub fn literal_end(text: &str, start: usize) -> (r: Option<usize>)
    ensures
        r is Some <==> literal_end_of(encode_utf8(text@), start as int) is Some,
        r matches Some(end) ==> literal_end_of(encode_utf8(text@), start as int) == Some(end as int),
{
    let bytes = text.as_bytes();
    if start >= bytes.len() {
        return None;
    }
    let next_is = bytes.len() - start > 1;
    let end: usize = if bytes[start] == 34u8 {
        string_end(bytes, start)
    } else if bytes[start] == 114u8 && next_is && (bytes[start + 1] == 34u8 || bytes[start + 1] == 35u8) {
        raw_string_end(bytes, start)
    } else if bytes[start] == 39u8 {
        quote_end(bytes, start)
    } else {
        return None;
    };
    if end > start + 1 {
        Some(end)
    } else {
        None
    }
}

/// The offsets a range runs between.
pub open spec fn ends_of(ranges: Seq<Range<usize>>) -> Seq<(int, int)> {
    ranges.map_values(|range: Range<usize>| (range.start as int, range.end as int))
}

/// Locates comments while skipping comment-shaped text inside literals.
pub fn comment_spans(text: &str) -> (r: Vec<Range<usize>>)
    ensures
        ends_of(r@) == spans_from(encode_utf8(text@), 0),
{
    let bytes = text.as_bytes();
    let mut comments: Vec<Range<usize>> = Vec::new();
    let mut at: usize = 0;
    proof {
        assert(ends_of(comments@) + spans_from(bytes@, 0) =~= spans_from(bytes@, 0));
    }
    while at < bytes.len()
        invariant
            at <= bytes@.len(),
            bytes@ == encode_utf8(text@),
            ends_of(comments@) + spans_from(bytes@, at as int) == spans_from(bytes@, 0),
        decreases bytes@.len() - at,
    {
        let ghost found = ends_of(comments@);
        let comment: Option<usize> = if is_pair(bytes, at, 47u8, 47u8) {
            Some(line_comment_end(bytes, at))
        } else if is_pair(bytes, at, 47u8, 42u8) {
            Some(block_comment_end(bytes, at))
        } else {
            None
        };
        match comment {
            Some(end) => {
                comments.push(Range { start: at, end });
                proof {
                    assert(ends_of(comments@) =~= found.push((at as int, end as int)));
                    assert(ends_of(comments@) + spans_from(bytes@, end as int) =~= found + spans_from(
                        bytes@,
                        at as int,
                    ));
                }
                at = end;
            },
            None => {
                proof {
                    lemma_literal_end(bytes@, at as int);
                }
                match literal_end(text, at) {
                    Some(end) => {
                        at = end;
                    },
                    None => {
                        at += 1;
                    },
                }
            },
        }
    }
    proof {
        assert(ends_of(comments@) + spans_from(bytes@, at as int) =~= ends_of(comments@));
    }
    comments
}

// ---- Reading them. ----

/// What kind of comment a text with its delimiters is.
pub open spec fn kind_of(raw: Seq<char>) -> CommentKind {
    if begins(raw, "//"@) {
        if begins(raw, "//!"@) {
            CommentKind::InnerDoc
        } else if begins(raw, "///"@) && !begins(raw, "////"@) {
            CommentKind::OuterDoc
        } else {
            CommentKind::Line
        }
    } else if begins(raw, "/*!"@) {
        CommentKind::InnerDoc
    } else if begins(raw, "/**"@) && !begins(raw, "/**/"@) && !begins(raw, "/***"@) {
        CommentKind::OuterDoc
    } else {
        CommentKind::Block
    }
}

/// The text of a comment without its delimiters.
pub open spec fn inside(raw: Seq<char>) -> Seq<char> {
    strip_back(strip_back(strip_front(strip_front(strip_front(raw, '/'), '*'), '!'), '/'), '*')
}

/// The text of a comment without its delimiters, and without its first character where that is a space.
pub open spec fn body_of(raw: Seq<char>) -> Seq<char> {
    match without_first(inside(raw), ' ') {
        Some(rest) => rest,
        None => inside(raw),
    }
}

/// Whether a record says what there is to say of the comment at `span`.
pub open spec fn describes(comment: Comment, text: Seq<char>, span: (int, int)) -> bool {
    let starts = starts_of(encode_utf8(text));
    let raw = slice(text, span.0, span.1);
    let index = line_index(starts, span.0);
    &&& comment.span.start == span.0
    &&& comment.span.end == span.1
    &&& comment.kind == kind_of(raw)
    &&& comment.body@ == body_of(raw)
    &&& comment.line == index + 1
    &&& comment.trailing == (trim(slice(text, starts[index], span.0)).len() > 0)
}

/// Whether records describe the comments of a text, in order.
pub open spec fn are_comments_of(comments: Seq<Comment>, text: Seq<char>) -> bool {
    let spans = spans_from(encode_utf8(text), 0);
    &&& comments.len() == spans.len()
    &&& forall|i: int| 0 <= i < comments.len() ==> describes(#[trigger] comments[i], text, spans[i])
}

/// Classifies a line comment.
fn line_comment_kind(raw: &str) -> (r: CommentKind)
    requires
        begins(raw@, "//"@),
    ensures
        r == kind_of(raw@),
{
    if text::starts_with(raw, "//!") {
        CommentKind::InnerDoc
    } else if text::starts_with(raw, "///") && !text::starts_with(raw, "////") {
        CommentKind::OuterDoc
    } else {
        CommentKind::Line
    }
}

/// Classifies a block comment.
fn block_comment_kind(raw: &str) -> (r: CommentKind)
    requires
        !begins(raw@, "//"@),
    ensures
        r == kind_of(raw@),
{
    if text::starts_with(raw, "/*!") {
        CommentKind::InnerDoc
    } else if text::starts_with(raw, "/**") && !text::starts_with(raw, "/**/") && !text::starts_with(raw, "/***") {
        CommentKind::OuterDoc
    } else {
        CommentKind::Block
    }
}

/// Whether a text holds anything but white space.
fn is_blank(text: &str) -> (r: bool)
    ensures
        r == (trim(text@).len() == 0),
{
    let chars = text::characters(text);
    let (lo, hi) = text::trimmed_ends(&chars, 0, chars.len());
    proof {
        assert(chars@.subrange(0, chars@.len() as int) =~= chars@);
    }
    lo == hi
}

/// The text of a comment without its delimiters and one leading space.
fn stripped(raw: &str) -> (r: String)
    ensures
        r@ == body_of(raw@),
{
    let chars = text::characters(raw);
    let size: usize = chars.len();
    proof {
        assert(chars@.subrange(0, size as int) =~= chars@);
    }
    let slashes = text::past_front(&chars, 0, size, '/');
    let stars = text::past_front(&chars, slashes, size, '*');
    let from = text::past_front(&chars, stars, size, '!');
    let closed = text::before_back(&chars, from, size, '/');
    let to = text::before_back(&chars, from, closed, '*');
    let ghost whole = chars@.subrange(from as int, to as int);
    if from < to && chars[from] == ' ' {
        proof {
            assert(whole.drop_first() =~= chars@.subrange(from + 1, to as int));
            assert(whole.skip(1) =~= chars@.subrange(from + 1, to as int));
        }
        return raw.substring_char(from + 1, to).to_owned();
    }
    raw.substring_char(from, to).to_owned()
}

/// Builds a comment record, stripping delimiters and working out whether it trails code.
fn build_comment(raw: &str, span: Range<usize>, text: &str, starts: &Vec<usize>) -> (r: Comment)
    requires
        raw@ == slice(text@, span.start as int, span.end as int),
        offsets(starts@) == starts_of(encode_utf8(text@)),
        byte_len(text@) < usize::MAX,
    ensures
        describes(r, text@, (span.start as int, span.end as int)),
{
    proof {
        lines::lemma_starts(encode_utf8(text@));
        assert(starts@.len() == offsets(starts@).len());
    }
    let kind = if text::starts_with(raw, "//") {
        line_comment_kind(raw)
    } else {
        block_comment_kind(raw)
    };
    let index = lines::index_of(starts, span.start);
    proof {
        assert(offsets(starts@)[index as int] == starts@[index as int]);
    }
    let before = text::between(text, starts[index], span.start);
    let trailing = !is_blank(before);
    Comment { kind, body: stripped(raw), line: index + 1, trailing, span }
}

/// Scans source text for comments, skipping over anything inside a string or character literal.
pub fn scan_comments(text: &str, starts: &Vec<usize>) -> (r: Vec<Comment>)
    requires
        offsets(starts@) == starts_of(encode_utf8(text@)),
        byte_len(text@) < usize::MAX,
    ensures
        are_comments_of(r@, text@),
{
    let spans = comment_spans(text);
    let ghost all = spans_from(encode_utf8(text@), 0);
    proof {
        assert(all.len() == spans@.len());
    }
    let mut comments: Vec<Comment> = Vec::new();
    let mut at: usize = 0;
    while at < spans.len()
        invariant
            at <= spans@.len(),
            offsets(starts@) == starts_of(encode_utf8(text@)),
            byte_len(text@) < usize::MAX,
            ends_of(spans@) == all,
            all == spans_from(encode_utf8(text@), 0),
            all.len() == spans@.len(),
            comments@.len() == at,
            forall|i: int| 0 <= i < at ==> describes(#[trigger] comments@[i], text@, all[i]),
        decreases spans@.len() - at,
    {
        let span = Range { start: spans[at].start, end: spans[at].end };
        proof {
            assert(all[at as int] == (span.start as int, span.end as int));
        }
        let raw = text::between(text, span.start, span.end);
        comments.push(build_comment(raw, span, text, starts));
        at += 1;
    }
    comments
}

// ---- What every scan promises. ----

/// A byte that stands for itself is followed by the beginning of a character.
proof fn lemma_cut_behind_ascii(bytes: Seq<u8>, at: int)
    requires
        valid_utf8(bytes),
        0 <= at < bytes.len(),
        bytes[at] <= 0x7f,
    ensures
        is_char_boundary(bytes, at),
        is_char_boundary(bytes, at + 1),
    decreases bytes.len(),
{
    is_char_boundary_iff_not_is_continuation_byte(bytes, at);
    let first = length_of_first_scalar(bytes);
    if at == 0 {
        reveal_with_fuel(is_char_boundary, 2);
    } else {
        reveal_with_fuel(is_char_boundary, 2);
        let rest = pop_first_scalar(bytes);
        if at < first {
            assert(is_char_boundary(bytes, at));
            assert(false);
        }
        assert(rest[at - first] == bytes[at]);
        lemma_cut_behind_ascii(rest, at - first);
    }
}

/// A line comment ends between two characters.
proof fn lemma_line_end_cut(bytes: Seq<u8>, at: int)
    requires
        valid_utf8(bytes),
        0 <= at <= bytes.len(),
    ensures
        is_char_boundary(bytes, line_end(bytes, at)),
    decreases bytes.len() - at,
{
    if at < bytes.len() && bytes[at] != 10u8 {
        lemma_line_end_cut(bytes, at + 1);
    } else if at < bytes.len() {
        lemma_cut_behind_ascii(bytes, at);
    } else {
        is_char_boundary_start_end_of_seq(bytes);
    }
}

/// The first line of a text ends between two characters.
pub proof fn lemma_first_line_cut(text: Seq<char>)
    ensures
        0 <= line_end(encode_utf8(text), 0) <= byte_len(text),
        sliceable(text, line_end(encode_utf8(text), 0), byte_len(text)),
{
    let bytes = encode_utf8(text);
    encode_utf8_valid_utf8(text);
    lemma_ends(bytes, 0, 0);
    lemma_line_end_cut(bytes, 0);
    is_char_boundary_start_end_of_seq(bytes);
}

/// A block comment ends between two characters.
proof fn lemma_block_end_cut(bytes: Seq<u8>, at: int, depth: nat)
    requires
        valid_utf8(bytes),
        0 <= at <= bytes.len(),
    ensures
        is_char_boundary(bytes, block_end(bytes, at, depth)),
    decreases bytes.len() - at,
{
    is_char_boundary_start_end_of_seq(bytes);
    if at < bytes.len() {
        if pair_at(bytes, at, 47u8, 42u8) {
            lemma_block_end_cut(bytes, at + 2, depth + 1);
        } else if pair_at(bytes, at, 42u8, 47u8) {
            lemma_cut_behind_ascii(bytes, at + 1);
            if depth > 1 {
                lemma_block_end_cut(bytes, at + 2, (depth - 1) as nat);
            }
        } else {
            lemma_block_end_cut(bytes, at + 1, depth);
        }
    }
}

/// Whether spans come in order from `at` on, none overlapping another, each a region that can be
/// read.
pub open spec fn spans_in_order(bytes: Seq<u8>, spans: Seq<(int, int)>, at: int) -> bool {
    &&& forall|i: int|
        0 <= i < spans.len() ==> {
            &&& at <= (#[trigger] spans[i]).0 < spans[i].1 <= bytes.len()
            &&& is_char_boundary(bytes, spans[i].0)
            &&& is_char_boundary(bytes, spans[i].1)
        }
    &&& forall|i: int, j: int| 0 <= i < j < spans.len() ==> (#[trigger] spans[i]).1 <= (#[trigger] spans[j]).0
}

proof fn lemma_spans_in_order(bytes: Seq<u8>, at: int)
    requires
        valid_utf8(bytes),
        0 <= at,
    ensures
        spans_in_order(bytes, spans_from(bytes, at), at),
    decreases bytes.len() - at,
{
    if at < bytes.len() {
        lemma_ends(bytes, at + 2, 1);
        lemma_literal_end(bytes, at);
        let spans = spans_from(bytes, at);
        if pair_at(bytes, at, 47u8, 47u8) {
            let end = line_end(bytes, at + 2);
            lemma_line_end_cut(bytes, at + 2);
            lemma_cut_behind_ascii(bytes, at);
            lemma_spans_in_order(bytes, end);
            lemma_first_span(bytes, spans_from(bytes, end), at, end);
        } else if pair_at(bytes, at, 47u8, 42u8) {
            let end = block_end(bytes, at + 2, 1);
            lemma_block_end_cut(bytes, at + 2, 1);
            lemma_cut_behind_ascii(bytes, at);
            lemma_spans_in_order(bytes, end);
            lemma_first_span(bytes, spans_from(bytes, end), at, end);
        } else if let Some(end) = literal_end_of(bytes, at) {
            lemma_spans_in_order(bytes, end);
        } else {
            lemma_spans_in_order(bytes, at + 1);
        }
    }
}

proof fn lemma_first_span(bytes: Seq<u8>, rest: Seq<(int, int)>, at: int, end: int)
    requires
        0 <= at < end <= bytes.len(),
        is_char_boundary(bytes, at),
        is_char_boundary(bytes, end),
        spans_in_order(bytes, rest, end),
    ensures
        spans_in_order(bytes, seq![(at, end)] + rest, at),
{
    let spans = seq![(at, end)] + rest;
    assert forall|i: int| 0 <= i < spans.len() implies {
        &&& at <= (#[trigger] spans[i]).0 < spans[i].1 <= bytes.len()
        &&& is_char_boundary(bytes, spans[i].0)
        &&& is_char_boundary(bytes, spans[i].1)
    } by {
        if i > 0 {
            assert(spans[i] == rest[i - 1]);
        }
    }
    assert forall|i: int, j: int| 0 <= i < j < spans.len() implies (#[trigger] spans[i]).1 <= (
    #[trigger] spans[j]).0 by {
        assert(spans[j] == rest[j - 1]);
        if i > 0 {
            assert(spans[i] == rest[i - 1]);
        }
    }
}

/// Comments come back in source order and do not overlap, and each is a region of the text.
pub proof fn law_comments_exist_in_order(comments: Seq<Comment>, text: Seq<char>)
    requires
        are_comments_of(comments, text),
    ensures
        forall|i: int|
            0 <= i < comments.len() ==> sliceable(
                text,
                (#[trigger] comments[i]).span.start as int,
                comments[i].span.end as int,
            ) && comments[i].span.start < comments[i].span.end,
        forall|i: int, j: int|
            0 <= i < j < comments.len() ==> (#[trigger] comments[i]).span.end <= (#[trigger] comments[j]).span.start,
{
    let bytes = encode_utf8(text);
    encode_utf8_valid_utf8(text);
    lemma_spans_in_order(bytes, 0);
    let spans = spans_from(bytes, 0);
    assert forall|i: int| 0 <= i < comments.len() implies sliceable(
        text,
        (#[trigger] comments[i]).span.start as int,
        comments[i].span.end as int,
    ) && comments[i].span.start < comments[i].span.end by {
        assert(describes(comments[i], text, spans[i]));
    }
    assert forall|i: int, j: int| 0 <= i < j < comments.len() implies (#[trigger] comments[i]).span.end <= (
    #[trigger] comments[j]).span.start by {
        assert(describes(comments[i], text, spans[i]));
        assert(describes(comments[j], text, spans[j]));
    }
}

proof fn lemma_no_delimiter(bytes: Seq<u8>, at: int)
    requires
        forall|i: int| 0 <= i < bytes.len() ==> bytes[i] != 47u8,
        0 <= at,
    ensures
        spans_from(bytes, at).len() == 0,
    decreases bytes.len() - at,
{
    if at < bytes.len() {
        lemma_literal_end(bytes, at);
        if let Some(end) = literal_end_of(bytes, at) {
            lemma_no_delimiter(bytes, end);
        } else {
            lemma_no_delimiter(bytes, at + 1);
        }
    }
}

/// A text with no slash in it has no comments, whatever quoting it holds.
pub proof fn law_no_delimiter_means_no_comment(comments: Seq<Comment>, text: Seq<char>)
    requires
        are_comments_of(comments, text),
        forall|i: int| 0 <= i < byte_len(text) ==> #[trigger] encode_utf8(text)[i] != 47u8,
    ensures
        comments.len() == 0,
{
    lemma_no_delimiter(encode_utf8(text), 0);
}

} // verus!
