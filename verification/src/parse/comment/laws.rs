//! What a scan for comments promises of each of them.
use super::{
    are_comments_of, block_end, body_of, describes, inside, kind_of, law_comments_exist_in_order, lemma_ends, lemma_literal_end,
    line_end, literal_end_of, pair_at, spans_from, string_end_from, Comment, CommentKind,
};
use crate::parse::lines;
use crate::text;
use crate::text::{begins, breaks, byte_len, is_white, slice, strip_back, strip_front, tail, trim};
use vstd::prelude::*;
use vstd::utf8::*;

verus! {

/// The text of a comment, with its delimiters.
pub open spec fn raw_of(comment: Comment, text: Seq<char>) -> Seq<char> {
    slice(text, comment.span.start as int, comment.span.end as int)
}

// ---- Bodies. ----

/// Whether the characters of a text between two indices are all the given one.
pub open spec fn run_of(text: Seq<char>, from: int, to: int, c: char) -> bool {
    forall|i: int| from <= i < to ==> #[trigger] text[i] == c
}

/// Whether a comment's delimiters end at `from` and begin again at `to`: slashes, stars and exclamation
/// marks in front, stars and slashes behind, all of them and nothing else.
pub open spec fn is_framed(raw: Seq<char>, slashes: int, stars: int, from: int, to: int, closed: int) -> bool {
    &&& 0 <= slashes <= stars <= from <= to <= closed <= raw.len()
    &&& run_of(raw, 0, slashes, '/')
    &&& run_of(raw, slashes, stars, '*')
    &&& run_of(raw, stars, from, '!')
    &&& slashes < raw.len() ==> raw[slashes] != '/'
    &&& stars < raw.len() ==> raw[stars] != '*'
    &&& from < raw.len() ==> raw[from] != '!'
    &&& run_of(raw, to, closed, '*')
    &&& run_of(raw, closed, raw.len() as int, '/')
    &&& from < closed ==> raw[closed - 1] != '/'
    &&& from < to ==> raw[to - 1] != '*'
}

/// Whether a body is what is between the delimiters, but for one space in front.
pub open spec fn is_between(raw: Seq<char>, body: Seq<char>, from: int, to: int) -> bool {
    if from < to && raw[from] == ' ' {
        body == raw.subrange(from + 1, to)
    } else {
        body == raw.subrange(from, to)
    }
}

proof fn lemma_strip_front(text: Seq<char>, c: char) -> (n: int)
    ensures
        0 <= n <= text.len(),
        strip_front(text, c) == text.skip(n),
        run_of(text, 0, n, c),
        n < text.len() ==> text[n] != c,
    decreases text.len(),
{
    if text.len() > 0 && text[0] == c {
        let rest = text.drop_first();
        let m = lemma_strip_front(rest, c);
        assert(rest.skip(m) =~= text.skip(m + 1));
        assert forall|i: int| 0 <= i < m + 1 implies #[trigger] text[i] == c by {
            if i > 0 {
                assert(rest[i - 1] == text[i]);
            }
        }
        if m < rest.len() {
            assert(rest[m] == text[m + 1]);
        }
        m + 1
    } else {
        assert(text.skip(0) =~= text);
        0
    }
}

proof fn lemma_strip_back(text: Seq<char>, c: char) -> (n: int)
    ensures
        0 <= n <= text.len(),
        strip_back(text, c) == text.take(n),
        run_of(text, n, text.len() as int, c),
        n > 0 ==> text[n - 1] != c,
    decreases text.len(),
{
    if text.len() > 0 && text.last() == c {
        let rest = text.drop_last();
        let n = lemma_strip_back(rest, c);
        assert(rest.take(n) =~= text.take(n));
        assert forall|i: int| n <= i < text.len() implies #[trigger] text[i] == c by {
            if i < rest.len() {
                assert(rest[i] == text[i]);
            }
        }
        if n > 0 {
            assert(rest[n - 1] == text[n - 1]);
        }
        n
    } else {
        assert(text.take(text.len() as int) =~= text);
        text.len() as int
    }
}

proof fn lemma_body(raw: Seq<char>)
    ensures
        exists|slashes: int, stars: int, from: int, to: int, closed: int| #[trigger]
            is_framed(raw, slashes, stars, from, to, closed) && is_between(raw, body_of(raw), from, to),
{
    let a = lemma_strip_front(raw, '/');
    let one = strip_front(raw, '/');
    let b = lemma_strip_front(one, '*');
    let two = strip_front(one, '*');
    let c = lemma_strip_front(two, '!');
    let three = strip_front(two, '!');
    let d = lemma_strip_back(three, '/');
    let four = strip_back(three, '/');
    let e = lemma_strip_back(four, '*');
    let five = strip_back(four, '*');
    let (slashes, stars, from) = (a, a + b, a + b + c);
    let (to, closed) = (from + e, from + d);
    assert(three =~= raw.skip(from));
    assert(two =~= raw.skip(stars));
    assert(five =~= raw.subrange(from, to));
    assert(inside(raw) == five);
    assert forall|i: int| slashes <= i < stars implies #[trigger] raw[i] == '*' by {
        assert(one[i - slashes] == raw[i]);
    }
    assert forall|i: int| stars <= i < from implies #[trigger] raw[i] == '!' by {
        assert(two[i - stars] == raw[i]);
    }
    assert forall|i: int| closed <= i < raw.len() implies #[trigger] raw[i] == '/' by {
        assert(three[i - from] == raw[i]);
    }
    assert forall|i: int| to <= i < closed implies #[trigger] raw[i] == '*' by {
        assert(four[i - from] == raw[i]);
    }
    if stars < raw.len() {
        assert(one[b] == raw[stars]);
    }
    if from < raw.len() {
        assert(two[c] == raw[from]);
    }
    if from < closed {
        assert(three[d - 1] == raw[closed - 1]);
    }
    if from < to {
        assert(four[e - 1] == raw[to - 1]);
        assert(five[0] == raw[from]);
        assert(five.drop_first() =~= raw.subrange(from + 1, to));
    }
    assert(is_framed(raw, slashes, stars, from, to, closed));
    assert(is_between(raw, body_of(raw), from, to));
}

/// The body of a comment is all that is between its delimiters, but for one space in front.
pub proof fn law_a_body_is_what_is_between_the_delimiters(comments: Seq<Comment>, text: Seq<char>, i: int)
    requires
        are_comments_of(comments, text),
        0 <= i < comments.len(),
    ensures
        exists|slashes: int, stars: int, from: int, to: int, closed: int| #[trigger]
            is_framed(raw_of(comments[i], text), slashes, stars, from, to, closed) && is_between(
                raw_of(comments[i], text),
                comments[i].body@,
                from,
                to,
            ),
{
    assert(describes(comments[i], text, spans_from(encode_utf8(text), 0)[i]));
    lemma_body(raw_of(comments[i], text));
}

/// Whether there is nothing but delimiters and white space in a text.
pub open spec fn is_idle(text: Seq<char>) -> bool {
    forall|i: int| 0 <= i < text.len() ==> #[trigger] text[i] == '/' || text[i] == '*' || text[i] == '!' || is_white(text[i])
}

/// Whether a text is a comment's text without delimiters and white space at its ends.
pub open spec fn is_core(raw: Seq<char>, core: Seq<char>) -> bool {
    exists|front: Seq<char>, back: Seq<char>| is_idle(front) && is_idle(back) && raw == #[trigger] (front + core + back)
}

proof fn lemma_core(raw: Seq<char>, body: Seq<char>, slashes: int, stars: int, from: int, to: int, closed: int)
    requires
        is_framed(raw, slashes, stars, from, to, closed),
        is_between(raw, body, from, to),
    ensures
        is_core(raw, body),
{
    let start = if from < to && raw[from] == ' ' {
        from + 1
    } else {
        from
    };
    let front = raw.take(start);
    let back = raw.skip(to);
    assert(raw =~= front + body + back);
    assert(is_white(' '));
    assert forall|k: int| 0 <= k < front.len() implies #[trigger] front[k] == '/' || front[k] == '*' || front[k] == '!' || is_white(front[k]) by {
        assert(front[k] == raw[k]);
    }
    assert forall|k: int| 0 <= k < back.len() implies #[trigger] back[k] == '/' || back[k] == '*' || back[k] == '!' || is_white(back[k]) by {
        assert(back[k] == raw[to + k]);
    }
    assert(is_idle(front) && is_idle(back));
}

proof fn lemma_core_of_core(raw: Seq<char>, body: Seq<char>)
    requires
        is_core(raw, body),
    ensures
        is_core(raw, trim(body)),
{
    let (front, back) = choose|front: Seq<char>, back: Seq<char>| is_idle(front) && is_idle(back) && raw == #[trigger] (front + body + back);
    text::law_trimming_takes_the_white_space_at_the_ends(body);
    let core = trim(body);
    let (more, last) = choose|more: Seq<char>, last: Seq<char>|
        body == #[trigger] (more + core + last) && (forall|i: int| 0 <= i < more.len() ==> is_white(#[trigger] more[i])) && (forall|i: int|
            0 <= i < last.len() ==> is_white(#[trigger] last[i]));
    let (one, two) = (front + more, last + back);
    assert(raw =~= one + core + two);
    assert forall|k: int| 0 <= k < one.len() implies #[trigger] one[k] == '/' || one[k] == '*' || one[k] == '!' || is_white(one[k]) by {
        if k < front.len() {
            assert(one[k] == front[k]);
        } else {
            assert(one[k] == more[k - front.len()]);
        }
    }
    assert forall|k: int| 0 <= k < two.len() implies #[trigger] two[k] == '/' || two[k] == '*' || two[k] == '!' || is_white(two[k]) by {
        if k < last.len() {
            assert(two[k] == last[k]);
        } else {
            assert(two[k] == back[k - last.len()]);
        }
    }
    assert(is_idle(one) && is_idle(two));
}

/// Nothing that is written in a comment is lost: what its text has in front of its body and behind it is
/// delimiters and white space, also where the body is trimmed.
pub proof fn law_nothing_written_in_a_comment_is_lost(comments: Seq<Comment>, text: Seq<char>, i: int)
    requires
        are_comments_of(comments, text),
        0 <= i < comments.len(),
    ensures
        is_core(raw_of(comments[i], text), comments[i].body@),
        is_core(raw_of(comments[i], text), trim(comments[i].body@)),
{
    law_a_body_is_what_is_between_the_delimiters(comments, text, i);
    let raw = raw_of(comments[i], text);
    let body = comments[i].body@;
    let (slashes, stars, from, to, closed) = choose|slashes: int, stars: int, from: int, to: int, closed: int| #[trigger]
        is_framed(raw, slashes, stars, from, to, closed) && is_between(raw, body, from, to);
    lemma_core(raw, body, slashes, stars, from, to, closed);
    lemma_core_of_core(raw, body);
}

// ---- Kinds. ----

/// The character at an index, if there is one.
pub open spec fn at(text: Seq<char>, i: int) -> Option<char> {
    if 0 <= i < text.len() {
        Some(text[i])
    } else {
        None
    }
}

proof fn lemma_begins(text: Seq<char>, part: Seq<char>)
    ensures
        begins(text, part) <==> part.len() <= text.len() && forall|i: int| 0 <= i < part.len() ==> text[i] == #[trigger] part[i],
{
    if begins(text, part) {
        assert forall|i: int| 0 <= i < part.len() implies text[i] == #[trigger] part[i] by {
            assert(text.take(part.len() as int)[i] == text[i]);
        }
    } else if part.len() <= text.len() && forall|i: int| 0 <= i < part.len() ==> text[i] == #[trigger] part[i] {
        assert(text.take(part.len() as int) =~= part);
    }
}

/// What kind of comment it is shows in what it begins with.
///
/// Behind two slashes an exclamation mark documents what encloses it, and one more slash, but not two,
/// what follows it. Behind a slash and a star an exclamation mark does so, and one more star, but
/// neither two nor one that closes the comment.
pub proof fn law_the_kind_shows_in_the_delimiter(raw: Seq<char>)
    ensures
        at(raw, 0) == Some('/') && at(raw, 1) == Some('/') ==> {
            &&& kind_of(raw) == CommentKind::InnerDoc <==> at(raw, 2) == Some('!')
            &&& kind_of(raw) == CommentKind::OuterDoc <==> at(raw, 2) == Some('/') && at(raw, 3) != Some('/')
            &&& kind_of(raw) == CommentKind::Line <==> at(raw, 2) != Some('!') && (at(raw, 2) == Some('/') ==> at(raw, 3) == Some('/'))
        },
        at(raw, 0) == Some('/') && at(raw, 1) == Some('*') ==> {
            &&& kind_of(raw) == CommentKind::InnerDoc <==> at(raw, 2) == Some('!')
            &&& kind_of(raw) == CommentKind::OuterDoc <==> at(raw, 2) == Some('*') && at(raw, 3) != Some('*') && at(raw, 3) != Some('/')
            &&& kind_of(raw) != CommentKind::Line
        },
{
    reveal_strlit("//");
    reveal_strlit("//!");
    reveal_strlit("///");
    reveal_strlit("////");
    reveal_strlit("/*!");
    reveal_strlit("/**");
    reveal_strlit("/**/");
    reveal_strlit("/***");
    lemma_begins_2(raw, "//"@);
    lemma_begins_3(raw, "//!"@);
    lemma_begins_3(raw, "///"@);
    lemma_begins_4(raw, "////"@);
    lemma_begins_3(raw, "/*!"@);
    lemma_begins_3(raw, "/**"@);
    lemma_begins_4(raw, "/**/"@);
    lemma_begins_4(raw, "/***"@);
}

proof fn lemma_begins_2(text: Seq<char>, part: Seq<char>)
    requires
        part.len() == 2,
    ensures
        begins(text, part) <==> at(text, 0) == Some(part[0]) && at(text, 1) == Some(part[1]),
{
    lemma_begins(text, part);
}

proof fn lemma_begins_3(text: Seq<char>, part: Seq<char>)
    requires
        part.len() == 3,
    ensures
        begins(text, part) <==> at(text, 0) == Some(part[0]) && at(text, 1) == Some(part[1]) && at(text, 2) == Some(part[2]),
{
    lemma_begins(text, part);
}

proof fn lemma_begins_4(text: Seq<char>, part: Seq<char>)
    requires
        part.len() == 4,
    ensures
        begins(text, part) <==> at(text, 0) == Some(part[0]) && at(text, 1) == Some(part[1]) && at(text, 2) == Some(part[2]) && at(text, 3)
            == Some(part[3]),
{
    lemma_begins(text, part);
}

/// Each comment has the kind of its text.
pub proof fn law_a_comment_has_the_kind_of_its_text(comments: Seq<Comment>, text: Seq<char>, i: int)
    requires
        are_comments_of(comments, text),
        0 <= i < comments.len(),
    ensures
        comments[i].kind == kind_of(raw_of(comments[i], text)),
{
    assert(describes(comments[i], text, spans_from(encode_utf8(text), 0)[i]));
}

// ---- Places. ----

/// A comment is on the line whose number is one more than the line breaks in front of it, and trails
/// code where there is more than white space in front of it there.
pub proof fn law_a_comment_is_placed_by_what_is_in_front_of_it(comments: Seq<Comment>, text: Seq<char>, i: int)
    requires
        are_comments_of(comments, text),
        0 <= i < comments.len(),
    ensures
        ({
            let front = slice(text, 0, comments[i].span.start as int);
            &&& comments[i].line == breaks(front) + 1
            &&& comments[i].trailing <==> exists|k: int|
                0 <= k < front.len() && !is_white(#[trigger] front[k]) && (forall|j: int| k <= j < front.len() ==> #[trigger] front[j] != '\n')
        }),
{
    law_comments_exist_in_order(comments, text);
    let start = comments[i].span.start as int;
    let end = comments[i].span.end as int;
    let size = byte_len(text);
    let front = slice(text, 0, start);
    text::lemma_slice_whole(text);
    text::lemma_slice_join(text, 0, start, size);
    text::lemma_slice_bytes(text, 0, start);
    text::lemma_slice_bytes(text, start, size);
    let k = front.len() as int;
    let rest = slice(text, start, size);
    if rest.len() == 0 {
        assert(rest =~= Seq::<char>::empty());
        assert(encode_utf8(rest).len() == 0);
    }
    assert(text == front + rest);
    assert(text.take(k) =~= front);
    lines::lemma_line_walked(text, k);
    assert(describes(comments[i], text, spans_from(encode_utf8(text), 0)[i]));
    let line = front.skip(k - tail(front));
    lemma_tail(front);
    text::law_trimming_takes_the_white_space_at_the_ends(line);
    let core = trim(line);
    let (more, last) = choose|more: Seq<char>, last: Seq<char>|
        line == #[trigger] (more + core + last) && (forall|i: int| 0 <= i < more.len() ==> is_white(#[trigger] more[i])) && (forall|i: int|
            0 <= i < last.len() ==> is_white(#[trigger] last[i]));
    if core.len() > 0 {
        let at = k - tail(front) + more.len();
        assert(line[more.len() as int] == core[0]);
        assert(front[at] == line[more.len() as int]);
        assert(!is_white(front[at]));
        assert forall|j: int| at <= j < front.len() implies #[trigger] front[j] != '\n' by {}
    }
    if exists|k: int|
        0 <= k < front.len() && !is_white(#[trigger] front[k]) && (forall|j: int| k <= j < front.len() ==> #[trigger] front[j] != '\n') {
        let at = choose|k: int|
            0 <= k < front.len() && !is_white(#[trigger] front[k]) && (forall|j: int| k <= j < front.len() ==> #[trigger] front[j] != '\n');
        if at < k - tail(front) {
            assert(front[k - tail(front) - 1] == '\n');
        }
        let n = at - (k - tail(front));
        assert(line[n] == front[at]);
        if core.len() == 0 {
            if n < more.len() {
                assert(line[n] == more[n]);
            } else {
                assert(line[n] == last[n - more.len()]);
            }
        }
    }
}

/// What is behind the last line break is counted.
proof fn lemma_tail(text: Seq<char>)
    ensures
        tail(text) <= text.len(),
        forall|i: int| text.len() - tail(text) <= i < text.len() ==> #[trigger] text[i] != '\n',
        tail(text) < text.len() ==> text[text.len() - tail(text) - 1] == '\n',
    decreases text.len(),
{
    if text.len() > 0 && text.last() != '\n' {
        let front = text.drop_last();
        lemma_tail(front);
        assert forall|i: int| text.len() - tail(text) <= i < text.len() implies #[trigger] text[i] != '\n' by {
            if i < front.len() {
                assert(front[i] == text[i]);
            }
        }
        if tail(text) < text.len() {
            assert(front[front.len() - tail(front) - 1] == text[text.len() - tail(text) - 1]);
        }
    }
}

// ---- Extents. ----

proof fn lemma_line_end(bytes: Seq<u8>, at: int)
    requires
        0 <= at <= bytes.len(),
    ensures
        at <= line_end(bytes, at) <= bytes.len(),
        forall|i: int| at <= i < line_end(bytes, at) ==> #[trigger] bytes[i] != 10u8,
        line_end(bytes, at) < bytes.len() ==> bytes[line_end(bytes, at)] == 10u8,
    decreases bytes.len() - at,
{
    if at < bytes.len() && bytes[at] != 10u8 {
        lemma_line_end(bytes, at + 1);
    }
}

proof fn lemma_block_end(bytes: Seq<u8>, at: int, depth: nat)
    requires
        0 <= at <= bytes.len(),
    ensures
        at <= block_end(bytes, at, depth) <= bytes.len(),
        block_end(bytes, at, depth) == bytes.len() || {
            let end = block_end(bytes, at, depth);
            at + 2 <= end && bytes[end - 2] == 42u8 && bytes[end - 1] == 47u8
        },
    decreases bytes.len() - at,
{
    lemma_ends(bytes, at, depth);
    if at < bytes.len() {
        if pair_at(bytes, at, 47u8, 42u8) {
            lemma_block_end(bytes, at + 2, depth + 1);
        } else if pair_at(bytes, at, 42u8, 47u8) {
            if depth > 1 {
                lemma_block_end(bytes, at + 2, (depth - 1) as nat);
            }
        } else {
            lemma_block_end(bytes, at + 1, depth);
        }
    }
}

/// Whether a span is that of a comment: from two slashes up to the end of the line, or from a slash and a
/// star up to a star and a slash or the end of the text.
pub open spec fn is_extent(bytes: Seq<u8>, start: int, end: int) -> bool {
    &&& 0 <= start && start + 2 <= end <= bytes.len()
    &&& bytes[start] == 47u8
    &&& bytes[start + 1] == 47u8 || bytes[start + 1] == 42u8
    &&& bytes[start + 1] == 47u8 ==> {
        &&& forall|i: int| start <= i < end ==> #[trigger] bytes[i] != 10u8
        &&& end < bytes.len() ==> bytes[end] == 10u8
    }
    &&& bytes[start + 1] == 42u8 ==> end == bytes.len() || end >= start + 4 && bytes[end - 2] == 42u8 && bytes[end - 1] == 47u8
}

proof fn lemma_extents(bytes: Seq<u8>, from: int)
    requires
        0 <= from,
    ensures
        forall|i: int| 0 <= i < spans_from(bytes, from).len() ==> is_extent(
            bytes,
            (#[trigger] spans_from(bytes, from)[i]).0,
            spans_from(bytes, from)[i].1,
        ),
    decreases bytes.len() - from,
{
    if from < bytes.len() {
        lemma_ends(bytes, from + 2, 1);
        lemma_literal_end(bytes, from);
        let spans = spans_from(bytes, from);
        if pair_at(bytes, from, 47u8, 47u8) {
            let end = line_end(bytes, from + 2);
            lemma_line_end(bytes, from + 2);
            lemma_extents(bytes, end);
            let rest = spans_from(bytes, end);
            assert(spans == seq![(from, end)] + rest);
            assert forall|i: int| 0 <= i < spans.len() implies is_extent(bytes, (#[trigger] spans[i]).0, spans[i].1) by {
                if i > 0 {
                    assert(spans[i] == rest[i - 1]);
                }
            }
        } else if pair_at(bytes, from, 47u8, 42u8) {
            let end = block_end(bytes, from + 2, 1);
            lemma_block_end(bytes, from + 2, 1);
            lemma_extents(bytes, end);
            let rest = spans_from(bytes, end);
            assert(spans == seq![(from, end)] + rest);
            assert forall|i: int| 0 <= i < spans.len() implies is_extent(bytes, (#[trigger] spans[i]).0, spans[i].1) by {
                if i > 0 {
                    assert(spans[i] == rest[i - 1]);
                }
            }
        } else if let Some(end) = literal_end_of(bytes, from) {
            lemma_extents(bytes, end);
            assert(spans == spans_from(bytes, end));
        } else {
            lemma_extents(bytes, from + 1);
            assert(spans == spans_from(bytes, from + 1));
        }
    } else {
        assert(spans_from(bytes, from).len() == 0);
    }
}

/// A comment runs from its delimiter up to the end of its line, or up to what closes it.
pub proof fn law_a_comment_runs_up_to_its_end(comments: Seq<Comment>, text: Seq<char>, i: int)
    requires
        are_comments_of(comments, text),
        0 <= i < comments.len(),
    ensures
        is_extent(encode_utf8(text), comments[i].span.start as int, comments[i].span.end as int),
{
    let bytes = encode_utf8(text);
    lemma_extents(bytes, 0);
    let spans = spans_from(bytes, 0);
    assert(describes(comments[i], text, spans[i]));
    assert(is_extent(bytes, spans[i].0, spans[i].1));
}

// ---- Which text is a comment. ----

/// Whether a byte can begin neither a comment nor a literal.
pub open spec fn is_quiet(byte: u8) -> bool {
    byte != 47u8 && byte != 34u8 && byte != 39u8 && byte != 114u8
}

proof fn lemma_quiet(bytes: Seq<u8>, from: int, to: int)
    requires
        0 <= from <= to <= bytes.len(),
        forall|i: int| from <= i < to ==> is_quiet(#[trigger] bytes[i]),
    ensures
        spans_from(bytes, from) == spans_from(bytes, to),
    decreases to - from,
{
    if from < to {
        assert(is_quiet(bytes[from]));
        lemma_quiet(bytes, from + 1, to);
        assert(literal_end_of(bytes, from) is None);
    }
}

/// The first delimiter in code is that of the first comment.
pub proof fn law_a_delimiter_in_code_begins_a_comment(comments: Seq<Comment>, text: Seq<char>, at: int)
    requires
        are_comments_of(comments, text),
        0 <= at,
        at + 2 <= byte_len(text),
        forall|i: int| 0 <= i < at ==> is_quiet(#[trigger] encode_utf8(text)[i]),
        encode_utf8(text)[at] == 47u8,
        encode_utf8(text)[at + 1] == 47u8 || encode_utf8(text)[at + 1] == 42u8,
    ensures
        comments.len() > 0,
        comments[0].span.start == at,
{
    let bytes = encode_utf8(text);
    lemma_quiet(bytes, 0, at);
    let spans = spans_from(bytes, 0);
    assert(spans.len() > 0 && spans[0].0 == at);
    assert(describes(comments[0], text, spans[0]));
}

proof fn lemma_string_skip(bytes: Seq<u8>, from: int, to: int)
    requires
        0 <= from <= to < bytes.len(),
        forall|i: int| from <= i < to ==> #[trigger] bytes[i] != 34u8 && bytes[i] != 92u8,
        bytes[to] == 34u8,
    ensures
        string_end_from(bytes, from) == to + 1,
    decreases to - from,
{
    if from < to {
        assert(bytes[from] != 34u8);
        lemma_string_skip(bytes, from + 1, to);
    }
}

proof fn lemma_starts_behind(bytes: Seq<u8>, from: int)
    requires
        0 <= from,
    ensures
        forall|i: int| 0 <= i < spans_from(bytes, from).len() ==> (#[trigger] spans_from(bytes, from)[i]).0 >= from,
    decreases bytes.len() - from,
{
    if from < bytes.len() {
        lemma_ends(bytes, from + 2, 1);
        lemma_literal_end(bytes, from);
        let spans = spans_from(bytes, from);
        if pair_at(bytes, from, 47u8, 47u8) {
            let rest = spans_from(bytes, line_end(bytes, from + 2));
            lemma_starts_behind(bytes, line_end(bytes, from + 2));
            assert forall|i: int| 0 <= i < spans.len() implies (#[trigger] spans[i]).0 >= from by {
                if i > 0 {
                    assert(spans[i] == rest[i - 1]);
                }
            }
        } else if pair_at(bytes, from, 47u8, 42u8) {
            let rest = spans_from(bytes, block_end(bytes, from + 2, 1));
            lemma_starts_behind(bytes, block_end(bytes, from + 2, 1));
            assert forall|i: int| 0 <= i < spans.len() implies (#[trigger] spans[i]).0 >= from by {
                if i > 0 {
                    assert(spans[i] == rest[i - 1]);
                }
            }
        } else if let Some(end) = literal_end_of(bytes, from) {
            lemma_starts_behind(bytes, end);
            assert(spans == spans_from(bytes, end));
        } else {
            lemma_starts_behind(bytes, from + 1);
            assert(spans == spans_from(bytes, from + 1));
        }
    } else {
        assert(spans_from(bytes, from).len() == 0);
    }
}

/// What is written in a string is no comment, and the first delimiter in the code behind it begins one.
pub proof fn law_a_string_hides_no_comment_and_holds_none(comments: Seq<Comment>, text: Seq<char>, open: int, close: int, at: int)
    requires
        are_comments_of(comments, text),
        0 <= open < close < at,
        at + 2 <= byte_len(text),
        forall|i: int| 0 <= i < open ==> is_quiet(#[trigger] encode_utf8(text)[i]),
        encode_utf8(text)[open] == 34u8,
        forall|i: int| open < i < close ==> #[trigger] encode_utf8(text)[i] != 34u8 && encode_utf8(text)[i] != 92u8,
        encode_utf8(text)[close] == 34u8,
        forall|i: int| close < i < at ==> is_quiet(#[trigger] encode_utf8(text)[i]),
        encode_utf8(text)[at] == 47u8,
        encode_utf8(text)[at + 1] == 47u8 || encode_utf8(text)[at + 1] == 42u8,
    ensures
        comments.len() > 0,
        comments[0].span.start == at,
{
    let bytes = encode_utf8(text);
    lemma_quiet(bytes, 0, open);
    lemma_string_skip(bytes, open + 1, close);
    assert(literal_end_of(bytes, open) == Some(close + 1));
    assert(spans_from(bytes, open) == spans_from(bytes, close + 1));
    lemma_quiet(bytes, close + 1, at);
    let spans = spans_from(bytes, 0);
    assert(spans.len() > 0 && spans[0].0 == at);
    assert(describes(comments[0], text, spans[0]));
}

proof fn lemma_block_skip(bytes: Seq<u8>, from: int, to: int, depth: nat)
    requires
        0 <= from <= to <= bytes.len(),
        forall|i: int| from <= i < to ==> #[trigger] bytes[i] != 47u8 && bytes[i] != 42u8,
    ensures
        block_end(bytes, from, depth) == block_end(bytes, to, depth),
    decreases to - from,
{
    if from < to {
        assert(bytes[from] != 47u8);
        lemma_block_skip(bytes, from + 1, to, depth);
    }
}

/// A comment within a comment is closed by itself: the outer one goes on behind it, up to its own end.
pub proof fn law_comments_nest(comments: Seq<Comment>, text: Seq<char>, start: int, open: int, close: int, end: int)
    requires
        are_comments_of(comments, text),
        0 <= start,
        start + 2 <= open,
        open + 2 <= close,
        close + 2 <= end,
        end + 2 <= byte_len(text),
        forall|i: int| 0 <= i < start ==> is_quiet(#[trigger] encode_utf8(text)[i]),
        pair_at(encode_utf8(text), start, 47u8, 42u8),
        forall|i: int| start + 2 <= i < open ==> #[trigger] encode_utf8(text)[i] != 47u8 && encode_utf8(text)[i] != 42u8,
        pair_at(encode_utf8(text), open, 47u8, 42u8),
        forall|i: int| open + 2 <= i < close ==> #[trigger] encode_utf8(text)[i] != 47u8 && encode_utf8(text)[i] != 42u8,
        pair_at(encode_utf8(text), close, 42u8, 47u8),
        forall|i: int| close + 2 <= i < end ==> #[trigger] encode_utf8(text)[i] != 47u8 && encode_utf8(text)[i] != 42u8,
        pair_at(encode_utf8(text), end, 42u8, 47u8),
    ensures
        comments.len() > 0,
        comments[0].span.start == start,
        comments[0].span.end == end + 2,
        forall|i: int| 0 < i < comments.len() ==> (#[trigger] comments[i]).span.start >= end + 2,
{
    let bytes = encode_utf8(text);
    lemma_quiet(bytes, 0, start);
    lemma_block_skip(bytes, start + 2, open, 1);
    lemma_block_skip(bytes, open + 2, close, 2);
    lemma_block_skip(bytes, close + 2, end, 1);
    assert(block_end(bytes, start + 2, 1) == end + 2);
    let spans = spans_from(bytes, 0);
    let rest = spans_from(bytes, end + 2);
    assert(spans == seq![(start, end + 2)] + rest);
    lemma_starts_behind(bytes, end + 2);
    assert(describes(comments[0], text, spans[0]));
    assert forall|i: int| 0 < i < comments.len() implies (#[trigger] comments[i]).span.start >= end + 2 by {
        assert(describes(comments[i], text, spans[i]));
        assert(spans[i] == rest[i - 1]);
    }
}

} // verus!
