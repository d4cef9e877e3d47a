//! Parsed source text and byte-offset navigation over it.
use crate::error::{ErrorKind, Fault};
use crate::parse::comment;
use crate::parse::comment::{are_comments_of, line_end, Comment};
use crate::parse::lines;
use crate::parse::lines::{line_index, location_of, offsets, starts_of};
use crate::parse::nesting;
use crate::parse::nesting::{crossing, left, path_limit, read_token, Walk, NESTING_LIMIT};
use crate::parse::strain;
use crate::parse::strain::{straining, Strain, STRAIN_LIMIT};
use crate::syntax::lower;
use crate::syntax::lower::is_tree_of;
use crate::syntax::outside::{complaint, reading};
use crate::syntax::Node;
use crate::text;
use crate::text::{begins, byte_len, decimal, escaped, slice, without_first};
use std::ops::Range;
use vstd::prelude::*;
use vstd::utf8::*;

verus! {

/// The byte-order mark, which is three bytes of UTF-8 and no characters of Rust.
pub const BOM: char = '\u{feff}';

/// A text without a byte-order mark at its front.
pub open spec fn bare(text: Seq<char>) -> Seq<char> {
    match without_first(text, BOM) {
        Some(rest) => rest,
        None => text,
    }
}

/// Removes a leading byte-order mark without allocating.
///
/// Parsing works on the text without the mark, while editing must keep the bytes as they are. This
/// lets the two be compared without moving or losing the mark.
pub fn strip_bom(text: &str) -> (r: &str)
    ensures
        r@ == bare(text@),
{
    match text::strip_first(text, BOM) {
        Some(rest) => rest,
        None => text,
    }
}

/// Drops a leading byte-order mark.
///
/// The parser skips the mark and then counts byte offsets from zero, so on a text that keeps it
/// every span would be three bytes short of the construct. Removing it where source text enters is
/// what makes every offset downstream agree.
pub fn without_bom(text: String) -> (r: String)
    ensures
        r@ == bare(text@),
{
    match text::strip_first(text.as_str(), BOM) {
        Some(rest) => text::owned(rest),
        None => text,
    }
}

/// The offset of the token that takes a text past the limit on delimiters and operators, if one does.
pub open spec fn crosses(text: Seq<char>) -> Option<int> {
    let comments = choose|comments: Seq<Comment>| are_comments_of(comments, text);
    crossing(text, comments, path_limit(NESTING_LIMIT), 0, 0, Walk::start())
}

/// Where a text is too much for a recursive parser, and by which measure.
pub ghost struct Excess {
    /// The offset of the token that is too much.
    pub at: int,
    /// Whether there are too many delimiters and operators, rather than too much else to descend into.
    pub nested: bool,
}

/// Where a text is too much for a recursive parser that reads all of it.
///
/// Delimiters and operators are measured first, and what else a parser descends into second.
pub open spec fn excess_in(text: Seq<char>) -> Option<Excess> {
    match crosses(text) {
        Some(at) => Some(Excess { at, nested: true }),
        None => match straining(text, 0, Strain::start()) {
            Some(at) => Some(Excess { at, nested: false }),
            None => None,
        },
    }
}

/// Whether the first line of a text may name an interpreter, and so be no Rust.
///
/// An attribute of the file begins in the same way, with a bracket behind it.
pub open spec fn may_name_interpreter(text: Seq<char>) -> bool {
    begins(bare(text), "#!"@) && !begins(bare(text), "#!["@)
}

/// Where the first line of a text ends.
pub open spec fn first_line_end(text: Seq<char>) -> int {
    line_end(encode_utf8(text), 0)
}

/// What of a text is behind its first line.
pub open spec fn behind_first_line(text: Seq<char>) -> Seq<char> {
    slice(text, first_line_end(text), byte_len(text))
}

/// Where a text is too much for the parser, if it is.
///
/// A first line that names an interpreter is not read, and what looks there like a comment or a
/// literal would hide what follows. So what is behind such a line is measured by itself too.
pub open spec fn excess_of(text: Seq<char>) -> Option<Excess> {
    match excess_in(text) {
        Some(excess) => Some(excess),
        None => if may_name_interpreter(text) {
            match excess_in(behind_first_line(text)) {
                Some(excess) => Some(Excess { at: first_line_end(text) + excess.at, ..excess }),
                None => None,
            }
        } else {
            None
        },
    }
}

/// Whether a text is too much for the parser.
pub open spec fn too_deep(text: Seq<char>) -> bool {
    excess_of(text) is Some
}

/// Only where the comments are matters to how deep a text is.
proof fn lemma_same_crossing(text: Seq<char>, one: Seq<Comment>, other: Seq<Comment>, limit: nat, at: int, next: int, walk: Walk)
    requires
        are_comments_of(one, text),
        are_comments_of(other, text),
    ensures
        crossing(text, one, limit, at, next, walk) == crossing(text, other, limit, at, next, walk),
    decreases left(text, at), one.len() - next,
{
    if at < 0 || at >= byte_len(text) {
    } else if 0 <= next < one.len() && one[next].span.start <= at {
        let spans = comment::spans_from(encode_utf8(text), 0);
        assert(comment::describes(one[next], text, spans[next]));
        assert(comment::describes(other[next], text, spans[next]));
        let end = one[next].span.end as int;
        lemma_same_crossing(
            text,
            one,
            other,
            limit,
            if at >= end {
                at
            } else {
                end
            },
            next + 1,
            walk,
        );
    } else {
        if 0 <= next < one.len() {
            let spans = comment::spans_from(encode_utf8(text), 0);
            assert(comment::describes(one[next], text, spans[next]));
            assert(comment::describes(other[next], text, spans[next]));
        }
        nesting::lemma_token_end(text, at, walk, limit);
        match read_token(text, at, walk, limit).0 {
            None => {},
            Some(after) => {
                lemma_same_crossing(text, one, other, limit, read_token(text, at, walk, limit).1, next, after);
            },
        }
    }
}

/// Where a text crosses the limit, by whichever record of its comments it is measured.
proof fn lemma_crosses(text: Seq<char>, comments: Seq<Comment>)
    requires
        are_comments_of(comments, text),
    ensures
        crosses(text) == crossing(text, comments, path_limit(NESTING_LIMIT), 0, 0, Walk::start()),
{
    let chosen = choose|comments: Seq<Comment>| are_comments_of(comments, text);
    assert(are_comments_of(chosen, text));
    lemma_same_crossing(text, chosen, comments, path_limit(NESTING_LIMIT), 0, 0, Walk::start());
}

/// The offset of the token of a text that is too much, and whether it is a delimiter or an operator.
fn excess_among(text: &str, comments: &Vec<Comment>) -> (r: Option<(usize, bool)>)
    requires
        are_comments_of(comments@, text@),
    ensures
        match r {
            Some((at, nested)) => excess_in(text@) == Some(Excess { at: at as int, nested }),
            None => excess_in(text@) is None,
        },
        r matches Some((at, _)) ==> at < byte_len(text@),
{
    proof {
        lemma_crosses(text@, comments@);
        nesting::law_a_reported_offset_lies_in_the_text(text@, comments@, NESTING_LIMIT);
        strain::law_a_straining_token_lies_in_the_text(text@, 0, Strain::start());
    }
    match nesting::beyond(text, comments, NESTING_LIMIT) {
        Some(at) => Some((at, true)),
        None => match strain::overstrained(text) {
            Some(at) => Some((at, false)),
            None => None,
        },
    }
}

/// Whether the first line of a text may name an interpreter.
fn is_maybe_script(text: &str) -> (r: bool)
    ensures
        r == may_name_interpreter(text@),
{
    let rest = strip_bom(text);
    text::starts_with(rest, "#!") && !text::starts_with(rest, "#![")
}

/// The offset of the token of a text that is too much for the parser, and whether it is a delimiter or an
/// operator.
fn excess(text: &str, comments: &Vec<Comment>) -> (r: Option<(usize, bool)>)
    requires
        byte_len(text@) < usize::MAX,
        are_comments_of(comments@, text@),
    ensures
        match r {
            Some((at, nested)) => excess_of(text@) == Some(Excess { at: at as int, nested }),
            None => !too_deep(text@),
        },
{
    if let Some(found) = excess_among(text, comments) {
        return Some(found);
    }
    if !is_maybe_script(text) {
        return None;
    }
    proof {
        comment::lemma_first_line_cut(text@);
        text::lemma_slice_bytes(text@, first_line_end(text@), byte_len(text@));
    }
    let from: usize = comment::first_line_end(text.as_bytes());
    let rest = text::between(text, from, text::length(text));
    let starts = lines::line_starts(rest);
    let comments = comment::scan_comments(rest, &starts);
    match excess_among(rest, &comments) {
        Some((at, nested)) => Some((from + at, nested)),
        None => None,
    }
}

/// Whether source text is too deeply nested to hand to a recursive parser.
pub fn exceeds_nesting_limit(text: &str) -> (r: bool)
    requires
        byte_len(text@) < usize::MAX,
    ensures
        r == too_deep(text@),
{
    let starts = lines::line_starts(text);
    let comments = comment::scan_comments(text, &starts);
    excess(text, &comments).is_some()
}

/// What is said of a file that nests too deeply.
pub open spec fn depth_message(path: Seq<char>, text: Seq<char>, excess: Excess) -> Seq<char> {
    escaped(path) + ":"@ + decimal((line_index(starts_of(encode_utf8(text)), excess.at) + 1) as nat) + ": nests deeper than "@ + (
    if excess.nested {
        decimal(NESTING_LIMIT as nat) + " levels of brackets, prefix operators, chained operators or postfix expressions"@
    } else {
        "a parser can follow: more than "@ + decimal(STRAIN_LIMIT as nat)
            + " steps of keywords, closures, types, patterns, import paths and operators on one path"@
    })
}

/// What is said of a file that does not parse.
pub open spec fn parse_message(path: Seq<char>, line: nat, column: nat, cause: Seq<char>) -> Seq<char> {
    escaped(path) + ":"@ + decimal(line) + ":"@ + decimal(column) + ": could not parse: "@ + escaped(cause)
}

/// What is said of a file that cannot be read.
pub open spec fn read_message(path: Seq<char>) -> Seq<char> {
    "could not read `"@ + escaped(path) + "`"@
}

/// The failure of reading a file from disk.
pub fn unreadable(path: &str) -> (r: Fault)
    ensures
        r.kind == ErrorKind::Failure,
        r.message@ == read_message(path@),
{
    let mut message = text::joined("could not read `", text::escape(path).as_str());
    message.append("`");
    Fault::new(ErrorKind::Failure, message)
}

/// A parsed source file, with everything downstream stages need to work in byte offsets.
#[derive(Debug)]
pub struct SourceFile {
    /// Path as it should appear in reports.
    pub path: String,
    /// The exact text that was parsed. All spans index into it.
    pub text: String,
    /// The syntax tree.
    pub ast: Node,
    /// Byte offset of the start of each line.
    pub lines: Vec<usize>,
    /// Every comment in the file, in source order.
    pub comments: Vec<Comment>,
}

impl SourceFile {
    /// Whether the line table describes the text.
    pub open spec fn is_navigable(self) -> bool {
        &&& byte_len(self.text@) < usize::MAX
        &&& offsets(self.lines@) == starts_of(encode_utf8(self.text@))
    }

    /// Whether everything that was read off the text still agrees with it.
    pub open spec fn is_consistent(self) -> bool {
        &&& self.is_navigable()
        &&& are_comments_of(self.comments@, self.text@)
        &&& is_tree_of(self.text@, self.ast)
        &&& !too_deep(self.text@)
    }

    /// Parses source text that has already been read.
    ///
    /// The path is used only for diagnostics and reporting. A text that nests too deeply is refused
    /// before the parser sees it, which would run out of stack on it; that says nothing about
    /// whether the text is sound, so the failure is one that leaves the other files to be measured.
    ///
    /// The parser counts offsets in 32 bits over all the texts that a thread has parsed, and panics or
    /// wraps around once these come to 4 GiB together. A thread that parses that much is for the
    /// caller to avoid.
    pub fn parse(path: &str, text: String) -> (r: Result<SourceFile, Fault>)
        requires
            byte_len(text@) < u32::MAX,
        ensures
            match excess_of(bare(text@)) {
                Some(excess) => {
                    &&& r matches Err(fault)
                    &&& fault.kind == ErrorKind::Skippable
                    &&& fault.message@ == depth_message(path@, bare(text@), excess)
                },
                None => match reading(bare(text@)) {
                    Ok(_) => r matches Ok(file) && file.is_consistent() && file.path@ == path@ && file.text@ == bare(text@),
                    Err(error) => {
                        let (line, column, cause) = complaint(error);
                        &&& r matches Err(fault)
                        &&& fault.kind == ErrorKind::Failure
                        &&& fault.message@ == parse_message(path@, line as nat, column as nat, cause)
                    },
                },
            },
    {
        let ghost given = text@;
        let text = without_bom(text);
        proof {
            lemma_bare_is_no_longer(given);
        }
        let starts = lines::line_starts(text.as_str());
        let comments = comment::scan_comments(text.as_str(), &starts);
        if let Some((at, nested)) = excess(text.as_str(), &comments) {
            proof {
                lines::lemma_starts(encode_utf8(text@));
            }
            let index = lines::index_of(&starts, at);
            proof {
                assert(offsets(starts@).len() == starts@.len());
            }
            let ghost excess = Excess { at: at as int, nested };
            return Err(Fault::new(ErrorKind::Skippable, too_deep_at(path, index + 1, nested, Ghost(text@), Ghost(excess))));
        }
        match lower::read(text.as_str()) {
            Ok(ast) => Ok(SourceFile { path: text::owned(path), text, ast, lines: starts, comments }),
            Err(refusal) => {
                let mut message = text::escape(path);
                message.append(":");
                text::push_decimal(&mut message, refusal.line as u64);
                message.append(":");
                text::push_decimal(&mut message, refusal.column as u64);
                message.append(": could not parse: ");
                message.append(text::escape(refusal.message.as_str()).as_str());
                Err(Fault::new(ErrorKind::Failure, message))
            },
        }
    }

    /// The 1-based line and column of a byte offset.
    ///
    /// The column is counted in characters rather than bytes, because it is shown to humans beside
    /// a rendering of the line.
    pub fn location(&self, offset: usize) -> (r: (usize, usize))
        requires
            self.is_navigable(),
        ensures
            (r.0 as int, r.1 as int) == location_of(self.text@, starts_of(encode_utf8(self.text@)), offset as int),
    {
        lines::locate(self.text.as_str(), &self.lines, offset)
    }

    /// The 1-based line number of a byte offset.
    pub fn line_of(&self, offset: usize) -> (r: usize)
        requires
            self.is_navigable(),
        ensures
            r == location_of(self.text@, starts_of(encode_utf8(self.text@)), offset as int).0,
    {
        self.location(offset).0
    }

    /// The source text covered by a byte range, or nothing where the range does not fit the text.
    pub fn slice(&self, span: &Range<usize>) -> (r: &str)
        ensures
            r@ == slice(self.text@, span.start as int, span.end as int),
    {
        text::between(self.text.as_str(), span.start, span.end)
    }

    /// The path as it should appear in reports.
    pub fn path(&self) -> (r: &str)
        ensures
            r@ == self.path@,
    {
        self.path.as_str()
    }

    /// Relocates the file to a different reporting path, without parsing its text again.
    pub fn set_path(&mut self, path: &str)
        ensures
            final(self).path@ == path@,
            final(self).text == old(self).text,
            final(self).ast == old(self).ast,
            final(self).lines == old(self).lines,
            final(self).comments == old(self).comments,
    {
        self.path = text::owned(path);
    }

    /// The exact text that was parsed. All spans index into it.
    pub fn text(&self) -> (r: &str)
        ensures
            r@ == self.text@,
    {
        self.text.as_str()
    }

    /// The syntax tree.
    pub fn ast(&self) -> (r: &Node)
        ensures
            *r == self.ast,
    {
        &self.ast
    }

    /// Every comment in the file, in source order.
    pub fn comments(&self) -> (r: &[Comment])
        ensures
            r@ == self.comments@,
    {
        self.comments.as_slice()
    }
}

/// Says that a file nests too deeply.
fn too_deep_at(path: &str, line: usize, nested: bool, text: Ghost<Seq<char>>, excess: Ghost<Excess>) -> (r: String)
    requires
        line == line_index(starts_of(encode_utf8(text@)), excess@.at) + 1,
        nested == excess@.nested,
    ensures
        r@ == depth_message(path@, text@, excess@),
{
    let mut message = text::escape(path);
    message.append(":");
    text::push_decimal(&mut message, line as u64);
    message.append(": nests deeper than ");
    if nested {
        text::push_decimal(&mut message, NESTING_LIMIT as u64);
        message.append(" levels of brackets, prefix operators, chained operators or postfix expressions");
    } else {
        message.append("a parser can follow: more than ");
        text::push_decimal(&mut message, STRAIN_LIMIT as u64);
        message.append(" steps of keywords, closures, types, patterns, import paths and operators on one path");
    }
    proof {
        assert(message@ =~= depth_message(path@, text@, excess@));
    }
    message
}

/// A text is no longer without its mark.
proof fn lemma_bare_is_no_longer(text: Seq<char>)
    ensures
        byte_len(bare(text)) <= byte_len(text),
{
    if let Some(rest) = without_first(text, BOM) {
        assert(text =~= seq![BOM] + rest);
        text::lemma_encode_join(seq![BOM], rest);
    }
}

/// A byte-order mark is dropped from the front of a text, once, and nothing else is.
pub proof fn law_only_a_leading_mark_is_dropped(text: Seq<char>)
    ensures
        bare(seq![BOM] + text) == text,
        text.len() == 0 || text[0] != BOM ==> bare(text) == text,
{
    assert((seq![BOM] + text).skip(1) =~= text);
    assert((seq![BOM] + text).drop_first() =~= text);
}

} // verus!
