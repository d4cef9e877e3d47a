//! The names by which the items of a file are known in a candidate's path.
use super::noop;
use super::noop::{is_word, lexed, views, Lexed};
use crate::parse::comment;
use crate::parse::comment::{block_end, lemma_ends, lemma_literal_end, line_end, literal_end_of, pair_at};
use crate::syntax::tree::Node;
use crate::text;
use crate::text::{byte_len, char_from, is_white, lemma_char_from, slice, width};
use vstd::prelude::*;
use vstd::utf8::encode_utf8;

verus! {

// ---- Trait paths. ----

/// A text from an offset on, without its comments and the white space outside its literals.
pub open spec fn compact_from(text: Seq<char>, at: int) -> Seq<char>
    decreases byte_len(text) - at,
{
    let bytes = encode_utf8(text);
    if at < 0 || at >= byte_len(text) {
        Seq::empty()
    } else {
        proof {
            lemma_ends(bytes, at + 2, 1);
            lemma_literal_end(bytes, at);
            lemma_char_from(text, at);
        }
        if pair_at(bytes, at, 47u8, 47u8) {
            compact_from(text, line_end(bytes, at + 2))
        } else if pair_at(bytes, at, 47u8, 42u8) {
            compact_from(text, block_end(bytes, at + 2, 1))
        } else if let Some(end) = literal_end_of(bytes, at) {
            slice(text, at, end) + compact_from(text, end)
        } else {
            match char_from(text, at) {
                Some(c) => (if is_white(c) {
                    Seq::empty()
                } else {
                    slice(text, at, at + width(c))
                }) + compact_from(text, at + width(c)),
                None => compact_from(text, at + 1),
            }
        }
    }
}

/// Removes trivia from a trait path without changing literal contents.
///
/// An item path feeds a stable mutant identity, so formatting `impl Trait < T > for S` must not
/// change it. A simple whitespace filter would also rewrite a literal in a const generic, so
/// literals and comments are stepped over instead.
pub fn compact_path(text: &str) -> (r: String)
    ensures
        r@ == compact_from(text@, 0),
{
    let bytes = text.as_bytes();
    let mut compact = String::new();
    let mut at: usize = 0;
    proof {
        assert(compact@ + compact_from(text@, 0) =~= compact_from(text@, 0));
    }
    while at < bytes.len()
        invariant
            at <= bytes@.len(),
            bytes@ == encode_utf8(text@),
            compact@ + compact_from(text@, at as int) == compact_from(text@, 0),
        decreases bytes@.len() - at,
    {
        let ghost before = compact@;
        proof {
            lemma_ends(bytes@, at + 2, 1);
            lemma_literal_end(bytes@, at as int);
            lemma_char_from(text@, at as int);
        }
        if comment::is_pair(bytes, at, 47u8, 47u8) {
            at = comment::line_comment_end(bytes, at);
        } else if comment::is_pair(bytes, at, 47u8, 42u8) {
            at = comment::block_comment_end(bytes, at);
        } else {
            match comment::literal_end(text, at) {
                Some(end) => {
                    compact.append(text::between(text, at, end));
                    proof {
                        assert(compact@ + compact_from(text@, end as int) =~= before + compact_from(text@, at as int));
                    }
                    at = end;
                },
                None => match text::char_at(text, at) {
                    Some(c) => {
                        let end: usize = at + text::char_width(c);
                        if !text::is_whitespace(c) {
                            compact.append(text::between(text, at, end));
                        }
                        proof {
                            assert(compact@ + compact_from(text@, end as int) =~= before + compact_from(text@, at as int));
                        }
                        at = end;
                    },
                    None => {
                        at += 1;
                    },
                },
            }
        }
    }
    proof {
        assert(compact@ + Seq::<char>::empty() =~= compact@);
    }
    compact
}

// ---- Tokens. ----

/// Whether two tokens that stand beside each other have to be kept apart.
pub open spec fn run_together(left: Lexed, right: Lexed) -> bool {
    is_word(left.token) && is_word(right.token)
}

/// Tokens written one after another, with a space only between two that would otherwise become one.
pub open spec fn written(tokens: Seq<Lexed>) -> Seq<char>
    decreases tokens.len(),
{
    if tokens.len() == 0 {
        Seq::empty()
    } else {
        let before = written(tokens.drop_last());
        let gap = if tokens.len() > 1 && run_together(tokens[tokens.len() - 2], tokens.last()) {
            " "@
        } else {
            Seq::empty()
        };
        before + gap + tokens.last().text
    }
}

/// A text without its layout: its tokens, or, where it is not made of tokens, what is left of it without
/// comments and white space.
pub open spec fn layout_free(text: Seq<char>) -> Seq<char> {
    match lexed(text) {
        Some(tokens) => written(tokens),
        None => compact_from(text, 0),
    }
}

/// Writes the tokens of a text, whatever its layout.
pub fn without_layout(text: &str) -> (r: String)
    ensures
        r@ == layout_free(text@),
{
    let Some(tokens) = noop::lexemes(text) else {
        return compact_path(text);
    };
    let ghost all = views(tokens@);
    let mut out = String::new();
    proof {
        assert(all.take(0) =~= Seq::<Lexed>::empty());
        assert(out@ =~= written(all.take(0)));
    }
    for at in 0..tokens.len()
        invariant
            all == views(tokens@),
            out@ == written(all.take(at as int)),
    {
        proof {
            assert(all.take(at + 1).drop_last() =~= all.take(at as int));
            assert(all.take(at + 1).last() == tokens@[at as int]@);
            if at > 0 {
                assert(all.take(at + 1)[at - 1] == tokens@[at - 1]@);
            }
        }
        let ghost before = out@;
        if at > 0 && noop::names_word(tokens[at - 1].kind) && noop::names_word(tokens[at].kind) {
            out.append(" ");
            out.append(tokens[at].text);
            proof {
                assert(out@ =~= written(all.take(at + 1)));
            }
        } else {
            out.append(tokens[at].text);
            proof {
                assert(out@ =~= written(all.take(at + 1)));
            }
        }
    }
    proof {
        assert(all.take(all.len() as int) =~= all);
    }
    out
}

// ---- Implementations. ----

/// The text of a construct.
pub open spec fn source_of(text: Seq<char>, node: Node) -> Seq<char> {
    slice(text, node.start as int, node.end as int)
}

/// The name of an implementation: its type, and the trait it implements, if it implements one.
pub open spec fn impl_scope(text: Seq<char>, node: Node) -> Seq<char> {
    let own = match node.kid(2) {
        Some(ty) => layout_free(source_of(text, ty)),
        None => Seq::empty(),
    };
    let path = match node.first_of(1) {
        Some(path) => compact_from(source_of(text, path), 0),
        None => Seq::empty(),
    };
    if path.len() == 0 {
        own
    } else {
        "<"@ + own + " as "@ + path + ">"@
    }
}

/// Returns the stable scope name of one inherent or trait implementation.
pub fn name_impl(text: &str, node: &Node) -> (r: String)
    ensures
        r@ == impl_scope(text@, *node),
{
    let own = match node.get(2) {
        Some(ty) => without_layout(text::between(text, ty.start, ty.end)),
        None => String::new(),
    };
    let path = match node.get_first(1) {
        Some(path) => compact_path(text::between(text, path.start, path.end)),
        None => String::new(),
    };
    if path.as_str().is_empty() {
        return own;
    }
    let mut name = text::owned("<");
    name.append(own.as_str());
    name.append(" as ");
    name.append(path.as_str());
    name.append(">");
    name
}

} // verus!
