//! The words and marks of Rust, as its own lexer reads them.
use crate::text;
use crate::text::{byte_len, char_from, width};
use vstd::prelude::*;

verus! {

/// What `unicode_xid` answers for a character that is not ASCII, asked whether an identifier may
/// begin with it.
pub uninterp spec fn xid_start(c: char) -> bool;

/// What `unicode_xid` answers for a character that is not ASCII, asked whether an identifier may
/// go on with it.
pub uninterp spec fn xid_continue(c: char) -> bool;

/// Whether an identifier may begin with a character.
pub open spec fn begins_identifier(c: char) -> bool {
    ||| 'a' <= c <= 'z'
    ||| 'A' <= c <= 'Z'
    ||| c == '_'
    ||| c as u32 > 0x7f && xid_start(c)
}

/// Whether an identifier may go on with a character.
pub open spec fn continues_identifier(c: char) -> bool {
    ||| 'a' <= c <= 'z'
    ||| 'A' <= c <= 'Z'
    ||| '0' <= c <= '9'
    ||| c == '_'
    ||| c as u32 > 0x7f && xid_continue(c)
}

/// `rustc_lexer::is_id_start`: the ASCII letters and `_`, and what Unicode adds to them.
#[verifier::external_body]
fn is_id_start(c: char) -> (r: bool)
    ensures
        r == ('a' <= c <= 'z' || 'A' <= c <= 'Z' || c == '_' || c as u32 > 0x7f && xid_start(c)),
{
    rustc_lexer::is_id_start(c)
}

/// `rustc_lexer::is_id_continue`: the ASCII letters, digits and `_`, and what Unicode adds to
/// them.
#[verifier::external_body]
fn is_id_continue(c: char) -> (r: bool)
    ensures
        r == ('a' <= c <= 'z' || 'A' <= c <= 'Z' || '0' <= c <= '9' || c == '_' || c as u32 > 0x7f && xid_continue(c)),
{
    rustc_lexer::is_id_continue(c)
}

/// Where an identifier that has begun before `at` ends.
pub open spec fn identifier_tail(text: Seq<char>, at: int) -> int
    decreases byte_len(text) - at,
{
    proof {
        text::lemma_char_from(text, at);
    }
    match char_from(text, at) {
        Some(c) => if continues_identifier(c) {
            identifier_tail(text, at + width(c))
        } else {
            at
        },
        None => at,
    }
}

/// Where the identifier that begins at `at` ends, if one does.
pub open spec fn identifier_from(text: Seq<char>, at: int) -> Option<int> {
    match char_from(text, at) {
        Some(c) => if begins_identifier(c) {
            Some(identifier_tail(text, at + width(c)))
        } else {
            None
        },
        None => None,
    }
}

/// An identifier ends behind its beginning, within the text and between two characters.
pub proof fn lemma_identifier_tail(text: Seq<char>, at: int)
    requires
        0 <= at <= byte_len(text),
        text::is_cut(text, at),
    ensures
        at <= identifier_tail(text, at) <= byte_len(text),
        text::is_cut(text, identifier_tail(text, at)),
    decreases byte_len(text) - at,
{
    text::lemma_char_from(text, at);
    if let Some(c) = char_from(text, at) {
        if continues_identifier(c) {
            lemma_identifier_tail(text, at + width(c));
        }
    }
}

/// The end of the identifier beginning at `at`, if one does.
pub fn identifier_end(text: &str, at: usize) -> (r: Option<usize>)
    ensures
        r is Some <==> identifier_from(text@, at as int) is Some,
        r matches Some(end) ==> {
            &&& identifier_from(text@, at as int) == Some(end as int)
            &&& at < end <= byte_len(text@)
            &&& text::sliceable(text@, at as int, end as int)
        },
{
    let first = match text::char_at(text, at) {
        Some(c) => c,
        None => return None,
    };
    if !is_id_start(first) {
        return None;
    }
    let size: usize = text::length(text);
    proof {
        text::lemma_char_from(text@, at as int);
    }
    let mut end: usize = at + text::char_width(first);
    proof {
        lemma_identifier_tail(text@, end as int);
    }
    let ghost goal = identifier_tail(text@, end as int);
    loop
        invariant
            at < end <= size,
            size == byte_len(text@),
            identifier_tail(text@, end as int) == goal,
            identifier_from(text@, at as int) == Some(goal),
            goal <= size,
            text::is_cut(text@, goal),
            text::is_cut(text@, at as int),
        decreases size - end,
    {
        proof {
            text::lemma_char_from(text@, end as int);
        }
        match text::char_at(text, end) {
            Some(c) => {
                if !is_id_continue(c) {
                    return Some(end);
                }
                end = end + text::char_width(c);
            },
            None => return Some(end),
        }
    }
}

// ---- Tokens. ----

/// `rustc_lexer::TokenKind`: what a token is.
#[verifier::external_type_specification]
#[verifier::external_body]
pub struct ExTokenKind(rustc_lexer::TokenKind);

/// `rustc_lexer::LiteralKind`: what a literal is.
#[verifier::external_type_specification]
#[verifier::external_body]
pub struct ExLiteralKind(rustc_lexer::LiteralKind);

/// What a literal is, and whether it is whole.
#[derive(Clone, Copy, Debug, PartialEq, Eq, Structural)]
pub enum Literal {
    Int { empty: bool },
    Float { empty: bool },
    Char { terminated: bool },
    Byte { terminated: bool },
    Str { terminated: bool },
    ByteStr { terminated: bool },
    RawStr { started: bool, terminated: bool },
    RawByteStr { started: bool, terminated: bool },
}

/// A token that is not a mark or a bracket.
pub enum Word {
    LineComment,
    BlockComment { terminated: bool },
    Whitespace,
    Ident,
    RawIdent,
    Literal(rustc_lexer::LiteralKind),
    Lifetime { starts_with_number: bool },
    Unknown,
}

/// What a token is.
#[derive(Clone, Copy, Debug, PartialEq, Eq, Structural)]
pub enum Token {
    /// White space, or a comment.
    Trivia,
    Ident,
    RawIdent,
    Lifetime,
    Literal(Literal),
    /// A punctuation mark.
    Mark(char),
    /// A bracket.
    Bracket(char),
    /// Nothing that Rust has, or only a part of it.
    Invalid,
}

/// The kind and the length of the first token of a text.
pub uninterp spec fn token_of(text: Seq<char>) -> (rustc_lexer::TokenKind, usize);

/// What a kind is among the words, if it is one.
pub uninterp spec fn word_of(kind: rustc_lexer::TokenKind) -> Option<Word>;

/// The punctuation mark that a kind is, if it is one of the plain ones.
pub uninterp spec fn mark_of(kind: rustc_lexer::TokenKind) -> Option<char>;

/// The punctuation mark that a kind is, if it is one that operators are made of.
pub uninterp spec fn operator_of(kind: rustc_lexer::TokenKind) -> Option<char>;

/// The bracket that a kind is, if it is one.
pub uninterp spec fn bracket_of(kind: rustc_lexer::TokenKind) -> Option<char>;

/// What a kind of literal is.
pub uninterp spec fn literal_of(kind: rustc_lexer::LiteralKind) -> Literal;

/// `rustc_lexer::first_token`: its kind and its length, which is that of at least one whole
/// character.
#[verifier::external_body]
fn first_token(text: &str) -> (r: (rustc_lexer::TokenKind, usize))
    requires
        text@.len() > 0,
    ensures
        r == token_of(text@),
        0 < r.1 <= byte_len(text@),
{
    let token = rustc_lexer::first_token(text);
    (token.kind, token.len)
}

/// `rustc_lexer::TokenKind`: the kinds that are words, white space or comments.
#[verifier::external_body]
fn word_kind(kind: rustc_lexer::TokenKind) -> (r: Option<Word>)
    ensures
        r == word_of(kind),
{
    Some(match kind {
        rustc_lexer::TokenKind::LineComment => Word::LineComment,
        rustc_lexer::TokenKind::BlockComment { terminated } => Word::BlockComment { terminated },
        rustc_lexer::TokenKind::Whitespace => Word::Whitespace,
        rustc_lexer::TokenKind::Ident => Word::Ident,
        rustc_lexer::TokenKind::RawIdent => Word::RawIdent,
        rustc_lexer::TokenKind::Literal { kind, .. } => Word::Literal(kind),
        rustc_lexer::TokenKind::Lifetime { starts_with_number } => Word::Lifetime { starts_with_number },
        rustc_lexer::TokenKind::Unknown => Word::Unknown,
        _ => return None,
    })
}

/// `rustc_lexer::TokenKind`: the kinds that are plain punctuation marks.
#[verifier::external_body]
fn mark_kind(kind: rustc_lexer::TokenKind) -> (r: Option<char>)
    ensures
        r == mark_of(kind),
{
    Some(match kind {
        rustc_lexer::TokenKind::Semi => ';',
        rustc_lexer::TokenKind::Comma => ',',
        rustc_lexer::TokenKind::Dot => '.',
        rustc_lexer::TokenKind::At => '@',
        rustc_lexer::TokenKind::Pound => '#',
        rustc_lexer::TokenKind::Tilde => '~',
        rustc_lexer::TokenKind::Question => '?',
        rustc_lexer::TokenKind::Colon => ':',
        rustc_lexer::TokenKind::Dollar => '$',
        rustc_lexer::TokenKind::Eq => '=',
        rustc_lexer::TokenKind::Not => '!',
        _ => return None,
    })
}

/// `rustc_lexer::TokenKind`: the kinds that operators are made of.
#[verifier::external_body]
fn operator_kind(kind: rustc_lexer::TokenKind) -> (r: Option<char>)
    ensures
        r == operator_of(kind),
{
    Some(match kind {
        rustc_lexer::TokenKind::Lt => '<',
        rustc_lexer::TokenKind::Gt => '>',
        rustc_lexer::TokenKind::Minus => '-',
        rustc_lexer::TokenKind::And => '&',
        rustc_lexer::TokenKind::Or => '|',
        rustc_lexer::TokenKind::Plus => '+',
        rustc_lexer::TokenKind::Star => '*',
        rustc_lexer::TokenKind::Slash => '/',
        rustc_lexer::TokenKind::Caret => '^',
        rustc_lexer::TokenKind::Percent => '%',
        _ => return None,
    })
}

/// `rustc_lexer::TokenKind`: the kinds that are brackets.
#[verifier::external_body]
fn bracket_kind(kind: rustc_lexer::TokenKind) -> (r: Option<char>)
    ensures
        r == bracket_of(kind),
{
    Some(match kind {
        rustc_lexer::TokenKind::OpenParen => '(',
        rustc_lexer::TokenKind::CloseParen => ')',
        rustc_lexer::TokenKind::OpenBrace => '{',
        rustc_lexer::TokenKind::CloseBrace => '}',
        rustc_lexer::TokenKind::OpenBracket => '[',
        rustc_lexer::TokenKind::CloseBracket => ']',
        _ => return None,
    })
}

/// `rustc_lexer::LiteralKind`.
#[verifier::external_body]
fn literal_kind(kind: rustc_lexer::LiteralKind) -> (r: Literal)
    ensures
        r == literal_of(kind),
{
    match kind {
        rustc_lexer::LiteralKind::Int { empty_int, .. } => Literal::Int { empty: empty_int },
        rustc_lexer::LiteralKind::Float { empty_exponent, .. } => Literal::Float { empty: empty_exponent },
        rustc_lexer::LiteralKind::Char { terminated } => Literal::Char { terminated },
        rustc_lexer::LiteralKind::Byte { terminated } => Literal::Byte { terminated },
        rustc_lexer::LiteralKind::Str { terminated } => Literal::Str { terminated },
        rustc_lexer::LiteralKind::ByteStr { terminated } => Literal::ByteStr { terminated },
        rustc_lexer::LiteralKind::RawStr { started, terminated, .. } => Literal::RawStr { started, terminated },
        rustc_lexer::LiteralKind::RawByteStr { started, terminated, .. } => Literal::RawByteStr { started, terminated },
    }
}

/// Whether a literal is whole.
pub open spec fn is_whole(literal: Literal) -> bool {
    match literal {
        Literal::Int { empty } | Literal::Float { empty } => !empty,
        Literal::Char { terminated } | Literal::Byte { terminated } | Literal::Str { terminated } | Literal::ByteStr {
            terminated,
        } => terminated,
        Literal::RawStr { started, terminated } | Literal::RawByteStr { started, terminated } => started && terminated,
    }
}

/// What a token of a kind is.
pub open spec fn reading(kind: rustc_lexer::TokenKind) -> Token {
    match word_of(kind) {
        Some(word) => match word {
            Word::LineComment | Word::Whitespace => Token::Trivia,
            Word::BlockComment { terminated } => if terminated {
                Token::Trivia
            } else {
                Token::Invalid
            },
            Word::Ident => Token::Ident,
            Word::RawIdent => Token::RawIdent,
            Word::Literal(literal) => if is_whole(literal_of(literal)) {
                Token::Literal(literal_of(literal))
            } else {
                Token::Invalid
            },
            Word::Lifetime { starts_with_number } => if starts_with_number {
                Token::Invalid
            } else {
                Token::Lifetime
            },
            Word::Unknown => Token::Invalid,
        },
        None => match mark_of(kind) {
            Some(mark) => Token::Mark(mark),
            None => match operator_of(kind) {
                Some(mark) => Token::Mark(mark),
                None => match bracket_of(kind) {
                    Some(bracket) => Token::Bracket(bracket),
                    None => Token::Invalid,
                },
            },
        },
    }
}

/// Whether a literal is whole.
fn is_whole_literal(literal: Literal) -> (r: bool)
    ensures
        r == is_whole(literal),
{
    match literal {
        Literal::Int { empty } | Literal::Float { empty } => !empty,
        Literal::Char { terminated } | Literal::Byte { terminated } | Literal::Str { terminated } | Literal::ByteStr {
            terminated,
        } => terminated,
        Literal::RawStr { started, terminated } | Literal::RawByteStr { started, terminated } => started && terminated,
    }
}

/// The first token of a text, and its length.
pub fn read_token(text: &str) -> (r: (Token, usize))
    requires
        text@.len() > 0,
    ensures
        r == (reading(token_of(text@).0), token_of(text@).1),
        0 < r.1 <= byte_len(text@),
{
    let (kind, size) = first_token(text);
    if let Some(word) = word_kind(kind) {
        let token = match word {
            Word::LineComment | Word::Whitespace => Token::Trivia,
            Word::BlockComment { terminated } => if terminated {
                Token::Trivia
            } else {
                Token::Invalid
            },
            Word::Ident => Token::Ident,
            Word::RawIdent => Token::RawIdent,
            Word::Literal(literal) => {
                let literal = literal_kind(literal);
                if is_whole_literal(literal) {
                    Token::Literal(literal)
                } else {
                    Token::Invalid
                }
            },
            Word::Lifetime { starts_with_number } => if starts_with_number {
                Token::Invalid
            } else {
                Token::Lifetime
            },
            Word::Unknown => Token::Invalid,
        };
        return (token, size);
    }
    let token = match mark_kind(kind) {
        Some(mark) => Token::Mark(mark),
        None => match operator_kind(kind) {
            Some(mark) => Token::Mark(mark),
            None => match bracket_kind(kind) {
                Some(bracket) => Token::Bracket(bracket),
                None => Token::Invalid,
            },
        },
    };
    (token, size)
}

} // verus!
