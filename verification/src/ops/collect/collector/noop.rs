//! Whether a proposed replacement would leave the program as it was.
use crate::lexer;
use crate::lexer::{reading, token_of, Token};
use crate::ops::collect::defaults::{is_among, DefaultPaths, Spellings};
use crate::ops::collect::Shape;
use crate::text;
use crate::text::{byte_len, slice, sliceable, strings, trim, viewed};
use vstd::prelude::*;

verus! {

// ---- Tokens. ----

/// A token of a text, and where it stands.
#[verifier::ext_equal]
pub ghost struct Lexed {
    pub token: Token,
    pub text: Seq<char>,
    pub start: int,
    pub end: int,
}

/// The tokens of a text from an offset on, without white space and comments, if it is made of
/// nothing but tokens.
pub open spec fn lexed_from(text: Seq<char>, at: int) -> Option<Seq<Lexed>>
    decreases byte_len(text) - at,
{
    if at >= byte_len(text) {
        Some(Seq::empty())
    } else if !sliceable(text, at, byte_len(text)) || slice(text, at, byte_len(text)).len() == 0 {
        None
    } else {
        let (kind, size) = token_of(slice(text, at, byte_len(text)));
        let end = at + size;
        if size == 0 || !sliceable(text, at, end) {
            None
        } else {
            match reading(kind) {
                Token::Trivia => lexed_from(text, end),
                Token::Invalid => None,
                token => match lexed_from(text, end) {
                    Some(rest) => Some(seq![Lexed { token, text: slice(text, at, end), start: at, end }] + rest),
                    None => None,
                },
            }
        }
    }
}

/// The tokens of a text.
pub open spec fn lexed(text: Seq<char>) -> Option<Seq<Lexed>> {
    lexed_from(text, 0)
}

/// A token of a text, and where it stands.
#[derive(Clone, Copy, Debug)]
pub struct Lexeme<'a> {
    pub kind: Token,
    pub text: &'a str,
    pub start: usize,
    pub end: usize,
}

impl<'a> View for Lexeme<'a> {
    type V = Lexed;

    open spec fn view(&self) -> Lexed {
        Lexed { token: self.kind, text: self.text@, start: self.start as int, end: self.end as int }
    }
}

/// What there is to read in tokens.
pub open spec fn views(tokens: Seq<Lexeme<'_>>) -> Seq<Lexed> {
    tokens.map_values(|token: Lexeme<'_>| token@)
}

/// The tokens of a text, without white space and comments, or nothing for a text that is not made
/// of whole tokens.
pub fn lexemes<'a>(text: &'a str) -> (r: Option<Vec<Lexeme<'a>>>)
    ensures
        match r {
            Some(tokens) => lexed(text@) == Some(views(tokens@)),
            None => lexed(text@) is None,
        },
{
    let size: usize = text::length(text);
    let mut tokens: Vec<Lexeme<'a>> = Vec::new();
    let mut at: usize = 0;
    let ghost goal = lexed(text@);
    proof {
        match goal {
            Some(all) => {
                assert(views(tokens@) + all =~= all);
            },
            None => {},
        }
    }
    while at < size
        invariant
            size == byte_len(text@),
            goal == lexed(text@),
            match lexed_from(text@, at as int) {
                Some(rest) => goal == Some(views(tokens@) + rest),
                None => goal is None,
            },
        decreases size - at,
    {
        let Some(rest) = text::get(text, at, size) else {
            return None;
        };
        if rest.is_empty() {
            return None;
        }
        let (token, length) = lexer::read_token(rest);
        if length > size - at {
            return None;
        }
        let end: usize = at + length;
        let Some(own) = text::get(text, at, end) else {
            return None;
        };
        match token {
            Token::Trivia => {},
            Token::Invalid => {
                return None;
            },
            _ => {
                let ghost before = views(tokens@);
                let lexeme = Lexeme { kind: token, text: own, start: at, end };
                tokens.push(lexeme);
                proof {
                    assert(views(tokens@) =~= before.push(lexeme@));
                    match lexed_from(text@, end as int) {
                        Some(behind) => {
                            assert(views(tokens@) + behind =~= before + (seq![lexeme@] + behind));
                        },
                        None => {},
                    }
                }
            },
        }
        at = end;
    }
    proof {
        assert(views(tokens@) + Seq::<Lexed>::empty() =~= views(tokens@));
    }
    Some(tokens)
}

// ---- Equality. ----

/// Whether a token is a punctuation mark.
pub open spec fn is_punctuation(token: Token) -> bool {
    token is Mark
}

/// Whether a token is a word: two of them side by side need a space.
pub open spec fn is_word(token: Token) -> bool {
    token is Ident || token is RawIdent || token is Literal || token is Lifetime
}

/// Whether it matters that there is a space between two tokens.
pub open spec fn spacing_matters(left: Token, right: Token) -> bool {
    is_punctuation(left) && is_punctuation(right) || is_word(left) && is_word(right)
}

/// Whether two sequences of tokens are the same program text, but for layout and comments.
pub open spec fn same_lexed(left: Seq<Lexed>, right: Seq<Lexed>) -> bool {
    &&& left.len() == right.len()
    &&& forall|i: int| 0 <= i < left.len() ==> (#[trigger] left[i]).token == right[i].token && left[i].text == right[i].text
    &&& forall|i: int|
        0 < i < left.len() && spacing_matters(left[i - 1].token, (#[trigger] left[i]).token) ==> ((left[i - 1].end == left[i].start) == (
        right[i - 1].end == right[i].start))
}

/// Whether two texts are made of the same tokens.
pub open spec fn are_same(left: Seq<char>, right: Seq<char>) -> bool {
    lexed(left) matches Some(one) && (lexed(right) matches Some(other) && same_lexed(one, other))
}

/// Returns whether two texts are made of the same tokens.
///
/// Both sides must be made of whole tokens for the answer to be yes. Layout and comments do not
/// count, but it does count whether two marks or two words stand side by side.
pub fn same_tokens(left: &str, right: &str) -> (r: bool)
    ensures
        r == are_same(left@, right@),
{
    let Some(one) = lexemes(left) else {
        return false;
    };
    let Some(other) = lexemes(right) else {
        return false;
    };
    let ghost a = views(one@);
    let ghost b = views(other@);
    if one.len() != other.len() {
        proof {
            assert(a.len() != b.len());
        }
        return false;
    }
    let mut at: usize = 0;
    while at < one.len()
        invariant
            at <= one@.len(),
            one@.len() == other@.len(),
            a == views(one@),
            b == views(other@),
            lexed(left@) == Some(a),
            lexed(right@) == Some(b),
            forall|i: int| 0 <= i < at ==> (#[trigger] a[i]).token == b[i].token && a[i].text == b[i].text,
            forall|i: int|
                0 < i < at && spacing_matters(a[i - 1].token, (#[trigger] a[i]).token) ==> ((a[i - 1].end == a[i].start) == (b[i - 1].end
                    == b[i].start)),
        decreases one@.len() - at,
    {
        let x = one[at];
        let y = other[at];
        proof {
            assert(a[at as int] == x@);
            assert(b[at as int] == y@);
        }
        if x.kind != y.kind || !text::same(x.text, y.text) {
            return false;
        }
        if at > 0 {
            let before = one[at - 1];
            let behind = other[at - 1];
            proof {
                assert(a[at - 1] == before@);
                assert(b[at - 1] == behind@);
            }
            let matter = matches!(before.kind, Token::Mark(_)) && matches!(x.kind, Token::Mark(_)) || names_word(before.kind) && names_word(
                x.kind,
            );
            if matter && (before.end == x.start) != (behind.end == y.start) {
                return false;
            }
        }
        at += 1;
    }
    true
}

/// Whether a token is a word.
pub(crate) fn names_word(token: Token) -> (r: bool)
    ensures
        r == is_word(token),
{
    matches!(token, Token::Ident | Token::RawIdent | Token::Literal(_) | Token::Lifetime)
}

// ---- Calls. ----

/// Whether a token is an opening parenthesis.
pub open spec fn opens(token: Lexed) -> bool {
    token.token == Token::Bracket('(')
}

/// Whether a token is a closing parenthesis.
pub open spec fn closes(token: Lexed) -> bool {
    token.token == Token::Bracket(')')
}

/// The index of the parenthesis that closes the first one that is open, from `at` on, or the number
/// of tokens.
pub open spec fn closing(tokens: Seq<Lexed>, at: int, depth: nat) -> int
    decreases tokens.len() - at,
{
    if at < 0 || at >= tokens.len() {
        tokens.len() as int
    } else if opens(tokens[at]) {
        closing(tokens, at + 1, depth + 1)
    } else if closes(tokens[at]) {
        if depth <= 1 {
            at
        } else {
            closing(tokens, at + 1, (depth - 1) as nat)
        }
    } else {
        closing(tokens, at + 1, depth)
    }
}

/// Tokens without the parentheses around all of them.
pub open spec fn bare(tokens: Seq<Lexed>) -> Seq<Lexed>
    decreases tokens.len(),
{
    if tokens.len() > 1 && opens(tokens[0]) && closes(tokens.last()) && closing(tokens, 0, 0) == tokens.len() - 1 {
        bare(tokens.subrange(1, tokens.len() - 1))
    } else {
        tokens
    }
}

/// The index of the first opening parenthesis from `at` on, or the number of tokens.
pub open spec fn opening(tokens: Seq<Lexed>, at: int) -> int
    decreases tokens.len() - at,
{
    if at < 0 || at >= tokens.len() {
        tokens.len() as int
    } else if opens(tokens[at]) {
        at
    } else {
        opening(tokens, at + 1)
    }
}

/// Whether the tokens of a call, from `at` on, are one argument list with one argument.
pub open spec fn is_single(call: Seq<Lexed>, at: int, depth: nat) -> bool
    decreases call.len() - at,
{
    if at < 0 || at >= call.len() {
        depth == 0
    } else if opens(call[at]) {
        is_single(call, at + 1, depth + 1)
    } else if closes(call[at]) {
        depth > 0 && (depth == 1 ==> at == call.len() - 1) && is_single(call, at + 1, (depth - 1) as nat)
    } else if call[at].token == Token::Mark(',') && depth == 1 {
        false
    } else {
        is_single(call, at + 1, depth)
    }
}

/// Whether a token is a colon.
pub open spec fn is_colon(token: Lexed) -> bool {
    token.token == Token::Mark(':')
}

/// The names of a path's segments from `at` on, if the tokens are a path.
pub open spec fn segments_from(path: Seq<Lexed>, at: int) -> Option<Seq<Seq<char>>>
    decreases path.len() - at,
{
    if at < 0 || at >= path.len() || !(path[at].token is Ident || path[at].token is RawIdent) {
        None
    } else if at == path.len() - 1 {
        Some(seq![path[at].text])
    } else if at + 2 < path.len() && is_colon(path[at + 1]) && is_colon(path[at + 2]) {
        match segments_from(path, at + 3) {
            Some(rest) => Some(seq![path[at].text] + rest),
            None => None,
        }
    } else {
        None
    }
}

/// The names of a path's segments, if the tokens are a path.
pub open spec fn segments(path: Seq<Lexed>) -> Option<Seq<Seq<char>>> {
    let inner = bare(path);
    if inner.len() > 1 && is_colon(inner[0]) && is_colon(inner[1]) {
        segments_from(inner, 2)
    } else {
        segments_from(inner, 0)
    }
}

/// Whether a path ends in two given names.
pub open spec fn ends_with(path: Seq<Lexed>, qualifier: Seq<char>, name: Seq<char>) -> bool {
    segments(path) matches Some(names) && names.len() >= 2 && names[names.len() - 2] == qualifier && names.last() == name
}

/// Where the one argument of a call to a given function stands in its text.
pub open spec fn argument(expression: Seq<Lexed>, qualifier: Seq<char>, name: Seq<char>) -> Option<(int, int)> {
    let inner = bare(expression);
    let open = opening(inner, 0);
    let call = inner.skip(open);
    if open < inner.len() && ends_with(inner.take(open), qualifier, name) && closes(call.last()) && is_single(call, 0, 0) && call.len()
        >= 3 {
        Some((call[1].start, call[call.len() - 2].end))
    } else {
        None
    }
}

/// The text of the one argument of a call to a given function.
pub open spec fn argument_text(text: Seq<char>, expression: Seq<Lexed>, qualifier: Seq<char>, name: Seq<char>) -> Option<Seq<char>> {
    match argument(expression, qualifier, name) {
        Some((start, end)) => if sliceable(text, start, end) {
            Some(slice(text, start, end))
        } else {
            None
        },
        None => None,
    }
}

/// The tokens of an expression behind a reborrow, if it is one.
pub open spec fn borrowed(expression: Seq<Lexed>) -> Option<Seq<Lexed>> {
    let inner = bare(expression);
    if inner.len() == 0 {
        None
    } else if inner[0].token == Token::Mark('&') {
        if inner.len() == 1 {
            None
        } else if inner[1].token == Token::Mark('*') {
            Some(bare(inner.skip(2)))
        } else {
            Some(inner)
        }
    } else {
        Some(inner)
    }
}

/// The value that a `Box::leak(Box::new(value))` leaks.
pub open spec fn leaked(text: Seq<char>) -> Option<Seq<char>> {
    match lexed(text) {
        Some(tokens) => match borrowed(tokens) {
            Some(expression) => match argument_text(text, expression, "Box"@, "leak"@) {
                Some(inner) => match lexed(inner) {
                    Some(boxed) => argument_text(inner, bare(boxed), "Box"@, "new"@),
                    None => None,
                },
                None => None,
            },
            None => None,
        },
        None => None,
    }
}

/// Whether a text is a call of the standard trait's `default`, by whatever name.
pub open spec fn is_default(text: Seq<char>, spellings: Spellings, defaulted: Seq<Seq<char>>) -> bool {
    match lexed(text) {
        Some(tokens) => {
            let inner = bare(tokens);
            let open = opening(inner, 0);
            &&& open == inner.len() - 2
            &&& closes(inner[open + 1])
            &&& segments(inner.take(open)) matches Some(names) && (spellings.names_function(names) || names.len() == 2 && names[1]
                == "default"@ && defaulted.contains(names[0]))
        },
        None => false,
    }
}

/// Whether two texts leak the same value, up to how it names its `Default`.
pub open spec fn is_leak_of_same(
    replacement: Seq<char>,
    original: Seq<char>,
    spellings: Spellings,
    defaulted: Seq<Seq<char>>,
) -> bool {
    match (leaked(replacement), leaked(original)) {
        (Some(one), Some(other)) => is_default(one, spellings, defaulted) && is_default(other, spellings, defaulted) || are_same(one, other),
        _ => false,
    }
}

/// What a replacement is compared with: a body without its braces, since what replaces it is an
/// expression rather than a block.
pub open spec fn compared(original: Seq<char>, shape: Shape) -> Seq<char> {
    if shape == Shape::Block || shape == Shape::IterBlock {
        let trimmed = trim(original);
        if trimmed.len() > 1 && trimmed[0] == '{' && trimmed.last() == '}' {
            trimmed.subrange(1, trimmed.len() - 1)
        } else {
            original
        }
    } else {
        original
    }
}

/// Whether a replacement reproduces the code it would replace.
pub open spec fn reproduces(
    replacement: Seq<char>,
    original: Seq<char>,
    shape: Shape,
    spellings: Spellings,
    defaulted: Seq<Seq<char>>,
) -> bool {
    let inner = compared(original, shape);
    are_same(replacement, inner) || is_leak_of_same(replacement, inner, spellings, defaulted)
}

/// A part of a list of tokens.
fn part<'a>(tokens: &Vec<Lexeme<'a>>, from: usize, to: usize) -> (r: Vec<Lexeme<'a>>)
    requires
        from <= to <= tokens@.len(),
    ensures
        views(r@) == views(tokens@).subrange(from as int, to as int),
{
    let mut out: Vec<Lexeme<'a>> = Vec::new();
    let mut at: usize = from;
    while at < to
        invariant
            from <= at <= to <= tokens@.len(),
            views(out@) == views(tokens@).subrange(from as int, at as int),
        decreases to - at,
    {
        let ghost before = views(out@);
        out.push(tokens[at]);
        at += 1;
        proof {
            assert(views(out@) =~= before.push(tokens@[at - 1]@));
            assert(views(tokens@).subrange(from as int, at as int) =~= views(tokens@).subrange(from as int, at - 1).push(
                views(tokens@)[at - 1],
            ));
        }
    }
    out
}

/// Whether a token is an opening parenthesis.
fn is_open(token: &Lexeme<'_>) -> (r: bool)
    ensures
        r == opens(token@),
{
    matches!(token.kind, Token::Bracket('('))
}

/// Whether a token is a closing parenthesis.
fn is_close(token: &Lexeme<'_>) -> (r: bool)
    ensures
        r == closes(token@),
{
    matches!(token.kind, Token::Bracket(')'))
}

/// The index of the parenthesis that closes the first one.
fn find_closing(tokens: &Vec<Lexeme<'_>>) -> (r: usize)
    ensures
        r == closing(views(tokens@), 0, 0),
{
    let mut at: usize = 0;
    let mut depth: usize = 0;
    let ghost all = views(tokens@);
    while at < tokens.len()
        invariant
            at <= tokens@.len(),
            depth <= at,
            all == views(tokens@),
            closing(all, 0, 0) == closing(all, at as int, depth as nat),
        decreases tokens@.len() - at,
    {
        proof {
            assert(all[at as int] == tokens@[at as int]@);
        }
        if is_open(&tokens[at]) {
            depth += 1;
        } else if is_close(&tokens[at]) {
            if depth <= 1 {
                return at;
            }
            depth -= 1;
        }
        at += 1;
    }
    tokens.len()
}

/// Tokens without the parentheses around all of them.
fn strip_parentheses<'a>(expression: Vec<Lexeme<'a>>) -> (r: Vec<Lexeme<'a>>)
    ensures
        views(r@) == bare(views(expression@)),
{
    let ghost goal = bare(views(expression@));
    let mut tokens = expression;
    loop
        invariant
            goal == bare(views(expression@)),
            bare(views(tokens@)) == goal,
        decreases tokens@.len(),
    {
        let size: usize = tokens.len();
        let ghost all = views(tokens@);
        proof {
            if size > 0 {
                assert(all[0] == tokens@[0]@);
                assert(all.last() == tokens@[size - 1]@);
            }
        }
        if size > 1 && is_open(&tokens[0]) && is_close(&tokens[size - 1]) && find_closing(&tokens) == size - 1 {
            tokens = part(&tokens, 1, size - 1);
            proof {
                assert(views(tokens@).len() == tokens@.len());
            }
        } else {
            return tokens;
        }
    }
}

/// The index of the first opening parenthesis.
fn find_opening(tokens: &Vec<Lexeme<'_>>) -> (r: usize)
    ensures
        r == opening(views(tokens@), 0),
        r <= tokens@.len(),
{
    let mut at: usize = 0;
    let ghost all = views(tokens@);
    while at < tokens.len()
        invariant
            at <= tokens@.len(),
            all == views(tokens@),
            opening(all, 0) == opening(all, at as int),
        decreases tokens@.len() - at,
    {
        proof {
            assert(all[at as int] == tokens@[at as int]@);
        }
        if is_open(&tokens[at]) {
            return at;
        }
        at += 1;
    }
    tokens.len()
}

/// Whether the tokens of a call are one argument list with one argument.
fn has_one_argument(call: &Vec<Lexeme<'_>>) -> (r: bool)
    ensures
        r == is_single(views(call@), 0, 0),
{
    let mut at: usize = 0;
    let mut depth: usize = 0;
    let ghost all = views(call@);
    while at < call.len()
        invariant
            at <= call@.len(),
            depth <= at,
            all == views(call@),
            is_single(all, 0, 0) == is_single(all, at as int, depth as nat),
        decreases call@.len() - at,
    {
        let token = call[at];
        proof {
            assert(all[at as int] == token@);
        }
        if is_open(&token) {
            depth += 1;
        } else if is_close(&token) {
            if depth == 0 || depth == 1 && at != call.len() - 1 {
                return false;
            }
            depth -= 1;
        } else if matches!(token.kind, Token::Mark(',')) && depth == 1 {
            return false;
        }
        at += 1;
    }
    depth == 0
}

/// Whether a token is a colon.
fn is_colon_token(token: &Lexeme<'_>) -> (r: bool)
    ensures
        r == is_colon(token@),
{
    matches!(token.kind, Token::Mark(':'))
}

/// The names of a path's segments, if the tokens are a path.
fn path_segments(path: Vec<Lexeme<'_>>) -> (r: Option<Vec<String>>)
    ensures
        match r {
            Some(names) => segments(views(path@)) == Some(strings(names@)),
            None => segments(views(path@)) is None,
        },
{
    let ghost goal = segments(views(path@));
    let tokens = strip_parentheses(path);
    let ghost all = views(tokens@);
    let size: usize = tokens.len();
    let mut names: Vec<String> = Vec::new();
    let mut at: usize = 0;
    proof {
        if size > 1 {
            assert(all[0] == tokens@[0]@);
            assert(all[1] == tokens@[1]@);
        }
    }
    if size > 1 && is_colon_token(&tokens[0]) && is_colon_token(&tokens[1]) {
        at = 2;
    }
    proof {
        match goal {
            Some(whole) => {
                assert(strings(names@) + whole =~= whole);
            },
            None => {},
        }
    }
    loop
        invariant
            size == tokens@.len(),
            all == views(tokens@),
            goal == segments(views(path@)),
            match segments_from(all, at as int) {
                Some(rest) => goal == Some(strings(names@) + rest),
                None => goal is None,
            },
        decreases size - at,
    {
        if at >= size || !matches!(tokens[at].kind, Token::Ident | Token::RawIdent) {
            proof {
                if at < size {
                    assert(all[at as int] == tokens@[at as int]@);
                }
            }
            return None;
        }
        let ghost before = strings(names@);
        names.push(text::owned(tokens[at].text));
        proof {
            assert(all[at as int] == tokens@[at as int]@);
            assert(strings(names@) =~= before.push(all[at as int].text));
        }
        if at == size - 1 {
            proof {
                assert(before + seq![all[at as int].text] =~= strings(names@));
            }
            return Some(names);
        }
        if size - at > 2 && is_colon_token(&tokens[at + 1]) && is_colon_token(&tokens[at + 2]) {
            proof {
                assert(all[at + 1] == tokens@[at + 1]@);
                assert(all[at + 2] == tokens@[at + 2]@);
                match segments_from(all, at + 3) {
                    Some(rest) => {
                        assert(strings(names@) + rest =~= before + (seq![all[at as int].text] + rest));
                    },
                    None => {},
                }
            }
            at += 3;
        } else {
            proof {
                if size - at > 2 {
                    assert(all[at + 1] == tokens@[at + 1]@);
                    assert(all[at + 2] == tokens@[at + 2]@);
                }
            }
            return None;
        }
    }
}

/// Whether a path ends in two given names.
fn path_ends_with(path: Vec<Lexeme<'_>>, qualifier: &str, name: &str) -> (r: bool)
    ensures
        r == ends_with(views(path@), qualifier@, name@),
{
    match path_segments(path) {
        Some(names) => {
            let size: usize = names.len();
            proof {
                if size >= 2 {
                    assert(strings(names@)[size - 2] == names@[size - 2]@);
                    assert(strings(names@).last() == names@[size - 1]@);
                }
            }
            size >= 2 && text::same(names[size - 2].as_str(), qualifier) && text::same(names[size - 1].as_str(), name)
        },
        None => false,
    }
}

/// The text of the one argument of a call to a given function, or nothing for any other expression.
pub fn call_argument<'a>(text: &'a str, expression: Vec<Lexeme<'a>>, qualifier: &str, name: &str) -> (r: Option<&'a str>)
    ensures
        viewed(r) == argument_text(text@, views(expression@), qualifier@, name@),
{
    let inner = strip_parentheses(expression);
    let ghost all = views(inner@);
    let open = find_opening(&inner);
    if open >= inner.len() {
        return None;
    }
    let call = part(&inner, open, inner.len());
    let callee = part(&inner, 0, open);
    proof {
        assert(views(callee@) =~= all.take(open as int));
        assert(views(call@) =~= all.skip(open as int));
        assert(views(call@).last() == call@[call@.len() - 1]@);
    }
    let size: usize = call.len();
    if !path_ends_with(callee, qualifier, name) || !is_close(&call[size - 1]) || !has_one_argument(&call) || size < 3 {
        return None;
    }
    proof {
        assert(views(call@)[1] == call@[1]@);
        assert(views(call@)[size - 2] == call@[size - 2]@);
    }
    text::get(text, call[1].start, call[size - 2].end)
}

/// The value a `Box::leak(Box::new(value))` leaks, or nothing for any other expression.
///
/// A leading `&*` is passed over: a shared reference is offered as `&*Box::leak(..)`.
pub fn leaked_value(text: &str) -> (r: Option<&str>)
    ensures
        viewed(r) == leaked(text@),
{
    let Some(tokens) = lexemes(text) else {
        return None;
    };
    let mut expression = strip_parentheses(tokens);
    let size: usize = expression.len();
    if size == 0 {
        return None;
    }
    let ghost inner = views(expression@);
    proof {
        assert(inner[0] == expression@[0]@);
        lemma_bare_is_bare(views(tokens@));
    }
    if matches!(expression[0].kind, Token::Mark('&')) {
        if size == 1 {
            return None;
        }
        proof {
            assert(inner[1] == expression@[1]@);
        }
        if matches!(expression[1].kind, Token::Mark('*')) {
            let behind = part(&expression, 2, size);
            proof {
                assert(views(behind@) =~= inner.skip(2));
            }
            expression = strip_parentheses(behind);
        }
    }
    let Some(leaked) = call_argument(text, expression, "Box", "leak") else {
        return None;
    };
    let Some(boxed) = lexemes(leaked) else {
        return None;
    };
    call_argument(leaked, strip_parentheses(boxed), "Box", "new")
}

/// Nothing more is stripped from what was stripped.
proof fn lemma_bare_is_bare(tokens: Seq<Lexed>)
    ensures
        bare(bare(tokens)) == bare(tokens),
    decreases tokens.len(),
{
    if tokens.len() > 1 && opens(tokens[0]) && closes(tokens.last()) && closing(tokens, 0, 0) == tokens.len() - 1 {
        lemma_bare_is_bare(tokens.subrange(1, tokens.len() - 1));
    }
}

/// Returns whether a text is a call of the standard trait's `default`, by whatever name.
pub fn is_default_call(text: &str, defaults: &DefaultPaths, defaulted: &Vec<String>) -> (r: bool)
    ensures
        r == is_default(text@, defaults@, strings(defaulted@)),
{
    let Some(tokens) = lexemes(text) else {
        return false;
    };
    let inner = strip_parentheses(tokens);
    let ghost all = views(inner@);
    let size: usize = inner.len();
    let open = find_opening(&inner);
    if size < 2 || open != size - 2 {
        return false;
    }
    proof {
        assert(all[open + 1] == inner@[open + 1]@);
    }
    if !is_close(&inner[open + 1]) {
        return false;
    }
    let callee = part(&inner, 0, open);
    proof {
        assert(views(callee@) =~= all.take(open as int));
    }
    let Some(names) = path_segments(callee) else {
        return false;
    };
    let pair = names.len() == 2;
    proof {
        if pair {
            assert(strings(names@)[0] == names@[0]@);
            assert(strings(names@)[1] == names@[1]@);
        }
    }
    if pair && text::same(names[1].as_str(), "default") && is_among(defaulted, names[0].as_str()) {
        return true;
    }
    defaults.is_standard_default_segments(names)
}

/// Returns whether two expressions are the same `Box::leak(Box::new(...))`, up to how the value
/// inside names its `Default`.
///
/// Deliberately narrow: it answers for this one shape and nothing else, rather than pretending to
/// decide equivalence in general.
pub fn is_same_leak(replacement: &str, original: &str, defaults: &DefaultPaths, defaulted: &Vec<String>) -> (r: bool)
    ensures
        r == is_leak_of_same(replacement@, original@, defaults@, strings(defaulted@)),
{
    let Some(one) = leaked_value(replacement) else {
        return false;
    };
    let Some(other) = leaked_value(original) else {
        return false;
    };
    is_default_call(one, defaults, defaulted) && is_default_call(other, defaults, defaulted) || same_tokens(one, other)
}

/// Returns whether a replacement reproduces the code it would replace.
///
/// Such a mutant is not a weak one, it is not a mutant at all: the compiled program is unchanged,
/// so no test can distinguish it. It arises whenever a function already returns one of the values
/// that are offered. The comparison is made on tokens rather than text so that layout, comments and
/// the braces around a body do not decide the answer.
pub fn is_noop(replacement: &str, original: &str, shape: Shape, defaults: &DefaultPaths, defaulted: &Vec<String>) -> (r: bool)
    ensures
        r == reproduces(replacement@, original@, shape, defaults@, strings(defaulted@)),
{
    let mut inner = original;
    if matches!(shape, Shape::Block | Shape::IterBlock) {
        let trimmed = text::trimmed(original);
        let chars = text::characters(trimmed);
        let size: usize = chars.len();
        if size > 1 && chars[0] == '{' && chars[size - 1] == '}' {
            inner = trimmed.substring_char(1, size - 1);
        }
    }
    same_tokens(replacement, inner) || is_same_leak(replacement, inner, defaults, defaulted)
}

/// Layout does not decide whether a replacement is one: what is made of the same tokens as a text
/// and spaced alike reproduces the same code as it.
pub proof fn law_reproduction_depends_on_tokens_alone(
    one: Seq<char>,
    other: Seq<char>,
    original: Seq<char>,
)
    requires
        lexed(one) is Some,
        lexed(other) is Some,
        lexed(original) is Some,
        same_lexed(lexed(one)->0, lexed(other)->0),
    ensures
        are_same(one, original) == are_same(other, original),
{
    let a = lexed(one)->0;
    let b = lexed(other)->0;
    let c = lexed(original)->0;
    if same_lexed(a, c) {
        assert forall|i: int| 0 <= i < b.len() implies (#[trigger] b[i]).token == c[i].token && b[i].text == c[i].text by {
            assert(a[i].token == b[i].token && a[i].token == c[i].token);
        }
        assert forall|i: int| 0 < i < b.len() && spacing_matters(b[i - 1].token, (#[trigger] b[i]).token) implies ((b[i - 1].end
            == b[i].start) == (c[i - 1].end == c[i].start)) by {
            assert(a[i].token == b[i].token);
            assert(a[i - 1].token == b[i - 1].token);
        }
    }
    if same_lexed(b, c) {
        assert forall|i: int| 0 <= i < a.len() implies (#[trigger] a[i]).token == c[i].token && a[i].text == c[i].text by {
            assert(b[i].token == c[i].token);
        }
        assert forall|i: int| 0 < i < a.len() && spacing_matters(a[i - 1].token, (#[trigger] a[i]).token) implies ((a[i - 1].end
            == a[i].start) == (c[i - 1].end == c[i].start)) by {
            assert(b[i].token == c[i].token);
            assert(a[i - 1].token == b[i - 1].token);
        }
    }
}

} // verus!
