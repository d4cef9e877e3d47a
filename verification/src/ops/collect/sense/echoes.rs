//! When a replacement says what was there already.
use super::super::collector::noop::{
    argument, are_same, bare, borrowed, closes, closing, is_default, is_single, leaked, lexed, opening, opens, reproduces, same_lexed, segments,
    segments_from, spacing_matters, Lexed,
};
use super::super::defaults::Spellings;
use crate::lexer::Token;
use crate::ops::collect::Shape;
use crate::text::{is_white, slice, sliceable, trim};
use vstd::prelude::*;

verus! {

/// What can be read says what it says: a replacement by the same text is none, in any shape that is not a
/// block.
pub proof fn law_the_same_text_says_the_same(text: Seq<char>, shape: Shape, spellings: Spellings, defaulted: Seq<Seq<char>>)
    requires
        lexed(text) is Some,
        shape != Shape::Block,
        shape != Shape::IterBlock,
    ensures
        reproduces(text, text, shape, spellings, defaulted),
{
    assert(same_lexed(lexed(text)->0, lexed(text)->0));
}

/// What says the same says it both ways.
pub proof fn law_saying_the_same_works_both_ways(left: Seq<char>, right: Seq<char>)
    ensures
        are_same(left, right) <==> are_same(right, left),
{
    if are_same(left, right) {
        lemma_both_ways(left, right);
    }
    if are_same(right, left) {
        lemma_both_ways(right, left);
    }
}

proof fn lemma_both_ways(left: Seq<char>, right: Seq<char>)
    requires
        are_same(left, right),
    ensures
        are_same(right, left),
{
    let (a, b) = (lexed(left)->0, lexed(right)->0);
    assert forall|i: int| 0 <= i < b.len() implies (#[trigger] b[i]).token == a[i].token && b[i].text == a[i].text by {
        assert(a[i].token == b[i].token);
    }
    assert forall|i: int| 0 < i < b.len() && spacing_matters(b[i - 1].token, (#[trigger] b[i]).token) implies ((b[i - 1].end == b[i].start)
        == (a[i - 1].end == a[i].start)) by {
        assert(a[i].token == b[i].token);
        assert(a[i - 1].token == b[i - 1].token);
    }
}

/// Texts that differ in a token do not say the same, and neither do texts of which one cannot be read.
pub proof fn law_other_tokens_say_something_else(left: Seq<char>, right: Seq<char>, i: int)
    ensures
        lexed(left) is None || lexed(right) is None ==> !are_same(left, right),
        lexed(left) is Some && lexed(right) is Some && lexed(left)->0.len() != lexed(right)->0.len() ==> !are_same(left, right),
        lexed(left) is Some && lexed(right) is Some && 0 <= i < lexed(left)->0.len() && lexed(left)->0[i].text != lexed(right)->0[i].text
            ==> !are_same(left, right),
{
}

/// Two marks that are run together say something else than two that are not, and so do two words.
pub proof fn law_marks_run_together_say_something_else(left: Seq<char>, right: Seq<char>, i: int)
    requires
        lexed(left) is Some,
        lexed(right) is Some,
        0 < i < lexed(left)->0.len(),
        lexed(right)->0.len() == lexed(left)->0.len(),
        lexed(left)->0[i - 1].token is Mark && lexed(left)->0[i].token is Mark || lexed(left)->0[i - 1].token is Ident
            && lexed(left)->0[i].token is Ident,
        lexed(left)->0[i - 1].end == lexed(left)->0[i].start,
        lexed(right)->0[i - 1].end != lexed(right)->0[i].start,
    ensures
        !are_same(left, right),
{
    let (a, b) = (lexed(left)->0, lexed(right)->0);
    assert(spacing_matters(a[i - 1].token, a[i].token));
}

/// The braces around a block, and the white space around them, are no part of what it says.
pub proof fn law_braces_say_nothing(replacement: Seq<char>, inner: Seq<char>, spellings: Spellings, defaulted: Seq<Seq<char>>)
    ensures
        reproduces(replacement, seq!['{'] + inner + seq!['}'], Shape::Block, spellings, defaulted) <==> reproduces(
            replacement,
            inner,
            Shape::Expr,
            spellings,
            defaulted,
        ),
        reproduces(replacement, seq!['{'] + inner + seq!['}'], Shape::IterBlock, spellings, defaulted) <==> reproduces(
            replacement,
            inner,
            Shape::Expr,
            spellings,
            defaulted,
        ),
{
    let block = seq!['{'] + inner + seq!['}'];
    lemma_trimmed(block);
    assert(block.subrange(1, block.len() - 1) =~= inner);
}

proof fn lemma_trimmed(block: Seq<char>)
    requires
        block.len() > 1,
        block[0] == '{',
        block.last() == '}',
    ensures
        trim(block) == block,
{
    assert(!is_white('{') && !is_white('}'));
    crate::text::law_white_space('{');
    crate::text::law_white_space('}');
}

/// Brackets around all of an expression are no part of it.
pub proof fn law_brackets_around_all_say_nothing(open: Lexed, inner: Seq<Lexed>, close: Lexed)
    requires
        opens(open),
        closes(close),
        forall|i: int| 0 <= i < inner.len() ==> !opens(#[trigger] inner[i]) && !closes(inner[i]),
    ensures
        bare(seq![open] + inner + seq![close]) == inner,
{
    let all = seq![open] + inner + seq![close];
    lemma_closing(all, 1);
    assert(closing(all, 0, 0) == closing(all, 1, 1));
    assert(all.subrange(1, all.len() - 1) =~= inner);
    if inner.len() > 1 {
        assert(!opens(inner[0]));
    }
    assert(bare(inner) == inner);
}

proof fn lemma_closing(all: Seq<Lexed>, at: int)
    requires
        1 <= at < all.len(),
        closes(all.last()),
        forall|i: int| 1 <= i < all.len() - 1 ==> !opens(#[trigger] all[i]) && !closes(all[i]),
    ensures
        closing(all, at, 1) == all.len() - 1,
    decreases all.len() - at,
{
    if at < all.len() - 1 {
        lemma_closing(all, at + 1);
    }
}

/// Whether tokens are a path of two names.
pub open spec fn is_pair(path: Seq<Lexed>, one: Seq<char>, two: Seq<char>) -> bool {
    &&& path.len() == 4
    &&& path[0].token is Ident && path[0].text == one
    &&& path[1].token == Token::Mark(':')
    &&& path[2].token == Token::Mark(':')
    &&& path[3].token is Ident && path[3].text == two
}

proof fn lemma_pair(path: Seq<Lexed>, one: Seq<char>, two: Seq<char>)
    requires
        is_pair(path, one, two),
    ensures
        segments(path) == Some(seq![one, two]),
        forall|i: int| 0 <= i < 4 ==> !opens(#[trigger] path[i]),
{
    assert(!opens(path[0]));
    assert(bare(path) == path);
    assert(segments_from(path, 3) == Some(seq![two]));
    assert(seq![one] + seq![two] =~= seq![one, two]);
    assert(segments_from(path, 0) == Some(seq![one] + seq![two]));
}

proof fn lemma_opening(tokens: Seq<Lexed>, at: int, open: int)
    requires
        0 <= at <= open < tokens.len(),
        opens(tokens[open]),
        forall|i: int| at <= i < open ==> !opens(#[trigger] tokens[i]),
    ensures
        opening(tokens, at) == open,
    decreases open - at,
{
    if at < open {
        lemma_opening(tokens, at + 1, open);
    }
}

/// A call without arguments of a path of two names is a default where the path names the function of the trait,
/// or that of a parameter that promises one.
pub proof fn law_a_default_is_known_by_its_call(
    text: Seq<char>,
    path: Seq<Lexed>,
    open: Lexed,
    close: Lexed,
    one: Seq<char>,
    two: Seq<char>,
    spellings: Spellings,
    defaulted: Seq<Seq<char>>,
)
    requires
        is_pair(path, one, two),
        opens(open),
        closes(close),
        lexed(text) == Some(path + seq![open, close]),
    ensures
        is_default(text, spellings, defaulted) <==> spellings.names_function(seq![one, two]) || two == "default"@ && defaulted.contains(one),
{
    let tokens = path + seq![open, close];
    lemma_pair(path, one, two);
    assert(tokens[0] == path[0]);
    assert(!opens(tokens[0]));
    assert(bare(tokens) == tokens);
    assert forall|i: int| 0 <= i < 4 implies !opens(#[trigger] tokens[i]) by {
        assert(tokens[i] == path[i]);
    }
    assert(tokens[4] == open && tokens[5] == close);
    lemma_opening(tokens, 0, 4);
    assert(tokens.take(4) =~= path);
}

/// What a call of a path of two names is made with is what is between its brackets, where that is one thing.
pub proof fn law_the_argument_of_a_call_is_between_its_brackets(
    path: Seq<Lexed>,
    open: Lexed,
    inner: Seq<Lexed>,
    close: Lexed,
    one: Seq<char>,
    two: Seq<char>,
)
    requires
        is_pair(path, one, two),
        opens(open),
        closes(close),
        inner.len() > 0,
        forall|i: int| 0 <= i < inner.len() ==> !opens(#[trigger] inner[i]) && !closes(inner[i]) && inner[i].token != Token::Mark(','),
    ensures
        argument(path + seq![open] + inner + seq![close], one, two) == Some((inner[0].start, inner.last().end)),
{
    let all = path + seq![open] + inner + seq![close];
    let call = seq![open] + inner + seq![close];
    lemma_pair(path, one, two);
    assert(all[0] == path[0]);
    assert(!opens(all[0]));
    assert(bare(all) == all);
    assert forall|i: int| 0 <= i < 4 implies !opens(#[trigger] all[i]) by {
        assert(all[i] == path[i]);
    }
    assert(all[4] == open);
    lemma_opening(all, 0, 4);
    assert(all.take(4) =~= path);
    assert(all.skip(4) =~= call);
    assert(call.last() == close);
    lemma_single(call, 1);
    assert(is_single(call, 0, 0) == is_single(call, 1, 1));
    assert(call[1] == inner[0]);
    assert(call[call.len() - 2] == inner.last());
}

proof fn lemma_single(call: Seq<Lexed>, at: int)
    requires
        1 <= at < call.len(),
        closes(call.last()),
        forall|i: int| 1 <= i < call.len() - 1 ==> !opens(#[trigger] call[i]) && !closes(call[i]) && call[i].token != Token::Mark(','),
    ensures
        is_single(call, at, 1),
    decreases call.len() - at,
{
    if at < call.len() - 1 {
        lemma_single(call, at + 1);
    } else {
        assert(is_single(call, at + 1, 0));
    }
}

/// What is borrowed of something that is pointed to is the thing itself.
pub proof fn law_borrowing_what_is_pointed_to_says_nothing(amp: Lexed, star: Lexed, inner: Seq<Lexed>)
    requires
        amp.token == Token::Mark('&'),
        inner.len() > 0,
        !opens(inner[0]),
    ensures
        star.token == Token::Mark('*') ==> borrowed(seq![amp, star] + inner) == Some(inner),
        inner[0].token is Ident ==> borrowed(inner) == Some(inner),
        inner[0].token is Ident ==> borrowed(seq![amp] + inner) == Some(seq![amp] + inner),
{
    let long = seq![amp, star] + inner;
    let short = seq![amp] + inner;
    assert(long[0] == amp && long[1] == star && short[0] == amp && short[1] == inner[0]);
    assert(bare(long) == long && bare(short) == short && bare(inner) == inner);
    assert(long.skip(2) =~= inner);
}

proof fn lemma_nested_single(call: Seq<Lexed>, at: int, open: int)
    requires
        1 <= at <= open,
        open + 1 < call.len() - 2,
        opens(call[open]),
        closes(call[call.len() - 2]),
        closes(call[call.len() - 1]),
        forall|i: int| 1 <= i < open ==> !opens(#[trigger] call[i]) && !closes(call[i]) && call[i].token != Token::Mark(','),
        forall|i: int| open < i < call.len() - 2 ==> !opens(#[trigger] call[i]) && !closes(call[i]),
    ensures
        is_single(call, at, 1),
    decreases open - at,
{
    if at < open {
        lemma_nested_single(call, at + 1, open);
    } else {
        lemma_inside_single(call, open + 1, open);
    }
}

proof fn lemma_inside_single(call: Seq<Lexed>, at: int, open: int)
    requires
        0 <= open < at <= call.len() - 2,
        closes(call[call.len() - 2]),
        closes(call[call.len() - 1]),
        forall|i: int| open < i < call.len() - 2 ==> !opens(#[trigger] call[i]) && !closes(call[i]),
    ensures
        is_single(call, at, 2),
    decreases call.len() - at,
{
    if at < call.len() - 2 {
        lemma_inside_single(call, at + 1, open);
    } else {
        assert(is_single(call, call.len() as int, 0));
        assert(is_single(call, call.len() - 1, 1));
    }
}

/// What is leaked is what the box is made of that `Box::leak` is called with.
pub proof fn law_what_is_leaked_is_what_the_box_is_made_of(
    text: Seq<char>,
    leak: Seq<Lexed>,
    open: Lexed,
    boxed: Seq<Lexed>,
    close: Lexed,
    made: Seq<Lexed>,
    begin: Lexed,
    value: Seq<Lexed>,
    end: Lexed,
    inner: Seq<char>,
)
    requires
        is_pair(leak, "Box"@, "leak"@),
        is_pair(made, "Box"@, "new"@),
        opens(open) && opens(begin) && closes(close) && closes(end),
        value.len() > 0,
        forall|i: int| 0 <= i < value.len() ==> !opens(#[trigger] value[i]) && !closes(value[i]) && value[i].token != Token::Mark(','),
        lexed(text) == Some(leak + seq![open] + boxed + seq![close]),
        boxed.len() > 6,
        forall|i: int| 0 <= i < 4 ==> !opens(#[trigger] boxed[i]) && !closes(boxed[i]) && boxed[i].token != Token::Mark(','),
        opens(boxed[4]),
        closes(boxed.last()),
        forall|i: int| 4 < i < boxed.len() - 1 ==> !opens(#[trigger] boxed[i]) && !closes(boxed[i]),
        sliceable(text, boxed[0].start, boxed.last().end),
        inner == slice(text, boxed[0].start, boxed.last().end),
        lexed(inner) == Some(made + seq![begin] + value + seq![end]),
        sliceable(inner, value[0].start, value.last().end),
    ensures
        leaked(text) == Some(slice(inner, value[0].start, value.last().end)),
{
    let all = leak + seq![open] + boxed + seq![close];
    let call = seq![open] + boxed + seq![close];
    lemma_pair(leak, "Box"@, "leak"@);
    assert(all[0] == leak[0]);
    assert(!opens(all[0]));
    assert(bare(all) == all);
    assert(borrowed(all) == Some(all));
    assert forall|i: int| 0 <= i < 4 implies !opens(#[trigger] all[i]) by {
        assert(all[i] == leak[i]);
    }
    assert(all[4] == open);
    lemma_opening(all, 0, 4);
    assert(all.take(4) =~= leak);
    assert(all.skip(4) =~= call);
    assert forall|i: int| 1 <= i < 5 implies !opens(#[trigger] call[i]) && !closes(call[i]) && call[i].token != Token::Mark(',') by {
        assert(call[i] == boxed[i - 1]);
    }
    assert forall|i: int| 5 < i < call.len() - 2 implies !opens(#[trigger] call[i]) && !closes(call[i]) by {
        assert(call[i] == boxed[i - 1]);
    }
    assert(call[5] == boxed[4]);
    assert(call[call.len() - 2] == boxed.last());
    assert(call[call.len() - 1] == close);
    lemma_nested_single(call, 1, 5);
    assert(is_single(call, 0, 0) == is_single(call, 1, 1));
    assert(call[1] == boxed[0]);
    assert(argument(all, "Box"@, "leak"@) == Some((boxed[0].start, boxed.last().end)));
    law_the_argument_of_a_call_is_between_its_brackets(made, begin, value, end, "Box"@, "new"@);
    let tokens = made + seq![begin] + value + seq![end];
    lemma_pair(made, "Box"@, "new"@);
    assert(tokens[0] == made[0]);
    assert(bare(tokens) == tokens);
}

/// Two values that are leaked say the same where both are defaults, however they are spelled, or where the
/// values do.
pub proof fn law_leaked_values_say_the_same(
    replacement: Seq<char>,
    original: Seq<char>,
    one: Seq<char>,
    other: Seq<char>,
    spellings: Spellings,
    defaulted: Seq<Seq<char>>,
)
    requires
        leaked(replacement) == Some(one),
        leaked(original) == Some(other),
    ensures
        is_default(one, spellings, defaulted) && is_default(other, spellings, defaulted) ==> reproduces(
            replacement,
            original,
            Shape::Expr,
            spellings,
            defaulted,
        ),
        are_same(one, other) ==> reproduces(replacement, original, Shape::Expr, spellings, defaulted),
        !are_same(replacement, original) && !are_same(one, other) && !(is_default(one, spellings, defaulted) && is_default(
            other,
            spellings,
            defaulted,
        )) ==> !reproduces(replacement, original, Shape::Expr, spellings, defaulted),
{
}

} // verus!
