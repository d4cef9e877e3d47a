//! What each token costs a parser, and how a file that cannot be read is named.
use super::lines::lemma_line_walked;
use super::nesting;
use super::nesting::{Level, Walk};
use super::source_file::{bare, depth_message, excess_in, excess_of, may_name_interpreter, parse_message, read_message, Excess};
use super::strain;
use super::strain::{Load, Strain};
use crate::text::{breaks, byte_len, decimal, escaped, law_decimals_stand_for_their_number, stands_for};
use vstd::prelude::*;

verus! {

// ---- Nesting. ----

/// Whether a token is accepted and the costs of what is open become these.
pub open spec fn reads(after: Option<Walk>, levels: Seq<Level>, expression: bool) -> bool {
    after matches Some(walk) && walk.levels == levels && walk.expression == expression
}

/// Whether a byte is a mark that goes on with an expression.
pub open spec fn goes_on(byte: u8) -> bool {
    let c = byte as char;
    byte <= 0x7f && (c == '+' || c == '-' || c == '*' || c == '/' || c == '%' || c == '&' || c == '|' || c == '^' || c == '!' || c == '<' || c
        == '>' || c == '=' || c == '?' || c == '.')
}

/// A mark that goes on with an expression makes it longer by one, and one that makes it too long is refused.
pub proof fn law_operators_make_an_expression_longer(walk: Walk, byte: u8, limit: nat)
    requires
        walk.levels.len() > 0,
        goes_on(byte),
    ensures
        walk.top().path >= limit <==> nesting::read_byte(walk, byte, limit) is None,
        nesting::read_byte(walk, byte, limit) matches Some(after) ==> after.levels.len() == walk.levels.len() && after.top().path
            == walk.top().path + 1 && after.top().base == walk.top().base && after.top().peak >= after.top().path,
{
}

/// A bracket in an expression is nested in as much of it as was read, and costs as much as four marks do. One
/// that goes on with an expression costs one more.
pub proof fn law_brackets_are_nested_in_their_expression(walk: Walk, byte: u8, limit: nat)
    requires
        walk.levels.len() > 0,
        byte as char == '(' || byte as char == '[',
        byte <= 0x7f,
    ensures
        ({
            let cost = walk.top().path + 4 + if walk.expression {
                1int
            } else {
                0int
            };
            let after = nesting::read_byte(walk, byte, limit);
            &&& cost > limit <==> after is None
            &&& after matches Some(next) ==> next.levels.len() == walk.levels.len() + 1 && next.top() == Level::inheriting(cost as nat)
                && !next.expression
        }),
{
}

/// A block is nested in what its delimiter began with, and costs as much as four marks do.
pub proof fn law_blocks_are_nested_in_blocks(walk: Walk, byte: u8, limit: nat)
    requires
        walk.levels.len() > 0,
        byte as char == '{',
        byte <= 0x7f,
    ensures
        walk.top().base + 4 > limit <==> nesting::read_byte(walk, byte, limit) is None,
        nesting::read_byte(walk, byte, limit) matches Some(after) ==> after.levels == walk.levels.push(
            Level::inheriting(walk.top().base + 4),
        ) && !after.expression,
{
}

/// What is closed leaves what was open around it, at least as costly as the costliest thing inside. After a
/// block, and only then, an `else` may follow.
pub proof fn law_closing_leaves_what_was_around(walk: Walk, byte: u8, limit: nat)
    requires
        walk.levels.len() > 1,
        byte as char == ')' || byte as char == ']' || byte as char == '}',
        byte <= 0x7f,
    ensures
        nesting::read_byte(walk, byte, limit) matches Some(after) && {
            let outer = walk.levels[walk.levels.len() - 2];
            &&& after.levels.len() == walk.levels.len() - 1
            &&& after.expression
            &&& after.top().base == outer.base
            &&& after.top().path >= outer.path && after.top().path >= walk.top().peak
            &&& after.top().path == outer.path || after.top().path == walk.top().peak
            &&& byte as char == '}' ==> after.top().awaiting
            &&& byte as char != '}' ==> after.top().awaiting == outer.awaiting
        },
{
}

/// A statement or an argument begins anew, at no more than its delimiter costs.
pub proof fn law_statements_begin_anew(walk: Walk, byte: u8, limit: nat)
    requires
        walk.levels.len() > 0,
        byte as char == ';' || byte as char == ',',
        byte <= 0x7f,
    ensures
        nesting::read_byte(walk, byte, limit) matches Some(after) && after.levels.len() == walk.levels.len() && after.top().path
            == walk.top().base && after.top().rungs == 0 && !after.top().awaiting && !after.expression,
{
}

/// An `else` behind a block, and an `as`, make an expression longer by one. Any other word begins a new one
/// where one has been read.
pub proof fn law_words_that_make_an_expression_longer(walk: Walk, word: Seq<char>, limit: nat)
    requires
        walk.levels.len() > 0,
    ensures
        word == "else"@ && walk.top().awaiting ==> (nesting::read_word(walk, word, limit) is None <==> walk.top().rungs >= limit
            || walk.top().path >= limit),
        word == "else"@ && walk.top().awaiting ==> (nesting::read_word(walk, word, limit) matches Some(after) ==> after.top().path
            == walk.top().path + 1 && after.top().rungs == walk.top().rungs + 1 && !after.expression),
        word == "as"@ ==> (nesting::read_word(walk, word, limit) is None <==> walk.top().path >= limit),
        word == "as"@ ==> (nesting::read_word(walk, word, limit) matches Some(after) ==> after.top().path == walk.top().path + 1
            && !after.expression),
        word != "as"@ && (word != "else"@ || !walk.top().awaiting) ==> (nesting::read_word(walk, word, limit) matches Some(after)
            && after.expression && after.top().path == if walk.expression {
            walk.top().base
        } else {
            walk.top().path
        }),
{
    reveal_strlit("else");
    reveal_strlit("as");
    assert("else"@.len() == 4 && "as"@.len() == 2);
}

/// A file may nest so deep that sixty-four brackets are open, or four times as many marks follow each other.
pub proof fn law_how_deep_a_file_may_nest()
    ensures
        nesting::path_limit(nesting::NESTING_LIMIT) == 4 * 64,
{
}

// ---- Strain. ----

/// Whether the path that is read becomes longer by so much, of which a block that follows lies beneath so much,
/// or is refused where that is too long.
pub open spec fn lengthens(s: Strain, after: Option<Strain>, from: Load, cost: int, heavy: int) -> bool {
    &&& after is None <==> from.cost + cost > 768 || from.heavy + heavy > 768
    &&& after matches Some(next) ==> {
        &&& next.loads.len() == s.loads.len()
        &&& next.loads.drop_last() == s.loads.drop_last()
        &&& next.top().cost == from.cost + cost
        &&& next.top().heavy == from.heavy + heavy
        &&& next.top().base == from.base
        &&& next.top().peak >= next.top().cost
        &&& next.top().peak == from.peak || next.top().peak == next.top().cost
    }
}

/// The path that a word goes on with: a new one where a block has just been closed.
pub open spec fn at(s: Strain) -> Load {
    let top = s.top();
    if top.ended {
        Load { cost: top.base, heavy: 0, angles: 0, params: false, ended: false, ..top }
    } else {
        top
    }
}

/// Whether a parser calls itself for what follows a word.
pub open spec fn calls_itself(word: Seq<char>) -> bool {
    word == "return"@ || word == "break"@ || word == "yield"@ || word == "become"@ || word == "if"@ || word == "match"@ || word == "while"@ || word
        == "for"@
}

/// Whether a word leads into something without any cost.
pub open spec fn leads_in(word: Seq<char>) -> bool {
    word == "let"@ || word == "mut"@ || word == "ref"@ || word == "move"@ || word == "async"@ || word == "static"@ || word == "const"@ || word
        == "unsafe"@ || word == "dyn"@ || word == "impl"@ || word == "fn"@ || word == "where"@
}

/// How long a word is, how it begins and how it ends.
spec fn sketch(word: Seq<char>) -> (nat, char, char, char) {
    (word.len(), word[0], word[word.len() - 2], word[word.len() - 1])
}

proof fn lemma_sketches()
    ensures
        sketch("else"@) == (4nat, 'e', 's', 'e'),
        sketch("as"@) == (2nat, 'a', 'a', 's'),
        sketch("in"@) == (2nat, 'i', 'i', 'n'),
        sketch("use"@) == (3nat, 'u', 's', 'e'),
        sketch("return"@) == (6nat, 'r', 'r', 'n'),
        sketch("break"@) == (5nat, 'b', 'a', 'k'),
        sketch("yield"@) == (5nat, 'y', 'l', 'd'),
        sketch("become"@) == (6nat, 'b', 'm', 'e'),
        sketch("if"@) == (2nat, 'i', 'i', 'f'),
        sketch("match"@) == (5nat, 'm', 'c', 'h'),
        sketch("while"@) == (5nat, 'w', 'l', 'e'),
        sketch("for"@) == (3nat, 'f', 'o', 'r'),
        sketch("const"@) == (5nat, 'c', 's', 't'),
        sketch("mut"@) == (3nat, 'm', 'u', 't'),
{
    reveal_strlit("else");
    reveal_strlit("as");
    reveal_strlit("in");
    reveal_strlit("use");
    reveal_strlit("return");
    reveal_strlit("break");
    reveal_strlit("yield");
    reveal_strlit("become");
    reveal_strlit("if");
    reveal_strlit("match");
    reveal_strlit("while");
    reveal_strlit("for");
    reveal_strlit("const");
    reveal_strlit("mut");
}

proof fn lemma_leading_sketches()
    ensures
        sketch("let"@) == (3nat, 'l', 'e', 't'),
        sketch("mut"@) == (3nat, 'm', 'u', 't'),
        sketch("ref"@) == (3nat, 'r', 'e', 'f'),
        sketch("move"@) == (4nat, 'm', 'v', 'e'),
        sketch("async"@) == (5nat, 'a', 'n', 'c'),
        sketch("static"@) == (6nat, 's', 'i', 'c'),
        sketch("const"@) == (5nat, 'c', 's', 't'),
        sketch("unsafe"@) == (6nat, 'u', 'f', 'e'),
        sketch("dyn"@) == (3nat, 'd', 'y', 'n'),
        sketch("impl"@) == (4nat, 'i', 'p', 'l'),
        sketch("fn"@) == (2nat, 'f', 'f', 'n'),
        sketch("where"@) == (5nat, 'w', 'r', 'e'),
{
    reveal_strlit("let");
    reveal_strlit("mut");
    reveal_strlit("ref");
    reveal_strlit("move");
    reveal_strlit("async");
    reveal_strlit("static");
    reveal_strlit("const");
    reveal_strlit("unsafe");
    reveal_strlit("dyn");
    reveal_strlit("impl");
    reveal_strlit("fn");
    reveal_strlit("where");
}

/// A word that a parser calls itself for costs four steps, a block behind it lies beneath them, and the `if` of
/// an `else if` costs nothing more than its `else`. A conversion and an `in` cost one step.
pub proof fn law_words_that_strain_a_parser(s: Strain, word: Seq<char>)
    requires
        s.loads.len() > 0,
    ensures
        calls_itself(word) && !(word == "if"@ && s.rung) ==> lengthens(s, strain::read_word(s, word), at(s), 4, 4),
        word == "if"@ && s.rung ==> (strain::read_word(s, word) matches Some(after) && after.top() == s.top()),
        word == "as"@ || word == "in"@ ==> lengthens(s, strain::read_word(s, word), s.top(), 1, 0),
        (word == "const"@ || word == "mut"@) && s.named ==> lengthens(s, strain::read_word(s, word), at(s), 4, 4),
        word == "use"@ ==> (strain::read_word(s, word) matches Some(after) && after.top().importing && after.top().cost == at(s).cost),
        word == "else"@ && s.top().base + s.top().heavy + 1 <= 768 && s.top().heavy + 1 <= 768 ==> (strain::read_word(s, word) matches Some(
            after,
        ) && after.rung && after.top().cost == s.top().base + s.top().heavy + 1 && after.top().heavy == s.top().heavy + 1),
        word == "else"@ && s.top().base + s.top().heavy + 1 > 768 ==> strain::read_word(s, word) is None,
{
    lemma_sketches();
    if let Some(after) = strain::read_word(s, word) {
        assert(after.loads.drop_last() =~= s.loads.drop_last());
    }
}

/// Other words cost nothing: those that lead into something go on, and a name is something that can be gone on
/// with, or begins a new path behind one.
pub proof fn law_other_words_strain_no_parser(s: Strain, word: Seq<char>)
    requires
        s.loads.len() > 0,
    ensures
        leads_in(word) && !((word == "const"@ || word == "mut"@) && s.named) ==> (strain::read_word(s, word) matches Some(after)
            && after.top() == at(s) && !after.operand && !after.named),
        !calls_itself(word) && !leads_in(word) && word != "as"@ && word != "in"@ && word != "use"@ && word != "else"@ ==> (strain::read_word(
            s,
            word,
        ) matches Some(after) && after.operand && after.named && after.top().cost == if s.operand {
            s.top().base
        } else {
            at(s).cost
        }),
{
    lemma_sketches();
    lemma_leading_sketches();
}

/// An operator behind something costs one step, and in front of something one that a block lies beneath. An
/// assignment always costs such a one.
pub proof fn law_operators_strain_a_parser(s: Strain, byte: u8)
    requires
        s.loads.len() > 0,
        byte <= 0x7f,
    ensures
        ({
            let c = byte as char;
            c == '+' || c == '-' || c == '*' || c == '/' || c == '%' || c == '&' || c == '^' || c == '!' || c == '.' || c == '?'
        }) ==> lengthens(
            s,
            strain::read_byte(s, byte),
            s.top(),
            1,
            if s.operand {
                0
            } else {
                1
            },
        ),
        byte as char == '=' ==> lengthens(s, strain::read_byte(s, byte), s.top(), 1, 1),
        byte as char == '>' ==> lengthens(s, strain::read_byte(s, byte), s.top(), 1, 0),
        byte as char == '<' && s.operand && !s.named ==> lengthens(s, strain::read_byte(s, byte), s.top(), 1, 0),
        byte as char == '<' && (s.named || !s.operand) && s.top().angles < 768 ==> lengthens(s, strain::read_byte(s, byte), s.top(), 4, 0),
        byte as char == '@' ==> lengthens(s, strain::read_byte(s, byte), s.top(), 4, 4),
        byte as char == '|' && !s.top().params && !s.operand ==> lengthens(s, strain::read_byte(s, byte), s.top(), 4, 4),
        byte as char == '|' && (s.top().params || s.operand) ==> lengthens(s, strain::read_byte(s, byte), s.top(), 1, 0),
{
    if let Some(after) = strain::read_byte(s, byte) {
        let c = byte as char;
        if c != '(' && c != '[' && c != '{' && c != ')' && c != ']' && c != '}' {
            assert(after.loads.len() == s.loads.len() ==> after.loads.drop_last() =~= s.loads.drop_last());
        }
    }
}

/// A bracket lies beneath the path it is on and four steps more, and a block only beneath what is heavy of it.
pub proof fn law_brackets_strain_a_parser(s: Strain, byte: u8)
    requires
        s.loads.len() > 0,
        byte <= 0x7f,
    ensures
        byte as char == '(' || byte as char == '[' ==> {
            let more = if s.operand {
                5int
            } else {
                4int
            };
            &&& s.top().cost + more > 768 && s.top().heavy <= 768 ==> strain::read_byte(s, byte) is None
            &&& s.top().cost + more <= 768 && s.top().heavy <= 768 ==> (strain::read_byte(s, byte) matches Some(after) && after.loads.len()
                == s.loads.len() + 1 && after.top().cost == s.top().cost + more && after.top().base == s.top().cost + more && !after.operand)
        },
        byte as char == '{' && s.top().angles == 0 ==> {
            let cost = s.top().base + s.top().heavy + 4;
            &&& cost > 768 <==> strain::read_byte(s, byte) is None
            &&& strain::read_byte(s, byte) matches Some(after) ==> after.loads.len() == s.loads.len() + 1 && after.top().cost == cost
                && after.top().base == cost
        },
        s.loads.len() > 1 && (byte as char == ')' || byte as char == ']' || byte as char == '}') ==> (strain::read_byte(s, byte) matches Some(
            after,
        ) && after.loads.len() == s.loads.len() - 1 && after.top().cost >= s.top().peak && after.top().cost >= s.loads[s.loads.len() - 2].cost
            && after.top().base == s.loads[s.loads.len() - 2].base && (after.top().ended <==> byte as char == '}')),
        byte as char == ';' ==> (strain::read_byte(s, byte) matches Some(after) && after.top().cost == s.top().base && after.top().heavy == 0
            && !after.top().importing && after.top().angles == 0),
        byte as char == ',' && s.top().angles == 0 && !s.top().params ==> (strain::read_byte(s, byte) matches Some(after)
            && after.top().cost == s.top().base && after.top().heavy == 0),
        byte as char == ',' && (s.top().angles > 0 || s.top().params) ==> (strain::read_byte(s, byte) matches Some(after) && after.top().cost
            == s.top().cost),
{
}

/// Marks of two characters are read together: a result type costs four steps, an arm begins anew, a path costs
/// a step where it is imported, and a closure without parameters costs as much as one with them.
pub proof fn law_pairs_strain_a_parser(s: Strain, first: u8, second: u8)
    requires
        s.loads.len() > 0,
        first <= 0x7f,
        second <= 0x7f,
    ensures
        ({
            let (a, b) = (first as char, second as char);
            let after = strain::read_pair(s, first, second);
            &&& (a, b) == ('-', '>') ==> after is Some && lengthens(s, after->0, s.top(), 4, 4)
            &&& (a, b) == ('=', '>') ==> (after matches Some(Some(next)) && next.top().cost == s.top().base && next.top().heavy == 0)
            &&& (a, b) == (':', ':') && s.top().importing ==> after is Some && lengthens(s, after->0, s.top(), 1, 1)
            &&& (a, b) == (':', ':') && !s.top().importing ==> (after matches Some(Some(next)) && next.top().cost == s.top().cost)
            &&& (a, b) == ('|', '|') && s.operand && !s.top().params ==> after is Some && lengthens(s, after->0, s.top(), 1, 0)
            &&& (a, b) == ('|', '|') && !s.operand ==> after is Some && lengthens(s, after->0, s.top(), 4, 4)
            &&& (a, b) == ('<', '=') || (a, b) == ('>', '=') || (a, b) == ('|', '=') ==> after is Some && lengthens(s, after->0, s.top(), 1, 0)
            &&& (a, b) == ('>', '>') ==> after is Some && lengthens(s, after->0, s.top(), 1, 0)
            &&& (a, b) == ('<', '<') && s.operand && !s.named ==> after is Some && lengthens(s, after->0, s.top(), 1, 0)
            &&& (a, b) == ('<', '<') && (s.named || !s.operand) && s.top().angles < 767 ==> after is Some && lengthens(
                s,
                after->0,
                s.top(),
                8,
                0,
            )
            &&& a != b && a != '-' && a != '=' && b != '=' ==> after is None
        }),
{
    if let Some(Some(after)) = strain::read_pair(s, first, second) {
        assert(after.loads.drop_last() =~= s.loads.drop_last());
    }
}

// ---- What is said of a file. ----

/// A line is named behind the file, counted as lines are walked, and the limit that was crossed is named.
pub proof fn law_a_deep_place_is_named_by_its_line(path: Seq<char>, text: Seq<char>, k: int)
    requires
        0 <= k < text.len(),
    ensures
        exists|line: Seq<char>, limit: Seq<char>| #[trigger]
            stands_for(line, breaks(text.take(k)) + 1, 10) && #[trigger] stands_for(limit, 64, 10) && depth_message(
                path,
                text,
                (Excess { at: byte_len(text.take(k)) as int, nested: true }),
            ) == escaped(path) + seq![':'] + line + ": nests deeper than "@ + (limit
                + " levels of brackets, prefix operators, chained operators or postfix expressions"@),
        exists|line: Seq<char>, limit: Seq<char>| #[trigger]
            stands_for(line, breaks(text.take(k)) + 1, 10) && #[trigger] stands_for(limit, 768, 10) && depth_message(
                path,
                text,
                (Excess { at: byte_len(text.take(k)) as int, nested: false }),
            ) == escaped(path) + seq![':'] + line + ": nests deeper than "@ + ("a parser can follow: more than "@ + limit
                + " steps of keywords, closures, types, patterns, import paths and operators on one path"@),
{
    lemma_line_walked(text, k);
    law_decimals_stand_for_their_number(breaks(text.take(k)) + 1);
    law_decimals_stand_for_their_number(64);
    law_decimals_stand_for_their_number(768);
    reveal_strlit(":");
    assert(":"@ =~= seq![':']);
    assert(stands_for(decimal(breaks(text.take(k)) + 1), breaks(text.take(k)) + 1, 10) && stands_for(decimal(64), 64, 10));
    assert(stands_for(decimal(768), 768, 10));
}

/// A parser's complaint is named by file, line and column, and passed on in a form that can be shown.
pub proof fn law_a_complaint_is_named_by_line_and_column(path: Seq<char>, line: nat, column: nat, cause: Seq<char>)
    ensures
        exists|l: Seq<char>, c: Seq<char>| #[trigger]
            stands_for(l, line, 10) && #[trigger] stands_for(c, column, 10) && parse_message(path, line, column, cause) == escaped(path) + seq![
                ':',
            ] + l + seq![':'] + c + ": could not parse: "@ + escaped(cause),
{
    law_decimals_stand_for_their_number(line);
    law_decimals_stand_for_their_number(column);
    reveal_strlit(":");
    assert(":"@ =~= seq![':']);
    assert(stands_for(decimal(line), line, 10) && stands_for(decimal(column), column, 10));
}

/// What cannot be read is named.
pub proof fn law_what_cannot_be_read_is_named(path: Seq<char>)
    ensures
        read_message(path) == "could not read "@ + seq!['`'] + escaped(path) + seq!['`'],
{
    reveal_strlit("could not read ");
    reveal_strlit("could not read `");
    reveal_strlit("`");
    assert("could not read `"@ =~= "could not read "@ + seq!['`']);
    assert("`"@ =~= seq!['`']);
}

/// A first line that names an interpreter begins with `#!`, behind a byte-order mark or not, and not with what
/// begins an attribute of the file. What stands behind it is measured too, and found where it is.
pub proof fn law_an_interpreter_is_named_by_the_first_line(text: Seq<char>)
    ensures
        text.len() > 2 && text[0] == '#' && text[1] == '!' && text[2] != '[' ==> may_name_interpreter(text),
        text.len() > 2 && text[0] == '#' && text[1] == '!' && text[2] == '[' ==> !may_name_interpreter(text),
        text.len() < 2 || text[0] != super::source_file::BOM && (text[0] != '#' || text[1] != '!') ==> text.len() > 0 && text[0]
            == super::source_file::BOM || !may_name_interpreter(text),
        excess_in(text) is Some ==> excess_of(text) == excess_in(text),
        excess_in(text) is None && !may_name_interpreter(text) ==> excess_of(text) is None,
{
    reveal_strlit("#!");
    reveal_strlit("#![");
    assert("#!"@ =~= seq!['#', '!']);
    assert("#!["@ =~= seq!['#', '!', '[']);
    if text.len() > 2 && text[0] == '#' && text[1] == '!' {
        assert(bare(text) == text);
        assert(text.take(2) =~= "#!"@);
        assert(text.take(3)[2] == text[2]);
        if text[2] == '[' {
            assert(text.take(3) =~= "#!["@);
        }
    }
    if text.len() >= 2 && text[0] != super::source_file::BOM && (text[0] != '#' || text[1] != '!') {
        assert(text.take(2)[0] == text[0] && text.take(2)[1] == text[1]);
    }
}

} // verus!
