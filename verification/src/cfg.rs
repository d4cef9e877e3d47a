//! The configuration a build is made for, and what it makes of conditional compilation.
pub mod laws;

use crate::syntax::query;
use crate::syntax::query::path_ident;
use crate::syntax::{Kind, Node};
use crate::text;
use crate::text::{pieces_from, strings, texts, trim};
use vstd::prelude::*;

verus! {

/// The configuration predicates that hold for a build.
///
/// Where nothing is known of the build, every predicate holds: nothing is stripped on a guess.
#[derive(Debug)]
pub struct CfgSet {
    /// Whether predicates are decided by what the build says, rather than all taken to hold.
    pub enforced: bool,
    /// The predicates that hold, as the compiler prints them: `unix`, `target_os="linux"`.
    pub predicates: Vec<String>,
}

/// What a set of configuration predicates says of a build.
#[verifier::ext_equal]
pub ghost struct Build {
    /// Whether predicates are decided by what the build says, rather than all taken to hold.
    pub enforced: bool,
    /// The predicates that hold.
    pub held: Seq<Seq<char>>,
}

impl Build {
    /// A build of which nothing is known.
    pub open spec fn unknown() -> Build {
        Build { enforced: false, held: Seq::empty() }
    }
}

impl View for CfgSet {
    type V = Build;

    open spec fn view(&self) -> Build {
        Build { enforced: self.enforced, held: strings(self.predicates@) }
    }
}

// ---- Tokens. ----

/// Whether a token is a given word.
pub open spec fn is_word(token: Node, word: Seq<char>) -> bool {
    token.kind == Kind::TokenWord && token.word(0) == word
}

/// Whether a token is a given punctuation mark.
pub open spec fn is_mark(token: Node, mark: Seq<char>) -> bool {
    token.kind == Kind::TokenMark && token.word(0) == mark
}

/// The index of the first comma among tokens, or their number.
pub open spec fn comma(tokens: Seq<Node>) -> int
    decreases tokens.len(),
{
    if tokens.len() == 0 {
        0
    } else if is_mark(tokens[0], ","@) {
        0
    } else {
        1 + comma(tokens.drop_first())
    }
}

/// A comma stands among the tokens, or there is none.
pub proof fn lemma_comma(tokens: Seq<Node>)
    ensures
        0 <= comma(tokens) <= tokens.len(),
    decreases tokens.len(),
{
    if tokens.len() > 0 {
        lemma_comma(tokens.drop_first());
    }
}

/// The tokens before the first comma.
pub open spec fn head(tokens: Seq<Node>) -> Seq<Node> {
    tokens.take(comma(tokens))
}

/// The tokens behind the first comma.
pub open spec fn rest(tokens: Seq<Node>) -> Seq<Node> {
    if comma(tokens) < tokens.len() {
        tokens.skip(comma(tokens) + 1)
    } else {
        Seq::empty()
    }
}

/// The tokens in a group that a word stands before, where that is all there is.
pub open spec fn group_behind(tokens: Seq<Node>, word: Seq<char>) -> Option<Seq<Node>> {
    if tokens.len() == 2 && is_word(tokens[0], word) && tokens[1].kind == Kind::TokenGroup {
        Some(tokens[1].kids@)
    } else {
        None
    }
}

/// What lists of tokens are made of is smaller than they are.
pub proof fn lemma_pieces(tokens: Seq<Node>)
    ensures
        head(tokens) == tokens || decreases_to!(tokens => head(tokens)),
        tokens.len() > 0 ==> decreases_to!(tokens => rest(tokens)),
{
    lemma_comma(tokens);
    if comma(tokens) < tokens.len() {
        assert(head(tokens) =~= tokens.subrange(0, comma(tokens)));
        assert(rest(tokens) =~= tokens.subrange(comma(tokens) + 1, tokens.len() as int));
        assert(decreases_to!(tokens => tokens.subrange(0, comma(tokens))));
        assert(decreases_to!(tokens => tokens.subrange(comma(tokens) + 1, tokens.len() as int)));
    } else {
        assert(head(tokens) =~= tokens);
        if tokens.len() > 0 {
            assert(rest(tokens) =~= tokens.subrange(0, 0));
            assert(decreases_to!(tokens => tokens.subrange(0, 0)));
        }
    }
}

// ---- Predicates. ----

/// Whether a predicate holds for a build that says what holds for it.
///
/// What cannot be read as a predicate is taken to hold, so that nothing is stripped on a guess.
pub open spec fn meets(held: Seq<Seq<char>>, tokens: Seq<Node>) -> bool
    decreases tokens, 0nat,
{
    if tokens.len() == 1 && tokens[0].kind == Kind::TokenWord {
        if tokens[0].word(0) == "true"@ {
            true
        } else if tokens[0].word(0) == "false"@ {
            false
        } else {
            held.contains(tokens[0].word(0))
        }
    } else if tokens.len() == 3 && tokens[0].kind == Kind::TokenWord && is_mark(tokens[1], "="@) && tokens[2].kind == Kind::TokenLiteral {
        held.contains(tokens[0].word(0) + "="@ + tokens[2].word(0))
    } else if group_behind(tokens, "not"@) is Some {
        !meets_every(held, tokens[1].kids@)
    } else if group_behind(tokens, "all"@) is Some {
        meets_every(held, tokens[1].kids@)
    } else if group_behind(tokens, "any"@) is Some {
        meets_some(held, tokens[1].kids@)
    } else {
        true
    }
}

/// Whether every predicate of a list holds.
pub open spec fn meets_every(held: Seq<Seq<char>>, tokens: Seq<Node>) -> bool
    decreases tokens, 1nat,
{
    proof {
        lemma_pieces(tokens);
    }
    tokens.len() == 0 || (head(tokens).len() == 0 || meets(held, head(tokens))) && meets_every(held, rest(tokens))
}

/// Whether some predicate of a list holds.
pub open spec fn meets_some(held: Seq<Seq<char>>, tokens: Seq<Node>) -> bool
    decreases tokens, 1nat,
{
    proof {
        lemma_pieces(tokens);
    }
    tokens.len() > 0 && (head(tokens).len() > 0 && meets(held, head(tokens)) || meets_some(held, rest(tokens)))
}

/// Whether a predicate can hold only for a build of the tests.
pub open spec fn demands_test(tokens: Seq<Node>) -> bool
    decreases tokens, 0nat,
{
    if tokens.len() == 1 {
        is_word(tokens[0], "test"@)
    } else if group_behind(tokens, "all"@) is Some {
        some_demands_test(tokens[1].kids@)
    } else if group_behind(tokens, "any"@) is Some {
        tokens[1].kids@.len() > 0 && every_demands_test(tokens[1].kids@)
    } else {
        false
    }
}

/// Whether some predicate of a list can hold only for a build of the tests.
pub open spec fn some_demands_test(tokens: Seq<Node>) -> bool
    decreases tokens, 1nat,
{
    proof {
        lemma_pieces(tokens);
    }
    tokens.len() > 0 && (demands_test(head(tokens)) || some_demands_test(rest(tokens)))
}

/// Whether every predicate of a list can hold only for a build of the tests.
pub open spec fn every_demands_test(tokens: Seq<Node>) -> bool
    decreases tokens, 1nat,
{
    proof {
        lemma_pieces(tokens);
    }
    tokens.len() == 0 || (head(tokens).len() == 0 || demands_test(head(tokens))) && every_demands_test(rest(tokens))
}

// ---- Attributes. ----

/// Whether tokens are a path that ends in `test`.
pub open spec fn is_test_path(tokens: Seq<Node>) -> bool {
    &&& tokens.len() > 0
    &&& is_word(tokens.last(), "test"@)
    &&& tokens.len() > 1 ==> is_mark(tokens[tokens.len() - 2], ":"@)
}

/// Whether the tokens of an attribute are a path that ends in `test`, with or without arguments.
pub open spec fn is_test(tokens: Seq<Node>) -> bool {
    if tokens.len() > 0 && tokens.last().kind == Kind::TokenGroup {
        is_test_path(tokens.drop_last())
    } else {
        is_test_path(tokens)
    }
}

impl Build {
    /// Whether a predicate holds.
    pub open spec fn met(self, tokens: Seq<Node>) -> bool {
        !self.enforced || meets(self.held, tokens)
    }

    /// Whether an attribute, given by its tokens, leaves what it is written on in the build.
    pub open spec fn keeps(self, tokens: Seq<Node>) -> bool
        decreases tokens, 0nat,
    {
        if group_behind(tokens, "cfg"@) is Some {
            self.met(tokens[1].kids@)
        } else if group_behind(tokens, "cfg_attr"@) is Some {
            self.keeps_applied(tokens[1].kids@)
        } else {
            true
        }
    }

    /// Whether the attributes that a `cfg_attr` applies leave what it is written on in the build.
    pub open spec fn keeps_applied(self, tokens: Seq<Node>) -> bool
        decreases tokens, 2nat,
    {
        proof {
            lemma_pieces(tokens);
        }
        tokens.len() == 0 || !self.met(head(tokens)) || self.keeps_every(rest(tokens))
    }

    /// Whether each of several attributes leaves what it is written on in the build.
    pub open spec fn keeps_every(self, tokens: Seq<Node>) -> bool
        decreases tokens, 1nat,
    {
        proof {
            lemma_pieces(tokens);
        }
        tokens.len() == 0 || self.keeps(head(tokens)) && self.keeps_every(rest(tokens))
    }

    /// Whether an attribute, given by its tokens, confines what it is written on to the tests.
    pub open spec fn confines(self, tokens: Seq<Node>) -> bool
        decreases tokens, 0nat,
    {
        if group_behind(tokens, "cfg"@) is Some {
            demands_test(tokens[1].kids@)
        } else if group_behind(tokens, "cfg_attr"@) is Some {
            self.confines_applied(tokens[1].kids@)
        } else {
            is_test(tokens)
        }
    }

    /// Whether an attribute that a `cfg_attr` applies confines what it is written on to the tests.
    pub open spec fn confines_applied(self, tokens: Seq<Node>) -> bool
        decreases tokens, 2nat,
    {
        proof {
            lemma_pieces(tokens);
        }
        tokens.len() > 0 && self.met(head(tokens)) && self.confines_some(rest(tokens))
    }

    /// Whether one of several attributes confines what it is written on to the tests.
    pub open spec fn confines_some(self, tokens: Seq<Node>) -> bool
        decreases tokens, 1nat,
    {
        proof {
            lemma_pieces(tokens);
        }
        tokens.len() > 0 && (self.confines(head(tokens)) || self.confines_some(rest(tokens)))
    }

    /// Whether an attribute leaves what it is written on in the build.
    pub open spec fn admits(self, attr: Node) -> bool {
        if attr.kind == Kind::AttrList && attr.kids@.len() == 2 {
            if path_ident(attr.kids@[0]) == Some("cfg"@) {
                self.met(attr.kids@[1].kids@)
            } else if path_ident(attr.kids@[0]) == Some("cfg_attr"@) {
                self.keeps_applied(attr.kids@[1].kids@)
            } else {
                true
            }
        } else {
            true
        }
    }

    /// Whether an attribute confines what it is written on to the tests.
    pub open spec fn gates(self, attr: Node) -> bool {
        if attr.kind == Kind::AttrList && attr.kids@.len() == 2 && path_ident(attr.kids@[0]) == Some("cfg"@) {
            demands_test(attr.kids@[1].kids@)
        } else if attr.kind == Kind::AttrList && attr.kids@.len() == 2 && path_ident(attr.kids@[0]) == Some("cfg_attr"@) {
            self.confines_applied(attr.kids@[1].kids@)
        } else {
            attr.kids@.len() > 0 && query::last_name(attr.kids@[0]) == Some("test"@)
        }
    }

    /// Whether what these attributes are written on is in the build.
    pub open spec fn holds(self, attrs: Seq<Node>) -> bool {
        forall|i: int| 0 <= i < attrs.len() ==> self.admits(#[trigger] attrs[i])
    }

    /// Whether what these attributes are written on exists only to test other code.
    pub open spec fn is_gated(self, attrs: Seq<Node>) -> bool {
        exists|i: int| 0 <= i < attrs.len() && self.gates(#[trigger] attrs[i])
    }

    /// Whether what these attributes are written on is left alone.
    pub open spec fn skips(self, attrs: Seq<Node>) -> bool {
        self.is_gated(attrs) || !self.holds(attrs)
    }
}

// ---- Reading tokens. ----

/// Whether a token is a given word.
pub(crate) fn word_is(token: &Node, word: &str) -> (r: bool)
    ensures
        r == is_word(*token, word@),
{
    matches!(token.kind, Kind::TokenWord) && text::same(token.get_word(0), word)
}

/// Whether a token is a given punctuation mark.
pub(crate) fn mark_is(token: &Node, mark: &str) -> (r: bool)
    ensures
        r == is_mark(*token, mark@),
{
    matches!(token.kind, Kind::TokenMark) && text::same(token.get_word(0), mark)
}

/// Where the first comma from `from` on stands among tokens.
fn find_comma(tokens: &Vec<Node>, from: usize, to: usize) -> (r: usize)
    requires
        from <= to <= tokens@.len(),
    ensures
        from <= r <= to,
        r == from + comma(tokens@.subrange(from as int, to as int)),
    decreases to - from,
{
    if from == to {
        return from;
    }
    let ghost part = tokens@.subrange(from as int, to as int);
    proof {
        assert(part[0] == tokens@[from as int]);
        assert(part.drop_first() =~= tokens@.subrange(from + 1, to as int));
    }
    if mark_is(&tokens[from], ",") {
        from
    } else {
        find_comma(tokens, from + 1, to)
    }
}

/// Where the first piece of a list of tokens ends, and where the rest begins.
pub(crate) fn pieces(tokens: &Vec<Node>, from: usize, to: usize) -> (r: (usize, usize))
    requires
        from < to <= tokens@.len(),
    ensures
        from <= r.0 <= to,
        from < r.1 <= to,
        tokens@.subrange(from as int, r.0 as int) == head(tokens@.subrange(from as int, to as int)),
        tokens@.subrange(r.1 as int, to as int) == rest(tokens@.subrange(from as int, to as int)),
{
    let ghost part = tokens@.subrange(from as int, to as int);
    let end = find_comma(tokens, from, to);
    proof {
        lemma_comma(part);
        assert(tokens@.subrange(from as int, end as int) =~= head(part));
    }
    if end < to {
        proof {
            assert(tokens@.subrange(end + 1, to as int) =~= rest(part));
        }
        (end, end + 1)
    } else {
        proof {
            assert(tokens@.subrange(to as int, to as int) =~= rest(part));
        }
        (end, to)
    }
}

/// The tokens in a group that a word stands before, where that is all there is.
fn group_of<'a>(tokens: &'a Vec<Node>, from: usize, to: usize, word: &str) -> (r: Option<&'a Vec<Node>>)
    requires
        from <= to <= tokens@.len(),
    ensures
        r is Some <==> group_behind(tokens@.subrange(from as int, to as int), word@) is Some,
        r matches Some(group) ==> group@ == tokens@.subrange(from as int, to as int)[1].kids@ && decreases_to!(
            tokens@.subrange(from as int, to as int) => group@
        ),
{
    let ghost part = tokens@.subrange(from as int, to as int);
    if to - from == 2 && word_is(&tokens[from], word) && matches!(tokens[from + 1].kind, Kind::TokenGroup) {
        proof {
            assert(part[0] == tokens@[from as int]);
            assert(part[1] == tokens@[from + 1]);
            assert(decreases_to!(part => part[1]));
            assert(decreases_to!(part[1] => part[1].kids@));
        }
        Some(&tokens[from + 1].kids)
    } else {
        proof {
            if to - from == 2 {
                assert(part[0] == tokens@[from as int]);
                assert(part[1] == tokens@[from + 1]);
            }
        }
        None
    }
}

/// Whether a predicate can hold only for a build of the tests.
fn is_demanding(tokens: &Vec<Node>, from: usize, to: usize) -> (r: bool)
    requires
        from <= to <= tokens@.len(),
    ensures
        r == demands_test(tokens@.subrange(from as int, to as int)),
    decreases tokens@.subrange(from as int, to as int), 0nat,
{
    if to - from == 1 {
        return word_is(&tokens[from], "test");
    }
    if let Some(group) = group_of(tokens, from, to, "all") {
        proof {
            assert(group@.subrange(0, group@.len() as int) =~= group@);
        }
        return is_some_demanding(group, 0, group.len());
    }
    if let Some(group) = group_of(tokens, from, to, "any") {
        proof {
            assert(group@.subrange(0, group@.len() as int) =~= group@);
        }
        return group.len() > 0 && is_every_demanding(group, 0, group.len());
    }
    false
}

/// Whether some predicate of a list can hold only for a build of the tests.
fn is_some_demanding(tokens: &Vec<Node>, from: usize, to: usize) -> (r: bool)
    requires
        from <= to <= tokens@.len(),
    ensures
        r == some_demands_test(tokens@.subrange(from as int, to as int)),
    decreases tokens@.subrange(from as int, to as int), 1nat,
{
    if from == to {
        return false;
    }
    let (end, next) = pieces(tokens, from, to);
    proof {
        lemma_pieces(tokens@.subrange(from as int, to as int));
    }
    is_demanding(tokens, from, end) || is_some_demanding(tokens, next, to)
}

/// Whether every predicate of a list can hold only for a build of the tests.
fn is_every_demanding(tokens: &Vec<Node>, from: usize, to: usize) -> (r: bool)
    requires
        from <= to <= tokens@.len(),
    ensures
        r == every_demands_test(tokens@.subrange(from as int, to as int)),
    decreases tokens@.subrange(from as int, to as int), 1nat,
{
    if from == to {
        return true;
    }
    let (end, next) = pieces(tokens, from, to);
    proof {
        lemma_pieces(tokens@.subrange(from as int, to as int));
    }
    (from == end || is_demanding(tokens, from, end)) && is_every_demanding(tokens, next, to)
}

/// Whether the tokens of an attribute are a path that ends in `test`, with or without arguments.
fn names_test(tokens: &Vec<Node>, from: usize, to: usize) -> (r: bool)
    requires
        from <= to <= tokens@.len(),
    ensures
        r == is_test(tokens@.subrange(from as int, to as int)),
{
    let ghost part = tokens@.subrange(from as int, to as int);
    let mut end: usize = to;
    if from < to && matches!(tokens[to - 1].kind, Kind::TokenGroup) {
        end = to - 1;
        proof {
            assert(part.drop_last() =~= tokens@.subrange(from as int, end as int));
        }
    }
    let ghost path = tokens@.subrange(from as int, end as int);
    if from == end {
        return false;
    }
    proof {
        assert(path.last() == tokens@[end - 1]);
    }
    word_is(&tokens[end - 1], "test") && (end - from == 1 || mark_is(&tokens[end - 2], ":"))
}

impl CfgSet {
    /// A set for which every predicate holds, for a build of which nothing is known.
    pub fn unconditional() -> (r: CfgSet)
        ensures
            r@ == Build::unknown(),
    {
        let r = CfgSet { enforced: false, predicates: Vec::new() };
        proof {
            assert(r@ =~= Build::unknown());
        }
        r
    }

    /// The set of the predicates that the compiler prints for a build, one in each line.
    pub fn parse(text: &str) -> (r: CfgSet)
        ensures
            r@.enforced,
            r@.held == printed(pieces_from(text@, '\n', 0)),
    {
        let lines = text::split(text, '\n');
        let mut predicates: Vec<String> = Vec::new();
        let mut at: usize = 0;
        let ghost all = pieces_from(text@, '\n', 0);
        proof {
            assert(strings(predicates@) =~= printed(all.take(0)));
        }
        while at < lines.len()
            invariant
                at <= lines@.len(),
                texts(lines@) == all,
                strings(predicates@) == printed(all.take(at as int)),
            decreases lines@.len() - at,
        {
            let line = text::trimmed(lines[at]);
            let ghost before = predicates@;
            proof {
                let next = all.take(at + 1);
                assert(next.drop_last() =~= all.take(at as int));
                assert(next.last() == texts(lines@)[at as int]);
            }
            if !line.is_empty() {
                predicates.push(text::owned(line));
                proof {
                    assert(strings(predicates@) =~= strings(before).push(line@));
                }
            }
            at += 1;
        }
        proof {
            assert(all.take(at as int) =~= all);
        }
        CfgSet { enforced: true, predicates }
    }

    /// The same set with `test` holding too, as it does for a build of the tests.
    pub fn with_test(self) -> (r: CfgSet)
        ensures
            r@.enforced == self@.enforced,
            r@.held == self@.held.push("test"@),
    {
        let CfgSet { enforced, mut predicates } = self;
        let ghost before = predicates@;
        predicates.push(text::owned("test"));
        proof {
            assert(strings(predicates@) =~= strings(before).push("test"@));
        }
        CfgSet { enforced, predicates }
    }

    /// Whether a predicate is one of those that hold.
    fn has(&self, predicate: &str) -> (r: bool)
        ensures
            r == self@.held.contains(predicate@),
    {
        let mut at: usize = 0;
        while at < self.predicates.len()
            invariant
                at <= self.predicates@.len(),
                forall|i: int| 0 <= i < at ==> #[trigger] self@.held[i] != predicate@,
            decreases self.predicates@.len() - at,
        {
            if text::same(self.predicates[at].as_str(), predicate) {
                proof {
                    assert(self@.held[at as int] == predicate@);
                }
                return true;
            }
            at += 1;
        }
        false
    }

    /// Whether a predicate holds for a build that says what holds for it.
    fn is_met_by(&self, tokens: &Vec<Node>, from: usize, to: usize) -> (r: bool)
        requires
            from <= to <= tokens@.len(),
        ensures
            r == meets(self@.held, tokens@.subrange(from as int, to as int)),
        decreases tokens@.subrange(from as int, to as int), 0nat,
    {
        let ghost part = tokens@.subrange(from as int, to as int);
        if to - from == 1 && matches!(tokens[from].kind, Kind::TokenWord) {
            let word = tokens[from].get_word(0);
            return text::same(word, "true") || !text::same(word, "false") && self.has(word);
        }
        if to - from == 3 && matches!(tokens[from].kind, Kind::TokenWord) && mark_is(&tokens[from + 1], "=") && matches!(
            tokens[from + 2].kind,
            Kind::TokenLiteral
        ) {
            let mut pair = text::owned(tokens[from].get_word(0));
            pair.append("=");
            pair.append(tokens[from + 2].get_word(0));
            return self.has(pair.as_str());
        }
        proof {
            if to - from == 3 {
                assert(part[1] == tokens@[from + 1]);
                assert(part[2] == tokens@[from + 2]);
            }
        }
        if let Some(group) = group_of(tokens, from, to, "not") {
            proof {
                assert(group@.subrange(0, group@.len() as int) =~= group@);
            }
            return !self.is_every_met_by(group, 0, group.len());
        }
        if let Some(group) = group_of(tokens, from, to, "all") {
            proof {
                assert(group@.subrange(0, group@.len() as int) =~= group@);
            }
            return self.is_every_met_by(group, 0, group.len());
        }
        if let Some(group) = group_of(tokens, from, to, "any") {
            proof {
                assert(group@.subrange(0, group@.len() as int) =~= group@);
            }
            return self.is_some_met_by(group, 0, group.len());
        }
        true
    }

    /// Whether every predicate of a list holds.
    fn is_every_met_by(&self, tokens: &Vec<Node>, from: usize, to: usize) -> (r: bool)
        requires
            from <= to <= tokens@.len(),
        ensures
            r == meets_every(self@.held, tokens@.subrange(from as int, to as int)),
        decreases tokens@.subrange(from as int, to as int), 1nat,
    {
        if from == to {
            return true;
        }
        let (end, next) = pieces(tokens, from, to);
        proof {
            lemma_pieces(tokens@.subrange(from as int, to as int));
        }
        (from == end || self.is_met_by(tokens, from, end)) && self.is_every_met_by(tokens, next, to)
    }

    /// Whether some predicate of a list holds.
    fn is_some_met_by(&self, tokens: &Vec<Node>, from: usize, to: usize) -> (r: bool)
        requires
            from <= to <= tokens@.len(),
        ensures
            r == meets_some(self@.held, tokens@.subrange(from as int, to as int)),
        decreases tokens@.subrange(from as int, to as int), 1nat,
    {
        if from == to {
            return false;
        }
        let (end, next) = pieces(tokens, from, to);
        proof {
            lemma_pieces(tokens@.subrange(from as int, to as int));
        }
        from < end && self.is_met_by(tokens, from, end) || self.is_some_met_by(tokens, next, to)
    }

    /// Whether an attribute, given by its tokens, leaves what it is written on in the build.
    fn is_kept_by(&self, tokens: &Vec<Node>, from: usize, to: usize) -> (r: bool)
        requires
            from <= to <= tokens@.len(),
        ensures
            r == self@.keeps(tokens@.subrange(from as int, to as int)),
        decreases tokens@.subrange(from as int, to as int), 0nat,
    {
        if let Some(group) = group_of(tokens, from, to, "cfg") {
            proof {
                assert(group@.subrange(0, group@.len() as int) =~= group@);
            }
            return !self.enforced || self.is_met_by(group, 0, group.len());
        }
        if let Some(group) = group_of(tokens, from, to, "cfg_attr") {
            return self.is_kept_by_applied(group);
        }
        true
    }

    /// Whether the attributes that a `cfg_attr` applies leave what it is written on in the build.
    fn is_kept_by_applied(&self, tokens: &Vec<Node>) -> (r: bool)
        ensures
            r == self@.keeps_applied(tokens@),
        decreases tokens@, 2nat,
    {
        proof {
            assert(tokens@.subrange(0, tokens@.len() as int) =~= tokens@);
            lemma_pieces(tokens@);
        }
        if tokens.len() == 0 {
            return true;
        }
        let (end, next) = pieces(tokens, 0, tokens.len());
        self.enforced && !self.is_met_by(tokens, 0, end) || self.is_kept_by_every(tokens, next, tokens.len())
    }

    /// Whether each of several attributes leaves what it is written on in the build.
    fn is_kept_by_every(&self, tokens: &Vec<Node>, from: usize, to: usize) -> (r: bool)
        requires
            from <= to <= tokens@.len(),
        ensures
            r == self@.keeps_every(tokens@.subrange(from as int, to as int)),
        decreases tokens@.subrange(from as int, to as int), 1nat,
    {
        if from == to {
            return true;
        }
        let (end, next) = pieces(tokens, from, to);
        proof {
            lemma_pieces(tokens@.subrange(from as int, to as int));
        }
        self.is_kept_by(tokens, from, end) && self.is_kept_by_every(tokens, next, to)
    }

    /// Whether an attribute, given by its tokens, confines what it is written on to the tests.
    fn is_confined_by(&self, tokens: &Vec<Node>, from: usize, to: usize) -> (r: bool)
        requires
            from <= to <= tokens@.len(),
        ensures
            r == self@.confines(tokens@.subrange(from as int, to as int)),
        decreases tokens@.subrange(from as int, to as int), 0nat,
    {
        if let Some(group) = group_of(tokens, from, to, "cfg") {
            proof {
                assert(group@.subrange(0, group@.len() as int) =~= group@);
            }
            return is_demanding(group, 0, group.len());
        }
        if let Some(group) = group_of(tokens, from, to, "cfg_attr") {
            return self.is_confined_by_applied(group);
        }
        names_test(tokens, from, to)
    }

    /// Whether an attribute that a `cfg_attr` applies confines what it is written on to the tests.
    fn is_confined_by_applied(&self, tokens: &Vec<Node>) -> (r: bool)
        ensures
            r == self@.confines_applied(tokens@),
        decreases tokens@, 2nat,
    {
        proof {
            assert(tokens@.subrange(0, tokens@.len() as int) =~= tokens@);
            lemma_pieces(tokens@);
        }
        if tokens.len() == 0 {
            return false;
        }
        let (end, next) = pieces(tokens, 0, tokens.len());
        (!self.enforced || self.is_met_by(tokens, 0, end)) && self.is_confined_by_some(tokens, next, tokens.len())
    }

    /// Whether one of several attributes confines what it is written on to the tests.
    fn is_confined_by_some(&self, tokens: &Vec<Node>, from: usize, to: usize) -> (r: bool)
        requires
            from <= to <= tokens@.len(),
        ensures
            r == self@.confines_some(tokens@.subrange(from as int, to as int)),
        decreases tokens@.subrange(from as int, to as int), 1nat,
    {
        if from == to {
            return false;
        }
        let (end, next) = pieces(tokens, from, to);
        proof {
            lemma_pieces(tokens@.subrange(from as int, to as int));
        }
        self.is_confined_by(tokens, from, end) || self.is_confined_by_some(tokens, next, to)
    }

    /// Whether an attribute leaves what it is written on in the build.
    fn is_admitted_by(&self, attr: &Node) -> (r: bool)
        ensures
            r == self@.admits(*attr),
    {
        if matches!(attr.kind, Kind::AttrList) && attr.kids.len() == 2 {
            if query::is_ident(&attr.kids[0], "cfg") {
                let tokens = &attr.kids[1].kids;
                proof {
                    assert(tokens@.subrange(0, tokens@.len() as int) =~= tokens@);
                }
                return !self.enforced || self.is_met_by(tokens, 0, tokens.len());
            }
            if query::is_ident(&attr.kids[0], "cfg_attr") {
                return self.is_kept_by_applied(&attr.kids[1].kids);
            }
        }
        true
    }

    /// Whether an attribute confines what it is written on to the tests.
    fn is_gated_by(&self, attr: &Node) -> (r: bool)
        ensures
            r == self@.gates(*attr),
    {
        if matches!(attr.kind, Kind::AttrList) && attr.kids.len() == 2 {
            if query::is_ident(&attr.kids[0], "cfg") {
                let tokens = &attr.kids[1].kids;
                proof {
                    assert(tokens@.subrange(0, tokens@.len() as int) =~= tokens@);
                }
                return is_demanding(tokens, 0, tokens.len());
            }
            if query::is_ident(&attr.kids[0], "cfg_attr") {
                return self.is_confined_by_applied(&attr.kids[1].kids);
            }
        }
        if attr.kids.len() == 0 {
            return false;
        }
        match query::last_name_of(&attr.kids[0]) {
            Some(name) => text::same(name, "test"),
            None => false,
        }
    }

    /// Whether what these attributes are written on is in the build.
    pub fn holds_for(&self, attrs: &Vec<Node>) -> (r: bool)
        ensures
            r == self@.holds(attrs@),
    {
        let mut at: usize = 0;
        while at < attrs.len()
            invariant
                at <= attrs@.len(),
                forall|i: int| 0 <= i < at ==> self@.admits(#[trigger] attrs@[i]),
            decreases attrs@.len() - at,
        {
            if !self.is_admitted_by(&attrs[at]) {
                return false;
            }
            at += 1;
        }
        true
    }

    /// Whether what these attributes are written on exists only to test other code.
    ///
    /// Mutating that would measure the tests' tests, which nobody has.
    pub fn test_gated(&self, attrs: &Vec<Node>) -> (r: bool)
        ensures
            r == self@.is_gated(attrs@),
    {
        let mut at: usize = 0;
        while at < attrs.len()
            invariant
                at <= attrs@.len(),
                forall|i: int| 0 <= i < at ==> !self@.gates(#[trigger] attrs@[i]),
            decreases attrs@.len() - at,
        {
            if self.is_gated_by(&attrs[at]) {
                return true;
            }
            at += 1;
        }
        false
    }

    /// Whether what these attributes are written on is left alone: it is not in the build, or it
    /// is test code.
    pub fn skip_gate(&self, attrs: &Vec<Node>) -> (r: bool)
        ensures
            r == self@.skips(attrs@),
    {
        self.test_gated(attrs) || !self.holds_for(attrs)
    }
}

/// The predicates among the lines the compiler prints.
pub open spec fn printed(lines: Seq<Seq<char>>) -> Seq<Seq<char>>
    decreases lines.len(),
{
    if lines.len() == 0 {
        Seq::empty()
    } else {
        let before = printed(lines.drop_last());
        let line = trim(lines.last());
        if line.len() > 0 {
            before.push(line)
        } else {
            before
        }
    }
}

impl Build {
    /// Without a configuration, no attribute given by its tokens strips anything.
    proof fn lemma_keeps(self, tokens: Seq<Node>)
        requires
            !self.enforced,
        ensures
            self.keeps(tokens),
        decreases tokens, 0nat,
    {
        if group_behind(tokens, "cfg_attr"@) is Some {
            self.lemma_keeps_applied(tokens[1].kids@);
        }
    }

    /// Without a configuration, nothing that a `cfg_attr` applies strips anything.
    proof fn lemma_keeps_applied(self, tokens: Seq<Node>)
        requires
            !self.enforced,
        ensures
            self.keeps_applied(tokens),
        decreases tokens, 2nat,
    {
        lemma_pieces(tokens);
        if tokens.len() > 0 {
            self.lemma_keeps_every(rest(tokens));
        }
    }

    /// Without a configuration, none of several attributes strips anything.
    proof fn lemma_keeps_every(self, tokens: Seq<Node>)
        requires
            !self.enforced,
        ensures
            self.keeps_every(tokens),
        decreases tokens, 1nat,
    {
        lemma_pieces(tokens);
        if tokens.len() > 0 {
            self.lemma_keeps(head(tokens));
            self.lemma_keeps_every(rest(tokens));
        }
    }

    /// Where nothing is known of the build, nothing is stripped from it.
    pub proof fn law_nothing_is_stripped_without_a_configuration(self, attrs: Seq<Node>)
        requires
            !self.enforced,
        ensures
            self.holds(attrs),
    {
        assert forall|i: int| 0 <= i < attrs.len() implies self.admits(#[trigger] attrs[i]) by {
            if attrs[i].kids@.len() == 2 {
                self.lemma_keeps_applied(attrs[i].kids@[1].kids@);
            }
        }
    }

    /// Code that only a build of the tests contains is always left alone.
    pub proof fn law_test_code_is_left_alone(self, attrs: Seq<Node>, at: int)
        requires
            0 <= at < attrs.len(),
            attrs[at].kind == Kind::AttrPath,
            attrs[at].kids@.len() > 0,
            query::last_name(attrs[at].kids@[0]) == Some("test"@),
        ensures
            self.skips(attrs),
    {
        assert(self.gates(attrs[at]));
    }
}

impl Clone for CfgSet {
    fn clone(&self) -> (r: CfgSet)
        ensures
            r@ == self@,
    {
        let mut predicates: Vec<String> = Vec::new();
        let mut at: usize = 0;
        while at < self.predicates.len()
            invariant
                at <= self.predicates@.len(),
                strings(predicates@) == self@.held.take(at as int),
            decreases self.predicates@.len() - at,
        {
            let ghost before = predicates@;
            predicates.push(text::owned(self.predicates[at].as_str()));
            at += 1;
            proof {
                assert(strings(predicates@) =~= strings(before).push(self.predicates@[at - 1]@));
                assert(self@.held.take(at as int) =~= self@.held.take(at - 1).push(self.predicates@[at - 1]@));
            }
        }
        proof {
            assert(self@.held.take(at as int) =~= self@.held);
        }
        CfgSet { enforced: self.enforced, predicates }
    }
}

impl Default for CfgSet {
    /// A set for which every predicate holds.
    fn default() -> (r: CfgSet)
        ensures
            r@ == Build::unknown(),
    {
        CfgSet::unconditional()
    }
}

} // verus!
