//! What a build's predicates come to.
use super::{
    comma, demands_test, every_demands_test, group_behind, head, is_mark, is_word, lemma_pieces, meets, meets_every, meets_some,
    printed, rest, some_demands_test, Build,
};
use crate::syntax::query::{last_name, path_ident};
use crate::syntax::{Kind, Node};
use crate::text::trim;
use vstd::prelude::*;

verus! {

/// Whether no part of a list is parted from another.
pub open spec fn is_whole(tokens: Seq<Node>) -> bool {
    forall|i: int| 0 <= i < tokens.len() ==> !is_mark(#[trigger] tokens[i], ","@)
}

/// A word with a list in brackets behind it.
pub open spec fn is_of(tokens: Seq<Node>, word: Seq<char>, list: Seq<Node>) -> bool {
    tokens.len() == 2 && is_word(tokens[0], word) && tokens[1].kind == Kind::TokenGroup && tokens[1].kids@ == list
}

proof fn lemma_whole(tokens: Seq<Node>)
    requires
        is_whole(tokens),
    ensures
        comma(tokens) == tokens.len(),
        head(tokens) == tokens,
        rest(tokens) == Seq::<Node>::empty(),
    decreases tokens.len(),
{
    if tokens.len() > 0 {
        let behind = tokens.drop_first();
        assert forall|i: int| 0 <= i < behind.len() implies !is_mark(#[trigger] behind[i], ","@) by {
            assert(behind[i] == tokens[i + 1]);
        }
        lemma_whole(behind);
    }
    assert(head(tokens) =~= tokens);
}

proof fn lemma_parted(first: Seq<Node>, mark: Node, others: Seq<Node>)
    requires
        is_whole(first),
        is_mark(mark, ","@),
    ensures
        comma(first.push(mark) + others) == first.len(),
        head(first.push(mark) + others) == first,
        rest(first.push(mark) + others) == others,
    decreases first.len(),
{
    let all = first.push(mark) + others;
    if first.len() > 0 {
        let behind = first.drop_first();
        assert forall|i: int| 0 <= i < behind.len() implies !is_mark(#[trigger] behind[i], ","@) by {
            assert(behind[i] == first[i + 1]);
        }
        lemma_parted(behind, mark, others);
        assert(all.drop_first() =~= behind.push(mark) + others);
        assert(all[0] == first[0]);
    } else {
        assert(all[0] == mark);
    }
    assert(head(all) =~= first);
    assert(rest(all) =~= others);
}

proof fn lemma_words()
    ensures
        "all"@ != "any"@,
        "all"@ != "not"@,
        "any"@ != "not"@,
        "cfg"@ != "cfg_attr"@,
        "true"@ != "false"@,
        "true"@ != "test"@,
        "false"@ != "test"@,
{
    reveal_strlit("all");
    reveal_strlit("any");
    reveal_strlit("not");
    reveal_strlit("cfg");
    reveal_strlit("cfg_attr");
    reveal_strlit("true");
    reveal_strlit("false");
    reveal_strlit("test");
    assert("all"@[0] == 'a' && "all"@[1] == 'l' && "any"@[0] == 'a' && "any"@[1] == 'n' && "not"@[0] == 'n');
    assert("cfg"@.len() == 3 && "cfg_attr"@.len() == 8);
    assert("true"@.len() == 4 && "false"@.len() == 5 && "true"@[1] == 'r' && "test"@[1] == 'e' && "test"@.len() == 4);
}

/// A name is met exactly where the build has it, and a name with a value where it has both, whatever the
/// others are. What is always so is met by every build, and what is never so by none.
pub proof fn law_a_build_meets_what_it_has(held: Seq<Seq<char>>, tokens: Seq<Node>)
    ensures
        tokens.len() == 1 && tokens[0].kind == Kind::TokenWord && tokens[0].word(0) != "true"@ && tokens[0].word(0) != "false"@ ==> (meets(
            held,
            tokens,
        ) <==> held.contains(tokens[0].word(0))),
        tokens.len() == 1 && is_word(tokens[0], "true"@) ==> meets(held, tokens),
        tokens.len() == 1 && is_word(tokens[0], "false"@) ==> !meets(held, tokens),
        tokens.len() == 3 && tokens[0].kind == Kind::TokenWord && is_mark(tokens[1], "="@) && tokens[2].kind == Kind::TokenLiteral ==> (
        meets(held, tokens) <==> held.contains(tokens[0].word(0) + "="@ + tokens[2].word(0))),
{
    lemma_words();
}

/// The opposite of a predicate is met where the predicate is not.
pub proof fn law_opposites_are_met_by_other_builds(held: Seq<Seq<char>>, tokens: Seq<Node>, inner: Seq<Node>)
    requires
        is_of(tokens, "not"@, inner),
        is_whole(inner),
        inner.len() > 0,
    ensures
        meets(held, tokens) <==> !meets(held, inner),
{
    lemma_whole(inner);
    lemma_pieces(inner);
    assert(meets_every(held, rest(inner)));
    assert(meets_every(held, inner) == meets(held, inner));
}

/// Several predicates are met together where each is, and one of several where any is. None at all are met
/// together by every build, and one of none by no build.
pub proof fn law_several_are_met_together_or_one_by_one(
    held: Seq<Seq<char>>,
    tokens: Seq<Node>,
    shorter: Seq<Node>,
    first: Seq<Node>,
    mark: Node,
    others: Seq<Node>,
)
    requires
        is_whole(first),
        first.len() > 0,
        is_mark(mark, ","@),
    ensures
        is_of(tokens, "all"@, Seq::empty()) ==> meets(held, tokens),
        is_of(tokens, "any"@, Seq::empty()) ==> !meets(held, tokens),
        is_of(tokens, "all"@, first) || is_of(tokens, "any"@, first) ==> (meets(held, tokens) <==> meets(held, first)),
        is_of(tokens, "all"@, first.push(mark) + others) && is_of(shorter, "all"@, others) ==> (meets(held, tokens) <==> meets(held, first)
            && meets(held, shorter)),
        is_of(tokens, "any"@, first.push(mark) + others) && is_of(shorter, "any"@, others) ==> (meets(held, tokens) <==> meets(held, first)
            || meets(held, shorter)),
{
    lemma_words();
    lemma_whole(first);
    lemma_parted(first, mark, others);
    lemma_pieces(first);
    assert(meets_every(held, Seq::empty()));
    assert(!meets_some(held, Seq::empty()));
    assert(meets_every(held, first) == meets(held, first));
    assert(meets_some(held, first) == meets(held, first));
    let all = first.push(mark) + others;
    assert(all.len() > 0);
    assert(meets_every(held, all) == (meets(held, first) && meets_every(held, others)));
    assert(meets_some(held, all) == (meets(held, first) || meets_some(held, others)));
}

/// What demands a build of the tests is met by no other build.
pub proof fn law_what_demands_a_test_is_met_by_no_other_build(held: Seq<Seq<char>>, tokens: Seq<Node>)
    requires
        demands_test(tokens),
        !held.contains("test"@),
    ensures
        !meets(held, tokens),
    decreases tokens, 0nat,
{
    lemma_words();
    if tokens.len() == 2 {
        let list = tokens[1].kids@;
        assert(decreases_to!(tokens => tokens[1]));
        if group_behind(tokens, "all"@) is Some {
            lemma_some_unmet(held, list);
        } else {
            lemma_none_met(held, list);
        }
    }
}

proof fn lemma_some_unmet(held: Seq<Seq<char>>, tokens: Seq<Node>)
    requires
        some_demands_test(tokens),
        !held.contains("test"@),
    ensures
        !meets_every(held, tokens),
    decreases tokens, 1nat,
{
    lemma_pieces(tokens);
    if demands_test(head(tokens)) {
        law_what_demands_a_test_is_met_by_no_other_build(held, head(tokens));
    } else {
        lemma_some_unmet(held, rest(tokens));
    }
}

proof fn lemma_none_met(held: Seq<Seq<char>>, tokens: Seq<Node>)
    requires
        every_demands_test(tokens),
        !held.contains("test"@),
    ensures
        !meets_some(held, tokens),
    decreases tokens, 1nat,
{
    lemma_pieces(tokens);
    if tokens.len() > 0 {
        if head(tokens).len() > 0 {
            law_what_demands_a_test_is_met_by_no_other_build(held, head(tokens));
        }
        lemma_none_met(held, rest(tokens));
    }
}

/// A test is demanded by its name, by several together where any demands it, by one of several where each
/// does, and never by the opposite of anything.
pub proof fn law_a_test_is_demanded(tokens: Seq<Node>, shorter: Seq<Node>, first: Seq<Node>, mark: Node, others: Seq<Node>)
    requires
        is_whole(first),
        first.len() > 0,
        is_mark(mark, ","@),
    ensures
        tokens.len() == 1 ==> (demands_test(tokens) <==> is_word(tokens[0], "test"@)),
        is_of(tokens, "not"@, others) ==> !demands_test(tokens),
        is_of(tokens, "all"@, first) || is_of(tokens, "any"@, first) ==> (demands_test(tokens) <==> demands_test(first)),
        is_of(tokens, "all"@, first.push(mark) + others) && is_of(shorter, "all"@, others) ==> (demands_test(tokens) <==> demands_test(first)
            || demands_test(shorter)),
        is_of(tokens, "any"@, first.push(mark) + others) && is_of(shorter, "any"@, others) && others.len() > 0 ==> (demands_test(tokens)
            <==> demands_test(first) && demands_test(shorter)),
{
    lemma_words();
    lemma_whole(first);
    lemma_parted(first, mark, others);
    lemma_pieces(first);
    assert(!some_demands_test(Seq::empty()));
    assert(every_demands_test(Seq::empty()));
    assert(some_demands_test(first) == demands_test(first));
    assert(every_demands_test(first) == demands_test(first));
    let all = first.push(mark) + others;
    assert(all.len() > 0);
    assert(some_demands_test(all) == (demands_test(first) || some_demands_test(others)));
    assert(every_demands_test(all) == (demands_test(first) && every_demands_test(others)));
}

/// Where a build is known, what stands under a predicate is left out exactly where the predicate demands a
/// test or is not met.
pub proof fn law_predicates_decide_what_is_left_out(build: Build, attr: Node)
    requires
        attr.kind == Kind::AttrList,
        attr.kids@.len() == 2,
        path_ident(attr.kids@[0]) == Some("cfg"@),
    ensures
        build.skips(seq![attr]) <==> demands_test(attr.kids@[1].kids@) || build.enforced && !meets(build.held, attr.kids@[1].kids@),
{
    lemma_words();
    let attrs = seq![attr];
    assert(attrs[0] == attr);
    if build.gates(attr) {
        assert(build.is_gated(attrs));
    }
    if build.holds(attrs) {
        assert(build.admits(attrs[0]));
    }
}

/// An attribute that is applied under a predicate counts as the attribute does where the predicate is met,
/// and not at all where it is not.
pub proof fn law_attributes_apply_under_a_predicate(build: Build, attr: Node, condition: Seq<Node>, mark: Node, applied: Seq<Node>, list: Seq<Node>)
    requires
        attr.kind == Kind::AttrList,
        attr.kids@.len() == 2,
        path_ident(attr.kids@[0]) == Some("cfg_attr"@),
        attr.kids@[1].kids@ == condition.push(mark) + applied,
        is_whole(condition),
        is_mark(mark, ","@),
        is_of(applied, "cfg"@, list),
        is_whole(applied),
    ensures
        build.skips(seq![attr]) <==> (build.enforced ==> meets(build.held, condition)) && (demands_test(list) || build.enforced && !meets(
            build.held,
            list,
        )),
{
    lemma_words();
    lemma_parted(condition, mark, applied);
    lemma_whole(applied);
    lemma_pieces(attr.kids@[1].kids@);
    lemma_pieces(applied);
    let attrs = seq![attr];
    assert(attrs[0] == attr);
    assert(build.keeps_every(Seq::empty()));
    assert(!build.confines_some(Seq::empty()));
    assert(build.keeps_every(applied) == build.keeps(applied));
    assert(build.confines_some(applied) == build.confines(applied));
    assert(attr.kids@[1].kids@.len() > 0);
    if build.gates(attr) {
        assert(build.is_gated(attrs));
    }
    if build.holds(attrs) {
        assert(build.admits(attrs[0]));
    }
}

/// Of several attributes that are applied under a predicate each counts: all have to keep what they are on, and any
/// can confine it to tests.
pub proof fn law_several_attributes_apply_under_a_predicate(build: Build, first: Seq<Node>, mark: Node, others: Seq<Node>)
    requires
        is_whole(first),
        is_mark(mark, ","@),
    ensures
        build.keeps_every(first.push(mark) + others) <==> build.keeps(first) && build.keeps_every(others),
        build.confines_some(first.push(mark) + others) <==> build.confines(first) || build.confines_some(others),
        build.keeps_every(Seq::empty()),
        !build.confines_some(Seq::empty()),
{
    lemma_parted(first, mark, others);
    lemma_pieces(first.push(mark) + others);
    assert((first.push(mark) + others).len() > 0);
}

/// An applied attribute is that of a test where its path ends in `test`, with arguments or not.
pub proof fn law_an_applied_test_is_known_by_its_path(build: Build, front: Seq<Node>, word: Node, group: Node)
    requires
        word.kind == Kind::TokenWord,
        front.len() > 0,
        front.last().kind == Kind::TokenMark,
        group.kind == Kind::TokenGroup,
    ensures
        word.word(0) == "test"@ ==> build.confines(seq![word]),
        word.word(0) != "test"@ ==> !build.confines(seq![word]),
        word.word(0) == "test"@ && is_mark(front.last(), ":"@) ==> build.confines(front.push(word)),
        word.word(0) == "test"@ && !is_mark(front.last(), ":"@) ==> !build.confines(front.push(word)),
        word.word(0) == "test"@ ==> build.confines(seq![word, group]),
        word.word(0) != "test"@ && word.word(0) != "cfg"@ && word.word(0) != "cfg_attr"@ ==> !build.confines(seq![word, group]),
{
    lemma_words();
    reveal_strlit("test");
    reveal_strlit("cfg");
    reveal_strlit("cfg_attr");
    assert("test"@.len() == 4 && "cfg"@.len() == 3 && "cfg_attr"@.len() == 8);
    let long = front.push(word);
    assert(long.last() == word);
    assert(long[long.len() - 2] == front.last());
    assert(group_behind(long, "cfg"@) is None);
    assert(group_behind(long, "cfg_attr"@) is None);
    let called = seq![word, group];
    assert(called.last() == group);
    assert(called.drop_last() =~= seq![word]);
    assert(seq![word].last() == word);
}

/// Other attributes leave nothing out but tests, however a test is named.
pub proof fn law_other_attributes_leave_out_only_tests(build: Build, attr: Node)
    requires
        attr.kids@.len() > 0,
        path_ident(attr.kids@[0]) != Some("cfg"@),
        path_ident(attr.kids@[0]) != Some("cfg_attr"@),
    ensures
        build.skips(seq![attr]) <==> last_name(attr.kids@[0]) == Some("test"@),
{
    let attrs = seq![attr];
    assert(attrs[0] == attr);
    if build.gates(attr) {
        assert(build.is_gated(attrs));
    }
    assert(build.holds(attrs)) by {
        assert forall|i: int| 0 <= i < attrs.len() implies build.admits(#[trigger] attrs[i]) by {}
    }
}

/// What a compiler prints of a build is read line by line, without the white space around a line, and blank
/// lines say nothing.
pub proof fn law_a_build_is_read_line_by_line(before: Seq<Seq<char>>, line: Seq<char>)
    ensures
        printed(Seq::empty()).len() == 0,
        trim(line).len() == 0 ==> printed(before.push(line)) == printed(before),
        trim(line).len() > 0 ==> printed(before.push(line)) == printed(before).push(trim(line)),
{
    assert(before.push(line).drop_last() =~= before);
}

} // verus!
