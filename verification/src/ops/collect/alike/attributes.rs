//! What conditional compilation makes of attributes that are alike.
use crate::cfg::{
    comma, demands_test, every_demands_test, group_behind, head, is_mark, is_test, is_test_path, is_word,
    lemma_comma, lemma_pieces, meets, meets_every, meets_some, rest, some_demands_test, Build,
};
use crate::syntax::tree::Node;
use super::{group_same, lemma_all, lemma_each, same, same_all, same_group};
use super::forms::{alike_last_name, alike_path_ident};
use vstd::prelude::*;

verus! {

/// `is_mark` does not depend on where constructs lie.
pub(crate) broadcast proof fn alike_is_mark(token: Node, token2: Node, mark: Seq<char>)
    requires
        same(token, token2),
    ensures
        #[trigger] is_mark(token, mark) == #[trigger] is_mark(token2, mark),
{
    broadcast use group_same;
}

/// `comma` does not depend on where constructs lie.
pub(crate) broadcast proof fn alike_comma(tokens: Seq<Node>, tokens2: Seq<Node>)
    requires
        same_all(tokens, tokens2),
    ensures
        #[trigger] comma(tokens) == #[trigger] comma(tokens2),
    decreases tokens.len(),
{
    broadcast use {group_same, alike_is_mark};
    if tokens.len() > 0 {
        alike_comma(tokens.drop_first(), tokens2.drop_first());
        assert(same(tokens[0], tokens2[0]));
    }
}

/// `head` does not depend on where constructs lie.
pub(crate) broadcast proof fn alike_head(tokens: Seq<Node>, tokens2: Seq<Node>)
    requires
        same_all(tokens, tokens2),
    ensures
        same_all(#[trigger] head(tokens), #[trigger] head(tokens2)),
{
    broadcast use {group_same, alike_comma};
    lemma_comma(tokens);
    alike_comma(tokens, tokens2);
    lemma_each(tokens, tokens2);
    lemma_all(head(tokens), head(tokens2));
}

/// `rest` does not depend on where constructs lie.
pub(crate) broadcast proof fn alike_rest(tokens: Seq<Node>, tokens2: Seq<Node>)
    requires
        same_all(tokens, tokens2),
    ensures
        same_all(#[trigger] rest(tokens), #[trigger] rest(tokens2)),
{
    broadcast use {group_same, alike_comma};
    lemma_comma(tokens);
    alike_comma(tokens, tokens2);
    lemma_each(tokens, tokens2);
    lemma_all(rest(tokens), rest(tokens2));
}

/// `is_word` does not depend on where constructs lie.
pub(crate) broadcast proof fn alike_is_word(token: Node, token2: Node, word: Seq<char>)
    requires
        same(token, token2),
    ensures
        #[trigger] is_word(token, word) == #[trigger] is_word(token2, word),
{
    broadcast use group_same;
}

/// `group_behind` does not depend on where constructs lie.
pub(crate) broadcast proof fn alike_group_behind(tokens: Seq<Node>, tokens2: Seq<Node>, word: Seq<char>)
    requires
        same_all(tokens, tokens2),
    ensures
        same_group(#[trigger] group_behind(tokens, word), #[trigger] group_behind(tokens2, word)),
{
    broadcast use {group_same, alike_is_word};
    if tokens.len() == 2 {
        assert(same(tokens[0], tokens2[0]) && same(tokens[1], tokens2[1]));
    }
}

/// `meets_every` does not depend on where constructs lie.
pub(crate) broadcast proof fn alike_meets_every(held: Seq<Seq<char>>, tokens: Seq<Node>, tokens2: Seq<Node>)
    requires
        same_all(tokens, tokens2),
    ensures
        #[trigger] meets_every(held, tokens) == #[trigger] meets_every(held, tokens2),
    decreases tokens, 1nat,
{
    broadcast use {group_same, alike_head, alike_rest};
    if tokens.len() > 0 {
        lemma_pieces(tokens);
        alike_head(tokens, tokens2);
        alike_rest(tokens, tokens2);
        alike_meets(held, head(tokens), head(tokens2));
        alike_meets_every(held, rest(tokens), rest(tokens2));
    }
}

/// `meets_some` does not depend on where constructs lie.
pub(crate) broadcast proof fn alike_meets_some(held: Seq<Seq<char>>, tokens: Seq<Node>, tokens2: Seq<Node>)
    requires
        same_all(tokens, tokens2),
    ensures
        #[trigger] meets_some(held, tokens) == #[trigger] meets_some(held, tokens2),
    decreases tokens, 1nat,
{
    broadcast use {group_same, alike_head, alike_rest};
    if tokens.len() > 0 {
        lemma_pieces(tokens);
        alike_head(tokens, tokens2);
        alike_rest(tokens, tokens2);
        alike_meets(held, head(tokens), head(tokens2));
        alike_meets_some(held, rest(tokens), rest(tokens2));
    }
}

/// `meets` does not depend on where constructs lie.
pub(crate) broadcast proof fn alike_meets(held: Seq<Seq<char>>, tokens: Seq<Node>, tokens2: Seq<Node>)
    requires
        same_all(tokens, tokens2),
    ensures
        #[trigger] meets(held, tokens) == #[trigger] meets(held, tokens2),
    decreases tokens, 0nat,
{
    broadcast use {group_same, alike_group_behind, alike_is_mark};
    assert forall|i: int| 0 <= i < tokens.len()
        implies same(#[trigger] tokens[i], tokens2[i]) && same_all(tokens[i].kids@, tokens2[i].kids@) by {
    }
    if tokens.len() == 2 {
        alike_meets_every(held, tokens[1].kids@, tokens2[1].kids@);
        alike_meets_some(held, tokens[1].kids@, tokens2[1].kids@);
    }
}

/// `met` does not depend on where constructs lie.
pub(crate) broadcast proof fn alike_met(own: Build, tokens: Seq<Node>, tokens2: Seq<Node>)
    requires
        same_all(tokens, tokens2),
    ensures
        #[trigger] own.met(tokens) == #[trigger] own.met(tokens2),
{
    broadcast use {group_same, alike_meets};
}

/// `keeps` does not depend on where constructs lie.
pub(crate) broadcast proof fn alike_keeps(own: Build, tokens: Seq<Node>, tokens2: Seq<Node>)
    requires
        same_all(tokens, tokens2),
    ensures
        #[trigger] own.keeps(tokens) == #[trigger] own.keeps(tokens2),
    decreases tokens, 0nat,
{
    broadcast use {group_same, alike_group_behind, alike_met};
    assert forall|i: int| 0 <= i < tokens.len()
        implies same(#[trigger] tokens[i], tokens2[i]) && same_all(tokens[i].kids@, tokens2[i].kids@) by {
    }
    if tokens.len() == 2 {
        alike_met(own, tokens[1].kids@, tokens2[1].kids@);
        alike_keeps_applied(own, tokens[1].kids@, tokens2[1].kids@);
    }
}

/// `keeps_every` does not depend on where constructs lie.
pub(crate) broadcast proof fn alike_keeps_every(own: Build, tokens: Seq<Node>, tokens2: Seq<Node>)
    requires
        same_all(tokens, tokens2),
    ensures
        #[trigger] own.keeps_every(tokens) == #[trigger] own.keeps_every(tokens2),
    decreases tokens, 1nat,
{
    broadcast use {group_same, alike_head, alike_rest};
    if tokens.len() > 0 {
        lemma_pieces(tokens);
        alike_head(tokens, tokens2);
        alike_rest(tokens, tokens2);
        alike_keeps(own, head(tokens), head(tokens2));
        alike_keeps_every(own, rest(tokens), rest(tokens2));
    }
}

/// `keeps_applied` does not depend on where constructs lie.
pub(crate) broadcast proof fn alike_keeps_applied(own: Build, tokens: Seq<Node>, tokens2: Seq<Node>)
    requires
        same_all(tokens, tokens2),
    ensures
        #[trigger] own.keeps_applied(tokens) == #[trigger] own.keeps_applied(tokens2),
    decreases tokens, 2nat,
{
    broadcast use {group_same, alike_head, alike_rest, alike_met};
    if tokens.len() > 0 {
        lemma_pieces(tokens);
        alike_head(tokens, tokens2);
        alike_rest(tokens, tokens2);
        alike_met(own, head(tokens), head(tokens2));
        alike_keeps_every(own, rest(tokens), rest(tokens2));
    }
}

/// `admits` does not depend on where constructs lie.
pub(crate) broadcast proof fn alike_admits(own: Build, attr: Node, attr2: Node)
    requires
        same(attr, attr2),
    ensures
        #[trigger] own.admits(attr) == #[trigger] own.admits(attr2),
{
    broadcast use {group_same, alike_keeps_applied, alike_path_ident, alike_met};
    if attr.kids@.len() == 2 {
        assert(same(attr.kids@[0], attr2.kids@[0]) && same(attr.kids@[1], attr2.kids@[1]));
        alike_met(own, attr.kids@[1].kids@, attr2.kids@[1].kids@);
        alike_keeps_applied(own, attr.kids@[1].kids@, attr2.kids@[1].kids@);
        alike_path_ident(attr.kids@[0], attr2.kids@[0]);
    }
}

/// `some_demands_test` does not depend on where constructs lie.
pub(crate) broadcast proof fn alike_some_demands_test(tokens: Seq<Node>, tokens2: Seq<Node>)
    requires
        same_all(tokens, tokens2),
    ensures
        #[trigger] some_demands_test(tokens) == #[trigger] some_demands_test(tokens2),
    decreases tokens, 1nat,
{
    broadcast use {group_same, alike_head, alike_rest};
    if tokens.len() > 0 {
        lemma_pieces(tokens);
        alike_head(tokens, tokens2);
        alike_rest(tokens, tokens2);
        alike_demands_test(head(tokens), head(tokens2));
        alike_some_demands_test(rest(tokens), rest(tokens2));
    }
}

/// `every_demands_test` does not depend on where constructs lie.
pub(crate) broadcast proof fn alike_every_demands_test(tokens: Seq<Node>, tokens2: Seq<Node>)
    requires
        same_all(tokens, tokens2),
    ensures
        #[trigger] every_demands_test(tokens) == #[trigger] every_demands_test(tokens2),
    decreases tokens, 1nat,
{
    broadcast use {group_same, alike_head, alike_rest};
    if tokens.len() > 0 {
        lemma_pieces(tokens);
        alike_head(tokens, tokens2);
        alike_rest(tokens, tokens2);
        alike_demands_test(head(tokens), head(tokens2));
        alike_every_demands_test(rest(tokens), rest(tokens2));
    }
}

/// `demands_test` does not depend on where constructs lie.
pub(crate) broadcast proof fn alike_demands_test(tokens: Seq<Node>, tokens2: Seq<Node>)
    requires
        same_all(tokens, tokens2),
    ensures
        #[trigger] demands_test(tokens) == #[trigger] demands_test(tokens2),
    decreases tokens, 0nat,
{
    broadcast use {group_same, alike_group_behind, alike_is_word};
    assert forall|i: int| 0 <= i < tokens.len()
        implies same(#[trigger] tokens[i], tokens2[i]) && same_all(tokens[i].kids@, tokens2[i].kids@) by {
    }
    if tokens.len() == 2 {
        alike_every_demands_test(tokens[1].kids@, tokens2[1].kids@);
        alike_some_demands_test(tokens[1].kids@, tokens2[1].kids@);
    }
}

/// `is_test_path` does not depend on where constructs lie.
pub(crate) broadcast proof fn alike_is_test_path(tokens: Seq<Node>, tokens2: Seq<Node>)
    requires
        same_all(tokens, tokens2),
    ensures
        #[trigger] is_test_path(tokens) == #[trigger] is_test_path(tokens2),
{
    broadcast use {group_same, alike_is_mark, alike_is_word};
    if tokens.len() > 1 {
        let at = tokens.len() - 2;
        assert(same(tokens[at], tokens2[at]));
    }
}

/// `is_test` does not depend on where constructs lie.
pub(crate) broadcast proof fn alike_is_test(tokens: Seq<Node>, tokens2: Seq<Node>)
    requires
        same_all(tokens, tokens2),
    ensures
        #[trigger] is_test(tokens) == #[trigger] is_test(tokens2),
{
    broadcast use {group_same, alike_is_test_path};
}

/// `confines_some` does not depend on where constructs lie.
pub(crate) broadcast proof fn alike_confines_some(own: Build, tokens: Seq<Node>, tokens2: Seq<Node>)
    requires
        same_all(tokens, tokens2),
    ensures
        #[trigger] own.confines_some(tokens) == #[trigger] own.confines_some(tokens2),
    decreases tokens, 1nat,
{
    broadcast use {group_same, alike_head, alike_rest};
    if tokens.len() > 0 {
        lemma_pieces(tokens);
        alike_head(tokens, tokens2);
        alike_rest(tokens, tokens2);
        alike_confines(own, head(tokens), head(tokens2));
        alike_confines_some(own, rest(tokens), rest(tokens2));
    }
}

/// `confines_applied` does not depend on where constructs lie.
pub(crate) broadcast proof fn alike_confines_applied(own: Build, tokens: Seq<Node>, tokens2: Seq<Node>)
    requires
        same_all(tokens, tokens2),
    ensures
        #[trigger] own.confines_applied(tokens) == #[trigger] own.confines_applied(tokens2),
    decreases tokens, 2nat,
{
    broadcast use {group_same, alike_head, alike_rest, alike_met};
    if tokens.len() > 0 {
        lemma_pieces(tokens);
        alike_head(tokens, tokens2);
        alike_rest(tokens, tokens2);
        alike_met(own, head(tokens), head(tokens2));
        alike_confines_some(own, rest(tokens), rest(tokens2));
    }
}

/// `confines` does not depend on where constructs lie.
pub(crate) broadcast proof fn alike_confines(own: Build, tokens: Seq<Node>, tokens2: Seq<Node>)
    requires
        same_all(tokens, tokens2),
    ensures
        #[trigger] own.confines(tokens) == #[trigger] own.confines(tokens2),
    decreases tokens, 0nat,
{
    broadcast use {group_same, alike_demands_test, alike_group_behind, alike_is_test};
    assert forall|i: int| 0 <= i < tokens.len()
        implies same(#[trigger] tokens[i], tokens2[i]) && same_all(tokens[i].kids@, tokens2[i].kids@) by {
    }
    if tokens.len() == 2 {
        alike_confines_applied(own, tokens[1].kids@, tokens2[1].kids@);
    }
}

/// `gates` does not depend on where constructs lie.
pub(crate) broadcast proof fn alike_gates(own: Build, attr: Node, attr2: Node)
    requires
        same(attr, attr2),
    ensures
        #[trigger] own.gates(attr) == #[trigger] own.gates(attr2),
{
    broadcast use {group_same, alike_last_name, alike_path_ident, alike_demands_test, alike_confines_applied};
    if attr.kids@.len() > 0 {
        assert(same(attr.kids@[0], attr2.kids@[0]));
        alike_path_ident(attr.kids@[0], attr2.kids@[0]);
        alike_last_name(attr.kids@[0], attr2.kids@[0]);
    }
    if attr.kids@.len() == 2 {
        assert(same(attr.kids@[1], attr2.kids@[1]));
        alike_demands_test(attr.kids@[1].kids@, attr2.kids@[1].kids@);
        alike_confines_applied(own, attr.kids@[1].kids@, attr2.kids@[1].kids@);
    }
}

/// `holds` does not depend on where constructs lie.
pub(crate) broadcast proof fn alike_holds(own: Build, attrs: Seq<Node>, attrs2: Seq<Node>)
    requires
        same_all(attrs, attrs2),
    ensures
        #[trigger] own.holds(attrs) == #[trigger] own.holds(attrs2),
{
    broadcast use {group_same, alike_admits};
    assert forall|i: int| 0 <= i < attrs.len() implies own.admits(#[trigger] attrs[i]) == own.admits(attrs2[i]) by {
        assert(same(attrs[i], attrs2[i]));
    }
    if own.holds(attrs) {
        assert forall|i: int| 0 <= i < attrs2.len() implies own.admits(#[trigger] attrs2[i]) by {
            assert(own.admits(attrs[i]));
        }
    }
}

/// `is_gated` does not depend on where constructs lie.
pub(crate) broadcast proof fn alike_is_gated(own: Build, attrs: Seq<Node>, attrs2: Seq<Node>)
    requires
        same_all(attrs, attrs2),
    ensures
        #[trigger] own.is_gated(attrs) == #[trigger] own.is_gated(attrs2),
{
    broadcast use {group_same, alike_gates};
    assert forall|i: int| 0 <= i < attrs.len() implies own.gates(#[trigger] attrs[i]) == own.gates(attrs2[i]) by {
        assert(same(attrs[i], attrs2[i]));
    }
    if own.is_gated(attrs) {
        let i = choose|i: int| 0 <= i < attrs.len() && own.gates(#[trigger] attrs[i]);
        assert(own.gates(attrs2[i]));
    }
    if own.is_gated(attrs2) {
        let i = choose|i: int| 0 <= i < attrs2.len() && own.gates(#[trigger] attrs2[i]);
        assert(own.gates(attrs[i]));
    }
}

/// `skips` does not depend on where constructs lie.
pub(crate) broadcast proof fn alike_skips(own: Build, attrs: Seq<Node>, attrs2: Seq<Node>)
    requires
        same_all(attrs, attrs2),
    ensures
        #[trigger] own.skips(attrs) == #[trigger] own.skips(attrs2),
{
    broadcast use {group_same, alike_holds, alike_is_gated};
}

} // verus!
