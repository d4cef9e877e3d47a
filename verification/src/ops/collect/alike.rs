//! Trees that differ only in where their constructs lie.
pub mod attributes;
pub mod evidence;
pub mod forms;
pub mod kinds;
pub mod moved;
pub mod offered;
pub mod scopes;
pub mod walk;

use super::collector::scope::{Scope, Setting};
use super::collector::types::Typing;
use crate::syntax::tree::Node;
use vstd::prelude::*;

verus! {

/// Whether two constructs differ only in where they and their parts lie.
pub open spec fn same(a: Node, b: Node) -> bool
    decreases a,
{
    &&& a.kind == b.kind
    &&& a.text@ == b.text@
    &&& same_all(a.attrs@, b.attrs@)
    &&& same_all(a.kids@, b.kids@)
}

/// The same of several constructs.
pub open spec fn same_all(a: Seq<Node>, b: Seq<Node>) -> bool
    decreases a,
{
    &&& a.len() == b.len()
    &&& a.len() > 0 ==> same_all(a.drop_last(), b.drop_last()) && same(a.last(), b.last())
}

/// The same of a construct that may be missing.
pub open spec fn same_opt(a: Option<Node>, b: Option<Node>) -> bool {
    match (a, b) {
        (Some(a), Some(b)) => same(a, b),
        (None, None) => true,
        _ => false,
    }
}

/// The same of several constructs that may be missing.
pub open spec fn same_group(a: Option<Seq<Node>>, b: Option<Seq<Node>>) -> bool {
    match (a, b) {
        (Some(a), Some(b)) => same_all(a, b),
        (None, None) => true,
        _ => false,
    }
}

/// Whether what is known of types differs only in where constructs lie.
pub open spec fn same_typing(a: Typing, b: Typing) -> bool {
    &&& a.abstracts == b.abstracts
    &&& a.imports == b.imports
    &&& a.known == b.known
    &&& same_opt(a.self_type, b.self_type)
    &&& same_opt(a.implementation, b.implementation)
}

/// Whether two scopes differ only in where their constructs lie.
pub open spec fn same_scope(a: Scope, b: Scope) -> bool {
    &&& same_opt(a.self_type, b.self_type)
    &&& same_opt(a.implementation, b.implementation)
    &&& b == Scope { self_type: b.self_type, implementation: b.implementation, ..a }
}

/// Whether two settings differ only in their texts.
pub open spec fn same_setting(a: Setting, b: Setting) -> bool {
    b == Setting { text: b.text, ..a }
}

proof fn lemma_same_at(a: Seq<Node>, b: Seq<Node>, i: int)
    requires
        same_all(a, b),
        0 <= i < a.len(),
    ensures
        same(a[i], b[i]),
    decreases a.len(),
{
    if i < a.len() - 1 {
        lemma_same_at(a.drop_last(), b.drop_last(), i);
    }
}

/// Each of several constructs is like its counterpart.
pub broadcast proof fn lemma_each(a: Seq<Node>, b: Seq<Node>)
    requires
        #[trigger] same_all(a, b),
    ensures
        a.len() == b.len(),
        forall|i: int| #![trigger a[i]] #![trigger b[i]] 0 <= i < a.len() ==> same(a[i], b[i]),
{
    assert forall|i: int| 0 <= i < a.len() implies same(a[i], b[i]) by {
        lemma_same_at(a, b, i);
    }
}

/// What is like its counterpart each is so together.
pub proof fn lemma_all(a: Seq<Node>, b: Seq<Node>)
    requires
        a.len() == b.len(),
        forall|i: int| 0 <= i < a.len() ==> same(#[trigger] a[i], b[i]),
    ensures
        same_all(a, b),
    decreases a.len(),
{
    if a.len() > 0 {
        assert(same(a[a.len() - 1], b[a.len() - 1]));
        assert forall|i: int| 0 <= i < a.len() - 1 implies same(#[trigger] a.drop_last()[i], b.drop_last()[i]) by {
            assert(same(a[i], b[i]));
        }
        lemma_all(a.drop_last(), b.drop_last());
    }
}

/// What two constructs that are alike have in common.
pub broadcast proof fn lemma_same(a: Node, b: Node)
    requires
        #[trigger] same(a, b),
    ensures
        a.kind == b.kind,
        a.text@ == b.text@,
        same_all(a.attrs@, b.attrs@),
        same_all(a.kids@, b.kids@),
        same_all(a.inside(), b.inside()),
{
    lemma_each(a.kids@, b.kids@);
    lemma_all(a.inside(), b.inside());
}

pub broadcast proof fn lemma_same_kid(a: Node, b: Node, at: int)
    requires
        same(a, b),
    ensures
        same_opt(#[trigger] a.kid(at), #[trigger] b.kid(at)),
{
    lemma_each(a.kids@, b.kids@);
}

pub broadcast proof fn lemma_same_word(a: Node, b: Node, at: int)
    requires
        same(a, b),
    ensures
        #[trigger] a.word(at) == #[trigger] b.word(at),
{
    lemma_each(a.kids@, b.kids@);
}

pub broadcast proof fn lemma_same_first_of(a: Node, b: Node, at: int)
    requires
        same(a, b),
    ensures
        same_opt(#[trigger] a.first_of(at), #[trigger] b.first_of(at)),
{
    broadcast use {lemma_same, lemma_each};
}

pub broadcast proof fn lemma_same_all_of(a: Node, b: Node, at: int)
    requires
        same(a, b),
    ensures
        same_all(#[trigger] a.all_of(at), #[trigger] b.all_of(at)),
{
    broadcast use {lemma_same, lemma_each};
}

pub broadcast proof fn lemma_same_front(a: Seq<Node>, b: Seq<Node>)
    requires
        same_all(a, b),
        a.len() > 0,
    ensures
        same_all(#[trigger] a.drop_last(), #[trigger] b.drop_last()),
{
}

pub broadcast proof fn lemma_same_last(a: Seq<Node>, b: Seq<Node>)
    requires
        same_all(a, b),
        a.len() > 0,
    ensures
        same(#[trigger] a.last(), #[trigger] b.last()),
{
}

pub broadcast proof fn lemma_same_rest(a: Seq<Node>, b: Seq<Node>)
    requires
        same_all(a, b),
        a.len() > 0,
    ensures
        same_all(#[trigger] a.drop_first(), #[trigger] b.drop_first()),
{
    lemma_each(a, b);
    lemma_all(a.drop_first(), b.drop_first());
}

pub broadcast proof fn lemma_same_part(a: Seq<Node>, b: Seq<Node>, from: int, to: int)
    requires
        same_all(a, b),
        0 <= from <= to <= a.len(),
    ensures
        same_all(#[trigger] a.subrange(from, to), #[trigger] b.subrange(from, to)),
{
    lemma_each(a, b);
    lemma_all(a.subrange(from, to), b.subrange(from, to));
}

pub broadcast proof fn lemma_same_push(a: Seq<Node>, b: Seq<Node>, x: Node, y: Node)
    requires
        same_all(a, b),
        same(x, y),
    ensures
        same_all(#[trigger] a.push(x), #[trigger] b.push(y)),
{
    lemma_each(a, b);
    lemma_all(a.push(x), b.push(y));
}

pub broadcast group group_same {
    lemma_each,
    lemma_same,
    lemma_same_kid,
    lemma_same_word,
    lemma_same_first_of,
    lemma_same_all_of,
    lemma_same_front,
    lemma_same_last,
    lemma_same_rest,
    lemma_same_part,
    lemma_same_push,
}

} // verus!
