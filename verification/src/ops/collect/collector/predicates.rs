//! Syntactic questions the collector asks about one node.
use crate::cfg::CfgSet;
use crate::ops::collect::defaults::{is_among, DefaultPaths, Spellings};
use crate::syntax::query;
use crate::syntax::query::{last_name, path_names};
use crate::syntax::{Kind, Node, Op};
use crate::text;
use crate::text::{strings, viewed};
use vstd::prelude::*;

verus! {

// ---- Literals and grouping. ----

/// Whether borrowing an expression relies on it being promoted to static storage.
pub open spec fn promotable(e: Node) -> bool
    decreases e,
{
    match e.kind {
        Kind::Lit | Kind::PathExpr => true,
        Kind::Array | Kind::Tuple => all_promotable(e.kids@),
        Kind::Repeat | Kind::Reference | Kind::Negate | Kind::Paren => e.kids@.len() > 0 && promotable(e.kids@[0]),
        _ => false,
    }
}

/// Whether each of several expressions is such.
pub open spec fn all_promotable(nodes: Seq<Node>) -> bool
    decreases nodes,
{
    nodes.len() == 0 || all_promotable(nodes.drop_last()) && promotable(nodes.last())
}

/// Returns whether borrowing an expression relies on it being promoted to static storage.
///
/// Promotion is a property of const-evaluability, which cannot be decided from syntax alone. What
/// is decidable is the shape that makes it plausible, an aggregate built only from literals, and
/// that is the shape whose promotion a guard would silently take away.
pub fn is_promotable(e: &Node) -> (r: bool)
    ensures
        r == promotable(*e),
    decreases e,
{
    match e.kind {
        Kind::Lit | Kind::PathExpr => true,
        Kind::Array | Kind::Tuple => {
            let mut at: usize = 0;
            while at < e.kids.len()
                invariant
                    at <= e.kids@.len(),
                    all_promotable(e.kids@.take(at as int)),
                    e.kind == Kind::Array || e.kind == Kind::Tuple,
                decreases e.kids@.len() - at,
            {
                proof {
                    assert(e.kids@.take(at + 1).drop_last() =~= e.kids@.take(at as int));
                }
                if !is_promotable(&e.kids[at]) {
                    proof {
                        lemma_not_all_promotable(e.kids@, at as int);
                    }
                    return false;
                }
                at += 1;
            }
            proof {
                assert(e.kids@.take(at as int) =~= e.kids@);
            }
            true
        },
        Kind::Repeat | Kind::Reference | Kind::Negate | Kind::Paren => e.kids.len() > 0 && is_promotable(&e.kids[0]),
        _ => false,
    }
}

/// One expression that is not such is enough.
proof fn lemma_not_all_promotable(nodes: Seq<Node>, at: int)
    requires
        0 <= at < nodes.len(),
        !promotable(nodes[at]),
    ensures
        !all_promotable(nodes),
    decreases nodes.len(),
{
    if at < nodes.len() - 1 {
        lemma_not_all_promotable(nodes.drop_last(), at);
    }
}

/// Whether a condition binds a pattern, either directly or as part of a `&&` chain.
pub open spec fn binding(condition: Node) -> bool
    decreases condition,
{
    match condition.kind {
        Kind::Let => true,
        Kind::Binary => {
            &&& condition.kids@.len() == 3
            &&& condition.kids@[1].kind == Kind::Operator(Op::And)
            &&& binding(condition.kids@[0]) || binding(condition.kids@[2])
        },
        Kind::Paren => condition.kids@.len() > 0 && binding(condition.kids@[0]),
        _ => false,
    }
}

/// Returns whether a condition binds a pattern, either directly or as part of a `&&` chain.
///
/// A `let` in condition position is not an expression that can be negated, replaced by a boolean,
/// or have its `&&` turned into `||`.
pub fn binds_a_pattern(condition: &Node) -> (r: bool)
    ensures
        r == binding(*condition),
    decreases condition,
{
    match condition.kind {
        Kind::Let => true,
        Kind::Binary => condition.kids.len() == 3 && matches!(condition.kids[1].kind, Kind::Operator(Op::And)) && (binds_a_pattern(
            &condition.kids[0],
        ) || binds_a_pattern(&condition.kids[2])),
        Kind::Paren => condition.kids.len() > 0 && binds_a_pattern(&condition.kids[0]),
        _ => false,
    }
}

/// The value of a condition that is written as a boolean literal, seeing through parentheses.
pub open spec fn boolean(condition: Node) -> Option<bool>
    decreases condition,
{
    match condition.kind {
        Kind::Lit => match condition.kid(0) {
            Some(lit) => match lit.kind {
                Kind::LitBool { value } => Some(value),
                _ => None,
            },
            None => None,
        },
        Kind::Paren => if condition.kids@.len() > 0 {
            boolean(condition.kids@[0])
        } else {
            None
        },
        _ => None,
    }
}

/// Returns the value of a condition that is written as a boolean literal, seeing through
/// parentheses.
///
/// Replacing `if true` with `if true` reproduces the program, so the mutant could never be killed.
pub fn boolean_literal(condition: &Node) -> (r: Option<bool>)
    ensures
        r == boolean(*condition),
    decreases condition,
{
    match condition.kind {
        Kind::Lit => match condition.get(0) {
            Some(lit) => match lit.kind {
                Kind::LitBool { value } => Some(value),
                _ => None,
            },
            None => None,
        },
        Kind::Paren => if condition.kids.len() > 0 {
            boolean_literal(&condition.kids[0])
        } else {
            None
        },
        _ => None,
    }
}

/// The digits of an integer literal that an expression is, seeing through parentheses.
pub open spec fn digits(e: Node) -> Option<Seq<char>>
    decreases e,
{
    match e.kind {
        Kind::Lit => match e.kid(0) {
            Some(lit) => if lit.kind == Kind::LitInt {
                Some(lit.word(0))
            } else {
                None
            },
            None => None,
        },
        Kind::Paren => if e.kids@.len() > 0 {
            digits(e.kids@[0])
        } else {
            None
        },
        _ => None,
    }
}

/// The digits of an integer literal that an expression is, seeing through parentheses.
fn digits_of(e: &Node) -> (r: Option<&str>)
    ensures
        viewed(r) == digits(*e),
    decreases e,
{
    match e.kind {
        Kind::Lit => match e.get(0) {
            Some(lit) => if matches!(lit.kind, Kind::LitInt) {
                Some(lit.get_word(0))
            } else {
                None
            },
            None => None,
        },
        Kind::Paren => if e.kids.len() > 0 {
            digits_of(&e.kids[0])
        } else {
            None
        },
        _ => None,
    }
}

/// Returns whether an expression is an integer literal equal to zero, seeing through parentheses.
///
/// Integer zero is its own negation, so dropping the `-` from `-0` leaves the program unchanged.
/// Floating-point zero is excluded because its sign is observable.
pub fn is_integer_zero_literal(e: &Node) -> (r: bool)
    ensures
        r == (digits(*e) == Some("0"@)),
{
    match digits_of(e) {
        Some(found) => text::same(found, "0"),
        None => false,
    }
}

/// Returns whether an expression is an integer literal, which fixes the type of whatever it meets.
pub fn is_int_literal(e: &Node) -> (r: bool)
    ensures
        r == digits(*e) is Some,
{
    digits_of(e).is_some()
}

// ---- Loops. ----

/// Whether a `break` stands anywhere beneath a node.
pub open spec fn holds_break(node: Node) -> bool
    decreases node,
{
    proof {
        node.lemma_inside();
    }
    node.kind == Kind::Break || some_holds_break(node.attrs@) || some_holds_break(node.inside())
}

/// Whether a `break` stands beneath one of several nodes.
pub open spec fn some_holds_break(nodes: Seq<Node>) -> bool
    decreases nodes,
{
    nodes.len() > 0 && (some_holds_break(nodes.drop_last()) || holds_break(nodes.last()))
}

/// Returns whether a loop body contains any `break`, anywhere within it.
///
/// A `break` that belongs to a nested loop still counts, so a loop is only called breakless when it
/// truly has none.
fn has_break(node: &Node) -> (r: bool)
    ensures
        r == holds_break(*node),
    decreases node, 1nat,
{
    proof {
        node.lemma_inside();
        assert(node.attrs@.take(node.attrs@.len() as int) =~= node.attrs@);
        assert(node.kids@.take(node.inside().len() as int) =~= node.inside());
    }
    if matches!(node.kind, Kind::Break) {
        return true;
    }
    has_break_among(&node.attrs, node.attrs.len()) || has_break_among(&node.kids, node.count_inside())
}

/// Returns whether one of the first nodes contains any `break`.
fn has_break_among(nodes: &Vec<Node>, count: usize) -> (r: bool)
    requires
        count <= nodes@.len(),
    ensures
        r == some_holds_break(nodes@.take(count as int)),
    decreases nodes@, 0nat,
{
    let mut at: usize = 0;
    let mut found = false;
    proof {
        assert(nodes@.take(0) =~= Seq::<Node>::empty());
    }
    while at < count
        invariant
            at <= count <= nodes@.len(),
            found == some_holds_break(nodes@.take(at as int)),
        decreases count - at,
    {
        proof {
            assert(nodes@.take(at + 1).drop_last() =~= nodes@.take(at as int));
            assert(decreases_to!(nodes@ => nodes@[at as int]));
        }
        found = found || has_break(&nodes[at]);
        at += 1;
    }
    found
}

/// The label of a loop, if it has one.
pub open spec fn label(node: Node) -> Option<Seq<char>> {
    match node.first_of(0) {
        Some(name) => Some(name.text@),
        None => None,
    }
}

/// The label of a loop or of a jump, if it has one.
pub fn label_of(node: &Node) -> (r: Option<&str>)
    ensures
        viewed(r) == label(*node),
{
    match node.get_first(0) {
        Some(name) => Some(name.text.as_str()),
        None => None,
    }
}

/// Whether a `break` with a value that leaves the loop of a given label stands beneath a node.
///
/// `nested` says that another loop lies in between, and `shadowed` that one of those has the same
/// label. Closures and items are not looked into, because control flow cannot cross them.
pub open spec fn breaks_with_value(node: Node, root: Option<Seq<char>>, nested: bool, shadowed: bool) -> bool
    decreases node,
{
    proof {
        node.lemma_inside();
    }
    match node.kind {
        Kind::Break => node.first_of(1) is Some && (label(node) is None && !nested || !shadowed && root is Some && label(node) == root),
        Kind::Loop | Kind::ForLoop | Kind::While => node.kids@.len() > 0 && breaks_with_value(
            node.kids@.last(),
            root,
            true,
            shadowed || root is Some && label(node) == root,
        ),
        Kind::Closure | Kind::StmtItem => false,
        _ => some_breaks_with_value(node.attrs@, root, nested, shadowed) || some_breaks_with_value(node.inside(), root, nested, shadowed),
    }
}

/// Whether such a `break` stands beneath one of several nodes.
pub open spec fn some_breaks_with_value(nodes: Seq<Node>, root: Option<Seq<char>>, nested: bool, shadowed: bool) -> bool
    decreases nodes,
{
    nodes.len() > 0 && (some_breaks_with_value(nodes.drop_last(), root, nested, shadowed) || breaks_with_value(
        nodes.last(),
        root,
        nested,
        shadowed,
    ))
}

/// Whether a `loop` has positive evidence that it produces a value.
pub open spec fn produces_value(node: Node) -> bool {
    node.kids@.len() > 0 && breaks_with_value(node.kids@.last(), label(node), false, false)
}

/// Whether two optional texts are the same text.
fn same_text(left: Option<&str>, right: Option<&str>) -> (r: bool)
    ensures
        r == (left is Some && viewed(left) == viewed(right)),
{
    match (left, right) {
        (Some(left), Some(right)) => text::same(left, right),
        _ => false,
    }
}

/// Whether a `break` with a value that leaves the loop of a given label stands beneath a node.
fn leaves_with_value(node: &Node, root: Option<&str>, nested: bool, shadowed: bool) -> (r: bool)
    ensures
        r == breaks_with_value(*node, viewed(root), nested, shadowed),
    decreases node, 1nat,
{
    proof {
        node.lemma_inside();
        assert(node.attrs@.take(node.attrs@.len() as int) =~= node.attrs@);
        assert(node.kids@.take(node.inside().len() as int) =~= node.inside());
    }
    match node.kind {
        Kind::Break => {
            let own = label_of(node);
            node.get_first(1).is_some() && (own.is_none() && !nested || !shadowed && same_text(root, own))
        },
        Kind::Loop | Kind::ForLoop | Kind::While => {
            let shadows = same_text(root, label_of(node));
            node.kids.len() > 0 && leaves_with_value(&node.kids[node.kids.len() - 1], root, true, shadowed || shadows)
        },
        Kind::Closure | Kind::StmtItem => false,
        _ => leaves_with_value_among(&node.attrs, node.attrs.len(), root, nested, shadowed) || leaves_with_value_among(
            &node.kids,
            node.count_inside(),
            root,
            nested,
            shadowed,
        ),
    }
}

/// Whether such a `break` stands beneath one of the first nodes.
fn leaves_with_value_among(nodes: &Vec<Node>, count: usize, root: Option<&str>, nested: bool, shadowed: bool) -> (r: bool)
    requires
        count <= nodes@.len(),
    ensures
        r == some_breaks_with_value(nodes@.take(count as int), viewed(root), nested, shadowed),
    decreases nodes@, 0nat,
{
    let mut at: usize = 0;
    let mut found = false;
    proof {
        assert(nodes@.take(0) =~= Seq::<Node>::empty());
    }
    while at < count
        invariant
            at <= count <= nodes@.len(),
            found == some_breaks_with_value(nodes@.take(at as int), viewed(root), nested, shadowed),
        decreases count - at,
    {
        proof {
            assert(nodes@.take(at + 1).drop_last() =~= nodes@.take(at as int));
            assert(decreases_to!(nodes@ => nodes@[at as int]));
        }
        found = found || leaves_with_value(&nodes[at], root, nested, shadowed);
        at += 1;
    }
    found
}

/// Returns whether a `loop` has positive evidence that it produces a value.
///
/// A `break` with a value and without a label belongs to the innermost loop. One with a label may
/// cross nested loops, so it is counted when it names this loop and no nested loop shadows the
/// label.
pub fn loop_produces_value(node: &Node) -> (r: bool)
    ensures
        r == produces_value(*node),
{
    node.kids.len() > 0 && leaves_with_value(&node.kids[node.kids.len() - 1], label_of(node), false, false)
}

// ---- Calls. ----

/// The path directly called by an expression, seeing through redundant parentheses.
pub open spec fn called(callee: Node) -> Option<Node>
    decreases callee,
{
    match callee.kind {
        Kind::PathExpr => callee.kid(1),
        Kind::Paren => if callee.kids@.len() > 0 {
            called(callee.kids@[0])
        } else {
            None
        },
        _ => None,
    }
}

/// Returns the path directly called by an expression, seeing through redundant parentheses.
pub fn callee_path(callee: &Node) -> (r: Option<&Node>)
    ensures
        r is Some <==> called(*callee) is Some,
        r matches Some(path) ==> called(*callee) == Some(*path),
    decreases callee,
{
    match callee.kind {
        Kind::PathExpr => callee.get(1),
        Kind::Paren => if callee.kids.len() > 0 {
            callee_path(&callee.kids[0])
        } else {
            None
        },
        _ => None,
    }
}

/// The final path segment of a called expression, which is the function's own name.
pub open spec fn called_name(callee: Node) -> Option<Seq<char>> {
    match called(callee) {
        Some(path) => last_name(path),
        None => None,
    }
}

/// The type a called path is qualified by, which is the segment before the function name.
pub open spec fn called_type(callee: Node) -> Option<Seq<char>> {
    match called(callee) {
        Some(path) => if path.kids@.len() > 1 {
            Some(path.kids@[path.kids@.len() - 2].word(0))
        } else {
            None
        },
        None => None,
    }
}

/// Returns the final path segment of a called expression, which is the function's own name.
///
/// `Vec::with_capacity` and a bare `with_capacity` are recognised as the same thing.
pub fn callee_name(callee: &Node) -> (r: Option<&str>)
    ensures
        viewed(r) == called_name(*callee),
{
    match callee_path(callee) {
        Some(path) => query::last_name_of(path),
        None => None,
    }
}

/// Returns the type a called path is qualified by, which is the segment before the function name.
///
/// `Vec::new` is qualified by `Vec` and `usize::from` by `usize`; a bare `helper()` is qualified by
/// nothing.
pub fn callee_type(callee: &Node) -> (r: Option<&str>)
    ensures
        viewed(r) == called_type(*callee),
{
    match callee_path(callee) {
        Some(path) => if path.kids.len() > 1 {
            Some(path.kids[path.kids.len() - 2].get_word(0))
        } else {
            None
        },
        None => None,
    }
}

/// Whether a method's name fixes its return type as text across the ecosystem.
pub open spec fn yields_text(method: Seq<char>) -> bool {
    ||| method == "to_string"@
    ||| method == "to_owned"@
    ||| method == "to_uppercase"@
    ||| method == "to_lowercase"@
    ||| method == "to_ascii_uppercase"@
    ||| method == "to_ascii_lowercase"@
    ||| method == "to_string_lossy"@
    ||| method == "into_string"@
    ||| method == "concat"@
    ||| method == "join"@
    ||| method == "repeat"@
    ||| method == "escape_debug"@
    ||| method == "escape_default"@
}

/// Whether a method's name fixes its return type as text across the ecosystem.
pub fn returns_text(method: &str) -> (r: bool)
    ensures
        r == yields_text(method@),
{
    text::same(method, "to_string")
        || text::same(method, "to_owned")
        || text::same(method, "to_uppercase")
        || text::same(method, "to_lowercase")
        || text::same(method, "to_ascii_uppercase")
        || text::same(method, "to_ascii_lowercase")
        || text::same(method, "to_string_lossy")
        || text::same(method, "into_string")
        || text::same(method, "concat")
        || text::same(method, "join")
        || text::same(method, "repeat")
        || text::same(method, "escape_debug")
        || text::same(method, "escape_default")
}

/// Whether a method exists only on numbers, so that having a receiver proves it is one.
///
/// `min`, `max` and `clamp` are absent even though they return a number: any two comparable values
/// have them, so a receiver proves nothing.
pub open spec fn proves_number(method: Seq<char>) -> bool {
    ||| method == "saturating_add"@
    ||| method == "saturating_sub"@
    ||| method == "saturating_mul"@
    ||| method == "wrapping_add"@
    ||| method == "wrapping_sub"@
    ||| method == "wrapping_mul"@
    ||| method == "checked_add"@
    ||| method == "checked_sub"@
    ||| method == "checked_mul"@
    ||| method == "checked_div"@
    ||| method == "abs"@
    ||| method == "signum"@
    ||| method == "pow"@
    ||| method == "rem_euclid"@
    ||| method == "div_euclid"@
    ||| method == "count_ones"@
    ||| method == "count_zeros"@
    ||| method == "leading_zeros"@
    ||| method == "trailing_zeros"@
    ||| method == "is_power_of_two"@
    ||| method == "next_power_of_two"@
    ||| method == "to_le_bytes"@
    ||| method == "to_be_bytes"@
}

/// Whether a method exists only on numbers, so that having a receiver proves it is one.
///
/// `min`, `max` and `clamp` are absent even though they return a number: any two comparable values
/// have them, so a receiver proves nothing.
pub fn is_numeric_receiver(method: &str) -> (r: bool)
    ensures
        r == proves_number(method@),
{
    text::same(method, "saturating_add")
        || text::same(method, "saturating_sub")
        || text::same(method, "saturating_mul")
        || text::same(method, "wrapping_add")
        || text::same(method, "wrapping_sub")
        || text::same(method, "wrapping_mul")
        || text::same(method, "checked_add")
        || text::same(method, "checked_sub")
        || text::same(method, "checked_mul")
        || text::same(method, "checked_div")
        || text::same(method, "abs")
        || text::same(method, "signum")
        || text::same(method, "pow")
        || text::same(method, "rem_euclid")
        || text::same(method, "div_euclid")
        || text::same(method, "count_ones")
        || text::same(method, "count_zeros")
        || text::same(method, "leading_zeros")
        || text::same(method, "trailing_zeros")
        || text::same(method, "is_power_of_two")
        || text::same(method, "next_power_of_two")
        || text::same(method, "to_le_bytes")
        || text::same(method, "to_be_bytes")
}

/// Whether a type's name says its associated functions produce a number.
pub open spec fn names_number(name: Seq<char>) -> bool {
    ||| name == "u8"@
    ||| name == "u16"@
    ||| name == "u32"@
    ||| name == "u64"@
    ||| name == "u128"@
    ||| name == "usize"@
    ||| name == "i8"@
    ||| name == "i16"@
    ||| name == "i32"@
    ||| name == "i64"@
    ||| name == "i128"@
    ||| name == "isize"@
    ||| name == "f32"@
    ||| name == "f64"@
    ||| name == "NonZeroU8"@
    ||| name == "NonZeroU16"@
    ||| name == "NonZeroU32"@
    ||| name == "NonZeroU64"@
    ||| name == "NonZeroUsize"@
}

/// Whether a type's name says its associated functions produce a number.
pub fn is_numeric_type(name: &str) -> (r: bool)
    ensures
        r == names_number(name@),
{
    text::same(name, "u8")
        || text::same(name, "u16")
        || text::same(name, "u32")
        || text::same(name, "u64")
        || text::same(name, "u128")
        || text::same(name, "usize")
        || text::same(name, "i8")
        || text::same(name, "i16")
        || text::same(name, "i32")
        || text::same(name, "i64")
        || text::same(name, "i128")
        || text::same(name, "isize")
        || text::same(name, "f32")
        || text::same(name, "f64")
        || text::same(name, "NonZeroU8")
        || text::same(name, "NonZeroU16")
        || text::same(name, "NonZeroU32")
        || text::same(name, "NonZeroU64")
        || text::same(name, "NonZeroUsize")
}

/// Whether a method's name is enough on its own to know it yields a number.
///
/// Only names that yield a bare number are listed, rather than an `Option` or a `Result` of one.
pub open spec fn yields_number(method: Seq<char>) -> bool {
    ||| method == "len"@
    ||| method == "count"@
    ||| method == "capacity"@
    ||| method == "abs"@
    ||| method == "signum"@
    ||| method == "pow"@
    ||| method == "min"@
    ||| method == "max"@
    ||| method == "clamp"@
    ||| method == "saturating_add"@
    ||| method == "saturating_sub"@
    ||| method == "saturating_mul"@
    ||| method == "wrapping_add"@
    ||| method == "wrapping_sub"@
    ||| method == "wrapping_mul"@
    ||| method == "as_millis"@
    ||| method == "as_micros"@
    ||| method == "as_nanos"@
    ||| method == "as_secs"@
    ||| method == "subsec_millis"@
    ||| method == "subsec_nanos"@
    ||| method == "elapsed_secs"@
    ||| method == "leading_zeros"@
    ||| method == "trailing_zeros"@
    ||| method == "count_ones"@
    ||| method == "count_zeros"@
}

/// Whether a method's name is enough on its own to know it yields a number.
///
/// Only names that yield a bare number are listed, rather than an `Option` or a `Result` of one.
pub fn returns_numeric(method: &str) -> (r: bool)
    ensures
        r == yields_number(method@),
{
    text::same(method, "len")
        || text::same(method, "count")
        || text::same(method, "capacity")
        || text::same(method, "abs")
        || text::same(method, "signum")
        || text::same(method, "pow")
        || text::same(method, "min")
        || text::same(method, "max")
        || text::same(method, "clamp")
        || text::same(method, "saturating_add")
        || text::same(method, "saturating_sub")
        || text::same(method, "saturating_mul")
        || text::same(method, "wrapping_add")
        || text::same(method, "wrapping_sub")
        || text::same(method, "wrapping_mul")
        || text::same(method, "as_millis")
        || text::same(method, "as_micros")
        || text::same(method, "as_nanos")
        || text::same(method, "as_secs")
        || text::same(method, "subsec_millis")
        || text::same(method, "subsec_nanos")
        || text::same(method, "elapsed_secs")
        || text::same(method, "leading_zeros")
        || text::same(method, "trailing_zeros")
        || text::same(method, "count_ones")
        || text::same(method, "count_zeros")
}

/// Whether a callee's arguments describe how much room to set aside rather than what the program
/// should do.
pub open spec fn reserves_room(name: Seq<char>) -> bool {
    ||| name == "with_capacity"@
    ||| name == "with_capacity_in"@
    ||| name == "reserve"@
    ||| name == "reserve_exact"@
    ||| name == "try_reserve"@
    ||| name == "try_reserve_exact"@
    ||| name == "shrink_to"@
}

/// Whether a callee's arguments describe how much room to set aside rather than what the program
/// should do.
pub fn is_capacity_call(name: &str) -> (r: bool)
    ensures
        r == reserves_room(name@),
{
    text::same(name, "with_capacity")
        || text::same(name, "with_capacity_in")
        || text::same(name, "reserve")
        || text::same(name, "reserve_exact")
        || text::same(name, "try_reserve")
        || text::same(name, "try_reserve_exact")
        || text::same(name, "shrink_to")
}

/// Whether a method is one that returns whatever type its receiver has.
pub open spec fn keeps_receiver(method: Seq<char>) -> bool {
    method == "min"@ || method == "max"@ || method == "clamp"@
}

/// The name of a macro's path.
pub open spec fn macro_name(mac: Node) -> Option<Seq<char>> {
    match mac.kid(0) {
        Some(path) => last_name(path),
        None => None,
    }
}

/// The name of a macro's path.
pub fn macro_name_of(mac: &Node) -> (r: Option<&str>)
    ensures
        viewed(r) == macro_name(*mac),
{
    match mac.get(0) {
        Some(path) => query::last_name_of(path),
        None => None,
    }
}

/// Whether the source positively says an expression is text rather than a number.
pub open spec fn textual(e: Node) -> bool
    decreases e,
{
    match e.kind {
        Kind::Lit => e.kid(0) matches Some(lit) && (lit.kind == Kind::LitStr || lit.kind == Kind::LitByteStr || lit.kind
            == Kind::LitChar || lit.kind == Kind::LitByte),
        Kind::MacroExpr => e.kid(0) matches Some(mac) && (macro_name(mac) matches Some(name) && (name == "format"@ || name == "concat"@
            || name == "stringify"@)),
        Kind::MethodCall => yields_text(e.word(1)) || keeps_receiver(e.word(1)) && e.kids@.len() > 0 && textual(e.kids@[0]),
        Kind::Call => e.kids@.len() > 0 && (called_type(e.kids@[0]) matches Some(name) && (name == "String"@ || name == "str"@ || name
            == "OsString"@ || name == "PathBuf"@)),
        Kind::Binary => e.kids@.len() == 3 && e.kids@[1].kind == Kind::Operator(Op::Add) && (textual(e.kids@[0]) || textual(e.kids@[2])),
        Kind::Paren | Kind::Reference => e.kids@.len() > 0 && textual(e.kids@[0]),
        _ => false,
    }
}

/// Returns whether the source positively says an expression is text rather than a number.
///
/// A short allowlist: a value the source constructed as text on the spot. `+ 1` against text never
/// compiles.
pub fn is_textual(e: &Node) -> (r: bool)
    ensures
        r == textual(*e),
    decreases e,
{
    match e.kind {
        Kind::Lit => match e.get(0) {
            Some(lit) => matches!(lit.kind, Kind::LitStr | Kind::LitByteStr | Kind::LitChar | Kind::LitByte),
            None => false,
        },
        Kind::MacroExpr => match e.get(0) {
            Some(mac) => match macro_name_of(mac) {
                Some(name) => text::same(name, "format") || text::same(name, "concat") || text::same(name, "stringify"),
                None => false,
            },
            None => false,
        },
        Kind::MethodCall => {
            let method = e.get_word(1);
            returns_text(method) || (text::same(method, "min") || text::same(method, "max") || text::same(method, "clamp")) && e.kids.len()
                > 0 && is_textual(&e.kids[0])
        },
        Kind::Call => e.kids.len() > 0 && match callee_type(&e.kids[0]) {
            Some(name) => text::same(name, "String") || text::same(name, "str") || text::same(name, "OsString") || text::same(
                name,
                "PathBuf",
            ),
            None => false,
        },
        Kind::Binary => e.kids.len() == 3 && matches!(e.kids[1].kind, Kind::Operator(Op::Add)) && (is_textual(&e.kids[0]) || is_textual(
            &e.kids[2],
        )),
        Kind::Paren | Kind::Reference => e.kids.len() > 0 && is_textual(&e.kids[0]),
        _ => false,
    }
}

/// Whether an expression is a call to a function that reserves room.
pub open spec fn capacity_result(e: Node) -> bool
    decreases e,
{
    match e.kind {
        Kind::Call => e.kids@.len() > 0 && (called_name(e.kids@[0]) matches Some(name) && reserves_room(name)),
        Kind::MethodCall => reserves_room(e.word(1)),
        Kind::Paren => e.kids@.len() > 0 && capacity_result(e.kids@[0]),
        _ => false,
    }
}

/// Returns whether an expression is a call to a function that reserves room.
///
/// Such a call returns the collection, never a number.
pub fn is_capacity_result(e: &Node) -> (r: bool)
    ensures
        r == capacity_result(*e),
    decreases e,
{
    match e.kind {
        Kind::Call => e.kids.len() > 0 && match callee_name(&e.kids[0]) {
            Some(name) => is_capacity_call(name),
            None => false,
        },
        Kind::MethodCall => is_capacity_call(e.get_word(1)),
        Kind::Paren => e.kids.len() > 0 && is_capacity_result(&e.kids[0]),
        _ => false,
    }
}

/// Whether a path is that of the standard `default` function, by whatever name.
pub open spec fn default_callee(path: Node, spellings: Spellings, defaulted: Seq<Seq<char>>) -> bool {
    let names = path_names(path);
    &&& names.len() >= 2
    &&& names.last() == "default"@
    &&& spellings.names_function(names) || names.len() == 2 && defaulted.contains(names[0])
}

/// Whether an expression is already a standard `Default::default()` call.
pub open spec fn default_call(e: Node, spellings: Spellings, defaulted: Seq<Seq<char>>) -> bool
    decreases e,
{
    match e.kind {
        Kind::Call => e.kids@.len() == 2 && e.kids@[1].kids@.len() == 0 && (called(e.kids@[0]) matches Some(path) && default_callee(
            path,
            spellings,
            defaulted,
        )),
        Kind::Paren => e.kids@.len() > 0 && default_call(e.kids@[0], spellings, defaulted),
        _ => false,
    }
}

/// Returns whether a `default` method path selects the standard trait.
pub fn is_standard_default_callee(path: &Node, defaults: &DefaultPaths, defaulted: &Vec<String>) -> (r: bool)
    ensures
        r == default_callee(*path, defaults@, strings(defaulted@)),
{
    let size: usize = path.kids.len();
    if size < 2 {
        return false;
    }
    proof {
        assert(path_names(*path).last() == path.kids@[size - 1].word(0));
        assert(path_names(*path)[0] == path.kids@[0].word(0));
    }
    if !text::same(path.kids[size - 1].get_word(0), "default") {
        return false;
    }
    defaults.is_standard_default_callee(path) || size == 2 && is_among(defaulted, path.kids[0].get_word(0))
}

/// Returns whether an expression is already a standard `Default::default()` call.
///
/// A final segment named `default` is not enough: inherent methods and custom traits can use that
/// name, and their calls are real behavior a default-value mutant must still test.
pub fn is_default_call(e: &Node, defaults: &DefaultPaths, defaulted: &Vec<String>) -> (r: bool)
    ensures
        r == default_call(*e, defaults@, strings(defaulted@)),
    decreases e,
{
    match e.kind {
        Kind::Call => e.kids.len() == 2 && e.kids[1].kids.len() == 0 && match callee_path(&e.kids[0]) {
            Some(path) => is_standard_default_callee(path, defaults, defaulted),
            None => false,
        },
        Kind::Paren => e.kids.len() > 0 && is_default_call(&e.kids[0], defaults, defaulted),
        _ => false,
    }
}

/// Whether a call's argument is a message a person reads after the program has failed.
pub open spec fn diagnostic(name: Seq<char>, arity: nat) -> bool {
    arity == 1 && (name == "expect"@ || name == "expect_err"@)
}

/// Returns whether a call's argument is a message a person reads after the program has failed.
///
/// Rewriting it changes what a crash prints, not what the program does.
pub fn is_diagnostic_message(name: &str, arity: usize) -> (r: bool)
    ensures
        r == diagnostic(name@, arity as nat),
{
    arity == 1 && (text::same(name, "expect") || text::same(name, "expect_err"))
}

// ---- Names. ----

/// Whether a character outside ASCII is a lowercase letter, as `char::is_lowercase` answers.
pub uninterp spec fn lowercase(c: char) -> bool;

/// Whether a character is a lowercase letter.
pub open spec fn is_lower(c: char) -> bool {
    'a' <= c <= 'z' || c as u32 > 0x7f && lowercase(c)
}

/// `char::is_lowercase`: `a` to `z` among the ASCII characters, and what Unicode adds to them.
#[verifier::external_body]
fn is_lowercase(c: char) -> (r: bool)
    ensures
        r == ('a' <= c <= 'z' || c as u32 > 0x7f && lowercase(c)),
{
    c.is_lowercase()
}

/// Whether a name is spelled as a constant's is.
pub open spec fn constant_case(name: Seq<char>) -> bool {
    &&& exists|i: int| 0 <= i < name.len() && 'A' <= #[trigger] name[i] <= 'Z'
    &&& forall|i: int| 0 <= i < name.len() ==> !is_lower(#[trigger] name[i])
}

/// Returns whether a name is spelled as a constant's is: in upper case throughout.
pub fn is_constant_case(name: &str) -> (r: bool)
    ensures
        r == constant_case(name@),
{
    let chars = text::characters(name);
    let mut upper = false;
    let mut at: usize = 0;
    while at < chars.len()
        invariant
            at <= chars@.len(),
            chars@ == name@,
            upper == (exists|i: int| 0 <= i < at && 'A' <= #[trigger] name@[i] <= 'Z'),
            forall|i: int| 0 <= i < at ==> !is_lower(#[trigger] name@[i]),
        decreases chars@.len() - at,
    {
        let c = chars[at];
        if is_lowercase(c) {
            proof {
                assert(is_lower(name@[at as int]));
            }
            return false;
        }
        if 'A' <= c && c <= 'Z' {
            proof {
                assert('A' <= name@[at as int] <= 'Z');
            }
            upper = true;
        }
        at += 1;
    }
    upper
}

/// Whether an identifier is spelled the way a binding is.
pub open spec fn binding_case(name: Seq<char>) -> bool {
    name.len() > 0 && (name[0] == '_' || is_lower(name[0]))
}

/// Returns whether an identifier is spelled the way a binding is.
///
/// Anything that does not start lower is taken for a pattern that matches one value, which is the
/// safe way to be wrong: the mutant is withheld instead of failing to compile.
pub fn is_binding_case(name: &str) -> (r: bool)
    ensures
        r == binding_case(name@),
{
    let chars = text::characters(name);
    chars.len() > 0 && (chars[0] == '_' || is_lowercase(chars[0]))
}

// ---- Patterns. ----

/// Whether a pattern accepts every value the arms above it left over.
pub open spec fn catch_all(pat: Node) -> bool
    decreases pat,
{
    match pat.kind {
        Kind::PatWild => true,
        Kind::PatIdent => pat.first_of(1) is None && binding_case(pat.word(0)),
        Kind::PatParen => pat.kids@.len() > 0 && catch_all(pat.kids@[0]),
        _ => false,
    }
}

/// Returns whether a pattern accepts every value the arms above it left over.
///
/// `_` is the obvious spelling. A bare binding is the other one, recognised only when it is spelled
/// the way a binding is: `None` and `MAX` parse as the same node and match exactly one value.
pub fn is_catch_all(pat: &Node) -> (r: bool)
    ensures
        r == catch_all(*pat),
    decreases pat,
{
    match pat.kind {
        Kind::PatWild => true,
        Kind::PatIdent => pat.get_first(1).is_none() && is_binding_case(pat.get_word(0)),
        Kind::PatParen => pat.kids.len() > 0 && is_catch_all(&pat.kids[0]),
        _ => false,
    }
}

/// The single name a `let` pattern introduces, if it introduces exactly one.
pub open spec fn declared(pat: Node) -> Option<Seq<char>>
    decreases pat,
{
    match pat.kind {
        Kind::PatType => if pat.kids@.len() > 0 {
            declared(pat.kids@[0])
        } else {
            None
        },
        Kind::PatIdent => if pat.first_of(1) is None {
            Some(pat.word(0))
        } else {
            None
        },
        _ => None,
    }
}

/// Returns the single name a `let` pattern introduces, if it introduces exactly one.
pub fn declared_name(pat: &Node) -> (r: Option<&str>)
    ensures
        viewed(r) == declared(*pat),
    decreases pat,
{
    match pat.kind {
        Kind::PatType => if pat.kids.len() > 0 {
            declared_name(&pat.kids[0])
        } else {
            None
        },
        Kind::PatIdent => if pat.get_first(1).is_none() {
            Some(pat.get_word(0))
        } else {
            None
        },
        _ => None,
    }
}

// ---- Divergence. ----

/// Whether a macro is one of the standard never-returning ones.
pub open spec fn diverging_macro(mac: Node) -> bool {
    macro_name(mac) matches Some(name) && (name == "panic"@ || name == "unreachable"@ || name == "todo"@ || name == "unimplemented"@)
}

/// Returns whether a macro is one of the standard never-returning ones.
fn is_diverging_macro(mac: &Node) -> (r: bool)
    ensures
        r == diverging_macro(*mac),
{
    match macro_name_of(mac) {
        Some(name) => text::same(name, "panic") || text::same(name, "unreachable") || text::same(name, "todo") || text::same(
            name,
            "unimplemented",
        ),
        None => false,
    }
}

/// Whether an expression's value is unreachable because control leaves before it is used.
pub open spec fn diverging(e: Node) -> bool
    decreases e,
{
    match e.kind {
        Kind::Return | Kind::Break | Kind::Continue => true,
        Kind::MacroExpr => e.kid(0) matches Some(mac) && diverging_macro(mac),
        Kind::Loop => !(e.kid(1) matches Some(body) && holds_break(body)),
        Kind::Paren | Kind::Group => e.kids@.len() > 0 && diverging(e.kids@[0]),
        Kind::BlockExpr => e.kids@.len() > 1 && diverging_block(e.kids@[1]),
        Kind::Unsafe => e.kids@.len() > 0 && diverging_block(e.kids@[0]),
        Kind::If => match e.first_of(2) {
            Some(otherwise) => diverging_block(e.kids@[1]) && diverging(otherwise),
            None => false,
        },
        Kind::Match => e.kids@.len() > 1 && e.kids@[1].kids@.len() > 0 && all_arms_diverge(e.kids@[1].kids@),
        _ => false,
    }
}

/// Whether a block's value is unreachable because its final statement diverges.
pub open spec fn diverging_block(block: Node) -> bool
    decreases block,
{
    if block.kids@.len() > 0 {
        let last = block.kids@.last();
        match last.kind {
            Kind::StmtExpr { .. } => last.kids@.len() > 0 && diverging(last.kids@[0]),
            Kind::StmtMacro => last.kid(0) matches Some(mac) && diverging_macro(mac),
            _ => false,
        }
    } else {
        false
    }
}

/// Whether the bodies of all of several arms diverge.
pub open spec fn all_arms_diverge(arms: Seq<Node>) -> bool
    decreases arms,
{
    arms.len() == 0 || all_arms_diverge(arms.drop_last()) && arms.last().kids@.len() > 1 && diverging(arms.last().kids@[1])
}

/// One arm that does not diverge is enough.
proof fn lemma_arm_returns(arms: Seq<Node>, at: int)
    requires
        0 <= at < arms.len(),
        !(arms[at].kids@.len() > 1 && diverging(arms[at].kids@[1])),
    ensures
        !all_arms_diverge(arms),
    decreases arms.len(),
{
    if at < arms.len() - 1 {
        lemma_arm_returns(arms.drop_last(), at);
    }
}

/// Returns whether an expression's value is unreachable because control leaves before it is used.
///
/// A divergent expression has type `!`, which coerces to the numeric return type and so slips past
/// the proof that a tail is a number. Only the cases the source states outright are reported.
pub fn diverges(e: &Node) -> (r: bool)
    ensures
        r == diverging(*e),
    decreases e,
{
    match e.kind {
        Kind::Return | Kind::Break | Kind::Continue => true,
        Kind::MacroExpr => match e.get(0) {
            Some(mac) => is_diverging_macro(mac),
            None => false,
        },
        Kind::Loop => match e.get(1) {
            Some(body) => !has_break(body),
            None => true,
        },
        Kind::Paren | Kind::Group => e.kids.len() > 0 && diverges(&e.kids[0]),
        Kind::BlockExpr => e.kids.len() > 1 && block_diverges(&e.kids[1]),
        Kind::Unsafe => e.kids.len() > 0 && block_diverges(&e.kids[0]),
        Kind::If => match e.get_first(2) {
            Some(otherwise) => block_diverges(&e.kids[1]) && diverges(otherwise),
            None => false,
        },
        Kind::Match => {
            if e.kids.len() < 2 || e.kids[1].kids.len() == 0 {
                return false;
            }
            let arms = &e.kids[1].kids;
            let mut at: usize = 0;
            while at < arms.len()
                invariant
                    at <= arms@.len(),
                    arms@ == e.kids@[1].kids@,
                    e.kids@.len() > 1,
                    e.kind == Kind::Match,
                    arms@.len() > 0,
                    all_arms_diverge(arms@.take(at as int)),
                decreases arms@.len() - at,
            {
                proof {
                    assert(arms@.take(at + 1).drop_last() =~= arms@.take(at as int));
                    assert(decreases_to!(*e => e.kids@[1]));
                    assert(decreases_to!(e.kids@[1] => e.kids@[1].kids@));
                    assert(decreases_to!(arms@ => arms@[at as int]));
                }
                let arm = &arms[at];
                if !(arm.kids.len() > 1 && diverges(&arm.kids[1])) {
                    proof {
                        lemma_arm_returns(arms@, at as int);
                    }
                    return false;
                }
                at += 1;
            }
            proof {
                assert(arms@.take(at as int) =~= arms@);
            }
            true
        },
        _ => false,
    }
}

/// Returns whether a block's value is unreachable because its final statement diverges.
pub fn block_diverges(block: &Node) -> (r: bool)
    ensures
        r == diverging_block(*block),
    decreases block,
{
    if block.kids.len() == 0 {
        return false;
    }
    let last = &block.kids[block.kids.len() - 1];
    match last.kind {
        Kind::StmtExpr { .. } => last.kids.len() > 0 && diverges(&last.kids[0]),
        Kind::StmtMacro => match last.get(0) {
            Some(mac) => is_diverging_macro(mac),
            None => false,
        },
        _ => false,
    }
}

// ---- Operators and attributes. ----

/// Whether an operator is a compound assignment.
pub open spec fn assigning(op: Op) -> bool {
    match op {
        Op::AddAssign
        | Op::SubAssign
        | Op::MulAssign
        | Op::DivAssign
        | Op::RemAssign
        | Op::BitAndAssign
        | Op::BitOrAssign
        | Op::BitXorAssign
        | Op::ShlAssign
        | Op::ShrAssign => true,
        _ => false,
    }
}

/// Returns whether an operator is a compound assignment, whose left side is a place expression.
pub fn is_assign_op(op: Op) -> (r: bool)
    ensures
        r == assigning(op),
{
    matches!(
        op,
        Op::AddAssign
            | Op::SubAssign
            | Op::MulAssign
            | Op::DivAssign
            | Op::RemAssign
            | Op::BitAndAssign
            | Op::BitOrAssign
            | Op::BitXorAssign
            | Op::ShlAssign
            | Op::ShrAssign
    )
}

/// The attributes written on an expression. Those of a raw borrow are not read.
pub open spec fn expr_attrs(e: Node) -> Seq<Node> {
    if e.kind == Kind::RawAddr {
        Seq::empty()
    } else {
        e.attrs@
    }
}

/// The attributes written on a statement.
///
/// A statement's attributes live on whatever it wraps. Those of an item are left to the item.
pub open spec fn stmt_attrs(statement: Node) -> Seq<Node> {
    match statement.kind {
        Kind::Local | Kind::StmtMacro => statement.attrs@,
        Kind::StmtExpr { .. } => match statement.kid(0) {
            Some(e) => expr_attrs(e),
            None => Seq::empty(),
        },
        _ => Seq::empty(),
    }
}

/// Returns whether a configuration leaves an expression alone.
pub fn skips_expr(cfg: &CfgSet, e: &Node) -> (r: bool)
    ensures
        r == cfg@.skips(expr_attrs(*e)),
{
    if matches!(e.kind, Kind::RawAddr) {
        proof {
            assert(cfg@.holds(expr_attrs(*e)));
        }
        false
    } else {
        cfg.skip_gate(&e.attrs)
    }
}

/// Returns whether a configuration leaves a statement alone.
pub fn skips_stmt(cfg: &CfgSet, statement: &Node) -> (r: bool)
    ensures
        r == cfg@.skips(stmt_attrs(*statement)),
{
    match statement.kind {
        Kind::Local | Kind::StmtMacro => cfg.skip_gate(&statement.attrs),
        Kind::StmtExpr { .. } => match statement.get(0) {
            Some(e) => skips_expr(cfg, e),
            None => {
                proof {
                    assert(cfg@.holds(stmt_attrs(*statement)));
                }
                false
            },
        },
        _ => {
            proof {
                assert(cfg@.holds(stmt_attrs(*statement)));
            }
            false
        },
    }
}

} // verus!
