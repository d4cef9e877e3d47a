//! The curated substitutions a mutator chooses from.
use crate::syntax::{Kind, Node, Op};
use crate::text;
use crate::text::viewed;
use vstd::prelude::*;

verus! {

/// What there is to read in pairs of texts.
pub open spec fn pairs(list: Seq<(&'static str, &'static str)>) -> Seq<(Seq<char>, Seq<char>)> {
    list.map_values(|pair: (&'static str, &'static str)| (pair.0@, pair.1@))
}

/// What there is to read in a pair of texts, if there is one.
pub open spec fn pair(of: Option<(&'static str, &'static str)>) -> Option<(Seq<char>, Seq<char>)> {
    match of {
        Some(pair) => Some((pair.0@, pair.1@)),
        None => None,
    }
}

/// The mutator and the other name for a standard-library method.
pub open spec fn rename_of(method: Seq<char>, arity: nat) -> Option<(Seq<char>, Seq<char>)> {
    if method == "any"@ && arity == 1 {
        Some(("iter.any_to_all"@, "all"@))
    } else if method == "all"@ && arity == 1 {
        Some(("iter.all_to_any"@, "any"@))
    } else if method == "min"@ && arity <= 1 {
        Some(("iter.min_to_max"@, "max"@))
    } else if method == "max"@ && arity <= 1 {
        Some(("iter.max_to_min"@, "min"@))
    } else if method == "first"@ && arity == 0 {
        Some(("iter.first_to_last"@, "last"@))
    } else if method == "last"@ && arity == 0 {
        Some(("iter.last_to_first"@, "first"@))
    } else if method == "starts_with"@ && arity == 1 {
        Some(("string.starts_with_to_ends_with"@, "ends_with"@))
    } else if method == "ends_with"@ && arity == 1 {
        Some(("string.ends_with_to_starts_with"@, "starts_with"@))
    } else if method == "to_lowercase"@ && arity == 0 {
        Some(("string.lower_to_upper"@, "to_uppercase"@))
    } else if method == "to_uppercase"@ && arity == 0 {
        Some(("string.upper_to_lower"@, "to_lowercase"@))
    } else if method == "to_ascii_lowercase"@ && arity == 0 {
        Some(("string.lower_to_upper"@, "to_ascii_uppercase"@))
    } else if method == "to_ascii_uppercase"@ && arity == 0 {
        Some(("string.upper_to_lower"@, "to_ascii_lowercase"@))
    } else if method == "trim_start"@ && arity == 0 {
        Some(("string.trim_start_to_trim_end"@, "trim_end"@))
    } else if method == "trim_end"@ && arity == 0 {
        Some(("string.trim_end_to_trim_start"@, "trim_start"@))
    } else {
        None
    }
}

/// The curated rename for a standard-library method, keyed by name and argument count.
///
/// The argument count is not decoration. Without type resolution the only evidence that a `min` is
/// one of the standard ones is how many arguments it was given. Every entry is a pair of
/// standard-library methods with the same receiver, arity and result type: a mutant shares an `if`
/// with the code it replaces, so the two have to agree on a type.
pub fn method_renames(method: &str, arity: usize) -> (r: Option<(&'static str, &'static str)>)
    ensures
        pair(r) == rename_of(method@, arity as nat),
{
    if text::same(method, "any") && arity == 1 {
        Some(("iter.any_to_all", "all"))
    } else if text::same(method, "all") && arity == 1 {
        Some(("iter.all_to_any", "any"))
    } else if text::same(method, "min") && arity <= 1 {
        Some(("iter.min_to_max", "max"))
    } else if text::same(method, "max") && arity <= 1 {
        Some(("iter.max_to_min", "min"))
    } else if text::same(method, "first") && arity == 0 {
        Some(("iter.first_to_last", "last"))
    } else if text::same(method, "last") && arity == 0 {
        Some(("iter.last_to_first", "first"))
    } else if text::same(method, "starts_with") && arity == 1 {
        Some(("string.starts_with_to_ends_with", "ends_with"))
    } else if text::same(method, "ends_with") && arity == 1 {
        Some(("string.ends_with_to_starts_with", "starts_with"))
    } else if text::same(method, "to_lowercase") && arity == 0 {
        Some(("string.lower_to_upper", "to_uppercase"))
    } else if text::same(method, "to_uppercase") && arity == 0 {
        Some(("string.upper_to_lower", "to_lowercase"))
    } else if text::same(method, "to_ascii_lowercase") && arity == 0 {
        Some(("string.lower_to_upper", "to_ascii_uppercase"))
    } else if text::same(method, "to_ascii_uppercase") && arity == 0 {
        Some(("string.upper_to_lower", "to_ascii_lowercase"))
    } else if text::same(method, "trim_start") && arity == 0 {
        Some(("string.trim_start_to_trim_end", "trim_end"))
    } else if text::same(method, "trim_end") && arity == 0 {
        Some(("string.trim_end_to_trim_start", "trim_start"))
    } else {
        None
    }
}

/// The mutator for deleting an in-place ordering or deduplication call.
pub open spec fn reorder(e: Node) -> Option<Seq<char>> {
    if e.kind == Kind::MethodCall {
        let method = e.word(1);
        if method == "sort"@ || method == "sort_by"@ || method == "sort_by_key"@ || method == "sort_unstable"@ || method
            == "sort_unstable_by"@ || method == "sort_unstable_by_key"@ {
            Some("iter.remove_sort"@)
        } else if method == "dedup"@ || method == "dedup_by"@ || method == "dedup_by_key"@ {
            Some("iter.remove_dedup"@)
        } else {
            None
        }
    } else {
        None
    }
}

/// The mutator for deleting an in-place ordering or deduplication call.
///
/// Because these return nothing, the only way to remove one is to delete the whole statement, and
/// whether anything observes the order is worth asking under its own name.
pub fn in_place_reorder(e: &Node) -> (r: Option<&'static str>)
    ensures
        viewed(r) == reorder(*e),
{
    if !matches!(e.kind, Kind::MethodCall) {
        return None;
    }
    let method = e.get_word(1);
    if text::same(method, "sort") || text::same(method, "sort_by") || text::same(method, "sort_by_key") || text::same(
        method,
        "sort_unstable",
    ) || text::same(method, "sort_unstable_by") || text::same(method, "sort_unstable_by_key") {
        Some("iter.remove_sort")
    } else if text::same(method, "dedup") || text::same(method, "dedup_by") || text::same(method, "dedup_by_key") {
        Some("iter.remove_dedup")
    } else {
        None
    }
}

/// The mutators and replacement operators for a binary operator.
pub open spec fn replacements_of(op: Op) -> Seq<(Seq<char>, Seq<char>)> {
    match op {
        Op::Lt => seq![("relational.lt_to_le"@, "<="@), ("relational.lt_to_gt"@, ">"@)],
        Op::Le => seq![("relational.le_to_lt"@, "<"@), ("relational.le_to_ge"@, ">="@)],
        Op::Gt => seq![("relational.gt_to_ge"@, ">="@), ("relational.gt_to_lt"@, "<"@)],
        Op::Ge => seq![("relational.ge_to_gt"@, ">"@), ("relational.ge_to_le"@, "<="@)],
        Op::Eq => seq![("relational.eq_to_ne"@, "!="@)],
        Op::Ne => seq![("relational.ne_to_eq"@, "=="@)],
        Op::Add => seq![("arith.add_to_sub"@, "-"@), ("arith.add_to_mul"@, "*"@)],
        Op::Sub => seq![("arith.sub_to_add"@, "+"@), ("arith.sub_to_div"@, "/"@)],
        Op::Mul => seq![("arith.mul_to_div"@, "/"@), ("arith.mul_to_add"@, "+"@)],
        Op::Div => seq![("arith.div_to_mul"@, "*"@), ("arith.div_to_rem"@, "%"@)],
        Op::Rem => seq![("arith.rem_to_div"@, "/"@), ("arith.rem_to_mul"@, "*"@)],
        Op::BitAnd => seq![("bitwise.and_to_or"@, "|"@), ("bitwise.and_to_xor"@, "^"@)],
        Op::BitOr => seq![("bitwise.or_to_and"@, "&"@)],
        Op::BitXor => seq![("bitwise.xor_to_and"@, "&"@)],
        Op::Shl => seq![("shift.shl_to_shr"@, ">>"@)],
        Op::Shr => seq![("shift.shr_to_shl"@, "<<"@)],
        Op::And => seq![("logical.and_to_or"@, "||"@)],
        Op::Or => seq![("logical.or_to_and"@, "&&"@)],
        Op::AddAssign => seq![("assign.add_to_sub"@, "-="@)],
        Op::SubAssign => seq![("assign.sub_to_add"@, "+="@)],
        Op::MulAssign => seq![("assign.mul_to_div"@, "/="@)],
        Op::DivAssign => seq![("assign.div_to_mul"@, "*="@)],
        Op::RemAssign => seq![("assign.rem_to_div"@, "/="@)],
        Op::BitAndAssign => seq![("assign.and_to_or"@, "|="@)],
        Op::BitOrAssign => seq![("assign.or_to_and"@, "&="@)],
        Op::BitXorAssign => seq![("assign.xor_to_and"@, "&="@)],
        Op::ShlAssign => seq![("assign.shl_to_shr"@, ">>="@)],
        Op::ShrAssign => seq![("assign.shr_to_shl"@, "<<="@)],
        Op::Other => Seq::empty(),
    }
}

/// The mutators and replacement operators available for a binary operator.
pub fn binary_replacements(op: Op) -> (r: Vec<(&'static str, &'static str)>)
    ensures
        pairs(r@) == replacements_of(op),
{
    let list: Vec<(&'static str, &'static str)> = match op {
        Op::Lt => vec![("relational.lt_to_le", "<="), ("relational.lt_to_gt", ">")],
        Op::Le => vec![("relational.le_to_lt", "<"), ("relational.le_to_ge", ">=")],
        Op::Gt => vec![("relational.gt_to_ge", ">="), ("relational.gt_to_lt", "<")],
        Op::Ge => vec![("relational.ge_to_gt", ">"), ("relational.ge_to_le", "<=")],
        Op::Eq => vec![("relational.eq_to_ne", "!=")],
        Op::Ne => vec![("relational.ne_to_eq", "==")],
        Op::Add => vec![("arith.add_to_sub", "-"), ("arith.add_to_mul", "*")],
        Op::Sub => vec![("arith.sub_to_add", "+"), ("arith.sub_to_div", "/")],
        Op::Mul => vec![("arith.mul_to_div", "/"), ("arith.mul_to_add", "+")],
        Op::Div => vec![("arith.div_to_mul", "*"), ("arith.div_to_rem", "%")],
        Op::Rem => vec![("arith.rem_to_div", "/"), ("arith.rem_to_mul", "*")],
        Op::BitAnd => vec![("bitwise.and_to_or", "|"), ("bitwise.and_to_xor", "^")],
        Op::BitOr => vec![("bitwise.or_to_and", "&")],
        Op::BitXor => vec![("bitwise.xor_to_and", "&")],
        Op::Shl => vec![("shift.shl_to_shr", ">>")],
        Op::Shr => vec![("shift.shr_to_shl", "<<")],
        Op::And => vec![("logical.and_to_or", "||")],
        Op::Or => vec![("logical.or_to_and", "&&")],
        Op::AddAssign => vec![("assign.add_to_sub", "-=")],
        Op::SubAssign => vec![("assign.sub_to_add", "+=")],
        Op::MulAssign => vec![("assign.mul_to_div", "/=")],
        Op::DivAssign => vec![("assign.div_to_mul", "*=")],
        Op::RemAssign => vec![("assign.rem_to_div", "/=")],
        Op::BitAndAssign => vec![("assign.and_to_or", "|=")],
        Op::BitOrAssign => vec![("assign.or_to_and", "&=")],
        Op::BitXorAssign => vec![("assign.xor_to_and", "&=")],
        Op::ShlAssign => vec![("assign.shl_to_shr", ">>=")],
        Op::ShrAssign => vec![("assign.shr_to_shl", "<<=")],
        Op::Other => Vec::new(),
    };
    proof {
        assert(pairs(list@) =~= replacements_of(op));
    }
    list
}

} // verus!
