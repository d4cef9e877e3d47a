//! The catalog itself: every mutator the tool knows, and the presets that name groups of them.
use crate::ops::registry::{Entry, Group, Mutator, Preset};
use vstd::prelude::*;

verus! {

/// Function value replacement.
pub open spec fn function_value_replacement(before: Seq<Entry>) -> Seq<Entry> {
    before.push(
        Entry {
            name: "fn_value.default"@,
            default_on: true,
            aliases: seq!["RV"@],
            description: "replace the function body with a default value"@,
        },
    ).push(
        Entry {
            name: "fn_value.stated"@,
            default_on: true,
            aliases: seq!["RV"@],
            description: "replace the body with the value the site states in #[gamma::value(...)]"@,
        },
    ).push(
        Entry {
            name: "fn_value.unit"@,
            default_on: true,
            aliases: Seq::empty(),
            description: "replace the body of a unit function with ()"@,
        },
    ).push(
        Entry {
            name: "fn_value.bool_true"@,
            default_on: true,
            aliases: Seq::empty(),
            description: "replace the body with true"@,
        },
    ).push(
        Entry {
            name: "fn_value.bool_false"@,
            default_on: true,
            aliases: Seq::empty(),
            description: "replace the body with false"@,
        },
    ).push(
        Entry {
            name: "fn_value.zero"@,
            default_on: true,
            aliases: Seq::empty(),
            description: "replace the body with 0"@,
        },
    ).push(
        Entry {
            name: "fn_value.one"@,
            default_on: true,
            aliases: Seq::empty(),
            description: "replace the body with 1"@,
        },
    ).push(
        Entry {
            name: "fn_value.minus_one"@,
            default_on: true,
            aliases: Seq::empty(),
            description: "replace the body with -1"@,
        },
    ).push(
        Entry {
            name: "fn_value.empty_string"@,
            default_on: true,
            aliases: Seq::empty(),
            description: "replace the body with an empty string"@,
        },
    ).push(
        Entry {
            name: "fn_value.xyzzy_string"@,
            default_on: true,
            aliases: Seq::empty(),
            description: "replace the body with a non-empty string"@,
        },
    ).push(
        Entry {
            name: "fn_value.none"@,
            default_on: true,
            aliases: Seq::empty(),
            description: "replace the body with None"@,
        },
    ).push(
        Entry {
            name: "fn_value.some_default"@,
            default_on: true,
            aliases: Seq::empty(),
            description: "replace the body with Some(Default::default())"@,
        },
    ).push(
        Entry {
            name: "fn_value.ok_default"@,
            default_on: true,
            aliases: Seq::empty(),
            description: "replace the body with Ok(Default::default())"@,
        },
    ).push(
        Entry {
            name: "fn_value.err_default"@,
            default_on: true,
            aliases: Seq::empty(),
            description: "replace the body with Err(Default::default())"@,
        },
    ).push(
        Entry {
            name: "fn_value.err_with"@,
            default_on: true,
            aliases: Seq::empty(),
            description: "replace the body with Err(v) for each --error value"@,
        },
    ).push(
        Entry {
            name: "fn_value.two"@,
            default_on: true,
            aliases: Seq::empty(),
            description: "replace the body with 2"@,
        },
    ).push(
        Entry {
            name: "fn_value.some"@,
            default_on: false,
            aliases: Seq::empty(),
            description: "replace the body with Some(value)"@,
        },
    ).push(
        Entry {
            name: "fn_value.ok"@,
            default_on: true,
            aliases: Seq::empty(),
            description: "replace the body with Ok(value)"@,
        },
    ).push(
        Entry {
            name: "fn_value.empty_collection"@,
            default_on: true,
            aliases: Seq::empty(),
            description: "replace the body with an empty collection or iterator"@,
        },
    ).push(
        Entry {
            name: "fn_value.one_element"@,
            default_on: true,
            aliases: Seq::empty(),
            description: "replace the body with a one-element collection or iterator"@,
        },
    ).push(
        Entry {
            name: "fn_value.tuple"@,
            default_on: true,
            aliases: Seq::empty(),
            description: "replace the body with a tuple of replacement values"@,
        },
    )
}

/// Relational and boundary.
pub open spec fn relational_and_boundary(before: Seq<Entry>) -> Seq<Entry> {
    before.push(
        Entry {
            name: "relational.lt_to_le"@,
            default_on: true,
            aliases: seq!["ROR"@],
            description: "replace < with <="@,
        },
    ).push(
        Entry {
            name: "relational.lt_to_gt"@,
            default_on: true,
            aliases: seq!["ROR"@],
            description: "replace < with >"@,
        },
    ).push(
        Entry {
            name: "relational.le_to_lt"@,
            default_on: true,
            aliases: seq!["ROR"@],
            description: "replace <= with <"@,
        },
    ).push(
        Entry {
            name: "relational.le_to_ge"@,
            default_on: true,
            aliases: seq!["ROR"@],
            description: "replace <= with >="@,
        },
    ).push(
        Entry {
            name: "relational.gt_to_ge"@,
            default_on: true,
            aliases: seq!["ROR"@],
            description: "replace > with >="@,
        },
    ).push(
        Entry {
            name: "relational.gt_to_lt"@,
            default_on: true,
            aliases: seq!["ROR"@],
            description: "replace > with <"@,
        },
    ).push(
        Entry {
            name: "relational.ge_to_gt"@,
            default_on: true,
            aliases: seq!["ROR"@],
            description: "replace >= with >"@,
        },
    ).push(
        Entry {
            name: "relational.ge_to_le"@,
            default_on: true,
            aliases: seq!["ROR"@],
            description: "replace >= with <="@,
        },
    ).push(
        Entry {
            name: "relational.eq_to_ne"@,
            default_on: true,
            aliases: seq!["ROR"@],
            description: "replace == with !="@,
        },
    ).push(
        Entry {
            name: "relational.ne_to_eq"@,
            default_on: true,
            aliases: seq!["ROR"@],
            description: "replace != with =="@,
        },
    )
}

/// Arithmetic.
pub open spec fn arithmetic(before: Seq<Entry>) -> Seq<Entry> {
    before.push(
        Entry {
            name: "arith.add_to_sub"@,
            default_on: true,
            aliases: seq!["AOR"@],
            description: "replace + with -"@,
        },
    ).push(
        Entry {
            name: "arith.add_to_mul"@,
            default_on: true,
            aliases: seq!["AOR"@],
            description: "replace + with *"@,
        },
    ).push(
        Entry {
            name: "arith.sub_to_add"@,
            default_on: true,
            aliases: seq!["AOR"@],
            description: "replace - with +"@,
        },
    ).push(
        Entry {
            name: "arith.sub_to_div"@,
            default_on: true,
            aliases: seq!["AOR"@],
            description: "replace - with /"@,
        },
    ).push(
        Entry {
            name: "arith.mul_to_div"@,
            default_on: true,
            aliases: seq!["AOR"@],
            description: "replace * with /"@,
        },
    ).push(
        Entry {
            name: "arith.mul_to_add"@,
            default_on: true,
            aliases: seq!["AOR"@],
            description: "replace * with +"@,
        },
    ).push(
        Entry {
            name: "arith.div_to_mul"@,
            default_on: true,
            aliases: seq!["AOR"@],
            description: "replace / with *"@,
        },
    ).push(
        Entry {
            name: "arith.div_to_rem"@,
            default_on: true,
            aliases: seq!["AOR"@],
            description: "replace / with %"@,
        },
    ).push(
        Entry {
            name: "arith.rem_to_div"@,
            default_on: true,
            aliases: seq!["AOR"@],
            description: "replace % with /"@,
        },
    ).push(
        Entry {
            name: "arith.rem_to_mul"@,
            default_on: true,
            aliases: seq!["AOR"@],
            description: "replace % with *"@,
        },
    )
}

/// Bitwise and shift.
pub open spec fn bitwise_and_shift(before: Seq<Entry>) -> Seq<Entry> {
    before.push(
        Entry {
            name: "bitwise.and_to_or"@,
            default_on: true,
            aliases: seq!["AOR"@],
            description: "replace & with |"@,
        },
    ).push(
        Entry {
            name: "bitwise.or_to_and"@,
            default_on: true,
            aliases: seq!["AOR"@],
            description: "replace | with &"@,
        },
    ).push(
        Entry {
            name: "bitwise.xor_to_and"@,
            default_on: true,
            aliases: seq!["AOR"@],
            description: "replace ^ with &"@,
        },
    ).push(
        Entry {
            name: "bitwise.and_to_xor"@,
            default_on: true,
            aliases: seq!["AOR"@],
            description: "replace & with ^"@,
        },
    ).push(
        Entry {
            name: "shift.shl_to_shr"@,
            default_on: true,
            aliases: seq!["AOR"@],
            description: "replace << with >>"@,
        },
    ).push(
        Entry {
            name: "shift.shr_to_shl"@,
            default_on: true,
            aliases: seq!["AOR"@],
            description: "replace >> with <<"@,
        },
    )
}

/// Compound assignment.
pub open spec fn compound_assignment(before: Seq<Entry>) -> Seq<Entry> {
    before.push(
        Entry {
            name: "assign.add_to_sub"@,
            default_on: true,
            aliases: seq!["ASR"@],
            description: "replace += with -="@,
        },
    ).push(
        Entry {
            name: "assign.sub_to_add"@,
            default_on: true,
            aliases: seq!["ASR"@],
            description: "replace -= with +="@,
        },
    ).push(
        Entry {
            name: "assign.mul_to_div"@,
            default_on: true,
            aliases: seq!["ASR"@],
            description: "replace *= with /="@,
        },
    ).push(
        Entry {
            name: "assign.div_to_mul"@,
            default_on: true,
            aliases: seq!["ASR"@],
            description: "replace /= with *="@,
        },
    ).push(
        Entry {
            name: "assign.rem_to_div"@,
            default_on: true,
            aliases: seq!["ASR"@],
            description: "replace %= with /="@,
        },
    ).push(
        Entry {
            name: "assign.and_to_or"@,
            default_on: true,
            aliases: seq!["ASR"@],
            description: "replace &= with |="@,
        },
    ).push(
        Entry {
            name: "assign.or_to_and"@,
            default_on: true,
            aliases: seq!["ASR"@],
            description: "replace |= with &="@,
        },
    ).push(
        Entry {
            name: "assign.xor_to_and"@,
            default_on: true,
            aliases: seq!["ASR"@],
            description: "replace ^= with &="@,
        },
    ).push(
        Entry {
            name: "assign.shl_to_shr"@,
            default_on: true,
            aliases: seq!["ASR"@],
            description: "replace <<= with >>="@,
        },
    ).push(
        Entry {
            name: "assign.shr_to_shl"@,
            default_on: true,
            aliases: seq!["ASR"@],
            description: "replace >>= with <<="@,
        },
    )
}

/// Logical and condition.
pub open spec fn logical_and_condition(before: Seq<Entry>) -> Seq<Entry> {
    before.push(
        Entry {
            name: "logical.and_to_or"@,
            default_on: true,
            aliases: seq!["LCR"@],
            description: "replace && with ||"@,
        },
    ).push(
        Entry {
            name: "logical.or_to_and"@,
            default_on: true,
            aliases: seq!["LCR"@],
            description: "replace || with &&"@,
        },
    ).push(
        Entry {
            name: "cond.negate"@,
            default_on: true,
            aliases: seq!["COR"@],
            description: "negate a branch condition"@,
        },
    ).push(
        Entry {
            name: "cond.always_true"@,
            default_on: true,
            aliases: seq!["COR"@],
            description: "force a branch condition to true"@,
        },
    ).push(
        Entry {
            name: "cond.always_false"@,
            default_on: true,
            aliases: seq!["COR"@],
            description: "force a branch condition to false"@,
        },
    )
}

/// Match guards. The condition family's blind spot.
pub open spec fn match_guards_the(before: Seq<Entry>) -> Seq<Entry> {
    before.push(
        Entry {
            name: "match_guard.negate"@,
            default_on: true,
            aliases: seq!["COR"@],
            description: "negate a match arm's guard"@,
        },
    ).push(
        Entry {
            name: "match_guard.always_true"@,
            default_on: true,
            aliases: seq!["COR"@],
            description: "force a match arm's guard to true"@,
        },
    ).push(
        Entry {
            name: "match_guard.always_false"@,
            default_on: true,
            aliases: seq!["COR"@],
            description: "force a match arm's guard to false"@,
        },
    )
}

/// Match arms.
pub open spec fn match_arms(before: Seq<Entry>) -> Seq<Entry> {
    before.push(
        Entry {
            name: "match_arm.never_matches"@,
            default_on: true,
            aliases: seq!["SDL"@],
            description: "stop a match arm from matching, falling through to the wildcard"@,
        },
    )
}

/// Struct literals.
pub open spec fn struct_literals(before: Seq<Entry>) -> Seq<Entry> {
    before.push(
        Entry {
            name: "struct_field.omit"@,
            default_on: true,
            aliases: seq!["SDL"@],
            description: "omit a struct literal field, leaving the base expression to supply it"@,
        },
    )
}

/// Ranges.
pub open spec fn ranges(before: Seq<Entry>) -> Seq<Entry> {
    before.push(
        Entry {
            name: "range.exclusive_to_inclusive"@,
            default_on: true,
            aliases: seq!["ROR"@],
            description: "extend a .. range to cover its endpoint"@,
        },
    ).push(
        Entry {
            name: "range.inclusive_to_exclusive"@,
            default_on: true,
            aliases: seq!["ROR"@],
            description: "shrink a ..= range to stop short of its endpoint"@,
        },
    )
}

/// Loop control flow.
pub open spec fn loop_control_flow(before: Seq<Entry>) -> Seq<Entry> {
    before.push(
        Entry {
            name: "loop.break_to_continue"@,
            default_on: true,
            aliases: Seq::empty(),
            description: "replace break with continue"@,
        },
    ).push(
        Entry {
            name: "loop.continue_to_break"@,
            default_on: true,
            aliases: Seq::empty(),
            description: "replace continue with break"@,
        },
    ).push(
        Entry {
            name: "loop.delete_break"@,
            default_on: true,
            aliases: seq!["SDL"@],
            description: "delete a break statement"@,
        },
    ).push(
        Entry {
            name: "loop.delete_continue"@,
            default_on: true,
            aliases: seq!["SDL"@],
            description: "delete a continue statement"@,
        },
    )
}

/// Unary.
pub open spec fn unary(before: Seq<Entry>) -> Seq<Entry> {
    before.push(
        Entry {
            name: "unary.remove_neg"@,
            default_on: true,
            aliases: seq!["UOI"@],
            description: "remove a unary minus"@,
        },
    ).push(
        Entry {
            name: "unary.remove_not"@,
            default_on: true,
            aliases: seq!["UOI"@],
            description: "remove a unary not"@,
        },
    )
}

/// Literals.
pub open spec fn literals(before: Seq<Entry>) -> Seq<Entry> {
    before.push(
        Entry {
            name: "literal.int_to_zero"@,
            default_on: true,
            aliases: seq!["CRP"@],
            description: "replace an integer literal with 0"@,
        },
    ).push(
        Entry {
            name: "literal.int_to_one"@,
            default_on: true,
            aliases: seq!["CRP"@],
            description: "replace an integer literal with 1"@,
        },
    ).push(
        Entry {
            name: "literal.int_increment"@,
            default_on: true,
            aliases: seq!["CRP"@],
            description: "add one to an integer literal"@,
        },
    ).push(
        Entry {
            name: "literal.int_decrement"@,
            default_on: true,
            aliases: seq!["CRP"@],
            description: "subtract one from an integer literal"@,
        },
    ).push(
        Entry {
            name: "literal.bool_flip"@,
            default_on: true,
            aliases: seq!["CRP"@],
            description: "invert a boolean literal"@,
        },
    ).push(
        Entry {
            name: "literal.str_to_empty"@,
            default_on: true,
            aliases: seq!["CRP"@],
            description: "replace a string literal with an empty string"@,
        },
    ).push(
        Entry {
            name: "literal.str_to_xyzzy"@,
            default_on: true,
            aliases: seq!["CRP"@],
            description: "replace a string literal with a different string"@,
        },
    )
}

/// Statement deletion and side-effect removal.
pub open spec fn statement_deletion_and(before: Seq<Entry>) -> Seq<Entry> {
    before.push(
        Entry {
            name: "stmt.delete_call"@,
            default_on: true,
            aliases: seq!["SDL"@],
            description: "delete a statement whose value is discarded"@,
        },
    ).push(
        Entry {
            name: "stmt.delete_assign"@,
            default_on: true,
            aliases: seq!["SDL"@],
            description: "delete an assignment statement, plain or compound"@,
        },
    )
}

/// Focused numeric perturbation, in boundary-sensitive positions only.
pub open spec fn focused_numeric_perturbation(before: Seq<Entry>) -> Seq<Entry> {
    before.push(
        Entry {
            name: "expr.increment"@,
            default_on: true,
            aliases: seq!["EVR"@],
            description: "add one to a numeric expression in a boundary-sensitive position"@,
        },
    ).push(
        Entry {
            name: "expr.decrement"@,
            default_on: true,
            aliases: seq!["EVR"@],
            description: "subtract one from a numeric expression in a boundary-sensitive position"@,
        },
    )
}

/// Option and Result construction.
pub open spec fn option_and_result(before: Seq<Entry>) -> Seq<Entry> {
    before.push(
        Entry {
            name: "option.some_to_none"@,
            default_on: true,
            aliases: seq!["EVR"@],
            description: "replace Some(value) with None"@,
        },
    ).push(
        Entry {
            name: "option.none_to_some"@,
            default_on: true,
            aliases: seq!["EVR"@],
            description: "replace None with Some(Default::default())"@,
        },
    ).push(
        Entry {
            name: "result.ok_to_err"@,
            default_on: true,
            aliases: seq!["EVR"@],
            description: "replace Ok(value) with Err(Default::default())"@,
        },
    ).push(
        Entry {
            name: "result.err_to_ok"@,
            default_on: true,
            aliases: seq!["EVR"@],
            description: "replace Err(value) with Ok(Default::default())"@,
        },
    )
}

/// Iterator quantifiers and selectors.
pub open spec fn iterator_quantifiers_and(before: Seq<Entry>) -> Seq<Entry> {
    before.push(
        Entry {
            name: "iter.any_to_all"@,
            default_on: true,
            aliases: seq!["EVR"@],
            description: "replace any with all"@,
        },
    ).push(
        Entry {
            name: "iter.all_to_any"@,
            default_on: true,
            aliases: seq!["EVR"@],
            description: "replace all with any"@,
        },
    ).push(
        Entry {
            name: "iter.min_to_max"@,
            default_on: true,
            aliases: seq!["EVR"@],
            description: "replace min with max"@,
        },
    ).push(
        Entry {
            name: "iter.max_to_min"@,
            default_on: true,
            aliases: seq!["EVR"@],
            description: "replace max with min"@,
        },
    ).push(
        Entry {
            name: "iter.first_to_last"@,
            default_on: true,
            aliases: seq!["EVR"@],
            description: "replace first with last"@,
        },
    ).push(
        Entry {
            name: "iter.last_to_first"@,
            default_on: true,
            aliases: seq!["EVR"@],
            description: "replace last with first"@,
        },
    ).push(
        Entry {
            name: "iter.remove_sort"@,
            default_on: true,
            aliases: seq!["SDL"@],
            description: "remove a sort from a chain"@,
        },
    ).push(
        Entry {
            name: "iter.remove_dedup"@,
            default_on: true,
            aliases: seq!["SDL"@],
            description: "remove a deduplication from a chain"@,
        },
    )
}

/// String semantics.
pub open spec fn string_semantics(before: Seq<Entry>) -> Seq<Entry> {
    before.push(
        Entry {
            name: "string.starts_with_to_ends_with"@,
            default_on: true,
            aliases: seq!["EVR"@],
            description: "replace starts_with with ends_with"@,
        },
    ).push(
        Entry {
            name: "string.ends_with_to_starts_with"@,
            default_on: true,
            aliases: seq!["EVR"@],
            description: "replace ends_with with starts_with"@,
        },
    ).push(
        Entry {
            name: "string.lower_to_upper"@,
            default_on: true,
            aliases: seq!["EVR"@],
            description: "replace to_lowercase with to_uppercase"@,
        },
    ).push(
        Entry {
            name: "string.upper_to_lower"@,
            default_on: true,
            aliases: seq!["EVR"@],
            description: "replace to_uppercase with to_lowercase"@,
        },
    ).push(
        Entry {
            name: "string.trim_start_to_trim_end"@,
            default_on: true,
            aliases: seq!["EVR"@],
            description: "replace trim_start with trim_end"@,
        },
    ).push(
        Entry {
            name: "string.trim_end_to_trim_start"@,
            default_on: true,
            aliases: seq!["EVR"@],
            description: "replace trim_end with trim_start"@,
        },
    )
}

/// Collection construction.
pub open spec fn collection_construction(before: Seq<Entry>) -> Seq<Entry> {
    before.push(
        Entry {
            name: "collection.omit_element"@,
            default_on: true,
            aliases: seq!["SDL"@],
            description: "omit an element from a vec! literal"@,
        },
    )
}

/// Assignment values.
pub open spec fn assignment_values(before: Seq<Entry>) -> Seq<Entry> {
    before.push(
        Entry {
            name: "assign_value.default"@,
            default_on: true,
            aliases: seq!["EVR"@],
            description: "replace an assigned value with its type's default"@,
        },
    )
}

/// Every mutator known to the tool, in registry order.
#[verifier::opaque]
pub open spec fn catalog() -> Seq<Entry> {
    let rows = function_value_replacement(Seq::empty());
    let rows = relational_and_boundary(rows);
    let rows = arithmetic(rows);
    let rows = bitwise_and_shift(rows);
    let rows = compound_assignment(rows);
    let rows = logical_and_condition(rows);
    let rows = match_guards_the(rows);
    let rows = match_arms(rows);
    let rows = struct_literals(rows);
    let rows = ranges(rows);
    let rows = loop_control_flow(rows);
    let rows = unary(rows);
    let rows = literals(rows);
    let rows = statement_deletion_and(rows);
    let rows = focused_numeric_perturbation(rows);
    let rows = option_and_result(rows);
    let rows = iterator_quantifiers_and(rows);
    let rows = string_semantics(rows);
    let rows = collection_construction(rows);
    let rows = assignment_values(rows);
    rows
}

/// The entries a table holds.
pub open spec fn entries(rows: Seq<Mutator>) -> Seq<Entry> {
    rows.map_values(|row: Mutator| row@)
}

/// Adds one row to a table.
fn add_row(
    rows: &mut Vec<Mutator>,
    name: &'static str,
    default_on: bool,
    aliases: &'static [&'static str],
    description: &'static str,
    Ghost(alias_texts): Ghost<Seq<Seq<char>>>,
)
    requires
        aliases@.map_values(|alias: &'static str| alias@) == alias_texts,
    ensures
        entries(final(rows)@) == entries(old(rows)@).push(
            Entry { name: name@, default_on, aliases: alias_texts, description: description@ },
        ),
{
    let row = Mutator { name, description, default_on, aliases };
    rows.push(row);
    proof {
        assert(entries(rows@) =~= entries(old(rows)@).push(row@));
    }
}

/// Adds a row without an alias.
fn add_plain(rows: &mut Vec<Mutator>, name: &'static str, default_on: bool, description: &'static str)
    ensures
        entries(final(rows)@) == entries(old(rows)@).push(
            Entry { name: name@, default_on, aliases: Seq::empty(), description: description@ },
        ),
{
    let none: &'static [&'static str] = &[];
    proof {
        assert(none@.map_values(|alias: &'static str| alias@) =~= Seq::empty());
    }
    add_row(rows, name, default_on, none, description, Ghost(Seq::empty()));
}

/// Adds a row that is also known as `AOR`.
fn add_aor(rows: &mut Vec<Mutator>, name: &'static str, default_on: bool, description: &'static str)
    ensures
        entries(final(rows)@) == entries(old(rows)@).push(
            Entry { name: name@, default_on, aliases: seq!["AOR"@], description: description@ },
        ),
{
    let one: &'static [&'static str] = &["AOR"];
    let ghost texts = seq!["AOR"@];
    proof {
        assert(one@.map_values(|alias: &'static str| alias@) =~= texts);
    }
    add_row(rows, name, default_on, one, description, Ghost(texts));
}

/// Adds a row that is also known as `ASR`.
fn add_asr(rows: &mut Vec<Mutator>, name: &'static str, default_on: bool, description: &'static str)
    ensures
        entries(final(rows)@) == entries(old(rows)@).push(
            Entry { name: name@, default_on, aliases: seq!["ASR"@], description: description@ },
        ),
{
    let one: &'static [&'static str] = &["ASR"];
    let ghost texts = seq!["ASR"@];
    proof {
        assert(one@.map_values(|alias: &'static str| alias@) =~= texts);
    }
    add_row(rows, name, default_on, one, description, Ghost(texts));
}

/// Adds a row that is also known as `COR`.
fn add_cor(rows: &mut Vec<Mutator>, name: &'static str, default_on: bool, description: &'static str)
    ensures
        entries(final(rows)@) == entries(old(rows)@).push(
            Entry { name: name@, default_on, aliases: seq!["COR"@], description: description@ },
        ),
{
    let one: &'static [&'static str] = &["COR"];
    let ghost texts = seq!["COR"@];
    proof {
        assert(one@.map_values(|alias: &'static str| alias@) =~= texts);
    }
    add_row(rows, name, default_on, one, description, Ghost(texts));
}

/// Adds a row that is also known as `CRP`.
fn add_crp(rows: &mut Vec<Mutator>, name: &'static str, default_on: bool, description: &'static str)
    ensures
        entries(final(rows)@) == entries(old(rows)@).push(
            Entry { name: name@, default_on, aliases: seq!["CRP"@], description: description@ },
        ),
{
    let one: &'static [&'static str] = &["CRP"];
    let ghost texts = seq!["CRP"@];
    proof {
        assert(one@.map_values(|alias: &'static str| alias@) =~= texts);
    }
    add_row(rows, name, default_on, one, description, Ghost(texts));
}

/// Adds a row that is also known as `EVR`.
fn add_evr(rows: &mut Vec<Mutator>, name: &'static str, default_on: bool, description: &'static str)
    ensures
        entries(final(rows)@) == entries(old(rows)@).push(
            Entry { name: name@, default_on, aliases: seq!["EVR"@], description: description@ },
        ),
{
    let one: &'static [&'static str] = &["EVR"];
    let ghost texts = seq!["EVR"@];
    proof {
        assert(one@.map_values(|alias: &'static str| alias@) =~= texts);
    }
    add_row(rows, name, default_on, one, description, Ghost(texts));
}

/// Adds a row that is also known as `LCR`.
fn add_lcr(rows: &mut Vec<Mutator>, name: &'static str, default_on: bool, description: &'static str)
    ensures
        entries(final(rows)@) == entries(old(rows)@).push(
            Entry { name: name@, default_on, aliases: seq!["LCR"@], description: description@ },
        ),
{
    let one: &'static [&'static str] = &["LCR"];
    let ghost texts = seq!["LCR"@];
    proof {
        assert(one@.map_values(|alias: &'static str| alias@) =~= texts);
    }
    add_row(rows, name, default_on, one, description, Ghost(texts));
}

/// Adds a row that is also known as `ROR`.
fn add_ror(rows: &mut Vec<Mutator>, name: &'static str, default_on: bool, description: &'static str)
    ensures
        entries(final(rows)@) == entries(old(rows)@).push(
            Entry { name: name@, default_on, aliases: seq!["ROR"@], description: description@ },
        ),
{
    let one: &'static [&'static str] = &["ROR"];
    let ghost texts = seq!["ROR"@];
    proof {
        assert(one@.map_values(|alias: &'static str| alias@) =~= texts);
    }
    add_row(rows, name, default_on, one, description, Ghost(texts));
}

/// Adds a row that is also known as `RV`.
fn add_rv(rows: &mut Vec<Mutator>, name: &'static str, default_on: bool, description: &'static str)
    ensures
        entries(final(rows)@) == entries(old(rows)@).push(
            Entry { name: name@, default_on, aliases: seq!["RV"@], description: description@ },
        ),
{
    let one: &'static [&'static str] = &["RV"];
    let ghost texts = seq!["RV"@];
    proof {
        assert(one@.map_values(|alias: &'static str| alias@) =~= texts);
    }
    add_row(rows, name, default_on, one, description, Ghost(texts));
}

/// Adds a row that is also known as `SDL`.
fn add_sdl(rows: &mut Vec<Mutator>, name: &'static str, default_on: bool, description: &'static str)
    ensures
        entries(final(rows)@) == entries(old(rows)@).push(
            Entry { name: name@, default_on, aliases: seq!["SDL"@], description: description@ },
        ),
{
    let one: &'static [&'static str] = &["SDL"];
    let ghost texts = seq!["SDL"@];
    proof {
        assert(one@.map_values(|alias: &'static str| alias@) =~= texts);
    }
    add_row(rows, name, default_on, one, description, Ghost(texts));
}

/// Adds a row that is also known as `UOI`.
fn add_uoi(rows: &mut Vec<Mutator>, name: &'static str, default_on: bool, description: &'static str)
    ensures
        entries(final(rows)@) == entries(old(rows)@).push(
            Entry { name: name@, default_on, aliases: seq!["UOI"@], description: description@ },
        ),
{
    let one: &'static [&'static str] = &["UOI"];
    let ghost texts = seq!["UOI"@];
    proof {
        assert(one@.map_values(|alias: &'static str| alias@) =~= texts);
    }
    add_row(rows, name, default_on, one, description, Ghost(texts));
}

/// Function value replacement.
fn add_function_value_replacement(rows: &mut Vec<Mutator>)
    ensures
        entries(final(rows)@) == function_value_replacement(entries(old(rows)@)),
{
    add_rv(rows, "fn_value.default", true, "replace the function body with a default value");
    add_rv(rows, "fn_value.stated", true, "replace the body with the value the site states in #[gamma::value(...)]");
    add_plain(rows, "fn_value.unit", true, "replace the body of a unit function with ()");
    add_plain(rows, "fn_value.bool_true", true, "replace the body with true");
    add_plain(rows, "fn_value.bool_false", true, "replace the body with false");
    add_plain(rows, "fn_value.zero", true, "replace the body with 0");
    add_plain(rows, "fn_value.one", true, "replace the body with 1");
    add_plain(rows, "fn_value.minus_one", true, "replace the body with -1");
    add_plain(rows, "fn_value.empty_string", true, "replace the body with an empty string");
    add_plain(rows, "fn_value.xyzzy_string", true, "replace the body with a non-empty string");
    add_plain(rows, "fn_value.none", true, "replace the body with None");
    add_plain(rows, "fn_value.some_default", true, "replace the body with Some(Default::default())");
    add_plain(rows, "fn_value.ok_default", true, "replace the body with Ok(Default::default())");
    add_plain(rows, "fn_value.err_default", true, "replace the body with Err(Default::default())");
    add_plain(rows, "fn_value.err_with", true, "replace the body with Err(v) for each --error value");
    add_plain(rows, "fn_value.two", true, "replace the body with 2");
    add_plain(rows, "fn_value.some", false, "replace the body with Some(value)");
    add_plain(rows, "fn_value.ok", true, "replace the body with Ok(value)");
    add_plain(rows, "fn_value.empty_collection", true, "replace the body with an empty collection or iterator");
    add_plain(rows, "fn_value.one_element", true, "replace the body with a one-element collection or iterator");
    add_plain(rows, "fn_value.tuple", true, "replace the body with a tuple of replacement values");
}

/// Relational and boundary.
fn add_relational_and_boundary(rows: &mut Vec<Mutator>)
    ensures
        entries(final(rows)@) == relational_and_boundary(entries(old(rows)@)),
{
    add_ror(rows, "relational.lt_to_le", true, "replace < with <=");
    add_ror(rows, "relational.lt_to_gt", true, "replace < with >");
    add_ror(rows, "relational.le_to_lt", true, "replace <= with <");
    add_ror(rows, "relational.le_to_ge", true, "replace <= with >=");
    add_ror(rows, "relational.gt_to_ge", true, "replace > with >=");
    add_ror(rows, "relational.gt_to_lt", true, "replace > with <");
    add_ror(rows, "relational.ge_to_gt", true, "replace >= with >");
    add_ror(rows, "relational.ge_to_le", true, "replace >= with <=");
    add_ror(rows, "relational.eq_to_ne", true, "replace == with !=");
    add_ror(rows, "relational.ne_to_eq", true, "replace != with ==");
}

/// Arithmetic.
fn add_arithmetic(rows: &mut Vec<Mutator>)
    ensures
        entries(final(rows)@) == arithmetic(entries(old(rows)@)),
{
    add_aor(rows, "arith.add_to_sub", true, "replace + with -");
    add_aor(rows, "arith.add_to_mul", true, "replace + with *");
    add_aor(rows, "arith.sub_to_add", true, "replace - with +");
    add_aor(rows, "arith.sub_to_div", true, "replace - with /");
    add_aor(rows, "arith.mul_to_div", true, "replace * with /");
    add_aor(rows, "arith.mul_to_add", true, "replace * with +");
    add_aor(rows, "arith.div_to_mul", true, "replace / with *");
    add_aor(rows, "arith.div_to_rem", true, "replace / with %");
    add_aor(rows, "arith.rem_to_div", true, "replace % with /");
    add_aor(rows, "arith.rem_to_mul", true, "replace % with *");
}

/// Bitwise and shift.
fn add_bitwise_and_shift(rows: &mut Vec<Mutator>)
    ensures
        entries(final(rows)@) == bitwise_and_shift(entries(old(rows)@)),
{
    add_aor(rows, "bitwise.and_to_or", true, "replace & with |");
    add_aor(rows, "bitwise.or_to_and", true, "replace | with &");
    add_aor(rows, "bitwise.xor_to_and", true, "replace ^ with &");
    add_aor(rows, "bitwise.and_to_xor", true, "replace & with ^");
    add_aor(rows, "shift.shl_to_shr", true, "replace << with >>");
    add_aor(rows, "shift.shr_to_shl", true, "replace >> with <<");
}

/// Compound assignment.
fn add_compound_assignment(rows: &mut Vec<Mutator>)
    ensures
        entries(final(rows)@) == compound_assignment(entries(old(rows)@)),
{
    add_asr(rows, "assign.add_to_sub", true, "replace += with -=");
    add_asr(rows, "assign.sub_to_add", true, "replace -= with +=");
    add_asr(rows, "assign.mul_to_div", true, "replace *= with /=");
    add_asr(rows, "assign.div_to_mul", true, "replace /= with *=");
    add_asr(rows, "assign.rem_to_div", true, "replace %= with /=");
    add_asr(rows, "assign.and_to_or", true, "replace &= with |=");
    add_asr(rows, "assign.or_to_and", true, "replace |= with &=");
    add_asr(rows, "assign.xor_to_and", true, "replace ^= with &=");
    add_asr(rows, "assign.shl_to_shr", true, "replace <<= with >>=");
    add_asr(rows, "assign.shr_to_shl", true, "replace >>= with <<=");
}

/// Logical and condition.
fn add_logical_and_condition(rows: &mut Vec<Mutator>)
    ensures
        entries(final(rows)@) == logical_and_condition(entries(old(rows)@)),
{
    add_lcr(rows, "logical.and_to_or", true, "replace && with ||");
    add_lcr(rows, "logical.or_to_and", true, "replace || with &&");
    add_cor(rows, "cond.negate", true, "negate a branch condition");
    add_cor(rows, "cond.always_true", true, "force a branch condition to true");
    add_cor(rows, "cond.always_false", true, "force a branch condition to false");
}

/// Match guards. The condition family's blind spot.
fn add_match_guards_the(rows: &mut Vec<Mutator>)
    ensures
        entries(final(rows)@) == match_guards_the(entries(old(rows)@)),
{
    add_cor(rows, "match_guard.negate", true, "negate a match arm's guard");
    add_cor(rows, "match_guard.always_true", true, "force a match arm's guard to true");
    add_cor(rows, "match_guard.always_false", true, "force a match arm's guard to false");
}

/// Match arms.
fn add_match_arms(rows: &mut Vec<Mutator>)
    ensures
        entries(final(rows)@) == match_arms(entries(old(rows)@)),
{
    add_sdl(rows, "match_arm.never_matches", true, "stop a match arm from matching, falling through to the wildcard");
}

/// Struct literals.
fn add_struct_literals(rows: &mut Vec<Mutator>)
    ensures
        entries(final(rows)@) == struct_literals(entries(old(rows)@)),
{
    add_sdl(rows, "struct_field.omit", true, "omit a struct literal field, leaving the base expression to supply it");
}

/// Ranges.
fn add_ranges(rows: &mut Vec<Mutator>)
    ensures
        entries(final(rows)@) == ranges(entries(old(rows)@)),
{
    add_ror(rows, "range.exclusive_to_inclusive", true, "extend a .. range to cover its endpoint");
    add_ror(rows, "range.inclusive_to_exclusive", true, "shrink a ..= range to stop short of its endpoint");
}

/// Loop control flow.
fn add_loop_control_flow(rows: &mut Vec<Mutator>)
    ensures
        entries(final(rows)@) == loop_control_flow(entries(old(rows)@)),
{
    add_plain(rows, "loop.break_to_continue", true, "replace break with continue");
    add_plain(rows, "loop.continue_to_break", true, "replace continue with break");
    add_sdl(rows, "loop.delete_break", true, "delete a break statement");
    add_sdl(rows, "loop.delete_continue", true, "delete a continue statement");
}

/// Unary.
fn add_unary(rows: &mut Vec<Mutator>)
    ensures
        entries(final(rows)@) == unary(entries(old(rows)@)),
{
    add_uoi(rows, "unary.remove_neg", true, "remove a unary minus");
    add_uoi(rows, "unary.remove_not", true, "remove a unary not");
}

/// Literals.
fn add_literals(rows: &mut Vec<Mutator>)
    ensures
        entries(final(rows)@) == literals(entries(old(rows)@)),
{
    add_crp(rows, "literal.int_to_zero", true, "replace an integer literal with 0");
    add_crp(rows, "literal.int_to_one", true, "replace an integer literal with 1");
    add_crp(rows, "literal.int_increment", true, "add one to an integer literal");
    add_crp(rows, "literal.int_decrement", true, "subtract one from an integer literal");
    add_crp(rows, "literal.bool_flip", true, "invert a boolean literal");
    add_crp(rows, "literal.str_to_empty", true, "replace a string literal with an empty string");
    add_crp(rows, "literal.str_to_xyzzy", true, "replace a string literal with a different string");
}

/// Statement deletion and side-effect removal.
fn add_statement_deletion_and(rows: &mut Vec<Mutator>)
    ensures
        entries(final(rows)@) == statement_deletion_and(entries(old(rows)@)),
{
    add_sdl(rows, "stmt.delete_call", true, "delete a statement whose value is discarded");
    add_sdl(rows, "stmt.delete_assign", true, "delete an assignment statement, plain or compound");
}

/// Focused numeric perturbation, in boundary-sensitive positions only.
fn add_focused_numeric_perturbation(rows: &mut Vec<Mutator>)
    ensures
        entries(final(rows)@) == focused_numeric_perturbation(entries(old(rows)@)),
{
    add_evr(rows, "expr.increment", true, "add one to a numeric expression in a boundary-sensitive position");
    add_evr(rows, "expr.decrement", true, "subtract one from a numeric expression in a boundary-sensitive position");
}

/// Option and Result construction.
fn add_option_and_result(rows: &mut Vec<Mutator>)
    ensures
        entries(final(rows)@) == option_and_result(entries(old(rows)@)),
{
    add_evr(rows, "option.some_to_none", true, "replace Some(value) with None");
    add_evr(rows, "option.none_to_some", true, "replace None with Some(Default::default())");
    add_evr(rows, "result.ok_to_err", true, "replace Ok(value) with Err(Default::default())");
    add_evr(rows, "result.err_to_ok", true, "replace Err(value) with Ok(Default::default())");
}

/// Iterator quantifiers and selectors.
fn add_iterator_quantifiers_and(rows: &mut Vec<Mutator>)
    ensures
        entries(final(rows)@) == iterator_quantifiers_and(entries(old(rows)@)),
{
    add_evr(rows, "iter.any_to_all", true, "replace any with all");
    add_evr(rows, "iter.all_to_any", true, "replace all with any");
    add_evr(rows, "iter.min_to_max", true, "replace min with max");
    add_evr(rows, "iter.max_to_min", true, "replace max with min");
    add_evr(rows, "iter.first_to_last", true, "replace first with last");
    add_evr(rows, "iter.last_to_first", true, "replace last with first");
    add_sdl(rows, "iter.remove_sort", true, "remove a sort from a chain");
    add_sdl(rows, "iter.remove_dedup", true, "remove a deduplication from a chain");
}

/// String semantics.
fn add_string_semantics(rows: &mut Vec<Mutator>)
    ensures
        entries(final(rows)@) == string_semantics(entries(old(rows)@)),
{
    add_evr(rows, "string.starts_with_to_ends_with", true, "replace starts_with with ends_with");
    add_evr(rows, "string.ends_with_to_starts_with", true, "replace ends_with with starts_with");
    add_evr(rows, "string.lower_to_upper", true, "replace to_lowercase with to_uppercase");
    add_evr(rows, "string.upper_to_lower", true, "replace to_uppercase with to_lowercase");
    add_evr(rows, "string.trim_start_to_trim_end", true, "replace trim_start with trim_end");
    add_evr(rows, "string.trim_end_to_trim_start", true, "replace trim_end with trim_start");
}

/// Collection construction.
fn add_collection_construction(rows: &mut Vec<Mutator>)
    ensures
        entries(final(rows)@) == collection_construction(entries(old(rows)@)),
{
    add_sdl(rows, "collection.omit_element", true, "omit an element from a vec! literal");
}

/// Assignment values.
fn add_assignment_values(rows: &mut Vec<Mutator>)
    ensures
        entries(final(rows)@) == assignment_values(entries(old(rows)@)),
{
    add_evr(rows, "assign_value.default", true, "replace an assigned value with its type's default");
}

/// Every mutator known to the tool, in registry order.
pub fn registry() -> (r: Vec<Mutator>)
    ensures
        entries(r@) == catalog(),
{
    let mut rows: Vec<Mutator> = Vec::new();
    proof {
        reveal(catalog);
        assert(entries(rows@) =~= Seq::<Entry>::empty());
    }
    add_function_value_replacement(&mut rows);
    add_relational_and_boundary(&mut rows);
    add_arithmetic(&mut rows);
    add_bitwise_and_shift(&mut rows);
    add_compound_assignment(&mut rows);
    add_logical_and_condition(&mut rows);
    add_match_guards_the(&mut rows);
    add_match_arms(&mut rows);
    add_struct_literals(&mut rows);
    add_ranges(&mut rows);
    add_loop_control_flow(&mut rows);
    add_unary(&mut rows);
    add_literals(&mut rows);
    add_statement_deletion_and(&mut rows);
    add_focused_numeric_perturbation(&mut rows);
    add_option_and_result(&mut rows);
    add_iterator_quantifiers_and(&mut rows);
    add_string_semantics(&mut rows);
    add_collection_construction(&mut rows);
    add_assignment_values(&mut rows);
    rows
}

/// Every mutator preset known to the tool.
#[verifier::opaque]
pub open spec fn preset_groups() -> Seq<Group> {
    Seq::empty().push(
        Group {
            name: "all"@,
            description: "every registered mutator"@,
            members: seq!["*"@],
        },
    ).push(
        Group {
            name: "default"@,
            description: "the mutators enabled when none are named"@,
            members: seq!["@default"@],
        },
    ).push(
        Group {
            name: "pedantic"@,
            description: "additional low-yield mutations excluded from the default selection"@,
            members: seq!["fn_value.some"@],
        },
    ).push(
        Group {
            name: "boundary"@,
            description: "relational and boundary conditions"@,
            members: seq!["relational"@, "range"@],
        },
    ).push(
        Group {
            name: "arithmetic"@,
            description: "arithmetic, bitwise, shift and compound assignment"@,
            members: seq!["arith"@, "bitwise"@, "shift"@, "assign"@],
        },
    ).push(
        Group {
            name: "logical"@,
            description: "logical operators and branch conditions"@,
            members: seq!["logical"@, "cond"@, "match_guard"@],
        },
    ).push(
        Group {
            name: "control"@,
            description: "the choices control flow makes: conditions, guards, arms and loop exits"@,
            members: seq!["cond"@, "match_guard"@, "match_arm"@, "loop"@],
        },
    ).push(
        Group {
            name: "removal"@,
            description: "statement and side-effect deletion"@,
            members: seq!["stmt"@, "unary"@, "match_arm"@, "struct_field"@, "collection"@],
        },
    ).push(
        Group {
            name: "semantics"@,
            description: "standard-library meaning: Option, Result, iterators, strings and collections"@,
            members: seq!["option"@, "result"@, "iter"@, "string"@, "collection"@, "assign_value"@],
        },
    ).push(
        Group {
            name: "literals"@,
            description: "literal and constant replacement"@,
            members: seq!["literal"@],
        },
    ).push(
        Group {
            name: "numeric"@,
            description: "literal replacement and focused numeric expression perturbation"@,
            members: seq!["literal"@, "expr"@],
        },
    ).push(
        Group {
            name: "extreme"@,
            description: "a synonym for `all`, kept because scripts name it"@,
            members: seq!["*"@],
        },
    )
}

/// The groups a table of presets holds.
pub open spec fn groups(rows: Seq<Preset>) -> Seq<Group> {
    rows.map_values(|row: Preset| row@)
}

/// Adds one preset to a table.
fn add_preset(
    rows: &mut Vec<Preset>,
    name: &'static str,
    description: &'static str,
    members: &'static [&'static str],
    Ghost(texts): Ghost<Seq<Seq<char>>>,
)
    requires
        members@.map_values(|member: &'static str| member@) == texts,
    ensures
        groups(final(rows)@) == groups(old(rows)@).push(Group { name: name@, description: description@, members: texts }),
{
    let row = Preset { name, description, members };
    rows.push(row);
    proof {
        assert(groups(rows@) =~= groups(old(rows)@).push(row@));
    }
}

/// Every mutator preset known to the tool.
pub fn presets() -> (r: Vec<Preset>)
    ensures
        groups(r@) == preset_groups(),
{
    let mut rows: Vec<Preset> = Vec::new();
    proof {
        reveal(preset_groups);
        assert(groups(rows@) =~= Seq::<Group>::empty());
    }
    let all_members: &'static [&'static str] = &["*"];
    let ghost texts = seq!["*"@];
    proof {
        assert(all_members@.map_values(|member: &'static str| member@) =~= texts);
    }
    add_preset(&mut rows, "all", "every registered mutator", all_members, Ghost(texts));
    let default_members: &'static [&'static str] = &["@default"];
    let ghost texts = seq!["@default"@];
    proof {
        assert(default_members@.map_values(|member: &'static str| member@) =~= texts);
    }
    add_preset(&mut rows, "default", "the mutators enabled when none are named", default_members, Ghost(texts));
    let pedantic_members: &'static [&'static str] = &["fn_value.some"];
    let ghost texts = seq!["fn_value.some"@];
    proof {
        assert(pedantic_members@.map_values(|member: &'static str| member@) =~= texts);
    }
    add_preset(&mut rows, "pedantic", "additional low-yield mutations excluded from the default selection", pedantic_members, Ghost(texts));
    let boundary_members: &'static [&'static str] = &["relational", "range"];
    let ghost texts = seq!["relational"@, "range"@];
    proof {
        assert(boundary_members@.map_values(|member: &'static str| member@) =~= texts);
    }
    add_preset(&mut rows, "boundary", "relational and boundary conditions", boundary_members, Ghost(texts));
    let arithmetic_members: &'static [&'static str] = &["arith", "bitwise", "shift", "assign"];
    let ghost texts = seq!["arith"@, "bitwise"@, "shift"@, "assign"@];
    proof {
        assert(arithmetic_members@.map_values(|member: &'static str| member@) =~= texts);
    }
    add_preset(&mut rows, "arithmetic", "arithmetic, bitwise, shift and compound assignment", arithmetic_members, Ghost(texts));
    let logical_members: &'static [&'static str] = &["logical", "cond", "match_guard"];
    let ghost texts = seq!["logical"@, "cond"@, "match_guard"@];
    proof {
        assert(logical_members@.map_values(|member: &'static str| member@) =~= texts);
    }
    add_preset(&mut rows, "logical", "logical operators and branch conditions", logical_members, Ghost(texts));
    let control_members: &'static [&'static str] = &["cond", "match_guard", "match_arm", "loop"];
    let ghost texts = seq!["cond"@, "match_guard"@, "match_arm"@, "loop"@];
    proof {
        assert(control_members@.map_values(|member: &'static str| member@) =~= texts);
    }
    add_preset(&mut rows, "control", "the choices control flow makes: conditions, guards, arms and loop exits", control_members, Ghost(texts));
    let removal_members: &'static [&'static str] = &["stmt", "unary", "match_arm", "struct_field", "collection"];
    let ghost texts = seq!["stmt"@, "unary"@, "match_arm"@, "struct_field"@, "collection"@];
    proof {
        assert(removal_members@.map_values(|member: &'static str| member@) =~= texts);
    }
    add_preset(&mut rows, "removal", "statement and side-effect deletion", removal_members, Ghost(texts));
    let semantics_members: &'static [&'static str] = &["option", "result", "iter", "string", "collection", "assign_value"];
    let ghost texts = seq!["option"@, "result"@, "iter"@, "string"@, "collection"@, "assign_value"@];
    proof {
        assert(semantics_members@.map_values(|member: &'static str| member@) =~= texts);
    }
    add_preset(&mut rows, "semantics", "standard-library meaning: Option, Result, iterators, strings and collections", semantics_members, Ghost(texts));
    let literals_members: &'static [&'static str] = &["literal"];
    let ghost texts = seq!["literal"@];
    proof {
        assert(literals_members@.map_values(|member: &'static str| member@) =~= texts);
    }
    add_preset(&mut rows, "literals", "literal and constant replacement", literals_members, Ghost(texts));
    let numeric_members: &'static [&'static str] = &["literal", "expr"];
    let ghost texts = seq!["literal"@, "expr"@];
    proof {
        assert(numeric_members@.map_values(|member: &'static str| member@) =~= texts);
    }
    add_preset(&mut rows, "numeric", "literal replacement and focused numeric expression perturbation", numeric_members, Ghost(texts));
    let extreme_members: &'static [&'static str] = &["*"];
    let ghost texts = seq!["*"@];
    proof {
        assert(extreme_members@.map_values(|member: &'static str| member@) =~= texts);
    }
    add_preset(&mut rows, "extreme", "a synonym for `all`, kept because scripts name it", extreme_members, Ghost(texts));
    rows
}

} // verus!
