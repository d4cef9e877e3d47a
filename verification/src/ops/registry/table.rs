//! The registry, row by row.
use crate::ops::registry::catalog::{
    arithmetic, assignment_values, bitwise_and_shift, catalog, collection_construction, compound_assignment,
    focused_numeric_perturbation, function_value_replacement, iterator_quantifiers_and, literals,
    logical_and_condition, loop_control_flow, match_arms, match_guards_the, option_and_result, preset_groups, ranges,
    relational_and_boundary, statement_deletion_and, string_semantics, struct_literals, unary,
};
use crate::ops::registry::names::goes_on;
use crate::ops::registry::{Entry, Group};
use vstd::prelude::*;

verus! {

/// What is said of a mutator that replaces one thing by another.
pub open spec fn replacing(one: Seq<char>, other: Seq<char>) -> Seq<char> {
    "replace "@ + one + " with "@ + other
}

/// Whether a row is named so, also known by this name if there is one, and this is said of it.
pub open spec fn is_row(row: Entry, name: Seq<char>, alias: Option<Seq<char>>, description: Seq<char>) -> bool {
    &&& row.name == name
    &&& row.description == description
    &&& alias matches Some(alias) ==> row.aliases == seq![alias]
    &&& alias is None ==> row.aliases.len() == 0
}

proof fn lemma_function_value_replacement(before: Seq<Entry>)
    ensures
        goes_on(before, function_value_replacement(before), 21),
        is_row(function_value_replacement(before)[before.len() as int], "fn_value.default"@, Some("RV"@), "replace the function body with a default value"@),
        is_row(function_value_replacement(before)[before.len() as int + 1], "fn_value.stated"@, Some("RV"@), "replace the body with the value the site states in #[gamma::value(...)]"@),
        is_row(function_value_replacement(before)[before.len() as int + 2], "fn_value.unit"@, None, "replace the body of a unit function with ()"@),
        is_row(function_value_replacement(before)[before.len() as int + 3], "fn_value.bool_true"@, None, "replace the body with true"@),
        is_row(function_value_replacement(before)[before.len() as int + 4], "fn_value.bool_false"@, None, "replace the body with false"@),
        is_row(function_value_replacement(before)[before.len() as int + 5], "fn_value.zero"@, None, "replace the body with 0"@),
        is_row(function_value_replacement(before)[before.len() as int + 6], "fn_value.one"@, None, "replace the body with 1"@),
        is_row(function_value_replacement(before)[before.len() as int + 7], "fn_value.minus_one"@, None, "replace the body with -1"@),
        is_row(function_value_replacement(before)[before.len() as int + 8], "fn_value.empty_string"@, None, "replace the body with an empty string"@),
        is_row(function_value_replacement(before)[before.len() as int + 9], "fn_value.xyzzy_string"@, None, "replace the body with a non-empty string"@),
        is_row(function_value_replacement(before)[before.len() as int + 10], "fn_value.none"@, None, "replace the body with None"@),
        is_row(function_value_replacement(before)[before.len() as int + 11], "fn_value.some_default"@, None, "replace the body with Some(Default::default())"@),
        is_row(function_value_replacement(before)[before.len() as int + 12], "fn_value.ok_default"@, None, "replace the body with Ok(Default::default())"@),
        is_row(function_value_replacement(before)[before.len() as int + 13], "fn_value.err_default"@, None, "replace the body with Err(Default::default())"@),
        is_row(function_value_replacement(before)[before.len() as int + 14], "fn_value.err_with"@, None, "replace the body with Err(v) for each --error value"@),
        is_row(function_value_replacement(before)[before.len() as int + 15], "fn_value.two"@, None, "replace the body with 2"@),
        is_row(function_value_replacement(before)[before.len() as int + 16], "fn_value.some"@, None, "replace the body with Some(value)"@),
        is_row(function_value_replacement(before)[before.len() as int + 17], "fn_value.ok"@, None, "replace the body with Ok(value)"@),
        is_row(function_value_replacement(before)[before.len() as int + 18], "fn_value.empty_collection"@, None, "replace the body with an empty collection or iterator"@),
        is_row(function_value_replacement(before)[before.len() as int + 19], "fn_value.one_element"@, None, "replace the body with a one-element collection or iterator"@),
        is_row(function_value_replacement(before)[before.len() as int + 20], "fn_value.tuple"@, None, "replace the body with a tuple of replacement values"@),
{
}

proof fn lemma_relational_and_boundary(before: Seq<Entry>)
    ensures
        goes_on(before, relational_and_boundary(before), 10),
        is_row(relational_and_boundary(before)[before.len() as int], "relational.lt_to_le"@, Some("ROR"@), replacing("<"@, "<="@)),
        is_row(relational_and_boundary(before)[before.len() as int + 1], "relational.lt_to_gt"@, Some("ROR"@), replacing("<"@, ">"@)),
        is_row(relational_and_boundary(before)[before.len() as int + 2], "relational.le_to_lt"@, Some("ROR"@), replacing("<="@, "<"@)),
        is_row(relational_and_boundary(before)[before.len() as int + 3], "relational.le_to_ge"@, Some("ROR"@), replacing("<="@, ">="@)),
        is_row(relational_and_boundary(before)[before.len() as int + 4], "relational.gt_to_ge"@, Some("ROR"@), replacing(">"@, ">="@)),
        is_row(relational_and_boundary(before)[before.len() as int + 5], "relational.gt_to_lt"@, Some("ROR"@), replacing(">"@, "<"@)),
        is_row(relational_and_boundary(before)[before.len() as int + 6], "relational.ge_to_gt"@, Some("ROR"@), replacing(">="@, ">"@)),
        is_row(relational_and_boundary(before)[before.len() as int + 7], "relational.ge_to_le"@, Some("ROR"@), replacing(">="@, "<="@)),
        is_row(relational_and_boundary(before)[before.len() as int + 8], "relational.eq_to_ne"@, Some("ROR"@), replacing("=="@, "!="@)),
        is_row(relational_and_boundary(before)[before.len() as int + 9], "relational.ne_to_eq"@, Some("ROR"@), replacing("!="@, "=="@)),
{
    reveal_strlit("replace ");
    reveal_strlit(" with ");
    reveal_strlit("<");
    reveal_strlit("<=");
    reveal_strlit("replace < with <=");
    reveal_strlit(">");
    reveal_strlit("replace < with >");
    reveal_strlit("replace <= with <");
    reveal_strlit(">=");
    reveal_strlit("replace <= with >=");
    reveal_strlit("replace > with >=");
    reveal_strlit("replace > with <");
    reveal_strlit("replace >= with >");
    reveal_strlit("replace >= with <=");
    reveal_strlit("==");
    reveal_strlit("!=");
    reveal_strlit("replace == with !=");
    reveal_strlit("replace != with ==");
    assert("replace < with <="@ =~= replacing("<"@, "<="@));
    assert("replace < with >"@ =~= replacing("<"@, ">"@));
    assert("replace <= with <"@ =~= replacing("<="@, "<"@));
    assert("replace <= with >="@ =~= replacing("<="@, ">="@));
    assert("replace > with >="@ =~= replacing(">"@, ">="@));
    assert("replace > with <"@ =~= replacing(">"@, "<"@));
    assert("replace >= with >"@ =~= replacing(">="@, ">"@));
    assert("replace >= with <="@ =~= replacing(">="@, "<="@));
    assert("replace == with !="@ =~= replacing("=="@, "!="@));
    assert("replace != with =="@ =~= replacing("!="@, "=="@));
}

proof fn lemma_arithmetic(before: Seq<Entry>)
    ensures
        goes_on(before, arithmetic(before), 10),
        is_row(arithmetic(before)[before.len() as int], "arith.add_to_sub"@, Some("AOR"@), replacing("+"@, "-"@)),
        is_row(arithmetic(before)[before.len() as int + 1], "arith.add_to_mul"@, Some("AOR"@), replacing("+"@, "*"@)),
        is_row(arithmetic(before)[before.len() as int + 2], "arith.sub_to_add"@, Some("AOR"@), replacing("-"@, "+"@)),
        is_row(arithmetic(before)[before.len() as int + 3], "arith.sub_to_div"@, Some("AOR"@), replacing("-"@, "/"@)),
        is_row(arithmetic(before)[before.len() as int + 4], "arith.mul_to_div"@, Some("AOR"@), replacing("*"@, "/"@)),
        is_row(arithmetic(before)[before.len() as int + 5], "arith.mul_to_add"@, Some("AOR"@), replacing("*"@, "+"@)),
        is_row(arithmetic(before)[before.len() as int + 6], "arith.div_to_mul"@, Some("AOR"@), replacing("/"@, "*"@)),
        is_row(arithmetic(before)[before.len() as int + 7], "arith.div_to_rem"@, Some("AOR"@), replacing("/"@, "%"@)),
        is_row(arithmetic(before)[before.len() as int + 8], "arith.rem_to_div"@, Some("AOR"@), replacing("%"@, "/"@)),
        is_row(arithmetic(before)[before.len() as int + 9], "arith.rem_to_mul"@, Some("AOR"@), replacing("%"@, "*"@)),
{
    reveal_strlit("replace ");
    reveal_strlit(" with ");
    reveal_strlit("+");
    reveal_strlit("-");
    reveal_strlit("replace + with -");
    reveal_strlit("*");
    reveal_strlit("replace + with *");
    reveal_strlit("replace - with +");
    reveal_strlit("/");
    reveal_strlit("replace - with /");
    reveal_strlit("replace * with /");
    reveal_strlit("replace * with +");
    reveal_strlit("replace / with *");
    reveal_strlit("%");
    reveal_strlit("replace / with %");
    reveal_strlit("replace % with /");
    reveal_strlit("replace % with *");
    assert("replace + with -"@ =~= replacing("+"@, "-"@));
    assert("replace + with *"@ =~= replacing("+"@, "*"@));
    assert("replace - with +"@ =~= replacing("-"@, "+"@));
    assert("replace - with /"@ =~= replacing("-"@, "/"@));
    assert("replace * with /"@ =~= replacing("*"@, "/"@));
    assert("replace * with +"@ =~= replacing("*"@, "+"@));
    assert("replace / with *"@ =~= replacing("/"@, "*"@));
    assert("replace / with %"@ =~= replacing("/"@, "%"@));
    assert("replace % with /"@ =~= replacing("%"@, "/"@));
    assert("replace % with *"@ =~= replacing("%"@, "*"@));
}

proof fn lemma_bitwise_and_shift(before: Seq<Entry>)
    ensures
        goes_on(before, bitwise_and_shift(before), 6),
        is_row(bitwise_and_shift(before)[before.len() as int], "bitwise.and_to_or"@, Some("AOR"@), replacing("&"@, "|"@)),
        is_row(bitwise_and_shift(before)[before.len() as int + 1], "bitwise.or_to_and"@, Some("AOR"@), replacing("|"@, "&"@)),
        is_row(bitwise_and_shift(before)[before.len() as int + 2], "bitwise.xor_to_and"@, Some("AOR"@), replacing("^"@, "&"@)),
        is_row(bitwise_and_shift(before)[before.len() as int + 3], "bitwise.and_to_xor"@, Some("AOR"@), replacing("&"@, "^"@)),
        is_row(bitwise_and_shift(before)[before.len() as int + 4], "shift.shl_to_shr"@, Some("AOR"@), replacing("<<"@, ">>"@)),
        is_row(bitwise_and_shift(before)[before.len() as int + 5], "shift.shr_to_shl"@, Some("AOR"@), replacing(">>"@, "<<"@)),
{
    reveal_strlit("replace ");
    reveal_strlit(" with ");
    reveal_strlit("&");
    reveal_strlit("|");
    reveal_strlit("replace & with |");
    reveal_strlit("replace | with &");
    reveal_strlit("^");
    reveal_strlit("replace ^ with &");
    reveal_strlit("replace & with ^");
    reveal_strlit("<<");
    reveal_strlit(">>");
    reveal_strlit("replace << with >>");
    reveal_strlit("replace >> with <<");
    assert("replace & with |"@ =~= replacing("&"@, "|"@));
    assert("replace | with &"@ =~= replacing("|"@, "&"@));
    assert("replace ^ with &"@ =~= replacing("^"@, "&"@));
    assert("replace & with ^"@ =~= replacing("&"@, "^"@));
    assert("replace << with >>"@ =~= replacing("<<"@, ">>"@));
    assert("replace >> with <<"@ =~= replacing(">>"@, "<<"@));
}

proof fn lemma_compound_assignment(before: Seq<Entry>)
    ensures
        goes_on(before, compound_assignment(before), 10),
        is_row(compound_assignment(before)[before.len() as int], "assign.add_to_sub"@, Some("ASR"@), replacing("+="@, "-="@)),
        is_row(compound_assignment(before)[before.len() as int + 1], "assign.sub_to_add"@, Some("ASR"@), replacing("-="@, "+="@)),
        is_row(compound_assignment(before)[before.len() as int + 2], "assign.mul_to_div"@, Some("ASR"@), replacing("*="@, "/="@)),
        is_row(compound_assignment(before)[before.len() as int + 3], "assign.div_to_mul"@, Some("ASR"@), replacing("/="@, "*="@)),
        is_row(compound_assignment(before)[before.len() as int + 4], "assign.rem_to_div"@, Some("ASR"@), replacing("%="@, "/="@)),
        is_row(compound_assignment(before)[before.len() as int + 5], "assign.and_to_or"@, Some("ASR"@), replacing("&="@, "|="@)),
        is_row(compound_assignment(before)[before.len() as int + 6], "assign.or_to_and"@, Some("ASR"@), replacing("|="@, "&="@)),
        is_row(compound_assignment(before)[before.len() as int + 7], "assign.xor_to_and"@, Some("ASR"@), replacing("^="@, "&="@)),
        is_row(compound_assignment(before)[before.len() as int + 8], "assign.shl_to_shr"@, Some("ASR"@), replacing("<<="@, ">>="@)),
        is_row(compound_assignment(before)[before.len() as int + 9], "assign.shr_to_shl"@, Some("ASR"@), replacing(">>="@, "<<="@)),
{
    reveal_strlit("replace ");
    reveal_strlit(" with ");
    reveal_strlit("+=");
    reveal_strlit("-=");
    reveal_strlit("replace += with -=");
    reveal_strlit("replace -= with +=");
    reveal_strlit("*=");
    reveal_strlit("/=");
    reveal_strlit("replace *= with /=");
    reveal_strlit("replace /= with *=");
    reveal_strlit("%=");
    reveal_strlit("replace %= with /=");
    reveal_strlit("&=");
    reveal_strlit("|=");
    reveal_strlit("replace &= with |=");
    reveal_strlit("replace |= with &=");
    reveal_strlit("^=");
    reveal_strlit("replace ^= with &=");
    reveal_strlit("<<=");
    reveal_strlit(">>=");
    reveal_strlit("replace <<= with >>=");
    reveal_strlit("replace >>= with <<=");
    assert("replace += with -="@ =~= replacing("+="@, "-="@));
    assert("replace -= with +="@ =~= replacing("-="@, "+="@));
    assert("replace *= with /="@ =~= replacing("*="@, "/="@));
    assert("replace /= with *="@ =~= replacing("/="@, "*="@));
    assert("replace %= with /="@ =~= replacing("%="@, "/="@));
    assert("replace &= with |="@ =~= replacing("&="@, "|="@));
    assert("replace |= with &="@ =~= replacing("|="@, "&="@));
    assert("replace ^= with &="@ =~= replacing("^="@, "&="@));
    assert("replace <<= with >>="@ =~= replacing("<<="@, ">>="@));
    assert("replace >>= with <<="@ =~= replacing(">>="@, "<<="@));
}

proof fn lemma_logical_and_condition(before: Seq<Entry>)
    ensures
        goes_on(before, logical_and_condition(before), 5),
        is_row(logical_and_condition(before)[before.len() as int], "logical.and_to_or"@, Some("LCR"@), replacing("&&"@, "||"@)),
        is_row(logical_and_condition(before)[before.len() as int + 1], "logical.or_to_and"@, Some("LCR"@), replacing("||"@, "&&"@)),
        is_row(logical_and_condition(before)[before.len() as int + 2], "cond.negate"@, Some("COR"@), "negate a branch condition"@),
        is_row(logical_and_condition(before)[before.len() as int + 3], "cond.always_true"@, Some("COR"@), "force a branch condition to true"@),
        is_row(logical_and_condition(before)[before.len() as int + 4], "cond.always_false"@, Some("COR"@), "force a branch condition to false"@),
{
    reveal_strlit("replace ");
    reveal_strlit(" with ");
    reveal_strlit("&&");
    reveal_strlit("||");
    reveal_strlit("replace && with ||");
    reveal_strlit("replace || with &&");
    assert("replace && with ||"@ =~= replacing("&&"@, "||"@));
    assert("replace || with &&"@ =~= replacing("||"@, "&&"@));
}

proof fn lemma_match_guards_the(before: Seq<Entry>)
    ensures
        goes_on(before, match_guards_the(before), 3),
        is_row(match_guards_the(before)[before.len() as int], "match_guard.negate"@, Some("COR"@), "negate a match arm's guard"@),
        is_row(match_guards_the(before)[before.len() as int + 1], "match_guard.always_true"@, Some("COR"@), "force a match arm's guard to true"@),
        is_row(match_guards_the(before)[before.len() as int + 2], "match_guard.always_false"@, Some("COR"@), "force a match arm's guard to false"@),
{
}

proof fn lemma_match_arms(before: Seq<Entry>)
    ensures
        goes_on(before, match_arms(before), 1),
        is_row(match_arms(before)[before.len() as int], "match_arm.never_matches"@, Some("SDL"@), "stop a match arm from matching, falling through to the wildcard"@),
{
}

proof fn lemma_struct_literals(before: Seq<Entry>)
    ensures
        goes_on(before, struct_literals(before), 1),
        is_row(struct_literals(before)[before.len() as int], "struct_field.omit"@, Some("SDL"@), "omit a struct literal field, leaving the base expression to supply it"@),
{
}

proof fn lemma_ranges(before: Seq<Entry>)
    ensures
        goes_on(before, ranges(before), 2),
        is_row(ranges(before)[before.len() as int], "range.exclusive_to_inclusive"@, Some("ROR"@), "extend a .. range to cover its endpoint"@),
        is_row(ranges(before)[before.len() as int + 1], "range.inclusive_to_exclusive"@, Some("ROR"@), "shrink a ..= range to stop short of its endpoint"@),
{
}

proof fn lemma_loop_control_flow(before: Seq<Entry>)
    ensures
        goes_on(before, loop_control_flow(before), 4),
        is_row(loop_control_flow(before)[before.len() as int], "loop.break_to_continue"@, None, replacing("break"@, "continue"@)),
        is_row(loop_control_flow(before)[before.len() as int + 1], "loop.continue_to_break"@, None, replacing("continue"@, "break"@)),
        is_row(loop_control_flow(before)[before.len() as int + 2], "loop.delete_break"@, Some("SDL"@), "delete a break statement"@),
        is_row(loop_control_flow(before)[before.len() as int + 3], "loop.delete_continue"@, Some("SDL"@), "delete a continue statement"@),
{
    reveal_strlit("replace ");
    reveal_strlit(" with ");
    reveal_strlit("break");
    reveal_strlit("continue");
    reveal_strlit("replace break with continue");
    reveal_strlit("replace continue with break");
    assert("replace break with continue"@ =~= replacing("break"@, "continue"@));
    assert("replace continue with break"@ =~= replacing("continue"@, "break"@));
}

proof fn lemma_unary(before: Seq<Entry>)
    ensures
        goes_on(before, unary(before), 2),
        is_row(unary(before)[before.len() as int], "unary.remove_neg"@, Some("UOI"@), "remove a unary minus"@),
        is_row(unary(before)[before.len() as int + 1], "unary.remove_not"@, Some("UOI"@), "remove a unary not"@),
{
}

proof fn lemma_literals(before: Seq<Entry>)
    ensures
        goes_on(before, literals(before), 7),
        is_row(literals(before)[before.len() as int], "literal.int_to_zero"@, Some("CRP"@), "replace an integer literal with 0"@),
        is_row(literals(before)[before.len() as int + 1], "literal.int_to_one"@, Some("CRP"@), "replace an integer literal with 1"@),
        is_row(literals(before)[before.len() as int + 2], "literal.int_increment"@, Some("CRP"@), "add one to an integer literal"@),
        is_row(literals(before)[before.len() as int + 3], "literal.int_decrement"@, Some("CRP"@), "subtract one from an integer literal"@),
        is_row(literals(before)[before.len() as int + 4], "literal.bool_flip"@, Some("CRP"@), "invert a boolean literal"@),
        is_row(literals(before)[before.len() as int + 5], "literal.str_to_empty"@, Some("CRP"@), "replace a string literal with an empty string"@),
        is_row(literals(before)[before.len() as int + 6], "literal.str_to_xyzzy"@, Some("CRP"@), "replace a string literal with a different string"@),
{
}

proof fn lemma_statement_deletion_and(before: Seq<Entry>)
    ensures
        goes_on(before, statement_deletion_and(before), 2),
        is_row(statement_deletion_and(before)[before.len() as int], "stmt.delete_call"@, Some("SDL"@), "delete a statement whose value is discarded"@),
        is_row(statement_deletion_and(before)[before.len() as int + 1], "stmt.delete_assign"@, Some("SDL"@), "delete an assignment statement, plain or compound"@),
{
}

proof fn lemma_focused_numeric_perturbation(before: Seq<Entry>)
    ensures
        goes_on(before, focused_numeric_perturbation(before), 2),
        is_row(focused_numeric_perturbation(before)[before.len() as int], "expr.increment"@, Some("EVR"@), "add one to a numeric expression in a boundary-sensitive position"@),
        is_row(focused_numeric_perturbation(before)[before.len() as int + 1], "expr.decrement"@, Some("EVR"@), "subtract one from a numeric expression in a boundary-sensitive position"@),
{
}

proof fn lemma_option_and_result(before: Seq<Entry>)
    ensures
        goes_on(before, option_and_result(before), 4),
        is_row(option_and_result(before)[before.len() as int], "option.some_to_none"@, Some("EVR"@), replacing("Some(value)"@, "None"@)),
        is_row(option_and_result(before)[before.len() as int + 1], "option.none_to_some"@, Some("EVR"@), replacing("None"@, "Some(Default::default())"@)),
        is_row(option_and_result(before)[before.len() as int + 2], "result.ok_to_err"@, Some("EVR"@), replacing("Ok(value)"@, "Err(Default::default())"@)),
        is_row(option_and_result(before)[before.len() as int + 3], "result.err_to_ok"@, Some("EVR"@), replacing("Err(value)"@, "Ok(Default::default())"@)),
{
    reveal_strlit("replace ");
    reveal_strlit(" with ");
    reveal_strlit("Some(value)");
    reveal_strlit("None");
    reveal_strlit("replace Some(value) with None");
    reveal_strlit("Some(Default::default())");
    reveal_strlit("replace None with Some(Default::default())");
    reveal_strlit("Ok(value)");
    reveal_strlit("Err(Default::default())");
    reveal_strlit("replace Ok(value) with Err(Default::default())");
    reveal_strlit("Err(value)");
    reveal_strlit("Ok(Default::default())");
    reveal_strlit("replace Err(value) with Ok(Default::default())");
    assert("replace Some(value) with None"@ =~= replacing("Some(value)"@, "None"@));
    assert("replace None with Some(Default::default())"@ =~= replacing("None"@, "Some(Default::default())"@));
    assert("replace Ok(value) with Err(Default::default())"@ =~= replacing("Ok(value)"@, "Err(Default::default())"@));
    assert("replace Err(value) with Ok(Default::default())"@ =~= replacing("Err(value)"@, "Ok(Default::default())"@));
}

proof fn lemma_iterator_quantifiers_and(before: Seq<Entry>)
    ensures
        goes_on(before, iterator_quantifiers_and(before), 8),
        is_row(iterator_quantifiers_and(before)[before.len() as int], "iter.any_to_all"@, Some("EVR"@), replacing("any"@, "all"@)),
        is_row(iterator_quantifiers_and(before)[before.len() as int + 1], "iter.all_to_any"@, Some("EVR"@), replacing("all"@, "any"@)),
        is_row(iterator_quantifiers_and(before)[before.len() as int + 2], "iter.min_to_max"@, Some("EVR"@), replacing("min"@, "max"@)),
        is_row(iterator_quantifiers_and(before)[before.len() as int + 3], "iter.max_to_min"@, Some("EVR"@), replacing("max"@, "min"@)),
        is_row(iterator_quantifiers_and(before)[before.len() as int + 4], "iter.first_to_last"@, Some("EVR"@), replacing("first"@, "last"@)),
        is_row(iterator_quantifiers_and(before)[before.len() as int + 5], "iter.last_to_first"@, Some("EVR"@), replacing("last"@, "first"@)),
        is_row(iterator_quantifiers_and(before)[before.len() as int + 6], "iter.remove_sort"@, Some("SDL"@), "remove a sort from a chain"@),
        is_row(iterator_quantifiers_and(before)[before.len() as int + 7], "iter.remove_dedup"@, Some("SDL"@), "remove a deduplication from a chain"@),
{
    reveal_strlit("replace ");
    reveal_strlit(" with ");
    reveal_strlit("any");
    reveal_strlit("all");
    reveal_strlit("replace any with all");
    reveal_strlit("replace all with any");
    reveal_strlit("min");
    reveal_strlit("max");
    reveal_strlit("replace min with max");
    reveal_strlit("replace max with min");
    reveal_strlit("first");
    reveal_strlit("last");
    reveal_strlit("replace first with last");
    reveal_strlit("replace last with first");
    assert("replace any with all"@ =~= replacing("any"@, "all"@));
    assert("replace all with any"@ =~= replacing("all"@, "any"@));
    assert("replace min with max"@ =~= replacing("min"@, "max"@));
    assert("replace max with min"@ =~= replacing("max"@, "min"@));
    assert("replace first with last"@ =~= replacing("first"@, "last"@));
    assert("replace last with first"@ =~= replacing("last"@, "first"@));
}

proof fn lemma_string_semantics(before: Seq<Entry>)
    ensures
        goes_on(before, string_semantics(before), 6),
        is_row(string_semantics(before)[before.len() as int], "string.starts_with_to_ends_with"@, Some("EVR"@), replacing("starts_with"@, "ends_with"@)),
        is_row(string_semantics(before)[before.len() as int + 1], "string.ends_with_to_starts_with"@, Some("EVR"@), replacing("ends_with"@, "starts_with"@)),
        is_row(string_semantics(before)[before.len() as int + 2], "string.lower_to_upper"@, Some("EVR"@), replacing("to_lowercase"@, "to_uppercase"@)),
        is_row(string_semantics(before)[before.len() as int + 3], "string.upper_to_lower"@, Some("EVR"@), replacing("to_uppercase"@, "to_lowercase"@)),
        is_row(string_semantics(before)[before.len() as int + 4], "string.trim_start_to_trim_end"@, Some("EVR"@), replacing("trim_start"@, "trim_end"@)),
        is_row(string_semantics(before)[before.len() as int + 5], "string.trim_end_to_trim_start"@, Some("EVR"@), replacing("trim_end"@, "trim_start"@)),
{
    reveal_strlit("replace ");
    reveal_strlit(" with ");
    reveal_strlit("starts_with");
    reveal_strlit("ends_with");
    reveal_strlit("replace starts_with with ends_with");
    reveal_strlit("replace ends_with with starts_with");
    reveal_strlit("to_lowercase");
    reveal_strlit("to_uppercase");
    reveal_strlit("replace to_lowercase with to_uppercase");
    reveal_strlit("replace to_uppercase with to_lowercase");
    reveal_strlit("trim_start");
    reveal_strlit("trim_end");
    reveal_strlit("replace trim_start with trim_end");
    reveal_strlit("replace trim_end with trim_start");
    assert("replace starts_with with ends_with"@ =~= replacing("starts_with"@, "ends_with"@));
    assert("replace ends_with with starts_with"@ =~= replacing("ends_with"@, "starts_with"@));
    assert("replace to_lowercase with to_uppercase"@ =~= replacing("to_lowercase"@, "to_uppercase"@));
    assert("replace to_uppercase with to_lowercase"@ =~= replacing("to_uppercase"@, "to_lowercase"@));
    assert("replace trim_start with trim_end"@ =~= replacing("trim_start"@, "trim_end"@));
    assert("replace trim_end with trim_start"@ =~= replacing("trim_end"@, "trim_start"@));
}

proof fn lemma_collection_construction(before: Seq<Entry>)
    ensures
        goes_on(before, collection_construction(before), 1),
        is_row(collection_construction(before)[before.len() as int], "collection.omit_element"@, Some("SDL"@), "omit an element from a vec! literal"@),
{
}

proof fn lemma_assignment_values(before: Seq<Entry>)
    ensures
        goes_on(before, assignment_values(before), 1),
        is_row(assignment_values(before)[before.len() as int], "assign_value.default"@, Some("EVR"@), "replace an assigned value with its type's default"@),
{
}

/// The mutators, in registry order, the name that each is known by elsewhere, and what is said of it.
#[verifier::spinoff_prover]
#[verifier::rlimit(100)]
pub proof fn law_the_registry_lists_these_mutators()
    ensures
        catalog().len() == 106,
        is_row(catalog()[0], "fn_value.default"@, Some("RV"@), "replace the function body with a default value"@),
        is_row(catalog()[1], "fn_value.stated"@, Some("RV"@), "replace the body with the value the site states in #[gamma::value(...)]"@),
        is_row(catalog()[2], "fn_value.unit"@, None, "replace the body of a unit function with ()"@),
        is_row(catalog()[3], "fn_value.bool_true"@, None, "replace the body with true"@),
        is_row(catalog()[4], "fn_value.bool_false"@, None, "replace the body with false"@),
        is_row(catalog()[5], "fn_value.zero"@, None, "replace the body with 0"@),
        is_row(catalog()[6], "fn_value.one"@, None, "replace the body with 1"@),
        is_row(catalog()[7], "fn_value.minus_one"@, None, "replace the body with -1"@),
        is_row(catalog()[8], "fn_value.empty_string"@, None, "replace the body with an empty string"@),
        is_row(catalog()[9], "fn_value.xyzzy_string"@, None, "replace the body with a non-empty string"@),
        is_row(catalog()[10], "fn_value.none"@, None, "replace the body with None"@),
        is_row(catalog()[11], "fn_value.some_default"@, None, "replace the body with Some(Default::default())"@),
        is_row(catalog()[12], "fn_value.ok_default"@, None, "replace the body with Ok(Default::default())"@),
        is_row(catalog()[13], "fn_value.err_default"@, None, "replace the body with Err(Default::default())"@),
        is_row(catalog()[14], "fn_value.err_with"@, None, "replace the body with Err(v) for each --error value"@),
        is_row(catalog()[15], "fn_value.two"@, None, "replace the body with 2"@),
        is_row(catalog()[16], "fn_value.some"@, None, "replace the body with Some(value)"@),
        is_row(catalog()[17], "fn_value.ok"@, None, "replace the body with Ok(value)"@),
        is_row(catalog()[18], "fn_value.empty_collection"@, None, "replace the body with an empty collection or iterator"@),
        is_row(catalog()[19], "fn_value.one_element"@, None, "replace the body with a one-element collection or iterator"@),
        is_row(catalog()[20], "fn_value.tuple"@, None, "replace the body with a tuple of replacement values"@),
        is_row(catalog()[21], "relational.lt_to_le"@, Some("ROR"@), replacing("<"@, "<="@)),
        is_row(catalog()[22], "relational.lt_to_gt"@, Some("ROR"@), replacing("<"@, ">"@)),
        is_row(catalog()[23], "relational.le_to_lt"@, Some("ROR"@), replacing("<="@, "<"@)),
        is_row(catalog()[24], "relational.le_to_ge"@, Some("ROR"@), replacing("<="@, ">="@)),
        is_row(catalog()[25], "relational.gt_to_ge"@, Some("ROR"@), replacing(">"@, ">="@)),
        is_row(catalog()[26], "relational.gt_to_lt"@, Some("ROR"@), replacing(">"@, "<"@)),
        is_row(catalog()[27], "relational.ge_to_gt"@, Some("ROR"@), replacing(">="@, ">"@)),
        is_row(catalog()[28], "relational.ge_to_le"@, Some("ROR"@), replacing(">="@, "<="@)),
        is_row(catalog()[29], "relational.eq_to_ne"@, Some("ROR"@), replacing("=="@, "!="@)),
        is_row(catalog()[30], "relational.ne_to_eq"@, Some("ROR"@), replacing("!="@, "=="@)),
        is_row(catalog()[31], "arith.add_to_sub"@, Some("AOR"@), replacing("+"@, "-"@)),
        is_row(catalog()[32], "arith.add_to_mul"@, Some("AOR"@), replacing("+"@, "*"@)),
        is_row(catalog()[33], "arith.sub_to_add"@, Some("AOR"@), replacing("-"@, "+"@)),
        is_row(catalog()[34], "arith.sub_to_div"@, Some("AOR"@), replacing("-"@, "/"@)),
        is_row(catalog()[35], "arith.mul_to_div"@, Some("AOR"@), replacing("*"@, "/"@)),
        is_row(catalog()[36], "arith.mul_to_add"@, Some("AOR"@), replacing("*"@, "+"@)),
        is_row(catalog()[37], "arith.div_to_mul"@, Some("AOR"@), replacing("/"@, "*"@)),
        is_row(catalog()[38], "arith.div_to_rem"@, Some("AOR"@), replacing("/"@, "%"@)),
        is_row(catalog()[39], "arith.rem_to_div"@, Some("AOR"@), replacing("%"@, "/"@)),
        is_row(catalog()[40], "arith.rem_to_mul"@, Some("AOR"@), replacing("%"@, "*"@)),
        is_row(catalog()[41], "bitwise.and_to_or"@, Some("AOR"@), replacing("&"@, "|"@)),
        is_row(catalog()[42], "bitwise.or_to_and"@, Some("AOR"@), replacing("|"@, "&"@)),
        is_row(catalog()[43], "bitwise.xor_to_and"@, Some("AOR"@), replacing("^"@, "&"@)),
        is_row(catalog()[44], "bitwise.and_to_xor"@, Some("AOR"@), replacing("&"@, "^"@)),
        is_row(catalog()[45], "shift.shl_to_shr"@, Some("AOR"@), replacing("<<"@, ">>"@)),
        is_row(catalog()[46], "shift.shr_to_shl"@, Some("AOR"@), replacing(">>"@, "<<"@)),
        is_row(catalog()[47], "assign.add_to_sub"@, Some("ASR"@), replacing("+="@, "-="@)),
        is_row(catalog()[48], "assign.sub_to_add"@, Some("ASR"@), replacing("-="@, "+="@)),
        is_row(catalog()[49], "assign.mul_to_div"@, Some("ASR"@), replacing("*="@, "/="@)),
        is_row(catalog()[50], "assign.div_to_mul"@, Some("ASR"@), replacing("/="@, "*="@)),
        is_row(catalog()[51], "assign.rem_to_div"@, Some("ASR"@), replacing("%="@, "/="@)),
        is_row(catalog()[52], "assign.and_to_or"@, Some("ASR"@), replacing("&="@, "|="@)),
        is_row(catalog()[53], "assign.or_to_and"@, Some("ASR"@), replacing("|="@, "&="@)),
        is_row(catalog()[54], "assign.xor_to_and"@, Some("ASR"@), replacing("^="@, "&="@)),
        is_row(catalog()[55], "assign.shl_to_shr"@, Some("ASR"@), replacing("<<="@, ">>="@)),
        is_row(catalog()[56], "assign.shr_to_shl"@, Some("ASR"@), replacing(">>="@, "<<="@)),
        is_row(catalog()[57], "logical.and_to_or"@, Some("LCR"@), replacing("&&"@, "||"@)),
        is_row(catalog()[58], "logical.or_to_and"@, Some("LCR"@), replacing("||"@, "&&"@)),
        is_row(catalog()[59], "cond.negate"@, Some("COR"@), "negate a branch condition"@),
        is_row(catalog()[60], "cond.always_true"@, Some("COR"@), "force a branch condition to true"@),
        is_row(catalog()[61], "cond.always_false"@, Some("COR"@), "force a branch condition to false"@),
        is_row(catalog()[62], "match_guard.negate"@, Some("COR"@), "negate a match arm's guard"@),
        is_row(catalog()[63], "match_guard.always_true"@, Some("COR"@), "force a match arm's guard to true"@),
        is_row(catalog()[64], "match_guard.always_false"@, Some("COR"@), "force a match arm's guard to false"@),
        is_row(catalog()[65], "match_arm.never_matches"@, Some("SDL"@), "stop a match arm from matching, falling through to the wildcard"@),
        is_row(catalog()[66], "struct_field.omit"@, Some("SDL"@), "omit a struct literal field, leaving the base expression to supply it"@),
        is_row(catalog()[67], "range.exclusive_to_inclusive"@, Some("ROR"@), "extend a .. range to cover its endpoint"@),
        is_row(catalog()[68], "range.inclusive_to_exclusive"@, Some("ROR"@), "shrink a ..= range to stop short of its endpoint"@),
        is_row(catalog()[69], "loop.break_to_continue"@, None, replacing("break"@, "continue"@)),
        is_row(catalog()[70], "loop.continue_to_break"@, None, replacing("continue"@, "break"@)),
        is_row(catalog()[71], "loop.delete_break"@, Some("SDL"@), "delete a break statement"@),
        is_row(catalog()[72], "loop.delete_continue"@, Some("SDL"@), "delete a continue statement"@),
        is_row(catalog()[73], "unary.remove_neg"@, Some("UOI"@), "remove a unary minus"@),
        is_row(catalog()[74], "unary.remove_not"@, Some("UOI"@), "remove a unary not"@),
        is_row(catalog()[75], "literal.int_to_zero"@, Some("CRP"@), "replace an integer literal with 0"@),
        is_row(catalog()[76], "literal.int_to_one"@, Some("CRP"@), "replace an integer literal with 1"@),
        is_row(catalog()[77], "literal.int_increment"@, Some("CRP"@), "add one to an integer literal"@),
        is_row(catalog()[78], "literal.int_decrement"@, Some("CRP"@), "subtract one from an integer literal"@),
        is_row(catalog()[79], "literal.bool_flip"@, Some("CRP"@), "invert a boolean literal"@),
        is_row(catalog()[80], "literal.str_to_empty"@, Some("CRP"@), "replace a string literal with an empty string"@),
        is_row(catalog()[81], "literal.str_to_xyzzy"@, Some("CRP"@), "replace a string literal with a different string"@),
        is_row(catalog()[82], "stmt.delete_call"@, Some("SDL"@), "delete a statement whose value is discarded"@),
        is_row(catalog()[83], "stmt.delete_assign"@, Some("SDL"@), "delete an assignment statement, plain or compound"@),
        is_row(catalog()[84], "expr.increment"@, Some("EVR"@), "add one to a numeric expression in a boundary-sensitive position"@),
        is_row(catalog()[85], "expr.decrement"@, Some("EVR"@), "subtract one from a numeric expression in a boundary-sensitive position"@),
        is_row(catalog()[86], "option.some_to_none"@, Some("EVR"@), replacing("Some(value)"@, "None"@)),
        is_row(catalog()[87], "option.none_to_some"@, Some("EVR"@), replacing("None"@, "Some(Default::default())"@)),
        is_row(catalog()[88], "result.ok_to_err"@, Some("EVR"@), replacing("Ok(value)"@, "Err(Default::default())"@)),
        is_row(catalog()[89], "result.err_to_ok"@, Some("EVR"@), replacing("Err(value)"@, "Ok(Default::default())"@)),
        is_row(catalog()[90], "iter.any_to_all"@, Some("EVR"@), replacing("any"@, "all"@)),
        is_row(catalog()[91], "iter.all_to_any"@, Some("EVR"@), replacing("all"@, "any"@)),
        is_row(catalog()[92], "iter.min_to_max"@, Some("EVR"@), replacing("min"@, "max"@)),
        is_row(catalog()[93], "iter.max_to_min"@, Some("EVR"@), replacing("max"@, "min"@)),
        is_row(catalog()[94], "iter.first_to_last"@, Some("EVR"@), replacing("first"@, "last"@)),
        is_row(catalog()[95], "iter.last_to_first"@, Some("EVR"@), replacing("last"@, "first"@)),
        is_row(catalog()[96], "iter.remove_sort"@, Some("SDL"@), "remove a sort from a chain"@),
        is_row(catalog()[97], "iter.remove_dedup"@, Some("SDL"@), "remove a deduplication from a chain"@),
        is_row(catalog()[98], "string.starts_with_to_ends_with"@, Some("EVR"@), replacing("starts_with"@, "ends_with"@)),
        is_row(catalog()[99], "string.ends_with_to_starts_with"@, Some("EVR"@), replacing("ends_with"@, "starts_with"@)),
        is_row(catalog()[100], "string.lower_to_upper"@, Some("EVR"@), replacing("to_lowercase"@, "to_uppercase"@)),
        is_row(catalog()[101], "string.upper_to_lower"@, Some("EVR"@), replacing("to_uppercase"@, "to_lowercase"@)),
        is_row(catalog()[102], "string.trim_start_to_trim_end"@, Some("EVR"@), replacing("trim_start"@, "trim_end"@)),
        is_row(catalog()[103], "string.trim_end_to_trim_start"@, Some("EVR"@), replacing("trim_end"@, "trim_start"@)),
        is_row(catalog()[104], "collection.omit_element"@, Some("SDL"@), "omit an element from a vec! literal"@),
        is_row(catalog()[105], "assign_value.default"@, Some("EVR"@), "replace an assigned value with its type's default"@),
{
    reveal(catalog);
    let rows_0 = function_value_replacement(Seq::<Entry>::empty());
    lemma_function_value_replacement(Seq::<Entry>::empty());
    let rows_1 = relational_and_boundary(rows_0);
    lemma_relational_and_boundary(rows_0);
    let rows_2 = arithmetic(rows_1);
    lemma_arithmetic(rows_1);
    let rows_3 = bitwise_and_shift(rows_2);
    lemma_bitwise_and_shift(rows_2);
    let rows_4 = compound_assignment(rows_3);
    lemma_compound_assignment(rows_3);
    let rows_5 = logical_and_condition(rows_4);
    lemma_logical_and_condition(rows_4);
    let rows_6 = match_guards_the(rows_5);
    lemma_match_guards_the(rows_5);
    let rows_7 = match_arms(rows_6);
    lemma_match_arms(rows_6);
    let rows_8 = struct_literals(rows_7);
    lemma_struct_literals(rows_7);
    let rows_9 = ranges(rows_8);
    lemma_ranges(rows_8);
    let rows_10 = loop_control_flow(rows_9);
    lemma_loop_control_flow(rows_9);
    let rows_11 = unary(rows_10);
    lemma_unary(rows_10);
    let rows_12 = literals(rows_11);
    lemma_literals(rows_11);
    let rows_13 = statement_deletion_and(rows_12);
    lemma_statement_deletion_and(rows_12);
    let rows_14 = focused_numeric_perturbation(rows_13);
    lemma_focused_numeric_perturbation(rows_13);
    let rows_15 = option_and_result(rows_14);
    lemma_option_and_result(rows_14);
    let rows_16 = iterator_quantifiers_and(rows_15);
    lemma_iterator_quantifiers_and(rows_15);
    let rows_17 = string_semantics(rows_16);
    lemma_string_semantics(rows_16);
    let rows_18 = collection_construction(rows_17);
    lemma_collection_construction(rows_17);
    let rows_19 = assignment_values(rows_18);
    lemma_assignment_values(rows_18);
}

/// Whether a preset is named so, and this is said of it.
pub open spec fn is_preset(group: Group, name: Seq<char>, description: Seq<char>) -> bool {
    group.name == name && group.description == description
}

/// The presets, in registry order, and what is said of each.
pub proof fn law_the_registry_lists_these_presets()
    ensures
        preset_groups().len() == 12,
        is_preset(preset_groups()[0], "all"@, "every registered mutator"@),
        is_preset(preset_groups()[1], "default"@, "the mutators enabled when none are named"@),
        is_preset(preset_groups()[2], "pedantic"@, "additional low-yield mutations excluded from the default selection"@),
        is_preset(preset_groups()[3], "boundary"@, "relational and boundary conditions"@),
        is_preset(preset_groups()[4], "arithmetic"@, "arithmetic, bitwise, shift and compound assignment"@),
        is_preset(preset_groups()[5], "logical"@, "logical operators and branch conditions"@),
        is_preset(preset_groups()[6], "control"@, "the choices control flow makes: conditions, guards, arms and loop exits"@),
        is_preset(preset_groups()[7], "removal"@, "statement and side-effect deletion"@),
        is_preset(preset_groups()[8], "semantics"@, "standard-library meaning: Option, Result, iterators, strings and collections"@),
        is_preset(preset_groups()[9], "literals"@, "literal and constant replacement"@),
        is_preset(preset_groups()[10], "numeric"@, "literal replacement and focused numeric expression perturbation"@),
        is_preset(preset_groups()[11], "extreme"@, "a synonym for `all`, kept because scripts name it"@),
{
    reveal(preset_groups);
}

} // verus!
