//! Telling the names of mutators apart.
use vstd::prelude::*;

verus! {

/// How long a name is, and some of its characters: enough to tell mutators apart by.
pub open spec fn mark(name: Seq<char>) -> (nat, char, char, char, char, char) {
    (name.len(), name[0], name[9], name[name.len() - 1], name[name.len() - 2], name[name.len() - 8])
}

proof fn lemma_marks_0()
    ensures
        mark("fn_value.default"@) == (16nat, 'f', 'd', 't', 'l', '.'),
        mark("fn_value.stated"@) == (15nat, 'f', 's', 'd', 'e', 'e'),
        mark("fn_value.unit"@) == (13nat, 'f', 'u', 't', 'i', 'l'),
        mark("fn_value.bool_true"@) == (18nat, 'f', 'b', 'e', 'u', 'o'),
        mark("fn_value.bool_false"@) == (19nat, 'f', 'b', 'e', 's', 'o'),
        mark("fn_value.zero"@) == (13nat, 'f', 'z', 'o', 'r', 'l'),
        mark("fn_value.one"@) == (12nat, 'f', 'o', 'e', 'n', 'a'),
        mark("fn_value.minus_one"@) == (18nat, 'f', 'm', 'e', 'n', 'i'),
        mark("fn_value.empty_string"@) == (21nat, 'f', 'e', 'g', 'n', 'y'),
        mark("fn_value.xyzzy_string"@) == (21nat, 'f', 'x', 'g', 'n', 'y'),
        mark("fn_value.none"@) == (13nat, 'f', 'n', 'e', 'n', 'l'),
        mark("fn_value.some_default"@) == (21nat, 'f', 's', 't', 'l', '_'),
        mark("fn_value.ok_default"@) == (19nat, 'f', 'o', 't', 'l', '_'),
        mark("fn_value.err_default"@) == (20nat, 'f', 'e', 't', 'l', '_'),
        mark("fn_value.err_with"@) == (17nat, 'f', 'e', 'h', 't', 'e'),
        mark("fn_value.two"@) == (12nat, 'f', 't', 'o', 'w', 'a'),
        mark("fn_value.some"@) == (13nat, 'f', 's', 'e', 'm', 'l'),
        mark("fn_value.ok"@) == (11nat, 'f', 'o', 'k', 'o', 'v'),
        mark("fn_value.empty_collection"@) == (25nat, 'f', 'e', 'n', 'o', 'l'),
        mark("fn_value.one_element"@) == (20nat, 'f', 'o', 't', 'n', '_'),
        mark("fn_value.tuple"@) == (14nat, 'f', 't', 'e', 'l', 'u'),
        mark("relational.lt_to_le"@) == (19nat, 'r', 'l', 'e', 'l', 'l'),
        mark("relational.lt_to_gt"@) == (19nat, 'r', 'l', 't', 'g', 'l'),
        mark("relational.le_to_lt"@) == (19nat, 'r', 'l', 't', 'l', 'l'),
        mark("relational.le_to_ge"@) == (19nat, 'r', 'l', 'e', 'g', 'l'),
        mark("relational.gt_to_ge"@) == (19nat, 'r', 'l', 'e', 'g', 'g'),
        mark("relational.gt_to_lt"@) == (19nat, 'r', 'l', 't', 'l', 'g'),
{
    reveal_strlit("fn_value.default");
    reveal_strlit("fn_value.stated");
    reveal_strlit("fn_value.unit");
    reveal_strlit("fn_value.bool_true");
    reveal_strlit("fn_value.bool_false");
    reveal_strlit("fn_value.zero");
    reveal_strlit("fn_value.one");
    reveal_strlit("fn_value.minus_one");
    reveal_strlit("fn_value.empty_string");
    reveal_strlit("fn_value.xyzzy_string");
    reveal_strlit("fn_value.none");
    reveal_strlit("fn_value.some_default");
    reveal_strlit("fn_value.ok_default");
    reveal_strlit("fn_value.err_default");
    reveal_strlit("fn_value.err_with");
    reveal_strlit("fn_value.two");
    reveal_strlit("fn_value.some");
    reveal_strlit("fn_value.ok");
    reveal_strlit("fn_value.empty_collection");
    reveal_strlit("fn_value.one_element");
    reveal_strlit("fn_value.tuple");
    reveal_strlit("relational.lt_to_le");
    reveal_strlit("relational.lt_to_gt");
    reveal_strlit("relational.le_to_lt");
    reveal_strlit("relational.le_to_ge");
    reveal_strlit("relational.gt_to_ge");
    reveal_strlit("relational.gt_to_lt");
}

proof fn lemma_marks_1()
    ensures
        mark("relational.ge_to_gt"@) == (19nat, 'r', 'l', 't', 'g', 'g'),
        mark("relational.ge_to_le"@) == (19nat, 'r', 'l', 'e', 'l', 'g'),
        mark("relational.eq_to_ne"@) == (19nat, 'r', 'l', 'e', 'n', 'e'),
        mark("relational.ne_to_eq"@) == (19nat, 'r', 'l', 'q', 'e', 'n'),
        mark("arith.add_to_sub"@) == (16nat, 'a', '_', 'b', 'u', 'd'),
        mark("arith.add_to_mul"@) == (16nat, 'a', '_', 'l', 'u', 'd'),
        mark("arith.sub_to_add"@) == (16nat, 'a', '_', 'd', 'd', 'b'),
        mark("arith.sub_to_div"@) == (16nat, 'a', '_', 'v', 'i', 'b'),
        mark("arith.mul_to_div"@) == (16nat, 'a', '_', 'v', 'i', 'l'),
        mark("arith.mul_to_add"@) == (16nat, 'a', '_', 'd', 'd', 'l'),
        mark("arith.div_to_mul"@) == (16nat, 'a', '_', 'l', 'u', 'v'),
        mark("arith.div_to_rem"@) == (16nat, 'a', '_', 'm', 'e', 'v'),
        mark("arith.rem_to_div"@) == (16nat, 'a', '_', 'v', 'i', 'm'),
        mark("arith.rem_to_mul"@) == (16nat, 'a', '_', 'l', 'u', 'm'),
        mark("bitwise.and_to_or"@) == (17nat, 'b', 'n', 'r', 'o', 'n'),
        mark("bitwise.or_to_and"@) == (17nat, 'b', 'r', 'd', 'n', 'r'),
        mark("bitwise.xor_to_and"@) == (18nat, 'b', 'o', 'd', 'n', 'r'),
        mark("bitwise.and_to_xor"@) == (18nat, 'b', 'n', 'r', 'o', 'd'),
        mark("shift.shl_to_shr"@) == (16nat, 's', '_', 'r', 'h', 'l'),
        mark("shift.shr_to_shl"@) == (16nat, 's', '_', 'l', 'h', 'r'),
        mark("assign.add_to_sub"@) == (17nat, 'a', 'd', 'b', 'u', 'd'),
        mark("assign.sub_to_add"@) == (17nat, 'a', 'b', 'd', 'd', 'b'),
        mark("assign.mul_to_div"@) == (17nat, 'a', 'l', 'v', 'i', 'l'),
        mark("assign.div_to_mul"@) == (17nat, 'a', 'v', 'l', 'u', 'v'),
        mark("assign.rem_to_div"@) == (17nat, 'a', 'm', 'v', 'i', 'm'),
        mark("assign.and_to_or"@) == (16nat, 'a', 'd', 'r', 'o', 'n'),
        mark("assign.or_to_and"@) == (16nat, 'a', '_', 'd', 'n', 'r'),
{
    reveal_strlit("relational.ge_to_gt");
    reveal_strlit("relational.ge_to_le");
    reveal_strlit("relational.eq_to_ne");
    reveal_strlit("relational.ne_to_eq");
    reveal_strlit("arith.add_to_sub");
    reveal_strlit("arith.add_to_mul");
    reveal_strlit("arith.sub_to_add");
    reveal_strlit("arith.sub_to_div");
    reveal_strlit("arith.mul_to_div");
    reveal_strlit("arith.mul_to_add");
    reveal_strlit("arith.div_to_mul");
    reveal_strlit("arith.div_to_rem");
    reveal_strlit("arith.rem_to_div");
    reveal_strlit("arith.rem_to_mul");
    reveal_strlit("bitwise.and_to_or");
    reveal_strlit("bitwise.or_to_and");
    reveal_strlit("bitwise.xor_to_and");
    reveal_strlit("bitwise.and_to_xor");
    reveal_strlit("shift.shl_to_shr");
    reveal_strlit("shift.shr_to_shl");
    reveal_strlit("assign.add_to_sub");
    reveal_strlit("assign.sub_to_add");
    reveal_strlit("assign.mul_to_div");
    reveal_strlit("assign.div_to_mul");
    reveal_strlit("assign.rem_to_div");
    reveal_strlit("assign.and_to_or");
    reveal_strlit("assign.or_to_and");
}

proof fn lemma_marks_2()
    ensures
        mark("assign.xor_to_and"@) == (17nat, 'a', 'r', 'd', 'n', 'r'),
        mark("assign.shl_to_shr"@) == (17nat, 'a', 'l', 'r', 'h', 'l'),
        mark("assign.shr_to_shl"@) == (17nat, 'a', 'r', 'l', 'h', 'r'),
        mark("logical.and_to_or"@) == (17nat, 'l', 'n', 'r', 'o', 'n'),
        mark("logical.or_to_and"@) == (17nat, 'l', 'r', 'd', 'n', 'r'),
        mark("cond.negate"@) == (11nat, 'c', 't', 'e', 't', 'd'),
        mark("cond.always_true"@) == (16nat, 'c', 'y', 'e', 'u', 'a'),
        mark("cond.always_false"@) == (17nat, 'c', 'y', 'e', 's', 'y'),
        mark("match_guard.negate"@) == (18nat, 'm', 'r', 'e', 't', 'd'),
        mark("match_guard.always_true"@) == (23nat, 'm', 'r', 'e', 'u', 'a'),
        mark("match_guard.always_false"@) == (24nat, 'm', 'r', 'e', 's', 'y'),
        mark("match_arm.never_matches"@) == (23nat, 'm', '.', 's', 'e', '_'),
        mark("struct_field.omit"@) == (17nat, 's', 'e', 't', 'i', 'e'),
        mark("range.exclusive_to_inclusive"@) == (28nat, 'r', 'l', 'e', 'v', 'n'),
        mark("range.inclusive_to_exclusive"@) == (28nat, 'r', 'l', 'e', 'v', 'x'),
        mark("loop.break_to_continue"@) == (22nat, 'l', 'k', 'e', 'u', 'c'),
        mark("loop.continue_to_break"@) == (22nat, 'l', 'i', 'k', 'a', 't'),
        mark("loop.delete_break"@) == (17nat, 'l', 't', 'k', 'a', 't'),
        mark("loop.delete_continue"@) == (20nat, 'l', 't', 'e', 'u', 'c'),
        mark("unary.remove_neg"@) == (16nat, 'u', 'o', 'g', 'e', 'm'),
        mark("unary.remove_not"@) == (16nat, 'u', 'o', 't', 'o', 'm'),
        mark("literal.int_to_zero"@) == (19nat, 'l', 'n', 'o', 'r', '_'),
        mark("literal.int_to_one"@) == (18nat, 'l', 'n', 'e', 'n', 't'),
        mark("literal.int_increment"@) == (21nat, 'l', 'n', 't', 'n', 'n'),
        mark("literal.int_decrement"@) == (21nat, 'l', 'n', 't', 'n', 'e'),
        mark("literal.bool_flip"@) == (17nat, 'l', 'o', 'p', 'i', 'o'),
        mark("literal.str_to_empty"@) == (20nat, 'l', 't', 'y', 't', 't'),
{
    reveal_strlit("assign.xor_to_and");
    reveal_strlit("assign.shl_to_shr");
    reveal_strlit("assign.shr_to_shl");
    reveal_strlit("logical.and_to_or");
    reveal_strlit("logical.or_to_and");
    reveal_strlit("cond.negate");
    reveal_strlit("cond.always_true");
    reveal_strlit("cond.always_false");
    reveal_strlit("match_guard.negate");
    reveal_strlit("match_guard.always_true");
    reveal_strlit("match_guard.always_false");
    reveal_strlit("match_arm.never_matches");
    reveal_strlit("struct_field.omit");
    reveal_strlit("range.exclusive_to_inclusive");
    reveal_strlit("range.inclusive_to_exclusive");
    reveal_strlit("loop.break_to_continue");
    reveal_strlit("loop.continue_to_break");
    reveal_strlit("loop.delete_break");
    reveal_strlit("loop.delete_continue");
    reveal_strlit("unary.remove_neg");
    reveal_strlit("unary.remove_not");
    reveal_strlit("literal.int_to_zero");
    reveal_strlit("literal.int_to_one");
    reveal_strlit("literal.int_increment");
    reveal_strlit("literal.int_decrement");
    reveal_strlit("literal.bool_flip");
    reveal_strlit("literal.str_to_empty");
}

proof fn lemma_marks_3()
    ensures
        mark("literal.str_to_xyzzy"@) == (20nat, 'l', 't', 'y', 'z', 't'),
        mark("stmt.delete_call"@) == (16nat, 's', 't', 'l', 'l', 'e'),
        mark("stmt.delete_assign"@) == (18nat, 's', 't', 'n', 'g', 'e'),
        mark("expr.increment"@) == (14nat, 'e', 'e', 't', 'n', 'n'),
        mark("expr.decrement"@) == (14nat, 'e', 'e', 't', 'n', 'e'),
        mark("option.some_to_none"@) == (19nat, 'o', 'm', 'e', 'n', '_'),
        mark("option.none_to_some"@) == (19nat, 'o', 'n', 'e', 'm', '_'),
        mark("result.ok_to_err"@) == (16nat, 'r', '_', 'r', 'r', 'k'),
        mark("result.err_to_ok"@) == (16nat, 'r', 'r', 'k', 'o', 'r'),
        mark("iter.any_to_all"@) == (15nat, 'i', 't', 'l', 'l', 'y'),
        mark("iter.all_to_any"@) == (15nat, 'i', 't', 'y', 'n', 'l'),
        mark("iter.min_to_max"@) == (15nat, 'i', 't', 'x', 'a', 'n'),
        mark("iter.max_to_min"@) == (15nat, 'i', 't', 'n', 'i', 'x'),
        mark("iter.first_to_last"@) == (18nat, 'i', 't', 't', 's', '_'),
        mark("iter.last_to_first"@) == (18nat, 'i', '_', 't', 's', 't'),
        mark("iter.remove_sort"@) == (16nat, 'i', 'v', 't', 'r', 'o'),
        mark("iter.remove_dedup"@) == (17nat, 'i', 'v', 'p', 'u', 'v'),
        mark("string.starts_with_to_ends_with"@) == (31nat, 's', 'a', 'h', 't', 'n'),
        mark("string.ends_with_to_starts_with"@) == (31nat, 's', 'd', 'h', 't', 'r'),
        mark("string.lower_to_upper"@) == (21nat, 's', 'w', 'r', 'e', 't'),
        mark("string.upper_to_lower"@) == (21nat, 's', 'p', 'r', 'e', 't'),
        mark("string.trim_start_to_trim_end"@) == (29nat, 's', 'i', 'd', 'n', 't'),
        mark("string.trim_end_to_trim_start"@) == (29nat, 's', 'i', 't', 'r', 'i'),
        mark("collection.omit_element"@) == (23nat, 'c', 'n', 't', 'n', '_'),
        mark("assign_value.default"@) == (20nat, 'a', 'l', 't', 'l', '.'),
{
    reveal_strlit("literal.str_to_xyzzy");
    reveal_strlit("stmt.delete_call");
    reveal_strlit("stmt.delete_assign");
    reveal_strlit("expr.increment");
    reveal_strlit("expr.decrement");
    reveal_strlit("option.some_to_none");
    reveal_strlit("option.none_to_some");
    reveal_strlit("result.ok_to_err");
    reveal_strlit("result.err_to_ok");
    reveal_strlit("iter.any_to_all");
    reveal_strlit("iter.all_to_any");
    reveal_strlit("iter.min_to_max");
    reveal_strlit("iter.max_to_min");
    reveal_strlit("iter.first_to_last");
    reveal_strlit("iter.last_to_first");
    reveal_strlit("iter.remove_sort");
    reveal_strlit("iter.remove_dedup");
    reveal_strlit("string.starts_with_to_ends_with");
    reveal_strlit("string.ends_with_to_starts_with");
    reveal_strlit("string.lower_to_upper");
    reveal_strlit("string.upper_to_lower");
    reveal_strlit("string.trim_start_to_trim_end");
    reveal_strlit("string.trim_end_to_trim_start");
    reveal_strlit("collection.omit_element");
    reveal_strlit("assign_value.default");
}

/// No two mutators have the same mark.
pub(crate) proof fn lemma_marks()
    ensures
        mark("fn_value.default"@) == (16nat, 'f', 'd', 't', 'l', '.'),
        mark("fn_value.stated"@) == (15nat, 'f', 's', 'd', 'e', 'e'),
        mark("fn_value.unit"@) == (13nat, 'f', 'u', 't', 'i', 'l'),
        mark("fn_value.bool_true"@) == (18nat, 'f', 'b', 'e', 'u', 'o'),
        mark("fn_value.bool_false"@) == (19nat, 'f', 'b', 'e', 's', 'o'),
        mark("fn_value.zero"@) == (13nat, 'f', 'z', 'o', 'r', 'l'),
        mark("fn_value.one"@) == (12nat, 'f', 'o', 'e', 'n', 'a'),
        mark("fn_value.minus_one"@) == (18nat, 'f', 'm', 'e', 'n', 'i'),
        mark("fn_value.empty_string"@) == (21nat, 'f', 'e', 'g', 'n', 'y'),
        mark("fn_value.xyzzy_string"@) == (21nat, 'f', 'x', 'g', 'n', 'y'),
        mark("fn_value.none"@) == (13nat, 'f', 'n', 'e', 'n', 'l'),
        mark("fn_value.some_default"@) == (21nat, 'f', 's', 't', 'l', '_'),
        mark("fn_value.ok_default"@) == (19nat, 'f', 'o', 't', 'l', '_'),
        mark("fn_value.err_default"@) == (20nat, 'f', 'e', 't', 'l', '_'),
        mark("fn_value.err_with"@) == (17nat, 'f', 'e', 'h', 't', 'e'),
        mark("fn_value.two"@) == (12nat, 'f', 't', 'o', 'w', 'a'),
        mark("fn_value.some"@) == (13nat, 'f', 's', 'e', 'm', 'l'),
        mark("fn_value.ok"@) == (11nat, 'f', 'o', 'k', 'o', 'v'),
        mark("fn_value.empty_collection"@) == (25nat, 'f', 'e', 'n', 'o', 'l'),
        mark("fn_value.one_element"@) == (20nat, 'f', 'o', 't', 'n', '_'),
        mark("fn_value.tuple"@) == (14nat, 'f', 't', 'e', 'l', 'u'),
        mark("relational.lt_to_le"@) == (19nat, 'r', 'l', 'e', 'l', 'l'),
        mark("relational.lt_to_gt"@) == (19nat, 'r', 'l', 't', 'g', 'l'),
        mark("relational.le_to_lt"@) == (19nat, 'r', 'l', 't', 'l', 'l'),
        mark("relational.le_to_ge"@) == (19nat, 'r', 'l', 'e', 'g', 'l'),
        mark("relational.gt_to_ge"@) == (19nat, 'r', 'l', 'e', 'g', 'g'),
        mark("relational.gt_to_lt"@) == (19nat, 'r', 'l', 't', 'l', 'g'),
        mark("relational.ge_to_gt"@) == (19nat, 'r', 'l', 't', 'g', 'g'),
        mark("relational.ge_to_le"@) == (19nat, 'r', 'l', 'e', 'l', 'g'),
        mark("relational.eq_to_ne"@) == (19nat, 'r', 'l', 'e', 'n', 'e'),
        mark("relational.ne_to_eq"@) == (19nat, 'r', 'l', 'q', 'e', 'n'),
        mark("arith.add_to_sub"@) == (16nat, 'a', '_', 'b', 'u', 'd'),
        mark("arith.add_to_mul"@) == (16nat, 'a', '_', 'l', 'u', 'd'),
        mark("arith.sub_to_add"@) == (16nat, 'a', '_', 'd', 'd', 'b'),
        mark("arith.sub_to_div"@) == (16nat, 'a', '_', 'v', 'i', 'b'),
        mark("arith.mul_to_div"@) == (16nat, 'a', '_', 'v', 'i', 'l'),
        mark("arith.mul_to_add"@) == (16nat, 'a', '_', 'd', 'd', 'l'),
        mark("arith.div_to_mul"@) == (16nat, 'a', '_', 'l', 'u', 'v'),
        mark("arith.div_to_rem"@) == (16nat, 'a', '_', 'm', 'e', 'v'),
        mark("arith.rem_to_div"@) == (16nat, 'a', '_', 'v', 'i', 'm'),
        mark("arith.rem_to_mul"@) == (16nat, 'a', '_', 'l', 'u', 'm'),
        mark("bitwise.and_to_or"@) == (17nat, 'b', 'n', 'r', 'o', 'n'),
        mark("bitwise.or_to_and"@) == (17nat, 'b', 'r', 'd', 'n', 'r'),
        mark("bitwise.xor_to_and"@) == (18nat, 'b', 'o', 'd', 'n', 'r'),
        mark("bitwise.and_to_xor"@) == (18nat, 'b', 'n', 'r', 'o', 'd'),
        mark("shift.shl_to_shr"@) == (16nat, 's', '_', 'r', 'h', 'l'),
        mark("shift.shr_to_shl"@) == (16nat, 's', '_', 'l', 'h', 'r'),
        mark("assign.add_to_sub"@) == (17nat, 'a', 'd', 'b', 'u', 'd'),
        mark("assign.sub_to_add"@) == (17nat, 'a', 'b', 'd', 'd', 'b'),
        mark("assign.mul_to_div"@) == (17nat, 'a', 'l', 'v', 'i', 'l'),
        mark("assign.div_to_mul"@) == (17nat, 'a', 'v', 'l', 'u', 'v'),
        mark("assign.rem_to_div"@) == (17nat, 'a', 'm', 'v', 'i', 'm'),
        mark("assign.and_to_or"@) == (16nat, 'a', 'd', 'r', 'o', 'n'),
        mark("assign.or_to_and"@) == (16nat, 'a', '_', 'd', 'n', 'r'),
        mark("assign.xor_to_and"@) == (17nat, 'a', 'r', 'd', 'n', 'r'),
        mark("assign.shl_to_shr"@) == (17nat, 'a', 'l', 'r', 'h', 'l'),
        mark("assign.shr_to_shl"@) == (17nat, 'a', 'r', 'l', 'h', 'r'),
        mark("logical.and_to_or"@) == (17nat, 'l', 'n', 'r', 'o', 'n'),
        mark("logical.or_to_and"@) == (17nat, 'l', 'r', 'd', 'n', 'r'),
        mark("cond.negate"@) == (11nat, 'c', 't', 'e', 't', 'd'),
        mark("cond.always_true"@) == (16nat, 'c', 'y', 'e', 'u', 'a'),
        mark("cond.always_false"@) == (17nat, 'c', 'y', 'e', 's', 'y'),
        mark("match_guard.negate"@) == (18nat, 'm', 'r', 'e', 't', 'd'),
        mark("match_guard.always_true"@) == (23nat, 'm', 'r', 'e', 'u', 'a'),
        mark("match_guard.always_false"@) == (24nat, 'm', 'r', 'e', 's', 'y'),
        mark("match_arm.never_matches"@) == (23nat, 'm', '.', 's', 'e', '_'),
        mark("struct_field.omit"@) == (17nat, 's', 'e', 't', 'i', 'e'),
        mark("range.exclusive_to_inclusive"@) == (28nat, 'r', 'l', 'e', 'v', 'n'),
        mark("range.inclusive_to_exclusive"@) == (28nat, 'r', 'l', 'e', 'v', 'x'),
        mark("loop.break_to_continue"@) == (22nat, 'l', 'k', 'e', 'u', 'c'),
        mark("loop.continue_to_break"@) == (22nat, 'l', 'i', 'k', 'a', 't'),
        mark("loop.delete_break"@) == (17nat, 'l', 't', 'k', 'a', 't'),
        mark("loop.delete_continue"@) == (20nat, 'l', 't', 'e', 'u', 'c'),
        mark("unary.remove_neg"@) == (16nat, 'u', 'o', 'g', 'e', 'm'),
        mark("unary.remove_not"@) == (16nat, 'u', 'o', 't', 'o', 'm'),
        mark("literal.int_to_zero"@) == (19nat, 'l', 'n', 'o', 'r', '_'),
        mark("literal.int_to_one"@) == (18nat, 'l', 'n', 'e', 'n', 't'),
        mark("literal.int_increment"@) == (21nat, 'l', 'n', 't', 'n', 'n'),
        mark("literal.int_decrement"@) == (21nat, 'l', 'n', 't', 'n', 'e'),
        mark("literal.bool_flip"@) == (17nat, 'l', 'o', 'p', 'i', 'o'),
        mark("literal.str_to_empty"@) == (20nat, 'l', 't', 'y', 't', 't'),
        mark("literal.str_to_xyzzy"@) == (20nat, 'l', 't', 'y', 'z', 't'),
        mark("stmt.delete_call"@) == (16nat, 's', 't', 'l', 'l', 'e'),
        mark("stmt.delete_assign"@) == (18nat, 's', 't', 'n', 'g', 'e'),
        mark("expr.increment"@) == (14nat, 'e', 'e', 't', 'n', 'n'),
        mark("expr.decrement"@) == (14nat, 'e', 'e', 't', 'n', 'e'),
        mark("option.some_to_none"@) == (19nat, 'o', 'm', 'e', 'n', '_'),
        mark("option.none_to_some"@) == (19nat, 'o', 'n', 'e', 'm', '_'),
        mark("result.ok_to_err"@) == (16nat, 'r', '_', 'r', 'r', 'k'),
        mark("result.err_to_ok"@) == (16nat, 'r', 'r', 'k', 'o', 'r'),
        mark("iter.any_to_all"@) == (15nat, 'i', 't', 'l', 'l', 'y'),
        mark("iter.all_to_any"@) == (15nat, 'i', 't', 'y', 'n', 'l'),
        mark("iter.min_to_max"@) == (15nat, 'i', 't', 'x', 'a', 'n'),
        mark("iter.max_to_min"@) == (15nat, 'i', 't', 'n', 'i', 'x'),
        mark("iter.first_to_last"@) == (18nat, 'i', 't', 't', 's', '_'),
        mark("iter.last_to_first"@) == (18nat, 'i', '_', 't', 's', 't'),
        mark("iter.remove_sort"@) == (16nat, 'i', 'v', 't', 'r', 'o'),
        mark("iter.remove_dedup"@) == (17nat, 'i', 'v', 'p', 'u', 'v'),
        mark("string.starts_with_to_ends_with"@) == (31nat, 's', 'a', 'h', 't', 'n'),
        mark("string.ends_with_to_starts_with"@) == (31nat, 's', 'd', 'h', 't', 'r'),
        mark("string.lower_to_upper"@) == (21nat, 's', 'w', 'r', 'e', 't'),
        mark("string.upper_to_lower"@) == (21nat, 's', 'p', 'r', 'e', 't'),
        mark("string.trim_start_to_trim_end"@) == (29nat, 's', 'i', 'd', 'n', 't'),
        mark("string.trim_end_to_trim_start"@) == (29nat, 's', 'i', 't', 'r', 'i'),
        mark("collection.omit_element"@) == (23nat, 'c', 'n', 't', 'n', '_'),
        mark("assign_value.default"@) == (20nat, 'a', 'l', 't', 'l', '.'),
{
    lemma_marks_0();
    lemma_marks_1();
    lemma_marks_2();
    lemma_marks_3();
}

} // verus!
