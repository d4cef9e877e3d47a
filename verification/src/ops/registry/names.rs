//! What the names in the catalog are made of: which family each entry belongs to.
use crate::ops::registry::catalog::{
    arithmetic, assignment_values, bitwise_and_shift, catalog, collection_construction, compound_assignment,
    focused_numeric_perturbation, function_value_replacement, iterator_quantifiers_and, literals,
    logical_and_condition, loop_control_flow, match_arms, match_guards_the, option_and_result, ranges,
    relational_and_boundary, statement_deletion_and, string_semantics, struct_literals, unary,
};
use crate::ops::registry::lookup::family_of;
use crate::ops::registry::Entry;
use crate::text::{index_from, lemma_index_from};
use vstd::prelude::*;

verus! {

/// Whether a name is a family, a dot, and something more.
pub open spec fn is_of(name: Seq<char>, family: Seq<char>) -> bool {
    family_of(name) == family && family.len() < name.len()
}

/// Whether a text has no dot in it.
pub open spec fn is_undotted(text: Seq<char>) -> bool {
    forall|i: int| 0 <= i < text.len() ==> #[trigger] text[i] != '.'
}

/// Whether the entries from `from` up to `to` all belong to a family, and are all on by default but for
/// the one that is not.
pub open spec fn is_stretch(rows: Seq<Entry>, from: nat, to: nat, family: Seq<char>) -> bool {
    forall|i: int|
        from <= i < to ==> is_of((#[trigger] rows[i]).name, family) && (rows[i].default_on <==> rows[i].name
            != "fn_value.some"@)
}

/// Whether one table begins with another.
pub open spec fn goes_on(before: Seq<Entry>, after: Seq<Entry>, more: nat) -> bool {
    after.len() == before.len() + more && forall|i: int| 0 <= i < before.len() ==> #[trigger] after[i] == before[i]
}

/// Where a character first stands is where it is found.
pub proof fn lemma_found_at(text: Seq<char>, c: char, from: int, at: int)
    requires
        0 <= from <= at < text.len(),
        text[at] == c,
        forall|i: int| from <= i < at ==> text[i] != c,
    ensures
        index_from(text, c, from) == at,
    decreases at - from,
{
    if from < at {
        lemma_found_at(text, c, from + 1, at);
    }
}

/// What stands before the first dot of a text has no dot in it.
pub proof fn lemma_family_undotted(name: Seq<char>)
    ensures
        is_undotted(family_of(name)),
{
    lemma_index_from(name, '.', 0);
    lemma_before_found(name, '.', 0);
}

proof fn lemma_before_found(text: Seq<char>, c: char, from: int)
    requires
        0 <= from <= text.len(),
    ensures
        forall|i: int| from <= i < index_from(text, c, from) ==> text[i] != c,
    decreases text.len() - from,
{
    if from < text.len() && text[from] != c {
        lemma_before_found(text, c, from + 1);
    }
}

/// A name is of the family that stands before its first dot.
proof fn lemma_named(name: Seq<char>, family: Seq<char>)
    requires
        family.len() < name.len(),
        name[family.len() as int] == '.',
        name.take(family.len() as int) =~= family,
        is_undotted(family),
    ensures
        is_of(name, family),
        family != "fn_value"@ ==> name != "fn_value.some"@,
{
    assert forall|i: int| 0 <= i < family.len() implies name[i] != '.' by {
        assert(name[i] == family[i]);
    }
    lemma_found_at(name, '.', 0, family.len() as int);
    if name == "fn_value.some"@ {
        reveal_strlit("fn_value");
        reveal_strlit("fn_value.some");
        lemma_found_at(name, '.', 0, 8);
        assert(family =~= "fn_value"@);
    }
}

proof fn lemma_function_value_replacement(before: Seq<Entry>)
    ensures
        goes_on(before, function_value_replacement(before), 21),
        is_stretch(function_value_replacement(before), before.len(), before.len() + 21, "fn_value"@),
{
    let rows = function_value_replacement(before);
    let at = before.len() as int;
    reveal_strlit("fn_value.some");
    reveal_strlit("fn_value");
    assert(is_undotted("fn_value"@));
    reveal_strlit("fn_value.default");
    lemma_named(rows[at].name, "fn_value"@);
    reveal_strlit("fn_value.stated");
    lemma_named(rows[at + 1].name, "fn_value"@);
    reveal_strlit("fn_value.unit");
    lemma_named(rows[at + 2].name, "fn_value"@);
    assert("fn_value.unit"@[9] != "fn_value.some"@[9]);
    reveal_strlit("fn_value.bool_true");
    lemma_named(rows[at + 3].name, "fn_value"@);
    reveal_strlit("fn_value.bool_false");
    lemma_named(rows[at + 4].name, "fn_value"@);
    reveal_strlit("fn_value.zero");
    lemma_named(rows[at + 5].name, "fn_value"@);
    assert("fn_value.zero"@[9] != "fn_value.some"@[9]);
    reveal_strlit("fn_value.one");
    lemma_named(rows[at + 6].name, "fn_value"@);
    reveal_strlit("fn_value.minus_one");
    lemma_named(rows[at + 7].name, "fn_value"@);
    reveal_strlit("fn_value.empty_string");
    lemma_named(rows[at + 8].name, "fn_value"@);
    reveal_strlit("fn_value.xyzzy_string");
    lemma_named(rows[at + 9].name, "fn_value"@);
    reveal_strlit("fn_value.none");
    lemma_named(rows[at + 10].name, "fn_value"@);
    assert("fn_value.none"@[9] != "fn_value.some"@[9]);
    reveal_strlit("fn_value.some_default");
    lemma_named(rows[at + 11].name, "fn_value"@);
    reveal_strlit("fn_value.ok_default");
    lemma_named(rows[at + 12].name, "fn_value"@);
    reveal_strlit("fn_value.err_default");
    lemma_named(rows[at + 13].name, "fn_value"@);
    reveal_strlit("fn_value.err_with");
    lemma_named(rows[at + 14].name, "fn_value"@);
    reveal_strlit("fn_value.two");
    lemma_named(rows[at + 15].name, "fn_value"@);
    reveal_strlit("fn_value.some");
    lemma_named(rows[at + 16].name, "fn_value"@);
    reveal_strlit("fn_value.ok");
    lemma_named(rows[at + 17].name, "fn_value"@);
    reveal_strlit("fn_value.empty_collection");
    lemma_named(rows[at + 18].name, "fn_value"@);
    reveal_strlit("fn_value.one_element");
    lemma_named(rows[at + 19].name, "fn_value"@);
    reveal_strlit("fn_value.tuple");
    lemma_named(rows[at + 20].name, "fn_value"@);
}

proof fn lemma_relational_and_boundary(before: Seq<Entry>)
    ensures
        goes_on(before, relational_and_boundary(before), 10),
        is_stretch(relational_and_boundary(before), before.len(), before.len() + 10, "relational"@),
{
    let rows = relational_and_boundary(before);
    let at = before.len() as int;
    reveal_strlit("fn_value");
    reveal_strlit("relational");
    assert(is_undotted("relational"@));
    reveal_strlit("relational.lt_to_le");
    lemma_named(rows[at].name, "relational"@);
    reveal_strlit("relational.lt_to_gt");
    lemma_named(rows[at + 1].name, "relational"@);
    reveal_strlit("relational.le_to_lt");
    lemma_named(rows[at + 2].name, "relational"@);
    reveal_strlit("relational.le_to_ge");
    lemma_named(rows[at + 3].name, "relational"@);
    reveal_strlit("relational.gt_to_ge");
    lemma_named(rows[at + 4].name, "relational"@);
    reveal_strlit("relational.gt_to_lt");
    lemma_named(rows[at + 5].name, "relational"@);
    reveal_strlit("relational.ge_to_gt");
    lemma_named(rows[at + 6].name, "relational"@);
    reveal_strlit("relational.ge_to_le");
    lemma_named(rows[at + 7].name, "relational"@);
    reveal_strlit("relational.eq_to_ne");
    lemma_named(rows[at + 8].name, "relational"@);
    reveal_strlit("relational.ne_to_eq");
    lemma_named(rows[at + 9].name, "relational"@);
}

proof fn lemma_arithmetic(before: Seq<Entry>)
    ensures
        goes_on(before, arithmetic(before), 10),
        is_stretch(arithmetic(before), before.len(), before.len() + 10, "arith"@),
{
    let rows = arithmetic(before);
    let at = before.len() as int;
    reveal_strlit("fn_value");
    reveal_strlit("arith");
    assert(is_undotted("arith"@));
    reveal_strlit("arith.add_to_sub");
    lemma_named(rows[at].name, "arith"@);
    reveal_strlit("arith.add_to_mul");
    lemma_named(rows[at + 1].name, "arith"@);
    reveal_strlit("arith.sub_to_add");
    lemma_named(rows[at + 2].name, "arith"@);
    reveal_strlit("arith.sub_to_div");
    lemma_named(rows[at + 3].name, "arith"@);
    reveal_strlit("arith.mul_to_div");
    lemma_named(rows[at + 4].name, "arith"@);
    reveal_strlit("arith.mul_to_add");
    lemma_named(rows[at + 5].name, "arith"@);
    reveal_strlit("arith.div_to_mul");
    lemma_named(rows[at + 6].name, "arith"@);
    reveal_strlit("arith.div_to_rem");
    lemma_named(rows[at + 7].name, "arith"@);
    reveal_strlit("arith.rem_to_div");
    lemma_named(rows[at + 8].name, "arith"@);
    reveal_strlit("arith.rem_to_mul");
    lemma_named(rows[at + 9].name, "arith"@);
}

proof fn lemma_bitwise_and_shift(before: Seq<Entry>)
    ensures
        goes_on(before, bitwise_and_shift(before), 6),
        is_stretch(bitwise_and_shift(before), before.len(), before.len() + 4, "bitwise"@),
        is_stretch(bitwise_and_shift(before), before.len() + 4, before.len() + 6, "shift"@),
{
    let rows = bitwise_and_shift(before);
    let at = before.len() as int;
    reveal_strlit("fn_value");
    reveal_strlit("bitwise");
    assert(is_undotted("bitwise"@));
    reveal_strlit("bitwise.and_to_or");
    lemma_named(rows[at].name, "bitwise"@);
    reveal_strlit("bitwise.or_to_and");
    lemma_named(rows[at + 1].name, "bitwise"@);
    reveal_strlit("bitwise.xor_to_and");
    lemma_named(rows[at + 2].name, "bitwise"@);
    reveal_strlit("bitwise.and_to_xor");
    lemma_named(rows[at + 3].name, "bitwise"@);
    reveal_strlit("shift");
    assert(is_undotted("shift"@));
    reveal_strlit("shift.shl_to_shr");
    lemma_named(rows[at + 4].name, "shift"@);
    reveal_strlit("shift.shr_to_shl");
    lemma_named(rows[at + 5].name, "shift"@);
}

proof fn lemma_compound_assignment(before: Seq<Entry>)
    ensures
        goes_on(before, compound_assignment(before), 10),
        is_stretch(compound_assignment(before), before.len(), before.len() + 10, "assign"@),
{
    let rows = compound_assignment(before);
    let at = before.len() as int;
    reveal_strlit("fn_value");
    reveal_strlit("assign");
    assert(is_undotted("assign"@));
    reveal_strlit("assign.add_to_sub");
    lemma_named(rows[at].name, "assign"@);
    reveal_strlit("assign.sub_to_add");
    lemma_named(rows[at + 1].name, "assign"@);
    reveal_strlit("assign.mul_to_div");
    lemma_named(rows[at + 2].name, "assign"@);
    reveal_strlit("assign.div_to_mul");
    lemma_named(rows[at + 3].name, "assign"@);
    reveal_strlit("assign.rem_to_div");
    lemma_named(rows[at + 4].name, "assign"@);
    reveal_strlit("assign.and_to_or");
    lemma_named(rows[at + 5].name, "assign"@);
    reveal_strlit("assign.or_to_and");
    lemma_named(rows[at + 6].name, "assign"@);
    reveal_strlit("assign.xor_to_and");
    lemma_named(rows[at + 7].name, "assign"@);
    reveal_strlit("assign.shl_to_shr");
    lemma_named(rows[at + 8].name, "assign"@);
    reveal_strlit("assign.shr_to_shl");
    lemma_named(rows[at + 9].name, "assign"@);
}

proof fn lemma_logical_and_condition(before: Seq<Entry>)
    ensures
        goes_on(before, logical_and_condition(before), 5),
        is_stretch(logical_and_condition(before), before.len(), before.len() + 2, "logical"@),
        is_stretch(logical_and_condition(before), before.len() + 2, before.len() + 5, "cond"@),
{
    let rows = logical_and_condition(before);
    let at = before.len() as int;
    reveal_strlit("fn_value");
    reveal_strlit("logical");
    assert(is_undotted("logical"@));
    reveal_strlit("logical.and_to_or");
    lemma_named(rows[at].name, "logical"@);
    reveal_strlit("logical.or_to_and");
    lemma_named(rows[at + 1].name, "logical"@);
    reveal_strlit("cond");
    assert(is_undotted("cond"@));
    reveal_strlit("cond.negate");
    lemma_named(rows[at + 2].name, "cond"@);
    reveal_strlit("cond.always_true");
    lemma_named(rows[at + 3].name, "cond"@);
    reveal_strlit("cond.always_false");
    lemma_named(rows[at + 4].name, "cond"@);
}

proof fn lemma_match_guards_the(before: Seq<Entry>)
    ensures
        goes_on(before, match_guards_the(before), 3),
        is_stretch(match_guards_the(before), before.len(), before.len() + 3, "match_guard"@),
{
    let rows = match_guards_the(before);
    let at = before.len() as int;
    reveal_strlit("fn_value");
    reveal_strlit("match_guard");
    assert(is_undotted("match_guard"@));
    reveal_strlit("match_guard.negate");
    lemma_named(rows[at].name, "match_guard"@);
    reveal_strlit("match_guard.always_true");
    lemma_named(rows[at + 1].name, "match_guard"@);
    reveal_strlit("match_guard.always_false");
    lemma_named(rows[at + 2].name, "match_guard"@);
}

proof fn lemma_match_arms(before: Seq<Entry>)
    ensures
        goes_on(before, match_arms(before), 1),
        is_stretch(match_arms(before), before.len(), before.len() + 1, "match_arm"@),
{
    let rows = match_arms(before);
    let at = before.len() as int;
    reveal_strlit("fn_value");
    reveal_strlit("match_arm");
    assert(is_undotted("match_arm"@));
    reveal_strlit("match_arm.never_matches");
    lemma_named(rows[at].name, "match_arm"@);
}

proof fn lemma_struct_literals(before: Seq<Entry>)
    ensures
        goes_on(before, struct_literals(before), 1),
        is_stretch(struct_literals(before), before.len(), before.len() + 1, "struct_field"@),
{
    let rows = struct_literals(before);
    let at = before.len() as int;
    reveal_strlit("fn_value");
    reveal_strlit("struct_field");
    assert(is_undotted("struct_field"@));
    reveal_strlit("struct_field.omit");
    lemma_named(rows[at].name, "struct_field"@);
}

proof fn lemma_ranges(before: Seq<Entry>)
    ensures
        goes_on(before, ranges(before), 2),
        is_stretch(ranges(before), before.len(), before.len() + 2, "range"@),
{
    let rows = ranges(before);
    let at = before.len() as int;
    reveal_strlit("fn_value");
    reveal_strlit("range");
    assert(is_undotted("range"@));
    reveal_strlit("range.exclusive_to_inclusive");
    lemma_named(rows[at].name, "range"@);
    reveal_strlit("range.inclusive_to_exclusive");
    lemma_named(rows[at + 1].name, "range"@);
}

proof fn lemma_loop_control_flow(before: Seq<Entry>)
    ensures
        goes_on(before, loop_control_flow(before), 4),
        is_stretch(loop_control_flow(before), before.len(), before.len() + 4, "loop"@),
{
    let rows = loop_control_flow(before);
    let at = before.len() as int;
    reveal_strlit("fn_value");
    reveal_strlit("loop");
    assert(is_undotted("loop"@));
    reveal_strlit("loop.break_to_continue");
    lemma_named(rows[at].name, "loop"@);
    reveal_strlit("loop.continue_to_break");
    lemma_named(rows[at + 1].name, "loop"@);
    reveal_strlit("loop.delete_break");
    lemma_named(rows[at + 2].name, "loop"@);
    reveal_strlit("loop.delete_continue");
    lemma_named(rows[at + 3].name, "loop"@);
}

proof fn lemma_unary(before: Seq<Entry>)
    ensures
        goes_on(before, unary(before), 2),
        is_stretch(unary(before), before.len(), before.len() + 2, "unary"@),
{
    let rows = unary(before);
    let at = before.len() as int;
    reveal_strlit("fn_value");
    reveal_strlit("unary");
    assert(is_undotted("unary"@));
    reveal_strlit("unary.remove_neg");
    lemma_named(rows[at].name, "unary"@);
    reveal_strlit("unary.remove_not");
    lemma_named(rows[at + 1].name, "unary"@);
}

proof fn lemma_literals(before: Seq<Entry>)
    ensures
        goes_on(before, literals(before), 7),
        is_stretch(literals(before), before.len(), before.len() + 7, "literal"@),
{
    let rows = literals(before);
    let at = before.len() as int;
    reveal_strlit("fn_value");
    reveal_strlit("literal");
    assert(is_undotted("literal"@));
    reveal_strlit("literal.int_to_zero");
    lemma_named(rows[at].name, "literal"@);
    reveal_strlit("literal.int_to_one");
    lemma_named(rows[at + 1].name, "literal"@);
    reveal_strlit("literal.int_increment");
    lemma_named(rows[at + 2].name, "literal"@);
    reveal_strlit("literal.int_decrement");
    lemma_named(rows[at + 3].name, "literal"@);
    reveal_strlit("literal.bool_flip");
    lemma_named(rows[at + 4].name, "literal"@);
    reveal_strlit("literal.str_to_empty");
    lemma_named(rows[at + 5].name, "literal"@);
    reveal_strlit("literal.str_to_xyzzy");
    lemma_named(rows[at + 6].name, "literal"@);
}

proof fn lemma_statement_deletion_and(before: Seq<Entry>)
    ensures
        goes_on(before, statement_deletion_and(before), 2),
        is_stretch(statement_deletion_and(before), before.len(), before.len() + 2, "stmt"@),
{
    let rows = statement_deletion_and(before);
    let at = before.len() as int;
    reveal_strlit("fn_value");
    reveal_strlit("stmt");
    assert(is_undotted("stmt"@));
    reveal_strlit("stmt.delete_call");
    lemma_named(rows[at].name, "stmt"@);
    reveal_strlit("stmt.delete_assign");
    lemma_named(rows[at + 1].name, "stmt"@);
}

proof fn lemma_focused_numeric_perturbation(before: Seq<Entry>)
    ensures
        goes_on(before, focused_numeric_perturbation(before), 2),
        is_stretch(focused_numeric_perturbation(before), before.len(), before.len() + 2, "expr"@),
{
    let rows = focused_numeric_perturbation(before);
    let at = before.len() as int;
    reveal_strlit("fn_value");
    reveal_strlit("expr");
    assert(is_undotted("expr"@));
    reveal_strlit("expr.increment");
    lemma_named(rows[at].name, "expr"@);
    reveal_strlit("expr.decrement");
    lemma_named(rows[at + 1].name, "expr"@);
}

proof fn lemma_option_and_result(before: Seq<Entry>)
    ensures
        goes_on(before, option_and_result(before), 4),
        is_stretch(option_and_result(before), before.len(), before.len() + 2, "option"@),
        is_stretch(option_and_result(before), before.len() + 2, before.len() + 4, "result"@),
{
    let rows = option_and_result(before);
    let at = before.len() as int;
    reveal_strlit("fn_value");
    reveal_strlit("option");
    assert(is_undotted("option"@));
    reveal_strlit("option.some_to_none");
    lemma_named(rows[at].name, "option"@);
    reveal_strlit("option.none_to_some");
    lemma_named(rows[at + 1].name, "option"@);
    reveal_strlit("result");
    assert(is_undotted("result"@));
    reveal_strlit("result.ok_to_err");
    lemma_named(rows[at + 2].name, "result"@);
    reveal_strlit("result.err_to_ok");
    lemma_named(rows[at + 3].name, "result"@);
}

proof fn lemma_iterator_quantifiers_and(before: Seq<Entry>)
    ensures
        goes_on(before, iterator_quantifiers_and(before), 8),
        is_stretch(iterator_quantifiers_and(before), before.len(), before.len() + 8, "iter"@),
{
    let rows = iterator_quantifiers_and(before);
    let at = before.len() as int;
    reveal_strlit("fn_value");
    reveal_strlit("iter");
    assert(is_undotted("iter"@));
    reveal_strlit("iter.any_to_all");
    lemma_named(rows[at].name, "iter"@);
    reveal_strlit("iter.all_to_any");
    lemma_named(rows[at + 1].name, "iter"@);
    reveal_strlit("iter.min_to_max");
    lemma_named(rows[at + 2].name, "iter"@);
    reveal_strlit("iter.max_to_min");
    lemma_named(rows[at + 3].name, "iter"@);
    reveal_strlit("iter.first_to_last");
    lemma_named(rows[at + 4].name, "iter"@);
    reveal_strlit("iter.last_to_first");
    lemma_named(rows[at + 5].name, "iter"@);
    reveal_strlit("iter.remove_sort");
    lemma_named(rows[at + 6].name, "iter"@);
    reveal_strlit("iter.remove_dedup");
    lemma_named(rows[at + 7].name, "iter"@);
}

proof fn lemma_string_semantics(before: Seq<Entry>)
    ensures
        goes_on(before, string_semantics(before), 6),
        is_stretch(string_semantics(before), before.len(), before.len() + 6, "string"@),
{
    let rows = string_semantics(before);
    let at = before.len() as int;
    reveal_strlit("fn_value");
    reveal_strlit("string");
    assert(is_undotted("string"@));
    reveal_strlit("string.starts_with_to_ends_with");
    lemma_named(rows[at].name, "string"@);
    reveal_strlit("string.ends_with_to_starts_with");
    lemma_named(rows[at + 1].name, "string"@);
    reveal_strlit("string.lower_to_upper");
    lemma_named(rows[at + 2].name, "string"@);
    reveal_strlit("string.upper_to_lower");
    lemma_named(rows[at + 3].name, "string"@);
    reveal_strlit("string.trim_start_to_trim_end");
    lemma_named(rows[at + 4].name, "string"@);
    reveal_strlit("string.trim_end_to_trim_start");
    lemma_named(rows[at + 5].name, "string"@);
}

proof fn lemma_collection_construction(before: Seq<Entry>)
    ensures
        goes_on(before, collection_construction(before), 1),
        is_stretch(collection_construction(before), before.len(), before.len() + 1, "collection"@),
{
    let rows = collection_construction(before);
    let at = before.len() as int;
    reveal_strlit("fn_value");
    reveal_strlit("collection");
    assert(is_undotted("collection"@));
    reveal_strlit("collection.omit_element");
    lemma_named(rows[at].name, "collection"@);
}

proof fn lemma_assignment_values(before: Seq<Entry>)
    ensures
        goes_on(before, assignment_values(before), 1),
        is_stretch(assignment_values(before), before.len(), before.len() + 1, "assign_value"@),
{
    let rows = assignment_values(before);
    let at = before.len() as int;
    reveal_strlit("fn_value");
    reveal_strlit("assign_value");
    assert(is_undotted("assign_value"@));
    reveal_strlit("assign_value.default");
    lemma_named(rows[at].name, "assign_value"@);
}

/// The families of the catalog, in order.
pub open spec fn family_names() -> Seq<Seq<char>> {
    seq![
        "fn_value"@,
        "relational"@,
        "arith"@,
        "bitwise"@,
        "shift"@,
        "assign"@,
        "logical"@,
        "cond"@,
        "match_guard"@,
        "match_arm"@,
        "struct_field"@,
        "range"@,
        "loop"@,
        "unary"@,
        "literal"@,
        "stmt"@,
        "expr"@,
        "option"@,
        "result"@,
        "iter"@,
        "string"@,
        "collection"@,
        "assign_value"@,
    ]
}

/// No family is named twice, and none is named like the selector of everything or like a preset.
pub proof fn lemma_family_names()
    ensures
        forall|i: int, j: int| 0 <= i < j < family_names().len() ==> #[trigger] family_names()[i] != #[trigger] family_names()[j],
        forall|i: int|
            0 <= i < family_names().len() ==> #[trigger] family_names()[i] != "all"@ && family_names()[i].len() > 0
                && family_names()[i][0] != '@',
{
    let all = family_names();
    reveal_strlit("all");
    reveal_strlit("fn_value");
    assert(all[0] == "fn_value"@ && all[0].len() == 8 && all[0][0] == 'f' && all[0][1] == 'n');
    reveal_strlit("relational");
    assert(all[1] == "relational"@ && all[1].len() == 10 && all[1][0] == 'r' && all[1][1] == 'e');
    reveal_strlit("arith");
    assert(all[2] == "arith"@ && all[2].len() == 5 && all[2][0] == 'a' && all[2][1] == 'r');
    reveal_strlit("bitwise");
    assert(all[3] == "bitwise"@ && all[3].len() == 7 && all[3][0] == 'b' && all[3][1] == 'i');
    reveal_strlit("shift");
    assert(all[4] == "shift"@ && all[4].len() == 5 && all[4][0] == 's' && all[4][1] == 'h');
    reveal_strlit("assign");
    assert(all[5] == "assign"@ && all[5].len() == 6 && all[5][0] == 'a' && all[5][1] == 's');
    reveal_strlit("logical");
    assert(all[6] == "logical"@ && all[6].len() == 7 && all[6][0] == 'l' && all[6][1] == 'o');
    reveal_strlit("cond");
    assert(all[7] == "cond"@ && all[7].len() == 4 && all[7][0] == 'c' && all[7][1] == 'o');
    reveal_strlit("match_guard");
    assert(all[8] == "match_guard"@ && all[8].len() == 11 && all[8][0] == 'm' && all[8][1] == 'a');
    reveal_strlit("match_arm");
    assert(all[9] == "match_arm"@ && all[9].len() == 9 && all[9][0] == 'm' && all[9][1] == 'a');
    reveal_strlit("struct_field");
    assert(all[10] == "struct_field"@ && all[10].len() == 12 && all[10][0] == 's' && all[10][1] == 't');
    reveal_strlit("range");
    assert(all[11] == "range"@ && all[11].len() == 5 && all[11][0] == 'r' && all[11][1] == 'a');
    reveal_strlit("loop");
    assert(all[12] == "loop"@ && all[12].len() == 4 && all[12][0] == 'l' && all[12][1] == 'o');
    reveal_strlit("unary");
    assert(all[13] == "unary"@ && all[13].len() == 5 && all[13][0] == 'u' && all[13][1] == 'n');
    reveal_strlit("literal");
    assert(all[14] == "literal"@ && all[14].len() == 7 && all[14][0] == 'l' && all[14][1] == 'i');
    reveal_strlit("stmt");
    assert(all[15] == "stmt"@ && all[15].len() == 4 && all[15][0] == 's' && all[15][1] == 't');
    reveal_strlit("expr");
    assert(all[16] == "expr"@ && all[16].len() == 4 && all[16][0] == 'e' && all[16][1] == 'x');
    reveal_strlit("option");
    assert(all[17] == "option"@ && all[17].len() == 6 && all[17][0] == 'o' && all[17][1] == 'p');
    reveal_strlit("result");
    assert(all[18] == "result"@ && all[18].len() == 6 && all[18][0] == 'r' && all[18][1] == 'e');
    reveal_strlit("iter");
    assert(all[19] == "iter"@ && all[19].len() == 4 && all[19][0] == 'i' && all[19][1] == 't');
    reveal_strlit("string");
    assert(all[20] == "string"@ && all[20].len() == 6 && all[20][0] == 's' && all[20][1] == 't');
    reveal_strlit("collection");
    assert(all[21] == "collection"@ && all[21].len() == 10 && all[21][0] == 'c' && all[21][1] == 'o');
    reveal_strlit("assign_value");
    assert(all[22] == "assign_value"@ && all[22].len() == 12 && all[22][0] == 'a' && all[22][1] == 's');
}

/// Where the entries of each family begin in the catalog, and where the last ones end.
pub open spec fn bounds() -> Seq<nat> {
    seq![
        0,
        21,
        31,
        41,
        45,
        47,
        57,
        59,
        62,
        65,
        66,
        67,
        69,
        73,
        75,
        82,
        84,
        86,
        88,
        90,
        98,
        104,
        105,
        106,
    ]
}

/// The entries of each family stand together in the catalog.
#[verifier::spinoff_prover]
#[verifier::rlimit(40)]
pub proof fn lemma_stretches()
    ensures
        bounds().len() == family_names().len() + 1,
        bounds()[0] == 0,
        bounds()[bounds().len() - 1] == catalog().len(),
        forall|k: int| 0 <= k < family_names().len() ==> bounds()[k] < #[trigger] bounds()[k + 1],
        forall|k: int|
            0 <= k < family_names().len() ==> is_stretch(catalog(), bounds()[k], #[trigger] bounds()[k + 1], family_names()[k]),
{
    reveal(catalog);
    let rows_0 = function_value_replacement(Seq::<Entry>::empty());
    lemma_function_value_replacement(Seq::<Entry>::empty());
    let rows_1 = relational_and_boundary(rows_0);
    lemma_relational_and_boundary(rows_0);
    let rows_2 = arithmetic(rows_1);
    lemma_arithmetic(rows_1);
    let rows_3 = bitwise_and_shift(rows_2);
    lemma_bitwise_and_shift(rows_2);
    let rows_4 = compound_assignment(rows_3);
    lemma_compound_assignment(rows_3);
    let rows_5 = logical_and_condition(rows_4);
    lemma_logical_and_condition(rows_4);
    let rows_6 = match_guards_the(rows_5);
    lemma_match_guards_the(rows_5);
    let rows_7 = match_arms(rows_6);
    lemma_match_arms(rows_6);
    let rows_8 = struct_literals(rows_7);
    lemma_struct_literals(rows_7);
    let rows_9 = ranges(rows_8);
    lemma_ranges(rows_8);
    let rows_10 = loop_control_flow(rows_9);
    lemma_loop_control_flow(rows_9);
    let rows_11 = unary(rows_10);
    lemma_unary(rows_10);
    let rows_12 = literals(rows_11);
    lemma_literals(rows_11);
    let rows_13 = statement_deletion_and(rows_12);
    lemma_statement_deletion_and(rows_12);
    let rows_14 = focused_numeric_perturbation(rows_13);
    lemma_focused_numeric_perturbation(rows_13);
    let rows_15 = option_and_result(rows_14);
    lemma_option_and_result(rows_14);
    let rows_16 = iterator_quantifiers_and(rows_15);
    lemma_iterator_quantifiers_and(rows_15);
    let rows_17 = string_semantics(rows_16);
    lemma_string_semantics(rows_16);
    let rows_18 = collection_construction(rows_17);
    lemma_collection_construction(rows_17);
    let rows_19 = assignment_values(rows_18);
    lemma_assignment_values(rows_18);
    assert(catalog() == rows_19);
    assert(is_stretch(catalog(), 0, 21, "fn_value"@));
    assert(is_stretch(catalog(), 21, 31, "relational"@));
    assert(is_stretch(catalog(), 31, 41, "arith"@));
    assert(is_stretch(catalog(), 41, 45, "bitwise"@));
    assert(is_stretch(catalog(), 45, 47, "shift"@));
    assert(is_stretch(catalog(), 47, 57, "assign"@));
    assert(is_stretch(catalog(), 57, 59, "logical"@));
    assert(is_stretch(catalog(), 59, 62, "cond"@));
    assert(is_stretch(catalog(), 62, 65, "match_guard"@));
    assert(is_stretch(catalog(), 65, 66, "match_arm"@));
    assert(is_stretch(catalog(), 66, 67, "struct_field"@));
    assert(is_stretch(catalog(), 67, 69, "range"@));
    assert(is_stretch(catalog(), 69, 73, "loop"@));
    assert(is_stretch(catalog(), 73, 75, "unary"@));
    assert(is_stretch(catalog(), 75, 82, "literal"@));
    assert(is_stretch(catalog(), 82, 84, "stmt"@));
    assert(is_stretch(catalog(), 84, 86, "expr"@));
    assert(is_stretch(catalog(), 86, 88, "option"@));
    assert(is_stretch(catalog(), 88, 90, "result"@));
    assert(is_stretch(catalog(), 90, 98, "iter"@));
    assert(is_stretch(catalog(), 98, 104, "string"@));
    assert(is_stretch(catalog(), 104, 105, "collection"@));
    assert(is_stretch(catalog(), 105, 106, "assign_value"@));
}

/// There is an entry that is off by default.
pub proof fn lemma_off_by_default()
    ensures
        exists|i: int| 0 <= i < catalog().len() && (#[trigger] catalog()[i]).name == "fn_value.some"@,
{
    reveal(catalog);
    lemma_stretches();
    assert(catalog()[16].name == "fn_value.some"@);
}

} // verus!
