//! The questions the traversal asks of single constructs.
use gamma_engine::cfg::CfgSet;
use gamma_engine::lexer::{read_token, Token};
use gamma_engine::ops::collect::collector::indexes::{indexes_in, Indexes, Walk};
use gamma_engine::ops::collect::collector::noop::{
    call_argument, is_default_call, is_noop, is_same_leak, leaked_value, lexemes, same_tokens,
};
use gamma_engine::ops::collect::collector::predicates::{
    block_diverges, callee_name, callee_path, callee_type, is_capacity_result, is_standard_default_callee, is_textual,
    loop_produces_value, returns_text,
};
use gamma_engine::ops::collect::collector::resolve::{resolve_type, type_argument, Class};
use gamma_engine::ops::collect::collector::tables::{binary_replacements, in_place_reorder, method_renames};
use gamma_engine::ops::collect::collector::types::Types;
use gamma_engine::ops::collect::collector::values::{
    collection_ctor, inner_values, iterator_item, literal_values, reference_elem, reference_values, tuple_values, type_text,
    values_for, RETURN_DEPTH,
};
use gamma_engine::ops::collect::defaults::DefaultPaths;
use gamma_engine::ops::collect::{Defaults, Shape};
use gamma_engine::ops::registry::Selection;
use gamma_engine::syntax::lower::read;
use gamma_engine::syntax::{Kind, Node, Op};
use gamma_engine::table::Table;

/// The first item of a source.
fn item(source: &str) -> Node {
    read(source).expect("the fixture parses").kids.remove(0).kids.remove(0)
}

/// A type.
fn ty(source: &str) -> Node {
    item(&format!("type T = {source};")).kids.remove(2)
}

/// A return type.
fn output(source: &str) -> Node {
    item(&format!("fn f() -> {source} {{}}")).kids.remove(0).kids.remove(3).kids.remove(0)
}

/// An expression.
fn expr(source: &str) -> Node {
    item(&format!("const C: u8 = {source};")).kids.remove(3)
}

/// The path of an expression.
fn path(source: &str) -> Node {
    expr(source).kids.remove(1)
}

/// The body of a function.
fn block(source: &str) -> Node {
    item(&format!("fn f() {source}")).kids.remove(1).kids.remove(0)
}

/// A path without a segment.
fn empty_path() -> Node {
    Node {
        kind: Kind::Path { global: false },
        start: 0,
        end: 0,
        text: String::new(),
        attrs: Vec::new(),
        kids: Vec::new(),
    }
}

/// A list without a part.
fn nothing() -> Node {
    Node { kind: Kind::List, start: 0, end: 0, text: String::new(), attrs: Vec::new(), kids: Vec::new() }
}

/// The operator of a binary expression.
fn operator(source: &str) -> Op {
    match expr(source).kids[1].kind {
        Kind::Operator(op) => op,
        _ => panic!("the fixture is a binary expression"),
    }
}

fn default_paths(source: &str) -> DefaultPaths {
    DefaultPaths::of(&read(source).expect("the fixture parses"))
}

fn walk(numeric: bool, imports: bool, cfg: &CfgSet) -> Walk<'_> {
    Walk { indexes: Indexes::new(), numeric, imports, cfg }
}

// ---- What a file says. ----

#[test]
fn note_tracks_named_fields_behind_references() {
    let cfg = CfgSet::unconditional();
    let mut walk = walk(true, false, &cfg);
    let expression = expr("&record.count");

    walk.note(&expression);

    assert!(walk.indexes.numeric_uses.fields.contains("count"));
}

#[test]
fn declared_ignores_constants_when_numeric_index_is_disabled() {
    let cfg = CfgSet::unconditional();
    let mut walk = walk(false, false, &cfg);
    let ty = ty("usize");

    walk.declared("COUNT", &ty);

    assert!(walk.indexes.constants.is_empty());
}

#[test]
fn descend_handles_groups_renames_and_globs() {
    let cfg = CfgSet::unconditional();
    let mut walk = walk(false, true, &cfg);
    let item = item("use crate::{Thing as Alias, inner::Item, *};");

    walk.descend(&mut Vec::new(), &item.kids[0]);

    assert_eq!(walk.indexes.imports.get("Alias"), Some(&Some(vec!["crate".to_owned()])));
    assert_eq!(
        walk.indexes.imports.get("Item"),
        Some(&Some(vec!["crate".to_owned(), "inner".to_owned()]))
    );
    assert_eq!(walk.indexes.imports.len(), 2);
}
#[test]
fn indexes_collect_static_and_trait_constants_without_named_tuple_fields() {
    let file = read(
        r"
        trait Limits {
            const TRAIT_LIMIT: usize;
        }

        static STATIC_LIMIT: usize = 1;

        struct Pair(usize, usize);

        fn note(limit: usize) {
            let _ = 1 < limit;
        }
        ",
    )
    .expect("the file parses");
    let selection = Selection::parse("expr.increment").expect("the numeric selector resolves");
    let indexes = indexes_in(&file, &selection, &CfgSet::unconditional());

    assert_eq!(indexes.constants.get("STATIC_LIMIT"), Some(&true));
    assert_eq!(indexes.constants.get("TRAIT_LIMIT"), Some(&true));
    assert!(indexes.fields.is_empty());
    assert!(indexes.numeric_uses.names.contains("limit"));
}

/// A field or a constant behind a predicate the active build does not satisfy must not
/// inform the numeric guess for an active same-named field or constant elsewhere in the file.
///
/// The set has to be an enforced one: [`CfgSet::unconditional`] answers every predicate `true`
/// by construction, so nothing is stripped under it and the fixture would prove nothing.
#[test]
fn inactive_fields_and_constants_do_not_pollute_the_index() {
    let file = read(
        r#"
        struct Active {
            count: u32,
        }

        struct Inactive {
            #[cfg(windows)]
            count: String,
        }

        #[cfg(windows)]
        const COUNT: &str = "not built";

        const COUNT: u32 = 1;
        "#,
    )
    .expect("the file parses");
    let selection = Selection::parse("expr.increment").expect("the numeric selector resolves");
    let indexes = indexes_in(&file, &selection, &CfgSet::parse("unix\n"));

    assert_eq!(indexes.fields.get("count"), Some(&true));
    assert_eq!(indexes.constants.get("COUNT"), Some(&true));
}

/// A misplaced or malformed item nested inside an inactive module must not reach this index
/// at all — the module itself never compiles, so nothing inside it should be able to shadow
/// or demote evidence the active build actually relies on.
#[test]
fn items_nested_in_an_inactive_module_are_not_indexed() {
    let file = read(
        r#"
        #[cfg(windows)]
        mod inactive {
            struct S {
                count: String,
            }

            const COUNT: &str = "not built";
        }

        struct S {
            count: u32,
        }

        const COUNT: u32 = 1;
        "#,
    )
    .expect("the file parses");
    let selection = Selection::parse("expr.increment").expect("the numeric selector resolves");
    let indexes = indexes_in(&file, &selection, &CfgSet::parse("unix\n"));

    assert_eq!(indexes.fields.get("count"), Some(&true));
    assert_eq!(indexes.constants.get("COUNT"), Some(&true));
}

/// The collector never offers a mutant in test code, so evidence drawn from test code answers
/// questions about production code it is not part of. What decides is [`CfgSet::skip_gate`], not
/// [`CfgSet::holds_for`], for exactly this: a `#[cfg(test)]` predicate *holds* for the
/// instrumented build, and reading `holds_for` alone let the helper below demote the active
/// `count` and `COUNT` to unknown.
///
/// Unlike the two fixtures above this needs no enforced set, because test code is recognised
/// without consulting whether predicates are enforced at all.
#[test]
fn test_gated_fields_and_constants_do_not_pollute_the_index() {
    let file = read(
        r#"
        struct Active {
            count: u32,
        }

        #[cfg(test)]
        mod tests {
            struct Helper {
                count: String,
            }

            const COUNT: &str = "fixture";
        }

        const COUNT: u32 = 1;
        "#,
    )
    .expect("the file parses");
    let selection = Selection::parse("expr.increment").expect("the numeric selector resolves");
    let indexes = indexes_in(&file, &selection, &CfgSet::unconditional());

    assert_eq!(indexes.fields.get("count"), Some(&true));
    assert_eq!(indexes.constants.get("COUNT"), Some(&true));
}

/// Conditional compilation inside a body is written on statements, which no item visitor ever
/// sees. An inactive `let` says nothing about the binding the build actually has, and a
/// numeric use inside an inactive statement is evidence about code that is not there.
#[test]
fn statements_the_build_discards_are_not_indexed() {
    let file = read(
        r"
        fn f(limit: usize) {
            #[cfg(windows)]
            let _ = 1 < only_on_windows;

            let _ = limit;
        }
        ",
    )
    .expect("the file parses");
    let selection = Selection::parse("expr.increment").expect("the numeric selector resolves");
    let indexes = indexes_in(&file, &selection, &CfgSet::parse("unix\n"));

    assert!(
        !indexes.numeric_uses.names.contains("only_on_windows"),
        "a discarded statement must not leave numeric evidence behind"
    );
}

// ---- Tokens. ----

#[test]
fn layout_and_comments_do_not_change_token_equality() {
    assert!(same_tokens("Some(1)", "Some /* note */ ( 1 )"));
}

#[test]
fn punctuation_jointness_remains_semantic() {
    assert!(!same_tokens("a >= b", "a > = b"));
    assert!(!same_tokens("c\"text\"", "c \"text\""));
}

/// Checking for a replacement that changes nothing lexes both texts afresh each time, so nothing builds
/// up however often it is asked.
#[test]
fn repeated_noop_checks_do_not_advance_the_proc_macro_source_map() {
    let marker = || {
        "source_map_marker"
            .parse::<proc_macro2::TokenStream>()
            .expect("the marker tokenizes")
            .into_iter()
            .next()
            .expect("the marker has one token")
            .span()
            .byte_range()
            .start
    };
    let defaults = default_paths("");
    let defaulted = vec!["T".to_owned()];
    let first = marker();
    let second = marker();
    let expected_growth = second.saturating_sub(first);

    for _candidate in 0..10_000 {
        assert!(is_noop(
            "&*Box::leak(Box::new(Default::default()))",
            "{ Box::leak(Box::new(T::default())) }",
            Shape::Block,
            &defaults,
            &defaulted,
        ));
    }

    assert_eq!(marker().saturating_sub(second), expected_growth);
}

/// It has to recognize a genuine match and reject anything lacking the literal `leak` text.
#[test]
fn the_leak_prefilter_rejects_and_accepts_the_same_pairs_as_full_tokenization() {
    let defaults = default_paths("");

    assert!(is_same_leak(
        "Box::leak(Box::new(Default::default()))",
        "Box::leak(Box::new(T::default()))",
        &defaults,
        &vec![String::from("T")],
    ));
    assert!(!is_same_leak("None", "0", &defaults, &Vec::new()));
    assert!(!is_same_leak("Box::leak(Box::new(1))", "0", &defaults, &Vec::new()));
}

#[test]
fn leaked_values_and_call_arguments_reject_non_plain_calls() {
    let leaked = "&*(Box::leak(Box::new((value))))";

    assert_eq!(leaked_value(leaked), Some("(value)"));

    let extra = "Box::new(value)()";
    let extra_tokens = lexemes(extra).expect("the extra call tokenizes");
    assert_eq!(call_argument(extra, extra_tokens, "Box", "new"), None);

    let multiple = "Box::new(value, other)";
    let multiple_tokens = lexemes(multiple).expect("the multi-argument call tokenizes");
    assert_eq!(call_argument(multiple, multiple_tokens, "Box", "new"), None);

    let empty = "Box::new()";
    let empty_tokens = lexemes(empty).expect("the empty call tokenizes");
    assert_eq!(call_argument(empty, empty_tokens, "Box", "new"), None);
}

#[test]
fn default_call_checks_reject_invalid_shapes() {
    let defaults = default_paths("");

    assert!(!is_default_call("/*", &defaults, &Vec::new()));
    assert!(!is_default_call("Default::default", &defaults, &Vec::new()));
    assert!(!is_default_call("Default::default(value)", &defaults, &Vec::new()));
    assert!(!is_default_call("1()", &defaults, &Vec::new()));
}

#[test]
fn invalid_tokens_are_rejected_while_literals_remain_valid() {
    assert!(!same_tokens("/*", "/*"));
    assert!(lexemes("/*").is_none());

    assert!(matches!(read_token("/*").0, Token::Invalid));
    assert!(matches!(read_token("1").0, Token::Literal(_)));
}

// ---- Expressions and blocks. ----

/// The value-break search must walk nested loop forms but ignore closures and nested items,
/// because only the loop forms can carry a `break` back to the loop being classified.
#[test]
fn nested_loop_forms_are_visited_when_deciding_whether_a_loop_yields_a_value() {
    let node = expr(
        "'outer: loop {
            loop {
                break;
            }

            while false {}

            for _ in 0..1 {
                break 'outer 7;
            }

            let _ignored = || 1;

            fn helper() {}
        }",
    );

    assert!(loop_produces_value(&node));
}

/// Textuality is decided only from syntax, so every syntax form that states "this is text"
/// needs a direct unit test rather than relying on wider collector behavior to reach it.
#[test]
fn literal_macro_method_and_reference_forms_can_all_be_textual() {
    let literal = expr("\"hello\"");
    let macro_call = expr("format!(\"hello {}\", 1)");
    let text_method = expr("\"hello\".to_string()");
    let ord_method = expr("String::from(\"a\").min(String::from(\"b\"))");
    let reference = expr("&\"hello\"");

    assert!(is_textual(&literal));
    assert!(is_textual(&macro_call));
    assert!(is_textual(&text_method));
    assert!(is_textual(&ord_method));
    assert!(is_textual(&reference));
}

#[test]
fn only_whitelisted_method_names_are_treated_as_returning_text() {
    assert!(returns_text("escape_default"));
    assert!(!returns_text("checked_add"));
}

/// Standard `Default::default` detection must fail closed for malformed and non-default paths,
/// while still accepting explicit type-qualified defaults for the caller's own type parameter.
#[test]
fn default_callee_detection_rejects_non_paths_and_non_default_methods() {
    let defaults = default_paths("use std::default::Default as StdDefault;");
    let defaulted_types = vec!["Thing".to_owned()];
    let wrong_callee = expr("value + 1");
    let wrong_method = path("Thing::new");
    let bare_defaulted = path("Thing::default");
    let aliased_standard = path("StdDefault::default");
    let empty = empty_path();

    assert!(callee_path(&expr("(StdDefault::default)")).is_some());
    assert!(callee_path(&wrong_callee).is_none());
    assert!(!is_standard_default_callee(&empty, &defaults, &defaulted_types));
    assert!(!is_standard_default_callee(&wrong_method, &defaults, &defaulted_types));
    assert!(is_standard_default_callee(&aliased_standard, &defaults, &defaulted_types));
    assert!(is_standard_default_callee(&bare_defaulted, &defaults, &defaulted_types));
}

#[test]
fn capacity_and_callee_helpers_fall_back_for_non_call_expressions() {
    let associated_call = expr("Vec::with_capacity(8)");
    let method_call = expr("buffer.reserve(8)");
    let path = expr("Vec::with_capacity");
    let non_path = expr("buffer + 1");

    assert!(is_capacity_result(&associated_call));
    assert!(is_capacity_result(&method_call));
    assert_eq!(callee_type(&path), Some("Vec"));
    assert_eq!(callee_type(&non_path), None);
    assert_eq!(callee_name(&path), Some("with_capacity"));
    assert_eq!(callee_name(&non_path), None);
}

/// Divergence depends on the *last* statement only, so a macro statement tail and a non-tail
/// expression-less block must be distinguished directly.
#[test]
fn macro_statement_tails_diverge_but_non_expression_tails_do_not() {
    let macro_block = block("{ panic!(); }");
    let local_tail = block("{ let _value = 1; }");

    assert!(block_diverges(&macro_block));
    assert!(!block_diverges(&local_tail));
}

#[test]
fn payload_requires_a_path_type() {
    let reference = ty("&Result<u8, Error>");

    assert!(type_argument(&reference, 0).is_none());
}

// ---- Tables. ----

#[test]
fn method_renames_depend_on_both_name_and_arity() {
    assert_eq!(method_renames("min", 0), Some(("iter.min_to_max", "max")));
    assert_eq!(method_renames("min", 2), None);
    assert_eq!(
        method_renames("to_ascii_uppercase", 0),
        Some(("string.upper_to_lower", "to_ascii_lowercase"))
    );
}

#[test]
fn in_place_reorder_distinguishes_sort_dedup_and_other_calls() {
    let sort = expr("values.sort_unstable_by_key(key)");
    let dedup = expr("values.dedup_by_key(key)");
    let other = expr("values.reserve(8)");
    let not_a_call = expr("values[0]");

    assert_eq!(in_place_reorder(&sort), Some("iter.remove_sort"));
    assert_eq!(in_place_reorder(&dedup), Some("iter.remove_dedup"));
    assert_eq!(in_place_reorder(&other), None);
    assert_eq!(in_place_reorder(&not_a_call), None);
}

#[test]
fn binary_replacements_cover_supported_operator_families() {
    assert_eq!(
        binary_replacements(operator("left < right")),
        &[("relational.lt_to_le", "<="), ("relational.lt_to_gt", ">")]
    );
    assert_eq!(
        binary_replacements(operator("left + right")),
        &[("arith.add_to_sub", "-"), ("arith.add_to_mul", "*")]
    );
    assert_eq!(binary_replacements(operator("left && right")), &[("logical.and_to_or", "||")]);
    assert_eq!(binary_replacements(operator("left <<= right")), &[("assign.shl_to_shr", ">>=")]);
}

// ---- Return types. ----

fn judged<'a>(abstracts: &'a Vec<String>, imports: &'a Table<Option<Vec<String>>>, defaults: &'a Defaults) -> Types<'a> {
    Types { abstracts, imports, defaults, self_type: None, implementation: None }
}

#[test]
fn unknown_undefaultable_types_and_non_tuples_contribute_fallbacks() {
    let abstracts = Vec::new();
    let imports = Table::new();
    let defaults = Defaults::default();
    let types = judged(&abstracts, &imports, &defaults);
    let foreign_error = ty("std::io::Error");
    let plain = ty("String");

    assert!(values_for(&foreign_error, RETURN_DEPTH, &types).is_empty());
    assert_eq!(
        tuple_values(&plain, RETURN_DEPTH, &types),
        vec![("fn_value.default", "Default::default()".to_owned())]
    );
    assert!(literal_values(Class::Option, &ty("Option<bool>")).is_empty());
}

#[test]
fn reference_and_type_argument_helpers_reject_non_matching_syntax() {
    let abstracts = Vec::new();
    let imports = Table::new();
    let defaults = Defaults::default();
    let types = judged(&abstracts, &imports, &defaults);
    let plain = ty("String");
    let bare_collection = ty("Vec");
    let tuple = ty("(bool,)");
    let reference = ty("&str");

    assert!(reference_values(&plain, RETURN_DEPTH, &types).is_empty());
    assert!(reference_elem(&plain).is_none());
    assert!(type_argument(&reference, 0).is_none());
    assert!(type_argument(&bare_collection, 0).is_none());
    assert_eq!(
        inner_values(&bare_collection, 0, RETURN_DEPTH, &types),
        vec![("fn_value.default", "Default::default()".to_owned())]
    );
    assert_eq!(type_text(&tuple), "Default");
    assert_eq!(collection_ctor(&tuple), "Vec");
}

#[test]
fn iterator_item_requires_an_impl_trait_with_item_binding() {
    let plain = ty("Vec<u8>");
    let imp = output("impl 'static + Iterator<Output = u8>");

    assert!(iterator_item(&plain).is_none());
    assert!(iterator_item(&imp).is_none());
}

#[test]
fn resolve_type_treats_an_empty_path_as_unknown() {
    let ty = Node {
        kind: Kind::TypePath,
        start: 0,
        end: 0,
        text: String::new(),
        attrs: Vec::new(),
        kids: vec![nothing(), empty_path()],
    };

    assert!(matches!(resolve_type(&ty), Class::Unknown));
}
