//! Selectors and selections.
use gamma_engine::ops::registry::{resolve, Selection};

#[test]
fn a_distant_unknown_selector_falls_back_to_the_registry_hint() {
    let error = resolve("zzzzzzzzzz").expect_err("the selector is not in the registry");
    let message = error.message;

    assert!(message.contains("unknown mutator selector `zzzzzzzzzz`"), "{message}");
    assert!(message.contains("run `cargo gamma list mutators`"), "{message}");
    assert!(!message.contains("did you mean"), "{message}");
}

#[test]
fn a_close_unknown_selector_offers_a_spelling_suggestion() {
    let error = resolve("reltional").expect_err("the selector misspells a known family");
    let message = error.message;

    assert!(message.contains("unknown mutator selector `reltional`"), "{message}");
    assert!(message.contains("did you mean `relational`?"), "{message}");
}

#[test]
fn unknown_selectors_are_errors_not_silent_no_ops() {
    let error = resolve("nonsense_family").unwrap_err();

    assert!(error.message.contains("unknown mutator selector"));
}

#[test]
fn negation_carves_out_of_a_preset() {
    let mut selection = Selection::parse("@arithmetic").unwrap();
    let before = selection.sorted().len();

    selection.apply("!bitwise").unwrap();

    assert!(selection.contains("arith.add_to_sub"));
    assert!(!selection.contains("bitwise.and_to_or"));
    assert!(selection.sorted().len() < before);
}

#[test]
fn selectors_apply_left_to_right() {
    let selection = Selection::parse("relational, !relational.eq_to_ne").unwrap();

    assert!(selection.contains("relational.lt_to_le"));
    assert!(!selection.contains("relational.eq_to_ne"));
}

#[test]
fn default_and_pedantic_presets_partition_everything() {
    let default = Selection::default_preset();
    let pedantic = Selection::parse("@pedantic").unwrap();
    let all = Selection::everything();

    assert!(!default.sorted().is_empty());
    assert_eq!(pedantic.sorted(), ["fn_value.some"]);
    assert!(!default.contains("fn_value.some"));
    assert_eq!(default.sorted().len() + pedantic.sorted().len(), all.sorted().len());

    let combined = Selection::parse("@default,@pedantic").unwrap();

    for name in all.sorted() {
        assert!(combined.contains(name), "{name} is not reachable through a shipped preset");
    }
}

#[test]
fn the_noisier_families_are_still_on() {
    let default = Selection::default_preset();

    // Statement deletion has a high equivalent-mutant rate. It stays on anyway; this test
    // exists so that turning it off again is a deliberate edit rather than a quiet drift.
    assert!(default.contains("stmt.delete_call"));
}

#[test]
fn empty_selectors_are_ignored() {
    let selection = Selection::parse("relational, , ").unwrap();

    assert_eq!(selection.sorted().len(), 10);
}

/// `any_in_family` decides whether to build the per-file imports index which is only when a `fn_value`
/// mutator is selected. It must answer on the family prefix: `true` when the family is present,
/// `false` when it is not, or the index is skipped and undefaultable-type mutants slip through.
#[test]
fn any_in_family_gates_on_the_selected_family() {
    assert!(Selection::parse("fn_value.default").unwrap().any_in_family("fn_value"));
    assert!(!Selection::parse("relational").unwrap().any_in_family("fn_value"));
}

#[test]
fn caller_supplied_error_values_toggle_the_error_mutator() {
    let mut selection = Selection::empty();

    selection.set_errors(vec!["Error::Broken".to_owned()]);

    assert!(selection.contains("fn_value.err_with"));
    assert_eq!(selection.errors(), &["Error::Broken"]);

    selection.drop_errors();

    assert!(!selection.contains("fn_value.err_with"));
    assert!(selection.errors().is_empty());
}

#[test]
fn an_empty_error_list_does_not_enable_the_error_mutator() {
    let mut selection = Selection::everything();

    selection.drop_errors();
    selection.set_errors(Vec::new());

    assert!(!selection.contains("fn_value.err_with"));
    assert!(selection.errors().is_empty());
}
