//! Values that a site states for itself.
use gamma_engine::ops::collect::check_stated as check;
use gamma_engine::ops::collect::stated::stated_range;
use gamma_engine::parse::SourceFile;
use gamma_engine::syntax::{Kind, Node};

fn file(source: &str) -> SourceFile {
    SourceFile::parse("test.rs", source.to_owned()).expect("the fixture must parse")
}

fn function_item(parsed: &SourceFile) -> &Node {
    parsed.ast.kids[0]
        .kids
        .iter()
        .find(|item| item.kind == Kind::ItemFn)
        .expect("the fixture contains a function")
}

fn rejection(source: &str) -> String {
    check(&file(source))
        .expect_err("the fixture states a value that cannot be honoured")
        .message
}

/// The expression is taken from the source verbatim, because that spelling is what every
/// report, diff and applied patch shows the user afterwards. Re-rendering the tokens instead
/// would hand them back `Some (Config { size : 8 })`, which compiles and which nobody wrote.
#[test]
fn the_stated_expression_is_the_text_the_user_wrote() {
    let parsed = file("#[gamma::value(Some(Config { size: 8 }))]\nfn f() -> Option<Config> { g() }");
    let item = function_item(&parsed);

    let range = stated_range(&item.attrs).expect("the fixture states a value");

    assert_eq!(parsed.slice(&range), "Some(Config { size: 8 })");
}

/// A single-token expression has one span rather than a first and a last, and is the shortest
/// thing anybody states.
#[test]
fn a_one_token_expression_is_read_whole() {
    let parsed = file("#[gamma::value(7)]\nfn f() -> u32 { 1 }");
    let item = function_item(&parsed);

    let range = stated_range(&item.attrs).expect("the fixture states a value");

    assert_eq!(parsed.slice(&range), "7");
}

/// An item with no stated value has none, which is what leaves the guessing rules in charge of
/// every site that says nothing.
#[test]
fn an_item_that_states_nothing_has_no_range() {
    let parsed = file("#[inline]\n#[gamma::skip(arith)]\nfn f() -> u32 { 1 }");
    let item = function_item(&parsed);

    assert_eq!(stated_range(&item.attrs), None);
}

#[test]
fn a_malformed_stated_value_has_no_range() {
    let parsed = file("#[gamma::value(0, 1)]\nfn f() -> u32 { 1 }");
    let item = function_item(&parsed);

    assert_eq!(stated_range(&item.attrs), None);
}

/// A file that states nothing is not a file with a problem, however many other attributes it
/// carries.
#[test]
fn a_file_with_no_stated_values_is_accepted() {
    check(&file("#[gamma::skip(arith)]\nfn f() -> u32 { 1 }\n#[test]\nfn t() {}"))
        .expect("a file with no stated values has nothing to report");
}

/// The three positions a function is written in are all functions, and a stated value is at
/// home in each.
#[test]
fn a_value_stated_on_a_function_a_method_or_a_trait_method_is_accepted() {
    let sources = [
        "#[gamma::value(0)]\nfn f() -> u32 { 1 }",
        "struct S;\nimpl S {\n#[gamma::value(0)]\nfn f(&self) -> u32 { 1 }\n}",
        "trait T {\n#[gamma::value(0)]\nfn f(&self) -> u32 { 1 }\n}",
    ];

    for source in sources {
        check(&file(source)).unwrap_or_else(|error| panic!("`{source}` states a value on a function: {error:?}"));
    }
}

/// Two values on one item would be settled by which was written first, and a rule that subtle
/// is one nobody reads. The line reported is the second one, which is the one to delete.
#[test]
fn two_stated_values_on_one_item_are_reported() {
    let rejected = rejection("#[gamma::value(0)]\n#[gamma::value(1)]\nfn f() -> u32 { 2 }");

    assert!(rejected.contains("test.rs:2: "), "{rejected}");
    assert!(rejected.contains("an item may state one value"), "{rejected}");
}

/// Everything that is not one expression is reported the same way, because the fix is the same
/// in every case: write one.
#[test]
fn an_argument_that_is_not_one_expression_is_reported() {
    for arguments in ["", "0, 1", "1 +", "let x = 1;"] {
        let rejected = rejection(&format!("#[gamma::value({arguments})]\nfn f() -> u32 {{ 2 }}"));

        assert!(rejected.contains("test.rs:1: "), "`{arguments}`: {rejected}");
        assert!(
            rejected.contains("states one value") || rejected.contains("is not a single Rust expression"),
            "`{arguments}`: {rejected}"
        );
    }
}

/// A bare path and a name-value pair carry no argument list at all, and neither states a value.
#[test]
fn a_stated_value_with_no_argument_list_is_reported() {
    for attribute in ["#[gamma::value]", "#[gamma::value = 1]"] {
        let rejected = rejection(&format!("{attribute}\nfn f() -> u32 {{ 2 }}"));

        assert!(rejected.contains("states one value"), "`{attribute}`: {rejected}");
    }
}

/// Inheritance is not invented: an `impl` block or a module would have to state one expression
/// that type-checks as the body of every function beneath it, which essentially never holds.
#[test]
fn a_value_stated_on_anything_but_a_function_is_reported() {
    let sources = [
        "struct S;\n#[gamma::value(0)]\nimpl S { fn f(&self) -> u32 { 1 } }",
        "#[gamma::value(0)]\nmod m { pub fn f() -> u32 { 1 } }",
        "#[gamma::value(0)]\nstruct S { n: u8 }",
        "#[gamma::value(0)]\nconst N: u8 = 1;",
    ];

    for source in sources {
        let rejected = check(&file(source)).expect_err("the fixture misplaces a stated value").message;

        assert!(rejected.contains("goes on a function or a method"), "`{source}`: {rejected}");
    }
}

/// A trait method that is only declared has no body, so there is nothing for a stated value to
/// replace — and the implementations do not inherit it, for the same reason an `impl` block
/// does not hand one down. Silence here would be a hint that reads as working and does nothing
/// anywhere in the tree.
#[test]
fn a_value_stated_on_a_declaration_is_reported() {
    let rejected = rejection("trait T {\n#[gamma::value(0)]\nfn f(&self) -> u32;\n}");

    assert!(rejected.contains("test.rs:2: "), "{rejected}");
    assert!(rejected.contains("a declaration has none"), "{rejected}");
}

/// A `const fn` body is a const context throughout, and the guard a mutant is spliced in behind
/// is a run-time call. Collection returns before it reads the stated value there, so silence
/// would leave a hint that reads as working and produces no mutant anywhere.
#[test]
fn a_value_stated_on_a_const_function_is_reported() {
    let sources = [
        "#[gamma::value(0)]\nconst fn f() -> u32 { 1 }",
        "struct S;\nimpl S {\n#[gamma::value(0)]\nconst fn f(&self) -> u32 { 1 }\n}",
        "trait T {\n#[gamma::value(0)]\nconst fn f(&self) -> u32 { 1 }\n}",
    ];

    for source in sources {
        let rejected = check(&file(source)).expect_err("a const function can carry no mutant").message;

        assert!(rejected.contains("no `const fn` body may make"), "`{source}`: {rejected}");
    }
}

/// Empty bodies are not eligible for stated-value mutation, so accepting an attribute there
/// would leave a hint that produces no mutant.
#[test]
fn a_value_stated_on_an_empty_bodied_function_is_reported() {
    let sources = [
        "#[gamma::value(())]\nfn f() {}",
        "struct S;\nimpl S {\n#[gamma::value(())]\nfn f(&self) {}\n}",
        "trait T {\n#[gamma::value(())]\nfn f(&self) {}\n}",
    ];

    for source in sources {
        let rejected = check(&file(source)).expect_err("an empty body has nothing to replace").message;

        assert!(
            rejected.contains("not eligible for stated-value mutation"),
            "`{source}`: {rejected}"
        );
    }
}

/// A `const fn` with an empty body is inert twice over, and the const reason is the one
/// reported: making the function non-`const` is what an author has to do before a mutant is
/// possible at all, and only then does the empty body become the remaining problem.
#[test]
fn a_doubly_inert_function_reports_the_const_reason() {
    let rejected = rejection("#[gamma::value(())]\nconst fn f() {}");

    assert!(rejected.contains("no `const fn` body may make"), "{rejected}");
}

/// A malformed expression is reported ahead of the inert position it sits on, because it is
/// the mistake the author can see — and reporting both would be two diagnostics for one
/// attribute.
#[test]
fn a_malformed_value_on_an_inert_function_reports_the_expression() {
    let rejected = rejection("#[gamma::value(1 +)]\nconst fn f() -> u32 { 1 }");

    assert!(rejected.contains("states one value"), "{rejected}");
    assert!(!rejected.contains("no `const fn` body may make"), "{rejected}");
}

/// Neither rule reaches past the function it is about: a `const` *item* inside an ordinary
/// body, and an ordinary function whose body is a single expression, both still state values.
#[test]
fn a_function_that_can_carry_a_mutant_is_still_accepted() {
    let sources = [
        "#[gamma::value(0)]\nfn f() -> u32 { const N: u32 = 1; N }",
        "#[gamma::value(0)]\nasync fn f() -> u32 { 1 }",
        "struct S;\nimpl S {\n#[gamma::value(0)]\nfn f(&self) -> u32 { 1 }\n}",
    ];

    for source in sources {
        check(&file(source)).unwrap_or_else(|error| panic!("`{source}` can carry a mutant: {error:?}"));
    }
}

/// A nested function states its own value, at its own site, and is not the enclosing function
/// stating a second one.
#[test]
fn a_function_inside_a_function_may_state_its_own_value() {
    let source = "#[gamma::value(0)]\nfn f() -> u32 { #[gamma::value(1)] fn g() -> u32 { 2 } g() }";

    check(&file(source)).expect("both values are stated on a function of their own");
}

/// A file with two mistakes reports the earlier one, so the message does not depend on the
/// order the walk reached them in.
#[test]
fn the_first_fault_in_the_file_is_the_one_reported() {
    let rejected = rejection("#[gamma::value(0, 1)]\nfn f() -> u32 { 2 }\n#[gamma::value()]\nfn g() -> u32 { 3 }");

    assert!(rejected.contains("test.rs:1: "), "{rejected}");
}
