//! How deeply a text nests.
use gamma_engine::error::ErrorKind;
use gamma_engine::ops::collect::collect;
use gamma_engine::ops::registry::Selection;
use gamma_engine::parse::{exceeds_nesting_limit, SourceFile};
use gamma_engine::parse::comment::scan_comments;
use gamma_engine::parse::lines::line_starts;
use gamma_engine::parse::nesting::beyond;
use gamma_engine::syntax::lower::read;

fn beyond_limit(text: &str, limit: usize) -> Option<usize> {
    let comments = scan_comments(text, &line_starts(text));

    beyond(text, &comments, limit)
}

#[test]
fn a_file_within_the_limit_reports_nothing() {
    assert_eq!(beyond_limit("fn f() -> i32 { (((1))) }\n", 4), None);
}

#[test]
fn the_reported_offset_is_the_delimiter_that_crossed_the_limit() {
    let text = "fn f() -> i32 { ((1)) }\n";

    // `{`, `(`, `(` is three levels, so a limit of two is crossed by the second parenthesis.
    assert_eq!(beyond_limit(text, 2), Some(text.find("((").expect("the fixture nests") + 1));
}

/// Brackets in prose and in strings are text, not structure.
///
/// A doc comment drawing a tree out of brackets, or a parser test holding a string of them, is
/// ordinary and must not be refused: the depth that matters is the one the tree has, and
/// neither of those reaches the tree at all.
#[test]
fn brackets_inside_comments_and_literals_are_not_nesting() {
    let commented = format!("// {}\nfn f() {{}}\n", "(".repeat(500));
    let documented = format!("/* {} */\nfn f() {{}}\n", "[".repeat(500));
    let quoted = format!("fn f() -> &'static str {{ \"{}\" }}\n", "{".repeat(500));
    let raw = format!("fn f() -> &'static str {{ r#\"{}\"# }}\n", "(".repeat(500));

    for text in [commented, documented, quoted, raw] {
        assert_eq!(beyond_limit(&text, 8), None, "for {text:.40}");
    }
}

/// Nesting is depth, not count: a file of a thousand sibling constructs nests one level.
#[test]
fn siblings_do_not_accumulate_depth() {
    let text = "fn f() {}\n".repeat(1_000);

    assert_eq!(beyond_limit(&text, 2), None);
}

/// A closer with nothing open cannot lower the count below zero, and cannot make the
/// delimiters after it look deeper than they are.
#[test]
fn an_unbalanced_closer_does_not_wrap_the_count() {
    assert_eq!(beyond_limit(")))))fn f() { (1) }\n", 4), None);
}

#[test]
fn blocks_cross_the_limit_without_needing_parentheses() {
    assert_eq!(beyond_limit("{{", 1), Some(1));
}

/// A run of prefix operators nests one level per operator while opening no delimiter.
///
/// `syn` recurses once per operator to parse it, the visitor recurses once per operator to walk
/// it, and the `Box<Expr>` chain recurses once per operator to drop it. Counted by delimiters
/// alone the file looks trivial, and a few hundred of them segfault a discovery worker with no
/// diagnostic at all.
#[test]
fn a_run_of_prefix_operators_is_nesting() {
    let text = format!("fn f() -> i32 {{ {}1 }}\n", "-".repeat(64));

    assert!(beyond_limit(&text, 8).is_some(), "a stack of unary operators must be refused");
}

/// The same run written with spaces between the operators is the same tree.
#[test]
fn a_spaced_run_of_prefix_operators_is_still_nesting() {
    let text = format!("fn f() -> i32 {{ {}1 }}\n", "- ".repeat(64));

    assert!(beyond_limit(&text, 8).is_some(), "whitespace does not flatten the tree");
}

/// A same-precedence binary chain is linearly nested, however flat it looks.
#[test]
fn a_long_binary_chain_is_nesting() {
    let text = format!("fn f(a: bool) -> bool {{ a{} }}\n", " || a".repeat(64));

    assert!(beyond_limit(&text, 8).is_some(), "a chain of operators must be refused");
}

#[test]
fn a_long_postfix_call_chain_is_nesting() {
    let text = format!("fn f() {{ g{}; }}\n", "()".repeat(64));

    assert!(beyond_limit(&text, 8).is_some(), "a chain of calls must be refused");
}

#[test]
fn a_long_postfix_index_chain_is_nesting() {
    let text = format!("fn f() {{ value{}; }}\n", "[0]".repeat(64));

    assert!(beyond_limit(&text, 8).is_some(), "a chain of indexes must be refused");
}

#[test]
fn a_long_postfix_method_chain_is_nesting() {
    let text = format!("fn f() {{ value{}; }}\n", ".call()".repeat(64));

    assert!(beyond_limit(&text, 8).is_some(), "a chain of method calls must be refused");
}

#[test]
fn mixed_method_and_index_links_accumulate_on_one_path() {
    let text = format!("fn f() {{ value{}; }}\n", ".call()[0]".repeat(20));

    assert!(beyond_limit(&text, 8).is_some(), "interleaved postfix links must be refused");
}

#[test]
fn operator_chains_inside_nested_delimiters_accumulate_on_one_path() {
    let mut expression = "value".to_owned();

    for _ in 0..8 {
        expression = format!("({expression} + value + value + value)");
    }

    assert!(
        beyond_limit(&format!("fn f() {{ {expression}; }}\n"), 8).is_some(),
        "nested operator chains must be refused"
    );
}

#[test]
fn a_long_cast_chain_is_nesting() {
    let text = format!("fn f() {{ 1{}; }}\n", " as u64".repeat(64));

    assert!(beyond_limit(&text, 8).is_some(), "a chain of casts must be refused");
}

/// An `else if` ladder de-recurses in the parser but not in the visitor or the drop.
#[test]
fn a_long_else_if_ladder_is_nesting() {
    let text = format!("fn f(a: bool) {{ if a {{}} {} }}\n", "else if a {} ".repeat(64));

    assert!(beyond_limit(&text, 8).is_some(), "an else-if ladder must be refused");
}

/// Ordinary code is not a chain: a block of separate statements starts the count again at each.
///
/// Without the reset, any function long enough would be refused for being long rather than for
/// being deep, which costs a file's coverage and explains nothing.
#[test]
fn statements_in_sequence_are_not_a_chain() {
    let body = "let x = 1 + 2 * 3; ".repeat(200);
    let text = format!("fn f() {{ {body} }}\n");

    assert_eq!(beyond_limit(&text, 8), None);
}

/// Nor are the elements of a long literal, which are separated by commas.
#[test]
fn a_long_list_of_elements_is_not_a_chain() {
    let elements = "1 + 2, ".repeat(200);
    let text = format!("fn f() {{ let xs = [{elements}]; }}\n");

    assert_eq!(beyond_limit(&text, 8), None);
}

/// Operators inside comments and strings are text here exactly as brackets are.
#[test]
fn operators_inside_comments_and_literals_are_not_nesting() {
    let commented = format!("// {}\nfn f() {{}}\n", "-".repeat(500));
    let quoted = format!("fn f() -> &'static str {{ \"{}\" }}\n", "|".repeat(500));

    for text in [commented, quoted] {
        assert_eq!(beyond_limit(&text, 8), None, "for {text:.40}");
    }
}

#[test]
fn chain_keywords_inside_unicode_identifiers_are_not_counted() {
    assert_eq!(beyond_limit("{ let caféelse; }\n", 1), None);
    assert_eq!(beyond_limit("{ let µas; }\n", 1), None);
}

#[test]
fn non_ascii_non_identifier_bytes_are_skipped_without_affecting_depth() {
    assert_eq!(beyond_limit("{ 🦀 }\n", 1), None);
}


fn refused(text: String) -> bool {
    match SourceFile::parse("deep.rs", text) {
        Ok(_) => false,
        Err(fault) => fault.kind == ErrorKind::Skippable && fault.message.contains("deep.rs:1: nests deeper"),
    }
}

/// A parser descends once for each segment of an import, and the tree is as deep.
#[test]
fn a_long_import_path_is_nesting() {
    assert!(refused(format!("use {}a;", "a::".repeat(2_000))));
    assert!(refused(format!("use {{b, {}a}};", "a::".repeat(2_000))));
    assert!(!refused(format!("use {}a;", "a::".repeat(20))));
}

/// A keyword in front of an expression nests as an operator does.
#[test]
fn a_run_of_prefix_keywords_is_nesting() {
    for keyword in ["return", "break", "yield", "become", "if", "match", "while", "for"] {
        let run = format!("{keyword} ").repeat(2_000);

        assert!(refused(format!("fn f() {{ {run}x }}")), "{keyword}");
        assert!(refused(format!("fn f() {{ vec![{run}x] }}")), "{keyword}");
        assert!(refused(format!("fn f() {{ other!({run}x) }}")), "{keyword}");
        assert!(refused(format!("#[gamma::value({run}x)] fn f() {{ x }}")), "{keyword}");
    }
}

#[test]
fn types_and_closures_nest() {
    let deep = 2_000;

    assert!(refused(format!("type T = {}u8{};", "A<".repeat(deep), ">".repeat(deep))));
    assert!(refused(format!("type T = {}u8;", "fn() -> ".repeat(deep))));
    assert!(refused(format!("fn f() {{ {}1 }}", "|x| ".repeat(deep))));
    assert!(refused(format!("fn f() {{ {}1 }}", "|| ".repeat(deep))));
}

/// What is on the path is not lost at an attribute, a group of imports or a borrow.
#[test]
fn depth_is_carried_into_what_follows() {
    let returns = "return ".repeat(150);
    let imports = "a::".repeat(400);

    assert!(refused(format!("fn f() {{ {returns} #[a] f({returns} #[a] f(1)) }}")));
    assert!(refused(format!("fn f() {{ {returns} {{ {returns} 1 }} }}")));
    assert!(refused(format!("use {imports}{{{imports}b}};")));
    assert!(refused(format!("fn f() {{ {}x; }}", "&raw const ".repeat(400))));
    assert!(refused(format!("fn f() {{ {} {{ {} 1 }} }}", "|a|".repeat(100), "|a|".repeat(100))));
    assert!(refused(format!("fn f() {{ let {}x = 1; }}", "a @ ".repeat(400))));
    assert!(refused(format!("fn f() {{ let _ = br\"\\\"; {returns}{returns}1 }}")));
}

/// A word in front of a quote does not make a raw string of what follows, nor does a suffix.
#[test]
fn literals_end_where_they_do_for_the_parser() {
    let deep = format!("fn f() {{ {}1{} }}", "(".repeat(2_000), ")".repeat(2_000));

    for front in ["xr\"\\\"/*\"", "\"a\"r\"\\\"/*\"", "1r\"\\\"/*\"", "br\"\\\"", "'ar\"\\\"/*\"", "ér\"\\\"/*\""] {
        assert!(refused(format!("m!({front}); {deep}")), "{front}");
    }
}

/// What is just within the limit is parsed, and everything that walks the tree can walk it.
#[test]
fn what_is_within_the_limit_can_be_walked() {
    let deep = 180;
    let texts = [
        format!("use {}a;", "a::".repeat(700)),
        format!("fn f() {{ {}1 }}", "return ".repeat(deep)),
        format!("fn f() {{ loop {{ {}1 }} }}", "break ".repeat(deep)),
        format!("fn f() {{ {}true {{}} {} }}", "if ".repeat(deep), "{}".repeat(deep - 1)),
        format!("fn f() {{ {}x {} }}", "match ".repeat(deep), "{ _ => 1 }".repeat(deep)),
        format!("fn f() {{ {}x {} }}", "while ".repeat(deep), "{}".repeat(deep)),
        format!("type T = {}u8{};", "A<".repeat(150), ">".repeat(150)),
        format!("fn f() {{ {}1 }}", "|x| ".repeat(140)),
        format!("fn f() {{ let _ = br\"\\\"; {}1{} }}", "(".repeat(185), ")".repeat(185)),
        format!("fn f() {{ let _ = br\"\\\"; {}1{} }}", "{".repeat(185), "}".repeat(185)),
        format!("fn f() {{ let _ = br\"\\\"; {}1{} }}", "[".repeat(185), "]".repeat(185)),
        format!("fn f() {{ let _ = br\"\\\"; {}1{} }}", "a(".repeat(150), ")".repeat(150)),
        format!("fn f() {{ let _ = br\"\\\"; {}1{} }}", "if a { ".repeat(90), " }".repeat(90)),
    ];

    for text in texts {
        let file = SourceFile::parse("deep.rs", text.clone()).expect(&text);
        let found = collect(&file, &Selection::parse("all").unwrap());

        assert_eq!(read(&file.text).unwrap().kids.len(), file.ast.kids.len());
        assert!(found.iter().all(|candidate| candidate.span.end <= text.len()));
    }
}

/// The first line of a script is not read by the parser, so nothing in it can hide what follows.
#[test]
fn a_first_line_that_names_an_interpreter_hides_nothing() {
    let deep = format!("fn f() {{ {}1{} }}", "(".repeat(2_000), ")".repeat(2_000));
    let at_line_two = |text: String| match SourceFile::parse("deep.rs", text) {
        Ok(_) => false,
        Err(fault) => fault.kind == ErrorKind::Skippable && fault.message.contains("deep.rs:2: nests deeper than 64 levels"),
    };

    assert!(at_line_two(format!("#!/*\n{deep}")));
    assert!(at_line_two(format!("#!/bin/\"sh\n{deep}")));
    assert!(at_line_two(format!("\u{feff}\u{feff}#! /* \n{deep}")));
    assert!(exceeds_nesting_limit(&format!("#!/*\n{deep}")));
    assert!(!exceeds_nesting_limit("#!/*\nfn f() {}"));
    assert!(SourceFile::parse("script.rs", "#!/usr/bin/env (((((\nfn f() -> i32 { 1 }\n".to_owned()).is_ok());
    assert!(SourceFile::parse("attribute.rs", "#![allow(unused)] // /*\nfn f() -> i32 { 1 }\n".to_owned()).is_ok());
}

/// Which of the two limits was passed is said.
#[test]
fn what_was_too_much_is_said() {
    let message = |text: String| SourceFile::parse("deep.rs", text).unwrap_err().message;

    assert_eq!(
        message("(".repeat(100)),
        "deep.rs:1: nests deeper than 64 levels of brackets, prefix operators, chained operators or postfix expressions"
    );
    assert_eq!(
        message(format!("\nfn f() {{ {}1 }}", "return ".repeat(300))),
        "deep.rs:2: nests deeper than a parser can follow: more than 768 steps of keywords, closures, types, patterns, import paths and operators on one path"
    );
}

/// Code that is long without being deep is read, however much of it there is.
#[test]
fn code_that_is_long_and_not_deep_is_read() {
    let statements = "if a < b { return c::d::e; } else { x = y::<A<B>>(1 << 2, |z| z?.w); }\n".repeat(500);
    let imports = "use a::b::{c, d::e};\n".repeat(500);
    let ladder = format!("if a < 1 {{}} {}", "else if a < b {}".repeat(200));
    let list = format!("let _ = [{}];", "1 << 3, A::B, -x, (a, b), Box::new(|| 1), ".repeat(500));
    let matched = format!("match x {{ {} }}", "A::B(y) | A::C(y) if y < 3 => { return 1 }\n".repeat(500));
    let text = format!("{imports}fn f() {{ {statements} {ladder} {list} {matched} }}");

    assert!(!refused(text.clone()));
    assert!(SourceFile::parse("long.rs", text).is_ok());
}

/// The limit is the machine's where it is more than can be counted.
#[test]
fn the_largest_limit_accepts_everything() {
    assert_eq!(beyond_limit(&"(".repeat(5_000), usize::MAX), None);
}

#[test]
fn a_smaller_limit_refuses_no_later() {
    let text = "((((((((a + b))))))))";
    let offsets: Vec<Option<usize>> = (1..8).map(|limit| beyond_limit(text, limit)).collect();

    assert_eq!(offsets, [Some(1), Some(2), Some(3), Some(4), Some(5), Some(6), Some(7)]);
}
