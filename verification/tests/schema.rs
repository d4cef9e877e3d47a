//! Encoding mutants into a source text.
use gamma_engine::error::Fault;
use gamma_engine::ops::collect::Shape;
use gamma_engine::schema;
use gamma_engine::schema::{AssignedMutant, Guard};
use std::collections::HashMap;
use std::ops::Range;
use syn::parse_file;

#[derive(Debug)]
struct Mutant {
    ordinal: u32,
    span: Range<usize>,
    replacement: String,
    shape: Shape,
}

fn instrument(text: &str, mutants: &[&Mutant]) -> Result<String, Fault> {
    let assigned = assigned_mutants(mutants);

    schema::instrument(text, &assigned)
}

fn instrument_with_guards(text: &str, mutants: &[&Mutant]) -> Result<(String, HashMap<u32, Guard>), Fault> {
    let assigned = assigned_mutants(mutants);

    schema::instrument_with_guards(text, &assigned)
}

fn assigned_mutants<'a>(mutants: &[&'a Mutant]) -> Vec<AssignedMutant<'a>> {
    mutants
        .iter()
        .map(|mutant| AssignedMutant::from_parts(mutant.ordinal, &mutant.span, &mutant.replacement, mutant.shape))
        .collect()
}

/// Every `else` arm of an `IterBlock` must be wrapped, not only the one holding the original.
///
/// This is the invariant that makes the shape work, and it is not obvious. Wrapping just the
/// innermost arm looks right and compiles for a single mutant, but a second mutant on the same
/// site nests a whole `Either` into the outer `else`, and the outer `if` then has
/// `Either<Empty<_>, _>` against `Either<Once<_>, _>` — two types, so the build fails and both
/// mutants are withdrawn as unviable. Nothing else in the suite would notice, because the
/// single-mutant case stays green.
#[test]
fn every_else_arm_of_an_iterator_body_is_wrapped_so_that_two_mutants_still_agree_on_a_type() {
    let text = "fn f() -> impl Iterator<Item = u32> { 0..10 }\n";
    let empty = mutant(36..45, 1, "core::iter::empty()", Shape::IterBlock);
    let once = mutant(36..45, 2, "core::iter::once(0)", Shape::IterBlock);

    let out = instrument(text, &[&empty, &once]).expect("instrumented");

    assert_eq!(
        out.matches("::gamma_rt::Either::R(").count(),
        2,
        "one wrapper per guard, not one for the whole site: {out}"
    );
    assert_eq!(out.matches("::gamma_rt::Either::L(").count(), 2, "{out}");

    // The original body is the innermost thing, still intact inside the wrappers.
    assert!(out.contains("::gamma_rt::Either::R({ 0..10 })"), "{out}");
}

/// A body wrapped this way has to parse, and braces are easy to get wrong by one.
#[test]
fn an_instrumented_iterator_body_is_still_balanced_rust() {
    let text = "fn f() -> impl Iterator<Item = u32> { 0..10 }\n";
    let only = mutant(36..45, 1, "core::iter::empty()", Shape::IterBlock);

    let out = instrument(text, &[&only]).expect("instrumented");

    let _parsed = parse_file(&out).expect("the instrumented form must parse");
}

#[test]
fn guards_report_the_lines_they_actually_landed_on() {
    let text = "fn a() {}\nlet x = 1;\nv.push(1);\n";
    let first = mutant(18..19, 3, "0", Shape::Expr);
    let second = mutant(21..31, 9, "", Shape::Stmt);

    let (_out, guards) = instrument_with_guards(text, &[&first, &second]).expect("instrumented");

    assert_eq!(guards.get(&3).map(|guard| guard.site.start.line), Some(2));
    assert_eq!(guards.get(&9).map(|guard| guard.site.start.line), Some(3));
    assert_eq!(guards.len(), 2);
}

#[test]
fn a_guard_reports_the_whole_range_it_spans() {
    let text = "fn f(a: i32, b: i32) -> bool {\n    a\n        < b\n}\n";
    let only = mutant(35..48, 1, "(a)\n        <= (b)", Shape::Expr);

    let (out, guards) = instrument_with_guards(text, &[&only]).expect("instrumented");
    let span = guards.get(&1).expect("recorded").clone();

    assert!(out.lines().count() > text.lines().count(), "the site should have grown");
    assert!(
        span.site.end.line > span.site.start.line,
        "a multi-line site should span multiple lines"
    );
}

#[test]
fn a_nested_guard_lies_outside_its_enclosing_guards_mutated_branch() {
    // This is what lets a compile error be attributed exactly. An enclosing mutant that
    // replaces a whole function body is far likelier to break the build than the literal
    // nested inside it, so the two must be distinguishable: the enclosing mutant's own text
    // has to be disjoint from where the innocent nested guard sits.
    let text = "fn f() -> i32 {\n    0\n}\n";
    let outer = mutant(14..23, 1, "Default::default()", Shape::Block);
    let inner = mutant(20..21, 2, "1", Shape::Expr);

    let (_out, guards) = instrument_with_guards(text, &[&outer, &inner]).expect("instrumented");
    let outer = guards.get(&1).expect("outer recorded").clone();
    let inner = guards.get(&2).expect("inner recorded").clone();

    let replacement = outer.mutated.expect("the outer mutant has replacement text");

    assert!(
        outer.site.start <= inner.site.start && outer.site.end >= inner.site.end,
        "the outer site should enclose"
    );
    assert!(
        replacement.end <= inner.site.start || replacement.start >= inner.site.end,
        "the outer replacement must not overlap the nested guard"
    );
}

#[test]
fn a_guarded_site_that_grows_shifts_the_guards_below_it() {
    // The first site emits both the mutated text and the original, so the file gets longer and
    // the second guard sits well below the line its mutant was written on.
    let text = "fn f(a: i32, b: i32) -> bool {\n    a\n        < b\n}\nfn g() -> i32 { 1 }\n";
    let first = mutant(35..48, 1, "(a)\n        <= (b)", Shape::Expr);
    let second = mutant(67..68, 2, "0", Shape::Expr);

    let (out, guards) = instrument_with_guards(text, &[&first, &second]).expect("instrumented");
    let found = out
        .lines()
        .position(|line| line.contains("a(2u32)"))
        .and_then(|at| u32::try_from(at + 1).ok());

    assert_eq!(guards.get(&2).map(|guard| guard.site.start.line), found);
    assert_ne!(
        guards.get(&2).map(|guard| guard.site.start.line),
        Some(5),
        "the guard should not be on its source line"
    );
}

fn mutant(span: Range<usize>, ordinal: u32, replacement: &str, shape: Shape) -> Mutant {
    Mutant {
        ordinal,
        span,
        replacement: replacement.to_owned(),
        shape,
    }
}

#[test]
fn continue_to_break_keeps_continue_as_the_tail_expression() {
    let text = "fn f() -> i32 { loop { let x = if true { continue } else { 1 }; return x } }\n";
    let site = span_of(text, "continue");
    let out = apply(text, &[mutant(site, 7, "break", Shape::Continue)]);

    assert!(out.contains("{ if ::gamma_rt::a(7u32) { break; } continue }"), "{out}");
    let _parsed = parse_file(&out).expect("the specialized guard must parse");
}

#[test]
fn break_to_continue_keeps_break_as_the_tail_expression() {
    let text = "fn f() { loop { if true { break } } }\n";
    let site = span_of(text, "break");
    let out = apply(text, &[mutant(site, 8, "continue", Shape::Break)]);

    assert!(out.contains("{ if ::gamma_rt::a(8u32) { continue; } break }"), "{out}");
    let _parsed = parse_file(&out).expect("the specialized guard must parse");
}

fn apply(text: &str, mutants: &[Mutant]) -> String {
    let refs: Vec<&Mutant> = mutants.iter().collect();

    instrument(text, &refs).unwrap()
}

fn span_of(text: &str, needle: &str) -> Range<usize> {
    let start = text.find(needle).unwrap();

    start..start + needle.len()
}

#[test]
fn no_mutants_leaves_the_text_untouched() {
    assert_eq!(apply("fn f() {}", &[]), "fn f() {}");
}

#[test]
fn an_arm_site_becomes_a_guard_trailing_the_pattern() {
    let text = "fn f(v: Option<i32>) -> i32 { match v { Some(n) => n, _ => 0 } }";
    let out = apply(text, &[mutant(span_of(text, "Some(n)"), 4, "", Shape::Arm)]);

    // The arm has to keep its pattern: the body still binds `n`, so replacing the pattern
    // rather than qualifying it would not compile.
    assert!(out.contains("Some(n) if !::gamma_rt::a(4u32) => n"), "{out}");
}

#[test]
fn a_guarded_arm_still_parses_as_rust() {
    let text = "fn f(v: Option<i32>) -> i32 { match v { Some(n) => n, _ => 0 } }";
    let out = apply(text, &[mutant(span_of(text, "Some(n)"), 4, "", Shape::Arm)]);

    _ = parse_file(&out).expect("the instrumented source does not parse");
}

#[test]
fn two_arm_mutants_on_one_pattern_chain_with_and() {
    let text = "fn f(v: Option<i32>) -> i32 { match v { Some(n) => n, _ => 0 } }";
    let span = span_of(text, "Some(n)");
    let out = apply(text, &[mutant(span.clone(), 4, "", Shape::Arm), mutant(span, 5, "", Shape::Arm)]);

    // Repeating `if` would not parse. Only one mutant is ever active, so the conjunction is
    // never actually deciding between them, but it has to be syntactically well formed.
    assert!(out.contains("Some(n) if !::gamma_rt::a(4u32) && !::gamma_rt::a(5u32) =>"), "{out}");
    _ = parse_file(&out).expect("the instrumented source does not parse");
}

#[test]
fn an_arm_guard_nests_inside_an_enclosing_expression_site() {
    let text = "fn f(v: Option<i32>) -> i32 { match v { Some(n) => n, _ => 0 } }";
    let whole = span_of(text, "match v { Some(n) => n, _ => 0 }");
    let arm = span_of(text, "Some(n)");
    let out = apply(text, &[mutant(whole, 1, "0", Shape::Expr), mutant(arm, 2, "", Shape::Arm)]);

    _ = parse_file(&out).expect("the instrumented source does not parse");
    assert!(out.contains("if ::gamma_rt::a(1u32) { 0 }"), "{out}");
    assert!(out.contains("Some(n) if !::gamma_rt::a(2u32) =>"), "{out}");
}

#[test]
fn an_expression_site_becomes_a_parenthesized_guard() {
    let text = "fn f(a: i32, b: i32) -> bool { a < b }";
    let out = apply(text, &[mutant(span_of(text, "a < b"), 7, "(a) <= (b)", Shape::Expr)]);

    assert_eq!(
        out,
        "fn f(a: i32, b: i32) -> bool { (if ::gamma_rt::a(7u32) { (a) <= (b) } else { a < b }) }"
    );
}

#[test]
fn the_guarded_expression_still_parses_as_rust() {
    let text = "fn f(a: i32, b: i32) -> bool { a < b }";
    let out = apply(text, &[mutant(span_of(text, "a < b"), 7, "(a) <= (b)", Shape::Expr)]);

    _ = parse_file(&out).expect("the instrumented source does not parse");
}

#[test]
fn a_guard_in_condition_position_parses() {
    // Without the parentheses this would be `if { .. } { .. }`, which Rust rejects.
    let text = "fn f(a: i32, b: i32) { if a < b { g(); } }";
    let out = apply(text, &[mutant(span_of(text, "a < b"), 1, "(a) <= (b)", Shape::Expr)]);

    _ = parse_file(&out).expect("the instrumented source does not parse");
}

#[test]
fn two_mutants_on_one_span_nest_rather_than_collide() {
    let text = "fn f(a: i32, b: i32) -> bool { a < b }";
    let site = span_of(text, "a < b");
    let out = apply(
        text,
        &[
            mutant(site.clone(), 1, "(a) <= (b)", Shape::Expr),
            mutant(site, 2, "(a) > (b)", Shape::Expr),
        ],
    );

    assert!(out.contains("::gamma_rt::a(1u32)"));
    assert!(out.contains("::gamma_rt::a(2u32)"));
    _ = parse_file(&out).expect("the instrumented source does not parse");
}

#[test]
fn a_nested_site_is_instrumented_only_in_the_default_branch() {
    // `a + b < c`: the `<` site contains the `+` site. Exactly one mutant is live per process,
    // so the `<` replacement can use plain operands; only the fall-through arm needs children.
    let text = "fn f(a: i32, b: i32, c: i32) -> bool { a + b < c }";
    let out = apply(
        text,
        &[
            mutant(span_of(text, "a + b < c"), 1, "(a + b) <= (c)", Shape::Expr),
            mutant(span_of(text, "a + b"), 2, "(a) - (b)", Shape::Expr),
        ],
    );

    assert_eq!(out.matches("::gamma_rt::a(2u32)").count(), 1);

    let then_arm = out.split("else").next().unwrap();

    assert!(!then_arm.contains("a(2u32)"));
    _ = parse_file(&out).expect("the instrumented source does not parse");
}

#[test]
fn nesting_does_not_grow_exponentially() {
    // Three nested sites encode three guards, not eight.
    let text = "fn f(a: i32, b: i32, c: i32, d: i32) -> bool { a + b * c < d }";
    let out = apply(
        text,
        &[
            mutant(span_of(text, "a + b * c < d"), 1, "(a + b * c) <= (d)", Shape::Expr),
            mutant(span_of(text, "a + b * c"), 2, "(a) - (b * c)", Shape::Expr),
            mutant(span_of(text, "b * c"), 3, "(b) / (c)", Shape::Expr),
        ],
    );

    assert_eq!(out.matches("::gamma_rt::a(").count(), 3);
    _ = parse_file(&out).expect("the instrumented source does not parse");
}

#[test]
fn a_block_site_stays_a_block() {
    let text = "fn f() -> i32 { compute() }";
    let out = apply(text, &[mutant(span_of(text, "{ compute() }"), 4, "0", Shape::Block)]);

    assert!(out.contains("{ if ::gamma_rt::a(4u32) { 0 } else {"));
    _ = parse_file(&out).expect("the instrumented source does not parse");
}

#[test]
fn a_block_site_containing_an_expression_site_nests() {
    let text = "fn f(a: i32) -> i32 { a + 1 }";
    let out = apply(
        text,
        &[
            mutant(span_of(text, "{ a + 1 }"), 1, "0", Shape::Block),
            mutant(span_of(text, "a + 1"), 2, "(a) - (1)", Shape::Expr),
        ],
    );

    assert_eq!(out.matches("::gamma_rt::a(").count(), 2);
    _ = parse_file(&out).expect("the instrumented source does not parse");
}

#[test]
fn a_statement_site_is_skipped_when_active() {
    let text = "fn f(v: &mut Vec<i32>) { v.push(1); }";
    let out = apply(text, &[mutant(span_of(text, "v.push(1);"), 9, "", Shape::Stmt)]);

    assert!(out.contains("if !::gamma_rt::a(9u32) { v.push(1); }"));
    _ = parse_file(&out).expect("the instrumented source does not parse");
}

#[test]
fn sites_are_spliced_at_the_right_offsets_when_there_are_several() {
    let text = "fn f(a: i32, b: i32) -> i32 { let x = a + b; let y = a - b; x * y }";
    let out = apply(
        text,
        &[
            mutant(span_of(text, "a + b"), 1, "(a) - (b)", Shape::Expr),
            mutant(span_of(text, "a - b"), 2, "(a) + (b)", Shape::Expr),
        ],
    );

    assert!(out.contains("let x = (if ::gamma_rt::a(1u32)"));
    assert!(out.contains("let y = (if ::gamma_rt::a(2u32)"));
    _ = parse_file(&out).expect("the instrumented source does not parse");
}

#[test]
fn text_outside_every_site_is_preserved_exactly() {
    let text = "// a comment\nfn f(a: i32) -> i32 { a + 1 }\n// trailing\n";
    let out = apply(text, &[mutant(span_of(text, "a + 1"), 1, "(a) - (1)", Shape::Expr)]);

    assert!(out.starts_with("// a comment\n"));
    assert!(out.ends_with("// trailing\n"));
}

#[test]
fn a_span_beyond_the_text_is_skipped_rather_than_spliced() {
    let text = "fn f() {}";

    assert_eq!(apply(text, &[mutant(100..200, 1, "0", Shape::Expr)]), text);
}

#[test]
fn an_empty_span_is_skipped() {
    let text = "fn f() {}";

    assert_eq!(apply(text, &[mutant(3..3, 1, "0", Shape::Expr)]), text);
}

/// A span landing inside a character is not a span this file can splice.
///
/// Every offset is within the text, so a length check alone lets it through — and then every
/// slice taken from it is `None`, which as an empty string erases the region instead of
/// splicing it. That is worse than a wrong-offset splice: whole functions vanish from the
/// instrumented copy, the build fails somewhere unrelated, and nothing in the pipeline can
/// attribute it, because the guard the invariant check looks for was written correctly.
#[test]
fn a_span_bisecting_a_character_is_skipped_rather_than_deleting_the_region() {
    let text = "fn f() -> usize { let s = \"ππ\"; s.len() }";
    let start = text.find('π').expect("the fixture holds a multi-byte character");

    assert!(!text.is_char_boundary(start + 1), "the premise is an endpoint inside a character");

    assert_eq!(apply(text, &[mutant(start..start + 1, 1, "0", Shape::Expr)]), text);
    assert_eq!(apply(text, &[mutant(start + 1..text.len(), 2, "0", Shape::Expr)]), text);
}

#[test]
fn overlapping_sites_are_rejected() {
    let text = "fn f(a: i32, b: i32, c: i32) -> i32 { a + b + c }";
    let left = span_of(text, "a + b");
    let right = span_of(text, "b + c");
    let result = instrument(text, &[&mutant(left, 1, "x", Shape::Expr), &mutant(right, 2, "y", Shape::Expr)]);

    _ = result.expect_err("the instrumentation was expected to fail");
}

#[test]
fn multibyte_text_is_spliced_on_byte_boundaries() {
    let text = "fn f(a: i32) -> i32 { /* π ≈ 3 */ a + 1 }";
    let out = apply(text, &[mutant(span_of(text, "a + 1"), 1, "(a) - (1)", Shape::Expr)]);

    assert!(out.contains("π ≈ 3"));
    _ = parse_file(&out).expect("the instrumented source does not parse");
}

#[test]
fn ordinals_are_emitted_in_order_within_a_span() {
    let text = "fn f(a: i32, b: i32) -> bool { a < b }";
    let site = span_of(text, "a < b");
    let out = apply(
        text,
        &[
            mutant(site.clone(), 5, "(a) > (b)", Shape::Expr),
            mutant(site, 3, "(a) <= (b)", Shape::Expr),
        ],
    );

    assert!(out.find("a(3u32)").unwrap() < out.find("a(5u32)").unwrap());
}
