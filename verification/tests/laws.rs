//! What the library promises as a whole, on concrete values.
use gamma_engine::cfg::CfgSet;
use gamma_engine::error::ErrorKind;
use gamma_engine::lexer::{read_token, Token};
use gamma_engine::model::{mutant_id_with_discriminator, normalize_site_text, MutantDefinition, SiteIndex};
use gamma_engine::ops::collect::candidate::{keep_distinct, put_in_order};
use gamma_engine::ops::collect::collector::naming::without_layout;
use gamma_engine::ops::collect::collector::noop::is_noop;
use gamma_engine::ops::collect::collector::predicates::{is_binding_case, is_constant_case};
use gamma_engine::ops::collect::collector::types::Types;
use gamma_engine::ops::collect::collector::values::{return_values, RETURN_WIDTH};
use gamma_engine::ops::collect::defaults::DefaultPaths;
use gamma_engine::ops::collect::{
    check_stated, check_stated_and_collect_with, collect, collect_in, collect_with, into_definitions, Candidate, Defaults, Shape,
};
use gamma_engine::ops::registry::lookup::{best_of, unmatched};
use gamma_engine::ops::registry::{families, find, find_preset, presets, registry, resolve, Selection};
use gamma_engine::parse::comment::scan_comments;
use gamma_engine::parse::lines::line_starts;
use gamma_engine::parse::nesting::beyond;
use gamma_engine::parse::source_file::unreadable;
use gamma_engine::parse::{exceeds_nesting_limit, without_bom, SourceFile};
use gamma_engine::schema::{instrument, instrument_with_guards, AssignedMutant, Ordinal};
use gamma_engine::syntax::lower::read;
use gamma_engine::syntax::Node;
use gamma_engine::table::Table;

fn parsed(source: &str) -> SourceFile {
    SourceFile::parse("test.rs", source.to_owned()).expect("the fixture parses")
}

fn found(source: &str, ops: &str) -> Vec<Candidate> {
    collect(&parsed(source), &Selection::parse(ops).expect("the selectors resolve"))
}

fn defined(source: &str, ops: &str) -> Vec<MutantDefinition> {
    into_definitions(&parsed(source), found(source, ops))
}

fn candidate(mutator: &'static str, start: usize, end: usize, replacement: &str, index: u32) -> Candidate {
    Candidate {
        mutator,
        span: start..end,
        replacement: replacement.to_owned(),
        replacement_index: index,
        item_path: "f".to_owned(),
        shape: Shape::Expr,
        trait_impl: None,
    }
}

const BUSY: &str = "
    mod m {
        struct S { n: usize, name: String }
        impl Default for S {
            fn default() -> Self { Self { n: 0, name: String::new() } }
        }
        impl S {
            fn grow(&mut self, by: usize) -> Result<usize, Error> {
                let mut total = self.n;
                for i in 0..by {
                    if i % 2 == 0 { continue; }
                    total += i;
                }
                self.n = total;
                match total { 0 => Err(Error::Empty), 1 if by > 3 => Ok(1), _ => Ok(total + 1) }
            }
        }
    }
    fn all() -> Vec<i32> { vec![1, 2, 3] }
";

// ---- Candidates. ----

#[test]
fn every_candidate_was_asked_for_and_covers_text() {
    let file = parsed(BUSY);
    let selection = Selection::parse("all").unwrap();
    let candidates = collect(&file, &selection);

    assert!(candidates.len() > 40, "{}", candidates.len());

    for candidate in &candidates {
        assert!(selection.contains(candidate.mutator));
        assert!(candidate.span.start < candidate.span.end && candidate.span.end <= file.text.len());
        assert_ne!(candidate.replacement, file.slice(&candidate.span));
    }
}

#[test]
fn an_empty_selection_admits_nothing() {
    assert!(collect(&parsed(BUSY), &Selection::empty()).is_empty());
}

#[test]
fn no_edit_is_admitted_twice_and_the_rest_are_in_order() {
    let candidates = found(BUSY, "all");

    for (i, left) in candidates.iter().enumerate() {
        for right in &candidates[i + 1..] {
            assert!(left.span != right.span || left.replacement != right.replacement, "{left:?} {right:?}");
            let one = (left.span.start, left.mutator, left.span.end, left.replacement_index);
            let other = (right.span.start, right.mutator, right.span.end, right.replacement_index);
            assert!(one <= other, "{left:?} {right:?}");
        }
    }
}

#[test]
fn the_first_name_for_an_edit_keeps_it() {
    let kept = keep_distinct(vec![
        candidate("literal.int_increment", 4, 5, "1", 2),
        candidate("literal.int_to_one", 4, 5, "1", 1),
        candidate("literal.int_to_one", 6, 7, "1", 1),
        candidate("literal.int_decrement", 4, 5, "-1", 3),
    ]);

    let names: Vec<(&str, usize)> = kept.iter().map(|c| (c.mutator, c.span.start)).collect();
    assert_eq!(
        names,
        [("literal.int_increment", 4), ("literal.int_to_one", 6), ("literal.int_decrement", 4)]
    );
}

#[test]
fn candidates_are_ordered_by_start_mutator_end_and_index() {
    let ordered = put_in_order(vec![
        candidate("b.b", 3, 9, "one", 1),
        candidate("b.b", 3, 9, "two", 0),
        candidate("a.a", 3, 9, "three", 5),
        candidate("z.z", 3, 4, "four", 0),
        candidate("z.z", 0, 99, "five", 0),
    ]);

    let texts: Vec<&str> = ordered.iter().map(|c| c.replacement.as_str()).collect();
    assert_eq!(texts, ["five", "three", "two", "one", "four"]);
}

#[test]
fn sites_that_begin_together_are_ordered_by_mutator() {
    let names: Vec<&str> =
        found("fn f(a: i32, b: i32, c: i32) -> i32 { a * b + c }", "arith").into_iter().map(|c| c.mutator).collect();

    assert_eq!(names, ["arith.add_to_mul", "arith.add_to_sub", "arith.mul_to_add", "arith.mul_to_div"]);
}

#[test]
fn a_clone_says_what_the_candidate_says() {
    let first = candidate("a.a", 1, 2, "x", 7);
    let second = first.clone();

    assert_eq!(format!("{first:?}"), format!("{second:?}"));
}

#[test]
fn code_outside_the_build_offers_nothing() {
    let source = "
        #[cfg(windows)] fn a(x: i32) -> i32 { x + 1 }
        #[cfg(unix)] fn b(x: i32) -> i32 { x + 1 }
        fn c(x: i32) -> S { S { #[cfg(windows)] n: x + 1, m: x + 1 } }
        fn d(x: i32) { #[cfg(windows)] { g(x + 1); } }
    ";
    let file = parsed(source);
    let selection = Selection::parse("arith.add_to_sub").unwrap();
    let paths = |cfg: &CfgSet| -> Vec<String> { collect_in(&file, &selection, cfg).into_iter().map(|c| c.item_path).collect() };

    assert_eq!(paths(&CfgSet::parse("unix\n")), ["b", "c"]);
    assert_eq!(paths(&CfgSet::parse("windows\n")), ["a", "c", "c", "d"]);
    assert_eq!(paths(&CfgSet::unconditional()), ["a", "b", "c", "c", "d"]);
}

#[test]
fn a_statement_outside_the_build_says_nothing_of_a_name() {
    let source = "fn f(x: usize) { #[cfg(windows)] let x: &str = g(); h(x); }";
    let file = parsed(source);
    let selection = Selection::parse("expr.increment").unwrap();

    assert_eq!(collect_in(&file, &selection, &CfgSet::parse("unix\n")).len(), 1);
    assert!(collect_in(&file, &selection, &CfgSet::parse("windows\n")).is_empty());
}

#[test]
fn test_code_is_left_alone_without_a_configuration() {
    assert!(found("#[cfg(test)] fn f(x: i32) -> i32 { x + 1 }", "arith").is_empty());
    assert!(found("#[test] fn f() { g(1 + 2); }", "arith").is_empty());
    assert!(!found("#[cfg(feature = \"x\")] fn f(x: i32) -> i32 { x + 1 }", "arith").is_empty());
}

#[test]
fn inert_constructs_offer_nothing() {
    let source = "
        const A: i32 = 1 + 2;
        static B: i32 = 1 + 2;
        enum E { X = 1 + 2 }
        fn f() -> [u8; 1 + 2] { [0; 1 + 2] }
        const fn g() -> i32 { 1 + 2 }
        fn h(v: i32) -> bool { matches_it(&(1 + 2)) && g::<{ 1 + 2 }>() }
    ";

    assert!(found(source, "arith").is_empty());
}

#[test]
fn evidence_from_a_block_does_not_outlive_it() {
    let source = "fn f(x: usize) { { let x: String = g(); h(x); } h(x); }";
    let spans: Vec<usize> = found(source, "expr.increment").into_iter().map(|c| c.span.start).collect();

    assert_eq!(spans, [source.rfind("h(x)").unwrap() + 2]);
}

#[test]
fn an_assignment_that_initializes_a_deferred_binding_is_kept() {
    let source = "fn f(c: bool) { let x; if c { x = 1; } else { x = 2; } let mut y = 0; y = 3; g(x, y); }";
    let deleted: Vec<usize> = found(source, "stmt.delete_assign").into_iter().map(|c| c.span.start).collect();

    assert_eq!(deleted, [source.find("y = 3").unwrap()]);
}

#[test]
fn a_default_is_never_replaced_by_itself() {
    let source = "struct S; impl Default for S { fn default() -> Self { make() } fn other() -> Self { make() } }";
    let paths: Vec<String> = found(source, "fn_value.default").into_iter().map(|c| c.item_path).collect();

    assert_eq!(paths, ["<S as Default>::other"]);
}

#[test]
fn another_error_value_renumbers_nothing() {
    let file = parsed("fn f() -> Result<bool, E> { g() }");
    let with = |errors: &[&str]| -> Vec<(String, u32)> {
        let mut selection = Selection::parse("fn_value").unwrap();
        selection.set_errors(errors.iter().map(|e| (*e).to_owned()).collect());
        collect(&file, &selection).into_iter().map(|c| (c.replacement, c.replacement_index)).collect()
    };

    let fewer = with(&["A"]);
    let more = with(&["A", "B"]);

    assert_eq!(more.len(), fewer.len() + 1);
    assert!(fewer.iter().all(|entry| more.contains(entry)));
}

#[test]
fn a_stated_value_that_is_not_asked_for_changes_nothing() {
    let plain = found("fn f() -> bool { g() }", "fn_value,!fn_value.stated");
    let stated = found("#[gamma::value(h())] fn f() -> bool { g() }", "fn_value,!fn_value.stated");
    let texts = |list: &[Candidate]| -> Vec<String> { list.iter().map(|c| c.replacement.clone()).collect() };

    assert_eq!(texts(&plain), texts(&stated));
    assert_eq!(texts(&plain), ["false", "true"]);
}

#[test]
fn a_return_type_contributes_a_bounded_number_of_values() {
    let mut file = read("fn f() -> Result<(bool, bool, bool, Option<bool>), Vec<(bool, bool)>> { g() }").unwrap();
    let output: Node = file.kids.remove(0).kids.remove(0).kids.remove(0).kids.remove(3);
    let (abstracts, imports, defaults) = (Vec::new(), Table::new(), Defaults::default());
    let types = Types { abstracts: &abstracts, imports: &imports, defaults: &defaults, self_type: None, implementation: None };

    assert_eq!(return_values(&output, &types).len(), RETURN_WIDTH);
}

#[test]
fn reproduction_depends_on_tokens_alone() {
    let defaults = DefaultPaths::default();
    let none = Vec::new();

    for original in ["{ Some(1) }", "{\n    Some( 1 ) // one\n}", "{Some /* a */ (1)}"] {
        assert!(is_noop("Some(1)", original, Shape::Block, &defaults, &none), "{original}");
    }
    assert!(!is_noop("Some(1)", "{ Some(2) }", Shape::Block, &defaults, &none));
    assert!(!is_noop("Some(1)", "{ Some(1) }", Shape::Expr, &defaults, &none));
}

#[test]
fn one_walk_finds_what_two_walks_find() {
    let file = parsed(BUSY);
    let selection = Selection::parse("all").unwrap();
    let cfg = CfgSet::unconditional();
    let defaults = Defaults::of(&file.ast);
    let separately = collect_with(&file, &selection, &cfg, &defaults);
    let fused = check_stated_and_collect_with(&file, &selection, &cfg, &defaults).unwrap();

    assert_eq!(format!("{separately:?}"), format!("{fused:?}"));
}

// ---- Identities. ----

#[test]
fn identities_survive_reformatting_and_moving() {
    let before = "fn f(a: i32, b: i32) -> bool { a+1<b }\nfn g(a: i32, b: i32) -> bool { a+1<b }";
    let after = "// first\nfn g(a: i32, b: i32) -> bool {\n    a + 1\n        < b\n}\n\nfn f(a: i32, b: i32) -> bool { a + 1 < b }";
    let ids = |source: &str| -> Vec<String> {
        let mut ids: Vec<String> = defined(source, "relational,arith").into_iter().map(|m| m.id.spell()).collect();
        ids.sort();
        ids
    };

    assert_eq!(ids(before), ids(after));
}

#[test]
fn unrelated_code_renumbers_nothing() {
    let few = defined("fn f(a: i32) -> bool { a < 1 || a < 1 }", "relational.lt_to_le");
    let many = defined("fn e(a: i32) -> bool { a < 1 }\nfn f(a: i32) -> bool { a < 2 || a < 1 || a < 1 }", "relational.lt_to_le");
    let of_f = |list: &[MutantDefinition]| -> Vec<(String, u32)> {
        list.iter()
            .filter(|m| m.item_path == "f" && m.site.original == "a < 1")
            .map(|m| (m.id.spell(), m.occurrence))
            .collect()
    };

    assert_eq!(of_f(&few), of_f(&many));
    assert_eq!(of_f(&few).len(), 2);
}

#[test]
fn an_identity_is_written_from_its_parts() {
    let id = mutant_id_with_discriminator("a.rs", "m::f", "fn_value.err_with", "{Ok(1)}", SiteIndex::new(2, 13), Some("Err(E)"));

    assert_eq!(id.spell(), "4:a.rs4:m::f17:fn_value.err_with7:{Ok(1)}1:22:136:Err(E)");

    let shifted = mutant_id_with_discriminator("a.rs", "m::f", "fn_value.err_with", "{Ok(1)}", SiteIndex::new(21, 3), Some("Err(E)"));
    assert_ne!(id.spell(), shifted.spell());
    assert_ne!(id, shifted);
}

#[test]
fn normalized_text_keeps_tokens_and_drops_layout() {
    assert_eq!(normalize_site_text("a  <  b"), "a<b");
    assert_eq!(normalize_site_text("let x = \"a  b\" ;"), "let x=\"a  b\";");
    assert_eq!(normalize_site_text("x /* note */ as u8"), "x as u8");
    assert_eq!(without_layout("& 'a  dyn  Marker < u8 >"), "&'a dyn Marker<u8>");
}

#[test]
fn a_definition_says_where_its_site_lies() {
    let mutants = defined("\n\nfn f(a: i32) -> bool {\n    a\n        < 1\n}\n", "relational.lt_to_le");

    assert_eq!(mutants.len(), 1);
    let site = &mutants[0].site;
    assert_eq!((site.line, site.column, site.end_line), (4, 5, 5));
    assert_eq!(site.original, "a\n        < 1");
    assert_eq!(mutants[0].replacement, "(a) <= (1)");
    assert_eq!(mutants[0].file.as_str(), "test.rs");
}

// ---- Instrumented text. ----

#[test]
fn collected_mutants_are_instrumented_into_text_that_still_parses() {
    let file = parsed(BUSY);
    let mutants = into_definitions(&file, collect(&file, &Selection::parse("all").unwrap()));
    let assigned: Vec<AssignedMutant<'_>> =
        mutants.iter().enumerate().map(|(n, mutant)| AssignedMutant::new(Ordinal::new(n as u32), mutant)).collect();
    let (out, guards) = instrument_with_guards(&file.text, &assigned).expect("the sites nest");

    assert_eq!(guards.len(), mutants.len());
    assert!(read(&out).is_ok(), "{out}");
}

#[test]
fn overlapping_sites_are_a_failure() {
    let one = 0..5;
    let other = 3..8;
    let fault = instrument(
        "a + b + c",
        &[
            AssignedMutant::from_parts(0, &one, "x", Shape::Expr),
            AssignedMutant::from_parts(1, &other, "y", Shape::Expr),
        ],
    )
    .expect_err("the spans overlap without nesting");

    assert_eq!(fault.kind, ErrorKind::Failure);
}

// ---- Texts. ----

fn assert_comments_exist(text: &str) {
    let comments = scan_comments(text, &line_starts(text));
    let mut previous = 0;

    for comment in &comments {
        assert!(comment.span.start < comment.span.end && comment.span.end <= text.len(), "{comment:?} of {text:?}");
        assert!(text.get(comment.span.clone()).is_some(), "{comment:?} of {text:?}");
        assert!(comment.span.start >= previous, "{comment:?} of {text:?}");
        assert!(comment.line >= 1 && comment.line <= text.lines().count().max(1), "{comment:?} of {text:?}");
        previous = comment.span.end;
    }
}

#[test]
fn a_comment_loses_its_delimiters_and_one_leading_space() {
    let body = |text: &str| scan_comments(text, &line_starts(text)).remove(0).body;

    assert_eq!(body("//  two"), " two");
    assert_eq!(body("// one"), "one");
    assert_eq!(body("//none"), "none");
    assert_eq!(body("//\ttab "), "\ttab ");
    assert_eq!(body("/// doc"), "doc");
    assert_eq!(body("//! inner"), "inner");
    assert_eq!(body("/* block */"), "block ");
    assert_eq!(body("/**  outer*/"), " outer");
    assert_eq!(body("//"), "");
}

const PIECES: [&str; 14] = ["", "/", "//", "/*", "*/", "\"", "'", "\\", "r#\"", "\"#", "\n", "é", "\u{1f980}", "x"];

#[test]
fn arbitrary_text_is_scanned_into_spans_that_exist() {
    for a in PIECES {
        for b in PIECES {
            for c in PIECES {
                for d in PIECES {
                    assert_comments_exist(&format!("{a}{b}{c}{d}"));
                    assert_comments_exist(&format!("{a}x{b}{c}x{d}\n{a}{b}"));
                }
            }
        }
    }
}

#[test]
fn text_without_a_delimiter_yields_no_comments() {
    for a in PIECES {
        for b in PIECES {
            for c in PIECES {
                let text = format!("{a}{b}{c}{a}").replace('/', "");

                assert!(scan_comments(&text, &line_starts(&text)).is_empty(), "{text:?}");
            }
        }
    }
}

#[test]
fn a_larger_limit_accepts_more() {
    let text = format!("fn f() -> i32 {{ {}1{} }}\n", "(".repeat(12), ")".repeat(12));
    let comments = scan_comments(&text, &line_starts(&text));
    let mut refused = true;

    for limit in 0..20 {
        match beyond(&text, &comments, limit) {
            Some(at) => {
                assert!(refused, "a limit of {limit} refuses what a smaller one accepts");
                assert!(at < text.len());
            }
            None => refused = false,
        }
    }
    assert!(!refused);
}

#[test]
fn only_a_leading_mark_is_dropped() {
    assert_eq!(without_bom("\u{feff}fn a() {}".to_owned()), "fn a() {}");
    assert_eq!(without_bom("\u{feff}\u{feff}x".to_owned()), "\u{feff}x");
    assert_eq!(without_bom("x\u{feff}".to_owned()), "x\u{feff}");
}

#[test]
fn spans_count_a_line_that_names_an_interpreter() {
    let file = parsed("#!/usr/bin/env run\nfn f(a: i32) -> i32 { a + 1 }\n");
    let found = collect(&file, &Selection::parse("arith.add_to_sub").unwrap());

    assert_eq!(found.len(), 1);
    assert_eq!(file.slice(&found[0].span), "a + 1");
    assert_eq!(found[0].replacement, "(a) - (1)");
    assert_eq!(file.location(found[0].span.start), (2, 24));
}

#[test]
fn each_refusal_is_of_its_kind() {
    let deep = format!("fn f() -> i32 {{ {}1{} }}\n", "(".repeat(4_096), ")".repeat(4_096));
    assert!(exceeds_nesting_limit(&deep));
    let fault = SourceFile::parse("deep.rs", deep).unwrap_err();
    assert_eq!(fault.kind, ErrorKind::Skippable);
    assert!(fault.is_skippable());

    let fault = SourceFile::parse("a\u{7}.rs", "fn f( {".to_owned()).unwrap_err();
    assert_eq!(fault.kind, ErrorKind::Failure);
    assert!(!fault.is_skippable());
    assert!(fault.message().starts_with("a\\u{7}.rs:1:"), "{}", fault.message());

    let fault = unreadable("no\nsuch.rs");
    assert_eq!(fault.kind, ErrorKind::Failure);
    assert_eq!(fault.message(), "could not read `no\\u{a}such.rs`");

    assert_eq!(resolve("no_such_family").unwrap_err().kind, ErrorKind::Usage);
    assert_eq!(check_stated(&parsed("#[gamma::value()]\nfn f() -> u8 { 1 }")).unwrap_err().kind, ErrorKind::Usage);
}

#[test]
fn a_file_can_be_relocated() {
    let mut file = parsed("fn f() {}\n");
    file.set_path("other.rs");

    assert_eq!(file.path(), "other.rs");
    assert_eq!(file.text(), "fn f() {}\n");
    assert_eq!(file.line_of(3), 1);
    assert!(file.comments().is_empty());
    assert_eq!(file.ast().kids[0].kids.len(), 1);
}

// ---- What the workspace defines. ----

#[test]
fn indexes_fold_in_any_order() {
    let sources = [
        "pub struct A; pub type Result<T> = core::result::Result<T, A>;",
        "#[derive(Default)] pub struct B; pub enum C { X }",
        "pub struct A; impl Default for A { fn default() -> Self { A } } pub type Other<T> = core::result::Result<T, C>;",
    ];
    let fold = |order: [usize; 3]| {
        let mut all = Defaults::default();
        for at in order {
            all.absorb(Defaults::of(&parsed(sources[at]).ast));
        }
        all
    };

    for order in [[0, 1, 2], [2, 1, 0], [1, 0, 2]] {
        let all = fold(order);
        assert!(!all.lacks_error_default("A"), "{order:?}");
        assert!(!all.lacks_error_default("B"), "{order:?}");
        assert!(all.lacks_error_default("C"), "{order:?}");
        assert!(!all.lacks_error_default("Unknown"), "{order:?}");
        assert_eq!(all.aliased_error("Result"), Some("A"), "{order:?}");
        assert_eq!(all.aliased_error("Other"), Some("C"), "{order:?}");
    }
}

// ---- Names. ----

#[test]
fn the_case_of_a_name_is_read_beyond_ascii() {
    assert!(is_constant_case("MAX_É"));
    assert!(!is_constant_case("MAX_é"));
    assert!(!is_constant_case("É"));
    assert!(is_binding_case("value"));
    assert!(!is_binding_case("Value"));
}

#[test]
fn tokens_are_told_apart() {
    assert!(matches!(read_token("été + 1"), (Token::Ident, 5)));
    assert!(matches!(read_token("r#fn"), (Token::RawIdent, 4)));
    assert!(matches!(read_token("'a>"), (Token::Lifetime, 2)));
    assert!(matches!(read_token("  x"), (Token::Trivia, 2)));
    assert!(matches!(read_token("+="), (Token::Mark('+'), 1)));
    assert!(matches!(read_token(";"), (Token::Mark(';'), 1)));
    assert!(matches!(read_token("{}"), (Token::Bracket('{'), 1)));
    assert!(matches!(read_token("\"open"), (Token::Invalid, _)));
}

#[test]
fn the_registry_is_consistent() {
    let entries = registry();

    for entry in &entries {
        assert_eq!(find(entry.name).map(|found| found.name), Some(entry.name));
        assert_eq!(entry.name.matches('.').count(), 1);
        assert!(families().contains(&entry.name.split('.').next().unwrap()));
    }
    for preset in &presets() {
        assert_eq!(find_preset(preset.name).map(|found| found.name), Some(preset.name));
    }
}

#[test]
fn exclusions_carve_out_what_they_match_from_left_to_right() {
    let one = Selection::parse("relational,!relational").unwrap();
    let other = Selection::parse("!relational,relational").unwrap();

    assert!(one.sorted().is_empty());
    assert_eq!(other.sorted(), Selection::parse("relational").unwrap().sorted());
}

#[test]
fn the_families_make_up_the_registry() {
    let joined: Vec<&str> = families().into_iter().flat_map(|family| resolve(family).unwrap()).collect();

    assert_eq!(joined, resolve("all").unwrap());
    assert_eq!(resolve("assign_value").unwrap(), ["assign_value.default"]);
    assert!(!resolve("assign").unwrap().contains(&"assign_value.default"));
}

#[test]
fn the_default_and_the_pedantic_preset_make_up_everything() {
    let on = Selection::default_preset();
    let off = Selection::parse("@pedantic").unwrap();

    assert_eq!(off.sorted(), ["fn_value.some"]);
    assert_eq!(on, Selection::parse("@default").unwrap());
    assert_eq!(Selection::parse("@default,@pedantic").unwrap(), Selection::everything());
    for name in Selection::everything().sorted() {
        assert_ne!(on.contains(name), off.contains(name), "{name}");
    }
}

/// Byte offset of a one-based position.
fn offset(text: &str, line: u32, column: u32) -> usize {
    let start: usize = text.split_inclusive('\n').take(line as usize - 1).map(str::len).sum();

    start + text[start..].chars().take(column as usize - 1).map(char::len_utf8).sum::<usize>()
}

#[test]
fn a_guard_stands_where_it_is_reported() {
    let text = "fn f(é: i32) -> i32 {\n    é + 1;\n    é - 2\n}\n";
    let definitions = defined(text, "all");
    let mut mutants: Vec<AssignedMutant> = Vec::new();
    for (index, definition) in definitions.iter().enumerate() {
        mutants.push(AssignedMutant::new(Ordinal::new(index as u32), definition));
    }
    let beyond = 1_000..1_001;
    mutants.push(AssignedMutant::from_parts(9_999, &beyond, "x", Shape::Expr));
    let (out, guards) = instrument_with_guards(text, &mutants).unwrap();
    let mut keys: Vec<u32> = guards.keys().copied().collect();
    keys.sort_unstable();

    assert_eq!(instrument(text, &mutants).unwrap(), out);
    assert!(keys.len() > 2);
    assert_eq!(keys, (0..definitions.len() as u32).collect::<Vec<u32>>());
    for (ordinal, guard) in &guards {
        let start = offset(&out, guard.site.start.line, guard.site.start.column);
        let end = offset(&out, guard.site.end.line, guard.site.end.column);

        assert!(out[start..end].contains(&format!("::gamma_rt::a({ordinal}u32)")));
    }
}

#[test]
fn checking_on_the_way_finds_what_the_check_finds() {
    let selection = Selection::parse("all").unwrap();
    let cfg = CfgSet::unconditional();
    for source in [
        "#[gamma::value(1)] fn f() -> i32 { 2 } #[cfg(test)] mod t { fn g() -> i32 { 1 } }",
        "#[gamma::value(1 +)] fn f() -> i32 { 2 } #[cfg(test)] mod t { fn g() -> i32 { 1 } }",
        "#[gamma::value(1)] struct S;",
    ] {
        let file = parsed(source);
        let fused = check_stated_and_collect_with(&file, &selection, &cfg, &Defaults::default());

        match check_stated(&file) {
            Ok(()) => assert_eq!(fused.unwrap().len(), collect(&file, &selection).len()),
            Err(fault) => assert_eq!(fused.unwrap_err().message, fault.message),
        }
    }

    let aside = parsed("#[cfg(test)] mod t { #[gamma::value(1 +)] fn g() -> i32 { 1 } }");
    assert!(check_stated(&aside).is_err());
    assert!(check_stated_and_collect_with(&aside, &selection, &cfg, &Defaults::default()).is_ok());
}

/// Only a `vec!` is read as a list, and only an attribute that states a value as an expression.
#[test]
fn the_body_of_another_macro_is_not_read() {
    assert_eq!(found("fn f() { vec![1, 2, 3]; }", "collection").len(), 3);
    assert!(found("fn f() { other![1, 2, 3]; }", "collection").is_empty());
    assert!(found("fn f() { a::vec![1, 2, 3]; }", "collection").is_empty());
    assert!(found("fn f() { vec![1; 3]; }", "collection").is_empty());
}

#[test]
fn the_order_of_mutants_does_not_matter() {
    let text = "fn f(a: i32, b: i32) -> i32 { a * b + 1 }";
    let definitions = defined(text, "all");
    let forth: Vec<AssignedMutant> =
        definitions.iter().enumerate().map(|(index, definition)| AssignedMutant::new(Ordinal::new(index as u32), definition)).collect();
    let back: Vec<AssignedMutant> = forth.iter().rev().copied().collect();

    assert!(forth.len() > 3);
    assert_eq!(instrument_with_guards(text, &forth).unwrap(), instrument_with_guards(text, &back).unwrap());

    let spans = [0..20, 2..10, 4..12, 6..14];
    let crossed: Vec<AssignedMutant> =
        (0u32..).zip(&spans).map(|(ordinal, span)| AssignedMutant::from_parts(ordinal, span, "x", Shape::Expr)).collect();
    let turned: Vec<AssignedMutant> = crossed.iter().rev().copied().collect();

    assert_eq!(instrument(text, &crossed).unwrap_err().message, "mutation sites 2..10 and 4..12 overlap without nesting");
    assert_eq!(instrument(text, &turned).unwrap_err().message, "mutation sites 2..10 and 4..12 overlap without nesting");
}

#[test]
fn the_innermost_open_site_is_named() {
    let text = "fn f(a: i32, b: i32) -> i32 { a * b + 1 }";
    let spans = [0..10, 1..8, 2..4, 5..9];
    let mutants: Vec<AssignedMutant> =
        (0u32..).zip(&spans).map(|(ordinal, span)| AssignedMutant::from_parts(ordinal, span, "x", Shape::Expr)).collect();

    assert_eq!(instrument(text, &mutants).unwrap_err().message, "mutation sites 1..8 and 5..9 overlap without nesting");
}

/// The first of the highest scores counts, and only one that is high enough.
#[test]
fn the_likeliest_spelling_is_suggested() {
    let offered: Vec<String> = ["one", "two", "three"].iter().map(|&spelling| spelling.to_owned()).collect();
    let likely = 0.85f64.to_bits();

    assert_eq!(best_of(&vec![likely, likely + 2, likely + 2]), Some(1));
    assert_eq!(best_of(&vec![likely, 0, likely - 1]), None);
    assert_eq!(
        unmatched("tow", &offered, &vec![likely + 1, likely + 2, 3]).message,
        "unknown mutator selector `tow`; did you mean `two`?"
    );
    assert_eq!(
        unmatched("tow", &offered, &vec![1, 2, 3]).message,
        "unknown mutator selector `tow`; run `cargo gamma list mutators` to see the registry"
    );
}

#[test]
fn identities_survive_moving_code() {
    let plain = "use a::b;\nimpl S { fn f(&self, n: usize) -> Option<usize> { Some(n + 1) } }\nmod m { fn g() -> i32 { vec![1, 2]; 3 } }\n";
    let moved = "// about\n\nuse a::b;\n\n/* the type */ impl S {\n\n    // a method\n    fn f(&self, n: usize) -> Option<usize> { Some(n + 1) }\n}\n\n\nmod m {\n fn g() -> i32 { vec![1, 2]; 3 }\n}";
    let (before, after) = (defined(plain, "all"), defined(moved, "all"));

    assert!(before.len() > 10);
    assert_eq!(before.len(), after.len());
    for (one, other) in before.iter().zip(&after) {
        assert_eq!(one.id, other.id);
        assert_eq!(one.replacement, other.replacement);
        assert!(one.site.span.start < other.site.span.start);
        assert_eq!(plain[one.site.span.clone()], moved[other.site.span.clone()]);
    }
}
