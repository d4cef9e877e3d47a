//! Finding and reading comments.
use gamma_engine::parse::comment::{quote_end, raw_string_end, scan_comments, string_end, utf8_width};
use gamma_engine::parse::lines::line_starts;
use gamma_engine::parse::{CommentKind, SourceFile};

fn assert_comment_scan_invariants(text: &str) {
    let comments = scan_comments(text, &line_starts(text));
    let lines = text.lines().count();
    let mut previous = 0;

    for comment in &comments {
        assert!(comment.span.start <= comment.span.end, "a span runs backwards: {comment:?}");
        assert!(comment.span.end <= text.len(), "a span runs past the text: {comment:?}");
        assert!(
            text.get(comment.span.clone()).is_some(),
            "a span is not on a character boundary: {comment:?}"
        );

        // Comments are found by one forward pass, so they come out in order and cannot
        // overlap. A scanner that failed to advance past one would break this first.
        assert!(comment.span.start >= previous, "spans are out of order: {comment:?}");
        previous = comment.span.end;

        assert!(comment.line >= 1, "a comment is before the first line: {comment:?}");
        assert!(comment.line <= lines.max(1), "a comment is past the last line: {comment:?}");
    }
}

fn parse(text: &str) -> SourceFile {
    SourceFile::parse("test.rs", text.to_owned()).unwrap()
}

#[test]
fn known_comments_satisfy_the_fuzz_scan_invariants() {
    assert_comment_scan_invariants("// one\nfn f() {} /* two */\n/// three\n");
}

#[test]
fn line_comments_are_found_and_stripped() {
    let file = parse("// hello\nfn f() {}\n");

    assert_eq!(file.comments.len(), 1);
    assert_eq!(file.comments[0].kind, CommentKind::Line);
    assert_eq!(file.comments[0].body, "hello");
    assert_eq!(file.comments[0].line, 1);
    assert!(!file.comments[0].trailing);
}

#[test]
fn doc_comments_are_distinguished_from_directive_comments() {
    let file = parse("//! module\n/// item\n// plain\n//// also plain\nfn f() {}\n");
    let kinds: Vec<CommentKind> = file.comments.iter().map(|c| c.kind).collect();

    assert_eq!(
        kinds,
        vec![CommentKind::InnerDoc, CommentKind::OuterDoc, CommentKind::Line, CommentKind::Line]
    );
}

#[test]
fn an_escaped_quote_literal_does_not_confuse_the_scanner() {
    // Stopping at the escaped quote in `'\''` would leave the scanner one quote out of step
    // for the rest of the line.
    assert_eq!(quote_end(br"'\''", 0), 4);
    assert_eq!(quote_end(br"'\n'", 0), 4);
    assert_eq!(quote_end(br"'\u{27}'", 0), 8);
    assert_eq!(quote_end(b"'a'", 0), 3);

    // A lifetime is not a literal, so only the quote is consumed.
    assert_eq!(quote_end(b"'static", 0), 1);
}

#[test]
fn an_unterminated_literal_stays_inside_the_text() {
    // The result indexes the text, so running off the end would be a panic waiting to happen.
    for text in [r"'\'", r"'\", "'"] {
        let bytes = text.as_bytes();

        assert!(quote_end(bytes, 0) <= bytes.len(), "{text} ran past the end");
    }
}

#[test]
fn a_comment_after_an_escaped_quote_is_still_found() {
    let file = parse("fn f() { let _q = '\\''; } // after\n");

    assert_eq!(file.comments.len(), 1);
    assert_eq!(file.comments[0].body, "after");
}

#[test]
fn trailing_comments_are_marked() {
    let file = parse("fn f() { let _x = 1; } // after\n");

    assert!(file.comments[0].trailing);
}

#[test]
fn comment_markers_inside_strings_are_not_comments() {
    let file = parse("fn f() -> &'static str { \"// not a comment\" }\n");

    assert!(file.comments.is_empty(), "{:?}", file.comments);
}

#[test]
fn comment_markers_inside_raw_strings_are_not_comments() {
    let file = parse("fn f() -> &'static str { r#\"// nope /* nope */\"# }\n");

    assert!(file.comments.is_empty(), "{:?}", file.comments);
}

#[test]
fn an_escaped_quote_does_not_end_a_string() {
    let file = parse("fn f() -> &'static str { \"a\\\"// no\" }\n// yes\n");

    assert_eq!(file.comments.len(), 1);
    assert_eq!(file.comments[0].body, "yes");
}

#[test]
fn lifetimes_do_not_swallow_the_rest_of_the_file() {
    let file = parse("fn f<'a>(x: &'a str) -> &'a str { x }\n// found me\n");

    assert_eq!(file.comments.len(), 1, "{:?}", file.comments);
    assert_eq!(file.comments[0].body, "found me");
}

#[test]
fn character_literals_are_skipped() {
    let file = parse("fn f() -> char { '\\'' }\n// found me\n");

    assert_eq!(file.comments.len(), 1, "{:?}", file.comments);
    assert_eq!(file.comments[0].body, "found me");
}

#[test]
fn multibyte_character_literals_are_skipped() {
    let file = parse("fn f() -> char { 'é' }\n// found me\n");

    assert_eq!(file.comments.len(), 1, "{:?}", file.comments);
}

#[test]
fn a_quote_in_a_labelled_loop_is_not_a_literal() {
    let file = parse("fn f() { 'outer: loop { break 'outer; } }\n// found me\n");

    assert_eq!(file.comments.len(), 1, "{:?}", file.comments);
}

#[test]
fn block_comments_nest() {
    let file = parse("/* outer /* inner */ still outer */\nfn f() {}\n");

    assert_eq!(file.comments.len(), 1);
    assert!(file.comments[0].body.contains("still outer"));
}

#[test]
fn block_doc_comments_are_classified() {
    let text = "/*! module */\n/** item */\n/**/ /* plain */\nfn f() {}\n";
    let file = parse(text);
    let kinds: Vec<CommentKind> = file.comments.iter().map(|c| c.kind).collect();

    assert_eq!(
        kinds,
        vec![CommentKind::InnerDoc, CommentKind::OuterDoc, CommentKind::Block, CommentKind::Block]
    );
}

#[test]
fn an_unterminated_block_comment_stops_at_end_of_file() {
    // syn rejects this, so scan the trivia directly.
    let text = "fn f() {} /* never closed";
    let comments = scan_comments(text, &line_starts(text));

    assert_eq!(comments.len(), 1);
    assert_eq!(comments[0].span.end, text.len());
}

#[test]
fn spans_point_at_the_comment_itself() {
    let file = parse("fn f() {}\n// directive\n");
    let span = file.comments[0].span.clone();

    assert_eq!(file.slice(&span), "// directive");
}

#[test]
fn r_prefixed_identifiers_are_not_raw_strings() {
    let file = parse("fn f() { let range = 1; let _ = range; }\n// found me\n");

    assert_eq!(file.comments.len(), 1, "{:?}", file.comments);
}

#[test]
fn raw_strings_with_many_hashes_are_handled() {
    let file = parse("fn f() -> &'static str { r###\"a\"# b\"### }\n// found me\n");

    assert_eq!(file.comments.len(), 1, "{:?}", file.comments);
}

#[test]
fn unterminated_strings_and_raw_strings_stop_at_end_of_file() {
    assert_eq!(string_end(b"\"unterminated", 0), b"\"unterminated".len());
    assert_eq!(raw_string_end(br#"r#"unterminated"#, 0), br#"r#"unterminated"#.len());
}

#[test]
fn invalid_raw_string_prefix_consumes_only_the_r() {
    assert_eq!(raw_string_end(b"range", 0), 1);
}

#[test]
fn multibyte_widths_cover_three_and_four_byte_characters() {
    let euro = "€".as_bytes()[0];
    let crab = "🦀".as_bytes()[0];

    assert_eq!(utf8_width(euro), 3);
    assert_eq!(utf8_width(crab), 4);
}

#[test]
fn comments_come_back_in_source_order() {
    let file = parse("// one\nfn f() {}\n// two\nfn g() {}\n// three\n");
    let bodies: Vec<&str> = file.comments.iter().map(|c| c.body.as_str()).collect();

    assert_eq!(bodies, vec!["one", "two", "three"]);
}
