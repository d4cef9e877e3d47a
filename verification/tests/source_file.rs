//! Parsed source files.
use gamma_engine::parse::lines::line_starts;
use gamma_engine::parse::{strip_bom, SourceFile};
use gamma_engine::syntax::Node;

fn parse(text: &str) -> SourceFile {
    SourceFile::parse("test.rs", text.to_owned()).unwrap()
}

#[test]
fn a_parse_failure_names_the_file_and_position() {
    let error = SourceFile::parse("bad.rs", "fn f( {".to_owned()).unwrap_err();
    let message = error.message;

    assert!(message.contains("bad.rs"), "{message}");
    assert!(message.contains("could not parse"), "{message}");
}

/// A file too deep to walk is refused by name, not by dying.
///
/// Every stage that reads source descends by recursion, and a stack overflow on Linux is a
/// `SIGSEGV`: the process disappears with no diagnostic, no file named, and nothing to
/// distinguish it from a bug in the tool. This depth is past the measured overflow point of
/// the parse-and-collect path on the smallest stack a discovery worker runs on, so the file
/// has to be turned away before `syn` ever sees it.
#[test]
fn a_file_nested_deeper_than_the_limit_is_refused_rather_than_overflowing_the_stack() {
    let depth = 4_096;
    let text = format!("fn f() -> i32 {{ {}1{} }}\n", "(".repeat(depth), ")".repeat(depth));
    let message = SourceFile::parse("deep.rs", text).unwrap_err().message;

    assert!(message.contains("deep.rs"), "{message}");
    assert!(message.contains("nests deeper"), "{message}");
}

#[test]
fn a_file_with_a_deep_postfix_chain_is_refused_before_parsing() {
    let chains = [format!("call{}", "()".repeat(4_096)), format!("value{}", "[0]".repeat(4_096))];

    for expression in chains {
        let text = format!("fn f() {{ {expression}; }}\n");
        let message = SourceFile::parse("postfix.rs", text).unwrap_err().message;

        assert!(message.contains("postfix.rs"), "{message}");
        assert!(message.contains("nests deeper"), "{message}");
    }
}

/// Nesting a human would write is still analyzed, which is the other half of the bargain.
#[test]
fn a_file_within_the_nesting_limit_still_parses() {
    let depth = 20;
    let text = format!("fn f() -> i32 {{ {}1{} }}\n", "(".repeat(depth), ")".repeat(depth));

    let parsed = SourceFile::parse("deep_enough.rs", text).expect("nesting a human writes is analyzed");

    assert_eq!(parsed.path, "deep_enough.rs");
}

#[test]
fn locations_are_one_based() {
    let file = parse("fn a() {}\nfn b() {}\n");

    assert_eq!(file.location(0), (1, 1));
    assert_eq!(file.location(3), (1, 4));
    assert_eq!(file.location(10), (2, 1));
}

#[test]
fn columns_count_characters_not_bytes() {
    let file = parse("fn f() { let s = \"éé\"; let _ = s; }\n");
    let offset = file.text.find("let _").unwrap();
    let (line, column) = file.location(offset);

    assert_eq!(line, 1);
    assert_eq!(file.text.get(..offset).unwrap().chars().count() + 1, column);
}

/// Walks the text once, keeping line and column by hand, and reports what every boundary
/// offset should map to.
///
/// Deliberately shares nothing with `location`: no binary search, no `lines` table, no
/// `chars().count()` over a slice. `columns_count_characters_not_bytes` computes its
/// expectation the way the implementation does, on line one where the line start is zero, so
/// an implementation that dropped the line start entirely would still satisfy it. This one
/// would not.
///
/// The final offset is excluded because a text ending in a newline has no line there —
/// `line_starts` pops it — and there is nothing for an independent oracle to agree with.
fn walked(text: &str) -> Vec<(usize, (usize, usize))> {
    let (mut line, mut column) = (1, 1);
    let mut expected = Vec::new();

    for (offset, character) in text.char_indices() {
        expected.push((offset, (line, column)));

        if character == '\n' {
            line += 1;
            column = 1;
        } else {
            column += 1;
        }
    }

    expected
}

#[test]
fn every_boundary_offset_lands_where_walking_the_text_says_it_should() {
    for text in [
        "",
        "\n",
        "fn a() {}\n",
        "fn a() {}\nfn b() {}\n",
        "fn a() {}\r\nfn b() {}\r\n",
        "fn é() { let ß = 1; }\nfn b() {}\n",
        "\u{feff}fn a() {}\n",
        "\u{feff}",
        "\n\n\nfn a() {}",
        "fn a() {}",
    ] {
        let file = parse(text);

        // The file's own text rather than the literal, because a byte-order mark is dropped on
        // the way in — which is the point of the mark case being here.
        for (offset, expected) in walked(&file.text) {
            assert_eq!(file.location(offset), expected, "offset {offset} of {text:?} is misplaced");
        }
    }
}

/// A byte-order mark is dropped, so that spans mean what `syn` meant by them.
///
/// Regression: `syn` skips a leading mark and then counts byte offsets from zero, so on a
/// file that had one every mutant's span was three bytes short of the construct. The recorded
/// original text was the wrong slice, the reported column was wrong, and instrumenting the
/// file on disk spliced guards three bytes off — through the middle of a character, on a file
/// that was not ASCII.
#[test]
fn a_byte_order_mark_is_dropped_so_that_offsets_mean_what_syn_meant() {
    let file = parse("\u{feff}fn a() {}\n");

    assert_eq!(file.text, "fn a() {}\n");
    assert_eq!(file.location(0), (1, 1));

    // A mark anywhere but the front is ordinary text and is left alone.
    let inner = parse("fn a() { let _ = \"\u{feff}\"; }\n");

    assert!(inner.text.contains('\u{feff}'));
}

fn named(node: &Node, text: &str) -> Option<(usize, usize)> {
    if node.text == text {
        return Some((node.start, node.end));
    }
    node.kids.iter().find_map(|kid| named(kid, text))
}

/// Only the first mark is dropped. The parser skips a second one, which is still in the text.
#[test]
fn offsets_count_a_second_mark() {
    let file = parse("\u{feff}\u{feff}fn abc() {}\n");
    let (start, end) = named(&file.ast, "abc").unwrap();

    assert_eq!(file.text, "\u{feff}fn abc() {}\n");
    assert_eq!(&file.text[start..end], "abc");

    let script = parse("\u{feff}\u{feff}#!/bin/sh\nfn abc() {}\n");
    let (start, end) = named(&script.ast, "abc").unwrap();

    assert_eq!(&script.text[start..end], "abc");
}

#[test]
fn strip_bom_removes_only_a_leading_mark() {
    assert_eq!(strip_bom("\u{feff}fn a() {}\n"), "fn a() {}\n");
    assert_eq!(strip_bom("fn a() {}\n"), "fn a() {}\n");
    assert_eq!(
        strip_bom("fn a() { let _ = \"\u{feff}\"; }\n"),
        "fn a() { let _ = \"\u{feff}\"; }\n"
    );
}

#[test]
fn a_trailing_newline_does_not_open_a_line() {
    assert_eq!(parse("fn a() {}\n").lines.len(), 1);
    assert_eq!(parse("fn a() {}\nfn b() {}\n").lines.len(), 2);
}

/// A file whose navigation tables describe `text`.
fn navigable(text: &str) -> SourceFile {
    let mut file = SourceFile::parse("plain.rs", "fn f() {}\n".to_owned()).expect("the stub parses");

    file.lines = line_starts(text);
    text.clone_into(&mut file.text);

    file
}

/// Texts of every mixture of line endings and widths map each boundary offset to a location that is
/// really where it is.
#[test]
fn locations_over_arbitrary_text_agree_with_counting_from_the_start() {
    let pieces = ["", "a", "let x = 1;", "é", "\u{1f980}\u{1f980}", "\t \u{feff}", "ab\rcd"];
    let ends = ["\n", "\r\n"];

    for first in pieces {
        for second in pieces {
            for (one, two) in [(ends[0], ends[0]), (ends[0], ends[1]), (ends[1], ends[0]), (ends[1], ends[1])] {
                let text = &format!("{first}{one}{second}{two}{first}{second}{one}");
                let file = navigable(text);
                let (mut line, mut column) = (1, 1);
                let mut line_start = 0;

                for (offset, character) in text.char_indices() {
                    let located = file.location(offset);

                    assert_eq!(located, (line, column), "offset {offset} of {text:?} is misplaced");

                    let back = text
                        .get(line_start..)
                        .and_then(|rest| rest.char_indices().nth(located.1 - 1))
                        .map(|(index, _)| line_start + index);

                    assert_eq!(back, Some(offset), "the column of {offset} in {text:?} does not lead back");

                    if character == '\n' {
                        line += 1;
                        column = 1;
                        line_start = offset + 1;
                    } else {
                        column += 1;
                    }
                }
            }
        }
    }
}
