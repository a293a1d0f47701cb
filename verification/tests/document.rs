use std::ops::Range;

use lint::{BlockKind, Document};

#[test]
fn no_trailing_newline_is_counted_as_zero() {
    let doc = Document::from_source("abc");
    assert_eq!(doc.lines(), ["abc"]);
    assert_eq!(doc.trailing_newline_count(), 0);
}

#[test]
fn single_trailing_newline_is_counted_as_one() {
    let doc = Document::from_source("abc\n");
    assert_eq!(doc.lines(), ["abc"]);
    assert_eq!(doc.trailing_newline_count(), 1);
}

#[test]
fn two_trailing_newlines_add_one_blank_line_and_count_two() {
    let doc = Document::from_source("abc\n\n");
    assert_eq!(doc.lines(), ["abc", ""]);
    assert_eq!(doc.trailing_newline_count(), 2);
}

#[test]
fn three_trailing_newlines_add_two_blank_lines_and_count_three() {
    let doc = Document::from_source("abc\n\n\n");
    assert_eq!(doc.lines(), ["abc", "", ""]);
    assert_eq!(doc.trailing_newline_count(), 3);
}

#[test]
fn empty_source_has_no_lines_and_is_marked_empty() {
    let doc = Document::from_source("");
    assert!(doc.lines().is_empty());
    assert_eq!(doc.trailing_newline_count(), 0);
    assert!(doc.source_is_empty());
}

#[test]
fn multiple_lines_split_on_newline() {
    let doc = Document::from_source("one\ntwo\nthree\n");
    assert_eq!(doc.lines(), ["one", "two", "three"]);
    assert_eq!(doc.trailing_newline_count(), 1);
}

#[test]
fn crlf_line_terminators_strip_the_carriage_return() {
    let doc = Document::from_source("one\r\ntwo\r\n");
    assert_eq!(doc.lines(), ["one", "two"]);
    assert_eq!(doc.trailing_newline_count(), 1);
}

/// `(kind, first line, last line)` for every block, in `blocks()` order.
fn spans(doc: &Document) -> Vec<(BlockKind, usize, usize)> {
    doc.blocks()
        .iter()
        .map(|block| {
            let lines = block.lines();
            (block.kind(), lines.first(), lines.last())
        })
        .collect()
}

#[test]
fn from_source_has_no_blocks() {
    assert!(Document::from_source("```\ncode\n```\n").blocks().is_empty());
}

#[test]
fn maps_byte_ranges_to_line_spans() {
    // Offsets: "para\n" 0..5, "\n" 5..6, "```\n" 6..10, "code\n" 10..15, "```\n" 15..19,
    // "\n" 19..20, "after\n" 20..26.
    let source = "para\n\n```\ncode\n```\n\nafter\n";
    let cases = [
        (6..18, (3, 5)),                       // closing fence without its newline
        (6..19, (3, 5)),                       // closing fence with its newline
        (8..12, (3, 4)),                       // starts and ends mid-line
        (10..10, (4, 4)),                      // empty range
        (0..26, (1, 7)),                       // whole source
        (Range { start: 15, end: 6 }, (5, 5)), // end before start
        (26..40, (7, 7)),                      // after the final newline
        (100..200, (7, 7)),                    // beyond the source
    ];

    for (range, (first, last)) in cases {
        let doc =
            Document::from_source_and_blocks(source, vec![(BlockKind::FencedCode, range.clone())]);
        assert_eq!(
            spans(&doc),
            [(BlockKind::FencedCode, first, last)],
            "range {range:?}"
        );
        assert_eq!(doc.lines(), Document::from_source(source).lines());
    }
}

#[test]
fn crlf_ranges_use_the_same_line_numbers() {
    let source = "a\r\n```\r\n\r\n```\r\nb\r\n";
    let doc = Document::from_source_and_blocks(source, vec![(BlockKind::FencedCode, 3..15)]);
    assert_eq!(spans(&doc), [(BlockKind::FencedCode, 2, 4)]);
}

#[test]
fn blocks_are_ordered_by_first_line_keeping_supplied_order_for_ties() {
    let source = "para\n\n```\ncode\n```\n\nafter\n";
    let doc = Document::from_source_and_blocks(
        source,
        vec![
            (BlockKind::IndentedCode, 10..15),
            (BlockKind::FencedCode, 6..19),
            (BlockKind::IndentedCode, 6..10),
        ],
    );
    assert_eq!(
        spans(&doc),
        [
            (BlockKind::FencedCode, 3, 5),
            (BlockKind::IndentedCode, 3, 3),
            (BlockKind::IndentedCode, 4, 4),
        ]
    );
}

#[test]
fn source_without_lines_drops_every_block() {
    let doc = Document::from_source_and_blocks("", vec![(BlockKind::FencedCode, 0..10)]);
    assert!(doc.blocks().is_empty());
    assert!(doc.source_is_empty());
}

#[test]
fn mapping_is_total_for_every_range() {
    let sources = ["", "\n", "a", "a\r\n\r\n", "```\n\n\n", "x\n\ny"];

    for source in sources {
        let expected = Document::from_source(source);
        let line_count = expected.lines().len();
        for start in 0..=source.len() + 2 {
            for end in 0..=source.len() + 2 {
                let doc = Document::from_source_and_blocks(
                    source,
                    vec![(BlockKind::IndentedCode, start..end)],
                );
                assert_eq!(doc.lines(), expected.lines());
                assert_eq!(
                    doc.trailing_newline_count(),
                    expected.trailing_newline_count()
                );

                if line_count == 0 {
                    assert!(doc.blocks().is_empty(), "{source:?} {start}..{end}");
                    continue;
                }
                let [(_, first, last)] = spans(&doc)[..] else {
                    panic!("expected one block for {source:?} {start}..{end}");
                };
                assert!(
                    1 <= first && first <= last && last <= line_count,
                    "{source:?} {start}..{end} gave {first}..={last}"
                );

                // The first line holds the byte at `start`, counted naively.
                let clamped = start.min(source.len());
                let naive_first = 1 + source.as_bytes()[..clamped]
                    .iter()
                    .filter(|&&b| b == b'\n')
                    .count();
                assert_eq!(
                    first,
                    naive_first.min(line_count),
                    "{source:?} {start}..{end}"
                );
            }
        }
    }
}

#[test]
fn lines_joined_with_newlines_give_a_source_without_carriage_returns_back() {
    let sources = ["", "a", "a\n", "a\n\n", "\n", "\n\nx", "one\ntwo\n\n\nthree", "é\t日本\n"];
    for source in sources {
        let doc = Document::from_source(source);
        let mut rebuilt = doc.lines().join("\n");
        if source.ends_with('\n') {
            rebuilt.push('\n');
        }
        assert_eq!(rebuilt, source);
        assert!(doc.lines().iter().all(|line| !line.contains('\n')));
    }
}

#[test]
fn no_line_ends_with_a_carriage_return() {
    let doc = Document::from_source("a\r\r\nb\r");
    assert_eq!(doc.lines(), ["a", "b"]);
    assert_eq!(doc.trailing_newline_count(), 0);

    let doc = Document::from_source("\r\r\nx\ry\r\n\r");
    assert_eq!(doc.lines(), ["", "x\ry", ""]);
    for source in ["\r", "\r\n\r\n", "a\r\r\r", "a\rb"] {
        let doc = Document::from_source(source);
        assert!(
            doc.lines().iter().all(|line| !line.ends_with('\r') && !line.contains('\n')),
            "{source:?}"
        );
    }
}

#[test]
fn a_range_in_a_multibyte_line_maps_by_bytes() {
    // "é" is two bytes: "é\n" is 0..3, "x\n" is 3..5.
    let doc = Document::from_source_and_blocks("é\nx\n", vec![(BlockKind::Html, 2..4)]);
    assert_eq!(spans(&doc), [(BlockKind::Html, 1, 2)]);
}

#[test]
fn a_cloned_document_is_equal_to_the_original() {
    let doc = Document::from_source_and_blocks(
        "a\r\n```\r\n\r\n```\r\nb\r\n",
        vec![(BlockKind::FencedCode, 3..15)],
    );
    let copy = doc.clone();
    assert_eq!(copy, doc);
    assert_eq!(spans(&copy), [(BlockKind::FencedCode, 2, 4)]);
}
