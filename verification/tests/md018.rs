use std::ops::Range;

use lint::rules::line_misses_space_after_hash;
use lint::{BlockKind, Document, FindingMessage, HeadingLevel, Md018, Rule, RuleId};

/// The line numbers reported for `source`, which has no blocks.
fn reported(source: &str) -> Vec<usize> {
    reported_in(&Document::from_source(source))
}

fn reported_in(doc: &Document) -> Vec<usize> {
    Md018
        .check(doc)
        .iter()
        .map(|finding| {
            assert_eq!(finding.rule(), RuleId::Md018);
            assert_eq!(finding.location().col(), 1);
            assert_eq!(finding.message(), FindingMessage::MissingSpaceAfterHash);
            finding.location().line()
        })
        .collect()
}

/// The byte range covering lines `first` through `last` (1-based) of a source whose every line
/// ends with `\n`.
fn line_range(source: &str, first: usize, last: usize) -> Range<usize> {
    let mut starts = vec![0];
    starts.extend(
        source
            .bytes()
            .enumerate()
            .filter(|&(_, byte)| byte == b'\n')
            .map(|(offset, _)| offset + 1),
    );
    starts[first - 1]..starts[last] - 1
}

#[test]
fn reports_hash_followed_by_text() {
    assert_eq!(reported("#Heading\n\n##Two\n"), [1, 3]);
}

#[test]
fn a_run_of_seven_hashes_and_a_continuation_line_are_reported() {
    assert_eq!(reported("#######seven\n\ntext\n#tag\n"), [1, 4]);
}

#[test]
fn md018_exempt_lines_are_not_reported() {
    let exempt = [
        "## Heading",
        "#",
        "###",
        "#\tTab",
        "# x",
        "#Closed#",
        "#Closed ##  ",
        "#x#\u{3000}",
        "  #indented",
        "> #quote",
        "- #item",
        "#\u{FE0F}\u{20E3} keycap",
        "text",
        "",
    ];
    for line in exempt {
        let source = format!("{line}\n");
        assert!(reported(&source).is_empty(), "{line:?}");
    }

    assert_eq!(reported("#!shebang-like\n"), [1]);
}

#[test]
fn code_and_html_spans_hide_lines() {
    let source = "#a\n#b\n#c\n#d\n";
    let hiding = [
        BlockKind::FencedCode,
        BlockKind::IndentedCode,
        BlockKind::Html,
    ];
    for kind in hiding {
        let doc =
            Document::from_source_and_blocks(source, vec![(kind, line_range(source, 2, 3))]);
        assert_eq!(reported_in(&doc), [1, 4], "{kind:?}");
    }
}

#[test]
fn headings_and_containers_do_not_hide_lines() {
    let source = "#a\n#b\n#c\n#d\n";
    let showing = [
        BlockKind::Heading(HeadingLevel::H1),
        BlockKind::BlockQuote,
        BlockKind::List,
    ];
    for kind in showing {
        let doc =
            Document::from_source_and_blocks(source, vec![(kind, line_range(source, 2, 3))]);
        assert_eq!(reported_in(&doc), [1, 2, 3, 4], "{kind:?}");
    }
}

#[test]
fn md018_nested_and_overlapping_spans_match_a_naive_scan() {
    let source = "#a\n#b\n#c\n#d\n#e\n";
    let line_count = 5;
    let mut spans = Vec::new();
    for first in 1..=line_count {
        for last in first..=line_count {
            spans.push((first, last));
        }
    }

    let mut checked = 0;
    for &a in &spans {
        for &b in &spans {
            // Supply the spans out of order to exercise the document's ordering, and mix in a
            // kind that hides nothing.
            let supplied = [
                (BlockKind::Html, b),
                (BlockKind::BlockQuote, a),
                (BlockKind::FencedCode, a),
            ];
            let doc = Document::from_source_and_blocks(
                source,
                supplied
                    .iter()
                    .map(|&(kind, (first, last))| (kind, line_range(source, first, last)))
                    .collect(),
            );

            let expected: Vec<usize> = (1..=line_count)
                .filter(|&number| {
                    !doc.blocks().iter().any(|block| {
                        (block.kind().is_code() || block.kind().is_html())
                            && block.lines().first() <= number
                            && number <= block.lines().last()
                    })
                })
                .collect();

            assert_eq!(reported_in(&doc), expected, "spans {supplied:?}");
            checked += 1;
        }
    }
    assert_eq!(checked, spans.len() * spans.len());
}

#[test]
fn the_line_test_matches_the_rule() {
    assert!(line_misses_space_after_hash("#x"));
    assert!(line_misses_space_after_hash("###x y"));
    assert!(!line_misses_space_after_hash("# x"));
    assert!(!line_misses_space_after_hash("#Closed#"));
    assert!(!line_misses_space_after_hash(" #x"));
    assert!(!line_misses_space_after_hash("####"));
}
