use std::ops::Range;

use lint::{BlockKind, Document, FindingMessage, HeadingLevel, Md022, Rule, RuleId};

/// Whether the finding is the "above" one.
fn is_above(message: FindingMessage) -> bool {
    message == FindingMessage::MissingBlankLineAboveHeading
}

/// `(line, "above" or "below")` for every finding, in report order.
fn reported(doc: &Document) -> Vec<(usize, &'static str)> {
    Md022
        .check(doc)
        .iter()
        .map(|finding| {
            assert_eq!(finding.rule(), RuleId::Md022);
            assert_eq!(finding.location().col(), 1);
            let side = if is_above(finding.message()) {
                "above"
            } else {
                assert_eq!(
                    finding.message(),
                    FindingMessage::MissingBlankLineBelowHeading
                );
                "below"
            };
            (finding.location().line(), side)
        })
        .collect()
}

/// A document whose headings span the given 1-based inclusive line ranges. The level does not
/// matter to this rule, so every heading is a level-1 one.
fn document(source: &str, headings: &[(usize, usize)]) -> Document {
    let blocks: Vec<_> = headings
        .iter()
        .map(|&(first, last)| {
            (
                BlockKind::Heading(HeadingLevel::H1),
                line_range(source, first, last),
            )
        })
        .collect();
    Document::from_source_and_blocks(source, blocks)
}

/// The byte range covering lines `first` through `last` (1-based), without the terminator of
/// the last line.
fn line_range(source: &str, first: usize, last: usize) -> Range<usize> {
    let mut starts = vec![0];
    starts.extend(
        source
            .bytes()
            .enumerate()
            .filter(|&(_, byte)| byte == b'\n')
            .map(|(offset, _)| offset + 1),
    );
    let start = starts[first - 1];
    let end = starts.get(last).map_or(source.len(), |&next| next - 1);
    start..end.max(start)
}

#[test]
fn reports_above_then_below_on_the_first_line() {
    let doc = document("Intro\n# Heading\nText\n", &[(2, 2)]);
    assert_eq!(reported(&doc), [(2, "above"), (2, "below")]);
}

#[test]
fn lines_beyond_the_file_edges_count_as_blank() {
    let doc = document("# Top\ntext\n\ntext\n## Two\n", &[(1, 1), (5, 5)]);
    assert_eq!(reported(&doc), [(1, "below"), (5, "above")]);

    // A heading on the last line, with no final newline.
    let doc = document("text\n\n# Last", &[(3, 3)]);
    assert!(reported(&doc).is_empty());
}

#[test]
fn extra_blank_lines_are_allowed() {
    let doc = document("text\n\n\n# Heading\n\n\ntext\n", &[(4, 4)]);
    assert!(reported(&doc).is_empty());
}

#[test]
fn setext_heading_is_checked_below_its_underline() {
    let doc = document("para\n\nTitle\n===\nbody\n", &[(3, 4)]);
    assert_eq!(reported(&doc), [(3, "below")]);

    let doc = document("para\n\nline a\nline b\n===\nnext\n", &[(3, 5)]);
    assert_eq!(reported(&doc), [(3, "below")]);

    let doc = document(
        "# First\n\nSetext\n------\n\n## Last\n",
        &[(1, 1), (3, 4), (6, 6)],
    );
    assert!(reported(&doc).is_empty());
}

#[test]
fn quote_markers_and_comments_count_as_blank() {
    let source = "> text\n> # Quoted\n>\n> more\n\n<!-- note -->\n# After comment\n";
    let doc = document(source, &[(2, 2), (7, 7)]);
    assert_eq!(reported(&doc), [(2, "above")]);
}

#[test]
fn md022_text_before_an_unclosed_comment_is_not_blank() {
    let source = "# A\n  \n## B\n>\n### C\n<!-- x -->\n#### D\nx <!-- y\n##### E\n";
    let doc = document(source, &[(1, 1), (3, 3), (5, 5), (7, 7), (9, 9)]);
    assert_eq!(reported(&doc), [(7, "below"), (9, "above")]);
}

#[test]
fn md022_a_document_without_headings_is_clean() {
    assert!(reported(&Document::from_source("text\ntext\n")).is_empty());
}
