use lint::rules::line_text::{is_blank_line, is_comment_block};

#[test]
fn blank_line_cases() {
    let blank = [
        "",
        "   ",
        "\t",
        ">",
        "> >",
        "  >  ",
        "<!-- note -->",
        "> <!-- note -->",
        "<!-- a --> <!-- b -->",
        "<!---->",
    ];
    for line in blank {
        assert!(is_blank_line(line), "{line:?} should be blank");
    }

    let not_blank = ["text", "> text", "x <!-- y -->", "<!-- y --> x", "-", "<"];
    for line in not_blank {
        assert!(!is_blank_line(line), "{line:?} should not be blank");
    }
}

#[test]
fn an_unmatched_close_hides_earlier_text() {
    assert!(is_blank_line("a-->"));
    assert!(is_blank_line("text --> "));
    assert!(!is_blank_line("a--> b"));
}

#[test]
fn an_unclosed_open_hides_the_rest() {
    assert!(is_blank_line("<!--a"));
    assert!(is_blank_line("<!-- a <!-- b"));
    assert!(!is_blank_line("x <!-- y"));
}

#[test]
fn a_million_character_comment_line_is_blank() {
    let line = "<!-- -->".repeat(125_000);
    assert_eq!(line.len(), 1_000_000);
    assert!(is_blank_line(&line));
}

/// Builds the line vector an HTML block spanning `lines` would have.
fn block(lines: &[&str]) -> Vec<String> {
    lines.iter().map(ToString::to_string).collect()
}

#[test]
fn comment_block_cases() {
    let comments = [
        vec!["<!-- c -->"],
        vec!["   <!-- c -->  "],
        vec!["<!---->"],
        vec!["<!-->"],
        vec!["<!--", "c", "-->"],
        vec!["<!--", "", "-->"],
    ];
    for lines in comments {
        assert!(is_comment_block(&block(&lines)), "{lines:?}");
    }

    let not_comments: Vec<Vec<&str>> = vec![
        vec![],
        vec!["<div>"],
        vec!["<!-- c --> text"],
        vec!["text <!-- c -->"],
        vec!["<!-- c -->", "<div>"],
        vec!["<!-->-->"],
        vec!["<!--->-->"],
        vec!["<!----->"],
    ];
    for lines in not_comments {
        assert!(!is_comment_block(&block(&lines)), "{lines:?}");
    }
}

#[test]
fn a_multi_line_comment_block_joins_its_lines() {
    assert!(is_comment_block(&block(&["<!-- start", "end -->"])));
    assert!(!is_comment_block(&block(&["<!-- start", "end --> x"])));
}

#[test]
fn unicode_whitespace_is_blank() {
    assert!(is_blank_line("\u{3000}\u{00A0}\u{2003}"));
    assert!(!is_blank_line("\u{200B}"));
}
