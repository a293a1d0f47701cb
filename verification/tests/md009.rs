use lint::{Document, Location, Md009, Rule, RuleId};

#[test]
fn clean_line_reports_nothing() {
    let doc = Document::from_source("no trailing space\n");
    assert!(Md009.check(&doc).is_empty());
}

#[test]
fn trailing_spaces_are_reported_at_the_first_trailing_column() {
    let doc = Document::from_source("abc  \n");
    let findings = Md009.check(&doc);
    assert_eq!(findings.len(), 1);
    assert_eq!(findings[0].rule(), RuleId::Md009);
    assert_eq!(findings[0].location(), Location::new(1, 4).unwrap());
}

#[test]
fn trailing_tab_is_reported() {
    let doc = Document::from_source("abc\t\n");
    let findings = Md009.check(&doc);
    assert_eq!(findings.len(), 1);
    assert_eq!(findings[0].location(), Location::new(1, 4).unwrap());
}

#[test]
fn md009_leading_and_internal_spaces_alone_report_nothing() {
    let doc = Document::from_source("  abc def\n");
    assert!(Md009.check(&doc).is_empty());
}

#[test]
fn each_offending_line_is_reported_independently() {
    let doc = Document::from_source("clean\ntrail  \nclean again\ntrail again \n");
    let findings = Md009.check(&doc);
    assert_eq!(findings.len(), 2);
    assert_eq!(findings[0].location(), Location::new(2, 6).unwrap());
    assert_eq!(findings[1].location(), Location::new(4, 12).unwrap());
}

#[test]
fn a_whitespace_only_line_is_reported_at_its_first_column() {
    let doc = Document::from_source("text\n   \n");
    let findings = Md009.check(&doc);
    assert_eq!(findings.len(), 1);
    assert_eq!(findings[0].location(), Location::new(2, 1).unwrap());
}
