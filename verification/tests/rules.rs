use lint::{
    check_document, check_in_output_order, BlockKind, Document, HeadingLevel, Location, RuleId,
};

/// One source that each rule reports on exactly once.
///
/// Lines: 1 a title, 2 blank, 3 a level-3 heading whose level skips one (MD001) and that has no
/// blank line below it (MD022), 4 a line opening with hashes and no space (MD018), 5 blank, 6
/// blank (MD012), 7 a second level-1 heading (MD025) ending in a tab (MD009, MD010) and long
/// enough to wrap (MD013), with no final newline (MD047).
fn every_rule_once() -> Document {
    let source = "# t\n\n### s\n#x\n\n\n# ".to_string() + &"a ".repeat(40) + "b\t";
    let blocks = vec![
        (BlockKind::Heading(HeadingLevel::H1), 0..3),
        (BlockKind::Heading(HeadingLevel::H3), 5..10),
        (BlockKind::Heading(HeadingLevel::H1), 16..source.len()),
    ];
    Document::from_source_and_blocks(&source, blocks)
}

#[test]
fn registry_runs_every_rule_in_scope() {
    let doc = every_rule_once();

    let mut rules: Vec<RuleId> = check_document(&doc)
        .iter()
        .map(|finding| finding.rule())
        .collect();
    assert_eq!(rules.len(), 9);
    rules.sort();

    assert_eq!(
        rules,
        [
            RuleId::Md001,
            RuleId::Md009,
            RuleId::Md010,
            RuleId::Md012,
            RuleId::Md013,
            RuleId::Md018,
            RuleId::Md022,
            RuleId::Md025,
            RuleId::Md047
        ]
    );
}

#[test]
fn the_rules_report_in_identifier_order() {
    let doc = every_rule_once();
    let rules: Vec<RuleId> = check_document(&doc)
        .iter()
        .map(|finding| finding.rule())
        .collect();
    let mut sorted = rules.clone();
    sorted.sort();
    assert_eq!(rules, sorted);
}

#[test]
fn output_order_is_by_line_then_column_then_rule() {
    let doc = every_rule_once();
    let order: Vec<(usize, usize, RuleId)> = check_in_output_order(&doc)
        .iter()
        .map(|finding| {
            let location = finding.location();
            (location.line(), location.col(), finding.rule())
        })
        .collect();
    // The line after the final tab is 84 characters: "# " and forty "a " and "b" and the tab.
    assert_eq!(
        order,
        [
            (3, 1, RuleId::Md001),
            (3, 1, RuleId::Md022),
            (4, 1, RuleId::Md018),
            (6, 1, RuleId::Md012),
            (7, 1, RuleId::Md025),
            (7, 81, RuleId::Md013),
            (7, 84, RuleId::Md009),
            (7, 84, RuleId::Md010),
            (7, 85, RuleId::Md047),
        ]
    );
    let locations: Vec<Location> = check_in_output_order(&doc)
        .iter()
        .map(|finding| finding.location())
        .collect();
    assert!(locations.windows(2).all(|pair| pair[0] <= pair[1]));
}

#[test]
fn a_clean_document_has_no_findings() {
    let doc = Document::from_source_and_blocks(
        "# Title\n\ntext\n",
        vec![(BlockKind::Heading(HeadingLevel::H1), 0..7)],
    );
    assert!(check_document(&doc).is_empty());
    assert!(check_in_output_order(&doc).is_empty());
}
