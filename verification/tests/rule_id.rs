use lint::RuleId;

#[test]
fn display_prints_canonical_rule_ids() {
    assert_eq!(RuleId::Md009.code(), "MD009");
    assert_eq!(RuleId::Md047.code(), "MD047");
}

#[test]
fn every_rule_prints_its_identifier_and_ranks_in_identifier_order() {
    let rules = [
        (RuleId::Md001, "MD001"),
        (RuleId::Md009, "MD009"),
        (RuleId::Md010, "MD010"),
        (RuleId::Md012, "MD012"),
        (RuleId::Md013, "MD013"),
        (RuleId::Md018, "MD018"),
        (RuleId::Md022, "MD022"),
        (RuleId::Md025, "MD025"),
        (RuleId::Md047, "MD047"),
    ];
    for (index, (rule, code)) in rules.iter().enumerate() {
        assert_eq!(rule.code(), *code);
        assert_eq!(usize::from(rule.rank()), index);
    }
    for pair in rules.windows(2) {
        assert!(pair[0].0 < pair[1].0);
    }
}
