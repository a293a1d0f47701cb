use vstd::prelude::*;

verus! {

/// The closed set of rules the library implements, in ascending identifier order.
///
/// [`RuleId::code`] gives the rule's canonical identifier (`"MD009"`, `"MD047"`), matching the
/// `path:line:col RULE message` output format.
#[derive(Debug, Clone, Copy, PartialEq, Eq, Structural, PartialOrd, Ord, Hash)]
#[non_exhaustive]
pub enum RuleId {
    /// `heading-increment`: a heading skips a level.
    Md001,
    /// `no-trailing-spaces`: a line ends with trailing whitespace.
    Md009,
    /// `no-hard-tabs`: a line contains a hard tab.
    Md010,
    /// `no-multiple-blanks`: more than one consecutive blank line.
    Md012,
    /// `line-length`: a line is longer than the limit and could be wrapped.
    Md013,
    /// `no-missing-space-atx`: `#` characters with no space after them.
    Md018,
    /// `blanks-around-headings`: a heading without a blank line above or below.
    Md022,
    /// `single-h1`: a second level-1 heading after a title.
    Md025,
    /// `single-trailing-newline`: the file does not end with exactly one newline.
    Md047,
}

/// The position of a rule in ascending identifier order, which is also the order `Ord` gives.
pub open spec fn rule_rank(rule: RuleId) -> nat {
    match rule {
        RuleId::Md001 => 0,
        RuleId::Md009 => 1,
        RuleId::Md010 => 2,
        RuleId::Md012 => 3,
        RuleId::Md013 => 4,
        RuleId::Md018 => 5,
        RuleId::Md022 => 6,
        RuleId::Md025 => 7,
        RuleId::Md047 => 8,
    }
}

/// The canonical identifier a rule prints as.
pub open spec fn rule_code(rule: RuleId) -> Seq<char> {
    match rule {
        RuleId::Md001 => "MD001"@,
        RuleId::Md009 => "MD009"@,
        RuleId::Md010 => "MD010"@,
        RuleId::Md012 => "MD012"@,
        RuleId::Md013 => "MD013"@,
        RuleId::Md018 => "MD018"@,
        RuleId::Md022 => "MD022"@,
        RuleId::Md025 => "MD025"@,
        RuleId::Md047 => "MD047"@,
    }
}

impl RuleId {
    /// The rule's position in ascending identifier order.
    pub fn rank(&self) -> (res: u8)
        ensures
            res == rule_rank(*self),
    {
        match self {
            RuleId::Md001 => 0,
            RuleId::Md009 => 1,
            RuleId::Md010 => 2,
            RuleId::Md012 => 3,
            RuleId::Md013 => 4,
            RuleId::Md018 => 5,
            RuleId::Md022 => 6,
            RuleId::Md025 => 7,
            RuleId::Md047 => 8,
        }
    }

    /// The rule's canonical identifier, such as `"MD009"`.
    pub fn code(&self) -> (res: &'static str)
        ensures
            res@ == rule_code(*self),
    {
        match self {
            RuleId::Md001 => "MD001",
            RuleId::Md009 => "MD009",
            RuleId::Md010 => "MD010",
            RuleId::Md012 => "MD012",
            RuleId::Md013 => "MD013",
            RuleId::Md018 => "MD018",
            RuleId::Md022 => "MD022",
            RuleId::Md025 => "MD025",
            RuleId::Md047 => "MD047",
        }
    }
}

} // verus!
