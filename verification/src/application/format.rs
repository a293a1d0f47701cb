use std::path::PathBuf;

use vstd::prelude::*;

use crate::application::fault::{display_path, path_display};
use crate::finding::{finding_text, Finding};
use crate::text::push_str;

verus! {

/// The exit code for a run: `2` when a fault occurred, `1` when none did but a finding did,
/// `0` otherwise.
pub open spec fn exit_code_for(has_fault: bool, has_finding: bool) -> u8 {
    if has_fault {
        2
    } else if has_finding {
        1
    } else {
        0
    }
}

/// The output line of one finding after its path's text: `path:line:col RULE message`.
pub open spec fn finding_line(path_text: Seq<char>, finding: crate::finding::FindingView) -> Seq<char> {
    path_text + ":"@ + finding_text(finding)
}

/// Decides the process exit code from whether any fault or any finding occurred, with a fixed
/// precedence: a fault always wins over a finding, regardless of how many of either occurred,
/// because it means the invocation could not be trusted to have inspected everything asked of it.
pub fn decide_exit_code(has_fault: bool, has_finding: bool) -> (res: u8)
    ensures
        res == exit_code_for(has_fault, has_finding),
{
    if has_fault {
        2
    } else if has_finding {
        1
    } else {
        0
    }
}

/// Formats one finding as the fixed `path:line:col RULE message` text line, for a path that
/// displays as `path_text`.
pub fn format_finding_with_path(path_text: &str, finding: &Finding) -> (res: String)
    ensures
        res@ == finding_line(path_text@, finding@),
{
    let mut line = String::new();
    push_str(&mut line, path_text);
    push_str(&mut line, ":");
    let rest = finding.to_text();
    push_str(&mut line, rest.as_str());
    assert(line@ =~= finding_line(path_text@, finding@));
    line
}

/// Formats one finding as the fixed `path:line:col RULE message` text line, the path as it
/// displays.
pub fn format_finding(path: &PathBuf, finding: &Finding) -> (res: String)
    ensures
        res@ == finding_line(path_display(*path), finding@),
{
    let path_text = display_path(path);
    format_finding_with_path(path_text.as_str(), finding)
}

} // verus!
