use std::path::PathBuf;

use lint::{LintFault, ReadFault, WalkFault};

#[test]
fn walk_fault_not_found_converts_to_lint_fault() {
    let fault = WalkFault::NotFound {
        path: PathBuf::from("missing.md"),
    };
    assert_eq!(
        LintFault::from(fault),
        LintFault::NotFound {
            path: PathBuf::from("missing.md")
        }
    );
}

#[test]
fn read_fault_too_large_converts_to_lint_fault() {
    let fault = ReadFault::TooLarge {
        path: PathBuf::from("huge.md"),
        limit_bytes: 10,
    };
    assert_eq!(
        LintFault::from(fault),
        LintFault::TooLarge {
            path: PathBuf::from("huge.md"),
            limit_bytes: 10
        }
    );
}

#[test]
fn display_never_echoes_file_contents() {
    let fault = LintFault::Unreadable {
        path: PathBuf::from("secret.md"),
        detail: "permission denied".to_string(),
    };
    let rendered = fault.to_text();
    assert!(rendered.contains("secret.md"));
    assert!(rendered.contains("permission denied"));
}

#[test]
fn every_fault_renders_its_exact_text() {
    let path = || PathBuf::from("dir/a.md");
    let cases = [
        (
            LintFault::NotFound { path: path() },
            "dir/a.md: no such file or directory",
        ),
        (
            LintFault::NotRegularFile { path: path() },
            "dir/a.md: not a regular file",
        ),
        (
            LintFault::Unreadable {
                path: path(),
                detail: "Permission denied (os error 13)".to_string(),
            },
            "dir/a.md: cannot be read (Permission denied (os error 13))",
        ),
        (
            LintFault::TooLarge {
                path: path(),
                limit_bytes: 10_485_760,
            },
            "dir/a.md: exceeds the maximum size of 10485760 bytes",
        ),
        (
            LintFault::InvalidUtf8 { path: path() },
            "dir/a.md: not valid UTF-8",
        ),
        (
            LintFault::OutputUnwritable {
                detail: "No space left on device (os error 28)".to_string(),
            },
            "standard output: cannot be written (No space left on device (os error 28))",
        ),
    ];
    for (fault, text) in cases {
        assert_eq!(fault.to_text(), text);
    }
}

#[test]
fn every_read_and_walk_fault_keeps_its_variant_and_fields() {
    let path = || PathBuf::from("x.md");
    assert_eq!(
        LintFault::from(WalkFault::Unreadable {
            path: path(),
            detail: "d".to_string()
        }),
        LintFault::Unreadable {
            path: path(),
            detail: "d".to_string()
        }
    );
    assert_eq!(
        LintFault::from(ReadFault::NotRegularFile { path: path() }),
        LintFault::NotRegularFile { path: path() }
    );
    assert_eq!(
        LintFault::from(ReadFault::Unreadable {
            path: path(),
            detail: "e".to_string()
        }),
        LintFault::Unreadable {
            path: path(),
            detail: "e".to_string()
        }
    );
    assert_eq!(
        LintFault::from(ReadFault::InvalidUtf8 { path: path() }),
        LintFault::InvalidUtf8 { path: path() }
    );
}

#[test]
fn a_fault_is_written_with_the_path_it_concerns() {
    let fault = LintFault::NotFound {
        path: PathBuf::from("missing.md"),
    };
    assert_eq!(fault.path(), Some(&PathBuf::from("missing.md")));
    assert_eq!(fault.to_text(), "missing.md: no such file or directory");
    assert_eq!(
        fault.to_text_with_path("elsewhere.md"),
        "elsewhere.md: no such file or directory"
    );
    let output = LintFault::OutputUnwritable {
        detail: "x".to_string(),
    };
    assert_eq!(output.path(), None);
}

#[test]
fn a_fault_is_written_as_one_line_to_the_fault_stream() {
    let fault = LintFault::NotFound {
        path: PathBuf::from("missing.md"),
    };
    let line = fault.to_text();
    assert_eq!(line, "missing.md: no such file or directory");
    assert!(!line.contains('\n'));
}
