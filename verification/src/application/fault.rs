use std::path::PathBuf;

use vstd::prelude::*;
use vstd::std_specs::convert::FromSpecImpl;

use crate::text::{decimal, push_decimal, push_str};

verus! {

/// `std::path::PathBuf`, which the faults and the findings of one file carry as an opaque value.
#[verifier::external_type_specification]
#[verifier::external_body]
pub struct ExPathBuf(PathBuf);

/// `PathBuf::clone`: a copy of the path, holding the same bytes, so equal to it. Nothing else is
/// stated of a path, which is an opaque value here.
pub assume_specification [<PathBuf as Clone>::clone] (path: &PathBuf) -> (res: PathBuf)
    ensures
        res == *path,
;

/// A fault from resolving one input into file paths.
#[derive(Debug, Clone, PartialEq, Eq)]
pub enum WalkFault {
    /// The path does not exist on disk.
    NotFound {
        /// The offending path.
        path: PathBuf,
    },
    /// The path exists but a directory entry under it could not be listed.
    Unreadable {
        /// The offending path.
        path: PathBuf,
        /// A human-readable detail (never file contents).
        detail: String,
    },
}

/// A fault from reading one file's contents.
#[derive(Debug, Clone, PartialEq, Eq)]
pub enum ReadFault {
    /// The path is not a regular file or a symlink to one, such as a named pipe, a device, or a
    /// directory, and was not read.
    NotRegularFile {
        /// The offending path.
        path: PathBuf,
    },
    /// The file exists but could not be read (for example, permission denied).
    Unreadable {
        /// The offending path.
        path: PathBuf,
        /// A human-readable detail (never file contents).
        detail: String,
    },
    /// The file is larger than the size bound enforced before allocating a read buffer.
    TooLarge {
        /// The offending path.
        path: PathBuf,
        /// The bound that was exceeded, in bytes.
        limit_bytes: u64,
    },
    /// The file's bytes are not valid UTF-8.
    InvalidUtf8 {
        /// The offending path.
        path: PathBuf,
    },
}

/// A failure to deliver output.
#[derive(Debug, Clone, PartialEq, Eq)]
pub enum ReportFault {
    /// The output's reader has gone away, as with a broken pipe.
    Closed,
    /// The output could not be written for any other reason.
    Unwritable {
        /// The operating system's reason.
        detail: String,
    },
}

/// The unified fault taxonomy a run reports on the fault stream and folds into the exit code.
#[derive(Debug, Clone, PartialEq, Eq)]
pub enum LintFault {
    /// The path does not exist on disk.
    NotFound {
        /// The offending path.
        path: PathBuf,
    },
    /// The path is not a regular file and was not read.
    NotRegularFile {
        /// The offending path.
        path: PathBuf,
    },
    /// The path exists but could not be read.
    Unreadable {
        /// The offending path.
        path: PathBuf,
        /// A human-readable detail (never file contents).
        detail: String,
    },
    /// The file is larger than the enforced size bound.
    TooLarge {
        /// The offending path.
        path: PathBuf,
        /// The bound that was exceeded, in bytes.
        limit_bytes: u64,
    },
    /// The file's bytes are not valid UTF-8.
    InvalidUtf8 {
        /// The offending path.
        path: PathBuf,
    },
    /// Standard output could not be written, so the run stopped.
    OutputUnwritable {
        /// The operating system's reason.
        detail: String,
    },
}

/// The lint fault a walk fault becomes: the same variant, with the same fields.
pub open spec fn walk_fault_as_lint_fault(fault: WalkFault) -> LintFault {
    match fault {
        WalkFault::NotFound { path } => LintFault::NotFound { path },
        WalkFault::Unreadable { path, detail } => LintFault::Unreadable { path, detail },
    }
}

/// The lint fault a read fault becomes: the same variant, with the same fields.
pub open spec fn read_fault_as_lint_fault(fault: ReadFault) -> LintFault {
    match fault {
        ReadFault::NotRegularFile { path } => LintFault::NotRegularFile { path },
        ReadFault::Unreadable { path, detail } => LintFault::Unreadable { path, detail },
        ReadFault::TooLarge { path, limit_bytes } => LintFault::TooLarge { path, limit_bytes },
        ReadFault::InvalidUtf8 { path } => LintFault::InvalidUtf8 { path },
    }
}

impl From<WalkFault> for LintFault {
    fn from(fault: WalkFault) -> (res: LintFault) {
        match fault {
            WalkFault::NotFound { path } => LintFault::NotFound { path },
            WalkFault::Unreadable { path, detail } => LintFault::Unreadable { path, detail },
        }
    }
}

impl FromSpecImpl<WalkFault> for LintFault {
    open spec fn obeys_from_spec() -> bool {
        true
    }

    open spec fn from_spec(v: WalkFault) -> LintFault {
        walk_fault_as_lint_fault(v)
    }
}

impl From<ReadFault> for LintFault {
    fn from(fault: ReadFault) -> (res: LintFault) {
        match fault {
            ReadFault::NotRegularFile { path } => LintFault::NotRegularFile { path },
            ReadFault::Unreadable { path, detail } => LintFault::Unreadable { path, detail },
            ReadFault::TooLarge { path, limit_bytes } => LintFault::TooLarge { path, limit_bytes },
            ReadFault::InvalidUtf8 { path } => LintFault::InvalidUtf8 { path },
        }
    }
}

impl FromSpecImpl<ReadFault> for LintFault {
    open spec fn obeys_from_spec() -> bool {
        true
    }

    open spec fn from_spec(v: ReadFault) -> LintFault {
        read_fault_as_lint_fault(v)
    }
}

/// The text a fault renders as, given the text its path displays as.
pub open spec fn fault_text(fault: LintFault, path_text: Seq<char>) -> Seq<char> {
    match fault {
        LintFault::NotFound { .. } => path_text + ": no such file or directory"@,
        LintFault::NotRegularFile { .. } => path_text + ": not a regular file"@,
        LintFault::Unreadable { detail, .. } => path_text + ": cannot be read ("@ + detail@ + ")"@,
        LintFault::TooLarge { limit_bytes, .. } => path_text + ": exceeds the maximum size of "@
            + decimal(limit_bytes as nat) + " bytes"@,
        LintFault::InvalidUtf8 { .. } => path_text + ": not valid UTF-8"@,
        LintFault::OutputUnwritable { detail } => "standard output: cannot be written ("@ + detail@
            + ")"@,
    }
}

/// The text a path displays as (`Path::display`): its bytes, read as UTF-8, with every byte
/// sequence that is not UTF-8 replaced by U+FFFD. A function of the path alone.
pub uninterp spec fn path_display(path: PathBuf) -> Seq<char>;

/// The text `path` displays as: `Path::display`, converted to a `String`. The contract names the
/// text as a function of the path and states nothing more of it.
#[verifier::external_body]
pub(crate) fn display_path(path: &PathBuf) -> (res: String)
    ensures
        res@ == path_display(*path),
{
    path.display().to_string()
}

/// The text a fault's path displays as, or no text for an output failure, which has no path.
pub open spec fn fault_path_text(fault: LintFault) -> Seq<char> {
    match fault {
        LintFault::NotFound { path } => path_display(path),
        LintFault::NotRegularFile { path } => path_display(path),
        LintFault::Unreadable { path, .. } => path_display(path),
        LintFault::TooLarge { path, .. } => path_display(path),
        LintFault::InvalidUtf8 { path } => path_display(path),
        LintFault::OutputUnwritable { .. } => Seq::empty(),
    }
}

impl LintFault {
    /// The path the fault concerns, for every fault but an output failure.
    pub fn path(&self) -> (res: Option<&PathBuf>)
        ensures
            match *self {
                LintFault::NotFound { path } => res == Some(&path),
                LintFault::NotRegularFile { path } => res == Some(&path),
                LintFault::Unreadable { path, .. } => res == Some(&path),
                LintFault::TooLarge { path, .. } => res == Some(&path),
                LintFault::InvalidUtf8 { path } => res == Some(&path),
                LintFault::OutputUnwritable { .. } => res is None,
            },
    {
        match self {
            LintFault::NotFound { path } => Some(path),
            LintFault::NotRegularFile { path } => Some(path),
            LintFault::Unreadable { path, .. } => Some(path),
            LintFault::TooLarge { path, .. } => Some(path),
            LintFault::InvalidUtf8 { path } => Some(path),
            LintFault::OutputUnwritable { .. } => None,
        }
    }

    /// The fault's message when its path displays as `path_text`. A message never holds file
    /// contents: only the path, a limit, or the operating system's reason.
    pub fn to_text_with_path(&self, path_text: &str) -> (res: String)
        ensures
            res@ == fault_text(*self, path_text@),
    {
        let mut text = String::new();
        match self {
            LintFault::OutputUnwritable { detail } => {
                push_str(&mut text, "standard output: cannot be written (");
                push_str(&mut text, detail.as_str());
                push_str(&mut text, ")");
            },
            LintFault::NotFound { .. } => {
                push_str(&mut text, path_text);
                push_str(&mut text, ": no such file or directory");
            },
            LintFault::NotRegularFile { .. } => {
                push_str(&mut text, path_text);
                push_str(&mut text, ": not a regular file");
            },
            LintFault::Unreadable { detail, .. } => {
                push_str(&mut text, path_text);
                push_str(&mut text, ": cannot be read (");
                push_str(&mut text, detail.as_str());
                push_str(&mut text, ")");
            },
            LintFault::TooLarge { limit_bytes, .. } => {
                push_str(&mut text, path_text);
                push_str(&mut text, ": exceeds the maximum size of ");
                push_decimal(&mut text, *limit_bytes);
                push_str(&mut text, " bytes");
            },
            LintFault::InvalidUtf8 { .. } => {
                push_str(&mut text, path_text);
                push_str(&mut text, ": not valid UTF-8");
            },
        }
        assert(text@ =~= fault_text(*self, path_text@));
        text
    }

    /// The fault's message, as its `Display` would render it: the path as it displays, then what
    /// went wrong.
    pub fn to_text(&self) -> (res: String)
        ensures
            res@ == fault_text(*self, fault_path_text(*self)),
    {
        let path_text = match self.path() {
            Some(path) => display_path(path),
            None => String::new(),
        };
        self.to_text_with_path(path_text.as_str())
    }
}

} // verus!
