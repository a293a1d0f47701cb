//! The ports a run talks to: the file system, the Markdown parser, and the output. Each is a
//! trait its caller implements; the run decides, and the ports do the work.
use std::path::PathBuf;

use vstd::prelude::*;

use crate::application::fault::{LintFault, ReadFault, ReportFault, WalkFault};
use crate::application::run::FileFindings;
use crate::document::{Document, DocumentView};

verus! {

/// Resolves one input (a file or a directory) into zero or more Markdown file paths to check.
pub trait Walker {
    /// Resolves `input`. For a directory, returns the Markdown files found under it, in
    /// sorted-by-name, depth-first order; for a file, returns that one path.
    ///
    /// # Errors
    ///
    /// Returns [`WalkFault::NotFound`] when `input` does not exist, or [`WalkFault::Unreadable`]
    /// when a directory entry under it could not be listed.
    fn resolve(&self, input: &PathBuf) -> (res: Result<Vec<PathBuf>, WalkFault>)
        ensures
            self.resolves_to(*input, resolution_view(res)),
    ;

    /// Whether resolving `input` may give `result`. Unless an implementation says more, any
    /// result may come.
    open spec fn resolves_to(&self, input: PathBuf, result: Result<Seq<PathBuf>, WalkFault>) -> bool {
        true
    }
}

/// The value of a resolution: the files, in order, or the fault.
pub open spec fn resolution_view(result: Result<Vec<PathBuf>, WalkFault>) -> Result<
    Seq<PathBuf>,
    WalkFault,
> {
    match result {
        Ok(files) => Ok(files@),
        Err(fault) => Err(fault),
    }
}

/// Reads and UTF-8-validates one regular file's bytes, within a fixed size bound.
///
/// An implementation rejects any path that is not a regular file, or a symlink to one, without
/// reading from it, and never reads more than one byte past the size bound.
pub trait SourceReader {
    /// Reads `path`'s contents.
    ///
    /// # Errors
    ///
    /// Returns [`ReadFault::NotRegularFile`] when `path` is not a regular file,
    /// [`ReadFault::TooLarge`] when it holds more bytes than the size bound,
    /// [`ReadFault::InvalidUtf8`] when its bytes are not UTF-8, or [`ReadFault::Unreadable`] for
    /// any other failure.
    fn read(&self, path: &PathBuf) -> (res: Result<String, ReadFault>)
        ensures
            self.reads_as(*path, res),
    ;

    /// Whether reading `path` may give `result`. Unless an implementation says more, any result
    /// may come.
    open spec fn reads_as(&self, path: PathBuf, result: Result<String, ReadFault>) -> bool {
        true
    }
}

/// Parses Markdown source into a [`Document`].
pub trait MarkdownParser {
    /// Parses `source` into its lines and the blocks the rules need. Infallible: every source is
    /// some Markdown document.
    fn parse(&self, source: &str) -> (res: Document)
        ensures
            self.parses_to(source@, res@),
    ;

    /// Whether parsing `source` may give the document `doc`. Unless an implementation says more,
    /// any document may come.
    open spec fn parses_to(&self, source: Seq<char>, doc: DocumentView) -> bool {
        true
    }
}

/// Delivers results as they are produced: each file's findings, each fault, and the end of the
/// run.
///
/// After [`report_findings`](Reporter::report_findings) or [`finish`](Reporter::finish) returns
/// an error, the run stops and the reporter receives no further call, except one
/// [`report_fault`](Reporter::report_fault) with [`LintFault::OutputUnwritable`] when the error
/// was [`ReportFault::Unwritable`].
pub trait Reporter {
    /// Writes every finding of one file, in the order given, and returns once they have been
    /// delivered.
    ///
    /// # Errors
    ///
    /// Returns [`ReportFault::Closed`] when the output's reader has gone away, or
    /// [`ReportFault::Unwritable`] for any other write or flush failure.
    fn report_findings(&mut self, file: &FileFindings) -> (res: Result<(), ReportFault>)
        ensures
            old(self).delivers(*file, res),
    ;

    /// Whether a reporter in this state, handed `file`, may answer `result`. Unless an
    /// implementation says more, any answer may come.
    open spec fn delivers(&self, file: FileFindings, result: Result<(), ReportFault>) -> bool {
        true
    }

    /// Reports one fault as it occurs. Delivery is best effort.
    fn report_fault(&mut self, fault: &LintFault)
        ensures
            old(self).takes_fault(*fault),
    ;

    /// Whether a reporter in this state has been handed `fault`. Unless an implementation says
    /// more, this holds of every fault.
    open spec fn takes_fault(&self, fault: LintFault) -> bool {
        true
    }

    /// Completes the output after the last input, delivering anything still buffered.
    ///
    /// # Errors
    ///
    /// Returns [`ReportFault::Closed`] or [`ReportFault::Unwritable`], as for
    /// [`report_findings`](Reporter::report_findings).
    fn finish(&mut self) -> (res: Result<(), ReportFault>)
        ensures
            old(self).finishes(res),
    ;

    /// Whether a reporter in this state, asked to finish, may answer `result`. Unless an
    /// implementation says more, any answer may come.
    open spec fn finishes(&self, result: Result<(), ReportFault>) -> bool {
        true
    }
}

} // verus!
