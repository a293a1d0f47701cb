use vstd::prelude::*;

use crate::text::{decimal, push_char, push_decimal};

verus! {

/// A 1-based line and column position inside a [`Document`](crate::Document).
///
/// Both numbers are at least 1: the `path:line:col` output format is 1-based, and
/// [`Location::new`] is the only place a zero value is rejected.
#[derive(Debug, Clone, Copy, PartialEq, Eq, Structural, PartialOrd, Ord, Hash)]
pub struct Location {
    line: usize,
    col: usize,
}

/// The mathematical value of a [`Location`]: its line and column numbers.
pub struct LocationView {
    pub line: nat,
    pub col: nat,
}

/// The error returned by [`Location::new`] when a line or column of `0` is given.
#[derive(Debug, Clone, Copy, PartialEq, Eq, Structural)]
pub enum LocationError {
    /// `line` was `0`; lines are 1-based.
    ZeroLine,
    /// `col` was `0`; columns are 1-based.
    ZeroCol,
}

/// The text a location renders as: the line, a colon, and the column.
pub open spec fn location_text(location: LocationView) -> Seq<char> {
    decimal(location.line) + seq![':'] + decimal(location.col)
}

/// The text a [`LocationError`] renders as.
pub open spec fn location_error_text(error: LocationError) -> Seq<char> {
    match error {
        LocationError::ZeroLine => "line must be 1 or greater"@,
        LocationError::ZeroCol => "column must be 1 or greater"@,
    }
}

impl View for Location {
    type V = LocationView;

    closed spec fn view(&self) -> LocationView {
        LocationView { line: self.line as nat, col: self.col as nat }
    }
}

impl Location {
    #[verifier::type_invariant]
    spec fn positive(self) -> bool {
        self.line >= 1 && self.col >= 1
    }

    /// A location's line and column fit in a `usize`.
    pub proof fn lemma_fits(self)
        ensures
            self@.line <= usize::MAX,
            self@.col <= usize::MAX,
    {
    }

    /// Builds a [`Location`], rejecting a `line` or `col` of `0`.
    ///
    /// # Errors
    ///
    /// Returns [`LocationError::ZeroLine`] when `line` is `0` (whatever `col` is), and otherwise
    /// [`LocationError::ZeroCol`] when `col` is `0`.
    pub fn new(line: usize, col: usize) -> (res: Result<Location, LocationError>)
        ensures
            line == 0 ==> res == Err::<Location, LocationError>(LocationError::ZeroLine),
            line != 0 && col == 0 ==> res == Err::<Location, LocationError>(LocationError::ZeroCol),
            line != 0 && col != 0 ==> (res matches Ok(location) && location@ == LocationView {
                line: line as nat,
                col: col as nat,
            }),
    {
        if line == 0 {
            return Err(LocationError::ZeroLine);
        }
        if col == 0 {
            return Err(LocationError::ZeroCol);
        }
        Ok(Location { line, col })
    }

    /// The 1-based line number.
    pub fn line(&self) -> (res: usize)
        ensures
            res == self@.line,
            res >= 1,
    {
        proof {
            use_type_invariant(self);
        }
        self.line
    }

    /// The 1-based column number.
    pub fn col(&self) -> (res: usize)
        ensures
            res == self@.col,
            res >= 1,
    {
        proof {
            use_type_invariant(self);
        }
        self.col
    }

    /// Renders the location as `line:col`, the form the output format uses.
    pub fn to_text(&self) -> (res: String)
        ensures
            res@ == location_text(self@),
    {
        let mut text = String::new();
        push_decimal(&mut text, self.line as u64);
        push_char(&mut text, ':');
        push_decimal(&mut text, self.col as u64);
        text
    }
}

impl LocationError {
    /// The error's message, as its `Display` would render it.
    pub fn to_text(&self) -> (res: &'static str)
        ensures
            res@ == location_error_text(*self),
    {
        match self {
            LocationError::ZeroLine => "line must be 1 or greater",
            LocationError::ZeroCol => "column must be 1 or greater",
        }
    }
}

} // verus!
