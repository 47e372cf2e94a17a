use crate::source::location::{Location, Place};
use vstd::prelude::*;

verus! {

/// The ways in which lexing fails.
#[derive(Debug, Copy, Clone, PartialEq, Eq, Structural)]
pub enum ErrorData {
    /// The text ends right after a backslash.
    UnexpectedEof,
    /// A character that belongs to no token.
    UnrecognizedChar,
    /// A backslash followed by neither a letter nor a special character.
    UnrecognizedMacroChar,
    /// Three dollar signs in a row.
    TripleDollar,
    /// The lexer was asked to go on after it had failed.
    Failed,
    /// The lexer was asked to go on after the end of input.
    Exited,
}

/// The mathematical value of an [`Error`].
pub struct ErrorView {
    pub kind: ErrorData,
    pub loc: Place,
}

/// A lexing failure and the location at which it was met.
#[derive(Debug)]
pub struct Error {
    loc: Location,
    data: ErrorData,
}

impl View for Error {
    type V = ErrorView;

    closed spec fn view(&self) -> ErrorView {
        ErrorView { kind: self.data, loc: self.loc@ }
    }
}

impl Error {
    /// The location as a value.
    pub closed spec fn spec_loc(self) -> Location {
        self.loc
    }

    /// A failure is known by its kind and its location.
    pub proof fn lemma_spec_loc(self)
        ensures
            self.spec_loc()@ == self@.loc,
    {
    }

    pub fn new(data: ErrorData, loc: Location) -> (error: Error)
        ensures
            error@ == (ErrorView { kind: data, loc: loc@ }),
    {
        Error { data, loc }
    }

    pub fn loc(&self) -> (loc: Location)
        ensures
            loc == self.spec_loc(),
            loc@ == self@.loc,
    {
        self.loc
    }

    pub fn data(self) -> (data: ErrorData)
        ensures
            data == self@.kind,
    {
        self.data
    }
}

} // verus!
