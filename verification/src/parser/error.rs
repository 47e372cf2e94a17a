use crate::lexer;
use crate::source::location::{Location, Place};
use vstd::prelude::*;
use vstd::std_specs::convert::FromSpecImpl;

verus! {

/// The ways in which parsing fails.
#[derive(Debug, Copy, Clone)]
pub enum ErrorData<'src> {
    /// The lexer failed.
    Lex(lexer::ErrorData),
    /// The control word of the given name was required.
    ExpectingMacro(&'src str),
    /// An identifier was required.
    ExpectingIdent,
    /// Neither a separator nor the closing bracket follows an option.
    UnexpectedToken,
    /// A brace or a bracket is missing; the message says which.
    Misc(&'static str),
}

/// The mathematical value of an [`ErrorData`].
pub enum ErrorKind {
    Lex(lexer::ErrorData),
    ExpectingMacro(Seq<char>),
    ExpectingIdent,
    UnexpectedToken,
    Misc(Seq<char>),
}

/// The mathematical value of an [`Error`].
pub struct ErrorView {
    pub kind: ErrorKind,
    pub loc: Place,
}

impl<'src> View for ErrorData<'src> {
    type V = ErrorKind;

    open spec fn view(&self) -> ErrorKind {
        match *self {
            ErrorData::Lex(kind) => ErrorKind::Lex(kind),
            ErrorData::ExpectingMacro(name) => ErrorKind::ExpectingMacro(name@),
            ErrorData::ExpectingIdent => ErrorKind::ExpectingIdent,
            ErrorData::UnexpectedToken => ErrorKind::UnexpectedToken,
            ErrorData::Misc(message) => ErrorKind::Misc(message@),
        }
    }
}

/// A parsing failure and the location of the token at which it was met.
#[derive(Debug)]
pub struct Error<'src> {
    loc: Location,
    data: ErrorData<'src>,
}

impl<'src> View for Error<'src> {
    type V = ErrorView;

    closed spec fn view(&self) -> ErrorView {
        ErrorView { kind: self.data@, loc: self.loc@ }
    }
}

impl<'src> Error<'src> {
    pub fn new(data: ErrorData<'src>, loc: Location) -> (error: Error<'src>)
        ensures
            error@ == (ErrorView { kind: data@, loc: loc@ }),
    {
        Error { data, loc }
    }

    pub fn loc(&self) -> (loc: Location)
        ensures
            loc@ == self@.loc,
    {
        self.loc
    }

    pub fn data(&self) -> (data: ErrorData<'src>)
        ensures
            data@ == self@.kind,
    {
        self.data
    }
}

/// The parsing failure that stands for a failure of the lexer: it has the
/// same location, and its kind wraps that of the lexer's failure.
pub closed spec fn lifted<'src>(err: lexer::Error) -> Error<'src> {
    Error { loc: err.spec_loc(), data: ErrorData::Lex(err@.kind) }
}

/// What [`lifted`] yields, as a mathematical value.
pub proof fn lemma_lifted(err: lexer::Error)
    ensures
        lifted(err)@ == (ErrorView { kind: ErrorKind::Lex(err@.kind), loc: err@.loc }),
{
    err.lemma_spec_loc();
}

impl<'src> From<lexer::Error> for Error<'src> {
    fn from(err: lexer::Error) -> (error: Error<'src>) {
        let loc = err.loc();
        Error { loc, data: ErrorData::Lex(err.data()) }
    }
}

impl<'src> FromSpecImpl<lexer::Error> for Error<'src> {
    open spec fn obeys_from_spec() -> bool {
        true
    }

    open spec fn from_spec(err: lexer::Error) -> Error<'src> {
        lifted(err)
    }
}

} // verus!
