//! The states of the lexer's machine and its transition function.

use crate::lexer::error::ErrorData;
use crate::syntax::class::{
    is_letter, is_plain, is_space, is_special, letter, plain, space, special,
};
use crate::syntax::token::TokenData;
use vstd::prelude::*;

verus! {

/// The states of the lexer.
#[derive(Debug, Copy, Clone, PartialEq, Eq, Structural)]
pub enum State {
    /// Between tokens.
    Start,
    /// Inside a run of whitespace that holds `newlines` line feeds.
    Whitespace { newlines: usize },
    /// Inside a run of plain characters.
    Plain,
    /// Inside a comment.
    Comment,
    /// Just after a backslash.
    MacroStart,
    /// Inside the letters of a control word.
    MacroNormal,
    /// Just after the character of a control symbol.
    MacroSpecial,
    /// Just after a one-character token of the given kind.
    Literal(TokenData),
    /// Just after one dollar sign.
    DollarSingle,
    /// Just after two dollar signs.
    DollarDouble,
    /// At the end of input, before the end marker is emitted.
    Eof,
    /// After a failure.
    Fail,
    /// After the end marker.
    Exit,
}

/// What one move of the machine yields: the next state, and either a token
/// kind to emit, nothing, or a failure.
pub type Move = (State, Result<Option<TokenData>, ErrorData>);

/// One more than `n`, as far as a `usize` can count.
pub open spec fn count_up(n: usize) -> usize {
    if n < usize::MAX {
        (n + 1) as usize
    } else {
        n
    }
}

/// The state that the machine enters on `c` when no token is under way, or
/// `None` when no token begins with `c`.
pub open spec fn opening(c: char) -> Option<State> {
    if c == '\\' {
        Some(State::MacroStart)
    } else if c == '$' {
        Some(State::DollarSingle)
    } else if c == '%' {
        Some(State::Comment)
    } else if c == '{' {
        Some(State::Literal(TokenData::BraceL))
    } else if c == '}' {
        Some(State::Literal(TokenData::BraceR))
    } else if c == ',' {
        Some(State::Literal(TokenData::Comma))
    } else if c == '[' {
        Some(State::Literal(TokenData::BracketL))
    } else if c == ']' {
        Some(State::Literal(TokenData::BracketR))
    } else if c == '=' {
        Some(State::Literal(TokenData::Equal))
    } else if is_plain(c) {
        Some(State::Plain)
    } else if c == '\n' {
        Some(State::Whitespace { newlines: 1 })
    } else if is_space(c) {
        Some(State::Whitespace { newlines: 0 })
    } else {
        None
    }
}

/// The move that ends the token under way, whose kind is `pending` if there
/// is one, and begins the next token with `c`.
pub open spec fn spec_default_transition(c: Option<char>, pending: Option<TokenData>) -> Move {
    match c {
        None => (State::Eof, Ok(pending)),
        Some(c) => match opening(c) {
            Some(state) => (state, Ok(pending)),
            None => (State::Fail, Err(ErrorData::UnrecognizedChar)),
        },
    }
}

impl State {
    /// The transition function of the machine.
    pub open spec fn spec_transition(self, c: Option<char>) -> Move {
        match self {
            State::Start => spec_default_transition(c, None),
            State::Whitespace { newlines } => {
                if c == Some('\n') {
                    (State::Whitespace { newlines: count_up(newlines) }, Ok(None))
                } else if c.is_some() && is_space(c.unwrap()) {
                    (State::Whitespace { newlines }, Ok(None))
                } else {
                    spec_default_transition(c, Some(TokenData::Whitespace { par: newlines >= 2 }))
                }
            },
            State::Plain => {
                if c.is_some() && is_plain(c.unwrap()) {
                    (State::Plain, Ok(None))
                } else {
                    spec_default_transition(c, Some(TokenData::Plain))
                }
            },
            State::Comment => {
                if c.is_none() {
                    (State::Eof, Ok(Some(TokenData::Comment)))
                } else if c == Some('\n') {
                    (State::Start, Ok(Some(TokenData::Comment)))
                } else {
                    (State::Comment, Ok(None))
                }
            },
            State::DollarSingle => {
                if c == Some('$') {
                    (State::DollarDouble, Ok(None))
                } else {
                    spec_default_transition(c, Some(TokenData::DollarSingle))
                }
            },
            State::DollarDouble => {
                if c == Some('$') {
                    (State::Fail, Err(ErrorData::TripleDollar))
                } else {
                    spec_default_transition(c, Some(TokenData::DollarDouble))
                }
            },
            State::MacroStart => {
                if c.is_none() {
                    (State::Fail, Err(ErrorData::UnexpectedEof))
                } else if is_special(c.unwrap()) {
                    (State::MacroSpecial, Ok(None))
                } else if is_letter(c.unwrap()) {
                    (State::MacroNormal, Ok(None))
                } else {
                    (State::Fail, Err(ErrorData::UnrecognizedMacroChar))
                }
            },
            State::MacroNormal => {
                if c.is_some() && is_letter(c.unwrap()) {
                    (State::MacroNormal, Ok(None))
                } else if c.is_some() && is_space(c.unwrap()) {
                    (State::Start, Ok(Some(TokenData::MacroNormal)))
                } else {
                    spec_default_transition(c, Some(TokenData::MacroNormal))
                }
            },
            State::Literal(kind) => spec_default_transition(c, Some(kind)),
            State::MacroSpecial => spec_default_transition(c, Some(TokenData::MacroSpecial)),
            State::Eof => (State::Exit, Ok(Some(TokenData::Eof))),
            State::Fail => (State::Fail, Err(ErrorData::Failed)),
            State::Exit => (State::Exit, Err(ErrorData::Exited)),
        }
    }

    /// One move of the machine on the character `c`, or on the end of input
    /// when `c` is `None`.
    pub fn transition(self, c: Option<char>) -> (next: Move)
        ensures
            next == self.spec_transition(c),
    {
        match self {
            State::Start => Self::default_transition(c, None),
            State::Whitespace { newlines } => match c {
                Some('\n') => {
                    let more: usize = if newlines < usize::MAX {
                        newlines + 1
                    } else {
                        newlines
                    };
                    (State::Whitespace { newlines: more }, Ok(None))
                },
                Some(c) if space(c) => (State::Whitespace { newlines }, Ok(None)),
                _ => Self::default_transition(
                    c,
                    Some(TokenData::Whitespace { par: newlines >= 2 }),
                ),
            },
            State::Plain => match c {
                Some(c) if plain(c) => (State::Plain, Ok(None)),
                _ => Self::default_transition(c, Some(TokenData::Plain)),
            },
            State::Comment => match c {
                None => (State::Eof, Ok(Some(TokenData::Comment))),
                Some('\n') => (State::Start, Ok(Some(TokenData::Comment))),
                Some(_) => (State::Comment, Ok(None)),
            },
            State::DollarSingle => match c {
                Some('$') => (State::DollarDouble, Ok(None)),
                _ => Self::default_transition(c, Some(TokenData::DollarSingle)),
            },
            State::DollarDouble => match c {
                Some('$') => (State::Fail, Err(ErrorData::TripleDollar)),
                _ => Self::default_transition(c, Some(TokenData::DollarDouble)),
            },
            State::MacroStart => match c {
                None => (State::Fail, Err(ErrorData::UnexpectedEof)),
                Some(c) => {
                    if special(c) {
                        (State::MacroSpecial, Ok(None))
                    } else if letter(c) {
                        (State::MacroNormal, Ok(None))
                    } else {
                        (State::Fail, Err(ErrorData::UnrecognizedMacroChar))
                    }
                },
            },
            State::MacroNormal => match c {
                Some(c) if letter(c) => (State::MacroNormal, Ok(None)),
                Some(c) if space(c) => (State::Start, Ok(Some(TokenData::MacroNormal))),
                _ => Self::default_transition(c, Some(TokenData::MacroNormal)),
            },
            State::Literal(kind) => Self::default_transition(c, Some(kind)),
            State::MacroSpecial => Self::default_transition(c, Some(TokenData::MacroSpecial)),
            State::Eof => (State::Exit, Ok(Some(TokenData::Eof))),
            State::Fail => (State::Fail, Err(ErrorData::Failed)),
            State::Exit => (State::Exit, Err(ErrorData::Exited)),
        }
    }

    fn default_transition(c: Option<char>, pending: Option<TokenData>) -> (next: Move)
        ensures
            next == spec_default_transition(c, pending),
    {
        match c {
            None => (State::Eof, Ok(pending)),
            Some(c) => match c {
                '\\' => (State::MacroStart, Ok(pending)),
                '$' => (State::DollarSingle, Ok(pending)),
                '%' => (State::Comment, Ok(pending)),
                '{' => (State::Literal(TokenData::BraceL), Ok(pending)),
                '}' => (State::Literal(TokenData::BraceR), Ok(pending)),
                ',' => (State::Literal(TokenData::Comma), Ok(pending)),
                '[' => (State::Literal(TokenData::BracketL), Ok(pending)),
                ']' => (State::Literal(TokenData::BracketR), Ok(pending)),
                '=' => (State::Literal(TokenData::Equal), Ok(pending)),
                '\n' => (State::Whitespace { newlines: 1 }, Ok(pending)),
                _ => {
                    if plain(c) {
                        (State::Plain, Ok(pending))
                    } else if space(c) {
                        (State::Whitespace { newlines: 0 }, Ok(pending))
                    } else {
                        (State::Fail, Err(ErrorData::UnrecognizedChar))
                    }
                },
            },
        }
    }
}

} // verus!
