//! The token stream of a text, defined by the moves of the lexer's machine.

use crate::lexer::error::{ErrorData, ErrorView};
use crate::lexer::state::State;
use crate::source::location::place_at;
use crate::syntax::class::is_space;
use crate::syntax::token::{TokenData, TokenView};
use vstd::prelude::*;

verus! {

/// The machine between two moves: its state, the index of the first
/// character of the token under way, the index of the next character to
/// read, and whether the whitespace that follows a control word is being
/// dropped. Indices count characters, not bytes.
pub struct Config {
    pub state: State,
    pub start: nat,
    pub pos: nat,
    pub dropping: bool,
}

/// An emitted token as a stretch of the text: its kind and the indices of its
/// first character and of the character after its last.
pub struct Span {
    pub kind: TokenData,
    pub lo: nat,
    pub hi: nat,
}

/// A failure and the index of the character at which it was met.
pub struct Fault {
    pub kind: ErrorData,
    pub at: nat,
}

impl Span {
    /// The characters that the span covers.
    pub open spec fn slice(self, text: Seq<char>) -> Seq<char> {
        text.subrange(self.lo as int, self.hi as int)
    }

    /// The token that the span stands for.
    pub open spec fn token(self, text: Seq<char>) -> TokenView {
        TokenView { kind: self.kind, text: self.slice(text), loc: place_at(text, self.lo as int) }
    }
}

impl Fault {
    /// The error that the fault stands for.
    pub open spec fn error(self, text: Seq<char>) -> ErrorView {
        ErrorView { kind: self.kind, loc: place_at(text, self.at as int) }
    }
}

/// The machine before it has read anything.
pub open spec fn initial() -> Config {
    Config { state: State::Start, start: 0, pos: 0, dropping: false }
}

/// The character at index `pos`, or `None` past the end of the text.
pub open spec fn char_at(text: Seq<char>, pos: nat) -> Option<char> {
    if pos < text.len() {
        Some(text[pos as int])
    } else {
        None
    }
}

/// True when `c` is whitespace that ends a control word.
pub open spec fn ends_control_word(state: State, c: Option<char>) -> bool {
    state is MacroNormal && c.is_some() && is_space(c.unwrap())
}

/// True when `c` is the line feed that ends a comment.
pub open spec fn ends_comment(state: State, c: Option<char>) -> bool {
    state is Comment && c == Some('\n')
}

/// One move of the machine over `text`: it reads the character at the
/// current index, if there is one, lets the state move, and moves past the
/// character. A token that is emitted ends before that character and starts
/// where the token before it ended, and the character begins the next token.
///
/// There are two exceptions. Whitespace that ends a control word, and the
/// whitespace after it, is dropped: the first such character ends the
/// control word, whose token is emitted, and the others are read without a
/// move of the state; the next token starts after them. And the line feed
/// that ends a comment is not moved past: it is read again, so that it opens
/// the whitespace after the comment.
pub open spec fn step(text: Seq<char>, cfg: Config) -> (Config, Result<Option<Span>, Fault>) {
    let c = char_at(text, cfg.pos);
    if cfg.dropping && c.is_some() && is_space(c.unwrap()) {
        (
            Config { state: cfg.state, start: cfg.pos + 1, pos: cfg.pos + 1, dropping: true },
            Ok(None),
        )
    } else {
        let (state, result) = cfg.state.spec_transition(c);
        let pos = if c.is_some() && !ends_comment(cfg.state, c) {
            cfg.pos + 1
        } else {
            cfg.pos
        };
        let dropping = ends_control_word(cfg.state, c);
        let start = cfg.start;
        match result {
            Err(kind) => (Config { state, start, pos, dropping }, Err(Fault { kind, at: cfg.pos })),
            Ok(None) => (Config { state, start, pos, dropping }, Ok(None)),
            Ok(Some(kind)) => (
                Config {
                    state,
                    start: if dropping {
                        pos
                    } else {
                        cfg.pos
                    },
                    pos,
                    dropping,
                },
                Ok(Some(Span { kind, lo: cfg.start, hi: cfg.pos })),
            ),
        }
    }
}

/// A bound on the number of moves that the machine can make from `cfg`
/// without emitting a token or failing.
pub open spec fn budget(text: Seq<char>, cfg: Config) -> nat {
    let left: nat = if cfg.pos < text.len() {
        (text.len() - cfg.pos) as nat
    } else {
        0
    };
    if cfg.state is Start {
        2 * left + 1
    } else {
        2 * left
    }
}

/// Moves the machine until it emits a token or fails. Every move that does
/// neither uses up some of the budget, so this ends.
pub open spec fn run(text: Seq<char>, cfg: Config) -> (Config, Result<Span, Fault>)
    decreases budget(text, cfg),
{
    let (next, result) = step(text, cfg);
    match result {
        Err(fault) => (next, Err(fault)),
        Ok(Some(span)) => (next, Ok(span)),
        Ok(None) => run(text, next),
    }
}

/// The machine after it has emitted tokens or failed `calls` times in a row,
/// starting from `from`.
pub open spec fn config_after(text: Seq<char>, from: Config, calls: nat) -> Config
    decreases calls,
{
    if calls == 0 {
        from
    } else {
        run(text, config_after(text, from, (calls - 1) as nat)).0
    }
}

/// What the machine yields the next time after it has emitted tokens or
/// failed `calls` times, starting from `from`.
pub open spec fn outcome_from(text: Seq<char>, from: Config, calls: nat) -> Result<Span, Fault> {
    run(text, config_after(text, from, calls)).1
}

/// The `n`-th element of the token stream of `text`, counted from zero: a
/// token, or the failure that is met in its place.
pub open spec fn outcome(text: Seq<char>, n: nat) -> Result<Span, Fault> {
    outcome_from(text, initial(), n)
}

} // verus!
