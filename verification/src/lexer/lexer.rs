//! The lexer: the machine run over the text of a source.

use crate::lexer::error::Error;
use crate::lexer::shape::{coherent, lemma_step_coherent};
use crate::lexer::state::State;
use crate::lexer::stream::{
    budget, config_after, initial, outcome, run, step, Config, Fault, Span,
};
use crate::source::location::{lemma_place_at_monotone, place_at, Location};
use crate::source::source::Source;
use crate::source::text::{byte_len, lemma_char_index, Chars};
use crate::syntax::class::space;
use crate::syntax::token::Token;
use vstd::prelude::*;

verus! {

/// Turns the text of a [`Source`] into tokens, one at a time.
#[derive(Copy, Clone)]
pub struct Lexer<'src> {
    src: &'src Source<'src>,
    chars: Chars<'src>,
    loc: Location,
    start: Location,
    state: State,
    dropping: bool,
    cfg: Ghost<Config>,
    calls: Ghost<nat>,
}

impl<'src> Lexer<'src> {
    #[verifier::type_invariant]
    spec fn wf(self) -> bool {
        let text = self.src@;
        let cfg = self.cfg@;
        &&& byte_len(text) <= usize::MAX
        &&& cfg.state == self.state
        &&& cfg.dropping == self.dropping
        &&& coherent(text, cfg)
        &&& self.chars@ == text.skip(cfg.pos as int)
        &&& self.loc@ == place_at(text, cfg.pos as int)
        &&& self.start@ == place_at(text, cfg.start as int)
        &&& run(text, cfg) == run(text, config_after(text, initial(), self.calls@))
    }

    /// The text that is being lexed.
    pub closed spec fn text(&self) -> Seq<char> {
        self.src@
    }

    /// How many times the lexer has yielded a token or a failure so far.
    pub closed spec fn calls(&self) -> nat {
        self.calls@
    }

    /// A lexer at the beginning of `src`.
    pub fn new(src: &'src Source<'src>) -> (lexer: Lexer<'src>)
        ensures
            lexer.text() == src@,
            lexer.calls() == 0,
    {
        // Measuring the text shows that every location in it fits in a `usize`.
        let _fits: usize = src.len();
        proof {
            assert(src@.skip(0) == src@);
        }
        Lexer {
            src,
            chars: src.chars(),
            state: State::Start,
            dropping: false,
            start: Location::start(),
            loc: Location::start(),
            cfg: Ghost(initial()),
            calls: Ghost(0),
        }
    }

    /// The source that is being lexed.
    pub fn source(&self) -> (src: &'src Source<'src>)
        ensures
            src@ == self.text(),
    {
        self.src
    }

    /// Makes one move of the machine: reads a character, lets the state move,
    /// emits the token that ends before the character, if one does, and moves
    /// past the character.
    ///
    /// Whitespace after the whitespace that ended a control word is dropped
    /// without a move of the state, and the start cursor follows. The line
    /// feed that ends a comment is not moved past, but read again by the next
    /// move.
    fn step(&mut self) -> (r: Result<Option<Token<'src>>, Error>)
        ensures
            final(self).src@ == old(self).src@,
            final(self).cfg@ == step(old(self).src@, old(self).cfg@).0,
            match step(old(self).src@, old(self).cfg@).1 {
                Ok(None) => r matches Ok(None) && final(self).calls@ == old(self).calls@,
                Ok(Some(span)) => {
                    &&& r matches Ok(Some(token))
                    &&& token@ == span.token(old(self).src@)
                    &&& final(self).calls@ == old(self).calls@ + 1
                    &&& outcome(old(self).src@, old(self).calls@) == Ok::<Span, Fault>(span)
                },
                Err(fault) => {
                    &&& r matches Err(error)
                    &&& error@ == fault.error(old(self).src@)
                    &&& final(self).calls@ == old(self).calls@ + 1
                    &&& outcome(old(self).src@, old(self).calls@) == Err::<Span, Fault>(fault)
                },
            },
    {
        proof {
            use_type_invariant(&*self);
        }
        let ghost text = self.src@;
        let ghost cfg = self.cfg@;
        let ghost next = step(text, cfg).0;
        let mut chars = self.chars;
        let mut loc = self.loc;
        let mut start = self.start;
        let ghost mut calls = self.calls@;

        let c = chars.next();
        proof {
            if cfg.pos < text.len() {
                assert(text.skip(cfg.pos as int)[0] == text[cfg.pos as int]);
                assert(text.skip(cfg.pos as int).drop_first() == text.skip(cfg.pos as int + 1));
            }
            lemma_step_coherent(text, cfg);
            lemma_place_at_monotone(text, cfg.start as int, cfg.pos as int);
            lemma_place_at_monotone(text, next.pos as int, text.len() as int);
            lemma_char_index(text, cfg.start as int);
            lemma_char_index(text, cfg.pos as int);
        }
        let white = match c {
            Some(c) => space(c),
            None => false,
        };
        if self.dropping && white {
            if let Some(c) = c {
                loc.step(c);
            }
            *self = Lexer {
                src: self.src,
                chars,
                loc,
                start: loc,
                state: self.state,
                dropping: true,
                cfg: Ghost(next),
                calls: Ghost(calls),
            };
            return Ok(None);
        }
        let dropping = match self.state {
            State::MacroNormal => white,
            _ => false,
        };
        let reread = match self.state {
            State::Comment => match c {
                Some('\n') => true,
                _ => false,
            },
            _ => false,
        };
        let (state, result) = self.state.transition(c);
        let result = match result {
            Err(data) => {
                proof {
                    calls = calls + 1;
                }
                Err(Error::new(data, loc))
            },
            Ok(None) => Ok(None),
            Ok(Some(data)) => {
                let src = self.src.slice(&start, &loc);
                let token = Token::new(data, src, start);
                start = loc;
                proof {
                    calls = calls + 1;
                }
                Ok(Some(token))
            },
        };
        if reread {
            chars = self.chars;
        } else if let Some(c) = c {
            loc.step(c);
        }
        if dropping {
            start = loc;
        }
        *self = Lexer {
            src: self.src,
            chars,
            loc,
            start,
            state,
            dropping,
            cfg: Ghost(next),
            calls: Ghost(calls),
        };
        result
    }

    /// The next token of the text, or the failure that is met in its place.
    ///
    /// The end of input is reported once, as a token of kind `Eof`; after
    /// that every call fails with `Exited`. After any other failure every call
    /// fails with `Failed`.
    pub fn next(&mut self) -> (r: Result<Token<'src>, Error>)
        ensures
            final(self).text() == old(self).text(),
            final(self).calls() == old(self).calls() + 1,
            match outcome(old(self).text(), old(self).calls()) {
                Ok(span) => r matches Ok(token) && token@ == span.token(old(self).text()),
                Err(fault) => r matches Err(error) && error@ == fault.error(old(self).text()),
            },
    {
        loop
            invariant
                self.src@ == old(self).src@,
                self.calls@ == old(self).calls@,
            decreases budget(self.src@, self.cfg@),
        {
            match self.step() {
                Ok(Some(token)) => {
                    return Ok(token);
                },
                Ok(None) => {},
                Err(error) => {
                    return Err(error);
                },
            }
        }
    }
}

} // verus!
