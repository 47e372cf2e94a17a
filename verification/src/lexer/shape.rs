//! What the tokens of each kind look like, and why the machine emits no
//! others.

use crate::lexer::state::State;
use crate::lexer::stream::{
    budget, char_at, config_after, initial, outcome, run, step, Config, Fault, Span,
};
use crate::syntax::class::{is_letter, is_plain, is_space, is_special};
use crate::syntax::token::TokenData;
use vstd::prelude::*;

verus! {

/// The number of line feeds in `text`.
pub open spec fn newlines_in(text: Seq<char>) -> nat
    decreases text.len(),
{
    if text.len() == 0 {
        0
    } else {
        newlines_in(text.drop_last()) + if text.last() == '\n' {
            1nat
        } else {
            0nat
        }
    }
}

/// True when every character of `text` from index `lo` up to `hi` satisfies
/// `class`.
pub open spec fn all_in(text: Seq<char>, lo: int, hi: int, class: spec_fn(char) -> bool) -> bool {
    forall|i: int| lo <= i < hi ==> class(#[trigger] text[i])
}

/// The character that makes up a one-character token of the given kind.
pub open spec fn literal_char(kind: TokenData) -> Option<char> {
    match kind {
        TokenData::BraceL => Some('{'),
        TokenData::BraceR => Some('}'),
        TokenData::BracketL => Some('['),
        TokenData::BracketR => Some(']'),
        TokenData::Equal => Some('='),
        TokenData::Comma => Some(','),
        _ => None,
    }
}

/// True when `count` is the number of line feeds in `text`, as far as a
/// `usize` can count.
pub open spec fn counts_newlines(count: usize, text: Seq<char>) -> bool {
    count == newlines_in(text) || (count == usize::MAX && newlines_in(text) >= usize::MAX)
}

/// True when the machine's state agrees with the text read since the start
/// of the token under way.
pub open spec fn coherent(text: Seq<char>, cfg: Config) -> bool {
    let lo = cfg.start as int;
    let hi = cfg.pos as int;
    &&& lo <= hi <= text.len()
    &&& (cfg.dropping ==> cfg.state is Start)
    &&& match cfg.state {
        State::Start => lo == hi,
        State::Fail => true,
        State::Whitespace { newlines } => {
            &&& lo < hi
            &&& all_in(text, lo, hi, |c: char| is_space(c))
            &&& counts_newlines(newlines, text.subrange(lo, hi))
        },
        State::Plain => lo < hi && all_in(text, lo, hi, |c: char| is_plain(c)),
        State::Comment => lo < hi && text[lo] == '%' && all_in(text, lo + 1, hi, |c: char| c != '\n'),
        State::MacroStart => hi == lo + 1 && text[lo] == '\\',
        State::MacroNormal => {
            &&& lo + 1 < hi
            &&& text[lo] == '\\'
            &&& all_in(text, lo + 1, hi, |c: char| is_letter(c))
        },
        State::MacroSpecial => hi == lo + 2 && text[lo] == '\\' && is_special(text[lo + 1]),
        State::Literal(kind) => hi == lo + 1 && literal_char(kind) == Some(text[lo]),
        State::DollarSingle => hi == lo + 1 && text[lo] == '$',
        State::DollarDouble => hi == lo + 2 && text[lo] == '$' && text[lo + 1] == '$',
        State::Eof | State::Exit => lo == hi && hi == text.len(),
    }
}

/// True when the span is a well-formed token of its kind: it covers the
/// characters that the kind allows, and it ends where the kind says it must.
pub open spec fn shaped(text: Seq<char>, span: Span) -> bool {
    let lo = span.lo as int;
    let hi = span.hi as int;
    &&& lo <= hi <= text.len()
    &&& match span.kind {
        TokenData::Eof => lo == hi && hi == text.len(),
        TokenData::BraceL | TokenData::BraceR | TokenData::BracketL | TokenData::BracketR
        | TokenData::Equal | TokenData::Comma => hi == lo + 1 && literal_char(span.kind) == Some(
            text[lo],
        ),
        TokenData::Plain => {
            &&& lo < hi
            &&& all_in(text, lo, hi, |c: char| is_plain(c))
            &&& (hi < text.len() ==> !is_plain(text[hi]))
        },
        TokenData::MacroNormal => {
            &&& lo + 1 < hi
            &&& text[lo] == '\\'
            &&& all_in(text, lo + 1, hi, |c: char| is_letter(c))
            &&& (hi < text.len() ==> !is_letter(text[hi]))
        },
        TokenData::MacroSpecial => hi == lo + 2 && text[lo] == '\\' && is_special(text[lo + 1]),
        TokenData::Whitespace { par } => {
            &&& lo < hi
            &&& all_in(text, lo, hi, |c: char| is_space(c))
            &&& (hi < text.len() ==> !is_space(text[hi]))
            &&& par == (newlines_in(text.subrange(lo, hi)) >= 2)
        },
        TokenData::DollarSingle => {
            &&& hi == lo + 1
            &&& text[lo] == '$'
            &&& (hi < text.len() ==> text[hi] != '$')
        },
        TokenData::DollarDouble => hi == lo + 2 && text[lo] == '$' && text[lo + 1] == '$',
        TokenData::Comment => {
            &&& lo < hi
            &&& text[lo] == '%'
            &&& all_in(text, lo + 1, hi, |c: char| c != '\n')
            &&& (hi < text.len() ==> text[hi] == '\n')
        },
    }
}

/// One move keeps the machine coherent, and what it emits is well-formed.
pub proof fn lemma_step_coherent(text: Seq<char>, cfg: Config)
    requires
        coherent(text, cfg),
    ensures
        coherent(text, step(text, cfg).0),
        step(text, cfg).1 matches Ok(Some(span)) ==> shaped(text, span),
        step(text, cfg).1 matches Err(fault) ==> fault.at <= text.len(),
{
    let c = char_at(text, cfg.pos);
    let lo = cfg.start as int;
    let hi = cfg.pos as int;
    if c.is_some() {
        assert(text.subrange(lo, hi + 1).drop_last() == text.subrange(lo, hi));
        assert(text.subrange(lo, hi + 1).last() == text[hi]);
        assert(text.subrange(hi, hi + 1).drop_last() == Seq::<char>::empty());
        assert(text.subrange(hi, hi + 1).last() == text[hi]);
        assert(newlines_in(text.subrange(hi, hi + 1).drop_last()) == 0);
    }
}

/// Running the machine to the next token or failure keeps it coherent, and
/// the token is well-formed.
pub proof fn lemma_run_coherent(text: Seq<char>, cfg: Config)
    requires
        coherent(text, cfg),
    ensures
        coherent(text, run(text, cfg).0),
        run(text, cfg).1 matches Ok(span) ==> shaped(text, span),
        run(text, cfg).1 matches Err(fault) ==> fault.at <= text.len(),
    decreases budget(text, cfg),
{
    lemma_step_coherent(text, cfg);
    let (next, result) = step(text, cfg);
    if result == Ok::<Option<Span>, Fault>(None) {
        lemma_run_coherent(text, next);
    }
}

/// The machine is coherent after any number of tokens.
pub proof fn lemma_config_after_coherent(text: Seq<char>, from: Config, calls: nat)
    requires
        coherent(text, from),
    ensures
        coherent(text, config_after(text, from, calls)),
    decreases calls,
{
    if calls > 0 {
        lemma_config_after_coherent(text, from, (calls - 1) as nat);
        lemma_run_coherent(text, config_after(text, from, (calls - 1) as nat));
    }
}

/// Every token of the stream is a well-formed token of its kind. In
/// particular a control word is a backslash followed by one or more letters,
/// a control symbol is a backslash followed by one special character, and a
/// whitespace token is flagged as a paragraph break exactly when it holds two
/// or more line feeds. Every failure is met within the text or at its end.
pub proof fn lemma_tokens_shaped(text: Seq<char>, n: nat)
    ensures
        outcome(text, n) matches Ok(span) ==> shaped(text, span),
        outcome(text, n) matches Err(fault) ==> fault.at <= text.len(),
{
    lemma_config_after_coherent(text, initial(), n);
    lemma_run_coherent(text, config_after(text, initial(), n));
}

} // verus!
