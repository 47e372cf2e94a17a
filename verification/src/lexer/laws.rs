//! What holds of every token stream: the tokens cover the text in order,
//! their locations ascend, the end marker comes last, and failures last.

use crate::lexer::error::ErrorData;
use crate::lexer::shape::{
    all_in, coherent, lemma_config_after_coherent, lemma_step_coherent, lemma_tokens_shaped,
    newlines_in,
};
use crate::lexer::state::State;
use crate::lexer::stream::{
    budget, config_after, initial, outcome, run, step, Config, Fault, Span,
};
use crate::source::location::lemma_place_at_monotone;
use crate::syntax::class::{
    is_ident_char, is_letter, is_space, is_special, lemma_ident_char_is_plain_or_not,
};
use crate::syntax::token::TokenData;
use vstd::prelude::*;

verus! {

/// What the lexer drops between the end `a` of a token of kind `prev` and
/// the start `b` of the next token: after a control word all the whitespace
/// that follows it, and nothing otherwise. Before the first token, where
/// `prev` is `None`, nothing is dropped.
pub open spec fn gap(text: Seq<char>, prev: Option<TokenData>, a: int, b: int) -> bool {
    &&& 0 <= a <= b <= text.len()
    &&& match prev {
        Some(TokenData::MacroNormal) => {
            &&& all_in(text, a, b, |c: char| is_space(c))
            &&& (b < text.len() ==> !is_space(text[b]))
        },
        _ => a == b,
    }
}

/// True when `cfg` is a place in which the machine can be on its way from a
/// token of kind `prev`, which ended at `end`, to the next token: either it
/// is still dropping whitespace after a control word, or the next token
/// starts after what is dropped.
pub open spec fn trailing(text: Seq<char>, prev: Option<TokenData>, end: int, cfg: Config) -> bool {
    match cfg.state {
        State::Fail | State::Exit => true,
        State::Start => {
            &&& 0 <= end <= cfg.start <= text.len()
            &&& cfg.dropping == (prev == Some(TokenData::MacroNormal))
            &&& if cfg.dropping {
                all_in(text, end, cfg.start as int, |c: char| is_space(c))
            } else {
                end == cfg.start
            }
        },
        _ => gap(text, prev, end, cfg.start as int),
    }
}

/// One move keeps the machine on its way from the last token to the next;
/// if it emits the next token, that token starts after what may be dropped.
proof fn lemma_step_trailing(text: Seq<char>, prev: Option<TokenData>, end: int, cfg: Config)
    requires
        coherent(text, cfg),
        trailing(text, prev, end, cfg),
    ensures
        match step(text, cfg).1 {
            Ok(None) => trailing(text, prev, end, step(text, cfg).0),
            Ok(Some(span)) => {
                &&& gap(text, prev, end, span.lo as int)
                &&& trailing(text, Some(span.kind), span.hi as int, step(text, cfg).0)
                &&& (span.kind is Eof <==> step(text, cfg).0.state is Exit)
            },
            Err(fault) => step(text, cfg).0.state is Fail || step(text, cfg).0.state is Exit,
        },
{
    lemma_step_coherent(text, cfg);
}

/// The token that the machine emits next starts after what may be dropped,
/// and the machine is then on its way from that token to the one after it.
proof fn lemma_run_trailing(text: Seq<char>, prev: Option<TokenData>, end: int, cfg: Config)
    requires
        coherent(text, cfg),
        trailing(text, prev, end, cfg),
    ensures
        match run(text, cfg).1 {
            Ok(span) => {
                &&& gap(text, prev, end, span.lo as int)
                &&& trailing(text, Some(span.kind), span.hi as int, run(text, cfg).0)
                &&& (span.kind is Eof <==> run(text, cfg).0.state is Exit)
            },
            Err(fault) => run(text, cfg).0.state is Fail || run(text, cfg).0.state is Exit,
        },
    decreases budget(text, cfg),
{
    lemma_step_trailing(text, prev, end, cfg);
    lemma_step_coherent(text, cfg);
    let (next, result) = step(text, cfg);
    if result == Ok::<Option<Span>, Fault>(None) {
        lemma_run_trailing(text, prev, end, next);
    }
}

/// In `Fail` and in `Exit` the machine stays where it is and fails: with
/// `Failed` in `Fail`, with `Exited` in `Exit`.
proof fn lemma_run_stuck(text: Seq<char>, cfg: Config)
    requires
        coherent(text, cfg),
        cfg.state is Fail || cfg.state is Exit,
    ensures
        run(text, cfg).0.state == cfg.state,
        run(text, cfg).1 matches Err(fault) && fault.at == cfg.pos && fault.kind == (
        if cfg.state is Exit {
            ErrorData::Exited
        } else {
            ErrorData::Failed
        }),
{
}

/// Tokens come first: if the stream holds a token at index `n`, it holds a
/// token other than the end marker at every index before `n`.
pub proof fn lemma_tokens_come_first(text: Seq<char>, m: nat, n: nat)
    requires
        m < n,
        outcome(text, n) is Ok,
    ensures
        outcome(text, m) matches Ok(span) && !(span.kind is Eof),
    decreases n - m,
{
    if m + 1 < n {
        lemma_tokens_come_first(text, m + 1, n);
    }
    lemma_after(text, m);
    let next = config_after(text, initial(), m + 1);
    lemma_config_after_coherent(text, initial(), m + 1);
    if next.state is Fail || next.state is Exit {
        lemma_run_stuck(text, next);
    }
}

/// Where the machine stands after the first `n` elements of the stream: on
/// its way from the last token to the next one, or stuck.
proof fn lemma_after(text: Seq<char>, n: nat)
    ensures
        coherent(text, config_after(text, initial(), n)),
        match outcome(text, n) {
            Ok(span) => {
                &&& trailing(
                    text,
                    Some(span.kind),
                    span.hi as int,
                    config_after(text, initial(), n + 1),
                )
                &&& (span.kind is Eof <==> config_after(text, initial(), n + 1).state is Exit)
                &&& (n == 0 ==> span.lo == 0)
            },
            Err(fault) => {
                let next = config_after(text, initial(), n + 1);
                next.state is Fail || next.state is Exit
            },
        },
        n > 0 ==> match outcome(text, (n - 1) as nat) {
            Ok(before) => match outcome(text, n) {
                Ok(span) => gap(text, Some(before.kind), before.hi as int, span.lo as int),
                Err(fault) => true,
            },
            Err(fault) => true,
        },
    decreases n,
{
    lemma_config_after_coherent(text, initial(), n);
    let cfg = config_after(text, initial(), n);
    if n == 0 {
        lemma_run_trailing(text, None, 0, cfg);
    } else {
        lemma_after(text, (n - 1) as nat);
        match outcome(text, (n - 1) as nat) {
            Ok(before) => {
                lemma_run_trailing(text, Some(before.kind), before.hi as int, cfg);
            },
            Err(fault) => {
                lemma_run_stuck(text, cfg);
            },
        }
    }
}

/// The tokens cover the text in order. The first token starts at the
/// beginning of the text, and every other token starts where the token before
/// it ends, unless that is a control word: then it starts after all the
/// whitespace that follows the control word.
pub proof fn lemma_tokens_tile(text: Seq<char>, n: nat)
    ensures
        outcome(text, 0) matches Ok(first) ==> first.lo == 0,
        outcome(text, n) matches Ok(span) ==> (outcome(text, n + 1) matches Ok(next) ==> gap(
            text,
            Some(span.kind),
            span.hi as int,
            next.lo as int,
        )),
{
    lemma_after(text, 0);
    lemma_after(text, n + 1);
}

/// The end marker covers nothing and stands at the end of the text.
pub proof fn lemma_end_marker(text: Seq<char>, n: nat)
    ensures
        outcome(text, n) matches Ok(span) ==> (span.kind is Eof ==> span.lo == text.len()
            && span.hi == text.len()),
{
    lemma_tokens_shaped(text, n);
}

/// Tokens start later and later in the text: of two tokens, the one that is
/// emitted first starts at the lower byte offset.
pub proof fn lemma_locations_ascend(text: Seq<char>, m: nat, n: nat)
    requires
        m <= n,
    ensures
        outcome(text, m) matches Ok(first) ==> (outcome(text, n) matches Ok(second) ==> {
            &&& first.lo <= second.lo
            &&& first.hi <= second.hi
            &&& first.token(text).loc.pos <= second.token(text).loc.pos
            &&& first.token(text).loc.row <= second.token(text).loc.row
        }),
    decreases n - m,
{
    if m < n {
        if outcome(text, n) is Ok {
            lemma_tokens_come_first(text, m, n);
            lemma_tokens_come_first(text, (n - 1) as nat, n);
            lemma_locations_ascend(text, m, (n - 1) as nat);
            lemma_tokens_tile(text, (n - 1) as nat);
            lemma_tokens_shaped(text, (n - 1) as nat);
            lemma_tokens_shaped(text, n);
            let first = outcome(text, m)->Ok_0;
            let before = outcome(text, (n - 1) as nat)->Ok_0;
            let second = outcome(text, n)->Ok_0;
            lemma_place_at_monotone(text, first.lo as int, second.lo as int);
        }
    }
}

/// After the end marker every call fails with `Exited`, at the end of the
/// text.
pub proof fn lemma_exited_after_end(text: Seq<char>, m: nat, n: nat)
    requires
        m < n,
        outcome(text, m) matches Ok(span) && span.kind is Eof,
    ensures
        outcome(text, n) == Err::<Span, Fault>(
            Fault { kind: ErrorData::Exited, at: text.len() },
        ),
        config_after(text, initial(), n).state is Exit,
    decreases n,
{
    lemma_after(text, m);
    if m + 1 < n {
        lemma_exited_after_end(text, m, (n - 1) as nat);
        lemma_config_after_coherent(text, initial(), (n - 1) as nat);
        lemma_run_stuck(text, config_after(text, initial(), (n - 1) as nat));
    }
    lemma_config_after_coherent(text, initial(), n);
    lemma_run_stuck(text, config_after(text, initial(), n));
}

/// After a failure every call fails: with `Exited` if the failure was
/// `Exited`, with `Failed` otherwise.
pub proof fn lemma_failed_after_failure(text: Seq<char>, m: nat, n: nat)
    requires
        m < n,
        outcome(text, m) is Err,
    ensures
        outcome(text, n) matches Err(fault) && fault.kind == (if outcome(text, m)->Err_0.kind
            == ErrorData::Exited {
            ErrorData::Exited
        } else {
            ErrorData::Failed
        }),
    decreases n,
{
    lemma_after(text, m);
    if m > 0 {
        lemma_after(text, (m - 1) as nat);
    }
    if m + 1 < n {
        lemma_failed_after_failure(text, m, (n - 1) as nat);
    }
    lemma_stuck_state(text, m, n);
    lemma_config_after_coherent(text, initial(), n);
    lemma_run_stuck(text, config_after(text, initial(), n));
    lemma_config_after_coherent(text, initial(), m);
    lemma_failure_kind(text, config_after(text, initial(), m));
}

/// A failure leaves the machine in `Exit` if it is `Exited`, in `Fail`
/// otherwise.
proof fn lemma_failure_kind(text: Seq<char>, cfg: Config)
    requires
        coherent(text, cfg),
    ensures
        run(text, cfg).1 matches Err(fault) ==> (fault.kind == ErrorData::Exited
            <==> run(text, cfg).0.state is Exit) && (run(text, cfg).0.state is Exit
            || run(text, cfg).0.state is Fail),
    decreases budget(text, cfg),
{
    lemma_step_coherent(text, cfg);
    let (next, result) = step(text, cfg);
    if result == Ok::<Option<Span>, Fault>(None) {
        lemma_failure_kind(text, next);
    }
}

/// After a failure at index `m` the machine stays in the state in which the
/// failure left it.
proof fn lemma_stuck_state(text: Seq<char>, m: nat, n: nat)
    requires
        m < n,
        outcome(text, m) is Err,
    ensures
        config_after(text, initial(), n).state == config_after(text, initial(), m + 1).state,
        config_after(text, initial(), n).state is Fail || config_after(
            text,
            initial(),
            n,
        ).state is Exit,
    decreases n,
{
    lemma_after(text, m);
    if m + 1 < n {
        lemma_stuck_state(text, m, (n - 1) as nat);
        lemma_config_after_coherent(text, initial(), (n - 1) as nat);
        lemma_run_stuck(text, config_after(text, initial(), (n - 1) as nat));
    }
}

/// A whitespace token is flagged as a paragraph break exactly when it holds
/// two or more line feeds. It is a run of whitespace that cannot be extended
/// to the right.
pub proof fn lemma_paragraph_flag(text: Seq<char>, n: nat)
    ensures
        outcome(text, n) matches Ok(span) ==> (span.kind matches TokenData::Whitespace { par } ==> {
            &&& par == (newlines_in(span.slice(text)) >= 2)
            &&& span.lo < span.hi <= text.len()
            &&& all_in(text, span.lo as int, span.hi as int, |c: char| is_space(c))
            &&& (span.hi < text.len() ==> !is_space(text[span.hi as int]))
        }),
{
    lemma_tokens_shaped(text, n);
}

/// A control word is a backslash followed by one or more letters, and a
/// control symbol is a backslash followed by exactly one special character.
pub proof fn lemma_macro_discipline(text: Seq<char>, n: nat)
    ensures
        outcome(text, n) matches Ok(span) ==> (span.kind is MacroNormal ==> {
            &&& span.hi <= text.len()
            &&& span.slice(text).len() >= 2
            &&& span.slice(text)[0] == '\\'
            &&& forall|i: int| 1 <= i < span.slice(text).len() ==> is_letter(
                #[trigger] span.slice(text)[i],
            )
        }),
        outcome(text, n) matches Ok(span) ==> (span.kind is MacroSpecial ==> {
            &&& span.hi <= text.len()
            &&& span.slice(text).len() == 2
            &&& span.slice(text)[0] == '\\'
            &&& is_special(span.slice(text)[1])
        }),
{
    lemma_tokens_shaped(text, n);
    match outcome(text, n) {
        Ok(span) => {
            if span.kind is MacroNormal {
                assert forall|i: int| 1 <= i < span.slice(text).len() implies is_letter(
                    #[trigger] span.slice(text)[i],
                ) by {
                    assert(span.slice(text)[i] == text[span.lo + i]);
                }
            }
        },
        Err(fault) => {},
    }
}

/// A token other than the end marker covers at least one character, so the
/// token at index `n` starts at or after the `n`-th character and, unless it
/// is the end marker, `n` is less than the length of the text.
pub proof fn lemma_index_bound(text: Seq<char>, n: nat)
    ensures
        outcome(text, n) matches Ok(span) ==> n <= span.lo && (!(span.kind is Eof) ==> n
            < span.hi <= text.len()),
    decreases n,
{
    lemma_tokens_shaped(text, n);
    if n > 0 && outcome(text, n) is Ok {
        lemma_tokens_come_first(text, (n - 1) as nat, n);
        lemma_index_bound(text, (n - 1) as nat);
        lemma_tokens_tile(text, (n - 1) as nat);
        lemma_tokens_shaped(text, (n - 1) as nat);
    }
}

/// What the lexer drops just before the token at index `n`: the characters
/// between the end of the token before it, or the beginning of the text, and
/// its own start.
pub open spec fn dropped_before(text: Seq<char>, n: nat) -> Seq<char> {
    match outcome(text, n) {
        Ok(span) => {
            if n == 0 {
                text.subrange(0, span.lo as int)
            } else {
                match outcome(text, (n - 1) as nat) {
                    Ok(before) => text.subrange(before.hi as int, span.lo as int),
                    Err(fault) => Seq::empty(),
                }
            }
        },
        Err(fault) => Seq::empty(),
    }
}

/// The slices of the first `n` tokens in order, each after what the lexer
/// dropped before it.
pub open spec fn rebuilt(text: Seq<char>, n: nat) -> Seq<char>
    decreases n,
{
    if n == 0 {
        Seq::empty()
    } else {
        let k = (n - 1) as nat;
        match outcome(text, k) {
            Ok(span) => rebuilt(text, k) + dropped_before(text, k) + span.slice(text),
            Err(fault) => rebuilt(text, k),
        }
    }
}

/// The slices of the first `n` tokens in order, and nothing else.
pub open spec fn joined_slices(text: Seq<char>, n: nat) -> Seq<char>
    decreases n,
{
    if n == 0 {
        Seq::empty()
    } else {
        let k = (n - 1) as nat;
        match outcome(text, k) {
            Ok(span) => joined_slices(text, k) + span.slice(text),
            Err(fault) => joined_slices(text, k),
        }
    }
}

/// True when no control word among the first `n` tokens has whitespace
/// after it.
pub open spec fn no_space_after_control_words(text: Seq<char>, n: nat) -> bool {
    forall|k: nat|
        k < n ==> (#[trigger] outcome(text, k) matches Ok(span) ==> (span.kind is MacroNormal
            && span.hi < text.len() ==> !is_space(text[span.hi as int])))
}

/// The slices of the tokens, in order, make up the text again, but for the
/// whitespace that follows a control word: up to any token they make up the
/// text up to the end of that token, and up to the end marker the whole
/// text. What is dropped before a token is nothing, unless the token before
/// it is a control word; then it is all the whitespace that follows the
/// control word.
pub proof fn lemma_slices_make_up_text(text: Seq<char>, n: nat)
    ensures
        outcome(text, n) matches Ok(span) ==> {
            &&& span.hi <= text.len()
            &&& rebuilt(text, n + 1) == text.take(span.hi as int)
            &&& (span.kind is Eof ==> rebuilt(text, n + 1) == text)
            &&& (n == 0 ==> dropped_before(text, n).len() == 0)
            &&& (n > 0 ==> match outcome(text, (n - 1) as nat)->Ok_0.kind {
                TokenData::MacroNormal => {
                    &&& forall|i: int|
                        0 <= i < dropped_before(text, n).len() ==> is_space(
                            #[trigger] dropped_before(text, n)[i],
                        )
                    &&& (span.lo < text.len() ==> !is_space(text[span.lo as int]))
                },
                _ => dropped_before(text, n).len() == 0,
            })
        },
    decreases n,
{
    match outcome(text, n) {
        Ok(span) => {
            lemma_tokens_shaped(text, n);
            lemma_tokens_tile(text, n);
            if n == 0 {
                assert(rebuilt(text, 0) == Seq::<char>::empty());
                assert(rebuilt(text, 1) =~= text.take(span.hi as int));
            } else {
                let k = (n - 1) as nat;
                lemma_tokens_come_first(text, k, n);
                lemma_slices_make_up_text(text, k);
                lemma_tokens_tile(text, k);
                let before = outcome(text, k)->Ok_0;
                assert(rebuilt(text, n + 1) =~= text.take(span.hi as int));
                let gone = dropped_before(text, n);
                if before.kind is MacroNormal {
                    assert forall|i: int| 0 <= i < gone.len() implies is_space(#[trigger] gone[i]) by {
                        assert(gone[i] == text[before.hi + i]);
                    }
                }
            }
            if span.kind is Eof {
                assert(text.take(span.hi as int) == text);
            }
        },
        Err(fault) => {},
    }
}

/// Where no control word has whitespace after it, the slices of the tokens
/// alone, in order, make up the text: up to any token the text up to the end
/// of that token, and up to the end marker the whole text.
pub proof fn lemma_slices_alone_make_up_text(text: Seq<char>, n: nat)
    requires
        no_space_after_control_words(text, n),
    ensures
        outcome(text, n) matches Ok(span) ==> {
            &&& span.hi <= text.len()
            &&& joined_slices(text, n + 1) == text.take(span.hi as int)
            &&& (span.kind is Eof ==> joined_slices(text, n + 1) == text)
        },
    decreases n,
{
    match outcome(text, n) {
        Ok(span) => {
            lemma_tokens_shaped(text, n);
            lemma_tokens_tile(text, n);
            if n == 0 {
                assert(joined_slices(text, 0) == Seq::<char>::empty());
                assert(joined_slices(text, 1) =~= text.take(span.hi as int));
            } else {
                let k = (n - 1) as nat;
                lemma_tokens_come_first(text, k, n);
                assert(no_space_after_control_words(text, k));
                lemma_slices_alone_make_up_text(text, k);
                lemma_tokens_tile(text, k);
                let before = outcome(text, k)->Ok_0;
                assert(outcome(text, k) is Ok);
                assert(before.hi == span.lo);
                assert(joined_slices(text, n + 1) =~= text.take(span.hi as int));
            }
            if span.kind is Eof {
                assert(text.take(span.hi as int) == text);
            }
        },
        Err(fault) => {},
    }
}

/// Whitespace comes in one piece: a whitespace token is never followed by
/// another one.
pub proof fn lemma_whitespace_is_whole(text: Seq<char>, n: nat)
    ensures
        outcome(text, n) matches Ok(span) ==> (outcome(text, n + 1) matches Ok(next)
            ==> !(span.kind is Whitespace && next.kind is Whitespace)),
{
    lemma_tokens_shaped(text, n);
    lemma_tokens_shaped(text, n + 1);
    lemma_tokens_tile(text, n);
}

/// True when `text` holds identifier characters and whitespace only.
pub open spec fn is_words(text: Seq<char>) -> bool {
    forall|i: int| 0 <= i < text.len() ==> is_ident_char(#[trigger] text[i]) || is_space(text[i])
}

/// True when lexing `text` yields nothing but words, that is plain tokens
/// made of identifier characters, and whitespace, up to the end marker, and
/// never fails before it.
pub open spec fn lexes_to_words(text: Seq<char>) -> bool {
    forall|n: nat|
        match #[trigger] outcome(text, n) {
            Ok(span) => span.kind is Eof || span.kind is Whitespace || span.token(text).is_ident(),
            Err(fault) => fault.kind == ErrorData::Exited,
        }
}

/// The states that the machine passes through on words and whitespace.
spec fn calm(cfg: Config) -> bool {
    &&& !cfg.dropping
    &&& (cfg.state is Start || cfg.state is Whitespace || cfg.state is Plain || cfg.state is Eof
        || cfg.state is Exit)
}

/// On words and whitespace the machine stays calm, emits plain tokens,
/// whitespace and the end marker only, and fails only after the end marker.
proof fn lemma_run_calm(text: Seq<char>, cfg: Config)
    requires
        is_words(text),
        coherent(text, cfg),
        calm(cfg),
    ensures
        calm(run(text, cfg).0),
        match run(text, cfg).1 {
            Ok(span) => span.kind is Eof || span.kind is Whitespace || span.kind is Plain,
            Err(fault) => fault.kind == ErrorData::Exited,
        },
    decreases budget(text, cfg),
{
    lemma_step_coherent(text, cfg);
    let (next, result) = step(text, cfg);
    if cfg.pos < text.len() {
        let c = text[cfg.pos as int];
        assert(is_ident_char(c) || is_space(c));
        lemma_ident_char_is_plain_or_not(c);
    }
    if result == Ok::<Option<Span>, Fault>(None) {
        lemma_run_calm(text, next);
    }
}

/// On words and whitespace the machine is calm after any number of tokens.
proof fn lemma_calm_after(text: Seq<char>, n: nat)
    requires
        is_words(text),
    ensures
        calm(config_after(text, initial(), n)),
        coherent(text, config_after(text, initial(), n)),
    decreases n,
{
    lemma_config_after_coherent(text, initial(), n);
    if n > 0 {
        lemma_calm_after(text, (n - 1) as nat);
        lemma_run_calm(text, config_after(text, initial(), (n - 1) as nat));
    }
}

/// A text of identifier characters and whitespace lexes to words and
/// whitespace.
pub proof fn lemma_words_lex_to_words(text: Seq<char>)
    requires
        is_words(text),
    ensures
        lexes_to_words(text),
{
    assert forall|n: nat|
        match #[trigger] outcome(text, n) {
            Ok(span) => span.kind is Eof || span.kind is Whitespace || span.token(text).is_ident(),
            Err(fault) => fault.kind == ErrorData::Exited,
        } by {
        lemma_calm_after(text, n);
        lemma_run_calm(text, config_after(text, initial(), n));
        lemma_tokens_shaped(text, n);
        match outcome(text, n) {
            Ok(span) => {
                if span.kind is Plain {
                    assert forall|i: int| 0 <= i < span.slice(text).len() implies is_ident_char(
                        #[trigger] span.slice(text)[i],
                    ) by {
                        let c = text[span.lo + i];
                        assert(span.slice(text)[i] == c);
                        assert(is_ident_char(c) || is_space(c));
                        lemma_ident_char_is_plain_or_not(c);
                    }
                }
            },
            Err(fault) => {},
        }
    }
}

} // verus!
