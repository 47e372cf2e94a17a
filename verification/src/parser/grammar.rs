//! What the parser yields, as functions of the token stream.

use crate::lexer::laws::lemma_index_bound;
use crate::lexer::stream::{outcome, Span};
use crate::parser::error::{ErrorKind, ErrorView};
use crate::source::location::place_at;
use crate::syntax::ast::{DocumentClassView, IdentView, OptView, PreambleView, RootView};
use vstd::prelude::*;

verus! {

/// A parsing failure and the index of the character at which it was met.
pub struct ParseFault {
    pub kind: ErrorKind,
    pub at: nat,
}

impl ParseFault {
    /// The error that the fault stands for.
    pub open spec fn error(self, text: Seq<char>) -> ErrorView {
        ErrorView { kind: self.kind, loc: place_at(text, self.at as int) }
    }
}

/// What parsing from some index of the token stream yields: a value and the
/// index of the first token that was not consumed, or a failure.
pub type Parsed<T> = Result<(T, nat), ParseFault>;

/// An identifier as a stretch of the text.
pub struct Region {
    pub lo: nat,
    pub hi: nat,
}

/// An option as stretches of the text.
pub struct OptRegion {
    pub key: Region,
    pub val: Option<Region>,
}

/// A document class declaration as stretches of the text.
pub struct ClassRegion {
    pub name: Region,
    pub opts: Seq<OptRegion>,
}

impl Region {
    pub open spec fn ident(self, text: Seq<char>) -> IdentView {
        IdentView {
            text: text.subrange(self.lo as int, self.hi as int),
            loc: place_at(text, self.lo as int),
        }
    }
}

impl OptRegion {
    pub open spec fn opt(self, text: Seq<char>) -> OptView {
        OptView {
            key: self.key.ident(text),
            val: match self.val {
                Some(val) => Some(val.ident(text)),
                None => None,
            },
        }
    }
}

impl ClassRegion {
    pub open spec fn class(self, text: Seq<char>) -> DocumentClassView {
        DocumentClassView {
            name: self.name.ident(text),
            opts: self.opts.map_values(|opt: OptRegion| opt.opt(text)),
        }
    }

    pub open spec fn root(self, text: Seq<char>) -> RootView {
        RootView { preamble: PreambleView { class: self.class(text) } }
    }
}

/// The failure with which the parser reports an unwanted token.
pub open spec fn unwanted(kind: ErrorKind, span: Span) -> ParseFault {
    ParseFault { kind, at: span.lo }
}

/// The token at index `p` of the stream, or the lexer's failure.
pub open spec fn token_at(text: Seq<char>, p: nat) -> Result<Span, ParseFault> {
    match outcome(text, p) {
        Ok(span) => Ok(span),
        Err(fault) => Err(ParseFault { kind: ErrorKind::Lex(fault.kind), at: fault.at }),
    }
}

/// True for a plain token made of identifier characters only.
pub open spec fn is_ident(text: Seq<char>, span: Span) -> bool {
    span.token(text).is_ident()
}

/// True for the control sequence of the given name.
pub open spec fn is_macro(text: Seq<char>, span: Span, name: Seq<char>) -> bool {
    span.token(text).is_macro() && span.slice(text).drop_first() == name
}

/// The index after the whitespace token at `p`, if there is one there.
pub open spec fn skip_whitespace_at(text: Seq<char>, p: nat) -> Result<nat, ParseFault> {
    match token_at(text, p) {
        Err(fault) => Err(fault),
        Ok(span) => Ok(
            if span.kind is Whitespace {
                p + 1
            } else {
                p
            },
        ),
    }
}

/// How many tokens other than the end marker the stream can still hold from
/// index `p` on, at most.
pub open spec fn tokens_left(text: Seq<char>, p: nat) -> nat {
    if p < text.len() {
        (text.len() - p) as nat
    } else {
        0
    }
}

/// The rest of an identifier whose first word has been read: further words,
/// each of which may follow the one before it after one whitespace token.
/// Yields the index of the character at which the identifier ends. Whitespace
/// after the last word is consumed, but is no part of the identifier.
pub open spec fn ident_end_at(text: Seq<char>, p: nat) -> Parsed<nat>
    decreases tokens_left(text, p),
{
    match token_at(text, p) {
        Err(fault) => Err(fault),
        Ok(span) => {
            if is_ident(text, span) {
                proof {
                    lemma_index_bound(text, p);
                }
                ident_end_at(text, p + 1)
            } else if span.kind is Whitespace {
                match token_at(text, p + 1) {
                    Err(fault) => Err(fault),
                    Ok(after) => {
                        if is_ident(text, after) {
                            proof {
                                lemma_index_bound(text, p);
                            }
                            ident_end_at(text, p + 2)
                        } else {
                            Ok((span.lo, p + 1))
                        }
                    },
                }
            } else {
                Ok((span.lo, p))
            }
        },
    }
}

/// An identifier: one or more words, separated by whitespace.
pub open spec fn ident_at(text: Seq<char>, p: nat) -> Parsed<Region> {
    match token_at(text, p) {
        Err(fault) => Err(fault),
        Ok(first) => {
            if !is_ident(text, first) {
                Err(unwanted(ErrorKind::ExpectingIdent, first))
            } else {
                match ident_end_at(text, p + 1) {
                    Err(fault) => Err(fault),
                    Ok((end, q)) => Ok((Region { lo: first.lo, hi: end }, q)),
                }
            }
        },
    }
}

/// An option: a key, which may be followed by an equals sign. What follows
/// the equals sign is not read, and the option has no value.
pub open spec fn opt_at(text: Seq<char>, p: nat) -> Parsed<OptRegion> {
    match ident_at(text, p) {
        Err(fault) => Err(fault),
        Ok((key, q1)) => match skip_whitespace_at(text, q1) {
            Err(fault) => Err(fault),
            Ok(q2) => match token_at(text, q2) {
                Err(fault) => Err(fault),
                Ok(span) => {
                    if span.kind is Equal {
                        match skip_whitespace_at(text, q2 + 1) {
                            Err(fault) => Err(fault),
                            Ok(q3) => Ok((OptRegion { key, val: None }, q3)),
                        }
                    } else {
                        Ok((OptRegion { key, val: None }, q2))
                    }
                },
            },
        },
    }
}

/// The options up to the closing bracket, which is not consumed. After each
/// option comes a comma or the closing bracket.
pub open spec fn opts_loop_at(text: Seq<char>, p: nat) -> Parsed<Seq<OptRegion>>
    decreases tokens_left(text, p),
{
    match token_at(text, p) {
        Err(fault) => Err(fault),
        Ok(span) => {
            if span.kind is BracketR {
                Ok((Seq::empty(), p))
            } else {
                match opt_at(text, p) {
                    Err(fault) => Err(fault),
                    Ok((opt, q1)) => match skip_whitespace_at(text, q1) {
                        Err(fault) => Err(fault),
                        Ok(q2) => match token_at(text, q2) {
                            Err(fault) => Err(fault),
                            Ok(next) => {
                                if next.kind is Comma {
                                    match skip_whitespace_at(text, q2 + 1) {
                                        Err(fault) => Err(fault),
                                        Ok(q3) => {
                                            proof {
                                                lemma_opt_advances(text, p);
                                            }
                                            match opts_loop_at(text, q3) {
                                                Err(fault) => Err(fault),
                                                Ok((rest, q)) => Ok((seq![opt] + rest, q)),
                                            }
                                        },
                                    }
                                } else if next.kind is BracketR {
                                    Ok((seq![opt], q2))
                                } else {
                                    Err(unwanted(ErrorKind::UnexpectedToken, next))
                                }
                            },
                        },
                    },
                }
            }
        },
    }
}

/// The options between brackets, after the opening bracket.
pub open spec fn opts_at(text: Seq<char>, p: nat) -> Parsed<Seq<OptRegion>> {
    match skip_whitespace_at(text, p) {
        Err(fault) => Err(fault),
        Ok(q1) => opts_loop_at(text, q1),
    }
}

/// A list of options in brackets, if an opening bracket comes next.
pub open spec fn optional_at(text: Seq<char>, p: nat) -> Parsed<Option<Seq<OptRegion>>> {
    match token_at(text, p) {
        Err(fault) => Err(fault),
        Ok(left) => {
            if !(left.kind is BracketL) {
                Ok((None, p))
            } else {
                match skip_whitespace_at(text, p + 1) {
                    Err(fault) => Err(fault),
                    Ok(q1) => match opts_at(text, q1) {
                        Err(fault) => Err(fault),
                        Ok((opts, q2)) => match token_at(text, q2) {
                            Err(fault) => Err(fault),
                            Ok(right) => {
                                if right.kind is BracketR {
                                    Ok((Some(opts), q2 + 1))
                                } else {
                                    Err(unwanted(ErrorKind::Misc("expecting BracketR"@), right))
                                }
                            },
                        },
                    },
                }
            }
        },
    }
}

/// A list of options in brackets, or no options where no bracket opens.
pub open spec fn optional_opts_at(text: Seq<char>, p: nat) -> Parsed<Seq<OptRegion>> {
    match optional_at(text, p) {
        Err(fault) => Err(fault),
        Ok((Some(opts), q)) => Ok((opts, q)),
        Ok((None, q)) => Ok((Seq::empty(), q)),
    }
}

/// An identifier in braces. Whitespace may stand on either side of it.
pub open spec fn group_at(text: Seq<char>, p: nat) -> Parsed<Region> {
    match token_at(text, p) {
        Err(fault) => Err(fault),
        Ok(left) => {
            if !(left.kind is BraceL) {
                Err(unwanted(ErrorKind::Misc("expecting BraceL"@), left))
            } else {
                match skip_whitespace_at(text, p + 1) {
                    Err(fault) => Err(fault),
                    Ok(q1) => match ident_at(text, q1) {
                        Err(fault) => Err(fault),
                        Ok((body, q2)) => match token_at(text, q2) {
                            Err(fault) => Err(fault),
                            Ok(right) => {
                                if right.kind is BraceR {
                                    Ok((body, q2 + 1))
                                } else {
                                    Err(unwanted(ErrorKind::Misc("expecting BraceR"@), right))
                                }
                            },
                        },
                    },
                }
            }
        },
    }
}

/// The declaration of the document class: the control word
/// `\documentclass`, options in brackets if there are any, and the name of
/// the class in braces.
pub open spec fn document_class_at(text: Seq<char>, p: nat) -> Parsed<ClassRegion> {
    match skip_whitespace_at(text, p) {
        Err(fault) => Err(fault),
        Ok(q1) => match token_at(text, q1) {
            Err(fault) => Err(fault),
            Ok(word) => {
                if !is_macro(text, word, "documentclass"@) {
                    Err(unwanted(ErrorKind::ExpectingMacro("documentclass"@), word))
                } else {
                    match optional_opts_at(text, q1 + 1) {
                        Err(fault) => Err(fault),
                        Ok((opts, q2)) => match skip_whitespace_at(text, q2) {
                            Err(fault) => Err(fault),
                            Ok(q3) => match group_at(text, q3) {
                                Err(fault) => Err(fault),
                                Ok((name, q4)) => Ok((ClassRegion { name, opts }, q4)),
                            },
                        },
                    }
                }
            },
        },
    }
}

/// The tree of the document whose tokens begin at index `p` of the stream, or
/// the first failure that parsing it meets.
pub open spec fn root_at(text: Seq<char>, p: nat) -> Result<RootView, ErrorView> {
    match document_class_at(text, p) {
        Err(fault) => Err(fault.error(text)),
        Ok((class, q)) => Ok(class.root(text)),
    }
}

/// The rest of an identifier ends at or after the index at which it is
/// looked for.
pub proof fn lemma_ident_end_advances(text: Seq<char>, p: nat)
    ensures
        ident_end_at(text, p) matches Ok((end, q)) ==> p <= q,
    decreases tokens_left(text, p),
{
    match token_at(text, p) {
        Err(fault) => {},
        Ok(span) => {
            lemma_index_bound(text, p);
            if is_ident(text, span) {
                lemma_ident_end_advances(text, p + 1);
            } else if span.kind is Whitespace {
                match token_at(text, p + 1) {
                    Err(fault) => {},
                    Ok(after) => {
                        if is_ident(text, after) {
                            lemma_ident_end_advances(text, p + 2);
                        }
                    },
                }
            }
        },
    }
}

/// An option consumes at least one token, and that token is not the end
/// marker.
pub proof fn lemma_opt_advances(text: Seq<char>, p: nat)
    ensures
        opt_at(text, p) matches Ok((opt, q)) ==> p < q && p < text.len(),
        ident_at(text, p) matches Ok((region, q)) ==> p < q && p < text.len(),
{
    lemma_ident_end_advances(text, p + 1);
    lemma_index_bound(text, p);
}

} // verus!
