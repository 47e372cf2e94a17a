//! The parser: recursive descent with one token of lookahead.

use crate::lexer::laws::{lemma_index_bound, lemma_locations_ascend};
use crate::lexer::shape::lemma_tokens_shaped;
use crate::lexer::stream::outcome;
use crate::lexer::Lexer;
use crate::parser::error::{lemma_lifted, Error, ErrorData, ErrorKind, ErrorView};
use crate::parser::grammar::{
    document_class_at, group_at, ident_at, ident_end_at, is_ident, lemma_opt_advances, opt_at,
    optional_at, optional_opts_at, opts_at, opts_loop_at, root_at, skip_whitespace_at, token_at,
    tokens_left, OptRegion, ParseFault, Parsed,
};
use crate::source::location::utf8_width;
use crate::source::text::{lemma_char_index, same_text};
use crate::syntax::ast::{DocumentClass, Ident, Opt, Preamble, Root};
use crate::syntax::token::{Token, TokenData};
use vstd::prelude::*;

verus! {

/// Reads the tokens of a [`Lexer`] and builds the tree of the document.
pub struct Parser<'src> {
    lexer: Lexer<'src>,
    peek: Option<Token<'src>>,
}

/// A parsed list joined to what parsing the rest of the list yields.
pub open spec fn joined<T>(done: Seq<T>, rest: Parsed<Seq<T>>) -> Parsed<Seq<T>> {
    match rest {
        Ok((more, q)) => Ok((done + more, q)),
        Err(fault) => Err(fault),
    }
}

impl<'src> Parser<'src> {
    #[verifier::type_invariant]
    spec fn wf(self) -> bool {
        match self.peek {
            None => true,
            Some(token) => {
                &&& self.lexer.calls() > 0
                &&& outcome(self.lexer.text(), (self.lexer.calls() - 1) as nat) matches Ok(span)
                &&& token@ == span.token(self.lexer.text())
            },
        }
    }

    /// The text that is being parsed.
    pub closed spec fn text(&self) -> Seq<char> {
        self.lexer.text()
    }

    /// The index, in the token stream of the text, of the next token that
    /// the parser will consume.
    pub closed spec fn cursor(&self) -> nat {
        if self.peek.is_some() {
            (self.lexer.calls() - 1) as nat
        } else {
            self.lexer.calls()
        }
    }

    /// A parser that reads the tokens that `lexer` has not yielded yet.
    pub fn new(lexer: Lexer<'src>) -> (parser: Parser<'src>)
        ensures
            parser.text() == lexer.text(),
            parser.cursor() == lexer.calls(),
    {
        Parser { lexer, peek: None }
    }

    /// The next token, which stays in place.
    fn peek(&mut self) -> (r: Result<Token<'src>, Error<'src>>)
        ensures
            final(self).text() == old(self).text(),
            r is Ok ==> final(self).peek.is_some(),
            match token_at(old(self).text(), old(self).cursor()) {
                Ok(span) => {
                    &&& r matches Ok(token)
                    &&& token@ == span.token(old(self).text())
                    &&& final(self).cursor() == old(self).cursor()
                },
                Err(fault) => r matches Err(error) && error@ == fault.error(old(self).text()),
            },
    {
        proof {
            use_type_invariant(&*self);
        }
        match self.peek {
            Some(token) => Ok(token),
            None => {
                let mut lexer = self.lexer;
                match lexer.next() {
                    Ok(token) => {
                        *self = Parser { lexer, peek: Some(token) };
                        Ok(token)
                    },
                    Err(err) => {
                        *self = Parser { lexer, peek: None };
                        proof {
                            lemma_lifted(err);
                        }
                        Err(Error::from(err))
                    },
                }
            },
        }
    }

    /// The next token, which is consumed.
    fn next(&mut self) -> (r: Result<Token<'src>, Error<'src>>)
        ensures
            final(self).text() == old(self).text(),
            match token_at(old(self).text(), old(self).cursor()) {
                Ok(span) => {
                    &&& r matches Ok(token)
                    &&& token@ == span.token(old(self).text())
                    &&& final(self).cursor() == old(self).cursor() + 1
                },
                Err(fault) => r matches Err(error) && error@ == fault.error(old(self).text()),
            },
    {
        match self.peek() {
            Err(error) => Err(error),
            Ok(token) => {
                proof {
                    use_type_invariant(&*self);
                }
                self.peek = None;
                Ok(token)
            },
        }
    }

    /// Consumes the next token if it is whitespace, and returns it.
    fn skip_whitespace(&mut self) -> (r: Result<Option<Token<'src>>, Error<'src>>)
        ensures
            final(self).text() == old(self).text(),
            match skip_whitespace_at(old(self).text(), old(self).cursor()) {
                Ok(q) => {
                    &&& r matches Ok(skipped)
                    &&& final(self).cursor() == q
                    &&& match skipped {
                        Some(token) => {
                            &&& q == old(self).cursor() + 1
                            &&& token_at(old(self).text(), old(self).cursor()) matches Ok(span)
                            &&& token@ == span.token(old(self).text())
                        },
                        None => q == old(self).cursor(),
                    }
                },
                Err(fault) => r matches Err(error) && error@ == fault.error(old(self).text()),
            },
    {
        match self.peek() {
            Err(error) => Err(error),
            Ok(token) => {
                if token.is_whitespace_like() {
                    match self.next() {
                        Err(error) => Err(error),
                        Ok(token) => Ok(Some(token)),
                    }
                } else {
                    Ok(None)
                }
            },
        }
    }

    /// The declaration of the document class: the control word, options in
    /// brackets if there are any, and the name of the class in braces.
    fn parse_document_class(&mut self) -> (r: Result<DocumentClass<'src>, Error<'src>>)
        ensures
            final(self).text() == old(self).text(),
            match document_class_at(old(self).text(), old(self).cursor()) {
                Ok((class, q)) => {
                    &&& r matches Ok(tree)
                    &&& tree@ == class.class(old(self).text())
                    &&& final(self).cursor() == q
                },
                Err(fault) => r matches Err(error) && error@ == fault.error(old(self).text()),
            },
    {
        let ghost text = self.text();
        match self.skip_whitespace() {
            Err(error) => {
                return Err(error);
            },
            Ok(_) => {},
        }
        let ghost q1 = self.cursor();
        let word = match self.next() {
            Err(error) => {
                return Err(error);
            },
            Ok(word) => word,
        };
        proof {
            lemma_tokens_shaped(text, q1);
        }
        match Self::expect_macro(word, "documentclass") {
            Err(error) => {
                return Err(error);
            },
            Ok(()) => {},
        }
        let opts = match self.parse_optional_opts() {
            Err(error) => {
                return Err(error);
            },
            Ok(opts) => opts,
        };
        match self.skip_whitespace() {
            Err(error) => {
                return Err(error);
            },
            Ok(_) => {},
        }
        let name = match self.parse_group() {
            Err(error) => {
                return Err(error);
            },
            Ok(name) => name,
        };
        Ok(DocumentClass { name, opts })
    }

    /// The options up to the closing bracket, which stays in place.
    fn parse_opts(&mut self) -> (r: Result<Vec<Opt<'src>>, Error<'src>>)
        ensures
            final(self).text() == old(self).text(),
            match opts_at(old(self).text(), old(self).cursor()) {
                Ok((opts, q)) => {
                    &&& r matches Ok(list)
                    &&& list@.map_values(|opt: Opt<'src>| opt@) == opts.map_values(
                        |opt: OptRegion| opt.opt(old(self).text()),
                    )
                    &&& final(self).cursor() == q
                },
                Err(fault) => r matches Err(error) && error@ == fault.error(old(self).text()),
            },
    {
        let ghost text = self.text();
        let mut opts: Vec<Opt<'src>> = Vec::new();
        match self.skip_whitespace() {
            Err(error) => {
                return Err(error);
            },
            Ok(_) => {},
        }
        let ghost q1 = self.cursor();
        let ghost mut done: Seq<OptRegion> = Seq::empty();
        proof {
            assert(done + opts_loop_at(text, q1)->Ok_0.0 =~= opts_loop_at(text, q1)->Ok_0.0);
        }
        loop
            invariant
                self.text() == text,
                text == old(self).text(),
                opts_at(text, old(self).cursor()) == opts_loop_at(text, q1),
                opts@.len() == done.len(),
                forall|i: int| 0 <= i < done.len() ==> (#[trigger] opts@[i])@ == done[i].opt(text),
                opts_loop_at(text, q1) == joined(done, opts_loop_at(text, self.cursor())),
            decreases tokens_left(text, self.cursor()),
        {
            let ghost p = self.cursor();
            let token = match self.peek() {
                Err(error) => {
                    return Err(error);
                },
                Ok(token) => token,
            };
            match token.data() {
                TokenData::BracketR => {
                    proof {
                        assert(done + Seq::<OptRegion>::empty() =~= done);
                        assert(opts@.map_values(|opt: Opt<'src>| opt@) =~= done.map_values(
                            |opt: OptRegion| opt.opt(text),
                        ));
                    }
                    return Ok(opts);
                },
                _ => {},
            }
            let opt = match self.parse_opt() {
                Err(error) => {
                    return Err(error);
                },
                Ok(opt) => opt,
            };
            let ghost region = opt_at(text, p)->Ok_0.0;
            opts.push(opt);
            match self.skip_whitespace() {
                Err(error) => {
                    return Err(error);
                },
                Ok(_) => {},
            }
            let next = match self.peek() {
                Err(error) => {
                    return Err(error);
                },
                Ok(next) => next,
            };
            match next.data() {
                TokenData::Comma => {
                    match self.next() {
                        Err(error) => {
                            return Err(error);
                        },
                        Ok(_) => {},
                    }
                    match self.skip_whitespace() {
                        Err(error) => {
                            return Err(error);
                        },
                        Ok(_) => {},
                    }
                    proof {
                        lemma_opt_advances(text, p);
                        let rest = opts_loop_at(text, self.cursor());
                        if rest is Ok {
                            assert(done + (seq![region] + rest->Ok_0.0) =~= done.push(region)
                                + rest->Ok_0.0);
                        }
                        done = done.push(region);
                    }
                },
                TokenData::BracketR => {
                    proof {
                        assert(done + seq![region] =~= done.push(region));
                        done = done.push(region);
                        assert(opts@.map_values(|opt: Opt<'src>| opt@) =~= done.map_values(
                            |opt: OptRegion| opt.opt(text),
                        ));
                    }
                    return Ok(opts);
                },
                _ => {
                    return Err(Error::new(ErrorData::UnexpectedToken, next.loc()));
                },
            }
        }
    }

    /// An identifier in braces.
    fn parse_group(&mut self) -> (r: Result<Ident<'src>, Error<'src>>)
        ensures
            final(self).text() == old(self).text(),
            match group_at(old(self).text(), old(self).cursor()) {
                Ok((body, q)) => {
                    &&& r matches Ok(ident)
                    &&& ident@ == body.ident(old(self).text())
                    &&& final(self).cursor() == q
                },
                Err(fault) => r matches Err(error) && error@ == fault.error(old(self).text()),
            },
    {
        let left = match self.next() {
            Err(error) => {
                return Err(error);
            },
            Ok(left) => left,
        };
        match left.data() {
            TokenData::BraceL => {},
            _ => {
                return Err(Error::new(ErrorData::Misc("expecting BraceL"), left.loc()));
            },
        }
        match self.skip_whitespace() {
            Err(error) => {
                return Err(error);
            },
            Ok(_) => {},
        }
        let body = match self.parse_ident() {
            Err(error) => {
                return Err(error);
            },
            Ok(body) => body,
        };
        let right = match self.next() {
            Err(error) => {
                return Err(error);
            },
            Ok(right) => right,
        };
        match right.data() {
            TokenData::BraceR => {},
            _ => {
                return Err(Error::new(ErrorData::Misc("expecting BraceR"), right.loc()));
            },
        }
        Ok(body)
    }

    /// An option: a key, which an equals sign may follow.
    fn parse_opt(&mut self) -> (r: Result<Opt<'src>, Error<'src>>)
        ensures
            final(self).text() == old(self).text(),
            match opt_at(old(self).text(), old(self).cursor()) {
                Ok((opt, q)) => {
                    &&& r matches Ok(tree)
                    &&& tree@ == opt.opt(old(self).text())
                    &&& final(self).cursor() == q
                },
                Err(fault) => r matches Err(error) && error@ == fault.error(old(self).text()),
            },
    {
        let key = match self.parse_ident() {
            Err(error) => {
                return Err(error);
            },
            Ok(key) => key,
        };
        match self.skip_whitespace() {
            Err(error) => {
                return Err(error);
            },
            Ok(_) => {},
        }
        let token = match self.peek() {
            Err(error) => {
                return Err(error);
            },
            Ok(token) => token,
        };
        match token.data() {
            TokenData::Equal => {
                match self.next() {
                    Err(error) => {
                        return Err(error);
                    },
                    Ok(_) => {},
                }
                match self.skip_whitespace() {
                    Err(error) => {
                        return Err(error);
                    },
                    Ok(_) => {},
                }
                Ok(Opt { key, val: None })
            },
            _ => Ok(Opt { key, val: None }),
        }
    }

    /// Options in brackets, or no options where no bracket opens.
    fn parse_optional_opts(&mut self) -> (r: Result<Vec<Opt<'src>>, Error<'src>>)
        ensures
            final(self).text() == old(self).text(),
            match optional_opts_at(old(self).text(), old(self).cursor()) {
                Ok((opts, q)) => {
                    &&& r matches Ok(list)
                    &&& list@.map_values(|opt: Opt<'src>| opt@) == opts.map_values(
                        |opt: OptRegion| opt.opt(old(self).text()),
                    )
                    &&& final(self).cursor() == q
                },
                Err(fault) => r matches Err(error) && error@ == fault.error(old(self).text()),
            },
    {
        let ghost text = self.text();
        match self.parse_optional() {
            Err(error) => Err(error),
            Ok(Some(opts)) => Ok(opts),
            Ok(None) => {
                let opts: Vec<Opt<'src>> = Vec::new();
                proof {
                    assert(opts@.map_values(|opt: Opt<'src>| opt@) =~= Seq::<
                        OptRegion,
                    >::empty().map_values(|opt: OptRegion| opt.opt(text)));
                }
                Ok(opts)
            },
        }
    }

    /// A list of options in brackets, if an opening bracket comes next.
    fn parse_optional(&mut self) -> (r: Result<Option<Vec<Opt<'src>>>, Error<'src>>)
        ensures
            final(self).text() == old(self).text(),
            match optional_at(old(self).text(), old(self).cursor()) {
                Ok((Some(opts), q)) => {
                    &&& r matches Ok(Some(list))
                    &&& list@.map_values(|opt: Opt<'src>| opt@) == opts.map_values(
                        |opt: OptRegion| opt.opt(old(self).text()),
                    )
                    &&& final(self).cursor() == q
                },
                Ok((None, q)) => r matches Ok(None) && final(self).cursor() == q,
                Err(fault) => r matches Err(error) && error@ == fault.error(old(self).text()),
            },
    {
        let left = match self.peek() {
            Err(error) => {
                return Err(error);
            },
            Ok(left) => left,
        };
        match left.data() {
            TokenData::BracketL => {
                match self.next() {
                    Err(error) => {
                        return Err(error);
                    },
                    Ok(_) => {},
                }
                match self.skip_whitespace() {
                    Err(error) => {
                        return Err(error);
                    },
                    Ok(_) => {},
                }
            },
            _ => {
                return Ok(None);
            },
        }
        let body = match self.parse_opts() {
            Err(error) => {
                return Err(error);
            },
            Ok(body) => body,
        };
        let right = match self.next() {
            Err(error) => {
                return Err(error);
            },
            Ok(right) => right,
        };
        match right.data() {
            TokenData::BracketR => {},
            _ => {
                return Err(Error::new(ErrorData::Misc("expecting BracketR"), right.loc()));
            },
        }
        Ok(Some(body))
    }

    /// The preamble: the declaration of the document class.
    fn parse_preamble(&mut self) -> (r: Result<Preamble<'src>, Error<'src>>)
        ensures
            final(self).text() == old(self).text(),
            match document_class_at(old(self).text(), old(self).cursor()) {
                Ok((class, q)) => {
                    &&& r matches Ok(tree)
                    &&& tree@.class == class.class(old(self).text())
                    &&& final(self).cursor() == q
                },
                Err(fault) => r matches Err(error) && error@ == fault.error(old(self).text()),
            },
    {
        match self.parse_document_class() {
            Err(error) => Err(error),
            Ok(class) => Ok(Preamble { class }),
        }
    }

    /// An identifier: one or more words, which whitespace may separate. The
    /// identifier covers the text from its first word to its last.
    fn parse_ident(&mut self) -> (r: Result<Ident<'src>, Error<'src>>)
        ensures
            final(self).text() == old(self).text(),
            match ident_at(old(self).text(), old(self).cursor()) {
                Ok((region, q)) => {
                    &&& r matches Ok(ident)
                    &&& ident@ == region.ident(old(self).text())
                    &&& final(self).cursor() == q
                },
                Err(fault) => r matches Err(error) && error@ == fault.error(old(self).text()),
            },
    {
        let ghost text = self.text();
        let ghost p0 = self.cursor();
        let first = match self.next() {
            Err(error) => {
                return Err(error);
            },
            Ok(first) => first,
        };
        if !first.is_ident() {
            return Err(Error::new(ErrorData::ExpectingIdent, first.loc()));
        }
        let start = first.loc();
        let ghost mut stop: nat = p0;
        let mut end = start;
        loop
            invariant_except_break
                self.text() == text,
                p0 < self.cursor(),
                ident_end_at(text, self.cursor()) == ident_end_at(text, p0 + 1),
            invariant
                text == old(self).text(),
                p0 == old(self).cursor(),
                token_at(text, p0) matches Ok(head) && is_ident(text, head)
                    && start@ == head.token(text).loc,
            ensures
                self.text() == text,
                p0 <= stop,
                outcome(text, stop) matches Ok(span) && ident_end_at(text, p0 + 1) == Ok::<
                    _,
                    ParseFault,
                >((span.lo, self.cursor())) && end@ == span.token(text).loc,
            decreases tokens_left(text, self.cursor()),
        {
            let ghost p = self.cursor();
            proof {
                lemma_index_bound(text, p);
                lemma_index_bound(text, p + 1);
            }
            let token = match self.peek() {
                Err(error) => {
                    return Err(error);
                },
                Ok(token) => token,
            };
            if token.is_ident() {
                match self.next() {
                    Err(error) => {
                        return Err(error);
                    },
                    Ok(_) => {},
                }
            } else {
                match self.skip_whitespace() {
                    Err(error) => {
                        return Err(error);
                    },
                    Ok(None) => {
                        proof {
                            stop = p;
                        }
                        end = token.loc();
                        break;
                    },
                    Ok(Some(space)) => {
                        let after = match self.peek() {
                            Err(error) => {
                                return Err(error);
                            },
                            Ok(after) => after,
                        };
                        if after.is_ident() {
                            match self.next() {
                                Err(error) => {
                                    return Err(error);
                                },
                                Ok(_) => {},
                            }
                        } else {
                            proof {
                                stop = p;
                            }
                            end = space.loc();
                            break;
                        }
                    },
                }
            }
        }
        proof {
            let head = outcome(text, p0)->Ok_0;
            let tail = outcome(text, stop)->Ok_0;
            lemma_locations_ascend(text, p0, stop);
            lemma_tokens_shaped(text, p0);
            lemma_tokens_shaped(text, stop);
            lemma_char_index(text, head.lo as int);
            lemma_char_index(text, tail.lo as int);
        }
        let src = self.lexer.source().slice(&start, &end);
        Ok(Ident { src, loc: start })
    }

    /// Succeeds when `token` is the control sequence called `name`.
    fn expect_macro(token: Token<'src>, name: &'static str) -> (r: Result<(), Error<'src>>)
        requires
            token@.is_macro() ==> token@.text.len() > 0 && utf8_width(token@.text[0]) == 1,
        ensures
            token@.is_macro() && token@.text.drop_first() == name@ ==> r is Ok,
            !(token@.is_macro() && token@.text.drop_first() == name@) ==> (r matches Err(error)
                && error@ == (ErrorView { kind: ErrorKind::ExpectingMacro(name@), loc: token@.loc })),
    {
        match token.macro_name() {
            Some(s) => {
                if same_text(name, s) {
                    Ok(())
                } else {
                    Err(Error::new(ErrorData::ExpectingMacro(name), token.loc()))
                }
            },
            None => Err(Error::new(ErrorData::ExpectingMacro(name), token.loc())),
        }
    }

    /// Parses the document.
    ///
    /// The result is the tree that the tokens yield which the lexer had not
    /// handed out when the parser was made, or the first failure that is met:
    /// a failure of the lexer, or a token that the grammar does not allow in
    /// its place.
    pub fn parse(self) -> (r: Result<Root<'src>, Error<'src>>)
        ensures
            match root_at(self.text(), self.cursor()) {
                Ok(tree) => r matches Ok(root) && root@ == tree,
                Err(failure) => r matches Err(error) && error@ == failure,
            },
    {
        let mut parser = self;
        match parser.parse_preamble() {
            Err(error) => Err(error),
            Ok(preamble) => Ok(Root { preamble }),
        }
    }
}

} // verus!
