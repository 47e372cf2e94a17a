//! The grammar of the document class declaration over the token stream, every
//! text of which the parser accepts, and what holds of the trees that the
//! parser yields. The parser accepts some texts more: an empty list of
//! options, and a comma after the last option.

use crate::lexer::laws::{
    is_words, lemma_index_bound, lemma_tokens_tile, lemma_whitespace_is_whole,
    lemma_words_lex_to_words, lexes_to_words,
};
use crate::lexer::shape::lemma_tokens_shaped;
use crate::lexer::stream::outcome;
use crate::parser::error::ErrorView;
use crate::parser::grammar::{
    document_class_at, group_at, ident_at, ident_end_at, is_ident, is_macro, lemma_opt_advances,
    opt_at, optional_at, optional_opts_at, opts_loop_at, root_at, skip_whitespace_at, token_at,
    tokens_left, ClassRegion, OptRegion, ParseFault, Region,
};
use crate::syntax::ast::RootView;
use crate::syntax::class::{is_ident_char, is_space};
use crate::syntax::token::TokenData;
use vstd::prelude::*;

verus! {

/// The token at index `p` of the stream has the given kind.
pub open spec fn kind_at(text: Seq<char>, p: nat, kind: TokenData) -> bool {
    outcome(text, p) matches Ok(span) && span.kind == kind
}

/// The token at index `p` of the stream is whitespace.
pub open spec fn space_at(text: Seq<char>, p: nat) -> bool {
    outcome(text, p) matches Ok(span) && span.kind is Whitespace
}

/// The token at index `p` of the stream is a word: a plain token made of
/// identifier characters only.
pub open spec fn word_at(text: Seq<char>, p: nat) -> bool {
    outcome(text, p) matches Ok(span) && is_ident(text, span)
}

/// The token at index `p` of the stream is the control sequence `name`.
pub open spec fn macro_at(text: Seq<char>, p: nat, name: Seq<char>) -> bool {
    outcome(text, p) matches Ok(span) && is_macro(text, span, name)
}

/// The tokens from index `p` up to `q` are optional whitespace: nothing, or
/// one whitespace token.
pub open spec fn derives_space(text: Seq<char>, p: nat, q: nat) -> bool {
    q == p || (q == p + 1 && space_at(text, p))
}

/// The tokens from index `p` up to `q` are an identifier: words with
/// whitespace between them.
pub open spec fn derives_ident(text: Seq<char>, p: nat, q: nat) -> bool
    decreases q - p,
{
    &&& p < q
    &&& word_at(text, p)
    &&& (q == p + 1 || (p + 2 < q && space_at(text, p + 1) && derives_ident(text, p + 2, q)))
}

/// The stretch of the text that the identifier covers whose tokens lie from
/// index `p` up to `q`: from the start of its first word to the end of its
/// last.
pub open spec fn ident_region(text: Seq<char>, p: nat, q: nat) -> Region {
    Region { lo: outcome(text, p)->Ok_0.lo, hi: outcome(text, (q - 1) as nat)->Ok_0.hi }
}

/// The tokens from index `p` up to `q` are a token of the given kind with
/// optional whitespace on either side.
pub open spec fn derives_mark(text: Seq<char>, kind: TokenData, p: nat, q: nat) -> bool {
    exists|a: nat| #[trigger]
        derives_space(text, p, a) && kind_at(text, a, kind) && derives_space(text, a + 1, q)
}

/// The tokens from index `p` up to `q` are the option `opt`: an identifier,
/// which is the key, and which an equals sign may follow. The option has no
/// value. An option with a value after the equals sign is not in the
/// grammar.
pub open spec fn derives_opt(text: Seq<char>, p: nat, q: nat, opt: OptRegion) -> bool {
    exists|i: nat| #[trigger]
        derives_ident(text, p, i) && opt == (OptRegion {
            key: ident_region(text, p, i),
            val: None,
        }) && (q == i || derives_mark(text, TokenData::Equal, i, q))
}

/// The tokens from index `p` up to `q` are the options `opts`, in order: one
/// or more options with commas between them, and optional whitespace at the
/// end. The definition is folded; `reveal` unfolds it once.
#[verifier::opaque]
pub open spec fn derives_opts(text: Seq<char>, p: nat, q: nat, opts: Seq<OptRegion>) -> bool
    decreases q - p,
{
    &&& opts.len() > 0
    &&& exists|m: nat| #[trigger]
        derives_opt(text, p, m, opts[0]) && p < m <= q && ((opts.len() == 1 && derives_space(
            text,
            m,
            q,
        )) || exists|b: nat| #[trigger]
            derives_mark(text, TokenData::Comma, m, b) && m < b <= q && derives_opts(
                text,
                b,
                q,
                opts.drop_first(),
            ))
}

/// The tokens from index `p` up to `q` are nothing, and there are no
/// options, or they are the options `opts` in brackets.
pub open spec fn derives_optional_opts(
    text: Seq<char>,
    p: nat,
    q: nat,
    opts: Seq<OptRegion>,
) -> bool {
    (q == p && opts.len() == 0) || (kind_at(text, p, TokenData::BracketL) && exists|a: nat, b: nat|
        #![trigger derives_opts(text, a, b, opts)]
        derives_space(text, p + 1, a) && derives_opts(text, a, b, opts) && kind_at(
            text,
            b,
            TokenData::BracketR,
        ) && q == b + 1)
}

/// The indices at which the parts of a document class declaration begin.
pub struct ClassMarks {
    /// The control word.
    pub word: nat,
    /// What follows the options.
    pub after_opts: nat,
    /// The opening brace.
    pub open: nat,
    /// The name of the class.
    pub name: nat,
    /// What follows the name.
    pub after_name: nat,
    /// The closing brace.
    pub close: nat,
}

/// The tokens from index `p` on are the declaration of the document class
/// `class`, and its parts begin at the indices `at`: optional whitespace, the
/// control word `\documentclass`, optional options, optional whitespace, an
/// opening brace, optional whitespace, the name of the class, optional
/// whitespace, and a closing brace.
pub open spec fn spells_document_class(
    text: Seq<char>,
    p: nat,
    at: ClassMarks,
    class: ClassRegion,
) -> bool {
    &&& derives_space(text, p, at.word)
    &&& macro_at(text, at.word, "documentclass"@)
    &&& derives_optional_opts(text, at.word + 1, at.after_opts, class.opts)
    &&& derives_space(text, at.after_opts, at.open)
    &&& kind_at(text, at.open, TokenData::BraceL)
    &&& derives_space(text, at.open + 1, at.name)
    &&& derives_ident(text, at.name, at.after_name)
    &&& class.name == ident_region(text, at.name, at.after_name)
    &&& derives_space(text, at.after_name, at.close)
    &&& kind_at(text, at.close, TokenData::BraceR)
}

/// The tokens from index `p` up to `q` are the declaration of the document
/// class `class`: optional whitespace, the control word `\documentclass`,
/// optional options, optional whitespace, and the name of the class in
/// braces, with optional whitespace on either side of it.
pub open spec fn derives_document_class(
    text: Seq<char>,
    p: nat,
    q: nat,
    class: ClassRegion,
) -> bool {
    exists|at: ClassMarks| #[trigger] spells_document_class(text, p, at, class) && q == at.close + 1
}

/// The token at index `p` ends an identifier and the whitespace after it: it
/// is neither a word nor whitespace.
pub open spec fn stops_at(text: Seq<char>, p: nat) -> bool {
    outcome(text, p) matches Ok(span) && !is_ident(text, span) && !(span.kind is Whitespace)
}

/// Optional whitespace before a token that is no whitespace is what the
/// parser skips.
proof fn lemma_space(text: Seq<char>, p: nat, q: nat)
    requires
        derives_space(text, p, q),
        outcome(text, q) matches Ok(span) && !(span.kind is Whitespace),
    ensures
        skip_whitespace_at(text, p) == Ok::<nat, ParseFault>(q),
{
}

/// Optional whitespace twice in a row is optional whitespace once, since no
/// two whitespace tokens follow each other.
proof fn lemma_two_spaces(text: Seq<char>, p: nat, m: nat, q: nat)
    requires
        derives_space(text, p, m),
        derives_space(text, m, q),
        outcome(text, q) matches Ok(span) && !(span.kind is Whitespace),
    ensures
        derives_space(text, p, q),
{
    lemma_whitespace_is_whole(text, p);
}

/// An identifier ends with a word.
proof fn lemma_last_word(text: Seq<char>, p: nat, i: nat)
    requires
        derives_ident(text, p, i),
    ensures
        word_at(text, (i - 1) as nat),
    decreases i - p,
{
    if i != p + 1 {
        lemma_last_word(text, p + 2, i);
    }
}

/// At a token that is neither a word nor whitespace the identifier ends.
proof fn lemma_ident_end_stops(text: Seq<char>, p: nat)
    requires
        stops_at(text, p),
    ensures
        ident_end_at(text, p) == Ok::<_, ParseFault>((outcome(text, p)->Ok_0.lo, p)),
{
}

/// At whitespace that no word follows the identifier ends, and the
/// whitespace is consumed.
proof fn lemma_ident_end_stops_after_space(text: Seq<char>, p: nat)
    requires
        space_at(text, p),
        stops_at(text, p + 1),
    ensures
        ident_end_at(text, p) == Ok::<_, ParseFault>((outcome(text, p)->Ok_0.lo, p + 1)),
{
    assert(!is_ident(text, outcome(text, p)->Ok_0));
}

/// At whitespace that a word follows the identifier goes on.
proof fn lemma_ident_end_goes_on(text: Seq<char>, p: nat)
    requires
        space_at(text, p),
        word_at(text, p + 1),
    ensures
        ident_end_at(text, p) == ident_end_at(text, p + 2),
{
    assert(!is_ident(text, outcome(text, p)->Ok_0));
}

/// After the first word of an identifier the parser reads the rest of it and
/// the whitespace after it, and finds its end at the end of its last word.
proof fn lemma_ident_end(text: Seq<char>, p: nat, i: nat, x: nat)
    requires
        derives_ident(text, p, i),
        derives_space(text, i, x),
        stops_at(text, x),
    ensures
        ident_end_at(text, p + 1) == Ok::<_, ParseFault>((ident_region(text, p, i).hi, x)),
    decreases i - p,
{
    if i == p + 1 {
        lemma_tokens_tile(text, p);
        if x == i {
            lemma_ident_end_stops(text, i);
        } else {
            lemma_ident_end_stops_after_space(text, i);
        }
    } else {
        lemma_ident_end(text, p + 2, i, x);
        lemma_ident_end_goes_on(text, p + 1);
    }
}

/// The parser reads an identifier and the whitespace after it.
proof fn lemma_ident(text: Seq<char>, p: nat, i: nat, x: nat)
    requires
        derives_ident(text, p, i),
        derives_space(text, i, x),
        stops_at(text, x),
    ensures
        ident_at(text, p) == Ok::<_, ParseFault>((ident_region(text, p, i), x)),
{
    lemma_ident_end(text, p, i, x);
}

/// The parser reads an option and the whitespace after it.
proof fn lemma_opt(text: Seq<char>, p: nat, m: nat, x: nat, opt: OptRegion)
    requires
        derives_opt(text, p, m, opt),
        derives_space(text, m, x),
        stops_at(text, x),
        !kind_at(text, x, TokenData::Equal),
    ensures
        opt_at(text, p) == Ok::<_, ParseFault>((opt, x)),
        word_at(text, p),
{
    let i = choose|i: nat| #[trigger]
        derives_ident(text, p, i) && opt == (OptRegion {
            key: ident_region(text, p, i),
            val: None,
        }) && (m == i || derives_mark(text, TokenData::Equal, i, m));
    if m == i {
        lemma_ident(text, p, i, x);
    } else {
        let a = choose|a: nat| #[trigger]
            derives_space(text, i, a) && kind_at(text, a, TokenData::Equal) && derives_space(
                text,
                a + 1,
                m,
            );
        lemma_ident(text, p, i, a);
        lemma_two_spaces(text, a + 1, m, x);
        lemma_space(text, a + 1, x);
    }
}

/// An option before the closing bracket is the last of the list.
proof fn lemma_opts_end(text: Seq<char>, p: nat, opt: OptRegion, x: nat)
    requires
        word_at(text, p),
        opt_at(text, p) == Ok::<_, ParseFault>((opt, x)),
        kind_at(text, x, TokenData::BracketR),
    ensures
        opts_loop_at(text, p) == Ok::<_, ParseFault>((seq![opt], x)),
{
}

/// An option before a comma is followed by the rest of the list.
proof fn lemma_opts_go_on(
    text: Seq<char>,
    p: nat,
    opt: OptRegion,
    a: nat,
    b: nat,
    rest: Seq<OptRegion>,
    q: nat,
)
    requires
        word_at(text, p),
        opt_at(text, p) == Ok::<_, ParseFault>((opt, a)),
        kind_at(text, a, TokenData::Comma),
        skip_whitespace_at(text, a + 1) == Ok::<nat, ParseFault>(b),
        opts_loop_at(text, b) == Ok::<_, ParseFault>((rest, q)),
    ensures
        opts_loop_at(text, p) == Ok::<_, ParseFault>((seq![opt] + rest, q)),
{
}

/// The parser reads the last option of a list up to the closing bracket.
proof fn lemma_opts_last(text: Seq<char>, p: nat, m: nat, q: nat, opt: OptRegion)
    requires
        derives_opt(text, p, m, opt),
        derives_space(text, m, q),
        kind_at(text, q, TokenData::BracketR),
    ensures
        opts_loop_at(text, p) == Ok::<_, ParseFault>((seq![opt], q)),
        word_at(text, p),
{
    lemma_opt(text, p, m, q, opt);
    lemma_opts_end(text, p, opt, q);
}

/// The parser reads an option, the comma after it, and the rest of the list.
proof fn lemma_opts_more(
    text: Seq<char>,
    p: nat,
    m: nat,
    a: nat,
    b: nat,
    q: nat,
    opt: OptRegion,
    rest: Seq<OptRegion>,
)
    requires
        derives_opt(text, p, m, opt),
        derives_space(text, m, a),
        kind_at(text, a, TokenData::Comma),
        derives_space(text, a + 1, b),
        word_at(text, b),
        opts_loop_at(text, b) == Ok::<_, ParseFault>((rest, q)),
    ensures
        opts_loop_at(text, p) == Ok::<_, ParseFault>((seq![opt] + rest, q)),
        word_at(text, p),
{
    lemma_opt(text, p, m, a, opt);
    lemma_space(text, a + 1, b);
    lemma_opts_go_on(text, p, opt, a, b, rest, q);
}

/// The parts of a list of options: the end of the first option and, unless
/// it is the last, the comma after it and the start of the rest.
proof fn lemma_opts_parts(text: Seq<char>, p: nat, q: nat, opts: Seq<OptRegion>) -> (r: (
    nat,
    nat,
    nat,
))
    requires
        derives_opts(text, p, q, opts),
    ensures
        opts.len() > 0,
        p < r.0 <= q,
        derives_opt(text, p, r.0, opts[0]),
        (opts.len() == 1 && derives_space(text, r.0, q)) || {
            &&& derives_space(text, r.0, r.1)
            &&& kind_at(text, r.1, TokenData::Comma)
            &&& derives_space(text, r.1 + 1, r.2)
            &&& r.0 < r.2 <= q
            &&& derives_opts(text, r.2, q, opts.drop_first())
        },
{
    reveal(derives_opts);
    let m = choose|m: nat| #[trigger]
        derives_opt(text, p, m, opts[0]) && p < m <= q && ((opts.len() == 1 && derives_space(
            text,
            m,
            q,
        )) || exists|b: nat| #[trigger]
            derives_mark(text, TokenData::Comma, m, b) && m < b <= q && derives_opts(
                text,
                b,
                q,
                opts.drop_first(),
            ));
    if opts.len() == 1 && derives_space(text, m, q) {
        (m, m, m)
    } else {
        let b = choose|b: nat| #[trigger]
            derives_mark(text, TokenData::Comma, m, b) && m < b <= q && derives_opts(
                text,
                b,
                q,
                opts.drop_first(),
            );
        let a = choose|a: nat| #[trigger]
            derives_space(text, m, a) && kind_at(text, a, TokenData::Comma) && derives_space(
                text,
                a + 1,
                b,
            );
        (m, a, b)
    }
}

/// The parser reads a list of options up to the closing bracket.
proof fn lemma_opts(text: Seq<char>, p: nat, q: nat, opts: Seq<OptRegion>)
    requires
        derives_opts(text, p, q, opts),
        kind_at(text, q, TokenData::BracketR),
    ensures
        opts_loop_at(text, p) == Ok::<_, ParseFault>((opts, q)),
        word_at(text, p),
    decreases q - p,
{
    let (m, a, b) = lemma_opts_parts(text, p, q, opts);
    let first = opts[0];
    let rest = opts.drop_first();
    if opts.len() == 1 && derives_space(text, m, q) {
        assert(seq![first] =~= opts);
        lemma_opts_last(text, p, m, q, first);
    } else {
        assert(seq![first] + rest =~= opts);
        lemma_opts(text, b, q, rest);
        lemma_opts_more(text, p, m, a, b, q, first, rest);
    }
}

/// The parser reads options in brackets, or nothing where no bracket opens.
proof fn lemma_optional_opts(text: Seq<char>, p: nat, q: nat, opts: Seq<OptRegion>)
    requires
        derives_optional_opts(text, p, q, opts),
        outcome(text, q) matches Ok(span) && !(span.kind is BracketL),
    ensures
        optional_opts_at(text, p) == Ok::<_, ParseFault>((opts, q)),
{
    if q == p && opts.len() == 0 {
        assert(opts =~= Seq::<OptRegion>::empty());
    } else {
        let (a, b) = choose|a: nat, b: nat|
            #![trigger derives_opts(text, a, b, opts)]
            derives_space(text, p + 1, a) && derives_opts(text, a, b, opts) && kind_at(
                text,
                b,
                TokenData::BracketR,
            ) && q == b + 1;
        lemma_opts(text, a, b, opts);
        lemma_space(text, p + 1, a);
        lemma_space(text, a, a);
    }
}

/// Every text whose tokens spell a document class declaration parses, and
/// the parser yields the tree of that declaration: if the tokens from index
/// `p` up to `q` are the declaration of `class`, the parser stops at `q` and
/// yields `class`, with its name and with one option for each option of the
/// text, in order.
pub proof fn lemma_document_class_parses(text: Seq<char>, p: nat, q: nat, class: ClassRegion)
    requires
        derives_document_class(text, p, q, class),
    ensures
        document_class_at(text, p) == Ok::<_, ParseFault>((class, q)),
        root_at(text, p) == Ok::<RootView, ErrorView>(class.root(text)),
{
    let at = choose|at: ClassMarks| #[trigger]
        spells_document_class(text, p, at, class) && q == at.close + 1;
    lemma_space(text, p, at.word);
    lemma_optional_opts(text, at.word + 1, at.after_opts, class.opts);
    lemma_space(text, at.after_opts, at.open);
    lemma_space(text, at.open + 1, at.name);
    lemma_ident(text, at.name, at.after_name, at.close);
    let found = document_class_at(text, p)->Ok_0.0;
    assert(found.name == class.name);
    assert(found.opts == class.opts);
}

/// True when the region of `text` is made of words and whitespace, and
/// begins and ends with a word.
pub open spec fn is_phrase(text: Seq<char>, region: Region) -> bool {
    &&& region.lo < region.hi <= text.len()
    &&& is_words(text.subrange(region.lo as int, region.hi as int))
    &&& is_ident_char(text[region.lo as int])
    &&& is_ident_char(text[region.hi - 1])
}

/// What the parser reads after a word, up to the end of the identifier, is
/// made of words and whitespace and ends with a word.
proof fn lemma_ident_end_phrase(text: Seq<char>, lo: nat, p: nat)
    requires
        p > 0,
        word_at(text, (p - 1) as nat),
        lo <= outcome(text, (p - 1) as nat)->Ok_0.lo,
        forall|i: int|
            lo <= i < outcome(text, (p - 1) as nat)->Ok_0.hi ==> is_ident_char(#[trigger] text[i])
                || is_space(text[i]),
        is_ident_char(text[lo as int]),
    ensures
        ident_end_at(text, p) matches Ok((end, q)) ==> {
            &&& lo < end <= text.len()
            &&& forall|i: int| lo <= i < end ==> is_ident_char(#[trigger] text[i]) || is_space(text[i])
            &&& is_ident_char(text[end - 1])
        },
    decreases tokens_left(text, p),
{
    let before = outcome(text, (p - 1) as nat)->Ok_0;
    lemma_tokens_shaped(text, (p - 1) as nat);
    lemma_tokens_tile(text, (p - 1) as nat);
    assert(before.slice(text)[before.hi - before.lo - 1] == text[before.hi - 1]);
    match token_at(text, p) {
        Err(fault) => {},
        Ok(span) => {
            lemma_index_bound(text, p);
            lemma_tokens_shaped(text, p);
            if is_ident(text, span) {
                assert forall|i: int| lo <= i < span.hi implies is_ident_char(#[trigger] text[i])
                    || is_space(text[i]) by {
                    if i >= span.lo {
                        assert(span.slice(text)[i - span.lo] == text[i]);
                    }
                }
                lemma_ident_end_phrase(text, lo, p + 1);
            } else if span.kind is Whitespace {
                match token_at(text, p + 1) {
                    Err(fault) => {},
                    Ok(after) => {
                        if is_ident(text, after) {
                            lemma_tokens_shaped(text, p + 1);
                            lemma_tokens_tile(text, p);
                            assert forall|i: int| lo <= i < after.hi implies is_ident_char(
                                #[trigger] text[i],
                            ) || is_space(text[i]) by {
                                if i >= after.lo {
                                    assert(after.slice(text)[i - after.lo] == text[i]);
                                }
                            }
                            lemma_ident_end_phrase(text, lo, p + 2);
                        }
                    },
                }
            }
        },
    }
}

/// An identifier that the parser yields is a phrase: words with whitespace
/// between them.
pub proof fn lemma_ident_is_phrase(text: Seq<char>, p: nat)
    ensures
        ident_at(text, p) matches Ok((region, q)) ==> is_phrase(text, region),
{
    match ident_at(text, p) {
        Ok((region, q)) => {
            let first = outcome(text, p)->Ok_0;
            lemma_tokens_shaped(text, p);
            assert(first.slice(text)[0] == text[first.lo as int]);
            assert forall|i: int| first.lo <= i < first.hi implies is_ident_char(#[trigger] text[i])
                || is_space(text[i]) by {
                assert(first.slice(text)[i - first.lo] == text[i]);
            }
            lemma_ident_end_phrase(text, first.lo, p + 1);
            let part = text.subrange(region.lo as int, region.hi as int);
            assert forall|i: int| 0 <= i < part.len() implies is_ident_char(#[trigger] part[i])
                || is_space(part[i]) by {
                assert(part[i] == text[region.lo + i]);
            }
        },
        Err(fault) => {},
    }
}

/// The key of every option that the parser yields is a phrase.
proof fn lemma_opts_are_phrases(text: Seq<char>, p: nat)
    ensures
        opts_loop_at(text, p) matches Ok((opts, q)) ==> forall|i: int|
            0 <= i < opts.len() ==> is_phrase(text, (#[trigger] opts[i]).key),
    decreases tokens_left(text, p),
{
    match opts_loop_at(text, p) {
        Ok((opts, q)) => {
            let span = token_at(text, p)->Ok_0;
            if !(span.kind is BracketR) {
                lemma_ident_is_phrase(text, p);
                lemma_opt_advances(text, p);
                let (opt, q1) = opt_at(text, p)->Ok_0;
                let q2 = skip_whitespace_at(text, q1)->Ok_0;
                let next = token_at(text, q2)->Ok_0;
                if next.kind is Comma {
                    let q3 = skip_whitespace_at(text, q2 + 1)->Ok_0;
                    lemma_opts_are_phrases(text, q3);
                    let (rest, r) = opts_loop_at(text, q3)->Ok_0;
                    assert forall|i: int| 0 <= i < opts.len() implies is_phrase(
                        text,
                        (#[trigger] opts[i]).key,
                    ) by {
                        if i > 0 {
                            assert(opts[i] == rest[i - 1]);
                        }
                    }
                }
            }
        },
        Err(fault) => {},
    }
}

/// The name of the class and the key of every option of a tree that the
/// parser yields are phrases, and lexing any of them again yields its words
/// and the whitespace between them, and nothing else.
pub proof fn lemma_names_lex_to_words(text: Seq<char>, p: nat)
    ensures
        document_class_at(text, p) matches Ok((class, q)) ==> {
            &&& is_phrase(text, class.name)
            &&& lexes_to_words(class.name.ident(text).text)
            &&& forall|i: int|
                0 <= i < class.opts.len() ==> is_phrase(text, (#[trigger] class.opts[i]).key)
                    && lexes_to_words(class.opts[i].key.ident(text).text)
        },
{
    match document_class_at(text, p) {
        Ok((class, q)) => {
            let q1 = skip_whitespace_at(text, p)->Ok_0;
            let (opts, q2) = optional_opts_at(text, q1 + 1)->Ok_0;
            let q3 = skip_whitespace_at(text, q2)->Ok_0;
            let q4 = skip_whitespace_at(text, q3 + 1)->Ok_0;
            lemma_ident_is_phrase(text, q4);
            lemma_words_lex_to_words(class.name.ident(text).text);
            match optional_at(text, q1 + 1)->Ok_0.0 {
                Some(list) => {
                    let q5 = skip_whitespace_at(text, q1 + 2)->Ok_0;
                    let q6 = skip_whitespace_at(text, q5)->Ok_0;
                    lemma_opts_are_phrases(text, q6);
                },
                None => {},
            }
            assert forall|i: int| 0 <= i < class.opts.len() implies is_phrase(
                text,
                (#[trigger] class.opts[i]).key,
            ) && lexes_to_words(class.opts[i].key.ident(text).text) by {
                lemma_words_lex_to_words(class.opts[i].key.ident(text).text);
            }
        },
        Err(fault) => {},
    }
}

/// True when a failure, if `parsed` is one, is met within the text or at its
/// end.
pub open spec fn fails_in_text<T>(text: Seq<char>, parsed: Result<T, ParseFault>) -> bool {
    parsed matches Err(fault) ==> fault.at <= text.len()
}

/// Every token starts, and every failure of the lexer is met, within the
/// text or at its end.
proof fn lemma_tokens_in_text(text: Seq<char>)
    ensures
        forall|p: nat| fails_in_text(text, #[trigger] token_at(text, p)),
        forall|p: nat| #[trigger] token_at(text, p) matches Ok(span) ==> span.lo <= text.len(),
        forall|p: nat| fails_in_text(text, #[trigger] skip_whitespace_at(text, p)),
{
    assert forall|p: nat| fails_in_text(text, #[trigger] token_at(text, p)) && (token_at(
        text,
        p,
    ) matches Ok(span) ==> span.lo <= text.len()) by {
        lemma_tokens_shaped(text, p);
    }
    assert forall|p: nat| fails_in_text(text, #[trigger] skip_whitespace_at(text, p)) by {
        lemma_tokens_shaped(text, p);
    }
}

/// Identifiers and options fail within the text or at its end.
proof fn lemma_ident_fails_in_text(text: Seq<char>, p: nat)
    ensures
        fails_in_text(text, ident_end_at(text, p)),
        fails_in_text(text, ident_at(text, p)),
        fails_in_text(text, opt_at(text, p)),
    decreases tokens_left(text, p), 1nat,
{
    lemma_tokens_in_text(text);
    lemma_ident_end_fails_in_text(text, p);
    lemma_ident_end_fails_in_text(text, p + 1);
}

/// The rest of an identifier fails within the text or at its end.
proof fn lemma_ident_end_fails_in_text(text: Seq<char>, p: nat)
    ensures
        fails_in_text(text, ident_end_at(text, p)),
    decreases tokens_left(text, p), 0nat,
{
    lemma_tokens_in_text(text);
    match token_at(text, p) {
        Err(fault) => {},
        Ok(span) => {
            lemma_index_bound(text, p);
            if is_ident(text, span) {
                lemma_ident_end_fails_in_text(text, p + 1);
            } else if span.kind is Whitespace {
                match token_at(text, p + 1) {
                    Err(fault) => {},
                    Ok(after) => {
                        if is_ident(text, after) {
                            lemma_ident_end_fails_in_text(text, p + 2);
                        }
                    },
                }
            }
        },
    }
}

/// Lists of options fail within the text or at its end.
proof fn lemma_opts_fail_in_text(text: Seq<char>, p: nat)
    ensures
        fails_in_text(text, opts_loop_at(text, p)),
    decreases tokens_left(text, p),
{
    lemma_tokens_in_text(text);
    lemma_ident_fails_in_text(text, p);
    match opt_at(text, p) {
        Ok((opt, q1)) => {
            lemma_opt_advances(text, p);
            match skip_whitespace_at(text, q1) {
                Ok(q2) => match skip_whitespace_at(text, q2 + 1) {
                    Ok(q3) => {
                        lemma_opts_fail_in_text(text, q3);
                    },
                    Err(fault) => {},
                },
                Err(fault) => {},
            }
        },
        Err(fault) => {},
    }
}

/// Options in brackets fail within the text or at its end.
proof fn lemma_optional_fails_in_text(text: Seq<char>, p: nat)
    ensures
        fails_in_text(text, optional_at(text, p)),
        fails_in_text(text, optional_opts_at(text, p)),
{
    lemma_tokens_in_text(text);
    match skip_whitespace_at(text, p + 1) {
        Ok(q1) => match skip_whitespace_at(text, q1) {
            Ok(q2) => {
                lemma_opts_fail_in_text(text, q2);
            },
            Err(fault) => {},
        },
        Err(fault) => {},
    }
}

/// An identifier in braces fails within the text or at its end.
proof fn lemma_group_fails_in_text(text: Seq<char>, p: nat)
    ensures
        fails_in_text(text, group_at(text, p)),
{
    lemma_tokens_in_text(text);
    match skip_whitespace_at(text, p + 1) {
        Ok(q1) => {
            lemma_ident_fails_in_text(text, q1);
        },
        Err(fault) => {},
    }
}

/// Every failure of the parser is met within the text or at its end, so the
/// location that the failure carries is a location of the text.
pub proof fn lemma_failure_in_text(text: Seq<char>, p: nat)
    ensures
        fails_in_text(text, document_class_at(text, p)),
{
    lemma_tokens_in_text(text);
    match skip_whitespace_at(text, p) {
        Ok(q1) => {
            lemma_optional_fails_in_text(text, q1 + 1);
            match optional_opts_at(text, q1 + 1) {
                Ok((opts, q2)) => match skip_whitespace_at(text, q2) {
                    Ok(q3) => {
                        lemma_group_fails_in_text(text, q3);
                    },
                    Err(fault) => {},
                },
                Err(fault) => {},
            }
        },
        Err(fault) => {},
    }
}

} // verus!
