//! Tokens and their kinds.

use crate::source::location::{utf8_width, Location, Place};
use crate::source::text::{lemma_encode_injective, lemma_width_is_encoded_len, Chars};
use crate::syntax::class::{ident_char, is_ident_char};
use vstd::prelude::*;
use vstd::string::StringSliceAdditionalSpecFns;
use vstd::utf8::{
    encode_utf8, encode_utf8_first_scalar, encode_utf8_valid_utf8, is_char_boundary,
    pop_first_scalar,
};

verus! {

/// The kinds of token.
#[derive(Debug, Copy, Clone, PartialEq, Eq, Structural)]
pub enum TokenData {
    /// End of input.
    Eof,
    /// `{`
    BraceL,
    /// `}`
    BraceR,
    /// `[`
    BracketL,
    /// `]`
    BracketR,
    /// `=`
    Equal,
    /// `,`
    Comma,
    /// A run of plain characters.
    Plain,
    /// A backslash followed by letters.
    MacroNormal,
    /// A backslash followed by one special character.
    MacroSpecial,
    /// A run of whitespace; `par` tells whether it holds a blank line.
    Whitespace { par: bool },
    /// `$`
    DollarSingle,
    /// `$$`
    DollarDouble,
    /// `%` up to the end of the line.
    Comment,
}

/// The mathematical value of a [`Token`].
pub struct TokenView {
    pub kind: TokenData,
    pub text: Seq<char>,
    pub loc: Place,
}

/// True when every character of `text` may occur in an identifier.
pub open spec fn is_ident_text(text: Seq<char>) -> bool {
    forall|i: int| 0 <= i < text.len() ==> is_ident_char(#[trigger] text[i])
}

impl TokenView {
    pub open spec fn is_whitespace_like(self) -> bool {
        self.kind is Whitespace
    }

    pub open spec fn is_macro(self) -> bool {
        self.kind is MacroNormal || self.kind is MacroSpecial
    }

    pub open spec fn is_ident(self) -> bool {
        self.kind is Plain && is_ident_text(self.text)
    }
}

/// A token: its kind, the piece of source text it covers and where that
/// piece starts.
#[derive(Debug, Copy, Clone)]
pub struct Token<'src> {
    src: &'src str,
    loc: Location,
    data: TokenData,
}

impl<'src> View for Token<'src> {
    type V = TokenView;

    closed spec fn view(&self) -> TokenView {
        TokenView { kind: self.data, text: self.src@, loc: self.loc@ }
    }
}

impl<'src> Token<'src> {
    pub fn new(data: TokenData, src: &'src str, loc: Location) -> (token: Token<'src>)
        ensures
            token@ == (TokenView { kind: data, text: src@, loc: loc@ }),
    {
        Token { src, data, loc }
    }

    pub fn data(&self) -> (data: TokenData)
        ensures
            data == self@.kind,
    {
        self.data
    }

    pub fn loc(&self) -> (loc: Location)
        ensures
            loc@ == self@.loc,
    {
        self.loc
    }

    /// The text that the token covers.
    pub fn src(&self) -> (src: &'src str)
        ensures
            src@ == self@.text,
    {
        self.src
    }

    pub fn is_whitespace_like(&self) -> (r: bool)
        ensures
            r == self@.is_whitespace_like(),
    {
        match self.data {
            TokenData::Whitespace { .. } => true,
            _ => false,
        }
    }

    /// The name of a control sequence: its text without the leading
    /// backslash. `None` for every other kind of token.
    pub fn macro_name(&self) -> (name: Option<&'src str>)
        requires
            self@.is_macro() ==> self@.text.len() > 0 && utf8_width(self@.text[0]) == 1,
        ensures
            self@.is_macro() ==> name.is_some() && name.unwrap()@ == self@.text.drop_first(),
            !self@.is_macro() ==> name.is_none(),
    {
        match self.data {
            TokenData::MacroNormal | TokenData::MacroSpecial => {
                proof {
                    let bytes = self.src.spec_bytes();
                    lemma_width_is_encoded_len(self.src@[0]);
                    encode_utf8_first_scalar(self.src@);
                    encode_utf8_valid_utf8(self.src@);
                    assert(is_char_boundary(pop_first_scalar(bytes), 0));
                    assert(is_char_boundary(bytes, 1));
                }
                let (_, name) = self.src.split_at(1);
                proof {
                    assert(name.spec_bytes() =~= encode_utf8(self.src@.drop_first()));
                    lemma_encode_injective(name@, self.src@.drop_first());
                }
                Some(name)
            },
            _ => None,
        }
    }

    /// The text of a plain token, `None` for every other kind.
    pub fn plain(&self) -> (text: Option<&'src str>)
        ensures
            self@.kind is Plain ==> text.is_some() && text.unwrap()@ == self@.text,
            !(self@.kind is Plain) ==> text.is_none(),
    {
        match self.data {
            TokenData::Plain => Some(self.src),
            _ => None,
        }
    }

    /// True for a plain token made of identifier characters only.
    pub fn is_ident(&self) -> (r: bool)
        ensures
            r == self@.is_ident(),
    {
        match self.data {
            TokenData::Plain => all_ident_chars(self.src),
            _ => false,
        }
    }
}

/// True when every character of `text` may occur in an identifier.
pub fn all_ident_chars(text: &str) -> (r: bool)
    ensures
        r == is_ident_text(text@),
{
    let mut chars = Chars::new(text);
    let ghost mut n: int = 0;
    loop
        invariant
            0 <= n <= text@.len(),
            chars@ == text@.skip(n),
            forall|i: int| 0 <= i < n ==> is_ident_char(#[trigger] text@[i]),
        decreases chars@.len(),
    {
        match chars.next() {
            None => {
                return true;
            },
            Some(c) => {
                assert(text@[n] == c);
                if !ident_char(c) {
                    return false;
                }
                proof {
                    assert(text@.skip(n).drop_first() == text@.skip(n + 1));
                    n = n + 1;
                }
            },
        }
    }
}

} // verus!
