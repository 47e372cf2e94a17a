//! The classes of characters that the lexer and the parser tell apart.

use vstd::prelude::*;

verus! {

/// ASCII whitespace: space, tab, line feed, form feed, carriage return.
pub open spec fn is_space(c: char) -> bool {
    c == ' ' || c == '\t' || c == '\n' || c == '\x0C' || c == '\r'
}

/// ASCII letters.
pub open spec fn is_letter(c: char) -> bool {
    ('a' <= c && c <= 'z') || ('A' <= c && c <= 'Z')
}

/// ASCII decimal digits.
pub open spec fn is_digit(c: char) -> bool {
    '0' <= c && c <= '9'
}

/// ASCII letters and digits.
pub open spec fn is_alphanumeric(c: char) -> bool {
    is_letter(c) || is_digit(c)
}

/// Punctuation that may occur in plain text.
pub open spec fn is_plain_punctuation(c: char) -> bool {
    c == '.' || c == '/' || c == '(' || c == ')' || c == ':' || c == ';' || c == '&' || c == '-'
        || c == '+' || c == '_' || c == '*' || c == '`' || c == '\'' || c == '^' || c == '"'
        || c == '<' || c == '>' || c == '!' || c == '?' || c == '~' || c == '@'
}

/// Characters that make up plain text: letters, digits and plain punctuation.
pub open spec fn is_plain(c: char) -> bool {
    is_alphanumeric(c) || is_plain_punctuation(c)
}

/// Characters that may follow a backslash to form a one-character control
/// symbol.
pub open spec fn is_special(c: char) -> bool {
    c == '!' || c == ',' || c == ':' || c == ';' || c == '%' || c == '&' || c == '{' || c == '}'
        || c == '(' || c == ')' || c == '\\' || c == '[' || c == ']' || c == '$'
}

/// Characters that may occur in an identifier: letters, digits and `- _ ' . /`.
pub open spec fn is_ident_char(c: char) -> bool {
    is_alphanumeric(c) || c == '-' || c == '_' || c == '\'' || c == '.' || c == '/'
}

/// Every identifier character is a plain character, and no whitespace
/// character is.
pub proof fn lemma_ident_char_is_plain_or_not(c: char)
    ensures
        is_ident_char(c) ==> is_plain(c),
        is_space(c) ==> !is_plain(c),
{
}

pub fn space(c: char) -> (r: bool)
    ensures
        r == is_space(c),
{
    c == ' ' || c == '\t' || c == '\n' || c == '\x0C' || c == '\r'
}

pub fn letter(c: char) -> (r: bool)
    ensures
        r == is_letter(c),
{
    ('a' <= c && c <= 'z') || ('A' <= c && c <= 'Z')
}

pub fn digit(c: char) -> (r: bool)
    ensures
        r == is_digit(c),
{
    '0' <= c && c <= '9'
}

pub fn alphanumeric(c: char) -> (r: bool)
    ensures
        r == is_alphanumeric(c),
{
    letter(c) || digit(c)
}

pub fn plain_punctuation(c: char) -> (r: bool)
    ensures
        r == is_plain_punctuation(c),
{
    match c {
        '.' | '/' | '(' | ')' | ':' | ';' | '&' | '-' | '+' | '_' | '*' | '`' | '\'' | '^' | '"'
        | '<' | '>' | '!' | '?' | '~' | '@' => true,
        _ => false,
    }
}

pub fn plain(c: char) -> (r: bool)
    ensures
        r == is_plain(c),
{
    alphanumeric(c) || plain_punctuation(c)
}

pub fn special(c: char) -> (r: bool)
    ensures
        r == is_special(c),
{
    match c {
        '!' | ',' | ':' | ';' | '%' | '&' | '{' | '}' | '(' | ')' | '\\' | '[' | ']' | '$' => true,
        _ => false,
    }
}

pub fn ident_char(c: char) -> (r: bool)
    ensures
        r == is_ident_char(c),
{
    match c {
        '-' | '_' | '\'' | '.' | '/' => true,
        _ => alphanumeric(c),
    }
}

} // verus!
