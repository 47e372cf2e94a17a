use linttex::source::Location;
use linttex::syntax::class::{
    alphanumeric, digit, ident_char, letter, plain, plain_punctuation, space, special,
};
use linttex::syntax::token::{all_ident_chars, Token, TokenData};

fn token(kind: TokenData, text: &str) -> Token<'_> {
    Token::new(kind, text, Location::start())
}

#[test]
fn token_keeps_what_it_was_made_of() {
    let mut loc = Location::start();
    loc.step('\n');
    loc.step('x');
    let token = Token::new(TokenData::Plain, "abc", loc);
    assert_eq!(token.data(), TokenData::Plain);
    assert_eq!(token.src(), "abc");
    assert_eq!(token.loc().pos(), 2);
    assert_eq!(token.loc().row(), 1);
    assert_eq!(token.loc().col(), 1);
}

#[test]
fn whitespace_like_is_whitespace_with_or_without_break() {
    assert!(token(TokenData::Whitespace { par: false }, " ").is_whitespace_like());
    assert!(token(TokenData::Whitespace { par: true }, "\n\n").is_whitespace_like());
    assert!(!token(TokenData::Plain, "a").is_whitespace_like());
    assert!(!token(TokenData::Comment, "%").is_whitespace_like());
    assert!(!token(TokenData::Eof, "").is_whitespace_like());
}

#[test]
fn macro_name_drops_the_backslash() {
    assert_eq!(token(TokenData::MacroNormal, "\\documentclass").macro_name(), Some("documentclass"));
    assert_eq!(token(TokenData::MacroSpecial, "\\{").macro_name(), Some("{"));
    assert_eq!(token(TokenData::MacroSpecial, "\\\\").macro_name(), Some("\\"));
    assert_eq!(token(TokenData::Plain, "\\x").macro_name(), None);
    assert_eq!(token(TokenData::Eof, "").macro_name(), None);
}

#[test]
fn plain_gives_the_text_of_plain_tokens_only() {
    assert_eq!(token(TokenData::Plain, "a(b)").plain(), Some("a(b)"));
    assert_eq!(token(TokenData::MacroNormal, "\\a").plain(), None);
    assert_eq!(token(TokenData::Whitespace { par: false }, " ").plain(), None);
}

#[test]
fn ident_is_a_plain_token_of_identifier_characters() {
    assert!(token(TokenData::Plain, "a4paper").is_ident());
    assert!(token(TokenData::Plain, "a-b_c'd.e/f").is_ident());
    assert!(token(TokenData::Plain, "12pt").is_ident());
    assert!(token(TokenData::Plain, "").is_ident());
    assert!(!token(TokenData::Plain, "a(b)").is_ident());
    assert!(!token(TokenData::Plain, "a b").is_ident());
    assert!(!token(TokenData::Plain, "a:b").is_ident());
    assert!(!token(TokenData::MacroNormal, "article").is_ident());
    assert!(!token(TokenData::Comment, "article").is_ident());
}

#[test]
fn all_ident_chars_checks_every_character() {
    assert!(all_ident_chars(""));
    assert!(all_ident_chars("abcXYZ019-_'./"));
    assert!(!all_ident_chars("abc!"));
    assert!(!all_ident_chars("é"));
    assert!(!all_ident_chars("!abc"));
}

#[test]
fn character_classes() {
    for c in (0u32..0x250).filter_map(char::from_u32) {
        assert_eq!(space(c), c.is_ascii_whitespace());
        assert_eq!(letter(c), c.is_ascii_alphabetic());
        assert_eq!(digit(c), c.is_ascii_digit());
        assert_eq!(alphanumeric(c), c.is_ascii_alphanumeric());
        assert_eq!(plain_punctuation(c), "./():;&-+_*`'^\"<>!?~@".contains(c));
        assert_eq!(plain(c), c.is_ascii_alphanumeric() || "./():;&-+_*`'^\"<>!?~@".contains(c));
        assert_eq!(special(c), "!,:;%&{}()\\[]$".contains(c));
        assert_eq!(ident_char(c), c.is_ascii_alphanumeric() || "-_'./".contains(c));
    }
}
