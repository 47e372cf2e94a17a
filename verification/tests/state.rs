use linttex::lexer::{ErrorData, State};
use linttex::syntax::token::TokenData;

#[test]
fn start_dispatches_on_the_character() {
    let start = State::Start;
    assert_eq!(start.transition(None), (State::Eof, Ok(None)));
    assert_eq!(start.transition(Some('\\')), (State::MacroStart, Ok(None)));
    assert_eq!(start.transition(Some('$')), (State::DollarSingle, Ok(None)));
    assert_eq!(start.transition(Some('%')), (State::Comment, Ok(None)));
    assert_eq!(start.transition(Some('{')), (State::Literal(TokenData::BraceL), Ok(None)));
    assert_eq!(start.transition(Some('}')), (State::Literal(TokenData::BraceR), Ok(None)));
    assert_eq!(start.transition(Some(',')), (State::Literal(TokenData::Comma), Ok(None)));
    assert_eq!(start.transition(Some('[')), (State::Literal(TokenData::BracketL), Ok(None)));
    assert_eq!(start.transition(Some(']')), (State::Literal(TokenData::BracketR), Ok(None)));
    assert_eq!(start.transition(Some('=')), (State::Literal(TokenData::Equal), Ok(None)));
    assert_eq!(start.transition(Some('.')), (State::Plain, Ok(None)));
    assert_eq!(start.transition(Some('a')), (State::Plain, Ok(None)));
    assert_eq!(start.transition(Some('7')), (State::Plain, Ok(None)));
    assert_eq!(start.transition(Some('\n')), (State::Whitespace { newlines: 1 }, Ok(None)));
    assert_eq!(start.transition(Some(' ')), (State::Whitespace { newlines: 0 }, Ok(None)));
    assert_eq!(start.transition(Some('\t')), (State::Whitespace { newlines: 0 }, Ok(None)));
    assert_eq!(start.transition(Some('\r')), (State::Whitespace { newlines: 0 }, Ok(None)));
    assert_eq!(start.transition(Some('\x0C')), (State::Whitespace { newlines: 0 }, Ok(None)));
    assert_eq!(start.transition(Some('#')), (State::Fail, Err(ErrorData::UnrecognizedChar)));
    assert_eq!(start.transition(Some('|')), (State::Fail, Err(ErrorData::UnrecognizedChar)));
    assert_eq!(start.transition(Some('é')), (State::Fail, Err(ErrorData::UnrecognizedChar)));
    assert_eq!(start.transition(Some('\x0B')), (State::Fail, Err(ErrorData::UnrecognizedChar)));
}

#[test]
fn whitespace_counts_line_feeds_and_ends_with_the_flag() {
    let one = State::Whitespace { newlines: 1 };
    assert_eq!(one.transition(Some('\n')), (State::Whitespace { newlines: 2 }, Ok(None)));
    assert_eq!(one.transition(Some(' ')), (State::Whitespace { newlines: 1 }, Ok(None)));
    assert_eq!(
        one.transition(Some('a')),
        (State::Plain, Ok(Some(TokenData::Whitespace { par: false })))
    );
    assert_eq!(one.transition(None), (State::Eof, Ok(Some(TokenData::Whitespace { par: false }))));
    let two = State::Whitespace { newlines: 2 };
    assert_eq!(
        two.transition(Some('{')),
        (State::Literal(TokenData::BraceL), Ok(Some(TokenData::Whitespace { par: true })))
    );
    assert_eq!(two.transition(Some('#')), (State::Fail, Err(ErrorData::UnrecognizedChar)));
}

#[test]
fn whitespace_count_stops_at_the_largest_number() {
    let full = State::Whitespace { newlines: usize::MAX };
    assert_eq!(
        full.transition(Some('\n')),
        (State::Whitespace { newlines: usize::MAX }, Ok(None))
    );
    assert_eq!(
        full.transition(None),
        (State::Eof, Ok(Some(TokenData::Whitespace { par: true })))
    );
}

#[test]
fn plain_goes_on_with_plain_characters() {
    let plain = State::Plain;
    assert_eq!(plain.transition(Some('a')), (State::Plain, Ok(None)));
    assert_eq!(plain.transition(Some('@')), (State::Plain, Ok(None)));
    assert_eq!(plain.transition(Some(' ')), (
        State::Whitespace { newlines: 0 },
        Ok(Some(TokenData::Plain)),
    ));
    assert_eq!(plain.transition(Some('\\')), (State::MacroStart, Ok(Some(TokenData::Plain))));
    assert_eq!(plain.transition(None), (State::Eof, Ok(Some(TokenData::Plain))));
}

#[test]
fn comment_ends_at_line_feed_or_end_of_input() {
    let comment = State::Comment;
    assert_eq!(comment.transition(None), (State::Eof, Ok(Some(TokenData::Comment))));
    assert_eq!(comment.transition(Some('\n')), (State::Start, Ok(Some(TokenData::Comment))));
    assert_eq!(comment.transition(Some('é')), (State::Comment, Ok(None)));
    assert_eq!(comment.transition(Some('%')), (State::Comment, Ok(None)));
}

#[test]
fn dollars_promote_and_fail_on_the_third() {
    assert_eq!(State::DollarSingle.transition(Some('$')), (State::DollarDouble, Ok(None)));
    assert_eq!(
        State::DollarSingle.transition(Some('x')),
        (State::Plain, Ok(Some(TokenData::DollarSingle)))
    );
    assert_eq!(
        State::DollarDouble.transition(Some('$')),
        (State::Fail, Err(ErrorData::TripleDollar))
    );
    assert_eq!(
        State::DollarDouble.transition(None),
        (State::Eof, Ok(Some(TokenData::DollarDouble)))
    );
}

#[test]
fn backslash_needs_a_letter_or_a_special_character() {
    let start = State::MacroStart;
    assert_eq!(start.transition(None), (State::Fail, Err(ErrorData::UnexpectedEof)));
    assert_eq!(start.transition(Some('a')), (State::MacroNormal, Ok(None)));
    assert_eq!(start.transition(Some('Z')), (State::MacroNormal, Ok(None)));
    assert_eq!(start.transition(Some('%')), (State::MacroSpecial, Ok(None)));
    assert_eq!(start.transition(Some('\\')), (State::MacroSpecial, Ok(None)));
    assert_eq!(start.transition(Some('1')), (State::Fail, Err(ErrorData::UnrecognizedMacroChar)));
    assert_eq!(start.transition(Some(' ')), (State::Fail, Err(ErrorData::UnrecognizedMacroChar)));
    assert_eq!(start.transition(Some('=')), (State::Fail, Err(ErrorData::UnrecognizedMacroChar)));
}

#[test]
fn control_word_ends_at_whitespace_and_the_machine_returns_to_start() {
    let word = State::MacroNormal;
    assert_eq!(word.transition(Some('a')), (State::MacroNormal, Ok(None)));
    assert_eq!(word.transition(Some('Z')), (State::MacroNormal, Ok(None)));
    for c in [' ', '\t', '\n', '\x0C', '\r'] {
        assert_eq!(word.transition(Some(c)), (State::Start, Ok(Some(TokenData::MacroNormal))));
    }
    assert_eq!(word.transition(Some('1')), (State::Plain, Ok(Some(TokenData::MacroNormal))));
    assert_eq!(
        word.transition(Some('{')),
        (State::Literal(TokenData::BraceL), Ok(Some(TokenData::MacroNormal)))
    );
    assert_eq!(word.transition(Some('\\')), (State::MacroStart, Ok(Some(TokenData::MacroNormal))));
    assert_eq!(word.transition(Some('#')), (State::Fail, Err(ErrorData::UnrecognizedChar)));
    assert_eq!(word.transition(None), (State::Eof, Ok(Some(TokenData::MacroNormal))));
}

#[test]
fn one_character_states_emit_on_any_input() {
    assert_eq!(
        State::Literal(TokenData::Comma).transition(Some(',')),
        (State::Literal(TokenData::Comma), Ok(Some(TokenData::Comma)))
    );
    assert_eq!(
        State::Literal(TokenData::Equal).transition(None),
        (State::Eof, Ok(Some(TokenData::Equal)))
    );
    assert_eq!(
        State::MacroSpecial.transition(Some('a')),
        (State::Plain, Ok(Some(TokenData::MacroSpecial)))
    );
}

#[test]
fn end_states_are_final() {
    assert_eq!(State::Eof.transition(None), (State::Exit, Ok(Some(TokenData::Eof))));
    for c in [None, Some('a'), Some('\n')] {
        assert_eq!(State::Exit.transition(c), (State::Exit, Err(ErrorData::Exited)));
        assert_eq!(State::Fail.transition(c), (State::Fail, Err(ErrorData::Failed)));
    }
}
