use linttex::lexer::{ErrorData, Lexer};
use linttex::source::Source;
use linttex::syntax::token::TokenData;

type Lexeme = (TokenData, String, usize, usize, usize);
type Failure = (ErrorData, usize, usize, usize);

fn lex_all(text: &str) -> (Vec<Lexeme>, Option<Failure>) {
    let source = Source::new(text);
    let mut lexer = Lexer::new(&source);
    let mut tokens = Vec::new();
    loop {
        match lexer.next() {
            Ok(token) => {
                let loc = token.loc();
                tokens.push((
                    token.data(),
                    token.src().to_string(),
                    loc.pos(),
                    loc.row(),
                    loc.col(),
                ));
                if token.data() == TokenData::Eof {
                    return (tokens, None);
                }
            }
            Err(error) => {
                let loc = error.loc();
                return (tokens, Some((error.data(), loc.pos(), loc.row(), loc.col())));
            }
        }
    }
}

fn kinds(text: &str) -> Vec<(TokenData, String)> {
    let (tokens, error) = lex_all(text);
    assert_eq!(error, None);
    tokens.into_iter().map(|(kind, slice, _, _, _)| (kind, slice)).collect()
}

fn lexeme(kind: TokenData, slice: &str) -> (TokenData, String) {
    (kind, slice.to_string())
}

#[test]
fn triple_dollar_fails_at_third_dollar() {
    let (tokens, error) = lex_all("$$$");
    assert!(tokens.is_empty());
    assert_eq!(error, Some((ErrorData::TripleDollar, 2, 0, 2)));
}

#[test]
fn backslash_at_end_of_input_fails() {
    let (tokens, error) = lex_all("\\");
    assert!(tokens.is_empty());
    assert_eq!(error, Some((ErrorData::UnexpectedEof, 1, 0, 1)));
}

#[test]
fn whitespace_after_control_word_is_dropped() {
    let (tokens, error) = lex_all("\\foo  bar");
    assert_eq!(error, None);
    assert_eq!(
        tokens,
        vec![
            (TokenData::MacroNormal, "\\foo".to_string(), 0, 0, 0),
            (TokenData::Plain, "bar".to_string(), 6, 0, 6),
            (TokenData::Eof, "".to_string(), 9, 0, 9),
        ]
    );
}

#[test]
fn blank_line_is_a_paragraph_break() {
    let (tokens, error) = lex_all("a\n\nb");
    assert_eq!(error, None);
    assert_eq!(
        tokens,
        vec![
            (TokenData::Plain, "a".to_string(), 0, 0, 0),
            (TokenData::Whitespace { par: true }, "\n\n".to_string(), 1, 0, 1),
            (TokenData::Plain, "b".to_string(), 3, 2, 0),
            (TokenData::Eof, "".to_string(), 4, 2, 1),
        ]
    );
}

#[test]
fn empty_text_is_only_the_end_marker() {
    let (tokens, error) = lex_all("");
    assert_eq!(error, None);
    assert_eq!(tokens, vec![(TokenData::Eof, "".to_string(), 0, 0, 0)]);
}

#[test]
fn single_newline_is_no_paragraph_break() {
    assert_eq!(
        kinds("a \n\t b"),
        vec![
            lexeme(TokenData::Plain, "a"),
            lexeme(TokenData::Whitespace { par: false }, " \n\t "),
            lexeme(TokenData::Plain, "b"),
            lexeme(TokenData::Eof, ""),
        ]
    );
}

#[test]
fn newlines_apart_in_one_run_make_a_paragraph_break() {
    assert_eq!(
        kinds("\n \r\n"),
        vec![lexeme(TokenData::Whitespace { par: true }, "\n \r\n"), lexeme(TokenData::Eof, "")]
    );
}

#[test]
fn leading_whitespace_is_a_token() {
    assert_eq!(
        kinds("  x"),
        vec![
            lexeme(TokenData::Whitespace { par: false }, "  "),
            lexeme(TokenData::Plain, "x"),
            lexeme(TokenData::Eof, ""),
        ]
    );
}

#[test]
fn plain_runs_are_greedy() {
    assert_eq!(
        kinds("a4paper(x):y;z&-+_*`'^\"<>!?~@./"),
        vec![lexeme(TokenData::Plain, "a4paper(x):y;z&-+_*`'^\"<>!?~@./"), lexeme(TokenData::Eof, "")]
    );
}

#[test]
fn one_character_tokens() {
    assert_eq!(
        kinds("{}[]=,"),
        vec![
            lexeme(TokenData::BraceL, "{"),
            lexeme(TokenData::BraceR, "}"),
            lexeme(TokenData::BracketL, "["),
            lexeme(TokenData::BracketR, "]"),
            lexeme(TokenData::Equal, "="),
            lexeme(TokenData::Comma, ","),
            lexeme(TokenData::Eof, ""),
        ]
    );
}

#[test]
fn control_word_ends_at_a_character_that_is_no_letter() {
    assert_eq!(
        kinds("\\foo1\\bar{"),
        vec![
            lexeme(TokenData::MacroNormal, "\\foo"),
            lexeme(TokenData::Plain, "1"),
            lexeme(TokenData::MacroNormal, "\\bar"),
            lexeme(TokenData::BraceL, "{"),
            lexeme(TokenData::Eof, ""),
        ]
    );
}

#[test]
fn control_word_at_end_of_input() {
    assert_eq!(
        kinds("\\foo"),
        vec![lexeme(TokenData::MacroNormal, "\\foo"), lexeme(TokenData::Eof, "")]
    );
}

#[test]
fn blank_line_after_control_word_is_dropped_too() {
    assert_eq!(
        kinds("\\foo \n\n x"),
        vec![
            lexeme(TokenData::MacroNormal, "\\foo"),
            lexeme(TokenData::Plain, "x"),
            lexeme(TokenData::Eof, ""),
        ]
    );
}

#[test]
fn control_symbols_take_one_character() {
    let specials = ['!', ',', ':', ';', '%', '&', '{', '}', '(', ')', '\\', '[', ']', '$'];
    for c in specials {
        let text = format!("\\{}x", c);
        assert_eq!(
            kinds(&text),
            vec![
                lexeme(TokenData::MacroSpecial, &text[..2]),
                lexeme(TokenData::Plain, "x"),
                lexeme(TokenData::Eof, ""),
            ]
        );
    }
}

#[test]
fn whitespace_after_control_symbol_is_kept() {
    assert_eq!(
        kinds("\\, x"),
        vec![
            lexeme(TokenData::MacroSpecial, "\\,"),
            lexeme(TokenData::Whitespace { par: false }, " "),
            lexeme(TokenData::Plain, "x"),
            lexeme(TokenData::Eof, ""),
        ]
    );
}

#[test]
fn dollars_single_and_double() {
    assert_eq!(
        kinds("$x$$y$ $$"),
        vec![
            lexeme(TokenData::DollarSingle, "$"),
            lexeme(TokenData::Plain, "x"),
            lexeme(TokenData::DollarDouble, "$$"),
            lexeme(TokenData::Plain, "y"),
            lexeme(TokenData::DollarSingle, "$"),
            lexeme(TokenData::Whitespace { par: false }, " "),
            lexeme(TokenData::DollarDouble, "$$"),
            lexeme(TokenData::Eof, ""),
        ]
    );
}

#[test]
fn comment_runs_to_the_line_feed_which_opens_the_whitespace_after_it() {
    let (tokens, error) = lex_all("a% b {\nc");
    assert_eq!(error, None);
    assert_eq!(
        tokens,
        vec![
            (TokenData::Plain, "a".to_string(), 0, 0, 0),
            (TokenData::Comment, "% b {".to_string(), 1, 0, 1),
            (TokenData::Whitespace { par: false }, "\n".to_string(), 6, 0, 6),
            (TokenData::Plain, "c".to_string(), 7, 1, 0),
            (TokenData::Eof, "".to_string(), 8, 1, 1),
        ]
    );
}

#[test]
fn comment_of_one_character_line_feed_and_word() {
    let (tokens, error) = lex_all("%\nb");
    assert_eq!(error, None);
    assert_eq!(
        tokens,
        vec![
            (TokenData::Comment, "%".to_string(), 0, 0, 0),
            (TokenData::Whitespace { par: false }, "\n".to_string(), 1, 0, 1),
            (TokenData::Plain, "b".to_string(), 2, 1, 0),
            (TokenData::Eof, "".to_string(), 3, 1, 1),
        ]
    );
}

#[test]
fn comment_runs_to_the_end_of_input() {
    assert_eq!(kinds("%x"), vec![lexeme(TokenData::Comment, "%x"), lexeme(TokenData::Eof, "")]);
}

#[test]
fn comment_ended_by_the_last_line_feed() {
    assert_eq!(
        kinds("%x\n"),
        vec![
            lexeme(TokenData::Comment, "%x"),
            lexeme(TokenData::Whitespace { par: false }, "\n"),
            lexeme(TokenData::Eof, ""),
        ]
    );
}

#[test]
fn comment_before_a_blank_line() {
    assert_eq!(
        kinds("%x\n\ny"),
        vec![
            lexeme(TokenData::Comment, "%x"),
            lexeme(TokenData::Whitespace { par: true }, "\n\n"),
            lexeme(TokenData::Plain, "y"),
            lexeme(TokenData::Eof, ""),
        ]
    );
}

#[test]
fn comments_on_lines_that_follow_each_other() {
    assert_eq!(
        kinds("%a\n%b\n  %c"),
        vec![
            lexeme(TokenData::Comment, "%a"),
            lexeme(TokenData::Whitespace { par: false }, "\n"),
            lexeme(TokenData::Comment, "%b"),
            lexeme(TokenData::Whitespace { par: false }, "\n  "),
            lexeme(TokenData::Comment, "%c"),
            lexeme(TokenData::Eof, ""),
        ]
    );
}

#[test]
fn comment_may_hold_any_character_and_offsets_count_bytes() {
    let (tokens, error) = lex_all("%é€𝄞\nx");
    assert_eq!(error, None);
    assert_eq!(
        tokens,
        vec![
            (TokenData::Comment, "%é€𝄞".to_string(), 0, 0, 0),
            (TokenData::Whitespace { par: false }, "\n".to_string(), 10, 0, 4),
            (TokenData::Plain, "x".to_string(), 11, 1, 0),
            (TokenData::Eof, "".to_string(), 12, 1, 1),
        ]
    );
}

#[test]
fn unrecognized_character_fails_and_loses_the_token_under_way() {
    let (tokens, error) = lex_all("ab é");
    assert_eq!(
        tokens,
        vec![(TokenData::Plain, "ab".to_string(), 0, 0, 0)]
    );
    assert_eq!(error, Some((ErrorData::UnrecognizedChar, 3, 0, 3)));
    let (tokens, error) = lex_all("ab#");
    assert!(tokens.is_empty());
    assert_eq!(error, Some((ErrorData::UnrecognizedChar, 2, 0, 2)));
}

#[test]
fn unrecognized_character_after_backslash_fails() {
    let (tokens, error) = lex_all("x\n\\1");
    assert_eq!(
        tokens,
        vec![
            (TokenData::Plain, "x".to_string(), 0, 0, 0),
            (TokenData::Whitespace { par: false }, "\n".to_string(), 1, 0, 1),
        ]
    );
    assert_eq!(error, Some((ErrorData::UnrecognizedMacroChar, 3, 1, 1)));
    let (_, error) = lex_all("\\ ");
    assert_eq!(error, Some((ErrorData::UnrecognizedMacroChar, 1, 0, 1)));
}

#[test]
fn every_call_after_the_end_marker_fails_with_exited() {
    let source = Source::new("x");
    let mut lexer = Lexer::new(&source);
    assert_eq!(lexer.next().unwrap().data(), TokenData::Plain);
    assert_eq!(lexer.next().unwrap().data(), TokenData::Eof);
    for _ in 0..3 {
        let error = lexer.next().unwrap_err();
        assert_eq!(error.loc().pos(), 1);
        assert_eq!(error.data(), ErrorData::Exited);
    }
}

#[test]
fn every_call_after_a_failure_fails_with_failed() {
    let source = Source::new("$$$ab");
    let mut lexer = Lexer::new(&source);
    assert_eq!(lexer.next().unwrap_err().data(), ErrorData::TripleDollar);
    let error = lexer.next().unwrap_err();
    assert_eq!(error.loc().pos(), 3);
    assert_eq!(error.data(), ErrorData::Failed);
    let error = lexer.next().unwrap_err();
    assert_eq!(error.loc().pos(), 4);
    assert_eq!(error.data(), ErrorData::Failed);
    for _ in 0..3 {
        let error = lexer.next().unwrap_err();
        assert_eq!(error.loc().pos(), 5);
        assert_eq!(error.data(), ErrorData::Failed);
    }
}

#[test]
fn lexer_hands_back_its_source() {
    let source = Source::new("abc");
    let lexer = Lexer::new(&source);
    assert_eq!(lexer.source().len(), 3);
}

fn without_whitespace_after_control_words(text: &str, tokens: &[Lexeme]) -> String {
    let mut kept = String::new();
    let mut end = 0;
    let mut after_word = false;
    for (kind, slice, pos, _, _) in tokens.iter() {
        let dropped = &text[end..*pos];
        if !after_word {
            kept.push_str(dropped);
        }
        kept.push_str(&text[*pos..*pos + slice.len()]);
        end = *pos + slice.len();
        after_word = *kind == TokenData::MacroNormal;
    }
    kept.push_str(&text[end..]);
    kept
}

/// The slices of the tokens, in order, are the text without the whitespace
/// that follows a control word, and that whitespace is dropped whole.
#[test]
fn tokens_cover_the_text_in_order() {
    let texts = [
        "\\documentclass[a4paper, 12pt]{article}",
        "  \\documentclass  {  article  }",
        "a\n\nb %c\n\\foo   $x$ $$y$$ \\{ \\bar",
        "%only\n",
        "%\nb",
        "%a\n\n%b\n\\c\n%d\n\n",
        "\\a\n\n\\b \\c",
    ];
    for text in texts {
        let (tokens, error) = lex_all(text);
        assert_eq!(error, None);
        let mut end = 0;
        let mut before: Option<TokenData> = None;
        let mut glued = String::new();
        for (kind, slice, pos, _, _) in tokens.iter() {
            assert!(end <= *pos);
            let dropped = &text[end..*pos];
            match before {
                Some(TokenData::MacroNormal) => {
                    assert!(dropped.chars().all(|c| c.is_ascii_whitespace()));
                    assert!(!text[*pos..].starts_with(|c: char| c.is_ascii_whitespace()));
                }
                _ => assert!(dropped.is_empty()),
            }
            glued.push_str(slice);
            assert_eq!(&text[*pos..*pos + slice.len()], slice.as_str());
            end = *pos + slice.len();
            before = Some(*kind);
        }
        assert_eq!(end, text.len());
        assert_eq!(glued, without_whitespace_after_control_words(text, &tokens));
    }
}

#[test]
fn slices_joined_are_the_text_without_whitespace_after_control_words() {
    let cases = [
        ("\\a b", "\\ab"),
        ("\\a \n\n b", "\\ab"),
        ("\\a\\b  \\c{ }", "\\a\\b\\c{ }"),
        ("%x\n\\a\n%y\n", "%x\n\\a%y\n"),
        ("\\a  ", "\\a"),
        ("\\, b", "\\, b"),
    ];
    for (text, expected) in cases {
        let (tokens, error) = lex_all(text);
        assert_eq!(error, None);
        let glued: String = tokens.iter().map(|(_, slice, _, _, _)| slice.as_str()).collect();
        assert_eq!(glued, expected);
    }
}

#[test]
fn slices_alone_make_up_a_text_without_whitespace_after_control_words() {
    for text in ["a b\n\n{c},[d]=$e$ $$f", "%c\nx %d\n\n%e", "\\a{b}\\c\\d[ ]\\e", "%\nb", ""] {
        let (tokens, error) = lex_all(text);
        assert_eq!(error, None);
        let glued: String = tokens.iter().map(|(_, slice, _, _, _)| slice.as_str()).collect();
        assert_eq!(glued, text);
    }
}

#[test]
fn token_locations_never_go_back() {
    let (tokens, error) = lex_all("\\a  b\n\n%c\nd{e}\n $f$");
    assert_eq!(error, None);
    for pair in tokens.windows(2) {
        assert!(pair[0].2 <= pair[1].2);
        assert!(pair[0].3 <= pair[1].3);
    }
}

#[test]
fn paragraph_flag_counts_line_feeds() {
    let (tokens, error) = lex_all("a\nb\n\nc \n \n d\r\re\n\n\n");
    assert_eq!(error, None);
    let mut seen = 0;
    for (kind, slice, _, _, _) in tokens {
        if let TokenData::Whitespace { par } = kind {
            seen += 1;
            assert_eq!(par, slice.chars().filter(|c| *c == '\n').count() >= 2);
        }
    }
    assert_eq!(seen, 5);
}

#[test]
fn control_sequences_are_a_backslash_and_letters_or_one_special() {
    let (tokens, error) = lex_all("\\abc\\Z \\\\\\{\\$x\\documentclass[");
    assert_eq!(error, None);
    let mut words = 0;
    let mut symbols = 0;
    for (kind, slice, _, _, _) in tokens {
        match kind {
            TokenData::MacroNormal => {
                words += 1;
                assert!(slice.starts_with('\\'));
                assert!(slice.len() >= 2);
                assert!(slice[1..].chars().all(|c| c.is_ascii_alphabetic()));
            }
            TokenData::MacroSpecial => {
                symbols += 1;
                assert!(slice.starts_with('\\'));
                assert_eq!(slice.chars().count(), 2);
                assert!("!,:;%&{}()\\[]$".contains(&slice[1..]));
            }
            _ => {}
        }
    }
    assert_eq!(words, 3);
    assert_eq!(symbols, 3);
}

#[test]
fn whitespace_after_control_word_is_dropped_up_to_the_next_token() {
    assert_eq!(
        kinds("\\a \t\r\n \\b\n{"),
        vec![
            lexeme(TokenData::MacroNormal, "\\a"),
            lexeme(TokenData::MacroNormal, "\\b"),
            lexeme(TokenData::BraceL, "{"),
            lexeme(TokenData::Eof, ""),
        ]
    );
    assert_eq!(
        kinds("\\a  %c\n  x"),
        vec![
            lexeme(TokenData::MacroNormal, "\\a"),
            lexeme(TokenData::Comment, "%c"),
            lexeme(TokenData::Whitespace { par: false }, "\n  "),
            lexeme(TokenData::Plain, "x"),
            lexeme(TokenData::Eof, ""),
        ]
    );
}

#[test]
fn whitespace_after_control_word_is_dropped_at_the_end_of_input() {
    let (tokens, error) = lex_all("\\a  \n");
    assert_eq!(error, None);
    assert_eq!(
        tokens,
        vec![
            (TokenData::MacroNormal, "\\a".to_string(), 0, 0, 0),
            (TokenData::Eof, "".to_string(), 5, 1, 0),
        ]
    );
}

#[test]
fn failure_after_dropped_whitespace_is_located_at_the_character() {
    let (tokens, error) = lex_all("\\a  #");
    assert_eq!(tokens, vec![(TokenData::MacroNormal, "\\a".to_string(), 0, 0, 0)]);
    assert_eq!(error, Some((ErrorData::UnrecognizedChar, 4, 0, 4)));
}

#[test]
fn whitespace_is_dropped_after_control_words_only() {
    assert_eq!(
        kinds("\\a x  y"),
        vec![
            lexeme(TokenData::MacroNormal, "\\a"),
            lexeme(TokenData::Plain, "x"),
            lexeme(TokenData::Whitespace { par: false }, "  "),
            lexeme(TokenData::Plain, "y"),
            lexeme(TokenData::Eof, ""),
        ]
    );
    assert_eq!(
        kinds("\\a1  y"),
        vec![
            lexeme(TokenData::MacroNormal, "\\a"),
            lexeme(TokenData::Plain, "1"),
            lexeme(TokenData::Whitespace { par: false }, "  "),
            lexeme(TokenData::Plain, "y"),
            lexeme(TokenData::Eof, ""),
        ]
    );
}
