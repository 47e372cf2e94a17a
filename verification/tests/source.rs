use linttex::source::location::char_width;
use linttex::source::source::width_for;
use linttex::source::lines::split_lines;
use linttex::source::text::{byte_count, cut, same_text, Chars};
use linttex::source::{Location, Range, Source};

fn walk(text: &str) -> Location {
    let mut loc = Location::start();
    for c in text.chars() {
        loc.step(c);
    }
    loc
}

fn triple(loc: Location) -> (usize, usize, usize) {
    (loc.pos(), loc.row(), loc.col())
}

#[test]
fn location_starts_at_zero() {
    assert_eq!(triple(Location::start()), (0, 0, 0));
}

#[test]
fn location_steps_by_bytes_rows_and_columns() {
    let mut loc = Location::start();
    loc.step('a');
    assert_eq!(triple(loc), (1, 0, 1));
    loc.step('é');
    assert_eq!(triple(loc), (3, 0, 2));
    loc.step('\n');
    assert_eq!(triple(loc), (4, 1, 0));
    loc.step('€');
    assert_eq!(triple(loc), (7, 1, 1));
    loc.step('𝄞');
    assert_eq!(triple(loc), (11, 1, 2));
    loc.step('\r');
    assert_eq!(triple(loc), (12, 1, 3));
    loc.step('\n');
    assert_eq!(triple(loc), (13, 2, 0));
}

#[test]
fn character_widths_are_those_of_utf8() {
    for c in ['\0', 'a', '\x7f', '\u{80}', 'é', '\u{7ff}', '\u{800}', '€', '\u{ffff}', '\u{10000}', '𝄞', '\u{10ffff}'] {
        assert_eq!(char_width(c), c.len_utf8());
    }
}

#[test]
fn range_is_made_of_two_locations() {
    let range = Range::new(walk("a"), walk("ab\nc"));
    let shown = format!("{:?}", range);
    assert!(shown.contains("pos: 1"));
    assert!(shown.contains("pos: 4"));
}

#[test]
fn cursor_reads_characters_in_order() {
    let mut chars = Chars::new("aé€𝄞");
    assert_eq!(chars.next(), Some('a'));
    assert_eq!(chars.next(), Some('é'));
    assert_eq!(chars.next(), Some('€'));
    assert_eq!(chars.next(), Some('𝄞'));
    assert_eq!(chars.next(), None);
    assert_eq!(chars.next(), None);
}

#[test]
fn source_chars_and_length() {
    let source = Source::new("aé\n");
    assert_eq!(source.len(), 4);
    let mut chars = source.chars();
    assert_eq!(chars.next(), Some('a'));
    assert_eq!(chars.next(), Some('é'));
    assert_eq!(chars.next(), Some('\n'));
    assert_eq!(chars.next(), None);
    assert_eq!(Source::new("").len(), 0);
}

#[test]
fn slice_is_the_text_between_two_locations() {
    let text = "ab é€\n𝄞cd";
    let source = Source::new(text);
    assert_eq!(source.slice(&walk(""), &walk(text)), text);
    assert_eq!(source.slice(&walk("ab "), &walk("ab é€")), "é€");
    assert_eq!(source.slice(&walk("ab é€\n"), &walk("ab é€\n𝄞c")), "𝄞c");
    assert_eq!(source.slice(&walk("ab"), &walk("ab")), "");
    assert_eq!(source.slice(&walk(text), &walk(text)), "");
}

#[test]
fn same_text_compares_characters() {
    assert!(same_text("", ""));
    assert!(same_text("documentclass", "documentclass"));
    assert!(same_text("é€", "é€"));
    assert!(!same_text("documentclass", "documentclas"));
    assert!(!same_text("documentclas", "documentclass"));
    assert!(!same_text("a", "b"));
    assert!(!same_text("", "a"));
}

fn lines(text: &str) -> Vec<String> {
    let source = Source::new(text);
    (0..source.line_count()).map(|row| source.line(row).to_string()).collect()
}

#[test]
fn lines_end_at_line_feeds_and_one_empty_line_follows() {
    assert_eq!(lines(""), vec![""]);
    assert_eq!(lines("a"), vec!["a", ""]);
    assert_eq!(lines("a\n"), vec!["a", ""]);
    assert_eq!(lines("a\nb"), vec!["a", "b", ""]);
    assert_eq!(lines("\n"), vec!["", ""]);
    assert_eq!(lines("\n\nx\n"), vec!["", "", "x", ""]);
    assert_eq!(lines("é€\n𝄞"), vec!["é€", "𝄞", ""]);
}

#[test]
fn carriage_return_before_line_feed_is_no_part_of_the_line() {
    assert_eq!(lines("a\r\nb\r\n"), vec!["a", "b", ""]);
    assert_eq!(lines("a\rb\n"), vec!["a\rb", ""]);
    assert_eq!(lines("a\r\r\n"), vec!["a\r", ""]);
    assert_eq!(lines("\r\n"), vec!["", ""]);
    assert_eq!(lines("a\r"), vec!["a\r", ""]);
}

#[test]
fn lines_agree_with_the_standard_library() {
    for text in ["", "a", "a\n", "a\nb", "\n\n", "a\r\nb", "x\ry\r\n\nz", "é\n€\r\n𝄞", "a\r"] {
        let mut expected: Vec<String> = text.lines().map(|line| line.to_string()).collect();
        expected.push(String::new());
        assert_eq!(lines(text), expected);
    }
}

#[test]
fn width_is_the_number_of_decimal_digits() {
    assert_eq!(width_for(0), 0);
    assert_eq!(width_for(1), 1);
    assert_eq!(width_for(9), 1);
    assert_eq!(width_for(10), 2);
    assert_eq!(width_for(11), 2);
    assert_eq!(width_for(99), 2);
    assert_eq!(width_for(100), 3);
    assert_eq!(width_for(999), 3);
    assert_eq!(width_for(1000), 4);
    for n in [1usize, 7, 10, 42, 100, 12345, usize::MAX / 10, usize::MAX - 1, usize::MAX] {
        assert_eq!(width_for(n), n.to_string().len());
    }
}

#[test]
fn excerpt_shows_the_line_and_up_to_three_before_it() {
    let text = "one\ntwo\nthree\nfour\nfive\nsix";
    let source = Source::new(text);
    let excerpt = source.excerpt(walk("one\ntwo\nthree\nfour\nfi"));
    assert_eq!(excerpt.first_row, 1);
    assert_eq!(excerpt.lines, vec!["two", "three", "four", "five"]);
    assert_eq!(excerpt.digits, 1);
    assert_eq!(excerpt.col, 2);
    let excerpt = source.excerpt(walk("one\nt"));
    assert_eq!(excerpt.first_row, 0);
    assert_eq!(excerpt.lines, vec!["one", "two"]);
    assert_eq!(excerpt.digits, 1);
    assert_eq!(excerpt.col, 1);
    let excerpt = source.excerpt(Location::start());
    assert_eq!(excerpt.first_row, 0);
    assert_eq!(excerpt.lines, vec!["one"]);
    assert_eq!(excerpt.digits, 1);
    assert_eq!(excerpt.col, 0);
}

#[test]
fn excerpt_at_the_end_of_a_text_that_ends_with_a_line_feed() {
    let text = "a\nb\n";
    let source = Source::new(text);
    let excerpt = source.excerpt(walk(text));
    assert_eq!(excerpt.first_row, 0);
    assert_eq!(excerpt.lines, vec!["a", "b", ""]);
    assert_eq!(excerpt.digits, 1);
    assert_eq!(excerpt.col, 0);
}

#[test]
fn excerpt_widens_the_numbers_from_the_tenth_line_on() {
    let text = "x\n".repeat(101);
    let source = Source::new(&text);
    let excerpt = source.excerpt(walk(&"x\n".repeat(8)));
    assert_eq!(excerpt.first_row, 5);
    assert_eq!(excerpt.digits, 1);
    let excerpt = source.excerpt(walk(&"x\n".repeat(9)));
    assert_eq!(excerpt.first_row, 6);
    assert_eq!(excerpt.lines, vec!["x", "x", "x", "x"]);
    assert_eq!(excerpt.digits, 2);
    let excerpt = source.excerpt(walk(&"x\n".repeat(98)));
    assert_eq!(excerpt.digits, 2);
    let excerpt = source.excerpt(walk(&"x\n".repeat(99)));
    assert_eq!(excerpt.first_row, 96);
    assert_eq!(excerpt.digits, 3);
}

#[test]
fn numbers_of_an_excerpt_fit_its_number_column() {
    let text = "x\n".repeat(1200);
    let source = Source::new(&text);
    for row in [0usize, 1, 8, 9, 10, 98, 99, 100, 998, 999, 1000, 1199] {
        let excerpt = source.excerpt(walk(&"x\n".repeat(row)));
        for i in 0..excerpt.lines.len() {
            assert!((excerpt.first_row + i + 1).to_string().len() <= excerpt.digits);
        }
        assert_eq!((row + 1).to_string().len(), excerpt.digits);
    }
}

#[test]
fn byte_count_is_the_length_in_bytes() {
    assert_eq!(byte_count(""), 0);
    assert_eq!(byte_count("abc"), 3);
    assert_eq!(byte_count("é€𝄞"), 9);
}

#[test]
fn cut_is_the_text_between_two_offsets() {
    assert_eq!(cut("aé€𝄞b", 1, 6), "é€");
    assert_eq!(cut("aé€𝄞b", 0, 11), "aé€𝄞b");
    assert_eq!(cut("aé€𝄞b", 6, 6), "");
}

#[test]
fn split_lines_has_no_empty_line_at_the_end() {
    assert_eq!(split_lines(""), Vec::<&str>::new());
    assert_eq!(split_lines("a\nb\n"), vec!["a", "b"]);
    assert_eq!(split_lines("a\r\n\nb"), vec!["a", "", "b"]);
    assert_eq!(split_lines("é\n€"), vec!["é", "€"]);
}
