//! The lines of a text.

use crate::source::location::{char_width, lemma_place_at_monotone, place_at};
use crate::source::text::{byte_count, byte_len, cut, lemma_char_index, Chars};
use vstd::prelude::*;

verus! {

/// The index of the first line feed in `text`, or the length of `text` if it
/// holds none.
pub open spec fn first_newline(text: Seq<char>) -> int
    decreases text.len(),
{
    if text.len() == 0 || text[0] == '\n' {
        0
    } else {
        1 + first_newline(text.drop_first())
    }
}

/// The line without the carriage return at its end, if it has one there.
pub open spec fn strip_cr(line: Seq<char>) -> Seq<char> {
    if line.len() > 0 && line.last() == '\r' {
        line.drop_last()
    } else {
        line
    }
}

/// The lines of `text`. A line ends at a line feed or at the end of the text;
/// neither the line feed nor a carriage return just before it belongs to the
/// line. A text that ends with a line feed has no empty line after it, and
/// the empty text has no lines.
pub open spec fn lines_of(text: Seq<char>) -> Seq<Seq<char>>
    decreases text.len(),
{
    if text.len() == 0 {
        Seq::empty()
    } else {
        let k = first_newline(text);
        if 0 <= k < text.len() {
            seq![strip_cr(text.take(k))] + lines_of(text.skip(k + 1))
        } else {
            seq![text]
        }
    }
}

/// The lines of `text`, followed by one empty line.
pub open spec fn indexed_lines(text: Seq<char>) -> Seq<Seq<char>> {
    lines_of(text).push(Seq::empty())
}

/// The first line feed is the one before which there is no other.
pub proof fn lemma_first_newline(text: Seq<char>, k: int)
    requires
        0 <= k <= text.len(),
        forall|i: int| 0 <= i < k ==> text[i] != '\n',
        k < text.len() ==> text[k] == '\n',
    ensures
        first_newline(text) == k,
    decreases k,
{
    if k > 0 {
        lemma_first_newline(text.drop_first(), k - 1);
    }
}

/// The first line feed lies within the text or at its end, there is no line
/// feed before it, and there is one at it unless it lies at the end.
pub proof fn lemma_first_newline_is_first(text: Seq<char>)
    ensures
        0 <= first_newline(text) <= text.len(),
        forall|i: int| 0 <= i < first_newline(text) ==> text[i] != '\n',
        first_newline(text) < text.len() ==> text[first_newline(text)] == '\n',
    decreases text.len(),
{
    if text.len() == 0 || text[0] == '\n' {
    } else {
        let tail = text.drop_first();
        lemma_first_newline_is_first(tail);
        assert forall|i: int| 0 <= i < first_newline(text) implies text[i] != '\n' by {
            if i > 0 {
                assert(text[i] == tail[i - 1]);
            }
        }
        let k = first_newline(tail);
        assert(k < tail.len() ==> tail[k] == text[k + 1]);
    }
}

/// The row reached after `n` characters is the row reached after the first
/// `m` of them and the rows that the rest adds.
proof fn lemma_rows_add(text: Seq<char>, m: int, n: int)
    requires
        0 <= m <= n <= text.len(),
    ensures
        place_at(text, n).row == place_at(text, m).row + place_at(text.skip(m), n - m).row,
    decreases n - m,
{
    if m < n {
        lemma_rows_add(text, m, n - 1);
        assert(text.skip(m)[n - m - 1] == text[n - 1]);
    }
}

/// Without a line feed the row stays the same.
proof fn lemma_row_stays(text: Seq<char>, k: int)
    requires
        0 <= k <= text.len(),
        forall|i: int| 0 <= i < k ==> text[i] != '\n',
    ensures
        place_at(text, k).row == 0,
    decreases k,
{
    if k > 0 {
        lemma_row_stays(text, k - 1);
    }
}

/// A text has at least as many lines as it has rows after the first.
proof fn lemma_lines_cover_rows(text: Seq<char>)
    ensures
        place_at(text, text.len() as int).row <= lines_of(text).len(),
    decreases text.len(),
{
    if text.len() > 0 {
        let k = first_newline(text);
        lemma_first_newline_is_first(text);
        lemma_row_stays(text, k);
        if k < text.len() {
            lemma_lines_cover_rows(text.skip(k + 1));
            lemma_rows_add(text, k + 1, text.len() as int);
        }
    }
}

/// Every location in a text lies in a row that the line index holds.
pub proof fn lemma_rows_are_indexed(text: Seq<char>, n: int)
    requires
        0 <= n <= text.len(),
    ensures
        place_at(text, n).row < indexed_lines(text).len(),
{
    lemma_place_at_monotone(text, n, text.len() as int);
    lemma_lines_cover_rows(text);
}

/// Splits `content` into its lines.
pub fn split_lines<'a>(content: &'a str) -> (lines: Vec<&'a str>)
    ensures
        lines@.len() == lines_of(content@).len(),
        forall|i: int| 0 <= i < lines@.len() ==> (#[trigger] lines@[i])@ == lines_of(content@)[i],
{
    let ghost text = content@;
    // Measuring the text shows that every offset into it fits in a `usize`.
    let _fits: usize = byte_count(content);
    let mut lines: Vec<&'a str> = Vec::new();
    let mut chars = Chars::new(content);
    let mut begin: usize = 0;
    let mut pos: usize = 0;
    let mut cr = false;
    let ghost mut s: int = 0;
    let ghost mut n: int = 0;
    let ghost mut done: Seq<Seq<char>> = Seq::empty();
    proof {
        assert(text.skip(0) == text);
        assert(done + lines_of(text) == lines_of(text));
    }
    loop
        invariant_except_break
            0 <= s <= n <= text.len(),
            chars@ == text.skip(n),
            begin == place_at(text, s).pos,
            pos == place_at(text, n).pos,
            forall|i: int| s <= i < n ==> text[i] != '\n',
            cr == (s < n && text[n - 1] == '\r'),
            lines@.len() == done.len(),
            forall|i: int| 0 <= i < done.len() ==> (#[trigger] lines@[i])@ == done[i],
            done + lines_of(text.skip(s)) == lines_of(text),
        invariant
            text == content@,
            byte_len(text) <= usize::MAX,
        ensures
            lines@.len() == lines_of(content@).len(),
            forall|i: int|
                0 <= i < lines@.len() ==> (#[trigger] lines@[i])@ == lines_of(content@)[i],
        decreases text.len() - n,
    {
        proof {
            lemma_char_index(text, s);
            lemma_char_index(text, n);
            lemma_place_at_monotone(text, s, n);
            lemma_place_at_monotone(text, n, text.len() as int);
        }
        match chars.next() {
            None => {
                let ghost rest = text.skip(s);
                if begin < pos {
                    let line = cut(content, begin, pos);
                    lines.push(line);
                    proof {
                        assert(forall|i: int| 0 <= i < rest.len() ==> rest[i] == text[s + i]);
                        lemma_first_newline(rest, rest.len() as int);
                        assert(text.subrange(s, n) == rest);
                        assert(done + seq![rest] == done.push(rest));
                    }
                } else {
                    proof {
                        if s < n {
                            lemma_place_at_monotone(text, s, n);
                        }
                        assert(done + Seq::<Seq<char>>::empty() == done);
                    }
                }
                break;
            },
            Some(c) => {
                proof {
                    assert(text[n] == c);
                    assert(text.skip(n).drop_first() == text.skip(n + 1));
                    lemma_place_at_monotone(text, n + 1, text.len() as int);
                }
                let w: usize = char_width(c);
                if c == '\n' {
                    proof {
                        if cr {
                            lemma_char_index(text, n - 1);
                            lemma_place_at_monotone(text, s, n - 1);
                        }
                    }
                    let end: usize = if cr {
                        pos - 1
                    } else {
                        pos
                    };
                    let line = cut(content, begin, end);
                    lines.push(line);
                    begin = pos + 1;
                    proof {
                        let rest = text.skip(s);
                        let k = n - s;
                        assert(forall|i: int| 0 <= i < rest.len() ==> rest[i] == text[s + i]);
                        lemma_first_newline(rest, k);
                        assert(rest.take(k) == text.subrange(s, n));
                        assert(rest.skip(k + 1) == text.skip(n + 1));
                        if cr {
                            assert(text.subrange(s, n).drop_last() == text.subrange(s, n - 1));
                        }
                        let found = strip_cr(text.subrange(s, n));
                        assert(line@ == found);
                        assert(done + (seq![found] + lines_of(text.skip(n + 1))) == done.push(found)
                            + lines_of(text.skip(n + 1)));
                        done = done.push(found);
                        s = n + 1;
                    }
                }
                cr = c == '\r';
                pos = pos + w;
                proof {
                    n = n + 1;
                }
            },
        }
    }
    lines
}

} // verus!
