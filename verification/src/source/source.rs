//! The source text, its line index, and excerpts of it for display.

use crate::source::lines::{indexed_lines, split_lines};
use crate::source::location::Location;
use crate::source::text::{byte_count, byte_len, char_index, cut, is_boundary, Chars};
use vstd::prelude::*;

verus! {

/// Ten to the power of `d`.
pub open spec fn pow10(d: nat) -> nat
    decreases d,
{
    if d == 0 {
        1
    } else {
        10 * pow10((d - 1) as nat)
    }
}

/// True when `d` is the number of decimal digits of `n`: the least `d` such
/// that ten to the power of `d` is greater than `n`. Zero has no digits.
pub open spec fn is_width_for(d: nat, n: nat) -> bool {
    pow10(d) > n && (d > 0 ==> pow10((d - 1) as nat) <= n)
}

/// The number of decimal digits of `n`, which is the width of a column that
/// holds the numbers up to `n`.
pub fn width_for(n: usize) -> (d: usize)
    ensures
        is_width_for(d as nat, n as nat),
{
    let mut digits: usize = 0;
    let mut base: usize = 1;
    while base <= n
        invariant
            base == pow10(digits as nat),
            digits > 0 ==> pow10((digits - 1) as nat) <= n,
            digits < base,
            base >= 1,
        decreases usize::MAX - base,
    {
        if base > usize::MAX / 10 {
            return digits + 1;
        }
        digits += 1;
        base *= 10;
    }
    digits
}

/// The mathematical value of an [`Excerpt`].
pub struct ExcerptView {
    pub first_row: nat,
    pub lines: Seq<Seq<char>>,
    pub digits: nat,
    pub col: nat,
}

/// The lines of a text around a location, laid out for display: the row of
/// the first line, the lines themselves, the width of the column that holds
/// the line numbers, which is the number of digits of the last of them, and
/// the column at which the location lies in the last line.
#[derive(Debug)]
pub struct Excerpt<'src> {
    pub first_row: usize,
    pub lines: Vec<&'src str>,
    pub digits: usize,
    pub col: usize,
}

impl<'src> View for Excerpt<'src> {
    type V = ExcerptView;

    open spec fn view(&self) -> ExcerptView {
        ExcerptView {
            first_row: self.first_row as nat,
            lines: self.lines@.map_values(|line: &'src str| line@),
            digits: self.digits as nat,
            col: self.col as nat,
        }
    }
}

/// The text under analysis, with an index of its lines.
pub struct Source<'src> {
    content: &'src str,
    lines: Vec<&'src str>,
}

impl<'src> View for Source<'src> {
    type V = Seq<char>;

    closed spec fn view(&self) -> Seq<char> {
        self.content@
    }
}

impl<'src> Source<'src> {
    #[verifier::type_invariant]
    spec fn wf(self) -> bool {
        &&& byte_len(self.content@) <= usize::MAX
        &&& self.lines@.len() == indexed_lines(self.content@).len()
        &&& forall|i: int|
            0 <= i < self.lines@.len() ==> (#[trigger] self.lines@[i])@ == indexed_lines(
                self.content@,
            )[i]
    }

    /// The source that holds `content`.
    pub fn new(content: &'src str) -> (source: Source<'src>)
        ensures
            source@ == content@,
    {
        // Measuring the text shows that its length in bytes fits in a `usize`.
        let _fits: usize = byte_count(content);
        let mut lines = split_lines(content);
        let last = "";
        proof {
            reveal_strlit("");
            assert(last@ == Seq::<char>::empty());
        }
        lines.push(last);
        Source { content, lines }
    }

    /// A cursor at the first character of the text.
    pub fn chars(&self) -> (chars: Chars<'src>)
        ensures
            chars@ == self@,
    {
        Chars::new(self.content)
    }

    /// The length of the text in bytes.
    pub fn len(&self) -> (n: usize)
        ensures
            n == byte_len(self@),
    {
        byte_count(self.content)
    }

    /// The text between two locations.
    pub fn slice(&self, start: &Location, end: &Location) -> (part: &'src str)
        requires
            is_boundary(self@, start@.pos),
            is_boundary(self@, end@.pos),
            start@.pos <= end@.pos,
        ensures
            part@ == self@.subrange(char_index(self@, start@.pos), char_index(self@, end@.pos)),
    {
        cut(self.content, start.pos(), end.pos())
    }

    /// The number of lines in the index: one more than the text has lines.
    pub fn line_count(&self) -> (n: usize)
        ensures
            n == indexed_lines(self@).len(),
    {
        proof {
            use_type_invariant(self);
        }
        self.lines.len()
    }

    /// The line in the given row.
    pub fn line(&self, row: usize) -> (line: &'src str)
        requires
            row < indexed_lines(self@).len(),
        ensures
            line@ == indexed_lines(self@)[row as int],
    {
        proof {
            use_type_invariant(self);
        }
        self.lines[row]
    }

    /// What to show in order to point at `loc`: the line on which it lies,
    /// after up to three lines before it, and how wide the line numbers and
    /// how far right the pointer must be set.
    pub fn excerpt(&self, loc: Location) -> (excerpt: Excerpt<'src>)
        requires
            loc@.row < indexed_lines(self@).len(),
        ensures
            excerpt@.first_row == (if loc@.row >= 3 {
                loc@.row - 3
            } else {
                0
            }),
            excerpt@.lines == indexed_lines(self@).subrange(
                excerpt@.first_row as int,
                loc@.row as int + 1,
            ),
            is_width_for(excerpt@.digits, (loc@.row + 1) as nat),
            excerpt@.col == loc@.col,
    {
        proof {
            use_type_invariant(self);
        }
        // The row is less than the number of lines, so one more is no overflow.
        let _count: usize = self.lines.len();
        let row: usize = loc.row();
        let first_row: usize = if row >= 3 {
            row - 3
        } else {
            0
        };
        let row_end: usize = row + 1;
        let digits: usize = width_for(row_end);
        let mut lines: Vec<&'src str> = Vec::new();
        let mut i: usize = first_row;
        while i < row_end
            invariant
                first_row <= i <= row_end,
                row_end <= self.lines@.len(),
                lines@.len() == i - first_row,
                forall|k: int| 0 <= k < lines@.len() ==> #[trigger] lines@[k] == self.lines@[first_row + k],
            decreases row_end - i,
        {
            lines.push(self.lines[i]);
            i += 1;
        }
        proof {
            assert(lines@.map_values(|line: &'src str| line@) =~= indexed_lines(self@).subrange(
                first_row as int,
                row + 1,
            ));
        }
        Excerpt { first_row, lines, digits, col: loc.col() }
    }
}

} // verus!
