//! Locations in a text: byte offset, row and column.

use vstd::prelude::*;

verus! {

/// The mathematical value of a [`Location`]: a byte offset into the text
/// together with the zero-based row and column it falls on.
pub struct Place {
    pub pos: nat,
    pub row: nat,
    pub col: nat,
}

/// Number of bytes that the UTF-8 encoding of `c` occupies.
pub open spec fn utf8_width(c: char) -> nat {
    if (c as u32) < 0x80 {
        1
    } else if (c as u32) < 0x800 {
        2
    } else if (c as u32) < 0x10000 {
        3
    } else {
        4
    }
}

/// The place reached from `p` by reading the character `c`.
pub open spec fn advance(p: Place, c: char) -> Place {
    if c == '\n' {
        Place { pos: p.pos + utf8_width(c), row: p.row + 1, col: 0 }
    } else {
        Place { pos: p.pos + utf8_width(c), row: p.row, col: p.col + 1 }
    }
}

/// The place of the first character of a text.
pub open spec fn origin() -> Place {
    Place { pos: 0, row: 0, col: 0 }
}

/// The place reached after reading the first `n` characters of `text`.
pub open spec fn place_at(text: Seq<char>, n: int) -> Place
    decreases n,
{
    if n <= 0 {
        origin()
    } else {
        advance(place_at(text, n - 1), text[n - 1])
    }
}

/// Reading more characters moves the byte offset forward by at least one
/// byte for each of them, and never moves the row back.
pub proof fn lemma_place_at_monotone(text: Seq<char>, i: int, j: int)
    requires
        0 <= i <= j,
    ensures
        place_at(text, i).pos + (j - i) <= place_at(text, j).pos,
        place_at(text, i).row <= place_at(text, j).row,
        place_at(text, j).row + place_at(text, j).col <= place_at(text, j).pos,
    decreases j,
{
    if i < j {
        lemma_place_at_monotone(text, i, j - 1);
    } else if j > 0 {
        lemma_place_at_monotone(text, 0, j - 1);
    }
}

/// Executable counterpart of [`utf8_width`].
pub fn char_width(c: char) -> (n: usize)
    ensures
        n == utf8_width(c),
{
    let v: u32 = c as u32;
    if v < 0x80 {
        1
    } else if v < 0x800 {
        2
    } else if v < 0x10000 {
        3
    } else {
        4
    }
}

/// A cursor into a text: byte offset, row and column, all counted from zero.
/// The column counts characters.
#[derive(Debug, Copy, Clone)]
pub struct Location {
    pos: usize,
    row: usize,
    col: usize,
}

impl View for Location {
    type V = Place;

    closed spec fn view(&self) -> Place {
        Place { pos: self.pos as nat, row: self.row as nat, col: self.col as nat }
    }
}

impl Location {
    #[verifier::type_invariant]
    spec fn bounded(self) -> bool {
        self.row + self.col <= self.pos
    }

    /// The location of the first byte of any text.
    pub fn start() -> (loc: Location)
        ensures
            loc@ == origin(),
    {
        Location { pos: 0, row: 0, col: 0 }
    }

    /// Moves the cursor over the character `c`: forward by the bytes of `c`,
    /// and to the beginning of the next row if `c` is a line feed, else to
    /// the next column.
    pub fn step(&mut self, c: char)
        requires
            old(self)@.pos + utf8_width(c) <= usize::MAX,
        ensures
            final(self)@ == advance(old(self)@, c),
    {
        proof {
            use_type_invariant(&*self);
        }
        let w: usize = char_width(c);
        self.pos += w;
        if c == '\n' {
            self.row += 1;
            self.col = 0;
        } else {
            self.col += 1;
        }
    }

    /// The row, counted from zero.
    pub fn row(&self) -> (r: usize)
        ensures
            r == self@.row,
    {
        self.row
    }

    /// The column, counted from zero in characters.
    pub fn col(&self) -> (c: usize)
        ensures
            c == self@.col,
    {
        self.col
    }

    /// The offset from the beginning of the text, in bytes.
    pub fn pos(&self) -> (p: usize)
        ensures
            p == self@.pos,
    {
        self.pos
    }
}

} // verus!
