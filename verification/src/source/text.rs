//! Texts and their encoding: byte offsets, boundaries between characters,
//! slicing, and reading character by character.

use crate::source::location::{char_width, lemma_place_at_monotone, place_at, utf8_width};
use vstd::prelude::*;
use vstd::string::StringSliceAdditionalSpecFns;
use vstd::utf8::{
    char_is_scalar, encode_scalar, encode_utf8, encode_utf8_decode_utf8, encode_utf8_first_scalar,
    encode_utf8_valid_utf8, is_char_boundary, pop_first_scalar,
};

verus! {

/// Number of bytes that the UTF-8 encoding of `text` occupies.
pub open spec fn byte_len(text: Seq<char>) -> nat {
    place_at(text, text.len() as int).pos
}

/// True when `pos` is the byte offset of a character of `text`, or of its
/// end.
pub open spec fn is_boundary(text: Seq<char>, pos: nat) -> bool {
    exists|n: int| 0 <= n <= text.len() && #[trigger] place_at(text, n).pos == pos
}

/// The number of characters of `text` that lie before the byte offset `pos`.
pub open spec fn char_index(text: Seq<char>, pos: nat) -> int {
    choose|n: int| 0 <= n <= text.len() && #[trigger] place_at(text, n).pos == pos
}

/// The byte offset of the `n`-th character is a boundary, and it is the
/// offset of no other character.
pub proof fn lemma_char_index(text: Seq<char>, n: int)
    requires
        0 <= n <= text.len(),
    ensures
        is_boundary(text, place_at(text, n).pos),
        char_index(text, place_at(text, n).pos) == n,
{
    let pos = place_at(text, n).pos;
    let m = char_index(text, pos);
    if m < n {
        lemma_place_at_monotone(text, m, n);
    } else if n < m {
        lemma_place_at_monotone(text, n, m);
    }
}

/// The width of a character is the length of its encoding.
pub proof fn lemma_width_is_encoded_len(c: char)
    ensures
        encode_scalar(c as u32).len() == utf8_width(c),
{
    char_is_scalar(c);
}

/// The encoding of a text is the encoding of a prefix followed by that of the
/// rest.
pub proof fn lemma_encode_split(text: Seq<char>, n: int)
    requires
        0 <= n <= text.len(),
    ensures
        encode_utf8(text) == encode_utf8(text.take(n)) + encode_utf8(text.skip(n)),
    decreases n,
{
    if n == 0 {
        assert(text.take(0) == Seq::<char>::empty());
        assert(text.skip(0) == text);
        assert(encode_utf8(text) =~= encode_utf8(text.take(n)) + encode_utf8(text.skip(n)));
    } else {
        let tail = text.drop_first();
        lemma_encode_split(tail, n - 1);
        assert(tail.take(n - 1) == text.take(n).drop_first());
        assert(tail.skip(n - 1) == text.skip(n));
        assert(text.take(n)[0] == text[0]);
        assert(encode_utf8(text) =~= encode_utf8(text.take(n)) + encode_utf8(text.skip(n)));
    }
}

/// The byte offset of the `n`-th character is the length of the encoding of
/// the characters before it.
pub proof fn lemma_offset_is_encoded_len(text: Seq<char>, n: int)
    requires
        0 <= n <= text.len(),
    ensures
        place_at(text, n).pos == encode_utf8(text.take(n)).len(),
    decreases n,
{
    if n == 0 {
        assert(text.take(0) == Seq::<char>::empty());
    } else {
        lemma_offset_is_encoded_len(text, n - 1);
        let head = text.take(n);
        lemma_encode_split(head, n - 1);
        assert(head.take(n - 1) == text.take(n - 1));
        assert(head.skip(n - 1) == seq![text[n - 1]]);
        let c = text[n - 1];
        let one = seq![c];
        assert(one.len() == 1 && one[0] == c);
        assert(one.drop_first().len() == 0);
        assert(encode_utf8(one.drop_first()) =~= Seq::<u8>::empty());
        assert(encode_utf8(one) =~= encode_scalar(c as u32));
        lemma_width_is_encoded_len(c);
    }
}

/// The byte offset of every character is a character boundary of the
/// encoded text.
pub proof fn lemma_offset_is_char_boundary(text: Seq<char>, n: int)
    requires
        0 <= n <= text.len(),
    ensures
        is_char_boundary(encode_utf8(text), encode_utf8(text.take(n)).len() as int),
    decreases n,
{
    encode_utf8_valid_utf8(text);
    if n == 0 {
        assert(text.take(0) == Seq::<char>::empty());
    } else {
        let tail = text.drop_first();
        lemma_offset_is_char_boundary(tail, n - 1);
        encode_utf8_first_scalar(text);
        assert(tail.take(n - 1) == text.take(n).drop_first());
        assert(text.take(n)[0] == text[0]);
        assert(pop_first_scalar(encode_utf8(text)) =~= encode_utf8(tail));
        lemma_encode_split(text, n);
    }
}

/// Two texts with the same encoding are the same text.
pub proof fn lemma_encode_injective(a: Seq<char>, b: Seq<char>)
    requires
        encode_utf8(a) == encode_utf8(b),
    ensures
        a == b,
{
    encode_utf8_decode_utf8(a);
    encode_utf8_decode_utf8(b);
}

/// The length of `text` in bytes. Every text is short enough for a `usize`
/// to hold its length.
pub fn byte_count(text: &str) -> (n: usize)
    ensures
        n == byte_len(text@),
{
    proof {
        lemma_offset_is_encoded_len(text@, text@.len() as int);
        assert(text@.take(text@.len() as int) == text@);
    }
    text.as_bytes().len()
}

/// The part of `text` between the byte offsets `from` and `to`.
pub fn cut<'a>(text: &'a str, from: usize, to: usize) -> (part: &'a str)
    requires
        is_boundary(text@, from as nat),
        is_boundary(text@, to as nat),
        from <= to,
    ensures
        part@ == text@.subrange(char_index(text@, from as nat), char_index(text@, to as nat)),
{
    let ghost i = char_index(text@, from as nat);
    let ghost j = char_index(text@, to as nat);
    proof {
        if j < i {
            lemma_place_at_monotone(text@, j, i);
        }
        lemma_offset_is_encoded_len(text@, j);
        lemma_offset_is_char_boundary(text@, j);
    }
    let (head, _) = text.split_at(to);
    proof {
        lemma_encode_split(text@, j);
        assert(head.spec_bytes() =~= encode_utf8(text@.take(j)));
        lemma_encode_injective(head@, text@.take(j));
        assert(text@.take(j).take(i) == text@.take(i));
        lemma_offset_is_encoded_len(text@, i);
        lemma_offset_is_char_boundary(head@, i);
    }
    let (_, part) = head.split_at(from);
    proof {
        lemma_encode_split(head@, i);
        assert(part.spec_bytes() =~= encode_utf8(head@.skip(i)));
        lemma_encode_injective(part@, head@.skip(i));
        assert(text@.take(j).skip(i) == text@.subrange(i, j));
    }
    part
}

/// A forward cursor over the characters of a text.
#[derive(Debug, Copy, Clone)]
pub struct Chars<'src> {
    rest: &'src str,
}

impl<'src> View for Chars<'src> {
    type V = Seq<char>;

    /// The characters that have not been read yet.
    closed spec fn view(&self) -> Seq<char> {
        self.rest@
    }
}

impl<'src> Chars<'src> {
    /// A cursor at the first character of `text`.
    pub fn new(text: &'src str) -> (chars: Chars<'src>)
        ensures
            chars@ == text@,
    {
        Chars { rest: text }
    }

    /// Reads one character, or returns `None` at the end of the text.
    pub fn next(&mut self) -> (c: Option<char>)
        ensures
            old(self)@.len() == 0 ==> c.is_none() && final(self)@ == old(self)@,
            old(self)@.len() > 0 ==> c == Some(old(self)@[0]) && final(self)@ == old(self)@.drop_first(),
    {
        if self.rest.is_empty() {
            None
        } else {
            let c = self.rest.get_char(0);
            let w: usize = char_width(c);
            proof {
                let bytes = self.rest.spec_bytes();
                lemma_width_is_encoded_len(c);
                encode_utf8_first_scalar(self.rest@);
                encode_utf8_valid_utf8(self.rest@);
                assert(is_char_boundary(pop_first_scalar(bytes), 0));
                assert(is_char_boundary(bytes, w as int));
            }
            let (_, tail) = self.rest.split_at(w);
            proof {
                assert(tail.spec_bytes() =~= encode_utf8(self.rest@.drop_first()));
                lemma_encode_injective(tail@, self.rest@.drop_first());
            }
            self.rest = tail;
            Some(c)
        }
    }
}

/// True when the two texts hold the same characters.
pub fn same_text(a: &str, b: &str) -> (r: bool)
    ensures
        r == (a@ == b@),
{
    let mut left = Chars::new(a);
    let mut right = Chars::new(b);
    let ghost mut n: int = 0;
    loop
        invariant
            0 <= n <= a@.len(),
            n <= b@.len(),
            left@ == a@.skip(n),
            right@ == b@.skip(n),
            a@.take(n) == b@.take(n),
        decreases left@.len(),
    {
        let x = left.next();
        let y = right.next();
        match x {
            None => {
                proof {
                    assert(a@.take(n) == a@);
                    if y.is_none() {
                        assert(b@.take(n) == b@);
                    }
                }
                return y.is_none();
            },
            Some(c) => match y {
                None => {
                    return false;
                },
                Some(d) => {
                    assert(a@[n] == c && b@[n] == d);
                    if c != d {
                        return false;
                    }
                    proof {
                        assert(a@.skip(n).drop_first() == a@.skip(n + 1));
                        assert(b@.skip(n).drop_first() == b@.skip(n + 1));
                        assert(a@.take(n + 1) == a@.take(n).push(c));
                        assert(b@.take(n + 1) == b@.take(n).push(d));
                        n = n + 1;
                    }
                },
            },
        }
    }
}

} // verus!
