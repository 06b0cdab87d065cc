//! Columns of a line of text, counted in characters, in UTF-16 units and in bytes.
use vstd::prelude::*;
use vstd::string::*;

use crate::text;

verus! {

/// How many bytes UTF-8 takes for `c`.
pub open spec fn utf8_width(c: char) -> nat {
    if (c as u32) < 0x80 {
        1
    } else if (c as u32) < 0x800 {
        2
    } else if (c as u32) < 0x10000 {
        3
    } else {
        4
    }
}

/// How many UTF-16 units `c` takes.
pub open spec fn utf16_width(c: char) -> nat {
    if (c as u32) < 0x10000 {
        1
    } else {
        2
    }
}

/// How many bytes UTF-8 takes for `s`.
pub open spec fn byte_len(s: Seq<char>) -> nat {
    vstd::utf8::encode_utf8(s).len()
}

/// How many UTF-16 units `s` takes.
pub open spec fn utf16_len(s: Seq<char>) -> nat
    decreases s.len(),
{
    if s.len() == 0 {
        0
    } else {
        utf16_width(s[0]) + utf16_len(s.skip(1))
    }
}

/// The position of the first character of `s` that is not before the UTF-16 column `col`.
pub open spec fn column_index(s: Seq<char>, col: int) -> int
    decreases s.len(),
{
    if s.len() == 0 || col <= 0 {
        0
    } else {
        1 + column_index(s.skip(1), col - utf16_width(s[0]))
    }
}

proof fn lemma_scalar_width(c: char)
    ensures
        vstd::utf8::encode_scalar(c as u32).len() == utf8_width(c),
{
}

/// The bytes of a text are those of its parts.
pub proof fn lemma_byte_len_add(a: Seq<char>, b: Seq<char>)
    ensures
        byte_len(a + b) == byte_len(a) + byte_len(b),
    decreases a.len(),
{
    if a.len() == 0 {
        assert(a + b =~= b);
    } else {
        lemma_byte_len_add(a.drop_first(), b);
        assert((a + b).drop_first() =~= a.drop_first() + b);
    }
}

pub proof fn lemma_byte_len_one(c: char)
    ensures
        byte_len(seq![c]) == utf8_width(c),
{
    lemma_scalar_width(c);
    assert(seq![c].drop_first() =~= Seq::<char>::empty());
    reveal_with_fuel(vstd::utf8::encode_utf8, 2);
}

pub proof fn lemma_byte_len_push(s: Seq<char>, c: char)
    ensures
        byte_len(s.push(c)) == byte_len(s) + utf8_width(c),
{
    assert(s.push(c) =~= s + seq![c]);
    lemma_byte_len_add(s, seq![c]);
    lemma_byte_len_one(c);
}

/// A prefix takes no more bytes than the whole.
pub proof fn lemma_byte_len_take(s: Seq<char>, i: int)
    requires
        0 <= i <= s.len(),
    ensures
        byte_len(s) == byte_len(s.take(i)) + byte_len(s.skip(i)),
        byte_len(s.take(i)) <= byte_len(s),
{
    assert(s =~= s.take(i) + s.skip(i));
    lemma_byte_len_add(s.take(i), s.skip(i));
}

pub proof fn lemma_utf16_len_push(s: Seq<char>, c: char)
    ensures
        utf16_len(s.push(c)) == utf16_len(s) + utf16_width(c),
    decreases s.len(),
{
    reveal_with_fuel(utf16_len, 2);
    if s.len() == 0 {
        assert(s.push(c).skip(1) =~= Seq::<char>::empty());
    } else {
        lemma_utf16_len_push(s.skip(1), c);
        assert(s.push(c).skip(1) =~= s.skip(1).push(c));
    }
}

/// UTF-16 never takes more units than UTF-8 takes bytes.
pub proof fn lemma_utf16_at_most_bytes(s: Seq<char>)
    ensures
        utf16_len(s) <= byte_len(s),
    decreases s.len(),
{
    if s.len() > 0 {
        lemma_utf16_at_most_bytes(s.skip(1));
        lemma_scalar_width(s[0]);
        assert(s.skip(1) =~= s.drop_first());
    }
}

pub proof fn lemma_column_index_bounds(s: Seq<char>, col: int)
    ensures
        0 <= column_index(s, col) <= s.len(),
    decreases s.len(),
{
    if s.len() > 0 && col > 0 {
        lemma_column_index_bounds(s.skip(1), col - utf16_width(s[0]));
    }
}

/// The character at a column index is the first that starts at or after the column: every
/// shorter prefix is narrower than the column, and the prefix itself is not, unless the line
/// ends before the column.
pub proof fn lemma_column_index(s: Seq<char>, col: int)
    ensures
        0 <= column_index(s, col) <= s.len(),
        forall|k: int|
            0 <= k < column_index(s, col) ==> utf16_len(#[trigger] s.take(k)) < col,
        column_index(s, col) < s.len() ==> utf16_len(s.take(column_index(s, col))) >= col,
    decreases s.len(),
{
    let n = column_index(s, col);
    if s.len() == 0 || col <= 0 {
        assert(s.take(0) =~= Seq::<char>::empty());
    } else {
        let t = s.skip(1);
        let rest = col - utf16_width(s[0]);
        lemma_column_index(t, rest);
        assert forall|k: int| 0 <= k < n implies utf16_len(#[trigger] s.take(k)) < col by {
            if k > 0 {
                assert(s.take(k).skip(1) =~= t.take(k - 1));
                assert(utf16_len(t.take(k - 1)) < rest);
            }
        }
        if n < s.len() {
            assert(s.take(n).skip(1) =~= t.take(n - 1));
        }
    }
}

/// How many bytes UTF-8 takes for `c`.
pub fn char_utf8_width(c: char) -> (r: usize)
    ensures
        r == utf8_width(c),
{
    let u: u32 = c as u32;
    if u < 0x80 {
        1
    } else if u < 0x800 {
        2
    } else if u < 0x10000 {
        3
    } else {
        4
    }
}

/// How many UTF-16 units `c` takes.
pub fn char_utf16_width(c: char) -> (r: usize)
    ensures
        r == utf16_width(c),
{
    let u: u32 = c as u32;
    if u < 0x10000 {
        1
    } else {
        2
    }
}

/// The byte offset of the character `at` of `s`.
pub fn byte_offset(s: &str, at: usize) -> (r: usize)
    requires
        at <= s@.len(),
    ensures
        r == byte_len(s@.take(at as int)),
{
    let total: usize = s.as_bytes().len();
    let c = text::chars_of(s);
    let mut bytes: usize = 0;
    let mut i: usize = 0;
    assert(s@.take(0) =~= Seq::<char>::empty());
    while i < at
        invariant
            i <= at <= s@.len(),
            c@ == s@,
            total == byte_len(s@),
            bytes == byte_len(s@.take(i as int)),
        decreases at - i,
    {
        proof {
            lemma_byte_len_push(s@.take(i as int), s@[i as int]);
            assert(s@.take(i as int).push(s@[i as int]) =~= s@.take(i + 1));
            lemma_byte_len_take(s@, i + 1);
        }
        bytes += char_utf8_width(c[i]);
        i += 1;
    }
    bytes
}

/// How many UTF-16 units `s` takes.
pub fn utf16_count(s: &str) -> (r: usize)
    ensures
        r == utf16_len(s@),
{
    let total: usize = s.as_bytes().len();
    let c = text::chars_of(s);
    let mut units: usize = 0;
    let mut i: usize = 0;
    assert(s@.take(0) =~= Seq::<char>::empty());
    while i < c.len()
        invariant
            i <= c@.len(),
            c@ == s@,
            total == byte_len(s@),
            units == utf16_len(s@.take(i as int)),
        decreases c@.len() - i,
    {
        proof {
            lemma_utf16_len_push(s@.take(i as int), s@[i as int]);
            assert(s@.take(i as int).push(s@[i as int]) =~= s@.take(i + 1));
            lemma_byte_len_take(s@, i + 1);
            lemma_utf16_at_most_bytes(s@.take(i + 1));
        }
        units += char_utf16_width(c[i]);
        i += 1;
    }
    assert(s@.take(c@.len() as int) =~= s@);
    units
}

/// The position of the first character of `s` that is not before the UTF-16 column `col`.
pub fn utf16_col_to_char(s: &str, col: usize) -> (r: usize)
    ensures
        r == column_index(s@, col as int),
        r <= s@.len(),
{
    let c = text::chars_of(s);
    let mut left: usize = col;
    let mut i: usize = 0;
    assert(s@.skip(0) =~= s@);
    while i < c.len() && left > 0
        invariant
            i <= c@.len(),
            c@ == s@,
            column_index(s@, col as int) == i + column_index(s@.skip(i as int), left as int),
        decreases c@.len() - i,
    {
        let w: usize = char_utf16_width(c[i]);
        assert(s@.skip(i as int).skip(1) =~= s@.skip(i + 1));
        if left < w {
            assert(column_index(s@.skip(i + 1), left - w) == 0);
            left = 0;
        } else {
            left -= w;
        }
        i += 1;
    }
    i
}

/// Converts a UTF-16 column to a byte offset within `line_text`; a column past the end gives
/// the length of the line.
pub fn utf16_col_to_byte(line_text: &str, utf16_col: usize) -> (r: usize)
    ensures
        r == byte_len(line_text@.take(column_index(line_text@, utf16_col as int))),
{
    let n: usize = utf16_col_to_char(line_text, utf16_col);
    byte_offset(line_text, n)
}

/// `line` up to the UTF-16 column `col`.
pub fn before_column<'a>(line: &'a str, col: usize) -> (r: &'a str)
    ensures
        r@ == line@.take(column_index(line@, col as int)),
{
    let n: usize = utf16_col_to_char(line, col);
    text::take(line, n)
}

} // verus!
