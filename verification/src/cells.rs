//! Display widths: how many terminal cells a character or a text takes.
//!
//! A text is measured character by character. Printable ASCII takes one
//! cell, control characters take none; for every other character the width
//! comes from the Unicode tables of the `unicode-width` crate, in which
//! East-Asian wide characters take two cells.
use crate::strings::{chars_of, repeated};
use vstd::prelude::*;

verus! {

/// The width that the tables of `unicode-width` give to a character from
/// U+00A0 on.
pub uninterp spec fn table_width(c: char) -> usize;

/// What measuring one character yields: one cell for printable ASCII,
/// nothing for a control character, the table's answer for the rest.
pub open spec fn measured(c: char) -> Option<usize> {
    let code = c as u32;
    if 0x20 <= code < 0x7f {
        Some(1usize)
    } else if code < 0xa0 {
        None
    } else {
        Some(table_width(c))
    }
}

/// `unicode_width::UnicodeWidthChar::width`: `Some(1)` for U+0020 to U+007E,
/// `None` for the control characters below U+0020 and from U+007F to U+009F,
/// and for every character from U+00A0 on the width found in the crate's
/// tables, which depends on the character alone.
#[verifier::external_body]
fn measure(c: char) -> (w: Option<usize>)
    ensures
        w == measured(c),
        c as u32 >= 0xa0 ==> w == Some(table_width(c)),
{
    unicode_width::UnicodeWidthChar::width(c)
}

/// Cells taken by one character; a control character takes none.
pub open spec fn char_width(c: char) -> nat {
    match measured(c) {
        Some(w) => w as nat,
        None => 0,
    }
}

/// Cells taken by a text: the sum over its characters.
pub open spec fn text_width(s: Seq<char>) -> nat
    decreases s.len(),
{
    if s.len() == 0 {
        0
    } else {
        text_width(s.drop_last()) + char_width(s.last())
    }
}

/// A width as a machine integer: the width itself where it fits, else the
/// largest `usize`.
pub open spec fn clip(n: nat) -> usize {
    if n <= usize::MAX {
        n as usize
    } else {
        usize::MAX
    }
}

/// Cells taken by one character.
pub fn char_cells(c: char) -> (w: usize)
    ensures
        w == char_width(c),
{
    match measure(c) {
        Some(w) => w,
        None => 0,
    }
}

/// `a + b`, or the largest `usize` where the sum does not fit.
pub fn add_clipped(a: usize, b: usize) -> (sum: usize)
    ensures
        sum == clip((a + b) as nat),
{
    if b > usize::MAX - a {
        usize::MAX
    } else {
        a + b
    }
}

/// Cells taken by the characters in `chars`.
pub fn chars_cell_len(chars: &Vec<char>) -> (w: usize)
    ensures
        w == clip(text_width(chars@)),
{
    let mut w: usize = 0;
    let mut i: usize = 0;
    while i < chars.len()
        invariant
            i <= chars.len(),
            w == clip(text_width(chars@.take(i as int))),
        decreases chars.len() - i,
    {
        proof {
            assert(chars@.take(i + 1).drop_last() =~= chars@.take(i as int));
        }
        w = add_clipped(w, char_cells(chars[i]));
        i = i + 1;
    }
    proof {
        assert(chars@.take(chars.len() as int) =~= chars@);
    }
    w
}

/// Cells taken by `text` on a terminal.
pub fn cell_len(text: &str) -> (w: usize)
    ensures
        w == clip(text_width(text@)),
{
    let chars = chars_of(text);
    chars_cell_len(&chars)
}

/// Appending one character adds its width.
pub proof fn lemma_width_push(s: Seq<char>, c: char)
    ensures
        text_width(s.push(c)) == text_width(s) + char_width(c),
{
    assert(s.push(c).drop_last() =~= s);
}

/// The width of two texts joined is the sum of their widths.
pub proof fn lemma_width_concat(a: Seq<char>, b: Seq<char>)
    ensures
        text_width(a + b) == text_width(a) + text_width(b),
    decreases b.len(),
{
    if b.len() == 0 {
        assert(a + b =~= a);
    } else {
        lemma_width_concat(a, b.drop_last());
        assert((a + b).drop_last() =~= a + b.drop_last());
    }
}

/// `n` spaces take `n` cells.
pub proof fn lemma_width_spaces(n: nat)
    ensures
        text_width(repeated(' ', n)) == n,
    decreases n,
{
    if n > 0 {
        lemma_width_spaces((n - 1) as nat);
        assert(repeated(' ', n).drop_last() =~= repeated(' ', (n - 1) as nat));
        assert(' ' as u32 == 0x20);
    }
}

} // verus!
