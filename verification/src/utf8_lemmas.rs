//! Facts about character boundaries in UTF-8 text that the parsers use to cut
//! text at ASCII delimiters.

use vstd::prelude::*;
use vstd::utf8::*;

verus! {

/// A position holding an ASCII byte is a character boundary.
pub proof fn lemma_ascii_is_boundary(b: Seq<u8>, i: int)
    requires
        valid_utf8(b),
        0 <= i < b.len(),
        b[i] < 128,
    ensures
        is_char_boundary(b, i),
{
    is_char_boundary_iff_not_is_continuation_byte(b, i);
}

/// The position right after an ASCII byte is a character boundary.
pub proof fn lemma_after_ascii_is_boundary(b: Seq<u8>, i: int)
    requires
        valid_utf8(b),
        0 <= i < b.len(),
        b[i] < 128,
    ensures
        is_char_boundary(b, i + 1),
    decreases b.len(),
{
    lemma_ascii_is_boundary(b, i);
    reveal_with_fuel(is_char_boundary, 2);
    if i > 0 {
        let fl = length_of_first_scalar(b);
        let tail = pop_first_scalar(b);
        assert(valid_utf8(tail));
        assert(tail.len() == b.len() - fl);
        assert(tail[i - fl] == b[i]);
        lemma_after_ascii_is_boundary(tail, i - fl);
    }
}

/// A boundary of `b` at or after a boundary `x` is a boundary of `b[x..]`.
pub proof fn lemma_boundary_in_suffix(b: Seq<u8>, x: int, y: int)
    requires
        valid_utf8(b),
        is_char_boundary(b, x),
        is_char_boundary(b, y),
        0 <= x <= y <= b.len(),
    ensures
        valid_utf8(b.subrange(x, b.len() as int)),
        is_char_boundary(b.subrange(x, b.len() as int), y - x),
{
    valid_utf8_split(b, x);
    let s = b.subrange(x, b.len() as int);
    if y == b.len() {
        is_char_boundary_start_end_of_seq(s);
    } else {
        is_char_boundary_iff_not_is_continuation_byte(b, y);
        is_char_boundary_iff_not_is_continuation_byte(s, y - x);
    }
}

/// A boundary of `b[x..]` is, shifted by `x`, a boundary of `b`.
pub proof fn lemma_boundary_from_suffix(b: Seq<u8>, x: int, k: int)
    requires
        valid_utf8(b),
        is_char_boundary(b, x),
        0 <= x <= b.len(),
        0 <= k <= b.len() - x,
        is_char_boundary(b.subrange(x, b.len() as int), k),
    ensures
        is_char_boundary(b, x + k),
{
    valid_utf8_split(b, x);
    let s = b.subrange(x, b.len() as int);
    if x + k == b.len() {
        is_char_boundary_start_end_of_seq(b);
    } else {
        is_char_boundary_iff_not_is_continuation_byte(b, x + k);
        is_char_boundary_iff_not_is_continuation_byte(s, k);
    }
}

/// The bytes between two boundaries are valid UTF-8.
pub proof fn lemma_piece_valid(b: Seq<u8>, x: int, y: int)
    requires
        valid_utf8(b),
        is_char_boundary(b, x),
        is_char_boundary(b, y),
        0 <= x <= y <= b.len(),
    ensures
        valid_utf8(b.subrange(x, y)),
{
    lemma_boundary_in_suffix(b, x, y);
    let s = b.subrange(x, b.len() as int);
    valid_utf8_split(s, y - x);
    assert(s.subrange(0, y - x) =~= b.subrange(x, y));
}

} // verus!
