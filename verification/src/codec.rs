//! Position codec: converts a byte offset in UTF-8 text into a zero-based
//! (line, UTF-16 column) pair, the positional unit of the wire protocol.

use vstd::prelude::*;
use vstd::string::StringSliceAdditionalSpecFns;
use vstd::utf8::{
    is_continuation_byte, is_leading_byte_width_1, is_leading_byte_width_2,
    is_leading_byte_width_4, valid_utf8,
};

use crate::protocol::Position;

verus! {

pub const NEWLINE: u8 = 10;

/// Number of UTF-16 code units a UTF-8 byte contributes once the text is
/// transcoded: the leading byte of a 1-, 2- or 3-byte encoding stands for
/// one unit, the leading byte of a 4-byte encoding for two (a surrogate
/// pair), and a continuation byte for none.
pub open spec fn utf16_units_of_byte(b: u8) -> int {
    if is_continuation_byte(b) {
        0
    } else if is_leading_byte_width_4(b) {
        2
    } else {
        1
    }
}

/// UTF-16 length of a UTF-8 byte sequence.
pub open spec fn utf16_len(s: Seq<u8>) -> int
    decreases s.len(),
{
    if s.len() == 0 {
        0
    } else {
        utf16_len(s.drop_last()) + utf16_units_of_byte(s.last())
    }
}

/// Number of newline bytes strictly before `upto`.
pub open spec fn newline_count(s: Seq<u8>, upto: int) -> int
    decreases upto,
{
    if upto <= 0 {
        0
    } else {
        newline_count(s, upto - 1) + if s[upto - 1] == NEWLINE {
            1int
        } else {
            0int
        }
    }
}

/// Byte index where the line containing offset `upto` begins: one past the
/// last newline strictly before `upto`, or the start of the text.
pub open spec fn line_start(s: Seq<u8>, upto: int) -> int
    decreases upto,
{
    if upto <= 0 {
        0
    } else if s[upto - 1] == NEWLINE {
        upto
    } else {
        line_start(s, upto - 1)
    }
}

/// The line of the position an offset converts to.
pub open spec fn line_of(s: Seq<u8>, offset: int) -> int {
    newline_count(s, offset)
}

/// The UTF-16 column of the position an offset converts to.
pub open spec fn column_of(s: Seq<u8>, offset: int) -> int {
    utf16_len(s.subrange(line_start(s, offset), offset))
}

pub proof fn lemma_line_start_range(s: Seq<u8>, upto: int)
    requires
        0 <= upto,
    ensures
        0 <= line_start(s, upto) <= upto,
    decreases upto,
{
    if upto > 0 && s[upto - 1] != NEWLINE {
        lemma_line_start_range(s, upto - 1);
    }
}

pub proof fn lemma_utf16_len_nonneg(s: Seq<u8>)
    ensures
        0 <= utf16_len(s),
    decreases s.len(),
{
    if s.len() > 0 {
        lemma_utf16_len_nonneg(s.drop_last());
    }
}

/// UTF-16 length distributes over concatenation.
pub proof fn lemma_utf16_len_concat(a: Seq<u8>, b: Seq<u8>)
    ensures
        utf16_len(a + b) == utf16_len(a) + utf16_len(b),
    decreases b.len(),
{
    if b.len() == 0 {
        assert(a + b =~= a);
    } else {
        lemma_utf16_len_concat(a, b.drop_last());
        assert((a + b).drop_last() =~= a + b.drop_last());
        assert((a + b).last() == b.last());
    }
}

/// A prefix never has more UTF-16 units than the whole sequence.
pub proof fn lemma_utf16_len_prefix_le(s: Seq<u8>, k: int)
    requires
        0 <= k <= s.len(),
    ensures
        utf16_len(s.subrange(0, k)) <= utf16_len(s),
{
    let a = s.subrange(0, k);
    let b = s.subrange(k, s.len() as int);
    assert(s =~= a + b);
    lemma_utf16_len_concat(a, b);
    lemma_utf16_len_nonneg(b);
}

/// A sequence of continuation bytes contributes no UTF-16 units.
pub proof fn lemma_utf16_len_all_continuation(s: Seq<u8>)
    requires
        forall|i: int| 0 <= i < s.len() ==> is_continuation_byte(#[trigger] s[i]),
    ensures
        utf16_len(s) == 0,
    decreases s.len(),
{
    if s.len() > 0 {
        lemma_utf16_len_all_continuation(s.drop_last());
    }
}

/// Valid UTF-8 text never has more UTF-16 units than bytes: every scalar
/// takes at least as many UTF-8 bytes as UTF-16 units.
pub proof fn lemma_utf16_len_le_len(s: Seq<u8>)
    requires
        valid_utf8(s),
    ensures
        utf16_len(s) <= s.len(),
    decreases s.len(),
{
    if s.len() > 0 {
        assert(vstd::utf8::valid_first_scalar(s));
        let w = vstd::utf8::length_of_first_scalar(s);
        assert(1 <= w && w <= s.len());
        let head = vstd::utf8::take_first_scalar(s);
        let tail = vstd::utf8::pop_first_scalar(s);
        assert(head.len() == w);
        assert(s =~= head + tail);
        lemma_utf16_len_concat(head, tail);
        lemma_utf16_len_le_len(tail);
        assert(utf16_len(head) <= w) by {
            let cont = head.subrange(1, head.len() as int);
            assert(head =~= seq![head[0]] + cont);
            lemma_utf16_len_concat(seq![head[0]], cont);
            lemma_utf16_len_all_continuation(cont);
            assert(utf16_len(seq![head[0]]) == utf16_units_of_byte(head[0])) by {
                assert(seq![head[0]].last() == head[0]);
                assert(seq![head[0]].drop_last() =~= Seq::<u8>::empty());
                assert(utf16_len(Seq::<u8>::empty()) == 0);
            }
        }
    }
}

/// In valid UTF-8, the position just after a one-byte (ASCII) scalar is a
/// character boundary.
pub proof fn lemma_boundary_after_ascii(s: Seq<u8>, j: int)
    requires
        valid_utf8(s),
        0 <= j < s.len(),
        is_leading_byte_width_1(s[j]),
    ensures
        vstd::utf8::is_char_boundary(s, j + 1),
    decreases j,
{
    let w = vstd::utf8::length_of_first_scalar(s);
    let tail = vstd::utf8::pop_first_scalar(s);
    if j == 0 {
        assert(w == 1);
        assert(vstd::utf8::is_char_boundary(tail, 0));
    } else {
        assert(w <= j) by {
            broadcast use vstd::utf8::is_char_boundary_iff_not_is_continuation_byte;

            if w > j {
                assert(is_continuation_byte(s[j]));
            }
        }
        assert(tail[j - w] == s[j]);
        lemma_boundary_after_ascii(tail, j - w);
    }
}

/// The start of a line is a character boundary: it is either the start of
/// the text or the position right after a newline byte.
pub proof fn lemma_line_start_is_boundary(s: Seq<u8>, offset: int)
    requires
        valid_utf8(s),
        0 <= offset <= s.len(),
    ensures
        vstd::utf8::is_char_boundary(s, line_start(s, offset)),
    decreases offset,
{
    lemma_line_start_range(s, offset);
    if offset == 0 {
        broadcast use vstd::utf8::is_char_boundary_start_end_of_seq;

    } else if s[offset - 1] == NEWLINE {
        lemma_boundary_after_ascii(s, offset - 1);
    } else {
        lemma_line_start_is_boundary(s, offset - 1);
    }
}

/// The column of any offset into valid UTF-8 text is bounded by the byte
/// length of the text.
pub proof fn lemma_column_bounded(s: Seq<u8>, offset: int)
    requires
        valid_utf8(s),
        0 <= offset <= s.len(),
    ensures
        0 <= column_of(s, offset) <= s.len(),
{
    let ls = line_start(s, offset);
    lemma_line_start_range(s, offset);
    lemma_line_start_is_boundary(s, offset);
    broadcast use vstd::utf8::valid_utf8_split;

    let rest = s.subrange(ls, s.len() as int);
    assert(valid_utf8(rest));
    lemma_utf16_len_le_len(rest);
    assert(s.subrange(ls, offset) =~= rest.subrange(0, offset - ls));
    lemma_utf16_len_prefix_le(rest, offset - ls);
    lemma_utf16_len_nonneg(s.subrange(ls, offset));
}

/// Offsets that land exactly at the start of a line convert to column 0,
/// and their line number counts the newlines before them.
pub proof fn lemma_line_start_offset_column_zero(s: Seq<u8>, offset: int)
    requires
        0 <= offset <= s.len(),
        offset == 0 || s[offset - 1] == NEWLINE,
    ensures
        column_of(s, offset) == 0,
        line_of(s, offset) == newline_count(s, offset),
{
    assert(line_start(s, offset) == offset);
    assert(s.subrange(offset, offset) =~= Seq::<u8>::empty());
}

/// All-ASCII bytes are valid UTF-8 and decode to one scalar per byte.
pub proof fn lemma_ascii_scalar_count(s: Seq<u8>)
    requires
        forall|i: int| 0 <= i < s.len() ==> #[trigger] s[i] < 0x80,
    ensures
        valid_utf8(s),
        vstd::utf8::decode_utf8(s).len() == s.len(),
    decreases s.len(),
{
    if s.len() > 0 {
        let b = s[0];
        assert(is_leading_byte_width_1(b));
        assert(b & 0x7f < 0x80) by (bit_vector);
        assert(vstd::utf8::valid_first_scalar(s));
        assert(vstd::utf8::length_of_first_scalar(s) == 1);
        let rest = vstd::utf8::pop_first_scalar(s);
        assert(rest =~= s.subrange(1, s.len() as int));
        assert(forall|i: int| 0 <= i < rest.len() ==> #[trigger] rest[i] < 0x80);
        lemma_ascii_scalar_count(rest);
        assert(valid_utf8(s));
        assert(vstd::utf8::decode_utf8(s).len() == 1 + vstd::utf8::decode_utf8(rest).len());
    }
}

/// For text of single-byte (ASCII) characters, the UTF-16 column equals
/// the byte count within the line, which equals the scalar count of the
/// line prefix.
pub proof fn lemma_ascii_column_is_byte_count(s: Seq<u8>, offset: int)
    requires
        0 <= offset <= s.len(),
        forall|i: int| 0 <= i < s.len() ==> #[trigger] s[i] < 0x80,
    ensures
        column_of(s, offset) == offset - line_start(s, offset),
        vstd::utf8::decode_utf8(s.subrange(line_start(s, offset), offset)).len() == offset
            - line_start(s, offset),
{
    lemma_line_start_range(s, offset);
    lemma_utf16_len_ascii(s.subrange(line_start(s, offset), offset));
    lemma_ascii_scalar_count(s.subrange(line_start(s, offset), offset));
}

pub proof fn lemma_utf16_len_ascii(s: Seq<u8>)
    requires
        forall|i: int| 0 <= i < s.len() ==> #[trigger] s[i] < 0x80,
    ensures
        utf16_len(s) == s.len(),
    decreases s.len(),
{
    if s.len() > 0 {
        lemma_utf16_len_ascii(s.drop_last());
    }
}

/// A two-byte UTF-8 scalar contributes exactly one UTF-16 unit, not two as
/// a byte count would suggest, wherever it stands in the text.
pub proof fn lemma_two_byte_scalar_one_unit(prefix: Seq<u8>, b1: u8, b2: u8, suffix: Seq<u8>)
    requires
        is_leading_byte_width_2(b1),
        is_continuation_byte(b2),
    ensures
        utf16_len(prefix + seq![b1, b2] + suffix) == utf16_len(prefix) + 1 + utf16_len(suffix),
{
    lemma_utf16_len_concat(prefix + seq![b1, b2], suffix);
    lemma_utf16_len_concat(prefix, seq![b1, b2]);
    assert(utf16_len(seq![b1, b2]) == 1) by {
        let t = seq![b1, b2];
        let u = seq![b1];
        assert(utf16_len(Seq::<u8>::empty()) == 0);
        assert(u.last() == b1);
        assert(u.drop_last() =~= Seq::<u8>::empty());
        assert(utf16_units_of_byte(b1) == 1);
        assert(utf16_len(u) == 1);
        assert(t.last() == b2);
        assert(t.drop_last() =~= u);
        assert(utf16_units_of_byte(b2) == 0);
    }
}

/// Converts a byte offset in `text` to a zero-based (line, UTF-16 column)
/// pair: the line counts the newlines strictly before the offset, and the
/// column is the UTF-16 length of the line's prefix up to the offset.
pub fn index_to_line_col(text: &str, index: usize) -> (r: (u32, u32))
    requires
        index <= text.spec_bytes().len(),
        text.spec_bytes().len() <= u32::MAX,
    ensures
        r.0 == line_of(text.spec_bytes(), index as int),
        r.1 == column_of(text.spec_bytes(), index as int),
{
    let bytes = text.as_bytes();
    let ghost s = text.spec_bytes();
    let mut i: usize = 0;
    let mut line: u32 = 0;
    let mut col: u64 = 0;
    while i < index
        invariant
            i <= index,
            index <= s.len(),
            s.len() <= u32::MAX,
            bytes@ == s,
            line == newline_count(s, i as int),
            line <= i,
            col == utf16_len(s.subrange(line_start(s, i as int), i as int)),
            col <= 2 * i,
        decreases index - i,
    {
        let ghost ls = line_start(s, i as int);
        proof {
            lemma_line_start_range(s, i as int);
        }
        let b = bytes[i];
        if b == NEWLINE {
            line = line + 1;
            col = 0;
            proof {
                assert(line_start(s, i + 1) == i + 1);
                assert(s.subrange(i + 1, i + 1) =~= Seq::<u8>::empty());
                assert(utf16_len(Seq::<u8>::empty()) == 0);
            }
        } else {
            if b < 0x80 || b >= 0xC0 {
                if 0xF0 <= b && b <= 0xF7 {
                    col = col + 2;
                } else {
                    col = col + 1;
                }
            }
            proof {
                assert(line_start(s, i + 1) == ls);
                assert(s.subrange(ls, i + 1) =~= s.subrange(ls, i as int).push(s[i as int]));
                assert(s.subrange(ls, i + 1).drop_last() =~= s.subrange(ls, i as int));
                assert(s.subrange(ls, i + 1).last() == s[i as int]);
                assert(utf16_len(s.subrange(ls, i + 1)) == utf16_len(s.subrange(ls, i as int))
                    + utf16_units_of_byte(s[i as int]));
            }
        }
        i = i + 1;
    }
    proof {
        broadcast use vstd::utf8::encode_utf8_valid_utf8;

        assert(valid_utf8(s));
        lemma_column_bounded(s, index as int);
    }
    (line, col as u32)
}

/// Converts a byte offset to a wire-protocol `Position`.
pub fn to_position(text: &str, byte_offset: usize) -> (p: Position)
    requires
        byte_offset <= text.spec_bytes().len(),
        text.spec_bytes().len() <= u32::MAX,
    ensures
        p.line == line_of(text.spec_bytes(), byte_offset as int),
        p.character == column_of(text.spec_bytes(), byte_offset as int),
{
    let (line, character) = index_to_line_col(text, byte_offset);
    Position { line, character }
}

} // verus!
