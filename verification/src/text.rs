//! Byte-offset arithmetic for highlight ranges.
//!
//! The fuzzy back-ends report matched positions as character indices, while
//! highlight ranges are byte offsets into the UTF-8 text.  This module
//! normalises raw index lists (sorts them, removes duplicates and anything
//! out of range), merges runs of consecutive characters into ranges, and
//! converts character ranges into byte ranges that always fall on character
//! boundaries.

use vstd::prelude::*;
use vstd::utf8::{encode_scalar, encode_utf8, is_char_boundary, valid_utf8};

verus! {

/// Width in bytes of one character's UTF-8 encoding.
pub open spec fn char_width(c: char) -> int {
    encode_scalar(c as u32).len() as int
}

/// Byte offset of the `i`-th character of `s` in the UTF-8 encoding of `s`.
pub open spec fn byte_offset_of(s: Seq<char>, i: int) -> int
    recommends
        0 <= i <= s.len(),
{
    encode_utf8(s.take(i)).len() as int
}

proof fn lemma_char_width_bounds(c: char)
    ensures
        1 <= char_width(c) <= 4,
{
}

proof fn lemma_encode_utf8_push(s: Seq<char>, c: char)
    ensures
        encode_utf8(s.push(c)) == encode_utf8(s) + encode_scalar(c as u32),
    decreases s.len(),
{
    if s.len() == 0 {
        assert(s.push(c).drop_first() =~= Seq::<char>::empty());
        assert(s.push(c)[0] == c);
        assert(encode_utf8(Seq::<char>::empty()) =~= seq![]);
        assert(encode_utf8(s.push(c)) =~= encode_utf8(s) + encode_scalar(c as u32));
    } else {
        assert(s.push(c).drop_first() =~= s.drop_first().push(c));
        lemma_encode_utf8_push(s.drop_first(), c);
        assert(s.push(c)[0] == s[0]);
        assert(encode_utf8(s.push(c)) =~= encode_utf8(s) + encode_scalar(c as u32));
    }
}

proof fn lemma_byte_offset_step(s: Seq<char>, i: int)
    requires
        0 <= i < s.len(),
    ensures
        byte_offset_of(s, i + 1) == byte_offset_of(s, i) + char_width(s[i]),
{
    assert(s.take(i + 1) =~= s.take(i).push(s[i]));
    lemma_encode_utf8_push(s.take(i), s[i]);
}

/// Byte offsets grow strictly with the character index.
pub proof fn lemma_byte_offset_mono(s: Seq<char>, i: int, j: int)
    requires
        0 <= i <= j <= s.len(),
    ensures
        byte_offset_of(s, i) <= byte_offset_of(s, j),
        i < j ==> byte_offset_of(s, i) < byte_offset_of(s, j),
    decreases j - i,
{
    if i < j {
        lemma_byte_offset_step(s, j - 1);
        lemma_char_width_bounds(s[j - 1]);
        lemma_byte_offset_mono(s, i, j - 1);
    }
}

/// The offset of position 0 is 0 and the offset of the last position is the
/// total encoded length.
pub proof fn lemma_byte_offset_ends(s: Seq<char>)
    ensures
        byte_offset_of(s, 0) == 0,
        byte_offset_of(s, s.len() as int) == encode_utf8(s).len(),
{
    assert(s.take(0) =~= Seq::<char>::empty());
    assert(s.take(s.len() as int) =~= s);
}

proof fn lemma_encode_utf8_concat(a: Seq<char>, b: Seq<char>)
    ensures
        encode_utf8(a + b) == encode_utf8(a) + encode_utf8(b),
    decreases a.len(),
{
    if a.len() == 0 {
        assert(a + b =~= b);
        assert(encode_utf8(a + b) =~= encode_utf8(a) + encode_utf8(b));
    } else {
        assert((a + b).drop_first() =~= a.drop_first() + b);
        assert((a + b)[0] == a[0]);
        lemma_encode_utf8_concat(a.drop_first(), b);
        assert(encode_utf8(a + b) =~= encode_utf8(a) + encode_utf8(b));
    }
}

/// Every byte offset produced from a character index is a character boundary
/// of the UTF-8 encoding.
pub proof fn lemma_byte_offset_is_char_boundary(s: Seq<char>, i: int)
    requires
        0 <= i <= s.len(),
    ensures
        is_char_boundary(encode_utf8(s), byte_offset_of(s, i)),
{
    broadcast use vstd::utf8::encode_utf8_valid_utf8;

    let bytes = encode_utf8(s);
    let off = byte_offset_of(s, i);
    lemma_byte_offset_mono(s, i, s.len() as int);
    lemma_byte_offset_ends(s);
    if off == bytes.len() {
        vstd::utf8::is_char_boundary_start_end_of_seq(bytes);
    } else {
        assert(i < s.len()) by {
            if i == s.len() {
                assert(off == bytes.len());
            }
        }
        assert(s =~= s.take(i) + s.skip(i));
        lemma_encode_utf8_concat(s.take(i), s.skip(i));
        let suffix = encode_utf8(s.skip(i));
        assert(s.skip(i).len() > 0);
        let c = s.skip(i)[0];
        assert(suffix == encode_scalar(c as u32) + encode_utf8(s.skip(i).drop_first()));
        assert(bytes[off] == suffix[0]);
        let v = c as u32;
        vstd::utf8::char_is_scalar(c);
        assert(!vstd::utf8::is_continuation_byte(suffix[0])) by {
            if vstd::utf8::has_width_1_encoding(v) {
                assert(suffix[0] == vstd::utf8::leading_byte_width_1(v));
                assert((v & 0x7F) < 0x80 ==> !(0x80 <= ((v & 0x7F) as u8) <= 0xbf))
                    by (bit_vector);
                assert(v & 0x7F < 0x80) by (bit_vector);
            } else if vstd::utf8::has_width_2_encoding(v) {
                assert(suffix[0] == vstd::utf8::leading_byte_width_2(v));
                assert((0xC0 | ((v >> 6) & 0x1F) as u8) > 0xbf) by (bit_vector);
            } else if vstd::utf8::has_width_3_encoding(v) {
                assert(suffix[0] == vstd::utf8::leading_byte_width_3(v));
                assert((0xE0 | ((v >> 12) & 0x0F) as u8) > 0xbf) by (bit_vector);
            } else {
                assert(suffix[0] == vstd::utf8::leading_byte_width_4(v));
                assert((0xF0 | ((v >> 18) & 0x7) as u8) > 0xbf) by (bit_vector);
            }
        }
        vstd::utf8::is_char_boundary_iff_not_is_continuation_byte(bytes, off);
    }
}

/// Width in bytes of one character's UTF-8 encoding.
pub fn utf8_char_width(c: char) -> (w: usize)
    ensures
        w == char_width(c),
{
    let u = c as u32;
    if u < 0x80 {
        1
    } else if u < 0x800 {
        2
    } else if u < 0x10000 {
        3
    } else {
        4
    }
}

/// Byte offsets of every character position of `s`, including the final
/// position one past the last character.
pub fn char_byte_offsets(s: &str) -> (offs: Vec<usize>)
    ensures
        offs@.len() == s@.len() + 1,
        forall|i: int| 0 <= i <= s@.len() ==> offs@[i] == byte_offset_of(s@, i),
{
    let n = s.unicode_len();
    let total = s.as_bytes().len();
    proof {
        lemma_byte_offset_ends(s@);
    }
    let mut offs: Vec<usize> = Vec::new();
    let mut off: usize = 0;
    offs.push(0);
    let mut i: usize = 0;
    while i < n
        invariant
            n == s@.len(),
            0 <= i <= n,
            total == encode_utf8(s@).len(),
            off == byte_offset_of(s@, i as int),
            offs@.len() == i + 1,
            forall|k: int| 0 <= k <= i ==> offs@[k] == byte_offset_of(s@, k),
        decreases n - i,
    {
        let c = s.get_char(i);
        let w = utf8_char_width(c);
        proof {
            lemma_byte_offset_step(s@, i as int);
            lemma_byte_offset_mono(s@, i + 1, s@.len() as int);
            lemma_byte_offset_ends(s@);
        }
        off = off + w;
        offs.push(off);
        i = i + 1;
    }
    offs
}

} // verus!
