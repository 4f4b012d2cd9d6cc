//! Byte offsets into the UTF-8 encoding of a text.
use vstd::prelude::*;

use vstd::utf8::{
    char_is_scalar, decode_utf8, encode_scalar, encode_utf8, encode_utf8_decode_utf8,
    encode_utf8_first_scalar, encode_utf8_valid_utf8, is_char_boundary, length_of_first_scalar,
    pop_first_scalar,
};

verus! {

/// The byte offset at which character `k` of `text` begins: the length of
/// the UTF-8 encoding of the characters before it.
pub open spec fn byte_offset(text: Seq<char>, k: int) -> int {
    encode_utf8(text.take(k)).len() as int
}

/// The length of the UTF-8 encoding of `text`.
pub open spec fn byte_len(text: Seq<char>) -> int {
    encode_utf8(text).len() as int
}

/// The number of bytes in the UTF-8 encoding of `c`.
pub open spec fn width(c: char) -> int {
    encode_scalar(c as u32).len() as int
}

/// Encoding a text with one more character appends that character's bytes.
pub proof fn lemma_encode_push(s: Seq<char>, c: char)
    ensures
        encode_utf8(s.push(c)) == encode_utf8(s) + encode_scalar(c as u32),
    decreases s.len(),
{
    if s.len() == 0 {
        assert(s.push(c).drop_first() =~= Seq::<char>::empty());
        assert(encode_utf8(Seq::<char>::empty()) =~= Seq::<u8>::empty());
        assert(encode_utf8(s.push(c)) =~= encode_scalar(c as u32));
        assert(encode_utf8(s) =~= Seq::<u8>::empty());
    } else {
        assert(s.push(c).drop_first() =~= s.drop_first().push(c));
        lemma_encode_push(s.drop_first(), c);
        assert(encode_utf8(s.push(c)) =~= encode_utf8(s) + encode_scalar(c as u32));
    }
}

/// A character takes one to four bytes.
pub proof fn lemma_width_bounds(c: char)
    ensures
        1 <= width(c) <= 4,
{
    char_is_scalar(c);
}

/// Each character moves the offset on by its width.
pub proof fn lemma_byte_offset_step(text: Seq<char>, k: int)
    requires
        0 <= k < text.len(),
    ensures
        byte_offset(text, k + 1) == byte_offset(text, k) + width(text[k]),
        byte_offset(text, k) < byte_offset(text, k + 1),
{
    assert(text.take(k + 1) =~= text.take(k).push(text[k]));
    lemma_encode_push(text.take(k), text[k]);
    lemma_width_bounds(text[k]);
}

/// Offsets grow with the number of characters before them, from zero at
/// the start to the byte length at the end.
pub proof fn lemma_byte_offset_increasing(text: Seq<char>, a: int, b: int)
    requires
        0 <= a < b <= text.len(),
    ensures
        byte_offset(text, a) < byte_offset(text, b),
    decreases b - a,
{
    lemma_byte_offset_step(text, b - 1);
    if a < b - 1 {
        lemma_byte_offset_increasing(text, a, b - 1);
    }
}

/// The first character begins at offset zero and the end of the text lies at
/// its byte length.
pub proof fn lemma_byte_offset_ends(text: Seq<char>)
    ensures
        byte_offset(text, 0) == 0,
        byte_offset(text, text.len() as int) == byte_len(text),
{
    assert(text.take(0) =~= Seq::<char>::empty());
    assert(encode_utf8(Seq::<char>::empty()) =~= Seq::<u8>::empty());
    assert(text.take(text.len() as int) =~= text);
}

/// Encoding two texts one after the other encodes their concatenation.
pub proof fn lemma_encode_concat(a: Seq<char>, b: Seq<char>)
    ensures
        encode_utf8(a + b) == encode_utf8(a) + encode_utf8(b),
    decreases a.len(),
{
    if a.len() == 0 {
        assert(a + b =~= b);
        assert(encode_utf8(a) =~= Seq::<u8>::empty());
        assert(encode_utf8(a) + encode_utf8(b) =~= encode_utf8(b));
    } else {
        assert((a + b).drop_first() =~= a.drop_first() + b);
        lemma_encode_concat(a.drop_first(), b);
        assert(encode_utf8(a + b) =~= encode_utf8(a) + encode_utf8(b));
    }
}

/// The bytes of `text` from the offset of character `j` on encode the
/// characters from `j` on.
pub proof fn lemma_encode_suffix(text: Seq<char>, j: int)
    requires
        0 <= j <= text.len(),
    ensures
        encode_utf8(text).subrange(byte_offset(text, j), byte_len(text)) == encode_utf8(
            text.skip(j),
        ),
        decode_utf8(encode_utf8(text.skip(j))) == text.skip(j),
{
    assert(text =~= text.take(j) + text.skip(j));
    lemma_encode_concat(text.take(j), text.skip(j));
    assert(encode_utf8(text).subrange(byte_offset(text, j), byte_len(text)) =~= encode_utf8(
        text.skip(j),
    ));
    encode_utf8_decode_utf8(text.skip(j));
}

/// The offset of every character, and the end of the text, is a character
/// boundary of its bytes.
pub proof fn lemma_char_boundary(text: Seq<char>, j: int)
    requires
        0 <= j <= text.len(),
    ensures
        is_char_boundary(encode_utf8(text), byte_offset(text, j)),
    decreases j,
{
    let bytes = encode_utf8(text);
    encode_utf8_valid_utf8(text);
    lemma_byte_offset_ends(text);
    if j > 0 {
        let rest = text.drop_first();
        encode_utf8_first_scalar(text);
        assert(pop_first_scalar(bytes) =~= encode_utf8(rest));
        assert(text.take(j).drop_first() =~= rest.take(j - 1));
        assert(byte_offset(text, j) == width(text[0]) + byte_offset(rest, j - 1));
        lemma_char_boundary(rest, j - 1);
        if j < text.len() {
            lemma_byte_offset_increasing(text, j, text.len() as int);
        }
        assert(byte_offset(text, j) - length_of_first_scalar(bytes) == byte_offset(rest, j - 1));
    }
}

/// The number of bytes in the UTF-8 encoding of `c`.
pub fn char_width(c: char) -> (r: usize)
    ensures
        r == width(c),
{
    proof {
        char_is_scalar(c);
    }
    let code = c as u32;
    if code <= 0x7F {
        1
    } else if code <= 0x7FF {
        2
    } else if code <= 0xFFFF {
        3
    } else {
        4
    }
}

} // verus!
