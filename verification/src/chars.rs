//! Character classes of the master-file format, and the byte form of a
//! character as it is stored in a token.

use vstd::prelude::*;
use vstd::utf8::{encode_scalar, encode_utf8};

verus! {

/// A space or a horizontal tab: the two characters that separate the items
/// of an entry.
pub open spec fn is_blank(c: char) -> bool {
    c == ' ' || c == '\t'
}

/// A carriage return or a line feed.
pub open spec fn is_line_break(c: char) -> bool {
    c == '\r' || c == '\n'
}

/// A control character: U+0000 to U+001F and U+007F to U+009F.
pub open spec fn is_control(c: char) -> bool {
    c as u32 <= 0x1f || 0x7f <= c as u32 <= 0x9f
}

/// An ASCII decimal digit.
pub open spec fn is_digit(c: char) -> bool {
    '0' <= c <= '9'
}

/// The value of an ASCII decimal digit.
pub open spec fn digit_value(c: char) -> int
    recommends
        is_digit(c),
{
    c as u32 - '0' as u32
}

/// A character that ends an unquoted field without belonging to it.
pub open spec fn ends_field(c: char) -> bool {
    is_blank(c) || is_line_break(c) || c == ';' || c == '(' || c == ')'
}

/// The bytes that stand for `c` in a token: its UTF-8 encoding.
pub open spec fn char_bytes(c: char) -> Seq<u8> {
    encode_scalar(c as u32)
}

#[verifier::when_used_as_spec(is_blank)]
pub fn blank(c: char) -> (r: bool)
    ensures
        r == is_blank(c),
{
    c == ' ' || c == '\t'
}

#[verifier::when_used_as_spec(is_line_break)]
pub fn line_break(c: char) -> (r: bool)
    ensures
        r == is_line_break(c),
{
    c == '\r' || c == '\n'
}

#[verifier::when_used_as_spec(is_control)]
pub fn control(c: char) -> (r: bool)
    ensures
        r == is_control(c),
{
    let v: u32 = c as u32;
    v <= 0x1f || (0x7f <= v && v <= 0x9f)
}

#[verifier::when_used_as_spec(is_digit)]
pub fn digit(c: char) -> (r: bool)
    ensures
        r == is_digit(c),
{
    '0' <= c && c <= '9'
}

/// The value of the digit `c`, as a byte.
pub fn digit_of(c: char) -> (r: u8)
    requires
        is_digit(c),
    ensures
        r == digit_value(c),
        r <= 9,
{
    let v: u32 = c as u32;
    (v - 0x30) as u8
}

#[verifier::when_used_as_spec(ends_field)]
pub fn field_end(c: char) -> (r: bool)
    ensures
        r == ends_field(c),
{
    blank(c) || line_break(c) || c == ';' || c == '(' || c == ')'
}

/// Appends the UTF-8 encoding of `c` to `buf`.
pub fn push_char(buf: &mut Vec<u8>, c: char)
    ensures
        final(buf)@ == old(buf)@ + char_bytes(c),
{
    let v: u32 = c as u32;
    if v <= 0x7f {
        assert((v & 0x7f) <= 0xff) by (bit_vector);
        buf.push((v & 0x7f) as u8);
    } else if v <= 0x7ff {
        assert(((v >> 6) & 0x1f) <= 0xff && (v & 0x3f) <= 0xff) by (bit_vector);
        buf.push(0xc0 | ((v >> 6) & 0x1f) as u8);
        buf.push(0x80 | (v & 0x3f) as u8);
    } else if v <= 0xffff {
        assert(((v >> 12) & 0x0f) <= 0xff && ((v >> 6) & 0x3f) <= 0xff && (v & 0x3f) <= 0xff)
            by (bit_vector);
        buf.push(0xe0 | ((v >> 12) & 0x0f) as u8);
        buf.push(0x80 | ((v >> 6) & 0x3f) as u8);
        buf.push(0x80 | (v & 0x3f) as u8);
    } else {
        assert(((v >> 18) & 0x7) <= 0xff && ((v >> 12) & 0x3f) <= 0xff && ((v >> 6) & 0x3f)
            <= 0xff && (v & 0x3f) <= 0xff) by (bit_vector);
        buf.push(0xf0 | ((v >> 18) & 0x7) as u8);
        buf.push(0x80 | ((v >> 12) & 0x3f) as u8);
        buf.push(0x80 | ((v >> 6) & 0x3f) as u8);
        buf.push(0x80 | (v & 0x3f) as u8);
    }
    assert(buf@ =~= old(buf)@ + char_bytes(c));
}

/// The encoding of a text with one more character is the encoding of the
/// text, then the bytes of the character.
pub proof fn lemma_encode_push(text: Seq<char>, c: char)
    ensures
        encode_utf8(text.push(c)) == encode_utf8(text) + char_bytes(c),
    decreases text.len(),
{
    if text.len() == 0 {
        assert(text.push(c).drop_first() =~= Seq::<char>::empty());
        assert(encode_utf8(text.push(c)) =~= char_bytes(c) + encode_utf8(Seq::<char>::empty()));
        assert(encode_utf8(Seq::<char>::empty()) =~= Seq::<u8>::empty());
        assert(encode_utf8(text) =~= Seq::<u8>::empty());
        assert(encode_utf8(text.push(c)) =~= encode_utf8(text) + char_bytes(c));
    } else {
        let rest = text.drop_first();
        lemma_encode_push(rest, c);
        assert(text.push(c).drop_first() =~= rest.push(c));
        assert(encode_utf8(text.push(c)) == char_bytes(text[0]) + encode_utf8(rest.push(c)));
        assert(char_bytes(text[0]) + (encode_utf8(rest) + char_bytes(c)) =~= (char_bytes(text[0])
            + encode_utf8(rest)) + char_bytes(c));
    }
}

} // verus!
