//! Big-endian output primitives and hexadecimal rendering of byte buffers.

use vstd::prelude::*;

verus! {

/// The two bytes of `num` in network order: high byte first.
pub open spec fn u16_wire(num: u16) -> Seq<u8> {
    seq![(num / 256) as u8, (num % 256) as u8]
}

/// Splits a 16-bit value into its high and low byte.
pub fn pair(num: u16) -> (bytes: (u8, u8))
    ensures
        bytes.0 == num / 256,
        bytes.1 == num % 256,
        seq![bytes.0, bytes.1] == u16_wire(num),
{
    assert((num >> 8) & 0xff == num / 256) by (bit_vector);
    assert(num & 0xff == num % 256) by (bit_vector);
    let hi: u8 = ((num >> 8) & 0xff) as u8;
    let lo: u8 = (num & 0xff) as u8;
    (hi, lo)
}

/// Appends `num` to `buf` in network order.
pub fn push_u16(buf: &mut Vec<u8>, num: u16)
    ensures
        final(buf)@ == old(buf)@ + u16_wire(num),
{
    let (a, b) = pair(num);
    buf.push(a);
    buf.push(b);
}

/// The four bytes of `num` in network order, as a two's complement number.
pub open spec fn i32_wire(num: i32) -> Seq<u8> {
    let unsigned = if num >= 0 {
        num as int
    } else {
        num + 0x1_0000_0000
    };
    seq![
        (unsigned / 0x100_0000) as u8,
        (unsigned / 0x1_0000 % 256) as u8,
        (unsigned / 0x100 % 256) as u8,
        (unsigned % 256) as u8,
    ]
}

/// Appends `num` to `buf` in network order.
pub fn push_i32(buf: &mut Vec<u8>, num: i32)
    ensures
        final(buf)@ == old(buf)@ + i32_wire(num),
{
    let bits: u32 = #[verifier::truncate] (num as u32);
    assert(num >= 0 ==> bits == num) by (bit_vector)
        requires
            bits == num as u32,
    ;
    assert(num < 0 ==> bits == num + 0x1_0000_0000) by (bit_vector)
        requires
            bits == num as u32,
    ;
    assert((bits >> 24) & 0xff == bits / 0x100_0000) by (bit_vector);
    assert((bits >> 16) & 0xff == bits / 0x1_0000 % 256) by (bit_vector);
    assert((bits >> 8) & 0xff == bits / 0x100 % 256) by (bit_vector);
    assert(bits & 0xff == bits % 256) by (bit_vector);
    buf.push(((bits >> 24) & 0xff) as u8);
    buf.push(((bits >> 16) & 0xff) as u8);
    buf.push(((bits >> 8) & 0xff) as u8);
    buf.push((bits & 0xff) as u8);
    assert(buf@ =~= old(buf)@ + i32_wire(num));
}

/// The lower-case hexadecimal digit for a value below sixteen.
pub open spec fn hex_digit(nibble: u8) -> char {
    if nibble < 10 {
        (nibble + 48) as char
    } else {
        (nibble + 87) as char
    }
}

/// The text of `bytes` in hexadecimal: two lower-case digits per byte, high
/// digit first, with nothing between the bytes.
pub open spec fn hex_text(bytes: Seq<u8>) -> Seq<char>
    decreases bytes.len(),
{
    if bytes.len() == 0 {
        Seq::empty()
    } else {
        hex_text(bytes.drop_last()).push(hex_digit(bytes.last() / 16)).push(
            hex_digit(bytes.last() % 16),
        )
    }
}

/// `String::push` of the standard library: the character is appended at the
/// end of the string and nothing else changes.
#[verifier::external_body]
pub(crate) fn push_char(text: &mut String, c: char)
    ensures
        final(text)@ == old(text)@.push(c),
{
    text.push(c);
}

fn hex_char(nibble: u8) -> (c: char)
    requires
        nibble < 16,
    ensures
        c == hex_digit(nibble),
{
    if nibble < 10 {
        (nibble + 48) as char
    } else {
        (nibble + 87) as char
    }
}

/// Renders `buffer` as lower-case hexadecimal text, two digits per byte.
pub fn to_hex_bytes(buffer: &[u8]) -> (text: String)
    ensures
        text@ == hex_text(buffer@),
{
    let mut text = String::new();
    let mut i: usize = 0;
    while i < buffer.len()
        invariant
            i <= buffer@.len(),
            text@ == hex_text(buffer@.take(i as int)),
        decreases buffer@.len() - i,
    {
        let byte: u8 = buffer[i];
        push_char(&mut text, hex_char(byte / 16));
        push_char(&mut text, hex_char(byte % 16));
        assert(buffer@.take(i + 1).drop_last() == buffer@.take(i as int));
        i += 1;
    }
    assert(buffer@.take(i as int) == buffer@);
    text
}

} // verus!
