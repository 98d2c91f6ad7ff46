//! Bounds-checked reading of big-endian primitives from a byte buffer, and
//! the decoding capability that every wire type shares.
//!
//! A decoder looks at a buffer from a cursor onwards. When the bytes it needs
//! are there it returns the value and moves the cursor past them; otherwise
//! it returns `None` and leaves the cursor where it was.

use vstd::prelude::*;

verus! {

/// The byte at `pos`, if the buffer reaches that far.
pub open spec fn parse_u8(buf: Seq<u8>, pos: int) -> Option<(u8, int)> {
    if 0 <= pos < buf.len() {
        Some((buf[pos], pos + 1))
    } else {
        None
    }
}

/// The value of two bytes in network order: `hi` is the high-order byte.
pub open spec fn u16_of(hi: u8, lo: u8) -> u16 {
    (hi * 256 + lo) as u16
}

/// The 16-bit big-endian value at `pos`, if two bytes are there.
pub open spec fn parse_u16(buf: Seq<u8>, pos: int) -> Option<(u16, int)> {
    if 0 <= pos && pos + 2 <= buf.len() {
        Some((u16_of(buf[pos], buf[pos + 1]), pos + 2))
    } else {
        None
    }
}

/// The value of four bytes in network order, read as a two's complement
/// 32-bit number.
pub open spec fn i32_of(b0: u8, b1: u8, b2: u8, b3: u8) -> i32 {
    let unsigned = b0 * 0x100_0000 + b1 * 0x1_0000 + b2 * 0x100 + b3;
    if unsigned < 0x8000_0000 {
        unsigned as i32
    } else {
        (unsigned - 0x1_0000_0000) as i32
    }
}

/// The signed 32-bit big-endian value at `pos`, if four bytes are there.
pub open spec fn parse_i32(buf: Seq<u8>, pos: int) -> Option<(i32, int)> {
    if 0 <= pos && pos + 4 <= buf.len() {
        Some((i32_of(buf[pos], buf[pos + 1], buf[pos + 2], buf[pos + 3]), pos + 4))
    } else {
        None
    }
}

/// The character whose code point is the value of `byte`.
pub open spec fn char_of(byte: u8) -> char {
    byte as char
}

/// The byte at `pos` taken as a single-byte character.
pub open spec fn parse_char(buf: Seq<u8>, pos: int) -> Option<(char, int)> {
    if 0 <= pos < buf.len() {
        Some((char_of(buf[pos]), pos + 1))
    } else {
        None
    }
}

/// How the outcome of a decoder relates to what the buffer holds: `parsed`
/// is the value and end position that the wire format gives at `start`, or
/// `None` where it gives none; `value` and `end` are what the decoder
/// returned and where it left the cursor.
pub open spec fn decodes<T: View>(
    parsed: Option<(T::V, int)>,
    start: int,
    value: Option<T>,
    end: int,
) -> bool {
    match parsed {
        Some((v, next)) => value is Some && value->0@ == v && end == next,
        None => value is None && end == start,
    }
}

/// The views of the items of a sequence, in order.
pub open spec fn views<T: View>(items: Seq<T>) -> Seq<T::V> {
    items.map_values(|item: T| item@)
}

/// Reads one byte at the cursor.
pub fn pop_u8(buf: &[u8], cursor: &mut usize) -> (byte: Option<u8>)
    ensures
        decodes(
            parse_u8(buf@, *old(cursor) as int),
            *old(cursor) as int,
            byte,
            *final(cursor) as int,
        ),
{
    if *cursor < buf.len() {
        let lo: u8 = buf[*cursor];
        *cursor = *cursor + 1;
        Some(lo)
    } else {
        None
    }
}

/// Reads a 16-bit big-endian value at the cursor.
pub fn pop_u16(buf: &[u8], cursor: &mut usize) -> (value: Option<u16>)
    ensures
        decodes(
            parse_u16(buf@, *old(cursor) as int),
            *old(cursor) as int,
            value,
            *final(cursor) as int,
        ),
{
    let at: usize = *cursor;
    if at < buf.len() && buf.len() - at >= 2 {
        let hi: u16 = buf[at] as u16;
        let lo: u16 = buf[at + 1] as u16;
        assert((hi << 8) | lo == hi * 256 + lo) by (bit_vector)
            requires
                hi < 256,
                lo < 256,
        ;
        *cursor = at + 2;
        Some((hi << 8) | lo)
    } else {
        None
    }
}

/// Reads a signed 32-bit big-endian value at the cursor.
pub fn pop_i32(buf: &[u8], cursor: &mut usize) -> (value: Option<i32>)
    ensures
        decodes(
            parse_i32(buf@, *old(cursor) as int),
            *old(cursor) as int,
            value,
            *final(cursor) as int,
        ),
{
    let at: usize = *cursor;
    if at < buf.len() && buf.len() - at >= 4 {
        let a: u32 = buf[at] as u32;
        let b: u32 = buf[at + 1] as u32;
        let c: u32 = buf[at + 2] as u32;
        let d: u32 = buf[at + 3] as u32;
        let num: u32 = a << 24 | b << 16 | c << 8 | d;
        assert(num == a * 0x100_0000 + b * 0x1_0000 + c * 0x100 + d) by (bit_vector)
            requires
                a < 256,
                b < 256,
                c < 256,
                d < 256,
                num == a << 24 | b << 16 | c << 8 | d,
        ;
        assert(num < 0x8000_0000 ==> num as i32 == num) by (bit_vector);
        assert(num >= 0x8000_0000 ==> num as i32 == num - 0x1_0000_0000) by (bit_vector);
        *cursor = at + 4;
        Some(#[verifier::truncate] (num as i32))
    } else {
        None
    }
}

/// A type with a wire format: what a buffer holds of it is a matter of the
/// bytes alone.
pub trait Wire: Sized + View {
    /// The value that the wire format places at `pos` in `buf`, with the
    /// position just after it, or `None` where the bytes there are not one.
    spec fn parse(buf: Seq<u8>, pos: int) -> Option<(Self::V, int)>;
}

/// A type that can decode one value of itself from a buffer.
pub trait FromBytes: Wire {
    /// Decodes one value at the cursor, moving the cursor past it on success
    /// and leaving it in place on failure.
    fn from_bytes(buf: &[u8], cursor: &mut usize) -> (value: Option<Self>)
        ensures
            decodes(
                Self::parse(buf@, *old(cursor) as int),
                *old(cursor) as int,
                value,
                *final(cursor) as int,
            ),
    ;
}

impl Wire for u8 {
    open spec fn parse(buf: Seq<u8>, pos: int) -> Option<(u8, int)> {
        parse_u8(buf, pos)
    }
}

impl FromBytes for u8 {
    fn from_bytes(buf: &[u8], cursor: &mut usize) -> (value: Option<u8>) {
        pop_u8(buf, cursor)
    }
}

impl Wire for char {
    open spec fn parse(buf: Seq<u8>, pos: int) -> Option<(char, int)> {
        parse_char(buf, pos)
    }
}

impl FromBytes for char {
    fn from_bytes(buf: &[u8], cursor: &mut usize) -> (value: Option<char>) {
        match pop_u8(buf, cursor) {
            Some(byte) => Some(byte as char),
            None => None,
        }
    }
}

impl Wire for i32 {
    open spec fn parse(buf: Seq<u8>, pos: int) -> Option<(i32, int)> {
        parse_i32(buf, pos)
    }
}

impl FromBytes for i32 {
    fn from_bytes(buf: &[u8], cursor: &mut usize) -> (value: Option<i32>) {
        pop_i32(buf, cursor)
    }
}

/// What `count` consecutive values of `T` starting at `pos` decode to: the
/// values in order and the position after the last, or `None` as soon as one
/// of them is not there.
pub open spec fn parse_many<T: Wire>(buf: Seq<u8>, pos: int, count: nat) -> Option<
    (Seq<T::V>, int),
>
    decreases count,
{
    if count == 0 {
        Some((Seq::empty(), pos))
    } else {
        match parse_many::<T>(buf, pos, (count - 1) as nat) {
            Some((items, mid)) => match T::parse(buf, mid) {
                Some((item, end)) => Some((items.push(item), end)),
                None => None,
            },
            None => None,
        }
    }
}

/// Once a list fails to decode, no longer list at the same place decodes.
pub proof fn lemma_parse_many_failure_persists<T: Wire>(
    buf: Seq<u8>,
    pos: int,
    shorter: nat,
    longer: nat,
)
    requires
        shorter <= longer,
        parse_many::<T>(buf, pos, shorter) is None,
    ensures
        parse_many::<T>(buf, pos, longer) is None,
    decreases longer,
{
    if shorter < longer {
        lemma_parse_many_failure_persists::<T>(buf, pos, shorter, (longer - 1) as nat);
    }
}

/// A list that is cut short fails as a whole: where fewer values than
/// asked for decode and the next one does not, no list is returned.
pub proof fn lemma_short_list_rejected<T: Wire>(buf: Seq<u8>, pos: int, present: nat, count: nat)
    requires
        present < count,
        parse_many::<T>(buf, pos, present) matches Some((_, mid)) && T::parse(buf, mid) is None,
    ensures
        parse_many::<T>(buf, pos, count) is None,
{
    assert(parse_many::<T>(buf, pos, present + 1) is None);
    lemma_parse_many_failure_persists::<T>(buf, pos, present + 1, count);
}

/// A list of single-byte characters is there exactly when that many bytes
/// are, and holds the characters of those bytes.
pub proof fn lemma_parse_many_chars(buf: Seq<u8>, pos: int, count: nat)
    requires
        0 <= pos <= buf.len(),
    ensures
        parse_many::<char>(buf, pos, count) == if pos + count <= buf.len() {
            Some((buf.subrange(pos, pos + count).map_values(|byte: u8| char_of(byte)), pos + count))
        } else {
            None
        },
    decreases count,
{
    if count > 0 {
        lemma_parse_many_chars(buf, pos, (count - 1) as nat);
        if pos + count <= buf.len() {
            let shorter = buf.subrange(pos, pos + count - 1).map_values(|byte: u8| char_of(byte));
            let longer = buf.subrange(pos, pos + count).map_values(|byte: u8| char_of(byte));
            assert(longer =~= shorter.push(char_of(buf[pos + count - 1])));
        }
    }
}

/// A list of bytes is there exactly when that many bytes are, and holds them.
pub proof fn lemma_parse_many_bytes(buf: Seq<u8>, pos: int, count: nat)
    requires
        0 <= pos <= buf.len(),
    ensures
        parse_many::<u8>(buf, pos, count) == if pos + count <= buf.len() {
            Some((buf.subrange(pos, pos + count), pos + count))
        } else {
            None
        },
    decreases count,
{
    if count > 0 {
        lemma_parse_many_bytes(buf, pos, (count - 1) as nat);
        if pos + count <= buf.len() {
            assert(buf.subrange(pos, pos + count) =~= buf.subrange(pos, pos + count - 1).push(
                buf[pos + count - 1],
            ));
        }
    }
}

/// Decodes exactly `count` values of `T` one after the other. The list is
/// returned only if every one of them decodes, and the cursor stands after
/// the last. If any of them fails, so does the list, and the cursor stays.
pub fn pop_collection<T: FromBytes>(buf: &[u8], cursor: &mut usize, count: usize) -> (items:
    Option<Vec<T>>)
    ensures
        match parse_many::<T>(buf@, *old(cursor) as int, count as nat) {
            Some((values, end)) => items is Some && views(items->0@) == values && *final(cursor)
                == end,
            None => items is None && *final(cursor) == *old(cursor),
        },
{
    let start: usize = *cursor;
    let mut c: usize = start;
    let mut vec: Vec<T> = Vec::new();
    let mut i: usize = 0;
    while i < count
        invariant
            i <= count,
            *cursor == start,
            parse_many::<T>(buf@, start as int, i as nat) == Some((views(vec@), c as int)),
        decreases count - i,
    {
        match T::from_bytes(buf, &mut c) {
            Some(item) => {
                vec.push(item);
            },
            None => {
                proof {
                    lemma_parse_many_failure_persists::<T>(
                        buf@,
                        start as int,
                        (i + 1) as nat,
                        count as nat,
                    );
                }
                return None;
            },
        }
        i += 1;
    }
    *cursor = c;
    Some(vec)
}

} // verus!
