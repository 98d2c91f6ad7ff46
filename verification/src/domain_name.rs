//! Domain names: the dotted text form, the wire form of length-prefixed
//! labels, and the compression pointer that may end a name on the wire.

use crate::deserialization::{
    char_of, lemma_parse_many_chars, pop_collection, pop_u8, FromBytes, Wire,
};
use crate::serialization::push_char;
use vstd::prelude::*;
use vstd::slice::slice_subrange;
use vstd::utf8::encode_utf8;

verus! {

/// The byte that separates the labels of a name in its text form.
pub const DOT: u8 = 0x2e;

/// One more than the number of length bytes that decoding a single name may
/// read: a name that needs this many rounds is rejected.
pub const MAX_ROUNDS: usize = 256;

/// The smallest first byte of a compression pointer: both top bits set.
pub const POINTER_TAG: u8 = 0xc0;

/// A domain name, either complete or cut short by a compression pointer.
#[derive(Debug, Clone, PartialEq, Eq)]
pub enum DomainName {
    /// A complete name in its text form: the labels joined by dots.
    Simple(String),
    /// The labels read before a compression pointer, joined by dots, and the
    /// offset into the message at which the rest of the name is found.
    Compressed(String, u16),
}

/// The mathematical value of a [`DomainName`].
pub enum NameView {
    Simple(Seq<char>),
    Compressed(Seq<char>, u16),
}

impl NameView {
    /// The text that the name carries, whichever form it has.
    pub open spec fn text(self) -> Seq<char> {
        match self {
            NameView::Simple(text) => text,
            NameView::Compressed(text, _) => text,
        }
    }
}

impl View for DomainName {
    type V = NameView;

    open spec fn view(&self) -> NameView {
        match self {
            DomainName::Simple(text) => NameView::Simple(text@),
            DomainName::Compressed(text, offset) => NameView::Compressed(text@, *offset),
        }
    }
}

/// The pieces of `bytes` between its dots. There is always at least one
/// piece, and a piece is empty where two dots meet or a dot stands at an end.
pub open spec fn split_dots(bytes: Seq<u8>) -> Seq<Seq<u8>>
    decreases bytes.len(),
{
    if bytes.len() == 0 {
        seq![Seq::empty()]
    } else {
        let before = split_dots(bytes.drop_last());
        if bytes.last() == DOT {
            before.push(Seq::empty())
        } else {
            before.drop_last().push(before.last().push(bytes.last()))
        }
    }
}

/// The labels of a name given by the bytes of its text: the empty text has
/// no label, any other text has the pieces between its dots.
pub open spec fn labels_of(bytes: Seq<u8>) -> Seq<Seq<u8>> {
    if bytes.len() == 0 {
        Seq::empty()
    } else {
        split_dots(bytes)
    }
}

/// The labels joined by dots.
pub open spec fn join_dots(labels: Seq<Seq<u8>>) -> Seq<u8>
    decreases labels.len(),
{
    if labels.len() == 0 {
        Seq::empty()
    } else if labels.len() == 1 {
        labels[0]
    } else {
        join_dots(labels.drop_last()).push(DOT) + labels.last()
    }
}

/// One label on the wire: its length in one byte, and its bytes. A length
/// that does not fit in the byte is cut to its low eight bits.
pub open spec fn label_wire(label: Seq<u8>) -> Seq<u8> {
    seq![(label.len() % 256) as u8] + label
}

/// The labels on the wire, one after the other.
pub open spec fn labels_wire(labels: Seq<Seq<u8>>) -> Seq<u8>
    decreases labels.len(),
{
    if labels.len() == 0 {
        Seq::empty()
    } else {
        labels_wire(labels.drop_last()) + label_wire(labels.last())
    }
}

/// The wire form of the name whose text has the given bytes: its labels,
/// closed by a single zero byte.
pub open spec fn name_wire(bytes: Seq<u8>) -> Seq<u8> {
    labels_wire(labels_of(bytes)).push(0u8)
}

/// The text whose characters have the given bytes as their code points.
pub open spec fn latin1(bytes: Seq<u8>) -> Seq<char> {
    bytes.map_values(|byte: u8| char_of(byte))
}

/// The offset that a compression pointer holds: the low six bits of its
/// first byte, followed by its second byte.
pub open spec fn pointer_offset(first: u8, second: u8) -> u16 {
    ((first % 64) * 256 + second) as u16
}

/// What the bytes at `pos` decode to when `labels` have been read already.
///
/// Each round reads one length byte. Zero ends the name. A byte with both top
/// bits set is the first half of a compression pointer, which ends the name
/// too. Any other value is the length of a label that follows. A name that
/// has not ended when 255 labels have been read is rejected, and so is one
/// that runs past the end of the buffer.
pub open spec fn parse_name_from(buf: Seq<u8>, pos: int, labels: Seq<Seq<u8>>) -> Option<
    (NameView, int),
>
    decreases MAX_ROUNDS - labels.len(),
{
    if labels.len() + 1 >= MAX_ROUNDS || !(0 <= pos < buf.len()) {
        None
    } else {
        let len = buf[pos];
        if len == 0 {
            Some((NameView::Simple(latin1(join_dots(labels))), pos + 1))
        } else if len >= POINTER_TAG {
            if pos + 1 < buf.len() {
                Some(
                    (
                        NameView::Compressed(
                            latin1(join_dots(labels)),
                            pointer_offset(len, buf[pos + 1]),
                        ),
                        pos + 2,
                    ),
                )
            } else {
                None
            }
        } else if pos + 1 + len <= buf.len() {
            parse_name_from(
                buf,
                pos + 1 + len,
                labels.push(buf.subrange(pos + 1, pos + 1 + len)),
            )
        } else {
            None
        }
    }
}

/// The name that starts at `pos`, with the position just after it.
pub open spec fn parse_name(buf: Seq<u8>, pos: int) -> Option<(NameView, int)> {
    parse_name_from(buf, pos, Seq::empty())
}

/// Appends one label in its wire form: the length byte and the bytes of
/// `text` from `start` up to `end`.
fn push_label(buf: &mut Vec<u8>, text: &[u8], start: usize, end: usize)
    requires
        start <= end <= text@.len(),
    ensures
        final(buf)@ == old(buf)@ + label_wire(text@.subrange(start as int, end as int)),
{
    let len: usize = end - start;
    assert(len as u8 == len % 256) by (bit_vector);
    buf.push(#[verifier::truncate] (len as u8));
    buf.extend_from_slice(slice_subrange(text, start, end));
}

impl DomainName {
    /// The complete name with the given text.
    pub fn new(name: &str) -> (result: DomainName)
        ensures
            result@ == NameView::Simple(name@),
    {
        DomainName::Simple(name.to_owned())
    }

    /// The name without labels.
    pub fn empty() -> (result: DomainName)
        ensures
            result@ == NameView::Simple(Seq::<char>::empty()),
    {
        proof {
            reveal_strlit("");
        }
        let result = DomainName::new("");
        assert(result@->Simple_0 =~= Seq::<char>::empty());
        result
    }

    /// Whether the name is complete, as encoding requires.
    pub fn is_simple(&self) -> (simple: bool)
        ensures
            simple == (self is Simple),
    {
        match self {
            DomainName::Simple(_) => true,
            DomainName::Compressed(_, _) => false,
        }
    }

    /// The bytes of the name's text, as the string holds them.
    pub open spec fn text_bytes(&self) -> Seq<u8> {
        encode_utf8(self@.text())
    }

    /// Encodes a complete name: every label of the text with its length in
    /// front, and a zero byte at the end.
    pub fn to_bytes(&self) -> (wire: Vec<u8>)
        requires
            self is Simple,
        ensures
            wire@ == name_wire(self.text_bytes()),
    {
        match self {
            DomainName::Simple(inner) => {
                let text: &[u8] = inner.as_str().as_bytes();
                let n: usize = text.len();
                let mut buf: Vec<u8> = Vec::with_capacity(n);
                if n > 0 {
                    let ghost mut done: Seq<Seq<u8>> = Seq::empty();
                    let mut start: usize = 0;
                    let mut i: usize = 0;
                    assert(text@.subrange(0, 0) =~= Seq::<u8>::empty());
                    while i < n
                        invariant
                            n == text@.len(),
                            start <= i <= n,
                            split_dots(text@.take(i as int)) == done.push(
                                text@.subrange(start as int, i as int),
                            ),
                            buf@ == labels_wire(done),
                        decreases n - i,
                    {
                        proof {
                            assert(text@.take(i + 1).drop_last() == text@.take(i as int));
                        }
                        if text[i] == DOT {
                            push_label(&mut buf, text, start, i);
                            proof {
                                let label = text@.subrange(start as int, i as int);
                                assert(done.push(label).drop_last() == done);
                                done = done.push(label);
                            }
                            start = i + 1;
                            assert(text@.subrange(start as int, i + 1) == Seq::<u8>::empty());
                        } else {
                            assert(text@.subrange(start as int, i + 1) == text@.subrange(
                                start as int,
                                i as int,
                            ).push(text@[i as int]));
                        }
                        i += 1;
                    }
                    push_label(&mut buf, text, start, n);
                    proof {
                        let label = text@.subrange(start as int, n as int);
                        assert(text@.take(n as int) == text@);
                        assert(done.push(label).drop_last() == done);
                    }
                }
                buf.push(0);
                buf
            },
            DomainName::Compressed(_, _) => vstd::pervasive::unreached(),
        }
    }
}

/// Appending a label to the labels read so far appends it to their dotted
/// text, after a dot unless it is the first.
pub proof fn lemma_dotted_push(labels: Seq<Seq<u8>>, label: Seq<u8>)
    ensures
        latin1(join_dots(labels.push(label))) == if labels.len() == 0 {
            latin1(label)
        } else {
            latin1(join_dots(labels)).push('.') + latin1(label)
        },
{
    assert(labels.push(label).drop_last() == labels);
}

impl Wire for DomainName {
    open spec fn parse(buf: Seq<u8>, pos: int) -> Option<(NameView, int)> {
        parse_name(buf, pos)
    }
}

impl FromBytes for DomainName {
    /// Decodes a name at the cursor. A compression pointer is returned as
    /// found, with the labels before it; it is not followed.
    fn from_bytes(buf: &[u8], cursor: &mut usize) -> (value: Option<DomainName>) {
        let start: usize = *cursor;
        let mut c: usize = start;
        let mut text = String::new();
        let mut counter: usize = 0;
        let ghost mut labels: Seq<Seq<u8>> = Seq::empty();
        loop
            invariant
                *cursor == start,
                *old(cursor) == start,
                counter == labels.len(),
                counter < MAX_ROUNDS,
                text@ == latin1(join_dots(labels)),
                parse_name_from(buf@, c as int, labels) == parse_name(buf@, start as int),
            decreases MAX_ROUNDS - counter,
        {
            counter += 1;
            if counter >= MAX_ROUNDS {
                return None;
            }
            let at: usize = c;
            let len: u8 = match pop_u8(buf, &mut c) {
                Some(byte) => byte,
                None => {
                    return None;
                },
            };
            if len == 0 {
                *cursor = c;
                return Some(DomainName::Simple(text));
            }
            assert((len & 0xc0 == 0xc0) == (len >= 0xc0)) by (bit_vector);
            if (len & 0xc0) == 0xc0 {
                let lo: u8 = match pop_u8(buf, &mut c) {
                    Some(byte) => byte,
                    None => {
                        return None;
                    },
                };
                let hi: u16 = ((len & 0x3f) as u16) << 8;
                let pointer: u16 = hi | (lo as u16);
                assert(pointer == (len % 64) * 256 + lo) by (bit_vector)
                    requires
                        hi == ((len & 0x3f) as u16) << 8,
                        pointer == hi | (lo as u16),
                ;
                *cursor = c;
                return Some(DomainName::Compressed(text, pointer));
            }
            proof {
                lemma_parse_many_chars(buf@, c as int, len as nat);
            }
            let chars: Vec<char> = match pop_collection::<char>(buf, &mut c, len as usize) {
                Some(list) => list,
                None => {
                    return None;
                },
            };
            let ghost label = buf@.subrange(at + 1, at + 1 + len);
            proof {
                lemma_dotted_push(labels, label);
            }
            if counter > 1 {
                push_char(&mut text, '.');
            }
            let ghost head = text@;
            let mut k: usize = 0;
            while k < chars.len()
                invariant
                    k <= chars@.len(),
                    text@ == head + chars@.take(k as int),
                decreases chars@.len() - k,
            {
                push_char(&mut text, chars[k]);
                k += 1;
            }
            proof {
                labels = labels.push(label);
            }
        }
    }
}

} // verus!
