//! What encoding and decoding owe each other: the laws of the wire format,
//! each stated for every input and proved.

use crate::deserialization::{
    lemma_short_list_rejected, parse_i32, parse_many, parse_u16, parse_u8,
};
use crate::domain_name::{
    join_dots, label_wire, labels_of, labels_wire, latin1, name_wire, parse_name, parse_name_from,
    pointer_offset, split_dots, NameView, DOT, MAX_ROUNDS, POINTER_TAG,
};
use crate::packet::{
    header_wire, message_header, message_wire, parse_header, parse_packet, parse_question,
    query_header, query_wire, question_wire, questions_wire, records_wire, Header, PacketView,
    Question, QuestionView, HEADER_LEN,
};
use crate::record::{
    content_wire, data_len_wire, parse_content, parse_record, record_wire, Class, ContentView,
    Kind, Record, RecordView,
};
use crate::serialization::{i32_wire, u16_wire};
use vstd::prelude::*;
use vstd::utf8::{encode_utf8, is_ascii_chars, is_ascii_chars_encode_utf8};

verus! {

/// Whether `buf` holds the bytes `wire` from position `pos` on.
#[verifier::opaque]
pub open spec fn holds_at(buf: Seq<u8>, pos: int, wire: Seq<u8>) -> bool {
    &&& 0 <= pos
    &&& pos + wire.len() <= buf.len()
    &&& buf.subrange(pos, pos + wire.len()) == wire
}

/// A buffer that holds two runs of bytes joined holds each of them, the
/// second right after the first.
pub proof fn lemma_holds_at_split(buf: Seq<u8>, pos: int, first: Seq<u8>, second: Seq<u8>)
    requires
        holds_at(buf, pos, first + second),
    ensures
        holds_at(buf, pos, first),
        holds_at(buf, pos + first.len(), second),
{
    reveal(holds_at);
    let whole = first + second;
    assert(buf.subrange(pos, pos + first.len()) =~= whole.subrange(0, first.len() as int));
    assert(whole.subrange(0, first.len() as int) =~= first);
    assert(buf.subrange(pos + first.len(), pos + first.len() + second.len()) =~= whole.subrange(
        first.len() as int,
        whole.len() as int,
    ));
    assert(whole.subrange(first.len() as int, whole.len() as int) =~= second);
}

/// Splitting at the dots always gives at least one piece.
pub proof fn lemma_split_dots_nonempty(bytes: Seq<u8>)
    ensures
        split_dots(bytes).len() >= 1,
    decreases bytes.len(),
{
    if bytes.len() > 0 {
        lemma_split_dots_nonempty(bytes.drop_last());
    }
}

/// Joining the pieces of a text by dots gives the text back.
pub proof fn lemma_join_split(bytes: Seq<u8>)
    ensures
        join_dots(split_dots(bytes)) == bytes,
        join_dots(labels_of(bytes)) == bytes,
    decreases bytes.len(),
{
    if bytes.len() > 0 {
        let shorter = bytes.drop_last();
        let before = split_dots(shorter);
        let after = split_dots(bytes);
        lemma_split_dots_nonempty(shorter);
        lemma_join_split(shorter);
        if bytes.last() == DOT {
            assert(after.drop_last() =~= before);
        } else if before.len() > 1 {
            assert(after.drop_last() =~= before.drop_last());
        }
        assert(shorter.push(bytes.last()) =~= bytes);
    }
}

/// Text of ASCII characters is the text that its own bytes spell.
pub proof fn lemma_latin1_of_ascii(text: Seq<char>)
    requires
        is_ascii_chars(text),
    ensures
        encode_utf8(text).len() == text.len(),
        latin1(encode_utf8(text)) == text,
{
    is_ascii_chars_encode_utf8(text);
    let bytes = encode_utf8(text);
    assert forall|i: int| 0 <= i < text.len() implies latin1(bytes)[i] == text[i] by {
        assert(bytes[i] == text[i] as u8);
    }
}

/// Whether a label can be told from the end of a name and from a
/// compression pointer by its length byte: it is not empty, and shorter than
/// the smallest pointer tag.
pub open spec fn is_plain_label(label: Seq<u8>) -> bool {
    1 <= label.len() < POINTER_TAG
}

/// Whether every one of the labels is plain.
pub open spec fn all_plain(labels: Seq<Seq<u8>>) -> bool {
    forall|i: int| 0 <= i < labels.len() ==> is_plain_label(#[trigger] labels[i])
}

/// Whether a name survives the wire: its text is ASCII, its labels are plain,
/// and there are few enough of them for the decoder to read them all.
#[verifier::opaque]
pub open spec fn is_plain_name(text: Seq<char>) -> bool {
    let labels = labels_of(encode_utf8(text));
    &&& is_ascii_chars(text)
    &&& labels.len() + 1 < MAX_ROUNDS
    &&& all_plain(labels)
}

/// The wire form of two runs of labels is the wire form of the first
/// followed by that of the second.
pub proof fn lemma_labels_wire_concat(first: Seq<Seq<u8>>, second: Seq<Seq<u8>>)
    ensures
        labels_wire(first + second) == labels_wire(first) + labels_wire(second),
    decreases second.len(),
{
    if second.len() > 0 {
        lemma_labels_wire_concat(first, second.drop_last());
        assert((first + second).drop_last() =~= first + second.drop_last());
    }
}

/// The labels on the wire take one byte more than the labels joined by
/// dots, and a name on the wire one more again: two more than a text that is
/// not empty, and a single byte for the empty text.
pub proof fn lemma_name_wire_len(bytes: Seq<u8>)
    ensures
        name_wire(bytes).len() == if bytes.len() == 0 {
            1
        } else {
            bytes.len() + 2
        },
{
    if bytes.len() > 0 {
        lemma_split_dots_nonempty(bytes);
        lemma_join_split(bytes);
        lemma_labels_wire_len(split_dots(bytes));
    }
}

/// One or more labels on the wire take one byte more than the labels joined
/// by dots.
pub proof fn lemma_labels_wire_len(labels: Seq<Seq<u8>>)
    requires
        labels.len() >= 1,
    ensures
        labels_wire(labels).len() == join_dots(labels).len() + 1,
    decreases labels.len(),
{
    if labels.len() == 1 {
        assert(labels_wire(labels.drop_last()) =~= Seq::<u8>::empty());
    } else {
        lemma_labels_wire_len(labels.drop_last());
    }
}

/// Every name on the wire ends with a zero byte, and the name without
/// labels is that byte alone.
pub proof fn lemma_name_wire_ends_with_zero(bytes: Seq<u8>)
    ensures
        name_wire(bytes).len() >= 1,
        name_wire(bytes).last() == 0,
        name_wire(Seq::<u8>::empty()) == seq![0u8],
{
    assert(name_wire(Seq::<u8>::empty()) =~= seq![0u8]);
}

/// Plain labels on the wire are read back one by one: decoding from their
/// start comes to stand after the last of them with all of them read.
pub proof fn lemma_parse_labels(buf: Seq<u8>, pos: int, labels: Seq<Seq<u8>>)
    requires
        all_plain(labels),
        labels.len() < MAX_ROUNDS,
        holds_at(buf, pos, labels_wire(labels)),
    ensures
        parse_name(buf, pos) == parse_name_from(buf, pos + labels_wire(labels).len(), labels),
    decreases labels.len(),
{
    reveal(holds_at);
    if labels.len() == 0 {
        assert(labels =~= Seq::<Seq<u8>>::empty());
    } else {
        let front = labels.drop_last();
        let last = labels.last();
        lemma_holds_at_split(buf, pos, labels_wire(front), label_wire(last));
        lemma_parse_labels(buf, pos, front);
        let at = pos + labels_wire(front).len();
        let wire = label_wire(last);
        assert(buf[at] == buf.subrange(at, at + wire.len())[0]);
        assert(buf.subrange(at + 1, at + 1 + last.len()) =~= wire.subrange(1, wire.len() as int));
        assert(wire.subrange(1, wire.len() as int) =~= last);
        assert(front.push(last) =~= labels);
    }
}

/// A complete plain name is read back from its wire form as it was, and the
/// decoder comes to stand right after the closing zero byte.
pub proof fn lemma_name_round_trip(text: Seq<char>, buf: Seq<u8>, pos: int)
    requires
        is_plain_name(text),
        holds_at(buf, pos, name_wire(encode_utf8(text))),
    ensures
        parse_name(buf, pos) == Some(
            (NameView::Simple(text), pos + name_wire(encode_utf8(text)).len()),
        ),
{
    reveal(is_plain_name);
    reveal(holds_at);
    let bytes = encode_utf8(text);
    let labels = labels_of(bytes);
    let wire = labels_wire(labels);
    assert(name_wire(bytes) =~= wire + seq![0u8]);
    lemma_holds_at_split(buf, pos, wire, seq![0u8]);
    lemma_parse_labels(buf, pos, labels);
    let at = pos + wire.len();
    assert(buf[at] == buf.subrange(at, at + 1)[0]);
    lemma_join_split(bytes);
    lemma_latin1_of_ascii(text);
}

/// A complete plain name is read back from its wire form, whatever follows
/// it in the buffer.
pub proof fn theorem_name_round_trip(text: Seq<char>, rest: Seq<u8>)
    requires
        is_plain_name(text),
    ensures
        parse_name(name_wire(encode_utf8(text)) + rest, 0) == Some(
            (NameView::Simple(text), name_wire(encode_utf8(text)).len() as int),
        ),
{
    reveal(holds_at);
    let wire = name_wire(encode_utf8(text));
    let buf = wire + rest;
    assert(holds_at(buf, 0, wire)) by {
        assert(buf.subrange(0, wire.len() as int) =~= wire);
    }
    lemma_name_round_trip(text, buf, 0);
}

/// A compression pointer after any plain labels is read as a compressed
/// name: the text of those labels, and the offset that the low six bits of
/// the first byte and the second byte spell. The decoder comes to stand right
/// after the pointer.
pub proof fn lemma_pointer_after_labels(
    buf: Seq<u8>,
    pos: int,
    labels: Seq<Seq<u8>>,
    first: u8,
    second: u8,
)
    requires
        all_plain(labels),
        labels.len() + 1 < MAX_ROUNDS,
        first >= POINTER_TAG,
        holds_at(buf, pos, labels_wire(labels) + seq![first, second]),
    ensures
        parse_name(buf, pos) == Some(
            (
                NameView::Compressed(latin1(join_dots(labels)), pointer_offset(first, second)),
                pos + labels_wire(labels).len() + 2,
            ),
        ),
        first == 0xc0 ==> pointer_offset(first, second) == second,
{
    reveal(holds_at);
    let wire = labels_wire(labels);
    lemma_holds_at_split(buf, pos, wire, seq![first, second]);
    lemma_parse_labels(buf, pos, labels);
    let at = pos + wire.len();
    assert(buf[at] == buf.subrange(at, at + 2)[0]);
    assert(buf[at + 1] == buf.subrange(at, at + 2)[1]);
}

/// A name that has not ended after 255 labels is rejected, whatever
/// follows them.
pub proof fn lemma_endless_name_rejected(buf: Seq<u8>, pos: int, labels: Seq<Seq<u8>>)
    requires
        all_plain(labels),
        labels.len() + 1 >= MAX_ROUNDS,
        holds_at(buf, pos, labels_wire(labels)),
    ensures
        parse_name(buf, pos) is None,
{
    reveal(holds_at);
    let most = MAX_ROUNDS - 1;
    let front = labels.take(most);
    let back = labels.skip(most);
    assert(front + back =~= labels);
    lemma_labels_wire_concat(front, back);
    lemma_holds_at_split(buf, pos, labels_wire(front), labels_wire(back));
    lemma_parse_labels(buf, pos, front);
}

/// A name that decodes lies inside the buffer and takes at least one byte.
pub proof fn lemma_parse_name_bounds(buf: Seq<u8>, pos: int, labels: Seq<Seq<u8>>)
    ensures
        parse_name_from(buf, pos, labels) matches Some((_, end)) ==> 0 <= pos < end <= buf.len(),
    decreases MAX_ROUNDS - labels.len(),
{
    if labels.len() + 1 < MAX_ROUNDS && 0 <= pos < buf.len() {
        let len = buf[pos];
        if len != 0 && len < POINTER_TAG && pos + 1 + len <= buf.len() {
            lemma_parse_name_bounds(
                buf,
                pos + 1 + len,
                labels.push(buf.subrange(pos + 1, pos + 1 + len)),
            );
        }
    }
}

/// A primitive is read exactly where the buffer holds all of its bytes: one
/// byte for an 8-bit value, two for a 16-bit value, four for a 32-bit value.
/// From a buffer that ends before the last of them nothing is read.
pub proof fn lemma_short_buffer_rejected(buf: Seq<u8>, pos: int)
    ensures
        parse_u8(buf, pos) is Some <==> 0 <= pos && pos + 1 <= buf.len(),
        parse_u16(buf, pos) is Some <==> 0 <= pos && pos + 2 <= buf.len(),
        parse_i32(buf, pos) is Some <==> 0 <= pos && pos + 4 <= buf.len(),
        parse_header(buf, pos) is Some <==> 0 <= pos && pos + HEADER_LEN <= buf.len(),
{
}

/// A 16-bit value is read back from its two bytes as it was.
pub proof fn lemma_u16_round_trip(num: u16, buf: Seq<u8>, pos: int)
    requires
        holds_at(buf, pos, u16_wire(num)),
    ensures
        parse_u16(buf, pos) == Some((num, pos + 2)),
{
    reveal(holds_at);
    assert(buf[pos] == buf.subrange(pos, pos + 2)[0]);
    assert(buf[pos + 1] == buf.subrange(pos, pos + 2)[1]);
}

/// A header is read back from its twelve bytes as it was.
pub proof fn lemma_header_round_trip(header: Header, buf: Seq<u8>, pos: int)
    requires
        holds_at(buf, pos, header_wire(header)),
    ensures
        parse_header(buf, pos) == Some((header, pos + HEADER_LEN)),
{
    let f0 = u16_wire(header.id);
    let f1 = u16_wire(header.flags);
    let f2 = u16_wire(header.questions);
    let f3 = u16_wire(header.answers);
    let f4 = u16_wire(header.authorities);
    let f5 = u16_wire(header.additionals);
    lemma_holds_at_split(buf, pos, f0 + f1 + f2 + f3 + f4, f5);
    lemma_holds_at_split(buf, pos, f0 + f1 + f2 + f3, f4);
    lemma_holds_at_split(buf, pos, f0 + f1 + f2, f3);
    lemma_holds_at_split(buf, pos, f0 + f1, f2);
    lemma_holds_at_split(buf, pos, f0, f1);
    lemma_u16_round_trip(header.id, buf, pos);
    lemma_u16_round_trip(header.flags, buf, pos + 2);
    lemma_u16_round_trip(header.questions, buf, pos + 4);
    lemma_u16_round_trip(header.answers, buf, pos + 6);
    lemma_u16_round_trip(header.authorities, buf, pos + 8);
    lemma_u16_round_trip(header.additionals, buf, pos + 10);
}

/// The number of a record type stands for that type and no other, and the
/// number of a class for that class.
pub proof fn lemma_code_round_trip(kind: Kind, class: Class)
    ensures
        Kind::of_code(kind.spec_code()) == Some(kind),
        Class::of_code(class.spec_code()) == Some(class),
{
}

/// Whether a question survives the wire: its name is complete and plain.
pub open spec fn is_plain_question(question: QuestionView) -> bool {
    question.name is Simple && is_plain_name(question.name.text())
}

/// A plain question is read back from its wire form as it was.
pub proof fn lemma_question_round_trip(question: QuestionView, buf: Seq<u8>, pos: int)
    requires
        is_plain_question(question),
        holds_at(buf, pos, question_wire(question)),
    ensures
        parse_question(buf, pos) == Some((question, pos + question_wire(question).len())),
{
    reveal(parse_question);
    let name = name_wire(encode_utf8(question.name.text()));
    let kind = u16_wire(question.kind.spec_code());
    let class = u16_wire(question.class.spec_code());
    lemma_holds_at_split(buf, pos, name + kind, class);
    lemma_holds_at_split(buf, pos, name, kind);
    lemma_name_round_trip(question.name.text(), buf, pos);
    lemma_u16_round_trip(question.kind.spec_code(), buf, pos + name.len());
    lemma_u16_round_trip(question.class.spec_code(), buf, pos + name.len() + 2);
    lemma_code_round_trip(question.kind, question.class);
}

/// Plain questions are read back from their wire form as they were, in
/// their order.
pub proof fn lemma_questions_round_trip(questions: Seq<QuestionView>, buf: Seq<u8>, pos: int)
    requires
        forall|i: int| 0 <= i < questions.len() ==> is_plain_question(#[trigger] questions[i]),
        holds_at(buf, pos, questions_wire(questions)),
    ensures
        parse_many::<Question>(buf, pos, questions.len()) == Some(
            (questions, pos + questions_wire(questions).len()),
        ),
    decreases questions.len(),
{
    if questions.len() > 0 {
        let front = questions.drop_last();
        let last = questions.last();
        lemma_holds_at_split(buf, pos, questions_wire(front), question_wire(last));
        lemma_questions_round_trip(front, buf, pos);
        lemma_question_round_trip(last, buf, pos + questions_wire(front).len());
    }
}

/// Whether a message survives the wire as a query: every question is plain,
/// and their number fits the 16-bit count of the header.
pub open spec fn is_plain_query(packet: PacketView) -> bool {
    &&& packet.questions.len() <= u16::MAX
    &&& forall|i: int|
        0 <= i < packet.questions.len() ==> is_plain_question(#[trigger] packet.questions[i])
}

/// A buffer that holds a message holds its header at the start and its
/// questions right after the header.
pub proof fn lemma_query_parts(packet: PacketView, buf: Seq<u8>)
    requires
        holds_at(buf, 0, query_wire(packet)),
    ensures
        parse_header(buf, 0) == Some((query_header(packet), HEADER_LEN as int)),
        holds_at(buf, HEADER_LEN as int, questions_wire(packet.questions)),
{
    let header = query_header(packet);
    lemma_holds_at_split(buf, 0, header_wire(header), questions_wire(packet.questions));
    lemma_header_round_trip(header, buf, 0);
}

/// A message that stands at the start of a buffer is read back from it:
/// the identifier, the flags and the questions as they were, and no records.
pub proof fn lemma_query_round_trip_in(packet: PacketView, buf: Seq<u8>)
    requires
        is_plain_query(packet),
        holds_at(buf, 0, query_wire(packet)),
    ensures
        parse_packet(buf) == Some(
            PacketView {
                id: packet.id,
                flags: packet.flags,
                questions: packet.questions,
                answers: Seq::empty(),
                authorities: Seq::empty(),
                additionals: Seq::empty(),
            },
        ),
{
    reveal(parse_packet);
    let header = query_header(packet);
    let body = HEADER_LEN as int;
    let end = body + questions_wire(packet.questions).len();
    lemma_query_parts(packet, buf);
    lemma_questions_round_trip(packet.questions, buf, body);
    assert(header.questions as nat == packet.questions.len());
    assert(parse_many::<Record>(buf, end, 0) == Some((Seq::<RecordView>::empty(), end)));
}

/// Decoding what was encoded gives the message back: the identifier, the
/// flags and the questions are those of the message that was encoded, and the
/// three sections of records, which a query does not carry, are empty. Bytes
/// that follow the message in the buffer change nothing.
pub proof fn theorem_query_round_trip(packet: PacketView, rest: Seq<u8>)
    requires
        is_plain_query(packet),
    ensures
        parse_packet(query_wire(packet) + rest) == Some(
            PacketView {
                id: packet.id,
                flags: packet.flags,
                questions: packet.questions,
                answers: Seq::empty(),
                authorities: Seq::empty(),
                additionals: Seq::empty(),
            },
        ),
{
    reveal(holds_at);
    let wire = query_wire(packet);
    let buf = wire + rest;
    assert(holds_at(buf, 0, wire)) by {
        assert(buf.subrange(0, wire.len() as int) =~= wire);
    }
    lemma_query_round_trip_in(packet, buf);
}

/// A section that is shorter than the header says fails the whole message:
/// where the header and the questions decode but fewer answers than counted
/// are there, nothing is returned.
pub proof fn lemma_short_answers_rejected(buf: Seq<u8>, present: nat)
    requires
        ({
            &&& parse_header(buf, 0) matches Some((header, body))
            &&& parse_many::<Question>(buf, body, header.questions as nat) matches Some((_, start))
            &&& present < header.answers
            &&& parse_many::<Record>(buf, start, present) matches Some((_, mid))
            &&& parse_record(buf, mid) is None
        }),
    ensures
        parse_packet(buf) is None,
{
    reveal(parse_packet);
    let (header, body) = parse_header(buf, 0)->0;
    let (_, start) = parse_many::<Question>(buf, body, header.questions as nat)->0;
    lemma_short_list_rejected::<Record>(buf, start, present, header.answers as nat);
}

/// A message decodes only if its header and all four of its sections do.
pub proof fn lemma_message_needs_every_section(buf: Seq<u8>)
    ensures
        parse_packet(buf) is Some ==> ({
            &&& parse_header(buf, 0) matches Some((header, body))
            &&& parse_many::<Question>(buf, body, header.questions as nat) matches Some((_, start))
            &&& parse_many::<Record>(buf, start, header.answers as nat) matches Some((_, second))
            &&& parse_many::<Record>(buf, second, header.authorities as nat) matches Some(
                (_, third),
            )
            &&& parse_many::<Record>(buf, third, header.additionals as nat) is Some
        }),
{
    reveal(parse_packet);
}

/// A signed 32-bit value is read back from its four bytes as it was.
pub proof fn lemma_i32_round_trip(num: i32, buf: Seq<u8>, pos: int)
    requires
        holds_at(buf, pos, i32_wire(num)),
    ensures
        parse_i32(buf, pos) == Some((num, pos + 4)),
{
    reveal(holds_at);
    let wire = buf.subrange(pos, pos + 4);
    assert(buf[pos] == wire[0]);
    assert(buf[pos + 1] == wire[1]);
    assert(buf[pos + 2] == wire[2]);
    assert(buf[pos + 3] == wire[3]);
}

/// Whether a payload is the one that its record type is decoded to, so
/// that it survives the wire: sixteen bytes of address for an address record,
/// a complete plain name for a canonical name or a start of authority, and for
/// every other type opaque bytes whose number fits the 16-bit length field.
///
/// Four bytes of address are left out: an address record is read as sixteen
/// bytes wherever the buffer goes on that far.
#[verifier::opaque]
pub open spec fn is_plain_payload(kind: Kind, data: ContentView) -> bool {
    match kind {
        Kind::A => data matches ContentView::IPv6(address) && address.len() == 16,
        Kind::CNAME | Kind::SOA => data matches ContentView::DomainName(name) && name is Simple
            && is_plain_name(name.text()),
        _ => data matches ContentView::Other(bytes) && bytes.len() <= u16::MAX,
    }
}

/// A plain payload is read back from its wire form as it was, under its
/// record type and the length that its record declares for it.
pub proof fn lemma_payload_round_trip(kind: Kind, data: ContentView, buf: Seq<u8>, pos: int)
    requires
        is_plain_payload(kind, data),
        holds_at(buf, pos, content_wire(data)),
    ensures
        parse_content(buf, pos, kind, (content_wire(data).len() % 0x1_0000) as u16) == Some(
            (data, pos + content_wire(data).len()),
        ),
{
    reveal(is_plain_payload);
    reveal(holds_at);
    match data {
        ContentView::DomainName(name) => {
            lemma_name_round_trip(name.text(), buf, pos);
        },
        _ => {},
    }
}

/// Whether a record survives the wire: its name is complete and plain, and
/// its payload is plain for its type.
pub open spec fn is_plain_record(record: RecordView) -> bool {
    &&& record.name is Simple
    &&& is_plain_name(record.name.text())
    &&& is_plain_payload(record.kind, record.data)
}

/// A plain record is read back from its wire form as it was.
pub proof fn lemma_record_round_trip(record: RecordView, buf: Seq<u8>, pos: int)
    requires
        is_plain_record(record),
        holds_at(buf, pos, record_wire(record)),
    ensures
        parse_record(buf, pos) == Some((record, pos + record_wire(record).len())),
{
    reveal(parse_record);
    let name = name_wire(encode_utf8(record.name.text()));
    let kind = u16_wire(record.kind.spec_code());
    let class = u16_wire(record.class.spec_code());
    let ttl = i32_wire(record.ttl);
    let payload = content_wire(record.data);
    let len = data_len_wire(payload);
    lemma_holds_at_split(buf, pos, name + kind + class + ttl + len, payload);
    lemma_holds_at_split(buf, pos, name + kind + class + ttl, len);
    lemma_holds_at_split(buf, pos, name + kind + class, ttl);
    lemma_holds_at_split(buf, pos, name + kind, class);
    lemma_holds_at_split(buf, pos, name, kind);
    let after_name = pos + name.len();
    lemma_name_round_trip(record.name.text(), buf, pos);
    lemma_u16_round_trip(record.kind.spec_code(), buf, after_name);
    lemma_u16_round_trip(record.class.spec_code(), buf, after_name + 2);
    lemma_code_round_trip(record.kind, record.class);
    lemma_i32_round_trip(record.ttl, buf, after_name + 4);
    lemma_u16_round_trip((payload.len() % 0x1_0000) as u16, buf, after_name + 8);
    lemma_payload_round_trip(record.kind, record.data, buf, after_name + 10);
}

/// Whether every one of the records is plain.
pub open spec fn all_plain_records(records: Seq<RecordView>) -> bool {
    forall|i: int| 0 <= i < records.len() ==> is_plain_record(#[trigger] records[i])
}

/// Plain records are read back from their wire form as they were, in their
/// order.
pub proof fn lemma_records_round_trip(records: Seq<RecordView>, buf: Seq<u8>, pos: int)
    requires
        all_plain_records(records),
        holds_at(buf, pos, records_wire(records)),
    ensures
        parse_many::<Record>(buf, pos, records.len()) == Some(
            (records, pos + records_wire(records).len()),
        ),
    decreases records.len(),
{
    if records.len() > 0 {
        let front = records.drop_last();
        let last = records.last();
        lemma_holds_at_split(buf, pos, records_wire(front), record_wire(last));
        lemma_records_round_trip(front, buf, pos);
        lemma_record_round_trip(last, buf, pos + records_wire(front).len());
        assert(front.push(last) =~= records);
    }
}

/// The count that a header holds for a section of at most 65535 entries
/// is the number of its entries.
pub proof fn lemma_section_count(len: nat)
    requires
        len <= u16::MAX,
    ensures
        ((len % 0x1_0000) as u16) as nat == len,
{
}

/// Whether a message survives the wire with all that it holds: its
/// questions and records are plain, and the number of entries of each section
/// fits the 16-bit count of the header.
pub open spec fn is_plain_message(packet: PacketView) -> bool {
    &&& is_plain_query(packet)
    &&& packet.answers.len() <= u16::MAX
    &&& packet.authorities.len() <= u16::MAX
    &&& packet.additionals.len() <= u16::MAX
    &&& all_plain_records(packet.answers)
    &&& all_plain_records(packet.authorities)
    &&& all_plain_records(packet.additionals)
}

/// A buffer that holds a message with its records holds the header at the
/// start and the four sections one after the other behind it.
pub proof fn lemma_message_parts(packet: PacketView, buf: Seq<u8>)
    requires
        holds_at(buf, 0, message_wire(packet)),
    ensures
        parse_header(buf, 0) == Some((message_header(packet), HEADER_LEN as int)),
        holds_at(buf, HEADER_LEN as int, questions_wire(packet.questions)),
        holds_at(
            buf,
            HEADER_LEN + questions_wire(packet.questions).len(),
            records_wire(packet.answers),
        ),
        holds_at(
            buf,
            HEADER_LEN + questions_wire(packet.questions).len() + records_wire(
                packet.answers,
            ).len(),
            records_wire(packet.authorities),
        ),
        holds_at(
            buf,
            HEADER_LEN + questions_wire(packet.questions).len() + records_wire(
                packet.answers,
            ).len() + records_wire(packet.authorities).len(),
            records_wire(packet.additionals),
        ),
{
    let head = header_wire(message_header(packet));
    let questions = questions_wire(packet.questions);
    let answers = records_wire(packet.answers);
    let authorities = records_wire(packet.authorities);
    let additionals = records_wire(packet.additionals);
    lemma_holds_at_split(buf, 0, head + questions + answers + authorities, additionals);
    lemma_holds_at_split(buf, 0, head + questions + answers, authorities);
    lemma_holds_at_split(buf, 0, head + questions, answers);
    lemma_holds_at_split(buf, 0, head, questions);
    lemma_header_round_trip(message_header(packet), buf, 0);
}

/// A buffer whose header and four sections decode one after the other
/// holds the message that they make up.
pub proof fn lemma_parse_packet_of_parts(
    buf: Seq<u8>,
    header: Header,
    packet: PacketView,
    body: int,
    after_questions: int,
    after_answers: int,
    after_authorities: int,
    end: int,
)
    requires
        packet.id == header.id,
        packet.flags == header.flags,
        parse_header(buf, 0) == Some((header, body)),
        parse_many::<Question>(buf, body, header.questions as nat) == Some(
            (packet.questions, after_questions),
        ),
        parse_many::<Record>(buf, after_questions, header.answers as nat) == Some(
            (packet.answers, after_answers),
        ),
        parse_many::<Record>(buf, after_answers, header.authorities as nat) == Some(
            (packet.authorities, after_authorities),
        ),
        parse_many::<Record>(buf, after_authorities, header.additionals as nat) == Some(
            (packet.additionals, end),
        ),
    ensures
        parse_packet(buf) == Some(packet),
{
    reveal(parse_packet);
}

/// Where the four sections of a message start and end in its wire form:
/// the positions after the header, the questions, the answers, the
/// authorities and the additionals.
pub open spec fn section_bounds(packet: PacketView) -> (int, int, int, int, int) {
    let body = HEADER_LEN as int;
    let after_questions = body + questions_wire(packet.questions).len();
    let after_answers = after_questions + records_wire(packet.answers).len();
    let after_authorities = after_answers + records_wire(packet.authorities).len();
    let end = after_authorities + records_wire(packet.additionals).len();
    (body, after_questions, after_answers, after_authorities, end)
}

/// A message that stands at the start of a buffer with its records is read
/// back from it as it was.
pub proof fn lemma_message_round_trip_in(packet: PacketView, buf: Seq<u8>)
    requires
        is_plain_message(packet),
        holds_at(buf, 0, message_wire(packet)),
    ensures
        parse_packet(buf) == Some(packet),
{
    let bounds = section_bounds(packet);
    let header = message_header(packet);
    lemma_message_parts(packet, buf);
    lemma_section_count(packet.questions.len());
    lemma_section_count(packet.answers.len());
    lemma_section_count(packet.authorities.len());
    lemma_section_count(packet.additionals.len());
    lemma_questions_round_trip(packet.questions, buf, bounds.0);
    lemma_records_round_trip(packet.answers, buf, bounds.1);
    lemma_records_round_trip(packet.authorities, buf, bounds.2);
    lemma_records_round_trip(packet.additionals, buf, bounds.3);
    lemma_parse_packet_of_parts(
        buf,
        header,
        packet,
        bounds.0,
        bounds.1,
        bounds.2,
        bounds.3,
        bounds.4,
    );
}

/// Decoding what was encoded with its records gives the whole message
/// back, whatever follows it in the buffer.
pub proof fn theorem_message_round_trip(packet: PacketView, rest: Seq<u8>)
    requires
        is_plain_message(packet),
    ensures
        parse_packet(message_wire(packet) + rest) == Some(packet),
{
    reveal(holds_at);
    let wire = message_wire(packet);
    let buf = wire + rest;
    assert(holds_at(buf, 0, wire)) by {
        assert(buf.subrange(0, wire.len() as int) =~= wire);
    }
    lemma_message_round_trip_in(packet, buf);
}

} // verus!
