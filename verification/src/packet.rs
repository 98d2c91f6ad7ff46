//! Whole messages: the twelve-byte header, the questions, and the three
//! sections of resource records.

use crate::deserialization::{
    decodes, parse_many, pop_collection, pop_u16, u16_of, views, FromBytes, Wire,
};
use crate::domain_name::{name_wire, parse_name, DomainName, NameView};
use crate::record::{parse_class, parse_kind, record_wire, Class, Kind, Record, RecordView};
use crate::serialization::{push_u16, u16_wire};
use rand::Rng;
use vstd::prelude::*;
use vstd::utf8::encode_utf8;

verus! {

/// The flags of a query that asks the server to resolve recursively.
pub const RECURSION_DESIRED: u16 = 0x0100;

/// The number of bytes of a header.
pub const HEADER_LEN: usize = 12;

/// The fixed fields at the head of a message.
#[derive(Debug, Clone, Copy, PartialEq, Eq, Structural)]
pub struct Header {
    /// Chosen by the sender of a query and repeated in the answer.
    pub id: u16,
    pub flags: u16,
    /// How many questions follow the header.
    pub questions: u16,
    /// How many answer records follow the questions.
    pub answers: u16,
    /// How many authority records follow the answers.
    pub authorities: u16,
    /// How many additional records follow the authorities.
    pub additionals: u16,
}

impl View for Header {
    type V = Header;

    open spec fn view(&self) -> Header {
        *self
    }
}

/// The header on the wire: its six fields in network order.
pub open spec fn header_wire(header: Header) -> Seq<u8> {
    u16_wire(header.id) + u16_wire(header.flags) + u16_wire(header.questions) + u16_wire(
        header.answers,
    ) + u16_wire(header.authorities) + u16_wire(header.additionals)
}

/// The header at `pos`, if twelve bytes are there.
pub open spec fn parse_header(buf: Seq<u8>, pos: int) -> Option<(Header, int)> {
    if 0 <= pos && pos + HEADER_LEN <= buf.len() {
        Some(
            (
                Header {
                    id: u16_of(buf[pos], buf[pos + 1]),
                    flags: u16_of(buf[pos + 2], buf[pos + 3]),
                    questions: u16_of(buf[pos + 4], buf[pos + 5]),
                    answers: u16_of(buf[pos + 6], buf[pos + 7]),
                    authorities: u16_of(buf[pos + 8], buf[pos + 9]),
                    additionals: u16_of(buf[pos + 10], buf[pos + 11]),
                },
                pos + HEADER_LEN,
            ),
        )
    } else {
        None
    }
}

impl Header {
    /// Encodes the header in its twelve bytes.
    pub fn to_bytes(&self) -> (wire: Vec<u8>)
        ensures
            wire@ == header_wire(*self),
            wire@.len() == HEADER_LEN,
    {
        let mut buf: Vec<u8> = Vec::with_capacity(12);
        push_u16(&mut buf, self.id);
        push_u16(&mut buf, self.flags);
        push_u16(&mut buf, self.questions);
        push_u16(&mut buf, self.answers);
        push_u16(&mut buf, self.authorities);
        push_u16(&mut buf, self.additionals);
        buf
    }

    /// Decodes a header at the cursor.
    pub fn from_bytes(buf: &[u8], cursor: &mut usize) -> (header: Option<Header>)
        ensures
            decodes(
                parse_header(buf@, *old(cursor) as int),
                *old(cursor) as int,
                header,
                *final(cursor) as int,
            ),
    {
        let mut c: usize = *cursor;
        let id: u16 = match pop_u16(buf, &mut c) {
            Some(id) => id,
            None => {
                return None;
            },
        };
        let flags: u16 = match pop_u16(buf, &mut c) {
            Some(flags) => flags,
            None => {
                return None;
            },
        };
        let questions: u16 = match pop_u16(buf, &mut c) {
            Some(questions) => questions,
            None => {
                return None;
            },
        };
        let answers: u16 = match pop_u16(buf, &mut c) {
            Some(answers) => answers,
            None => {
                return None;
            },
        };
        let authorities: u16 = match pop_u16(buf, &mut c) {
            Some(authorities) => authorities,
            None => {
                return None;
            },
        };
        let additionals: u16 = match pop_u16(buf, &mut c) {
            Some(additionals) => additionals,
            None => {
                return None;
            },
        };
        *cursor = c;
        Some(Header { id, flags, questions, answers, authorities, additionals })
    }
}

/// One entry of the question section.
#[derive(Debug, Clone, PartialEq, Eq)]
pub struct Question {
    pub name: DomainName,
    pub kind: Kind,
    pub class: Class,
}

/// The mathematical value of a [`Question`].
pub struct QuestionView {
    pub name: NameView,
    pub kind: Kind,
    pub class: Class,
}

impl View for Question {
    type V = QuestionView;

    open spec fn view(&self) -> QuestionView {
        QuestionView { name: self.name@, kind: self.kind, class: self.class }
    }
}

/// A question on the wire: the name, the type tag and the class tag.
pub open spec fn question_wire(question: QuestionView) -> Seq<u8> {
    name_wire(encode_utf8(question.name.text())) + u16_wire(question.kind.spec_code()) + u16_wire(
        question.class.spec_code(),
    )
}

/// The question at `pos`: a name, a type tag and a class tag.
#[verifier::opaque]
pub open spec fn parse_question(buf: Seq<u8>, pos: int) -> Option<(QuestionView, int)> {
    match parse_name(buf, pos) {
        None => None,
        Some((name, after_name)) => match parse_kind(buf, after_name) {
            None => None,
            Some((kind, after_kind)) => match parse_class(buf, after_kind) {
                None => None,
                Some((class, end)) => Some((QuestionView { name, kind, class }, end)),
            },
        },
    }
}

impl Question {
    /// A question for the address of the name without labels.
    pub fn new() -> (question: Question)
        ensures
            question@ == (QuestionView {
                name: NameView::Simple(Seq::<char>::empty()),
                kind: Kind::A,
                class: Class::Internet,
            }),
    {
        Question { name: DomainName::empty(), kind: Kind::A, class: Class::Internet }
    }

    /// The same question, asked of `name`.
    pub fn with_domain_name(self, name: &str) -> (question: Question)
        ensures
            question@ == (QuestionView {
                name: NameView::Simple(name@),
                kind: self.kind,
                class: self.class,
            }),
    {
        let mut question = self;
        question.name = DomainName::new(name);
        question
    }

    /// A question for the records of type `kind` of `name`.
    pub fn build(name: &str, kind: Kind) -> (question: Question)
        ensures
            question@ == (QuestionView {
                name: NameView::Simple(name@),
                kind,
                class: Class::Internet,
            }),
    {
        let name = DomainName::new(name);
        Question { name, kind, class: Class::Internet }
    }

    /// Encodes the question. Its name must be complete.
    pub fn to_bytes(&self) -> (wire: Vec<u8>)
        requires
            self.name is Simple,
        ensures
            wire@ == question_wire(self@),
    {
        let mut buf: Vec<u8> = self.name.to_bytes();
        push_u16(&mut buf, self.kind.code());
        push_u16(&mut buf, self.class.code());
        buf
    }
}

impl Wire for Question {
    open spec fn parse(buf: Seq<u8>, pos: int) -> Option<(QuestionView, int)> {
        parse_question(buf, pos)
    }
}

impl FromBytes for Question {
    fn from_bytes(buf: &[u8], cursor: &mut usize) -> (value: Option<Question>) {
        proof {
            reveal(parse_question);
        }
        let mut c: usize = *cursor;
        let name = match DomainName::from_bytes(buf, &mut c) {
            Some(name) => name,
            None => {
                return None;
            },
        };
        let kind = match Kind::from_bytes(buf, &mut c) {
            Some(kind) => kind,
            None => {
                return None;
            },
        };
        let class = match Class::from_bytes(buf, &mut c) {
            Some(class) => class,
            None => {
                return None;
            },
        };
        *cursor = c;
        Some(Question { name, kind, class })
    }
}

/// A message: the header fields that are not counts, and the four sections.
#[derive(Debug, Clone, PartialEq, Eq)]
pub struct Packet {
    pub id: u16,
    pub flags: u16,
    pub questions: Vec<Question>,
    pub answers: Vec<Record>,
    pub authorities: Vec<Record>,
    pub additionals: Vec<Record>,
}

/// The mathematical value of a [`Packet`].
pub struct PacketView {
    pub id: u16,
    pub flags: u16,
    pub questions: Seq<QuestionView>,
    pub answers: Seq<RecordView>,
    pub authorities: Seq<RecordView>,
    pub additionals: Seq<RecordView>,
}

impl PacketView {
    /// The query with the given identifier that asks nothing yet.
    pub open spec fn blank(id: u16) -> PacketView {
        PacketView {
            id,
            flags: RECURSION_DESIRED,
            questions: Seq::empty(),
            answers: Seq::empty(),
            authorities: Seq::empty(),
            additionals: Seq::empty(),
        }
    }

    /// Whether every question has a complete name, as encoding requires.
    pub open spec fn is_resolved(self) -> bool {
        forall|i: int|
            0 <= i < self.questions.len() ==> (#[trigger] self.questions[i]).name is Simple
    }

    /// Whether the questions and the records of all three sections have
    /// complete names, as encoding with the records requires.
    pub open spec fn is_fully_resolved(self) -> bool {
        &&& self.is_resolved()
        &&& all_resolved(self.answers)
        &&& all_resolved(self.authorities)
        &&& all_resolved(self.additionals)
    }
}

/// Whether every one of the records can be encoded.
pub open spec fn all_resolved(records: Seq<RecordView>) -> bool {
    forall|i: int| 0 <= i < records.len() ==> (#[trigger] records[i]).is_resolved()
}

impl View for Packet {
    type V = PacketView;

    open spec fn view(&self) -> PacketView {
        PacketView {
            id: self.id,
            flags: self.flags,
            questions: views(self.questions@),
            answers: views(self.answers@),
            authorities: views(self.authorities@),
            additionals: views(self.additionals@),
        }
    }
}

/// The questions on the wire, one after the other.
pub open spec fn questions_wire(questions: Seq<QuestionView>) -> Seq<u8>
    decreases questions.len(),
{
    if questions.len() == 0 {
        Seq::empty()
    } else {
        questions_wire(questions.drop_last()) + question_wire(questions.last())
    }
}

/// The header that a message is sent with: its identifier and flags, the
/// number of its questions cut to sixteen bits, and no records.
pub open spec fn query_header(packet: PacketView) -> Header {
    Header {
        id: packet.id,
        flags: packet.flags,
        questions: (packet.questions.len() % 0x1_0000) as u16,
        answers: 0,
        authorities: 0,
        additionals: 0,
    }
}

/// A message on the wire as a query: the header, followed by the
/// questions. The records of the message are not sent.
pub open spec fn query_wire(packet: PacketView) -> Seq<u8> {
    header_wire(query_header(packet)) + questions_wire(packet.questions)
}

/// The records on the wire, one after the other.
pub open spec fn records_wire(records: Seq<RecordView>) -> Seq<u8>
    decreases records.len(),
{
    if records.len() == 0 {
        Seq::empty()
    } else {
        records_wire(records.drop_last()) + record_wire(records.last())
    }
}

/// The header of a message with all that it holds: its identifier and
/// flags, and the number of entries of each section, cut to sixteen bits.
pub open spec fn message_header(packet: PacketView) -> Header {
    Header {
        id: packet.id,
        flags: packet.flags,
        questions: (packet.questions.len() % 0x1_0000) as u16,
        answers: (packet.answers.len() % 0x1_0000) as u16,
        authorities: (packet.authorities.len() % 0x1_0000) as u16,
        additionals: (packet.additionals.len() % 0x1_0000) as u16,
    }
}

/// A message on the wire with all that it holds: the header, the questions,
/// the answers, the authorities and the additionals.
pub open spec fn message_wire(packet: PacketView) -> Seq<u8> {
    header_wire(message_header(packet)) + questions_wire(packet.questions) + records_wire(
        packet.answers,
    ) + records_wire(packet.authorities) + records_wire(packet.additionals)
}

/// The message that a buffer holds from its start: the header, and as many
/// questions, answers, authorities and additionals as the header counts, in
/// that order. Whatever follows them is not looked at.
#[verifier::opaque]
pub open spec fn parse_packet(buf: Seq<u8>) -> Option<PacketView> {
    match parse_header(buf, 0) {
        None => None,
        Some((header, body)) => match parse_many::<Question>(buf, body, header.questions as nat) {
            None => None,
            Some((questions, after_questions)) => match parse_many::<Record>(
                buf,
                after_questions,
                header.answers as nat,
            ) {
                None => None,
                Some((answers, after_answers)) => match parse_many::<Record>(
                    buf,
                    after_answers,
                    header.authorities as nat,
                ) {
                    None => None,
                    Some((authorities, after_authorities)) => match parse_many::<Record>(
                        buf,
                        after_authorities,
                        header.additionals as nat,
                    ) {
                        None => None,
                        Some((additionals, _)) => Some(
                            PacketView {
                                id: header.id,
                                flags: header.flags,
                                questions,
                                answers,
                                authorities,
                                additionals,
                            },
                        ),
                    },
                },
            },
        },
    }
}

/// `rand::thread_rng().gen::<u16>()`: sixteen bits from the generator that
/// the `rand` crate keeps for each thread and seeds from the operating
/// system. Nothing is claimed of the value. The first call on a thread stops
/// the program if the operating system gives no seed.
#[verifier::external_body]
fn random_id() -> (id: u16) {
    rand::thread_rng().gen()
}

/// Whether every one of `records` can be encoded.
fn records_resolved(records: &Vec<Record>) -> (resolved: bool)
    ensures
        resolved == all_resolved(views(records@)),
{
    let mut i: usize = 0;
    while i < records.len()
        invariant
            i <= records@.len(),
            forall|k: int| 0 <= k < i ==> (#[trigger] views(records@)[k]).is_resolved(),
        decreases records@.len() - i,
    {
        if !records[i].is_resolved() {
            assert(!views(records@)[i as int].is_resolved());
            return false;
        }
        i += 1;
    }
    true
}

/// Appends the questions in their wire form.
fn push_questions(buf: &mut Vec<u8>, questions: &Vec<Question>)
    requires
        forall|i: int| 0 <= i < questions@.len() ==> (#[trigger] questions@[i]).name is Simple,
    ensures
        final(buf)@ == old(buf)@ + questions_wire(views(questions@)),
{
    let ghost all = views(questions@);
    let n: usize = questions.len();
    let mut i: usize = 0;
    assert(buf@ =~= old(buf)@ + questions_wire(all.take(0)));
    while i < n
        invariant
            n == questions@.len(),
            i <= n,
            all == views(questions@),
            forall|k: int| 0 <= k < questions@.len() ==> (#[trigger] questions@[k]).name is Simple,
            buf@ == old(buf)@ + questions_wire(all.take(i as int)),
        decreases n - i,
    {
        let bytes: Vec<u8> = questions[i].to_bytes();
        buf.extend_from_slice(bytes.as_slice());
        proof {
            let longer = all.take(i + 1);
            assert(longer.drop_last() =~= all.take(i as int));
            assert(longer.last() == questions@[i as int]@);
            assert(buf@ =~= old(buf)@ + questions_wire(longer));
        }
        i += 1;
    }
    assert(all.take(n as int) =~= all);
}

/// Appends the records in their wire form.
fn push_records(buf: &mut Vec<u8>, records: &Vec<Record>)
    requires
        all_resolved(views(records@)),
    ensures
        final(buf)@ == old(buf)@ + records_wire(views(records@)),
{
    let ghost all = views(records@);
    let n: usize = records.len();
    let mut i: usize = 0;
    assert(buf@ =~= old(buf)@ + records_wire(all.take(0)));
    while i < n
        invariant
            n == records@.len(),
            i <= n,
            all == views(records@),
            all_resolved(all),
            buf@ == old(buf)@ + records_wire(all.take(i as int)),
        decreases n - i,
    {
        assert(all[i as int] == records@[i as int]@);
        let bytes: Vec<u8> = records[i].to_bytes();
        buf.extend_from_slice(bytes.as_slice());
        proof {
            let longer = all.take(i + 1);
            assert(longer.drop_last() =~= all.take(i as int));
            assert(longer.last() == records@[i as int]@);
            assert(buf@ =~= old(buf)@ + records_wire(longer));
        }
        i += 1;
    }
    assert(all.take(n as int) =~= all);
}

/// The number of entries of a section as the header holds it.
fn section_count(len: usize) -> (count: u16)
    ensures
        count == len % 0x1_0000,
{
    assert(len as u16 == len % 0x1_0000) by (bit_vector);
    #[verifier::truncate]
    (len as u16)
}

impl Packet {
    /// A query without questions, under an identifier drawn at random.
    pub fn new() -> (packet: Packet)
        ensures
            packet@ == PacketView::blank(packet.id),
    {
        Packet::new_with_id(random_id())
    }

    /// A query without questions, under the given identifier.
    pub fn new_with_id(id: u16) -> (packet: Packet)
        ensures
            packet@ == PacketView::blank(id),
    {
        let packet = Packet {
            id,
            flags: RECURSION_DESIRED,
            questions: Vec::new(),
            answers: Vec::new(),
            authorities: Vec::new(),
            additionals: Vec::new(),
        };
        assert(views(Seq::<Question>::empty()) =~= Seq::<QuestionView>::empty());
        assert(views(Seq::<Record>::empty()) =~= Seq::<RecordView>::empty());
        packet
    }

    /// The same message with `question` added after its questions.
    pub fn with_question(self, question: Question) -> (packet: Packet)
        ensures
            packet@ == (PacketView { questions: self@.questions.push(question@), ..self@ }),
    {
        let mut packet = self;
        packet.questions.push(question);
        assert(packet@.questions =~= self@.questions.push(question@));
        packet
    }

    /// A query for the records of type `kind` of `domain`, under an
    /// identifier drawn at random.
    pub fn build(domain: &str, kind: Kind) -> (packet: Packet)
        ensures
            packet@ == (PacketView {
                questions: seq![
                    QuestionView {
                        name: NameView::Simple(domain@),
                        kind,
                        class: Class::Internet,
                    },
                ],
                ..PacketView::blank(packet.id)
            }),
    {
        Packet::build_with_id(domain, kind, random_id())
    }

    /// A query for the records of type `kind` of `domain`, under the given
    /// identifier.
    pub fn build_with_id(domain: &str, kind: Kind, id: u16) -> (packet: Packet)
        ensures
            packet@ == (PacketView {
                questions: seq![
                    QuestionView {
                        name: NameView::Simple(domain@),
                        kind,
                        class: Class::Internet,
                    },
                ],
                ..PacketView::blank(id)
            }),
    {
        let q = Question::build(domain, kind);
        Packet::new_with_id(id).with_question(q)
    }

    /// The same message under another identifier.
    pub fn with_id(self, id: u16) -> (packet: Packet)
        ensures
            packet@ == (PacketView { id, ..self@ }),
    {
        let mut packet = self;
        packet.id = id;
        packet
    }

    /// Whether every question has a complete name, as encoding requires.
    pub fn is_resolved(&self) -> (resolved: bool)
        ensures
            resolved == self@.is_resolved(),
    {
        let mut i: usize = 0;
        while i < self.questions.len()
            invariant
                i <= self.questions@.len(),
                forall|k: int| 0 <= k < i ==> (#[trigger] self@.questions[k]).name is Simple,
            decreases self.questions@.len() - i,
        {
            if !self.questions[i].name.is_simple() {
                assert(!(self@.questions[i as int].name is Simple));
                return false;
            }
            i += 1;
        }
        true
    }

    /// Encodes the message as a query: the header with the number of
    /// questions and no records, followed by the questions. Every question must
    /// have a complete name.
    pub fn to_bytes(&self) -> (wire: Vec<u8>)
        requires
            self@.is_resolved(),
        ensures
            wire@ == query_wire(self@),
    {
        let mut buf: Vec<u8> = Vec::new();
        push_u16(&mut buf, self.id);
        push_u16(&mut buf, self.flags);
        push_u16(&mut buf, section_count(self.questions.len()));
        push_u16(&mut buf, 0);
        push_u16(&mut buf, 0);
        push_u16(&mut buf, 0);
        assert(buf@ =~= header_wire(query_header(self@)));
        assert forall|i: int| 0 <= i < self.questions@.len() implies (
        #[trigger] self.questions@[i]).name is Simple by {
            assert(self@.questions[i] == self.questions@[i]@);
        }
        push_questions(&mut buf, &self.questions);
        buf
    }

    /// Whether the questions and the records of all three sections have
    /// complete names, as encoding with the records requires.
    pub fn is_fully_resolved(&self) -> (resolved: bool)
        ensures
            resolved == self@.is_fully_resolved(),
    {
        self.is_resolved() && records_resolved(&self.answers) && records_resolved(
            &self.authorities,
        ) && records_resolved(&self.additionals)
    }

    /// Encodes the message with all that it holds: the header with the
    /// number of entries of each section, followed by the questions, the
    /// answers, the authorities and the additionals. Every name in the message
    /// must be complete.
    pub fn to_bytes_with_records(&self) -> (wire: Vec<u8>)
        requires
            self@.is_fully_resolved(),
        ensures
            wire@ == message_wire(self@),
    {
        let mut buf: Vec<u8> = Vec::new();
        push_u16(&mut buf, self.id);
        push_u16(&mut buf, self.flags);
        push_u16(&mut buf, section_count(self.questions.len()));
        push_u16(&mut buf, section_count(self.answers.len()));
        push_u16(&mut buf, section_count(self.authorities.len()));
        push_u16(&mut buf, section_count(self.additionals.len()));
        assert(buf@ =~= header_wire(message_header(self@)));
        assert forall|i: int| 0 <= i < self.questions@.len() implies (
        #[trigger] self.questions@[i]).name is Simple by {
            assert(self@.questions[i] == self.questions@[i]@);
        }
        push_questions(&mut buf, &self.questions);
        push_records(&mut buf, &self.answers);
        push_records(&mut buf, &self.authorities);
        push_records(&mut buf, &self.additionals);
        buf
    }

    /// Decodes a message from the start of `buf`. Nothing is returned unless
    /// the header and every entry that it counts are there.
    pub fn from_bytes(buf: &[u8]) -> (packet: Option<Packet>)
        ensures
            match parse_packet(buf@) {
                Some(view) => packet is Some && packet->0@ == view,
                None => packet is None,
            },
    {
        proof {
            reveal(parse_packet);
        }
        let mut cursor: usize = 0;
        let header: Header = match Header::from_bytes(buf, &mut cursor) {
            Some(header) => header,
            None => {
                return None;
            },
        };
        let questions: Vec<Question> = match pop_collection(
            buf,
            &mut cursor,
            header.questions as usize,
        ) {
            Some(list) => list,
            None => {
                return None;
            },
        };
        let answers: Vec<Record> = match pop_collection(buf, &mut cursor, header.answers as usize) {
            Some(list) => list,
            None => {
                return None;
            },
        };
        let authorities: Vec<Record> = match pop_collection(
            buf,
            &mut cursor,
            header.authorities as usize,
        ) {
            Some(list) => list,
            None => {
                return None;
            },
        };
        let additionals: Vec<Record> = match pop_collection(
            buf,
            &mut cursor,
            header.additionals as usize,
        ) {
            Some(list) => list,
            None => {
                return None;
            },
        };
        Some(
            Packet {
                id: header.id,
                flags: header.flags,
                questions,
                answers,
                authorities,
                additionals,
            },
        )
    }
}

} // verus!
