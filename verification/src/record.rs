//! Resource records: the type and class tags, the payload that the type
//! selects, and the decoder of a whole record.

use crate::deserialization::{
    decodes, lemma_parse_many_bytes, parse_i32, parse_u16, pop_collection, pop_i32, pop_u16, views,
    FromBytes, Wire,
};
use crate::domain_name::{name_wire, parse_name, DomainName, NameView};
use crate::serialization::{i32_wire, push_i32, push_u16, u16_wire};
use vstd::prelude::*;
use vstd::std_specs::convert::TryFromSpecImpl;
use vstd::utf8::encode_utf8;

verus! {

/// The type of a resource record.
#[derive(Debug, Copy, Clone, PartialEq, Eq, Structural)]
pub enum Kind {
    /// a host address
    A,
    /// an authoritative name server
    NS,
    /// a mail destination (obsolete, replaced by MX)
    MD,
    /// a mail forwarder (obsolete, replaced by MX)
    MF,
    /// the canonical name for an alias
    CNAME,
    /// marks the start of a zone of authority
    SOA,
    /// a mailbox domain name (experimental)
    MB,
    /// a mail group member (experimental)
    MG,
    /// a mail rename domain name (experimental)
    MR,
    /// a null record (experimental)
    NULL,
    /// a well known service description
    WKS,
    /// a domain name pointer
    PTR,
    /// host information
    HINFO,
    /// mailbox or mail list information
    MINFO,
    /// mail exchange
    MX,
    /// text strings
    TXT,
}

impl View for Kind {
    type V = Kind;

    open spec fn view(&self) -> Kind {
        *self
    }
}

impl Kind {
    /// The number that stands for this type on the wire.
    pub open spec fn spec_code(self) -> u16 {
        match self {
            Kind::A => 1,
            Kind::NS => 2,
            Kind::MD => 3,
            Kind::MF => 4,
            Kind::CNAME => 5,
            Kind::SOA => 6,
            Kind::MB => 7,
            Kind::MG => 8,
            Kind::MR => 9,
            Kind::NULL => 10,
            Kind::WKS => 11,
            Kind::PTR => 12,
            Kind::HINFO => 13,
            Kind::MINFO => 14,
            Kind::MX => 15,
            Kind::TXT => 16,
        }
    }

    /// The type that `code` stands for, if it stands for one.
    pub open spec fn of_code(code: u16) -> Option<Kind> {
        if code == 1 {
            Some(Kind::A)
        } else if code == 2 {
            Some(Kind::NS)
        } else if code == 3 {
            Some(Kind::MD)
        } else if code == 4 {
            Some(Kind::MF)
        } else if code == 5 {
            Some(Kind::CNAME)
        } else if code == 6 {
            Some(Kind::SOA)
        } else if code == 7 {
            Some(Kind::MB)
        } else if code == 8 {
            Some(Kind::MG)
        } else if code == 9 {
            Some(Kind::MR)
        } else if code == 10 {
            Some(Kind::NULL)
        } else if code == 11 {
            Some(Kind::WKS)
        } else if code == 12 {
            Some(Kind::PTR)
        } else if code == 13 {
            Some(Kind::HINFO)
        } else if code == 14 {
            Some(Kind::MINFO)
        } else if code == 15 {
            Some(Kind::MX)
        } else if code == 16 {
            Some(Kind::TXT)
        } else {
            None
        }
    }

    /// The number that stands for this type on the wire.
    #[verifier::when_used_as_spec(spec_code)]
    pub fn code(self) -> (code: u16)
        ensures
            code == self.spec_code(),
            Kind::of_code(code) == Some(self),
    {
        match self {
            Kind::A => 1,
            Kind::NS => 2,
            Kind::MD => 3,
            Kind::MF => 4,
            Kind::CNAME => 5,
            Kind::SOA => 6,
            Kind::MB => 7,
            Kind::MG => 8,
            Kind::MR => 9,
            Kind::NULL => 10,
            Kind::WKS => 11,
            Kind::PTR => 12,
            Kind::HINFO => 13,
            Kind::MINFO => 14,
            Kind::MX => 15,
            Kind::TXT => 16,
        }
    }

    /// The usual short name of this type.
    pub fn name(self) -> (name: &'static str)
        ensures
            name@ == self.spec_name(),
    {
        match self {
            Kind::A => "A",
            Kind::NS => "NS",
            Kind::MD => "MD",
            Kind::MF => "MF",
            Kind::CNAME => "CNAME",
            Kind::SOA => "SOA",
            Kind::MB => "MB",
            Kind::MG => "MG",
            Kind::MR => "MR",
            Kind::NULL => "NULL",
            Kind::WKS => "WKS",
            Kind::PTR => "PTR",
            Kind::HINFO => "HINFO",
            Kind::MINFO => "MINFO",
            Kind::MX => "MX",
            Kind::TXT => "TXT",
        }
    }

    /// The usual short name of this type, as text.
    pub open spec fn spec_name(self) -> Seq<char> {
        match self {
            Kind::A => "A"@,
            Kind::NS => "NS"@,
            Kind::MD => "MD"@,
            Kind::MF => "MF"@,
            Kind::CNAME => "CNAME"@,
            Kind::SOA => "SOA"@,
            Kind::MB => "MB"@,
            Kind::MG => "MG"@,
            Kind::MR => "MR"@,
            Kind::NULL => "NULL"@,
            Kind::WKS => "WKS"@,
            Kind::PTR => "PTR"@,
            Kind::HINFO => "HINFO"@,
            Kind::MINFO => "MINFO"@,
            Kind::MX => "MX"@,
            Kind::TXT => "TXT"@,
        }
    }
}

impl Default for Kind {
    fn default() -> (kind: Kind)
        ensures
            kind == Kind::A,
    {
        Kind::A
    }
}

impl TryFrom<u16> for Kind {
    type Error = ();

    /// The type that `value` stands for; an error for a number that stands
    /// for none.
    fn try_from(value: u16) -> (result: Result<Kind, ()>) {
        match value {
            1 => Ok(Kind::A),
            2 => Ok(Kind::NS),
            3 => Ok(Kind::MD),
            4 => Ok(Kind::MF),
            5 => Ok(Kind::CNAME),
            6 => Ok(Kind::SOA),
            7 => Ok(Kind::MB),
            8 => Ok(Kind::MG),
            9 => Ok(Kind::MR),
            10 => Ok(Kind::NULL),
            11 => Ok(Kind::WKS),
            12 => Ok(Kind::PTR),
            13 => Ok(Kind::HINFO),
            14 => Ok(Kind::MINFO),
            15 => Ok(Kind::MX),
            16 => Ok(Kind::TXT),
            _ => Err(()),
        }
    }
}

impl TryFromSpecImpl<u16> for Kind {
    open spec fn obeys_try_from_spec() -> bool {
        true
    }

    open spec fn try_from_spec(value: u16) -> Result<Kind, ()> {
        match Kind::of_code(value) {
            Some(kind) => Ok(kind),
            None => Err(()),
        }
    }
}

/// The type tag at `pos`: a 16-bit number that stands for a type.
pub open spec fn parse_kind(buf: Seq<u8>, pos: int) -> Option<(Kind, int)> {
    match parse_u16(buf, pos) {
        Some((code, next)) => match Kind::of_code(code) {
            Some(kind) => Some((kind, next)),
            None => None,
        },
        None => None,
    }
}

impl Wire for Kind {
    open spec fn parse(buf: Seq<u8>, pos: int) -> Option<(Kind, int)> {
        parse_kind(buf, pos)
    }
}

impl FromBytes for Kind {
    fn from_bytes(buf: &[u8], cursor: &mut usize) -> (value: Option<Kind>) {
        let mut c: usize = *cursor;
        let num: u16 = match pop_u16(buf, &mut c) {
            Some(num) => num,
            None => {
                return None;
            },
        };
        match Kind::try_from(num) {
            Ok(kind) => {
                *cursor = c;
                Some(kind)
            },
            Err(_) => None,
        }
    }
}

/// The class of a resource record.
#[derive(Debug, Copy, Clone, PartialEq, Eq, Structural)]
pub enum Class {
    /// the Internet
    Internet,
}

impl View for Class {
    type V = Class;

    open spec fn view(&self) -> Class {
        *self
    }
}

impl Class {
    /// The number that stands for this class on the wire.
    pub open spec fn spec_code(self) -> u16 {
        1
    }

    /// The class that `code` stands for, if it stands for one.
    pub open spec fn of_code(code: u16) -> Option<Class> {
        if code == 1 {
            Some(Class::Internet)
        } else {
            None
        }
    }

    /// The number that stands for this class on the wire.
    #[verifier::when_used_as_spec(spec_code)]
    pub fn code(self) -> (code: u16)
        ensures
            code == self.spec_code(),
            Class::of_code(code) == Some(self),
    {
        match self {
            Class::Internet => 1,
        }
    }

    /// The usual short name of this class, as text.
    pub open spec fn spec_name(self) -> Seq<char> {
        "IN"@
    }

    /// The usual short name of this class.
    pub fn name(self) -> (name: &'static str)
        ensures
            name@ == self.spec_name(),
    {
        match self {
            Class::Internet => "IN",
        }
    }
}

impl Default for Class {
    fn default() -> (class: Class)
        ensures
            class == Class::Internet,
    {
        Class::Internet
    }
}

impl TryFrom<u16> for Class {
    type Error = ();

    /// The class that `value` stands for; an error for a number that stands
    /// for none.
    fn try_from(value: u16) -> (result: Result<Class, ()>) {
        match value {
            1 => Ok(Class::Internet),
            _ => Err(()),
        }
    }
}

impl TryFromSpecImpl<u16> for Class {
    open spec fn obeys_try_from_spec() -> bool {
        true
    }

    open spec fn try_from_spec(value: u16) -> Result<Class, ()> {
        match Class::of_code(value) {
            Some(class) => Ok(class),
            None => Err(()),
        }
    }
}

/// The class tag at `pos`: a 16-bit number that stands for a class.
pub open spec fn parse_class(buf: Seq<u8>, pos: int) -> Option<(Class, int)> {
    match parse_u16(buf, pos) {
        Some((code, next)) => match Class::of_code(code) {
            Some(class) => Some((class, next)),
            None => None,
        },
        None => None,
    }
}

impl Wire for Class {
    open spec fn parse(buf: Seq<u8>, pos: int) -> Option<(Class, int)> {
        parse_class(buf, pos)
    }
}

impl FromBytes for Class {
    fn from_bytes(buf: &[u8], cursor: &mut usize) -> (value: Option<Class>) {
        let mut c: usize = *cursor;
        let num: u16 = match pop_u16(buf, &mut c) {
            Some(num) => num,
            None => {
                return None;
            },
        };
        match Class::try_from(num) {
            Ok(class) => {
                *cursor = c;
                Some(class)
            },
            Err(_) => None,
        }
    }
}

/// The `len` bytes at `pos`, if the buffer holds that many from there.
pub open spec fn parse_block(buf: Seq<u8>, pos: int, len: nat) -> Option<(Seq<u8>, int)> {
    if 0 <= pos && pos + len <= buf.len() {
        Some((buf.subrange(pos, pos + len), pos + len))
    } else {
        None
    }
}

/// A block of exactly `N` bytes, such as an address.
impl<const N: usize> Wire for [u8; N] {
    open spec fn parse(buf: Seq<u8>, pos: int) -> Option<(Seq<u8>, int)> {
        parse_block(buf, pos, N as nat)
    }
}

impl<const N: usize> FromBytes for [u8; N] {
    fn from_bytes(buf: &[u8], cursor: &mut usize) -> (value: Option<[u8; N]>) {
        let at: usize = *cursor;
        if at <= buf.len() && buf.len() - at >= N {
            let mut block: [u8; N] = [0u8; N];
            let mut i: usize = 0;
            while i < N
                invariant
                    i <= N,
                    at + N <= buf@.len() <= usize::MAX,
                    forall|k: int| 0 <= k < i ==> block@[k] == buf@[at + k],
                decreases N - i,
            {
                block[i] = buf[at + i];
                i += 1;
            }
            assert(block@ =~= buf@.subrange(at as int, at + N));
            *cursor = at + N;
            Some(block)
        } else {
            None
        }
    }
}

/// The payload of a resource record.
#[derive(Debug, Clone, PartialEq, Eq)]
pub enum Content {
    /// The four bytes of an IPv4 address.
    IPv4([u8; 4]),
    /// The sixteen bytes of an IPv6 address.
    IPv6([u8; 16]),
    /// A domain name, as for a canonical name.
    DomainName(DomainName),
    /// The payload of a type that is not told apart, byte for byte.
    Other(Vec<u8>),
}

/// The mathematical value of a [`Content`].
pub enum ContentView {
    IPv4(Seq<u8>),
    IPv6(Seq<u8>),
    DomainName(NameView),
    Other(Seq<u8>),
}

impl View for Content {
    type V = ContentView;

    open spec fn view(&self) -> ContentView {
        match self {
            Content::IPv4(address) => ContentView::IPv4(address@),
            Content::IPv6(address) => ContentView::IPv6(address@),
            Content::DomainName(name) => ContentView::DomainName(name@),
            Content::Other(bytes) => ContentView::Other(bytes@),
        }
    }
}

impl ContentView {
    /// Whether the payload can be encoded: a name that it holds is complete.
    pub open spec fn is_resolved(self) -> bool {
        self matches ContentView::DomainName(name) ==> name is Simple
    }
}

/// The payload on the wire: the bytes of an address or of an opaque
/// payload as they are, and a name in its wire form.
pub open spec fn content_wire(data: ContentView) -> Seq<u8> {
    match data {
        ContentView::IPv4(address) => address,
        ContentView::IPv6(address) => address,
        ContentView::DomainName(name) => name_wire(encode_utf8(name.text())),
        ContentView::Other(bytes) => bytes,
    }
}

impl Content {
    /// Whether the payload can be encoded: a name that it holds is complete.
    pub fn is_resolved(&self) -> (resolved: bool)
        ensures
            resolved == self@.is_resolved(),
    {
        match self {
            Content::DomainName(name) => name.is_simple(),
            _ => true,
        }
    }

    /// Encodes the payload. A name that it holds must be complete.
    pub fn to_bytes(&self) -> (wire: Vec<u8>)
        requires
            self@.is_resolved(),
        ensures
            wire@ == content_wire(self@),
    {
        match self {
            Content::IPv4(address) => {
                let mut buf: Vec<u8> = Vec::with_capacity(4);
                buf.extend_from_slice(address.as_slice());
                assert(buf@ =~= address@);
                buf
            },
            Content::IPv6(address) => {
                let mut buf: Vec<u8> = Vec::with_capacity(16);
                buf.extend_from_slice(address.as_slice());
                assert(buf@ =~= address@);
                buf
            },
            Content::DomainName(name) => name.to_bytes(),
            Content::Other(bytes) => {
                let mut buf: Vec<u8> = Vec::with_capacity(bytes.len());
                buf.extend_from_slice(bytes.as_slice());
                assert(buf@ =~= bytes@);
                buf
            },
        }
    }
}

/// The payload at `pos` of a record of type `kind` that declares `len`
/// bytes of data.
///
/// An address record holds sixteen bytes where the buffer has that many
/// left, and four bytes otherwise. A canonical name and a start of authority
/// hold a domain name. Every other type holds the declared number of bytes.
pub open spec fn parse_content(buf: Seq<u8>, pos: int, kind: Kind, len: u16) -> Option<
    (ContentView, int),
> {
    match kind {
        Kind::A => match parse_block(buf, pos, 16) {
            Some((address, next)) => Some((ContentView::IPv6(address), next)),
            None => match parse_block(buf, pos, 4) {
                Some((address, next)) => Some((ContentView::IPv4(address), next)),
                None => None,
            },
        },
        Kind::CNAME | Kind::SOA => match parse_name(buf, pos) {
            Some((name, next)) => Some((ContentView::DomainName(name), next)),
            None => None,
        },
        _ => match parse_block(buf, pos, len as nat) {
            Some((bytes, next)) => Some((ContentView::Other(bytes), next)),
            None => None,
        },
    }
}

/// One resource record of an answer, authority or additional section.
#[derive(Debug, Clone, PartialEq, Eq)]
pub struct Record {
    pub name: DomainName,
    pub kind: Kind,
    pub class: Class,
    /// Seconds for which the record may be kept.
    pub ttl: i32,
    pub data: Content,
}

/// The mathematical value of a [`Record`].
pub struct RecordView {
    pub name: NameView,
    pub kind: Kind,
    pub class: Class,
    pub ttl: i32,
    pub data: ContentView,
}

impl View for Record {
    type V = RecordView;

    open spec fn view(&self) -> RecordView {
        RecordView {
            name: self.name@,
            kind: self.kind,
            class: self.class,
            ttl: self.ttl,
            data: self.data@,
        }
    }
}

impl RecordView {
    /// Whether the record can be encoded: its own name and a name in its
    /// payload are complete.
    pub open spec fn is_resolved(self) -> bool {
        self.name is Simple && self.data.is_resolved()
    }
}

/// The 16-bit field that declares the length of a payload: the number of
/// its bytes, cut to sixteen bits.
pub open spec fn data_len_wire(payload: Seq<u8>) -> Seq<u8> {
    u16_wire((payload.len() % 0x1_0000) as u16)
}

/// A record on the wire: name, type, class, time to live, length of the
/// payload, and the payload.
pub open spec fn record_wire(record: RecordView) -> Seq<u8> {
    name_wire(encode_utf8(record.name.text())) + u16_wire(record.kind.spec_code()) + u16_wire(
        record.class.spec_code(),
    ) + i32_wire(record.ttl) + data_len_wire(content_wire(record.data)) + content_wire(
        record.data,
    )
}

impl Record {
    /// Whether the record can be encoded: its own name and a name in its
    /// payload are complete.
    pub fn is_resolved(&self) -> (resolved: bool)
        ensures
            resolved == self@.is_resolved(),
    {
        self.name.is_simple() && self.data.is_resolved()
    }

    /// Encodes the record. Its name and a name in its payload must be
    /// complete.
    pub fn to_bytes(&self) -> (wire: Vec<u8>)
        requires
            self@.is_resolved(),
        ensures
            wire@ == record_wire(self@),
    {
        let mut buf: Vec<u8> = self.name.to_bytes();
        let payload: Vec<u8> = self.data.to_bytes();
        let len: usize = payload.len();
        assert(len as u16 == len % 0x1_0000) by (bit_vector);
        push_u16(&mut buf, self.kind.code());
        push_u16(&mut buf, self.class.code());
        push_i32(&mut buf, self.ttl);
        push_u16(&mut buf, #[verifier::truncate] (len as u16));
        buf.extend_from_slice(payload.as_slice());
        assert(buf@ =~= record_wire(self@));
        buf
    }
}

/// The record at `pos`: name, type, class, time to live, declared length of
/// the data, and the data as the type asks for it.
#[verifier::opaque]
pub open spec fn parse_record(buf: Seq<u8>, pos: int) -> Option<(RecordView, int)> {
    match parse_name(buf, pos) {
        None => None,
        Some((name, after_name)) => match parse_kind(buf, after_name) {
            None => None,
            Some((kind, after_kind)) => match parse_class(buf, after_kind) {
                None => None,
                Some((class, after_class)) => match parse_i32(buf, after_class) {
                    None => None,
                    Some((ttl, after_ttl)) => match parse_u16(buf, after_ttl) {
                        None => None,
                        Some((len, data_start)) => match parse_content(buf, data_start, kind, len) {
                            None => None,
                            Some((data, end)) => Some(
                                (RecordView { name, kind, class, ttl, data }, end),
                            ),
                        },
                    },
                },
            },
        },
    }
}

/// Decodes the payload of a record of type `kind` that declares `count`
/// bytes of data.
pub fn pop_content(buf: &[u8], cursor: &mut usize, kind: Kind, count: u16) -> (data: Option<
    Content,
>)
    ensures
        decodes(
            parse_content(buf@, *old(cursor) as int, kind, count),
            *old(cursor) as int,
            data,
            *final(cursor) as int,
        ),
{
    match kind {
        Kind::A => {
            match <[u8; 16] as FromBytes>::from_bytes(buf, cursor) {
                Some(ip6) => Some(Content::IPv6(ip6)),
                None => match <[u8; 4] as FromBytes>::from_bytes(buf, cursor) {
                    Some(ip) => Some(Content::IPv4(ip)),
                    None => None,
                },
            }
        },
        Kind::CNAME | Kind::SOA => {
            match DomainName::from_bytes(buf, cursor) {
                Some(domain) => Some(Content::DomainName(domain)),
                None => None,
            }
        },
        _ => {
            if *cursor > buf.len() {
                return None;
            }
            proof {
                lemma_parse_many_bytes(buf@, *cursor as int, count as nat);
            }
            match pop_collection::<u8>(buf, cursor, count as usize) {
                Some(data) => {
                    assert(views(data@) =~= data@);
                    Some(Content::Other(data))
                },
                None => None,
            }
        },
    }
}

impl Wire for Record {
    open spec fn parse(buf: Seq<u8>, pos: int) -> Option<(RecordView, int)> {
        parse_record(buf, pos)
    }
}

impl FromBytes for Record {
    fn from_bytes(buf: &[u8], cursor: &mut usize) -> (value: Option<Record>) {
        proof {
            reveal(parse_record);
        }
        let mut c: usize = *cursor;
        let name = match DomainName::from_bytes(buf, &mut c) {
            Some(name) => name,
            None => {
                return None;
            },
        };
        let kind = match Kind::from_bytes(buf, &mut c) {
            Some(kind) => kind,
            None => {
                return None;
            },
        };
        let class = match Class::from_bytes(buf, &mut c) {
            Some(class) => class,
            None => {
                return None;
            },
        };
        let ttl: i32 = match pop_i32(buf, &mut c) {
            Some(ttl) => ttl,
            None => {
                return None;
            },
        };
        let count: u16 = match pop_u16(buf, &mut c) {
            Some(count) => count,
            None => {
                return None;
            },
        };
        let data = match pop_content(buf, &mut c, kind, count) {
            Some(data) => data,
            None => {
                return None;
            },
        };
        *cursor = c;
        Some(Record { name, kind, class, ttl, data })
    }
}

} // verus!
