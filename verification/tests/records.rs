use weekend_dns::deserialization::FromBytes;
use weekend_dns::domain_name::DomainName;
use weekend_dns::record::{pop_content, Class, Content, Kind, Record};

const KINDS: [Kind; 16] = [
    Kind::A,
    Kind::NS,
    Kind::MD,
    Kind::MF,
    Kind::CNAME,
    Kind::SOA,
    Kind::MB,
    Kind::MG,
    Kind::MR,
    Kind::NULL,
    Kind::WKS,
    Kind::PTR,
    Kind::HINFO,
    Kind::MINFO,
    Kind::MX,
    Kind::TXT,
];

fn record_bytes(name: &[u8], kind: u16, class: u16, ttl: i32, len: u16, data: &[u8]) -> Vec<u8> {
    let mut buf = name.to_vec();
    buf.extend(kind.to_be_bytes());
    buf.extend(class.to_be_bytes());
    buf.extend(ttl.to_be_bytes());
    buf.extend(len.to_be_bytes());
    buf.extend(data);
    buf
}

fn decode_record(buf: &[u8]) -> (Option<Record>, usize) {
    let mut cursor = 0usize;
    let record = Record::from_bytes(buf, &mut cursor);
    (record, cursor)
}

#[test]
fn kinds_are_numbered_from_one_to_sixteen() {
    for (index, kind) in KINDS.iter().enumerate() {
        let code = index as u16 + 1;
        assert_eq!(kind.code(), code);
        assert_eq!(Kind::try_from(code), Ok(*kind));
    }
}

#[test]
fn numbers_outside_the_table_are_no_kind() {
    assert_eq!(Kind::try_from(0), Err(()));
    assert_eq!(Kind::try_from(17), Err(()));
    assert_eq!(Kind::try_from(28), Err(()));
    assert_eq!(Kind::try_from(200), Err(()));
    assert_eq!(Kind::try_from(0xffff), Err(()));
}

#[test]
fn the_only_class_is_the_internet() {
    assert_eq!(Class::try_from(1), Ok(Class::Internet));
    assert_eq!(Class::Internet.code(), 1);
    assert_eq!(Class::try_from(0), Err(()));
    assert_eq!(Class::try_from(2), Err(()));
    assert_eq!(Class::try_from(255), Err(()));
}

#[test]
fn kinds_and_classes_have_their_usual_names() {
    let names = [
        "A", "NS", "MD", "MF", "CNAME", "SOA", "MB", "MG", "MR", "NULL", "WKS", "PTR", "HINFO",
        "MINFO", "MX", "TXT",
    ];
    for (kind, name) in KINDS.iter().zip(names) {
        assert_eq!(kind.name(), name);
    }
    assert_eq!(Class::Internet.name(), "IN");
}

#[test]
fn defaults_are_address_and_internet() {
    assert_eq!(Kind::default(), Kind::A);
    assert_eq!(Class::default(), Class::Internet);
}

#[test]
fn kind_and_class_decode_from_two_bytes() {
    let buf = [0u8, 5, 0, 1, 0, 200, 0];
    let mut cursor = 0usize;
    assert_eq!(Kind::from_bytes(&buf, &mut cursor), Some(Kind::CNAME));
    assert_eq!(cursor, 2);
    assert_eq!(Class::from_bytes(&buf, &mut cursor), Some(Class::Internet));
    assert_eq!(cursor, 4);
    assert_eq!(Kind::from_bytes(&buf, &mut cursor), None);
    assert_eq!(cursor, 4);
    assert_eq!(Class::from_bytes(&buf, &mut cursor), None);
    assert_eq!(cursor, 4);
    cursor = 6;
    assert_eq!(Kind::from_bytes(&buf, &mut cursor), None);
    assert_eq!(cursor, 6);
}

#[test]
fn address_blocks_decode_by_their_size() {
    let buf = [1u8, 2, 3, 4, 5];
    let mut cursor = 1usize;
    assert_eq!(<[u8; 4] as FromBytes>::from_bytes(&buf, &mut cursor), Some([2, 3, 4, 5]));
    assert_eq!(cursor, 5);
    cursor = 2;
    assert_eq!(<[u8; 4] as FromBytes>::from_bytes(&buf, &mut cursor), None);
    assert_eq!(cursor, 2);
    cursor = 9;
    assert_eq!(<[u8; 4] as FromBytes>::from_bytes(&buf, &mut cursor), None);
    assert_eq!(<[u8; 0] as FromBytes>::from_bytes(&buf, &mut cursor), None);
    cursor = 5;
    assert_eq!(<[u8; 0] as FromBytes>::from_bytes(&buf, &mut cursor), Some([]));
}

#[test]
fn canonical_name_record_holds_a_domain_name() {
    let alias = DomainName::new("alias.example").to_bytes();
    let target = DomainName::new("www.example.com").to_bytes();
    let buf = record_bytes(&alias, 5, 1, 300, target.len() as u16, &target);
    let (record, cursor) = decode_record(&buf);
    assert_eq!(
        record,
        Some(Record {
            name: DomainName::Simple("alias.example".to_string()),
            kind: Kind::CNAME,
            class: Class::Internet,
            ttl: 300,
            data: Content::DomainName(DomainName::Simple("www.example.com".to_string())),
        })
    );
    assert_eq!(cursor, buf.len());
}

#[test]
fn canonical_name_record_may_hold_a_compressed_name() {
    let buf = record_bytes(&[0xc0, 0x0c], 5, 1, 7, 6, &[3, b'w', b'w', b'w', 0xc0, 0x10]);
    let (record, cursor) = decode_record(&buf);
    assert_eq!(
        record,
        Some(Record {
            name: DomainName::Compressed(String::new(), 12),
            kind: Kind::CNAME,
            class: Class::Internet,
            ttl: 7,
            data: Content::DomainName(DomainName::Compressed("www".to_string(), 16)),
        })
    );
    assert_eq!(cursor, buf.len());
}

#[test]
fn start_of_authority_record_holds_a_domain_name() {
    let buf = record_bytes(&[0], 6, 1, 0, 4, &[2, b'n', b's', 0, 9, 9]);
    let (record, cursor) = decode_record(&buf);
    assert_eq!(
        record.map(|record| record.data),
        Some(Content::DomainName(DomainName::Simple("ns".to_string())))
    );
    assert_eq!(cursor, buf.len() - 2);
}

#[test]
fn record_with_an_unknown_type_fails() {
    let buf = record_bytes(&[1, b'a', 0], 200, 1, 60, 4, &[1, 2, 3, 4]);
    let (record, cursor) = decode_record(&buf);
    assert_eq!(record, None);
    assert_eq!(cursor, 0);
}

#[test]
fn record_with_an_unknown_class_fails() {
    let buf = record_bytes(&[1, b'a', 0], 1, 3, 60, 4, &[1, 2, 3, 4]);
    let (record, cursor) = decode_record(&buf);
    assert_eq!(record, None);
    assert_eq!(cursor, 0);
}

#[test]
fn address_record_with_four_bytes_left_holds_four() {
    let buf = record_bytes(&[0xc0, 0x0c], 1, 1, 3600, 4, &[93, 184, 216, 34]);
    let (record, cursor) = decode_record(&buf);
    assert_eq!(
        record,
        Some(Record {
            name: DomainName::Compressed(String::new(), 12),
            kind: Kind::A,
            class: Class::Internet,
            ttl: 3600,
            data: Content::IPv4([93, 184, 216, 34]),
        })
    );
    assert_eq!(cursor, buf.len());
}

#[test]
fn address_record_with_sixteen_bytes_left_holds_sixteen() {
    let data: Vec<u8> = (1u8..=20).collect();
    let buf = record_bytes(&[0], 1, 1, -1, 4, &data);
    let (record, cursor) = decode_record(&buf);
    let record = record.expect("a record was expected");
    assert_eq!(record.ttl, -1);
    assert_eq!(
        record.data,
        Content::IPv6([1, 2, 3, 4, 5, 6, 7, 8, 9, 10, 11, 12, 13, 14, 15, 16])
    );
    assert_eq!(cursor, buf.len() - 4);
}

#[test]
fn address_record_with_fifteen_bytes_left_holds_four() {
    let data: Vec<u8> = (1u8..=15).collect();
    let buf = record_bytes(&[0], 1, 1, 0, 4, &data);
    let (record, cursor) = decode_record(&buf);
    assert_eq!(record.map(|record| record.data), Some(Content::IPv4([1, 2, 3, 4])));
    assert_eq!(cursor, buf.len() - 11);
}

#[test]
fn address_record_with_three_bytes_left_fails() {
    let buf = record_bytes(&[0], 1, 1, 0, 4, &[1, 2, 3]);
    let (record, cursor) = decode_record(&buf);
    assert_eq!(record, None);
    assert_eq!(cursor, 0);
}

#[test]
fn other_types_hold_the_declared_number_of_bytes() {
    let buf = record_bytes(&[0], 16, 1, 5, 3, &[2, b'h', b'i', 0xee]);
    let (record, cursor) = decode_record(&buf);
    assert_eq!(
        record,
        Some(Record {
            name: DomainName::Simple(String::new()),
            kind: Kind::TXT,
            class: Class::Internet,
            ttl: 5,
            data: Content::Other(vec![2, b'h', b'i']),
        })
    );
    assert_eq!(cursor, buf.len() - 1);
    let buf = record_bytes(&[0], 2, 1, 5, 0, &[]);
    let (record, _) = decode_record(&buf);
    assert_eq!(record.map(|record| record.data), Some(Content::Other(vec![])));
}

#[test]
fn other_types_fail_when_the_declared_bytes_are_not_there() {
    let buf = record_bytes(&[0], 15, 1, 5, 4, &[1, 2, 3]);
    let (record, cursor) = decode_record(&buf);
    assert_eq!(record, None);
    assert_eq!(cursor, 0);
}

#[test]
fn record_cut_short_in_its_fixed_fields_fails() {
    let whole = record_bytes(&[1, b'a', 0], 1, 1, 60, 4, &[1, 2, 3, 4]);
    for len in 0..whole.len() {
        let (record, cursor) = decode_record(&whole[..len]);
        assert_eq!(record, None);
        assert_eq!(cursor, 0);
    }
    let (record, cursor) = decode_record(&whole);
    assert!(record.is_some());
    assert_eq!(cursor, whole.len());
}

#[test]
fn pop_content_follows_the_kind() {
    let buf = [3u8, b'c', b'o', b'm', 0, 1, 2];
    let mut cursor = 0usize;
    assert_eq!(
        pop_content(&buf, &mut cursor, Kind::CNAME, 99),
        Some(Content::DomainName(DomainName::Simple("com".to_string())))
    );
    assert_eq!(cursor, 5);
    cursor = 0;
    assert_eq!(
        pop_content(&buf, &mut cursor, Kind::A, 99),
        Some(Content::IPv4([3, b'c', b'o', b'm']))
    );
    assert_eq!(cursor, 4);
    cursor = 0;
    assert_eq!(pop_content(&buf, &mut cursor, Kind::MX, 2), Some(Content::Other(vec![3, b'c'])));
    assert_eq!(cursor, 2);
    cursor = 0;
    assert_eq!(pop_content(&buf, &mut cursor, Kind::MX, 8), None);
    assert_eq!(cursor, 0);
}

#[test]
fn payloads_encode_to_their_bytes() {
    assert_eq!(Content::IPv4([93, 184, 216, 34]).to_bytes(), vec![93, 184, 216, 34]);
    let address: [u8; 16] = [0x20, 0x01, 0x0d, 0xb8, 0, 0, 0, 0, 0, 0, 0, 0, 0, 0, 0, 1];
    assert_eq!(Content::IPv6(address).to_bytes(), address.to_vec());
    assert_eq!(
        Content::DomainName(DomainName::new("ns.example")).to_bytes(),
        vec![2, b'n', b's', 7, b'e', b'x', b'a', b'm', b'p', b'l', b'e', 0]
    );
    assert_eq!(Content::Other(vec![1, 2, 3]).to_bytes(), vec![1, 2, 3]);
    assert_eq!(Content::Other(vec![]).to_bytes(), Vec::<u8>::new());
}

#[test]
fn payloads_and_records_know_whether_they_can_be_encoded() {
    assert!(Content::IPv4([1, 2, 3, 4]).is_resolved());
    assert!(Content::Other(vec![0xc0, 0x0c]).is_resolved());
    assert!(Content::DomainName(DomainName::new("a")).is_resolved());
    assert!(!Content::DomainName(DomainName::Compressed(String::new(), 12)).is_resolved());
    let mut record = Record {
        name: DomainName::new("a"),
        kind: Kind::CNAME,
        class: Class::Internet,
        ttl: 1,
        data: Content::DomainName(DomainName::new("b")),
    };
    assert!(record.is_resolved());
    record.data = Content::DomainName(DomainName::Compressed("b".to_string(), 12));
    assert!(!record.is_resolved());
    record.data = Content::Other(vec![]);
    record.name = DomainName::Compressed(String::new(), 12);
    assert!(!record.is_resolved());
}

#[test]
fn record_encodes_its_fields_in_order() {
    let record = Record {
        name: DomainName::new("a.b"),
        kind: Kind::TXT,
        class: Class::Internet,
        ttl: -2,
        data: Content::Other(vec![2, b'h', b'i']),
    };
    assert_eq!(
        record.to_bytes(),
        vec![1, b'a', 1, b'b', 0, 0, 16, 0, 1, 0xff, 0xff, 0xff, 0xfe, 0, 3, 2, b'h', b'i']
    );
    let alias = Record {
        name: DomainName::empty(),
        kind: Kind::CNAME,
        class: Class::Internet,
        ttl: 3600,
        data: Content::DomainName(DomainName::new("x")),
    };
    assert_eq!(alias.to_bytes(), vec![0, 0, 5, 0, 1, 0, 0, 0x0e, 0x10, 0, 3, 1, b'x', 0]);
}

#[test]
fn record_declares_the_length_of_a_long_payload() {
    let record = Record {
        name: DomainName::empty(),
        kind: Kind::NULL,
        class: Class::Internet,
        ttl: 0,
        data: Content::Other(vec![7; 0x0203]),
    };
    let wire = record.to_bytes();
    assert_eq!(&wire[..11], &[0, 0, 10, 0, 1, 0, 0, 0, 0, 2, 3]);
    assert_eq!(wire.len(), 11 + 0x0203);
    let (decoded, cursor) = decode_record(&wire);
    assert_eq!(decoded, Some(record));
    assert_eq!(cursor, wire.len());
}

#[test]
fn plain_records_decode_to_what_was_encoded() {
    let records = [
        Record {
            name: DomainName::new("www.example.com"),
            kind: Kind::CNAME,
            class: Class::Internet,
            ttl: 300,
            data: Content::DomainName(DomainName::new("example.com")),
        },
        Record {
            name: DomainName::new("example.com"),
            kind: Kind::SOA,
            class: Class::Internet,
            ttl: i32::MAX,
            data: Content::DomainName(DomainName::empty()),
        },
        Record {
            name: DomainName::new("example.com"),
            kind: Kind::A,
            class: Class::Internet,
            ttl: 60,
            data: Content::IPv6([0xfe, 0x80, 0, 0, 0, 0, 0, 0, 0, 0, 0, 0, 0, 0, 0, 9]),
        },
        Record {
            name: DomainName::empty(),
            kind: Kind::MX,
            class: Class::Internet,
            ttl: i32::MIN,
            data: Content::Other(vec![0, 10, 0xc0, 0x0c]),
        },
    ];
    for record in records {
        let mut wire = record.to_bytes();
        let len = wire.len();
        wire.extend([0xaa; 40]);
        let (decoded, cursor) = decode_record(&wire);
        assert_eq!(decoded, Some(record));
        assert_eq!(cursor, len);
    }
}

#[test]
fn four_byte_address_comes_back_only_at_the_end_of_the_buffer() {
    let record = Record {
        name: DomainName::new("example.com"),
        kind: Kind::A,
        class: Class::Internet,
        ttl: 60,
        data: Content::IPv4([93, 184, 216, 34]),
    };
    let mut wire = record.to_bytes();
    let (decoded, cursor) = decode_record(&wire);
    assert_eq!(decoded, Some(record.clone()));
    assert_eq!(cursor, wire.len());
    wire.extend([1, 2, 3, 4, 5, 6, 7, 8, 9, 10, 11, 12]);
    let (decoded, cursor) = decode_record(&wire);
    let decoded = decoded.expect("a record was expected");
    assert_eq!(
        decoded.data,
        Content::IPv6([93, 184, 216, 34, 1, 2, 3, 4, 5, 6, 7, 8, 9, 10, 11, 12])
    );
    assert_eq!(cursor, wire.len());
}
