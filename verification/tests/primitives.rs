use weekend_dns::deserialization::{pop_collection, pop_i32, pop_u16, pop_u8, FromBytes};
use weekend_dns::serialization::{pair, push_i32, push_u16, to_hex_bytes};

#[test]
fn pop_u8_reads_one_byte_and_advances() {
    let buf = [7u8, 9];
    let mut cursor = 0usize;
    assert_eq!(pop_u8(&buf, &mut cursor), Some(7));
    assert_eq!(cursor, 1);
    assert_eq!(pop_u8(&buf, &mut cursor), Some(9));
    assert_eq!(cursor, 2);
}

#[test]
fn pop_u8_at_the_end_is_none_and_keeps_the_cursor() {
    let buf = [7u8];
    let mut cursor = 1usize;
    assert_eq!(pop_u8(&buf, &mut cursor), None);
    assert_eq!(cursor, 1);
}

#[test]
fn pop_u8_far_beyond_the_end_is_none() {
    let buf = [7u8];
    let mut cursor = usize::MAX;
    assert_eq!(pop_u8(&buf, &mut cursor), None);
    assert_eq!(cursor, usize::MAX);
    let empty: [u8; 0] = [];
    let mut start = 0usize;
    assert_eq!(pop_u8(&empty, &mut start), None);
}

#[test]
fn pop_u16_is_big_endian() {
    let buf = [0x12u8, 0x34, 0xff, 0x00];
    let mut cursor = 0usize;
    assert_eq!(pop_u16(&buf, &mut cursor), Some(0x1234));
    assert_eq!(cursor, 2);
    assert_eq!(pop_u16(&buf, &mut cursor), Some(0xff00));
    assert_eq!(cursor, 4);
}

#[test]
fn pop_u16_with_one_byte_left_is_none_and_keeps_the_cursor() {
    let buf = [0x12u8, 0x34, 0x56];
    let mut cursor = 2usize;
    assert_eq!(pop_u16(&buf, &mut cursor), None);
    assert_eq!(cursor, 2);
    let mut beyond = usize::MAX;
    assert_eq!(pop_u16(&buf, &mut beyond), None);
    assert_eq!(beyond, usize::MAX);
}

#[test]
fn pop_i32_reads_twos_complement() {
    let mut cursor = 0usize;
    assert_eq!(pop_i32(&[0xff, 0xff, 0xff, 0xfe], &mut cursor), Some(-2));
    assert_eq!(cursor, 4);
    let mut cursor = 0usize;
    assert_eq!(pop_i32(&[0x80, 0, 0, 0], &mut cursor), Some(i32::MIN));
    let mut cursor = 0usize;
    assert_eq!(pop_i32(&[0x7f, 0xff, 0xff, 0xff], &mut cursor), Some(i32::MAX));
    let mut cursor = 0usize;
    assert_eq!(pop_i32(&[0x00, 0x00, 0x0e, 0x10], &mut cursor), Some(3600));
    let mut cursor = 1usize;
    assert_eq!(pop_i32(&[9, 0x01, 0x02, 0x03, 0x04], &mut cursor), Some(0x01020304));
    assert_eq!(cursor, 5);
}

#[test]
fn pop_i32_with_three_bytes_left_is_none() {
    let buf = [1u8, 2, 3];
    let mut cursor = 0usize;
    assert_eq!(pop_i32(&buf, &mut cursor), None);
    assert_eq!(cursor, 0);
}

#[test]
fn from_bytes_of_the_primitive_types() {
    let buf = [0x41u8, 0xe9, 0xff, 0xff, 0xff, 0xff];
    let mut cursor = 0usize;
    assert_eq!(<u8 as FromBytes>::from_bytes(&buf, &mut cursor), Some(0x41));
    assert_eq!(<char as FromBytes>::from_bytes(&buf, &mut cursor), Some('\u{e9}'));
    assert_eq!(<i32 as FromBytes>::from_bytes(&buf, &mut cursor), Some(-1));
    assert_eq!(cursor, 6);
    assert_eq!(<char as FromBytes>::from_bytes(&buf, &mut cursor), None);
    assert_eq!(<u8 as FromBytes>::from_bytes(&buf, &mut cursor), None);
    assert_eq!(<i32 as FromBytes>::from_bytes(&buf, &mut cursor), None);
    assert_eq!(cursor, 6);
}

#[test]
fn pop_collection_reads_exactly_count_items() {
    let buf = [1u8, 2, 3, 4];
    let mut cursor = 0usize;
    let items: Option<Vec<u8>> = pop_collection(&buf, &mut cursor, 3);
    assert_eq!(items, Some(vec![1, 2, 3]));
    assert_eq!(cursor, 3);
}

#[test]
fn pop_collection_fails_as_a_whole_when_one_item_is_missing() {
    let buf = [1u8, 2, 3, 4];
    let mut cursor = 1usize;
    let items: Option<Vec<u8>> = pop_collection(&buf, &mut cursor, 4);
    assert_eq!(items, None);
    assert_eq!(cursor, 1);
}

#[test]
fn pop_collection_of_nothing_is_empty() {
    let buf = [1u8];
    let mut cursor = 1usize;
    let items: Option<Vec<i32>> = pop_collection(&buf, &mut cursor, 0);
    assert_eq!(items, Some(vec![]));
    assert_eq!(cursor, 1);
}

#[test]
fn pop_collection_of_characters_and_numbers() {
    let buf = [0x77u8, 0x2e, 0xff, 0, 0, 0, 5, 0, 0, 1, 0];
    let mut cursor = 0usize;
    let chars: Option<Vec<char>> = pop_collection(&buf, &mut cursor, 3);
    assert_eq!(chars, Some(vec!['w', '.', '\u{ff}']));
    let numbers: Option<Vec<i32>> = pop_collection(&buf, &mut cursor, 2);
    assert_eq!(numbers, Some(vec![5, 256]));
    assert_eq!(cursor, 11);
}

#[test]
fn pair_gives_high_byte_first() {
    assert_eq!(pair(0x8298), (0x82, 0x98));
    assert_eq!(pair(0), (0, 0));
    assert_eq!(pair(0x00ff), (0, 0xff));
    assert_eq!(pair(0xffff), (0xff, 0xff));
}

#[test]
fn push_u16_appends_two_bytes() {
    let mut buf = vec![9u8];
    push_u16(&mut buf, 0x0100);
    push_u16(&mut buf, 1);
    assert_eq!(buf, vec![9, 1, 0, 0, 1]);
}

#[test]
fn push_u16_and_pop_u16_agree() {
    for num in [0u16, 1, 255, 256, 0x1234, 0xfffe, 0xffff] {
        let mut buf = Vec::new();
        push_u16(&mut buf, num);
        let mut cursor = 0usize;
        assert_eq!(pop_u16(&buf, &mut cursor), Some(num));
        assert_eq!(cursor, 2);
    }
}

#[test]
fn to_hex_bytes_writes_two_lower_case_digits_per_byte() {
    assert_eq!(to_hex_bytes(&[0x00, 0xff, 0x1a, 0xb0, 0x09]), "00ff1ab009");
    assert_eq!(to_hex_bytes(&[]), "");
    assert_eq!(to_hex_bytes(&[0x0a]), "0a");
    let all: Vec<u8> = (0u8..=255).collect();
    let expected: String = all.iter().map(|byte| format!("{:02x}", byte)).collect();
    assert_eq!(to_hex_bytes(&all), expected);
}

#[test]
fn push_i32_appends_four_bytes_in_network_order() {
    let mut buf = vec![9u8];
    push_i32(&mut buf, 3600);
    push_i32(&mut buf, -2);
    push_i32(&mut buf, i32::MIN);
    push_i32(&mut buf, 0x01020304);
    assert_eq!(
        buf,
        vec![9, 0, 0, 0x0e, 0x10, 0xff, 0xff, 0xff, 0xfe, 0x80, 0, 0, 0, 1, 2, 3, 4]
    );
}

#[test]
fn push_i32_and_pop_i32_agree() {
    for num in [0i32, 1, -1, 255, 256, -256, 65536, 0x7fff_ffff, i32::MIN, -123_456_789] {
        let mut buf = Vec::new();
        push_i32(&mut buf, num);
        assert_eq!(buf, num.to_be_bytes().to_vec());
        let mut cursor = 0usize;
        assert_eq!(pop_i32(&buf, &mut cursor), Some(num));
        assert_eq!(cursor, 4);
    }
}
