use sip::bytes::{ascii_bytes, decimal_bytes, encode, encode_i32, encode_i64, write_bytes};
use sip::target::ByteOrder;

#[test]
fn integers_stand_in_the_byte_order_of_the_host() {
    for value in [0, 1, -1, 42, -42, 0x1234_5678, i32::MAX, i32::MIN] {
        assert_eq!(encode_i32(ByteOrder::Little, value), value.to_le_bytes().to_vec());
        assert_eq!(encode_i32(ByteOrder::Big, value), value.to_be_bytes().to_vec());
    }
    for value in [0, 1, -1, 0x1234_5678_9abc_def0, i64::MAX, i64::MIN] {
        assert_eq!(encode_i64(ByteOrder::Little, value), value.to_le_bytes().to_vec());
        assert_eq!(encode_i64(ByteOrder::Big, value), value.to_be_bytes().to_vec());
    }
}

#[test]
fn encoding_keeps_the_lowest_bytes() {
    assert_eq!(encode(ByteOrder::Little, 0x1_0203_0405, 4), vec![5, 4, 3, 2]);
    assert_eq!(encode(ByteOrder::Big, 0x1_0203_0405, 4), vec![2, 3, 4, 5]);
    assert_eq!(encode(ByteOrder::Little, 0x0102, 8), vec![2, 1, 0, 0, 0, 0, 0, 0]);
    assert_eq!(encode(ByteOrder::Big, 0x0102, 8), vec![0, 0, 0, 0, 0, 0, 1, 2]);
    assert_eq!(encode(ByteOrder::Big, 7, 0), Vec::<u8>::new());
}

#[test]
fn writing_replaces_only_the_region() {
    let mut data = vec![1, 2, 3, 4, 5];
    write_bytes(&mut data, 1, &[9, 8]);
    assert_eq!(data, vec![1, 9, 8, 4, 5]);
    write_bytes(&mut data, 5, &[]);
    assert_eq!(data, vec![1, 9, 8, 4, 5]);
    write_bytes(&mut data, 0, &[0, 0, 0, 0, 0]);
    assert_eq!(data, vec![0; 5]);
}

#[test]
fn numerals_and_texts_become_bytes() {
    assert_eq!(decimal_bytes(0), b"0".to_vec());
    assert_eq!(decimal_bytes(1907), b"1907".to_vec());
    assert_eq!(decimal_bytes(u64::MAX), u64::MAX.to_string().into_bytes());
    assert_eq!(ascii_bytes("grow_memory"), b"grow_memory".to_vec());
}
