use mergestore::codec::{decode_all, decode_u32, encode_u32, from_bytes, sum_u64};
use mergestore::error::StoreError;

#[test]
fn encode_is_little_endian() {
    assert_eq!(encode_u32(0x0403_0201), vec![1, 2, 3, 4]);
    assert_eq!(encode_u32(0), vec![0, 0, 0, 0]);
    assert_eq!(encode_u32(u32::MAX), vec![255, 255, 255, 255]);
}

#[test]
fn from_bytes_reads_first_four() {
    assert_eq!(from_bytes(&[1, 2, 3, 4, 9]), 0x0403_0201);
    assert_eq!(from_bytes(&encode_u32(123_456_789)), 123_456_789);
}

#[test]
fn decode_u32_short_input_is_malformed() {
    assert_eq!(decode_u32(&[1, 2, 3]), Err(StoreError::MalformedValue));
    assert_eq!(decode_u32(&[7, 0, 0, 0]), Ok(7));
}

#[test]
fn decode_all_two_values() {
    let mut b = encode_u32(5);
    b.extend(encode_u32(7));
    assert_eq!(decode_all(&b), Ok(vec![5, 7]));
}

#[test]
fn decode_all_empty() {
    assert_eq!(decode_all(&[]), Ok(vec![]));
}

#[test]
fn decode_all_ragged_length_is_malformed() {
    assert_eq!(decode_all(&[1, 0, 0, 0, 2]), Err(StoreError::MalformedValue));
    assert_eq!(decode_all(&[1, 0]), Err(StoreError::MalformedValue));
}

#[test]
fn decode_all_is_not_sliding() {
    // Overlapping windows would read three integers here.
    let b = [1, 0, 0, 0, 2, 0, 0, 0];
    assert_eq!(decode_all(&b), Ok(vec![1, 2]));
}

#[test]
fn sum_of_run() {
    let ns: Vec<u32> = (0..10).collect();
    assert_eq!(sum_u64(&ns), Some(45));
    assert_eq!(sum_u64(&vec![]), Some(0));
    assert_eq!(sum_u64(&vec![u32::MAX, u32::MAX]), Some(2 * u32::MAX as u64));
}
