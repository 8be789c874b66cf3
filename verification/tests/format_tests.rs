use measurement_program::format::byte_array_to_str;
use measurement_program::format::i32_to_str;
use measurement_program::format::reverse;
use measurement_program::format::u32_to_str;
use measurement_program::format::FormatError;

#[test]
fn u32_zero() {
    let mut buf: Vec<u8> = vec![0xff; 8];
    assert_eq!(u32_to_str(0, &mut buf), Ok(1));
    assert_eq!(buf, vec![0x30, 0, 0, 0, 0, 0, 0, 0]);
}

#[test]
fn u32_plain_value() {
    let mut buf: Vec<u8> = vec![0xff; 16];
    assert_eq!(u32_to_str(1234567890, &mut buf), Ok(10));
    assert_eq!(&buf[..10], b"1234567890");
    assert_eq!(&buf[10..], &[0u8; 6]);
}

#[test]
fn u32_max_value() {
    let mut buf: Vec<u8> = vec![0xff; 11];
    assert_eq!(u32_to_str(u32::MAX, &mut buf), Ok(10));
    assert_eq!(&buf[..10], b"4294967295");
    assert_eq!(buf[10], 0);
}

#[test]
fn u32_buffer_too_small() {
    // Five digits plus the nul need six bytes; five are not enough.
    let mut buf: Vec<u8> = vec![0xff; 5];
    assert_eq!(u32_to_str(12345, &mut buf), Err(FormatError::BufferTooSmall));
    assert_eq!(buf, vec![0u8; 5]);
    let mut exact: Vec<u8> = vec![0xff; 6];
    assert_eq!(u32_to_str(12345, &mut exact), Ok(5));
    assert_eq!(&exact[..5], b"12345");
}

#[test]
fn i32_negative_value() {
    let mut buf: Vec<u8> = vec![0xff; 16];
    assert_eq!(i32_to_str(-4578, &mut buf), Ok(5));
    assert_eq!(&buf[..5], b"-4578");
    assert_eq!(buf[5], 0);
}

#[test]
fn i32_extremes_and_zero() {
    let mut buf: Vec<u8> = vec![0xff; 16];
    assert_eq!(i32_to_str(i32::MIN, &mut buf), Ok(11));
    assert_eq!(&buf[..11], b"-2147483648");
    assert_eq!(i32_to_str(i32::MAX, &mut buf), Ok(10));
    assert_eq!(&buf[..10], b"2147483647");
    assert_eq!(i32_to_str(0, &mut buf), Ok(1));
    assert_eq!(&buf[..2], &[0x30, 0]);
}

#[test]
fn i32_buffer_too_small() {
    let mut buf: Vec<u8> = vec![0xff; 5];
    assert_eq!(i32_to_str(-4578, &mut buf), Err(FormatError::BufferTooSmall));
    assert_eq!(buf, vec![0u8; 5]);
}

#[test]
fn reverse_inner_range() {
    let mut buf: Vec<u8> = vec![1, 2, 3, 4, 5];
    reverse(&mut buf, 1, 3);
    assert_eq!(buf, vec![1, 4, 3, 2, 5]);
}

#[test]
fn reverse_whole_and_empty_range() {
    let mut buf: Vec<u8> = vec![1, 2, 3, 4];
    reverse(&mut buf, 0, 3);
    assert_eq!(buf, vec![4, 3, 2, 1]);
    let mut same: Vec<u8> = vec![1, 2, 3, 4];
    reverse(&mut same, 2, 2);
    assert_eq!(same, vec![1, 2, 3, 4]);
    reverse(&mut same, 3, 1);
    assert_eq!(same, vec![1, 2, 3, 4]);
}

#[test]
fn byte_array_reads_up_to_nul() {
    let bytes: Vec<u8> = b"abc\0xyz".to_vec();
    assert_eq!(byte_array_to_str(&bytes), Ok("abc"));
    let empty: Vec<u8> = vec![0];
    assert_eq!(byte_array_to_str(&empty), Ok(""));
}

#[test]
fn byte_array_requires_nul() {
    let bytes: Vec<u8> = b"abc".to_vec();
    assert_eq!(byte_array_to_str(&bytes), Err("No null terminator found"));
}

#[test]
fn byte_array_rejects_invalid_utf8() {
    let bytes: Vec<u8> = vec![0xff, 0xfe, 0];
    assert_eq!(byte_array_to_str(&bytes), Err("Invalid UTF-8 sequence"));
}

#[test]
fn byte_array_accepts_multibyte_text() {
    let mut bytes: Vec<u8> = "Ω50".as_bytes().to_vec();
    bytes.push(0);
    bytes.push(0x41);
    assert_eq!(byte_array_to_str(&bytes), Ok("Ω50"));
}
