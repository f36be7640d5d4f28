use kura::binary::{read_bytes, read_le};
use kura::Error;

#[test]
fn read_le_reads_integers_and_advances_offset() {
    let bytes = [
        0x01, 0x00, // u16 = 1
        0x02, 0x00, 0x00, 0x00, // u32 = 2
        0x03, 0x00, 0x00, 0x00, 0x00, 0x00, 0x00, 0x00, // u64 = 3
    ];
    let mut offset = 0;

    let value_u16: u16 = read_le(&bytes, &mut offset, "test", "test", "u16").expect("read u16");
    assert_eq!(value_u16, 1);
    assert_eq!(offset, 2);

    let value_u32: u32 = read_le(&bytes, &mut offset, "test", "test", "u32").expect("read u32");
    assert_eq!(value_u32, 2);
    assert_eq!(offset, 6);

    let value_u64: u64 = read_le(&bytes, &mut offset, "test", "test", "u64").expect("read u64");
    assert_eq!(value_u64, 3);
    assert_eq!(offset, 14);
}

#[test]
fn read_le_returns_corruption_when_truncated() {
    let bytes: &[u8] = &[0x01];
    let mut offset = 0;

    let err = read_le::<u16>(bytes, &mut offset, "test", "context", "field")
        .expect_err("read truncated value should return corruption");

    assert!(matches!(err, Error::Corruption { message }
        if message == "context is truncated while reading field: test"));
    assert_eq!(offset, 0);
}

#[test]
fn read_bytes_reads_bytes_and_advances_offset() {
    let bytes = b"abcd";
    let mut offset = 1;

    let value =
        read_bytes(bytes, &mut offset, 3, "test", "context", "field").expect("read bytes");

    assert_eq!(value, b"bcd");
    assert_eq!(offset, 4)
}

#[test]
fn read_bytes_returns_corruption_when_truncated() {
    let bytes = b"abcd";
    let mut offset = 0;

    let err = read_bytes(bytes, &mut offset, 5, "test", "context", "field")
        .expect_err("read truncated bytes should return corruption");

    assert!(matches!(err, Error::Corruption {message}
        if message == "context is truncated while reading field: test"));
    assert_eq!(offset, 0)
}

#[test]
fn read_le_decodes_multibyte_little_endian_values() {
    let bytes = [0x34, 0x12, 0x78, 0x56, 0x34, 0x12, 0xef, 0xcd, 0xab, 0x89, 0x67, 0x45, 0x23, 0x01];
    let mut offset = 0;

    let a: u16 = read_le(&bytes, &mut offset, "p", "c", "f").expect("u16");
    assert_eq!(a, 0x1234);
    let b: u32 = read_le(&bytes, &mut offset, "p", "c", "f").expect("u32");
    assert_eq!(b, 0x1234_5678);
    let mut offset = 6;
    let c: u64 = read_le(&bytes, &mut offset, "p", "c", "f").expect("u64");
    assert_eq!(c, 0x0123_4567_89ab_cdef);
    assert_eq!(offset, 14);
}

#[test]
fn read_le_decodes_maximum_values() {
    let bytes = [0xff; 8];
    let mut offset = 0;
    let v: u64 = read_le(&bytes, &mut offset, "p", "c", "f").expect("u64");
    assert_eq!(v, u64::MAX);
    let mut offset = 4;
    let w: u32 = read_le(&bytes, &mut offset, "p", "c", "f").expect("u32");
    assert_eq!(w, u32::MAX);
    assert_eq!(offset, 8);
}

#[test]
fn read_le_at_end_of_buffer_is_truncated() {
    let bytes = [1u8, 2, 3, 4];
    let mut offset = 4;
    let err = read_le::<u32>(&bytes, &mut offset, "path", "ctx", "fld").expect_err("truncated");
    assert!(matches!(err, Error::Corruption { message }
        if message == "ctx is truncated while reading fld: path"));
    assert_eq!(offset, 4);
}
