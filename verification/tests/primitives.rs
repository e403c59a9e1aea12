//! Checks of the primitive readers, the variable-length integer codings and
//! the SFNT checksum, on concrete values.

use wuff::buffer::Buffer;
use wuff::round4;
use wuff::variable_length::{Read255UShort, ReadBase128, Size255UShort, Write255UShort, WriteBase128};
use wuff::woff2_common::{compute_checksum, CollectionHeaderSize, ComputeULongSum};

fn roundtrip_255(v: u16) {
    let enc = Write255UShort(v);
    let mut buf = Buffer::new(&enc);
    let got = Read255UShort(&mut buf).expect("decode of an encoded value");
    assert_eq!(got, v);
    assert_eq!(buf.offset(), enc.len());
}

#[test]
fn variable_255_roundtrip() {
    for v in [0u16, 1, 42, 252, 253, 300, 505, 506, 700, 761, 762, 1000, 0x1234, 65535] {
        roundtrip_255(v);
    }
}

#[test]
fn variable_255_decodes_each_branch() {
    let mut buf = Buffer::new(&[253, 0x12, 0x34]);
    assert_eq!(Read255UShort(&mut buf).unwrap(), 0x1234);

    let mut buf = Buffer::new(&[255, 5]);
    assert_eq!(Read255UShort(&mut buf).unwrap(), 258);

    let mut buf = Buffer::new(&[254, 5]);
    assert_eq!(Read255UShort(&mut buf).unwrap(), 511);

    let mut buf = Buffer::new(&[42]);
    assert_eq!(Read255UShort(&mut buf).unwrap(), 42);
}

#[test]
fn variable_255_truncated_fails() {
    let mut buf = Buffer::new(&[]);
    assert!(Read255UShort(&mut buf).is_err());
    let mut buf = Buffer::new(&[253, 0x12]);
    assert!(Read255UShort(&mut buf).is_err());
    let mut buf = Buffer::new(&[255]);
    assert!(Read255UShort(&mut buf).is_err());
}

#[test]
fn variable_255_sizes() {
    assert_eq!(Size255UShort(0), 1);
    assert_eq!(Size255UShort(252), 1);
    assert_eq!(Size255UShort(253), 2);
    assert_eq!(Size255UShort(761), 2);
    assert_eq!(Size255UShort(762), 3);
    assert_eq!(Size255UShort(65535), 3);
}

fn roundtrip_base128(v: u32) {
    let enc = WriteBase128(v);
    let mut buf = Buffer::new(&enc);
    let got = ReadBase128(&mut buf).expect("decode of an encoded value");
    assert_eq!(got, v);
    assert_eq!(buf.offset(), enc.len());
}

#[test]
fn base128_roundtrip() {
    for v in [0u32, 1, 63, 127, 128, 255, 16383, 16384, 0x12345, 0x0FFF_FFFF, 0xFFFF_FFFF] {
        roundtrip_base128(v);
    }
}

#[test]
fn base128_rejects_leading_zero() {
    // 0x80 as a first byte is a disallowed leading zero.
    let mut buf = Buffer::new(&[0x80, 0x01]);
    assert!(ReadBase128(&mut buf).is_err());
}

#[test]
fn base128_rejects_overflow() {
    // This would accumulate to 2^32, one past the largest 32-bit value.
    let mut buf = Buffer::new(&[0x90, 0x80, 0x80, 0x80, 0x00]);
    assert!(ReadBase128(&mut buf).is_err());
}

#[test]
fn base128_rejects_unterminated() {
    // Five continuation bytes without a terminator.
    let mut buf = Buffer::new(&[0x81, 0x81, 0x81, 0x81, 0x81]);
    assert!(ReadBase128(&mut buf).is_err());
}

#[test]
fn checksum_values() {
    assert_eq!(compute_checksum(&[]), 0);
    assert_eq!(compute_checksum(&[0, 0, 0, 1]), 1);
    assert_eq!(compute_checksum(&[1]), 0x0100_0000);
    assert_eq!(compute_checksum(&[0, 0, 0, 1, 0, 0, 0, 2]), 3);
    // The sum wraps modulo 2^32.
    assert_eq!(compute_checksum(&[0xFF, 0xFF, 0xFF, 0xFF, 0, 0, 0, 2]), 1);
    // A short tail is read as if zero-padded to 4 bytes.
    assert_eq!(compute_checksum(&[0, 0, 0, 1, 0x12]), 0x1200_0001);
}

#[test]
fn round4_values() {
    assert_eq!(round4(0), 0);
    assert_eq!(round4(1), 4);
    assert_eq!(round4(3), 4);
    assert_eq!(round4(4), 4);
    assert_eq!(round4(5), 8);
    assert_eq!(round4(usize::MAX), usize::MAX);
}

#[test]
fn buffer_reads_big_endian() {
    let data = [0x12u8, 0x34, 0x56, 0x78, 0xFF, 0xFE];
    let mut buf = Buffer::new(&data);
    let mut v32: u32 = 0;
    assert!(buf.ReadU32(&mut v32));
    assert_eq!(v32, 0x12345678);
    let mut v16s: i16 = 0;
    assert!(buf.ReadS16(&mut v16s));
    assert_eq!(v16s, -2);
    let mut v8: u8 = 0;
    assert!(!buf.ReadU8(&mut v8));
    assert!(buf.is_empty() == false);
    assert_eq!(buf.len(), 6);
    assert_eq!(buf.offset(), 6);
}

#[test]
fn buffer_skip_and_read() {
    let data = [1u8, 2, 3, 4, 5];
    let mut buf = Buffer::new(&data);
    assert!(buf.Skip(2));
    let mut dest = [0u8; 2];
    assert!(buf.Read(&mut dest, 2));
    assert_eq!(dest, [3, 4]);
    assert!(!buf.Skip(2));
    assert_eq!(buf.remaining_as_slice(), &[5]);
}

#[test]
fn checksum_prefix() {
    let data = [0u8, 0, 0, 1, 0, 0, 0, 2, 9, 9, 9, 9];
    assert_eq!(ComputeULongSum(&data, 8), 3);
    assert_eq!(ComputeULongSum(&data, 4), 1);
    assert_eq!(ComputeULongSum(&data, 0), 0);
}

#[test]
fn collection_header_sizes() {
    assert_eq!(CollectionHeaderSize(0x00010000, 2), 20);
    assert_eq!(CollectionHeaderSize(0x00020000, 2), 32);
    assert_eq!(CollectionHeaderSize(0x00030000, 2), 0);
}
