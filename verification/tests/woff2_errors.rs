//! Malformed-input scenarios for the WOFF2 decoder: truncation, bad
//! signatures, implausible sizes and structural mismatches.

use wuff::codec::Decompressor;
use wuff::decompress::decompress_woff2_with_brotli;
use wuff::error::WuffErr;

struct IdentityCodec;

impl Decompressor for IdentityCodec {
    fn decompress(&mut self, data: &[u8], _size_hint: usize) -> Result<Vec<u8>, WuffErr> {
        Ok(data.to_vec())
    }
}

fn decode(data: &[u8]) -> Result<Vec<u8>, WuffErr> {
    let mut codec = IdentityCodec;
    decompress_woff2_with_brotli(data, &mut codec)
}

fn push_u32(v: &mut Vec<u8>, x: u32) {
    v.extend_from_slice(&x.to_be_bytes());
}

fn push_u16(v: &mut Vec<u8>, x: u16) {
    v.extend_from_slice(&x.to_be_bytes());
}

/// Assemble a WOFF2 file from a directory, optional collection-directory
/// bytes and the (already "compressed") payload, patching the length field.
fn build_woff2(
    flavor: u32,
    num_tables: u16,
    directory: &[u8],
    collection: &[u8],
    payload: &[u8],
    total_sfnt_size: u32,
) -> Vec<u8> {
    let mut out = Vec::new();
    push_u32(&mut out, 0x776f4632); // `woF2`
    push_u32(&mut out, flavor);
    push_u32(&mut out, 0); // length, patched below
    push_u16(&mut out, num_tables);
    push_u16(&mut out, 0); // reserved
    push_u32(&mut out, total_sfnt_size);
    push_u32(&mut out, payload.len() as u32); // totalCompressedSize
    push_u16(&mut out, 0); // major
    push_u16(&mut out, 0); // minor
    push_u32(&mut out, 0); // metaOffset
    push_u32(&mut out, 0); // metaLength
    push_u32(&mut out, 0); // metaOrigLength
    push_u32(&mut out, 0); // privOffset
    push_u32(&mut out, 0); // privLength
    out.extend_from_slice(directory);
    out.extend_from_slice(collection);
    out.extend_from_slice(payload);
    let len = out.len() as u32;
    out[8..12].copy_from_slice(&len.to_be_bytes());
    out
}

#[test]
fn empty_input_fails() {
    assert!(decode(&[]).is_err());
}

#[test]
fn bad_signature_fails() {
    let mut data = vec![0u8; 48];
    data[0] = 0;
    assert!(decode(&data).is_err());
}

#[test]
fn truncated_header_fails() {
    // 47 bytes with a valid `woF2` signature: one byte short of a header.
    let mut data = vec![0u8; 47];
    data[0..4].copy_from_slice(&0x776f4632u32.to_be_bytes());
    assert!(decode(&data).is_err());
}

#[test]
fn zero_tables_fails() {
    let data = build_woff2(0x00010000, 0, &[], &[], &[], 64);
    assert!(decode(&data).is_err());
}

#[test]
fn implausible_compression_ratio_fails() {
    // Declared totalSfntSize of 10 MiB against a 1 KiB input: ratio > 100.
    // One untransformed `post` table keeps the directory valid.
    let mut directory = Vec::new();
    directory.push(7u8); // known tag 7 = post, transform version 0
    directory.extend_from_slice(&wuff::variable_length::WriteBase128(4)); // origLength
    let payload = [0u8; 4];
    let mut data = build_woff2(0x00010000, 1, &directory, &[], &payload, 10 * 1024 * 1024);
    // Pad the file (and its declared length) up to 1 KiB.
    while data.len() < 1024 {
        data.push(0);
    }
    let len = data.len() as u32;
    data[8..12].copy_from_slice(&len.to_be_bytes());
    assert_eq!(data.len(), 1024);
    assert!(decode(&data).is_err());
}

#[test]
fn composite_glyph_without_bbox_fails() {
    // Transformed glyf with one composite glyph (contour count -1) whose
    // explicit-bbox bit is clear.
    let mut glyf = Vec::new();
    push_u16(&mut glyf, 0); // reserved
    push_u16(&mut glyf, 0); // flags: no overlap bitmap
    push_u16(&mut glyf, 1); // numGlyphs
    push_u16(&mut glyf, 0); // indexFormat
    push_u32(&mut glyf, 2); // nContourStream size
    push_u32(&mut glyf, 0); // nPointsStream
    push_u32(&mut glyf, 0); // flagStream
    push_u32(&mut glyf, 0); // glyphStream
    push_u32(&mut glyf, 0); // compositeStream
    push_u32(&mut glyf, 4); // bboxBitmapAndStream (bitmap only, all clear)
    push_u32(&mut glyf, 0); // instructionStream
    push_u16(&mut glyf, 0xFFFF); // nContours = -1: composite
    push_u32(&mut glyf, 0); // bbox bitmap: no glyph has an explicit bbox

    let mut directory = Vec::new();
    directory.push(10u8); // glyf, transform version 0 (transformed)
    directory.extend_from_slice(&wuff::variable_length::WriteBase128(20)); // origLength
    directory.extend_from_slice(&wuff::variable_length::WriteBase128(glyf.len() as u32));
    directory.push(11u8); // loca, transform version 0 (transformed)
    directory.extend_from_slice(&wuff::variable_length::WriteBase128(4)); // origLength
    directory.extend_from_slice(&wuff::variable_length::WriteBase128(0)); // transformLength

    let data = build_woff2(0x00010000, 2, &directory, &[], &glyf, 64);
    assert!(decode(&data).is_err());
}

#[test]
fn ttc_with_non_consecutive_glyf_loca_fails() {
    // A collection whose font lists another table between glyf and loca.
    let mut directory = Vec::new();
    directory.push(10u8); // glyf, transformed
    directory.extend_from_slice(&wuff::variable_length::WriteBase128(20));
    directory.extend_from_slice(&wuff::variable_length::WriteBase128(0));
    directory.push(7u8); // post, untransformed
    directory.extend_from_slice(&wuff::variable_length::WriteBase128(4));
    directory.push(11u8); // loca, transformed
    directory.extend_from_slice(&wuff::variable_length::WriteBase128(4));
    directory.extend_from_slice(&wuff::variable_length::WriteBase128(0));

    let mut collection = Vec::new();
    push_u32(&mut collection, 0x00010000); // TTC version
    collection.push(1u8); // numFonts (255UInt16)
    collection.push(3u8); // numTables of font 0 (255UInt16)
    push_u32(&mut collection, 0x00010000); // font flavor
    collection.push(0u8); // glyf
    collection.push(1u8); // post, between glyf and loca
    collection.push(2u8); // loca

    let data = build_woff2(0x74746366, 3, &directory, &collection, &[0u8; 4], 64);
    assert!(decode(&data).is_err());
}

#[test]
fn lone_glyf_fails() {
    // glyf without loca cannot be reconstructed.
    let mut directory = Vec::new();
    directory.push(10u8); // glyf, transformed
    directory.extend_from_slice(&wuff::variable_length::WriteBase128(20));
    directory.extend_from_slice(&wuff::variable_length::WriteBase128(0));
    let data = build_woff2(0x00010000, 1, &directory, &[], &[], 64);
    assert!(decode(&data).is_err());
}

#[test]
fn transformed_loca_with_nonzero_length_fails() {
    // A transformed loca entry must carry transformLength 0.
    let mut directory = Vec::new();
    directory.push(10u8);
    directory.extend_from_slice(&wuff::variable_length::WriteBase128(20));
    directory.extend_from_slice(&wuff::variable_length::WriteBase128(0));
    directory.push(11u8);
    directory.extend_from_slice(&wuff::variable_length::WriteBase128(4));
    directory.extend_from_slice(&wuff::variable_length::WriteBase128(2)); // illegal
    let data = build_woff2(0x00010000, 2, &directory, &[], &[], 64);
    assert!(decode(&data).is_err());
}

#[test]
fn unknown_transform_fails() {
    // A non-glyf/loca/hmtx table with a non-zero transform version.
    let mut directory = Vec::new();
    directory.push(7u8 | 0x40); // post with transform version 1
    directory.extend_from_slice(&wuff::variable_length::WriteBase128(4));
    directory.extend_from_slice(&wuff::variable_length::WriteBase128(4));
    let data = build_woff2(0x00010000, 1, &directory, &[], &[0u8; 4], 64);
    assert!(decode(&data).is_err());
}

#[test]
fn declared_length_mismatch_fails() {
    let mut directory = Vec::new();
    directory.push(7u8);
    directory.extend_from_slice(&wuff::variable_length::WriteBase128(4));
    let mut data = build_woff2(0x00010000, 1, &directory, &[], &[0u8; 4], 64);
    // Corrupt the declared length.
    let bad = (data.len() as u32 + 1).to_be_bytes();
    data[8..12].copy_from_slice(&bad);
    assert!(decode(&data).is_err());
}
