//! Successful WOFF2 decodes, checked byte-for-byte, and the checksum,
//! padding and loca laws on the produced SFNT streams.

use std::io::Write;

use wuff::codec::Decompressor;
use wuff::decompress::{decompress_woff2, decompress_woff2_with_brotli};
use wuff::error::WuffErr;

struct IdentityCodec;

impl Decompressor for IdentityCodec {
    fn decompress(&mut self, data: &[u8], _size_hint: usize) -> Result<Vec<u8>, WuffErr> {
        Ok(data.to_vec())
    }
}

fn decode(data: &[u8]) -> Result<Vec<u8>, WuffErr> {
    let mut codec = IdentityCodec;
    decompress_woff2_with_brotli(data, &mut codec)
}

fn push_u32(v: &mut Vec<u8>, x: u32) {
    v.extend_from_slice(&x.to_be_bytes());
}

fn push_u16(v: &mut Vec<u8>, x: u16) {
    v.extend_from_slice(&x.to_be_bytes());
}

fn build_woff2(
    flavor: u32,
    num_tables: u16,
    directory: &[u8],
    payload: &[u8],
    total_sfnt_size: u32,
) -> Vec<u8> {
    let mut out = Vec::new();
    push_u32(&mut out, 0x776f4632); // `woF2`
    push_u32(&mut out, flavor);
    push_u32(&mut out, 0); // length, patched below
    push_u16(&mut out, num_tables);
    push_u16(&mut out, 0);
    push_u32(&mut out, total_sfnt_size);
    push_u32(&mut out, payload.len() as u32);
    push_u16(&mut out, 0);
    push_u16(&mut out, 0);
    push_u32(&mut out, 0);
    push_u32(&mut out, 0);
    push_u32(&mut out, 0);
    push_u32(&mut out, 0);
    push_u32(&mut out, 0);
    out.extend_from_slice(directory);
    out.extend_from_slice(payload);
    let len = out.len() as u32;
    out[8..12].copy_from_slice(&len.to_be_bytes());
    out
}

/// The SFNT checksum, written out independently of the library.
fn checksum(data: &[u8]) -> u32 {
    let mut sum: u32 = 0;
    let mut i = 0;
    while i < data.len() {
        let mut word: u32 = 0;
        for k in 0..4 {
            let b = if i + k < data.len() { data[i + k] } else { 0 };
            word = (word << 8) | b as u32;
        }
        sum = sum.wrapping_add(word);
        i += 4;
    }
    sum
}

fn be32(data: &[u8], i: usize) -> u32 {
    u32::from_be_bytes([data[i], data[i + 1], data[i + 2], data[i + 3]])
}

/// Read the directory entries (tag, checksum, offset, length) of a
/// single-font SFNT stream.
fn directory_entries(out: &[u8]) -> Vec<(u32, u32, u32, u32)> {
    let n = u16::from_be_bytes([out[4], out[5]]) as usize;
    let mut entries = Vec::new();
    for i in 0..n {
        let e = 12 + 16 * i;
        entries.push((be32(out, e), be32(out, e + 4), be32(out, e + 8), be32(out, e + 12)));
    }
    entries
}

/// The checksum and padding laws over a decoded single-font stream: every
/// entry checksums its span (head taken with a zeroed adjustment), bodies
/// are 4-byte aligned with zero gaps, and the whole file sums to
/// 0xB1B0AFBA once the adjustment is backed out.
fn check_checksum_and_padding_laws(out: &[u8]) {
    let entries = directory_entries(out);
    let mut with_zero_adj = out.to_vec();
    let mut head_entry = None;
    for &(tag, csum, off, len) in &entries {
        assert_eq!(off % 4, 0, "table offset must be 4-byte aligned");
        let span = &out[off as usize..(off + len) as usize];
        if tag == u32::from_be_bytes(*b"head") {
            head_entry = Some((off, len));
            let mut zeroed = span.to_vec();
            zeroed[8..12].copy_from_slice(&[0; 4]);
            assert_eq!(csum, checksum(&zeroed), "head checksum with adjustment zeroed");
            with_zero_adj[off as usize + 8..off as usize + 12].copy_from_slice(&[0; 4]);
        } else {
            assert_eq!(csum, checksum(span), "entry checksum must cover its table");
        }
        // The gap up to the next 4-byte boundary holds zero bytes.
        let mut end = (off + len) as usize;
        while end % 4 != 0 {
            assert_eq!(out[end], 0, "padding must be zero");
            end += 1;
        }
    }
    if let Some((off, _)) = head_entry {
        let adjustment = be32(out, off as usize + 8);
        let whole = checksum(&with_zero_adj);
        assert_eq!(adjustment, 0xB1B0AFBAu32.wrapping_sub(whole));
    }
}

#[test]
fn untransformed_single_table_roundtrip() {
    // A WOFF2 holding only an untransformed `post` table decodes to an
    // SFNT with one directory entry and the table padded to 4 bytes.
    let post = [1u8, 2, 3, 4, 5];
    let mut directory = Vec::new();
    directory.push(7u8); // known tag 7 = post, version 0: untransformed
    directory.extend_from_slice(&wuff::variable_length::WriteBase128(post.len() as u32));
    let data = build_woff2(0x00010000, 1, &directory, &post, 64);
    let out = decode(&data).expect("valid font must decode");

    let mut expected = Vec::new();
    push_u32(&mut expected, 0x00010000); // sfnt version
    push_u16(&mut expected, 1); // numTables
    push_u16(&mut expected, 16); // searchRange
    push_u16(&mut expected, 0); // entrySelector
    push_u16(&mut expected, 0); // rangeShift
    push_u32(&mut expected, u32::from_be_bytes(*b"post"));
    push_u32(&mut expected, checksum(&post));
    push_u32(&mut expected, 28); // offset
    push_u32(&mut expected, 5); // length
    expected.extend_from_slice(&post);
    expected.extend_from_slice(&[0, 0, 0]); // padding to 4
    assert_eq!(out, expected);
    check_checksum_and_padding_laws(&out);
}

#[test]
fn head_checksum_adjustment_is_patched() {
    // head (with garbage checkSumAdjustment) plus post: the adjustment is
    // recomputed so the whole font sums to 0xB1B0AFBA.
    let mut head = vec![0u8; 16];
    head[0] = 9;
    head[8..12].copy_from_slice(&0xDEADBEEFu32.to_be_bytes());
    head[12] = 7;
    let post = [1u8, 2, 3];

    let mut directory = Vec::new();
    directory.push(1u8); // head, untransformed
    directory.extend_from_slice(&wuff::variable_length::WriteBase128(head.len() as u32));
    directory.push(7u8); // post, untransformed
    directory.extend_from_slice(&wuff::variable_length::WriteBase128(post.len() as u32));

    let mut payload = Vec::new();
    payload.extend_from_slice(&head);
    payload.extend_from_slice(&post);
    let data = build_woff2(0x00010000, 2, &directory, &payload, 128);
    let out = decode(&data).expect("valid font must decode");

    // Layout: 12-byte offset table, two entries, head at 44, post at 60.
    assert_eq!(out.len(), 64);
    let entries = directory_entries(&out);
    assert_eq!(entries[0].0, u32::from_be_bytes(*b"head"));
    assert_eq!(entries[0].2, 44);
    assert_eq!(entries[0].3, 16);
    assert_eq!(entries[1].0, u32::from_be_bytes(*b"post"));
    assert_eq!(entries[1].2, 60);
    assert_eq!(entries[1].3, 3);
    // The head body is copied except for the patched adjustment.
    assert_eq!(&out[44..52], &head[0..8]);
    assert_eq!(&out[56..60], &head[12..16]);
    check_checksum_and_padding_laws(&out);
}

/// A transformed glyf table holding one simple glyph with a single point
/// at (0, 256), plus the streams around it.
fn one_glyph_transformed_glyf() -> Vec<u8> {
    let mut glyf = Vec::new();
    push_u16(&mut glyf, 0); // reserved
    push_u16(&mut glyf, 0); // flags
    push_u16(&mut glyf, 1); // numGlyphs
    push_u16(&mut glyf, 0); // indexFormat: short
    push_u32(&mut glyf, 2); // nContourStream
    push_u32(&mut glyf, 1); // nPointsStream
    push_u32(&mut glyf, 1); // flagStream
    push_u32(&mut glyf, 2); // glyphStream
    push_u32(&mut glyf, 0); // compositeStream
    push_u32(&mut glyf, 4); // bboxBitmapAndStream
    push_u32(&mut glyf, 0); // instructionStream
    push_u16(&mut glyf, 1); // nContours = 1
    glyf.push(1); // one point in the contour
    glyf.push(3); // triplet flag: dx = 0, dy = +(256 + data byte)
    glyf.push(0); // triplet data byte: dy = 256
    glyf.push(0); // instruction length (255UInt16)
    push_u32(&mut glyf, 0); // bbox bitmap: computed bbox
    glyf
}

/// The standard-format glyph the transform above decodes to.
fn one_glyph_expected_glyf() -> Vec<u8> {
    let mut glyph = Vec::new();
    push_u16(&mut glyph, 1); // numberOfContours
    push_u16(&mut glyph, 0); // xMin
    push_u16(&mut glyph, 256); // yMin
    push_u16(&mut glyph, 0); // xMax
    push_u16(&mut glyph, 256); // yMax
    push_u16(&mut glyph, 0); // endPtsOfContours[0]
    push_u16(&mut glyph, 0); // instructionLength
    glyph.push(0x11); // flags: ON_CURVE | THIS_X_IS_SAME
    glyph.extend_from_slice(&[0x01, 0x00]); // y delta +256
    glyph.extend_from_slice(&[0, 0, 0]); // padding to 4
    glyph
}

#[test]
fn transformed_glyf_roundtrip() {
    let glyf = one_glyph_transformed_glyf();
    let mut directory = Vec::new();
    directory.push(10u8); // glyf, transformed
    directory.extend_from_slice(&wuff::variable_length::WriteBase128(20));
    directory.extend_from_slice(&wuff::variable_length::WriteBase128(glyf.len() as u32));
    directory.push(11u8); // loca, transformed, zero length
    directory.extend_from_slice(&wuff::variable_length::WriteBase128(4));
    directory.extend_from_slice(&wuff::variable_length::WriteBase128(0));

    let data = build_woff2(0x00010000, 2, &directory, &glyf, 128);
    let out = decode(&data).expect("valid font must decode");

    // Layout: offset table 12, two entries 32, glyf at 44, loca at 64.
    let expected_glyph = one_glyph_expected_glyf();
    assert_eq!(&out[44..64], expected_glyph.as_slice());
    // Short-format loca: offsets 0 and 20, each stored divided by 2.
    assert_eq!(&out[64..68], &[0, 0, 0, 10]);
    assert_eq!(out.len(), 68);

    let entries = directory_entries(&out);
    assert_eq!(entries[0].0, u32::from_be_bytes(*b"glyf"));
    assert_eq!(entries[0].2, 44);
    assert_eq!(entries[0].3, 20);
    assert_eq!(entries[1].0, u32::from_be_bytes(*b"loca"));
    assert_eq!(entries[1].2, 64);
    assert_eq!(entries[1].3, 4);
    check_checksum_and_padding_laws(&out);

    // The loca law: (index_format == 0 ? 2 : 4) * (numGlyphs + 1) bytes,
    // non-decreasing offsets ending at the glyf length.
    assert_eq!(entries[1].3, 2 * (1 + 1));
    let first = u16::from_be_bytes([out[64], out[65]]) as u32 * 2;
    let last = u16::from_be_bytes([out[66], out[67]]) as u32 * 2;
    assert_eq!(first, 0);
    assert!(first <= last);
    assert_eq!(last, entries[0].3);
}

#[test]
fn transformed_glyf_with_wrong_loca_length_fails() {
    let glyf = one_glyph_transformed_glyf();
    let mut directory = Vec::new();
    directory.push(10u8);
    directory.extend_from_slice(&wuff::variable_length::WriteBase128(20));
    directory.extend_from_slice(&wuff::variable_length::WriteBase128(glyf.len() as u32));
    directory.push(11u8);
    // The derived loca table will be 4 bytes; declaring 8 must fail.
    directory.extend_from_slice(&wuff::variable_length::WriteBase128(8));
    directory.extend_from_slice(&wuff::variable_length::WriteBase128(0));
    let data = build_woff2(0x00010000, 2, &directory, &glyf, 128);
    assert!(decode(&data).is_err());
}

#[test]
fn transformed_hmtx_roundtrip() {
    // glyf + hhea + hmtx + loca; the hmtx transform elides all bearings,
    // so they come back as the glyphs' x_min values.
    let glyf = one_glyph_transformed_glyf();
    let mut hhea = vec![0u8; 36];
    hhea[34] = 0;
    hhea[35] = 1; // numberOfHMetrics = 1
    let hmtx = [0x03u8, 0x02, 0x58]; // flags 3 (all elided), advance 600

    let mut directory = Vec::new();
    directory.push(10u8); // glyf, transformed
    directory.extend_from_slice(&wuff::variable_length::WriteBase128(20));
    directory.extend_from_slice(&wuff::variable_length::WriteBase128(glyf.len() as u32));
    directory.push(2u8); // hhea, untransformed
    directory.extend_from_slice(&wuff::variable_length::WriteBase128(36));
    directory.push(3u8 | 0x40); // hmtx, transform version 1
    directory.extend_from_slice(&wuff::variable_length::WriteBase128(4));
    directory.extend_from_slice(&wuff::variable_length::WriteBase128(hmtx.len() as u32));
    directory.push(11u8); // loca, transformed
    directory.extend_from_slice(&wuff::variable_length::WriteBase128(4));
    directory.extend_from_slice(&wuff::variable_length::WriteBase128(0));

    let mut payload = Vec::new();
    payload.extend_from_slice(&glyf);
    payload.extend_from_slice(&hhea);
    payload.extend_from_slice(&hmtx);
    let data = build_woff2(0x00010000, 4, &directory, &payload, 256);
    let out = decode(&data).expect("valid font must decode");

    // Layout: offset table 12 + 4 entries = 76; bodies in the order they
    // are finalized: glyf 76..96, loca 96..100 (finalized with glyf),
    // hhea 100..136, hmtx 136..140.
    assert_eq!(out.len(), 140);
    let entries = directory_entries(&out);
    assert_eq!(entries[0].0, u32::from_be_bytes(*b"glyf"));
    assert_eq!(entries[0].2, 76);
    assert_eq!(entries[1].0, u32::from_be_bytes(*b"hhea"));
    assert_eq!(entries[1].2, 100);
    assert_eq!(entries[2].0, u32::from_be_bytes(*b"hmtx"));
    assert_eq!(entries[2].2, 136);
    assert_eq!(entries[3].0, u32::from_be_bytes(*b"loca"));
    assert_eq!(entries[3].2, 96);
    // advance 600, left-side bearing = x_min of glyph 0 = 0.
    assert_eq!(&out[136..140], &[0x02, 0x58, 0x00, 0x00]);
    check_checksum_and_padding_laws(&out);
}

#[test]
fn empty_glyph_with_bbox_fails() {
    // A glyph with zero contours must not carry an explicit bbox.
    let mut glyf = Vec::new();
    push_u16(&mut glyf, 0);
    push_u16(&mut glyf, 0);
    push_u16(&mut glyf, 1); // numGlyphs
    push_u16(&mut glyf, 0);
    push_u32(&mut glyf, 2); // nContourStream
    push_u32(&mut glyf, 0);
    push_u32(&mut glyf, 0);
    push_u32(&mut glyf, 0);
    push_u32(&mut glyf, 0);
    push_u32(&mut glyf, 12); // bitmap (4) + an unused 8-byte bbox
    push_u32(&mut glyf, 0);
    push_u16(&mut glyf, 0); // nContours = 0: empty glyph
    glyf.push(0x80); // bbox bitmap: glyph 0 claims a bbox
    glyf.extend_from_slice(&[0; 3]);
    glyf.extend_from_slice(&[0; 8]);

    let mut directory = Vec::new();
    directory.push(10u8);
    directory.extend_from_slice(&wuff::variable_length::WriteBase128(0));
    directory.extend_from_slice(&wuff::variable_length::WriteBase128(glyf.len() as u32));
    directory.push(11u8);
    directory.extend_from_slice(&wuff::variable_length::WriteBase128(4));
    directory.extend_from_slice(&wuff::variable_length::WriteBase128(0));
    let data = build_woff2(0x00010000, 2, &directory, &glyf, 128);
    assert!(decode(&data).is_err());
}

#[test]
fn decode_with_real_brotli() {
    // The same single-post-table font, with the payload actually
    // brotli-compressed, through the built-in codec.
    let post = [1u8, 2, 3, 4, 5];
    let mut directory = Vec::new();
    directory.push(7u8);
    directory.extend_from_slice(&wuff::variable_length::WriteBase128(post.len() as u32));

    let mut compressed = Vec::new();
    {
        let mut w = brotli::CompressorWriter::new(&mut compressed, 4096, 5, 22);
        w.write_all(&post).unwrap();
    }

    let plain = build_woff2(0x00010000, 1, &directory, &post, 64);
    let via_identity = decode(&plain).expect("identity decode");

    let real = build_woff2(0x00010000, 1, &directory, &compressed, 64);
    let via_brotli = decompress_woff2(&real).expect("brotli decode");
    assert_eq!(via_brotli, via_identity);
}
