//! WOFF1 decoding: stored and zlib-compressed tables, directory synthesis
//! and the head checksum adjustment.

use std::io::Write;

use wuff::decompress_woff1::decompress_woff1;

fn push_u32(v: &mut Vec<u8>, x: u32) {
    v.extend_from_slice(&x.to_be_bytes());
}

fn push_u16(v: &mut Vec<u8>, x: u16) {
    v.extend_from_slice(&x.to_be_bytes());
}

/// Assemble a WOFF1 file from (tag, stored bytes, original length,
/// original checksum) entries whose table data follows the directory.
fn build_woff1(flavor: u32, tables: &[(u32, Vec<u8>, u32, u32)]) -> Vec<u8> {
    let num_tables = tables.len() as u16;
    let mut out = Vec::new();
    push_u32(&mut out, 0x776f4646); // `woFF`
    push_u32(&mut out, flavor);
    push_u32(&mut out, 0); // length, patched below
    push_u16(&mut out, num_tables);
    push_u16(&mut out, 0); // reserved
    push_u32(&mut out, 0); // totalSfntSize (unused for WOFF1)
    push_u16(&mut out, 0); // major
    push_u16(&mut out, 0); // minor
    push_u32(&mut out, 0); // metaOffset
    push_u32(&mut out, 0); // metaLength
    push_u32(&mut out, 0); // metaOrigLength
    push_u32(&mut out, 0); // privOffset
    push_u32(&mut out, 0); // privLength
    assert_eq!(out.len(), 44);

    let mut data_offset = 44 + 20 * tables.len() as u32;
    for (tag, stored, orig_length, orig_checksum) in tables {
        push_u32(&mut out, *tag);
        push_u32(&mut out, data_offset); // offset in the WOFF
        push_u32(&mut out, stored.len() as u32); // compLength
        push_u32(&mut out, *orig_length);
        push_u32(&mut out, *orig_checksum);
        data_offset += stored.len() as u32;
    }
    for (_, stored, _, _) in tables {
        out.extend_from_slice(stored);
    }
    let len = out.len() as u32;
    out[8..12].copy_from_slice(&len.to_be_bytes());
    out
}

fn checksum(data: &[u8]) -> u32 {
    let mut sum: u32 = 0;
    let mut i = 0;
    while i < data.len() {
        let mut word: u32 = 0;
        for k in 0..4 {
            let b = if i + k < data.len() { data[i + k] } else { 0 };
            word = (word << 8) | b as u32;
        }
        sum = sum.wrapping_add(word);
        i += 4;
    }
    sum
}

#[test]
fn stored_single_table() {
    // A table whose compressed length equals its original length is stored
    // verbatim.
    let post = vec![9u8, 8, 7, 6, 5];
    let tag = u32::from_be_bytes(*b"post");
    let data = build_woff1(0x00010000, &[(tag, post.clone(), 5, 0xAABBCCDD)]);
    let out = decompress_woff1(&data).expect("valid font must decode");

    let mut expected = Vec::new();
    push_u32(&mut expected, 0x00010000);
    push_u16(&mut expected, 1);
    push_u16(&mut expected, 16);
    push_u16(&mut expected, 0);
    push_u16(&mut expected, 0);
    push_u32(&mut expected, tag);
    push_u32(&mut expected, 0xAABBCCDD); // original checksum, copied through
    push_u32(&mut expected, 28);
    push_u32(&mut expected, 5);
    expected.extend_from_slice(&post);
    expected.extend_from_slice(&[0, 0, 0]);
    assert_eq!(out, expected);
}

#[test]
fn compressed_table_inflates() {
    // A table stored shorter than its original length is zlib-compressed.
    let body: Vec<u8> = (0u8..80).map(|i| i % 7).collect();
    let compressed = {
        let mut enc = flate2::write::ZlibEncoder::new(Vec::new(), flate2::Compression::default());
        enc.write_all(&body).unwrap();
        enc.finish().unwrap()
    };
    assert!(compressed.len() < body.len());
    let tag = u32::from_be_bytes(*b"post");
    let data = build_woff1(0x00010000, &[(tag, compressed, body.len() as u32, 0)]);
    let out = decompress_woff1(&data).expect("valid font must decode");
    assert_eq!(&out[28..28 + body.len()], body.as_slice());
}

#[test]
fn directory_is_tag_sorted_and_head_adjusted() {
    // Tables arrive in reverse tag order; the output directory is sorted
    // and head.checkSumAdjustment makes the whole font sum to 0xB1B0AFBA.
    let mut head = vec![0u8; 16];
    head[8..12].copy_from_slice(&0x11223344u32.to_be_bytes());
    let cmap = vec![1u8, 2, 3, 4];
    let head_tag = u32::from_be_bytes(*b"head");
    let cmap_tag = u32::from_be_bytes(*b"cmap");
    let data = build_woff1(
        0x00010000,
        &[(head_tag, head.clone(), 16, 0x10), (cmap_tag, cmap.clone(), 4, 0x20)],
    );
    let out = decompress_woff1(&data).expect("valid font must decode");

    // Directory order: cmap before head; body order follows source
    // offsets: head first, then cmap.
    let e0_tag = u32::from_be_bytes([out[12], out[13], out[14], out[15]]);
    let e1_tag = u32::from_be_bytes([out[28], out[29], out[30], out[31]]);
    assert_eq!(e0_tag, cmap_tag);
    assert_eq!(e1_tag, head_tag);
    let head_off = u32::from_be_bytes([out[36], out[37], out[38], out[39]]) as usize;
    let cmap_off = u32::from_be_bytes([out[20], out[21], out[22], out[23]]) as usize;
    assert_eq!(head_off, 44);
    assert_eq!(cmap_off, 60);
    assert_eq!(&out[cmap_off..cmap_off + 4], cmap.as_slice());

    // The adjustment satisfies the checksum law.
    let adjustment = u32::from_be_bytes([
        out[head_off + 8],
        out[head_off + 9],
        out[head_off + 10],
        out[head_off + 11],
    ]);
    let mut zeroed = out.clone();
    zeroed[head_off + 8..head_off + 12].copy_from_slice(&[0; 4]);
    assert_eq!(adjustment, 0xB1B0AFBAu32.wrapping_sub(checksum(&zeroed)));
}

#[test]
fn woff2_input_is_rejected_by_woff1_decoder() {
    let mut data = vec![0u8; 48];
    data[0..4].copy_from_slice(&0x776f4632u32.to_be_bytes());
    assert!(decompress_woff1(&data).is_err());
}

#[test]
fn truncated_directory_fails() {
    let mut data = vec![0u8; 50];
    data[0..4].copy_from_slice(&0x776f4646u32.to_be_bytes());
    data[8..12].copy_from_slice(&50u32.to_be_bytes());
    data[12..14].copy_from_slice(&1u16.to_be_bytes()); // one table, no room
    assert!(decompress_woff1(&data).is_err());
}
