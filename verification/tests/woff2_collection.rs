//! Decoding a TrueType collection: TTC header synthesis, per-font table
//! directories, and reuse of tables shared between fonts.

use wuff::codec::Decompressor;
use wuff::decompress::decompress_woff2_with_brotli;
use wuff::error::WuffErr;

struct IdentityCodec;

impl Decompressor for IdentityCodec {
    fn decompress(&mut self, data: &[u8], _size_hint: usize) -> Result<Vec<u8>, WuffErr> {
        Ok(data.to_vec())
    }
}

fn push_u32(v: &mut Vec<u8>, x: u32) {
    v.extend_from_slice(&x.to_be_bytes());
}

fn push_u16(v: &mut Vec<u8>, x: u16) {
    v.extend_from_slice(&x.to_be_bytes());
}

fn be32(data: &[u8], i: usize) -> u32 {
    u32::from_be_bytes([data[i], data[i + 1], data[i + 2], data[i + 3]])
}

#[test]
fn two_font_collection_shares_tables() {
    // Shared pool: head (16 bytes) and post (5 bytes); both fonts use both
    // tables, so the second font reuses what the first finalized.
    let mut head = vec![0u8; 16];
    head[0] = 1;
    let post = [5u8, 6, 7, 8, 9];

    let mut directory = Vec::new();
    directory.push(1u8); // head, untransformed
    directory.extend_from_slice(&wuff::variable_length::WriteBase128(head.len() as u32));
    directory.push(7u8); // post, untransformed
    directory.extend_from_slice(&wuff::variable_length::WriteBase128(post.len() as u32));

    let mut collection = Vec::new();
    push_u32(&mut collection, 0x00010000); // TTC version
    collection.push(2u8); // numFonts
    for _ in 0..2 {
        collection.push(2u8); // numTables
        push_u32(&mut collection, 0x00010000); // font flavor
        collection.push(0u8); // head
        collection.push(1u8); // post
    }

    let mut payload = Vec::new();
    payload.extend_from_slice(&head);
    payload.extend_from_slice(&post);

    let mut data = Vec::new();
    push_u32(&mut data, 0x776f4632); // `woF2`
    push_u32(&mut data, 0x74746366); // flavor `ttcf`
    push_u32(&mut data, 0); // length, patched below
    push_u16(&mut data, 2); // numTables
    push_u16(&mut data, 0);
    push_u32(&mut data, 256); // totalSfntSize
    push_u32(&mut data, payload.len() as u32);
    push_u16(&mut data, 0);
    push_u16(&mut data, 0);
    push_u32(&mut data, 0);
    push_u32(&mut data, 0);
    push_u32(&mut data, 0);
    push_u32(&mut data, 0);
    push_u32(&mut data, 0);
    data.extend_from_slice(&directory);
    data.extend_from_slice(&collection);
    data.extend_from_slice(&payload);
    let len = data.len() as u32;
    data[8..12].copy_from_slice(&len.to_be_bytes());

    let mut codec = IdentityCodec;
    let out = decompress_woff2_with_brotli(&data, &mut codec).expect("valid TTC must decode");

    // TTC header: tag, version, two fonts, then the two directory offsets.
    assert_eq!(be32(&out, 0), 0x74746366);
    assert_eq!(be32(&out, 4), 0x00010000);
    assert_eq!(be32(&out, 8), 2);
    let dir0 = be32(&out, 12) as usize;
    let dir1 = be32(&out, 16) as usize;
    assert_eq!(dir0, 20);
    assert_eq!(dir1, 64);

    // Each font's directory lists head then post, and the second font
    // reuses the very same table records as the first.
    for dir in [dir0, dir1] {
        assert_eq!(be32(&out, dir), 0x00010000); // sfnt version
        assert_eq!(out[dir + 4..dir + 6], 2u16.to_be_bytes()); // numTables
        assert_eq!(be32(&out, dir + 12), u32::from_be_bytes(*b"head"));
        assert_eq!(be32(&out, dir + 28), u32::from_be_bytes(*b"post"));
    }
    for field in [4usize, 8, 12] {
        assert_eq!(be32(&out, dir0 + 12 + field), be32(&out, dir1 + 12 + field));
        assert_eq!(be32(&out, dir0 + 28 + field), be32(&out, dir1 + 28 + field));
    }

    // Table bodies: head at 108 (first offset past both directories),
    // post right after it, both 4-byte aligned.
    let head_off = be32(&out, dir0 + 12 + 8) as usize;
    let head_len = be32(&out, dir0 + 12 + 12) as usize;
    let post_off = be32(&out, dir0 + 28 + 8) as usize;
    let post_len = be32(&out, dir0 + 28 + 12) as usize;
    assert_eq!(head_off, 108);
    assert_eq!(head_len, 16);
    assert_eq!(post_off, 124);
    assert_eq!(post_len, 5);
    assert_eq!(out.len(), 132);
    assert_eq!(&out[post_off..post_off + post_len], &post);
    // head bytes are copied except for the patched adjustment.
    assert_eq!(&out[head_off..head_off + 8], &head[0..8]);
    assert_eq!(&out[head_off + 12..head_off + 16], &head[12..16]);
}

#[test]
fn first_font_cannot_reuse_tables() {
    // A single font whose index list names the same table twice would
    // observe reuse within the first font, which is rejected.
    let post = [1u8, 2, 3, 4];
    let mut directory = Vec::new();
    directory.push(7u8);
    directory.extend_from_slice(&wuff::variable_length::WriteBase128(post.len() as u32));

    let mut collection = Vec::new();
    push_u32(&mut collection, 0x00010000);
    collection.push(1u8); // numFonts
    collection.push(2u8); // numTables
    push_u32(&mut collection, 0x00010000);
    collection.push(0u8); // post
    collection.push(0u8); // post again

    let mut data = Vec::new();
    push_u32(&mut data, 0x776f4632);
    push_u32(&mut data, 0x74746366);
    push_u32(&mut data, 0);
    push_u16(&mut data, 1);
    push_u16(&mut data, 0);
    push_u32(&mut data, 64);
    push_u32(&mut data, post.len() as u32);
    push_u16(&mut data, 0);
    push_u16(&mut data, 0);
    push_u32(&mut data, 0);
    push_u32(&mut data, 0);
    push_u32(&mut data, 0);
    push_u32(&mut data, 0);
    push_u32(&mut data, 0);
    data.extend_from_slice(&directory);
    data.extend_from_slice(&collection);
    data.extend_from_slice(&post);
    let len = data.len() as u32;
    data[8..12].copy_from_slice(&len.to_be_bytes());

    let mut codec = IdentityCodec;
    assert!(decompress_woff2_with_brotli(&data, &mut codec).is_err());
}
