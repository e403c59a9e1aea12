//! Legacy WOFF1 decoding: per-table zlib streams behind a fixed 16-byte
//! table directory, sharing the SFNT directory and checksum synthesis with
//! the WOFF2 path but without the glyf/loca/hmtx transforms.

use vstd::prelude::*;
use vstd::slice::SliceAdditionalExecFns;

use crate::buffer::{be32, Buffer};
use crate::codec::{Decompressor, ZlibCodec};
use crate::decompress::store_u32_at;
use crate::error::WuffErr;
use crate::table_tags::kHeadTableTag;
use crate::types::{spec_parse_header, WoffHeader, WoffVersion};
use crate::woff2_common::{compute_checksum, sort_indices, sorted_by_keys};

verus! {

/// One fixed-size WOFF1 directory entry: a table is zlib-compressed exactly
/// when its compressed length is smaller than its original length.
#[derive(Copy, Clone, PartialEq, Eq, Structural, Debug)]
pub struct Woff1TableDirectoryEntry {
    pub tag: u32,
    pub woff_offset: u32,
    pub woff_length: u32,
    pub orig_length: u32,
    pub orig_checksum: u32,
}

/// Field `field` (a byte offset inside the entry) of the `p`-th 16-byte
/// directory entry of an SFNT stream.
pub open spec fn spec_dir_entry_field(out: Seq<u8>, p: int, field: int) -> int {
    be32(out, 12 + 16 * p + field)
}

/// The `j`-th 20-byte directory entry read from the front of `s`.
pub open spec fn spec_woff1_entry(s: Seq<u8>, j: int) -> Woff1TableDirectoryEntry {
    Woff1TableDirectoryEntry {
        tag: be32(s, 20 * j) as u32,
        woff_offset: be32(s, 20 * j + 4) as u32,
        woff_length: be32(s, 20 * j + 8) as u32,
        orig_length: be32(s, 20 * j + 12) as u32,
        orig_checksum: be32(s, 20 * j + 16) as u32,
    }
}

/// Read the `num_tables` fixed-size WOFF1 directory entries.
pub fn parse_woff1_directory(buf: &mut Buffer, num_tables: usize) -> (r: Result<
    Vec<Woff1TableDirectoryEntry>,
    WuffErr,
>)
    requires
        old(buf).wf(),
    ensures
        final(buf).wf(),
        final(buf).buffer == old(buf).buffer,
        match r {
            Ok(entries) => entries@.len() == num_tables && old(buf).offset + 20 * num_tables
                <= old(buf).buffer@.len() && forall|j: int|
                0 <= j < num_tables ==> #[trigger] entries@[j] == spec_woff1_entry(
                    old(buf).buffer@.skip(old(buf).offset as int),
                    j,
                ),
            Err(_) => old(buf).offset + 20 * num_tables > old(buf).buffer@.len(),
        },
{
    let ghost rem = old(buf).buffer@.skip(old(buf).offset as int);
    proof {
        assert(forall|t: int|
            0 <= t < rem.len() ==> #[trigger] rem[t] == old(buf).buffer@[old(buf).offset + t]);
    }
    let mut entries: Vec<Woff1TableDirectoryEntry> = Vec::new();
    let mut i: usize = 0;
    while i < num_tables
        invariant
            buf.wf(),
            buf.buffer == old(buf).buffer,
            i <= num_tables,
            buf.offset == old(buf).offset + 20 * i,
            rem.len() == old(buf).buffer@.len() - old(buf).offset,
            forall|t: int|
                0 <= t < rem.len() ==> #[trigger] rem[t] == old(buf).buffer@[old(buf).offset + t],
            entries@.len() == i,
            forall|j: int|
                0 <= j < i ==> #[trigger] entries@[j] == spec_woff1_entry(rem, j),
        decreases num_tables - i,
    {
        let mut tag: u32 = 0;
        let mut woff_offset: u32 = 0;
        let mut woff_length: u32 = 0;
        let mut orig_length: u32 = 0;
        let mut orig_checksum: u32 = 0;
        if !buf.ReadU32(&mut tag) {
            return Err(WuffErr::GenericError);
        }
        if !buf.ReadU32(&mut woff_offset) {
            return Err(WuffErr::GenericError);
        }
        if !buf.ReadU32(&mut woff_length) {
            return Err(WuffErr::GenericError);
        }
        if !buf.ReadU32(&mut orig_length) {
            return Err(WuffErr::GenericError);
        }
        if !buf.ReadU32(&mut orig_checksum) {
            return Err(WuffErr::GenericError);
        }
        let entry = Woff1TableDirectoryEntry {
            tag,
            woff_offset,
            woff_length,
            orig_length,
            orig_checksum,
        };
        proof {
            assert(be32(old(buf).buffer@, old(buf).offset + 20 * (i as int)) == be32(
                rem,
                20 * (i as int),
            ));
            assert(be32(old(buf).buffer@, old(buf).offset + 20 * (i as int) + 4) == be32(
                rem,
                20 * (i as int) + 4,
            ));
            assert(be32(old(buf).buffer@, old(buf).offset + 20 * (i as int) + 8) == be32(
                rem,
                20 * (i as int) + 8,
            ));
            assert(be32(old(buf).buffer@, old(buf).offset + 20 * (i as int) + 12) == be32(
                rem,
                20 * (i as int) + 12,
            ));
            assert(be32(old(buf).buffer@, old(buf).offset + 20 * (i as int) + 16) == be32(
                rem,
                20 * (i as int) + 16,
            ));
        }
        entries.push(entry);
        i = i + 1;
    }
    Ok(entries)
}

/// Decode a WOFF1 font with a caller-supplied zlib capability.
#[verifier::rlimit(100)]
#[verifier::spinoff_prover]
pub fn decompress_woff1_with_custom_z<D: Decompressor>(
    raw_woff_data: &[u8],
    decompress_z: &mut D,
) -> (r: Result<Vec<u8>, WuffErr>)
    ensures
        spec_parse_header(raw_woff_data@) is None ==> r is Err,
        (spec_parse_header(raw_woff_data@) matches Some(h) && h.woff_version is Woff2) ==> r
            is Err,
        ({
            &&& spec_parse_header(raw_woff_data@) matches Some(h)
            &&& h.woff_version is Woff1
            &&& 44 + 20 * h.num_tables > raw_woff_data@.len()
        }) ==> r is Err,
        match r {
            Ok(out) => {
                let h = spec_parse_header(raw_woff_data@)->Some_0;
                &&& spec_parse_header(raw_woff_data@) is Some
                &&& h.woff_version is Woff1
                &&& out@.len() % 4 == 0
                &&& out@.len() >= 12 + 16 * h.num_tables
                &&& be32(out@, 0) == h.flavor
                &&& crate::buffer::be16(out@, 4) == h.num_tables
                &&& forall|a: int, b: int|
                    0 <= a < b < h.num_tables ==> #[trigger] spec_dir_entry_field(out@, a, 0)
                        <= #[trigger] spec_dir_entry_field(out@, b, 0)
                &&& forall|p: int|
                    0 <= p < h.num_tables ==> #[trigger] spec_dir_entry_field(out@, p, 8) % 4
                        == 0
            },
            Err(_) => true,
        },
{
    let mut input = Buffer::new(raw_woff_data);

    // Parse header and fixed-size table directory.
    let header = match WoffHeader::parse(&mut input) {
        Ok(h) => h,
        Err(e) => {
            return Err(e);
        },
    };
    if !matches!(header.woff_version, WoffVersion::Woff1) {
        return Err(WuffErr::GenericError);
    }
    let num_tables = header.num_tables as usize;
    let entries = match parse_woff1_directory(&mut input, num_tables) {
        Ok(v) => v,
        Err(e) => {
            return Err(e);
        },
    };

    // Directory entries are written in tag order; table data is written in
    // source-offset order, so order-independent data lays down predictably.
    let mut tag_keys: Vec<u32> = Vec::new();
    let mut offset_keys: Vec<u32> = Vec::new();
    let mut by_tag: Vec<u16> = Vec::new();
    let mut by_offset: Vec<u16> = Vec::new();
    let mut t: usize = 0;
    while t < num_tables
        invariant
            num_tables < 0x10000,
            num_tables == entries@.len(),
            t <= num_tables,
            tag_keys@.len() == t,
            offset_keys@.len() == t,
            by_tag@.len() == t,
            by_offset@.len() == t,
            forall|j: int| 0 <= j < t ==> #[trigger] by_tag@[j] == j,
            forall|j: int| 0 <= j < t ==> #[trigger] by_offset@[j] == j,
            forall|j: int| 0 <= j < t ==> #[trigger] tag_keys@[j] == entries@[j].tag,
        decreases num_tables - t,
    {
        tag_keys.push(entries[t].tag);
        offset_keys.push(entries[t].woff_offset);
        by_tag.push(t as u16);
        by_offset.push(t as u16);
        t = t + 1;
    }
    sort_indices(&mut by_tag, &tag_keys);
    sort_indices(&mut by_offset, &offset_keys);

    // Offset table header, then room for the zero-filled directory.
    let mut out: Vec<u8> = Vec::new();
    crate::decompress::write_table_directory_header(&mut out, header.flavor, header.num_tables);
    let ghost out_hdr = out@;
    let directory_end = 12 + 16 * num_tables;
    out.resize(directory_end, 0);
    proof {
        assert(forall|t: int| 0 <= t < 12 ==> #[trigger] out@[t] == out_hdr[t]);
        assert(be32(out@, 0) == header.flavor);
        assert(crate::buffer::be16(out@, 4) == header.num_tables);
    }

    // Destination span of each table, recorded while writing the bodies.
    let mut dst_spans: Vec<(u32, u32)> = Vec::new();
    let mut t: usize = 0;
    while t < num_tables
        invariant
            t <= num_tables,
            dst_spans@.len() == t,
            forall|j: int| 0 <= j < t ==> #[trigger] dst_spans@[j] == (0u32, 0u32),
        decreases num_tables - t,
    {
        dst_spans.push((0, 0));
        t = t + 1;
    }

    // Lay the tables down in source-offset order, inflating each
    // compressed one (compressed exactly when shorter than the original).
    let mut k: usize = 0;
    while k < num_tables
        invariant
            num_tables < 0x10000,
            num_tables == entries@.len(),
            by_offset@.len() == num_tables,
            forall|j: int| 0 <= j < num_tables ==> #[trigger] by_offset@[j] < num_tables,
            k <= num_tables,
            dst_spans@.len() == num_tables,
            out@.len() % 4 == 0,
            out@.len() >= directory_end,
            directory_end == 12 + 16 * num_tables,
            be32(out@, 0) == header.flavor,
            crate::buffer::be16(out@, 4) == header.num_tables,
            forall|j: int|
                0 <= j < num_tables ==> (#[trigger] dst_spans@[j]) == (0u32, 0u32) || (
                dst_spans@[j].0 >= directory_end && dst_spans@[j].0 % 4 == 0),
        decreases num_tables - k,
    {
        let idx = by_offset[k] as usize;
        let table = entries[idx];

        let src_off = table.woff_offset as usize;
        let src_end = match src_off.checked_add(table.woff_length as usize) {
            Some(v) => v,
            None => {
                return Err(WuffErr::GenericError);
            },
        };
        if src_end > raw_woff_data.len() {
            return Err(WuffErr::GenericError);
        }
        let src = vstd::slice::slice_subrange(raw_woff_data, src_off, src_end);

        if out.len() as u64 > u32::MAX as u64 {
            return Err(WuffErr::GenericError);
        }
        let table_offset = out.len() as u32;

        let is_compressed = table.woff_length < table.orig_length;
        if is_compressed {
            let decompressed = match decompress_z.decompress(src, table.orig_length as usize) {
                Ok(d) => d,
                Err(e) => {
                    return Err(e);
                },
            };
            if decompressed.len() != table.orig_length as usize {
                return Err(WuffErr::GenericError);
            }
            out.extend_from_slice(decompressed.as_slice());
        } else {
            if table.woff_length != table.orig_length {
                return Err(WuffErr::GenericError);
            }
            out.extend_from_slice(src);
        }
        let ghost out_pre_pad = out@;
        if !crate::glyf_decoder::Pad4(&mut out) {
            return Err(WuffErr::GenericError);
        }
        proof {
            assert(forall|t: int|
                0 <= t < out_pre_pad.len() ==> #[trigger] out@[t] == out_pre_pad[t]) by {
                assert(out@.subrange(0, out_pre_pad.len() as int) =~= out_pre_pad);
            }
        }

        let spans = dst_spans.as_mut_slice();
        spans.set(idx, (table_offset, table.orig_length));
        k = k + 1;
    }

    // Fill the directory entries, in tag order.
    let mut pos: usize = 0;
    while pos < num_tables
        invariant
            num_tables < 0x10000,
            num_tables == entries@.len(),
            by_tag@.len() == num_tables,
            forall|j: int| 0 <= j < num_tables ==> #[trigger] by_tag@[j] < num_tables,
            tag_keys@.len() == num_tables,
            forall|j: int| 0 <= j < num_tables ==> #[trigger] tag_keys@[j] == entries@[j].tag,
            sorted_by_keys(tag_keys@, by_tag@),
            dst_spans@.len() == num_tables,
            forall|j: int|
                0 <= j < num_tables ==> (#[trigger] dst_spans@[j]) == (0u32, 0u32) || (
                dst_spans@[j].0 >= directory_end && dst_spans@[j].0 % 4 == 0),
            pos <= num_tables,
            out@.len() % 4 == 0,
            out@.len() >= directory_end,
            directory_end == 12 + 16 * num_tables,
            be32(out@, 0) == header.flavor,
            crate::buffer::be16(out@, 4) == header.num_tables,
            forall|p: int|
                0 <= p < pos ==> #[trigger] spec_dir_entry_field(out@, p, 0) == tag_keys@[
                    by_tag@[p] as int
                ],
            forall|p: int|
                0 <= p < pos ==> #[trigger] spec_dir_entry_field(out@, p, 8) == dst_spans@[
                    by_tag@[p] as int
                ].0,
        decreases num_tables - pos,
    {
        let idx = by_tag[pos] as usize;
        let table = entries[idx];
        let span = dst_spans[idx];
        let entry_off = 12 + 16 * pos;
        let ghost g0 = out@;
        store_u32_at(&mut out, entry_off, table.tag);
        store_u32_at(&mut out, entry_off + 4, table.orig_checksum);
        store_u32_at(&mut out, entry_off + 8, span.0);
        store_u32_at(&mut out, entry_off + 12, table.orig_length);
        proof {
            assert(forall|t: int| 0 <= t < entry_off ==> #[trigger] out@[t] == g0[t]);
            assert(be32(out@, entry_off as int) == table.tag);
            assert(be32(out@, entry_off as int + 8) == span.0);
            assert forall|p: int|
                0 <= p < pos + 1 implies #[trigger] spec_dir_entry_field(out@, p, 0)
                == tag_keys@[by_tag@[p] as int] by {
                if p < pos {
                    assert(spec_dir_entry_field(g0, p, 0) == tag_keys@[by_tag@[p] as int]);
                    assert(12 + 16 * p + 12 <= entry_off);
                }
            }
            assert forall|p: int|
                0 <= p < pos + 1 implies #[trigger] spec_dir_entry_field(out@, p, 8)
                == dst_spans@[by_tag@[p] as int].0 by {
                if p < pos {
                    assert(spec_dir_entry_field(g0, p, 8) == dst_spans@[by_tag@[p] as int].0);
                    assert(12 + 16 * p + 12 <= entry_off);
                }
            }
        }
        pos = pos + 1;
    }

    let ghost out_dir = out@;

    // head.checkSumAdjustment: zero it, checksum the whole font, then
    // store 0xB1B0AFBA minus that sum.
    let mut head_span: Option<(u32, u32)> = None;
    let mut t: usize = 0;
    while t < num_tables
        invariant
            num_tables == entries@.len(),
            dst_spans@.len() == num_tables,
            t <= num_tables,
            forall|j: int|
                0 <= j < num_tables ==> (#[trigger] dst_spans@[j]) == (0u32, 0u32) || (
                dst_spans@[j].0 >= directory_end && dst_spans@[j].0 % 4 == 0),
            match head_span {
                Some(sp) => sp == (0u32, 0u32) || (sp.0 >= directory_end && sp.0 % 4 == 0),
                None => true,
            },
        decreases num_tables - t,
    {
        if entries[t].tag == kHeadTableTag {
            head_span = Some(dst_spans[t]);
        }
        t = t + 1;
    }
    if let Some((head_off, head_len)) = head_span {
        if head_len < 12 {
            return Err(WuffErr::GenericError);
        }
        let off = head_off as usize;
        if out.len() < 12 || off > out.len() - 12 {
            return Err(WuffErr::GenericError);
        }
        // A recorded span with a non-zero length lies past the directory,
        // so these two writes leave the header and directory intact.
        proof {
            assert(off >= directory_end);
        }
        let ghost pre_adj = out@;
        store_u32_at(&mut out, off + 8, 0);
        let full_checksum = compute_checksum(out.as_slice());
        let adjustment = 0xB1B0AFBAu32.wrapping_sub(full_checksum);
        store_u32_at(&mut out, off + 8, adjustment);
        proof {
            assert(forall|t: int|
                0 <= t < directory_end ==> #[trigger] out@[t] == pre_adj[t]);
        }
    }
    proof {
        assert(forall|t: int| 0 <= t < directory_end ==> #[trigger] out@[t] == out_dir[t]);
        assert forall|p: int|
            0 <= p < num_tables implies #[trigger] spec_dir_entry_field(out@, p, 0)
            == tag_keys@[by_tag@[p] as int] by {
            assert(spec_dir_entry_field(out_dir, p, 0) == tag_keys@[by_tag@[p] as int]);
            assert(12 + 16 * p + 4 <= directory_end);
        }
        assert forall|a: int, b: int|
            0 <= a < b < num_tables implies #[trigger] spec_dir_entry_field(out@, a, 0)
            <= #[trigger] spec_dir_entry_field(out@, b, 0) by {
            assert(tag_keys@[by_tag@[a] as int] <= tag_keys@[by_tag@[b] as int]);
        }
        assert forall|p: int|
            0 <= p < num_tables implies #[trigger] spec_dir_entry_field(out@, p, 8) % 4 == 0 by {
            assert(spec_dir_entry_field(out_dir, p, 8) == dst_spans@[by_tag@[p] as int].0);
            assert(12 + 16 * p + 12 <= directory_end);
            assert(dst_spans@[by_tag@[p] as int].0 % 4 == 0);
        }
        assert(be32(out@, 0) == header.flavor);
        assert(crate::buffer::be16(out@, 4) == header.num_tables);
    }

    Ok(out)
}

/// Decode a WOFF1 font with the built-in zlib decoder.
pub fn decompress_woff1(raw_woff_data: &[u8]) -> (r: Result<Vec<u8>, WuffErr>)
    ensures
        spec_parse_header(raw_woff_data@) is None ==> r is Err,
        match r {
            Ok(out) => out@.len() % 4 == 0 && out@.len() >= 12,
            Err(_) => true,
        },
{
    let mut codec = ZlibCodec;
    decompress_woff1_with_custom_z(raw_woff_data, &mut codec)
}

} // verus!
