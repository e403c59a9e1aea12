//! WOFF2 reconstruction: synthesize the output SFNT/TTC header, rebuild
//! every table of every font from the decompressed stream, back-patch the
//! directory entries and the `head` checksum adjustment.

use vstd::prelude::*;
use vstd::slice::SliceAdditionalExecFns;

use crate::buffer::{be16, be32, Buffer};
use crate::codec::{BrotliCodec, Decompressor};
use crate::error::WuffErr;
use crate::glyf_decoder::{tranform_glyf_table, Pad4};
use crate::hmtx_decoder::{decode_hmtx_table, generate_hmtx_table};
use crate::table_tags::{kGlyfTableTag, kHeadTableTag, kHmtxTableTag, kLocaTableTag};
use crate::types::{
    spec_font_entry_ok, CollectionDirectory, CollectionDirectoryEntry, TableDirectory,
    Woff2TableDirectory, Woff2TableDirectoryEntry, WoffHeader, WoffVersion,
};
use crate::woff2_common::{compute_checksum, push_u16_be, push_u32_be};

verus! {

/// Where a finalized table landed in the output, and its checksum; a table
/// of a collection is finalized once and reused by later fonts.
#[derive(Clone, Copy, PartialEq, Eq, Structural, Debug)]
pub struct TableMetadata {
    pub checksum: u32,
    pub dst_offset: u32,
    pub dst_length: u32,
}

impl TableMetadata {
    /// Table bodies never land at offset 0 (the header comes first), so a
    /// zero offset marks a slot that has not been finalized.
    pub fn is_already_computed(&self) -> (r: bool)
        ensures
            r <==> self.dst_offset != 0,
    {
        self.dst_offset != 0
    }

    /// What back-patching this entry adds to the font checksum: the three
    /// u32 fields written into the directory record.
    pub fn header_checksum_contribution(&self) -> (r: u32)
        ensures
            r == (self.checksum + self.dst_offset + self.dst_length) % 0x100000000,
    {
        self.checksum.wrapping_add(self.dst_offset).wrapping_add(self.dst_length)
    }
}

/// Reconstruction state of one output font: metric counts gathered along
/// the way and where each tag's directory entry sits in the output, for
/// back-patching.
pub struct WOFF2FontInfo {
    pub num_glyphs: u16,
    pub num_hmetrics: u16,
    pub index_format: u16,
    pub x_mins: Vec<i16>,
    /// tag -> byte offset of that tag's 16-byte directory entry.
    pub table_entry_by_tag: Vec<(u32, usize)>,
    /// Checksum of this font's offset table and directory entries.
    pub header_checksum: u32,
}

/// The synthesized output header block and per-font bookkeeping.
pub struct HeaderData {
    pub data: Vec<u8>,
    pub checksum: u32,
    pub font_infos: Vec<WOFF2FontInfo>,
}

/// Every recorded directory-entry offset leaves room for a 16-byte entry
/// inside the header block, and the block is 4-byte aligned.
pub open spec fn header_data_wf(hd: HeaderData) -> bool {
    &&& hd.data@.len() % 4 == 0
    &&& forall|i: int, k: int|
        0 <= i < hd.font_infos@.len() && 0 <= k < hd.font_infos@[i].table_entry_by_tag@.len()
            ==> 12 <= (#[trigger] hd.font_infos@[i].table_entry_by_tag@[k]).1
            && hd.font_infos@[i].table_entry_by_tag@[k].1 + 16 <= hd.data@.len()
}

/// Overwrite 4 bytes at `offset` with a big-endian 32-bit value.
pub fn store_u32_at(dst: &mut Vec<u8>, offset: usize, x: u32)
    requires
        offset + 4 <= old(dst)@.len(),
    ensures
        final(dst)@.len() == old(dst)@.len(),
        be32(final(dst)@, offset as int) == x,
        forall|t: int|
            0 <= t < final(dst)@.len() && !(offset <= t < offset + 4) ==> final(dst)@[t] == old(
                dst,
            )@[t],
{
    let n = dst.len();
    let s = dst.as_mut_slice();
    s.set(offset, (x / 0x1000000) as u8);
    s.set(offset + 1, ((x / 0x10000) % 0x100) as u8);
    s.set(offset + 2, ((x / 0x100) % 0x100) as u8);
    s.set(offset + 3, (x % 0x100) as u8);
}

/// The entry selector of an SFNT search table: the floor of log2.
pub open spec fn entry_selector_of(n: int) -> nat
    decreases n,
{
    if n < 2 {
        0
    } else {
        1 + entry_selector_of(n / 2)
    }
}

/// The entry selector is the unique exponent with
/// `2^e <= n < 2^(e + 1)`.
proof fn lemma_entry_selector_bounds(n: int)
    requires
        n >= 1,
    ensures
        vstd::arithmetic::power2::pow2(entry_selector_of(n)) <= n < vstd::arithmetic::power2::pow2(
            entry_selector_of(n) + 1,
        ),
    decreases n,
{
    vstd::arithmetic::power2::lemma2_to64();
    if n >= 2 {
        lemma_entry_selector_bounds(n / 2);
        let e = entry_selector_of(n / 2);
        vstd::arithmetic::power2::lemma_pow2_unfold((e + 1) as nat);
        vstd::arithmetic::power2::lemma_pow2_unfold((e + 2) as nat);
        vstd::arithmetic::div_mod::lemma_fundamental_div_mod(n, 2);
    }
}

/// Search-table parameters of an SFNT offset table: `searchRange`,
/// `entrySelector`, `rangeShift` (16-bit wrapping, as on disk).
pub fn compute_search_params(num_tables: u16) -> (r: (u16, u16, u16))
    requires
        num_tables >= 1,
    ensures
        r.1 == entry_selector_of(num_tables as int),
        r.0 == (16 * vstd::arithmetic::power2::pow2(r.1 as nat)) % 0x10000,
        r.2 == (16 * num_tables - r.0) % 0x10000,
{
    let mut max_pow2: u16 = 0;
    let mut p: u32 = 1;
    proof {
        vstd::arithmetic::power2::lemma2_to64();
    }
    while 2 * p <= num_tables as u32
        invariant
            num_tables >= 1,
            1 <= p <= num_tables,
            max_pow2 < 16,
            p == vstd::arithmetic::power2::pow2(max_pow2 as nat),
        decreases num_tables - p,
    {
        proof {
            vstd::arithmetic::power2::lemma2_to64();
            vstd::arithmetic::power2::lemma_pow2_unfold((max_pow2 + 1) as nat);
        }
        p = 2 * p;
        max_pow2 = max_pow2 + 1;
    }
    proof {
        vstd::arithmetic::power2::lemma_pow2_unfold((max_pow2 + 1) as nat);
        // The loop stopped at the unique exponent with 2^m <= n < 2^(m+1).
        let es = entry_selector_of(num_tables as int);
        lemma_entry_selector_bounds(num_tables as int);
        if (max_pow2 as nat) < es {
            vstd::arithmetic::power2::lemma_pow2_adds((max_pow2 + 1) as nat, (es - max_pow2
                - 1) as nat);
            vstd::arithmetic::power2::lemma_pow2_pos((es - max_pow2 - 1) as nat);
            assert(vstd::arithmetic::power2::pow2((max_pow2 + 1) as nat) <= vstd::arithmetic::power2::pow2(es))
                by (nonlinear_arith)
                requires
                    vstd::arithmetic::power2::pow2(es) == vstd::arithmetic::power2::pow2(
                        (max_pow2 + 1) as nat,
                    ) * vstd::arithmetic::power2::pow2((es - max_pow2 - 1) as nat),
                    vstd::arithmetic::power2::pow2((es - max_pow2 - 1) as nat) >= 1,
                    vstd::arithmetic::power2::pow2((max_pow2 + 1) as nat) >= 0;
            assert(false);
        }
        if (max_pow2 as nat) > es {
            vstd::arithmetic::power2::lemma_pow2_adds((es + 1) as nat, (max_pow2 - es - 1) as nat);
            vstd::arithmetic::power2::lemma_pow2_pos((max_pow2 - es - 1) as nat);
            assert(vstd::arithmetic::power2::pow2((es + 1) as nat) <= vstd::arithmetic::power2::pow2(max_pow2 as nat))
                by (nonlinear_arith)
                requires
                    vstd::arithmetic::power2::pow2(max_pow2 as nat) == vstd::arithmetic::power2::pow2(
                        (es + 1) as nat,
                    ) * vstd::arithmetic::power2::pow2((max_pow2 - es - 1) as nat),
                    vstd::arithmetic::power2::pow2((max_pow2 - es - 1) as nat) >= 1,
                    vstd::arithmetic::power2::pow2((es + 1) as nat) >= 0;
            assert(false);
        }
    }
    let search_range: u16 = ((16 * p) % 0x10000) as u16;
    let range_shift: u16 = ((16 * (num_tables as u32) - search_range as u32) % 0x10000) as u16;
    (search_range, max_pow2, range_shift)
}

/// Append an OpenType offset table (the 12-byte header of a table
/// directory): sfnt version, numTables, and the three search fields
/// derived from the table count.
#[verifier::rlimit(100)]
#[verifier::spinoff_prover]
pub fn write_table_directory_header(output: &mut Vec<u8>, flavor: u32, num_tables: u16)
    requires
        num_tables >= 1,
    ensures
        final(output)@.len() == old(output)@.len() + 12,
        old(output)@.is_prefix_of(final(output)@),
        be32(final(output)@, old(output)@.len() as int) == flavor,
        be16(final(output)@, old(output)@.len() as int + 4) == num_tables,
        be16(final(output)@, old(output)@.len() as int + 6) == (16
            * vstd::arithmetic::power2::pow2(entry_selector_of(num_tables as int))) % 0x10000,
        be16(final(output)@, old(output)@.len() as int + 8) == entry_selector_of(
            num_tables as int,
        ),
        be16(final(output)@, old(output)@.len() as int + 10) == (16 * num_tables - (16
            * vstd::arithmetic::power2::pow2(entry_selector_of(num_tables as int))) % 0x10000)
            % 0x10000,
{
    let ghost start = output@.len() as int;
    let (search_range, entry_selector, range_shift) = compute_search_params(num_tables);
    push_u32_be(output, flavor);
    let ghost s1 = output@;
    push_u16_be(output, num_tables);
    let ghost s2 = output@;
    push_u16_be(output, search_range);
    let ghost s3 = output@;
    push_u16_be(output, entry_selector);
    let ghost s4 = output@;
    push_u16_be(output, range_shift);
    proof {
        assert(forall|t: int| 0 <= t < s4.len() ==> #[trigger] output@[t] == s4[t]) by {
            assert(output@.subrange(0, s4.len() as int) =~= s4);
        }
        assert(forall|t: int| 0 <= t < s3.len() ==> #[trigger] s4[t] == s3[t]) by {
            assert(s4.subrange(0, s3.len() as int) =~= s3);
        }
        assert(forall|t: int| 0 <= t < s2.len() ==> #[trigger] s3[t] == s2[t]) by {
            assert(s3.subrange(0, s2.len() as int) =~= s2);
        }
        assert(old(output)@.is_prefix_of(output@)) by {
            assert(output@.subrange(0, old(output)@.len() as int) =~= old(output)@);
        }
        assert(be16(output@, start + 4) == num_tables);
        assert(be16(output@, start + 6) == search_range);
        assert(be16(output@, start + 8) == entry_selector);
        assert(be16(output@, start + 10) == range_shift);
    }
}

/// Append a zero-initialized 16-byte directory entry carrying only its tag;
/// checksum, offset and length are back-patched later.
pub fn write_empty_offset_table_entry(output: &mut Vec<u8>, tag: u32)
    ensures
        final(output)@.len() == old(output)@.len() + 16,
        old(output)@.is_prefix_of(final(output)@),
        be32(final(output)@, old(output)@.len() as int) == tag,
{
    let ghost start = output@.len() as int;
    push_u32_be(output, tag);
    let ghost s1 = output@;
    push_u32_be(output, 0);
    push_u32_be(output, 0);
    push_u32_be(output, 0);
    proof {
        assert(forall|t: int| 0 <= t < s1.len() ==> #[trigger] output@[t] == s1[t]) by {
            assert(output@.subrange(0, s1.len() as int) =~= s1);
        }
        assert(old(output)@.is_prefix_of(output@)) by {
            assert(output@.subrange(0, old(output)@.len() as int) =~= old(output)@);
        }
    }
}

/// Read `numberOfHMetrics` from a raw `hhea` table (a u16 at offset 34).
pub fn read_num_hmetrics(hhea_data: &[u8]) -> (r: Result<u16, WuffErr>)
    ensures
        match r {
            Ok(v) => hhea_data@.len() >= 36 && v == be16(hhea_data@, 34),
            Err(_) => hhea_data@.len() < 36,
        },
{
    let mut buffer = Buffer::new(hhea_data);
    if !buffer.Skip(34) {
        return Err(WuffErr::GenericError);
    }
    let mut num_hmetrics: u16 = 0;
    if !buffer.ReadU16(&mut num_hmetrics) {
        return Err(WuffErr::GenericError);
    }
    Ok(num_hmetrics)
}

/// The byte offset of `tag`'s directory entry among the recorded pairs;
/// the last recorded pair for a tag wins, as in the patching scan.
pub open spec fn spec_find_entry_offset(pairs: Seq<(u32, usize)>, tag: u32) -> Option<usize>
    decreases pairs.len(),
{
    if pairs.len() == 0 {
        None
    } else if pairs.last().0 == tag {
        Some(pairs.last().1)
    } else {
        spec_find_entry_offset(pairs.drop_last(), tag)
    }
}

impl HeaderData {
    /// Back-patch a finalized table's checksum, offset and length into its
    /// 16-byte directory entry at the front of the output buffer.
    pub fn update_table_entry(
        &self,
        out: &mut Vec<u8>,
        font_idx: usize,
        tag: u32,
        metadata: TableMetadata,
    ) -> (r: Result<(), WuffErr>)
        requires
            header_data_wf(*self),
            old(out)@.len() >= self.data@.len(),
        ensures
            final(out)@.len() == old(out)@.len(),
            match r {
                Ok(_) => {
                    &&& font_idx < self.font_infos@.len()
                    &&& spec_find_entry_offset(
                        self.font_infos@[font_idx as int].table_entry_by_tag@,
                        tag,
                    ) matches Some(off)
                    &&& {
                        let off = spec_find_entry_offset(
                            self.font_infos@[font_idx as int].table_entry_by_tag@,
                            tag,
                        )->Some_0;
                        &&& 12 <= off
                        &&& off + 16 <= self.data@.len()
                        &&& be32(final(out)@, off + 4) == metadata.checksum
                        &&& be32(final(out)@, off + 8) == metadata.dst_offset
                        &&& be32(final(out)@, off + 12) == metadata.dst_length
                        &&& forall|t: int|
                            0 <= t < final(out)@.len() && !(off + 4 <= t < off + 16)
                                ==> final(out)@[t] == old(out)@[t]
                    }
                },
                Err(_) => final(out)@ == old(out)@ && (font_idx >= self.font_infos@.len()
                    || spec_find_entry_offset(
                    self.font_infos@[font_idx as int].table_entry_by_tag@,
                    tag,
                ) is None),
            },
    {
        if font_idx >= self.font_infos.len() {
            return Err(WuffErr::GenericError);
        }
        // Find this tag's directory entry; the last recorded pair wins.
        let ghost pairs = self.font_infos@[font_idx as int].table_entry_by_tag@;
        let pairs_len = self.font_infos[font_idx].table_entry_by_tag.len();
        let mut k: usize = 0;
        let mut found: Option<usize> = None;
        proof {
            assert(pairs.take(0) =~= Seq::<(u32, usize)>::empty());
        }
        while k < pairs_len
            invariant
                font_idx < self.font_infos@.len(),
                pairs == self.font_infos@[font_idx as int].table_entry_by_tag@,
                pairs_len == pairs.len(),
                k <= pairs_len,
                header_data_wf(*self),
                found == spec_find_entry_offset(pairs.take(k as int), tag),
                match found {
                    Some(off) => 12 <= off && off + 16 <= self.data@.len(),
                    None => true,
                },
            decreases pairs_len - k,
        {
            let pair = self.font_infos[font_idx].table_entry_by_tag[k];
            if pair.0 == tag {
                found = Some(pair.1);
            }
            proof {
                assert(pairs.take(k + 1).drop_last() =~= pairs.take(k as int));
                assert(pairs.take(k + 1).last() == pairs[k as int]);
            }
            k = k + 1;
        }
        proof {
            assert(pairs.take(pairs_len as int) =~= pairs);
        }
        let table_entry_offset = match found {
            Some(off) => off,
            None => {
                return Err(WuffErr::GenericError);
            },
        };
        let n = out.len();
        store_u32_at(out, table_entry_offset + 4, metadata.checksum);
        let ghost s1 = out@;
        store_u32_at(out, table_entry_offset + 8, metadata.dst_offset);
        let ghost s2 = out@;
        store_u32_at(out, table_entry_offset + 12, metadata.dst_length);
        proof {
            let off = table_entry_offset as int;
            assert(be32(out@, off + 4) == metadata.checksum);
            assert(be32(out@, off + 8) == metadata.dst_offset);
            assert(forall|t: int|
                0 <= t < out@.len() && !(off + 4 <= t < off + 16) ==> out@[t] == old(out)@[t]);
        }
        Ok(())
    }
}

/// Each recorded (tag, offset) pair of every font names the tag whose
/// 16-byte directory entry begins at that offset of the header block, in
/// the font's table order.
pub open spec fn header_pairs_ok(
    hd: HeaderData,
    fonts: Seq<CollectionDirectoryEntry>,
    tables: Seq<Woff2TableDirectoryEntry>,
) -> bool {
    &&& hd.font_infos@.len() == fonts.len()
    &&& forall|i: int|
        0 <= i < fonts.len() ==> (#[trigger] hd.font_infos@[i]).table_entry_by_tag@.len()
            == fonts[i].table_indices@.len()
    &&& forall|i: int, k: int|
        0 <= i < fonts.len() && 0 <= k < fonts[i].table_indices@.len() ==> (
        #[trigger] hd.font_infos@[i].table_entry_by_tag@[k]).0 == tables[fonts[i].table_indices@[k] as int].tag
            && be32(hd.data@, hd.font_infos@[i].table_entry_by_tag@[k].1 as int)
            == tables[fonts[i].table_indices@[k] as int].tag
}

/// Synthesize the output header block: for a collection the TTC header and
/// per-font directories, for a single font one offset table and directory.
/// Entries are zero-filled and patched as tables are finalized.
#[verifier::rlimit(100)]
#[verifier::spinoff_prover]
pub fn generate_header(
    header: &WoffHeader,
    tables: &Woff2TableDirectory,
    collection_directory: &CollectionDirectory,
) -> (r: Result<HeaderData, WuffErr>)
    requires
        tables.tables@.len() < 0x10000,
        1 <= collection_directory.fonts@.len() < 0x10000,
        forall|i: int|
            0 <= i < collection_directory.fonts@.len() ==> spec_font_entry_ok(
                #[trigger] collection_directory.fonts@[i],
                tables.tables@,
            ),
        collection_directory.version == 0x00010000 || collection_directory.version == 0x00020000,
    ensures
        match r {
            Ok(hd) => {
                &&& header_data_wf(hd)
                &&& hd.font_infos@.len() == collection_directory.fonts@.len()
                &&& hd.data@.len() >= 12
                &&& header_pairs_ok(hd, collection_directory.fonts@, tables.tables@)
                &&& (header.flavor != crate::types::TTC_FLAVOR ==> {
                    let font0 = collection_directory.fonts@[0];
                    &&& be32(hd.data@, 0) == font0.flavor
                    &&& be16(hd.data@, 4) == font0.table_indices@.len()
                    &&& (collection_directory.fonts@.len() == 1 ==> hd.data@.len() == 12 + 16
                        * font0.table_indices@.len())
                    &&& forall|k: int|
                        0 <= k < font0.table_indices@.len()
                            ==> (#[trigger] hd.font_infos@[0].table_entry_by_tag@[k]).1 == 12 + 16
                            * k
                })
            },
            Err(_) => true,
        },
{
    let num_fonts = collection_directory.fonts.len();
    let mut output: Vec<u8> = Vec::new();
    let mut font_infos: Vec<WOFF2FontInfo> = Vec::new();
    let mut checksum: u32 = 0;

    if header.is_collection() {
        // TTC header.
        push_u32_be(&mut output, header.flavor);
        push_u32_be(&mut output, collection_directory.version);
        push_u32_be(&mut output, num_fonts as u32);

        // Table-directory offsets, one per font.
        let first_table_directory_offset: u32 = if collection_directory.version == 0x00010000 {
            12 + 4 * (num_fonts as u32)
        } else {
            12 + 12 + 4 * (num_fonts as u32)
        };
        let mut table_directory_offset: u32 = first_table_directory_offset;
        let mut i: usize = 0;
        while i < num_fonts
            invariant
                num_fonts == collection_directory.fonts@.len() < 0x10000,
                forall|t: int|
                    0 <= t < collection_directory.fonts@.len() ==> spec_font_entry_ok(
                        #[trigger] collection_directory.fonts@[t],
                        tables.tables@,
                    ),
                i <= num_fonts,
                output@.len() % 4 == 0,
            decreases num_fonts - i,
        {
            push_u32_be(&mut output, table_directory_offset);
            let font = &collection_directory.fonts[i];
            if font.table_indices.len() >= 0x10000 {
                return Err(WuffErr::GenericError);
            }
            let dir_size = font.table_directory_size() as u32;
            table_directory_offset = match table_directory_offset.checked_add(dir_size) {
                Some(v) => v,
                None => {
                    return Err(WuffErr::GenericError);
                },
            };
            i = i + 1;
        }

        // Space for the DSIG fields of a version 2 header.
        if collection_directory.version == 0x00020000 {
            push_u32_be(&mut output, 0);
            push_u32_be(&mut output, 0);
            push_u32_be(&mut output, 0);
        }

        checksum = checksum.wrapping_add(compute_checksum(output.as_slice()));
    }

    // One table directory per font (exactly one for a single font).
    let mut i: usize = 0;
    while i < num_fonts
        invariant
            num_fonts == collection_directory.fonts@.len() < 0x10000,
            tables.tables@.len() < 0x10000,
            forall|t: int|
                0 <= t < collection_directory.fonts@.len() ==> spec_font_entry_ok(
                    #[trigger] collection_directory.fonts@[t],
                    tables.tables@,
                ),
            i <= num_fonts,
            font_infos@.len() == i,
            output@.len() % 4 == 0,
            header.flavor != crate::types::TTC_FLAVOR ==> output@.len() == (if i == 0 {
                0int
            } else {
                12 + 16 * collection_directory.fonts@[0].table_indices@.len() as int
            }) || i > 1,
            forall|a: int, k: int|
                0 <= a < font_infos@.len() && 0 <= k
                    < font_infos@[a].table_entry_by_tag@.len() ==> 12 <= (
                #[trigger] font_infos@[a].table_entry_by_tag@[k]).1
                    && font_infos@[a].table_entry_by_tag@[k].1 + 16 <= output@.len(),
            forall|a: int|
                0 <= a < i ==> (#[trigger] font_infos@[a]).table_entry_by_tag@.len()
                    == collection_directory.fonts@[a].table_indices@.len(),
            forall|a: int, k: int|
                0 <= a < i && 0 <= k < collection_directory.fonts@[a].table_indices@.len() ==> (
                #[trigger] font_infos@[a].table_entry_by_tag@[k]).0 == tables.tables@[
                    collection_directory.fonts@[a].table_indices@[k] as int
                ].tag && be32(output@, font_infos@[a].table_entry_by_tag@[k].1 as int)
                    == tables.tables@[collection_directory.fonts@[a].table_indices@[k] as int].tag,
            header.flavor != crate::types::TTC_FLAVOR && i > 0 ==> be32(output@, 0)
                == collection_directory.fonts@[0].flavor && be16(output@, 4)
                == collection_directory.fonts@[0].table_indices@.len(),
            i > 0 ==> forall|k: int|
                0 <= k < font_infos@[0].table_entry_by_tag@.len()
                    ==> (#[trigger] font_infos@[0].table_entry_by_tag@[k]).1
                    == font_infos@[0].table_entry_by_tag@[0].1 + 16 * k,
            i > 0 && header.flavor != crate::types::TTC_FLAVOR
                && font_infos@[0].table_entry_by_tag@.len() > 0
                ==> font_infos@[0].table_entry_by_tag@[0].1 == 12,
        decreases num_fonts - i,
    {
        let font = &collection_directory.fonts[i];
        let num_tables = font.table_indices.len();
        if num_tables >= 0x10000 {
            return Err(WuffErr::GenericError);
        }
        let start_offset = output.len();
        let ghost out_before_font = output@;
        write_table_directory_header(&mut output, font.flavor, num_tables as u16);
        proof {
            assert(forall|t: int|
                0 <= t < out_before_font.len() ==> #[trigger] output@[t] == out_before_font[t])
                by {
                assert(output@.subrange(0, out_before_font.len() as int) =~= out_before_font);
            }
        }

        let mut pairs: Vec<(u32, usize)> = Vec::new();
        let mut j: usize = 0;
        while j < num_tables
            invariant
                i < collection_directory.fonts@.len(),
                font == &collection_directory.fonts@[i as int],
                spec_font_entry_ok(collection_directory.fonts@[i as int], tables.tables@),
                num_tables == font.table_indices@.len(),
                num_fonts == collection_directory.fonts@.len(),
                font_infos@.len() == i,
                j <= num_tables,
                pairs@.len() == j,
                output@.len() == start_offset + 12 + 16 * j,
                be32(output@, start_offset as int) == font.flavor,
                be16(output@, start_offset as int + 4) == num_tables,
                forall|k: int|
                    0 <= k < pairs@.len() ==> 12 <= (#[trigger] pairs@[k]).1 && pairs@[k].1 + 16
                        <= output@.len(),
                forall|k: int|
                    0 <= k < j ==> (#[trigger] pairs@[k]).1 == start_offset + 12 + 16 * k,
                forall|k: int|
                    0 <= k < j ==> (#[trigger] pairs@[k]).0 == tables.tables@[
                        font.table_indices@[k] as int
                    ].tag && be32(output@, pairs@[k].1 as int) == pairs@[k].0,
                forall|a: int, k: int|
                    0 <= a < font_infos@.len() && 0 <= k
                        < font_infos@[a].table_entry_by_tag@.len() ==> 12 <= (
                    #[trigger] font_infos@[a].table_entry_by_tag@[k]).1
                        && font_infos@[a].table_entry_by_tag@[k].1 + 16 <= start_offset,
                forall|a: int, k: int|
                    0 <= a < i && 0 <= k < collection_directory.fonts@[a].table_indices@.len()
                        ==> (#[trigger] font_infos@[a].table_entry_by_tag@[k]).0
                        == tables.tables@[
                        collection_directory.fonts@[a].table_indices@[k] as int
                    ].tag && be32(output@, font_infos@[a].table_entry_by_tag@[k].1 as int)
                        == tables.tables@[
                        collection_directory.fonts@[a].table_indices@[k] as int
                    ].tag,
                forall|a: int|
                    0 <= a < i ==> (#[trigger] font_infos@[a]).table_entry_by_tag@.len()
                        == collection_directory.fonts@[a].table_indices@.len(),
                header.flavor != crate::types::TTC_FLAVOR && i > 0 ==> be32(output@, 0)
                    == collection_directory.fonts@[0].flavor && be16(output@, 4)
                    == collection_directory.fonts@[0].table_indices@.len(),
            decreases num_tables - j,
        {
            let table_index = font.table_indices[j];
            let tag = tables.tables[table_index as usize].tag;
            pairs.push((tag, output.len()));
            let ghost out_before = output@;
            write_empty_offset_table_entry(&mut output, tag);
            proof {
                assert(forall|t: int|
                    0 <= t < out_before.len() ==> #[trigger] output@[t] == out_before[t]) by {
                    assert(output@.subrange(0, out_before.len() as int) =~= out_before);
                }
            }
            j = j + 1;
        }

        let font_slice = vstd::slice::slice_subrange(output.as_slice(), start_offset, output.len());
        let header_checksum = compute_checksum(font_slice);
        checksum = checksum.wrapping_add(header_checksum);
        let info = WOFF2FontInfo {
            num_glyphs: 0,
            num_hmetrics: 0,
            index_format: 0,
            x_mins: Vec::new(),
            table_entry_by_tag: pairs,
            header_checksum,
        };
        font_infos.push(info);
        i = i + 1;
    }

    if output.len() < 12 {
        return Err(WuffErr::GenericError);
    }
    Ok(HeaderData { data: output, checksum, font_infos })
}


/// Every finalized slot records a 4-byte-aligned span that lies past the
/// synthesized header block and inside the output written so far.
pub open spec fn metadata_ok(tm: Seq<Option<TableMetadata>>, hdr_len: int, out_len: int) -> bool {
    forall|j: int|
        0 <= j < tm.len() ==> match #[trigger] tm[j] {
            Some(m) => m.dst_offset % 4 == 0 && hdr_len <= m.dst_offset && m.dst_offset
                + m.dst_length <= out_len,
            None => true,
        }
}

/// Every finalized record whose table is not `head` checksums exactly the
/// output span it names (the head record's checksum is taken with its
/// checkSumAdjustment as zero, which the span no longer shows once the
/// adjustment is patched in).
pub open spec fn metadata_checksums_ok(
    tm: Seq<Option<TableMetadata>>,
    tables: Seq<Woff2TableDirectoryEntry>,
    out: Seq<u8>,
) -> bool {
    forall|j: int|
        0 <= j < tm.len() ==> match #[trigger] tm[j] {
            Some(m) => tables[j].tag == kHeadTableTag || m.checksum
                == crate::woff2_common::sum_be32_pad0(
                out.subrange(m.dst_offset as int, m.dst_offset + m.dst_length),
            ),
            None => true,
        }
}

/// Distinct finalized records name disjoint output spans.
pub open spec fn metadata_disjoint(tm: Seq<Option<TableMetadata>>) -> bool {
    forall|j: int, k: int|
        0 <= j < tm.len() && 0 <= k < tm.len() && j != k ==> match (#[trigger] tm[j], #[trigger] tm[k]) {
            (Some(a), Some(b)) => a.dst_offset + a.dst_length <= b.dst_offset || b.dst_offset
                + b.dst_length <= a.dst_offset,
            _ => true,
        }
}

/// A write confined to `[lo, hi)` leaves every recorded span's checksum
/// relation intact, except possibly the head record's (which the law
/// already leaves out).
proof fn lemma_checksums_preserved(
    tm: Seq<Option<TableMetadata>>,
    tables: Seq<Woff2TableDirectoryEntry>,
    out_old: Seq<u8>,
    out_new: Seq<u8>,
    lo: int,
    hi: int,
)
    requires
        metadata_checksums_ok(tm, tables, out_old),
        out_new.len() >= out_old.len(),
        forall|t: int| 0 <= t < out_old.len() && !(lo <= t < hi) ==> out_new[t] == out_old[t],
        forall|j: int|
            0 <= j < tm.len() ==> match #[trigger] tm[j] {
                Some(m) => m.dst_offset + m.dst_length <= out_old.len() && (tables[j].tag
                    == kHeadTableTag || hi <= m.dst_offset || m.dst_offset + m.dst_length <= lo),
                None => true,
            },
    ensures
        metadata_checksums_ok(tm, tables, out_new),
{
    assert forall|j: int| 0 <= j < tm.len() implies (match #[trigger] tm[j] {
        Some(m) => tables[j].tag == kHeadTableTag || m.checksum
            == crate::woff2_common::sum_be32_pad0(
            out_new.subrange(m.dst_offset as int, m.dst_offset + m.dst_length),
        ),
        None => true,
    }) by {
        match tm[j] {
            Some(m) => {
                if tables[j].tag != kHeadTableTag {
                    assert(out_new.subrange(m.dst_offset as int, m.dst_offset + m.dst_length)
                        =~= out_old.subrange(m.dst_offset as int, m.dst_offset + m.dst_length));
                }
            },
            None => {},
        }
    }
}

/// Finalizing one more record keeps both laws, provided its span begins
/// past every span already recorded (`cut`) and the already-written bytes
/// are untouched.
proof fn lemma_metadata_extend(
    tm_old: Seq<Option<TableMetadata>>,
    tables: Seq<Woff2TableDirectoryEntry>,
    tm_new: Seq<Option<TableMetadata>>,
    idx: int,
    m: TableMetadata,
    out_old: Seq<u8>,
    out_new: Seq<u8>,
    cut: int,
)
    requires
        metadata_checksums_ok(tm_old, tables, out_old),
        metadata_disjoint(tm_old),
        0 <= idx < tm_old.len(),
        tm_new == tm_old.update(idx, Some(m)),
        out_new.len() >= out_old.len(),
        forall|t: int| 0 <= t < out_old.len() ==> out_new[t] == out_old[t],
        forall|j: int|
            0 <= j < tm_old.len() ==> match #[trigger] tm_old[j] {
                Some(a) => a.dst_offset + a.dst_length <= cut && a.dst_offset + a.dst_length
                    <= out_old.len(),
                None => true,
            },
        cut <= m.dst_offset,
        m.dst_offset + m.dst_length <= out_new.len(),
        tables[idx].tag == kHeadTableTag || m.checksum == crate::woff2_common::sum_be32_pad0(
            out_new.subrange(m.dst_offset as int, m.dst_offset + m.dst_length),
        ),
    ensures
        metadata_checksums_ok(tm_new, tables, out_new),
        metadata_disjoint(tm_new),
{
    assert forall|j: int| 0 <= j < tm_new.len() implies (match #[trigger] tm_new[j] {
        Some(a) => tables[j].tag == kHeadTableTag || a.checksum
            == crate::woff2_common::sum_be32_pad0(
            out_new.subrange(a.dst_offset as int, a.dst_offset + a.dst_length),
        ),
        None => true,
    }) by {
        if j != idx {
            match tm_old[j] {
                Some(a) => {
                    if tables[j].tag != kHeadTableTag {
                        assert(out_new.subrange(a.dst_offset as int, a.dst_offset + a.dst_length)
                            =~= out_old.subrange(a.dst_offset as int, a.dst_offset + a.dst_length));
                    }
                },
                None => {},
            }
        }
    }
}

/// Replace one slot of the finalization table.
fn set_metadata(v: &mut Vec<Option<TableMetadata>>, i: usize, m: TableMetadata)
    requires
        i < old(v)@.len(),
    ensures
        final(v)@ == old(v)@.update(i as int, Some(m)),
{
    let s = v.as_mut_slice();
    s.set(i, Some(m));
}


/// Copy an untransformed table into the output verbatim, 4-byte padded.
/// For `head` the checksum is computed as if checkSumAdjustment were zero.
fn copy_untransformed_table(woff_data: &[u8], table: &crate::types::Woff2TableDirectoryEntry, out: &mut Vec<u8>) -> (r: Result<
    TableMetadata,
    WuffErr,
>)
    requires
        old(out)@.len() % 4 == 0,
    ensures
        final(out)@.len() >= old(out)@.len(),
        r is Ok ==> final(out)@.len() % 4 == 0,
        match r {
            Ok(m) => {
                let span = woff_data@.subrange(
                    table.woff_offset as int,
                    table.woff_offset + table.woff_length,
                );
                &&& table.woff_offset + table.woff_length <= woff_data@.len()
                &&& m.dst_offset == old(out)@.len()
                &&& m.dst_offset % 4 == 0
                &&& m.dst_length == table.woff_length
                &&& m.dst_offset + m.dst_length <= final(out)@.len()
                &&& final(out)@.len() == crate::round4_spec(
                    old(out)@.len() + table.woff_length,
                )
                &&& old(out)@.is_prefix_of(final(out)@)
                &&& (forall|t: int|
                    0 <= t < table.woff_length ==> final(out)@[old(out)@.len() + t] == span[t])
                &&& (forall|t: int|
                    old(out)@.len() + table.woff_length <= t < final(out)@.len()
                        ==> final(out)@[t] == 0)
                &&& m.checksum == (crate::woff2_common::sum_be32_pad0(span) - (
                if table.tag == kHeadTableTag {
                    be32(span, 8)
                } else {
                    0int
                })) % 0x100000000
            },
            Err(_) => true,
        },
{
    let check_sum_adjustment: u32 = if table.tag == kHeadTableTag {
        if table.woff_length < 12 {
            return Err(WuffErr::GenericError);
        }
        if (table.woff_offset as u64) + (table.woff_length as u64) > (woff_data.len() as u64) {
            return Err(WuffErr::GenericError);
        }
        let off = table.woff_offset as usize;
        let b0 = woff_data[off + 8];
        let b1 = woff_data[off + 9];
        let b2 = woff_data[off + 10];
        let b3 = woff_data[off + 11];
        (b0 as u32) * 0x1000000 + (b1 as u32) * 0x10000 + (b2 as u32) * 0x100 + (b3 as u32)
    } else {
        0
    };

    let table_data = match table.data_as_slice(woff_data) {
        Ok(s) => s,
        Err(e) => {
            return Err(e);
        },
    };
    proof {
        if table.tag == kHeadTableTag {
            assert(check_sum_adjustment == be32(table_data@, 8));
        }
    }
    let checksum = compute_checksum(table_data).wrapping_sub(check_sum_adjustment);

    if out.len() as u64 > u32::MAX as u64 {
        return Err(WuffErr::GenericError);
    }
    let m = TableMetadata {
        dst_offset: out.len() as u32,
        dst_length: table.woff_length,
        checksum,
    };
    let ghost out_before = out@;
    out.extend_from_slice(table_data);
    if !Pad4(out) {
        return Err(WuffErr::GenericError);
    }
    proof {
        let mid = out_before + table_data@;
        assert(mid.is_prefix_of(out@));
        assert(forall|t: int| 0 <= t < mid.len() ==> #[trigger] out@[t] == mid[t]) by {
            assert(out@.subrange(0, mid.len() as int) =~= mid);
        }
        assert(old(out)@.is_prefix_of(out@)) by {
            assert(out@.subrange(0, old(out)@.len() as int) =~= old(out)@);
        }
    }
    Ok(m)
}

/// Write the derived `glyf` table (already 4-byte aligned) to the output.
#[verifier::rlimit(100)]
#[verifier::spinoff_prover]
fn write_glyf_table(g: &crate::glyf_decoder::GlyfAndLocaData, out: &mut Vec<u8>) -> (r: Result<
    TableMetadata,
    WuffErr,
>)
    requires
        old(out)@.len() % 4 == 0,
        g.glyf_table@.len() % 4 == 0,
        g.glyf_table@.len() <= u32::MAX,
        g.glyf_checksum == crate::woff2_common::sum_be32_pad0(g.glyf_table@),
    ensures
        final(out)@.len() >= old(out)@.len(),
        old(out)@.is_prefix_of(final(out)@),
        match r {
            Ok(m) => {
                &&& final(out)@.len() % 4 == 0
                &&& m.dst_offset == old(out)@.len()
                &&& m.dst_offset % 4 == 0
                &&& m.dst_length == g.glyf_table@.len()
                &&& m.dst_offset + m.dst_length <= final(out)@.len()
                &&& final(out)@.subrange(m.dst_offset as int, m.dst_offset + m.dst_length)
                    == g.glyf_table@
                &&& m.checksum == crate::woff2_common::sum_be32_pad0(g.glyf_table@)
            },
            Err(_) => true,
        },
{
    if out.len() as u64 > u32::MAX as u64 {
        return Err(WuffErr::GenericError);
    }
    let metadata = TableMetadata {
        checksum: g.glyf_checksum,
        dst_offset: out.len() as u32,
        dst_length: g.glyf_table.len() as u32,
    };
    let ghost before = out@;
    out.extend_from_slice(g.glyf_table.as_slice());
    if !Pad4(out) {
        return Err(WuffErr::GenericError);
    }
    proof {
        // glyf is a multiple of 4 long, so padding added nothing.
        let mid = before + g.glyf_table@;
        assert(mid.len() % 4 == 0);
        assert(out@.len() == mid.len());
        assert(mid.is_prefix_of(out@));
        assert(forall|t: int| 0 <= t < mid.len() ==> #[trigger] out@[t] == mid[t]) by {
            assert(out@.subrange(0, mid.len() as int) =~= mid);
        }
        assert(out@ =~= mid);
        assert(out@.subrange(before.len() as int, before.len() + g.glyf_table@.len() as int)
            =~= g.glyf_table@);
        assert(before.is_prefix_of(out@)) by {
            assert(out@.subrange(0, before.len() as int) =~= before);
        }
    }
    Ok(metadata)
}

/// Write the derived `loca` table to the output, 4-byte padded.
#[verifier::rlimit(100)]
#[verifier::spinoff_prover]
fn write_loca_table(g: &crate::glyf_decoder::GlyfAndLocaData, out: &mut Vec<u8>) -> (r: Result<
    TableMetadata,
    WuffErr,
>)
    requires
        old(out)@.len() % 4 == 0,
        g.loca_table@.len() <= 0x40000,
        g.loca_checksum == crate::woff2_common::sum_be32_pad0(g.loca_table@),
    ensures
        final(out)@.len() >= old(out)@.len(),
        old(out)@.is_prefix_of(final(out)@),
        match r {
            Ok(m) => {
                &&& final(out)@.len() % 4 == 0
                &&& m.dst_offset == old(out)@.len()
                &&& m.dst_offset % 4 == 0
                &&& m.dst_length == g.loca_table@.len()
                &&& m.dst_offset + m.dst_length <= final(out)@.len()
                &&& final(out)@.subrange(m.dst_offset as int, m.dst_offset + m.dst_length)
                    == g.loca_table@
                &&& m.checksum == crate::woff2_common::sum_be32_pad0(g.loca_table@)
            },
            Err(_) => true,
        },
{
    if out.len() as u64 > u32::MAX as u64 {
        return Err(WuffErr::GenericError);
    }
    let metadata = TableMetadata {
        checksum: g.loca_checksum,
        dst_offset: out.len() as u32,
        dst_length: g.loca_table.len() as u32,
    };
    let ghost before = out@;
    out.extend_from_slice(g.loca_table.as_slice());
    if !Pad4(out) {
        return Err(WuffErr::GenericError);
    }
    proof {
        let mid = before + g.loca_table@;
        assert(mid.is_prefix_of(out@));
        assert(forall|t: int| 0 <= t < mid.len() ==> #[trigger] out@[t] == mid[t]) by {
            assert(out@.subrange(0, mid.len() as int) =~= mid);
        }
        assert(out@.subrange(before.len() as int, before.len() + g.loca_table@.len() as int)
            =~= g.loca_table@);
        assert(before.is_prefix_of(out@)) by {
            assert(out@.subrange(0, before.len() as int) =~= before);
        }
    }
    Ok(metadata)
}

/// Invert the glyf transform and write the derived glyf and loca tables,
/// handing back their records and the side products hmtx needs.
#[verifier::spinoff_prover]
fn reconstruct_glyf_pair(
    woff_data: &[u8],
    table: &crate::types::Woff2TableDirectoryEntry,
    loca_orig_length: u32,
    out: &mut Vec<u8>,
) -> (r: Result<(TableMetadata, TableMetadata, u16, Vec<i16>), WuffErr>)
    requires
        old(out)@.len() % 4 == 0,
    ensures
        final(out)@.len() >= old(out)@.len(),
        r is Ok ==> final(out)@.len() % 4 == 0 && old(out)@.is_prefix_of(final(out)@),
        match r {
            Ok((gm, lm, num_glyphs, x_mins)) => {
                &&& gm.dst_offset == old(out)@.len()
                &&& gm.dst_offset % 4 == 0
                &&& gm.dst_offset + gm.dst_length <= final(out)@.len()
                &&& lm.dst_offset % 4 == 0
                &&& gm.dst_offset + gm.dst_length <= lm.dst_offset
                &&& lm.dst_offset + lm.dst_length <= final(out)@.len()
                &&& x_mins@.len() == num_glyphs
                &&& lm.dst_length == loca_orig_length
                &&& gm.checksum == crate::woff2_common::sum_be32_pad0(
                    final(out)@.subrange(gm.dst_offset as int, gm.dst_offset + gm.dst_length),
                )
                &&& lm.checksum == crate::woff2_common::sum_be32_pad0(
                    final(out)@.subrange(lm.dst_offset as int, lm.dst_offset + lm.dst_length),
                )
            },
            Err(_) => true,
        },
{
    let raw_glyf_table_data = match table.data_as_slice(woff_data) {
        Ok(s) => s,
        Err(e) => {
            return Err(e);
        },
    };
    let g = match tranform_glyf_table(raw_glyf_table_data) {
        Ok(g) => g,
        Err(e) => {
            return Err(e);
        },
    };

    // The directory's declared loca length must match the derived table.
    if loca_orig_length as usize != g.loca_table.len() {
        return Err(WuffErr::GenericError);
    }

    proof {
        // The derived loca table is at most 4 * (65535 + 1) bytes.
        assert(g.loca_table@.len() <= 0x40000);
    }
    let glyf_metadata = match write_glyf_table(&g, out) {
        Ok(m) => m,
        Err(e) => {
            return Err(e);
        },
    };
    let ghost after_glyf = out@;
    let loca_metadata = match write_loca_table(&g, out) {
        Ok(m) => m,
        Err(e) => {
            return Err(e);
        },
    };
    proof {
        crate::woff2_common::lemma_subrange_of_prefix(
            after_glyf,
            out@,
            glyf_metadata.dst_offset as int,
            glyf_metadata.dst_offset + glyf_metadata.dst_length,
        );
        assert(old(out)@.is_prefix_of(out@)) by {
            assert(forall|t: int|
                0 <= t < old(out)@.len() ==> #[trigger] out@[t] == after_glyf[t]);
            assert(out@.subrange(0, old(out)@.len() as int) =~= old(out)@);
        }
    }
    Ok((glyf_metadata, loca_metadata, g.num_glyphs, g.x_mins))
}

/// Invert the hmtx transform and write the rebuilt table.
#[verifier::rlimit(60)]
#[verifier::spinoff_prover]
fn reconstruct_hmtx_table(
    woff_data: &[u8],
    table: &crate::types::Woff2TableDirectoryEntry,
    num_glyphs: u16,
    num_hmetrics: u16,
    x_mins: &Vec<i16>,
    out: &mut Vec<u8>,
) -> (r: Result<TableMetadata, WuffErr>)
    requires
        old(out)@.len() % 4 == 0,
        x_mins@.len() == num_glyphs,
    ensures
        final(out)@.len() >= old(out)@.len(),
        r is Ok ==> final(out)@.len() % 4 == 0 && old(out)@.is_prefix_of(final(out)@),
        match r {
            Ok(m) => m.dst_offset == old(out)@.len() && m.dst_offset % 4 == 0 && m.dst_offset
                + m.dst_length <= final(out)@.len() && m.checksum
                == crate::woff2_common::sum_be32_pad0(
                final(out)@.subrange(m.dst_offset as int, m.dst_offset + m.dst_length),
            ),
            Err(_) => true,
        },
{
    let raw_hmtx_table_data = match table.data_as_slice(woff_data) {
        Ok(s) => s,
        Err(e) => {
            return Err(e);
        },
    };
    let mut hmtx_buf = Buffer::new(raw_hmtx_table_data);
    let hmtx_data = match decode_hmtx_table(&mut hmtx_buf, num_glyphs, num_hmetrics, x_mins) {
        Ok(d) => d,
        Err(e) => {
            return Err(e);
        },
    };
    let hmtx_table = match generate_hmtx_table(&hmtx_data) {
        Ok(t) => t,
        Err(e) => {
            return Err(e);
        },
    };
    let checksum = compute_checksum(hmtx_table.as_slice());

    if out.len() as u64 > u32::MAX as u64 {
        return Err(WuffErr::GenericError);
    }
    proof {
        assert(hmtx_table@.len() <= 4 * 0x10000);
    }
    let hmtx_metadata = TableMetadata {
        checksum,
        dst_offset: out.len() as u32,
        dst_length: hmtx_table.len() as u32,
    };
    let ghost out_before_hmtx = out@;
    out.extend_from_slice(hmtx_table.as_slice());
    if !Pad4(out) {
        return Err(WuffErr::GenericError);
    }
    proof {
        let mid = out_before_hmtx + hmtx_table@;
        assert(mid.is_prefix_of(out@));
        assert(forall|t: int| 0 <= t < mid.len() ==> #[trigger] out@[t] == mid[t]) by {
            assert(out@.subrange(0, mid.len() as int) =~= mid);
        }
        assert(out@.subrange(
            hmtx_metadata.dst_offset as int,
            hmtx_metadata.dst_offset + hmtx_metadata.dst_length,
        ) =~= hmtx_table@);
        assert(old(out)@.is_prefix_of(out@)) by {
            assert(out@.subrange(0, old(out)@.len() as int) =~= old(out)@);
        }
    }
    Ok(hmtx_metadata)
}

/// Rebuild one font of the (possibly one-entry) collection: lay every one
/// of its tables down in the output, transformed tables through their
/// inverters, back-patch the directory records, and write the `head`
/// checksum adjustment.  On success every table body of this font starts at
/// a 4-byte-aligned offset inside the output.
#[verifier::rlimit(100)]
#[verifier::spinoff_prover]
pub fn reconstruct_font(
    woff_data: &[u8],
    header: &WoffHeader,
    tables: &Woff2TableDirectory,
    font_entry: &CollectionDirectoryEntry,
    out_header: &HeaderData,
    table_metadata: &mut Vec<Option<TableMetadata>>,
    out: &mut Vec<u8>,
    font_idx: usize,
) -> (r: Result<(), WuffErr>)
    requires
        spec_font_entry_ok(*font_entry, tables.tables@),
        header_data_wf(*out_header),
        out_header.data@.len() >= 12,
        old(table_metadata)@.len() == tables.tables@.len(),
        old(out)@.len() % 4 == 0,
        old(out)@.len() >= out_header.data@.len(),
        metadata_ok(
            old(table_metadata)@,
            out_header.data@.len() as int,
            old(out)@.len() as int,
        ),
        metadata_checksums_ok(old(table_metadata)@, tables.tables@, old(out)@),
        metadata_disjoint(old(table_metadata)@),
    ensures
        final(table_metadata)@.len() == old(table_metadata)@.len(),
        final(out)@.len() >= old(out)@.len(),
        r is Ok ==> final(out)@.len() % 4 == 0 && metadata_ok(
            final(table_metadata)@,
            out_header.data@.len() as int,
            final(out)@.len() as int,
        ) && metadata_checksums_ok(final(table_metadata)@, tables.tables@, final(out)@)
            && metadata_disjoint(final(table_metadata)@),
        r is Ok ==> forall|t: int| 0 <= t < 12 ==> final(out)@[t] == old(out)@[t],
        (match (font_entry.glyf_idx, font_entry.loca_idx) {
            (Some(_), None) => true,
            (None, Some(_)) => true,
            (Some(g), Some(l)) => crate::types::spec_is_transformed(
                tables.tables@[g as int].tag,
                tables.tables@[g as int].format,
            ) != crate::types::spec_is_transformed(
                tables.tables@[l as int].tag,
                tables.tables@[l as int].format,
            ),
            (None, None) => false,
        }) ==> r is Err,
        (font_idx == 0 && exists|jj: int|
            0 <= jj < font_entry.table_indices@.len() && old(table_metadata)@[(
            #[trigger] font_entry.table_indices@[jj]) as int] is Some && tables.tables@[
                font_entry.table_indices@[jj] as int
            ].tag != kLocaTableTag) ==> r is Err,
{
    // A glyf table without loca (or the reverse) cannot be reconstructed,
    // and the pair must agree about being transformed.
    match (font_entry.glyf_idx, font_entry.loca_idx) {
        (Some(g), Some(l)) => {
            if tables.tables[g as usize].is_transformed() != tables.tables[
                l as usize
            ].is_transformed() {
                return Err(WuffErr::GenericError);
            }
        },
        (None, None) => {},
        _ => {
            return Err(WuffErr::GenericError);
        },
    }

    let mut font_checksum: u32 = if header.is_collection() {
        out_header.checksum
    } else {
        if font_idx >= out_header.font_infos.len() {
            return Err(WuffErr::GenericError);
        }
        out_header.font_infos[font_idx].header_checksum
    };

    // numberOfHMetrics comes from hhea, needed later to rebuild hmtx.
    let num_hmetrics_opt: Option<u16> = match font_entry.hhea_idx {
        Some(h) => {
            let hhea_table = &tables.tables[h as usize];
            let hhea_slice = match hhea_table.data_as_slice(woff_data) {
                Ok(s) => s,
                Err(e) => {
                    return Err(e);
                },
            };
            match read_num_hmetrics(hhea_slice) {
                Ok(v) => Some(v),
                Err(e) => {
                    return Err(e);
                },
            }
        },
        None => None,
    };

    // Glyph count and per-glyph x_min values, filled in by the glyf
    // inverter and consumed by the hmtx inverter (tags are sorted, so glyf
    // comes first).
    let mut glyf_info: Option<(u16, Vec<i16>)> = None;

    let n_indices = font_entry.table_indices.len();
    let mut j: usize = 0;
    while j < n_indices
        invariant
            j <= n_indices,
            n_indices == font_entry.table_indices@.len(),
            spec_font_entry_ok(*font_entry, tables.tables@),
            header_data_wf(*out_header),
            table_metadata@.len() == tables.tables@.len(),
            table_metadata@.len() == old(table_metadata)@.len(),
            out@.len() % 4 == 0,
            out@.len() >= old(out)@.len(),
            out@.len() >= out_header.data@.len(),
            metadata_ok(table_metadata@, out_header.data@.len() as int, out@.len() as int),
            metadata_checksums_ok(table_metadata@, tables.tables@, out@),
            metadata_disjoint(table_metadata@),
            forall|t: int| 0 <= t < 12 ==> out@[t] == old(out)@[t],
            forall|k: int|
                0 <= k < table_metadata@.len() && old(table_metadata)@[k] is Some
                    ==> #[trigger] table_metadata@[k] is Some,
            font_idx == 0 ==> forall|jj: int|
                0 <= jj < j ==> !(old(table_metadata)@[(
                #[trigger] font_entry.table_indices@[jj]) as int] is Some && tables.tables@[
                    font_entry.table_indices@[jj] as int
                ].tag != kLocaTableTag),
            match glyf_info {
                Some((n, ref xm)) => xm@.len() == n,
                None => true,
            },
        decreases n_indices - j,
    {
        let table_idx = font_entry.table_indices[j] as usize;
        let table = tables.tables[table_idx];
        let ghost tm_at_entry = table_metadata@;
        let ghost out_at_entry = out@;

        if (table.woff_offset as u64) + (table.woff_length as u64) > (woff_data.len() as u64) {
            return Err(WuffErr::GenericError);
        }

        let slot = table_metadata[table_idx];
        let metadata: TableMetadata = if let Some(m) = slot {
            // Already finalized: legitimate only for tables reused across a
            // collection, or for loca, which glyf finalizes as a side
            // effect within the same font.
            if font_idx == 0 && table.tag != kLocaTableTag {
                return Err(WuffErr::GenericError);
            }
            m
        } else if !table.is_transformed() {
            let m = match copy_untransformed_table(woff_data, &table, out) {
                Ok(m) => m,
                Err(e) => {
                    return Err(e);
                },
            };
            set_metadata(table_metadata, table_idx, m);
            proof {
                assert(forall|t: int|
                    0 <= t < out_at_entry.len() ==> #[trigger] out@[t] == out_at_entry[t]) by {
                    assert(out@.subrange(0, out_at_entry.len() as int) =~= out_at_entry);
                }
                if table.tag != kHeadTableTag {
                    let span = woff_data@.subrange(
                        table.woff_offset as int,
                        table.woff_offset + table.woff_length,
                    );
                    assert(out@.subrange(m.dst_offset as int, m.dst_offset + m.dst_length)
                        =~= span);
                }
                lemma_metadata_extend(
                    tm_at_entry,
                    tables.tables@,
                    table_metadata@,
                    table_idx as int,
                    m,
                    out_at_entry,
                    out@,
                    out_at_entry.len() as int,
                );
            }
            m
        } else if table.tag == kGlyfTableTag {
            let loca_idx = match font_entry.loca_idx {
                Some(l) => l as usize,
                None => {
                    return Err(WuffErr::GenericError);
                },
            };
            let loca_orig_length = tables.tables[loca_idx].orig_length;
            let (glyf_metadata, loca_metadata, num_glyphs, x_mins) = match reconstruct_glyf_pair(
                woff_data,
                &table,
                loca_orig_length,
                out,
            ) {
                Ok(v) => v,
                Err(e) => {
                    return Err(e);
                },
            };
            set_metadata(table_metadata, table_idx, glyf_metadata);
            proof {
                assert(forall|t: int|
                    0 <= t < out_at_entry.len() ==> #[trigger] out@[t] == out_at_entry[t]) by {
                    assert(out@.subrange(0, out_at_entry.len() as int) =~= out_at_entry);
                }
                lemma_metadata_extend(
                    tm_at_entry,
                    tables.tables@,
                    table_metadata@,
                    table_idx as int,
                    glyf_metadata,
                    out_at_entry,
                    out@,
                    out_at_entry.len() as int,
                );
            }
            let ghost tm_mid = table_metadata@;
            set_metadata(table_metadata, loca_idx, loca_metadata);
            proof {
                assert(forall|k: int|
                    0 <= k < tm_mid.len() ==> match #[trigger] tm_mid[k] {
                        Some(a) => a.dst_offset + a.dst_length <= loca_metadata.dst_offset
                            && a.dst_offset + a.dst_length <= out@.len(),
                        None => true,
                    });
                lemma_metadata_extend(
                    tm_mid,
                    tables.tables@,
                    table_metadata@,
                    loca_idx as int,
                    loca_metadata,
                    out@,
                    out@,
                    loca_metadata.dst_offset as int,
                );
            }
            glyf_info = Some((num_glyphs, x_mins));
            glyf_metadata
        } else if table.tag == kLocaTableTag {
            // loca is finalized while processing glyf; reaching it first
            // means the font is malformed.
            return Err(WuffErr::GenericError);
        } else if table.tag == kHmtxTableTag {
            // Tags are sorted, so glyf and hhea have been seen already.
            let num_hmetrics = match num_hmetrics_opt {
                Some(h) => h,
                None => {
                    return Err(WuffErr::GenericError);
                },
            };
            let (num_glyphs, x_mins) = match &glyf_info {
                Some((n, xm)) => (*n, xm),
                None => {
                    return Err(WuffErr::GenericError);
                },
            };
            let m = match reconstruct_hmtx_table(
                woff_data,
                &table,
                num_glyphs,
                num_hmetrics,
                x_mins,
                out,
            ) {
                Ok(m) => m,
                Err(e) => {
                    return Err(e);
                },
            };
            set_metadata(table_metadata, table_idx, m);
            proof {
                assert(forall|t: int|
                    0 <= t < out_at_entry.len() ==> #[trigger] out@[t] == out_at_entry[t]) by {
                    assert(out@.subrange(0, out_at_entry.len() as int) =~= out_at_entry);
                }
                lemma_metadata_extend(
                    tm_at_entry,
                    tables.tables@,
                    table_metadata@,
                    table_idx as int,
                    m,
                    out_at_entry,
                    out@,
                    out_at_entry.len() as int,
                );
            }
            m
        } else {
            // A transform this decoder does not know.
            return Err(WuffErr::GenericError);
        };

        // Fold the table checksum and its directory record into the font
        // checksum, and patch the record with the real values.
        font_checksum = font_checksum.wrapping_add(metadata.checksum);
        let ghost out_pre_patch = out@;
        if let Err(e) = out_header.update_table_entry(out, font_idx, table.tag, metadata) {
            return Err(e);
        }
        proof {
            let off = spec_find_entry_offset(
                out_header.font_infos@[font_idx as int].table_entry_by_tag@,
                table.tag,
            )->Some_0;
            lemma_checksums_preserved(
                table_metadata@,
                tables.tables@,
                out_pre_patch,
                out@,
                off + 4,
                off + 16,
            );
        }
        font_checksum = font_checksum.wrapping_add(metadata.header_checksum_contribution());

        j = j + 1;
    }

    // head.checkSumAdjustment = 0xB1B0AFBA - font checksum.
    let checksum_adjustment = 0xB1B0AFBAu32.wrapping_sub(font_checksum);
    if let Some(head_table_idx) = font_entry.head_idx {
        let head_metadata = match table_metadata[head_table_idx as usize] {
            Some(m) => m,
            None => {
                return Err(WuffErr::GenericError);
            },
        };
        if head_metadata.dst_length < 12 {
            return Err(WuffErr::GenericError);
        }
        let pos = head_metadata.dst_offset as usize;
        if out.len() < 12 || pos > out.len() - 12 {
            return Err(WuffErr::GenericError);
        }
        let ghost out_pre_adj = out@;
        store_u32_at(out, pos + 8, checksum_adjustment);
        proof {
            assert forall|jj: int| 0 <= jj < table_metadata@.len() implies (
            match #[trigger] table_metadata@[jj] {
                Some(a) => a.dst_offset + a.dst_length <= out_pre_adj.len() && (tables.tables@[jj].tag
                    == kHeadTableTag || pos + 12 <= a.dst_offset || a.dst_offset + a.dst_length
                    <= pos + 8),
                None => true,
            }) by {
                match table_metadata@[jj] {
                    Some(a) => {
                        if jj != head_table_idx as int && tables.tables@[jj].tag != kHeadTableTag {
                            assert(a.dst_offset + a.dst_length <= head_metadata.dst_offset
                                || head_metadata.dst_offset + head_metadata.dst_length
                                <= a.dst_offset);
                        }
                    },
                    None => {},
                }
            }
            lemma_checksums_preserved(
                table_metadata@,
                tables.tables@,
                out_pre_adj,
                out@,
                pos + 8,
                pos + 12,
            );
        }
    }

    Ok(())
}

/// Decode a WOFF2 font with a caller-supplied brotli capability.
#[verifier::rlimit(100)]
#[verifier::spinoff_prover]
pub fn decompress_woff2_with_brotli<D: Decompressor>(
    raw_woff_data: &[u8],
    decompress_brotli: &mut D,
) -> (r: Result<Vec<u8>, WuffErr>)
    ensures
        crate::types::spec_parse_header(raw_woff_data@) is None ==> r is Err,
        (crate::types::spec_parse_header(raw_woff_data@) matches Some(h)
            && h.woff_version is Woff1) ==> r is Err,
        ({
            &&& crate::types::spec_parse_header(raw_woff_data@) matches Some(h)
            &&& h.woff_version is Woff2
            &&& crate::types::spec_parse_directory(
                raw_woff_data@.skip(48),
                h.num_tables as nat,
                0,
            ) is None
        }) ==> r is Err,
        ({
            &&& crate::types::spec_parse_header(raw_woff_data@) matches Some(h)
            &&& h.woff_version is Woff2
            &&& h.flavor == crate::types::TTC_FLAVOR
            &&& crate::types::spec_parse_directory(
                raw_woff_data@.skip(48),
                h.num_tables as nat,
                0,
            ) matches Some((entries, dsize))
            &&& crate::types::spec_parse_collection(
                raw_woff_data@.skip(48 + dsize),
                entries,
            ) is None
        }) ==> r is Err,
        match r {
            Ok(out) => {
                &&& crate::types::spec_parse_header(raw_woff_data@) matches Some(h)
                &&& {
                    let h = crate::types::spec_parse_header(raw_woff_data@)->Some_0;
                    &&& h.woff_version is Woff2
                    &&& h.total_sfnt_size >= 1
                    &&& h.total_sfnt_size <= 100 * raw_woff_data@.len()
                    &&& crate::types::spec_parse_directory(
                        raw_woff_data@.skip(48),
                        h.num_tables as nat,
                        0,
                    ) is Some
                    &&& (h.flavor == crate::types::TTC_FLAVOR ==> {
                        let (entries, dsize) = crate::types::spec_parse_directory(
                            raw_woff_data@.skip(48),
                            h.num_tables as nat,
                            0,
                        )->Some_0;
                        crate::types::spec_parse_collection(
                            raw_woff_data@.skip(48 + dsize),
                            entries,
                        ) is Some
                    })
                    &&& out@.len() % 4 == 0
                    &&& out@.len() >= 12
                    &&& (h.flavor != crate::types::TTC_FLAVOR ==> be32(out@, 0) == h.flavor
                        && be16(out@, 4) == h.num_tables)
                }
            },
            Err(_) => true,
        },
{
    let mut input = Buffer::new(raw_woff_data);

    // Parse header, table directory and collection directory.
    let header = match WoffHeader::parse(&mut input) {
        Ok(h) => h,
        Err(e) => {
            return Err(e);
        },
    };
    if !matches!(header.woff_version, WoffVersion::Woff2) {
        return Err(WuffErr::GenericError);
    }
    proof {
        assert(input.buffer@.skip(input.offset as int) =~= raw_woff_data@.skip(48));
    }

    let ghost dir_start = input.offset as int;
    let table_directory = match TableDirectory::parse(&mut input, header.num_tables as usize) {
        Ok(d) => d,
        Err(e) => {
            return Err(e);
        },
    };
    proof {
        assert(input.buffer@.skip(input.offset as int) =~= raw_woff_data@.skip(
            48 + (input.offset - dir_start),
        ));
    }

    let mut collection_directory = if header.is_collection() {
        match CollectionDirectory::parse(&mut input, &table_directory) {
            Ok(cd) => cd,
            Err(e) => {
                return Err(e);
            },
        }
    } else {
        CollectionDirectory::generate_for_single_font(header.flavor, &table_directory)
    };

    // Re-order tables into output (tag) order within each font.
    collection_directory.sort_tables_within_each_font(&table_directory);
    let num_fonts = collection_directory.fonts.len();

    // Plausibility: the declared uncompressed size must be at least 1 and
    // at most 100 times the input (larger ratios suggest a forged size).
    if header.total_sfnt_size < 1 {
        return Err(WuffErr::GenericError);
    }
    if (header.total_sfnt_size as u64) > 100u64 * (raw_woff_data.len() as u64) {
        return Err(WuffErr::GenericError);
    }

    // The compressed payload spans exactly totalCompressedSize bytes after
    // the directories.
    let payload_start = input.offset();
    let payload_end = match payload_start.checked_add(header.total_compressed_size as usize) {
        Some(v) => v,
        None => {
            return Err(WuffErr::GenericError);
        },
    };
    if payload_end > raw_woff_data.len() {
        return Err(WuffErr::GenericError);
    }
    let compressed_data = vstd::slice::slice_subrange(raw_woff_data, payload_start, payload_end);
    let decompressed_data = match decompress_brotli.decompress(
        compressed_data,
        header.total_sfnt_size as usize,
    ) {
        Ok(d) => d,
        Err(e) => {
            return Err(e);
        },
    };

    // Output: header block first, then every font's tables.
    let out_header = match generate_header(&header, &table_directory, &collection_directory) {
        Ok(hd) => hd,
        Err(e) => {
            return Err(e);
        },
    };
    let mut out: Vec<u8> = Vec::new();
    out.extend_from_slice(out_header.data.as_slice());
    proof {
        assert(out@ =~= out_header.data@);
        if header.flavor != crate::types::TTC_FLAVOR {
            assert(be32(out@, 0) == header.flavor);
            assert(be16(out@, 4) == header.num_tables);
        }
    }

    let mut table_metadata: Vec<Option<TableMetadata>> = Vec::new();
    let num_tables = table_directory.tables.len();
    let mut t: usize = 0;
    while t < num_tables
        invariant
            t <= num_tables,
            table_metadata@.len() == t,
            forall|k: int| 0 <= k < t ==> #[trigger] table_metadata@[k] is None,
        decreases num_tables - t,
    {
        table_metadata.push(None);
        t = t + 1;
    }

    let mut i: usize = 0;
    while i < num_fonts
        invariant
            num_fonts == collection_directory.fonts@.len(),
            i <= num_fonts,
            header_data_wf(out_header),
            out_header.data@.len() >= 12,
            forall|k: int|
                0 <= k < collection_directory.fonts@.len() ==> spec_font_entry_ok(
                    #[trigger] collection_directory.fonts@[k],
                    table_directory.tables@,
                ),
            table_metadata@.len() == table_directory.tables@.len(),
            out@.len() % 4 == 0,
            out@.len() >= out_header.data@.len(),
            out@.len() >= 12,
            metadata_ok(table_metadata@, out_header.data@.len() as int, out@.len() as int),
            metadata_checksums_ok(table_metadata@, table_directory.tables@, out@),
            metadata_disjoint(table_metadata@),
            header.flavor != crate::types::TTC_FLAVOR ==> be32(out@, 0) == header.flavor && be16(
                out@,
                4,
            ) == header.num_tables,
        decreases num_fonts - i,
    {
        if let Err(e) = reconstruct_font(
            decompressed_data.as_slice(),
            &header,
            &table_directory,
            &collection_directory.fonts[i],
            &out_header,
            &mut table_metadata,
            &mut out,
            i,
        ) {
            return Err(e);
        }
        i = i + 1;
    }

    Ok(out)
}

/// Decode a WOFF2 font with the built-in brotli decoder.
pub fn decompress_woff2(raw_woff_data: &[u8]) -> (r: Result<Vec<u8>, WuffErr>)
    ensures
        crate::types::spec_parse_header(raw_woff_data@) is None ==> r is Err,
        match r {
            Ok(out) => out@.len() % 4 == 0 && out@.len() >= 12,
            Err(_) => true,
        },
{
    let mut codec = BrotliCodec;
    decompress_woff2_with_brotli(raw_woff_data, &mut codec)
}

} // verus!
