//! The parsed shapes of a WOFF file: the unified WOFF1/WOFF2 header, the
//! WOFF2 table directory, and the TrueType-collection directory, each with a
//! byte-level specification that the parser is proved against.

use vstd::multiset::Multiset;
use vstd::prelude::*;

use crate::buffer::{be16, be32, Buffer};
use crate::error::WuffErr;
use crate::table_tags::{kGlyfTableTag, kHeadTableTag, kHheaTableTag, kLocaTableTag, known_table_tags};
use crate::variable_length::{decode255, decode_base128, Read255UShort, ReadBase128};

verus! {

/// The `woFF` signature of a WOFF1 file.
pub const WOFF1_SIG: u32 = 0x776f4646;

/// The `woF2` signature of a WOFF2 file.
pub const WOFF2_SIG: u32 = 0x776f4632;

/// The `ttcf` flavor that marks a TrueType collection.
pub const TTC_FLAVOR: u32 = 0x74746366;

#[derive(Copy, Clone, PartialEq, Eq, Structural, Debug)]
pub enum WoffVersion {
    Woff1,
    Woff2,
}

/// Unified WOFF1/WOFF2 header (WOFF1 lacks `total_compressed_size`, which is
/// read as 0 there).
#[derive(Copy, Clone, PartialEq, Eq, Structural, Debug)]
pub struct WoffHeader {
    pub woff_version: WoffVersion,
    pub signature: u32,
    pub flavor: u32,
    pub length: u32,
    pub num_tables: u16,
    pub reserved: u16,
    pub total_sfnt_size: u32,
    pub total_compressed_size: u32,
    pub major_version: u16,
    pub minor_version: u16,
    pub meta_offset: u32,
    pub meta_length: u32,
    pub meta_orig_length: u32,
    pub priv_offset: u32,
    pub priv_length: u32,
}

/// Byte size of the fixed header: 48 for WOFF2, 44 for WOFF1 (which has no
/// `totalCompressedSize` field).
pub open spec fn spec_header_size(v: WoffVersion) -> int {
    match v {
        WoffVersion::Woff1 => 44,
        WoffVersion::Woff2 => 48,
    }
}

/// The header read from the front of `s`, before validation.
pub open spec fn spec_read_header(s: Seq<u8>, v: WoffVersion) -> WoffHeader {
    let w2 = v is Woff2;
    WoffHeader {
        woff_version: v,
        signature: be32(s, 0) as u32,
        flavor: be32(s, 4) as u32,
        length: be32(s, 8) as u32,
        num_tables: be16(s, 12) as u16,
        reserved: be16(s, 14) as u16,
        total_sfnt_size: be32(s, 16) as u32,
        total_compressed_size: if w2 {
            be32(s, 20) as u32
        } else {
            0
        },
        major_version: be16(s, if w2 { 24 } else { 20 }) as u16,
        minor_version: be16(s, if w2 { 26 } else { 22 }) as u16,
        meta_offset: be32(s, if w2 { 28 } else { 24 }) as u32,
        meta_length: be32(s, if w2 { 32 } else { 28 }) as u32,
        meta_orig_length: be32(s, if w2 { 36 } else { 32 }) as u32,
        priv_offset: be32(s, if w2 { 40 } else { 36 }) as u32,
        priv_length: be32(s, if w2 { 44 } else { 40 }) as u32,
    }
}

/// The validation the header must pass against the whole input length.
pub open spec fn spec_header_valid(h: WoffHeader, input_len: int) -> bool {
    &&& h.length == input_len
    &&& h.num_tables != 0
    &&& h.reserved == 0
    &&& (h.meta_offset != 0 ==> h.meta_offset < input_len && input_len - h.meta_offset
        >= h.meta_length)
    &&& (h.priv_offset != 0 ==> h.priv_offset < input_len && input_len - h.priv_offset
        >= h.priv_length)
}

/// Parse and validate the header at the front of `s`, where `s` is the whole
/// WOFF file.
pub open spec fn spec_parse_header(s: Seq<u8>) -> Option<WoffHeader> {
    if s.len() < 4 {
        None
    } else {
        let sig = be32(s, 0);
        let v = if sig == WOFF1_SIG {
            Some(WoffVersion::Woff1)
        } else if sig == WOFF2_SIG {
            Some(WoffVersion::Woff2)
        } else {
            None
        };
        match v {
            None => None,
            Some(v) => {
                if s.len() < spec_header_size(v) {
                    None
                } else {
                    let h = spec_read_header(s, v);
                    if spec_header_valid(h, s.len() as int) {
                        Some(h)
                    } else {
                        None
                    }
                }
            },
        }
    }
}

impl WoffHeader {
    /// Read and validate the fixed WOFF header.  On success the cursor rests
    /// on the first directory byte.
    pub fn parse(buf: &mut Buffer) -> (r: Result<WoffHeader, WuffErr>)
        requires
            old(buf).wf(),
            old(buf).offset == 0,
        ensures
            final(buf).wf(),
            final(buf).buffer == old(buf).buffer,
            match r {
                Ok(h) => spec_parse_header(old(buf).buffer@) == Some(h) && final(buf).offset
                    == spec_header_size(h.woff_version),
                Err(_) => spec_parse_header(old(buf).buffer@) is None,
            },
    {
        let input_len = buf.len();

        let mut signature: u32 = 0;
        if !buf.ReadU32(&mut signature) {
            return Err(WuffErr::GenericError);
        }
        let woff_version = if signature == WOFF1_SIG {
            WoffVersion::Woff1
        } else if signature == WOFF2_SIG {
            WoffVersion::Woff2
        } else {
            return Err(WuffErr::GenericError);
        };

        let mut flavor: u32 = 0;
        let mut length: u32 = 0;
        let mut num_tables: u16 = 0;
        let mut reserved: u16 = 0;
        let mut total_sfnt_size: u32 = 0;
        let mut total_compressed_size: u32 = 0;
        let mut major_version: u16 = 0;
        let mut minor_version: u16 = 0;
        let mut meta_offset: u32 = 0;
        let mut meta_length: u32 = 0;
        let mut meta_orig_length: u32 = 0;
        let mut priv_offset: u32 = 0;
        let mut priv_length: u32 = 0;

        if !buf.ReadU32(&mut flavor) {
            return Err(WuffErr::GenericError);
        }
        if !buf.ReadU32(&mut length) {
            return Err(WuffErr::GenericError);
        }
        if !buf.ReadU16(&mut num_tables) {
            return Err(WuffErr::GenericError);
        }
        if !buf.ReadU16(&mut reserved) {
            return Err(WuffErr::GenericError);
        }
        if !buf.ReadU32(&mut total_sfnt_size) {
            return Err(WuffErr::GenericError);
        }
        if matches!(woff_version, WoffVersion::Woff2) {
            if !buf.ReadU32(&mut total_compressed_size) {
                return Err(WuffErr::GenericError);
            }
        }
        if !buf.ReadU16(&mut major_version) {
            return Err(WuffErr::GenericError);
        }
        if !buf.ReadU16(&mut minor_version) {
            return Err(WuffErr::GenericError);
        }
        if !buf.ReadU32(&mut meta_offset) {
            return Err(WuffErr::GenericError);
        }
        if !buf.ReadU32(&mut meta_length) {
            return Err(WuffErr::GenericError);
        }
        if !buf.ReadU32(&mut meta_orig_length) {
            return Err(WuffErr::GenericError);
        }
        if !buf.ReadU32(&mut priv_offset) {
            return Err(WuffErr::GenericError);
        }
        if !buf.ReadU32(&mut priv_length) {
            return Err(WuffErr::GenericError);
        }

        let header = WoffHeader {
            woff_version,
            signature,
            flavor,
            length,
            num_tables,
            reserved,
            total_sfnt_size,
            total_compressed_size,
            major_version,
            minor_version,
            meta_offset,
            meta_length,
            meta_orig_length,
            priv_offset,
            priv_length,
        };
        assert(header == spec_read_header(old(buf).buffer@, woff_version));

        // Validate.
        if header.length as usize != input_len {
            return Err(WuffErr::GenericError);
        }
        if header.num_tables == 0 {
            return Err(WuffErr::GenericError);
        }
        if header.reserved != 0 {
            return Err(WuffErr::GenericError);
        }
        if header.meta_offset != 0 {
            let off = header.meta_offset as usize;
            if off >= input_len || (input_len - off) < (header.meta_length as usize) {
                return Err(WuffErr::GenericError);
            }
        }
        if header.priv_offset != 0 {
            let off = header.priv_offset as usize;
            if off >= input_len || (input_len - off) < (header.priv_length as usize) {
                return Err(WuffErr::GenericError);
            }
        }

        Ok(header)
    }

    pub fn is_collection(&self) -> (r: bool)
        ensures
            r <==> self.flavor == TTC_FLAVOR,
    {
        self.flavor == TTC_FLAVOR
    }
}

/// A parsed table directory together with its size in the WOFF, in bytes.
pub struct TableDirectory<T> {
    pub tables: Vec<T>,
    pub size: usize,
}

impl<T> TableDirectory<T> {
    /// Size of the table directory (in the WOFF) in bytes.
    pub fn size(&self) -> (r: usize)
        ensures
            r == self.size,
    {
        self.size
    }
}

pub type Woff2TableDirectory = TableDirectory<Woff2TableDirectoryEntry>;

/// One entry of the compact WOFF2 table directory.
#[derive(Copy, Clone, PartialEq, Eq, Structural, Debug)]
pub struct Woff2TableDirectoryEntry {
    /// 4-byte tag, either indexed from the known-tags table or literal.
    pub tag: u32,
    /// 2-bit preprocessing-transform version.
    pub format: u8,
    /// Length of the original (reconstructed) table.
    pub orig_length: u32,
    /// Offset of the table inside the decompressed stream (a running sum).
    pub woff_offset: u32,
    /// Length of the table inside the decompressed stream.
    pub woff_length: u32,
}

/// Whether a table with this tag and transform version was preprocessed:
/// for `glyf` and `loca` version 0 marks the transform, for every other tag
/// version 0 is the null transform and a non-zero version marks one.
pub open spec fn spec_is_transformed(tag: u32, format: u8) -> bool {
    if tag == kGlyfTableTag || tag == kLocaTableTag {
        format == 0
    } else {
        format != 0
    }
}

/// Parse one directory entry from the front of `s`:
/// `Some((entry, bytes consumed))`, with `woff_offset` still 0.
pub open spec fn spec_parse_dir_entry(s: Seq<u8>) -> Option<(Woff2TableDirectoryEntry, int)> {
    if s.len() < 1 {
        None
    } else {
        let flags = s[0];
        let tag_bits = flags % 64;
        let format = flags / 64;
        let tag_end: int = if tag_bits == 63 {
            5
        } else {
            1
        };
        if s.len() < tag_end {
            None
        } else {
            let tag: u32 = if tag_bits == 63 {
                be32(s, 1) as u32
            } else {
                known_table_tags()[tag_bits as int]
            };
            match decode_base128(s.skip(tag_end)) {
                None => None,
                Some((orig_length, n1)) => {
                    if !spec_is_transformed(tag, format) {
                        Some(
                            (
                                Woff2TableDirectoryEntry {
                                    tag,
                                    format,
                                    orig_length: orig_length as u32,
                                    woff_offset: 0,
                                    woff_length: orig_length as u32,
                                },
                                tag_end + n1,
                            ),
                        )
                    } else {
                        match decode_base128(s.skip(tag_end + n1)) {
                            None => None,
                            Some((transform_length, n2)) => {
                                if tag == kLocaTableTag && transform_length != 0 {
                                    None
                                } else {
                                    Some(
                                        (
                                            Woff2TableDirectoryEntry {
                                                tag,
                                                format,
                                                orig_length: orig_length as u32,
                                                woff_offset: 0,
                                                woff_length: transform_length as u32,
                                            },
                                            tag_end + n1 + n2,
                                        ),
                                    )
                                }
                            },
                        }
                    }
                },
            }
        }
    }
}

impl Woff2TableDirectoryEntry {
    /// Whether this table was preprocessed before compression.
    pub fn is_transformed(&self) -> (r: bool)
        ensures
            r == spec_is_transformed(self.tag, self.format),
    {
        if self.tag == kGlyfTableTag || self.tag == kLocaTableTag {
            self.format == 0
        } else {
            self.format != 0
        }
    }

    /// Split the directory flag byte into the known-tag index (`None` for
    /// the escape value 63, which announces a literal tag) and the 2-bit
    /// transform version.
    pub fn parse_flags(flags: u8) -> (r: (Option<u32>, u8))
        ensures
            r.1 == flags / 64,
            flags % 64 == 63 ==> r.0 is None,
            flags % 64 != 63 ==> r.0 == Some(known_table_tags()[(flags % 64) as int]),
    {
        let tag_bits = flags % 64;
        let format = flags / 64;
        let tag: Option<u32> = if tag_bits == 63 {
            None
        } else {
            Some(crate::table_tags::known_table_tag(tag_bits))
        };
        (tag, format)
    }

    /// The table's span of the decompressed stream.
    pub fn data_as_slice<'a>(&self, data: &'a [u8]) -> (r: Result<&'a [u8], WuffErr>)
        ensures
            match r {
                Ok(d) => self.woff_offset + self.woff_length <= data@.len() && d@
                    == data@.subrange(
                    self.woff_offset as int,
                    self.woff_offset + self.woff_length,
                ),
                Err(_) => self.woff_offset + self.woff_length > data@.len(),
            },
    {
        let n = data.len();
        let off = self.woff_offset as usize;
        let end = match off.checked_add(self.woff_length as usize) {
            Some(e) => e,
            None => {
                return Err(WuffErr::GenericError);
            },
        };
        if end > data.len() {
            return Err(WuffErr::GenericError);
        }
        Ok(vstd::slice::slice_subrange(data, off, end))
    }

    /// Read one directory entry; `woff_offset` is filled in by the caller.
    pub fn parse(buf: &mut Buffer) -> (r: Result<Woff2TableDirectoryEntry, WuffErr>)
        requires
            old(buf).wf(),
        ensures
            final(buf).wf(),
            final(buf).buffer == old(buf).buffer,
            old(buf).offset <= final(buf).offset,
            match r {
                Ok(e) => spec_parse_dir_entry(old(buf).buffer@.skip(old(buf).offset as int))
                    == Some((e, final(buf).offset - old(buf).offset)),
                Err(_) => spec_parse_dir_entry(old(buf).buffer@.skip(old(buf).offset as int))
                    is None,
            },
    {
        let ghost rem = old(buf).buffer@.skip(old(buf).offset as int);
        let mut flags: u8 = 0;
        if !buf.ReadU8(&mut flags) {
            return Err(WuffErr::GenericError);
        }
        assert(flags == rem[0]);
        let tag_bits = flags % 64;
        let format = flags / 64;
        let tag: u32 = if tag_bits == 63 {
            let mut t: u32 = 0;
            if !buf.ReadU32(&mut t) {
                return Err(WuffErr::GenericError);
            }
            assert(t == be32(rem, 1)) by {
                assert(rem[1] == old(buf).buffer@[old(buf).offset + 1]);
                assert(rem[2] == old(buf).buffer@[old(buf).offset + 2]);
                assert(rem[3] == old(buf).buffer@[old(buf).offset + 3]);
                assert(rem[4] == old(buf).buffer@[old(buf).offset + 4]);
            }
            t
        } else {
            crate::table_tags::known_table_tag(tag_bits)
        };
        let ghost tag_end: int = if tag_bits == 63 { 5int } else { 1int };
        assert(buf.buffer@.skip(buf.offset as int) =~= rem.skip(tag_end));

        let orig_length = match ReadBase128(buf) {
            Ok(v) => v,
            Err(e) => {
                return Err(e);
            },
        };

        let transformed = if tag == kGlyfTableTag || tag == kLocaTableTag {
            format == 0
        } else {
            format != 0
        };
        if !transformed {
            return Ok(
                Woff2TableDirectoryEntry {
                    tag,
                    format,
                    orig_length,
                    woff_offset: 0,
                    woff_length: orig_length,
                },
            );
        }
        assert(buf.buffer@.skip(buf.offset as int) =~= rem.skip(buf.offset - old(buf).offset));
        let transform_length = match ReadBase128(buf) {
            Ok(v) => v,
            Err(e) => {
                return Err(e);
            },
        };
        if tag == kLocaTableTag && transform_length != 0 {
            return Err(WuffErr::GenericError);
        }
        Ok(
            Woff2TableDirectoryEntry {
                tag,
                format,
                orig_length,
                woff_offset: 0,
                woff_length: transform_length,
            },
        )
    }
}

/// Parse `n` directory entries from the front of `s`, threading the running
/// offset of each table inside the decompressed stream:
/// `Some((entries, bytes consumed))`.
pub open spec fn spec_parse_directory(s: Seq<u8>, n: nat, woff_offset: int) -> Option<
    (Seq<Woff2TableDirectoryEntry>, int),
>
    decreases n,
{
    if n == 0 {
        Some((seq![], 0))
    } else {
        match spec_parse_dir_entry(s) {
            None => None,
            Some((e0, k0)) => {
                if woff_offset + e0.woff_length > u32::MAX {
                    None
                } else {
                    let e = Woff2TableDirectoryEntry { woff_offset: woff_offset as u32, ..e0 };
                    match spec_parse_directory(
                        s.skip(k0),
                        (n - 1) as nat,
                        woff_offset + e0.woff_length,
                    ) {
                        None => None,
                        Some((rest, k)) => Some((seq![e] + rest, k0 + k)),
                    }
                }
            },
        }
    }
}

impl TableDirectory<Woff2TableDirectoryEntry> {
    /// Read the `num_tables`-entry WOFF2 table directory.
    pub fn parse(buf: &mut Buffer, num_tables: usize) -> (r: Result<Woff2TableDirectory, WuffErr>)
        requires
            old(buf).wf(),
        ensures
            final(buf).wf(),
            final(buf).buffer == old(buf).buffer,
            match r {
                Ok(d) => spec_parse_directory(
                    old(buf).buffer@.skip(old(buf).offset as int),
                    num_tables as nat,
                    0,
                ) == Some((d.tables@, d.size as int)) && final(buf).offset == old(buf).offset
                    + d.size && d.tables@.len() == num_tables,
                Err(_) => spec_parse_directory(
                    old(buf).buffer@.skip(old(buf).offset as int),
                    num_tables as nat,
                    0,
                ) is None,
            },
    {
        let ghost rem0 = old(buf).buffer@.skip(old(buf).offset as int);
        let start_offset = buf.offset();
        let mut tables: Vec<Woff2TableDirectoryEntry> = Vec::new();
        let mut offset_in_woff: u32 = 0;
        let mut i: usize = 0;
        while i < num_tables
            invariant
                buf.wf(),
                buf.buffer == old(buf).buffer,
                rem0 == old(buf).buffer@.skip(old(buf).offset as int),
                start_offset == old(buf).offset,
                start_offset <= buf.offset <= buf.buffer@.len(),
                i <= num_tables,
                tables@.len() == i,
                spec_parse_directory(rem0, num_tables as nat, 0) == (match spec_parse_directory(
                    buf.buffer@.skip(buf.offset as int),
                    (num_tables - i) as nat,
                    offset_in_woff as int,
                ) {
                    None => None::<(Seq<Woff2TableDirectoryEntry>, int)>,
                    Some((rest, k)) => Some(
                        (tables@ + rest, buf.offset - start_offset + k),
                    ),
                }),
            decreases num_tables - i,
        {
            let ghost cur_rem = buf.buffer@.skip(buf.offset as int);
            let ghost n_left = (num_tables - i) as nat;
            let ghost off_before = offset_in_woff as int;
            let ghost tables_before = tables@;
            let mut entry = match Woff2TableDirectoryEntry::parse(buf) {
                Ok(e) => e,
                Err(e) => {
                    return Err(e);
                },
            };
            let ghost entry0 = entry;
            let new_offset = match offset_in_woff.checked_add(entry.woff_length) {
                Some(v) => v,
                None => {
                    proof {
                        let parsed = spec_parse_dir_entry(cur_rem);
                        assert(parsed->Some_0.0 == entry0);
                        assert(spec_parse_directory(cur_rem, n_left, off_before) is None);
                    }
                    return Err(WuffErr::GenericError);
                },
            };
            entry.woff_offset = offset_in_woff;
            tables.push(entry);
            offset_in_woff = new_offset;
            i = i + 1;
            proof {
                let parsed = spec_parse_dir_entry(cur_rem);
                let e0 = parsed->Some_0.0;
                let k0 = parsed->Some_0.1;
                assert(e0 == entry0);
                assert(buf.buffer@.skip(buf.offset as int) =~= cur_rem.skip(k0));
                let e = Woff2TableDirectoryEntry { woff_offset: off_before as u32, ..e0 };
                assert(entry == e);
                let inner = spec_parse_directory(
                    buf.buffer@.skip(buf.offset as int),
                    (num_tables - i) as nat,
                    offset_in_woff as int,
                );
                assert(spec_parse_directory(cur_rem, n_left, off_before) == (match inner {
                    None => None::<(Seq<Woff2TableDirectoryEntry>, int)>,
                    Some((rest, k)) => Some((seq![e] + rest, k0 + k)),
                }));
                match inner {
                    None => {},
                    Some((rest, k)) => {
                        assert(tables_before + (seq![e] + rest) =~= tables@ + rest);
                    },
                }
            }
        }
        let end_offset = buf.offset();
        Ok(TableDirectory { tables, size: end_offset - start_offset })
    }

    /// Re-order the directory entries by tag: a sorted permutation of the
    /// input entries.
    pub fn sort_tables(&mut self)
        ensures
            final(self).tables@.len() == old(self).tables@.len(),
            final(self).size == old(self).size,
            final(self).tables@.to_multiset() == old(self).tables@.to_multiset(),
            forall|a: int, b: int|
                0 <= a < b < final(self).tables@.len() ==> final(self).tables@[a].tag
                    <= final(self).tables@[b].tag,
    {
        broadcast use vstd::seq_lib::group_to_multiset_ensures;
        broadcast use vstd::multiset::group_multiset_axioms;

        let ghost input = self.tables@;
        let n = self.tables.len();
        let mut work: Vec<Woff2TableDirectoryEntry> = Vec::new();
        let mut i: usize = 0;
        while i < n
            invariant
                n == self.tables@.len(),
                self.tables@ == input,
                i <= n,
                work@ == input.take(i as int),
            decreases n - i,
        {
            work.push(self.tables[i]);
            proof {
                assert(work@ =~= input.take(i + 1));
            }
            i = i + 1;
        }
        proof {
            assert(work@ =~= input);
        }

        let mut sorted: Vec<Woff2TableDirectoryEntry> = Vec::new();
        proof {
            assert(sorted@.to_multiset().add(work@.to_multiset()) =~= input.to_multiset());
        }
        while work.len() > 0
            invariant
                sorted@.to_multiset().add(work@.to_multiset()) == input.to_multiset(),
                sorted@.len() + work@.len() == input.len(),
                forall|a: int, b: int|
                    0 <= a < b < sorted@.len() ==> sorted@[a].tag <= sorted@[b].tag,
                forall|a: int, b: int|
                    0 <= a < sorted@.len() && 0 <= b < work@.len() ==> (
                    #[trigger] sorted@[a]).tag <= (#[trigger] work@[b]).tag,
            decreases work@.len(),
        {
            // Find the position of the smallest remaining tag.
            let mut m: usize = 0;
            let mut j: usize = 1;
            while j < work.len()
                invariant
                    work@.len() > 0,
                    m < work@.len(),
                    j <= work@.len(),
                    forall|t: int|
                        0 <= t < j ==> work@[m as int].tag <= (#[trigger] work@[t]).tag,
                decreases work@.len() - j,
            {
                if work[j].tag < work[m].tag {
                    m = j;
                }
                j = j + 1;
            }
            let ghost before = work@;
            let ghost sorted_before = sorted@;
            let x = work.remove(m);
            sorted.push(x);
            proof {
                assert(work@ == before.remove(m as int));
                vstd::seq_lib::to_multiset_remove(before, m as int);
                vstd::seq_lib::to_multiset_build(sorted_before, x);
                assert(work@.to_multiset() == before.to_multiset().remove(x));
                assert(sorted@.to_multiset() == sorted_before.to_multiset().insert(x));
                assert(sorted@.to_multiset().add(work@.to_multiset()) =~= input.to_multiset()) by {
                    assert(before.to_multiset().count(x) > 0) by {
                        before.to_multiset_ensures();
                        assert(before.contains(x));
                    }
                    assert(sorted_before.to_multiset().insert(x).add(
                        before.to_multiset().remove(x),
                    ) =~= sorted_before.to_multiset().add(before.to_multiset()));
                }
                assert(forall|b: int|
                    0 <= b < work@.len() ==> x.tag <= (#[trigger] work@[b]).tag);
            }
        }
        proof {
            assert(work@.to_multiset() =~= Multiset::<Woff2TableDirectoryEntry>::empty()) by {
                work@.to_multiset_ensures();
            }
            assert(sorted@.to_multiset().add(work@.to_multiset()) =~= sorted@.to_multiset());
            vstd::seq_lib::to_multiset_len(sorted@);
            vstd::seq_lib::to_multiset_len(input);
        }
        self.tables = sorted;
    }
}

/// The collection directory: one entry per font, each listing the shared
/// tables the font uses.  Single fonts get a synthesized one-entry
/// directory so that reconstruction has a single code path.
pub struct CollectionDirectory {
    /// TTC header version of the original font.
    pub version: u32,
    pub fonts: Vec<CollectionDirectoryEntry>,
}

/// One font of a collection: its flavor and the indices of its tables in
/// the shared table pool, with the indices of a few special tables cached.
pub struct CollectionDirectoryEntry {
    pub flavor: u32,
    pub table_indices: Vec<u16>,
    pub head_idx: Option<u16>,
    pub hhea_idx: Option<u16>,
    pub glyf_idx: Option<u16>,
    pub loca_idx: Option<u16>,
}

/// Every table index of the font lies inside the shared pool, and each
/// cached index really points at a table with the corresponding tag.
pub open spec fn spec_font_entry_ok(
    e: CollectionDirectoryEntry,
    tables: Seq<Woff2TableDirectoryEntry>,
) -> bool {
    &&& 1 <= e.table_indices@.len()
    &&& forall|j: int| 0 <= j < e.table_indices@.len() ==> #[trigger] e.table_indices@[j] < tables.len()
    &&& match e.glyf_idx {
        Some(g) => g < tables.len() && tables[g as int].tag == kGlyfTableTag,
        None => true,
    }
    &&& match e.loca_idx {
        Some(l) => l < tables.len() && tables[l as int].tag == kLocaTableTag,
        None => true,
    }
    &&& match e.head_idx {
        Some(h) => h < tables.len() && tables[h as int].tag == kHeadTableTag,
        None => true,
    }
    &&& match e.hhea_idx {
        Some(h) => h < tables.len() && tables[h as int].tag == kHheaTableTag,
        None => true,
    }
}

/// The font lists its tables in ascending tag order.
pub open spec fn spec_font_sorted(
    e: CollectionDirectoryEntry,
    tables: Seq<Woff2TableDirectoryEntry>,
) -> bool {
    forall|a: int, b: int|
        0 <= a < b < e.table_indices@.len() ==> tables[(#[trigger] e.table_indices@[a]) as int].tag
            <= tables[(#[trigger] e.table_indices@[b]) as int].tag
}

/// `glyf` and `loca` are either both absent or both present and
/// consecutive in the shared pool.
pub open spec fn spec_glyf_loca_paired(e: CollectionDirectoryEntry) -> bool {
    match (e.glyf_idx, e.loca_idx) {
        (Some(g), Some(l)) => l == g + 1,
        (None, None) => true,
        _ => false,
    }
}

/// The ghost shape of a parsed font entry: what `CollectionDirectoryEntry`
/// holds, with its index list as a sequence.
pub struct FontEntrySpec {
    pub flavor: u32,
    pub table_indices: Seq<u16>,
    pub head_idx: Option<u16>,
    pub hhea_idx: Option<u16>,
    pub glyf_idx: Option<u16>,
    pub loca_idx: Option<u16>,
}

/// The ghost shape of a font entry value.
pub open spec fn entry_view(e: CollectionDirectoryEntry) -> FontEntrySpec {
    FontEntrySpec {
        flavor: e.flavor,
        table_indices: e.table_indices@,
        head_idx: e.head_idx,
        hhea_idx: e.hhea_idx,
        glyf_idx: e.glyf_idx,
        loca_idx: e.loca_idx,
    }
}

/// The cached special-table indices after the scan passes table `idx`.
pub open spec fn spec_cached_update(
    tables: Seq<Woff2TableDirectoryEntry>,
    idx: u16,
    head: Option<u16>,
    hhea: Option<u16>,
    glyf: Option<u16>,
    loca: Option<u16>,
) -> (Option<u16>, Option<u16>, Option<u16>, Option<u16>) {
    let tag = tables[idx as int].tag;
    if tag == kHeadTableTag {
        (Some(idx), hhea, glyf, loca)
    } else if tag == kHheaTableTag {
        (head, Some(idx), glyf, loca)
    } else if tag == kGlyfTableTag {
        (head, hhea, Some(idx), loca)
    } else if tag == kLocaTableTag {
        (head, hhea, glyf, Some(idx))
    } else {
        (head, hhea, glyf, loca)
    }
}

/// Read `n` table indices (one 255UInt16 each) from the front of `s`,
/// rejecting any index outside the pool and tracking the special tables:
/// `Some((indices, head, hhea, glyf, loca, bytes consumed))`.
pub open spec fn spec_parse_indices(
    s: Seq<u8>,
    n: nat,
    tables: Seq<Woff2TableDirectoryEntry>,
    indices: Seq<u16>,
    head: Option<u16>,
    hhea: Option<u16>,
    glyf: Option<u16>,
    loca: Option<u16>,
) -> Option<(Seq<u16>, Option<u16>, Option<u16>, Option<u16>, Option<u16>, int)>
    decreases n,
{
    if n == 0 {
        Some((indices, head, hhea, glyf, loca, 0))
    } else {
        match decode255(s) {
            None => None,
            Some((v, k)) => {
                if v >= tables.len() {
                    None
                } else {
                    let (h2, hh2, g2, l2) = spec_cached_update(
                        tables,
                        v as u16,
                        head,
                        hhea,
                        glyf,
                        loca,
                    );
                    match spec_parse_indices(
                        s.skip(k),
                        (n - 1) as nat,
                        tables,
                        indices.push(v as u16),
                        h2,
                        hh2,
                        g2,
                        l2,
                    ) {
                        None => None,
                        Some((ixs, h3, hh3, g3, l3, k2)) => Some((ixs, h3, hh3, g3, l3, k + k2)),
                    }
                }
            },
        }
    }
}

/// Parse one font entry from the front of `s`: table count, flavor, the
/// index list, and the glyf/loca pairing check.
pub open spec fn spec_parse_font_entry(
    s: Seq<u8>,
    tables: Seq<Woff2TableDirectoryEntry>,
) -> Option<(FontEntrySpec, int)> {
    match decode255(s) {
        None => None,
        Some((nt, k0)) => {
            if s.len() < k0 + 4 {
                None
            } else {
                let flavor = be32(s, k0) as u32;
                if nt == 0 {
                    None
                } else {
                    match spec_parse_indices(
                        s.skip(k0 + 4),
                        nt as nat,
                        tables,
                        seq![],
                        None,
                        None,
                        None,
                        None,
                    ) {
                        None => None,
                        Some((indices, head, hhea, glyf, loca, k)) => {
                            let paired = match (glyf, loca) {
                                (Some(g), Some(l)) => l == g + 1,
                                (None, None) => true,
                                _ => false,
                            };
                            if !paired {
                                None
                            } else {
                                Some(
                                    (
                                        FontEntrySpec {
                                            flavor,
                                            table_indices: indices,
                                            head_idx: head,
                                            hhea_idx: hhea,
                                            glyf_idx: glyf,
                                            loca_idx: loca,
                                        },
                                        k0 + 4 + k,
                                    ),
                                )
                            }
                        },
                    }
                }
            }
        },
    }
}

/// Parse `n` font entries from the front of `s`.
pub open spec fn spec_parse_fonts(
    s: Seq<u8>,
    n: nat,
    tables: Seq<Woff2TableDirectoryEntry>,
    fonts: Seq<FontEntrySpec>,
) -> Option<(Seq<FontEntrySpec>, int)>
    decreases n,
{
    if n == 0 {
        Some((fonts, 0))
    } else {
        match spec_parse_font_entry(s, tables) {
            None => None,
            Some((e, k)) => match spec_parse_fonts(s.skip(k), (n - 1) as nat, tables, fonts.push(e)) {
                None => None,
                Some((fs, k2)) => Some((fs, k + k2)),
            },
        }
    }
}

/// Parse and validate the whole collection directory at the front of `s`:
/// a supported TTC version, a non-zero font count, and that many font
/// entries.
pub open spec fn spec_parse_collection(
    s: Seq<u8>,
    tables: Seq<Woff2TableDirectoryEntry>,
) -> Option<(u32, Seq<FontEntrySpec>, int)> {
    if s.len() < 4 {
        None
    } else {
        let version = be32(s, 0) as u32;
        match decode255(s.skip(4)) {
            None => None,
            Some((nf, k1)) => {
                if version != 0x00010000 && version != 0x00020000 {
                    None
                } else if nf == 0 {
                    None
                } else {
                    match spec_parse_fonts(s.skip(4 + k1), nf as nat, tables, seq![]) {
                        None => None,
                        Some((fonts, k)) => Some((version, fonts, 4 + k1 + k)),
                    }
                }
            },
        }
    }
}

impl CollectionDirectoryEntry {
    /// Read one font entry of the collection directory and validate its
    /// table indices against the shared pool.
    #[verifier::rlimit(100)]
    #[verifier::spinoff_prover]
    pub fn parse(buf: &mut Buffer, tables: &Woff2TableDirectory) -> (r: Result<
        CollectionDirectoryEntry,
        WuffErr,
    >)
        requires
            old(buf).wf(),
        ensures
            final(buf).wf(),
            final(buf).buffer == old(buf).buffer,
            old(buf).offset <= final(buf).offset,
            match r {
                Ok(e) => spec_parse_font_entry(
                    old(buf).buffer@.skip(old(buf).offset as int),
                    tables.tables@,
                ) == Some((entry_view(e), final(buf).offset - old(buf).offset))
                    && spec_font_entry_ok(e, tables.tables@) && spec_glyf_loca_paired(e),
                Err(_) => spec_parse_font_entry(
                    old(buf).buffer@.skip(old(buf).offset as int),
                    tables.tables@,
                ) is None,
            },
    {
        let ghost rem = old(buf).buffer@.skip(old(buf).offset as int);
        proof {
            assert(forall|t: int|
                0 <= t < rem.len() ==> #[trigger] rem[t] == old(buf).buffer@[old(buf).offset + t]);
        }
        let num_tables = match Read255UShort(buf) {
            Ok(v) => v,
            Err(e) => {
                return Err(e);
            },
        };
        let ghost k0 = buf.offset - old(buf).offset;
        let mut flavor: u32 = 0;
        if !buf.ReadU32(&mut flavor) {
            return Err(WuffErr::GenericError);
        }
        proof {
            assert(flavor == be32(rem, k0));
        }
        if num_tables == 0 {
            return Err(WuffErr::GenericError);
        }
        let ghost idx_start = buf.offset as int;
        let ghost irem0 = buf.buffer@.skip(idx_start);
        proof {
            assert(irem0 =~= rem.skip(k0 + 4));
        }

        let mut head_idx: Option<u16> = None;
        let mut hhea_idx: Option<u16> = None;
        let mut glyf_idx: Option<u16> = None;
        let mut loca_idx: Option<u16> = None;
        let mut table_indices: Vec<u16> = Vec::new();
        let mut i: u16 = 0;
        while i < num_tables
            invariant
                buf.wf(),
                buf.buffer == old(buf).buffer,
                old(buf).offset <= idx_start <= buf.offset,
                rem == old(buf).buffer@.skip(old(buf).offset as int),
                k0 + 4 == idx_start - old(buf).offset,
                i <= num_tables,
                table_indices@.len() == i,
                forall|j: int|
                    0 <= j < table_indices@.len() ==> #[trigger] table_indices@[j]
                        < tables.tables@.len(),
                match glyf_idx {
                    Some(g) => g < tables.tables@.len() && tables.tables@[g as int].tag
                        == kGlyfTableTag,
                    None => true,
                },
                match loca_idx {
                    Some(l) => l < tables.tables@.len() && tables.tables@[l as int].tag
                        == kLocaTableTag,
                    None => true,
                },
                match head_idx {
                    Some(h) => h < tables.tables@.len() && tables.tables@[h as int].tag
                        == kHeadTableTag,
                    None => true,
                },
                match hhea_idx {
                    Some(h) => h < tables.tables@.len() && tables.tables@[h as int].tag
                        == kHheaTableTag,
                    None => true,
                },
                spec_parse_font_entry(rem, tables.tables@) == (match spec_parse_indices(
                    buf.buffer@.skip(buf.offset as int),
                    (num_tables - i) as nat,
                    tables.tables@,
                    table_indices@,
                    head_idx,
                    hhea_idx,
                    glyf_idx,
                    loca_idx,
                ) {
                    None => None::<(FontEntrySpec, int)>,
                    Some((ixs, h, hh, g, l, k)) => {
                        let paired = match (g, l) {
                            (Some(gi), Some(li)) => li == gi + 1,
                            (None, None) => true,
                            _ => false,
                        };
                        if !paired {
                            None
                        } else {
                            Some(
                                (
                                    FontEntrySpec {
                                        flavor,
                                        table_indices: ixs,
                                        head_idx: h,
                                        hhea_idx: hh,
                                        glyf_idx: g,
                                        loca_idx: l,
                                    },
                                    buf.offset - old(buf).offset + k,
                                ),
                            )
                        }
                    },
                }),
            decreases num_tables - i,
        {
            let ghost cur_rem = buf.buffer@.skip(buf.offset as int);
            let table_index = match Read255UShort(buf) {
                Ok(v) => v,
                Err(e) => {
                    return Err(e);
                },
            };
            if table_index as usize >= tables.tables.len() {
                return Err(WuffErr::GenericError);
            }
            proof {
                let (v0, kk) = decode255(cur_rem)->Some_0;
                assert(buf.buffer@.skip(buf.offset as int) =~= cur_rem.skip(kk));
            }
            let tag = tables.tables[table_index as usize].tag;
            if tag == kHeadTableTag {
                head_idx = Some(table_index);
            } else if tag == kHheaTableTag {
                hhea_idx = Some(table_index);
            } else if tag == kGlyfTableTag {
                glyf_idx = Some(table_index);
            } else if tag == kLocaTableTag {
                loca_idx = Some(table_index);
            }
            table_indices.push(table_index);
            i = i + 1;
        }

        // If both glyf and loca are present they must be consecutive;
        // reject a lone one of the two.
        match (glyf_idx, loca_idx) {
            (Some(g), Some(l)) => {
                if g > l || l - g != 1 {
                    return Err(WuffErr::GenericError);
                }
            },
            (Some(_), None) => {
                return Err(WuffErr::GenericError);
            },
            (None, Some(_)) => {
                return Err(WuffErr::GenericError);
            },
            (None, None) => {},
        }

        let entry = CollectionDirectoryEntry {
            flavor,
            table_indices,
            head_idx,
            hhea_idx,
            glyf_idx,
            loca_idx,
        };
        Ok(entry)
    }

    pub fn num_tables(&self) -> (r: usize)
        ensures
            r == self.table_indices@.len(),
    {
        self.table_indices.len()
    }

    /// The size required for this font's output table directory.
    pub fn table_directory_size(&self) -> (r: usize)
        requires
            self.table_indices@.len() < 0x10000,
        ensures
            r == 12 + 16 * self.table_indices@.len(),
    {
        12 + 16 * self.table_indices.len()
    }
}

impl CollectionDirectory {
    /// Read the collection directory of a TrueType collection.
    #[verifier::rlimit(100)]
    #[verifier::spinoff_prover]
    pub fn parse(buf: &mut Buffer, table_directory: &Woff2TableDirectory) -> (r: Result<
        CollectionDirectory,
        WuffErr,
    >)
        requires
            old(buf).wf(),
        ensures
            final(buf).wf(),
            final(buf).buffer == old(buf).buffer,
            match r {
                Ok(cd) => spec_parse_collection(
                    old(buf).buffer@.skip(old(buf).offset as int),
                    table_directory.tables@,
                ) == Some(
                    (
                        cd.version,
                        Seq::new(cd.fonts@.len(), |i: int| entry_view(cd.fonts@[i])),
                        final(buf).offset - old(buf).offset,
                    ),
                ) && (cd.version == 0x00010000 || cd.version == 0x00020000) && 1 <= cd.fonts@.len()
                    < 0x10000 && forall|i: int|
                    0 <= i < cd.fonts@.len() ==> spec_font_entry_ok(
                        #[trigger] cd.fonts@[i],
                        table_directory.tables@,
                    ) && spec_glyf_loca_paired(cd.fonts@[i]),
                Err(_) => spec_parse_collection(
                    old(buf).buffer@.skip(old(buf).offset as int),
                    table_directory.tables@,
                ) is None,
            },
    {
        let ghost rem = old(buf).buffer@.skip(old(buf).offset as int);
        proof {
            assert(forall|t: int|
                0 <= t < rem.len() ==> #[trigger] rem[t] == old(buf).buffer@[old(buf).offset + t]);
        }
        let mut version: u32 = 0;
        if !buf.ReadU32(&mut version) {
            return Err(WuffErr::GenericError);
        }
        proof {
            assert(version == be32(rem, 0));
            assert(buf.buffer@.skip(buf.offset as int) =~= rem.skip(4));
        }
        let num_fonts = match Read255UShort(buf) {
            Ok(v) => v,
            Err(e) => {
                return Err(e);
            },
        };
        if version != 0x00010000 && version != 0x00020000 {
            return Err(WuffErr::GenericError);
        }
        if num_fonts == 0 {
            return Err(WuffErr::GenericError);
        }
        let ghost fonts_start = buf.offset as int;
        proof {
            let k1 = buf.offset - old(buf).offset - 4;
            assert(buf.buffer@.skip(buf.offset as int) =~= rem.skip(4 + k1));
        }

        let mut fonts: Vec<CollectionDirectoryEntry> = Vec::new();
        let ghost mut fonts_spec: Seq<FontEntrySpec> = Seq::empty();
        let mut i: u16 = 0;
        while i < num_fonts
            invariant
                buf.wf(),
                buf.buffer == old(buf).buffer,
                old(buf).offset <= fonts_start <= buf.offset,
                rem == old(buf).buffer@.skip(old(buf).offset as int),
                i <= num_fonts,
                fonts@.len() == i,
                fonts_spec.len() == i,
                forall|j: int|
                    0 <= j < fonts@.len() ==> #[trigger] fonts_spec[j] == entry_view(fonts@[j]),
                forall|j: int|
                    0 <= j < fonts@.len() ==> spec_font_entry_ok(
                        #[trigger] fonts@[j],
                        table_directory.tables@,
                    ) && spec_glyf_loca_paired(fonts@[j]),
                spec_parse_collection(rem, table_directory.tables@) == (match spec_parse_fonts(
                    buf.buffer@.skip(buf.offset as int),
                    (num_fonts - i) as nat,
                    table_directory.tables@,
                    fonts_spec,
                ) {
                    None => None::<(u32, Seq<FontEntrySpec>, int)>,
                    Some((fs, k)) => Some(
                        (version, fs, buf.offset - old(buf).offset + k),
                    ),
                }),
            decreases num_fonts - i,
        {
            let ghost cur_rem = buf.buffer@.skip(buf.offset as int);
            let font = match CollectionDirectoryEntry::parse(buf, table_directory) {
                Ok(f) => f,
                Err(e) => {
                    return Err(e);
                },
            };
            proof {
                let (e0, kk) = spec_parse_font_entry(cur_rem, table_directory.tables@)->Some_0;
                assert(buf.buffer@.skip(buf.offset as int) =~= cur_rem.skip(kk));
                fonts_spec = fonts_spec.push(entry_view(font));
            }
            fonts.push(font);
            i = i + 1;
        }

        Ok(CollectionDirectory { version, fonts })
    }

    /// Build the one-entry directory of a single font, so that the
    /// reconstruction loop has one code path for both cases.
    pub fn generate_for_single_font(flavor: u32, table_directory: &Woff2TableDirectory) -> (r:
        CollectionDirectory)
        requires
            1 <= table_directory.tables@.len() < 0x10000,
        ensures
            r.version == 0x00010000,
            r.fonts@.len() == 1,
            spec_font_entry_ok(r.fonts@[0], table_directory.tables@),
            r.fonts@[0].table_indices@.len() == table_directory.tables@.len(),
            forall|j: int|
                0 <= j < table_directory.tables@.len() ==> #[trigger] r.fonts@[0].table_indices@[j]
                    == j,
            r.fonts@[0].flavor == flavor,
            r.fonts@[0].head_idx is None ==> forall|j: int|
                0 <= j < table_directory.tables@.len() ==> (
                #[trigger] table_directory.tables@[j]).tag != kHeadTableTag,
            r.fonts@[0].hhea_idx is None ==> forall|j: int|
                0 <= j < table_directory.tables@.len() ==> (
                #[trigger] table_directory.tables@[j]).tag != kHheaTableTag,
            r.fonts@[0].glyf_idx is None ==> forall|j: int|
                0 <= j < table_directory.tables@.len() ==> (
                #[trigger] table_directory.tables@[j]).tag != kGlyfTableTag,
            r.fonts@[0].loca_idx is None ==> forall|j: int|
                0 <= j < table_directory.tables@.len() ==> (
                #[trigger] table_directory.tables@[j]).tag != kLocaTableTag,
    {
        let n = table_directory.tables.len();
        let mut table_indices: Vec<u16> = Vec::new();
        let mut head_idx: Option<u16> = None;
        let mut hhea_idx: Option<u16> = None;
        let mut glyf_idx: Option<u16> = None;
        let mut loca_idx: Option<u16> = None;
        let mut i: usize = 0;
        while i < n
            invariant
                n == table_directory.tables@.len() < 0x10000,
                i <= n,
                table_indices@.len() == i,
                forall|j: int| 0 <= j < i ==> #[trigger] table_indices@[j] == j,
                match glyf_idx {
                    Some(g) => g < n && table_directory.tables@[g as int].tag == kGlyfTableTag,
                    None => true,
                },
                match loca_idx {
                    Some(l) => l < n && table_directory.tables@[l as int].tag == kLocaTableTag,
                    None => true,
                },
                match head_idx {
                    Some(h) => h < n && table_directory.tables@[h as int].tag == kHeadTableTag,
                    None => true,
                },
                match hhea_idx {
                    Some(h) => h < n && table_directory.tables@[h as int].tag == kHheaTableTag,
                    None => true,
                },
                head_idx is None ==> forall|j: int|
                    0 <= j < i ==> (#[trigger] table_directory.tables@[j]).tag != kHeadTableTag,
                hhea_idx is None ==> forall|j: int|
                    0 <= j < i ==> (#[trigger] table_directory.tables@[j]).tag != kHheaTableTag,
                glyf_idx is None ==> forall|j: int|
                    0 <= j < i ==> (#[trigger] table_directory.tables@[j]).tag != kGlyfTableTag,
                loca_idx is None ==> forall|j: int|
                    0 <= j < i ==> (#[trigger] table_directory.tables@[j]).tag != kLocaTableTag,
            decreases n - i,
        {
            let tag = table_directory.tables[i].tag;
            if tag == kHeadTableTag {
                head_idx = Some(i as u16);
            } else if tag == kHheaTableTag {
                hhea_idx = Some(i as u16);
            } else if tag == kGlyfTableTag {
                glyf_idx = Some(i as u16);
            } else if tag == kLocaTableTag {
                loca_idx = Some(i as u16);
            }
            table_indices.push(i as u16);
            i = i + 1;
        }
        CollectionDirectory {
            version: 0x00010000,  // synthetic; never written out for a single font
            fonts: vec![
                CollectionDirectoryEntry {
                    flavor,
                    table_indices,
                    head_idx,
                    hhea_idx,
                    glyf_idx,
                    loca_idx,
                },
            ],
        }
    }

    /// Re-order each font's table references by tag, the order in which the
    /// output directories list them.
    pub fn sort_tables_within_each_font(&mut self, tables: &Woff2TableDirectory)
        requires
            forall|i: int|
                0 <= i < old(self).fonts@.len() ==> spec_font_entry_ok(
                    #[trigger] old(self).fonts@[i],
                    tables.tables@,
                ),
        ensures
            final(self).version == old(self).version,
            final(self).fonts@.len() == old(self).fonts@.len(),
            forall|i: int|
                0 <= i < final(self).fonts@.len() ==> spec_font_entry_ok(
                    #[trigger] final(self).fonts@[i],
                    tables.tables@,
                ),
            forall|i: int|
                0 <= i < final(self).fonts@.len() ==> (#[trigger] final(self).fonts@[i]).flavor
                    == old(self).fonts@[i].flavor
                    && final(self).fonts@[i].head_idx == old(self).fonts@[i].head_idx
                    && final(self).fonts@[i].hhea_idx == old(self).fonts@[i].hhea_idx
                    && final(self).fonts@[i].glyf_idx == old(self).fonts@[i].glyf_idx
                    && final(self).fonts@[i].loca_idx == old(self).fonts@[i].loca_idx
                    && final(self).fonts@[i].table_indices@.to_multiset()
                        == old(self).fonts@[i].table_indices@.to_multiset()
                    && final(self).fonts@[i].table_indices@.len()
                        == old(self).fonts@[i].table_indices@.len(),
            forall|i: int|
                0 <= i < final(self).fonts@.len() ==> spec_font_sorted(
                    #[trigger] final(self).fonts@[i],
                    tables.tables@,
                ),
    {
        let n = tables.tables.len();
        let mut keys: Vec<u32> = Vec::new();
        let mut t: usize = 0;
        while t < n
            invariant
                n == tables.tables@.len(),
                t <= n,
                keys@.len() == t,
                forall|j: int| 0 <= j < t ==> #[trigger] keys@[j] == tables.tables@[j].tag,
            decreases n - t,
        {
            keys.push(tables.tables[t].tag);
            t = t + 1;
        }

        let num_fonts = self.fonts.len();
        let mut new_fonts: Vec<CollectionDirectoryEntry> = Vec::new();
        let mut i: usize = 0;
        while i < num_fonts
            invariant
                num_fonts == self.fonts@.len(),
                self.fonts@ == old(self).fonts@,
                self.version == old(self).version,
                keys@.len() == tables.tables@.len(),
                forall|j: int|
                    0 <= j < keys@.len() ==> #[trigger] keys@[j] == tables.tables@[j].tag,
                forall|j: int|
                    0 <= j < self.fonts@.len() ==> spec_font_entry_ok(
                        #[trigger] self.fonts@[j],
                        tables.tables@,
                    ),
                i <= num_fonts,
                new_fonts@.len() == i,
                forall|j: int|
                    0 <= j < i ==> spec_font_entry_ok(#[trigger] new_fonts@[j], tables.tables@),
                forall|j: int|
                    0 <= j < i ==> (#[trigger] new_fonts@[j]).flavor == self.fonts@[j].flavor
                        && new_fonts@[j].head_idx == self.fonts@[j].head_idx
                        && new_fonts@[j].hhea_idx == self.fonts@[j].hhea_idx
                        && new_fonts@[j].glyf_idx == self.fonts@[j].glyf_idx
                        && new_fonts@[j].loca_idx == self.fonts@[j].loca_idx
                        && new_fonts@[j].table_indices@.to_multiset()
                        == self.fonts@[j].table_indices@.to_multiset()
                        && new_fonts@[j].table_indices@.len()
                        == self.fonts@[j].table_indices@.len(),
                forall|j: int|
                    0 <= j < i ==> spec_font_sorted(#[trigger] new_fonts@[j], tables.tables@),
            decreases num_fonts - i,
        {
            let font = &self.fonts[i];
            let m = font.table_indices.len();
            let mut indices: Vec<u16> = Vec::new();
            let mut j: usize = 0;
            while j < m
                invariant
                    i < self.fonts@.len(),
                    spec_font_entry_ok(self.fonts@[i as int], tables.tables@),
                    m == self.fonts@[i as int].table_indices@.len(),
                    font == &self.fonts@[i as int],
                    j <= m,
                    indices@ == font.table_indices@.take(j as int),
                decreases m - j,
            {
                indices.push(font.table_indices[j]);
                proof {
                    assert(indices@ =~= font.table_indices@.take(j + 1));
                }
                j = j + 1;
            }
            proof {
                assert(indices@ =~= font.table_indices@);
            }
            crate::woff2_common::sort_indices(&mut indices, &keys);
            let entry = CollectionDirectoryEntry {
                flavor: font.flavor,
                table_indices: indices,
                head_idx: font.head_idx,
                hhea_idx: font.hhea_idx,
                glyf_idx: font.glyf_idx,
                loca_idx: font.loca_idx,
            };
            proof {
                assert(1 <= entry.table_indices@.len()) by {
                    vstd::seq_lib::to_multiset_len(entry.table_indices@);
                    vstd::seq_lib::to_multiset_len(self.fonts@[i as int].table_indices@);
                }
                assert(spec_font_sorted(entry, tables.tables@)) by {
                    assert(forall|a: int, b: int|
                        0 <= a < b < entry.table_indices@.len() ==> keys@[(
                        #[trigger] entry.table_indices@[a]) as int] <= keys@[(
                        #[trigger] entry.table_indices@[b]) as int]);
                }
            }
            new_fonts.push(entry);
            i = i + 1;
        }
        self.fonts = new_fonts;
    }
}

} // verus!
