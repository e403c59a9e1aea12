//! The 63-entry known-tags table of WOFF2, in its canonical order; a
//! directory flag byte whose low 6 bits are below 63 indexes this table
//! instead of carrying a literal 4-byte tag.

use vstd::prelude::*;

verus! {

pub const kGlyfTableTag: u32 = 0x676c7966;  // `glyf`
pub const kHeadTableTag: u32 = 0x68656164;  // `head`
pub const kLocaTableTag: u32 = 0x6c6f6361;  // `loca`
pub const kDsigTableTag: u32 = 0x44534947;  // `DSIG`
pub const kCffTableTag: u32 = 0x43464620;  // `CFF `
pub const kHmtxTableTag: u32 = 0x686d7478;  // `hmtx`
pub const kHheaTableTag: u32 = 0x68686561;  // `hhea`
pub const kMaxpTableTag: u32 = 0x6d617870;  // `maxp`

/// The known-tags table: entry `i` is the tag selected by flag value `i`.
pub open spec fn known_table_tags() -> Seq<u32> {
    seq![
        0x636d6170u32,  //  0 `cmap`
        0x68656164u32,  //  1 `head`
        0x68686561u32,  //  2 `hhea`
        0x686d7478u32,  //  3 `hmtx`
        0x6d617870u32,  //  4 `maxp`
        0x6e616d65u32,  //  5 `name`
        0x4f532f32u32,  //  6 `OS/2`
        0x706f7374u32,  //  7 `post`
        0x63767420u32,  //  8 `cvt `
        0x6670676du32,  //  9 `fpgm`
        0x676c7966u32,  // 10 `glyf`
        0x6c6f6361u32,  // 11 `loca`
        0x70726570u32,  // 12 `prep`
        0x43464620u32,  // 13 `CFF `
        0x564f5247u32,  // 14 `VORG`
        0x45424454u32,  // 15 `EBDT`
        0x45424c43u32,  // 16 `EBLC`
        0x67617370u32,  // 17 `gasp`
        0x68646d78u32,  // 18 `hdmx`
        0x6b65726eu32,  // 19 `kern`
        0x4c545348u32,  // 20 `LTSH`
        0x50434c54u32,  // 21 `PCLT`
        0x56444d58u32,  // 22 `VDMX`
        0x76686561u32,  // 23 `vhea`
        0x766d7478u32,  // 24 `vmtx`
        0x42415345u32,  // 25 `BASE`
        0x47444546u32,  // 26 `GDEF`
        0x47504f53u32,  // 27 `GPOS`
        0x47535542u32,  // 28 `GSUB`
        0x45425343u32,  // 29 `EBSC`
        0x4a535446u32,  // 30 `JSTF`
        0x4d415448u32,  // 31 `MATH`
        0x43424454u32,  // 32 `CBDT`
        0x43424c43u32,  // 33 `CBLC`
        0x434f4c52u32,  // 34 `COLR`
        0x4350414cu32,  // 35 `CPAL`
        0x53564720u32,  // 36 `SVG `
        0x73626978u32,  // 37 `sbix`
        0x61636e74u32,  // 38 `acnt`
        0x61766172u32,  // 39 `avar`
        0x62646174u32,  // 40 `bdat`
        0x626c6f63u32,  // 41 `bloc`
        0x62736c6eu32,  // 42 `bsln`
        0x63766172u32,  // 43 `cvar`
        0x66647363u32,  // 44 `fdsc`
        0x66656174u32,  // 45 `feat`
        0x666d7478u32,  // 46 `fmtx`
        0x66766172u32,  // 47 `fvar`
        0x67766172u32,  // 48 `gvar`
        0x68737479u32,  // 49 `hsty`
        0x6a757374u32,  // 50 `just`
        0x6c636172u32,  // 51 `lcar`
        0x6d6f7274u32,  // 52 `mort`
        0x6d6f7278u32,  // 53 `morx`
        0x6f706264u32,  // 54 `opbd`
        0x70726f70u32,  // 55 `prop`
        0x7472616bu32,  // 56 `trak`
        0x5a617066u32,  // 57 `Zapf`
        0x53696c66u32,  // 58 `Silf`
        0x476c6174u32,  // 59 `Glat`
        0x476c6f63u32,  // 60 `Gloc`
        0x46656174u32,  // 61 `Feat`
        0x53696c6cu32,  // 62 `Sill`
    ]
}

/// The known-tags table holds exactly 63 entries: flag value 63 never
/// indexes it, it announces a literal tag instead.
pub proof fn lemma_known_table_tags_count()
    ensures
        known_table_tags().len() == 63,
{
}

/// Look an entry up; flag value 63 signals a literal tag and never
/// reaches this table.
pub fn known_table_tag(index: u8) -> (r: u32)
    requires
        index < 63,
    ensures
        r == known_table_tags()[index as int],
{
    let tags: [u32; 63] = [
        0x636d6170,  //  0 `cmap`
        0x68656164,  //  1 `head`
        0x68686561,  //  2 `hhea`
        0x686d7478,  //  3 `hmtx`
        0x6d617870,  //  4 `maxp`
        0x6e616d65,  //  5 `name`
        0x4f532f32,  //  6 `OS/2`
        0x706f7374,  //  7 `post`
        0x63767420,  //  8 `cvt `
        0x6670676d,  //  9 `fpgm`
        0x676c7966,  // 10 `glyf`
        0x6c6f6361,  // 11 `loca`
        0x70726570,  // 12 `prep`
        0x43464620,  // 13 `CFF `
        0x564f5247,  // 14 `VORG`
        0x45424454,  // 15 `EBDT`
        0x45424c43,  // 16 `EBLC`
        0x67617370,  // 17 `gasp`
        0x68646d78,  // 18 `hdmx`
        0x6b65726e,  // 19 `kern`
        0x4c545348,  // 20 `LTSH`
        0x50434c54,  // 21 `PCLT`
        0x56444d58,  // 22 `VDMX`
        0x76686561,  // 23 `vhea`
        0x766d7478,  // 24 `vmtx`
        0x42415345,  // 25 `BASE`
        0x47444546,  // 26 `GDEF`
        0x47504f53,  // 27 `GPOS`
        0x47535542,  // 28 `GSUB`
        0x45425343,  // 29 `EBSC`
        0x4a535446,  // 30 `JSTF`
        0x4d415448,  // 31 `MATH`
        0x43424454,  // 32 `CBDT`
        0x43424c43,  // 33 `CBLC`
        0x434f4c52,  // 34 `COLR`
        0x4350414c,  // 35 `CPAL`
        0x53564720,  // 36 `SVG `
        0x73626978,  // 37 `sbix`
        0x61636e74,  // 38 `acnt`
        0x61766172,  // 39 `avar`
        0x62646174,  // 40 `bdat`
        0x626c6f63,  // 41 `bloc`
        0x62736c6e,  // 42 `bsln`
        0x63766172,  // 43 `cvar`
        0x66647363,  // 44 `fdsc`
        0x66656174,  // 45 `feat`
        0x666d7478,  // 46 `fmtx`
        0x66766172,  // 47 `fvar`
        0x67766172,  // 48 `gvar`
        0x68737479,  // 49 `hsty`
        0x6a757374,  // 50 `just`
        0x6c636172,  // 51 `lcar`
        0x6d6f7274,  // 52 `mort`
        0x6d6f7278,  // 53 `morx`
        0x6f706264,  // 54 `opbd`
        0x70726f70,  // 55 `prop`
        0x7472616b,  // 56 `trak`
        0x5a617066,  // 57 `Zapf`
        0x53696c66,  // 58 `Silf`
        0x476c6174,  // 59 `Glat`
        0x476c6f63,  // 60 `Gloc`
        0x46656174,  // 61 `Feat`
        0x53696c6c,  // 62 `Sill`
    ];
    tags[index as usize]
}

} // verus!
