//! The known-tags table: exactly 63 entries, in the canonical order of the
//! WOFF2 specification.

use wuff::table_tags::known_table_tag;

#[test]
fn known_tags_canonical_order() {
    let canonical: [&[u8; 4]; 63] = [
        b"cmap", b"head", b"hhea", b"hmtx", b"maxp", b"name", b"OS/2", b"post", b"cvt ",
        b"fpgm", b"glyf", b"loca", b"prep", b"CFF ", b"VORG", b"EBDT", b"EBLC", b"gasp",
        b"hdmx", b"kern", b"LTSH", b"PCLT", b"VDMX", b"vhea", b"vmtx", b"BASE", b"GDEF",
        b"GPOS", b"GSUB", b"EBSC", b"JSTF", b"MATH", b"CBDT", b"CBLC", b"COLR", b"CPAL",
        b"SVG ", b"sbix", b"acnt", b"avar", b"bdat", b"bloc", b"bsln", b"cvar", b"fdsc",
        b"feat", b"fmtx", b"fvar", b"gvar", b"hsty", b"just", b"lcar", b"mort", b"morx",
        b"opbd", b"prop", b"trak", b"Zapf", b"Silf", b"Glat", b"Gloc", b"Feat", b"Sill",
    ];
    assert_eq!(canonical.len(), 63);
    for (i, tag) in canonical.iter().enumerate() {
        assert_eq!(known_table_tag(i as u8), u32::from_be_bytes(**tag));
    }
}

#[test]
fn named_tags_match() {
    assert_eq!(wuff::table_tags::kGlyfTableTag, u32::from_be_bytes(*b"glyf"));
    assert_eq!(wuff::table_tags::kLocaTableTag, u32::from_be_bytes(*b"loca"));
    assert_eq!(wuff::table_tags::kHeadTableTag, u32::from_be_bytes(*b"head"));
    assert_eq!(wuff::table_tags::kHheaTableTag, u32::from_be_bytes(*b"hhea"));
    assert_eq!(wuff::table_tags::kHmtxTableTag, u32::from_be_bytes(*b"hmtx"));
}
