//! Inverse of the WOFF2 `hmtx` transform: re-reads the advance widths and
//! restores left-side bearings that the transform elided, substituting each
//! glyph's x_min where a bearing was dropped.

use vstd::prelude::*;

use crate::buffer::{as_i16, be16, Buffer};
use crate::error::WuffErr;

verus! {

/// The decoded horizontal metrics, ready to be laid out again.
pub struct HmtxData {
    pub num_glyphs: u16,
    pub num_hmetrics: u16,
    pub advance_widths: Vec<u16>,
    pub lsbs: Vec<i16>,
}

/// Whether a transformed `hmtx` table at the front of `rem` is acceptable
/// for `num_glyphs` glyphs and `num_hmetrics` long metrics: flag byte with
/// reserved bits clear, at least one kind of bearing elided, a sane metric
/// count, and enough bytes for everything the flags announce.
pub open spec fn spec_hmtx_parse_ok(rem: Seq<u8>, num_glyphs: u16, num_hmetrics: u16) -> bool {
    &&& rem.len() >= 1
    &&& {
        let flags = rem[0];
        let has_prop = flags % 2 == 0;
        let has_mono = (flags / 2) % 2 == 0;
        &&& flags < 4
        &&& !(has_prop && has_mono)
        &&& 1 <= num_hmetrics <= num_glyphs
        &&& rem.len() >= 1 + 2 * num_hmetrics + (if has_prop {
            2 * num_hmetrics as int
        } else {
            0int
        }) + (if has_mono {
            2 * (num_glyphs - num_hmetrics)
        } else {
            0int
        })
    }
}

/// Decode a WOFF2 transformed hmtx table.
#[verifier::loop_isolation(false)]
pub fn decode_hmtx_table(
    input: &mut Buffer,
    num_glyphs: u16,
    num_hmetrics: u16,
    x_mins: &Vec<i16>,
) -> (r: Result<HmtxData, WuffErr>)
    requires
        old(input).wf(),
        x_mins@.len() == num_glyphs,
    ensures
        final(input).wf(),
        final(input).buffer == old(input).buffer,
        match r {
            Ok(d) => {
                let rem = old(input).buffer@.skip(old(input).offset as int);
                let flags = rem[0];
                let has_prop = flags % 2 == 0;
                let has_mono = (flags / 2) % 2 == 0;
                let prop_base = 1 + 2 * num_hmetrics as int;
                let mono_base = prop_base + (if has_prop {
                    2 * num_hmetrics as int
                } else {
                    0int
                });
                &&& spec_hmtx_parse_ok(rem, num_glyphs, num_hmetrics)
                &&& d.num_glyphs == num_glyphs
                &&& d.num_hmetrics == num_hmetrics
                &&& d.advance_widths@.len() == num_hmetrics
                &&& d.lsbs@.len() == num_glyphs
                &&& forall|i: int|
                    0 <= i < num_hmetrics ==> #[trigger] d.advance_widths@[i] == be16(
                        rem,
                        1 + 2 * i,
                    )
                &&& forall|i: int|
                    0 <= i < num_hmetrics ==> #[trigger] d.lsbs@[i] == (if has_prop {
                        as_i16(be16(rem, prop_base + 2 * i))
                    } else {
                        x_mins@[i] as int
                    })
                &&& forall|i: int|
                    num_hmetrics <= i < num_glyphs ==> #[trigger] d.lsbs@[i] == (if has_mono {
                        as_i16(be16(rem, mono_base + 2 * (i - num_hmetrics)))
                    } else {
                        x_mins@[i] as int
                    })
            },
            Err(_) => !spec_hmtx_parse_ok(
                old(input).buffer@.skip(old(input).offset as int),
                num_glyphs,
                num_hmetrics,
            ),
        },
{
    let ghost rem = old(input).buffer@.skip(old(input).offset as int);
    let mut hmtx_flags: u8 = 0;
    if !input.ReadU8(&mut hmtx_flags) {
        return Err(WuffErr::GenericError);
    }
    assert(hmtx_flags == rem[0]);
    let has_proportional_lsbs: bool = (hmtx_flags % 2) == 0;
    let has_monospace_lsbs: bool = ((hmtx_flags / 2) % 2) == 0;

    // Bits 2-7 are reserved and must be zero.
    if hmtx_flags >= 4 {
        return Err(WuffErr::GenericError);
    }
    // A transform that elides nothing would have gained nothing.
    if has_proportional_lsbs && has_monospace_lsbs {
        return Err(WuffErr::GenericError);
    }
    // num_glyphs 0 is fine without a glyf table, but then hmtx cannot have
    // been transformed.
    if num_hmetrics > num_glyphs {
        return Err(WuffErr::GenericError);
    }
    // "...only one entry need be in the array, but that entry is required."
    if num_hmetrics < 1 {
        return Err(WuffErr::GenericError);
    }

    let mut advance_widths: Vec<u16> = Vec::new();
    let mut i: u16 = 0;
    while i < num_hmetrics
        invariant
            input.wf(),
            input.buffer == old(input).buffer,
            i <= num_hmetrics,
            input.offset == old(input).offset + 1 + 2 * i,
            advance_widths@.len() == i,
            forall|j: int|
                0 <= j < i ==> #[trigger] advance_widths@[j] == be16(rem, 1 + 2 * j),
        decreases num_hmetrics - i,
    {
        let mut advance_width: u16 = 0;
        if !input.ReadU16(&mut advance_width) {
            return Err(WuffErr::GenericError);
        }
        proof {
            assert(be16(old(input).buffer@, old(input).offset + 1 + 2 * (i as int)) == be16(
                rem,
                1 + 2 * (i as int),
            ));
        }
        advance_widths.push(advance_width);
        i = i + 1;
    }

    let ghost prop_base = 1 + 2 * num_hmetrics as int;
    let mut lsbs: Vec<i16> = Vec::new();
    let mut i: u16 = 0;
    while i < num_hmetrics
        invariant
            input.wf(),
            input.buffer == old(input).buffer,
            i <= num_hmetrics,
            input.offset == old(input).offset + prop_base + (if has_proportional_lsbs {
                2 * i as int
            } else {
                0int
            }),
            lsbs@.len() == i,
            forall|j: int|
                0 <= j < i ==> #[trigger] lsbs@[j] == (if has_proportional_lsbs {
                    as_i16(be16(rem, prop_base + 2 * j))
                } else {
                    x_mins@[j] as int
                }),
        decreases num_hmetrics - i,
    {
        let mut lsb: i16 = 0;
        if has_proportional_lsbs {
            if !input.ReadS16(&mut lsb) {
                return Err(WuffErr::GenericError);
            }
            proof {
                assert(be16(old(input).buffer@, old(input).offset + prop_base + 2 * (i as int))
                    == be16(rem, prop_base + 2 * (i as int)));
            }
        } else {
            lsb = x_mins[i as usize];
        }
        lsbs.push(lsb);
        i = i + 1;
    }

    let ghost mono_base = prop_base + (if has_proportional_lsbs {
        2 * num_hmetrics as int
    } else {
        0int
    });
    let mut i: u16 = num_hmetrics;
    while i < num_glyphs
        invariant
            input.wf(),
            input.buffer == old(input).buffer,
            num_hmetrics <= i <= num_glyphs,
            input.offset == old(input).offset + mono_base + (if has_monospace_lsbs {
                2 * (i - num_hmetrics)
            } else {
                0int
            }),
            lsbs@.len() == i,
            forall|j: int|
                0 <= j < num_hmetrics ==> #[trigger] lsbs@[j] == (if has_proportional_lsbs {
                    as_i16(be16(rem, prop_base + 2 * j))
                } else {
                    x_mins@[j] as int
                }),
            forall|j: int|
                num_hmetrics <= j < i ==> #[trigger] lsbs@[j] == (if has_monospace_lsbs {
                    as_i16(be16(rem, mono_base + 2 * (j - num_hmetrics)))
                } else {
                    x_mins@[j] as int
                }),
        decreases num_glyphs - i,
    {
        let mut lsb: i16 = 0;
        if has_monospace_lsbs {
            if !input.ReadS16(&mut lsb) {
                return Err(WuffErr::GenericError);
            }
            proof {
                assert(be16(
                    old(input).buffer@,
                    old(input).offset + mono_base + 2 * ((i - num_hmetrics) as int),
                ) == be16(rem, mono_base + 2 * ((i - num_hmetrics) as int)));
            }
        } else {
            lsb = x_mins[i as usize];
        }
        lsbs.push(lsb);
        i = i + 1;
    }

    Ok(HmtxData { num_glyphs, num_hmetrics, advance_widths, lsbs })
}

/// Lay the decoded metrics back out in the standard `hmtx` format:
/// `num_hmetrics` (advance, lsb) pairs, then bare lsbs for the rest.
#[verifier::loop_isolation(false)]
pub fn generate_hmtx_table(hmtx_data: &HmtxData) -> (r: Result<Vec<u8>, WuffErr>)
    requires
        hmtx_data.advance_widths@.len() == hmtx_data.num_hmetrics,
        hmtx_data.lsbs@.len() == hmtx_data.num_glyphs,
        hmtx_data.num_hmetrics <= hmtx_data.num_glyphs,
    ensures
        match r {
            Ok(t) => {
                let h = hmtx_data.num_hmetrics as int;
                let n = hmtx_data.num_glyphs as int;
                &&& t@.len() == 2 * n + 2 * h
                &&& forall|i: int|
                    0 <= i < h ==> be16(t@, 4 * i) == #[trigger] hmtx_data.advance_widths@[i]
                &&& forall|i: int|
                    0 <= i < h ==> as_i16(be16(t@, 4 * i + 2)) == #[trigger] hmtx_data.lsbs@[i]
                &&& forall|i: int|
                    h <= i < n ==> as_i16(be16(t@, 4 * h + 2 * (i - h)))
                        == #[trigger] hmtx_data.lsbs@[i]
            },
            Err(_) => false,
        },
{
    let num_glyphs = hmtx_data.num_glyphs as usize;
    let num_hmetrics = hmtx_data.num_hmetrics as usize;

    let mut hmtx_table: Vec<u8> = Vec::new();
    let mut i: usize = 0;
    while i < num_glyphs
        invariant
            i <= num_glyphs,
            hmtx_table@.len() == (if i <= num_hmetrics {
                4 * i as int
            } else {
                4 * num_hmetrics + 2 * i as int - 2 * num_hmetrics
            }),
            forall|j: int|
                0 <= j < i && j < num_hmetrics ==> be16(hmtx_table@, 4 * j)
                    == #[trigger] hmtx_data.advance_widths@[j],
            forall|j: int|
                0 <= j < i && j < num_hmetrics ==> as_i16(be16(hmtx_table@, 4 * j + 2))
                    == #[trigger] hmtx_data.lsbs@[j],
            forall|j: int|
                num_hmetrics <= j < i ==> as_i16(
                    be16(hmtx_table@, 4 * num_hmetrics + 2 * (j - num_hmetrics)),
                ) == #[trigger] hmtx_data.lsbs@[j],
        decreases num_glyphs - i,
    {
        let ghost before = hmtx_table@;
        if i < num_hmetrics {
            crate::woff2_common::push_u16_be(&mut hmtx_table, hmtx_data.advance_widths[i]);
        }
        let ghost mid = hmtx_table@;
        crate::woff2_common::push_i16_be(&mut hmtx_table, hmtx_data.lsbs[i]);
        i = i + 1;
        proof {
            assert(forall|t: int| 0 <= t < mid.len() ==> #[trigger] hmtx_table@[t] == mid[t]) by {
                assert(hmtx_table@.subrange(0, mid.len() as int) =~= mid);
            }
            assert(forall|t: int|
                0 <= t < before.len() ==> #[trigger] hmtx_table@[t] == before[t]);
        }
    }

    Ok(hmtx_table)
}

} // verus!
