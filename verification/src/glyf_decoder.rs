//! Inverse of the WOFF2 `glyf` transform: re-materializes the standard
//! `glyf` table from the seven substreams of the transformed table and
//! derives the matching `loca` table.

use vstd::prelude::*;

use crate::buffer::{as_i16, be16, be32, Buffer};
use crate::error::WuffErr;
use crate::variable_length::{decode255, Read255UShort};
use crate::woff2_common::{push_i16_be, push_u16_be, push_u32_be, sum_be32_pad0, Point};

verus! {

// Simple-glyph flag bits.
pub const GLYF_ON_CURVE: u8 = 1;

pub const GLYF_X_SHORT: u8 = 2;

pub const GLYF_Y_SHORT: u8 = 4;

pub const GLYF_REPEAT: u8 = 8;

pub const GLYF_THIS_X_IS_SAME: u8 = 16;

pub const GLYF_THIS_Y_IS_SAME: u8 = 32;

pub const OVERLAP_SIMPLE: u8 = 64;

// Composite-glyph flag bits.
pub const FLAG_ARG_1_AND_2_ARE_WORDS: u16 = 1;

pub const FLAG_WE_HAVE_A_SCALE: u16 = 8;

pub const FLAG_MORE_COMPONENTS: u16 = 32;

pub const FLAG_WE_HAVE_AN_X_AND_Y_SCALE: u16 = 64;

pub const FLAG_WE_HAVE_A_TWO_BY_TWO: u16 = 128;

pub const FLAG_WE_HAVE_INSTRUCTIONS: u16 = 256;

/// Transformed-glyf header flag: an overlap-simple bitmap follows the
/// substreams.
pub const FLAG_OVERLAP_SIMPLE_BITMAP: u16 = 1;

/// Walk one composite glyph's component records at the front of `s`:
/// `Some((bytes spanned, any component carries instructions))`.
pub open spec fn spec_composite_size(s: Seq<u8>) -> Option<(int, bool)>
    decreases s.len(),
{
    if s.len() < 2 {
        None
    } else {
        let flags = be16(s, 0) as u16;
        let arg_size: int = 2 + (if flags & FLAG_ARG_1_AND_2_ARE_WORDS != 0 {
            4int
        } else {
            2int
        }) + (if flags & FLAG_WE_HAVE_A_SCALE != 0 {
            2int
        } else if flags & FLAG_WE_HAVE_AN_X_AND_Y_SCALE != 0 {
            4int
        } else if flags & FLAG_WE_HAVE_A_TWO_BY_TWO != 0 {
            8int
        } else {
            0int
        });
        let wi = flags & FLAG_WE_HAVE_INSTRUCTIONS != 0;
        if s.len() < 2 + arg_size {
            None
        } else if flags & FLAG_MORE_COMPONENTS == 0 {
            Some((2 + arg_size, wi))
        } else {
            match spec_composite_size(s.skip(2 + arg_size)) {
                None => None,
                Some((sz, wi2)) => Some((2 + arg_size + sz, wi || wi2)),
            }
        }
    }
}

/// Measure the component records of one composite glyph, advancing the
/// stream past them.
pub fn compute_size_of_composite(composite_stream: &mut Buffer) -> (r: Result<
    (usize, bool),
    WuffErr,
>)
    requires
        old(composite_stream).wf(),
    ensures
        final(composite_stream).wf(),
        final(composite_stream).buffer == old(composite_stream).buffer,
        old(composite_stream).offset <= final(composite_stream).offset,
        match r {
            Ok((size, wi)) => spec_composite_size(
                old(composite_stream).buffer@.skip(old(composite_stream).offset as int),
            ) == Some((size as int, wi)) && final(composite_stream).offset == old(
                composite_stream,
            ).offset + size,
            Err(_) => spec_composite_size(
                old(composite_stream).buffer@.skip(old(composite_stream).offset as int),
            ) is None,
        },
{
    let ghost rem0 = old(composite_stream).buffer@.skip(old(composite_stream).offset as int);
    let start = composite_stream.offset();
    let mut size: usize = 0;
    let mut we_have_instructions: bool = false;
    let mut more: bool = true;
    while more
        invariant
            composite_stream.wf(),
            composite_stream.buffer == old(composite_stream).buffer,
            rem0 == old(composite_stream).buffer@.skip(old(composite_stream).offset as int),
            start == old(composite_stream).offset,
            start <= composite_stream.offset <= composite_stream.buffer@.len(),
            size == composite_stream.offset - start,
            spec_composite_size(rem0) == (if more {
                match spec_composite_size(
                    composite_stream.buffer@.skip(composite_stream.offset as int),
                ) {
                    None => None::<(int, bool)>,
                    Some((sz, wi)) => Some((size + sz, we_have_instructions || wi)),
                }
            } else {
                Some((size as int, we_have_instructions))
            }),
        decreases composite_stream.buffer@.len() - composite_stream.offset + (if more {
            1int
        } else {
            0int
        }),
    {
        let ghost cur_rem = composite_stream.buffer@.skip(composite_stream.offset as int);
        let mut flags: u16 = 0;
        if !composite_stream.ReadU16(&mut flags) {
            return Err(WuffErr::GenericError);
        }
        assert(flags == be16(cur_rem, 0) as u16) by {
            assert(cur_rem[0] == composite_stream.buffer@[old(composite_stream).offset + (
            size as int)]);
        }
        we_have_instructions = we_have_instructions || (flags & FLAG_WE_HAVE_INSTRUCTIONS != 0);
        let mut arg_size: usize = 2;  // glyph index
        if flags & FLAG_ARG_1_AND_2_ARE_WORDS != 0 {
            arg_size += 4;
        } else {
            arg_size += 2;
        }
        if flags & FLAG_WE_HAVE_A_SCALE != 0 {
            arg_size += 2;
        } else if flags & FLAG_WE_HAVE_AN_X_AND_Y_SCALE != 0 {
            arg_size += 4;
        } else if flags & FLAG_WE_HAVE_A_TWO_BY_TWO != 0 {
            arg_size += 8;
        }
        if !composite_stream.Skip(arg_size) {
            return Err(WuffErr::GenericError);
        }
        size += 2 + arg_size;
        more = flags & FLAG_MORE_COMPONENTS != 0;
        proof {
            assert(composite_stream.buffer@.skip(composite_stream.offset as int) =~= cur_rem.skip(
                2 + arg_size as int,
            ));
        }
    }
    Ok((size, we_have_instructions))
}

/// `base` with the sign selected by the low bit of `flag`.
pub open spec fn with_sign_spec(flag: int, base: int) -> int {
    if flag % 2 == 1 {
        base
    } else {
        -base
    }
}

/// `base` if the low bit of `flag` is set, else `-base`.
pub fn WithSign(flag: i32, baseval: i32) -> (r: i32)
    requires
        flag >= 0,
        0 <= baseval < 65536,
    ensures
        r == with_sign_spec(flag as int, baseval as int),
{
    if flag % 2 == 1 {
        baseval
    } else {
        -baseval
    }
}

/// Data bytes consumed by one triplet with (7-bit) flag value `f`.
pub open spec fn triplet_n_bytes(f: int) -> int {
    if f < 84 {
        1
    } else if f < 120 {
        2
    } else if f < 124 {
        3
    } else {
        4
    }
}

/// The x delta of a triplet: flag value `f`, data bytes at `data[k..]`.
pub open spec fn triplet_dx(f: int, data: Seq<u8>, k: int) -> int {
    if f < 10 {
        0
    } else if f < 20 {
        with_sign_spec(f, 256 * (((f - 10) / 2) % 8) + data[k])
    } else if f < 84 {
        with_sign_spec(f, 1 + 16 * (((f - 20) / 16) % 4) + data[k] / 16)
    } else if f < 120 {
        with_sign_spec(f, 1 + 256 * ((f - 84) / 12) + data[k])
    } else if f < 124 {
        with_sign_spec(f, 16 * data[k] + data[k + 1] / 16)
    } else {
        with_sign_spec(f, 256 * data[k] + data[k + 1])
    }
}

/// The y delta of a triplet.
pub open spec fn triplet_dy(f: int, data: Seq<u8>, k: int) -> int {
    if f < 10 {
        with_sign_spec(f, 256 * ((f / 2) % 8) + data[k])
    } else if f < 20 {
        0
    } else if f < 84 {
        with_sign_spec(f / 2, 1 + 16 * (((f - 20) / 4) % 4) + data[k] % 16)
    } else if f < 120 {
        with_sign_spec(f / 2, 1 + 256 * (((f - 84) % 12) / 4) + data[k + 1])
    } else if f < 124 {
        with_sign_spec(f / 2, 256 * (data[k + 1] % 16) + data[k + 2])
    } else {
        with_sign_spec(f / 2, 256 * data[k + 2] + data[k + 3])
    }
}

/// Decode the points of one simple glyph from its per-point flags and the
/// shared coordinate stream, starting `k` bytes in with running coordinates
/// `(x, y)`: `Some((points, next data index))`.  Truncated data and signed
/// 32-bit overflow of a running coordinate are rejected.
pub open spec fn spec_triplets(flags: Seq<u8>, data: Seq<u8>, k: int, x: int, y: int) -> Option<
    (Seq<Point>, int),
>
    decreases flags.len(),
{
    if flags.len() == 0 {
        Some((seq![], k))
    } else {
        let fb = flags[0];
        let on_curve = fb < 128;
        let f = (fb % 128) as int;
        let nb = triplet_n_bytes(f);
        if k + nb > data.len() {
            None
        } else {
            let x2 = x + triplet_dx(f, data, k);
            let y2 = y + triplet_dy(f, data, k);
            if x2 > i32::MAX || x2 < i32::MIN || y2 > i32::MAX || y2 < i32::MIN {
                None
            } else {
                match spec_triplets(flags.skip(1), data, k + nb, x2, y2) {
                    None => None,
                    Some((pts, kf)) => Some(
                        (seq![Point { x: x2 as i32, y: y2 as i32, on_curve }] + pts, kf),
                    ),
                }
            }
        }
    }
}

/// Decode `flags_in.len()` points from the triplet coding, appending them to
/// `result` and returning how many bytes of `in_` were consumed.
pub fn decode_triplet(flags_in: &[u8], in_: &[u8], result: &mut Vec<Point>) -> (r: Result<
    usize,
    WuffErr,
>)
    ensures
        match r {
            Ok(n) => spec_triplets(flags_in@, in_@, 0, 0, 0) == Some(
                (final(result)@.skip(old(result)@.len() as int), n as int),
            ) && final(result)@.len() == old(result)@.len() + flags_in@.len() && old(
                result,
            )@.is_prefix_of(final(result)@) && n <= in_@.len(),
            Err(_) => spec_triplets(flags_in@, in_@, 0, 0, 0) is None && old(
                result,
            )@.is_prefix_of(final(result)@),
        },
{
    let mut x: i32 = 0;
    let mut y: i32 = 0;
    let mut triplet_index: usize = 0;
    let mut i: usize = 0;
    let n = flags_in.len();
    let ghost base = old(result)@.len() as int;
    proof {
        assert(flags_in@.skip(0) =~= flags_in@);
        assert(result@.skip(base) =~= Seq::<Point>::empty());
        match spec_triplets(flags_in@, in_@, 0, 0, 0) {
            None => {},
            Some((pts, kf)) => {
                assert(result@.skip(base) + pts =~= pts);
            },
        }
    }

    while i < n
        invariant
            n == flags_in@.len(),
            i <= n,
            base == old(result)@.len(),
            triplet_index <= in_@.len(),
            result@.len() == old(result)@.len() + i,
            old(result)@.is_prefix_of(result@),
            spec_triplets(flags_in@, in_@, 0, 0, 0) == (match spec_triplets(
                flags_in@.skip(i as int),
                in_@,
                triplet_index as int,
                x as int,
                y as int,
            ) {
                None => None::<(Seq<Point>, int)>,
                Some((pts, kf)) => Some((result@.skip(base) + pts, kf)),
            }),
        decreases n - i,
    {
        let ghost flags_rem = flags_in@.skip(i as int);
        let ghost result_before = result@;
        let flag_byte = flags_in[i];
        assert(flag_byte == flags_rem[0]);
        let on_curve: bool = flag_byte < 128;
        let f: i32 = (flag_byte % 128) as i32;

        let n_data_bytes: usize = if f < 84 {
            1
        } else if f < 120 {
            2
        } else if f < 124 {
            3
        } else {
            4
        };
        if n_data_bytes > in_.len() - triplet_index {
            return Err(WuffErr::GenericError);
        }

        let k = triplet_index;
        let dx: i32;
        let dy: i32;
        if f < 10 {
            dx = 0;
            dy = WithSign(f, 256 * ((f / 2) % 8) + in_[k] as i32);
        } else if f < 20 {
            dx = WithSign(f, 256 * (((f - 10) / 2) % 8) + in_[k] as i32);
            dy = 0;
        } else if f < 84 {
            let b0: i32 = f - 20;
            let b1: i32 = in_[k] as i32;
            dx = WithSign(f, 1 + 16 * ((b0 / 16) % 4) + b1 / 16);
            dy = WithSign(f / 2, 1 + 16 * ((b0 / 4) % 4) + b1 % 16);
        } else if f < 120 {
            let b0: i32 = f - 84;
            dx = WithSign(f, 1 + 256 * (b0 / 12) + in_[k] as i32);
            dy = WithSign(f / 2, 1 + 256 * ((b0 % 12) / 4) + in_[k + 1] as i32);
        } else if f < 124 {
            let b2: i32 = in_[k + 1] as i32;
            dx = WithSign(f, 16 * (in_[k] as i32) + b2 / 16);
            dy = WithSign(f / 2, 256 * (b2 % 16) + in_[k + 2] as i32);
        } else {
            dx = WithSign(f, 256 * (in_[k] as i32) + in_[k + 1] as i32);
            dy = WithSign(f / 2, 256 * (in_[k + 2] as i32) + in_[k + 3] as i32);
        }
        assert(dx == triplet_dx(f as int, in_@, k as int) && dy == triplet_dy(f as int, in_@, k as int));

        let x2 = match x.checked_add(dx) {
            Some(v) => v,
            None => {
                return Err(WuffErr::GenericError);
            },
        };
        let y2 = match y.checked_add(dy) {
            Some(v) => v,
            None => {
                return Err(WuffErr::GenericError);
            },
        };
        x = x2;
        y = y2;
        triplet_index = triplet_index + n_data_bytes;
        result.push(Point { x, y, on_curve });
        i = i + 1;
        proof {
            assert(flags_in@.skip(i as int) =~= flags_rem.skip(1));
            assert(result@ == result_before.push(Point { x, y, on_curve }));
            assert(result@.skip(base).len() == result_before.skip(base).len() + 1);
            assert(forall|t: int|
                0 <= t < result_before.len() - base ==> #[trigger] result@.skip(base)[t]
                    == result_before.skip(base)[t]);
            assert(result@.skip(base)[result@.len() - 1 - base] == Point { x, y, on_curve });
            assert(result@.skip(base) =~= result_before.skip(base) + seq![
                Point { x, y, on_curve },
            ]);
            match spec_triplets(
                flags_in@.skip(i as int),
                in_@,
                triplet_index as int,
                x as int,
                y as int,
            ) {
                None => {},
                Some((pts, kf)) => {
                    assert(result_before.skip(base) + (seq![Point { x, y, on_curve }] + pts)
                        =~= result@.skip(base) + pts);
                },
            }
        }
    }
    proof {
        assert(result@.skip(base) + Seq::<Point>::empty() =~= result@.skip(base));
        assert(old(result)@.is_prefix_of(result@));
    }
    Ok(triplet_index)
}

/// Every coordinate fits the on-disk signed 16-bit representation.
pub open spec fn points_in_i16_range(pts: Seq<Point>) -> bool {
    forall|j: int|
        0 <= j < pts.len() ==> -0x8000 <= (#[trigger] pts[j]).x <= 0x7fff && -0x8000 <= pts[j].y
            <= 0x7fff
}

/// Smallest x coordinate (0 for no points).
pub open spec fn points_x_min(pts: Seq<Point>) -> int
    decreases pts.len(),
{
    if pts.len() == 0 {
        0
    } else if pts.len() == 1 {
        pts[0].x as int
    } else {
        let m = points_x_min(pts.drop_last());
        if pts.last().x < m {
            pts.last().x as int
        } else {
            m
        }
    }
}

/// Largest x coordinate (0 for no points).
pub open spec fn points_x_max(pts: Seq<Point>) -> int
    decreases pts.len(),
{
    if pts.len() == 0 {
        0
    } else if pts.len() == 1 {
        pts[0].x as int
    } else {
        let m = points_x_max(pts.drop_last());
        if pts.last().x > m {
            pts.last().x as int
        } else {
            m
        }
    }
}

/// Smallest y coordinate (0 for no points).
pub open spec fn points_y_min(pts: Seq<Point>) -> int
    decreases pts.len(),
{
    if pts.len() == 0 {
        0
    } else if pts.len() == 1 {
        pts[0].y as int
    } else {
        let m = points_y_min(pts.drop_last());
        if pts.last().y < m {
            pts.last().y as int
        } else {
            m
        }
    }
}

/// Largest y coordinate (0 for no points).
pub open spec fn points_y_max(pts: Seq<Point>) -> int
    decreases pts.len(),
{
    if pts.len() == 0 {
        0
    } else if pts.len() == 1 {
        pts[0].y as int
    } else {
        let m = points_y_max(pts.drop_last());
        if pts.last().y > m {
            pts.last().y as int
        } else {
            m
        }
    }
}

/// The 8 bounding-box bytes computed from the points themselves.
pub open spec fn computed_bbox_bytes(pts: Seq<Point>) -> Seq<u8> {
    crate::woff2_common::i16_be_bytes(points_x_min(pts)) + crate::woff2_common::i16_be_bytes(
        points_y_min(pts),
    ) + crate::woff2_common::i16_be_bytes(points_x_max(pts)) + crate::woff2_common::i16_be_bytes(
        points_y_max(pts),
    )
}

/// Compute the bounding box of the points and append its four signed
/// 16-bit values (xMin, yMin, xMax, yMax).
pub fn write_bbox(points: &[Point], dst: &mut Vec<u8>)
    requires
        points_in_i16_range(points@),
    ensures
        final(dst)@.len() == old(dst)@.len() + 8,
        old(dst)@.is_prefix_of(final(dst)@),
        final(dst)@ == old(dst)@ + computed_bbox_bytes(points@),
        as_i16(be16(final(dst)@, old(dst)@.len() as int)) == points_x_min(points@),
        as_i16(be16(final(dst)@, old(dst)@.len() as int + 2)) == points_y_min(points@),
        as_i16(be16(final(dst)@, old(dst)@.len() as int + 4)) == points_x_max(points@),
        as_i16(be16(final(dst)@, old(dst)@.len() as int + 6)) == points_y_max(points@),
{
    let mut x_min: i32 = 0;
    let mut y_min: i32 = 0;
    let mut x_max: i32 = 0;
    let mut y_max: i32 = 0;

    let n = points.len();
    if n > 0 {
        x_min = points[0].x;
        x_max = points[0].x;
        y_min = points[0].y;
        y_max = points[0].y;
        proof {
            assert(points@.take(1) =~= seq![points@[0]]);
        }
        let mut i: usize = 1;
        while i < n
            invariant
                points_in_i16_range(points@),
                n == points@.len(),
                1 <= i <= n,
                -0x8000 <= x_min <= 0x7fff,
                -0x8000 <= y_min <= 0x7fff,
                -0x8000 <= x_max <= 0x7fff,
                -0x8000 <= y_max <= 0x7fff,
                x_min == points_x_min(points@.take(i as int)),
                x_max == points_x_max(points@.take(i as int)),
                y_min == points_y_min(points@.take(i as int)),
                y_max == points_y_max(points@.take(i as int)),
            decreases n - i,
        {
            let p = points[i];
            if p.x < x_min {
                x_min = p.x;
            }
            if p.x > x_max {
                x_max = p.x;
            }
            if p.y < y_min {
                y_min = p.y;
            }
            if p.y > y_max {
                y_max = p.y;
            }
            i = i + 1;
            proof {
                assert(points@.take(i as int).drop_last() =~= points@.take(i - 1));
                assert(points@.take(i as int).last() == points@[i - 1]);
            }
        }
        proof {
            assert(points@.take(n as int) =~= points@);
        }
    }

    let ghost start = dst@.len() as int;
    push_i16_be(dst, x_min as i16);
    let ghost s1 = dst@;
    push_i16_be(dst, y_min as i16);
    let ghost s2 = dst@;
    push_i16_be(dst, x_max as i16);
    let ghost s3 = dst@;
    push_i16_be(dst, y_max as i16);
    proof {
        assert(forall|t: int| 0 <= t < s1.len() ==> #[trigger] s2[t] == s1[t]) by {
            assert(s2.subrange(0, s1.len() as int) =~= s1);
        }
        assert(forall|t: int| 0 <= t < s2.len() ==> #[trigger] s3[t] == s2[t]) by {
            assert(s3.subrange(0, s2.len() as int) =~= s2);
        }
        assert(forall|t: int| 0 <= t < s3.len() ==> #[trigger] dst@[t] == s3[t]) by {
            assert(dst@.subrange(0, s3.len() as int) =~= s3);
        }
        assert(be16(dst@, start) == be16(s1, start));
        assert(be16(dst@, start + 2) == be16(s2, start + 2));
        assert(be16(dst@, start + 4) == be16(s3, start + 4));
        assert(old(dst)@.is_prefix_of(dst@)) by {
            assert(dst@.subrange(0, old(dst)@.len() as int) =~= old(dst)@);
        }
        assert(dst@ =~= old(dst)@ + computed_bbox_bytes(points@));
    }
}

/// The flag byte of one point: its on-curve bit, the overlap bit on the
/// first point, and how its deltas will be stored.
pub open spec fn point_flag_of(p: Point, last_x: int, last_y: int, overlap_bit: bool) -> u8 {
    let dx = p.x - last_x;
    let dy = p.y - last_y;
    (((if p.on_curve {
        1int
    } else {
        0int
    }) + (if overlap_bit {
        64int
    } else {
        0int
    }) + (if dx == 0 {
        16int
    } else if -256 < dx < 256 {
        2 + (if dx > 0 {
            16int
        } else {
            0int
        })
    } else {
        0int
    }) + (if dy == 0 {
        32int
    } else if -256 < dy < 256 {
        4 + (if dy > 0 {
            32int
        } else {
            0int
        })
    } else {
        0int
    })) as u8)
}

/// The per-point flag bytes of a glyph, threading the previous point's
/// coordinates; `overlap_bit` marks only the first point.
pub open spec fn point_flags_from(
    points: Seq<Point>,
    last_x: int,
    last_y: int,
    overlap_bit: bool,
) -> Seq<u8>
    decreases points.len(),
{
    if points.len() == 0 {
        seq![]
    } else {
        seq![point_flag_of(points[0], last_x, last_y, overlap_bit)] + point_flags_from(
            points.skip(1),
            points[0].x as int,
            points[0].y as int,
            false,
        )
    }
}

/// One run-length emission: a bare flag, or the flag with the repeat bit
/// plus a count of how often it repeats beyond the first occurrence.
pub open spec fn rle_emit(f: u8, rep: nat) -> Seq<u8> {
    if rep == 0 {
        seq![f]
    } else {
        seq![f | GLYF_REPEAT, rep as u8]
    }
}

/// Run-length encode the remaining flags, holding a pending flag that has
/// repeated `rep` times beyond its first occurrence (255 at most).
pub open spec fn rle_from(flags: Seq<u8>, last: u8, rep: nat) -> Seq<u8>
    decreases flags.len(),
{
    if flags.len() == 0 {
        rle_emit(last, rep)
    } else if flags[0] == last && rep < 255 {
        rle_from(flags.skip(1), last, rep + 1)
    } else {
        rle_emit(last, rep) + rle_from(flags.skip(1), flags[0], 0)
    }
}

/// Run-length encode a flag sequence.
pub open spec fn rle_flags(flags: Seq<u8>) -> Seq<u8> {
    if flags.len() == 0 {
        seq![]
    } else {
        rle_from(flags.skip(1), flags[0], 0)
    }
}

/// How one coordinate delta is stored: nothing when unchanged, its
/// magnitude as one byte when short, else 16 bits of two's complement.
pub open spec fn coord_bytes(d: int) -> Seq<u8> {
    if d == 0 {
        seq![]
    } else if -256 < d < 256 {
        seq![(if d > 0 {
            d
        } else {
            -d
        }) as u8]
    } else {
        let u = d % 0x10000;
        seq![(u / 0x100) as u8, (u % 0x100) as u8]
    }
}

/// The x-coordinate stream of the points, as deltas from `last_x`.
pub open spec fn x_coords_from(points: Seq<Point>, last_x: int) -> Seq<u8>
    decreases points.len(),
{
    if points.len() == 0 {
        seq![]
    } else {
        coord_bytes(points[0].x - last_x) + x_coords_from(points.skip(1), points[0].x as int)
    }
}

/// The y-coordinate stream of the points, as deltas from `last_y`.
pub open spec fn y_coords_from(points: Seq<Point>, last_y: int) -> Seq<u8>
    decreases points.len(),
{
    if points.len() == 0 {
        seq![]
    } else {
        coord_bytes(points[0].y - last_y) + y_coords_from(points.skip(1), points[0].y as int)
    }
}

/// Append one stored coordinate delta.
fn push_coord_bytes(dst: &mut Vec<u8>, d: i32)
    requires
        -0x10000 < d < 0x10000,
    ensures
        final(dst)@ == old(dst)@ + coord_bytes(d as int),
{
    if d == 0 {
        assert(dst@ =~= old(dst)@ + coord_bytes(d as int));
    } else if d > -256 && d < 256 {
        let mag: u8 = if d > 0 {
            d as u8
        } else {
            (-d) as u8
        };
        dst.push(mag);
        assert(dst@ =~= old(dst)@ + coord_bytes(d as int));
    } else {
        // 16 bits of two's complement, as `u = d mod 2^16`.
        let u: u16 = if d >= 0 {
            (d % 0x10000) as u16
        } else {
            (d + 0x10000) as u16
        };
        push_u16_be(dst, u);
        proof {
            assert(u == d as int % 0x10000);
            assert(dst@ =~= old(dst)@ + coord_bytes(d as int));
        }
    }
}

/// Re-encode the decoded points as the standard flag, x and y coordinate
/// streams: the flags run-length compressed, then all x deltas, then all
/// y deltas.
#[verifier::rlimit(100)]
#[verifier::spinoff_prover]
pub fn write_glyph_points(points: &[Point], has_overlap_bit: bool, dst: &mut Vec<u8>) -> (r:
    Result<(), WuffErr>)
    requires
        points_in_i16_range(points@),
    ensures
        r is Ok,
        final(dst)@ == old(dst)@ + rle_flags(point_flags_from(points@, 0, 0, has_overlap_bit))
            + x_coords_from(points@, 0) + y_coords_from(points@, 0),
{
    let n = points.len();
    let ghost fseq = point_flags_from(points@, 0, 0, has_overlap_bit);
    proof {
        assert(fseq.len() == points@.len()) by {
            lemma_point_flags_len(points@, 0, 0, has_overlap_bit);
        }
    }

    // Flags, run-length compressed: hold the previous flag and how often it
    // repeated, and emit it once the next flag differs or the count is full.
    let mut last_flag: u8 = 0;
    let mut repeat_count: u8 = 0;
    let mut last_x: i32 = 0;
    let mut last_y: i32 = 0;
    let mut i: usize = 0;
    while i < n
        invariant
            points_in_i16_range(points@),
            n == points@.len(),
            fseq == point_flags_from(points@, 0, 0, has_overlap_bit),
            fseq.len() == n,
            i <= n,
            i > 0 ==> last_x == points@[i - 1].x && last_y == points@[i - 1].y,
            i == 0 ==> last_x == 0 && last_y == 0 && dst@ == old(dst)@,
            i > 0 ==> rle_flags(fseq) == dst@.skip(old(dst)@.len() as int) + rle_from(
                fseq.skip(i as int),
                last_flag,
                repeat_count as nat,
            ),
            old(dst)@.is_prefix_of(dst@),
        decreases n - i,
    {
        let p = points[i];
        let dx: i32 = p.x - last_x;
        let dy: i32 = p.y - last_y;
        let flag = {
            let mut flag: u8 = 0;
            if p.on_curve {
                flag = flag + GLYF_ON_CURVE;
            }
            if has_overlap_bit && i == 0 {
                flag = flag + OVERLAP_SIMPLE;
            }
            if dx == 0 {
                flag = flag + GLYF_THIS_X_IS_SAME;
            } else if dx > -256 && dx < 256 {
                flag = flag + GLYF_X_SHORT + (if dx > 0 {
                    GLYF_THIS_X_IS_SAME
                } else {
                    0
                });
            }
            if dy == 0 {
                flag = flag + GLYF_THIS_Y_IS_SAME;
            } else if dy > -256 && dy < 256 {
                flag = flag + GLYF_Y_SHORT + (if dy > 0 {
                    GLYF_THIS_Y_IS_SAME
                } else {
                    0
                });
            }
            flag
        };
        proof {
            lemma_point_flags_index(points@, 0, 0, has_overlap_bit, i as int);
            if i == 0 {
                assert(flag == point_flag_of(points@[0], 0, 0, has_overlap_bit));
            } else {
                assert(flag == point_flag_of(
                    points@[i as int],
                    points@[i - 1].x as int,
                    points@[i - 1].y as int,
                    false,
                ));
            }
            assert(flag == fseq[i as int]);
        }

        if i == 0 {
            last_flag = flag;
            repeat_count = 0;
            proof {
                assert(fseq.skip(0).skip(1) =~= fseq.skip(1));
                assert(dst@.skip(old(dst)@.len() as int) =~= Seq::<u8>::empty());
                assert(rle_flags(fseq) == Seq::<u8>::empty() + rle_from(fseq.skip(1), fseq[0], 0));
            }
        } else if flag == last_flag && repeat_count < 255 {
            repeat_count = repeat_count + 1;
            proof {
                assert(fseq.skip(i as int).skip(1) =~= fseq.skip(i + 1));
                assert(rle_from(fseq.skip(i as int), last_flag, (repeat_count - 1) as nat)
                    == rle_from(fseq.skip(i + 1), last_flag, repeat_count as nat));
            }
        } else {
            let ghost before = dst@;
            if repeat_count > 0 {
                dst.push(last_flag | GLYF_REPEAT);
                dst.push(repeat_count);
            } else {
                dst.push(last_flag);
            }
            proof {
                assert(dst@.skip(old(dst)@.len() as int) =~= before.skip(old(dst)@.len() as int)
                    + rle_emit(last_flag, repeat_count as nat));
                assert(old(dst)@.is_prefix_of(dst@)) by {
                    assert(dst@.subrange(0, old(dst)@.len() as int) =~= old(dst)@);
                }
                assert(fseq.skip(i as int).skip(1) =~= fseq.skip(i + 1));
                assert(rle_from(fseq.skip(i as int), last_flag, repeat_count as nat) == rle_emit(
                    last_flag,
                    repeat_count as nat,
                ) + rle_from(fseq.skip(i + 1), flag, 0));
                vstd::seq_lib::lemma_concat_associative(
                    before.skip(old(dst)@.len() as int),
                    rle_emit(last_flag, repeat_count as nat),
                    rle_from(fseq.skip(i + 1), flag, 0),
                );
            }
            last_flag = flag;
            repeat_count = 0;
        }
        last_x = p.x;
        last_y = p.y;
        i = i + 1;
    }
    if n > 0 {
        let ghost before = dst@;
        if repeat_count > 0 {
            dst.push(last_flag | GLYF_REPEAT);
            dst.push(repeat_count);
        } else {
            dst.push(last_flag);
        }
        proof {
            assert(fseq.skip(n as int) =~= Seq::<u8>::empty());
            assert(rle_from(fseq.skip(n as int), last_flag, repeat_count as nat) == rle_emit(
                last_flag,
                repeat_count as nat,
            ));
            assert(dst@.skip(old(dst)@.len() as int) =~= before.skip(old(dst)@.len() as int)
                + rle_emit(last_flag, repeat_count as nat));
            assert(old(dst)@.is_prefix_of(dst@)) by {
                assert(dst@.subrange(0, old(dst)@.len() as int) =~= old(dst)@);
            }
        }
    }
    proof {
        assert(dst@.skip(old(dst)@.len() as int) =~= rle_flags(fseq));
        assert(dst@ =~= old(dst)@ + rle_flags(fseq));
    }
    let ghost after_flags = dst@;
    proof {
        assert(points@.skip(0) =~= points@);
        assert(dst@.skip(after_flags.len() as int) =~= Seq::<u8>::empty());
        assert(Seq::<u8>::empty() + x_coords_from(points@, 0) =~= x_coords_from(points@, 0));
    }

    // X coordinates.
    last_x = 0;
    let mut i: usize = 0;
    while i < n
        invariant
            points_in_i16_range(points@),
            n == points@.len(),
            i <= n,
            i > 0 ==> last_x == points@[i - 1].x,
            i == 0 ==> last_x == 0,
            x_coords_from(points@, 0) == dst@.skip(after_flags.len() as int) + x_coords_from(
                points@.skip(i as int),
                last_x as int,
            ),
            after_flags.is_prefix_of(dst@),
            after_flags == old(dst)@ + rle_flags(fseq),
        decreases n - i,
    {
        let p = points[i];
        let dx: i32 = p.x - last_x;
        let ghost before = dst@;
        push_coord_bytes(dst, dx);
        proof {
            assert(points@.skip(i as int)[0] == points@[i as int]);
            assert(points@.skip(i as int).skip(1) =~= points@.skip(i + 1));
            assert(dst@.skip(after_flags.len() as int) =~= before.skip(after_flags.len() as int)
                + coord_bytes(dx as int));
            vstd::seq_lib::lemma_concat_associative(
                before.skip(after_flags.len() as int),
                coord_bytes(dx as int),
                x_coords_from(points@.skip(i + 1), p.x as int),
            );
            assert(after_flags.is_prefix_of(dst@)) by {
                assert(dst@.subrange(0, after_flags.len() as int) =~= after_flags);
            }
        }
        last_x = p.x;
        i = i + 1;
    }
    proof {
        assert(x_coords_from(points@.skip(n as int), last_x as int) =~= Seq::<u8>::empty());
        assert(dst@.skip(after_flags.len() as int) + Seq::<u8>::empty() =~= dst@.skip(
            after_flags.len() as int,
        ));
        assert(dst@ =~= after_flags + x_coords_from(points@, 0));
    }
    let ghost after_x = dst@;
    proof {
        assert(points@.skip(0) =~= points@);
        assert(dst@.skip(after_x.len() as int) =~= Seq::<u8>::empty());
        assert(Seq::<u8>::empty() + y_coords_from(points@, 0) =~= y_coords_from(points@, 0));
    }

    // Y coordinates.
    last_y = 0;
    let mut i: usize = 0;
    while i < n
        invariant
            points_in_i16_range(points@),
            n == points@.len(),
            i <= n,
            i > 0 ==> last_y == points@[i - 1].y,
            i == 0 ==> last_y == 0,
            y_coords_from(points@, 0) == dst@.skip(after_x.len() as int) + y_coords_from(
                points@.skip(i as int),
                last_y as int,
            ),
            after_x.is_prefix_of(dst@),
            after_x == old(dst)@ + rle_flags(fseq) + x_coords_from(points@, 0),
        decreases n - i,
    {
        let p = points[i];
        let dy: i32 = p.y - last_y;
        let ghost before = dst@;
        push_coord_bytes(dst, dy);
        proof {
            assert(points@.skip(i as int)[0] == points@[i as int]);
            assert(points@.skip(i as int).skip(1) =~= points@.skip(i + 1));
            assert(dst@.skip(after_x.len() as int) =~= before.skip(after_x.len() as int)
                + coord_bytes(dy as int));
            vstd::seq_lib::lemma_concat_associative(
                before.skip(after_x.len() as int),
                coord_bytes(dy as int),
                y_coords_from(points@.skip(i + 1), p.y as int),
            );
            assert(after_x.is_prefix_of(dst@)) by {
                assert(dst@.subrange(0, after_x.len() as int) =~= after_x);
            }
        }
        last_y = p.y;
        i = i + 1;
    }
    proof {
        assert(y_coords_from(points@.skip(n as int), last_y as int) =~= Seq::<u8>::empty());
        assert(dst@.skip(after_x.len() as int) + Seq::<u8>::empty() =~= dst@.skip(
            after_x.len() as int,
        ));
        assert(dst@ =~= after_x + y_coords_from(points@, 0));
    }
    Ok(())
}

/// A glyph's flag sequence has one byte per point.
proof fn lemma_point_flags_len(points: Seq<Point>, last_x: int, last_y: int, overlap_bit: bool)
    ensures
        point_flags_from(points, last_x, last_y, overlap_bit).len() == points.len(),
    decreases points.len(),
{
    if points.len() > 0 {
        lemma_point_flags_len(points.skip(1), points[0].x as int, points[0].y as int, false);
    }
}

/// Each flag byte of a glyph's flag sequence is determined by its point
/// and the point before it.
proof fn lemma_point_flags_index(
    points: Seq<Point>,
    last_x: int,
    last_y: int,
    overlap_bit: bool,
    i: int,
)
    requires
        0 <= i < points.len(),
    ensures
        point_flags_from(points, last_x, last_y, overlap_bit)[i] == (if i == 0 {
            point_flag_of(points[0], last_x, last_y, overlap_bit)
        } else {
            point_flag_of(points[i], points[i - 1].x as int, points[i - 1].y as int, false)
        }),
    decreases i,
{
    let rest = point_flags_from(points.skip(1), points[0].x as int, points[0].y as int, false);
    lemma_point_flags_len(points.skip(1), points[0].x as int, points[0].y as int, false);
    assert(point_flags_from(points, last_x, last_y, overlap_bit) == seq![
        point_flag_of(points[0], last_x, last_y, overlap_bit),
    ] + rest);
    if i > 0 {
        lemma_point_flags_index(
            points.skip(1),
            points[0].x as int,
            points[0].y as int,
            false,
            i - 1,
        );
        assert((seq![point_flag_of(points[0], last_x, last_y, overlap_bit)] + rest)[i] == rest[i
            - 1]);
        assert(points.skip(1)[i - 1] == points[i]);
        if i - 1 > 0 {
            assert(points.skip(1)[i - 2] == points[i - 1]);
        }
    }
}

/// The `j`-th entry of a generated `loca` table, as the glyph offset it
/// denotes (short entries store the offset divided by 2).
pub open spec fn loca_offset_at(loca: Seq<u8>, index_format: u16, j: int) -> int {
    if index_format == 0 {
        2 * be16(loca, 2 * j)
    } else {
        be32(loca, 4 * j)
    }
}

/// Build a `loca` table from the glyph offsets, in the requested index
/// format.  Short format stores `offset / 2` and fails if any offset does
/// not fit 17 bits.
pub fn generate_loca_table(loca_values: &Vec<u32>, index_format: u16) -> (r: Result<
    (Vec<u8>, u32),
    WuffErr,
>)
    ensures
        match r {
            Ok((table, checksum)) => {
                &&& table@.len() == (if index_format == 0 {
                    2int
                } else {
                    4int
                }) * loca_values@.len()
                &&& (index_format != 0 ==> forall|j: int|
                    0 <= j < loca_values@.len() ==> be32(table@, 4 * j)
                        == #[trigger] loca_values@[j])
                &&& (index_format == 0 ==> forall|j: int|
                    0 <= j < loca_values@.len() ==> be16(table@, 2 * j)
                        == (#[trigger] loca_values@[j]) / 2)
                &&& checksum == sum_be32_pad0(table@)
                &&& (index_format == 0 ==> forall|j: int|
                    0 <= j < loca_values@.len() ==> #[trigger] loca_values@[j] < 0x20000)
            },
            Err(_) => index_format == 0 && exists|j: int|
                0 <= j < loca_values@.len() && #[trigger] loca_values@[j] >= 0x20000,
        },
{
    let n = loca_values.len();
    let entry_size: usize = if index_format == 0 {
        2
    } else {
        4
    };
    let mut loca_content: Vec<u8> = Vec::new();
    let mut i: usize = 0;
    while i < n
        invariant
            n == loca_values@.len(),
            i <= n,
            entry_size == (if index_format == 0 {
                2int
            } else {
                4int
            }),
            loca_content@.len() == entry_size * i,
            index_format != 0 ==> forall|j: int|
                0 <= j < i ==> be32(loca_content@, 4 * j) == #[trigger] loca_values@[j],
            index_format == 0 ==> forall|j: int|
                0 <= j < i ==> be16(loca_content@, 2 * j) == (#[trigger] loca_values@[j]) / 2,
            index_format == 0 ==> forall|j: int|
                0 <= j < i ==> #[trigger] loca_values@[j] < 0x20000,
        decreases n - i,
    {
        let ghost before = loca_content@;
        let value = loca_values[i];
        if index_format != 0 {
            push_u32_be(&mut loca_content, value);
        } else {
            if value >= 0x20000 {
                return Err(WuffErr::GenericError);
            }
            push_u16_be(&mut loca_content, (value / 2) as u16);
        }
        i = i + 1;
        proof {
            assert(forall|t: int|
                0 <= t < before.len() ==> #[trigger] loca_content@[t] == before[t]);
        }
    }
    let checksum = crate::woff2_common::compute_checksum(loca_content.as_slice());
    Ok((loca_content, checksum))
}

/// Append zero bytes until the length is a multiple of 4; fails only when
/// that length would not fit `usize`.
pub fn Pad4(out: &mut Vec<u8>) -> (r: bool)
    ensures
        r <==> old(out)@.len() + 3 <= usize::MAX,
        r ==> final(out)@.len() == crate::round4_spec(old(out)@.len() as int) && old(
            out,
        )@.is_prefix_of(final(out)@) && (forall|t: int|
            old(out)@.len() <= t < final(out)@.len() ==> final(out)@[t] == 0),
        !r ==> final(out)@ == old(out)@,
{
    if out.len() > usize::MAX - 3 {
        return false;
    }
    let target = crate::round4(out.len());
    while out.len() < target
        invariant
            out@.len() <= target,
            target == crate::round4_spec(old(out)@.len() as int),
            old(out)@.is_prefix_of(out@),
            forall|t: int| old(out)@.len() <= t < out@.len() ==> out@[t] == 0,
        decreases target - out@.len(),
    {
        out.push(0);
        proof {
            assert(old(out)@.is_prefix_of(out@)) by {
                assert(out@.subrange(0, old(out)@.len() as int) =~= old(out)@);
            }
        }
    }
    true
}

/// `4 * num_chunks(n)` is exactly `n` rounded up to a multiple of 4.
proof fn lemma_round4_chunks(n: int)
    requires
        n >= 0,
    ensures
        4 * crate::woff2_common::num_chunks(n as nat) == crate::round4_spec(n),
{
    let q = n / 4;
    let r = n % 4;
    vstd::arithmetic::div_mod::lemma_fundamental_div_mod(n, 4);
    assert((n + 3) / 4 == q + (r + 3) / 4) by (nonlinear_arith)
        requires n == 4 * q + r, 0 <= r < 4, q == n / 4, r == n % 4;
    assert((4 - r) % 4 == (if r == 0 { 0int } else { 4 - r }));
}

/// Rounding up to 4 commutes with adding a 4-aligned prefix length.
proof fn lemma_round4_shift(a: int, b: int)
    requires
        a % 4 == 0,
        a >= 0,
        b >= 0,
    ensures
        crate::round4_spec(a + b) == a + crate::round4_spec(b),
{
    vstd::arithmetic::div_mod::lemma_add_mod_noop(a, b, 4);
}

/// Decode `count` consecutive 255UInt16 values from the front of `s`:
/// `Some((values, bytes consumed))`.
pub open spec fn spec_255_seq(s: Seq<u8>, count: nat) -> Option<(Seq<int>, int)>
    decreases count,
{
    if count == 0 {
        Some((seq![], 0))
    } else {
        match decode255(s) {
            None => None,
            Some((v, k)) => match spec_255_seq(s.skip(k), (count - 1) as nat) {
                None => None,
                Some((rest, k2)) => Some((seq![v] + rest, k + k2)),
            },
        }
    }
}

/// The sum of a sequence of integers.
pub open spec fn seq_sum(s: Seq<int>) -> int
    decreases s.len(),
{
    if s.len() == 0 {
        0
    } else {
        s[0] + seq_sum(s.skip(1))
    }
}

/// Appending a value adds it to the sum.
proof fn lemma_seq_sum_push(s: Seq<int>, v: int)
    ensures
        seq_sum(s.push(v)) == seq_sum(s) + v,
    decreases s.len(),
{
    if s.len() == 0 {
        assert(s.push(v)[0] == v);
        assert(s.push(v).skip(1) =~= Seq::<int>::empty());
        assert(seq_sum(s.push(v)) == v + seq_sum(Seq::<int>::empty()));
    } else {
        assert(s.push(v)[0] == s[0]);
        assert(s.push(v).skip(1) =~= s.skip(1).push(v));
        lemma_seq_sum_push(s.skip(1), v);
        assert(seq_sum(s.push(v)) == s[0] + seq_sum(s.skip(1).push(v)));
    }
}

/// The end-point-of-contour words: a running point index over the contour
/// point counts, stored big-endian (a still-negative index stores 0xFFFF).
pub open spec fn endpoint_bytes(counts: Seq<int>, last: int) -> Seq<u8>
    decreases counts.len(),
{
    if counts.len() == 0 {
        seq![]
    } else {
        let e = last + counts[0];
        let stored = if e >= 0 {
            e
        } else {
            0xffff
        };
        seq![(stored / 0x100) as u8, (stored % 0x100) as u8] + endpoint_bytes(counts.skip(1), e)
    }
}

/// The re-materialized `glyf` table, the `loca` table derived from it, and
/// the side products that later tables need.
pub struct GlyfAndLocaData {
    /// The number of glyphs in the glyf table.
    pub num_glyphs: u16,
    /// loca index format: 0 is short (offset / 2 as u16), else long.
    pub index_format: u16,
    /// The x_min of each glyph's bounding box (0 for composite and empty
    /// glyphs); used to reconstruct the hmtx table.
    pub x_mins: Vec<i16>,
    /// Encoded OpenType `glyf` table.
    pub glyf_table: Vec<u8>,
    /// Checksum of the `glyf` table.
    pub glyf_checksum: u32,
    /// Encoded OpenType `loca` table.
    pub loca_table: Vec<u8>,
    /// Checksum of the `loca` table.
    pub loca_checksum: u32,
}

/// What reconstruction guarantees of the pair of derived tables: lengths and
/// checksums correct, and the `loca` offsets 4-aligned, non-decreasing,
/// starting at 0 and ending exactly at the `glyf` length.
pub open spec fn glyf_and_loca_valid(d: GlyfAndLocaData) -> bool {
    &&& d.x_mins@.len() == d.num_glyphs
    &&& d.glyf_table@.len() % 4 == 0
    &&& d.glyf_table@.len() <= u32::MAX
    &&& d.glyf_checksum == sum_be32_pad0(d.glyf_table@)
    &&& d.loca_checksum == sum_be32_pad0(d.loca_table@)
    &&& d.loca_table@.len() == (if d.index_format == 0 {
        2int
    } else {
        4int
    }) * (d.num_glyphs + 1)
    &&& loca_offset_at(d.loca_table@, d.index_format, 0) == 0
    &&& loca_offset_at(d.loca_table@, d.index_format, d.num_glyphs as int)
        == d.glyf_table@.len()
    &&& forall|j: int|
        0 <= j <= d.num_glyphs ==> #[trigger] loca_offset_at(d.loca_table@, d.index_format, j) % 4
            == 0
    &&& forall|j: int|
        0 <= j < d.num_glyphs ==> #[trigger] loca_offset_at(d.loca_table@, d.index_format, j)
            <= loca_offset_at(d.loca_table@, d.index_format, j + 1)
}

/// Declared size of substream `i` of a transformed glyf table.
pub open spec fn spec_substream_size(data: Seq<u8>, i: int) -> int {
    be32(data, 8 + 4 * i)
}

/// Where substream `i` begins: after the 36-byte header and the previous
/// substreams.
pub open spec fn spec_substream_start(data: Seq<u8>, i: int) -> int
    decreases i,
{
    if i <= 0 {
        36
    } else {
        spec_substream_start(data, i - 1) + spec_substream_size(data, i - 1)
    }
}

/// Substream starts never precede the fixed header.
proof fn lemma_substream_start_nonneg(data: Seq<u8>, i: int)
    requires
        0 <= i,
    ensures
        spec_substream_start(data, i) >= 36,
    decreases i,
{
    if i > 0 {
        lemma_substream_start_nonneg(data, i - 1);
        assert(spec_substream_size(data, i - 1) >= 0);
    }
}

/// Whether a transformed glyf table carves up: the fixed header is
/// present, every one of the seven substreams lies inside the data, the
/// explicit-bbox bitmap fits at the front of the sixth, and — when the
/// header announces one — the overlap bitmap follows the substreams.
pub open spec fn spec_glyf_streams_ok(data: Seq<u8>) -> bool {
    &&& data.len() >= 36
    &&& forall|i: int|
        0 <= i < 7 ==> #[trigger] spec_substream_start(data, i) + spec_substream_size(data, i)
            <= data.len()
    &&& 4 * ((be16(data, 4) + 31) / 32) <= spec_substream_size(data, 5)
    &&& be16(data, 2) % 2 == 1 ==> spec_substream_start(data, 7) + (be16(data, 4) + 7) / 8
        <= data.len()
}

/// Cursors over the seven substreams of a transformed `glyf` table plus the
/// two per-glyph bitmaps.
pub struct GlyfDecoder<'a> {
    n_contour_stream: Buffer<'a>,
    n_points_stream: Buffer<'a>,
    flag_stream: Buffer<'a>,
    glyph_stream: Buffer<'a>,
    composite_stream: Buffer<'a>,
    bbox_bitmap: &'a [u8],
    bbox_stream: Buffer<'a>,
    instruction_stream: Buffer<'a>,
    overlap_bitmap: Option<&'a [u8]>,
    num_glyphs: u16,
    index_format: u16,
}

impl<'a> GlyfDecoder<'a> {
    /// The glyph count read from the transformed-glyf header.
    pub closed spec fn spec_num_glyphs(&self) -> u16 {
        self.num_glyphs
    }

    /// The loca index format read from the transformed-glyf header.
    pub closed spec fn spec_index_format(&self) -> u16 {
        self.index_format
    }

    /// All stream cursors are in bounds and the bitmaps cover every glyph.
    pub closed spec fn wf(&self) -> bool {
        &&& self.n_contour_stream.wf()
        &&& self.n_points_stream.wf()
        &&& self.flag_stream.wf()
        &&& self.glyph_stream.wf()
        &&& self.composite_stream.wf()
        &&& self.bbox_stream.wf()
        &&& self.instruction_stream.wf()
        &&& self.bbox_bitmap@.len() == 4 * ((self.num_glyphs + 31) / 32)
        &&& match self.overlap_bitmap {
            Some(b) => b@.len() == (self.num_glyphs + 7) / 8,
            None => true,
        }
    }

    /// Parse the transformed-glyf header and carve out the seven substreams
    /// and the optional overlap bitmap.
    pub fn new(data: &'a [u8]) -> (r: Result<GlyfDecoder<'a>, WuffErr>)
        ensures
            match r {
                Ok(d) => spec_glyf_streams_ok(data@) && d.wf() && d.spec_num_glyphs() == be16(
                    data@,
                    4,
                ) && d.spec_index_format() == be16(data@, 6),
                Err(_) => !spec_glyf_streams_ok(data@),
            },
    {
        let mut header = Buffer::new(data);
        let mut reserved: u16 = 0;
        let mut flags: u16 = 0;
        let mut num_glyphs: u16 = 0;
        let mut index_format: u16 = 0;
        if !header.ReadU16(&mut reserved) {
            return Err(WuffErr::GenericError);
        }
        if !header.ReadU16(&mut flags) {
            return Err(WuffErr::GenericError);
        }
        // Bit 0 of the flags: an overlap-simple bitmap follows the streams.
        let has_overlap_bitmap: bool = flags % 2 == 1;
        if !header.ReadU16(&mut num_glyphs) {
            return Err(WuffErr::GenericError);
        }
        if !header.ReadU16(&mut index_format) {
            return Err(WuffErr::GenericError);
        }

        // Fixed header: 2 + 7 words of 4 bytes.
        let mut offset: usize = 36;
        if offset > data.len() {
            return Err(WuffErr::GenericError);
        }

        let mut substreams: Vec<Buffer<'a>> = Vec::new();
        let mut k: usize = 0;
        while k < 7
            invariant
                data@.len() >= 36,
                header.wf(),
                header.buffer@ == data@,
                header.offset == 8 + 4 * k,
                k <= 7,
                offset == spec_substream_start(data@, k as int),
                offset <= data@.len(),
                substreams@.len() == k,
                forall|j: int| 0 <= j < k ==> (#[trigger] substreams@[j]).wf(),
                forall|j: int|
                    0 <= j < k ==> #[trigger] spec_substream_start(data@, j)
                        + spec_substream_size(data@, j) <= data@.len(),
                forall|j: int|
                    0 <= j < k ==> (#[trigger] substreams@[j]).buffer@ == data@.subrange(
                        spec_substream_start(data@, j),
                        spec_substream_start(data@, j) + spec_substream_size(data@, j),
                    ),
            decreases 7 - k,
        {
            let mut substream_size: u32 = 0;
            if !header.ReadU32(&mut substream_size) {
                return Err(WuffErr::GenericError);
            }
            assert(substream_size == spec_substream_size(data@, k as int));
            if substream_size as usize > data.len() - offset {
                proof {
                    assert(spec_substream_start(data@, k as int) + spec_substream_size(
                        data@,
                        k as int,
                    ) > data@.len());
                }
                return Err(WuffErr::GenericError);
            }
            let sub = vstd::slice::slice_subrange(data, offset, offset + substream_size as usize);
            substreams.push(Buffer::new(sub));
            offset = offset + substream_size as usize;
            k = k + 1;
        }

        // The bbox substream opens with the explicit-bbox bitmap.
        let bitmap_length: usize = 4 * ((num_glyphs as usize + 31) / 32);
        let sub5 = substreams[5].buffer;
        proof {
            lemma_substream_start_nonneg(data@, 5);
            assert(sub5@ == data@.subrange(
                spec_substream_start(data@, 5),
                spec_substream_start(data@, 5) + spec_substream_size(data@, 5),
            ));
            assert(sub5@.len() == spec_substream_size(data@, 5));
            assert(num_glyphs == be16(data@, 4));
        }
        if bitmap_length > sub5.len() {
            return Err(WuffErr::GenericError);
        }
        let bbox_bitmap = vstd::slice::slice_subrange(sub5, 0, bitmap_length);
        let bbox_stream = Buffer::new(
            vstd::slice::slice_subrange(sub5, bitmap_length, sub5.len()),
        );

        let mut overlap_bitmap: Option<&'a [u8]> = None;
        if has_overlap_bitmap {
            let overlap_bitmap_length = (num_glyphs as usize + 7) / 8;
            if overlap_bitmap_length > data.len() - offset {
                return Err(WuffErr::GenericError);
            }
            overlap_bitmap = Some(
                vstd::slice::slice_subrange(data, offset, offset + overlap_bitmap_length),
            );
        }
        proof {
            assert(spec_glyf_streams_ok(data@));
        }

        Ok(
            GlyfDecoder {
                n_contour_stream: substreams[0],
                n_points_stream: substreams[1],
                flag_stream: substreams[2],
                glyph_stream: substreams[3],
                composite_stream: substreams[4],
                bbox_bitmap,
                bbox_stream,
                instruction_stream: substreams[6],
                overlap_bitmap,
                num_glyphs,
                index_format,
            },
        )
    }

    /// Copy one composite glyph: its bounding box, its component records
    /// verbatim, and its instructions if any component announces them.
    fn parse_composite_glyph(&mut self, glyph_buf: &mut Vec<u8>) -> (r: Result<(), WuffErr>)
        requires
            old(self).wf(),
        ensures
            final(self).wf(),
            final(self).num_glyphs == old(self).num_glyphs,
            final(self).index_format == old(self).index_format,
            final(self).bbox_bitmap == old(self).bbox_bitmap,
            final(self).overlap_bitmap == old(self).overlap_bitmap,
            old(glyph_buf)@.is_prefix_of(final(glyph_buf)@),
            r is Ok ==> {
                let crem = old(self).composite_stream.buffer@.skip(
                    old(self).composite_stream.offset as int,
                );
                let grem = old(self).glyph_stream.buffer@.skip(
                    old(self).glyph_stream.offset as int,
                );
                let brem = old(self).bbox_stream.buffer@.skip(old(self).bbox_stream.offset as int);
                let irem = old(self).instruction_stream.buffer@.skip(
                    old(self).instruction_stream.offset as int,
                );
                &&& spec_composite_size(crem) is Some
                &&& {
                    let (csize, wi) = spec_composite_size(crem)->Some_0;
                    if wi {
                        decode255(grem) matches Some((isize, _))
                            && final(glyph_buf)@ == old(glyph_buf)@ + seq![0xFFu8, 0xFFu8]
                            + brem.take(8) + crem.take(csize) + crate::woff2_common::i16_be_bytes(
                            isize,
                        ) + irem.take(isize)
                    } else {
                        final(glyph_buf)@ == old(glyph_buf)@ + seq![0xFFu8, 0xFFu8] + brem.take(8)
                            + crem.take(csize)
                    }
                }
            },
    {
        let ghost crem = old(self).composite_stream.buffer@.skip(
            old(self).composite_stream.offset as int,
        );
        let ghost grem = old(self).glyph_stream.buffer@.skip(old(self).glyph_stream.offset as int);
        let ghost brem = old(self).bbox_stream.buffer@.skip(old(self).bbox_stream.offset as int);
        let ghost irem = old(self).instruction_stream.buffer@.skip(
            old(self).instruction_stream.offset as int,
        );

        // Measure the component records on a lookahead copy so the real
        // cursor can copy them verbatim afterwards.
        let mut ro_composite_stream = self.composite_stream;
        let (composite_size, have_instructions) = match compute_size_of_composite(
            &mut ro_composite_stream,
        ) {
            Ok(v) => v,
            Err(e) => {
                return Err(e);
            },
        };

        let instruction_size: u16 = if have_instructions {
            match Read255UShort(&mut self.glyph_stream) {
                Ok(v) => v,
                Err(e) => {
                    return Err(e);
                },
            }
        } else {
            0
        };

        // All composite glyphs have n_contours == -1.
        push_i16_be(glyph_buf, -1i16);
        let ghost s1 = glyph_buf@;
        proof {
            assert(old(glyph_buf)@.is_prefix_of(glyph_buf@));
            assert(crate::woff2_common::i16_be_bytes(-1) =~= seq![0xFFu8, 0xFFu8]);
            assert(s1 =~= old(glyph_buf)@ + seq![0xFFu8, 0xFFu8]);
        }

        if let Err(e) = self.bbox_stream.read_bytes_into(8, glyph_buf) {
            return Err(e);
        }
        let ghost s2 = glyph_buf@;
        proof {
            assert(brem.take(8) =~= old(self).bbox_stream.buffer@.subrange(
                old(self).bbox_stream.offset as int,
                old(self).bbox_stream.offset + 8,
            ));
            assert(s2 =~= s1 + brem.take(8));
        }
        if let Err(e) = self.composite_stream.read_bytes_into(composite_size, glyph_buf) {
            return Err(e);
        }
        let ghost s3 = glyph_buf@;
        proof {
            assert(crem.take(composite_size as int)
                =~= old(self).composite_stream.buffer@.subrange(
                old(self).composite_stream.offset as int,
                old(self).composite_stream.offset + composite_size,
            ));
            assert(s3 =~= s2 + crem.take(composite_size as int));
        }
        if have_instructions {
            push_u16_be(glyph_buf, instruction_size);
            let ghost s4 = glyph_buf@;
            proof {
                assert(crate::woff2_common::i16_be_bytes(instruction_size as int) =~= seq![
                    (instruction_size / 0x100) as u8,
                    (instruction_size % 0x100) as u8,
                ]);
                assert(s4 =~= s3 + crate::woff2_common::i16_be_bytes(instruction_size as int));
            }
            if let Err(e) = self.instruction_stream.read_bytes_into(
                instruction_size as usize,
                glyph_buf,
            ) {
                return Err(e);
            }
            proof {
                assert(irem.take(instruction_size as int)
                    =~= old(self).instruction_stream.buffer@.subrange(
                    old(self).instruction_stream.offset as int,
                    old(self).instruction_stream.offset + instruction_size,
                ));
                assert(glyph_buf@ =~= s4 + irem.take(instruction_size as int));
                assert(glyph_buf@ =~= old(glyph_buf)@ + seq![0xFFu8, 0xFFu8] + brem.take(8)
                    + crem.take(composite_size as int) + crate::woff2_common::i16_be_bytes(
                    instruction_size as int,
                ) + irem.take(instruction_size as int));
            }
        } else {
            proof {
                assert(glyph_buf@ =~= old(glyph_buf)@ + seq![0xFFu8, 0xFFu8] + brem.take(8)
                    + crem.take(composite_size as int));
            }
        }
        proof {
            assert(old(glyph_buf)@.is_prefix_of(glyph_buf@)) by {
                assert(glyph_buf@.subrange(0, old(glyph_buf)@.len() as int) =~= old(glyph_buf)@);
            }
        }
        Ok(())
    }

    /// Decode one simple glyph: contour end points, instructions, and the
    /// triplet-coded outline points, re-encoded in the standard format.
    #[verifier::loop_isolation(false)]
    #[verifier::rlimit(100)]
    #[verifier::spinoff_prover]
    fn parse_simple_glyph(
        &mut self,
        n_contours: i16,
        glyph_has_bbox: bool,
        has_overlap_bit: bool,
        glyph_buf: &mut Vec<u8>,
    ) -> (r: Result<(), WuffErr>)
        requires
            old(self).wf(),
            n_contours > 0,
        ensures
            final(self).wf(),
            final(self).num_glyphs == old(self).num_glyphs,
            final(self).index_format == old(self).index_format,
            final(self).bbox_bitmap == old(self).bbox_bitmap,
            final(self).overlap_bitmap == old(self).overlap_bitmap,
            old(glyph_buf)@.is_prefix_of(final(glyph_buf)@),
            r is Ok ==> final(glyph_buf)@.len() >= old(glyph_buf)@.len() + 10,
            r is Ok ==> {
                let nps_rem = old(self).n_points_stream.buffer@.skip(
                    old(self).n_points_stream.offset as int,
                );
                let frem = old(self).flag_stream.buffer@.skip(old(self).flag_stream.offset as int);
                let grem = old(self).glyph_stream.buffer@.skip(
                    old(self).glyph_stream.offset as int,
                );
                let brem = old(self).bbox_stream.buffer@.skip(old(self).bbox_stream.offset as int);
                let irem = old(self).instruction_stream.buffer@.skip(
                    old(self).instruction_stream.offset as int,
                );
                &&& spec_255_seq(nps_rem, n_contours as nat) is Some
                &&& {
                    let (counts, nk) = spec_255_seq(nps_rem, n_contours as nat)->Some_0;
                    let total = seq_sum(counts);
                    &&& 0 <= total <= frem.len()
                    &&& total < 0x8000000
                    &&& forall|c: int|
                        0 <= c <= counts.len() ==> seq_sum(#[trigger] counts.take(c)) - 1 < 0x10000
                    &&& spec_triplets(frem.take(total), grem, 0, 0, 0) is Some
                    &&& {
                        let (pts, consumed) = spec_triplets(frem.take(total), grem, 0, 0, 0)->Some_0;
                        &&& decode255(grem.skip(consumed)) is Some
                        &&& {
                            let (instr_len, ik) = decode255(grem.skip(consumed))->Some_0;
                            final(glyph_buf)@ == old(glyph_buf)@
                                + crate::woff2_common::i16_be_bytes(n_contours as int) + (
                            if glyph_has_bbox {
                                brem.take(8)
                            } else {
                                computed_bbox_bytes(pts)
                            }) + endpoint_bytes(counts, -1) + crate::woff2_common::i16_be_bytes(
                                instr_len,
                            ) + irem.take(instr_len) + rle_flags(
                                point_flags_from(pts, 0, 0, has_overlap_bit),
                            ) + x_coords_from(pts, 0) + y_coords_from(pts, 0)
                        }
                    }
                }
            },
    {
        let n_contours_us = n_contours as usize;
        let ghost nps_rem = self.n_points_stream.buffer@.skip(self.n_points_stream.offset as int);
        let ghost frem = self.flag_stream.buffer@.skip(self.flag_stream.offset as int);
        let ghost grem = self.glyph_stream.buffer@.skip(self.glyph_stream.offset as int);
        let ghost brem = self.bbox_stream.buffer@.skip(self.bbox_stream.offset as int);
        let ghost irem = self.instruction_stream.buffer@.skip(
            self.instruction_stream.offset as int,
        );
        let ghost nps_off0 = self.n_points_stream.offset as int;

        // Per-contour point counts; their sum is the glyph's point total.
        let mut n_points_vec: Vec<u16> = Vec::new();
        let mut total_n_points: u32 = 0;
        let ghost mut counts: Seq<int> = Seq::empty();
        proof {
            assert(counts + spec_255_seq(nps_rem, n_contours_us as nat)->Some_0.0
                =~= spec_255_seq(nps_rem, n_contours_us as nat)->Some_0.0);
        }
        let mut c: usize = 0;
        while c < n_contours_us
            invariant
                self.wf(),
                self.num_glyphs == old(self).num_glyphs,
                self.index_format == old(self).index_format,
                self.bbox_bitmap == old(self).bbox_bitmap,
                self.overlap_bitmap == old(self).overlap_bitmap,
                self.n_points_stream.buffer == old(self).n_points_stream.buffer,
                self.flag_stream == old(self).flag_stream,
                self.glyph_stream == old(self).glyph_stream,
                self.bbox_stream == old(self).bbox_stream,
                self.composite_stream == old(self).composite_stream,
                self.instruction_stream == old(self).instruction_stream,
                nps_off0 <= self.n_points_stream.offset,
                glyph_buf@ == old(glyph_buf)@,
                c <= n_contours_us,
                counts.len() == c,
                n_points_vec@.len() == c,
                forall|j: int| 0 <= j < c ==> #[trigger] counts[j] == n_points_vec@[j],
                forall|j: int| 0 <= j < c ==> 0 <= #[trigger] counts[j] < 65536,
                total_n_points == seq_sum(counts),
                spec_255_seq(nps_rem, n_contours_us as nat) == (match spec_255_seq(
                    self.n_points_stream.buffer@.skip(self.n_points_stream.offset as int),
                    (n_contours_us - c) as nat,
                ) {
                    None => None::<(Seq<int>, int)>,
                    Some((rest, k)) => Some(
                        (counts + rest, self.n_points_stream.offset - nps_off0 + k),
                    ),
                }),
            decreases n_contours_us - c,
        {
            let ghost cur_rem = self.n_points_stream.buffer@.skip(
                self.n_points_stream.offset as int,
            );
            let ghost counts_before = counts;
            let n_points_contour = match Read255UShort(&mut self.n_points_stream) {
                Ok(v) => v,
                Err(e) => {
                    return Err(e);
                },
            };
            n_points_vec.push(n_points_contour);
            total_n_points = match total_n_points.checked_add(n_points_contour as u32) {
                Some(v) => v,
                None => {
                    return Err(WuffErr::GenericError);
                },
            };
            proof {
                counts = counts.push(n_points_contour as int);
                lemma_seq_sum_push(counts_before, n_points_contour as int);
                let (v0, k0) = decode255(cur_rem)->Some_0;
                assert(self.n_points_stream.buffer@.skip(self.n_points_stream.offset as int)
                    =~= cur_rem.skip(k0));
                match spec_255_seq(
                    self.n_points_stream.buffer@.skip(self.n_points_stream.offset as int),
                    (n_contours_us - c - 1) as nat,
                ) {
                    None => {},
                    Some((rest, k)) => {
                        assert(counts_before + (seq![v0] + rest) =~= counts + rest);
                    },
                }
            }
            c = c + 1;
        }
        proof {
            assert(spec_255_seq(
                self.n_points_stream.buffer@.skip(self.n_points_stream.offset as int),
                0,
            ) == Some((Seq::<int>::empty(), 0int)));
            assert(counts + Seq::<int>::empty() =~= counts);
            assert(spec_255_seq(nps_rem, n_contours_us as nat) matches Some((cs, _)) && cs
                == counts);
            assert(total_n_points == seq_sum(counts));
        }

        let flag_size = total_n_points as usize;
        let flag_rem = self.flag_stream.len() - self.flag_stream.offset();
        if flag_size > flag_rem {
            return Err(WuffErr::GenericError);
        }

        let flags_all = self.flag_stream.remaining_as_slice();
        let flags_buf = vstd::slice::slice_subrange(flags_all, 0, flag_size);
        let triplet_buf = self.glyph_stream.remaining_as_slice();
        proof {
            assert(flags_buf@ =~= frem.take(flag_size as int));
            assert(triplet_buf@ =~= grem);
        }

        let mut points: Vec<Point> = Vec::new();
        let triplet_bytes_consumed = match decode_triplet(flags_buf, triplet_buf, &mut points) {
            Ok(v) => v,
            Err(e) => {
                return Err(e);
            },
        };
        proof {
            assert(points@ =~= spec_triplets(frem.take(flag_size as int), grem, 0, 0, 0)
                ->Some_0.0);
        }

        if !self.flag_stream.Skip(flag_size) {
            return Err(WuffErr::GenericError);
        }
        if !self.glyph_stream.Skip(triplet_bytes_consumed) {
            return Err(WuffErr::GenericError);
        }

        proof {
            assert(self.glyph_stream.buffer@.skip(self.glyph_stream.offset as int) =~= grem.skip(
                triplet_bytes_consumed as int,
            ));
        }
        let instruction_size = match Read255UShort(&mut self.glyph_stream) {
            Ok(v) => v,
            Err(e) => {
                return Err(e);
            },
        };
        if total_n_points >= 0x8000000 || (instruction_size as u32) >= 0x40000000 {
            return Err(WuffErr::GenericError);
        }

        // The on-disk form is signed 16-bit; reject coordinates outside it.
        let mut pi: usize = 0;
        while pi < points.len()
            invariant
                pi <= points@.len(),
                forall|j: int|
                    0 <= j < pi ==> -0x8000 <= (#[trigger] points@[j]).x <= 0x7fff && -0x8000
                        <= points@[j].y <= 0x7fff,
            decreases points@.len() - pi,
        {
            let p = points[pi];
            if p.x < -0x8000 || p.x > 0x7fff || p.y < -0x8000 || p.y > 0x7fff {
                return Err(WuffErr::GenericError);
            }
            pi = pi + 1;
        }
        assert(points_in_i16_range(points@));

        let ghost s0 = glyph_buf@;
        push_u16_be(glyph_buf, n_contours as u16);
        let ghost s1 = glyph_buf@;
        proof {
            assert(crate::woff2_common::i16_be_bytes(n_contours as int) =~= seq![
                ((n_contours as u16) / 0x100) as u8,
                ((n_contours as u16) % 0x100) as u8,
            ]);
            assert(s1 =~= s0 + crate::woff2_common::i16_be_bytes(n_contours as int));
            assert(old(glyph_buf)@.is_prefix_of(glyph_buf@));
        }

        if glyph_has_bbox {
            if let Err(e) = self.bbox_stream.read_bytes_into(8, glyph_buf) {
                return Err(e);
            }
            proof {
                assert(brem.take(8) =~= old(self).bbox_stream.buffer@.subrange(
                    old(self).bbox_stream.offset as int,
                    old(self).bbox_stream.offset + 8,
                ));
                assert(glyph_buf@ =~= s1 + brem.take(8));
            }
        } else {
            write_bbox(points.as_slice(), glyph_buf);
        }
        let ghost s2 = glyph_buf@;
        proof {
            assert(old(glyph_buf)@.is_prefix_of(glyph_buf@)) by {
                assert(glyph_buf@.subrange(0, old(glyph_buf)@.len() as int) =~= old(glyph_buf)@);
            }
            assert(endpoint_bytes(counts.skip(0), -1) == endpoint_bytes(counts, -1)) by {
                assert(counts.skip(0) =~= counts);
            }
            assert(counts.take(0) =~= Seq::<int>::empty());
            assert(glyph_buf@.skip(s2.len() as int) =~= Seq::<u8>::empty());
        }

        // End-point-of-contour values: running point index per contour.
        let mut end_point: i32 = -1;
        let mut c: usize = 0;
        while c < n_points_vec.len()
            invariant
                self.wf(),
                self.num_glyphs == old(self).num_glyphs,
                self.index_format == old(self).index_format,
                self.bbox_bitmap == old(self).bbox_bitmap,
                self.overlap_bitmap == old(self).overlap_bitmap,
                old(glyph_buf)@.is_prefix_of(glyph_buf@),
                glyph_buf@.len() >= old(glyph_buf)@.len() + 10,
                c <= n_points_vec@.len(),
                -1 <= end_point < 65536,
                end_point == seq_sum(counts.take(c as int)) - 1,
                forall|cc: int|
                    0 <= cc <= c ==> seq_sum(#[trigger] counts.take(cc)) - 1 < 0x10000,
                s2.is_prefix_of(glyph_buf@),
                endpoint_bytes(counts, -1) == glyph_buf@.skip(s2.len() as int) + endpoint_bytes(
                    counts.skip(c as int),
                    end_point as int,
                ),
            decreases n_points_vec@.len() - c,
        {
            let ghost before = glyph_buf@;
            let countour = n_points_vec[c];
            end_point = end_point + countour as i32;
            proof {
                assert(counts.take(c + 1) =~= counts.take(c as int).push(counts[c as int]));
                lemma_seq_sum_push(counts.take(c as int), counts[c as int]);
            }
            if end_point >= 65536 {
                return Err(WuffErr::GenericError);
            }
            if end_point >= 0 {
                push_u16_be(glyph_buf, end_point as u16);
            } else {
                push_u16_be(glyph_buf, 0xffff);
            }
            proof {
                assert(old(glyph_buf)@.is_prefix_of(glyph_buf@)) by {
                    assert(glyph_buf@.subrange(0, old(glyph_buf)@.len() as int) =~= old(
                        glyph_buf,
                    )@);
                }
                assert(s2.is_prefix_of(glyph_buf@)) by {
                    assert(glyph_buf@.subrange(0, s2.len() as int) =~= s2);
                }
                let e = end_point as int;
                let stored: int = if e >= 0 {
                    e
                } else {
                    0xffff
                };
                assert(counts.skip(c as int)[0] == countour as int);
                assert(counts.skip(c as int).skip(1) =~= counts.skip(c + 1));
                assert(glyph_buf@.skip(s2.len() as int) =~= before.skip(s2.len() as int) + seq![
                    (stored / 0x100) as u8,
                    (stored % 0x100) as u8,
                ]);
                vstd::seq_lib::lemma_concat_associative(
                    before.skip(s2.len() as int),
                    seq![(stored / 0x100) as u8, (stored % 0x100) as u8],
                    endpoint_bytes(counts.skip(c + 1), e),
                );
            }
            c = c + 1;
        }
        proof {
            assert(counts.skip(n_points_vec@.len() as int) =~= Seq::<int>::empty());
            assert(glyph_buf@.skip(s2.len() as int) + Seq::<u8>::empty() =~= glyph_buf@.skip(
                s2.len() as int,
            ));
            assert(glyph_buf@ =~= s2 + endpoint_bytes(counts, -1));
            assert(counts.take(counts.len() as int) =~= counts);
        }
        let ghost s3 = glyph_buf@;

        push_u16_be(glyph_buf, instruction_size);
        let ghost s4 = glyph_buf@;
        proof {
            assert(crate::woff2_common::i16_be_bytes(instruction_size as int) =~= seq![
                (instruction_size / 0x100) as u8,
                (instruction_size % 0x100) as u8,
            ]);
            assert(s4 =~= s3 + crate::woff2_common::i16_be_bytes(instruction_size as int));
        }
        if let Err(e) = self.instruction_stream.read_bytes_into(
            instruction_size as usize,
            glyph_buf,
        ) {
            return Err(e);
        }
        let ghost s5 = glyph_buf@;
        proof {
            assert(irem.take(instruction_size as int)
                =~= old(self).instruction_stream.buffer@.subrange(
                old(self).instruction_stream.offset as int,
                old(self).instruction_stream.offset + instruction_size,
            ));
            assert(s5 =~= s4 + irem.take(instruction_size as int));
        }

        if let Err(e) = write_glyph_points(points.as_slice(), has_overlap_bit, glyph_buf) {
            return Err(e);
        }
        proof {
            assert(old(glyph_buf)@.is_prefix_of(glyph_buf@)) by {
                assert(glyph_buf@.subrange(0, old(glyph_buf)@.len() as int) =~= old(glyph_buf)@);
            }
            assert(glyph_buf@.len() >= old(glyph_buf)@.len() + 10);
        }
        Ok(())
    }

    /// Re-materialize the whole `glyf` table glyph by glyph, deriving the
    /// `loca` table and per-glyph x_min values along the way.
    #[verifier::rlimit(100)]
    #[verifier::spinoff_prover]
    pub fn transform(self) -> (r: Result<GlyfAndLocaData, WuffErr>)
        requires
            self.wf(),
        ensures
            match r {
                Ok(d) => glyf_and_loca_valid(d) && d.num_glyphs == self.spec_num_glyphs()
                    && d.index_format == self.spec_index_format(),
                Err(_) => true,
            },
    {
        let mut this = self;

        let num_glyphs = this.num_glyphs;
        let index_format = this.index_format;
        let mut glyf_checksum: u32 = 0;
        let mut glyf_table: Vec<u8> = Vec::new();
        let mut loca_values: Vec<u32> = Vec::new();
        let mut x_mins: Vec<i16> = Vec::new();
        let mut glyph_buf: Vec<u8> = Vec::new();

        let mut i: usize = 0;
        while i < num_glyphs as usize
            invariant
                this.wf(),
                this.num_glyphs == num_glyphs,
                this.index_format == index_format,
                i <= num_glyphs as usize,
                loca_values@.len() == i,
                x_mins@.len() == i,
                glyf_table@.len() % 4 == 0,
                glyf_table@.len() <= u32::MAX,
                glyf_checksum == sum_be32_pad0(glyf_table@),
                i == 0 ==> glyf_table@.len() == 0,
                0 < i ==> loca_values@[0] == 0,
                forall|j: int| 0 <= j < i ==> #[trigger] loca_values@[j] % 4 == 0,
                forall|j: int| 0 <= j < i ==> #[trigger] loca_values@[j] <= glyf_table@.len(),
                forall|a: int, b: int|
                    0 <= a <= b < i ==> loca_values@[a] <= loca_values@[b],
            decreases num_glyphs as int - i,
        {
            loca_values.push(glyf_table.len() as u32);

            let mut n_contours: i16 = 0;
            if !this.n_contour_stream.ReadS16(&mut n_contours) {
                return Err(WuffErr::GenericError);
            }

            // The glyph's bit in the explicit-bbox bitmap (bit 0 of a byte
            // is its highest bit).
            proof {
                let n = num_glyphs as int;
                let q = (n + 31) / 32;
                vstd::arithmetic::div_mod::lemma_fundamental_div_mod(n + 31, 32);
                assert(32 * q >= n);
                assert(8 * ((i as int) / 8) <= i);
                vstd::arithmetic::div_mod::lemma_fundamental_div_mod(i as int, 8);
                assert((i as int) / 8 < 4 * q);
            }
            let glyph_has_bbox: bool = (this.bbox_bitmap[i / 8] & (0x80u8 >> ((i % 8)
                as u32))) != 0;

            glyph_buf.clear();
            if n_contours == -1 {
                // Composite glyphs must carry an explicit bounding box.
                if !glyph_has_bbox {
                    return Err(WuffErr::GenericError);
                }
                if let Err(e) = this.parse_composite_glyph(&mut glyph_buf) {
                    return Err(e);
                }
            } else if n_contours > 0 {
                let has_overlap_bit: bool = match this.overlap_bitmap {
                    Some(bitmap) => {
                        proof {
                            let n = num_glyphs as int;
                            let q = (n + 7) / 8;
                            vstd::arithmetic::div_mod::lemma_fundamental_div_mod(n + 7, 8);
                            assert(8 * q >= n);
                            vstd::arithmetic::div_mod::lemma_fundamental_div_mod(i as int, 8);
                            assert((i as int) / 8 < q);
                        }
                        (bitmap[i / 8] & (0x80u8 >> ((i % 8) as u32))) != 0
                    },
                    None => false,
                };
                if let Err(e) = this.parse_simple_glyph(
                    n_contours,
                    glyph_has_bbox,
                    has_overlap_bit,
                    &mut glyph_buf,
                ) {
                    return Err(e);
                }
            } else {
                // Empty glyph: must not carry a bounding box.
                if glyph_has_bbox {
                    return Err(WuffErr::GenericError);
                }
            }

            let glyph_checksum = crate::woff2_common::compute_checksum(glyph_buf.as_slice());
            glyf_checksum = glyf_checksum.wrapping_add(glyph_checksum);

            // Append the glyph, 4-byte padded, and account for it in the
            // running checksum.
            let ghost table_before = glyf_table@;
            let ghost glyph = glyph_buf@;
            glyf_table.extend_from_slice(glyph_buf.as_slice());
            if !Pad4(&mut glyf_table) {
                return Err(WuffErr::GenericError);
            }
            if glyf_table.len() as u64 > u32::MAX as u64 {
                return Err(WuffErr::GenericError);
            }
            proof {
                let mid = table_before + glyph;
                assert(mid.is_prefix_of(glyf_table@));
                assert(forall|t: int| 0 <= t < mid.len() ==> #[trigger] glyf_table@[t] == mid[t])
                    by {
                    assert(glyf_table@.subrange(0, mid.len() as int) =~= mid);
                }
                assert(glyf_table@.len() >= mid.len());
                let padded = glyf_table@.skip(table_before.len() as int);
                assert(glyf_table@ =~= table_before + padded);
                lemma_round4_shift(table_before.len() as int, glyph.len() as int);
                lemma_round4_chunks(glyph.len() as int);
                assert(padded.len() == crate::round4_spec(glyph.len() as int));
                assert(forall|t: int| 0 <= t < glyph.len() ==> #[trigger] padded[t] == glyph[t]);
                assert(forall|t: int|
                    glyph.len() <= t < padded.len() ==> #[trigger] padded[t] == 0);
                crate::woff2_common::lemma_checksum_pad(glyph, padded);
                crate::woff2_common::lemma_checksum_concat(table_before, padded);
                assert(glyf_table@.len() % 4 == 0) by {
                    lemma_round4_chunks(table_before.len() + glyph.len() as int);
                }
            }

            // The x_min of a simple glyph sits at bytes 2..4 of its record;
            // composite and empty glyphs contribute 0.
            if n_contours > 0 {
                let b2 = glyph_buf[2];
                let b3 = glyph_buf[3];
                let un: u16 = (b2 as u16) * 0x100 + (b3 as u16);
                let x_min: i16 = if un < 0x8000 {
                    un as i16
                } else {
                    ((un as i32) - 0x10000) as i16
                };
                x_mins.push(x_min);
            } else {
                x_mins.push(0);
            }

            i = i + 1;
        }

        // The final loca entry is the total glyf length.
        loca_values.push(glyf_table.len() as u32);

        let (loca_table, loca_checksum) = match generate_loca_table(&loca_values, index_format) {
            Ok(v) => v,
            Err(e) => {
                return Err(e);
            },
        };

        let data = GlyfAndLocaData {
            num_glyphs,
            index_format,
            x_mins,
            glyf_table,
            glyf_checksum,
            loca_table,
            loca_checksum,
        };
        proof {
            let vals = loca_values@;
            let lt = data.loca_table@;
            assert(forall|j: int|
                0 <= j <= num_glyphs ==> (#[trigger] vals[j]) % 4 == 0 && vals[j] % 2 == 0);
            assert forall|j: int|
                0 <= j <= num_glyphs as int implies #[trigger] loca_offset_at(
                lt,
                index_format,
                j,
            ) % 4 == 0 by {
                assert(vals[j] % 2 == 0);
                assert(loca_offset_at(lt, index_format, j) == vals[j]);
            }
            assert forall|j: int|
                0 <= j < num_glyphs as int implies #[trigger] loca_offset_at(
                lt,
                index_format,
                j,
            ) <= loca_offset_at(lt, index_format, j + 1) by {
                assert(loca_offset_at(lt, index_format, j) == vals[j]);
                assert(loca_offset_at(lt, index_format, j + 1) == vals[j + 1]);
                if j + 1 < num_glyphs as int {
                    assert(vals[j] <= vals[j + 1]);
                } else {
                    assert(vals[j] <= data.glyf_table@.len());
                }
            }
            assert(loca_offset_at(lt, index_format, 0) == vals[0]);
            assert(loca_offset_at(lt, index_format, num_glyphs as int) == vals[num_glyphs as int]);
            assert(glyf_and_loca_valid(data));
        }
        Ok(data)
    }
}

/// Decode a WOFF2 transformed glyf table.
pub fn tranform_glyf_table(data: &[u8]) -> (r: Result<GlyfAndLocaData, WuffErr>)
    ensures
        !spec_glyf_streams_ok(data@) ==> r is Err,
        match r {
            Ok(d) => glyf_and_loca_valid(d) && spec_glyf_streams_ok(data@) && d.num_glyphs
                == be16(data@, 4) && d.index_format == be16(data@, 6),
            Err(_) => true,
        },
{
    let decoder = match GlyfDecoder::new(data) {
        Ok(d) => d,
        Err(e) => {
            return Err(e);
        },
    };
    decoder.transform()
}

} // verus!
