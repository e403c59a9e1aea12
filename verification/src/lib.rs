//! WOFF and WOFF2 font container decoding.
//!
//! The library turns a WOFF2 (or legacy WOFF1) web font back into the
//! SFNT-shaped OpenType/TrueType byte stream it was produced from: it parses
//! the compact table directory, inflates the compressed payload, inverts the
//! `glyf`/`loca` and `hmtx` preprocessing transforms, and re-synthesizes the
//! SFNT header, table directories and checksums.

use vstd::prelude::*;

pub mod buffer;
pub mod codec;
pub mod decompress;
pub mod decompress_woff1;
pub mod error;
pub mod glyf_decoder;
pub mod hmtx_decoder;
pub mod table_tags;
pub mod types;
pub mod variable_length;
pub mod woff2_common;

verus! {

/// What `round4` returns: the next multiple of 4 at or above `v`.
pub open spec fn round4_spec(v: int) -> int {
    v + ((4 - v % 4) % 4)
}

/// Round a length up to the next multiple of 4; lengths so close to
/// `usize::MAX` that rounding would overflow are left unchanged.
pub fn round4(value: usize) -> (r: usize)
    ensures
        value + 3 <= usize::MAX ==> r == round4_spec(value as int),
        value + 3 > usize::MAX ==> r == value,
        r >= value,
{
    let rem: usize = value % 4;
    if rem == 0 {
        value
    } else if value <= usize::MAX - (4 - rem) {
        value + (4 - rem)
    } else {
        value
    }
}

} // verus!
