use vstd::prelude::*;

verus! {

/// The single failure sentinel of the decoder: every malformed, truncated or
/// implausible input short-circuits the decode with this error.
#[derive(Clone, Copy, Debug, PartialEq, Eq, Structural)]
pub enum WuffErr {
    GenericError,
}

/// True when `a + b` does not fit in `usize`.
pub fn usize_will_overflow(a: usize, b: usize) -> (r: bool)
    ensures
        r <==> a + b > usize::MAX,
{
    a.checked_add(b).is_none()
}

/// True when `a + b` does not fit in `u32`.
pub fn u32_will_overflow(a: u32, b: u32) -> (r: bool)
    ensures
        r <==> a + b > u32::MAX,
{
    a.checked_add(b).is_none()
}

} // verus!
