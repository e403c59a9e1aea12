//! The two variable-length integer codings of WOFF2: 255UInt16 (1 to 3
//! bytes, values 0..=65535) and UIntBase128 (1 to 5 bytes, 32-bit values,
//! leading-zero-rejected and overflow-checked).

use vstd::prelude::*;

use crate::buffer::Buffer;
use crate::error::WuffErr;

verus! {

/// Decode a 255UInt16 from the front of `s`: `Some((value, bytes consumed))`,
/// or `None` on truncation.
pub open spec fn decode255(s: Seq<u8>) -> Option<(int, int)> {
    if s.len() < 1 {
        None
    } else {
        let c = s[0];
        if c == 253 {
            if s.len() >= 3 {
                Some((s[1] * 0x100 + s[2], 3))
            } else {
                None
            }
        } else if c == 255 {
            if s.len() >= 2 {
                Some((s[1] + 253, 2))
            } else {
                None
            }
        } else if c == 254 {
            if s.len() >= 2 {
                Some((s[1] + 506, 2))
            } else {
                None
            }
        } else {
            Some((c as int, 1))
        }
    }
}

/// The shortest 255UInt16 coding of `v`.
pub open spec fn encode255_spec(v: int) -> Seq<u8> {
    if v < 253 {
        seq![v as u8]
    } else if v < 506 {
        seq![255u8, (v - 253) as u8]
    } else if v < 762 {
        seq![254u8, (v - 506) as u8]
    } else {
        seq![253u8, (v / 0x100) as u8, (v % 0x100) as u8]
    }
}

/// Decode a UIntBase128 continuation: `fuel` bytes may still be read, `acc`
/// has been accumulated, and `first` marks the first byte (whose value 0x80,
/// a leading zero, is rejected).  `Some((value, bytes consumed))` on success.
pub open spec fn base128_rec(s: Seq<u8>, fuel: int, acc: int, first: bool) -> Option<(int, int)>
    decreases fuel,
{
    if fuel <= 0 || s.len() == 0 {
        None
    } else {
        let c = s[0];
        if first && c == 0x80 {
            None
        } else if acc >= 0x2000000 {
            None
        } else {
            let acc2 = acc * 128 + (c % 128);
            if c < 128 {
                Some((acc2, 1))
            } else {
                match base128_rec(s.skip(1), fuel - 1, acc2, false) {
                    Some((v, n)) => Some((v, n + 1)),
                    None => None,
                }
            }
        }
    }
}

/// Decode a UIntBase128 from the front of `s`.
pub open spec fn decode_base128(s: Seq<u8>) -> Option<(int, int)> {
    base128_rec(s, 5, 0, true)
}

/// Number of 7-bit groups in the base-128 coding of `v`.
pub open spec fn base128_len(v: int) -> nat
    decreases v,
{
    if v < 128 {
        1
    } else {
        1 + base128_len(v / 128)
    }
}

/// 128 to the power `k`.
pub open spec fn pow128(k: nat) -> int
    decreases k,
{
    if k == 0 {
        1
    } else {
        128 * pow128((k - 1) as nat)
    }
}

/// The UIntBase128 coding of `v`; when `more` is set every byte carries the
/// continuation bit (the coding of a strict prefix of a larger value).
pub open spec fn encode_base128_with(v: int, more: bool) -> Seq<u8>
    decreases v,
{
    if v < 128 {
        seq![(v + if more { 128int } else { 0int }) as u8]
    } else {
        encode_base128_with(v / 128, true) + seq![(v % 128 + if more { 128int } else { 0int }) as u8]
    }
}

/// The shortest UIntBase128 coding of `v`.
pub open spec fn encode_base128_spec(v: int) -> Seq<u8> {
    encode_base128_with(v, false)
}

/// Shift the consumed-byte count of a decode result by `k`.
pub open spec fn opt_shift(o: Option<(int, int)>, k: int) -> Option<(int, int)> {
    match o {
        Some((v, n)) => Some((v, n + k)),
        None => None,
    }
}

/// Read a 255UInt16 (section 6.1.1 of the MicroType Express draft).
pub fn Read255UShort(buf: &mut Buffer) -> (r: Result<u16, WuffErr>)
    requires
        old(buf).wf(),
    ensures
        final(buf).wf(),
        final(buf).buffer == old(buf).buffer,
        old(buf).offset <= final(buf).offset,
        match r {
            Ok(v) => decode255(old(buf).buffer@.skip(old(buf).offset as int)) == Some(
                (v as int, final(buf).offset - old(buf).offset),
            ),
            Err(_) => decode255(old(buf).buffer@.skip(old(buf).offset as int)) is None,
        },
{
    let ghost rem = old(buf).buffer@.skip(old(buf).offset as int);
    let mut code: u8 = 0;
    if !buf.ReadU8(&mut code) {
        return Err(WuffErr::GenericError);
    }
    assert(code == rem[0]);
    if code == 253 {
        let mut word: u16 = 0;
        if !buf.ReadU16(&mut word) {
            assert(rem.len() < 3);
            return Err(WuffErr::GenericError);
        }
        assert(rem[1] == old(buf).buffer@[old(buf).offset + 1]);
        assert(rem[2] == old(buf).buffer@[old(buf).offset + 2]);
        Ok(word)
    } else if code == 255 {
        let mut next: u8 = 0;
        if !buf.ReadU8(&mut next) {
            return Err(WuffErr::GenericError);
        }
        assert(rem[1] == old(buf).buffer@[old(buf).offset + 1]);
        Ok((next as u16) + 253)
    } else if code == 254 {
        let mut next: u8 = 0;
        if !buf.ReadU8(&mut next) {
            return Err(WuffErr::GenericError);
        }
        assert(rem[1] == old(buf).buffer@[old(buf).offset + 1]);
        Ok((next as u16) + 506)
    } else {
        Ok(code as u16)
    }
}

/// Worker for `ReadBase128`: decodes the remaining continuation bytes.
fn read_base128_rec(buf: &mut Buffer, fuel: u8, acc: u32, first: bool) -> (r: Result<u32, WuffErr>)
    requires
        old(buf).wf(),
        acc < 0x100000000,
    ensures
        final(buf).wf(),
        final(buf).buffer == old(buf).buffer,
        old(buf).offset <= final(buf).offset,
        match r {
            Ok(v) => base128_rec(
                old(buf).buffer@.skip(old(buf).offset as int),
                fuel as int,
                acc as int,
                first,
            ) == Some((v as int, final(buf).offset - old(buf).offset)),
            Err(_) => base128_rec(
                old(buf).buffer@.skip(old(buf).offset as int),
                fuel as int,
                acc as int,
                first,
            ) is None,
        },
    decreases fuel,
{
    let ghost rem = old(buf).buffer@.skip(old(buf).offset as int);
    if fuel == 0 {
        return Err(WuffErr::GenericError);
    }
    let mut code: u8 = 0;
    if !buf.ReadU8(&mut code) {
        assert(rem.len() == 0);
        return Err(WuffErr::GenericError);
    }
    assert(code == rem[0]);
    // Leading zeros are invalid.
    if first && code == 0x80 {
        return Err(WuffErr::GenericError);
    }
    // If any of the top seven bits are set then we are about to overflow.
    if acc >= 0x2000000 {
        return Err(WuffErr::GenericError);
    }
    let acc2: u32 = acc * 128 + (code % 128) as u32;
    if code < 128 {
        return Ok(acc2);
    }
    assert(buf.buffer@.skip(buf.offset as int) =~= rem.skip(1));
    read_base128_rec(buf, fuel - 1, acc2, false)
}

/// Read a UIntBase128: up to five 7-bit groups, overflow-checked.
pub fn ReadBase128(buf: &mut Buffer) -> (r: Result<u32, WuffErr>)
    requires
        old(buf).wf(),
    ensures
        final(buf).wf(),
        final(buf).buffer == old(buf).buffer,
        old(buf).offset <= final(buf).offset,
        match r {
            Ok(v) => decode_base128(old(buf).buffer@.skip(old(buf).offset as int)) == Some(
                (v as int, final(buf).offset - old(buf).offset),
            ),
            Err(_) => decode_base128(old(buf).buffer@.skip(old(buf).offset as int)) is None,
        },
{
    read_base128_rec(buf, 5, 0, true)
}

/// Number of bytes in the 255UInt16 coding of `value`.
pub fn Size255UShort(value: u16) -> (r: usize)
    ensures
        r == encode255_spec(value as int).len(),
{
    if value < 253 {
        1
    } else if value < 762 {
        2
    } else {
        3
    }
}

/// Encode a 255UInt16.
pub fn Write255UShort(value: u16) -> (r: Vec<u8>)
    ensures
        r@ == encode255_spec(value as int),
{
    let mut packed: Vec<u8> = Vec::new();
    if value < 253 {
        packed.push(value as u8);
    } else if value < 506 {
        packed.push(255);
        packed.push((value - 253) as u8);
    } else if value < 762 {
        packed.push(254);
        packed.push((value - 506) as u8);
    } else {
        packed.push(253);
        packed.push((value / 0x100) as u8);
        packed.push((value % 0x100) as u8);
    }
    assert(packed@ =~= encode255_spec(value as int));
    packed
}

/// Append the base-128 coding of `value` to `out`, with the continuation
/// bit on every byte when `more` is set.
fn write_base128_with(value: u32, more: bool, out: &mut Vec<u8>)
    ensures
        final(out)@ == old(out)@ + encode_base128_with(value as int, more),
    decreases value,
{
    if value < 128 {
        if more {
            out.push((value as u8) + 128);
        } else {
            out.push(value as u8);
        }
        assert(out@ =~= old(out)@ + encode_base128_with(value as int, more));
    } else {
        write_base128_with(value / 128, true, out);
        if more {
            out.push((value % 128) as u8 + 128);
        } else {
            out.push((value % 128) as u8);
        }
        assert(out@ =~= old(out)@ + encode_base128_with(value as int, more));
    }
}

/// Encode a UIntBase128.
pub fn WriteBase128(value: u32) -> (r: Vec<u8>)
    ensures
        r@ == encode_base128_spec(value as int),
{
    let mut out: Vec<u8> = Vec::new();
    write_base128_with(value, false, &mut out);
    assert(out@ =~= encode_base128_spec(value as int));
    out
}

/// Every 255UInt16 value decodes back from its coding, whatever follows it.
pub proof fn lemma_255_roundtrip(v: int, tail: Seq<u8>)
    requires
        0 <= v <= 65535,
    ensures
        decode255(encode255_spec(v) + tail) == Some((v, encode255_spec(v).len() as int)),
{
    let s = encode255_spec(v) + tail;
    if v < 253 {
        assert(s[0] == v as u8);
    } else if v < 506 {
        assert(s[0] == 255u8 && s[1] == (v - 253) as u8);
    } else if v < 762 {
        assert(s[0] == 254u8 && s[1] == (v - 506) as u8);
    } else {
        assert(s[0] == 253u8 && s[1] == (v / 0x100) as u8 && s[2] == (v % 0x100) as u8);
        assert(s[1] * 0x100 + s[2] == v) by {
            assert(v / 0x100 < 0x100);
            assert(0x100 * (v / 0x100) + v % 0x100 == v) by (nonlinear_arith)
                requires v >= 0;
        }
    }
}

proof fn lemma_pow128_pos(k: nat)
    ensures
        pow128(k) >= 1,
    decreases k,
{
    if k > 0 {
        lemma_pow128_pos((k - 1) as nat);
    }
}

/// Decoding walks the coding of `v` and folds it into the accumulator.
proof fn lemma_base128_decode_with(v: int, more: bool, acc: int, tail: Seq<u8>, fuel: int, first: bool)
    requires
        0 <= v,
        0 <= acc,
        acc * pow128(base128_len(v)) + v < 0x100000000,
        fuel >= base128_len(v),
        first ==> (v >= 1 || !more),
    ensures
        !more ==> base128_rec(encode_base128_with(v, false) + tail, fuel, acc, first) == Some(
            (acc * pow128(base128_len(v)) + v, base128_len(v) as int),
        ),
        more ==> base128_rec(encode_base128_with(v, true) + tail, fuel, acc, first) == opt_shift(
            base128_rec(tail, fuel - base128_len(v), acc * pow128(base128_len(v)) + v, false),
            base128_len(v) as int,
        ),
    decreases v,
{
    let g = base128_len(v);
    lemma_pow128_pos(g);
    assert(pow128(0) == 1);
    assert(pow128(1) == 128);
    if v < 128 {
        let s = encode_base128_with(v, more) + tail;
        assert(s[0] == (v + if more { 128int } else { 0int }) as u8);
        assert(g == 1);
        assert(acc < 0x2000000) by {
            assert(acc * 128 <= acc * 128 + v);
        }
        assert(acc * 128 + v < 0x100000000);
        assert(s.skip(1) =~= tail);
    } else {
        let hi = v / 128;
        let lo = v % 128;
        let gh = base128_len(hi);
        assert(g == gh + 1);
        let last_byte = (lo + if more { 128int } else { 0int }) as u8;
        let mid = seq![last_byte] + tail;
        assert(encode_base128_with(v, more) + tail =~= encode_base128_with(hi, true) + mid);
        let acc_hi = acc * pow128(gh) + hi;
        let p = pow128(gh);
        assert(pow128(g) == 128 * p);
        vstd::arithmetic::div_mod::lemma_fundamental_div_mod(v, 128);
        assert((acc * p + hi) * 128 + lo == acc * (128 * p) + (128 * hi + lo))
            by (nonlinear_arith);
        assert(acc_hi * 128 + lo == acc * pow128(g) + v);
        assert(acc_hi >= 0) by {
            lemma_pow128_pos(gh);
            assert(acc * p >= 0) by (nonlinear_arith)
                requires acc >= 0, p >= 1;
        }
        assert(acc_hi * pow128(1) + lo < 0x100000000);
        assert(base128_len(lo) == 1);
        lemma_base128_decode_with(hi, true, acc, mid, fuel, first);
        // One more step consumes the last group.
        assert(acc_hi < 0x2000000) by {
            assert(acc_hi * 128 <= acc_hi * 128 + lo);
        }
        assert(mid[0] == last_byte);
        assert(mid.skip(1) =~= tail);
        if more {
            assert(base128_rec(mid, fuel - gh, acc_hi, false) == opt_shift(
                base128_rec(tail, fuel - g, acc_hi * 128 + lo, false),
                1,
            ));
        } else {
            assert(base128_rec(mid, fuel - gh, acc_hi, false) == Some(
                (acc_hi * 128 + lo, 1int),
            ));
        }
    }
}

/// The coding of a 32-bit value fits in five bytes.
proof fn lemma_base128_len_le5(v: int)
    requires
        0 <= v < 0x100000000,
    ensures
        base128_len(v) <= 5,
{
    if v >= 128 {
        let v1 = v / 128;
        assert(base128_len(v) == 1 + base128_len(v1));
        assert(v1 < 0x2000000) by (nonlinear_arith)
            requires 0 <= v < 0x100000000, v1 == v / 128;
        if v1 >= 128 {
            let v2 = v1 / 128;
            assert(base128_len(v1) == 1 + base128_len(v2));
            assert(v2 < 0x40000) by (nonlinear_arith)
                requires 0 <= v1 < 0x2000000, v2 == v1 / 128;
            if v2 >= 128 {
                let v3 = v2 / 128;
                assert(base128_len(v2) == 1 + base128_len(v3));
                assert(v3 < 0x800) by (nonlinear_arith)
                    requires 0 <= v2 < 0x40000, v3 == v2 / 128;
                if v3 >= 128 {
                    let v4 = v3 / 128;
                    assert(base128_len(v3) == 1 + base128_len(v4));
                    assert(v4 < 16) by (nonlinear_arith)
                        requires 0 <= v3 < 0x800, v4 == v3 / 128;
                    assert(base128_len(v4) == 1);
                } else {
                    assert(base128_len(v3) == 1);
                }
            } else {
                assert(base128_len(v2) == 1);
            }
        } else {
            assert(base128_len(v1) == 1);
        }
    } else {
        assert(base128_len(v) == 1);
    }
}

/// Every 32-bit value decodes back from its base-128 coding, whatever
/// follows it; in particular the overflow check never fires on it.
pub proof fn lemma_base128_roundtrip(v: int, tail: Seq<u8>)
    requires
        0 <= v < 0x100000000,
    ensures
        decode_base128(encode_base128_spec(v) + tail) == Some(
            (v, base128_len(v) as int),
        ),
{
    assert(base128_len(v) <= 5) by {
        lemma_base128_len_le5(v);
    }
    lemma_pow128_pos(base128_len(v));
    lemma_base128_decode_with(v, false, 0, tail, 5, true);
}

/// A first byte of 0x80 (a leading zero) is always rejected.
pub proof fn lemma_base128_rejects_leading_zero(s: Seq<u8>)
    requires
        s.len() >= 1,
        s[0] == 0x80,
    ensures
        decode_base128(s) is None,
{
}

/// Variable-length reads offered on any byte cursor.
pub trait BufVariableExt {
    fn try_get_variable_255_u16(&mut self) -> Result<u16, WuffErr>;

    fn try_get_variable_128_u32(&mut self) -> Result<u32, WuffErr>;

    fn try_read_bytes_into(&mut self, n: usize, buf: &mut Vec<u8>) -> Result<(), WuffErr>;
}

impl<'a> BufVariableExt for Buffer<'a> {
    fn try_get_variable_255_u16(&mut self) -> Result<u16, WuffErr> {
        if self.offset > self.buffer.len() {
            return Err(WuffErr::GenericError);
        }
        Read255UShort(self)
    }

    fn try_get_variable_128_u32(&mut self) -> Result<u32, WuffErr> {
        if self.offset > self.buffer.len() {
            return Err(WuffErr::GenericError);
        }
        ReadBase128(self)
    }

    fn try_read_bytes_into(&mut self, n: usize, buf: &mut Vec<u8>) -> Result<(), WuffErr> {
        if self.offset > self.buffer.len() {
            return Err(WuffErr::GenericError);
        }
        self.read_bytes_into(n, buf)
    }
}

} // verus!
