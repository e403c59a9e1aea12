//! Definitions shared across the WOFF2 decoder: signatures, the table
//! record, and the big-endian 32-bit checksum that the SFNT format uses.

use vstd::prelude::*;

verus! {

/// Size of the 12-byte SFNT offset table at the head of a table directory.
pub const kSfntHeaderSize: usize = 12;

/// Size of one 16-byte SFNT table directory entry.
pub const kSfntEntrySize: usize = 16;

/// A decoded outline point with signed 32-bit coordinates; the final on-disk
/// form is signed 16-bit.
#[derive(Copy, Clone)]
pub struct Point {
    pub x: i32,
    pub y: i32,
    pub on_curve: bool,
}

/// A WOFF2 table directory record, with the source span inside the
/// decompressed stream and the destination span in the output.
#[derive(Clone, Copy)]
pub struct Table {
    pub tag: u32,
    pub flags: u32,
    pub src_offset: u32,
    pub src_length: u32,
    pub transform_length: u32,
    pub dst_offset: u32,
    pub dst_length: u32,
}

/// Size of the TrueType collection header, 0 when the version marks a
/// single font.
pub fn CollectionHeaderSize(header_version: u32, num_fonts: u32) -> (r: usize)
    requires
        num_fonts < 0x10000,
    ensures
        header_version == 0x00020000 ==> r == 24 + 4 * num_fonts,
        header_version == 0x00010000 ==> r == 12 + 4 * num_fonts,
        (header_version != 0x00010000 && header_version != 0x00020000) ==> r == 0,
{
    let mut size: usize = 0;
    if header_version == 0x00020000 {
        size += 12;  // ulDsig{Tag,Length,Offset}
    }
    if header_version == 0x00010000 || header_version == 0x00020000 {
        size += 12 + 4 * (num_fonts as usize);  // TTCTag, Version, numFonts, OffsetTable[numFonts]
    }
    size
}

/// The byte at `i`, reading 0 past the end of the sequence.
pub open spec fn byte_pad0(s: Seq<u8>, i: int) -> int {
    if 0 <= i < s.len() {
        s[i] as int
    } else {
        0
    }
}

/// The big-endian 32-bit word starting at `i`, zero-padded past the end.
pub open spec fn be32_pad0(s: Seq<u8>, i: int) -> int {
    byte_pad0(s, i) * 0x1000000 + byte_pad0(s, i + 1) * 0x10000 + byte_pad0(s, i + 2) * 0x100
        + byte_pad0(s, i + 3)
}

/// The plain (unreduced) sum of the first `k` 4-byte words of `s`.
pub open spec fn checksum_upto(s: Seq<u8>, k: nat) -> int
    decreases k,
{
    if k == 0 {
        0
    } else {
        checksum_upto(s, (k - 1) as nat) + be32_pad0(s, 4 * ((k - 1) as int))
    }
}

/// How many 4-byte words cover `n` bytes.
pub open spec fn num_chunks(n: nat) -> nat {
    ((n + 3) / 4) as nat
}

/// The SFNT checksum of `s`: the 32-bit sum of its big-endian 32-bit words,
/// with a short tail read as if zero-padded to 4 bytes.
pub open spec fn sum_be32_pad0(s: Seq<u8>) -> int {
    checksum_upto(s, num_chunks(s.len())) % 0x100000000
}

/// Compute the SFNT checksum of `buf`.
#[verifier::rlimit(30)]
pub fn compute_checksum(buf: &[u8]) -> (r: u32)
    ensures
        r == sum_be32_pad0(buf@),
{
    let n = buf.len();
    let nchunks: usize = n / 4 + (if n % 4 != 0 {
        1
    } else {
        0
    });
    assert(nchunks == num_chunks(buf@.len()));
    let mut checksum: u32 = 0;
    let mut k: usize = 0;
    while k < nchunks
        invariant
            k <= nchunks,
            n == buf@.len(),
            nchunks == num_chunks(buf@.len()),
            checksum == checksum_upto(buf@, k as nat) % 0x100000000,
        decreases nchunks - k,
    {
        assert(4 * k < n) by {
            assert(k < (n + 3) / 4);
        }
        let i: usize = 4 * k;
        let b0 = buf[i];
        let b1: u8 = if i + 1 < n {
            buf[i + 1]
        } else {
            0
        };
        let b2: u8 = if i + 2 < n {
            buf[i + 2]
        } else {
            0
        };
        let b3: u8 = if i + 3 < n {
            buf[i + 3]
        } else {
            0
        };
        let chunk: u32 = (b0 as u32) * 0x1000000 + (b1 as u32) * 0x10000 + (b2 as u32) * 0x100 + (b3
            as u32);
        assert(chunk == be32_pad0(buf@, 4 * (k as int)));
        proof {
            vstd::arithmetic::div_mod::lemma_add_mod_noop(
                checksum_upto(buf@, k as nat),
                chunk as int,
                0x100000000,
            );
        }
        checksum = checksum.wrapping_add(chunk);
        k = k + 1;
    }
    checksum
}

/// Append a big-endian 16-bit value.
pub fn push_u16_be(out: &mut Vec<u8>, v: u16)
    ensures
        final(out)@ == old(out)@ + seq![(v / 0x100) as u8, (v % 0x100) as u8],
{
    out.push((v / 0x100) as u8);
    out.push((v % 0x100) as u8);
    assert(out@ =~= old(out)@ + seq![(v / 0x100) as u8, (v % 0x100) as u8]);
}

/// Append a big-endian 32-bit value.
pub fn push_u32_be(out: &mut Vec<u8>, v: u32)
    ensures
        final(out)@ == old(out)@ + seq![
            (v / 0x1000000) as u8,
            ((v / 0x10000) % 0x100) as u8,
            ((v / 0x100) % 0x100) as u8,
            (v % 0x100) as u8,
        ],
{
    out.push((v / 0x1000000) as u8);
    out.push(((v / 0x10000) % 0x100) as u8);
    out.push(((v / 0x100) % 0x100) as u8);
    out.push((v % 0x100) as u8);
    assert(out@ =~= old(out)@ + seq![
        (v / 0x1000000) as u8,
        ((v / 0x10000) % 0x100) as u8,
        ((v / 0x100) % 0x100) as u8,
        (v % 0x100) as u8,
    ]);
}

/// The two big-endian bytes of a signed 16-bit value (two's complement).
pub open spec fn i16_be_bytes(v: int) -> Seq<u8> {
    let u = v % 0x10000;
    seq![(u / 0x100) as u8, (u % 0x100) as u8]
}

/// Append a big-endian signed 16-bit value (two's complement).
pub fn push_i16_be(out: &mut Vec<u8>, v: i16)
    ensures
        final(out)@.len() == old(out)@.len() + 2,
        old(out)@.is_prefix_of(final(out)@),
        final(out)@ == old(out)@ + i16_be_bytes(v as int),
        crate::buffer::as_i16(
            crate::buffer::be16(final(out)@, old(out)@.len() as int),
        ) == v,
{
    let u: u16 = if v >= 0 {
        v as u16
    } else {
        (v as i32 + 0x10000) as u16
    };
    push_u16_be(out, u);
    assert(old(out)@.is_prefix_of(out@)) by {
        assert(out@.subrange(0, old(out)@.len() as int) =~= old(out)@);
    }
    assert(u == v as int % 0x10000);
    assert(out@ =~= old(out)@ + i16_be_bytes(v as int));
}

/// `checksum_upto` only looks at bytes through `byte_pad0`, so sequences
/// that agree under `byte_pad0` have equal chunk sums.
proof fn lemma_checksum_upto_congruent(s: Seq<u8>, t: Seq<u8>, k: nat)
    requires
        forall|i: int| byte_pad0(s, i) == byte_pad0(t, i),
    ensures
        checksum_upto(s, k) == checksum_upto(t, k),
    decreases k,
{
    if k > 0 {
        lemma_checksum_upto_congruent(s, t, (k - 1) as nat);
    }
}

/// Zero-padding within the final 4-byte chunk does not change the checksum.
pub proof fn lemma_checksum_pad(s: Seq<u8>, t: Seq<u8>)
    requires
        s.len() <= t.len() <= 4 * num_chunks(s.len()),
        forall|i: int| 0 <= i < s.len() ==> t[i] == s[i],
        forall|i: int| s.len() <= i < t.len() ==> t[i] == 0,
    ensures
        sum_be32_pad0(t) == sum_be32_pad0(s),
{
    assert(forall|i: int| byte_pad0(s, i) == byte_pad0(t, i));
    assert(num_chunks(t.len()) == num_chunks(s.len())) by {
        let n = s.len() as int;
        let m = t.len() as int;
        assert(4 * ((n + 3) / 4) <= n + 3);
        assert((m + 3) / 4 >= (n + 3) / 4) by (nonlinear_arith)
            requires m >= n >= 0;
        assert((m + 3) / 4 <= (n + 3) / 4) by (nonlinear_arith)
            requires 0 <= m <= 4 * ((n + 3) / 4), n >= 0;
    }
    lemma_checksum_upto_congruent(s, t, num_chunks(s.len()));
}

/// Chunk sums of a concatenation split at a 4-byte boundary.
proof fn lemma_checksum_upto_concat(a: Seq<u8>, b: Seq<u8>, k: nat)
    requires
        a.len() % 4 == 0,
    ensures
        checksum_upto(a + b, (a.len() / 4 + k) as nat) == checksum_upto(a, (a.len() / 4) as nat)
            + checksum_upto(b, k),
    decreases k,
{
    let t = a + b;
    let ca = (a.len() / 4) as nat;
    if k == 0 {
        lemma_checksum_upto_within(a, b, ca);
    } else {
        lemma_checksum_upto_concat(a, b, (k - 1) as nat);
        let j = (k - 1) as int;
        assert(be32_pad0(t, 4 * (ca + j)) == be32_pad0(b, 4 * j)) by {
            assert(forall|i: int| i >= 0 ==> byte_pad0(t, a.len() + i) == byte_pad0(b, i));
            assert(4 * (ca + j) == a.len() + 4 * j);
        }
    }
}

/// Chunk sums over the aligned prefix `a` ignore the appended tail.
proof fn lemma_checksum_upto_within(a: Seq<u8>, b: Seq<u8>, k: nat)
    requires
        a.len() % 4 == 0,
        4 * k <= a.len(),
    ensures
        checksum_upto(a + b, k) == checksum_upto(a, k),
    decreases k,
{
    if k > 0 {
        lemma_checksum_upto_within(a, b, (k - 1) as nat);
        let j = (k - 1) as int;
        assert(be32_pad0(a + b, 4 * j) == be32_pad0(a, 4 * j)) by {
            assert(forall|i: int| 0 <= i < a.len() ==> byte_pad0(a + b, i) == byte_pad0(a, i));
            assert(4 * j + 3 < a.len());
        }
    }
}

/// The checksum of a concatenation split at a 4-byte boundary is the 32-bit
/// sum of the two checksums.
pub proof fn lemma_checksum_concat(a: Seq<u8>, b: Seq<u8>)
    requires
        a.len() % 4 == 0,
    ensures
        sum_be32_pad0(a + b) == (sum_be32_pad0(a) + sum_be32_pad0(b)) % 0x100000000,
{
    let t = a + b;
    let ca = (a.len() / 4) as nat;
    assert(num_chunks(t.len()) == ca + num_chunks(b.len())) by {
        let n = a.len() as int;
        let m = b.len() as int;
        assert(n == 4 * (n / 4));
        assert((4 * (n / 4) + m + 3) / 4 == n / 4 + (m + 3) / 4) by (nonlinear_arith)
            requires n / 4 >= 0, m >= 0;
    }
    lemma_checksum_upto_concat(a, b, num_chunks(b.len()));
    assert(checksum_upto(a, num_chunks(a.len())) == checksum_upto(a, ca)) by {
        assert(num_chunks(a.len()) == ca) by {
            let n = a.len() as int;
            assert(n == 4 * (n / 4));
            assert((n + 3) / 4 == n / 4) by (nonlinear_arith)
                requires n % 4 == 0, n >= 0, n == 4 * (n / 4);
        }
    }
    vstd::arithmetic::div_mod::lemma_add_mod_noop(
        checksum_upto(a, ca),
        checksum_upto(b, num_chunks(b.len())),
        0x100000000,
    );
}

/// A prefix keeps its subranges when the sequence grows.
pub proof fn lemma_subrange_of_prefix(a: Seq<u8>, b: Seq<u8>, i: int, j: int)
    requires
        a.is_prefix_of(b),
        0 <= i <= j <= a.len(),
    ensures
        b.subrange(i, j) == a.subrange(i, j),
{
    assert(a =~= b.subrange(0, a.len() as int));
    assert(b.subrange(i, j) =~= a.subrange(i, j));
}

/// `s` lists indices into `keys` in ascending key order.
pub open spec fn sorted_by_keys(keys: Seq<u32>, s: Seq<u16>) -> bool {
    forall|a: int, b: int|
        0 <= a < b < s.len() ==> keys[#[trigger] s[a] as int] <= keys[#[trigger] s[b] as int]
}

/// Sort a vector of indices into `keys` by their key, ascending.  The result
/// is a permutation of the input.
pub fn sort_indices(indices: &mut Vec<u16>, keys: &Vec<u32>)
    requires
        forall|j: int| 0 <= j < old(indices)@.len() ==> #[trigger] old(indices)@[j] < keys@.len(),
    ensures
        final(indices)@.to_multiset() == old(indices)@.to_multiset(),
        final(indices)@.len() == old(indices)@.len(),
        forall|j: int| 0 <= j < final(indices)@.len() ==> #[trigger] final(indices)@[j]
            < keys@.len(),
        sorted_by_keys(keys@, final(indices)@),
{
    broadcast use vstd::seq_lib::group_to_multiset_ensures;
    broadcast use vstd::multiset::group_multiset_axioms;

    let mut out: Vec<u16> = Vec::new();
    let ghost input = indices@;
    proof {
        assert(out@.to_multiset().add(indices@.to_multiset()) =~= input.to_multiset());
    }
    while indices.len() > 0
        invariant
            forall|j: int| 0 <= j < indices@.len() ==> #[trigger] indices@[j] < keys@.len(),
            forall|j: int| 0 <= j < out@.len() ==> #[trigger] out@[j] < keys@.len(),
            out@.to_multiset().add(indices@.to_multiset()) == input.to_multiset(),
            out@.len() + indices@.len() == input.len(),
            sorted_by_keys(keys@, out@),
            forall|a: int, b: int|
                0 <= a < out@.len() && 0 <= b < indices@.len() ==> keys@[#[trigger] out@[a] as int]
                    <= keys@[#[trigger] indices@[b] as int],
        decreases indices@.len(),
    {
        // Find the position of the smallest remaining key.
        let mut m: usize = 0;
        let mut j: usize = 1;
        while j < indices.len()
            invariant
                indices@.len() > 0,
                m < indices@.len(),
                j <= indices@.len(),
                forall|t: int| 0 <= t < indices@.len() ==> #[trigger] indices@[t] < keys@.len(),
                forall|t: int|
                    0 <= t < j ==> keys@[indices@[m as int] as int] <= keys@[#[trigger] indices@[t] as int],
            decreases indices@.len() - j,
        {
            if keys[indices[j] as usize] < keys[indices[m] as usize] {
                m = j;
            }
            j = j + 1;
        }
        let ghost before = indices@;
        let ghost out_before = out@;
        let x = indices.remove(m);
        out.push(x);
        proof {
            assert(indices@ == before.remove(m as int));
            vstd::seq_lib::to_multiset_remove(before, m as int);
            vstd::seq_lib::to_multiset_build(out_before, x);
            assert(indices@.to_multiset() == before.to_multiset().remove(x));
            assert(out@.to_multiset() == out_before.to_multiset().insert(x));
            assert(out@.to_multiset().add(indices@.to_multiset()) =~= input.to_multiset()) by {
                assert(before.to_multiset().count(x) > 0) by {
                    before.to_multiset_ensures();
                    assert(before.contains(x));
                }
                assert(out_before.to_multiset().insert(x).add(
                    before.to_multiset().remove(x),
                ) =~= out_before.to_multiset().add(before.to_multiset()));
            }
            // The element removed was a minimum, so ordering is maintained.
            assert(forall|b: int|
                0 <= b < indices@.len() ==> keys@[#[trigger] indices@[b] as int] >= keys@[x as int]);
        }
    }
    *indices = out;
}

/// Checksum over the first `size` bytes of `buf`.
pub fn ComputeULongSum(buf: &[u8], size: usize) -> (r: u32)
    requires
        size <= buf@.len(),
    ensures
        r == sum_be32_pad0(buf@.take(size as int)),
{
    compute_checksum(vstd::slice::slice_subrange(buf, 0, size))
}

} // verus!
