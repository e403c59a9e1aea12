//! Bounds-checked cursor over an input byte slice.
//!
//! Every on-the-wire integer of the WOFF formats is big-endian; the readers
//! here fail (returning `false`) instead of reading past the end of the input.

use vstd::prelude::*;
use vstd::slice::SliceAdditionalExecFns;

use crate::error::WuffErr;

verus! {

/// Reads above this cap are rejected outright as implausible.
pub const ONE_GIGABYTE: usize = 1024 * 1024 * 1024;

/// The big-endian 16-bit value stored at `s[i..i+2]`.
pub open spec fn be16(s: Seq<u8>, i: int) -> int {
    s[i] * 0x100 + s[i + 1]
}

/// The big-endian 32-bit value stored at `s[i..i+4]`.
pub open spec fn be32(s: Seq<u8>, i: int) -> int {
    s[i] * 0x1000000 + s[i + 1] * 0x10000 + s[i + 2] * 0x100 + s[i + 3]
}

/// Reinterpret an unsigned 16-bit value as two's-complement signed.
pub open spec fn as_i16(n: int) -> int {
    if n < 0x8000 {
        n
    } else {
        n - 0x10000
    }
}

/// A read-only view of the input with a current offset; all reads check
/// bounds and advance the offset only on success.
#[derive(Clone, Copy)]
pub struct Buffer<'a> {
    pub buffer: &'a [u8],
    pub offset: usize,
}

impl<'a> Buffer<'a> {
    /// The cursor never points past the end of the underlying slice.
    pub open spec fn wf(&self) -> bool {
        self.offset <= self.buffer@.len()
    }

    pub fn new(data: &'a [u8]) -> (r: Buffer<'a>)
        ensures
            r.wf(),
            r.buffer@ == data@,
            r.offset == 0,
    {
        Buffer { buffer: data, offset: 0 }
    }

    /// Advance the offset by `n_bytes` if that many bytes remain.
    pub fn Skip(&mut self, n_bytes: usize) -> (r: bool)
        requires
            old(self).wf(),
        ensures
            final(self).wf(),
            final(self).buffer == old(self).buffer,
            r <==> (n_bytes <= ONE_GIGABYTE && old(self).offset + n_bytes
                <= old(self).buffer@.len()),
            r ==> final(self).offset == old(self).offset + n_bytes,
            !r ==> final(self).offset == old(self).offset,
    {
        if n_bytes > ONE_GIGABYTE {
            return false;
        }
        if n_bytes > self.buffer.len() - self.offset {
            return false;
        }
        self.offset = self.offset + n_bytes;
        true
    }

    /// Copy the next `n_bytes` bytes into the front of `data`.
    pub fn Read(&mut self, data: &mut [u8], n_bytes: usize) -> (r: bool)
        requires
            old(self).wf(),
            n_bytes <= old(data)@.len(),
        ensures
            final(self).wf(),
            final(self).buffer == old(self).buffer,
            final(data)@.len() == old(data)@.len(),
            r <==> (n_bytes <= ONE_GIGABYTE && old(self).offset + n_bytes
                <= old(self).buffer@.len()),
            r ==> final(self).offset == old(self).offset + n_bytes
                && final(data)@ == old(self).buffer@.subrange(
                    old(self).offset as int,
                    old(self).offset + n_bytes,
                ) + old(data)@.skip(n_bytes as int),
            !r ==> final(self).offset == old(self).offset && final(data)@ == old(data)@,
    {
        if n_bytes > ONE_GIGABYTE {
            return false;
        }
        if n_bytes > self.buffer.len() - self.offset {
            return false;
        }
        let mut i: usize = 0;
        while i < n_bytes
            invariant
                i <= n_bytes,
                self.buffer == old(self).buffer,
                self.offset == old(self).offset,
                self.wf(),
                self.buffer@.len() <= usize::MAX,
                self.offset + n_bytes <= self.buffer@.len(),
                n_bytes <= data@.len(),
                data@.len() == old(data)@.len(),
                forall|j: int|
                    0 <= j < i ==> data@[j] == self.buffer@[self.offset + j],
                forall|j: int| i <= j < data@.len() ==> data@[j] == old(data)@[j],
            decreases n_bytes - i,
        {
            let b: u8 = self.buffer[self.offset + i];
            data.set(i, b);
            i = i + 1;
        }
        assert(data@ =~= old(self).buffer@.subrange(
            old(self).offset as int,
            old(self).offset + n_bytes,
        ) + old(data)@.skip(n_bytes as int));
        self.offset = self.offset + n_bytes;
        true
    }

    pub fn ReadU8(&mut self, value: &mut u8) -> (r: bool)
        requires
            old(self).wf(),
        ensures
            final(self).wf(),
            final(self).buffer == old(self).buffer,
            r <==> old(self).offset + 1 <= old(self).buffer@.len(),
            r ==> final(self).offset == old(self).offset + 1 && *final(value) == old(
                self,
            ).buffer@[old(self).offset as int],
            !r ==> final(self).offset == old(self).offset && *final(value) == *old(value),
    {
        if self.buffer.len() - self.offset < 1 {
            return false;
        }
        *value = self.buffer[self.offset];
        self.offset = self.offset + 1;
        true
    }

    pub fn ReadU16(&mut self, value: &mut u16) -> (r: bool)
        requires
            old(self).wf(),
        ensures
            final(self).wf(),
            final(self).buffer == old(self).buffer,
            r <==> old(self).offset + 2 <= old(self).buffer@.len(),
            r ==> final(self).offset == old(self).offset + 2 && *final(value) == be16(
                old(self).buffer@,
                old(self).offset as int,
            ),
            !r ==> final(self).offset == old(self).offset && *final(value) == *old(value),
    {
        if self.buffer.len() - self.offset < 2 {
            return false;
        }
        let b0 = self.buffer[self.offset];
        let b1 = self.buffer[self.offset + 1];
        *value = (b0 as u16) * 0x100 + (b1 as u16);
        self.offset = self.offset + 2;
        true
    }

    pub fn ReadS16(&mut self, value: &mut i16) -> (r: bool)
        requires
            old(self).wf(),
        ensures
            final(self).wf(),
            final(self).buffer == old(self).buffer,
            r <==> old(self).offset + 2 <= old(self).buffer@.len(),
            r ==> final(self).offset == old(self).offset + 2 && *final(value) == as_i16(
                be16(old(self).buffer@, old(self).offset as int),
            ),
            !r ==> final(self).offset == old(self).offset && *final(value) == *old(value),
    {
        let mut n: u16 = 0;
        if !self.ReadU16(&mut n) {
            return false;
        }
        *value = if n < 0x8000 {
            n as i16
        } else {
            ((n as i32) - 0x10000) as i16
        };
        true
    }

    pub fn ReadU32(&mut self, value: &mut u32) -> (r: bool)
        requires
            old(self).wf(),
        ensures
            final(self).wf(),
            final(self).buffer == old(self).buffer,
            r <==> old(self).offset + 4 <= old(self).buffer@.len(),
            r ==> final(self).offset == old(self).offset + 4 && *final(value) == be32(
                old(self).buffer@,
                old(self).offset as int,
            ),
            !r ==> final(self).offset == old(self).offset && *final(value) == *old(value),
    {
        if self.buffer.len() - self.offset < 4 {
            return false;
        }
        let b0 = self.buffer[self.offset];
        let b1 = self.buffer[self.offset + 1];
        let b2 = self.buffer[self.offset + 2];
        let b3 = self.buffer[self.offset + 3];
        *value = (b0 as u32) * 0x1000000 + (b1 as u32) * 0x10000 + (b2 as u32) * 0x100 + (b3
            as u32);
        self.offset = self.offset + 4;
        true
    }

    /// Read a 4-byte table tag as a big-endian 32-bit value.
    pub fn ReadTag(&mut self, value: &mut u32) -> (r: bool)
        requires
            old(self).wf(),
        ensures
            final(self).wf(),
            final(self).buffer == old(self).buffer,
            r <==> old(self).offset + 4 <= old(self).buffer@.len(),
            r ==> final(self).offset == old(self).offset + 4 && *final(value) == be32(
                old(self).buffer@,
                old(self).offset as int,
            ),
            !r ==> final(self).offset == old(self).offset && *final(value) == *old(value),
    {
        self.ReadU32(value)
    }

    /// Append the next `n` bytes of the input to `out`.
    pub fn read_bytes_into(&mut self, n: usize, out: &mut Vec<u8>) -> (r: Result<(), WuffErr>)
        requires
            old(self).wf(),
        ensures
            final(self).wf(),
            final(self).buffer == old(self).buffer,
            match r {
                Ok(_) => old(self).offset + n <= old(self).buffer@.len() && final(self).offset
                    == old(self).offset + n && final(out)@ == old(out)@ + old(
                    self,
                ).buffer@.subrange(old(self).offset as int, old(self).offset + n),
                Err(_) => old(self).offset + n > old(self).buffer@.len() && *final(self) == *old(
                    self,
                ) && final(out)@ == old(out)@,
            },
    {
        if n > self.buffer.len() - self.offset {
            return Err(WuffErr::GenericError);
        }
        let mut i: usize = 0;
        while i < n
            invariant
                i <= n,
                self.buffer == old(self).buffer,
                self.offset == old(self).offset,
                self.wf(),
                self.buffer@.len() <= usize::MAX,
                self.offset + n <= self.buffer@.len(),
                out@ == old(out)@ + self.buffer@.subrange(
                    self.offset as int,
                    self.offset + i,
                ),
            decreases n - i,
        {
            let b: u8 = self.buffer[self.offset + i];
            out.push(b);
            proof {
                assert(out@ =~= old(out)@ + self.buffer@.subrange(
                    self.offset as int,
                    self.offset + i + 1,
                ));
            }
            i = i + 1;
        }
        self.offset = self.offset + n;
        Ok(())
    }

    /// The bytes that remain from the current offset to the end.
    pub fn remaining_as_slice(&self) -> (r: &'a [u8])
        requires
            self.wf(),
        ensures
            r@ == self.buffer@.skip(self.offset as int),
    {
        vstd::slice::slice_subrange(self.buffer, self.offset, self.buffer.len())
    }

    pub fn buffer(&self) -> (r: &'a [u8])
        ensures
            r@ == self.buffer@,
    {
        self.buffer
    }

    pub fn len(&self) -> (r: usize)
        ensures
            r == self.buffer@.len(),
    {
        self.buffer.len()
    }

    pub fn is_empty(&self) -> (r: bool)
        ensures
            r <==> self.buffer@.len() == 0,
    {
        self.buffer.len() == 0
    }

    pub fn offset(&self) -> (r: usize)
        ensures
            r == self.offset,
    {
        self.offset
    }

    pub fn set_offset(&mut self, new_offset: usize)
        requires
            new_offset <= old(self).buffer@.len(),
        ensures
            final(self).wf(),
            final(self).buffer == old(self).buffer,
            final(self).offset == new_offset,
    {
        self.offset = new_offset;
    }
}

} // verus!
