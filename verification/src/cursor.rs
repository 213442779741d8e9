//! Bounds-checked forward reader over a byte buffer, plus big-endian
//! write helpers that append to a growable output buffer.
//!
//! Every multi-byte field on the DNS wire is big-endian. The cursor keeps
//! its position explicit so that compression-pointer resolution can save
//! it, jump to an absolute offset, and restore it afterwards. Reads fail
//! with `Truncated` when too few bytes remain; writes append and never
//! fail.

use vstd::prelude::*;

use crate::error::{ErrorKind, ServerError};

verus! {

/// The 16-bit value two big-endian bytes denote.
pub open spec fn combine16(hi: u8, lo: u8) -> u16 {
    ((hi as int) * 256 + (lo as int)) as u16
}

/// The 32-bit value four big-endian bytes denote.
pub open spec fn combine32(b0: u8, b1: u8, b2: u8, b3: u8) -> u32 {
    ((b0 as int) * 0x1000000 + (b1 as int) * 0x10000 + (b2 as int) * 0x100 + (b3 as int)) as u32
}

/// The two big-endian bytes of a 16-bit value.
pub open spec fn be16_bytes(v: u16) -> Seq<u8> {
    seq![(v / 256) as u8, (v % 256) as u8]
}

/// The four big-endian bytes of a 32-bit value.
pub open spec fn be32_bytes(v: u32) -> Seq<u8> {
    seq![
        (v / 0x1000000) as u8,
        ((v / 0x10000) % 256) as u8,
        ((v / 0x100) % 256) as u8,
        (v % 256) as u8,
    ]
}

/// Splitting a 16-bit value into big-endian bytes and recombining them
/// gives the value back.
pub proof fn lemma_combine16_round_trip(v: u16)
    ensures
        combine16(be16_bytes(v)[0], be16_bytes(v)[1]) == v,
{
    assert((v / 256) * 256 + (v % 256) == v) by (bit_vector);
}

/// Splitting a 32-bit value into big-endian bytes and recombining them
/// gives the value back.
pub proof fn lemma_combine32_round_trip(v: u32)
    ensures
        combine32(be32_bytes(v)[0], be32_bytes(v)[1], be32_bytes(v)[2], be32_bytes(v)[3]) == v,
{
    assert((v / 0x1000000) * 0x1000000 + ((v / 0x10000) % 256) * 0x10000 + ((v / 0x100) % 256)
        * 0x100 + (v % 256) == v) by (bit_vector);
}

/// A read position over an owned byte buffer.
pub struct ByteCursor {
    pub buf: Vec<u8>,
    pub pos: usize,
}

impl ByteCursor {
    /// The position never runs past the end of the buffer.
    pub open spec fn wf(&self) -> bool {
        self.pos <= self.buf@.len()
    }

    /// Wraps a buffer with the position at its start.
    pub fn new(buf: Vec<u8>) -> (c: ByteCursor)
        ensures
            c.buf@ == buf@,
            c.pos == 0,
            c.wf(),
    {
        ByteCursor { buf, pos: 0 }
    }

    /// The current read position.
    pub fn position(&self) -> (p: usize)
        ensures
            p == self.pos,
    {
        self.pos
    }

    /// Moves the read position to an absolute offset.
    pub fn seek(&mut self, p: usize)
        requires
            p <= old(self).buf@.len(),
        ensures
            final(self).buf == old(self).buf,
            final(self).pos == p,
            final(self).wf(),
    {
        self.pos = p;
    }

    /// Reads one byte and advances; fails with `Truncated` at the end.
    pub fn read_u8(&mut self) -> (r: Result<u8, ServerError>)
        requires
            old(self).wf(),
        ensures
            final(self).buf == old(self).buf,
            final(self).wf(),
            old(self).pos < old(self).buf@.len() ==> r == Ok::<u8, ServerError>(
                old(self).buf@[old(self).pos as int],
            ) && final(self).pos == old(self).pos + 1,
            old(self).pos >= old(self).buf@.len() ==> r == Err::<u8, ServerError>(
                ServerError { kind: ErrorKind::Truncated },
            ) && final(self).pos == old(self).pos,
    {
        if self.pos < self.buf.len() {
            let b = self.buf[self.pos];
            self.pos = self.pos + 1;
            Ok(b)
        } else {
            Err(ServerError { kind: ErrorKind::Truncated })
        }
    }

    /// Reads two bytes as a big-endian 16-bit value.
    pub fn read_u16(&mut self) -> (r: Result<u16, ServerError>)
        requires
            old(self).wf(),
        ensures
            final(self).buf == old(self).buf,
            final(self).wf(),
            old(self).pos + 2 <= old(self).buf@.len() ==> r == Ok::<u16, ServerError>(
                combine16(
                    old(self).buf@[old(self).pos as int],
                    old(self).buf@[old(self).pos + 1],
                ),
            ) && final(self).pos == old(self).pos + 2,
            old(self).pos + 2 > old(self).buf@.len() ==> r == Err::<u16, ServerError>(
                ServerError { kind: ErrorKind::Truncated },
            ) && final(self).pos == old(self).pos,
    {
        if self.buf.len() - self.pos >= 2 {
            let b0 = self.buf[self.pos];
            let b1 = self.buf[self.pos + 1];
            self.pos = self.pos + 2;
            Ok((b0 as u16) * 256 + (b1 as u16))
        } else {
            Err(ServerError { kind: ErrorKind::Truncated })
        }
    }

    /// Reads four bytes as a big-endian 32-bit value.
    pub fn read_u32(&mut self) -> (r: Result<u32, ServerError>)
        requires
            old(self).wf(),
        ensures
            final(self).buf == old(self).buf,
            final(self).wf(),
            old(self).pos + 4 <= old(self).buf@.len() ==> r == Ok::<u32, ServerError>(
                combine32(
                    old(self).buf@[old(self).pos as int],
                    old(self).buf@[old(self).pos + 1],
                    old(self).buf@[old(self).pos + 2],
                    old(self).buf@[old(self).pos + 3],
                ),
            ) && final(self).pos == old(self).pos + 4,
            old(self).pos + 4 > old(self).buf@.len() ==> r == Err::<u32, ServerError>(
                ServerError { kind: ErrorKind::Truncated },
            ) && final(self).pos == old(self).pos,
    {
        if self.buf.len() - self.pos >= 4 {
            let b0 = self.buf[self.pos];
            let b1 = self.buf[self.pos + 1];
            let b2 = self.buf[self.pos + 2];
            let b3 = self.buf[self.pos + 3];
            self.pos = self.pos + 4;
            Ok((b0 as u32) * 0x1000000 + (b1 as u32) * 0x10000 + (b2 as u32) * 0x100 + (b3 as u32))
        } else {
            Err(ServerError { kind: ErrorKind::Truncated })
        }
    }

    /// Reads exactly `n` bytes as a copied buffer.
    pub fn read_bytes(&mut self, n: usize) -> (r: Result<Vec<u8>, ServerError>)
        requires
            old(self).wf(),
        ensures
            final(self).buf == old(self).buf,
            final(self).wf(),
            old(self).pos + n <= old(self).buf@.len() ==> (r matches Ok(v) && v@ == old(
                self,
            ).buf@.subrange(old(self).pos as int, old(self).pos + n)) && final(self).pos == old(
                self,
            ).pos + n,
            old(self).pos + n > old(self).buf@.len() ==> r == Err::<Vec<u8>, ServerError>(
                ServerError { kind: ErrorKind::Truncated },
            ) && final(self).pos == old(self).pos,
    {
        if self.buf.len() - self.pos >= n {
            let mut v: Vec<u8> = Vec::new();
            let mut i: usize = 0;
            while i < n
                invariant
                    i <= n,
                    self.pos + n <= self.buf@.len(),
                    self.buf@.len() <= usize::MAX,
                    v@ == self.buf@.subrange(self.pos as int, self.pos + i),
                decreases n - i,
            {
                v.push(self.buf[self.pos + i]);
                i = i + 1;
                assert(v@ == self.buf@.subrange(self.pos as int, self.pos + i));
            }
            self.pos = self.pos + n;
            Ok(v)
        } else {
            Err(ServerError { kind: ErrorKind::Truncated })
        }
    }

    /// Reads the byte at an absolute offset without moving the position.
    pub fn peek_at(&self, offset: usize) -> (r: Result<u8, ServerError>)
        ensures
            offset < self.buf@.len() ==> r == Ok::<u8, ServerError>(self.buf@[offset as int]),
            offset >= self.buf@.len() ==> r == Err::<u8, ServerError>(
                ServerError { kind: ErrorKind::Truncated },
            ),
    {
        if offset < self.buf.len() {
            Ok(self.buf[offset])
        } else {
            Err(ServerError { kind: ErrorKind::Truncated })
        }
    }
}

/// Appends one byte to the output buffer.
pub fn push_u8(out: &mut Vec<u8>, v: u8)
    ensures
        final(out)@ == old(out)@.push(v),
{
    out.push(v);
}

/// Appends a 16-bit value as two big-endian bytes.
pub fn push_u16(out: &mut Vec<u8>, v: u16)
    ensures
        final(out)@ == old(out)@ + be16_bytes(v),
{
    out.push((v / 256) as u8);
    out.push((v % 256) as u8);
    assert(out@ == old(out)@ + be16_bytes(v));
}

/// Appends a 32-bit value as four big-endian bytes.
pub fn push_u32(out: &mut Vec<u8>, v: u32)
    ensures
        final(out)@ == old(out)@ + be32_bytes(v),
{
    out.push((v / 0x1000000) as u8);
    out.push(((v / 0x10000) % 256) as u8);
    out.push(((v / 0x100) % 256) as u8);
    out.push((v % 256) as u8);
    assert(out@ == old(out)@ + be32_bytes(v));
}

} // verus!
