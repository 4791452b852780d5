//! The byte source the parser consumes.
//!
//! A `Reader` owns a buffer and a cursor into it.  Its view is the
//! sequence of bytes not yet consumed; every operation says exactly
//! which prefix of that sequence it hands out and how far it moves
//! the cursor.

use vstd::prelude::*;

use crate::error::Error;
use vstd::math::min;

verus! {

/// A cursor over an owned byte buffer.
#[derive(Debug)]
pub struct Reader {
    buf: Vec<u8>,
    pos: usize,
}

impl View for Reader {
    type V = Seq<u8>;

    /// The bytes not yet consumed.
    closed spec fn view(&self) -> Seq<u8> {
        self.buf@.skip(self.pos as int)
    }
}

impl Reader {
    /// The cursor never stands past the end of the buffer.
    pub closed spec fn wf(self) -> bool {
        self.pos <= self.buf.len()
    }

    /// Wraps a buffer; the whole buffer is yet to be consumed.
    pub fn new(buf: Vec<u8>) -> (r: Reader)
        ensures
            r.wf(),
            r@ == buf@,
    {
        let r = Reader { buf, pos: 0 };
        proof {
            assert(r@ =~= r.buf@);
        }
        r
    }

    /// How many bytes are left.
    pub fn remaining(&self) -> (n: usize)
        requires
            self.wf(),
        ensures
            n == self@.len(),
    {
        self.buf.len() - self.pos
    }

    /// Whether every byte has been consumed.
    pub fn at_eof(&self) -> (r: bool)
        requires
            self.wf(),
        ensures
            r == (self@.len() == 0),
    {
        self.pos == self.buf.len()
    }

    /// A copy of up to `n` unconsumed bytes; the cursor stands still.
    pub fn data(&self, n: usize) -> (out: Vec<u8>)
        requires
            self.wf(),
        ensures
            out@ == self@.take(min(n as int, self@.len() as int)),
    {
        let take = if n <= self.buf.len() - self.pos { n } else { self.buf.len() - self.pos };
        let mut out: Vec<u8> = Vec::new();
        let mut i: usize = 0;
        while i < take
            invariant
                self.wf(),
                take <= self.buf.len() - self.pos,
                i <= take,
                out@ == self@.take(i as int),
            decreases take - i,
        {
            out.push(self.buf[self.pos + i]);
            i = i + 1;
            proof {
                assert(out@ =~= self@.take(i as int));
            }
        }
        out
    }

    /// Advances the cursor over `n` previously seen bytes.
    pub fn consume(&mut self, n: usize)
        requires
            old(self).wf(),
            n <= old(self)@.len(),
        ensures
            final(self).wf(),
            final(self)@ == old(self)@.skip(n as int),
    {
        self.pos = self.pos + n;
        proof {
            assert(self@ =~= old(self)@.skip(n as int));
        }
    }

    /// Hands out exactly `n` bytes and consumes them, or fails with
    /// `TruncatedInput` leaving the cursor where it stood.
    pub fn data_consume_hard(&mut self, n: usize) -> (r: Result<Vec<u8>, Error>)
        requires
            old(self).wf(),
        ensures
            final(self).wf(),
            n <= old(self)@.len() ==> (r is Ok
                && r->Ok_0@ == old(self)@.take(n as int)
                && final(self)@ == old(self)@.skip(n as int)),
            n > old(self)@.len() ==> (r matches Err(e)
                && e == Error::TruncatedInput
                && final(self)@ == old(self)@),
    {
        if n > self.buf.len() - self.pos {
            return Err(Error::TruncatedInput);
        }
        let out = self.data(n);
        self.consume(n);
        Ok(out)
    }

    /// Reads one byte, or fails with `TruncatedInput`.
    pub fn read_u8(&mut self) -> (r: Result<u8, Error>)
        requires
            old(self).wf(),
        ensures
            final(self).wf(),
            old(self)@.len() >= 1 ==> (r is Ok
                && r->Ok_0 == old(self)@[0]
                && final(self)@ == old(self)@.skip(1)),
            old(self)@.len() == 0 ==> (r matches Err(e)
                && e == Error::TruncatedInput
                && final(self)@ == old(self)@),
    {
        if self.pos < self.buf.len() {
            let b = self.buf[self.pos];
            self.consume(1);
            Ok(b)
        } else {
            Err(Error::TruncatedInput)
        }
    }

    /// Reads a big-endian 16-bit value, or fails with `TruncatedInput`.
    pub fn read_be_u16(&mut self) -> (r: Result<u16, Error>)
        requires
            old(self).wf(),
        ensures
            final(self).wf(),
            old(self)@.len() >= 2 ==> (r is Ok
                && r->Ok_0 == be16(old(self)@[0], old(self)@[1])
                && final(self)@ == old(self)@.skip(2)),
            old(self)@.len() < 2 ==> (r matches Err(e)
                && e == Error::TruncatedInput
                && final(self)@ == old(self)@),
    {
        if self.buf.len() - self.pos >= 2 {
            let b0 = self.buf[self.pos];
            let b1 = self.buf[self.pos + 1];
            self.consume(2);
            Ok((b0 as u16) * 256 + (b1 as u16))
        } else {
            Err(Error::TruncatedInput)
        }
    }

    /// Reads a big-endian 32-bit value, or fails with `TruncatedInput`.
    pub fn read_be_u32(&mut self) -> (r: Result<u32, Error>)
        requires
            old(self).wf(),
        ensures
            final(self).wf(),
            old(self)@.len() >= 4 ==> (r is Ok
                && r->Ok_0 == be32(old(self)@[0], old(self)@[1], old(self)@[2], old(self)@[3])
                && final(self)@ == old(self)@.skip(4)),
            old(self)@.len() < 4 ==> (r matches Err(e)
                && e == Error::TruncatedInput
                && final(self)@ == old(self)@),
    {
        if self.buf.len() - self.pos >= 4 {
            let b0 = self.buf[self.pos];
            let b1 = self.buf[self.pos + 1];
            let b2 = self.buf[self.pos + 2];
            let b3 = self.buf[self.pos + 3];
            self.consume(4);
            Ok((b0 as u32) * 0x1000000 + (b1 as u32) * 0x10000 + (b2 as u32) * 0x100 + (b3 as u32))
        } else {
            Err(Error::TruncatedInput)
        }
    }

    /// Hands out every remaining byte and consumes them all.
    pub fn data_eof(&mut self) -> (out: Vec<u8>)
        requires
            old(self).wf(),
        ensures
            final(self).wf(),
            out@ == old(self)@,
            final(self)@.len() == 0,
    {
        let n = self.buf.len() - self.pos;
        let out = self.data(n);
        self.consume(n);
        proof {
            assert(out@ =~= old(self)@);
        }
        out
    }
}

/// The value of two bytes read big-endian.
pub open spec fn be16(b0: u8, b1: u8) -> u16 {
    (b0 as u16 * 256 + b1 as u16) as u16
}

/// The value of four bytes read big-endian.
pub open spec fn be32(b0: u8, b1: u8, b2: u8, b3: u8) -> u32 {
    (b0 as u32 * 0x1000000 + b1 as u32 * 0x10000 + b2 as u32 * 0x100 + b3 as u32) as u32
}

} // verus!
