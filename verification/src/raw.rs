//! Byte-level views over caller-supplied memory.
//!
//! `RawBytes` is a read cursor over a region of bytes a caller hands to the
//! engine (the source of a write request's body), and `MutRawBytes` is a
//! write cursor over a region the engine fills on the caller's behalf (the
//! destination of a read request's result). Both cap every transfer at the
//! bytes that are actually there, so a short region yields a short count,
//! never an out-of-bounds access.

use vstd::math::min;
use vstd::prelude::*;

use crate::errors::IpcError;

verus! {

/// A read cursor over a caller-supplied byte region.
pub struct RawBytes {
    data: Vec<u8>,
    pos: usize,
}

impl RawBytes {
    /// The whole region, independent of how far the cursor has advanced.
    pub closed spec fn all_bytes(&self) -> Seq<u8> {
        self.data@
    }

    /// How many bytes have been consumed so far.
    pub closed spec fn position(&self) -> int {
        self.pos as int
    }

    pub open spec fn wf(&self) -> bool {
        0 <= self.position() <= self.all_bytes().len()
    }

    /// The bytes the cursor has not yet produced.
    pub open spec fn remaining(&self) -> Seq<u8> {
        self.all_bytes().subrange(self.position(), self.all_bytes().len() as int)
    }

    pub fn new(data: Vec<u8>) -> (r: RawBytes)
        ensures
            r.wf(),
            r.all_bytes() == data@,
            r.position() == 0,
    {
        RawBytes { data, pos: 0 }
    }

    /// Total number of bytes read out of this region so far.
    pub fn consumed(&self) -> (n: usize)
        ensures
            n == self.position(),
    {
        self.pos
    }

    /// How many bytes are still there to read.
    pub fn remaining_len(&self) -> (n: usize)
        requires
            self.wf(),
        ensures
            n == self.remaining().len(),
    {
        self.data.len() - self.pos
    }

    /// Fills `buff` from its start with the next bytes of the region,
    /// stopping at whichever runs out first, and reports the count.
    #[verifier::loop_isolation(false)]
    pub fn read(&mut self, buff: &mut Vec<u8>) -> (r: Result<usize, IpcError>)
        requires
            old(self).wf(),
        ensures
            final(self).wf(),
            final(self).all_bytes() == old(self).all_bytes(),
            ({
                let n = min(old(self).remaining().len() as int, old(buff).len() as int);
                &&& r matches Ok(c) && c == n
                &&& final(self).position() == old(self).position() + n
                &&& final(buff)@ == old(self).remaining().subrange(0, n) + old(buff)@.subrange(
                    n,
                    old(buff).len() as int,
                )
            }),
    {
        let avail: usize = self.data.len() - self.pos;
        let want: usize = buff.len();
        let n: usize = if avail < want {
            avail
        } else {
            want
        };
        let mut i: usize = 0;
        while i < n
            invariant
                i <= n,
                buff@ == old(self).remaining().subrange(0, i as int) + old(buff)@.subrange(
                    i as int,
                    old(buff).len() as int,
                ),
            decreases n - i,
        {
            buff.set(i, self.data[self.pos + i]);
            proof {
                assert(buff@ =~= old(self).remaining().subrange(0, i + 1) + old(buff)@.subrange(
                    i + 1,
                    old(buff).len() as int,
                ));
            }
            i = i + 1;
        }
        self.pos = self.pos + n;
        Ok(n)
    }
}

/// A write cursor over a caller-supplied byte region of fixed size.
pub struct MutRawBytes {
    data: Vec<u8>,
    pos: usize,
}

impl MutRawBytes {
    /// The whole region, including bytes not yet overwritten.
    pub closed spec fn all_bytes(&self) -> Seq<u8> {
        self.data@
    }

    /// How many bytes have been written so far.
    pub closed spec fn position(&self) -> int {
        self.pos as int
    }

    pub open spec fn wf(&self) -> bool {
        0 <= self.position() <= self.all_bytes().len()
    }

    /// How many more bytes the region can take.
    pub open spec fn space(&self) -> int {
        self.all_bytes().len() - self.position()
    }

    pub fn new(data: Vec<u8>) -> (r: MutRawBytes)
        ensures
            r.wf(),
            r.all_bytes() == data@,
            r.position() == 0,
    {
        MutRawBytes { data, pos: 0 }
    }

    /// How many more bytes fit before the region is full.
    pub fn space_left(&self) -> (n: usize)
        requires
            self.wf(),
        ensures
            n == self.space(),
    {
        self.data.len() - self.pos
    }

    /// Copies as much of `buff` as fits at the cursor and reports how many
    /// bytes were taken.
    #[verifier::loop_isolation(false)]
    pub fn write(&mut self, buff: &[u8]) -> (r: Result<usize, IpcError>)
        requires
            old(self).wf(),
        ensures
            final(self).wf(),
            ({
                let n = min(old(self).space(), buff@.len() as int);
                &&& r matches Ok(c) && c == n
                &&& final(self).position() == old(self).position() + n
                &&& final(self).all_bytes() == old(self).all_bytes().subrange(
                    0,
                    old(self).position(),
                ) + buff@.subrange(0, n) + old(self).all_bytes().subrange(
                    old(self).position() + n,
                    old(self).all_bytes().len() as int,
                )
            }),
    {
        let avail: usize = self.data.len() - self.pos;
        let want: usize = buff.len();
        let n: usize = if avail < want {
            avail
        } else {
            want
        };
        let start: usize = self.pos;
        let mut i: usize = 0;
        while i < n
            invariant
                i <= n,
                self.pos == start,
                self.data@.len() == old(self).all_bytes().len(),
                self.data@ == old(self).all_bytes().subrange(0, start as int) + buff@.subrange(
                    0,
                    i as int,
                ) + old(self).all_bytes().subrange(
                    start + i,
                    old(self).all_bytes().len() as int,
                ),
            decreases n - i,
        {
            self.data.set(self.pos + i, buff[i]);
            proof {
                assert(self.data@ =~= old(self).all_bytes().subrange(0, start as int)
                    + buff@.subrange(0, i + 1) + old(self).all_bytes().subrange(
                    start + i + 1,
                    old(self).all_bytes().len() as int,
                ));
            }
            i = i + 1;
        }
        self.pos = self.pos + n;
        proof {
            assert(self.data@ =~= old(self).all_bytes().subrange(0, start as int)
                + buff@.subrange(0, n as int) + old(self).all_bytes().subrange(
                start + n,
                old(self).all_bytes().len() as int,
            ));
        }
        Ok(n)
    }

    /// Nothing is buffered, so flushing never has work to do.
    pub fn flush(&mut self) -> (r: Result<(), IpcError>)
        ensures
            *final(self) == *old(self),
            r matches Ok(u),
    {
        Ok(())
    }

    /// Hands the region back to the caller.
    pub fn into_inner(self) -> (v: Vec<u8>)
        ensures
            v@ == self.all_bytes(),
    {
        self.data
    }
}

} // verus!
