//! An in-memory byte source that hands its contents out in sequential reads.

use vstd::prelude::*;

verus! {

/// A sequential source of bytes with an end-of-stream signal.
///
/// The stream owns the bytes it will deliver. Every read takes bytes from the
/// front of what is left; nothing is ever delivered twice.
pub struct ByteStream {
    data: Vec<u8>,
    pos: usize,
    reads: Ghost<nat>,
}

impl ByteStream {
    /// The cursor lies inside the data.
    pub closed spec fn wf(&self) -> bool {
        self.pos <= self.data.len()
    }

    /// The bytes that have not been delivered yet, in order.
    pub closed spec fn remaining(&self) -> Seq<u8> {
        self.data@.skip(self.pos as int)
    }

    /// How many times `read` has been called on this stream.
    pub closed spec fn reads(&self) -> nat {
        self.reads@
    }

    /// What is left of a stream always fits a machine word.
    pub proof fn lemma_remaining_bounded(&self)
        requires
            self.wf(),
        ensures
            self.remaining().len() <= usize::MAX,
    {
    }

    /// A stream that will deliver exactly `data`.
    pub fn new(data: Vec<u8>) -> (s: ByteStream)
        ensures
            s.wf(),
            s.remaining() == data@,
            s.reads() == 0,
    {
        ByteStream { data, pos: 0, reads: Ghost(0) }
    }

    /// Whether every byte has been delivered.
    pub fn eof(&self) -> (done: bool)
        requires
            self.wf(),
        ensures
            done == (self.remaining().len() == 0),
    {
        self.pos >= self.data.len()
    }

    /// Moves bytes from the front of the stream into the front of `buf` and
    /// returns how many were moved: `max`, or as many as `buf` has room for,
    /// or all that is left, whichever is least. The rest of `buf` keeps its
    /// contents.
    pub fn read(&mut self, buf: &mut Vec<u8>, max: usize) -> (n: usize)
        requires
            old(self).wf(),
        ensures
            final(self).wf(),
            n == vstd::math::min(
                vstd::math::min(max as int, old(buf).len() as int),
                old(self).remaining().len() as int,
            ),
            final(buf)@ == old(self).remaining().take(n as int) + old(buf)@.skip(n as int),
            final(self).remaining() == old(self).remaining().skip(n as int),
            final(self).reads() == old(self).reads() + 1,
    {
        let left: usize = self.data.len() - self.pos;
        let room: usize = if max <= buf.len() {
            max
        } else {
            buf.len()
        };
        let n: usize = if room <= left {
            room
        } else {
            left
        };
        let start: usize = self.pos;
        let mut i: usize = 0;
        while i < n
            invariant
                i <= n,
                n <= buf.len(),
                buf.len() == old(buf).len(),
                start + n <= self.data.len(),
                start == self.pos,
                self.pos == old(self).pos,
                self.data == old(self).data,
                self.reads == old(self).reads,
                buf@ == self.data@.subrange(start as int, start + i) + old(buf)@.skip(i as int),
            decreases n - i,
        {
            buf.set(i, self.data[start + i]);
            i += 1;
        }
        self.pos = start + n;
        self.reads = Ghost(self.reads@ + 1);
        n
    }
}

} // verus!
