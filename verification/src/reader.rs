//! A buffered character reader with one character of pushback.

use crate::error::{failure, ErrorKind, ParseError};
use crate::stream::ByteStream;
use vstd::prelude::*;

verus! {

/// The number of bytes that a reader made by [`BufReader::new`] fetches at a time.
pub const BUFFER_SIZE: usize = 4096;

/// The characters that a run of bytes stands for: each byte is the character
/// with that code.
pub open spec fn chars_of(bytes: Seq<u8>) -> Seq<char> {
    Seq::new(bytes.len(), |i: int| bytes[i] as char)
}

/// Bytes stand for characters one by one, so a run of bytes may be cut
/// anywhere: the characters of the whole are those of the front followed by
/// those of the back. This is why it makes no difference to a reader where
/// one buffer load ends and the next begins.
pub proof fn lemma_chars_of_cut(bytes: Seq<u8>, at: int)
    requires
        0 <= at <= bytes.len(),
    ensures
        chars_of(bytes) == chars_of(bytes.take(at)) + chars_of(bytes.skip(at)),
        chars_of(bytes).len() == bytes.len(),
{
}

/// Reads a byte stream one character at a time.
///
/// The reader fetches bytes from its stream a buffer at a time and hands them
/// out singly. One character can be pushed back after it was read; the next
/// read returns it again.
pub struct BufReader {
    r: ByteStream,
    buf: Vec<u8>,
    ofs: usize,
    len: usize,
    unread: Option<char>,
    armed: bool,
    pos: usize,
}

impl View for BufReader {
    type V = Seq<char>;

    /// Every character that reads will still return, in order: the one pushed
    /// back, those in the buffer, those still in the stream.
    closed spec fn view(&self) -> Seq<char> {
        let rest = chars_of(
            self.buf@.subrange(self.ofs as int, self.len as int) + self.r.remaining(),
        );
        match self.unread {
            Some(c) => seq![c] + rest,
            None => rest,
        }
    }
}

impl BufReader {
    /// The invariant of the reader: the cursor lies inside the filled part of
    /// the buffer, a pushed-back character bars another pushback, and the
    /// count of characters given out cannot overflow.
    pub closed spec fn wf(&self) -> bool {
        &&& self.r.wf()
        &&& self.buf.len() >= 1
        &&& self.ofs <= self.len <= self.buf.len()
        &&& self.unread is Some ==> !self.armed
        &&& self.armed ==> self.pos >= 1
        &&& self.pos + self@.len() <= usize::MAX
    }

    /// How many characters have been given out, pushbacks taken off.
    pub closed spec fn position(&self) -> int {
        self.pos as int
    }

    /// Whether a character may be pushed back now: one has been read, and
    /// none was pushed back since.
    pub closed spec fn can_unread(&self) -> bool {
        self.armed
    }

    /// The character in the pushback slot, if there is one.
    pub closed spec fn pending(&self) -> Option<char> {
        self.unread
    }

    /// How many bytes the buffer holds that have not been given out.
    pub closed spec fn buffered(&self) -> nat {
        (self.len - self.ofs) as nat
    }

    /// How many bytes are still in the stream.
    pub closed spec fn unfetched(&self) -> nat {
        self.r.remaining().len()
    }

    /// How many bytes the buffer can hold.
    pub closed spec fn capacity(&self) -> nat {
        self.buf.len() as nat
    }

    /// How many times the reader has fetched from the stream.
    pub closed spec fn refills(&self) -> nat {
        self.r.reads()
    }

    /// Whether the next read has to fetch from the stream first.
    pub open spec fn exhausted(&self) -> bool {
        self.pending() is None && self.buffered() == 0
    }

    /// `self` is the state that `before` reaches by giving out `n` characters.
    pub open spec fn follows(&self, before: &BufReader, n: int) -> bool {
        &&& self.wf()
        &&& 0 <= n <= before@.len()
        &&& self@ == before@.skip(n)
        &&& self.position() == before.position() + n
        &&& self.capacity() == before.capacity()
    }

    /// What is left to read is the pushed-back character, then the buffer,
    /// then the stream.
    pub proof fn lemma_view_len(&self)
        requires
            self.wf(),
        ensures
            self@.len() == (if self.pending() is Some { 1nat } else { 0nat }) + self.buffered()
                + self.unfetched(),
            self.position() + self@.len() <= usize::MAX,
            self.can_unread() ==> self.pending() is None && self.position() >= 1,
            self.buffered() <= self.capacity(),
            self.capacity() >= 1,
    {
    }

    /// A reader over `r` with a buffer of [`BUFFER_SIZE`] bytes.
    pub fn new(r: ByteStream) -> (reader: BufReader)
        requires
            r.wf(),
        ensures
            reader.wf(),
            reader@ == chars_of(r.remaining()),
            reader.position() == 0,
            !reader.can_unread(),
            reader.pending() is None,
            reader.buffered() == 0,
            reader.unfetched() == r.remaining().len(),
            reader.capacity() == BUFFER_SIZE,
            reader.refills() == r.reads(),
    {
        BufReader::with_capacity(r, BUFFER_SIZE)
    }

    /// A reader over `r` with a buffer of `capacity` bytes. A buffer without
    /// room could fetch nothing, so a capacity of 0 is taken as 1.
    pub fn with_capacity(r: ByteStream, capacity: usize) -> (reader: BufReader)
        requires
            r.wf(),
        ensures
            reader.wf(),
            reader@ == chars_of(r.remaining()),
            reader.position() == 0,
            !reader.can_unread(),
            reader.pending() is None,
            reader.buffered() == 0,
            reader.unfetched() == r.remaining().len(),
            reader.capacity() == if capacity == 0 {
                1nat
            } else {
                capacity as nat
            },
            reader.refills() == r.reads(),
    {
        let room: usize = if capacity == 0 {
            1
        } else {
            capacity
        };
        let mut buf: Vec<u8> = Vec::new();
        let mut i: usize = 0;
        while i < room
            invariant
                i <= room,
                buf.len() == i,
            decreases room - i,
        {
            buf.push(0u8);
            i += 1;
        }
        proof {
            r.lemma_remaining_bounded();
        }
        let reader = BufReader { r, buf, ofs: 0, len: 0, unread: None, armed: false, pos: 0 };
        reader
    }

    /// How many characters have been given out, pushbacks taken off.
    pub fn consumed(&self) -> (n: usize)
        ensures
            n == self.position(),
    {
        self.pos
    }

    /// Fetches the next run of bytes from the stream into the buffer: as many
    /// as the buffer holds, or all that the stream has left. The buffer must
    /// have been read to its end. What reads will return does not change.
    pub fn fill(&mut self)
        requires
            old(self).wf(),
            old(self).buffered() == 0,
        ensures
            final(self).wf(),
            final(self)@ == old(self)@,
            final(self).position() == old(self).position(),
            final(self).can_unread() == old(self).can_unread(),
            final(self).pending() == old(self).pending(),
            final(self).capacity() == old(self).capacity(),
            final(self).buffered() == if old(self).capacity() <= old(self).unfetched() {
                old(self).capacity()
            } else {
                old(self).unfetched()
            },
            final(self).unfetched() == old(self).unfetched() - final(self).buffered(),
            final(self).refills() == old(self).refills() + 1,
    {
        let cap: usize = self.buf.len();
        self.len = self.r.read(&mut self.buf, cap);
        self.ofs = 0;
    }

    /// Pushes `c` back, so that the next read returns it. This is allowed
    /// once after each character read. Where it is not allowed, nothing
    /// changes and the call fails.
    pub fn unread_char(&mut self, c: char) -> (res: Result<(), ParseError>)
        requires
            old(self).wf(),
        ensures
            final(self).wf(),
            final(self).capacity() == old(self).capacity(),
            final(self).refills() == old(self).refills(),
            old(self).can_unread() ==> {
                &&& res is Ok
                &&& final(self)@ == seq![c] + old(self)@
                &&& final(self).pending() == Some(c)
                &&& final(self).position() == old(self).position() - 1
                &&& !final(self).can_unread()
            },
            !old(self).can_unread() ==> {
                &&& res matches Err(e)
                &&& e@ == failure(ErrorKind::CannotUnread, old(self).position())
                &&& *final(self) == *old(self)
            },
    {
        if !self.armed {
            return Err(ParseError::at(ErrorKind::CannotUnread, self.pos));
        }
        self.unread = Some(c);
        self.armed = false;
        self.pos -= 1;
        Ok(())
    }

    /// The next character, or `None` at the end of the input. The stream is
    /// asked for more at most once, and only if the reader has nothing left.
    pub fn read_char(&mut self) -> (res: Option<char>)
        requires
            old(self).wf(),
        ensures
            final(self).wf(),
            final(self).capacity() == old(self).capacity(),
            old(self)@.len() > 0 ==> {
                &&& res == Some(old(self)@[0])
                &&& final(self).follows(old(self), 1)
                &&& final(self).can_unread()
            },
            old(self)@.len() == 0 ==> {
                &&& res is None
                &&& final(self).follows(old(self), 0)
                &&& final(self).can_unread() == old(self).can_unread()
            },
            final(self).pending() is None,
            final(self).refills() == old(self).refills() + if old(self).exhausted() {
                1nat
            } else {
                0nat
            },
    {
        match self.unread {
            Some(c) => {
                self.unread = None;
                self.armed = true;
                self.pos += 1;
                assert(self@ =~= old(self)@.skip(1));
                return Some(c);
            },
            None => {},
        }
        if self.ofs == self.len {
            self.fill();
        }
        if self.ofs == self.len {
            assert(self@ =~= old(self)@.skip(0));
            return None;
        }
        let c: char = self.buf[self.ofs] as char;
        let ghost mid = self@;
        self.ofs += 1;
        self.armed = true;
        self.pos += 1;
        assert(self@ =~= mid.skip(1));
        Some(c)
    }

    /// The next character; the end of the input is a failure.
    pub fn must_read_char(&mut self) -> (res: Result<char, ParseError>)
        requires
            old(self).wf(),
        ensures
            final(self).wf(),
            old(self)@.len() > 0 ==> {
                &&& res matches Ok(c)
                &&& c == old(self)@[0]
                &&& final(self).follows(old(self), 1)
                &&& final(self).can_unread()
            },
            old(self)@.len() == 0 ==> {
                &&& res matches Err(e)
                &&& e@ == failure(ErrorKind::UnexpectedEof, old(self).position())
                &&& final(self).follows(old(self), 0)
                &&& final(self).can_unread() == old(self).can_unread()
            },
            final(self).pending() is None,
            final(self).refills() == old(self).refills() + if old(self).exhausted() {
                1nat
            } else {
                0nat
            },
    {
        match self.read_char() {
            None => Err(ParseError::at(ErrorKind::UnexpectedEof, self.pos)),
            Some(c) => Ok(c),
        }
    }

    /// Tests for the end of the input by reading one character and pushing
    /// it back. Returns `true` at the end. What reads will return does not
    /// change.
    pub fn prod(&mut self) -> (at_end: bool)
        requires
            old(self).wf(),
        ensures
            final(self).follows(old(self), 0),
            at_end == (old(self)@.len() == 0),
            !at_end ==> !final(self).can_unread() && final(self).pending() == Some(old(self)@[0]),
            at_end ==> final(self).can_unread() == old(self).can_unread() && final(self).pending()
                is None,
            final(self).refills() == old(self).refills() + if old(self).exhausted() {
                1nat
            } else {
                0nat
            },
    {
        match self.read_char() {
            Some(c) => {
                // A character has just been read, so this cannot fail.
                let _ = self.unread_char(c);
                assert(self@ =~= old(self)@.skip(0));
                false
            },
            None => true,
        }
    }
}

} // verus!
