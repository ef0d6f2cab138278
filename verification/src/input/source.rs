//! Byte sources: where a streamed input pulls its bytes from.

use vstd::prelude::*;

verus! {

/// A source of bytes that is read in pieces. A read of no bytes into a
/// buffer with room means that the source has come to its end.
///
/// The contract of `read` speaks of the bytes that the source has yet to
/// hand out, of how many of them the next read hands over, and of the source
/// after that read. A source says what they are by defining `remaining`,
/// `next_read` and `after_read`; the bodies given here stand for "not said",
/// so that a source that is written without proofs can leave them out.
pub trait ByteSource: Sized {
    /// What must hold of the source between two reads.
    open spec fn wf(&self) -> bool {
        true
    }

    /// The bytes that the source has yet to hand out.
    open spec fn remaining(&self) -> Seq<u8> {
        arbitrary()
    }

    /// The number of bytes that the next read hands over into a buffer with
    /// room for `room` bytes.
    open spec fn next_read(&self, room: usize) -> usize {
        arbitrary()
    }

    /// The source after a read into a buffer with room for `room` bytes.
    open spec fn after_read(&self, room: usize) -> Self {
        arbitrary()
    }

    /// Moves the next bytes of the source to the front of `buf` and returns
    /// how many they are. The rest of `buf` is left as it was. A read never
    /// hands over more than there is room for or than the source has left.
    fn read(&mut self, buf: &mut [u8]) -> (n: usize)
        requires
            old(self).wf(),
        ensures
            final(self).wf(),
            n == old(self).next_read(old(buf)@.len() as usize),
            *final(self) == old(self).after_read(old(buf)@.len() as usize),
            n <= old(buf)@.len(),
            n <= old(self).remaining().len(),
            final(buf)@ == old(self).remaining().take(n as int) + old(buf)@.skip(n as int),
            final(self).remaining() == old(self).remaining().skip(n as int),
            n == 0 && old(buf)@.len() > 0 ==> old(self).remaining().len() == 0,
            forall|room: usize| #[trigger]
                final(self).next_read(room) <= final(self).remaining().len(),
    ;
}

/// An in-memory source that hands out at most `chunk` bytes per read.
#[derive(Debug, Clone)]
pub struct ChunkedSource {
    data: Vec<u8>,
    index: usize,
    chunk: usize,
}

impl ChunkedSource {
    /// The largest number of bytes that one read hands out.
    pub closed spec fn chunk(&self) -> usize {
        self.chunk
    }

    /// A source over `data` that hands out at most `chunk` bytes per read.
    pub fn new(data: Vec<u8>, chunk: usize) -> (r: Self)
        requires
            chunk > 0,
        ensures
            r.wf(),
            r.remaining() == data@,
            r.remaining().len() <= usize::MAX,
            r.chunk() == chunk,
            forall|room: usize| #[trigger] r.next_read(room) <= r.remaining().len(),
    {
        // the length of the data is a `usize`
        let _len = data.len();
        let r = ChunkedSource { data, index: 0, chunk };
        assert(r.data@.skip(0) =~= r.data@);
        r
    }

    /// A read takes its bytes from the front of what is left and leaves the
    /// source with the same chunk.
    pub proof fn lemma_after_read(&self, room: usize)
        requires
            self.wf(),
        ensures
            self.after_read(room).wf(),
            self.after_read(room).chunk() == self.chunk(),
            self.after_read(room).remaining() == self.remaining().skip(
                self.next_read(room) as int,
            ),
            self.next_read(room) <= room,
            self.next_read(room) <= self.remaining().len(),
            self.next_read(room) == 0 && room > 0 ==> self.remaining().len() == 0,
    {
        assert(self.after_read(room).remaining() =~= self.remaining().skip(
            self.next_read(room) as int,
        ));
    }
}

impl ByteSource for ChunkedSource {
    closed spec fn wf(&self) -> bool {
        self.index <= self.data.len() && self.chunk > 0
    }

    closed spec fn remaining(&self) -> Seq<u8> {
        self.data@.skip(self.index as int)
    }

    /// As many bytes as there is room for, as the source has left, and as
    /// fit in a chunk: the least of the three.
    open spec fn next_read(&self, room: usize) -> usize {
        vstd::math::min(
            room as int,
            vstd::math::min(self.remaining().len() as int, self.chunk() as int),
        ) as usize
    }

    closed spec fn after_read(&self, room: usize) -> Self {
        ChunkedSource {
            data: self.data,
            index: (self.index + self.next_read(room)) as usize,
            chunk: self.chunk,
        }
    }

    fn read(&mut self, buf: &mut [u8]) -> (n: usize)
        ensures
            final(self).chunk() == old(self).chunk(),
    {
        let left = self.data.len() - self.index;
        let room = if left < self.chunk {
            left
        } else {
            self.chunk
        };
        let size = if buf.len() < room {
            buf.len()
        } else {
            room
        };
        let mut j: usize = 0;
        while j < size
            invariant
                j <= size,
                size <= buf@.len(),
                buf@.len() == old(buf)@.len(),
                self.index + size <= self.data.len(),
                *self == *old(self),
                forall|k: int| 0 <= k < j ==> buf@[k] == self.data@[self.index + k],
                forall|k: int| j <= k < buf@.len() ==> buf@[k] == old(buf)@[k],
            decreases size - j,
        {
            buf[j] = self.data[self.index + j];
            j += 1;
        }
        self.index += size;
        assert(buf@ =~= old(self).remaining().take(size as int) + old(buf)@.skip(size as int));
        assert(self.remaining() =~= old(self).remaining().skip(size as int));
        size
    }
}

} // verus!
