//! An input that streams from a byte source through a buffer of fixed size.

use vstd::prelude::*;
use vstd::string::StringSliceAdditionalSpecFns;
use vstd::utf8::{is_char_boundary, valid_utf8};

use crate::input::source::ByteSource;
use crate::input::default::outcome;
use crate::input::utf8::{
    lemma_longest_valid_prefix, lemma_split_at_boundary, lemma_text_of_bytes, str_from_utf8,
    cut_off, lemma_offending, text_of, valid_up_to, Utf8Fault,
};
use crate::input::{Input, InvalidUtf8, ReadError, EOF_INDEX};

verus! {

/// An input over the byte source `R` with a buffer of `N` bytes.
#[derive(Debug, Clone)]
pub struct ReaderInput<R: ByteSource, const N: usize> {
    reader: R,
    buffer: Vec<u8>,
    index: usize,
    cursor: usize,
    char_boundary: usize,
    filled: usize,
}

impl<R: ByteSource, const N: usize> ReaderInput<R, N> {
    /// Offset in the buffer of the next unconsumed byte.
    pub closed spec fn spec_cursor(&self) -> usize {
        self.cursor
    }

    /// Offset in the buffer of the end of the validated prefix.
    pub closed spec fn spec_char_boundary(&self) -> usize {
        self.char_boundary
    }

    /// Offset in the buffer of the end of the bytes pulled from the source.
    pub closed spec fn spec_filled(&self) -> usize {
        self.filled
    }

    /// The buffer.
    pub closed spec fn store(&self) -> Seq<u8> {
        self.buffer@
    }

    /// The byte source.
    pub closed spec fn source(&self) -> R {
        self.reader
    }

    /// The absolute offset of the cursor, or the end mark.
    pub closed spec fn spec_index(&self) -> usize {
        self.index
    }

    #[inline(always)]
    pub fn new(reader: R) -> (r: Self)
        requires
            reader.wf(),
            reader.remaining().len() <= usize::MAX,
            forall|room: usize| #[trigger] reader.next_read(room) <= reader.remaining().len(),
        ensures
            r.wf(),
            r.position() == 0,
            r.spec_cursor() == 0,
            r.spec_char_boundary() == 0,
            r.spec_filled() == 0,
            r.unread() == reader.remaining(),
            r.source() == reader,
    {
        let r = ReaderInput {
            reader,
            buffer: vec![0u8; N],
            index: 0,
            cursor: 0,
            char_boundary: 0,
            filled: 0,
        };
        assert(r.buffered() =~= Seq::<u8>::empty());
        assert(r.unread() =~= reader.remaining());
        r
    }

    #[inline(always)]
    #[verifier::when_used_as_spec(spec_cursor)]
    pub fn cursor(&self) -> (r: usize)
        ensures
            r == self.spec_cursor(),
    {
        self.cursor
    }

    #[inline(always)]
    #[verifier::when_used_as_spec(spec_char_boundary)]
    pub fn char_boundary(&self) -> (r: usize)
        ensures
            r == self.spec_char_boundary(),
    {
        self.char_boundary
    }

    #[inline(always)]
    #[verifier::when_used_as_spec(spec_filled)]
    pub fn filled(&self) -> (r: usize)
        ensures
            r == self.spec_filled(),
    {
        self.filled
    }
}

impl<R: ByteSource, const N: usize> ReaderInput<R, N> {
    /// What is held once the source has been asked for more until `n` bytes
    /// are held or a read hands over nothing: the source then, the number of
    /// bytes held, and whether the source was found dry. `have` bytes are
    /// held at the start and `room` bytes are free behind them.
    pub open spec fn filled_from(source: R, have: int, n: int, room: int) -> (R, int, bool)
        decreases room,
    {
        if have >= n {
            (source, have, false)
        } else {
            let k = source.next_read(room as usize) as int;
            if 0 < k <= room {
                Self::filled_from(source.after_read(room as usize), have + k, n, room - k)
            } else {
                (source.after_read(room as usize), have, true)
            }
        }
    }

    /// What `buffer_at_least(n)` makes of `pre`: the input `post` and the
    /// result `r`.
    ///
    /// A latched input stays as it is. Else the held bytes are moved to the
    /// front of the buffer if `n` bytes would not fit behind the cursor, and
    /// the source is asked until `n` bytes are held or a read hands over
    /// nothing. What is held is then checked from the cursor on. Where it is
    /// valid but for a last character that is cut off, the prefix becomes the
    /// valid part, and a source found dry latches the end. Where it holds an
    /// offending sequence, that is an encoding error at the absolute offset
    /// of the sequence, and the prefix stays as it was.
    pub open spec fn refilled(
        pre: Self,
        n: usize,
        post: Self,
        r: Result<(), ReadError>,
    ) -> bool {
        if pre.spec_index() == EOF_INDEX {
            post == pre && r == Err::<(), ReadError>(ReadError::EOF)
        } else {
            let had = pre.spec_filled() - pre.spec_cursor();
            let shift = n > had && n > N - pre.spec_cursor();
            let start = if shift {
                0
            } else {
                pre.spec_cursor() as int
            };
            let (source, have, drained) = Self::filled_from(
                pre.source(),
                had,
                n as int,
                N - start - had,
            );
            let held = pre.unread().take(have);
            let v = valid_up_to(held);
            let intact = valid_utf8(held) || cut_off(held.skip(v));
            &&& post.source() == source
            &&& post.spec_cursor() == start
            &&& post.spec_filled() == start + have
            &&& post.held() == held
            &&& post.unread() == pre.unread()
            &&& have >= had
            &&& drained == (n > have)
            &&& drained ==> post.source().remaining().len() == 0
            &&& post.spec_char_boundary() - post.spec_cursor() == if intact {
                v
            } else {
                pre.spec_char_boundary() - pre.spec_cursor()
            }
            &&& post.spec_index() == if intact && drained {
                EOF_INDEX
            } else {
                pre.spec_index()
            }
            &&& r == if !intact {
                Err::<(), ReadError>(
                    ReadError::InvalidUtf8(InvalidUtf8 { index: (pre.spec_index() + v) as usize }),
                )
            } else if drained {
                Err::<(), ReadError>(ReadError::EOF)
            } else {
                Ok::<(), ReadError>(())
            }
        }
    }

    /// Boundary safety. A well-formed input has its cursors in order within
    /// the buffer, and its buffered prefix, the bytes between the cursor and
    /// the character boundary, is valid UTF-8. (That an operation leaves the
    /// input well formed is in the contract of each.)
    pub proof fn lemma_boundary_safety(&self)
        requires
            self.wf(),
        ensures
            self.spec_cursor() <= self.spec_char_boundary() <= self.spec_filled() <= N,
            valid_utf8(self.buffered()),
            self.buffered() == self.store().subrange(
                self.spec_cursor() as int,
                self.spec_char_boundary() as int,
            ),
    {
    }

    /// Buffering is idempotent: a second `buffer_at_least(n)` right after the
    /// first gives the same result and moves no cursor.
    pub proof fn lemma_refill_twice(
        first: Self,
        second: Self,
        third: Self,
        n: usize,
        r1: Result<(), ReadError>,
        r2: Result<(), ReadError>,
    )
        requires
            first.wf(),
            n <= N,
            Self::refilled(first, n, second, r1),
            second.wf(),
            Self::refilled(second, n, third, r2),
            third.wf(),
        ensures
            r2 == r1,
            third.position() == second.position(),
            third.spec_cursor() == second.spec_cursor(),
            third.spec_char_boundary() == second.spec_char_boundary(),
            third.spec_filled() == second.spec_filled(),
            third.buffered() == second.buffered(),
            third.unread() == second.unread(),
    {
        if second.spec_index() != EOF_INDEX {
            let have = second.spec_filled() - second.spec_cursor();
            assert(second.held() =~= second.unread().take(have));
            assert(third.held() =~= third.unread().take(
                third.spec_filled() - third.spec_cursor(),
            ));
            if n > have {
                assert(second.unread() =~= second.held());
            }
            assert(third.held() == second.held());
            assert(third.buffered() =~= third.held().take(
                third.spec_char_boundary() - third.spec_cursor(),
            ));
            assert(second.buffered() =~= second.held().take(
                second.spec_char_boundary() - second.spec_cursor(),
            ));
        }
    }

    /// Moves the held bytes to the front of the buffer.
    fn shift_down(&mut self)
        requires
            old(self).buffer.len() == N,
            old(self).cursor <= old(self).char_boundary <= old(self).filled <= N,
        ensures
            final(self).buffer.len() == N,
            final(self).cursor == 0,
            final(self).char_boundary == old(self).char_boundary - old(self).cursor,
            final(self).filled == old(self).filled - old(self).cursor,
            final(self).held() == old(self).held(),
            final(self).buffered() == old(self).buffered(),
            final(self).reader == old(self).reader,
            final(self).index == old(self).index,
    {
        let len = self.filled - self.cursor;
        let start = self.cursor;
        let mut j: usize = 0;
        while j < len
            invariant
                j <= len,
                start + len <= N,
                self.buffer.len() == N,
                self.cursor == start,
                self.filled == start + len,
                self.char_boundary == old(self).char_boundary,
                self.reader == old(self).reader,
                self.index == old(self).index,
                forall|k: int| 0 <= k < j ==> self.buffer@[k] == old(self).buffer@[start + k],
                forall|k: int| j <= k < N ==> self.buffer@[k] == old(self).buffer@[k],
            decreases len - j,
        {
            let byte = self.buffer[start + j];
            self.buffer[j] = byte;
            j += 1;
        }
        self.char_boundary -= start;
        self.cursor = 0;
        self.filled = len;
        assert(self.held() =~= old(self).held());
        assert(self.buffered() =~= old(self).buffered());
    }

    /// Pulls once from the source into the free end of the buffer.
    fn pull(&mut self) -> (got: usize)
        requires
            old(self).buffer.len() == N,
            old(self).cursor <= old(self).char_boundary <= old(self).filled < N,
            old(self).reader.wf(),
        ensures
            final(self).buffer.len() == N,
            final(self).reader.wf(),
            final(self).cursor == old(self).cursor,
            final(self).char_boundary == old(self).char_boundary,
            final(self).index == old(self).index,
            final(self).filled == old(self).filled + got,
            final(self).filled <= N,
            got <= old(self).reader.remaining().len(),
            got == old(self).reader.next_read((N - old(self).filled) as usize),
            final(self).reader == old(self).reader.after_read((N - old(self).filled) as usize),
            forall|room: usize| #[trigger]
                final(self).reader.next_read(room) <= final(self).reader.remaining().len(),
            final(self).reader.remaining() == old(self).reader.remaining().skip(got as int),
            final(self).held() == old(self).held() + old(self).reader.remaining().take(got as int),
            final(self).buffered() == old(self).buffered(),
            got == 0 ==> old(self).reader.remaining().len() == 0,
    {
        let filled = self.filled;
        let (_, tail) = self.buffer.as_mut_slice().split_at_mut(filled);
        let got = self.reader.read(tail);
        self.filled = filled + got;
        assert(self.buffer@ =~= old(self).buffer@.subrange(0, filled as int) + (old(
            self,
        ).reader.remaining().take(got as int) + old(self).buffer@.subrange(
            filled as int,
            N as int,
        ).skip(got as int)));
        assert(self.held() =~= old(self).held() + old(self).reader.remaining().take(got as int));
        assert(self.buffered() =~= old(self).buffered());
        got
    }

    /// Ends a refill once the held bytes have been checked: `checked` says
    /// whether they are valid UTF-8 and, if not, where and how they fail;
    /// `drained` says whether the source has come to its end. A fault with an
    /// error length is an encoding error at the end of the valid prefix. Else
    /// the buffered prefix becomes the valid prefix, and a drained source
    /// latches the end of the input.
    pub fn settle(&mut self, checked: Result<(), Utf8Fault>, drained: bool) -> (r: Result<
        (),
        ReadError,
    >)
        requires
            old(self).wf(),
            old(self).position() != EOF_INDEX,
            match checked {
                Ok(()) => valid_utf8(old(self).held()),
                Err(fault) => fault.valid_up_to <= old(self).held().len() && valid_utf8(
                    old(self).held().take(fault.valid_up_to as int),
                ),
            },
        ensures
            final(self).wf(),
            final(self).spec_cursor() == old(self).spec_cursor(),
            final(self).spec_filled() == old(self).spec_filled(),
            final(self).store() == old(self).store(),
            final(self).source() == old(self).source(),
            final(self).unread() == old(self).unread(),
            match checked {
                Err(Utf8Fault { valid_up_to, error_len: Some(_) }) => {
                    &&& final(self).spec_char_boundary() == old(self).spec_char_boundary()
                    &&& final(self).position() == old(self).position()
                    &&& r == Err::<(), ReadError>(
                        ReadError::InvalidUtf8(
                            InvalidUtf8 { index: (old(self).position() + valid_up_to) as usize },
                        ),
                    )
                },
                _ => {
                    &&& final(self).spec_char_boundary() == old(self).spec_cursor() + match checked {
                        Ok(()) => old(self).held().len() as int,
                        Err(fault) => fault.valid_up_to as int,
                    }
                    &&& final(self).position() == if drained {
                        EOF_INDEX
                    } else {
                        old(self).position()
                    }
                    &&& r == if drained {
                        Err::<(), ReadError>(ReadError::EOF)
                    } else {
                        Ok::<(), ReadError>(())
                    }
                },
            },
    {
        proof {
            assert(self.held().take(self.held().len() as int) =~= self.held());
        }
        match checked {
            Ok(()) => {
                self.char_boundary = self.filled;
                assert(self.buffered() =~= old(self).held());
            },
            Err(fault) => {
                if fault.error_len.is_some() {
                    return Err(
                        ReadError::InvalidUtf8(
                            InvalidUtf8 { index: self.index + fault.valid_up_to },
                        ),
                    );
                }
                self.char_boundary = self.cursor + fault.valid_up_to;
                assert(self.buffered() =~= old(self).held().take(fault.valid_up_to as int));
            },
        }
        if drained {
            self.index = EOF_INDEX;
            return Err(ReadError::EOF);
        }
        Ok(())
    }
}

impl<R: ByteSource, const N: usize> Input for ReaderInput<R, N> {
    open spec fn wf(&self) -> bool {
        &&& self.store().len() == N
        &&& self.spec_cursor() <= self.spec_char_boundary() <= self.spec_filled() <= N
        &&& valid_utf8(self.buffered())
        &&& self.source().wf()
        &&& forall|room: usize| #[trigger]
            self.source().next_read(room) <= self.source().remaining().len()
        &&& self.spec_index() != EOF_INDEX ==> self.spec_index() + self.unread().len() <= EOF_INDEX
    }

    open spec fn position(&self) -> usize {
        self.spec_index()
    }

    open spec fn buffered(&self) -> Seq<u8> {
        self.store().subrange(self.spec_cursor() as int, self.spec_char_boundary() as int)
    }

    open spec fn unread(&self) -> Seq<u8> {
        self.held() + self.source().remaining()
    }

    /// The bytes pulled from the source and not yet consumed.
    open spec fn held(&self) -> Seq<u8> {
        self.store().subrange(self.spec_cursor() as int, self.spec_filled() as int)
    }

    open spec fn limit(&self) -> usize {
        N
    }

    open spec fn refills(&self, n: usize, post: &Self, r: Result<(), ReadError>) -> bool {
        Self::refilled(*self, n, *post, r)
    }

    /// The cursor moves by `n`, and so does the position unless the end is
    /// latched; the buffer, the boundary, the fill mark and the source stay.
    open spec fn consumes(&self, n: usize, post: &Self) -> bool {
        &&& post.spec_cursor() == self.spec_cursor() + n
        &&& post.spec_char_boundary() == self.spec_char_boundary()
        &&& post.spec_filled() == self.spec_filled()
        &&& post.store() == self.store()
        &&& post.source() == self.source()
        &&& post.spec_index() == if self.spec_index() == EOF_INDEX {
            EOF_INDEX as int
        } else {
            self.spec_index() + n
        }
    }

    /// A refill to four bytes, and on success the first character of the
    /// buffered prefix.
    open spec fn peeks(&self, post: &Self, r: Result<char, ReadError>) -> bool {
        &&& Self::refilled(*self, 4, *post, outcome(r))
        &&& r matches Ok(c) ==> post.buffered().len() > 0 && c == vstd::utf8::decode_utf8(
            post.buffered(),
        )[0]
    }

    proof fn lemma_wf(&self) {
        assert(self.buffered() =~= self.unread().take(self.buffered().len() as int));
    }

    #[inline(always)]
    fn capacity(&self) -> (r: usize) {
        N
    }

    #[inline(always)]
    fn get_unchecked(&self, n: usize) -> (r: &[u8]) {
        let r = vstd::slice::slice_subrange(self.buffer.as_slice(), self.cursor, self.cursor + n);
        assert(r@ =~= self.buffered().take(n as int));
        r
    }

    #[inline(always)]
    fn index(&self) -> (r: usize) {
        self.index
    }

    #[inline(always)]
    fn read(&self) -> (s: &str) {
        let bytes = vstd::slice::slice_subrange(
            self.buffer.as_slice(),
            self.cursor,
            self.char_boundary,
        );
        proof {
            vstd::utf8::is_char_boundary_start_end_of_seq(self.buffered());
        }
        text_of(bytes)
    }

    fn buffer_at_least(&mut self, n: usize) -> (r: Result<(), ReadError>)
        ensures
            Self::refilled(*old(self), n, *final(self), r),
    {
        if self.index == EOF_INDEX {
            return Err(ReadError::EOF);
        }
        let mut is_empty = false;
        let ghost had = self.filled - self.cursor;
        let ghost start = if n > had && n > N - self.cursor {
            0
        } else {
            self.cursor as int
        };
        let ghost goal = Self::filled_from(self.reader, had, n as int, N - start - had);

        // Filling the buffer if needed
        if n > self.filled - self.cursor {
            // Moving the data past the cursor to the start of the buffer
            if n > N - self.cursor {
                self.shift_down();
            }
            // Filling the buffer
            while n > self.filled - self.cursor
                invariant_except_break
                    !is_empty,
                    Self::filled_from(
                        self.reader,
                        self.filled - self.cursor,
                        n as int,
                        N - self.filled,
                    ) == goal,
                invariant
                    n <= N,
                    self.cursor == start,
                    forall|room: usize| #[trigger]
                        self.reader.next_read(room) <= self.reader.remaining().len(),
                    self.buffer.len() == N,
                    self.cursor <= self.char_boundary <= self.filled <= N,
                    n <= N - self.cursor,
                    self.reader.wf(),
                    self.index == old(self).index,
                    self.buffered() == old(self).buffered(),
                    self.unread() == old(self).unread(),
                    self.filled - self.cursor >= old(self).filled - old(self).cursor,
                    self.cursor == if n > N - old(self).cursor {
                        0
                    } else {
                        old(self).cursor as int
                    },
                ensures
                    goal == (self.reader, self.filled - self.cursor, is_empty),
                    self.cursor == start,
                    forall|room: usize| #[trigger]
                        self.reader.next_read(room) <= self.reader.remaining().len(),
                    n <= N,
                    self.buffer.len() == N,
                    self.cursor <= self.char_boundary <= self.filled <= N,
                    self.reader.wf(),
                    self.index == old(self).index,
                    self.buffered() == old(self).buffered(),
                    self.unread() == old(self).unread(),
                    self.filled - self.cursor >= old(self).filled - old(self).cursor,
                    self.cursor == if n > N - old(self).cursor {
                        0
                    } else {
                        old(self).cursor as int
                    },
                    is_empty == (n > self.filled - self.cursor),
                    is_empty ==> self.reader.remaining().len() == 0,
                decreases self.reader.remaining().len(),
            {
                let ghost before = *self;
                let result = self.pull();
                assert(self.unread() =~= before.unread()) by {
                    assert(before.reader.remaining() =~= before.reader.remaining().take(
                        result as int,
                    ) + before.reader.remaining().skip(result as int));
                }
                if result == 0 {
                    is_empty = true;
                    break ;
                }
            }
        }
        // Updating the char boundary

        let checked = match str_from_utf8(
            vstd::slice::slice_subrange(self.buffer.as_slice(), self.cursor, self.filled),
        ) {
            Ok(_) => Ok(()),
            Err(fault) => Err(fault),
        };
        proof {
            let held = self.held();
            match checked {
                Ok(()) => {
                    assert(held.take(held.len() as int) =~= held);
                    lemma_longest_valid_prefix(held, held.len() as int);
                },
                Err(fault) => {
                    lemma_longest_valid_prefix(held, fault.valid_up_to as int);
                    let kept = old(self).buffered().len() as int;
                    assert(held.take(kept) =~= old(self).buffered());
                    assert(kept <= fault.valid_up_to);
                },
            }
            assert(self.unread().len() >= held.len());
            assert(goal == (self.reader, self.filled - self.cursor, is_empty));
            assert(held =~= old(self).unread().take(self.filled - self.cursor));
        }
        let r = self.settle(checked, is_empty);
        proof {
            match r {
                Ok(()) => {},
                Err(ReadError::EOF) => {
                    assert(self.unread() =~= self.held());
                },
                Err(ReadError::InvalidUtf8(e)) => {
                    let k = e.index - self.position();
                    assert(self.unread().take(k) =~= self.held().take(k));
                    lemma_offending(self.held(), k, self.source().remaining());
                },
            }
        }
        r
    }

    /// Moves the cursor, and nothing else in the buffer.
    #[inline(always)]
    fn consume(&mut self, n: usize) {
        proof {
            lemma_split_at_boundary(self.buffered(), n as int);
            assert(self.unread().len() >= self.buffered().len());
        }
        if self.index != EOF_INDEX {
            self.index += n;
        }
        self.cursor += n;
        assert(self.buffered() =~= old(self).buffered().skip(n as int));
        assert(self.unread() =~= old(self).unread().skip(n as int));
    }

    /// The first character, after a refill to four bytes.
    #[inline(always)]
    fn peek(&mut self) -> (r: Result<char, ReadError>)
        ensures
            Self::refilled(*old(self), 4, *final(self), outcome(r)),
    {
        broadcast use vstd::string::group_string_axioms;

        match self.buffer_at_least(4) {
            Ok(()) => {
                let s = self.read();
                proof {
                    lemma_text_of_bytes(s, s.spec_bytes());
                    if s@.len() == 0 {
                        assert(vstd::utf8::encode_utf8(s@) =~= Seq::<u8>::empty());
                    }
                }
                let mut chars = s.chars();
                Ok(chars.next().unwrap())
            },
            Err(e) => Err(e),
        }
    }

    #[inline(always)]
    fn set_eof(&mut self) {
        self.index = EOF_INDEX;
    }

    #[inline(always)]
    fn is_eof(&self) -> (r: bool) {
        self.index == EOF_INDEX
    }
}

} // verus!
