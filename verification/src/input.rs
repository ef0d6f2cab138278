//! UTF-8 aware buffered input.

use vstd::prelude::*;
use vstd::string::StringSliceAdditionalSpecFns;
use vstd::utf8::{decode_utf8, is_char_boundary, valid_first_scalar, valid_utf8};

use crate::input::utf8::is_longest_valid_prefix;

pub mod default;
pub mod entry;
pub mod laws;
pub mod reader_input;
pub mod str_view;
pub mod source;
pub mod utf8;

verus! {

/// The value of `index()` once the end of the input has been latched. No
/// unread byte has an offset that large, so an input that counts up to this
/// value has consumed its last byte.
pub const EOF_INDEX: usize = usize::MAX;

/// Why an input could not give what it was asked for.
#[derive(Debug, Clone, Copy, PartialEq, Eq, Structural, Hash)]
pub enum ReadError {
    /// The input has come to its end.
    EOF,
    /// The input holds bytes that are not UTF-8.
    InvalidUtf8(InvalidUtf8),
}

/// An encoding error in the input.
#[derive(Debug, Clone, Copy, PartialEq, Eq, Structural, Hash)]
pub struct InvalidUtf8 {
    /// The offset in the whole input of the first byte that is not valid.
    pub index: usize,
}

/// A buffered input of UTF-8 text. It holds a validated prefix of what is
/// left of the input, and moves forward through it as the text is consumed.
///
/// The contracts speak of four values of an input: its position, the bytes
/// of its buffered prefix, all of its unread bytes, and its limit; and of
/// what a refill and a look at the first character make of the input. An
/// input says what they are by defining the specification functions; the
/// bodies given here stand for "not said", so that an input that is written
/// without proofs can leave them out.
pub trait Input {
    /// What must hold of the input between two operations.
    open spec fn wf(&self) -> bool {
        true
    }

    /// The byte offset of the next unconsumed byte in the whole input, or
    /// [`EOF_INDEX`] once the end has been latched.
    open spec fn position(&self) -> usize {
        arbitrary()
    }

    /// The bytes of the buffered prefix: those that have been validated and
    /// not yet consumed.
    open spec fn buffered(&self) -> Seq<u8> {
        arbitrary()
    }

    /// All the bytes that have not been consumed, buffered or not.
    open spec fn unread(&self) -> Seq<u8> {
        arbitrary()
    }

    /// The unread bytes that the input has at hand: the buffered prefix and
    /// what has been brought in behind it and is not yet part of it.
    open spec fn held(&self) -> Seq<u8> {
        arbitrary()
    }

    /// The largest number of bytes that can be asked for at once.
    open spec fn limit(&self) -> usize {
        arbitrary()
    }

    /// Whether a refill to `n` bytes can make the input `post` and the
    /// result `r` of this input. An input says what its refill does by
    /// defining this; the body given here stands for "not said".
    open spec fn refills(&self, n: usize, post: &Self, r: Result<(), ReadError>) -> bool {
        true
    }

    /// Whether a look at the first character can make the input `post` and
    /// the result `r` of this input. An input says what its `peek` does by
    /// defining this; the body given here stands for "not said".
    open spec fn peeks(&self, post: &Self, r: Result<char, ReadError>) -> bool {
        true
    }

    /// Whether consuming `n` bytes can make the input `post` of this input.
    /// An input says what its `consume` does by defining this; the body
    /// given here stands for "not said".
    open spec fn consumes(&self, n: usize, post: &Self) -> bool {
        true
    }

    /// The buffered prefix is valid UTF-8 at the front of what is held, which
    /// is at the front of what is unread; the prefix is no longer than the
    /// limit, and the offsets of the unread bytes do not go beyond the end
    /// mark. Every input proves this of itself; an input that
    /// is written without proofs gives the function an empty body.
    proof fn lemma_wf(&self)
        requires
            self.wf(),
        ensures
            valid_utf8(self.buffered()),
            self.buffered().len() <= self.limit(),
            self.buffered().len() <= self.held().len() <= self.unread().len(),
            self.buffered() == self.unread().take(self.buffered().len() as int),
            self.held() == self.unread().take(self.held().len() as int),
            self.position() != EOF_INDEX ==> self.position() + self.unread().len() <= EOF_INDEX,
    ;

    /// Executable form of [`Input::limit`].
    fn capacity(&self) -> (r: usize)
        requires
            self.wf(),
        ensures
            r == self.limit(),
    ;

    /// The first `n` bytes of the buffered prefix.
    fn get_unchecked(&self, n: usize) -> (r: &[u8])
        requires
            self.wf(),
            n <= self.buffered().len(),
        ensures
            r@ == self.buffered().take(n as int),
    ;

    fn index(&self) -> (r: usize)
        requires
            self.wf(),
        ensures
            r == self.position(),
    ;

    /// The buffered prefix as text. All of it can be consumed: its end is a
    /// character boundary.
    fn read(&self) -> (s: &str)
        requires
            self.wf(),
        ensures
            s.spec_bytes() == self.buffered(),
            is_char_boundary(self.buffered(), self.buffered().len() as int),
    ;

    /// Tries to have `n` bytes at hand. Nothing is consumed and the buffered
    /// prefix only grows. On success at least `n` bytes are held, and the
    /// buffered prefix is the longest valid prefix of what is held: all but
    /// at most three of the `n` bytes are in it (the last character may be
    /// cut off). An end of input comes only where fewer than `n` bytes are
    /// left; they are then all held, and the buffered prefix is their
    /// longest valid prefix. An encoding error names the offset of bytes that
    /// begin no character.
    fn buffer_at_least(&mut self, n: usize) -> (r: Result<(), ReadError>)
        requires
            old(self).wf(),
            n <= old(self).limit(),
        ensures
            old(self).refills(n, final(self), r),
            final(self).wf(),
            final(self).limit() == old(self).limit(),
            final(self).unread() == old(self).unread(),
            final(self).buffered().len() >= old(self).buffered().len(),
            final(self).position() == old(self).position() || final(self).position() == EOF_INDEX,
            final(self).position() >= old(self).position(),
            match r {
                Ok(()) => {
                    &&& final(self).position() == old(self).position()
                    &&& final(self).buffered().len() + 3 >= n
                    &&& final(self).held().len() >= n
                    &&& is_longest_valid_prefix(
                        final(self).held(),
                        final(self).buffered().len() as int,
                    )
                },
                Err(ReadError::EOF) => {
                    &&& final(self).buffered().len() == 0 ==> final(self).position() == EOF_INDEX
                    &&& old(self).position() != EOF_INDEX ==> {
                        &&& final(self).unread().len() < n
                        &&& final(self).held() == final(self).unread()
                        &&& is_longest_valid_prefix(
                            final(self).unread(),
                            final(self).buffered().len() as int,
                        )
                    }
                },
                Err(ReadError::InvalidUtf8(e)) => {
                    &&& final(self).position() == old(self).position()
                    &&& final(self).position() != EOF_INDEX
                    &&& final(self).position() + final(self).buffered().len() <= e.index
                    &&& e.index < final(self).position() + final(self).unread().len()
                    &&& valid_utf8(
                        final(self).unread().take(e.index - final(self).position()),
                    )
                    &&& !valid_first_scalar(
                        final(self).unread().skip(e.index - final(self).position()),
                    )
                },
            },
    ;

    /// The first character of the input. It is looked for after a refill; an
    /// input that cannot produce it reports the end of the input, and then
    /// fewer than four bytes are left.
    fn peek(&mut self) -> (r: Result<char, ReadError>)
        requires
            old(self).wf(),
            4 <= old(self).limit(),
        ensures
            old(self).peeks(final(self), r),
            final(self).wf(),
            final(self).limit() == old(self).limit(),
            final(self).unread() == old(self).unread(),
            final(self).buffered().len() >= old(self).buffered().len(),
            final(self).position() == old(self).position() || final(self).position() == EOF_INDEX,
            final(self).position() >= old(self).position(),
            match r {
                Ok(c) => {
                    &&& final(self).position() == old(self).position()
                    &&& final(self).buffered().len() > 0
                    &&& c == decode_utf8(final(self).buffered())[0]
                },
                Err(ReadError::EOF) => {
                    &&& final(self).buffered().len() == 0 ==> final(self).position() == EOF_INDEX
                    &&& old(self).position() != EOF_INDEX ==> {
                        &&& final(self).unread().len() < 4
                        &&& is_longest_valid_prefix(
                            final(self).unread(),
                            final(self).buffered().len() as int,
                        )
                    }
                },
                Err(ReadError::InvalidUtf8(e)) => {
                    &&& final(self).position() == old(self).position()
                    &&& final(self).position() != EOF_INDEX
                    &&& final(self).position() + final(self).buffered().len() <= e.index
                    &&& e.index < final(self).position() + final(self).unread().len()
                    &&& valid_utf8(
                        final(self).unread().take(e.index - final(self).position()),
                    )
                    &&& !valid_first_scalar(
                        final(self).unread().skip(e.index - final(self).position()),
                    )
                },
            },
    ;

    /// Latches the end of the input.
    fn set_eof(&mut self)
        requires
            old(self).wf(),
        ensures
            final(self).wf(),
            final(self).limit() == old(self).limit(),
            final(self).position() == EOF_INDEX,
            final(self).position() >= old(self).position(),
            final(self).buffered() == old(self).buffered(),
            final(self).held() == old(self).held(),
            final(self).unread() == old(self).unread(),
    ;

    fn is_eof(&self) -> (r: bool)
        requires
            self.wf(),
        ensures
            r == (self.position() == EOF_INDEX),
    ;

    /// Moves forward over the first `n` bytes of the buffered prefix, which
    /// must end on a character boundary.
    fn consume(&mut self, n: usize)
        requires
            old(self).wf(),
            n <= old(self).buffered().len(),
            is_char_boundary(old(self).buffered(), n as int),
        ensures
            old(self).consumes(n, final(self)),
            final(self).wf(),
            final(self).limit() == old(self).limit(),
            final(self).buffered() == old(self).buffered().skip(n as int),
            final(self).held() == old(self).held().skip(n as int),
            final(self).unread() == old(self).unread().skip(n as int),
            final(self).position() == if old(self).position() == EOF_INDEX {
                EOF_INDEX as int
            } else {
                old(self).position() + n
            },
            final(self).position() >= old(self).position(),
    ;
}

/// What every input promises of `buffer_at_least(n)`, together with what
/// the input itself says of it: `pre` is the input before the call, `post`
/// the input after it and `r` the result.
pub open spec fn refill_post<I: Input + ?Sized>(
    pre: &I,
    n: usize,
    post: &I,
    r: Result<(), ReadError>,
) -> bool {
    &&& pre.refills(n, post, r)
    &&& post.wf()
    &&& post.limit() == pre.limit()
    &&& post.unread() == pre.unread()
    &&& post.buffered().len() >= pre.buffered().len()
    &&& post.position() == pre.position() || post.position() == EOF_INDEX
    &&& match r {
        Ok(()) => {
            &&& post.position() == pre.position()
            &&& post.buffered().len() + 3 >= n
            &&& post.held().len() >= n
            &&& is_longest_valid_prefix(post.held(), post.buffered().len() as int)
        },
        Err(ReadError::EOF) => {
            &&& post.buffered().len() == 0 ==> post.position() == EOF_INDEX
            &&& pre.position() != EOF_INDEX ==> {
                &&& post.unread().len() < n
                &&& post.held() == post.unread()
                &&& is_longest_valid_prefix(post.unread(), post.buffered().len() as int)
            }
        },
        Err(ReadError::InvalidUtf8(e)) => {
            &&& post.position() == pre.position()
            &&& post.position() != EOF_INDEX
            &&& post.position() + post.buffered().len() <= e.index
            &&& e.index < post.position() + post.unread().len()
            &&& valid_utf8(post.unread().take(e.index - post.position()))
            &&& !valid_first_scalar(post.unread().skip(e.index - post.position()))
        },
    }
}

/// Whether `post` is `pre` after some of its unread bytes have been consumed
/// and nothing else has been done to it.
pub open spec fn follows<I: Input>(pre: &I, post: &I) -> bool {
    &&& post.wf()
    &&& post.limit() == pre.limit()
    &&& post.unread().len() <= pre.unread().len()
    &&& post.unread() == pre.unread().skip(pre.unread().len() - post.unread().len())
    &&& post.position() >= pre.position()
}

/// An input follows itself.
pub proof fn lemma_follows_itself<I: Input>(input: &I)
    requires
        input.wf(),
    ensures
        follows(input, input),
{
    assert(input.unread().skip(0) =~= input.unread());
}

/// What follows an input that follows another follows that one.
pub proof fn lemma_follows_on<I: Input>(a: &I, b: &I, c: &I)
    requires
        follows(a, b),
        follows(b, c),
    ensures
        follows(a, c),
{
    let k = a.unread().len() - b.unread().len();
    let l = b.unread().len() - c.unread().len();
    assert(a.unread().skip(k).skip(l) =~= a.unread().skip(k + l));
}

} // verus!
