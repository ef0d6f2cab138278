//! Entry handles: what a scan found, held together with the input, so that
//! the caller can look at it and then consume it or let it be.

use vstd::prelude::*;
use vstd::string::StringSliceAdditionalSpecFns;
use vstd::utf8::{decode_utf8, encode_scalar, is_char_boundary, valid_first_scalar, valid_utf8};

use crate::input::default::{
    consume_until_post, consumed, default_consume_until, default_read_at_least,
    default_read_until, lengths, outcome, read_until_post, refill_size, rejects,
};
use crate::input::utf8::{
    is_longest_valid_prefix, lemma_first_char_boundary, lemma_valid_prefix_is_boundary, text_of,
};
use crate::input::{follows, refill_post, Input, ReadError, EOF_INDEX};

verus! {

/// What every input promises of `peek()`, together with what the input
/// itself says of it: `pre` is the input before the call, `post` the input
/// after it and `r` the result.
pub open spec fn peek_post<I: Input>(pre: &I, post: &I, r: Result<char, ReadError>) -> bool {
    &&& pre.peeks(post, r)
    &&& post.wf()
    &&& post.limit() == pre.limit()
    &&& post.unread() == pre.unread()
    &&& post.buffered().len() >= pre.buffered().len()
    &&& post.position() == pre.position() || post.position() == EOF_INDEX
    &&& match r {
        Ok(c) => {
            &&& post.position() == pre.position()
            &&& post.buffered().len() > 0
            &&& c == decode_utf8(post.buffered())[0]
        },
        Err(ReadError::EOF) => {
            &&& post.buffered().len() == 0 ==> post.position() == EOF_INDEX
            &&& pre.position() != EOF_INDEX ==> {
                &&& post.unread().len() < 4
                &&& is_longest_valid_prefix(post.unread(), post.buffered().len() as int)
            }
        },
        Err(ReadError::InvalidUtf8(e)) => {
            &&& post.position() == pre.position()
            &&& post.position() != EOF_INDEX
            &&& post.position() + post.buffered().len() <= e.index
            &&& e.index < post.position() + post.unread().len()
            &&& valid_utf8(post.unread().take(e.index - post.position()))
            &&& !valid_first_scalar(post.unread().skip(e.index - post.position()))
        },
    }
}

/// Scans and entries for every input: the way to move through an input
/// without counting bytes by hand.
pub trait InputExt: Input + Sized {
    /// `buffer_at_least(n)`, and on success the buffered prefix as text.
    #[inline(always)]
    fn read_at_least(&mut self, n: usize) -> (r: Result<&str, ReadError>)
        requires
            old(self).wf(),
            n <= old(self).limit(),
        ensures
            refill_post(old(self), n, final(self), outcome(r)),
            r matches Ok(s) ==> s.spec_bytes() == final(self).buffered() && is_char_boundary(
                final(self).buffered(),
                final(self).buffered().len() as int,
            ),
    {
        default_read_at_least(self, n)
    }

    /// The first character of the input as an entry.
    #[inline(always)]
    fn peek_entry<'a>(&'a mut self) -> (r: Result<CharEntry<'a, Self>, ReadError>)
        requires
            old(self).wf(),
            4 <= old(self).limit(),
        ensures
            match r {
                Ok(entry) => {
                    &&& entry.wf()
                    &&& peek_post(old(self), entry.holds(), Ok(entry.character()))
                    &&& *final(entry.holds()) == *final(self)
                },
                Err(e) => peek_post(old(self), final(self), Err(e)),
            },
    {
        match self.peek() {
            Ok(c) => Ok(CharEntry { input: self, character: c }),
            Err(e) => Err(e),
        }
    }

    /// An entry over `other` where the buffered prefix, after a refill to the
    /// length of `other`, begins with it byte for byte; `None` where it does
    /// not. Nothing is consumed.
    #[inline(always)]
    fn match_str_entry<'a>(&'a mut self, other: &str) -> (r: Result<
        Option<Entry<'a, Self>>,
        ReadError,
    >)
        requires
            old(self).wf(),
            other.spec_bytes().len() <= old(self).limit(),
        ensures
            match r {
                Ok(Some(entry)) => {
                    &&& entry.wf()
                    &&& entry.size() == other.spec_bytes().len()
                    &&& refill_post(old(self), entry.size(), entry.holds(), Ok(()))
                    &&& other.spec_bytes().is_prefix_of(entry.holds().buffered())
                    &&& *final(entry.holds()) == *final(self)
                },
                Ok(None) => {
                    &&& refill_post(
                        old(self),
                        other.spec_bytes().len() as usize,
                        final(self),
                        Ok(()),
                    )
                    &&& !other.spec_bytes().is_prefix_of(final(self).buffered())
                },
                Err(e) => refill_post(
                    old(self),
                    other.spec_bytes().len() as usize,
                    final(self),
                    Err(e),
                ),
            },
    {
        let size = other.len();
        let starts = match default_read_at_least(self, size) {
            Ok(slice) => begins_with(slice.as_bytes(), other.as_bytes()),
            Err(e) => {
                return Err(e);
            },
        };
        if starts {
            proof {
                self.lemma_wf();
                vstd::utf8::encode_utf8_valid_utf8(other@);
                assert(self.buffered().take(size as int) =~= other.spec_bytes());
                lemma_valid_prefix_is_boundary(self.buffered(), size as int);
            }
            Ok(Some(Entry { input: self, size }))
        } else {
            Ok(None)
        }
    }

    /// As [`default_consume_until`].
    #[inline(always)]
    fn consume_until<F: Fn(char) -> bool>(&mut self, chunk_size: usize, func: F) -> (r: Result<
        (),
        ReadError,
    >)
        requires
            old(self).wf(),
            refill_size(chunk_size) <= old(self).limit(),
            forall|c: char| call_requires(func, (c,)),
        ensures
            consume_until_post(old(self), final(self), &func, chunk_size, r),
    {
        default_consume_until(self, chunk_size, func)
    }

    /// As [`default_read_until`].
    ///
    /// # Note
    /// Use `InputExt::read_until_entry` instead if you plan to consume the whole string slice
    #[inline(always)]
    fn read_until<F: Fn(char) -> bool>(&mut self, chunk_size: usize, func: F) -> (r: Result<
        &str,
        ReadError,
    >)
        requires
            old(self).wf(),
            refill_size(chunk_size) <= old(self).limit(),
            forall|c: char| call_requires(func, (c,)),
        ensures
            read_until_post(old(self), final(self), &func, chunk_size, lengths(r)),
            r matches Ok(s) ==> s.spec_bytes() == final(self).buffered().take(
                s.spec_bytes().len() as int,
            ) && rejects(&func, s@),
    {
        default_read_until(self, chunk_size, func)
    }

    /// What [`InputExt::read_until`] returns, as an entry: the text before the
    /// character that was found or, where the buffer is full, all of the
    /// buffered text. Where the input ends first there is no entry.
    #[inline(always)]
    fn read_until_entry<'a, F: Fn(char) -> bool>(&'a mut self, chunk_size: usize, func: F) -> (r:
        Result<Entry<'a, Self>, ReadError>)
        requires
            old(self).wf(),
            refill_size(chunk_size) <= old(self).limit(),
            forall|c: char| call_requires(func, (c,)),
        ensures
            match r {
                Ok(entry) => {
                    &&& entry.wf()
                    &&& read_until_post(
                        old(self),
                        entry.holds(),
                        &func,
                        chunk_size,
                        Ok(entry.size() as int),
                    )
                    &&& *final(entry.holds()) == *final(self)
                },
                Err(e) => read_until_post(old(self), final(self), &func, chunk_size, Err(e)),
            },
    {
        let len = match default_read_until(self, chunk_size, func) {
            Ok(s) => s.len(),
            Err(e) => {
                return Err(e);
            },
        };
        proof {
            self.lemma_wf();
        }
        Ok(Entry { input: self, size: len })
    }
}

impl<I: Input> InputExt for I {

}

/// Whether `bytes` begin with `prefix`.
pub fn begins_with(bytes: &[u8], prefix: &[u8]) -> (r: bool)
    ensures
        r == prefix@.is_prefix_of(bytes@),
{
    if prefix.len() > bytes.len() {
        return false;
    }
    let mut j: usize = 0;
    while j < prefix.len()
        invariant
            j <= prefix.len() <= bytes.len(),
            forall|k: int| 0 <= k < j ==> bytes@[k] == prefix@[k],
        decreases prefix.len() - j,
    {
        if bytes[j] != prefix[j] {
            assert(!prefix@.is_prefix_of(bytes@)) by {
                if prefix@.is_prefix_of(bytes@) {
                    assert(bytes@.subrange(0, prefix@.len() as int)[j as int] == prefix@[j as int]);
                }
            }
            return false;
        }
        j += 1;
    }
    assert(bytes@.subrange(0, prefix@.len() as int) =~= prefix@);
    true
}

/// The first character of an input, not yet consumed.
pub struct CharEntry<'a, I: Input> {
    input: &'a mut I,
    character: char,
}

impl<'a, I: Input> CharEntry<'a, I> {
    /// The borrow of the input that the entry holds.
    pub closed spec fn holds(&self) -> &'a mut I {
        self.input
    }

    /// The character.
    pub closed spec fn character(&self) -> char {
        self.character
    }

    /// The entry is about the first character of the buffered prefix.
    pub open spec fn wf(&self) -> bool {
        &&& self.holds().wf()
        &&& self.holds().buffered().len() > 0
        &&& self.character() == decode_utf8(self.holds().buffered())[0]
    }

    #[inline(always)]
    pub fn input(&self) -> (r: &I)
        ensures
            *r == *self.holds(),
    {
        self.input
    }

    #[inline(always)]
    pub fn get(&self) -> (r: char)
        ensures
            r == self.character(),
    {
        self.character
    }

    /// Moves the input forward over the character.
    #[inline(always)]
    pub fn consume(self)
        requires
            self.wf(),
        ensures
            follows(self.holds(), final(self.holds())),
            consumed(
                self.holds(),
                encode_scalar(self.character() as u32).len() as int,
                final(self.holds()),
            ),
            final(self.holds()).unread() == self.holds().unread().skip(
                encode_scalar(self.character() as u32).len() as int,
            ),
            final(self.holds()).buffered() == self.holds().buffered().skip(
                encode_scalar(self.character() as u32).len() as int,
            ),
            final(self.holds()).position() == if self.holds().position() == EOF_INDEX {
                EOF_INDEX as int
            } else {
                self.holds().position() + encode_scalar(self.character() as u32).len()
            },
    {
        proof {
            self.input.lemma_wf();
            lemma_first_char_boundary(self.input.buffered());
        }
        self.input.consume(self.character.len_utf8());
    }

    /// Gives the input back as it is.
    #[inline(always)]
    pub fn discard(self)
        ensures
            *final(self.holds()) == *self.holds(),
    {
    }
}

/// A stretch of text at the front of an input, not yet consumed.
pub struct Entry<'a, I: Input> {
    input: &'a mut I,
    size: usize,
}

impl<'a, I: Input> Entry<'a, I> {
    /// The borrow of the input that the entry holds.
    pub closed spec fn holds(&self) -> &'a mut I {
        self.input
    }

    /// The length of the stretch in bytes.
    pub closed spec fn size(&self) -> usize {
        self.size
    }

    /// The stretch lies within the buffered prefix and ends on a character
    /// boundary.
    pub open spec fn wf(&self) -> bool {
        &&& self.holds().wf()
        &&& self.size() <= self.holds().buffered().len()
        &&& is_char_boundary(self.holds().buffered(), self.size() as int)
    }

    #[inline(always)]
    pub fn input(&self) -> (r: &I)
        ensures
            *r == *self.holds(),
    {
        self.input
    }

    /// The stretch as text.
    #[inline(always)]
    pub fn get(&self) -> (s: &str)
        requires
            self.wf(),
        ensures
            s.spec_bytes() == self.holds().buffered().take(self.size() as int),
    {
        proof {
            self.input.lemma_wf();
            crate::input::utf8::lemma_split_at_boundary(
                self.input.buffered(),
                self.size as int,
            );
        }
        text_of(self.input.get_unchecked(self.size))
    }

    /// Moves the input forward over the stretch.
    #[inline(always)]
    pub fn consume(self)
        requires
            self.wf(),
        ensures
            follows(self.holds(), final(self.holds())),
            consumed(self.holds(), self.size() as int, final(self.holds())),
            final(self.holds()).unread() == self.holds().unread().skip(self.size() as int),
            final(self.holds()).buffered() == self.holds().buffered().skip(self.size() as int),
            final(self.holds()).position() == if self.holds().position() == EOF_INDEX {
                EOF_INDEX as int
            } else {
                self.holds().position() + self.size()
            },
    {
        proof {
            self.input.lemma_wf();
        }
        self.input.consume(self.size);
    }

    /// Gives the input back as it is.
    #[inline(always)]
    pub fn discard(self)
        ensures
            *final(self.holds()) == *self.holds(),
    {
    }
}

} // verus!
