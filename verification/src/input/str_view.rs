//! An input over text that is already in memory.

use vstd::prelude::*;
use vstd::string::StringSliceAdditionalSpecFns;
use vstd::utf8::{encode_utf8_decode_utf8, encode_utf8_valid_utf8};

use crate::input::{Input, ReadError, EOF_INDEX};

verus! {

/// A view of a string that shrinks from the front as it is consumed.
pub struct StrView<'a> {
    data: &'a str,
    index: usize,
}

impl<'a> StrView<'a> {
    /// The text that has not been consumed.
    pub closed spec fn rest(&self) -> &'a str {
        self.data
    }

    /// The absolute offset of the view's start, or the end mark.
    pub closed spec fn spec_index(&self) -> usize {
        self.index
    }

    #[inline(always)]
    pub fn new(data: &'a str) -> (r: Self)
        ensures
            r.wf(),
            r.rest() == data,
            r.position() == 0,
    {
        // the length of the bytes is a `usize`
        let _len = data.as_bytes().len();
        StrView { data, index: 0 }
    }
}

impl<'a> Input for StrView<'a> {
    open spec fn wf(&self) -> bool {
        &&& self.rest().spec_bytes().len() <= usize::MAX
        &&& self.spec_index() != EOF_INDEX ==> self.spec_index() + self.rest().spec_bytes().len()
            <= EOF_INDEX
    }

    open spec fn position(&self) -> usize {
        self.spec_index()
    }

    open spec fn buffered(&self) -> Seq<u8> {
        self.rest().spec_bytes()
    }

    open spec fn unread(&self) -> Seq<u8> {
        self.rest().spec_bytes()
    }

    open spec fn held(&self) -> Seq<u8> {
        self.rest().spec_bytes()
    }

    open spec fn limit(&self) -> usize {
        usize::MAX
    }

    /// The text stays. The refill succeeds where the view holds at least `n`
    /// bytes and reports the end of the input where it does not; the end is
    /// latched only where the view is empty and a byte was asked for.
    open spec fn refills(&self, n: usize, post: &Self, r: Result<(), ReadError>) -> bool {
        &&& post.rest() == self.rest()
        &&& r == if n <= self.rest().spec_bytes().len() {
            Ok::<(), ReadError>(())
        } else {
            Err::<(), ReadError>(ReadError::EOF)
        }
        &&& post.position() == if self.rest().spec_bytes().len() == 0 && n > 0 {
            EOF_INDEX
        } else {
            self.position()
        }
    }

    /// The view loses its first `n` bytes, and the position moves by `n`
    /// unless the end is latched.
    open spec fn consumes(&self, n: usize, post: &Self) -> bool {
        &&& post.rest().spec_bytes() == self.rest().spec_bytes().skip(n as int)
        &&& post.position() == if self.position() == EOF_INDEX {
            EOF_INDEX as int
        } else {
            self.position() + n
        }
    }

    /// The text stays. The first character is returned where there is one;
    /// an empty view latches the end of the input and reports it.
    open spec fn peeks(&self, post: &Self, r: Result<char, ReadError>) -> bool {
        &&& post.rest() == self.rest()
        &&& r == if self.rest()@.len() > 0 {
            Ok::<char, ReadError>(self.rest()@[0])
        } else {
            Err::<char, ReadError>(ReadError::EOF)
        }
        &&& post.position() == if self.rest()@.len() == 0 {
            EOF_INDEX
        } else {
            self.position()
        }
    }

    proof fn lemma_wf(&self) {
        encode_utf8_valid_utf8(self.rest()@);
        assert(self.buffered() =~= self.unread().take(self.buffered().len() as int));
    }

    #[inline(always)]
    fn capacity(&self) -> (r: usize) {
        usize::MAX
    }

    #[inline(always)]
    fn get_unchecked(&self, n: usize) -> (r: &[u8]) {
        vstd::slice::slice_subrange(self.data.as_bytes(), 0, n)
    }

    #[inline(always)]
    fn index(&self) -> (r: usize) {
        self.index
    }

    #[inline(always)]
    fn read(&self) -> (s: &str)
        ensures
            s == self.rest(),
    {
        proof {
            encode_utf8_valid_utf8(self.data@);
            vstd::utf8::is_char_boundary_start_end_of_seq(self.buffered());
        }
        self.data
    }

    /// Succeeds where the view holds at least `n` bytes. Where it does not,
    /// an empty view latches the end of the input; a view that is only too
    /// short does not.
    #[inline(always)]
    fn buffer_at_least(&mut self, n: usize) -> (r: Result<(), ReadError>) {
        proof {
            encode_utf8_valid_utf8(self.data@);
            assert(self.unread().take(self.unread().len() as int) =~= self.unread());
        }
        if n <= self.data.len() {
            // We have enough data
            Ok(())
        } else if self.data.len() == 0 {
            // We have reached the EOF
            self.index = EOF_INDEX;
            Err(ReadError::EOF)
        } else {
            // EOF but we haven't reached it yet
            Err(ReadError::EOF)
        }
    }

    #[inline(always)]
    fn set_eof(&mut self)
        ensures
            final(self).rest() == old(self).rest(),
    {
        self.index = EOF_INDEX;
    }

    #[inline(always)]
    fn is_eof(&self) -> (r: bool) {
        self.index == EOF_INDEX
    }

    #[inline(always)]
    fn consume(&mut self, n: usize) {
        let (_, rest) = self.data.split_at(n);
        self.data = rest;
        if self.index != EOF_INDEX {
            self.index += n;
        }
        assert(self.buffered() =~= old(self).buffered().skip(n as int));
    }

    /// The first character of the view. An empty view latches the end of the
    /// input; no other view fails.
    #[inline(always)]
    fn peek(&mut self) -> (r: Result<char, ReadError>) {
        broadcast use vstd::string::group_string_axioms;

        proof {
            encode_utf8_valid_utf8(self.data@);
            encode_utf8_decode_utf8(self.data@);
            assert(self.unread().take(self.unread().len() as int) =~= self.unread());
            if self.data@.len() == 0 {
                assert(self.buffered() =~= Seq::<u8>::empty());
            } else {
                vstd::utf8::encode_utf8_first_scalar(self.data@);
            }
        }
        let mut chars = self.data.chars();
        match chars.next() {
            Some(c) => Ok(c),
            None => {
                self.index = EOF_INDEX;
                Err(ReadError::EOF)
            },
        }
    }
}

} // verus!
