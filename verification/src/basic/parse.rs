//! Parsers that split the input at a character.

use vstd::prelude::*;

use crate::input::default::{consumed, read_until_post};
use crate::input::entry::{Entry, InputExt};
use crate::input::Input;
use crate::parse::{IsParse, ParseError};
use crate::trim::CHUNK_SIZE;

verus! {

/// Matches the text up to the first character that the predicate says yes
/// to. Where the input ends before such a character, the parser reports the
/// end of the input and leaves the text unconsumed. Where the buffer is full
/// before one is found, it matches all of the buffered text.
#[derive(Debug, Clone, Copy, PartialEq, Eq, Hash)]
pub struct SplitUpTo<F: Fn(char) -> bool> {
    func: F,
}

impl<F: Fn(char) -> bool> SplitUpTo<F> {
    /// The predicate.
    pub closed spec fn func(&self) -> F {
        self.func
    }

    #[inline(always)]
    pub fn new(func: F) -> (r: Self)
        ensures
            r.func() == func,
    {
        Self { func }
    }
}

impl<'a, I: Input + 'a, F: Fn(char) -> bool> IsParse<'a, I> for SplitUpTo<F> {
    type Output = Entry<'a, I>;

    /// The parser has no error of its own: only read errors come out.
    type Error = core::convert::Infallible;

    open spec fn ready(&self) -> bool {
        forall|c: char| call_requires(self.func(), (c,))
    }

    open spec fn valid(output: &Self::Output) -> bool {
        output.wf()
    }

    open spec fn held(output: &Self::Output) -> Option<&'a mut I> {
        Some(output.holds())
    }

    /// What [`InputExt::read_until_entry`] makes of the input in chunks of
    /// [`CHUNK_SIZE`]: an entry over the text up to the first character that
    /// the predicate says yes to, or the read error of the scan. Where the
    /// input ends before such a character, that is the end of the input and
    /// there is no entry.
    open spec fn parses(
        self,
        pre: &I,
        post: &I,
        r: Result<Self::Output, ParseError<Self::Error>>,
    ) -> bool {
        match r {
            Ok(entry) => *entry.holds() == *post && entry.wf() && read_until_post(
                pre,
                post,
                &self.func(),
                CHUNK_SIZE,
                Ok(entry.size() as int),
            ),
            Err(ParseError::ReadError(e)) => read_until_post(
                pre,
                post,
                &self.func(),
                CHUNK_SIZE,
                Err(e),
            ),
            Err(ParseError::Error(_)) => false,
        }
    }

    /// The input is moved over the bytes of the entry.
    open spec fn releases(output: &Self::Output, post: &I) -> bool {
        consumed(output.holds(), output.size() as int, post)
    }

    /// As [`InputExt::read_until_entry`] in chunks of [`CHUNK_SIZE`]: an
    /// entry over the text up to the first character that the predicate says
    /// yes to, or the end of the input where there is no such character.
    fn __parse(self, input: &'a mut I) -> (r: Result<Self::Output, ParseError<Self::Error>>) {
        assert(self.func() == self.func);
        proof {
            assert(old(input).unread().skip(0) =~= old(input).unread());
        }
        match input.read_until_entry(CHUNK_SIZE, self.func) {
            Ok(entry) => Ok(entry),
            Err(e) => Err(ParseError::ReadError(e)),
        }
    }

    /// Consumes the entry: the input moves to the end of what was matched.
    fn __release(output: Self::Output) {
        output.consume()
    }
}

} // verus!
