//! Trimmers that skip up to a character.

use vstd::prelude::*;
use vstd::utf8::{decode_utf8, valid_utf8};

use crate::input::default::{advance, consume_until_post, default_consume_until, rejects};
use crate::input::{Input, ReadError, EOF_INDEX};
use crate::trim::{Trim, CHUNK_SIZE};

verus! {

/// Whether the character has the Unicode property `White_Space`: it is one
/// of the controls U+0009 to U+000D, the space, the next-line control U+0085,
/// the no-break space U+00A0, the ogham space mark U+1680, one of the spaces
/// U+2000 to U+200A, the line separator U+2028, the paragraph separator
/// U+2029, the narrow no-break space U+202F, the medium mathematical space
/// U+205F or the ideographic space U+3000.
pub open spec fn is_whitespace(c: char) -> bool {
    let u = c as u32;
    ||| 0x0009 <= u <= 0x000D
    ||| u == 0x0020
    ||| u == 0x0085
    ||| u == 0x00A0
    ||| u == 0x1680
    ||| 0x2000 <= u <= 0x200A
    ||| u == 0x2028
    ||| u == 0x2029
    ||| u == 0x202F
    ||| u == 0x205F
    ||| u == 0x3000
}

/// Skips every character up to the first that the predicate says yes to.
#[derive(Debug, Clone, Copy, PartialEq, Eq, Hash)]
pub struct TrimUntil<F: Fn(char) -> bool> {
    func: F,
}

impl<F: Fn(char) -> bool> TrimUntil<F> {
    /// The predicate.
    pub closed spec fn func(&self) -> F {
        self.func
    }

    #[inline(always)]
    pub fn new(func: F) -> (r: Self)
        ensures
            r.func() == func,
    {
        Self { func }
    }
}

impl<I: Input, F: Fn(char) -> bool> Trim<I> for TrimUntil<F> {
    open spec fn ready(&self) -> bool {
        forall|c: char| call_requires(self.func(), (c,))
    }

    /// What [`default_consume_until`] makes of the input in chunks of
    /// [`CHUNK_SIZE`].
    open spec fn trims(self, pre: &I, post: &I, r: Result<(), ReadError>) -> bool {
        consume_until_post(pre, post, &self.func(), CHUNK_SIZE, r)
    }

    /// As [`default_consume_until`] in chunks of [`CHUNK_SIZE`].
    #[inline(always)]
    fn trim(self, input: &mut I) -> (r: Result<(), ReadError>) {
        assert(self.func() == self.func);
        default_consume_until(input, CHUNK_SIZE, self.func)
    }
}

/// Whether the character is not whitespace.
pub fn not_whitespace(c: char) -> (b: bool)
    ensures
        b == !is_whitespace(c),
{
    let u: u32 = c as u32;
    let white = (0x0009 <= u && u <= 0x000D) || u == 0x0020 || u == 0x0085 || u == 0x00A0 || u
        == 0x1680 || (0x2000 <= u && u <= 0x200A) || u == 0x2028 || u == 0x2029 || u == 0x202F || u
        == 0x205F || u == 0x3000;
    !white
}

/// Whether every character of `text` is whitespace.
pub open spec fn all_whitespace(text: Seq<char>) -> bool {
    forall|k: int| 0 <= k < text.len() ==> is_whitespace(#[trigger] text[k])
}

/// Skips whitespace.
#[derive(Default, Debug, Clone, Copy, PartialEq, Eq, Hash)]
pub struct TrimWhitespace;

impl<I: Input> Trim<I> for TrimWhitespace {
    open spec fn ready(&self) -> bool {
        true
    }

    /// A scan for the first character that is not whitespace: what is
    /// consumed is whitespace, and on success the next character is not.
    open spec fn trims(self, pre: &I, post: &I, r: Result<(), ReadError>) -> bool {
        &&& consume_until_post(pre, post, &not_whitespace, CHUNK_SIZE, r)
        &&& all_whitespace(decode_utf8(pre.unread().take(advance(pre, post))))
        &&& r is Ok ==> post.buffered().len() > 0 && !is_whitespace(
            decode_utf8(post.buffered())[0],
        )
    }

    /// Consumes the whitespace at the front of the input: a scan in chunks
    /// of [`CHUNK_SIZE`] for the first character that is not whitespace, as
    /// [`default_consume_until`] makes it. What is consumed is whitespace. On
    /// success the next character is buffered and is not whitespace. Where
    /// the input ends first, all of its text has been consumed and the end
    /// is latched.
    #[inline(always)]
    fn trim(self, input: &mut I) -> (r: Result<(), ReadError>) {
        let r = default_consume_until(input, CHUNK_SIZE, not_whitespace);
        proof {
            let text = decode_utf8(old(input).unread().take(advance(old(input), input)));
            assert(rejects(&not_whitespace, text));
            assert forall|k: int| 0 <= k < text.len() implies is_whitespace(#[trigger] text[k]) by {
                assert(call_ensures(not_whitespace, (text[k],), false));
            }
        }
        r
    }
}

} // verus!
