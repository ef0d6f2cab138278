//! Iteration over the items of an input: parse, trim, parse, trim.

use vstd::prelude::*;

use crate::input::{follows, lemma_follows_itself, lemma_follows_on, Input, InvalidUtf8, ReadError,
    EOF_INDEX};
use crate::parse::{IsParse, ParseError};
use crate::trim::{Trim, CHUNK_SIZE};

verus! {

/// Why an item of an iteration is an error. The end of the input is none: it
/// ends the iteration.
#[derive(Debug, Clone, Copy, PartialEq, Eq, Hash)]
pub enum ParseIterError<E> {
    /// The input holds bytes that are not UTF-8.
    InvalidUtf8(InvalidUtf8),
    /// The text is not what the parser looks for.
    Error(E),
}

impl<E> From<InvalidUtf8> for ParseIterError<E> {
    #[inline(always)]
    fn from(value: InvalidUtf8) -> (r: Self) {
        ParseIterError::InvalidUtf8(value)
    }
}

impl<E> vstd::std_specs::convert::FromSpecImpl<InvalidUtf8> for ParseIterError<E> {
    open spec fn obeys_from_spec() -> bool {
        true
    }

    open spec fn from_spec(value: InvalidUtf8) -> Self {
        ParseIterError::InvalidUtf8(value)
    }
}

impl<E> ParseIterError<E> {
    #[inline(always)]
    pub fn new(err: E) -> (r: Self)
        ensures
            r == ParseIterError::Error(err),
    {
        ParseIterError::Error(err)
    }
}

/// What a trim means for the iteration: only an encoding error is an error;
/// the end of the input is an expected outcome.
pub fn trim_outcome(trimmed: Result<(), ReadError>) -> (r: Result<(), InvalidUtf8>)
    ensures
        r == match trimmed {
            Err(ReadError::InvalidUtf8(err)) => Err::<(), InvalidUtf8>(err),
            _ => Ok::<(), InvalidUtf8>(()),
        },
{
    match trimmed {
        Err(ReadError::InvalidUtf8(err)) => Err(err),
        _ => Ok(()),
    }
}

/// What a parse means for the iteration: an output goes on to the trim, the
/// end of the input ends the iteration (`Err(None)`), and any other error is
/// the next item.
pub fn parse_outcome<O, E>(parsed: Result<O, ParseError<E>>) -> (r: Result<
    O,
    Option<ParseIterError<E>>,
>)
    ensures
        r == match parsed {
            Ok(output) => Ok::<O, Option<ParseIterError<E>>>(output),
            Err(ParseError::ReadError(ReadError::EOF)) => Err::<O, Option<ParseIterError<E>>>(None),
            Err(ParseError::ReadError(ReadError::InvalidUtf8(err))) => Err::<
                O,
                Option<ParseIterError<E>>,
            >(Some(ParseIterError::InvalidUtf8(err))),
            Err(ParseError::Error(err)) => Err::<O, Option<ParseIterError<E>>>(
                Some(ParseIterError::Error(err)),
            ),
        },
{
    match parsed {
        Ok(output) => Ok(output),
        Err(ParseError::ReadError(ReadError::EOF)) => Err(None),
        Err(ParseError::ReadError(ReadError::InvalidUtf8(err))) => Err(
            Some(ParseIterError::InvalidUtf8(err)),
        ),
        Err(ParseError::Error(err)) => Err(Some(ParseIterError::Error(err))),
    }
}

/// The item that a parsed output becomes after the trim that follows it.
pub fn item_after_trim<O, E>(output: O, trimmed: Result<(), ReadError>) -> (r: Result<
    O,
    ParseIterError<E>,
>)
    ensures
        r == item_of::<O, E>(output, trimmed),
{
    match trim_outcome(trimmed) {
        Err(err) => Err(ParseIterError::InvalidUtf8(err)),
        Ok(()) => Ok(output),
    }
}

/// [`item_after_trim`] as a function of its arguments.
pub open spec fn item_of<O, E>(output: O, trimmed: Result<(), ReadError>) -> Result<
    O,
    ParseIterError<E>,
> {
    match trimmed {
        Err(ReadError::InvalidUtf8(err)) => Err(ParseIterError::InvalidUtf8(err)),
        _ => Ok(output),
    }
}

/// How an iteration begins: a copy of the trimmer makes `post` of the input
/// `pre`, and `e` is the encoding error that it met, if it met one.
pub open spec fn begins<I: Input, T: Trim<I> + Clone>(
    trimmer: T,
    pre: &I,
    post: &I,
    e: Option<InvalidUtf8>,
) -> bool {
    exists|t: T, trimmed: Result<(), ReadError>|
        {
            &&& cloned(trimmer, t)
            &&& #[trigger] t.trims(pre, post, trimmed)
            &&& e == match trimmed {
                Err(ReadError::InvalidUtf8(err)) => Some(err),
                _ => None,
            }
        }
}

/// How the parser `parser` and a copy of the trimmer make the next item `r`
/// and the input `post` of an input `pre` whose end is not latched. The
/// parser is run. The end of the input gives no item; another error of the
/// parser is the item. An output is followed by a trim, and is the item
/// unless the trim meets an encoding error, which is then the item.
pub open spec fn steps<'a, I: Input, T: Trim<I> + Clone, Q: IsParse<'a, I>>(
    parser: Q,
    trimmer: T,
    pre: &I,
    post: &I,
    r: Option<Result<Q::Output, ParseIterError<Q::Error>>>,
) -> bool {
    exists|parsed: Result<Q::Output, ParseError<Q::Error>>, mid: I|
        {
            &&& #[trigger] parser.parses(pre, &mid, parsed)
            &&& match parsed {
                Err(ParseError::ReadError(ReadError::EOF)) => r is None && *post == mid,
                Err(ParseError::ReadError(ReadError::InvalidUtf8(err))) => r == Some(
                    Err::<Q::Output, ParseIterError<Q::Error>>(ParseIterError::InvalidUtf8(err)),
                ) && *post == mid,
                Err(ParseError::Error(err)) => r == Some(
                    Err::<Q::Output, ParseIterError<Q::Error>>(ParseIterError::Error(err)),
                ) && *post == mid,
                Ok(output) => exists|t: T, trimmed: Result<(), ReadError>|
                    {
                        &&& cloned(trimmer, t)
                        &&& #[trigger] t.trims(&mid, post, trimmed)
                        &&& r == Some(item_of::<Q::Output, Q::Error>(output, trimmed))
                    },
            }
        }
}

/// The items of an input: what the parser makes of it, with the trimmer run
/// before the first item and after each.
#[derive(Debug)]
pub struct ParseIter<'a, I: Input, T: Trim<I>, P> {
    input: &'a mut I,
    trimmer: T,
    parser: P,
}

impl<'a, I: Input, T: Trim<I> + Clone, P: for <'s>IsParse<'s, I, Output = O, Error = E> + Clone, O, E> ParseIter<
    'a,
    I,
    T,
    P,
> {
    /// The borrow of the input that the iterator holds.
    pub closed spec fn holds(&self) -> &'a mut I {
        self.input
    }

    /// The trimmer.
    pub closed spec fn trimmer(&self) -> T {
        self.trimmer
    }

    /// The parser.
    pub closed spec fn parser(&self) -> P {
        self.parser
    }

    /// Whether every copy of the trimmer and of the parser can be used, and
    /// the parser's outputs hold the input no longer.
    pub open spec fn usable(trimmer: T, parser: P) -> bool {
        &&& forall|t: T| cloned(trimmer, t) ==> #[trigger] t.ready()
        &&& forall|p: P| cloned(parser, p) ==> #[trigger] <P as IsParse<'a, I>>::ready(&p)
        &&& forall|output: O| #[trigger] <P as IsParse<'a, I>>::held(&output) is None
    }

    /// What must hold of the iterator between two items.
    pub open spec fn wf(&self) -> bool {
        &&& self.holds().wf()
        &&& CHUNK_SIZE <= self.holds().limit()
        &&& Self::usable(self.trimmer(), self.parser())
    }

    /// Trims the front of the input and begins the iteration. An encoding
    /// error that the trim meets is returned; the end of the input is not an
    /// error, it makes an iteration without items.
    #[inline(always)]
    pub fn new(input: &'a mut I, trimmer: T, parser: P) -> (r: Result<Self, InvalidUtf8>)
        requires
            old(input).wf(),
            CHUNK_SIZE <= old(input).limit(),
            Self::usable(trimmer, parser),
        ensures
            match r {
                Ok(iter) => {
                    &&& iter.wf()
                    &&& iter.trimmer() == trimmer
                    &&& iter.parser() == parser
                    &&& follows(old(input), iter.holds())
                    &&& begins(trimmer, old(input), iter.holds(), None)
                    &&& *final(iter.holds()) == *final(input)
                },
                Err(e) => follows(old(input), final(input)) && begins(
                    trimmer,
                    old(input),
                    final(input),
                    Some(e),
                ),
            },
    {
        let first = trimmer.clone();
        let ghost copy = first;
        let trimmed = first.trim(input);
        proof {
            assert(copy.trims(old(input), input, trimmed));
        }
        match trim_outcome(trimmed) {
            Err(err) => Err(err),
            Ok(()) => Ok(Self { input, trimmer, parser }),
        }
    }

    /// The next item: `None` where the end of the input has been latched or
    /// the parser meets it; else what the parser makes of the front of the
    /// input, followed by a trim. The input is only moved forward.
    pub fn next(&mut self) -> (r: Option<Result<O, ParseIterError<E>>>)
        requires
            old(self).wf(),
        ensures
            final(self).wf(),
            final(self).trimmer() == old(self).trimmer(),
            final(self).parser() == old(self).parser(),
            follows(old(self).holds(), final(self).holds()),
            old(self).holds().position() == EOF_INDEX ==> r is None && *final(self).holds() == *old(
                self,
            ).holds(),
            old(self).holds().position() != EOF_INDEX ==> exists|p: P| #[trigger]
                cloned(old(self).parser(), p) && steps(
                    p,
                    old(self).trimmer(),
                    old(self).holds(),
                    final(self).holds(),
                    r,
                ),
    {
        proof {
            lemma_follows_itself::<I>(self.input);
        }
        if self.input.is_eof() {
            return None;
        }
        let ghost before = *self.input;
        let parser = self.parser.clone();
        let ghost copy = parser;
        let parsed = parser.__parse(&mut *self.input);
        let ghost parsed_at = *self.input;
        let ghost got = parsed;
        proof {
            assert(cloned(self.parser, copy));
            assert(<P as IsParse<'a, I>>::parses(copy, &before, &parsed_at, got));
        }
        let output = match parse_outcome(parsed) {
            Ok(output) => output,
            Err(None) => {
                return None;
            },
            Err(Some(err)) => {
                return Some(Err(err));
            },
        };
        let second = self.trimmer.clone();
        let ghost trim_copy = second;
        let trimmed = second.trim(&mut *self.input);
        proof {
            lemma_follows_on::<I>(&before, &parsed_at, self.input);
            assert(trim_copy.trims(&parsed_at, self.input, trimmed));
        }
        Some(item_after_trim(output, trimmed))
    }
}

} // verus!
