//! Iteration with a parser that is borrowed and keeps its state from item to
//! item.

use vstd::prelude::*;

use crate::input::{follows, lemma_follows_itself, lemma_follows_on, Input, InvalidUtf8,
    EOF_INDEX};
use crate::parse::parse_iter::{
    begins, item_after_trim, item_of, parse_outcome, steps, trim_outcome, ParseIterError,
};
use crate::parse::IsParse;
use crate::trim::{Trim, CHUNK_SIZE};

verus! {

/// The items of an input: what the borrowed parser makes of it, with the
/// trimmer run before the first item and after each.
#[derive(Debug)]
pub struct ParseMutBorrowedIter<'a, 'p, I: Input, T: Trim<I>, P> {
    input: &'a mut I,
    trimmer: T,
    parser: &'p mut P,
}

impl<'a, 'p, I: Input, T: Trim<I> + Clone, P, O, E> ParseMutBorrowedIter<'a, 'p, I, T, P> where
    for <'s, 'k>&'s mut P: IsParse<'k, I, Output = O, Error = E>,
 {
    /// The borrow of the input that the iterator holds.
    pub closed spec fn holds(&self) -> &'a mut I {
        self.input
    }

    /// The trimmer.
    pub closed spec fn trimmer(&self) -> T {
        self.trimmer
    }

    /// The parser as it is.
    pub closed spec fn parser(&self) -> P {
        *self.parser
    }

    /// Whether every copy of the trimmer can be used, the borrowed parser can
    /// be used whatever its state, and its outputs hold the input no longer.
    pub open spec fn usable(trimmer: T) -> bool {
        &&& forall|t: T| cloned(trimmer, t) ==> #[trigger] t.ready()
        &&& forall|p: &'p mut P| #[trigger] <&'p mut P as IsParse<'a, I>>::ready(&p)
        &&& forall|output: O| #[trigger] <&'p mut P as IsParse<'a, I>>::held(&output) is None
    }

    /// What must hold of the iterator between two items.
    pub open spec fn wf(&self) -> bool {
        &&& self.holds().wf()
        &&& CHUNK_SIZE <= self.holds().limit()
        &&& Self::usable(self.trimmer())
    }

    /// Trims the front of the input and begins the iteration. An encoding
    /// error that the trim meets is returned; the end of the input is not an
    /// error, it makes an iteration without items.
    #[inline(always)]
    pub fn new(input: &'a mut I, trimmer: T, parser: &'p mut P) -> (r: Result<Self, InvalidUtf8>)
        requires
            old(input).wf(),
            CHUNK_SIZE <= old(input).limit(),
            Self::usable(trimmer),
        ensures
            match r {
                Ok(iter) => {
                    &&& iter.wf()
                    &&& iter.trimmer() == trimmer
                    &&& iter.parser() == *old(parser)
                    &&& follows(old(input), iter.holds())
                    &&& begins(trimmer, old(input), iter.holds(), None)
                    &&& *final(iter.holds()) == *final(input)
                },
                Err(e) => follows(old(input), final(input)) && begins(
                    trimmer,
                    old(input),
                    final(input),
                    Some(e),
                ),
            },
    {
        let first = trimmer.clone();
        let ghost copy = first;
        let trimmed = first.trim(input);
        proof {
            assert(copy.trims(old(input), input, trimmed));
        }
        match trim_outcome(trimmed) {
            Err(err) => Err(err),
            Ok(()) => Ok(Self { input, trimmer, parser }),
        }
    }

    /// The next item: `None` where the end of the input has been latched or
    /// the parser meets it; else what the parser makes of the front of the
    /// input, followed by a trim. The input is only moved forward.
    pub fn next(&mut self) -> (r: Option<Result<O, ParseIterError<E>>>)
        requires
            old(self).wf(),
        ensures
            final(self).wf(),
            final(self).trimmer() == old(self).trimmer(),
            follows(old(self).holds(), final(self).holds()),
            old(self).holds().position() == EOF_INDEX ==> r is None && *final(self).holds() == *old(
                self,
            ).holds() && final(self).parser() == old(self).parser(),
            old(self).holds().position() != EOF_INDEX ==> exists|borrow: &mut P| #[trigger]
                steps(borrow, old(self).trimmer(), old(self).holds(), final(self).holds(), r)
                    && *borrow == old(self).parser(),
    {
        proof {
            lemma_follows_itself::<I>(self.input);
        }
        if self.input.is_eof() {
            return None;
        }
        let ghost before = *self.input;
        let parsed = (&mut *self.parser).__parse(&mut *self.input);
        let ghost parsed_at = *self.input;
        let ghost got = parsed;
        let ghost lent = choose|borrow: &mut P| #[trigger]
            borrow.parses(&before, &parsed_at, got) && *borrow == old(self).parser();
        let output = match parse_outcome(parsed) {
            Ok(output) => output,
            Err(None) => {
                proof {
                    assert(steps(lent, self.trimmer, &before, self.input, None));
                }
                return None;
            },
            Err(Some(err)) => {
                proof {
                    assert(steps(lent, self.trimmer, &before, self.input, Some(Err(err))));
                }
                return Some(Err(err));
            },
        };
        let second = self.trimmer.clone();
        let ghost trim_copy = second;
        let trimmed = second.trim(&mut *self.input);
        proof {
            lemma_follows_on::<I>(&before, &parsed_at, self.input);
            assert(trim_copy.trims(&parsed_at, self.input, trimmed));
            assert(steps(
                lent,
                self.trimmer,
                &before,
                self.input,
                Some(item_of::<O, E>(output, trimmed)),
            ));
        }
        Some(item_after_trim(output, trimmed))
    }
}

} // verus!
