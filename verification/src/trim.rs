//! Trimming: what is skipped before and between the items of an input.

use vstd::prelude::*;

use crate::input::{follows, lemma_follows_itself, Input, ReadError};

verus! {

/// The number of bytes that the trimmers and parsers of this library ask an
/// input for at a time; an input that is trimmed or parsed must be able to
/// hold that many.
pub const CHUNK_SIZE: usize = 8;

/// A policy for what to skip at the front of an input of type `I`.
pub trait Trim<I: Input>: Sized {
    /// What must hold of the trimmer for it to be used.
    open spec fn ready(&self) -> bool {
        true
    }

    /// Whether the trimmer can make the input `post` and the result `r` of
    /// the input `pre`. A trimmer says what it does by defining this; the
    /// body given here stands for "not said".
    open spec fn trims(self, pre: &I, post: &I, r: Result<(), ReadError>) -> bool {
        true
    }

    /// Consumes what the policy skips. The input is only moved forward. The
    /// end of the input is an expected outcome.
    fn trim(self, input: &mut I) -> (r: Result<(), ReadError>)
        requires
            self.ready(),
            old(input).wf(),
            CHUNK_SIZE <= old(input).limit(),
        ensures
            follows(old(input), final(input)),
            self.trims(old(input), final(input), r),
    ;
}

impl<I: Input> Trim<I> for () {
    open spec fn ready(&self) -> bool {
        true
    }

    /// The input stays as it is, and nothing fails.
    open spec fn trims(self, pre: &I, post: &I, r: Result<(), ReadError>) -> bool {
        *post == *pre && r is Ok
    }

    /// Skips nothing.
    fn trim(self, input: &mut I) -> (r: Result<(), ReadError>) {
        proof {
            lemma_follows_itself(input);
        }
        Ok(())
    }
}

} // verus!
