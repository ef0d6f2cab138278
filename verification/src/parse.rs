//! Parsers over an input, and parsers whose output is mapped.

use vstd::prelude::*;

pub mod parse_iter;
pub mod parse_mut_borrowed_iter;

use crate::input::{follows, lemma_follows_on, Input, ReadError};
use crate::trim::CHUNK_SIZE;

verus! {

/// Why a parse failed.
#[derive(Debug, Clone, Copy, PartialEq, Eq, Hash)]
pub enum ParseError<E> {
    /// The input could not give what the parser asked for.
    ReadError(ReadError),
    /// The text is not what the parser looks for.
    Error(E),
}

impl<E> From<ReadError> for ParseError<E> {
    #[inline(always)]
    fn from(value: ReadError) -> (r: Self) {
        ParseError::ReadError(value)
    }
}

impl<E> vstd::std_specs::convert::FromSpecImpl<ReadError> for ParseError<E> {
    open spec fn obeys_from_spec() -> bool {
        true
    }

    open spec fn from_spec(value: ReadError) -> Self {
        ParseError::ReadError(value)
    }
}

impl<E> ParseError<E> {
    #[inline(always)]
    pub fn new(err: E) -> (r: Self)
        ensures
            r == ParseError::Error(err),
    {
        ParseError::Error(err)
    }
}

/// A parser: an operation that is used up by one parse of an input borrowed
/// for `'a`. Its output is a value of its own or an entry that still holds
/// the input.
pub trait IsParse<'a, I: Input>: Sized {
    type Output;

    type Error;

    /// What must hold of the parser for it to be used.
    open spec fn ready(&self) -> bool {
        true
    }

    /// What holds of every output of a parse.
    open spec fn valid(output: &Self::Output) -> bool {
        true
    }

    /// The borrow of the input that an output holds, if it holds one.
    open spec fn held(output: &Self::Output) -> Option<&'a mut I> {
        None
    }

    /// Whether the parser can make the input `post` and the result `r` of
    /// the input `pre`. `post` is the input as the parser leaves it: in the
    /// hands of the output, where the output holds it. A parser says what it
    /// does by defining this; the body given here stands for "not said".
    open spec fn parses(
        self,
        pre: &I,
        post: &I,
        r: Result<Self::Output, ParseError<Self::Error>>,
    ) -> bool {
        true
    }

    /// Whether ending the use of `output` can leave the input that it holds
    /// as `post`.
    open spec fn releases(output: &Self::Output, post: &I) -> bool {
        true
    }

    /// Parses the front of the input. The input is only moved forward; where
    /// the output holds it, it is the holder who gives it back.
    fn __parse(self, input: &'a mut I) -> (r: Result<Self::Output, ParseError<Self::Error>>)
        requires
            self.ready(),
            old(input).wf(),
            CHUNK_SIZE <= old(input).limit(),
        ensures
            match r {
                Ok(output) => Self::valid(&output) && match Self::held(&output) {
                    Some(lent) => follows(old(input), lent) && *final(lent) == *final(input)
                        && self.parses(old(input), lent, r),
                    None => follows(old(input), final(input)) && self.parses(
                        old(input),
                        final(input),
                        r,
                    ),
                },
                Err(_) => follows(old(input), final(input)) && self.parses(
                    old(input),
                    final(input),
                    r,
                ),
            },
    ;

    /// Ends the use of an output: an output that holds the input moves it to
    /// the end of what was matched and gives it back.
    fn __release(output: Self::Output)
        requires
            Self::valid(&output),
        ensures
            Self::held(&output) matches Some(lent) ==> follows(lent, final(lent))
                && Self::releases(&output, final(lent)),
    ;
}

/// What a parser followed by a mapping makes of an input: an error of the
/// parser as it is; else what the mapping makes of the parser's output, with
/// the input as the end of that output's use leaves it.
pub open spec fn mapped_parses<'a, I: Input, P: IsParse<'a, I>, O>(
    parse: P,
    pre: &I,
    post: &I,
    r: Result<O, ParseError<P::Error>>,
    maps: spec_fn(P::Output, O) -> bool,
) -> bool {
    match r {
        Err(e) => parse.parses(pre, post, Err(e)),
        Ok(mapped) => exists|output: P::Output, mid: I|
            {
                &&& #[trigger] parse.parses(pre, &mid, Ok(output))
                &&& P::valid(&output)
                &&& maps(output, mapped)
                &&& if P::held(&output) is Some {
                    *P::held(&output)->Some_0 == mid && P::releases(&output, post)
                } else {
                    *post == mid
                }
            },
    }
}

/// A way to turn the output of the parser `P` into a value that holds the
/// input no longer. It looks at the output and does not end its use.
pub trait IsMapping<'a, I: Input, P: IsParse<'a, I>>: Sized {
    type Output;

    /// Whether the mapping can be used on `output`.
    open spec fn accepts(&self, output: &P::Output) -> bool {
        true
    }

    /// Whether `mapped` is what the mapping can make of `output`.
    open spec fn maps(self, output: &P::Output, mapped: Self::Output) -> bool {
        true
    }

    fn __map(self, output: &P::Output) -> (r: Self::Output)
        requires
            self.accepts(output),
        ensures
            self.maps(output, r),
    ;
}

impl<'a, I: Input, T, P: IsParse<'a, I, Output = T>, F: FnOnce(&T) -> O, O> IsMapping<'a, I, P> for F {
    type Output = O;

    open spec fn accepts(&self, output: &T) -> bool {
        call_requires(*self, (output,))
    }

    open spec fn maps(self, output: &T, mapped: O) -> bool {
        call_ensures(self, (output,), mapped)
    }

    #[inline(always)]
    fn __map(self, output: &T) -> (r: O) {
        self(output)
    }
}

/// The parser `parse` followed by the mapping `mapping`.
#[derive(Debug, Clone, Copy)]
pub struct MappedParse<P, M> {
    pub parse: P,
    pub mapping: M,
}

impl<'a, I: Input, P: IsParse<'a, I>, M: IsMapping<'a, I, P>> IsParse<'a, I> for MappedParse<P, M> {
    type Output = M::Output;

    type Error = P::Error;

    open spec fn ready(&self) -> bool {
        &&& self.parse.ready()
        &&& forall|output: P::Output| #[trigger] P::valid(&output) ==> self.mapping.accepts(&output)
    }

    open spec fn valid(output: &Self::Output) -> bool {
        true
    }

    open spec fn held(output: &Self::Output) -> Option<&'a mut I> {
        None
    }

    open spec fn parses(
        self,
        pre: &I,
        post: &I,
        r: Result<Self::Output, ParseError<Self::Error>>,
    ) -> bool {
        mapped_parses(
            self.parse,
            pre,
            post,
            r,
            |output: P::Output, mapped: M::Output| self.mapping.maps(&output, mapped),
        )
    }

    /// Parses, maps what was parsed and ends its use. An error of the parser
    /// is passed on.
    #[inline(always)]
    fn __parse(self, input: &'a mut I) -> (r: Result<Self::Output, ParseError<Self::Error>>) {
        let ghost left = *final(input);
        match self.parse.__parse(input) {
            Ok(output) => {
                let mapped = self.mapping.__map(&output);
                let ghost held = P::held(&output);
                let ghost parsed = output;
                let ghost mid = match held {
                    Some(lent) => *lent,
                    None => left,
                };
                P::__release(output);
                proof {
                    match held {
                        Some(lent) => {
                            lemma_follows_on::<I>(old(input), lent, final(lent));
                        },
                        None => {},
                    }
                    assert(self.parse.parses(old(input), &mid, Ok(parsed)));
                }
                Ok(mapped)
            },
            Err(e) => Err(e),
        }
    }

    #[inline(always)]
    fn __release(output: Self::Output) {
    }
}

/// The output of the parser `P` over an input borrowed for `'a`.
pub type ParseOutput<'a, I, P> = <P as IsParse<'a, I>>::Output;

/// The error of the parser `P` over an input borrowed for `'a`.
pub type ParseErrorOutput<'a, I, P> = <P as IsParse<'a, I>>::Error;

/// A parser for inputs borrowed for any time.
pub trait Parse<I: Input>: for<'a> IsParse<'a, I> + Sized {
    /// As [`IsParse::__parse`].
    #[inline(always)]
    fn parse<'a>(self, input: &'a mut I) -> (r: Result<
        ParseOutput<'a, I, Self>,
        ParseError<ParseErrorOutput<'a, I, Self>>,
    >)
        requires
            <Self as IsParse<'a, I>>::ready(&self),
            old(input).wf(),
            CHUNK_SIZE <= old(input).limit(),
        ensures
            match r {
                Ok(output) => <Self as IsParse<'a, I>>::valid(&output) && match <Self as IsParse<
                    'a,
                    I,
                >>::held(&output) {
                    Some(lent) => follows(old(input), lent) && *final(lent) == *final(input)
                        && <Self as IsParse<'a, I>>::parses(self, old(input), lent, r),
                    None => follows(old(input), final(input)) && <Self as IsParse<
                        'a,
                        I,
                    >>::parses(self, old(input), final(input), r),
                },
                Err(_) => follows(old(input), final(input)) && <Self as IsParse<
                    'a,
                    I,
                >>::parses(self, old(input), final(input), r),
            },
    {
        self.__parse(input)
    }
}

impl<I: Input, P: for<'a> IsParse<'a, I>> Parse<I> for P {

}

/// The output of the mapping `M` after the parser `P`.
pub type MappingOutput<'a, I, P, M> = <M as IsMapping<'a, I, P>>::Output;

/// A mapping for the outputs of a parser over inputs borrowed for any time.
pub trait Mapping<I: Input, P: Parse<I>>: for<'a> IsMapping<'a, I, P> + Sized {
    /// As [`IsMapping::__map`].
    #[inline(always)]
    fn map<'a>(self, output: &ParseOutput<'a, I, P>) -> (r: MappingOutput<'a, I, P, Self>)
        requires
            <Self as IsMapping<'a, I, P>>::accepts(&self, output),
        ensures
            <Self as IsMapping<'a, I, P>>::maps(self, output, r),
    {
        self.__map(output)
    }
}

impl<I: Input, P: Parse<I>, M: for<'a> IsMapping<'a, I, P>> Mapping<I, P> for M {

}

/// Parsers with a mapping put behind them.
pub trait ParseExt<I: Input>: Parse<I> {
    #[inline(always)]
    fn mapped<M: Mapping<I, Self>>(self, mapping: M) -> (r: MappedParse<Self, M>)
        ensures
            r.parse == self,
            r.mapping == mapping,
    {
        MappedParse { parse: self, mapping }
    }

    #[inline(always)]
    fn mapped_mut<M: MappingMut<I, Self>>(self, mapping: M) -> (r: MappedMutParse<Self, M>)
        ensures
            r.parse == self,
            r.mapping == mapping,
    {
        MappedMutParse { parse: self, mapping }
    }
}

impl<I: Input, P: Parse<I>> ParseExt<I> for P {

}

/// A mapping with a state of its own, which it may change each time it is
/// used.
pub trait IsMappingMut<'a, I: Input, P: IsParse<'a, I>>: Sized {
    type Output;

    /// Whether the mapping can be used on every output of the parser.
    open spec fn ready(&self) -> bool {
        true
    }

    /// Whether the mapping `self` can make `mapped` of `output` and be the
    /// mapping `after` when it has done so.
    open spec fn maps(self, output: &P::Output, after: Self, mapped: Self::Output) -> bool {
        true
    }

    /// Maps an output: the result is what the mapping, as it is before the
    /// call, makes of the output, and the mapping is afterwards what that
    /// use has made of it. A mapping that could be used can be used again.
    fn __map_mut(&mut self, output: &P::Output) -> (r: Self::Output)
        requires
            old(self).ready(),
            P::valid(output),
        ensures
            final(self).ready(),
            (*old(self)).maps(output, *final(self), r),
    ;
}

impl<'a, I: Input, T, P: IsParse<'a, I, Output = T>, F: FnMut(&T) -> O, O> IsMappingMut<
    'a,
    I,
    P,
> for F {
    type Output = O;

    open spec fn ready(&self) -> bool {
        forall|f: F, output: &T| #[trigger] call_requires(f, (output,))
    }

    /// The result is one that a call of the function on the output can
    /// give. Of the function after the call nothing is said here: what a
    /// function does to the variables that it borrows is not part of its
    /// value.
    open spec fn maps(self, output: &T, after: Self, mapped: O) -> bool {
        call_ensures(self, (output,), mapped)
    }

    /// Calls the function on the output.
    #[inline(always)]
    fn __map_mut(&mut self, output: &T) -> (r: O) {
        self(output)
    }
}

/// The output of the mapping `M` with a state after the parser `P`.
pub type MappingMutOutput<'a, I, P, M> = <M as IsMappingMut<'a, I, P>>::Output;

/// A mapping with a state for the outputs of a parser over inputs borrowed
/// for any time.
pub trait MappingMut<I: Input, P: Parse<I>>: for<'a> IsMappingMut<'a, I, P> + Sized {
    /// As [`IsMappingMut::__map_mut`].
    #[inline(always)]
    fn map_mut<'a>(&mut self, output: &ParseOutput<'a, I, P>) -> (r: MappingMutOutput<
        'a,
        I,
        P,
        Self,
    >)
        requires
            <Self as IsMappingMut<'a, I, P>>::ready(old(self)),
            <P as IsParse<'a, I>>::valid(output),
        ensures
            <Self as IsMappingMut<'a, I, P>>::ready(final(self)),
            <Self as IsMappingMut<'a, I, P>>::maps(*old(self), output, *final(self), r),
    {
        self.__map_mut(output)
    }
}

impl<I: Input, P: Parse<I>, M: for<'a> IsMappingMut<'a, I, P>> MappingMut<I, P> for M {

}

/// The parser `parse` followed by the mapping `mapping`, which has a state.
#[derive(Debug)]
pub struct MappedMutParse<P, M> {
    pub parse: P,
    pub mapping: M,
}

impl<'a, I: Input, P: IsParse<'a, I>, M: IsMappingMut<'a, I, P>> IsParse<'a, I> for MappedMutParse<
    P,
    M,
> {
    type Output = M::Output;

    type Error = P::Error;

    open spec fn ready(&self) -> bool {
        self.parse.ready() && self.mapping.ready()
    }

    open spec fn valid(output: &Self::Output) -> bool {
        true
    }

    open spec fn held(output: &Self::Output) -> Option<&'a mut I> {
        None
    }

    open spec fn parses(
        self,
        pre: &I,
        post: &I,
        r: Result<Self::Output, ParseError<Self::Error>>,
    ) -> bool {
        mapped_parses(
            self.parse,
            pre,
            post,
            r,
            |output: P::Output, mapped: M::Output|
                exists|after: M| #[trigger] self.mapping.maps(&output, after, mapped),
        )
    }

    /// Parses, maps what was parsed and ends its use. An error of the parser
    /// is passed on.
    #[inline(always)]
    fn __parse(self, input: &'a mut I) -> (r: Result<Self::Output, ParseError<Self::Error>>) {
        let ghost left = *final(input);
        let mut mapping = self.mapping;
        match self.parse.__parse(input) {
            Ok(output) => {
                let mapped = mapping.__map_mut(&output);
                let ghost held = P::held(&output);
                let ghost parsed = output;
                let ghost mid = match held {
                    Some(lent) => *lent,
                    None => left,
                };
                P::__release(output);
                proof {
                    match held {
                        Some(lent) => {
                            lemma_follows_on::<I>(old(input), lent, final(lent));
                        },
                        None => {},
                    }
                    assert(self.mapping.maps(&parsed, mapping, mapped));
                    assert(self.parse.parses(old(input), &mid, Ok(parsed)));
                }
                Ok(mapped)
            },
            Err(e) => Err(e),
        }
    }

    #[inline(always)]
    fn __release(output: Self::Output) {
    }
}

impl<'a, 'm, I: Input, P: IsParse<'a, I> + Clone, M: IsMappingMut<'a, I, P>> IsParse<
    'a,
    I,
> for &'m mut MappedMutParse<P, M> {
    type Output = M::Output;

    type Error = P::Error;

    /// Every copy of the parser can be used, and so can the mapping.
    open spec fn ready(&self) -> bool {
        &&& forall|p: P| cloned(self.parse, p) ==> #[trigger] p.ready()
        &&& self.mapping.ready()
    }

    open spec fn valid(output: &Self::Output) -> bool {
        true
    }

    open spec fn held(output: &Self::Output) -> Option<&'a mut I> {
        None
    }

    /// What a copy of the parser, followed by the mapping, makes of the
    /// input.
    open spec fn parses(
        self,
        pre: &I,
        post: &I,
        r: Result<Self::Output, ParseError<Self::Error>>,
    ) -> bool {
        exists|p: P|
            #[trigger] cloned(self.parse, p) && mapped_parses(
                p,
                pre,
                post,
                r,
                |output: P::Output, mapped: M::Output|
                    exists|after: M| #[trigger] self.mapping.maps(&output, after, mapped),
            )
    }

    /// Parses with a copy of the parser, maps what was parsed and ends its
    /// use. The parser is left as it was. On success the mapping is what
    /// mapping the parser's output has made of it, and it can be used again;
    /// on failure it is left as it was.
    #[inline(always)]
    fn __parse(self, input: &'a mut I) -> (r: Result<Self::Output, ParseError<Self::Error>>)
        ensures
            final(self).parse == old(self).parse,
            final(self).mapping.ready(),
            match r {
                Ok(mapped) => exists|output: P::Output|
                    P::valid(&output) && #[trigger] old(self).mapping.maps(
                        &output,
                        final(self).mapping,
                        mapped,
                    ),
                Err(_) => final(self).mapping == old(self).mapping,
            },
    {
        let ghost left = *final(input);
        let parser = self.parse.clone();
        let ghost copy = parser;
        match parser.__parse(input) {
            Ok(output) => {
                let mapped = self.mapping.__map_mut(&output);
                let ghost held = P::held(&output);
                let ghost parsed = output;
                let ghost mid = match held {
                    Some(lent) => *lent,
                    None => left,
                };
                P::__release(output);
                proof {
                    match held {
                        Some(lent) => {
                            lemma_follows_on::<I>(old(input), lent, final(lent));
                        },
                        None => {},
                    }
                    assert(old(self).mapping.maps(&parsed, self.mapping, mapped));
                    assert(copy.parses(old(input), &mid, Ok(parsed)));
                    assert(cloned(old(self).parse, copy));
                }
                Ok(mapped)
            },
            Err(e) => {
                proof {
                    assert(cloned(old(self).parse, copy));
                }
                Err(e)
            },
        }
    }

    #[inline(always)]
    fn __release(output: Self::Output) {
    }
}

} // verus!
