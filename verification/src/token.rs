//! Token model of the precedence engine.

use vstd::prelude::*;

pub mod span;
pub mod engine;
pub mod laws;
pub mod example;

use crate::token::span::{Span, Spanned};

verus! {

/// How a resolved token takes part in re-ordering.
#[derive(Debug, Clone, Copy, PartialEq, Eq, Structural, Hash, PartialOrd, Ord)]
pub enum TokenType {
    /// An operand: it is emitted at once and never waits on the stack.
    Value,
    /// An operator that waits on the stack until a later token releases it.
    Precedence { precedence: i8, associativity: Associativity },
}

#[derive(Debug, Clone, Copy, PartialEq, Eq, Structural, Hash, PartialOrd, Ord)]
pub enum Associativity {
    /// Left to right
    Left,
    /// Right to left
    Right,
    /// Expects to be closed by a token on the right
    ClosedRight,
}

/// A token of the output. Its type tag is a function of the token: the
/// engine asks for it more than once and relies on the same answer.
pub trait IsResolvedToken {
    /// The type tag of the token; it does not change over the token's life.
    open spec fn type_of(&self) -> TokenType {
        arbitrary()
    }

    fn get_type(&self) -> (r: TokenType)
        ensures
            r == self.type_of(),
    ;
}

#[derive(Debug, Clone, Copy, PartialEq, Eq, Structural, Hash, PartialOrd, Ord)]
pub enum OrderingBehaviour {
    Right { precedence: i8, closed: bool },
    SoftLeft { precedence: i8 },
    ClosedLeft,
}

/// A structural token: one that directs the re-ordering and is not itself
/// part of the output.
pub trait IsOrdering {
    /// The behaviour of the structural token.
    open spec fn behaviour_of(&self) -> OrderingBehaviour {
        arbitrary()
    }

    fn behaviour(&self) -> (r: OrderingBehaviour)
        ensures
            r == self.behaviour_of(),
    ;
}

/// What a raw token turns into: an output token or a structural one.
pub enum StackEntry<T: IsResolvedToken, O: IsOrdering> {
    Resolved(Spanned<T>),
    Order(Spanned<O>),
}

/// A grammatical context that is determined by the entry before it.
pub trait FromStackEntry: Sized {
    type Token: IsResolvedToken;

    type Order: IsOrdering;

    /// The grammatical context that follows `token`.
    open spec fn after_entry(token: &StackEntry<Self::Token, Self::Order>) -> Self {
        arbitrary()
    }

    fn from_entry(token: &StackEntry<Self::Token, Self::Order>) -> (r: Self)
        ensures
            r == Self::after_entry(token),
    ;
}

/// A grammatical context that says what a raw token of type `T` stands for.
pub trait HasStateTransition<T>: Sized {
    type Token: IsResolvedToken;

    type Order: IsOrdering;

    type Error;

    /// The entry that a raw token stands for in this context, or the error
    /// that rejects it.
    open spec fn transition_of(self, token: T) -> Result<
        StackEntry<Self::Token, Self::Order>,
        Spanned<Self::Error>,
    > {
        arbitrary()
    }

    fn transition(self, token: T) -> (r: Result<
        StackEntry<Self::Token, Self::Order>,
        Spanned<Self::Error>,
    >)
        ensures
            r == self.transition_of(token),
    ;
}

/// The resolved-token type of a tree state.
pub type StackEntryToken<S> = <S as FromStackEntry>::Token;

/// The structural-token type of a tree state.
pub type StackEntryOrdering<S> = <S as FromStackEntry>::Order;

/// The stack entries of a tree state.
pub type StackEntryFrom<S> = StackEntry<StackEntryToken<S>, StackEntryOrdering<S>>;

/// An observer of the engine's transitions. Each callback is a function of
/// the observer and its arguments, so that a run of the engine is determined
/// by its input.
pub trait IsState<T: IsResolvedToken, O: IsOrdering>: Sized {
    type Error;

    /// The observer after it has seen a new entry.
    open spec fn updated(self, token: &StackEntry<T, O>) -> Self {
        arbitrary()
    }

    fn update(&mut self, token: &StackEntry<T, O>)
        ensures
            *final(self) == old(self).updated(token),
    ;

    /// The observer and the opener after a closer has met its opener.
    open spec fn closed(self, token: Spanned<T>) -> (Self, Spanned<T>) {
        arbitrary()
    }

    fn proccess_closed(&mut self, token: &mut Spanned<T>)
        ensures
            (*final(self), *final(token)) == old(self).closed(*old(token)),
    ;

    /// The observer after a structural token has left the stack.
    open spec fn deleted(self, ordering: Spanned<O>) -> Self {
        arbitrary()
    }

    fn delete_closed_ordering(&mut self, ordering: Spanned<O>)
        ensures
            *final(self) == old(self).deleted(ordering),
    ;

    /// The error for a closer that finds nothing to close.
    open spec fn missing(&self) -> Spanned<Self::Error> {
        arbitrary()
    }

    fn no_ordering_found(&self) -> (r: Spanned<Self::Error>)
        ensures
            r == self.missing(),
    ;
}

impl<T: IsResolvedToken, O: IsOrdering> IsState<T, O> for () {
    type Error = ();

    open spec fn updated(self, token: &StackEntry<T, O>) -> Self {
        ()
    }

    #[inline(always)]
    fn update(&mut self, _token: &StackEntry<T, O>) {
    }

    open spec fn closed(self, token: Spanned<T>) -> (Self, Spanned<T>) {
        ((), token)
    }

    #[inline(always)]
    fn proccess_closed(&mut self, _token: &mut Spanned<T>) {
    }

    open spec fn deleted(self, ordering: Spanned<O>) -> Self {
        ()
    }

    #[inline(always)]
    fn delete_closed_ordering(&mut self, _ordering: Spanned<O>) {
    }

    open spec fn missing(&self) -> Spanned<Self::Error> {
        Spanned { inner: (), span: Span::at(0, 0) }
    }

    #[inline(always)]
    fn no_ordering_found(&self) -> (r: Spanned<Self::Error>) {
        Spanned::default_span(())
    }
}

/// The phase of the engine between two steps.
#[derive(Debug, Clone, Copy, PartialEq, Eq, Hash)]
pub enum ProcessTokenIteratorState<T: IsResolvedToken, O: IsOrdering> {
    Pending,
    ProcessResolved(Spanned<T>),
    ProcessOrdering(Spanned<O>),
    ClearingStack,
    Completed,
}

} // verus!
