//! The re-ordering engine: raw tokens in, resolved tokens out in postfix order.

use vstd::prelude::*;

use crate::token::span::Spanned;
use crate::token::{
    Associativity, FromStackEntry, HasStateTransition, IsOrdering, IsResolvedToken, IsState,
    OrderingBehaviour, ProcessTokenIteratorState, StackEntry, StackEntryFrom, StackEntryOrdering,
    StackEntryToken, TokenType,
};

verus! {

/// The token that asks whether the top of the stack should leave before it.
pub enum Incoming {
    Resolved { precedence: i8, associativity: Associativity },
    Right { precedence: i8 },
    SoftLeft { precedence: i8 },
}

/// The precedence by which a stack entry can be popped, if it can be popped
/// by precedence at all: openers and closed delimiters cannot.
pub open spec fn top_precedence<T: IsResolvedToken, O: IsOrdering>(top: StackEntry<T, O>) -> Option<
    i8,
> {
    match top {
        StackEntry::Resolved(resolved) => match resolved.inner.type_of() {
            TokenType::Precedence { precedence, associativity } => match associativity {
                Associativity::ClosedRight => None,
                _ => Some(precedence),
            },
            TokenType::Value => None,
        },
        StackEntry::Order(ordering) => match ordering.inner.behaviour_of() {
            OrderingBehaviour::Right { precedence, closed } => if closed {
                None
            } else {
                Some(precedence)
            },
            _ => None,
        },
    }
}

/// The popping rule on precedences alone.
pub open spec fn outranks(top: i8, incoming: Incoming) -> bool {
    match incoming {
        Incoming::Resolved { precedence, associativity } => top >= precedence && (associativity
            == Associativity::Left || top != precedence),
        Incoming::Right { precedence } => top > precedence,
        Incoming::SoftLeft { precedence } => top >= precedence,
    }
}

/// Whether `top` leaves the stack before `incoming` is dealt with.
pub open spec fn pops<T: IsResolvedToken, O: IsOrdering>(
    top: StackEntry<T, O>,
    incoming: Incoming,
) -> bool {
    match top_precedence(top) {
        Some(p) => outranks(p, incoming),
        None => false,
    }
}

/// Executable form of [`pops`].
pub fn should_pop<T: IsResolvedToken, O: IsOrdering>(
    top: &StackEntry<T, O>,
    incoming: &Incoming,
) -> (r: bool)
    ensures
        r == pops(*top, *incoming),
{
    let last_precedence = match top {
        StackEntry::Resolved(resolved) => match resolved.inner.get_type() {
            TokenType::Precedence { precedence, associativity } => match associativity {
                Associativity::Left | Associativity::Right => precedence,
                Associativity::ClosedRight => return false,
            },
            TokenType::Value => return false,
        },
        StackEntry::Order(ordering) => match ordering.inner.behaviour() {
            OrderingBehaviour::Right { precedence, closed } => {
                if closed {
                    return false;
                }
                precedence
            },
            _ => return false,
        },
    };
    match incoming {
        Incoming::Resolved { precedence, associativity } => {
            let left = match associativity {
                Associativity::Left => true,
                _ => false,
            };
            last_precedence >= *precedence && (left || *precedence != last_precedence)
        },
        Incoming::Right { precedence } => last_precedence > *precedence,
        Incoming::SoftLeft { precedence } => last_precedence >= *precedence,
    }
}

/// What one output of the engine is: a resolved token, or the error that
/// ended the run.
pub type Emitted<TS, E> = Result<Spanned<StackEntryToken<TS>>, Spanned<E>>;

/// The engine as a mathematical value.
pub struct EngineView<T, TS: FromStackEntry, S> {
    /// What the engine does next.
    pub phase: ProcessTokenIteratorState<StackEntryToken<TS>, StackEntryOrdering<TS>>,
    /// The raw tokens not yet pulled, next one first.
    pub pending: Seq<T>,
    /// The grammatical context for the next raw token; `None` once no further
    /// token will be pulled.
    pub tree_state: Option<TS>,
    /// The observer.
    pub observer: S,
    /// The waiting entries, oldest first.
    pub stack: Seq<StackEntryFrom<TS>>,
}

/// What one step of the engine hands out.
pub enum Signal<I> {
    /// Nothing yet: the engine takes another step.
    Continue,
    /// An output.
    Yield(I),
    /// The end of the outputs.
    Finished,
}

impl<
    T,
    TS: FromStackEntry + HasStateTransition<
        T,
        Token = StackEntryToken<TS>,
        Order = StackEntryOrdering<TS>,
    > + Default,
    S: IsState<StackEntryToken<TS>, StackEntryOrdering<TS>, Error = TS::Error> + Default,
> EngineView<T, TS, S> {
    /// What must hold of the engine between two steps: only operators and
    /// right delimiters wait on the stack, and a context is at hand as long as
    /// tokens may still be pulled.
    pub open spec fn wf(self) -> bool {
        &&& forall|i: int|
            0 <= i < self.stack.len() ==> match #[trigger] self.stack[i] {
                StackEntry::Resolved(resolved) => resolved.inner.type_of() is Precedence,
                StackEntry::Order(ordering) => ordering.inner.behaviour_of() is Right,
            }
        &&& match self.phase {
            ProcessTokenIteratorState::ClearingStack | ProcessTokenIteratorState::Completed => {
                self.tree_state is None
            },
            _ => self.tree_state is Some,
        }
    }

    /// The order of the phases in which a run moves through them when it pulls
    /// no token.
    pub open spec fn rank(self) -> nat {
        match self.phase {
            ProcessTokenIteratorState::ProcessResolved(_) => 3,
            ProcessTokenIteratorState::ProcessOrdering(_) => 3,
            ProcessTokenIteratorState::Pending => 2,
            ProcessTokenIteratorState::ClearingStack => 1,
            ProcessTokenIteratorState::Completed => 0,
        }
    }

    /// The engine with another phase.
    pub open spec fn with_phase(
        self,
        phase: ProcessTokenIteratorState<StackEntryToken<TS>, StackEntryOrdering<TS>>,
    ) -> Self {
        EngineView { phase, ..self }
    }

    /// The engine with another stack.
    pub open spec fn with_stack(self, stack: Seq<StackEntryFrom<TS>>) -> Self {
        EngineView { stack, ..self }
    }

    /// Pending: pull one raw token and turn it into an entry.
    pub open spec fn step_pending(self) -> (Self, Signal<Emitted<TS, TS::Error>>) {
        if self.pending.len() == 0 || self.tree_state is None {
            (
                EngineView {
                    phase: ProcessTokenIteratorState::ClearingStack,
                    tree_state: None,
                    ..self
                },
                Signal::Continue,
            )
        } else {
            match self.tree_state->0.transition_of(self.pending[0]) {
                Err(error) => (
                    EngineView {
                        phase: ProcessTokenIteratorState::Completed,
                        pending: self.pending.drop_first(),
                        tree_state: None,
                        ..self
                    },
                    Signal::Yield(Err(error)),
                ),
                Ok(entry) => (
                    EngineView {
                        phase: match entry {
                            StackEntry::Resolved(resolved) => {
                                ProcessTokenIteratorState::ProcessResolved(resolved)
                            },
                            StackEntry::Order(ordering) => {
                                ProcessTokenIteratorState::ProcessOrdering(ordering)
                            },
                        },
                        pending: self.pending.drop_first(),
                        tree_state: Some(TS::after_entry(&entry)),
                        observer: self.observer.updated(&entry),
                        ..self
                    },
                    Signal::Continue,
                ),
            }
        }
    }

    /// The incoming token meets the stack. Where the popping rule pops a
    /// resolved token, that token is emitted and the incoming token tries
    /// again at the next step. Else the incoming token is done: a popped
    /// structural token is dropped, `keep` is pushed if there is one, and the
    /// engine goes back to pulling.
    pub open spec fn step_against(
        self,
        incoming: Incoming,
        keep: Option<StackEntryFrom<TS>>,
    ) -> (Self, Signal<Emitted<TS, TS::Error>>) {
        let rest = if self.stack.len() > 0 && pops(self.stack.last(), incoming) {
            self.stack.drop_last()
        } else {
            self.stack
        };
        if self.stack.len() > 0 && pops(self.stack.last(), incoming)
            && self.stack.last() is Resolved {
            (self.with_stack(rest), Signal::Yield(Ok(self.stack.last()->Resolved_0)))
        } else {
            (
                EngineView {
                    phase: ProcessTokenIteratorState::Pending,
                    stack: match keep {
                        Some(entry) => rest.push(entry),
                        None => rest,
                    },
                    ..self
                },
                Signal::Continue,
            )
        }
    }

    /// ProcessResolved: an operand is emitted, an operator meets the stack.
    pub open spec fn step_resolved(self, resolved: Spanned<StackEntryToken<TS>>) -> (
        Self,
        Signal<Emitted<TS, TS::Error>>,
    ) {
        match resolved.inner.type_of() {
            TokenType::Value => (
                self.with_phase(ProcessTokenIteratorState::Pending),
                Signal::Yield(Ok(resolved)),
            ),
            TokenType::Precedence { precedence, associativity } => self.step_against(
                Incoming::Resolved { precedence, associativity },
                Some(StackEntry::Resolved(resolved)),
            ),
        }
    }

    /// A hard closer unwinds the stack down to its opener.
    pub open spec fn step_closer(self) -> (Self, Signal<Emitted<TS, TS::Error>>) {
        if self.stack.len() == 0 {
            (
                EngineView {
                    phase: ProcessTokenIteratorState::Completed,
                    tree_state: None,
                    ..self
                },
                Signal::Yield(Err(self.observer.missing())),
            )
        } else {
            let rest = self.stack.drop_last();
            match self.stack.last() {
                StackEntry::Resolved(resolved) => {
                    if resolved.inner.type_of() matches TokenType::Precedence {
                        associativity: Associativity::ClosedRight,
                        ..
                    } {
                        let (observer, opener) = self.observer.closed(resolved);
                        (
                            EngineView {
                                phase: ProcessTokenIteratorState::Pending,
                                observer,
                                stack: rest,
                                ..self
                            },
                            Signal::Yield(Ok(opener)),
                        )
                    } else {
                        (self.with_stack(rest), Signal::Yield(Ok(resolved)))
                    }
                },
                StackEntry::Order(last) => {
                    if last.inner.behaviour_of() matches OrderingBehaviour::Right {
                        closed: true,
                        ..
                    } {
                        (
                            EngineView {
                                phase: ProcessTokenIteratorState::Pending,
                                observer: self.observer.deleted(last),
                                stack: rest,
                                ..self
                            },
                            Signal::Continue,
                        )
                    } else {
                        (self.with_stack(rest), Signal::Continue)
                    }
                },
            }
        }
    }

    /// ProcessOrdering: a right delimiter is pushed, a separator is dropped, a
    /// hard closer unwinds.
    pub open spec fn step_ordering(self, ordering: Spanned<StackEntryOrdering<TS>>) -> (
        Self,
        Signal<Emitted<TS, TS::Error>>,
    ) {
        match ordering.inner.behaviour_of() {
            OrderingBehaviour::Right { precedence, closed } => self.step_against(
                Incoming::Right { precedence },
                Some(StackEntry::Order(ordering)),
            ),
            OrderingBehaviour::SoftLeft { precedence } => self.step_against(
                Incoming::SoftLeft { precedence },
                None,
            ),
            OrderingBehaviour::ClosedLeft => self.step_closer(),
        }
    }

    /// ClearingStack: the stack is drained, resolved tokens are emitted.
    pub open spec fn step_clearing(self) -> (Self, Signal<Emitted<TS, TS::Error>>) {
        if self.stack.len() == 0 {
            (self.with_phase(ProcessTokenIteratorState::Completed), Signal::Finished)
        } else {
            let rest = self.stack.drop_last();
            match self.stack.last() {
                StackEntry::Resolved(resolved) => (
                    self.with_stack(rest),
                    Signal::Yield(Ok(resolved)),
                ),
                StackEntry::Order(ordering) => (
                    EngineView { observer: self.observer.deleted(ordering), stack: rest, ..self },
                    Signal::Continue,
                ),
            }
        }
    }

    /// One step of the state machine.
    pub open spec fn step(self) -> (Self, Signal<Emitted<TS, TS::Error>>) {
        match self.phase {
            ProcessTokenIteratorState::Pending => self.step_pending(),
            ProcessTokenIteratorState::ProcessResolved(resolved) => self.step_resolved(resolved),
            ProcessTokenIteratorState::ProcessOrdering(ordering) => self.step_ordering(ordering),
            ProcessTokenIteratorState::ClearingStack => self.step_clearing(),
            ProcessTokenIteratorState::Completed => (self, Signal::Finished),
        }
    }

    /// Steps up to and including the first that hands something out: the
    /// engine afterwards, and the output (`None` at the end of the outputs).
    pub open spec fn run(self) -> (Self, Option<Emitted<TS, TS::Error>>)
        decreases self.pending.len(), self.rank(), self.stack.len(),
    {
        let (next, signal) = self.step();
        match signal {
            Signal::Continue => next.run(),
            Signal::Yield(item) => (next, Some(item)),
            Signal::Finished => (next, None),
        }
    }

    /// A step keeps the engine well formed.
    pub proof fn lemma_step_wf(self)
        requires
            self.wf(),
        ensures
            self.step().0.wf(),
    {
        let next = self.step().0;
        assert forall|i: int| 0 <= i < next.stack.len() implies match #[trigger] next.stack[i] {
            StackEntry::Resolved(resolved) => resolved.inner.type_of() is Precedence,
            StackEntry::Order(ordering) => ordering.inner.behaviour_of() is Right,
        } by {
            if i < self.stack.len() - 1 {
                assert(next.stack[i] == self.stack[i]);
            } else if next.stack.len() <= self.stack.len() && i < self.stack.len() {
                assert(next.stack[i] == self.stack[i] || next.stack.len() == self.stack.len());
            }
        }
    }

    /// A run keeps the engine well formed.
    pub proof fn lemma_run_wf(self)
        requires
            self.wf(),
        ensures
            self.run().0.wf(),
        decreases self.pending.len(), self.rank(), self.stack.len(),
    {
        self.lemma_step_wf();
        let (next, signal) = self.step();
        if signal is Continue {
            next.lemma_run_wf();
        }
    }
}

/// Builds the engine for a raw-token type `T`, a tree state `TS` and an
/// observer `S`.
pub struct CreateTokenProcessor<
    T,
    TS: FromStackEntry + HasStateTransition<
        T,
        Token = StackEntryToken<TS>,
        Order = StackEntryOrdering<TS>,
    > + Default,
    S: IsState<StackEntryToken<TS>, StackEntryOrdering<TS>>,
> {
    __raw_token: core::marker::PhantomData<T>,
    __tree_state: core::marker::PhantomData<TS>,
    __state: core::marker::PhantomData<S>,
}

/// The engine. It pulls one raw token at a time and hands out the resolved
/// tokens one by one, in postfix order.
pub struct ProcessTokenIterator<
    T,
    TS: FromStackEntry + HasStateTransition<
        T,
        Token = StackEntryToken<TS>,
        Order = StackEntryOrdering<TS>,
    > + Default,
    S: IsState<StackEntryToken<TS>, StackEntryOrdering<TS>> + Default,
> {
    internal_state: ProcessTokenIteratorState<StackEntryToken<TS>, StackEntryOrdering<TS>>,
    /// The raw tokens not yet pulled, next one last.
    tokens: Vec<T>,
    tree_state: TS,
    state: S,
    stack: Vec<StackEntryFrom<TS>>,
}

impl<
    T,
    TS: FromStackEntry + HasStateTransition<
        T,
        Token = StackEntryToken<TS>,
        Order = StackEntryOrdering<TS>,
    > + Default,
    S: IsState<StackEntryToken<TS>, StackEntryOrdering<TS>, Error = TS::Error> + Default,
> CreateTokenProcessor<T, TS, S> {
    /// An engine that will pull `tokens` from first to last. It starts in the
    /// pending phase with an empty stack, and with the default tree state and
    /// observer.
    pub fn new(tokens: Vec<T>) -> (r: ProcessTokenIterator<T, TS, S>)
        ensures
            r.wf(),
            r@.phase is Pending,
            r@.pending == tokens@,
            r@.stack.len() == 0,
            call_ensures(TS::default, (), r@.tree_state->0),
            call_ensures(S::default, (), r@.observer),
    {
        let mut tokens = tokens;
        let ghost all = tokens@;
        let mut reversed: Vec<T> = Vec::new();
        while tokens.len() > 0
            invariant
                tokens@ + reversed@.reverse() =~= all,
            decreases tokens.len(),
        {
            let ghost before = tokens@;
            let ghost done = reversed@;
            let token = tokens.pop().unwrap();
            reversed.push(token);
            assert(reversed@.reverse() =~= seq![token] + done.reverse());
            assert(before =~= tokens@ + seq![token]);
        }
        assert(reversed@.reverse() =~= all);
        ProcessTokenIterator {
            internal_state: ProcessTokenIteratorState::Pending,
            tokens: reversed,
            tree_state: TS::default(),
            state: S::default(),
            stack: Vec::new(),
        }
    }
}

impl<
    T,
    TS: FromStackEntry + HasStateTransition<
        T,
        Token = StackEntryToken<TS>,
        Order = StackEntryOrdering<TS>,
    > + Default,
    S: IsState<StackEntryToken<TS>, StackEntryOrdering<TS>, Error = TS::Error> + Default,
> View for ProcessTokenIterator<T, TS, S> {
    type V = EngineView<T, TS, S>;

    closed spec fn view(&self) -> EngineView<T, TS, S> {
        EngineView {
            phase: self.internal_state,
            pending: self.tokens@.reverse(),
            tree_state: match self.internal_state {
                ProcessTokenIteratorState::ClearingStack
                | ProcessTokenIteratorState::Completed => None,
                _ => Some(self.tree_state),
            },
            observer: self.state,
            stack: self.stack@,
        }
    }
}

impl<
    T,
    TS: FromStackEntry + HasStateTransition<
        T,
        Token = StackEntryToken<TS>,
        Order = StackEntryOrdering<TS>,
    > + Default,
    S: IsState<StackEntryToken<TS>, StackEntryOrdering<TS>, Error = TS::Error> + Default,
> ProcessTokenIterator<T, TS, S> {
    /// Well-formedness of the engine: that of its view.
    pub open spec fn wf(&self) -> bool {
        self@.wf()
    }

    /// Pops the top of the stack if the popping rule says that it leaves
    /// before `incoming`.
    fn pop_before(&mut self, incoming: &Incoming) -> (r: Option<StackEntryFrom<TS>>)
        ensures
            final(self).internal_state == old(self).internal_state,
            final(self).tokens == old(self).tokens,
            final(self).tree_state == old(self).tree_state,
            final(self).state == old(self).state,
            old(self).stack@.len() > 0 && pops(old(self).stack@.last(), *incoming) ==> r == Some(
                old(self).stack@.last(),
            ) && final(self).stack@ == old(self).stack@.drop_last(),
            !(old(self).stack@.len() > 0 && pops(old(self).stack@.last(), *incoming)) ==> r is None
                && final(self).stack@ == old(self).stack@,
    {
        let len = self.stack.len();
        if len > 0 && should_pop(&self.stack[len - 1], incoming) {
            self.stack.pop()
        } else {
            None
        }
    }

    /// One step of the engine: what [`EngineView::step`] says.
    pub fn advance(&mut self) -> (r: Signal<Emitted<TS, TS::Error>>)
        requires
            old(self).wf(),
        ensures
            final(self).wf(),
            (final(self)@, r) == old(self)@.step(),
    {
        let ghost before = self@;
        proof {
            before.lemma_step_wf();
        }
        let mut phase = ProcessTokenIteratorState::Pending;
        core::mem::swap(&mut self.internal_state, &mut phase);
        match phase {
            ProcessTokenIteratorState::Pending => {
                let ghost held = self.tokens@;
                match self.tokens.pop() {
                    None => {
                        self.internal_state = ProcessTokenIteratorState::ClearingStack;
                        assert(self@ == before.step().0);
                    },
                    Some(token) => {
                        assert(held.reverse().drop_first() =~= self.tokens@.reverse());
                        assert(held.reverse()[0] == token);
                        let mut tree_state = TS::default();
                        core::mem::swap(&mut self.tree_state, &mut tree_state);
                        match tree_state.transition(token) {
                            Err(error) => {
                                self.internal_state = ProcessTokenIteratorState::Completed;
                                assert(self@ == before.step().0);
                                return Signal::Yield(Err(error));
                            },
                            Ok(entry) => {
                                self.tree_state = TS::from_entry(&entry);
                                self.state.update(&entry);
                                self.internal_state =
                                match entry {
                                    StackEntry::Resolved(resolved) => {
                                        ProcessTokenIteratorState::ProcessResolved(resolved)
                                    },
                                    StackEntry::Order(ordering) => {
                                        ProcessTokenIteratorState::ProcessOrdering(ordering)
                                    },
                                };
                                assert(self@ == before.step().0);
                            },
                        }
                    },
                }
            },
            ProcessTokenIteratorState::ProcessResolved(resolved) => {
                match resolved.inner.get_type() {
                    TokenType::Value => {
                        assert(self@ == before.step().0);
                        return Signal::Yield(Ok(resolved));
                    },
                    TokenType::Precedence { precedence, associativity } => {
                        let incoming = Incoming::Resolved { precedence, associativity };
                        match self.pop_before(&incoming) {
                            Some(StackEntry::Resolved(top)) => {
                                self.internal_state =
                                ProcessTokenIteratorState::ProcessResolved(resolved);
                                assert(self@ == before.step().0);
                                return Signal::Yield(Ok(top));
                            },
                            _ => {
                                self.stack.push(StackEntry::Resolved(resolved));
                                assert(self@ == before.step().0);
                            },
                        }
                    },
                }
            },
            ProcessTokenIteratorState::ProcessOrdering(ordering) => {
                match ordering.inner.behaviour() {
                    OrderingBehaviour::Right { precedence, closed: _ } => {
                        let incoming = Incoming::Right { precedence };
                        match self.pop_before(&incoming) {
                            Some(StackEntry::Resolved(top)) => {
                                self.internal_state =
                                ProcessTokenIteratorState::ProcessOrdering(ordering);
                                assert(self@ == before.step().0);
                                return Signal::Yield(Ok(top));
                            },
                            _ => {
                                self.stack.push(StackEntry::Order(ordering));
                                assert(self@ == before.step().0);
                            },
                        }
                    },
                    OrderingBehaviour::SoftLeft { precedence } => {
                        let incoming = Incoming::SoftLeft { precedence };
                        match self.pop_before(&incoming) {
                            Some(StackEntry::Resolved(top)) => {
                                self.internal_state =
                                ProcessTokenIteratorState::ProcessOrdering(ordering);
                                assert(self@ == before.step().0);
                                return Signal::Yield(Ok(top));
                            },
                            _ => {
                                assert(self@ == before.step().0);
                            },
                        }
                    },
                    OrderingBehaviour::ClosedLeft => {
                        match self.stack.pop() {
                            None => {
                                self.internal_state = ProcessTokenIteratorState::Completed;
                                assert(self@ == before.step().0);
                                return Signal::Yield(Err(self.state.no_ordering_found()));
                            },
                            Some(StackEntry::Resolved(resolved)) => {
                                let mut resolved = resolved;
                                let opener = match resolved.inner.get_type() {
                                    TokenType::Precedence {
                                        precedence: _,
                                        associativity: Associativity::ClosedRight,
                                    } => true,
                                    _ => false,
                                };
                                if opener {
                                    self.state.proccess_closed(&mut resolved);
                                } else {
                                    self.internal_state =
                                    ProcessTokenIteratorState::ProcessOrdering(ordering);
                                }
                                assert(self@ == before.step().0);
                                return Signal::Yield(Ok(resolved));
                            },
                            Some(StackEntry::Order(last_ordering)) => {
                                let closes = match last_ordering.inner.behaviour() {
                                    OrderingBehaviour::Right { precedence: _, closed } => closed,
                                    _ => false,
                                };
                                if closes {
                                    self.state.delete_closed_ordering(last_ordering);
                                } else {
                                    self.internal_state =
                                    ProcessTokenIteratorState::ProcessOrdering(ordering);
                                }
                                assert(self@ == before.step().0);
                            },
                        }
                    },
                }
            },
            ProcessTokenIteratorState::ClearingStack => {
                match self.stack.pop() {
                    None => {
                        self.internal_state = ProcessTokenIteratorState::Completed;
                        assert(self@ == before.step().0);
                        return Signal::Finished;
                    },
                    Some(StackEntry::Resolved(resolved)) => {
                        self.internal_state = ProcessTokenIteratorState::ClearingStack;
                        assert(self@ == before.step().0);
                        return Signal::Yield(Ok(resolved));
                    },
                    Some(StackEntry::Order(ordering)) => {
                        self.state.delete_closed_ordering(ordering);
                        self.internal_state = ProcessTokenIteratorState::ClearingStack;
                        assert(self@ == before.step().0);
                    },
                }
            },
            ProcessTokenIteratorState::Completed => {
                self.internal_state = ProcessTokenIteratorState::Completed;
                assert(self@ == before.step().0);
                return Signal::Finished;
            },
        }
        Signal::Continue
    }

    /// Whether the engine is about to pull a token and has none: a token
    /// that is supplied now is the next to be pulled, and a step that is
    /// taken now takes the input to be at its end.
    pub fn needs_token(&self) -> (r: bool)
        ensures
            r == (self@.phase is Pending && self@.pending.len() == 0),
    {
        let waiting = match self.internal_state {
            ProcessTokenIteratorState::Pending => true,
            _ => false,
        };
        waiting && self.tokens.len() == 0
    }

    /// Adds a raw token behind those that are still to be pulled.
    pub fn supply(&mut self, token: T)
        requires
            old(self).wf(),
        ensures
            final(self).wf(),
            final(self)@ == (EngineView { pending: old(self)@.pending.push(token), ..old(self)@ }),
    {
        self.tokens.insert(0, token);
        assert(self.tokens@.reverse() =~= old(self).tokens@.reverse().push(token));
    }

    /// The next output: the engine takes steps until one of them hands out a
    /// resolved token or an error, or the outputs have come to their end.
    pub fn next(&mut self) -> (r: Option<Emitted<TS, TS::Error>>)
        requires
            old(self).wf(),
        ensures
            final(self).wf(),
            (final(self)@, r) == old(self)@.run(),
    {
        loop
            invariant
                self.wf(),
                self@.run() == old(self)@.run(),
            decreases self@.pending.len(), self@.rank(), self@.stack.len(),
        {
            match self.advance() {
                Signal::Continue => {},
                Signal::Yield(item) => {
                    return Some(item);
                },
                Signal::Finished => {
                    return None;
                },
            }
        }
    }

    /// Every output that is left, in order: what `next` hands out, call
    /// after call, until it hands out nothing.
    pub fn collect(&mut self) -> (r: Vec<Emitted<TS, TS::Error>>)
        requires
            old(self).wf(),
        ensures
            final(self).wf(),
            r@ == old(self)@.outputs(),
            final(self)@.outputs().len() == 0,
    {
        let mut out: Vec<Emitted<TS, TS::Error>> = Vec::new();
        loop
            invariant
                self.wf(),
                out@ + self@.outputs() == old(self)@.outputs(),
            decreases self@.pending.len(), self@.rank(), self@.stack.len(),
        {
            let ghost before = self@;
            proof {
                before.lemma_outputs_by_run();
                before.lemma_run_nearer();
                self@.run().0.lemma_outputs_by_run();
            }
            match self.next() {
                Some(item) => {
                    let ghost sofar = out@;
                    out.push(item);
                    assert(out@ + self@.outputs() =~= sofar + (seq![item] + self@.outputs()));
                },
                None => {
                    proof {
                        before.lemma_run_end();
                        self@.lemma_run_end();
                        assert(out@ + before.outputs() =~= out@);
                    }
                    return out;
                },
            }
        }
    }
}

} // verus!
