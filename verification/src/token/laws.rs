//! What holds of every run of the engine: no resolved token is lost, and a run
//! without error hands out as many tokens as the transitions produced.

use vstd::multiset::Multiset;
use vstd::prelude::*;

use crate::token::engine::{Emitted, EngineView, Signal};
use crate::token::span::Spanned;
use crate::token::{
    Associativity, FromStackEntry, HasStateTransition, IsOrdering, IsResolvedToken, IsState,
    ProcessTokenIteratorState, StackEntry, StackEntryOrdering, StackEntryToken, TokenType,
};

verus! {

/// The number of resolved tokens among the entries of a stack.
pub open spec fn resolved_on<T: IsResolvedToken, O: IsOrdering>(stack: Seq<StackEntry<T, O>>) -> nat
    decreases stack.len(),
{
    if stack.len() == 0 {
        0
    } else {
        resolved_on(stack.drop_last()) + if stack.last() is Resolved {
            1nat
        } else {
            0nat
        }
    }
}

/// The number of resolved entries that the transitions produce from `tokens`,
/// starting in the context `tree_state` and ending at the first token that
/// the transition rejects.
pub open spec fn resolved_ahead<
    T,
    TS: FromStackEntry + HasStateTransition<
        T,
        Token = StackEntryToken<TS>,
        Order = StackEntryOrdering<TS>,
    >,
>(tree_state: TS, tokens: Seq<T>) -> nat
    decreases tokens.len(),
{
    if tokens.len() == 0 {
        0
    } else {
        match tree_state.transition_of(tokens[0]) {
            Err(_) => 0,
            Ok(entry) => resolved_ahead(TS::after_entry(&entry), tokens.drop_first()) + if entry is Resolved {
                1nat
            } else {
                0nat
            },
        }
    }
}

/// The resolved tokens among the entries of a stack.
pub open spec fn tokens_on<T: IsResolvedToken, O: IsOrdering>(
    stack: Seq<StackEntry<T, O>>,
) -> Multiset<Spanned<T>>
    decreases stack.len(),
{
    if stack.len() == 0 {
        Multiset::empty()
    } else {
        match stack.last() {
            StackEntry::Resolved(token) => tokens_on(stack.drop_last()).insert(token),
            StackEntry::Order(_) => tokens_on(stack.drop_last()),
        }
    }
}

/// The resolved tokens that the transitions produce from `tokens`, starting
/// in the context `tree_state` and ending at the first token that the
/// transition rejects.
pub open spec fn tokens_ahead<
    T,
    TS: FromStackEntry + HasStateTransition<
        T,
        Token = StackEntryToken<TS>,
        Order = StackEntryOrdering<TS>,
    >,
>(tree_state: TS, tokens: Seq<T>) -> Multiset<Spanned<StackEntryToken<TS>>>
    decreases tokens.len(),
{
    if tokens.len() == 0 {
        Multiset::empty()
    } else {
        match tree_state.transition_of(tokens[0]) {
            Err(_) => Multiset::empty(),
            Ok(entry) => match entry {
                StackEntry::Resolved(token) => tokens_ahead(
                    TS::after_entry(&entry),
                    tokens.drop_first(),
                ).insert(token),
                StackEntry::Order(_) => tokens_ahead(TS::after_entry(&entry), tokens.drop_first()),
            },
        }
    }
}

/// Pushing an entry adds its token to the tokens of the stack.
pub proof fn lemma_tokens_on_push<T: IsResolvedToken, O: IsOrdering>(
    stack: Seq<StackEntry<T, O>>,
    entry: StackEntry<T, O>,
)
    ensures
        tokens_on(stack.push(entry)) == match entry {
            StackEntry::Resolved(token) => tokens_on(stack).insert(token),
            StackEntry::Order(_) => tokens_on(stack),
        },
{
    assert(stack.push(entry).drop_last() =~= stack);
}

/// Pushing an entry adds it to the count.
pub proof fn lemma_resolved_on_push<T: IsResolvedToken, O: IsOrdering>(
    stack: Seq<StackEntry<T, O>>,
    entry: StackEntry<T, O>,
)
    ensures
        resolved_on(stack.push(entry)) == resolved_on(stack) + if entry is Resolved {
            1nat
        } else {
            0nat
        },
{
    assert(stack.push(entry).drop_last() =~= stack);
}

impl<
    T,
    TS: FromStackEntry + HasStateTransition<
        T,
        Token = StackEntryToken<TS>,
        Order = StackEntryOrdering<TS>,
    > + Default,
    S: IsState<StackEntryToken<TS>, StackEntryOrdering<TS>, Error = TS::Error> + Default,
> EngineView<T, TS, S> {
    /// The resolved tokens that the engine holds: those on the stack and the
    /// one in hand.
    pub open spec fn waiting(self) -> nat {
        resolved_on(self.stack) + if self.phase is ProcessResolved {
            1nat
        } else {
            0nat
        }
    }

    /// The resolved entries that the tokens still to be pulled will produce.
    pub open spec fn upcoming(self) -> nat {
        match self.tree_state {
            Some(tree_state) => resolved_ahead(tree_state, self.pending),
            None => 0,
        }
    }

    /// The resolved tokens that the engine holds: those on the stack and
    /// the one in hand.
    pub open spec fn held_tokens(self) -> Multiset<Spanned<StackEntryToken<TS>>> {
        match self.phase {
            ProcessTokenIteratorState::ProcessResolved(token) => tokens_on(self.stack).insert(
                token,
            ),
            _ => tokens_on(self.stack),
        }
    }

    /// The resolved tokens that the tokens still to be pulled will produce.
    pub open spec fn coming_tokens(self) -> Multiset<Spanned<StackEntryToken<TS>>> {
        match self.tree_state {
            Some(tree_state) => tokens_ahead(tree_state, self.pending),
            None => Multiset::empty(),
        }
    }

    /// The token that the next step takes out of the engine, if it takes one
    /// out: the operand in hand, or the resolved token on top of the stack.
    pub open spec fn leaving(self) -> Option<Spanned<StackEntryToken<TS>>> {
        if !(self.step().1 matches Signal::Yield(Ok(_))) {
            None
        } else if self.phase is ProcessResolved && self.phase->ProcessResolved_0.inner.type_of()
            is Value {
            Some(self.phase->ProcessResolved_0)
        } else {
            Some(self.stack.last()->Resolved_0)
        }
    }

    /// Whether the next step lets the observer see an opener meet its
    /// closer: the one step whose output the observer may change.
    pub open spec fn closes(self) -> bool {
        &&& self.phase is ProcessOrdering
        &&& self.phase->ProcessOrdering_0.inner.behaviour_of() is ClosedLeft
        &&& self.stack.len() > 0
        &&& self.stack.last() is Resolved
        &&& self.stack.last()->Resolved_0.inner.type_of() matches TokenType::Precedence {
            associativity: Associativity::ClosedRight,
            ..
        }
    }

    /// Conservation, token by token: unless the step ends the run with an
    /// error, the resolved tokens that the engine held or was still to
    /// produce are the one that the step takes out, if it takes one out, and
    /// those held or still to be produced after it. The output of the step
    /// is the very token taken out, but for an opener that meets its closer,
    /// which comes out as the observer leaves it.
    pub proof fn lemma_step_conserves_tokens(self)
        requires
            self.wf(),
        ensures
            !(self.step().1 matches Signal::Yield(Err(_))) ==> self.held_tokens().add(
                self.coming_tokens(),
            ) == match self.leaving() {
                Some(token) => self.step().0.held_tokens().add(
                    self.step().0.coming_tokens(),
                ).insert(token),
                None => self.step().0.held_tokens().add(self.step().0.coming_tokens()),
            },
            self.step().1 matches Signal::Yield(Ok(output)) ==> self.leaving() is Some && output
                == if self.closes() {
                self.observer.closed(self.leaving()->0).1
            } else {
                self.leaving()->0
            },
    {
        broadcast use vstd::multiset::group_multiset_axioms;

        let (next, signal) = self.step();
        if self.stack.len() > 0 {
            lemma_tokens_on_push(self.stack.drop_last(), self.stack.last());
            assert(self.stack.drop_last().push(self.stack.last()) =~= self.stack);
        }
        match self.phase {
            ProcessTokenIteratorState::ProcessResolved(resolved) => {
                lemma_tokens_on_push(self.stack, StackEntry::Resolved(resolved));
                if self.stack.len() > 0 {
                    lemma_tokens_on_push(self.stack.drop_last(), StackEntry::Resolved(resolved));
                }
            },
            ProcessTokenIteratorState::ProcessOrdering(ordering) => {
                lemma_tokens_on_push(self.stack, StackEntry::Order(ordering));
                if self.stack.len() > 0 {
                    lemma_tokens_on_push(self.stack.drop_last(), StackEntry::Order(ordering));
                }
            },
            _ => {},
        }
        if !(signal matches Signal::Yield(Err(_))) {
            let before = self.held_tokens().add(self.coming_tokens());
            let after = match self.leaving() {
                Some(token) => next.held_tokens().add(next.coming_tokens()).insert(token),
                None => next.held_tokens().add(next.coming_tokens()),
            };
            assert(before =~= after);
        }
    }

    /// Every output from here to the end of the run, in order. After an error
    /// nothing follows.
    pub open spec fn outputs(self) -> Seq<Emitted<TS, TS::Error>>
        decreases self.pending.len(), self.rank(), self.stack.len(),
    {
        let (next, signal) = self.step();
        match signal {
            Signal::Continue => next.outputs(),
            Signal::Yield(item) => seq![item] + next.outputs(),
            Signal::Finished => Seq::empty(),
        }
    }

    /// Whether the engine `next` is nearer to the end of its run than `self`:
    /// it has fewer tokens to pull, or as many and a later phase, or the same
    /// of both and a smaller stack.
    pub open spec fn nearer(self, next: Self) -> bool {
        ||| next.pending.len() < self.pending.len()
        ||| next.pending.len() == self.pending.len() && next.rank() < self.rank()
        ||| next.pending.len() == self.pending.len() && next.rank() == self.rank()
            && next.stack.len() < self.stack.len()
    }

    /// Every call that hands out an output brings the engine nearer to the
    /// end of its run.
    pub proof fn lemma_run_nearer(self)
        ensures
            self.run().1 is Some ==> self.nearer(self.run().0),
        decreases self.pending.len(), self.rank(), self.stack.len(),
    {
        let (next, signal) = self.step();
        if signal is Continue {
            next.lemma_run_nearer();
        }
    }

    /// A call that hands out nothing leaves the engine completed, and a
    /// completed engine has no outputs.
    pub proof fn lemma_run_end(self)
        ensures
            self.run().1 is None ==> self.run().0.phase is Completed,
            self.phase is Completed ==> self.outputs().len() == 0,
        decreases self.pending.len(), self.rank(), self.stack.len(),
    {
        let (next, signal) = self.step();
        if signal is Continue {
            next.lemma_run_end();
        }
    }

    /// Conservation, step by step: unless the step ends the run with an error,
    /// each resolved token that the engine held or was still to produce is
    /// either handed out by the step, or held or still to be produced after it.
    pub proof fn lemma_step_conserves(self)
        requires
            self.wf(),
        ensures
            !(self.step().1 matches Signal::Yield(Err(_))) ==> self.step().0.waiting()
                + self.step().0.upcoming() + (if self.step().1 is Yield {
                1nat
            } else {
                0nat
            }) == self.waiting() + self.upcoming(),
    {
        let (next, signal) = self.step();
        if self.stack.len() > 0 {
            lemma_resolved_on_push(self.stack.drop_last(), self.stack.last());
            assert(self.stack.drop_last().push(self.stack.last()) =~= self.stack);
        }
        match self.phase {
            ProcessTokenIteratorState::Pending => {},
            ProcessTokenIteratorState::ProcessResolved(resolved) => {
                lemma_resolved_on_push(self.stack, StackEntry::Resolved(resolved));
                if self.stack.len() > 0 {
                    lemma_resolved_on_push(self.stack.drop_last(), StackEntry::Resolved(resolved));
                }
            },
            ProcessTokenIteratorState::ProcessOrdering(ordering) => {
                lemma_resolved_on_push(self.stack, StackEntry::Order(ordering));
                if self.stack.len() > 0 {
                    lemma_resolved_on_push(self.stack.drop_last(), StackEntry::Order(ordering));
                }
            },
            ProcessTokenIteratorState::ClearingStack => {},
            ProcessTokenIteratorState::Completed => {},
        }
    }

    /// Conservation over one call for the next output: unless the call ends
    /// the run with an error, the resolved tokens held and still to come
    /// before it are the output, if there is one, and those held and still to
    /// come after it.
    pub proof fn lemma_run_conserves(self)
        requires
            self.wf(),
        ensures
            !(self.run().1 matches Some(Err(_))) ==> self.run().0.waiting()
                + self.run().0.upcoming() + (if self.run().1 is Some {
                1nat
            } else {
                0nat
            }) == self.waiting() + self.upcoming(),
        decreases self.pending.len(), self.rank(), self.stack.len(),
    {
        self.lemma_step_conserves();
        self.lemma_step_wf();
        let (next, signal) = self.step();
        if signal is Continue {
            next.lemma_run_conserves();
        }
    }

    /// The outputs of a run are the outputs of its calls, one after another.
    pub proof fn lemma_outputs_by_run(self)
        ensures
            self.outputs() == match self.run().1 {
                Some(item) => seq![item] + self.run().0.outputs(),
                None => Seq::empty(),
            },
        decreases self.pending.len(), self.rank(), self.stack.len(),
    {
        let (next, signal) = self.step();
        if signal is Continue {
            next.lemma_outputs_by_run();
        }
    }

    /// Output count: a run that meets no error hands out exactly the resolved
    /// tokens that the engine holds and those that the transitions produce
    /// from the tokens still to be pulled. For a fresh engine that is the
    /// number of resolved entries produced over all input tokens.
    pub proof fn lemma_output_count(self)
        requires
            self.wf(),
            !(self.phase is Completed),
            forall|i: int| 0 <= i < self.outputs().len() ==> self.outputs()[i] is Ok,
        ensures
            self.outputs().len() == self.waiting() + self.upcoming(),
        decreases self.pending.len(), self.rank(), self.stack.len(),
    {
        self.lemma_step_conserves();
        self.lemma_step_wf();
        let (next, signal) = self.step();
        match signal {
            Signal::Continue => {
                next.lemma_output_count();
            },
            Signal::Yield(item) => {
                assert(self.outputs()[0] == item);
                assert forall|i: int| 0 <= i < next.outputs().len() implies next.outputs()[i] is Ok by {
                    assert(self.outputs()[i + 1] == next.outputs()[i]);
                }
                next.lemma_output_count();
            },
            Signal::Finished => {},
        }
    }
}

} // verus!
