//! What holds of every input over any sequence of operations.

use vstd::prelude::*;

use crate::input::Input;

verus! {

/// Index monotonicity. Every operation on an input leaves its position where
/// it was or moves it up. Over any sequence of operations, `states[i]` being
/// the input before the operation `i` and `states[i + 1]` the input after
/// it, the position never falls.
pub proof fn lemma_index_never_falls<I: Input>(states: Seq<I>, i: int, j: int)
    requires
        forall|k: int|
            0 <= k < states.len() - 1 ==> (#[trigger] states[k]).position() <= states[k
                + 1].position(),
        0 <= i <= j < states.len(),
    ensures
        states[i].position() <= states[j].position(),
    decreases j - i,
{
    if i < j {
        lemma_index_never_falls(states, i, j - 1);
        assert(states[j - 1].position() <= states[j - 1 + 1].position());
    }
}

/// The byte sequences of `parts`, one after another.
pub open spec fn concat(parts: Seq<Seq<u8>>) -> Seq<u8>
    decreases parts.len(),
{
    if parts.len() == 0 {
        Seq::empty()
    } else {
        concat(parts.drop_last()) + parts.last()
    }
}

/// The texts that a reader sees who reads the buffered prefix of each of
/// `refilled` in turn.
pub open spec fn texts_read<I: Input>(refilled: Seq<I>) -> Seq<Seq<u8>> {
    Seq::new(refilled.len(), |i: int| refilled[i].buffered())
}

/// Round trip. A reader refills the input (`started[i]` becomes
/// `refilled[i]`), takes the buffered prefix and consumes all of it
/// (`refilled[i]` becomes `started[i + 1]`), time after time. What the reader
/// has taken, put together, and what is then still unread make up, byte for
/// byte, what was unread at the start.
pub proof fn lemma_round_trip<I: Input>(started: Seq<I>, refilled: Seq<I>)
    requires
        started.len() == refilled.len() + 1,
        forall|i: int|
            0 <= i < refilled.len() ==> {
                &&& (#[trigger] refilled[i]).wf()
                &&& refilled[i].unread() == started[i].unread()
                &&& started[i + 1].unread() == refilled[i].unread().skip(
                    refilled[i].buffered().len() as int,
                )
            },
    ensures
        concat(texts_read(refilled)) + started.last().unread() == started[0].unread(),
    decreases refilled.len(),
{
    if refilled.len() == 0 {
        assert(concat(texts_read(refilled)) + started.last().unread() =~= started[0].unread());
    } else {
        let m = refilled.len() - 1;
        let earlier = started.drop_last();
        let shorter = refilled.drop_last();
        assert forall|i: int| 0 <= i < shorter.len() implies {
            &&& (#[trigger] shorter[i]).wf()
            &&& shorter[i].unread() == earlier[i].unread()
            &&& earlier[i + 1].unread() == shorter[i].unread().skip(
                shorter[i].buffered().len() as int,
            )
        } by {
            assert(shorter[i] == refilled[i]);
        }
        lemma_round_trip(earlier, shorter);
        assert(texts_read(refilled).drop_last() =~= texts_read(shorter));
        assert(texts_read(refilled).last() == refilled[m].buffered());
        assert(earlier.last() == started[m]);
        refilled[m].lemma_wf();
        let whole = refilled[m].unread();
        let n = refilled[m].buffered().len() as int;
        assert(whole =~= whole.take(n) + whole.skip(n));
        assert(concat(texts_read(refilled)) + started.last().unread() =~= concat(
            texts_read(shorter),
        ) + (refilled[m].buffered() + started.last().unread()));
    }
}

} // verus!
