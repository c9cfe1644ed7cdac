//! The capability set of user-defined state and event types.
//!
//! An aggregate's state is derived exclusively by folding events over the
//! initial state; [`fold_events`] is that fold, and the engine's contracts
//! are stated in terms of it.

use crate::codec::Codec;
use vstd::prelude::*;

verus! {

/// The state type of an aggregate.
///
/// A state carries a well-formedness invariant, a distinguished initial
/// value, and a way to copy itself; the engine needs nothing else of it.
pub trait AggregateState: Sized {
    /// Well-formedness of a state value.
    spec fn inv(self) -> bool;

    /// The state a fresh entity starts in.
    spec fn initial_spec() -> Self;

    /// Law: the initial state is well formed.
    proof fn lemma_initial_wf()
        ensures
            Self::initial_spec().inv(),
    ;

    /// Returns the state a fresh entity starts in.
    fn initial() -> (s: Self)
        ensures
            s == Self::initial_spec(),
    ;

    /// Returns a copy of this state.
    fn snapshot(&self) -> (s: Self)
        ensures
            s == *self,
    ;
}

/// An immutable fact about an entity: the unit the journal stores.
///
/// Applying an event is a pure function of the event and the state, which
/// is what makes replay deterministic.  The journal stores events through
/// their [`Codec`] encoding.
pub trait Event<State: AggregateState>: Codec {
    /// What applying this event to a state yields.
    spec fn apply_spec(self, state: State) -> State;

    /// Law: applying an event to a well-formed state yields a well-formed
    /// state.
    proof fn lemma_apply_wf(self, state: State)
        requires
            state.inv(),
        ensures
            self.apply_spec(state).inv(),
    ;

    /// Applies the event to the state and returns the updated state.
    fn apply(&self, state: &State) -> (r: State)
        requires
            state.inv(),
        ensures
            r == self.apply_spec(*state),
    ;

    /// Returns a copy of this event.
    fn duplicate(&self) -> (r: Self)
        ensures
            r == *self,
    ;

    /// Post-commit side-effect hook; the default does nothing.
    ///
    /// The hook lives on the event, and the engine invokes it once per
    /// journaled event, with the state before the command and the state
    /// its whole batch folds to.  It carries no contract: side effects
    /// are reported, never rolled back.
    fn effects(&self, before: &State, after: &State) {
    }
}

/// The state reached by folding a sequence of events over a state, first
/// event first.
pub open spec fn fold_events<State: AggregateState, E: Event<State>>(
    state: State,
    events: Seq<E>,
) -> State
    decreases events.len(),
{
    if events.len() == 0 {
        state
    } else {
        fold_events(events[0].apply_spec(state), events.drop_first())
    }
}

/// Folding events over a well-formed state yields a well-formed state.
pub proof fn lemma_fold_events_wf<State: AggregateState, E: Event<State>>(
    state: State,
    events: Seq<E>,
)
    requires
        state.inv(),
    ensures
        fold_events(state, events).inv(),
    decreases events.len(),
{
    if events.len() > 0 {
        events[0].lemma_apply_wf(state);
        lemma_fold_events_wf(events[0].apply_spec(state), events.drop_first());
    }
}

/// Folding one more event applies it to the state the fold had reached.
pub proof fn lemma_fold_events_snoc<State: AggregateState, E: Event<State>>(
    state: State,
    events: Seq<E>,
    e: E,
)
    ensures
        fold_events(state, events.push(e)) == e.apply_spec(fold_events(state, events)),
    decreases events.len(),
{
    let s1 = events.push(e);
    if events.len() == 0 {
        assert(s1[0] == e);
        assert(s1.drop_first() =~= Seq::<E>::empty());
        assert(fold_events(state, s1) == fold_events(e.apply_spec(state), s1.drop_first()));
        assert(fold_events(e.apply_spec(state), Seq::<E>::empty()) == e.apply_spec(state));
        assert(fold_events(state, events) == state);
    } else {
        assert(s1[0] == events[0]);
        assert(s1.drop_first() =~= events.drop_first().push(e));
        let mid = events[0].apply_spec(state);
        assert(fold_events(state, s1) == fold_events(mid, s1.drop_first()));
        lemma_fold_events_snoc(mid, events.drop_first(), e);
        assert(fold_events(state, events) == fold_events(mid, events.drop_first()));
    }
}

/// Folding a concatenation folds the first part, then the second.
pub proof fn lemma_fold_events_concat<State: AggregateState, E: Event<State>>(
    state: State,
    a: Seq<E>,
    b: Seq<E>,
)
    ensures
        fold_events(state, a + b) == fold_events(fold_events(state, a), b),
    decreases b.len(),
{
    if b.len() == 0 {
        assert(a + b =~= a);
        assert(fold_events(fold_events(state, a), b) == fold_events(state, a));
    } else {
        assert((a + b.drop_last()).push(b.last()) =~= a + b);
        lemma_fold_events_concat(state, a, b.drop_last());
        lemma_fold_events_snoc(state, a + b.drop_last(), b.last());
        lemma_fold_events_snoc(fold_events(state, a), b.drop_last(), b.last());
        assert(b.drop_last().push(b.last()) =~= b);
    }
}

} // verus!
