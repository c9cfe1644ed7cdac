//! The capability set of user-defined command types.

use crate::domain::NonEmptyVec;
use crate::error::Error;
use crate::event::{AggregateState, Event};
use vstd::prelude::*;

verus! {

/// A request to change an entity's state.
///
/// A command is validated against the current state, and — when valid —
/// translated into the non-empty sequence of events that the engine
/// journals and applies.
pub trait Command<State: AggregateState>: Sized {
    /// The event type this command translates into.
    type E: Event<State>;

    /// Whether validation accepts this command against the given state.
    spec fn validate_spec(self, state: State) -> bool;

    /// Whether translation succeeds against the given state.
    spec fn directive_ok(self, state: State) -> bool;

    /// The events this command translates into, when translation succeeds.
    spec fn events_spec(self, state: State) -> Seq<Self::E>;

    /// The id of the entity this command addresses.
    spec fn entity_spec(self) -> Seq<char>;

    /// The name of this command kind, used as the wire type tag.
    spec fn name_spec(self) -> Seq<char>;

    /// Validates the command; called before translation.  An error means
    /// the command is rejected with no further effect.
    fn validate(&self, state: &State) -> (r: Result<(), Error>)
        requires
            state.inv(),
        ensures
            r is Ok <==> self.validate_spec(*state),
    ;

    /// Translates the command into the events it stands for.  Event order
    /// is preserved by the engine.  A translation failure never borrows
    /// the validation kind: that kind certifies a rejected `validate`.
    fn directive(&self, state: &State) -> (r: Result<NonEmptyVec<Box<Self::E>>, Error>)
        requires
            state.inv(),
        ensures
            r is Ok <==> self.directive_ok(*state),
            r matches Ok(evs) ==> evs@.map(|i: int, e: Box<Self::E>| *e) == self.events_spec(
                *state,
            ),
            r matches Err(e) ==> !(e matches Error::Validation(_)),
    ;

    /// Returns the id of the entity this command addresses.
    fn entity_id(&self) -> (r: String)
        ensures
            r@ == self.entity_spec(),
    ;

    /// Returns the name of this command kind.
    fn name(&self) -> (r: String)
        ensures
            r@ == self.name_spec(),
    ;
}

} // verus!
