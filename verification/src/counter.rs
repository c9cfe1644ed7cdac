//! A worked aggregate: a per-entity counter.
//!
//! The state holds one saturating count.  `Increment` always validates and
//! derives one `Incremented` event; `IncrementBy` derives one event per
//! unit and rejects an amount of zero, exercising multi-event batches.

use crate::codec::Codec;
use crate::command::Command;
use crate::domain::NonEmptyVec;
use crate::error::Error;
use crate::event::{AggregateState, Event};
use vstd::prelude::*;

verus! {

/// The counter's state.
#[derive(Debug)]
pub struct State {
    pub count: u64,
}

impl AggregateState for State {
    open spec fn inv(self) -> bool {
        true
    }

    open spec fn initial_spec() -> Self {
        State { count: 0 }
    }

    proof fn lemma_initial_wf() {
    }

    fn initial() -> Self {
        State { count: 0 }
    }

    fn snapshot(&self) -> Self {
        State { count: self.count }
    }
}

impl Default for State {
    /// The counter starts at zero.
    fn default() -> (r: Self)
        ensures
            r == State::initial_spec(),
    {
        State { count: 0 }
    }
}

/// The command that advances the counter by one.
#[derive(Debug)]
pub struct Increment;

/// The command that advances the counter by the given amount, one event
/// per unit.
#[derive(Debug)]
pub struct IncrementBy {
    pub amount: u8,
}

/// The counter's commands.
#[derive(Debug)]
pub enum UserCommand {
    Increment(Increment),
    IncrementBy(IncrementBy),
}

/// The fact that the counter was advanced by one.
#[derive(Debug)]
pub struct Incremented;

/// The counter's events.
#[derive(Debug)]
pub enum UserEvent {
    Incremented(Incremented),
}

/// What one `Incremented` does to the count: one more, saturating.
pub open spec fn bumped(count: u64) -> u64 {
    if count < u64::MAX {
        (count + 1) as u64
    } else {
        count
    }
}

impl Codec for UserEvent {
    open spec fn enc_spec(self) -> Seq<u8> {
        seq![0u8]
    }

    open spec fn dec_spec(bytes: Seq<u8>) -> Option<Self> {
        if bytes == seq![0u8] {
            Some(UserEvent::Incremented(Incremented))
        } else {
            None
        }
    }

    proof fn lemma_round_trip(self) {
    }

    proof fn lemma_enc_len(self) {
    }

    fn encode(&self) -> (r: Vec<u8>) {
        let mut v: Vec<u8> = Vec::new();
        v.push(0u8);
        proof {
            assert(v@ =~= seq![0u8]);
        }
        v
    }

    fn decode(bytes: &[u8]) -> (r: Option<Self>) {
        if bytes.len() == 1 && bytes[0] == 0u8 {
            proof {
                assert(bytes@ =~= seq![0u8]);
            }
            Some(UserEvent::Incremented(Incremented))
        } else {
            proof {
                if bytes@ == seq![0u8] {
                    assert(bytes@.len() == 1 && bytes@[0] == 0u8);
                }
            }
            None
        }
    }
}

impl Event<State> for UserEvent {
    open spec fn apply_spec(self, state: State) -> State {
        State { count: bumped(state.count) }
    }

    proof fn lemma_apply_wf(self, state: State) {
    }

    fn apply(&self, state: &State) -> State {
        if state.count < u64::MAX {
            State { count: state.count + 1 }
        } else {
            State { count: state.count }
        }
    }

    fn duplicate(&self) -> Self {
        match self {
            UserEvent::Incremented(_) => UserEvent::Incremented(Incremented),
        }
    }
}

impl Command<State> for UserCommand {
    type E = UserEvent;

    open spec fn validate_spec(self, state: State) -> bool {
        match self {
            UserCommand::Increment(_) => true,
            UserCommand::IncrementBy(c) => c.amount >= 1,
        }
    }

    open spec fn directive_ok(self, state: State) -> bool {
        self.validate_spec(state)
    }

    open spec fn events_spec(self, state: State) -> Seq<UserEvent> {
        match self {
            UserCommand::Increment(_) => seq![UserEvent::Incremented(Incremented)],
            UserCommand::IncrementBy(c) => Seq::new(
                c.amount as nat,
                |i: int| UserEvent::Incremented(Incremented),
            ),
        }
    }

    open spec fn entity_spec(self) -> Seq<char> {
        "user::entity::id"@
    }

    open spec fn name_spec(self) -> Seq<char> {
        match self {
            UserCommand::Increment(_) => "Increment"@,
            UserCommand::IncrementBy(_) => "IncrementBy"@,
        }
    }

    fn validate(&self, state: &State) -> (r: Result<(), Error>) {
        match self {
            UserCommand::Increment(_) => Ok(()),
            UserCommand::IncrementBy(c) => {
                if c.amount == 0 {
                    Err(Error::new("Amount must be at least one"))
                } else {
                    Ok(())
                }
            },
        }
    }

    fn directive(&self, state: &State) -> (r: Result<NonEmptyVec<Box<UserEvent>>, Error>) {
        match self {
            UserCommand::Increment(_) => {
                let nev = NonEmptyVec::one(Box::new(UserEvent::Incremented(Incremented)));
                proof {
                    assert(nev@.map(|i: int, e: Box<UserEvent>| *e) =~= self.events_spec(*state));
                }
                Ok(nev)
            },
            UserCommand::IncrementBy(c) => {
                if c.amount == 0 {
                    return Err(Error::new("Amount must be at least one"));
                }
                let mut v: Vec<Box<UserEvent>> = Vec::new();
                let n = c.amount;
                let mut i: u8 = 0;
                while i < n
                    invariant
                        i <= n,
                        v@.len() == i as nat,
                        forall|k: int|
                            0 <= k < i ==> *(#[trigger] v@[k]) == UserEvent::Incremented(
                                Incremented,
                            ),
                    decreases n - i,
                {
                    v.push(Box::new(UserEvent::Incremented(Incremented)));
                    i += 1;
                }
                match NonEmptyVec::new(v) {
                    Ok(nev) => {
                        proof {
                            assert(nev@.map(|i: int, e: Box<UserEvent>| *e) =~= self.events_spec(
                                *state,
                            ));
                        }
                        Ok(nev)
                    },
                    Err(e) => Err(e),
                }
            },
        }
    }

    fn entity_id(&self) -> (r: String) {
        String::from_str("user::entity::id")
    }

    fn name(&self) -> (r: String) {
        match self {
            UserCommand::Increment(_) => String::from_str("Increment"),
            UserCommand::IncrementBy(_) => String::from_str("IncrementBy"),
        }
    }
}

} // verus!
