//! Many entities sharing one journal: per-entity isolation, driven
//! through a test aggregate whose commands carry their entity id.

use mnemosyne::codec::Codec;
use mnemosyne::command::Command;
use mnemosyne::domain::NonEmptyVec;
use mnemosyne::engine::Engine;
use mnemosyne::error::Error;
use mnemosyne::event::{AggregateState, Event};
use mnemosyne::memory::MemoryAdapter;

#[derive(Debug, Clone, Copy, PartialEq)]
struct Tally {
    total: u64,
}

impl AggregateState for Tally {
    fn inv(self) -> bool {
        panic!()
    }

    fn initial_spec() -> Self {
        panic!()
    }

    fn lemma_initial_wf() {}

    fn initial() -> Self {
        Tally { total: 0 }
    }

    fn snapshot(&self) -> Self {
        *self
    }
}

#[derive(Debug, Clone, Copy)]
struct Added {
    amount: u64,
}

impl Codec for Added {
    fn enc_spec(self) -> vstd::seq::Seq<u8> {
        panic!()
    }

    fn dec_spec(_bytes: vstd::seq::Seq<u8>) -> Option<Self> {
        panic!()
    }

    fn lemma_round_trip(self) {}

    fn lemma_enc_len(self) {}

    fn encode(&self) -> Vec<u8> {
        self.amount.to_be_bytes().to_vec()
    }

    fn decode(bytes: &[u8]) -> Option<Self> {
        let arr: [u8; 8] = bytes.try_into().ok()?;
        Some(Added { amount: u64::from_be_bytes(arr) })
    }
}

impl Event<Tally> for Added {
    fn apply_spec(self, _state: Tally) -> Tally {
        panic!()
    }

    fn lemma_apply_wf(self, _state: Tally) {}

    fn apply(&self, state: &Tally) -> Tally {
        Tally { total: state.total.saturating_add(self.amount) }
    }

    fn duplicate(&self) -> Self {
        *self
    }
}

#[derive(Debug, Clone)]
struct Add {
    entity: String,
    amount: u64,
}

impl Command<Tally> for Add {
    type E = Added;

    fn validate_spec(self, _state: Tally) -> bool {
        panic!()
    }

    fn directive_ok(self, _state: Tally) -> bool {
        panic!()
    }

    fn events_spec(self, _state: Tally) -> vstd::seq::Seq<Added> {
        panic!()
    }

    fn entity_spec(self) -> vstd::seq::Seq<char> {
        panic!()
    }

    fn name_spec(self) -> vstd::seq::Seq<char> {
        panic!()
    }

    fn validate(&self, _state: &Tally) -> Result<(), Error> {
        Ok(())
    }

    fn directive(&self, _state: &Tally) -> Result<NonEmptyVec<Box<Added>>, Error> {
        Ok(NonEmptyVec::one(Box::new(Added { amount: self.amount })))
    }

    fn entity_id(&self) -> String {
        self.entity.clone()
    }

    fn name(&self) -> String {
        String::from("Add")
    }
}

#[test]
fn interleaved_entities_stay_apart() {
    let mut engine: Engine<Tally, Add, MemoryAdapter<Added>> = Engine::start(MemoryAdapter::new());
    for round in 0..5u64 {
        for id in 0..20u64 {
            let entity = format!("tally::{}", id);
            engine.enqueue(&Add { entity, amount: id + round }).unwrap();
        }
    }
    // Each entity's state is the fold of its own commands alone.
    for id in 0..20u64 {
        let entity = format!("tally::{}", id);
        let expected: u64 = (0..5u64).map(|round| id + round).sum();
        assert_eq!(engine.state(&entity).unwrap().total, expected);
    }
    // An entity never touched stays unknown.
    assert!(matches!(engine.state("tally::none"), Err(Error::InvalidCommand(_))));
}
