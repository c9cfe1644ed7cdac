//! The record envelope, its binary codec, the non-empty vector, and the
//! in-memory journal backend.

use mnemosyne::counter::{Incremented, UserEvent};
use mnemosyne::domain::NonEmptyVec;
use mnemosyne::error::Error;
use mnemosyne::memory::{FaultyAdapter, MemoryAdapter};
use mnemosyne::record::{Meta, Record};
use mnemosyne::storage::Adapter;
use mnemosyne::tictactoe::{Move, Player, PlayerEvent};

#[test]
fn nonempty_vec_rejects_empty() {
    let empty: Vec<u64> = Vec::new();
    let r = NonEmptyVec::new(empty);
    assert!(matches!(r, Err(Error::InvalidCommand(_))));
}

#[test]
fn nonempty_vec_keeps_elements() {
    let x = NonEmptyVec::new(vec![1, 2, 4]).unwrap();
    let mut iterator = x.iter().iter();
    assert_eq!(iterator.next(), Some(&1));
    assert_eq!(iterator.next(), Some(&2));
    assert_eq!(iterator.next(), Some(&4));
    assert_eq!(iterator.next(), None);
}

#[test]
fn nonempty_vec_singleton() {
    let x: NonEmptyVec<u64> = NonEmptyVec::one(7);
    assert_eq!(x.len(), 1);
    assert_eq!(x.into_vec(), vec![7]);
}

#[test]
fn nonempty_vec_into_iter_orders() {
    let x = NonEmptyVec::new(vec![9, 8]).unwrap();
    let collected: Vec<i32> = x.into_iter();
    assert_eq!(collected, vec![9, 8]);
}

#[test]
fn record_event_round_trip() {
    let rec: Record<UserEvent> = Record::event(
        String::from("user::entity::id"),
        4,
        UserEvent::Incremented(Incremented),
        1700000000123,
    );
    let bytes = rec.encode();
    let back: Record<UserEvent> = Record::decode(bytes.as_slice()).expect("decodes");
    assert_eq!(back.entity_id(), "user::entity::id");
    assert_eq!(back.seq_nr(), 4);
    assert_eq!(back.timestamp(), 1700000000123);
    assert!(matches!(back.message(), UserEvent::Incremented(_)));
    assert!(back.type_tag().is_none());
}

#[test]
fn record_command_round_trip_keeps_tag() {
    let rec: Record<PlayerEvent> = Record::command(
        "tictactoe::player::1",
        PlayerEvent::MoveMade(Move { player: Player::O, x: 1, y: 2 }),
        -5,
        String::from("Move"),
        9,
    );
    let bytes = rec.encode();
    let back: Record<PlayerEvent> = Record::decode(bytes.as_slice()).expect("decodes");
    assert_eq!(back.entity_id(), "tictactoe::player::1");
    assert_eq!(back.seq_nr(), 9);
    assert_eq!(back.timestamp(), -5);
    assert_eq!(back.type_tag(), Some("Move"));
    match back.message() {
        PlayerEvent::MoveMade(m) => {
            assert!(matches!(m.player, Player::O));
            assert_eq!(m.x, 1);
            assert_eq!(m.y, 2);
        },
        other => panic!("unexpected payload: {:?}", other),
    }
}

#[test]
fn record_decode_rejects_garbage() {
    let garbage = vec![1u8, 2, 3];
    let r: Option<Record<UserEvent>> = Record::decode(garbage.as_slice());
    assert!(r.is_none());
    let r2: Option<Record<UserEvent>> = Record::decode(&[]);
    assert!(r2.is_none());
}

#[test]
fn record_decode_rejects_trailing_bytes() {
    let rec: Record<UserEvent> =
        Record::event(String::from("e"), 1, UserEvent::Incremented(Incremented), 0);
    let mut bytes = rec.encode();
    bytes.push(0);
    let r: Option<Record<UserEvent>> = Record::decode(bytes.as_slice());
    assert!(r.is_none());
}

fn event_record(entity: &str, seq: i64) -> Record<UserEvent> {
    Record::event(String::from(entity), seq, UserEvent::Incremented(Incremented), 1000 + seq)
}

#[test]
fn memory_highest_empty_is_none() {
    let store: MemoryAdapter<UserEvent> = MemoryAdapter::new();
    assert_eq!(store.read_highest_sequence_number("e1").unwrap(), None);
}

#[test]
fn memory_write_then_highest() {
    let mut store: MemoryAdapter<UserEvent> = MemoryAdapter::new();
    store.write(vec![event_record("e1", 1), event_record("e1", 2)]).unwrap();
    store.write(vec![event_record("e2", 1)]).unwrap();
    assert_eq!(store.read_highest_sequence_number("e1").unwrap(), Some(2));
    assert_eq!(store.read_highest_sequence_number("e2").unwrap(), Some(1));
    assert_eq!(store.read_highest_sequence_number("e3").unwrap(), None);
}

#[test]
fn memory_entities_with_prefix_ids_stay_apart() {
    let mut store: MemoryAdapter<UserEvent> = MemoryAdapter::new();
    store.write(vec![event_record("ab", 1)]).unwrap();
    store.write(vec![event_record("abc", 7)]).unwrap();
    assert_eq!(store.read_highest_sequence_number("ab").unwrap(), Some(1));
    assert_eq!(store.read_highest_sequence_number("abc").unwrap(), Some(7));
    assert_eq!(store.read_highest_sequence_number("a").unwrap(), None);
}

#[test]
fn memory_replay_orders_and_bounds() {
    let mut store: MemoryAdapter<UserEvent> = MemoryAdapter::new();
    // Insert out of order; replay must come back ascending.
    store.write(vec![event_record("e1", 3), event_record("e1", 1), event_record("e1", 2)]).unwrap();
    let recs = store.replay("e1", 0, 10, 100).unwrap();
    let seqs: Vec<i64> = recs.iter().map(|r| r.seq_nr()).collect();
    assert_eq!(seqs, vec![1, 2, 3]);
    for r in recs.iter() {
        assert_eq!(r.entity_id(), "e1");
        assert!(r.type_tag().is_none());
    }
    let window = store.replay("e1", 2, 3, 100).unwrap();
    let seqs: Vec<i64> = window.iter().map(|r| r.seq_nr()).collect();
    assert_eq!(seqs, vec![2, 3]);
    let capped = store.replay("e1", 0, 10, 2).unwrap();
    let seqs: Vec<i64> = capped.iter().map(|r| r.seq_nr()).collect();
    assert_eq!(seqs, vec![1, 2]);
    let none = store.replay("other", 0, 10, 100).unwrap();
    assert!(none.is_empty());
}

#[test]
fn memory_replay_restores_timestamps() {
    let mut store: MemoryAdapter<UserEvent> = MemoryAdapter::new();
    store.write(vec![event_record("e1", 1)]).unwrap();
    let recs = store.replay("e1", 0, 1, 10).unwrap();
    assert_eq!(recs.len(), 1);
    assert_eq!(recs[0].timestamp(), 1001);
}

#[test]
fn faulty_write_is_atomic() {
    let mut store: FaultyAdapter<UserEvent> = FaultyAdapter::new();
    store.write(vec![event_record("e1", 1)]).unwrap();
    store.set_fail_writes(true);
    let r = store.write(vec![event_record("e1", 2), event_record("e1", 3)]);
    assert!(matches!(r, Err(Error::StorageError(_))));
    // None of the failed batch's sequence numbers are observable.
    assert_eq!(store.read_highest_sequence_number("e1").unwrap(), Some(1));
    store.set_fail_writes(false);
    store.write(vec![event_record("e1", 2)]).unwrap();
    assert_eq!(store.read_highest_sequence_number("e1").unwrap(), Some(2));
}

#[test]
fn error_classification() {
    assert!(Error::StorageError(String::from("x")).is_infrastructure());
    assert!(Error::ConnectionError(String::from("x")).is_infrastructure());
    assert!(Error::ConnectionRetrievalError(String::from("x")).is_infrastructure());
    assert!(!Error::Validation(String::from("x")).is_infrastructure());
    assert!(!Error::InvalidCommand(String::from("x")).is_infrastructure());
    let e = Error::new("boom");
    assert!(matches!(&e, Error::Error(_)));
    assert_eq!(e.message(), "boom");
}

#[test]
fn game_event_round_trips() {
    for ev in [
        PlayerEvent::MoveMade(Move { player: Player::X, x: 2, y: 0 }),
        PlayerEvent::GameWon(Player::O),
        PlayerEvent::GameDraw(mnemosyne::tictactoe::GameDraw),
    ] {
        let rec: Record<PlayerEvent> = Record::event(String::from("g"), 1, ev, 0);
        let bytes = rec.encode();
        let back: Record<PlayerEvent> = Record::decode(bytes.as_slice()).expect("decodes");
        match (rec.message(), back.message()) {
            (PlayerEvent::MoveMade(a), PlayerEvent::MoveMade(b)) => {
                assert_eq!(a.player, b.player);
                assert_eq!(a.x, b.x);
                assert_eq!(a.y, b.y);
            },
            (PlayerEvent::GameWon(a), PlayerEvent::GameWon(b)) => assert_eq!(a, b),
            (PlayerEvent::GameDraw(_), PlayerEvent::GameDraw(_)) => {},
            (a, b) => panic!("mismatch: {:?} vs {:?}", a, b),
        }
    }
}

#[test]
fn overwritten_slot_keeps_last_value() {
    let mut store: MemoryAdapter<PlayerEvent> = MemoryAdapter::new();
    let first = Record::event(String::from("g"), 1, PlayerEvent::GameWon(Player::X), 10);
    let second = Record::event(String::from("g"), 1, PlayerEvent::GameWon(Player::O), 20);
    store.write(vec![first]).unwrap();
    store.write(vec![second]).unwrap();
    let recs = store.replay("g", 0, 5, 10).unwrap();
    assert_eq!(recs.len(), 1);
    assert!(matches!(recs[0].message(), PlayerEvent::GameWon(Player::O)));
    assert_eq!(recs[0].timestamp(), 20);
}
