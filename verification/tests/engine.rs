//! The processor's critical section, recovery, and the engine facade,
//! driven through the two worked aggregates.

use mnemosyne::counter;
use mnemosyne::counter::{Increment, IncrementBy, UserCommand, UserEvent};
use mnemosyne::engine::{commit_allowed, make_command_record, parse_entity_id, should_coalesce, Engine, IngressSequencer};
use mnemosyne::error::Error;
use mnemosyne::memory::{FaultyAdapter, MemoryAdapter};
use mnemosyne::processor::{recover_state, Processor};
use mnemosyne::record::{Meta, Record};
use mnemosyne::storage::Adapter;
use mnemosyne::tictactoe;
use mnemosyne::tictactoe::{Move, Player, PlayerCommand};

const COUNTER_ID: &str = "user::entity::id";
const GAME_ID: &str = "tictactoe::player::1";

fn counter_engine() -> Engine<counter::State, UserCommand, MemoryAdapter<UserEvent>> {
    Engine::start(MemoryAdapter::new())
}

#[test]
fn counter_ten_increments() {
    let mut engine = counter_engine();
    for _ in 0..10 {
        engine.enqueue(&UserCommand::Increment(Increment)).unwrap();
    }
    let state = engine.state(COUNTER_ID).unwrap();
    assert_eq!(state.count, 10);
}

#[test]
fn processor_journal_is_contiguous() {
    let mut store: MemoryAdapter<UserEvent> = MemoryAdapter::new();
    let mut proc: Processor<counter::State> =
        Processor::activate(&store, String::from(COUNTER_ID)).unwrap();
    for _ in 0..10 {
        proc.process_command(&mut store, &UserCommand::Increment(Increment)).unwrap();
    }
    assert_eq!(proc.get_state().count, 10);
    assert_eq!(proc.seq_nr(), 10);
    assert_eq!(store.read_highest_sequence_number(COUNTER_ID).unwrap(), Some(10));
    let recs = store.replay(COUNTER_ID, 0, 10, 110).unwrap();
    let seqs: Vec<i64> = recs.iter().map(|r| r.seq_nr()).collect();
    assert_eq!(seqs, (1..=10).collect::<Vec<i64>>());
}

#[test]
fn multi_event_command_journals_one_batch() {
    let mut store: MemoryAdapter<UserEvent> = MemoryAdapter::new();
    let mut proc: Processor<counter::State> =
        Processor::activate(&store, String::from(COUNTER_ID)).unwrap();
    proc.process_command(&mut store, &UserCommand::IncrementBy(IncrementBy { amount: 3 })).unwrap();
    assert_eq!(proc.get_state().count, 3);
    assert_eq!(proc.seq_nr(), 3);
    let recs = store.replay(COUNTER_ID, 0, 3, 10).unwrap();
    let seqs: Vec<i64> = recs.iter().map(|r| r.seq_nr()).collect();
    assert_eq!(seqs, vec![1, 2, 3]);
}

#[test]
fn failed_validation_changes_nothing() {
    let mut store: MemoryAdapter<UserEvent> = MemoryAdapter::new();
    let mut proc: Processor<counter::State> =
        Processor::activate(&store, String::from(COUNTER_ID)).unwrap();
    proc.process_command(&mut store, &UserCommand::Increment(Increment)).unwrap();
    let r = proc.process_command(&mut store, &UserCommand::IncrementBy(IncrementBy { amount: 0 }));
    assert!(matches!(r, Err(Error::Validation(_))));
    assert_eq!(proc.get_state().count, 1);
    assert_eq!(proc.seq_nr(), 1);
    assert_eq!(store.read_highest_sequence_number(COUNTER_ID).unwrap(), Some(1));
}

#[test]
fn failed_write_changes_nothing() {
    let mut store: FaultyAdapter<UserEvent> = FaultyAdapter::new();
    let mut proc: Processor<counter::State> =
        Processor::activate(&store, String::from(COUNTER_ID)).unwrap();
    proc.process_command(&mut store, &UserCommand::Increment(Increment)).unwrap();
    store.set_fail_writes(true);
    let r = proc.process_command(&mut store, &UserCommand::Increment(Increment));
    assert!(matches!(r, Err(Error::StorageError(_))));
    assert_eq!(proc.get_state().count, 1);
    assert_eq!(proc.seq_nr(), 1);
    assert_eq!(store.read_highest_sequence_number(COUNTER_ID).unwrap(), Some(1));
    // Once the failure lifts, the command succeeds and sequence numbers
    // stay contiguous.
    store.set_fail_writes(false);
    proc.process_command(&mut store, &UserCommand::Increment(Increment)).unwrap();
    assert_eq!(proc.get_state().count, 2);
    assert_eq!(store.read_highest_sequence_number(COUNTER_ID).unwrap(), Some(2));
}

#[test]
fn recovery_folds_the_journal() {
    let mut store: MemoryAdapter<UserEvent> = MemoryAdapter::new();
    // Write five events directly, with no processor running.
    let batch: Vec<Record<UserEvent>> = (1..=5)
        .map(|s| {
            Record::event(
                String::from("e1"),
                s,
                UserEvent::Incremented(counter::Incremented),
                s,
            )
        })
        .collect();
    store.write(batch).unwrap();
    let st: counter::State = recover_state(&store, "e1").unwrap();
    assert_eq!(st.count, 5);
    // An entity with no events is unknown.
    let missing: Result<counter::State, Error> = recover_state(&store, "nobody");
    assert!(matches!(missing, Err(Error::InvalidCommand(_))));
}

#[test]
fn replay_matches_live_processor() {
    let mut store: MemoryAdapter<UserEvent> = MemoryAdapter::new();
    let mut live: Processor<counter::State> =
        Processor::activate(&store, String::from(COUNTER_ID)).unwrap();
    for _ in 0..7 {
        live.process_command(&mut store, &UserCommand::Increment(Increment)).unwrap();
    }
    // A fresh processor hydrated from the same journal sees the same state.
    let rebuilt: Processor<counter::State> =
        Processor::activate(&store, String::from(COUNTER_ID)).unwrap();
    assert_eq!(rebuilt.get_state().count, live.get_state().count);
    assert_eq!(rebuilt.seq_nr(), live.seq_nr());
}

#[test]
fn engine_cold_state_after_restart() {
    // A journal written in an earlier life of the engine...
    let mut store: MemoryAdapter<UserEvent> = MemoryAdapter::new();
    let mut proc: Processor<counter::State> =
        Processor::activate(&store, String::from(COUNTER_ID)).unwrap();
    for _ in 0..4 {
        proc.process_command(&mut store, &UserCommand::Increment(Increment)).unwrap();
    }
    drop(proc);
    // ...serves get-state on a fresh engine: the in-memory state is gone,
    // so the journal is replayed and folded.
    let engine: Engine<counter::State, UserCommand, MemoryAdapter<UserEvent>> =
        Engine::start(store);
    assert_eq!(engine.state(COUNTER_ID).unwrap().count, 4);
}

fn mv(player: Player, x: usize, y: usize) -> PlayerCommand {
    PlayerCommand::MakeMove(Move { player, x, y })
}

#[test]
fn tictactoe_row_win() {
    let mut engine: Engine<tictactoe::State, PlayerCommand, MemoryAdapter<tictactoe::PlayerEvent>> =
        Engine::start(MemoryAdapter::new());
    for m in [
        mv(Player::X, 0, 0),
        mv(Player::O, 1, 0),
        mv(Player::X, 0, 1),
        mv(Player::O, 1, 1),
        mv(Player::X, 0, 2),
    ] {
        engine.enqueue(&m).unwrap();
    }
    let state = engine.state(GAME_ID).unwrap();
    assert_eq!(state.winner, Some(Player::X));
    assert!(!state.draw);
    // A further move validates against the rule set: it is in bounds, the
    // cell is free and it is O's turn, so it is accepted and derives the
    // game-won event, whose application resets the game.
    engine.enqueue(&mv(Player::O, 1, 2)).unwrap();
    let state = engine.state(GAME_ID).unwrap();
    assert_eq!(state.winner, None);
    assert_eq!(state.board.r0c0, None);
}

#[test]
fn tictactoe_rejects_out_of_bounds() {
    let mut engine: Engine<tictactoe::State, PlayerCommand, MemoryAdapter<tictactoe::PlayerEvent>> =
        Engine::start(MemoryAdapter::new());
    let r = engine.enqueue(&mv(Player::X, 3, 3));
    assert!(matches!(r, Err(Error::Validation(_))));
    // State is unchanged: the processor exists but still holds the
    // initial state, and nothing was journaled.
    let state = engine.state(GAME_ID).unwrap();
    assert_eq!(state.winner, None);
    assert_eq!(state.board.r0c0, None);
    assert_eq!(state.current, Player::X);
}

#[test]
fn tictactoe_rejects_occupied_and_wrong_turn() {
    let mut engine: Engine<tictactoe::State, PlayerCommand, MemoryAdapter<tictactoe::PlayerEvent>> =
        Engine::start(MemoryAdapter::new());
    engine.enqueue(&mv(Player::X, 0, 0)).unwrap();
    let occupied = engine.enqueue(&mv(Player::O, 0, 0));
    assert!(matches!(occupied, Err(Error::Validation(_))));
    let wrong_turn = engine.enqueue(&mv(Player::X, 2, 2));
    assert!(matches!(wrong_turn, Err(Error::Validation(_))));
    let state = engine.state(GAME_ID).unwrap();
    assert_eq!(state.board.r0c0, Some(Player::X));
    assert_eq!(state.current, Player::O);
}

#[test]
fn move_turn_alternates() {
    assert_eq!(Move { player: Player::X, x: 0, y: 0 }.turn(), Player::O);
    assert_eq!(Move { player: Player::O, x: 0, y: 0 }.turn(), Player::X);
}

#[test]
fn commit_allowed_only_without_infrastructure_errors() {
    let clean: Vec<Result<(), Error>> =
        vec![Ok(()), Err(Error::Validation(String::from("rejected")))];
    assert!(commit_allowed(&clean));
    let dirty: Vec<Result<(), Error>> =
        vec![Ok(()), Err(Error::StorageError(String::from("down")))];
    assert!(!commit_allowed(&dirty));
    let pool: Vec<Result<(), Error>> =
        vec![Err(Error::ConnectionRetrievalError(String::from("pool")))];
    assert!(!commit_allowed(&pool));
}

#[test]
fn parse_entity_id_decodes_keys() {
    let ok = parse_entity_id(Some(b"user::entity::id".to_vec())).unwrap();
    assert_eq!(ok, "user::entity::id");
    let missing = parse_entity_id(None);
    assert!(matches!(missing, Err(Error::InvalidKey(_))));
    let invalid = parse_entity_id(Some(vec![0xff, 0xfe]));
    assert!(matches!(invalid, Err(Error::InvalidEntityId(_))));
}

#[test]
fn coalescing_kicks_in_for_small_chunks() {
    assert!(should_coalesce(0));
    assert!(should_coalesce(2));
    assert!(!should_coalesce(3));
}

#[test]
fn ingress_sequencer_is_monotonic() {
    let mut seq = IngressSequencer::new();
    assert_eq!(seq.next(), Some(0));
    assert_eq!(seq.next(), Some(1));
    assert_eq!(seq.next(), Some(2));
}

#[test]
fn command_record_carries_name_and_key() {
    let rec = make_command_record(UserCommand::Increment(Increment), 5, 777);
    assert_eq!(rec.entity_id(), COUNTER_ID);
    assert_eq!(rec.seq_nr(), 5);
    assert_eq!(rec.timestamp(), 777);
    assert_eq!(rec.type_tag(), Some("Increment"));
}
