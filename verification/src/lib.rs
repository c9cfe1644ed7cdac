//! An event-sourced aggregate runtime.
//!
//! Domain state is derived by folding an ordered, append-only journal of
//! events.  Mutation requests arrive as commands that are validated against
//! the current state, translated into events, durably journaled, and then
//! applied.  The crate provides the record envelope, the journal with an
//! in-memory backend, the per-entity processor with its critical section,
//! and the routing and commit decisions of the dispatcher; broker and
//! database plumbing lives outside, behind plain-value interfaces.

pub mod clock;
pub mod codec;
pub mod command;
pub mod counter;
pub mod domain;
pub mod engine;
pub mod error;
pub mod event;
pub mod memory;
pub mod mongo;
pub mod postgres;
pub mod processor;
pub mod record;
pub mod storage;
pub mod tictactoe;

pub use error::Error;
