//! Shared domain vocabulary: tunables of the pipeline and the non-empty
//! sequence type that command translation must produce.

use crate::error::Error;
use vstd::prelude::*;

verus! {

/// Topic that carries per-entity state, when one is published.
pub const STATE_TOPIC: &'static str = "state";

/// Topic that carries journaled events, when one is published.
pub const EVENT_TOPIC: &'static str = "events";

/// Topic the ingress produces commands to and the dispatcher consumes from.
pub const COMMAND_TOPIC: &'static str = "commands";

/// Seconds between drains of the ingress delivery buffer.
pub const BATCH_BACKPRESSURE: u64 = 2;

/// Seconds the dispatcher sleeps when a chunk is nearly empty, to coalesce
/// small bursts.
pub const CHUNK_BACKPRESSURE: u64 = 2;

/// Most records the dispatcher takes from the broker in one cycle.
pub const CHUNK_SIZE: u64 = 100;

/// Consumer group under which the dispatcher subscribes.
pub const GROUP_ID: &'static str = "mnemosyne";

/// An ordered sequence guaranteed non-empty at construction; every
/// command-to-events translation returns one, so a valid command always
/// yields at least one event.
#[derive(Debug)]
pub struct NonEmptyVec<T>(Vec<T>);

impl<T> View for NonEmptyVec<T> {
    type V = Seq<T>;

    closed spec fn view(&self) -> Seq<T> {
        self.0@
    }
}

impl<T> NonEmptyVec<T> {
    #[verifier::type_invariant]
    spec fn wf(self) -> bool {
        self.0@.len() >= 1
    }

    /// Wraps the vector; an empty vector is rejected.
    pub fn new(vec: Vec<T>) -> (r: Result<Self, Error>)
        ensures
            vec@.len() == 0 ==> (r matches Err(e) && e matches Error::InvalidCommand(_)),
            vec@.len() >= 1 ==> (r matches Ok(nev) && nev@ == vec@),
    {
        if vec.is_empty() {
            Err(Error::InvalidCommand(String::from_str("Empty vector")))
        } else {
            Ok(NonEmptyVec(vec))
        }
    }

    /// The sequence holding exactly the given element.
    pub fn one(value: T) -> (r: Self)
        ensures
            r@.len() == 1,
            r@[0] == value,
    {
        let mut v: Vec<T> = Vec::new();
        v.push(value);
        NonEmptyVec(v)
    }

    /// Returns the underlying vector; it has at least one element.
    pub fn into_vec(self) -> (r: Vec<T>)
        ensures
            r@ == self@,
            r@.len() >= 1,
    {
        proof {
            use_type_invariant(&self);
        }
        let NonEmptyVec(v) = self;
        v
    }

    /// Borrows the elements in order; the slice is never empty.
    pub fn iter(&self) -> (r: &Vec<T>)
        ensures
            r@ == self@,
            r@.len() >= 1,
    {
        proof {
            use_type_invariant(self);
        }
        &self.0
    }

    /// Consumes the sequence, yielding the elements in order.
    pub fn into_iter(self) -> (r: Vec<T>)
        ensures
            r@ == self@,
            r@.len() >= 1,
    {
        self.into_vec()
    }

    /// The number of elements; always at least one.
    pub fn len(&self) -> (r: usize)
        ensures
            r == self@.len(),
            r >= 1,
    {
        proof {
            use_type_invariant(self);
        }
        self.0.len()
    }
}

} // verus!
