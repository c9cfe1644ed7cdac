//! The record envelope: every message on the wire and every event at rest
//! travels as a [`Record`] carrying its entity id, sequence number,
//! timestamp, payload, and — for command records only — a type tag.

use vstd::prelude::*;

verus! {

/// Metadata common to every record.
pub trait Meta {
    /// The entity the record belongs to, as a sequence of characters.
    spec fn entity_spec(&self) -> Seq<char>;

    /// The sequence number of the record.
    spec fn seq_nr_spec(&self) -> i64;

    /// The timestamp of the record, in milliseconds since the Unix epoch.
    spec fn timestamp_spec(&self) -> i64;

    /// Returns the entity id the record belongs to.
    fn entity_id(&self) -> (r: &str)
        ensures
            r@ == self.entity_spec(),
    ;

    /// Returns the sequence number of the record; meaningful only for events.
    fn seq_nr(&self) -> (r: i64)
        ensures
            r == self.seq_nr_spec(),
    ;

    /// Returns the timestamp of the record, in milliseconds since the epoch.
    fn timestamp(&self) -> (r: i64)
        ensures
            r == self.timestamp_spec(),
    ;
}

/// An immutable envelope around a payload.
///
/// Event records carry the per-entity event sequence number and no tag;
/// command records carry an ingress-side diagnostic sequence number and a
/// tag naming the command type.
#[derive(Debug, Clone)]
pub struct Record<T> {
    entity_id: String,
    seq_nr: i64,
    timestamp: i64,
    message: T,
    type_tag: Option<String>,
}

impl<T> Record<T> {
    /// An event record: no type tag.
    pub fn event(entity_id: String, seq_nr: i64, message: T, timestamp: i64) -> (r: Self)
        ensures
            r.entity_spec() == entity_id@,
            r.seq_nr_spec() == seq_nr,
            r.timestamp_spec() == timestamp,
            r.message_spec() == message,
            r.tag_spec() is None,
    {
        Record { entity_id, seq_nr, message, timestamp, type_tag: None }
    }

    /// A command record: tagged with the command's name.
    pub fn command(entity_id: &str, message: T, timestamp: i64, command: String, seq_nr: i64) -> (r:
        Self)
        ensures
            r.entity_spec() == entity_id@,
            r.seq_nr_spec() == seq_nr,
            r.timestamp_spec() == timestamp,
            r.message_spec() == message,
            r.tag_spec() matches Some(t) && t == command@,
    {
        Record {
            entity_id: String::from_str(entity_id),
            seq_nr,
            message,
            timestamp,
            type_tag: Some(command),
        }
    }

    /// The payload carried by the record.
    pub closed spec fn message_spec(self) -> T {
        self.message
    }

    /// The type tag, present only on command records.
    pub closed spec fn tag_spec(self) -> Option<Seq<char>> {
        match self.type_tag {
            Some(t) => Some(t@),
            None => None,
        }
    }

    /// Borrows the payload.
    pub fn message(&self) -> (r: &T)
        ensures
            *r == self.message_spec(),
    {
        &self.message
    }

    /// Consumes the record, yielding the payload.
    pub fn into_message(self) -> (r: T)
        ensures
            r == self.message_spec(),
    {
        self.message
    }

    /// The type tag, if the record carries one.
    pub fn type_tag(&self) -> (r: Option<&str>)
        ensures
            match r {
                Some(t) => self.tag_spec() matches Some(s) && s == t@,
                None => self.tag_spec() is None,
            },
    {
        match &self.type_tag {
            Some(t) => Some(t.as_str()),
            None => None,
        }
    }
}

impl<T> Meta for Record<T> {
    closed spec fn entity_spec(&self) -> Seq<char> {
        self.entity_id@
    }

    closed spec fn seq_nr_spec(&self) -> i64 {
        self.seq_nr
    }

    closed spec fn timestamp_spec(&self) -> i64 {
        self.timestamp
    }

    fn entity_id(&self) -> (r: &str) {
        self.entity_id.as_str()
    }

    fn seq_nr(&self) -> (r: i64) {
        self.seq_nr
    }

    fn timestamp(&self) -> (r: i64) {
        self.timestamp
    }
}

} // verus!
