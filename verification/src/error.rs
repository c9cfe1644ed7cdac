//! The flat error vocabulary of the runtime.
//!
//! User-level errors (a rejected validation, an inapplicable event) are
//! terminal for the command that raised them.  Infrastructure errors (storage,
//! connection handling) must keep the dispatcher from committing broker
//! offsets, so that redelivery can retry the work; `is_infrastructure`
//! is the classification the dispatcher relies on.

use vstd::prelude::*;

verus! {

/// Every failure the runtime reports, with a human-readable message.
#[derive(Clone, Debug)]
pub enum Error {
    /// A mailbox or actor-system failure, reported by the surrounding plumbing.
    Actix(String),
    /// The database connection pool could not be built.
    ConnectionError(String),
    /// A connection could not be checked out of the pool.
    ConnectionRetrievalError(String),
    /// A serialization round-trip failed.
    Decoding(String),
    /// A generic error with no more precise kind.
    Error(String),
    /// The entity id was missing or not valid UTF-8.
    InvalidEntityId(String),
    /// The runtime was configured inconsistently.
    InvalidConfiguration(String),
    /// A broker message carried no key.
    InvalidKey(String),
    /// A command could not be decoded or dispatched.
    InvalidCommand(String),
    /// An event could not be applied.
    InvalidEvent(String),
    /// A state value was unusable.
    InvalidState(String),
    /// The broker reported a failure.
    Kafka(String),
    /// An error bubbled up from the surrounding system.
    System(String),
    /// The journal failed to read or write.
    StorageError(String),
    /// The command's own validation rejected it.
    Validation(String),
}

impl Error {
    /// A generic error carrying the given message.
    pub fn new(message: &str) -> (r: Self)
        ensures
            r matches Error::Error(m) && m@ == message@,
    {
        Error::Error(String::from_str(message))
    }

    /// True of the kinds that signal a storage or connection failure.
    ///
    /// These are the transient errors: the work that raised one must be
    /// redelivered, so broker offsets may not be committed past it.
    pub open spec fn is_infrastructure_spec(self) -> bool {
        match self {
            Error::StorageError(_) => true,
            Error::ConnectionError(_) => true,
            Error::ConnectionRetrievalError(_) => true,
            _ => false,
        }
    }

    /// Classifies this error as infrastructure (transient) or terminal.
    pub fn is_infrastructure(&self) -> (r: bool)
        ensures
            r == self.is_infrastructure_spec(),
    {
        match self {
            Error::StorageError(_) => true,
            Error::ConnectionError(_) => true,
            Error::ConnectionRetrievalError(_) => true,
            _ => false,
        }
    }

    /// The message carried by this error.
    pub fn message(&self) -> (r: &String)
        ensures
            r@ == self.message_spec(),
    {
        match self {
            Error::Actix(m) => m,
            Error::ConnectionError(m) => m,
            Error::ConnectionRetrievalError(m) => m,
            Error::Decoding(m) => m,
            Error::Error(m) => m,
            Error::InvalidEntityId(m) => m,
            Error::InvalidConfiguration(m) => m,
            Error::InvalidKey(m) => m,
            Error::InvalidCommand(m) => m,
            Error::InvalidEvent(m) => m,
            Error::InvalidState(m) => m,
            Error::Kafka(m) => m,
            Error::System(m) => m,
            Error::StorageError(m) => m,
            Error::Validation(m) => m,
        }
    }

    /// The message carried by this error, as a sequence of characters.
    pub open spec fn message_spec(self) -> Seq<char> {
        match self {
            Error::Actix(m) => m@,
            Error::ConnectionError(m) => m@,
            Error::ConnectionRetrievalError(m) => m@,
            Error::Decoding(m) => m@,
            Error::Error(m) => m@,
            Error::InvalidEntityId(m) => m@,
            Error::InvalidConfiguration(m) => m@,
            Error::InvalidKey(m) => m@,
            Error::InvalidCommand(m) => m@,
            Error::InvalidEvent(m) => m@,
            Error::InvalidState(m) => m@,
            Error::Kafka(m) => m@,
            Error::System(m) => m@,
            Error::StorageError(m) => m@,
            Error::Validation(m) => m@,
        }
    }
}

} // verus!
