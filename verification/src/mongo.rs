//! Connection configuration for a document-store journal backend.
//!
//! The backend itself performs I/O and lives outside the library; it is
//! handed this plain configuration.

use vstd::prelude::*;

verus! {

/// The collection journaled events are stored in.
pub const EVENT_COLLECTION: &'static str = "events";

/// The settings a document-store backend connects with.
pub struct MongoAdapterBuilder {
    pub uri: String,
    pub database: String,
}

impl MongoAdapterBuilder {
    /// Collects the settings.
    pub fn new(uri: &str, database: &str) -> (r: Self)
        ensures
            r.uri@ == uri@,
            r.database@ == database@,
    {
        MongoAdapterBuilder { uri: String::from_str(uri), database: String::from_str(database) }
    }
}

} // verus!
