//! Connection configuration for the relational journal backend.
//!
//! The backend itself performs I/O and lives outside the library; it is
//! handed this plain configuration and maps it onto its client settings.

use vstd::prelude::*;

verus! {

/// Whether the database connection must use TLS.
pub struct SslMode(bool);

impl SslMode {
    /// Whether TLS is required.
    pub closed spec fn required_spec(self) -> bool {
        self.0
    }

    /// Wraps the choice.
    pub fn new(ssl: bool) -> (r: Self)
        ensures
            r.required_spec() == ssl,
    {
        SslMode(ssl)
    }

    /// Returns whether TLS is required.
    pub fn is_required(&self) -> (r: bool)
        ensures
            r == self.required_spec(),
    {
        self.0
    }
}

/// The settings a relational backend connects with.
pub struct PostgresAdapterBuilder {
    pub host: String,
    pub user: String,
    pub port: u16,
    pub password: String,
    pub database: String,
    pub timeout: u64,
    pub ssl: SslMode,
}

impl PostgresAdapterBuilder {
    /// Collects the settings.
    pub fn new(
        host: &str,
        user: &str,
        port: u16,
        password: &str,
        database: &str,
        timeout: u64,
        ssl: SslMode,
    ) -> (r: Self)
        ensures
            r.host@ == host@,
            r.user@ == user@,
            r.port == port,
            r.password@ == password@,
            r.database@ == database@,
            r.timeout == timeout,
            r.ssl == ssl,
    {
        PostgresAdapterBuilder {
            host: String::from_str(host),
            user: String::from_str(user),
            port,
            password: String::from_str(password),
            database: String::from_str(database),
            timeout,
            ssl,
        }
    }
}

} // verus!
