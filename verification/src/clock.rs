//! The wall clock, behind a single trusted call.

use vstd::prelude::*;

verus! {

/// Relies on chrono's `Utc::now`: the current wall-clock time, in
/// milliseconds since the Unix epoch.  Nothing can be promised of it; the
/// functions that stamp records take the timestamp as an argument and are
/// verified for every value of it.  Note that `Utc::now` itself panics on
/// a system clock set before the Unix epoch; that condition is ambient,
/// not an argument this wrapper could exclude.
#[verifier::external_body]
pub fn now_millis() -> i64 {
    chrono::Utc::now().timestamp_millis()
}

} // verus!
