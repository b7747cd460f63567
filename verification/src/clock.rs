//! The wall clock, read as whole seconds since the Unix epoch.

use vstd::prelude::*;

verus! {

/// Relies on `time::OffsetDateTime::now_utc` (read through
/// `unix_timestamp`): the current wall-clock time as whole seconds since
/// the Unix epoch. The clock is an outside source, so nothing is promised
/// of the value.
#[verifier::external_body]
pub(crate) fn now_unix() -> (t: i64) {
    time::OffsetDateTime::now_utc().unix_timestamp()
}

} // verus!
