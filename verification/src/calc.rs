//! Scheduling time arithmetic: deciding whether a raw numeric scheduling
//! value is a relative offset or an absolute Unix timestamp, and computing
//! the effective execution time.

use vstd::prelude::*;

verus! {

/// Raw scheduling values below this threshold are relative offsets in
/// seconds; values at or above it are absolute Unix timestamps. The
/// threshold exceeds any plausible relative offset but is below any
/// current Unix timestamp.
pub const SCHEDULE_THRESHOLD: i64 = 1_000_000_000;

/// The effective execution timestamp for a raw scheduling value `raw` at
/// current time `now`: a raw value below the threshold is an offset added
/// to `now`, any other is already absolute. A result that is not strictly
/// in the future is rejected.
pub open spec fn calc_at_spec(now: int, raw: int) -> Option<int> {
    let start_at: int = if raw < SCHEDULE_THRESHOLD { now + raw } else { raw };
    if start_at <= now {
        None
    } else {
        Some(start_at)
    }
}

/// Computes the effective execution timestamp, or `None` when the value
/// does not name a time strictly after `now`.
pub fn calc_at(now: i64, raw: i64) -> (r: Option<i64>)
    requires
        raw < SCHEDULE_THRESHOLD ==> i64::MIN <= now + raw <= i64::MAX,
    ensures
        r is Some <==> calc_at_spec(now as int, raw as int) is Some,
        (r matches Some(t) ==> calc_at_spec(now as int, raw as int) == Some(t as int)),
{
    let start_at: i64 = if raw < SCHEDULE_THRESHOLD { now + raw } else { raw };
    if start_at <= now {
        None
    } else {
        Some(start_at)
    }
}

} // verus!
