//! The two calls only the host can answer: the current time and the local
//! timezone offset. Everything downstream of them is verified against the
//! bounds stated here.

use vstd::prelude::*;
use crate::{MIN_EPOCH_SECS, MAX_EPOCH_SECS};

verus! {

/// Relies on chrono's `Utc::now`, read back through `DateTime::timestamp` and
/// `DateTime::timestamp_subsec_nanos`, which round-trip the value `now` was
/// built from. `Utc::now` takes the instant from `std::time::SystemTime`, so
/// the seconds are nonnegative and the nanosecond part is below one billion
/// (it panics if the system clock is set before the Unix epoch).
#[verifier::external_body]
pub(crate) fn now_utc() -> (r: (i64, u32))
    ensures
        r.0 >= 0,
        r.1 < 1000000000,
{
    let now = chrono::Utc::now();
    (now.timestamp(), now.timestamp_subsec_nanos())
}

/// Relies on chrono's `DateTime::from_timestamp`, which returns `Some` for
/// any instant within this library's supported range, and on
/// `DateTime::with_timezone` with `Local`, whose resulting `FixedOffset` is
/// strictly between -86400 and 86400 seconds by construction.
#[verifier::external_body]
pub(crate) fn local_offset_seconds(secs: i64, nanos: u32) -> (r: Option<i32>)
    ensures
        r matches Some(off) ==> -86400 < off < 86400,
        MIN_EPOCH_SECS <= secs <= MAX_EPOCH_SECS && nanos < 1000000000 ==> r is Some,
{
    match chrono::DateTime::from_timestamp(secs, nanos) {
        Some(dt) => Some(dt.with_timezone(&chrono::Local).offset().local_minus_utc()),
        None => None,
    }
}

} // verus!
