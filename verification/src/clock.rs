use crate::types::Timestamp;
use vstd::prelude::*;

verus! {

/// The time that lies `days` whole days after the time `secs` seconds and
/// `nanos` nanoseconds past the Unix epoch, as chrono computes it:
/// `DateTime::<Utc>::from_timestamp(secs, nanos)`, to which
/// `checked_add_signed` adds `TimeDelta::try_days(days)`. It is `None` where
/// one of the three gives `None`: a time or a span is then outside what
/// chrono can hold.
pub uninterp spec fn days_later(secs: i64, nanos: u32, days: i64) -> Option<Timestamp>;

/// Reads the clock through `chrono::Utc::now`. Nothing is claimed of the
/// time that comes back.
#[verifier::external_body]
pub(crate) fn now() -> (time: Timestamp) {
    let time = chrono::Utc::now();
    Timestamp { secs: time.timestamp(), nanos: time.timestamp_subsec_nanos() }
}

/// Adds `days` whole days to `start` with chrono's
/// `DateTime::checked_add_signed`. The contract names the result
/// (`days_later`) and claims one thing more, which chrono's source shows:
/// where `start` is no leap second and the sum exists, it lies
/// `86_400 * days` seconds after `start`, at the same nanosecond.
#[verifier::external_body]
pub(crate) fn plus_days(start: Timestamp, days: i64) -> (end: Option<Timestamp>)
    ensures
        end == days_later(start.secs, start.nanos, days),
        start.nanos < 1_000_000_000 ==> match end {
            Some(time) => time.secs == start.secs + 86_400 * days && time.nanos == start.nanos,
            None => true,
        },
{
    let begin = chrono::DateTime::from_timestamp(start.secs, start.nanos)?;
    let span = chrono::TimeDelta::try_days(days)?;
    let end = begin.checked_add_signed(span)?;
    Some(Timestamp { secs: end.timestamp(), nanos: end.timestamp_subsec_nanos() })
}

} // verus!
