//! Points in time, and reading them from text.

use vstd::prelude::*;

verus! {

/// A point in time: the seconds since 1970-01-01 00:00:00 UTC, without leap
/// seconds, and the nanoseconds since the last full second, which exceed
/// 999,999,999 during a leap second.
#[derive(Clone, Copy, Debug, PartialEq, Eq, Structural)]
pub struct Timestamp {
    pub seconds: i64,
    pub nanos: u32,
}

/// The point in time that `text` names when it is read by the pattern
/// `format` and taken as UTC: its seconds and nanoseconds; `None` where the
/// text does not name one so.
pub uninterp spec fn timestamp_of(text: Seq<char>, format: Seq<char>) -> Option<(i64, u32)>;

/// What an optional timestamp holds, as a pair.
pub open spec fn pair_of(stamp: Option<Timestamp>) -> Option<(i64, u32)> {
    match stamp {
        Some(t) => Some((t.seconds, t.nanos)),
        None => None,
    }
}

/// Reads `text` with `chrono::NaiveDateTime::parse_from_str` and the
/// pattern `format`, takes the result as UTC (`and_utc`) and hands back
/// `timestamp` and `timestamp_subsec_nanos`. None of these looks at the
/// clock or the time zone of the machine: what comes back depends on the
/// two texts alone. The contract names it `timestamp_of` and claims no more.
#[verifier::external_body]
pub(crate) fn parse_timestamp(text: &str, format: &str) -> (stamp: Option<Timestamp>)
    ensures
        pair_of(stamp) == timestamp_of(text@, format@),
{
    match chrono::NaiveDateTime::parse_from_str(text, format) {
        Ok(moment) => Some(
            Timestamp {
                seconds: moment.and_utc().timestamp(),
                nanos: moment.and_utc().timestamp_subsec_nanos(),
            },
        ),
        Err(_) => None,
    }
}

} // verus!
