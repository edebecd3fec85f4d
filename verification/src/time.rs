use vstd::prelude::*;

verus! {

/// Instants this library works with lie between these two non-leap
/// millisecond counts from the Unix epoch — within calendar years 5 to
/// 9987 — which keeps every calendar computation handed to the chrono
/// crate in range, RFC 2822 rendering included (defined only for years 0
/// through 9999).
pub const MIN_EPOCH_MS: i64 = -62_000_000_000_000;

pub const MAX_EPOCH_MS: i64 = 253_000_000_000_000;

/// Seconds in one day; a UTC offset is strictly smaller in magnitude.
pub const MAX_OFFSET_SECS: i32 = 86_400;

pub open spec fn in_range_ms(ms: int) -> bool {
    MIN_EPOCH_MS <= ms <= MAX_EPOCH_MS
}

/// An absolute UTC instant: non-leap milliseconds since the Unix epoch.
#[derive(Clone, Copy, Debug, PartialEq, Eq, Structural)]
pub struct UtcTime {
    pub epoch_ms: i64,
}

impl UtcTime {
    pub open spec fn wf(self) -> bool {
        in_range_ms(self.epoch_ms as int)
    }
}

/// An absolute instant together with the UTC offset its source wrote it
/// with. The offset is kept for display only: every comparison and
/// aggregation goes by `epoch_ms`, the universal instant, alone.
#[derive(Clone, Copy, Debug, PartialEq, Eq, Structural)]
pub struct OffsetTime {
    pub epoch_ms: i64,
    pub offset_secs: i32,
}

impl OffsetTime {
    pub open spec fn wf(self) -> bool {
        &&& in_range_ms(self.epoch_ms as int)
        &&& -MAX_OFFSET_SECS < self.offset_secs < MAX_OFFSET_SECS
    }
}

/// The later of two stamped instants, preferring the second on a tie, so
/// that of two equally recent sources the one seen second keeps its offset.
pub open spec fn spec_later(a: OffsetTime, b: OffsetTime) -> OffsetTime {
    if b.epoch_ms >= a.epoch_ms {
        b
    } else {
        a
    }
}

pub fn later(a: OffsetTime, b: OffsetTime) -> (r: OffsetTime)
    ensures
        r == spec_later(a, b),
{
    if b.epoch_ms >= a.epoch_ms {
        b
    } else {
        a
    }
}

/// The instant and offset an RFC 3339 date-time string names, or `None`
/// where the string does not conform to that format.
pub uninterp spec fn rfc3339_of(s: Seq<char>) -> Option<OffsetTime>;

/// Relies on chrono's `DateTime::parse_from_rfc3339`: whether a string is a
/// well-formed RFC 3339 date-time, and which instant and offset it names,
/// is a function of its characters alone. A parsed offset is strictly
/// within one day of UTC, which chrono's `FixedOffset` guarantees.
#[verifier::external_body]
fn parse_rfc3339_raw(s: &str) -> (r: Option<OffsetTime>)
    ensures
        r == rfc3339_of(s@),
        r matches Some(t) ==> -MAX_OFFSET_SECS < t.offset_secs < MAX_OFFSET_SECS,
{
    match chrono::DateTime::parse_from_rfc3339(s) {
        Ok(dt) => Some(
            OffsetTime {
                epoch_ms: dt.timestamp_millis(),
                offset_secs: dt.offset().local_minus_utc(),
            },
        ),
        Err(_) => None,
    }
}

/// An RFC 3339 date-time accepted by this library: well-formed, and naming
/// an instant within [`in_range_ms`] (a date absurdly far from the present
/// is treated like a malformed one).
pub open spec fn spec_parse_rfc3339(s: Seq<char>) -> Option<OffsetTime> {
    match rfc3339_of(s) {
        Some(t) => if in_range_ms(t.epoch_ms as int) {
            Some(t)
        } else {
            None
        },
        None => None,
    }
}

pub fn parse_rfc3339(s: &str) -> (r: Option<OffsetTime>)
    ensures
        r == spec_parse_rfc3339(s@),
        r matches Some(t) ==> t.wf(),
{
    match parse_rfc3339_raw(s) {
        Some(t) => if MIN_EPOCH_MS <= t.epoch_ms && t.epoch_ms <= MAX_EPOCH_MS {
            Some(t)
        } else {
            None
        },
        None => None,
    }
}

} // verus!
