use vstd::prelude::*;

use chrono_humanize::Humanize;

use crate::analysis::AddonAnalysis;
use crate::time::{in_range_ms, MAX_OFFSET_SECS};

verus! {

pub open spec fn dec_digit(d: int) -> char {
    ((('0' as u8) + d as u8)) as char
}

/// The decimal digits of a non-negative number, most significant first.
pub open spec fn spec_u64_decimal(n: nat) -> Seq<char>
    decreases n,
{
    if n < 10 {
        seq![dec_digit(n as int)]
    } else {
        spec_u64_decimal(n / 10).push(dec_digit((n % 10) as int))
    }
}

/// Decimal digits, preceded by a minus sign for a negative number.
pub open spec fn spec_i64_decimal(n: int) -> Seq<char> {
    if n < 0 {
        seq!['-'] + spec_u64_decimal((-n) as nat)
    } else {
        spec_u64_decimal(n as nat)
    }
}

/// Relies on u64's `Display` impl: a u64 formats as its decimal digits.
#[verifier::external_body]
fn u64_to_string(n: u64) -> (r: String)
    ensures
        r@ == spec_u64_decimal(n as nat),
{
    n.to_string()
}

/// Relies on i64's `Display` impl: an i64 formats as its decimal digits,
/// preceded by a minus sign when negative.
#[verifier::external_body]
fn i64_to_string(n: i64) -> (r: String)
    ensures
        r@ == spec_i64_decimal(n as int),
{
    n.to_string()
}

/// English text for a signed time distance of the given milliseconds
/// ("in 2 hours", "3 days ago").
pub uninterp spec fn humanized_of(ms: int) -> Seq<char>;

/// Relies on chrono_humanize's `Humanize` impl for chrono's `TimeDelta`:
/// the text depends on the signed duration alone, and a duration no
/// longer than a few times the library's calendar range stays within
/// `TimeDelta`'s own bounds.
#[verifier::external_body]
fn humanize_millis(ms: i64) -> (r: String)
    requires
        -1_000_000_000_000_000 <= ms as int <= 1_000_000_000_000_000,
    ensures
        r@ == humanized_of(ms as int),
{
    chrono::TimeDelta::milliseconds(ms).humanize()
}

/// RFC 2822 text of an instant, rendered in UTC.
pub uninterp spec fn rfc2822_utc_of(ms: int) -> Seq<char>;

/// Relies on chrono's `DateTime::from_timestamp_millis` and `to_rfc2822`:
/// an instant within the library's range is within chrono's calendar, and
/// its text depends on the instant alone.
#[verifier::external_body]
fn rfc2822_utc(ms: i64) -> (r: String)
    requires
        in_range_ms(ms as int),
    ensures
        r@ == rfc2822_utc_of(ms as int),
{
    match chrono::DateTime::<chrono::Utc>::from_timestamp_millis(ms) {
        Some(dt) => dt.to_rfc2822(),
        None => String::new(),
    }
}

/// RFC 2822 text of an instant, rendered in the given fixed offset.
pub uninterp spec fn rfc2822_offset_of(ms: int, offset_secs: int) -> Seq<char>;

/// Relies on chrono's `FixedOffset::east_opt`, `with_timezone` and
/// `to_rfc2822`: an offset strictly within a day is a valid fixed zone,
/// and the text depends on instant and offset alone.
#[verifier::external_body]
fn rfc2822_offset(ms: i64, offset_secs: i32) -> (r: String)
    requires
        in_range_ms(ms as int),
        -MAX_OFFSET_SECS < offset_secs < MAX_OFFSET_SECS,
    ensures
        r@ == rfc2822_offset_of(ms as int, offset_secs as int),
{
    match (
        chrono::DateTime::<chrono::Utc>::from_timestamp_millis(ms),
        chrono::FixedOffset::east_opt(offset_secs),
    ) {
        (Some(dt), Some(off)) => dt.with_timezone(&off).to_rfc2822(),
        _ => String::new(),
    }
}

/// Human-readable size text for a byte count, in binary units.
pub uninterp spec fn bytesize_text_of(bytes: u64) -> Seq<char>;

/// Relies on bytesize's `to_string` with IEC units: the text depends on
/// the byte count alone.
#[verifier::external_body]
fn bytesize_text(bytes: u64) -> (r: String)
    ensures
        r@ == bytesize_text_of(bytes),
{
    bytesize::to_string(bytes, true)
}

/// Every value one report row shows or sorts by, all derived from one
/// analysis record and the reference instant alone: display texts, hover
/// texts, and the numeric sort keys as decimal strings.
pub struct RowValues {
    pub name: String,
    pub link: String,
    pub last_update_text: String,
    pub last_update_hover: String,
    pub last_update_sort: String,
    pub last_usage_text: String,
    pub last_usage_hover: String,
    pub last_usage_sort: String,
    pub size_text: String,
    pub size_sort: String,
    pub presets_text: String,
    pub dependencies_text: String,
    pub dependents_text: String,
}

/// The sort key of the usage column: milliseconds relative to now, or zero
/// where no preset ever referenced the add-on.
pub open spec fn spec_usage_sort_ms(a: AddonAnalysis, now_ms: i64) -> int {
    match a.last_usage {
        Some(t) => t.epoch_ms - now_ms,
        None => 0,
    }
}

/// Computes one row of the report from one analysis record and the
/// reference instant `now_ms`. Missing usage renders as "Unknown" with
/// sort key zero; both update columns sort by their distance from now in
/// milliseconds.
pub fn row_values(a: &AddonAnalysis, now_ms: i64) -> (r: RowValues)
    requires
        a.last_update.wf(),
        in_range_ms(now_ms as int),
        a.last_usage matches Some(t) ==> t.wf(),
    ensures
        r.name == a.name,
        r.link == a.link,
        r.last_update_text@ == humanized_of(a.last_update.epoch_ms - now_ms),
        r.last_update_hover@ == rfc2822_utc_of(a.last_update.epoch_ms as int),
        r.last_update_sort@ == spec_i64_decimal(a.last_update.epoch_ms - now_ms),
        a.last_usage matches Some(t) ==> r.last_usage_text@ == humanized_of(t.epoch_ms - now_ms)
            && r.last_usage_hover@ == rfc2822_offset_of(
            t.epoch_ms as int,
            t.offset_secs as int,
        ),
        a.last_usage is None ==> r.last_usage_text@ == "Unknown"@ && r.last_usage_hover@
            == "Unknown"@,
        r.last_usage_sort@ == spec_i64_decimal(spec_usage_sort_ms(*a, now_ms)),
        r.size_text@ == bytesize_text_of(a.file_size),
        r.size_sort@ == spec_u64_decimal(a.file_size as nat),
        r.presets_text@ == spec_u64_decimal(a.preset_count as nat),
        r.dependencies_text@ == spec_u64_decimal(a.dependency_count as nat),
        r.dependents_text@ == spec_u64_decimal(a.dependents_count as nat),
{
    let update_ms = a.last_update.epoch_ms - now_ms;
    let (last_usage_sort_ms, last_usage_text, last_usage_hover): (i64, String, String) =
        match a.last_usage {
        Some(t) => (
            t.epoch_ms - now_ms,
            humanize_millis(t.epoch_ms - now_ms),
            rfc2822_offset(t.epoch_ms, t.offset_secs),
        ),
        None => (0, "Unknown".to_owned(), "Unknown".to_owned()),
    };
    RowValues {
        name: a.name.clone(),
        link: a.link.clone(),
        last_update_text: humanize_millis(update_ms),
        last_update_hover: rfc2822_utc(a.last_update.epoch_ms),
        last_update_sort: i64_to_string(update_ms),
        last_usage_text,
        last_usage_hover,
        last_usage_sort: i64_to_string(last_usage_sort_ms),
        size_text: bytesize_text(a.file_size),
        size_sort: u64_to_string(a.file_size),
        presets_text: u64_to_string(a.preset_count as u64),
        dependencies_text: u64_to_string(a.dependency_count as u64),
        dependents_text: u64_to_string(a.dependents_count as u64),
    }
}

} // verus!
