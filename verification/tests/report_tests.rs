use addon_report::analysis::AddonAnalysis;
use addon_report::error::{Contextualize, DecodeFailure, Error, IoFailure};
use addon_report::report::row_values;
use addon_report::time::{OffsetTime, UtcTime};

fn record() -> AddonAnalysis {
    AddonAnalysis {
        id: 42,
        name: "Example".to_string(),
        link: "https://example.invalid/42".to_string(),
        last_update: UtcTime { epoch_ms: 1704164645000 },
        last_usage: None,
        file_size: 1024,
        preset_count: 3,
        dependency_count: 0,
        dependents_count: 12,
    }
}

#[test]
fn row_carries_name_link_and_counts() {
    let now = 1704164645000i64;
    let r = row_values(&record(), now);
    assert_eq!(r.name, "Example");
    assert_eq!(r.link, "https://example.invalid/42");
    assert_eq!(r.presets_text, "3");
    assert_eq!(r.dependencies_text, "0");
    assert_eq!(r.dependents_text, "12");
    assert_eq!(r.size_sort, "1024");
    assert_eq!(r.size_text, "1.0 kiB");
}

#[test]
fn update_columns_derive_from_instants() {
    // The record was updated exactly at the reference instant.
    let now = 1704164645000i64;
    let r = row_values(&record(), now);
    assert_eq!(r.last_update_sort, "0");
    assert_eq!(r.last_update_text, "now");
    // 2024-01-02T03:04:05Z rendered in UTC (chrono writes the day unpadded).
    assert_eq!(r.last_update_hover, "Tue, 2 Jan 2024 03:04:05 +0000");
}

#[test]
fn missing_usage_renders_unknown() {
    let r = row_values(&record(), 1704164645000);
    assert_eq!(r.last_usage_text, "Unknown");
    assert_eq!(r.last_usage_hover, "Unknown");
    assert_eq!(r.last_usage_sort, "0");
}

#[test]
fn present_usage_keeps_its_offset() {
    let mut a = record();
    // Same instant as 2024-01-02T03:04:05Z, stamped one hour east.
    a.last_usage = Some(OffsetTime { epoch_ms: 1704164645000, offset_secs: 3600 });
    let now = 1704164645000i64 + 5000;
    let r = row_values(&a, now);
    assert_eq!(r.last_usage_sort, "-5000");
    assert_eq!(r.last_usage_hover, "Tue, 2 Jan 2024 04:04:05 +0100");
    assert_ne!(r.last_usage_text, "Unknown");
}

#[test]
fn negative_sort_keys_format_with_sign() {
    let mut a = record();
    a.last_update = UtcTime { epoch_ms: 1704164645000 - 86_400_000 };
    let r = row_values(&a, 1704164645000);
    assert_eq!(r.last_update_sort, "-86400000");
    assert_eq!(r.last_update_text, "a day ago");
}

#[test]
fn io_context_becomes_file_error() {
    let failing: Result<u32, IoFailure> = Err(IoFailure("permission denied".to_string()));
    match failing.context("Failed to access Steam.json") {
        Err(Error::FileError(detail, ctx)) => {
            assert_eq!(detail, "permission denied");
            assert_eq!(ctx, "Failed to access Steam.json");
        },
        other => panic!("unexpected {other:?}"),
    }
    let fine: Result<u32, IoFailure> = Ok(7);
    assert_eq!(fine.context("unused"), Ok(7));
}

#[test]
fn decode_context_becomes_preset_error() {
    let failing: Result<u32, DecodeFailure> = Err(DecodeFailure("bad tag".to_string()));
    match failing.context("alpine") {
        Err(Error::PresetParsingFailed(detail, name)) => {
            assert_eq!(detail, "bad tag");
            assert_eq!(name, "alpine");
        },
        other => panic!("unexpected {other:?}"),
    }
}
