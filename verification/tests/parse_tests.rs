use addon_report::error::Error;
use addon_report::presets::{parse_preset_addon, parse_u64, Preset, PresetAddon};
use addon_report::time::{parse_rfc3339, OffsetTime};

#[test]
fn steam_reference_parses() {
    assert_eq!(parse_preset_addon("steam:123"), Some(PresetAddon::Steam(123)));
    assert_eq!(parse_preset_addon("steam:0"), Some(PresetAddon::Steam(0)));
    assert_eq!(
        parse_preset_addon("steam:18446744073709551615"),
        Some(PresetAddon::Steam(u64::MAX))
    );
}

#[test]
fn local_reference_parses() {
    assert_eq!(
        parse_preset_addon("local:mods/custom thing"),
        Some(PresetAddon::Local("mods/custom thing".to_string()))
    );
    assert_eq!(parse_preset_addon("local:"), Some(PresetAddon::Local(String::new())));
}

#[test]
fn other_prefixes_are_rejected() {
    assert_eq!(parse_preset_addon("workshop:123"), None);
    assert_eq!(parse_preset_addon("steam"), None);
    assert_eq!(parse_preset_addon(""), None);
    assert_eq!(parse_preset_addon("123"), None);
}

#[test]
fn malformed_steam_ids_are_rejected() {
    assert_eq!(parse_preset_addon("steam:abc"), None);
    assert_eq!(parse_preset_addon("steam:"), None);
    assert_eq!(parse_preset_addon("steam:12x"), None);
    assert_eq!(parse_preset_addon("steam:-5"), None);
    // One past u64::MAX.
    assert_eq!(parse_preset_addon("steam:18446744073709551616"), None);
}

#[test]
fn number_parse_matches_std() {
    for s in ["0", "42", "+7", "18446744073709551615", "18446744073709551616", "", "+", "1 2",
        "0012"] {
        assert_eq!(parse_u64(s), s.parse::<u64>().ok(), "case {s:?}");
    }
}

#[test]
fn rfc3339_parses_instant_and_offset() {
    let t = parse_rfc3339("2024-01-02T03:04:05+01:00");
    assert_eq!(t, Some(OffsetTime { epoch_ms: 1704161045000, offset_secs: 3600 }));
    let u = parse_rfc3339("2024-01-02T03:04:05Z");
    assert_eq!(u, Some(OffsetTime { epoch_ms: 1704164645000, offset_secs: 0 }));
}

#[test]
fn rfc3339_rejects_malformed_text() {
    assert_eq!(parse_rfc3339("2024-01-02 03:04:05"), None);
    assert_eq!(parse_rfc3339("yesterday"), None);
    assert_eq!(parse_rfc3339(""), None);
    assert_eq!(parse_rfc3339("2024-13-02T03:04:05Z"), None);
}

#[test]
fn preset_from_raw_builds_preset() {
    let mods = vec!["steam:1".to_string(), "local:a/b".to_string(), "steam:2".to_string()];
    let p = Preset::from_raw("mine".to_string(), "2024-01-02T03:04:05+01:00", &mods).unwrap();
    assert_eq!(p.name, "mine");
    assert_eq!(p.last_update, OffsetTime { epoch_ms: 1704161045000, offset_secs: 3600 });
    assert_eq!(
        p.mods,
        vec![
            PresetAddon::Steam(1),
            PresetAddon::Local("a/b".to_string()),
            PresetAddon::Steam(2)
        ]
    );
}

#[test]
fn preset_from_raw_rejects_bad_timestamp() {
    let e = Preset::from_raw("mine".to_string(), "not a date", &vec![]).unwrap_err();
    match e {
        Error::PresetParsingFailed(detail, name) => {
            assert_eq!(detail, "not a date");
            assert_eq!(name, "mine");
        },
        other => panic!("unexpected error {other:?}"),
    }
}

#[test]
fn preset_from_raw_rejects_bad_reference() {
    let mods = vec!["steam:1".to_string(), "garbage".to_string()];
    let e = Preset::from_raw("mine".to_string(), "2024-01-02T03:04:05Z", &mods).unwrap_err();
    match e {
        Error::PresetParsingFailed(detail, name) => {
            assert_eq!(detail, "garbage");
            assert_eq!(name, "mine");
        },
        other => panic!("unexpected error {other:?}"),
    }
}

#[test]
fn into_steam_splits_variants() {
    assert_eq!(PresetAddon::Steam(9).into_steam(), Some(9));
    assert_eq!(PresetAddon::Local("x".to_string()).into_steam(), None);
}
