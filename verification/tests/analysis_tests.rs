use addon_report::addons::{catalog_from_entries, Addon};
use addon_report::analysis::perform_analysis;
use addon_report::presets::{Preset, PresetAddon};
use addon_report::time::{OffsetTime, UtcTime};

fn addon(id: u64, name: &str, deps: Vec<u64>) -> Addon {
    Addon {
        id,
        display_name: name.to_string(),
        path: format!("mods/{name}"),
        url: format!("https://example.invalid/{id}"),
        file_system_size: 1000 + id,
        file_system_space_required: 2000 + id,
        last_update: UtcTime { epoch_ms: 1_600_000_000_000 + id as i64 },
        dependencies: deps,
    }
}

fn preset(name: &str, ms: i64, offset_secs: i32, mods: Vec<PresetAddon>) -> Preset {
    Preset {
        name: name.to_string(),
        last_update: OffsetTime { epoch_ms: ms, offset_secs },
        mods,
    }
}

#[test]
fn scenario_two_addons_one_preset() {
    let addons = vec![addon(1, "A", vec![]), addon(2, "B", vec![1])];
    let t = 1_700_000_000_000i64;
    let presets = vec![preset("loadout", t, 3600, vec![PresetAddon::Steam(1)])];
    let r = perform_analysis(&addons, &presets);
    assert_eq!(r.len(), 2);
    assert_eq!(r[0].id, 1);
    assert_eq!(r[0].name, "A");
    assert_eq!(r[0].dependents_count, 1);
    assert_eq!(r[0].dependency_count, 0);
    assert_eq!(r[0].preset_count, 1);
    assert_eq!(r[0].last_usage, Some(OffsetTime { epoch_ms: t, offset_secs: 3600 }));
    assert_eq!(r[1].id, 2);
    assert_eq!(r[1].preset_count, 0);
    assert_eq!(r[1].last_usage, None);
    assert_eq!(r[1].dependency_count, 1);
    assert_eq!(r[1].dependents_count, 0);
}

#[test]
fn usage_aggregation_takes_count_and_latest() {
    let addons = vec![addon(7, "Seven", vec![])];
    let (t1, t2, t3) = (1_000_000_000_000i64, 1_100_000_000_000i64, 1_200_000_000_000i64);
    // The newest preset does not come last, so order of iteration must not matter.
    let presets = vec![
        preset("p1", t1, 0, vec![PresetAddon::Steam(7)]),
        preset("p3", t3, 7200, vec![PresetAddon::Steam(7)]),
        preset("p2", t2, 3600, vec![PresetAddon::Steam(7)]),
    ];
    let r = perform_analysis(&addons, &presets);
    assert_eq!(r.len(), 1);
    assert_eq!(r[0].preset_count, 3);
    assert_eq!(r[0].last_usage, Some(OffsetTime { epoch_ms: t3, offset_secs: 7200 }));
}

#[test]
fn duplicate_references_inflate_preset_count() {
    // A quirk kept on purpose: an id listed twice in one preset counts twice.
    let addons = vec![addon(5, "Five", vec![])];
    let presets = vec![preset(
        "twice",
        1_000_000_000_000,
        0,
        vec![PresetAddon::Steam(5), PresetAddon::Steam(5)],
    )];
    let r = perform_analysis(&addons, &presets);
    assert_eq!(r[0].preset_count, 2);
}

#[test]
fn local_references_change_nothing() {
    let addons = vec![addon(1, "A", vec![]), addon(2, "B", vec![1])];
    let plain = vec![preset("p", 1_000_000_000_000, 0, vec![PresetAddon::Steam(1)])];
    let with_local = vec![preset(
        "p",
        1_000_000_000_000,
        0,
        vec![
            PresetAddon::Local("some/dir".to_string()),
            PresetAddon::Steam(1),
            PresetAddon::Local("other".to_string()),
        ],
    )];
    let r1 = perform_analysis(&addons, &plain);
    let r2 = perform_analysis(&addons, &with_local);
    assert_eq!(r1, r2);
}

#[test]
fn sorted_case_insensitively() {
    let addons = vec![
        addon(1, "Zulu", vec![]),
        addon(2, "alpha", vec![]),
        addon(3, "Bravo", vec![]),
    ];
    let r = perform_analysis(&addons, &vec![]);
    let names: Vec<&str> = r.iter().map(|x| x.name.as_str()).collect();
    assert_eq!(names, vec!["alpha", "Bravo", "Zulu"]);
}

#[test]
fn equal_folded_names_keep_catalog_order() {
    let addons = vec![
        addon(10, "DUP", vec![]),
        addon(11, "dup", vec![]),
        addon(12, "Aaa", vec![]),
    ];
    let r = perform_analysis(&addons, &vec![]);
    assert_eq!(r[0].name, "Aaa");
    assert_eq!(r[1].id, 10);
    assert_eq!(r[2].id, 11);
}

#[test]
fn analysis_is_idempotent() {
    let addons = vec![addon(1, "A", vec![2]), addon(2, "b", vec![1, 1])];
    let presets = vec![
        preset("p", 1_000_000_000_000, 0, vec![PresetAddon::Steam(2)]),
        preset("q", 1_000_000_000_000, 3600, vec![PresetAddon::Steam(2)]),
    ];
    let r1 = perform_analysis(&addons, &presets);
    let r2 = perform_analysis(&addons, &presets);
    assert_eq!(r1, r2);
}

#[test]
fn dangling_dependencies_are_inert() {
    // Id 99 is not in the catalog: it raises nothing and credits nobody,
    // but it still counts towards the raw dependency count.
    let addons = vec![addon(1, "A", vec![99, 2]), addon(2, "B", vec![])];
    let r = perform_analysis(&addons, &vec![]);
    assert_eq!(r[0].dependency_count, 2);
    assert_eq!(r[0].dependents_count, 0);
    assert_eq!(r[1].dependents_count, 1);
}

#[test]
fn self_and_repeated_dependencies_count_per_occurrence() {
    let addons = vec![addon(1, "A", vec![1, 2, 2]), addon(2, "B", vec![])];
    let r = perform_analysis(&addons, &vec![]);
    assert_eq!(r[0].dependents_count, 1);
    assert_eq!(r[1].dependents_count, 2);
}

#[test]
fn catalog_collapses_duplicate_ids_to_last() {
    let entries = vec![
        addon(1, "First", vec![]),
        addon(2, "Second", vec![]),
        addon(1, "Third", vec![7]),
    ];
    let catalog = catalog_from_entries(entries);
    assert_eq!(catalog.len(), 2);
    assert_eq!(catalog[0].id, 1);
    assert_eq!(catalog[0].display_name, "Third");
    assert_eq!(catalog[0].dependencies, vec![7]);
    assert_eq!(catalog[1].id, 2);
}

#[test]
fn empty_inputs_give_empty_report() {
    let r = perform_analysis(&vec![], &vec![]);
    assert!(r.is_empty());
}
