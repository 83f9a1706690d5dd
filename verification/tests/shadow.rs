use elicit_doc::collect::{ElicitCompleteSet, TraitPrereqs};
use elicit_doc::inventory::{Inventory, Item, ItemKind};
use elicit_doc::shadow::{
    build_shadow_report, edit_distance, find_drift_match, normalize_name, score_names,
    space_letters, to_snake_case, DriftScore, ShadowReport, ShadowStatus,
};

fn item(path: &[&str], kind: ItemKind) -> Item {
    Item {
        path: path.iter().map(|p| p.to_string()).collect(),
        kind,
        name: path[path.len() - 1].to_string(),
        is_generic: false,
        lifetime_params: Vec::new(),
        type_params: Vec::new(),
    }
}

fn inventory(crate_name: &str, items: Vec<Item>) -> Inventory {
    Inventory { crate_name: crate_name.to_string(), crate_version: "1.0.0".to_string(), items }
}

fn coverage_pct(report: &ShadowReport) -> f32 {
    if report.total_count == 0 {
        100.0
    } else {
        (report.covered_count + report.drifted_count) as f32 / report.total_count as f32 * 100.0
    }
}

#[test]
fn covers_full_public_surface_not_just_types() {
    let target = inventory(
        "upstream",
        vec![
            item(&["upstream", "Widget"], ItemKind::Struct),
            item(&["upstream", "build_widget"], ItemKind::Function),
        ],
    );
    let shadow =
        inventory("elicit_upstream", vec![item(&["elicit_upstream", "Widget"], ItemKind::Struct)]);

    let report =
        build_shadow_report(&target, &shadow, &ElicitCompleteSet::default(), &Vec::new());

    let function_row = report
        .rows
        .iter()
        .find(|row| row.item_path == "upstream::build_widget")
        .expect("expected function row");
    assert_eq!(function_row.item_kind, ItemKind::Function);
    assert_eq!(function_row.status, ShadowStatus::Missing);
    assert_eq!(report.missing_count, 1);
}

#[test]
fn ignores_modules_in_shadow_coverage() {
    let target = inventory(
        "upstream",
        vec![
            item(&["upstream"], ItemKind::Module),
            item(&["upstream", "nested"], ItemKind::Module),
            item(&["upstream", "Widget"], ItemKind::Struct),
        ],
    );
    let shadow =
        inventory("elicit_upstream", vec![item(&["elicit_upstream", "Widget"], ItemKind::Struct)]);

    let report =
        build_shadow_report(&target, &shadow, &ElicitCompleteSet::default(), &Vec::new());

    assert_eq!(report.covered_count, 1);
    assert_eq!(report.missing_count, 0);
    assert_eq!(coverage_pct(&report), 100.0);
    assert!(report.rows.iter().all(|row| row.item_kind != ItemKind::Module));
}

#[test]
fn rows_tell_covered_drifted_missing_and_extra() {
    let target = inventory(
        "up",
        vec![
            item(&["up", "Vec2"], ItemKind::Struct),
            item(&["up", "ColorPalette"], ItemKind::Struct),
            item(&["up", "Gone"], ItemKind::Enum),
            item(&["up", "m", "draw"], ItemKind::Function),
        ],
    );
    let shadow = inventory(
        "elicit_up",
        vec![
            item(&["elicit_up", "Vec2"], ItemKind::Function),
            item(&["elicit_up", "types", "Vec2"], ItemKind::Struct),
            item(&["elicit_up", "ColourPalette"], ItemKind::Struct),
            item(&["elicit_up", "EguiVec2"], ItemKind::Struct),
            item(&["elicit_up", "draw"], ItemKind::Function),
        ],
    );
    let complete = ElicitCompleteSet {
        concrete: vec!["elicit_up::types::Vec2".to_string()],
        factory: Vec::new(),
    };
    let prereqs = vec![(
        "elicit_up::types::Vec2".to_string(),
        TraitPrereqs {
            serialize: true,
            deserialize: true,
            json_schema: true,
            elicit_spec: true,
            ..TraitPrereqs::default()
        },
    )];
    let report = build_shadow_report(&target, &shadow, &complete, &prereqs);
    let rows: Vec<(&str, ShadowStatus, &str)> = report
        .rows
        .iter()
        .map(|r| (r.item_path.as_str(), r.status, r.shadow_item.as_str()))
        .collect();
    assert_eq!(
        rows,
        vec![
            ("elicit_up::EguiVec2", ShadowStatus::Extra, ""),
            ("elicit_up::Vec2", ShadowStatus::Extra, ""),
            ("up::ColorPalette", ShadowStatus::Drifted, "elicit_up::ColourPalette"),
            ("up::Gone", ShadowStatus::Missing, ""),
            ("up::Vec2", ShadowStatus::Covered, "elicit_up::types::Vec2"),
            ("up::m::draw", ShadowStatus::Covered, "elicit_up::draw"),
        ]
    );
    let vec2 = &report.rows[4];
    assert_eq!(vec2.shadow_elicit_impl, "Complete");
    assert_eq!(vec2.shadow_can_be_direct, "true");
    assert_eq!(vec2.shadow_missing_external_traits, "");
    assert_eq!(
        vec2.shadow_missing_our_traits,
        "Elicitation;ElicitIntrospect;ElicitPromptTree;ToCodeLiteral"
    );
    let drifted = &report.rows[2];
    assert_eq!(drifted.notes, "probable rename");
    assert_eq!(drifted.drift, Some(DriftScore { distance: 1, length: 14 }));
    assert_eq!(drifted.shadow_elicit_impl, "Missing");
    assert_eq!(drifted.shadow_can_be_direct, "false");
    assert_eq!(
        drifted.shadow_missing_external_traits,
        "Serialize(absent);Deserialize(absent);JsonSchema(absent)"
    );
    let draw = &report.rows[5];
    assert_eq!(draw.shadow_elicit_impl, "Missing");
    assert_eq!(draw.shadow_can_be_direct, "");
    assert_eq!(draw.shadow_missing_our_traits, "");
    assert_eq!(report.rows[0].notes, "in shadow, not in target");
    assert_eq!(
        (report.covered_count, report.drifted_count, report.missing_count, report.extra_count),
        (2, 1, 1, 2)
    );
    assert_eq!(report.total_count, 4);
    assert_eq!(report.verification_gap_count, 1);
    assert_eq!(coverage_pct(&report), 75.0);
    assert_eq!(
        report.summary("75.0"),
        "up vs elicit_up (75.0% covered: 2 covered, 1 missing, 2 extra, 1 drifted)"
    );
}

#[test]
fn drift_is_bounded_by_edits() {
    let shadow = |names: &[&str]| -> Vec<Item> {
        names.iter().map(|n| item(&["s", n], ItemKind::Struct)).collect()
    };
    let target = |name: &str| item(&["t", name], ItemKind::Struct);
    // Three edits are too many, however long the name is.
    assert_eq!(find_drift_match(&target("abcdefghijklmnopqrst"), &shadow(&["abcdefghijklmnopqxyz"])), None);
    let two = find_drift_match(&target("abcdefghijklmnopqrst"), &shadow(&["abcdefghijklmnopqryz"]));
    assert_eq!(two, Some((0, DriftScore { distance: 2, length: 20 })));
    // Two edits are few enough, however short the name is.
    assert_eq!(
        find_drift_match(&target("Abc"), &shadow(&["Abd"])),
        Some((0, DriftScore { distance: 1, length: 3 }))
    );
    assert_eq!(
        find_drift_match(&target("a"), &shadow(&["xy"])),
        Some((0, DriftScore { distance: 2, length: 2 }))
    );
    assert_eq!(
        find_drift_match(&target("abcd"), &shadow(&["abce"])),
        Some((0, DriftScore { distance: 1, length: 4 }))
    );
    // The best candidate of the same kind wins.
    let mut list = shadow(&["widgett", "widgets", "widget2d"]);
    list[0].kind = ItemKind::Enum;
    assert_eq!(
        find_drift_match(&target("widget"), &list),
        Some((1, DriftScore { distance: 1, length: 7 }))
    );
}

#[test]
fn names_are_normalized_to_lower_snake_case() {
    assert_eq!(to_snake_case("Vec3Aligned"), "vec3_aligned");
    assert_eq!(to_snake_case("HTTPClient"), "h_t_t_p_client");
    assert_eq!(to_snake_case("already_snake"), "already_snake");
    assert_eq!(to_snake_case(""), "");
    assert_eq!(to_snake_case("ÄÖ"), "ä_ö");
    assert_eq!(normalize_name("TcpStream"), "tcp_stream");
}

#[test]
fn edit_distance_is_a_metric_on_samples() {
    assert_eq!(edit_distance("kitten", "sitting"), 3);
    assert_eq!(edit_distance("", "abc"), 3);
    assert_eq!(edit_distance("abc", ""), 3);
    assert_eq!(edit_distance("flaw", "lawn"), 2);
    assert_eq!(edit_distance("same", "same"), 0);
    assert_eq!(edit_distance("lawn", "flaw"), edit_distance("flaw", "lawn"));
}

#[test]
fn capitals_are_spaced_but_for_the_first() {
    let letters = vec![(true, 'v'), (false, 'e'), (true, 'c'), (false, '3')];
    assert_eq!(space_letters(&letters), "ve_c3");
    assert_eq!(space_letters(&Vec::new()), "");
}

#[test]
fn names_drift_by_two_edits_at_most() {
    assert_eq!(score_names("vec3", "vec4"), Some(DriftScore { distance: 1, length: 4 }));
    assert_eq!(score_names("vec", "vet"), Some(DriftScore { distance: 1, length: 3 }));
    assert_eq!(score_names("abcdefgh", "abcdefxy"), Some(DriftScore { distance: 2, length: 8 }));
    assert_eq!(score_names("abcdefghijkl", "abcdefghixyz"), None);
    assert_eq!(score_names("", ""), None);
    assert_eq!(score_names("\u{e9}\u{e9}", "\u{e9}e"), Some(DriftScore { distance: 1, length: 4 }));
}

#[test]
fn distances_are_least_and_take_no_shortcuts() {
    assert_eq!(edit_distance("kitten", "sitting"), 3);
    assert_eq!(edit_distance("flaw", "lawn"), 2);
    let names = ["", "a", "ab", "ba", "abc", "kitten", "sitting", "mitten"];
    for a in names {
        for b in names {
            for c in names {
                assert!(edit_distance(a, c) <= edit_distance(a, b) + edit_distance(b, c));
            }
        }
    }
}
