use elicit_doc::gaps::{ImplGapEntry, ImplGapKind, ShadowGapEntry, ShadowGapKind};
use elicit_doc::summary::{
    summarize_impl_reports, summarize_shadow_reports, total_impl_summary, write_summary_md,
    ImplSummary, ImplTotals, ShadowSkippedPair, ShadowSummary,
};
use elicit_doc::{
    ImplCoverageEntry, ImplCoverageReport, ImplStatus, ItemKind, ShadowReport, TestStatus,
    TraitPrereqs, WrapperCoverage, WrapperCoverageMap,
};

fn percent(part: u128, whole: u128, empty: f32) -> String {
    let share = if whole == 0 { empty } else { part as f32 / whole as f32 * 100.0 };
    format!("{share:.1}")
}

fn summary_of(
    impl_reports: &Vec<(String, ImplCoverageReport)>,
    impl_gaps: &Vec<ImplGapEntry>,
    wrappers: Option<&WrapperCoverageMap>,
    shadow_reports: &Vec<(String, String, ShadowReport)>,
    shadow_gaps: &Vec<ShadowGapEntry>,
    skipped: Vec<ShadowSkippedPair>,
) -> String {
    let mut rows: Vec<ImplSummary> = summarize_impl_reports(impl_reports, wrappers);
    for row in &mut rows {
        row.coverage = percent(row.our_traits_done as u128, row.types as u128, 0.0);
    }
    let mut total: ImplTotals = total_impl_summary(&rows);
    total.coverage = percent(total.our_traits_done, total.types, 0.0);
    let mut shadow_rows: Vec<ShadowSummary> = summarize_shadow_reports(shadow_reports);
    for row in &mut shadow_rows {
        row.coverage = percent(row.covered + row.drifted, row.total, 100.0);
    }
    write_summary_md("2026-01-31", &rows, &total, impl_gaps, &shadow_rows, shadow_gaps, skipped)
}

fn empty_report(name: &str) -> (String, ImplCoverageReport) {
    (
        name.to_string(),
        ImplCoverageReport {
            source_crate: name.to_string(),
            source_version: "1.0.0".to_string(),
            entries: Vec::new(),
            complete_count: 0,
            missing_impl_count: 0,
            missing_test_count: 0,
            flagged_concrete_count: 0,
        },
    )
}

fn empty_shadow(name: &str, shadow: &str) -> (String, String, ShadowReport) {
    (
        name.to_string(),
        shadow.to_string(),
        ShadowReport {
            target_crate: name.to_string(),
            target_version: "1.0.0".to_string(),
            shadow_crate: shadow.to_string(),
            shadow_version: "1.0.0".to_string(),
            rows: Vec::new(),
            covered_count: 0,
            missing_count: 0,
            extra_count: 0,
            drifted_count: 0,
            total_count: 0,
            verification_gap_count: 0,
        },
    )
}

#[test]
fn summary_sorts_impl_and_shadow_sections_alphabetically() {
    let impl_reports = vec![empty_report("url"), empty_report("chrono"), empty_report("reqwest")];
    let shadow_reports = vec![
        empty_shadow("url", "elicit_url"),
        empty_shadow("chrono", "elicit_chrono"),
        empty_shadow("reqwest", "elicit_reqwest"),
    ];

    let summary = summary_of(
        &impl_reports,
        &Vec::new(),
        None,
        &shadow_reports,
        &Vec::new(),
        Vec::new(),
    );
    let impl_chrono = summary.find("| `chrono` | 1.0.0 |");
    let impl_reqwest = summary.find("| `reqwest` | 1.0.0 |");
    let impl_url = summary.find("| `url` | 1.0.0 |");
    assert!(impl_chrono.is_some(), "chrono impl row");
    assert!(impl_reqwest.is_some(), "reqwest impl row");
    assert!(impl_url.is_some(), "url impl row");
    let impl_chrono = impl_chrono.unwrap_or_default();
    let impl_reqwest = impl_reqwest.unwrap_or_default();
    let impl_url = impl_url.unwrap_or_default();
    assert!(impl_chrono < impl_reqwest);
    assert!(impl_reqwest < impl_url);

    let shadow_chrono = summary.find("| `chrono` | 1.0.0 | `elicit_chrono` |");
    let shadow_reqwest = summary.find("| `reqwest` | 1.0.0 | `elicit_reqwest` |");
    let shadow_url = summary.find("| `url` | 1.0.0 | `elicit_url` |");
    assert!(shadow_chrono.is_some(), "chrono shadow row");
    assert!(shadow_reqwest.is_some(), "reqwest shadow row");
    assert!(shadow_url.is_some(), "url shadow row");
    let shadow_chrono = shadow_chrono.unwrap_or_default();
    let shadow_reqwest = shadow_reqwest.unwrap_or_default();
    let shadow_url = shadow_url.unwrap_or_default();
    assert!(shadow_chrono < shadow_reqwest);
    assert!(shadow_reqwest < shadow_url);
}

fn entry(
    type_path: &str,
    lifetimes: &[&str],
    elicit_impl: ImplStatus,
    prereqs: TraitPrereqs,
) -> ImplCoverageEntry {
    ImplCoverageEntry {
        type_path: type_path.to_string(),
        type_kind: ItemKind::Struct,
        is_generic: !lifetimes.is_empty(),
        lifetime_params: lifetimes.iter().map(|l| l.to_string()).collect(),
        type_params: Vec::new(),
        elicit_impl,
        proof_test: TestStatus::Missing,
        composition_test: TestStatus::Missing,
        prereqs,
        notes: String::new(),
    }
}

#[test]
fn summary_uses_effective_coverage_not_only_direct_elicit_complete() {
    let all = TraitPrereqs {
        serialize: true,
        deserialize: true,
        json_schema: true,
        elicitation_trait: true,
        elicit_introspect: true,
        elicit_spec: true,
        elicit_prompt_tree: true,
        to_code_literal: true,
    };
    let mut direct = entry("example::Direct", &[], ImplStatus::Complete, all);
    direct.proof_test = TestStatus::Covered;
    direct.composition_test = TestStatus::Covered;
    let impl_reports = vec![(
        "example".to_string(),
        ImplCoverageReport {
            source_crate: "example".to_string(),
            source_version: "1.0.0".to_string(),
            entries: vec![
                direct,
                entry(
                    "example::Blocked",
                    &[],
                    ImplStatus::Missing,
                    TraitPrereqs { serialize: false, deserialize: false, json_schema: false, ..all },
                ),
                entry(
                    "example::Borrowed",
                    &["'a"],
                    ImplStatus::Missing,
                    TraitPrereqs { elicitation_trait: false, elicit_introspect: false, ..all },
                ),
                entry(
                    "example::Gap",
                    &[],
                    ImplStatus::Missing,
                    TraitPrereqs { elicit_spec: false, ..all },
                ),
            ],
            complete_count: 1,
            missing_impl_count: 3,
            missing_test_count: 3,
            flagged_concrete_count: 0,
        },
    )];

    let summary =
        summary_of(&impl_reports, &Vec::new(), None, &Vec::new(), &Vec::new(), Vec::new());
    assert!(
        summary.contains("| `example` | 1.0.0 | 4 | 3 | 1 | 1 | 0 | 1 | 75.0% |"),
        "summary should count effective coverage, not only direct ElicitComplete:\n{summary}"
    );
    assert!(
        summary.contains(
            "| **Total** | | **4** | **3** | **1** | **1** | **0** | **1** | **75.0%** |"
        ),
        "total row should use effective coverage:\n{summary}"
    );
}

#[test]
fn summary_counts_wrapper_coverage_as_done() {
    let impl_reports = vec![(
        "reqwest".to_string(),
        ImplCoverageReport {
            source_crate: "reqwest".to_string(),
            source_version: "1.0.0".to_string(),
            entries: vec![entry(
                "reqwest::Client",
                &[],
                ImplStatus::Missing,
                TraitPrereqs::default(),
            )],
            complete_count: 0,
            missing_impl_count: 1,
            missing_test_count: 1,
            flagged_concrete_count: 0,
        },
    )];
    let wrapper_coverage: WrapperCoverageMap = vec![(
        "reqwest::Client".to_string(),
        vec![WrapperCoverage {
            wrapper_path: "elicitation::ReqwestClientCoat".to_string(),
            wrapper_elicit_complete: true,
            wrapper_prereqs: TraitPrereqs {
                serialize: true,
                deserialize: true,
                json_schema: true,
                elicitation_trait: true,
                elicit_introspect: true,
                elicit_spec: true,
                elicit_prompt_tree: true,
                to_code_literal: true,
            },
        }],
    )];

    let summary = summary_of(
        &impl_reports,
        &Vec::new(),
        Some(&wrapper_coverage),
        &Vec::new(),
        &Vec::new(),
        Vec::new(),
    );
    assert!(
        summary.contains("| `reqwest` | 1.0.0 | 1 | 1 | 0 | 0 | 0 | 0 | 100.0% |"),
        "summary should treat wrapper coverage as complete:\n{summary}"
    );
}

#[test]
fn sections_appear_only_with_reports() {
    let nothing =
        summary_of(&Vec::new(), &Vec::new(), None, &Vec::new(), &Vec::new(), Vec::new());
    assert_eq!(
        nothing,
        "# elicitation Coverage Summary\n\n_Generated: 2026-01-31_\n\n---\n\n"
    );
    let gap = ImplGapEntry {
        source_crate: "url".to_string(),
        type_path: "url::Url".to_string(),
        type_kind: ItemKind::Struct,
        is_generic: false,
        gap_kind: ImplGapKind::FeatureGatedExternal,
        missing_external_traits: String::new(),
        missing_our_traits: String::new(),
        our_traits_complete: true,
        coverage_provider: String::new(),
        wrapper_paths: String::new(),
        can_be_direct: false,
        elicit_complete_gap: false,
        feature_gated_external: true,
        blocked_by_orphan_rule: false,
        feature_owner_crate: "url".to_string(),
        candidate_unlock_features: "serde".to_string(),
        action: String::new(),
    };
    let skipped = vec![ShadowSkippedPair {
        upstream_crate: "polars".to_string(),
        shadow_crate: "elicit_polars".to_string(),
        error: "gone".to_string(),
    }];
    let full = summary_of(
        &vec![empty_report("url")],
        &vec![gap],
        None,
        &vec![empty_shadow("url", "elicit_url")],
        &Vec::new(),
        skipped,
    );
    assert!(full.contains("## Impl Coverage\n\n"));
    assert!(full.contains("| `url` | 1.0.0 | 0 | 0 | 0 | 0 | 0 | 0 | 0.0% |\n"));
    assert!(full.contains("| FeatureGatedExternal | 1 | "));
    assert!(full.contains("| **Total** | **1** | |\n"));
    assert!(full.contains("| `url` | 1.0.0 | `elicit_url` | 0 | 0 | 0 | 0 | 100.0% |\n"));
    assert!(!full.contains("### Shadow Gaps"));
    assert!(full.contains("elicit_polars"));
    assert!(full.contains("gone"));
}

fn impl_gaps(counts: &[(ImplGapKind, usize)]) -> Vec<ImplGapEntry> {
    let mut list = Vec::new();
    for (kind, count) in counts {
        for _ in 0..*count {
            list.push(ImplGapEntry {
                source_crate: "a".to_string(),
                type_path: "a::A".to_string(),
                type_kind: ItemKind::Struct,
                is_generic: false,
                gap_kind: *kind,
                missing_external_traits: String::new(),
                missing_our_traits: String::new(),
                our_traits_complete: false,
                coverage_provider: String::new(),
                wrapper_paths: String::new(),
                can_be_direct: false,
                elicit_complete_gap: false,
                feature_gated_external: false,
                blocked_by_orphan_rule: false,
                feature_owner_crate: String::new(),
                candidate_unlock_features: String::new(),
                action: String::new(),
            });
        }
    }
    list
}

fn shadow_gaps(counts: &[(ShadowGapKind, usize)]) -> Vec<ShadowGapEntry> {
    let mut list = Vec::new();
    for (kind, count) in counts {
        for _ in 0..*count {
            list.push(ShadowGapEntry {
                target_crate: "a".to_string(),
                shadow_crate: "s".to_string(),
                item_path: "a::A".to_string(),
                item_kind: ItemKind::Struct,
                gap_kind: *kind,
                matched_shadow_item: String::new(),
                drift_confidence: String::new(),
                shadow_elicit_impl: String::new(),
                shadow_can_be_direct: String::new(),
                shadow_missing_external_traits: String::new(),
                shadow_missing_our_traits: String::new(),
                action: String::new(),
                notes: String::new(),
            });
        }
    }
    list
}

#[test]
fn a_summary_is_exact() {
    let row = |name: &str, version: &str, n: [u64; 6], coverage: &str| ImplSummary {
        source_crate: name.to_string(),
        source_version: version.to_string(),
        types: n[0],
        our_traits_done: n[1],
        missing_our_traits: n[2],
        complete: n[3],
        elicit_complete_gap: n[4],
        externally_blocked: n[5],
        coverage: coverage.to_string(),
    };
    let rows = vec![
        row("accesskit", "0.24.0", [30, 27, 3, 27, 0, 0], "90.0"),
        row("elicitation", "0.11.1", [295, 142, 153, 7, 0, 0], "48.1"),
        row("reqwest", "0.13.4", [22, 13, 9, 1, 0, 9], "59.1"),
    ];
    let mut total = total_impl_summary(&rows);
    total.coverage = percent(total.our_traits_done, total.types, 0.0);
    let shadow = |name: &str, version: &str, shadow: &str, n: [u128; 4], coverage: &str| ShadowSummary {
        target_crate: name.to_string(),
        target_version: version.to_string(),
        shadow_crate: shadow.to_string(),
        covered: n[0],
        drifted: n[1],
        total: n[2],
        verification_gaps: n[3],
        coverage: coverage.to_string(),
    };
    let shadow_rows = vec![
        shadow("bevy", "0.19.0", "elicit_bevy", [10, 1, 137, 0], "8.0"),
        shadow("rstar", "0.13.0", "elicit_rstar", [0, 0, 0, 0], "100.0"),
    ];
    let pair = |upstream: &str, shadow: &str, error: &str| ShadowSkippedPair {
        upstream_crate: upstream.to_string(),
        shadow_crate: shadow.to_string(),
        error: error.to_string(),
    };
    let summary = write_summary_md(
        "2026-06-26",
        &rows,
        &total,
        &impl_gaps(&[
            (ImplGapKind::MissingOurTraits, 165),
            (ImplGapKind::ReadyForElicitComplete, 2),
            (ImplGapKind::FeatureGatedExternal, 1),
        ]),
        &shadow_rows,
        &shadow_gaps(&[
            (ShadowGapKind::Missing, 126),
            (ShadowGapKind::Drifted, 5),
            (ShadowGapKind::PossiblyStale, 4),
            (ShadowGapKind::InfrastructureExtra, 3),
            (ShadowGapKind::ShadowVerificationGap, 2),
        ]),
        vec![pair("tower", "elicit_tower", "no such file"), pair("clap", "elicit_clap", "exit status: 101")],
    );
    let expected = [
        "# elicitation Coverage Summary",
        "",
        "_Generated: 2026-06-26_",
        "",
        "---",
        "",
        "## Impl Coverage",
        "",
        "| Crate | Version | Types | OurTraitsDone | MissingOurTraits | ElicitComplete | ElicitCompleteGap | ExternallyBlocked | Coverage |",
        "|-------|---------|------:|--------------:|-----------------:|---------------:|------------------:|------------------:|---------:|",
        "| `accesskit` | 0.24.0 | 30 | 27 | 3 | 27 | 0 | 0 | 90.0% |",
        "| `elicitation` | 0.11.1 | 295 | 142 | 153 | 7 | 0 | 0 | 48.1% |",
        "| `reqwest` | 0.13.4 | 22 | 13 | 9 | 1 | 0 | 9 | 59.1% |",
        "| **Total** | | **347** | **182** | **165** | **35** | **0** | **9** | **52.4%** |",
        "",
        "`OurTraitsDone` counts effective trait coverage. A trait counts when it is satisfied either directly on the target type or indirectly via a wrapper that deductively covers that target. Lifetime-bound types such as `Pixels<'a, R>` are still not expected to implement `Elicitation` or `ElicitIntrospect` directly because `Elicitation` requires `'static`.",
        "",
        "`Coverage` uses that same effective-coverage rule. A type counts as covered when every elicitation-owned trait that should exist for that target is present, either directly or through wrapper coverage, even if direct `ElicitComplete` is blocked by lifetimes or the orphan rule.",
        "",
        "`ExternallyBlocked` counts true orphan-rule blockers only: the implementable elicitation-owned traits are present, but direct `ElicitComplete` is blocked by missing `Serialize`, `Deserialize`, or `JsonSchema` on the target type. Lifetime-bound rows still count toward `Coverage` when every implementable elicitation-owned trait is present, but they are not counted as external blockers.",
        "",
        "### Impl Gaps",
        "",
        "| Kind | Count | Notes |",
        "|------|------:|-------|",
        "| MissingOurTraits | 165 | Missing one or more elicitation-owned support traits |",
        "| ReadyForElicitComplete | 2 | All prerequisites present; only `impl ElicitComplete` is missing |",
        "| FeatureGatedExternal | 1 | Missing external serde/schemars traits may be unlockable with more features |",
        "| **Total** | **168** | |",
        "",
        "---",
        "",
        "## Shadow Coverage",
        "",
        "| Upstream | Version | Shadow Crate | Covered | Drifted | Total | VerificationGaps | Coverage |",
        "|----------|---------|-------------|--------:|--------:|------:|-----------------:|---------:|",
        "| `bevy` | 0.19.0 | `elicit_bevy` | 10 | 1 | 137 | 0 | 8.0% |",
        "| `rstar` | 0.13.0 | `elicit_rstar` | 0 | 0 | 0 | 0 | 100.0% |",
        "",
        "### Shadow Gaps",
        "",
        "| Kind | Count | Notes |",
        "|------|------:|-------|",
        "| Missing | 126 | Upstream public item not yet shadowed |",
        "| Drifted | 5 | Probable rename or naming drift in the shadow crate |",
        "| PossiblyStale | 4 | Shadow item with no matching upstream — needs audit |",
        "| InfrastructureExtra | 3 | Shadow-only infrastructure item — expected |",
        "| ShadowVerificationGap | 2 | Matched shadow type exists but is not yet `ElicitComplete`-ready |",
        "| **Total** | **140** | |",
        "",
        "### Skipped Shadow Crates",
        "",
        "| Upstream | Shadow Crate | Error |",
        "|----------|--------------|-------|",
        "| `clap` | `elicit_clap` | exit status: 101 |",
        "| `tower` | `elicit_tower` | no such file |",
        "",
        "",
    ]
    .join("\n");
    assert_eq!(summary, expected);
}

#[test]
fn summary_counts_traits_that_are_there_and_gaps_of_types_without_an_impl() {
    let all = TraitPrereqs {
        serialize: true,
        deserialize: true,
        json_schema: true,
        elicitation_trait: true,
        elicit_introspect: true,
        elicit_spec: true,
        elicit_prompt_tree: true,
        to_code_literal: true,
    };
    let (name, mut report) = empty_report("example");
    report.entries = vec![
        entry("example::Marked", &[], ImplStatus::Complete, TraitPrereqs::default()),
        entry("example::Partly", &[], ImplStatus::Partial, all),
        entry("example::Ready", &[], ImplStatus::Missing, all),
    ];
    report.complete_count = 1;
    let rows = summarize_impl_reports(&vec![(name, report)], None);
    assert_eq!(rows.len(), 1);
    assert_eq!(rows[0].types, 3);
    assert_eq!(rows[0].our_traits_done, 2);
    assert_eq!(rows[0].missing_our_traits, 1);
    assert_eq!(rows[0].elicit_complete_gap, 1);
    assert_eq!(rows[0].externally_blocked, 0);
}
