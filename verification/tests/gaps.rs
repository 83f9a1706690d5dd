use elicit_doc::collect::{ElicitCompleteSet, TraitPrereqs, TypeFeatureProbe};
use elicit_doc::gaps::{
    assess_impl_entry, assess_shadow_row, build_impl_gaps, build_shadow_gaps,
    is_infrastructure_name, ImplGapKind, ImplRowKind, ProbeTables, ShadowCoverageKind,
    ShadowGapKind,
};
use elicit_doc::impl_coverage::{ImplCoverageEntry, ImplCoverageReport, ImplStatus, TestStatus};
use elicit_doc::inventory::{Inventory, Item, ItemKind};
use elicit_doc::shadow::{build_shadow_report, ShadowReport, ShadowRow, ShadowStatus};
use elicit_doc::trenchcoat::{WrapperCoverage, WrapperCoverageMap};

fn no_probes() -> ProbeTables {
    Vec::new()
}

fn no_wrappers() -> WrapperCoverageMap {
    Vec::new()
}

fn all_traits() -> TraitPrereqs {
    TraitPrereqs {
        serialize: true,
        deserialize: true,
        json_schema: true,
        elicitation_trait: true,
        elicit_introspect: true,
        elicit_spec: true,
        elicit_prompt_tree: true,
        to_code_literal: true,
    }
}

fn our_traits() -> TraitPrereqs {
    TraitPrereqs { serialize: false, deserialize: false, json_schema: false, ..all_traits() }
}

fn entry_for(type_path: &str, prereqs: TraitPrereqs) -> ImplCoverageEntry {
    ImplCoverageEntry {
        type_path: type_path.to_string(),
        type_kind: ItemKind::Struct,
        is_generic: false,
        lifetime_params: Vec::new(),
        type_params: Vec::new(),
        elicit_impl: ImplStatus::Missing,
        proof_test: TestStatus::Missing,
        composition_test: TestStatus::Missing,
        prereqs,
        notes: String::new(),
    }
}

fn impl_report_for(prereqs: TraitPrereqs) -> ImplCoverageReport {
    ImplCoverageReport {
        source_crate: "reqwest".to_string(),
        source_version: "1.0.0".to_string(),
        entries: vec![entry_for("reqwest::Client", prereqs)],
        complete_count: 0,
        missing_impl_count: 1,
        missing_test_count: 1,
        flagged_concrete_count: 0,
    }
}

fn row(item_path: &str, status: ShadowStatus) -> ShadowRow {
    ShadowRow {
        item_path: item_path.to_string(),
        item_kind: ItemKind::Struct,
        status,
        shadow_item: String::new(),
        drift: None,
        drift_confidence: String::new(),
        shadow_elicit_impl: String::new(),
        shadow_can_be_direct: String::new(),
        shadow_missing_external_traits: String::new(),
        shadow_missing_our_traits: String::new(),
        notes: String::new(),
    }
}

fn shadow_report(rows: Vec<ShadowRow>) -> ShadowReport {
    ShadowReport {
        target_crate: "reqwest".to_string(),
        target_version: "1.0.0".to_string(),
        shadow_crate: "elicit_reqwest".to_string(),
        shadow_version: "1.0.0".to_string(),
        rows,
        covered_count: 1,
        missing_count: 0,
        extra_count: 0,
        drifted_count: 0,
        total_count: 1,
        verification_gap_count: 1,
    }
}

#[test]
fn skips_orphan_blocked_everything_but_types() {
    let report = impl_report_for(TraitPrereqs {
        serialize: false,
        deserialize: false,
        json_schema: false,
        elicitation_trait: true,
        elicit_introspect: true,
        elicit_spec: true,
        elicit_prompt_tree: true,
        to_code_literal: true,
    });

    let gaps = build_impl_gaps(&vec![("reqwest", &report)], &no_probes(), &no_wrappers());
    assert!(gaps.is_empty());
}

#[test]
fn flags_missing_our_traits_even_when_direct_impl_is_blocked() {
    let report = impl_report_for(TraitPrereqs {
        serialize: false,
        deserialize: false,
        json_schema: false,
        elicitation_trait: true,
        elicit_introspect: false,
        elicit_spec: true,
        elicit_prompt_tree: false,
        to_code_literal: true,
    });

    let gaps = build_impl_gaps(&vec![("reqwest", &report)], &no_probes(), &no_wrappers());
    assert_eq!(gaps.len(), 1);
    assert_eq!(gaps[0].gap_kind, ImplGapKind::MissingOurTraits);
    assert_eq!(gaps[0].missing_our_traits, "ElicitIntrospect;ElicitPromptTree");
    assert!(gaps[0].blocked_by_orphan_rule);
    assert!(!gaps[0].can_be_direct);
}

#[test]
fn lifetime_bound_types_only_flag_implementable_trait_gaps() {
    let report = ImplCoverageReport {
        source_crate: "georaster".to_string(),
        source_version: "1.0.0".to_string(),
        entries: vec![ImplCoverageEntry {
            type_path: "georaster::geotiff::Pixels".to_string(),
            type_kind: ItemKind::Struct,
            is_generic: true,
            lifetime_params: vec!["'a".to_string()],
            type_params: vec!["R".to_string()],
            elicit_impl: ImplStatus::Missing,
            proof_test: TestStatus::Missing,
            composition_test: TestStatus::Missing,
            prereqs: TraitPrereqs {
                serialize: true,
                deserialize: true,
                json_schema: true,
                elicitation_trait: false,
                elicit_introspect: false,
                elicit_spec: false,
                elicit_prompt_tree: true,
                to_code_literal: true,
            },
            notes: String::new(),
        }],
        complete_count: 0,
        missing_impl_count: 1,
        missing_test_count: 1,
        flagged_concrete_count: 0,
    };

    let gaps = build_impl_gaps(&vec![("georaster", &report)], &no_probes(), &no_wrappers());
    assert_eq!(gaps.len(), 1);
    assert_eq!(gaps[0].gap_kind, ImplGapKind::MissingOurTraits);
    assert_eq!(gaps[0].missing_our_traits, "ElicitSpec");
    assert!(!gaps[0].can_be_direct);
    assert!(!gaps[0].blocked_by_orphan_rule);
    assert!(!gaps[0].elicit_complete_gap);
}

#[test]
fn flags_ready_for_elicit_complete_when_direct_impl_is_legal() {
    let report = impl_report_for(TraitPrereqs {
        serialize: true,
        deserialize: true,
        json_schema: true,
        elicitation_trait: true,
        elicit_introspect: true,
        elicit_spec: true,
        elicit_prompt_tree: true,
        to_code_literal: true,
    });

    let gaps = build_impl_gaps(&vec![("reqwest", &report)], &no_probes(), &no_wrappers());
    assert_eq!(gaps.len(), 1);
    assert_eq!(gaps[0].gap_kind, ImplGapKind::ReadyForElicitComplete);
    assert!(gaps[0].can_be_direct);
    assert!(gaps[0].elicit_complete_gap);
}

#[test]
fn flags_feature_gated_external_only_when_probe_unlocks_direct_impl() {
    let report = impl_report_for(TraitPrereqs {
        serialize: false,
        deserialize: false,
        json_schema: false,
        elicitation_trait: true,
        elicit_introspect: false,
        elicit_spec: true,
        elicit_prompt_tree: false,
        to_code_literal: true,
    });

    let probe_for_crate = vec![(
        "reqwest::Client".to_string(),
        TypeFeatureProbe {
            feature_crate: "reqwest".to_string(),
            candidate_unlock_features: vec!["json".to_string()],
            probed_prereqs: Some(TraitPrereqs {
                serialize: true,
                deserialize: true,
                json_schema: true,
                elicitation_trait: true,
                elicit_introspect: false,
                elicit_spec: true,
                elicit_prompt_tree: false,
                to_code_literal: true,
            }),
        },
    )];
    let type_probes = vec![("reqwest".to_string(), probe_for_crate)];

    let gaps = build_impl_gaps(&vec![("reqwest", &report)], &type_probes, &no_wrappers());
    assert_eq!(gaps.len(), 1);
    assert_eq!(gaps[0].gap_kind, ImplGapKind::MissingOurTraits);
    assert!(gaps[0].feature_gated_external);
    assert!(!gaps[0].blocked_by_orphan_rule);
    assert_eq!(gaps[0].feature_owner_crate, "reqwest");
    assert_eq!(gaps[0].candidate_unlock_features, "json");
}

#[test]
fn marks_everything_but_rows_as_externally_blocked_not_gap() {
    let report = impl_report_for(TraitPrereqs {
        serialize: false,
        deserialize: false,
        json_schema: false,
        elicitation_trait: true,
        elicit_introspect: true,
        elicit_spec: true,
        elicit_prompt_tree: true,
        to_code_literal: true,
    });

    let assessment = assess_impl_entry("reqwest", &report.entries[0], None, None);
    assert_eq!(assessment.row_kind, ImplRowKind::ExternallyBlocked);
    assert!(assessment.primary_gap_kind.is_none());
    assert!(assessment.blocked_by_orphan_rule);
    assert!(assessment.action.contains("everything-but complete"));
}

#[test]
fn feature_gated_foreign_types_point_to_owner_crate() {
    let report = ImplCoverageReport {
        source_crate: "reqwest".to_string(),
        source_version: "1.0.0".to_string(),
        entries: vec![ImplCoverageEntry {
            type_path: "http::header::value::HeaderValue".to_string(),
            type_kind: ItemKind::Struct,
            is_generic: false,
            lifetime_params: Vec::new(),
            type_params: Vec::new(),
            elicit_impl: ImplStatus::Missing,
            proof_test: TestStatus::Missing,
            composition_test: TestStatus::Missing,
            prereqs: TraitPrereqs {
                serialize: false,
                deserialize: false,
                json_schema: false,
                elicitation_trait: true,
                elicit_introspect: true,
                elicit_spec: true,
                elicit_prompt_tree: true,
                to_code_literal: true,
            },
            notes: String::new(),
        }],
        complete_count: 0,
        missing_impl_count: 1,
        missing_test_count: 1,
        flagged_concrete_count: 0,
    };
    let probe = TypeFeatureProbe {
        feature_crate: "reqwest".to_string(),
        candidate_unlock_features: vec!["json".to_string()],
        probed_prereqs: Some(TraitPrereqs {
            serialize: true,
            deserialize: true,
            json_schema: true,
            elicitation_trait: true,
            elicit_introspect: true,
            elicit_spec: true,
            elicit_prompt_tree: true,
            to_code_literal: true,
        }),
    };

    let assessment = assess_impl_entry("reqwest", &report.entries[0], Some(&probe), None);

    assert_eq!(assessment.row_kind, ImplRowKind::FeatureGatedExternal);
    assert_eq!(assessment.feature_owner_crate, "reqwest");
    assert!(assessment.action.contains("`reqwest` features"));
}

#[test]
fn wrapper_elicit_complete_counts_as_effective_coverage() {
    let report = impl_report_for(TraitPrereqs {
        serialize: false,
        deserialize: false,
        json_schema: false,
        elicitation_trait: false,
        elicit_introspect: false,
        elicit_spec: false,
        elicit_prompt_tree: false,
        to_code_literal: false,
    });
    let wrappers: WrapperCoverageMap = vec![(
        "reqwest::Client".to_string(),
        vec![WrapperCoverage {
            wrapper_path: "elicitation::ReqwestClientCoat".to_string(),
            wrapper_elicit_complete: true,
            wrapper_prereqs: TraitPrereqs {
                serialize: true,
                deserialize: true,
                json_schema: true,
                elicitation_trait: true,
                elicit_introspect: true,
                elicit_spec: true,
                elicit_prompt_tree: true,
                to_code_literal: true,
            },
        }],
    )];

    let gaps = build_impl_gaps(&vec![("reqwest", &report)], &no_probes(), &wrappers);
    assert!(gaps.is_empty());

    let assessment = assess_impl_entry("reqwest", &report.entries[0], None, Some(&wrappers[0].1));
    assert_eq!(assessment.row_kind, ImplRowKind::Covered);
    assert!(assessment.covered_indirectly);
    assert_eq!(assessment.coverage_provider, "wrapper");
    assert_eq!(assessment.wrapper_paths, "elicitation::ReqwestClientCoat");
}

#[test]
fn emits_shadow_verification_gap_for_matched_but_incomplete_shadow_type() {
    let report = shadow_report(vec![ShadowRow {
        shadow_item: "elicit_reqwest::Client".to_string(),
        shadow_elicit_impl: ImplStatus::Missing.to_text(),
        shadow_can_be_direct: "true".to_string(),
        ..row("reqwest::Client", ShadowStatus::Covered)
    }]);

    let gaps_result = build_shadow_gaps(&vec![("reqwest", "elicit_reqwest", &report)]);
    assert!(gaps_result.is_ok(), "shadow gaps should build: {gaps_result:?}");
    let gaps = gaps_result.unwrap_or_default();
    let verification = gaps
        .iter()
        .find(|g| g.gap_kind == ShadowGapKind::ShadowVerificationGap)
        .cloned();
    assert!(verification.is_some(), "expected verification gap");
    let verification = verification.unwrap_or_else(|| unreachable!());

    assert_eq!(verification.item_path, "reqwest::Client");
    assert_eq!(verification.matched_shadow_item, "elicit_reqwest::Client");
}

#[test]
fn classifies_shadow_extras_between_stale_and_infrastructure() {
    let stale = row("elicit_reqwest::workflow::FetchResult", ShadowStatus::Extra);
    let infra = row("elicit_reqwest::client::GetParams", ShadowStatus::Extra);

    let stale_assessment = assess_shadow_row(&stale);
    let infra_assessment = assess_shadow_row(&infra);
    assert_eq!(stale_assessment.coverage_kind, ShadowCoverageKind::PossiblyStale);
    assert_eq!(infra_assessment.coverage_kind, ShadowCoverageKind::InfrastructureExtra);
}

#[test]
fn actions_name_what_is_left_to_do() {
    let partly = TraitPrereqs { elicit_spec: false, ..all_traits() };
    let direct = assess_impl_entry("reqwest", &entry_for("reqwest::Client", partly), None, None);
    assert_eq!(
        direct.action,
        "Add direct support traits to `reqwest::Client`: ElicitSpec; then add `impl ElicitComplete`"
    );
    assert_eq!(direct.blocked_reason, "");
    assert_eq!(direct.feature_owner_crate, "reqwest");

    let blocked = TraitPrereqs { serialize: false, json_schema: false, ..partly };
    let a = assess_impl_entry("reqwest", &entry_for("reqwest::Client", blocked), None, None);
    assert_eq!(
        a.action,
        "Add our traits to `reqwest::Client`: ElicitSpec; external blockers remain: Serialize(absent), JsonSchema(absent)."
    );
    assert_eq!(
        a.blocked_reason,
        "orphan rule blocks direct `ElicitComplete` until upstream provides: Serialize(absent), JsonSchema(absent)"
    );
    assert_eq!(a.missing_external_traits, "Serialize(absent);JsonSchema(absent)");

    let probe = TypeFeatureProbe {
        feature_crate: "reqwest".to_string(),
        candidate_unlock_features: vec!["json".to_string(), "serde".to_string()],
        probed_prereqs: Some(all_traits()),
    };
    let gated = assess_impl_entry("http", &entry_for("http::Uri", blocked), Some(&probe), None);
    assert_eq!(
        gated.action,
        "Add support traits to `http::Uri`: ElicitSpec; also enable `reqwest` features: json, serde."
    );
    assert_eq!(
        gated.blocked_reason,
        "workspace is not enabling candidate `reqwest` features that may unlock external traits: json, serde"
    );
    assert_eq!(gated.candidate_unlock_features, "json;serde");

    let unlocked = assess_impl_entry("http", &entry_for("http::Uri", our_traits()), Some(&probe), None);
    assert_eq!(
        unlocked.action,
        "Enable additional `reqwest` features in the workspace: json, serde; then re-check whether `ElicitComplete` becomes legal for `http::Uri`"
    );

    let ready = assess_impl_entry("http", &entry_for("http::Uri", all_traits()), None, None);
    assert_eq!(ready.action, "Add `impl ElicitComplete for http::Uri {}` in elicitation crate");
    assert_eq!(ready.coverage_provider, "direct");

    let except = assess_impl_entry("http", &entry_for("http::Uri", our_traits()), None, None);
    assert_eq!(
        except.action,
        "`http::Uri` is everything-but complete. Do not flag missing `ElicitComplete`; direct impl is blocked by upstream traits: Serialize(absent), Deserialize(absent), JsonSchema(absent)"
    );
}

#[test]
fn incomplete_wrappers_shorten_the_list_of_missing_traits() {
    let none = TraitPrereqs::default();
    let wrappers = vec![
        WrapperCoverage {
            wrapper_path: "elicitation::A".to_string(),
            wrapper_elicit_complete: false,
            wrapper_prereqs: TraitPrereqs { elicit_spec: true, ..none },
        },
        WrapperCoverage {
            wrapper_path: "elicitation::B".to_string(),
            wrapper_elicit_complete: false,
            wrapper_prereqs: TraitPrereqs { to_code_literal: true, ..none },
        },
    ];
    let a = assess_impl_entry("url", &entry_for("url::Url", none), None, Some(&wrappers));
    assert_eq!(a.row_kind, ImplRowKind::MissingOurTraits);
    assert_eq!(a.missing_our_traits, "Elicitation;ElicitIntrospect;ElicitPromptTree");
    assert_eq!(
        a.direct_missing_our_traits,
        "Elicitation;ElicitIntrospect;ElicitSpec;ElicitPromptTree;ToCodeLiteral"
    );
    assert_eq!(a.wrapper_paths, "elicitation::A;elicitation::B");
    assert!(!a.covered_indirectly);
    assert_eq!(
        a.action,
        "Finish indirect coverage for `url::Url` by completing wrapper-provided traits: Elicitation, ElicitIntrospect, ElicitPromptTree. Known wrappers for indirect coverage: elicitation::A, elicitation::B."
    );
    assert_eq!(
        a.blocked_reason,
        "wrapper coverage reduces direct trait gaps; remaining uncovered traits: Elicitation, ElicitIntrospect, ElicitPromptTree (wrappers: elicitation::A, elicitation::B)"
    );
    let full = vec![WrapperCoverage {
        wrapper_path: "elicitation::C".to_string(),
        wrapper_elicit_complete: false,
        wrapper_prereqs: our_traits(),
    }];
    let b = assess_impl_entry("url", &entry_for("url::Url", none), None, Some(&full));
    assert!(b.covered_indirectly && b.our_traits_complete && !b.direct_our_traits_complete);
    assert_eq!(b.coverage_provider, "wrapper");
    assert_eq!(b.row_kind, ImplRowKind::ExternallyBlocked);
}

#[test]
fn complete_types_are_covered_and_lifetimes_block_elicitation() {
    let mut entry = entry_for("a::A", TraitPrereqs::default());
    entry.elicit_impl = ImplStatus::CompleteFactory;
    let covered = assess_impl_entry("a", &entry, None, None);
    assert_eq!(covered.row_kind, ImplRowKind::Covered);
    assert!(covered.our_traits_complete && covered.action.is_empty());
    assert_eq!(covered.coverage_provider, "direct");

    let mut borrowed = entry_for("a::B", all_traits());
    borrowed.lifetime_params = vec!["'a".to_string()];
    borrowed.prereqs.elicitation_trait = false;
    let b = assess_impl_entry("a", &borrowed, None, None);
    assert_eq!(b.row_kind, ImplRowKind::ExternallyBlocked);
    assert!(!b.blocked_by_orphan_rule);
    assert_eq!(
        b.blocked_reason,
        "lifetime-bound type: direct `ElicitComplete` is illegal because `Elicitation` requires `'static`"
    );
}

#[test]
fn gaps_come_by_kind_then_crate_then_path() {
    let lacking = TraitPrereqs { elicit_spec: false, ..all_traits() };
    let report = |entries: Vec<ImplCoverageEntry>| ImplCoverageReport {
        source_crate: "any".to_string(),
        source_version: "1.0.0".to_string(),
        entries,
        complete_count: 0,
        missing_impl_count: 0,
        missing_test_count: 0,
        flagged_concrete_count: 0,
    };
    let url = report(vec![entry_for("url::Z", all_traits()), entry_for("url::A", lacking)]);
    let http = report(vec![entry_for("http::B", lacking), entry_for("http::C", all_traits())]);
    let gaps = build_impl_gaps(&vec![("url", &url), ("http", &http)], &no_probes(), &no_wrappers());
    let found: Vec<(ImplGapKind, &str)> =
        gaps.iter().map(|g| (g.gap_kind, g.type_path.as_str())).collect();
    assert_eq!(
        found,
        vec![
            (ImplGapKind::MissingOurTraits, "http::B"),
            (ImplGapKind::MissingOurTraits, "url::A"),
            (ImplGapKind::ReadyForElicitComplete, "http::C"),
            (ImplGapKind::ReadyForElicitComplete, "url::Z"),
        ]
    );
}

#[test]
fn shadow_rows_are_assessed_by_status() {
    let missing = assess_shadow_row(&row("a::A", ShadowStatus::Missing));
    assert_eq!(missing.primary_gap_kind, Some(ShadowGapKind::Missing));
    assert_eq!(
        missing.action,
        "Add a shadow for upstream `a::A` and make the new wrapper `ElicitComplete`"
    );
    let mut function = row("a::f", ShadowStatus::Missing);
    function.item_kind = ItemKind::Function;
    assert_eq!(
        assess_shadow_row(&function).action,
        "Add a shadow item for upstream `a::f` so the full public API surface is represented"
    );
    let mut drifted = row("a::A", ShadowStatus::Drifted);
    drifted.shadow_item = "s::B".to_string();
    drifted.shadow_missing_our_traits = "Elicitation;ElicitSpec".to_string();
    drifted.shadow_missing_external_traits = "Serialize(absent);JsonSchema(absent)".to_string();
    drifted.shadow_can_be_direct = "false".to_string();
    drifted.shadow_elicit_impl = "Missing".to_string();
    let d = assess_shadow_row(&drifted);
    assert!(d.verification_gap && !d.verification_ready);
    assert_eq!(
        d.action,
        "Rename or replace `s::B` so upstream `a::A` is shadowed exactly; then Finish `s::B` by adding our traits: Elicitation, ElicitSpec; also add external traits: Serialize(absent), JsonSchema(absent)"
    );
    let mut covered = row("a::A", ShadowStatus::Covered);
    covered.shadow_item = "s::A".to_string();
    covered.shadow_elicit_impl = "Missing".to_string();
    covered.shadow_can_be_direct = "true".to_string();
    assert_eq!(assess_shadow_row(&covered).action, "Add `impl ElicitComplete for s::A {}`");
    covered.shadow_can_be_direct = "false".to_string();
    covered.shadow_missing_external_traits = "JsonSchema(absent)".to_string();
    assert_eq!(
        assess_shadow_row(&covered).action,
        "Add external traits to `s::A` so it can support `ElicitComplete`: JsonSchema(absent)"
    );
    covered.shadow_elicit_impl = "CompleteFactory".to_string();
    let ready = assess_shadow_row(&covered);
    assert!(!ready.verification_gap && ready.verification_ready);
    assert_eq!(ready.action, "");
    assert_eq!(ready.primary_gap_kind, None);
    assert_eq!(
        assess_shadow_row(&row("s::Old", ShadowStatus::Extra)).action,
        "Audit `s::Old`: remove it if stale, or rename/remap it to an upstream public item"
    );
    assert_eq!(
        assess_shadow_row(&row("s::GetParams", ShadowStatus::Extra)).action,
        "Shadow-only infrastructure item; keep unless it should instead map to an upstream API item"
    );
}

#[test]
fn infrastructure_is_told_by_suffix() {
    for name in [
        "GetParams", "XParamsStyle", "APlugin", "ACtx", "ADescriptor", "AFactory", "AHook", "AJson",
    ] {
        assert!(is_infrastructure_name(name), "{name}");
    }
    assert!(!is_infrastructure_name("ParamsOf"));
    assert!(!is_infrastructure_name("params"));
}

#[test]
fn shadow_gaps_list_surface_then_completion() {
    let mut covered = row("a::C", ShadowStatus::Covered);
    covered.shadow_item = "s::C".to_string();
    covered.shadow_can_be_direct = "true".to_string();
    let report = shadow_report(vec![
        row("s::Old", ShadowStatus::Extra),
        covered,
        row("a::Z", ShadowStatus::Missing),
        row("s::XPlugin", ShadowStatus::Extra),
        row("a::A", ShadowStatus::Missing),
    ]);
    let gaps = build_shadow_gaps(&vec![("a", "s", &report)]).unwrap_or_default();
    let found: Vec<(ShadowGapKind, &str, &str)> = gaps
        .iter()
        .map(|g| (g.gap_kind, g.item_path.as_str(), g.action.as_str()))
        .collect();
    assert_eq!(
        found,
        vec![
            (ShadowGapKind::Missing, "a::A", ""),
            (ShadowGapKind::Missing, "a::Z", ""),
            (ShadowGapKind::PossiblyStale, "s::Old", ""),
            (ShadowGapKind::InfrastructureExtra, "s::XPlugin", ""),
            (ShadowGapKind::ShadowVerificationGap, "a::C", "Add `impl ElicitComplete for s::C {}`"),
        ]
    );
}

#[test]
fn gaps_are_listed_once() {
    let report = impl_report_for(our_traits_but_one());
    let pairs = vec![("reqwest", &report), ("reqwest", &report), ("other", &report)];
    let gaps = build_impl_gaps(&pairs, &no_probes(), &no_wrappers());
    let names: Vec<(&str, &str)> =
        gaps.iter().map(|g| (g.source_crate.as_str(), g.type_path.as_str())).collect();
    assert_eq!(names, vec![("other", "reqwest::Client"), ("reqwest", "reqwest::Client")]);

    let rows = vec![
        row("up::A", ShadowStatus::Missing),
        row("up::A", ShadowStatus::Missing),
        row("up::A", ShadowStatus::Drifted),
    ];
    let shadow = shadow_report(rows);
    let pairs = vec![("up", "elicit_up", &shadow), ("up", "elicit_up", &shadow)];
    match build_shadow_gaps(&pairs) {
        Ok(gaps) => {
            let kinds: Vec<ShadowGapKind> = gaps.iter().map(|g| g.gap_kind).collect();
            assert_eq!(
                kinds,
                vec![
                    ShadowGapKind::Missing,
                    ShadowGapKind::Drifted,
                    ShadowGapKind::ShadowVerificationGap,
                ]
            );
        },
        Err(e) => panic!("{e:?}"),
    }
}

fn our_traits_but_one() -> TraitPrereqs {
    TraitPrereqs { elicit_spec: false, ..our_traits() }
}

#[test]
fn items_of_different_kinds_at_one_path_are_different_gaps() {
    let item = |kind: ItemKind| Item {
        path: vec!["up".to_string(), "w".to_string()],
        kind,
        name: "w".to_string(),
        is_generic: false,
        lifetime_params: Vec::new(),
        type_params: Vec::new(),
    };
    let inventory = |name: &str, items: Vec<Item>| Inventory {
        crate_name: name.to_string(),
        crate_version: "1.0.0".to_string(),
        items,
    };
    let target = inventory("up", vec![item(ItemKind::Function), item(ItemKind::Macro)]);
    let report = build_shadow_report(
        &target,
        &inventory("elicit_up", Vec::new()),
        &ElicitCompleteSet::default(),
        &Vec::new(),
    );
    assert_eq!(report.missing_count, 2);
    let pair = ("up", "elicit_up", &report);
    for pairs in [vec![pair], vec![pair, pair]] {
        match build_shadow_gaps(&pairs) {
            Ok(gaps) => {
                let listed: Vec<(ShadowGapKind, ItemKind, &str)> =
                    gaps.iter().map(|g| (g.gap_kind, g.item_kind, g.item_path.as_str())).collect();
                assert_eq!(
                    listed,
                    vec![
                        (ShadowGapKind::Missing, ItemKind::Function, "up::w"),
                        (ShadowGapKind::Missing, ItemKind::Macro, "up::w"),
                    ]
                );
            },
            Err(e) => panic!("{e:?}"),
        }
    }
}

#[test]
fn gaps_agree_with_the_report() {
    let item = |path: &[&str]| Item {
        path: path.iter().map(|p| p.to_string()).collect(),
        kind: ItemKind::Struct,
        name: path[path.len() - 1].to_string(),
        is_generic: false,
        lifetime_params: Vec::new(),
        type_params: Vec::new(),
    };
    let inventory = |name: &str, items: Vec<Item>| Inventory {
        crate_name: name.to_string(),
        crate_version: "1.0.0".to_string(),
        items,
    };
    let target = inventory(
        "up",
        vec![item(&["up", "Same"]), item(&["up", "Colors"]), item(&["up", "Absent"])],
    );
    let shadow = inventory(
        "elicit_up",
        vec![
            item(&["elicit_up", "Same"]),
            item(&["elicit_up", "Colours"]),
            item(&["elicit_up", "DrawParams"]),
            item(&["elicit_up", "Leftover"]),
        ],
    );
    let report =
        build_shadow_report(&target, &shadow, &ElicitCompleteSet::default(), &Vec::new());
    assert_eq!(
        (
            report.missing_count,
            report.drifted_count,
            report.extra_count,
            report.verification_gap_count
        ),
        (1, 1, 2, 2)
    );
    match build_shadow_gaps(&vec![("up", "elicit_up", &report)]) {
        Ok(gaps) => {
            let count = |kind: ShadowGapKind| gaps.iter().filter(|g| g.gap_kind == kind).count();
            assert_eq!(count(ShadowGapKind::Missing), report.missing_count);
            assert_eq!(count(ShadowGapKind::Drifted), report.drifted_count);
            assert_eq!(count(ShadowGapKind::PossiblyStale), 1);
            assert_eq!(count(ShadowGapKind::InfrastructureExtra), 1);
            assert_eq!(
                count(ShadowGapKind::ShadowVerificationGap),
                report.verification_gap_count
            );
        },
        Err(e) => panic!("{e:?}"),
    }
}
