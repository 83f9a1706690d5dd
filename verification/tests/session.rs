use elicit_doc::collect::{DepBuildConfig, TraitPrereqs};
use elicit_doc::error::ElicitDocErrorKind;
use elicit_doc::extract::{collect_dep_inventory, collect_inventory};
use elicit_doc::gaps::{ImplGapKind, ShadowGapKind};
use elicit_doc::harness::ProofHarness;
use elicit_doc::inventory::{Inventory, Item, ItemKind};
use elicit_doc::rustdoc::{DocCrate, IndexItem};
use elicit_doc::session::{
    build_type_feature_probes, candidate_unlock_features, compare_pair, describe_impl_gaps,
    describe_shadow_gaps, describe_trenchcoats, impl_report_name, plan_run, probe_features,
    resolve_dep_build_config, selects_crate, selects_pair, shadow_pairs, shadow_report_name,
    third_party_crates, ImplRun, ReportKind, RunPlan, ShadowRun,
};
use elicit_doc::shadow::ShadowStatus;
use rustdoc_types::ItemKind as PathKind;
use rustdoc_types::{
    GenericArg, GenericArgs, Generics, Id, Impl, ItemEnum, ItemSummary, Path, Type, Visibility,
};

fn texts(parts: &[&str]) -> Vec<String> {
    parts.iter().map(|p| p.to_string()).collect()
}

fn path(name: &str, id: u32, arg: Option<u32>) -> Path {
    Path {
        path: name.to_string(),
        id: Id(id),
        args: arg.map(|id| {
            Box::new(GenericArgs::AngleBracketed {
                args: vec![GenericArg::Type(Type::ResolvedPath(path("T", id, None)))],
                constraints: Vec::new(),
            })
        }),
    }
}

fn block(id: u32, trait_name: &str, arg: Option<u32>, for_id: u32) -> (u32, IndexItem) {
    let inner = ItemEnum::Impl(Impl {
        is_unsafe: false,
        generics: Generics { params: Vec::new(), where_predicates: Vec::new() },
        provided_trait_methods: Vec::new(),
        trait_: Some(path(trait_name, 900, arg)),
        for_: Type::ResolvedPath(path("X", for_id, None)),
        items: Vec::new(),
        is_negative: false,
        is_synthetic: false,
        blanket_impl: None,
    });
    (id, IndexItem { name: None, visibility: Visibility::Public, inner })
}

fn summary(id: u32, segments: &[&str], kind: PathKind) -> (u32, ItemSummary) {
    (id, ItemSummary { crate_id: 0, path: texts(segments), kind })
}

/// Our own crate, with a wrapper for `url::Host` and all of our traits on `url::Url`.
fn elicitation() -> DocCrate {
    DocCrate {
        crate_version: Some("0.11.1".to_string()),
        index: vec![
            block(1, "Elicitation", None, 20),
            block(2, "ElicitIntrospect", None, 20),
            block(3, "ElicitSpec", None, 20),
            block(4, "ElicitPromptTree", None, 20),
            block(5, "ToCodeLiteral", None, 20),
            block(6, "From", Some(21), 10),
            block(7, "ElicitComplete", None, 10),
            block(8, "ElicitSpec", None, 11),
        ],
        paths: vec![
            summary(10, &["elicitation", "HostCoat"], PathKind::Struct),
            summary(11, &["elicitation", "Plain"], PathKind::Struct),
            summary(20, &["url", "Url"], PathKind::Struct),
            summary(21, &["url", "Host"], PathKind::Enum),
        ],
    }
}

fn url() -> DocCrate {
    DocCrate {
        crate_version: Some("2.5.8".to_string()),
        index: vec![
            block(1, "Serialize", None, 20),
            block(2, "Deserialize", None, 20),
            block(3, "JsonSchema", None, 20),
        ],
        paths: vec![
            summary(20, &["url", "Url"], PathKind::Struct),
            summary(21, &["url", "Host"], PathKind::Enum),
            summary(22, &["url", "Position"], PathKind::Enum),
        ],
    }
}

#[test]
fn runs_are_planned_by_kind_and_crate() {
    let plan = |impls: bool, shadows: bool, summary: bool| RunPlan { impls, shadows, summary };
    assert_eq!(plan_run(None, None), plan(true, true, true));
    assert_eq!(plan_run(None, Some("url")), plan(true, true, false));
    assert_eq!(plan_run(Some(ReportKind::Impls), None), plan(true, false, false));
    assert_eq!(plan_run(Some(ReportKind::Shadows), None), plan(false, true, false));
    assert!(selects_crate(None, "url") && selects_crate(Some("url"), "url"));
    assert!(!selects_crate(Some("geo"), "url"));
    assert!(selects_pair(Some("elicit_url"), "url", "elicit_url"));
    assert!(selects_pair(Some("url"), "url", "elicit_url"));
    assert!(!selects_pair(Some("geo"), "url", "elicit_url"));
}

#[test]
fn the_tables_of_crates_are_fixed() {
    let crates = third_party_crates();
    assert_eq!(crates.len(), 20);
    assert_eq!(crates[1].name, "time");
    assert_eq!(
        crates[1].fallback_features,
        vec!["serde", "serde-human-readable", "serde-well-known"]
    );
    assert_eq!((crates[7].name.as_str(), crates[7].feature.as_str()), ("toml", "toml-types"));
    assert!(crates[5].fallback_features.is_empty());
    assert_eq!(crates[19].name, "reqwest");
    let pairs = shadow_pairs();
    assert_eq!(pairs.len(), 35);
    assert_eq!(pairs[0], ("bevy".to_string(), "elicit_bevy".to_string()));
    assert_eq!(pairs[24], ("surrealdb-types".to_string(), "elicit_surrealdb".to_string()));
    assert_eq!(pairs[34], ("accesskit".to_string(), "elicit_accesskit".to_string()));
}

#[test]
fn build_configurations_fall_back_to_hints() {
    let declared = DepBuildConfig {
        activated_features: texts(&["json"]),
        uses_default_features: false,
    };
    let kept = resolve_dep_build_config(Ok(declared), &texts(&["serde"]));
    assert_eq!(kept.activated_features, vec!["json"]);
    assert!(!kept.uses_default_features);
    let failed = ElicitDocErrorKind::CargoMetadata("gone".to_string());
    let hinted = resolve_dep_build_config(Err(failed), &texts(&["serde"]));
    assert_eq!(hinted.activated_features, vec!["serde"]);
    assert!(hinted.uses_default_features);
}

#[test]
fn candidates_are_available_and_not_enabled() {
    let candidates =
        candidate_unlock_features(&texts(&["json", "schemars", "serde"]), &texts(&["json"]));
    assert_eq!(candidates, vec!["schemars", "serde"]);
    assert_eq!(
        probe_features(&texts(&["stream", "default", "serde"]), &candidates),
        vec!["schemars", "serde", "stream"]
    );
}

#[test]
fn probes_cover_every_type_when_there_are_candidates() {
    let ty = |name: &str, kind: ItemKind| Item {
        path: texts(&["url", name]),
        kind,
        name: name.to_string(),
        is_generic: false,
        lifetime_params: Vec::new(),
        type_params: Vec::new(),
    };
    let inventory = Inventory {
        crate_name: "url".to_string(),
        crate_version: "1.0.0".to_string(),
        items: vec![
            ty("Url", ItemKind::Struct),
            ty("parse", ItemKind::Function),
            ty("Host", ItemKind::Enum),
        ],
    };
    let seen = TraitPrereqs { serialize: true, ..TraitPrereqs::default() };
    let probed = vec![("url::Url".to_string(), seen)];
    assert!(build_type_feature_probes("url", &inventory, &Vec::new(), Some(&probed)).is_empty());
    let probes = build_type_feature_probes("url", &inventory, &texts(&["serde"]), Some(&probed));
    assert_eq!(probes.len(), 2);
    assert_eq!(probes[0].0, "url::Url");
    assert_eq!(probes[0].1.probed_prereqs, Some(seen));
    assert_eq!(probes[0].1.feature_crate, "url");
    assert_eq!(probes[1].0, "url::Host");
    assert_eq!(probes[1].1.probed_prereqs, None);
    assert_eq!(probes[1].1.candidate_unlock_features, vec!["serde"]);
    let failed = build_type_feature_probes("url", &inventory, &texts(&["serde"]), None);
    assert!(failed.iter().all(|p| p.1.probed_prereqs.is_none()));
}

#[test]
fn a_run_of_impl_reports_leads_to_gaps_and_trenchcoats() {
    let own = elicitation();
    let docs = url();
    let mut run = ImplRun::start(&own, ProofHarness::default());
    assert_eq!(run.complete.concrete, vec!["elicitation::HostCoat"]);
    assert_eq!(run.trenchcoat_pairs.len(), 1);
    let source = collect_dep_inventory(&docs, "url");
    let document = run.record_crate("url", &source, &docs, &own, Vec::new());
    let text = String::from_utf8(document).unwrap_or_default();
    assert_eq!(text.lines().count(), 4);
    assert!(text.contains("url::Url,Struct,url::Url,false,,,Missing,Missing,Missing,ReadyForElicitComplete"));
    assert!(text.contains("url::Host,Enum,url::Host,false,,,Missing,Missing,Missing,Covered"));

    let alone = run.finish(Some("url"));
    assert!(!alone.consolidated && alone.gaps.is_empty() && alone.trenchcoats.is_none());

    let internal = collect_inventory(&own, "elicitation");
    let document = run.record_internal(&internal, &own);
    let text = String::from_utf8(document).unwrap_or_default();
    assert!(text.contains("elicitation::HostCoat,Struct,elicitation::HostCoat,false,,,Complete"));
    assert_eq!(run.reports.len(), 2);
    assert_eq!(run.reports[1].0, "elicitation");
    assert!(run.finish(Some("elicitation")).consolidated);

    let all = run.finish(None);
    let kinds: Vec<(ImplGapKind, &str)> =
        all.gaps.iter().map(|g| (g.gap_kind, g.type_path.as_str())).collect();
    assert_eq!(
        kinds,
        vec![
            (ImplGapKind::MissingOurTraits, "elicitation::Plain"),
            (ImplGapKind::MissingOurTraits, "url::Position"),
            (ImplGapKind::ReadyForElicitComplete, "url::Url"),
        ]
    );
    assert_eq!(
        describe_impl_gaps(&all.gaps),
        "3 gaps: 2 missing_our_traits, 1 ready_for_elicit_complete, 0 feature_gated_external"
    );
    let coats = all.trenchcoats.unwrap_or_default();
    assert_eq!(coats.len(), 1);
    assert_eq!(coats[0].foreign_type, "url::Host");
    assert_eq!(describe_trenchcoats(&coats), "1 trenchcoats: 1 complete, 0 incomplete");
}

#[test]
fn a_run_of_shadow_reports_keeps_what_was_skipped() {
    let upstream = collect_dep_inventory(&url(), "url");
    let shadow_docs = DocCrate {
        crate_version: Some("0.1.0".to_string()),
        index: vec![block(1, "ElicitComplete", None, 30), block(2, "Serialize", None, 31)],
        paths: vec![
            summary(30, &["elicit_url", "Url"], PathKind::Struct),
            summary(31, &["elicit_url", "Host"], PathKind::Enum),
            summary(32, &["elicit_url", "UrlPlugin"], PathKind::Struct),
        ],
    };
    let shadow = collect_inventory(&shadow_docs, "elicit_url");
    let report = compare_pair(&upstream, &shadow, &shadow_docs, "elicit_url");
    let rows: Vec<(&str, ShadowStatus, &str)> = report
        .rows
        .iter()
        .map(|r| (r.item_path.as_str(), r.status, r.shadow_elicit_impl.as_str()))
        .collect();
    assert_eq!(
        rows,
        vec![
            ("elicit_url::UrlPlugin", ShadowStatus::Extra, ""),
            ("url::Host", ShadowStatus::Covered, "Missing"),
            ("url::Position", ShadowStatus::Missing, ""),
            ("url::Url", ShadowStatus::Covered, "Complete"),
        ]
    );
    assert_eq!(
        report.rows[1].shadow_missing_external_traits,
        "Deserialize(absent);JsonSchema(absent)"
    );
    let mut run = ShadowRun::start();
    run.record("url", "elicit_url", report);
    run.skip("clap", "elicit_clap", "exit status: 101");
    assert_eq!(run.skipped[0].upstream_crate, "clap");
    assert_eq!(run.skipped[0].error, "exit status: 101");
    let found = run.finish(Some("url")).ok();
    assert!(found.is_some_and(|f| !f.consolidated && f.gaps.is_empty()));
    let gaps = match run.finish(None) {
        Ok(f) => f.gaps,
        Err(e) => panic!("{e:?}"),
    };
    let kinds: Vec<ShadowGapKind> = gaps.iter().map(|g| g.gap_kind).collect();
    assert_eq!(
        kinds,
        vec![
            ShadowGapKind::Missing,
            ShadowGapKind::InfrastructureExtra,
            ShadowGapKind::ShadowVerificationGap,
        ]
    );
    assert_eq!(
        describe_shadow_gaps(&gaps),
        "3 total: 1 missing, 0 drifted, 0 possibly_stale, 1 infra_extra, 1 verification"
    );
}

#[test]
fn reports_have_file_names() {
    assert_eq!(impl_report_name("geo-types"), "geo_types.csv");
    assert_eq!(shadow_report_name("geo-types"), "shadow-geo-types.csv");
}
