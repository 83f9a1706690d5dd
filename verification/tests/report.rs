use elicit_doc::collect::{TraitPrereqs, TypeFeatureProbe};
use elicit_doc::gaps::{ImplGapEntry, ImplGapKind, ShadowGapEntry, ShadowGapKind};
use elicit_doc::impl_coverage::{ImplCoverageEntry, ImplCoverageReport, ImplStatus, TestStatus};
use elicit_doc::inventory::ItemKind;
use elicit_doc::report::{
    api_family, write_impl_coverage_csv, write_impl_gaps_csv, write_shadow_csv,
    write_shadow_gaps_csv, write_trenchcoats_csv,
};
use elicit_doc::shadow::{ShadowReport, ShadowRow, ShadowStatus};
use elicit_doc::trenchcoat::{TrenchcoatEntry, WrapperCoverage, WrapperCoverageMap};

fn text(bytes: Vec<u8>) -> String {
    match String::from_utf8(bytes) {
        Ok(t) => t,
        Err(_) => panic!("not UTF-8"),
    }
}

fn entry(type_path: &str, prereqs: TraitPrereqs) -> ImplCoverageEntry {
    ImplCoverageEntry {
        type_path: type_path.to_string(),
        type_kind: ItemKind::Struct,
        is_generic: false,
        lifetime_params: Vec::new(),
        type_params: Vec::new(),
        elicit_impl: ImplStatus::Missing,
        proof_test: TestStatus::Missing,
        composition_test: TestStatus::Missing,
        prereqs,
        notes: String::new(),
    }
}

fn impl_report(entries: Vec<ImplCoverageEntry>) -> ImplCoverageReport {
    ImplCoverageReport {
        source_crate: "reqwest".to_string(),
        source_version: "1.0.0".to_string(),
        entries,
        complete_count: 0,
        missing_impl_count: 1,
        missing_test_count: 1,
        flagged_concrete_count: 0,
    }
}

fn shadow_row(item_path: &str, status: ShadowStatus) -> ShadowRow {
    ShadowRow {
        item_path: item_path.to_string(),
        item_kind: ItemKind::Struct,
        status,
        shadow_item: String::new(),
        drift: None,
        drift_confidence: String::new(),
        shadow_elicit_impl: String::new(),
        shadow_can_be_direct: String::new(),
        shadow_missing_external_traits: String::new(),
        shadow_missing_our_traits: String::new(),
        notes: String::new(),
    }
}

fn shadow_report(rows: Vec<ShadowRow>) -> ShadowReport {
    ShadowReport {
        target_crate: "reqwest".to_string(),
        target_version: "1.0.0".to_string(),
        shadow_crate: "elicit_reqwest".to_string(),
        shadow_version: "1.0.0".to_string(),
        rows,
        covered_count: 1,
        missing_count: 1,
        extra_count: 0,
        drifted_count: 0,
        total_count: 2,
        verification_gap_count: 1,
    }
}

#[test]
fn impl_csv_rows_include_actionable_gap_columns() {
    let report = impl_report(vec![entry(
        "reqwest::async_impl::client::Client",
        TraitPrereqs {
            serialize: false,
            deserialize: false,
            json_schema: false,
            elicitation_trait: true,
            elicit_introspect: true,
            elicit_spec: false,
            elicit_prompt_tree: false,
            to_code_literal: false,
        },
    )]);
    let csv = text(write_impl_coverage_csv(&report, None, None));

    assert!(csv.contains("row_kind"));
    assert!(csv.contains("primary_gap_kind"));
    assert!(csv.contains("action"));
    assert!(csv.contains("MissingOurTraits"));
    assert!(csv.contains("Add our traits to `reqwest::async_impl::client::Client`"));
}

#[test]
fn shadow_csv_rows_include_actionable_gap_columns() {
    let report = shadow_report(vec![
        shadow_row("reqwest::async_impl::client::ClientBuilder", ShadowStatus::Missing),
        ShadowRow {
            shadow_item: "elicit_reqwest::Client".to_string(),
            shadow_elicit_impl: ImplStatus::Missing.to_text(),
            shadow_can_be_direct: "true".to_string(),
            shadow_missing_our_traits: "ElicitSpec".to_string(),
            ..shadow_row("reqwest::async_impl::client::Client", ShadowStatus::Covered)
        },
    ]);
    let csv = text(write_shadow_csv(&report));

    assert!(csv.contains("coverage_kind"));
    assert!(csv.contains("verification_gap"));
    assert!(csv.contains("Add a shadow for upstream `reqwest::async_impl::client::ClientBuilder`"));
    assert!(csv.contains("Finish `elicit_reqwest::Client` by adding our traits"));
}

const IMPL_HEADER: &str = "type_path,type_kind,api_family,is_generic,lifetime_params,type_params,elicit_impl,proof_test,composition_test,row_kind,primary_gap_kind,our_traits_complete,feature_unlock_possible,feature_owner_crate,blocked_reason,has_serialize,has_deserialize,has_json_schema,has_elicitation,has_elicit_introspect,has_elicit_spec,has_elicit_prompt_tree,has_to_code_literal,can_be_direct,missing_external_traits,missing_our_traits,candidate_unlock_features,action,notes\n";

#[test]
fn impl_documents_are_exact() {
    let all = TraitPrereqs {
        serialize: true,
        deserialize: true,
        json_schema: true,
        elicitation_trait: true,
        elicit_introspect: true,
        elicit_spec: true,
        elicit_prompt_tree: true,
        to_code_literal: true,
    };
    let mut generic = entry("url::quirks::deep::Origin", all);
    generic.is_generic = true;
    generic.lifetime_params = vec!["'a".to_string(), "'b".to_string()];
    generic.type_params = vec!["T".to_string()];
    generic.notes = "says \"hi\"".to_string();
    let mut done = entry("url::Done", all);
    done.elicit_impl = ImplStatus::Complete;
    done.proof_test = TestStatus::Covered;
    let report = impl_report(vec![done, generic, entry("url::Ready", all)]);
    let csv = text(write_impl_coverage_csv(&report, None, None));
    let expected = [
        IMPL_HEADER,
        "url::Ready,Struct,url::Ready,false,,,Missing,Missing,Missing,ReadyForElicitComplete,ReadyForElicitComplete,true,false,reqwest,,present,present,present,present,present,present,present,present,true,,,,Add `impl ElicitComplete for url::Ready {}` in elicitation crate,\n",
        "url::quirks::deep::Origin,Struct,url::quirks::deep,true,'a;'b,T,Missing,Missing,Missing,ExternallyBlocked,,true,false,reqwest,lifetime-bound type: direct `ElicitComplete` is illegal because `Elicitation` requires `'static`,present,present,present,present,present,present,present,present,false,,,,`url::quirks::deep::Origin` is everything-but complete. Do not flag missing `ElicitComplete`; direct impl is blocked by upstream traits: ,\"says \"\"hi\"\"\"\n",
        "url::Done,Struct,url::Done,false,,,Complete,Covered,Missing,Covered,,true,false,,,present,present,present,present,present,present,present,present,true,,,,,\n",
    ]
    .concat();
    assert_eq!(csv, expected);
}

#[test]
fn impl_documents_use_probes_and_wrappers() {
    let ours = TraitPrereqs {
        elicitation_trait: true,
        elicit_introspect: true,
        elicit_spec: true,
        elicit_prompt_tree: true,
        to_code_literal: true,
        ..TraitPrereqs::default()
    };
    let unlocked = TraitPrereqs { serialize: true, deserialize: true, json_schema: true, ..ours };
    let report = impl_report(vec![entry("url::A", ours), entry("url::B", ours)]);
    let probes = vec![(
        "url::A".to_string(),
        TypeFeatureProbe {
            feature_crate: "url".to_string(),
            candidate_unlock_features: vec!["serde".to_string()],
            probed_prereqs: Some(unlocked),
        },
    )];
    let wrappers: WrapperCoverageMap = vec![(
        "url::B".to_string(),
        vec![WrapperCoverage {
            wrapper_path: "elicitation::B".to_string(),
            wrapper_elicit_complete: true,
            wrapper_prereqs: unlocked,
        }],
    )];
    let csv = text(write_impl_coverage_csv(&report, Some(&probes), Some(&wrappers)));
    let lines: Vec<&str> = csv.lines().collect();
    assert_eq!(lines.len(), 3);
    assert!(lines[1].contains(",FeatureGatedExternal,FeatureGatedExternal,true,true,url,"));
    assert!(lines[2].starts_with("url::B,"));
    assert!(lines[2].contains(",Covered,,true,"));
}

#[test]
fn shadow_documents_are_exact() {
    let mut function = shadow_row("a::make", ShadowStatus::Missing);
    function.item_kind = ItemKind::Function;
    let report = shadow_report(vec![
        ShadowRow {
            shadow_item: "s::Ok".to_string(),
            shadow_elicit_impl: "Complete".to_string(),
            shadow_can_be_direct: "true".to_string(),
            ..shadow_row("a::Ok", ShadowStatus::Covered)
        },
        ShadowRow {
            notes: "in shadow, not in target".to_string(),
            ..shadow_row("s::AnyPlugin", ShadowStatus::Extra)
        },
        ShadowRow {
            shadow_item: "s::Colours".to_string(),
            drift_confidence: "0.86".to_string(),
            shadow_elicit_impl: "Complete".to_string(),
            shadow_can_be_direct: "false".to_string(),
            notes: "probable rename".to_string(),
            ..shadow_row("a::Colors", ShadowStatus::Drifted)
        },
        function,
    ]);
    let csv = text(write_shadow_csv(&report));
    let expected = [
        "item_path,item_kind,api_family,status,coverage_kind,primary_gap_kind,shadow_item,drift_confidence,shadow_elicit_impl,verification_gap,verification_ready,shadow_can_be_direct,shadow_missing_external_traits,shadow_missing_our_traits,action,notes\n",
        "a::make,Function,a::make,Missing,Missing,Missing,,,,false,false,,,,Add a shadow item for upstream `a::make` so the full public API surface is represented,\n",
        "a::Colors,Struct,a::Colors,Drifted,Drifted,Drifted,s::Colours,0.86,Complete,false,true,false,,,Rename or replace `s::Colours` so upstream `a::Colors` is shadowed exactly,probable rename\n",
        "s::AnyPlugin,Struct,s::AnyPlugin,Extra,InfrastructureExtra,InfrastructureExtra,,,,false,false,,,,Shadow-only infrastructure item; keep unless it should instead map to an upstream API item,\"in shadow, not in target\"\n",
        "a::Ok,Struct,a::Ok,Covered,Covered,,s::Ok,,Complete,false,true,true,,,,\n",
    ]
    .concat();
    assert_eq!(csv, expected);
}

#[test]
fn gap_and_trenchcoat_documents_are_exact() {
    let gap = ImplGapEntry {
        source_crate: "url".to_string(),
        type_path: "url::Url".to_string(),
        type_kind: ItemKind::Enum,
        is_generic: true,
        gap_kind: ImplGapKind::MissingOurTraits,
        missing_external_traits: "Serialize(absent)".to_string(),
        missing_our_traits: "ElicitSpec".to_string(),
        our_traits_complete: false,
        coverage_provider: "wrapper".to_string(),
        wrapper_paths: "elicitation::U".to_string(),
        can_be_direct: false,
        elicit_complete_gap: false,
        feature_gated_external: false,
        blocked_by_orphan_rule: true,
        feature_owner_crate: "url".to_string(),
        candidate_unlock_features: String::new(),
        action: "a, b".to_string(),
    };
    assert_eq!(
        text(write_impl_gaps_csv(&vec![gap])),
        "source_crate,type_path,type_kind,is_generic,gap_kind,our_traits_complete,can_be_direct,elicit_complete_gap,feature_gated_external,blocked_by_orphan_rule,missing_external_traits,missing_our_traits,feature_owner_crate,candidate_unlock_features,action\nurl,url::Url,Enum,true,MissingOurTraits,false,false,false,false,true,Serialize(absent),ElicitSpec,url,,\"a, b\"\n"
    );
    let shadow = ShadowGapEntry {
        target_crate: "egui".to_string(),
        shadow_crate: "elicit_egui".to_string(),
        item_path: "egui::Vec2".to_string(),
        item_kind: ItemKind::TypeAlias,
        gap_kind: ShadowGapKind::ShadowVerificationGap,
        matched_shadow_item: "elicit_egui::Vec2".to_string(),
        drift_confidence: String::new(),
        shadow_elicit_impl: "Missing".to_string(),
        shadow_can_be_direct: "true".to_string(),
        shadow_missing_external_traits: String::new(),
        shadow_missing_our_traits: String::new(),
        action: "line\nbreak".to_string(),
        notes: "#note".to_string(),
    };
    assert_eq!(
        text(write_shadow_gaps_csv(&vec![shadow])),
        "target_crate,shadow_crate,item_path,item_kind,gap_kind,matched_shadow_item,drift_confidence,shadow_elicit_impl,shadow_can_be_direct,shadow_missing_external_traits,shadow_missing_our_traits,action,notes\negui,elicit_egui,egui::Vec2,TypeAlias,ShadowVerificationGap,elicit_egui::Vec2,,Missing,true,,,\"line\nbreak\",#note\n"
    );
    let coat = TrenchcoatEntry {
        foreign_crate: "url".to_string(),
        foreign_type: "url::Url".to_string(),
        wrapper_path: "elicitation::Ü".to_string(),
        wrapper_elicit_complete: true,
        wrapper_missing_our_traits: String::new(),
        foreign_missing_our_traits: "ElicitSpec;ToCodeLiteral".to_string(),
    };
    assert_eq!(
        text(write_trenchcoats_csv(&vec![coat])),
        "foreign_crate,foreign_type,wrapper_path,wrapper_elicit_complete,wrapper_missing_our_traits,foreign_missing_our_traits\nurl,url::Url,elicitation::Ü,true,,ElicitSpec;ToCodeLiteral\n"
    );
    assert!(text(write_trenchcoats_csv(&Vec::new())).ends_with("foreign_missing_our_traits\n"));
}

#[test]
fn families_are_the_first_three_segments() {
    assert_eq!(api_family("a::b::c::D"), "a::b::c");
    assert_eq!(api_family("a::b::C"), "a::b::C");
    assert_eq!(api_family("a"), "a");
    assert_eq!(api_family(""), "");
}
