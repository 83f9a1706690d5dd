use elicit_doc::collect::{ElicitCompleteSet, TraitPrereqs};
use elicit_doc::harness::ProofHarness;
use elicit_doc::impl_coverage::{build_impl_coverage_report, check_composition_test};
use elicit_doc::impl_coverage::{determine_impl_status, determine_test_status};
use elicit_doc::impl_coverage::{ImplCoverageEntry, ImplStatus, TestStatus};
use elicit_doc::inventory::{Inventory, Item, ItemKind};

fn inventory_with_items(items: Vec<Item>) -> Inventory {
    Inventory {
        crate_name: "reqwest".to_string(),
        crate_version: "0.12.28".to_string(),
        items,
    }
}

fn struct_item(path: &[&str]) -> Item {
    assert!(!path.is_empty(), "test helper requires a non-empty path");
    Item {
        path: path.iter().map(|segment| segment.to_string()).collect(),
        kind: ItemKind::Struct,
        name: path[path.len() - 1].to_string(),
        is_generic: false,
        lifetime_params: Vec::new(),
        type_params: Vec::new(),
    }
}

#[test]
fn build_impl_coverage_uses_unique_root_reexport_alias_for_trait_prereqs() {
    let source =
        inventory_with_items(vec![struct_item(&["reqwest", "async_impl", "response", "Response"])]);
    let prereqs_map = vec![(
        "reqwest::Response".to_string(),
        TraitPrereqs {
            elicitation_trait: true,
            elicit_introspect: true,
            elicit_spec: true,
            elicit_prompt_tree: true,
            to_code_literal: true,
            ..TraitPrereqs::default()
        },
    )];

    let report = build_impl_coverage_report(
        &source,
        &ElicitCompleteSet::default(),
        &ProofHarness::default(),
        &prereqs_map,
    );

    assert_eq!(report.entries.len(), 1, "expected a single coverage entry");
    let entry = &report.entries[0];
    assert!(entry.prereqs.our_traits_complete());
}

#[test]
fn build_impl_coverage_does_not_guess_from_non_unique_bare_names() {
    let source = inventory_with_items(vec![
        struct_item(&["reqwest", "alpha", "Shared"]),
        struct_item(&["reqwest", "beta", "Shared"]),
    ]);
    let prereqs_map = vec![(
        "reqwest::Shared".to_string(),
        TraitPrereqs { to_code_literal: true, ..TraitPrereqs::default() },
    )];

    let report = build_impl_coverage_report(
        &source,
        &ElicitCompleteSet::default(),
        &ProofHarness::default(),
        &prereqs_map,
    );

    assert!(report.entries.iter().all(|entry| !entry.prereqs.to_code_literal));
}

#[test]
fn reports_count_statuses_and_come_by_path() {
    let mut module = struct_item(&["reqwest", "m"]);
    module.kind = ItemKind::Module;
    let source = inventory_with_items(vec![
        struct_item(&["reqwest", "Zed"]),
        module,
        struct_item(&["reqwest", "Vector"]),
        struct_item(&["reqwest", "Url"]),
        struct_item(&["reqwest", "Body"]),
    ]);
    let complete = ElicitCompleteSet {
        concrete: vec!["reqwest::Url".to_string(), "reqwest::Vector".to_string()],
        factory: vec!["reqwest::Vector".to_string()],
    };
    let harness = ProofHarness {
        non_empty_types: vec![
            "Body".to_string(),
            "VectorOf".to_string(),
            "Vector<bool>".to_string(),
            "url::Url".to_string(),
        ],
        composition_pairs: vec![
            ("ZedPart".to_string(), "bool".to_string()),
            ("Body".to_string(), "bool".to_string()),
            ("Vector<bool>".to_string(), "bool".to_string()),
        ],
    };
    let report = build_impl_coverage_report(&source, &complete, &harness, &Vec::new());
    let rows: Vec<(&str, ImplStatus, &TestStatus, &TestStatus, &str)> = report
        .entries
        .iter()
        .map(|e| {
            (e.type_path.as_str(), e.elicit_impl, &e.proof_test, &e.composition_test, e.notes.as_str())
        })
        .collect();
    let concrete = TestStatus::CoveredConcrete { instantiation: "Vector<bool>".to_string() };
    assert_eq!(
        rows,
        vec![
            ("reqwest::Body", ImplStatus::Missing, &TestStatus::Covered, &TestStatus::Covered, ""),
            ("reqwest::Url", ImplStatus::Complete, &TestStatus::Covered, &TestStatus::Missing, ""),
            (
                "reqwest::Vector",
                ImplStatus::CompleteFactory,
                &concrete,
                &TestStatus::Covered,
                "tested as Vector<bool>"
            ),
            ("reqwest::Zed", ImplStatus::Missing, &TestStatus::Missing, &TestStatus::Missing, ""),
        ]
    );
    assert_eq!(report.complete_count, 2);
    assert_eq!(report.missing_impl_count, 2);
    assert_eq!(report.missing_test_count, 1);
    assert_eq!(report.flagged_concrete_count, 1);
    assert_eq!(report.coverage_complete_count(), 0);
    assert_eq!(
        report.summary(),
        "reqwest 0.12.28 (0 coverage-complete, 2 direct ElicitComplete, 2 missing impl, 1 missing test, 1 flagged concrete)"
    );
    assert_eq!(concrete.to_text(), "CoveredConcrete(Vector<bool>)");
    assert_eq!(TestStatus::Covered.to_text(), "Covered");
    assert_eq!(ImplStatus::Partial.to_text(), "Partial");
}

#[test]
fn a_factory_impl_takes_precedence() {
    let complete = ElicitCompleteSet {
        concrete: vec!["a::A".to_string(), "a::B".to_string()],
        factory: vec!["a::B".to_string()],
    };
    assert_eq!(determine_impl_status("a::A", &complete), ImplStatus::Complete);
    assert_eq!(determine_impl_status("a::B", &complete), ImplStatus::CompleteFactory);
    assert_eq!(determine_impl_status("a::C", &complete), ImplStatus::Missing);
}

#[test]
fn lifetimes_excuse_two_of_our_traits() {
    let entry = ImplCoverageEntry {
        type_path: "a::A".to_string(),
        type_kind: ItemKind::Struct,
        is_generic: true,
        lifetime_params: vec!["'a".to_string()],
        type_params: Vec::new(),
        elicit_impl: ImplStatus::Missing,
        proof_test: TestStatus::Missing,
        composition_test: TestStatus::Missing,
        prereqs: TraitPrereqs {
            serialize: true,
            deserialize: true,
            json_schema: true,
            ..TraitPrereqs::default()
        },
        notes: String::new(),
    };
    assert!(entry.lifetime_blocks_elicitation());
    assert_eq!(
        entry.effective_missing_our_traits(),
        vec!["ElicitSpec", "ElicitPromptTree", "ToCodeLiteral"]
    );
    assert!(!entry.effective_our_traits_complete());
    assert!(!entry.can_be_direct());
    let free = ImplCoverageEntry { lifetime_params: Vec::new(), ..entry };
    assert!(free.can_be_direct());
    assert_eq!(free.effective_missing_our_traits().len(), 5);
}

#[test]
fn a_longer_name_is_no_instantiation() {
    let harness = ProofHarness {
        non_empty_types: vec!["VecNonEmpty<bool>".to_string()],
        composition_pairs: vec![("VecNonEmpty<bool>".to_string(), "bool".to_string())],
    };
    let factory = ImplStatus::CompleteFactory;
    assert_eq!(
        determine_test_status("Vec", factory, &harness),
        (TestStatus::Missing, String::new())
    );
    assert_eq!(check_composition_test("Vec", &harness), TestStatus::Missing);
    let instantiation = "VecNonEmpty<bool>".to_string();
    assert_eq!(
        determine_test_status("VecNonEmpty", factory, &harness),
        (
            TestStatus::CoveredConcrete { instantiation },
            "tested as VecNonEmpty<bool>".to_string()
        )
    );
    assert_eq!(check_composition_test("VecNonEmpty", &harness), TestStatus::Covered);
    assert_eq!(
        determine_test_status("VecNonEmpty", ImplStatus::Missing, &harness).0,
        TestStatus::Missing
    );
}
