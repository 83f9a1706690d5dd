use elicit_doc::collect::{ElicitCompleteSet, TraitPrereqs};
use elicit_doc::trenchcoat::{build_trenchcoat_report, build_wrapper_coverage_map};

fn pair(a: &str, b: &str) -> (String, String) {
    (a.to_string(), b.to_string())
}

#[test]
fn wrappers_are_listed_for_each_foreign_type() {
    let pairs = vec![
        pair("url::Url", "elicitation::UrlSelect"),
        pair("time::Date", "elicitation::D"),
        pair("url::Url", "elicitation::UrlCoat"),
    ];
    let complete = ElicitCompleteSet {
        concrete: vec!["elicitation::UrlCoat".to_string()],
        factory: vec!["elicitation::D".to_string()],
    };
    let spec = TraitPrereqs { elicit_spec: true, ..TraitPrereqs::default() };
    let prereqs = vec![("elicitation::UrlSelect".to_string(), spec)];
    let map = build_wrapper_coverage_map(&pairs, &complete, &prereqs);
    assert_eq!(map.len(), 2);
    assert_eq!(map[0].0, "url::Url");
    let url: Vec<(&str, bool)> = map[0]
        .1
        .iter()
        .map(|w| (w.wrapper_path.as_str(), w.wrapper_elicit_complete))
        .collect();
    assert_eq!(url, vec![("elicitation::UrlCoat", true), ("elicitation::UrlSelect", false)]);
    assert_eq!(map[0].1[1].wrapper_prereqs, spec);
    assert_eq!(map[0].1[0].wrapper_prereqs, TraitPrereqs::default());
    assert_eq!(map[1].0, "time::Date");
    assert!(map[1].1[0].wrapper_elicit_complete);
}

#[test]
fn incomplete_wrappers_come_first() {
    let pairs = vec![
        pair("url::Url", "elicitation::U"),
        pair("url::Host", "elicitation::H"),
        pair("time::Date", "elicitation::D"),
        pair("a", "elicitation::U"),
    ];
    let complete = ElicitCompleteSet {
        concrete: vec!["elicitation::U".to_string()],
        factory: Vec::new(),
    };
    let ours = TraitPrereqs {
        elicitation_trait: true,
        elicit_introspect: true,
        elicit_spec: true,
        elicit_prompt_tree: true,
        to_code_literal: true,
        ..TraitPrereqs::default()
    };
    let wrapper_prereqs = vec![("elicitation::D".to_string(), ours)];
    let foreign =
        vec![("url::Url".to_string(), TraitPrereqs { to_code_literal: false, ..ours })];
    let report = build_trenchcoat_report(&pairs, &complete, &wrapper_prereqs, &foreign);
    let rows: Vec<(&str, &str, bool)> = report
        .iter()
        .map(|e| (e.foreign_crate.as_str(), e.foreign_type.as_str(), e.wrapper_elicit_complete))
        .collect();
    assert_eq!(
        rows,
        vec![
            ("time", "time::Date", false),
            ("url", "url::Host", false),
            ("a", "a", true),
            ("url", "url::Url", true),
        ]
    );
    assert_eq!(report[0].wrapper_missing_our_traits, "");
    assert_eq!(
        report[1].wrapper_missing_our_traits,
        "Elicitation;ElicitIntrospect;ElicitSpec;ElicitPromptTree;ToCodeLiteral"
    );
    assert_eq!(report[3].foreign_missing_our_traits, "ToCodeLiteral");
    assert_eq!(report[3].wrapper_path, "elicitation::U");
}
