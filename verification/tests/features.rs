use elicit_doc::features::{
    collect_available_serde_features, expand_same_package_features,
    feature_reaches_external_support, holds_support_word, split_edge,
};

fn graph(edges: &[(&str, &[&str])]) -> Vec<(String, Vec<String>)> {
    edges
        .iter()
        .map(|(name, to)| (name.to_string(), to.iter().map(|t| t.to_string()).collect()))
        .collect()
}

fn texts(parts: &[&str]) -> Vec<String> {
    parts.iter().map(|p| p.to_string()).collect()
}

#[test]
fn enabling_an_alias_enables_what_it_leads_to() {
    let geo = graph(&[
        ("default", &["std", "multithreading"]),
        ("use-serde", &["serde"]),
        ("serde", &["dep:serde", "geo-types/serde"]),
        ("multithreading", &["rayon"]),
    ]);
    assert_eq!(expand_same_package_features(&geo, &texts(&["use-serde"])), vec!["serde", "use-serde"]);
    assert_eq!(
        expand_same_package_features(&geo, &texts(&["default"])),
        vec!["default", "multithreading", "rayon", "std"]
    );
    assert!(expand_same_package_features(&geo, &Vec::new()).is_empty());
    let once = expand_same_package_features(&geo, &texts(&["default", "use-serde"]));
    assert_eq!(expand_same_package_features(&geo, &once), once);
}

#[test]
fn cycles_end() {
    let looped = graph(&[("a", &["b"]), ("b", &["a", "c"])]);
    assert_eq!(expand_same_package_features(&looped, &texts(&["b"])), vec!["a", "b", "c"]);
    assert!(!feature_reaches_external_support("a", &looped));
}

#[test]
fn support_is_reached_by_name_edge_or_alias() {
    let g = graph(&[
        ("json", &[]),
        ("full", &["extra"]),
        ("extra", &["other?/SERDE_with"]),
        ("schema", &[]),
        ("plain", &["dep:rayon", "x/y"]),
        ("default", &["json"]),
        ("Schemars08", &[]),
        ("dangling", &["nowhere"]),
    ]);
    assert!(feature_reaches_external_support("json", &g));
    assert!(feature_reaches_external_support("full", &g));
    assert!(!feature_reaches_external_support("plain", &g));
    assert!(!feature_reaches_external_support("dangling", &g));
    assert!(feature_reaches_external_support("unknown-json", &g));
    assert_eq!(
        collect_available_serde_features(&g),
        vec!["Schemars08", "extra", "full", "json", "schema"]
    );
}

#[test]
fn edges_are_split_at_their_marks() {
    assert_eq!(split_edge("dep:serde"), texts(&["serde"]));
    assert_eq!(split_edge("geo-types?/serde"), texts(&["geo-types", "", "serde"]));
    assert_eq!(split_edge("pkg:feature"), texts(&["pkg", "feature"]));
}

#[test]
fn words_of_support_are_found_in_lower_case_only() {
    assert!(holds_support_word("use-serde"));
    assert!(holds_support_word("json5"));
    assert!(holds_support_word("xschemay"));
    assert!(!holds_support_word("Serde"));
    assert!(!holds_support_word("std"));
}
