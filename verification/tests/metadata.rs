use elicit_doc::error::ElicitDocErrorKind;
use elicit_doc::metadata::{
    check_rustdoc_outcome, collect_dep_build_config, collect_dep_serde_features,
    collect_member_dep_build_config, dep_rustdoc_arguments, dependency_edge_name,
    dependency_matches_requested_crate, find_dep_manifest, member_rustdoc_arguments,
    plan_dep_docs, plan_member_dep_docs, rustdoc_json_name, CargoOutcome, Dependency, Node, NodeDep, Package, WorkspaceMetadata,
};

fn texts(parts: &[&str]) -> Vec<String> {
    parts.iter().map(|p| p.to_string()).collect()
}

fn dependency(name: &str, rename: Option<&str>, features: &[&str], defaults: bool) -> Dependency {
    Dependency {
        name: name.to_string(),
        rename: rename.map(str::to_string),
        features: texts(features),
        uses_default_features: defaults,
    }
}

fn package(name: &str, dependencies: Vec<Dependency>, features: Vec<(String, Vec<String>)>) -> Package {
    Package {
        id: format!("id:{name}"),
        name: name.to_string(),
        manifest_path: format!("/src/{name}/Cargo.toml"),
        dependencies,
        features,
    }
}

fn workspace() -> WorkspaceMetadata {
    WorkspaceMetadata {
        packages: vec![
            package(
                "elicitation",
                vec![
                    dependency("reqwest", None, &["stream", "json", "json"], false),
                    dependency("geo-types", None, &["serde"], true),
                    dependency("uuid", Some("ids"), &[], true),
                    dependency("lost", None, &[], true),
                    dependency("broken", None, &[], true),
                ],
                Vec::new(),
            ),
            package(
                "reqwest",
                Vec::new(),
                vec![
                    ("default".to_string(), texts(&["json"])),
                    ("json".to_string(), texts(&["dep:serde_json"])),
                    ("stream".to_string(), texts(&[])),
                ],
            ),
            package("uuid", Vec::new(), vec![("serde".to_string(), texts(&[]))]),
            package("alone", Vec::new(), Vec::new()),
        ],
        resolve: Some(vec![Node {
            id: "id:elicitation".to_string(),
            deps: vec![
                NodeDep { name: "reqwest".to_string(), pkg: "id:reqwest".to_string() },
                NodeDep { name: "geo_types".to_string(), pkg: "id:geo-types".to_string() },
                NodeDep { name: "ids".to_string(), pkg: "id:uuid".to_string() },
                NodeDep { name: "broken".to_string(), pkg: "id:broken".to_string() },
            ],
        }]),
    }
}

fn invocation<T>(text: &str) -> Result<T, ElicitDocErrorKind> {
    Err(ElicitDocErrorKind::CargoInvocation(text.to_string()))
}

#[test]
fn manifests_are_found_through_the_resolve_graph() {
    let w = workspace();
    assert_eq!(
        find_dep_manifest(&w, "elicitation", "reqwest"),
        Ok("/src/reqwest/Cargo.toml".to_string())
    );
    assert_eq!(find_dep_manifest(&w, "elicitation", "ids"), Ok("/src/uuid/Cargo.toml".to_string()));
    assert_eq!(find_dep_manifest(&w, "elicitation", "uuid"), Ok("/src/uuid/Cargo.toml".to_string()));
}

#[test]
fn each_step_of_finding_a_manifest_may_fail() {
    let mut w = workspace();
    assert_eq!(
        find_dep_manifest(&w, "nobody", "reqwest"),
        invocation("workspace package `nobody` not found in cargo metadata")
    );
    assert_eq!(
        find_dep_manifest(&w, "alone", "reqwest"),
        invocation("resolve node for workspace package `alone` not found")
    );
    assert_eq!(
        find_dep_manifest(&w, "elicitation", "bevy"),
        invocation("dependency 'bevy' not found in `elicitation` package metadata")
    );
    assert_eq!(
        find_dep_manifest(&w, "elicitation", "geo-types"),
        invocation(
            "resolved dependency edge `geo-types` for `elicitation` not found while locating `geo-types`"
        )
    );
    assert_eq!(
        find_dep_manifest(&w, "elicitation", "broken"),
        invocation(
            "resolved package for dependency 'broken' from `elicitation` not found in cargo metadata"
        )
    );
    w.resolve = None;
    assert_eq!(
        find_dep_manifest(&w, "elicitation", "reqwest"),
        invocation(
            "cargo metadata resolve graph missing while locating dependency `reqwest` for `elicitation`"
        )
    );
}

#[test]
fn build_configurations_list_distinct_features_in_order() {
    let w = workspace();
    match collect_dep_build_config(&w, "reqwest") {
        Ok(c) => {
            assert_eq!(c.activated_features, vec!["json", "stream"]);
            assert!(!c.uses_default_features);
        },
        Err(e) => panic!("{e:?}"),
    }
    match collect_member_dep_build_config(&w, "elicitation", "geo_types") {
        Ok(c) => {
            assert_eq!(c.activated_features, vec!["serde"]);
            assert!(c.uses_default_features);
        },
        Err(e) => panic!("{e:?}"),
    }
    assert_eq!(
        collect_dep_build_config(&w, "bevy"),
        invocation("dependency 'bevy' not found in `elicitation` package metadata")
    );
    assert_eq!(
        collect_member_dep_build_config(&w, "nobody", "bevy"),
        invocation("workspace package `nobody` not found in cargo metadata")
    );
}

#[test]
fn serde_features_are_told_available_and_enabled() {
    let w = workspace();
    assert_eq!(
        collect_dep_serde_features(&w, "reqwest", &texts(&["stream"]), true),
        Ok((texts(&["json"]), texts(&["default", "json", "stream"])))
    );
    assert_eq!(
        collect_dep_serde_features(&w, "reqwest", &texts(&["stream"]), false),
        Ok((texts(&["json"]), texts(&["stream"])))
    );
    assert_eq!(
        collect_dep_serde_features(&w, "uuid", &Vec::new(), true),
        Ok((texts(&["serde"]), Vec::new()))
    );
    assert_eq!(
        collect_dep_serde_features(&w, "bevy", &Vec::new(), true),
        invocation("package 'bevy' not found in workspace metadata")
    );
}

#[test]
fn dependencies_match_by_name_or_rename_with_either_dash() {
    let d = dependency("geo-types", Some("my-geo"), &[], true);
    assert!(dependency_matches_requested_crate(&d, "geo-types"));
    assert!(dependency_matches_requested_crate(&d, "geo_types"));
    assert!(dependency_matches_requested_crate(&d, "my_geo"));
    assert!(!dependency_matches_requested_crate(&d, "geo"));
    assert_eq!(dependency_edge_name(&d), "my-geo");
    assert_eq!(dependency_edge_name(&dependency("geo-types", None, &[], true)), "geo-types");
}

#[test]
fn cargo_is_asked_for_json_documentation() {
    assert_eq!(
        member_rustdoc_arguments("elicit_url", &Vec::new(), "/t"),
        vec![
            "+nightly", "rustdoc", "-p", "elicit_url", "--target-dir", "/t", "--", "--output-format",
            "json", "-Z", "unstable-options",
        ]
    );
    assert_eq!(
        member_rustdoc_arguments("elicitation", &texts(&["full", "x"]), "/t"),
        vec![
            "+nightly", "rustdoc", "-p", "elicitation", "--features", "full,x", "--target-dir", "/t",
            "--", "--output-format", "json", "-Z", "unstable-options",
        ]
    );
    assert_eq!(
        dep_rustdoc_arguments(&texts(&["a"]), false, "/t"),
        vec![
            "+nightly", "rustdoc", "--no-default-features", "--features", "a", "--target-dir", "/t",
            "--", "--output-format", "json", "-Z", "unstable-options",
        ]
    );
    assert_eq!(dep_rustdoc_arguments(&Vec::new(), true, "/t").len(), 9);
    assert_eq!(rustdoc_json_name("geo-types"), "geo_types.json");
}

#[test]
fn outcomes_of_cargo_are_judged() {
    let ended = |success: bool, json_exists: bool| CargoOutcome::Ended {
        success,
        status: "exit status: 101".to_string(),
        json_exists,
    };
    assert_eq!(check_rustdoc_outcome(&ended(true, true), "url", false, "/t/url.json"), Ok(()));
    assert_eq!(
        check_rustdoc_outcome(&ended(true, false), "url", true, "/t/url.json"),
        Err(ElicitDocErrorKind::RustdocOutputMissing("/t/url.json".to_string()))
    );
    assert_eq!(
        check_rustdoc_outcome(&ended(false, true), "url", true, "/t/url.json"),
        invocation("cargo rustdoc for dep url exited with exit status: 101")
    );
    assert_eq!(
        check_rustdoc_outcome(&ended(false, true), "url", false, "/t/url.json"),
        invocation("cargo rustdoc for url exited with exit status: 101")
    );
    assert_eq!(
        check_rustdoc_outcome(&CargoOutcome::NotStarted("no cargo".to_string()), "url", true, "/t"),
        invocation("no cargo")
    );
}

#[test]
fn feature_flags_are_there_exactly_where_they_are_needed() {
    for defaults in [true, false] {
        for features in [texts(&[]), texts(&["serde"]), texts(&["serde", "json"])] {
            let args = dep_rustdoc_arguments(&features, defaults, "/t");
            let has = |flag: &str| args.iter().any(|a| a == flag);
            assert_eq!(has("--features"), !features.is_empty());
            assert_eq!(has("--no-default-features"), !defaults);
            assert!(!has("--all-features"));
        }
    }
}

#[test]
fn dependencies_of_our_own_crate_are_planned_as_those_of_a_member() {
    let w = workspace();
    let features = texts(&["json"]);
    for name in ["reqwest", "uuid"] {
        match (
            plan_dep_docs(&w, name, &features, false, "/t"),
            plan_member_dep_docs(&w, "elicitation", name, &features, false, "/t"),
        ) {
            (Ok(a), Ok(b)) => {
                assert_eq!(a.manifest_path, format!("/src/{name}/Cargo.toml"));
                assert_eq!(a.manifest_path, b.manifest_path);
                assert_eq!(a.arguments, dep_rustdoc_arguments(&features, false, "/t"));
                assert_eq!(a.arguments, b.arguments);
            },
            other => panic!("{other:?}"),
        }
    }
    match plan_dep_docs(&w, "nothing", &features, false, "/t") {
        Err(e) => assert_eq!(Err(e), find_dep_manifest(&w, "elicitation", "nothing")),
        Ok(plan) => panic!("{plan:?}"),
    }
}
