use elicit_doc::harness::{
    collect_proof_harness, extract_kani_contains, extract_turbofish_arg, find_turbofish,
    ProofHarness,
};
use elicit_doc::text::chars_of;

fn pair(a: &str, b: &str) -> (String, String) {
    (a.to_string(), b.to_string())
}

#[test]
fn turbofish_arguments_respect_nesting() {
    assert_eq!(
        extract_turbofish_arg("f::<HashMap<String, Vec<bool>>>();", "f"),
        Some("HashMap<String, Vec<bool>>".to_string())
    );
    assert_eq!(extract_turbofish_arg("x f::< url::Url >()", "f"), Some("url::Url".to_string()));
    assert_eq!(extract_turbofish_arg("f::<   >()", "f"), None);
    assert_eq!(extract_turbofish_arg("f::<Vec<bool>", "f"), None);
    assert_eq!(extract_turbofish_arg("g::<bool>()", "f"), None);
}

#[test]
fn contained_pairs_are_split_at_the_top_level_comma() {
    assert_eq!(
        extract_kani_contains("assert_kani_contains::<Outer<A, B>, Inner>(\"x\");"),
        Some(pair("Outer<A, B>", "Inner"))
    );
    assert_eq!(extract_kani_contains("assert_kani_contains::<Outer>()"), None);
    assert_eq!(extract_kani_contains("assert_kani_contains::<Outer, >()"), None);
    assert_eq!(extract_kani_contains("assert_kani_contains::<Pair<A, B>>()"), None);
    assert_eq!(
        extract_kani_contains("assert_kani_contains::<A, B, C>()"),
        Some(pair("A", "B, C"))
    );
}

#[test]
fn harness_files_are_scanned_line_by_line() {
    let source = "fn t() {\r\n    assert_proofs_non_empty::<bool>(\"b\");\n\tassert_proofs_non_empty::<bool>();\n    assert_kani_contains::<Vec<bool>, bool>();\n assert_proofs_non_empty::<Option<\nu8>>();\nassert_proofs_non_empty::<Größe>()";
    let h = collect_proof_harness(source);
    assert_eq!(h.non_empty_types, vec!["bool", "Größe"]);
    assert_eq!(h.composition_pairs, vec![pair("Vec<bool>", "bool")]);
    assert!(collect_proof_harness("").non_empty_types.is_empty());
}

#[test]
fn harnesses_are_joined() {
    let mut h = collect_proof_harness("assert_proofs_non_empty::<A>()\nassert_kani_contains::<A, B>()");
    let more = collect_proof_harness(
        "assert_proofs_non_empty::<A>()\nassert_proofs_non_empty::<C>()\nassert_kani_contains::<A, B>()",
    );
    h.extend(&more);
    assert_eq!(h.non_empty_types, vec!["A", "C"]);
    assert_eq!(h.composition_pairs, vec![pair("A", "B"), pair("A", "B")]);
    h.extend(&ProofHarness::default());
    assert_eq!(h.non_empty_types.len(), 2);
}

#[test]
fn type_arguments_are_found_where_they_stand() {
    assert_eq!(find_turbofish(&chars_of("g(); f::<A<B>, C>();"), "f"), Some((9, 16)));
    assert_eq!(find_turbofish(&chars_of("f::<A<B>();"), "f"), None);
    assert_eq!(find_turbofish(&chars_of("f(A)"), "f"), None);
}
