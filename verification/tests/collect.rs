use elicit_doc::collect::{
    collect_elicit_complete_paths, collect_trait_prereqs, collect_trait_prereqs_for_inventory,
    collect_trenchcoat_pairs, is_foreign_trenchcoat_target, merge_prereqs, TraitPrereqs,
};
use elicit_doc::extract::{collect_dep_inventory, collect_inventory, extract_items};
use elicit_doc::extract::{item_path_preferred_over, path_matches_scope};
use elicit_doc::inventory::{Inventory, Item, ItemKind};
use elicit_doc::rustdoc::{DocCrate, IndexItem};
use rustdoc_types::ItemKind as PathKind;
use rustdoc_types::{
    Abi, AssocItemConstraint, AssocItemConstraintKind, DynTrait, Function, FunctionHeader,
    FunctionPointer, FunctionSignature, GenericArg, GenericArgs, GenericBound, GenericParamDef,
    GenericParamDefKind, Generics, Id, Impl, ItemEnum, ItemSummary, Module, Path, PolyTrait, Struct,
    StructKind, Term, Trait, TraitBoundModifier, Type, Use, Visibility, WherePredicate,
};

fn texts(parts: &[&str]) -> Vec<String> {
    parts.iter().map(|p| p.to_string()).collect()
}

fn item(name: Option<&str>, is_public: bool, inner: ItemEnum) -> IndexItem {
    let visibility = if is_public { Visibility::Public } else { Visibility::Default };
    IndexItem { name: name.map(str::to_string), visibility, inner }
}

fn summary(path: &[&str], kind: PathKind) -> ItemSummary {
    ItemSummary { crate_id: 0, path: texts(path), kind }
}

fn no_generics() -> Generics {
    Generics { params: Vec::new(), where_predicates: Vec::new() }
}

fn type_param(name: &str) -> GenericParamDef {
    GenericParamDef {
        name: name.to_string(),
        kind: GenericParamDefKind::Type { bounds: Vec::new(), default: None, is_synthetic: false },
    }
}

fn const_param(name: &str, type_: Type) -> GenericParamDef {
    GenericParamDef {
        name: name.to_string(),
        kind: GenericParamDefKind::Const { type_, default: None },
    }
}

fn lifetime_param(name: &str) -> GenericParamDef {
    GenericParamDef {
        name: name.to_string(),
        kind: GenericParamDefKind::Lifetime { outlives: Vec::new() },
    }
}

fn named(path: &str, id: u32) -> Path {
    Path { path: path.to_string(), id: Id(id), args: None }
}

fn resolved(path: &str, id: u32) -> Type {
    Type::ResolvedPath(named(path, id))
}

fn bound(trait_: Path) -> GenericBound {
    GenericBound::TraitBound {
        trait_,
        generic_params: Vec::new(),
        modifier: TraitBoundModifier::None,
    }
}

fn header() -> FunctionHeader {
    FunctionHeader { is_const: false, is_unsafe: false, is_async: false, abi: Abi::Rust }
}

fn signature(inputs: Vec<Type>, output: Option<Type>) -> FunctionSignature {
    let inputs = inputs.into_iter().map(|t| ("x".to_string(), t)).collect();
    FunctionSignature { inputs, output, is_c_variadic: false }
}

fn function(inputs: Vec<Type>, output: Option<Type>, generics: Generics) -> ItemEnum {
    ItemEnum::Function(Function {
        sig: signature(inputs, output),
        generics,
        header: header(),
        has_body: true,
        default_unstable: None,
    })
}

fn module() -> ItemEnum {
    ItemEnum::Module(Module { is_crate: false, items: Vec::new(), is_stripped: false })
}

fn use_of(id: u32) -> ItemEnum {
    ItemEnum::Use(Use {
        source: "x".to_string(),
        name: "x".to_string(),
        id: Some(Id(id)),
        is_glob: false,
    })
}

fn struct_of(generics: Generics) -> ItemEnum {
    ItemEnum::Struct(Struct { kind: StructKind::Unit, generics, impls: Vec::new() })
}

fn trait_of(items: Vec<u32>) -> ItemEnum {
    ItemEnum::Trait(Trait {
        is_auto: false,
        is_unsafe: false,
        is_dyn_compatible: true,
        items: items.into_iter().map(Id).collect(),
        generics: no_generics(),
        bounds: Vec::new(),
        implementations: Vec::new(),
    })
}

fn krate(index: Vec<(u32, IndexItem)>, paths: Vec<(u32, ItemSummary)>) -> DocCrate {
    DocCrate { crate_version: Some("1.0.0".to_string()), index, paths }
}

fn impl_of(generics: Generics, trait_: Option<Path>, for_: Type, items: Vec<u32>) -> IndexItem {
    item(
        None,
        true,
        ItemEnum::Impl(Impl {
            is_unsafe: false,
            generics,
            provided_trait_methods: Vec::new(),
            trait_,
            for_,
            items: items.into_iter().map(Id).collect(),
            is_negative: false,
            is_synthetic: false,
            blanket_impl: None,
        }),
    )
}

fn impl_block(trait_: Option<Path>, for_: Type, items: Vec<u32>) -> IndexItem {
    impl_of(no_generics(), trait_, for_, items)
}

fn path_texts(items: &[Item]) -> Vec<String> {
    items.iter().map(|i| i.path_str()).collect()
}

#[test]
fn extract_items_includes_public_foreign_reexports() {
    let root_id = 1;
    let use_id = 10;
    let foreign_id = 20;
    let krate = krate(
        vec![
            (root_id, item(Some("reqwest"), true, module())),
            (use_id, item(None, true, use_of(foreign_id))),
        ],
        vec![
            (root_id, summary(&["reqwest"], PathKind::Module)),
            (use_id, summary(&["reqwest", "header", "HeaderName"], PathKind::Use)),
            (foreign_id, summary(&["http", "header", "HeaderName"], PathKind::Struct)),
        ],
    );

    let items = extract_items(&krate, "reqwest", false);
    assert!(
        items.iter().any(|item| item.path_str() == "http::header::HeaderName"),
        "expected foreign reexport to be inventoried: {items:#?}"
    );
}

#[test]
fn extract_items_includes_foreign_types_from_public_where_predicates() {
    let root_id = 1;
    let function_id = 10;
    let foreign_id = 20;
    let generics = Generics {
        params: Vec::new(),
        where_predicates: vec![WherePredicate::BoundPredicate {
            type_: resolved("HeaderName", foreign_id),
            bounds: vec![bound(named("IntoHeaderName", 21))],
            generic_params: Vec::new(),
        }],
    };
    let krate = krate(
        vec![
            (root_id, item(Some("reqwest"), true, module())),
            (
                function_id,
                item(
                    Some("header"),
                    true,
                    function(vec![Type::Generic("Self".to_string())], None, generics),
                ),
            ),
        ],
        vec![
            (root_id, summary(&["reqwest"], PathKind::Module)),
            (function_id, summary(&["reqwest", "RequestBuilder", "header"], PathKind::Function)),
            (foreign_id, summary(&["http", "header", "name", "HeaderName"], PathKind::Struct)),
        ],
    );

    let items = extract_items(&krate, "reqwest", false);
    assert!(
        items.iter().any(|item| item.path_str() == "http::header::name::HeaderName"),
        "expected foreign where-predicate type to be inventoried: {items:#?}"
    );
}

#[test]
fn extract_items_prefers_public_same_crate_reexport_alias() {
    let root_id = 1;
    let internal_module_id = 2;
    let internal_client_id = 3;
    let reexport_id = 4;
    let krate = krate(
        vec![
            (root_id, item(Some("reqwest"), true, module())),
            (internal_module_id, item(Some("async_impl"), false, module())),
            (internal_client_id, item(Some("Client"), true, struct_of(no_generics()))),
            (reexport_id, item(None, true, use_of(internal_client_id))),
        ],
        vec![
            (root_id, summary(&["reqwest"], PathKind::Module)),
            (
                internal_client_id,
                summary(&["reqwest", "async_impl", "client", "Client"], PathKind::Struct),
            ),
            (reexport_id, summary(&["reqwest", "Client"], PathKind::Use)),
        ],
    );

    let items = extract_items(&krate, "reqwest", false);
    assert!(
        items.iter().any(|item| item.path_str() == "reqwest::Client"),
        "expected public alias to be inventoried: {items:#?}"
    );
    assert!(
        items.iter().all(|item| item.path_str() != "reqwest::async_impl::client::Client"),
        "expected internal canonical path to be suppressed: {items:#?}"
    );
}

#[test]
fn extract_items_skips_non_publicly_reachable_canonical_paths() {
    let root_id = 1;
    let sealed_type_id = 2;
    let krate = krate(
        vec![
            (root_id, item(Some("reqwest"), true, module())),
            (sealed_type_id, item(Some("Conn"), true, struct_of(no_generics()))),
        ],
        vec![
            (root_id, summary(&["reqwest"], PathKind::Module)),
            (sealed_type_id, summary(&["reqwest", "connect", "sealed", "Conn"], PathKind::Struct)),
        ],
    );

    let items = extract_items(&krate, "reqwest", false);
    assert!(
        items.iter().all(|item| item.path_str() != "reqwest::connect::sealed::Conn"),
        "expected non-publicly-reachable canonical path to be skipped: {items:#?}"
    );
}

#[test]
fn collect_trenchcoat_pairs_detects_public_build_raw_wrapper_methods() {
    let root_id = 1;
    let wrapper_id = 2;
    let impl_id = 3;
    let build_raw_id = 4;
    let result_id = 5;
    let proxy_id = 6;
    let output = Type::ResolvedPath(Path {
        path: "crate::ElicitResult".to_string(),
        id: Id(result_id),
        args: Some(Box::new(GenericArgs::AngleBracketed {
            args: vec![GenericArg::Type(resolved("reqwest::Proxy", proxy_id))],
            constraints: Vec::new(),
        })),
    });
    let krate = krate(
        vec![
            (root_id, item(Some("elicitation"), true, module())),
            (wrapper_id, item(Some("ReqwestProxy"), true, struct_of(no_generics()))),
            (impl_id, impl_block(None, resolved("crate::ReqwestProxy", wrapper_id), vec![build_raw_id])),
            (
                build_raw_id,
                item(
                    Some("build_raw"),
                    true,
                    function(
                        vec![Type::BorrowedRef {
                            lifetime: None,
                            is_mutable: false,
                            type_: Box::new(Type::Generic("Self".to_string())),
                        }],
                        Some(output),
                        no_generics(),
                    ),
                ),
            ),
        ],
        vec![
            (root_id, summary(&["elicitation"], PathKind::Module)),
            (wrapper_id, summary(&["elicitation", "ReqwestProxy"], PathKind::Struct)),
            (result_id, summary(&["elicitation", "ElicitResult"], PathKind::TypeAlias)),
            (proxy_id, summary(&["reqwest", "Proxy"], PathKind::Struct)),
        ],
    );

    let pairs = collect_trenchcoat_pairs(&krate);
    assert_eq!(
        pairs,
        vec![("reqwest::Proxy".to_string(), "elicitation::ReqwestProxy".to_string())]
    );
}

#[test]
fn trenchcoat_pairs_follow_from_impls_and_skip_own_and_standard_types() {
    let from = |path: &str, id: u32| {
        Some(Path {
            path: path.to_string(),
            id: Id(90),
            args: Some(Box::new(GenericArgs::AngleBracketed {
                args: vec![GenericArg::Type(resolved("T", id))],
                constraints: Vec::new(),
            })),
        })
    };
    let krate = krate(
        vec![
            (1, impl_block(from("core::convert::From", 12), resolved("crate::B", 99), vec![])),
            (2, impl_block(from("From", 11), resolved("elicitation::A", 10), vec![])),
            (3, impl_block(from("From", 11), resolved("elicitation::A", 10), vec![])),
            (4, impl_block(from("From", 13), resolved("elicitation::A", 10), vec![])),
            (5, impl_block(from("From", 14), resolved("elicitation::A", 10), vec![])),
            (6, impl_block(from("TryFrom", 12), resolved("elicitation::A", 10), vec![])),
            (7, impl_block(from("From", 12), resolved("url::Url", 11), vec![])),
        ],
        vec![
            (10, summary(&["elicitation", "A"], PathKind::Struct)),
            (11, summary(&["url", "Url"], PathKind::Struct)),
            (12, summary(&["time", "Date"], PathKind::Struct)),
            (13, summary(&["alloc", "string", "String"], PathKind::Struct)),
            (14, summary(&["elicitation", "C"], PathKind::Struct)),
        ],
    );
    assert_eq!(
        collect_trenchcoat_pairs(&krate),
        vec![
            ("time::Date".to_string(), "elicitation::B".to_string()),
            ("url::Url".to_string(), "elicitation::A".to_string()),
        ]
    );
}

#[test]
fn only_named_public_methods_unwrap_a_wrapper() {
    let method = |name: &str, is_public: bool, id: u32| {
        item(Some(name), is_public, function(vec![], Some(resolved("X", id)), no_generics()))
    };
    let krate = krate(
        vec![
            (1, impl_block(None, resolved("elicitation::A", 10), vec![2, 3, 4, 5])),
            (2, method("into_inner", true, 11)),
            (3, method("into_inner", false, 12)),
            (4, method("get", true, 13)),
        ],
        vec![
            (10, summary(&["elicitation", "A"], PathKind::Struct)),
            (11, summary(&["a", "One"], PathKind::Struct)),
            (12, summary(&["a", "Two"], PathKind::Struct)),
            (13, summary(&["a", "Three"], PathKind::Struct)),
        ],
    );
    assert_eq!(
        collect_trenchcoat_pairs(&krate),
        vec![("a::One".to_string(), "elicitation::A".to_string())]
    );
}

#[test]
fn foreign_targets_are_neither_ours_nor_standard() {
    assert!(is_foreign_trenchcoat_target("url::Url"));
    assert!(is_foreign_trenchcoat_target("std"));
    assert!(is_foreign_trenchcoat_target("stdx::Thing"));
    assert!(!is_foreign_trenchcoat_target("std::string::String"));
    assert!(!is_foreign_trenchcoat_target("core::time::Duration"));
    assert!(!is_foreign_trenchcoat_target("alloc::vec::Vec"));
    assert!(!is_foreign_trenchcoat_target("elicitation::Wrapper"));
}

#[test]
fn signatures_lead_to_foreign_types_through_every_kind_of_type() {
    // Each id from 101 on occurs in one place of the signature.
    let inputs = vec![
        Type::Tuple(vec![resolved("a", 101), Type::Slice(Box::new(resolved("b", 102)))]),
        Type::Array { type_: Box::new(resolved("c", 103)), len: "4".to_string() },
        Type::RawPointer { is_mutable: true, type_: Box::new(resolved("d", 104)) },
        Type::DynTrait(DynTrait {
            traits: vec![PolyTrait {
                trait_: named("e", 105),
                generic_params: vec![const_param("N", resolved("f", 106))],
            }],
            lifetime: None,
        }),
        Type::ImplTrait(vec![bound(named("T", 107)), GenericBound::Outlives("'a".to_string())]),
        Type::QualifiedPath {
            name: "Out".to_string(),
            self_type: Box::new(resolved("g", 108)),
            trait_: Some(named("h", 109)),
            args: Some(Box::new(GenericArgs::Parenthesized {
                inputs: vec![resolved("i", 110)],
                output: Some(resolved("j", 111)),
            })),
        },
        Type::FunctionPointer(Box::new(FunctionPointer {
            sig: signature(vec![resolved("k", 112)], Some(resolved("l", 113))),
            header: header(),
            generic_params: vec![GenericParamDef {
                name: "T".to_string(),
                kind: GenericParamDefKind::Type {
                    bounds: vec![bound(named("T", 114))],
                    default: Some(resolved("m", 115)),
                    is_synthetic: false,
                },
            }],
        })),
        Type::ResolvedPath(Path {
            path: "n".to_string(),
            id: Id(116),
            args: Some(Box::new(GenericArgs::AngleBracketed {
                args: vec![GenericArg::Lifetime("'a".to_string()), GenericArg::Type(resolved("o", 117))],
                constraints: vec![
                    AssocItemConstraint {
                        name: "Item".to_string(),
                        args: Some(Box::new(GenericArgs::AngleBracketed {
                            args: vec![GenericArg::Type(resolved("p", 118))],
                            constraints: Vec::new(),
                        })),
                        binding: AssocItemConstraintKind::Equality(Term::Type(resolved("q", 119))),
                    },
                    AssocItemConstraint {
                        name: "Item".to_string(),
                        args: None,
                        binding: AssocItemConstraintKind::Constraint(vec![bound(named("T", 120))]),
                    },
                ],
            })),
        }),
        Type::Primitive("u8".to_string()),
        Type::Infer,
    ];
    let generics = Generics {
        params: vec![type_param("T")],
        where_predicates: vec![
            WherePredicate::EqPredicate { lhs: resolved("r", 121), rhs: Term::Type(resolved("s", 122)) },
            WherePredicate::LifetimePredicate { lifetime: "'a".to_string(), outlives: Vec::new() },
        ],
    };
    let mut paths = vec![(1, summary(&["own", "f"], PathKind::Function))];
    for id in 101..123 {
        let name = format!("T{id}");
        paths.push((id, summary(&["other", name.as_str()], PathKind::Struct)));
    }
    let krate = krate(vec![(1, item(Some("f"), true, function(inputs, None, generics)))], paths);
    let mut expected: Vec<String> = (101..123).map(|id| format!("other::T{id}")).collect();
    expected.push("own::f".to_string());
    assert_eq!(path_texts(&extract_items(&krate, "own", false)), expected);
}

#[test]
fn an_unwrapped_type_is_searched_without_binders() {
    let output = Type::DynTrait(DynTrait {
        traits: vec![PolyTrait {
            trait_: named("T", 11),
            generic_params: vec![const_param("N", resolved("U", 12))],
        }],
        lifetime: None,
    });
    let krate = krate(
        vec![
            (1, impl_block(None, resolved("elicitation::A", 10), vec![2])),
            (2, item(Some("into_inner"), true, function(vec![], Some(output), no_generics()))),
        ],
        vec![
            (10, summary(&["elicitation", "A"], PathKind::Struct)),
            (11, summary(&["a", "Shape"], PathKind::Trait)),
            (12, summary(&["a", "Hidden"], PathKind::Struct)),
        ],
    );
    assert_eq!(
        collect_trenchcoat_pairs(&krate),
        vec![("a::Shape".to_string(), "elicitation::A".to_string())]
    );
}

#[test]
fn members_of_traits_and_inherent_impls_count_as_signatures() {
    let method = |id: u32, is_public: bool| {
        item(Some("m"), is_public, function(vec![resolved("X", id)], None, no_generics()))
    };
    let krate = krate(
        vec![
            (1, item(Some("Tr"), true, trait_of(vec![2, 3]))),
            (2, method(11, true)),
            (3, method(12, false)),
            (4, impl_block(None, resolved("own::S", 5), vec![6])),
            (6, method(13, true)),
            (7, impl_block(Some(named("Tr", 1)), resolved("own::S", 5), vec![8])),
            (8, method(14, true)),
            (9, item(Some("g"), false, function(vec![resolved("X", 15)], None, no_generics()))),
        ],
        vec![
            (1, summary(&["own", "Tr"], PathKind::Trait)),
            (5, summary(&["own", "S"], PathKind::Struct)),
            (9, summary(&["own", "g"], PathKind::Function)),
            (11, summary(&["o", "A"], PathKind::Struct)),
            (12, summary(&["o", "B"], PathKind::Struct)),
            (13, summary(&["o", "C"], PathKind::Struct)),
            (14, summary(&["o", "D"], PathKind::Struct)),
            (15, summary(&["o", "E"], PathKind::Struct)),
        ],
    );
    assert_eq!(
        path_texts(&extract_items(&krate, "own", false)),
        vec!["o::A", "o::C", "own::S", "own::Tr", "own::g"]
    );
}

#[test]
fn an_item_keeps_its_shortest_and_then_earliest_alias() {
    let krate = krate(
        vec![
            (1, item(None, true, use_of(9))),
            (2, item(None, true, use_of(9))),
            (3, item(None, true, use_of(9))),
            (4, item(None, false, use_of(9))),
        ],
        vec![
            (1, summary(&["own", "prelude", "Thing"], PathKind::Use)),
            (2, summary(&["own", "Thing"], PathKind::Use)),
            (3, summary(&["own", "Item"], PathKind::Use)),
            (4, summary(&["own", "A"], PathKind::Use)),
            (9, summary(&["own", "deep", "inner", "Thing"], PathKind::Struct)),
        ],
    );
    let items = extract_items(&krate, "own", false);
    assert_eq!(path_texts(&items), vec!["own::Item"]);
    assert_eq!(items[0].name, "Item");
    assert_eq!(items[0].kind, ItemKind::Struct);
    assert!(item_path_preferred_over(&texts(&["a", "b"]), &texts(&["a", "b", "c"])));
    assert!(item_path_preferred_over(&texts(&["a", "a"]), &texts(&["a", "b"])));
    assert!(!item_path_preferred_over(&texts(&["a", "b"]), &texts(&["a", "b"])));
    assert!(!item_path_preferred_over(&texts(&["z"]), &texts(&["a"])));
}

#[test]
fn inventories_state_parameters_versions_and_order() {
    let generics = Generics {
        params: vec![
            lifetime_param("'a"),
            type_param("R"),
            const_param("N", Type::Primitive("usize".to_string())),
        ],
        where_predicates: Vec::new(),
    };
    let krate = DocCrate {
        crate_version: None,
        index: vec![
            (1, item(Some("geo_types"), true, module())),
            (2, item(Some("Z"), true, struct_of(generics))),
            (4, item(Some("m"), true, module())),
        ],
        paths: vec![
            (2, summary(&["geo_types", "m", "Z"], PathKind::Struct)),
            (4, summary(&["geo_types", "m"], PathKind::Module)),
            (1, summary(&["geo_types"], PathKind::Module)),
            (3, summary(&["geo_types", "A"], PathKind::Enum)),
            (5, summary(&["geo_types", "x"], PathKind::Static)),
            (6, summary(&["geo_types_extra", "B"], PathKind::TypeAlias)),
            (7, summary(&["geo_types", ""], PathKind::Struct)),
        ],
    };
    let own = collect_inventory(&krate, "geo-types");
    assert_eq!(own.crate_name, "geo-types");
    assert_eq!(own.crate_version, "unknown");
    assert_eq!(
        path_texts(&own.items),
        vec!["geo_types", "geo_types::A", "geo_types::m", "geo_types::m::Z"]
    );
    let z = &own.items[3];
    assert!(z.is_generic);
    assert_eq!(z.lifetime_params, vec!["'a"]);
    assert_eq!(z.type_params, vec!["R"]);
    let dep = collect_dep_inventory(&krate, "geo-types");
    assert_eq!(
        path_texts(&dep.items),
        vec!["geo_types", "geo_types::A", "geo_types::m", "geo_types::m::Z", "geo_types_extra::B"]
    );
    assert!(path_matches_scope(&texts(&["bevy_ecs", "X"]), "bevy", true));
    assert!(!path_matches_scope(&texts(&["bevy_ecs", "X"]), "bevy", false));
    assert!(!path_matches_scope(&Vec::new(), "bevy", true));
}

fn traits_crate() -> DocCrate {
    krate(
        vec![
            (1, impl_block(Some(named("serde::Serialize", 70)), resolved("A", 10), vec![])),
            (2, impl_block(Some(named("Deserialize", 70)), resolved("A", 10), vec![])),
            (3, impl_block(Some(named("JsonSchema", 70)), resolved("B", 11), vec![])),
            (4, impl_block(Some(named("Elicitation", 70)), resolved("B", 11), vec![])),
            (5, impl_block(Some(named("ElicitIntrospect", 70)), resolved("B", 11), vec![])),
            (6, impl_block(Some(named("ElicitSpec", 70)), resolved("B", 11), vec![])),
            (7, impl_block(Some(named("ElicitPromptTree", 70)), resolved("B", 11), vec![])),
            (8, impl_block(Some(named("ToCodeLiteral", 70)), resolved("B", 11), vec![])),
            (9, impl_block(Some(named("Clone", 70)), resolved("C", 12), vec![])),
            (20, impl_block(Some(named("Serialize", 70)), resolved("X", 13), vec![])),
            (21, impl_block(Some(named("Serialize", 70)), Type::Primitive("u8".to_string()), vec![])),
            (22, impl_block(Some(named("Serialize", 70)), resolved("Gone", 99), vec![])),
        ],
        vec![
            (10, summary(&["my_crate", "m", "A"], PathKind::Struct)),
            (11, summary(&["my_crate", "B"], PathKind::Struct)),
            (12, summary(&["my_crate", "C"], PathKind::Struct)),
            (13, summary(&["my_crate_ext", "X"], PathKind::Struct)),
        ],
    )
}

#[test]
fn trait_prereqs_are_read_from_impl_blocks() {
    let table = collect_trait_prereqs(&traits_crate(), "my-crate", false);
    let a = TraitPrereqs { serialize: true, deserialize: true, ..TraitPrereqs::default() };
    let b = TraitPrereqs {
        json_schema: true,
        elicitation_trait: true,
        elicit_introspect: true,
        elicit_spec: true,
        elicit_prompt_tree: true,
        to_code_literal: true,
        ..TraitPrereqs::default()
    };
    assert_eq!(
        table,
        vec![("my_crate::m::A".to_string(), a), ("my_crate::B".to_string(), b)]
    );
    let wide = collect_trait_prereqs(&traits_crate(), "my-crate", true);
    assert_eq!(wide.len(), 3);
    assert_eq!(wide[2].0, "my_crate_ext::X");
}

#[test]
fn inventories_are_matched_by_path_and_unambiguous_root_alias() {
    let ty = |path: &[&str]| Item {
        path: texts(path),
        kind: ItemKind::Struct,
        name: path[path.len() - 1].to_string(),
        is_generic: false,
        lifetime_params: Vec::new(),
        type_params: Vec::new(),
    };
    let inventory = Inventory {
        crate_name: "my-crate".to_string(),
        crate_version: "1.0.0".to_string(),
        items: vec![
            ty(&["my_crate", "deep", "B"]),
            ty(&["my_crate_ext", "X"]),
            ty(&["my_crate", "one", "A"]),
            ty(&["my_crate", "two", "A"]),
        ],
    };
    let table = collect_trait_prereqs_for_inventory(&traits_crate(), &inventory);
    let keys: Vec<&str> = table.iter().map(|e| e.0.as_str()).collect();
    assert_eq!(keys, vec!["my_crate::B", "my_crate_ext::X"]);
}

#[test]
fn merging_tables_adds_traits_once() {
    let some = TraitPrereqs { serialize: true, ..TraitPrereqs::default() };
    let more = TraitPrereqs { json_schema: true, ..TraitPrereqs::default() };
    let mut into = vec![("a::A".to_string(), some)];
    let from = vec![("a::A".to_string(), more), ("b::B".to_string(), some)];
    merge_prereqs(&mut into, &from);
    let both = TraitPrereqs { serialize: true, json_schema: true, ..TraitPrereqs::default() };
    let expected = vec![("a::A".to_string(), both), ("b::B".to_string(), some)];
    assert_eq!(into, expected);
    merge_prereqs(&mut into, &from);
    assert_eq!(into, expected);
}

#[test]
fn merging_is_commutative_and_idempotent_on_traits() {
    let a = TraitPrereqs { serialize: true, elicit_spec: true, ..TraitPrereqs::default() };
    let b = TraitPrereqs { deserialize: true, elicit_spec: true, ..TraitPrereqs::default() };
    let mut ab = a;
    ab.merge(&b);
    let mut ba = b;
    ba.merge(&a);
    assert_eq!(ab, ba);
    let once = ab;
    ab.merge(&b);
    assert_eq!(ab, once);
    assert!(once.serialize && once.deserialize && once.elicit_spec && !once.json_schema);
}

#[test]
fn missing_traits_are_listed_by_name() {
    let none = TraitPrereqs::default();
    assert_eq!(
        none.missing_our_traits(),
        vec!["Elicitation", "ElicitIntrospect", "ElicitSpec", "ElicitPromptTree", "ToCodeLiteral"]
    );
    assert_eq!(none.external_blockers(), vec!["Serialize", "Deserialize", "JsonSchema"]);
    assert_eq!(
        none.external_blockers_absent(),
        vec!["Serialize(absent)", "Deserialize(absent)", "JsonSchema(absent)"]
    );
    assert!(!none.can_be_direct() && !none.our_traits_complete());
    let external = TraitPrereqs {
        serialize: true,
        deserialize: true,
        json_schema: true,
        ..TraitPrereqs::default()
    };
    assert!(external.can_be_direct());
    assert!(external.external_blockers().is_empty());
    assert!(external.external_blockers_absent().is_empty());
}

#[test]
fn complete_paths_are_split_into_concrete_and_factory() {
    let complete = |for_: Type, params: Vec<GenericParamDef>| {
        let generics = Generics { params, where_predicates: Vec::new() };
        impl_of(generics, Some(named("ElicitComplete", 70)), for_, Vec::new())
    };
    let lifetime = lifetime_param("'a");
    let krate = krate(
        vec![
            (1, complete(resolved("crate::A", 10), vec![])),
            (2, complete(resolved("crate::Gone", 99), vec![lifetime])),
            (3, complete(Type::Primitive("bool".to_string()), vec![])),
            (4, complete(resolved("Tuple", 11), vec![type_param("T")])),
            (5, complete(Type::Tuple(vec![]), vec![])),
            (6, complete(resolved("crate::A", 10), vec![])),
            (7, impl_block(Some(named("x::ElicitComplete", 70)), resolved("B", 12), vec![])),
        ],
        vec![
            (10, summary(&["elicitation", "m", "A"], PathKind::Struct)),
            (11, summary(&["elicitation", "Tuple3"], PathKind::Struct)),
            (12, summary(&["elicitation", "B"], PathKind::Struct)),
        ],
    );
    let set = collect_elicit_complete_paths(&krate, "elicitation");
    assert_eq!(set.concrete, vec!["elicitation::m::A", "elicitation::Gone", "bool"]);
    assert_eq!(set.factory, vec!["elicitation::Tuple3"]);
}
