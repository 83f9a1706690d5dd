use std::collections::HashMap;

use elicit_doc::docs::{docs_or_fault, parse_docs};
use elicit_doc::error::ElicitDocErrorKind;
use elicit_doc::rustdoc::DocCrate;
use rustdoc_types::{Crate, Id, Item, ItemEnum, ItemKind, ItemSummary, Module, Target, Visibility};

fn documented() -> Crate {
    let root = Id(1);
    let mut index = HashMap::new();
    index.insert(
        root,
        Item {
            id: root,
            crate_id: 0,
            name: Some("url".to_string()),
            span: None,
            visibility: Visibility::Public,
            docs: None,
            links: HashMap::new(),
            attrs: Vec::new(),
            deprecation: None,
            stability: None,
            const_stability: None,
            inner: ItemEnum::Module(Module { is_crate: true, items: Vec::new(), is_stripped: false }),
        },
    );
    let mut paths = HashMap::new();
    paths.insert(
        root,
        ItemSummary { crate_id: 0, path: vec!["url".to_string()], kind: ItemKind::Module },
    );
    Crate {
        root,
        crate_version: Some("2.5.8".to_string()),
        includes_private: false,
        index,
        paths,
        external_crates: HashMap::new(),
        target: Target { triple: "x86_64-unknown-linux-gnu".to_string(), target_features: Vec::new() },
        format_version: rustdoc_types::FORMAT_VERSION,
    }
}

#[test]
fn what_rustdoc_writes_is_read() {
    let text = match serde_json::to_string(&documented()) {
        Ok(t) => t,
        Err(e) => panic!("{e}"),
    };
    match parse_docs(&text) {
        Ok(docs) => {
            assert_eq!(docs.crate_version, Some("2.5.8".to_string()));
            assert_eq!(docs.index.len(), 1);
            assert_eq!(docs.index[0].0, 1);
            assert_eq!(docs.index[0].1.name, Some("url".to_string()));
            assert!(docs.index[0].1.is_public());
            assert!(matches!(docs.index[0].1.inner, ItemEnum::Module(_)));
            assert_eq!(docs.paths.len(), 1);
            assert_eq!(docs.paths[0].0, 1);
            assert_eq!(docs.paths[0].1.path, vec!["url"]);
        },
        Err(e) => panic!("{e:?}"),
    }
}

#[test]
fn other_texts_are_refused_with_a_message() {
    let refused = |text: &str, message: &str| match parse_docs(text) {
        Ok(_) => panic!("read {text}"),
        Err(e) => assert_eq!(e, ElicitDocErrorKind::RustdocParse(message.to_string())),
    };
    refused("{", "EOF while parsing an object at line 1 column 1");
    refused("{}", "missing field `root` at line 1 column 2");
    refused("", "EOF while parsing a value at line 1 column 0");
}

#[test]
fn a_fault_is_told_in_its_own_words() {
    match docs_or_fault(Err("bad".to_string())) {
        Ok(_) => panic!("no crate was read"),
        Err(e) => assert_eq!(e, ElicitDocErrorKind::RustdocParse("bad".to_string())),
    }
    let docs = DocCrate { crate_version: None, index: Vec::new(), paths: Vec::new() };
    assert!(docs_or_fault(Ok(docs)).is_ok());
}
