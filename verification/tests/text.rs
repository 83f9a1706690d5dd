use elicit_doc::date::{date_of_day, today_string, Date};
use elicit_doc::error::{ElicitDocError, ElicitDocErrorKind};
use elicit_doc::inventory::{Inventory, Item, ItemKind};
use elicit_doc::order::{
    insert_text, ranked_pair_before, sort_ranked, sorted_distinct, text_key_before, texts_before,
};
use elicit_doc::table::{find_key, find_value};
use elicit_doc::text::{
    bool_word, chars_of, contains_char, contains_text, decimal_text, ends_with, final_segment,
    find_chars, has_text, is_empty, join, join_strs, pad_zeros, path_segments, push_decimal,
    replace_text, split_text, starts_with, strip_all, text_between, trim_between,
    trim_marked, with_underscores,
};

fn texts(parts: &[&str]) -> Vec<String> {
    parts.iter().map(|p| p.to_string()).collect()
}

#[test]
fn texts_are_searched() {
    assert!(starts_with("std::x", "std::") && !starts_with("st", "std"));
    assert!(ends_with("GetParams", "Params") && !ends_with("rams", "Params"));
    assert!(contains_text("a::b", "::") && !contains_text("a:b", "::") && contains_text("x", ""));
    assert!(contains_char("a<b", '<') && !contains_char("ab", '<'));
    assert_eq!(find_chars(&chars_of("aXbX"), &chars_of("X"), 2), Some(3));
    assert_eq!(find_chars(&chars_of("aXbX"), &chars_of("Y"), 0), None);
    assert_eq!(text_between(&chars_of("häuser"), 1, 3), "äu");
    assert!(is_empty("") && !is_empty(" "));
    assert!(has_text(&texts(&["a", "b"]), "b") && !has_text(&texts(&["a"]), "A"));
}

#[test]
fn texts_are_split_joined_and_replaced() {
    assert_eq!(split_text("a::b::", "::"), vec!["a", "b", ""]);
    assert_eq!(split_text("", "::"), vec![""]);
    assert_eq!(split_text(":::", "::"), vec!["", ":"]);
    assert_eq!(join(&texts(&["a", "b", "c"]), ", "), "a, b, c");
    assert_eq!(join(&Vec::new(), ", "), "");
    assert_eq!(join_strs(&vec!["x", "y"], ";"), "x;y");
    assert_eq!(join(&split_text("a--b-c", "-"), "-"), "a--b-c");
    assert_eq!(replace_text("crate::a::crate::b", "crate::", "own::"), "own::a::own::b");
    assert_eq!(replace_text("aaa", "aa", "b"), "ba");
    assert_eq!(with_underscores("geo-types-x"), "geo_types_x");
    assert_eq!(strip_all("dep:dep:serde", "dep:"), "serde");
    assert_eq!(path_segments("a::b"), vec!["a", "b"]);
    assert_eq!(final_segment("core::convert::From"), "From");
    assert_eq!(final_segment("From"), "From");
    let cs = chars_of("\u{3000} \tx y\u{a0} ");
    assert_eq!(trim_between(&cs, 0, cs.len()), "x y");
    assert_eq!(trim_between(&chars_of("   "), 0, 3), "");
    let marked = vec![('_', true), ('x', false), ('_', true), ('y', false), ('_', true)];
    assert_eq!(trim_marked(&marked), "x_y");
}

#[test]
fn numbers_and_words_are_written() {
    assert_eq!(decimal_text(0), "0");
    assert_eq!(decimal_text(6560), "6560");
    let mut out = "n=".to_string();
    push_decimal(&mut out, 340282366920938463463374607431768211455);
    assert_eq!(out, "n=340282366920938463463374607431768211455");
    assert_eq!(pad_zeros("7", 2), "07");
    assert_eq!(pad_zeros("1970", 4), "1970");
    assert_eq!(pad_zeros("12345", 4), "12345");
    assert_eq!(bool_word(true), "true");
    assert_eq!(bool_word(false), "false");
}

#[test]
fn texts_are_ordered_by_code_points() {
    assert!(text_key_before("Zeta", "alpha"));
    assert!(text_key_before("a", "ab"));
    assert!(!text_key_before("b", "b"));
    assert!(text_key_before("z", "ä"));
    assert!(texts_before(&texts(&["a"]), &texts(&["a", "b"])));
    assert!(texts_before(&texts(&["a", "b"]), &texts(&["a-b"])));
    assert!(!texts_before(&texts(&["b"]), &texts(&["a", "z"])));
    assert!(ranked_pair_before(0, "z", "z", 1, "a", "a"));
    assert!(ranked_pair_before(1, "a", "b", 1, "a", "c"));
    assert!(!ranked_pair_before(1, "b", "a", 1, "a", "c"));
}

#[test]
fn distinct_texts_come_in_order() {
    assert_eq!(sorted_distinct(&texts(&["b", "a", "b", "Z"])), vec!["Z", "a", "b"]);
    let mut list = Vec::new();
    assert!(insert_text(&mut list, "m".to_string()));
    assert!(insert_text(&mut list, "a".to_string()));
    assert!(!insert_text(&mut list, "m".to_string()));
    assert_eq!(list, vec!["a", "m"]);
}

fn item(path: &[&str], kind: ItemKind) -> Item {
    Item {
        path: texts(path),
        kind,
        name: path[path.len() - 1].to_string(),
        is_generic: false,
        lifetime_params: Vec::new(),
        type_params: Vec::new(),
    }
}

#[test]
fn sorting_is_stable() {
    let sorted = sort_ranked(vec![
        item(&["b"], ItemKind::Struct),
        item(&["a", "b"], ItemKind::Enum),
        item(&["a"], ItemKind::Trait),
        item(&["a", "b"], ItemKind::Macro),
    ]);
    let kinds: Vec<ItemKind> = sorted.iter().map(|i| i.kind).collect();
    assert_eq!(kinds, vec![ItemKind::Trait, ItemKind::Enum, ItemKind::Macro, ItemKind::Struct]);
}

#[test]
fn the_first_entry_of_a_table_counts() {
    let table = vec![("a".to_string(), 1u8), ("b".to_string(), 2), ("a".to_string(), 3)];
    assert_eq!(find_key(&table, "a"), Some(0));
    assert_eq!(find_value(&table, "b"), Some(&2));
    assert_eq!(find_value(&table, "c"), None);
}

#[test]
fn inventories_are_filtered_by_kind() {
    let inventory = Inventory {
        crate_name: "std".to_string(),
        crate_version: "1.0.0".to_string(),
        items: vec![
            item(&["std", "collections", "HashMap"], ItemKind::Struct),
            item(&["std", "io"], ItemKind::Module),
            item(&["std", "io", "Result"], ItemKind::TypeAlias),
            item(&["std", "Option"], ItemKind::Enum),
        ],
    };
    let types: Vec<String> = inventory.type_items().iter().map(|i| i.path_str()).collect();
    assert_eq!(types, vec!["std::collections::HashMap", "std::io::Result", "std::Option"]);
    assert_eq!(inventory.items_of_kind(ItemKind::Module).len(), 1);
    assert!(inventory.items_of_kind(ItemKind::Macro).is_empty());
    assert!(ItemKind::TypeAlias.is_type() && !ItemKind::Trait.is_type());
    let names: Vec<String> = [
        ItemKind::Struct,
        ItemKind::Enum,
        ItemKind::Trait,
        ItemKind::TypeAlias,
        ItemKind::Method,
        ItemKind::Function,
        ItemKind::Macro,
        ItemKind::Constant,
        ItemKind::Module,
        ItemKind::Other,
    ]
    .iter()
    .map(|k| k.to_text())
    .collect();
    assert_eq!(
        names.join(" "),
        "Struct Enum Trait TypeAlias Method Function Macro Constant Module Other"
    );
}

#[test]
fn days_become_dates() {
    assert_eq!(date_of_day(0), Date { year: 1970, month: 1, day: 1 });
    assert_eq!(date_of_day(59), Date { year: 1970, month: 3, day: 1 });
    assert_eq!(date_of_day(11016), Date { year: 2000, month: 2, day: 29 });
    assert_eq!(today_string(0), "1970-01-01");
    assert_eq!(today_string(951782400), "2000-02-29");
    assert_eq!(today_string(1782432000), "2026-06-26");
    assert_eq!(today_string(4107542399), "2100-02-28");
    assert_eq!(today_string(4107542400), "2100-03-01");
}

#[test]
fn errors_are_told_with_their_place() {
    let cases = vec![
        (ElicitDocError::cargo_invocation("x", "src/a.rs", 7), "cargo invocation failed: x"),
        (ElicitDocError::rustdoc_missing("/p", "src/a.rs", 7), "rustdoc JSON not found at /p"),
        (ElicitDocError::rustdoc_parse("x", "src/a.rs", 7), "rustdoc JSON parse error: x"),
        (ElicitDocError::cargo_metadata("x", "src/a.rs", 7), "cargo metadata error: x"),
        (ElicitDocError::io("x", "src/a.rs", 7), "IO error: x"),
        (ElicitDocError::csv("x", "src/a.rs", 7), "CSV error: x"),
    ];
    for (error, text) in cases {
        assert_eq!(error.kind.to_text(), text);
        assert_eq!(error.to_text(), format!("elicit_doc: {text} at src/a.rs:7"));
    }
    let same = ElicitDocError::new(ElicitDocErrorKind::Io("x".to_string()), "f", 1);
    assert_eq!(same.kind, ElicitDocErrorKind::Io("x".to_string()));
    assert_eq!((same.file.as_str(), same.line), ("f", 1));
}
