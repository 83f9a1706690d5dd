//! What the tables say that are collected from a documented crate.

use rustdoc_types::{GenericArg, GenericArgs, GenericParamDef, Id, Impl, ItemEnum, Type};
use vstd::prelude::*;

use crate::collect::{complete_after, complete_path, connects, from_source, gives_trait, impl_wrapper};
use crate::collect::{is_factory_impl, law_complete_paths, law_listed_traits_are_implemented};
use crate::collect::{law_trenchcoat_pairs, listed_traits, lists_trait, pairs_after, prereqs_after};
use crate::collect::{root_alias, table_merged, tracked_after, tracked_paths, unwrap_ids, unwrap_ids_of};
use crate::collect::{with_trait, wrapped_ids, PathFilterView, TraitPrereqs};
use crate::inventory::{types_of, ItemView};
use crate::laws::basics::{is_key, law_first_entry_counts, lemma_contains_sum};
use crate::laws::impl_coverage::{has_root_alias, is_type, lemma_alias_is_unique, lemma_type_members};
use crate::order::{law_sorted_members, sorted};
use crate::rustdoc::{type_ids, DocCrate, IndexItem};
use crate::table::{keys_distinct, law_put, value_of};
use crate::text::{joined, last_segment, replaced, underscored, views};

verus! {

/// The path is one that the filter looks at: its first segment is the key, or begins with it
/// where a prefix is enough; or it is listed.
pub open spec fn looks_at(f: PathFilterView, path: Seq<Seq<char>>) -> bool {
    match f {
        PathFilterView::Scope { key, prefix } => {
            let first = if path.len() == 0 {
                ""@
            } else {
                path[0]
            };
            first == key || (prefix && key.is_prefix_of(first))
        },
        PathFilterView::Listed(paths) => paths.contains(joined(path, "::"@)),
    }
}

/// The entry of the index is an impl of a trait of the name for a type of the path. The trait is
/// told by the last segment of its path.
pub open spec fn impl_gives(k: DocCrate, i: int, f: PathFilterView, path: Seq<char>, name: Seq<char>) -> bool {
    &&& 0 <= i < k.index@.len()
    &&& match k.index@[i].1.inner {
        ItemEnum::Impl(b) => match (b.trait_, b.for_) {
            (Some(t), Type::ResolvedPath(p)) => last_segment(t.path@) == name && match k.summary(
                p.id.0,
            ) {
                Some(s) => looks_at(f, views(s.path@)) && joined(views(s.path@), "::"@) == path,
                None => false,
            },
            _ => false,
        },
        _ => false,
    }
}

/// Some impl gives the trait to the type of the path.
pub open spec fn has_impl(k: DocCrate, f: PathFilterView, path: Seq<char>, name: Seq<char>) -> bool {
    exists|i: int| #[trigger] impl_gives(k, i, f, path, name)
}

proof fn lemma_looks_at(f: PathFilterView, path: Seq<Seq<char>>)
    ensures
        f.admits(path) == looks_at(f, path),
{
    match f {
        PathFilterView::Scope { key, prefix } => {
            let first = if path.len() == 0 {
                ""@
            } else {
                path[0]
            };
            if first == key {
                assert(first.subrange(0, key.len() as int) =~= key);
            }
        },
        _ => {},
    }
}

proof fn lemma_gives(k: DocCrate, i: int, f: PathFilterView, path: Seq<char>, name: Seq<char>)
    requires
        0 <= i < k.index@.len(),
        crate::collect::is_supertrait(name),
    ensures
        gives_trait(k, k.index@[i].1, f, path, name) == impl_gives(k, i, f, path, name),
{
    match k.index@[i].1.inner {
        ItemEnum::Impl(b) => match (b.trait_, b.for_) {
            (Some(t), Type::ResolvedPath(p)) => match k.summary(p.id.0) {
                Some(s) => lemma_looks_at(f, views(s.path@)),
                None => {},
            },
            _ => {},
        },
        _ => {},
    }
}

proof fn lemma_listed(k: DocCrate, f: PathFilterView, path: Seq<char>, name: Seq<char>)
    requires
        crate::collect::is_supertrait(name),
    ensures
        lists_trait(listed_traits(prereqs_after(k, k.index@, f), path), name) == has_impl(
            k,
            f,
            path,
            name,
        ),
        keys_distinct(prereqs_after(k, k.index@, f)),
{
    law_listed_traits_are_implemented(k, k.index@, f, path, name);
    if has_impl(k, f, path, name) {
        let i = choose|i: int| #[trigger] impl_gives(k, i, f, path, name);
        lemma_gives(k, i, f, path, name);
        assert(gives_trait(k, k.index@[i].1, f, path, name));
    }
    if lists_trait(listed_traits(prereqs_after(k, k.index@, f), path), name) {
        let i = choose|i: int|
            0 <= i < k.index@.len() && gives_trait(k, (#[trigger] k.index@[i]).1, f, path, name);
        lemma_gives(k, i, f, path, name);
    }
}

proof fn lemma_trait_names(p: TraitPrereqs)
    ensures
        lists_trait(p, "Serialize"@) == p.serialize,
        lists_trait(p, "Deserialize"@) == p.deserialize,
        lists_trait(p, "JsonSchema"@) == p.json_schema,
        lists_trait(p, "Elicitation"@) == p.elicitation_trait,
        lists_trait(p, "ElicitIntrospect"@) == p.elicit_introspect,
        lists_trait(p, "ElicitSpec"@) == p.elicit_spec,
        lists_trait(p, "ElicitPromptTree"@) == p.elicit_prompt_tree,
        lists_trait(p, "ToCodeLiteral"@) == p.to_code_literal,
{
    reveal_strlit("Serialize");
    reveal_strlit("Deserialize");
    reveal_strlit("JsonSchema");
    reveal_strlit("Elicitation");
    reveal_strlit("ElicitIntrospect");
    reveal_strlit("ElicitSpec");
    reveal_strlit("ElicitPromptTree");
    reveal_strlit("ToCodeLiteral");
    assert("Serialize"@.len() == 9);
    assert("Deserialize"@.len() == 11);
    assert("JsonSchema"@.len() == 10);
    assert("Elicitation"@.len() == 11);
    assert("ElicitIntrospect"@.len() == 16);
    assert("ElicitSpec"@.len() == 10);
    assert("ElicitPromptTree"@.len() == 16);
    assert("ToCodeLiteral"@.len() == 13);
    assert("Deserialize"@[0] != "Elicitation"@[0]);
    assert("JsonSchema"@[0] != "ElicitSpec"@[0]);
    assert("ElicitIntrospect"@[6] != "ElicitPromptTree"@[6]);
}

/// A table of traits has a trait for a path exactly when some impl block for a type of the path,
/// if it is looked at, is one of the trait: each trait by its own name. A path is listed exactly
/// when it has one of the traits, and only once.
pub proof fn law_collected_traits(k: DocCrate, f: PathFilterView, path: Seq<char>)
    ensures
        ({
            let table = prereqs_after(k, k.index@, f);
            let p = listed_traits(table, path);
            &&& p.serialize == has_impl(k, f, path, "Serialize"@)
            &&& p.deserialize == has_impl(k, f, path, "Deserialize"@)
            &&& p.json_schema == has_impl(k, f, path, "JsonSchema"@)
            &&& p.elicitation_trait == has_impl(k, f, path, "Elicitation"@)
            &&& p.elicit_introspect == has_impl(k, f, path, "ElicitIntrospect"@)
            &&& p.elicit_spec == has_impl(k, f, path, "ElicitSpec"@)
            &&& p.elicit_prompt_tree == has_impl(k, f, path, "ElicitPromptTree"@)
            &&& p.to_code_literal == has_impl(k, f, path, "ToCodeLiteral"@)
            &&& keys_distinct(table)
            &&& is_key(table, path) <==> p.serialize || p.deserialize || p.json_schema
                || p.elicitation_trait || p.elicit_introspect || p.elicit_spec
                || p.elicit_prompt_tree || p.to_code_literal
        }),
{
    let p = listed_traits(prereqs_after(k, k.index@, f), path);
    lemma_trait_names(p);
    lemma_listed(k, f, path, "Serialize"@);
    lemma_listed(k, f, path, "Deserialize"@);
    lemma_listed(k, f, path, "JsonSchema"@);
    lemma_listed(k, f, path, "Elicitation"@);
    lemma_listed(k, f, path, "ElicitIntrospect"@);
    lemma_listed(k, f, path, "ElicitSpec"@);
    lemma_listed(k, f, path, "ElicitPromptTree"@);
    lemma_listed(k, f, path, "ToCodeLiteral"@);
    law_first_entry_counts(prereqs_after(k, k.index@, f), path);
    lemma_some_trait(k, k.index@, f, path);
}

proof fn lemma_some_trait(k: DocCrate, s: Seq<(u32, IndexItem)>, f: PathFilterView, path: Seq<char>)
    ensures
        value_of(prereqs_after(k, s, f), path) matches Some(p) ==> p.serialize || p.deserialize
            || p.json_schema || p.elicitation_trait || p.elicit_introspect || p.elicit_spec
            || p.elicit_prompt_tree || p.to_code_literal,
    decreases s.len(),
{
    if s.len() == 0 {
        law_first_entry_counts(prereqs_after(k, s, f), path);
    } else {
        let m = prereqs_after(k, s.drop_last(), f);
        lemma_some_trait(k, s.drop_last(), f, path);
        match crate::collect::implemented(k, s.last().1) {
            Some(e) => if f.admits(e.0) {
                let text = joined(e.0, "::"@);
                law_put(m, text, with_trait(listed_traits(m, text), e.1), path);
            },
            None => {},
        }
    }
}

/// A path is looked at for an inventory exactly when it is the path of one of its types or the
/// unambiguous root alias of one.
pub proof fn law_tracked_paths(items: Seq<ItemView>, crate_name: Seq<char>, path: Seq<char>)
    ensures
        tracked_paths(items, crate_name).contains(path) <==> exists|i: int|
            0 <= i < items.len() && is_type(#[trigger] items[i]) && (path == joined(
                items[i].path,
                "::"@,
            ) || (has_root_alias(items, items[i], underscored(crate_name)) && path == underscored(
                crate_name,
            ) + "::"@ + items[i].name)),
{
    let root = underscored(crate_name);
    let types = types_of(items);
    lemma_type_members(items);
    assert(types.take(types.len() as int) =~= types);
    lemma_tracked(types, types.len() as int, root, path);
    if tracked_paths(items, crate_name).contains(path) {
        let j = choose|j: int| #[trigger] tracks(types, j, root, path);
        let i = choose|i: int| 0 <= i < items.len() && items[i] == types[j];
        assert(is_type(items[i]));
        lemma_alias_is_unique(items, items[i], root);
    }
    if exists|i: int|
        0 <= i < items.len() && is_type(#[trigger] items[i]) && (path == joined(
            items[i].path,
            "::"@,
        ) || (has_root_alias(items, items[i], root) && path == root + "::"@ + items[i].name)) {
        let i = choose|i: int|
            0 <= i < items.len() && is_type(#[trigger] items[i]) && (path == joined(
                items[i].path,
                "::"@,
            ) || (has_root_alias(items, items[i], root) && path == root + "::"@ + items[i].name));
        lemma_alias_is_unique(items, items[i], root);
        let j = choose|j: int| 0 <= j < types.len() && types[j] == items[i];
        assert(tracks(types, j, root, path));
    }
}

spec fn tracks(types: Seq<ItemView>, j: int, root: Seq<char>, path: Seq<char>) -> bool {
    0 <= j < types.len() && (path == joined(types[j].path, "::"@) || root_alias(
        types,
        types[j],
        root,
    ) == Some(path))
}

proof fn lemma_tracked(types: Seq<ItemView>, n: int, root: Seq<char>, path: Seq<char>)
    requires
        0 <= n <= types.len(),
    ensures
        tracked_after(types.take(n), types, root).contains(path) <==> exists|j: int|
            j < n && #[trigger] tracks(types, j, root, path),
    decreases n,
{
    if n > 0 {
        assert(types.take(n).drop_last() =~= types.take(n - 1));
        assert(types.take(n).last() == types[n - 1]);
        lemma_tracked(types, n - 1, root, path);
        if tracks(types, n - 1, root, path) {
        }
    }
}

/// Some entry of the table for the path has the trait that is asked for.
pub open spec fn on_entry(
    table: Seq<(Seq<char>, TraitPrereqs)>,
    path: Seq<char>,
    asks: spec_fn(TraitPrereqs) -> bool,
) -> bool {
    exists|i: int| 0 <= i < table.len() && (#[trigger] table[i]).0 == path && asks(table[i].1)
}

proof fn lemma_on_entry(
    table: Seq<(Seq<char>, TraitPrereqs)>,
    path: Seq<char>,
    asks: spec_fn(TraitPrereqs) -> bool,
)
    requires
        table.len() > 0,
    ensures
        on_entry(table, path, asks) == (on_entry(table.drop_last(), path, asks) || (
        table.last().0 == path && asks(table.last().1))),
{
    let f = table.drop_last();
    if on_entry(f, path, asks) {
        let i = choose|i: int| 0 <= i < f.len() && (#[trigger] f[i]).0 == path && asks(f[i].1);
        assert(table[i] == f[i]);
    }
    if on_entry(table, path, asks) {
        let i = choose|i: int|
            0 <= i < table.len() && (#[trigger] table[i]).0 == path && asks(table[i].1);
        if i < f.len() {
            assert(f[i] == table[i]);
        }
    }
    assert(table[table.len() - 1] == table.last());
}

/// A merged table has a trait for a path exactly when one of the two tables has it, and lists the
/// paths of both.
pub proof fn law_merged_tables(
    m: Seq<(Seq<char>, TraitPrereqs)>,
    from: Seq<(Seq<char>, TraitPrereqs)>,
    path: Seq<char>,
)
    ensures
        ({
            let p = listed_traits(table_merged(m, from), path);
            let q = listed_traits(m, path);
            &&& p.serialize == (q.serialize || on_entry(from, path, |t: TraitPrereqs| t.serialize))
            &&& p.deserialize == (q.deserialize || on_entry(
                from,
                path,
                |t: TraitPrereqs| t.deserialize,
            ))
            &&& p.json_schema == (q.json_schema || on_entry(
                from,
                path,
                |t: TraitPrereqs| t.json_schema,
            ))
            &&& p.elicitation_trait == (q.elicitation_trait || on_entry(
                from,
                path,
                |t: TraitPrereqs| t.elicitation_trait,
            ))
            &&& p.elicit_introspect == (q.elicit_introspect || on_entry(
                from,
                path,
                |t: TraitPrereqs| t.elicit_introspect,
            ))
            &&& p.elicit_spec == (q.elicit_spec || on_entry(
                from,
                path,
                |t: TraitPrereqs| t.elicit_spec,
            ))
            &&& p.elicit_prompt_tree == (q.elicit_prompt_tree || on_entry(
                from,
                path,
                |t: TraitPrereqs| t.elicit_prompt_tree,
            ))
            &&& p.to_code_literal == (q.to_code_literal || on_entry(
                from,
                path,
                |t: TraitPrereqs| t.to_code_literal,
            ))
            &&& is_key(table_merged(m, from), path) <==> is_key(m, path) || is_key(from, path)
        }),
    decreases from.len(),
{
    law_first_entry_counts(table_merged(m, from), path);
    law_first_entry_counts(m, path);
    if from.len() > 0 {
        let f = from.drop_last();
        let before = table_merged(m, f);
        let e = from.last();
        law_merged_tables(m, f, path);
        law_first_entry_counts(before, path);
        law_put(before, e.0, listed_traits(before, e.0).merged(e.1), path);
        lemma_on_entry(from, path, |t: TraitPrereqs| t.serialize);
        lemma_on_entry(from, path, |t: TraitPrereqs| t.deserialize);
        lemma_on_entry(from, path, |t: TraitPrereqs| t.json_schema);
        lemma_on_entry(from, path, |t: TraitPrereqs| t.elicitation_trait);
        lemma_on_entry(from, path, |t: TraitPrereqs| t.elicit_introspect);
        lemma_on_entry(from, path, |t: TraitPrereqs| t.elicit_spec);
        lemma_on_entry(from, path, |t: TraitPrereqs| t.elicit_prompt_tree);
        lemma_on_entry(from, path, |t: TraitPrereqs| t.to_code_literal);
        assert(is_key(from, path) <==> is_key(f, path) || e.0 == path) by {
            if is_key(f, path) {
                let i = choose|i: int| 0 <= i < f.len() && (#[trigger] f[i]).0 == path;
                assert(from[i] == f[i]);
            }
            if is_key(from, path) {
                let i = choose|i: int| 0 <= i < from.len() && (#[trigger] from[i]).0 == path;
                if i < f.len() {
                    assert(f[i] == from[i]);
                }
            }
            assert(from[from.len() - 1] == e);
        }
    }
}

/// The entry of the index is an `impl ElicitComplete` for the type of the path. A type with an
/// entry in the table of paths is told by that; another by its own path with the crate's name in
/// place of `crate`; a primitive type by its name.
pub open spec fn completes_path(k: DocCrate, i: int, local: Seq<char>, path: Seq<char>) -> bool {
    &&& 0 <= i < k.index@.len()
    &&& match k.index@[i].1.inner {
        ItemEnum::Impl(b) => (match b.trait_ {
            Some(t) => t.path@ == "ElicitComplete"@,
            None => false,
        }) && match b.for_ {
            Type::ResolvedPath(p) => match k.summary(p.id.0) {
                Some(s) => path == joined(views(s.path@), "::"@),
                None => path == replaced(p.path@, "crate::"@, local + "::"@),
            },
            Type::Primitive(name) => path == name@,
            _ => false,
        },
        _ => false,
    }
}

/// The impl block of the entry has a type parameter.
pub open spec fn is_over_types(k: DocCrate, i: int) -> bool {
    match k.index@[i].1.inner {
        ItemEnum::Impl(b) => exists|n: int|
            0 <= n < b.generics.params@.len() && (#[trigger] b.generics.params@[n]).kind is Type,
        _ => false,
    }
}

/// A path is listed among the types with an impl over type parameters exactly when an
/// `impl ElicitComplete` for it has a type parameter, and among those with an impl of their own
/// exactly when one has none. No path is listed twice in either.
pub proof fn law_complete_types(k: DocCrate, local: Seq<char>, path: Seq<char>)
    ensures
        complete_after(k, k.index@, local, true).contains(path) <==> exists|i: int|
            #[trigger] completes_path(k, i, local, path) && is_over_types(k, i),
        complete_after(k, k.index@, local, false).contains(path) <==> exists|i: int|
            #[trigger] completes_path(k, i, local, path) && !is_over_types(k, i),
        complete_after(k, k.index@, local, true).no_duplicates(),
        complete_after(k, k.index@, local, false).no_duplicates(),
{
    lemma_complete(k, local, true, path);
    lemma_complete(k, local, false, path);
}

proof fn lemma_complete(k: DocCrate, local: Seq<char>, factory: bool, path: Seq<char>)
    ensures
        complete_after(k, k.index@, local, factory).contains(path) <==> exists|i: int|
            #[trigger] completes_path(k, i, local, path) && is_over_types(k, i) == factory,
        complete_after(k, k.index@, local, factory).no_duplicates(),
{
    law_complete_paths(k, k.index@, local, factory, path);
    if complete_after(k, k.index@, local, factory).contains(path) {
        let i = choose|i: int|
            0 <= i < k.index@.len() && crate::collect::completes(
                k,
                (#[trigger] k.index@[i]).1,
                local,
                factory,
                path,
            );
        assert(completes_path(k, i, local, path));
    }
    if exists|i: int| #[trigger] completes_path(k, i, local, path) && is_over_types(k, i) == factory {
        let i = choose|i: int| #[trigger]
            completes_path(k, i, local, path) && is_over_types(k, i) == factory;
        assert(crate::collect::completes(k, k.index@[i].1, local, factory, path));
    }
}

/// The member of the list is a public method `build_raw` or `into_inner` whose output names the
/// id.
pub open spec fn gives_back(k: DocCrate, methods: Seq<Id>, m: int, id: u32) -> bool {
    &&& 0 <= m < methods.len()
    &&& match k.item(methods[m].0) {
        Some(item) => item.visibility is Public && (match item.name {
            Some(name) => name@ == "build_raw"@ || name@ == "into_inner"@,
            None => false,
        }) && match item.inner {
            ItemEnum::Function(f) => match f.sig.output {
                Some(ty) => type_ids(ty, false).contains(id),
                None => false,
            },
            _ => false,
        },
        None => false,
    }
}

/// The impl block takes the item in a `From` or gives it back.
pub open spec fn converts(k: DocCrate, b: Impl, id: u32) -> bool {
    match b.trait_ {
        Some(t) => last_segment(t.path@) == "From"@ && match t.args {
            Some(a) => match *a {
                GenericArgs::AngleBracketed { args, constraints } => args@.len() > 0 && match args@[0] {
                    GenericArg::Type(ty) => match ty {
                        Type::ResolvedPath(q) => q.id.0 == id,
                        _ => false,
                    },
                    _ => false,
                },
                _ => false,
            },
            None => false,
        },
        None => exists|m: int| #[trigger] gives_back(k, b.items@, m, id),
    }
}

/// The impl block is for the type of the path. Without an entry in the table of paths it is told
/// by its own path with our crate's name in place of `crate`.
pub open spec fn is_impl_for(k: DocCrate, b: Impl, path: Seq<char>) -> bool {
    match b.for_ {
        Type::ResolvedPath(p) => match k.summary(p.id.0) {
            Some(s) => path == joined(views(s.path@), "::"@),
            None => path == replaced(p.path@, "crate::"@, "elicitation::"@),
        },
        _ => false,
    }
}

/// The entry of the index is an impl block that converts between the item and the wrapper.
pub open spec fn wraps(k: DocCrate, i: int, id: u32, wrapper: Seq<char>) -> bool {
    &&& 0 <= i < k.index@.len()
    &&& match k.index@[i].1.inner {
        ItemEnum::Impl(b) => is_impl_for(k, b, wrapper) && converts(k, b, id),
        _ => false,
    }
}

/// The path begins with the text.
pub open spec fn begins(path: Seq<char>, text: Seq<char>) -> bool {
    text.is_prefix_of(path)
}

/// The pair is one of a type that belongs neither to our crate nor to the standard library, and
/// of a type of our crate that some impl block converts from or to it.
pub open spec fn is_wrapped_pair(k: DocCrate, pair: (Seq<char>, Seq<char>)) -> bool {
    &&& begins(pair.1, "elicitation::"@)
    &&& !begins(pair.0, "elicitation::"@)
    &&& !begins(pair.0, "std::"@)
    &&& !begins(pair.0, "core::"@)
    &&& !begins(pair.0, "alloc::"@)
    &&& exists|i: int, id: u32| #[trigger]
        wraps(k, i, id, pair.1) && (match k.summary(id) {
            Some(s) => joined(views(s.path@), "::"@) == pair.0,
            None => false,
        })
}

proof fn lemma_unwrap_ids(k: DocCrate, methods: Seq<Id>, id: u32)
    ensures
        unwrap_ids_of(k, methods).contains(id) <==> exists|m: int| #[trigger]
            gives_back(k, methods, m, id),
    decreases methods.len(),
{
    if methods.len() > 0 {
        let f = methods.drop_last();
        let last = unwrap_ids(k, methods.last().0);
        lemma_unwrap_ids(k, f, id);
        lemma_contains_sum(unwrap_ids_of(k, f), last, id);
        assert(gives_back(k, methods, methods.len() - 1, id) <==> last.contains(id)) by {
            assert(methods[methods.len() - 1] == methods.last());
        }
        assert forall|m: int| m < f.len() implies #[trigger] gives_back(k, methods, m, id)
            == gives_back(k, f, m, id) by {
            if 0 <= m {
                assert(f[m] == methods[m]);
            }
        }
        if exists|m: int| #[trigger] gives_back(k, f, m, id) {
            let m = choose|m: int| #[trigger] gives_back(k, f, m, id);
            assert(gives_back(k, methods, m, id));
        }
        if exists|m: int| #[trigger] gives_back(k, methods, m, id) {
            let m = choose|m: int| #[trigger] gives_back(k, methods, m, id);
            if m < f.len() {
                assert(gives_back(k, f, m, id));
            } else {
                assert(m == methods.len() - 1);
            }
        }
    }
}

proof fn lemma_converts(k: DocCrate, b: Impl, id: u32)
    ensures
        wrapped_ids(k, b).contains(id) <==> converts(k, b, id),
{
    match b.trait_ {
        Some(t) => {
            match from_source(k, b) {
                Some(x) => {
                    assert(seq![x][0] == x);
                    assert(seq![x].contains(id) <==> x == id);
                },
                None => {},
            }
        },
        None => lemma_unwrap_ids(k, b.items@, id),
    }
}

proof fn lemma_begins(path: Seq<char>, text: Seq<char>)
    ensures
        crate::text::starts(path, text) == begins(path, text),
{
}

proof fn lemma_connects(k: DocCrate, i: int, pair: (Seq<char>, Seq<char>))
    requires
        0 <= i < k.index@.len(),
    ensures
        connects(k, k.index@[i].1, pair) ==> is_wrapped_pair(k, pair),
        forall|id: u32| #[trigger]
            wraps(k, i, id, pair.1) && is_wrapped_pair(k, pair) && (match k.summary(id) {
                Some(s) => joined(views(s.path@), "::"@) == pair.0,
                None => false,
            }) ==> connects(k, k.index@[i].1, pair),
{
    lemma_begins(pair.1, "elicitation::"@);
    lemma_begins(pair.0, "elicitation::"@);
    lemma_begins(pair.0, "std::"@);
    lemma_begins(pair.0, "core::"@);
    lemma_begins(pair.0, "alloc::"@);
    match k.index@[i].1.inner {
        ItemEnum::Impl(b) => {
            if connects(k, k.index@[i].1, pair) {
                let ids = wrapped_ids(k, b);
                let n = choose|n: int|
                    0 <= n < ids.len() && crate::collect::leads_to(k, #[trigger] ids[n], pair.0);
                assert(ids.contains(ids[n]));
                lemma_converts(k, b, ids[n]);
                assert(wraps(k, i, ids[n], pair.1));
            }
            assert forall|id: u32| #[trigger]
                wraps(k, i, id, pair.1) && is_wrapped_pair(k, pair) && (match k.summary(id) {
                    Some(s) => joined(views(s.path@), "::"@) == pair.0,
                    None => false,
                }) implies connects(k, k.index@[i].1, pair) by {
                let ids = wrapped_ids(k, b);
                lemma_converts(k, b, id);
                let n = choose|n: int| 0 <= n < ids.len() && ids[n] == id;
                assert(crate::collect::leads_to(k, ids[n], pair.0));
                assert(impl_wrapper(k, b) == Some(pair.1));
            }
        },
        _ => {},
    }
}

/// The list of wrappers has exactly the pairs of a foreign type and a type of ours that an impl
/// block converts from or to it, each once.
pub proof fn law_wrapped_pairs(k: DocCrate, pair: (Seq<char>, Seq<char>))
    ensures
        sorted::<(String, String)>(pairs_after(k, k.index@)).contains(pair) <==> is_wrapped_pair(
            k,
            pair,
        ),
        pairs_after(k, k.index@).no_duplicates(),
{
    law_sorted_members::<(String, String)>(pairs_after(k, k.index@), pair);
    law_trenchcoat_pairs(k, k.index@, pair);
    if pairs_after(k, k.index@).contains(pair) {
        let i = choose|i: int|
            0 <= i < k.index@.len() && connects(k, (#[trigger] k.index@[i]).1, pair);
        lemma_connects(k, i, pair);
    }
    if is_wrapped_pair(k, pair) {
        let (i, id) = choose|i: int, id: u32| #[trigger]
            wraps(k, i, id, pair.1) && (match k.summary(id) {
                Some(s) => joined(views(s.path@), "::"@) == pair.0,
                None => false,
            });
        lemma_connects(k, i, pair);
        assert(connects(k, k.index@[i].1, pair));
    }
}

}
