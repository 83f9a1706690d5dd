//! What an inventory lists of a documented crate.

use rustdoc_types::ItemKind as PathKind;
use rustdoc_types::{GenericParamDef, Id, ItemEnum, ItemSummary, Type};
use vstd::prelude::*;

use crate::extract::{alias_items, alias_of, aliases_after, built_item, canonical_after, canonical_item};
use crate::extract::{extracted, foreign_items, found_after, in_scope, is_standard, item_signature_ids};
use crate::extract::{law_aliases_preferred, law_canonical_items, lifetime_names, member_ids};
use crate::extract::{modules_after, own_items, paths_of, reachable, reexport_ids, reexport_target};
use crate::extract::{signature_ids, stated_version, type_names, unsorted_items, FoundView};
use crate::inventory::{Item, ItemKind, ItemView};
use crate::laws::basics::lemma_contains_sum;
use crate::order::{law_sorted_members, texts_lt};
use crate::rustdoc::{function_ids, DocCrate, IndexItem};
use crate::table::{lemma_position_of, position_of, value_of};
use crate::text::{joined, underscored, views};

verus! {

/// The names of the lifetime and type parameters are those of the item, each kind in its order,
/// and the item counts as generic exactly when it has one of either.
pub open spec fn shows_params(v: ItemView, params: Seq<GenericParamDef>) -> bool {
    &&& v.lifetime_params == params.filter(
        |p: GenericParamDef| p.kind is Lifetime,
    ).map_values(|p: GenericParamDef| p.name@)
    &&& v.type_params == params.filter(|p: GenericParamDef| p.kind is Type).map_values(
        |p: GenericParamDef| p.name@,
    )
    &&& v.is_generic <==> v.lifetime_params.len() > 0 || v.type_params.len() > 0
}

/// The parameters are those of the entry of the index with the id. Structs, enums, traits and
/// type aliases have them; everything else has none.
pub open spec fn shows_entry(k: DocCrate, id: u32, v: ItemView) -> bool {
    match k.item(id) {
        Some(item) => match item.inner {
            ItemEnum::Struct(x) => shows_params(v, x.generics.params@),
            ItemEnum::Enum(x) => shows_params(v, x.generics.params@),
            ItemEnum::Trait(x) => shows_params(v, x.generics.params@),
            ItemEnum::TypeAlias(x) => shows_params(v, x.generics.params@),
            _ => shows_params(v, seq![]),
        },
        None => shows_params(v, seq![]),
    }
}

/// The kind of an inventory item stands for the kind in the table of paths.
pub open spec fn kind_agrees(kind: ItemKind, path_kind: PathKind) -> bool {
    match kind {
        ItemKind::Struct => path_kind is Struct,
        ItemKind::Enum => path_kind is Enum,
        ItemKind::Trait => path_kind is Trait,
        ItemKind::TypeAlias => path_kind is TypeAlias,
        ItemKind::Function => path_kind is Function,
        ItemKind::Macro => path_kind is Macro,
        ItemKind::Constant => path_kind is Constant,
        ItemKind::Module => path_kind is Module,
        ItemKind::Method | ItemKind::Other => false,
    }
}

/// Items of the kind and with the path can be listed.
pub open spec fn can_be_listed(kind: PathKind, path: Seq<Seq<char>>) -> bool {
    &&& kind is Struct || kind is Enum || kind is Trait || kind is TypeAlias || kind is Function
        || kind is Macro || kind is Constant || kind is Module
    &&& path.len() > 0
    &&& path.last().len() > 0
}

/// The path is one of the crate: its first segment is the key, or only begins with it where a
/// prefix is enough.
pub open spec fn belongs(path: Seq<Seq<char>>, key: Seq<char>, prefix: bool) -> bool {
    path.len() > 0 && (path[0] == key || (prefix && key.is_prefix_of(path[0])))
}

/// The path is one of the standard library.
pub open spec fn of_std(path: Seq<Seq<char>>) -> bool {
    let text = joined(path, "::"@);
    "std::"@.is_prefix_of(text) || "core::"@.is_prefix_of(text) || "alloc::"@.is_prefix_of(text)
}

/// The path of an id is one of the crate.
pub open spec fn id_belongs(k: DocCrate, id: u32, key: Seq<char>, prefix: bool) -> bool {
    match k.summary(id) {
        Some(s) => belongs(views(s.path@), key, prefix),
        None => false,
    }
}

/// The entry of the index is a public `use` of the crate that names the target.
pub open spec fn reexports(k: DocCrate, u: int, target: u32, key: Seq<char>, prefix: bool) -> bool {
    &&& 0 <= u < k.index@.len()
    &&& k.index@[u].1.visibility is Public
    &&& id_belongs(k, k.index@[u].0, key, prefix)
    &&& match k.index@[u].1.inner {
        ItemEnum::Use(x) => x.id == Some(Id(target)),
        _ => false,
    }
}

/// The path of an entry of the index.
pub open spec fn path_at(k: DocCrate, u: int) -> Seq<Seq<char>> {
    views(k.summary(k.index@[u].0)->0.path@)
}

/// The entry of the index gives an item of the crate a path under which it can be listed.
pub open spec fn gives_alias(k: DocCrate, u: int, target: u32, key: Seq<char>, prefix: bool) -> bool {
    &&& reexports(k, u, target, key, prefix)
    &&& id_belongs(k, target, key, prefix)
    &&& can_be_listed(k.summary(target)->0.kind, path_at(k, u))
}

/// A public module of the crate has the path.
pub open spec fn has_public_module(k: DocCrate, text: Seq<char>, key: Seq<char>, prefix: bool) -> bool {
    exists|m: int| #[trigger] is_public_module_at(k, m, text, key, prefix)
}

/// The entry of the table of paths is a public module of the crate with the path.
pub open spec fn is_public_module_at(
    k: DocCrate,
    m: int,
    text: Seq<char>,
    key: Seq<char>,
    prefix: bool,
) -> bool {
    &&& 0 <= m < k.paths@.len()
    &&& k.paths@[m].1.kind is Module
    &&& belongs(views(k.paths@[m].1.path@), key, prefix)
    &&& joined(views(k.paths@[m].1.path@), "::"@) == text
    &&& match k.item(k.paths@[m].0) {
        Some(item) => item.visibility is Public,
        None => false,
    }
}

/// All modules on the way from the crate to the path are public.
pub open spec fn can_be_reached(k: DocCrate, path: Seq<Seq<char>>, key: Seq<char>, prefix: bool) -> bool {
    forall|i: int|
        1 <= i < path.len() - 1 ==> has_public_module(
            k,
            joined(#[trigger] path.take(i + 1), "::"@),
            key,
            prefix,
        )
}

/// The path is shorter than the other, or as long and earlier.
pub open spec fn better_alias(a: Seq<Seq<char>>, b: Seq<Seq<char>>) -> bool {
    a.len() < b.len() || (a.len() == b.len() && texts_lt(a, b))
}

/// The entry of the index gives the item the listed path, and none gives it a better one.
pub open spec fn is_best_alias(
    k: DocCrate,
    u: int,
    target: u32,
    path: Seq<Seq<char>>,
    key: Seq<char>,
    prefix: bool,
) -> bool {
    &&& gives_alias(k, u, target, key, prefix)
    &&& path_at(k, u) == path
    &&& forall|w: int|
        #[trigger] gives_alias(k, w, target, key, prefix) ==> !better_alias(path_at(k, w), path)
}

/// The item is listed under the path of a re-export of its own crate.
pub open spec fn listed_as_alias(
    k: DocCrate,
    id: u32,
    path: Seq<Seq<char>>,
    key: Seq<char>,
    prefix: bool,
) -> bool {
    exists|u: int| #[trigger] is_best_alias(k, u, id, path, key, prefix)
}

/// The item is one of the crate that no re-export of the crate names and that can be reached.
pub open spec fn listed_as_own(
    k: DocCrate,
    id: u32,
    path: Seq<Seq<char>>,
    key: Seq<char>,
    prefix: bool,
) -> bool {
    &&& belongs(path, key, prefix)
    &&& can_be_reached(k, path, key, prefix)
    &&& forall|u: int| !(#[trigger] gives_alias(k, u, id, key, prefix))
}

/// The member of the list is a public function whose signature names the id.
pub open spec fn member_names(k: DocCrate, items: Seq<Id>, m: int, id: u32) -> bool {
    &&& 0 <= m < items.len()
    &&& match k.item(items[m].0) {
        Some(item) => item.visibility is Public && match item.inner {
            ItemEnum::Function(f) => function_ids(f).contains(id),
            _ => false,
        },
        None => false,
    }
}

/// The entry of the index has a public signature of the crate that names the id: a function, a
/// trait, or an inherent impl for a type of the crate.
pub open spec fn signature_names(k: DocCrate, n: int, id: u32, key: Seq<char>, prefix: bool) -> bool {
    &&& 0 <= n < k.index@.len()
    &&& match k.index@[n].1.inner {
        ItemEnum::Function(f) => k.index@[n].1.visibility is Public && id_belongs(
            k,
            k.index@[n].0,
            key,
            prefix,
        ) && function_ids(f).contains(id),
        ItemEnum::Trait(x) => k.index@[n].1.visibility is Public && id_belongs(
            k,
            k.index@[n].0,
            key,
            prefix,
        ) && exists|m: int| #[trigger] member_names(k, x.items@, m, id),
        ItemEnum::Impl(i) => i.trait_ is None && (match i.for_ {
            Type::ResolvedPath(p) => id_belongs(k, p.id.0, key, prefix),
            _ => false,
        }) && exists|m: int| #[trigger] member_names(k, i.items@, m, id),
        _ => false,
    }
}

/// The item is neither of the crate nor of the standard library, and the crate re-exports it or
/// names it in a public signature.
pub open spec fn listed_as_foreign(
    k: DocCrate,
    id: u32,
    path: Seq<Seq<char>>,
    key: Seq<char>,
    prefix: bool,
) -> bool {
    &&& !belongs(path, key, prefix)
    &&& !of_std(path)
    &&& (exists|u: int| #[trigger] reexports(k, u, id, key, prefix)) || (exists|n: int| #[trigger]
        signature_names(k, n, id, key, prefix))
}

/// An inventory item comes from an entry of the table of paths.
pub open spec fn comes_from(k: DocCrate, v: ItemView, j: int, key: Seq<char>, prefix: bool) -> bool {
    &&& 0 <= j < k.paths@.len()
    &&& shows_entry(k, k.paths@[j].0, v)
    &&& kind_agrees(v.kind, k.paths@[j].1.kind)
    &&& v.path.len() > 0
    &&& v.name == v.path[v.path.len() - 1]
    &&& v.name.len() > 0
    &&& {
        ||| listed_as_alias(k, k.paths@[j].0, v.path, key, prefix)
        ||| v.path == views(k.paths@[j].1.path@) && listed_as_own(
            k,
            k.paths@[j].0,
            v.path,
            key,
            prefix,
        )
        ||| v.path == views(k.paths@[j].1.path@) && listed_as_foreign(
            k,
            k.paths@[j].0,
            v.path,
            key,
            prefix,
        )
    }
}

proof fn lemma_names(s: Seq<GenericParamDef>)
    ensures
        lifetime_names(s) == s.filter(|p: GenericParamDef| p.kind is Lifetime).map_values(
            |p: GenericParamDef| p.name@,
        ),
        type_names(s) == s.filter(|p: GenericParamDef| p.kind is Type).map_values(
            |p: GenericParamDef| p.name@,
        ),
    decreases s.len(),
{
    reveal(Seq::filter);
    if s.len() > 0 {
        lemma_names(s.drop_last());
        let l = s.drop_last().filter(|p: GenericParamDef| p.kind is Lifetime);
        let t = s.drop_last().filter(|p: GenericParamDef| p.kind is Type);
        assert(l.push(s.last()).map_values(|p: GenericParamDef| p.name@) =~= l.map_values(
            |p: GenericParamDef| p.name@,
        ).push(s.last().name@));
        assert(t.push(s.last()).map_values(|p: GenericParamDef| p.name@) =~= t.map_values(
            |p: GenericParamDef| p.name@,
        ).push(s.last().name@));
    }
    assert(lifetime_names(s) =~= s.filter(|p: GenericParamDef| p.kind is Lifetime).map_values(
        |p: GenericParamDef| p.name@,
    ));
    assert(type_names(s) =~= s.filter(|p: GenericParamDef| p.kind is Type).map_values(
        |p: GenericParamDef| p.name@,
    ));
}

proof fn lemma_built(k: DocCrate, id: u32, kind: PathKind, path: Seq<Seq<char>>)
    ensures
        built_item(k, id, kind, path) is Some <==> can_be_listed(kind, path),
        built_item(k, id, kind, path) matches Some(v) ==> shows_entry(k, id, v) && kind_agrees(
            v.kind,
            kind,
        ) && v.path == path && v.name == path.last(),
{
    lemma_names(Seq::<GenericParamDef>::empty());
    match k.item(id) {
        Some(item) => match item.inner {
            ItemEnum::Struct(x) => lemma_names(x.generics.params@),
            ItemEnum::Enum(x) => lemma_names(x.generics.params@),
            ItemEnum::Trait(x) => lemma_names(x.generics.params@),
            ItemEnum::TypeAlias(x) => lemma_names(x.generics.params@),
            _ => {},
        },
        None => {},
    }
}


proof fn lemma_scope(path: Seq<Seq<char>>, key: Seq<char>, prefix: bool)
    ensures
        in_scope(path, key, prefix) == belongs(path, key, prefix),
        is_standard(joined(path, "::"@)) == of_std(path),
{
    if path.len() > 0 {
        if path[0] == key {
            assert(path[0].subrange(0, key.len() as int) =~= key);
        }
    }
}

proof fn lemma_alias(k: DocCrate, u: int, key: Seq<char>, prefix: bool)
    requires
        0 <= u < k.index@.len(),
    ensures
        reexport_target(k, k.index@[u].0, k.index@[u].1, key, prefix) matches Some(t) ==> reexports(
            k,
            u,
            t,
            key,
            prefix,
        ),
        forall|t: u32| #[trigger]
            reexports(k, u, t, key, prefix) ==> reexport_target(
                k,
                k.index@[u].0,
                k.index@[u].1,
                key,
                prefix,
            ) == Some(t),
        alias_of(k, k.index@[u].0, k.index@[u].1, key, prefix) matches Some(a) ==> gives_alias(
            k,
            u,
            a.0,
            key,
            prefix,
        ) && built_item(k, a.0, k.summary(a.0)->0.kind, path_at(k, u)) == Some(a.1),
        forall|t: u32| #[trigger]
            gives_alias(k, u, t, key, prefix) ==> (alias_of(
                k,
                k.index@[u].0,
                k.index@[u].1,
                key,
                prefix,
            ) is Some && (alias_of(k, k.index@[u].0, k.index@[u].1, key, prefix)->0).0 == t),
{
    let id = k.index@[u].0;
    match k.summary(id) {
        Some(s) => lemma_scope(views(s.path@), key, prefix),
        None => {},
    }
    match k.index@[u].1.inner {
        ItemEnum::Use(x) => match x.id {
            Some(t) => {
                match k.summary(t.0) {
                    Some(s) => lemma_scope(views(s.path@), key, prefix),
                    None => {},
                }
                lemma_built(k, t.0, k.summary(t.0)->0.kind, path_at(k, u));
                assert(Id(t.0) == t);
            },
            None => {},
        },
        _ => {},
    }
}

proof fn lemma_alias_source(k: DocCrate, n: int, key: Seq<char>, prefix: bool, i: int) -> (u: int)
    requires
        0 <= n <= k.index@.len(),
        0 <= i < aliases_after(k, k.index@.take(n), key, prefix).len(),
    ensures
        0 <= u < n,
        alias_of(k, k.index@[u].0, k.index@[u].1, key, prefix) == Some(
            aliases_after(k, k.index@.take(n), key, prefix)[i],
        ),
    decreases n,
{
    let s = k.index@.take(n);
    assert(n > 0);
    assert(s.drop_last() =~= k.index@.take(n - 1));
    assert(s.last() == k.index@[n - 1]);
    let init = aliases_after(k, k.index@.take(n - 1), key, prefix);
    let all = aliases_after(k, s, key, prefix);
    if i < init.len() && all[i] == init[i] {
        lemma_alias_source(k, n - 1, key, prefix, i)
    } else {
        let a = alias_of(k, s.last().0, s.last().1, key, prefix);
        lemma_position_of(init, (a->0).0);
        n - 1
    }
}

/// Whether an item has an alias is whether a re-export gives it one.
proof fn lemma_has_alias(k: DocCrate, id: u32, key: Seq<char>, prefix: bool)
    ensures
        position_of(aliases_after(k, k.index@, key, prefix), id) is None <==> forall|u: int|
            !(#[trigger] gives_alias(k, u, id, key, prefix)),
{
    let list = aliases_after(k, k.index@, key, prefix);
    lemma_position_of(list, id);
    match position_of(list, id) {
        Some(i) => {
            assert(k.index@.take(k.index@.len() as int) =~= k.index@);
            let u = lemma_alias_source(k, k.index@.len() as int, key, prefix, i);
            lemma_alias(k, u, key, prefix);
            assert(gives_alias(k, u, id, key, prefix));
        },
        None => {
            assert forall|u: int| !(#[trigger] gives_alias(k, u, id, key, prefix)) by {
                if gives_alias(k, u, id, key, prefix) {
                    lemma_alias(k, u, key, prefix);
                    law_aliases_preferred(k, k.index@, key, prefix, u);
                }
            }
        },
    }
}

proof fn lemma_modules(k: DocCrate, n: int, key: Seq<char>, prefix: bool, text: Seq<char>)
    requires
        0 <= n <= k.paths@.len(),
    ensures
        modules_after(k, k.paths@.take(n), key, prefix).contains(text) <==> exists|m: int|
            m < n && #[trigger] is_public_module_at(k, m, text, key, prefix),
    decreases n,
{
    if n > 0 {
        let s = k.paths@.take(n);
        assert(s.drop_last() =~= k.paths@.take(n - 1));
        assert(s.last() == k.paths@[n - 1]);
        lemma_modules(k, n - 1, key, prefix, text);
        lemma_scope(views(k.paths@[n - 1].1.path@), key, prefix);
        if is_public_module_at(k, n - 1, text, key, prefix) {
        }
    }
}

proof fn lemma_reachable(k: DocCrate, path: Seq<Seq<char>>, key: Seq<char>, prefix: bool)
    ensures
        reachable(path, modules_after(k, k.paths@, key, prefix)) <==> can_be_reached(
            k,
            path,
            key,
            prefix,
        ),
{
    assert(k.paths@.take(k.paths@.len() as int) =~= k.paths@);
    assert forall|i: int| 1 <= i < path.len() - 1 implies modules_after(k, k.paths@, key, prefix).contains(
        joined(#[trigger] path.take(i + 1), "::"@),
    ) == has_public_module(k, joined(path.take(i + 1), "::"@), key, prefix) by {
        let text = joined(path.take(i + 1), "::"@);
        lemma_modules(k, k.paths@.len() as int, key, prefix, text);
        if has_public_module(k, text, key, prefix) {
            let m = choose|m: int| #[trigger] is_public_module_at(k, m, text, key, prefix);
            assert(m < k.paths@.len());
        }
    }
}

/// The entry of the table of paths that an id has.
proof fn lemma_summary_entry(k: DocCrate, id: u32) -> (j: int)
    requires
        k.summary(id) is Some,
    ensures
        0 <= j < k.paths@.len(),
        k.paths@[j].0 == id,
        k.summary(id) == Some(k.paths@[j].1),
{
    lemma_position_of(k.paths@, id);
    position_of(k.paths@, id)->0
}

proof fn lemma_alias_comes_from(k: DocCrate, key: Seq<char>, prefix: bool, i: int) -> (j: int)
    requires
        0 <= i < aliases_after(k, k.index@, key, prefix).len(),
    ensures
        comes_from(k, aliases_after(k, k.index@, key, prefix)[i].1, j, key, prefix),
{
    let list = aliases_after(k, k.index@, key, prefix);
    assert(k.index@.take(k.index@.len() as int) =~= k.index@);
    let u = lemma_alias_source(k, k.index@.len() as int, key, prefix, i);
    let (t, v) = list[i];
    lemma_alias(k, u, key, prefix);
    lemma_built(k, t, k.summary(t)->0.kind, path_at(k, u));
    assert forall|w: int| #[trigger] gives_alias(k, w, t, key, prefix) implies !better_alias(
        path_at(k, w),
        v.path,
    ) by {
        lemma_alias(k, w, key, prefix);
        let a = alias_of(k, k.index@[w].0, k.index@[w].1, key, prefix)->0;
        lemma_built(k, t, k.summary(t)->0.kind, path_at(k, w));
        law_aliases_preferred(k, k.index@, key, prefix, w);
        lemma_position_of(list, t);
        assert(value_of(list, t) == Some(v)) by {
            let p = position_of(list, t)->0;
            if p < i {
                assert(list[p].0 != list[i].0);
            }
        }
    }
    assert(is_best_alias(k, u, t, v.path, key, prefix));
    lemma_summary_entry(k, t)
}

proof fn lemma_canonical_comes_from(k: DocCrate, key: Seq<char>, prefix: bool, v: ItemView) -> (j: int)
    requires
        canonical_after(
            k,
            k.paths@,
            aliases_after(k, k.index@, key, prefix),
            modules_after(k, k.paths@, key, prefix),
            key,
            prefix,
        ).contains(v),
    ensures
        comes_from(k, v, j, key, prefix),
{
    let aliases = aliases_after(k, k.index@, key, prefix);
    let modules = modules_after(k, k.paths@, key, prefix);
    law_canonical_items(k, k.paths@, aliases, modules, key, prefix, v);
    let j = choose|j: int|
        0 <= j < k.paths@.len() && canonical_item(
            k,
            (#[trigger] k.paths@[j]).0,
            k.paths@[j].1,
            aliases,
            modules,
            key,
            prefix,
        ) == Some(v);
    let (id, s) = k.paths@[j];
    lemma_scope(views(s.path@), key, prefix);
    lemma_has_alias(k, id, key, prefix);
    lemma_reachable(k, views(s.path@), key, prefix);
    lemma_built(k, id, s.kind, views(s.path@));
    j
}

proof fn lemma_member_ids(k: DocCrate, items: Seq<Id>, id: u32)
    ensures
        member_ids(k, items).contains(id) <==> exists|m: int| #[trigger]
            member_names(k, items, m, id),
    decreases items.len(),
{
    if items.len() > 0 {
        let init = items.drop_last();
        lemma_member_ids(k, init, id);
        let last = member_ids(k, items).skip(member_ids(k, init).len() as int);
        assert(member_ids(k, items) =~= member_ids(k, init) + last);
        lemma_contains_sum(member_ids(k, init), last, id);
        assert forall|m: int| m < init.len() implies #[trigger] member_names(k, items, m, id) == member_names(
            k,
            init,
            m,
            id,
        ) by {
            if 0 <= m {
                assert(init[m] == items[m]);
            }
        }
        assert(member_names(k, items, items.len() - 1, id) <==> last.contains(id)) by {
            assert(items[items.len() - 1] == items.last());
            match k.item(items.last().0) {
                Some(item) => match item.inner {
                    ItemEnum::Function(f) => {
                        if item.public() {
                            assert(last =~= function_ids(f));
                        }
                    },
                    _ => {},
                },
                None => {},
            }
        }
        if exists|m: int| #[trigger] member_names(k, init, m, id) {
            let m = choose|m: int| #[trigger] member_names(k, init, m, id);
            assert(member_names(k, items, m, id));
        }
        if exists|m: int| #[trigger] member_names(k, items, m, id) {
            let m = choose|m: int| #[trigger] member_names(k, items, m, id);
            if m < init.len() {
                assert(member_names(k, init, m, id));
            } else {
                assert(m == items.len() - 1);
            }
        }
    }
}

proof fn lemma_entry_signature(k: DocCrate, n: int, id: u32, key: Seq<char>, prefix: bool)
    requires
        0 <= n < k.index@.len(),
    ensures
        item_signature_ids(k, k.index@[n].0, k.index@[n].1, key, prefix).contains(id)
            <==> signature_names(k, n, id, key, prefix),
{
    match k.summary(k.index@[n].0) {
        Some(s) => lemma_scope(views(s.path@), key, prefix),
        None => {},
    }
    match k.index@[n].1.inner {
        ItemEnum::Trait(x) => lemma_member_ids(k, x.items@, id),
        ItemEnum::Impl(i) => {
            lemma_member_ids(k, i.items@, id);
            match i.for_ {
                Type::ResolvedPath(p) => match k.summary(p.id.0) {
                    Some(s) => lemma_scope(views(s.path@), key, prefix),
                    None => {},
                },
                _ => {},
            }
        },
        _ => {},
    }
}

/// The ids that re-exports and public signatures lead to.
proof fn lemma_leads(k: DocCrate, n: int, id: u32, key: Seq<char>, prefix: bool)
    requires
        0 <= n <= k.index@.len(),
    ensures
        reexport_ids(k, k.index@.take(n), key, prefix).contains(id) <==> exists|u: int|
            u < n && #[trigger] reexports(k, u, id, key, prefix),
        signature_ids(k, k.index@.take(n), key, prefix).contains(id) <==> exists|u: int|
            u < n && #[trigger] signature_names(k, u, id, key, prefix),
    decreases n,
{
    if n > 0 {
        let s = k.index@.take(n);
        let t = k.index@.take(n - 1);
        assert(s.drop_last() =~= t);
        assert(s.last() == k.index@[n - 1]);
        lemma_leads(k, n - 1, id, key, prefix);
        lemma_entry_signature(k, n - 1, id, key, prefix);
        lemma_contains_sum(
            signature_ids(k, t, key, prefix),
            item_signature_ids(k, s.last().0, s.last().1, key, prefix),
            id,
        );
        lemma_alias(k, n - 1, key, prefix);
        let rest = reexport_ids(k, t, key, prefix);
        match reexport_target(k, s.last().0, s.last().1, key, prefix) {
            Some(r) => {
                assert(rest.push(r) =~= rest + seq![r]);
                lemma_contains_sum(rest, seq![r], id);
                assert(seq![r].contains(id) <==> r == id) by {
                    assert(seq![r][0] == r);
                }
            },
            None => {},
        }
        if reexports(k, n - 1, id, key, prefix) {
        }
        if signature_names(k, n - 1, id, key, prefix) {
        }
    }
}

/// Whatever is found comes from one of the ids.
proof fn lemma_found_source(
    k: DocCrate,
    ids: Seq<u32>,
    start: FoundView,
    key: Seq<char>,
    prefix: bool,
    i: int,
) -> (n: int)
    requires
        start.items.len() == 0,
        0 <= i < found_after(k, ids, start, key, prefix).items.len(),
    ensures
        0 <= n < ids.len(),
        ({
            let v = found_after(k, ids, start, key, prefix).items[i];
            &&& k.summary(ids[n]) is Some
            &&& built_item(k, ids[n], k.summary(ids[n])->0.kind, views(k.summary(ids[n])->0.path@))
                == Some(v)
            &&& !belongs(v.path, key, prefix)
            &&& !of_std(v.path)
        }),
    decreases ids.len(),
{
    let init = ids.drop_last();
    let before = found_after(k, init, start, key, prefix).items;
    if i < before.len() {
        let n = lemma_found_source(k, init, start, key, prefix, i);
        assert(init[n] == ids[n]);
        n
    } else {
        let s = k.summary(ids.last())->0;
        lemma_scope(views(s.path@), key, prefix);
        ids.len() - 1
    }
}

proof fn lemma_foreign_comes_from(
    k: DocCrate,
    ids: Seq<u32>,
    known: Seq<ItemView>,
    key: Seq<char>,
    prefix: bool,
    i: int,
) -> (j: int)
    requires
        0 <= i < foreign_items(k, ids, known, key, prefix).len(),
        ids == reexport_ids(k, k.index@, key, prefix) || ids == signature_ids(
            k,
            k.index@,
            key,
            prefix,
        ),
    ensures
        comes_from(k, foreign_items(k, ids, known, key, prefix)[i], j, key, prefix),
{
    let start = FoundView { seen: paths_of(known), items: seq![] };
    let n = lemma_found_source(k, ids, start, key, prefix, i);
    let id = ids[n];
    let v = foreign_items(k, ids, known, key, prefix)[i];
    assert(ids.contains(id));
    assert(k.index@.take(k.index@.len() as int) =~= k.index@);
    lemma_leads(k, k.index@.len() as int, id, key, prefix);
    lemma_built(k, id, k.summary(id)->0.kind, views(k.summary(id)->0.path@));
    lemma_summary_entry(k, id)
}

/// Every item of an inventory comes from an entry of the table of paths. Its kind and name are
/// those of the entry, its parameters those of the struct, enum, trait or type alias in the
/// index. It is listed under the best public alias that a re-export of the crate gives it; or,
/// without one, under its own path, if all modules on the way are public; or it is foreign, not
/// of the standard library, and re-exported or named in a public signature.
pub proof fn law_items_come_from_entries(k: DocCrate, own_crate: Seq<char>, prefix: bool, i: int)
    requires
        0 <= i < extracted(k, own_crate, prefix).len(),
    ensures
        exists|j: int| #[trigger]
            comes_from(k, extracted(k, own_crate, prefix)[i], j, underscored(own_crate), prefix),
{
    let key = underscored(own_crate);
    let v = extracted(k, own_crate, prefix)[i];
    let aliases = aliases_after(k, k.index@, key, prefix);
    let modules = modules_after(k, k.paths@, key, prefix);
    let canonical = canonical_after(k, k.paths@, aliases, modules, key, prefix);
    let own = own_items(k, key, prefix);
    let reexported = reexport_ids(k, k.index@, key, prefix);
    let exported = own + foreign_items(k, reexported, own, key, prefix);
    let signed = signature_ids(k, k.index@, key, prefix);
    let named = foreign_items(k, signed, exported, key, prefix);
    let all = unsorted_items(k, key, prefix);
    law_sorted_members::<Item>(all, v);
    assert(extracted(k, own_crate, prefix).contains(v));
    let n = choose|n: int| 0 <= n < all.len() && all[n] == v;
    if n < alias_items(aliases).len() {
        let j = lemma_alias_comes_from(k, key, prefix, n);
        assert(comes_from(k, v, j, key, prefix));
    } else if n < own.len() {
        assert(canonical[n - alias_items(aliases).len()] == v);
        let j = lemma_canonical_comes_from(k, key, prefix, v);
        assert(comes_from(k, v, j, key, prefix));
    } else if n < exported.len() {
        let j = lemma_foreign_comes_from(k, reexported, own, key, prefix, n - own.len());
        assert(comes_from(k, v, j, key, prefix));
    } else {
        let j = lemma_foreign_comes_from(k, signed, exported, key, prefix, n - exported.len());
        assert(comes_from(k, v, j, key, prefix));
    }
}


/// An inventory lists the item that an entry of the table of paths stands for, as the entry of
/// the index shows it.
pub open spec fn lists(list: Seq<ItemView>, k: DocCrate, id: u32, kind: PathKind, path: Seq<Seq<char>>) -> bool {
    exists|i: int|
        0 <= i < list.len() && (#[trigger] list[i]).path == path && shows_entry(k, id, list[i])
            && kind_agrees(list[i].kind, kind)
}

proof fn lemma_own_is_listed(k: DocCrate, own_crate: Seq<char>, prefix: bool, v: ItemView)
    requires
        own_items(k, underscored(own_crate), prefix).contains(v),
    ensures
        extracted(k, own_crate, prefix).contains(v),
{
    let key = underscored(own_crate);
    let own = own_items(k, key, prefix);
    let all = unsorted_items(k, key, prefix);
    let n = choose|n: int| 0 <= n < own.len() && own[n] == v;
    assert(all[n] == v);
    assert(all.contains(v));
    law_sorted_members::<Item>(all, v);
}

/// An inventory lists every item of the crate that has a listed kind and a name, that no
/// re-export of the crate names, and to which public modules lead.
pub proof fn law_own_items_are_listed(k: DocCrate, own_crate: Seq<char>, prefix: bool, j: int)
    requires
        0 <= j < k.paths@.len(),
        can_be_listed(k.paths@[j].1.kind, views(k.paths@[j].1.path@)),
        listed_as_own(
            k,
            k.paths@[j].0,
            views(k.paths@[j].1.path@),
            underscored(own_crate),
            prefix,
        ),
    ensures
        lists(
            extracted(k, own_crate, prefix),
            k,
            k.paths@[j].0,
            k.paths@[j].1.kind,
            views(k.paths@[j].1.path@),
        ),
{
    let key = underscored(own_crate);
    let (id, s) = k.paths@[j];
    let path = views(s.path@);
    let aliases = aliases_after(k, k.index@, key, prefix);
    let modules = modules_after(k, k.paths@, key, prefix);
    let canonical = canonical_after(k, k.paths@, aliases, modules, key, prefix);
    lemma_scope(path, key, prefix);
    lemma_has_alias(k, id, key, prefix);
    lemma_reachable(k, path, key, prefix);
    lemma_built(k, id, s.kind, path);
    let v = built_item(k, id, s.kind, path)->0;
    assert(canonical_item(k, k.paths@[j].0, k.paths@[j].1, aliases, modules, key, prefix) == Some(v));
    law_canonical_items(k, k.paths@, aliases, modules, key, prefix, v);
    lemma_contains_sum(alias_items(aliases), canonical, v);
    lemma_own_is_listed(k, own_crate, prefix, v);
    let list = extracted(k, own_crate, prefix);
    let i = choose|i: int| 0 <= i < list.len() && list[i] == v;
    assert(list[i].path == path);
}

/// An inventory lists every item of the crate that re-exports of the crate name, under the best
/// of the paths that they give it.
pub proof fn law_reexported_items_are_listed(
    k: DocCrate,
    own_crate: Seq<char>,
    prefix: bool,
    u: int,
    target: u32,
)
    requires
        gives_alias(k, u, target, underscored(own_crate), prefix),
    ensures
        exists|w: int|
            #[trigger] gives_alias(k, w, target, underscored(own_crate), prefix) && is_best_alias(
                k,
                w,
                target,
                path_at(k, w),
                underscored(own_crate),
                prefix,
            ) && lists(
                extracted(k, own_crate, prefix),
                k,
                target,
                k.summary(target)->0.kind,
                path_at(k, w),
            ),
{
    let key = underscored(own_crate);
    let aliases = aliases_after(k, k.index@, key, prefix);
    lemma_has_alias(k, target, key, prefix);
    lemma_position_of(aliases, target);
    let p = position_of(aliases, target)->0;
    let v = aliases[p].1;
    assert(k.index@.take(k.index@.len() as int) =~= k.index@);
    let w = lemma_alias_source(k, k.index@.len() as int, key, prefix, p);
    lemma_alias(k, w, key, prefix);
    lemma_built(k, target, k.summary(target)->0.kind, path_at(k, w));
    assert forall|x: int| #[trigger] gives_alias(k, x, target, key, prefix) implies !better_alias(
        path_at(k, x),
        v.path,
    ) by {
        lemma_alias(k, x, key, prefix);
        lemma_built(k, target, k.summary(target)->0.kind, path_at(k, x));
        law_aliases_preferred(k, k.index@, key, prefix, x);
    }
    let own = own_items(k, key, prefix);
    assert(alias_items(aliases)[p] == v);
    assert(own[p] == v);
    lemma_own_is_listed(k, own_crate, prefix, v);
    let list = extracted(k, own_crate, prefix);
    let i = choose|i: int| 0 <= i < list.len() && list[i] == v;
    assert(list[i].path == path_at(k, w));
    assert(gives_alias(k, w, target, key, prefix));
}

/// An item with the path text is in the list.
pub open spec fn lists_path(list: Seq<ItemView>, text: Seq<char>) -> bool {
    exists|i: int| 0 <= i < list.len() && joined((#[trigger] list[i]).path, "::"@) == text
}

/// Every entry of the table of paths with the path text can be listed.
pub open spec fn text_can_be_listed(k: DocCrate, text: Seq<char>) -> bool {
    forall|m: int|
        0 <= m < k.paths@.len() && joined(views((#[trigger] k.paths@[m]).1.path@), "::"@) == text
            ==> can_be_listed(k.paths@[m].1.kind, views(k.paths@[m].1.path@))
}

proof fn lemma_paths_of(s: Seq<ItemView>, text: Seq<char>)
    ensures
        paths_of(s).contains(text) <==> lists_path(s, text),
    decreases s.len(),
{
    if s.len() > 0 {
        let init = s.drop_last();
        lemma_paths_of(init, text);
        if lists_path(init, text) {
            let i = choose|i: int|
                0 <= i < init.len() && joined((#[trigger] init[i]).path, "::"@) == text;
            assert(s[i] == init[i]);
        }
        if lists_path(s, text) {
            let i = choose|i: int| 0 <= i < s.len() && joined((#[trigger] s[i]).path, "::"@) == text;
            if i < init.len() {
                assert(s[i] == init[i]);
            }
        }
        assert(s[s.len() - 1] == s.last());
    }
}

/// A path text that was looked at stands in what was found, unless it was known at the start.
proof fn lemma_found_seen(
    k: DocCrate,
    ids: Seq<u32>,
    start: FoundView,
    key: Seq<char>,
    prefix: bool,
    text: Seq<char>,
)
    requires
        text_can_be_listed(k, text),
    ensures
        ({
            let found = found_after(k, ids, start, key, prefix);
            found.seen.contains(text) ==> start.seen.contains(text) || lists_path(found.items, text)
        }),
    decreases ids.len(),
{
    if ids.len() > 0 {
        let before = found_after(k, ids.drop_last(), start, key, prefix);
        let found = found_after(k, ids, start, key, prefix);
        lemma_found_seen(k, ids.drop_last(), start, key, prefix, text);
        if lists_path(before.items, text) {
            let i = choose|i: int|
                0 <= i < before.items.len() && joined((#[trigger] before.items[i]).path, "::"@) == text;
            assert(found.items[i] == before.items[i]);
        }
        if found.seen.contains(text) && !before.seen.contains(text) {
            let id = ids.last();
            let j = lemma_summary_entry(k, id);
            let s = k.paths@[j].1;
            lemma_built(k, id, s.kind, views(s.path@));
            let v = built_item(k, id, s.kind, views(s.path@))->0;
            assert(found.items[before.items.len() as int] == v);
        }
    }
}

/// The path of a foreign id is looked at.
proof fn lemma_found_all(
    k: DocCrate,
    ids: Seq<u32>,
    start: FoundView,
    key: Seq<char>,
    prefix: bool,
    n: int,
)
    requires
        0 <= n < ids.len(),
        k.summary(ids[n]) matches Some(s) && !belongs(views(s.path@), key, prefix) && !of_std(
            views(s.path@),
        ),
    ensures
        found_after(k, ids, start, key, prefix).seen.contains(
            joined(views(k.summary(ids[n])->0.path@), "::"@),
        ),
    decreases ids.len(),
{
    let init = ids.drop_last();
    lemma_scope(views(k.summary(ids[n])->0.path@), key, prefix);
    if n < init.len() {
        assert(init[n] == ids[n]);
        lemma_found_all(k, init, start, key, prefix, n);
    } else {
        assert(ids.last() == ids[n]);
    }
}

/// An inventory lists the path of every item that is neither of the crate nor of the standard
/// library and that the crate re-exports or names in a public signature, if what has the path
/// can be listed.
pub proof fn law_foreign_items_are_listed(k: DocCrate, own_crate: Seq<char>, prefix: bool, id: u32)
    requires
        k.summary(id) is Some,
        text_can_be_listed(k, joined(views(k.summary(id)->0.path@), "::"@)),
        listed_as_foreign(
            k,
            id,
            views(k.summary(id)->0.path@),
            underscored(own_crate),
            prefix,
        ),
    ensures
        lists_path(
            extracted(k, own_crate, prefix),
            joined(views(k.summary(id)->0.path@), "::"@),
        ),
{
    let key = underscored(own_crate);
    let text = joined(views(k.summary(id)->0.path@), "::"@);
    let own = own_items(k, key, prefix);
    let reexported = reexport_ids(k, k.index@, key, prefix);
    let exported = own + foreign_items(k, reexported, own, key, prefix);
    let signed = signature_ids(k, k.index@, key, prefix);
    let all = unsorted_items(k, key, prefix);
    let first = FoundView { seen: paths_of(own), items: seq![] };
    let second = FoundView { seen: paths_of(exported), items: seq![] };
    assert(k.index@.take(k.index@.len() as int) =~= k.index@);
    lemma_leads(k, k.index@.len() as int, id, key, prefix);
    lemma_paths_of(own, text);
    lemma_paths_of(exported, text);
    lemma_found_seen(k, reexported, first, key, prefix, text);
    lemma_found_seen(k, signed, second, key, prefix, text);
    let a = foreign_items(k, reexported, own, key, prefix);
    let b = foreign_items(k, signed, exported, key, prefix);
    if exists|u: int| #[trigger] reexports(k, u, id, key, prefix) {
        let u = choose|u: int| #[trigger] reexports(k, u, id, key, prefix);
        assert(u < k.index@.len());
        let n = choose|n: int| 0 <= n < reexported.len() && reexported[n] == id;
        lemma_found_all(k, reexported, first, key, prefix, n);
    } else {
        let u = choose|u: int| #[trigger] signature_names(k, u, id, key, prefix);
        assert(u < k.index@.len());
        let n = choose|n: int| 0 <= n < signed.len() && signed[n] == id;
        lemma_found_all(k, signed, second, key, prefix, n);
    }
    assert(lists_path(own, text) || lists_path(a, text) || lists_path(exported, text) || lists_path(
        b,
        text,
    ));
    let v = if lists_path(own, text) {
        let i = choose|i: int| 0 <= i < own.len() && joined((#[trigger] own[i]).path, "::"@) == text;
        assert(all[i] == own[i]);
        own[i]
    } else if lists_path(a, text) {
        let i = choose|i: int| 0 <= i < a.len() && joined((#[trigger] a[i]).path, "::"@) == text;
        assert(all[own.len() + i] == a[i]);
        a[i]
    } else if lists_path(exported, text) {
        let i = choose|i: int|
            0 <= i < exported.len() && joined((#[trigger] exported[i]).path, "::"@) == text;
        assert(all[i] == exported[i]);
        exported[i]
    } else {
        let i = choose|i: int| 0 <= i < b.len() && joined((#[trigger] b[i]).path, "::"@) == text;
        assert(all[exported.len() + i] == b[i]);
        b[i]
    };
    assert(all.contains(v));
    law_sorted_members::<Item>(all, v);
    let list = extracted(k, own_crate, prefix);
    let i = choose|i: int| 0 <= i < list.len() && list[i] == v;
    assert(joined(list[i].path, "::"@) == text);
}

/// An inventory states the version that the documentation gives, and where it gives none, says
/// that it is unknown.
pub proof fn law_stated_version(k: DocCrate)
    ensures
        k.crate_version matches Some(v) ==> stated_version(k) == v@,
        k.crate_version is None ==> stated_version(k) == "unknown"@,
{
}

}
