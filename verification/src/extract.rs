//! From a documented crate to the inventory of its public items.

use rustdoc_types::ItemKind as PathKind;
use rustdoc_types::{GenericParamDef, GenericParamDefKind, Generics, Id, Impl, ItemEnum, ItemSummary};
use rustdoc_types::Type;
use vstd::hash_set::StringHashSet;
use vstd::prelude::*;

use crate::inventory::{copy_texts, Inventory, Item, ItemKind, ItemView};
use crate::order::{in_order, law_sorted_in_order, law_sorted_members, lemma_texts_lt_irreflexive};
use crate::order::{lemma_texts_lt_transitive, sort_ranked, sorted, texts_before, texts_lt, Key};
use crate::order::Ranked;
use crate::rustdoc::{function_ids, ids_in_function, DocCrate, IndexItem, Lookup};
use crate::table::{keys_distinct, law_put, lemma_position_of, position_of, put, value_of};
use crate::text::{is_empty, join, joined, opt_view, starts, starts_with, str_eq, underscored};
use crate::text::{views, with_underscores};

verus! {

impl Ranked for Item {
    open spec fn key(v: ItemView) -> Key {
        (0, v.path)
    }

    fn before(&self, other: &Self) -> (r: bool) {
        texts_before(&self.path, &other.path)
    }
}

/// A path belongs to the crate in question: its first segment is `key`, or begins with `key`
/// where a prefix is enough.
pub open spec fn in_scope(path: Seq<Seq<char>>, key: Seq<char>, prefix: bool) -> bool {
    path.len() > 0 && if prefix {
        starts(path[0], key)
    } else {
        path[0] == key
    }
}

/// A path belongs to the standard library.
pub open spec fn is_standard(text: Seq<char>) -> bool {
    starts(text, "std::"@) || starts(text, "core::"@) || starts(text, "alloc::"@)
}

/// The text of the path of a summary.
pub open spec fn summary_text(s: ItemSummary) -> Seq<char> {
    joined(views(s.path@), "::"@)
}

/// The id has a summary whose path belongs to the crate in question.
pub open spec fn id_in_scope(k: DocCrate, id: u32, key: Seq<char>, prefix: bool) -> bool {
    match k.summary(id) {
        Some(s) => in_scope(views(s.path@), key, prefix),
        None => false,
    }
}

/// The kind that an inventory gives an item, if it lists items of that kind.
pub open spec fn listed_kind(kind: PathKind) -> Option<ItemKind> {
    match kind {
        PathKind::Struct => Some(ItemKind::Struct),
        PathKind::Enum => Some(ItemKind::Enum),
        PathKind::Trait => Some(ItemKind::Trait),
        PathKind::TypeAlias => Some(ItemKind::TypeAlias),
        PathKind::Function => Some(ItemKind::Function),
        PathKind::Macro => Some(ItemKind::Macro),
        PathKind::Constant => Some(ItemKind::Constant),
        PathKind::Module => Some(ItemKind::Module),
        _ => None,
    }
}

/// The names of the lifetime parameters, in order.
pub open spec fn lifetime_names(s: Seq<GenericParamDef>) -> Seq<Seq<char>>
    decreases s.len(),
{
    if s.len() == 0 {
        seq![]
    } else {
        let rest = lifetime_names(s.drop_last());
        if s.last().kind is Lifetime {
            rest.push(s.last().name@)
        } else {
            rest
        }
    }
}

/// The names of the type parameters, in order.
pub open spec fn type_names(s: Seq<GenericParamDef>) -> Seq<Seq<char>>
    decreases s.len(),
{
    if s.len() == 0 {
        seq![]
    } else {
        let rest = type_names(s.drop_last());
        if s.last().kind is Type {
            rest.push(s.last().name@)
        } else {
            rest
        }
    }
}

/// The parameters of structs, enums, traits and type aliases; other items have none listed.
pub open spec fn generics_of(inner: ItemEnum) -> Option<Generics> {
    match inner {
        ItemEnum::Struct(x) => Some(x.generics),
        ItemEnum::Enum(x) => Some(x.generics),
        ItemEnum::Trait(x) => Some(x.generics),
        ItemEnum::TypeAlias(x) => Some(x.generics),
        _ => None,
    }
}

/// The lifetime and the type parameters listed for an id.
pub open spec fn listed_params(k: DocCrate, id: u32) -> (Seq<Seq<char>>, Seq<Seq<char>>) {
    match k.item(id) {
        Some(item) => match generics_of(item.inner) {
            Some(g) => (lifetime_names(g.params@), type_names(g.params@)),
            None => (seq![], seq![]),
        },
        None => (seq![], seq![]),
    }
}

/// The inventory item for an id under a path, unless its kind is not listed or it has no name.
pub open spec fn built_item(k: DocCrate, id: u32, kind: PathKind, path: Seq<Seq<char>>) -> Option<
    ItemView,
> {
    match listed_kind(kind) {
        None => None,
        Some(listed) => if path.len() == 0 || path.last().len() == 0 {
            None
        } else {
            let (lifetimes, types) = listed_params(k, id);
            Some(
                ItemView {
                    path,
                    kind: listed,
                    name: path.last(),
                    is_generic: lifetimes.len() > 0 || types.len() > 0,
                    lifetime_params: lifetimes,
                    type_params: types,
                },
            )
        },
    }
}

/// One path is a better public alias than another: it is shorter, or as short and earlier.
pub open spec fn preferred(candidate: Seq<Seq<char>>, incumbent: Seq<Seq<char>>) -> bool {
    candidate.len() < incumbent.len() || (candidate.len() == incumbent.len() && texts_lt(
        candidate,
        incumbent,
    ))
}

/// The target of a public re-export that stands in the crate in question.
pub open spec fn reexport_target(k: DocCrate, id: u32, item: IndexItem, key: Seq<char>, prefix: bool) -> Option<
    u32,
> {
    match item.inner {
        ItemEnum::Use(u) => if item.public() && id_in_scope(k, id, key, prefix) {
            match u.id {
                Some(target) => Some(target.0),
                None => None,
            }
        } else {
            None
        },
        _ => None,
    }
}

/// The public alias that a re-export gives to an item of its own crate.
pub open spec fn alias_of(k: DocCrate, id: u32, item: IndexItem, key: Seq<char>, prefix: bool) -> Option<
    (u32, ItemView),
> {
    match reexport_target(k, id, item, key, prefix) {
        None => None,
        Some(t) => if !id_in_scope(k, t, key, prefix) {
            None
        } else {
            match built_item(k, t, k.summary(t)->0.kind, views(k.summary(id)->0.path@)) {
                Some(v) => Some((t, v)),
                None => None,
            }
        },
    }
}

/// The aliases with one more noted, if it is the first for its item or preferred.
pub open spec fn alias_noted(list: Seq<(u32, ItemView)>, id: u32, v: ItemView) -> Seq<
    (u32, ItemView),
> {
    match value_of(list, id) {
        Some(held) => if preferred(v.path, held.path) {
            put(list, id, v)
        } else {
            list
        },
        None => put(list, id, v),
    }
}

/// The preferred public alias of every item that a re-export of its own crate names.
pub open spec fn aliases_after(
    k: DocCrate,
    s: Seq<(u32, IndexItem)>,
    key: Seq<char>,
    prefix: bool,
) -> Seq<(u32, ItemView)>
    decreases s.len(),
{
    if s.len() == 0 {
        seq![]
    } else {
        let list = aliases_after(k, s.drop_last(), key, prefix);
        match alias_of(k, s.last().0, s.last().1, key, prefix) {
            Some(a) => alias_noted(list, a.0, a.1),
            None => list,
        }
    }
}

/// The items of a list of aliases.
pub open spec fn alias_items(s: Seq<(u32, ItemView)>) -> Seq<ItemView> {
    s.map_values(|e: (u32, ItemView)| e.1)
}

/// The entry is a public module of the crate in question.
pub open spec fn is_public_module(k: DocCrate, id: u32, s: ItemSummary, key: Seq<char>, prefix: bool) -> bool {
    in_scope(views(s.path@), key, prefix) && s.kind is Module && match k.item(id) {
        Some(item) => item.public(),
        None => false,
    }
}

/// The paths of the public modules.
pub open spec fn modules_after(
    k: DocCrate,
    s: Seq<(u32, ItemSummary)>,
    key: Seq<char>,
    prefix: bool,
) -> Set<Seq<char>>
    decreases s.len(),
{
    if s.len() == 0 {
        Set::empty()
    } else {
        let rest = modules_after(k, s.drop_last(), key, prefix);
        if is_public_module(k, s.last().0, s.last().1, key, prefix) {
            rest.insert(summary_text(s.last().1))
        } else {
            rest
        }
    }
}

/// Every module between the crate and the item is public.
pub open spec fn reachable(path: Seq<Seq<char>>, modules: Set<Seq<char>>) -> bool {
    forall|i: int|
        1 <= i < path.len() - 1 ==> modules.contains(joined(#[trigger] path.take(i + 1), "::"@))
}

/// The inventory item for an entry of the table of paths under its own path: it belongs to the
/// crate, no alias stands for it, and it can be reached.
pub open spec fn canonical_item(
    k: DocCrate,
    id: u32,
    s: ItemSummary,
    aliases: Seq<(u32, ItemView)>,
    modules: Set<Seq<char>>,
    key: Seq<char>,
    prefix: bool,
) -> Option<ItemView> {
    if in_scope(views(s.path@), key, prefix) && position_of(aliases, id) is None && reachable(
        views(s.path@),
        modules,
    ) {
        built_item(k, id, s.kind, views(s.path@))
    } else {
        None
    }
}

/// The items listed under their own paths.
pub open spec fn canonical_after(
    k: DocCrate,
    s: Seq<(u32, ItemSummary)>,
    aliases: Seq<(u32, ItemView)>,
    modules: Set<Seq<char>>,
    key: Seq<char>,
    prefix: bool,
) -> Seq<ItemView>
    decreases s.len(),
{
    if s.len() == 0 {
        seq![]
    } else {
        let rest = canonical_after(k, s.drop_last(), aliases, modules, key, prefix);
        match canonical_item(k, s.last().0, s.last().1, aliases, modules, key, prefix) {
            Some(v) => rest.push(v),
            None => rest,
        }
    }
}

/// The paths of the items of a list.
pub open spec fn paths_of(s: Seq<ItemView>) -> Set<Seq<char>>
    decreases s.len(),
{
    if s.len() == 0 {
        Set::empty()
    } else {
        paths_of(s.drop_last()).insert(s.last().path_text())
    }
}

/// Foreign items found so far, and the paths that were looked at.
#[verifier::ext_equal]
pub struct FoundView {
    pub seen: Set<Seq<char>>,
    pub items: Seq<ItemView>,
}

/// What is found with one more id: its item, if its path is foreign, not of the standard
/// library, and not looked at before.
pub open spec fn recorded(k: DocCrate, found: FoundView, id: u32, key: Seq<char>, prefix: bool) -> FoundView {
    match k.summary(id) {
        None => found,
        Some(s) => {
            let text = summary_text(s);
            if in_scope(views(s.path@), key, prefix) || is_standard(text) || found.seen.contains(text) {
                found
            } else {
                FoundView {
                    seen: found.seen.insert(text),
                    items: match built_item(k, id, s.kind, views(s.path@)) {
                        Some(v) => found.items.push(v),
                        None => found.items,
                    },
                }
            }
        },
    }
}

/// What is found with a list of ids.
pub open spec fn found_after(
    k: DocCrate,
    ids: Seq<u32>,
    start: FoundView,
    key: Seq<char>,
    prefix: bool,
) -> FoundView
    decreases ids.len(),
{
    if ids.len() == 0 {
        start
    } else {
        recorded(k, found_after(k, ids.drop_last(), start, key, prefix), ids.last(), key, prefix)
    }
}

/// The targets of the public re-exports.
pub open spec fn reexport_ids(
    k: DocCrate,
    s: Seq<(u32, IndexItem)>,
    key: Seq<char>,
    prefix: bool,
) -> Seq<u32>
    decreases s.len(),
{
    if s.len() == 0 {
        seq![]
    } else {
        let rest = reexport_ids(k, s.drop_last(), key, prefix);
        match reexport_target(k, s.last().0, s.last().1, key, prefix) {
            Some(t) => rest.push(t),
            None => rest,
        }
    }
}

/// The ids in the signatures of the public functions among the given items.
pub open spec fn member_ids(k: DocCrate, items: Seq<Id>) -> Seq<u32>
    decreases items.len(),
{
    if items.len() == 0 {
        seq![]
    } else {
        member_ids(k, items.drop_last()) + (match k.item(items.last().0) {
            Some(item) => match item.inner {
                ItemEnum::Function(f) => if item.public() {
                    function_ids(f)
                } else {
                    seq![]
                },
                _ => seq![],
            },
            None => seq![],
        })
    }
}

/// The block is an inherent impl for a type of the crate in question.
pub open spec fn is_own_inherent_impl(k: DocCrate, i: Impl, key: Seq<char>, prefix: bool) -> bool {
    i.trait_ is None && match i.for_ {
        Type::ResolvedPath(p) => id_in_scope(k, p.id.0, key, prefix),
        _ => false,
    }
}

/// The ids in the public signatures that an item of the index contributes.
pub open spec fn item_signature_ids(
    k: DocCrate,
    id: u32,
    item: IndexItem,
    key: Seq<char>,
    prefix: bool,
) -> Seq<u32> {
    match item.inner {
        ItemEnum::Function(f) => if item.public() && id_in_scope(k, id, key, prefix) {
            function_ids(f)
        } else {
            seq![]
        },
        ItemEnum::Trait(x) => if item.public() && id_in_scope(k, id, key, prefix) {
            member_ids(k, x.items@)
        } else {
            seq![]
        },
        ItemEnum::Impl(i) => if is_own_inherent_impl(k, i, key, prefix) {
            member_ids(k, i.items@)
        } else {
            seq![]
        },
        _ => seq![],
    }
}

/// The ids in the public signatures of the crate in question.
pub open spec fn signature_ids(
    k: DocCrate,
    s: Seq<(u32, IndexItem)>,
    key: Seq<char>,
    prefix: bool,
) -> Seq<u32>
    decreases s.len(),
{
    if s.len() == 0 {
        seq![]
    } else {
        signature_ids(k, s.drop_last(), key, prefix) + item_signature_ids(
            k,
            s.last().0,
            s.last().1,
            key,
            prefix,
        )
    }
}

/// The items of the crate itself: the public aliases, then those under their own paths.
pub open spec fn own_items(k: DocCrate, key: Seq<char>, prefix: bool) -> Seq<ItemView> {
    let aliases = aliases_after(k, k.index@, key, prefix);
    let modules = modules_after(k, k.paths@, key, prefix);
    alias_items(aliases) + canonical_after(k, k.paths@, aliases, modules, key, prefix)
}

/// The foreign items that ids lead to, apart from the paths of known items.
pub open spec fn foreign_items(
    k: DocCrate,
    ids: Seq<u32>,
    known: Seq<ItemView>,
    key: Seq<char>,
    prefix: bool,
) -> Seq<ItemView> {
    found_after(k, ids, (FoundView { seen: paths_of(known), items: seq![] }), key, prefix).items
}

/// The items of the crate, then the foreign items that it re-exports, then those that its
/// public signatures name.
pub open spec fn unsorted_items(k: DocCrate, key: Seq<char>, prefix: bool) -> Seq<ItemView> {
    let own = own_items(k, key, prefix);
    let exported = own + foreign_items(k, reexport_ids(k, k.index@, key, prefix), own, key, prefix);
    exported + foreign_items(k, signature_ids(k, k.index@, key, prefix), exported, key, prefix)
}

/// The public items of a crate, by path.
pub open spec fn extracted(k: DocCrate, own_crate: Seq<char>, prefix: bool) -> Seq<ItemView> {
    sorted::<Item>(unsorted_items(k, underscored(own_crate), prefix))
}

/// Whether a path belongs to the crate in question.
pub fn path_matches_scope(path: &Vec<String>, key: &str, prefix: bool) -> (r: bool)
    ensures
        r == in_scope(views(path@), key@, prefix),
{
    if path.len() == 0 {
        false
    } else if prefix {
        starts_with(path[0].as_str(), key)
    } else {
        str_eq(path[0].as_str(), key)
    }
}

/// Whether a path belongs to the standard library.
pub fn is_standard_path(text: &str) -> (r: bool)
    ensures
        r == is_standard(text@),
{
    starts_with(text, "std::") || starts_with(text, "core::") || starts_with(text, "alloc::")
}

/// Whether an id has a summary whose path belongs to the crate in question.
fn id_matches_scope(krate: &DocCrate, at: &Lookup, id: u32, key: &str, prefix: bool) -> (r: bool)
    requires
        at.of(*krate),
    ensures
        r == id_in_scope(*krate, id, key@, prefix),
{
    match at.summary(krate, id) {
        Some(s) => path_matches_scope(&s.path, key, prefix),
        None => false,
    }
}

/// The lifetime and the type parameters of an item, by name.
pub fn extract_generic_params(params: &Vec<GenericParamDef>) -> (r: (Vec<String>, Vec<String>))
    ensures
        views(r.0@) == lifetime_names(params@),
        views(r.1@) == type_names(params@),
{
    let mut lifetimes: Vec<String> = Vec::new();
    let mut types: Vec<String> = Vec::new();
    let mut i: usize = 0;
    while i < params.len()
        invariant
            i <= params.len(),
            views(lifetimes@) == lifetime_names(params@.take(i as int)),
            views(types@) == type_names(params@.take(i as int)),
        decreases params.len() - i,
    {
        let ghost l = views(lifetimes@);
        let ghost t = views(types@);
        proof {
            assert(params@.take(i + 1).drop_last() =~= params@.take(i as int));
            assert(params@.take(i + 1).last() == params@[i as int]);
        }
        match &params[i].kind {
            GenericParamDefKind::Lifetime { .. } => {
                lifetimes.push(params[i].name.clone());
                assert(views(lifetimes@) =~= l.push(params@[i as int].name@));
            },
            GenericParamDefKind::Type { .. } => {
                types.push(params[i].name.clone());
                assert(views(types@) =~= t.push(params@[i as int].name@));
            },
            _ => {},
        }
        i += 1;
    }
    proof {
        assert(params@.take(i as int) =~= params@);
    }
    (lifetimes, types)
}

fn params_listed(krate: &DocCrate, at: &Lookup, id: u32) -> (r: (Vec<String>, Vec<String>))
    requires
        at.of(*krate),
    ensures
        (views(r.0@), views(r.1@)) == listed_params(*krate, id),
{
    if let Some(item) = at.item(krate, id) {
        match &item.inner {
            ItemEnum::Struct(x) => {
                return extract_generic_params(&x.generics.params);
            },
            ItemEnum::Enum(x) => {
                return extract_generic_params(&x.generics.params);
            },
            ItemEnum::Trait(x) => {
                return extract_generic_params(&x.generics.params);
            },
            ItemEnum::TypeAlias(x) => {
                return extract_generic_params(&x.generics.params);
            },
            _ => {},
        }
    }
    let none: Vec<String> = Vec::new();
    let also_none: Vec<String> = Vec::new();
    proof {
        assert(views(none@) =~= seq![]);
        assert(views(also_none@) =~= seq![]);
    }
    (none, also_none)
}

fn kind_listed(kind: PathKind) -> (r: Option<ItemKind>)
    ensures
        r == listed_kind(kind),
{
    match kind {
        PathKind::Struct => Some(ItemKind::Struct),
        PathKind::Enum => Some(ItemKind::Enum),
        PathKind::Trait => Some(ItemKind::Trait),
        PathKind::TypeAlias => Some(ItemKind::TypeAlias),
        PathKind::Function => Some(ItemKind::Function),
        PathKind::Macro => Some(ItemKind::Macro),
        PathKind::Constant => Some(ItemKind::Constant),
        PathKind::Module => Some(ItemKind::Module),
        _ => None,
    }
}

/// The inventory item for an id under a path.
pub fn build_inventory_item(krate: &DocCrate, at: &Lookup, id: u32, kind: PathKind, path: &Vec<String>) -> (r:
    Option<Item>)
    requires
        at.of(*krate),
    ensures
        opt_view(r) == built_item(*krate, id, kind, views(path@)),
{
    match kind_listed(kind) {
        None => None,
        Some(listed) => {
            if path.len() == 0 {
                return None;
            }
            proof {
                assert(views(path@).last() == path@.last()@);
            }
            let name = path[path.len() - 1].clone();
            if is_empty(name.as_str()) {
                return None;
            }
            let (lifetime_params, type_params) = params_listed(krate, at, id);
            let is_generic = lifetime_params.len() > 0 || type_params.len() > 0;
            proof {
                assert(views(lifetime_params@).len() == lifetime_params@.len());
                assert(views(type_params@).len() == type_params@.len());
            }
            Some(
                Item {
                    path: copy_texts(path),
                    kind: listed,
                    name,
                    is_generic,
                    lifetime_params,
                    type_params,
                },
            )
        },
    }
}

/// Whether one path is a better public alias than another.
pub fn item_path_preferred_over(candidate: &Vec<String>, incumbent: &Vec<String>) -> (r: bool)
    ensures
        r == preferred(views(candidate@), views(incumbent@)),
{
    candidate.len() < incumbent.len() || (candidate.len() == incumbent.len() && texts_before(
        candidate,
        incumbent,
    ))
}

spec fn alias_views(s: Seq<(u32, Item)>) -> Seq<(u32, ItemView)> {
    s.map_values(|e: (u32, Item)| (e.0, e.1@))
}

fn find_alias(v: &Vec<(u32, Item)>, id: u32) -> (r: Option<usize>)
    ensures
        match r {
            Some(i) => i < v.len() && position_of(alias_views(v@), id) == Some(i as int),
            None => position_of(alias_views(v@), id) is None,
        },
{
    let ghost s = alias_views(v@);
    let mut i: usize = 0;
    while i < v.len()
        invariant
            i <= v.len(),
            s == alias_views(v@),
            forall|j: int| 0 <= j < i ==> (#[trigger] s[j]).0 != id,
        decreases v.len() - i,
    {
        assert(s[i as int].0 == v@[i as int].0);
        if v[i].0 == id {
            proof {
                lemma_position_of(s, id);
            }
            return Some(i);
        }
        i += 1;
    }
    proof {
        lemma_position_of(s, id);
    }
    None
}

fn find_reexport_target(krate: &DocCrate, at: &Lookup, id: u32, item: &IndexItem, key: &str, prefix: bool) -> (r:
    Option<u32>)
    requires
        at.of(*krate),
    ensures
        r == reexport_target(*krate, id, *item, key@, prefix),
{
    match &item.inner {
        ItemEnum::Use(u) => if item.is_public() && id_matches_scope(krate, at, id, key, prefix) {
            match &u.id {
                Some(target) => Some(target.0),
                None => None,
            }
        } else {
            None
        },
        _ => None,
    }
}

fn note_alias(krate: &DocCrate, at: &Lookup, id: u32, item: &IndexItem, key: &str, prefix: bool, aliases: &mut Vec<
    (u32, Item),
>)
    requires
        at.of(*krate),
    ensures
        alias_views(final(aliases)@) == match alias_of(*krate, id, *item, key@, prefix) {
            Some(a) => alias_noted(alias_views(old(aliases)@), a.0, a.1),
            None => alias_views(old(aliases)@),
        },
{
    let ghost list = alias_views(aliases@);
    let target: u32 = match find_reexport_target(krate, at, id, item, key, prefix) {
        Some(t) => t,
        None => {
            return ;
        },
    };
    let use_path = match at.summary(krate, id) {
        Some(s) => &s.path,
        None => {
            return ;
        },
    };
    let kind: PathKind = match at.summary(krate, target) {
        Some(s) => if path_matches_scope(&s.path, key, prefix) {
            s.kind
        } else {
            return ;
        },
        None => {
            return ;
        },
    };
    if let Some(alias) = build_inventory_item(krate, at, target, kind, use_path) {
        match find_alias(aliases, target) {
            Some(i) => {
                assert(list[i as int].1.path == views(aliases@[i as int].1.path@));
                if item_path_preferred_over(&alias.path, &aliases[i].1.path) {
                    let ghost v = alias@;
                    aliases.set(i, (target, alias));
                    assert(alias_views(aliases@) =~= list.update(i as int, (target, v)));
                }
            },
            None => {
                let ghost v = alias@;
                aliases.push((target, alias));
                assert(alias_views(aliases@) =~= list.push((target, v)));
            },
        }
    }
}

/// The preferred public alias of every item that a re-export of its own crate names.
fn collect_public_same_crate_reexport_aliases(krate: &DocCrate, at: &Lookup, key: &str, prefix: bool) -> (r: Vec<
    (u32, Item),
>)
    requires
        at.of(*krate),
    ensures
        alias_views(r@) == aliases_after(*krate, krate.index@, key@, prefix),
{
    let mut aliases: Vec<(u32, Item)> = Vec::new();
    let mut i: usize = 0;
    proof {
        assert(alias_views(aliases@) =~= seq![]);
    }
    while i < krate.index.len()
        invariant
            i <= krate.index.len(),
            at.of(*krate),
            alias_views(aliases@) == aliases_after(*krate, krate.index@.take(i as int), key@, prefix),
        decreases krate.index.len() - i,
    {
        proof {
            assert(krate.index@.take(i + 1).drop_last() =~= krate.index@.take(i as int));
        }
        note_alias(krate, at, krate.index[i].0, &krate.index[i].1, key, prefix, &mut aliases);
        i += 1;
    }
    proof {
        assert(krate.index@.take(i as int) =~= krate.index@);
    }
    aliases
}

/// The paths of the public modules.
fn collect_public_module_paths(krate: &DocCrate, at: &Lookup, key: &str, prefix: bool) -> (r: StringHashSet)
    requires
        at.of(*krate),
    ensures
        r@ == modules_after(*krate, krate.paths@, key@, prefix),
{
    let mut modules = StringHashSet::new();
    let mut i: usize = 0;
    while i < krate.paths.len()
        invariant
            i <= krate.paths.len(),
            at.of(*krate),
            modules@ == modules_after(*krate, krate.paths@.take(i as int), key@, prefix),
        decreases krate.paths.len() - i,
    {
        proof {
            assert(krate.paths@.take(i + 1).drop_last() =~= krate.paths@.take(i as int));
        }
        let s = &krate.paths[i].1;
        if path_matches_scope(&s.path, key, prefix) && matches!(s.kind, PathKind::Module) {
            if let Some(item) = at.item(krate, krate.paths[i].0) {
                if item.is_public() {
                    modules.insert(join(&s.path, "::"));
                }
            }
        }
        i += 1;
    }
    proof {
        assert(krate.paths@.take(i as int) =~= krate.paths@);
    }
    modules
}

fn first_texts(path: &Vec<String>, n: usize) -> (r: Vec<String>)
    requires
        n <= path.len(),
    ensures
        views(r@) == views(path@).take(n as int),
{
    let mut out: Vec<String> = Vec::new();
    let mut i: usize = 0;
    while i < n
        invariant
            i <= n <= path.len(),
            views(out@) == views(path@).take(i as int),
        decreases n - i,
    {
        let ghost held = views(out@);
        out.push(path[i].clone());
        proof {
            assert(views(out@) =~= held.push(path@[i as int]@));
            assert(views(path@).take(i + 1) =~= views(path@).take(i as int).push(views(path@)[i as int]));
        }
        i += 1;
    }
    out
}

/// Whether every module between the crate and the item is public.
pub fn item_path_is_publicly_reachable(path: &Vec<String>, modules: &StringHashSet) -> (r: bool)
    ensures
        r == reachable(views(path@), modules@),
{
    let ghost p = views(path@);
    if path.len() <= 2 {
        return true;
    }
    let mut i: usize = 1;
    while i < path.len() - 1
        invariant
            1 <= i <= path.len() - 1,
            p == views(path@),
            forall|j: int| 1 <= j < i ==> modules@.contains(joined(#[trigger] p.take(j + 1), "::"@)),
        decreases path.len() - i,
    {
        let module = join(&first_texts(path, i + 1), "::");
        if !modules.contains(module.as_str()) {
            assert(!modules@.contains(joined(p.take(i + 1), "::"@)));
            return false;
        }
        i += 1;
    }
    true
}

/// Foreign items found so far, and the paths that were looked at.
struct Found {
    seen: StringHashSet,
    items: Vec<Item>,
}

impl View for Found {
    type V = FoundView;

    closed spec fn view(&self) -> FoundView {
        FoundView { seen: self.seen@, items: views(self.items@) }
    }
}

fn record_id(krate: &DocCrate, at: &Lookup, id: u32, key: &str, prefix: bool, found: &mut Found)
    requires
        at.of(*krate),
    ensures
        final(found)@ == recorded(*krate, old(found)@, id, key@, prefix),
{
    let ghost held = views(found.items@);
    if let Some(s) = at.summary(krate, id) {
        if path_matches_scope(&s.path, key, prefix) {
            return ;
        }
        let text = join(&s.path, "::");
        if is_standard_path(text.as_str()) || found.seen.contains(text.as_str()) {
            return ;
        }
        found.seen.insert(text);
        if let Some(item) = build_inventory_item(krate, at, id, s.kind, &s.path) {
            let ghost v = item@;
            found.items.push(item);
            assert(views(found.items@) =~= held.push(v));
        }
    }
}

fn seen_paths(items: &Vec<Item>) -> (r: StringHashSet)
    ensures
        r@ == paths_of(views(items@)),
{
    let mut seen = StringHashSet::new();
    let mut i: usize = 0;
    let ghost all = views(items@);
    while i < items.len()
        invariant
            i <= items.len(),
            all == views(items@),
            seen@ == paths_of(all.take(i as int)),
        decreases items.len() - i,
    {
        proof {
            assert(all.take(i + 1).drop_last() =~= all.take(i as int));
            assert(all.take(i + 1).last() == items@[i as int]@);
        }
        seen.insert(items[i].path_str());
        i += 1;
    }
    proof {
        assert(all.take(i as int) =~= all);
    }
    seen
}

/// The foreign items that ids lead to, apart from the paths of known items.
fn collect_foreign_items(krate: &DocCrate, at: &Lookup, ids: &Vec<u32>, known: &Vec<Item>, key: &str, prefix: bool) -> (r:
    Vec<Item>)
    requires
        at.of(*krate),
    ensures
        views(r@) == foreign_items(*krate, ids@, views(known@), key@, prefix),
{
    let mut found = Found { seen: seen_paths(known), items: Vec::new() };
    let ghost start = FoundView { seen: paths_of(views(known@)), items: seq![] };
    proof {
        assert(found@.items =~= seq![]);
        assert(found@ == start);
    }
    let mut i: usize = 0;
    while i < ids.len()
        invariant
            i <= ids.len(),
            at.of(*krate),
            found@ == found_after(*krate, ids@.take(i as int), start, key@, prefix),
        decreases ids.len() - i,
    {
        proof {
            assert(ids@.take(i + 1).drop_last() =~= ids@.take(i as int));
        }
        record_id(krate, at, ids[i], key, prefix, &mut found);
        i += 1;
    }
    proof {
        assert(ids@.take(i as int) =~= ids@);
    }
    found.items
}

fn collect_reexport_ids(krate: &DocCrate, at: &Lookup, key: &str, prefix: bool) -> (r: Vec<u32>)
    requires
        at.of(*krate),
    ensures
        r@ == reexport_ids(*krate, krate.index@, key@, prefix),
{
    let mut ids: Vec<u32> = Vec::new();
    let mut i: usize = 0;
    while i < krate.index.len()
        invariant
            i <= krate.index.len(),
            at.of(*krate),
            ids@ == reexport_ids(*krate, krate.index@.take(i as int), key@, prefix),
        decreases krate.index.len() - i,
    {
        proof {
            assert(krate.index@.take(i + 1).drop_last() =~= krate.index@.take(i as int));
        }
        if let Some(t) = find_reexport_target(
            krate,
            at,
            krate.index[i].0,
            &krate.index[i].1,
            key,
            prefix,
        ) {
            ids.push(t);
        }
        i += 1;
    }
    proof {
        assert(krate.index@.take(i as int) =~= krate.index@);
    }
    ids
}

fn collect_member_ids(krate: &DocCrate, at: &Lookup, items: &Vec<Id>, ids: &mut Vec<u32>)
    requires
        at.of(*krate),
    ensures
        final(ids)@ == old(ids)@ + member_ids(*krate, items@),
{
    let mut i: usize = 0;
    while i < items.len()
        invariant
            i <= items.len(),
            at.of(*krate),
            ids@ == old(ids)@ + member_ids(*krate, items@.take(i as int)),
        decreases items.len() - i,
    {
        proof {
            assert(items@.take(i + 1).drop_last() =~= items@.take(i as int));
        }
        if let Some(item) = at.item(krate, items[i].0) {
            if item.is_public() {
                if let ItemEnum::Function(f) = &item.inner {
                    ids_in_function(f, ids);
                }
            }
        }
        i += 1;
    }
    proof {
        assert(items@.take(i as int) =~= items@);
    }
}

fn inherent_impl_targets_scope(krate: &DocCrate, at: &Lookup, i: &Impl, key: &str, prefix: bool) -> (r: bool)
    requires
        at.of(*krate),
    ensures
        r == is_own_inherent_impl(*krate, *i, key@, prefix),
{
    if i.trait_.is_some() {
        return false;
    }
    match &i.for_ {
        Type::ResolvedPath(p) => id_matches_scope(krate, at, p.id.0, key, prefix),
        _ => false,
    }
}

/// The ids in the public signatures of the crate in question.
fn collect_signature_ids(krate: &DocCrate, at: &Lookup, key: &str, prefix: bool) -> (r: Vec<u32>)
    requires
        at.of(*krate),
    ensures
        r@ == signature_ids(*krate, krate.index@, key@, prefix),
{
    let mut ids: Vec<u32> = Vec::new();
    let mut i: usize = 0;
    while i < krate.index.len()
        invariant
            i <= krate.index.len(),
            at.of(*krate),
            ids@ == signature_ids(*krate, krate.index@.take(i as int), key@, prefix),
        decreases krate.index.len() - i,
    {
        proof {
            assert(krate.index@.take(i + 1).drop_last() =~= krate.index@.take(i as int));
        }
        let id: u32 = krate.index[i].0;
        let item = &krate.index[i].1;
        match &item.inner {
            ItemEnum::Function(f) => {
                if item.is_public() && id_matches_scope(krate, at, id, key, prefix) {
                    ids_in_function(f, &mut ids);
                }
            },
            ItemEnum::Trait(x) => {
                if item.is_public() && id_matches_scope(krate, at, id, key, prefix) {
                    collect_member_ids(krate, at, &x.items, &mut ids);
                }
            },
            ItemEnum::Impl(block) => {
                if inherent_impl_targets_scope(krate, at, block, key, prefix) {
                    collect_member_ids(krate, at, &block.items, &mut ids);
                }
            },
            _ => {},
        }
        i += 1;
    }
    proof {
        assert(krate.index@.take(i as int) =~= krate.index@);
    }
    ids
}

fn append_items(items: &mut Vec<Item>, more: &Vec<Item>)
    ensures
        views(final(items)@) == views(old(items)@) + views(more@),
{
    let ghost start = views(items@);
    let ghost all = views(more@);
    let mut i: usize = 0;
    while i < more.len()
        invariant
            i <= more.len(),
            all == views(more@),
            views(items@) == start + all.take(i as int),
        decreases more.len() - i,
    {
        let ghost held = views(items@);
        items.push(more[i].clone());
        proof {
            assert(views(items@) =~= held.push(all[i as int]));
            assert(start + all.take(i + 1) =~= (start + all.take(i as int)).push(all[i as int]));
        }
        i += 1;
    }
    proof {
        assert(all.take(i as int) =~= all);
    }
}

fn collect_own_items(krate: &DocCrate, at: &Lookup, key: &str, prefix: bool) -> (r: Vec<Item>)
    requires
        at.of(*krate),
    ensures
        views(r@) == own_items(*krate, key@, prefix),
{
    let aliases = collect_public_same_crate_reexport_aliases(krate, at, key, prefix);
    let modules = collect_public_module_paths(krate, at, key, prefix);
    let ghost list = alias_views(aliases@);
    let ghost start = alias_items(list);
    let mut items: Vec<Item> = Vec::new();
    let mut i: usize = 0;
    while i < aliases.len()
        invariant
            i <= aliases.len(),
            list == alias_views(aliases@),
            start == alias_items(list),
            views(items@) == start.take(i as int),
        decreases aliases.len() - i,
    {
        let ghost held = views(items@);
        items.push(aliases[i].1.clone());
        proof {
            assert(start[i as int] == aliases@[i as int].1@);
            assert(views(items@) =~= held.push(aliases@[i as int].1@));
            assert(start.take(i + 1) =~= start.take(i as int).push(start[i as int]));
        }
        i += 1;
    }
    proof {
        assert(start.take(i as int) =~= start);
    }
    let mut j: usize = 0;
    proof {
        assert(start + canonical_after(
            *krate,
            krate.paths@.take(0),
            list,
            modules@,
            key@,
            prefix,
        ) =~= start);
    }
    while j < krate.paths.len()
        invariant
            j <= krate.paths.len(),
            at.of(*krate),
            list == alias_views(aliases@),
            views(items@) == start + canonical_after(
                *krate,
                krate.paths@.take(j as int),
                list,
                modules@,
                key@,
                prefix,
            ),
        decreases krate.paths.len() - j,
    {
        proof {
            assert(krate.paths@.take(j + 1).drop_last() =~= krate.paths@.take(j as int));
        }
        let ghost held = views(items@);
        let ghost rest = canonical_after(
            *krate,
            krate.paths@.take(j as int),
            list,
            modules@,
            key@,
            prefix,
        );
        let id: u32 = krate.paths[j].0;
        let s = &krate.paths[j].1;
        if path_matches_scope(&s.path, key, prefix) && find_alias(&aliases, id).is_none()
            && item_path_is_publicly_reachable(&s.path, &modules) {
            if let Some(item) = build_inventory_item(krate, at, id, s.kind, &s.path) {
                let ghost v = item@;
                items.push(item);
                proof {
                    assert(views(items@) =~= held.push(v));
                    assert(start + rest.push(v) =~= (start + rest).push(v));
                }
            }
        }
        j += 1;
    }
    proof {
        assert(krate.paths@.take(j as int) =~= krate.paths@);
    }
    items
}

/// The public items of a crate, by path. Umbrella crates keep most of their items in the table
/// of paths; the index adds the parameters where it has them.
pub fn extract_items(krate: &DocCrate, own_crate: &str, prefix_match: bool) -> (r: Vec<Item>)
    ensures
        views(r@) == extracted(*krate, own_crate@, prefix_match),
{
    let at = Lookup::new(krate);
    let normalized = with_underscores(own_crate);
    let key = normalized.as_str();
    let mut items = collect_own_items(krate, &at, key, prefix_match);
    let reexported = collect_reexport_ids(krate, &at, key, prefix_match);
    let exported = collect_foreign_items(krate, &at, &reexported, &items, key, prefix_match);
    append_items(&mut items, &exported);
    let named = collect_signature_ids(krate, &at, key, prefix_match);
    let foreign = collect_foreign_items(krate, &at, &named, &items, key, prefix_match);
    append_items(&mut items, &foreign);
    sort_ranked(items)
}

/// The version that an inventory states.
pub open spec fn stated_version(k: DocCrate) -> Seq<char> {
    match k.crate_version {
        Some(v) => v@,
        None => "unknown"@,
    }
}

fn build_inventory(krate: &DocCrate, crate_name: &str, prefix_match: bool) -> (r: Inventory)
    ensures
        r.crate_name@ == crate_name@,
        r.crate_version@ == stated_version(*krate),
        views(r.items@) == extracted(*krate, crate_name@, prefix_match),
{
    let crate_version = match &krate.crate_version {
        Some(v) => v.clone(),
        None => "unknown".to_string(),
    };
    Inventory {
        crate_name: crate_name.to_string(),
        crate_version,
        items: extract_items(krate, crate_name, prefix_match),
    }
}

/// The inventory of a workspace member from its documentation. Only paths that begin with
/// exactly its name count as its own.
pub fn collect_inventory(krate: &DocCrate, crate_name: &str) -> (r: Inventory)
    ensures
        r.crate_name@ == crate_name@,
        r.crate_version@ == stated_version(*krate),
        views(r.items@) == extracted(*krate, crate_name@, false),
{
    build_inventory(krate, crate_name, false)
}

/// The inventory of an external dependency from its documentation. Paths whose first segment
/// begins with its name count as its own, so that an umbrella crate covers its parts.
pub fn collect_dep_inventory(krate: &DocCrate, crate_name: &str) -> (r: Inventory)
    ensures
        r.crate_name@ == crate_name@,
        r.crate_version@ == stated_version(*krate),
        views(r.items@) == extracted(*krate, crate_name@, true),
{
    build_inventory(krate, crate_name, true)
}

/// The item bears the last segment of its path as its name, and belongs to the crate in
/// question or to a crate other than the standard library.
pub open spec fn is_listable(v: ItemView, key: Seq<char>, prefix: bool) -> bool {
    &&& v.path.len() > 0
    &&& v.name == v.path.last()
    &&& v.name.len() > 0
    &&& in_scope(v.path, key, prefix) || !is_standard(v.path_text())
}

/// All items of a list are listable.
pub open spec fn all_listable(s: Seq<ItemView>, key: Seq<char>, prefix: bool) -> bool {
    forall|i: int| 0 <= i < s.len() ==> is_listable(#[trigger] s[i], key, prefix)
}

/// An inventory comes by path. Its items are named by the last segments of their paths, and
/// those that do not belong to the crate itself do not belong to the standard library either.
pub proof fn law_extracted_items(k: DocCrate, own_crate: Seq<char>, prefix: bool)
    ensures
        in_order::<Item>(extracted(k, own_crate, prefix)),
        all_listable(extracted(k, own_crate, prefix), underscored(own_crate), prefix),
{
    let key = underscored(own_crate);
    let own = own_items(k, key, prefix);
    let exported = own + foreign_items(k, reexport_ids(k, k.index@, key, prefix), own, key, prefix);
    let all = unsorted_items(k, key, prefix);
    let list = extracted(k, own_crate, prefix);
    lemma_aliases_listable(k, k.index@, key, prefix);
    lemma_canonical_listable(
        k,
        k.paths@,
        aliases_after(k, k.index@, key, prefix),
        modules_after(k, k.paths@, key, prefix),
        key,
        prefix,
    );
    law_foreign_items(k, reexport_ids(k, k.index@, key, prefix), own, key, prefix);
    law_foreign_items(k, signature_ids(k, k.index@, key, prefix), exported, key, prefix);
    law_sorted_in_order::<Item>(all);
    assert forall|i: int| 0 <= i < list.len() implies is_listable(#[trigger] list[i], key, prefix) by {
        law_sorted_members::<Item>(all, list[i]);
        assert(list.contains(list[i]));
        let j = choose|j: int| 0 <= j < all.len() && all[j] == list[i];
        assert(is_listable(all[j], key, prefix));
    }
}

proof fn lemma_aliases_listable(k: DocCrate, s: Seq<(u32, IndexItem)>, key: Seq<char>, prefix: bool)
    ensures
        all_listable(alias_items(aliases_after(k, s, key, prefix)), key, prefix),
    decreases s.len(),
{
    let list = aliases_after(k, s, key, prefix);
    let items = alias_items(list);
    if s.len() > 0 {
        let init = aliases_after(k, s.drop_last(), key, prefix);
        lemma_aliases_listable(k, s.drop_last(), key, prefix);
        assert forall|i: int| 0 <= i < items.len() implies is_listable(#[trigger] items[i], key, prefix) by {
            if i < init.len() && list[i] == init[i] {
                assert(items[i] == alias_items(init)[i]);
            } else {
                let a = alias_of(k, s.last().0, s.last().1, key, prefix);
                lemma_position_of(init, (a->0).0);
                assert(items[i] == (a->0).1);
            }
        }
    }
}

proof fn lemma_canonical_listable(
    k: DocCrate,
    s: Seq<(u32, ItemSummary)>,
    aliases: Seq<(u32, ItemView)>,
    modules: Set<Seq<char>>,
    key: Seq<char>,
    prefix: bool,
)
    ensures
        all_listable(canonical_after(k, s, aliases, modules, key, prefix), key, prefix),
    decreases s.len(),
{
    if s.len() > 0 {
        lemma_canonical_listable(k, s.drop_last(), aliases, modules, key, prefix);
    }
}

/// An item is listed under its own path exactly when an entry of the table of paths stands for
/// it: one of the crate, without a public alias, whose modules are all public.
pub proof fn law_canonical_items(
    k: DocCrate,
    s: Seq<(u32, ItemSummary)>,
    aliases: Seq<(u32, ItemView)>,
    modules: Set<Seq<char>>,
    key: Seq<char>,
    prefix: bool,
    v: ItemView,
)
    ensures
        canonical_after(k, s, aliases, modules, key, prefix).contains(v) <==> exists|i: int|
            0 <= i < s.len() && canonical_item(
                k,
                (#[trigger] s[i]).0,
                s[i].1,
                aliases,
                modules,
                key,
                prefix,
            ) == Some(v),
    decreases s.len(),
{
    if s.len() > 0 {
        let init = s.drop_last();
        let rest = canonical_after(k, init, aliases, modules, key, prefix);
        let all = canonical_after(k, s, aliases, modules, key, prefix);
        law_canonical_items(k, init, aliases, modules, key, prefix, v);
        assert(s[s.len() - 1] == s.last());
        assert forall|i: int| 0 <= i < init.len() implies #[trigger] init[i] == s[i] by {}
        if rest.contains(v) {
            let j = choose|j: int| 0 <= j < rest.len() && rest[j] == v;
            assert(all[j] == v);
            let i = choose|i: int|
                0 <= i < init.len() && canonical_item(
                    k,
                    (#[trigger] init[i]).0,
                    init[i].1,
                    aliases,
                    modules,
                    key,
                    prefix,
                ) == Some(v);
            assert(s[i] == init[i]);
        }
        if exists|i: int|
            0 <= i < s.len() && canonical_item(
                k,
                (#[trigger] s[i]).0,
                s[i].1,
                aliases,
                modules,
                key,
                prefix,
            ) == Some(v) {
            let i = choose|i: int|
                0 <= i < s.len() && canonical_item(
                    k,
                    (#[trigger] s[i]).0,
                    s[i].1,
                    aliases,
                    modules,
                    key,
                    prefix,
                ) == Some(v);
            if i < init.len() {
                assert(init[i] == s[i]);
            } else {
                assert(all[rest.len() as int] == v);
            }
        }
    }
}

/// Every item with a public alias keeps one alias, and no re-export offers a better one.
pub proof fn law_aliases_preferred(
    k: DocCrate,
    s: Seq<(u32, IndexItem)>,
    key: Seq<char>,
    prefix: bool,
    i: int,
)
    requires
        0 <= i < s.len(),
        alias_of(k, s[i].0, s[i].1, key, prefix) is Some,
    ensures
        keys_distinct(aliases_after(k, s, key, prefix)),
        ({
            let a = alias_of(k, s[i].0, s[i].1, key, prefix)->0;
            match value_of(aliases_after(k, s, key, prefix), a.0) {
                Some(kept) => !preferred(a.1.path, kept.path),
                None => false,
            }
        }),
    decreases s.len(),
{
    let init = s.drop_last();
    let list = aliases_after(k, init, key, prefix);
    let a = alias_of(k, s[i].0, s[i].1, key, prefix)->0;
    lemma_aliases_distinct(k, s, key, prefix);
    match alias_of(k, s.last().0, s.last().1, key, prefix) {
        Some(b) => {
            law_put(list, b.0, b.1, a.0);
            lemma_texts_lt_irreflexive(b.1.path);
            if i < init.len() {
                assert(init[i] == s[i]);
                law_aliases_preferred(k, init, key, prefix, i);
                let kept = value_of(list, a.0)->0;
                if a.0 == b.0 && preferred(b.1.path, kept.path) && preferred(a.1.path, b.1.path) {
                    if a.1.path.len() == kept.path.len() {
                        lemma_texts_lt_transitive(a.1.path, b.1.path, kept.path);
                    }
                }
            }
        },
        None => {
            assert(init[i] == s[i]);
            law_aliases_preferred(k, init, key, prefix, i);
        },
    }
}

proof fn lemma_aliases_distinct(k: DocCrate, s: Seq<(u32, IndexItem)>, key: Seq<char>, prefix: bool)
    ensures
        keys_distinct(aliases_after(k, s, key, prefix)),
    decreases s.len(),
{
    if s.len() > 0 {
        let list = aliases_after(k, s.drop_last(), key, prefix);
        lemma_aliases_distinct(k, s.drop_last(), key, prefix);
        match alias_of(k, s.last().0, s.last().1, key, prefix) {
            Some(b) => law_put(list, b.0, b.1, b.0),
            None => {},
        }
    }
}

/// Foreign items are listed once, apart from known paths, and belong neither to the crate in
/// question nor to the standard library.
pub proof fn law_foreign_items(
    k: DocCrate,
    ids: Seq<u32>,
    known: Seq<ItemView>,
    key: Seq<char>,
    prefix: bool,
)
    ensures
        ({
            let items = foreign_items(k, ids, known, key, prefix);
            &&& all_listable(items, key, prefix)
            &&& forall|i: int|
                0 <= i < items.len() ==> !in_scope((#[trigger] items[i]).path, key, prefix)
                    && !is_standard(items[i].path_text()) && !paths_of(known).contains(
                    items[i].path_text(),
                )
            &&& forall|i: int, j: int|
                0 <= i < j < items.len() ==> (#[trigger] items[i]).path_text() != (
                #[trigger] items[j]).path_text()
        }),
{
    lemma_found(k, ids, FoundView { seen: paths_of(known), items: seq![] }, key, prefix);
}

proof fn lemma_found(k: DocCrate, ids: Seq<u32>, start: FoundView, key: Seq<char>, prefix: bool)
    requires
        start.items.len() == 0,
    ensures
        ({
            let found = found_after(k, ids, start, key, prefix);
            &&& start.seen.subset_of(found.seen)
            &&& all_listable(found.items, key, prefix)
            &&& forall|i: int|
                0 <= i < found.items.len() ==> !in_scope(
                    (#[trigger] found.items[i]).path,
                    key,
                    prefix,
                ) && !is_standard(found.items[i].path_text()) && !start.seen.contains(
                    found.items[i].path_text(),
                ) && found.seen.contains(found.items[i].path_text())
            &&& forall|i: int, j: int|
                0 <= i < j < found.items.len() ==> (#[trigger] found.items[i]).path_text() != (
                #[trigger] found.items[j]).path_text()
        }),
    decreases ids.len(),
{
    if ids.len() > 0 {
        lemma_found(k, ids.drop_last(), start, key, prefix);
    }
}

}
