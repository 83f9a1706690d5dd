//! What a documented crate says about its types: the traits they implement, the types that are
//! complete, and the wrappers of foreign types.

use rustdoc_types::{GenericArg, GenericArgs, GenericParamDef, GenericParamDefKind, Id, Impl};
use rustdoc_types::{ItemEnum, Type};
use vstd::hash_set::StringHashSet;
use vstd::prelude::*;
use vstd::string::*;

use crate::extract::{is_standard, is_standard_path, summary_text};
use crate::inventory::{types_of, Inventory, Item, ItemView};
use crate::order::{ranked_pair_before, sort_ranked, sorted, Key, Ranked};
use crate::rustdoc::{ids_in_type, type_ids, DocCrate, IndexItem, Lookup};
use crate::table::{find_key, keyed, keys_distinct, law_put, put, value_of};
use crate::text::{final_segment, has_text, join, joined, last_segment, opt_view, replace_text};
use crate::text::{replaced, starts, starts_with, str_eq, underscored, views, with_underscores};

verus! {

/// Which of the eight supertraits of `ElicitComplete` a type implements.
///
/// The first three belong to other crates, so that the orphan rule keeps us from adding them
/// to external types. The other five are our own and can always be added.
#[derive(Clone, Copy, Debug, PartialEq, Eq, Structural)]
pub struct TraitPrereqs {
    pub serialize: bool,
    pub deserialize: bool,
    pub json_schema: bool,
    pub elicitation_trait: bool,
    pub elicit_introspect: bool,
    pub elicit_spec: bool,
    pub elicit_prompt_tree: bool,
    pub to_code_literal: bool,
}

/// `s` with a name at its end, unless it names something present.
pub open spec fn with_absent(s: Seq<Seq<char>>, present: bool, name: Seq<char>) -> Seq<Seq<char>> {
    if present {
        s
    } else {
        s.push(name)
    }
}

impl TraitPrereqs {
    /// No trait is implemented.
    pub open spec fn none() -> Self {
        TraitPrereqs {
            serialize: false,
            deserialize: false,
            json_schema: false,
            elicitation_trait: false,
            elicit_introspect: false,
            elicit_spec: false,
            elicit_prompt_tree: false,
            to_code_literal: false,
        }
    }

    /// The traits implemented according to either.
    pub open spec fn merged(self, o: Self) -> Self {
        TraitPrereqs {
            serialize: self.serialize || o.serialize,
            deserialize: self.deserialize || o.deserialize,
            json_schema: self.json_schema || o.json_schema,
            elicitation_trait: self.elicitation_trait || o.elicitation_trait,
            elicit_introspect: self.elicit_introspect || o.elicit_introspect,
            elicit_spec: self.elicit_spec || o.elicit_spec,
            elicit_prompt_tree: self.elicit_prompt_tree || o.elicit_prompt_tree,
            to_code_literal: self.to_code_literal || o.to_code_literal,
        }
    }

    /// Every trait of this is one of the other.
    pub open spec fn within(self, o: Self) -> bool {
        self.merged(o) == o
    }

    /// The three external traits are implemented.
    pub open spec fn direct(self) -> bool {
        self.serialize && self.deserialize && self.json_schema
    }

    /// Our five traits are implemented.
    pub open spec fn ours(self) -> bool {
        self.elicitation_trait && self.elicit_introspect && self.elicit_spec
            && self.elicit_prompt_tree && self.to_code_literal
    }

    /// The names of those of our traits that are missing. Where a lifetime blocks `Elicitation`,
    /// that trait and `ElicitIntrospect` are not expected.
    pub open spec fn our_missing(self, blocked: bool) -> Seq<Seq<char>> {
        let s = with_absent(seq![], self.elicitation_trait || blocked, "Elicitation"@);
        let s = with_absent(s, self.elicit_introspect || blocked, "ElicitIntrospect"@);
        let s = with_absent(s, self.elicit_spec, "ElicitSpec"@);
        let s = with_absent(s, self.elicit_prompt_tree, "ElicitPromptTree"@);
        with_absent(s, self.to_code_literal, "ToCodeLiteral"@)
    }

    /// The names of the external traits that are missing.
    pub open spec fn external_missing(self) -> Seq<Seq<char>> {
        let s = with_absent(seq![], self.serialize, "Serialize"@);
        let s = with_absent(s, self.deserialize, "Deserialize"@);
        with_absent(s, self.json_schema, "JsonSchema"@)
    }

    /// The names of the external traits that are missing, marked as absent.
    pub open spec fn external_absent(self) -> Seq<Seq<char>> {
        let s = with_absent(seq![], self.serialize, "Serialize(absent)"@);
        let s = with_absent(s, self.deserialize, "Deserialize(absent)"@);
        with_absent(s, self.json_schema, "JsonSchema(absent)"@)
    }
}

/// Merging a second time changes nothing.
pub proof fn law_merge_idempotent(a: TraitPrereqs, b: TraitPrereqs)
    ensures
        a.merged(b).merged(b) == a.merged(b),
        a.merged(a) == a,
{
}

/// The order of merging does not matter.
pub proof fn law_merge_commutes(a: TraitPrereqs, b: TraitPrereqs, c: TraitPrereqs)
    ensures
        a.merged(b) == b.merged(a),
        a.merged(b).merged(c) == a.merged(b.merged(c)),
{
}

/// Merging only adds traits, and adds no more than the other has.
pub proof fn law_merge_adds(a: TraitPrereqs, b: TraitPrereqs)
    ensures
        a.within(a.merged(b)),
        b.within(a.merged(b)),
        a.direct() || b.direct() ==> a.merged(b).direct(),
        a.ours() || b.ours() ==> a.merged(b).ours(),
        TraitPrereqs::none().merged(a) == a,
{
}

/// Nothing is listed as missing exactly when the traits in question are all there.
pub proof fn law_missing_lists_are_exact(p: TraitPrereqs)
    ensures
        p.our_missing(false).len() == 0 <==> p.ours(),
        p.external_missing().len() == 0 <==> p.direct(),
        p.external_absent().len() == p.external_missing().len(),
        p.our_missing(true).len() <= p.our_missing(false).len() <= 5,
{
}

fn push_absent(out: &mut Vec<&'static str>, present: bool, name: &'static str)
    ensures
        views(final(out)@) == with_absent(views(old(out)@), present, name@),
{
    let ghost held = views(out@);
    if !present {
        out.push(name);
        assert(views(out@) =~= held.push(name@));
    }
}

fn push_absent_text(out: &mut Vec<String>, present: bool, name: &str)
    ensures
        views(final(out)@) == with_absent(views(old(out)@), present, name@),
{
    let ghost held = views(out@);
    if !present {
        out.push(name.to_string());
        assert(views(out@) =~= held.push(name@));
    }
}

impl Default for TraitPrereqs {
    fn default() -> (r: Self)
        ensures
            r == TraitPrereqs::none(),
    {
        TraitPrereqs {
            serialize: false,
            deserialize: false,
            json_schema: false,
            elicitation_trait: false,
            elicit_introspect: false,
            elicit_spec: false,
            elicit_prompt_tree: false,
            to_code_literal: false,
        }
    }
}

impl TraitPrereqs {
    /// Adds the traits of another set.
    pub fn merge(&mut self, other: &TraitPrereqs)
        ensures
            *final(self) == old(self).merged(*other),
    {
        self.serialize = self.serialize || other.serialize;
        self.deserialize = self.deserialize || other.deserialize;
        self.json_schema = self.json_schema || other.json_schema;
        self.elicitation_trait = self.elicitation_trait || other.elicitation_trait;
        self.elicit_introspect = self.elicit_introspect || other.elicit_introspect;
        self.elicit_spec = self.elicit_spec || other.elicit_spec;
        self.elicit_prompt_tree = self.elicit_prompt_tree || other.elicit_prompt_tree;
        self.to_code_literal = self.to_code_literal || other.to_code_literal;
    }

    /// True when the three traits that we cannot add to external types are there.
    pub fn can_be_direct(&self) -> (r: bool)
        ensures
            r == self.direct(),
    {
        self.serialize && self.deserialize && self.json_schema
    }

    /// The names of our missing traits, without those that a lifetime blocks.
    pub(crate) fn missing_unblocked(&self, blocked: bool) -> (r: Vec<&'static str>)
        ensures
            views(r@) == self.our_missing(blocked),
    {
        let mut missing: Vec<&'static str> = Vec::new();
        assert(views(missing@) =~= seq![]);
        push_absent(&mut missing, self.elicitation_trait || blocked, "Elicitation");
        push_absent(&mut missing, self.elicit_introspect || blocked, "ElicitIntrospect");
        push_absent(&mut missing, self.elicit_spec, "ElicitSpec");
        push_absent(&mut missing, self.elicit_prompt_tree, "ElicitPromptTree");
        push_absent(&mut missing, self.to_code_literal, "ToCodeLiteral");
        missing
    }

    /// The names of those of our five traits that are missing.
    pub fn missing_our_traits(&self) -> (r: Vec<&'static str>)
        ensures
            views(r@) == self.our_missing(false),
    {
        self.missing_unblocked(false)
    }

    /// True when our five traits are all there.
    pub fn our_traits_complete(&self) -> (r: bool)
        ensures
            r == self.ours(),
    {
        self.elicitation_trait && self.elicit_introspect && self.elicit_spec
            && self.elicit_prompt_tree && self.to_code_literal
    }

    /// The names of the external traits that are missing.
    pub fn external_blockers(&self) -> (r: Vec<&'static str>)
        ensures
            views(r@) == self.external_missing(),
    {
        let mut missing: Vec<&'static str> = Vec::new();
        assert(views(missing@) =~= seq![]);
        push_absent(&mut missing, self.serialize, "Serialize");
        push_absent(&mut missing, self.deserialize, "Deserialize");
        push_absent(&mut missing, self.json_schema, "JsonSchema");
        missing
    }

    /// The names of the external traits that are missing, marked as absent.
    pub fn external_blockers_absent(&self) -> (r: Vec<String>)
        ensures
            views(r@) == self.external_absent(),
    {
        let mut missing: Vec<String> = Vec::new();
        assert(views(missing@) =~= seq![]);
        push_absent_text(&mut missing, self.serialize, "Serialize(absent)");
        push_absent_text(&mut missing, self.deserialize, "Deserialize(absent)");
        push_absent_text(&mut missing, self.json_schema, "JsonSchema(absent)");
        missing
    }
}

/// How a workspace depends on an upstream crate.
#[derive(Clone, Debug, Default, PartialEq, Eq)]
pub struct DepBuildConfig {
    /// The features that the dependency declaration enables.
    pub activated_features: Vec<String>,
    /// Whether the default features stay enabled.
    pub uses_default_features: bool,
}

/// What enabling more features of a crate would do for one type.
#[derive(Clone, Debug, Default, PartialEq, Eq)]
pub struct TypeFeatureProbe {
    /// The package whose features are meant.
    pub feature_crate: String,
    /// Features that exist upstream but are not active.
    pub candidate_unlock_features: Vec<String>,
    /// The traits seen with the candidate features enabled.
    pub probed_prereqs: Option<TraitPrereqs>,
}

/// The contents of a [`TypeFeatureProbe`].
#[verifier::ext_equal]
pub struct TypeFeatureProbeView {
    pub feature_crate: Seq<char>,
    pub candidate_unlock_features: Seq<Seq<char>>,
    pub probed_prereqs: Option<TraitPrereqs>,
}

impl View for TypeFeatureProbe {
    type V = TypeFeatureProbeView;

    open spec fn view(&self) -> TypeFeatureProbeView {
        TypeFeatureProbeView {
            feature_crate: self.feature_crate@,
            candidate_unlock_features: views(self.candidate_unlock_features@),
            probed_prereqs: self.probed_prereqs,
        }
    }
}

/// The name is that of a supertrait of `ElicitComplete`.
pub open spec fn is_supertrait(name: Seq<char>) -> bool {
    name == "Serialize"@ || name == "Deserialize"@ || name == "JsonSchema"@ || name
        == "Elicitation"@ || name == "ElicitIntrospect"@ || name == "ElicitSpec"@ || name
        == "ElicitPromptTree"@ || name == "ToCodeLiteral"@
}

/// The traits with the one of the given name among them.
pub open spec fn with_trait(p: TraitPrereqs, name: Seq<char>) -> TraitPrereqs {
    if name == "Serialize"@ {
        TraitPrereqs { serialize: true, ..p }
    } else if name == "Deserialize"@ {
        TraitPrereqs { deserialize: true, ..p }
    } else if name == "JsonSchema"@ {
        TraitPrereqs { json_schema: true, ..p }
    } else if name == "Elicitation"@ {
        TraitPrereqs { elicitation_trait: true, ..p }
    } else if name == "ElicitIntrospect"@ {
        TraitPrereqs { elicit_introspect: true, ..p }
    } else if name == "ElicitSpec"@ {
        TraitPrereqs { elicit_spec: true, ..p }
    } else if name == "ElicitPromptTree"@ {
        TraitPrereqs { elicit_prompt_tree: true, ..p }
    } else if name == "ToCodeLiteral"@ {
        TraitPrereqs { to_code_literal: true, ..p }
    } else {
        p
    }
}

/// Which paths of types are looked at.
pub enum PathFilterView {
    Scope { key: Seq<char>, prefix: bool },
    Listed(Set<Seq<char>>),
}

impl PathFilterView {
    /// The path is looked at.
    pub open spec fn admits(self, path: Seq<Seq<char>>) -> bool {
        match self {
            PathFilterView::Scope { key, prefix } => {
                let first = if path.len() == 0 {
                    ""@
                } else {
                    path[0]
                };
                if prefix {
                    starts(first, key)
                } else {
                    first == key
                }
            },
            PathFilterView::Listed(paths) => paths.contains(joined(path, "::"@)),
        }
    }
}

/// The path of the type that an impl block of a supertrait is for, and the trait's name.
pub open spec fn implemented(k: DocCrate, item: IndexItem) -> Option<(Seq<Seq<char>>, Seq<char>)> {
    match item.inner {
        ItemEnum::Impl(i) => match (i.trait_, i.for_) {
            (Some(t), Type::ResolvedPath(p)) => match k.summary(p.id.0) {
                Some(s) => if is_supertrait(last_segment(t.path@)) {
                    Some((views(s.path@), last_segment(t.path@)))
                } else {
                    None
                },
                None => None,
            },
            _ => None,
        },
        _ => None,
    }
}

/// The traits that a table lists for a path.
pub open spec fn listed_traits(m: Seq<(Seq<char>, TraitPrereqs)>, path: Seq<char>) -> TraitPrereqs {
    match value_of(m, path) {
        Some(p) => p,
        None => TraitPrereqs::none(),
    }
}

/// The table with a trait noted for a type.
pub open spec fn trait_noted(
    m: Seq<(Seq<char>, TraitPrereqs)>,
    path: Seq<char>,
    name: Seq<char>,
) -> Seq<(Seq<char>, TraitPrereqs)> {
    put(m, path, with_trait(listed_traits(m, path), name))
}

/// The supertraits that the impl blocks of an index give to the types looked at.
pub open spec fn prereqs_after(k: DocCrate, s: Seq<(u32, IndexItem)>, f: PathFilterView) -> Seq<
    (Seq<char>, TraitPrereqs),
>
    decreases s.len(),
{
    if s.len() == 0 {
        seq![]
    } else {
        let m = prereqs_after(k, s.drop_last(), f);
        match implemented(k, s.last().1) {
            Some(e) => if f.admits(e.0) {
                trait_noted(m, joined(e.0, "::"@), e.1)
            } else {
                m
            },
            None => m,
        }
    }
}

/// The trait of the given name is among the traits.
pub open spec fn lists_trait(p: TraitPrereqs, name: Seq<char>) -> bool {
    with_trait(p, name) == p
}

/// The impl block gives a supertrait to the type of a path that is looked at.
pub open spec fn gives_trait(
    k: DocCrate,
    item: IndexItem,
    f: PathFilterView,
    path: Seq<char>,
    name: Seq<char>,
) -> bool {
    match implemented(k, item) {
        Some(e) => f.admits(e.0) && joined(e.0, "::"@) == path && e.1 == name,
        None => false,
    }
}

/// A supertrait is listed for a path exactly when some impl block gives it to the type of that
/// path, and no path is listed twice.
pub proof fn law_listed_traits_are_implemented(
    k: DocCrate,
    s: Seq<(u32, IndexItem)>,
    f: PathFilterView,
    path: Seq<char>,
    name: Seq<char>,
)
    requires
        is_supertrait(name),
    ensures
        lists_trait(listed_traits(prereqs_after(k, s, f), path), name) <==> exists|i: int|
            0 <= i < s.len() && gives_trait(k, (#[trigger] s[i]).1, f, path, name),
        keys_distinct(prereqs_after(k, s, f)),
    decreases s.len(),
{
    if s.len() > 0 {
        let init = s.drop_last();
        let m = prereqs_after(k, init, f);
        law_listed_traits_are_implemented(k, init, f, path, name);
        match implemented(k, s.last().1) {
            Some(e) => if f.admits(e.0) {
                let text = joined(e.0, "::"@);
                law_put(m, text, with_trait(listed_traits(m, text), e.1), path);
            },
            None => {},
        }
        if exists|i: int| 0 <= i < init.len() && gives_trait(k, (#[trigger] init[i]).1, f, path, name) {
            let i = choose|i: int|
                0 <= i < init.len() && gives_trait(k, (#[trigger] init[i]).1, f, path, name);
            assert(s[i] == init[i]);
        }
        if exists|i: int| 0 <= i < s.len() && gives_trait(k, (#[trigger] s[i]).1, f, path, name) {
            let i = choose|i: int| 0 <= i < s.len() && gives_trait(k, (#[trigger] s[i]).1, f, path, name);
            if i < init.len() {
                assert(init[i] == s[i]);
            }
        }
        if gives_trait(k, s.last().1, f, path, name) {
            assert(gives_trait(k, s[s.len() - 1].1, f, path, name));
        }
    }
}

fn names_supertrait(name: &str) -> (r: bool)
    ensures
        r == is_supertrait(name@),
{
    str_eq(name, "Serialize") || str_eq(name, "Deserialize") || str_eq(name, "JsonSchema")
        || str_eq(name, "Elicitation") || str_eq(name, "ElicitIntrospect") || str_eq(
        name,
        "ElicitSpec",
    ) || str_eq(name, "ElicitPromptTree") || str_eq(name, "ToCodeLiteral")
}

fn add_trait(p: TraitPrereqs, name: &str) -> (r: TraitPrereqs)
    ensures
        r == with_trait(p, name@),
{
    let mut q = p;
    if str_eq(name, "Serialize") {
        q.serialize = true;
    } else if str_eq(name, "Deserialize") {
        q.deserialize = true;
    } else if str_eq(name, "JsonSchema") {
        q.json_schema = true;
    } else if str_eq(name, "Elicitation") {
        q.elicitation_trait = true;
    } else if str_eq(name, "ElicitIntrospect") {
        q.elicit_introspect = true;
    } else if str_eq(name, "ElicitSpec") {
        q.elicit_spec = true;
    } else if str_eq(name, "ElicitPromptTree") {
        q.elicit_prompt_tree = true;
    } else if str_eq(name, "ToCodeLiteral") {
        q.to_code_literal = true;
    }
    q
}

enum PathFilter {
    Scope { key: String, prefix: bool },
    Listed(StringHashSet),
}

impl View for PathFilter {
    type V = PathFilterView;

    closed spec fn view(&self) -> PathFilterView {
        match self {
            PathFilter::Scope { key, prefix } => PathFilterView::Scope {
                key: key@,
                prefix: *prefix,
            },
            PathFilter::Listed(paths) => PathFilterView::Listed(paths@),
        }
    }
}

impl PathFilter {
    fn lets_through(&self, path: &Vec<String>) -> (r: bool)
        ensures
            r == self@.admits(views(path@)),
    {
        match self {
            PathFilter::Scope { key, prefix } => {
                let first = if path.len() == 0 {
                    ""
                } else {
                    path[0].as_str()
                };
                if *prefix {
                    starts_with(first, key.as_str())
                } else {
                    str_eq(first, key.as_str())
                }
            },
            PathFilter::Listed(paths) => paths.contains(join(path, "::").as_str()),
        }
    }
}

fn collect_trait_prereqs_matching(krate: &DocCrate, filter: &PathFilter) -> (r: Vec<
    (String, TraitPrereqs),
>)
    ensures
        keyed(r@) == prereqs_after(*krate, krate.index@, filter@),
{
    let at = Lookup::new(krate);
    let mut map: Vec<(String, TraitPrereqs)> = Vec::new();
    let mut i: usize = 0;
    assert(keyed(map@) =~= seq![]);
    while i < krate.index.len()
        invariant
            i <= krate.index.len(),
            at.of(*krate),
            keyed(map@) == prereqs_after(*krate, krate.index@.take(i as int), filter@),
        decreases krate.index.len() - i,
    {
        let ghost m = keyed(map@);
        let ghost item = krate.index@[i as int].1;
        proof {
            assert(krate.index@.take(i + 1).drop_last() =~= krate.index@.take(i as int));
            assert(krate.index@.take(i + 1).last() == krate.index@[i as int]);
        }
        if let ItemEnum::Impl(block) = &krate.index[i].1.inner {
            if let Some(t) = &block.trait_ {
                let name = final_segment(t.path.as_str());
                if let Type::ResolvedPath(p) = &block.for_ {
                    if let Some(s) = at.summary(krate, p.id.0) {
                        if names_supertrait(name.as_str()) {
                            assert(implemented(*krate, item) == Some((views(s.path@), name@)));
                            if filter.lets_through(&s.path) {
                                let path = join(&s.path, "::");
                                let ghost text = path@;
                                match find_key(&map, path.as_str()) {
                                    Some(j) => {
                                        let p = add_trait(map[j].1, name.as_str());
                                        assert(m[j as int].1 == map@[j as int].1);
                                        map.set(j, (path, p));
                                        assert(keyed(map@) =~= m.update(j as int, (text, p)));
                                    },
                                    None => {
                                        let p = add_trait(TraitPrereqs::default(), name.as_str());
                                        map.push((path, p));
                                        assert(keyed(map@) =~= m.push((text, p)));
                                    },
                                }
                            }
                        }
                    }
                }
            }
        }
        i += 1;
    }
    proof {
        assert(krate.index@.take(i as int) =~= krate.index@);
    }
    map
}

/// The supertraits that a documented crate gives to the types of a crate, by path.
pub fn collect_trait_prereqs(krate: &DocCrate, own_crate: &str, prefix_match: bool) -> (r: Vec<
    (String, TraitPrereqs),
>)
    ensures
        keyed(r@) == prereqs_after(
            *krate,
            krate.index@,
            (PathFilterView::Scope { key: underscored(own_crate@), prefix: prefix_match }),
        ),
{
    collect_trait_prereqs_matching(
        krate,
        &PathFilter::Scope { key: with_underscores(own_crate), prefix: prefix_match },
    )
}

/// How many items bear a name.
pub open spec fn name_count(s: Seq<ItemView>, name: Seq<char>) -> nat
    decreases s.len(),
{
    if s.len() == 0 {
        0
    } else {
        name_count(s.drop_last(), name) + if s.last().name == name {
            1nat
        } else {
            0nat
        }
    }
}

/// The path under which the crate's root would re-export an item, if the item belongs to the
/// crate and no other item of the list bears its name.
pub open spec fn root_alias(all: Seq<ItemView>, v: ItemView, root: Seq<char>) -> Option<Seq<char>> {
    if v.path.len() > 0 && v.path[0] == root && name_count(all, v.name) == 1 {
        Some(root + "::"@ + v.name)
    } else {
        None
    }
}

/// The paths of the items of a list, and their unambiguous root aliases among `all`.
pub open spec fn tracked_after(s: Seq<ItemView>, all: Seq<ItemView>, root: Seq<char>) -> Set<
    Seq<char>,
>
    decreases s.len(),
{
    if s.len() == 0 {
        Set::empty()
    } else {
        let rest = tracked_after(s.drop_last(), all, root).insert(s.last().path_text());
        match root_alias(all, s.last(), root) {
            Some(alias) => rest.insert(alias),
            None => rest,
        }
    }
}

/// The paths under which the types of an inventory may occur.
pub open spec fn tracked_paths(items: Seq<ItemView>, crate_name: Seq<char>) -> Set<Seq<char>> {
    tracked_after(types_of(items), types_of(items), underscored(crate_name))
}

/// How many items bear a name.
pub(crate) fn count_name(items: &Vec<&Item>, name: &str) -> (r: usize)
    ensures
        r == name_count(views(items@), name@),
{
    let mut n: usize = 0;
    let mut i: usize = 0;
    let ghost all = views(items@);
    while i < items.len()
        invariant
            i <= items.len(),
            n <= i,
            all == views(items@),
            n == name_count(all.take(i as int), name@),
        decreases items.len() - i,
    {
        proof {
            assert(all.take(i + 1).drop_last() =~= all.take(i as int));
            assert(all.take(i + 1).last() == items@[i as int]@);
        }
        if str_eq(items[i].name.as_str(), name) {
            n += 1;
        }
        i += 1;
    }
    proof {
        assert(all.take(i as int) =~= all);
    }
    n
}

/// The path under which the crate's root would re-export an item, if that is unambiguous.
pub(crate) fn find_root_alias(all: &Vec<&Item>, item: &Item, root: &str) -> (r: Option<String>)
    ensures
        opt_view(r) == root_alias(views(all@), item@, root@),
{
    if item.path.len() > 0 && str_eq(item.path[0].as_str(), root) && count_name(
        all,
        item.name.as_str(),
    ) == 1 {
        let mut alias = root.to_string();
        alias.append("::");
        alias.append(item.name.as_str());
        Some(alias)
    } else {
        None
    }
}

fn inventory_trait_match_paths(inventory: &Inventory) -> (r: StringHashSet)
    ensures
        r@ == tracked_paths(views(inventory.items@), inventory.crate_name@),
{
    let types = inventory.type_items();
    let root = with_underscores(inventory.crate_name.as_str());
    let ghost all = views(types@);
    let mut paths = StringHashSet::new();
    let mut i: usize = 0;
    while i < types.len()
        invariant
            i <= types.len(),
            all == views(types@),
            paths@ == tracked_after(all.take(i as int), all, root@),
        decreases types.len() - i,
    {
        proof {
            assert(all.take(i + 1).drop_last() =~= all.take(i as int));
            assert(all.take(i + 1).last() == types@[i as int]@);
        }
        paths.insert(types[i].path_str());
        if let Some(alias) = find_root_alias(&types, types[i], root.as_str()) {
            paths.insert(alias);
        }
        i += 1;
    }
    proof {
        assert(all.take(i as int) =~= all);
    }
    paths
}

/// The supertraits that a documented crate gives to the types of an inventory, foreign types
/// among them, by path.
pub fn collect_trait_prereqs_for_inventory(krate: &DocCrate, inventory: &Inventory) -> (r: Vec<
    (String, TraitPrereqs),
>)
    ensures
        keyed(r@) == prereqs_after(
            *krate,
            krate.index@,
            PathFilterView::Listed(
                tracked_paths(views(inventory.items@), inventory.crate_name@),
            ),
        ),
{
    collect_trait_prereqs_matching(
        krate,
        &PathFilter::Listed(inventory_trait_match_paths(inventory)),
    )
}

/// The table with the traits of one type merged in.
pub open spec fn entry_merged(
    m: Seq<(Seq<char>, TraitPrereqs)>,
    path: Seq<char>,
    p: TraitPrereqs,
) -> Seq<(Seq<char>, TraitPrereqs)> {
    put(m, path, listed_traits(m, path).merged(p))
}

/// The table with another merged in.
pub open spec fn table_merged(
    m: Seq<(Seq<char>, TraitPrereqs)>,
    from: Seq<(Seq<char>, TraitPrereqs)>,
) -> Seq<(Seq<char>, TraitPrereqs)>
    decreases from.len(),
{
    if from.len() == 0 {
        m
    } else {
        entry_merged(table_merged(m, from.drop_last()), from.last().0, from.last().1)
    }
}

/// Merging an entry adds its traits to what the table lists for its path, and changes nothing
/// for other paths.
pub proof fn law_entry_merged(
    m: Seq<(Seq<char>, TraitPrereqs)>,
    path: Seq<char>,
    p: TraitPrereqs,
    other: Seq<char>,
)
    ensures
        value_of(entry_merged(m, path, p), path) == Some(listed_traits(m, path).merged(p)),
        other != path ==> value_of(entry_merged(m, path, p), other) == value_of(m, other),
{
    law_put(m, path, listed_traits(m, path).merged(p), other);
}

/// Merges one table of traits into another.
pub fn merge_prereqs(into: &mut Vec<(String, TraitPrereqs)>, from: &Vec<(String, TraitPrereqs)>)
    ensures
        keyed(final(into)@) == table_merged(keyed(old(into)@), keyed(from@)),
{
    let ghost start = keyed(into@);
    let ghost all = keyed(from@);
    let mut i: usize = 0;
    while i < from.len()
        invariant
            i <= from.len(),
            all == keyed(from@),
            keyed(into@) == table_merged(start, all.take(i as int)),
        decreases from.len() - i,
    {
        let ghost m = keyed(into@);
        proof {
            assert(all.take(i + 1).drop_last() =~= all.take(i as int));
            assert(all.take(i + 1).last() == (from@[i as int].0@, from@[i as int].1));
        }
        match find_key(into, from[i].0.as_str()) {
            Some(j) => {
                let mut p = into[j].1;
                p.merge(&from[i].1);
                assert(m[j as int].1 == into@[j as int].1);
                into.set(j, (from[i].0.clone(), p));
                assert(keyed(into@) =~= m.update(j as int, (from@[i as int].0@, p)));
            },
            None => {
                into.push((from[i].0.clone(), from[i].1));
                assert(keyed(into@) =~= m.push((from@[i as int].0@, from@[i as int].1)));
            },
        }
        i += 1;
    }
    proof {
        assert(all.take(i as int) =~= all);
    }
}

/// The types with an `impl ElicitComplete` in a crate, by path.
#[derive(Clone, Debug)]
pub struct ElicitCompleteSet {
    /// The types with an impl of their own.
    pub concrete: Vec<String>,
    /// The types with an impl over type parameters.
    pub factory: Vec<String>,
}

impl Default for ElicitCompleteSet {
    fn default() -> (r: Self)
        ensures
            r.concrete@.len() == 0,
            r.factory@.len() == 0,
    {
        ElicitCompleteSet { concrete: Vec::new(), factory: Vec::new() }
    }
}

/// Some parameter is a type parameter.
pub open spec fn has_type_param(s: Seq<GenericParamDef>) -> bool {
    exists|i: int| 0 <= i < s.len() && (#[trigger] s[i]).kind is Type
}

/// The path of the type that an `impl ElicitComplete` is for. Types without a summary are
/// named by their own path with the crate's name in it; primitive types by their name.
pub open spec fn complete_path(k: DocCrate, item: IndexItem, local: Seq<char>) -> Option<Seq<char>> {
    match item.inner {
        ItemEnum::Impl(i) => match (i.trait_, i.for_) {
            (Some(t), Type::ResolvedPath(p)) => if t.path@ == "ElicitComplete"@ {
                match k.summary(p.id.0) {
                    Some(s) => Some(summary_text(s)),
                    None => Some(replaced(p.path@, "crate::"@, local + "::"@)),
                }
            } else {
                None
            },
            (Some(t), Type::Primitive(name)) => if t.path@ == "ElicitComplete"@ {
                Some(name@)
            } else {
                None
            },
            _ => None,
        },
        _ => None,
    }
}

/// The impl block has type parameters.
pub open spec fn is_factory_impl(item: IndexItem) -> bool {
    match item.inner {
        ItemEnum::Impl(i) => has_type_param(i.generics.params@),
        _ => false,
    }
}

/// The distinct paths of the types that are complete by an impl over type parameters, or by
/// one of their own.
pub open spec fn complete_after(
    k: DocCrate,
    s: Seq<(u32, IndexItem)>,
    local: Seq<char>,
    factory: bool,
) -> Seq<Seq<char>>
    decreases s.len(),
{
    if s.len() == 0 {
        seq![]
    } else {
        let rest = complete_after(k, s.drop_last(), local, factory);
        match complete_path(k, s.last().1, local) {
            Some(p) => if is_factory_impl(s.last().1) == factory && !rest.contains(p) {
                rest.push(p)
            } else {
                rest
            },
            None => rest,
        }
    }
}

/// The impl block makes the type of a path complete.
pub open spec fn completes(k: DocCrate, item: IndexItem, local: Seq<char>, factory: bool, path: Seq<char>) -> bool {
    complete_path(k, item, local) == Some(path) && is_factory_impl(item) == factory
}

/// A path is listed as complete exactly when some impl block makes its type complete, and no
/// path is listed twice.
pub proof fn law_complete_paths(
    k: DocCrate,
    s: Seq<(u32, IndexItem)>,
    local: Seq<char>,
    factory: bool,
    path: Seq<char>,
)
    ensures
        complete_after(k, s, local, factory).contains(path) <==> exists|i: int|
            0 <= i < s.len() && completes(k, (#[trigger] s[i]).1, local, factory, path),
        complete_after(k, s, local, factory).no_duplicates(),
    decreases s.len(),
{
    if s.len() > 0 {
        let init = s.drop_last();
        let rest = complete_after(k, init, local, factory);
        let all = complete_after(k, s, local, factory);
        law_complete_paths(k, init, local, factory, path);
        if all.contains(path) && !rest.contains(path) {
            assert(completes(k, s[s.len() - 1].1, local, factory, path));
        }
        if rest.contains(path) {
            let i = choose|i: int|
                0 <= i < init.len() && completes(k, (#[trigger] init[i]).1, local, factory, path);
            assert(s[i] == init[i]);
            let j = choose|j: int| 0 <= j < rest.len() && rest[j] == path;
            assert(all[j] == path);
        }
        if exists|i: int| 0 <= i < s.len() && completes(k, (#[trigger] s[i]).1, local, factory, path) {
            let i = choose|i: int|
                0 <= i < s.len() && completes(k, (#[trigger] s[i]).1, local, factory, path);
            if i < init.len() {
                assert(init[i] == s[i]);
            } else if !rest.contains(path) {
                assert(all[rest.len() as int] == path);
            }
        }
    }
}

fn any_type_param(params: &Vec<GenericParamDef>) -> (r: bool)
    ensures
        r == has_type_param(params@),
{
    let mut i: usize = 0;
    while i < params.len()
        invariant
            i <= params.len(),
            forall|j: int| 0 <= j < i ==> !((#[trigger] params@[j]).kind is Type),
        decreases params.len() - i,
    {
        if let GenericParamDefKind::Type { .. } = &params[i].kind {
            assert(params@[i as int].kind is Type);
            return true;
        }
        i += 1;
    }
    false
}

fn push_new_text(out: &mut Vec<String>, t: String)
    ensures
        views(final(out)@) == if views(old(out)@).contains(t@) {
            views(old(out)@)
        } else {
            views(old(out)@).push(t@)
        },
{
    let ghost held = views(out@);
    if !has_text(out, t.as_str()) {
        let ghost v = t@;
        out.push(t);
        assert(views(out@) =~= held.push(v));
    }
}

fn find_complete_path(krate: &DocCrate, at: &Lookup, item: &IndexItem, local: &str) -> (r: Option<String>)
    requires
        at.of(*krate),
    ensures
        opt_view(r) == complete_path(*krate, *item, local@),
{
    if let ItemEnum::Impl(block) = &item.inner {
        if let Some(t) = &block.trait_ {
            if str_eq(t.path.as_str(), "ElicitComplete") {
                match &block.for_ {
                    Type::ResolvedPath(p) => {
                        match at.summary(krate, p.id.0) {
                            Some(s) => {
                                return Some(join(&s.path, "::"));
                            },
                            None => {
                                let mut own = local.to_string();
                                own.append("::");
                                proof {
                                    reveal_strlit("crate::");
                                }
                                return Some(replace_text(p.path.as_str(), "crate::", own.as_str()));
                            },
                        }
                    },
                    Type::Primitive(name) => {
                        return Some(name.clone());
                    },
                    _ => {},
                }
            }
        }
    }
    None
}

/// The types with an `impl ElicitComplete` in a documented crate.
pub fn collect_elicit_complete_paths(krate: &DocCrate, local_crate_name: &str) -> (r: ElicitCompleteSet)
    ensures
        views(r.concrete@) == complete_after(*krate, krate.index@, local_crate_name@, false),
        views(r.factory@) == complete_after(*krate, krate.index@, local_crate_name@, true),
{
    let at = Lookup::new(krate);
    let mut concrete: Vec<String> = Vec::new();
    let mut factory: Vec<String> = Vec::new();
    let mut i: usize = 0;
    assert(views(concrete@) =~= seq![]);
    assert(views(factory@) =~= seq![]);
    while i < krate.index.len()
        invariant
            i <= krate.index.len(),
            at.of(*krate),
            views(concrete@) == complete_after(
                *krate,
                krate.index@.take(i as int),
                local_crate_name@,
                false,
            ),
            views(factory@) == complete_after(
                *krate,
                krate.index@.take(i as int),
                local_crate_name@,
                true,
            ),
        decreases krate.index.len() - i,
    {
        proof {
            assert(krate.index@.take(i + 1).drop_last() =~= krate.index@.take(i as int));
            assert(krate.index@.take(i + 1).last() == krate.index@[i as int]);
        }
        if let Some(path) = find_complete_path(krate, &at, &krate.index[i].1, local_crate_name) {
            if let ItemEnum::Impl(block) = &krate.index[i].1.inner {
                if any_type_param(&block.generics.params) {
                    push_new_text(&mut factory, path);
                } else {
                    push_new_text(&mut concrete, path);
                }
            }
        }
        i += 1;
    }
    proof {
        assert(krate.index@.take(i as int) =~= krate.index@);
    }
    ElicitCompleteSet { concrete, factory }
}

impl Ranked for (String, String) {
    open spec fn key(v: (Seq<char>, Seq<char>)) -> Key {
        (0, seq![v.0, v.1])
    }

    fn before(&self, other: &Self) -> (r: bool) {
        ranked_pair_before(
            0,
            self.0.as_str(),
            self.1.as_str(),
            0,
            other.0.as_str(),
            other.1.as_str(),
        )
    }
}

/// The path belongs to our own crate, in which wrappers stand.
pub open spec fn is_wrapper_path(path: Seq<char>) -> bool {
    starts(path, "elicitation::"@)
}

/// The path belongs neither to our own crate nor to the standard library.
pub open spec fn is_foreign(path: Seq<char>) -> bool {
    !is_wrapper_path(path) && !is_standard(path)
}

/// The path of the type that an impl block is for. Without a summary, only types of our own
/// crate have one.
pub open spec fn impl_target(k: DocCrate, ty: Type) -> Option<Seq<char>> {
    match ty {
        Type::ResolvedPath(p) => match k.summary(p.id.0) {
            Some(s) => Some(summary_text(s)),
            None => {
                let text = replaced(p.path@, "crate::"@, "elicitation::"@);
                if is_wrapper_path(text) {
                    Some(text)
                } else {
                    None
                }
            },
        },
        _ => None,
    }
}

/// The wrapper that an impl block is for.
pub open spec fn impl_wrapper(k: DocCrate, i: Impl) -> Option<Seq<char>> {
    match impl_target(k, i.for_) {
        Some(w) => if is_wrapper_path(w) {
            Some(w)
        } else {
            None
        },
        None => None,
    }
}

/// The type argument of a `From` trait, where it names an item.
pub open spec fn from_source(k: DocCrate, i: Impl) -> Option<u32> {
    match i.trait_ {
        Some(t) => if last_segment(t.path@) == "From"@ {
            match t.args {
                Some(a) => match *a {
                    GenericArgs::AngleBracketed { args, constraints } => if args@.len() > 0 {
                        match args@[0] {
                            GenericArg::Type(ty) => match ty {
                                Type::ResolvedPath(p) => Some(p.id.0),
                                _ => None,
                            },
                            _ => None,
                        }
                    } else {
                        None
                    },
                    _ => None,
                },
                None => None,
            }
        } else {
            None
        },
        None => None,
    }
}

/// The ids in the output of a public method that unwraps a wrapper.
pub open spec fn unwrap_ids(k: DocCrate, method: u32) -> Seq<u32> {
    match k.item(method) {
        Some(m) => match (m.name, m.inner) {
            (Some(name), ItemEnum::Function(f)) => match f.sig.output {
                Some(t) => if m.public() && (name@ == "build_raw"@ || name@ == "into_inner"@) {
                    type_ids(t, false)
                } else {
                    seq![]
                },
                None => seq![],
            },
            _ => seq![],
        },
        None => seq![],
    }
}

/// The ids in the outputs of the unwrapping methods of a list.
pub open spec fn unwrap_ids_of(k: DocCrate, methods: Seq<Id>) -> Seq<u32>
    decreases methods.len(),
{
    if methods.len() == 0 {
        seq![]
    } else {
        unwrap_ids_of(k, methods.drop_last()) + unwrap_ids(k, methods.last().0)
    }
}

/// The ids that an impl block of a wrapper connects with it: the source of a `From`, or what
/// its unwrapping methods give back.
pub open spec fn wrapped_ids(k: DocCrate, i: Impl) -> Seq<u32> {
    match i.trait_ {
        Some(t) => match from_source(k, i) {
            Some(id) => seq![id],
            None => seq![],
        },
        None => unwrap_ids_of(k, i.items@),
    }
}

/// The pairs with one more noted, if its type is foreign and the pair is new.
pub open spec fn pair_noted(list: Seq<(Seq<char>, Seq<char>)>, foreign: Seq<char>, wrapper: Seq<char>) -> Seq<
    (Seq<char>, Seq<char>),
> {
    if is_foreign(foreign) && !list.contains((foreign, wrapper)) {
        list.push((foreign, wrapper))
    } else {
        list
    }
}

/// The pairs with the foreign types among `ids` noted for a wrapper.
pub open spec fn ids_noted(
    k: DocCrate,
    list: Seq<(Seq<char>, Seq<char>)>,
    ids: Seq<u32>,
    wrapper: Seq<char>,
) -> Seq<(Seq<char>, Seq<char>)>
    decreases ids.len(),
{
    if ids.len() == 0 {
        list
    } else {
        let rest = ids_noted(k, list, ids.drop_last(), wrapper);
        match k.summary(ids.last()) {
            Some(s) => pair_noted(rest, summary_text(s), wrapper),
            None => rest,
        }
    }
}

/// The pairs of foreign type and wrapper that the impl blocks of an index show.
pub open spec fn pairs_after(k: DocCrate, s: Seq<(u32, IndexItem)>) -> Seq<(Seq<char>, Seq<char>)>
    decreases s.len(),
{
    if s.len() == 0 {
        seq![]
    } else {
        let rest = pairs_after(k, s.drop_last());
        match s.last().1.inner {
            ItemEnum::Impl(i) => match impl_wrapper(k, i) {
                Some(w) => ids_noted(k, rest, wrapped_ids(k, i), w),
                None => rest,
            },
            _ => rest,
        }
    }
}

/// Whether a path belongs neither to our own crate nor to the standard library.
pub fn is_foreign_trenchcoat_target(path: &str) -> (r: bool)
    ensures
        r == is_foreign(path@),
{
    !starts_with(path, "elicitation::") && !is_standard_path(path)
}

fn find_impl_wrapper(krate: &DocCrate, at: &Lookup, i: &Impl) -> (r: Option<String>)
    requires
        at.of(*krate),
    ensures
        opt_view(r) == impl_wrapper(*krate, *i),
{
    match &i.for_ {
        Type::ResolvedPath(p) => {
            let text = match at.summary(krate, p.id.0) {
                Some(s) => join(&s.path, "::"),
                None => {
                    proof {
                        reveal_strlit("crate::");
                    }
                    replace_text(p.path.as_str(), "crate::", "elicitation::")
                },
            };
            if starts_with(text.as_str(), "elicitation::") {
                Some(text)
            } else {
                None
            }
        },
        _ => None,
    }
}

fn find_from_source(krate: &DocCrate, i: &Impl) -> (r: Option<u32>)
    ensures
        r == from_source(*krate, *i),
{
    if let Some(t) = &i.trait_ {
        if str_eq(final_segment(t.path.as_str()).as_str(), "From") {
            if let Some(a) = &t.args {
                if let GenericArgs::AngleBracketed { args, constraints } = &**a {
                    if args.len() > 0 {
                        if let GenericArg::Type(ty) = &args[0] {
                            if let Type::ResolvedPath(p) = ty {
                                return Some(p.id.0);
                            }
                        }
                    }
                }
            }
        }
    }
    None
}

fn collect_unwrap_ids(krate: &DocCrate, at: &Lookup, methods: &Vec<Id>) -> (r: Vec<u32>)
    requires
        at.of(*krate),
    ensures
        r@ == unwrap_ids_of(*krate, methods@),
{
    let mut ids: Vec<u32> = Vec::new();
    let mut i: usize = 0;
    while i < methods.len()
        invariant
            i <= methods.len(),
            at.of(*krate),
            ids@ == unwrap_ids_of(*krate, methods@.take(i as int)),
        decreases methods.len() - i,
    {
        proof {
            assert(methods@.take(i + 1).drop_last() =~= methods@.take(i as int));
        }
        if let Some(m) = at.item(krate, methods[i].0) {
            if let Some(name) = &m.name {
                if m.is_public() && (str_eq(name.as_str(), "build_raw") || str_eq(
                    name.as_str(),
                    "into_inner",
                )) {
                    if let ItemEnum::Function(f) = &m.inner {
                        if let Some(t) = &f.sig.output {
                            ids_in_type(t, false, &mut ids);
                        }
                    }
                }
            }
        }
        i += 1;
    }
    proof {
        assert(methods@.take(i as int) =~= methods@);
    }
    ids
}

fn has_pair(pairs: &Vec<(String, String)>, foreign: &str, wrapper: &str) -> (r: bool)
    ensures
        r == views(pairs@).contains((foreign@, wrapper@)),
{
    let ghost s = views(pairs@);
    let mut i: usize = 0;
    while i < pairs.len()
        invariant
            i <= pairs.len(),
            s == views(pairs@),
            forall|j: int| 0 <= j < i ==> #[trigger] s[j] != (foreign@, wrapper@),
        decreases pairs.len() - i,
    {
        assert(s[i as int] == (pairs@[i as int].0@, pairs@[i as int].1@));
        if str_eq(pairs[i].0.as_str(), foreign) && str_eq(pairs[i].1.as_str(), wrapper) {
            return true;
        }
        i += 1;
    }
    false
}

fn record_trenchcoat_pair(pairs: &mut Vec<(String, String)>, foreign: String, wrapper: &str)
    ensures
        views(final(pairs)@) == pair_noted(views(old(pairs)@), foreign@, wrapper@),
{
    let ghost held = views(pairs@);
    if is_foreign_trenchcoat_target(foreign.as_str()) && !has_pair(pairs, foreign.as_str(), wrapper) {
        let ghost f = foreign@;
        pairs.push((foreign, wrapper.to_string()));
        assert(views(pairs@) =~= held.push((f, wrapper@)));
    }
}

fn record_ids(krate: &DocCrate, at: &Lookup, ids: &Vec<u32>, wrapper: &str, pairs: &mut Vec<
    (String, String),
>)
    requires
        at.of(*krate),
    ensures
        views(final(pairs)@) == ids_noted(*krate, views(old(pairs)@), ids@, wrapper@),
{
    let ghost start = views(pairs@);
    let mut i: usize = 0;
    while i < ids.len()
        invariant
            i <= ids.len(),
            at.of(*krate),
            views(pairs@) == ids_noted(*krate, start, ids@.take(i as int), wrapper@),
        decreases ids.len() - i,
    {
        proof {
            assert(ids@.take(i + 1).drop_last() =~= ids@.take(i as int));
        }
        if let Some(s) = at.summary(krate, ids[i]) {
            record_trenchcoat_pair(pairs, join(&s.path, "::"), wrapper);
        }
        i += 1;
    }
    proof {
        assert(ids@.take(i as int) =~= ids@);
    }
}

/// The pairs of a foreign type and a wrapper for it, by type and wrapper. A wrapper is a type
/// of our own with a `From` impl for the foreign type, or with a public method `build_raw` or
/// `into_inner` whose output names the foreign type.
pub fn collect_trenchcoat_pairs(krate: &DocCrate) -> (r: Vec<(String, String)>)
    ensures
        views(r@) == sorted::<(String, String)>(pairs_after(*krate, krate.index@)),
{
    let at = Lookup::new(krate);
    let mut pairs: Vec<(String, String)> = Vec::new();
    let mut i: usize = 0;
    assert(views(pairs@) =~= seq![]);
    while i < krate.index.len()
        invariant
            i <= krate.index.len(),
            at.of(*krate),
            views(pairs@) == pairs_after(*krate, krate.index@.take(i as int)),
        decreases krate.index.len() - i,
    {
        proof {
            assert(krate.index@.take(i + 1).drop_last() =~= krate.index@.take(i as int));
            assert(krate.index@.take(i + 1).last() == krate.index@[i as int]);
        }
        if let ItemEnum::Impl(block) = &krate.index[i].1.inner {
            if let Some(wrapper) = find_impl_wrapper(krate, &at, block) {
                let ids = if block.trait_.is_some() {
                    let mut ids: Vec<u32> = Vec::new();
                    if let Some(id) = find_from_source(krate, block) {
                        ids.push(id);
                    }
                    ids
                } else {
                    collect_unwrap_ids(krate, &at, &block.items)
                };
                assert(ids@ =~= wrapped_ids(*krate, *block));
                record_ids(krate, &at, &ids, wrapper.as_str(), &mut pairs);
            }
        }
        i += 1;
    }
    proof {
        assert(krate.index@.take(i as int) =~= krate.index@);
    }
    sort_ranked(pairs)
}

/// The impl block connects a foreign type with a wrapper of ours.
pub open spec fn connects(k: DocCrate, item: IndexItem, pair: (Seq<char>, Seq<char>)) -> bool {
    match item.inner {
        ItemEnum::Impl(i) => impl_wrapper(k, i) == Some(pair.1) && names_type(
            k,
            wrapped_ids(k, i),
            pair.0,
        ) && is_foreign(pair.0),
        _ => false,
    }
}

/// Some id of a list leads to the path.
pub open spec fn names_type(k: DocCrate, ids: Seq<u32>, path: Seq<char>) -> bool {
    exists|i: int| 0 <= i < ids.len() && leads_to(k, #[trigger] ids[i], path)
}

/// The id has a summary with the path.
pub open spec fn leads_to(k: DocCrate, id: u32, path: Seq<char>) -> bool {
    match k.summary(id) {
        Some(s) => summary_text(s) == path,
        None => false,
    }
}

/// A pair is listed exactly when some impl block connects the foreign type with the wrapper,
/// and no pair is listed twice. So every listed type is foreign and every wrapper is ours.
pub proof fn law_trenchcoat_pairs(k: DocCrate, s: Seq<(u32, IndexItem)>, pair: (Seq<char>, Seq<char>))
    ensures
        pairs_after(k, s).contains(pair) <==> exists|i: int|
            0 <= i < s.len() && connects(k, (#[trigger] s[i]).1, pair),
        pairs_after(k, s).no_duplicates(),
        pairs_after(k, s).contains(pair) ==> is_foreign(pair.0) && is_wrapper_path(pair.1),
    decreases s.len(),
{
    if s.len() > 0 {
        let init = s.drop_last();
        let rest = pairs_after(k, init);
        law_trenchcoat_pairs(k, init, pair);
        match s.last().1.inner {
            ItemEnum::Impl(i) => match impl_wrapper(k, i) {
                Some(w) => lemma_ids_noted(k, rest, wrapped_ids(k, i), w, pair),
                None => {},
            },
            _ => {},
        }
        if rest.contains(pair) {
            let i = choose|i: int| 0 <= i < init.len() && connects(k, (#[trigger] init[i]).1, pair);
            assert(s[i] == init[i]);
        }
        if connects(k, s.last().1, pair) {
            assert(connects(k, s[s.len() - 1].1, pair));
        }
        if exists|i: int| 0 <= i < s.len() && connects(k, (#[trigger] s[i]).1, pair) {
            let i = choose|i: int| 0 <= i < s.len() && connects(k, (#[trigger] s[i]).1, pair);
            if i < init.len() {
                assert(init[i] == s[i]);
            }
        }
    }
}

proof fn lemma_ids_noted(
    k: DocCrate,
    list: Seq<(Seq<char>, Seq<char>)>,
    ids: Seq<u32>,
    wrapper: Seq<char>,
    pair: (Seq<char>, Seq<char>),
)
    requires
        list.no_duplicates(),
    ensures
        ids_noted(k, list, ids, wrapper).no_duplicates(),
        ids_noted(k, list, ids, wrapper).contains(pair) <==> list.contains(pair) || (pair.1 == wrapper
            && names_type(k, ids, pair.0) && is_foreign(pair.0)),
    decreases ids.len(),
{
    if ids.len() > 0 {
        let init = ids.drop_last();
        let rest = ids_noted(k, list, init, wrapper);
        let all = ids_noted(k, list, ids, wrapper);
        lemma_ids_noted(k, list, init, wrapper, pair);
        if names_type(k, init, pair.0) {
            let i = choose|i: int| 0 <= i < init.len() && leads_to(k, #[trigger] init[i], pair.0);
            assert(ids[i] == init[i]);
        }
        if names_type(k, ids, pair.0) {
            let i = choose|i: int| 0 <= i < ids.len() && leads_to(k, #[trigger] ids[i], pair.0);
            if i < init.len() {
                assert(init[i] == ids[i]);
            }
        }
        if leads_to(k, ids.last(), pair.0) {
            assert(leads_to(k, ids[ids.len() - 1], pair.0));
        }
        if rest.contains(pair) {
            let j = choose|j: int| 0 <= j < rest.len() && rest[j] == pair;
            assert(all[j] == pair);
        } else if all.len() > rest.len() && all.last() == pair {
            assert(all[rest.len() as int] == pair);
        }
    }
}

}
