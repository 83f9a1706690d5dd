//! A run of the reports: what is reported on, what is recorded on the way, and what comes of it.

use vstd::prelude::*;
use vstd::string::*;

use crate::collect::{collect_elicit_complete_paths, collect_trait_prereqs};
use crate::collect::{collect_trait_prereqs_for_inventory, collect_trenchcoat_pairs, complete_after};
use crate::collect::{merge_prereqs, pairs_after, prereqs_after, table_merged, tracked_paths};
use crate::collect::{DepBuildConfig, ElicitCompleteSet, PathFilterView, TraitPrereqs};
use crate::collect::{TypeFeatureProbe, TypeFeatureProbeView};
use crate::count::count_if;
use crate::distinct::firsts;
use crate::error::ElicitDocErrorKind;
use crate::gaps::{all_gaps, all_shadow_gaps, build_impl_gaps, build_shadow_gaps, completion_gaps};
use crate::gaps::{report_gaps, surface_gaps, ImplGapEntry, ImplGapKind, ImplGapView, ProbeTables};
use crate::gaps::{ShadowGapEntry, ShadowGapKind, ShadowGapView};
use crate::harness::ProofHarness;
use crate::impl_coverage::{build_impl_coverage_report, is_report, ImplCoverageReport};
use crate::inventory::{copy_texts, types_of, Inventory, ItemView};
use crate::order::{ascending, sorted, sorted_distinct};
use crate::report::{csv_document, fields_of, impl_coverage_columns, impl_records, records_in_order};
use crate::report::write_impl_coverage_csv;
use crate::rustdoc::DocCrate;
use crate::shadow::{build_shadow_report, is_shadow_report, ShadowInputs, ShadowReport};
use crate::summary::{count_impl_gaps, count_shadow_gaps, is_impl_gap, is_shadow_gap};
use crate::summary::{ShadowSkippedPair, SkippedPairView};
use crate::table::{find_value, keyed, value_of};
use crate::text::{decimal, decimal_text, has_text, push_decimal, str_eq, underscored, views};
use crate::trenchcoat::{build_trenchcoat_report, build_wrapper_coverage_map, coverage_map};
use crate::trenchcoat::{own_types, trenchcoat_rows, wrapper_views, TrenchcoatEntry, TrenchcoatView};
use crate::trenchcoat::WrapperCoverageMap;

verus! {

/// A kind of report.
#[derive(Clone, Copy, Debug, PartialEq, Eq, Structural)]
pub enum ReportKind {
    Impls,
    Shadows,
}

/// What a run does.
#[derive(Clone, Copy, Debug, PartialEq, Eq, Structural)]
pub struct RunPlan {
    pub impls: bool,
    pub shadows: bool,
    pub summary: bool,
}

/// What a run does, given the kind of report and the crate that it is restricted to. The summary
/// needs both kinds of report, for all crates.
pub fn plan_run(only: Option<ReportKind>, crate_name: Option<&str>) -> (r: RunPlan)
    ensures
        r.impls == (only is None || only == Some(ReportKind::Impls)),
        r.shadows == (only is None || only == Some(ReportKind::Shadows)),
        r.summary == (only is None && crate_name is None),
{
    let (impls, shadows) = match only {
        None => (true, true),
        Some(ReportKind::Impls) => (true, false),
        Some(ReportKind::Shadows) => (false, true),
    };
    RunPlan { impls, shadows, summary: crate_name.is_none() && impls && shadows }
}

/// A crate whose types are reported on.
#[derive(Debug)]
pub struct ThirdPartyCrate {
    pub name: String,
    /// The feature of our own crate that supports it.
    pub feature: String,
    /// The features to build it with where the workspace does not tell.
    pub fallback_features: Vec<String>,
}

/// The contents of a [`ThirdPartyCrate`].
#[verifier::ext_equal]
pub struct ThirdPartyView {
    pub name: Seq<char>,
    pub feature: Seq<char>,
    pub fallback_features: Seq<Seq<char>>,
}

impl View for ThirdPartyCrate {
    type V = ThirdPartyView;

    open spec fn view(&self) -> ThirdPartyView {
        ThirdPartyView {
            name: self.name@,
            feature: self.feature@,
            fallback_features: views(self.fallback_features@),
        }
    }
}

/// The crates whose types are reported on.
pub open spec fn third_party_table() -> Seq<ThirdPartyView> {
    seq![
        ThirdPartyView { name: "chrono"@, feature: "chrono"@, fallback_features: seq!["serde"@] },
        ThirdPartyView { name: "time"@, feature: "time"@, fallback_features: seq!["serde"@, "serde-human-readable"@, "serde-well-known"@] },
        ThirdPartyView { name: "jiff"@, feature: "jiff"@, fallback_features: seq!["serde"@] },
        ThirdPartyView { name: "uuid"@, feature: "uuid"@, fallback_features: seq!["serde"@] },
        ThirdPartyView { name: "url"@, feature: "url"@, fallback_features: seq!["serde"@] },
        ThirdPartyView { name: "regex"@, feature: "regex"@, fallback_features: seq![] },
        ThirdPartyView { name: "serde_json"@, feature: "serde_json"@, fallback_features: seq![] },
        ThirdPartyView { name: "toml"@, feature: "toml-types"@, fallback_features: seq!["serde"@] },
        ThirdPartyView { name: "geo-types"@, feature: "geo-types"@, fallback_features: seq!["serde"@] },
        ThirdPartyView { name: "geo"@, feature: "geo"@, fallback_features: seq!["use-serde"@] },
        ThirdPartyView { name: "geojson"@, feature: "geojson-types"@, fallback_features: seq![] },
        ThirdPartyView { name: "georaster"@, feature: "georaster-types"@, fallback_features: seq![] },
        ThirdPartyView { name: "rstar"@, feature: "rstar-types"@, fallback_features: seq!["serde"@] },
        ThirdPartyView { name: "proj"@, feature: "proj-types"@, fallback_features: seq!["geo-types"@] },
        ThirdPartyView { name: "wkt"@, feature: "wkt-types"@, fallback_features: seq!["geo-types"@, "serde"@] },
        ThirdPartyView { name: "wkb"@, feature: "wkb-types"@, fallback_features: seq![] },
        ThirdPartyView { name: "redb"@, feature: "redb-types"@, fallback_features: seq![] },
        ThirdPartyView { name: "csv"@, feature: "csv-types"@, fallback_features: seq![] },
        ThirdPartyView { name: "accesskit"@, feature: "accesskit"@, fallback_features: seq!["serde"@, "schemars"@] },
        ThirdPartyView { name: "reqwest"@, feature: "reqwest"@, fallback_features: seq!["json"@, "cookies"@, "stream"@] },
    ]
}

fn add_crate(out: &mut Vec<ThirdPartyCrate>, name: &str, feature: &str, fallback_features: Vec<String>)
    ensures
        views(final(out)@) == views(old(out)@).push(
            ThirdPartyView {
                name: name@,
                feature: feature@,
                fallback_features: views(fallback_features@),
            },
        ),
{
    let ghost held = views(out@);
    let ghost features = views(fallback_features@);
    out.push(
        ThirdPartyCrate {
            name: name.to_string(),
            feature: feature.to_string(),
            fallback_features,
        },
    );
    assert(views(out@) =~= held.push(
        ThirdPartyView { name: name@, feature: feature@, fallback_features: features },
    ));
}

fn features0() -> (r: Vec<String>)
    ensures
        views(r@) == Seq::<Seq<char>>::empty(),
{
    let r: Vec<String> = Vec::new();
    assert(views(r@) =~= Seq::<Seq<char>>::empty());
    r
}

fn features1(a: &str) -> (r: Vec<String>)
    ensures
        views(r@) == seq![a@],
{
    let mut r: Vec<String> = Vec::new();
    r.push(a.to_string());
    assert(views(r@) =~= seq![a@]);
    r
}

fn features2(a: &str, b: &str) -> (r: Vec<String>)
    ensures
        views(r@) == seq![a@, b@],
{
    let mut r = features1(a);
    let ghost held = views(r@);
    r.push(b.to_string());
    assert(views(r@) =~= held.push(b@));
    r
}

fn features3(a: &str, b: &str, c: &str) -> (r: Vec<String>)
    ensures
        views(r@) == seq![a@, b@, c@],
{
    let mut r = features2(a, b);
    let ghost held = views(r@);
    r.push(c.to_string());
    assert(views(r@) =~= held.push(c@));
    r
}

/// The crates whose types are reported on.
pub fn third_party_crates() -> (r: Vec<ThirdPartyCrate>)
    ensures
        views(r@) == third_party_table(),
{
    let mut out: Vec<ThirdPartyCrate> = Vec::new();
    assert(views(out@) =~= Seq::<ThirdPartyView>::empty());
    add_crate(&mut out, "chrono", "chrono", features1("serde"));
    add_crate(&mut out, "time", "time", features3("serde", "serde-human-readable", "serde-well-known"));
    add_crate(&mut out, "jiff", "jiff", features1("serde"));
    add_crate(&mut out, "uuid", "uuid", features1("serde"));
    add_crate(&mut out, "url", "url", features1("serde"));
    add_crate(&mut out, "regex", "regex", features0());
    add_crate(&mut out, "serde_json", "serde_json", features0());
    add_crate(&mut out, "toml", "toml-types", features1("serde"));
    add_crate(&mut out, "geo-types", "geo-types", features1("serde"));
    add_crate(&mut out, "geo", "geo", features1("use-serde"));
    add_crate(&mut out, "geojson", "geojson-types", features0());
    add_crate(&mut out, "georaster", "georaster-types", features0());
    add_crate(&mut out, "rstar", "rstar-types", features1("serde"));
    add_crate(&mut out, "proj", "proj-types", features1("geo-types"));
    add_crate(&mut out, "wkt", "wkt-types", features2("geo-types", "serde"));
    add_crate(&mut out, "wkb", "wkb-types", features0());
    add_crate(&mut out, "redb", "redb-types", features0());
    add_crate(&mut out, "csv", "csv-types", features0());
    add_crate(&mut out, "accesskit", "accesskit", features2("serde", "schemars"));
    add_crate(&mut out, "reqwest", "reqwest", features3("json", "cookies", "stream"));
    out
}

/// The pairs of an upstream crate and its shadow crate. Some are not in the workspace; a run
/// skips what does not build.
pub open spec fn shadow_table() -> Seq<(Seq<char>, Seq<char>)> {
    seq![
        ("bevy"@, "elicit_bevy"@),
        ("wgpu"@, "elicit_wgpu"@),
        ("egui"@, "elicit_egui"@),
        ("winit"@, "elicit_winit"@),
        ("ratatui"@, "elicit_ratatui"@),
        ("tokio"@, "elicit_tokio"@),
        ("tower"@, "elicit_tower"@),
        ("axum"@, "elicit_axum"@),
        ("reqwest"@, "elicit_reqwest"@),
        ("polars"@, "elicit_polars"@),
        ("clap"@, "elicit_clap"@),
        ("leptos"@, "elicit_leptos"@),
        ("serde"@, "elicit_serde"@),
        ("serde_json"@, "elicit_serde_json"@),
        ("toml"@, "elicit_toml"@),
        ("csv"@, "elicit_csv"@),
        ("chrono"@, "elicit_chrono"@),
        ("time"@, "elicit_time"@),
        ("jiff"@, "elicit_jiff"@),
        ("uuid"@, "elicit_uuid"@),
        ("url"@, "elicit_url"@),
        ("regex"@, "elicit_regex"@),
        ("sqlx"@, "elicit_sqlx"@),
        ("redb"@, "elicit_redb"@),
        ("surrealdb-types"@, "elicit_surrealdb"@),
        ("geo-types"@, "elicit_geo_types"@),
        ("geo"@, "elicit_geo"@),
        ("geojson"@, "elicit_geojson"@),
        ("georaster"@, "elicit_georaster"@),
        ("rstar"@, "elicit_rstar"@),
        ("proj"@, "elicit_proj"@),
        ("wkt"@, "elicit_wkt"@),
        ("wkb"@, "elicit_wkb"@),
        ("uom"@, "elicit_uom"@),
        ("accesskit"@, "elicit_accesskit"@),
    ]
}

fn add_pair(out: &mut Vec<(String, String)>, target: &str, shadow: &str)
    ensures
        views(final(out)@) == views(old(out)@).push((target@, shadow@)),
{
    let ghost held = views(out@);
    out.push((target.to_string(), shadow.to_string()));
    assert(views(out@) =~= held.push((target@, shadow@)));
}

/// The pairs of an upstream crate and its shadow crate.
pub fn shadow_pairs() -> (r: Vec<(String, String)>)
    ensures
        views(r@) == shadow_table(),
{
    let mut out: Vec<(String, String)> = Vec::new();
    assert(views(out@) =~= Seq::<(Seq<char>, Seq<char>)>::empty());
    add_pair(&mut out, "bevy", "elicit_bevy");
    add_pair(&mut out, "wgpu", "elicit_wgpu");
    add_pair(&mut out, "egui", "elicit_egui");
    add_pair(&mut out, "winit", "elicit_winit");
    add_pair(&mut out, "ratatui", "elicit_ratatui");
    add_pair(&mut out, "tokio", "elicit_tokio");
    add_pair(&mut out, "tower", "elicit_tower");
    add_pair(&mut out, "axum", "elicit_axum");
    add_pair(&mut out, "reqwest", "elicit_reqwest");
    add_pair(&mut out, "polars", "elicit_polars");
    add_pair(&mut out, "clap", "elicit_clap");
    add_pair(&mut out, "leptos", "elicit_leptos");
    add_pair(&mut out, "serde", "elicit_serde");
    add_pair(&mut out, "serde_json", "elicit_serde_json");
    add_pair(&mut out, "toml", "elicit_toml");
    add_pair(&mut out, "csv", "elicit_csv");
    add_pair(&mut out, "chrono", "elicit_chrono");
    add_pair(&mut out, "time", "elicit_time");
    add_pair(&mut out, "jiff", "elicit_jiff");
    add_pair(&mut out, "uuid", "elicit_uuid");
    add_pair(&mut out, "url", "elicit_url");
    add_pair(&mut out, "regex", "elicit_regex");
    add_pair(&mut out, "sqlx", "elicit_sqlx");
    add_pair(&mut out, "redb", "elicit_redb");
    add_pair(&mut out, "surrealdb-types", "elicit_surrealdb");
    add_pair(&mut out, "geo-types", "elicit_geo_types");
    add_pair(&mut out, "geo", "elicit_geo");
    add_pair(&mut out, "geojson", "elicit_geojson");
    add_pair(&mut out, "georaster", "elicit_georaster");
    add_pair(&mut out, "rstar", "elicit_rstar");
    add_pair(&mut out, "proj", "elicit_proj");
    add_pair(&mut out, "wkt", "elicit_wkt");
    add_pair(&mut out, "wkb", "elicit_wkb");
    add_pair(&mut out, "uom", "elicit_uom");
    add_pair(&mut out, "accesskit", "elicit_accesskit");
    out
}

/// A run restricted to a crate, or to none, covers the crate of a name.
pub open spec fn selects(only: Option<&str>, name: Seq<char>) -> bool {
    match only {
        Some(c) => c@ == name,
        None => true,
    }
}

/// Whether a run covers the crate of a name.
pub fn selects_crate(only: Option<&str>, name: &str) -> (r: bool)
    ensures
        r == selects(only, name@),
{
    match only {
        Some(c) => str_eq(c, name),
        None => true,
    }
}

/// Whether a run covers a pair of crates: it may be restricted to either of them.
pub fn selects_pair(only: Option<&str>, target: &str, shadow: &str) -> (r: bool)
    ensures
        r == (selects(only, target@) || selects(only, shadow@)),
{
    selects_crate(only, target) || selects_crate(only, shadow)
}

/// The features to build a dependency with: as the workspace declares them, or else the baked-in
/// ones together with the default features.
pub fn resolve_dep_build_config(
    declared: Result<DepBuildConfig, ElicitDocErrorKind>,
    fallback_features: &Vec<String>,
) -> (r: DepBuildConfig)
    ensures
        match declared {
            Ok(c) => r == c,
            Err(_) => r.activated_features@ == fallback_features@ && r.uses_default_features,
        },
{
    match declared {
        Ok(c) => c,
        Err(_) => DepBuildConfig {
            activated_features: copy_texts(fallback_features),
            uses_default_features: true,
        },
    }
}

/// The texts of a list that are not in another.
pub open spec fn without(s: Seq<Seq<char>>, other: Seq<Seq<char>>) -> Seq<Seq<char>>
    decreases s.len(),
{
    if s.len() == 0 {
        seq![]
    } else {
        let rest = without(s.drop_last(), other);
        if other.contains(s.last()) {
            rest
        } else {
            rest.push(s.last())
        }
    }
}

/// The features that could bring support and are not enabled.
pub fn candidate_unlock_features(available: &Vec<String>, enabled: &Vec<String>) -> (r: Vec<String>)
    ensures
        views(r@) == without(views(available@), views(enabled@)),
{
    let ghost all = views(available@);
    let mut out = features0();
    let mut i: usize = 0;
    while i < available.len()
        invariant
            i <= available.len(),
            all == views(available@),
            views(out@) == without(all.take(i as int), views(enabled@)),
        decreases available.len() - i,
    {
        let ghost held = views(out@);
        proof {
            assert(all.take(i + 1).drop_last() =~= all.take(i as int));
            assert(all.take(i + 1).last() == available@[i as int]@);
        }
        if !has_text(enabled, available[i].as_str()) {
            out.push(available[i].clone());
            assert(views(out@) =~= held.push(available@[i as int]@));
        }
        i += 1;
    }
    proof {
        assert(all.take(i as int) =~= all);
    }
    out
}

/// The features to probe a crate with: the activated ones, the default feature aside, and the
/// candidates, in order.
pub fn probe_features(activated: &Vec<String>, candidates: &Vec<String>) -> (r: Vec<String>)
    ensures
        ascending(views(r@)),
        forall|x: Seq<char>| #[trigger]
            views(r@).contains(x) <==> (views(activated@).contains(x) && x != "default"@) || views(
                candidates@,
            ).contains(x),
{
    let ghost a = views(activated@);
    let ghost c = views(candidates@);
    let mut all = features0();
    let mut i: usize = 0;
    while i < activated.len()
        invariant
            i <= activated.len(),
            a == views(activated@),
            forall|x: Seq<char>| #[trigger]
                views(all@).contains(x) <==> a.take(i as int).contains(x) && x != "default"@,
        decreases activated.len() - i,
    {
        let ghost held = views(all@);
        let ghost t = a[i as int];
        assert(t == activated@[i as int]@);
        if !str_eq(activated[i].as_str(), "default") {
            all.push(activated[i].clone());
            assert(views(all@) =~= held.push(t));
        }
        proof {
            assert(a.take(i + 1) =~= a.take(i as int).push(t));
            assert forall|x: Seq<char>| #[trigger] views(all@).contains(x) <==> a.take(i + 1).contains(x)
                && x != "default"@ by {
                lemma_push_contains(a.take(i as int), t, x);
                lemma_push_contains(held, t, x);
                assert(held.contains(x) <==> a.take(i as int).contains(x) && x != "default"@);
            }
        }
        i += 1;
    }
    proof {
        assert(a.take(i as int) =~= a);
    }
    let mut j: usize = 0;
    while j < candidates.len()
        invariant
            j <= candidates.len(),
            c == views(candidates@),
            forall|x: Seq<char>| #[trigger]
                views(all@).contains(x) <==> (a.contains(x) && x != "default"@) || c.take(
                    j as int,
                ).contains(x),
        decreases candidates.len() - j,
    {
        let ghost held = views(all@);
        let ghost t = c[j as int];
        assert(t == candidates@[j as int]@);
        all.push(candidates[j].clone());
        proof {
            assert(views(all@) =~= held.push(t));
            assert(c.take(j + 1) =~= c.take(j as int).push(t));
            assert forall|x: Seq<char>| #[trigger] views(all@).contains(x) <==> (a.contains(x) && x
                != "default"@) || c.take(j + 1).contains(x) by {
                lemma_push_contains(c.take(j as int), t, x);
                lemma_push_contains(held, t, x);
                assert(held.contains(x) <==> (a.contains(x) && x != "default"@) || c.take(
                    j as int,
                ).contains(x));
            }
        }
        j += 1;
    }
    proof {
        assert(c.take(j as int) =~= c);
    }
    let r = sorted_distinct(&all);
    proof {
        assert forall|x: Seq<char>| #[trigger] views(r@).contains(x) <==> (a.contains(x) && x
            != "default"@) || c.contains(x) by {
            assert(views(all@).contains(x) <==> views(r@).contains(x));
        }
    }
    r
}

proof fn lemma_push_contains(s: Seq<Seq<char>>, t: Seq<char>, x: Seq<char>)
    ensures
        s.push(t).contains(x) <==> s.contains(x) || x == t,
{
    let u = s.push(t);
    if s.contains(x) {
        let i = choose|i: int| 0 <= i < s.len() && s[i] == x;
        assert(u[i] == x);
    }
    if x == t {
        assert(u[s.len() as int] == x);
    }
    if u.contains(x) {
        let i = choose|i: int| 0 <= i < u.len() && u[i] == x;
        if i < s.len() {
            assert(s[i] == x);
        }
    }
}

/// The contents of a table of probes.
pub open spec fn probe_views(s: Seq<(String, TypeFeatureProbe)>) -> Seq<
    (Seq<char>, TypeFeatureProbeView),
> {
    s.map_values(|e: (String, TypeFeatureProbe)| (e.0@, e.1@))
}

/// The traits that a probe saw for a path, if it saw any.
pub open spec fn probed_traits(probed: Option<&Vec<(String, TraitPrereqs)>>, path: Seq<char>) -> Option<
    TraitPrereqs,
> {
    match probed {
        Some(table) => value_of(keyed(table@), path),
        None => None,
    }
}

/// The probes for types: all name the same crate and candidates, each the traits seen for it.
pub open spec fn probe_rows(
    crate_name: Seq<char>,
    types: Seq<ItemView>,
    candidates: Seq<Seq<char>>,
    probed: Option<&Vec<(String, TraitPrereqs)>>,
) -> Seq<(Seq<char>, TypeFeatureProbeView)> {
    types.map_values(
        |v: ItemView|
            (
                v.path_text(),
                TypeFeatureProbeView {
                    feature_crate: crate_name,
                    candidate_unlock_features: candidates,
                    probed_prereqs: probed_traits(probed, v.path_text()),
                },
            ),
    )
}

/// The probes for the types of an inventory, from the traits that were seen with the candidate
/// features enabled. Without candidates there is nothing to probe; without traits, the build
/// with those features failed.
pub fn build_type_feature_probes(
    report_crate_name: &str,
    inventory: &Inventory,
    candidates: &Vec<String>,
    probed: Option<&Vec<(String, TraitPrereqs)>>,
) -> (r: Vec<(String, TypeFeatureProbe)>)
    ensures
        probe_views(r@) == if candidates@.len() == 0 {
            seq![]
        } else {
            probe_rows(
                report_crate_name@,
                types_of(views(inventory.items@)),
                views(candidates@),
                probed,
            )
        },
{
    let mut out: Vec<(String, TypeFeatureProbe)> = Vec::new();
    assert(probe_views(out@) =~= seq![]);
    if candidates.len() == 0 {
        return out;
    }
    let types = inventory.type_items();
    let ghost all = views(types@);
    let ghost rows = probe_rows(report_crate_name@, all, views(candidates@), probed);
    let mut i: usize = 0;
    while i < types.len()
        invariant
            i <= types.len(),
            all == views(types@),
            rows == probe_rows(report_crate_name@, all, views(candidates@), probed),
            probe_views(out@) == rows.take(i as int),
        decreases types.len() - i,
    {
        let ghost held = probe_views(out@);
        let path = types[i].path_str();
        let probed_prereqs = match probed {
            Some(table) => match find_value(table, path.as_str()) {
                Some(p) => Some(*p),
                None => None,
            },
            None => None,
        };
        out.push(
            (
                path,
                TypeFeatureProbe {
                    feature_crate: report_crate_name.to_string(),
                    candidate_unlock_features: copy_texts(candidates),
                    probed_prereqs,
                },
            ),
        );
        proof {
            assert(all[i as int] == types@[i as int]@);
            assert(probe_views(out@) =~= held.push(rows[i as int]));
            assert(rows.take(i + 1) =~= rows.take(i as int).push(rows[i as int]));
        }
        i += 1;
    }
    proof {
        assert(rows.take(i as int) =~= rows);
    }
    out
}

/// What is known and recorded during a run of impl reports.
#[derive(Debug)]
pub struct ImplRun {
    pub complete: ElicitCompleteSet,
    pub harness: ProofHarness,
    pub trenchcoat_pairs: Vec<(String, String)>,
    pub wrapper_prereqs: Vec<(String, TraitPrereqs)>,
    pub wrapper_coverage: WrapperCoverageMap,
    pub reports: Vec<(String, ImplCoverageReport)>,
    pub foreign_prereqs: Vec<(String, TraitPrereqs)>,
    pub probes: ProbeTables,
}

/// The traits of the types of our own crate.
pub open spec fn own_traits(elicitation: DocCrate) -> Seq<(Seq<char>, TraitPrereqs)> {
    prereqs_after(
        elicitation,
        elicitation.index@,
        (PathFilterView::Scope { key: underscored("elicitation"@), prefix: false }),
    )
}

/// The traits that the types of a dependency have according to its documentation and ours.
pub open spec fn dep_traits(dep: DocCrate, elicitation: DocCrate, source: Inventory) -> Seq<
    (Seq<char>, TraitPrereqs),
> {
    let paths = PathFilterView::Listed(tracked_paths(views(source.items@), source.crate_name@));
    table_merged(
        prereqs_after(dep, dep.index@, paths),
        prereqs_after(elicitation, elicitation.index@, paths),
    )
}

impl ImplRun {
    /// What stays the same during a run.
    pub open spec fn same_basis(self, o: Self) -> bool {
        &&& self.complete == o.complete
        &&& self.harness == o.harness
        &&& self.trenchcoat_pairs == o.trenchcoat_pairs
        &&& self.wrapper_prereqs == o.wrapper_prereqs
        &&& self.wrapper_coverage == o.wrapper_coverage
    }

    /// One more report is recorded.
    pub open spec fn extends(self, o: Self, name: Seq<char>) -> bool {
        &&& self.reports@.len() == o.reports@.len() + 1
        &&& self.reports@.drop_last() == o.reports@
        &&& self.reports@.last().0@ == name
    }

    /// Begins a run with the documentation of our own crate.
    pub fn start(elicitation: &DocCrate, harness: ProofHarness) -> (r: ImplRun)
        ensures
            r.harness == harness,
            views(r.complete.concrete@) == complete_after(
                *elicitation,
                elicitation.index@,
                "elicitation"@,
                false,
            ),
            views(r.complete.factory@) == complete_after(
                *elicitation,
                elicitation.index@,
                "elicitation"@,
                true,
            ),
            views(r.trenchcoat_pairs@) == sorted::<(String, String)>(
                pairs_after(*elicitation, elicitation.index@),
            ),
            keyed(r.wrapper_prereqs@) == own_traits(*elicitation),
            wrapper_views(r.wrapper_coverage@) == coverage_map(
                own_types(r.complete, r.wrapper_prereqs@),
                views(r.trenchcoat_pairs@),
            ),
            r.reports@.len() == 0,
            r.foreign_prereqs@.len() == 0,
            r.probes@.len() == 0,
    {
        let complete = collect_elicit_complete_paths(elicitation, "elicitation");
        let trenchcoat_pairs = collect_trenchcoat_pairs(elicitation);
        let wrapper_prereqs = collect_trait_prereqs(elicitation, "elicitation", false);
        let wrapper_coverage = build_wrapper_coverage_map(
            &trenchcoat_pairs,
            &complete,
            &wrapper_prereqs,
        );
        ImplRun {
            complete,
            harness,
            trenchcoat_pairs,
            wrapper_prereqs,
            wrapper_coverage,
            reports: Vec::new(),
            foreign_prereqs: Vec::new(),
            probes: Vec::new(),
        }
    }

    /// Records the report on a dependency, from its inventory, its documentation and ours, and
    /// returns the report's document.
    pub fn record_crate(
        &mut self,
        crate_name: &str,
        source: &Inventory,
        dep: &DocCrate,
        elicitation: &DocCrate,
        row_probes: Vec<(String, TypeFeatureProbe)>,
    ) -> (r: Vec<u8>)
        ensures
            final(self).same_basis(*old(self)),
            final(self).extends(*old(self), crate_name@),
            is_report(
                final(self).reports@.last().1,
                *source,
                old(self).complete,
                old(self).harness,
                dep_traits(*dep, *elicitation, *source),
            ),
            keyed(final(self).foreign_prereqs@) == table_merged(
                keyed(old(self).foreign_prereqs@),
                dep_traits(*dep, *elicitation, *source),
            ),
            keyed(final(self).probes@) == keyed(old(self).probes@).push((crate_name@, row_probes)),
            r@ == csv_document(
                seq![impl_coverage_columns()] + fields_of(
                    records_in_order(
                        impl_records(
                            source.crate_name@,
                            views(final(self).reports@.last().1.entries@),
                            Some(&row_probes),
                            Some(&old(self).wrapper_coverage),
                        ),
                    ),
                ),
            ),
    {
        let mut prereqs = collect_trait_prereqs_for_inventory(dep, source);
        let ours = collect_trait_prereqs_for_inventory(elicitation, source);
        merge_prereqs(&mut prereqs, &ours);
        merge_prereqs(&mut self.foreign_prereqs, &prereqs);
        let report = build_impl_coverage_report(source, &self.complete, &self.harness, &prereqs);
        let document = write_impl_coverage_csv(
            &report,
            Some(&row_probes),
            Some(&self.wrapper_coverage),
        );
        self.reports.push((crate_name.to_string(), report));
        assert(self.reports@.drop_last() =~= old(self).reports@);
        self.probes.push((crate_name.to_string(), row_probes));
        assert(keyed(self.probes@) =~= keyed(old(self).probes@).push((crate_name@, row_probes)));
        document
    }

    /// Records the report on our own crate and returns the report's document.
    pub fn record_internal(&mut self, source: &Inventory, elicitation: &DocCrate) -> (r: Vec<u8>)
        ensures
            final(self).same_basis(*old(self)),
            final(self).extends(*old(self), "elicitation"@),
            is_report(
                final(self).reports@.last().1,
                *source,
                old(self).complete,
                old(self).harness,
                own_traits(*elicitation),
            ),
            final(self).foreign_prereqs == old(self).foreign_prereqs,
            final(self).probes == old(self).probes,
            r@ == csv_document(
                seq![impl_coverage_columns()] + fields_of(
                    records_in_order(
                        impl_records(
                            source.crate_name@,
                            views(final(self).reports@.last().1.entries@),
                            None,
                            Some(&old(self).wrapper_coverage),
                        ),
                    ),
                ),
            ),
    {
        let prereqs = collect_trait_prereqs(elicitation, "elicitation", false);
        let report = build_impl_coverage_report(source, &self.complete, &self.harness, &prereqs);
        let document = write_impl_coverage_csv(&report, None, Some(&self.wrapper_coverage));
        self.reports.push(("elicitation".to_string(), report));
        assert(self.reports@.drop_last() =~= old(self).reports@);
        document
    }

    /// What a run leads to. The list of gaps is made when all crates were covered or several
    /// reports were recorded, the trenchcoat report when all crates were covered.
    pub fn finish(&self, only_crate: Option<&str>) -> (r: ImplFindings)
        ensures
            r.consolidated == (only_crate is None || self.reports@.len() > 1),
            views(r.gaps@) == if r.consolidated {
                sorted::<ImplGapEntry>(
                    firsts::<ImplGapEntry>(
                        run_gaps(self.reports@, self.probes@, self.wrapper_coverage@),
                    ),
                )
            } else {
                seq![]
            },
            match r.trenchcoats {
                Some(t) => only_crate is None && views(t@) == sorted::<TrenchcoatEntry>(
                    trenchcoat_rows(
                        own_types(self.complete, self.wrapper_prereqs@),
                        keyed(self.foreign_prereqs@),
                        views(self.trenchcoat_pairs@),
                    ),
                ),
                None => only_crate is Some,
            },
    {
        let consolidated = only_crate.is_none() || self.reports.len() > 1;
        let gaps = if consolidated {
            let mut pairs: Vec<(&str, &ImplCoverageReport)> = Vec::new();
            let mut i: usize = 0;
            while i < self.reports.len()
                invariant
                    i <= self.reports.len(),
                    pairs.len() == i,
                    forall|k: int|
                        0 <= k < i ==> (#[trigger] pairs@[k]).0@ == self.reports@[k].0@
                            && *pairs@[k].1 == self.reports@[k].1,
                decreases self.reports.len() - i,
            {
                pairs.push((self.reports[i].0.as_str(), &self.reports[i].1));
                i += 1;
            }
            proof {
                lemma_run_gaps(pairs@, self.reports@, self.probes@, self.wrapper_coverage@);
            }
            build_impl_gaps(&pairs, &self.probes, &self.wrapper_coverage)
        } else {
            let none: Vec<ImplGapEntry> = Vec::new();
            assert(views(none@) =~= seq![]);
            none
        };
        let trenchcoats = if only_crate.is_none() {
            Some(
                build_trenchcoat_report(
                    &self.trenchcoat_pairs,
                    &self.complete,
                    &self.wrapper_prereqs,
                    &self.foreign_prereqs,
                ),
            )
        } else {
            None
        };
        ImplFindings { consolidated, gaps, trenchcoats }
    }
}

/// The gaps of the reports of a run, in their order.
pub open spec fn run_gaps(
    reports: Seq<(String, ImplCoverageReport)>,
    tables: Seq<(String, Vec<(String, TypeFeatureProbe)>)>,
    map: Seq<(String, Vec<crate::trenchcoat::WrapperCoverage>)>,
) -> Seq<ImplGapView>
    decreases reports.len(),
{
    if reports.len() == 0 {
        seq![]
    } else {
        run_gaps(reports.drop_last(), tables, map) + report_gaps(
            reports.last().0@,
            views(reports.last().1.entries@),
            tables,
            map,
        )
    }
}

proof fn lemma_run_gaps(
    pairs: Seq<(&str, &ImplCoverageReport)>,
    reports: Seq<(String, ImplCoverageReport)>,
    tables: Seq<(String, Vec<(String, TypeFeatureProbe)>)>,
    map: Seq<(String, Vec<crate::trenchcoat::WrapperCoverage>)>,
)
    requires
        pairs.len() == reports.len(),
        forall|k: int|
            0 <= k < pairs.len() ==> (#[trigger] pairs[k]).0@ == reports[k].0@ && *pairs[k].1
                == reports[k].1,
    ensures
        all_gaps(pairs, tables, map) == run_gaps(reports, tables, map),
    decreases pairs.len(),
{
    if pairs.len() > 0 {
        let p = pairs.drop_last();
        let q = reports.drop_last();
        assert forall|k: int| 0 <= k < p.len() implies (#[trigger] p[k]).0@ == q[k].0@ && *p[k].1
            == q[k].1 by {
            assert(p[k] == pairs[k]);
        }
        lemma_run_gaps(p, q, tables, map);
        assert(pairs[pairs.len() - 1].0@ == reports[reports.len() - 1].0@);
    }
}

/// What a run of impl reports leads to.
#[derive(Debug)]
pub struct ImplFindings {
    /// Whether the list of gaps was made.
    pub consolidated: bool,
    pub gaps: Vec<ImplGapEntry>,
    pub trenchcoats: Option<Vec<TrenchcoatEntry>>,
}

/// The report on a pair of crates, from their inventories and the documentation of the shadow
/// crate.
pub fn compare_pair(target: &Inventory, shadow: &Inventory, shadow_docs: &DocCrate, shadow_name: &str) -> (r:
    ShadowReport)
    ensures
        is_shadow_report(
            r,
            *target,
            *shadow,
            (ShadowInputs {
                items: views(shadow.items@),
                concrete: complete_after(*shadow_docs, shadow_docs.index@, shadow_name@, false),
                factory: complete_after(*shadow_docs, shadow_docs.index@, shadow_name@, true),
                prereqs: prereqs_after(
                    *shadow_docs,
                    shadow_docs.index@,
                    (PathFilterView::Scope { key: underscored(shadow_name@), prefix: false }),
                ),
            }),
        ),
{
    let complete = collect_elicit_complete_paths(shadow_docs, shadow_name);
    let prereqs = collect_trait_prereqs(shadow_docs, shadow_name, false);
    build_shadow_report(target, shadow, &complete, &prereqs)
}

/// What is recorded during a run of shadow reports.
#[derive(Debug)]
pub struct ShadowRun {
    pub reports: Vec<(String, String, ShadowReport)>,
    pub skipped: Vec<ShadowSkippedPair>,
}

impl ShadowRun {
    /// Begins a run.
    pub fn start() -> (r: ShadowRun)
        ensures
            r.reports@.len() == 0,
            r.skipped@.len() == 0,
    {
        ShadowRun { reports: Vec::new(), skipped: Vec::new() }
    }

    /// Records the report on a pair.
    pub fn record(&mut self, target: &str, shadow: &str, report: ShadowReport)
        ensures
            final(self).reports@.len() == old(self).reports@.len() + 1,
            final(self).reports@.drop_last() == old(self).reports@,
            final(self).reports@.last().0@ == target@,
            final(self).reports@.last().1@ == shadow@,
            final(self).reports@.last().2 == report,
            final(self).skipped == old(self).skipped,
    {
        self.reports.push((target.to_string(), shadow.to_string(), report));
        assert(self.reports@.drop_last() =~= old(self).reports@);
    }

    /// Records a pair that could not be compared, and why.
    pub fn skip(&mut self, target: &str, shadow: &str, error: &str)
        ensures
            views(final(self).skipped@) == views(old(self).skipped@).push(
                SkippedPairView {
                    upstream_crate: target@,
                    shadow_crate: shadow@,
                    error: error@,
                },
            ),
            final(self).reports == old(self).reports,
    {
        self.skipped.push(
            ShadowSkippedPair {
                upstream_crate: target.to_string(),
                shadow_crate: shadow.to_string(),
                error: error.to_string(),
            },
        );
        assert(views(self.skipped@) =~= views(old(self).skipped@).push(
            SkippedPairView { upstream_crate: target@, shadow_crate: shadow@, error: error@ },
        ));
    }

    /// What a run leads to. The list of gaps is made when all pairs were covered or several
    /// reports were recorded.
    pub fn finish(&self, only_crate: Option<&str>) -> (r: Result<ShadowFindings, ElicitDocErrorKind>)
        ensures
            match r {
                Ok(f) => f.consolidated == (only_crate is None || self.reports@.len() > 1) && views(
                    f.gaps@,
                ) == if f.consolidated {
                    sorted::<ShadowGapEntry>(
                        firsts::<ShadowGapEntry>(run_shadow_gaps(self.reports@)),
                    )
                } else {
                    seq![]
                },
                Err(_) => false,
            },
    {
        let consolidated = only_crate.is_none() || self.reports.len() > 1;
        if !consolidated {
            let gaps: Vec<ShadowGapEntry> = Vec::new();
            assert(views(gaps@) =~= seq![]);
            return Ok(ShadowFindings { consolidated, gaps });
        }
        let mut pairs: Vec<(&str, &str, &ShadowReport)> = Vec::new();
        let mut i: usize = 0;
        while i < self.reports.len()
            invariant
                i <= self.reports.len(),
                pairs.len() == i,
                forall|k: int|
                    0 <= k < i ==> (#[trigger] pairs@[k]).0@ == self.reports@[k].0@ && pairs@[k].1@
                        == self.reports@[k].1@ && *pairs@[k].2 == self.reports@[k].2,
            decreases self.reports.len() - i,
        {
            pairs.push(
                (self.reports[i].0.as_str(), self.reports[i].1.as_str(), &self.reports[i].2),
            );
            i += 1;
        }
        proof {
            lemma_run_shadow_gaps(pairs@, self.reports@);
        }
        match build_shadow_gaps(&pairs) {
            Ok(gaps) => Ok(ShadowFindings { consolidated, gaps }),
            Err(e) => Err(e),
        }
    }
}

/// The gaps of the shadow reports of a run, in their order.
pub open spec fn run_shadow_gaps(reports: Seq<(String, String, ShadowReport)>) -> Seq<ShadowGapView>
    decreases reports.len(),
{
    if reports.len() == 0 {
        seq![]
    } else {
        let p = reports.last();
        run_shadow_gaps(reports.drop_last()) + surface_gaps(p.0@, p.1@, views(p.2.rows@))
            + completion_gaps(p.0@, p.1@, views(p.2.rows@))
    }
}

proof fn lemma_run_shadow_gaps(
    pairs: Seq<(&str, &str, &ShadowReport)>,
    reports: Seq<(String, String, ShadowReport)>,
)
    requires
        pairs.len() == reports.len(),
        forall|k: int|
            0 <= k < pairs.len() ==> (#[trigger] pairs[k]).0@ == reports[k].0@ && pairs[k].1@
                == reports[k].1@ && *pairs[k].2 == reports[k].2,
    ensures
        all_shadow_gaps(pairs) == run_shadow_gaps(reports),
    decreases pairs.len(),
{
    if pairs.len() > 0 {
        let p = pairs.drop_last();
        let q = reports.drop_last();
        assert forall|k: int| 0 <= k < p.len() implies (#[trigger] p[k]).0@ == q[k].0@ && p[k].1@
            == q[k].1@ && *p[k].2 == q[k].2 by {
            assert(p[k] == pairs[k]);
        }
        lemma_run_shadow_gaps(p, q);
        assert(pairs[pairs.len() - 1].0@ == reports[reports.len() - 1].0@);
    }
}

/// What a run of shadow reports leads to.
#[derive(Debug)]
pub struct ShadowFindings {
    /// Whether the list of gaps was made.
    pub consolidated: bool,
    pub gaps: Vec<ShadowGapEntry>,
}

/// Wrappers that are complete.
pub open spec fn is_complete_wrapper(complete: bool) -> spec_fn(TrenchcoatView) -> bool {
    |t: TrenchcoatView| t.wrapper_elicit_complete == complete
}

fn count_trenchcoats(list: &Vec<TrenchcoatEntry>, complete: bool) -> (r: usize)
    ensures
        r == count_if(views(list@), is_complete_wrapper(complete)),
{
    let mut n: usize = 0;
    let mut i: usize = 0;
    let ghost all = views(list@);
    while i < list.len()
        invariant
            i <= list.len(),
            n <= i,
            all == views(list@),
            n == count_if(all.take(i as int), is_complete_wrapper(complete)),
        decreases list.len() - i,
    {
        proof {
            assert(all.take(i + 1).drop_last() =~= all.take(i as int));
            assert(all.take(i + 1).last() == list@[i as int]@);
        }
        if list[i].wrapper_elicit_complete == complete {
            n += 1;
        }
        i += 1;
    }
    proof {
        assert(all.take(i as int) =~= all);
    }
    n
}

/// The number of impl gaps of each kind, in words.
pub fn describe_impl_gaps(gaps: &Vec<ImplGapEntry>) -> (r: String)
    ensures
        ({
            let gaps = views(gaps@);
            r@ == decimal(gaps.len() as nat) + " gaps: "@ + decimal(count_if(gaps, is_impl_gap(ImplGapKind::MissingOurTraits)) as nat) + " missing_our_traits, "@ + decimal(count_if(gaps, is_impl_gap(ImplGapKind::ReadyForElicitComplete)) as nat) + " ready_for_elicit_complete, "@ + decimal(count_if(gaps, is_impl_gap(ImplGapKind::FeatureGatedExternal)) as nat) + " feature_gated_external"@
        }),
{
    assert(views(gaps@).len() == gaps@.len());
    let mut out = decimal_text(gaps.len());
    out.append(" gaps: ");
    push_decimal(&mut out, count_impl_gaps(gaps, ImplGapKind::MissingOurTraits) as u128);
    out.append(" missing_our_traits, ");
    push_decimal(&mut out, count_impl_gaps(gaps, ImplGapKind::ReadyForElicitComplete) as u128);
    out.append(" ready_for_elicit_complete, ");
    push_decimal(&mut out, count_impl_gaps(gaps, ImplGapKind::FeatureGatedExternal) as u128);
    out.append(" feature_gated_external");
    out
}

/// The number of shadow gaps of each kind, in words.
pub fn describe_shadow_gaps(gaps: &Vec<ShadowGapEntry>) -> (r: String)
    ensures
        ({
            let gaps = views(gaps@);
            r@ == decimal(gaps.len() as nat) + " total: "@ + decimal(count_if(gaps, is_shadow_gap(ShadowGapKind::Missing)) as nat) + " missing, "@ + decimal(count_if(gaps, is_shadow_gap(ShadowGapKind::Drifted)) as nat) + " drifted, "@ + decimal(count_if(gaps, is_shadow_gap(ShadowGapKind::PossiblyStale)) as nat) + " possibly_stale, "@ + decimal(count_if(gaps, is_shadow_gap(ShadowGapKind::InfrastructureExtra)) as nat) + " infra_extra, "@ + decimal(count_if(gaps, is_shadow_gap(ShadowGapKind::ShadowVerificationGap)) as nat) + " verification"@
        }),
{
    assert(views(gaps@).len() == gaps@.len());
    let mut out = decimal_text(gaps.len());
    out.append(" total: ");
    push_decimal(&mut out, count_shadow_gaps(gaps, ShadowGapKind::Missing) as u128);
    out.append(" missing, ");
    push_decimal(&mut out, count_shadow_gaps(gaps, ShadowGapKind::Drifted) as u128);
    out.append(" drifted, ");
    push_decimal(&mut out, count_shadow_gaps(gaps, ShadowGapKind::PossiblyStale) as u128);
    out.append(" possibly_stale, ");
    push_decimal(&mut out, count_shadow_gaps(gaps, ShadowGapKind::InfrastructureExtra) as u128);
    out.append(" infra_extra, ");
    push_decimal(&mut out, count_shadow_gaps(gaps, ShadowGapKind::ShadowVerificationGap) as u128);
    out.append(" verification");
    out
}

/// The number of complete and of incomplete trenchcoats, in words.
pub fn describe_trenchcoats(gaps: &Vec<TrenchcoatEntry>) -> (r: String)
    ensures
        ({
            let gaps = views(gaps@);
            r@ == decimal(gaps.len() as nat) + " trenchcoats: "@ + decimal(count_if(gaps, is_complete_wrapper(true)) as nat) + " complete, "@ + decimal(count_if(gaps, is_complete_wrapper(false)) as nat) + " incomplete"@
        }),
{
    assert(views(gaps@).len() == gaps@.len());
    let mut out = decimal_text(gaps.len());
    out.append(" trenchcoats: ");
    push_decimal(&mut out, count_trenchcoats(gaps, true) as u128);
    out.append(" complete, ");
    push_decimal(&mut out, count_trenchcoats(gaps, false) as u128);
    out.append(" incomplete");
    out
}

/// The name of the file for the impl report on a crate.
pub fn impl_report_name(crate_name: &str) -> (r: String)
    ensures
        r@ == underscored(crate_name@) + ".csv"@,
{
    let mut out = crate::text::with_underscores(crate_name);
    out.append(".csv");
    out
}

/// The name of the file for the shadow report on a crate.
pub fn shadow_report_name(target: &str) -> (r: String)
    ensures
        r@ == "shadow-"@ + target@ + ".csv"@,
{
    let mut out = "shadow-".to_string();
    out.append(target);
    out.append(".csv");
    out
}

}
