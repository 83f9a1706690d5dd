//! What a run reports on, and what comes of it.

use vstd::prelude::*;

use crate::collect::{listed_traits, prereqs_after, table_merged, tracked_paths, PathFilterView};
use crate::collect::{TraitPrereqs, TypeFeatureProbe, TypeFeatureProbeView};
use crate::count::count_if;
use crate::distinct::{firsts, holds_identity, law_firsts, Identified};
use crate::gaps::{completion_gaps, impl_gap, report_gaps, surface_gaps, ImplGapEntry, ImplGapView};
use crate::gaps::{ShadowGapEntry, ShadowGapView};
use crate::impl_coverage::ImplCoverageReport;
use crate::inventory::{types_of, Inventory, ItemView};
use crate::laws::basics::{is_key, law_count_is_of_members, law_first_entry_counts, law_keyed};
use crate::laws::basics::{lemma_contains_sum, lemma_filter_same, is_first_entry};
use crate::laws::collect::{has_impl, law_collected_traits, law_merged_tables, on_entry};
use crate::laws::gaps::{are_wrappers_for, has_gap_source, has_shadow_source, is_gap_of};
use crate::laws::gaps::{is_probe_for, is_shadow_gap_of, is_unverified, lemma_one_probe};
use crate::laws::gaps::{lemma_one_wrappers, lemma_report_gap_members, lemma_shadow_gap_members};
use crate::laws::gaps::{lists_gap, lists_shadow_gap};
use crate::laws::impl_coverage::{is_type, lemma_type_members};
use crate::laws::text::law_underscored;
use crate::order::{law_sorted_members, sorted};
use crate::rustdoc::DocCrate;
use crate::session::{dep_traits, is_complete_wrapper, own_traits, probe_rows, run_gaps};
use crate::session::{run_shadow_gaps, selects, shadow_table, third_party_table, without};
use crate::shadow::{ShadowReport, ShadowRowView};
use crate::table::{keyed, keys_distinct};
use crate::text::{joined, underscored, views};
use crate::trenchcoat::{TrenchcoatView, WrapperCoverage, WrapperView};

verus! {

/// A run that is not restricted covers every crate; one that is covers only the crate of its name.
pub proof fn law_selection(only: Option<&str>, name: Seq<char>, other: Seq<char>)
    ensures
        only is None ==> selects(only, name),
        only matches Some(c) ==> (selects(only, name) <==> name == c@),
        selects(only, name) && selects(only, other) && name != other ==> only is None,
{
}

/// The features that are left are those of the list that the other does not have, in their order.
pub proof fn law_without(s: Seq<Seq<char>>, other: Seq<Seq<char>>)
    ensures
        without(s, other) == s.filter(|x: Seq<char>| !other.contains(x)),
    decreases s.len(),
{
    reveal(Seq::filter);
    if s.len() > 0 {
        law_without(s.drop_last(), other);
    }
}

/// The traits that a probe saw for a path: those of the first entry of the table for it.
pub open spec fn saw_traits(
    probed: Option<&Vec<(String, TraitPrereqs)>>,
    path: Seq<char>,
    seen: Option<TraitPrereqs>,
) -> bool {
    match probed {
        Some(table) => {
            &&& seen is Some <==> is_key(keyed(table@), path)
            &&& forall|i: int| #[trigger]
                is_first_entry(keyed(table@), path, i) ==> seen == Some(table@[i].1)
        },
        None => seen is None,
    }
}

/// Every type of an inventory has a probe under its path. It names the crate and the candidate
/// features, and the traits that were seen for the type with them.
pub proof fn law_probes(
    crate_name: Seq<char>,
    items: Seq<ItemView>,
    candidates: Seq<Seq<char>>,
    probed: Option<&Vec<(String, TraitPrereqs)>>,
)
    ensures
        ({
            let rows = probe_rows(crate_name, types_of(items), candidates, probed);
            &&& forall|j: int|
                0 <= j < rows.len() ==> (#[trigger] rows[j]).1.feature_crate == crate_name
                    && rows[j].1.candidate_unlock_features == candidates && saw_traits(
                    probed,
                    rows[j].0,
                    rows[j].1.probed_prereqs,
                )
            &&& forall|i: int|
                0 <= i < items.len() && is_type(#[trigger] items[i]) ==> is_key(
                    rows,
                    joined(items[i].path, "::"@),
                )
        }),
{
    let types = types_of(items);
    let rows = probe_rows(crate_name, types, candidates, probed);
    lemma_type_members(items);
    assert forall|j: int| 0 <= j < rows.len() implies (#[trigger] rows[j]).1.feature_crate
        == crate_name && rows[j].1.candidate_unlock_features == candidates && saw_traits(
        probed,
        rows[j].0,
        rows[j].1.probed_prereqs,
    ) by {
        match probed {
            Some(table) => {
                law_first_entry_counts(keyed(table@), rows[j].0);
                law_keyed(table@);
            },
            None => {},
        }
    }
    assert forall|i: int| 0 <= i < items.len() && is_type(#[trigger] items[i]) implies is_key(
        rows,
        joined(items[i].path, "::"@),
    ) by {
        let j = choose|j: int| 0 <= j < types.len() && types[j] == items[i];
        assert(rows[j].0 == joined(items[i].path, "::"@));
    }
}

proof fn lemma_elicitation()
    ensures
        underscored("elicitation"@) == "elicitation"@,
{
    reveal_strlit("elicitation");
    law_underscored("elicitation"@);
    assert(underscored("elicitation"@) =~= "elicitation"@);
}

/// A trait is listed for a path of our own crate exactly when our documentation has an impl of it
/// for a type of that path, and no path outside of our crate is listed.
pub proof fn law_own_traits(k: DocCrate, path: Seq<char>)
    ensures
        ({
            let f = PathFilterView::Scope { key: "elicitation"@, prefix: false };
            let p = listed_traits(own_traits(k), path);
            &&& p.serialize == has_impl(k, f, path, "Serialize"@)
            &&& p.deserialize == has_impl(k, f, path, "Deserialize"@)
            &&& p.json_schema == has_impl(k, f, path, "JsonSchema"@)
            &&& p.elicitation_trait == has_impl(k, f, path, "Elicitation"@)
            &&& p.elicit_introspect == has_impl(k, f, path, "ElicitIntrospect"@)
            &&& p.elicit_spec == has_impl(k, f, path, "ElicitSpec"@)
            &&& p.elicit_prompt_tree == has_impl(k, f, path, "ElicitPromptTree"@)
            &&& p.to_code_literal == has_impl(k, f, path, "ToCodeLiteral"@)
        }),
{
    lemma_elicitation();
    law_collected_traits(k, PathFilterView::Scope { key: "elicitation"@, prefix: false }, path);
}

proof fn lemma_one_entry(
    table: Seq<(Seq<char>, TraitPrereqs)>,
    path: Seq<char>,
    asks: spec_fn(TraitPrereqs) -> bool,
)
    requires
        keys_distinct(table),
        !asks(TraitPrereqs::none()),
    ensures
        on_entry(table, path, asks) == asks(listed_traits(table, path)),
{
    law_first_entry_counts(table, path);
    if on_entry(table, path, asks) {
        let i = choose|i: int|
            0 <= i < table.len() && (#[trigger] table[i]).0 == path && asks(table[i].1);
        assert(is_first_entry(table, path, i)) by {
            assert forall|j: int| 0 <= j < i implies (#[trigger] table[j]).0 != path by {
                assert(table[j].0 != table[i].0);
            }
        }
    }
    if is_key(table, path) {
        let i = choose|i: int| #[trigger] is_first_entry(table, path, i);
        assert(table[i].0 == path && table[i].1 == listed_traits(table, path));
    }
}

/// A type of a dependency has a trait exactly when its own documentation or ours has an impl of it
/// for a path of the inventory.
pub proof fn law_dependency_traits(dep: DocCrate, ours: DocCrate, source: Inventory, path: Seq<char>)
    ensures
        ({
            let f = PathFilterView::Listed(
                tracked_paths(views(source.items@), source.crate_name@),
            );
            let p = listed_traits(dep_traits(dep, ours, source), path);
            &&& p.serialize == (has_impl(dep, f, path, "Serialize"@) || has_impl(ours, f, path, "Serialize"@))
            &&& p.deserialize == (has_impl(dep, f, path, "Deserialize"@) || has_impl(ours, f, path, "Deserialize"@))
            &&& p.json_schema == (has_impl(dep, f, path, "JsonSchema"@) || has_impl(ours, f, path, "JsonSchema"@))
            &&& p.elicitation_trait == (has_impl(dep, f, path, "Elicitation"@) || has_impl(ours, f, path, "Elicitation"@))
            &&& p.elicit_introspect == (has_impl(dep, f, path, "ElicitIntrospect"@) || has_impl(ours, f, path, "ElicitIntrospect"@))
            &&& p.elicit_spec == (has_impl(dep, f, path, "ElicitSpec"@) || has_impl(ours, f, path, "ElicitSpec"@))
            &&& p.elicit_prompt_tree == (has_impl(dep, f, path, "ElicitPromptTree"@) || has_impl(ours, f, path, "ElicitPromptTree"@))
            &&& p.to_code_literal == (has_impl(dep, f, path, "ToCodeLiteral"@) || has_impl(ours, f, path, "ToCodeLiteral"@))
        }),
{
    let f = PathFilterView::Listed(tracked_paths(views(source.items@), source.crate_name@));
    let a = prereqs_after(dep, dep.index@, f);
    let b = prereqs_after(ours, ours.index@, f);
    law_collected_traits(dep, f, path);
    law_collected_traits(ours, f, path);
    law_merged_tables(a, b, path);
    lemma_one_entry(b, path, |t: TraitPrereqs| t.serialize);
    lemma_one_entry(b, path, |t: TraitPrereqs| t.deserialize);
    lemma_one_entry(b, path, |t: TraitPrereqs| t.json_schema);
    lemma_one_entry(b, path, |t: TraitPrereqs| t.elicitation_trait);
    lemma_one_entry(b, path, |t: TraitPrereqs| t.elicit_introspect);
    lemma_one_entry(b, path, |t: TraitPrereqs| t.elicit_spec);
    lemma_one_entry(b, path, |t: TraitPrereqs| t.elicit_prompt_tree);
    lemma_one_entry(b, path, |t: TraitPrereqs| t.to_code_literal);
}

spec fn has_run_source(
    g: ImplGapView,
    reports: Seq<(String, ImplCoverageReport)>,
    tables: Seq<(String, Vec<(String, TypeFeatureProbe)>)>,
    map: Seq<(String, Vec<WrapperCoverage>)>,
) -> bool {
    exists|n: int|
        0 <= n < reports.len() && has_gap_source(
            g,
            (#[trigger] reports[n]).0@,
            views(reports[n].1.entries@),
            tables,
            map,
        )
}

proof fn lemma_run_members(
    reports: Seq<(String, ImplCoverageReport)>,
    tables: Seq<(String, Vec<(String, TypeFeatureProbe)>)>,
    map: Seq<(String, Vec<WrapperCoverage>)>,
)
    ensures
        forall|i: int|
            0 <= i < run_gaps(reports, tables, map).len() ==> has_run_source(
                #[trigger] run_gaps(reports, tables, map)[i],
                reports,
                tables,
                map,
            ),
        forall|n: int, g: ImplGapView|
            0 <= n < reports.len() && (#[trigger] report_gaps(
                reports[n].0@,
                views(reports[n].1.entries@),
                tables,
                map,
            ).contains(g)) ==> run_gaps(reports, tables, map).contains(g),
    decreases reports.len(),
{
    if reports.len() > 0 {
        let f = reports.drop_last();
        let p = reports.last();
        let a = run_gaps(f, tables, map);
        let c = report_gaps(p.0@, views(p.1.entries@), tables, map);
        let b = run_gaps(reports, tables, map);
        lemma_run_members(f, tables, map);
        lemma_report_gap_members(p.0@, views(p.1.entries@), tables, map);
        assert(reports[reports.len() - 1] == p);
        assert forall|i: int| 0 <= i < b.len() implies has_run_source(#[trigger] b[i], reports, tables, map) by {
            if i < a.len() {
                assert(has_run_source(a[i], f, tables, map));
                let n = choose|n: int|
                    0 <= n < f.len() && has_gap_source(
                        a[i],
                        (#[trigger] f[n]).0@,
                        views(f[n].1.entries@),
                        tables,
                        map,
                    );
                assert(reports[n] == f[n]);
            } else {
                assert(has_gap_source(c[i - a.len()], p.0@, views(p.1.entries@), tables, map));
            }
        }
        assert forall|n: int, g: ImplGapView|
            0 <= n < reports.len() && (#[trigger] report_gaps(
                reports[n].0@,
                views(reports[n].1.entries@),
                tables,
                map,
            ).contains(g)) implies b.contains(g) by {
            lemma_contains_sum(a, c, g);
            if n < f.len() {
                assert(f[n] == reports[n]);
                assert(report_gaps(f[n].0@, views(f[n].1.entries@), tables, map).contains(g));
            }
        }
    }
}

/// Every gap that a run lists is that of an entry of one of its reports, and every entry that
/// leaves a gap is listed.
pub proof fn law_run_gaps(
    reports: Seq<(String, ImplCoverageReport)>,
    tables: Seq<(String, Vec<(String, TypeFeatureProbe)>)>,
    map: Seq<(String, Vec<WrapperCoverage>)>,
    i: int,
    n: int,
    m: int,
    probe: Option<TypeFeatureProbeView>,
    ws: Seq<WrapperView>,
)
    ensures
        ({
            let list = sorted::<ImplGapEntry>(
                firsts::<ImplGapEntry>(run_gaps(reports, tables, map)),
            );
            &&& 0 <= i < list.len() ==> exists|a: int, b: int|
                0 <= a < reports.len() && 0 <= b < reports[a].1.entries@.len() && is_gap_of(
                    list[i],
                    reports[a].0@,
                    (#[trigger] reports[a].1.entries@[b])@,
                    tables,
                    map,
                )
            &&& 0 <= n < reports.len() && 0 <= m < reports[n].1.entries@.len() && is_probe_for(
                tables,
                reports[n].0@,
                reports[n].1.entries@[m].type_path@,
                probe,
            ) && are_wrappers_for(map, reports[n].1.entries@[m].type_path@, ws) && impl_gap(
                reports[n].0@,
                reports[n].1.entries@[m]@,
                probe,
                ws,
            ) is Some ==> lists_gap(list, reports[n].0@, reports[n].1.entries@[m].type_path@)
        }),
{
    let all = run_gaps(reports, tables, map);
    let kept = firsts::<ImplGapEntry>(all);
    let list = sorted::<ImplGapEntry>(kept);
    lemma_run_members(reports, tables, map);
    if 0 <= i < list.len() {
        let g = list[i];
        law_sorted_members::<ImplGapEntry>(kept, g);
        assert(list.contains(g));
        law_firsts::<ImplGapEntry>(all, (g.source_crate, g.type_path));
        let k = choose|k: int| 0 <= k < kept.len() && kept[k] == g;
        assert(all.contains(kept[k]));
        let j = choose|j: int| 0 <= j < all.len() && all[j] == g;
        assert(has_run_source(all[j], reports, tables, map));
        let a = choose|a: int|
            0 <= a < reports.len() && has_gap_source(
                g,
                (#[trigger] reports[a]).0@,
                views(reports[a].1.entries@),
                tables,
                map,
            );
        let entries = views(reports[a].1.entries@);
        let b = choose|b: int|
            0 <= b < entries.len() && is_gap_of(g, reports[a].0@, #[trigger] entries[b], tables, map);
        assert(entries[b] == reports[a].1.entries@[b]@);
    }
    if 0 <= n < reports.len() && 0 <= m < reports[n].1.entries@.len() && is_probe_for(
        tables,
        reports[n].0@,
        reports[n].1.entries@[m].type_path@,
        probe,
    ) && are_wrappers_for(map, reports[n].1.entries@[m].type_path@, ws) && impl_gap(
        reports[n].0@,
        reports[n].1.entries@[m]@,
        probe,
        ws,
    ) is Some {
        let source = reports[n].0@;
        let e = reports[n].1.entries@[m]@;
        let entries = views(reports[n].1.entries@);
        lemma_one_probe(tables, source, e.type_path, probe);
        lemma_one_wrappers(map, e.type_path, ws);
        let g = impl_gap(source, e, probe, ws)->0;
        lemma_report_gap_members(source, entries, tables, map);
        assert(entries[m] == e);
        assert(report_gaps(reports[n].0@, views(reports[n].1.entries@), tables, map).contains(g));
        let id = (source, e.type_path);
        let j = choose|j: int| 0 <= j < all.len() && all[j] == g;
        assert(ImplGapEntry::identity(all[j]) == id);
        assert(holds_identity::<ImplGapEntry>(all, id));
        law_firsts::<ImplGapEntry>(all, id);
        let k = choose|k: int|
            0 <= k < kept.len() && ImplGapEntry::identity(#[trigger] kept[k]) == id;
        assert(kept.contains(kept[k]));
        law_sorted_members::<ImplGapEntry>(kept, kept[k]);
        let l = choose|l: int| 0 <= l < list.len() && list[l] == kept[k];
        assert(list[l].source_crate == source);
    }
}

spec fn has_shadow_run_source(g: ShadowGapView, reports: Seq<(String, String, ShadowReport)>) -> bool {
    exists|n: int|
        0 <= n < reports.len() && has_shadow_source(
            g,
            (#[trigger] reports[n]).0@,
            reports[n].1@,
            views(reports[n].2.rows@),
        )
}

proof fn lemma_shadow_run_members(reports: Seq<(String, String, ShadowReport)>)
    ensures
        forall|i: int|
            0 <= i < run_shadow_gaps(reports).len() ==> has_shadow_run_source(
                #[trigger] run_shadow_gaps(reports)[i],
                reports,
            ),
        forall|n: int, g: ShadowGapView|
            0 <= n < reports.len() && #[trigger] surface_gaps(
                reports[n].0@,
                reports[n].1@,
                views(reports[n].2.rows@),
            ).contains(g) ==> run_shadow_gaps(reports).contains(g),
        forall|n: int, g: ShadowGapView|
            0 <= n < reports.len() && #[trigger] completion_gaps(
                reports[n].0@,
                reports[n].1@,
                views(reports[n].2.rows@),
            ).contains(g) ==> run_shadow_gaps(reports).contains(g),
    decreases reports.len(),
{
    if reports.len() > 0 {
        let f = reports.drop_last();
        let p = reports.last();
        let a = run_shadow_gaps(f);
        let c = surface_gaps(p.0@, p.1@, views(p.2.rows@));
        let d = completion_gaps(p.0@, p.1@, views(p.2.rows@));
        let b = run_shadow_gaps(reports);
        lemma_shadow_run_members(f);
        lemma_shadow_gap_members(p.0@, p.1@, views(p.2.rows@));
        assert(reports[reports.len() - 1] == p);
        assert forall|i: int| 0 <= i < b.len() implies has_shadow_run_source(#[trigger] b[i], reports) by {
            if i < a.len() {
                assert(has_shadow_run_source(a[i], f));
                let n = choose|n: int|
                    0 <= n < f.len() && has_shadow_source(
                        a[i],
                        (#[trigger] f[n]).0@,
                        f[n].1@,
                        views(f[n].2.rows@),
                    );
                assert(reports[n] == f[n]);
            } else if i < a.len() + c.len() {
                assert(b[i] == c[i - a.len()]);
                assert(has_shadow_source(c[i - a.len()], p.0@, p.1@, views(p.2.rows@)));
            } else {
                assert(b[i] == d[i - a.len() - c.len()]);
                assert(has_shadow_source(d[i - a.len() - c.len()], p.0@, p.1@, views(p.2.rows@)));
            }
        }
        assert forall|n: int, g: ShadowGapView|
            0 <= n < reports.len() && #[trigger] surface_gaps(
                reports[n].0@,
                reports[n].1@,
                views(reports[n].2.rows@),
            ).contains(g) implies b.contains(g) by {
            lemma_contains_sum(a, c, g);
            lemma_contains_sum(a + c, d, g);
            if n < f.len() {
                assert(f[n] == reports[n]);
                assert(surface_gaps(f[n].0@, f[n].1@, views(f[n].2.rows@)).contains(g));
            }
        }
        assert forall|n: int, g: ShadowGapView|
            0 <= n < reports.len() && #[trigger] completion_gaps(
                reports[n].0@,
                reports[n].1@,
                views(reports[n].2.rows@),
            ).contains(g) implies b.contains(g) by {
            lemma_contains_sum(a, c, g);
            lemma_contains_sum(a + c, d, g);
            if n < f.len() {
                assert(f[n] == reports[n]);
                assert(completion_gaps(f[n].0@, f[n].1@, views(f[n].2.rows@)).contains(g));
            }
        }
    }
}

proof fn lemma_run_keeps(reports: Seq<(String, String, ShadowReport)>, g: ShadowGapView)
    requires
        run_shadow_gaps(reports).contains(g),
    ensures
        exists|i: int|
            0 <= i < sorted::<ShadowGapEntry>(
                firsts::<ShadowGapEntry>(run_shadow_gaps(reports)),
            ).len() && same_gap(
                #[trigger] sorted::<ShadowGapEntry>(
                    firsts::<ShadowGapEntry>(run_shadow_gaps(reports)),
                )[i],
                g,
            ),
{
    let all = run_shadow_gaps(reports);
    let kept = firsts::<ShadowGapEntry>(all);
    let list = sorted::<ShadowGapEntry>(kept);
    let id = ShadowGapEntry::identity(g);
    let j = choose|j: int| 0 <= j < all.len() && all[j] == g;
    assert(ShadowGapEntry::identity(all[j]) == id);
    assert(holds_identity::<ShadowGapEntry>(all, id));
    law_firsts::<ShadowGapEntry>(all, id);
    let k = choose|k: int|
        0 <= k < kept.len() && ShadowGapEntry::identity(#[trigger] kept[k]) == id;
    assert(kept.contains(kept[k]));
    law_sorted_members::<ShadowGapEntry>(kept, kept[k]);
    let i = choose|i: int| 0 <= i < list.len() && list[i] == kept[k];
    assert(same_gap(list[i], g));
}

spec fn same_gap(a: ShadowGapView, b: ShadowGapView) -> bool {
    a.target_crate == b.target_crate && a.shadow_crate == b.shadow_crate && a.item_path
        == b.item_path && a.item_kind == b.item_kind && a.gap_kind == b.gap_kind
}

/// Every shadow gap that a run lists is one of a row of its reports. Every row that is not covered
/// is listed, and so is every matched type whose shadow is not complete.
pub proof fn law_run_shadow_gaps(reports: Seq<(String, String, ShadowReport)>, i: int, n: int, m: int)
    ensures
        ({
            let list = sorted::<ShadowGapEntry>(firsts::<ShadowGapEntry>(run_shadow_gaps(reports)));
            &&& 0 <= i < list.len() ==> exists|a: int, b: int|
                0 <= a < reports.len() && 0 <= b < reports[a].2.rows@.len() && is_shadow_gap_of(
                    list[i],
                    reports[a].0@,
                    reports[a].1@,
                    (#[trigger] reports[a].2.rows@[b])@,
                )
            &&& 0 <= n < reports.len() && 0 <= m < reports[n].2.rows@.len() ==> {
                let v = reports[n].2.rows@[m]@;
                &&& !(v.status is Covered) ==> lists_shadow_gap(
                    list,
                    reports[n].0@,
                    reports[n].1@,
                    v,
                    false,
                )
                &&& is_unverified(v) ==> lists_shadow_gap(list, reports[n].0@, reports[n].1@, v, true)
            }
        }),
{
    let all = run_shadow_gaps(reports);
    let kept = firsts::<ShadowGapEntry>(all);
    let list = sorted::<ShadowGapEntry>(kept);
    lemma_shadow_run_members(reports);
    if 0 <= i < list.len() {
        let g = list[i];
        law_sorted_members::<ShadowGapEntry>(kept, g);
        assert(list.contains(g));
        law_firsts::<ShadowGapEntry>(all, ShadowGapEntry::identity(g));
        let k = choose|k: int| 0 <= k < kept.len() && kept[k] == g;
        assert(all.contains(kept[k]));
        let j = choose|j: int| 0 <= j < all.len() && all[j] == g;
        assert(has_shadow_run_source(all[j], reports));
        let a = choose|a: int|
            0 <= a < reports.len() && has_shadow_source(
                g,
                (#[trigger] reports[a]).0@,
                reports[a].1@,
                views(reports[a].2.rows@),
            );
        let rows = views(reports[a].2.rows@);
        let b = choose|b: int|
            0 <= b < rows.len() && is_shadow_gap_of(
                g,
                reports[a].0@,
                reports[a].1@,
                #[trigger] rows[b],
            );
        assert(rows[b] == reports[a].2.rows@[b]@);
    }
    if 0 <= n < reports.len() && 0 <= m < reports[n].2.rows@.len() {
        let target = reports[n].0@;
        let shadow = reports[n].1@;
        let rows = views(reports[n].2.rows@);
        let v = reports[n].2.rows@[m]@;
        assert(rows[m] == v);
        lemma_shadow_gap_members(target, shadow, rows);
        if !(v.status is Covered) {
            let s = surface_gaps(target, shadow, rows);
            let x = choose|x: int|
                0 <= x < s.len() && is_shadow_gap_of(#[trigger] s[x], target, shadow, v) && (
                s[x].gap_kind is ShadowVerificationGap) == false;
            assert(surface_gaps(reports[n].0@, reports[n].1@, views(reports[n].2.rows@)).contains(s[x]));
            lemma_run_keeps(reports, s[x]);
        }
        if is_unverified(v) {
            let s = completion_gaps(target, shadow, rows);
            let x = choose|x: int|
                0 <= x < s.len() && is_shadow_gap_of(#[trigger] s[x], target, shadow, v) && (
                s[x].gap_kind is ShadowVerificationGap) == true;
            assert(completion_gaps(reports[n].0@, reports[n].1@, views(reports[n].2.rows@)).contains(s[x]));
            lemma_run_keeps(reports, s[x]);
        }
    }
}

/// Complete and incomplete wrappers are counted apart, and together they are all.
pub proof fn law_wrapper_counts(s: Seq<TrenchcoatView>)
    ensures
        count_if(s, is_complete_wrapper(true)) == s.filter(
            |t: TrenchcoatView| t.wrapper_elicit_complete,
        ).len(),
        count_if(s, is_complete_wrapper(true)) + count_if(s, is_complete_wrapper(false)) == s.len(),
{
    law_count_is_of_members(s, is_complete_wrapper(true));
    lemma_filter_same(s, is_complete_wrapper(true), |t: TrenchcoatView| t.wrapper_elicit_complete);
    lemma_both(s);
}

proof fn lemma_both(s: Seq<TrenchcoatView>)
    ensures
        count_if(s, is_complete_wrapper(true)) + count_if(s, is_complete_wrapper(false)) == s.len(),
    decreases s.len(),
{
    if s.len() > 0 {
        lemma_both(s.drop_last());
    }
}

/// The upstream crates with a shadow crate, in the order in which they are reported on.
pub open spec fn upstream_names() -> Seq<Seq<char>> {
    seq![
        "bevy"@,
        "wgpu"@,
        "egui"@,
        "winit"@,
        "ratatui"@,
        "tokio"@,
        "tower"@,
        "axum"@,
        "reqwest"@,
        "polars"@,
        "clap"@,
        "leptos"@,
        "serde"@,
        "serde_json"@,
        "toml"@,
        "csv"@,
        "chrono"@,
        "time"@,
        "jiff"@,
        "uuid"@,
        "url"@,
        "regex"@,
        "sqlx"@,
        "redb"@,
        "surrealdb-types"@,
        "geo-types"@,
        "geo"@,
        "geojson"@,
        "georaster"@,
        "rstar"@,
        "proj"@,
        "wkt"@,
        "wkb"@,
        "uom"@,
        "accesskit"@,
    ]
}

/// A shadow crate is named after its upstream crate: `elicit_` and its name with underscores. Only
/// the shadow of `surrealdb-types` drops the end of the name.
pub proof fn law_shadow_table(i: int)
    requires
        0 <= i < upstream_names().len(),
    ensures
        shadow_table().len() == upstream_names().len(),
        shadow_table()[i].0 == upstream_names()[i],
        shadow_table()[i].1 == if shadow_table()[i].0 == "surrealdb-types"@ {
            "elicit_surrealdb"@
        } else {
            "elicit_"@ + underscored(shadow_table()[i].0)
        },
{
    reveal_strlit("elicit_");
    let target = shadow_table()[i].0;
    law_underscored(target);
    reveal_strlit("surrealdb-types");
    assert("surrealdb-types"@.len() == 15);
    if i == 0 {
        reveal_strlit("bevy");
        reveal_strlit("elicit_bevy");
        assert(target == "bevy"@);
        assert(target.len() == 4);
        assert("elicit_bevy"@ =~= "elicit_"@ + underscored(target));
    }
    if i == 1 {
        reveal_strlit("wgpu");
        reveal_strlit("elicit_wgpu");
        assert(target == "wgpu"@);
        assert(target.len() == 4);
        assert("elicit_wgpu"@ =~= "elicit_"@ + underscored(target));
    }
    if i == 2 {
        reveal_strlit("egui");
        reveal_strlit("elicit_egui");
        assert(target == "egui"@);
        assert(target.len() == 4);
        assert("elicit_egui"@ =~= "elicit_"@ + underscored(target));
    }
    if i == 3 {
        reveal_strlit("winit");
        reveal_strlit("elicit_winit");
        assert(target == "winit"@);
        assert(target.len() == 5);
        assert("elicit_winit"@ =~= "elicit_"@ + underscored(target));
    }
    if i == 4 {
        reveal_strlit("ratatui");
        reveal_strlit("elicit_ratatui");
        assert(target == "ratatui"@);
        assert(target.len() == 7);
        assert("elicit_ratatui"@ =~= "elicit_"@ + underscored(target));
    }
    if i == 5 {
        reveal_strlit("tokio");
        reveal_strlit("elicit_tokio");
        assert(target == "tokio"@);
        assert(target.len() == 5);
        assert("elicit_tokio"@ =~= "elicit_"@ + underscored(target));
    }
    if i == 6 {
        reveal_strlit("tower");
        reveal_strlit("elicit_tower");
        assert(target == "tower"@);
        assert(target.len() == 5);
        assert("elicit_tower"@ =~= "elicit_"@ + underscored(target));
    }
    if i == 7 {
        reveal_strlit("axum");
        reveal_strlit("elicit_axum");
        assert(target == "axum"@);
        assert(target.len() == 4);
        assert("elicit_axum"@ =~= "elicit_"@ + underscored(target));
    }
    if i == 8 {
        reveal_strlit("reqwest");
        reveal_strlit("elicit_reqwest");
        assert(target == "reqwest"@);
        assert(target.len() == 7);
        assert("elicit_reqwest"@ =~= "elicit_"@ + underscored(target));
    }
    if i == 9 {
        reveal_strlit("polars");
        reveal_strlit("elicit_polars");
        assert(target == "polars"@);
        assert(target.len() == 6);
        assert("elicit_polars"@ =~= "elicit_"@ + underscored(target));
    }
    if i == 10 {
        reveal_strlit("clap");
        reveal_strlit("elicit_clap");
        assert(target == "clap"@);
        assert(target.len() == 4);
        assert("elicit_clap"@ =~= "elicit_"@ + underscored(target));
    }
    if i == 11 {
        reveal_strlit("leptos");
        reveal_strlit("elicit_leptos");
        assert(target == "leptos"@);
        assert(target.len() == 6);
        assert("elicit_leptos"@ =~= "elicit_"@ + underscored(target));
    }
    if i == 12 {
        reveal_strlit("serde");
        reveal_strlit("elicit_serde");
        assert(target == "serde"@);
        assert(target.len() == 5);
        assert("elicit_serde"@ =~= "elicit_"@ + underscored(target));
    }
    if i == 13 {
        reveal_strlit("serde_json");
        reveal_strlit("elicit_serde_json");
        assert(target == "serde_json"@);
        assert(target.len() == 10);
        assert("elicit_serde_json"@ =~= "elicit_"@ + underscored(target));
    }
    if i == 14 {
        reveal_strlit("toml");
        reveal_strlit("elicit_toml");
        assert(target == "toml"@);
        assert(target.len() == 4);
        assert("elicit_toml"@ =~= "elicit_"@ + underscored(target));
    }
    if i == 15 {
        reveal_strlit("csv");
        reveal_strlit("elicit_csv");
        assert(target == "csv"@);
        assert(target.len() == 3);
        assert("elicit_csv"@ =~= "elicit_"@ + underscored(target));
    }
    if i == 16 {
        reveal_strlit("chrono");
        reveal_strlit("elicit_chrono");
        assert(target == "chrono"@);
        assert(target.len() == 6);
        assert("elicit_chrono"@ =~= "elicit_"@ + underscored(target));
    }
    if i == 17 {
        reveal_strlit("time");
        reveal_strlit("elicit_time");
        assert(target == "time"@);
        assert(target.len() == 4);
        assert("elicit_time"@ =~= "elicit_"@ + underscored(target));
    }
    if i == 18 {
        reveal_strlit("jiff");
        reveal_strlit("elicit_jiff");
        assert(target == "jiff"@);
        assert(target.len() == 4);
        assert("elicit_jiff"@ =~= "elicit_"@ + underscored(target));
    }
    if i == 19 {
        reveal_strlit("uuid");
        reveal_strlit("elicit_uuid");
        assert(target == "uuid"@);
        assert(target.len() == 4);
        assert("elicit_uuid"@ =~= "elicit_"@ + underscored(target));
    }
    if i == 20 {
        reveal_strlit("url");
        reveal_strlit("elicit_url");
        assert(target == "url"@);
        assert(target.len() == 3);
        assert("elicit_url"@ =~= "elicit_"@ + underscored(target));
    }
    if i == 21 {
        reveal_strlit("regex");
        reveal_strlit("elicit_regex");
        assert(target == "regex"@);
        assert(target.len() == 5);
        assert("elicit_regex"@ =~= "elicit_"@ + underscored(target));
    }
    if i == 22 {
        reveal_strlit("sqlx");
        reveal_strlit("elicit_sqlx");
        assert(target == "sqlx"@);
        assert(target.len() == 4);
        assert("elicit_sqlx"@ =~= "elicit_"@ + underscored(target));
    }
    if i == 23 {
        reveal_strlit("redb");
        reveal_strlit("elicit_redb");
        assert(target == "redb"@);
        assert(target.len() == 4);
        assert("elicit_redb"@ =~= "elicit_"@ + underscored(target));
    }
    if i == 25 {
        reveal_strlit("geo-types");
        reveal_strlit("elicit_geo_types");
        assert(target == "geo-types"@);
        assert(target.len() == 9);
        assert("elicit_geo_types"@ =~= "elicit_"@ + underscored(target));
    }
    if i == 26 {
        reveal_strlit("geo");
        reveal_strlit("elicit_geo");
        assert(target == "geo"@);
        assert(target.len() == 3);
        assert("elicit_geo"@ =~= "elicit_"@ + underscored(target));
    }
    if i == 27 {
        reveal_strlit("geojson");
        reveal_strlit("elicit_geojson");
        assert(target == "geojson"@);
        assert(target.len() == 7);
        assert("elicit_geojson"@ =~= "elicit_"@ + underscored(target));
    }
    if i == 28 {
        reveal_strlit("georaster");
        reveal_strlit("elicit_georaster");
        assert(target == "georaster"@);
        assert(target.len() == 9);
        assert("elicit_georaster"@ =~= "elicit_"@ + underscored(target));
    }
    if i == 29 {
        reveal_strlit("rstar");
        reveal_strlit("elicit_rstar");
        assert(target == "rstar"@);
        assert(target.len() == 5);
        assert("elicit_rstar"@ =~= "elicit_"@ + underscored(target));
    }
    if i == 30 {
        reveal_strlit("proj");
        reveal_strlit("elicit_proj");
        assert(target == "proj"@);
        assert(target.len() == 4);
        assert("elicit_proj"@ =~= "elicit_"@ + underscored(target));
    }
    if i == 31 {
        reveal_strlit("wkt");
        reveal_strlit("elicit_wkt");
        assert(target == "wkt"@);
        assert(target.len() == 3);
        assert("elicit_wkt"@ =~= "elicit_"@ + underscored(target));
    }
    if i == 32 {
        reveal_strlit("wkb");
        reveal_strlit("elicit_wkb");
        assert(target == "wkb"@);
        assert(target.len() == 3);
        assert("elicit_wkb"@ =~= "elicit_"@ + underscored(target));
    }
    if i == 33 {
        reveal_strlit("uom");
        reveal_strlit("elicit_uom");
        assert(target == "uom"@);
        assert(target.len() == 3);
        assert("elicit_uom"@ =~= "elicit_"@ + underscored(target));
    }
    if i == 34 {
        reveal_strlit("accesskit");
        reveal_strlit("elicit_accesskit");
        assert(target == "accesskit"@);
        assert(target.len() == 9);
        assert("elicit_accesskit"@ =~= "elicit_"@ + underscored(target));
    }
}

/// The crates whose types are reported on, in their order.
pub open spec fn reported_names() -> Seq<Seq<char>> {
    seq![
        "chrono"@,
        "time"@,
        "jiff"@,
        "uuid"@,
        "url"@,
        "regex"@,
        "serde_json"@,
        "toml"@,
        "geo-types"@,
        "geo"@,
        "geojson"@,
        "georaster"@,
        "rstar"@,
        "proj"@,
        "wkt"@,
        "wkb"@,
        "redb"@,
        "csv"@,
        "accesskit"@,
        "reqwest"@,
    ]
}

/// The features with which a crate is built where the workspace does not tell.
pub open spec fn fallbacks() -> Seq<Seq<Seq<char>>> {
    seq![
        seq!["serde"@],
        seq!["serde"@, "serde-human-readable"@, "serde-well-known"@],
        seq!["serde"@],
        seq!["serde"@],
        seq!["serde"@],
        seq![],
        seq![],
        seq!["serde"@],
        seq!["serde"@],
        seq!["use-serde"@],
        seq![],
        seq![],
        seq!["serde"@],
        seq!["geo-types"@],
        seq!["geo-types"@, "serde"@],
        seq![],
        seq![],
        seq![],
        seq!["serde"@, "schemars"@],
        seq!["json"@, "cookies"@, "stream"@],
    ]
}

/// The crate at a place of the list is supported by a feature that has `-types` behind its name:
/// `toml`, and from `geojson` to `csv`.
pub open spec fn has_types_feature(i: int) -> bool {
    i == 7 || 10 <= i <= 17
}

/// A crate is reported on under the feature of our own that has its name, or its name with
/// `-types` behind it. Where the workspace does not tell, it is built with its fallbacks.
pub proof fn law_third_party_table(i: int)
    requires
        0 <= i < reported_names().len(),
    ensures
        third_party_table().len() == reported_names().len(),
        third_party_table()[i].name == reported_names()[i],
        third_party_table()[i].feature == if has_types_feature(i) {
            reported_names()[i] + "-types"@
        } else {
            reported_names()[i]
        },
        third_party_table()[i].fallback_features == fallbacks()[i],
{
    reveal_strlit("-types");
    let v = third_party_table()[i];
    if i == 7 {
        reveal_strlit("toml");
        reveal_strlit("toml-types");
        assert(v.feature =~= v.name + "-types"@);
    }
    if i == 10 {
        reveal_strlit("geojson");
        reveal_strlit("geojson-types");
        assert(v.feature =~= v.name + "-types"@);
    }
    if i == 11 {
        reveal_strlit("georaster");
        reveal_strlit("georaster-types");
        assert(v.feature =~= v.name + "-types"@);
    }
    if i == 12 {
        reveal_strlit("rstar");
        reveal_strlit("rstar-types");
        assert(v.feature =~= v.name + "-types"@);
    }
    if i == 13 {
        reveal_strlit("proj");
        reveal_strlit("proj-types");
        assert(v.feature =~= v.name + "-types"@);
    }
    if i == 14 {
        reveal_strlit("wkt");
        reveal_strlit("wkt-types");
        assert(v.feature =~= v.name + "-types"@);
    }
    if i == 15 {
        reveal_strlit("wkb");
        reveal_strlit("wkb-types");
        assert(v.feature =~= v.name + "-types"@);
    }
    if i == 16 {
        reveal_strlit("redb");
        reveal_strlit("redb-types");
        assert(v.feature =~= v.name + "-types"@);
    }
    if i == 17 {
        reveal_strlit("csv");
        reveal_strlit("csv-types");
        assert(v.feature =~= v.name + "-types"@);
    }
}

}
