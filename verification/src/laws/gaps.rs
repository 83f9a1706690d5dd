//! What the lists of gaps say of the reports that they are made from.

use vstd::prelude::*;

use crate::collect::{TraitPrereqs, TypeFeatureProbe, TypeFeatureProbeView};
use crate::distinct::{firsts, holds_identity, law_firsts, Identified};
use crate::gaps::{all_gaps, all_shadow_gaps, assessment, completion_gaps, coverage_kind, has_our_traits};
use crate::gaps::{impl_gap, is_infrastructure, probe_for, report_gaps, shadow_assessment, shadow_gap};
use crate::gaps::{surface_gaps, wrapper_traits, wrappers_for, ImplAssessmentView, ImplGapEntry};
use crate::gaps::{ImplGapKind, ImplGapView, ImplRowKind, ShadowCoverageKind, ShadowGapEntry};
use crate::gaps::{verification_action, ShadowGapKind, ShadowGapView};
use crate::impl_coverage::{ImplCoverageReport, ImplEntryView};
use crate::inventory::ItemKind;
use crate::laws::basics::{is_first_entry, is_key, law_first_entry_counts, law_keyed};
use crate::laws::basics::{law_missing_traits, lemma_contains_sum, unless};
use crate::order::{law_sorted_members, sorted};
use crate::shadow::{ShadowReport, ShadowRowView};
use crate::table::keyed;
use crate::text::{joined, last_segment, replaced, views};
use crate::trenchcoat::{wrapper_views, WrapperCoverage, WrapperView};

verus! {

/// Some wrapper has the trait that is asked for.
pub open spec fn on_wrapper(ws: Seq<WrapperView>, asks: spec_fn(TraitPrereqs) -> bool) -> bool {
    exists|i: int| 0 <= i < ws.len() && asks((#[trigger] ws[i]).wrapper_prereqs)
}

/// Some wrapper is complete.
pub open spec fn is_wrapped(ws: Seq<WrapperView>) -> bool {
    exists|i: int| 0 <= i < ws.len() && (#[trigger] ws[i]).wrapper_elicit_complete
}

/// Those of our traits that neither the type nor a wrapper has. With lifetime parameters the
/// type cannot have the first two.
pub open spec fn uncovered(e: ImplEntryView, ws: Seq<WrapperView>) -> Seq<Seq<char>> {
    unless(
        e.lifetime_params.len() > 0 || e.prereqs.elicitation_trait || on_wrapper(
            ws,
            |p: TraitPrereqs| p.elicitation_trait,
        ),
        "Elicitation"@,
    ) + unless(
        e.lifetime_params.len() > 0 || e.prereqs.elicit_introspect || on_wrapper(
            ws,
            |p: TraitPrereqs| p.elicit_introspect,
        ),
        "ElicitIntrospect"@,
    ) + unless(
        e.prereqs.elicit_spec || on_wrapper(ws, |p: TraitPrereqs| p.elicit_spec),
        "ElicitSpec"@,
    ) + unless(
        e.prereqs.elicit_prompt_tree || on_wrapper(ws, |p: TraitPrereqs| p.elicit_prompt_tree),
        "ElicitPromptTree"@,
    ) + unless(
        e.prereqs.to_code_literal || on_wrapper(ws, |p: TraitPrereqs| p.to_code_literal),
        "ToCodeLiteral"@,
    )
}

/// Those of our traits that the type itself could have and lacks.
pub open spec fn own_missing(e: ImplEntryView) -> Seq<Seq<char>> {
    unless(e.lifetime_params.len() > 0 || e.prereqs.elicitation_trait, "Elicitation"@) + unless(
        e.lifetime_params.len() > 0 || e.prereqs.elicit_introspect,
        "ElicitIntrospect"@,
    ) + unless(e.prereqs.elicit_spec, "ElicitSpec"@) + unless(
        e.prereqs.elicit_prompt_tree,
        "ElicitPromptTree"@,
    ) + unless(e.prereqs.to_code_literal, "ToCodeLiteral"@)
}

/// The external traits that the type lacks.
pub open spec fn external_missing(e: ImplEntryView) -> Seq<Seq<char>> {
    unless(e.prereqs.serialize, "Serialize(absent)"@) + unless(
        e.prereqs.deserialize,
        "Deserialize(absent)"@,
    ) + unless(e.prereqs.json_schema, "JsonSchema(absent)"@)
}

/// The type has an impl of its own.
pub open spec fn is_complete(e: ImplEntryView) -> bool {
    e.elicit_impl is Complete || e.elicit_impl is CompleteFactory
}

/// The type has the three external traits.
pub open spec fn has_external(e: ImplEntryView) -> bool {
    e.prereqs.serialize && e.prereqs.deserialize && e.prereqs.json_schema
}

/// The probe has candidate features, and with them all three external traits were seen.
pub open spec fn is_unlocked(probe: Option<TypeFeatureProbeView>) -> bool {
    match probe {
        Some(p) => p.candidate_unlock_features.len() > 0 && match p.probed_prereqs {
            Some(t) => t.serialize && t.deserialize && t.json_schema,
            None => false,
        },
        None => false,
    }
}

/// The features that the probe has as candidates.
pub open spec fn candidates(probe: Option<TypeFeatureProbeView>) -> Seq<Seq<char>> {
    match probe {
        Some(p) => p.candidate_unlock_features,
        None => seq![],
    }
}

/// The crate whose features are in question.
pub open spec fn feature_owner(source: Seq<char>, probe: Option<TypeFeatureProbeView>) -> Seq<char> {
    match probe {
        Some(p) => p.feature_crate,
        None => source,
    }
}

proof fn lemma_wrapper_traits(ws: Seq<WrapperView>)
    ensures
        wrapper_traits(ws).elicitation_trait == on_wrapper(
            ws,
            |p: TraitPrereqs| p.elicitation_trait,
        ),
        wrapper_traits(ws).elicit_introspect == on_wrapper(
            ws,
            |p: TraitPrereqs| p.elicit_introspect,
        ),
        wrapper_traits(ws).elicit_spec == on_wrapper(ws, |p: TraitPrereqs| p.elicit_spec),
        wrapper_traits(ws).elicit_prompt_tree == on_wrapper(
            ws,
            |p: TraitPrereqs| p.elicit_prompt_tree,
        ),
        wrapper_traits(ws).to_code_literal == on_wrapper(ws, |p: TraitPrereqs| p.to_code_literal),
    decreases ws.len(),
{
    if ws.len() > 0 {
        lemma_wrapper_traits(ws.drop_last());
        lemma_on_wrapper(ws, |p: TraitPrereqs| p.elicitation_trait);
        lemma_on_wrapper(ws, |p: TraitPrereqs| p.elicit_introspect);
        lemma_on_wrapper(ws, |p: TraitPrereqs| p.elicit_spec);
        lemma_on_wrapper(ws, |p: TraitPrereqs| p.elicit_prompt_tree);
        lemma_on_wrapper(ws, |p: TraitPrereqs| p.to_code_literal);
    }
}

proof fn lemma_on_wrapper(ws: Seq<WrapperView>, asks: spec_fn(TraitPrereqs) -> bool)
    requires
        ws.len() > 0,
    ensures
        on_wrapper(ws, asks) == (on_wrapper(ws.drop_last(), asks) || asks(
            ws.last().wrapper_prereqs,
        )),
{
    let f = ws.drop_last();
    if on_wrapper(f, asks) {
        let i = choose|i: int| 0 <= i < f.len() && asks((#[trigger] f[i]).wrapper_prereqs);
        assert(ws[i] == f[i]);
    }
    if on_wrapper(ws, asks) {
        let i = choose|i: int| 0 <= i < ws.len() && asks((#[trigger] ws[i]).wrapper_prereqs);
        if i < f.len() {
            assert(f[i] == ws[i]);
        }
    }
    assert(ws[ws.len() - 1] == ws.last());
}

proof fn lemma_uncovered(e: ImplEntryView, ws: Seq<WrapperView>)
    ensures
        e.prereqs.merged(wrapper_traits(ws)).our_missing(e.lifetime_blocked()) == uncovered(e, ws),
        e.missing() == own_missing(e),
        e.prereqs.external_absent() == external_missing(e),
        e.direct() == (e.lifetime_params.len() == 0 && has_external(e)),
        e.lifetime_blocked() == (e.lifetime_params.len() > 0),
{
    lemma_wrapper_traits(ws);
    law_missing_traits(e.prereqs);
    law_missing_traits(e.prereqs.merged(wrapper_traits(ws)));
    assert(e.prereqs.merged(wrapper_traits(ws)).our_missing(e.lifetime_blocked()) =~= uncovered(
        e,
        ws,
    ));
    assert(e.missing() =~= own_missing(e));
}

/// The state of a type. It is covered by an impl of its own or a complete wrapper. Else, if one
/// of our traits is on neither the type nor a wrapper, that is the gap. Else, without lifetimes,
/// it is ready with the three external traits, feature gated if a probe with candidate features
/// saw all three of them, and blocked otherwise.
pub proof fn law_state_of_a_type(
    source: Seq<char>,
    e: ImplEntryView,
    probe: Option<TypeFeatureProbeView>,
    ws: Seq<WrapperView>,
)
    ensures
        ({
            let a = assessment(source, e, probe, ws);
            let covered = is_complete(e) || is_wrapped(ws);
            let ours = uncovered(e, ws).len() == 0;
            let lifetimes = e.lifetime_params.len() > 0;
            &&& a.row_kind is Covered <==> covered
            &&& a.row_kind is MissingOurTraits <==> !covered && !ours
            &&& a.row_kind is ReadyForElicitComplete <==> !covered && ours && !lifetimes
                && has_external(e)
            &&& a.row_kind is FeatureGatedExternal <==> !covered && ours && !lifetimes
                && !has_external(e) && is_unlocked(probe)
            &&& a.row_kind is ExternallyBlocked <==> !covered && ours && (lifetimes || (
            !has_external(e) && !is_unlocked(probe)))
            &&& a.primary_gap_kind == match a.row_kind {
                ImplRowKind::MissingOurTraits => Some(ImplGapKind::MissingOurTraits),
                ImplRowKind::ReadyForElicitComplete => Some(ImplGapKind::ReadyForElicitComplete),
                ImplRowKind::FeatureGatedExternal => Some(ImplGapKind::FeatureGatedExternal),
                _ => None,
            }
        }),
{
    lemma_uncovered(e, ws);
}

/// What is said of a type. It is feature gated only if it has no impl, no lifetimes, lacks an
/// external trait, and a probe with candidate features saw all of `Serialize`, `Deserialize` and
/// `JsonSchema`. Otherwise the orphan rule blocks it. Everything else follows from its traits,
/// its lifetimes and its wrappers.
pub proof fn law_flags_of_a_type(
    source: Seq<char>,
    e: ImplEntryView,
    probe: Option<TypeFeatureProbeView>,
    ws: Seq<WrapperView>,
)
    ensures
        ({
            let a = assessment(source, e, probe, ws);
            let blocked = !is_complete(e) && e.lifetime_params.len() == 0 && !has_external(e);
            let wrapped = is_wrapped(ws) || (uncovered(e, ws).len() == 0 && own_missing(e).len()
                > 0);
            &&& a.feature_gated_external <==> blocked && is_unlocked(probe)
            &&& a.blocked_by_orphan_rule <==> blocked && !is_unlocked(probe)
            &&& a.can_be_direct <==> e.lifetime_params.len() == 0 && has_external(e)
            &&& a.elicit_complete_gap <==> !is_complete(e) && !is_wrapped(ws) && e.lifetime_params.len()
                == 0 && has_external(e)
            &&& a.our_traits_complete <==> is_complete(e) || uncovered(e, ws).len() == 0
            &&& a.direct_our_traits_complete <==> is_complete(e) || own_missing(e).len() == 0
            &&& a.covered_indirectly <==> !is_complete(e) && (is_wrapped(ws) || on_wrapper(
                ws,
                |p: TraitPrereqs|
                    p.elicitation_trait && p.elicit_introspect && p.elicit_spec
                        && p.elicit_prompt_tree && p.to_code_literal,
            ))
            &&& a.coverage_provider == if is_complete(e) || (own_missing(e).len() == 0 && !wrapped) {
                "direct"@
            } else if own_missing(e).len() == 0 {
                "hybrid"@
            } else if wrapped {
                "wrapper"@
            } else {
                ""@
            }
            &&& a.missing_external_traits == if is_complete(e) {
                ""@
            } else {
                joined(external_missing(e), ";"@)
            }
            &&& a.missing_our_traits == if is_complete(e) {
                ""@
            } else {
                joined(uncovered(e, ws), ";"@)
            }
            &&& a.direct_missing_our_traits == if is_complete(e) {
                ""@
            } else {
                joined(own_missing(e), ";"@)
            }
            &&& a.wrapper_paths == joined(ws.map_values(|w: WrapperView| w.wrapper_path), ";"@)
            &&& a.feature_owner_crate == if is_complete(e) {
                ""@
            } else {
                feature_owner(source, probe)
            }
            &&& a.candidate_unlock_features == if a.feature_gated_external {
                joined(candidates(probe), ";"@)
            } else {
                ""@
            }
            &&& has_our_traits(e, ws) <==> is_wrapped(ws) || uncovered(e, ws).len() == 0
        }),
{
    lemma_uncovered(e, ws);
    let asks = |p: TraitPrereqs|
        p.elicitation_trait && p.elicit_introspect && p.elicit_spec && p.elicit_prompt_tree
            && p.to_code_literal;
    assert(crate::gaps::any_covers(ws) == (is_wrapped(ws) || on_wrapper(ws, asks))) by {
        if crate::gaps::any_covers(ws) {
            let i = choose|i: int|
                0 <= i < ws.len() && ((#[trigger] ws[i]).wrapper_elicit_complete
                    || ws[i].wrapper_prereqs.ours());
            assert(ws[i].wrapper_elicit_complete || asks(ws[i].wrapper_prereqs));
        }
        if on_wrapper(ws, asks) {
            let i = choose|i: int| 0 <= i < ws.len() && asks((#[trigger] ws[i]).wrapper_prereqs);
            assert(ws[i].wrapper_prereqs.ours());
        }
    }
}

/// What is to be done about a type, told by its state.
pub proof fn law_action_for_a_type(
    source: Seq<char>,
    e: ImplEntryView,
    probe: Option<TypeFeatureProbeView>,
    ws: Seq<WrapperView>,
)
    ensures
        ({
            let a = assessment(source, e, probe, ws);
            let names = ws.map_values(|w: WrapperView| w.wrapper_path);
            let note = if ws.len() == 0 {
                ""@
            } else {
                " Known wrappers for indirect coverage: "@ + joined(names, ", "@) + "."@
            };
            let owner = feature_owner(source, probe);
            let features = joined(candidates(probe), ", "@);
            let ours = joined(uncovered(e, ws), ", "@);
            let external = joined(external_missing(e), ", "@);
            let fewer = uncovered(e, ws).len() < own_missing(e).len();
            &&& a.row_kind is Covered ==> a.action == ""@
            &&& a.row_kind is MissingOurTraits && ws.len() > 0 && fewer ==> a.action
                == "Finish indirect coverage for `"@ + e.type_path
                + "` by completing wrapper-provided traits: "@ + ours + "."@ + note
            &&& a.row_kind is MissingOurTraits && !(ws.len() > 0 && fewer) && a.can_be_direct
                ==> a.action == "Add direct support traits to `"@ + e.type_path + "`: "@ + ours
                + "; then add `impl ElicitComplete`"@ + note
            &&& a.row_kind is MissingOurTraits && !(ws.len() > 0 && fewer)
                && a.feature_gated_external ==> a.action == "Add support traits to `"@ + e.type_path
                + "`: "@ + ours + "; also enable `"@ + owner + "` features: "@ + features + "."@
                + note
            &&& a.row_kind is MissingOurTraits && !(ws.len() > 0 && fewer) && !a.can_be_direct
                && !a.feature_gated_external ==> a.action == "Add our traits to `"@ + e.type_path
                + "`: "@ + ours + "; external blockers remain: "@ + external + "."@ + note
            &&& a.row_kind is ReadyForElicitComplete ==> a.action
                == "Add `impl ElicitComplete for "@ + e.type_path + " {}` in elicitation crate"@
            &&& a.row_kind is FeatureGatedExternal ==> a.action == "Enable additional `"@ + owner
                + "` features in the workspace: "@ + features
                + "; then re-check whether `ElicitComplete` becomes legal for `"@ + e.type_path
                + "`"@
            &&& a.row_kind is ExternallyBlocked ==> a.action == "`"@ + e.type_path
                + "` is everything-but complete. Do not flag missing `ElicitComplete`; direct impl is blocked by upstream traits: "@
                + external
            &&& is_complete(e) ==> a.blocked_reason == ""@
            &&& !is_complete(e) && fewer ==> a.blocked_reason
                == "wrapper coverage reduces direct trait gaps; remaining uncovered traits: "@
                + ours + " (wrappers: "@ + joined(names, ", "@) + ")"@
            &&& !is_complete(e) && !fewer && e.lifetime_params.len() > 0 ==> a.blocked_reason
                == "lifetime-bound type: direct `ElicitComplete` is illegal because `Elicitation` requires `'static`"@
            &&& !fewer && a.feature_gated_external ==> a.blocked_reason
                == "workspace is not enabling candidate `"@ + owner
                + "` features that may unlock external traits: "@ + features
            &&& !fewer && a.blocked_by_orphan_rule ==> a.blocked_reason
                == "orphan rule blocks direct `ElicitComplete` until upstream provides: "@
                + external
            &&& !fewer && a.can_be_direct ==> a.blocked_reason == ""@
        }),
{
    lemma_uncovered(e, ws);
    assert(crate::gaps::wrapper_names(ws) =~= ws.map_values(|w: WrapperView| w.wrapper_path));
}

/// A type is a gap exactly when it has no impl of its own or on a wrapper and something can be
/// done: one of our traits is missing, or a direct impl is legal, or features would make it so.
/// A gap is feature gated only where the probe saw all three external traits.
pub proof fn law_gap_of_a_type(
    source: Seq<char>,
    e: ImplEntryView,
    probe: Option<TypeFeatureProbeView>,
    ws: Seq<WrapperView>,
)
    ensures
        ({
            let g = impl_gap(source, e, probe, ws);
            let a = assessment(source, e, probe, ws);
            &&& g is Some <==> e.elicit_impl is Missing && !is_wrapped(ws) && (uncovered(
                e,
                ws,
            ).len() > 0 || (e.lifetime_params.len() == 0 && (has_external(e) || is_unlocked(probe))))
            &&& g matches Some(v) ==> {
                &&& v.gap_kind is MissingOurTraits <==> uncovered(e, ws).len() > 0
                &&& v.gap_kind is ReadyForElicitComplete <==> uncovered(e, ws).len() == 0
                    && has_external(e)
                &&& v.gap_kind is FeatureGatedExternal <==> uncovered(e, ws).len() == 0
                    && !has_external(e)
                &&& v.gap_kind is FeatureGatedExternal ==> is_unlocked(probe)
                &&& v.feature_gated_external <==> e.lifetime_params.len() == 0 && !has_external(e)
                    && is_unlocked(probe)
                &&& v.blocked_by_orphan_rule <==> e.lifetime_params.len() == 0 && !has_external(e)
                    && !is_unlocked(probe)
                &&& v.source_crate == source
                &&& v.type_path == e.type_path
                &&& v.type_kind == e.type_kind
                &&& v.is_generic == e.is_generic
                &&& v.can_be_direct <==> e.lifetime_params.len() == 0 && has_external(e)
                &&& v.elicit_complete_gap <==> v.can_be_direct
                &&& v.our_traits_complete <==> uncovered(e, ws).len() == 0
                &&& v.missing_external_traits == joined(external_missing(e), ";"@)
                &&& v.missing_our_traits == joined(uncovered(e, ws), ";"@)
                &&& v.wrapper_paths == joined(
                    ws.map_values(|w: WrapperView| w.wrapper_path),
                    ";"@,
                )
                &&& v.coverage_provider == a.coverage_provider
                &&& v.feature_owner_crate == feature_owner(source, probe)
                &&& v.candidate_unlock_features == if v.feature_gated_external {
                    joined(candidates(probe), ";"@)
                } else {
                    ""@
                }
                &&& v.action == a.action
            }
        }),
{
    law_state_of_a_type(source, e, probe, ws);
    law_flags_of_a_type(source, e, probe, ws);
}

/// The probe for the type of a crate is that of the first entry for the type in the first table
/// for the crate.
pub open spec fn is_probe_for(
    tables: Seq<(String, Vec<(String, TypeFeatureProbe)>)>,
    source: Seq<char>,
    path: Seq<char>,
    probe: Option<TypeFeatureProbeView>,
) -> bool {
    match probe {
        Some(p) => exists|i: int, j: int|
            #![trigger is_first_entry(keyed(tables), source, i), is_first_entry(keyed(tables[i].1@), path, j)]
            is_first_entry(keyed(tables), source, i) && is_first_entry(
                keyed(tables[i].1@),
                path,
                j,
            ) && tables[i].1@[j].1@ == p,
        None => forall|i: int|
            is_first_entry(keyed(tables), source, i) ==> !is_key(keyed((#[trigger] tables[i]).1@), path),
    }
}

/// The wrappers of a type are those of the first entry for it.
pub open spec fn are_wrappers_for(
    map: Seq<(String, Vec<WrapperCoverage>)>,
    path: Seq<char>,
    ws: Seq<WrapperView>,
) -> bool {
    if is_key(keyed(map), path) {
        exists|i: int| #[trigger] is_first_entry(keyed(map), path, i) && ws == views(map[i].1@)
    } else {
        ws.len() == 0
    }
}

proof fn lemma_probe(
    tables: Seq<(String, Vec<(String, TypeFeatureProbe)>)>,
    source: Seq<char>,
    path: Seq<char>,
)
    ensures
        is_probe_for(tables, source, path, probe_for(tables, source, path)),
{
    law_first_entry_counts(keyed(tables), source);
    law_keyed(tables);
    if is_key(keyed(tables), source) {
        let i = choose|i: int| #[trigger] is_first_entry(keyed(tables), source, i);
        assert(keyed(tables)[i].1 == tables[i].1);
        let table = tables[i].1@;
        law_first_entry_counts(keyed(table), path);
        law_keyed(table);
        if is_key(keyed(table), path) {
            let j = choose|j: int| #[trigger] is_first_entry(keyed(table), path, j);
            assert(keyed(table)[j].1 == table[j].1);
            assert(is_first_entry(keyed(tables), source, i) && is_first_entry(
                keyed(tables[i].1@),
                path,
                j,
            ));
        } else {
            assert forall|n: int| is_first_entry(keyed(tables), source, n) implies !is_key(
                keyed((#[trigger] tables[n]).1@),
                path,
            ) by {
                if n < i {
                    assert(keyed(tables)[n].0 != source);
                }
                if i < n {
                    assert(keyed(tables)[i].0 != source);
                }
            }
        }
    }
}

/// The wrappers found for a type are those of the first entry for it.
pub proof fn lemma_wrappers(map: Seq<(String, Vec<WrapperCoverage>)>, path: Seq<char>)
    ensures
        are_wrappers_for(map, path, wrappers_for(map, path)),
{
    let seen = wrapper_views(map);
    law_keyed(map);
    law_first_entry_counts(seen, path);
    if is_key(keyed(map), path) {
        let n = choose|n: int| 0 <= n < keyed(map).len() && (#[trigger] keyed(map)[n]).0 == path;
        assert(seen[n].0 == path);
        let i = choose|i: int| #[trigger] is_first_entry(seen, path, i);
        assert(is_first_entry(keyed(map), path, i)) by {
            assert(keyed(map)[i].0 == seen[i].0);
            assert forall|j: int| 0 <= j < i implies (#[trigger] keyed(map)[j]).0 != path by {
                assert(seen[j].0 == keyed(map)[j].0);
            }
        }
        assert(wrappers_for(map, path) == views(map[i].1@));
    } else {
        assert forall|n: int| 0 <= n < seen.len() implies (#[trigger] seen[n]).0 != path by {
            assert(keyed(map)[n].0 == seen[n].0);
        }
    }
}

/// The gap is that of the entry, with the probe and the wrappers that the tables have for it.
pub open spec fn is_gap_of(
    g: ImplGapView,
    source: Seq<char>,
    e: ImplEntryView,
    tables: Seq<(String, Vec<(String, TypeFeatureProbe)>)>,
    map: Seq<(String, Vec<WrapperCoverage>)>,
) -> bool {
    exists|probe: Option<TypeFeatureProbeView>, ws: Seq<WrapperView>|
        #![trigger impl_gap(source, e, probe, ws)]
        is_probe_for(tables, source, e.type_path, probe) && are_wrappers_for(map, e.type_path, ws)
            && impl_gap(source, e, probe, ws) == Some(g)
}

/// The gap is that of an entry of the report.
pub open spec fn has_gap_source(
    g: ImplGapView,
    source: Seq<char>,
    entries: Seq<ImplEntryView>,
    tables: Seq<(String, Vec<(String, TypeFeatureProbe)>)>,
    map: Seq<(String, Vec<WrapperCoverage>)>,
) -> bool {
    exists|m: int|
        0 <= m < entries.len() && is_gap_of(g, source, #[trigger] entries[m], tables, map)
}

/// The gaps of a report are those of its entries.
pub proof fn lemma_report_gap_members(
    source: Seq<char>,
    entries: Seq<ImplEntryView>,
    tables: Seq<(String, Vec<(String, TypeFeatureProbe)>)>,
    map: Seq<(String, Vec<WrapperCoverage>)>,
)
    ensures
        forall|i: int|
            0 <= i < report_gaps(source, entries, tables, map).len() ==> has_gap_source(
                #[trigger] report_gaps(source, entries, tables, map)[i],
                source,
                entries,
                tables,
                map,
            ),
        forall|m: int|
            #![trigger entries[m]]
            0 <= m < entries.len() ==> (impl_gap(
                source,
                entries[m],
                probe_for(tables, source, entries[m].type_path),
                wrappers_for(map, entries[m].type_path),
            ) matches Some(g) ==> report_gaps(source, entries, tables, map).contains(g)),
    decreases entries.len(),
{
    if entries.len() > 0 {
        let f = entries.drop_last();
        let a = report_gaps(source, f, tables, map);
        let b = report_gaps(source, entries, tables, map);
        let e = entries.last();
        lemma_report_gap_members(source, f, tables, map);
        lemma_probe(tables, source, e.type_path);
        lemma_wrappers(map, e.type_path);
        assert(entries[entries.len() - 1] == e);
        assert forall|i: int| 0 <= i < b.len() implies has_gap_source(
            #[trigger] b[i],
            source,
            entries,
            tables,
            map,
        ) by {
            if i < a.len() {
                assert(has_gap_source(a[i], source, f, tables, map));
                let m = choose|m: int|
                    0 <= m < f.len() && is_gap_of(a[i], source, #[trigger] f[m], tables, map);
                assert(entries[m] == f[m]);
            } else {
                assert(impl_gap(
                    source,
                    e,
                    probe_for(tables, source, e.type_path),
                    wrappers_for(map, e.type_path),
                ) == Some(b[i]));
                assert(is_gap_of(b[i], source, e, tables, map));
            }
        }
        assert forall|m: int|
            #![trigger entries[m]]
            0 <= m < entries.len() implies (impl_gap(
            source,
            entries[m],
            probe_for(tables, source, entries[m].type_path),
            wrappers_for(map, entries[m].type_path),
        ) matches Some(g) ==> b.contains(g)) by {
            match impl_gap(
                source,
                entries[m],
                probe_for(tables, source, entries[m].type_path),
                wrappers_for(map, entries[m].type_path),
            ) {
                Some(g) => {
                    if m < f.len() {
                        assert(f[m] == entries[m]);
                        assert(a.contains(g));
                        let i = choose|i: int| 0 <= i < a.len() && a[i] == g;
                        assert(b[i] == g);
                    } else {
                        assert(b[a.len() as int] == g);
                    }
                },
                None => {},
            }
        }
    }
}

spec fn has_pair_source(
    g: ImplGapView,
    pairs: Seq<(&str, &ImplCoverageReport)>,
    tables: Seq<(String, Vec<(String, TypeFeatureProbe)>)>,
    map: Seq<(String, Vec<WrapperCoverage>)>,
) -> bool {
    exists|n: int|
        0 <= n < pairs.len() && has_gap_source(
            g,
            (#[trigger] pairs[n]).0@,
            views(pairs[n].1.entries@),
            tables,
            map,
        )
}

proof fn lemma_all_gap_members(
    pairs: Seq<(&str, &ImplCoverageReport)>,
    tables: Seq<(String, Vec<(String, TypeFeatureProbe)>)>,
    map: Seq<(String, Vec<WrapperCoverage>)>,
)
    ensures
        forall|i: int|
            0 <= i < all_gaps(pairs, tables, map).len() ==> has_pair_source(
                #[trigger] all_gaps(pairs, tables, map)[i],
                pairs,
                tables,
                map,
            ),
        forall|n: int, g: ImplGapView|
            0 <= n < pairs.len() && (#[trigger] report_gaps(
                pairs[n].0@,
                views(pairs[n].1.entries@),
                tables,
                map,
            ).contains(g)) ==> all_gaps(pairs, tables, map).contains(g),
    decreases pairs.len(),
{
    if pairs.len() > 0 {
        let f = pairs.drop_last();
        let p = pairs.last();
        let a = all_gaps(f, tables, map);
        let c = report_gaps(p.0@, views(p.1.entries@), tables, map);
        let b = all_gaps(pairs, tables, map);
        lemma_all_gap_members(f, tables, map);
        lemma_report_gap_members(p.0@, views(p.1.entries@), tables, map);
        assert(pairs[pairs.len() - 1] == p);
        assert forall|i: int| 0 <= i < b.len() implies has_pair_source(#[trigger] b[i], pairs, tables, map) by {
            if i < a.len() {
                assert(has_pair_source(a[i], f, tables, map));
                let n = choose|n: int|
                    0 <= n < f.len() && has_gap_source(
                        a[i],
                        (#[trigger] f[n]).0@,
                        views(f[n].1.entries@),
                        tables,
                        map,
                    );
                assert(pairs[n] == f[n]);
            } else {
                assert(has_gap_source(c[i - a.len()], p.0@, views(p.1.entries@), tables, map));
            }
        }
        assert forall|n: int, g: ImplGapView|
            0 <= n < pairs.len() && (#[trigger] report_gaps(
                pairs[n].0@,
                views(pairs[n].1.entries@),
                tables,
                map,
            ).contains(g)) implies b.contains(g) by {
            lemma_contains_sum(a, c, g);
            if n < f.len() {
                assert(f[n] == pairs[n]);
                assert(report_gaps(f[n].0@, views(f[n].1.entries@), tables, map).contains(g));
            }
        }
    }
}

/// A gap of the list is about the type of the crate.
pub open spec fn lists_gap(list: Seq<ImplGapView>, source: Seq<char>, path: Seq<char>) -> bool {
    exists|i: int|
        0 <= i < list.len() && (#[trigger] list[i]).source_crate == source && list[i].type_path
            == path
}

/// Every gap of the list is the gap of an entry of one of the reports.
pub proof fn law_listed_gaps_are_of_entries(
    pairs: Seq<(&str, &ImplCoverageReport)>,
    tables: Seq<(String, Vec<(String, TypeFeatureProbe)>)>,
    map: Seq<(String, Vec<WrapperCoverage>)>,
    i: int,
)
    requires
        0 <= i < sorted::<ImplGapEntry>(
            firsts::<ImplGapEntry>(all_gaps(pairs, tables, map)),
        ).len(),
    ensures
        exists|n: int, m: int|
            0 <= n < pairs.len() && 0 <= m < pairs[n].1.entries@.len() && is_gap_of(
                sorted::<ImplGapEntry>(firsts::<ImplGapEntry>(all_gaps(pairs, tables, map)))[i],
                pairs[n].0@,
                (#[trigger] pairs[n].1.entries@[m])@,
                tables,
                map,
            ),
{
    let all = all_gaps(pairs, tables, map);
    let kept = firsts::<ImplGapEntry>(all);
    let list = sorted::<ImplGapEntry>(kept);
    let g = list[i];
    law_sorted_members::<ImplGapEntry>(kept, g);
    assert(list.contains(g));
    law_firsts::<ImplGapEntry>(all, (g.source_crate, g.type_path));
    let k = choose|k: int| 0 <= k < kept.len() && kept[k] == g;
    assert(all.contains(kept[k]));
    let j = choose|j: int| 0 <= j < all.len() && all[j] == g;
    lemma_all_gap_members(pairs, tables, map);
    assert(has_pair_source(all[j], pairs, tables, map));
    let n = choose|n: int|
        0 <= n < pairs.len() && has_gap_source(
            g,
            (#[trigger] pairs[n]).0@,
            views(pairs[n].1.entries@),
            tables,
            map,
        );
    let entries = views(pairs[n].1.entries@);
    let m = choose|m: int|
        0 <= m < entries.len() && is_gap_of(g, pairs[n].0@, #[trigger] entries[m], tables, map);
    assert(entries[m] == pairs[n].1.entries@[m]@);
}

/// Every entry of the reports that leaves a gap is listed.
pub proof fn law_gaps_are_listed(
    pairs: Seq<(&str, &ImplCoverageReport)>,
    tables: Seq<(String, Vec<(String, TypeFeatureProbe)>)>,
    map: Seq<(String, Vec<WrapperCoverage>)>,
    n: int,
    m: int,
    probe: Option<TypeFeatureProbeView>,
    ws: Seq<WrapperView>,
)
    requires
        0 <= n < pairs.len(),
        0 <= m < pairs[n].1.entries@.len(),
        is_probe_for(tables, pairs[n].0@, pairs[n].1.entries@[m].type_path@, probe),
        are_wrappers_for(map, pairs[n].1.entries@[m].type_path@, ws),
        impl_gap(pairs[n].0@, pairs[n].1.entries@[m]@, probe, ws) is Some,
    ensures
        lists_gap(
            sorted::<ImplGapEntry>(firsts::<ImplGapEntry>(all_gaps(pairs, tables, map))),
            pairs[n].0@,
            pairs[n].1.entries@[m].type_path@,
        ),
{
    let source = pairs[n].0@;
    let e = pairs[n].1.entries@[m]@;
    let entries = views(pairs[n].1.entries@);
    let all = all_gaps(pairs, tables, map);
    let kept = firsts::<ImplGapEntry>(all);
    let list = sorted::<ImplGapEntry>(kept);
    lemma_one_probe(tables, source, e.type_path, probe);
    lemma_one_wrappers(map, e.type_path, ws);
    let g = impl_gap(source, e, probe, ws)->0;
    lemma_report_gap_members(source, entries, tables, map);
    assert(entries[m] == e);
    lemma_all_gap_members(pairs, tables, map);
    assert(report_gaps(pairs[n].0@, views(pairs[n].1.entries@), tables, map).contains(g));
    assert(all.contains(g));
    let id = (source, e.type_path);
    let j = choose|j: int| 0 <= j < all.len() && all[j] == g;
    assert(ImplGapEntry::identity(all[j]) == id);
    assert(holds_identity::<ImplGapEntry>(all, id));
    law_firsts::<ImplGapEntry>(all, id);
    let k = choose|k: int| 0 <= k < kept.len() && ImplGapEntry::identity(#[trigger] kept[k]) == id;
    assert(kept.contains(kept[k]));
    law_sorted_members::<ImplGapEntry>(kept, kept[k]);
    let i = choose|i: int| 0 <= i < list.len() && list[i] == kept[k];
    assert(list[i].source_crate == source);
}

/// A type has one probe.
pub proof fn lemma_one_probe(
    tables: Seq<(String, Vec<(String, TypeFeatureProbe)>)>,
    source: Seq<char>,
    path: Seq<char>,
    probe: Option<TypeFeatureProbeView>,
)
    requires
        is_probe_for(tables, source, path, probe),
    ensures
        probe == probe_for(tables, source, path),
{
    law_first_entry_counts(keyed(tables), source);
    law_keyed(tables);
    match probe {
        Some(p) => {
            let (i, j) = choose|i: int, j: int|
                #![trigger is_first_entry(keyed(tables), source, i), is_first_entry(keyed(tables[i].1@), path, j)]
                is_first_entry(keyed(tables), source, i) && is_first_entry(
                    keyed(tables[i].1@),
                    path,
                    j,
                ) && tables[i].1@[j].1@ == p;
            assert(keyed(tables)[i].1 == tables[i].1);
            law_first_entry_counts(keyed(tables[i].1@), path);
            law_keyed(tables[i].1@);
            assert(keyed(tables[i].1@)[j].1 == tables[i].1@[j].1);
        },
        None => {
            if is_key(keyed(tables), source) {
                let i = choose|i: int| #[trigger] is_first_entry(keyed(tables), source, i);
                assert(keyed(tables)[i].1 == tables[i].1);
                assert(!is_key(keyed(tables[i].1@), path));
                law_first_entry_counts(keyed(tables[i].1@), path);
            }
        },
    }
}

/// A type has one list of wrappers.
pub proof fn lemma_one_wrappers(
    map: Seq<(String, Vec<WrapperCoverage>)>,
    path: Seq<char>,
    ws: Seq<WrapperView>,
)
    requires
        are_wrappers_for(map, path, ws),
    ensures
        ws == wrappers_for(map, path),
{
    lemma_wrappers(map, path);
    if is_key(keyed(map), path) {
        let i = choose|i: int| #[trigger]
            is_first_entry(keyed(map), path, i) && ws == views(map[i].1@);
        let j = choose|j: int| #[trigger]
            is_first_entry(keyed(map), path, j) && wrappers_for(map, path) == views(map[j].1@);
        if i < j {
            assert(keyed(map)[i].0 != path);
        }
        if j < i {
            assert(keyed(map)[j].0 != path);
        }
    } else {
        assert(ws =~= wrappers_for(map, path));
    }
}


/// The text ends with the suffix.
pub open spec fn has_suffix(text: Seq<char>, suffix: Seq<char>) -> bool {
    exists|rest: Seq<char>| text == #[trigger] (rest + suffix)
}

/// The name ends like those of our own helpers.
pub open spec fn is_helper_name(name: Seq<char>) -> bool {
    has_suffix(name, "Params"@) || has_suffix(name, "ParamsStyle"@) || has_suffix(name, "Plugin"@)
        || has_suffix(name, "Ctx"@) || has_suffix(name, "Descriptor"@) || has_suffix(
        name,
        "Factory"@,
    ) || has_suffix(name, "Hook"@) || has_suffix(name, "Json"@)
}

proof fn lemma_suffix(text: Seq<char>, suffix: Seq<char>)
    ensures
        crate::text::ends(text, suffix) == has_suffix(text, suffix),
{
    crate::laws::basics::law_parts_of_a_text(text, suffix);
}

/// The row shows a matched type whose shadow is not complete.
pub open spec fn is_unverified(v: ShadowRowView) -> bool {
    &&& v.status is Covered || v.status is Drifted
    &&& v.item_kind == ItemKind::Struct || v.item_kind == ItemKind::Enum || v.item_kind
        == ItemKind::TypeAlias
    &&& v.shadow_elicit_impl != "Complete"@
    &&& v.shadow_elicit_impl != "CompleteFactory"@
}

/// What is to be done to complete a matched shadow type.
pub open spec fn completion_text(v: ShadowRowView) -> Seq<char> {
    let ours = replaced(v.shadow_missing_our_traits, ";"@, ", "@);
    let external = replaced(v.shadow_missing_external_traits, ";"@, ", "@);
    match (v.shadow_missing_our_traits.len() > 0, v.shadow_can_be_direct == "true"@) {
        (true, true) => "Finish `"@ + v.shadow_item + "` by adding our traits: "@ + ours
            + "; then add `impl ElicitComplete`"@,
        (true, false) => "Finish `"@ + v.shadow_item + "` by adding our traits: "@ + ours
            + "; also add external traits: "@ + external,
        (false, true) => "Add `impl ElicitComplete for "@ + v.shadow_item + " {}`"@,
        (false, false) => "Add external traits to `"@ + v.shadow_item
            + "` so it can support `ElicitComplete`: "@ + external,
    }
}

/// The state of a row of a shadow report: that of its status, where extra items are ours to keep
/// exactly if the last segment of their path ends like our helpers do. Matched types without a
/// complete shadow are verification gaps.
pub proof fn law_state_of_a_shadow_row(v: ShadowRowView)
    ensures
        ({
            let a = shadow_assessment(v);
            let helper = is_helper_name(last_segment(v.item_path));
            &&& a.coverage_kind is Covered <==> v.status is Covered
            &&& a.coverage_kind is Missing <==> v.status is Missing
            &&& a.coverage_kind is Drifted <==> v.status is Drifted
            &&& a.coverage_kind is InfrastructureExtra <==> v.status is Extra && helper
            &&& a.coverage_kind is PossiblyStale <==> v.status is Extra && !helper
            &&& a.primary_gap_kind == match a.coverage_kind {
                ShadowCoverageKind::Covered => None,
                ShadowCoverageKind::Missing => Some(ShadowGapKind::Missing),
                ShadowCoverageKind::Drifted => Some(ShadowGapKind::Drifted),
                ShadowCoverageKind::PossiblyStale => Some(ShadowGapKind::PossiblyStale),
                ShadowCoverageKind::InfrastructureExtra => Some(
                    ShadowGapKind::InfrastructureExtra,
                ),
            }
            &&& a.verification_gap <==> is_unverified(v)
            &&& a.verification_ready <==> v.shadow_elicit_impl == "Complete"@
                || v.shadow_elicit_impl == "CompleteFactory"@
            &&& v.status is Covered ==> a.action == if is_unverified(v) {
                completion_text(v)
            } else {
                ""@
            }
            &&& v.status is Drifted ==> a.action == "Rename or replace `"@ + v.shadow_item
                + "` so upstream `"@ + v.item_path + "` is shadowed exactly"@ + if is_unverified(v) {
                "; then "@ + completion_text(v)
            } else {
                Seq::empty()
            }
            &&& v.status is Missing && (v.item_kind is Struct || v.item_kind is Enum
                || v.item_kind is TypeAlias) ==> a.action == "Add a shadow for upstream `"@
                + v.item_path + "` and make the new wrapper `ElicitComplete`"@
            &&& v.status is Missing && !(v.item_kind is Struct || v.item_kind is Enum
                || v.item_kind is TypeAlias) ==> a.action == "Add a shadow item for upstream `"@
                + v.item_path + "` so the full public API surface is represented"@
            &&& v.status is Extra && !helper ==> a.action == "Audit `"@ + v.item_path
                + "`: remove it if stale, or rename/remap it to an upstream public item"@
            &&& v.status is Extra && helper ==> a.action
                == "Shadow-only infrastructure item; keep unless it should instead map to an upstream API item"@
        }),
{
    let name = last_segment(v.item_path);
    lemma_suffix(name, "Params"@);
    lemma_suffix(name, "ParamsStyle"@);
    lemma_suffix(name, "Plugin"@);
    lemma_suffix(name, "Ctx"@);
    lemma_suffix(name, "Descriptor"@);
    lemma_suffix(name, "Factory"@);
    lemma_suffix(name, "Hook"@);
    lemma_suffix(name, "Json"@);
    assert(is_infrastructure(name) == is_helper_name(name));
    assert(verification_action(v) == completion_text(v));
    if v.status is Drifted {
        let a = "Rename or replace `"@ + v.shadow_item + "` so upstream `"@ + v.item_path
            + "` is shadowed exactly"@;
        assert(a + Seq::empty() =~= a);
        assert(a + "; then "@ + completion_text(v) =~= a + ("; then "@ + completion_text(v)));
    }
}

/// The gap is one of the row: of its surface, told by its status, or a verification gap.
pub open spec fn is_shadow_gap_of(
    g: ShadowGapView,
    target: Seq<char>,
    shadow: Seq<char>,
    v: ShadowRowView,
) -> bool {
    &&& g.target_crate == target
    &&& g.shadow_crate == shadow
    &&& g.item_path == v.item_path
    &&& g.item_kind == v.item_kind
    &&& g.matched_shadow_item == v.shadow_item
    &&& g.drift_confidence == v.drift_confidence
    &&& g.shadow_elicit_impl == v.shadow_elicit_impl
    &&& g.shadow_can_be_direct == v.shadow_can_be_direct
    &&& g.shadow_missing_external_traits == v.shadow_missing_external_traits
    &&& g.shadow_missing_our_traits == v.shadow_missing_our_traits
    &&& g.notes == v.notes
    &&& match g.gap_kind {
        ShadowGapKind::Missing => v.status is Missing && g.action == ""@,
        ShadowGapKind::Drifted => v.status is Drifted && g.action == ""@,
        ShadowGapKind::PossiblyStale => v.status is Extra && !is_helper_name(
            last_segment(v.item_path),
        ) && g.action == ""@,
        ShadowGapKind::InfrastructureExtra => v.status is Extra && is_helper_name(
            last_segment(v.item_path),
        ) && g.action == ""@,
        ShadowGapKind::ShadowVerificationGap => is_unverified(v) && g.action == completion_text(v),
    }
}

/// The gap is one of a row of the report.
pub open spec fn has_shadow_source(
    g: ShadowGapView,
    target: Seq<char>,
    shadow: Seq<char>,
    rows: Seq<ShadowRowView>,
) -> bool {
    exists|m: int|
        0 <= m < rows.len() && is_shadow_gap_of(g, target, shadow, #[trigger] rows[m])
}

/// A gap of the surface, or a verification gap, of the row is in the list.
pub open spec fn holds_gap(
    list: Seq<ShadowGapView>,
    target: Seq<char>,
    shadow: Seq<char>,
    v: ShadowRowView,
    verification: bool,
) -> bool {
    exists|i: int|
        0 <= i < list.len() && is_shadow_gap_of(#[trigger] list[i], target, shadow, v) && (
        list[i].gap_kind is ShadowVerificationGap) == verification
}

proof fn lemma_holds_more(
    a: Seq<ShadowGapView>,
    b: Seq<ShadowGapView>,
    target: Seq<char>,
    shadow: Seq<char>,
    v: ShadowRowView,
    verification: bool,
)
    requires
        forall|g: ShadowGapView| a.contains(g) ==> #[trigger] b.contains(g),
        holds_gap(a, target, shadow, v, verification),
    ensures
        holds_gap(b, target, shadow, v, verification),
{
    let i = choose|i: int|
        0 <= i < a.len() && is_shadow_gap_of(#[trigger] a[i], target, shadow, v) && (
        a[i].gap_kind is ShadowVerificationGap) == verification;
    assert(a.contains(a[i]));
    assert(b.contains(a[i]));
    let j = choose|j: int| 0 <= j < b.len() && b[j] == a[i];
    assert(is_shadow_gap_of(b[j], target, shadow, v));
}

/// The gaps of a shadow report are those of its rows.
pub proof fn lemma_shadow_gap_members(target: Seq<char>, shadow: Seq<char>, rows: Seq<ShadowRowView>)
    ensures
        forall|i: int|
            0 <= i < surface_gaps(target, shadow, rows).len() ==> has_shadow_source(
                #[trigger] surface_gaps(target, shadow, rows)[i],
                target,
                shadow,
                rows,
            ),
        forall|i: int|
            0 <= i < completion_gaps(target, shadow, rows).len() ==> has_shadow_source(
                #[trigger] completion_gaps(target, shadow, rows)[i],
                target,
                shadow,
                rows,
            ),
        forall|m: int|
            0 <= m < rows.len() && !((#[trigger] rows[m]).status is Covered) ==> holds_gap(
                surface_gaps(target, shadow, rows),
                target,
                shadow,
                rows[m],
                false,
            ),
        forall|m: int|
            0 <= m < rows.len() && is_unverified(#[trigger] rows[m]) ==> holds_gap(
                completion_gaps(target, shadow, rows),
                target,
                shadow,
                rows[m],
                true,
            ),
    decreases rows.len(),
{
    if rows.len() > 0 {
        let f = rows.drop_last();
        let v = rows.last();
        let a = surface_gaps(target, shadow, f);
        let b = surface_gaps(target, shadow, rows);
        let c = completion_gaps(target, shadow, f);
        let d = completion_gaps(target, shadow, rows);
        lemma_shadow_gap_members(target, shadow, f);
        law_state_of_a_shadow_row(v);
        assert(rows[rows.len() - 1] == v);
        assert(verification_action(v) == completion_text(v));
        assert forall|g: ShadowGapView| a.contains(g) implies #[trigger] b.contains(g) by {
            let i = choose|i: int| 0 <= i < a.len() && a[i] == g;
            assert(b[i] == g);
        }
        assert forall|g: ShadowGapView| c.contains(g) implies #[trigger] d.contains(g) by {
            let i = choose|i: int| 0 <= i < c.len() && c[i] == g;
            assert(d[i] == g);
        }
        assert forall|i: int| 0 <= i < b.len() implies has_shadow_source(
            #[trigger] b[i],
            target,
            shadow,
            rows,
        ) by {
            if i < a.len() {
                assert(has_shadow_source(a[i], target, shadow, f));
                let m = choose|m: int|
                    0 <= m < f.len() && is_shadow_gap_of(a[i], target, shadow, #[trigger] f[m]);
                assert(rows[m] == f[m]);
            } else {
                assert(is_shadow_gap_of(b[i], target, shadow, v));
            }
        }
        assert forall|i: int| 0 <= i < d.len() implies has_shadow_source(
            #[trigger] d[i],
            target,
            shadow,
            rows,
        ) by {
            if i < c.len() {
                assert(has_shadow_source(c[i], target, shadow, f));
                let m = choose|m: int|
                    0 <= m < f.len() && is_shadow_gap_of(c[i], target, shadow, #[trigger] f[m]);
                assert(rows[m] == f[m]);
            } else {
                assert(is_shadow_gap_of(d[i], target, shadow, v));
            }
        }
        assert forall|m: int| 0 <= m < rows.len() && !((#[trigger] rows[m]).status is Covered) implies holds_gap(
            b,
            target,
            shadow,
            rows[m],
            false,
        ) by {
            if m < f.len() {
                assert(f[m] == rows[m]);
                lemma_holds_more(a, b, target, shadow, f[m], false);
            } else {
                assert(is_shadow_gap_of(b[a.len() as int], target, shadow, v));
            }
        }
        assert forall|m: int| 0 <= m < rows.len() && is_unverified(#[trigger] rows[m]) implies holds_gap(
            d,
            target,
            shadow,
            rows[m],
            true,
        ) by {
            if m < f.len() {
                assert(f[m] == rows[m]);
                lemma_holds_more(c, d, target, shadow, f[m], true);
            } else {
                assert(is_shadow_gap_of(d[c.len() as int], target, shadow, v));
            }
        }
    }
}

spec fn has_shadow_pair(g: ShadowGapView, pairs: Seq<(&str, &str, &ShadowReport)>) -> bool {
    exists|n: int|
        0 <= n < pairs.len() && has_shadow_source(
            g,
            (#[trigger] pairs[n]).0@,
            pairs[n].1@,
            views(pairs[n].2.rows@),
        )
}

proof fn lemma_all_shadow_members(pairs: Seq<(&str, &str, &ShadowReport)>)
    ensures
        forall|i: int|
            0 <= i < all_shadow_gaps(pairs).len() ==> has_shadow_pair(
                #[trigger] all_shadow_gaps(pairs)[i],
                pairs,
            ),
        forall|n: int, g: ShadowGapView|
            0 <= n < pairs.len() && #[trigger] surface_gaps(
                pairs[n].0@,
                pairs[n].1@,
                views(pairs[n].2.rows@),
            ).contains(g) ==> all_shadow_gaps(pairs).contains(g),
        forall|n: int, g: ShadowGapView|
            0 <= n < pairs.len() && #[trigger] completion_gaps(
                pairs[n].0@,
                pairs[n].1@,
                views(pairs[n].2.rows@),
            ).contains(g) ==> all_shadow_gaps(pairs).contains(g),
    decreases pairs.len(),
{
    if pairs.len() > 0 {
        let f = pairs.drop_last();
        let p = pairs.last();
        let a = all_shadow_gaps(f);
        let c = surface_gaps(p.0@, p.1@, views(p.2.rows@));
        let d = completion_gaps(p.0@, p.1@, views(p.2.rows@));
        let b = all_shadow_gaps(pairs);
        lemma_all_shadow_members(f);
        lemma_shadow_gap_members(p.0@, p.1@, views(p.2.rows@));
        assert(pairs[pairs.len() - 1] == p);
        assert forall|i: int| 0 <= i < b.len() implies has_shadow_pair(#[trigger] b[i], pairs) by {
            if i < a.len() {
                assert(has_shadow_pair(a[i], f));
                let n = choose|n: int|
                    0 <= n < f.len() && has_shadow_source(
                        a[i],
                        (#[trigger] f[n]).0@,
                        f[n].1@,
                        views(f[n].2.rows@),
                    );
                assert(pairs[n] == f[n]);
            } else if i < a.len() + c.len() {
                assert(b[i] == c[i - a.len()]);
                assert(has_shadow_source(c[i - a.len()], p.0@, p.1@, views(p.2.rows@)));
            } else {
                assert(b[i] == d[i - a.len() - c.len()]);
                assert(has_shadow_source(d[i - a.len() - c.len()], p.0@, p.1@, views(p.2.rows@)));
            }
        }
        assert forall|n: int, g: ShadowGapView|
            0 <= n < pairs.len() && #[trigger] surface_gaps(
                pairs[n].0@,
                pairs[n].1@,
                views(pairs[n].2.rows@),
            ).contains(g) implies b.contains(g) by {
            lemma_contains_sum(a, c, g);
            lemma_contains_sum(a + c, d, g);
            if n < f.len() {
                assert(f[n] == pairs[n]);
                assert(surface_gaps(f[n].0@, f[n].1@, views(f[n].2.rows@)).contains(g));
            }
        }
        assert forall|n: int, g: ShadowGapView|
            0 <= n < pairs.len() && #[trigger] completion_gaps(
                pairs[n].0@,
                pairs[n].1@,
                views(pairs[n].2.rows@),
            ).contains(g) implies b.contains(g) by {
            lemma_contains_sum(a, c, g);
            lemma_contains_sum(a + c, d, g);
            if n < f.len() {
                assert(f[n] == pairs[n]);
                assert(completion_gaps(f[n].0@, f[n].1@, views(f[n].2.rows@)).contains(g));
            }
        }
    }
}

/// Every gap of the list is one of a row of one of the reports.
pub proof fn law_listed_shadow_gaps_are_of_rows(pairs: Seq<(&str, &str, &ShadowReport)>, i: int)
    requires
        0 <= i < sorted::<ShadowGapEntry>(firsts::<ShadowGapEntry>(all_shadow_gaps(pairs))).len(),
    ensures
        exists|n: int, m: int|
            0 <= n < pairs.len() && 0 <= m < pairs[n].2.rows@.len() && is_shadow_gap_of(
                sorted::<ShadowGapEntry>(firsts::<ShadowGapEntry>(all_shadow_gaps(pairs)))[i],
                pairs[n].0@,
                pairs[n].1@,
                (#[trigger] pairs[n].2.rows@[m])@,
            ),
{
    let all = all_shadow_gaps(pairs);
    let kept = firsts::<ShadowGapEntry>(all);
    let list = sorted::<ShadowGapEntry>(kept);
    let g = list[i];
    law_sorted_members::<ShadowGapEntry>(kept, g);
    assert(list.contains(g));
    law_firsts::<ShadowGapEntry>(all, ShadowGapEntry::identity(g));
    let k = choose|k: int| 0 <= k < kept.len() && kept[k] == g;
    assert(all.contains(kept[k]));
    let j = choose|j: int| 0 <= j < all.len() && all[j] == g;
    lemma_all_shadow_members(pairs);
    assert(has_shadow_pair(all[j], pairs));
    let n = choose|n: int|
        0 <= n < pairs.len() && has_shadow_source(
            g,
            (#[trigger] pairs[n]).0@,
            pairs[n].1@,
            views(pairs[n].2.rows@),
        );
    let rows = views(pairs[n].2.rows@);
    let m = choose|m: int|
        0 <= m < rows.len() && is_shadow_gap_of(g, pairs[n].0@, pairs[n].1@, #[trigger] rows[m]);
    assert(rows[m] == pairs[n].2.rows@[m]@);
}

/// The list has a gap of the surface, or a verification gap, for the item of the row.
pub open spec fn lists_shadow_gap(
    list: Seq<ShadowGapView>,
    target: Seq<char>,
    shadow: Seq<char>,
    v: ShadowRowView,
    verification: bool,
) -> bool {
    exists|i: int|
        0 <= i < list.len() && (#[trigger] list[i]).target_crate == target && list[i].shadow_crate
            == shadow && list[i].item_path == v.item_path && list[i].item_kind == v.item_kind && (
        list[i].gap_kind is ShadowVerificationGap) == verification
}

/// Every row that is not covered is listed as a gap of the surface, and every matched type whose
/// shadow is not complete as a verification gap.
pub proof fn law_shadow_gaps_are_listed(pairs: Seq<(&str, &str, &ShadowReport)>, n: int, m: int)
    requires
        0 <= n < pairs.len(),
        0 <= m < pairs[n].2.rows@.len(),
    ensures
        ({
            let list = sorted::<ShadowGapEntry>(firsts::<ShadowGapEntry>(all_shadow_gaps(pairs)));
            let v = pairs[n].2.rows@[m]@;
            &&& !(v.status is Covered) ==> lists_shadow_gap(list, pairs[n].0@, pairs[n].1@, v, false)
            &&& is_unverified(v) ==> lists_shadow_gap(list, pairs[n].0@, pairs[n].1@, v, true)
        }),
{
    let target = pairs[n].0@;
    let shadow = pairs[n].1@;
    let rows = views(pairs[n].2.rows@);
    let v = pairs[n].2.rows@[m]@;
    assert(rows[m] == v);
    lemma_shadow_gap_members(target, shadow, rows);
    lemma_all_shadow_members(pairs);
    if !(v.status is Covered) {
        let a = surface_gaps(target, shadow, rows);
        let i = choose|i: int|
            0 <= i < a.len() && is_shadow_gap_of(#[trigger] a[i], target, shadow, v) && (
            a[i].gap_kind is ShadowVerificationGap) == false;
        assert(surface_gaps(pairs[n].0@, pairs[n].1@, views(pairs[n].2.rows@)).contains(a[i]));
        lemma_kept_gap(pairs, a[i]);
    }
    if is_unverified(v) {
        let a = completion_gaps(target, shadow, rows);
        let i = choose|i: int|
            0 <= i < a.len() && is_shadow_gap_of(#[trigger] a[i], target, shadow, v) && (
            a[i].gap_kind is ShadowVerificationGap) == true;
        assert(completion_gaps(pairs[n].0@, pairs[n].1@, views(pairs[n].2.rows@)).contains(a[i]));
        lemma_kept_gap(pairs, a[i]);
    }
}

proof fn lemma_kept_gap(pairs: Seq<(&str, &str, &ShadowReport)>, g: ShadowGapView)
    requires
        all_shadow_gaps(pairs).contains(g),
    ensures
        exists|i: int|
            0 <= i < sorted::<ShadowGapEntry>(
                firsts::<ShadowGapEntry>(all_shadow_gaps(pairs)),
            ).len() && same_shadow_gap(
                #[trigger] sorted::<ShadowGapEntry>(
                    firsts::<ShadowGapEntry>(all_shadow_gaps(pairs)),
                )[i],
                g,
            ),
{
    let all = all_shadow_gaps(pairs);
    let kept = firsts::<ShadowGapEntry>(all);
    let list = sorted::<ShadowGapEntry>(kept);
    let id = ShadowGapEntry::identity(g);
    let j = choose|j: int| 0 <= j < all.len() && all[j] == g;
    assert(ShadowGapEntry::identity(all[j]) == id);
    assert(holds_identity::<ShadowGapEntry>(all, id));
    law_firsts::<ShadowGapEntry>(all, id);
    let k = choose|k: int|
        0 <= k < kept.len() && ShadowGapEntry::identity(#[trigger] kept[k]) == id;
    assert(kept.contains(kept[k]));
    law_sorted_members::<ShadowGapEntry>(kept, kept[k]);
    let i = choose|i: int| 0 <= i < list.len() && list[i] == kept[k];
    assert(same_shadow_gap(list[i], g));
}

/// The gaps are about the same item of the same crates, and of the same kind.
spec fn same_shadow_gap(a: ShadowGapView, b: ShadowGapView) -> bool {
    a.target_crate == b.target_crate && a.shadow_crate == b.shadow_crate && a.item_path
        == b.item_path && a.item_kind == b.item_kind && a.gap_kind == b.gap_kind
}

}
