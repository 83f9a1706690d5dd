//! Gaps: what is left to do, derived from the impl and the shadow reports.
//!
//! A type may lack traits of our own (`MissingOurTraits`); it may lack nothing but the
//! `ElicitComplete` marker (`ReadyForElicitComplete`); or more features of a dependency may
//! unlock the external traits that it lacks (`FeatureGatedExternal`). An upstream item may be
//! missing from its shadow crate, or drifted from it; a shadow item may be stale.

use vstd::prelude::*;
use vstd::string::*;

use crate::collect::{TraitPrereqs, TypeFeatureProbe, TypeFeatureProbeView};
use crate::count::{count_if, lemma_count_append, lemma_count_permuted};
use crate::distinct::{firsts, is_distinct, law_distinct_stays, law_firsts, law_sorted_distinct};
use crate::distinct::{push_first, Identified, Recognized};
use crate::error::ElicitDocErrorKind;
use crate::impl_coverage::{ImplCoverageEntry, ImplCoverageReport, ImplEntryView, ImplStatus};
use crate::inventory::{Inventory, ItemKind};
use crate::order::{key_lt, law_sorted_in_order, law_sorted_permutes, ranked_pair_before};
use crate::order::{sort_ranked, sorted, Key, Ranked};
use crate::shadow::{counts_rows, has_gap, has_status, is_shadow_report, is_shadow_verification_gap};
use crate::shadow::{items_differ, law_rows_differ, rows_differ, verification_gap, ShadowInputs};
use crate::shadow::{ShadowReport, ShadowRow, ShadowRowView, ShadowStatus};
use crate::table::{find_key, find_value, keyed, lemma_same_keys, value_of};
use crate::text::{ends, ends_with, final_segment, is_empty, join, join_strs, joined, last_segment};
use crate::text::{opt_view, replace_text, replaced, str_eq, views};
use crate::trenchcoat::{wrapper_views, WrapperCoverage, WrapperCoverageMap, WrapperView};

verus! {

/// The state of a type.
#[derive(Clone, Copy, Debug, PartialEq, Eq, Structural)]
pub enum ImplRowKind {
    /// The type has `ElicitComplete`, itself or through a wrapper.
    Covered,
    /// Traits of our own are missing.
    MissingOurTraits,
    /// Only `impl ElicitComplete` is missing.
    ReadyForElicitComplete,
    /// More features may unlock the missing external traits.
    FeatureGatedExternal,
    /// A direct `ElicitComplete` is not legal under the upstream API.
    ExternallyBlocked,
}

impl ImplRowKind {
    /// The name of the kind.
    pub open spec fn name(self) -> Seq<char> {
        match self {
            ImplRowKind::Covered => "Covered"@,
            ImplRowKind::MissingOurTraits => "MissingOurTraits"@,
            ImplRowKind::ReadyForElicitComplete => "ReadyForElicitComplete"@,
            ImplRowKind::FeatureGatedExternal => "FeatureGatedExternal"@,
            ImplRowKind::ExternallyBlocked => "ExternallyBlocked"@,
        }
    }

    /// The name of the kind, as reports print it.
    pub fn to_text(&self) -> (r: String)
        ensures
            r@ == self.name(),
    {
        match self {
            ImplRowKind::Covered => "Covered".to_string(),
            ImplRowKind::MissingOurTraits => "MissingOurTraits".to_string(),
            ImplRowKind::ReadyForElicitComplete => "ReadyForElicitComplete".to_string(),
            ImplRowKind::FeatureGatedExternal => "FeatureGatedExternal".to_string(),
            ImplRowKind::ExternallyBlocked => "ExternallyBlocked".to_string(),
        }
    }
}

/// Why a type lacks an `ElicitComplete` impl.
#[derive(Clone, Copy, Debug, PartialEq, Eq, Structural)]
pub enum ImplGapKind {
    /// Traits of our own are missing.
    MissingOurTraits,
    /// Only `impl ElicitComplete` is missing.
    ReadyForElicitComplete,
    /// More features may unlock the missing external traits.
    FeatureGatedExternal,
}

impl ImplGapKind {
    /// The name of the kind.
    pub open spec fn name(self) -> Seq<char> {
        match self {
            ImplGapKind::MissingOurTraits => "MissingOurTraits"@,
            ImplGapKind::ReadyForElicitComplete => "ReadyForElicitComplete"@,
            ImplGapKind::FeatureGatedExternal => "FeatureGatedExternal"@,
        }
    }

    /// The name of the kind, as reports print it.
    pub fn to_text(&self) -> (r: String)
        ensures
            r@ == self.name(),
    {
        match self {
            ImplGapKind::MissingOurTraits => "MissingOurTraits".to_string(),
            ImplGapKind::ReadyForElicitComplete => "ReadyForElicitComplete".to_string(),
            ImplGapKind::FeatureGatedExternal => "FeatureGatedExternal".to_string(),
        }
    }
}

/// One row of the list of impl gaps.
#[derive(Clone, Debug)]
pub struct ImplGapEntry {
    /// The crate that the type belongs to.
    pub source_crate: String,
    pub type_path: String,
    pub type_kind: ItemKind,
    pub is_generic: bool,
    pub gap_kind: ImplGapKind,
    /// Which external traits are missing, each marked as absent.
    pub missing_external_traits: String,
    /// Which of our traits are missing after direct and wrapper coverage.
    pub missing_our_traits: String,
    pub our_traits_complete: bool,
    /// What covers the type: `direct`, `wrapper`, `hybrid` or nothing.
    pub coverage_provider: String,
    pub wrapper_paths: String,
    /// A direct `ElicitComplete` impl is legal.
    pub can_be_direct: bool,
    /// A direct `ElicitComplete` impl is legal and nothing stands for it.
    pub elicit_complete_gap: bool,
    pub feature_gated_external: bool,
    /// External traits are missing and no feature unlocks them.
    pub blocked_by_orphan_rule: bool,
    pub feature_owner_crate: String,
    /// The features that may unlock external traits, where the gap depends on them.
    pub candidate_unlock_features: String,
    pub action: String,
}

/// The contents of an [`ImplGapEntry`].
#[verifier::ext_equal]
pub struct ImplGapView {
    pub source_crate: Seq<char>,
    pub type_path: Seq<char>,
    pub type_kind: ItemKind,
    pub is_generic: bool,
    pub gap_kind: ImplGapKind,
    pub missing_external_traits: Seq<char>,
    pub missing_our_traits: Seq<char>,
    pub our_traits_complete: bool,
    pub coverage_provider: Seq<char>,
    pub wrapper_paths: Seq<char>,
    pub can_be_direct: bool,
    pub elicit_complete_gap: bool,
    pub feature_gated_external: bool,
    pub blocked_by_orphan_rule: bool,
    pub feature_owner_crate: Seq<char>,
    pub candidate_unlock_features: Seq<char>,
    pub action: Seq<char>,
}

impl View for ImplGapEntry {
    type V = ImplGapView;

    open spec fn view(&self) -> ImplGapView {
        ImplGapView {
            source_crate: self.source_crate@,
            type_path: self.type_path@,
            type_kind: self.type_kind,
            is_generic: self.is_generic,
            gap_kind: self.gap_kind,
            missing_external_traits: self.missing_external_traits@,
            missing_our_traits: self.missing_our_traits@,
            our_traits_complete: self.our_traits_complete,
            coverage_provider: self.coverage_provider@,
            wrapper_paths: self.wrapper_paths@,
            can_be_direct: self.can_be_direct,
            elicit_complete_gap: self.elicit_complete_gap,
            feature_gated_external: self.feature_gated_external,
            blocked_by_orphan_rule: self.blocked_by_orphan_rule,
            feature_owner_crate: self.feature_owner_crate@,
            candidate_unlock_features: self.candidate_unlock_features@,
            action: self.action@,
        }
    }
}

/// The diagnosis of one row of an impl report.
#[derive(Clone, Debug)]
pub struct ImplRowAssessment {
    pub row_kind: ImplRowKind,
    pub primary_gap_kind: Option<ImplGapKind>,
    pub missing_external_traits: String,
    pub missing_our_traits: String,
    pub direct_missing_our_traits: String,
    pub our_traits_complete: bool,
    pub direct_our_traits_complete: bool,
    pub covered_indirectly: bool,
    pub coverage_provider: String,
    pub wrapper_paths: String,
    pub can_be_direct: bool,
    pub elicit_complete_gap: bool,
    pub feature_gated_external: bool,
    pub blocked_by_orphan_rule: bool,
    pub blocked_reason: String,
    pub feature_owner_crate: String,
    pub candidate_unlock_features: String,
    pub action: String,
}

/// The contents of an [`ImplRowAssessment`].
#[verifier::ext_equal]
pub struct ImplAssessmentView {
    pub row_kind: ImplRowKind,
    pub primary_gap_kind: Option<ImplGapKind>,
    pub missing_external_traits: Seq<char>,
    pub missing_our_traits: Seq<char>,
    pub direct_missing_our_traits: Seq<char>,
    pub our_traits_complete: bool,
    pub direct_our_traits_complete: bool,
    pub covered_indirectly: bool,
    pub coverage_provider: Seq<char>,
    pub wrapper_paths: Seq<char>,
    pub can_be_direct: bool,
    pub elicit_complete_gap: bool,
    pub feature_gated_external: bool,
    pub blocked_by_orphan_rule: bool,
    pub blocked_reason: Seq<char>,
    pub feature_owner_crate: Seq<char>,
    pub candidate_unlock_features: Seq<char>,
    pub action: Seq<char>,
}

impl View for ImplRowAssessment {
    type V = ImplAssessmentView;

    open spec fn view(&self) -> ImplAssessmentView {
        ImplAssessmentView {
            row_kind: self.row_kind,
            primary_gap_kind: self.primary_gap_kind,
            missing_external_traits: self.missing_external_traits@,
            missing_our_traits: self.missing_our_traits@,
            direct_missing_our_traits: self.direct_missing_our_traits@,
            our_traits_complete: self.our_traits_complete,
            direct_our_traits_complete: self.direct_our_traits_complete,
            covered_indirectly: self.covered_indirectly,
            coverage_provider: self.coverage_provider@,
            wrapper_paths: self.wrapper_paths@,
            can_be_direct: self.can_be_direct,
            elicit_complete_gap: self.elicit_complete_gap,
            feature_gated_external: self.feature_gated_external,
            blocked_by_orphan_rule: self.blocked_by_orphan_rule,
            blocked_reason: self.blocked_reason@,
            feature_owner_crate: self.feature_owner_crate@,
            candidate_unlock_features: self.candidate_unlock_features@,
            action: self.action@,
        }
    }
}

/// The names of the wrappers.
pub open spec fn wrapper_names(ws: Seq<WrapperView>) -> Seq<Seq<char>> {
    ws.map_values(|w: WrapperView| w.wrapper_path)
}

/// The traits that any of the wrappers implements.
pub open spec fn wrapper_traits(ws: Seq<WrapperView>) -> TraitPrereqs
    decreases ws.len(),
{
    if ws.len() == 0 {
        TraitPrereqs::none()
    } else {
        wrapper_traits(ws.drop_last()).merged(ws.last().wrapper_prereqs)
    }
}

/// Some wrapper is complete.
pub open spec fn any_complete(ws: Seq<WrapperView>) -> bool {
    exists|i: int| 0 <= i < ws.len() && (#[trigger] ws[i]).wrapper_elicit_complete
}

/// Some wrapper is complete or has all of our traits.
pub open spec fn any_covers(ws: Seq<WrapperView>) -> bool {
    exists|i: int|
        0 <= i < ws.len() && ((#[trigger] ws[i]).wrapper_elicit_complete || ws[i].wrapper_prereqs.ours())
}

/// What the diagnosis of a type rests on.
#[verifier::ext_equal]
pub struct DiagnosisView {
    /// The external traits that the type lacks.
    pub external: Seq<Seq<char>>,
    /// Those of our traits that the type itself lacks.
    pub direct_missing: Seq<Seq<char>>,
    /// Those of our traits that neither the type nor a wrapper has.
    pub missing: Seq<Seq<char>>,
    pub wrappers: Seq<Seq<char>>,
    pub owner: Seq<char>,
    pub features: Seq<Seq<char>>,
    pub lifetime_blocked: bool,
    pub direct: bool,
    pub gated: bool,
    pub orphan: bool,
    pub indirect: bool,
}

/// What the diagnosis of a type rests on.
pub open spec fn diagnosis(
    source: Seq<char>,
    e: ImplEntryView,
    probe: Option<TypeFeatureProbeView>,
    ws: Seq<WrapperView>,
) -> DiagnosisView {
    let features = match probe {
        Some(p) => p.candidate_unlock_features,
        None => seq![],
    };
    let unlocks = match probe {
        Some(p) => match p.probed_prereqs {
            Some(t) => t.direct(),
            None => false,
        },
        None => false,
    };
    let gated = !e.lifetime_blocked() && !e.direct() && features.len() > 0 && unlocks;
    DiagnosisView {
        external: e.prereqs.external_absent(),
        direct_missing: e.missing(),
        missing: e.prereqs.merged(wrapper_traits(ws)).our_missing(e.lifetime_blocked()),
        wrappers: wrapper_names(ws),
        owner: match probe {
            Some(p) => p.feature_crate,
            None => source,
        },
        features,
        lifetime_blocked: e.lifetime_blocked(),
        direct: e.direct(),
        gated,
        orphan: !e.lifetime_blocked() && !e.direct() && !gated,
        indirect: any_complete(ws),
    }
}

impl DiagnosisView {
    /// Nothing of ours is missing, directly or through wrappers.
    pub open spec fn ours(self) -> bool {
        self.missing.len() == 0
    }

    /// A direct `ElicitComplete` impl is legal and nothing stands for it.
    pub open spec fn gap(self) -> bool {
        self.direct && !self.indirect
    }

    /// The state of the type.
    pub open spec fn row_kind(self) -> ImplRowKind {
        if self.indirect {
            ImplRowKind::Covered
        } else if !self.ours() {
            ImplRowKind::MissingOurTraits
        } else if self.gap() {
            ImplRowKind::ReadyForElicitComplete
        } else if self.gated {
            ImplRowKind::FeatureGatedExternal
        } else {
            ImplRowKind::ExternallyBlocked
        }
    }
}

/// The gap that a state stands for.
pub open spec fn gap_of(kind: ImplRowKind) -> Option<ImplGapKind> {
    match kind {
        ImplRowKind::MissingOurTraits => Some(ImplGapKind::MissingOurTraits),
        ImplRowKind::ReadyForElicitComplete => Some(ImplGapKind::ReadyForElicitComplete),
        ImplRowKind::FeatureGatedExternal => Some(ImplGapKind::FeatureGatedExternal),
        ImplRowKind::Covered => None,
        ImplRowKind::ExternallyBlocked => None,
    }
}

/// What covers a type: itself, wrappers, both or nothing.
pub open spec fn provider(d: DiagnosisView) -> Seq<char> {
    let direct = d.direct_missing.len() == 0;
    let wrapped = d.indirect || (d.ours() && !direct);
    if direct && wrapped {
        "hybrid"@
    } else if direct {
        "direct"@
    } else if wrapped {
        "wrapper"@
    } else {
        ""@
    }
}

/// A note on the wrappers, if there are any.
pub open spec fn wrapper_note(d: DiagnosisView) -> Seq<char> {
    if d.wrappers.len() == 0 {
        ""@
    } else {
        " Known wrappers for indirect coverage: "@ + joined(d.wrappers, ", "@) + "."@
    }
}

/// What is to be done about missing traits of our own.
pub open spec fn missing_action(e: ImplEntryView, d: DiagnosisView) -> Seq<char> {
    if d.wrappers.len() > 0 && d.missing.len() < d.direct_missing.len() {
        "Finish indirect coverage for `"@ + e.type_path + "` by completing wrapper-provided traits: "@ + joined(d.missing, ", "@) + "."@ + wrapper_note(d)
    } else if d.direct {
        "Add direct support traits to `"@ + e.type_path + "`: "@ + joined(d.missing, ", "@) + "; then add `impl ElicitComplete`"@ + wrapper_note(d)
    } else if d.gated {
        "Add support traits to `"@ + e.type_path + "`: "@ + joined(d.missing, ", "@) + "; also enable `"@ + d.owner + "` features: "@ + joined(d.features, ", "@) + "."@ + wrapper_note(d)
    } else {
        "Add our traits to `"@ + e.type_path + "`: "@ + joined(d.missing, ", "@) + "; external blockers remain: "@ + joined(d.external, ", "@) + "."@ + wrapper_note(d)
    }
}

/// What is to be done about a type.
pub open spec fn impl_action(e: ImplEntryView, d: DiagnosisView) -> Seq<char> {
    match d.row_kind() {
        ImplRowKind::Covered => ""@,
        ImplRowKind::MissingOurTraits => missing_action(e, d),
        ImplRowKind::ReadyForElicitComplete => "Add `impl ElicitComplete for "@ + e.type_path + " {}` in elicitation crate"@,
        ImplRowKind::FeatureGatedExternal => "Enable additional `"@ + d.owner + "` features in the workspace: "@ + joined(d.features, ", "@) + "; then re-check whether `ElicitComplete` becomes legal for `"@ + e.type_path + "`"@,
        ImplRowKind::ExternallyBlocked => "`"@ + e.type_path + "` is everything-but complete. Do not flag missing `ElicitComplete`; direct impl is blocked by upstream traits: "@ + joined(d.external, ", "@),
    }
}

/// What keeps a type from being complete.
pub open spec fn blocked_reason(d: DiagnosisView) -> Seq<char> {
    if d.missing.len() < d.direct_missing.len() {
        "wrapper coverage reduces direct trait gaps; remaining uncovered traits: "@ + joined(d.missing, ", "@) + " (wrappers: "@ + joined(d.wrappers, ", "@) + ")"@
    } else if d.lifetime_blocked {
        "lifetime-bound type: direct `ElicitComplete` is illegal because `Elicitation` requires `'static`"@
    } else if d.gated {
        "workspace is not enabling candidate `"@ + d.owner + "` features that may unlock external traits: "@ + joined(d.features, ", "@)
    } else if d.orphan {
        "orphan rule blocks direct `ElicitComplete` until upstream provides: "@ + joined(d.external, ", "@)
    } else {
        ""@
    }
}

/// The diagnosis of a type. A type with an `ElicitComplete` impl of its own is covered,
/// whatever else is known of it.
pub open spec fn assessment(
    source: Seq<char>,
    e: ImplEntryView,
    probe: Option<TypeFeatureProbeView>,
    ws: Seq<WrapperView>,
) -> ImplAssessmentView {
    let d = diagnosis(source, e, probe, ws);
    if e.elicit_impl.complete() {
        ImplAssessmentView {
            row_kind: ImplRowKind::Covered,
            primary_gap_kind: None,
            missing_external_traits: ""@,
            missing_our_traits: ""@,
            direct_missing_our_traits: ""@,
            our_traits_complete: true,
            direct_our_traits_complete: true,
            covered_indirectly: false,
            coverage_provider: "direct"@,
            wrapper_paths: joined(d.wrappers, ";"@),
            can_be_direct: e.direct(),
            elicit_complete_gap: false,
            feature_gated_external: false,
            blocked_by_orphan_rule: false,
            blocked_reason: ""@,
            feature_owner_crate: ""@,
            candidate_unlock_features: ""@,
            action: ""@,
        }
    } else {
        ImplAssessmentView {
            row_kind: d.row_kind(),
            primary_gap_kind: gap_of(d.row_kind()),
            missing_external_traits: joined(d.external, ";"@),
            missing_our_traits: joined(d.missing, ";"@),
            direct_missing_our_traits: joined(d.direct_missing, ";"@),
            our_traits_complete: d.ours(),
            direct_our_traits_complete: d.direct_missing.len() == 0,
            covered_indirectly: any_covers(ws),
            coverage_provider: provider(d),
            wrapper_paths: joined(d.wrappers, ";"@),
            can_be_direct: d.direct,
            elicit_complete_gap: d.gap(),
            feature_gated_external: d.gated,
            blocked_by_orphan_rule: d.orphan,
            blocked_reason: blocked_reason(d),
            feature_owner_crate: d.owner,
            candidate_unlock_features: if d.gated {
                joined(d.features, ";"@)
            } else {
                ""@
            },
            action: impl_action(e, d),
        }
    }
}

/// What the diagnosis of a type rests on.
struct Diagnosis {
    external: Vec<String>,
    direct_missing: Vec<&'static str>,
    missing: Vec<&'static str>,
    wrappers: Vec<String>,
    owner: String,
    features: Vec<String>,
    lifetime_blocked: bool,
    direct: bool,
    gated: bool,
    orphan: bool,
    indirect: bool,
}

impl View for Diagnosis {
    type V = DiagnosisView;

    closed spec fn view(&self) -> DiagnosisView {
        DiagnosisView {
            external: views(self.external@),
            direct_missing: views(self.direct_missing@),
            missing: views(self.missing@),
            wrappers: views(self.wrappers@),
            owner: self.owner@,
            features: views(self.features@),
            lifetime_blocked: self.lifetime_blocked,
            direct: self.direct,
            gated: self.gated,
            orphan: self.orphan,
            indirect: self.indirect,
        }
    }
}

/// What a list of wrappers amounts to: their names, their traits together, whether one is
/// complete, and whether one covers what it wraps.
fn sum_up_wrappers(ws: &Vec<WrapperCoverage>) -> (r: (Vec<String>, TraitPrereqs, bool, bool))
    ensures
        views(r.0@) == wrapper_names(views(ws@)),
        r.1 == wrapper_traits(views(ws@)),
        r.2 == any_complete(views(ws@)),
        r.3 == any_covers(views(ws@)),
{
    let ghost all = views(ws@);
    let ghost all_names = wrapper_names(all);
    let mut names: Vec<String> = Vec::new();
    let mut traits = TraitPrereqs::default();
    let mut complete = false;
    let mut covers = false;
    let mut i: usize = 0;
    while i < ws.len()
        invariant
            i <= ws.len(),
            all == views(ws@),
            all_names == wrapper_names(all),
            views(names@) == all_names.take(i as int),
            traits == wrapper_traits(all.take(i as int)),
            complete == exists|j: int| 0 <= j < i && (#[trigger] all[j]).wrapper_elicit_complete,
            covers == exists|j: int|
                0 <= j < i && ((#[trigger] all[j]).wrapper_elicit_complete
                    || all[j].wrapper_prereqs.ours()),
        decreases ws.len() - i,
    {
        let ghost held = views(names@);
        proof {
            assert(all.take(i + 1).drop_last() =~= all.take(i as int));
            assert(all.take(i + 1).last() == ws@[i as int]@);
            assert(all[i as int] == ws@[i as int]@);
        }
        names.push(ws[i].wrapper_path.clone());
        traits.merge(&ws[i].wrapper_prereqs);
        if ws[i].wrapper_elicit_complete {
            complete = true;
        }
        if ws[i].wrapper_elicit_complete || ws[i].wrapper_prereqs.our_traits_complete() {
            covers = true;
        }
        proof {
            assert(views(names@) =~= held.push(all_names[i as int]));
            assert(all_names.take(i + 1) =~= all_names.take(i as int).push(all_names[i as int]));
        }
        i += 1;
    }
    proof {
        assert(all.take(i as int) =~= all);
        assert(all_names.take(i as int) =~= all_names);
    }
    (names, traits, complete, covers)
}

/// The view of an optional reference.
pub open spec fn opt_probe(o: Option<&TypeFeatureProbe>) -> Option<TypeFeatureProbeView> {
    match o {
        Some(p) => Some(p@),
        None => None,
    }
}

/// The wrappers of a type, none where no list is given.
pub open spec fn wrappers_given(o: Option<&Vec<WrapperCoverage>>) -> Seq<WrapperView> {
    match o {
        Some(ws) => views(ws@),
        None => seq![],
    }
}

/// Every trait of ours that the type could have is there, on the type itself or on a wrapper, or
/// a wrapper is complete.
pub open spec fn has_our_traits(e: ImplEntryView, ws: Seq<WrapperView>) -> bool {
    any_complete(ws) || e.prereqs.merged(wrapper_traits(ws)).our_missing(e.lifetime_blocked()).len()
        == 0
}

/// Whether every trait of ours that a type could have is there, on the type itself or on a
/// wrapper, or a wrapper is complete.
pub fn covers_our_traits(entry: &ImplCoverageEntry, wrappers: Option<&Vec<WrapperCoverage>>) -> (r: bool)
    ensures
        r == has_our_traits(entry@, wrappers_given(wrappers)),
{
    let mut traits = entry.prereqs;
    let mut complete = false;
    if let Some(ws) = wrappers {
        let (_, more, any, _) = sum_up_wrappers(ws);
        traits.merge(&more);
        complete = any;
    } else {
        assert(traits.merged(TraitPrereqs::none()) == traits);
    }
    let missing = traits.missing_unblocked(entry.lifetime_blocks_elicitation());
    assert(views(missing@).len() == missing@.len());
    complete || missing.len() == 0
}

fn diagnose(
    source_crate: &str,
    entry: &ImplCoverageEntry,
    feature_probe: Option<&TypeFeatureProbe>,
    names: Vec<String>,
    traits: TraitPrereqs,
    indirect: bool,
    Ghost(ws): Ghost<Seq<WrapperView>>,
) -> (r: Diagnosis)
    requires
        views(names@) == wrapper_names(ws),
        traits == wrapper_traits(ws),
        indirect == any_complete(ws),
    ensures
        r@ == diagnosis(source_crate@, entry@, opt_probe(feature_probe), ws),
{
    let lifetime_blocked = entry.lifetime_blocks_elicitation();
    let direct = entry.can_be_direct();
    let mut features: Vec<String> = Vec::new();
    let mut owner = source_crate.to_string();
    let mut unlocks = false;
    assert(views(features@) =~= seq![]);
    if let Some(p) = feature_probe {
        features = crate::inventory::copy_texts(&p.candidate_unlock_features);
        owner = p.feature_crate.clone();
        if let Some(t) = &p.probed_prereqs {
            unlocks = t.can_be_direct();
        }
    }
    let mut all = entry.prereqs;
    all.merge(&traits);
    assert(views(features@).len() == features@.len());
    let gated = !lifetime_blocked && !direct && features.len() > 0 && unlocks;
    Diagnosis {
        external: entry.prereqs.external_blockers_absent(),
        direct_missing: entry.effective_missing_our_traits(),
        missing: all.missing_unblocked(lifetime_blocked),
        wrappers: names,
        owner,
        features,
        lifetime_blocked,
        direct,
        gated,
        orphan: !lifetime_blocked && !direct && !gated,
        indirect,
    }
}

fn determine_row_kind(d: &Diagnosis) -> (r: ImplRowKind)
    ensures
        r == d@.row_kind(),
{
    assert(views(d.missing@).len() == d.missing@.len());
    if d.indirect {
        ImplRowKind::Covered
    } else if d.missing.len() > 0 {
        ImplRowKind::MissingOurTraits
    } else if d.direct {
        ImplRowKind::ReadyForElicitComplete
    } else if d.gated {
        ImplRowKind::FeatureGatedExternal
    } else {
        ImplRowKind::ExternallyBlocked
    }
}

fn determine_gap(kind: ImplRowKind) -> (r: Option<ImplGapKind>)
    ensures
        r == gap_of(kind),
{
    match kind {
        ImplRowKind::MissingOurTraits => Some(ImplGapKind::MissingOurTraits),
        ImplRowKind::ReadyForElicitComplete => Some(ImplGapKind::ReadyForElicitComplete),
        ImplRowKind::FeatureGatedExternal => Some(ImplGapKind::FeatureGatedExternal),
        ImplRowKind::Covered => None,
        ImplRowKind::ExternallyBlocked => None,
    }
}

fn determine_coverage_provider(d: &Diagnosis) -> (r: String)
    ensures
        r@ == provider(d@),
{
    assert(views(d.missing@).len() == d.missing@.len());
    assert(views(d.direct_missing@).len() == d.direct_missing@.len());
    let direct = d.direct_missing.len() == 0;
    let wrapped = d.indirect || (d.missing.len() == 0 && !direct);
    if direct && wrapped {
        "hybrid".to_string()
    } else if direct {
        "direct".to_string()
    } else if wrapped {
        "wrapper".to_string()
    } else {
        "".to_string()
    }
}

fn build_missing_our_traits_action(path: &str, d: &Diagnosis, Ghost(e): Ghost<ImplEntryView>) -> (r: String)
    requires
        path@ == e.type_path,
    ensures
        r@ == missing_action(e, d@),
{
    let ours = join_strs(&d.missing, ", ");
    let external = join(&d.external, ", ");
    let features = join(&d.features, ", ");
    assert(views(d.wrappers@).len() == d.wrappers@.len());
    assert(views(d.missing@).len() == d.missing@.len());
    assert(views(d.direct_missing@).len() == d.direct_missing@.len());
    let note = if d.wrappers.len() == 0 {
        "".to_string()
    } else {
        let mut out = " Known wrappers for indirect coverage: ".to_string();
        out.append(join(&d.wrappers, ", ").as_str());
        out.append(".");
        out
    };
    if d.wrappers.len() > 0 && d.missing.len() < d.direct_missing.len() {
        let mut out = "Finish indirect coverage for `".to_string();
        out.append(path);
        out.append("` by completing wrapper-provided traits: ");
        out.append(ours.as_str());
        out.append(".");
        out.append(note.as_str());
        out
    } else if d.direct {
        let mut out = "Add direct support traits to `".to_string();
        out.append(path);
        out.append("`: ");
        out.append(ours.as_str());
        out.append("; then add `impl ElicitComplete`");
        out.append(note.as_str());
        out
    } else if d.gated {
        let mut out = "Add support traits to `".to_string();
        out.append(path);
        out.append("`: ");
        out.append(ours.as_str());
        out.append("; also enable `");
        out.append(d.owner.as_str());
        out.append("` features: ");
        out.append(features.as_str());
        out.append(".");
        out.append(note.as_str());
        out
    } else {
        let mut out = "Add our traits to `".to_string();
        out.append(path);
        out.append("`: ");
        out.append(ours.as_str());
        out.append("; external blockers remain: ");
        out.append(external.as_str());
        out.append(".");
        out.append(note.as_str());
        out
    }
}

fn build_impl_action(path: &str, kind: ImplRowKind, d: &Diagnosis, Ghost(e): Ghost<ImplEntryView>) -> (r: String)
    requires
        path@ == e.type_path,
        kind == d@.row_kind(),
    ensures
        r@ == impl_action(e, d@),
{
    let external = join(&d.external, ", ");
    let features = join(&d.features, ", ");
    match kind {
        ImplRowKind::Covered => "".to_string(),
        ImplRowKind::MissingOurTraits => build_missing_our_traits_action(path, d, Ghost(e)),
        ImplRowKind::ReadyForElicitComplete => {
            let mut out = "Add `impl ElicitComplete for ".to_string();
            out.append(path);
            out.append(" {}` in elicitation crate");
            out
        },
        ImplRowKind::FeatureGatedExternal => {
            let mut out = "Enable additional `".to_string();
            out.append(d.owner.as_str());
            out.append("` features in the workspace: ");
            out.append(features.as_str());
            out.append("; then re-check whether `ElicitComplete` becomes legal for `");
            out.append(path);
            out.append("`");
            out
        },
        ImplRowKind::ExternallyBlocked => {
            let mut out = "`".to_string();
            out.append(path);
            out.append("` is everything-but complete. Do not flag missing `ElicitComplete`; direct impl is blocked by upstream traits: ");
            out.append(external.as_str());
            out
        },
    }
}

fn build_impl_blocked_reason(d: &Diagnosis) -> (r: String)
    ensures
        r@ == blocked_reason(d@),
{
    let ours = join_strs(&d.missing, ", ");
    let wrappers = join(&d.wrappers, ", ");
    let external = join(&d.external, ", ");
    let features = join(&d.features, ", ");
    assert(views(d.missing@).len() == d.missing@.len());
    assert(views(d.direct_missing@).len() == d.direct_missing@.len());
    if d.missing.len() < d.direct_missing.len() {
        let mut out = "wrapper coverage reduces direct trait gaps; remaining uncovered traits: ".to_string();
        out.append(ours.as_str());
        out.append(" (wrappers: ");
        out.append(wrappers.as_str());
        out.append(")");
        out
    } else if d.lifetime_blocked {
        "lifetime-bound type: direct `ElicitComplete` is illegal because `Elicitation` requires `'static`".to_string()
    } else if d.gated {
        let mut out = "workspace is not enabling candidate `".to_string();
        out.append(d.owner.as_str());
        out.append("` features that may unlock external traits: ");
        out.append(features.as_str());
        out
    } else if d.orphan {
        let mut out = "orphan rule blocks direct `ElicitComplete` until upstream provides: ".to_string();
        out.append(external.as_str());
        out
    } else {
        "".to_string()
    }
}

/// The diagnosis of one row of an impl report, with what a feature probe and the wrappers of
/// the type contribute.
pub fn assess_impl_entry(
    source_crate: &str,
    entry: &ImplCoverageEntry,
    feature_probe: Option<&TypeFeatureProbe>,
    wrappers: Option<&Vec<WrapperCoverage>>,
) -> (r: ImplRowAssessment)
    ensures
        r@ == assessment(
            source_crate@,
            entry@,
            opt_probe(feature_probe),
            wrappers_given(wrappers),
        ),
{
    let ghost ws = wrappers_given(wrappers);
    let (names, traits, indirect, covers) = match wrappers {
        Some(list) => sum_up_wrappers(list),
        None => {
            let none: Vec<WrapperCoverage> = Vec::new();
            assert(views(none@) =~= seq![]);
            sum_up_wrappers(&none)
        },
    };
    let wrapper_paths = join(&names, ";");
    if matches!(entry.elicit_impl, ImplStatus::Complete | ImplStatus::CompleteFactory) {
        return ImplRowAssessment {
            row_kind: ImplRowKind::Covered,
            primary_gap_kind: None,
            missing_external_traits: "".to_string(),
            missing_our_traits: "".to_string(),
            direct_missing_our_traits: "".to_string(),
            our_traits_complete: true,
            direct_our_traits_complete: true,
            covered_indirectly: false,
            coverage_provider: "direct".to_string(),
            wrapper_paths,
            can_be_direct: entry.can_be_direct(),
            elicit_complete_gap: false,
            feature_gated_external: false,
            blocked_by_orphan_rule: false,
            blocked_reason: "".to_string(),
            feature_owner_crate: "".to_string(),
            candidate_unlock_features: "".to_string(),
            action: "".to_string(),
        };
    }
    let d = diagnose(source_crate, entry, feature_probe, names, traits, indirect, Ghost(ws));
    let row_kind = determine_row_kind(&d);
    assert(views(d.missing@).len() == d.missing@.len());
    assert(views(d.direct_missing@).len() == d.direct_missing@.len());
    let action = build_impl_action(entry.type_path.as_str(), row_kind, &d, Ghost(entry@));
    ImplRowAssessment {
        row_kind,
        primary_gap_kind: determine_gap(row_kind),
        missing_external_traits: join(&d.external, ";"),
        missing_our_traits: join_strs(&d.missing, ";"),
        direct_missing_our_traits: join_strs(&d.direct_missing, ";"),
        our_traits_complete: d.missing.len() == 0,
        direct_our_traits_complete: d.direct_missing.len() == 0,
        covered_indirectly: covers,
        coverage_provider: determine_coverage_provider(&d),
        wrapper_paths,
        can_be_direct: d.direct,
        elicit_complete_gap: d.direct && !d.indirect,
        feature_gated_external: d.gated,
        blocked_by_orphan_rule: d.orphan,
        blocked_reason: build_impl_blocked_reason(&d),
        candidate_unlock_features: if d.gated {
            join(&d.features, ";")
        } else {
            "".to_string()
        },
        feature_owner_crate: d.owner,
        action,
    }
}

/// The rank of a gap in the list: our traits first, then the marker, then features.
pub open spec fn gap_rank(kind: ImplGapKind) -> int {
    match kind {
        ImplGapKind::MissingOurTraits => 0,
        ImplGapKind::ReadyForElicitComplete => 1,
        ImplGapKind::FeatureGatedExternal => 2,
    }
}

fn gap_kind_order(kind: ImplGapKind) -> (r: u8)
    ensures
        r == gap_rank(kind),
{
    match kind {
        ImplGapKind::MissingOurTraits => 0,
        ImplGapKind::ReadyForElicitComplete => 1,
        ImplGapKind::FeatureGatedExternal => 2,
    }
}

impl Ranked for ImplGapEntry {
    open spec fn key(v: ImplGapView) -> Key {
        (gap_rank(v.gap_kind), seq![v.source_crate, v.type_path])
    }

    fn before(&self, other: &Self) -> (r: bool) {
        ranked_pair_before(
            gap_kind_order(self.gap_kind),
            self.source_crate.as_str(),
            self.type_path.as_str(),
            gap_kind_order(other.gap_kind),
            other.source_crate.as_str(),
            other.type_path.as_str(),
        )
    }
}

/// The probes of each crate, by crate and type.
pub type ProbeTables = Vec<(String, Vec<(String, TypeFeatureProbe)>)>;

/// The probe for a type in a table of its crate.
pub open spec fn probe_in(table: Seq<(String, TypeFeatureProbe)>, path: Seq<char>) -> Option<
    TypeFeatureProbeView,
> {
    match value_of(keyed(table), path) {
        Some(p) => Some(p@),
        None => None,
    }
}

/// The probe for a type of a crate.
pub open spec fn probe_for(
    tables: Seq<(String, Vec<(String, TypeFeatureProbe)>)>,
    source: Seq<char>,
    path: Seq<char>,
) -> Option<TypeFeatureProbeView> {
    match value_of(keyed(tables), source) {
        Some(table) => probe_in(table@, path),
        None => None,
    }
}

/// The wrappers of a type.
pub open spec fn wrappers_for(map: Seq<(String, Vec<WrapperCoverage>)>, path: Seq<char>) -> Seq<WrapperView> {
    match value_of(wrapper_views(map), path) {
        Some(ws) => ws,
        None => seq![],
    }
}

/// The gap that a type leaves, if it has no `ElicitComplete` impl and something can be done.
pub open spec fn impl_gap(
    source: Seq<char>,
    e: ImplEntryView,
    probe: Option<TypeFeatureProbeView>,
    ws: Seq<WrapperView>,
) -> Option<ImplGapView> {
    let a = assessment(source, e, probe, ws);
    match a.primary_gap_kind {
        Some(kind) => if e.elicit_impl is Missing {
            Some(
                ImplGapView {
                    source_crate: source,
                    type_path: e.type_path,
                    type_kind: e.type_kind,
                    is_generic: e.is_generic,
                    gap_kind: kind,
                    missing_external_traits: a.missing_external_traits,
                    missing_our_traits: a.missing_our_traits,
                    our_traits_complete: a.our_traits_complete,
                    coverage_provider: a.coverage_provider,
                    wrapper_paths: a.wrapper_paths,
                    can_be_direct: a.can_be_direct,
                    elicit_complete_gap: a.elicit_complete_gap,
                    feature_gated_external: a.feature_gated_external,
                    blocked_by_orphan_rule: a.blocked_by_orphan_rule,
                    feature_owner_crate: a.feature_owner_crate,
                    candidate_unlock_features: a.candidate_unlock_features,
                    action: a.action,
                },
            )
        } else {
            None
        },
        None => None,
    }
}

/// The gaps of the types of one report.
pub open spec fn report_gaps(
    source: Seq<char>,
    entries: Seq<ImplEntryView>,
    tables: Seq<(String, Vec<(String, TypeFeatureProbe)>)>,
    map: Seq<(String, Vec<WrapperCoverage>)>,
) -> Seq<ImplGapView>
    decreases entries.len(),
{
    if entries.len() == 0 {
        seq![]
    } else {
        let rest = report_gaps(source, entries.drop_last(), tables, map);
        let e = entries.last();
        match impl_gap(
            source,
            e,
            probe_for(tables, source, e.type_path),
            wrappers_for(map, e.type_path),
        ) {
            Some(g) => rest.push(g),
            None => rest,
        }
    }
}

/// The gaps of the types of several reports.
pub open spec fn all_gaps(
    pairs: Seq<(&str, &ImplCoverageReport)>,
    tables: Seq<(String, Vec<(String, TypeFeatureProbe)>)>,
    map: Seq<(String, Vec<WrapperCoverage>)>,
) -> Seq<ImplGapView>
    decreases pairs.len(),
{
    if pairs.len() == 0 {
        seq![]
    } else {
        all_gaps(pairs.drop_last(), tables, map) + report_gaps(
            pairs.last().0@,
            views(pairs.last().1.entries@),
            tables,
            map,
        )
    }
}

/// The wrappers of a type.
pub fn find_wrappers<'a>(map: &'a WrapperCoverageMap, path: &str) -> (r: Option<&'a Vec<WrapperCoverage>>)
    ensures
        wrappers_given(r) == wrappers_for(map@, path@),
{
    proof {
        lemma_same_keys(keyed(map@), wrapper_views(map@), path@);
    }
    match find_key(map, path) {
        Some(i) => Some(&map[i].1),
        None => None,
    }
}

fn find_probe<'a>(tables: &'a ProbeTables, source: &str, path: &str) -> (r: Option<&'a TypeFeatureProbe>)
    ensures
        opt_probe(r) == probe_for(tables@, source@, path@),
{
    match find_value(tables, source) {
        Some(table) => find_value(table, path),
        None => None,
    }
}

fn classify_impl_gap(
    source_crate: &str,
    entry: &ImplCoverageEntry,
    feature_probe: Option<&TypeFeatureProbe>,
    wrappers: Option<&Vec<WrapperCoverage>>,
) -> (r: Option<ImplGapEntry>)
    ensures
        opt_view(r) == impl_gap(
            source_crate@,
            entry@,
            opt_probe(feature_probe),
            wrappers_given(wrappers),
        ),
{
    if !matches!(entry.elicit_impl, ImplStatus::Missing) {
        return None;
    }
    let a = assess_impl_entry(source_crate, entry, feature_probe, wrappers);
    match a.primary_gap_kind {
        None => None,
        Some(gap_kind) => Some(
            ImplGapEntry {
                source_crate: source_crate.to_string(),
                type_path: entry.type_path.clone(),
                type_kind: entry.type_kind,
                is_generic: entry.is_generic,
                gap_kind,
                missing_external_traits: a.missing_external_traits,
                missing_our_traits: a.missing_our_traits,
                our_traits_complete: a.our_traits_complete,
                coverage_provider: a.coverage_provider,
                wrapper_paths: a.wrapper_paths,
                can_be_direct: a.can_be_direct,
                elicit_complete_gap: a.elicit_complete_gap,
                feature_gated_external: a.feature_gated_external,
                blocked_by_orphan_rule: a.blocked_by_orphan_rule,
                feature_owner_crate: a.feature_owner_crate,
                candidate_unlock_features: a.candidate_unlock_features,
                action: a.action,
            },
        ),
    }
}

fn push_report_gaps(
    source_crate: &str,
    report: &ImplCoverageReport,
    tables: &ProbeTables,
    map: &WrapperCoverageMap,
    out: &mut Vec<ImplGapEntry>,
    Ghost(start): Ghost<Seq<ImplGapView>>,
)
    requires
        views(old(out)@) == firsts::<ImplGapEntry>(start),
    ensures
        views(final(out)@) == firsts::<ImplGapEntry>(
            start + report_gaps(source_crate@, views(report.entries@), tables@, map@),
        ),
{
    let ghost all = views(report.entries@);
    let mut i: usize = 0;
    assert(start + report_gaps(source_crate@, all.take(0), tables@, map@) =~= start);
    while i < report.entries.len()
        invariant
            i <= report.entries.len(),
            all == views(report.entries@),
            views(out@) == firsts::<ImplGapEntry>(
                start + report_gaps(source_crate@, all.take(i as int), tables@, map@),
            ),
        decreases report.entries.len() - i,
    {
        let ghost rest = report_gaps(source_crate@, all.take(i as int), tables@, map@);
        proof {
            assert(all.take(i + 1).drop_last() =~= all.take(i as int));
            assert(all.take(i + 1).last() == report.entries@[i as int]@);
        }
        let entry = &report.entries[i];
        let probe = find_probe(tables, source_crate, entry.type_path.as_str());
        let wrappers = find_wrappers(map, entry.type_path.as_str());
        if let Some(gap) = classify_impl_gap(source_crate, entry, probe, wrappers) {
            assert((start + rest.push(gap@)).drop_last() =~= start + rest);
            push_first(out, gap);
        }
        i += 1;
    }
    proof {
        assert(all.take(i as int) =~= all);
    }
}

/// The gaps of several crates, by kind, crate and path. Types that are covered are no gaps, nor
/// are those that lack nothing but what the orphan rule keeps us from adding. A type of a crate
/// is listed once, as it is first found.
pub fn build_impl_gaps(
    pairs: &Vec<(&str, &ImplCoverageReport)>,
    type_feature_probes: &ProbeTables,
    wrapper_coverage: &WrapperCoverageMap,
) -> (r: Vec<ImplGapEntry>)
    ensures
        views(r@) == sorted::<ImplGapEntry>(
            firsts::<ImplGapEntry>(all_gaps(pairs@, type_feature_probes@, wrapper_coverage@)),
        ),
        forall|i: int, j: int|
            0 <= i < j < r@.len() ==> ((#[trigger] r@[i]).source_crate@, r@[i].type_path@) != ((
            #[trigger] r@[j]).source_crate@, r@[j].type_path@),
{
    let mut entries: Vec<ImplGapEntry> = Vec::new();
    let mut i: usize = 0;
    assert(views(entries@) =~= seq![]);
    while i < pairs.len()
        invariant
            i <= pairs.len(),
            views(entries@) == firsts::<ImplGapEntry>(
                all_gaps(pairs@.take(i as int), type_feature_probes@, wrapper_coverage@),
            ),
        decreases pairs.len() - i,
    {
        proof {
            assert(pairs@.take(i + 1).drop_last() =~= pairs@.take(i as int));
            assert(pairs@.take(i + 1).last() == pairs@[i as int]);
        }
        push_report_gaps(
            pairs[i].0,
            pairs[i].1,
            type_feature_probes,
            wrapper_coverage,
            &mut entries,
            Ghost(all_gaps(pairs@.take(i as int), type_feature_probes@, wrapper_coverage@)),
        );
        i += 1;
    }
    let ghost gaps = all_gaps(pairs@, type_feature_probes@, wrapper_coverage@);
    proof {
        assert(pairs@.take(i as int) =~= pairs@);
    }
    let r = sort_ranked(entries);
    proof {
        law_impl_gaps_once(gaps);
        assert forall|i: int, j: int| 0 <= i < j < r@.len() implies ((
        #[trigger] r@[i]).source_crate@, r@[i].type_path@) != ((#[trigger] r@[j]).source_crate@, r@[j].type_path@) by {
            assert(views(r@)[i] == r@[i]@ && views(r@)[j] == r@[j]@);
        }
    }
    r
}

impl Identified for ImplGapEntry {
    type Identity = (Seq<char>, Seq<char>);

    open spec fn identity(v: ImplGapView) -> (Seq<char>, Seq<char>) {
        (v.source_crate, v.type_path)
    }
}

impl Recognized for ImplGapEntry {
    fn is_same(&self, other: &Self) -> (r: bool) {
        str_eq(self.source_crate.as_str(), other.source_crate.as_str()) && str_eq(
            self.type_path.as_str(),
            other.type_path.as_str(),
        )
    }
}

/// No two entries are about the same type.
pub open spec fn entries_differ(entries: Seq<ImplEntryView>) -> bool {
    forall|i: int, j: int|
        0 <= i < j < entries.len() ==> (#[trigger] entries[i]).type_path != (
        #[trigger] entries[j]).type_path
}

/// An entry is about the type at a path.
spec fn names_path(entries: Seq<ImplEntryView>, path: Seq<char>) -> bool {
    exists|i: int| 0 <= i < entries.len() && (#[trigger] entries[i]).type_path == path
}

/// Of a report without two entries about the same type every gap is listed.
pub proof fn law_report_gaps_stay(
    source: Seq<char>,
    entries: Seq<ImplEntryView>,
    tables: Seq<(String, Vec<(String, TypeFeatureProbe)>)>,
    map: Seq<(String, Vec<WrapperCoverage>)>,
)
    requires
        entries_differ(entries),
    ensures
        firsts::<ImplGapEntry>(report_gaps(source, entries, tables, map)) == report_gaps(
            source,
            entries,
            tables,
            map,
        ),
{
    lemma_report_gaps_distinct(source, entries, tables, map);
    law_distinct_stays::<ImplGapEntry>(report_gaps(source, entries, tables, map));
}

proof fn lemma_report_gaps_distinct(
    source: Seq<char>,
    entries: Seq<ImplEntryView>,
    tables: Seq<(String, Vec<(String, TypeFeatureProbe)>)>,
    map: Seq<(String, Vec<WrapperCoverage>)>,
)
    requires
        entries_differ(entries),
    ensures
        is_distinct::<ImplGapEntry>(report_gaps(source, entries, tables, map)),
        forall|i: int|
            0 <= i < report_gaps(source, entries, tables, map).len() ==> names_path(
                entries,
                (#[trigger] report_gaps(source, entries, tables, map)[i]).type_path,
            ),
    decreases entries.len(),
{
    if entries.len() > 0 {
        let front = entries.drop_last();
        let last = entries.len() - 1;
        assert forall|i: int, j: int| 0 <= i < j < front.len() implies (
        #[trigger] front[i]).type_path != (#[trigger] front[j]).type_path by {
            assert(front[i] == entries[i] && front[j] == entries[j]);
        }
        lemma_report_gaps_distinct(source, front, tables, map);
        let a = report_gaps(source, front, tables, map);
        let b = report_gaps(source, entries, tables, map);
        assert forall|i: int| 0 <= i < b.len() implies names_path(
            entries,
            (#[trigger] b[i]).type_path,
        ) by {
            if i < a.len() {
                assert(b[i] == a[i]);
                let p = choose|p: int|
                    0 <= p < front.len() && (#[trigger] front[p]).type_path == a[i].type_path;
                assert(entries[p] == front[p]);
            } else {
                assert(entries[last].type_path == b[i].type_path);
            }
        }
        assert forall|i: int, j: int| 0 <= i < j < b.len() implies ImplGapEntry::identity(
            #[trigger] b[i],
        ) != ImplGapEntry::identity(#[trigger] b[j]) by {
            assert(b[i] == a[i]);
            if j < a.len() {
                assert(b[j] == a[j]);
            } else {
                assert(names_path(front, a[i].type_path));
                let p = choose|p: int|
                    0 <= p < front.len() && (#[trigger] front[p]).type_path == a[i].type_path;
                assert(entries[p] == front[p]);
                assert(entries[last].type_path == b[j].type_path);
            }
        }
    }
}

/// A list of impl gaps names a type of a crate once.
pub proof fn law_impl_gaps_once(gaps: Seq<ImplGapView>)
    ensures
        ({
            let list = sorted::<ImplGapEntry>(firsts::<ImplGapEntry>(gaps));
            forall|i: int, j: int|
                0 <= i < j < list.len() ==> ((#[trigger] list[i]).source_crate, list[i].type_path)
                    != ((#[trigger] list[j]).source_crate, list[j].type_path)
        }),
{
    let list = sorted::<ImplGapEntry>(firsts::<ImplGapEntry>(gaps));
    law_firsts::<ImplGapEntry>(gaps, (seq![], seq![]));
    law_sorted_distinct::<ImplGapEntry>(firsts::<ImplGapEntry>(gaps));
    assert forall|i: int, j: int| 0 <= i < j < list.len() implies ((
    #[trigger] list[i]).source_crate, list[i].type_path) != ((#[trigger] list[j]).source_crate, list[j].type_path) by {
        assert(ImplGapEntry::identity(list[i]) != ImplGapEntry::identity(list[j]));
    }
}

/// A type that lacks only what the orphan rule keeps us from adding is no gap, and neither is
/// one with a complete wrapper.
pub proof fn law_blocked_or_wrapped_is_no_gap(
    source: Seq<char>,
    e: ImplEntryView,
    probe: Option<TypeFeatureProbeView>,
    ws: Seq<WrapperView>,
)
    ensures
        any_complete(ws) ==> impl_gap(source, e, probe, ws) is None,
        e.ours_complete() && !e.direct() && probe is None ==> impl_gap(source, e, probe, ws) is None,
{
    let all = e.prereqs.merged(wrapper_traits(ws));
    crate::collect::law_missing_lists_are_exact(e.prereqs);
    lemma_missing_shrinks(e.prereqs, wrapper_traits(ws), e.lifetime_blocked());
}

/// Wrappers only ever shorten the list of missing traits.
pub proof fn law_wrappers_shorten_the_list(
    source: Seq<char>,
    e: ImplEntryView,
    probe: Option<TypeFeatureProbeView>,
    ws: Seq<WrapperView>,
)
    ensures
        diagnosis(source, e, probe, ws).missing.len() <= diagnosis(source, e, probe, ws).direct_missing.len(),
        diagnosis(source, e, probe, seq![]).missing == diagnosis(source, e, probe, seq![]).direct_missing,
{
    lemma_missing_shrinks(e.prereqs, wrapper_traits(ws), e.lifetime_blocked());
    assert(wrapper_traits(seq![]) == TraitPrereqs::none());
    assert(e.prereqs.merged(TraitPrereqs::none()) == e.prereqs);
}

proof fn lemma_missing_shrinks(p: TraitPrereqs, q: TraitPrereqs, blocked: bool)
    ensures
        p.merged(q).our_missing(blocked).len() <= p.our_missing(blocked).len(),
{
}

/// A gap is named after exactly one state, and its flags agree with it.
pub proof fn law_gap_flags_agree(
    source: Seq<char>,
    e: ImplEntryView,
    probe: Option<TypeFeatureProbeView>,
    ws: Seq<WrapperView>,
)
    requires
        impl_gap(source, e, probe, ws) is Some,
    ensures
        ({
            let g = impl_gap(source, e, probe, ws)->0;
            &&& g.gap_kind is MissingOurTraits <==> !g.our_traits_complete
            &&& g.gap_kind is ReadyForElicitComplete ==> g.elicit_complete_gap && g.can_be_direct
            &&& g.gap_kind is FeatureGatedExternal ==> g.feature_gated_external && !g.can_be_direct
            &&& !(g.feature_gated_external && g.blocked_by_orphan_rule)
            &&& !(g.can_be_direct && g.blocked_by_orphan_rule)
        }),
{
}

/// Why a row of a shadow report is flagged.
#[derive(Clone, Copy, Debug, PartialEq, Eq, Structural)]
pub enum ShadowGapKind {
    /// The upstream item is not in the shadow crate.
    Missing,
    /// The shadow crate has an item of a similar name.
    Drifted,
    /// The shadow item has no upstream counterpart and is not one of our own kind.
    PossiblyStale,
    /// The shadow item has no upstream counterpart but bears the name of one of our own helpers.
    InfrastructureExtra,
    /// The matched shadow type is not complete.
    ShadowVerificationGap,
}

impl ShadowGapKind {
    /// The name of the kind.
    pub open spec fn name(self) -> Seq<char> {
        match self {
            ShadowGapKind::Missing => "Missing"@,
            ShadowGapKind::Drifted => "Drifted"@,
            ShadowGapKind::PossiblyStale => "PossiblyStale"@,
            ShadowGapKind::InfrastructureExtra => "InfrastructureExtra"@,
            ShadowGapKind::ShadowVerificationGap => "ShadowVerificationGap"@,
        }
    }

    /// The name of the kind, as reports print it.
    pub fn to_text(&self) -> (r: String)
        ensures
            r@ == self.name(),
    {
        match self {
            ShadowGapKind::Missing => "Missing".to_string(),
            ShadowGapKind::Drifted => "Drifted".to_string(),
            ShadowGapKind::PossiblyStale => "PossiblyStale".to_string(),
            ShadowGapKind::InfrastructureExtra => "InfrastructureExtra".to_string(),
            ShadowGapKind::ShadowVerificationGap => "ShadowVerificationGap".to_string(),
        }
    }
}

/// The state of a row of a shadow report.
#[derive(Clone, Copy, Debug, PartialEq, Eq, Structural)]
pub enum ShadowCoverageKind {
    Covered,
    Missing,
    Drifted,
    PossiblyStale,
    InfrastructureExtra,
}

impl ShadowCoverageKind {
    /// The name of the kind.
    pub open spec fn name(self) -> Seq<char> {
        match self {
            ShadowCoverageKind::Covered => "Covered"@,
            ShadowCoverageKind::Missing => "Missing"@,
            ShadowCoverageKind::Drifted => "Drifted"@,
            ShadowCoverageKind::PossiblyStale => "PossiblyStale"@,
            ShadowCoverageKind::InfrastructureExtra => "InfrastructureExtra"@,
        }
    }

    /// The name of the kind, as reports print it.
    pub fn to_text(&self) -> (r: String)
        ensures
            r@ == self.name(),
    {
        match self {
            ShadowCoverageKind::Covered => "Covered".to_string(),
            ShadowCoverageKind::Missing => "Missing".to_string(),
            ShadowCoverageKind::Drifted => "Drifted".to_string(),
            ShadowCoverageKind::PossiblyStale => "PossiblyStale".to_string(),
            ShadowCoverageKind::InfrastructureExtra => "InfrastructureExtra".to_string(),
        }
    }
}

/// The diagnosis of one row of a shadow report.
#[derive(Clone, Debug)]
pub struct ShadowRowAssessment {
    pub coverage_kind: ShadowCoverageKind,
    pub primary_gap_kind: Option<ShadowGapKind>,
    pub verification_gap: bool,
    pub verification_ready: bool,
    pub action: String,
}

/// The contents of a [`ShadowRowAssessment`].
#[verifier::ext_equal]
pub struct ShadowAssessmentView {
    pub coverage_kind: ShadowCoverageKind,
    pub primary_gap_kind: Option<ShadowGapKind>,
    pub verification_gap: bool,
    pub verification_ready: bool,
    pub action: Seq<char>,
}

impl View for ShadowRowAssessment {
    type V = ShadowAssessmentView;

    open spec fn view(&self) -> ShadowAssessmentView {
        ShadowAssessmentView {
            coverage_kind: self.coverage_kind,
            primary_gap_kind: self.primary_gap_kind,
            verification_gap: self.verification_gap,
            verification_ready: self.verification_ready,
            action: self.action@,
        }
    }
}

/// One row of the list of shadow gaps.
#[derive(Clone, Debug)]
pub struct ShadowGapEntry {
    pub target_crate: String,
    pub shadow_crate: String,
    pub item_path: String,
    pub item_kind: ItemKind,
    pub gap_kind: ShadowGapKind,
    /// The shadow item that a drifted row matched.
    pub matched_shadow_item: String,
    pub drift_confidence: String,
    pub shadow_elicit_impl: String,
    pub shadow_can_be_direct: String,
    pub shadow_missing_external_traits: String,
    pub shadow_missing_our_traits: String,
    pub action: String,
    pub notes: String,
}

/// The contents of a [`ShadowGapEntry`].
#[verifier::ext_equal]
pub struct ShadowGapView {
    pub target_crate: Seq<char>,
    pub shadow_crate: Seq<char>,
    pub item_path: Seq<char>,
    pub item_kind: ItemKind,
    pub gap_kind: ShadowGapKind,
    pub matched_shadow_item: Seq<char>,
    pub drift_confidence: Seq<char>,
    pub shadow_elicit_impl: Seq<char>,
    pub shadow_can_be_direct: Seq<char>,
    pub shadow_missing_external_traits: Seq<char>,
    pub shadow_missing_our_traits: Seq<char>,
    pub action: Seq<char>,
    pub notes: Seq<char>,
}

impl View for ShadowGapEntry {
    type V = ShadowGapView;

    open spec fn view(&self) -> ShadowGapView {
        ShadowGapView {
            target_crate: self.target_crate@,
            shadow_crate: self.shadow_crate@,
            item_path: self.item_path@,
            item_kind: self.item_kind,
            gap_kind: self.gap_kind,
            matched_shadow_item: self.matched_shadow_item@,
            drift_confidence: self.drift_confidence@,
            shadow_elicit_impl: self.shadow_elicit_impl@,
            shadow_can_be_direct: self.shadow_can_be_direct@,
            shadow_missing_external_traits: self.shadow_missing_external_traits@,
            shadow_missing_our_traits: self.shadow_missing_our_traits@,
            action: self.action@,
            notes: self.notes@,
        }
    }
}

/// The name ends like those of our own helpers in shadow crates.
pub open spec fn is_infrastructure(name: Seq<char>) -> bool {
    ends(name, "Params"@) || ends(name, "ParamsStyle"@) || ends(name, "Plugin"@) || ends(name, "Ctx"@) || ends(name, "Descriptor"@) || ends(name, "Factory"@) || ends(name, "Hook"@) || ends(name, "Json"@)
}

/// The state of a row.
pub open spec fn coverage_kind(v: ShadowRowView) -> ShadowCoverageKind {
    match v.status {
        ShadowStatus::Covered => ShadowCoverageKind::Covered,
        ShadowStatus::Missing => ShadowCoverageKind::Missing,
        ShadowStatus::Drifted => ShadowCoverageKind::Drifted,
        ShadowStatus::Extra => if is_infrastructure(last_segment(v.item_path)) {
            ShadowCoverageKind::InfrastructureExtra
        } else {
            ShadowCoverageKind::PossiblyStale
        },
    }
}

/// The gap that a state stands for.
pub open spec fn shadow_gap_of(kind: ShadowCoverageKind) -> Option<ShadowGapKind> {
    match kind {
        ShadowCoverageKind::Covered => None,
        ShadowCoverageKind::Missing => Some(ShadowGapKind::Missing),
        ShadowCoverageKind::Drifted => Some(ShadowGapKind::Drifted),
        ShadowCoverageKind::PossiblyStale => Some(ShadowGapKind::PossiblyStale),
        ShadowCoverageKind::InfrastructureExtra => Some(ShadowGapKind::InfrastructureExtra),
    }
}

/// What is to be done about the coverage of a row.
pub open spec fn coverage_action(v: ShadowRowView) -> Seq<char> {
    match coverage_kind(v) {
        ShadowCoverageKind::Covered => ""@,
        ShadowCoverageKind::Missing => if v.item_kind.denotes_type() {
            "Add a shadow for upstream `"@ + v.item_path + "` and make the new wrapper `ElicitComplete`"@
        } else {
            "Add a shadow item for upstream `"@ + v.item_path + "` so the full public API surface is represented"@
        },
        ShadowCoverageKind::Drifted => "Rename or replace `"@ + v.shadow_item + "` so upstream `"@ + v.item_path + "` is shadowed exactly"@,
        ShadowCoverageKind::PossiblyStale => "Audit `"@ + v.item_path + "`: remove it if stale, or rename/remap it to an upstream public item"@,
        ShadowCoverageKind::InfrastructureExtra => "Shadow-only infrastructure item; keep unless it should instead map to an upstream API item"@,
    }
}

/// What is to be done to complete a matched shadow type.
pub open spec fn verification_action(v: ShadowRowView) -> Seq<char> {
    let lacks_ours = v.shadow_missing_our_traits.len() > 0;
    let direct = v.shadow_can_be_direct == "true"@;
    if lacks_ours && direct {
        "Finish `"@ + v.shadow_item + "` by adding our traits: "@ + replaced(v.shadow_missing_our_traits, ";"@, ", "@) + "; then add `impl ElicitComplete`"@
    } else if lacks_ours {
        "Finish `"@ + v.shadow_item + "` by adding our traits: "@ + replaced(v.shadow_missing_our_traits, ";"@, ", "@) + "; also add external traits: "@ + replaced(v.shadow_missing_external_traits, ";"@, ", "@)
    } else if direct {
        "Add `impl ElicitComplete for "@ + v.shadow_item + " {}`"@
    } else {
        "Add external traits to `"@ + v.shadow_item + "` so it can support `ElicitComplete`: "@ + replaced(v.shadow_missing_external_traits, ";"@, ", "@)
    }
}

/// What is to be done about a row.
pub open spec fn shadow_action(v: ShadowRowView) -> Seq<char> {
    if !verification_gap(v) {
        coverage_action(v)
    } else if coverage_kind(v) is Covered {
        verification_action(v)
    } else {
        coverage_action(v) + "; then "@ + verification_action(v)
    }
}

/// The diagnosis of a row.
pub open spec fn shadow_assessment(v: ShadowRowView) -> ShadowAssessmentView {
    ShadowAssessmentView {
        coverage_kind: coverage_kind(v),
        primary_gap_kind: shadow_gap_of(coverage_kind(v)),
        verification_gap: verification_gap(v),
        verification_ready: v.shadow_elicit_impl == "Complete"@ || v.shadow_elicit_impl
            == "CompleteFactory"@,
        action: shadow_action(v),
    }
}

/// Whether a name ends like those of our own helpers in shadow crates.
pub fn is_infrastructure_name(bare_name: &str) -> (r: bool)
    ensures
        r == is_infrastructure(bare_name@),
{
    ends_with(bare_name, "Params") || ends_with(bare_name, "ParamsStyle") || ends_with(bare_name, "Plugin") || ends_with(bare_name, "Ctx") || ends_with(bare_name, "Descriptor") || ends_with(bare_name, "Factory") || ends_with(bare_name, "Hook") || ends_with(bare_name, "Json")
}

fn determine_coverage_kind(row: &ShadowRow) -> (r: ShadowCoverageKind)
    ensures
        r == coverage_kind(row@),
{
    match row.status {
        ShadowStatus::Covered => ShadowCoverageKind::Covered,
        ShadowStatus::Missing => ShadowCoverageKind::Missing,
        ShadowStatus::Drifted => ShadowCoverageKind::Drifted,
        ShadowStatus::Extra => if is_infrastructure_name(
            final_segment(row.item_path.as_str()).as_str(),
        ) {
            ShadowCoverageKind::InfrastructureExtra
        } else {
            ShadowCoverageKind::PossiblyStale
        },
    }
}

fn determine_shadow_gap(kind: ShadowCoverageKind) -> (r: Option<ShadowGapKind>)
    ensures
        r == shadow_gap_of(kind),
{
    match kind {
        ShadowCoverageKind::Covered => None,
        ShadowCoverageKind::Missing => Some(ShadowGapKind::Missing),
        ShadowCoverageKind::Drifted => Some(ShadowGapKind::Drifted),
        ShadowCoverageKind::PossiblyStale => Some(ShadowGapKind::PossiblyStale),
        ShadowCoverageKind::InfrastructureExtra => Some(ShadowGapKind::InfrastructureExtra),
    }
}

fn build_coverage_action(row: &ShadowRow, kind: ShadowCoverageKind) -> (r: String)
    requires
        kind == coverage_kind(row@),
    ensures
        r@ == coverage_action(row@),
{
    match kind {
        ShadowCoverageKind::Covered => "".to_string(),
        ShadowCoverageKind::Missing => if row.item_kind.is_type() {
            let mut out = "Add a shadow for upstream `".to_string();
            out.append(row.item_path.as_str());
            out.append("` and make the new wrapper `ElicitComplete`");
            out
        } else {
            let mut out = "Add a shadow item for upstream `".to_string();
            out.append(row.item_path.as_str());
            out.append("` so the full public API surface is represented");
            out
        },
        ShadowCoverageKind::Drifted => {
            let mut out = "Rename or replace `".to_string();
            out.append(row.shadow_item.as_str());
            out.append("` so upstream `");
            out.append(row.item_path.as_str());
            out.append("` is shadowed exactly");
            out
        },
        ShadowCoverageKind::PossiblyStale => {
            let mut out = "Audit `".to_string();
            out.append(row.item_path.as_str());
            out.append("`: remove it if stale, or rename/remap it to an upstream public item");
            out
        },
        ShadowCoverageKind::InfrastructureExtra => "Shadow-only infrastructure item; keep unless it should instead map to an upstream API item".to_string(),
    }
}

fn build_shadow_verification_action(row: &ShadowRow) -> (r: String)
    ensures
        r@ == verification_action(row@),
{
    proof {
        reveal_strlit(";");
    }
    let ours = replace_text(row.shadow_missing_our_traits.as_str(), ";", ", ");
    let external = replace_text(row.shadow_missing_external_traits.as_str(), ";", ", ");
    let lacks_ours = !is_empty(row.shadow_missing_our_traits.as_str());
    let direct = str_eq(row.shadow_can_be_direct.as_str(), "true");
    if lacks_ours && direct {
        let mut out = "Finish `".to_string();
        out.append(row.shadow_item.as_str());
        out.append("` by adding our traits: ");
        out.append(ours.as_str());
        out.append("; then add `impl ElicitComplete`");
        out
    } else if lacks_ours {
        let mut out = "Finish `".to_string();
        out.append(row.shadow_item.as_str());
        out.append("` by adding our traits: ");
        out.append(ours.as_str());
        out.append("; also add external traits: ");
        out.append(external.as_str());
        out
    } else if direct {
        let mut out = "Add `impl ElicitComplete for ".to_string();
        out.append(row.shadow_item.as_str());
        out.append(" {}`");
        out
    } else {
        let mut out = "Add external traits to `".to_string();
        out.append(row.shadow_item.as_str());
        out.append("` so it can support `ElicitComplete`: ");
        out.append(external.as_str());
        out
    }
}

/// The diagnosis of one row of a shadow report.
pub fn assess_shadow_row(row: &ShadowRow) -> (r: ShadowRowAssessment)
    ensures
        r@ == shadow_assessment(row@),
{
    let coverage_kind = determine_coverage_kind(row);
    let verification_gap = is_shadow_verification_gap(row);
    let action = if !verification_gap {
        build_coverage_action(row, coverage_kind)
    } else if coverage_kind == ShadowCoverageKind::Covered {
        build_shadow_verification_action(row)
    } else {
        let mut out = build_coverage_action(row, coverage_kind);
        out.append("; then ");
        out.append(build_shadow_verification_action(row).as_str());
        out
    };
    ShadowRowAssessment {
        coverage_kind,
        primary_gap_kind: determine_shadow_gap(coverage_kind),
        verification_gap,
        verification_ready: str_eq(row.shadow_elicit_impl.as_str(), "Complete") || str_eq(
            row.shadow_elicit_impl.as_str(),
            "CompleteFactory",
        ),
        action,
    }
}

/// The rank of a gap in the list: gaps of the surface first, then verification gaps.
pub open spec fn shadow_gap_rank(kind: ShadowGapKind) -> int {
    match kind {
        ShadowGapKind::Missing => 0,
        ShadowGapKind::Drifted => 1,
        ShadowGapKind::PossiblyStale => 2,
        ShadowGapKind::InfrastructureExtra => 3,
        ShadowGapKind::ShadowVerificationGap => 4,
    }
}

fn shadow_gap_order(kind: ShadowGapKind) -> (r: u8)
    ensures
        r == shadow_gap_rank(kind),
{
    match kind {
        ShadowGapKind::Missing => 0,
        ShadowGapKind::Drifted => 1,
        ShadowGapKind::PossiblyStale => 2,
        ShadowGapKind::InfrastructureExtra => 3,
        ShadowGapKind::ShadowVerificationGap => 4,
    }
}

impl Ranked for ShadowGapEntry {
    open spec fn key(v: ShadowGapView) -> Key {
        (shadow_gap_rank(v.gap_kind), seq![v.target_crate, v.item_path])
    }

    fn before(&self, other: &Self) -> (r: bool) {
        ranked_pair_before(
            shadow_gap_order(self.gap_kind),
            self.target_crate.as_str(),
            self.item_path.as_str(),
            shadow_gap_order(other.gap_kind),
            other.target_crate.as_str(),
            other.item_path.as_str(),
        )
    }
}

/// A gap of a kind for a row.
pub open spec fn shadow_gap(
    target: Seq<char>,
    shadow: Seq<char>,
    v: ShadowRowView,
    kind: ShadowGapKind,
    action: Seq<char>,
) -> ShadowGapView {
    ShadowGapView {
        target_crate: target,
        shadow_crate: shadow,
        item_path: v.item_path,
        item_kind: v.item_kind,
        gap_kind: kind,
        matched_shadow_item: v.shadow_item,
        drift_confidence: v.drift_confidence,
        shadow_elicit_impl: v.shadow_elicit_impl,
        shadow_can_be_direct: v.shadow_can_be_direct,
        shadow_missing_external_traits: v.shadow_missing_external_traits,
        shadow_missing_our_traits: v.shadow_missing_our_traits,
        action,
        notes: v.notes,
    }
}

/// The gaps of the surface: one for every row that is not covered.
pub open spec fn surface_gaps(target: Seq<char>, shadow: Seq<char>, rows: Seq<ShadowRowView>) -> Seq<
    ShadowGapView,
>
    decreases rows.len(),
{
    if rows.len() == 0 {
        seq![]
    } else {
        let rest = surface_gaps(target, shadow, rows.drop_last());
        match shadow_gap_of(coverage_kind(rows.last())) {
            Some(kind) => rest.push(shadow_gap(target, shadow, rows.last(), kind, ""@)),
            None => rest,
        }
    }
}

/// The verification gaps: one for every row that shows one.
pub open spec fn completion_gaps(target: Seq<char>, shadow: Seq<char>, rows: Seq<ShadowRowView>) -> Seq<
    ShadowGapView,
>
    decreases rows.len(),
{
    if rows.len() == 0 {
        seq![]
    } else {
        let rest = completion_gaps(target, shadow, rows.drop_last());
        if verification_gap(rows.last()) {
            rest.push(
                shadow_gap(
                    target,
                    shadow,
                    rows.last(),
                    ShadowGapKind::ShadowVerificationGap,
                    verification_action(rows.last()),
                ),
            )
        } else {
            rest
        }
    }
}

/// The gaps of several reports.
pub open spec fn all_shadow_gaps(pairs: Seq<(&str, &str, &ShadowReport)>) -> Seq<ShadowGapView>
    decreases pairs.len(),
{
    if pairs.len() == 0 {
        seq![]
    } else {
        let p = pairs.last();
        all_shadow_gaps(pairs.drop_last()) + surface_gaps(p.0@, p.1@, views(p.2.rows@))
            + completion_gaps(p.0@, p.1@, views(p.2.rows@))
    }
}

fn build_shadow_gap(
    target_crate: &str,
    shadow_crate: &str,
    row: &ShadowRow,
    gap_kind: ShadowGapKind,
    action: String,
) -> (r: ShadowGapEntry)
    ensures
        r@ == shadow_gap(target_crate@, shadow_crate@, row@, gap_kind, action@),
{
    ShadowGapEntry {
        target_crate: target_crate.to_string(),
        shadow_crate: shadow_crate.to_string(),
        item_path: row.item_path.clone(),
        item_kind: row.item_kind,
        gap_kind,
        matched_shadow_item: row.shadow_item.clone(),
        drift_confidence: row.drift_confidence.clone(),
        shadow_elicit_impl: row.shadow_elicit_impl.clone(),
        shadow_can_be_direct: row.shadow_can_be_direct.clone(),
        shadow_missing_external_traits: row.shadow_missing_external_traits.clone(),
        shadow_missing_our_traits: row.shadow_missing_our_traits.clone(),
        action,
        notes: row.notes.clone(),
    }
}

fn push_surface_gaps(
    target: &str,
    shadow: &str,
    rows: &Vec<ShadowRow>,
    out: &mut Vec<ShadowGapEntry>,
    Ghost(start): Ghost<Seq<ShadowGapView>>,
)
    requires
        views(old(out)@) == firsts::<ShadowGapEntry>(start),
    ensures
        views(final(out)@) == firsts::<ShadowGapEntry>(
            start + surface_gaps(target@, shadow@, views(rows@)),
        ),
{
    let ghost all = views(rows@);
    let mut i: usize = 0;
    assert(start + surface_gaps(target@, shadow@, all.take(0)) =~= start);
    while i < rows.len()
        invariant
            i <= rows.len(),
            all == views(rows@),
            views(out@) == firsts::<ShadowGapEntry>(
                start + surface_gaps(target@, shadow@, all.take(i as int)),
            ),
        decreases rows.len() - i,
    {
        let ghost rest = surface_gaps(target@, shadow@, all.take(i as int));
        proof {
            assert(all.take(i + 1).drop_last() =~= all.take(i as int));
            assert(all.take(i + 1).last() == rows@[i as int]@);
        }
        if let Some(kind) = determine_shadow_gap(determine_coverage_kind(&rows[i])) {
            let gap = build_shadow_gap(target, shadow, &rows[i], kind, "".to_string());
            assert((start + rest.push(gap@)).drop_last() =~= start + rest);
            push_first(out, gap);
        }
        i += 1;
    }
    proof {
        assert(all.take(i as int) =~= all);
    }
}

fn push_completion_gaps(
    target: &str,
    shadow: &str,
    rows: &Vec<ShadowRow>,
    out: &mut Vec<ShadowGapEntry>,
    Ghost(start): Ghost<Seq<ShadowGapView>>,
)
    requires
        views(old(out)@) == firsts::<ShadowGapEntry>(start),
    ensures
        views(final(out)@) == firsts::<ShadowGapEntry>(
            start + completion_gaps(target@, shadow@, views(rows@)),
        ),
{
    let ghost all = views(rows@);
    let mut i: usize = 0;
    assert(start + completion_gaps(target@, shadow@, all.take(0)) =~= start);
    while i < rows.len()
        invariant
            i <= rows.len(),
            all == views(rows@),
            views(out@) == firsts::<ShadowGapEntry>(
                start + completion_gaps(target@, shadow@, all.take(i as int)),
            ),
        decreases rows.len() - i,
    {
        let ghost rest = completion_gaps(target@, shadow@, all.take(i as int));
        proof {
            assert(all.take(i + 1).drop_last() =~= all.take(i as int));
            assert(all.take(i + 1).last() == rows@[i as int]@);
        }
        if is_shadow_verification_gap(&rows[i]) {
            let gap = build_shadow_gap(
                target,
                shadow,
                &rows[i],
                ShadowGapKind::ShadowVerificationGap,
                build_shadow_verification_action(&rows[i]),
            );
            assert((start + rest.push(gap@)).drop_last() =~= start + rest);
            push_first(out, gap);
        }
        i += 1;
    }
    proof {
        assert(all.take(i as int) =~= all);
    }
}

/// The shadow gaps of several crates, by kind, crate and path. Every row that is not covered is
/// a gap; matched types whose shadow is not complete are gaps of their own. Every row has a
/// kind, so the list can always be made. A gap of a kind is listed once for an item of a pair of
/// crates, as it is first found; items of different kinds at one path are different items.
pub fn build_shadow_gaps(pairs: &Vec<(&str, &str, &ShadowReport)>) -> (r: Result<
    Vec<ShadowGapEntry>,
    ElicitDocErrorKind,
>)
    ensures
        match r {
            Ok(gaps) => views(gaps@) == sorted::<ShadowGapEntry>(
                firsts::<ShadowGapEntry>(all_shadow_gaps(pairs@)),
            ) && shadow_gaps_once(views(gaps@)),
            Err(_) => false,
        },
{
    let mut entries: Vec<ShadowGapEntry> = Vec::new();
    let mut i: usize = 0;
    assert(views(entries@) =~= seq![]);
    while i < pairs.len()
        invariant
            i <= pairs.len(),
            views(entries@) == firsts::<ShadowGapEntry>(all_shadow_gaps(pairs@.take(i as int))),
        decreases pairs.len() - i,
    {
        proof {
            assert(pairs@.take(i + 1).drop_last() =~= pairs@.take(i as int));
            assert(pairs@.take(i + 1).last() == pairs@[i as int]);
        }
        let (target, shadow, report) = pairs[i];
        let ghost start = all_shadow_gaps(pairs@.take(i as int));
        let ghost more = surface_gaps(target@, shadow@, views(report.rows@));
        push_surface_gaps(target, shadow, &report.rows, &mut entries, Ghost(start));
        push_completion_gaps(target, shadow, &report.rows, &mut entries, Ghost(start + more));
        i += 1;
    }
    proof {
        assert(pairs@.take(i as int) =~= pairs@);
        law_shadow_gaps_once(all_shadow_gaps(pairs@));
    }
    Ok(sort_ranked(entries))
}

/// What a shadow gap stands for: its kind, the crates, and the kind and path of the item.
pub open spec fn shadow_gap_identity(v: ShadowGapView) -> (
    ShadowGapKind,
    Seq<char>,
    Seq<char>,
    ItemKind,
    Seq<char>,
) {
    (v.gap_kind, v.target_crate, v.shadow_crate, v.item_kind, v.item_path)
}

impl Identified for ShadowGapEntry {
    type Identity = (ShadowGapKind, Seq<char>, Seq<char>, ItemKind, Seq<char>);

    open spec fn identity(v: ShadowGapView) -> (
        ShadowGapKind,
        Seq<char>,
        Seq<char>,
        ItemKind,
        Seq<char>,
    ) {
        shadow_gap_identity(v)
    }
}

impl Recognized for ShadowGapEntry {
    fn is_same(&self, other: &Self) -> (r: bool) {
        self.gap_kind == other.gap_kind && self.item_kind == other.item_kind && str_eq(
            self.target_crate.as_str(),
            other.target_crate.as_str(),
        ) && str_eq(self.shadow_crate.as_str(), other.shadow_crate.as_str()) && str_eq(
            self.item_path.as_str(),
            other.item_path.as_str(),
        )
    }
}

/// A gap of a kind is listed once for an item of a pair of crates, told by its kind and path.
pub open spec fn shadow_gaps_once(list: Seq<ShadowGapView>) -> bool {
    forall|i: int, j: int|
        0 <= i < j < list.len() ==> shadow_gap_identity(#[trigger] list[i]) != shadow_gap_identity(
            #[trigger] list[j],
        )
}

/// A list of shadow gaps names a gap of a kind once for an item of a pair of crates.
pub proof fn law_shadow_gaps_once(gaps: Seq<ShadowGapView>)
    ensures
        shadow_gaps_once(sorted::<ShadowGapEntry>(firsts::<ShadowGapEntry>(gaps))),
{
    let list = sorted::<ShadowGapEntry>(firsts::<ShadowGapEntry>(gaps));
    let none: Seq<char> = seq![];
    law_firsts::<ShadowGapEntry>(gaps, (ShadowGapKind::Missing, none, none, ItemKind::Other, none));
    law_sorted_distinct::<ShadowGapEntry>(firsts::<ShadowGapEntry>(gaps));
    assert forall|i: int, j: int| 0 <= i < j < list.len() implies shadow_gap_identity(
        #[trigger] list[i],
    ) != shadow_gap_identity(#[trigger] list[j]) by {
        assert(ShadowGapEntry::identity(list[i]) != ShadowGapEntry::identity(list[j]));
    }
}

/// Exactly the covered rows leave no gap of the surface.
pub proof fn law_only_covered_rows_leave_no_gap(v: ShadowRowView)
    ensures
        shadow_assessment(v).primary_gap_kind is None <==> v.status is Covered,
        shadow_assessment(v).primary_gap_kind != Some(ShadowGapKind::ShadowVerificationGap),
        shadow_assessment(v).verification_gap ==> !shadow_assessment(v).verification_ready,
{
}

/// The gaps of the surface are as many as the rows that are not covered.
pub proof fn law_surface_gaps_count(target: Seq<char>, shadow: Seq<char>, rows: Seq<ShadowRowView>)
    ensures
        surface_gaps(target, shadow, rows).len() + count_if(
            rows,
            has_status(ShadowStatus::Covered),
        ) == rows.len(),
        completion_gaps(target, shadow, rows).len() == count_if(rows, has_gap()),
    decreases rows.len(),
{
    if rows.len() > 0 {
        law_surface_gaps_count(target, shadow, rows.drop_last());
        law_only_covered_rows_leave_no_gap(rows.last());
    }
}

/// The gaps of a pair of crates, as they are listed.
pub open spec fn listed_gaps(target: Seq<char>, shadow: Seq<char>, rows: Seq<ShadowRowView>) -> Seq<
    ShadowGapView,
> {
    sorted::<ShadowGapEntry>(
        firsts::<ShadowGapEntry>(
            surface_gaps(target, shadow, rows) + completion_gaps(target, shadow, rows),
        ),
    )
}

/// Gaps of a kind.
pub open spec fn is_of_kind(kind: ShadowGapKind) -> spec_fn(ShadowGapView) -> bool {
    |g: ShadowGapView| g.gap_kind == kind
}

/// For one pair of crates the list of gaps is that of the rows of its report.
pub proof fn law_gaps_of_one_pair(pair: (&str, &str, &ShadowReport))
    ensures
        sorted::<ShadowGapEntry>(firsts::<ShadowGapEntry>(all_shadow_gaps(seq![pair])))
            == listed_gaps(pair.0@, pair.1@, views(pair.2.rows@)),
{
    let one = seq![pair];
    let rows = views(pair.2.rows@);
    assert(one.drop_last() =~= seq![]);
    assert(one.last() == pair);
    assert(all_shadow_gaps(one.drop_last()) =~= seq![]);
    assert(all_shadow_gaps(one) =~= surface_gaps(pair.0@, pair.1@, rows) + completion_gaps(
        pair.0@,
        pair.1@,
        rows,
    ));
}

/// The list holds as many gaps of each kind as the report counts.
pub open spec fn agrees_with(list: Seq<ShadowGapView>, r: ShadowReport) -> bool {
    &&& count_if(list, is_of_kind(ShadowGapKind::Missing)) == r.missing_count
    &&& count_if(list, is_of_kind(ShadowGapKind::Drifted)) == r.drifted_count
    &&& count_if(list, is_of_kind(ShadowGapKind::PossiblyStale)) + count_if(
        list,
        is_of_kind(ShadowGapKind::InfrastructureExtra),
    ) == r.extra_count
    &&& count_if(list, is_of_kind(ShadowGapKind::ShadowVerificationGap)) == r.verification_gap_count
}

/// The gaps of a pair of crates agree with the report that was built of their inventories, where
/// neither inventory lists an item twice.
pub proof fn law_gaps_agree_with_inventories(
    r: ShadowReport,
    target: Inventory,
    shadow: Inventory,
    c: ShadowInputs,
)
    requires
        is_shadow_report(r, target, shadow, c),
        items_differ(views(target.items@)),
        items_differ(c.items),
    ensures
        agrees_with(listed_gaps(r.target_crate@, r.shadow_crate@, views(r.rows@)), r),
{
    law_rows_differ(c, views(target.items@));
    law_gaps_agree_with_report(r.target_crate@, r.shadow_crate@, r);
}

/// The gaps of a pair of crates agree with its report: as many upstream items are listed as
/// missing and as drifted, as many shadow items as extra, and as many matched types as not
/// verified, as the report counts. This holds where no two rows of the report are about the same
/// item; such rows are listed once.
pub proof fn law_gaps_agree_with_report(target: Seq<char>, shadow: Seq<char>, r: ShadowReport)
    requires
        rows_differ(views(r.rows@)),
        counts_rows(r),
    ensures
        agrees_with(listed_gaps(target, shadow, views(r.rows@)), r),
{
    let rows = views(r.rows@);
    let a = surface_gaps(target, shadow, rows);
    let b = completion_gaps(target, shadow, rows);
    let list = listed_gaps(target, shadow, rows);
    lemma_gaps_distinct(target, shadow, rows);
    law_distinct_stays::<ShadowGapEntry>(a + b);
    law_sorted_permutes::<ShadowGapEntry>(a + b);
    lemma_gap_counts(target, shadow, rows);
    lemma_kind_counts(a, b, list, ShadowGapKind::Missing);
    lemma_kind_counts(a, b, list, ShadowGapKind::Drifted);
    lemma_kind_counts(a, b, list, ShadowGapKind::PossiblyStale);
    lemma_kind_counts(a, b, list, ShadowGapKind::InfrastructureExtra);
    lemma_kind_counts(a, b, list, ShadowGapKind::ShadowVerificationGap);
}

proof fn lemma_kind_counts(
    a: Seq<ShadowGapView>,
    b: Seq<ShadowGapView>,
    list: Seq<ShadowGapView>,
    kind: ShadowGapKind,
)
    requires
        list.to_multiset() == (a + b).to_multiset(),
    ensures
        count_if(list, is_of_kind(kind)) == count_if(a, is_of_kind(kind)) + count_if(
            b,
            is_of_kind(kind),
        ),
{
    lemma_count_permuted(list, a + b, is_of_kind(kind));
    lemma_count_append(a, b, is_of_kind(kind));
}

proof fn lemma_gap_counts(target: Seq<char>, shadow: Seq<char>, rows: Seq<ShadowRowView>)
    ensures
        ({
            let a = surface_gaps(target, shadow, rows);
            let b = completion_gaps(target, shadow, rows);
            &&& count_if(a, is_of_kind(ShadowGapKind::Missing)) == count_if(
                rows,
                has_status(ShadowStatus::Missing),
            )
            &&& count_if(a, is_of_kind(ShadowGapKind::Drifted)) == count_if(
                rows,
                has_status(ShadowStatus::Drifted),
            )
            &&& count_if(a, is_of_kind(ShadowGapKind::PossiblyStale)) + count_if(
                a,
                is_of_kind(ShadowGapKind::InfrastructureExtra),
            ) == count_if(rows, has_status(ShadowStatus::Extra))
            &&& count_if(a, is_of_kind(ShadowGapKind::ShadowVerificationGap)) == 0
            &&& count_if(b, is_of_kind(ShadowGapKind::Missing)) == 0
            &&& count_if(b, is_of_kind(ShadowGapKind::Drifted)) == 0
            &&& count_if(b, is_of_kind(ShadowGapKind::PossiblyStale)) == 0
            &&& count_if(b, is_of_kind(ShadowGapKind::InfrastructureExtra)) == 0
            &&& count_if(b, is_of_kind(ShadowGapKind::ShadowVerificationGap)) == count_if(
                rows,
                has_gap(),
            )
        }),
    decreases rows.len(),
{
    if rows.len() > 0 {
        let v = rows.last();
        let a = surface_gaps(target, shadow, rows.drop_last());
        let b = completion_gaps(target, shadow, rows.drop_last());
        lemma_gap_counts(target, shadow, rows.drop_last());
        match shadow_gap_of(coverage_kind(v)) {
            Some(kind) => {
                let g = shadow_gap(target, shadow, v, kind, ""@);
                assert(a.push(g).drop_last() =~= a);
            },
            None => {},
        }
        let g = shadow_gap(
            target,
            shadow,
            v,
            ShadowGapKind::ShadowVerificationGap,
            verification_action(v),
        );
        assert(b.push(g).drop_last() =~= b);
    }
}

/// The gap is that of a row of the list.
spec fn comes_from(rows: Seq<ShadowRowView>, g: ShadowGapView, completion: bool, i: int) -> bool {
    0 <= i < rows.len() && g.item_path == rows[i].item_path && g.item_kind == rows[i].item_kind && (
    if completion {
        g.gap_kind is ShadowVerificationGap && verification_gap(rows[i])
    } else {
        shadow_gap_of(coverage_kind(rows[i])) == Some(g.gap_kind)
    })
}

/// The gap is that of some row of the list.
spec fn has_source(rows: Seq<ShadowRowView>, g: ShadowGapView, completion: bool) -> bool {
    exists|i: int| comes_from(rows, g, completion, i)
}

proof fn lemma_gaps_distinct(target: Seq<char>, shadow: Seq<char>, rows: Seq<ShadowRowView>)
    requires
        rows_differ(rows),
    ensures
        is_distinct::<ShadowGapEntry>(
            surface_gaps(target, shadow, rows) + completion_gaps(target, shadow, rows),
        ),
    decreases rows.len(),
{
    let a = surface_gaps(target, shadow, rows);
    let b = completion_gaps(target, shadow, rows);
    lemma_sources(target, shadow, rows);
    let all = a + b;
    assert forall|i: int, j: int| 0 <= i < j < all.len() implies ShadowGapEntry::identity(
        #[trigger] all[i],
    ) != ShadowGapEntry::identity(#[trigger] all[j]) by {
        if j < a.len() {
            let (p, q) = lemma_two_sources(target, shadow, rows, false, i, j);
        } else if i >= a.len() {
            let (p, q) = lemma_two_sources(target, shadow, rows, true, i - a.len(), j - a.len());
        } else {
            assert(has_source(rows, a[i], false) && has_source(rows, b[j - a.len()], true));
        }
    }
}

/// Every gap comes from a row.
proof fn lemma_sources(target: Seq<char>, shadow: Seq<char>, rows: Seq<ShadowRowView>)
    ensures
        forall|i: int|
            0 <= i < surface_gaps(target, shadow, rows).len() ==> has_source(
                rows,
                #[trigger] surface_gaps(target, shadow, rows)[i],
                false,
            ),
        forall|i: int|
            0 <= i < completion_gaps(target, shadow, rows).len() ==> has_source(
                rows,
                #[trigger] completion_gaps(target, shadow, rows)[i],
                true,
            ),
    decreases rows.len(),
{
    if rows.len() > 0 {
        let front = rows.drop_last();
        let a = surface_gaps(target, shadow, rows);
        let b = completion_gaps(target, shadow, rows);
        let a1 = surface_gaps(target, shadow, front);
        let b1 = completion_gaps(target, shadow, front);
        let last = rows.len() - 1;
        lemma_sources(target, shadow, front);
        assert forall|i: int| 0 <= i < a.len() implies has_source(rows, #[trigger] a[i], false) by {
            if i < a1.len() {
                assert(a[i] == a1[i]);
                let p = choose|p: int| comes_from(front, a1[i], false, p);
                assert(front[p] == rows[p]);
                assert(comes_from(rows, a[i], false, p));
            } else {
                assert(comes_from(rows, a[i], false, last));
            }
        }
        assert forall|i: int| 0 <= i < b.len() implies has_source(rows, #[trigger] b[i], true) by {
            if i < b1.len() {
                assert(b[i] == b1[i]);
                let p = choose|p: int| comes_from(front, b1[i], true, p);
                assert(front[p] == rows[p]);
                assert(comes_from(rows, b[i], true, p));
            } else {
                assert(comes_from(rows, b[i], true, last));
            }
        }
    }
}

/// Two gaps of one list come from two rows, in their order.
proof fn lemma_two_sources(
    target: Seq<char>,
    shadow: Seq<char>,
    rows: Seq<ShadowRowView>,
    completion: bool,
    i: int,
    j: int,
) -> (r: (int, int))
    requires
        ({
            let s = if completion {
                completion_gaps(target, shadow, rows)
            } else {
                surface_gaps(target, shadow, rows)
            };
            0 <= i < j < s.len()
        }),
    ensures
        ({
            let s = if completion {
                completion_gaps(target, shadow, rows)
            } else {
                surface_gaps(target, shadow, rows)
            };
            &&& r.0 < r.1
            &&& comes_from(rows, s[i], completion, r.0)
            &&& comes_from(rows, s[j], completion, r.1)
        }),
    decreases rows.len(),
{
    let front = rows.drop_last();
    let s = if completion {
        completion_gaps(target, shadow, rows)
    } else {
        surface_gaps(target, shadow, rows)
    };
    let t = if completion {
        completion_gaps(target, shadow, front)
    } else {
        surface_gaps(target, shadow, front)
    };
    if j < t.len() {
        let (p, q) = lemma_two_sources(target, shadow, front, completion, i, j);
        assert(front[p] == rows[p] && front[q] == rows[q]);
        assert(s[i] == t[i] && s[j] == t[j]);
        (p, q)
    } else {
        lemma_sources(target, shadow, front);
        assert(s[i] == t[i]);
        assert(has_source(front, t[i], completion));
        let p = choose|p: int| comes_from(front, t[i], completion, p);
        assert(front[p] == rows[p]);
        (p, rows.len() - 1)
    }
}

/// Impl gaps are listed by priority: first those that lack traits of our own, then those that
/// lack only the marker, then those that features may unlock.
pub proof fn law_impl_gaps_by_priority(gaps: Seq<ImplGapView>)
    ensures
        ({
            let list = sorted::<ImplGapEntry>(gaps);
            forall|i: int, j: int|
                0 <= i < j < list.len() ==> gap_rank((#[trigger] list[i]).gap_kind) <= gap_rank(
                    (#[trigger] list[j]).gap_kind,
                )
        }),
{
    let list = sorted::<ImplGapEntry>(gaps);
    law_sorted_in_order::<ImplGapEntry>(gaps);
    assert forall|i: int, j: int| 0 <= i < j < list.len() implies gap_rank(
        (#[trigger] list[i]).gap_kind,
    ) <= gap_rank((#[trigger] list[j]).gap_kind) by {
        assert(!key_lt(ImplGapEntry::key(list[j]), ImplGapEntry::key(list[i])));
    }
}

/// Shadow gaps are listed by priority.
pub proof fn law_shadow_gaps_by_priority(gaps: Seq<ShadowGapView>)
    ensures
        ({
            let list = sorted::<ShadowGapEntry>(gaps);
            forall|i: int, j: int|
                0 <= i < j < list.len() ==> shadow_gap_rank((#[trigger] list[i]).gap_kind)
                    <= shadow_gap_rank((#[trigger] list[j]).gap_kind)
        }),
{
    let list = sorted::<ShadowGapEntry>(gaps);
    law_sorted_in_order::<ShadowGapEntry>(gaps);
    assert forall|i: int, j: int| 0 <= i < j < list.len() implies shadow_gap_rank(
        (#[trigger] list[i]).gap_kind,
    ) <= shadow_gap_rank((#[trigger] list[j]).gap_kind) by {
        assert(!key_lt(ShadowGapEntry::key(list[j]), ShadowGapEntry::key(list[i])));
    }
}

}
