//! What the contents of values are: field by field those of the value.

use vstd::prelude::*;

use crate::collect::TypeFeatureProbe;
use crate::gaps::{ImplGapEntry, ImplRowAssessment, ShadowGapEntry, ShadowRowAssessment};
use crate::impl_coverage::ImplCoverageEntry;
use crate::inventory::Item;
use crate::report::KeyedRecord;
use crate::session::ThirdPartyCrate;
use crate::shadow::ShadowRow;
use crate::summary::{ImplSummary, ImplTotals, ShadowSkippedPair, ShadowSummary};
use crate::trenchcoat::{TrenchcoatEntry, WrapperCoverage};
use crate::text::views;

verus! {

/// The contents of a [`TypeFeatureProbe`] are what its fields hold.
pub proof fn law_contents_of_type_feature_probe(x: TypeFeatureProbe)
    ensures
        x@.feature_crate == x.feature_crate@,
        x@.candidate_unlock_features.len() == x.candidate_unlock_features@.len(),
        forall|i: int| 0 <= i < x.candidate_unlock_features@.len() ==> #[trigger] x@.candidate_unlock_features[i] == x.candidate_unlock_features@[i]@,
        x@.probed_prereqs == x.probed_prereqs,
{
}

/// The contents of a [`ImplGapEntry`] are what its fields hold.
pub proof fn law_contents_of_impl_gap_entry(x: ImplGapEntry)
    ensures
        x@.source_crate == x.source_crate@,
        x@.type_path == x.type_path@,
        x@.type_kind == x.type_kind,
        x@.is_generic == x.is_generic,
        x@.gap_kind == x.gap_kind,
        x@.missing_external_traits == x.missing_external_traits@,
        x@.missing_our_traits == x.missing_our_traits@,
        x@.our_traits_complete == x.our_traits_complete,
        x@.coverage_provider == x.coverage_provider@,
        x@.wrapper_paths == x.wrapper_paths@,
        x@.can_be_direct == x.can_be_direct,
        x@.elicit_complete_gap == x.elicit_complete_gap,
        x@.feature_gated_external == x.feature_gated_external,
        x@.blocked_by_orphan_rule == x.blocked_by_orphan_rule,
        x@.feature_owner_crate == x.feature_owner_crate@,
        x@.candidate_unlock_features == x.candidate_unlock_features@,
        x@.action == x.action@,
{
}

/// The contents of a [`ImplRowAssessment`] are what its fields hold.
pub proof fn law_contents_of_impl_row_assessment(x: ImplRowAssessment)
    ensures
        x@.row_kind == x.row_kind,
        x@.primary_gap_kind == x.primary_gap_kind,
        x@.missing_external_traits == x.missing_external_traits@,
        x@.missing_our_traits == x.missing_our_traits@,
        x@.direct_missing_our_traits == x.direct_missing_our_traits@,
        x@.our_traits_complete == x.our_traits_complete,
        x@.direct_our_traits_complete == x.direct_our_traits_complete,
        x@.covered_indirectly == x.covered_indirectly,
        x@.coverage_provider == x.coverage_provider@,
        x@.wrapper_paths == x.wrapper_paths@,
        x@.can_be_direct == x.can_be_direct,
        x@.elicit_complete_gap == x.elicit_complete_gap,
        x@.feature_gated_external == x.feature_gated_external,
        x@.blocked_by_orphan_rule == x.blocked_by_orphan_rule,
        x@.blocked_reason == x.blocked_reason@,
        x@.feature_owner_crate == x.feature_owner_crate@,
        x@.candidate_unlock_features == x.candidate_unlock_features@,
        x@.action == x.action@,
{
}

/// The contents of a [`ShadowRowAssessment`] are what its fields hold.
pub proof fn law_contents_of_shadow_row_assessment(x: ShadowRowAssessment)
    ensures
        x@.coverage_kind == x.coverage_kind,
        x@.primary_gap_kind == x.primary_gap_kind,
        x@.verification_gap == x.verification_gap,
        x@.verification_ready == x.verification_ready,
        x@.action == x.action@,
{
}

/// The contents of a [`ShadowGapEntry`] are what its fields hold.
pub proof fn law_contents_of_shadow_gap_entry(x: ShadowGapEntry)
    ensures
        x@.target_crate == x.target_crate@,
        x@.shadow_crate == x.shadow_crate@,
        x@.item_path == x.item_path@,
        x@.item_kind == x.item_kind,
        x@.gap_kind == x.gap_kind,
        x@.matched_shadow_item == x.matched_shadow_item@,
        x@.drift_confidence == x.drift_confidence@,
        x@.shadow_elicit_impl == x.shadow_elicit_impl@,
        x@.shadow_can_be_direct == x.shadow_can_be_direct@,
        x@.shadow_missing_external_traits == x.shadow_missing_external_traits@,
        x@.shadow_missing_our_traits == x.shadow_missing_our_traits@,
        x@.action == x.action@,
        x@.notes == x.notes@,
{
}

/// The contents of a [`ImplCoverageEntry`] are what its fields hold.
pub proof fn law_contents_of_impl_coverage_entry(x: ImplCoverageEntry)
    ensures
        x@.type_path == x.type_path@,
        x@.type_kind == x.type_kind,
        x@.is_generic == x.is_generic,
        x@.lifetime_params.len() == x.lifetime_params@.len(),
        forall|i: int| 0 <= i < x.lifetime_params@.len() ==> #[trigger] x@.lifetime_params[i] == x.lifetime_params@[i]@,
        x@.type_params.len() == x.type_params@.len(),
        forall|i: int| 0 <= i < x.type_params@.len() ==> #[trigger] x@.type_params[i] == x.type_params@[i]@,
        x@.elicit_impl == x.elicit_impl,
        x@.proof_test == x.proof_test@,
        x@.composition_test == x.composition_test@,
        x@.prereqs == x.prereqs,
        x@.notes == x.notes@,
{
}

/// The contents of a [`Item`] are what its fields hold.
pub proof fn law_contents_of_item(x: Item)
    ensures
        x@.path.len() == x.path@.len(),
        forall|i: int| 0 <= i < x.path@.len() ==> #[trigger] x@.path[i] == x.path@[i]@,
        x@.kind == x.kind,
        x@.name == x.name@,
        x@.is_generic == x.is_generic,
        x@.lifetime_params.len() == x.lifetime_params@.len(),
        forall|i: int| 0 <= i < x.lifetime_params@.len() ==> #[trigger] x@.lifetime_params[i] == x.lifetime_params@[i]@,
        x@.type_params.len() == x.type_params@.len(),
        forall|i: int| 0 <= i < x.type_params@.len() ==> #[trigger] x@.type_params[i] == x.type_params@[i]@,
{
}

/// The contents of a [`KeyedRecord`] are what its fields hold.
pub proof fn law_contents_of_keyed_record(x: KeyedRecord)
    ensures
        x@.rank == x.rank,
        x@.family == x.family@,
        x@.path == x.path@,
        x@.fields.len() == x.fields@.len(),
        forall|i: int| 0 <= i < x.fields@.len() ==> #[trigger] x@.fields[i] == x.fields@[i]@,
{
}

/// The contents of a [`ThirdPartyCrate`] are what its fields hold.
pub proof fn law_contents_of_third_party_crate(x: ThirdPartyCrate)
    ensures
        x@.name == x.name@,
        x@.feature == x.feature@,
        x@.fallback_features.len() == x.fallback_features@.len(),
        forall|i: int| 0 <= i < x.fallback_features@.len() ==> #[trigger] x@.fallback_features[i] == x.fallback_features@[i]@,
{
}

/// The contents of a [`ShadowRow`] are what its fields hold.
pub proof fn law_contents_of_shadow_row(x: ShadowRow)
    ensures
        x@.item_path == x.item_path@,
        x@.item_kind == x.item_kind,
        x@.status == x.status,
        x@.shadow_item == x.shadow_item@,
        x@.drift == x.drift,
        x@.drift_confidence == x.drift_confidence@,
        x@.shadow_elicit_impl == x.shadow_elicit_impl@,
        x@.shadow_can_be_direct == x.shadow_can_be_direct@,
        x@.shadow_missing_external_traits == x.shadow_missing_external_traits@,
        x@.shadow_missing_our_traits == x.shadow_missing_our_traits@,
        x@.notes == x.notes@,
{
}

/// The contents of a [`ImplSummary`] are what its fields hold.
pub proof fn law_contents_of_impl_summary(x: ImplSummary)
    ensures
        x@.source_crate == x.source_crate@,
        x@.source_version == x.source_version@,
        x@.types == x.types,
        x@.our_traits_done == x.our_traits_done,
        x@.missing_our_traits == x.missing_our_traits,
        x@.complete == x.complete,
        x@.elicit_complete_gap == x.elicit_complete_gap,
        x@.externally_blocked == x.externally_blocked,
        x@.coverage == x.coverage@,
{
}

/// The contents of a [`ImplTotals`] are what its fields hold.
pub proof fn law_contents_of_impl_totals(x: ImplTotals)
    ensures
        x@.types == x.types,
        x@.our_traits_done == x.our_traits_done,
        x@.missing_our_traits == x.missing_our_traits,
        x@.complete == x.complete,
        x@.elicit_complete_gap == x.elicit_complete_gap,
        x@.externally_blocked == x.externally_blocked,
        x@.coverage == x.coverage@,
{
}

/// The contents of a [`ShadowSummary`] are what its fields hold.
pub proof fn law_contents_of_shadow_summary(x: ShadowSummary)
    ensures
        x@.target_crate == x.target_crate@,
        x@.target_version == x.target_version@,
        x@.shadow_crate == x.shadow_crate@,
        x@.covered == x.covered,
        x@.drifted == x.drifted,
        x@.total == x.total,
        x@.verification_gaps == x.verification_gaps,
        x@.coverage == x.coverage@,
{
}

/// The contents of a [`ShadowSkippedPair`] are what its fields hold.
pub proof fn law_contents_of_shadow_skipped_pair(x: ShadowSkippedPair)
    ensures
        x@.upstream_crate == x.upstream_crate@,
        x@.shadow_crate == x.shadow_crate@,
        x@.error == x.error@,
{
}

/// The contents of a [`WrapperCoverage`] are what its fields hold.
pub proof fn law_contents_of_wrapper_coverage(x: WrapperCoverage)
    ensures
        x@.wrapper_path == x.wrapper_path@,
        x@.wrapper_elicit_complete == x.wrapper_elicit_complete,
        x@.wrapper_prereqs == x.wrapper_prereqs,
{
}

/// The contents of a [`TrenchcoatEntry`] are what its fields hold.
pub proof fn law_contents_of_trenchcoat_entry(x: TrenchcoatEntry)
    ensures
        x@.foreign_crate == x.foreign_crate@,
        x@.foreign_type == x.foreign_type@,
        x@.wrapper_path == x.wrapper_path@,
        x@.wrapper_elicit_complete == x.wrapper_elicit_complete,
        x@.wrapper_missing_our_traits == x.wrapper_missing_our_traits@,
        x@.foreign_missing_our_traits == x.foreign_missing_our_traits@,
{
}

}
