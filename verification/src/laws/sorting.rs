//! In which order lists come.

use vstd::prelude::*;

use crate::collect::{ElicitCompleteSet, TraitPrereqs};
use crate::extract::{extracted, unsorted_items};
use crate::gaps::{ImplGapEntry, ImplGapKind, ImplGapView, ShadowGapEntry, ShadowGapKind, ShadowGapView};
use crate::harness::ProofHarness;
use crate::impl_coverage::{coverage_inputs, coverage_rows, is_report, ImplCoverageEntry};
use crate::impl_coverage::ImplCoverageReport;
use crate::inventory::{Inventory, Item};
use crate::order::{key_lt, law_sorted_in_order, lemma_pair_key, lemma_text_key, sorted, texts_lt};
use crate::order::Ranked;
use crate::report::{records_in_order, KeyedRecord, KeyedRecordView};
use crate::rustdoc::DocCrate;
use crate::shadow::{is_shadow_report, shadow_rows, ShadowInputs, ShadowReport, ShadowRow};
use crate::summary::{ImplSummary, ImplSummaryView, ShadowSkippedPair, ShadowSummary};
use crate::summary::{ShadowSummaryView, SkippedPairView};
use crate::text::{text_lt, underscored, views};
use crate::trenchcoat::{TrenchcoatEntry, TrenchcoatView, WrapperCoverage, WrapperView};

verus! {

/// The first pair of texts precedes the second: by its first text, or where these are equal, by
/// its second.
pub open spec fn pair_lt(a: Seq<char>, b: Seq<char>, c: Seq<char>, d: Seq<char>) -> bool {
    text_lt(a, c) || (a == c && text_lt(b, d))
}

proof fn lemma_ranked_pair(
    p: int,
    a: Seq<char>,
    b: Seq<char>,
    q: int,
    c: Seq<char>,
    d: Seq<char>,
)
    ensures
        key_lt((p, seq![a, b]), (q, seq![c, d])) == (p < q || (p == q && pair_lt(a, b, c, d))),
{
    lemma_pair_key(a, b, c, d);
}

/// The items of an inventory come by path, segment by segment.
pub proof fn law_inventory_by_path(k: DocCrate, crate_name: Seq<char>, prefix: bool)
    ensures
        ({
            let list = extracted(k, crate_name, prefix);
            forall|i: int, j: int|
                0 <= i < j < list.len() ==> !texts_lt(
                    (#[trigger] list[j]).path,
                    (#[trigger] list[i]).path,
                )
        }),
{
    let list = extracted(k, crate_name, prefix);
    law_sorted_in_order::<Item>(unsorted_items(k, underscored(crate_name), prefix));
    assert forall|i: int, j: int| 0 <= i < j < list.len() implies !texts_lt(
        (#[trigger] list[j]).path,
        (#[trigger] list[i]).path,
    ) by {
        assert(!key_lt(Item::key(list[j]), Item::key(list[i])));
    }
}

/// The wrappers of a type come by path.
pub proof fn law_wrappers_by_path(s: Seq<WrapperView>)
    ensures
        ({
            let list = sorted::<WrapperCoverage>(s);
            forall|i: int, j: int|
                0 <= i < j < list.len() ==> !text_lt(
                    (#[trigger] list[j]).wrapper_path,
                    (#[trigger] list[i]).wrapper_path,
                )
        }),
{
    let list = sorted::<WrapperCoverage>(s);
    law_sorted_in_order::<WrapperCoverage>(s);
    assert forall|i: int, j: int| 0 <= i < j < list.len() implies !text_lt(
        (#[trigger] list[j]).wrapper_path,
        (#[trigger] list[i]).wrapper_path,
    ) by {
        assert(!key_lt(WrapperCoverage::key(list[j]), WrapperCoverage::key(list[i])));
        lemma_text_key(list[j].wrapper_path, list[i].wrapper_path);
    }
}

/// The types of an impl report come by path.
pub proof fn law_types_by_path(
    r: ImplCoverageReport,
    source: Inventory,
    complete: ElicitCompleteSet,
    harness: ProofHarness,
    table: Seq<(Seq<char>, TraitPrereqs)>,
)
    requires
        is_report(r, source, complete, harness, table),
    ensures
        ({
            let list = views(r.entries@);
            forall|i: int, j: int|
                0 <= i < j < list.len() ==> !text_lt(
                    (#[trigger] list[j]).type_path,
                    (#[trigger] list[i]).type_path,
                )
        }),
{
    let list = views(r.entries@);
    law_sorted_in_order::<ImplCoverageEntry>(
        coverage_rows(coverage_inputs(source, complete, harness, table)),
    );
    assert forall|i: int, j: int| 0 <= i < j < list.len() implies !text_lt(
        (#[trigger] list[j]).type_path,
        (#[trigger] list[i]).type_path,
    ) by {
        assert(!key_lt(ImplCoverageEntry::key(list[j]), ImplCoverageEntry::key(list[i])));
        lemma_text_key(list[j].type_path, list[i].type_path);
    }
}

/// The rows of a shadow report come by path.
pub proof fn law_rows_by_path(
    r: ShadowReport,
    target: Inventory,
    shadow: Inventory,
    c: ShadowInputs,
)
    requires
        is_shadow_report(r, target, shadow, c),
    ensures
        ({
            let list = views(r.rows@);
            forall|i: int, j: int|
                0 <= i < j < list.len() ==> !text_lt(
                    (#[trigger] list[j]).item_path,
                    (#[trigger] list[i]).item_path,
                )
        }),
{
    let list = views(r.rows@);
    law_sorted_in_order::<ShadowRow>(shadow_rows(c, views(target.items@)));
    assert forall|i: int, j: int| 0 <= i < j < list.len() implies !text_lt(
        (#[trigger] list[j]).item_path,
        (#[trigger] list[i]).item_path,
    ) by {
        assert(!key_lt(ShadowRow::key(list[j]), ShadowRow::key(list[i])));
        lemma_text_key(list[j].item_path, list[i].item_path);
    }
}

/// Rows of the impl summary come by crate.
pub proof fn law_impl_rows_by_crate(s: Seq<ImplSummaryView>)
    ensures
        ({
            let list = sorted::<ImplSummary>(s);
            forall|i: int, j: int|
                0 <= i < j < list.len() ==> !text_lt(
                    (#[trigger] list[j]).source_crate,
                    (#[trigger] list[i]).source_crate,
                )
        }),
{
    let list = sorted::<ImplSummary>(s);
    law_sorted_in_order::<ImplSummary>(s);
    assert forall|i: int, j: int| 0 <= i < j < list.len() implies !text_lt(
        (#[trigger] list[j]).source_crate,
        (#[trigger] list[i]).source_crate,
    ) by {
        assert(!key_lt(ImplSummary::key(list[j]), ImplSummary::key(list[i])));
        lemma_text_key(list[j].source_crate, list[i].source_crate);
    }
}

/// Rows of the shadow summary come by target crate, then by shadow crate.
pub proof fn law_shadow_rows_by_crate(s: Seq<ShadowSummaryView>)
    ensures
        ({
            let list = sorted::<ShadowSummary>(s);
            forall|i: int, j: int|
                #![trigger list[i], list[j]]
                0 <= i < j < list.len() ==> !pair_lt(list[j].target_crate, list[j].shadow_crate, list[i].target_crate, list[i].shadow_crate)
        }),
{
    let list = sorted::<ShadowSummary>(s);
    law_sorted_in_order::<ShadowSummary>(s);
    assert forall|i: int, j: int| #![trigger list[i], list[j]] 0 <= i < j < list.len() implies !pair_lt(list[j].target_crate, list[j].shadow_crate, list[i].target_crate, list[i].shadow_crate) by {
        assert(!key_lt(<ShadowSummary>::key(list[j]), <ShadowSummary>::key(list[i])));
        lemma_ranked_pair(0, list[j].target_crate, list[j].shadow_crate, 0, list[i].target_crate, list[i].shadow_crate);
    }
}

/// Pairs of a foreign type and its wrapper come by type, then by wrapper.
pub proof fn law_pairs_by_type(s: Seq<(Seq<char>, Seq<char>)>)
    ensures
        ({
            let list = sorted::<(String, String)>(s);
            forall|i: int, j: int|
                #![trigger list[i], list[j]]
                0 <= i < j < list.len() ==> !pair_lt(list[j].0, list[j].1, list[i].0, list[i].1)
        }),
{
    let list = sorted::<(String, String)>(s);
    law_sorted_in_order::<(String, String)>(s);
    assert forall|i: int, j: int| #![trigger list[i], list[j]] 0 <= i < j < list.len() implies !pair_lt(list[j].0, list[j].1, list[i].0, list[i].1) by {
        assert(!key_lt(<(String, String)>::key(list[j]), <(String, String)>::key(list[i])));
        lemma_ranked_pair(0, list[j].0, list[j].1, 0, list[i].0, list[i].1);
    }
}

/// Skipped pairs come by upstream crate, then by shadow crate.
pub proof fn law_skipped_by_crate(s: Seq<SkippedPairView>)
    ensures
        ({
            let list = sorted::<ShadowSkippedPair>(s);
            forall|i: int, j: int|
                #![trigger list[i], list[j]]
                0 <= i < j < list.len() ==> !pair_lt(list[j].upstream_crate, list[j].shadow_crate, list[i].upstream_crate, list[i].shadow_crate)
        }),
{
    let list = sorted::<ShadowSkippedPair>(s);
    law_sorted_in_order::<ShadowSkippedPair>(s);
    assert forall|i: int, j: int| #![trigger list[i], list[j]] 0 <= i < j < list.len() implies !pair_lt(list[j].upstream_crate, list[j].shadow_crate, list[i].upstream_crate, list[i].shadow_crate) by {
        assert(!key_lt(<ShadowSkippedPair>::key(list[j]), <ShadowSkippedPair>::key(list[i])));
        lemma_ranked_pair(0, list[j].upstream_crate, list[j].shadow_crate, 0, list[i].upstream_crate, list[i].shadow_crate);
    }
}

/// Records come by rank, then by family, then by path.
pub proof fn law_records_by_rank(s: Seq<KeyedRecordView>)
    ensures
        ({
            let list = records_in_order(s);
            forall|i: int, j: int|
                #![trigger list[i], list[j]]
                0 <= i < j < list.len() ==> !((list[j].rank as int) < (list[i].rank as int) || ((list[j].rank as int) == (list[i].rank as int) && pair_lt(list[j].family, list[j].path, list[i].family, list[i].path)))
        }),
{
    let list = records_in_order(s);
    law_sorted_in_order::<KeyedRecord>(s);
    assert forall|i: int, j: int| #![trigger list[i], list[j]] 0 <= i < j < list.len() implies !((list[j].rank as int) < (list[i].rank as int) || ((list[j].rank as int) == (list[i].rank as int) && pair_lt(list[j].family, list[j].path, list[i].family, list[i].path))) by {
        assert(!key_lt(<KeyedRecord>::key(list[j]), <KeyedRecord>::key(list[i])));
        lemma_ranked_pair((list[j].rank as int), list[j].family, list[j].path, (list[i].rank as int), list[i].family, list[i].path);
    }
}

/// Incomplete wrappers come first, complete ones second.
pub open spec fn wrapper_place(v: TrenchcoatView) -> int {
    if v.wrapper_elicit_complete {
        1
    } else {
        0
    }
}

/// Trenchcoats come by whether their wrapper is complete, then by crate and type.
pub proof fn law_trenchcoats_by_need(s: Seq<TrenchcoatView>)
    ensures
        ({
            let list = sorted::<TrenchcoatEntry>(s);
            forall|i: int, j: int|
                #![trigger list[i], list[j]]
                0 <= i < j < list.len() ==> !(wrapper_place(list[j]) < wrapper_place(list[i]) || (wrapper_place(list[j]) == wrapper_place(list[i]) && pair_lt(list[j].foreign_crate, list[j].foreign_type, list[i].foreign_crate, list[i].foreign_type)))
        }),
{
    let list = sorted::<TrenchcoatEntry>(s);
    law_sorted_in_order::<TrenchcoatEntry>(s);
    assert forall|i: int, j: int| #![trigger list[i], list[j]] 0 <= i < j < list.len() implies !(wrapper_place(list[j]) < wrapper_place(list[i]) || (wrapper_place(list[j]) == wrapper_place(list[i]) && pair_lt(list[j].foreign_crate, list[j].foreign_type, list[i].foreign_crate, list[i].foreign_type))) by {
        assert(!key_lt(<TrenchcoatEntry>::key(list[j]), <TrenchcoatEntry>::key(list[i])));
        lemma_ranked_pair(wrapper_place(list[j]), list[j].foreign_crate, list[j].foreign_type, wrapper_place(list[i]), list[i].foreign_crate, list[i].foreign_type);
    }
}

/// Missing traits of ours come first, then a missing impl, then missing features.
pub open spec fn gap_place(v: ImplGapView) -> int {
    match v.gap_kind {
        ImplGapKind::MissingOurTraits => 0,
        ImplGapKind::ReadyForElicitComplete => 1,
        ImplGapKind::FeatureGatedExternal => 2,
    }
}

/// Impl gaps come by kind, then by crate and path.
pub proof fn law_gaps_by_need(s: Seq<ImplGapView>)
    ensures
        ({
            let list = sorted::<ImplGapEntry>(s);
            forall|i: int, j: int|
                #![trigger list[i], list[j]]
                0 <= i < j < list.len() ==> !(gap_place(list[j]) < gap_place(list[i]) || (gap_place(list[j]) == gap_place(list[i]) && pair_lt(list[j].source_crate, list[j].type_path, list[i].source_crate, list[i].type_path)))
        }),
{
    let list = sorted::<ImplGapEntry>(s);
    law_sorted_in_order::<ImplGapEntry>(s);
    assert forall|i: int, j: int| #![trigger list[i], list[j]] 0 <= i < j < list.len() implies !(gap_place(list[j]) < gap_place(list[i]) || (gap_place(list[j]) == gap_place(list[i]) && pair_lt(list[j].source_crate, list[j].type_path, list[i].source_crate, list[i].type_path))) by {
        assert(!key_lt(<ImplGapEntry>::key(list[j]), <ImplGapEntry>::key(list[i])));
        lemma_ranked_pair(gap_place(list[j]), list[j].source_crate, list[j].type_path, gap_place(list[i]), list[i].source_crate, list[i].type_path);
    }
}

/// Missing items come first, then drifted, stale and infrastructure ones, then unverified ones.
pub open spec fn shadow_gap_place(v: ShadowGapView) -> int {
    match v.gap_kind {
        ShadowGapKind::Missing => 0,
        ShadowGapKind::Drifted => 1,
        ShadowGapKind::PossiblyStale => 2,
        ShadowGapKind::InfrastructureExtra => 3,
        ShadowGapKind::ShadowVerificationGap => 4,
    }
}

/// Shadow gaps come by kind, then by crate and path.
pub proof fn law_shadow_gaps_by_need(s: Seq<ShadowGapView>)
    ensures
        ({
            let list = sorted::<ShadowGapEntry>(s);
            forall|i: int, j: int|
                #![trigger list[i], list[j]]
                0 <= i < j < list.len() ==> !(shadow_gap_place(list[j]) < shadow_gap_place(list[i]) || (shadow_gap_place(list[j]) == shadow_gap_place(list[i]) && pair_lt(list[j].target_crate, list[j].item_path, list[i].target_crate, list[i].item_path)))
        }),
{
    let list = sorted::<ShadowGapEntry>(s);
    law_sorted_in_order::<ShadowGapEntry>(s);
    assert forall|i: int, j: int| #![trigger list[i], list[j]] 0 <= i < j < list.len() implies !(shadow_gap_place(list[j]) < shadow_gap_place(list[i]) || (shadow_gap_place(list[j]) == shadow_gap_place(list[i]) && pair_lt(list[j].target_crate, list[j].item_path, list[i].target_crate, list[i].item_path))) by {
        assert(!key_lt(<ShadowGapEntry>::key(list[j]), <ShadowGapEntry>::key(list[i])));
        lemma_ranked_pair(shadow_gap_place(list[j]), list[j].target_crate, list[j].item_path, shadow_gap_place(list[i]), list[i].target_crate, list[i].item_path);
    }
}

}
