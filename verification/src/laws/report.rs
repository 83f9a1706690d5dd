//! What the documents say of the reports and lists that they are made from.

use vstd::prelude::*;
use vstd::utf8::encode_utf8;

use crate::collect::TypeFeatureProbe;
use crate::gaps::{assessment, shadow_assessment, ImplAssessmentView, ImplGapKind, ImplGapView};
use crate::gaps::{ImplRowKind, ShadowAssessmentView, ShadowCoverageKind, ShadowGapKind, ShadowGapView};
use crate::impl_coverage::{ImplEntryView, ImplStatus, TestView};
use crate::inventory::ItemKind;
use crate::laws::basics::{is_first_entry, is_key, law_first_entry_counts, law_keyed};
use crate::laws::text::{law_split_parts, lemma_no_character};
use crate::order::{key_lt, law_sorted_in_order, law_sorted_members, law_sorted_permutes, sorted};
use crate::report::{csv_document, csv_field, csv_record, family, fields_of, given_probe, given_wrappers};
use crate::report::{impl_coverage_columns, impl_coverage_fields, impl_gaps_columns, impl_gaps_fields};
use crate::report::{impl_gaps_records, impl_record, impl_records, record_key, records_in_order};
use crate::report::{row_rank, shadow_columns, shadow_fields, shadow_gaps_columns, shadow_gaps_fields};
use crate::report::{shadow_gaps_records, shadow_rank, shadow_record_of, shadow_records};
use crate::report::{trenchcoats_columns, trenchcoats_fields, trenchcoats_records};
use crate::report::{KeyedRecord, KeyedRecordView};
use crate::shadow::{ShadowRowView, ShadowStatus};
use crate::table::{keyed, value_of};
use crate::text::{joined, replaced, segments, split, views};
use crate::trenchcoat::{TrenchcoatView, WrapperCoverageMap, WrapperView};

verus! {

/// The record has a cell for every column, and under the column stands the value.
pub open spec fn is_cell(
    columns: Seq<Seq<char>>,
    fields: Seq<Seq<char>>,
    i: int,
    column: Seq<char>,
    value: Seq<char>,
) -> bool {
    0 <= i < columns.len() && columns.len() == fields.len() && columns[i] == column && fields[i]
        == value
}

/// How a truth value is written.
pub open spec fn yes_or_no(b: bool) -> Seq<char> {
    if b {
        "true"@
    } else {
        "false"@
    }
}

/// How it is written whether a trait is there.
pub open spec fn there_or_not(b: bool) -> Seq<char> {
    if b {
        "present"@
    } else {
        "absent"@
    }
}

/// Each cell of the record of a type holds what its column says: of the type itself, of its traits
/// and of its diagnosis.
pub proof fn law_impl_coverage_cells(e: ImplEntryView, a: ImplAssessmentView)
    ensures
        ({
            let columns = impl_coverage_columns();
            let fields = impl_coverage_fields(e, a);
            &&& is_cell(columns, fields, 0, "type_path"@, e.type_path)
            &&& is_cell(columns, fields, 1, "type_kind"@, e.type_kind.name())
            &&& is_cell(columns, fields, 2, "api_family"@, family(e.type_path))
            &&& is_cell(columns, fields, 3, "is_generic"@, yes_or_no(e.is_generic))
            &&& is_cell(columns, fields, 4, "lifetime_params"@, joined(e.lifetime_params, ";"@))
            &&& is_cell(columns, fields, 5, "type_params"@, joined(e.type_params, ";"@))
            &&& is_cell(columns, fields, 6, "elicit_impl"@, e.elicit_impl.name())
            &&& is_cell(columns, fields, 7, "proof_test"@, e.proof_test.name())
            &&& is_cell(columns, fields, 8, "composition_test"@, e.composition_test.name())
            &&& is_cell(columns, fields, 9, "row_kind"@, a.row_kind.name())
            &&& is_cell(columns, fields, 10, "primary_gap_kind"@, match a.primary_gap_kind { Some(kind) => kind.name(), None => ""@ })
            &&& is_cell(columns, fields, 11, "our_traits_complete"@, yes_or_no(a.our_traits_complete))
            &&& is_cell(columns, fields, 12, "feature_unlock_possible"@, yes_or_no(a.feature_gated_external))
            &&& is_cell(columns, fields, 13, "feature_owner_crate"@, a.feature_owner_crate)
            &&& is_cell(columns, fields, 14, "blocked_reason"@, a.blocked_reason)
            &&& is_cell(columns, fields, 15, "has_serialize"@, there_or_not(e.prereqs.serialize))
            &&& is_cell(columns, fields, 16, "has_deserialize"@, there_or_not(e.prereqs.deserialize))
            &&& is_cell(columns, fields, 17, "has_json_schema"@, there_or_not(e.prereqs.json_schema))
            &&& is_cell(columns, fields, 18, "has_elicitation"@, there_or_not(e.prereqs.elicitation_trait))
            &&& is_cell(columns, fields, 19, "has_elicit_introspect"@, there_or_not(e.prereqs.elicit_introspect))
            &&& is_cell(columns, fields, 20, "has_elicit_spec"@, there_or_not(e.prereqs.elicit_spec))
            &&& is_cell(columns, fields, 21, "has_elicit_prompt_tree"@, there_or_not(e.prereqs.elicit_prompt_tree))
            &&& is_cell(columns, fields, 22, "has_to_code_literal"@, there_or_not(e.prereqs.to_code_literal))
            &&& is_cell(columns, fields, 23, "can_be_direct"@, yes_or_no(a.can_be_direct))
            &&& is_cell(columns, fields, 24, "missing_external_traits"@, a.missing_external_traits)
            &&& is_cell(columns, fields, 25, "missing_our_traits"@, a.missing_our_traits)
            &&& is_cell(columns, fields, 26, "candidate_unlock_features"@, a.candidate_unlock_features)
            &&& is_cell(columns, fields, 27, "action"@, a.action)
            &&& is_cell(columns, fields, 28, "notes"@, e.notes)
            &&& columns.len() == 29
        }),
{
}

/// Each cell of the record of a row of a shadow report holds what its column says.
pub proof fn law_shadow_cells(v: ShadowRowView, a: ShadowAssessmentView)
    ensures
        ({
            let columns = shadow_columns();
            let fields = shadow_fields(v, a);
            &&& is_cell(columns, fields, 0, "item_path"@, v.item_path)
            &&& is_cell(columns, fields, 1, "item_kind"@, v.item_kind.name())
            &&& is_cell(columns, fields, 2, "api_family"@, family(v.item_path))
            &&& is_cell(columns, fields, 3, "status"@, v.status.name())
            &&& is_cell(columns, fields, 4, "coverage_kind"@, a.coverage_kind.name())
            &&& is_cell(columns, fields, 5, "primary_gap_kind"@, match a.primary_gap_kind { Some(kind) => kind.name(), None => ""@ })
            &&& is_cell(columns, fields, 6, "shadow_item"@, v.shadow_item)
            &&& is_cell(columns, fields, 7, "drift_confidence"@, v.drift_confidence)
            &&& is_cell(columns, fields, 8, "shadow_elicit_impl"@, v.shadow_elicit_impl)
            &&& is_cell(columns, fields, 9, "verification_gap"@, yes_or_no(a.verification_gap))
            &&& is_cell(columns, fields, 10, "verification_ready"@, yes_or_no(a.verification_ready))
            &&& is_cell(columns, fields, 11, "shadow_can_be_direct"@, v.shadow_can_be_direct)
            &&& is_cell(columns, fields, 12, "shadow_missing_external_traits"@, v.shadow_missing_external_traits)
            &&& is_cell(columns, fields, 13, "shadow_missing_our_traits"@, v.shadow_missing_our_traits)
            &&& is_cell(columns, fields, 14, "action"@, a.action)
            &&& is_cell(columns, fields, 15, "notes"@, v.notes)
            &&& columns.len() == 16
        }),
{
}

/// Each cell of the record of an impl gap holds what its column says.
pub proof fn law_impl_gap_cells(g: ImplGapView)
    ensures
        ({
            let columns = impl_gaps_columns();
            let fields = impl_gaps_fields(g);
            &&& is_cell(columns, fields, 0, "source_crate"@, g.source_crate)
            &&& is_cell(columns, fields, 1, "type_path"@, g.type_path)
            &&& is_cell(columns, fields, 2, "type_kind"@, g.type_kind.name())
            &&& is_cell(columns, fields, 3, "is_generic"@, yes_or_no(g.is_generic))
            &&& is_cell(columns, fields, 4, "gap_kind"@, g.gap_kind.name())
            &&& is_cell(columns, fields, 5, "our_traits_complete"@, yes_or_no(g.our_traits_complete))
            &&& is_cell(columns, fields, 6, "can_be_direct"@, yes_or_no(g.can_be_direct))
            &&& is_cell(columns, fields, 7, "elicit_complete_gap"@, yes_or_no(g.elicit_complete_gap))
            &&& is_cell(columns, fields, 8, "feature_gated_external"@, yes_or_no(g.feature_gated_external))
            &&& is_cell(columns, fields, 9, "blocked_by_orphan_rule"@, yes_or_no(g.blocked_by_orphan_rule))
            &&& is_cell(columns, fields, 10, "missing_external_traits"@, g.missing_external_traits)
            &&& is_cell(columns, fields, 11, "missing_our_traits"@, g.missing_our_traits)
            &&& is_cell(columns, fields, 12, "feature_owner_crate"@, g.feature_owner_crate)
            &&& is_cell(columns, fields, 13, "candidate_unlock_features"@, g.candidate_unlock_features)
            &&& is_cell(columns, fields, 14, "action"@, g.action)
            &&& columns.len() == 15
        }),
{
}

/// Each cell of the record of a shadow gap holds what its column says.
pub proof fn law_shadow_gap_cells(g: ShadowGapView)
    ensures
        ({
            let columns = shadow_gaps_columns();
            let fields = shadow_gaps_fields(g);
            &&& is_cell(columns, fields, 0, "target_crate"@, g.target_crate)
            &&& is_cell(columns, fields, 1, "shadow_crate"@, g.shadow_crate)
            &&& is_cell(columns, fields, 2, "item_path"@, g.item_path)
            &&& is_cell(columns, fields, 3, "item_kind"@, g.item_kind.name())
            &&& is_cell(columns, fields, 4, "gap_kind"@, g.gap_kind.name())
            &&& is_cell(columns, fields, 5, "matched_shadow_item"@, g.matched_shadow_item)
            &&& is_cell(columns, fields, 6, "drift_confidence"@, g.drift_confidence)
            &&& is_cell(columns, fields, 7, "shadow_elicit_impl"@, g.shadow_elicit_impl)
            &&& is_cell(columns, fields, 8, "shadow_can_be_direct"@, g.shadow_can_be_direct)
            &&& is_cell(columns, fields, 9, "shadow_missing_external_traits"@, g.shadow_missing_external_traits)
            &&& is_cell(columns, fields, 10, "shadow_missing_our_traits"@, g.shadow_missing_our_traits)
            &&& is_cell(columns, fields, 11, "action"@, g.action)
            &&& is_cell(columns, fields, 12, "notes"@, g.notes)
            &&& columns.len() == 13
        }),
{
}

/// Each cell of the record of a trenchcoat holds what its column says.
pub proof fn law_trenchcoat_cells(g: TrenchcoatView)
    ensures
        ({
            let columns = trenchcoats_columns();
            let fields = trenchcoats_fields(g);
            &&& is_cell(columns, fields, 0, "foreign_crate"@, g.foreign_crate)
            &&& is_cell(columns, fields, 1, "foreign_type"@, g.foreign_type)
            &&& is_cell(columns, fields, 2, "wrapper_path"@, g.wrapper_path)
            &&& is_cell(columns, fields, 3, "wrapper_elicit_complete"@, yes_or_no(g.wrapper_elicit_complete))
            &&& is_cell(columns, fields, 4, "wrapper_missing_our_traits"@, g.wrapper_missing_our_traits)
            &&& is_cell(columns, fields, 5, "foreign_missing_our_traits"@, g.foreign_missing_our_traits)
            &&& columns.len() == 6
        }),
{
}

/// States and kinds are written by their names; a tested instantiation is written with its state.
pub proof fn law_names(
    a: ImplRowKind,
    b: ImplGapKind,
    c: ShadowGapKind,
    d: ShadowCoverageKind,
    e: ShadowStatus,
    f: ImplStatus,
    g: ItemKind,
    t: TestView,
)
    ensures
        a is Covered ==> a.name() == "Covered"@,
        a is MissingOurTraits ==> a.name() == "MissingOurTraits"@,
        a is ReadyForElicitComplete ==> a.name() == "ReadyForElicitComplete"@,
        a is FeatureGatedExternal ==> a.name() == "FeatureGatedExternal"@,
        a is ExternallyBlocked ==> a.name() == "ExternallyBlocked"@,
        b is MissingOurTraits ==> b.name() == "MissingOurTraits"@,
        b is ReadyForElicitComplete ==> b.name() == "ReadyForElicitComplete"@,
        b is FeatureGatedExternal ==> b.name() == "FeatureGatedExternal"@,
        c is Missing ==> c.name() == "Missing"@,
        c is Drifted ==> c.name() == "Drifted"@,
        c is PossiblyStale ==> c.name() == "PossiblyStale"@,
        c is InfrastructureExtra ==> c.name() == "InfrastructureExtra"@,
        c is ShadowVerificationGap ==> c.name() == "ShadowVerificationGap"@,
        d is Covered ==> d.name() == "Covered"@,
        d is Missing ==> d.name() == "Missing"@,
        d is Drifted ==> d.name() == "Drifted"@,
        d is PossiblyStale ==> d.name() == "PossiblyStale"@,
        d is InfrastructureExtra ==> d.name() == "InfrastructureExtra"@,
        e is Covered ==> e.name() == "Covered"@,
        e is Extra ==> e.name() == "Extra"@,
        e is Missing ==> e.name() == "Missing"@,
        e is Drifted ==> e.name() == "Drifted"@,
        f is Complete ==> f.name() == "Complete"@,
        f is CompleteFactory ==> f.name() == "CompleteFactory"@,
        f is Partial ==> f.name() == "Partial"@,
        f is Missing ==> f.name() == "Missing"@,
        g is Struct ==> g.name() == "Struct"@,
        g is Enum ==> g.name() == "Enum"@,
        g is Trait ==> g.name() == "Trait"@,
        g is TypeAlias ==> g.name() == "TypeAlias"@,
        g is Method ==> g.name() == "Method"@,
        g is Function ==> g.name() == "Function"@,
        g is Macro ==> g.name() == "Macro"@,
        g is Constant ==> g.name() == "Constant"@,
        g is Module ==> g.name() == "Module"@,
        g is Other ==> g.name() == "Other"@,
        t is Covered ==> t.name() == "Covered"@,
        t is Missing ==> t.name() == "Missing"@,
        t matches TestView::CoveredConcrete { instantiation } ==> t.name() == "CoveredConcrete("@
            + instantiation + ")"@,
{
}

/// The family of an item is made of the first segments of its path, three at most.
pub proof fn law_family(path: Seq<char>)
    ensures
        ({
            let s = segments(path);
            &&& s.len() <= 3 ==> family(path) == joined(s, "::"@)
            &&& s.len() > 3 ==> family(path) == s[0] + "::"@ + s[1] + "::"@ + s[2]
        }),
{
    let s = segments(path);
    if s.len() <= 3 {
        assert(s.take(s.len() as int) =~= s);
    } else {
        let t = s.take(3);
        reveal_with_fuel(joined, 4);
        assert(t.drop_last() =~= seq![s[0], s[1]]);
        assert(t.drop_last().drop_last() =~= seq![s[0]]);
        assert(t.last() == s[2]);
        assert(t.drop_last().last() == s[1]);
    }
}

/// The field is written with the parts between its quotes joined by doubled quotes.
pub open spec fn doubles_quotes(field: Seq<char>, text: Seq<char>) -> bool {
    exists|parts: Seq<Seq<char>>|
        #![trigger joined(parts, "\""@)]
        joined(parts, "\""@) == field && joined(parts, "\"\""@) == text && forall|i: int|
            0 <= i < parts.len() ==> !(#[trigger] parts[i]).contains('"')
}

/// A field that holds a comma, a quote or a line break is quoted and its quotes are doubled; any
/// other field is written as it is.
pub proof fn law_csv_field(field: Seq<char>)
    ensures
        !field.contains(',') && !field.contains('"') && !field.contains('\r') && !field.contains(
            '\n',
        ) ==> csv_field(field) == field,
        field.contains(',') || field.contains('"') || field.contains('\r') || field.contains('\n')
            ==> exists|text: Seq<char>|
            csv_field(field) == "\""@ + text + "\""@ && #[trigger] doubles_quotes(field, text),
{
    reveal_strlit("\"");
    assert("\""@ =~= seq!['"']);
    let text = replaced(field, "\""@, "\"\""@);
    let parts = split(field, "\""@);
    law_split_parts(field, "\""@);
    assert forall|i: int| 0 <= i < parts.len() implies !(#[trigger] parts[i]).contains('"') by {
        lemma_no_character(parts[i], '"');
    }
    assert(joined(parts, "\""@) == field);
    assert(doubles_quotes(field, text));
}

/// A record is its fields with commas between them and a line feed behind them; a document is its
/// records, one after the other.
pub proof fn law_csv_document(a: Seq<Seq<Seq<char>>>, b: Seq<Seq<Seq<char>>>, record: Seq<Seq<char>>)
    ensures
        csv_record(record) == joined(
            Seq::new(record.len(), |i: int| csv_field(record[i])),
            ","@,
        ) + "\n"@,
        csv_document(Seq::empty()).len() == 0,
        csv_document(seq![record]) == encode_utf8(csv_record(record)),
        csv_document(a + b) == csv_document(a) + csv_document(b),
    decreases b.len(),
{
    assert(record.map_values(|f: Seq<char>| csv_field(f)) =~= Seq::new(
        record.len(),
        |i: int| csv_field(record[i]),
    ));
    assert(seq![record].drop_last() =~= Seq::empty());
    assert(csv_document(seq![record].drop_last()) =~= Seq::empty());
    assert(csv_document(seq![record]) =~= encode_utf8(csv_record(record)));
    if b.len() == 0 {
        assert(a + b =~= a);
        assert(csv_document(a + b) =~= csv_document(a) + csv_document(b));
    } else {
        law_csv_document(a, b.drop_last(), record);
        assert((a + b).drop_last() =~= a + b.drop_last());
        assert((a + b).last() == b.last());
        assert(csv_document(a + b) =~= csv_document(a) + csv_document(b));
    }
}

/// The probe that a record of a type goes by is the first that the table has for it, and none
/// without a table.
pub proof fn law_given_probe(probes: Option<&Vec<(String, TypeFeatureProbe)>>, path: Seq<char>)
    ensures
        match probes {
            Some(table) => {
                &&& given_probe(probes, path) is Some <==> is_key(keyed(table@), path)
                &&& forall|i: int| #[trigger]
                    is_first_entry(keyed(table@), path, i) ==> given_probe(probes, path) == Some(
                        table@[i].1@,
                    )
            },
            None => given_probe(probes, path) is None,
        },
{
    match probes {
        Some(table) => {
            law_first_entry_counts(keyed(table@), path);
            law_keyed(table@);
            assert forall|i: int| #[trigger] is_first_entry(keyed(table@), path, i) implies given_probe(
                probes,
                path,
            ) == Some(table@[i].1@) by {
                assert(keyed(table@)[i].1 == table@[i].1);
            }
        },
        None => {},
    }
}

/// The document of an impl report has one record for every type, that of the type with its probe
/// and its wrappers. What is to be done comes first: missing traits of ours, then a missing impl,
/// then missing features, then what is blocked, then what is covered.
pub proof fn law_impl_document(
    source: Seq<char>,
    entries: Seq<ImplEntryView>,
    probes: Option<&Vec<(String, TypeFeatureProbe)>>,
    map: Option<&WrapperCoverageMap>,
)
    ensures
        ({
            let list = records_in_order(impl_records(source, entries, probes, map));
            &&& list.len() == entries.len()
            &&& fields_of(list).len() == entries.len()
            &&& forall|i: int|
                0 <= i < entries.len() ==> fields_of(list).contains(
                    impl_coverage_fields(
                        #[trigger] entries[i],
                        assessment(
                            source,
                            entries[i],
                            given_probe(probes, entries[i].type_path),
                            given_wrappers(map, entries[i].type_path),
                        ),
                    ),
                )
            &&& forall|i: int, j: int|
                0 <= i < j < list.len() ==> (#[trigger] list[i]).rank <= (#[trigger] list[j]).rank
        }),
        row_rank(ImplRowKind::MissingOurTraits) < row_rank(ImplRowKind::ReadyForElicitComplete)
            < row_rank(ImplRowKind::FeatureGatedExternal) < row_rank(ImplRowKind::ExternallyBlocked)
            < row_rank(ImplRowKind::Covered),
        forall|e: ImplEntryView, probe: Option<crate::collect::TypeFeatureProbeView>, ws: Seq<WrapperView>|
            (#[trigger] impl_record(source, e, probe, ws)).rank == row_rank(
                assessment(source, e, probe, ws).row_kind,
            ),
{
    let all = impl_records(source, entries, probes, map);
    let list = records_in_order(all);
    law_sorted_permutes::<KeyedRecord>(all);
    lemma_ranks(all);
    assert forall|i: int| 0 <= i < entries.len() implies fields_of(list).contains(
        impl_coverage_fields(
            #[trigger] entries[i],
            assessment(
                source,
                entries[i],
                given_probe(probes, entries[i].type_path),
                given_wrappers(map, entries[i].type_path),
            ),
        ),
    ) by {
        lemma_record_listed(all, i);
        assert(all[i].fields == impl_coverage_fields(
            entries[i],
            assessment(
                source,
                entries[i],
                given_probe(probes, entries[i].type_path),
                given_wrappers(map, entries[i].type_path),
            ),
        ));
    }
}

/// The document of a shadow report has one record for every row. What is to be done comes first:
/// missing items, drifted ones, unverified matches, stale items, then helpers and covered items.
pub proof fn law_shadow_document(rows: Seq<ShadowRowView>)
    ensures
        ({
            let list = records_in_order(shadow_records(rows));
            &&& list.len() == rows.len()
            &&& fields_of(list).len() == rows.len()
            &&& forall|i: int|
                0 <= i < rows.len() ==> fields_of(list).contains(
                    shadow_fields(#[trigger] rows[i], shadow_assessment(rows[i])),
                )
            &&& forall|i: int, j: int|
                0 <= i < j < list.len() ==> (#[trigger] list[i]).rank <= (#[trigger] list[j]).rank
        }),
        forall|gap: bool|
            shadow_rank(ShadowCoverageKind::Missing, gap) < #[trigger] shadow_rank(
                ShadowCoverageKind::Drifted,
                gap,
            ) && shadow_rank(ShadowCoverageKind::Drifted, gap) < shadow_rank(
                ShadowCoverageKind::Covered,
                true,
            ) && shadow_rank(ShadowCoverageKind::Covered, true) < shadow_rank(
                ShadowCoverageKind::PossiblyStale,
                gap,
            ) && shadow_rank(ShadowCoverageKind::PossiblyStale, gap) < shadow_rank(
                ShadowCoverageKind::InfrastructureExtra,
                gap,
            ) && shadow_rank(ShadowCoverageKind::InfrastructureExtra, gap) < shadow_rank(
                ShadowCoverageKind::Covered,
                false,
            ),
        forall|v: ShadowRowView|
            (#[trigger] shadow_record_of(v)).rank == shadow_rank(
                shadow_assessment(v).coverage_kind,
                shadow_assessment(v).verification_gap,
            ),
{
    let all = shadow_records(rows);
    let list = records_in_order(all);
    law_sorted_permutes::<KeyedRecord>(all);
    lemma_ranks(all);
    assert forall|i: int| 0 <= i < rows.len() implies fields_of(list).contains(
        shadow_fields(#[trigger] rows[i], shadow_assessment(rows[i])),
    ) by {
        lemma_record_listed(all, i);
        assert(all[i].fields == shadow_fields(rows[i], shadow_assessment(rows[i])));
    }
}

proof fn lemma_ranks(all: Seq<KeyedRecordView>)
    ensures
        ({
            let list = records_in_order(all);
            forall|i: int, j: int|
                0 <= i < j < list.len() ==> (#[trigger] list[i]).rank <= (#[trigger] list[j]).rank
        }),
{
    let list = records_in_order(all);
    law_sorted_in_order::<KeyedRecord>(all);
    assert forall|i: int, j: int| 0 <= i < j < list.len() implies (#[trigger] list[i]).rank <= (
    #[trigger] list[j]).rank by {
        assert(!key_lt(record_key(list[j]), record_key(list[i])));
    }
}

proof fn lemma_record_listed(all: Seq<KeyedRecordView>, i: int)
    requires
        0 <= i < all.len(),
    ensures
        fields_of(records_in_order(all)).contains(all[i].fields),
{
    let list = records_in_order(all);
    assert(all.contains(all[i]));
    law_sorted_members::<KeyedRecord>(all, all[i]);
    let j = choose|j: int| 0 <= j < list.len() && list[j] == all[i];
    assert(fields_of(list)[j] == all[i].fields);
}

/// The documents of lists have one record for each entry, in the order of the list.
pub proof fn law_list_documents(
    a: Seq<ImplGapView>,
    b: Seq<ShadowGapView>,
    c: Seq<TrenchcoatView>,
    i: int,
)
    ensures
        impl_gaps_records(a).len() == a.len(),
        0 <= i < a.len() ==> impl_gaps_records(a)[i] == impl_gaps_fields(a[i]),
        shadow_gaps_records(b).len() == b.len(),
        0 <= i < b.len() ==> shadow_gaps_records(b)[i] == shadow_gaps_fields(b[i]),
        trenchcoats_records(c).len() == c.len(),
        0 <= i < c.len() ==> trenchcoats_records(c)[i] == trenchcoats_fields(c[i]),
{
}

}
