//! The reports as CSV documents.

use vstd::prelude::*;
use vstd::utf8::encode_utf8;

use crate::collect::{TypeFeatureProbe, TypeFeatureProbeView};
use crate::gaps::{assess_impl_entry, assess_shadow_row, assessment, find_wrappers, opt_probe};
use crate::gaps::{probe_in, shadow_assessment, wrappers_for, wrappers_given, ImplAssessmentView};
use crate::gaps::{ImplGapEntry, ImplGapKind, ImplGapView, ImplRowAssessment, ImplRowKind};
use crate::gaps::{ShadowAssessmentView, ShadowCoverageKind, ShadowGapEntry, ShadowGapKind};
use crate::gaps::{ShadowGapView, ShadowRowAssessment};
use crate::impl_coverage::{ImplCoverageEntry, ImplCoverageReport, ImplEntryView};
use crate::order::{ranked_pair_before, sort_ranked, sorted, Key, Ranked};
use crate::shadow::{ShadowReport, ShadowRow, ShadowRowView};
use crate::table::find_value;
use crate::text::{bool_text, bool_word, join, joined, path_segments, replaced, segments, views};
use crate::trenchcoat::{TrenchcoatEntry, TrenchcoatView, WrapperCoverage, WrapperCoverageMap};
use crate::trenchcoat::WrapperView;

verus! {

/// The error of the crate `csv`.
#[verifier::external_type_specification]
#[verifier::external_body]
pub struct ExCsvError(csv::Error);

/// The field can only be read back if quotes stand around it.
pub open spec fn needs_quotes(field: Seq<char>) -> bool {
    field.contains(',') || field.contains('"') || field.contains('\r') || field.contains('\n')
}

/// A field of a CSV record: as it is, or quoted with its quotes doubled.
pub open spec fn csv_field(field: Seq<char>) -> Seq<char> {
    if needs_quotes(field) {
        "\""@ + replaced(field, "\""@, "\"\""@) + "\""@
    } else {
        field
    }
}

/// A CSV record of two or more fields.
pub open spec fn csv_record(fields: Seq<Seq<char>>) -> Seq<char> {
    joined(fields.map_values(|f: Seq<char>| csv_field(f)), ","@) + "\n"@
}

/// Writes one record with `csv::Writer::write_record` into memory and takes the bytes with
/// `csv::Writer::into_inner`. A writer with default settings separates fields by commas, ends
/// the record with a line feed, and quotes the fields that hold a comma, a quote, a carriage
/// return or a line feed, doubling their quotes. The first record of a writer can have any
/// number of fields, and writing into memory does not fail.
#[verifier::external_body]
fn csv_line(fields: &Vec<String>) -> (r: Result<Vec<u8>, csv::Error>)
    requires
        fields@.len() > 1,
    ensures
        match r {
            Ok(bytes) => bytes@ == encode_utf8(csv_record(views(fields@))),
            Err(_) => false,
        },
{
    let mut writer = csv::Writer::from_writer(Vec::new());
    writer.write_record(fields)?;
    Ok(writer.into_inner().map_err(|e| e.into_error())?)
}

/// A CSV document of records of two or more fields.
pub open spec fn csv_document(records: Seq<Seq<Seq<char>>>) -> Seq<u8>
    decreases records.len(),
{
    if records.len() == 0 {
        seq![]
    } else {
        csv_document(records.drop_last()) + encode_utf8(csv_record(records.last()))
    }
}

fn append_record(out: &mut Vec<u8>, fields: &Vec<String>)
    requires
        fields@.len() > 1,
    ensures
        final(out)@ == old(out)@ + encode_utf8(csv_record(views(fields@))),
{
    let mut line = csv_line(fields).unwrap();
    out.append(&mut line);
}

fn push_text(out: &mut Vec<String>, t: &str)
    ensures
        views(final(out)@) == views(old(out)@).push(t@),
        final(out)@.len() == old(out)@.len() + 1,
{
    let ghost held = views(out@);
    out.push(t.to_string());
    assert(views(out@) =~= held.push(t@));
}

fn no_texts() -> (r: Vec<String>)
    ensures
        views(r@) == Seq::<Seq<char>>::empty(),
        r@.len() == 0,
{
    let r: Vec<String> = Vec::new();
    assert(views(r@) =~= Seq::<Seq<char>>::empty());
    r
}

/// A record with the key by which it is sorted: a rank, the family and the path of an item.
#[derive(Debug)]
pub struct KeyedRecord {
    pub rank: u8,
    pub family: String,
    pub path: String,
    pub fields: Vec<String>,
}

/// The contents of a [`KeyedRecord`].
#[verifier::ext_equal]
pub struct KeyedRecordView {
    pub rank: u8,
    pub family: Seq<char>,
    pub path: Seq<char>,
    pub fields: Seq<Seq<char>>,
}

impl View for KeyedRecord {
    type V = KeyedRecordView;

    open spec fn view(&self) -> KeyedRecordView {
        KeyedRecordView {
            rank: self.rank,
            family: self.family@,
            path: self.path@,
            fields: views(self.fields@),
        }
    }
}

/// The key of a record.
pub open spec fn record_key(v: KeyedRecordView) -> Key {
    (v.rank as int, seq![v.family, v.path])
}

impl Ranked for KeyedRecord {
    open spec fn key(v: KeyedRecordView) -> Key {
        record_key(v)
    }

    fn before(&self, other: &Self) -> (r: bool) {
        ranked_pair_before(
            self.rank,
            self.family.as_str(),
            self.path.as_str(),
            other.rank,
            other.family.as_str(),
            other.path.as_str(),
        )
    }
}

/// The records by rank, family and path; records with equal keys keep their order.
pub open spec fn records_in_order(s: Seq<KeyedRecordView>) -> Seq<KeyedRecordView> {
    sorted::<KeyedRecord>(s)
}

/// The fields of records.
pub open spec fn fields_of(s: Seq<KeyedRecordView>) -> Seq<Seq<Seq<char>>> {
    s.map_values(|v: KeyedRecordView| v.fields)
}

fn keyed_document(header: &Vec<String>, records: Vec<KeyedRecord>) -> (r: Vec<u8>)
    requires
        header@.len() > 1,
        forall|i: int| 0 <= i < records@.len() ==> (#[trigger] records@[i])@.fields.len() > 1,
    ensures
        r@ == csv_document(
            seq![views(header@)] + fields_of(records_in_order(views(records@))),
        ),
{
    let ghost before = views(records@);
    proof {
        crate::order::law_sorted_permutes::<KeyedRecord>(before);
    }
    let rows = sort_ranked(records);
    let ghost all = fields_of(views(rows@));
    let ghost first = seq![views(header@)];
    assert forall|i: int| 0 <= i < rows@.len() implies (#[trigger] rows@[i]).fields@.len() > 1 by {
        broadcast use vstd::seq_lib::group_to_multiset_ensures;

        let after = views(rows@);
        assert(after.contains(after[i]));
        assert(after.to_multiset().contains(after[i]));
        assert(before.contains(after[i]));
        let j = choose|j: int| 0 <= j < before.len() && before[j] == after[i];
        assert(before[j] == records@[j]@);
        assert(after[i] == rows@[i]@);
        assert(views(rows@[i].fields@).len() == rows@[i].fields@.len());
    }
    let mut out: Vec<u8> = Vec::new();
    append_record(&mut out, header);
    proof {
        assert(first + all.take(0) =~= first);
        assert(first.drop_last() =~= seq![]);
        assert(csv_document(first) =~= encode_utf8(csv_record(views(header@)))) by {
            reveal_with_fuel(csv_document, 2);
        }
        assert(out@ =~= csv_document(first));
    }
    let mut i: usize = 0;
    while i < rows.len()
        invariant
            i <= rows.len(),
            all == fields_of(views(rows@)),
            out@ == csv_document(first + all.take(i as int)),
            forall|k: int| 0 <= k < rows@.len() ==> (#[trigger] rows@[k]).fields@.len() > 1,
        decreases rows.len() - i,
    {
        assert(rows@[i as int].fields@.len() > 1);
        append_record(&mut out, &rows[i].fields);
        proof {
            let next = first + all.take(i + 1);
            assert(all[i as int] == views(rows@[i as int].fields@));
            assert(next.drop_last() =~= first + all.take(i as int));
            assert(next.last() == all[i as int]);
        }
        i += 1;
    }
    proof {
        assert(all.take(i as int) =~= all);
    }
    out
}

/// Whether a trait is there, in a word.
pub open spec fn presence(present: bool) -> Seq<char> {
    if present {
        "present"@
    } else {
        "absent"@
    }
}

fn trait_avail(present: bool) -> (r: &'static str)
    ensures
        r@ == presence(present),
{
    if present {
        "present"
    } else {
        "absent"
    }
}

/// The family of an item: the first three segments of its path.
pub open spec fn family(path: Seq<char>) -> Seq<char> {
    let s = segments(path);
    joined(
        s.take(
            if s.len() < 3 {
                s.len() as int
            } else {
                3
            },
        ),
        "::"@,
    )
}

/// The family of an item: the first three segments of its path.
pub fn api_family(path: &str) -> (r: String)
    ensures
        r@ == family(path@),
{
    let mut parts = path_segments(path);
    let ghost s = views(parts@);
    let n: usize = if parts.len() < 3 {
        parts.len()
    } else {
        3
    };
    parts.truncate(n);
    assert(views(parts@) =~= s.take(n as int));
    join(&parts, "::")
}

/// The name of a gap, if there is one.
pub open spec fn gap_name(kind: Option<ImplGapKind>) -> Seq<char> {
    match kind {
        Some(kind) => kind.name(),
        None => ""@,
    }
}

fn gap_text(kind: Option<ImplGapKind>) -> (r: String)
    ensures
        r@ == gap_name(kind),
{
    match kind {
        Some(kind) => kind.to_text(),
        None => "".to_string(),
    }
}

/// The name of a shadow gap, if there is one.
pub open spec fn shadow_gap_name(kind: Option<ShadowGapKind>) -> Seq<char> {
    match kind {
        Some(kind) => kind.name(),
        None => ""@,
    }
}

fn shadow_gap_text(kind: Option<ShadowGapKind>) -> (r: String)
    ensures
        r@ == shadow_gap_name(kind),
{
    match kind {
        Some(kind) => kind.to_text(),
        None => "".to_string(),
    }
}

/// The columns of the document.
pub open spec fn impl_coverage_columns() -> Seq<Seq<char>> {
    seq!["type_path"@, "type_kind"@, "api_family"@, "is_generic"@, "lifetime_params"@, "type_params"@, "elicit_impl"@, "proof_test"@, "composition_test"@, "row_kind"@, "primary_gap_kind"@, "our_traits_complete"@, "feature_unlock_possible"@, "feature_owner_crate"@, "blocked_reason"@, "has_serialize"@, "has_deserialize"@, "has_json_schema"@, "has_elicitation"@, "has_elicit_introspect"@, "has_elicit_spec"@, "has_elicit_prompt_tree"@, "has_to_code_literal"@, "can_be_direct"@, "missing_external_traits"@, "missing_our_traits"@, "candidate_unlock_features"@, "action"@, "notes"@]
}

fn impl_coverage_header() -> (r: Vec<String>)
    ensures
        views(r@) == impl_coverage_columns(),
        r@.len() == 29,
{
    let mut out = no_texts();
    push_text(&mut out, "type_path");
    push_text(&mut out, "type_kind");
    push_text(&mut out, "api_family");
    push_text(&mut out, "is_generic");
    push_text(&mut out, "lifetime_params");
    push_text(&mut out, "type_params");
    push_text(&mut out, "elicit_impl");
    push_text(&mut out, "proof_test");
    push_text(&mut out, "composition_test");
    push_text(&mut out, "row_kind");
    push_text(&mut out, "primary_gap_kind");
    push_text(&mut out, "our_traits_complete");
    push_text(&mut out, "feature_unlock_possible");
    push_text(&mut out, "feature_owner_crate");
    push_text(&mut out, "blocked_reason");
    push_text(&mut out, "has_serialize");
    push_text(&mut out, "has_deserialize");
    push_text(&mut out, "has_json_schema");
    push_text(&mut out, "has_elicitation");
    push_text(&mut out, "has_elicit_introspect");
    push_text(&mut out, "has_elicit_spec");
    push_text(&mut out, "has_elicit_prompt_tree");
    push_text(&mut out, "has_to_code_literal");
    push_text(&mut out, "can_be_direct");
    push_text(&mut out, "missing_external_traits");
    push_text(&mut out, "missing_our_traits");
    push_text(&mut out, "candidate_unlock_features");
    push_text(&mut out, "action");
    push_text(&mut out, "notes");
    out
}

/// The fields that describe a type.
pub open spec fn type_fields(e: ImplEntryView) -> Seq<Seq<char>> {
    seq![e.type_path, e.type_kind.name(), family(e.type_path), bool_text(e.is_generic), joined(e.lifetime_params, ";"@), joined(e.type_params, ";"@), e.elicit_impl.name(), e.proof_test.name(), e.composition_test.name()]
}

fn push_type(entry: &ImplCoverageEntry, out: &mut Vec<String>)
    ensures
        views(final(out)@) == views(old(out)@) + type_fields(entry@),
        final(out)@.len() == old(out)@.len() + 9,
{
    push_text(out, entry.type_path.as_str());
    push_text(out, entry.type_kind.to_text().as_str());
    push_text(out, api_family(entry.type_path.as_str()).as_str());
    push_text(out, bool_word(entry.is_generic).as_str());
    push_text(out, join(&entry.lifetime_params, ";").as_str());
    push_text(out, join(&entry.type_params, ";").as_str());
    push_text(out, entry.elicit_impl.to_text().as_str());
    push_text(out, entry.proof_test.to_text().as_str());
    push_text(out, entry.composition_test.to_text().as_str());
}

/// The fields that tell the state of a type.
pub open spec fn state_fields(a: ImplAssessmentView) -> Seq<Seq<char>> {
    seq![a.row_kind.name(), gap_name(a.primary_gap_kind), bool_text(a.our_traits_complete), bool_text(a.feature_gated_external), a.feature_owner_crate, a.blocked_reason]
}

fn push_state(assessment: &ImplRowAssessment, out: &mut Vec<String>)
    ensures
        views(final(out)@) == views(old(out)@) + state_fields(assessment@),
        final(out)@.len() == old(out)@.len() + 6,
{
    push_text(out, assessment.row_kind.to_text().as_str());
    push_text(out, gap_text(assessment.primary_gap_kind).as_str());
    push_text(out, bool_word(assessment.our_traits_complete).as_str());
    push_text(out, bool_word(assessment.feature_gated_external).as_str());
    push_text(out, assessment.feature_owner_crate.as_str());
    push_text(out, assessment.blocked_reason.as_str());
}

/// The fields that tell which traits a type implements.
pub open spec fn trait_fields(e: ImplEntryView) -> Seq<Seq<char>> {
    seq![presence(e.prereqs.serialize), presence(e.prereqs.deserialize), presence(e.prereqs.json_schema), presence(e.prereqs.elicitation_trait), presence(e.prereqs.elicit_introspect), presence(e.prereqs.elicit_spec), presence(e.prereqs.elicit_prompt_tree), presence(e.prereqs.to_code_literal)]
}

fn push_trait(entry: &ImplCoverageEntry, out: &mut Vec<String>)
    ensures
        views(final(out)@) == views(old(out)@) + trait_fields(entry@),
        final(out)@.len() == old(out)@.len() + 8,
{
    push_text(out, trait_avail(entry.prereqs.serialize));
    push_text(out, trait_avail(entry.prereqs.deserialize));
    push_text(out, trait_avail(entry.prereqs.json_schema));
    push_text(out, trait_avail(entry.prereqs.elicitation_trait));
    push_text(out, trait_avail(entry.prereqs.elicit_introspect));
    push_text(out, trait_avail(entry.prereqs.elicit_spec));
    push_text(out, trait_avail(entry.prereqs.elicit_prompt_tree));
    push_text(out, trait_avail(entry.prereqs.to_code_literal));
}

/// The fields that tell what a type lacks and what is to be done.
pub open spec fn advice_fields(a: ImplAssessmentView) -> Seq<Seq<char>> {
    seq![bool_text(a.can_be_direct), a.missing_external_traits, a.missing_our_traits, a.candidate_unlock_features, a.action]
}

fn push_advice(assessment: &ImplRowAssessment, out: &mut Vec<String>)
    ensures
        views(final(out)@) == views(old(out)@) + advice_fields(assessment@),
        final(out)@.len() == old(out)@.len() + 5,
{
    push_text(out, bool_word(assessment.can_be_direct).as_str());
    push_text(out, assessment.missing_external_traits.as_str());
    push_text(out, assessment.missing_our_traits.as_str());
    push_text(out, assessment.candidate_unlock_features.as_str());
    push_text(out, assessment.action.as_str());
}

/// The fields for a type and its diagnosis.
pub open spec fn impl_coverage_fields(e: ImplEntryView, a: ImplAssessmentView) -> Seq<Seq<char>> {
    (type_fields(e) + state_fields(a) + trait_fields(e) + advice_fields(a)).push(e.notes)
}

fn impl_coverage_record(entry: &ImplCoverageEntry, assessment: &ImplRowAssessment) -> (r: Vec<String>)
    ensures
        views(r@) == impl_coverage_fields(entry@, assessment@),
        r@.len() == 29,
{
    let mut out = no_texts();
    push_type(entry, &mut out);
    assert(views(out@) =~= type_fields(entry@));
    push_state(assessment, &mut out);
    push_trait(entry, &mut out);
    push_advice(assessment, &mut out);
    push_text(&mut out, entry.notes.as_str());
    out
}

/// The rank of a state in a document: what is to be done comes first.
pub open spec fn row_rank(kind: ImplRowKind) -> u8 {
    match kind {
        ImplRowKind::MissingOurTraits => 0,
        ImplRowKind::ReadyForElicitComplete => 1,
        ImplRowKind::FeatureGatedExternal => 2,
        ImplRowKind::ExternallyBlocked => 3,
        ImplRowKind::Covered => 4,
    }
}

fn impl_row_kind_order(kind: ImplRowKind) -> (r: u8)
    ensures
        r == row_rank(kind),
{
    match kind {
        ImplRowKind::MissingOurTraits => 0,
        ImplRowKind::ReadyForElicitComplete => 1,
        ImplRowKind::FeatureGatedExternal => 2,
        ImplRowKind::ExternallyBlocked => 3,
        ImplRowKind::Covered => 4,
    }
}

/// The probe for a type, if a table is given and lists it.
pub open spec fn given_probe(probes: Option<&Vec<(String, TypeFeatureProbe)>>, path: Seq<char>) -> Option<
    TypeFeatureProbeView,
> {
    match probes {
        Some(table) => probe_in(table@, path),
        None => None,
    }
}

/// The wrappers of a type, none where no table is given.
pub open spec fn given_wrappers(map: Option<&WrapperCoverageMap>, path: Seq<char>) -> Seq<WrapperView> {
    match map {
        Some(m) => wrappers_for(m@, path),
        None => seq![],
    }
}

/// The record for a type of a report.
pub open spec fn impl_record(
    source: Seq<char>,
    e: ImplEntryView,
    probe: Option<TypeFeatureProbeView>,
    ws: Seq<WrapperView>,
) -> KeyedRecordView {
    let a = assessment(source, e, probe, ws);
    KeyedRecordView {
        rank: row_rank(a.row_kind),
        family: family(e.type_path),
        path: e.type_path,
        fields: impl_coverage_fields(e, a),
    }
}

/// The records for the types of a report.
pub open spec fn impl_records(
    source: Seq<char>,
    entries: Seq<ImplEntryView>,
    probes: Option<&Vec<(String, TypeFeatureProbe)>>,
    map: Option<&WrapperCoverageMap>,
) -> Seq<KeyedRecordView> {
    entries.map_values(
        |e: ImplEntryView|
            impl_record(source, e, given_probe(probes, e.type_path), given_wrappers(map, e.type_path)),
    )
}

/// The wrappers of a type, if a table is given and lists it.
pub fn find_given_wrappers<'a>(map: Option<&'a WrapperCoverageMap>, path: &str) -> (r: Option<
    &'a Vec<WrapperCoverage>,
>)
    ensures
        wrappers_given(r) == given_wrappers(map, path@),
{
    match map {
        Some(m) => find_wrappers(m, path),
        None => None,
    }
}

/// The document of an impl coverage report: what is to be done comes first, related types stand
/// together.
pub fn write_impl_coverage_csv(
    report: &ImplCoverageReport,
    type_feature_probes: Option<&Vec<(String, TypeFeatureProbe)>>,
    wrapper_coverage: Option<&WrapperCoverageMap>,
) -> (r: Vec<u8>)
    ensures
        r@ == csv_document(
            seq![impl_coverage_columns()] + fields_of(
                records_in_order(
                    impl_records(
                        report.source_crate@,
                        views(report.entries@),
                        type_feature_probes,
                        wrapper_coverage,
                    ),
                ),
            ),
        ),
{
    let ghost all = views(report.entries@);
    let ghost rows = impl_records(
        report.source_crate@,
        all,
        type_feature_probes,
        wrapper_coverage,
    );
    let mut records: Vec<KeyedRecord> = Vec::new();
    let mut i: usize = 0;
    while i < report.entries.len()
        invariant
            i <= report.entries.len(),
            all == views(report.entries@),
            rows == impl_records(
                report.source_crate@,
                all,
                type_feature_probes,
                wrapper_coverage,
            ),
            views(records@) == rows.take(i as int),
            forall|k: int| 0 <= k < records@.len() ==> (#[trigger] records@[k])@.fields.len() > 1,
        decreases report.entries.len() - i,
    {
        let ghost held = views(records@);
        let entry = &report.entries[i];
        let probe = match type_feature_probes {
            Some(table) => find_value(table, entry.type_path.as_str()),
            None => None,
        };
        let wrappers = find_given_wrappers(wrapper_coverage, entry.type_path.as_str());
        let assessment = assess_impl_entry(report.source_crate.as_str(), entry, probe, wrappers);
        let record = KeyedRecord {
            rank: impl_row_kind_order(assessment.row_kind),
            family: api_family(entry.type_path.as_str()),
            path: entry.type_path.clone(),
            fields: impl_coverage_record(entry, &assessment),
        };
        proof {
            assert(all[i as int] == entry@);
            assert(opt_probe(probe) == given_probe(type_feature_probes, entry.type_path@));
            assert(record@ == rows[i as int]);
            assert(views(record.fields@).len() == record.fields@.len());
        }
        records.push(record);
        proof {
            assert(views(records@) =~= held.push(rows[i as int]));
            assert(rows.take(i + 1) =~= rows.take(i as int).push(rows[i as int]));
        }
        i += 1;
    }
    proof {
        assert(rows.take(i as int) =~= rows);
    }
    keyed_document(&impl_coverage_header(), records)
}

/// The columns of the document.
pub open spec fn shadow_columns() -> Seq<Seq<char>> {
    seq!["item_path"@, "item_kind"@, "api_family"@, "status"@, "coverage_kind"@, "primary_gap_kind"@, "shadow_item"@, "drift_confidence"@, "shadow_elicit_impl"@, "verification_gap"@, "verification_ready"@, "shadow_can_be_direct"@, "shadow_missing_external_traits"@, "shadow_missing_our_traits"@, "action"@, "notes"@]
}

fn shadow_header() -> (r: Vec<String>)
    ensures
        views(r@) == shadow_columns(),
        r@.len() == 16,
{
    let mut out = no_texts();
    push_text(&mut out, "item_path");
    push_text(&mut out, "item_kind");
    push_text(&mut out, "api_family");
    push_text(&mut out, "status");
    push_text(&mut out, "coverage_kind");
    push_text(&mut out, "primary_gap_kind");
    push_text(&mut out, "shadow_item");
    push_text(&mut out, "drift_confidence");
    push_text(&mut out, "shadow_elicit_impl");
    push_text(&mut out, "verification_gap");
    push_text(&mut out, "verification_ready");
    push_text(&mut out, "shadow_can_be_direct");
    push_text(&mut out, "shadow_missing_external_traits");
    push_text(&mut out, "shadow_missing_our_traits");
    push_text(&mut out, "action");
    push_text(&mut out, "notes");
    out
}

/// The fields for a row of a shadow report and its diagnosis.
pub open spec fn shadow_fields(v: ShadowRowView, a: ShadowAssessmentView) -> Seq<Seq<char>> {
    seq![v.item_path, v.item_kind.name(), family(v.item_path), v.status.name(), a.coverage_kind.name(), shadow_gap_name(a.primary_gap_kind), v.shadow_item, v.drift_confidence, v.shadow_elicit_impl, bool_text(a.verification_gap), bool_text(a.verification_ready), v.shadow_can_be_direct, v.shadow_missing_external_traits, v.shadow_missing_our_traits, a.action, v.notes]
}

fn shadow_record(row: &ShadowRow, assessment: &ShadowRowAssessment) -> (r: Vec<String>)
    ensures
        views(r@) == shadow_fields(row@, assessment@),
        r@.len() == 16,
{
    let mut out = no_texts();
    push_text(&mut out, row.item_path.as_str());
    push_text(&mut out, row.item_kind.to_text().as_str());
    push_text(&mut out, api_family(row.item_path.as_str()).as_str());
    push_text(&mut out, row.status.to_text().as_str());
    push_text(&mut out, assessment.coverage_kind.to_text().as_str());
    push_text(&mut out, shadow_gap_text(assessment.primary_gap_kind).as_str());
    push_text(&mut out, row.shadow_item.as_str());
    push_text(&mut out, row.drift_confidence.as_str());
    push_text(&mut out, row.shadow_elicit_impl.as_str());
    push_text(&mut out, bool_word(assessment.verification_gap).as_str());
    push_text(&mut out, bool_word(assessment.verification_ready).as_str());
    push_text(&mut out, row.shadow_can_be_direct.as_str());
    push_text(&mut out, row.shadow_missing_external_traits.as_str());
    push_text(&mut out, row.shadow_missing_our_traits.as_str());
    push_text(&mut out, assessment.action.as_str());
    push_text(&mut out, row.notes.as_str());
    out
}

/// The rank of a row in a document: what is to be done comes first.
pub open spec fn shadow_rank(kind: ShadowCoverageKind, gap: bool) -> u8 {
    match kind {
        ShadowCoverageKind::Missing => 0,
        ShadowCoverageKind::Drifted => 1,
        ShadowCoverageKind::PossiblyStale => 3,
        ShadowCoverageKind::InfrastructureExtra => 4,
        ShadowCoverageKind::Covered => if gap {
            2
        } else {
            5
        },
    }
}

fn shadow_row_kind_order(kind: ShadowCoverageKind, verification_gap: bool) -> (r: u8)
    ensures
        r == shadow_rank(kind, verification_gap),
{
    match kind {
        ShadowCoverageKind::Missing => 0,
        ShadowCoverageKind::Drifted => 1,
        ShadowCoverageKind::PossiblyStale => 3,
        ShadowCoverageKind::InfrastructureExtra => 4,
        ShadowCoverageKind::Covered => if verification_gap {
            2
        } else {
            5
        },
    }
}

/// The record for a row of a shadow report.
pub open spec fn shadow_record_of(v: ShadowRowView) -> KeyedRecordView {
    let a = shadow_assessment(v);
    KeyedRecordView {
        rank: shadow_rank(a.coverage_kind, a.verification_gap),
        family: family(v.item_path),
        path: v.item_path,
        fields: shadow_fields(v, a),
    }
}

/// The records for the rows of a shadow report.
pub open spec fn shadow_records(rows: Seq<ShadowRowView>) -> Seq<KeyedRecordView> {
    rows.map_values(|v: ShadowRowView| shadow_record_of(v))
}

/// The document of a shadow report: what is to be done comes first, related items stand
/// together.
pub fn write_shadow_csv(report: &ShadowReport) -> (r: Vec<u8>)
    ensures
        r@ == csv_document(
            seq![shadow_columns()] + fields_of(
                records_in_order(shadow_records(views(report.rows@))),
            ),
        ),
{
    let ghost all = views(report.rows@);
    let ghost rows = shadow_records(all);
    let mut records: Vec<KeyedRecord> = Vec::new();
    let mut i: usize = 0;
    while i < report.rows.len()
        invariant
            i <= report.rows.len(),
            all == views(report.rows@),
            rows == shadow_records(all),
            views(records@) == rows.take(i as int),
            forall|k: int| 0 <= k < records@.len() ==> (#[trigger] records@[k])@.fields.len() > 1,
        decreases report.rows.len() - i,
    {
        let ghost held = views(records@);
        let row = &report.rows[i];
        let assessment = assess_shadow_row(row);
        let record = KeyedRecord {
            rank: shadow_row_kind_order(assessment.coverage_kind, assessment.verification_gap),
            family: api_family(row.item_path.as_str()),
            path: row.item_path.clone(),
            fields: shadow_record(row, &assessment),
        };
        proof {
            assert(all[i as int] == row@);
            assert(record@ == rows[i as int]);
            assert(views(record.fields@).len() == record.fields@.len());
        }
        records.push(record);
        proof {
            assert(views(records@) =~= held.push(rows[i as int]));
            assert(rows.take(i + 1) =~= rows.take(i as int).push(rows[i as int]));
        }
        i += 1;
    }
    proof {
        assert(rows.take(i as int) =~= rows);
    }
    keyed_document(&shadow_header(), records)
}

/// The columns of the document.
pub open spec fn impl_gaps_columns() -> Seq<Seq<char>> {
    seq!["source_crate"@, "type_path"@, "type_kind"@, "is_generic"@, "gap_kind"@, "our_traits_complete"@, "can_be_direct"@, "elicit_complete_gap"@, "feature_gated_external"@, "blocked_by_orphan_rule"@, "missing_external_traits"@, "missing_our_traits"@, "feature_owner_crate"@, "candidate_unlock_features"@, "action"@]
}

fn impl_gaps_header() -> (r: Vec<String>)
    ensures
        views(r@) == impl_gaps_columns(),
        r@.len() == 15,
{
    let mut out = no_texts();
    push_text(&mut out, "source_crate");
    push_text(&mut out, "type_path");
    push_text(&mut out, "type_kind");
    push_text(&mut out, "is_generic");
    push_text(&mut out, "gap_kind");
    push_text(&mut out, "our_traits_complete");
    push_text(&mut out, "can_be_direct");
    push_text(&mut out, "elicit_complete_gap");
    push_text(&mut out, "feature_gated_external");
    push_text(&mut out, "blocked_by_orphan_rule");
    push_text(&mut out, "missing_external_traits");
    push_text(&mut out, "missing_our_traits");
    push_text(&mut out, "feature_owner_crate");
    push_text(&mut out, "candidate_unlock_features");
    push_text(&mut out, "action");
    out
}

/// The fields for an impl gap.
pub open spec fn impl_gaps_fields(g: ImplGapView) -> Seq<Seq<char>> {
    seq![g.source_crate, g.type_path, g.type_kind.name(), bool_text(g.is_generic), g.gap_kind.name(), bool_text(g.our_traits_complete), bool_text(g.can_be_direct), bool_text(g.elicit_complete_gap), bool_text(g.feature_gated_external), bool_text(g.blocked_by_orphan_rule), g.missing_external_traits, g.missing_our_traits, g.feature_owner_crate, g.candidate_unlock_features, g.action]
}

fn impl_gaps_record(gap: &ImplGapEntry) -> (r: Vec<String>)
    ensures
        views(r@) == impl_gaps_fields(gap@),
        r@.len() == 15,
{
    let mut out = no_texts();
    push_text(&mut out, gap.source_crate.as_str());
    push_text(&mut out, gap.type_path.as_str());
    push_text(&mut out, gap.type_kind.to_text().as_str());
    push_text(&mut out, bool_word(gap.is_generic).as_str());
    push_text(&mut out, gap.gap_kind.to_text().as_str());
    push_text(&mut out, bool_word(gap.our_traits_complete).as_str());
    push_text(&mut out, bool_word(gap.can_be_direct).as_str());
    push_text(&mut out, bool_word(gap.elicit_complete_gap).as_str());
    push_text(&mut out, bool_word(gap.feature_gated_external).as_str());
    push_text(&mut out, bool_word(gap.blocked_by_orphan_rule).as_str());
    push_text(&mut out, gap.missing_external_traits.as_str());
    push_text(&mut out, gap.missing_our_traits.as_str());
    push_text(&mut out, gap.feature_owner_crate.as_str());
    push_text(&mut out, gap.candidate_unlock_features.as_str());
    push_text(&mut out, gap.action.as_str());
    out
}

/// The records of the document, in order.
pub open spec fn impl_gaps_records(s: Seq<ImplGapView>) -> Seq<Seq<Seq<char>>> {
    s.map_values(|g: ImplGapView| impl_gaps_fields(g))
}

/// The document of a list of impl gaps.
pub fn write_impl_gaps_csv(entries: &Vec<ImplGapEntry>) -> (r: Vec<u8>)
    ensures
        r@ == csv_document(seq![impl_gaps_columns()] + impl_gaps_records(views(entries@))),
{
    let header = impl_gaps_header();
    let ghost all = impl_gaps_records(views(entries@));
    let ghost first = seq![impl_gaps_columns()];
    let mut out: Vec<u8> = Vec::new();
    append_record(&mut out, &header);
    proof {
        assert(first + all.take(0) =~= first);
        assert(first.drop_last() =~= seq![]);
        reveal_with_fuel(csv_document, 2);
        assert(out@ =~= csv_document(first));
    }
    let mut i: usize = 0;
    while i < entries.len()
        invariant
            i <= entries.len(),
            all == impl_gaps_records(views(entries@)),
            out@ == csv_document(first + all.take(i as int)),
        decreases entries.len() - i,
    {
        append_record(&mut out, &impl_gaps_record(&entries[i]));
        proof {
            let next = first + all.take(i + 1);
            assert(views(entries@)[i as int] == entries@[i as int]@);
            assert(all[i as int] == impl_gaps_fields(entries@[i as int]@));
            assert(next.drop_last() =~= first + all.take(i as int));
            assert(next.last() == all[i as int]);
        }
        i += 1;
    }
    proof {
        assert(all.take(i as int) =~= all);
    }
    out
}

/// The columns of the document.
pub open spec fn shadow_gaps_columns() -> Seq<Seq<char>> {
    seq!["target_crate"@, "shadow_crate"@, "item_path"@, "item_kind"@, "gap_kind"@, "matched_shadow_item"@, "drift_confidence"@, "shadow_elicit_impl"@, "shadow_can_be_direct"@, "shadow_missing_external_traits"@, "shadow_missing_our_traits"@, "action"@, "notes"@]
}

fn shadow_gaps_header() -> (r: Vec<String>)
    ensures
        views(r@) == shadow_gaps_columns(),
        r@.len() == 13,
{
    let mut out = no_texts();
    push_text(&mut out, "target_crate");
    push_text(&mut out, "shadow_crate");
    push_text(&mut out, "item_path");
    push_text(&mut out, "item_kind");
    push_text(&mut out, "gap_kind");
    push_text(&mut out, "matched_shadow_item");
    push_text(&mut out, "drift_confidence");
    push_text(&mut out, "shadow_elicit_impl");
    push_text(&mut out, "shadow_can_be_direct");
    push_text(&mut out, "shadow_missing_external_traits");
    push_text(&mut out, "shadow_missing_our_traits");
    push_text(&mut out, "action");
    push_text(&mut out, "notes");
    out
}

/// The fields for a shadow gap.
pub open spec fn shadow_gaps_fields(g: ShadowGapView) -> Seq<Seq<char>> {
    seq![g.target_crate, g.shadow_crate, g.item_path, g.item_kind.name(), g.gap_kind.name(), g.matched_shadow_item, g.drift_confidence, g.shadow_elicit_impl, g.shadow_can_be_direct, g.shadow_missing_external_traits, g.shadow_missing_our_traits, g.action, g.notes]
}

fn shadow_gaps_record(gap: &ShadowGapEntry) -> (r: Vec<String>)
    ensures
        views(r@) == shadow_gaps_fields(gap@),
        r@.len() == 13,
{
    let mut out = no_texts();
    push_text(&mut out, gap.target_crate.as_str());
    push_text(&mut out, gap.shadow_crate.as_str());
    push_text(&mut out, gap.item_path.as_str());
    push_text(&mut out, gap.item_kind.to_text().as_str());
    push_text(&mut out, gap.gap_kind.to_text().as_str());
    push_text(&mut out, gap.matched_shadow_item.as_str());
    push_text(&mut out, gap.drift_confidence.as_str());
    push_text(&mut out, gap.shadow_elicit_impl.as_str());
    push_text(&mut out, gap.shadow_can_be_direct.as_str());
    push_text(&mut out, gap.shadow_missing_external_traits.as_str());
    push_text(&mut out, gap.shadow_missing_our_traits.as_str());
    push_text(&mut out, gap.action.as_str());
    push_text(&mut out, gap.notes.as_str());
    out
}

/// The records of the document, in order.
pub open spec fn shadow_gaps_records(s: Seq<ShadowGapView>) -> Seq<Seq<Seq<char>>> {
    s.map_values(|g: ShadowGapView| shadow_gaps_fields(g))
}

/// The document of a list of shadow gaps.
pub fn write_shadow_gaps_csv(entries: &Vec<ShadowGapEntry>) -> (r: Vec<u8>)
    ensures
        r@ == csv_document(seq![shadow_gaps_columns()] + shadow_gaps_records(views(entries@))),
{
    let header = shadow_gaps_header();
    let ghost all = shadow_gaps_records(views(entries@));
    let ghost first = seq![shadow_gaps_columns()];
    let mut out: Vec<u8> = Vec::new();
    append_record(&mut out, &header);
    proof {
        assert(first + all.take(0) =~= first);
        assert(first.drop_last() =~= seq![]);
        reveal_with_fuel(csv_document, 2);
        assert(out@ =~= csv_document(first));
    }
    let mut i: usize = 0;
    while i < entries.len()
        invariant
            i <= entries.len(),
            all == shadow_gaps_records(views(entries@)),
            out@ == csv_document(first + all.take(i as int)),
        decreases entries.len() - i,
    {
        append_record(&mut out, &shadow_gaps_record(&entries[i]));
        proof {
            let next = first + all.take(i + 1);
            assert(views(entries@)[i as int] == entries@[i as int]@);
            assert(all[i as int] == shadow_gaps_fields(entries@[i as int]@));
            assert(next.drop_last() =~= first + all.take(i as int));
            assert(next.last() == all[i as int]);
        }
        i += 1;
    }
    proof {
        assert(all.take(i as int) =~= all);
    }
    out
}

/// The columns of the document.
pub open spec fn trenchcoats_columns() -> Seq<Seq<char>> {
    seq!["foreign_crate"@, "foreign_type"@, "wrapper_path"@, "wrapper_elicit_complete"@, "wrapper_missing_our_traits"@, "foreign_missing_our_traits"@]
}

fn trenchcoats_header() -> (r: Vec<String>)
    ensures
        views(r@) == trenchcoats_columns(),
        r@.len() == 6,
{
    let mut out = no_texts();
    push_text(&mut out, "foreign_crate");
    push_text(&mut out, "foreign_type");
    push_text(&mut out, "wrapper_path");
    push_text(&mut out, "wrapper_elicit_complete");
    push_text(&mut out, "wrapper_missing_our_traits");
    push_text(&mut out, "foreign_missing_our_traits");
    out
}

/// The fields for a trenchcoat.
pub open spec fn trenchcoats_fields(g: TrenchcoatView) -> Seq<Seq<char>> {
    seq![g.foreign_crate, g.foreign_type, g.wrapper_path, bool_text(g.wrapper_elicit_complete), g.wrapper_missing_our_traits, g.foreign_missing_our_traits]
}

fn trenchcoats_record(gap: &TrenchcoatEntry) -> (r: Vec<String>)
    ensures
        views(r@) == trenchcoats_fields(gap@),
        r@.len() == 6,
{
    let mut out = no_texts();
    push_text(&mut out, gap.foreign_crate.as_str());
    push_text(&mut out, gap.foreign_type.as_str());
    push_text(&mut out, gap.wrapper_path.as_str());
    push_text(&mut out, bool_word(gap.wrapper_elicit_complete).as_str());
    push_text(&mut out, gap.wrapper_missing_our_traits.as_str());
    push_text(&mut out, gap.foreign_missing_our_traits.as_str());
    out
}

/// The records of the document, in order.
pub open spec fn trenchcoats_records(s: Seq<TrenchcoatView>) -> Seq<Seq<Seq<char>>> {
    s.map_values(|g: TrenchcoatView| trenchcoats_fields(g))
}

/// The document of a trenchcoat report.
pub fn write_trenchcoats_csv(entries: &Vec<TrenchcoatEntry>) -> (r: Vec<u8>)
    ensures
        r@ == csv_document(seq![trenchcoats_columns()] + trenchcoats_records(views(entries@))),
{
    let header = trenchcoats_header();
    let ghost all = trenchcoats_records(views(entries@));
    let ghost first = seq![trenchcoats_columns()];
    let mut out: Vec<u8> = Vec::new();
    append_record(&mut out, &header);
    proof {
        assert(first + all.take(0) =~= first);
        assert(first.drop_last() =~= seq![]);
        reveal_with_fuel(csv_document, 2);
        assert(out@ =~= csv_document(first));
    }
    let mut i: usize = 0;
    while i < entries.len()
        invariant
            i <= entries.len(),
            all == trenchcoats_records(views(entries@)),
            out@ == csv_document(first + all.take(i as int)),
        decreases entries.len() - i,
    {
        append_record(&mut out, &trenchcoats_record(&entries[i]));
        proof {
            let next = first + all.take(i + 1);
            assert(views(entries@)[i as int] == entries@[i as int]@);
            assert(all[i as int] == trenchcoats_fields(entries@[i as int]@));
            assert(next.drop_last() =~= first + all.take(i as int));
            assert(next.last() == all[i as int]);
        }
        i += 1;
    }
    proof {
        assert(all.take(i as int) =~= all);
    }
    out
}

}
