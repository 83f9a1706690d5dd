//! The executive summary: a Markdown document over all reports.

use vstd::prelude::*;
use vstd::string::*;

use crate::collect::TypeFeatureProbe;
use crate::count::{count_if, lemma_count_bound, lemma_count_permuted};
use crate::distinct::firsts;
use crate::gaps::{assess_impl_entry, assessment, covers_our_traits, entries_differ, has_our_traits};
use crate::gaps::{impl_gap, law_report_gaps_stay, report_gaps, wrappers_for, ImplGapEntry, ImplGapKind};
use crate::gaps::{ImplGapView, ImplRowKind, ShadowGapEntry, ShadowGapKind, ShadowGapView};
use crate::impl_coverage::{ImplCoverageReport, ImplEntryView, ImplStatus};
use crate::order::{key_lt, law_sorted_in_order, law_sorted_permutes, lemma_pair_key};
use crate::order::{lemma_text_key, ranked_pair_before, sort_ranked, sorted, text_key_before, Key};
use crate::order::Ranked;
use crate::report::{find_given_wrappers, given_wrappers};
use crate::shadow::ShadowReport;
use crate::text::{decimal, push_decimal, text_lt, views};
use crate::trenchcoat::WrapperCoverageMap;

verus! {

/// The impl coverage of one crate in numbers.
#[derive(Debug)]
pub struct ImplSummary {
    pub source_crate: String,
    pub source_version: String,
    pub types: u64,
    /// Types that lack none of our traits, directly or through wrappers.
    pub our_traits_done: u64,
    pub missing_our_traits: u64,
    /// Types with an `ElicitComplete` impl.
    pub complete: u64,
    /// Types that lack only the `ElicitComplete` impl.
    pub elicit_complete_gap: u64,
    /// Types that the orphan rule blocks.
    pub externally_blocked: u64,
    /// The share of types done, in percent, as it is printed.
    pub coverage: String,
}

/// The contents of an [`ImplSummary`].
#[verifier::ext_equal]
pub struct ImplSummaryView {
    pub source_crate: Seq<char>,
    pub source_version: Seq<char>,
    pub types: u64,
    pub our_traits_done: u64,
    pub missing_our_traits: u64,
    pub complete: u64,
    pub elicit_complete_gap: u64,
    pub externally_blocked: u64,
    pub coverage: Seq<char>,
}

impl View for ImplSummary {
    type V = ImplSummaryView;

    open spec fn view(&self) -> ImplSummaryView {
        ImplSummaryView {
            source_crate: self.source_crate@,
            source_version: self.source_version@,
            types: self.types,
            our_traits_done: self.our_traits_done,
            missing_our_traits: self.missing_our_traits,
            complete: self.complete,
            elicit_complete_gap: self.elicit_complete_gap,
            externally_blocked: self.externally_blocked,
            coverage: self.coverage@,
        }
    }
}

/// The impl coverage of all crates in numbers.
#[derive(Debug)]
pub struct ImplTotals {
    pub types: u128,
    pub our_traits_done: u128,
    pub missing_our_traits: u128,
    pub complete: u128,
    pub elicit_complete_gap: u128,
    pub externally_blocked: u128,
    /// The share of types done, in percent, as it is printed.
    pub coverage: String,
}

/// The contents of an [`ImplTotals`].
#[verifier::ext_equal]
pub struct ImplTotalsView {
    pub types: u128,
    pub our_traits_done: u128,
    pub missing_our_traits: u128,
    pub complete: u128,
    pub elicit_complete_gap: u128,
    pub externally_blocked: u128,
    pub coverage: Seq<char>,
}

impl View for ImplTotals {
    type V = ImplTotalsView;

    open spec fn view(&self) -> ImplTotalsView {
        ImplTotalsView {
            types: self.types,
            our_traits_done: self.our_traits_done,
            missing_our_traits: self.missing_our_traits,
            complete: self.complete,
            elicit_complete_gap: self.elicit_complete_gap,
            externally_blocked: self.externally_blocked,
            coverage: self.coverage@,
        }
    }
}

impl Ranked for ImplSummary {
    open spec fn key(v: ImplSummaryView) -> Key {
        (0, seq![v.source_crate])
    }

    fn before(&self, other: &Self) -> (r: bool) {
        text_key_before(self.source_crate.as_str(), other.source_crate.as_str())
    }
}

/// The shadow coverage of one crate in numbers.
#[derive(Debug)]
pub struct ShadowSummary {
    pub target_crate: String,
    pub target_version: String,
    pub shadow_crate: String,
    pub covered: u128,
    pub drifted: u128,
    pub total: u128,
    pub verification_gaps: u128,
    /// The share of items covered, in percent, as it is printed.
    pub coverage: String,
}

/// The contents of a [`ShadowSummary`].
#[verifier::ext_equal]
pub struct ShadowSummaryView {
    pub target_crate: Seq<char>,
    pub target_version: Seq<char>,
    pub shadow_crate: Seq<char>,
    pub covered: u128,
    pub drifted: u128,
    pub total: u128,
    pub verification_gaps: u128,
    pub coverage: Seq<char>,
}

impl View for ShadowSummary {
    type V = ShadowSummaryView;

    open spec fn view(&self) -> ShadowSummaryView {
        ShadowSummaryView {
            target_crate: self.target_crate@,
            target_version: self.target_version@,
            shadow_crate: self.shadow_crate@,
            covered: self.covered,
            drifted: self.drifted,
            total: self.total,
            verification_gaps: self.verification_gaps,
            coverage: self.coverage@,
        }
    }
}

impl Ranked for ShadowSummary {
    open spec fn key(v: ShadowSummaryView) -> Key {
        (0, seq![v.target_crate, v.shadow_crate])
    }

    fn before(&self, other: &Self) -> (r: bool) {
        ranked_pair_before(
            0,
            self.target_crate.as_str(),
            self.shadow_crate.as_str(),
            0,
            other.target_crate.as_str(),
            other.shadow_crate.as_str(),
        )
    }
}

/// A pair of crates that could not be compared, and why.
#[derive(Clone, Debug)]
pub struct ShadowSkippedPair {
    pub upstream_crate: String,
    pub shadow_crate: String,
    pub error: String,
}

/// The contents of a [`ShadowSkippedPair`].
#[verifier::ext_equal]
pub struct SkippedPairView {
    pub upstream_crate: Seq<char>,
    pub shadow_crate: Seq<char>,
    pub error: Seq<char>,
}

impl View for ShadowSkippedPair {
    type V = SkippedPairView;

    open spec fn view(&self) -> SkippedPairView {
        SkippedPairView {
            upstream_crate: self.upstream_crate@,
            shadow_crate: self.shadow_crate@,
            error: self.error@,
        }
    }
}

impl Ranked for ShadowSkippedPair {
    open spec fn key(v: SkippedPairView) -> Key {
        (0, seq![v.upstream_crate, v.shadow_crate])
    }

    fn before(&self, other: &Self) -> (r: bool) {
        ranked_pair_before(
            0,
            self.upstream_crate.as_str(),
            self.shadow_crate.as_str(),
            0,
            other.upstream_crate.as_str(),
            other.shadow_crate.as_str(),
        )
    }
}

/// Types that have all of our traits that they could have, by themselves or through wrappers.
pub open spec fn is_done(map: Option<&WrapperCoverageMap>) -> spec_fn(ImplEntryView) -> bool {
    |e: ImplEntryView| has_our_traits(e, given_wrappers(map, e.type_path))
}

/// Types without an impl that lack nothing else.
pub open spec fn is_ready(source: Seq<char>, map: Option<&WrapperCoverageMap>) -> spec_fn(
    ImplEntryView,
) -> bool {
    |e: ImplEntryView|
        e.elicit_impl is Missing && assessment(
            source,
            e,
            None,
            given_wrappers(map, e.type_path),
        ).row_kind is ReadyForElicitComplete
}

/// Types without an impl that the orphan rule blocks: nothing of ours is missing, no lifetime
/// stands in the way, and the external traits are not there.
pub open spec fn is_orphaned(source: Seq<char>, map: Option<&WrapperCoverageMap>) -> spec_fn(
    ImplEntryView,
) -> bool {
    |e: ImplEntryView|
        {
            let a = assessment(source, e, None, given_wrappers(map, e.type_path));
            e.elicit_impl is Missing && a.row_kind is ExternallyBlocked && a.blocked_by_orphan_rule
        }
}

/// The numbers of a report, without the percentage.
pub open spec fn impl_summary(r: ImplCoverageReport, map: Option<&WrapperCoverageMap>) -> ImplSummaryView {
    let entries = views(r.entries@);
    let done = count_if(entries, is_done(map));
    ImplSummaryView {
        source_crate: r.source_crate@,
        source_version: r.source_version@,
        types: entries.len() as u64,
        our_traits_done: done as u64,
        missing_our_traits: (entries.len() - done) as u64,
        complete: r.complete_count as u64,
        elicit_complete_gap: count_if(entries, is_ready(r.source_crate@, map)) as u64,
        externally_blocked: count_if(entries, is_orphaned(r.source_crate@, map)) as u64,
        coverage: ""@,
    }
}

/// The numbers of reports.
pub open spec fn impl_summaries(
    reports: Seq<(String, ImplCoverageReport)>,
    map: Option<&WrapperCoverageMap>,
) -> Seq<ImplSummaryView> {
    reports.map_values(|r: (String, ImplCoverageReport)| impl_summary(r.1, map))
}

fn summarize_impl_report(report: &ImplCoverageReport, map: Option<&WrapperCoverageMap>) -> (r: ImplSummary)
    ensures
        r@ == impl_summary(*report, map),
{
    let ghost all = views(report.entries@);
    let ghost source = report.source_crate@;
    let mut done: usize = 0;
    let mut ready: usize = 0;
    let mut blocked: usize = 0;
    let mut i: usize = 0;
    while i < report.entries.len()
        invariant
            i <= report.entries.len(),
            all == views(report.entries@),
            source == report.source_crate@,
            done <= i,
            ready <= i,
            blocked <= i,
            done == count_if(all.take(i as int), is_done(map)),
            ready == count_if(all.take(i as int), is_ready(source, map)),
            blocked == count_if(all.take(i as int), is_orphaned(source, map)),
        decreases report.entries.len() - i,
    {
        proof {
            assert(all.take(i + 1).drop_last() =~= all.take(i as int));
            assert(all.take(i + 1).last() == report.entries@[i as int]@);
        }
        let entry = &report.entries[i];
        let wrappers = find_given_wrappers(map, entry.type_path.as_str());
        let a = assess_impl_entry(report.source_crate.as_str(), entry, None, wrappers);
        let without_impl = matches!(entry.elicit_impl, ImplStatus::Missing);
        if covers_our_traits(entry, wrappers) {
            done += 1;
        }
        if without_impl && a.row_kind == ImplRowKind::ReadyForElicitComplete {
            ready += 1;
        }
        if without_impl && a.row_kind == ImplRowKind::ExternallyBlocked && a.blocked_by_orphan_rule {
            blocked += 1;
        }
        i += 1;
    }
    proof {
        assert(all.take(i as int) =~= all);
    }
    ImplSummary {
        source_crate: report.source_crate.clone(),
        source_version: report.source_version.clone(),
        types: report.entries.len() as u64,
        our_traits_done: done as u64,
        missing_our_traits: (report.entries.len() - done) as u64,
        complete: report.complete_count as u64,
        elicit_complete_gap: ready as u64,
        externally_blocked: blocked as u64,
        coverage: "".to_string(),
    }
}

/// The numbers of impl reports, by crate.
pub fn summarize_impl_reports(
    reports: &Vec<(String, ImplCoverageReport)>,
    wrapper_coverage: Option<&WrapperCoverageMap>,
) -> (r: Vec<ImplSummary>)
    ensures
        views(r@) == sorted::<ImplSummary>(impl_summaries(reports@, wrapper_coverage)),
{
    let ghost rows = impl_summaries(reports@, wrapper_coverage);
    let mut out: Vec<ImplSummary> = Vec::new();
    let mut i: usize = 0;
    while i < reports.len()
        invariant
            i <= reports.len(),
            rows == impl_summaries(reports@, wrapper_coverage),
            views(out@) == rows.take(i as int),
        decreases reports.len() - i,
    {
        let ghost held = views(out@);
        out.push(summarize_impl_report(&reports[i].1, wrapper_coverage));
        proof {
            assert(rows[i as int] == impl_summary(reports@[i as int].1, wrapper_coverage));
            assert(views(out@) =~= held.push(rows[i as int]));
            assert(rows.take(i + 1) =~= rows.take(i as int).push(rows[i as int]));
        }
        i += 1;
    }
    proof {
        assert(rows.take(i as int) =~= rows);
    }
    sort_ranked(out)
}

/// The sums over several crates.
pub open spec fn impl_total(rows: Seq<ImplSummaryView>) -> (nat, nat, nat, nat, nat, nat)
    decreases rows.len(),
{
    if rows.len() == 0 {
        (0, 0, 0, 0, 0, 0)
    } else {
        let t = impl_total(rows.drop_last());
        let v = rows.last();
        (
            t.0 + v.types as nat,
            t.1 + v.our_traits_done as nat,
            t.2 + v.missing_our_traits as nat,
            t.3 + v.complete as nat,
            t.4 + v.elicit_complete_gap as nat,
            t.5 + v.externally_blocked as nat,
        )
    }
}

/// The sums over several crates, without the percentage.
pub fn total_impl_summary(rows: &Vec<ImplSummary>) -> (r: ImplTotals)
    ensures
        ({
            let t = impl_total(views(rows@));
            r@ == (ImplTotalsView {
                types: t.0 as u128,
                our_traits_done: t.1 as u128,
                missing_our_traits: t.2 as u128,
                complete: t.3 as u128,
                elicit_complete_gap: t.4 as u128,
                externally_blocked: t.5 as u128,
                coverage: ""@,
            })
        }),
{
    let ghost all = views(rows@);
    let mut types: u128 = 0;
    let mut done: u128 = 0;
    let mut missing: u128 = 0;
    let mut complete: u128 = 0;
    let mut gap: u128 = 0;
    let mut blocked: u128 = 0;
    let mut i: usize = 0;
    while i < rows.len()
        invariant
            i <= rows.len(),
            all == views(rows@),
            impl_total(all.take(i as int)) == (
                types as nat,
                done as nat,
                missing as nat,
                complete as nat,
                gap as nat,
                blocked as nat,
            ),
            types <= i * 0xffff_ffff_ffff_ffff,
            done <= i * 0xffff_ffff_ffff_ffff,
            missing <= i * 0xffff_ffff_ffff_ffff,
            complete <= i * 0xffff_ffff_ffff_ffff,
            gap <= i * 0xffff_ffff_ffff_ffff,
            blocked <= i * 0xffff_ffff_ffff_ffff,
        decreases rows.len() - i,
    {
        proof {
            assert(all.take(i + 1).drop_last() =~= all.take(i as int));
            assert(all.take(i + 1).last() == rows@[i as int]@);
            assert(i < 0xffff_ffff_ffff_ffff);
        }
        types = types + rows[i].types as u128;
        done = done + rows[i].our_traits_done as u128;
        missing = missing + rows[i].missing_our_traits as u128;
        complete = complete + rows[i].complete as u128;
        gap = gap + rows[i].elicit_complete_gap as u128;
        blocked = blocked + rows[i].externally_blocked as u128;
        i += 1;
    }
    proof {
        assert(all.take(i as int) =~= all);
    }
    ImplTotals {
        types,
        our_traits_done: done,
        missing_our_traits: missing,
        complete,
        elicit_complete_gap: gap,
        externally_blocked: blocked,
        coverage: "".to_string(),
    }
}

/// The numbers of a shadow report, without the percentage.
pub open spec fn shadow_summary(r: ShadowReport) -> ShadowSummaryView {
    ShadowSummaryView {
        target_crate: r.target_crate@,
        target_version: r.target_version@,
        shadow_crate: r.shadow_crate@,
        covered: r.covered_count as u128,
        drifted: r.drifted_count as u128,
        total: (r.covered_count + r.drifted_count + r.missing_count) as u128,
        verification_gaps: r.verification_gap_count as u128,
        coverage: ""@,
    }
}

/// The numbers of shadow reports.
pub open spec fn shadow_summaries(reports: Seq<(String, String, ShadowReport)>) -> Seq<
    ShadowSummaryView,
> {
    reports.map_values(|r: (String, String, ShadowReport)| shadow_summary(r.2))
}

/// The numbers of shadow reports, by crate.
pub fn summarize_shadow_reports(reports: &Vec<(String, String, ShadowReport)>) -> (r: Vec<ShadowSummary>)
    ensures
        views(r@) == sorted::<ShadowSummary>(shadow_summaries(reports@)),
{
    let ghost rows = shadow_summaries(reports@);
    let mut out: Vec<ShadowSummary> = Vec::new();
    let mut i: usize = 0;
    while i < reports.len()
        invariant
            i <= reports.len(),
            rows == shadow_summaries(reports@),
            views(out@) == rows.take(i as int),
        decreases reports.len() - i,
    {
        let ghost held = views(out@);
        let report = &reports[i].2;
        let total: u128 = report.covered_count as u128 + report.drifted_count as u128
            + report.missing_count as u128;
        out.push(
            ShadowSummary {
                target_crate: report.target_crate.clone(),
                target_version: report.target_version.clone(),
                shadow_crate: report.shadow_crate.clone(),
                covered: report.covered_count as u128,
                drifted: report.drifted_count as u128,
                total,
                verification_gaps: report.verification_gap_count as u128,
                coverage: "".to_string(),
            },
        );
        proof {
            assert(rows[i as int] == shadow_summary(reports@[i as int].2));
            assert(views(out@) =~= held.push(rows[i as int]));
            assert(rows.take(i + 1) =~= rows.take(i as int).push(rows[i as int]));
        }
        i += 1;
    }
    proof {
        assert(rows.take(i as int) =~= rows);
    }
    sort_ranked(out)
}

/// The line of a crate in the table of impl coverage.
pub open spec fn impl_row_line(v: ImplSummaryView) -> Seq<char> {
    "| `"@ + v.source_crate + "` | "@ + v.source_version + " | "@ + decimal(v.types as nat) + " | "@ + decimal(v.our_traits_done as nat) + " | "@ + decimal(v.missing_our_traits as nat) + " | "@ + decimal(v.complete as nat) + " | "@ + decimal(v.elicit_complete_gap as nat) + " | "@ + decimal(v.externally_blocked as nat) + " | "@ + v.coverage + "% |\n"@
}

/// The lines of a table.
pub open spec fn impl_row_lines(rows: Seq<ImplSummaryView>) -> Seq<char>
    decreases rows.len(),
{
    if rows.len() == 0 {
        seq![]
    } else {
        impl_row_lines(rows.drop_last()) + impl_row_line(rows.last())
    }
}

fn write_impl_row(row: &ImplSummary) -> (r: String)
    ensures
        r@ == impl_row_line(row@),
{
    let mut out = "| `".to_string();
    out.append(row.source_crate.as_str());
    out.append("` | ");
    out.append(row.source_version.as_str());
    out.append(" | ");
    push_decimal(&mut out, row.types as u128);
    out.append(" | ");
    push_decimal(&mut out, row.our_traits_done as u128);
    out.append(" | ");
    push_decimal(&mut out, row.missing_our_traits as u128);
    out.append(" | ");
    push_decimal(&mut out, row.complete as u128);
    out.append(" | ");
    push_decimal(&mut out, row.elicit_complete_gap as u128);
    out.append(" | ");
    push_decimal(&mut out, row.externally_blocked as u128);
    out.append(" | ");
    out.append(row.coverage.as_str());
    out.append("% |\n");
    out
}

fn write_impl_rows(rows: &Vec<ImplSummary>) -> (r: String)
    ensures
        r@ == impl_row_lines(views(rows@)),
{
    let ghost all = views(rows@);
    let mut out = String::new();
    let mut i: usize = 0;
    while i < rows.len()
        invariant
            i <= rows.len(),
            all == views(rows@),
            out@ == impl_row_lines(all.take(i as int)),
        decreases rows.len() - i,
    {
        proof {
            assert(all.take(i + 1).drop_last() =~= all.take(i as int));
            assert(all.take(i + 1).last() == rows@[i as int]@);
        }
        out.append(write_impl_row(&rows[i]).as_str());
        i += 1;
    }
    proof {
        assert(all.take(i as int) =~= all);
    }
    out
}

/// The line of the sums in the table of impl coverage.
pub open spec fn impl_total_line(v: ImplTotalsView) -> Seq<char> {
    "| **Total** | | **"@ + decimal(v.types as nat) + "** | **"@ + decimal(v.our_traits_done as nat) + "** | **"@ + decimal(v.missing_our_traits as nat) + "** | **"@ + decimal(v.complete as nat) + "** | **"@ + decimal(v.elicit_complete_gap as nat) + "** | **"@ + decimal(v.externally_blocked as nat) + "** | **"@ + v.coverage + "%** |\n"@
}

fn write_impl_total(row: &ImplTotals) -> (r: String)
    ensures
        r@ == impl_total_line(row@),
{
    let mut out = "| **Total** | | **".to_string();
    push_decimal(&mut out, row.types as u128);
    out.append("** | **");
    push_decimal(&mut out, row.our_traits_done as u128);
    out.append("** | **");
    push_decimal(&mut out, row.missing_our_traits as u128);
    out.append("** | **");
    push_decimal(&mut out, row.complete as u128);
    out.append("** | **");
    push_decimal(&mut out, row.elicit_complete_gap as u128);
    out.append("** | **");
    push_decimal(&mut out, row.externally_blocked as u128);
    out.append("** | **");
    out.append(row.coverage.as_str());
    out.append("%** |\n");
    out
}

/// The line of a crate in the table of shadow coverage.
pub open spec fn shadow_row_line(v: ShadowSummaryView) -> Seq<char> {
    "| `"@ + v.target_crate + "` | "@ + v.target_version + " | `"@ + v.shadow_crate + "` | "@ + decimal(v.covered as nat) + " | "@ + decimal(v.drifted as nat) + " | "@ + decimal(v.total as nat) + " | "@ + decimal(v.verification_gaps as nat) + " | "@ + v.coverage + "% |\n"@
}

/// The lines of a table.
pub open spec fn shadow_row_lines(rows: Seq<ShadowSummaryView>) -> Seq<char>
    decreases rows.len(),
{
    if rows.len() == 0 {
        seq![]
    } else {
        shadow_row_lines(rows.drop_last()) + shadow_row_line(rows.last())
    }
}

fn write_shadow_row(row: &ShadowSummary) -> (r: String)
    ensures
        r@ == shadow_row_line(row@),
{
    let mut out = "| `".to_string();
    out.append(row.target_crate.as_str());
    out.append("` | ");
    out.append(row.target_version.as_str());
    out.append(" | `");
    out.append(row.shadow_crate.as_str());
    out.append("` | ");
    push_decimal(&mut out, row.covered as u128);
    out.append(" | ");
    push_decimal(&mut out, row.drifted as u128);
    out.append(" | ");
    push_decimal(&mut out, row.total as u128);
    out.append(" | ");
    push_decimal(&mut out, row.verification_gaps as u128);
    out.append(" | ");
    out.append(row.coverage.as_str());
    out.append("% |\n");
    out
}

fn write_shadow_rows(rows: &Vec<ShadowSummary>) -> (r: String)
    ensures
        r@ == shadow_row_lines(views(rows@)),
{
    let ghost all = views(rows@);
    let mut out = String::new();
    let mut i: usize = 0;
    while i < rows.len()
        invariant
            i <= rows.len(),
            all == views(rows@),
            out@ == shadow_row_lines(all.take(i as int)),
        decreases rows.len() - i,
    {
        proof {
            assert(all.take(i + 1).drop_last() =~= all.take(i as int));
            assert(all.take(i + 1).last() == rows@[i as int]@);
        }
        out.append(write_shadow_row(&rows[i]).as_str());
        i += 1;
    }
    proof {
        assert(all.take(i as int) =~= all);
    }
    out
}

/// The line of a pair in the table of skipped crates.
pub open spec fn skipped_row_line(v: SkippedPairView) -> Seq<char> {
    "| `"@ + v.upstream_crate + "` | `"@ + v.shadow_crate + "` | "@ + v.error + " |\n"@
}

/// The lines of a table.
pub open spec fn skipped_row_lines(rows: Seq<SkippedPairView>) -> Seq<char>
    decreases rows.len(),
{
    if rows.len() == 0 {
        seq![]
    } else {
        skipped_row_lines(rows.drop_last()) + skipped_row_line(rows.last())
    }
}

fn write_skipped_row(row: &ShadowSkippedPair) -> (r: String)
    ensures
        r@ == skipped_row_line(row@),
{
    let mut out = "| `".to_string();
    out.append(row.upstream_crate.as_str());
    out.append("` | `");
    out.append(row.shadow_crate.as_str());
    out.append("` | ");
    out.append(row.error.as_str());
    out.append(" |\n");
    out
}

fn write_skipped_rows(rows: &Vec<ShadowSkippedPair>) -> (r: String)
    ensures
        r@ == skipped_row_lines(views(rows@)),
{
    let ghost all = views(rows@);
    let mut out = String::new();
    let mut i: usize = 0;
    while i < rows.len()
        invariant
            i <= rows.len(),
            all == views(rows@),
            out@ == skipped_row_lines(all.take(i as int)),
        decreases rows.len() - i,
    {
        proof {
            assert(all.take(i + 1).drop_last() =~= all.take(i as int));
            assert(all.take(i + 1).last() == rows@[i as int]@);
        }
        out.append(write_skipped_row(&rows[i]).as_str());
        i += 1;
    }
    proof {
        assert(all.take(i as int) =~= all);
    }
    out
}

/// Impl gaps of a kind.
pub open spec fn is_impl_gap(kind: ImplGapKind) -> spec_fn(ImplGapView) -> bool {
    |g: ImplGapView| g.gap_kind == kind
}

/// Shadow gaps of a kind.
pub open spec fn is_shadow_gap(kind: ShadowGapKind) -> spec_fn(ShadowGapView) -> bool {
    |g: ShadowGapView| g.gap_kind == kind
}

/// How many gaps are of a kind.
pub fn count_impl_gaps(gaps: &Vec<ImplGapEntry>, kind: ImplGapKind) -> (r: usize)
    ensures
        r == count_if(views(gaps@), is_impl_gap(kind)),
{
    let mut n: usize = 0;
    let mut i: usize = 0;
    let ghost all = views(gaps@);
    while i < gaps.len()
        invariant
            i <= gaps.len(),
            n <= i,
            all == views(gaps@),
            n == count_if(all.take(i as int), is_impl_gap(kind)),
        decreases gaps.len() - i,
    {
        proof {
            assert(all.take(i + 1).drop_last() =~= all.take(i as int));
            assert(all.take(i + 1).last() == gaps@[i as int]@);
        }
        if gaps[i].gap_kind == kind {
            n += 1;
        }
        i += 1;
    }
    proof {
        assert(all.take(i as int) =~= all);
    }
    n
}

/// How many gaps are of a kind.
pub fn count_shadow_gaps(gaps: &Vec<ShadowGapEntry>, kind: ShadowGapKind) -> (r: usize)
    ensures
        r == count_if(views(gaps@), is_shadow_gap(kind)),
{
    let mut n: usize = 0;
    let mut i: usize = 0;
    let ghost all = views(gaps@);
    while i < gaps.len()
        invariant
            i <= gaps.len(),
            n <= i,
            all == views(gaps@),
            n == count_if(all.take(i as int), is_shadow_gap(kind)),
        decreases gaps.len() - i,
    {
        proof {
            assert(all.take(i + 1).drop_last() =~= all.take(i as int));
            assert(all.take(i + 1).last() == gaps@[i as int]@);
        }
        if gaps[i].gap_kind == kind {
            n += 1;
        }
        i += 1;
    }
    proof {
        assert(all.take(i as int) =~= all);
    }
    n
}

/// The table of impl gaps, if there are any.
pub open spec fn impl_gap_table(gaps: Seq<ImplGapView>) -> Seq<char> {
    if gaps.len() == 0 {
        ""@
    } else {
        "### Impl Gaps\n\n| Kind | Count | Notes |\n|------|------:|-------|\n| MissingOurTraits | "@ + decimal(count_if(gaps, is_impl_gap(ImplGapKind::MissingOurTraits)) as nat) + " | Missing one or more elicitation-owned support traits |\n| ReadyForElicitComplete | "@ + decimal(count_if(gaps, is_impl_gap(ImplGapKind::ReadyForElicitComplete)) as nat) + " | All prerequisites present; only `impl ElicitComplete` is missing |\n| FeatureGatedExternal | "@ + decimal(count_if(gaps, is_impl_gap(ImplGapKind::FeatureGatedExternal)) as nat) + " | Missing external serde/schemars traits may be unlockable with more features |\n| **Total** | **"@ + decimal(gaps.len() as nat) + "** | |\n\n"@
    }
}

fn write_impl_gap_table(gaps: &Vec<ImplGapEntry>) -> (r: String)
    ensures
        r@ == impl_gap_table(views(gaps@)),
{
    assert(views(gaps@).len() == gaps@.len());
    if gaps.len() == 0 {
        return "".to_string();
    }
    let mut out = "### Impl Gaps\n\n| Kind | Count | Notes |\n|------|------:|-------|\n| MissingOurTraits | ".to_string();
    push_decimal(&mut out, count_impl_gaps(gaps, ImplGapKind::MissingOurTraits) as u128);
    out.append(" | Missing one or more elicitation-owned support traits |\n| ReadyForElicitComplete | ");
    push_decimal(&mut out, count_impl_gaps(gaps, ImplGapKind::ReadyForElicitComplete) as u128);
    out.append(" | All prerequisites present; only `impl ElicitComplete` is missing |\n| FeatureGatedExternal | ");
    push_decimal(&mut out, count_impl_gaps(gaps, ImplGapKind::FeatureGatedExternal) as u128);
    out.append(" | Missing external serde/schemars traits may be unlockable with more features |\n| **Total** | **");
    push_decimal(&mut out, gaps.len() as u128);
    out.append("** | |\n\n");
    out
}

/// The table of shadow gaps, if there are any.
pub open spec fn shadow_gap_table(gaps: Seq<ShadowGapView>) -> Seq<char> {
    if gaps.len() == 0 {
        ""@
    } else {
        "### Shadow Gaps\n\n| Kind | Count | Notes |\n|------|------:|-------|\n| Missing | "@ + decimal(count_if(gaps, is_shadow_gap(ShadowGapKind::Missing)) as nat) + " | Upstream public item not yet shadowed |\n| Drifted | "@ + decimal(count_if(gaps, is_shadow_gap(ShadowGapKind::Drifted)) as nat) + " | Probable rename or naming drift in the shadow crate |\n| PossiblyStale | "@ + decimal(count_if(gaps, is_shadow_gap(ShadowGapKind::PossiblyStale)) as nat) + " | Shadow item with no matching upstream — needs audit |\n| InfrastructureExtra | "@ + decimal(count_if(gaps, is_shadow_gap(ShadowGapKind::InfrastructureExtra)) as nat) + " | Shadow-only infrastructure item — expected |\n| ShadowVerificationGap | "@ + decimal(count_if(gaps, is_shadow_gap(ShadowGapKind::ShadowVerificationGap)) as nat) + " | Matched shadow type exists but is not yet `ElicitComplete`-ready |\n| **Total** | **"@ + decimal(gaps.len() as nat) + "** | |\n\n"@
    }
}

fn write_shadow_gap_table(gaps: &Vec<ShadowGapEntry>) -> (r: String)
    ensures
        r@ == shadow_gap_table(views(gaps@)),
{
    assert(views(gaps@).len() == gaps@.len());
    if gaps.len() == 0 {
        return "".to_string();
    }
    let mut out = "### Shadow Gaps\n\n| Kind | Count | Notes |\n|------|------:|-------|\n| Missing | ".to_string();
    push_decimal(&mut out, count_shadow_gaps(gaps, ShadowGapKind::Missing) as u128);
    out.append(" | Upstream public item not yet shadowed |\n| Drifted | ");
    push_decimal(&mut out, count_shadow_gaps(gaps, ShadowGapKind::Drifted) as u128);
    out.append(" | Probable rename or naming drift in the shadow crate |\n| PossiblyStale | ");
    push_decimal(&mut out, count_shadow_gaps(gaps, ShadowGapKind::PossiblyStale) as u128);
    out.append(" | Shadow item with no matching upstream — needs audit |\n| InfrastructureExtra | ");
    push_decimal(&mut out, count_shadow_gaps(gaps, ShadowGapKind::InfrastructureExtra) as u128);
    out.append(" | Shadow-only infrastructure item — expected |\n| ShadowVerificationGap | ");
    push_decimal(&mut out, count_shadow_gaps(gaps, ShadowGapKind::ShadowVerificationGap) as u128);
    out.append(" | Matched shadow type exists but is not yet `ElicitComplete`-ready |\n| **Total** | **");
    push_decimal(&mut out, gaps.len() as u128);
    out.append("** | |\n\n");
    out
}

/// The table of skipped crates, if there are any.
pub open spec fn skipped_table(skipped: Seq<SkippedPairView>) -> Seq<char> {
    if skipped.len() == 0 {
        ""@
    } else {
        "### Skipped Shadow Crates\n\n| Upstream | Shadow Crate | Error |\n|----------|--------------|-------|\n"@ + skipped_row_lines(skipped) + "\n"@
    }
}

fn write_skipped_table(skipped: &Vec<ShadowSkippedPair>) -> (r: String)
    ensures
        r@ == skipped_table(views(skipped@)),
{
    assert(views(skipped@).len() == skipped@.len());
    if skipped.len() == 0 {
        return "".to_string();
    }
    let mut out = "### Skipped Shadow Crates\n\n| Upstream | Shadow Crate | Error |\n|----------|--------------|-------|\n".to_string();
    out.append(write_skipped_rows(skipped).as_str());
    out.append("\n");
    out
}

/// The section on impl coverage, if there is any.
pub open spec fn impl_section(rows: Seq<ImplSummaryView>, total: ImplTotalsView, gaps: Seq<ImplGapView>) -> Seq<char> {
    if rows.len() == 0 {
        ""@
    } else {
        "## Impl Coverage\n\n| Crate | Version | Types | OurTraitsDone | MissingOurTraits | ElicitComplete | ElicitCompleteGap | ExternallyBlocked | Coverage |\n|-------|---------|------:|--------------:|-----------------:|---------------:|------------------:|------------------:|---------:|\n"@
            + impl_row_lines(rows) + impl_total_line(total)
            + "\n`OurTraitsDone` counts effective trait coverage. A trait counts when it is satisfied either directly on the target type or indirectly via a wrapper that deductively covers that target. Lifetime-bound types such as `Pixels<'a, R>` are still not expected to implement `Elicitation` or `ElicitIntrospect` directly because `Elicitation` requires `'static`.\n\n"@
            + "`Coverage` uses that same effective-coverage rule. A type counts as covered when every elicitation-owned trait that should exist for that target is present, either directly or through wrapper coverage, even if direct `ElicitComplete` is blocked by lifetimes or the orphan rule.\n\n"@
            + "`ExternallyBlocked` counts true orphan-rule blockers only: the implementable elicitation-owned traits are present, but direct `ElicitComplete` is blocked by missing `Serialize`, `Deserialize`, or `JsonSchema` on the target type. Lifetime-bound rows still count toward `Coverage` when every implementable elicitation-owned trait is present, but they are not counted as external blockers.\n\n"@
            + impl_gap_table(gaps) + "---\n\n"@
    }
}

fn write_impl_section(rows: &Vec<ImplSummary>, total: &ImplTotals, gaps: &Vec<ImplGapEntry>) -> (r: String)
    ensures
        r@ == impl_section(views(rows@), total@, views(gaps@)),
{
    assert(views(rows@).len() == rows@.len());
    if rows.len() == 0 {
        return "".to_string();
    }
    let mut out = "## Impl Coverage\n\n| Crate | Version | Types | OurTraitsDone | MissingOurTraits | ElicitComplete | ElicitCompleteGap | ExternallyBlocked | Coverage |\n|-------|---------|------:|--------------:|-----------------:|---------------:|------------------:|------------------:|---------:|\n".to_string();
    out.append(write_impl_rows(rows).as_str());
    out.append(write_impl_total(total).as_str());
    out.append("\n`OurTraitsDone` counts effective trait coverage. A trait counts when it is satisfied either directly on the target type or indirectly via a wrapper that deductively covers that target. Lifetime-bound types such as `Pixels<'a, R>` are still not expected to implement `Elicitation` or `ElicitIntrospect` directly because `Elicitation` requires `'static`.\n\n");
    out.append("`Coverage` uses that same effective-coverage rule. A type counts as covered when every elicitation-owned trait that should exist for that target is present, either directly or through wrapper coverage, even if direct `ElicitComplete` is blocked by lifetimes or the orphan rule.\n\n");
    out.append("`ExternallyBlocked` counts true orphan-rule blockers only: the implementable elicitation-owned traits are present, but direct `ElicitComplete` is blocked by missing `Serialize`, `Deserialize`, or `JsonSchema` on the target type. Lifetime-bound rows still count toward `Coverage` when every implementable elicitation-owned trait is present, but they are not counted as external blockers.\n\n");
    out.append(write_impl_gap_table(gaps).as_str());
    out.append("---\n\n");
    out
}

/// The section on shadow coverage, if there is any.
pub open spec fn shadow_section(
    rows: Seq<ShadowSummaryView>,
    gaps: Seq<ShadowGapView>,
    skipped: Seq<SkippedPairView>,
) -> Seq<char> {
    if rows.len() == 0 {
        ""@
    } else {
        "## Shadow Coverage\n\n| Upstream | Version | Shadow Crate | Covered | Drifted | Total | VerificationGaps | Coverage |\n|----------|---------|-------------|--------:|--------:|------:|-----------------:|---------:|\n"@
            + shadow_row_lines(rows) + "\n"@ + shadow_gap_table(gaps) + skipped_table(skipped)
    }
}

fn write_shadow_section(
    rows: &Vec<ShadowSummary>,
    gaps: &Vec<ShadowGapEntry>,
    skipped: &Vec<ShadowSkippedPair>,
) -> (r: String)
    ensures
        r@ == shadow_section(views(rows@), views(gaps@), views(skipped@)),
{
    assert(views(rows@).len() == rows@.len());
    if rows.len() == 0 {
        return "".to_string();
    }
    let mut out = "## Shadow Coverage\n\n| Upstream | Version | Shadow Crate | Covered | Drifted | Total | VerificationGaps | Coverage |\n|----------|---------|-------------|--------:|--------:|------:|-----------------:|---------:|\n".to_string();
    out.append(write_shadow_rows(rows).as_str());
    out.append("\n");
    out.append(write_shadow_gap_table(gaps).as_str());
    out.append(write_skipped_table(skipped).as_str());
    out
}

/// The summary of a day. Pairs that were skipped are listed by name.
pub fn write_summary_md(
    date: &str,
    impl_rows: &Vec<ImplSummary>,
    impl_total: &ImplTotals,
    impl_gaps: &Vec<ImplGapEntry>,
    shadow_rows: &Vec<ShadowSummary>,
    shadow_gaps: &Vec<ShadowGapEntry>,
    skipped: Vec<ShadowSkippedPair>,
) -> (r: String)
    ensures
        r@ == "# elicitation Coverage Summary\n\n_Generated: "@ + date@ + "_\n\n---\n\n"@
            + impl_section(views(impl_rows@), impl_total@, views(impl_gaps@)) + shadow_section(
            views(shadow_rows@),
            views(shadow_gaps@),
            sorted::<ShadowSkippedPair>(views(skipped@)),
        ),
{
    let in_order = sort_ranked(skipped);
    let mut out = "# elicitation Coverage Summary\n\n_Generated: ".to_string();
    out.append(date);
    out.append("_\n\n---\n\n");
    out.append(write_impl_section(impl_rows, impl_total, impl_gaps).as_str());
    out.append(write_shadow_section(shadow_rows, shadow_gaps, &in_order).as_str());
    out
}

/// Types without an impl that lack traits of ours.
pub open spec fn lacks_ours(map: Option<&WrapperCoverageMap>) -> spec_fn(ImplEntryView) -> bool {
    |e: ImplEntryView|
        e.elicit_impl is Missing && !has_our_traits(e, given_wrappers(map, e.type_path))
}

/// The types without an impl that the summary does not count as done are as many as the gaps of
/// that kind, whatever feature probes there are.
pub proof fn law_missing_column_counts_gaps(
    source: Seq<char>,
    entries: Seq<ImplEntryView>,
    tables: Seq<(String, Vec<(String, TypeFeatureProbe)>)>,
    map: &WrapperCoverageMap,
)
    ensures
        count_if(entries, lacks_ours(Some(map))) == count_if(
            report_gaps(source, entries, tables, map@),
            is_impl_gap(ImplGapKind::MissingOurTraits),
        ),
    decreases entries.len(),
{
    if entries.len() > 0 {
        let init = entries.drop_last();
        let e = entries.last();
        law_missing_column_counts_gaps(source, init, tables, map);
        let rest = report_gaps(source, init, tables, map@);
        match impl_gap(
            source,
            e,
            crate::gaps::probe_for(tables, source, e.type_path),
            wrappers_for(map@, e.type_path),
        ) {
            Some(g) => {
                assert(rest.push(g).drop_last() =~= rest);
            },
            None => {},
        }
    }
}

/// The list of gaps of a crate agrees with its row: where no two entries of the report are about
/// the same type, as many gaps of that kind are listed as types without an impl are not done.
pub proof fn law_listed_gaps_agree_with_row(
    source: Seq<char>,
    entries: Seq<ImplEntryView>,
    tables: Seq<(String, Vec<(String, TypeFeatureProbe)>)>,
    map: &WrapperCoverageMap,
)
    requires
        entries_differ(entries),
    ensures
        count_if(entries, lacks_ours(Some(map))) == count_if(
            sorted::<ImplGapEntry>(
                firsts::<ImplGapEntry>(report_gaps(source, entries, tables, map@)),
            ),
            is_impl_gap(ImplGapKind::MissingOurTraits),
        ),
{
    let gaps = report_gaps(source, entries, tables, map@);
    law_missing_column_counts_gaps(source, entries, tables, map);
    law_report_gaps_stay(source, entries, tables, map@);
    law_sorted_permutes::<ImplGapEntry>(gaps);
    lemma_count_permuted(
        sorted::<ImplGapEntry>(gaps),
        gaps,
        is_impl_gap(ImplGapKind::MissingOurTraits),
    );
}

/// In every row the types done and the types with missing traits make up all types.
pub proof fn law_done_and_missing_are_all(r: ImplCoverageReport, map: Option<&WrapperCoverageMap>)
    requires
        r.entries@.len() <= usize::MAX,
    ensures
        impl_summary(r, map).our_traits_done + impl_summary(r, map).missing_our_traits == impl_summary(
            r,
            map,
        ).types,
{
    lemma_count_bound(views(r.entries@), is_done(map));
}

/// The rows of the impl table come by crate, one for every report.
pub proof fn law_impl_rows_by_crate(
    reports: Seq<(String, ImplCoverageReport)>,
    map: Option<&WrapperCoverageMap>,
)
    ensures
        ({
            let rows = sorted::<ImplSummary>(impl_summaries(reports, map));
            &&& rows.len() == reports.len()
            &&& forall|i: int, j: int|
                0 <= i < j < rows.len() ==> !text_lt(
                    (#[trigger] rows[j]).source_crate,
                    (#[trigger] rows[i]).source_crate,
                )
        }),
{
    let all = impl_summaries(reports, map);
    let rows = sorted::<ImplSummary>(all);
    law_sorted_permutes::<ImplSummary>(all);
    law_sorted_in_order::<ImplSummary>(all);
    assert forall|i: int, j: int| 0 <= i < j < rows.len() implies !text_lt(
        (#[trigger] rows[j]).source_crate,
        (#[trigger] rows[i]).source_crate,
    ) by {
        assert(!key_lt(ImplSummary::key(rows[j]), ImplSummary::key(rows[i])));
        lemma_text_key(rows[j].source_crate, rows[i].source_crate);
    }
}

/// The rows of the shadow table come by upstream crate, one for every report.
pub proof fn law_shadow_rows_by_crate(reports: Seq<(String, String, ShadowReport)>)
    ensures
        ({
            let rows = sorted::<ShadowSummary>(shadow_summaries(reports));
            &&& rows.len() == reports.len()
            &&& forall|i: int, j: int|
                0 <= i < j < rows.len() ==> !text_lt(
                    (#[trigger] rows[j]).target_crate,
                    (#[trigger] rows[i]).target_crate,
                )
        }),
{
    let all = shadow_summaries(reports);
    let rows = sorted::<ShadowSummary>(all);
    law_sorted_permutes::<ShadowSummary>(all);
    law_sorted_in_order::<ShadowSummary>(all);
    assert forall|i: int, j: int| 0 <= i < j < rows.len() implies !text_lt(
        (#[trigger] rows[j]).target_crate,
        (#[trigger] rows[i]).target_crate,
    ) by {
        assert(!key_lt(ShadowSummary::key(rows[j]), ShadowSummary::key(rows[i])));
        lemma_pair_key(
            rows[j].target_crate,
            rows[j].shadow_crate,
            rows[i].target_crate,
            rows[i].shadow_crate,
        );
    }
}

}
