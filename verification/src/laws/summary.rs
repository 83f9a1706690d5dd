//! What the summary says of the reports and lists that it sums up.

use vstd::prelude::*;

use crate::collect::{ElicitCompleteSet, TraitPrereqs};
use crate::count::{count_if, lemma_count_bound};
use crate::gaps::{ImplGapKind, ImplGapView, ShadowGapKind, ShadowGapView};
use crate::impl_coverage::{ImplCoverageReport, ImplEntryView};
use crate::inventory::{Inventory, ItemKind, ItemView};
use crate::laws::basics::{law_count_is_of_members, lemma_filter_same};
use crate::laws::gaps::{are_wrappers_for, has_external, is_wrapped, law_flags_of_a_type};
use crate::laws::gaps::{law_state_of_a_type, lemma_wrappers, uncovered};
use crate::laws::shadow::law_report_numbers;
use crate::order::{law_sorted_members, sorted};
use crate::report::given_wrappers;
use crate::shadow::{is_shadow_report, shadow_inputs, ShadowReport};
use crate::summary::{impl_gap_table, impl_row_line, impl_row_lines, impl_section, impl_summaries};
use crate::summary::{impl_summary, impl_total, impl_total_line, is_done, is_impl_gap, is_orphaned};
use crate::summary::{is_ready, is_shadow_gap, shadow_gap_table, shadow_row_line, shadow_row_lines};
use crate::summary::{shadow_section, shadow_summaries, shadow_summary, skipped_row_line};
use crate::summary::{skipped_row_lines, skipped_table, ImplSummary, ImplSummaryView, ImplTotalsView};
use crate::summary::{ShadowSummary, ShadowSummaryView, SkippedPairView};
use crate::text::{decimal, joined, views};
use crate::trenchcoat::WrapperCoverageMap;

verus! {

/// The row shows the numbers of the shadow report. The total is the covered, the drifted and the
/// missing items together.
pub open spec fn is_shadow_row_of(row: ShadowSummaryView, r: ShadowReport) -> bool {
    &&& row.target_crate == r.target_crate@
    &&& row.target_version == r.target_version@
    &&& row.shadow_crate == r.shadow_crate@
    &&& row.covered == r.covered_count
    &&& row.drifted == r.drifted_count
    &&& row.total == r.covered_count + r.drifted_count + r.missing_count
    &&& row.verification_gaps == r.verification_gap_count
}

/// A summary has a row for every shadow report, and every row is that of a report. Such a row
/// shows full coverage only if nothing is missing and nothing has drifted.
pub proof fn law_shadow_rows_are_of_reports(reports: Seq<(String, String, ShadowReport)>)
    ensures
        ({
            let rows = sorted::<ShadowSummary>(shadow_summaries(reports));
            &&& forall|i: int|
                0 <= i < reports.len() ==> exists|j: int|
                    0 <= j < rows.len() && is_shadow_row_of(#[trigger] rows[j], (#[trigger] reports[i]).2)
            &&& forall|j: int|
                0 <= j < rows.len() ==> exists|i: int|
                    0 <= i < reports.len() && is_shadow_row_of(#[trigger] rows[j], (#[trigger] reports[i]).2)
            &&& rows.len() == reports.len()
        }),
        forall|row: ShadowSummaryView, r: ShadowReport| #[trigger]
            is_shadow_row_of(row, r) ==> {
                &&& row.total == row.covered + row.drifted <==> r.missing_count == 0
                &&& row.total == row.covered <==> r.missing_count == 0 && r.drifted_count == 0
            },
{
    let all = shadow_summaries(reports);
    let rows = sorted::<ShadowSummary>(all);
    crate::order::law_sorted_permutes::<ShadowSummary>(all);
    assert forall|i: int| 0 <= i < reports.len() implies exists|j: int|
        0 <= j < rows.len() && is_shadow_row_of(#[trigger] rows[j], (#[trigger] reports[i]).2) by {
        assert(is_shadow_row_of(all[i], reports[i].2));
        assert(all.contains(all[i]));
        law_sorted_members::<ShadowSummary>(all, all[i]);
        let j = choose|j: int| 0 <= j < rows.len() && rows[j] == all[i];
        assert(is_shadow_row_of(rows[j], reports[i].2));
    }
    assert forall|j: int| 0 <= j < rows.len() implies exists|i: int|
        0 <= i < reports.len() && is_shadow_row_of(#[trigger] rows[j], (#[trigger] reports[i]).2) by {
        assert(rows.contains(rows[j]));
        law_sorted_members::<ShadowSummary>(all, rows[j]);
        let i = choose|i: int| 0 <= i < all.len() && all[i] == rows[j];
        assert(is_shadow_row_of(rows[j], reports[i].2));
    }
}

/// For a report built from two inventories the total of its row is the number of items of the
/// target crate that are not modules. It shows full coverage only if nothing is missing.
pub proof fn law_shadow_total_counts_target_items(
    row: ShadowSummaryView,
    r: ShadowReport,
    target: Inventory,
    shadow: Inventory,
    complete: ElicitCompleteSet,
    prereqs: Seq<(String, TraitPrereqs)>,
)
    requires
        row == shadow_summary(r),
        is_shadow_report(r, target, shadow, shadow_inputs(shadow, complete, prereqs)),
    ensures
        row.total == r.total_count,
        row.total == views(target.items@).filter(|t: ItemView| t.kind != ItemKind::Module).len(),
        row.covered == row.total ==> r.missing_count == 0,
        row.covered + row.drifted == row.total <==> r.missing_count == 0,
{
    law_report_numbers(r, target, shadow, complete, prereqs);
}

/// The type lacks none of our traits: they are on it or on a wrapper, or a wrapper is complete.
pub open spec fn is_done_with(map: Option<&WrapperCoverageMap>, e: ImplEntryView) -> bool {
    is_wrapped(given_wrappers(map, e.type_path)) || uncovered(
        e,
        given_wrappers(map, e.type_path),
    ).len() == 0
}

/// The type has no impl of its own or on a wrapper, lacks none of our traits and has no
/// lifetimes.
pub open spec fn is_all_but_complete(map: Option<&WrapperCoverageMap>, e: ImplEntryView) -> bool {
    &&& e.elicit_impl is Missing
    &&& !is_wrapped(given_wrappers(map, e.type_path))
    &&& uncovered(e, given_wrappers(map, e.type_path)).len() == 0
    &&& e.lifetime_params.len() == 0
}

/// The row shows the numbers of the impl report: all types, those that are done and the others,
/// the complete ones, those that lack only the impl, and those that also lack an external trait.
pub open spec fn is_impl_row_of(
    row: ImplSummaryView,
    r: ImplCoverageReport,
    map: Option<&WrapperCoverageMap>,
) -> bool {
    let entries = views(r.entries@);
    &&& row.source_crate == r.source_crate@
    &&& row.source_version == r.source_version@
    &&& row.types == entries.len()
    &&& row.our_traits_done == entries.filter(|e: ImplEntryView| is_done_with(map, e)).len()
    &&& row.missing_our_traits == entries.filter(|e: ImplEntryView| !is_done_with(map, e)).len()
    &&& row.complete == r.complete_count
    &&& row.elicit_complete_gap == entries.filter(
        |e: ImplEntryView| is_all_but_complete(map, e) && has_external(e),
    ).len()
    &&& row.externally_blocked == entries.filter(
        |e: ImplEntryView| is_all_but_complete(map, e) && !has_external(e),
    ).len()
}

/// The wrappers that the summary takes into account are those that the map has for the type, and
/// none without a map.
pub proof fn law_given_wrappers(map: Option<&WrapperCoverageMap>, path: Seq<char>)
    ensures
        match map {
            Some(m) => are_wrappers_for(m@, path, given_wrappers(map, path)),
            None => given_wrappers(map, path).len() == 0,
        },
{
    match map {
        Some(m) => lemma_wrappers(m@, path),
        None => {},
    }
}

proof fn lemma_not_filter<V>(s: Seq<V>, p: spec_fn(V) -> bool, q: spec_fn(V) -> bool)
    requires
        forall|v: V| #[trigger] p(v) == !q(v),
    ensures
        s.filter(p).len() + s.filter(q).len() == s.len(),
    decreases s.len(),
{
    reveal(Seq::filter);
    if s.len() > 0 {
        lemma_not_filter(s.drop_last(), p, q);
        assert(p(s.last()) == !q(s.last()));
    }
}

proof fn lemma_impl_row(r: ImplCoverageReport, map: Option<&WrapperCoverageMap>)
    ensures
        is_impl_row_of(impl_summary(r, map), r, map),
{
    let entries = views(r.entries@);
    let source = r.source_crate@;
    assert(entries.len() == r.entries.len());
    let done = |e: ImplEntryView| is_done_with(map, e);
    let undone = |e: ImplEntryView| !is_done_with(map, e);
    let ready = |e: ImplEntryView| is_all_but_complete(map, e) && has_external(e);
    let blocked = |e: ImplEntryView| is_all_but_complete(map, e) && !has_external(e);
    assert forall|i: int| 0 <= i < entries.len() implies is_done(map)(#[trigger] entries[i]) == done(
        entries[i],
    ) by {
        let e = entries[i];
        law_flags_of_a_type(source, e, None, given_wrappers(map, e.type_path));
    }
    assert forall|i: int| 0 <= i < entries.len() implies is_ready(source, map)(
        #[trigger] entries[i],
    ) == ready(entries[i]) by {
        let e = entries[i];
        law_state_of_a_type(source, e, None, given_wrappers(map, e.type_path));
    }
    assert forall|i: int| 0 <= i < entries.len() implies is_orphaned(source, map)(
        #[trigger] entries[i],
    ) == blocked(entries[i]) by {
        let e = entries[i];
        law_state_of_a_type(source, e, None, given_wrappers(map, e.type_path));
        law_flags_of_a_type(source, e, None, given_wrappers(map, e.type_path));
    }
    lemma_filter_same(entries, is_done(map), done);
    lemma_filter_same(entries, is_ready(source, map), ready);
    lemma_filter_same(entries, is_orphaned(source, map), blocked);
    law_count_is_of_members(entries, is_done(map));
    law_count_is_of_members(entries, is_ready(source, map));
    law_count_is_of_members(entries, is_orphaned(source, map));
    lemma_count_bound(entries, is_done(map));
    lemma_count_bound(entries, is_ready(source, map));
    lemma_count_bound(entries, is_orphaned(source, map));
    lemma_not_filter(entries, undone, done);
}

/// A summary has a row for every impl report, and every row is that of a report.
pub proof fn law_impl_rows_are_of_reports(
    reports: Seq<(String, ImplCoverageReport)>,
    map: Option<&WrapperCoverageMap>,
)
    ensures
        ({
            let rows = sorted::<ImplSummary>(impl_summaries(reports, map));
            &&& forall|i: int|
                0 <= i < reports.len() ==> exists|j: int|
                    0 <= j < rows.len() && is_impl_row_of(
                        #[trigger] rows[j],
                        (#[trigger] reports[i]).1,
                        map,
                    )
            &&& forall|j: int|
                0 <= j < rows.len() ==> exists|i: int|
                    0 <= i < reports.len() && is_impl_row_of(
                        #[trigger] rows[j],
                        (#[trigger] reports[i]).1,
                        map,
                    )
            &&& rows.len() == reports.len()
        }),
{
    let all = impl_summaries(reports, map);
    let rows = sorted::<ImplSummary>(all);
    crate::order::law_sorted_permutes::<ImplSummary>(all);
    assert forall|i: int| 0 <= i < reports.len() implies exists|j: int|
        0 <= j < rows.len() && is_impl_row_of(#[trigger] rows[j], (#[trigger] reports[i]).1, map) by {
        lemma_impl_row(reports[i].1, map);
        assert(is_impl_row_of(all[i], reports[i].1, map));
        assert(all.contains(all[i]));
        law_sorted_members::<ImplSummary>(all, all[i]);
        let j = choose|j: int| 0 <= j < rows.len() && rows[j] == all[i];
        assert(is_impl_row_of(rows[j], reports[i].1, map));
    }
    assert forall|j: int| 0 <= j < rows.len() implies exists|i: int|
        0 <= i < reports.len() && is_impl_row_of(#[trigger] rows[j], (#[trigger] reports[i]).1, map) by {
        assert(rows.contains(rows[j]));
        law_sorted_members::<ImplSummary>(all, rows[j]);
        let i = choose|i: int| 0 <= i < all.len() && all[i] == rows[j];
        lemma_impl_row(reports[i].1, map);
        assert(is_impl_row_of(rows[j], reports[i].1, map));
    }
}

/// The sums over two lists of rows are the sums of their sums; one row is its own sum, and no row
/// makes nothing.
pub proof fn law_totals_add_up(a: Seq<ImplSummaryView>, b: Seq<ImplSummaryView>, v: ImplSummaryView)
    ensures
        impl_total(Seq::empty()) == (0nat, 0nat, 0nat, 0nat, 0nat, 0nat),
        ({
            let t = impl_total(seq![v]);
            &&& t.0 == v.types
            &&& t.1 == v.our_traits_done
            &&& t.2 == v.missing_our_traits
            &&& t.3 == v.complete
            &&& t.4 == v.elicit_complete_gap
            &&& t.5 == v.externally_blocked
        }),
        ({
            let s = impl_total(a + b);
            let t = impl_total(a);
            let u = impl_total(b);
            &&& s.0 == t.0 + u.0
            &&& s.1 == t.1 + u.1
            &&& s.2 == t.2 + u.2
            &&& s.3 == t.3 + u.3
            &&& s.4 == t.4 + u.4
            &&& s.5 == t.5 + u.5
        }),
    decreases b.len(),
{
    assert(seq![v].drop_last() =~= Seq::empty());
    assert(impl_total(seq![v].drop_last()) == (0nat, 0nat, 0nat, 0nat, 0nat, 0nat));
    if b.len() == 0 {
        assert(a + b =~= a);
    } else {
        law_totals_add_up(a, b.drop_last(), v);
        assert((a + b).drop_last() =~= a + b.drop_last());
        assert((a + b).last() == b.last());
    }
}

/// Gaps of a kind are counted one by one.
pub proof fn law_gaps_of_a_kind(
    a: Seq<ImplGapView>,
    kind: ImplGapKind,
    b: Seq<ShadowGapView>,
    shadow_kind: ShadowGapKind,
)
    ensures
        count_if(a, is_impl_gap(kind)) == a.filter(|g: ImplGapView| g.gap_kind == kind).len(),
        count_if(b, is_shadow_gap(shadow_kind)) == b.filter(
            |g: ShadowGapView| g.gap_kind == shadow_kind,
        ).len(),
{
    law_count_is_of_members(a, is_impl_gap(kind));
    law_count_is_of_members(b, is_shadow_gap(shadow_kind));
    lemma_filter_same(a, is_impl_gap(kind), |g: ImplGapView| g.gap_kind == kind);
    lemma_filter_same(b, is_shadow_gap(shadow_kind), |g: ShadowGapView| g.gap_kind == shadow_kind);
}


/// A row of a table with the cells.
pub open spec fn table_row(cells: Seq<Seq<char>>) -> Seq<char> {
    "| "@ + joined(cells, " | "@) + " |\n"@
}

/// A text in code marks.
pub open spec fn as_code(text: Seq<char>) -> Seq<char> {
    "`"@ + text + "`"@
}

/// The line of a crate has its name, its version, its types, those that are done, that miss traits
/// of ours, that are complete, that lack only the impl and that are blocked, and its share.
pub proof fn law_impl_row_cells(v: ImplSummaryView)
    ensures
        impl_row_line(v) == table_row(
            seq![
                as_code(v.source_crate),
                v.source_version,
                decimal(v.types as nat),
                decimal(v.our_traits_done as nat),
                decimal(v.missing_our_traits as nat),
                decimal(v.complete as nat),
                decimal(v.elicit_complete_gap as nat),
                decimal(v.externally_blocked as nat),
                v.coverage + "%"@,
            ],
        ),
{
    let a = as_code(v.source_crate);
    let b = v.source_version;
    let c = decimal(v.types as nat);
    let d = decimal(v.our_traits_done as nat);
    let e = decimal(v.missing_our_traits as nat);
    let f = decimal(v.complete as nat);
    let g = decimal(v.elicit_complete_gap as nat);
    let h = decimal(v.externally_blocked as nat);
    let i = v.coverage + "%"@;
    let s0: Seq<Seq<char>> = seq![];
    let s1 = s0.push(a);
    let s2 = s1.push(b);
    let s3 = s2.push(c);
    let s4 = s3.push(d);
    let s5 = s4.push(e);
    let s6 = s5.push(f);
    let s7 = s6.push(g);
    let s8 = s7.push(h);
    let s9 = s8.push(i);
    lemma_joined_more(s0, a);
    lemma_first_code(v.source_crate);
    lemma_step(s1, b);
    lemma_step(s2, c);
    lemma_step(s3, d);
    lemma_step(s4, e);
    lemma_step(s5, f);
    lemma_step(s6, g);
    lemma_step(s7, h);
    lemma_step(s8, i);
    lemma_last_percent("| "@ + joined(s8, " | "@), v.coverage);
    assert(s9 =~= seq![a, b, c, d, e, f, g, h, i]);
}

/// The line of a shadow crate has the upstream crate, its version, the shadow crate, the covered
/// and the drifted items, the total, the verification gaps, and the share.
pub proof fn law_shadow_row_cells(v: ShadowSummaryView)
    ensures
        shadow_row_line(v) == table_row(
            seq![
                as_code(v.target_crate),
                v.target_version,
                as_code(v.shadow_crate),
                decimal(v.covered as nat),
                decimal(v.drifted as nat),
                decimal(v.total as nat),
                decimal(v.verification_gaps as nat),
                v.coverage + "%"@,
            ],
        ),
{
    let a = as_code(v.target_crate);
    let b = v.target_version;
    let c = as_code(v.shadow_crate);
    let d = decimal(v.covered as nat);
    let e = decimal(v.drifted as nat);
    let f = decimal(v.total as nat);
    let g = decimal(v.verification_gaps as nat);
    let h = v.coverage + "%"@;
    let s0: Seq<Seq<char>> = seq![];
    let s1 = s0.push(a);
    let s2 = s1.push(b);
    let s3 = s2.push(c);
    let s4 = s3.push(d);
    let s5 = s4.push(e);
    let s6 = s5.push(f);
    let s7 = s6.push(g);
    let s8 = s7.push(h);
    lemma_joined_more(s0, a);
    lemma_first_code(v.target_crate);
    lemma_step(s1, b);
    lemma_step(s2, c);
    lemma_inner_code("| "@ + joined(s2, " | "@), v.shadow_crate);
    lemma_step(s3, d);
    lemma_step(s4, e);
    lemma_step(s5, f);
    lemma_step(s6, g);
    lemma_step(s7, h);
    lemma_last_percent("| "@ + joined(s7, " | "@), v.coverage);
    assert(s8 =~= seq![a, b, c, d, e, f, g, h]);
}

/// The line of a skipped pair has both crates and the error.
pub proof fn law_skipped_row_cells(v: SkippedPairView)
    ensures
        skipped_row_line(v) == table_row(
            seq![as_code(v.upstream_crate), as_code(v.shadow_crate), v.error],
        ),
{
    let a = as_code(v.upstream_crate);
    let b = as_code(v.shadow_crate);
    let c = v.error;
    lemma_marks();
    let s0: Seq<Seq<char>> = seq![];
    let s1 = s0.push(a);
    lemma_joined_more(s0, a);
    let s2 = s1.push(b);
    lemma_joined_more(s1, b);
    let s3 = s2.push(c);
    lemma_joined_more(s2, c);
    assert(s3 =~= seq![a, b, c]);
    assert(skipped_row_line(v) =~= table_row(seq![a, b, c]));
}

proof fn lemma_step(s: Seq<Seq<char>>, part: Seq<char>)
    requires
        s.len() > 0,
    ensures
        "| "@ + joined(s.push(part), " | "@) == "| "@ + joined(s, " | "@) + " | "@ + part,
{
    lemma_joined_more(s, part);
    assert("| "@ + joined(s.push(part), " | "@) =~= "| "@ + joined(s, " | "@) + " | "@ + part);
}

proof fn lemma_first_code(x: Seq<char>)
    ensures
        "| `"@ + x + "` | "@ == "| "@ + as_code(x) + " | "@,
{
    lemma_marks();
    assert("| `"@ + x + "` | "@ =~= "| "@ + as_code(x) + " | "@);
}

proof fn lemma_inner_code(p: Seq<char>, x: Seq<char>)
    ensures
        p + " | `"@ + x + "` | "@ == p + " | "@ + as_code(x) + " | "@,
{
    lemma_marks();
    assert(p + " | `"@ + x + "` | "@ =~= p + " | "@ + as_code(x) + " | "@);
}

proof fn lemma_last_percent(p: Seq<char>, x: Seq<char>)
    ensures
        p + " | "@ + x + "% |\n"@ == p + " | "@ + (x + "%"@) + " |\n"@,
{
    lemma_marks();
    assert(p + " | "@ + x + "% |\n"@ =~= p + " | "@ + (x + "%"@) + " |\n"@);
}

proof fn lemma_marks()
    ensures
        "| `"@ == "| "@ + "`"@,
        "` | "@ == "`"@ + " | "@,
        " | `"@ == " | "@ + "`"@,
        "` | `"@ == "`"@ + " | "@ + "`"@,
        "% |\n"@ == "%"@ + " |\n"@,
{
    reveal_strlit("| `");
    reveal_strlit("| ");
    reveal_strlit("`");
    reveal_strlit("` | ");
    reveal_strlit(" | ");
    reveal_strlit(" | `");
    reveal_strlit("` | `");
    reveal_strlit("% |\n");
    reveal_strlit("%");
    reveal_strlit(" |\n");
    assert("| `"@ =~= "| "@ + "`"@);
    assert("` | "@ =~= "`"@ + " | "@);
    assert(" | `"@ =~= " | "@ + "`"@);
    assert("` | `"@ =~= "`"@ + " | "@ + "`"@);
    assert("% |\n"@ =~= "%"@ + " |\n"@);
}

proof fn lemma_joined_more(s: Seq<Seq<char>>, part: Seq<char>)
    ensures
        joined(s.push(part), " | "@) == if s.len() == 0 {
            part
        } else {
            joined(s, " | "@) + " | "@ + part
        },
{
    assert(s.push(part).drop_last() =~= s);
}

/// The text holds the other.
pub open spec fn holds_text(text: Seq<char>, part: Seq<char>) -> bool {
    exists|a: Seq<char>, b: Seq<char>| text == #[trigger] (a + part + b)
}

proof fn lemma_holds_inside(text: Seq<char>, middle: Seq<char>, part: Seq<char>)
    requires
        holds_text(text, middle),
        holds_text(middle, part),
    ensures
        holds_text(text, part),
{
    let (a, b) = choose|a: Seq<char>, b: Seq<char>| text == #[trigger] (a + middle + b);
    let (c, d) = choose|c: Seq<char>, d: Seq<char>| middle == #[trigger] (c + part + d);
    assert(text =~= (a + c) + part + (d + b));
}

proof fn lemma_impl_lines(rows: Seq<ImplSummaryView>, i: int)
    requires
        0 <= i < rows.len(),
    ensures
        holds_text(impl_row_lines(rows), impl_row_line(rows[i])),
    decreases rows.len(),
{
    let f = rows.drop_last();
    let line = impl_row_line(rows[i]);
    if i < f.len() {
        lemma_impl_lines(f, i);
        let (a, b) = choose|a: Seq<char>, b: Seq<char>|
            impl_row_lines(f) == #[trigger] (a + impl_row_line(f[i]) + b);
        assert(impl_row_lines(rows) =~= a + line + (b + impl_row_line(rows.last())));
    } else {
        assert(impl_row_lines(rows) =~= impl_row_lines(f) + line + Seq::empty());
    }
}

proof fn lemma_shadow_lines(rows: Seq<ShadowSummaryView>, i: int)
    requires
        0 <= i < rows.len(),
    ensures
        holds_text(shadow_row_lines(rows), shadow_row_line(rows[i])),
    decreases rows.len(),
{
    let f = rows.drop_last();
    let line = shadow_row_line(rows[i]);
    if i < f.len() {
        lemma_shadow_lines(f, i);
        let (a, b) = choose|a: Seq<char>, b: Seq<char>|
            shadow_row_lines(f) == #[trigger] (a + shadow_row_line(f[i]) + b);
        assert(shadow_row_lines(rows) =~= a + line + (b + shadow_row_line(rows.last())));
    } else {
        assert(shadow_row_lines(rows) =~= shadow_row_lines(f) + line + Seq::empty());
    }
}

proof fn lemma_skipped_lines(rows: Seq<SkippedPairView>, i: int)
    requires
        0 <= i < rows.len(),
    ensures
        holds_text(skipped_row_lines(rows), skipped_row_line(rows[i])),
    decreases rows.len(),
{
    let f = rows.drop_last();
    let line = skipped_row_line(rows[i]);
    if i < f.len() {
        lemma_skipped_lines(f, i);
        let (a, b) = choose|a: Seq<char>, b: Seq<char>|
            skipped_row_lines(f) == #[trigger] (a + skipped_row_line(f[i]) + b);
        assert(skipped_row_lines(rows) =~= a + line + (b + skipped_row_line(rows.last())));
    } else {
        assert(skipped_row_lines(rows) =~= skipped_row_lines(f) + line + Seq::empty());
    }
}

/// The section on impl coverage is there exactly where there are rows; it then has the line of
/// every crate, that of the totals, and the table of gaps.
pub proof fn law_impl_section(
    rows: Seq<ImplSummaryView>,
    total: ImplTotalsView,
    gaps: Seq<ImplGapView>,
)
    ensures
        rows.len() == 0 ==> impl_section(rows, total, gaps) == ""@,
        rows.len() > 0 ==> {
            let section = impl_section(rows, total, gaps);
            &&& forall|i: int|
                0 <= i < rows.len() ==> holds_text(section, impl_row_line(#[trigger] rows[i]))
            &&& holds_text(section, impl_total_line(total))
            &&& holds_text(section, impl_gap_table(gaps))
        },
{
    if rows.len() > 0 {
        let section = impl_section(rows, total, gaps);
        lemma_impl_section_parts(rows, total, gaps);
        assert forall|i: int| 0 <= i < rows.len() implies holds_text(
            section,
            impl_row_line(#[trigger] rows[i]),
        ) by {
            lemma_impl_lines(rows, i);
            lemma_holds_inside(section, impl_row_lines(rows), impl_row_line(rows[i]));
        }
    }
}

proof fn lemma_around(a: Seq<char>, part: Seq<char>, b: Seq<char>)
    ensures
        holds_text(a + part + b, part),
{
    assert(a + part + b == a + part + b);
}

proof fn lemma_more_behind(text: Seq<char>, part: Seq<char>, b: Seq<char>)
    requires
        holds_text(text, part),
    ensures
        holds_text(text + b, part),
{
    let (c, d) = choose|c: Seq<char>, d: Seq<char>| text == #[trigger] (c + part + d);
    assert(text + b =~= c + part + (d + b));
}

proof fn lemma_at_end(a: Seq<char>, part: Seq<char>)
    ensures
        holds_text(a + part, part),
{
    assert(a + part =~= a + part + Seq::empty());
}

proof fn lemma_impl_section_parts(
    rows: Seq<ImplSummaryView>,
    total: ImplTotalsView,
    gaps: Seq<ImplGapView>,
)
    requires
        rows.len() > 0,
    ensures
        holds_text(impl_section(rows, total, gaps), impl_row_lines(rows)),
        holds_text(impl_section(rows, total, gaps), impl_total_line(total)),
        holds_text(impl_section(rows, total, gaps), impl_gap_table(gaps)),
{
    let section = impl_section(rows, total, gaps);
    let n = section.len() as int;
    let tail = "---\n\n"@;
    let table = impl_gap_table(gaps);
    let before = section.take(n - tail.len() - table.len());
    assert(section =~= before + table + tail);
    lemma_around(before, table, tail);
    let lines = impl_row_lines(rows);
    let sum = impl_total_line(total);
    let head = impl_heading();
    assert(section.take((head.len() + lines.len() + sum.len()) as int) =~= head + lines + sum);
    lemma_around(head, lines, sum);
    lemma_at_end(head + lines, sum);
    let rest = section.skip((head.len() + lines.len() + sum.len()) as int);
    assert(section =~= (head + lines + sum) + rest);
    lemma_more_behind(head + lines + sum, lines, rest);
    lemma_more_behind(head + lines + sum, sum, rest);
}

/// What the section on impl coverage begins with.
spec fn impl_heading() -> Seq<char> {
    "## Impl Coverage\n\n| Crate | Version | Types | OurTraitsDone | MissingOurTraits | ElicitComplete | ElicitCompleteGap | ExternallyBlocked | Coverage |\n|-------|---------|------:|--------------:|-----------------:|---------------:|------------------:|------------------:|---------:|\n"@
}

/// The section on shadow coverage is there exactly where there are rows; it then has the line of
/// every pair, the table of gaps and, where pairs were skipped, the line of each of them.
pub proof fn law_shadow_section(
    rows: Seq<ShadowSummaryView>,
    gaps: Seq<ShadowGapView>,
    skipped: Seq<SkippedPairView>,
)
    ensures
        rows.len() == 0 ==> shadow_section(rows, gaps, skipped) == ""@,
        rows.len() > 0 ==> {
            let section = shadow_section(rows, gaps, skipped);
            &&& forall|i: int|
                0 <= i < rows.len() ==> holds_text(section, shadow_row_line(#[trigger] rows[i]))
            &&& holds_text(section, shadow_gap_table(gaps))
            &&& forall|i: int|
                0 <= i < skipped.len() ==> holds_text(
                    section,
                    skipped_row_line(#[trigger] skipped[i]),
                )
        },
{
    if rows.len() > 0 {
        let section = shadow_section(rows, gaps, skipped);
        let head = "## Shadow Coverage\n\n| Upstream | Version | Shadow Crate | Covered | Drifted | Total | VerificationGaps | Coverage |\n|----------|---------|-------------|--------:|--------:|------:|-----------------:|---------:|\n"@;
        let lines = shadow_row_lines(rows);
        let table = shadow_gap_table(gaps);
        let last = skipped_table(skipped);
        lemma_around(head, lines, "\n"@);
        lemma_more_behind(head + lines + "\n"@, lines, table);
        lemma_more_behind(head + lines + "\n"@ + table, lines, last);
        lemma_around(head + lines + "\n"@, table, last);
        lemma_at_end(head + lines + "\n"@ + table, last);
        assert forall|i: int| 0 <= i < rows.len() implies holds_text(
            section,
            shadow_row_line(#[trigger] rows[i]),
        ) by {
            lemma_shadow_lines(rows, i);
            lemma_holds_inside(section, lines, shadow_row_line(rows[i]));
        }
        assert forall|i: int| 0 <= i < skipped.len() implies holds_text(
            section,
            skipped_row_line(#[trigger] skipped[i]),
        ) by {
            lemma_skipped_lines(skipped, i);
            let front = "### Skipped Shadow Crates\n\n| Upstream | Shadow Crate | Error |\n|----------|--------------|-------|\n"@;
            lemma_around(front, skipped_row_lines(skipped), "\n"@);
            lemma_holds_inside(last, skipped_row_lines(skipped), skipped_row_line(skipped[i]));
            lemma_holds_inside(section, last, skipped_row_line(skipped[i]));
        }
    }
}

/// A text in bold.
pub open spec fn as_bold(text: Seq<char>) -> Seq<char> {
    "**"@ + text + "**"@
}

proof fn lemma_bold(p: Seq<char>, x: Seq<char>)
    ensures
        p + "** | **"@ + x == p + "**"@ + " | "@ + "**"@ + x,
{
    reveal_strlit("** | **");
    reveal_strlit("**");
    reveal_strlit(" | ");
    assert("** | **"@ =~= "**"@ + " | "@ + "**"@);
    assert(p + "** | **"@ + x =~= p + "**"@ + " | "@ + "**"@ + x);
}

proof fn lemma_bold_step(head: Seq<char>, s: Seq<Seq<char>>, x: Seq<char>, p: Seq<char>)
    requires
        s.len() > 0,
        head + joined(s, " | "@) == p + "**"@,
    ensures
        head + joined(s.push(as_bold(x)), " | "@) == p + "** | **"@ + x + "**"@,
{
    lemma_joined_more(s, as_bold(x));
    lemma_bold(p, x);
    assert(head + joined(s.push(as_bold(x)), " | "@) =~= head + joined(s, " | "@) + " | "@
        + as_bold(x));
    assert(p + "**"@ + " | "@ + as_bold(x) =~= p + "**"@ + " | "@ + "**"@ + x + "**"@);
}

proof fn lemma_total_first(x: Seq<char>)
    ensures
        "| **Total** | | "@ + joined(seq![as_bold(x)], " | "@) == "| **Total** | | **"@ + x + "**"@,
{
    let none: Seq<Seq<char>> = seq![];
    lemma_joined_more(none, as_bold(x));
    assert(none.push(as_bold(x)) =~= seq![as_bold(x)]);
    reveal_strlit("| **Total** | | ");
    reveal_strlit("| **Total** | | **");
    reveal_strlit("**");
    assert("| **Total** | | **"@ =~= "| **Total** | | "@ + "**"@);
    assert("| **Total** | | "@ + as_bold(x) =~= "| **Total** | | "@ + "**"@ + x + "**"@);
}

proof fn lemma_total_last(p: Seq<char>, x: Seq<char>)
    ensures
        p + (x + "%"@) + "**"@ + " |\n"@ == p + x + "%** |\n"@,
{
    reveal_strlit("%** |\n");
    reveal_strlit("%");
    reveal_strlit("**");
    reveal_strlit(" |\n");
    assert("%** |\n"@ =~= "%"@ + "**"@ + " |\n"@);
    assert(p + (x + "%"@) + "**"@ + " |\n"@ =~= p + x + ("%"@ + "**"@ + " |\n"@));
}

/// The line of the totals has the sums in bold, under the columns of the crates' numbers.
pub proof fn law_impl_total_cells(v: ImplTotalsView)
    ensures
        impl_total_line(v) == "| **Total** | | "@ + joined(
            seq![
                as_bold(decimal(v.types as nat)),
                as_bold(decimal(v.our_traits_done as nat)),
                as_bold(decimal(v.missing_our_traits as nat)),
                as_bold(decimal(v.complete as nat)),
                as_bold(decimal(v.elicit_complete_gap as nat)),
                as_bold(decimal(v.externally_blocked as nat)),
                as_bold(v.coverage + "%"@),
            ],
            " | "@,
        ) + " |\n"@,
{
    let a = decimal(v.types as nat);
    let b = decimal(v.our_traits_done as nat);
    let c = decimal(v.missing_our_traits as nat);
    let d = decimal(v.complete as nat);
    let e = decimal(v.elicit_complete_gap as nat);
    let f = decimal(v.externally_blocked as nat);
    let g = v.coverage + "%"@;
    let head = "| **Total** | | "@;
    let s1 = seq![as_bold(a)];
    let s2 = s1.push(as_bold(b));
    let s3 = s2.push(as_bold(c));
    let s4 = s3.push(as_bold(d));
    let s5 = s4.push(as_bold(e));
    let s6 = s5.push(as_bold(f));
    let s7 = s6.push(as_bold(g));
    let p1 = "| **Total** | | **"@ + a;
    let p2 = p1 + "** | **"@ + b;
    let p3 = p2 + "** | **"@ + c;
    let p4 = p3 + "** | **"@ + d;
    let p5 = p4 + "** | **"@ + e;
    let p6 = p5 + "** | **"@ + f;
    lemma_total_first(a);
    lemma_bold_step(head, s1, b, p1);
    lemma_bold_step(head, s2, c, p2);
    lemma_bold_step(head, s3, d, p3);
    lemma_bold_step(head, s4, e, p4);
    lemma_bold_step(head, s5, f, p5);
    lemma_bold_step(head, s6, g, p6);
    lemma_total_last(p6 + "** | **"@, v.coverage);
    assert(s7 =~= seq![
        as_bold(a),
        as_bold(b),
        as_bold(c),
        as_bold(d),
        as_bold(e),
        as_bold(f),
        as_bold(g),
    ]);
}

}
