//! What the table of wrappers and the trenchcoat report say of pairs of types.

use vstd::prelude::*;

use crate::collect::{listed_traits, ElicitCompleteSet, TraitPrereqs};
use crate::laws::basics::{is_first_entry, is_key, law_first_entry_counts, law_missing_traits};
use crate::laws::basics::{lists_traits, unless};
use crate::order::{law_sorted_members, law_sorted_permutes, sorted};
use crate::table::{keyed, value_of};
use crate::text::{joined, segments, views};
use crate::trenchcoat::{coverage_map, coverage_of, law_coverage_map, own_types, providers_of};
use crate::trenchcoat::{trenchcoat_row, trenchcoat_rows, TrenchcoatEntry, TrenchcoatView};
use crate::trenchcoat::{WrapperCoverage, WrapperView};

verus! {

/// What is known of a wrapper: it is complete exactly when an impl of either sort is listed for
/// it, and its traits are those listed for it.
pub open spec fn describes_wrapper(
    w: WrapperView,
    wrapper: Seq<char>,
    complete: ElicitCompleteSet,
    prereqs: Seq<(String, TraitPrereqs)>,
) -> bool {
    &&& w.wrapper_path == wrapper
    &&& w.wrapper_elicit_complete <==> views(complete.concrete@).contains(wrapper) || views(
        complete.factory@,
    ).contains(wrapper)
    &&& lists_traits(keyed(prereqs), wrapper, w.wrapper_prereqs)
}

/// The traits that are listed for a path.
pub proof fn lemma_listed_traits(table: Seq<(Seq<char>, TraitPrereqs)>, path: Seq<char>)
    ensures
        lists_traits(table, path, listed_traits(table, path)),
        forall|p: TraitPrereqs| #[trigger]
            lists_traits(table, path, p) ==> p == listed_traits(table, path),
{
    law_first_entry_counts(table, path);
    law_missing_traits(TraitPrereqs::none());
    if is_key(table, path) {
        let i = choose|i: int| #[trigger] is_first_entry(table, path, i);
        assert(table[i].1 == listed_traits(table, path));
    } else {
        assert forall|p: TraitPrereqs| #[trigger] lists_traits(table, path, p) implies p
            == listed_traits(table, path) by {
            law_missing_traits(p);
        }
    }
}

proof fn lemma_describes(
    wrapper: Seq<char>,
    complete: ElicitCompleteSet,
    prereqs: Seq<(String, TraitPrereqs)>,
)
    ensures
        describes_wrapper(
            coverage_of(own_types(complete, prereqs), wrapper),
            wrapper,
            complete,
            prereqs,
        ),
{
    lemma_listed_traits(keyed(prereqs), wrapper);
}

/// The entry tells of the wrapper of a pair of the foreign type.
pub open spec fn is_provider(
    w: WrapperView,
    pairs: Seq<(Seq<char>, Seq<char>)>,
    foreign: Seq<char>,
    complete: ElicitCompleteSet,
    prereqs: Seq<(String, TraitPrereqs)>,
) -> bool {
    exists|i: int|
        0 <= i < pairs.len() && (#[trigger] pairs[i]).0 == foreign && describes_wrapper(
            w,
            pairs[i].1,
            complete,
            prereqs,
        )
}

/// An entry of the list tells of the wrapper.
pub open spec fn has_provider(
    ws: Seq<WrapperView>,
    wrapper: Seq<char>,
    complete: ElicitCompleteSet,
    prereqs: Seq<(String, TraitPrereqs)>,
) -> bool {
    exists|n: int|
        0 <= n < ws.len() && describes_wrapper(#[trigger] ws[n], wrapper, complete, prereqs)
}

proof fn lemma_providers(
    complete: ElicitCompleteSet,
    prereqs: Seq<(String, TraitPrereqs)>,
    pairs: Seq<(Seq<char>, Seq<char>)>,
    foreign: Seq<char>,
)
    ensures
        ({
            let own = own_types(complete, prereqs);
            let ws = providers_of(own, pairs, foreign);
            &&& forall|n: int|
                0 <= n < ws.len() ==> is_provider(#[trigger] ws[n], pairs, foreign, complete, prereqs)
            &&& forall|i: int|
                0 <= i < pairs.len() && (#[trigger] pairs[i]).0 == foreign ==> ws.contains(
                    coverage_of(own, pairs[i].1),
                )
            &&& ws.len() == pairs.filter(|p: (Seq<char>, Seq<char>)| p.0 == foreign).len()
        }),
    decreases pairs.len(),
{
    reveal(Seq::filter);
    if pairs.len() > 0 {
        let own = own_types(complete, prereqs);
        let f = pairs.drop_last();
        let a = providers_of(own, f, foreign);
        let b = providers_of(own, pairs, foreign);
        lemma_providers(complete, prereqs, f, foreign);
        lemma_describes(pairs.last().1, complete, prereqs);
        assert(pairs[pairs.len() - 1] == pairs.last());
        assert forall|n: int| 0 <= n < b.len() implies is_provider(
            #[trigger] b[n],
            pairs,
            foreign,
            complete,
            prereqs,
        ) by {
            if n < a.len() {
                assert(is_provider(a[n], f, foreign, complete, prereqs));
                let i = choose|i: int|
                    0 <= i < f.len() && (#[trigger] f[i]).0 == foreign && describes_wrapper(
                        a[n],
                        f[i].1,
                        complete,
                        prereqs,
                    );
                assert(pairs[i] == f[i]);
            }
        }
        assert forall|i: int| 0 <= i < pairs.len() && (#[trigger] pairs[i]).0 == foreign implies b.contains(
            coverage_of(own, pairs[i].1),
        ) by {
            if i < f.len() {
                assert(f[i] == pairs[i]);
                let n = choose|n: int| 0 <= n < a.len() && a[n] == coverage_of(own, f[i].1);
                assert(b[n] == a[n]);
            } else {
                assert(b[a.len() as int] == coverage_of(own, pairs[i].1));
            }
        }
    }
}

/// The table has an entry for exactly the foreign types of the pairs. It lists for each type one
/// entry for every pair of it, which tells what is known of the wrapper of the pair.
pub proof fn law_wrapper_table(
    complete: ElicitCompleteSet,
    prereqs: Seq<(String, TraitPrereqs)>,
    pairs: Seq<(Seq<char>, Seq<char>)>,
    foreign: Seq<char>,
)
    ensures
        ({
            let found = value_of(coverage_map(own_types(complete, prereqs), pairs), foreign);
            &&& found is Some <==> exists|i: int| 0 <= i < pairs.len() && (#[trigger] pairs[i]).0 == foreign
            &&& found matches Some(ws) ==> {
                &&& ws.len() == pairs.filter(|p: (Seq<char>, Seq<char>)| p.0 == foreign).len()
                &&& forall|n: int|
                    0 <= n < ws.len() ==> is_provider(
                        #[trigger] ws[n],
                        pairs,
                        foreign,
                        complete,
                        prereqs,
                    )
                &&& forall|i: int|
                    0 <= i < pairs.len() && (#[trigger] pairs[i]).0 == foreign ==> has_provider(
                        ws,
                        pairs[i].1,
                        complete,
                        prereqs,
                    )
            }
        }),
{
    let own = own_types(complete, prereqs);
    let all = providers_of(own, pairs, foreign);
    let ws = sorted::<WrapperCoverage>(all);
    law_coverage_map(own, pairs, foreign);
    lemma_providers(complete, prereqs, pairs, foreign);
    law_sorted_permutes::<WrapperCoverage>(all);
    assert forall|n: int| 0 <= n < ws.len() implies is_provider(
        #[trigger] ws[n],
        pairs,
        foreign,
        complete,
        prereqs,
    ) by {
        law_sorted_members::<WrapperCoverage>(all, ws[n]);
        assert(ws.contains(ws[n]));
        let m = choose|m: int| 0 <= m < all.len() && all[m] == ws[n];
        assert(is_provider(all[m], pairs, foreign, complete, prereqs));
    }
    assert forall|i: int| 0 <= i < pairs.len() && (#[trigger] pairs[i]).0 == foreign implies has_provider(
        ws,
        pairs[i].1,
        complete,
        prereqs,
    ) by {
        let w = coverage_of(own, pairs[i].1);
        lemma_describes(pairs[i].1, complete, prereqs);
        assert(all.contains(w));
        law_sorted_members::<WrapperCoverage>(all, w);
        let n = choose|n: int| 0 <= n < ws.len() && ws[n] == w;
        assert(describes_wrapper(ws[n], pairs[i].1, complete, prereqs));
    }
}

/// Those of our traits that are not there, as a text.
pub open spec fn lacking_text(p: TraitPrereqs) -> Seq<char> {
    joined(
        unless(p.elicitation_trait, "Elicitation"@) + unless(
            p.elicit_introspect,
            "ElicitIntrospect"@,
        ) + unless(p.elicit_spec, "ElicitSpec"@) + unless(p.elicit_prompt_tree, "ElicitPromptTree"@)
            + unless(p.to_code_literal, "ToCodeLiteral"@),
        ";"@,
    )
}

/// The row is that of the pair: what its wrapper lacks is told by the table of wrappers, what the
/// foreign type lacks by the table of foreign types.
pub open spec fn is_row_of_pair(
    row: TrenchcoatView,
    pair: (Seq<char>, Seq<char>),
    complete: ElicitCompleteSet,
    prereqs: Seq<(String, TraitPrereqs)>,
    foreign_prereqs: Seq<(Seq<char>, TraitPrereqs)>,
) -> bool {
    &&& row.foreign_type == pair.0
    &&& row.foreign_crate == segments(pair.0)[0]
    &&& row.wrapper_path == pair.1
    &&& row.wrapper_elicit_complete <==> views(complete.concrete@).contains(pair.1) || views(
        complete.factory@,
    ).contains(pair.1)
    &&& exists|p: TraitPrereqs| #[trigger]
        lists_traits(keyed(prereqs), pair.1, p) && row.wrapper_missing_our_traits == lacking_text(p)
    &&& exists|p: TraitPrereqs| #[trigger]
        lists_traits(foreign_prereqs, pair.0, p) && row.foreign_missing_our_traits == lacking_text(p)
}

proof fn lemma_row_of_pair(
    pair: (Seq<char>, Seq<char>),
    complete: ElicitCompleteSet,
    prereqs: Seq<(String, TraitPrereqs)>,
    foreign_prereqs: Seq<(Seq<char>, TraitPrereqs)>,
)
    ensures
        is_row_of_pair(
            trenchcoat_row(own_types(complete, prereqs), foreign_prereqs, pair),
            pair,
            complete,
            prereqs,
            foreign_prereqs,
        ),
{
    let p = listed_traits(keyed(prereqs), pair.1);
    let q = listed_traits(foreign_prereqs, pair.0);
    lemma_listed_traits(keyed(prereqs), pair.1);
    lemma_listed_traits(foreign_prereqs, pair.0);
    law_missing_traits(p);
    law_missing_traits(q);
    assert(lists_traits(keyed(prereqs), pair.1, p));
    assert(lists_traits(foreign_prereqs, pair.0, q));
}

/// The report has a row for every pair, and every row is that of a pair.
pub proof fn law_report_rows_are_of_pairs(
    complete: ElicitCompleteSet,
    prereqs: Seq<(String, TraitPrereqs)>,
    foreign_prereqs: Seq<(Seq<char>, TraitPrereqs)>,
    pairs: Seq<(Seq<char>, Seq<char>)>,
)
    ensures
        ({
            let report = sorted::<TrenchcoatEntry>(
                trenchcoat_rows(own_types(complete, prereqs), foreign_prereqs, pairs),
            );
            &&& report.len() == pairs.len()
            &&& forall|i: int|
                0 <= i < pairs.len() ==> exists|j: int|
                    0 <= j < report.len() && is_row_of_pair(
                        #[trigger] report[j],
                        #[trigger] pairs[i],
                        complete,
                        prereqs,
                        foreign_prereqs,
                    )
            &&& forall|j: int|
                0 <= j < report.len() ==> exists|i: int|
                    0 <= i < pairs.len() && is_row_of_pair(
                        #[trigger] report[j],
                        #[trigger] pairs[i],
                        complete,
                        prereqs,
                        foreign_prereqs,
                    )
        }),
{
    let own = own_types(complete, prereqs);
    let rows = trenchcoat_rows(own, foreign_prereqs, pairs);
    let report = sorted::<TrenchcoatEntry>(rows);
    law_sorted_permutes::<TrenchcoatEntry>(rows);
    assert forall|i: int| 0 <= i < pairs.len() implies exists|j: int|
        0 <= j < report.len() && is_row_of_pair(
            #[trigger] report[j],
            #[trigger] pairs[i],
            complete,
            prereqs,
            foreign_prereqs,
        ) by {
        lemma_row_of_pair(pairs[i], complete, prereqs, foreign_prereqs);
        assert(rows.contains(rows[i]));
        law_sorted_members::<TrenchcoatEntry>(rows, rows[i]);
        let j = choose|j: int| 0 <= j < report.len() && report[j] == rows[i];
        assert(is_row_of_pair(report[j], pairs[i], complete, prereqs, foreign_prereqs));
    }
    assert forall|j: int| 0 <= j < report.len() implies exists|i: int|
        0 <= i < pairs.len() && is_row_of_pair(
            #[trigger] report[j],
            #[trigger] pairs[i],
            complete,
            prereqs,
            foreign_prereqs,
        ) by {
        assert(report.contains(report[j]));
        law_sorted_members::<TrenchcoatEntry>(rows, report[j]);
        let i = choose|i: int| 0 <= i < rows.len() && rows[i] == report[j];
        lemma_row_of_pair(pairs[i], complete, prereqs, foreign_prereqs);
        assert(is_row_of_pair(report[j], pairs[i], complete, prereqs, foreign_prereqs));
    }
}

}
