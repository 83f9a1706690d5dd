//! What an impl coverage report says of an inventory.

use vstd::prelude::*;

use crate::collect::{ElicitCompleteSet, TraitPrereqs};
use crate::collect::name_count;
use crate::count::{count_if, lemma_count_permuted};
use crate::harness::ProofHarness;
use crate::impl_coverage::{coverage_inputs, coverage_row, coverage_rows, instantiation_of};
use crate::impl_coverage::{is_complete_entry, is_flagged_concrete, is_missing_impl, is_missing_test};
use crate::impl_coverage::{is_ours_complete, is_report, CoverageInputs, ImplCoverageEntry};
use crate::impl_coverage::{ImplCoverageReport, ImplEntryView, ImplStatus, TestView};
use crate::inventory::{types_of, Inventory, ItemKind, ItemView};
use crate::laws::basics::{is_first_entry, is_key, law_count_is_of_members, law_first_entry_counts};
use crate::laws::basics::{law_missing_traits, lemma_filter_same, lists_traits, no_traits};
use crate::order::{law_sorted_members, law_sorted_permutes, sorted};
use crate::table::{keyed, value_of};
use crate::text::{ends, joined, starts, underscored, views};

verus! {

/// Structs, enums and type aliases are types.
pub open spec fn is_type(v: ItemView) -> bool {
    v.kind == ItemKind::Struct || v.kind == ItemKind::Enum || v.kind == ItemKind::TypeAlias
}

/// No other type of the list bears the name of the type.
pub open spec fn name_is_unique(items: Seq<ItemView>, name: Seq<char>) -> bool {
    items.filter(|v: ItemView| is_type(v) && v.name == name).len() == 1
}

/// The crate's root would re-export the type unambiguously: it stands in the crate and no other
/// type bears its name.
pub open spec fn has_root_alias(items: Seq<ItemView>, v: ItemView, root: Seq<char>) -> bool {
    v.path.len() > 0 && v.path[0] == root && name_is_unique(items, v.name)
}

/// The traits of a type are those that the table lists for its own path. Only where its own path
/// is not listed, they are those listed for its root alias, if it has one. Else it has none.
pub open spec fn has_traits(
    items: Seq<ItemView>,
    v: ItemView,
    root: Seq<char>,
    table: Seq<(Seq<char>, TraitPrereqs)>,
    p: TraitPrereqs,
) -> bool {
    let path = joined(v.path, "::"@);
    if is_key(table, path) {
        lists_traits(table, path, p)
    } else if has_root_alias(items, v, root) {
        lists_traits(table, root + "::"@ + v.name, p)
    } else {
        no_traits(p)
    }
}

/// The text is an instantiation of the type: its name, then arguments in angle brackets.
pub open spec fn is_instance(text: Seq<char>, name: Seq<char>) -> bool {
    exists|rest: Seq<char>| text == #[trigger] (name + "<"@ + rest)
}

/// The text ends with the name as the last segment of a path.
pub open spec fn is_path_to(text: Seq<char>, name: Seq<char>) -> bool {
    exists|rest: Seq<char>| text == #[trigger] (rest + ("::"@ + name))
}

/// The list has an instantiation of the type.
pub open spec fn has_instance(tested: Seq<Seq<char>>, name: Seq<char>) -> bool {
    exists|i: int| 0 <= i < tested.len() && is_instance(#[trigger] tested[i], name)
}

/// The text is the first of the list that is an instantiation of the type.
pub open spec fn is_first_instance(tested: Seq<Seq<char>>, name: Seq<char>, i: int) -> bool {
    &&& 0 <= i < tested.len()
    &&& is_instance(tested[i], name)
    &&& forall|j: int| 0 <= j < i ==> !is_instance(#[trigger] tested[j], name)
}

/// What the harness tests of a type. A type under its own name is covered. Of a type whose impl
/// is over parameters, an instantiation counts as such, and is noted. Else a path to the name
/// counts. Otherwise nothing is tested.
pub open spec fn shows_test(
    e: ImplEntryView,
    name: Seq<char>,
    tested: Seq<Seq<char>>,
) -> bool {
    let concrete = !tested.contains(name) && e.elicit_impl is CompleteFactory && has_instance(
        tested,
        name,
    );
    let qualified = exists|i: int| 0 <= i < tested.len() && is_path_to(#[trigger] tested[i], name);
    &&& e.proof_test is CoveredConcrete <==> concrete
    &&& e.proof_test is Covered <==> tested.contains(name) || (!concrete && qualified)
    &&& match e.proof_test {
        TestView::CoveredConcrete { instantiation } => exists|i: int| #[trigger]
            is_first_instance(tested, name, i) && instantiation == tested[i] && e.notes
                == "tested as "@ + tested[i],
        _ => e.notes == ""@,
    }
}

/// The row is about the type, with its path, kind and parameters. Whether it is complete is told
/// by its path, whether it is tested by its name.
pub open spec fn is_row_of(
    e: ImplEntryView,
    v: ItemView,
    items: Seq<ItemView>,
    root: Seq<char>,
    complete: ElicitCompleteSet,
    harness: ProofHarness,
    table: Seq<(Seq<char>, TraitPrereqs)>,
) -> bool {
    let path = joined(v.path, "::"@);
    &&& is_type(v)
    &&& e.type_path == path
    &&& e.type_kind == v.kind
    &&& e.is_generic == v.is_generic
    &&& e.lifetime_params == v.lifetime_params
    &&& e.type_params == v.type_params
    &&& e.elicit_impl is CompleteFactory <==> views(complete.factory@).contains(path)
    &&& e.elicit_impl is Complete <==> views(complete.concrete@).contains(path) && !views(
        complete.factory@,
    ).contains(path)
    &&& !(e.elicit_impl is Partial)
    &&& shows_test(e, v.name, views(harness.non_empty_types@))
    &&& e.composition_test is Covered <==> exists|i: int|
        0 <= i < harness.composition_pairs@.len() && ((
        #[trigger] views(harness.composition_pairs@)[i]).0 == v.name || is_instance(
            views(harness.composition_pairs@)[i].0,
            v.name,
        ))
    &&& !(e.composition_test is CoveredConcrete)
    &&& has_traits(items, v, root, table, e.prereqs)
}

proof fn lemma_types(s: Seq<ItemView>)
    ensures
        types_of(s) == s.filter(|v: ItemView| is_type(v)),
    decreases s.len(),
{
    reveal(Seq::filter);
    if s.len() > 0 {
        lemma_types(s.drop_last());
    }
}

proof fn lemma_name_count(s: Seq<ItemView>, name: Seq<char>)
    ensures
        name_count(types_of(s), name) == s.filter(|v: ItemView| is_type(v) && v.name == name).len(),
    decreases s.len(),
{
    reveal(Seq::filter);
    if s.len() > 0 {
        lemma_name_count(s.drop_last(), name);
        let a = types_of(s.drop_last());
        assert(a.push(s.last()).drop_last() =~= a);
    }
}

/// The root alias of a type is given exactly where it has one.
pub proof fn lemma_alias_is_unique(items: Seq<ItemView>, v: ItemView, root: Seq<char>)
    ensures
        crate::collect::root_alias(types_of(items), v, root) == if has_root_alias(items, v, root) {
            Some(root + "::"@ + v.name)
        } else {
            None
        },
{
    lemma_name_count(items, v.name);
}

proof fn lemma_instance(text: Seq<char>, name: Seq<char>)
    ensures
        crate::impl_coverage::instantiates(text, name) <==> is_instance(text, name),
        ends(text, "::"@ + name) <==> is_path_to(text, name),
{
    let open = name + "<"@;
    if starts(text, open) {
        assert(text =~= name + "<"@ + text.skip(open.len() as int));
    }
    if is_instance(text, name) {
        let rest = choose|rest: Seq<char>| text == #[trigger] (name + "<"@ + rest);
        assert(text.subrange(0, open.len() as int) =~= open);
    }
    let tail = "::"@ + name;
    if ends(text, tail) {
        assert(text =~= text.take(text.len() - tail.len()) + tail);
    }
    if is_path_to(text, name) {
        let rest = choose|rest: Seq<char>| text == #[trigger] (rest + ("::"@ + name));
        assert(text.subrange(text.len() - tail.len(), text.len() as int) =~= tail);
    }
}

proof fn lemma_first_instance(tested: Seq<Seq<char>>, name: Seq<char>)
    ensures
        match instantiation_of(tested, name) {
            Some(t) => exists|i: int| #[trigger] is_first_instance(tested, name, i) && tested[i] == t,
            None => !has_instance(tested, name),
        },
    decreases tested.len(),
{
    if tested.len() > 0 {
        let f = tested.drop_last();
        lemma_first_instance(f, name);
        lemma_instance(tested.last(), name);
        assert forall|j: int| 0 <= j < f.len() implies f[j] == #[trigger] tested[j] by {}
        match instantiation_of(f, name) {
            Some(t) => {
                let i = choose|i: int| #[trigger] is_first_instance(f, name, i) && f[i] == t;
                assert(is_first_instance(tested, name, i));
            },
            None => {
                if is_instance(tested.last(), name) {
                    assert forall|j: int| 0 <= j < tested.len() - 1 implies !is_instance(
                        #[trigger] tested[j],
                        name,
                    ) by {
                        assert(f[j] == tested[j]);
                        assert(!is_instance(f[j], name));
                    }
                    assert(is_first_instance(tested, name, tested.len() - 1));
                }
            },
        }
    }
}

proof fn lemma_traits(c: CoverageInputs, items: Seq<ItemView>, v: ItemView)
    requires
        c.types == types_of(items),
    ensures
        has_traits(items, v, c.root, c.prereqs, coverage_row(c, v).prereqs),
{
    let path = joined(v.path, "::"@);
    let alias = c.root + "::"@ + v.name;
    let p = coverage_row(c, v).prereqs;
    lemma_name_count(items, v.name);
    law_missing_traits(p);
    law_first_entry_counts(c.prereqs, path);
    law_first_entry_counts(c.prereqs, alias);
    if is_key(c.prereqs, path) {
        let i = choose|i: int| #[trigger] is_first_entry(c.prereqs, path, i);
        assert(c.prereqs[i].1 == p);
    } else if is_key(c.prereqs, alias) {
        let i = choose|i: int| #[trigger] is_first_entry(c.prereqs, alias, i);
        assert(has_root_alias(items, v, c.root) ==> c.prereqs[i].1 == p);
    }
}

proof fn lemma_row(
    source: Inventory,
    complete: ElicitCompleteSet,
    harness: ProofHarness,
    table: Seq<(Seq<char>, TraitPrereqs)>,
    v: ItemView,
)
    requires
        is_type(v),
    ensures
        is_row_of(
            coverage_row(coverage_inputs(source, complete, harness, table), v),
            v,
            views(source.items@),
            underscored(source.crate_name@),
            complete,
            harness,
            table,
        ),
{
    let c = coverage_inputs(source, complete, harness, table);
    let e = coverage_row(c, v);
    let tested = views(harness.non_empty_types@);
    let pairs = views(harness.composition_pairs@);
    lemma_traits(c, views(source.items@), v);
    lemma_first_instance(tested, v.name);
    assert forall|i: int| 0 <= i < tested.len() implies ends(#[trigger] tested[i], "::"@ + v.name)
        == is_path_to(tested[i], v.name) by {
        lemma_instance(tested[i], v.name);
    }
    match instantiation_of(tested, v.name) {
        Some(t) => {
            let i = choose|i: int| #[trigger]
                is_first_instance(tested, v.name, i) && tested[i] == t;
            assert(is_instance(tested[i], v.name));
        },
        None => {},
    }
    assert forall|i: int| 0 <= i < pairs.len() implies crate::impl_coverage::instantiates(
        (#[trigger] pairs[i]).0,
        v.name,
    ) == is_instance(pairs[i].0, v.name) by {
        lemma_instance(pairs[i].0, v.name);
    }
    assert(pairs.len() == harness.composition_pairs@.len());
}

/// The types of a list are those of its members that are types.
pub proof fn lemma_type_members(s: Seq<ItemView>)
    ensures
        forall|i: int|
            0 <= i < s.len() && is_type(#[trigger] s[i]) ==> types_of(s).contains(s[i]),
        forall|j: int|
            0 <= j < types_of(s).len() ==> is_type(#[trigger] types_of(s)[j]) && s.contains(
                types_of(s)[j],
            ),
    decreases s.len(),
{
    if s.len() > 0 {
        let f = s.drop_last();
        let a = types_of(f);
        let b = types_of(s);
        lemma_type_members(f);
        assert(s[s.len() - 1] == s.last());
        assert forall|i: int| 0 <= i < s.len() && is_type(#[trigger] s[i]) implies b.contains(s[i]) by {
            if i < f.len() {
                assert(f[i] == s[i]);
                let j = choose|j: int| 0 <= j < a.len() && a[j] == f[i];
                assert(b[j] == a[j]);
            } else {
                assert(b[a.len() as int] == s[i]);
            }
        }
        assert forall|j: int| 0 <= j < b.len() implies is_type(#[trigger] b[j]) && s.contains(b[j]) by {
            if j < a.len() {
                assert(a[j] == b[j]);
                let i = choose|i: int| 0 <= i < f.len() && f[i] == a[j];
                assert(s[i] == b[j]);
            }
        }
    }
}

/// Every type of the inventory has a row in the report. Its traits are those that the table lists
/// for its own path; the root alias is asked only where that is not listed.
pub proof fn law_types_have_rows(
    r: ImplCoverageReport,
    source: Inventory,
    complete: ElicitCompleteSet,
    harness: ProofHarness,
    table: Seq<(Seq<char>, TraitPrereqs)>,
    i: int,
)
    requires
        is_report(r, source, complete, harness, table),
        0 <= i < source.items@.len(),
        is_type(source.items@[i]@),
    ensures
        exists|j: int|
            0 <= j < r.entries@.len() && is_row_of(
                (#[trigger] r.entries@[j])@,
                source.items@[i]@,
                views(source.items@),
                underscored(source.crate_name@),
                complete,
                harness,
                table,
            ),
{
    let c = coverage_inputs(source, complete, harness, table);
    let items = views(source.items@);
    let rows = coverage_rows(c);
    let list = views(r.entries@);
    assert(items[i] == source.items@[i]@);
    lemma_type_members(items);
    lemma_row(source, complete, harness, table, items[i]);
    let n = choose|n: int| 0 <= n < c.types.len() && c.types[n] == items[i];
    assert(rows[n] == coverage_row(c, items[i]));
    assert(rows.contains(rows[n]));
    law_sorted_members::<ImplCoverageEntry>(rows, rows[n]);
    let j = choose|j: int| 0 <= j < list.len() && list[j] == rows[n];
    assert(r.entries@[j]@ == rows[n]);
}

/// Every row of the report is about a type of the inventory. Where the table of traits lists the
/// path of the row, the row has the listed traits.
pub proof fn law_rows_are_about_types(
    r: ImplCoverageReport,
    source: Inventory,
    complete: ElicitCompleteSet,
    harness: ProofHarness,
    table: Seq<(Seq<char>, TraitPrereqs)>,
    j: int,
)
    requires
        is_report(r, source, complete, harness, table),
        0 <= j < r.entries@.len(),
    ensures
        exists|i: int|
            0 <= i < source.items@.len() && is_row_of(
                r.entries@[j]@,
                (#[trigger] source.items@[i])@,
                views(source.items@),
                underscored(source.crate_name@),
                complete,
                harness,
                table,
            ),
        is_key(table, r.entries@[j].type_path@) ==> lists_traits(
            table,
            r.entries@[j].type_path@,
            r.entries@[j].prereqs,
        ),
{
    let c = coverage_inputs(source, complete, harness, table);
    let items = views(source.items@);
    let rows = coverage_rows(c);
    let list = views(r.entries@);
    lemma_type_members(items);
    law_sorted_members::<ImplCoverageEntry>(rows, list[j]);
    assert(list.contains(list[j]));
    let n = choose|n: int| 0 <= n < rows.len() && rows[n] == list[j];
    assert(rows[n] == coverage_row(c, c.types[n]));
    assert(is_type(c.types[n]));
    let i = choose|i: int| 0 <= i < items.len() && items[i] == c.types[n];
    lemma_row(source, complete, harness, table, items[i]);
    assert(source.items@[i]@ == items[i]);
}

/// The numbers of a report count its rows: one row for each type of the inventory, of which some
/// are complete and all others lack an impl.
pub proof fn law_report_numbers(
    r: ImplCoverageReport,
    source: Inventory,
    complete: ElicitCompleteSet,
    harness: ProofHarness,
    table: Seq<(Seq<char>, TraitPrereqs)>,
)
    requires
        is_report(r, source, complete, harness, table),
    ensures
        r.source_crate@ == source.crate_name@,
        r.source_version@ == source.crate_version@,
        r.entries@.len() == views(source.items@).filter(|v: ItemView| is_type(v)).len(),
        r.complete_count == views(r.entries@).filter(
            |e: ImplEntryView| e.elicit_impl is Complete || e.elicit_impl is CompleteFactory,
        ).len(),
        r.missing_impl_count == views(r.entries@).filter(
            |e: ImplEntryView| e.elicit_impl is Missing,
        ).len(),
        r.missing_test_count == views(r.entries@).filter(
            |e: ImplEntryView| e.proof_test is Missing,
        ).len(),
        r.flagged_concrete_count == views(r.entries@).filter(
            |e: ImplEntryView| e.proof_test is CoveredConcrete,
        ).len(),
        r.complete_count + r.missing_impl_count == r.entries@.len(),
{
    let c = coverage_inputs(source, complete, harness, table);
    let items = views(source.items@);
    let rows = coverage_rows(c);
    let list = views(r.entries@);
    lemma_types(items);
    law_sorted_permutes::<ImplCoverageEntry>(rows);
    crate::impl_coverage::law_report_partition(c);
    lemma_count_permuted(list, rows, is_complete_entry());
    lemma_count_permuted(list, rows, is_missing_impl());
    law_count_is_of_members(list, is_complete_entry());
    law_count_is_of_members(list, is_missing_impl());
    law_count_is_of_members(list, is_missing_test());
    law_count_is_of_members(list, is_flagged_concrete());
    lemma_filter_same(
        list,
        is_complete_entry(),
        |e: ImplEntryView| e.elicit_impl is Complete || e.elicit_impl is CompleteFactory,
    );
    lemma_filter_same(list, is_missing_impl(), |e: ImplEntryView| e.elicit_impl is Missing);
    lemma_filter_same(list, is_missing_test(), |e: ImplEntryView| e.proof_test is Missing);
    lemma_filter_same(list, is_flagged_concrete(), |e: ImplEntryView| e.proof_test is CoveredConcrete);
    assert(list.len() == r.entries@.len());
}

/// An entry has all of our traits that it could have: with lifetime parameters three of them,
/// else all five. A direct impl is legal without lifetimes and with the three external traits.
pub proof fn law_entry_traits(e: ImplEntryView)
    ensures
        e.lifetime_blocked() <==> e.lifetime_params.len() > 0,
        e.ours_complete() <==> e.prereqs.elicit_spec && e.prereqs.elicit_prompt_tree
            && e.prereqs.to_code_literal && (e.lifetime_params.len() > 0 || (
        e.prereqs.elicitation_trait && e.prereqs.elicit_introspect)),
        e.direct() <==> e.lifetime_params.len() == 0 && e.prereqs.serialize
            && e.prereqs.deserialize && e.prereqs.json_schema,
        is_ours_complete()(e) == e.ours_complete(),
{
    law_missing_traits(e.prereqs);
}

}
