//! What a shadow report says of two inventories.

use vstd::prelude::*;

use crate::collect::{ElicitCompleteSet, TraitPrereqs};
use crate::inventory::{Inventory, ItemKind, ItemView};
use crate::laws::basics::{is_first_entry, is_key, law_count_is_of_members, law_first_entry_counts};
use crate::laws::basics::{law_missing_traits, lemma_filter_same, lists_traits, unless};
use crate::count::{count_if, lemma_count_append, lemma_count_permuted};
use crate::order::{law_sorted_members, law_sorted_permutes, sorted};
use crate::shadow::{drift_match, drift_of, edit_distance_of, exact_match, extra_rows, first_named};
use crate::shadow::{greatest, has_gap, has_status, is_counted, is_matched, is_shadow_report};
use crate::shadow::{law_drift_match, law_target_items_are_partitioned, matched_row, normalized};
use crate::shadow::{shadow_inputs, shadow_rows, target_row, target_rows, unmatched_row, utf8_len};
use crate::shadow::{ShadowInputs, ShadowReport, ShadowRow, ShadowRowView, ShadowStatus};
use crate::table::{keyed, value_of};
use crate::text::{joined, views};

verus! {

/// The shadow item counts and bears the name of the target item.
pub open spec fn same_name(s: ItemView, t: ItemView) -> bool {
    s.kind != ItemKind::Module && s.name == t.name
}

/// How many edits the names of two items are apart, as renames are told.
pub open spec fn apart(t: ItemView, s: ItemView) -> nat {
    edit_distance_of(normalized(t.name), normalized(s.name))
}

/// The length in bytes of the longer of the names of two items, as renames are told.
pub open spec fn longer(t: ItemView, s: ItemView) -> nat {
    if utf8_len(normalized(t.name)) < utf8_len(normalized(s.name)) {
        utf8_len(normalized(s.name))
    } else {
        utf8_len(normalized(t.name))
    }
}

/// The shadow item counts, is of the kind of the target item and at most two edits away.
pub open spec fn near_name(s: ItemView, t: ItemView) -> bool {
    s.kind != ItemKind::Module && s.kind == t.kind && apart(t, s) <= 2 && longer(t, s) > 0
}

/// Some counting item bears the name of the target item.
pub open spec fn is_named_in(items: Seq<ItemView>, t: ItemView) -> bool {
    exists|i: int| 0 <= i < items.len() && same_name(#[trigger] items[i], t)
}

/// Some counting item of the kind of the target item bears its name.
pub open spec fn is_named_of_kind_in(items: Seq<ItemView>, t: ItemView) -> bool {
    exists|i: int|
        0 <= i < items.len() && same_name(#[trigger] items[i], t) && items[i].kind == t.kind
}

/// Some counting item is a near miss of the target item.
pub open spec fn is_nearly_in(items: Seq<ItemView>, t: ItemView) -> bool {
    exists|i: int| 0 <= i < items.len() && near_name(#[trigger] items[i], t)
}

/// The row names the item of the list that covers the target item: of its name, of its kind if
/// any such is, and the first of these.
pub open spec fn is_cover(items: Seq<ItemView>, t: ItemView, i: int) -> bool {
    &&& 0 <= i < items.len()
    &&& same_name(items[i], t)
    &&& is_named_of_kind_in(items, t) ==> items[i].kind == t.kind
    &&& forall|j: int|
        0 <= j < i && same_name(#[trigger] items[j], t) ==> items[i].kind == t.kind
            && items[j].kind != t.kind
}

/// The item of the list is the best near miss of the target item: in proportion to the length of
/// the names none is closer and none before it is as close, and it is a near miss itself.
pub open spec fn is_best_near_miss(items: Seq<ItemView>, t: ItemView, i: int) -> bool {
    &&& 0 <= i < items.len()
    &&& near_name(items[i], t)
    &&& forall|j: int|
        0 <= j < items.len() && near_name(#[trigger] items[j], t) ==> apart(t, items[j]) * longer(
            t,
            items[i],
        ) >= apart(t, items[i]) * longer(t, items[j])
    &&& forall|j: int|
        0 <= j < i && near_name(#[trigger] items[j], t) ==> apart(t, items[j]) * longer(
            t,
            items[i],
        ) > apart(t, items[i]) * longer(t, items[j])
}

/// What a row tells of the traits of a matched shadow item.
pub open spec fn tells_traits(row: ShadowRowView, is_type: bool, p: TraitPrereqs) -> bool {
    if is_type {
        &&& row.shadow_can_be_direct == if p.serialize && p.deserialize && p.json_schema {
            "true"@
        } else {
            "false"@
        }
        &&& row.shadow_missing_external_traits == joined(
            unless(p.serialize, "Serialize(absent)"@) + unless(
                p.deserialize,
                "Deserialize(absent)"@,
            ) + unless(p.json_schema, "JsonSchema(absent)"@),
            ";"@,
        )
        &&& row.shadow_missing_our_traits == joined(
            unless(p.elicitation_trait, "Elicitation"@) + unless(
                p.elicit_introspect,
                "ElicitIntrospect"@,
            ) + unless(p.elicit_spec, "ElicitSpec"@) + unless(
                p.elicit_prompt_tree,
                "ElicitPromptTree"@,
            ) + unless(p.to_code_literal, "ToCodeLiteral"@),
            ";"@,
        )
    } else {
        &&& row.shadow_can_be_direct == ""@
        &&& row.shadow_missing_external_traits == ""@
        &&& row.shadow_missing_our_traits == ""@
    }
}

/// The row tells of the shadow item: its path, whether it is complete, and its traits. Only
/// structs, enums and type aliases are complete or have traits.
pub open spec fn tells_of(
    row: ShadowRowView,
    s: ItemView,
    complete: ElicitCompleteSet,
    prereqs: Seq<(String, TraitPrereqs)>,
) -> bool {
    let path = joined(s.path, "::"@);
    let is_type = s.kind == ItemKind::Struct || s.kind == ItemKind::Enum || s.kind
        == ItemKind::TypeAlias;
    &&& row.shadow_item == path
    &&& row.shadow_elicit_impl == if is_type && views(complete.factory@).contains(path) {
        "CompleteFactory"@
    } else if is_type && views(complete.concrete@).contains(path) {
        "Complete"@
    } else {
        "Missing"@
    }
    &&& exists|p: TraitPrereqs| #[trigger]
        lists_traits(keyed(prereqs), path, p) && tells_traits(row, is_type, p)
}

/// The row tells of no shadow item.
pub open spec fn tells_of_none(row: ShadowRowView) -> bool {
    &&& row.shadow_item == ""@
    &&& row.drift is None
    &&& row.shadow_elicit_impl == ""@
    &&& row.shadow_can_be_direct == ""@
    &&& row.shadow_missing_external_traits == ""@
    &&& row.shadow_missing_our_traits == ""@
}

/// The row is about the target item. It is covered exactly when a counting shadow item of
/// whatever kind bears its name, else drifted exactly when one of its kind is a near miss, else
/// missing.
pub open spec fn is_row_of(
    row: ShadowRowView,
    t: ItemView,
    shadow: Seq<ItemView>,
    complete: ElicitCompleteSet,
    prereqs: Seq<(String, TraitPrereqs)>,
) -> bool {
    &&& t.kind != ItemKind::Module
    &&& row.item_path == joined(t.path, "::"@)
    &&& row.item_kind == t.kind
    &&& row.status is Covered <==> is_named_in(shadow, t)
    &&& row.status is Drifted <==> !is_named_in(shadow, t) && is_nearly_in(shadow, t)
    &&& row.status is Missing <==> !is_named_in(shadow, t) && !is_nearly_in(shadow, t)
    &&& row.status is Covered ==> row.drift is None && row.notes == ""@ && exists|i: int| #[trigger]
        is_cover(shadow, t, i) && tells_of(row, shadow[i], complete, prereqs)
    &&& row.status is Drifted ==> row.notes == "probable rename"@ && exists|i: int| #[trigger]
        is_best_near_miss(shadow, t, i) && tells_of(row, shadow[i], complete, prereqs)
            && tells_drift(row, t, shadow[i])
    &&& row.status is Missing ==> row.notes == ""@ && tells_of_none(row)
}

/// The row tells how far the names are apart.
pub open spec fn tells_drift(row: ShadowRowView, t: ItemView, s: ItemView) -> bool {
    match row.drift {
        Some(d) => d.distance == apart(t, s) && (longer(t, s) <= u128::MAX ==> d.length == longer(
            t,
            s,
        )),
        None => false,
    }
}

/// Some row matches the shadow item at the path.
pub open spec fn matches_path(rows: Seq<ShadowRowView>, path: Seq<char>) -> bool {
    exists|i: int|
        0 <= i < rows.len() && (#[trigger] rows[i]).shadow_item == path && (rows[i].status is Covered
            || rows[i].status is Drifted)
}

/// The row is about a shadow item that no row of the report matches.
pub open spec fn is_extra_row_of(row: ShadowRowView, s: ItemView, rows: Seq<ShadowRowView>) -> bool {
    &&& s.kind != ItemKind::Module
    &&& row.status is Extra
    &&& row.item_path == joined(s.path, "::"@)
    &&& row.item_kind == s.kind
    &&& row.notes == "in shadow, not in target"@
    &&& tells_of_none(row)
    &&& !matches_path(rows, joined(s.path, "::"@))
}

proof fn lemma_first_named(s: Seq<ItemView>, t: ItemView, kind: Option<ItemKind>)
    ensures
        match first_named(s, t.name, kind) {
            Some(i) => 0 <= i < s.len() && same_name(s[i], t) && (kind is None || kind == Some(
                s[i].kind,
            )) && forall|j: int|
                0 <= j < i && same_name(#[trigger] s[j], t) ==> kind is Some && kind != Some(
                    s[j].kind,
                ),
            None => forall|j: int|
                0 <= j < s.len() && same_name(#[trigger] s[j], t) ==> kind is Some && kind != Some(
                    s[j].kind,
                ),
        },
    decreases s.len(),
{
    if s.len() > 0 {
        let f = s.drop_last();
        lemma_first_named(f, t, kind);
        assert(s[s.len() - 1] == s.last());
        assert forall|j: int| 0 <= j < f.len() implies f[j] == #[trigger] s[j] by {}
    }
}

proof fn lemma_exact(s: Seq<ItemView>, t: ItemView)
    ensures
        exact_match(s, t) is Some <==> is_named_in(s, t),
        exact_match(s, t) matches Some(i) ==> is_cover(s, t, i),
{
    lemma_first_named(s, t, Some(t.kind));
    lemma_first_named(s, t, None);
    match exact_match(s, t) {
        Some(i) => {
            assert(same_name(s[i], t));
            if is_named_of_kind_in(s, t) {
                let j = choose|j: int|
                    0 <= j < s.len() && same_name(#[trigger] s[j], t) && s[j].kind == t.kind;
                assert(first_named(s, t.name, Some(t.kind)) is Some);
            }
        },
        None => {},
    }
}

proof fn lemma_near(t: ItemView, s: ItemView)
    ensures
        near_name(s, t) <==> drift_of(t, s) is Some,
        drift_of(t, s) matches Some(d) ==> d.0 == apart(t, s) && d.1 == longer(t, s),
        near_name(s, t) <==> crate::shadow::is_drift_candidate(t, s),
{
}

proof fn lemma_nearer(a: int, b: int, c: int, d: int, e: int, f: int)
    requires
        b > 0,
        d > 0,
        f > 0,
        a * d >= c * b,
        e * d < c * f,
    ensures
        a * f > e * b,
{
    assert((a * d) * f >= (c * b) * f) by (nonlinear_arith)
        requires
            a * d >= c * b,
            f > 0,
    ;
    assert((e * d) * b < (c * f) * b) by (nonlinear_arith)
        requires
            e * d < c * f,
            b > 0,
    ;
    assert((a * f) * d == (a * d) * f) by (nonlinear_arith);
    assert((e * b) * d == (e * d) * b) by (nonlinear_arith);
    assert((c * b) * f == (c * f) * b) by (nonlinear_arith);
    assert(a * f > e * b) by (nonlinear_arith)
        requires
            (a * f) * d > (e * b) * d,
            d > 0,
    ;
}

proof fn lemma_first_best(s: Seq<ItemView>, t: ItemView)
    ensures
        drift_match(s, t) matches Some(m) ==> forall|j: int|
            0 <= j < m.0 && near_name(#[trigger] s[j], t) ==> apart(t, s[j]) * longer(t, s[m.0])
                > apart(t, s[m.0]) * longer(t, s[j]),
    decreases s.len(),
{
    if s.len() > 0 && drift_match(s, t) is Some {
        let front = s.drop_last();
        let m = drift_match(s, t)->0;
        lemma_first_best(front, t);
        law_drift_match(front, t);
        law_drift_match(s, t);
        assert forall|j: int| 0 <= j < m.0 && near_name(#[trigger] s[j], t) implies apart(t, s[j])
            * longer(t, s[m.0]) > apart(t, s[m.0]) * longer(t, s[j]) by {
            assert(front[j] == s[j]);
            lemma_near(t, s[j]);
            lemma_near(t, s[m.0]);
            assert(crate::shadow::is_drift_candidate(t, front[j]));
            let b = drift_match(front, t)->0;
            lemma_near(t, front[b.0]);
            if m.0 < front.len() {
                assert(front[m.0] == s[m.0]);
            } else {
                assert(!crate::shadow::closer(drift_of(t, front[j])->0, b.1));
                assert(crate::shadow::closer(m.1, b.1));
                lemma_nearer(
                    apart(t, s[j]) as int,
                    longer(t, s[j]) as int,
                    b.1.0 as int,
                    b.1.1 as int,
                    m.1.0 as int,
                    m.1.1 as int,
                );
            }
        }
    }
}

proof fn lemma_drift(s: Seq<ItemView>, t: ItemView)
    ensures
        drift_match(s, t) is Some <==> is_nearly_in(s, t),
        drift_match(s, t) matches Some(m) ==> is_best_near_miss(s, t, m.0) && m.1.0 == apart(
            t,
            s[m.0],
        ) && m.1.1 == longer(t, s[m.0]),
{
    law_drift_match(s, t);
    lemma_first_best(s, t);
    match drift_match(s, t) {
        Some(m) => {
            lemma_near(t, s[m.0]);
            assert(near_name(s[m.0], t));
            assert forall|j: int|
                0 <= j < s.len() && near_name(#[trigger] s[j], t) implies apart(t, s[j]) * longer(
                t,
                s[m.0],
            ) >= apart(t, s[m.0]) * longer(t, s[j]) by {
                lemma_near(t, s[j]);
                assert(crate::shadow::is_drift_candidate(t, s[j]));
                assert(!crate::shadow::closer(drift_of(t, s[j])->0, m.1));
            }
        },
        None => {
            assert forall|j: int| 0 <= j < s.len() implies !near_name(#[trigger] s[j], t) by {
                lemma_near(t, s[j]);
                assert(!crate::shadow::is_drift_candidate(t, s[j]));
            }
        },
    }
}

proof fn lemma_tells(
    c: ShadowInputs,
    t: ItemView,
    s: ItemView,
    drift: Option<crate::shadow::DriftScore>,
    complete: ElicitCompleteSet,
    prereqs: Seq<(String, TraitPrereqs)>,
)
    requires
        c.concrete == views(complete.concrete@),
        c.factory == views(complete.factory@),
        c.prereqs == keyed(prereqs),
    ensures
        tells_of(matched_row(c, t, s, drift), s, complete, prereqs),
{
    let row = matched_row(c, t, s, drift);
    let path = joined(s.path, "::"@);
    let p = crate::shadow::shadow_traits(c, s);
    law_first_entry_counts(c.prereqs, path);
    law_missing_traits(p);
    law_missing_traits(TraitPrereqs::none());
    if is_key(c.prereqs, path) {
        let i = choose|i: int| #[trigger] is_first_entry(c.prereqs, path, i);
        assert(is_first_entry(c.prereqs, path, i) && c.prereqs[i].1 == p);
    }
    assert(lists_traits(keyed(prereqs), path, p));
    assert(tells_traits(row, s.kind.denotes_type(), p));
}

proof fn lemma_row(
    c: ShadowInputs,
    t: ItemView,
    complete: ElicitCompleteSet,
    prereqs: Seq<(String, TraitPrereqs)>,
)
    requires
        t.kind != ItemKind::Module,
        c.concrete == views(complete.concrete@),
        c.factory == views(complete.factory@),
        c.prereqs == keyed(prereqs),
    ensures
        is_row_of(target_row(c, t), t, c.items, complete, prereqs),
{
    let row = target_row(c, t);
    lemma_exact(c.items, t);
    lemma_drift(c.items, t);
    match exact_match(c.items, t) {
        Some(i) => {
            lemma_tells(c, t, c.items[i], None, complete, prereqs);
            assert(is_cover(c.items, t, i));
        },
        None => match drift_match(c.items, t) {
            Some(m) => {
                lemma_tells(c, t, c.items[m.0], row.drift, complete, prereqs);
                assert(is_best_near_miss(c.items, t, m.0));
                assert(tells_drift(row, t, c.items[m.0]));
            },
            None => {},
        },
    }
}

proof fn lemma_target_rows_of(c: ShadowInputs, s: Seq<ItemView>)
    ensures
        forall|i: int|
            0 <= i < s.len() && (#[trigger] s[i]).kind != ItemKind::Module ==> target_rows(
                c,
                s,
            ).contains(target_row(c, s[i])),
        forall|j: int| 0 <= j < target_rows(c, s).len() ==> is_row_for(c, s, #[trigger] target_rows(c, s)[j]),
    decreases s.len(),
{
    if s.len() > 0 {
        let f = s.drop_last();
        let a = target_rows(c, f);
        let b = target_rows(c, s);
        lemma_target_rows_of(c, f);
        assert(s[s.len() - 1] == s.last());
        assert forall|i: int| 0 <= i < f.len() implies f[i] == #[trigger] s[i] by {}
        assert forall|i: int| 0 <= i < s.len() && (#[trigger] s[i]).kind != ItemKind::Module implies b.contains(
            target_row(c, s[i]),
        ) by {
            if i < f.len() {
                assert(a.contains(target_row(c, f[i])));
                let j = choose|j: int| 0 <= j < a.len() && a[j] == target_row(c, f[i]);
                assert(b[j] == a[j]);
            } else {
                assert(b[a.len() as int] == target_row(c, s[i]));
            }
        }
        assert forall|j: int| 0 <= j < b.len() implies is_row_for(c, s, #[trigger] b[j]) by {
            if j < a.len() {
                assert(is_row_for(c, f, a[j]));
                let i = choose|i: int|
                    0 <= i < f.len() && (#[trigger] f[i]).kind != ItemKind::Module && a[j]
                        == target_row(c, f[i]);
                assert(s[i] == f[i]);
            }
        }
    }
}

spec fn is_row_for(c: ShadowInputs, s: Seq<ItemView>, row: ShadowRowView) -> bool {
    exists|i: int|
        0 <= i < s.len() && (#[trigger] s[i]).kind != ItemKind::Module && row == target_row(c, s[i])
}

spec fn is_extra_for(rows: Seq<ShadowRowView>, s: Seq<ItemView>, row: ShadowRowView) -> bool {
    exists|i: int|
        0 <= i < s.len() && (#[trigger] s[i]).kind != ItemKind::Module && !is_matched(
            rows,
            joined(s[i].path, "::"@),
        ) && row == unmatched_row(s[i], ShadowStatus::Extra, "in shadow, not in target"@)
}

proof fn lemma_extra_rows_of(rows: Seq<ShadowRowView>, s: Seq<ItemView>)
    ensures
        forall|i: int|
            0 <= i < s.len() && (#[trigger] s[i]).kind != ItemKind::Module && !is_matched(
                rows,
                joined(s[i].path, "::"@),
            ) ==> extra_rows(rows, s).contains(
                unmatched_row(s[i], ShadowStatus::Extra, "in shadow, not in target"@),
            ),
        forall|j: int|
            0 <= j < extra_rows(rows, s).len() ==> is_extra_for(
                rows,
                s,
                #[trigger] extra_rows(rows, s)[j],
            ),
    decreases s.len(),
{
    if s.len() > 0 {
        let f = s.drop_last();
        let a = extra_rows(rows, f);
        let b = extra_rows(rows, s);
        lemma_extra_rows_of(rows, f);
        assert(s[s.len() - 1] == s.last());
        assert forall|i: int| 0 <= i < f.len() implies f[i] == #[trigger] s[i] by {}
        assert forall|i: int|
            0 <= i < s.len() && (#[trigger] s[i]).kind != ItemKind::Module && !is_matched(
                rows,
                joined(s[i].path, "::"@),
            ) implies b.contains(
            unmatched_row(s[i], ShadowStatus::Extra, "in shadow, not in target"@),
        ) by {
            let row = unmatched_row(s[i], ShadowStatus::Extra, "in shadow, not in target"@);
            if i < f.len() {
                assert(f[i] == s[i]);
                assert(a.contains(row));
                let j = choose|j: int| 0 <= j < a.len() && a[j] == row;
                assert(b[j] == a[j]);
            } else {
                assert(b[a.len() as int] == row);
            }
        }
        assert forall|j: int| 0 <= j < b.len() implies is_extra_for(rows, s, #[trigger] b[j]) by {
            if j < a.len() {
                assert(is_extra_for(rows, f, a[j]));
                let i = choose|i: int|
                    0 <= i < f.len() && (#[trigger] f[i]).kind != ItemKind::Module && !is_matched(
                        rows,
                        joined(f[i].path, "::"@),
                    ) && a[j] == unmatched_row(
                        f[i],
                        ShadowStatus::Extra,
                        "in shadow, not in target"@,
                    );
                assert(s[i] == f[i]);
            }
        }
    }
}

/// Every counting item of the target crate has a row. It is reported covered exactly when a
/// counting item of the shadow crate bears its bare name, of whatever kind; the row then names
/// such an item, one of the target's kind if any is. Otherwise a near miss of its kind makes it
/// drifted, and without one it is missing.
pub proof fn law_target_items_have_rows(
    r: ShadowReport,
    target: Inventory,
    shadow: Inventory,
    complete: ElicitCompleteSet,
    prereqs: Seq<(String, TraitPrereqs)>,
    i: int,
)
    requires
        is_shadow_report(r, target, shadow, shadow_inputs(shadow, complete, prereqs)),
        0 <= i < target.items@.len(),
        target.items@[i].kind != ItemKind::Module,
    ensures
        exists|j: int|
            0 <= j < r.rows@.len() && is_row_of(
                (#[trigger] r.rows@[j])@,
                target.items@[i]@,
                views(shadow.items@),
                complete,
                prereqs,
            ),
{
    let c = shadow_inputs(shadow, complete, prereqs);
    let t = views(target.items@);
    let first = target_rows(c, t);
    let all = shadow_rows(c, t);
    lemma_target_rows_of(c, t);
    assert(t[i] == target.items@[i]@);
    let row = target_row(c, t[i]);
    lemma_row(c, t[i], complete, prereqs);
    let k = choose|k: int| 0 <= k < first.len() && first[k] == row;
    assert(all[k] == row);
    assert(all.contains(row));
    law_sorted_members::<ShadowRow>(all, row);
    let rows = views(r.rows@);
    let j = choose|j: int| 0 <= j < rows.len() && rows[j] == row;
    assert(r.rows@[j]@ == row);
}

proof fn lemma_matched(rows: Seq<ShadowRowView>, extras: Seq<ShadowRowView>, all: Seq<ShadowRowView>, path: Seq<char>)
    requires
        forall|x: ShadowRowView| #[trigger] all.contains(x) <==> (rows + extras).contains(x),
        forall|j: int| 0 <= j < extras.len() ==> (#[trigger] extras[j]).status is Extra,
    ensures
        is_matched(rows, path) == matches_path(all, path),
{
    if is_matched(rows, path) {
        let i = choose|i: int|
            0 <= i < rows.len() && ((#[trigger] rows[i]).status is Covered || rows[i].status is Drifted)
                && rows[i].shadow_item == path;
        assert((rows + extras)[i] == rows[i]);
        assert((rows + extras).contains(rows[i]));
        assert(all.contains(rows[i]));
        let j = choose|j: int| 0 <= j < all.len() && all[j] == rows[i];
        assert(all[j].shadow_item == path);
    }
    if matches_path(all, path) {
        let i = choose|i: int|
            0 <= i < all.len() && (#[trigger] all[i]).shadow_item == path && (all[i].status is Covered
                || all[i].status is Drifted);
        assert(all.contains(all[i]));
        assert((rows + extras).contains(all[i]));
        let j = choose|j: int| 0 <= j < (rows + extras).len() && (rows + extras)[j] == all[i];
        if j < rows.len() {
            assert(rows[j] == all[i]);
        } else {
            assert(extras[j - rows.len()] == all[i]);
        }
    }
}

/// Every row of a report is about a counting item of the target crate, as the law on these says;
/// or it is an extra row about a counting item of the shadow crate that no row matches.
pub proof fn law_rows_are_about_items(
    r: ShadowReport,
    target: Inventory,
    shadow: Inventory,
    complete: ElicitCompleteSet,
    prereqs: Seq<(String, TraitPrereqs)>,
    j: int,
)
    requires
        is_shadow_report(r, target, shadow, shadow_inputs(shadow, complete, prereqs)),
        0 <= j < r.rows@.len(),
    ensures
        (exists|i: int|
            0 <= i < target.items@.len() && is_row_of(
                r.rows@[j]@,
                (#[trigger] target.items@[i])@,
                views(shadow.items@),
                complete,
                prereqs,
            )) || (exists|i: int|
            0 <= i < shadow.items@.len() && is_extra_row_of(
                r.rows@[j]@,
                (#[trigger] shadow.items@[i])@,
                views(r.rows@),
            )),
{
    let c = shadow_inputs(shadow, complete, prereqs);
    let t = views(target.items@);
    let s = views(shadow.items@);
    let first = target_rows(c, t);
    let extras = extra_rows(first, c.items);
    let all = shadow_rows(c, t);
    let rows = views(r.rows@);
    let row = rows[j];
    lemma_target_rows_of(c, t);
    lemma_extra_rows_of(first, s);
    assert forall|x: ShadowRowView| #[trigger] rows.contains(x) <==> (first + extras).contains(x) by {
        law_sorted_members::<ShadowRow>(all, x);
    }
    assert forall|n: int| 0 <= n < extras.len() implies (#[trigger] extras[n]).status is Extra by {
        assert(is_extra_for(first, s, extras[n]));
    }
    assert(rows.contains(row));
    let n = choose|n: int| 0 <= n < (first + extras).len() && (first + extras)[n] == row;
    if n < first.len() {
        assert(is_row_for(c, t, first[n]));
        let i = choose|i: int|
            0 <= i < t.len() && (#[trigger] t[i]).kind != ItemKind::Module && first[n] == target_row(
                c,
                t[i],
            );
        lemma_row(c, t[i], complete, prereqs);
        assert(t[i] == target.items@[i]@);
    } else {
        let e = extras[n - first.len()];
        assert(is_extra_for(first, s, e));
        let i = choose|i: int|
            0 <= i < s.len() && (#[trigger] s[i]).kind != ItemKind::Module && !is_matched(
                first,
                joined(s[i].path, "::"@),
            ) && e == unmatched_row(s[i], ShadowStatus::Extra, "in shadow, not in target"@);
        lemma_matched(first, extras, rows, joined(s[i].path, "::"@));
        assert(s[i] == shadow.items@[i]@);
    }
}

/// Every counting item of the shadow crate that no row matches has an extra row.
pub proof fn law_unmatched_shadow_items_are_extra(
    r: ShadowReport,
    target: Inventory,
    shadow: Inventory,
    complete: ElicitCompleteSet,
    prereqs: Seq<(String, TraitPrereqs)>,
    i: int,
)
    requires
        is_shadow_report(r, target, shadow, shadow_inputs(shadow, complete, prereqs)),
        0 <= i < shadow.items@.len(),
        shadow.items@[i].kind != ItemKind::Module,
        !matches_path(views(r.rows@), joined(shadow.items@[i]@.path, "::"@)),
    ensures
        exists|j: int|
            0 <= j < r.rows@.len() && is_extra_row_of(
                (#[trigger] r.rows@[j])@,
                shadow.items@[i]@,
                views(r.rows@),
            ),
{
    let c = shadow_inputs(shadow, complete, prereqs);
    let t = views(target.items@);
    let s = views(shadow.items@);
    let first = target_rows(c, t);
    let extras = extra_rows(first, c.items);
    let all = shadow_rows(c, t);
    let rows = views(r.rows@);
    lemma_extra_rows_of(first, s);
    assert forall|x: ShadowRowView| #[trigger] rows.contains(x) <==> (first + extras).contains(x) by {
        law_sorted_members::<ShadowRow>(all, x);
    }
    assert forall|n: int| 0 <= n < extras.len() implies (#[trigger] extras[n]).status is Extra by {
        assert(is_extra_for(first, s, extras[n]));
    }
    assert(s[i] == shadow.items@[i]@);
    lemma_matched(first, extras, rows, joined(s[i].path, "::"@));
    let row = unmatched_row(s[i], ShadowStatus::Extra, "in shadow, not in target"@);
    assert(extras.contains(row));
    let n = choose|n: int| 0 <= n < extras.len() && extras[n] == row;
    assert((first + extras)[first.len() + n] == row);
    assert(rows.contains(row));
    let j = choose|j: int| 0 <= j < rows.len() && rows[j] == row;
    assert(r.rows@[j]@ == row);
}


/// Counting items whose name some counting shadow item bears.
pub open spec fn named_among(shadow: Seq<ItemView>) -> spec_fn(ItemView) -> bool {
    |t: ItemView| t.kind != ItemKind::Module && is_named_in(shadow, t)
}

/// Counting items whose name no counting shadow item bears and that have a near miss.
pub open spec fn near_among(shadow: Seq<ItemView>) -> spec_fn(ItemView) -> bool {
    |t: ItemView| t.kind != ItemKind::Module && !is_named_in(shadow, t) && is_nearly_in(shadow, t)
}

/// Counting items without a shadow item of their name and without a near miss.
pub open spec fn absent_among(shadow: Seq<ItemView>) -> spec_fn(ItemView) -> bool {
    |t: ItemView| t.kind != ItemKind::Module && !is_named_in(shadow, t) && !is_nearly_in(shadow, t)
}

proof fn lemma_status_counts(c: ShadowInputs, s: Seq<ItemView>)
    ensures
        count_if(target_rows(c, s), has_status(ShadowStatus::Covered)) == count_if(
            s,
            named_among(c.items),
        ),
        count_if(target_rows(c, s), has_status(ShadowStatus::Drifted)) == count_if(
            s,
            near_among(c.items),
        ),
        count_if(target_rows(c, s), has_status(ShadowStatus::Missing)) == count_if(
            s,
            absent_among(c.items),
        ),
    decreases s.len(),
{
    if s.len() > 0 {
        let a = target_rows(c, s.drop_last());
        let row = target_row(c, s.last());
        lemma_status_counts(c, s.drop_last());
        lemma_exact(c.items, s.last());
        lemma_drift(c.items, s.last());
        assert(a.push(row).drop_last() =~= a);
    }
}

proof fn lemma_no_extra_counts(rows: Seq<ShadowRowView>)
    requires
        forall|j: int| 0 <= j < rows.len() ==> (#[trigger] rows[j]).status is Extra,
    ensures
        count_if(rows, has_status(ShadowStatus::Covered)) == 0,
        count_if(rows, has_status(ShadowStatus::Drifted)) == 0,
        count_if(rows, has_status(ShadowStatus::Missing)) == 0,
    decreases rows.len(),
{
    if rows.len() > 0 {
        let f = rows.drop_last();
        assert forall|j: int| 0 <= j < f.len() implies (#[trigger] f[j]).status is Extra by {
            assert(f[j] == rows[j]);
        }
        lemma_no_extra_counts(f);
        assert(rows[rows.len() - 1] == rows.last());
    }
}

/// The numbers of a report count items of the target crate: the covered ones bear the name of a
/// counting shadow item, the drifted ones only have a near miss, the missing ones have neither,
/// and the total is all that are not modules. Each counting item is one of the three. Extra rows
/// and verification gaps are counted row by row.
pub proof fn law_report_numbers(
    r: ShadowReport,
    target: Inventory,
    shadow: Inventory,
    complete: ElicitCompleteSet,
    prereqs: Seq<(String, TraitPrereqs)>,
)
    requires
        is_shadow_report(r, target, shadow, shadow_inputs(shadow, complete, prereqs)),
    ensures
        r.target_crate@ == target.crate_name@,
        r.target_version@ == target.crate_version@,
        r.shadow_crate@ == shadow.crate_name@,
        r.shadow_version@ == shadow.crate_version@,
        r.covered_count == views(target.items@).filter(
            |t: ItemView| t.kind != ItemKind::Module && is_named_in(views(shadow.items@), t),
        ).len(),
        r.drifted_count == views(target.items@).filter(
            |t: ItemView|
                t.kind != ItemKind::Module && !is_named_in(views(shadow.items@), t) && is_nearly_in(
                    views(shadow.items@),
                    t,
                ),
        ).len(),
        r.missing_count == views(target.items@).filter(
            |t: ItemView|
                t.kind != ItemKind::Module && !is_named_in(views(shadow.items@), t)
                    && !is_nearly_in(views(shadow.items@), t),
        ).len(),
        r.total_count == views(target.items@).filter(
            |t: ItemView| t.kind != ItemKind::Module,
        ).len(),
        r.covered_count + r.drifted_count + r.missing_count == r.total_count,
        r.extra_count == views(r.rows@).filter(|v: ShadowRowView| v.status is Extra).len(),
        r.rows@.len() == r.total_count + r.extra_count,
        r.verification_gap_count == views(r.rows@).filter(
            |v: ShadowRowView|
                (v.status is Covered || v.status is Drifted) && (v.item_kind == ItemKind::Struct
                    || v.item_kind == ItemKind::Enum || v.item_kind == ItemKind::TypeAlias)
                    && v.shadow_elicit_impl != "Complete"@ && v.shadow_elicit_impl
                    != "CompleteFactory"@,
        ).len(),
{
    let c = shadow_inputs(shadow, complete, prereqs);
    let t = views(target.items@);
    let s = views(shadow.items@);
    let rows = views(r.rows@);
    let first = target_rows(c, t);
    let extras = extra_rows(first, c.items);
    let all = shadow_rows(c, t);
    law_target_items_are_partitioned(c, t);
    law_sorted_permutes::<ShadowRow>(all);
    lemma_extra_rows_of(first, s);
    assert forall|n: int| 0 <= n < extras.len() implies (#[trigger] extras[n]).status is Extra by {
        assert(is_extra_for(first, s, extras[n]));
    }
    lemma_no_extra_counts(extras);
    lemma_status_counts(c, t);
    lemma_count_permuted(rows, all, has_status(ShadowStatus::Covered));
    lemma_count_permuted(rows, all, has_status(ShadowStatus::Drifted));
    lemma_count_permuted(rows, all, has_status(ShadowStatus::Missing));
    lemma_count_append(first, extras, has_status(ShadowStatus::Covered));
    lemma_count_append(first, extras, has_status(ShadowStatus::Drifted));
    lemma_count_append(first, extras, has_status(ShadowStatus::Missing));
    law_count_is_of_members(t, named_among(s));
    law_count_is_of_members(t, near_among(s));
    law_count_is_of_members(t, absent_among(s));
    law_count_is_of_members(t, is_counted());
    law_count_is_of_members(rows, has_status(ShadowStatus::Extra));
    law_count_is_of_members(rows, has_gap());
    lemma_filter_same(
        t,
        named_among(s),
        |t: ItemView| t.kind != ItemKind::Module && is_named_in(views(shadow.items@), t),
    );
    lemma_filter_same(
        t,
        near_among(s),
        |t: ItemView|
            t.kind != ItemKind::Module && !is_named_in(views(shadow.items@), t) && is_nearly_in(
                views(shadow.items@),
                t,
            ),
    );
    lemma_filter_same(
        t,
        absent_among(s),
        |t: ItemView|
            t.kind != ItemKind::Module && !is_named_in(views(shadow.items@), t) && !is_nearly_in(
                views(shadow.items@),
                t,
            ),
    );
    lemma_filter_same(t, is_counted(), |t: ItemView| t.kind != ItemKind::Module);
    lemma_filter_same(
        rows,
        has_status(ShadowStatus::Extra),
        |v: ShadowRowView| v.status is Extra,
    );
    lemma_filter_same(
        rows,
        has_gap(),
        |v: ShadowRowView|
            (v.status is Covered || v.status is Drifted) && (v.item_kind == ItemKind::Struct
                || v.item_kind == ItemKind::Enum || v.item_kind == ItemKind::TypeAlias)
                && v.shadow_elicit_impl != "Complete"@ && v.shadow_elicit_impl
                != "CompleteFactory"@,
    );
    lemma_statuses(rows);
}

proof fn lemma_statuses(rows: Seq<ShadowRowView>)
    ensures
        count_if(rows, has_status(ShadowStatus::Covered)) + count_if(
            rows,
            has_status(ShadowStatus::Drifted),
        ) + count_if(rows, has_status(ShadowStatus::Missing)) + count_if(
            rows,
            has_status(ShadowStatus::Extra),
        ) == rows.len(),
    decreases rows.len(),
{
    if rows.len() > 0 {
        lemma_statuses(rows.drop_last());
    }
}

}
