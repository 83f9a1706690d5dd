//! Shadow coverage: how much of a crate's public surface its shadow crate mirrors.

use vstd::prelude::*;
use vstd::string::*;

use crate::collect::{ElicitCompleteSet, TraitPrereqs};
use crate::count::{count_if, lemma_count_append, lemma_count_permuted};
use crate::distinct::{law_sorted_distinct, Identified};
use crate::impl_coverage::{determine_impl_status, status_at, ImplStatus};
use crate::inventory::{Inventory, Item, ItemKind, ItemView};
use crate::order::{key_lt, law_sorted_in_order, law_sorted_permutes, lemma_text_key, sort_ranked};
use crate::order::{sorted, text_key_before, Key, Ranked};
use crate::table::{find_value, keyed, value_of};
use crate::text::{bool_text, bool_word, char_is_upper, char_lower_first, chars_of, decimal};
use crate::text::{is_upper, join, join_strs, joined, lower_first, lowercase, push_decimal, str_eq};
use crate::text::{str_lowercase, text_lt, views};

verus! {

/// How an item relates to the other crate.
#[derive(Clone, Copy, Debug, PartialEq, Eq, Structural)]
pub enum ShadowStatus {
    /// In both crates under the same name.
    Covered,
    /// In the shadow crate only.
    Extra,
    /// In the target crate only.
    Missing,
    /// In both crates, under names that are much alike.
    Drifted,
}

impl ShadowStatus {
    /// The name of the kind.
    pub open spec fn name(self) -> Seq<char> {
        match self {
            ShadowStatus::Covered => "Covered"@,
            ShadowStatus::Extra => "Extra"@,
            ShadowStatus::Missing => "Missing"@,
            ShadowStatus::Drifted => "Drifted"@,
        }
    }

    /// The name of the kind, as reports print it.
    pub fn to_text(&self) -> (r: String)
        ensures
            r@ == self.name(),
    {
        match self {
            ShadowStatus::Covered => "Covered".to_string(),
            ShadowStatus::Extra => "Extra".to_string(),
            ShadowStatus::Missing => "Missing".to_string(),
            ShadowStatus::Drifted => "Drifted".to_string(),
        }
    }
}

/// How far two names are apart: the edit distance between them, and the length in bytes of the
/// longer one. The confidence of a match is one minus their quotient.
#[derive(Clone, Copy, Debug, PartialEq, Eq, Structural)]
pub struct DriftScore {
    pub distance: usize,
    pub length: u128,
}

/// One row of a shadow coverage report.
#[derive(Clone, Debug)]
pub struct ShadowRow {
    pub item_path: String,
    pub item_kind: ItemKind,
    pub status: ShadowStatus,
    /// The path of the matched shadow item.
    pub shadow_item: String,
    /// How far the names of a drifted match are apart.
    pub drift: Option<DriftScore>,
    /// The confidence of a drifted match, as reports print it.
    pub drift_confidence: String,
    /// Whether the matched shadow item is complete.
    pub shadow_elicit_impl: String,
    pub shadow_can_be_direct: String,
    pub shadow_missing_external_traits: String,
    pub shadow_missing_our_traits: String,
    pub notes: String,
}

/// The contents of a [`ShadowRow`].
#[verifier::ext_equal]
pub struct ShadowRowView {
    pub item_path: Seq<char>,
    pub item_kind: ItemKind,
    pub status: ShadowStatus,
    pub shadow_item: Seq<char>,
    pub drift: Option<DriftScore>,
    pub drift_confidence: Seq<char>,
    pub shadow_elicit_impl: Seq<char>,
    pub shadow_can_be_direct: Seq<char>,
    pub shadow_missing_external_traits: Seq<char>,
    pub shadow_missing_our_traits: Seq<char>,
    pub notes: Seq<char>,
}

impl View for ShadowRow {
    type V = ShadowRowView;

    open spec fn view(&self) -> ShadowRowView {
        ShadowRowView {
            item_path: self.item_path@,
            item_kind: self.item_kind,
            status: self.status,
            shadow_item: self.shadow_item@,
            drift: self.drift,
            drift_confidence: self.drift_confidence@,
            shadow_elicit_impl: self.shadow_elicit_impl@,
            shadow_can_be_direct: self.shadow_can_be_direct@,
            shadow_missing_external_traits: self.shadow_missing_external_traits@,
            shadow_missing_our_traits: self.shadow_missing_our_traits@,
            notes: self.notes@,
        }
    }
}

impl Ranked for ShadowRow {
    open spec fn key(v: ShadowRowView) -> Key {
        (0, seq![v.item_path])
    }

    fn before(&self, other: &Self) -> (r: bool) {
        text_key_before(self.item_path.as_str(), other.item_path.as_str())
    }
}

/// The shadow coverage of one crate.
#[derive(Clone, Debug)]
pub struct ShadowReport {
    pub target_crate: String,
    pub target_version: String,
    pub shadow_crate: String,
    pub shadow_version: String,
    pub rows: Vec<ShadowRow>,
    pub covered_count: usize,
    pub missing_count: usize,
    pub extra_count: usize,
    pub drifted_count: usize,
    /// The number of items that the shadow crate ought to cover.
    pub total_count: usize,
    pub verification_gap_count: usize,
}

impl ShadowReport {
    /// A line that sums the report up, with the coverage in percent as given.
    pub fn summary(&self, coverage: &str) -> (r: String)
        ensures
            r@ == self.target_crate@ + " vs "@ + self.shadow_crate@ + " ("@ + coverage@
                + "% covered: "@ + decimal(self.covered_count as nat) + " covered, "@ + decimal(
                self.missing_count as nat,
            ) + " missing, "@ + decimal(self.extra_count as nat) + " extra, "@ + decimal(
                self.drifted_count as nat,
            ) + " drifted)"@,
    {
        let mut out = self.target_crate.clone();
        out.append(" vs ");
        out.append(self.shadow_crate.as_str());
        out.append(" (");
        out.append(coverage);
        out.append("% covered: ");
        push_decimal(&mut out, self.covered_count as u128);
        out.append(" covered, ");
        push_decimal(&mut out, self.missing_count as u128);
        out.append(" missing, ");
        push_decimal(&mut out, self.extra_count as u128);
        out.append(" extra, ");
        push_decimal(&mut out, self.drifted_count as u128);
        out.append(" drifted)");
        out
    }
}

/// The smaller of two numbers.
pub open spec fn least(a: nat, b: nat) -> nat {
    if a <= b {
        a
    } else {
        b
    }
}

/// The edit distance between two texts: how many characters must at least be inserted, removed
/// or replaced to turn one into the other.
pub open spec fn edit_distance_of(a: Seq<char>, b: Seq<char>) -> nat
    decreases a.len() + b.len(),
{
    if a.len() == 0 {
        b.len()
    } else if b.len() == 0 {
        a.len()
    } else if a.last() == b.last() {
        edit_distance_of(a.drop_last(), b.drop_last())
    } else {
        1 + least(
            least(edit_distance_of(a.drop_last(), b), edit_distance_of(a, b.drop_last())),
            edit_distance_of(a.drop_last(), b.drop_last()),
        )
    }
}

/// The distance is at most the length of the longer text, and at least the difference of the
/// lengths.
pub proof fn law_edit_distance_bounds(a: Seq<char>, b: Seq<char>)
    ensures
        edit_distance_of(a, b) <= a.len() || edit_distance_of(a, b) <= b.len(),
        edit_distance_of(a, b) >= a.len() - b.len(),
        edit_distance_of(a, b) >= b.len() - a.len(),
    decreases a.len() + b.len(),
{
    if a.len() > 0 && b.len() > 0 {
        law_edit_distance_bounds(a.drop_last(), b.drop_last());
        if a.last() != b.last() {
            law_edit_distance_bounds(a.drop_last(), b);
            law_edit_distance_bounds(a, b.drop_last());
        }
    }
}

/// The distance is the same in both directions.
pub proof fn law_edit_distance_symmetric(a: Seq<char>, b: Seq<char>)
    ensures
        edit_distance_of(a, b) == edit_distance_of(b, a),
    decreases a.len() + b.len(),
{
    if a.len() > 0 && b.len() > 0 {
        law_edit_distance_symmetric(a.drop_last(), b.drop_last());
        if a.last() != b.last() {
            law_edit_distance_symmetric(a.drop_last(), b);
            law_edit_distance_symmetric(a, b.drop_last());
        }
    }
}

/// Exactly equal texts are at distance zero.
pub proof fn law_edit_distance_zero(a: Seq<char>, b: Seq<char>)
    ensures
        edit_distance_of(a, b) == 0 <==> a == b,
    decreases a.len() + b.len(),
{
    if a.len() == 0 || b.len() == 0 {
        if edit_distance_of(a, b) == 0 {
            assert(a =~= b);
        }
    } else {
        law_edit_distance_zero(a.drop_last(), b.drop_last());
        if a.last() == b.last() && a.drop_last() == b.drop_last() {
            assert(a =~= a.drop_last().push(a.last()));
            assert(b =~= b.drop_last().push(b.last()));
        }
    }
}

/// The length of a character in UTF-8.
pub open spec fn utf8_width(c: char) -> nat {
    if (c as u32) < 0x80 {
        1
    } else if (c as u32) < 0x800 {
        2
    } else if (c as u32) < 0x10000 {
        3
    } else {
        4
    }
}

/// The length of a text in UTF-8.
pub open spec fn utf8_len(s: Seq<char>) -> nat
    decreases s.len(),
{
    if s.len() == 0 {
        0
    } else {
        utf8_len(s.drop_last()) + utf8_width(s.last())
    }
}

/// A character: whether it is a capital, and what it is in lower case.
pub open spec fn letter(c: char) -> (bool, char) {
    (
        is_upper(c),
        match lower_first(c) {
            Some(l) => l,
            None => c,
        },
    )
}

/// Letters with underscores before the inner capitals, in lower case.
pub open spec fn spaced(letters: Seq<(bool, char)>) -> Seq<char>
    decreases letters.len(),
{
    if letters.len() == 0 {
        seq![]
    } else {
        let rest = spaced(letters.drop_last());
        if letters.last().0 && letters.len() > 1 {
            rest.push('_').push(letters.last().1)
        } else {
            rest.push(letters.last().1)
        }
    }
}

/// A name in Pascal case with underscores before its inner capitals, and in lower case.
pub open spec fn snake(s: Seq<char>) -> Seq<char> {
    spaced(s.map_values(|c: char| letter(c)))
}

/// A name as drift detection compares it.
pub open spec fn normalized(name: Seq<char>) -> Seq<char> {
    lowercase(snake(name))
}

/// The larger of two numbers.
pub open spec fn greatest(a: nat, b: nat) -> nat {
    if a >= b {
        a
    } else {
        b
    }
}

/// The item counts toward shadow coverage: it is not a module.
pub open spec fn counts(v: ItemView) -> bool {
    !(v.kind is Module)
}

/// The first counting item of a name, and of a kind if one is given.
pub open spec fn first_named(s: Seq<ItemView>, name: Seq<char>, kind: Option<ItemKind>) -> Option<int>
    decreases s.len(),
{
    if s.len() == 0 {
        None
    } else {
        match first_named(s.drop_last(), name, kind) {
            Some(i) => Some(i),
            None => if counts(s.last()) && s.last().name == name && (kind is None || kind == Some(
                s.last().kind,
            )) {
                Some(s.len() - 1)
            } else {
                None
            },
        }
    }
}

/// The item that covers a target item: of the same name, preferably of the same kind.
pub open spec fn exact_match(s: Seq<ItemView>, target: ItemView) -> Option<int> {
    match first_named(s, target.name, Some(target.kind)) {
        Some(i) => Some(i),
        None => first_named(s, target.name, None),
    }
}

/// How far two normalized names are apart, if that is little enough for a rename: at most two
/// edits.
pub open spec fn name_drift(a: Seq<char>, b: Seq<char>) -> Option<(nat, nat)> {
    let distance = edit_distance_of(a, b);
    let length = greatest(utf8_len(a), utf8_len(b));
    if length > 0 && distance <= 2 {
        Some((distance, length))
    } else {
        None
    }
}

/// How far the name of a shadow item is from that of a target item, if both are of a kind and
/// that is little enough for a rename.
pub open spec fn drift_of(target: ItemView, candidate: ItemView) -> Option<(nat, nat)> {
    if counts(candidate) && candidate.kind == target.kind {
        name_drift(normalized(target.name), normalized(candidate.name))
    } else {
        None
    }
}

/// One score is a better match than another.
pub open spec fn closer(a: (nat, nat), b: (nat, nat)) -> bool {
    a.0 * b.1 < b.0 * a.1
}

/// The best drifted match among the items: the first with the highest confidence.
pub open spec fn drift_match(s: Seq<ItemView>, target: ItemView) -> Option<(int, (nat, nat))>
    decreases s.len(),
{
    if s.len() == 0 {
        None
    } else {
        let best = drift_match(s.drop_last(), target);
        match drift_of(target, s.last()) {
            None => best,
            Some(score) => match best {
                None => Some((s.len() - 1, score)),
                Some(b) => if closer(score, b.1) {
                    Some((s.len() - 1, score))
                } else {
                    best
                },
            },
        }
    }
}

/// A target item has a drifted match exactly where some counting item of its kind is within two
/// edits of its name, and no such item is closer than the match.
pub proof fn law_drift_match(s: Seq<ItemView>, target: ItemView)
    ensures
        drift_match(s, target) is Some <==> exists|i: int|
            0 <= i < s.len() && is_drift_candidate(target, #[trigger] s[i]),
        match drift_match(s, target) {
            Some(m) => 0 <= m.0 < s.len() && is_drift_candidate(target, s[m.0]) && drift_of(
                target,
                s[m.0],
            ) == Some(m.1) && forall|i: int|
                0 <= i < s.len() && is_drift_candidate(target, #[trigger] s[i]) ==> !closer(
                    drift_of(target, s[i])->0,
                    m.1,
                ),
            None => true,
        },
    decreases s.len(),
{
    if s.len() > 0 {
        let front = s.drop_last();
        law_drift_match(front, target);
        let old_match = drift_match(front, target);
        assert(s[s.len() - 1] == s.last());
        if old_match is Some {
            assert(s[(old_match->0).0] == front[(old_match->0).0]);
        }
        assert forall|i: int| 0 <= i < front.len() implies front[i] == #[trigger] s[i] by {}
        if drift_match(s, target) is Some {
            let m = drift_match(s, target)->0;
            assert forall|i: int|
                0 <= i < s.len() && is_drift_candidate(target, #[trigger] s[i]) implies !closer(
                drift_of(target, s[i])->0,
                m.1,
            ) by {
                let o = drift_of(target, s[i])->0;
                if i < front.len() {
                    assert(is_drift_candidate(target, front[i]));
                    let b = (old_match->0).1;
                    if closer(m.1, b) {
                        lemma_closer_chain(o, b, m.1);
                    }
                }
            }
        }
    }
}

/// The item could be a rename of the target: it counts, is of its kind, and its name is within
/// two edits.
pub open spec fn is_drift_candidate(target: ItemView, v: ItemView) -> bool {
    let a = normalized(target.name);
    let b = normalized(v.name);
    counts(v) && v.kind == target.kind && edit_distance_of(a, b) <= 2 && greatest(
        utf8_len(a),
        utf8_len(b),
    ) > 0
}

proof fn lemma_closer_chain(o: (nat, nat), b: (nat, nat), n: (nat, nat))
    requires
        o.1 > 0,
        b.1 > 0,
        n.1 > 0,
        !closer(o, b),
        closer(n, b),
    ensures
        !closer(o, n),
{
    let (o0, o1) = o;
    let (b0, b1) = b;
    let (n0, n1) = n;
    assert(n0 * o1 <= o0 * n1) by (nonlinear_arith)
        requires
            b0 * o1 <= o0 * b1,
            n0 * b1 < b0 * n1,
            o1 > 0,
            b1 > 0,
            n1 > 0,
    {
        assert((n0 * b1) * o1 <= (b0 * n1) * o1);
        assert((b0 * n1) * o1 == (b0 * o1) * n1);
        assert((b0 * o1) * n1 <= (o0 * b1) * n1);
        assert((n0 * o1) * b1 <= (o0 * n1) * b1);
    }
}

/// What is known of the shadow crate.
#[verifier::ext_equal]
pub struct ShadowInputs {
    pub items: Seq<ItemView>,
    pub concrete: Seq<Seq<char>>,
    pub factory: Seq<Seq<char>>,
    pub prereqs: Seq<(Seq<char>, TraitPrereqs)>,
}

/// What is known of the shadow crate, as the function takes it.
pub open spec fn shadow_inputs(
    shadow: Inventory,
    complete: ElicitCompleteSet,
    prereqs: Seq<(String, TraitPrereqs)>,
) -> ShadowInputs {
    ShadowInputs {
        items: views(shadow.items@),
        concrete: views(complete.concrete@),
        factory: views(complete.factory@),
        prereqs: keyed(prereqs),
    }
}

/// Whether a shadow item is complete. Items that are not types never are.
pub open spec fn shadow_status(c: ShadowInputs, v: ItemView) -> ImplStatus {
    if v.kind.denotes_type() {
        status_at(c.concrete, c.factory, v.path_text())
    } else {
        ImplStatus::Missing
    }
}

/// The traits of a shadow item; a type that is not listed has none.
pub open spec fn shadow_traits(c: ShadowInputs, v: ItemView) -> TraitPrereqs {
    match value_of(c.prereqs, v.path_text()) {
        Some(p) => p,
        None => TraitPrereqs::none(),
    }
}

/// A text for types; items that are not types have none.
pub open spec fn for_types(v: ItemView, text: Seq<char>) -> Seq<char> {
    if v.kind.denotes_type() {
        text
    } else {
        ""@
    }
}

/// The row for a target item that matches a shadow item.
pub open spec fn matched_row(
    c: ShadowInputs,
    target: ItemView,
    v: ItemView,
    drift: Option<DriftScore>,
) -> ShadowRowView {
    let traits = shadow_traits(c, v);
    ShadowRowView {
        item_path: target.path_text(),
        item_kind: target.kind,
        status: if drift is Some {
            ShadowStatus::Drifted
        } else {
            ShadowStatus::Covered
        },
        shadow_item: v.path_text(),
        drift,
        drift_confidence: ""@,
        shadow_elicit_impl: shadow_status(c, v).name(),
        shadow_can_be_direct: for_types(v, bool_text(traits.direct())),
        shadow_missing_external_traits: for_types(v, joined(traits.external_absent(), ";"@)),
        shadow_missing_our_traits: for_types(v, joined(traits.our_missing(false), ";"@)),
        notes: if drift is Some {
            "probable rename"@
        } else {
            ""@
        },
    }
}

/// The row for an item without a counterpart.
pub open spec fn unmatched_row(v: ItemView, status: ShadowStatus, notes: Seq<char>) -> ShadowRowView {
    ShadowRowView {
        item_path: v.path_text(),
        item_kind: v.kind,
        status,
        shadow_item: ""@,
        drift: None,
        drift_confidence: ""@,
        shadow_elicit_impl: ""@,
        shadow_can_be_direct: ""@,
        shadow_missing_external_traits: ""@,
        shadow_missing_our_traits: ""@,
        notes,
    }
}

/// The row for a target item.
pub open spec fn target_row(c: ShadowInputs, target: ItemView) -> ShadowRowView {
    match exact_match(c.items, target) {
        Some(i) => matched_row(c, target, c.items[i], None),
        None => match drift_match(c.items, target) {
            Some(m) => matched_row(
                c,
                target,
                c.items[m.0],
                Some(DriftScore { distance: m.1.0 as usize, length: m.1.1 as u128 }),
            ),
            None => unmatched_row(target, ShadowStatus::Missing, ""@),
        },
    }
}

/// The rows for the counting items of the target crate.
pub open spec fn target_rows(c: ShadowInputs, s: Seq<ItemView>) -> Seq<ShadowRowView>
    decreases s.len(),
{
    if s.len() == 0 {
        seq![]
    } else {
        let rest = target_rows(c, s.drop_last());
        if counts(s.last()) {
            rest.push(target_row(c, s.last()))
        } else {
            rest
        }
    }
}

/// A row of the list matches a shadow item at the path.
pub open spec fn is_matched(rows: Seq<ShadowRowView>, path: Seq<char>) -> bool {
    exists|i: int|
        0 <= i < rows.len() && ((#[trigger] rows[i]).status is Covered || rows[i].status is Drifted)
            && rows[i].shadow_item == path
}

/// The rows for the counting items of the shadow crate that no row matches.
pub open spec fn extra_rows(rows: Seq<ShadowRowView>, s: Seq<ItemView>) -> Seq<ShadowRowView>
    decreases s.len(),
{
    if s.len() == 0 {
        seq![]
    } else {
        let rest = extra_rows(rows, s.drop_last());
        if counts(s.last()) && !is_matched(rows, s.last().path_text()) {
            rest.push(unmatched_row(s.last(), ShadowStatus::Extra, "in shadow, not in target"@))
        } else {
            rest
        }
    }
}

/// All rows of a report, before they are sorted.
pub open spec fn shadow_rows(c: ShadowInputs, target: Seq<ItemView>) -> Seq<ShadowRowView> {
    let rows = target_rows(c, target);
    rows + extra_rows(rows, c.items)
}

/// The row shows a matched type whose shadow is not complete.
pub open spec fn verification_gap(v: ShadowRowView) -> bool {
    (v.status is Covered || v.status is Drifted) && v.item_kind.denotes_type()
        && v.shadow_elicit_impl != "Complete"@ && v.shadow_elicit_impl != "CompleteFactory"@
}

/// Items that count toward shadow coverage.
pub open spec fn is_counted() -> spec_fn(ItemView) -> bool {
    |v: ItemView| counts(v)
}

/// Rows of a status.
pub open spec fn has_status(status: ShadowStatus) -> spec_fn(ShadowRowView) -> bool {
    |v: ShadowRowView| v.status == status
}

/// Rows that show a verification gap.
pub open spec fn has_gap() -> spec_fn(ShadowRowView) -> bool {
    |v: ShadowRowView| verification_gap(v)
}

/// The edit distance between two texts.
pub fn edit_distance(a: &str, b: &str) -> (r: usize)
    ensures
        r == edit_distance_of(a@, b@),
{
    let x = chars_of(a);
    let y = chars_of(b);
    let mut row: Vec<usize> = Vec::new();
    let mut j: usize = 0;
    while j < y.len()
        invariant
            j <= y.len(),
            row.len() == j,
            forall|k: int|
                0 <= k < j ==> row@[k] == edit_distance_of(x@.take(0), #[trigger] y@.take(k)),
        decreases y.len() - j,
    {
        row.push(j);
        assert(edit_distance_of(x@.take(0), y@.take(j as int)) == j);
        j += 1;
    }
    row.push(j);
    assert(edit_distance_of(x@.take(0), y@.take(j as int)) == j);
    let mut i: usize = 0;
    while i < x.len()
        invariant
            i <= x.len(),
            row.len() == y.len() + 1,
            forall|k: int|
                0 <= k <= y.len() ==> row@[k] == edit_distance_of(
                    x@.take(i as int),
                    #[trigger] y@.take(k),
                ),
        decreases x.len() - i,
    {
        let mut next: Vec<usize> = Vec::new();
        next.push(i + 1);
        assert(edit_distance_of(x@.take(i + 1), y@.take(0)) == i + 1);
        let mut k: usize = 0;
        while k < y.len()
            invariant
                i < x.len(),
                k <= y.len(),
                next.len() == k + 1,
                row.len() == y.len() + 1,
                forall|m: int|
                    0 <= m <= y.len() ==> row@[m] == edit_distance_of(
                        x@.take(i as int),
                        #[trigger] y@.take(m),
                    ),
                forall|m: int|
                    0 <= m <= k ==> next@[m] == edit_distance_of(
                        x@.take(i + 1),
                        #[trigger] y@.take(m),
                    ),
            decreases y.len() - k,
        {
            let ghost p = x@.take(i + 1);
            let ghost q = y@.take(k + 1);
            proof {
                assert(p.drop_last() =~= x@.take(i as int));
                assert(q.drop_last() =~= y@.take(k as int));
                assert(p.last() == x@[i as int]);
                assert(q.last() == y@[k as int]);
                law_edit_distance_bounds(p, q);
                assert(row@[k as int] == edit_distance_of(x@.take(i as int), y@.take(k as int)));
                assert(row@[k + 1] == edit_distance_of(x@.take(i as int), y@.take(k + 1)));
                assert(next@[k as int] == edit_distance_of(x@.take(i + 1), y@.take(k as int)));
            }
            let cell: usize = if x[i] == y[k] {
                row[k]
            } else {
                let mut low: usize = row[k + 1];
                if next[k] < low {
                    low = next[k];
                }
                if row[k] < low {
                    low = row[k];
                }
                low + 1
            };
            assert(cell == edit_distance_of(p, q));
            next.push(cell);
            k += 1;
        }
        row = next;
        i += 1;
    }
    proof {
        assert(x@.take(i as int) =~= x@);
        assert(y@.take(y.len() as int) =~= y@);
    }
    row[y.len()]
}

/// The length of a text in UTF-8.
fn byte_len(s: &str) -> (r: u128)
    ensures
        r == utf8_len(s@),
        r <= 4 * usize::MAX,
{
    let cs = chars_of(s);
    let mut n: u128 = 0;
    let mut i: usize = 0;
    while i < cs.len()
        invariant
            i <= cs.len(),
            cs@ == s@,
            n <= 4 * i,
            n == utf8_len(cs@.take(i as int)),
        decreases cs.len() - i,
    {
        proof {
            assert(cs@.take(i + 1).drop_last() =~= cs@.take(i as int));
            assert(cs@.take(i + 1).last() == cs@[i as int]);
        }
        let code: u32 = cs[i] as u32;
        let width: u128 = if code < 0x80 {
            1
        } else if code < 0x800 {
            2
        } else if code < 0x10000 {
            3
        } else {
            4
        };
        n = n + width;
        i += 1;
    }
    proof {
        assert(cs@.take(i as int) =~= cs@);
    }
    n
}

/// Letters with underscores before the inner capitals. Each letter is given by whether it is a
/// capital, and by what it is in lower case.
pub fn space_letters(letters: &Vec<(bool, char)>) -> (r: String)
    ensures
        r@ == spaced(letters@),
{
    let mut out = String::new();
    let mut i: usize = 0;
    while i < letters.len()
        invariant
            i <= letters.len(),
            out@ == spaced(letters@.take(i as int)),
        decreases letters.len() - i,
    {
        proof {
            assert(letters@.take(i + 1).drop_last() =~= letters@.take(i as int));
            assert(letters@.take(i + 1).last() == letters@[i as int]);
        }
        if letters[i].0 && i > 0 {
            out.push('_');
        }
        out.push(letters[i].1);
        i += 1;
    }
    proof {
        assert(letters@.take(i as int) =~= letters@);
    }
    out
}

/// A name in Pascal case with underscores before its inner capitals, and in lower case.
pub fn to_snake_case(s: &str) -> (r: String)
    ensures
        r@ == snake(s@),
{
    let cs = chars_of(s);
    let ghost all = s@.map_values(|c: char| letter(c));
    let mut letters: Vec<(bool, char)> = Vec::new();
    let mut i: usize = 0;
    while i < cs.len()
        invariant
            i <= cs.len(),
            cs@ == s@,
            all == s@.map_values(|c: char| letter(c)),
            letters@ == all.take(i as int),
        decreases cs.len() - i,
    {
        let lower = match char_lower_first(cs[i]) {
            Some(c) => c,
            None => cs[i],
        };
        letters.push((char_is_upper(cs[i]), lower));
        assert(letters@ =~= all.take(i + 1));
        i += 1;
    }
    assert(all.take(i as int) =~= all);
    space_letters(&letters)
}

/// A name as drift detection compares it. Prefixes that name a crate stay, so that a shadow
/// item with such a prefix shows up as missing and extra rather than as a rename.
pub fn normalize_name(name: &str) -> (r: String)
    ensures
        r@ == normalized(name@),
{
    str_lowercase(to_snake_case(name).as_str())
}

fn counts_toward_shadow_coverage(item: &Item) -> (r: bool)
    ensures
        r == counts(item@),
{
    !matches!(item.kind, ItemKind::Module)
}

fn find_named(items: &Vec<Item>, name: &str, kind: Option<ItemKind>) -> (r: Option<usize>)
    ensures
        match r {
            Some(i) => i < items.len() && first_named(views(items@), name@, kind) == Some(i as int),
            None => first_named(views(items@), name@, kind) is None,
        },
{
    let ghost all = views(items@);
    let mut found: Option<usize> = None;
    let mut i: usize = 0;
    while i < items.len()
        invariant
            i <= items.len(),
            all == views(items@),
            match found {
                Some(k) => k < i && first_named(all.take(i as int), name@, kind) == Some(k as int),
                None => first_named(all.take(i as int), name@, kind) is None,
            },
        decreases items.len() - i,
    {
        proof {
            assert(all.take(i + 1).drop_last() =~= all.take(i as int));
            assert(all.take(i + 1).last() == items@[i as int]@);
        }
        if found.is_none() && counts_toward_shadow_coverage(&items[i]) && str_eq(
            items[i].name.as_str(),
            name,
        ) {
            let right = match kind {
                Some(wanted) => items[i].kind == wanted,
                None => true,
            };
            if right {
                found = Some(i);
            }
        }
        i += 1;
    }
    proof {
        assert(all.take(i as int) =~= all);
    }
    found
}

fn find_exact(items: &Vec<Item>, target: &Item) -> (r: Option<usize>)
    ensures
        match r {
            Some(i) => i < items.len() && exact_match(views(items@), target@) == Some(i as int),
            None => exact_match(views(items@), target@) is None,
        },
{
    match find_named(items, target.name.as_str(), Some(target.kind)) {
        Some(i) => Some(i),
        None => find_named(items, target.name.as_str(), None),
    }
}

/// How far two normalized names are apart, if that is little enough for a rename.
pub fn score_names(a: &str, b: &str) -> (r: Option<DriftScore>)
    ensures
        match r {
            Some(s) => name_drift(a@, b@) == Some((s.distance as nat, s.length as nat))
                && s.distance <= 2 && s.length <= 4 * usize::MAX,
            None => name_drift(a@, b@) is None,
        },
{
    let distance: usize = edit_distance(a, b);
    let ours: u128 = byte_len(a);
    let theirs: u128 = byte_len(b);
    let length: u128 = if ours >= theirs {
        ours
    } else {
        theirs
    };
    if length > 0 && distance <= 2 {
        Some(DriftScore { distance, length })
    } else {
        None
    }
}

fn score_drift(target_norm: &str, target: &Item, candidate: &Item) -> (r: Option<DriftScore>)
    requires
        target_norm@ == normalized(target@.name),
    ensures
        match r {
            Some(s) => drift_of(target@, candidate@) == Some((s.distance as nat, s.length as nat))
                && s.distance <= 2 && s.length <= 4 * usize::MAX,
            None => drift_of(target@, candidate@) is None,
        },
{
    if !counts_toward_shadow_coverage(candidate) || candidate.kind != target.kind {
        return None;
    }
    score_names(target_norm, normalize_name(candidate.name.as_str()).as_str())
}

spec fn score_view(o: Option<(usize, DriftScore)>) -> Option<(int, (nat, nat))> {
    match o {
        Some(m) => Some((m.0 as int, (m.1.distance as nat, m.1.length as nat))),
        None => None,
    }
}

/// The best drifted match of a target item among the shadow items, within two edits of its
/// name.
pub fn find_drift_match(target: &Item, items: &Vec<Item>) -> (r: Option<(usize, DriftScore)>)
    ensures
        match r {
            Some(m) => m.0 < items.len() && drift_match(views(items@), target@) == Some(
                (m.0 as int, (m.1.distance as nat, m.1.length as nat)),
            ),
            None => drift_match(views(items@), target@) is None,
        },
        r is Some <==> exists|i: int|
            0 <= i < items@.len() && is_drift_candidate(target@, #[trigger] views(items@)[i]),
{
    let norm = normalize_name(target.name.as_str());
    let ghost all = views(items@);
    let mut best: Option<(usize, DriftScore)> = None;
    let mut i: usize = 0;
    while i < items.len()
        invariant
            i <= items.len(),
            all == views(items@),
            norm@ == normalized(target@.name),
            score_view(best) == drift_match(all.take(i as int), target@),
            match best {
                Some(m) => m.0 < i && m.1.distance <= 2 && m.1.length <= 4 * usize::MAX,
                None => true,
            },
        decreases items.len() - i,
    {
        proof {
            assert(all.take(i + 1).drop_last() =~= all.take(i as int));
            assert(all.take(i + 1).last() == items@[i as int]@);
        }
        if let Some(score) = score_drift(norm.as_str(), target, &items[i]) {
            let better = match best {
                None => true,
                Some(m) => {
                    let d1: u128 = score.distance as u128;
                    let d2: u128 = m.1.distance as u128;
                    let l1: u128 = score.length;
                    let l2: u128 = m.1.length;
                    proof {
                        assert(d1 * l2 <= 8 * usize::MAX && d2 * l1 <= 8 * usize::MAX) by (nonlinear_arith)
                            requires
                                d1 <= 2,
                                d2 <= 2,
                                l1 <= 4 * usize::MAX,
                                l2 <= 4 * usize::MAX,
                        ;
                    }
                    d1 * l2 < d2 * l1
                },
            };
            if better {
                best = Some((i, score));
            }
        }
        i += 1;
    }
    proof {
        assert(all.take(i as int) =~= all);
        law_drift_match(all, target@);
    }
    best
}

fn shadow_impl_status(item: &Item, complete: &ElicitCompleteSet, Ghost(c): Ghost<ShadowInputs>) -> (r: ImplStatus)
    requires
        c.concrete == views(complete.concrete@),
        c.factory == views(complete.factory@),
    ensures
        r == shadow_status(c, item@),
{
    if item.kind.is_type() {
        determine_impl_status(item.path_str().as_str(), complete)
    } else {
        ImplStatus::Missing
    }
}

fn build_matched_row(
    target: &Item,
    item: &Item,
    drift: Option<DriftScore>,
    complete: &ElicitCompleteSet,
    prereqs: &Vec<(String, TraitPrereqs)>,
    Ghost(c): Ghost<ShadowInputs>,
) -> (r: ShadowRow)
    requires
        c.concrete == views(complete.concrete@),
        c.factory == views(complete.factory@),
        c.prereqs == keyed(prereqs@),
    ensures
        r@ == matched_row(c, target@, item@, drift),
{
    let path = item.path_str();
    let traits = match find_value(prereqs, path.as_str()) {
        Some(p) => *p,
        None => TraitPrereqs::default(),
    };
    let status = shadow_impl_status(item, complete, Ghost(c));
    let is_type = item.kind.is_type();
    let (row_status, notes) = match drift {
        Some(_) => (ShadowStatus::Drifted, "probable rename".to_string()),
        None => (ShadowStatus::Covered, "".to_string()),
    };
    ShadowRow {
        item_path: target.path_str(),
        item_kind: target.kind,
        status: row_status,
        shadow_item: path,
        drift,
        drift_confidence: "".to_string(),
        shadow_elicit_impl: status.to_text(),
        shadow_can_be_direct: if is_type {
            bool_word(traits.can_be_direct())
        } else {
            "".to_string()
        },
        shadow_missing_external_traits: if is_type {
            join(&traits.external_blockers_absent(), ";")
        } else {
            "".to_string()
        },
        shadow_missing_our_traits: if is_type {
            join_strs(&traits.missing_our_traits(), ";")
        } else {
            "".to_string()
        },
        notes,
    }
}

fn build_unmatched_row(item: &Item, status: ShadowStatus, notes: &str) -> (r: ShadowRow)
    ensures
        r@ == unmatched_row(item@, status, notes@),
{
    ShadowRow {
        item_path: item.path_str(),
        item_kind: item.kind,
        status,
        shadow_item: "".to_string(),
        drift: None,
        drift_confidence: "".to_string(),
        shadow_elicit_impl: "".to_string(),
        shadow_can_be_direct: "".to_string(),
        shadow_missing_external_traits: "".to_string(),
        shadow_missing_our_traits: "".to_string(),
        notes: notes.to_string(),
    }
}

fn build_target_row(
    target: &Item,
    shadow: &Inventory,
    complete: &ElicitCompleteSet,
    prereqs: &Vec<(String, TraitPrereqs)>,
) -> (r: ShadowRow)
    ensures
        r@ == target_row(shadow_inputs(*shadow, *complete, prereqs@), target@),
{
    let ghost c = shadow_inputs(*shadow, *complete, prereqs@);
    match find_exact(&shadow.items, target) {
        Some(i) => {
            assert(c.items[i as int] == shadow.items@[i as int]@);
            build_matched_row(target, &shadow.items[i], None, complete, prereqs, Ghost(c))
        },
        None => match find_drift_match(target, &shadow.items) {
            Some((i, score)) => {
                assert(c.items[i as int] == shadow.items@[i as int]@);
                build_matched_row(target, &shadow.items[i], Some(score), complete, prereqs, Ghost(c))
            },
            None => build_unmatched_row(target, ShadowStatus::Missing, ""),
        },
    }
}

fn has_match(rows: &Vec<ShadowRow>, path: &str) -> (r: bool)
    ensures
        r == is_matched(views(rows@), path@),
{
    let ghost all = views(rows@);
    let mut i: usize = 0;
    while i < rows.len()
        invariant
            i <= rows.len(),
            all == views(rows@),
            forall|j: int|
                0 <= j < i ==> !(((#[trigger] all[j]).status is Covered || all[j].status is Drifted)
                    && all[j].shadow_item == path@),
        decreases rows.len() - i,
    {
        assert(all[i as int] == rows@[i as int]@);
        if matches!(rows[i].status, ShadowStatus::Covered | ShadowStatus::Drifted) && str_eq(
            rows[i].shadow_item.as_str(),
            path,
        ) {
            return true;
        }
        i += 1;
    }
    false
}

fn build_rows(
    target: &Inventory,
    shadow: &Inventory,
    complete: &ElicitCompleteSet,
    prereqs: &Vec<(String, TraitPrereqs)>,
) -> (r: Vec<ShadowRow>)
    ensures
        views(r@) == shadow_rows(
            shadow_inputs(*shadow, *complete, prereqs@),
            views(target.items@),
        ),
{
    let ghost c = shadow_inputs(*shadow, *complete, prereqs@);
    let ghost all = views(target.items@);
    let mut rows: Vec<ShadowRow> = Vec::new();
    let mut i: usize = 0;
    assert(views(rows@) =~= seq![]);
    while i < target.items.len()
        invariant
            i <= target.items.len(),
            all == views(target.items@),
            c == shadow_inputs(*shadow, *complete, prereqs@),
            views(rows@) == target_rows(c, all.take(i as int)),
        decreases target.items.len() - i,
    {
        let ghost held = views(rows@);
        proof {
            assert(all.take(i + 1).drop_last() =~= all.take(i as int));
            assert(all.take(i + 1).last() == target.items@[i as int]@);
        }
        if counts_toward_shadow_coverage(&target.items[i]) {
            rows.push(build_target_row(&target.items[i], shadow, complete, prereqs));
            assert(views(rows@) =~= held.push(target_row(c, all[i as int])));
        }
        i += 1;
    }
    proof {
        assert(all.take(i as int) =~= all);
    }
    let ghost first = views(rows@);
    let mut extras: Vec<ShadowRow> = Vec::new();
    let mut j: usize = 0;
    assert(views(extras@) =~= seq![]);
    while j < shadow.items.len()
        invariant
            j <= shadow.items.len(),
            c == shadow_inputs(*shadow, *complete, prereqs@),
            first == views(rows@),
            views(extras@) == extra_rows(first, c.items.take(j as int)),
        decreases shadow.items.len() - j,
    {
        let ghost held = views(extras@);
        proof {
            assert(c.items.take(j + 1).drop_last() =~= c.items.take(j as int));
            assert(c.items.take(j + 1).last() == shadow.items@[j as int]@);
        }
        let item = &shadow.items[j];
        if counts_toward_shadow_coverage(item) && !has_match(&rows, item.path_str().as_str()) {
            let row = build_unmatched_row(item, ShadowStatus::Extra, "in shadow, not in target");
            let ghost v = row@;
            extras.push(row);
            assert(views(extras@) =~= held.push(v));
        }
        j += 1;
    }
    proof {
        assert(c.items.take(j as int) =~= c.items);
    }
    let ghost second = views(extras@);
    rows.append(&mut extras);
    assert(views(rows@) =~= first + second);
    rows
}

fn count_status(rows: &Vec<ShadowRow>, status: ShadowStatus) -> (r: usize)
    ensures
        r == count_if(views(rows@), has_status(status)),
        r <= rows.len(),
{
    let mut n: usize = 0;
    let mut i: usize = 0;
    let ghost all = views(rows@);
    while i < rows.len()
        invariant
            i <= rows.len(),
            n <= i,
            all == views(rows@),
            n == count_if(all.take(i as int), has_status(status)),
        decreases rows.len() - i,
    {
        proof {
            assert(all.take(i + 1).drop_last() =~= all.take(i as int));
            assert(all.take(i + 1).last() == rows@[i as int]@);
        }
        if rows[i].status == status {
            n += 1;
        }
        i += 1;
    }
    proof {
        assert(all.take(i as int) =~= all);
    }
    n
}

/// Whether a row shows a matched type whose shadow is not complete.
pub fn is_shadow_verification_gap(row: &ShadowRow) -> (r: bool)
    ensures
        r == verification_gap(row@),
{
    matches!(row.status, ShadowStatus::Covered | ShadowStatus::Drifted) && row.item_kind.is_type()
        && !str_eq(row.shadow_elicit_impl.as_str(), "Complete") && !str_eq(
        row.shadow_elicit_impl.as_str(),
        "CompleteFactory",
    )
}

fn count_counted(list: &Vec<Item>) -> (r: usize)
    ensures
        r == count_if(views(list@), is_counted()),
        r <= list.len(),
{
    let mut n: usize = 0;
    let mut i: usize = 0;
    let ghost all = views(list@);
    while i < list.len()
        invariant
            i <= list.len(),
            n <= i,
            all == views(list@),
            n == count_if(all.take(i as int), is_counted()),
        decreases list.len() - i,
    {
        proof {
            assert(all.take(i + 1).drop_last() =~= all.take(i as int));
            assert(all.take(i + 1).last() == list@[i as int]@);
        }
        let counted = counts_toward_shadow_coverage(&list[i]);
        if counted {
            n += 1;
        }
        i += 1;
    }
    proof {
        assert(all.take(i as int) =~= all);
    }
    n
}

fn count_gaps(list: &Vec<ShadowRow>) -> (r: usize)
    ensures
        r == count_if(views(list@), has_gap()),
        r <= list.len(),
{
    let mut n: usize = 0;
    let mut i: usize = 0;
    let ghost all = views(list@);
    while i < list.len()
        invariant
            i <= list.len(),
            n <= i,
            all == views(list@),
            n == count_if(all.take(i as int), has_gap()),
        decreases list.len() - i,
    {
        proof {
            assert(all.take(i + 1).drop_last() =~= all.take(i as int));
            assert(all.take(i + 1).last() == list@[i as int]@);
        }
        let counted = is_shadow_verification_gap(&list[i]);
        if counted {
            n += 1;
        }
        i += 1;
    }
    proof {
        assert(all.take(i as int) =~= all);
    }
    n
}

/// The numbers of the report are those of its rows.
pub open spec fn counts_rows(r: ShadowReport) -> bool {
    &&& r.covered_count == count_if(views(r.rows@), has_status(ShadowStatus::Covered))
    &&& r.missing_count == count_if(views(r.rows@), has_status(ShadowStatus::Missing))
    &&& r.extra_count == count_if(views(r.rows@), has_status(ShadowStatus::Extra))
    &&& r.drifted_count == count_if(views(r.rows@), has_status(ShadowStatus::Drifted))
    &&& r.verification_gap_count == count_if(views(r.rows@), has_gap())
}

/// What a row is about: an item of the target crate or an extra one of the shadow crate, told by
/// its kind and path.
pub open spec fn row_subject(v: ShadowRowView) -> (bool, ItemKind, Seq<char>) {
    (v.status is Extra, v.item_kind, v.item_path)
}

/// No two rows are about the same item.
pub open spec fn rows_differ(rows: Seq<ShadowRowView>) -> bool {
    forall|i: int, j: int|
        0 <= i < j < rows.len() ==> row_subject(#[trigger] rows[i]) != row_subject(
            #[trigger] rows[j],
        )
}

impl Identified for ShadowRow {
    type Identity = (bool, ItemKind, Seq<char>);

    open spec fn identity(v: ShadowRowView) -> (bool, ItemKind, Seq<char>) {
        row_subject(v)
    }
}

/// The report states the coverage of the target crate, by path, and counts the rows.
pub open spec fn is_shadow_report(
    r: ShadowReport,
    target: Inventory,
    shadow: Inventory,
    c: ShadowInputs,
) -> bool {
    &&& r.target_crate@ == target.crate_name@
    &&& r.target_version@ == target.crate_version@
    &&& r.shadow_crate@ == shadow.crate_name@
    &&& r.shadow_version@ == shadow.crate_version@
    &&& views(r.rows@) == sorted::<ShadowRow>(shadow_rows(c, views(target.items@)))
    &&& counts_rows(r)
    &&& r.total_count == count_if(views(target.items@), is_counted())
}

/// No two counting items of a list are of the same kind and at the same path.
pub open spec fn items_differ(s: Seq<ItemView>) -> bool {
    forall|i: int, j: int|
        0 <= i < j < s.len() && counts(#[trigger] s[i]) && counts(#[trigger] s[j]) ==> (
            s[i].kind,
            s[i].path_text(),
        ) != (s[j].kind, s[j].path_text())
}

/// The row is about an item of the list.
spec fn is_about(s: Seq<ItemView>, v: ShadowRowView, extra: bool, i: int) -> bool {
    0 <= i < s.len() && counts(s[i]) && row_subject(v) == (extra, s[i].kind, s[i].path_text())
}

/// The row is about some item of the list.
spec fn has_subject(s: Seq<ItemView>, v: ShadowRowView, extra: bool) -> bool {
    exists|i: int| is_about(s, v, extra, i)
}

/// Where neither inventory lists an item twice, no two rows of the report are about the same
/// item.
pub proof fn law_rows_differ(c: ShadowInputs, target: Seq<ItemView>)
    requires
        items_differ(target),
        items_differ(c.items),
    ensures
        rows_differ(sorted::<ShadowRow>(shadow_rows(c, target))),
{
    let first = target_rows(c, target);
    let extras = extra_rows(first, c.items);
    let rows = shadow_rows(c, target);
    lemma_target_subjects(c, target);
    lemma_extra_subjects(first, c.items);
    assert forall|i: int, j: int| 0 <= i < j < rows.len() implies ShadowRow::identity(
        #[trigger] rows[i],
    ) != ShadowRow::identity(#[trigger] rows[j]) by {
        if j < first.len() {
            assert(rows[i] == first[i] && rows[j] == first[j]);
        } else if i >= first.len() {
            assert(rows[i] == extras[i - first.len()] && rows[j] == extras[j - first.len()]);
        } else {
            assert(rows[i] == first[i] && rows[j] == extras[j - first.len()]);
        }
    }
    law_sorted_distinct::<ShadowRow>(rows);
    let list = sorted::<ShadowRow>(rows);
    assert forall|i: int, j: int| 0 <= i < j < list.len() implies row_subject(#[trigger] list[i])
        != row_subject(#[trigger] list[j]) by {
        assert(ShadowRow::identity(list[i]) != ShadowRow::identity(list[j]));
    }
}

proof fn lemma_target_subjects(c: ShadowInputs, s: Seq<ItemView>)
    requires
        items_differ(s),
    ensures
        rows_differ(target_rows(c, s)),
        forall|i: int|
            0 <= i < target_rows(c, s).len() ==> has_subject(
                s,
                #[trigger] target_rows(c, s)[i],
                false,
            ),
    decreases s.len(),
{
    if s.len() > 0 {
        let front = s.drop_last();
        lemma_front_differs(s);
        lemma_target_subjects(c, front);
        let a = target_rows(c, front);
        assert(a.push(target_row(c, s.last())).drop_last() =~= a);
        lemma_subjects(s, a, target_rows(c, s), false);
    }
}

proof fn lemma_extra_subjects(rows: Seq<ShadowRowView>, s: Seq<ItemView>)
    requires
        items_differ(s),
    ensures
        rows_differ(extra_rows(rows, s)),
        forall|i: int|
            0 <= i < extra_rows(rows, s).len() ==> has_subject(
                s,
                #[trigger] extra_rows(rows, s)[i],
                true,
            ),
    decreases s.len(),
{
    if s.len() > 0 {
        let front = s.drop_last();
        lemma_front_differs(s);
        lemma_extra_subjects(rows, front);
        let a = extra_rows(rows, front);
        let row = unmatched_row(s.last(), ShadowStatus::Extra, "in shadow, not in target"@);
        assert(a.push(row).drop_last() =~= a);
        lemma_subjects(s, a, extra_rows(rows, s), true);
    }
}

proof fn lemma_front_differs(s: Seq<ItemView>)
    requires
        s.len() > 0,
        items_differ(s),
    ensures
        items_differ(s.drop_last()),
{
    let front = s.drop_last();
    assert forall|i: int, j: int|
        0 <= i < j < front.len() && counts(#[trigger] front[i]) && counts(#[trigger] front[j]) implies (
        front[i].kind,
        front[i].path_text(),
    ) != (front[j].kind, front[j].path_text()) by {
        assert(front[i] == s[i] && front[j] == s[j]);
    }
}

/// A further row about the last item of a list keeps the rows apart.
proof fn lemma_subjects(s: Seq<ItemView>, a: Seq<ShadowRowView>, b: Seq<ShadowRowView>, extra: bool)
    requires
        s.len() > 0,
        items_differ(s),
        rows_differ(a),
        forall|i: int| 0 <= i < a.len() ==> has_subject(s.drop_last(), #[trigger] a[i], extra),
        b == a || (b.len() == a.len() + 1 && b.drop_last() == a && is_about(
            s,
            b.last(),
            extra,
            s.len() - 1,
        )),
    ensures
        rows_differ(b),
        forall|i: int| 0 <= i < b.len() ==> has_subject(s, #[trigger] b[i], extra),
{
    let front = s.drop_last();
    let last = s.len() - 1;
    assert forall|i: int| 0 <= i < b.len() implies has_subject(s, #[trigger] b[i], extra) by {
        if i < a.len() {
            assert(b[i] == a[i]);
            let p = choose|p: int| is_about(front, a[i], extra, p);
            assert(front[p] == s[p]);
            assert(is_about(s, b[i], extra, p));
        } else {
            assert(is_about(s, b[i], extra, last));
        }
    }
    assert forall|i: int, j: int| 0 <= i < j < b.len() implies row_subject(#[trigger] b[i])
        != row_subject(#[trigger] b[j]) by {
        assert(b[i] == a[i]);
        if j < a.len() {
            assert(b[j] == a[j]);
        } else {
            assert(has_subject(front, a[i], extra));
            let p = choose|p: int| is_about(front, a[i], extra, p);
            assert(front[p] == s[p]);
            assert(counts(s[p]) && counts(s[last]));
        }
    }
}

/// The shadow coverage of a target crate.
///
/// An item is covered by a shadow item of exactly the same name, wherever that stands. Where
/// there is none, a shadow item of a name that is much alike is flagged as a probable rename.
/// Modules count on neither side.
pub fn build_shadow_report(
    target: &Inventory,
    shadow: &Inventory,
    shadow_complete: &ElicitCompleteSet,
    shadow_prereqs: &Vec<(String, TraitPrereqs)>,
) -> (r: ShadowReport)
    ensures
        is_shadow_report(
            r,
            *target,
            *shadow,
            shadow_inputs(*shadow, *shadow_complete, shadow_prereqs@),
        ),
        r.covered_count + r.drifted_count + r.missing_count == r.total_count,
{
    let ghost c = shadow_inputs(*shadow, *shadow_complete, shadow_prereqs@);
    let rows = sort_ranked(build_rows(target, shadow, shadow_complete, shadow_prereqs));
    let covered_count = count_status(&rows, ShadowStatus::Covered);
    let missing_count = count_status(&rows, ShadowStatus::Missing);
    let extra_count = count_status(&rows, ShadowStatus::Extra);
    let drifted_count = count_status(&rows, ShadowStatus::Drifted);
    let total_count = count_counted(&target.items);
    let verification_gap_count = count_gaps(&rows);
    proof {
        law_target_items_are_partitioned(c, views(target.items@));
    }
    ShadowReport {
        target_crate: target.crate_name.clone(),
        target_version: target.crate_version.clone(),
        shadow_crate: shadow.crate_name.clone(),
        shadow_version: shadow.crate_version.clone(),
        rows,
        covered_count,
        missing_count,
        extra_count,
        drifted_count,
        total_count,
        verification_gap_count,
    }
}

/// Every counting item of the target crate is covered, drifted or missing, and only one of
/// these; whatever the shadow crate holds besides does not change that.
pub proof fn law_target_items_are_partitioned(c: ShadowInputs, target: Seq<ItemView>)
    ensures
        ({
            let rows = sorted::<ShadowRow>(shadow_rows(c, target));
            count_if(rows, has_status(ShadowStatus::Covered)) + count_if(
                rows,
                has_status(ShadowStatus::Drifted),
            ) + count_if(rows, has_status(ShadowStatus::Missing)) == count_if(target, is_counted())
        }),
{
    let rows = shadow_rows(c, target);
    let first = target_rows(c, target);
    let extras = extra_rows(first, c.items);
    law_sorted_permutes::<ShadowRow>(rows);
    lemma_count_permuted(sorted::<ShadowRow>(rows), rows, has_status(ShadowStatus::Covered));
    lemma_count_permuted(sorted::<ShadowRow>(rows), rows, has_status(ShadowStatus::Drifted));
    lemma_count_permuted(sorted::<ShadowRow>(rows), rows, has_status(ShadowStatus::Missing));
    lemma_extra_rows(first, c.items);
    lemma_count_append(first, extras, has_status(ShadowStatus::Covered));
    lemma_count_append(first, extras, has_status(ShadowStatus::Drifted));
    lemma_count_append(first, extras, has_status(ShadowStatus::Missing));
    lemma_target_rows(c, target);
}

proof fn lemma_extra_rows(rows: Seq<ShadowRowView>, s: Seq<ItemView>)
    ensures
        count_if(extra_rows(rows, s), has_status(ShadowStatus::Covered)) == 0,
        count_if(extra_rows(rows, s), has_status(ShadowStatus::Drifted)) == 0,
        count_if(extra_rows(rows, s), has_status(ShadowStatus::Missing)) == 0,
    decreases s.len(),
{
    if s.len() > 0 {
        let rest = extra_rows(rows, s.drop_last());
        lemma_extra_rows(rows, s.drop_last());
        let row = unmatched_row(s.last(), ShadowStatus::Extra, "in shadow, not in target"@);
        assert(rest.push(row).drop_last() =~= rest);
    }
}

proof fn lemma_target_rows(c: ShadowInputs, s: Seq<ItemView>)
    ensures
        count_if(target_rows(c, s), has_status(ShadowStatus::Covered)) + count_if(
            target_rows(c, s),
            has_status(ShadowStatus::Drifted),
        ) + count_if(target_rows(c, s), has_status(ShadowStatus::Missing)) == count_if(
            s,
            is_counted(),
        ),
    decreases s.len(),
{
    if s.len() > 0 {
        let rest = target_rows(c, s.drop_last());
        lemma_target_rows(c, s.drop_last());
        let row = target_row(c, s.last());
        assert(rest.push(row).drop_last() =~= rest);
    }
}

/// No row of a report is about a module.
pub proof fn law_no_module_rows(c: ShadowInputs, target: Seq<ItemView>)
    ensures
        forall|i: int|
            0 <= i < shadow_rows(c, target).len() ==> !((#[trigger] shadow_rows(c, target)[i]).item_kind is Module),
{
    let first = target_rows(c, target);
    let extras = extra_rows(first, c.items);
    lemma_no_module_targets(c, target);
    lemma_no_module_extras(first, c.items);
    assert forall|i: int| 0 <= i < (first + extras).len() implies !((#[trigger] (first + extras)[i]).item_kind is Module) by {
        if i < first.len() {
            assert((first + extras)[i] == first[i]);
        } else {
            assert((first + extras)[i] == extras[i - first.len()]);
        }
    }
}

proof fn lemma_no_module_targets(c: ShadowInputs, s: Seq<ItemView>)
    ensures
        forall|i: int|
            0 <= i < target_rows(c, s).len() ==> !((#[trigger] target_rows(c, s)[i]).item_kind is Module),
    decreases s.len(),
{
    if s.len() > 0 {
        lemma_no_module_targets(c, s.drop_last());
    }
}

proof fn lemma_no_module_extras(rows: Seq<ShadowRowView>, s: Seq<ItemView>)
    ensures
        forall|i: int|
            0 <= i < extra_rows(rows, s).len() ==> !((#[trigger] extra_rows(rows, s)[i]).item_kind is Module),
    decreases s.len(),
{
    if s.len() > 0 {
        lemma_no_module_extras(rows, s.drop_last());
    }
}

/// The rows of a report come by path.
pub proof fn law_shadow_rows_by_path(c: ShadowInputs, target: Seq<ItemView>)
    ensures
        ({
            let rows = sorted::<ShadowRow>(shadow_rows(c, target));
            forall|i: int, j: int|
                0 <= i < j < rows.len() ==> !text_lt(
                    (#[trigger] rows[j]).item_path,
                    (#[trigger] rows[i]).item_path,
                )
        }),
{
    let rows = sorted::<ShadowRow>(shadow_rows(c, target));
    law_sorted_in_order::<ShadowRow>(shadow_rows(c, target));
    assert forall|i: int, j: int| 0 <= i < j < rows.len() implies !text_lt(
        (#[trigger] rows[j]).item_path,
        (#[trigger] rows[i]).item_path,
    ) by {
        assert(!key_lt(ShadowRow::key(rows[j]), ShadowRow::key(rows[i])));
        lemma_text_key(rows[j].item_path, rows[i].item_path);
    }
}

}
