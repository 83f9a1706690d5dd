//! Impl coverage: which types of a crate are complete and which are tested.

use vstd::prelude::*;
use vstd::string::*;

use crate::collect::{find_root_alias, root_alias, ElicitCompleteSet, TraitPrereqs};
use crate::count::count_if;
use crate::harness::ProofHarness;
use crate::inventory::{copy_texts, types_of, Inventory, Item, ItemKind, ItemView};
use crate::order::{key_lt, law_sorted_in_order, law_sorted_permutes, lemma_text_key, sort_ranked};
use crate::order::{sorted, text_key_before, Key, Ranked};
use crate::table::{find_value, keyed, value_of};
use crate::text::{decimal, ends, ends_with, has_text, opt_view, push_decimal, starts, starts_with};
use crate::text::{str_eq, text_lt, underscored, views, with_underscores};

verus! {

/// Whether a type has an `ElicitComplete` impl.
#[derive(Clone, Copy, Debug, PartialEq, Eq, Structural)]
pub enum ImplStatus {
    /// An impl for the type itself.
    Complete,
    /// An impl over type parameters.
    CompleteFactory,
    /// Some supertraits are there, the marker is not.
    Partial,
    /// No impl.
    Missing,
}

impl ImplStatus {
    /// The type has an impl.
    pub open spec fn complete(self) -> bool {
        self is Complete || self is CompleteFactory
    }

    /// The name of the status.
    pub open spec fn name(self) -> Seq<char> {
        match self {
            ImplStatus::Complete => "Complete"@,
            ImplStatus::CompleteFactory => "CompleteFactory"@,
            ImplStatus::Partial => "Partial"@,
            ImplStatus::Missing => "Missing"@,
        }
    }

    /// The name of the status, as reports print it.
    pub fn to_text(&self) -> (r: String)
        ensures
            r@ == self.name(),
    {
        match self {
            ImplStatus::Complete => "Complete".to_string(),
            ImplStatus::CompleteFactory => "CompleteFactory".to_string(),
            ImplStatus::Partial => "Partial".to_string(),
            ImplStatus::Missing => "Missing".to_string(),
        }
    }
}

/// Whether the proof harness tests a type.
#[derive(Clone, Debug, PartialEq, Eq)]
pub enum TestStatus {
    Covered,
    /// Only an instantiation of a type with parameters is tested.
    CoveredConcrete { instantiation: String },
    Missing,
}

/// The contents of a [`TestStatus`].
#[verifier::ext_equal]
pub enum TestView {
    Covered,
    CoveredConcrete { instantiation: Seq<char> },
    Missing,
}

impl View for TestStatus {
    type V = TestView;

    open spec fn view(&self) -> TestView {
        match self {
            TestStatus::Covered => TestView::Covered,
            TestStatus::CoveredConcrete { instantiation } => TestView::CoveredConcrete {
                instantiation: instantiation@,
            },
            TestStatus::Missing => TestView::Missing,
        }
    }
}

impl TestView {
    /// How reports print the status.
    pub open spec fn name(self) -> Seq<char> {
        match self {
            TestView::Covered => "Covered"@,
            TestView::CoveredConcrete { instantiation } => "CoveredConcrete("@ + instantiation
                + ")"@,
            TestView::Missing => "Missing"@,
        }
    }
}

impl TestStatus {
    /// How reports print the status.
    pub fn to_text(&self) -> (r: String)
        ensures
            r@ == self@.name(),
    {
        match self {
            TestStatus::Covered => "Covered".to_string(),
            TestStatus::CoveredConcrete { instantiation } => {
                let mut out = "CoveredConcrete(".to_string();
                out.append(instantiation.as_str());
                out.append(")");
                out
            },
            TestStatus::Missing => "Missing".to_string(),
        }
    }
}

/// One row of an impl coverage report.
#[derive(Clone, Debug)]
pub struct ImplCoverageEntry {
    pub type_path: String,
    pub type_kind: ItemKind,
    pub is_generic: bool,
    pub lifetime_params: Vec<String>,
    pub type_params: Vec<String>,
    pub elicit_impl: ImplStatus,
    pub proof_test: TestStatus,
    pub composition_test: TestStatus,
    /// Which supertraits the type implements.
    pub prereqs: TraitPrereqs,
    pub notes: String,
}

/// The contents of an [`ImplCoverageEntry`].
#[verifier::ext_equal]
pub struct ImplEntryView {
    pub type_path: Seq<char>,
    pub type_kind: ItemKind,
    pub is_generic: bool,
    pub lifetime_params: Seq<Seq<char>>,
    pub type_params: Seq<Seq<char>>,
    pub elicit_impl: ImplStatus,
    pub proof_test: TestView,
    pub composition_test: TestView,
    pub prereqs: TraitPrereqs,
    pub notes: Seq<char>,
}

impl View for ImplCoverageEntry {
    type V = ImplEntryView;

    open spec fn view(&self) -> ImplEntryView {
        ImplEntryView {
            type_path: self.type_path@,
            type_kind: self.type_kind,
            is_generic: self.is_generic,
            lifetime_params: views(self.lifetime_params@),
            type_params: views(self.type_params@),
            elicit_impl: self.elicit_impl,
            proof_test: self.proof_test@,
            composition_test: self.composition_test@,
            prereqs: self.prereqs,
            notes: self.notes@,
        }
    }
}

impl Ranked for ImplCoverageEntry {
    open spec fn key(v: ImplEntryView) -> Key {
        (0, seq![v.type_path])
    }

    fn before(&self, other: &Self) -> (r: bool) {
        text_key_before(self.type_path.as_str(), other.type_path.as_str())
    }
}

impl ImplEntryView {
    /// `Elicitation` requires `'static`, which a type with lifetime parameters is not.
    pub open spec fn lifetime_blocked(self) -> bool {
        self.lifetime_params.len() > 0
    }

    /// Those of our traits that the type lacks and could have.
    pub open spec fn missing(self) -> Seq<Seq<char>> {
        self.prereqs.our_missing(self.lifetime_blocked())
    }

    /// The type has all of our traits that it could have.
    pub open spec fn ours_complete(self) -> bool {
        self.missing().len() == 0
    }

    /// A direct `ElicitComplete` impl is legal.
    pub open spec fn direct(self) -> bool {
        !self.lifetime_blocked() && self.prereqs.direct()
    }
}

impl ImplCoverageEntry {
    /// `Elicitation` requires `'static`, so types with lifetime parameters can implement
    /// neither it nor `ElicitIntrospect`.
    pub fn lifetime_blocks_elicitation(&self) -> (r: bool)
        ensures
            r == self@.lifetime_blocked(),
    {
        self.lifetime_params.len() > 0
    }

    /// The names of our missing traits, without those that the type's shape blocks.
    pub fn effective_missing_our_traits(&self) -> (r: Vec<&'static str>)
        ensures
            views(r@) == self@.missing(),
    {
        self.prereqs.missing_unblocked(self.lifetime_blocks_elicitation())
    }

    /// True when every trait of ours that can be implemented is there.
    pub fn effective_our_traits_complete(&self) -> (r: bool)
        ensures
            r == self@.ours_complete(),
    {
        let missing = self.effective_missing_our_traits();
        assert(views(missing@).len() == missing@.len());
        missing.len() == 0
    }

    /// True when a direct `ElicitComplete` impl is legal.
    pub fn can_be_direct(&self) -> (r: bool)
        ensures
            r == self@.direct(),
    {
        !self.lifetime_blocks_elicitation() && self.prereqs.can_be_direct()
    }
}

/// The impl coverage of one crate.
#[derive(Clone, Debug)]
pub struct ImplCoverageReport {
    pub source_crate: String,
    pub source_version: String,
    pub entries: Vec<ImplCoverageEntry>,
    pub complete_count: usize,
    pub missing_impl_count: usize,
    pub missing_test_count: usize,
    pub flagged_concrete_count: usize,
}

/// Entries with an `ElicitComplete` impl.
pub open spec fn is_complete_entry() -> spec_fn(ImplEntryView) -> bool {
    |e: ImplEntryView| e.elicit_impl.complete()
}

/// Entries without an `ElicitComplete` impl.
pub open spec fn is_missing_impl() -> spec_fn(ImplEntryView) -> bool {
    |e: ImplEntryView| e.elicit_impl is Missing
}

/// Entries without a test.
pub open spec fn is_missing_test() -> spec_fn(ImplEntryView) -> bool {
    |e: ImplEntryView| e.proof_test is Missing
}

/// Entries of which only an instantiation is tested.
pub open spec fn is_flagged_concrete() -> spec_fn(ImplEntryView) -> bool {
    |e: ImplEntryView| e.proof_test is CoveredConcrete
}

/// Entries with all of our traits that they could have.
pub open spec fn is_ours_complete() -> spec_fn(ImplEntryView) -> bool {
    |e: ImplEntryView| e.ours_complete()
}

/// The numbers of a list of entries.
struct Tally {
    complete: usize,
    missing_impl: usize,
    missing_test: usize,
    flagged_concrete: usize,
    ours_complete: usize,
}

fn tally(list: &Vec<ImplCoverageEntry>) -> (r: Tally)
    ensures
        r.complete == count_if(views(list@), is_complete_entry()),
        r.missing_impl == count_if(views(list@), is_missing_impl()),
        r.missing_test == count_if(views(list@), is_missing_test()),
        r.flagged_concrete == count_if(views(list@), is_flagged_concrete()),
        r.ours_complete == count_if(views(list@), is_ours_complete()),
        r.ours_complete <= list.len(),
{
    let ghost all = views(list@);
    let mut complete: usize = 0;
    let mut missing_impl: usize = 0;
    let mut missing_test: usize = 0;
    let mut flagged_concrete: usize = 0;
    let mut ours_complete: usize = 0;
    let mut i: usize = 0;
    while i < list.len()
        invariant
            i <= list.len(),
            all == views(list@),
            complete <= i,
            missing_impl <= i,
            missing_test <= i,
            flagged_concrete <= i,
            ours_complete <= i,
            complete == count_if(all.take(i as int), is_complete_entry()),
            missing_impl == count_if(all.take(i as int), is_missing_impl()),
            missing_test == count_if(all.take(i as int), is_missing_test()),
            flagged_concrete == count_if(all.take(i as int), is_flagged_concrete()),
            ours_complete == count_if(all.take(i as int), is_ours_complete()),
        decreases list.len() - i,
    {
        proof {
            assert(all.take(i + 1).drop_last() =~= all.take(i as int));
            assert(all.take(i + 1).last() == list@[i as int]@);
        }
        let entry = &list[i];
        match entry.elicit_impl {
            ImplStatus::Complete | ImplStatus::CompleteFactory => {
                complete += 1;
            },
            ImplStatus::Missing => {
                missing_impl += 1;
            },
            ImplStatus::Partial => {},
        }
        match &entry.proof_test {
            TestStatus::Missing => {
                missing_test += 1;
            },
            TestStatus::CoveredConcrete { .. } => {
                flagged_concrete += 1;
            },
            TestStatus::Covered => {},
        }
        if entry.effective_our_traits_complete() {
            ours_complete += 1;
        }
        i += 1;
    }
    proof {
        assert(all.take(i as int) =~= all);
    }
    Tally { complete, missing_impl, missing_test, flagged_concrete, ours_complete }
}

impl ImplCoverageReport {
    /// The number of types that have all of our traits that they could have.
    pub fn coverage_complete_count(&self) -> (r: usize)
        ensures
            r == count_if(views(self.entries@), is_ours_complete()),
            r <= self.entries.len(),
    {
        tally(&self.entries).ours_complete
    }

    /// A line that sums the report up.
    pub fn summary(&self) -> (r: String)
        ensures
            r@ == self.source_crate@ + " "@ + self.source_version@ + " ("@ + decimal(
                count_if(views(self.entries@), is_ours_complete()),
            ) + " coverage-complete, "@ + decimal(self.complete_count as nat)
                + " direct ElicitComplete, "@ + decimal(self.missing_impl_count as nat)
                + " missing impl, "@ + decimal(self.missing_test_count as nat)
                + " missing test, "@ + decimal(self.flagged_concrete_count as nat)
                + " flagged concrete)"@,
    {
        let mut out = self.source_crate.clone();
        out.append(" ");
        out.append(self.source_version.as_str());
        out.append(" (");
        push_decimal(&mut out, self.coverage_complete_count() as u128);
        out.append(" coverage-complete, ");
        push_decimal(&mut out, self.complete_count as u128);
        out.append(" direct ElicitComplete, ");
        push_decimal(&mut out, self.missing_impl_count as u128);
        out.append(" missing impl, ");
        push_decimal(&mut out, self.missing_test_count as u128);
        out.append(" missing test, ");
        push_decimal(&mut out, self.flagged_concrete_count as u128);
        out.append(" flagged concrete)");
        out
    }
}

/// What a report is made from.
#[verifier::ext_equal]
pub struct CoverageInputs {
    pub types: Seq<ItemView>,
    pub root: Seq<char>,
    pub concrete: Seq<Seq<char>>,
    pub factory: Seq<Seq<char>>,
    pub tested: Seq<Seq<char>>,
    pub composed: Seq<(Seq<char>, Seq<char>)>,
    pub prereqs: Seq<(Seq<char>, TraitPrereqs)>,
}

/// What a report is made from, as the function takes it.
pub open spec fn coverage_inputs(
    source: Inventory,
    complete: ElicitCompleteSet,
    harness: ProofHarness,
    prereqs: Seq<(Seq<char>, TraitPrereqs)>,
) -> CoverageInputs {
    CoverageInputs {
        types: types_of(views(source.items@)),
        root: underscored(source.crate_name@),
        concrete: views(complete.concrete@),
        factory: views(complete.factory@),
        tested: views(harness.non_empty_types@),
        composed: views(harness.composition_pairs@),
        prereqs,
    }
}

/// Whether the type at a path has an `ElicitComplete` impl.
pub open spec fn status_at(concrete: Seq<Seq<char>>, factory: Seq<Seq<char>>, path: Seq<char>) -> ImplStatus {
    if factory.contains(path) {
        ImplStatus::CompleteFactory
    } else if concrete.contains(path) {
        ImplStatus::Complete
    } else {
        ImplStatus::Missing
    }
}

/// The text is a type with arguments.
pub open spec fn instantiates(text: Seq<char>, name: Seq<char>) -> bool {
    starts(text, name + "<"@)
}

/// The first tested instantiation of a type.
pub open spec fn instantiation_of(tested: Seq<Seq<char>>, name: Seq<char>) -> Option<Seq<char>>
    decreases tested.len(),
{
    if tested.len() == 0 {
        None
    } else {
        match instantiation_of(tested.drop_last(), name) {
            Some(t) => Some(t),
            None => if instantiates(tested.last(), name) {
                Some(tested.last())
            } else {
                None
            },
        }
    }
}

/// The type is tested under a path.
pub open spec fn tested_qualified(tested: Seq<Seq<char>>, name: Seq<char>) -> bool {
    exists|i: int| 0 <= i < tested.len() && ends(#[trigger] tested[i], "::"@ + name)
}

/// Whether the harness tests a type, and what is to be noted.
pub open spec fn test_at(tested: Seq<Seq<char>>, status: ImplStatus, name: Seq<char>) -> (TestView, Seq<char>) {
    if tested.contains(name) {
        (TestView::Covered, ""@)
    } else if status is CompleteFactory && instantiation_of(tested, name) is Some {
        let t = instantiation_of(tested, name)->0;
        (TestView::CoveredConcrete { instantiation: t }, "tested as "@ + t)
    } else if tested_qualified(tested, name) {
        (TestView::Covered, ""@)
    } else {
        (TestView::Missing, ""@)
    }
}

/// Whether the harness tests the composition of a type, or of an instantiation of it.
pub open spec fn composition_at(composed: Seq<(Seq<char>, Seq<char>)>, name: Seq<char>) -> TestView {
    if exists|i: int|
        0 <= i < composed.len() && ((#[trigger] composed[i]).0 == name || instantiates(
            composed[i].0,
            name,
        )) {
        TestView::Covered
    } else {
        TestView::Missing
    }
}

/// The traits of a type: listed under its path, or else under its unambiguous root alias.
pub open spec fn prereqs_of(c: CoverageInputs, v: ItemView) -> TraitPrereqs {
    match value_of(c.prereqs, v.path_text()) {
        Some(p) => p,
        None => match root_alias(c.types, v, c.root) {
            Some(alias) => match value_of(c.prereqs, alias) {
                Some(p) => p,
                None => TraitPrereqs::none(),
            },
            None => TraitPrereqs::none(),
        },
    }
}

/// The row for a type.
pub open spec fn coverage_row(c: CoverageInputs, v: ItemView) -> ImplEntryView {
    let status = status_at(c.concrete, c.factory, v.path_text());
    let test = test_at(c.tested, status, v.name);
    ImplEntryView {
        type_path: v.path_text(),
        type_kind: v.kind,
        is_generic: v.is_generic,
        lifetime_params: v.lifetime_params,
        type_params: v.type_params,
        elicit_impl: status,
        proof_test: test.0,
        composition_test: composition_at(c.composed, v.name),
        prereqs: prereqs_of(c, v),
        notes: test.1,
    }
}

/// The rows for the types, in their order.
pub open spec fn coverage_rows(c: CoverageInputs) -> Seq<ImplEntryView> {
    c.types.map_values(|v: ItemView| coverage_row(c, v))
}

/// Whether the type at a path has an `ElicitComplete` impl.
pub fn determine_impl_status(path: &str, complete: &ElicitCompleteSet) -> (r: ImplStatus)
    ensures
        r == status_at(views(complete.concrete@), views(complete.factory@), path@),
{
    if has_text(&complete.factory, path) {
        ImplStatus::CompleteFactory
    } else if has_text(&complete.concrete, path) {
        ImplStatus::Complete
    } else {
        ImplStatus::Missing
    }
}

fn is_instantiation(text: &str, name: &str) -> (r: bool)
    ensures
        r == instantiates(text@, name@),
{
    let mut opening = name.to_string();
    opening.append("<");
    starts_with(text, opening.as_str())
}

fn find_instantiation(tested: &Vec<String>, name: &str) -> (r: Option<String>)
    ensures
        opt_view(r) == instantiation_of(views(tested@), name@),
{
    let ghost all = views(tested@);
    let mut found: Option<String> = None;
    let mut i: usize = 0;
    while i < tested.len()
        invariant
            i <= tested.len(),
            all == views(tested@),
            opt_view(found) == instantiation_of(all.take(i as int), name@),
        decreases tested.len() - i,
    {
        proof {
            assert(all.take(i + 1).drop_last() =~= all.take(i as int));
            assert(all.take(i + 1).last() == tested@[i as int]@);
        }
        if found.is_none() && is_instantiation(tested[i].as_str(), name) {
            found = Some(tested[i].clone());
        }
        i += 1;
    }
    proof {
        assert(all.take(i as int) =~= all);
    }
    found
}

fn is_tested_qualified(tested: &Vec<String>, name: &str) -> (r: bool)
    ensures
        r == tested_qualified(views(tested@), name@),
{
    let mut tail = "::".to_string();
    tail.append(name);
    let ghost all = views(tested@);
    let mut i: usize = 0;
    while i < tested.len()
        invariant
            i <= tested.len(),
            all == views(tested@),
            tail@ == "::"@ + name@,
            forall|j: int| 0 <= j < i ==> !ends(#[trigger] all[j], tail@),
        decreases tested.len() - i,
    {
        assert(all[i as int] == tested@[i as int]@);
        if ends_with(tested[i].as_str(), tail.as_str()) {
            return true;
        }
        i += 1;
    }
    false
}

/// Whether the harness tests the composition of a type, or of an instantiation of it.
pub fn check_composition_test(name: &str, harness: &ProofHarness) -> (r: TestStatus)
    ensures
        r@ == composition_at(views(harness.composition_pairs@), name@),
{
    let ghost all = views(harness.composition_pairs@);
    let mut i: usize = 0;
    while i < harness.composition_pairs.len()
        invariant
            i <= harness.composition_pairs.len(),
            all == views(harness.composition_pairs@),
            forall|j: int|
                0 <= j < i ==> (#[trigger] all[j]).0 != name@ && !instantiates(all[j].0, name@),
        decreases harness.composition_pairs.len() - i,
    {
        assert(all[i as int] == (
            harness.composition_pairs@[i as int].0@,
            harness.composition_pairs@[i as int].1@,
        ));
        let outer = harness.composition_pairs[i].0.as_str();
        if str_eq(outer, name) || is_instantiation(outer, name) {
            return TestStatus::Covered;
        }
        i += 1;
    }
    TestStatus::Missing
}

/// Whether the harness tests a type, and what is to be noted.
pub fn determine_test_status(name: &str, impl_status: ImplStatus, harness: &ProofHarness) -> (r: (
    TestStatus,
    String,
))
    ensures
        (r.0@, r.1@) == test_at(views(harness.non_empty_types@), impl_status, name@),
{
    if has_text(&harness.non_empty_types, name) {
        return (TestStatus::Covered, "".to_string());
    }
    if impl_status == ImplStatus::CompleteFactory {
        if let Some(instantiation) = find_instantiation(&harness.non_empty_types, name) {
            let mut notes = "tested as ".to_string();
            notes.append(instantiation.as_str());
            return (TestStatus::CoveredConcrete { instantiation }, notes);
        }
    }
    if is_tested_qualified(&harness.non_empty_types, name) {
        return (TestStatus::Covered, "".to_string());
    }
    (TestStatus::Missing, "".to_string())
}

fn lookup_trait_prereqs(
    item: &Item,
    types: &Vec<&Item>,
    root: &str,
    path: &str,
    prereqs: &Vec<(String, TraitPrereqs)>,
    Ghost(c): Ghost<CoverageInputs>,
) -> (r: TraitPrereqs)
    requires
        c.types == views(types@),
        c.root == root@,
        c.prereqs == keyed(prereqs@),
        path@ == item@.path_text(),
    ensures
        r == prereqs_of(c, item@),
{
    if let Some(p) = find_value(prereqs, path) {
        return *p;
    }
    if let Some(alias) = find_root_alias(types, item, root) {
        if let Some(p) = find_value(prereqs, alias.as_str()) {
            return *p;
        }
    }
    TraitPrereqs::default()
}

/// The report states the coverage of the types of an inventory, by path, and counts them.
pub open spec fn is_report(
    r: ImplCoverageReport,
    source: Inventory,
    complete: ElicitCompleteSet,
    harness: ProofHarness,
    prereqs: Seq<(Seq<char>, TraitPrereqs)>,
) -> bool {
    &&& r.source_crate@ == source.crate_name@
    &&& r.source_version@ == source.crate_version@
    &&& views(r.entries@) == sorted::<ImplCoverageEntry>(
        coverage_rows(coverage_inputs(source, complete, harness, prereqs)),
    )
    &&& r.complete_count == count_if(views(r.entries@), is_complete_entry())
    &&& r.missing_impl_count == count_if(views(r.entries@), is_missing_impl())
    &&& r.missing_test_count == count_if(views(r.entries@), is_missing_test())
    &&& r.flagged_concrete_count == count_if(views(r.entries@), is_flagged_concrete())
}

/// The impl coverage of the types of a crate: which have an `ElicitComplete` impl according to
/// the documentation of our own crate, which the harness tests, and which supertraits they
/// implement according to a table of traits by path.
pub fn build_impl_coverage_report(
    source: &Inventory,
    complete: &ElicitCompleteSet,
    harness: &ProofHarness,
    prereqs_map: &Vec<(String, TraitPrereqs)>,
) -> (r: ImplCoverageReport)
    ensures
        is_report(r, *source, *complete, *harness, keyed(prereqs_map@)),
{
    let types = source.type_items();
    let root = with_underscores(source.crate_name.as_str());
    let ghost c = coverage_inputs(*source, *complete, *harness, keyed(prereqs_map@));
    let ghost rows = coverage_rows(c);
    let mut unsorted: Vec<ImplCoverageEntry> = Vec::new();
    let mut i: usize = 0;
    while i < types.len()
        invariant
            i <= types.len(),
            c == coverage_inputs(*source, *complete, *harness, keyed(prereqs_map@)),
            c.types == views(types@),
            c.root == root@,
            rows == coverage_rows(c),
            views(unsorted@) == rows.take(i as int),
        decreases types.len() - i,
    {
        let ghost held = views(unsorted@);
        let item = types[i];
        let type_path = item.path_str();
        let elicit_impl = determine_impl_status(type_path.as_str(), complete);
        let (proof_test, notes) = determine_test_status(item.name.as_str(), elicit_impl, harness);
        let prereqs = lookup_trait_prereqs(
            item,
            &types,
            root.as_str(),
            type_path.as_str(),
            prereqs_map,
            Ghost(c),
        );
        let entry = ImplCoverageEntry {
            type_path,
            type_kind: item.kind,
            is_generic: item.is_generic,
            lifetime_params: copy_texts(&item.lifetime_params),
            type_params: copy_texts(&item.type_params),
            elicit_impl,
            proof_test,
            composition_test: check_composition_test(item.name.as_str(), harness),
            prereqs,
            notes,
        };
        proof {
            assert(c.types[i as int] == item@);
            assert(rows[i as int] == coverage_row(c, item@));
            assert(entry@ == rows[i as int]);
        }
        unsorted.push(entry);
        proof {
            assert(views(unsorted@) =~= held.push(rows[i as int]));
            assert(rows.take(i + 1) =~= rows.take(i as int).push(rows[i as int]));
        }
        i += 1;
    }
    proof {
        assert(rows.take(i as int) =~= rows);
    }
    let entries = sort_ranked(unsorted);
    let numbers = tally(&entries);
    ImplCoverageReport {
        source_crate: source.crate_name.clone(),
        source_version: source.crate_version.clone(),
        entries,
        complete_count: numbers.complete,
        missing_impl_count: numbers.missing_impl,
        missing_test_count: numbers.missing_test,
        flagged_concrete_count: numbers.flagged_concrete,
    }
}

/// Every type of an inventory is either complete or missing in its report, and each type has
/// one row.
pub proof fn law_report_partition(c: CoverageInputs)
    ensures
        count_if(coverage_rows(c), is_complete_entry()) + count_if(
            coverage_rows(c),
            is_missing_impl(),
        ) == c.types.len(),
{
    lemma_partition(coverage_rows(c));
}

proof fn lemma_partition(rows: Seq<ImplEntryView>)
    requires
        forall|i: int|
            0 <= i < rows.len() ==> (#[trigger] rows[i]).elicit_impl.complete()
                || rows[i].elicit_impl is Missing,
    ensures
        count_if(rows, is_complete_entry()) + count_if(rows, is_missing_impl()) == rows.len(),
    decreases rows.len(),
{
    if rows.len() > 0 {
        assert forall|i: int| 0 <= i < rows.drop_last().len() implies (#[trigger] rows.drop_last()[i]).elicit_impl.complete()
            || rows.drop_last()[i].elicit_impl is Missing by {
            assert(rows.drop_last()[i] == rows[i]);
        }
        lemma_partition(rows.drop_last());
        assert(rows[rows.len() - 1] == rows.last());
    }
}

/// The report has a row for every type of the crate, and the rows come by path.
pub proof fn law_rows_by_path(c: CoverageInputs)
    ensures
        ({
            let rows = sorted::<ImplCoverageEntry>(coverage_rows(c));
            &&& rows.len() == c.types.len()
            &&& forall|i: int, j: int|
                0 <= i < j < rows.len() ==> !text_lt(
                    (#[trigger] rows[j]).type_path,
                    (#[trigger] rows[i]).type_path,
                )
        }),
{
    let rows = sorted::<ImplCoverageEntry>(coverage_rows(c));
    law_sorted_permutes::<ImplCoverageEntry>(coverage_rows(c));
    law_sorted_in_order::<ImplCoverageEntry>(coverage_rows(c));
    assert forall|i: int, j: int| 0 <= i < j < rows.len() implies !text_lt(
        (#[trigger] rows[j]).type_path,
        (#[trigger] rows[i]).type_path,
    ) by {
        assert(!key_lt(ImplCoverageEntry::key(rows[j]), ImplCoverageEntry::key(rows[i])));
        lemma_text_key(rows[j].type_path, rows[i].type_path);
    }
}

}
