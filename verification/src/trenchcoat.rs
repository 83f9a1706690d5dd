//! Trenchcoats: types of our own that wrap foreign types and so give them coverage.

use vstd::prelude::*;

use crate::collect::{listed_traits, ElicitCompleteSet, TraitPrereqs};
use crate::harness::text_added;
use crate::order::{key_lt, law_sorted_in_order, law_sorted_permutes, ranked_pair_before};
use crate::order::{sort_ranked, sorted, text_key_before, Key, Ranked};
use crate::table::{find_value, keyed, lemma_position_of, position_of, value_of};
use crate::text::{has_text, join_strs, joined, path_segments, segments, str_eq, views};

verus! {

/// The coverage that one wrapper of our own gives to a foreign type.
#[derive(Clone, Debug, PartialEq, Eq)]
pub struct WrapperCoverage {
    pub wrapper_path: String,
    /// Whether the wrapper has `impl ElicitComplete`.
    pub wrapper_elicit_complete: bool,
    /// Which supertraits the wrapper implements.
    pub wrapper_prereqs: TraitPrereqs,
}

/// The contents of a [`WrapperCoverage`].
#[verifier::ext_equal]
pub struct WrapperView {
    pub wrapper_path: Seq<char>,
    pub wrapper_elicit_complete: bool,
    pub wrapper_prereqs: TraitPrereqs,
}

impl View for WrapperCoverage {
    type V = WrapperView;

    open spec fn view(&self) -> WrapperView {
        WrapperView {
            wrapper_path: self.wrapper_path@,
            wrapper_elicit_complete: self.wrapper_elicit_complete,
            wrapper_prereqs: self.wrapper_prereqs,
        }
    }
}

impl Ranked for WrapperCoverage {
    open spec fn key(v: WrapperView) -> Key {
        (0, seq![v.wrapper_path])
    }

    fn before(&self, other: &Self) -> (r: bool) {
        text_key_before(self.wrapper_path.as_str(), other.wrapper_path.as_str())
    }
}

/// For each foreign type, the wrappers that cover it.
pub type WrapperCoverageMap = Vec<(String, Vec<WrapperCoverage>)>;

/// The contents of a [`WrapperCoverageMap`].
pub open spec fn wrapper_views(s: Seq<(String, Vec<WrapperCoverage>)>) -> Seq<
    (Seq<char>, Seq<WrapperView>),
> {
    s.map_values(|e: (String, Vec<WrapperCoverage>)| (e.0@, views(e.1@)))
}

/// What is known of our own crate: the complete types and the traits of all types.
#[verifier::ext_equal]
pub struct OwnTypes {
    pub concrete: Seq<Seq<char>>,
    pub factory: Seq<Seq<char>>,
    pub prereqs: Seq<(Seq<char>, TraitPrereqs)>,
}

/// The complete types and traits of our own crate, as the functions take them.
pub open spec fn own_types(complete: ElicitCompleteSet, prereqs: Seq<(String, TraitPrereqs)>) -> OwnTypes {
    OwnTypes {
        concrete: views(complete.concrete@),
        factory: views(complete.factory@),
        prereqs: keyed(prereqs),
    }
}

/// What a wrapper covers.
pub open spec fn coverage_of(own: OwnTypes, wrapper: Seq<char>) -> WrapperView {
    WrapperView {
        wrapper_path: wrapper,
        wrapper_elicit_complete: own.concrete.contains(wrapper) || own.factory.contains(wrapper),
        wrapper_prereqs: listed_traits(own.prereqs, wrapper),
    }
}

/// The foreign types of the pairs, in order of first occurrence.
pub open spec fn wrapped_types(pairs: Seq<(Seq<char>, Seq<char>)>) -> Seq<Seq<char>>
    decreases pairs.len(),
{
    if pairs.len() == 0 {
        seq![]
    } else {
        text_added(wrapped_types(pairs.drop_last()), pairs.last().0)
    }
}

/// What the wrappers of a foreign type cover, in the order of the pairs.
pub open spec fn providers_of(
    own: OwnTypes,
    pairs: Seq<(Seq<char>, Seq<char>)>,
    foreign: Seq<char>,
) -> Seq<WrapperView>
    decreases pairs.len(),
{
    if pairs.len() == 0 {
        seq![]
    } else {
        let rest = providers_of(own, pairs.drop_last(), foreign);
        if pairs.last().0 == foreign {
            rest.push(coverage_of(own, pairs.last().1))
        } else {
            rest
        }
    }
}

/// The wrappers of each of the given types, by path.
pub open spec fn coverage_map_of(
    own: OwnTypes,
    pairs: Seq<(Seq<char>, Seq<char>)>,
    types: Seq<Seq<char>>,
) -> Seq<(Seq<char>, Seq<WrapperView>)> {
    types.map_values(
        |t: Seq<char>| (t, sorted::<WrapperCoverage>(providers_of(own, pairs, t))),
    )
}

/// The wrappers of each foreign type, by path.
pub open spec fn coverage_map(own: OwnTypes, pairs: Seq<(Seq<char>, Seq<char>)>) -> Seq<
    (Seq<char>, Seq<WrapperView>),
> {
    coverage_map_of(own, pairs, wrapped_types(pairs))
}

/// The map lists exactly the types that have a wrapper, each with all of its wrappers.
pub proof fn law_coverage_map(own: OwnTypes, pairs: Seq<(Seq<char>, Seq<char>)>, foreign: Seq<char>)
    ensures
        value_of(coverage_map(own, pairs), foreign) == if exists|i: int|
            0 <= i < pairs.len() && (#[trigger] pairs[i]).0 == foreign {
            Some(sorted::<WrapperCoverage>(providers_of(own, pairs, foreign)))
        } else {
            None
        },
{
    let types = wrapped_types(pairs);
    let m = coverage_map(own, pairs);
    lemma_wrapped_types(pairs, foreign);
    lemma_position_of(m, foreign);
    match position_of(m, foreign) {
        Some(i) => {
            assert(types[i] == foreign);
            assert(types.contains(foreign));
        },
        None => {
            if types.contains(foreign) {
                let j = choose|j: int| 0 <= j < types.len() && types[j] == foreign;
                assert(m[j].0 == foreign);
            }
        },
    }
}

proof fn lemma_wrapped_types(pairs: Seq<(Seq<char>, Seq<char>)>, foreign: Seq<char>)
    ensures
        wrapped_types(pairs).contains(foreign) <==> exists|i: int|
            0 <= i < pairs.len() && (#[trigger] pairs[i]).0 == foreign,
    decreases pairs.len(),
{
    if pairs.len() > 0 {
        let init = pairs.drop_last();
        let rest = wrapped_types(init);
        let all = wrapped_types(pairs);
        lemma_wrapped_types(init, foreign);
        if all.contains(foreign) {
            let j = choose|j: int| 0 <= j < all.len() && all[j] == foreign;
            if j < rest.len() {
                assert(rest[j] == foreign);
                let i = choose|i: int| 0 <= i < init.len() && (#[trigger] init[i]).0 == foreign;
                assert(pairs[i].0 == foreign);
            } else {
                assert(pairs[pairs.len() - 1].0 == foreign);
            }
        }
        if exists|i: int| 0 <= i < pairs.len() && (#[trigger] pairs[i]).0 == foreign {
            let i = choose|i: int| 0 <= i < pairs.len() && (#[trigger] pairs[i]).0 == foreign;
            if i < init.len() {
                assert(init[i].0 == foreign);
                let j = choose|j: int| 0 <= j < rest.len() && rest[j] == foreign;
                assert(all[j] == foreign);
            } else if rest.contains(foreign) {
                assert(all == rest);
            } else {
                assert(all[rest.len() as int] == foreign);
            }
        }
    }
}

fn wrapper_coverage(wrapper: &str, complete: &ElicitCompleteSet, prereqs: &Vec<(String, TraitPrereqs)>) -> (r:
    WrapperCoverage)
    ensures
        r@ == coverage_of(own_types(*complete, prereqs@), wrapper@),
{
    WrapperCoverage {
        wrapper_path: wrapper.to_string(),
        wrapper_elicit_complete: has_text(&complete.concrete, wrapper) || has_text(
            &complete.factory,
            wrapper,
        ),
        wrapper_prereqs: match find_value(prereqs, wrapper) {
            Some(p) => *p,
            None => TraitPrereqs::default(),
        },
    }
}

/// The table of wrappers from the pairs of foreign type and wrapper.
pub fn build_wrapper_coverage_map(
    pairs: &Vec<(String, String)>,
    complete_paths: &ElicitCompleteSet,
    wrapper_prereqs: &Vec<(String, TraitPrereqs)>,
) -> (r: WrapperCoverageMap)
    ensures
        wrapper_views(r@) == coverage_map(
            own_types(*complete_paths, wrapper_prereqs@),
            views(pairs@),
        ),
{
    let ghost own = own_types(*complete_paths, wrapper_prereqs@);
    let ghost all = views(pairs@);
    let mut types: Vec<String> = Vec::new();
    let mut i: usize = 0;
    assert(views(types@) =~= seq![]);
    while i < pairs.len()
        invariant
            i <= pairs.len(),
            all == views(pairs@),
            views(types@) == wrapped_types(all.take(i as int)),
        decreases pairs.len() - i,
    {
        let ghost held = views(types@);
        proof {
            assert(all.take(i + 1).drop_last() =~= all.take(i as int));
            assert(all.take(i + 1).last() == (pairs@[i as int].0@, pairs@[i as int].1@));
        }
        if !has_text(&types, pairs[i].0.as_str()) {
            types.push(pairs[i].0.clone());
            assert(views(types@) =~= held.push(pairs@[i as int].0@));
        }
        i += 1;
    }
    proof {
        assert(all.take(i as int) =~= all);
    }
    let ghost named = views(types@);
    let ghost map_view = coverage_map_of(own, all, named);
    let mut map: WrapperCoverageMap = Vec::new();
    let mut j: usize = 0;
    while j < types.len()
        invariant
            j <= types.len(),
            all == views(pairs@),
            own == own_types(*complete_paths, wrapper_prereqs@),
            named == views(types@),
            map_view == coverage_map_of(own, all, named),
            wrapper_views(map@) == map_view.take(j as int),
        decreases types.len() - j,
    {
        let ghost held = wrapper_views(map@);
        let ghost foreign = types@[j as int]@;
        let mut providers: Vec<WrapperCoverage> = Vec::new();
        let mut k: usize = 0;
        assert(views(providers@) =~= seq![]);
        while k < pairs.len()
            invariant
                k <= pairs.len(),
                j < types.len(),
                all == views(pairs@),
                own == own_types(*complete_paths, wrapper_prereqs@),
                foreign == types@[j as int]@,
                views(providers@) == providers_of(own, all.take(k as int), foreign),
            decreases pairs.len() - k,
        {
            let ghost before = views(providers@);
            proof {
                assert(all.take(k + 1).drop_last() =~= all.take(k as int));
                assert(all.take(k + 1).last() == (pairs@[k as int].0@, pairs@[k as int].1@));
            }
            if str_eq(pairs[k].0.as_str(), types[j].as_str()) {
                providers.push(
                    wrapper_coverage(pairs[k].1.as_str(), complete_paths, wrapper_prereqs),
                );
                assert(views(providers@) =~= before.push(coverage_of(own, pairs@[k as int].1@)));
            }
            k += 1;
        }
        proof {
            assert(all.take(k as int) =~= all);
        }
        map.push((types[j].clone(), sort_ranked(providers)));
        proof {
            assert(named[j as int] == foreign);
            assert(map_view[j as int] == (foreign, sorted::<WrapperCoverage>(
                providers_of(own, all, foreign),
            )));
            assert(wrapper_views(map@) =~= held.push(map_view[j as int]));
            assert(map_view.take(j + 1) =~= map_view.take(j as int).push(map_view[j as int]));
        }
        j += 1;
    }
    proof {
        assert(map_view.take(j as int) =~= map_view);
    }
    map
}

/// One row of the trenchcoat report.
#[derive(Clone, Debug)]
pub struct TrenchcoatEntry {
    /// The crate of the foreign type.
    pub foreign_crate: String,
    pub foreign_type: String,
    pub wrapper_path: String,
    /// Whether the wrapper has `impl ElicitComplete`.
    pub wrapper_elicit_complete: bool,
    /// Those of our traits that the wrapper lacks.
    pub wrapper_missing_our_traits: String,
    /// Those of our traits that the foreign type lacks.
    pub foreign_missing_our_traits: String,
}

/// The contents of a [`TrenchcoatEntry`].
#[verifier::ext_equal]
pub struct TrenchcoatView {
    pub foreign_crate: Seq<char>,
    pub foreign_type: Seq<char>,
    pub wrapper_path: Seq<char>,
    pub wrapper_elicit_complete: bool,
    pub wrapper_missing_our_traits: Seq<char>,
    pub foreign_missing_our_traits: Seq<char>,
}

impl View for TrenchcoatEntry {
    type V = TrenchcoatView;

    open spec fn view(&self) -> TrenchcoatView {
        TrenchcoatView {
            foreign_crate: self.foreign_crate@,
            foreign_type: self.foreign_type@,
            wrapper_path: self.wrapper_path@,
            wrapper_elicit_complete: self.wrapper_elicit_complete,
            wrapper_missing_our_traits: self.wrapper_missing_our_traits@,
            foreign_missing_our_traits: self.foreign_missing_our_traits@,
        }
    }
}

impl Ranked for TrenchcoatEntry {
    /// Incomplete wrappers first, then by crate and type.
    open spec fn key(v: TrenchcoatView) -> Key {
        (
            if v.wrapper_elicit_complete {
                1
            } else {
                0
            },
            seq![v.foreign_crate, v.foreign_type],
        )
    }

    fn before(&self, other: &Self) -> (r: bool) {
        let mine: u8 = if self.wrapper_elicit_complete {
            1
        } else {
            0
        };
        let theirs: u8 = if other.wrapper_elicit_complete {
            1
        } else {
            0
        };
        ranked_pair_before(
            mine,
            self.foreign_crate.as_str(),
            self.foreign_type.as_str(),
            theirs,
            other.foreign_crate.as_str(),
            other.foreign_type.as_str(),
        )
    }
}

/// Those of our traits that a type lacks, as reports list them.
pub open spec fn lacking(p: TraitPrereqs) -> Seq<char> {
    joined(p.our_missing(false), ";"@)
}

/// The row for a pair.
pub open spec fn trenchcoat_row(
    own: OwnTypes,
    foreign_prereqs: Seq<(Seq<char>, TraitPrereqs)>,
    pair: (Seq<char>, Seq<char>),
) -> TrenchcoatView {
    let coverage = coverage_of(own, pair.1);
    TrenchcoatView {
        foreign_crate: segments(pair.0)[0],
        foreign_type: pair.0,
        wrapper_path: pair.1,
        wrapper_elicit_complete: coverage.wrapper_elicit_complete,
        wrapper_missing_our_traits: lacking(coverage.wrapper_prereqs),
        foreign_missing_our_traits: lacking(listed_traits(foreign_prereqs, pair.0)),
    }
}

/// The rows for the pairs, in their order.
pub open spec fn trenchcoat_rows(
    own: OwnTypes,
    foreign_prereqs: Seq<(Seq<char>, TraitPrereqs)>,
    pairs: Seq<(Seq<char>, Seq<char>)>,
) -> Seq<TrenchcoatView> {
    pairs.map_values(|p: (Seq<char>, Seq<char>)| trenchcoat_row(own, foreign_prereqs, p))
}

fn missing_our_traits(prereqs: Option<&TraitPrereqs>) -> (r: String)
    ensures
        r@ == lacking(
            match prereqs {
                Some(p) => *p,
                None => TraitPrereqs::none(),
            },
        ),
{
    let p = match prereqs {
        Some(p) => *p,
        None => TraitPrereqs::default(),
    };
    join_strs(&p.missing_our_traits(), ";")
}

/// The trenchcoat report from the pairs of foreign type and wrapper. The traits of wrappers and
/// of foreign types come from tables of their own; a type that a table does not list has none.
pub fn build_trenchcoat_report(
    pairs: &Vec<(String, String)>,
    complete_paths: &ElicitCompleteSet,
    wrapper_prereqs: &Vec<(String, TraitPrereqs)>,
    foreign_prereqs: &Vec<(String, TraitPrereqs)>,
) -> (r: Vec<TrenchcoatEntry>)
    ensures
        views(r@) == sorted::<TrenchcoatEntry>(
            trenchcoat_rows(
                own_types(*complete_paths, wrapper_prereqs@),
                keyed(foreign_prereqs@),
                views(pairs@),
            ),
        ),
{
    let ghost own = own_types(*complete_paths, wrapper_prereqs@);
    let ghost all = views(pairs@);
    let ghost rows = trenchcoat_rows(own, keyed(foreign_prereqs@), all);
    let mut entries: Vec<TrenchcoatEntry> = Vec::new();
    let mut i: usize = 0;
    while i < pairs.len()
        invariant
            i <= pairs.len(),
            all == views(pairs@),
            own == own_types(*complete_paths, wrapper_prereqs@),
            rows == trenchcoat_rows(own, keyed(foreign_prereqs@), all),
            views(entries@) == rows.take(i as int),
        decreases pairs.len() - i,
    {
        let ghost held = views(entries@);
        let foreign = pairs[i].0.as_str();
        let parts = path_segments(foreign);
        let coverage = wrapper_coverage(pairs[i].1.as_str(), complete_paths, wrapper_prereqs);
        let entry = TrenchcoatEntry {
            foreign_crate: parts[0].clone(),
            foreign_type: pairs[i].0.clone(),
            wrapper_path: pairs[i].1.clone(),
            wrapper_elicit_complete: coverage.wrapper_elicit_complete,
            wrapper_missing_our_traits: missing_our_traits(Some(&coverage.wrapper_prereqs)),
            foreign_missing_our_traits: missing_our_traits(find_value(foreign_prereqs, foreign)),
        };
        proof {
            assert(views(parts@)[0] == parts@[0]@);
            assert(all[i as int] == (pairs@[i as int].0@, pairs@[i as int].1@));
            assert(entry@ == rows[i as int]);
        }
        entries.push(entry);
        proof {
            assert(views(entries@) =~= held.push(rows[i as int]));
            assert(rows.take(i + 1) =~= rows.take(i as int).push(rows[i as int]));
        }
        i += 1;
    }
    proof {
        assert(rows.take(i as int) =~= rows);
    }
    sort_ranked(entries)
}

/// The report has a row for every pair, and incomplete wrappers come first.
pub proof fn law_incomplete_wrappers_first(
    own: OwnTypes,
    foreign_prereqs: Seq<(Seq<char>, TraitPrereqs)>,
    pairs: Seq<(Seq<char>, Seq<char>)>,
)
    ensures
        ({
            let report = sorted::<TrenchcoatEntry>(trenchcoat_rows(own, foreign_prereqs, pairs));
            &&& report.len() == pairs.len()
            &&& forall|i: int, j: int|
                0 <= i < j < report.len() && (#[trigger] report[i]).wrapper_elicit_complete ==> (
                #[trigger] report[j]).wrapper_elicit_complete
        }),
{
    let rows = trenchcoat_rows(own, foreign_prereqs, pairs);
    let report = sorted::<TrenchcoatEntry>(rows);
    law_sorted_permutes::<TrenchcoatEntry>(rows);
    law_sorted_in_order::<TrenchcoatEntry>(rows);
    assert forall|i: int, j: int|
        0 <= i < j < report.len() && (#[trigger] report[i]).wrapper_elicit_complete implies (
    #[trigger] report[j]).wrapper_elicit_complete by {
        assert(!key_lt(TrenchcoatEntry::key(report[j]), TrenchcoatEntry::key(report[i])));
    }
}

}
