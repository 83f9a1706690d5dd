//! Cargo features: which of them lead to serde and schema support, and what they enable.

use vstd::prelude::*;

use crate::order::{ascending, sorted_distinct};
use crate::table::{find_key, keyed, lemma_position_of, lemma_same_keys, position_of, value_of};
use crate::text::{contains_char, contains_text, has_text, lowercase, occurs, replace_text};
use crate::text::{replaced, split, split_text, str_eq, str_lowercase, strip_all, stripped, views};

verus! {

/// The features of a package, each with what it enables.
pub type FeatureTable = Seq<(Seq<char>, Seq<Seq<char>>)>;

/// The contents of a table of features.
pub open spec fn feature_views(s: Seq<(String, Vec<String>)>) -> FeatureTable {
    s.map_values(|e: (String, Vec<String>)| (e.0@, views(e.1@)))
}

/// The edge names a feature of the same package.
pub open spec fn is_plain(edge: Seq<char>) -> bool {
    !edge.contains(':') && !edge.contains('/')
}

/// Enabling `a` enables the feature `b` of the same package.
pub open spec fn feature_step(fs: FeatureTable, a: Seq<char>, b: Seq<char>) -> bool {
    is_plain(b) && match value_of(fs, a) {
        Some(edges) => edges.contains(b),
        None => false,
    }
}

/// Enabling `a` enables `b` through `n` edges.
pub open spec fn reaches_in(fs: FeatureTable, a: Seq<char>, b: Seq<char>, n: nat) -> bool
    decreases n,
{
    if n == 0 {
        a == b
    } else {
        exists|c: Seq<char>|
            reaches_in(fs, a, c, (n - 1) as nat) && #[trigger] feature_step(fs, c, b)
    }
}

/// Enabling `a` enables `b`.
pub open spec fn reaches(fs: FeatureTable, a: Seq<char>, b: Seq<char>) -> bool {
    exists|n: nat| reaches_in(fs, a, b, n)
}

/// Enabling the features of a list enables `x`.
pub open spec fn enabled_by(fs: FeatureTable, start: Seq<Seq<char>>, x: Seq<char>) -> bool {
    exists|a: Seq<char>| #[trigger] start.contains(a) && reaches(fs, a, x)
}

/// A text in lower case holds a word for serialization or for schemas.
pub open spec fn has_support_word(lower: Seq<char>) -> bool {
    occurs(lower, "serde"@) || occurs(lower, "schemars"@) || occurs(lower, "schema"@) || occurs(
        lower,
        "json"@,
    )
}

/// The text speaks of serialization or of schemas, in whatever case.
pub open spec fn mentions_support(text: Seq<char>) -> bool {
    has_support_word(lowercase(text))
}

/// The parts of an edge to another package.
pub open spec fn edge_parts(edge: Seq<char>) -> Seq<Seq<char>> {
    split(replaced(replaced(stripped(edge, "dep:"@), "?"@, "/"@), ":"@, "/"@), "/"@)
}

/// The edge leads to support, by itself or by a part of it.
pub open spec fn edge_supports(edge: Seq<char>) -> bool {
    mentions_support(edge) || (!is_plain(edge) && exists|i: int|
        0 <= i < edge_parts(edge).len() && mentions_support(#[trigger] edge_parts(edge)[i]))
}

/// The feature leads to support, by its name or by one of its edges.
pub open spec fn feature_supports(fs: FeatureTable, name: Seq<char>) -> bool {
    mentions_support(name) || match value_of(fs, name) {
        Some(edges) => exists|i: int| 0 <= i < edges.len() && edge_supports(#[trigger] edges[i]),
        None => false,
    }
}

/// Enabling the feature leads to support.
pub open spec fn reaches_support(fs: FeatureTable, root: Seq<char>) -> bool {
    exists|b: Seq<char>| reaches(fs, root, b) && #[trigger] feature_supports(fs, b)
}

/// The feature of a package can bring support, the default feature aside.
pub open spec fn offers_support(fs: FeatureTable, name: Seq<char>) -> bool {
    name != "default"@ && position_of(fs, name) is Some && reaches_support(fs, name)
}

proof fn lemma_reaches_step(fs: FeatureTable, a: Seq<char>, c: Seq<char>, b: Seq<char>)
    requires
        reaches(fs, a, c),
        feature_step(fs, c, b),
    ensures
        reaches(fs, a, b),
{
    let n = choose|n: nat| reaches_in(fs, a, c, n);
    assert(reaches_in(fs, a, b, (n + 1) as nat));
}

proof fn lemma_reaches_chain(fs: FeatureTable, a: Seq<char>, b: Seq<char>, c: Seq<char>, n: nat)
    requires
        reaches(fs, a, b),
        reaches_in(fs, b, c, n),
    ensures
        reaches(fs, a, c),
    decreases n,
{
    if n > 0 {
        let d = choose|d: Seq<char>|
            reaches_in(fs, b, d, (n - 1) as nat) && #[trigger] feature_step(fs, d, c);
        lemma_reaches_chain(fs, a, b, d, (n - 1) as nat);
        lemma_reaches_step(fs, a, d, c);
    }
}

/// What features enable contains the features themselves.
pub proof fn law_enabled_contains_start(fs: FeatureTable, start: Seq<Seq<char>>, x: Seq<char>)
    requires
        start.contains(x),
    ensures
        enabled_by(fs, start, x),
{
    assert(reaches_in(fs, x, x, 0));
}

/// What features enable is closed: whatever an enabled feature enables is enabled.
pub proof fn law_enabled_is_closed(fs: FeatureTable, start: Seq<Seq<char>>, x: Seq<char>, y: Seq<char>)
    requires
        enabled_by(fs, start, x),
        reaches(fs, x, y),
    ensures
        enabled_by(fs, start, y),
{
    let a = choose|a: Seq<char>| #[trigger] start.contains(a) && reaches(fs, a, x);
    let n = choose|n: nat| reaches_in(fs, x, y, n);
    lemma_reaches_chain(fs, a, x, y, n);
}

/// Expanding what was expanded adds nothing.
pub proof fn law_expansion_idempotent(
    fs: FeatureTable,
    start: Seq<Seq<char>>,
    expanded: Seq<Seq<char>>,
    x: Seq<char>,
)
    requires
        forall|y: Seq<char>| #[trigger] expanded.contains(y) <==> enabled_by(fs, start, y),
    ensures
        enabled_by(fs, expanded, x) <==> expanded.contains(x),
{
    if enabled_by(fs, expanded, x) {
        let a = choose|a: Seq<char>| #[trigger] expanded.contains(a) && reaches(fs, a, x);
        law_enabled_is_closed(fs, start, a, x);
    }
    if expanded.contains(x) {
        law_enabled_contains_start(fs, expanded, x);
    }
}

/// More features enable no less.
pub proof fn law_enabled_monotone(
    fs: FeatureTable,
    start: Seq<Seq<char>>,
    more: Seq<Seq<char>>,
    x: Seq<char>,
)
    requires
        forall|y: Seq<char>| #[trigger] start.contains(y) ==> more.contains(y),
        enabled_by(fs, start, x),
    ensures
        enabled_by(fs, more, x),
{
    let a = choose|a: Seq<char>| #[trigger] start.contains(a) && reaches(fs, a, x);
    assert(more.contains(a));
}

spec fn all_edges(fs: FeatureTable) -> Seq<Seq<char>>
    decreases fs.len(),
{
    if fs.len() == 0 {
        seq![]
    } else {
        all_edges(fs.drop_last()) + fs.last().1
    }
}

proof fn lemma_all_edges(fs: FeatureTable, i: int, b: Seq<char>)
    requires
        0 <= i < fs.len(),
        fs[i].1.contains(b),
    ensures
        all_edges(fs).contains(b),
    decreases fs.len(),
{
    let rest = all_edges(fs.drop_last());
    let last = fs.last().1;
    if i == fs.len() - 1 {
        let j = choose|j: int| 0 <= j < last.len() && last[j] == b;
        assert((rest + last)[rest.len() + j] == b);
    } else {
        assert(fs.drop_last()[i] == fs[i]);
        lemma_all_edges(fs.drop_last(), i, b);
        let j = choose|j: int| 0 <= j < rest.len() && rest[j] == b;
        assert((rest + last)[j] == b);
    }
}

proof fn lemma_distinct_len(s: Seq<Seq<char>>, u: Seq<Seq<char>>)
    requires
        s.no_duplicates(),
        forall|j: int| 0 <= j < s.len() ==> u.contains(#[trigger] s[j]),
    ensures
        s.len() <= u.len(),
{
    s.unique_seq_to_set();
    assert(s.to_set().subset_of(u.to_set())) by {
        assert forall|x: Seq<char>| s.to_set().contains(x) implies u.to_set().contains(x) by {
            let j = choose|j: int| 0 <= j < s.len() && s[j] == x;
            assert(u.contains(s[j]));
        }
    }
    vstd::seq_lib::seq_to_set_is_finite(u);
    vstd::set_lib::lemma_len_subset(s.to_set(), u.to_set());
    u.lemma_cardinality_of_set();
}

spec fn closed_upto(fs: FeatureTable, s: Seq<Seq<char>>, i: int) -> bool {
    forall|j: int, b: Seq<char>| 0 <= j < i && #[trigger] feature_step(fs, s[j], b) ==> s.contains(b)
}

spec fn all_enabled(fs: FeatureTable, start: Seq<Seq<char>>, s: Seq<Seq<char>>) -> bool {
    forall|j: int| 0 <= j < s.len() ==> enabled_by(fs, start, #[trigger] s[j])
}

spec fn all_among(s: Seq<Seq<char>>, u: Seq<Seq<char>>) -> bool {
    forall|j: int| 0 <= j < s.len() ==> u.contains(#[trigger] s[j])
}

spec fn holds_all(s: Seq<Seq<char>>, start: Seq<Seq<char>>) -> bool {
    forall|x: Seq<char>| #[trigger] start.contains(x) ==> s.contains(x)
}

proof fn lemma_push(
    fs: FeatureTable,
    start: Seq<Seq<char>>,
    u: Seq<Seq<char>>,
    s: Seq<Seq<char>>,
    i: int,
    b: Seq<char>,
)
    requires
        0 <= i <= s.len(),
        s.no_duplicates(),
        closed_upto(fs, s, i),
        all_enabled(fs, start, s),
        all_among(s, u),
        !s.contains(b),
        enabled_by(fs, start, b),
        u.contains(b),
    ensures
        s.push(b).no_duplicates(),
        closed_upto(fs, s.push(b), i),
        all_enabled(fs, start, s.push(b)),
        all_among(s.push(b), u),
        forall|x: Seq<char>| #[trigger] s.push(b).contains(x) <==> s.contains(x) || x == b,
{
    let t = s.push(b);
    assert forall|x: Seq<char>| #[trigger] t.contains(x) <==> s.contains(x) || x == b by {
        if s.contains(x) {
            let j = choose|j: int| 0 <= j < s.len() && s[j] == x;
            assert(t[j] == x);
        }
        if x == b {
            assert(t[s.len() as int] == x);
        }
        if t.contains(x) {
            let j = choose|j: int| 0 <= j < t.len() && t[j] == x;
            if j < s.len() {
                assert(s[j] == x);
            }
        }
    }
    assert forall|j: int, y: Seq<char>| 0 <= j < i && #[trigger] feature_step(fs, t[j], y) implies t.contains(y) by {
        assert(t[j] == s[j]);
        assert(feature_step(fs, s[j], y));
    }
    assert forall|j: int| 0 <= j < t.len() implies enabled_by(fs, start, #[trigger] t[j]) by {
        if j < s.len() {
            assert(t[j] == s[j]);
        }
    }
    assert forall|j: int| 0 <= j < t.len() implies u.contains(#[trigger] t[j]) by {
        if j < s.len() {
            assert(t[j] == s[j]);
        }
    }
}

proof fn lemma_closed_holds(fs: FeatureTable, s: Seq<Seq<char>>, a: Seq<char>, x: Seq<char>, n: nat)
    requires
        closed_upto(fs, s, s.len() as int),
        s.contains(a),
        reaches_in(fs, a, x, n),
    ensures
        s.contains(x),
    decreases n,
{
    if n > 0 {
        let c = choose|c: Seq<char>|
            reaches_in(fs, a, c, (n - 1) as nat) && #[trigger] feature_step(fs, c, x);
        lemma_closed_holds(fs, s, a, c, (n - 1) as nat);
        let j = choose|j: int| 0 <= j < s.len() && s[j] == c;
        assert(feature_step(fs, s[j], x));
    }
}

fn find_edges<'a>(features: &'a Vec<(String, Vec<String>)>, name: &str) -> (r: Option<&'a Vec<String>>)
    ensures
        match r {
            Some(edges) => value_of(feature_views(features@), name@) == Some(views(edges@)),
            None => value_of(feature_views(features@), name@) is None,
        },
{
    proof {
        lemma_same_keys(keyed(features@), feature_views(features@), name@);
    }
    match find_key(features, name) {
        Some(i) => Some(&features[i].1),
        None => None,
    }
}

fn names_own_feature(edge: &str) -> (r: bool)
    ensures
        r == is_plain(edge@),
{
    !contains_char(edge, ':') && !contains_char(edge, '/')
}

/// All features that the features of a list enable.
fn enabled_features(features: &Vec<(String, Vec<String>)>, start: &Vec<String>) -> (r: Vec<String>)
    ensures
        forall|x: Seq<char>| #[trigger]
            views(r@).contains(x) <==> enabled_by(feature_views(features@), views(start@), x),
{
    let ghost fs = feature_views(features@);
    let ghost first = views(start@);
    let ghost u = first + all_edges(fs);
    let mut out: Vec<String> = Vec::new();
    let mut k: usize = 0;
    assert(views(out@) =~= seq![]);
    while k < start.len()
        invariant
            k <= start.len(),
            first == views(start@),
            u == first + all_edges(fs),
            views(out@).no_duplicates(),
            closed_upto(fs, views(out@), 0),
            all_enabled(fs, first, views(out@)),
            all_among(views(out@), u),
            forall|m: int| 0 <= m < k ==> views(out@).contains(#[trigger] first[m]),
        decreases start.len() - k,
    {
        let ghost s = views(out@);
        assert(first[k as int] == start@[k as int]@);
        if !has_text(&out, start[k].as_str()) {
            proof {
                let x = first[k as int];
                assert(u[k as int] == x);
                law_enabled_contains_start(fs, first, x);
                lemma_push(fs, first, u, s, 0, x);
            }
            out.push(start[k].clone());
            assert(views(out@) =~= s.push(first[k as int]));
        }
        k += 1;
    }
    assert(holds_all(views(out@), first)) by {
        assert forall|x: Seq<char>| #[trigger] first.contains(x) implies views(out@).contains(x) by {
            let m = choose|m: int| 0 <= m < first.len() && first[m] == x;
            assert(views(out@).contains(first[m]));
        }
    }
    let mut i: usize = 0;
    while i < out.len()
        invariant
            i <= out.len(),
            fs == feature_views(features@),
            u == first + all_edges(fs),
            views(out@).no_duplicates(),
            closed_upto(fs, views(out@), i as int),
            all_enabled(fs, first, views(out@)),
            all_among(views(out@), u),
            holds_all(views(out@), first),
        decreases u.len() - i,
    {
        let name = out[i].clone();
        proof {
            lemma_distinct_len(views(out@), u);
            assert(views(out@)[i as int] == name@);
        }
        if let Some(edges) = find_edges(features, name.as_str()) {
            let ghost es = views(edges@);
            let mut m: usize = 0;
            while m < edges.len()
                invariant
                    m <= edges.len(),
                    i < out.len(),
                    fs == feature_views(features@),
                    u == first + all_edges(fs),
                    es == views(edges@),
                    value_of(fs, name@) == Some(es),
                    views(out@)[i as int] == name@,
                    views(out@).no_duplicates(),
                    closed_upto(fs, views(out@), i as int),
                    all_enabled(fs, first, views(out@)),
                    all_among(views(out@), u),
                    holds_all(views(out@), first),
                    forall|j: int|
                        0 <= j < m && is_plain(#[trigger] es[j]) ==> views(out@).contains(es[j]),
                decreases edges.len() - m,
            {
                let ghost s = views(out@);
                let ghost b = es[m as int];
                assert(b == edges@[m as int]@);
                if names_own_feature(edges[m].as_str()) && !has_text(&out, edges[m].as_str()) {
                    proof {
                        assert(es.contains(b));
                        assert(feature_step(fs, name@, b));
                        assert(enabled_by(fs, first, s[i as int]));
                        let a = choose|a: Seq<char>|
                            #[trigger] first.contains(a) && reaches(fs, a, name@);
                        lemma_reaches_step(fs, a, name@, b);
                        lemma_position_of(fs, name@);
                        lemma_all_edges(fs, position_of(fs, name@)->0, b);
                        let ae = all_edges(fs);
                        let j = choose|j: int| 0 <= j < ae.len() && ae[j] == b;
                        assert(u[first.len() + j] == b);
                        lemma_push(fs, first, u, s, i as int, b);
                    }
                    out.push(edges[m].clone());
                    proof {
                        assert(views(out@) =~= s.push(b));
                        assert forall|j: int| 0 <= j < m + 1 && is_plain(#[trigger] es[j]) implies views(
                            out@,
                        ).contains(es[j]) by {
                            if j < m {
                                assert(s.contains(es[j]));
                            }
                        }
                    }
                }
                m += 1;
            }
            assert(closed_upto(fs, views(out@), i + 1)) by {
                let s = views(out@);
                assert forall|j: int, b: Seq<char>| 0 <= j < i + 1 && #[trigger] feature_step(fs, s[j], b) implies s.contains(
                b) by {
                    if j == i {
                        let q = choose|q: int| 0 <= q < es.len() && es[q] == b;
                        assert(is_plain(es[q]));
                    }
                }
            }
        } else {
            assert(closed_upto(fs, views(out@), i + 1)) by {
                let s = views(out@);
                assert forall|j: int, b: Seq<char>| 0 <= j < i + 1 && #[trigger] feature_step(fs, s[j], b) implies s.contains(
                b) by {
                    if j == i {
                        assert(value_of(fs, s[j]) is None);
                    }
                }
            }
        }
        i += 1;
    }
    proof {
        let s = views(out@);
        assert forall|x: Seq<char>| #[trigger] s.contains(x) <==> enabled_by(fs, first, x) by {
            if s.contains(x) {
                let j = choose|j: int| 0 <= j < s.len() && s[j] == x;
                assert(enabled_by(fs, first, s[j]));
            }
            if enabled_by(fs, first, x) {
                let a = choose|a: Seq<char>| #[trigger] first.contains(a) && reaches(fs, a, x);
                let n = choose|n: nat| reaches_in(fs, a, x, n);
                lemma_closed_holds(fs, s, a, x, n);
            }
        }
    }
    out
}

/// Whether a text in lower case holds a word for serialization or for schemas.
pub fn holds_support_word(lower: &str) -> (r: bool)
    ensures
        r == has_support_word(lower@),
{
    contains_text(lower, "serde") || contains_text(lower, "schemars") || contains_text(
        lower,
        "schema",
    ) || contains_text(lower, "json")
}

fn speaks_of_support(text: &str) -> (r: bool)
    ensures
        r == mentions_support(text@),
{
    holds_support_word(str_lowercase(text).as_str())
}

/// The parts of an edge to another package: its package, its feature and what marks them.
pub fn split_edge(edge: &str) -> (r: Vec<String>)
    ensures
        views(r@) == edge_parts(edge@),
{
    proof {
        reveal_strlit("dep:");
        reveal_strlit("?");
        reveal_strlit(":");
        reveal_strlit("/");
    }
    let bare = strip_all(edge, "dep:");
    let unmarked = replace_text(bare.as_str(), "?", "/");
    let normalized = replace_text(unmarked.as_str(), ":", "/");
    split_text(normalized.as_str(), "/")
}

fn edge_leads_to_support(edge: &str) -> (r: bool)
    ensures
        r == edge_supports(edge@),
{
    if speaks_of_support(edge) {
        return true;
    }
    if names_own_feature(edge) {
        return false;
    }
    let parts = split_edge(edge);
    let ghost ps = edge_parts(edge@);
    let mut i: usize = 0;
    while i < parts.len()
        invariant
            i <= parts.len(),
            ps == views(parts@),
            ps == edge_parts(edge@),
            !is_plain(edge@),
            forall|j: int| 0 <= j < i ==> !mentions_support(#[trigger] ps[j]),
        decreases parts.len() - i,
    {
        assert(ps[i as int] == parts@[i as int]@);
        if speaks_of_support(parts[i].as_str()) {
            return true;
        }
        i += 1;
    }
    false
}

proof fn lemma_edge_supports(fs: FeatureTable, name: Seq<char>, i: int)
    requires
        value_of(fs, name) is Some,
        0 <= i < value_of(fs, name)->0.len(),
        edge_supports(value_of(fs, name)->0[i]),
    ensures
        feature_supports(fs, name),
{
}

fn feature_leads_to_support(features: &Vec<(String, Vec<String>)>, name: &str) -> (r: bool)
    ensures
        r == feature_supports(feature_views(features@), name@),
{
    if speaks_of_support(name) {
        return true;
    }
    if let Some(edges) = find_edges(features, name) {
        let ghost es = views(edges@);
        let mut i: usize = 0;
        while i < edges.len()
            invariant
                i <= edges.len(),
                es == views(edges@),
                value_of(feature_views(features@), name@) == Some(es),
                forall|j: int| 0 <= j < i ==> !edge_supports(#[trigger] es[j]),
            decreases edges.len() - i,
        {
            assert(es[i as int] == edges@[i as int]@);
            if edge_leads_to_support(edges[i].as_str()) {
                proof {
                    lemma_edge_supports(feature_views(features@), name@, i as int);
                }
                return true;
            }
            i += 1;
        }
    }
    false
}

/// Whether enabling a feature leads to serialization or schema support, through however many
/// features of the same package.
pub fn feature_reaches_external_support(root: &str, features: &Vec<(String, Vec<String>)>) -> (r: bool)
    ensures
        r == reaches_support(feature_views(features@), root@),
{
    let mut start: Vec<String> = Vec::new();
    start.push(root.to_string());
    let ghost fs = feature_views(features@);
    let ghost first = views(start@);
    let enabled = enabled_features(features, &start);
    let ghost s = views(enabled@);
    let mut i: usize = 0;
    proof {
        assert(first[0] == root@);
    }
    while i < enabled.len()
        invariant
            i <= enabled.len(),
            fs == feature_views(features@),
            s == views(enabled@),
            first.len() == 1,
            first[0] == root@,
            forall|x: Seq<char>| #[trigger] s.contains(x) <==> enabled_by(fs, first, x),
            forall|j: int| 0 <= j < i ==> !feature_supports(fs, #[trigger] s[j]),
        decreases enabled.len() - i,
    {
        assert(s[i as int] == enabled@[i as int]@);
        if feature_leads_to_support(features, enabled[i].as_str()) {
            proof {
                assert(s.contains(s[i as int]));
                let a = choose|a: Seq<char>|
                    #[trigger] first.contains(a) && reaches(fs, a, s[i as int]);
                assert(a == root@);
            }
            return true;
        }
        i += 1;
    }
    proof {
        if reaches_support(fs, root@) {
            let b = choose|b: Seq<char>| reaches(fs, root@, b) && #[trigger] feature_supports(fs, b);
            assert(first.contains(first[0]));
            assert(enabled_by(fs, first, b));
            assert(s.contains(b));
            let j = choose|j: int| 0 <= j < s.len() && s[j] == b;
            assert(!feature_supports(fs, s[j]));
        }
    }
    false
}

/// The features of a package that can bring serialization or schema support, in order.
pub fn collect_available_serde_features(features: &Vec<(String, Vec<String>)>) -> (r: Vec<String>)
    ensures
        ascending(views(r@)),
        forall|x: Seq<char>| #[trigger]
            views(r@).contains(x) <==> offers_support(feature_views(features@), x),
{
    let ghost fs = feature_views(features@);
    let mut names: Vec<String> = Vec::new();
    let mut i: usize = 0;
    assert(views(names@) =~= seq![]);
    while i < features.len()
        invariant
            i <= features.len(),
            fs == feature_views(features@),
            forall|j: int|
                0 <= j < views(names@).len() ==> offers_support(fs, #[trigger] views(names@)[j]),
            forall|j: int|
                0 <= j < i && offers_support(fs, (#[trigger] fs[j]).0) ==> views(names@).contains(
                    fs[j].0,
                ),
        decreases features.len() - i,
    {
        let ghost held = views(names@);
        let ghost name = fs[i as int].0;
        assert(name == features@[i as int].0@);
        proof {
            lemma_position_of(fs, name);
            if position_of(fs, name) is None {
                assert(fs[i as int].0 != name);
            }
        }
        if !str_eq(features[i].0.as_str(), "default") && feature_reaches_external_support(
            features[i].0.as_str(),
            features,
        ) {
            names.push(features[i].0.clone());
            proof {
                let n = views(names@);
                assert(n =~= held.push(name));
                assert(n[held.len() as int] == name);
                assert forall|j: int| 0 <= j < i + 1 && offers_support(fs, (#[trigger] fs[j]).0) implies n.contains(
                fs[j].0) by {
                    if j < i {
                        assert(held.contains(fs[j].0));
                        let q = choose|q: int| 0 <= q < held.len() && held[q] == fs[j].0;
                        assert(n[q] == fs[j].0);
                    }
                }
                assert forall|j: int| 0 <= j < n.len() implies offers_support(fs, #[trigger] n[j]) by {
                    if j < held.len() {
                        assert(n[j] == held[j]);
                    }
                }
            }
        }
        i += 1;
    }
    proof {
        let n = views(names@);
        assert forall|x: Seq<char>| #[trigger] n.contains(x) <==> offers_support(fs, x) by {
            if n.contains(x) {
                let j = choose|j: int| 0 <= j < n.len() && n[j] == x;
                assert(offers_support(fs, n[j]));
            }
            if offers_support(fs, x) {
                lemma_position_of(fs, x);
                let j = position_of(fs, x)->0;
                assert(fs[j].0 == x);
            }
        }
    }
    sorted_distinct(&names)
}

/// The features that activated features enable in their own package, in order. An alias such as
/// `use-serde` thus counts as the feature it stands for.
pub fn expand_same_package_features(features: &Vec<(String, Vec<String>)>, activated: &Vec<String>) -> (r: Vec<
    String,
>)
    ensures
        ascending(views(r@)),
        forall|x: Seq<char>| #[trigger]
            views(r@).contains(x) <==> enabled_by(feature_views(features@), views(activated@), x),
{
    let enabled = enabled_features(features, activated);
    let r = sorted_distinct(&enabled);
    proof {
        assert forall|x: Seq<char>| #[trigger] views(r@).contains(x) <==> enabled_by(
            feature_views(features@),
            views(activated@),
            x,
        ) by {
            assert(views(enabled@).contains(x) <==> views(r@).contains(x));
        }
    }
    r
}

}
