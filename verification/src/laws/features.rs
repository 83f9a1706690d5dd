//! What features enable, and which of them lead to support.

use vstd::prelude::*;

use crate::features::{edge_parts, edge_supports, feature_step, feature_supports, is_plain};
use crate::features::{mentions_support, offers_support, reaches, reaches_in, reaches_support};
use crate::features::FeatureTable;
use crate::laws::basics::{is_first_entry, is_key, law_first_entry_counts, law_parts_of_a_text};
use crate::laws::text::{law_replaced_character, law_split_parts, law_stripped, lemma_no_character};
use crate::table::{lemma_position_of, position_of, value_of};
use crate::text::{joined, lowercase, occurs, replaced, split, stripped};

verus! {

/// Enabling a feature enables in one step exactly what its first entry lists, as far as that
/// names a feature of the same package: without a colon and without a slash.
pub proof fn law_one_step(fs: FeatureTable, a: Seq<char>, b: Seq<char>)
    ensures
        feature_step(fs, a, b) <==> !b.contains(':') && !b.contains('/') && exists|i: int| #[trigger]
            is_first_entry(fs, a, i) && fs[i].1.contains(b),
{
    law_first_entry_counts(fs, a);
}

/// What a feature enables is the least that holds the feature itself and is closed under single
/// steps.
pub proof fn law_reaches_is_least(
    fs: FeatureTable,
    a: Seq<char>,
    b: Seq<char>,
    c: Seq<char>,
    holds: spec_fn(Seq<char>) -> bool,
)
    ensures
        reaches(fs, a, a),
        reaches(fs, a, b) && feature_step(fs, b, c) ==> reaches(fs, a, c),
        holds(a) && (forall|x: Seq<char>, y: Seq<char>|
            holds(x) && #[trigger] feature_step(fs, x, y) ==> holds(y)) && reaches(fs, a, b)
            ==> holds(b),
{
    assert(reaches_in(fs, a, a, 0));
    if reaches(fs, a, b) && feature_step(fs, b, c) {
        let n = choose|n: nat| reaches_in(fs, a, b, n);
        assert(reaches_in(fs, a, c, (n + 1) as nat));
    }
    if holds(a) && (forall|x: Seq<char>, y: Seq<char>|
        holds(x) && #[trigger] feature_step(fs, x, y) ==> holds(y)) && reaches(fs, a, b) {
        let n = choose|n: nat| reaches_in(fs, a, b, n);
        lemma_holds(fs, a, b, n, holds);
    }
}

proof fn lemma_holds(
    fs: FeatureTable,
    a: Seq<char>,
    b: Seq<char>,
    n: nat,
    holds: spec_fn(Seq<char>) -> bool,
)
    requires
        holds(a),
        forall|x: Seq<char>, y: Seq<char>|
            holds(x) && #[trigger] feature_step(fs, x, y) ==> holds(y),
        reaches_in(fs, a, b, n),
    ensures
        holds(b),
    decreases n,
{
    if n > 0 {
        let c = choose|c: Seq<char>|
            reaches_in(fs, a, c, (n - 1) as nat) && #[trigger] feature_step(fs, c, b);
        lemma_holds(fs, a, c, (n - 1) as nat, holds);
    }
}

/// The text holds the word.
pub open spec fn holds_word(text: Seq<char>, word: Seq<char>) -> bool {
    exists|a: Seq<char>, b: Seq<char>| text == #[trigger] (a + word + b)
}

/// In lower case, the text speaks of `serde`, `schemars`, a schema or JSON.
pub open spec fn speaks_of_support(text: Seq<char>) -> bool {
    holds_word(lowercase(text), "serde"@) || holds_word(lowercase(text), "schemars"@) || holds_word(
        lowercase(text),
        "schema"@,
    ) || holds_word(lowercase(text), "json"@)
}

/// The edge speaks of support, or a part of it does where it leads out of the package.
pub open spec fn edge_speaks_of_support(edge: Seq<char>) -> bool {
    speaks_of_support(edge) || ((edge.contains(':') || edge.contains('/')) && exists|i: int|
        0 <= i < edge_parts(edge).len() && speaks_of_support(#[trigger] edge_parts(edge)[i]))
}

/// The feature speaks of support, by its name or by an edge of its first entry.
pub open spec fn feature_speaks_of_support(fs: FeatureTable, name: Seq<char>) -> bool {
    speaks_of_support(name) || exists|i: int| #[trigger]
        is_first_entry(fs, name, i) && some_edge_speaks(fs[i].1)
}

/// Some edge of the list speaks of support.
pub open spec fn some_edge_speaks(edges: Seq<Seq<char>>) -> bool {
    exists|n: int| 0 <= n < edges.len() && edge_speaks_of_support(#[trigger] edges[n])
}

proof fn lemma_speaks(text: Seq<char>)
    ensures
        mentions_support(text) == speaks_of_support(text),
{
    law_parts_of_a_text(lowercase(text), "serde"@);
    law_parts_of_a_text(lowercase(text), "schemars"@);
    law_parts_of_a_text(lowercase(text), "schema"@);
    law_parts_of_a_text(lowercase(text), "json"@);
}

proof fn lemma_edge_speaks(edge: Seq<char>)
    ensures
        edge_supports(edge) == edge_speaks_of_support(edge),
{
    lemma_speaks(edge);
    let parts = edge_parts(edge);
    assert forall|i: int| 0 <= i < parts.len() implies mentions_support(#[trigger] parts[i])
        == speaks_of_support(parts[i]) by {
        lemma_speaks(parts[i]);
    }
}

proof fn lemma_feature_speaks(fs: FeatureTable, name: Seq<char>)
    ensures
        feature_supports(fs, name) == feature_speaks_of_support(fs, name),
{
    lemma_speaks(name);
    law_first_entry_counts(fs, name);
    match value_of(fs, name) {
        Some(edges) => {
            let i = choose|i: int| #[trigger] is_first_entry(fs, name, i);
            assert forall|n: int| 0 <= n < edges.len() implies edge_supports(#[trigger] edges[n])
                == edge_speaks_of_support(edges[n]) by {
                lemma_edge_speaks(edges[n]);
            }
            assert(is_first_entry(fs, name, i));
        },
        None => {},
    }
}

/// A feature leads to support exactly when it enables one that speaks of it. Such a feature of
/// the package is offered, unless it is the default one.
pub proof fn law_support_is_reached(fs: FeatureTable, name: Seq<char>)
    ensures
        reaches_support(fs, name) <==> exists|b: Seq<char>|
            #[trigger] reaches(fs, name, b) && feature_speaks_of_support(fs, b),
        offers_support(fs, name) <==> name != "default"@ && is_key(fs, name) && exists|b: Seq<char>|
            #[trigger] reaches(fs, name, b) && feature_speaks_of_support(fs, b),
{
    law_first_entry_counts(fs, name);
    lemma_position_of(fs, name);
    if reaches_support(fs, name) {
        let b = choose|b: Seq<char>| reaches(fs, name, b) && #[trigger] feature_supports(fs, b);
        lemma_feature_speaks(fs, b);
        assert(reaches(fs, name, b) && feature_speaks_of_support(fs, b));
    }
    if exists|b: Seq<char>| #[trigger] reaches(fs, name, b) && feature_speaks_of_support(fs, b) {
        let b = choose|b: Seq<char>| #[trigger]
            reaches(fs, name, b) && feature_speaks_of_support(fs, b);
        lemma_feature_speaks(fs, b);
        assert(feature_supports(fs, b));
    }
}

/// The parts of an edge stand between its slashes, colons and question marks, what is left when
/// `dep:` is taken off its front.
pub proof fn law_edge_parts(edge: Seq<char>)
    ensures
        ({
            let bare = stripped(edge, "dep:"@);
            let text = joined(edge_parts(edge), "/"@);
            &&& text.len() == bare.len()
            &&& forall|i: int|
                0 <= i < bare.len() ==> #[trigger] text[i] == (if bare[i] == '?' || bare[i] == ':' {
                    '/'
                } else {
                    bare[i]
                })
            &&& forall|i: int|
                0 <= i < edge_parts(edge).len() ==> !(#[trigger] edge_parts(edge)[i]).contains('/')
            &&& !"dep:"@.is_prefix_of(bare)
            &&& bare.is_suffix_of(edge)
        }),
{
    reveal_strlit("dep:");
    reveal_strlit("?");
    reveal_strlit(":");
    reveal_strlit("/");
    assert("?"@ =~= seq!['?']);
    assert(":"@ =~= seq![':']);
    assert("/"@ =~= seq!['/']);
    let bare = stripped(edge, "dep:"@);
    let one = replaced(bare, "?"@, "/"@);
    let two = replaced(one, ":"@, "/"@);
    law_stripped(edge, "dep:"@);
    law_replaced_character(bare, '?', '/');
    law_replaced_character(one, ':', '/');
    law_split_parts(two, "/"@);
    let parts = edge_parts(edge);
    assert forall|i: int| 0 <= i < bare.len() implies #[trigger] joined(parts, "/"@)[i] == (
    if bare[i] == '?' || bare[i] == ':' {
        '/'
    } else {
        bare[i]
    }) by {
        assert(two[i] == joined(parts, "/"@)[i]);
        assert(one[i] == if bare[i] == '?' {
            '/'
        } else {
            bare[i]
        });
    }
    assert forall|i: int| 0 <= i < parts.len() implies !(#[trigger] parts[i]).contains('/') by {
        lemma_no_character(parts[i], '/');
    }
}

}
