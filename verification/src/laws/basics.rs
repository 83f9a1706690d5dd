//! Tables, traits, numbers and texts, as the other laws speak of them.

use vstd::prelude::*;

use crate::collect::TraitPrereqs;
use crate::count::count_if;
use crate::table::{first_where, keyed, lemma_position_of, position_of, value_of};
use crate::text::{decimal, digit, ends, joined, occurs, starts, text_lt, trimmed, underscored, views};

verus! {

/// A list of one name, empty where something is there already.
pub open spec fn unless(present: bool, name: Seq<char>) -> Seq<Seq<char>> {
    if present {
        seq![]
    } else {
        seq![name]
    }
}

/// None of the traits is there.
pub open spec fn no_traits(p: TraitPrereqs) -> bool {
    &&& !p.serialize
    &&& !p.deserialize
    &&& !p.json_schema
    &&& !p.elicitation_trait
    &&& !p.elicit_introspect
    &&& !p.elicit_spec
    &&& !p.elicit_prompt_tree
    &&& !p.to_code_literal
}

/// The names of the missing traits come in the order of the traits, and only those that are not
/// there. Where lifetimes block it, `Elicitation` and `ElicitIntrospect` are not asked for.
pub proof fn law_missing_traits(p: TraitPrereqs)
    ensures
        p.our_missing(false) == unless(p.elicitation_trait, "Elicitation"@) + unless(
            p.elicit_introspect,
            "ElicitIntrospect"@,
        ) + unless(p.elicit_spec, "ElicitSpec"@) + unless(p.elicit_prompt_tree, "ElicitPromptTree"@)
            + unless(p.to_code_literal, "ToCodeLiteral"@),
        p.our_missing(true) == unless(p.elicit_spec, "ElicitSpec"@) + unless(
            p.elicit_prompt_tree,
            "ElicitPromptTree"@,
        ) + unless(p.to_code_literal, "ToCodeLiteral"@),
        p.external_missing() == unless(p.serialize, "Serialize"@) + unless(
            p.deserialize,
            "Deserialize"@,
        ) + unless(p.json_schema, "JsonSchema"@),
        p.external_absent() == unless(p.serialize, "Serialize(absent)"@) + unless(
            p.deserialize,
            "Deserialize(absent)"@,
        ) + unless(p.json_schema, "JsonSchema(absent)"@),
        p.direct() <==> p.serialize && p.deserialize && p.json_schema,
        p.ours() <==> p.elicitation_trait && p.elicit_introspect && p.elicit_spec
            && p.elicit_prompt_tree && p.to_code_literal,
        no_traits(TraitPrereqs::none()),
        no_traits(p) ==> p == TraitPrereqs::none(),
{
    assert(p.our_missing(false) =~= unless(p.elicitation_trait, "Elicitation"@) + unless(
        p.elicit_introspect,
        "ElicitIntrospect"@,
    ) + unless(p.elicit_spec, "ElicitSpec"@) + unless(p.elicit_prompt_tree, "ElicitPromptTree"@)
        + unless(p.to_code_literal, "ToCodeLiteral"@));
    assert(p.our_missing(true) =~= unless(p.elicit_spec, "ElicitSpec"@) + unless(
        p.elicit_prompt_tree,
        "ElicitPromptTree"@,
    ) + unless(p.to_code_literal, "ToCodeLiteral"@));
    assert(p.external_missing() =~= unless(p.serialize, "Serialize"@) + unless(
        p.deserialize,
        "Deserialize"@,
    ) + unless(p.json_schema, "JsonSchema"@));
    assert(p.external_absent() =~= unless(p.serialize, "Serialize(absent)"@) + unless(
        p.deserialize,
        "Deserialize(absent)"@,
    ) + unless(p.json_schema, "JsonSchema(absent)"@));
}

/// A merged set has a trait exactly when one of the two has it.
pub proof fn law_merged_traits(a: TraitPrereqs, b: TraitPrereqs)
    ensures
        a.merged(b).serialize == (a.serialize || b.serialize),
        a.merged(b).deserialize == (a.deserialize || b.deserialize),
        a.merged(b).json_schema == (a.json_schema || b.json_schema),
        a.merged(b).elicitation_trait == (a.elicitation_trait || b.elicitation_trait),
        a.merged(b).elicit_introspect == (a.elicit_introspect || b.elicit_introspect),
        a.merged(b).elicit_spec == (a.elicit_spec || b.elicit_spec),
        a.merged(b).elicit_prompt_tree == (a.elicit_prompt_tree || b.elicit_prompt_tree),
        a.merged(b).to_code_literal == (a.to_code_literal || b.to_code_literal),
{
}

/// The entry is the first of the table with the key.
pub open spec fn is_first_entry<K, T>(s: Seq<(K, T)>, key: K, i: int) -> bool {
    &&& 0 <= i < s.len()
    &&& s[i].0 == key
    &&& forall|j: int| 0 <= j < i ==> (#[trigger] s[j]).0 != key
}

/// The table has an entry with the key.
pub open spec fn is_key<K, T>(s: Seq<(K, T)>, key: K) -> bool {
    exists|i: int| 0 <= i < s.len() && (#[trigger] s[i]).0 == key
}

/// A table gives a key the value of its first entry with it, and none where there is no entry.
pub proof fn law_first_entry_counts<K, T>(s: Seq<(K, T)>, key: K)
    ensures
        value_of(s, key) is Some <==> is_key(s, key),
        forall|i: int| #[trigger] is_first_entry(s, key, i) ==> value_of(s, key) == Some(s[i].1),
        value_of(s, key) is Some ==> exists|i: int| #[trigger] is_first_entry(s, key, i),
{
    lemma_position_of(s, key);
    match position_of(s, key) {
        Some(p) => {
            assert(is_first_entry(s, key, p));
            assert(s[p].0 == key);
            assert forall|i: int| #[trigger] is_first_entry(s, key, i) implies value_of(s, key)
                == Some(s[i].1) by {
                if i < p {
                    assert(s[i].0 != key);
                }
                if p < i {
                    assert(s[p].0 != key);
                }
            }
        },
        None => {},
    }
}

/// The traits that a table of traits by path lists for a path: those of its first entry for it,
/// and none where there is no entry.
pub open spec fn lists_traits(s: Seq<(Seq<char>, TraitPrereqs)>, path: Seq<char>, p: TraitPrereqs) -> bool {
    if is_key(s, path) {
        exists|i: int| #[trigger] is_first_entry(s, path, i) && s[i].1 == p
    } else {
        no_traits(p)
    }
}

/// The keys of a table stay what they are when they are read as texts.
pub proof fn law_keyed<T>(s: Seq<(String, T)>)
    ensures
        keyed(s).len() == s.len(),
        forall|i: int|
            0 <= i < s.len() ==> (#[trigger] keyed(s)[i]).0 == s[i].0@ && keyed(s)[i].1 == s[i].1,
{
}

/// The members that have a property are as many as those that are left when the others go.
pub proof fn law_count_is_of_members<V>(s: Seq<V>, p: spec_fn(V) -> bool)
    ensures
        count_if(s, p) == s.filter(p).len(),
    decreases s.len(),
{
    reveal(Seq::filter);
    if s.len() > 0 {
        law_count_is_of_members(s.drop_last(), p);
    }
}

/// Two properties that hold of the same members of a list hold of as many.
pub proof fn lemma_filter_same<V>(s: Seq<V>, p: spec_fn(V) -> bool, q: spec_fn(V) -> bool)
    requires
        forall|i: int| 0 <= i < s.len() ==> p(#[trigger] s[i]) == q(s[i]),
    ensures
        s.filter(p) == s.filter(q),
    decreases s.len(),
{
    reveal(Seq::filter);
    if s.len() > 0 {
        let t = s.drop_last();
        assert forall|i: int| 0 <= i < t.len() implies p(#[trigger] t[i]) == q(t[i]) by {
            assert(t[i] == s[i]);
        }
        lemma_filter_same(t, p, q);
        assert(s[s.len() - 1] == s.last());
    }
}

/// What is found first has the property, nothing before it has, and something is found if any
/// member has it.
pub proof fn law_first_where<T>(s: Seq<T>, p: spec_fn(T) -> bool)
    ensures
        match first_where(s, p) {
            Some(x) => exists|i: int|
                0 <= i < s.len() && #[trigger] s[i] == x && p(x) && forall|j: int|
                    0 <= j < i ==> !p(#[trigger] s[j]),
            None => forall|i: int| 0 <= i < s.len() ==> !p(#[trigger] s[i]),
        },
    decreases s.len(),
{
    if s.len() > 0 && !p(s[0]) {
        let t = s.skip(1);
        law_first_where(t, p);
        match first_where(t, p) {
            Some(x) => {
                let i = choose|i: int|
                    0 <= i < t.len() && #[trigger] t[i] == x && p(x) && forall|j: int|
                        0 <= j < i ==> !p(#[trigger] t[j]);
                assert(s[i + 1] == x);
                assert forall|j: int| 0 <= j < i + 1 implies !p(#[trigger] s[j]) by {
                    if j > 0 {
                        assert(t[j - 1] == s[j]);
                    }
                }
            },
            None => {
                assert forall|i: int| 0 <= i < s.len() implies !p(#[trigger] s[i]) by {
                    if i > 0 {
                        assert(t[i - 1] == s[i]);
                    }
                }
            },
        }
    }
}

/// A text begins, ends with another or holds it exactly when it is made of it and what stands
/// around it.
pub proof fn law_parts_of_a_text(s: Seq<char>, pat: Seq<char>)
    ensures
        starts(s, pat) <==> exists|rest: Seq<char>| s == #[trigger] (pat + rest),
        ends(s, pat) <==> exists|rest: Seq<char>| s == #[trigger] (rest + pat),
        occurs(s, pat) <==> exists|a: Seq<char>, b: Seq<char>| s == #[trigger] (a + pat + b),
{
    if starts(s, pat) {
        assert(s =~= pat + s.skip(pat.len() as int));
    }
    if exists|rest: Seq<char>| s == #[trigger] (pat + rest) {
        let rest = choose|rest: Seq<char>| s == #[trigger] (pat + rest);
        assert(s.subrange(0, pat.len() as int) =~= pat);
    }
    if ends(s, pat) {
        assert(s =~= s.take(s.len() - pat.len()) + pat);
    }
    if exists|rest: Seq<char>| s == #[trigger] (rest + pat) {
        let rest = choose|rest: Seq<char>| s == #[trigger] (rest + pat);
        assert(s.subrange(s.len() - pat.len(), s.len() as int) =~= pat);
    }
    if occurs(s, pat) {
        let i = choose|i: int| crate::text::matches_at(s, pat, i);
        assert(s =~= s.take(i) + pat + s.skip(i + pat.len()));
    }
    if exists|a: Seq<char>, b: Seq<char>| s == #[trigger] (a + pat + b) {
        let (a, b) = choose|a: Seq<char>, b: Seq<char>| s == #[trigger] (a + pat + b);
        assert(s.subrange(a.len() as int, (a.len() + pat.len()) as int) =~= pat);
        assert(crate::text::matches_at(s, pat, a.len() as int));
    }
}

/// Joined parts are the parts with the separator between neighbours: none for no parts, a part
/// itself, and one part after another.
pub proof fn law_joined_parts(s: Seq<Seq<char>>, part: Seq<char>, sep: Seq<char>)
    ensures
        joined(Seq::empty(), sep).len() == 0,
        joined(seq![part], sep) == part,
        s.len() > 0 ==> joined(s.push(part), sep) == joined(s, sep) + sep + part,
{
    assert(s.push(part).drop_last() =~= s);
}

/// Whether a sum holds a value.
pub proof fn lemma_contains_sum<A>(a: Seq<A>, b: Seq<A>, x: A)
    ensures
        (a + b).contains(x) <==> a.contains(x) || b.contains(x),
{
    if a.contains(x) {
        let i = choose|i: int| 0 <= i < a.len() && a[i] == x;
        assert((a + b)[i] == x);
    }
    if b.contains(x) {
        let i = choose|i: int| 0 <= i < b.len() && b[i] == x;
        assert((a + b)[a.len() + i] == x);
    }
    if (a + b).contains(x) {
        let i = choose|i: int| 0 <= i < (a + b).len() && (a + b)[i] == x;
        if i < a.len() {
            assert(a[i] == x);
        } else {
            assert(b[i - a.len()] == x);
        }
    }
}

}
