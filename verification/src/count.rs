//! Counting the members of a list with a property.

use vstd::prelude::*;

verus! {

/// How many members of a list have a property.
pub open spec fn count_if<V>(s: Seq<V>, p: spec_fn(V) -> bool) -> nat
    decreases s.len(),
{
    if s.len() == 0 {
        0
    } else {
        count_if(s.drop_last(), p) + if p(s.last()) {
            1nat
        } else {
            0nat
        }
    }
}

/// No more members have a property than there are.
pub proof fn lemma_count_bound<V>(s: Seq<V>, p: spec_fn(V) -> bool)
    ensures
        count_if(s, p) <= s.len(),
    decreases s.len(),
{
    if s.len() > 0 {
        lemma_count_bound(s.drop_last(), p);
    }
}

/// The members of two lists with a property are those of the lists joined.
pub proof fn lemma_count_append<V>(a: Seq<V>, b: Seq<V>, p: spec_fn(V) -> bool)
    ensures
        count_if(a + b, p) == count_if(a, p) + count_if(b, p),
    decreases b.len(),
{
    if b.len() == 0 {
        assert(a + b =~= a);
    } else {
        lemma_count_append(a, b.drop_last(), p);
        assert((a + b).drop_last() =~= a + b.drop_last());
    }
}

/// Lists with the same members, as often, have as many members with a property.
pub proof fn lemma_count_permuted<V>(s: Seq<V>, t: Seq<V>, p: spec_fn(V) -> bool)
    requires
        s.to_multiset() == t.to_multiset(),
    ensures
        count_if(s, p) == count_if(t, p),
    decreases s.len(),
{
    broadcast use vstd::seq_lib::group_to_multiset_ensures;

    assert(s.to_multiset().len() == s.len());
    assert(t.to_multiset().len() == t.len());
    if s.len() > 0 {
        let x = s.last();
        assert(s.to_multiset().contains(x)) by {
            assert(s.contains(s[s.len() - 1]));
        }
        assert(t.contains(x));
        let i = choose|i: int| 0 <= i < t.len() && t[i] == x;
        lemma_count_remove(t, p, i);
        assert(s.remove(s.len() - 1) =~= s.drop_last());
        lemma_count_permuted(s.drop_last(), t.remove(i), p);
    }
}

proof fn lemma_count_remove<V>(t: Seq<V>, p: spec_fn(V) -> bool, i: int)
    requires
        0 <= i < t.len(),
    ensures
        count_if(t, p) == count_if(t.remove(i), p) + if p(t[i]) {
            1nat
        } else {
            0nat
        },
    decreases t.len(),
{
    if i == t.len() - 1 {
        assert(t.remove(i) =~= t.drop_last());
    } else {
        lemma_count_remove(t.drop_last(), p, i);
        assert(t.remove(i).drop_last() =~= t.drop_last().remove(i));
        assert(t.remove(i).last() == t.last());
    }
}

}
