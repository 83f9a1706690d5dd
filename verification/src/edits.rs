//! What the edit distance means: the least number of edits between two texts.

use vstd::prelude::*;

use crate::shadow::{edit_distance_of, law_edit_distance_bounds, law_edit_distance_zero};

verus! {

/// `b` comes from `a` by inserting, removing or replacing one character at a place.
pub open spec fn edit_at(a: Seq<char>, b: Seq<char>, i: int, c: char) -> bool {
    (0 <= i <= a.len() && b == a.insert(i, c)) || (0 <= i < a.len() && (b == a.remove(i) || b
        == a.update(i, c)))
}

/// `b` comes from `a` by one edit.
pub open spec fn one_edit(a: Seq<char>, b: Seq<char>) -> bool {
    exists|i: int, c: char| edit_at(a, b, i, c)
}

/// `b` comes from `a` by `n` edits.
pub open spec fn edits_in(a: Seq<char>, b: Seq<char>, n: nat) -> bool
    decreases n,
{
    if n == 0 {
        a == b
    } else {
        exists|m: Seq<char>| edits_in(a, m, (n - 1) as nat) && #[trigger] one_edit(m, b)
    }
}

/// The distance changes by at most one where the last character of a text is left out.
proof fn lemma_last(a: Seq<char>, b: Seq<char>)
    ensures
        a.len() > 0 ==> edit_distance_of(a, b) <= edit_distance_of(a.drop_last(), b) + 1,
        a.len() > 0 ==> edit_distance_of(a.drop_last(), b) <= edit_distance_of(a, b) + 1,
        b.len() > 0 ==> edit_distance_of(a, b) <= edit_distance_of(a, b.drop_last()) + 1,
        b.len() > 0 ==> edit_distance_of(a, b.drop_last()) <= edit_distance_of(a, b) + 1,
    decreases a.len() + b.len(),
{
    if a.len() > 0 && b.len() > 0 {
        lemma_last(a.drop_last(), b);
        lemma_last(a, b.drop_last());
        lemma_last(a.drop_last(), b.drop_last());
    }
}

/// A detour is no shortcut: the distance between two texts is at most the sum of their distances
/// from a third.
pub proof fn law_edit_distance_triangle(a: Seq<char>, b: Seq<char>, c: Seq<char>)
    ensures
        edit_distance_of(a, c) <= edit_distance_of(a, b) + edit_distance_of(b, c),
    decreases a.len() + b.len() + c.len(),
{
    law_edit_distance_bounds(a, b);
    law_edit_distance_bounds(b, c);
    law_edit_distance_bounds(a, c);
    if a.len() > 0 && b.len() > 0 && c.len() > 0 {
        let (a1, b1, c1) = (a.drop_last(), b.drop_last(), c.drop_last());
        lemma_last(a, c);
        lemma_last(a, b1);
        lemma_last(b1, c);
        law_edit_distance_triangle(a1, b, c);
        law_edit_distance_triangle(a, b, c1);
        law_edit_distance_triangle(a, b1, c);
        law_edit_distance_triangle(a1, b1, c1);
    }
}

/// One edit is at most one away.
proof fn lemma_one_edit(a: Seq<char>, b: Seq<char>, i: int, c: char)
    requires
        edit_at(a, b, i, c),
    ensures
        edit_distance_of(a, b) <= 1,
    decreases a.len() + b.len(),
{
    law_edit_distance_zero(a, a);
    law_edit_distance_zero(b, b);
    if 0 <= i <= a.len() && b == a.insert(i, c) {
        if i == a.len() {
            assert(b.drop_last() =~= a);
            lemma_last(a, b);
        } else {
            assert(b.last() == a.last());
            assert(b.drop_last() =~= a.drop_last().insert(i, c));
            lemma_one_edit(a.drop_last(), b.drop_last(), i, c);
        }
    } else if i == a.len() - 1 {
        if b == a.remove(i) {
            assert(b =~= a.drop_last());
            lemma_last(a, b);
        } else {
            assert(b.drop_last() =~= a.drop_last());
            law_edit_distance_zero(a.drop_last(), a.drop_last());
        }
    } else {
        assert(b.last() == a.last());
        if b == a.remove(i) {
            assert(b.drop_last() =~= a.drop_last().remove(i));
        } else {
            assert(b.drop_last() =~= a.drop_last().update(i, c));
        }
        lemma_one_edit(a.drop_last(), b.drop_last(), i, c);
    }
}

proof fn lemma_at_least(a: Seq<char>, b: Seq<char>, n: nat)
    requires
        edits_in(a, b, n),
    ensures
        edit_distance_of(a, b) <= n,
    decreases n,
{
    if n == 0 {
        law_edit_distance_zero(a, b);
    } else {
        let m = choose|m: Seq<char>| edits_in(a, m, (n - 1) as nat) && #[trigger] one_edit(m, b);
        lemma_at_least(a, m, (n - 1) as nat);
        let (i, c) = choose|i: int, c: char| edit_at(m, b, i, c);
        lemma_one_edit(m, b, i, c);
        law_edit_distance_triangle(a, m, b);
    }
}

proof fn lemma_then(a: Seq<char>, b: Seq<char>, c: Seq<char>, n: nat)
    requires
        edits_in(a, b, n),
        one_edit(b, c),
    ensures
        edits_in(a, c, n + 1),
{
}

proof fn lemma_before(a: Seq<char>, b: Seq<char>, c: Seq<char>, n: nat)
    requires
        one_edit(a, b),
        edits_in(b, c, n),
    ensures
        edits_in(a, c, n + 1),
    decreases n,
{
    if n == 0 {
        assert(edits_in(a, a, 0));
        lemma_then(a, a, c, 0);
    } else {
        let m = choose|m: Seq<char>| edits_in(b, m, (n - 1) as nat) && #[trigger] one_edit(m, c);
        lemma_before(a, b, m, (n - 1) as nat);
        lemma_then(a, m, c, n);
    }
}

/// Edits stay edits where a character follows.
proof fn lemma_followed(a: Seq<char>, b: Seq<char>, x: char, n: nat)
    requires
        edits_in(a, b, n),
    ensures
        edits_in(a.push(x), b.push(x), n),
    decreases n,
{
    if n > 0 {
        let m = choose|m: Seq<char>| edits_in(a, m, (n - 1) as nat) && #[trigger] one_edit(m, b);
        lemma_followed(a, m, x, (n - 1) as nat);
        let (i, c) = choose|i: int, c: char| edit_at(m, b, i, c);
        if 0 <= i <= m.len() && b == m.insert(i, c) {
            assert(b.push(x) =~= m.push(x).insert(i, c));
        } else if b == m.remove(i) {
            assert(b.push(x) =~= m.push(x).remove(i));
        } else {
            assert(b.push(x) =~= m.push(x).update(i, c));
        }
        assert(edit_at(m.push(x), b.push(x), i, c));
        assert(one_edit(m.push(x), b.push(x)));
    }
}

proof fn lemma_append(a: Seq<char>)
    requires
        a.len() > 0,
    ensures
        one_edit(a.drop_last(), a),
        one_edit(a, a.drop_last()),
{
    let i = a.len() - 1;
    assert(a =~= a.drop_last().insert(i, a.last()));
    assert(edit_at(a.drop_last(), a, i, a.last()));
    assert(a.drop_last() =~= a.remove(i));
    assert(edit_at(a, a.drop_last(), i, a.last()));
}

proof fn lemma_enough(a: Seq<char>, b: Seq<char>)
    ensures
        edits_in(a, b, edit_distance_of(a, b)),
    decreases a.len() + b.len(),
{
    if a.len() == 0 && b.len() == 0 {
        assert(a =~= b);
    } else if a.len() == 0 {
        lemma_enough(a, b.drop_last());
        lemma_append(b);
        lemma_then(a, b.drop_last(), b, edit_distance_of(a, b.drop_last()));
    } else if b.len() == 0 {
        lemma_enough(a.drop_last(), b);
        lemma_append(a);
        lemma_before(a, a.drop_last(), b, edit_distance_of(a.drop_last(), b));
    } else {
        let (a1, b1) = (a.drop_last(), b.drop_last());
        let (x, y) = (a.last(), b.last());
        assert(a =~= a1.push(x));
        assert(b =~= b1.push(y));
        let n = edit_distance_of(a1, b1);
        lemma_enough(a1, b1);
        lemma_followed(a1, b1, x, n);
        if x != y {
            lemma_enough(a1, b);
            lemma_enough(a, b1);
            lemma_append(a);
            lemma_append(b);
            lemma_before(a, a1, b, edit_distance_of(a1, b));
            lemma_then(a, b1, b, edit_distance_of(a, b1));
            assert(b =~= b1.push(x).update(b1.len() as int, y));
            assert(edit_at(b1.push(x), b, b1.len() as int, y));
            lemma_then(a, b1.push(x), b, n);
        }
    }
}

/// The distance is the least number of insertions, removals and replacements of one character
/// that turn one text into the other: so many edits are enough, and fewer are not.
pub proof fn law_edit_distance_is_least(a: Seq<char>, b: Seq<char>, n: nat)
    ensures
        edits_in(a, b, edit_distance_of(a, b)),
        edits_in(a, b, n) ==> edit_distance_of(a, b) <= n,
{
    lemma_enough(a, b);
    if edits_in(a, b, n) {
        lemma_at_least(a, b, n);
    }
}

}
