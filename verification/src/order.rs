//! Ordering: keys made of a rank and texts, stable sorting, and ascending sets of texts.

use vstd::prelude::*;

use crate::text::{lemma_text_lt_irreflexive, lemma_text_lt_total, lemma_text_lt_transitive};
use crate::text::{str_eq, str_lt, text_lt, views};

verus! {

/// A sort key: a rank, then texts that decide between equal ranks.
pub type Key = (int, Seq<Seq<char>>);

/// Lexicographic order of lists of texts.
pub open spec fn texts_lt(a: Seq<Seq<char>>, b: Seq<Seq<char>>) -> bool
    decreases a.len(),
{
    if b.len() == 0 {
        false
    } else if a.len() == 0 {
        true
    } else if a[0] != b[0] {
        text_lt(a[0], b[0])
    } else {
        texts_lt(a.skip(1), b.skip(1))
    }
}

/// The order of keys: by rank, then by the texts.
pub open spec fn key_lt(a: Key, b: Key) -> bool {
    a.0 < b.0 || (a.0 == b.0 && texts_lt(a.1, b.1))
}

/// Values with a key by which they are sorted.
pub trait Ranked: View + Sized {
    /// The key of a value.
    spec fn key(v: Self::V) -> Key;

    /// Whether the key of this value comes before that of the other.
    fn before(&self, other: &Self) -> (r: bool)
        ensures
            r == key_lt(Self::key(self@), Self::key(other@)),
    ;
}

/// `x` put into `s` before the first value whose key does not come before its own.
pub open spec fn inserted<T: Ranked>(s: Seq<T::V>, x: T::V) -> Seq<T::V>
    decreases s.len(),
{
    if s.len() == 0 {
        seq![x]
    } else if key_lt(T::key(s[0]), T::key(x)) {
        seq![s[0]] + inserted::<T>(s.skip(1), x)
    } else {
        seq![x] + s
    }
}

/// The values of `s` by ascending key; values with equal keys keep their order.
pub open spec fn sorted<T: Ranked>(s: Seq<T::V>) -> Seq<T::V>
    decreases s.len(),
{
    if s.len() == 0 {
        s
    } else {
        inserted::<T>(sorted::<T>(s.skip(1)), s[0])
    }
}

/// No value has a key that comes before the key of a value ahead of it.
pub open spec fn in_order<T: Ranked>(s: Seq<T::V>) -> bool {
    forall|i: int, j: int| 0 <= i < j < s.len() ==> !key_lt(T::key(#[trigger] s[j]), T::key(#[trigger] s[i]))
}

/// No list of texts precedes itself.
pub proof fn lemma_texts_lt_irreflexive(a: Seq<Seq<char>>)
    ensures
        !texts_lt(a, a),
    decreases a.len(),
{
    if a.len() > 0 {
        lemma_texts_lt_irreflexive(a.skip(1));
    }
}

/// The order of lists of texts is transitive.
pub proof fn lemma_texts_lt_transitive(a: Seq<Seq<char>>, b: Seq<Seq<char>>, c: Seq<Seq<char>>)
    requires
        texts_lt(a, b),
        texts_lt(b, c),
    ensures
        texts_lt(a, c),
    decreases a.len(),
{
    if a.len() > 0 && b.len() > 0 && c.len() > 0 {
        if a[0] == b[0] && b[0] == c[0] {
            lemma_texts_lt_transitive(a.skip(1), b.skip(1), c.skip(1));
        } else if a[0] != b[0] && b[0] != c[0] {
            lemma_text_lt_transitive(a[0], b[0], c[0]);
            if a[0] == c[0] {
                lemma_text_lt_irreflexive(a[0]);
            }
        }
    }
}

/// Two lists of texts of which neither precedes the other are equal.
pub proof fn lemma_texts_lt_total(a: Seq<Seq<char>>, b: Seq<Seq<char>>)
    requires
        !texts_lt(a, b),
        !texts_lt(b, a),
    ensures
        a == b,
    decreases a.len(),
{
    if a.len() > 0 && b.len() > 0 {
        if a[0] != b[0] {
            lemma_text_lt_total(a[0], b[0]);
        } else {
            lemma_texts_lt_total(a.skip(1), b.skip(1));
            assert(a =~= seq![a[0]] + a.skip(1));
            assert(b =~= seq![b[0]] + b.skip(1));
        }
    } else {
        assert(a =~= b);
    }
}

/// Not coming before is transitive.
pub proof fn lemma_key_le_transitive(a: Key, b: Key, c: Key)
    requires
        !key_lt(b, a),
        !key_lt(c, b),
    ensures
        !key_lt(c, a),
{
    if key_lt(c, a) && a.0 == b.0 && b.0 == c.0 {
        if texts_lt(a.1, b.1) {
            lemma_texts_lt_transitive(c.1, a.1, b.1);
        } else {
            lemma_texts_lt_total(a.1, b.1);
        }
    }
}

proof fn lemma_inserted_at<T: Ranked>(s: Seq<T::V>, x: T::V, pos: int)
    requires
        0 <= pos <= s.len(),
        forall|j: int| 0 <= j < pos ==> key_lt(T::key(#[trigger] s[j]), T::key(x)),
        pos < s.len() ==> !key_lt(T::key(s[pos]), T::key(x)),
    ensures
        inserted::<T>(s, x) == s.take(pos) + seq![x] + s.skip(pos),
    decreases s.len(),
{
    if s.len() == 0 {
        assert(s.take(pos) + seq![x] + s.skip(pos) =~= seq![x]);
    } else if pos == 0 {
        assert(s.take(pos) + seq![x] + s.skip(pos) =~= seq![x] + s);
    } else {
        assert(key_lt(T::key(s[0]), T::key(x)));
        let t = s.skip(1);
        assert forall|j: int| 0 <= j < pos - 1 implies key_lt(T::key(#[trigger] t[j]), T::key(x)) by {
            assert(t[j] == s[j + 1]);
        }
        lemma_inserted_at::<T>(t, x, pos - 1);
        assert(s.take(pos) + seq![x] + s.skip(pos) =~= seq![s[0]] + (t.take(pos - 1) + seq![x]
            + t.skip(pos - 1)));
    }
}

proof fn lemma_insert_position<T: Ranked>(s: Seq<T::V>, x: T::V) -> (pos: int)
    ensures
        0 <= pos <= s.len(),
        forall|j: int| 0 <= j < pos ==> key_lt(T::key(#[trigger] s[j]), T::key(x)),
        pos < s.len() ==> !key_lt(T::key(s[pos]), T::key(x)),
        inserted::<T>(s, x) == s.take(pos) + seq![x] + s.skip(pos),
    decreases s.len(),
{
    if s.len() > 0 && key_lt(T::key(s[0]), T::key(x)) {
        let t = s.skip(1);
        let p = lemma_insert_position::<T>(t, x);
        assert forall|j: int| 0 <= j < p + 1 implies key_lt(T::key(#[trigger] s[j]), T::key(x)) by {
            if j > 0 {
                assert(t[j - 1] == s[j]);
            }
        }
        lemma_inserted_at::<T>(s, x, p + 1);
        p + 1
    } else {
        lemma_inserted_at::<T>(s, x, 0);
        0
    }
}

proof fn lemma_inserted_in_order<T: Ranked>(s: Seq<T::V>, x: T::V)
    requires
        in_order::<T>(s),
    ensures
        in_order::<T>(inserted::<T>(s, x)),
{
    let pos = lemma_insert_position::<T>(s, x);
    let r = inserted::<T>(s, x);
    assert forall|i: int, j: int| 0 <= i < j < r.len() implies !key_lt(
        T::key(#[trigger] r[j]),
        T::key(#[trigger] r[i]),
    ) by {
        if i < pos && j == pos {
            if key_lt(T::key(x), T::key(s[i])) {
                if T::key(x).0 == T::key(s[i]).0 {
                    lemma_texts_lt_transitive(T::key(x).1, T::key(s[i]).1, T::key(x).1);
                    lemma_texts_lt_irreflexive(T::key(x).1);
                }
            }
        } else if i == pos {
            assert(r[j] == s[j - 1]);
            if j - 1 > pos {
                assert(!key_lt(T::key(s[j - 1]), T::key(s[pos])));
                lemma_key_le_transitive(T::key(x), T::key(s[pos]), T::key(s[j - 1]));
            }
        } else if i < pos && j > pos {
            assert(r[i] == s[i] && r[j] == s[j - 1]);
        } else if i > pos {
            assert(r[i] == s[i - 1] && r[j] == s[j - 1]);
        } else {
            assert(r[i] == s[i] && r[j] == s[j]);
        }
    }
}

/// Sorting puts the values in order of their keys.
pub proof fn law_sorted_in_order<T: Ranked>(s: Seq<T::V>)
    ensures
        in_order::<T>(sorted::<T>(s)),
    decreases s.len(),
{
    if s.len() > 0 {
        law_sorted_in_order::<T>(s.skip(1));
        lemma_inserted_in_order::<T>(sorted::<T>(s.skip(1)), s[0]);
    }
}

/// Sorting keeps every value, as often as it occurs.
pub proof fn law_sorted_permutes<T: Ranked>(s: Seq<T::V>)
    ensures
        sorted::<T>(s).to_multiset() == s.to_multiset(),
        sorted::<T>(s).len() == s.len(),
    decreases s.len(),
{
    broadcast use vstd::seq_lib::group_to_multiset_ensures;

    if s.len() > 0 {
        let t = sorted::<T>(s.skip(1));
        let x = s[0];
        law_sorted_permutes::<T>(s.skip(1));
        let pos = lemma_insert_position::<T>(t, x);
        vstd::seq_lib::lemma_multiset_commutative(t.take(pos), t.skip(pos));
        vstd::seq_lib::lemma_multiset_commutative(t.take(pos).push(x), t.skip(pos));
        vstd::seq_lib::lemma_multiset_commutative(seq![x], s.skip(1));
        assert(t.take(pos) + t.skip(pos) =~= t);
        assert(t.take(pos).push(x) + t.skip(pos) =~= t.take(pos) + seq![x] + t.skip(pos));
        assert(seq![x] + s.skip(1) =~= s);
        assert(Seq::<T::V>::empty().push(x) =~= seq![x]);
        assert(sorted::<T>(s).to_multiset() =~= s.to_multiset());
    }
}

/// Sorting neither adds nor drops a value.
pub proof fn law_sorted_members<T: Ranked>(s: Seq<T::V>, x: T::V)
    ensures
        sorted::<T>(s).contains(x) <==> s.contains(x),
{
    broadcast use vstd::seq_lib::group_to_multiset_ensures;

    law_sorted_permutes::<T>(s);
    assert(sorted::<T>(s).to_multiset().count(x) == s.to_multiset().count(x));
}

/// The values of `s` with a key, in their order.
pub open spec fn with_key<T: Ranked>(s: Seq<T::V>, key: Key) -> Seq<T::V>
    decreases s.len(),
{
    if s.len() == 0 {
        s
    } else {
        let rest = with_key::<T>(s.skip(1), key);
        if T::key(s[0]) == key {
            seq![s[0]] + rest
        } else {
            rest
        }
    }
}

/// Sorting keeps values with equal keys in their order.
pub proof fn law_sorted_stable<T: Ranked>(s: Seq<T::V>, key: Key)
    ensures
        with_key::<T>(sorted::<T>(s), key) == with_key::<T>(s, key),
    decreases s.len(),
{
    if s.len() > 0 {
        law_sorted_stable::<T>(s.skip(1), key);
        lemma_inserted_stable::<T>(sorted::<T>(s.skip(1)), s[0], key);
    }
}

proof fn lemma_inserted_stable<T: Ranked>(s: Seq<T::V>, x: T::V, key: Key)
    ensures
        with_key::<T>(inserted::<T>(s, x), key) == if T::key(x) == key {
            seq![x] + with_key::<T>(s, key)
        } else {
            with_key::<T>(s, key)
        },
    decreases s.len(),
{
    let r = inserted::<T>(s, x);
    if s.len() == 0 {
        assert(r.skip(1) =~= s);
    } else if key_lt(T::key(s[0]), T::key(x)) {
        lemma_inserted_stable::<T>(s.skip(1), x, key);
        assert(r.skip(1) =~= inserted::<T>(s.skip(1), x));
        if T::key(s[0]) == T::key(x) {
            lemma_texts_lt_irreflexive(T::key(x).1);
        }
    } else {
        assert(r.skip(1) =~= s);
    }
}

/// The values by ascending key; values with equal keys keep their order.
pub fn sort_ranked<T: Ranked>(items: Vec<T>) -> (r: Vec<T>)
    ensures
        views(r@) == sorted::<T>(views(items@)),
{
    let ghost all = views(items@);
    let mut rest = items;
    let mut out: Vec<T> = Vec::new();
    proof {
        assert(all.take(rest@.len() as int) =~= all);
        assert(all.skip(rest@.len() as int) =~= Seq::empty());
        assert(views(out@) =~= Seq::empty());
    }
    while rest.len() > 0
        invariant
            rest@.len() <= all.len(),
            views(rest@) == all.take(rest@.len() as int),
            views(out@) == sorted::<T>(all.skip(rest@.len() as int)),
        decreases rest@.len(),
    {
        let ghost n = rest@.len() as int;
        let ghost held = views(rest@);
        let x = rest.pop().unwrap();
        let ghost before = views(out@);
        proof {
            assert(held[n - 1] == x@);
            assert(all[n - 1] == all.take(n)[n - 1]);
            assert(views(rest@) =~= all.take(n - 1));
        }
        let mut pos: usize = 0;
        while pos < out.len() && out[pos].before(&x)
            invariant
                pos <= out.len(),
                before == views(out@),
                forall|j: int| 0 <= j < pos ==> key_lt(T::key(#[trigger] before[j]), T::key(x@)),
            decreases out.len() - pos,
        {
            assert(before[pos as int] == out@[pos as int]@);
            pos += 1;
        }
        proof {
            if pos < out.len() {
                assert(before[pos as int] == out@[pos as int]@);
            }
            lemma_inserted_at::<T>(before, x@, pos as int);
        }
        out.insert(pos, x);
        proof {
            let tail = all.skip(n - 1);
            assert(tail[0] == x@);
            assert(tail.skip(1) =~= all.skip(n));
            assert(views(out@) =~= before.take(pos as int) + seq![x@] + before.skip(pos as int));
        }
    }
    proof {
        assert(all.skip(0) =~= all);
    }
    out
}

/// Whether the list of texts `a` precedes `b`.
pub fn texts_before(a: &Vec<String>, b: &Vec<String>) -> (r: bool)
    ensures
        r == texts_lt(views(a@), views(b@)),
{
    let ghost s = views(a@);
    let ghost t = views(b@);
    let mut i: usize = 0;
    proof {
        assert(s.skip(0) =~= s);
        assert(t.skip(0) =~= t);
    }
    while i < a.len() && i < b.len()
        invariant
            i <= a.len(),
            i <= b.len(),
            s == views(a@),
            t == views(b@),
            texts_lt(s, t) == texts_lt(s.skip(i as int), t.skip(i as int)),
        decreases a.len() - i,
    {
        proof {
            assert(s.skip(i as int)[0] == a@[i as int]@);
            assert(t.skip(i as int)[0] == b@[i as int]@);
            assert(s.skip(i as int).skip(1) =~= s.skip(i + 1));
            assert(t.skip(i as int).skip(1) =~= t.skip(i + 1));
        }
        if !str_eq(a[i].as_str(), b[i].as_str()) {
            return str_lt(a[i].as_str(), b[i].as_str());
        }
        i += 1;
    }
    i >= a.len() && i < b.len()
}

/// Keys of one text without a rank are ordered as the texts.
pub proof fn lemma_text_key(a: Seq<char>, b: Seq<char>)
    ensures
        key_lt((0, seq![a]), (0, seq![b])) == text_lt(a, b),
{
    reveal_with_fuel(texts_lt, 2);
    lemma_text_lt_irreflexive(a);
    assert(seq![a].skip(1) =~= Seq::empty());
    assert(seq![b].skip(1) =~= Seq::empty());
}

/// Keys of two texts without a rank are ordered by the first, then by the second.
pub proof fn lemma_pair_key(a: Seq<char>, b: Seq<char>, c: Seq<char>, d: Seq<char>)
    ensures
        key_lt((0, seq![a, b]), (0, seq![c, d])) == (text_lt(a, c) || (a == c && text_lt(b, d))),
{
    reveal_with_fuel(texts_lt, 3);
    lemma_text_lt_irreflexive(a);
    lemma_text_lt_irreflexive(b);
    assert(seq![a, b].skip(1) =~= seq![b]);
    assert(seq![c, d].skip(1) =~= seq![d]);
    assert(seq![b].skip(1) =~= Seq::empty());
    assert(seq![d].skip(1) =~= Seq::empty());
}

/// Whether one text precedes another, as keys without a rank.
pub fn text_key_before(a: &str, b: &str) -> (r: bool)
    ensures
        r == key_lt((0, seq![a@]), (0, seq![b@])),
{
    proof {
        lemma_text_key(a@, b@);
    }
    str_lt(a, b)
}

/// Whether one key of a rank and two texts comes before another.
pub fn ranked_pair_before(k: u8, a: &str, b: &str, l: u8, c: &str, d: &str) -> (r: bool)
    ensures
        r == key_lt((k as int, seq![a@, b@]), (l as int, seq![c@, d@])),
{
    proof {
        lemma_pair_key(a@, b@, c@, d@);
        lemma_text_lt_irreflexive(a@);
    }
    if k != l {
        k < l
    } else if str_eq(a, c) {
        str_lt(b, d)
    } else {
        str_lt(a, c)
    }
}

/// The texts come in strictly ascending order, so none occurs twice.
pub open spec fn ascending(s: Seq<Seq<char>>) -> bool {
    forall|i: int, j: int| 0 <= i < j < s.len() ==> text_lt(#[trigger] s[i], #[trigger] s[j])
}

/// An ascending list is determined by the texts that occur in it.
pub proof fn law_ascending_unique(a: Seq<Seq<char>>, b: Seq<Seq<char>>)
    requires
        ascending(a),
        ascending(b),
        forall|x: Seq<char>| #[trigger] a.contains(x) <==> b.contains(x),
    ensures
        a == b,
    decreases a.len(),
{
    if a.len() == 0 {
        if b.len() > 0 {
            assert(b.contains(b[0]));
            assert(a.contains(b[0]));
        }
        assert(a =~= b);
    } else {
        assert(a.contains(a.last()));
        assert(b.contains(a.last()));
        assert(b.contains(b.last()));
        assert(a.contains(b.last()));
        if a.last() != b.last() {
            let i = choose|i: int| 0 <= i < a.len() && a[i] == b.last();
            let j = choose|j: int| 0 <= j < b.len() && b[j] == a.last();
            assert(text_lt(a[i], a.last()));
            assert(text_lt(b[j], b.last()));
            lemma_text_lt_transitive(a.last(), b.last(), a.last());
            lemma_text_lt_irreflexive(a.last());
        }
        let c = a.drop_last();
        let d = b.drop_last();
        assert forall|x: Seq<char>| #[trigger] c.contains(x) <==> d.contains(x) by {
            if c.contains(x) {
                let i = choose|i: int| 0 <= i < c.len() && c[i] == x;
                assert(a[i] == x);
                assert(a.contains(x));
                assert(text_lt(a[i], a.last()));
                lemma_text_lt_irreflexive(x);
                let j = choose|j: int| 0 <= j < b.len() && b[j] == x;
                assert(d[j] == x);
            }
            if d.contains(x) {
                let i = choose|i: int| 0 <= i < d.len() && d[i] == x;
                assert(b[i] == x);
                assert(b.contains(x));
                assert(a.contains(x));
                assert(text_lt(b[i], b.last()));
                lemma_text_lt_irreflexive(x);
                let j = choose|j: int| 0 <= j < a.len() && a[j] == x;
                assert(c[j] == x);
            }
        }
        law_ascending_unique(c, d);
        assert(a =~= c.push(a.last()));
        assert(b =~= d.push(b.last()));
    }
}

/// Puts a text into an ascending list, unless it is there.
pub fn insert_text(out: &mut Vec<String>, t: String) -> (fresh: bool)
    requires
        ascending(views(old(out)@)),
    ensures
        ascending(views(final(out)@)),
        forall|x: Seq<char>| #[trigger] views(final(out)@).contains(x) <==> views(old(out)@).contains(x)
            || x == t@,
        fresh == !views(old(out)@).contains(t@),
{
    let ghost s = views(out@);
    let mut pos: usize = 0;
    while pos < out.len() && str_lt(out[pos].as_str(), t.as_str())
        invariant
            pos <= out.len(),
            s == views(out@),
            forall|j: int| 0 <= j < pos ==> text_lt(#[trigger] s[j], t@),
        decreases out.len() - pos,
    {
        assert(s[pos as int] == out@[pos as int]@);
        pos += 1;
    }
    proof {
        if pos < out.len() {
            assert(s[pos as int] == out@[pos as int]@);
        }
    }
    if pos < out.len() && str_eq(out[pos].as_str(), t.as_str()) {
        return false;
    }
    out.insert(pos, t);
    proof {
        let n = views(out@);
        assert(n =~= s.insert(pos as int, t@));
        if pos < s.len() && !text_lt(t@, s[pos as int]) {
            lemma_text_lt_total(s[pos as int], t@);
        }
        assert forall|i: int, j: int| 0 <= i < j < n.len() implies text_lt(#[trigger] n[i], #[trigger] n[j]) by {
            if i == pos {
                assert(n[j] == s[j - 1]);
                if j - 1 > pos {
                    lemma_text_lt_transitive(t@, s[pos as int], s[j - 1]);
                }
            } else if i < pos {
                assert(n[i] == s[i]);
                if j > pos {
                    assert(n[j] == s[j - 1]);
                } else if j < pos {
                    assert(n[j] == s[j]);
                }
            } else {
                assert(n[i] == s[i - 1] && n[j] == s[j - 1]);
            }
        }
        assert forall|x: Seq<char>| #[trigger] n.contains(x) <==> s.contains(x) || x == t@ by {
            if s.contains(x) {
                let i = choose|i: int| 0 <= i < s.len() && s[i] == x;
                if i < pos {
                    assert(n[i] == x);
                } else {
                    assert(n[i + 1] == x);
                }
            }
            if x == t@ {
                assert(n[pos as int] == x);
            }
            if n.contains(x) {
                let i = choose|i: int| 0 <= i < n.len() && n[i] == x;
                if i < pos {
                    assert(s[i] == x);
                } else if i > pos {
                    assert(s[i - 1] == x);
                }
            }
        }
        if s.contains(t@) {
            let i = choose|i: int| 0 <= i < s.len() && s[i] == t@;
            lemma_text_lt_irreflexive(t@);
            if i > pos {
                lemma_text_lt_transitive(t@, s[pos as int], s[i]);
            }
        }
    }
    true
}

/// The distinct texts of a list in ascending order.
pub fn sorted_distinct(v: &Vec<String>) -> (r: Vec<String>)
    ensures
        ascending(views(r@)),
        forall|x: Seq<char>| #[trigger] views(r@).contains(x) <==> views(v@).contains(x),
{
    let mut out: Vec<String> = Vec::new();
    let mut i: usize = 0;
    let ghost all = views(v@);
    while i < v.len()
        invariant
            i <= v.len(),
            all == views(v@),
            ascending(views(out@)),
            forall|x: Seq<char>| #[trigger] views(out@).contains(x) <==> all.take(i as int).contains(x),
        decreases v.len() - i,
    {
        let ghost held = views(out@);
        insert_text(&mut out, v[i].clone());
        proof {
            assert forall|x: Seq<char>| #[trigger] views(out@).contains(x) <==> all.take(i + 1).contains(x) by {
                assert(held.contains(x) <==> all.take(i as int).contains(x));
                let t = all.take(i as int);
                let u = all.take(i + 1);
                if t.contains(x) {
                    let k = choose|k: int| 0 <= k < t.len() && t[k] == x;
                    assert(u[k] == x);
                }
                if x == all[i as int] {
                    assert(u[i as int] == x);
                }
                if u.contains(x) {
                    let k = choose|k: int| 0 <= k < u.len() && u[k] == x;
                    if k < i {
                        assert(t[k] == x);
                    }
                }
            }
        }
        i += 1;
    }
    proof {
        assert(all.take(i as int) =~= all);
    }
    out
}

}
