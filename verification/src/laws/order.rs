//! What the orders of texts, of lists of texts and of keys are.

use vstd::prelude::*;

use crate::order::{in_order, key_lt, law_sorted_in_order, law_sorted_permutes, sorted, texts_lt, Key};
use crate::order::Ranked;
use crate::text::{lemma_text_lt_irreflexive, text_lt};

verus! {

/// The texts are the same before the position, and there the first ends or has the smaller
/// character.
pub open spec fn differs_at(a: Seq<char>, b: Seq<char>, n: int) -> bool {
    &&& 0 <= n <= a.len()
    &&& n < b.len()
    &&& a.take(n) == b.take(n)
    &&& n == a.len() || a[n] < b[n]
}

/// One text precedes another exactly when, where they first differ, it ends or has the smaller
/// character.
pub proof fn law_text_order(a: Seq<char>, b: Seq<char>)
    ensures
        text_lt(a, b) <==> exists|n: int| #[trigger] differs_at(a, b, n),
    decreases a.len(),
{
    if a.len() > 0 && b.len() > 0 && a[0] == b[0] {
        let c = a.skip(1);
        let d = b.skip(1);
        law_text_order(c, d);
        if text_lt(c, d) {
            let n = choose|n: int| #[trigger] differs_at(c, d, n);
            assert forall|i: int| 0 <= i < n + 1 implies a[i] == b[i] by {
                if i > 0 {
                    assert(c.take(n)[i - 1] == a[i]);
                    assert(d.take(n)[i - 1] == b[i]);
                }
            }
            assert(a.take(n + 1) =~= b.take(n + 1));
            assert(differs_at(a, b, n + 1));
        }
        if exists|n: int| #[trigger] differs_at(a, b, n) {
            let n = choose|n: int| #[trigger] differs_at(a, b, n);
            assert(n > 0);
            assert forall|i: int| 0 <= i < n - 1 implies c[i] == d[i] by {
                assert(a.take(n)[i + 1] == a[i + 1]);
                assert(b.take(n)[i + 1] == b[i + 1]);
            }
            assert(c.take(n - 1) =~= d.take(n - 1));
            assert(differs_at(c, d, n - 1));
        }
    } else {
        if text_lt(a, b) {
            assert(a.take(0) =~= b.take(0));
            assert(differs_at(a, b, 0));
        }
        if exists|n: int| #[trigger] differs_at(a, b, n) {
            let n = choose|n: int| #[trigger] differs_at(a, b, n);
            if n > 0 {
                assert(a.take(n)[0] == a[0]);
                assert(b.take(n)[0] == b[0]);
            }
        }
    }
}

/// The lists are the same before the position, and there the first ends or has the earlier text.
pub open spec fn parts_at(a: Seq<Seq<char>>, b: Seq<Seq<char>>, n: int) -> bool {
    &&& 0 <= n <= a.len()
    &&& n < b.len()
    &&& a.take(n) == b.take(n)
    &&& n == a.len() || text_lt(a[n], b[n])
}

/// One list of texts precedes another exactly when, where they first differ, it ends or has the
/// earlier text.
pub proof fn law_texts_order(a: Seq<Seq<char>>, b: Seq<Seq<char>>)
    ensures
        texts_lt(a, b) <==> exists|n: int| #[trigger] parts_at(a, b, n),
    decreases a.len(),
{
    if a.len() > 0 && b.len() > 0 && a[0] == b[0] {
        let c = a.skip(1);
        let d = b.skip(1);
        lemma_text_lt_irreflexive(a[0]);
        law_texts_order(c, d);
        if texts_lt(c, d) {
            let n = choose|n: int| #[trigger] parts_at(c, d, n);
            assert forall|i: int| 0 <= i < n + 1 implies a[i] == b[i] by {
                if i > 0 {
                    assert(c.take(n)[i - 1] == a[i]);
                    assert(d.take(n)[i - 1] == b[i]);
                }
            }
            assert(a.take(n + 1) =~= b.take(n + 1));
            assert(parts_at(a, b, n + 1));
        }
        if exists|n: int| #[trigger] parts_at(a, b, n) {
            let n = choose|n: int| #[trigger] parts_at(a, b, n);
            assert(n > 0);
            assert forall|i: int| 0 <= i < n - 1 implies c[i] == d[i] by {
                assert(a.take(n)[i + 1] == a[i + 1]);
                assert(b.take(n)[i + 1] == b[i + 1]);
            }
            assert(c.take(n - 1) =~= d.take(n - 1));
            assert(parts_at(c, d, n - 1));
        }
    } else {
        if texts_lt(a, b) {
            assert(a.take(0) =~= b.take(0));
            assert(parts_at(a, b, 0));
        }
        if exists|n: int| #[trigger] parts_at(a, b, n) {
            let n = choose|n: int| #[trigger] parts_at(a, b, n);
            if n > 0 {
                assert(a.take(n)[0] == a[0]);
                assert(b.take(n)[0] == b[0]);
            }
        }
    }
}

/// One key precedes another exactly when its rank is smaller, or the ranks are equal and its texts
/// precede the other's. A sorted list keeps every value and has no key before an earlier one.
pub proof fn law_key_order<T: Ranked>(a: Key, b: Key, s: Seq<T::V>)
    ensures
        key_lt(a, b) <==> a.0 < b.0 || (a.0 == b.0 && texts_lt(a.1, b.1)),
        sorted::<T>(s).to_multiset() == s.to_multiset(),
        forall|i: int, j: int|
            0 <= i < j < sorted::<T>(s).len() ==> !key_lt(
                T::key(#[trigger] sorted::<T>(s)[j]),
                T::key(#[trigger] sorted::<T>(s)[i]),
            ),
{
    law_sorted_permutes::<T>(s);
    law_sorted_in_order::<T>(s);
}

}
