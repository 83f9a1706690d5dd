//! Lists without duplicates: of the values that stand for the same thing, the first is kept.

use vstd::prelude::*;

use crate::order::{inserted, key_lt, law_sorted_members, sorted, Ranked};
use crate::text::views;

verus! {

/// Values that stand for something.
pub trait Identified: Ranked {
    /// Something to stand for.
    type Identity;

    /// What a value stands for.
    spec fn identity(v: Self::V) -> Self::Identity;
}

/// Values that can be told apart by what they stand for.
pub trait Recognized: Identified {
    /// Whether this value and the other stand for the same thing.
    fn is_same(&self, other: &Self) -> (r: bool)
        ensures
            r == (Self::identity(self@) == Self::identity(other@)),
    ;
}

/// A value of the list stands for the thing.
pub open spec fn holds_identity<T: Identified>(s: Seq<T::V>, id: T::Identity) -> bool {
    exists|i: int| 0 <= i < s.len() && T::identity(#[trigger] s[i]) == id
}

/// The values of a list that are the first to stand for something, in their order.
pub open spec fn firsts<T: Identified>(s: Seq<T::V>) -> Seq<T::V>
    decreases s.len(),
{
    if s.len() == 0 {
        s
    } else {
        let rest = firsts::<T>(s.drop_last());
        if holds_identity::<T>(rest, T::identity(s.last())) {
            rest
        } else {
            rest.push(s.last())
        }
    }
}

/// No two values of the list stand for the same thing.
pub open spec fn is_distinct<T: Identified>(s: Seq<T::V>) -> bool {
    forall|i: int, j: int|
        0 <= i < j < s.len() ==> T::identity(#[trigger] s[i]) != T::identity(#[trigger] s[j])
}

/// Of the values that stand for a thing, exactly one is kept, and nothing is added.
pub proof fn law_firsts<T: Identified>(s: Seq<T::V>, id: T::Identity)
    ensures
        is_distinct::<T>(firsts::<T>(s)),
        holds_identity::<T>(firsts::<T>(s), id) <==> holds_identity::<T>(s, id),
        forall|i: int| 0 <= i < firsts::<T>(s).len() ==> s.contains(#[trigger] firsts::<T>(s)[i]),
    decreases s.len(),
{
    if s.len() > 0 {
        let front = s.drop_last();
        let rest = firsts::<T>(front);
        let kept = firsts::<T>(s);
        let x = s.last();
        law_firsts::<T>(front, id);
        assert(s =~= front.push(x));
        lemma_push_identity::<T>(front, x, id);
        lemma_push_identity::<T>(rest, x, id);
        assert forall|i: int| 0 <= i < kept.len() implies s.contains(#[trigger] kept[i]) by {
            if i < rest.len() {
                assert(front.contains(rest[i]));
                let j = choose|j: int| 0 <= j < front.len() && front[j] == rest[i];
                assert(s[j] == rest[i]);
            } else {
                assert(s[s.len() - 1] == x);
            }
        }
    }
}

proof fn lemma_push_identity<T: Identified>(s: Seq<T::V>, x: T::V, id: T::Identity)
    ensures
        holds_identity::<T>(s.push(x), id) <==> holds_identity::<T>(s, id) || T::identity(x) == id,
{
    let t = s.push(x);
    if holds_identity::<T>(s, id) {
        let i = choose|i: int| 0 <= i < s.len() && T::identity(#[trigger] s[i]) == id;
        assert(t[i] == s[i]);
    }
    if T::identity(x) == id {
        assert(t[s.len() as int] == x);
    }
    if holds_identity::<T>(t, id) {
        let i = choose|i: int| 0 <= i < t.len() && T::identity(#[trigger] t[i]) == id;
        if i < s.len() {
            assert(s[i] == t[i]);
        }
    }
}

/// A list without duplicates stays as it is.
pub proof fn law_distinct_stays<T: Identified>(s: Seq<T::V>)
    requires
        is_distinct::<T>(s),
    ensures
        firsts::<T>(s) == s,
    decreases s.len(),
{
    if s.len() > 0 {
        let front = s.drop_last();
        assert forall|i: int, j: int| 0 <= i < j < front.len() implies T::identity(
            #[trigger] front[i],
        ) != T::identity(#[trigger] front[j]) by {
            assert(front[i] == s[i] && front[j] == s[j]);
        }
        law_distinct_stays::<T>(front);
        if holds_identity::<T>(front, T::identity(s.last())) {
            let i = choose|i: int|
                0 <= i < front.len() && T::identity(#[trigger] front[i]) == T::identity(s.last());
            assert(front[i] == s[i]);
            assert(s[s.len() - 1] == s.last());
        }
        assert(s =~= front.push(s.last()));
    }
}

/// Sorting a list without duplicates brings none in.
pub proof fn law_sorted_distinct<T: Identified>(s: Seq<T::V>)
    requires
        is_distinct::<T>(s),
    ensures
        is_distinct::<T>(sorted::<T>(s)),
    decreases s.len(),
{
    if s.len() > 0 {
        let rest = s.skip(1);
        assert forall|i: int, j: int| 0 <= i < j < rest.len() implies T::identity(
            #[trigger] rest[i],
        ) != T::identity(#[trigger] rest[j]) by {
            assert(rest[i] == s[i + 1] && rest[j] == s[j + 1]);
        }
        law_sorted_distinct::<T>(rest);
        let list = sorted::<T>(rest);
        assert forall|i: int| 0 <= i < list.len() implies T::identity(#[trigger] list[i])
            != T::identity(s[0]) by {
            law_sorted_members::<T>(rest, list[i]);
            assert(list.contains(list[i]));
            let j = choose|j: int| 0 <= j < rest.len() && rest[j] == list[i];
            assert(rest[j] == s[j + 1]);
        }
        lemma_inserted_distinct::<T>(list, s[0]);
    }
}

proof fn lemma_inserted_distinct<T: Identified>(s: Seq<T::V>, x: T::V)
    requires
        is_distinct::<T>(s),
        forall|i: int| 0 <= i < s.len() ==> T::identity(#[trigger] s[i]) != T::identity(x),
    ensures
        is_distinct::<T>(inserted::<T>(s, x)),
        forall|i: int|
            0 <= i < inserted::<T>(s, x).len() ==> (#[trigger] inserted::<T>(s, x)[i]) == x
                || s.contains(inserted::<T>(s, x)[i]),
    decreases s.len(),
{
    let r = inserted::<T>(s, x);
    if s.len() > 0 && key_lt(T::key(s[0]), T::key(x)) {
        let rest = s.skip(1);
        assert forall|i: int| 0 <= i < rest.len() implies T::identity(#[trigger] rest[i])
            != T::identity(x) && T::identity(rest[i]) != T::identity(s[0]) by {
            assert(rest[i] == s[i + 1]);
        }
        assert forall|i: int, j: int| 0 <= i < j < rest.len() implies T::identity(
            #[trigger] rest[i],
        ) != T::identity(#[trigger] rest[j]) by {
            assert(rest[i] == s[i + 1] && rest[j] == s[j + 1]);
        }
        lemma_inserted_distinct::<T>(rest, x);
        let t = inserted::<T>(rest, x);
        assert forall|j: int| 0 <= j < t.len() implies T::identity(#[trigger] t[j]) != T::identity(
            s[0],
        ) && (t[j] == x || s.contains(t[j])) by {
            if t[j] != x {
                let k = choose|k: int| 0 <= k < rest.len() && rest[k] == t[j];
                assert(rest[k] == s[k + 1]);
            }
        }
        assert forall|i: int, j: int| 0 <= i < j < r.len() implies T::identity(#[trigger] r[i])
            != T::identity(#[trigger] r[j]) by {
            assert(r[j] == t[j - 1]);
            if i > 0 {
                assert(r[i] == t[i - 1]);
            }
        }
        assert forall|i: int| 0 <= i < r.len() implies (#[trigger] r[i]) == x || s.contains(r[i]) by {
            if i > 0 {
                assert(r[i] == t[i - 1]);
            } else {
                assert(s[0] == r[0]);
            }
        }
    } else {
        assert forall|i: int, j: int| 0 <= i < j < r.len() implies T::identity(#[trigger] r[i])
            != T::identity(#[trigger] r[j]) by {
            assert(r[j] == s[j - 1]);
            if i > 0 {
                assert(r[i] == s[i - 1]);
            }
        }
        assert forall|i: int| 0 <= i < r.len() implies (#[trigger] r[i]) == x || s.contains(r[i]) by {
            if i > 0 {
                assert(r[i] == s[i - 1]);
            }
        }
    }
}

fn has_identity<T: Recognized>(list: &Vec<T>, x: &T) -> (r: bool)
    ensures
        r == holds_identity::<T>(views(list@), T::identity(x@)),
{
    let ghost all = views(list@);
    let mut i: usize = 0;
    while i < list.len()
        invariant
            i <= list.len(),
            all == views(list@),
            forall|j: int| 0 <= j < i ==> T::identity(#[trigger] all[j]) != T::identity(x@),
        decreases list.len() - i,
    {
        assert(all[i as int] == list@[i as int]@);
        if list[i].is_same(x) {
            return true;
        }
        i += 1;
    }
    false
}

/// Appends a value to a list, unless a value of the list stands for the same thing.
pub fn push_first<T: Recognized>(list: &mut Vec<T>, x: T)
    ensures
        views(final(list)@) == if holds_identity::<T>(views(old(list)@), T::identity(x@)) {
            views(old(list)@)
        } else {
            views(old(list)@).push(x@)
        },
{
    if !has_identity(list, &x) {
        let ghost held = views(list@);
        let ghost v = x@;
        list.push(x);
        assert(views(list@) =~= held.push(v));
    }
}

}
