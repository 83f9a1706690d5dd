//! Tables: lists of keyed entries in which the first entry with a key counts.

use std::collections::HashMap;

use vstd::prelude::*;

use crate::text::str_eq;

verus! {

/// The entries of a table with their keys as texts.
pub open spec fn keyed<T>(s: Seq<(String, T)>) -> Seq<(Seq<char>, T)> {
    s.map_values(|e: (String, T)| (e.0@, e.1))
}

/// The first value of a list with a property.
pub open spec fn first_where<T>(s: Seq<T>, p: spec_fn(T) -> bool) -> Option<T>
    decreases s.len(),
{
    if s.len() == 0 {
        None
    } else if p(s[0]) {
        Some(s[0])
    } else {
        first_where(s.skip(1), p)
    }
}

/// The first value of a list for which a test says yes. The property says what the test tests.
pub(crate) fn find_first<'a, T, F: Fn(&T) -> bool>(
    v: &'a Vec<T>,
    test: F,
    Ghost(p): Ghost<spec_fn(T) -> bool>,
) -> (r: Option<&'a T>)
    requires
        forall|x: &T| #[trigger] test.requires((x,)),
        forall|x: &T, b: bool| #[trigger] test.ensures((x,), b) ==> b == p(*x),
    ensures
        match r {
            Some(x) => first_where(v@, p) == Some(*x),
            None => first_where(v@, p) is None,
        },
{
    let mut i: usize = 0;
    assert(v@.skip(0) =~= v@);
    while i < v.len()
        invariant
            i <= v.len(),
            forall|x: &T| #[trigger] test.requires((x,)),
            forall|x: &T, b: bool| #[trigger] test.ensures((x,), b) ==> b == p(*x),
            first_where(v@, p) == first_where(v@.skip(i as int), p),
        decreases v.len() - i,
    {
        assert(v@.skip(i as int)[0] == v@[i as int]);
        assert(v@.skip(i as int).skip(1) =~= v@.skip(i + 1));
        if test(&v[i]) {
            return Some(&v[i]);
        }
        i += 1;
    }
    None
}

/// The position of the first entry with a key.
pub open spec fn position_of<K, T>(s: Seq<(K, T)>, key: K) -> Option<int>
    decreases s.len(),
{
    if s.len() == 0 {
        None
    } else {
        match position_of(s.drop_last(), key) {
            Some(i) => Some(i),
            None => if s.last().0 == key {
                Some(s.len() - 1)
            } else {
                None
            },
        }
    }
}

/// The value of the first entry with a key.
pub open spec fn value_of<K, T>(s: Seq<(K, T)>, key: K) -> Option<T> {
    match position_of(s, key) {
        Some(i) => Some(s[i].1),
        None => None,
    }
}

/// The position found holds the key, no earlier one does, and one is found if any holds it.
pub proof fn lemma_position_of<K, T>(s: Seq<(K, T)>, key: K)
    ensures
        match position_of(s, key) {
            Some(i) => 0 <= i < s.len() && s[i].0 == key && forall|j: int|
                0 <= j < i ==> (#[trigger] s[j]).0 != key,
            None => forall|j: int| 0 <= j < s.len() ==> (#[trigger] s[j]).0 != key,
        },
    decreases s.len(),
{
    if s.len() > 0 {
        let t = s.drop_last();
        lemma_position_of(t, key);
        match position_of(t, key) {
            Some(i) => {
                assert(t[i] == s[i]);
                assert forall|j: int| 0 <= j < i implies (#[trigger] s[j]).0 != key by {
                    assert(t[j] == s[j]);
                }
            },
            None => {
                assert forall|j: int| 0 <= j < s.len() - 1 implies (#[trigger] s[j]).0 != key by {
                    assert(t[j] == s[j]);
                }
            },
        }
    }
}

/// Two tables with the same keys hold a key at the same position.
pub proof fn lemma_same_keys<K, T, U>(a: Seq<(K, T)>, b: Seq<(K, U)>, key: K)
    requires
        a.len() == b.len(),
        forall|j: int| 0 <= j < a.len() ==> (b[j].0 == key) == ((#[trigger] a[j]).0 == key),
    ensures
        position_of(a, key) == position_of(b, key),
    decreases a.len(),
{
    if a.len() > 0 {
        let c = a.drop_last();
        let d = b.drop_last();
        assert forall|j: int| 0 <= j < c.len() implies (d[j].0 == key) == ((#[trigger] c[j]).0 == key) by {
            assert(c[j] == a[j]);
        }
        lemma_same_keys(c, d, key);
        assert(a[a.len() - 1] == a.last());
    }
}

/// The table with a value for a key: that of the first entry with the key, or of a new entry.
pub open spec fn put<K, T>(s: Seq<(K, T)>, key: K, value: T) -> Seq<(K, T)> {
    match position_of(s, key) {
        Some(i) => s.update(i, (key, value)),
        None => s.push((key, value)),
    }
}

/// No key has two entries.
pub open spec fn keys_distinct<K, T>(s: Seq<(K, T)>) -> bool {
    forall|i: int, j: int| 0 <= i < j < s.len() ==> (#[trigger] s[i]).0 != (#[trigger] s[j]).0
}

/// A value put for a key is found under it, other keys keep their values, and keys stay
/// distinct.
pub proof fn law_put<K, T>(s: Seq<(K, T)>, key: K, value: T, other: K)
    ensures
        value_of(put(s, key, value), key) == Some(value),
        other != key ==> value_of(put(s, key, value), other) == value_of(s, other),
        keys_distinct(s) ==> keys_distinct(put(s, key, value)),
{
    let n = put(s, key, value);
    lemma_position_of(s, key);
    lemma_position_of(n, key);
    match position_of(s, key) {
        Some(i) => {
            assert(n[i].0 == key);
            assert forall|j: int| 0 <= j < s.len() implies n[j].0 == (#[trigger] s[j]).0 by {
                if j != i {
                    assert(n[j] == s[j]);
                }
            }
            lemma_same_keys(s, n, key);
            if other != key {
                lemma_same_keys(s, n, other);
                lemma_position_of(s, other);
            }
        },
        None => {
            assert(n.drop_last() =~= s);
            if other != key {
                lemma_position_of(s, other);
            }
        },
    }
}

/// The position of the first entry with a key.
pub fn find_key<T>(v: &Vec<(String, T)>, key: &str) -> (r: Option<usize>)
    ensures
        match r {
            Some(i) => i < v.len() && position_of(keyed(v@), key@) == Some(i as int),
            None => position_of(keyed(v@), key@) is None,
        },
{
    let ghost s = keyed(v@);
    let mut i: usize = 0;
    while i < v.len()
        invariant
            i <= v.len(),
            s == keyed(v@),
            forall|j: int| 0 <= j < i ==> (#[trigger] s[j]).0 != key@,
        decreases v.len() - i,
    {
        assert(s[i as int].0 == v@[i as int].0@);
        if str_eq(v[i].0.as_str(), key) {
            proof {
                lemma_position_of(s, key@);
            }
            return Some(i);
        }
        i += 1;
    }
    proof {
        lemma_position_of(s, key@);
    }
    None
}

/// The value of the first entry with a key.
pub fn find_value<'a, T>(v: &'a Vec<(String, T)>, key: &str) -> (r: Option<&'a T>)
    ensures
        match r {
            Some(x) => value_of(keyed(v@), key@) == Some(*x),
            None => value_of(keyed(v@), key@) is None,
        },
{
    match find_key(v, key) {
        Some(i) => Some(&v[i].1),
        None => None,
    }
}

/// The positions of the entries of a table with numbers for keys.
pub struct Positions {
    map: HashMap<u32, usize>,
}

impl Positions {
    /// These are the positions of the table `s`.
    pub closed spec fn of<T>(&self, s: Seq<(u32, T)>) -> bool {
        forall|key: u32|
            match #[trigger] position_of(s, key) {
                Some(i) => self.map@.contains_key(key) && self.map@[key] == i,
                None => !self.map@.contains_key(key),
            }
    }

    /// The positions of a table.
    pub fn new<T>(v: &Vec<(u32, T)>) -> (r: Positions)
        ensures
            r.of(v@),
    {
        broadcast use vstd::std_specs::hash::group_hash_axioms;

        let mut map: HashMap<u32, usize> = HashMap::new();
        let mut i: usize = 0;
        while i < v.len()
            invariant
                i <= v.len(),
                forall|key: u32|
                    match #[trigger] position_of(v@.take(i as int), key) {
                        Some(p) => map@.contains_key(key) && map@[key] == p,
                        None => !map@.contains_key(key),
                    },
            decreases v.len() - i,
        {
            broadcast use vstd::std_specs::hash::group_hash_axioms;

            let key: u32 = v[i].0;
            let ghost held = map@;
            proof {
                assert(v@.take(i + 1).drop_last() =~= v@.take(i as int));
                assert(v@.take(i + 1).last() == v@[i as int]);
                assert(position_of(v@.take(i as int), key) is Some <==> held.contains_key(key));
            }
            if !map.contains_key(&key) {
                map.insert(key, i);
            }
            proof {
                assert forall|k: u32|
                    match #[trigger] position_of(v@.take(i + 1), k) {
                        Some(p) => map@.contains_key(k) && map@[k] == p,
                        None => !map@.contains_key(k),
                    } by {
                    let p = position_of(v@.take(i as int), k);
                }
            }
            i += 1;
        }
        proof {
            assert(v@.take(i as int) =~= v@);
        }
        Positions { map }
    }

    /// The value of the first entry with a key in the table that these are the positions of.
    pub fn get<'a, T>(&self, v: &'a Vec<(u32, T)>, key: u32) -> (r: Option<&'a T>)
        requires
            self.of(v@),
        ensures
            match r {
                Some(x) => value_of(v@, key) == Some(*x),
                None => value_of(v@, key) is None,
            },
    {
        broadcast use vstd::std_specs::hash::group_hash_axioms;

        proof {
            lemma_position_of(v@, key);
        }
        match self.map.get(&key) {
            Some(i) => Some(&v[*i].1),
            None => None,
        }
    }
}

}
