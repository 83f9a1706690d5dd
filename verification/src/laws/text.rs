//! What splitting, trimming and writing numbers do to texts.

use vstd::prelude::*;

use crate::text::{decimal, find_from, is_white, joined, last_segment, law_joined_split, lemma_find_from};
use crate::text::{marked, matches_at, occurs, replaced, segments, split, split_from, starts, stripped};
use crate::text::{trim_end, trim_start, trimmed, underscored, unmarked, zero_padded};

verus! {

proof fn lemma_no_match_inside(s: Seq<char>, pat: Seq<char>, start: int, end: int)
    requires
        0 <= start <= end <= s.len(),
        forall|j: int| start <= j && j + pat.len() <= end ==> !matches_at(s, pat, j),
    ensures
        !occurs(s.subrange(start, end), pat),
{
    let part = s.subrange(start, end);
    assert forall|j: int| !matches_at(part, pat, j) by {
        if matches_at(part, pat, j) {
            assert(s.subrange(start + j, start + j + pat.len()) =~= part.subrange(j, j + pat.len()));
            assert(matches_at(s, pat, start + j));
        }
    }
}

proof fn lemma_split_parts(s: Seq<char>, pat: Seq<char>, start: int)
    requires
        pat.len() > 0,
        0 <= start <= s.len(),
    ensures
        split_from(s, pat, start).len() > 0,
        forall|i: int|
            0 <= i < split_from(s, pat, start).len() ==> !occurs(
                #[trigger] split_from(s, pat, start)[i],
                pat,
            ),
        ({
            let first = split_from(s, pat, start)[0];
            let rest = s.skip(start);
            rest == first || (first + pat).is_prefix_of(rest)
        }),
        ({
            let last = split_from(s, pat, start).last();
            let rest = s.skip(start);
            rest == last || (pat + last).is_suffix_of(rest)
        }),
        split_from(s, pat, start).len() == 1 <==> !occurs(s.skip(start), pat),
    decreases s.len() - start,
{
    let parts = split_from(s, pat, start);
    let rest = s.skip(start);
    lemma_find_from(s, pat, start);
    match find_from(s, pat, start) {
        Some(i) => {
            let n = i + pat.len();
            let more = split_from(s, pat, n);
            assert(matches_at(s, pat, i));
            lemma_split_parts(s, pat, n);
            assert(parts =~= seq![s.subrange(start, i)] + more);
            lemma_no_match_inside(s, pat, start, i);
            assert forall|j: int| 0 <= j < parts.len() implies !occurs(#[trigger] parts[j], pat) by {
                if j > 0 {
                    assert(parts[j] == more[j - 1]);
                }
            }
            assert(rest.subrange(0, i - start + pat.len()) =~= s.subrange(start, i) + pat) by {
                assert(s.subrange(i, i + pat.len()) == pat);
                assert(rest.subrange(0, i - start + pat.len()) =~= s.subrange(start, i) + s.subrange(
                    i,
                    i + pat.len(),
                ));
            }
            assert(parts.last() == more.last());
            let last = more.last();
            let tail = s.skip(n);
            assert(tail =~= rest.skip(n - start));
            if tail == last {
                assert(rest.subrange(rest.len() - pat.len() - last.len(), rest.len() as int) =~= s.subrange(
                    i,
                    i + pat.len(),
                ) + tail);
                assert((pat + last).is_suffix_of(rest));
            } else {
                assert((pat + last).is_suffix_of(tail));
                let m = (pat + last).len() as int;
                assert(tail.subrange(tail.len() - m, tail.len() as int) =~= rest.subrange(
                    rest.len() - m,
                    rest.len() as int,
                ));
            }
            assert(matches_at(rest, pat, i - start)) by {
                assert(rest.subrange(i - start, i - start + pat.len()) =~= s.subrange(
                    i,
                    i + pat.len(),
                ));
            }
        },
        None => {
            lemma_no_match_inside(s, pat, start, s.len() as int);
            assert(s.subrange(start, s.len() as int) =~= rest);
            assert(parts =~= seq![rest]);
        },
    }
}

/// Split parts make the text again when they are joined, none of them holds the separator, and
/// there is one part exactly when the text does not hold it.
pub proof fn law_split_parts(s: Seq<char>, pat: Seq<char>)
    requires
        pat.len() > 0,
    ensures
        joined(split(s, pat), pat) == s,
        split(s, pat).len() > 0,
        forall|i: int| 0 <= i < split(s, pat).len() ==> !occurs(#[trigger] split(s, pat)[i], pat),
        split(s, pat).len() == 1 <==> !occurs(s, pat),
        s == split(s, pat)[0] || (split(s, pat)[0] + pat).is_prefix_of(s),
        s == split(s, pat).last() || (pat + split(s, pat).last()).is_suffix_of(s),
{
    law_joined_split(s, pat);
    lemma_split_parts(s, pat, 0);
    assert(s.skip(0) =~= s);
}

/// The last segment of a path is what follows its last `::`, the first what precedes its first.
pub proof fn law_path_segments(path: Seq<char>)
    ensures
        !occurs(last_segment(path), "::"@),
        path == last_segment(path) || ("::"@ + last_segment(path)).is_suffix_of(path),
        !occurs(segments(path)[0], "::"@),
        path == segments(path)[0] || (segments(path)[0] + "::"@).is_prefix_of(path),
        joined(segments(path), "::"@) == path,
{
    reveal_strlit("::");
    law_split_parts(path, "::"@);
}

proof fn lemma_joined_single(parts: Seq<Seq<char>>, a: char, b: char)
    requires
        forall|i: int| 0 <= i < parts.len() ==> !(#[trigger] parts[i]).contains(a),
    ensures
        joined(parts, seq![b]).len() == joined(parts, seq![a]).len(),
        forall|i: int|
            0 <= i < joined(parts, seq![a]).len() ==> #[trigger] joined(parts, seq![b])[i] == (
            if joined(parts, seq![a])[i] == a {
                b
            } else {
                joined(parts, seq![a])[i]
            }),
    decreases parts.len(),
{
    if parts.len() == 1 {
        assert forall|i: int| 0 <= i < parts[0].len() implies parts[0][i] != a by {
            if parts[0][i] == a {
                assert(parts[0].contains(a));
            }
        }
    } else if parts.len() > 1 {
        let f = parts.drop_last();
        assert forall|i: int| 0 <= i < f.len() implies !(#[trigger] f[i]).contains(a) by {
            assert(f[i] == parts[i]);
        }
        lemma_joined_single(f, a, b);
        let l = parts.last();
        assert(parts[parts.len() - 1] == l);
        assert forall|i: int| 0 <= i < l.len() implies l[i] != a by {
            if l[i] == a {
                assert(l.contains(a));
            }
        }
        let x = joined(f, seq![a]);
        let y = joined(f, seq![b]);
        let p = joined(parts, seq![a]);
        let q = joined(parts, seq![b]);
        assert(p == x + seq![a] + l);
        assert(q == y + seq![b] + l);
        assert forall|i: int| 0 <= i < p.len() implies #[trigger] q[i] == (if p[i] == a {
            b
        } else {
            p[i]
        }) by {
            if i < x.len() {
                assert(q[i] == y[i]);
                assert(p[i] == x[i]);
            } else if i > x.len() {
                assert(p[i] == l[i - x.len() - 1]);
                assert(q[i] == l[i - x.len() - 1]);
            }
        }
    }
}

/// Replacing one character by another does so character by character.
pub proof fn law_replaced_character(s: Seq<char>, a: char, b: char)
    ensures
        replaced(s, seq![a], seq![b]).len() == s.len(),
        forall|i: int|
            0 <= i < s.len() ==> #[trigger] replaced(s, seq![a], seq![b])[i] == (if s[i] == a {
                b
            } else {
                s[i]
            }),
{
    law_split_parts(s, seq![a]);
    let parts = split(s, seq![a]);
    assert forall|i: int| 0 <= i < parts.len() implies !(#[trigger] parts[i]).contains(a) by {
        lemma_no_character(parts[i], a);
    }
    lemma_joined_single(parts, a, b);
}

/// A text that does not hold the text of one character does not hold the character.
pub proof fn lemma_no_character(s: Seq<char>, a: char)
    requires
        !occurs(s, seq![a]),
    ensures
        !s.contains(a),
{
    if s.contains(a) {
        let j = choose|j: int| 0 <= j < s.len() && s[j] == a;
        assert(s.subrange(j, j + 1) =~= seq![a]);
        assert(matches_at(s, seq![a], j));
    }
}

/// A name with underscores is the name character by character, with an underscore for each
/// hyphen.
pub proof fn law_underscored(s: Seq<char>)
    ensures
        underscored(s).len() == s.len(),
        forall|i: int|
            0 <= i < s.len() ==> #[trigger] underscored(s)[i] == (if s[i] == '-' {
                '_'
            } else {
                s[i]
            }),
{
    reveal_strlit("-");
    reveal_strlit("_");
    assert("-"@ =~= seq!['-']);
    assert("_"@ =~= seq!['_']);
    law_replaced_character(s, '-', '_');
}

/// Copies of a text are taken off the front of another until it does not begin with it.
pub proof fn law_stripped(s: Seq<char>, pat: Seq<char>)
    requires
        pat.len() > 0,
    ensures
        !pat.is_prefix_of(stripped(s, pat)),
        stripped(s, pat).is_suffix_of(s),
        !pat.is_prefix_of(s) ==> stripped(s, pat) == s,
        stripped(pat + s, pat) == stripped(s, pat),
    decreases s.len(),
{
    let t = pat + s;
    assert(t.subrange(0, pat.len() as int) =~= pat);
    assert(t.skip(pat.len() as int) =~= s);
    if starts(s, pat) {
        let rest = s.skip(pat.len() as int);
        law_stripped(rest, pat);
        let r = stripped(rest, pat);
        assert(s.subrange(s.len() - r.len(), s.len() as int) =~= rest.subrange(
            rest.len() - r.len(),
            rest.len() as int,
        ));
    } else {
        assert(s.subrange(0, s.len() as int) =~= s);
    }
}

proof fn lemma_trim_start(m: Seq<(char, bool)>)
    ensures
        trim_start(m).is_suffix_of(m),
        trim_start(m).len() > 0 ==> !trim_start(m)[0].1,
        forall|i: int| 0 <= i < m.len() - trim_start(m).len() ==> (#[trigger] m[i]).1,
    decreases m.len(),
{
    if m.len() > 0 && m[0].1 {
        let t = m.skip(1);
        lemma_trim_start(t);
        let r = trim_start(t);
        assert(m.subrange(m.len() - r.len(), m.len() as int) =~= t.subrange(
            t.len() - r.len(),
            t.len() as int,
        ));
        assert forall|i: int| 0 <= i < m.len() - r.len() implies (#[trigger] m[i]).1 by {
            if i > 0 {
                assert(t[i - 1] == m[i]);
            }
        }
    } else {
        assert(m.subrange(0, m.len() as int) =~= m);
    }
}

proof fn lemma_trim_end(m: Seq<(char, bool)>)
    ensures
        trim_end(m).is_prefix_of(m),
        trim_end(m).len() > 0 ==> !trim_end(m).last().1,
        forall|i: int| trim_end(m).len() <= i < m.len() ==> (#[trigger] m[i]).1,
    decreases m.len(),
{
    if m.len() > 0 && m.last().1 {
        let t = m.drop_last();
        lemma_trim_end(t);
        let r = trim_end(t);
        assert(m.subrange(0, r.len() as int) =~= t.subrange(0, r.len() as int));
        assert forall|i: int| r.len() <= i < m.len() implies (#[trigger] m[i]).1 by {
            if i < t.len() {
                assert(t[i] == m[i]);
            }
        }
    } else {
        assert(m.subrange(0, m.len() as int) =~= m);
    }
}

/// What is trimmed stands in the text between white space only, and neither begins nor ends with
/// white space.
pub proof fn law_trimmed(s: Seq<char>)
    ensures
        exists|a: int, b: int|
            0 <= a <= b <= s.len() && trimmed(s) == #[trigger] s.subrange(a, b) && (forall|i: int|
                0 <= i < a ==> is_white(#[trigger] s[i])) && (forall|i: int|
                b <= i < s.len() ==> is_white(#[trigger] s[i])),
        trimmed(s).len() > 0 ==> !is_white(trimmed(s)[0]) && !is_white(trimmed(s).last()),
{
    let m = marked(s);
    let t = trim_start(m);
    let e = trim_end(t);
    lemma_trim_start(m);
    lemma_trim_end(t);
    let a = m.len() - t.len();
    let b = a + e.len();
    assert forall|i: int| 0 <= i < t.len() implies #[trigger] t[i] == m[a + i] by {
        assert(m.subrange(a, m.len() as int)[i] == m[a + i]);
    }
    assert forall|i: int| 0 <= i < e.len() implies #[trigger] e[i] == t[i] by {
        assert(t.subrange(0, e.len() as int)[i] == t[i]);
    }
    assert(trimmed(s) =~= s.subrange(a, b)) by {
        assert forall|i: int| 0 <= i < e.len() implies unmarked(e)[i] == s[a + i] by {
            assert(e[i] == t[i]);
            assert(t[i] == m[a + i]);
        }
    }
    assert forall|i: int| 0 <= i < a implies is_white(#[trigger] s[i]) by {
        assert(m[i].1);
    }
    assert forall|i: int| b <= i < s.len() implies is_white(#[trigger] s[i]) by {
        assert(t[i - a] == m[i]);
        assert(t[i - a].1);
    }
    if e.len() > 0 {
        assert(e[0] == t[0]);
        assert(t[0] == m[a]);
        assert(e.last() == e[e.len() - 1]);
        assert(e[e.len() - 1] == t[e.len() - 1]);
        assert(t[e.len() - 1] == m[b - 1]);
    }
    assert(s.subrange(a, b) == trimmed(s));
}

/// The value of decimal digits.
pub open spec fn digits_value(s: Seq<char>) -> int
    decreases s.len(),
{
    if s.len() == 0 {
        0
    } else {
        digits_value(s.drop_last()) * 10 + (s.last() as int - '0' as int)
    }
}

/// A number is written in decimal digits that stand for it, without zeros before it.
pub proof fn law_decimal(n: nat)
    ensures
        decimal(n).len() > 0,
        digits_value(decimal(n)) == n,
        forall|i: int| 0 <= i < decimal(n).len() ==> '0' <= #[trigger] decimal(n)[i] <= '9',
        n > 0 ==> decimal(n)[0] != '0',
        n == 0 ==> decimal(n).len() == 1,
    decreases n,
{
    if n < 10 {
        let s = decimal(n);
        assert(s.drop_last() =~= Seq::empty());
        assert(digits_value(s.drop_last()) == 0);
        assert(s.last() as int == 48 + n);
    } else {
        law_decimal(n / 10);
        let s = decimal(n);
        assert(s.drop_last() =~= decimal(n / 10));
        assert(s.last() as int == 48 + n % 10);
    }
}

/// What is padded has the width, or stays as it is where it is wider; zeros come before it and
/// its value does not change.
pub proof fn law_zero_padded(s: Seq<char>, width: nat)
    ensures
        zero_padded(s, width).len() == if s.len() >= width {
            s.len()
        } else {
            width
        },
        s.is_suffix_of(zero_padded(s, width)),
        forall|i: int|
            0 <= i < zero_padded(s, width).len() - s.len() ==> #[trigger] zero_padded(s, width)[i] == '0',
{
    let p = zero_padded(s, width);
    assert(p.subrange(p.len() - s.len(), p.len() as int) =~= s);
}

}
