//! Text as sequences of characters: searching, splitting, joining, trimming and numbers.

use vstd::prelude::*;
use vstd::std_specs::iter::IteratorSpec;
use vstd::string::*;

verus! {

/// `String::push` appends one character at the end.
pub assume_specification[ String::push ](s: &mut String, c: char)
    ensures
        final(s)@ == old(s)@.push(c),
;

/// Names what `char::is_whitespace` answers for a character.
pub uninterp spec fn is_white(c: char) -> bool;

/// Names what `char::is_uppercase` answers for a character.
pub uninterp spec fn is_upper(c: char) -> bool;

/// Names the text that `str::to_lowercase` makes of a text.
pub uninterp spec fn lowercase(s: Seq<char>) -> Seq<char>;

/// Calls `char::is_whitespace`; its answer depends on the character alone.
#[verifier::external_body]
fn char_is_white(c: char) -> (r: bool)
    ensures
        r == is_white(c),
{
    c.is_whitespace()
}

/// Calls `char::is_uppercase`; its answer depends on the character alone.
#[verifier::external_body]
pub(crate) fn char_is_upper(c: char) -> (r: bool)
    ensures
        r == is_upper(c),
{
    c.is_uppercase()
}

/// Calls `str::to_lowercase`; the result depends on the text alone.
#[verifier::external_body]
pub(crate) fn str_lowercase(s: &str) -> (r: String)
    ensures
        r@ == lowercase(s@),
{
    s.to_lowercase()
}

/// Whether two texts have the same characters.
pub(crate) fn str_eq(a: &str, b: &str) -> (r: bool)
    ensures
        r == (a@ == b@),
{
    let mut p = a.chars();
    let mut q = b.chars();
    loop
        invariant
            IteratorSpec::decrease(&p) is Some,
            (a@ == b@) == (IteratorSpec::remaining(&p) == IteratorSpec::remaining(&q)),
        decreases IteratorSpec::decrease(&p)->0,
    {
        let ghost s = IteratorSpec::remaining(&p);
        let ghost t = IteratorSpec::remaining(&q);
        match (p.next(), q.next()) {
            (Some(c), Some(d)) => {
                proof {
                    assert(s =~= seq![c] + s.drop_first());
                    assert(t =~= seq![d] + t.drop_first());
                }
                if c != d {
                    return false;
                }
            },
            (None, None) => {
                assert(s =~= t);
                return true;
            },
            _ => {
                return false;
            },
        }
    }
}

/// Whether a text comes before another, by code point.
pub(crate) fn str_lt(a: &str, b: &str) -> (r: bool)
    ensures
        r == text_lt(a@, b@),
{
    let mut p = a.chars();
    let mut q = b.chars();
    loop
        invariant
            IteratorSpec::decrease(&p) is Some,
            text_lt(a@, b@) == text_lt(IteratorSpec::remaining(&p), IteratorSpec::remaining(&q)),
        decreases IteratorSpec::decrease(&p)->0,
    {
        let ghost s = IteratorSpec::remaining(&p);
        let ghost t = IteratorSpec::remaining(&q);
        match (p.next(), q.next()) {
            (Some(c), Some(d)) => {
                proof {
                    assert(s.drop_first() =~= s.skip(1));
                    assert(t.drop_first() =~= t.skip(1));
                }
                if c != d {
                    return c < d;
                }
            },
            (None, Some(_)) => {
                return true;
            },
            (_, None) => {
                return false;
            },
        }
    }
}

/// The views of a sequence of values.
pub open spec fn views<T: View>(s: Seq<T>) -> Seq<T::V> {
    s.map_values(|x: T| x@)
}

/// Lexicographic order of texts by code point.
pub open spec fn text_lt(a: Seq<char>, b: Seq<char>) -> bool
    decreases a.len(),
{
    if b.len() == 0 {
        false
    } else if a.len() == 0 {
        true
    } else if a[0] != b[0] {
        a[0] < b[0]
    } else {
        text_lt(a.skip(1), b.skip(1))
    }
}

/// No text precedes itself.
pub proof fn lemma_text_lt_irreflexive(a: Seq<char>)
    ensures
        !text_lt(a, a),
    decreases a.len(),
{
    if a.len() > 0 {
        lemma_text_lt_irreflexive(a.skip(1));
    }
}

/// The order of texts is transitive.
pub proof fn lemma_text_lt_transitive(a: Seq<char>, b: Seq<char>, c: Seq<char>)
    requires
        text_lt(a, b),
        text_lt(b, c),
    ensures
        text_lt(a, c),
    decreases a.len(),
{
    if a.len() > 0 && b.len() > 0 && c.len() > 0 && a[0] == b[0] && b[0] == c[0] {
        lemma_text_lt_transitive(a.skip(1), b.skip(1), c.skip(1));
    }
}

/// Two texts of which neither precedes the other are equal.
pub proof fn lemma_text_lt_total(a: Seq<char>, b: Seq<char>)
    requires
        !text_lt(a, b),
        !text_lt(b, a),
    ensures
        a == b,
    decreases a.len(),
{
    if a.len() > 0 && b.len() > 0 {
        lemma_text_lt_total(a.skip(1), b.skip(1));
        assert(a =~= seq![a[0]] + a.skip(1));
        assert(b =~= seq![b[0]] + b.skip(1));
    } else {
        assert(a =~= b);
    }
}

/// `pat` stands in `s` at position `i`.
pub open spec fn matches_at(s: Seq<char>, pat: Seq<char>, i: int) -> bool {
    0 <= i && i + pat.len() <= s.len() && s.subrange(i, i + pat.len()) == pat
}

/// `s` begins with `pat`.
pub open spec fn starts(s: Seq<char>, pat: Seq<char>) -> bool {
    matches_at(s, pat, 0)
}

/// `s` ends with `pat`.
pub open spec fn ends(s: Seq<char>, pat: Seq<char>) -> bool {
    matches_at(s, pat, s.len() - pat.len())
}

/// `pat` stands somewhere in `s`.
pub open spec fn occurs(s: Seq<char>, pat: Seq<char>) -> bool {
    exists|i: int| matches_at(s, pat, i)
}

/// The first position from `start` on at which `pat` stands in `s`.
pub open spec fn find_from(s: Seq<char>, pat: Seq<char>, start: int) -> Option<int>
    decreases s.len() + 1 - start,
{
    if start < 0 || start + pat.len() > s.len() {
        None
    } else if matches_at(s, pat, start) {
        Some(start)
    } else {
        find_from(s, pat, start + 1)
    }
}

/// The parts of `s` from `start` on between the occurrences of `pat`, taken from left to right.
pub open spec fn split_from(s: Seq<char>, pat: Seq<char>, start: int) -> Seq<Seq<char>>
    decreases s.len() - start,
{
    if pat.len() == 0 || start < 0 || start > s.len() {
        seq![]
    } else {
        match find_from(s, pat, start) {
            Some(i) => {
                proof {
                    lemma_find_from(s, pat, start);
                }
                seq![s.subrange(start, i)] + split_from(s, pat, i + pat.len())
            },
            None => seq![s.subrange(start, s.len() as int)],
        }
    }
}

/// The parts of `s` between the occurrences of `pat`, taken from left to right.
pub open spec fn split(s: Seq<char>, pat: Seq<char>) -> Seq<Seq<char>> {
    split_from(s, pat, 0)
}

/// The parts in order, with `sep` between neighbours.
pub open spec fn joined(parts: Seq<Seq<char>>, sep: Seq<char>) -> Seq<char>
    decreases parts.len(),
{
    if parts.len() == 0 {
        seq![]
    } else if parts.len() == 1 {
        parts[0]
    } else {
        joined(parts.drop_last(), sep) + sep + parts.last()
    }
}

/// `s` with every occurrence of `pat`, taken from left to right, replaced by `with`.
pub open spec fn replaced(s: Seq<char>, pat: Seq<char>, with: Seq<char>) -> Seq<char> {
    joined(split(s, pat), with)
}

/// Characters, each with whether it is white space.
pub open spec fn marked(s: Seq<char>) -> Seq<(char, bool)> {
    s.map_values(|c: char| (c, is_white(c)))
}

/// The characters of a marked text.
pub open spec fn unmarked(m: Seq<(char, bool)>) -> Seq<char> {
    m.map_values(|p: (char, bool)| p.0)
}

/// A marked text without the white space at its beginning.
pub open spec fn trim_start(m: Seq<(char, bool)>) -> Seq<(char, bool)>
    decreases m.len(),
{
    if m.len() > 0 && m[0].1 {
        trim_start(m.skip(1))
    } else {
        m
    }
}

/// A marked text without the white space at its end.
pub open spec fn trim_end(m: Seq<(char, bool)>) -> Seq<(char, bool)>
    decreases m.len(),
{
    if m.len() > 0 && m.last().1 {
        trim_end(m.drop_last())
    } else {
        m
    }
}

/// `s` without the white space at both ends.
pub open spec fn trimmed(s: Seq<char>) -> Seq<char> {
    unmarked(trim_end(trim_start(marked(s))))
}

/// `s` without the copies of `pat` that stand at its beginning.
pub open spec fn stripped(s: Seq<char>, pat: Seq<char>) -> Seq<char>
    decreases s.len(),
{
    if pat.len() > 0 && starts(s, pat) {
        stripped(s.skip(pat.len() as int), pat)
    } else {
        s
    }
}

/// The decimal digit of a number below ten.
pub open spec fn digit(n: nat) -> char {
    (48 + n) as char
}

/// A number in decimal notation.
pub open spec fn decimal(n: nat) -> Seq<char>
    decreases n,
{
    if n < 10 {
        seq![digit(n)]
    } else {
        decimal(n / 10).push(digit(n % 10))
    }
}

/// `s` with zeros before it up to a length of `width`.
pub open spec fn zero_padded(s: Seq<char>, width: nat) -> Seq<char> {
    if s.len() >= width {
        s
    } else {
        Seq::new((width - s.len()) as nat, |i: int| '0') + s
    }
}

/// How a truth value is written.
pub open spec fn bool_text(b: bool) -> Seq<char> {
    if b {
        "true"@
    } else {
        "false"@
    }
}

/// What is found lies in the text, from `start` on, and is an occurrence; nothing before it is.
pub proof fn lemma_find_from(s: Seq<char>, pat: Seq<char>, start: int)
    ensures
        find_from(s, pat, start) matches Some(i) ==> start <= i && matches_at(s, pat, i),
        find_from(s, pat, start) matches Some(i) ==> forall|j: int|
            start <= j < i ==> !matches_at(s, pat, j),
        0 <= start && find_from(s, pat, start) is None ==> forall|j: int|
            start <= j ==> !matches_at(s, pat, j),
    decreases s.len() + 1 - start,
{
    if start < 0 || start + pat.len() > s.len() {
    } else if matches_at(s, pat, start) {
    } else {
        lemma_find_from(s, pat, start + 1);
    }
}

/// Joining the parts of a text with the pattern that split it gives the text back.
pub proof fn law_joined_split(s: Seq<char>, pat: Seq<char>)
    requires
        pat.len() > 0,
    ensures
        joined(split(s, pat), pat) == s,
{
    lemma_joined_split_from(s, pat, 0);
    assert(s.subrange(0, s.len() as int) =~= s);
}

proof fn lemma_joined_split_from(s: Seq<char>, pat: Seq<char>, start: int)
    requires
        pat.len() > 0,
        0 <= start <= s.len(),
    ensures
        split_from(s, pat, start).len() > 0,
        joined(split_from(s, pat, start), pat) == s.subrange(start, s.len() as int),
    decreases s.len() - start,
{
    lemma_find_from(s, pat, start);
    match find_from(s, pat, start) {
        Some(i) => {
            let rest = split_from(s, pat, i + pat.len());
            lemma_joined_split_from(s, pat, i + pat.len());
            lemma_joined_front(s.subrange(start, i), rest, pat);
            assert(s.subrange(start, i) + pat + s.subrange(i + pat.len(), s.len() as int)
                =~= s.subrange(start, s.len() as int)) by {
                assert(pat == s.subrange(i, i + pat.len()));
            }
        },
        None => {},
    }
}

proof fn lemma_joined_front(first: Seq<char>, rest: Seq<Seq<char>>, sep: Seq<char>)
    requires
        rest.len() > 0,
    ensures
        joined(seq![first] + rest, sep) == first + sep + joined(rest, sep),
    decreases rest.len(),
{
    let all = seq![first] + rest;
    assert(all.drop_last() =~= seq![first] + rest.drop_last());
    if rest.len() == 1 {
        assert(all.drop_last() =~= seq![first]);
        reveal_with_fuel(joined, 2);
    } else {
        lemma_joined_front(first, rest.drop_last(), sep);
        assert(all.last() == rest.last());
        assert(first + sep + (joined(rest.drop_last(), sep) + sep + rest.last()) =~= first + sep
            + joined(rest.drop_last(), sep) + sep + rest.last());
    }
}

/// The characters of a text.
pub fn chars_of(s: &str) -> (r: Vec<char>)
    ensures
        r@ == s@,
{
    let mut out: Vec<char> = Vec::new();
    for c in it: s.chars()
        invariant
            out@ == s@.take(it.index()),
            it.seq() == s@,
    {
        out.push(c);
    }
    out
}

/// The first character of what a character is in lower case, if there is one.
pub open spec fn lower_first(c: char) -> Option<char> {
    if lowercase(seq![c]).len() > 0 {
        Some(lowercase(seq![c])[0])
    } else {
        None
    }
}

/// The first character of what a character is in lower case, if there is one.
pub fn char_lower_first(c: char) -> (r: Option<char>)
    ensures
        r == lower_first(c),
{
    let mut one = String::new();
    one.push(c);
    assert(one@ =~= seq![c]);
    let lower = chars_of(str_lowercase(one.as_str()).as_str());
    if lower.len() > 0 {
        Some(lower[0])
    } else {
        None
    }
}

/// The text made of the characters from `from` to `to`.
pub fn text_between(cs: &Vec<char>, from: usize, to: usize) -> (r: String)
    requires
        from <= to <= cs.len(),
    ensures
        r@ == cs@.subrange(from as int, to as int),
{
    let mut out = String::new();
    let mut i: usize = from;
    while i < to
        invariant
            from <= i <= to <= cs.len(),
            out@ == cs@.subrange(from as int, i as int),
        decreases to - i,
    {
        out.push(cs[i]);
        i += 1;
        assert(cs@.subrange(from as int, i as int) =~= cs@.subrange(from as int, i - 1).push(cs@[i - 1]));
    }
    out
}

/// Whether `pat` stands in `cs` at position `i`.
fn is_at(cs: &Vec<char>, pat: &Vec<char>, i: usize) -> (r: bool)
    requires
        i + pat.len() <= cs.len(),
    ensures
        r == matches_at(cs@, pat@, i as int),
{
    let mut j: usize = 0;
    while j < pat.len()
        invariant
            j <= pat.len(),
            i + pat.len() <= cs.len(),
            forall|k: int| 0 <= k < j ==> cs@[i + k] == pat@[k],
        decreases pat.len() - j,
    {
        if cs[i + j] != pat[j] {
            assert(cs@.subrange(i as int, i + pat@.len())[j as int] != pat@[j as int]);
            return false;
        }
        j += 1;
    }
    assert(cs@.subrange(i as int, i + pat@.len()) =~= pat@);
    true
}

/// The first position from `start` on at which `pat` stands in `cs`.
pub fn find_chars(cs: &Vec<char>, pat: &Vec<char>, start: usize) -> (r: Option<usize>)
    ensures
        match r {
            Some(i) => find_from(cs@, pat@, start as int) == Some(i as int),
            None => find_from(cs@, pat@, start as int) is None,
        },
{
    let mut i: usize = start;
    while i <= cs.len() && pat.len() <= cs.len() - i
        invariant
            find_from(cs@, pat@, start as int) == find_from(cs@, pat@, i as int),
            start <= i,
            i <= cs.len() + 1 || i == start,
        decreases cs.len() + 1 - i,
    {
        if is_at(cs, pat, i) {
            return Some(i);
        }
        if i == cs.len() {
            proof {
                reveal_with_fuel(find_from, 2);
            }
            return None;
        }
        i += 1;
    }
    None
}

/// Whether `s` begins with `pat`.
pub fn starts_with(s: &str, pat: &str) -> (r: bool)
    ensures
        r == starts(s@, pat@),
{
    let cs = chars_of(s);
    let ps = chars_of(pat);
    ps.len() <= cs.len() && is_at(&cs, &ps, 0)
}

/// Whether `s` ends with `pat`.
pub fn ends_with(s: &str, pat: &str) -> (r: bool)
    ensures
        r == ends(s@, pat@),
{
    let cs = chars_of(s);
    let ps = chars_of(pat);
    ps.len() <= cs.len() && is_at(&cs, &ps, cs.len() - ps.len())
}

/// Whether `pat` stands somewhere in `s`.
pub fn contains_text(s: &str, pat: &str) -> (r: bool)
    ensures
        r == occurs(s@, pat@),
{
    let cs = chars_of(s);
    let ps = chars_of(pat);
    proof {
        lemma_find_from(s@, pat@, 0);
    }
    match find_chars(&cs, &ps, 0) {
        Some(i) => {
            assert(matches_at(s@, pat@, i as int));
            true
        },
        None => {
            assert(forall|j: int| matches_at(s@, pat@, j) ==> 0 <= j);
            false
        },
    }
}

/// Whether the character `c` stands somewhere in `s`.
pub fn contains_char(s: &str, c: char) -> (r: bool)
    ensures
        r == s@.contains(c),
{
    let cs = chars_of(s);
    let mut i: usize = 0;
    while i < cs.len()
        invariant
            i <= cs.len(),
            cs@ == s@,
            forall|k: int| 0 <= k < i ==> cs@[k] != c,
        decreases cs.len() - i,
    {
        if cs[i] == c {
            assert(s@[i as int] == c);
            return true;
        }
        i += 1;
    }
    false
}

/// The parts of `s` between the occurrences of `pat`.
pub fn split_text(s: &str, pat: &str) -> (r: Vec<String>)
    requires
        pat@.len() > 0,
    ensures
        views(r@) == split(s@, pat@),
        r@.len() > 0,
{
    let cs = chars_of(s);
    let ps = chars_of(pat);
    let mut out: Vec<String> = Vec::new();
    let mut start: usize = 0;
    proof {
        assert(views(out@) + split_from(s@, pat@, 0) =~= split(s@, pat@));
    }
    loop
        invariant
            start <= cs.len(),
            cs@ == s@,
            ps@ == pat@,
            pat@.len() > 0,
            views(out@) + split_from(s@, pat@, start as int) == split(s@, pat@),
        decreases cs.len() - start,
    {
        proof {
            lemma_find_from(s@, pat@, start as int);
        }
        let ghost before = out@;
        match find_chars(&cs, &ps, start) {
            Some(i) => {
                out.push(text_between(&cs, start, i));
                proof {
                    assert(views(out@) =~= views(before).push(s@.subrange(start as int, i as int)));
                    assert(views(out@) + split_from(s@, pat@, i + pat@.len()) =~= views(before)
                        + split_from(s@, pat@, start as int));
                }
                start = i + ps.len();
            },
            None => {
                out.push(text_between(&cs, start, cs.len()));
                proof {
                    assert(views(out@) =~= views(before) + split_from(s@, pat@, start as int));
                }
                return out;
            },
        }
    }
}

/// The parts in order, with `sep` between neighbours.
pub fn join(parts: &Vec<String>, sep: &str) -> (r: String)
    ensures
        r@ == joined(views(parts@), sep@),
{
    let mut out = String::new();
    let mut i: usize = 0;
    let ghost all = views(parts@);
    while i < parts.len()
        invariant
            i <= parts.len(),
            all == views(parts@),
            out@ == joined(all.take(i as int), sep@),
        decreases parts.len() - i,
    {
        if i > 0 {
            out.append(sep);
        }
        out.append(parts[i].as_str());
        proof {
            assert(all.take(i + 1).drop_last() =~= all.take(i as int));
            if i == 0 {
                assert(out@ =~= all[0]);
            }
        }
        i += 1;
    }
    proof {
        assert(all.take(i as int) =~= all);
    }
    out
}

/// `s` with every occurrence of `pat` replaced by `with`.
pub fn replace_text(s: &str, pat: &str, with: &str) -> (r: String)
    requires
        pat@.len() > 0,
    ensures
        r@ == replaced(s@, pat@, with@),
{
    join(&split_text(s, pat), with)
}

/// The characters of a marked text without the white space at both ends.
pub fn trim_marked(m: &Vec<(char, bool)>) -> (r: String)
    ensures
        r@ == unmarked(trim_end(trim_start(m@))),
{
    let to: usize = m.len();
    let mut lo: usize = 0;
    assert(m@.subrange(0, to as int) =~= m@);
    while lo < to && m[lo].1
        invariant
            lo <= to == m.len(),
            trim_start(m@) == trim_start(m@.subrange(lo as int, to as int)),
        decreases to - lo,
    {
        assert(m@.subrange(lo as int, to as int).skip(1) =~= m@.subrange(lo + 1, to as int));
        lo += 1;
    }
    let mut hi: usize = to;
    let ghost t = m@.subrange(lo as int, to as int);
    assert(t =~= trim_start(m@));
    while lo < hi && m[hi - 1].1
        invariant
            lo <= hi <= to == m.len(),
            t == m@.subrange(lo as int, to as int),
            trim_end(t) == trim_end(m@.subrange(lo as int, hi as int)),
        decreases hi - lo,
    {
        assert(m@.subrange(lo as int, hi as int).drop_last() =~= m@.subrange(lo as int, hi - 1));
        hi -= 1;
    }
    let ghost kept = m@.subrange(lo as int, hi as int);
    let mut out = String::new();
    let mut i: usize = lo;
    assert(out@ =~= unmarked(kept.take(0)));
    while i < hi
        invariant
            lo <= i <= hi <= m.len(),
            kept == m@.subrange(lo as int, hi as int),
            out@ == unmarked(kept.take(i - lo)),
        decreases hi - i,
    {
        out.push(m[i].0);
        assert(out@ =~= unmarked(kept.take(i + 1 - lo)));
        i += 1;
    }
    assert(kept.take(i - lo) =~= kept);
    out
}

/// The characters of `cs` from `from` to `to` without the white space at both ends.
pub fn trim_between(cs: &Vec<char>, from: usize, to: usize) -> (r: String)
    requires
        from <= to <= cs.len(),
    ensures
        r@ == trimmed(cs@.subrange(from as int, to as int)),
{
    let ghost s = cs@.subrange(from as int, to as int);
    let mut m: Vec<(char, bool)> = Vec::new();
    let mut i: usize = from;
    assert(m@ =~= marked(s.take(0)));
    while i < to
        invariant
            from <= i <= to <= cs.len(),
            s == cs@.subrange(from as int, to as int),
            m@ == marked(s.take(i - from)),
        decreases to - i,
    {
        m.push((cs[i], char_is_white(cs[i])));
        assert(m@ =~= marked(s.take(i + 1 - from)));
        i += 1;
    }
    assert(s.take(i - from) =~= s);
    trim_marked(&m)
}

/// `s` without the copies of `pat` that stand at its beginning.
pub fn strip_all(s: &str, pat: &str) -> (r: String)
    requires
        pat@.len() > 0,
    ensures
        r@ == stripped(s@, pat@),
{
    let cs = chars_of(s);
    let ps = chars_of(pat);
    let mut at: usize = 0;
    assert(s@.skip(0) =~= s@);
    while ps.len() <= cs.len() - at && is_at(&cs, &ps, at)
        invariant
            cs@ == s@,
            ps@ == pat@,
            pat@.len() > 0,
            at <= cs.len(),
            stripped(s@, pat@) == stripped(s@.skip(at as int), pat@),
        decreases cs.len() - at,
    {
        proof {
            let rest = s@.skip(at as int);
            assert(rest.subrange(0, pat@.len() as int) =~= s@.subrange(at as int, at + pat@.len()));
            assert(rest.skip(pat@.len() as int) =~= s@.skip(at + pat@.len()));
        }
        at += ps.len();
    }
    proof {
        let rest = s@.skip(at as int);
        if starts(rest, pat@) {
            assert(rest.subrange(0, pat@.len() as int) =~= s@.subrange(at as int, at + pat@.len()));
        }
        assert(rest =~= s@.subrange(at as int, s@.len() as int));
    }
    text_between(&cs, at, cs.len())
}

/// Appends a number in decimal notation.
pub fn push_decimal(out: &mut String, n: u128)
    ensures
        final(out)@ == old(out)@ + decimal(n as nat),
    decreases n,
{
    let d: u8 = (n % 10) as u8;
    if n >= 10 {
        push_decimal(out, n / 10);
    }
    out.push((48u8 + d) as char);
    proof {
        if n >= 10 {
            assert(out@ =~= old(out)@ + decimal((n / 10) as nat).push(digit((n % 10) as nat)));
        } else {
            assert(out@ =~= old(out)@ + seq![digit(n as nat)]);
        }
    }
}

/// A number in decimal notation.
pub fn decimal_text(n: usize) -> (r: String)
    ensures
        r@ == decimal(n as nat),
{
    let mut out = String::new();
    push_decimal(&mut out, n as u128);
    assert(out@ =~= decimal(n as nat));
    out
}

/// `s` with zeros before it up to a length of `width`.
pub fn pad_zeros(s: &str, width: usize) -> (r: String)
    ensures
        r@ == zero_padded(s@, width as nat),
{
    let len: usize = s.unicode_len();
    let mut out = String::new();
    if len < width {
        let missing: usize = width - len;
        let ghost zeros = Seq::new(missing as nat, |i: int| '0');
        let mut i: usize = 0;
        while i < missing
            invariant
                i <= missing,
                zeros == Seq::new(missing as nat, |i: int| '0'),
                out@ == zeros.take(i as int),
            decreases missing - i,
        {
            out.push('0');
            assert(zeros.take(i + 1) =~= zeros.take(i as int).push('0'));
            i += 1;
        }
        assert(zeros.take(i as int) =~= zeros);
    }
    out.append(s);
    assert(out@ =~= zero_padded(s@, width as nat));
    out
}

/// How a truth value is written.
pub fn bool_word(b: bool) -> (r: String)
    ensures
        r@ == bool_text(b),
{
    if b {
        "true".to_string()
    } else {
        "false".to_string()
    }
}

/// The view of an optional value.
pub open spec fn opt_view<T: View>(o: Option<T>) -> Option<T::V> {
    match o {
        Some(x) => Some(x@),
        None => None,
    }
}

/// Whether a text has no characters.
pub fn is_empty(s: &str) -> (r: bool)
    ensures
        r == (s@.len() == 0),
{
    s.unicode_len() == 0
}

/// A name with underscores in place of hyphens.
pub open spec fn underscored(s: Seq<char>) -> Seq<char> {
    replaced(s, "-"@, "_"@)
}

/// A name with underscores in place of hyphens.
pub fn with_underscores(s: &str) -> (r: String)
    ensures
        r@ == underscored(s@),
{
    proof {
        reveal_strlit("-");
    }
    replace_text(s, "-", "_")
}

/// The segments of a path.
pub open spec fn segments(s: Seq<char>) -> Seq<Seq<char>> {
    split(s, "::"@)
}

/// The segments of a path.
pub fn path_segments(s: &str) -> (r: Vec<String>)
    ensures
        views(r@) == segments(s@),
        r@.len() > 0,
{
    proof {
        reveal_strlit("::");
    }
    split_text(s, "::")
}

/// The last segment of a path.
pub open spec fn last_segment(s: Seq<char>) -> Seq<char> {
    segments(s).last()
}

/// The last segment of a path.
pub fn final_segment(s: &str) -> (r: String)
    ensures
        r@ == last_segment(s@),
{
    let parts = path_segments(s);
    parts[parts.len() - 1].clone()
}

/// The parts in order, with `sep` between neighbours.
pub fn join_strs(parts: &Vec<&str>, sep: &str) -> (r: String)
    ensures
        r@ == joined(views(parts@), sep@),
{
    let mut out = String::new();
    let mut i: usize = 0;
    let ghost all = views(parts@);
    while i < parts.len()
        invariant
            i <= parts.len(),
            all == views(parts@),
            out@ == joined(all.take(i as int), sep@),
        decreases parts.len() - i,
    {
        if i > 0 {
            out.append(sep);
        }
        out.append(parts[i]);
        proof {
            assert(all.take(i + 1).drop_last() =~= all.take(i as int));
            if i == 0 {
                assert(out@ =~= all[0]);
            }
        }
        i += 1;
    }
    proof {
        assert(all.take(i as int) =~= all);
    }
    out
}

/// Whether a text is in a list.
pub fn has_text(v: &Vec<String>, t: &str) -> (r: bool)
    ensures
        r == views(v@).contains(t@),
{
    let ghost s = views(v@);
    let mut i: usize = 0;
    while i < v.len()
        invariant
            i <= v.len(),
            s == views(v@),
            forall|k: int| 0 <= k < i ==> #[trigger] s[k] != t@,
        decreases v.len() - i,
    {
        assert(s[i as int] == v@[i as int]@);
        if str_eq(v[i].as_str(), t) {
            return true;
        }
        i += 1;
    }
    false
}

}
