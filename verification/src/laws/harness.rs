//! What is read from the lines of a proof harness.

use vstd::prelude::*;

use crate::harness::{checked_pairs, checked_types, closing_angle, lines_of, text_added, texts_added};
use crate::harness::{top_level_comma, turbofish, turbofish_pair, turbofish_type};
use crate::laws::text::law_split_parts;
use crate::text::{find_from, joined, lemma_find_from, matches_at, occurs, trimmed};

verus! {

/// How many more brackets a text opens than it closes.
pub open spec fn open_brackets(s: Seq<char>) -> int {
    s.filter(|c: char| c == '<').len() - s.filter(|c: char| c == '>').len()
}

/// The position closes what was open before the text.
pub open spec fn closes(s: Seq<char>, i: int) -> bool {
    0 <= i < s.len() && s[i] == '>' && open_brackets(s.take(i)) == 0
}

/// The position is a comma outside of brackets.
pub open spec fn is_outer_comma(s: Seq<char>, i: int) -> bool {
    0 <= i < s.len() && s[i] == ',' && open_brackets(s.take(i)) == 0
}

proof fn lemma_brackets(s: Seq<char>, i: int)
    requires
        0 <= i < s.len(),
    ensures
        open_brackets(s.take(0)) == 0,
        open_brackets(s.take(i + 1)) == open_brackets(s.take(i)) + if s[i] == '<' {
            1int
        } else if s[i] == '>' {
            -1int
        } else {
            0int
        },
{
    reveal(Seq::filter);
    assert(s.take(i + 1).drop_last() =~= s.take(i));
    assert(s.take(i + 1).last() == s[i]);
}

proof fn lemma_closing(s: Seq<char>, i: int)
    requires
        0 <= i <= s.len(),
    ensures
        match closing_angle(s, i, open_brackets(s.take(i)) + 1) {
            Some(e) => i <= e && closes(s, e) && forall|j: int| i <= j < e ==> !(#[trigger] closes(s, j)),
            None => forall|j: int| i <= j ==> !(#[trigger] closes(s, j)),
        },
    decreases s.len() - i,
{
    if i < s.len() {
        lemma_brackets(s, i);
        lemma_closing(s, i + 1);
    }
}

proof fn lemma_comma(s: Seq<char>, i: int)
    requires
        0 <= i <= s.len(),
    ensures
        match top_level_comma(s, i, open_brackets(s.take(i))) {
            Some(e) => i <= e && is_outer_comma(s, e) && forall|j: int|
                i <= j < e ==> !(#[trigger] is_outer_comma(s, j)),
            None => forall|j: int| i <= j ==> !(#[trigger] is_outer_comma(s, j)),
        },
    decreases s.len() - i,
{
    if i < s.len() {
        lemma_brackets(s, i);
        lemma_comma(s, i + 1);
    }
}

/// A bracket that was opened is closed where the text first closes more than it opens, and the
/// arguments are parted at the first comma outside of brackets.
pub proof fn law_brackets_match(s: Seq<char>)
    ensures
        match closing_angle(s, 0, 1) {
            Some(e) => closes(s, e) && forall|j: int| 0 <= j < e ==> !(#[trigger] closes(s, j)),
            None => forall|j: int| 0 <= j ==> !(#[trigger] closes(s, j)),
        },
        match top_level_comma(s, 0, 0) {
            Some(e) => is_outer_comma(s, e) && forall|j: int|
                0 <= j < e ==> !(#[trigger] is_outer_comma(s, j)),
            None => forall|j: int| 0 <= j ==> !(#[trigger] is_outer_comma(s, j)),
        },
{
    reveal(Seq::filter);
    assert(open_brackets(s.take(0)) == 0);
    lemma_closing(s, 0);
    lemma_comma(s, 0);
}

/// The line calls the function with type arguments at the position, for the first time.
pub open spec fn is_first_call(line: Seq<char>, fn_name: Seq<char>, i: int) -> bool {
    &&& matches_at(line, fn_name + "::<"@, i)
    &&& forall|j: int| 0 <= j < i ==> !(#[trigger] matches_at(line, fn_name + "::<"@, j))
}

/// The arguments of a call at the position: what stands between its brackets.
pub open spec fn are_arguments(line: Seq<char>, fn_name: Seq<char>, i: int, arg: Seq<char>) -> bool {
    let rest = line.skip(i + fn_name.len() + "::<"@.len());
    &&& arg.len() < rest.len()
    &&& arg == rest.take(arg.len() as int)
    &&& closes(rest, arg.len() as int)
    &&& forall|j: int| 0 <= j < arg.len() ==> !(#[trigger] closes(rest, j))
}

/// The arguments of the first call in a line are what stands between its brackets. There are none
/// where there is no call or its bracket is not closed.
pub proof fn law_call_arguments(line: Seq<char>, fn_name: Seq<char>)
    ensures
        match turbofish(line, fn_name) {
            Some(arg) => exists|i: int| #[trigger]
                is_first_call(line, fn_name, i) && are_arguments(line, fn_name, i, arg),
            None => forall|i: int| #[trigger]
                is_first_call(line, fn_name, i) ==> forall|j: int|
                    0 <= j ==> !(#[trigger] closes(
                        line.skip(i + fn_name.len() + "::<"@.len()),
                        j,
                    )),
        },
{
    let opening = fn_name + "::<"@;
    lemma_find_from(line, opening, 0);
    match find_from(line, opening, 0) {
        Some(i) => {
            let rest = line.skip(i + opening.len());
            assert(i + opening.len() == i + fn_name.len() + "::<"@.len());
            law_brackets_match(rest);
            assert(is_first_call(line, fn_name, i));
            match closing_angle(rest, 0, 1) {
                Some(e) => {
                    assert(rest.take(e).len() == e);
                    assert(are_arguments(line, fn_name, i, rest.take(e)));
                },
                None => {
                    assert forall|n: int| #[trigger] is_first_call(line, fn_name, n) implies n == i by {
                        if n < i {
                            assert(!matches_at(line, opening, n));
                        }
                        if i < n {
                            assert(!matches_at(line, fn_name + "::<"@, i));
                        }
                    }
                },
            }
        },
        None => {
            assert forall|i: int| !(#[trigger] is_first_call(line, fn_name, i)) by {
                if 0 <= i {
                    assert(!matches_at(line, opening, i));
                }
            }
        },
    }
}

/// The type of a call is its argument without the white space around it, unless nothing is left;
/// a pair is what stands before and after its first outer comma, if something is left of both.
pub proof fn law_call_types(line: Seq<char>, fn_name: Seq<char>)
    ensures
        match turbofish(line, fn_name) {
            Some(arg) => {
                &&& turbofish_type(line, fn_name) == if trimmed(arg).len() > 0 {
                    Some(trimmed(arg))
                } else {
                    None
                }
                &&& match turbofish_pair(line, fn_name) {
                    Some(p) => exists|c: int| #[trigger]
                        is_outer_comma(arg, c) && (forall|j: int|
                            0 <= j < c ==> !(#[trigger] is_outer_comma(arg, j))) && p.0 == trimmed(
                            arg.take(c),
                        ) && p.1 == trimmed(arg.skip(c + 1)) && p.0.len() > 0 && p.1.len() > 0,
                    None => forall|c: int| #[trigger]
                        is_outer_comma(arg, c) && (forall|j: int|
                            0 <= j < c ==> !(#[trigger] is_outer_comma(arg, j))) ==> trimmed(
                            arg.take(c),
                        ).len() == 0 || trimmed(arg.skip(c + 1)).len() == 0,
                }
            },
            None => turbofish_type(line, fn_name) is None && turbofish_pair(line, fn_name) is None,
        },
{
    match turbofish(line, fn_name) {
        Some(arg) => {
            law_brackets_match(arg);
            match top_level_comma(arg, 0, 0) {
                Some(e) => {
                    assert(is_outer_comma(arg, e));
                    assert forall|c: int| #[trigger]
                        is_outer_comma(arg, c) && (forall|j: int|
                            0 <= j < c ==> !(#[trigger] is_outer_comma(arg, j))) implies c == e by {}
                },
                None => {},
            }
        },
        None => {},
    }
}

/// Some line checks the type.
pub open spec fn is_checked(lines: Seq<Seq<char>>, t: Seq<char>) -> bool {
    exists|i: int|
        0 <= i < lines.len() && turbofish_type(
            trimmed(#[trigger] lines[i]),
            "assert_proofs_non_empty"@,
        ) == Some(t)
}

/// Some line checks the pair.
pub open spec fn is_checked_pair(lines: Seq<Seq<char>>, p: (Seq<char>, Seq<char>)) -> bool {
    exists|i: int|
        0 <= i < lines.len() && turbofish_pair(
            trimmed(#[trigger] lines[i]),
            "assert_kani_contains"@,
        ) == Some(p)
}

/// A type is listed exactly when a line checks it, and only once. A pair is listed exactly when a
/// line checks it, once for every such line.
pub proof fn law_checked(lines: Seq<Seq<char>>, t: Seq<char>, p: (Seq<char>, Seq<char>))
    ensures
        checked_types(lines).contains(t) <==> is_checked(lines, t),
        checked_types(lines).no_duplicates(),
        checked_pairs(lines).contains(p) <==> is_checked_pair(lines, p),
        checked_pairs(lines).len() == lines.filter(
            |l: Seq<char>| turbofish_pair(trimmed(l), "assert_kani_contains"@) is Some,
        ).len(),
    decreases lines.len(),
{
    reveal(Seq::filter);
    if lines.len() > 0 {
        let f = lines.drop_last();
        let last = lines.last();
        law_checked(f, t, p);
        assert(lines[lines.len() - 1] == last);
        match turbofish_type(trimmed(last), "assert_proofs_non_empty"@) {
            Some(x) => lemma_text_added(checked_types(f), x, t),
            None => {},
        }
        match turbofish_pair(trimmed(last), "assert_kani_contains"@) {
            Some(x) => lemma_pushed(checked_pairs(f), x, p),
            None => {},
        }
        if is_checked(f, t) {
            let i = choose|i: int|
                0 <= i < f.len() && turbofish_type(
                    trimmed(#[trigger] f[i]),
                    "assert_proofs_non_empty"@,
                ) == Some(t);
            assert(lines[i] == f[i]);
        }
        if is_checked(lines, t) {
            let i = choose|i: int|
                0 <= i < lines.len() && turbofish_type(
                    trimmed(#[trigger] lines[i]),
                    "assert_proofs_non_empty"@,
                ) == Some(t);
            if i < f.len() {
                assert(f[i] == lines[i]);
            }
        }
        if is_checked_pair(f, p) {
            let i = choose|i: int|
                0 <= i < f.len() && turbofish_pair(
                    trimmed(#[trigger] f[i]),
                    "assert_kani_contains"@,
                ) == Some(p);
            assert(lines[i] == f[i]);
        }
        if is_checked_pair(lines, p) {
            let i = choose|i: int|
                0 <= i < lines.len() && turbofish_pair(
                    trimmed(#[trigger] lines[i]),
                    "assert_kani_contains"@,
                ) == Some(p);
            if i < f.len() {
                assert(f[i] == lines[i]);
            }
        }
    }
}

proof fn lemma_pushed<A>(s: Seq<A>, x: A, y: A)
    ensures
        s.push(x).contains(y) <==> s.contains(y) || x == y,
{
    let t = s.push(x);
    assert(t[s.len() as int] == x);
    if s.contains(y) {
        let i = choose|i: int| 0 <= i < s.len() && s[i] == y;
        assert(t[i] == y);
    }
    if t.contains(y) {
        let i = choose|i: int| 0 <= i < t.len() && t[i] == y;
        if i < s.len() {
            assert(s[i] == y);
        }
    }
}

proof fn lemma_text_added(s: Seq<Seq<char>>, x: Seq<char>, y: Seq<char>)
    requires
        s.no_duplicates(),
    ensures
        text_added(s, x).contains(y) <==> s.contains(y) || x == y,
        text_added(s, x).no_duplicates(),
{
    lemma_pushed(s, x, y);
    if !s.contains(x) {
        let t = s.push(x);
        assert forall|i: int, j: int| 0 <= i < t.len() && 0 <= j < t.len() && i != j implies t[i] != t[j] by {
            if i == s.len() {
                assert(s.contains(s[j]));
            } else if j == s.len() {
                assert(s.contains(s[i]));
            }
        }
    }
}

/// Merged lists of types hold the types of both, each once if the first held none twice.
pub proof fn law_merged_types(s: Seq<Seq<char>>, more: Seq<Seq<char>>, t: Seq<char>)
    requires
        s.no_duplicates(),
    ensures
        texts_added(s, more).contains(t) <==> s.contains(t) || more.contains(t),
        texts_added(s, more).no_duplicates(),
    decreases more.len(),
{
    if more.len() > 0 {
        let f = more.drop_last();
        law_merged_types(s, f, t);
        lemma_text_added(texts_added(s, f), more.last(), t);
        lemma_pushed(f, more.last(), t);
        assert(f.push(more.last()) =~= more);
    }
}

/// The lines of a harness make it again when they are joined by line ends, and none of them holds
/// one.
pub proof fn law_lines(source: Seq<char>)
    ensures
        joined(lines_of(source), "\n"@) == source,
        lines_of(source).len() > 0,
        forall|i: int|
            0 <= i < lines_of(source).len() ==> !occurs(#[trigger] lines_of(source)[i], "\n"@),
{
    reveal_strlit("\n");
    law_split_parts(source, "\n"@);
}

/// The line calls the check of a composition.
pub open spec fn checks_pair() -> spec_fn(Seq<char>) -> bool {
    |l: Seq<char>| turbofish_pair(trimmed(l), "assert_kani_contains"@) is Some
}

/// The composition that a line checks.
pub open spec fn pair_of_line() -> spec_fn(Seq<char>) -> (Seq<char>, Seq<char>) {
    |l: Seq<char>| turbofish_pair(trimmed(l), "assert_kani_contains"@)->0
}

/// Compositions come in the order of the lines that check them, and types in the order of the
/// first lines that check them: what the first lines give comes first.
pub proof fn law_order_of_checks(lines: Seq<Seq<char>>, n: int)
    requires
        0 <= n <= lines.len(),
    ensures
        checked_pairs(lines) == lines.filter(checks_pair()).map_values(pair_of_line()),
        checked_types(lines.take(n)).is_prefix_of(checked_types(lines)),
    decreases lines.len(),
{
    reveal(Seq::filter);
    if lines.len() == 0 {
        assert(lines.take(n) =~= lines);
        assert(checked_pairs(lines) =~= lines.filter(checks_pair()).map_values(pair_of_line()));
    } else {
        let f = lines.drop_last();
        if n < lines.len() {
            law_order_of_checks(f, n);
            assert(f.take(n) =~= lines.take(n));
        } else {
            law_order_of_checks(f, f.len() as int);
            assert(lines.take(n) =~= lines);
        }
        assert(checked_pairs(lines) =~= lines.filter(checks_pair()).map_values(pair_of_line()));
    }
}

}
