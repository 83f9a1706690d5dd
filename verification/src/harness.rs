//! The proof harness: which types its test files check.

use vstd::prelude::*;
use vstd::string::*;

use crate::text::{chars_of, find_chars, find_from, has_text, is_empty, lemma_find_from, opt_view};
use crate::text::{split, split_text, trim_between, trimmed, views};

verus! {

/// Where the bracket that was opened before position `i` is closed.
pub open spec fn closing_angle(s: Seq<char>, i: int, depth: int) -> Option<int>
    decreases s.len() - i,
{
    if i < 0 || i >= s.len() {
        None
    } else if s[i] == '<' {
        closing_angle(s, i + 1, depth + 1)
    } else if s[i] == '>' {
        if depth == 1 {
            Some(i)
        } else {
            closing_angle(s, i + 1, depth - 1)
        }
    } else {
        closing_angle(s, i + 1, depth)
    }
}

/// The first comma from position `i` on that stands outside brackets.
pub open spec fn top_level_comma(s: Seq<char>, i: int, depth: int) -> Option<int>
    decreases s.len() - i,
{
    if i < 0 || i >= s.len() {
        None
    } else if s[i] == '<' {
        top_level_comma(s, i + 1, depth + 1)
    } else if s[i] == '>' {
        top_level_comma(s, i + 1, depth - 1)
    } else if s[i] == ',' && depth == 0 {
        Some(i)
    } else {
        top_level_comma(s, i + 1, depth)
    }
}

/// What stands between the brackets of the first call of a function with type arguments.
pub open spec fn turbofish(line: Seq<char>, fn_name: Seq<char>) -> Option<Seq<char>> {
    let opening = fn_name + "::<"@;
    match find_from(line, opening, 0) {
        None => None,
        Some(i) => {
            let rest = line.skip(i + opening.len());
            match closing_angle(rest, 0, 1) {
                None => None,
                Some(end) => Some(rest.take(end)),
            }
        },
    }
}

/// The type argument of the first call of a function, without white space around it.
pub open spec fn turbofish_type(line: Seq<char>, fn_name: Seq<char>) -> Option<Seq<char>> {
    match turbofish(line, fn_name) {
        None => None,
        Some(arg) => if trimmed(arg).len() == 0 {
            None
        } else {
            Some(trimmed(arg))
        },
    }
}

/// The two type arguments of the first call of a function.
pub open spec fn turbofish_pair(line: Seq<char>, fn_name: Seq<char>) -> Option<
    (Seq<char>, Seq<char>),
> {
    match turbofish(line, fn_name) {
        None => None,
        Some(arg) => match top_level_comma(arg, 0, 0) {
            None => None,
            Some(comma) => {
                let outer = trimmed(arg.take(comma));
                let inner = trimmed(arg.skip(comma + 1));
                if outer.len() == 0 || inner.len() == 0 {
                    None
                } else {
                    Some((outer, inner))
                }
            },
        },
    }
}

/// `s` with a text at its end, unless it is there.
pub open spec fn text_added(s: Seq<Seq<char>>, t: Seq<char>) -> Seq<Seq<char>> {
    if s.contains(t) {
        s
    } else {
        s.push(t)
    }
}

/// `s` with the texts of another list added.
pub open spec fn texts_added(s: Seq<Seq<char>>, more: Seq<Seq<char>>) -> Seq<Seq<char>>
    decreases more.len(),
{
    if more.len() == 0 {
        s
    } else {
        text_added(texts_added(s, more.drop_last()), more.last())
    }
}

/// The distinct types that the lines check with `assert_proofs_non_empty`.
pub open spec fn checked_types(lines: Seq<Seq<char>>) -> Seq<Seq<char>>
    decreases lines.len(),
{
    if lines.len() == 0 {
        seq![]
    } else {
        let rest = checked_types(lines.drop_last());
        match turbofish_type(trimmed(lines.last()), "assert_proofs_non_empty"@) {
            Some(t) => text_added(rest, t),
            None => rest,
        }
    }
}

/// The pairs of types that the lines check with `assert_kani_contains`.
pub open spec fn checked_pairs(lines: Seq<Seq<char>>) -> Seq<(Seq<char>, Seq<char>)>
    decreases lines.len(),
{
    if lines.len() == 0 {
        seq![]
    } else {
        let rest = checked_pairs(lines.drop_last());
        match turbofish_pair(trimmed(lines.last()), "assert_kani_contains"@) {
            Some(p) => rest.push(p),
            None => rest,
        }
    }
}

/// The lines of a text.
pub open spec fn lines_of(source: Seq<char>) -> Seq<Seq<char>> {
    split(source, "\n"@)
}

/// What the proof harness checks.
#[derive(Clone, Debug)]
pub struct ProofHarness {
    /// The types in calls of `assert_proofs_non_empty`, without duplicates.
    pub non_empty_types: Vec<String>,
    /// The types in calls of `assert_kani_contains`.
    pub composition_pairs: Vec<(String, String)>,
}

impl Default for ProofHarness {
    fn default() -> (r: Self)
        ensures
            r.non_empty_types@.len() == 0,
            r.composition_pairs@.len() == 0,
    {
        ProofHarness { non_empty_types: Vec::new(), composition_pairs: Vec::new() }
    }
}

/// Where the bracket that was opened before position `from` is closed.
pub fn find_matching_angle(cs: &Vec<char>, from: usize) -> (r: Option<usize>)
    requires
        from <= cs.len(),
    ensures
        match r {
            Some(i) => from <= i < cs.len() && closing_angle(cs@.skip(from as int), 0, 1) == Some(
                i - from,
            ),
            None => closing_angle(cs@.skip(from as int), 0, 1) is None,
        },
{
    let ghost s = cs@.skip(from as int);
    let mut nested: usize = 0;
    let mut i: usize = from;
    while i < cs.len()
        invariant
            from <= i <= cs.len(),
            s == cs@.skip(from as int),
            nested <= i - from,
            closing_angle(s, 0, 1) == closing_angle(s, i - from, nested + 1),
        decreases cs.len() - i,
    {
        assert(s[i - from] == cs@[i as int]);
        if cs[i] == '<' {
            nested += 1;
        } else if cs[i] == '>' {
            if nested == 0 {
                return Some(i);
            }
            nested -= 1;
        }
        i += 1;
    }
    None
}

/// The first comma outside brackets between two positions.
pub fn find_top_level_comma(cs: &Vec<char>, from: usize, to: usize) -> (r: Option<usize>)
    requires
        from <= to <= cs.len(),
    ensures
        match r {
            Some(i) => from <= i < to && top_level_comma(
                cs@.subrange(from as int, to as int),
                0,
                0,
            ) == Some(i - from),
            None => top_level_comma(cs@.subrange(from as int, to as int), 0, 0) is None,
        },
{
    let ghost s = cs@.subrange(from as int, to as int);
    let mut opened: usize = 0;
    let mut closed: usize = 0;
    let mut i: usize = from;
    while i < to
        invariant
            from <= i <= to <= cs.len(),
            s == cs@.subrange(from as int, to as int),
            opened <= i - from,
            closed <= i - from,
            top_level_comma(s, 0, 0) == top_level_comma(s, i - from, opened - closed),
        decreases to - i,
    {
        assert(s[i - from] == cs@[i as int]);
        if cs[i] == '<' {
            opened += 1;
        } else if cs[i] == '>' {
            closed += 1;
        } else if cs[i] == ',' && opened == closed {
            return Some(i);
        }
        i += 1;
    }
    None
}

/// Where the type arguments of the first call of a function stand.
pub fn find_turbofish(cs: &Vec<char>, fn_name: &str) -> (r: Option<(usize, usize)>)
    ensures
        match r {
            Some((from, to)) => from <= to <= cs.len() && turbofish(cs@, fn_name@) == Some(
                cs@.subrange(from as int, to as int),
            ),
            None => turbofish(cs@, fn_name@) is None,
        },
{
    let mut opening = fn_name.to_string();
    opening.append("::<");
    let pattern = chars_of(opening.as_str());
    proof {
        lemma_find_from(cs@, pattern@, 0);
    }
    match find_chars(cs, &pattern, 0) {
        None => None,
        Some(i) => {
            assert(i + pattern@.len() <= cs.len());
            let from: usize = i + pattern.len();
            match find_matching_angle(cs, from) {
                None => None,
                Some(to) => {
                    assert(cs@.skip(from as int).take(to - from) =~= cs@.subrange(
                        from as int,
                        to as int,
                    ));
                    Some((from, to))
                },
            }
        },
    }
}

/// The type argument of the first call of a function in a line.
pub fn extract_turbofish_arg(line: &str, fn_name: &str) -> (r: Option<String>)
    ensures
        opt_view(r) == turbofish_type(line@, fn_name@),
{
    let cs = chars_of(line);
    match find_turbofish(&cs, fn_name) {
        None => None,
        Some((from, to)) => {
            let ty = trim_between(&cs, from, to);
            if is_empty(ty.as_str()) {
                None
            } else {
                Some(ty)
            }
        },
    }
}

/// The two type arguments of the first call of `assert_kani_contains` in a line.
pub fn extract_kani_contains(line: &str) -> (r: Option<(String, String)>)
    ensures
        opt_view(r) == turbofish_pair(line@, "assert_kani_contains"@),
{
    let cs = chars_of(line);
    match find_turbofish(&cs, "assert_kani_contains") {
        None => None,
        Some((from, to)) => {
            let ghost arg = cs@.subrange(from as int, to as int);
            match find_top_level_comma(&cs, from, to) {
                None => None,
                Some(comma) => {
                    proof {
                        assert(arg.take(comma - from) =~= cs@.subrange(from as int, comma as int));
                        assert(arg.skip(comma - from + 1) =~= cs@.subrange(comma + 1, to as int));
                    }
                    let outer = trim_between(&cs, from, comma);
                    let inner = trim_between(&cs, comma + 1, to);
                    if is_empty(outer.as_str()) || is_empty(inner.as_str()) {
                        None
                    } else {
                        Some((outer, inner))
                    }
                },
            }
        },
    }
}

fn add_text(out: &mut Vec<String>, t: String)
    ensures
        views(final(out)@) == text_added(views(old(out)@), t@),
{
    let ghost held = views(out@);
    if !has_text(out, t.as_str()) {
        let ghost v = t@;
        out.push(t);
        assert(views(out@) =~= held.push(v));
    }
}

/// What the text of a test file checks.
pub fn collect_proof_harness(source: &str) -> (r: ProofHarness)
    ensures
        views(r.non_empty_types@) == checked_types(lines_of(source@)),
        views(r.composition_pairs@) == checked_pairs(lines_of(source@)),
{
    proof {
        reveal_strlit("\n");
    }
    let lines = split_text(source, "\n");
    let ghost all = views(lines@);
    let mut non_empty_types: Vec<String> = Vec::new();
    let mut composition_pairs: Vec<(String, String)> = Vec::new();
    let mut i: usize = 0;
    assert(views(non_empty_types@) =~= seq![]);
    assert(views(composition_pairs@) =~= seq![]);
    while i < lines.len()
        invariant
            i <= lines.len(),
            all == views(lines@),
            views(non_empty_types@) == checked_types(all.take(i as int)),
            views(composition_pairs@) == checked_pairs(all.take(i as int)),
        decreases lines.len() - i,
    {
        let ghost held = views(composition_pairs@);
        proof {
            assert(all.take(i + 1).drop_last() =~= all.take(i as int));
            assert(all.take(i + 1).last() == lines@[i as int]@);
        }
        let cs = chars_of(lines[i].as_str());
        assert(cs@.subrange(0, cs@.len() as int) =~= cs@);
        let line = trim_between(&cs, 0, cs.len());
        if let Some(ty) = extract_turbofish_arg(line.as_str(), "assert_proofs_non_empty") {
            add_text(&mut non_empty_types, ty);
        }
        if let Some(pair) = extract_kani_contains(line.as_str()) {
            let ghost v = pair@;
            composition_pairs.push(pair);
            assert(views(composition_pairs@) =~= held.push(v));
        }
        i += 1;
    }
    proof {
        assert(all.take(i as int) =~= all);
    }
    ProofHarness { non_empty_types, composition_pairs }
}

impl ProofHarness {
    /// Adds what another test file checks.
    pub fn extend(&mut self, other: &ProofHarness)
        ensures
            views(final(self).non_empty_types@) == texts_added(
                views(old(self).non_empty_types@),
                views(other.non_empty_types@),
            ),
            views(final(self).composition_pairs@) == views(old(self).composition_pairs@) + views(
                other.composition_pairs@,
            ),
    {
        let ghost types = views(self.non_empty_types@);
        let ghost more = views(other.non_empty_types@);
        let ghost pairs = views(self.composition_pairs@);
        let ghost more_pairs = views(other.composition_pairs@);
        let mut i: usize = 0;
        while i < other.non_empty_types.len()
            invariant
                i <= other.non_empty_types.len(),
                more == views(other.non_empty_types@),
                views(self.non_empty_types@) == texts_added(types, more.take(i as int)),
                views(self.composition_pairs@) == pairs,
            decreases other.non_empty_types.len() - i,
        {
            proof {
                assert(more.take(i + 1).drop_last() =~= more.take(i as int));
                assert(more.take(i + 1).last() == other.non_empty_types@[i as int]@);
            }
            add_text(&mut self.non_empty_types, other.non_empty_types[i].clone());
            i += 1;
        }
        proof {
            assert(more.take(i as int) =~= more);
        }
        let mut j: usize = 0;
        while j < other.composition_pairs.len()
            invariant
                j <= other.composition_pairs.len(),
                more_pairs == views(other.composition_pairs@),
                views(self.non_empty_types@) == texts_added(types, more),
                views(self.composition_pairs@) == pairs + more_pairs.take(j as int),
            decreases other.composition_pairs.len() - j,
        {
            let ghost held = views(self.composition_pairs@);
            let outer = other.composition_pairs[j].0.clone();
            let inner = other.composition_pairs[j].1.clone();
            self.composition_pairs.push((outer, inner));
            proof {
                assert(more_pairs[j as int] == other.composition_pairs@[j as int]@);
                assert(views(self.composition_pairs@) =~= held.push(more_pairs[j as int]));
                assert(pairs + more_pairs.take(j + 1) =~= (pairs + more_pairs.take(j as int)).push(
                    more_pairs[j as int],
                ));
            }
            j += 1;
        }
        proof {
            assert(more_pairs.take(j as int) =~= more_pairs);
        }
    }
}

}
