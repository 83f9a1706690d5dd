//! How names are compared when a rename is looked for.

use vstd::prelude::*;
use vstd::utf8::{encode_scalar, encode_utf8};

use crate::shadow::{letter, normalized, snake, spaced, utf8_len, utf8_width};
use crate::text::{is_upper, lowercase};

verus! {

proof fn lemma_encoded(s: Seq<char>, c: char)
    ensures
        encode_utf8(s.push(c)).len() == encode_utf8(s).len() + encode_scalar(c as u32).len(),
    decreases s.len(),
{
    let t = s.push(c);
    if s.len() == 0 {
        assert(t.drop_first() =~= Seq::empty());
        assert(encode_utf8(t.drop_first()) =~= Seq::empty());
    } else {
        lemma_encoded(s.drop_first(), c);
        assert(t.drop_first() =~= s.drop_first().push(c));
    }
}

proof fn lemma_width(c: char)
    ensures
        encode_scalar(c as u32).len() == utf8_width(c),
{
}

/// The length of a text in bytes is that of its UTF-8 encoding.
pub proof fn law_utf8_len(s: Seq<char>)
    ensures
        utf8_len(s) == encode_utf8(s).len(),
    decreases s.len(),
{
    if s.len() > 0 {
        law_utf8_len(s.drop_last());
        lemma_encoded(s.drop_last(), s.last());
        lemma_width(s.last());
        assert(s.drop_last().push(s.last()) =~= s);
    }
}

/// A capital that does not begin the name gets an underscore before it, no other character does,
/// and every character becomes the first of what it is in lower case, if there is one.
pub proof fn law_snake(s: Seq<char>, c: char)
    ensures
        snake(Seq::empty()).len() == 0,
        snake(s.push(c)) == snake(s) + (if is_upper(c) && s.len() > 0 {
            seq!['_']
        } else {
            seq![]
        }) + seq![
            if lowercase(seq![c]).len() > 0 {
                lowercase(seq![c])[0]
            } else {
                c
            },
        ],
        normalized(s) == lowercase(snake(s)),
{
    let a = s.map_values(|c: char| letter(c));
    let b = s.push(c).map_values(|c: char| letter(c));
    assert(b.drop_last() =~= a);
    assert(b.last() == letter(c));
    assert(Seq::<char>::empty().map_values(|c: char| letter(c)) =~= Seq::empty());
    assert(snake(s.push(c)) =~= snake(s) + (if is_upper(c) && s.len() > 0 {
        seq!['_']
    } else {
        seq![]
    }) + seq![
        if lowercase(seq![c]).len() > 0 {
            lowercase(seq![c])[0]
        } else {
            c
        },
    ]);
}

/// A name is at least as long in lower case with underscores as it was, and longer by one for each
/// capital inside it.
pub proof fn law_snake_length(s: Seq<char>)
    ensures
        snake(s).len() == s.len() + if s.len() > 0 {
            s.drop_first().filter(|c: char| is_upper(c)).len()
        } else {
            0
        },
    decreases s.len(),
{
    reveal(Seq::filter);
    if s.len() == 0 {
        assert(s =~= Seq::empty());
        law_snake(s, 'a');
    } else {
        let f = s.drop_last();
        let c = s.last();
        law_snake_length(f);
        law_snake(f, c);
        assert(f.push(c) =~= s);
        if f.len() > 0 {
            assert(s.drop_first().drop_last() =~= f.drop_first());
            assert(s.drop_first().last() == c);
        } else {
            assert(s.drop_first() =~= Seq::empty());
            law_snake(Seq::empty(), c);
            assert(f =~= Seq::empty());
        }
    }
}

}
