//! The `tag=value;` lists of a DKIM-Signature field and of a DKIM key record.

use crate::text::{chars_occur_at, chars_of, copy_range, string_of};
use vstd::prelude::*;

verus! {

/// Whether the character is a space, a tab, a carriage return or a line feed.
pub open spec fn is_space(c: char) -> bool {
    c == ' ' || c == '\t' || c == '\r' || c == '\n'
}

/// Whether the character is a space, a tab, a carriage return or a line feed.
pub fn is_space_char(c: char) -> (b: bool)
    ensures
        b == is_space(c),
{
    c == ' ' || c == '\t' || c == '\r' || c == '\n'
}

/// The index of the first `c` in `s`, or the length of `s` where it has none.
pub open spec fn index_of(s: Seq<char>, c: char) -> nat
    decreases s.len(),
{
    if s.len() == 0 || s[0] == c {
        0
    } else {
        1 + index_of(s.drop_first(), c)
    }
}

/// `s` without the spaces at its start.
pub open spec fn trim_start(s: Seq<char>) -> Seq<char>
    decreases s.len(),
{
    if s.len() > 0 && is_space(s[0]) {
        trim_start(s.drop_first())
    } else {
        s
    }
}

/// `s` without the spaces at its end.
pub open spec fn trim_end(s: Seq<char>) -> Seq<char>
    decreases s.len(),
{
    if s.len() > 0 && is_space(s.last()) {
        trim_end(s.drop_last())
    } else {
        s
    }
}

/// `s` without the spaces at its start and at its end.
pub open spec fn trim(s: Seq<char>) -> Seq<char> {
    trim_end(trim_start(s))
}

/// `s` without any of its spaces.
pub open spec fn without_spaces(s: Seq<char>) -> Seq<char>
    decreases s.len(),
{
    if s.len() == 0 {
        s
    } else if is_space(s.last()) {
        without_spaces(s.drop_last())
    } else {
        without_spaces(s.drop_last()).push(s.last())
    }
}

/// The value of the first tag called `name` in a list of `tag=value` pieces that `;`
/// separates. Name and value are taken without the spaces around them; a piece
/// without `=` names no tag.
pub open spec fn tag_value(text: Seq<char>, name: Seq<char>) -> Option<Seq<char>>
    decreases text.len(),
{
    let end = index_of(text, ';');
    let piece = text.take(end as int);
    let eq = index_of(piece, '=');
    if eq < piece.len() && trim(piece.take(eq as int)) == name {
        Some(trim(piece.skip(eq as int + 1)))
    } else if end < text.len() {
        tag_value(text.skip(end as int + 1), name)
    } else {
        None
    }
}

/// Whether every piece of the list is blank or a `tag=value` with a name.
pub open spec fn tag_list_well_formed(text: Seq<char>) -> bool
    decreases text.len(),
{
    let end = index_of(text, ';');
    let piece = text.take(end as int);
    let eq = index_of(piece, '=');
    &&& trim(piece).len() == 0 || (eq < piece.len() && trim(piece.take(eq as int)).len() > 0)
    &&& end < text.len() ==> tag_list_well_formed(text.skip(end as int + 1))
}

proof fn lemma_index_of(s: Seq<char>, c: char, k: int)
    requires
        0 <= k <= s.len(),
        forall|j: int| 0 <= j < k ==> s[j] != c,
        k == s.len() || s[k] == c,
    ensures
        index_of(s, c) == k,
    decreases k,
{
    if k > 0 {
        let rest = s.drop_first();
        assert forall|j: int| 0 <= j < k - 1 implies rest[j] != c by {
            assert(rest[j] == s[j + 1]);
        }
        lemma_index_of(rest, c, k - 1);
    }
}

/// The index of the first `c` in `v` between `lo` and `hi`, or `hi` where there is none.
pub fn find_char_between(v: &Vec<char>, lo: usize, hi: usize, c: char) -> (r: usize)
    requires
        lo <= hi <= v.len(),
    ensures
        lo <= r <= hi,
        r == lo + index_of(v@.subrange(lo as int, hi as int), c),
{
    let mut i: usize = lo;
    while i < hi && v[i] != c
        invariant
            lo <= i <= hi <= v.len(),
            forall|j: int| lo <= j < i ==> v@[j] != c,
        decreases hi - i,
    {
        i += 1;
    }
    proof {
        lemma_index_of(v@.subrange(lo as int, hi as int), c, i - lo);
    }
    i
}

/// The bounds of what is left of `v[lo..hi]` without the spaces at its two ends.
pub fn trim_bounds(v: &Vec<char>, lo: usize, hi: usize) -> (r: (usize, usize))
    requires
        lo <= hi <= v.len(),
    ensures
        lo <= r.0 <= r.1 <= hi,
        v@.subrange(r.0 as int, r.1 as int) == trim(v@.subrange(lo as int, hi as int)),
{
    let mut a: usize = lo;
    while a < hi && is_space_char(v[a])
        invariant
            lo <= a <= hi <= v.len(),
            trim_start(v@.subrange(lo as int, hi as int)) == trim_start(
                v@.subrange(a as int, hi as int),
            ),
        decreases hi - a,
    {
        assert(v@.subrange(a as int, hi as int).drop_first() == v@.subrange(a + 1, hi as int));
        a += 1;
    }
    let mut b: usize = hi;
    while b > a && is_space_char(v[b - 1])
        invariant
            a <= b <= hi <= v.len(),
            trim_end(v@.subrange(a as int, hi as int)) == trim_end(
                v@.subrange(a as int, b as int),
            ),
        decreases b,
    {
        assert(v@.subrange(a as int, b as int).drop_last() == v@.subrange(a as int, b - 1));
        b -= 1;
    }
    (a, b)
}

/// Whether `v[lo..hi]` holds exactly the characters of `word`.
pub fn range_equals(v: &Vec<char>, lo: usize, hi: usize, word: &Vec<char>) -> (b: bool)
    requires
        lo <= hi <= v.len(),
    ensures
        b == (v@.subrange(lo as int, hi as int) == word@),
{
    if hi - lo != word.len() {
        return false;
    }
    chars_occur_at(v, word, lo)
}

/// The name of a tag of one letter.
pub fn tag_name(letter: char) -> (name: Vec<char>)
    ensures
        name@ == seq![letter],
{
    let mut name: Vec<char> = Vec::new();
    name.push(letter);
    assert(name@ =~= seq![letter]);
    name
}

/// The name of the tag that holds the body hash.
pub fn body_hash_tag_name() -> (name: Vec<char>)
    ensures
        name@ == seq!['b', 'h'],
{
    let mut name: Vec<char> = Vec::new();
    name.push('b');
    name.push('h');
    assert(name@ =~= seq!['b', 'h']);
    name
}

/// The value of the first tag called `name` in the list `text`.
pub fn find_tag(text: &Vec<char>, name: &Vec<char>) -> (r: Option<Vec<char>>)
    ensures
        match r {
            Some(value) => tag_value(text@, name@) == Some(value@),
            None => tag_value(text@, name@) is None,
        },
{
    let n: usize = text.len();
    let mut pos: usize = 0;
    assert(text@.skip(0) == text@);
    loop
        invariant
            n == text.len(),
            pos <= n,
            tag_value(text@, name@) == tag_value(text@.skip(pos as int), name@),
        decreases n - pos,
    {
        let end: usize = find_char_between(text, pos, n, ';');
        let eq: usize = find_char_between(text, pos, end, '=');
        proof {
            let rest = text@.skip(pos as int);
            assert(rest == text@.subrange(pos as int, n as int));
            let piece = rest.take(end - pos);
            assert(piece == text@.subrange(pos as int, end as int));
            if eq < end {
                assert(piece.take(eq - pos) == text@.subrange(pos as int, eq as int));
                assert(piece.skip(eq - pos + 1) == text@.subrange(eq + 1, end as int));
            }
            if end < n {
                assert(rest.skip(end - pos + 1) == text@.skip(end + 1));
            }
        }
        if eq < end {
            let (a, b) = trim_bounds(text, pos, eq);
            if range_equals(text, a, b, name) {
                let (c, d) = trim_bounds(text, eq + 1, end);
                return Some(copy_range(text, c, d));
            }
        }
        if end < n {
            pos = end + 1;
        } else {
            return None;
        }
    }
}

/// Whether every piece of the list `text` is blank or a `tag=value` with a name.
pub fn check_tag_list(text: &Vec<char>) -> (ok: bool)
    ensures
        ok == tag_list_well_formed(text@),
{
    let n: usize = text.len();
    let mut pos: usize = 0;
    assert(text@.skip(0) == text@);
    loop
        invariant
            n == text.len(),
            pos <= n,
            tag_list_well_formed(text@) == tag_list_well_formed(text@.skip(pos as int)),
        decreases n - pos,
    {
        let end: usize = find_char_between(text, pos, n, ';');
        let eq: usize = find_char_between(text, pos, end, '=');
        proof {
            let rest = text@.skip(pos as int);
            assert(rest == text@.subrange(pos as int, n as int));
            let piece = rest.take(end - pos);
            assert(piece == text@.subrange(pos as int, end as int));
            if eq < end {
                assert(piece.take(eq - pos) == text@.subrange(pos as int, eq as int));
            }
            if end < n {
                assert(rest.skip(end - pos + 1) == text@.skip(end + 1));
            }
        }
        let (a, b) = trim_bounds(text, pos, end);
        if a < b {
            if eq >= end {
                return false;
            }
            let (c, d) = trim_bounds(text, pos, eq);
            if c >= d {
                return false;
            }
        }
        if end < n {
            pos = end + 1;
        } else {
            return true;
        }
    }
}

/// The characters of `s` that are no spaces, in order.
pub fn remove_spaces(s: &Vec<char>) -> (r: Vec<char>)
    ensures
        r@ == without_spaces(s@),
{
    let mut r: Vec<char> = Vec::new();
    let mut i: usize = 0;
    while i < s.len()
        invariant
            i <= s.len(),
            r@ == without_spaces(s@.take(i as int)),
        decreases s.len() - i,
    {
        assert(s@.take(i + 1).drop_last() == s@.take(i as int));
        if !is_space_char(s[i]) {
            r.push(s[i]);
        }
        i += 1;
    }
    assert(s@.take(s.len() as int) == s@);
    r
}

/// The signature value without the spaces, tabs and line breaks that folding put in it.
pub fn clean_dkim_signature(dkim_signature: &str) -> (cleaned: String)
    ensures
        cleaned@ == without_spaces(dkim_signature@),
{
    let chars = chars_of(dkim_signature);
    let kept = remove_spaces(&chars);
    string_of(&kept)
}

} // verus!
