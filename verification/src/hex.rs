//! Limbs as text: hexadecimal numerals, lists of them, and the quoting that TOML asks.

use crate::limbs::LimbVector;
use crate::text::{chars_of, string_of};
use vstd::prelude::*;

verus! {

/// The character of a hexadecimal digit, letters in lower case.
pub open spec fn hex_digit(d: nat) -> char {
    if d < 10 {
        (48 + d) as char
    } else {
        (87 + d) as char
    }
}

/// The character of a hexadecimal digit, letters in lower case.
pub fn hex_digit_char(d: u8) -> (c: char)
    requires
        d < 16,
    ensures
        c == hex_digit(d as nat),
{
    if d < 10 {
        (48u8 + d) as char
    } else {
        (87u8 + d) as char
    }
}

/// The hexadecimal numeral of the bytes of `v`, the most significant first, two digits
/// for each byte and one byte for zero.
pub open spec fn hex_bytes(v: nat) -> Seq<char>
    decreases v,
{
    if v < 256 {
        seq![hex_digit(v / 16), hex_digit(v % 16)]
    } else {
        hex_bytes(v / 256).push(hex_digit((v % 256) / 16)).push(hex_digit(v % 16))
    }
}

/// A limb as text: `0x` and its hexadecimal numeral.
pub open spec fn limb_text(limb: nat) -> Seq<char> {
    seq!['0', 'x'] + hex_bytes(limb)
}

/// The limbs as text, a comma and a space between two of them.
pub open spec fn limb_items(limbs: Seq<nat>) -> Seq<char>
    decreases limbs.len(),
{
    if limbs.len() == 0 {
        Seq::<char>::empty()
    } else if limbs.len() == 1 {
        limb_text(limbs[0])
    } else {
        limb_items(limbs.drop_last()) + seq![',', ' '] + limb_text(limbs.last())
    }
}

/// The limbs as a list in square brackets.
pub open spec fn limb_list(limbs: Seq<nat>) -> Seq<char> {
    seq!['['] + limb_items(limbs) + seq![']']
}

/// Appends the hexadecimal numeral of the bytes of `v` to `out`.
pub fn push_hex_bytes(out: &mut Vec<char>, v: u128)
    ensures
        final(out)@ == old(out)@ + hex_bytes(v as nat),
    decreases v,
{
    if v >= 256 {
        push_hex_bytes(out, v / 256);
    }
    let b: u8 = (v % 256) as u8;
    out.push(hex_digit_char(b / 16));
    out.push(hex_digit_char(b % 16));
    assert(final(out)@ =~= old(out)@ + hex_bytes(v as nat));
}

impl LimbVector {
    /// The limbs as a list of hexadecimal numerals in square brackets.
    pub fn to_hex_list(&self) -> (text: String)
        ensures
            text@ == limb_list(self@),
    {
        let mut out: Vec<char> = Vec::new();
        out.push('[');
        let n: usize = self.limbs.len();
        let mut i: usize = 0;
        assert(out@ =~= seq!['['] + limb_items(self@.take(0)));
        while i < n
            invariant
                n == self.limbs.len(),
                i <= n,
                out@ == seq!['['] + limb_items(self@.take(i as int)),
            decreases n - i,
        {
            let ghost before = out@;
            let ghost done = self@.take(i as int);
            let ghost next = self@.take(i + 1);
            let ghost item = limb_text(self.limbs@[i as int] as nat);
            assert(next.drop_last() == done);
            assert(next.last() == self.limbs@[i as int] as nat);
            if i > 0 {
                out.push(',');
                out.push(' ');
            }
            out.push('0');
            out.push('x');
            push_hex_bytes(&mut out, self.limbs[i]);
            assert(out@ == seq!['['] + limb_items(next)) by {
                if i > 0 {
                    assert(out@ =~= before + seq![',', ' '] + item);
                    assert(seq!['['] + limb_items(done) + seq![',', ' '] + item =~= seq!['[']
                        + (limb_items(done) + seq![',', ' '] + item));
                } else {
                    assert(limb_items(done) =~= Seq::<char>::empty());
                    assert(out@ =~= seq!['['] + item);
                }
            }
            i += 1;
        }
        assert(self@.take(n as int) == self@);
        out.push(']');
        assert(out@ =~= limb_list(self@));
        string_of(&out)
    }
}

/// Whether the character is a square bracket.
pub open spec fn is_bracket(c: char) -> bool {
    c == '[' || c == ']'
}

/// `s` without the square brackets at its start.
pub open spec fn strip_brackets_start(s: Seq<char>) -> Seq<char>
    decreases s.len(),
{
    if s.len() > 0 && is_bracket(s[0]) {
        strip_brackets_start(s.drop_first())
    } else {
        s
    }
}

/// `s` without the square brackets at its end.
pub open spec fn strip_brackets_end(s: Seq<char>) -> Seq<char>
    decreases s.len(),
{
    if s.len() > 0 && is_bracket(s.last()) {
        strip_brackets_end(s.drop_last())
    } else {
        s
    }
}

/// `s` without the square brackets at its start and at its end.
pub open spec fn strip_brackets(s: Seq<char>) -> Seq<char> {
    strip_brackets_end(strip_brackets_start(s))
}

/// The rest of a list of items after the quote that opens an item: the item closes
/// with a quote at the end of the text and before each comma followed by a space,
/// after which the next item opens.
pub open spec fn quoted_rest(s: Seq<char>) -> Seq<char>
    decreases s.len(),
{
    if s.len() == 0 {
        seq!['"']
    } else if s.len() >= 2 && s[0] == ',' && s[1] == ' ' {
        seq!['"', ',', ' ', '"'] + quoted_rest(s.skip(2))
    } else {
        seq![s[0]] + quoted_rest(s.skip(1))
    }
}

/// A list of items in square brackets, each item in double quotes: the items of `s`
/// are what a comma followed by a space separates, once the square brackets around
/// `s` are gone.
pub open spec fn quoted_hex(s: Seq<char>) -> Seq<char> {
    seq!['[', '"'] + quoted_rest(strip_brackets(s)) + seq![']']
}

/// Puts each item of a list of hexadecimal numerals in double quotes, as TOML asks
/// for strings.
pub fn quote_hex(input: String) -> (quoted: String)
    ensures
        quoted@ == quoted_hex(input@),
{
    let chars = chars_of(input.as_str());
    let n: usize = chars.len();
    let mut lo: usize = 0;
    assert(chars@.subrange(0, n as int) == chars@);
    while lo < n && (chars[lo] == '[' || chars[lo] == ']')
        invariant
            n == chars.len(),
            lo <= n,
            strip_brackets_start(chars@) == strip_brackets_start(chars@.subrange(lo as int, n as int)),
        decreases n - lo,
    {
        assert(chars@.subrange(lo as int, n as int).drop_first() == chars@.subrange(
            lo + 1,
            n as int,
        ));
        lo += 1;
    }
    let mut hi: usize = n;
    while hi > lo && (chars[hi - 1] == '[' || chars[hi - 1] == ']')
        invariant
            n == chars.len(),
            lo <= hi <= n,
            strip_brackets(chars@) == strip_brackets_end(chars@.subrange(lo as int, hi as int)),
        decreases hi,
    {
        assert(chars@.subrange(lo as int, hi as int).drop_last() == chars@.subrange(
            lo as int,
            hi - 1,
        ));
        hi -= 1;
    }
    let ghost inner = chars@.subrange(lo as int, hi as int);
    assert(strip_brackets(chars@) == inner);
    let mut out: Vec<char> = Vec::new();
    out.push('[');
    out.push('"');
    let mut i: usize = lo;
    assert(inner.skip(0) == inner);
    while i < hi
        invariant
            n == chars.len(),
            lo <= i <= hi <= n,
            inner == chars@.subrange(lo as int, hi as int),
            seq!['[', '"'] + quoted_rest(inner) == out@ + quoted_rest(inner.skip(i - lo)),
        decreases hi - i,
    {
        let ghost rest = inner.skip(i - lo);
        let ghost before = out@;
        assert(rest[0] == chars@[i as int]);
        if chars[i] == ',' && i + 1 < hi && chars[i + 1] == ' ' {
            assert(rest[1] == chars@[i + 1]);
            assert(rest.skip(2) == inner.skip(i + 2 - lo));
            out.push('"');
            out.push(',');
            out.push(' ');
            out.push('"');
            assert(out@ + quoted_rest(rest.skip(2)) =~= before + (seq!['"', ',', ' ', '"']
                + quoted_rest(rest.skip(2))));
            i += 2;
        } else {
            if i + 1 < hi {
                assert(rest[1] == chars@[i + 1]);
            }
            assert(rest.skip(1) == inner.skip(i + 1 - lo));
            out.push(chars[i]);
            assert(out@ + quoted_rest(rest.skip(1)) =~= before + (seq![rest[0]] + quoted_rest(
                rest.skip(1),
            )));
            i += 1;
        }
    }
    out.push('"');
    out.push(']');
    assert(out@ =~= quoted_hex(input@)) by {
        assert(inner.skip(hi - lo) =~= Seq::<char>::empty());
    }
    string_of(&out)
}

/// The limbs as text, each in double quotes, a comma and a space between two of them.
pub open spec fn quoted_limb_items(limbs: Seq<nat>) -> Seq<char>
    decreases limbs.len(),
{
    if limbs.len() == 0 {
        Seq::<char>::empty()
    } else if limbs.len() == 1 {
        seq!['"'] + limb_text(limbs[0]) + seq!['"']
    } else {
        quoted_limb_items(limbs.drop_last()) + seq![',', ' ', '"'] + limb_text(limbs.last())
            + seq!['"']
    }
}

/// Whether no character of `s` is a comma or a square bracket.
pub open spec fn is_plain(s: Seq<char>) -> bool {
    forall|i: int| 0 <= i < s.len() ==> s[i] != ',' && !is_bracket(#[trigger] s[i])
}

proof fn lemma_hex_bytes_plain(v: nat)
    ensures
        hex_bytes(v).len() >= 2,
        is_plain(hex_bytes(v)),
    decreases v,
{
    if v >= 256 {
        lemma_hex_bytes_plain(v / 256);
    }
}

proof fn lemma_limb_text_plain(limb: nat)
    ensures
        limb_text(limb).len() >= 4,
        is_plain(limb_text(limb)),
{
    lemma_hex_bytes_plain(limb);
}

proof fn lemma_quoted_rest_plain(x: Seq<char>, t: Seq<char>)
    requires
        is_plain(x),
    ensures
        quoted_rest(x + t) == x + quoted_rest(t),
    decreases x.len(),
{
    if x.len() == 0 {
        assert(x + t =~= t);
        assert(x + quoted_rest(t) =~= quoted_rest(t));
    } else {
        let whole = x + t;
        assert(whole[0] == x[0]);
        assert(whole.skip(1) =~= x.skip(1) + t);
        assert(is_plain(x.skip(1))) by {
            assert forall|i: int| 0 <= i < x.skip(1).len() implies x.skip(1)[i] != ','
                && !is_bracket(#[trigger] x.skip(1)[i]) by {
                assert(x.skip(1)[i] == x[i + 1]);
            }
        }
        lemma_quoted_rest_plain(x.skip(1), t);
        assert(seq![x[0]] + (x.skip(1) + quoted_rest(t)) =~= x + quoted_rest(t));
    }
}

/// What stands between the first and the last double quote of the quoted limbs.
spec fn inner_items(limbs: Seq<nat>) -> Seq<char>
    decreases limbs.len(),
{
    if limbs.len() <= 1 {
        limb_text(limbs[0])
    } else {
        inner_items(limbs.drop_last()) + seq!['"', ',', ' ', '"'] + limb_text(limbs.last())
    }
}

proof fn lemma_inner_items(limbs: Seq<nat>)
    requires
        limbs.len() > 0,
    ensures
        quoted_limb_items(limbs) == seq!['"'] + inner_items(limbs) + seq!['"'],
    decreases limbs.len(),
{
    if limbs.len() > 1 {
        lemma_inner_items(limbs.drop_last());
        assert(seq!['"'] + inner_items(limbs.drop_last()) + seq!['"'] + seq![',', ' ', '"']
            + limb_text(limbs.last()) + seq!['"'] =~= seq!['"'] + (inner_items(limbs.drop_last())
            + seq!['"', ',', ' ', '"'] + limb_text(limbs.last())) + seq!['"']);
    }
}

proof fn lemma_quoted_rest_items(limbs: Seq<nat>, t: Seq<char>)
    requires
        limbs.len() > 0,
    ensures
        quoted_rest(limb_items(limbs) + t) == inner_items(limbs) + quoted_rest(t),
    decreases limbs.len(),
{
    let last = limb_text(limbs.last());
    lemma_limb_text_plain(limbs.last());
    if limbs.len() == 1 {
        lemma_quoted_rest_plain(last, t);
    } else {
        let init = limbs.drop_last();
        let tail = last + t;
        let next = seq![',', ' '] + tail;
        assert(limb_items(limbs) + t =~= limb_items(init) + next);
        lemma_quoted_rest_items(init, next);
        assert(next[0] == ',' && next[1] == ' ');
        assert(next.skip(2) =~= tail);
        lemma_quoted_rest_plain(last, t);
        assert(inner_items(init) + (seq!['"', ',', ' ', '"'] + (last + quoted_rest(t)))
            =~= inner_items(limbs) + quoted_rest(t));
    }
}

proof fn lemma_limb_items_ends(limbs: Seq<nat>)
    requires
        limbs.len() > 0,
    ensures
        limb_items(limbs).len() > 0,
        !is_bracket(limb_items(limbs)[0]),
        !is_bracket(limb_items(limbs).last()),
    decreases limbs.len(),
{
    lemma_limb_text_plain(limbs.last());
    let last = limb_text(limbs.last());
    assert(!is_bracket(last[0]) && !is_bracket(last[last.len() - 1]));
    if limbs.len() > 1 {
        lemma_limb_items_ends(limbs.drop_last());
    }
}

/// The list of limbs without its square brackets is the limbs themselves.
proof fn lemma_strip_brackets_list(limbs: Seq<nat>)
    ensures
        strip_brackets(limb_list(limbs)) == limb_items(limbs),
{
    let items = limb_items(limbs);
    let list = limb_list(limbs);
    let rest = items + seq![']'];
    assert(list.drop_first() =~= rest);
    assert(is_bracket(list[0]));
    assert(strip_brackets_start(list) == strip_brackets_start(rest));
    if limbs.len() == 0 {
        assert(rest.drop_first() =~= Seq::<char>::empty());
        assert(strip_brackets_start(rest) == strip_brackets_start(rest.drop_first()));
        assert(strip_brackets_start(rest) =~= items);
    } else {
        lemma_limb_items_ends(limbs);
        assert(rest[0] == items[0]);
        assert(strip_brackets_start(rest) == rest);
        assert(rest.drop_last() =~= items);
        assert(strip_brackets_end(rest) == strip_brackets_end(items));
    }
}

/// Quoting the list of the limbs of an integer gives the list of the quoted limbs; a
/// list without limbs becomes a list of one empty string.
pub proof fn lemma_quoted_limb_list(limbs: Seq<nat>)
    ensures
        quoted_hex(limb_list(limbs)) == if limbs.len() == 0 {
            seq!['[', '"', '"', ']']
        } else {
            seq!['['] + quoted_limb_items(limbs) + seq![']']
        },
{
    lemma_strip_brackets_list(limbs);
    let empty = Seq::<char>::empty();
    if limbs.len() == 0 {
        assert(quoted_hex(limb_list(limbs)) =~= seq!['[', '"', '"', ']']);
    } else {
        lemma_quoted_rest_items(limbs, empty);
        lemma_inner_items(limbs);
        assert(limb_items(limbs) + empty =~= limb_items(limbs));
        assert(seq!['[', '"'] + (inner_items(limbs) + quoted_rest(empty)) + seq![']'] =~= seq!['[']
            + (seq!['"'] + inner_items(limbs) + seq!['"']) + seq![']']);
    }
}

} // verus!
