//! Relaxed canonicalization of a message body.

use vstd::prelude::*;

verus! {

pub const CR: u8 = 0x0D;

pub const LF: u8 = 0x0A;

/// The body with a carriage return put in front of every line feed that has none before it.
pub open spec fn normalize_line_endings(body: Seq<u8>) -> Seq<u8>
    decreases body.len(),
{
    if body.len() == 0 {
        Seq::<u8>::empty()
    } else if body.last() == LF && (body.len() == 1 || body[body.len() - 2] != CR) {
        normalize_line_endings(body.drop_last()).push(CR).push(LF)
    } else {
        normalize_line_endings(body.drop_last()).push(body.last())
    }
}

/// Whether the bytes end with a carriage return and a line feed.
pub open spec fn ends_with_crlf(bytes: Seq<u8>) -> bool {
    bytes.len() >= 2 && bytes[bytes.len() - 2] == CR && bytes[bytes.len() - 1] == LF
}

/// The bytes without the run of CRLF pairs at their end.
pub open spec fn strip_trailing_crlf(bytes: Seq<u8>) -> Seq<u8>
    decreases bytes.len(),
{
    if ends_with_crlf(bytes) {
        strip_trailing_crlf(bytes.take(bytes.len() - 2))
    } else {
        bytes
    }
}

/// The canonical body: line endings normalized, the empty lines at the end removed,
/// and one CRLF at the end.
pub open spec fn canonical_body(body: Seq<u8>) -> Seq<u8> {
    strip_trailing_crlf(normalize_line_endings(body)).push(CR).push(LF)
}

/// Whether every line feed has a carriage return right before it.
pub open spec fn no_bare_line_feed(bytes: Seq<u8>) -> bool {
    forall|i: int| 0 <= i < bytes.len() && #[trigger] bytes[i] == LF ==> i > 0 && bytes[i - 1] == CR
}

/// Replaces the body by its canonical form: no line feed is left without a carriage
/// return before it, and the body ends with one CRLF and no more.
pub fn fix_body_newlines(bytes: &mut Vec<u8>)
    ensures
        final(bytes)@ == canonical_body(old(bytes)@),
        no_bare_line_feed(final(bytes)@),
        ends_with_crlf(final(bytes)@),
        !ends_with_crlf(final(bytes)@.take(final(bytes)@.len() - 2)),
{
    proof {
        lemma_canonical_body_shape(bytes@);
    }
    let n: usize = bytes.len();
    let mut out: Vec<u8> = Vec::new();
    let mut i: usize = 0;
    while i < n
        invariant
            n == bytes.len(),
            i <= n,
            bytes@ == old(bytes)@,
            out@ == normalize_line_endings(bytes@.take(i as int)),
        decreases n - i,
    {
        let b: u8 = bytes[i];
        proof {
            let next = bytes@.take(i + 1);
            assert(next.drop_last() == bytes@.take(i as int));
            assert(next.last() == b);
            if i > 0 {
                assert(next[next.len() - 2] == bytes@[i - 1]);
            }
        }
        if b == LF && (i == 0 || bytes[i - 1] != CR) {
            out.push(CR);
        }
        out.push(b);
        i += 1;
    }
    assert(bytes@.take(n as int) == bytes@);
    let mut end: usize = out.len();
    assert(out@.take(end as int) == out@);
    while end >= 2 && out[end - 2] == CR && out[end - 1] == LF
        invariant
            end <= out.len(),
            strip_trailing_crlf(out@) == strip_trailing_crlf(out@.take(end as int)),
        decreases end,
    {
        proof {
            let cur = out@.take(end as int);
            assert(ends_with_crlf(cur));
            assert(cur.take(cur.len() - 2) == out@.take(end - 2));
        }
        end -= 2;
    }
    proof {
        let cur = out@.take(end as int);
        assert(!ends_with_crlf(cur));
    }
    out.truncate(end);
    out.push(CR);
    out.push(LF);
    *bytes = out;
}

proof fn lemma_normalize_shape(body: Seq<u8>)
    ensures
        no_bare_line_feed(normalize_line_endings(body)),
        body.len() > 0 ==> normalize_line_endings(body).len() > 0 && normalize_line_endings(
            body,
        ).last() == body.last(),
    decreases body.len(),
{
    if body.len() > 0 {
        let init = body.drop_last();
        lemma_normalize_shape(init);
        let n = normalize_line_endings(init);
        let r = normalize_line_endings(body);
        if body.last() == LF && (body.len() == 1 || body[body.len() - 2] != CR) {
            assert(r == n.push(CR).push(LF));
            assert forall|i: int| 0 <= i < r.len() && #[trigger] r[i] == LF implies i > 0 && r[i
                - 1] == CR by {
                if i < n.len() {
                    assert(n[i] == LF);
                }
            }
        } else {
            assert(r == n.push(body.last()));
            assert forall|i: int| 0 <= i < r.len() && #[trigger] r[i] == LF implies i > 0 && r[i
                - 1] == CR by {
                if i < n.len() {
                    assert(n[i] == LF);
                } else {
                    assert(init.last() == body[body.len() - 2]);
                }
            }
        }
    }
}

proof fn lemma_normalize_fixed(bytes: Seq<u8>)
    requires
        no_bare_line_feed(bytes),
    ensures
        normalize_line_endings(bytes) == bytes,
    decreases bytes.len(),
{
    if bytes.len() > 0 {
        let init = bytes.drop_last();
        assert forall|i: int| 0 <= i < init.len() && #[trigger] init[i] == LF implies i > 0
            && init[i - 1] == CR by {
            assert(bytes[i] == LF);
        }
        lemma_normalize_fixed(init);
        if bytes.last() == LF {
            assert(bytes[bytes.len() - 1] == LF);
        }
        assert(init.push(bytes.last()) == bytes);
    }
}

proof fn lemma_strip_shape(bytes: Seq<u8>)
    ensures
        strip_trailing_crlf(bytes).len() <= bytes.len(),
        strip_trailing_crlf(bytes) == bytes.take(strip_trailing_crlf(bytes).len() as int),
        !ends_with_crlf(strip_trailing_crlf(bytes)),
    decreases bytes.len(),
{
    if ends_with_crlf(bytes) {
        let init = bytes.take(bytes.len() - 2);
        lemma_strip_shape(init);
        let s = strip_trailing_crlf(init);
        assert(init.take(s.len() as int) == bytes.take(s.len() as int));
    } else {
        assert(bytes.take(bytes.len() as int) == bytes);
    }
}

/// The canonical body has no line feed without a carriage return before it, ends with a
/// CRLF, and does not end with two of them.
pub proof fn lemma_canonical_body_shape(body: Seq<u8>)
    ensures
        no_bare_line_feed(canonical_body(body)),
        ends_with_crlf(canonical_body(body)),
        !ends_with_crlf(canonical_body(body).take(canonical_body(body).len() - 2)),
        canonical_body(body).take(canonical_body(body).len() - 2) == strip_trailing_crlf(
            normalize_line_endings(body),
        ),
{
    let n = normalize_line_endings(body);
    let s = strip_trailing_crlf(n);
    let c = canonical_body(body);
    lemma_normalize_shape(body);
    lemma_strip_shape(n);
    assert(c.take(c.len() - 2) == s);
    assert forall|i: int| 0 <= i < c.len() && #[trigger] c[i] == LF implies i > 0 && c[i - 1]
        == CR by {
        if i < s.len() {
            assert(n[i] == LF);
        }
    }
}

/// Canonicalizing a canonical body changes nothing.
pub proof fn lemma_canonical_body_idempotent(body: Seq<u8>)
    ensures
        canonical_body(canonical_body(body)) == canonical_body(body),
{
    let c = canonical_body(body);
    let s = strip_trailing_crlf(normalize_line_endings(body));
    lemma_canonical_body_shape(body);
    lemma_normalize_fixed(c);
    assert(ends_with_crlf(c));
    assert(c.take(c.len() - 2) == s);
    assert(strip_trailing_crlf(c) == strip_trailing_crlf(s));
    assert(strip_trailing_crlf(s) == s);
}

} // verus!
