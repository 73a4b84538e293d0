//! The header fields that a signature covers, and the bytes that were signed.

use crate::error::{HeaderName, PipelineError};
use crate::text::{
    byte_list, chars_of, copy_range, decimal, find_chars, first_occurrence, lower, lower_char,
    occurs_at, push_byte_list, push_decimal, push_text, string_of,
};
use vstd::prelude::*;
use vstd::string::*;
use vstd::utf8::encode_utf8;

verus! {

/// One header field of a message: its name and its value, folding kept as it came.
#[derive(Clone, Debug)]
pub struct HeaderField {
    pub name: String,
    pub value: String,
}

/// The values of the signed header fields, the DKIM-Signature value cut off right after
/// the marker of its signature tag.
#[derive(Clone, Debug)]
pub struct RelaxedHeaders {
    pub from: String,
    pub content_type: String,
    pub mime_version: String,
    pub subject: String,
    pub message_id: String,
    pub date: String,
    pub to: String,
    pub dkim_signature: String,
}

/// The signed header values as plain values.
pub struct RelaxedHeadersView {
    pub from: Seq<char>,
    pub content_type: Seq<char>,
    pub mime_version: Seq<char>,
    pub subject: Seq<char>,
    pub message_id: Seq<char>,
    pub date: Seq<char>,
    pub to: Seq<char>,
    pub dkim_signature: Seq<char>,
}

impl View for RelaxedHeaders {
    type V = RelaxedHeadersView;

    open spec fn view(&self) -> RelaxedHeadersView {
        RelaxedHeadersView {
            from: self.from@,
            content_type: self.content_type@,
            mime_version: self.mime_version@,
            subject: self.subject@,
            message_id: self.message_id@,
            date: self.date@,
            to: self.to@,
            dkim_signature: self.dkim_signature@,
        }
    }
}

/// Whether two names are equal but for the case of their ASCII letters.
pub open spec fn same_name(a: Seq<char>, b: Seq<char>) -> bool {
    a.len() == b.len() && forall|i: int| 0 <= i < a.len() ==> lower(a[i]) == lower(b[i])
}

/// The value of the first field whose name is `label`, whatever the case of its letters.
pub open spec fn field_value(fields: Seq<HeaderField>, label: Seq<char>) -> Option<Seq<char>>
    decreases fields.len(),
{
    if fields.len() == 0 {
        None
    } else if same_name(fields[0].name@, label) {
        Some(fields[0].value@)
    } else {
        field_value(fields.drop_first(), label)
    }
}

/// The marker of the signature tag as it stands on one line.
pub open spec fn plain_marker() -> Seq<char> {
    seq![';', ' ', 'b', '=']
}

/// The marker of the signature tag as it stands across a folded line.
pub open spec fn folded_marker() -> Seq<char> {
    seq![';', '\n', '\t', 'b', '=']
}

/// The index at which the marker of the signature tag that comes first in `raw` starts.
pub open spec fn signature_marker_start(raw: Seq<char>) -> Option<int> {
    let plain = first_occurrence(raw, plain_marker());
    let folded = first_occurrence(raw, folded_marker());
    if plain is Some && (folded is None || plain->0 < folded->0) {
        plain
    } else {
        folded
    }
}

/// The index right after the marker of the signature tag that comes first in `raw`.
pub open spec fn signature_marker_end(raw: Seq<char>) -> Option<int> {
    let plain = first_occurrence(raw, plain_marker());
    let folded = first_occurrence(raw, folded_marker());
    if plain is Some && (folded is None || plain->0 < folded->0) {
        Some(plain->0 + 4)
    } else if folded is Some {
        Some(folded->0 + 5)
    } else {
        None
    }
}

/// What the signer hashed of the signed header fields of a message: the first missing
/// field in the order of signing is reported, then a DKIM-Signature without marker.
pub open spec fn relaxed_headers_of(fields: Seq<HeaderField>) -> Result<
    RelaxedHeadersView,
    PipelineError,
> {
    let from = field_value(fields, HeaderName::From.label());
    let content_type = field_value(fields, HeaderName::ContentType.label());
    let mime_version = field_value(fields, HeaderName::MimeVersion.label());
    let subject = field_value(fields, HeaderName::Subject.label());
    let message_id = field_value(fields, HeaderName::MessageId.label());
    let date = field_value(fields, HeaderName::Date.label());
    let to = field_value(fields, HeaderName::To.label());
    let dkim = field_value(fields, HeaderName::DkimSignature.label());
    if from is None {
        Err(PipelineError::MissingHeader { name: HeaderName::From })
    } else if content_type is None {
        Err(PipelineError::MissingHeader { name: HeaderName::ContentType })
    } else if mime_version is None {
        Err(PipelineError::MissingHeader { name: HeaderName::MimeVersion })
    } else if subject is None {
        Err(PipelineError::MissingHeader { name: HeaderName::Subject })
    } else if message_id is None {
        Err(PipelineError::MissingHeader { name: HeaderName::MessageId })
    } else if date is None {
        Err(PipelineError::MissingHeader { name: HeaderName::Date })
    } else if to is None {
        Err(PipelineError::MissingHeader { name: HeaderName::To })
    } else if dkim is None {
        Err(PipelineError::MissingHeader { name: HeaderName::DkimSignature })
    } else if signature_marker_end(dkim->0) is None {
        Err(PipelineError::SignatureTagNotFound)
    } else {
        Ok(
            RelaxedHeadersView {
                from: from->0,
                content_type: content_type->0,
                mime_version: mime_version->0,
                subject: subject->0,
                message_id: message_id->0,
                date: date->0,
                to: to->0,
                dkim_signature: dkim->0.take(signature_marker_end(dkim->0)->0),
            },
        )
    }
}

/// Whether two names are equal but for the case of their ASCII letters.
pub fn names_match(a: &Vec<char>, b: &Vec<char>) -> (r: bool)
    ensures
        r == same_name(a@, b@),
{
    if a.len() != b.len() {
        return false;
    }
    let mut i: usize = 0;
    while i < a.len()
        invariant
            a.len() == b.len(),
            i <= a.len(),
            forall|j: int| 0 <= j < i ==> lower(a@[j]) == lower(b@[j]),
        decreases a.len() - i,
    {
        if lower_char(a[i]) != lower_char(b[i]) {
            return false;
        }
        i += 1;
    }
    true
}

/// The value of the first field of the message with the given name.
pub fn find_field(fields: &Vec<HeaderField>, name: HeaderName) -> (r: Option<Vec<char>>)
    ensures
        match r {
            Some(value) => field_value(fields@, name.label()) == Some(value@),
            None => field_value(fields@, name.label()) is None,
        },
{
    let label = chars_of(name.label_text());
    let mut i: usize = 0;
    assert(fields@.skip(0) == fields@);
    while i < fields.len()
        invariant
            i <= fields.len(),
            label@ == name.label(),
            field_value(fields@, label@) == field_value(fields@.skip(i as int), label@),
        decreases fields.len() - i,
    {
        let field_name = chars_of(fields[i].name.as_str());
        assert(fields@.skip(i as int)[0] == fields@[i as int]);
        if names_match(&field_name, &label) {
            return Some(chars_of(fields[i].value.as_str()));
        }
        assert(fields@.skip(i as int).drop_first() == fields@.skip(i + 1));
        i += 1;
    }
    None
}

/// The index right after the marker of the signature tag that comes first in `raw`.
pub fn find_signature_marker_end(raw: &Vec<char>) -> (r: Option<usize>)
    ensures
        match r {
            Some(end) => signature_marker_end(raw@) == Some(end as int) && end <= raw.len(),
            None => signature_marker_end(raw@) is None,
        },
{
    let mut plain_word: Vec<char> = Vec::new();
    plain_word.push(';');
    plain_word.push(' ');
    plain_word.push('b');
    plain_word.push('=');
    assert(plain_word@ =~= plain_marker());
    let mut folded_word: Vec<char> = Vec::new();
    folded_word.push(';');
    folded_word.push('\n');
    folded_word.push('\t');
    folded_word.push('b');
    folded_word.push('=');
    assert(folded_word@ =~= folded_marker());
    let plain = find_chars(raw, &plain_word);
    let folded = find_chars(raw, &folded_word);
    let n: usize = raw.len();
    proof {
        crate::text::lemma_first_occurrence_from(raw@, plain_marker(), 0);
        crate::text::lemma_first_occurrence_from(raw@, folded_marker(), 0);
        assert(plain_marker().len() == 4);
        assert(folded_marker().len() == 5);
        if plain is Some {
            assert(occurs_at(raw@, plain_marker(), plain->0 as int));
        }
        if folded is Some {
            assert(occurs_at(raw@, folded_marker(), folded->0 as int));
        }
    }
    match (plain, folded) {
        (Some(i), Some(j)) => if i < j {
            Some(i + 4)
        } else {
            Some(j + 5)
        },
        (Some(i), None) => Some(i + 4),
        (None, Some(j)) => Some(j + 5),
        (None, None) => None,
    }
}

/// Picks the signed header fields out of a message, names compared without regard to
/// case, and cuts the DKIM-Signature value off right after the marker of its
/// signature tag: the signature cannot cover itself.
pub fn build_relaxed_headers(fields: &Vec<HeaderField>) -> (r: Result<
    RelaxedHeaders,
    PipelineError,
>)
    ensures
        match r {
            Ok(headers) => relaxed_headers_of(fields@) == Ok::<RelaxedHeadersView, PipelineError>(
                headers@,
            ),
            Err(e) => relaxed_headers_of(fields@) == Err::<RelaxedHeadersView, PipelineError>(e),
        },
{
    let from = match find_field(fields, HeaderName::From) {
        Some(v) => v,
        None => { return Err(PipelineError::MissingHeader { name: HeaderName::From }); },
    };
    let content_type = match find_field(fields, HeaderName::ContentType) {
        Some(v) => v,
        None => { return Err(PipelineError::MissingHeader { name: HeaderName::ContentType }); },
    };
    let mime_version = match find_field(fields, HeaderName::MimeVersion) {
        Some(v) => v,
        None => { return Err(PipelineError::MissingHeader { name: HeaderName::MimeVersion }); },
    };
    let subject = match find_field(fields, HeaderName::Subject) {
        Some(v) => v,
        None => { return Err(PipelineError::MissingHeader { name: HeaderName::Subject }); },
    };
    let message_id = match find_field(fields, HeaderName::MessageId) {
        Some(v) => v,
        None => { return Err(PipelineError::MissingHeader { name: HeaderName::MessageId }); },
    };
    let date = match find_field(fields, HeaderName::Date) {
        Some(v) => v,
        None => { return Err(PipelineError::MissingHeader { name: HeaderName::Date }); },
    };
    let to = match find_field(fields, HeaderName::To) {
        Some(v) => v,
        None => { return Err(PipelineError::MissingHeader { name: HeaderName::To }); },
    };
    let dkim = match find_field(fields, HeaderName::DkimSignature) {
        Some(v) => v,
        None => { return Err(PipelineError::MissingHeader { name: HeaderName::DkimSignature }); },
    };
    let end = match find_signature_marker_end(&dkim) {
        Some(end) => end,
        None => { return Err(PipelineError::SignatureTagNotFound); },
    };
    let cut = copy_range(&dkim, 0, end);
    assert(cut@ == dkim@.take(end as int));
    Ok(
        RelaxedHeaders {
            from: string_of(&from),
            content_type: string_of(&content_type),
            mime_version: string_of(&mime_version),
            subject: string_of(&subject),
            message_id: string_of(&message_id),
            date: string_of(&date),
            to: string_of(&to),
            dkim_signature: string_of(&cut),
        },
    )
}

/// Whether a line feed at the start of `s` is followed by a space or a tab.
pub open spec fn starts_with_fold(s: Seq<char>) -> bool {
    s.len() >= 2 && s[0] == '\n' && (s[1] == ' ' || s[1] == '\t')
}

/// The value with every line continuation unfolded: a line feed followed by a space or
/// a tab becomes one space. Everything else stays as it is.
pub open spec fn unfold(s: Seq<char>) -> Seq<char>
    decreases s.len(),
{
    if s.len() == 0 {
        s
    } else if starts_with_fold(s) {
        seq![' '] + unfold(s.skip(2))
    } else {
        seq![s[0]] + unfold(s.skip(1))
    }
}

/// Whether a line continuation starts at index `i` of `s`.
pub open spec fn fold_at(s: Seq<char>, i: int) -> bool {
    0 <= i && i + 1 < s.len() && s[i] == '\n' && (s[i + 1] == ' ' || s[i + 1] == '\t')
}

/// Whether `s` holds no line continuation.
pub open spec fn no_fold(s: Seq<char>) -> bool {
    forall|i: int| !fold_at(s, i)
}

/// Whether `s` holds no line feed right before a line continuation.
pub open spec fn no_line_feed_before_fold(s: Seq<char>) -> bool {
    forall|i: int| 0 <= i && s[i] == '\n' ==> !#[trigger] fold_at(s, i + 1)
}

/// A value without line continuation is its own unfolded form.
pub proof fn lemma_unfold_fixed(s: Seq<char>)
    requires
        no_fold(s),
    ensures
        unfold(s) == s,
    decreases s.len(),
{
    if s.len() > 0 {
        assert(!fold_at(s, 0));
        let rest = s.skip(1);
        assert forall|i: int| !fold_at(rest, i) by {
            assert(!fold_at(s, i + 1));
        }
        lemma_unfold_fixed(rest);
        assert(seq![s[0]] + rest =~= s);
    }
}

/// Unfolding leaves no line continuation, unless a line feed stood right before one.
pub proof fn lemma_unfold_leaves_no_fold(s: Seq<char>)
    requires
        no_line_feed_before_fold(s),
    ensures
        no_fold(unfold(s)),
    decreases s.len(),
{
    if s.len() > 0 {
        let u = unfold(s);
        if starts_with_fold(s) {
            let rest = s.skip(2);
            assert forall|i: int| 0 <= i && rest[i] == '\n' implies !#[trigger] fold_at(
                rest,
                i + 1,
            ) by {
                assert(!fold_at(s, i + 2 + 1));
            }
            lemma_unfold_leaves_no_fold(rest);
            let v = unfold(rest);
            assert forall|k: int| !fold_at(u, k) by {
                if k >= 1 {
                    assert(!fold_at(v, k - 1));
                }
            }
        } else {
            let rest = s.skip(1);
            assert forall|i: int| 0 <= i && rest[i] == '\n' implies !#[trigger] fold_at(
                rest,
                i + 1,
            ) by {
                assert(!fold_at(s, i + 1 + 1));
            }
            lemma_unfold_leaves_no_fold(rest);
            let v = unfold(rest);
            assert forall|k: int| !fold_at(u, k) by {
                if k >= 1 {
                    assert(!fold_at(v, k - 1));
                } else if k == 0 && v.len() > 0 && s[0] == '\n' {
                    assert(!fold_at(s, 0int + 1));
                    if starts_with_fold(rest) {
                        assert(fold_at(s, 1));
                    } else {
                        assert(v[0] == rest[0]);
                    }
                }
            }
        }
    }
}

/// Unfolding an unfolded value changes nothing, for every value in which no line feed
/// stands right before a line continuation.
pub proof fn lemma_unfold_idempotent(s: Seq<char>)
    requires
        no_line_feed_before_fold(s),
    ensures
        unfold(unfold(s)) == unfold(s),
{
    lemma_unfold_leaves_no_fold(s);
    lemma_unfold_fixed(unfold(s));
}

/// A value that holds a line feed right before a line continuation changes when it is
/// unfolded a second time: unfolding the continuation makes a new one of the line feed
/// and the space.
pub proof fn lemma_unfold_twice_differs(s: Seq<char>)
    requires
        !no_line_feed_before_fold(s),
    ensures
        unfold(unfold(s)) != unfold(s),
{
    let i = choose|i: int| 0 <= i && s[i] == '\n' && #[trigger] fold_at(s, i + 1);
    lemma_unfold_keeps_fold(s, i);
    let j = choose|j: int| fold_at(unfold(s), j);
    lemma_unfold_shortens(unfold(s), j);
}

proof fn lemma_unfold_keeps_fold(s: Seq<char>, i: int)
    requires
        0 <= i,
        s[i] == '\n',
        fold_at(s, i + 1),
    ensures
        exists|j: int| fold_at(unfold(s), j),
    decreases s.len(),
{
    let u = unfold(s);
    if i == 0 {
        let rest = s.skip(1);
        assert(rest[0] == s[1] && rest[1] == s[2]);
        assert(starts_with_fold(rest));
        assert(!starts_with_fold(s));
        assert(u == seq![s[0]] + unfold(rest));
        assert(unfold(rest) == seq![' '] + unfold(rest.skip(2)));
        assert(u[0] == '\n' && u[1] == ' ');
        assert(fold_at(u, 0));
    } else {
        let k: int = if starts_with_fold(s) {
            2
        } else {
            1
        };
        let rest = s.skip(k);
        assert(rest[i - k] == s[i]);
        assert(rest[i - k + 1] == s[i + 1]);
        assert(rest[i - k + 2] == s[i + 2]);
        assert(fold_at(rest, i - k + 1));
        lemma_unfold_keeps_fold(rest, i - k);
        let j = choose|j: int| fold_at(unfold(rest), j);
        assert(u[j + 1] == unfold(rest)[j]);
        assert(u[j + 2] == unfold(rest)[j + 1]);
        assert(fold_at(u, j + 1));
    }
}

proof fn lemma_unfold_length(s: Seq<char>)
    ensures
        unfold(s).len() <= s.len(),
    decreases s.len(),
{
    if s.len() > 0 {
        if starts_with_fold(s) {
            lemma_unfold_length(s.skip(2));
        } else {
            lemma_unfold_length(s.skip(1));
        }
    }
}

proof fn lemma_unfold_shortens(s: Seq<char>, j: int)
    requires
        fold_at(s, j),
    ensures
        unfold(s).len() < s.len(),
    decreases s.len(),
{
    if starts_with_fold(s) {
        lemma_unfold_length(s.skip(2));
    } else {
        let rest = s.skip(1);
        assert(rest[j - 1] == s[j] && rest[j] == s[j + 1]);
        assert(fold_at(rest, j - 1));
        lemma_unfold_shortens(rest, j - 1);
    }
}

/// Unfolding two values one after the other is unfolding the two put together, unless
/// the first ends with a line feed and the second starts with a space or a tab.
pub proof fn lemma_unfold_concat(a: Seq<char>, b: Seq<char>)
    requires
        !(a.len() > 0 && a.last() == '\n' && b.len() > 0 && (b[0] == ' ' || b[0] == '\t')),
    ensures
        unfold(a + b) == unfold(a) + unfold(b),
    decreases a.len(),
{
    let whole = a + b;
    if a.len() == 0 {
        assert(whole =~= b);
        assert(unfold(a) + unfold(b) =~= unfold(b));
    } else if starts_with_fold(a) {
        assert(whole[0] == a[0] && whole[1] == a[1]);
        assert(whole.skip(2) =~= a.skip(2) + b);
        lemma_unfold_concat(a.skip(2), b);
        assert(seq![' '] + (unfold(a.skip(2)) + unfold(b)) =~= seq![' '] + unfold(a.skip(2))
            + unfold(b));
    } else {
        assert(whole[0] == a[0]);
        if a.len() >= 2 {
            assert(whole[1] == a[1]);
        } else if b.len() > 0 {
            assert(whole[1] == b[0]);
        }
        assert(!starts_with_fold(whole));
        assert(whole.skip(1) =~= a.skip(1) + b);
        lemma_unfold_concat(a.skip(1), b);
        assert(seq![a[0]] + (unfold(a.skip(1)) + unfold(b)) =~= seq![a[0]] + unfold(a.skip(1))
            + unfold(b));
    }
}

/// Whichever spelling of the marker comes first, the line of the DKIM-Signature that
/// was signed ends with the marker on one line, right where the signature would start:
/// the unfolded value is the unfolded text before the marker, then `; b=`.
pub proof fn lemma_signed_value_ends_with_marker(raw: Seq<char>)
    requires
        signature_marker_end(raw) is Some,
    ensures
        signature_marker_start(raw) is Some,
        0 <= signature_marker_start(raw)->0 <= signature_marker_end(raw)->0 <= raw.len(),
        unfold(raw.take(signature_marker_end(raw)->0)) == unfold(
            raw.take(signature_marker_start(raw)->0),
        ) + plain_marker(),
{
    let end = signature_marker_end(raw)->0;
    let plain = first_occurrence(raw, plain_marker());
    let folded = first_occurrence(raw, folded_marker());
    crate::text::lemma_first_occurrence_from(raw, plain_marker(), 0);
    crate::text::lemma_first_occurrence_from(raw, folded_marker(), 0);
    assert(plain_marker().len() == 4 && folded_marker().len() == 5);
    assert(no_fold(plain_marker()));
    lemma_unfold_fixed(plain_marker());
    if plain is Some && (folded is None || plain->0 < folded->0) {
        let start = plain->0;
        assert(occurs_at(raw, plain_marker(), start));
        assert(raw.take(end) =~= raw.take(start) + plain_marker());
        lemma_unfold_concat(raw.take(start), plain_marker());
    } else {
        let start = folded->0;
        assert(occurs_at(raw, folded_marker(), start));
        assert(raw.take(end) =~= raw.take(start) + folded_marker());
        lemma_unfold_concat(raw.take(start), folded_marker());
        let m = folded_marker();
        let tail = seq!['b', '='];
        assert(!starts_with_fold(m));
        assert(m.skip(1) =~= seq!['\n', '\t', 'b', '=']);
        assert(starts_with_fold(m.skip(1)));
        assert(m.skip(1).skip(2) =~= tail);
        assert(no_fold(tail));
        lemma_unfold_fixed(tail);
        assert(unfold(m) == seq![m[0]] + unfold(m.skip(1)));
        assert(unfold(m.skip(1)) == seq![' '] + unfold(m.skip(1).skip(2)));
        assert(unfold(m) =~= plain_marker());
        if plain is Some {
            assert(plain->0 != folded->0) by {
                assert(raw.subrange(start, start + 4)[1] == raw[start + 1]);
                assert(raw.subrange(start, start + 5)[1] == raw[start + 1]);
            }
        }
    }
}

/// One line of the signed headers: the name in lower case, a colon, the unfolded value.
pub open spec fn header_line(name: HeaderName, value: Seq<char>) -> Seq<char> {
    name.label() + seq![':'] + unfold(value)
}

/// The signed headers as text: the lines in the order of signing, a CRLF between two of
/// them and none at the end.
pub open spec fn signed_header_text(headers: RelaxedHeadersView) -> Seq<char> {
    let crlf = seq!['\r', '\n'];
    header_line(HeaderName::From, headers.from) + crlf + header_line(
        HeaderName::ContentType,
        headers.content_type,
    ) + crlf + header_line(HeaderName::MimeVersion, headers.mime_version) + crlf + header_line(
        HeaderName::Subject,
        headers.subject,
    ) + crlf + header_line(HeaderName::MessageId, headers.message_id) + crlf + header_line(
        HeaderName::Date,
        headers.date,
    ) + crlf + header_line(HeaderName::To, headers.to) + crlf + header_line(
        HeaderName::DkimSignature,
        headers.dkim_signature,
    )
}

/// Appends the unfolded form of `value` to `out`.
pub fn push_unfolded(out: &mut Vec<char>, value: &Vec<char>)
    ensures
        final(out)@ == old(out)@ + unfold(value@),
{
    let n: usize = value.len();
    let mut i: usize = 0;
    assert(value@.skip(0) == value@);
    while i < n
        invariant
            n == value.len(),
            i <= n,
            old(out)@ + unfold(value@) == out@ + unfold(value@.skip(i as int)),
        decreases n - i,
    {
        let rest = Ghost(value@.skip(i as int));
        assert(rest@[0] == value@[i as int]);
        if value[i] == '\n' && i + 1 < n && (value[i + 1] == ' ' || value[i + 1] == '\t') {
            assert(rest@[1] == value@[i + 1]);
            assert(rest@.skip(2) == value@.skip(i + 2));
            assert(out@.push(' ') + unfold(rest@.skip(2)) == out@ + (seq![' '] + unfold(
                rest@.skip(2),
            )));
            out.push(' ');
            i += 2;
        } else {
            if i + 1 < n {
                assert(rest@[1] == value@[i + 1]);
            }
            assert(rest@.skip(1) == value@.skip(i + 1));
            assert(out@.push(value@[i as int]) + unfold(rest@.skip(1)) == out@ + (seq![
                value@[i as int],
            ] + unfold(rest@.skip(1))));
            out.push(value[i]);
            i += 1;
        }
    }
}

/// Appends one line of the signed headers to `out`.
fn push_header_line(out: &mut Vec<char>, name: HeaderName, value: &str)
    ensures
        final(out)@ == old(out)@ + header_line(name, value@),
{
    push_text(out, name.label_text());
    out.push(':');
    let chars = chars_of(value);
    push_unfolded(out, &chars);
    assert(final(out)@ == old(out)@ + header_line(name, value@)) by {
        assert(old(out)@ + name.label() + seq![':'] + unfold(value@) =~= old(out)@ + (name.label()
            + seq![':'] + unfold(value@)));
        assert((old(out)@ + name.label()).push(':') =~= old(out)@ + name.label() + seq![':']);
    }
}

/// Appends a carriage return and a line feed to `out`.
fn push_crlf(out: &mut Vec<char>)
    ensures
        final(out)@ == old(out)@ + seq!['\r', '\n'],
{
    out.push('\r');
    out.push('\n');
    assert(out@ =~= old(out)@ + seq!['\r', '\n']);
}

/// The bytes that the signer hashed: the signed header lines in UTF-8.
pub fn to_signed_headers(relaxed_headers: &RelaxedHeaders) -> (bytes: Vec<u8>)
    ensures
        bytes@ == encode_utf8(signed_header_text(relaxed_headers@)),
{
    let mut out: Vec<char> = Vec::new();
    push_header_line(&mut out, HeaderName::From, relaxed_headers.from.as_str());
    push_crlf(&mut out);
    push_header_line(&mut out, HeaderName::ContentType, relaxed_headers.content_type.as_str());
    push_crlf(&mut out);
    push_header_line(&mut out, HeaderName::MimeVersion, relaxed_headers.mime_version.as_str());
    push_crlf(&mut out);
    push_header_line(&mut out, HeaderName::Subject, relaxed_headers.subject.as_str());
    push_crlf(&mut out);
    push_header_line(&mut out, HeaderName::MessageId, relaxed_headers.message_id.as_str());
    push_crlf(&mut out);
    push_header_line(&mut out, HeaderName::Date, relaxed_headers.date.as_str());
    push_crlf(&mut out);
    push_header_line(&mut out, HeaderName::To, relaxed_headers.to.as_str());
    push_crlf(&mut out);
    push_header_line(
        &mut out,
        HeaderName::DkimSignature,
        relaxed_headers.dkim_signature.as_str(),
    );
    assert(out@ =~= signed_header_text(relaxed_headers@));
    let text = string_of(&out);
    text.as_str().as_bytes_vec()
}

/// The text of a declaration of the signed header bytes as an array of the circuit's
/// language.
pub open spec fn header_declaration(header: Seq<u8>) -> Seq<char> {
    "let header: [u8; "@ + decimal(header.len()) + "] = "@ + byte_list(header) + ";"@
}

/// A declaration of the signed header bytes as an array of the circuit's language: its
/// length, then the bytes as decimal numerals.
pub fn make_header_string(header: &Vec<u8>) -> (text: String)
    ensures
        text@ == header_declaration(header@),
{
    let mut out: Vec<char> = Vec::new();
    push_text(&mut out, "let header: [u8; ");
    push_decimal(&mut out, header.len());
    push_text(&mut out, "] = ");
    push_byte_list(&mut out, header);
    push_text(&mut out, ";");
    assert(out@ =~= header_declaration(header@));
    string_of(&out)
}

} // verus!
