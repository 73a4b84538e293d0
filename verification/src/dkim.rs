//! The fields of a DKIM-Signature header that the pipeline needs.

use crate::error::PipelineError;
use crate::tags::{
    body_hash_tag_name, check_tag_list, find_char_between, find_tag, index_of, range_equals,
    remove_spaces, tag_list_well_formed, tag_name, tag_value, without_spaces,
};
use crate::text::{chars_of, string_of};
use base64::Engine;
use vstd::prelude::*;

verus! {

/// How the signer normalized the headers or the body before hashing.
#[derive(Clone, Copy, Debug, PartialEq, Eq, Structural)]
pub enum Canonicalization {
    Simple,
    Relaxed,
}

/// The hash that the signature was made over.
#[derive(Clone, Copy, Debug, PartialEq, Eq, Structural)]
pub enum HashAlgorithm {
    Sha1,
    Sha256,
}

/// What a DKIM-Signature field says: who signed, how, and the two base64 values.
#[derive(Clone, Debug)]
pub struct DkimSignatureFields {
    pub selector: String,
    pub domain: String,
    pub header_canon: Canonicalization,
    pub body_canon: Canonicalization,
    pub hash_algo: HashAlgorithm,
    pub declared_body_hash: String,
    pub signature: String,
}

/// The fields as plain values.
pub struct DkimSignatureFieldsView {
    pub selector: Seq<char>,
    pub domain: Seq<char>,
    pub header_canon: Canonicalization,
    pub body_canon: Canonicalization,
    pub hash_algo: HashAlgorithm,
    pub declared_body_hash: Seq<char>,
    pub signature: Seq<char>,
}

impl View for DkimSignatureFields {
    type V = DkimSignatureFieldsView;

    open spec fn view(&self) -> DkimSignatureFieldsView {
        DkimSignatureFieldsView {
            selector: self.selector@,
            domain: self.domain@,
            header_canon: self.header_canon,
            body_canon: self.body_canon,
            hash_algo: self.hash_algo,
            declared_body_hash: self.declared_body_hash@,
            signature: self.signature@,
        }
    }
}

/// The hash named by the `a` tag: `rsa-sha256` or `rsa-sha1`.
pub open spec fn algorithm_of(text: Seq<char>) -> Option<HashAlgorithm> {
    match tag_value(text, seq!['a']) {
        Some(v) => if v == "rsa-sha256"@ {
            Some(HashAlgorithm::Sha256)
        } else if v == "rsa-sha1"@ {
            Some(HashAlgorithm::Sha1)
        } else {
            None
        },
        None => None,
    }
}

/// The canonicalization that a word of the `c` tag names.
pub open spec fn canonicalization_of(word: Seq<char>) -> Option<Canonicalization> {
    if word == "simple"@ {
        Some(Canonicalization::Simple)
    } else if word == "relaxed"@ {
        Some(Canonicalization::Relaxed)
    } else {
        None
    }
}

/// The canonicalizations of headers and body that the `c` tag names: `header/body`, or
/// `header` alone with a simple body; both simple where the tag is absent.
pub open spec fn canonicalizations_of(text: Seq<char>) -> Option<
    (Canonicalization, Canonicalization),
> {
    match tag_value(text, seq!['c']) {
        None => Some((Canonicalization::Simple, Canonicalization::Simple)),
        Some(v) => {
            let slash = index_of(v, '/');
            let header = canonicalization_of(v.take(slash as int));
            let body = if slash < v.len() {
                canonicalization_of(v.skip(slash as int + 1))
            } else {
                Some(Canonicalization::Simple)
            };
            if header is Some && body is Some {
                Some((header->0, body->0))
            } else {
                None
            }
        },
    }
}

/// The fields of a DKIM-Signature value, where its tag list is well formed, names a known
/// algorithm and known canonicalizations, and has a selector (`s`), a domain (`d`), a
/// body hash (`bh`) and a signature (`b`) that are not empty.
pub open spec fn dkim_fields(text: Seq<char>) -> Option<DkimSignatureFieldsView> {
    let s = tag_value(text, seq!['s']);
    let d = tag_value(text, seq!['d']);
    let bh = tag_value(text, seq!['b', 'h']);
    let b = tag_value(text, seq!['b']);
    let a = algorithm_of(text);
    let c = canonicalizations_of(text);
    if tag_list_well_formed(text) && s is Some && d is Some && bh is Some && b is Some && a is Some
        && c is Some && s->0.len() > 0 && d->0.len() > 0 && bh->0.len() > 0 && without_spaces(
        b->0,
    ).len() > 0 {
        Some(
            DkimSignatureFieldsView {
                selector: s->0,
                domain: d->0,
                header_canon: c.unwrap().0,
                body_canon: c.unwrap().1,
                hash_algo: a->0,
                declared_body_hash: bh->0,
                signature: without_spaces(b->0),
            },
        )
    } else {
        None
    }
}

/// The canonicalization that `word[lo..hi]` names.
fn read_canonicalization(word: &Vec<char>, lo: usize, hi: usize) -> (r: Option<Canonicalization>)
    requires
        lo <= hi <= word.len(),
    ensures
        r == canonicalization_of(word@.subrange(lo as int, hi as int)),
{
    if range_equals(word, lo, hi, &chars_of("simple")) {
        Some(Canonicalization::Simple)
    } else if range_equals(word, lo, hi, &chars_of("relaxed")) {
        Some(Canonicalization::Relaxed)
    } else {
        None
    }
}

/// The canonicalizations that the `c` tag of the list names.
pub fn read_canonicalizations(text: &Vec<char>) -> (r: Option<(Canonicalization, Canonicalization)>)
    ensures
        r == canonicalizations_of(text@),
{
    match find_tag(text, &tag_name('c')) {
        None => Some((Canonicalization::Simple, Canonicalization::Simple)),
        Some(v) => {
            let n: usize = v.len();
            let slash: usize = find_char_between(&v, 0, n, '/');
            proof {
                assert(v@.subrange(0, n as int) == v@);
                assert(v@.take(slash as int) == v@.subrange(0, slash as int));
                if slash < n {
                    assert(v@.skip(slash + 1) == v@.subrange(slash + 1, n as int));
                }
            }
            let header = read_canonicalization(&v, 0, slash);
            let body = if slash < n {
                read_canonicalization(&v, slash + 1, n)
            } else {
                Some(Canonicalization::Simple)
            };
            match (header, body) {
                (Some(h), Some(b)) => Some((h, b)),
                _ => None,
            }
        },
    }
}

/// The hash that the `a` tag of the list names.
pub fn read_algorithm(text: &Vec<char>) -> (r: Option<HashAlgorithm>)
    ensures
        r == algorithm_of(text@),
{
    match find_tag(text, &tag_name('a')) {
        None => None,
        Some(v) => {
            let n: usize = v.len();
            assert(v@.subrange(0, n as int) == v@);
            if range_equals(&v, 0, n, &chars_of("rsa-sha256")) {
                Some(HashAlgorithm::Sha256)
            } else if range_equals(&v, 0, n, &chars_of("rsa-sha1")) {
                Some(HashAlgorithm::Sha1)
            } else {
                None
            }
        },
    }
}

/// Reads the fields of a DKIM-Signature value.
///
/// It fails where the tag list is malformed, where a needed tag is absent or empty, or
/// where the algorithm or a canonicalization is unknown.
pub fn parse_dkim_header(value: &str) -> (r: Result<DkimSignatureFields, PipelineError>)
    ensures
        match r {
            Ok(fields) => dkim_fields(value@) == Some(fields@),
            Err(e) => e == PipelineError::MalformedDkimHeader && dkim_fields(value@) is None,
        },
{
    let text = chars_of(value);
    if !check_tag_list(&text) {
        return Err(PipelineError::MalformedDkimHeader);
    }
    let s = find_tag(&text, &tag_name('s'));
    let d = find_tag(&text, &tag_name('d'));
    let bh = find_tag(&text, &body_hash_tag_name());
    let b = find_tag(&text, &tag_name('b'));
    let a = read_algorithm(&text);
    let c = read_canonicalizations(&text);
    match (s, d, bh, b, a, c) {
        (Some(s), Some(d), Some(bh), Some(b), Some(a), Some(c)) => {
            let signature = remove_spaces(&b);
            if s.len() == 0 || d.len() == 0 || bh.len() == 0 || signature.len() == 0 {
                return Err(PipelineError::MalformedDkimHeader);
            }
            Ok(
                DkimSignatureFields {
                    selector: string_of(&s),
                    domain: string_of(&d),
                    header_canon: c.0,
                    body_canon: c.1,
                    hash_algo: a,
                    declared_body_hash: string_of(&bh),
                    signature: string_of(&signature),
                },
            )
        },
        _ => Err(PipelineError::MalformedDkimHeader),
    }
}

/// What base64's standard alphabet with padding decodes the text to, where it is valid.
pub uninterp spec fn base64_standard_decoding(text: Seq<char>) -> Option<Seq<u8>>;

/// `Engine::decode` of the `base64` crate on its `STANDARD` engine: the decoded bytes,
/// or nothing where the text is not valid padded base64. The result depends on the
/// text alone.
#[verifier::external_body]
fn base64_decode(text: &str) -> (r: Option<Vec<u8>>)
    ensures
        match r {
            Some(bytes) => base64_standard_decoding(text@) == Some(bytes@),
            None => base64_standard_decoding(text@) is None,
        },
{
    base64::engine::general_purpose::STANDARD.decode(text).ok()
}

/// The signature bytes, given what decoding the signature tag's value gave.
pub fn signature_from_decoding(decoded: Option<Vec<u8>>) -> (r: Result<Vec<u8>, PipelineError>)
    ensures
        match decoded {
            Some(bytes) => r == Ok::<Vec<u8>, PipelineError>(bytes),
            None => r == Err::<Vec<u8>, PipelineError>(PipelineError::MalformedDkimHeader),
        },
{
    match decoded {
        Some(bytes) => Ok(bytes),
        None => Err(PipelineError::MalformedDkimHeader),
    }
}

/// The signature bytes that the fields hold in base64.
pub fn decode_signature(fields: &DkimSignatureFields) -> (r: Result<Vec<u8>, PipelineError>)
    ensures
        match r {
            Ok(signature) => base64_standard_decoding(fields.signature@) == Some(signature@),
            Err(e) => e == PipelineError::MalformedDkimHeader && base64_standard_decoding(
                fields.signature@,
            ) is None,
        },
{
    signature_from_decoding(base64_decode(fields.signature.as_str()))
}

/// The bytes of the signature in a DKIM-Signature value: its `b` tag, without the spaces
/// and line breaks of folding, decoded from base64.
pub fn extract_dkim_signature(dkim_header: &str) -> (r: Result<Vec<u8>, PipelineError>)
    ensures
        match r {
            Ok(signature) => {
                &&& tag_value(dkim_header@, seq!['b']) is Some
                &&& base64_standard_decoding(
                    without_spaces(tag_value(dkim_header@, seq!['b'])->0),
                ) == Some(signature@)
            },
            Err(e) => {
                &&& e == PipelineError::MalformedDkimHeader
                &&& tag_value(dkim_header@, seq!['b']) is None || base64_standard_decoding(
                    without_spaces(tag_value(dkim_header@, seq!['b'])->0),
                ) is None
            },
        },
{
    let text = chars_of(dkim_header);
    match find_tag(&text, &tag_name('b')) {
        None => Err(PipelineError::MalformedDkimHeader),
        Some(value) => {
            let cleaned = string_of(&remove_spaces(&value));
            signature_from_decoding(base64_decode(cleaned.as_str()))
        },
    }
}

} // verus!
