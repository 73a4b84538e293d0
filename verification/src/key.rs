//! The signer's public key: where it is published, and how the record becomes a key.

use crate::error::PipelineError;
use crate::tags::{find_tag, tag_name, tag_value};
use crate::text::{chars_of, push_all, push_text, string_of};
use rsa::pkcs8::DecodePublicKey;
use rsa::traits::PublicKeyParts;
use vstd::prelude::*;
use vstd::utf8::{decode_utf8, valid_utf8};

verus! {

/// The number of characters on a line of the base64 text of a PEM envelope.
pub const PEM_LINE_WIDTH: usize = 64;

/// An RSA public key: modulus and exponent as big-endian bytes.
#[derive(Clone, Debug)]
pub struct PublicKeyMaterial {
    pub modulus: Vec<u8>,
    pub exponent: Vec<u8>,
}

/// The DNS name under which the key of `selector` at `domain` is published.
pub open spec fn query_name(selector: Seq<char>, domain: Seq<char>) -> Seq<char> {
    selector + "._domainkey."@ + domain
}

/// The DNS name under which the key of `selector` at `domain` is published.
pub fn dkim_query_name(selector: &str, domain: &str) -> (name: String)
    ensures
        name@ == query_name(selector@, domain@),
{
    let mut out: Vec<char> = Vec::new();
    push_text(&mut out, selector);
    push_text(&mut out, "._domainkey.");
    push_text(&mut out, domain);
    assert(out@ =~= query_name(selector@, domain@));
    string_of(&out)
}

/// The text of a TXT answer: the fragments that are UTF-8, decoded and put together in
/// order. A fragment that is not UTF-8 adds nothing.
pub open spec fn record_text(fragments: Seq<Vec<u8>>) -> Seq<char>
    decreases fragments.len(),
{
    if fragments.len() == 0 {
        Seq::<char>::empty()
    } else if valid_utf8(fragments.last()@) {
        record_text(fragments.drop_last()) + decode_utf8(fragments.last()@)
    } else {
        record_text(fragments.drop_last())
    }
}

/// `str::from_utf8` of std: the text that the bytes encode, or nothing where they are
/// not UTF-8.
#[verifier::external_body]
fn utf8_text(bytes: &Vec<u8>) -> (r: Option<String>)
    ensures
        match r {
            Some(text) => valid_utf8(bytes@) && text@ == decode_utf8(bytes@),
            None => !valid_utf8(bytes@),
        },
{
    std::str::from_utf8(bytes).ok().map(String::from)
}

/// Puts the fragments of a TXT answer together into one record.
pub fn join_txt_fragments(fragments: &Vec<Vec<u8>>) -> (record: String)
    ensures
        record@ == record_text(fragments@),
{
    let mut out: Vec<char> = Vec::new();
    let mut i: usize = 0;
    while i < fragments.len()
        invariant
            i <= fragments.len(),
            out@ == record_text(fragments@.take(i as int)),
        decreases fragments.len() - i,
    {
        assert(fragments@.take(i + 1).drop_last() == fragments@.take(i as int));
        assert(fragments@.take(i + 1).last() == fragments@[i as int]);
        match utf8_text(&fragments[i]) {
            Some(text) => {
                let chars = chars_of(text.as_str());
                push_all(&mut out, &chars);
            },
            None => {},
        }
        i += 1;
    }
    assert(fragments@.take(fragments.len() as int) == fragments@);
    string_of(&out)
}

/// The text in lines of `width` characters, a line feed between two lines.
pub open spec fn wrap_lines(text: Seq<char>, width: nat) -> Seq<char>
    decreases text.len(),
{
    if text.len() <= width || width == 0 {
        text
    } else {
        text.take(width as int) + seq!['\n'] + wrap_lines(text.skip(width as int), width)
    }
}

/// The PEM envelope of a public key around its base64 text.
pub open spec fn pem_envelope(key_base64: Seq<char>) -> Seq<char> {
    "-----BEGIN PUBLIC KEY-----\n"@ + wrap_lines(key_base64, PEM_LINE_WIDTH as nat)
        + "\n-----END PUBLIC KEY-----"@
}

/// The PEM text of the key that a DKIM record publishes in its `p` tag.
pub open spec fn record_pem(record: Seq<char>) -> Option<Seq<char>> {
    match tag_value(record, seq!['p']) {
        Some(key) => if key.len() > 0 {
            Some(pem_envelope(key))
        } else {
            None
        },
        None => None,
    }
}

/// Appends `text` in lines of `PEM_LINE_WIDTH` characters to `out`.
fn push_wrapped(out: &mut Vec<char>, text: &Vec<char>)
    ensures
        final(out)@ == old(out)@ + wrap_lines(text@, PEM_LINE_WIDTH as nat),
{
    let n: usize = text.len();
    let mut i: usize = 0;
    assert(text@.skip(0) == text@);
    while n - i > PEM_LINE_WIDTH
        invariant
            n == text.len(),
            i <= n,
            old(out)@ + wrap_lines(text@, PEM_LINE_WIDTH as nat) == out@ + wrap_lines(
                text@.skip(i as int),
                PEM_LINE_WIDTH as nat,
            ),
        decreases n - i,
    {
        let ghost rest = text@.skip(i as int);
        let ghost before = out@;
        let mut k: usize = 0;
        while k < PEM_LINE_WIDTH
            invariant
                n == text.len(),
                n - i > PEM_LINE_WIDTH,
                k <= PEM_LINE_WIDTH,
                out@ == before + text@.subrange(i as int, i + k),
            decreases PEM_LINE_WIDTH - k,
        {
            out.push(text[i + k]);
            k += 1;
        }
        out.push('\n');
        proof {
            assert(rest.take(PEM_LINE_WIDTH as int) == text@.subrange(
                i as int,
                i + PEM_LINE_WIDTH,
            ));
            assert(rest.skip(PEM_LINE_WIDTH as int) == text@.skip(i + PEM_LINE_WIDTH));
            assert(out@ + wrap_lines(text@.skip(i + PEM_LINE_WIDTH), PEM_LINE_WIDTH as nat)
                =~= before + (rest.take(PEM_LINE_WIDTH as int) + seq!['\n'] + wrap_lines(
                rest.skip(PEM_LINE_WIDTH as int),
                PEM_LINE_WIDTH as nat,
            )));
        }
        i += PEM_LINE_WIDTH;
    }
    let ghost before = out@;
    let mut k: usize = i;
    while k < n
        invariant
            n == text.len(),
            i <= k <= n,
            out@ == before + text@.subrange(i as int, k as int),
        decreases n - k,
    {
        out.push(text[k]);
        k += 1;
    }
    assert(text@.subrange(i as int, n as int) == text@.skip(i as int));
}

/// Takes the key out of a DKIM record and wraps it as PEM: the `p` tag's base64 text in
/// lines of 64 characters, inside the envelope of a public key.
///
/// It fails where the record has no `p` tag or an empty one.
pub fn extract_and_format_dkim_public_key(dkim_record: &str) -> (r: Result<String, PipelineError>)
    ensures
        match r {
            Ok(pem) => record_pem(dkim_record@) == Some(pem@),
            Err(e) => e == PipelineError::KeyRecordNotFound && record_pem(dkim_record@) is None,
        },
{
    let record = chars_of(dkim_record);
    match find_tag(&record, &tag_name('p')) {
        None => Err(PipelineError::KeyRecordNotFound),
        Some(key) => {
            if key.len() == 0 {
                return Err(PipelineError::KeyRecordNotFound);
            }
            let mut out: Vec<char> = Vec::new();
            push_text(&mut out, "-----BEGIN PUBLIC KEY-----\n");
            push_wrapped(&mut out, &key);
            push_text(&mut out, "\n-----END PUBLIC KEY-----");
            assert(out@ =~= pem_envelope(key@));
            Ok(string_of(&out))
        },
    }
}

/// Modulus and exponent, as big-endian bytes, of the RSA public key that a PEM text
/// holds, where it holds one.
pub uninterp spec fn pem_public_key(pem: Seq<char>) -> Option<(Seq<u8>, Seq<u8>)>;

/// `RsaPublicKey::from_public_key_pem` of the `rsa` crate, then `n()` and `e()` with
/// `to_bytes_be`: the two numbers of the key in the text, or nothing where the crate
/// does not take the text for an RSA public key. The result depends on the text alone.
#[verifier::external_body]
fn parse_public_key_pem(pem: &str) -> (r: Option<(Vec<u8>, Vec<u8>)>)
    ensures
        match r {
            Some(parts) => pem_public_key(pem@) == Some((parts.0@, parts.1@)),
            None => pem_public_key(pem@) is None,
        },
{
    match rsa::RsaPublicKey::from_public_key_pem(pem) {
        Ok(key) => Some((key.n().to_bytes_be(), key.e().to_bytes_be())),
        Err(_) => None,
    }
}

/// The key, given what parsing its PEM text gave.
pub fn key_from_parts(parts: Option<(Vec<u8>, Vec<u8>)>) -> (r: Result<
    PublicKeyMaterial,
    PipelineError,
>)
    ensures
        match parts {
            Some(p) => r is Ok && r->Ok_0.modulus == p.0 && r->Ok_0.exponent == p.1,
            None => r is Err && r->Err_0 == PipelineError::KeyDecodeError,
        },
{
    match parts {
        Some(p) => Ok(PublicKeyMaterial { modulus: p.0, exponent: p.1 }),
        None => Err(PipelineError::KeyDecodeError),
    }
}

/// Reads the RSA public key out of its PEM text.
pub fn decode_public_key(pem: &str) -> (r: Result<PublicKeyMaterial, PipelineError>)
    ensures
        match r {
            Ok(key) => pem_public_key(pem@) == Some((key.modulus@, key.exponent@)),
            Err(e) => e == PipelineError::KeyDecodeError && pem_public_key(pem@) is None,
        },
{
    key_from_parts(parse_public_key_pem(pem))
}

/// The key that a TXT answer publishes.
///
/// It fails with `KeyRecordNotFound` where the answer holds no `p` tag with a value, as
/// an empty answer does, and with `KeyDecodeError` where the value is no RSA public key.
pub fn resolve_public_key(fragments: &Vec<Vec<u8>>) -> (r: Result<PublicKeyMaterial, PipelineError>)
    ensures
        match r {
            Ok(key) => {
                &&& record_pem(record_text(fragments@)) is Some
                &&& pem_public_key(record_pem(record_text(fragments@))->0) == Some(
                    (key.modulus@, key.exponent@),
                )
            },
            Err(e) => if record_pem(record_text(fragments@)) is None {
                e == PipelineError::KeyRecordNotFound
            } else {
                e == PipelineError::KeyDecodeError && pem_public_key(
                    record_pem(record_text(fragments@))->0,
                ) is None
            },
        },
{
    let record = join_txt_fragments(fragments);
    match extract_and_format_dkim_public_key(record.as_str()) {
        Ok(pem) => decode_public_key(pem.as_str()),
        Err(e) => Err(e),
    }
}

} // verus!
