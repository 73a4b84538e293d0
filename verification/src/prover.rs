//! The record that the proving system takes, and its text.

use crate::body::{canonical_body, fix_body_newlines};
use crate::dkim::{base64_standard_decoding, decode_signature, dkim_fields, parse_dkim_header};
use crate::error::{HeaderName, PipelineError};
use crate::headers::{
    build_relaxed_headers, field_value, find_field, relaxed_headers_of, signed_header_text,
    to_signed_headers, HeaderField,
};
use crate::hex::{limb_list, quote_hex, quoted_hex};
use crate::key::PublicKeyMaterial;
use crate::limbs::{
    be_value, encode_limbs, encode_reduction_parameter, limbs_of, reduction_limbs, LimbVector,
};
use crate::locate::find_body_hash_index;
use crate::recipient::{get_padded_recipient_local, padded_recipient_local_of};
use crate::text::{
    byte_list, decimal, first_occurrence, push_byte_list, push_decimal, push_text, string_of,
};
use vstd::arithmetic::power2::pow2;
use vstd::prelude::*;
use vstd::string::*;
use vstd::utf8::encode_utf8;

verus! {

/// What the circuit was compiled with: the width of its big integers in bits, and the
/// number of bytes that it keeps for the local part of the recipient's address.
#[derive(Clone, Copy, Debug)]
pub struct PipelineConfig {
    pub bit_width: usize,
    pub max_local_length: usize,
}

impl Default for PipelineConfig {
    /// Integers of 2048 bits and local parts of 64 bytes.
    fn default() -> (config: PipelineConfig)
        ensures
            config.bit_width == 2048,
            config.max_local_length == 64,
    {
        PipelineConfig { bit_width: 2048, max_local_length: 64 }
    }
}

/// Everything that the proving system is given.
#[derive(Clone, Debug)]
pub struct ProverInput {
    pub header_bytes: Vec<u8>,
    pub body_bytes: Vec<u8>,
    pub body_hash_index: u32,
    pub padded_recipient_local: Vec<u8>,
    pub recipient_local_length: u32,
    pub pubkey_modulus_limbs: LimbVector,
    pub redc_params_limbs: LimbVector,
    pub signature_limbs: LimbVector,
    pub header_length: usize,
    pub body_length: usize,
}

/// The record as plain values.
pub struct ProverInputView {
    pub header_bytes: Seq<u8>,
    pub body_bytes: Seq<u8>,
    pub body_hash_index: u32,
    pub padded_recipient_local: Seq<u8>,
    pub recipient_local_length: u32,
    pub pubkey_modulus_limbs: Seq<nat>,
    pub redc_params_limbs: Seq<nat>,
    pub signature_limbs: Seq<nat>,
    pub header_length: nat,
    pub body_length: nat,
}

impl View for ProverInput {
    type V = ProverInputView;

    open spec fn view(&self) -> ProverInputView {
        ProverInputView {
            header_bytes: self.header_bytes@,
            body_bytes: self.body_bytes@,
            body_hash_index: self.body_hash_index,
            padded_recipient_local: self.padded_recipient_local@,
            recipient_local_length: self.recipient_local_length,
            pubkey_modulus_limbs: self.pubkey_modulus_limbs@,
            redc_params_limbs: self.redc_params_limbs@,
            signature_limbs: self.signature_limbs@,
            header_length: self.header_length as nat,
            body_length: self.body_length as nat,
        }
    }
}

/// The limbs of modulus, reduction parameter and signature, in this order, for a width
/// of `bits` bits. The modulus is looked at first, then its parameter, then the
/// signature.
pub open spec fn prover_limbs(modulus: nat, signature: nat, bits: nat) -> Result<
    (Seq<nat>, Seq<nat>, Seq<nat>),
    PipelineError,
> {
    if modulus >= pow2(bits) {
        Err(PipelineError::ValueExceedsBitWidth)
    } else {
        match reduction_limbs(modulus, bits) {
            Err(e) => Err(e),
            Ok(parameter) => if signature >= pow2(bits) {
                Err(PipelineError::ValueExceedsBitWidth)
            } else {
                Ok((limbs_of(modulus, bits), parameter, limbs_of(signature, bits)))
            },
        }
    }
}

/// Encodes modulus, reduction parameter and signature as limbs.
pub fn encode_prover_limbs(modulus: &Vec<u8>, signature: &Vec<u8>, bit_width: usize) -> (r: Result<
    (LimbVector, LimbVector, LimbVector),
    PipelineError,
>)
    ensures
        match r {
            Ok(limbs) => {
                &&& prover_limbs(be_value(modulus@), be_value(signature@), bit_width as nat)
                    == Ok::<(Seq<nat>, Seq<nat>, Seq<nat>), PipelineError>(
                    (limbs.0@, limbs.1@, limbs.2@),
                )
                &&& limbs.0.wf() && limbs.1.wf() && limbs.2.wf()
                &&& limbs.0.bit_width == bit_width && limbs.1.bit_width == bit_width
                    && limbs.2.bit_width == bit_width
            },
            Err(e) => prover_limbs(be_value(modulus@), be_value(signature@), bit_width as nat)
                == Err::<(Seq<nat>, Seq<nat>, Seq<nat>), PipelineError>(e),
        },
{
    let modulus_limbs = match encode_limbs(modulus, bit_width) {
        Ok(limbs) => limbs,
        Err(e) => { return Err(e); },
    };
    let parameter_limbs = match encode_reduction_parameter(modulus, bit_width) {
        Ok(limbs) => limbs,
        Err(e) => { return Err(e); },
    };
    let signature_limbs = match encode_limbs(signature, bit_width) {
        Ok(limbs) => limbs,
        Err(e) => { return Err(e); },
    };
    Ok((modulus_limbs, parameter_limbs, signature_limbs))
}

/// The record for a message and the key of its signer, or the failure of the first
/// stage that fails: picking the signed headers, reading the DKIM-Signature, decoding
/// the signature, locating the body hash, the recipient's local part, the limbs.
pub open spec fn assembled(
    fields: Seq<HeaderField>,
    body: Seq<u8>,
    modulus: Seq<u8>,
    config: PipelineConfig,
) -> Result<ProverInputView, PipelineError> {
    let relaxed = relaxed_headers_of(fields);
    let dkim = dkim_fields(field_value(fields, HeaderName::DkimSignature.label())->0);
    let signature = base64_standard_decoding(dkim->0.signature);
    let header_bytes = encode_utf8(signed_header_text(relaxed->Ok_0));
    let found = first_occurrence(header_bytes, encode_utf8(dkim->0.declared_body_hash));
    let recipient = padded_recipient_local_of(fields, config.max_local_length as nat);
    let limbs = prover_limbs(be_value(modulus), be_value(signature->0), config.bit_width as nat);
    if relaxed is Err {
        Err(relaxed->Err_0)
    } else if dkim is None || signature is None {
        Err(PipelineError::MalformedDkimHeader)
    } else if found is None || found->0 > u32::MAX {
        Err(PipelineError::BodyHashNotFound)
    } else if recipient is Err {
        Err(recipient->Err_0)
    } else if limbs is Err {
        Err(limbs->Err_0)
    } else {
        Ok(
            ProverInputView {
                header_bytes,
                body_bytes: canonical_body(body),
                body_hash_index: found->0 as u32,
                padded_recipient_local: recipient->Ok_0.0,
                recipient_local_length: recipient->Ok_0.1,
                pubkey_modulus_limbs: limbs->Ok_0.0,
                redc_params_limbs: limbs->Ok_0.1,
                signature_limbs: limbs->Ok_0.2,
                header_length: header_bytes.len(),
                body_length: canonical_body(body).len(),
            },
        )
    }
}

/// Runs the stages of the pipeline on a parsed message and the key of its signer, and
/// packs what they give into one record.
pub fn assemble_prover_input(
    fields: &Vec<HeaderField>,
    body: &Vec<u8>,
    key: &PublicKeyMaterial,
    config: &PipelineConfig,
) -> (r: Result<ProverInput, PipelineError>)
    ensures
        match r {
            Ok(input) => assembled(fields@, body@, key.modulus@, *config) == Ok::<
                ProverInputView,
                PipelineError,
            >(input@),
            Err(e) => assembled(fields@, body@, key.modulus@, *config) == Err::<
                ProverInputView,
                PipelineError,
            >(e),
        },
{
    let relaxed = match build_relaxed_headers(fields) {
        Ok(relaxed) => relaxed,
        Err(e) => { return Err(e); },
    };
    let header_bytes = to_signed_headers(&relaxed);
    let dkim_value = match find_field(fields, HeaderName::DkimSignature) {
        Some(value) => value,
        None => { return Err(PipelineError::MissingHeader { name: HeaderName::DkimSignature }); },
    };
    let dkim = match parse_dkim_header(string_of(&dkim_value).as_str()) {
        Ok(dkim) => dkim,
        Err(e) => { return Err(e); },
    };
    let signature = match decode_signature(&dkim) {
        Ok(signature) => signature,
        Err(e) => { return Err(e); },
    };
    let body_hash = dkim.declared_body_hash.as_str().as_bytes_vec();
    let body_hash_index = match find_body_hash_index(&header_bytes, &body_hash) {
        Ok(index) => index,
        Err(e) => { return Err(e); },
    };
    let mut body_bytes = body.clone();
    fix_body_newlines(&mut body_bytes);
    let recipient = match get_padded_recipient_local(fields, config.max_local_length) {
        Ok(recipient) => recipient,
        Err(e) => { return Err(e); },
    };
    let limbs = match encode_prover_limbs(&key.modulus, &signature, config.bit_width) {
        Ok(limbs) => limbs,
        Err(e) => { return Err(e); },
    };
    let header_length: usize = header_bytes.len();
    let body_length: usize = body_bytes.len();
    Ok(
        ProverInput {
            header_bytes,
            body_bytes,
            body_hash_index,
            padded_recipient_local: recipient.0,
            recipient_local_length: recipient.1,
            pubkey_modulus_limbs: limbs.0,
            redc_params_limbs: limbs.1,
            signature_limbs: limbs.2,
            header_length,
            body_length,
        },
    )
}

/// The text of the record: one `name = value` entry after the other, an empty line
/// between two of them, the limbs of the signature in a table of their own.
pub open spec fn prover_toml(input: ProverInputView) -> Seq<char> {
    "body_hash_index = "@ + decimal(input.body_hash_index as nat) + "\n\nheader = "@ + byte_list(
        input.header_bytes,
    ) + "\n\nbody = "@ + byte_list(input.body_bytes) + "\n\npubkey_modulus_limbs = "@ + quoted_hex(
        limb_list(input.pubkey_modulus_limbs),
    ) + "\n\nredc_params_limbs = "@ + quoted_hex(limb_list(input.redc_params_limbs))
        + "\n\npadded_recipient_local = "@ + byte_list(input.padded_recipient_local)
        + "\n\nrecipient_local_length = "@ + decimal(input.recipient_local_length as nat)
        + "\n\n[signature]\nlimbs = "@ + quoted_hex(limb_list(input.signature_limbs))
}

/// Writes the record out as text for the proving system.
pub fn render_prover_toml(input: &ProverInput) -> (text: String)
    ensures
        text@ == prover_toml(input@),
{
    let mut out: Vec<char> = Vec::new();
    push_text(&mut out, "body_hash_index = ");
    push_decimal(&mut out, input.body_hash_index as usize);
    push_text(&mut out, "\n\nheader = ");
    push_byte_list(&mut out, &input.header_bytes);
    push_text(&mut out, "\n\nbody = ");
    push_byte_list(&mut out, &input.body_bytes);
    push_text(&mut out, "\n\npubkey_modulus_limbs = ");
    push_text(&mut out, quote_hex(input.pubkey_modulus_limbs.to_hex_list()).as_str());
    push_text(&mut out, "\n\nredc_params_limbs = ");
    push_text(&mut out, quote_hex(input.redc_params_limbs.to_hex_list()).as_str());
    push_text(&mut out, "\n\npadded_recipient_local = ");
    push_byte_list(&mut out, &input.padded_recipient_local);
    push_text(&mut out, "\n\nrecipient_local_length = ");
    push_decimal(&mut out, input.recipient_local_length as usize);
    push_text(&mut out, "\n\n[signature]\nlimbs = ");
    push_text(&mut out, quote_hex(input.signature_limbs.to_hex_list()).as_str());
    assert(out@ =~= prover_toml(input@));
    string_of(&out)
}

/// The two lengths of the record as declarations of the circuit's language.
pub open spec fn length_text(header_length: nat, body_length: nat) -> Seq<char> {
    "global EMAIL_HEADER_LENGTH: u32 = "@ + decimal(header_length)
        + ";\nglobal EMAIL_BODY_LENGTH: u32 = "@ + decimal(body_length) + ";\n"@
}

/// The number of header bytes and the number of body bytes, as declarations of the
/// circuit's language, one on a line.
pub fn length_declarations(input: &ProverInput) -> (text: String)
    ensures
        text@ == length_text(input@.header_length, input@.body_length),
{
    let mut out: Vec<char> = Vec::new();
    push_text(&mut out, "global EMAIL_HEADER_LENGTH: u32 = ");
    push_decimal(&mut out, input.header_length);
    push_text(&mut out, ";\nglobal EMAIL_BODY_LENGTH: u32 = ");
    push_decimal(&mut out, input.body_length);
    push_text(&mut out, ";\n");
    assert(out@ =~= length_text(input@.header_length, input@.body_length));
    string_of(&out)
}

/// Encodes key and signature as limbs and writes the record of the given parts out as
/// text for the proving system.
///
/// It fails as the encoding of the limbs does.
pub fn build_prover_toml(
    header: &Vec<u8>,
    body: &Vec<u8>,
    body_hash_index: u32,
    signature: &Vec<u8>,
    public_key: &PublicKeyMaterial,
    padded_recipient_local: &Vec<u8>,
    recipient_local_len: u32,
    bit_width: usize,
) -> (r: Result<String, PipelineError>)
    ensures
        match r {
            Ok(text) => {
                let limbs = prover_limbs(
                    be_value(public_key.modulus@),
                    be_value(signature@),
                    bit_width as nat,
                );
                &&& limbs is Ok
                &&& text@ == prover_toml(
                    ProverInputView {
                        header_bytes: header@,
                        body_bytes: body@,
                        body_hash_index,
                        padded_recipient_local: padded_recipient_local@,
                        recipient_local_length: recipient_local_len,
                        pubkey_modulus_limbs: limbs->Ok_0.0,
                        redc_params_limbs: limbs->Ok_0.1,
                        signature_limbs: limbs->Ok_0.2,
                        header_length: header@.len(),
                        body_length: body@.len(),
                    },
                )
            },
            Err(e) => prover_limbs(
                be_value(public_key.modulus@),
                be_value(signature@),
                bit_width as nat,
            ) == Err::<(Seq<nat>, Seq<nat>, Seq<nat>), PipelineError>(e),
        },
{
    let limbs = match encode_prover_limbs(&public_key.modulus, signature, bit_width) {
        Ok(limbs) => limbs,
        Err(e) => { return Err(e); },
    };
    let input = ProverInput {
        header_bytes: header.clone(),
        body_bytes: body.clone(),
        body_hash_index,
        padded_recipient_local: padded_recipient_local.clone(),
        recipient_local_length: recipient_local_len,
        pubkey_modulus_limbs: limbs.0,
        redc_params_limbs: limbs.1,
        signature_limbs: limbs.2,
        header_length: header.len(),
        body_length: body.len(),
    };
    Ok(render_prover_toml(&input))
}

} // verus!
