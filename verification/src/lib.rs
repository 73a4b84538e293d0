//! Inputs for proving, inside a zero-knowledge circuit, that a DKIM signature
//! exists over an email: canonical bytes, offsets and big-integer limbs.
//!
//! The stages run one after the other. The signed header fields are picked out of the
//! parsed message, and the bytes that the signer hashed are rebuilt from them. The
//! DKIM-Signature field says where the signer's key is published; its record becomes
//! an RSA public key. Modulus, reduction parameter and signature are cut into limbs,
//! the declared body hash is located in the header bytes, the body is canonicalized,
//! and everything is packed into one record for the prover.

pub mod body;
pub mod dkim;
pub mod error;
pub mod headers;
pub mod hex;
pub mod key;
pub mod limbs;
pub mod locate;
pub mod prover;
pub mod recipient;
pub mod tags;
pub mod text;

pub use body::fix_body_newlines;
pub use dkim::{extract_dkim_signature, parse_dkim_header, DkimSignatureFields};
pub use error::{HeaderName, PipelineError};
pub use headers::{
    build_relaxed_headers, make_header_string, to_signed_headers, HeaderField, RelaxedHeaders,
};
pub use hex::quote_hex;
pub use key::{
    dkim_query_name, extract_and_format_dkim_public_key, resolve_public_key, PublicKeyMaterial,
};
pub use limbs::{encode_limbs, encode_reduction_parameter, LimbVector};
pub use locate::find_body_hash_index;
pub use prover::{
    assemble_prover_input, build_prover_toml, render_prover_toml, PipelineConfig, ProverInput,
};
pub use recipient::get_padded_recipient_local;
pub use tags::clean_dkim_signature;
