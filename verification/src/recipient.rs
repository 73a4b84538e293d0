//! The local part of the recipient's address, padded for the circuit.

use crate::error::{HeaderName, PipelineError};
use crate::headers::{field_value, find_field, HeaderField};
use crate::tags::{find_char_between, index_of};
use crate::text::{copy_range, string_of};
use vstd::prelude::*;
use vstd::string::*;
use vstd::utf8::encode_utf8;

verus! {

/// What stands before the first `@` of an address, where there is an `@` and something
/// before it.
pub open spec fn local_part(address: Seq<char>) -> Option<Seq<char>> {
    let at = index_of(address, '@');
    if 0 < at && at < address.len() {
        Some(address.take(at as int))
    } else {
        None
    }
}

/// The first `width` bytes of `bytes`, with zero bytes after them where they are fewer.
pub open spec fn padded(bytes: Seq<u8>, width: nat) -> Seq<u8> {
    Seq::new(
        width,
        |i: int|
            if i < bytes.len() {
                bytes[i]
            } else {
                0u8
            },
    )
}

/// The local part of an address in UTF-8, padded to `max_len` bytes, with its true length;
/// nothing where the address has no local part or the length does not fit 32 bits.
pub open spec fn padded_local(address: Seq<char>, max_len: nat) -> Option<(Seq<u8>, u32)> {
    match local_part(address) {
        Some(local) => if encode_utf8(local).len() <= u32::MAX {
            Some((padded(encode_utf8(local), max_len), encode_utf8(local).len() as u32))
        } else {
            None
        },
        None => None,
    }
}

/// `bytes` cut or filled with zero bytes to the length `width`.
pub fn pad_to(bytes: &Vec<u8>, width: usize) -> (r: Vec<u8>)
    ensures
        r@ == padded(bytes@, width as nat),
{
    let mut r: Vec<u8> = Vec::new();
    let mut i: usize = 0;
    while i < width
        invariant
            i <= width,
            r@ == padded(bytes@, i as nat),
        decreases width - i,
    {
        let b: u8 = if i < bytes.len() {
            bytes[i]
        } else {
            0u8
        };
        r.push(b);
        assert(r@ =~= padded(bytes@, (i + 1) as nat));
        i += 1;
    }
    r
}

/// The local part of `address` in UTF-8, padded with zero bytes to `max_len` bytes, and
/// its length before padding.
///
/// It fails where the address has no `@` or nothing before it, or where the length does
/// not fit 32 bits.
pub fn padded_local_part(address: &str, max_len: usize) -> (r: Result<
    (Vec<u8>, u32),
    PipelineError,
>)
    ensures
        match r {
            Ok(pair) => padded_local(address@, max_len as nat) == Some((pair.0@, pair.1)),
            Err(e) => e == PipelineError::AddressFormatError && padded_local(
                address@,
                max_len as nat,
            ) is None,
        },
{
    let chars = crate::text::chars_of(address);
    let n: usize = chars.len();
    let at: usize = find_char_between(&chars, 0, n, '@');
    assert(chars@.subrange(0, n as int) == chars@);
    if at == 0 || at >= n {
        return Err(PipelineError::AddressFormatError);
    }
    let local = copy_range(&chars, 0, at);
    assert(local@ == chars@.take(at as int));
    let text = string_of(&local);
    let bytes = text.as_str().as_bytes_vec();
    if bytes.len() > u32::MAX as usize {
        return Err(PipelineError::AddressFormatError);
    }
    let length: u32 = bytes.len() as u32;
    Ok((pad_to(&bytes, max_len), length))
}

/// What `get_padded_recipient_local` gives for a message.
pub open spec fn padded_recipient_local_of(fields: Seq<HeaderField>, max_len: nat) -> Result<
    (Seq<u8>, u32),
    PipelineError,
> {
    match field_value(fields, HeaderName::To.label()) {
        None => Err(PipelineError::MissingHeader { name: HeaderName::To }),
        Some(address) => match padded_local(address, max_len) {
            Some(pair) => Ok(pair),
            None => Err(PipelineError::AddressFormatError),
        },
    }
}

/// The local part of the recipient of a message, padded with zero bytes to `max_len`
/// bytes, and its length before padding.
pub fn get_padded_recipient_local(fields: &Vec<HeaderField>, max_len: usize) -> (r: Result<
    (Vec<u8>, u32),
    PipelineError,
>)
    ensures
        match r {
            Ok(pair) => padded_recipient_local_of(fields@, max_len as nat) == Ok::<
                (Seq<u8>, u32),
                PipelineError,
            >((pair.0@, pair.1)),
            Err(e) => padded_recipient_local_of(fields@, max_len as nat) == Err::<
                (Seq<u8>, u32),
                PipelineError,
            >(e),
        },
{
    match find_field(fields, HeaderName::To) {
        None => Err(PipelineError::MissingHeader { name: HeaderName::To }),
        Some(address) => {
            let text = string_of(&address);
            padded_local_part(text.as_str(), max_len)
        },
    }
}

} // verus!
