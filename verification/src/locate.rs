//! Where the declared body hash stands in the canonical header bytes.

use crate::error::PipelineError;
use crate::text::{find_bytes, first_occurrence, lemma_first_occurrence_from, occurs_at};
use vstd::prelude::*;

verus! {

/// The offset of the first occurrence of `body_hash` in `signed_headers`.
///
/// An absent hash means that the headers were not canonicalized as the signer did it.
/// An offset that 32 bits cannot hold is reported as absent too.
pub fn find_body_hash_index(signed_headers: &Vec<u8>, body_hash: &Vec<u8>) -> (r: Result<
    u32,
    PipelineError,
>)
    ensures
        match r {
            Ok(i) => {
                &&& first_occurrence(signed_headers@, body_hash@) == Some(i as int)
                &&& occurs_at(signed_headers@, body_hash@, i as int)
                &&& forall|j: int| 0 <= j < i ==> !occurs_at(signed_headers@, body_hash@, j)
            },
            Err(e) => {
                &&& e == PipelineError::BodyHashNotFound
                &&& forall|j: int| 0 <= j <= u32::MAX ==> !occurs_at(signed_headers@, body_hash@, j)
                &&& first_occurrence(signed_headers@, body_hash@) matches Some(i) ==> i > u32::MAX
            },
        },
{
    proof {
        lemma_first_occurrence_from(signed_headers@, body_hash@, 0);
    }
    match find_bytes(signed_headers, body_hash) {
        Some(i) => if i <= u32::MAX as usize {
            Ok(i as u32)
        } else {
            Err(PipelineError::BodyHashNotFound)
        },
        None => Err(PipelineError::BodyHashNotFound),
    }
}

} // verus!
