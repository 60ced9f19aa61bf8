//! Content digests.
//!
//! Every chunk and every completed file is identified by the blake3 digest
//! of its plaintext bytes, rendered as lowercase hexadecimal. The digest
//! itself is computed by the blake3 crate; its value is named by
//! `blake3_digest` and everything downstream is specified against that name.

use vstd::prelude::*;

use crate::encoding::{hex_encode, spec_hex};

verus! {

/// The 32-byte blake3 digest of a byte string.
pub uninterp spec fn blake3_digest(data: Seq<u8>) -> Seq<u8>;

/// Relies on `blake3::hash`: the digest is 32 bytes and a function of the
/// input bytes alone (hashing all at once and hashing incrementally give
/// the same digest).
#[verifier::external_body]
pub(crate) fn blake3_bytes(data: &Vec<u8>) -> (r: Vec<u8>)
    ensures
        r@ == blake3_digest(data@),
        r@.len() == 32,
{
    blake3::hash(data.as_slice()).as_bytes().to_vec()
}

/// The lowercase hexadecimal form of the blake3 digest of a byte string:
/// the identity recorded for chunks and finished files.
pub open spec fn spec_content_hash(data: Seq<u8>) -> Seq<char> {
    spec_hex(blake3_digest(data))
}

/// Computes the content hash of a byte string: its blake3 digest, rendered
/// as 64 lowercase hexadecimal digits.
pub fn content_hash(data: &Vec<u8>) -> (r: String)
    ensures
        r@ == spec_content_hash(data@),
        r@.len() == 64,
{
    let digest = blake3_bytes(data);
    hex_encode(&digest)
}

/// Computes the whole-file checksum a file listing reports for a regular
/// file: the content hash of all its bytes.
pub fn calculate_checksum(data: &Vec<u8>) -> (r: String)
    ensures
        r@ == spec_content_hash(data@),
{
    content_hash(data)
}

} // verus!
