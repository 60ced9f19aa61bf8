//! Session keys and chunk sealing.
//!
//! A transfer that asks for encryption derives one 256-bit key per session:
//! a memory-hard password hash, salted with the first 16 bytes of the blake3
//! digest of the session id, so the salt is reproducible across resumed runs
//! without separate persistence. (Two transfers sharing a session id share a
//! salt regardless of password; acceptable only because session ids are
//! assumed globally unique per transfer attempt.) Each chunk is sealed with
//! a 12-byte nonce holding the big-endian chunk index followed by four zero
//! bytes; indices strictly increase within a file, which keeps nonces unique
//! per session and file.

use chacha20poly1305::aead::Aead;
use chacha20poly1305::KeyInit;
use vstd::prelude::*;

use crate::encoding::{spec_be_bytes, u64_be_bytes, lemma_be_bytes_injective};
use crate::errors::TransferError;
use crate::hashing::blake3_digest;

verus! {

/// The longest plaintext one seal accepts: the cipher processes the
/// message in 64-byte blocks and refuses a block count at or above
/// `u32::MAX`.
pub const MAX_SEAL_BYTES: u64 = 0x3fffffffc0;

/// The 32-byte key that the default Argon2 configuration derives from a
/// password and a salt.
pub uninterp spec fn argon2_key(password: Seq<u8>, salt: Seq<u8>) -> Seq<u8>;

/// Relies on `Argon2::default().hash_password_into`: with the default
/// algorithm and parameters the filled buffer is a function of password
/// and salt alone, and the call succeeds on every admitted input — its
/// only failure paths are the salt, password and output length checks,
/// which the bounds here and the fixed 32-byte buffer rule out.
#[verifier::external_body]
fn argon2_fill_key(password: &Vec<u8>, salt: &Vec<u8>) -> (r: Result<Vec<u8>, TransferError>)
    requires
        8 <= salt@.len() <= 0xffffffff,
        password@.len() <= 0xffffffff,
    ensures
        r is Ok,
        r matches Ok(k) ==> k@ == argon2_key(password@, salt@) && k@.len() == 32,
{
    let mut out = [0u8; 32];
    match argon2::Argon2::default().hash_password_into(password, salt, &mut out) {
        Ok(()) => Ok(out.to_vec()),
        Err(_) => Err(TransferError::CryptoFailure),
    }
}

/// The ciphertext (sealed bytes followed by a 16-byte tag) that
/// ChaCha20-Poly1305 produces for a key, nonce and plaintext.
pub uninterp spec fn chacha_sealed(key: Seq<u8>, nonce: Seq<u8>, plaintext: Seq<u8>) -> Seq<u8>;

/// Relies on `ChaCha20Poly1305::encrypt` (the `Aead` trait): the
/// ciphertext is the plaintext followed by a 16-byte tag and a function of
/// key, nonce and plaintext alone, and the call succeeds on every admitted
/// input — its only failure path refuses plaintexts of `MAX_SEAL_BYTES` or
/// more. `Key::from_slice` and `Nonce::from_slice` panic on wrong lengths,
/// so those are excluded here.
#[verifier::external_body]
pub(crate) fn chacha_seal(key: &Vec<u8>, nonce: &Vec<u8>, plaintext: &Vec<u8>) -> (r: Result<
    Vec<u8>,
    TransferError,
>)
    requires
        key@.len() == 32,
        nonce@.len() == 12,
        plaintext@.len() < MAX_SEAL_BYTES,
    ensures
        r is Ok,
        r matches Ok(c) ==> c@ == chacha_sealed(key@, nonce@, plaintext@) && c@.len()
            == plaintext@.len() + 16,
{
    let cipher = chacha20poly1305::ChaCha20Poly1305::new(chacha20poly1305::Key::from_slice(
        key.as_slice(),
    ));
    match cipher.encrypt(chacha20poly1305::Nonce::from_slice(nonce.as_slice()), plaintext.as_slice()) {
        Ok(ct) => Ok(ct),
        Err(_) => Err(TransferError::CryptoFailure),
    }
}

/// The salt a session derives its key with: the first 16 bytes of the
/// blake3 digest of the session id's UTF-8 bytes.
pub open spec fn spec_session_salt(session_id: Seq<char>) -> Seq<u8> {
    blake3_digest(vstd::utf8::encode_utf8(session_id)).take(16)
}

/// The per-session symmetric key: Argon2 over the password's UTF-8 bytes,
/// salted with `spec_session_salt`.
pub open spec fn spec_derived_key(password: Seq<char>, session_id: Seq<char>) -> Seq<u8> {
    argon2_key(vstd::utf8::encode_utf8(password), spec_session_salt(session_id))
}

/// Whether a password is short enough to hash: the password hash takes at
/// most `u32::MAX` bytes of UTF-8.
pub open spec fn spec_password_within_limit(password: Seq<char>) -> bool {
    vstd::utf8::encode_utf8(password).len() <= 0xffffffff
}

/// Derives the session key from a password and a session id. Succeeds
/// exactly where the password's UTF-8 form is within the hash's length
/// bound; the one failure is a `CryptoFailure`.
pub fn derive_key(password: &str, session_id: &str) -> (r: Result<Vec<u8>, TransferError>)
    ensures
        r is Ok <==> spec_password_within_limit(password@),
        r matches Ok(k) ==> k@ == spec_derived_key(password@, session_id@) && k@.len() == 32,
        r is Err ==> r->Err_0 == TransferError::CryptoFailure,
{
    let sid_bytes = session_id.as_bytes_vec();
    let digest = crate::hashing::blake3_bytes(&sid_bytes);
    let mut salt: Vec<u8> = Vec::new();
    let mut i: usize = 0;
    while i < 16
        invariant
            i <= 16,
            digest@.len() == 32,
            salt@ == digest@.take(i as int),
        decreases 16 - i,
    {
        salt.push(digest[i]);
        proof {
            assert(salt@ =~= digest@.take(i + 1 as int));
        }
        i = i + 1;
    }
    let password_bytes = password.as_bytes_vec();
    if password_bytes.len() > 0xffffffff {
        return Err(TransferError::CryptoFailure);
    }
    argon2_fill_key(&password_bytes, &salt)
}

/// The 12-byte nonce sealing chunk `index`: the big-endian index, then four
/// zero bytes.
pub open spec fn spec_chunk_nonce(index: u64) -> Seq<u8> {
    spec_be_bytes(index) + seq![0u8, 0u8, 0u8, 0u8]
}

/// Builds the nonce for a chunk index.
pub fn chunk_nonce(index: u64) -> (r: Vec<u8>)
    ensures
        r@ == spec_chunk_nonce(index),
        r@.len() == 12,
{
    let mut r = u64_be_bytes(index);
    r.push(0);
    r.push(0);
    r.push(0);
    r.push(0);
    proof {
        assert(r@ =~= spec_chunk_nonce(index));
    }
    r
}

/// Within one session and file no two chunks ever seal under the same
/// nonce: the nonce embeds the big-endian chunk index, and distinct indices
/// give distinct byte layouts.
pub proof fn lemma_nonce_unique(i: u64, j: u64)
    requires
        i != j,
    ensures
        spec_chunk_nonce(i) != spec_chunk_nonce(j),
{
    if spec_chunk_nonce(i) == spec_chunk_nonce(j) {
        assert(spec_be_bytes(i) =~= spec_chunk_nonce(i).take(8));
        assert(spec_be_bytes(j) =~= spec_chunk_nonce(j).take(8));
        lemma_be_bytes_injective(i, j);
    }
}

} // verus!
