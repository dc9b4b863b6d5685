//! The cryptographic primitives that QUIC Initial protection uses: HKDF with
//! SHA-256, single-block AES-128 and AES-128-GCM.
use vstd::prelude::*;
use aes::cipher::{BlockEncrypt, KeyInit};
use aes_gcm::aead::AeadInPlace;

verus! {

/// The HKDF-Extract pseudorandom key (RFC 5869) for `salt` and `ikm`, over SHA-256.
pub uninterp spec fn hkdf_sha256_extract(salt: Seq<u8>, ikm: Seq<u8>) -> Seq<u8>;

/// The first `len` bytes of HKDF-Expand (RFC 5869) of `prk` with `info`, over SHA-256.
pub uninterp spec fn hkdf_sha256_expand(prk: Seq<u8>, info: Seq<u8>, len: nat) -> Seq<u8>;

/// The AES-128 encryption of one 16-byte block under `key`.
pub uninterp spec fn aes128_encrypt_block(key: Seq<u8>, block: Seq<u8>) -> Seq<u8>;

/// AES-128-GCM opening of `ciphertext` with `tag` under `key`, `nonce` and the
/// associated data `aad`: the plaintext, or `None` where the tag does not
/// authenticate them.
pub uninterp spec fn aes128_gcm_open(
    key: Seq<u8>,
    nonce: Seq<u8>,
    aad: Seq<u8>,
    ciphertext: Seq<u8>,
    tag: Seq<u8>,
) -> Option<Seq<u8>>;

/// Relies on hkdf's `Hkdf::<Sha256>::extract`, which returns the 32-byte
/// pseudorandom key of HKDF-Extract.
#[verifier::external_body]
pub(crate) fn hkdf_extract(salt: &[u8], ikm: &[u8]) -> (r: Vec<u8>)
    ensures
        r@ == hkdf_sha256_extract(salt@, ikm@),
        r@.len() == 32,
{
    let (prk, _) = hkdf::Hkdf::<sha2::Sha256>::extract(Some(salt), ikm);
    prk.to_vec()
}

/// Relies on hkdf's `Hkdf::<Sha256>::from_prk` and `Hkdf::expand`: the first
/// refuses a key shorter than 32 bytes, the second an output longer than
/// 255 blocks of 32 bytes; otherwise the output is HKDF-Expand's.
#[verifier::external_body]
pub(crate) fn hkdf_expand(prk: &[u8], info: &[u8], len: usize) -> (r: Option<Vec<u8>>)
    ensures
        r is Some <==> (prk@.len() >= 32 && len <= 8160),
        r is Some ==> r->0@ == hkdf_sha256_expand(prk@, info@, len as nat),
        r is Some ==> r->0@.len() == len,
{
    let hk = hkdf::Hkdf::<sha2::Sha256>::from_prk(prk).ok()?;
    let mut okm = vec![0u8; len];
    hk.expand(info, &mut okm).ok()?;
    Some(okm)
}

/// Relies on aes's `Aes128::new_from_slice`, which accepts a 16-byte key, and
/// `BlockEncrypt::encrypt_block`, which encrypts one block in place.
#[verifier::external_body]
pub(crate) fn aes128_encrypt(key: &[u8], block: &[u8]) -> (r: Option<Vec<u8>>)
    requires
        block@.len() == 16,
    ensures
        r is Some <==> key@.len() == 16,
        r is Some ==> r->0@ == aes128_encrypt_block(key@, block@),
        r is Some ==> r->0@.len() == 16,
{
    let cipher = aes::Aes128::new_from_slice(key).ok()?;
    let mut b = aes::Block::clone_from_slice(block);
    cipher.encrypt_block(&mut b);
    Some(b.to_vec())
}

/// Relies on aes-gcm's `Aes128Gcm::new_from_slice`, which accepts a 16-byte
/// key, and `decrypt_in_place_detached`, which checks the tag before it
/// touches the buffer and on success replaces the ciphertext by the
/// plaintext of the same length.
#[verifier::external_body]
pub(crate) fn aes128_gcm_decrypt(
    key: &[u8],
    nonce: &[u8],
    aad: &[u8],
    msg: &mut Vec<u8>,
    tag: &[u8],
) -> (r: bool)
    requires
        key@.len() == 16,
        nonce@.len() == 12,
        tag@.len() == 16,
    ensures
        r <==> aes128_gcm_open(key@, nonce@, aad@, old(msg)@, tag@) is Some,
        r ==> final(msg)@ == aes128_gcm_open(key@, nonce@, aad@, old(msg)@, tag@)->0,
        !r ==> final(msg)@ == old(msg)@,
        final(msg)@.len() == old(msg)@.len(),
{
    let Ok(cipher) = aes_gcm::Aes128Gcm::new_from_slice(key) else {
        return false;
    };
    let nonce = aes_gcm::Nonce::from_slice(nonce);
    let tag = aes_gcm::Tag::from_slice(tag);
    cipher.decrypt_in_place_detached(nonce, aad, msg.as_mut_slice(), tag).is_ok()
}

} // verus!
