//! The cryptographic primitives that the formats rely on, taken from the
//! RustCrypto crates (`aes`, `aes-gcm`, `md5`, `sha2`) and from the big-integer
//! arithmetic that `rsa` re-exports. Their contracts are trusted.

use aes::cipher::BlockDecrypt;
use aes_gcm::aead::{Aead, KeyInit};
use sha2::Digest;
use vstd::arithmetic::power::pow;
use vstd::prelude::*;

use crate::crypto::bignum::{be_value, is_minimal_be};

verus! {

/// The 16 bytes of block `i` of `s`.
pub open spec fn block_at(s: Seq<u8>, i: int) -> Seq<u8> {
    s.subrange(16 * i, 16 * i + 16)
}

/// AES-128 decryption of one 16-byte block under a 16-byte key.
pub uninterp spec fn aes128_decrypt_block(key: Seq<u8>, block: Seq<u8>) -> Seq<u8>;

/// AES-256 decryption of one 16-byte block under a 32-byte key.
pub uninterp spec fn aes256_decrypt_block(key: Seq<u8>, block: Seq<u8>) -> Seq<u8>;

/// AES-128-GCM decryption with a 16-byte nonce and a 16-byte tag appended to
/// the ciphertext; `None` when the tag does not authenticate.
pub uninterp spec fn aes128_gcm16_open(key: Seq<u8>, nonce: Seq<u8>, sealed: Seq<u8>) -> Option<
    Seq<u8>,
>;

/// The MD5 digest of a message.
pub uninterp spec fn md5_digest(message: Seq<u8>) -> Seq<u8>;

/// The SHA-256 digest of a message.
pub uninterp spec fn sha256_digest(message: Seq<u8>) -> Seq<u8>;

/// Runs `aes::Aes128` (`KeyInit::new`, then `BlockDecrypt::decrypt_blocks`) over
/// every 16-byte block of `data`. Claimed: the result has the length of `data`
/// and block `i` of it is the AES-128 decryption of block `i` of `data`.
#[verifier::external_body]
pub(crate) fn aes128_decrypt_blocks(key: &[u8; 16], data: &[u8]) -> (r: Vec<u8>)
    requires
        data@.len() % 16 == 0,
    ensures
        r@.len() == data@.len(),
        forall|i: int|
            0 <= i < data@.len() / 16 ==> #[trigger] block_at(r@, i) == aes128_decrypt_block(
                key@,
                block_at(data@, i),
            ),
{
    let cipher = aes::Aes128::new(aes::cipher::generic_array::GenericArray::from_slice(key));
    let mut blocks: Vec<aes::Block> = data.chunks_exact(16).map(|c| *aes::Block::from_slice(c)).collect();
    cipher.decrypt_blocks(&mut blocks);
    blocks.iter().flat_map(|b| b.iter().copied()).collect()
}

/// Runs `aes::Aes256` (`KeyInit::new`, then `BlockDecrypt::decrypt_blocks`) over
/// every 16-byte block of `data`. Claimed: the result has the length of `data`
/// and block `i` of it is the AES-256 decryption of block `i` of `data`.
#[verifier::external_body]
pub(crate) fn aes256_decrypt_blocks(key: &[u8; 32], data: &[u8]) -> (r: Vec<u8>)
    requires
        data@.len() % 16 == 0,
    ensures
        r@.len() == data@.len(),
        forall|i: int|
            0 <= i < data@.len() / 16 ==> #[trigger] block_at(r@, i) == aes256_decrypt_block(
                key@,
                block_at(data@, i),
            ),
{
    let cipher = aes::Aes256::new(aes::cipher::generic_array::GenericArray::from_slice(key));
    let mut blocks: Vec<aes::Block> = data.chunks_exact(16).map(|c| *aes::Block::from_slice(c)).collect();
    cipher.decrypt_blocks(&mut blocks);
    blocks.iter().flat_map(|b| b.iter().copied()).collect()
}

/// Calls `Aead::decrypt` of `aes_gcm::AesGcm<Aes128, U16>` (16-byte nonce,
/// 16-byte tag at the end of `sealed`). Claimed: the result is the named
/// decryption of the arguments; an accepted message is 16 bytes shorter than
/// `sealed`, and a `sealed` shorter than the tag is refused.
#[verifier::external_body]
pub(crate) fn aes128_gcm16_decrypt(key: &[u8; 16], nonce: &[u8; 16], sealed: &[u8]) -> (r:
    Option<Vec<u8>>)
    ensures
        r matches Some(p) ==> aes128_gcm16_open(key@, nonce@, sealed@) == Some(p@)
            && p@.len() + 16 == sealed@.len(),
        r is None ==> aes128_gcm16_open(key@, nonce@, sealed@) is None,
        sealed@.len() < 16 ==> r is None,
{
    let cipher = aes_gcm::AesGcm::<aes_gcm::aes::Aes128, aes::cipher::consts::U16>::new(
        aes::cipher::generic_array::GenericArray::from_slice(key),
    );
    cipher.decrypt(aes::cipher::generic_array::GenericArray::from_slice(nonce), sealed).ok()
}

/// Calls `md5::compute`. Claimed: the result is the MD5 digest of `message`.
#[verifier::external_body]
pub(crate) fn md5_compute(message: &[u8]) -> (r: [u8; 16])
    ensures
        r@ == md5_digest(message@),
{
    md5::compute(message).0
}

/// Calls `Digest::digest` of `sha2::Sha256`. Claimed: the result is the SHA-256
/// digest of `message`.
#[verifier::external_body]
pub(crate) fn sha256_compute(message: &[u8]) -> (r: [u8; 32])
    ensures
        r@ == sha256_digest(message@),
{
    sha2::Sha256::digest(message).into()
}

/// Calls `BigUint::modpow` (the `num-bigint-dig` integer that `rsa` re-exports)
/// on the big-endian numbers `base`, `exponent` and `modulus`, converting with
/// `BigUint::from_bytes_be` and `BigUint::to_bytes_be`. Claimed, as its
/// documentation says: the value is `base ^ exponent % modulus`, written in the
/// shortest big-endian form (`[0]` for zero). `modpow` panics on a zero modulus.
#[verifier::external_body]
pub(crate) fn modpow_be(base: &[u8], exponent: &[u8], modulus: &[u8]) -> (r: Vec<u8>)
    requires
        be_value(modulus@) > 0,
    ensures
        is_minimal_be(r@),
        be_value(r@) == pow(be_value(base@) as int, be_value(exponent@)) % (be_value(
            modulus@,
        ) as int),
{
    let b = rsa::BigUint::from_bytes_be(base);
    let e = rsa::BigUint::from_bytes_be(exponent);
    let m = rsa::BigUint::from_bytes_be(modulus);
    b.modpow(&e, &m).to_bytes_be()
}

} // verus!
