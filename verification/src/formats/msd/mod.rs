//! MSD (OUITH) items: salted AES-CBC payloads and the tree header checks.

use vstd::prelude::*;

use crate::bytes::{append_bytes, be_u16_at, be_u32_at, bytes_at_eq, read_array, read_be_u16, read_be_u32};
use crate::crypto::cbc::{
    bytes_result, cbc_pkcs7_result, decrypt_aes128_cbc_pkcs7, decrypt_aes256_cbc_pkcs7,
};
use crate::crypto::primitives::{md5_compute, md5_digest, sha256_compute, sha256_digest};
use crate::error::ExtractError;

verus! {

/// The marker in front of salted payloads.
pub const SALTED_MAGIC: [u8; 8] = [0x53, 0x61, 0x6c, 0x74, 0x65, 0x64, 0x5f, 0x5f];

/// Tree signature of Tizen OUITH format 1.8.
pub const OUITH_SIGNATURE_1_8: [u8; 50] = [
    0x54, 0x69, 0x7a, 0x65, 0x6e, 0x20, 0x53, 0x6f, 0x66, 0x74, 0x77, 0x61, 0x72, 0x65, 0x20,
    0x55, 0x70, 0x67, 0x72, 0x61, 0x64, 0x65, 0x20, 0x54, 0x72, 0x65, 0x65, 0x20, 0x42, 0x69,
    0x6e, 0x61, 0x72, 0x79, 0x20, 0x46, 0x6f, 0x72, 0x6d, 0x61, 0x74, 0x20, 0x76, 0x65, 0x72,
    0x2e, 0x20, 0x31, 0x2e, 0x38,
];

/// Tree signature of Tizen OUITH format 1.9.
pub const OUITH_SIGNATURE_1_9: [u8; 50] = [
    0x54, 0x69, 0x7a, 0x65, 0x6e, 0x20, 0x53, 0x6f, 0x66, 0x74, 0x77, 0x61, 0x72, 0x65, 0x20,
    0x55, 0x70, 0x67, 0x72, 0x61, 0x64, 0x65, 0x20, 0x54, 0x72, 0x65, 0x65, 0x20, 0x42, 0x69,
    0x6e, 0x61, 0x72, 0x79, 0x20, 0x46, 0x6f, 0x72, 0x6d, 0x61, 0x74, 0x20, 0x76, 0x65, 0x72,
    0x2e, 0x20, 0x31, 0x2e, 0x39,
];

/// `data` starts with the `Salted__` marker.
pub open spec fn has_salted_magic(data: Seq<u8>) -> bool {
    data.subrange(0, 8) == SALTED_MAGIC@
}

/// The salt of a salted payload.
pub open spec fn salt_of(data: Seq<u8>) -> Seq<u8> {
    data.subrange(8, 16)
}

/// The key of the old scheme: MD5 of passphrase and salt.
pub open spec fn old_scheme_key(passphrase: Seq<u8>, salt: Seq<u8>) -> Seq<u8> {
    md5_digest(passphrase + salt)
}

/// The IV of the old scheme: MD5 of the key, the passphrase and the salt.
pub open spec fn old_scheme_iv(passphrase: Seq<u8>, salt: Seq<u8>) -> Seq<u8> {
    md5_digest(old_scheme_key(passphrase, salt) + passphrase + salt)
}

/// Tizen decryption: a 16-byte passphrase is an AES-128 key with the MD5 of the
/// salt as IV, a 32-byte one an AES-256 key with the first half of the SHA-256
/// of the salt as IV; PKCS#7 padding is removed.
pub open spec fn tizen_result(data: Seq<u8>, passphrase: Seq<u8>, salt: Seq<u8>) -> Result<
    Seq<u8>,
    ExtractError,
> {
    if passphrase.len() == 16 {
        cbc_pkcs7_result(passphrase, md5_digest(salt), data)
    } else if passphrase.len() == 32 {
        cbc_pkcs7_result(passphrase, sha256_digest(salt).take(16), data)
    } else {
        Err(ExtractError::InvalidPassphraseLength)
    }
}

/// Tizen decryption of a salted payload (marker, salt, then ciphertext).
pub open spec fn salted_tizen_result(data: Seq<u8>, passphrase: Seq<u8>) -> Result<
    Seq<u8>,
    ExtractError,
> {
    if !has_salted_magic(data) {
        Err(ExtractError::InvalidEncryptedData)
    } else {
        tizen_result(data.skip(16), passphrase, salt_of(data))
    }
}

/// The first 16 bytes of a 16- or 32-byte passphrase, as an array.
fn key16(passphrase: &[u8]) -> (r: [u8; 16])
    requires
        passphrase@.len() == 16,
    ensures
        r@ == passphrase@,
{
    let r = read_array::<16>(passphrase, 0);
    assert(passphrase@.subrange(0, 16) =~= passphrase@);
    r
}

/// Decrypts a salted payload of the old scheme: key and IV come from MD5 over
/// the passphrase and the salt, the cipher is AES-128-CBC with PKCS#7 padding.
pub fn decrypt_aes_salted_old(encrypted_data: &[u8], passphrase_bytes: &Vec<u8>) -> (r: Result<
    Vec<u8>,
    ExtractError,
>)
    requires
        encrypted_data@.len() >= 16 || (encrypted_data@.len() >= 8 && !has_salted_magic(
            encrypted_data@,
        )),
    ensures
        bytes_result(r) == (if !has_salted_magic(encrypted_data@) {
            Err(ExtractError::InvalidEncryptedData)
        } else {
            cbc_pkcs7_result(
                old_scheme_key(passphrase_bytes@, salt_of(encrypted_data@)),
                old_scheme_iv(passphrase_bytes@, salt_of(encrypted_data@)),
                encrypted_data@.skip(16),
            )
        }),
{
    if !bytes_at_eq(encrypted_data, 0, &SALTED_MAGIC) {
        return Err(ExtractError::InvalidEncryptedData);
    }
    let salt = vstd::slice::slice_subrange(encrypted_data, 8, 16);
    let mut key: Vec<u8> = Vec::new();
    append_bytes(&mut key, passphrase_bytes.as_slice());
    append_bytes(&mut key, salt);
    let key_md5 = md5_compute(key.as_slice());
    let mut iv: Vec<u8> = Vec::new();
    append_bytes(&mut iv, &key_md5);
    append_bytes(&mut iv, passphrase_bytes.as_slice());
    append_bytes(&mut iv, salt);
    let iv_md5 = md5_compute(iv.as_slice());
    let body = vstd::slice::slice_subrange(encrypted_data, 16, encrypted_data.len());
    assert(body@ =~= encrypted_data@.skip(16));
    decrypt_aes128_cbc_pkcs7(body, &key_md5, &iv_md5)
}

/// Decrypts a payload with a Tizen passphrase and a separately given salt.
pub fn decrypt_aes_tizen(encrypted_data: &[u8], passphrase: &[u8], salt: &[u8]) -> (r: Result<
    Vec<u8>,
    ExtractError,
>)
    ensures
        bytes_result(r) == tizen_result(encrypted_data@, passphrase@, salt@),
{
    if passphrase.len() == 16 {
        let iv = md5_compute(salt);
        decrypt_aes128_cbc_pkcs7(encrypted_data, &key16(passphrase), &iv)
    } else if passphrase.len() == 32 {
        let digest = sha256_compute(salt);
        let iv = read_array::<16>(digest.as_slice(), 0);
        assert(iv@ =~= sha256_digest(salt@).take(16));
        let key = read_array::<32>(passphrase, 0);
        assert(passphrase@.subrange(0, 32) =~= passphrase@);
        decrypt_aes256_cbc_pkcs7(encrypted_data, &key, &iv)
    } else {
        Err(ExtractError::InvalidPassphraseLength)
    }
}

/// Decrypts a salted payload with a Tizen passphrase.
pub fn decrypt_aes_salted_tizen(encrypted_data: &[u8], passphrase: &[u8]) -> (r: Result<
    Vec<u8>,
    ExtractError,
>)
    requires
        encrypted_data@.len() >= 16 || (encrypted_data@.len() >= 8 && !has_salted_magic(
            encrypted_data@,
        )),
    ensures
        bytes_result(r) == salted_tizen_result(encrypted_data@, passphrase@),
{
    if !bytes_at_eq(encrypted_data, 0, &SALTED_MAGIC) {
        return Err(ExtractError::InvalidEncryptedData);
    }
    let salt = vstd::slice::slice_subrange(encrypted_data, 8, 16);
    let body = vstd::slice::slice_subrange(encrypted_data, 16, encrypted_data.len());
    assert(body@ =~= encrypted_data@.skip(16));
    decrypt_aes_tizen(body, passphrase, salt)
}

/// A salted Tizen payload decrypts as its ciphertext part under the salt it
/// carries: `decrypt_aes_salted_tizen(d, p)` is `decrypt_aes_tizen(d[16..], p,
/// d[8..16])` whenever `d` starts with the `Salted__` marker.
pub proof fn law_salted_tizen_is_tizen_of_payload(data: Seq<u8>, passphrase: Seq<u8>)
    requires
        data.len() >= 16,
        has_salted_magic(data),
    ensures
        salted_tizen_result(data, passphrase) == tizen_result(
            data.subrange(16, data.len() as int),
            passphrase,
            data.subrange(8, 16),
        ),
{
    assert(data.skip(16) =~= data.subrange(16, data.len() as int));
}

/// `data` holds `sig` at `off`.
pub open spec fn signature_at(data: Seq<u8>, off: int, sig: Seq<u8>) -> bool {
    data.subrange(off, off + sig.len()) == sig
}

/// Whether `data` is an OUITH tree of format 1.8 or 1.9: the format signature
/// stands at offset 256 (1.8), 262 (1.9) or 518 (1.9 with the newer signature
/// block). The offsets are tried in that order, each only if the ones before
/// did not match.
pub fn is_valid_ouith(data: &[u8]) -> (r: bool)
    requires
        data@.len() >= 306,
        signature_at(data@, 256, OUITH_SIGNATURE_1_8@) || data@.len() >= 312,
        signature_at(data@, 256, OUITH_SIGNATURE_1_8@) || signature_at(
            data@,
            262,
            OUITH_SIGNATURE_1_9@,
        ) || data@.len() >= 568,
    ensures
        r == (signature_at(data@, 256, OUITH_SIGNATURE_1_8@) || signature_at(
            data@,
            262,
            OUITH_SIGNATURE_1_9@,
        ) || signature_at(data@, 518, OUITH_SIGNATURE_1_9@)),
{
    bytes_at_eq(data, 256, &OUITH_SIGNATURE_1_8) || bytes_at_eq(data, 262, &OUITH_SIGNATURE_1_9)
        || bytes_at_eq(data, 518, &OUITH_SIGNATURE_1_9)
}

/// The two sanity checks of an old-style OUITH tree: the first chunk header
/// (after the 128-byte signature) announces no more than the data length (taken
/// as a 32-bit number), and the top level descriptor has ID 1 (upgrade item)
/// or 2 (group).
pub open spec fn spec_is_valid_ouith_old(data: Seq<u8>) -> bool {
    &&& data.len() >= 136
    &&& be_u32_at(data, 128) <= (data.len() as u32)
    &&& (be_u16_at(data, 136) == 1 || be_u16_at(data, 136) == 2)
}

/// Old OUITH law: data shorter than the signature and a chunk header is never
/// a tree; for data of 138 bytes up to 4 GiB, it is one exactly when the
/// big-endian size of the first chunk (offset 128) is at most the data length
/// and the big-endian top level descriptor ID (offset 136) is 1 or 2.
pub proof fn law_is_valid_ouith_old(data: Seq<u8>)
    ensures
        data.len() < 136 ==> !spec_is_valid_ouith_old(data),
        138 <= data.len() < 0x1_0000_0000 ==> spec_is_valid_ouith_old(data) == (data[128] as int
            * 0x100_0000 + data[129] as int * 0x1_0000 + data[130] as int * 0x100 + data[131] as int
            <= data.len() && (data[136] as int * 0x100 + data[137] as int == 1 || data[136] as int
            * 0x100 + data[137] as int == 2)),
{
}

/// Whether `data` passes the sanity checks of an old-style OUITH tree.
pub fn is_valid_ouith_old(data: &[u8]) -> (r: bool)
    requires
        data@.len() < 136 || data@.len() >= 138 || be_u32_at(data@, 128) > (data@.len() as u32),
    ensures
        r == spec_is_valid_ouith_old(data@),
        data@.len() < 136 ==> !r,
        138 <= data@.len() < 0x1_0000_0000 ==> r == (data@[128] as int * 0x100_0000 + data@[129]
            as int * 0x1_0000 + data@[130] as int * 0x100 + data@[131] as int <= data@.len() && (
        data@[136] as int * 0x100 + data@[137] as int == 1 || data@[136] as int * 0x100
            + data@[137] as int == 2)),
{
    proof {
        law_is_valid_ouith_old(data@);
    }
    if data.len() < 128 + 8 {
        return false;
    }
    if read_be_u32(data, 128) > data.len() as u32 {
        return false;
    }
    let v = read_be_u16(data, 136);
    v == 0x01 || v == 0x02
}

} // verus!
