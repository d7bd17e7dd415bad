use aes::cipher::{BlockEncrypt, KeyInit};
use firmware_formats::crypto::cbc::{
    decrypt_aes128_cbc_nopad, decrypt_aes128_cbc_pkcs7, decrypt_aes256_cbc_nopad,
    decrypt_aes256_cbc_pkcs7,
};
use firmware_formats::error::ExtractError;
use firmware_formats::formats::utv::decrypt_key_header;

fn hex(s: &str) -> Vec<u8> {
    (0..s.len()).step_by(2).map(|i| u8::from_str_radix(&s[i..i + 2], 16).unwrap()).collect()
}

fn arr16(v: &[u8]) -> [u8; 16] {
    v.try_into().unwrap()
}

fn arr32(v: &[u8]) -> [u8; 32] {
    v.try_into().unwrap()
}

fn cbc_encrypt_128(key: &[u8; 16], iv: &[u8; 16], plain: &[u8]) -> Vec<u8> {
    let cipher = aes::Aes128::new(key.into());
    let mut prev = *iv;
    let mut out = Vec::new();
    for chunk in plain.chunks(16) {
        let mut block = aes::Block::default();
        for j in 0..16 {
            block[j] = chunk[j] ^ prev[j];
        }
        cipher.encrypt_block(&mut block);
        prev.copy_from_slice(&block);
        out.extend_from_slice(&block);
    }
    out
}

fn pkcs7_pad(data: &[u8]) -> Vec<u8> {
    let n = 16 - data.len() % 16;
    let mut v = data.to_vec();
    v.extend(std::iter::repeat(n as u8).take(n));
    v
}

const NIST_KEY128: &str = "2b7e151628aed2a6abf7158809cf4f3c";
const NIST_KEY256: &str = "603deb1015ca71be2b73aef0857d77811f352c073b6108d72d9810a30914dff4";
const NIST_IV: &str = "000102030405060708090a0b0c0d0e0f";
const NIST_PLAIN: &str = "6bc1bee22e409f96e93d7e117393172aae2d8a571e03ac9c9eb76fac45af8e51";

#[test]
fn cbc128_nist_vector() {
    let ct = hex("7649abac8119b246cee98e9b12e9197d5086cb9b507219ee95db113a917678b2");
    let r = decrypt_aes128_cbc_nopad(&ct, &arr16(&hex(NIST_KEY128)), &arr16(&hex(NIST_IV)));
    assert_eq!(r.unwrap(), hex(NIST_PLAIN));
}

#[test]
fn cbc256_nist_vector() {
    let ct = hex("f58c4c04d6e5f1ba779eabfb5f7bfbd69cfc4e967edb808d679f777bc6702c7d");
    let r = decrypt_aes256_cbc_nopad(&ct, &arr32(&hex(NIST_KEY256)), &arr16(&hex(NIST_IV)));
    assert_eq!(r.unwrap(), hex(NIST_PLAIN));
}

#[test]
fn cbc_nopad_rejects_partial_block() {
    let r = decrypt_aes128_cbc_nopad(&[0u8; 17], &[0u8; 16], &[0u8; 16]);
    assert_eq!(r, Err(ExtractError::InvalidCipherLength));
    let r = decrypt_aes256_cbc_nopad(&[0u8; 15], &[0u8; 32], &[0u8; 16]);
    assert_eq!(r, Err(ExtractError::InvalidCipherLength));
}

#[test]
fn cbc_nopad_empty_is_empty() {
    let r = decrypt_aes128_cbc_nopad(&[], &[7u8; 16], &[9u8; 16]);
    assert_eq!(r, Ok(vec![]));
}

#[test]
fn cbc_pkcs7_roundtrip() {
    let key = [3u8; 16];
    let iv = [5u8; 16];
    let msg = b"firmware payload of some length";
    let ct = cbc_encrypt_128(&key, &iv, &pkcs7_pad(msg));
    assert_eq!(decrypt_aes128_cbc_pkcs7(&ct, &key, &iv), Ok(msg.to_vec()));
    // a full block of padding for an aligned message
    let msg16 = [0x41u8; 16];
    let ct = cbc_encrypt_128(&key, &iv, &pkcs7_pad(&msg16));
    assert_eq!(ct.len(), 32);
    assert_eq!(decrypt_aes128_cbc_pkcs7(&ct, &key, &iv), Ok(msg16.to_vec()));
}

#[test]
fn cbc_pkcs7_bad_padding() {
    let key = [3u8; 16];
    let iv = [5u8; 16];
    let mut plain = [0x41u8; 16];
    plain[15] = 0;
    let ct = cbc_encrypt_128(&key, &iv, &plain);
    assert_eq!(decrypt_aes128_cbc_pkcs7(&ct, &key, &iv), Err(ExtractError::InvalidPadding));
    plain[15] = 17;
    let ct = cbc_encrypt_128(&key, &iv, &plain);
    assert_eq!(decrypt_aes128_cbc_pkcs7(&ct, &key, &iv), Err(ExtractError::InvalidPadding));
    plain[15] = 2;
    plain[14] = 3;
    let ct = cbc_encrypt_128(&key, &iv, &plain);
    assert_eq!(decrypt_aes128_cbc_pkcs7(&ct, &key, &iv), Err(ExtractError::InvalidPadding));
    assert_eq!(decrypt_aes128_cbc_pkcs7(&[], &key, &iv), Err(ExtractError::InvalidPadding));
    assert_eq!(decrypt_aes128_cbc_pkcs7(&[1, 2, 3], &key, &iv), Err(ExtractError::InvalidCipherLength));
}

#[test]
fn cbc256_pkcs7_nist_vector_has_no_valid_padding() {
    let ct = hex("f58c4c04d6e5f1ba779eabfb5f7bfbd69cfc4e967edb808d679f777bc6702c7d");
    let r = decrypt_aes256_cbc_pkcs7(&ct, &arr32(&hex(NIST_KEY256)), &arr16(&hex(NIST_IV)));
    assert_eq!(r, Err(ExtractError::InvalidPadding));
}

#[test]
fn cbc_split_equals_whole() {
    let key = arr16(&hex(NIST_KEY128));
    let iv = arr16(&hex(NIST_IV));
    let ct = hex("7649abac8119b246cee98e9b12e9197d5086cb9b507219ee95db113a917678b2");
    let first = decrypt_aes128_cbc_nopad(&ct[..16], &key, &iv).unwrap();
    let second = decrypt_aes128_cbc_nopad(&ct[16..], &key, &arr16(&ct[..16])).unwrap();
    let mut joined = first;
    joined.extend_from_slice(&second);
    assert_eq!(joined, decrypt_aes128_cbc_nopad(&ct, &key, &iv).unwrap());
}

#[test]
fn key_header_small_modulus() {
    // 855 ^ 65537 mod 3233 = 0x764
    assert_eq!(decrypt_key_header(&[0x03, 0x57], &[0x0c, 0xa1]), vec![0x07, 0x64]);
}

#[test]
fn key_header_is_padded_to_modulus_length() {
    // 2 ^ 65537 mod 65535 = 2, written in the three bytes of the modulus
    assert_eq!(decrypt_key_header(&[0x02], &[0x00, 0xff, 0xff]), vec![0x00, 0x00, 0x02]);
    // a zero result keeps the modulus length too
    assert_eq!(decrypt_key_header(&[0x00], &[0x01, 0x00]), vec![0x00, 0x00]);
}

#[test]
fn key_header_undoes_private_key() {
    // n = 61 * 53, 65537 * 413 = 1 modulo lcm(60, 52) = 780
    let n: u32 = 3233;
    let d: u32 = 413;
    for m in [0u32, 1, 65, 1000, 3232] {
        let mut c: u32 = 1;
        for _ in 0..d {
            c = c * m % n;
        }
        let c_bytes = [(c >> 8) as u8, c as u8];
        let expected = vec![(m >> 8) as u8, m as u8];
        assert_eq!(decrypt_key_header(&c_bytes, &[0x0c, 0xa1]), expected);
    }
    let mut c: u32 = 1;
    for _ in 0..d {
        c = c * 65 % n;
    }
    assert_eq!(c, 588);
}
