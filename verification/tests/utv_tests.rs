use aes::cipher::{BlockEncrypt, KeyInit};
use firmware_formats::error::ExtractError;
use firmware_formats::formats::utv::{
    check_clear_header, check_module_clear_header, component_name, decrypt_key_header,
    decrypt_utv_payload, encrypted_payload_size, find_utv_key_header, first_component_offset,
    is_utv_file, module_payload, open_key_header, parse_component_directory, try_utv_modulus, find_utv_key_header_checked, ComponentExtraction, ClearHeader,
    ComponentDescriptor,
};

const MODULUS: &str = "c330738c50a378738d407990a69b25128ff9e26defac80a0cd75cf68a30d7e7ac3c3494f176cbe54ab9a197c01c9ed9a1c0d1306d1563d97f0b718209342279933498c9b2376bbbd827e127db3866dcc8a0a6254b1fa05dba6ad2d2f797cfb912c8a4cd1f860c5a7d5285f6437e3c9821f47a7c3a130198ea69cef2a3027eb0ce9aceb47f7278eece2d4a3aa3cbaa7f63cc32438d81f682785042de13d3fa1317ec40740ac8fe240ec680e53e420360f5b8626ed9b290b563ccc1c9ac984e538f8f1d91c35dff2badbc5a04abaf6b799de2a57d9904895ffde93f6cc068f965c59b68602414565fb6d087eeabf32b81140e22f2db38e18347c04d258379e7c33";
const KEY_HEADER: &str = "605aae8fa7be4be36dca2d19a2bc02ad0d4145b5e8061d42d51ce093385062634e678a77d981fc5b937c6eed6c2d79afb4f3260837f9bd57ea820da986af79ec4ffa1aa2cd3e02e64e42e6ece2b0819b13501dc00188d963ae1ecee3bf3aecc15e57f613695925a9ed16b20ea69dfc05720a8160708a6addbf55a9c225c899932e141511b6d535beab9b53374f3d1bee11c1a271149b274aac779d67afa8b42dc58767b0d2e7f2f0e0cadbbdd9b31bcb74d349c30f23e1b5ee5a70c1dde078bcae22b4ae125b62825401b77a7d308a6c5d371f533a49ddd7a38647215e4ad08b245e1706f00c661afc5a0e8e88bbee9947d155786d26fa62a45bd7d3f7f7e43b";
const OPENED: &str = "00025a5a5a5a5a5a5a5a5a5a5a5a5a5a5a5a5a5a5a5a5a5a5a5a5a5a5a5a5a5a5a5a5a5a5a5a5a5a5a5a5a5a5a5a5a5a5a5a5a5a5a5a5a5a5a5a5a5a5a5a5a5a5a5a5a5a5a5a5a5a5a5a5a5a5a5a5a5a5a5a5a5a5a5a5a5a5a5a5a5a5a5a5a5a5a5a5a5a5a5a5a5a5a5a5a5a5a5a5a5a5a5a5a5a5a5a5a5a5a5a5a5a5a5a5a5a5a5a5a5a5a5a5a5a5a5a5a5a5a5a5a5a5a5a5a5a5a5a5a5a5a5a5a5a5a5a5a5a0000010010000000303132333435363738393a3b3c3d3e3f000000000000000000000000000000000000000000000000000000000000000000000000000000000000000000000000250000000300000042444309434442094244430943444209";

const CLEAR_SIG: &[u8; 16] = b"BDC\tCDB\tBDC\tCDB\t";
const TRAILER: &[u8; 16] = b"CDB\tBDC\tCDB\tBDC\t";

fn hex(s: &str) -> Vec<u8> {
    (0..s.len()).step_by(2).map(|i| u8::from_str_radix(&s[i..i + 2], 16).unwrap()).collect()
}

fn cbc_encrypt_zero_iv(key: &[u8; 16], plain: &[u8]) -> Vec<u8> {
    let cipher = aes::Aes128::new(key.into());
    let mut prev = [0u8; 16];
    let mut out = Vec::new();
    for chunk in plain.chunks(16) {
        let mut block = aes::Block::default();
        for j in 0..16 {
            block[j] = chunk[j] ^ prev[j];
        }
        cipher.encrypt_block(&mut block);
        prev.copy_from_slice(&block);
        out.extend_from_slice(&block);
    }
    out
}

fn clear_header(sig: &[u8; 16], versions: [u8; 3], oui: u32, mg: u32, size: u32) -> Vec<u8> {
    let mut v = sig.to_vec();
    v.extend_from_slice(&versions);
    v.push(0);
    v.extend_from_slice(&oui.to_le_bytes());
    v.extend_from_slice(&mg.to_le_bytes());
    v.extend_from_slice(&size.to_le_bytes());
    v
}

#[test]
fn utv_detection() {
    assert!(is_utv_file(CLEAR_SIG));
    assert!(!is_utv_file(TRAILER));
    assert!(!is_utv_file(&CLEAR_SIG[..15]));
}

#[test]
fn clear_header_checks() {
    let h = ClearHeader::from_bytes(&clear_header(CLEAR_SIG, [1, 1, 3], 0x123456, 0xabcd, 1000))
        .ok()
        .unwrap();
    assert_eq!(h.oui, 0x123456);
    assert_eq!(h.mg, 0xabcd);
    assert_eq!(h.module_size, 1000);
    assert_eq!(check_clear_header(&h), Ok(()));
    assert_eq!(encrypted_payload_size(&h), 1000 - 288);
    let bad = |v: [u8; 3]| {
        check_clear_header(&ClearHeader::from_bytes(&clear_header(CLEAR_SIG, v, 0, 0, 0)).ok().unwrap())
    };
    assert_eq!(bad([2, 1, 3]), Err(ExtractError::WrongClearHeaderVersion));
    assert_eq!(bad([1, 0, 3]), Err(ExtractError::WrongKeyHeaderVersion));
    assert_eq!(bad([1, 1, 2]), Err(ExtractError::WrongKeyHeaderType));
    assert!(ClearHeader::from_bytes(&[0u8; 31]).is_err());
}

#[test]
fn key_header_opens_with_matching_modulus() {
    let n = hex(MODULUS);
    let c = hex(KEY_HEADER);
    assert_eq!(decrypt_key_header(&c, &n), hex(OPENED));
    let mut other = n.clone();
    other[255] ^= 2;
    let moduli = vec![other.clone(), n.clone()];
    let (i, plain) = find_utv_key_header(&c, &moduli).ok().unwrap();
    assert_eq!(i, 1);
    assert_eq!(plain, hex(OPENED));
    assert!(matches!(find_utv_key_header(&c, &vec![other.clone()]), Err(ExtractError::NoMatchingKey)));
    assert!(try_utv_modulus(&c, &other).is_none());
    assert_eq!(try_utv_modulus(&c, &n), Some(hex(OPENED)));
    let k = open_key_header(&plain).ok().unwrap();
    assert_eq!(k.cipher_type, 1);
    assert_eq!(k.key, [0x30, 0x31, 0x32, 0x33, 0x34, 0x35, 0x36, 0x37, 0x38, 0x39, 0x3a, 0x3b, 0x3c, 0x3d, 0x3e, 0x3f]);
    assert_eq!(k.plaintext_length, 37);
    assert_eq!(&k.footer, CLEAR_SIG);
}

#[test]
fn key_header_cipher_type_must_be_aes() {
    let mut plain = hex(OPENED);
    plain[0xA2] = 0;
    assert!(matches!(open_key_header(&plain), Err(ExtractError::UnsupportedCipherType)));
    assert!(matches!(open_key_header(&plain[..200]), Err(ExtractError::UnexpectedEof)));
}

#[test]
fn payload_decrypts_checks_trailer_and_truncates() {
    let key = [0x61u8; 16];
    let mut plain = b"component directory bytes...".to_vec();
    plain.resize(32, 0);
    plain.extend_from_slice(TRAILER);
    let ct = cbc_encrypt_zero_iv(&key, &plain);
    assert_eq!(decrypt_utv_payload(&ct, &key, 10), Ok(plain[..10].to_vec()));
    assert_eq!(decrypt_utv_payload(&ct, &key, 1000), Ok(plain.clone()));
    let mut no_trailer = plain.clone();
    no_trailer[47] = 0;
    let ct = cbc_encrypt_zero_iv(&key, &no_trailer);
    assert_eq!(decrypt_utv_payload(&ct, &key, 10), Err(ExtractError::MissingDecryptionTrailer));
    assert_eq!(decrypt_utv_payload(&ct[..40], &key, 10), Err(ExtractError::InvalidCipherLength));
}

fn component_directory() -> Vec<u8> {
    let mut v = b"BDC\tCOM\tDIR\tSTR\t".to_vec();
    v.extend_from_slice(&[0u8; 36]); // version .. c4
    v.extend_from_slice(&1u16.to_le_bytes()); // component_count
    v.extend_from_slice(&0u16.to_le_bytes());
    v.extend_from_slice(&8u16.to_le_bytes()); // string_table_size
    v.extend_from_slice(b"name\0pad");
    assert_eq!(v.len(), 66);
    // descriptor at 56 + 8 = 64
    v.truncate(64);
    let mut d = Vec::new();
    d.extend_from_slice(&[0u8; 8]);
    d.extend_from_slice(&0u16.to_le_bytes()); // mg
    d.extend_from_slice(&58u16.to_le_bytes()); // name_offset
    d.extend_from_slice(&0x0102u16.to_le_bytes()); // module_version
    d.extend_from_slice(&0u16.to_le_bytes());
    d.extend_from_slice(&4096u32.to_le_bytes()); // size
    d.extend_from_slice(&1u16.to_le_bytes()); // count1
    d.extend_from_slice(&0u16.to_le_bytes());
    d.extend_from_slice(&1u16.to_le_bytes()); // count3
    d.extend_from_slice(&0u16.to_le_bytes());
    d.extend_from_slice(&2u16.to_le_bytes()); // module_count
    d.extend_from_slice(&0u16.to_le_bytes());
    d.extend_from_slice(&[1, 2, 3, 4]);
    d.extend_from_slice(&[5, 6, 7, 8, 9, 10]);
    for m in 0..2u32 {
        d.extend_from_slice(&(0x1000 * (m + 1)).to_le_bytes());
        d.extend_from_slice(&(100 + m).to_le_bytes());
        d.extend_from_slice(&(400 + m).to_le_bytes());
        d.extend_from_slice(&[m as u8; 32]);
    }
    v.extend_from_slice(&d);
    v
}

#[test]
fn component_directory_and_descriptor() {
    let mut dir = component_directory();
    dir[58..63].copy_from_slice(b"boot\0");
    let h = parse_component_directory(&dir).ok().unwrap();
    assert_eq!(h.component_count, 1);
    assert_eq!(h.string_table_size, 8);
    let off = first_component_offset(&h);
    assert_eq!(off, 64);
    let (c, end) = ComponentDescriptor::from_bytes(&dir, off).ok().unwrap();
    assert_eq!(end, dir.len());
    assert_eq!(c.name_offset, 58);
    assert_eq!(c.module_version, 0x0102);
    assert_eq!(c.size, 4096);
    assert_eq!(c.c1, vec![[1, 2, 3, 4]]);
    assert_eq!(c.c3, vec![[5, 6, 7, 8, 9, 10]]);
    assert_eq!(c.modules.len(), 2);
    assert_eq!(c.modules[1].offset, 0x2000);
    assert_eq!(c.modules[1].plaintext_size, 101);
    assert_eq!(c.modules[1].module_size, 401);
    assert_eq!(c.modules[1].hash, [1u8; 32]);
    assert_eq!(component_name(&dir, c.name_offset), b"boot".to_vec());
    assert!(ComponentDescriptor::from_bytes(&dir[..dir.len() - 1], off).is_err());
    assert!(ComponentDescriptor::from_bytes(&dir, dir.len() + 5).is_err());
    dir[0] = b'X';
    assert!(matches!(parse_component_directory(&dir), Err(ExtractError::BadComponentDirectorySignature)));
}

#[test]
fn name_runs_to_end_without_nul() {
    assert_eq!(component_name(b"abcdef", 3), b"def".to_vec());
    assert_eq!(component_name(b"abcdef", 6), Vec::<u8>::new());
}

#[test]
fn module_clear_header_must_match_first() {
    let first = ClearHeader::from_bytes(&clear_header(CLEAR_SIG, [1, 1, 3], 7, 8, 0)).ok().unwrap();
    let same = ClearHeader::from_bytes(&clear_header(CLEAR_SIG, [0, 0, 0], 7, 8, 500)).ok().unwrap();
    assert_eq!(check_module_clear_header(&same, &first), Ok(()));
    let other = ClearHeader::from_bytes(&clear_header(CLEAR_SIG, [1, 1, 3], 7, 9, 0)).ok().unwrap();
    assert_eq!(check_module_clear_header(&other, &first), Err(ExtractError::OuiMgMismatch));
    let bad = ClearHeader::from_bytes(&clear_header(TRAILER, [1, 1, 3], 7, 8, 0)).ok().unwrap();
    assert_eq!(check_module_clear_header(&bad, &first), Err(ExtractError::BadClearHeaderSignature));
}

fn module(index: u16, header_size: u16, size: u32, offset: u32, body: &[u8]) -> Vec<u8> {
    let mut v = b"BDC\tMOD\tSIG\tHDR\t".to_vec();
    v.extend_from_slice(&[1, 0]);
    v.extend_from_slice(&header_size.to_le_bytes());
    v.extend_from_slice(&[0u8; 6]);
    v.extend_from_slice(&index.to_le_bytes());
    v.extend_from_slice(&[0u8; 4]);
    v.extend_from_slice(&size.to_le_bytes());
    v.extend_from_slice(&offset.to_le_bytes());
    v.resize(header_size as usize, 0xEE);
    v.extend_from_slice(body);
    v
}

#[test]
fn module_payload_takes_body_after_header() {
    let data = module(1, 48, 5, 0x300, b"hello world");
    let (h, body) = module_payload(&data, 1).ok().unwrap();
    assert_eq!(h.module_offset, 0x300);
    assert_eq!(h.header_size, 48);
    assert_eq!(body, b"hello".to_vec());
    assert!(matches!(module_payload(&data, 0), Err(ExtractError::ModuleIndexMismatch)));
    let short = module(0, 48, 50, 0, b"tiny");
    assert!(matches!(module_payload(&short, 0), Err(ExtractError::UnexpectedEof)));
    let mut bad = data.clone();
    bad[4] = 0;
    assert!(matches!(module_payload(&bad, 1), Err(ExtractError::BadModuleHeaderSignature)));
    assert!(matches!(module_payload(&data[..39], 1), Err(ExtractError::UnexpectedEof)));
}

#[test]
fn checked_modulus_search_stops_at_zero_modulus() {
    let n = hex(MODULUS);
    let c = hex(KEY_HEADER);
    let mut other = n.clone();
    other[255] ^= 2;
    let (i, plain) = find_utv_key_header_checked(&c, &vec![other.clone(), n.clone(), vec![0, 0]]).ok().unwrap();
    assert_eq!(i, 1);
    assert_eq!(plain, hex(OPENED));
    assert!(matches!(find_utv_key_header_checked(&c, &vec![other.clone(), vec![], n.clone()]), Err(ExtractError::ZeroModulus)));
    assert!(matches!(find_utv_key_header_checked(&c, &vec![other]), Err(ExtractError::NoMatchingKey)));
}

fn encrypted_module(key: &[u8; 16], index: u16, offset: u32, body: &[u8]) -> (Vec<u8>, u32) {
    let mut plain = module(index, 40, body.len() as u32, offset, body);
    let plaintext_size = plain.len() as u32;
    let padded = (plain.len() + 16 + 15) / 16 * 16;
    plain.resize(padded - 16, 0);
    plain.extend_from_slice(TRAILER);
    (cbc_encrypt_zero_iv(key, &plain), plaintext_size)
}

#[test]
fn component_modules_are_written_at_their_offsets() {
    let key = [0x5Cu8; 16];
    let (enc0, size0) = encrypted_module(&key, 0, 4, b"abcd");
    let (enc1, size1) = encrypted_module(&key, 1, 0, b"XY");
    let mut dir = component_directory();
    // point the two module entries at the plaintext sizes of the payloads
    let first_module = 64 + 32 + 4 + 6;
    dir[first_module + 4..first_module + 8].copy_from_slice(&size0.to_le_bytes());
    dir[first_module + 48..first_module + 52].copy_from_slice(&size1.to_le_bytes());
    let (component, _) = ComponentDescriptor::from_bytes(&dir, 64).ok().unwrap();
    let initial = ClearHeader::from_bytes(&clear_header(CLEAR_SIG, [1, 1, 3], 7, 8, 0)).ok().unwrap();
    let mut ext = ComponentExtraction::new(component, &initial, &key);

    let mut image: Vec<u8> = Vec::new();
    let mut offsets = Vec::new();
    for enc in [&enc0, &enc1] {
        let (mi, off) = ext.next_module().unwrap();
        offsets.push((mi, off));
        let (at, body) = ext.extract_module(enc).ok().unwrap();
        let at = at as usize;
        if image.len() < at + body.len() {
            image.resize(at + body.len(), 0);
        }
        image[at..at + body.len()].copy_from_slice(&body);
    }
    assert_eq!(offsets, vec![(0, 0x1000), (1, 0x2000)]);
    assert!(ext.next_module().is_none());
    assert_eq!(image, b"XY\0\0abcd".to_vec());
}

#[test]
fn component_module_index_is_checked() {
    let key = [0x5Cu8; 16];
    let (enc, size) = encrypted_module(&key, 1, 0, b"zz");
    let mut dir = component_directory();
    let first_module = 64 + 32 + 4 + 6;
    dir[first_module + 4..first_module + 8].copy_from_slice(&size.to_le_bytes());
    let (component, _) = ComponentDescriptor::from_bytes(&dir, 64).ok().unwrap();
    let initial = ClearHeader::from_bytes(&clear_header(CLEAR_SIG, [1, 1, 3], 7, 8, 0)).ok().unwrap();
    let mut ext = ComponentExtraction::new(component, &initial, &key);
    assert!(matches!(ext.extract_module(&enc), Err(ExtractError::ModuleIndexMismatch)));
    assert_eq!(ext.next_module(), Some((0, 0x1000)));
    let other = ClearHeader::from_bytes(&clear_header(CLEAR_SIG, [1, 1, 3], 7, 9, 0)).ok().unwrap();
    assert!(matches!(ext.check_clear_header(&other), Err(ExtractError::OuiMgMismatch)));
}
