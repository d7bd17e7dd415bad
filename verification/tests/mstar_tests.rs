use aes::cipher::{BlockEncrypt, KeyInit};
use firmware_formats::error::ExtractError;
use firmware_formats::formats::mstar_secure_new::{
    decrypt_mstar_segment, find_mstar_key, find_mstar_key_checked, mstar_key_fits, is_mstar_secure_new_file, mstar_segment_count,
    mstar_segment_size, ChunkInfo, SegmentDecryptor,
};

fn cbc_encrypt_256(key: &[u8; 32], iv: &[u8; 16], plain: &[u8]) -> Vec<u8> {
    let cipher = aes::Aes256::new(key.into());
    let mut prev = *iv;
    let mut out = Vec::new();
    for chunk in plain.chunks(16) {
        let mut block = aes::Block::default();
        for j in 0..16 {
            block[j] = chunk[j] ^ prev[j];
        }
        cipher.encrypt_block(&mut block);
        prev.copy_from_slice(&block);
        out.extend_from_slice(&block);
    }
    out
}

fn chunk_info_bytes(segment_size: u32, offset: u32, len: u32) -> Vec<u8> {
    let mut v = b"MTK.....".to_vec();
    for x in [segment_size, offset, len, 0x10, 0x20, 0x30] {
        v.extend_from_slice(&x.to_le_bytes());
    }
    v.extend_from_slice(&[0u8; 88]);
    v.extend_from_slice(b".....mtk");
    v
}

#[test]
fn detection_needs_both_markers() {
    assert!(is_mstar_secure_new_file(b"MTK.....", b".....mtk"));
    assert!(!is_mstar_secure_new_file(b"MTK.....", b"....mtk."));
    assert!(!is_mstar_secure_new_file(b"MTK....", b".....mtk"));
}

#[test]
fn chunk_info_fields_are_little_endian() {
    let bytes = chunk_info_bytes(0x1000, 0x2000, 0x2800);
    assert_eq!(bytes.len(), 128);
    let c = ChunkInfo::from_bytes(&bytes).ok().unwrap();
    assert_eq!(c.segment_size, 0x1000);
    assert_eq!(c.file_data_offset, 0x2000);
    assert_eq!(c.file_data_len, 0x2800);
    assert_eq!(c.file_hash_offset, 0x10);
    assert_eq!(c.chunk_id_end, *b".....mtk");
    assert!(ChunkInfo::from_bytes(&bytes[..127]).is_err());
}

#[test]
fn segment_count_and_sizes() {
    let c = ChunkInfo::from_bytes(&chunk_info_bytes(0x1000, 0, 0x2800)).ok().unwrap();
    let n = mstar_segment_count(&c);
    assert_eq!(n, 3);
    assert_eq!(mstar_segment_size(0, n, &c), 0x1000);
    assert_eq!(mstar_segment_size(1, n, &c), 0x1000);
    assert_eq!(mstar_segment_size(2, n, &c), 0x800);
    // whole segments leave an empty last segment
    let c = ChunkInfo::from_bytes(&chunk_info_bytes(0x1000, 0, 0x2000)).ok().unwrap();
    assert_eq!(mstar_segment_count(&c), 2);
    assert_eq!(mstar_segment_size(1, 2, &c), 0);
}

#[test]
fn key_search_picks_first_ascii_decryption() {
    let right = [0x21u8; 32];
    let wrong = [0x22u8; 32];
    let script = [b'#'; 0x80];
    let sample = cbc_encrypt_256(&right, &[0; 16], &script);
    let keys = vec![wrong.to_vec(), right.to_vec(), right.to_vec()];
    assert_eq!(find_mstar_key(&sample, &keys), Ok(1));
    assert_eq!(find_mstar_key(&sample, &vec![wrong.to_vec()]), Err(ExtractError::NoMatchingKey));
    assert_eq!(find_mstar_key(&sample, &vec![]), Err(ExtractError::NoMatchingKey));
    assert_eq!(mstar_key_fits(&sample, &right), Ok(true));
    assert_eq!(mstar_key_fits(&sample, &wrong), Ok(false));
    assert_eq!(find_mstar_key(&sample[..0x7f], &keys), Err(ExtractError::InvalidCipherLength));
}

#[test]
fn segments_chain_their_iv() {
    let key = [0x44u8; 32];
    let plain: Vec<u8> = (0..96u8).collect();
    let ct = cbc_encrypt_256(&key, &[0; 16], &plain);
    let (p1, iv1) = decrypt_mstar_segment(&ct[..32], &key, &[0; 16]).ok().unwrap();
    assert_eq!(iv1, <[u8; 16]>::try_from(&ct[16..32]).unwrap());
    let (p2, _) = decrypt_mstar_segment(&ct[32..], &key, &iv1).ok().unwrap();
    assert_eq!([p1, p2].concat(), plain);
    assert_eq!(decrypt_mstar_segment(&ct[..20], &key, &[0; 16]).err(), Some(ExtractError::InvalidCipherLength));
}

#[test]
fn segment_decryptor_matches_one_stream() {
    let key = [0x45u8; 32];
    let plain: Vec<u8> = (0..160u8).collect();
    let ct = cbc_encrypt_256(&key, &[0; 16], &plain);
    let mut d = SegmentDecryptor::new(key);
    let mut out = Vec::new();
    for seg in [&ct[..48], &ct[48..64], &ct[64..]] {
        out.extend_from_slice(&d.decrypt_segment(seg).unwrap());
    }
    assert_eq!(out, plain);
    assert_eq!(d.decrypt_segment(&[0u8; 17]), Err(ExtractError::InvalidCipherLength));
}

#[test]
fn checked_key_search_stops_at_malformed_key() {
    let right = [0x21u8; 32];
    let wrong = [0x22u8; 32];
    let sample = cbc_encrypt_256(&right, &[0; 16], &[b'#'; 0x80]);
    // a malformed key after the match is never reached
    let keys = vec![wrong.to_vec(), right.to_vec(), vec![1, 2, 3]];
    assert_eq!(find_mstar_key_checked(&sample, &keys), Ok(1));
    // one before the match stops the search
    let keys = vec![wrong.to_vec(), vec![], right.to_vec()];
    assert_eq!(find_mstar_key_checked(&sample, &keys), Err(ExtractError::InvalidKeyLength));
    // the length is checked before the sample is decrypted
    assert_eq!(find_mstar_key_checked(&sample[..5], &vec![vec![0u8; 31]]), Err(ExtractError::InvalidKeyLength));
    assert_eq!(find_mstar_key_checked(&sample[..5], &vec![right.to_vec()]), Err(ExtractError::InvalidCipherLength));
    assert_eq!(find_mstar_key_checked(&sample, &vec![wrong.to_vec()]), Err(ExtractError::NoMatchingKey));
}
