use aes::cipher::BlockEncrypt;
use aes_gcm::aead::{Aead, KeyInit};
use firmware_formats::error::ExtractError;
use firmware_formats::formats::dwcp::{
    decrypt_dwcp_block, dwcp_block_size, DwcpBodyDecryptor, dwcp_layout, dwcp_metadata_blocks, is_dwcp_file,
    HeaderPlaintext, MetadataBlock, BLOCK_SIZE,
};

type Gcm16 = aes_gcm::AesGcm<aes_gcm::aes::Aes128, aes::cipher::consts::U16>;

fn header_bytes(version: u32, file_size: u64, body_size: u64) -> Vec<u8> {
    let mut v = b"DWCP".to_vec();
    v.extend_from_slice(&version.to_be_bytes());
    v.extend_from_slice(&file_size.to_be_bytes());
    v.extend_from_slice(&body_size.to_be_bytes());
    v.extend_from_slice(&0x11223344u32.to_be_bytes());
    v.extend_from_slice(&0u32.to_be_bytes());
    for x in [3u32, 1, 4, 1] {
        v.extend_from_slice(&x.to_be_bytes());
    }
    v.extend_from_slice(&[0xA5; 16]);
    v
}

#[test]
fn dwcp_magic_detection() {
    assert!(is_dwcp_file(b"DWCP"));
    assert!(!is_dwcp_file(b"DWCQ"));
    assert!(!is_dwcp_file(b"DWC"));
    assert!(!is_dwcp_file(b""));
}

#[test]
fn header_fields_are_big_endian() {
    let bytes = header_bytes(1, 0x0102030405060708, 0x1000);
    let h = HeaderPlaintext::from_bytes(&bytes).ok().unwrap();
    assert_eq!(h.magic, *b"DWCP");
    assert_eq!(h.version, 1);
    assert_eq!(h.file_size, 0x0102030405060708);
    assert_eq!(h.body_size, 0x1000);
    assert_eq!(h.attribute, 0x11223344);
    assert_eq!(h.system_software_version, [3, 1, 4, 1]);
    assert_eq!(h.header_dec_iv, [0xA5; 16]);
    assert!(h.check_version().is_ok());
}

#[test]
fn header_too_short() {
    let bytes = header_bytes(1, 0, 0);
    assert!(matches!(HeaderPlaintext::from_bytes(&bytes[..63]), Err(ExtractError::UnexpectedEof)));
}

#[test]
fn header_wrong_version() {
    let h = HeaderPlaintext::from_bytes(&header_bytes(2, 0, 0)).ok().unwrap();
    assert_eq!(h.check_version(), Err(ExtractError::InvalidHeaderVersion));
}

#[test]
fn layout_counts_metadata_blocks() {
    // 3 metadata blocks of 48 bytes besides header (64), signature (64) and 32 bytes
    let body = 2 * BLOCK_SIZE as u64 + 5;
    let h = HeaderPlaintext::from_bytes(&header_bytes(1, body + 160 + 144, body)).ok().unwrap();
    let l = dwcp_layout(&h).ok().unwrap();
    assert_eq!(l.enc_header_size, 144);
    assert_eq!(l.block_count, 3);
}

#[test]
fn layout_rejects_partial_metadata_block() {
    let h = HeaderPlaintext::from_bytes(&header_bytes(1, 100 + 160 + 47, 100)).ok().unwrap();
    assert!(matches!(dwcp_layout(&h), Err(ExtractError::MisalignedEncryptedHeader)));
}

#[test]
fn block_sizes() {
    let body = 2 * BLOCK_SIZE as u64 + 5;
    assert_eq!(dwcp_block_size(0, 3, body), BLOCK_SIZE);
    assert_eq!(dwcp_block_size(1, 3, body), BLOCK_SIZE);
    assert_eq!(dwcp_block_size(2, 3, body), 5);
    // a body of whole blocks leaves an empty last block
    assert_eq!(dwcp_block_size(1, 2, 2 * BLOCK_SIZE as u64), 0);
}

#[test]
fn metadata_blocks_are_read_in_order() {
    let mut dec = Vec::new();
    for i in 0..2u8 {
        dec.extend_from_slice(&[i; 16]);
        dec.extend_from_slice(&[i + 10; 16]);
        dec.extend_from_slice(&[i + 20; 16]);
    }
    dec.extend_from_slice(&[0xFF; 10]);
    let metas = dwcp_metadata_blocks(&dec);
    assert_eq!(metas.len(), 2);
    assert_eq!(metas[1].key, [1; 16]);
    assert_eq!(metas[1].nonce, [11; 16]);
    assert_eq!(metas[1].tag, [21; 16]);
    assert!(MetadataBlock::from_bytes(&dec, 100).is_err());
}

#[test]
fn gcm_block_roundtrip() {
    let key = [0x42u8; 16];
    let nonce = [0x17u8; 16];
    let cipher = Gcm16::new(aes::cipher::generic_array::GenericArray::from_slice(&key));
    let plain = b"block of the OTA zip".to_vec();
    let sealed = cipher
        .encrypt(aes::cipher::generic_array::GenericArray::from_slice(&nonce), plain.as_slice())
        .unwrap();
    let (ct, tag) = sealed.split_at(sealed.len() - 16);
    let meta = MetadataBlock { key, nonce, tag: tag.try_into().unwrap() };
    assert_eq!(decrypt_dwcp_block(&meta, ct.to_vec()), Ok(plain));
    let mut bad = ct.to_vec();
    bad[0] ^= 1;
    assert_eq!(decrypt_dwcp_block(&meta, bad), Err(ExtractError::AuthenticationFailed));
}

fn cbc_encrypt_128(key: &[u8; 16], iv: &[u8; 16], plain: &[u8]) -> Vec<u8> {
    let cipher = aes::Aes128::new(key.into());
    let mut prev = *iv;
    let mut out = Vec::new();
    for chunk in plain.chunks(16) {
        let mut block = aes::Block::default();
        for j in 0..16 {
            block[j] = chunk[j] ^ prev[j];
        }
        cipher.encrypt_block(&mut block);
        prev.copy_from_slice(&block);
        out.extend_from_slice(&block);
    }
    out
}

#[test]
fn body_decryptor_opens_blocks_in_order() {
    let psp_key = [0x77u8; 16];
    let body_size = BLOCK_SIZE as u64 + 7;
    let mut header = header_bytes(1, body_size + 160 + 96, body_size);
    header[48..64].copy_from_slice(&[0x0F; 16]);
    let header = HeaderPlaintext::from_bytes(&header).ok().unwrap();
    let layout = dwcp_layout(&header).ok().unwrap();
    assert_eq!(layout.block_count, 2);

    let plains = [vec![0x31u8; BLOCK_SIZE], b"the end".to_vec()];
    let mut table = Vec::new();
    let mut blocks = Vec::new();
    for (i, plain) in plains.iter().enumerate() {
        let key = [i as u8 + 1; 16];
        let nonce = [i as u8 + 100; 16];
        let sealed = Gcm16::new(aes::cipher::generic_array::GenericArray::from_slice(&key))
            .encrypt(aes::cipher::generic_array::GenericArray::from_slice(&nonce), plain.as_slice())
            .unwrap();
        let (ct, tag) = sealed.split_at(sealed.len() - 16);
        table.extend_from_slice(&key);
        table.extend_from_slice(&nonce);
        table.extend_from_slice(tag);
        blocks.push(ct.to_vec());
    }
    let enc_header = cbc_encrypt_128(&psp_key, &[0x0F; 16], &table);

    let mut body = DwcpBodyDecryptor::new(&header, &layout, &enc_header, &psp_key);
    let mut out = Vec::new();
    let mut sizes = Vec::new();
    let mut k = 0;
    while let Some(size) = body.next_block_size() {
        sizes.push(size);
        out.extend_from_slice(&body.decrypt_block(blocks[k].clone()).unwrap());
        k += 1;
    }
    assert_eq!(sizes, vec![BLOCK_SIZE, 7]);
    assert_eq!(out, plains.concat());
}

#[test]
fn body_decryptor_rejects_tampered_block() {
    let psp_key = [0x11u8; 16];
    let header = HeaderPlaintext::from_bytes(&header_bytes(1, 3 + 160 + 48, 3)).ok().unwrap();
    let layout = dwcp_layout(&header).ok().unwrap();
    let enc_header = cbc_encrypt_128(&psp_key, &[0xA5; 16], &[0u8; 48]);
    let mut body = DwcpBodyDecryptor::new(&header, &layout, &enc_header, &psp_key);
    assert_eq!(body.next_block_size(), Some(3));
    assert_eq!(body.decrypt_block(vec![1, 2, 3]), Err(ExtractError::AuthenticationFailed));
    assert_eq!(body.next_block_size(), Some(3));
}
