//! On-disk structures of DWCP update packages (all integers big-endian).

use vstd::prelude::*;

use crate::bytes::{be_u32_at, be_u64_at, read_array, read_be_u32, read_be_u64};
use crate::error::ExtractError;

verus! {

/// Size of one encrypted body block; the last block may be shorter.
pub const BLOCK_SIZE: usize = 0x100000;

/// Size of the plaintext header at the start of the file.
pub const HEADER_PLAINTEXT_SIZE: usize = 64;

/// Size of one metadata block of the encrypted header.
pub const METADATA_BLOCK_SIZE: usize = 48;

/// The plaintext header at the start of a DWCP file.
pub struct HeaderPlaintext {
    pub magic: [u8; 4],
    pub version: u32,
    pub file_size: u64,
    pub body_size: u64,
    pub attribute: u32,
    pub reserved: u32,
    pub system_software_version: [u32; 4],
    pub header_dec_iv: [u8; 16],
}

impl HeaderPlaintext {
    /// `self` is what the 64 bytes at the start of `s` encode.
    pub open spec fn encoded_in(self, s: Seq<u8>) -> bool {
        &&& s.len() >= 64
        &&& self.magic@ == s.subrange(0, 4)
        &&& self.version == be_u32_at(s, 4)
        &&& self.file_size == be_u64_at(s, 8)
        &&& self.body_size == be_u64_at(s, 16)
        &&& self.attribute == be_u32_at(s, 24)
        &&& self.reserved == be_u32_at(s, 28)
        &&& self.system_software_version@ == seq![
            be_u32_at(s, 32),
            be_u32_at(s, 36),
            be_u32_at(s, 40),
            be_u32_at(s, 44),
        ]
        &&& self.header_dec_iv@ == s.subrange(48, 64)
    }

    /// Reads the header from the start of `data`.
    pub fn from_bytes(data: &[u8]) -> (r: Result<HeaderPlaintext, ExtractError>)
        ensures
            match r {
                Ok(h) => h.encoded_in(data@),
                Err(e) => data@.len() < 64 && e == ExtractError::UnexpectedEof,
            },
    {
        if data.len() < HEADER_PLAINTEXT_SIZE {
            return Err(ExtractError::UnexpectedEof);
        }
        let v0 = read_be_u32(data, 32);
        let v1 = read_be_u32(data, 36);
        let v2 = read_be_u32(data, 40);
        let v3 = read_be_u32(data, 44);
        let system_software_version = [v0, v1, v2, v3];
        assert(system_software_version@ =~= seq![v0, v1, v2, v3]);
        Ok(HeaderPlaintext {
            magic: read_array::<4>(data, 0),
            version: read_be_u32(data, 4),
            file_size: read_be_u64(data, 8),
            body_size: read_be_u64(data, 16),
            attribute: read_be_u32(data, 24),
            reserved: read_be_u32(data, 28),
            system_software_version,
            header_dec_iv: read_array::<16>(data, 48),
        })
    }
}

/// Key, nonce and tag of one AES-GCM body block.
pub struct MetadataBlock {
    pub key: [u8; 16],
    pub nonce: [u8; 16],
    pub tag: [u8; 16],
}

impl MetadataBlock {
    /// `self` is what the 48 bytes at `off` in `s` encode.
    pub open spec fn encoded_at(self, s: Seq<u8>, off: int) -> bool {
        &&& 0 <= off
        &&& off + 48 <= s.len()
        &&& self.key@ == s.subrange(off, off + 16)
        &&& self.nonce@ == s.subrange(off + 16, off + 32)
        &&& self.tag@ == s.subrange(off + 32, off + 48)
    }

    /// Reads the metadata block at `off` in `data`.
    pub fn from_bytes(data: &[u8], off: usize) -> (r: Result<MetadataBlock, ExtractError>)
        ensures
            match r {
                Ok(m) => m.encoded_at(data@, off as int),
                Err(e) => off + 48 > data@.len() && e == ExtractError::UnexpectedEof,
            },
    {
        if off > data.len() || data.len() - off < METADATA_BLOCK_SIZE {
            return Err(ExtractError::UnexpectedEof);
        }
        Ok(MetadataBlock {
            key: read_array::<16>(data, off),
            nonce: read_array::<16>(data, off + 16),
            tag: read_array::<16>(data, off + 32),
        })
    }
}

} // verus!
