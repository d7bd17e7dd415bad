//! On-disk structures of the newer MStar secure images (little-endian).

use vstd::prelude::*;

use crate::bytes::{le_u32_at, read_array, read_le_u32};
use crate::error::ExtractError;

verus! {

/// Offset of the chunk information block in the image.
pub const CHUNK_INFO_OFFSET: usize = 0x500;

/// Size of the chunk information block.
pub const CHUNK_INFO_SIZE: usize = 0x80;

/// Marker at the start of the chunk information block.
pub const CHUNK_ID: [u8; 8] = [0x4d, 0x54, 0x4b, 0x2e, 0x2e, 0x2e, 0x2e, 0x2e];

/// Marker at the end of the chunk information block.
pub const CHUNK_END: [u8; 8] = [0x2e, 0x2e, 0x2e, 0x2e, 0x2e, 0x6d, 0x74, 0x6b];

/// The chunk information block: where the encrypted data lies and how it is
/// cut into segments.
pub struct ChunkInfo {
    pub chunk_id_head: [u8; 8],
    pub segment_size: u32,
    pub file_data_offset: u32,
    pub file_data_len: u32,
    pub file_hash_offset: u32,
    pub file_hash_len: u32,
    pub download_buf: u32,
    pub reserved: [u8; 88],
    pub chunk_id_end: [u8; 8],
}

impl ChunkInfo {
    /// `self` is what the 128 bytes at the start of `s` encode.
    pub open spec fn encoded_in(self, s: Seq<u8>) -> bool {
        &&& s.len() >= 128
        &&& self.chunk_id_head@ == s.subrange(0, 8)
        &&& self.segment_size == le_u32_at(s, 8)
        &&& self.file_data_offset == le_u32_at(s, 12)
        &&& self.file_data_len == le_u32_at(s, 16)
        &&& self.file_hash_offset == le_u32_at(s, 20)
        &&& self.file_hash_len == le_u32_at(s, 24)
        &&& self.download_buf == le_u32_at(s, 28)
        &&& self.reserved@ == s.subrange(32, 120)
        &&& self.chunk_id_end@ == s.subrange(120, 128)
    }

    /// Reads the chunk information from the start of `data`.
    pub fn from_bytes(data: &[u8]) -> (r: Result<ChunkInfo, ExtractError>)
        ensures
            match r {
                Ok(c) => c.encoded_in(data@),
                Err(e) => data@.len() < 128 && e == ExtractError::UnexpectedEof,
            },
    {
        if data.len() < CHUNK_INFO_SIZE {
            return Err(ExtractError::UnexpectedEof);
        }
        Ok(ChunkInfo {
            chunk_id_head: read_array::<8>(data, 0),
            segment_size: read_le_u32(data, 8),
            file_data_offset: read_le_u32(data, 12),
            file_data_len: read_le_u32(data, 16),
            file_hash_offset: read_le_u32(data, 20),
            file_hash_len: read_le_u32(data, 24),
            download_buf: read_le_u32(data, 28),
            reserved: read_array::<88>(data, 32),
            chunk_id_end: read_array::<8>(data, 120),
        })
    }
}

} // verus!
