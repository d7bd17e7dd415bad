//! DWCP update packages: a plaintext header, an AES-128-CBC encrypted table of
//! per-block keys, and a body of AES-128-GCM blocks (16-byte nonces).

pub mod headers;

use vstd::prelude::*;

use crate::bytes::bytes_eq;
use crate::crypto::cbc::{cbc_decrypt, decrypt_aes128_cbc_nopad};
use crate::crypto::primitives::{aes128_gcm16_decrypt, aes128_gcm16_open};
use crate::error::ExtractError;
pub use headers::{
    HeaderPlaintext, MetadataBlock, BLOCK_SIZE, HEADER_PLAINTEXT_SIZE, METADATA_BLOCK_SIZE,
};

verus! {

/// The magic at the start of a DWCP file.
pub const DWCP_MAGIC: [u8; 4] = [0x44, 0x57, 0x43, 0x50];

/// Whether the first bytes of a file, as read, are the DWCP magic.
pub fn is_dwcp_file(header_magic: &[u8]) -> (r: bool)
    ensures
        r == (header_magic@ == DWCP_MAGIC@),
{
    bytes_eq(header_magic, &DWCP_MAGIC)
}

impl HeaderPlaintext {
    /// Only version 1 headers are understood.
    pub fn check_version(&self) -> (r: Result<(), ExtractError>)
        ensures
            r == (if self.version == 1 {
                Ok::<(), ExtractError>(())
            } else {
                Err(ExtractError::InvalidHeaderVersion)
            }),
    {
        if self.version != 1 {
            Err(ExtractError::InvalidHeaderVersion)
        } else {
            Ok(())
        }
    }
}

/// Where the encrypted header ends and how many body blocks follow.
pub struct DwcpLayout {
    /// Length of the encrypted metadata table that follows the plaintext header.
    pub enc_header_size: u64,
    /// Number of body blocks, one per metadata block.
    pub block_count: u64,
}

/// Size of the encrypted header: what the file holds besides the body, the
/// plaintext header (64 bytes), the header signature (64) and 32 more bytes.
pub open spec fn spec_enc_header_size(header: HeaderPlaintext) -> int {
    header.file_size - header.body_size - 160
}

/// Works out the encrypted header size and the number of body blocks; the
/// encrypted header must be a whole number of 48-byte metadata blocks.
pub fn dwcp_layout(header: &HeaderPlaintext) -> (r: Result<DwcpLayout, ExtractError>)
    requires
        header.file_size >= header.body_size + 160,
    ensures
        match r {
            Ok(l) => spec_enc_header_size(*header) % 48 == 0 && l.enc_header_size
                == spec_enc_header_size(*header) && l.block_count == spec_enc_header_size(*header)
                / 48,
            Err(e) => spec_enc_header_size(*header) % 48 != 0 && e
                == ExtractError::MisalignedEncryptedHeader,
        },
{
    let enc_header_size = header.file_size - header.body_size - 64 - 64 - 32;
    if enc_header_size % 48 != 0 {
        return Err(ExtractError::MisalignedEncryptedHeader);
    }
    Ok(DwcpLayout { enc_header_size, block_count: enc_header_size / 48 })
}

/// Size of body block `i`: a full block, but for the last one, which takes what
/// is left of the body modulo the block size.
pub open spec fn spec_dwcp_block_size(i: u64, block_count: u64, body_size: u64) -> usize {
    if i == block_count - 1 {
        (body_size % (BLOCK_SIZE as u64)) as usize
    } else {
        BLOCK_SIZE
    }
}

/// Size of body block `i` of `block_count`.
pub fn dwcp_block_size(i: u64, block_count: u64, body_size: u64) -> (r: usize)
    requires
        i < block_count,
    ensures
        r == spec_dwcp_block_size(i, block_count, body_size),
        r <= BLOCK_SIZE,
        i + 1 < block_count ==> r == 0x100000,
        i + 1 == block_count ==> r == body_size % 0x100000,
{
    if i == block_count - 1 {
        (body_size % 0x100000) as usize
    } else {
        BLOCK_SIZE
    }
}

/// Total size of the first `n` body blocks.
pub open spec fn dwcp_blocks_total(block_count: u64, body_size: u64, n: nat) -> int
    decreases n,
{
    if n == 0 {
        0
    } else {
        dwcp_blocks_total(block_count, body_size, (n - 1) as nat) + spec_dwcp_block_size(
            (n - 1) as u64,
            block_count,
            body_size,
        )
    }
}

/// Block size law: every body block but the last is 1 MiB (0x100000 bytes),
/// the last is the body size modulo 1 MiB, and when the body is not a whole
/// number of MiB and there is one block per started MiB, the blocks add up to
/// the body size.
pub proof fn law_dwcp_block_sizes(block_count: u64, body_size: u64)
    requires
        block_count >= 1,
    ensures
        forall|i: u64|
            i + 1 < block_count ==> #[trigger] spec_dwcp_block_size(i, block_count, body_size)
                == 0x100000,
        spec_dwcp_block_size((block_count - 1) as u64, block_count, body_size) == body_size
            % 0x100000,
        body_size % 0x100000 != 0 && block_count == body_size / 0x100000 + 1 ==> dwcp_blocks_total(
            block_count,
            body_size,
            block_count as nat,
        ) == body_size,
{
    let n = block_count as nat;
    assert forall|k: nat| k < n implies dwcp_blocks_total(block_count, body_size, k) == 0x100000
        * k by {
        lemma_dwcp_blocks_total_full(block_count, body_size, k);
    }
    if body_size % 0x100000 != 0 && block_count == body_size / 0x100000 + 1 {
        lemma_dwcp_blocks_total_full(block_count, body_size, (n - 1) as nat);
        assert(dwcp_blocks_total(block_count, body_size, n) == dwcp_blocks_total(
            block_count,
            body_size,
            (n - 1) as nat,
        ) + spec_dwcp_block_size((n - 1) as u64, block_count, body_size));
        assert(body_size == 0x100000 * (body_size / 0x100000) + body_size % 0x100000);
    }
}

/// The blocks before the last are full blocks.
proof fn lemma_dwcp_blocks_total_full(block_count: u64, body_size: u64, k: nat)
    requires
        k < block_count,
    ensures
        dwcp_blocks_total(block_count, body_size, k) == 0x100000 * k,
    decreases k,
{
    if k > 0 {
        lemma_dwcp_blocks_total_full(block_count, body_size, (k - 1) as nat);
    }
}

/// Reads the metadata blocks out of the decrypted encrypted header, one per
/// 48 bytes.
pub fn dwcp_metadata_blocks(dec_header: &[u8]) -> (r: Vec<MetadataBlock>)
    ensures
        r@.len() == dec_header@.len() / 48,
        forall|i: int| 0 <= i < r@.len() ==> #[trigger] r@[i].encoded_at(dec_header@, 48 * i),
{
    let count = dec_header.len() / METADATA_BLOCK_SIZE;
    let mut out: Vec<MetadataBlock> = Vec::new();
    let mut i: usize = 0;
    while i < count
        invariant
            count == dec_header.len() / 48,
            i <= count,
            out@.len() == i,
            forall|k: int| 0 <= k < i ==> #[trigger] out@[k].encoded_at(dec_header@, 48 * k),
        decreases count - i,
    {
        let m = match MetadataBlock::from_bytes(dec_header, i * METADATA_BLOCK_SIZE) {
            Ok(m) => m,
            Err(_) => {
                assert(false);
                return out;
            },
        };
        out.push(m);
        i += 1;
    }
    out
}

/// Decrypts one body block with its metadata: the tag is appended to the
/// ciphertext and the whole is opened with AES-128-GCM.
pub fn decrypt_dwcp_block(meta: &MetadataBlock, block: Vec<u8>) -> (r: Result<
    Vec<u8>,
    ExtractError,
>)
    ensures
        match r {
            Ok(p) => aes128_gcm16_open(meta.key@, meta.nonce@, block@ + meta.tag@) == Some(p@),
            Err(e) => aes128_gcm16_open(meta.key@, meta.nonce@, block@ + meta.tag@) is None && e
                == ExtractError::AuthenticationFailed,
        },
{
    let mut sealed = block;
    let ghost body = sealed@;
    let mut k: usize = 0;
    while k < 16
        invariant
            k <= 16,
            meta.tag@.len() == 16,
            sealed@ == body + meta.tag@.take(k as int),
        decreases 16 - k,
    {
        sealed.push(meta.tag[k]);
        k += 1;
        assert(meta.tag@.take(k as int) =~= meta.tag@.take((k - 1) as int).push(meta.tag@[k - 1]));
    }
    assert(meta.tag@.take(16) =~= meta.tag@);
    match aes128_gcm16_decrypt(&meta.key, &meta.nonce, sealed.as_slice()) {
        Some(p) => Ok(p),
        None => Err(ExtractError::AuthenticationFailed),
    }
}

/// The plaintext of the first `n` body blocks: block `i`, with the tag of
/// metadata block `i` appended, opened with that block's key and nonce.
pub open spec fn dwcp_body_plain(metas: Seq<MetadataBlock>, blocks: Seq<Seq<u8>>, n: nat) -> Seq<
    u8,
>
    decreases n,
{
    if n == 0 {
        Seq::empty()
    } else {
        let m = metas[n - 1];
        dwcp_body_plain(metas, blocks, (n - 1) as nat) + aes128_gcm16_open(
            m.key@,
            m.nonce@,
            blocks[n - 1] + m.tag@,
        ).unwrap()
    }
}

/// Decrypts the body of a DWCP file block after block.
pub struct DwcpBodyDecryptor {
    metas: Vec<MetadataBlock>,
    block_count: u64,
    body_size: u64,
    next: u64,
    consumed: Ghost<Seq<Seq<u8>>>,
    produced: Ghost<Seq<u8>>,
}

impl DwcpBodyDecryptor {
    /// The metadata blocks, one per body block.
    pub closed spec fn metadata(&self) -> Seq<MetadataBlock> {
        self.metas@
    }

    /// The number of body blocks.
    pub closed spec fn block_count(&self) -> u64 {
        self.block_count
    }

    /// The body size from the header.
    pub closed spec fn body_size(&self) -> u64 {
        self.body_size
    }

    /// The body blocks decrypted so far.
    pub closed spec fn consumed(&self) -> Seq<Seq<u8>> {
        self.consumed@
    }

    /// All plaintext returned so far.
    pub closed spec fn produced(&self) -> Seq<u8> {
        self.produced@
    }

    /// The body so far is made of blocks of the sizes `dwcp_block_size`
    /// gives, and the plaintext so far is their openings, in order.
    pub closed spec fn wf(&self) -> bool {
        &&& self.metas@.len() == self.block_count
        &&& self.next == self.consumed@.len()
        &&& self.consumed@.len() <= self.block_count
        &&& forall|i: int|
            0 <= i < self.consumed@.len() ==> (#[trigger] self.consumed@[i]).len()
                == spec_dwcp_block_size(i as u64, self.block_count, self.body_size)
        &&& self.produced@ == dwcp_body_plain(self.metas@, self.consumed@, self.consumed@.len())
    }

    /// Decrypts the encrypted header (AES-128-CBC under the PSP key and the
    /// header IV) and reads the metadata blocks out of it.
    pub fn new(
        header: &HeaderPlaintext,
        layout: &DwcpLayout,
        enc_header: &[u8],
        psp_key: &[u8; 16],
    ) -> (r: DwcpBodyDecryptor)
        requires
            enc_header@.len() == layout.enc_header_size,
            layout.enc_header_size == 48 * layout.block_count,
        ensures
            r.wf(),
            r.block_count() == layout.block_count,
            r.body_size() == header.body_size,
            r.consumed() == Seq::<Seq<u8>>::empty(),
            r.produced() == Seq::<u8>::empty(),
            r.metadata().len() == layout.block_count,
            forall|i: int|
                0 <= i < layout.block_count ==> (#[trigger] r.metadata()[i]).encoded_at(
                    cbc_decrypt(psp_key@, header.header_dec_iv@, enc_header@),
                    48 * i,
                ),
    {
        let dec = match decrypt_aes128_cbc_nopad(enc_header, psp_key, &header.header_dec_iv) {
            Ok(d) => d,
            Err(_) => {
                // whole metadata blocks are whole AES blocks
                assert(false);
                Vec::new()
            },
        };
        let metas = dwcp_metadata_blocks(dec.as_slice());
        let r = DwcpBodyDecryptor {
            metas,
            block_count: layout.block_count,
            body_size: header.body_size,
            next: 0,
            consumed: Ghost(Seq::empty()),
            produced: Ghost(Seq::empty()),
        };
        r
    }

    /// The size of the next body block, or nothing when all are done.
    pub fn next_block_size(&self) -> (r: Option<usize>)
        requires
            self.wf(),
        ensures
            match r {
                Some(size) => self.consumed().len() < self.block_count() && size
                    == spec_dwcp_block_size(
                    self.consumed().len() as u64,
                    self.block_count(),
                    self.body_size(),
                ),
                None => self.consumed().len() == self.block_count(),
            },
    {
        let i = self.consumed_count();
        if i < self.block_count {
            Some(dwcp_block_size(i, self.block_count, self.body_size))
        } else {
            None
        }
    }

    /// Decrypts the next body block. Body law: the plaintext returned so far
    /// is always the concatenation, in order, of the GCM openings of the
    /// blocks given so far, each of the size `dwcp_block_size` gives.
    pub fn decrypt_block(&mut self, block: Vec<u8>) -> (r: Result<Vec<u8>, ExtractError>)
        requires
            old(self).wf(),
            old(self).consumed().len() < old(self).block_count(),
            block@.len() == spec_dwcp_block_size(
                old(self).consumed().len() as u64,
                old(self).block_count(),
                old(self).body_size(),
            ),
        ensures
            final(self).wf(),
            final(self).metadata() == old(self).metadata(),
            final(self).block_count() == old(self).block_count(),
            final(self).body_size() == old(self).body_size(),
            final(self).produced() == dwcp_body_plain(
                final(self).metadata(),
                final(self).consumed(),
                final(self).consumed().len(),
            ),
            match r {
                Ok(p) => {
                    let m = old(self).metadata()[old(self).consumed().len() as int];
                    &&& aes128_gcm16_open(m.key@, m.nonce@, block@ + m.tag@) == Some(p@)
                    &&& final(self).consumed() == old(self).consumed().push(block@)
                    &&& final(self).produced() == old(self).produced() + p@
                },
                Err(e) => {
                    let m = old(self).metadata()[old(self).consumed().len() as int];
                    &&& aes128_gcm16_open(m.key@, m.nonce@, block@ + m.tag@) is None
                    &&& e == ExtractError::AuthenticationFailed
                    &&& final(self).consumed() == old(self).consumed()
                    &&& final(self).produced() == old(self).produced()
                },
            },
    {
        let i = self.consumed_count();
        assert(i < self.metas.len());
        let idx = i as usize;
        assert(idx == i);
        let ghost b = block@;
        let plain = match decrypt_dwcp_block(&self.metas[idx], block) {
            Ok(p) => p,
            Err(e) => {
                return Err(e);
            },
        };
        let ghost old_consumed = self.consumed@;
        let ghost new_consumed = old_consumed.push(b);
        proof {
            assert(new_consumed.drop_last() =~= old_consumed);
            assert forall|k: int| 0 <= k < new_consumed.len() implies (#[trigger] new_consumed[k]).len()
                == spec_dwcp_block_size(k as u64, self.block_count, self.body_size) by {
                if k < old_consumed.len() {
                    assert(new_consumed[k] == old_consumed[k]);
                }
            }
            assert(dwcp_body_plain(self.metas@, new_consumed, old_consumed.len()) == dwcp_body_plain(
                self.metas@,
                old_consumed,
                old_consumed.len(),
            )) by {
                lemma_dwcp_body_plain_prefix(self.metas@, old_consumed, new_consumed, old_consumed.len());
            }
            let m = self.metas@[idx as int];
            assert(new_consumed[old_consumed.len() as int] == b);
            assert(aes128_gcm16_open(m.key@, m.nonce@, b + m.tag@) == Some(plain@));
            assert(dwcp_body_plain(self.metas@, new_consumed, new_consumed.len()) == dwcp_body_plain(
                self.metas@,
                new_consumed,
                old_consumed.len(),
            ) + plain@);
        }
        self.next = i + 1;
        self.consumed = Ghost(new_consumed);
        self.produced = Ghost(self.produced@ + plain@);
        Ok(plain)
    }

    /// The number of body blocks decrypted so far.
    fn consumed_count(&self) -> (r: u64)
        requires
            self.wf(),
        ensures
            r == self.consumed().len(),
    {
        self.next
    }
}

/// The plaintext of the first `n` blocks depends on those blocks only.
proof fn lemma_dwcp_body_plain_prefix(
    metas: Seq<MetadataBlock>,
    a: Seq<Seq<u8>>,
    b: Seq<Seq<u8>>,
    n: nat,
)
    requires
        n <= a.len(),
        n <= b.len(),
        forall|i: int| 0 <= i < n ==> a[i] == b[i],
    ensures
        dwcp_body_plain(metas, a, n) == dwcp_body_plain(metas, b, n),
    decreases n,
{
    if n > 0 {
        lemma_dwcp_body_plain_prefix(metas, a, b, (n - 1) as nat);
        assert(a[n - 1] == b[n - 1]);
    }
}

} // verus!
