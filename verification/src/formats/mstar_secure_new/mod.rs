//! Newer MStar secure images: the data region is AES-256-CBC encrypted in
//! segments, each chained to the last ciphertext block of the one before.

pub mod headers;

use vstd::prelude::*;

use crate::bytes::{all_ascii, bytes_eq, is_ascii, read_array};
use crate::crypto::cbc::{cbc_decrypt, decrypt_aes256_cbc_nopad, lemma_cbc_decrypt_split};
use crate::error::ExtractError;
pub use headers::{ChunkInfo, CHUNK_END, CHUNK_ID, CHUNK_INFO_OFFSET, CHUNK_INFO_SIZE};

verus! {

/// Offset of the chunk end marker in the image.
pub const CHUNK_END_OFFSET: usize = 0x500 + 120;

/// Size of the sample decrypted to recognise the right key.
pub const KEY_SAMPLE_SIZE: usize = 0x80;

/// Whether the 8 bytes read at the chunk information offset and at the chunk
/// end offset are the two chunk markers.
pub fn is_mstar_secure_new_file(chunk_id_head: &[u8], chunk_id_end: &[u8]) -> (r: bool)
    ensures
        r == (chunk_id_head@ == CHUNK_ID@ && chunk_id_end@ == CHUNK_END@),
{
    bytes_eq(chunk_id_head, &CHUNK_ID) && bytes_eq(chunk_id_end, &CHUNK_END)
}

/// The all-zero IV that the first segment and the key sample use.
pub open spec fn zero_iv() -> Seq<u8> {
    Seq::new(16, |i: int| 0u8)
}

/// `key` decrypts the sample (the start of the data region) to ASCII text.
pub open spec fn key_fits_sample(sample: Seq<u8>, key: Seq<u8>) -> bool {
    all_ascii(cbc_decrypt(key, zero_iv(), sample))
}

/// Key choice law: a key fits exactly when every byte of the zero-IV CBC
/// decryption of the sample is below 128, the ASCII range,
/// control characters included.
pub proof fn law_key_fits_sample(sample: Seq<u8>, key: Seq<u8>)
    ensures
        zero_iv() == Seq::new(16, |j: int| 0u8),
        key_fits_sample(sample, key) == (forall|k: int|
            0 <= k < cbc_decrypt(key, zero_iv(), sample).len() ==> #[trigger] cbc_decrypt(
                key,
                zero_iv(),
                sample,
            )[k] < 128),
{
    assert(zero_iv() =~= Seq::new(16, |j: int| 0u8));
}

/// No key before index `j` fits the sample.
pub open spec fn no_fit_before(sample: Seq<u8>, keys: Seq<Vec<u8>>, j: int) -> bool {
    forall|k: int| 0 <= k < j ==> !key_fits_sample(sample, #[trigger] keys[k]@)
}

/// Whether `key` decrypts the sample to ASCII text; a sample that is not whole
/// AES blocks cannot be decrypted.
pub fn mstar_key_fits(sample: &[u8], key: &[u8; 32]) -> (r: Result<bool, ExtractError>)
    ensures
        match r {
            Ok(b) => sample@.len() % 16 == 0 && b == key_fits_sample(sample@, key@) && b == (
            forall|k: int|
                0 <= k < cbc_decrypt(key@, zero_iv(), sample@).len() ==> #[trigger] cbc_decrypt(
                    key@,
                    zero_iv(),
                    sample@,
                )[k] < 128),
            Err(e) => sample@.len() % 16 != 0 && e == ExtractError::InvalidCipherLength,
        },
{
    proof {
        law_key_fits_sample(sample@, key@);
    }
    let zero = [0u8; 16];
    assert(zero@ =~= zero_iv());
    match decrypt_aes256_cbc_nopad(sample, key, &zero) {
        Ok(dec) => Ok(is_ascii(dec.as_slice())),
        Err(e) => Err(e),
    }
}

/// Picks the first candidate key that decrypts the sample to ASCII text.
/// A sample that is not whole AES blocks fails on the first candidate; when no
/// candidate fits, no key matches.
pub fn find_mstar_key(sample: &[u8], keys: &[Vec<u8>]) -> (r: Result<usize, ExtractError>)
    requires
        keys@.len() > 0 ==> keys@[0]@.len() == 32,
        sample@.len() % 16 == 0 ==> forall|j: int|
            0 <= j < keys@.len() && no_fit_before(sample@, keys@, j) ==> (#[trigger] keys@[j])@.len()
                == 32,
    ensures
        match r {
            Ok(i) => sample@.len() % 16 == 0 && i < keys@.len() && key_fits_sample(
                sample@,
                keys@[i as int]@,
            ) && no_fit_before(sample@, keys@, i as int),
            Err(e) => (keys@.len() > 0 && sample@.len() % 16 != 0 && e
                == ExtractError::InvalidCipherLength) || ((keys@.len() == 0 || (sample@.len() % 16
                == 0 && no_fit_before(sample@, keys@, keys@.len() as int))) && e
                == ExtractError::NoMatchingKey),
        },
{
    let mut i: usize = 0;
    while i < keys.len()
        invariant
            i <= keys@.len(),
            i > 0 ==> sample@.len() % 16 == 0,
            no_fit_before(sample@, keys@, i as int),
            keys@.len() > 0 ==> keys@[0]@.len() == 32,
            sample@.len() % 16 == 0 ==> forall|j: int|
                0 <= j < keys@.len() && no_fit_before(sample@, keys@, j) ==> (#[trigger] keys@[j])@.len()
                    == 32,
        decreases keys@.len() - i,
    {
        let candidate = keys[i].as_slice();
        assert(candidate@ == keys@[i as int]@);
        let ckey = read_array::<32>(candidate, 0);
        assert(candidate@.subrange(0, 32) =~= candidate@);
        let fits = match mstar_key_fits(sample, &ckey) {
            Ok(b) => b,
            Err(e) => {
                return Err(e);
            },
        };
        if fits {
            return Ok(i);
        }
        i += 1;
    }
    Err(ExtractError::NoMatchingKey)
}

/// Every key before index `j` is 32 bytes long.
pub open spec fn all_keys_sized_before(keys: Seq<Vec<u8>>, j: int) -> bool {
    forall|k: int| 0 <= k < j ==> (#[trigger] keys[k])@.len() == 32
}

/// Picks the first candidate key that decrypts the sample to ASCII text,
/// checking each candidate's length when it is reached: a candidate that is
/// not 32 bytes long stops the search.
pub fn find_mstar_key_checked(sample: &[u8], keys: &[Vec<u8>]) -> (r: Result<
    usize,
    ExtractError,
>)
    ensures
        match r {
            Ok(i) => sample@.len() % 16 == 0 && i < keys@.len() && all_keys_sized_before(
                keys@,
                i + 1,
            ) && key_fits_sample(sample@, keys@[i as int]@) && no_fit_before(
                sample@,
                keys@,
                i as int,
            ),
            Err(ExtractError::InvalidKeyLength) => exists|j: int|
                0 <= j < keys@.len() && (#[trigger] keys@[j])@.len() != 32
                    && all_keys_sized_before(keys@, j) && (j > 0 ==> sample@.len() % 16 == 0)
                    && no_fit_before(sample@, keys@, j),
            Err(ExtractError::InvalidCipherLength) => keys@.len() > 0 && keys@[0]@.len() == 32
                && sample@.len() % 16 != 0,
            Err(ExtractError::NoMatchingKey) => all_keys_sized_before(keys@, keys@.len() as int)
                && (keys@.len() == 0 || (sample@.len() % 16 == 0 && no_fit_before(
                sample@,
                keys@,
                keys@.len() as int,
            ))),
            Err(_) => false,
        },
{
    let mut j: usize = 0;
    while j < keys.len() && keys[j].len() == 32
        invariant
            j <= keys@.len(),
            all_keys_sized_before(keys@, j as int),
        decreases keys@.len() - j,
    {
        j += 1;
    }
    let prefix = vstd::slice::slice_subrange(keys, 0, j);
    assert(forall|k: int| 0 <= k < j ==> prefix@[k] == keys@[k]);
    assert forall|k: int| 0 <= k <= j implies no_fit_before(sample@, prefix@, k) == no_fit_before(
        sample@,
        keys@,
        k,
    ) by {
        assert(forall|m: int| 0 <= m < k ==> prefix@[m] == keys@[m]);
    }
    match find_mstar_key(sample, prefix) {
        Ok(i) => {
            assert(prefix@[i as int] == keys@[i as int]);
            Ok(i)
        },
        Err(ExtractError::NoMatchingKey) => {
            if j < keys.len() {
                assert(keys@[j as int]@.len() != 32);
                Err(ExtractError::InvalidKeyLength)
            } else {
                Err(ExtractError::NoMatchingKey)
            }
        },
        Err(e) => {
            assert(prefix@[0] == keys@[0]);
            Err(e)
        },
    }
}

/// Number of segments: the data length divided by the segment size, rounded up.
pub open spec fn spec_segment_count(info: ChunkInfo) -> int {
    (info.file_data_len + info.segment_size - 1) / (info.segment_size as int)
}

/// Number of segments the data region is cut into.
pub fn mstar_segment_count(info: &ChunkInfo) -> (r: u32)
    requires
        info.segment_size > 0,
        info.file_data_len + info.segment_size <= u32::MAX,
    ensures
        r == spec_segment_count(*info),
        r * info.segment_size >= info.file_data_len,
        info.file_data_len > 0 ==> (r - 1) * info.segment_size < info.file_data_len,
{
    proof {
        law_mstar_segment_count(*info);
    }
    (info.file_data_len + info.segment_size - 1) / info.segment_size
}

/// Segment count law: the count is the data length divided by the segment
/// size, rounded up: the segments cover the data, and without the last one
/// they would not.
pub proof fn law_mstar_segment_count(info: ChunkInfo)
    requires
        info.segment_size > 0,
    ensures
        spec_segment_count(info) * info.segment_size >= info.file_data_len,
        info.file_data_len > 0 ==> (spec_segment_count(info) - 1) * info.segment_size
            < info.file_data_len,
{
    let s = info.segment_size as int;
    let l = info.file_data_len as int;
    let c = spec_segment_count(info);
    vstd::arithmetic::div_mod::lemma_fundamental_div_mod(l + s - 1, s);
    assert(l + s - 1 == s * c + (l + s - 1) % s);
    assert(0 <= (l + s - 1) % s < s) by {
        vstd::arithmetic::div_mod::lemma_mod_bound(l + s - 1, s);
    }
    assert(c * s == s * c) by (nonlinear_arith);
    assert((c - 1) * s == c * s - s) by (nonlinear_arith);
}

/// Size of segment `i`: a whole segment, but for the last one, which takes the
/// data length modulo the segment size.
pub open spec fn spec_segment_size(i: u32, count: u32, info: ChunkInfo) -> u32 {
    if i == count - 1 {
        info.file_data_len % info.segment_size
    } else {
        info.segment_size
    }
}

/// Size of segment `i` of `count`.
pub fn mstar_segment_size(i: u32, count: u32, info: &ChunkInfo) -> (r: u32)
    requires
        i < count,
        info.segment_size > 0,
    ensures
        r == spec_segment_size(i, count, *info),
        i + 1 < count ==> r == info.segment_size,
        i + 1 == count ==> r == info.file_data_len % info.segment_size,
{
    if i == count - 1 {
        info.file_data_len % info.segment_size
    } else {
        info.segment_size
    }
}

/// Decrypts one segment with AES-256-CBC under `iv`; also returns the IV of the
/// next segment, the last 16 bytes of this segment's ciphertext.
pub fn decrypt_mstar_segment(segment: &[u8], key: &[u8; 32], iv: &[u8; 16]) -> (r: Result<
    (Vec<u8>, [u8; 16]),
    ExtractError,
>)
    requires
        segment@.len() >= 16,
    ensures
        match r {
            Ok((plain, next_iv)) => segment@.len() % 16 == 0 && plain@ == cbc_decrypt(
                key@,
                iv@,
                segment@,
            ) && next_iv@ == segment@.subrange(segment@.len() - 16, segment@.len() as int),
            Err(e) => segment@.len() % 16 != 0 && e == ExtractError::InvalidCipherLength,
        },
{
    let next_iv = read_array::<16>(segment, segment.len() - 16);
    match decrypt_aes256_cbc_nopad(segment, key, iv) {
        Ok(plain) => Ok((plain, next_iv)),
        Err(e) => Err(e),
    }
}

/// Decrypts the data region segment after segment, carrying the IV from each
/// segment to the next.
pub struct SegmentDecryptor {
    key: [u8; 32],
    iv: [u8; 16],
    consumed: Ghost<Seq<u8>>,
    produced: Ghost<Seq<u8>>,
}

impl SegmentDecryptor {
    /// The AES-256 key in use.
    pub closed spec fn key(&self) -> Seq<u8> {
        self.key@
    }

    /// All ciphertext decrypted so far.
    pub closed spec fn consumed(&self) -> Seq<u8> {
        self.consumed@
    }

    /// All plaintext returned so far.
    pub closed spec fn produced(&self) -> Seq<u8> {
        self.produced@
    }

    /// The IV for the next segment is the last ciphertext block so far, or zero
    /// before the first segment; the plaintext so far is the decryption of
    /// the ciphertext so far.
    pub closed spec fn wf(&self) -> bool {
        &&& self.consumed@.len() % 16 == 0
        &&& self.consumed@.len() == 0 ==> self.iv@ == zero_iv()
        &&& self.consumed@.len() > 0 ==> self.iv@ == self.consumed@.subrange(
            self.consumed@.len() - 16,
            self.consumed@.len() as int,
        )
        &&& self.produced@ == cbc_decrypt(self.key@, zero_iv(), self.consumed@)
    }

    /// A decryptor that has seen nothing yet.
    pub fn new(key: [u8; 32]) -> (r: SegmentDecryptor)
        ensures
            r.wf(),
            r.key() == key@,
            r.consumed() == Seq::<u8>::empty(),
            r.produced() == Seq::<u8>::empty(),
    {
        let iv = [0u8; 16];
        assert(iv@ =~= zero_iv());
        let r = SegmentDecryptor {
            key,
            iv,
            consumed: Ghost(Seq::empty()),
            produced: Ghost(Seq::empty()),
        };
        assert(cbc_decrypt(key@, zero_iv(), Seq::<u8>::empty()) =~= Seq::<u8>::empty());
        r
    }

    /// Decrypts the next segment. Segment chaining law: whatever the segments,
    /// all plaintext returned so far is the AES-256-CBC decryption, under a
    /// zero IV, of all segments given so far, as if they were one stream.
    pub fn decrypt_segment(&mut self, segment: &[u8]) -> (r: Result<Vec<u8>, ExtractError>)
        requires
            old(self).wf(),
            segment@.len() >= 16,
        ensures
            final(self).wf(),
            final(self).key() == old(self).key(),
            final(self).produced() == cbc_decrypt(
                final(self).key(),
                zero_iv(),
                final(self).consumed(),
            ),
            match r {
                Ok(p) => segment@.len() % 16 == 0 && final(self).consumed() == old(self).consumed()
                    + segment@ && final(self).produced() == old(self).produced() + p@,
                Err(e) => segment@.len() % 16 != 0 && e == ExtractError::InvalidCipherLength
                    && final(self).consumed() == old(self).consumed() && final(self).produced()
                    == old(self).produced(),
            },
    {
        let (plain, next_iv) = match decrypt_mstar_segment(segment, &self.key, &self.iv) {
            Ok(x) => x,
            Err(e) => {
                return Err(e);
            },
        };
        let ghost c = self.consumed@;
        let ghost seg = segment@;
        proof {
            if c.len() == 0 {
                assert(c + seg =~= seg);
            } else {
                lemma_cbc_decrypt_split(self.key@, zero_iv(), c, seg);
            }
            assert((c + seg).subrange((c + seg).len() - 16, (c + seg).len() as int) =~= seg.subrange(
                seg.len() - 16,
                seg.len() as int,
            ));
        }
        self.iv = next_iv;
        self.consumed = Ghost(c + seg);
        self.produced = Ghost(self.produced@ + plain@);
        Ok(plain)
    }
}


/// Total size of the first `n` segments of `count`.
pub open spec fn mstar_segments_total(count: u32, info: ChunkInfo, n: nat) -> int
    decreases n,
{
    if n == 0 {
        0
    } else {
        mstar_segments_total(count, info, (n - 1) as nat) + spec_segment_size(
            (n - 1) as u32,
            count,
            info,
        )
    }
}

/// Segment size law: every segment but the last has the segment size, the
/// last has the data length modulo the segment size, and when the data length
/// is not a multiple of the segment size the segments of the rounded-up count
/// add up to the data length.
pub proof fn law_mstar_segment_sizes(count: u32, info: ChunkInfo)
    requires
        count >= 1,
        info.segment_size > 0,
    ensures
        forall|i: u32| i + 1 < count ==> #[trigger] spec_segment_size(i, count, info)
            == info.segment_size,
        spec_segment_size((count - 1) as u32, count, info) == info.file_data_len
            % info.segment_size,
        info.file_data_len % info.segment_size != 0 && count == spec_segment_count(info)
            ==> mstar_segments_total(count, info, count as nat) == info.file_data_len,
{
    let s = info.segment_size as int;
    let l = info.file_data_len as int;
    if l % s != 0 && count == spec_segment_count(info) {
        lemma_mstar_segments_total_full(count, info, (count - 1) as nat);
        vstd::arithmetic::div_mod::lemma_fundamental_div_mod(l, s);
        vstd::arithmetic::div_mod::lemma_fundamental_div_mod(l + s - 1, s);
        vstd::arithmetic::div_mod::lemma_mod_bound(l, s);
        vstd::arithmetic::div_mod::lemma_mod_bound(l + s - 1, s);
        let q = l / s;
        let r = l % s;
        assert(l + s - 1 == (q + 1) * s + (r - 1)) by (nonlinear_arith)
            requires
                l == s * q + r,
        ;
        vstd::arithmetic::div_mod::lemma_fundamental_div_mod_converse(l + s - 1, s, q + 1, r - 1);
        assert(count == q + 1);
        assert(mstar_segments_total(count, info, count as nat) == mstar_segments_total(
            count,
            info,
            (count - 1) as nat,
        ) + spec_segment_size((count - 1) as u32, count, info));
        assert(mstar_segments_total(count, info, (count - 1) as nat) == s * q);
    }
}

/// The segments before the last are whole segments.
proof fn lemma_mstar_segments_total_full(count: u32, info: ChunkInfo, k: nat)
    requires
        k < count,
    ensures
        mstar_segments_total(count, info, k) == info.segment_size * k,
    decreases k,
{
    if k > 0 {
        lemma_mstar_segments_total_full(count, info, (k - 1) as nat);
        assert((k - 1) as u32 != count - 1);
        assert(spec_segment_size((k - 1) as u32, count, info) == info.segment_size);
        assert(mstar_segments_total(count, info, k) == mstar_segments_total(
            count,
            info,
            (k - 1) as nat,
        ) + info.segment_size);
        let s = info.segment_size as int;
        assert(s * (k as int) == s * (k - 1) + s) by (nonlinear_arith);
    } else {
        assert(info.segment_size * k == 0) by (nonlinear_arith)
            requires
                k == 0,
        ;
    }
}

} // verus!
