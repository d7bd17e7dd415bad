//! AES decryption in CBC mode, with and without PKCS#7 padding.

use vstd::prelude::*;

use crate::crypto::primitives::{
    aes128_decrypt_block, aes128_decrypt_blocks, aes256_decrypt_block, aes256_decrypt_blocks,
    block_at,
};
use crate::error::ExtractError;

verus! {

/// AES decryption of one block; the key length picks AES-128 or AES-256.
pub open spec fn aes_decrypt_block(key: Seq<u8>, block: Seq<u8>) -> Seq<u8> {
    if key.len() == 32 {
        aes256_decrypt_block(key, block)
    } else {
        aes128_decrypt_block(key, block)
    }
}

/// Byte-wise exclusive or of two equally long byte strings.
pub open spec fn xor_bytes(a: Seq<u8>, b: Seq<u8>) -> Seq<u8> {
    Seq::new(a.len(), |j: int| a[j] ^ b[j])
}

/// The block that CBC chains into block `i`: the IV for the first block, the
/// previous ciphertext block otherwise.
pub open spec fn cbc_prev(iv: Seq<u8>, data: Seq<u8>, i: int) -> Seq<u8> {
    if i == 0 {
        iv
    } else {
        block_at(data, i - 1)
    }
}

/// The plaintext of the first `n` CBC blocks of `data`.
pub open spec fn cbc_blocks(key: Seq<u8>, iv: Seq<u8>, data: Seq<u8>, n: nat) -> Seq<u8>
    decreases n,
{
    if n == 0 {
        Seq::empty()
    } else {
        cbc_blocks(key, iv, data, (n - 1) as nat) + xor_bytes(
            aes_decrypt_block(key, block_at(data, n - 1)),
            cbc_prev(iv, data, n - 1),
        )
    }
}

/// CBC decryption of all whole blocks of `data`.
pub open spec fn cbc_decrypt(key: Seq<u8>, iv: Seq<u8>, data: Seq<u8>) -> Seq<u8> {
    cbc_blocks(key, iv, data, data.len() / 16)
}

/// Unpadded CBC decryption: refused unless `data` is whole blocks.
pub open spec fn cbc_nopad_result(key: Seq<u8>, iv: Seq<u8>, data: Seq<u8>) -> Result<
    Seq<u8>,
    ExtractError,
> {
    if data.len() % 16 != 0 {
        Err(ExtractError::InvalidCipherLength)
    } else {
        Ok(cbc_decrypt(key, iv, data))
    }
}

/// PKCS#7 padding: the last byte `n` is between 1 and 16 and the last `n`
/// bytes all equal `n`.
pub open spec fn pkcs7_valid(p: Seq<u8>) -> bool {
    &&& p.len() > 0
    &&& 1 <= p.last() <= 16
    &&& p.last() <= p.len()
    &&& forall|k: int| p.len() - p.last() <= k < p.len() ==> p[k] == p.last()
}

/// `p` without its PKCS#7 padding.
pub open spec fn pkcs7_strip(p: Seq<u8>) -> Seq<u8> {
    p.take(p.len() - p.last())
}

/// Padded CBC decryption: whole blocks are needed, then valid padding.
pub open spec fn cbc_pkcs7_result(key: Seq<u8>, iv: Seq<u8>, data: Seq<u8>) -> Result<
    Seq<u8>,
    ExtractError,
> {
    if data.len() % 16 != 0 {
        Err(ExtractError::InvalidCipherLength)
    } else if pkcs7_valid(cbc_decrypt(key, iv, data)) {
        Ok(pkcs7_strip(cbc_decrypt(key, iv, data)))
    } else {
        Err(ExtractError::InvalidPadding)
    }
}

/// A byte-vector result seen as a sequence.
pub open spec fn bytes_result(r: Result<Vec<u8>, ExtractError>) -> Result<Seq<u8>, ExtractError> {
    match r {
        Ok(v) => Ok(v@),
        Err(e) => Err(e),
    }
}

/// The first `n` blocks of plaintext depend on the first `n` blocks of
/// ciphertext only.
proof fn lemma_cbc_blocks_prefix(key: Seq<u8>, iv: Seq<u8>, a: Seq<u8>, b: Seq<u8>, n: nat)
    requires
        16 * n <= a.len(),
    ensures
        cbc_blocks(key, iv, a + b, n) == cbc_blocks(key, iv, a, n),
    decreases n,
{
    if n > 0 {
        lemma_cbc_blocks_prefix(key, iv, a, b, (n - 1) as nat);
        assert(block_at(a + b, n - 1) =~= block_at(a, n - 1));
        if n > 1 {
            assert(block_at(a + b, n - 2) =~= block_at(a, n - 2));
        }
    }
}

/// Blocks past a whole-block prefix `a` decrypt as a CBC stream of their own,
/// chained to the last block of `a`.
proof fn lemma_cbc_blocks_shift(
    key: Seq<u8>,
    iv: Seq<u8>,
    a: Seq<u8>,
    b: Seq<u8>,
    na: nat,
    m: nat,
)
    requires
        a.len() == 16 * na,
        na >= 1,
        16 * m <= b.len(),
    ensures
        cbc_blocks(key, iv, a + b, na + m) == cbc_blocks(key, iv, a, na) + cbc_blocks(
            key,
            block_at(a, na - 1),
            b,
            m,
        ),
    decreases m,
{
    if m == 0 {
        lemma_cbc_blocks_prefix(key, iv, a, b, na);
        assert(cbc_blocks(key, block_at(a, na - 1), b, 0) =~= Seq::<u8>::empty());
        assert(cbc_blocks(key, iv, a, na) + Seq::<u8>::empty() =~= cbc_blocks(key, iv, a, na));
    } else {
        lemma_cbc_blocks_shift(key, iv, a, b, na, (m - 1) as nat);
        let k = na + m - 1;
        assert(block_at(a + b, k) =~= block_at(b, m - 1));
        if m == 1 {
            assert(block_at(a + b, k - 1) =~= block_at(a, na - 1));
        } else {
            assert(block_at(a + b, k - 1) =~= block_at(b, m - 2));
        }
        assert(cbc_prev(iv, a + b, k) == cbc_prev(block_at(a, na - 1), b, m - 1));
        let head = cbc_blocks(key, iv, a, na);
        let mid = cbc_blocks(key, block_at(a, na - 1), b, (m - 1) as nat);
        let last = xor_bytes(
            aes_decrypt_block(key, block_at(b, m - 1)),
            cbc_prev(block_at(a, na - 1), b, m - 1),
        );
        assert(head + mid + last =~= head + (mid + last));
    }
}

/// CBC chaining law: decrypting a whole-block stream in two pieces, the
/// second piece with the last ciphertext block of the first as its IV, gives
/// the decryption of the whole stream.
pub proof fn lemma_cbc_decrypt_split(key: Seq<u8>, iv: Seq<u8>, a: Seq<u8>, b: Seq<u8>)
    requires
        a.len() % 16 == 0,
        a.len() >= 16,
        b.len() % 16 == 0,
    ensures
        cbc_decrypt(key, iv, a + b) == cbc_decrypt(key, iv, a) + cbc_decrypt(
            key,
            a.subrange(a.len() - 16, a.len() as int),
            b,
        ),
{
    let na = a.len() / 16;
    let nb = b.len() / 16;
    assert((a + b).len() / 16 == na + nb);
    lemma_cbc_blocks_shift(key, iv, a, b, na, nb);
    assert(block_at(a, na - 1) =~= a.subrange(a.len() - 16, a.len() as int));
}

/// Chains the block decryptions `ecb` of `data` into CBC plaintext.
fn cbc_chain(ecb: &Vec<u8>, data: &[u8], iv: &[u8; 16], Ghost(key): Ghost<Seq<u8>>) -> (out:
    Vec<u8>)
    requires
        data@.len() % 16 == 0,
        ecb@.len() == data@.len(),
        forall|i: int|
            0 <= i < data@.len() / 16 ==> #[trigger] block_at(ecb@, i) == aes_decrypt_block(
                key,
                block_at(data@, i),
            ),
    ensures
        out@ == cbc_decrypt(key, iv@, data@),
        out@.len() == data@.len(),
{
    let nblocks = data.len() / 16;
    let mut out: Vec<u8> = Vec::new();
    let mut i: usize = 0;
    while i < nblocks
        invariant
            i <= nblocks,
            nblocks == data@.len() / 16,
            data@.len() == 16 * nblocks,
            ecb@.len() == data@.len(),
            iv@.len() == 16,
            forall|k: int|
                0 <= k < data@.len() / 16 ==> #[trigger] block_at(ecb@, k) == aes_decrypt_block(
                    key,
                    block_at(data@, k),
                ),
            out@ == cbc_blocks(key, iv@, data@, i as nat),
            out@.len() == 16 * i,
        decreases nblocks - i,
    {
        let ghost plain = aes_decrypt_block(key, block_at(data@, i as int));
        let ghost prev = cbc_prev(iv@, data@, i as int);
        let ghost before = out@;
        assert(block_at(ecb@, i as int) == plain);
        assert(plain.len() == 16);
        assert(prev.len() == 16);
        let mut j: usize = 0;
        while j < 16
            invariant
                j <= 16,
                i < nblocks,
                data.len() == 16 * nblocks,
                ecb@.len() == data@.len(),
                iv@.len() == 16,
                plain == block_at(ecb@, i as int),
                prev == cbc_prev(iv@, data@, i as int),
                plain.len() == 16,
                prev.len() == 16,
                out@ == before + xor_bytes(plain, prev).take(j as int),
                before.len() == 16 * i,
            decreases 16 - j,
        {
            let p = if i == 0 {
                iv[j]
            } else {
                data[16 * i - 16 + j]
            };
            assert(p == prev[j as int]);
            assert(ecb@[16 * i + j] == plain[j as int]);
            out.push(ecb[16 * i + j] ^ p);
            j += 1;
            assert(xor_bytes(plain, prev).take(j as int) =~= xor_bytes(plain, prev).take(
                (j - 1) as int,
            ).push(plain[j - 1] ^ prev[j - 1]));
        }
        assert(xor_bytes(plain, prev).take(16) =~= xor_bytes(plain, prev));
        i += 1;
    }
    out
}

/// AES-128-CBC decryption without padding.
pub fn decrypt_aes128_cbc_nopad(data: &[u8], key: &[u8; 16], iv: &[u8; 16]) -> (r: Result<
    Vec<u8>,
    ExtractError,
>)
    ensures
        bytes_result(r) == cbc_nopad_result(key@, iv@, data@),
        r matches Ok(p) ==> p@.len() == data@.len(),
{
    if data.len() % 16 != 0 {
        return Err(ExtractError::InvalidCipherLength);
    }
    let ecb = aes128_decrypt_blocks(key, data);
    assert(key@.len() == 16);
    Ok(cbc_chain(&ecb, data, iv, Ghost(key@)))
}

/// AES-256-CBC decryption without padding.
pub fn decrypt_aes256_cbc_nopad(data: &[u8], key: &[u8; 32], iv: &[u8; 16]) -> (r: Result<
    Vec<u8>,
    ExtractError,
>)
    ensures
        bytes_result(r) == cbc_nopad_result(key@, iv@, data@),
        r matches Ok(p) ==> p@.len() == data@.len(),
{
    if data.len() % 16 != 0 {
        return Err(ExtractError::InvalidCipherLength);
    }
    let ecb = aes256_decrypt_blocks(key, data);
    assert(key@.len() == 32);
    Ok(cbc_chain(&ecb, data, iv, Ghost(key@)))
}

/// Removes PKCS#7 padding, or refuses padding that is not valid.
fn pkcs7_unpad(p: Vec<u8>) -> (r: Result<Vec<u8>, ExtractError>)
    ensures
        bytes_result(r) == (if pkcs7_valid(p@) {
            Ok(pkcs7_strip(p@))
        } else {
            Err(ExtractError::InvalidPadding)
        }),
{
    let len = p.len();
    if len == 0 {
        return Err(ExtractError::InvalidPadding);
    }
    let n = p[len - 1];
    if n < 1 || n > 16 || (n as usize) > len {
        return Err(ExtractError::InvalidPadding);
    }
    let mut k: usize = len - (n as usize);
    while k < len
        invariant
            len == p@.len(),
            len > 0,
            n == p@.last(),
            1 <= n <= 16,
            n <= len,
            len - n <= k <= len,
            forall|m: int| len - n <= m < k ==> p@[m] == n,
        decreases len - k,
    {
        if p[k] != n {
            return Err(ExtractError::InvalidPadding);
        }
        k += 1;
    }
    let mut out = p;
    out.truncate(len - (n as usize));
    Ok(out)
}

/// AES-128-CBC decryption followed by removal of PKCS#7 padding.
pub fn decrypt_aes128_cbc_pkcs7(data: &[u8], key: &[u8; 16], iv: &[u8; 16]) -> (r: Result<
    Vec<u8>,
    ExtractError,
>)
    ensures
        bytes_result(r) == cbc_pkcs7_result(key@, iv@, data@),
{
    match decrypt_aes128_cbc_nopad(data, key, iv) {
        Err(e) => Err(e),
        Ok(p) => pkcs7_unpad(p),
    }
}

/// AES-256-CBC decryption followed by removal of PKCS#7 padding.
pub fn decrypt_aes256_cbc_pkcs7(data: &[u8], key: &[u8; 32], iv: &[u8; 16]) -> (r: Result<
    Vec<u8>,
    ExtractError,
>)
    ensures
        bytes_result(r) == cbc_pkcs7_result(key@, iv@, data@),
{
    match decrypt_aes256_cbc_nopad(data, key, iv) {
        Err(e) => Err(e),
        Ok(p) => pkcs7_unpad(p),
    }
}

} // verus!
