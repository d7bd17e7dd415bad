//! Reading fixed-width integers and byte arrays out of byte buffers.

use vstd::prelude::*;

verus! {

/// Big-endian 16-bit integer stored at `off`.
pub open spec fn be_u16_at(s: Seq<u8>, off: int) -> u16 {
    (s[off] as int * 0x100 + s[off + 1] as int) as u16
}

/// Little-endian 16-bit integer stored at `off`.
pub open spec fn le_u16_at(s: Seq<u8>, off: int) -> u16 {
    (s[off] as int + s[off + 1] as int * 0x100) as u16
}

/// Big-endian 32-bit integer stored at `off`.
pub open spec fn be_u32_at(s: Seq<u8>, off: int) -> u32 {
    (s[off] as int * 0x100_0000 + s[off + 1] as int * 0x1_0000 + s[off + 2] as int * 0x100
        + s[off + 3] as int) as u32
}

/// Little-endian 32-bit integer stored at `off`.
pub open spec fn le_u32_at(s: Seq<u8>, off: int) -> u32 {
    (s[off] as int + s[off + 1] as int * 0x100 + s[off + 2] as int * 0x1_0000
        + s[off + 3] as int * 0x100_0000) as u32
}

/// Big-endian 64-bit integer stored at `off`.
pub open spec fn be_u64_at(s: Seq<u8>, off: int) -> u64 {
    (be_u32_at(s, off) as int * 0x1_0000_0000 + be_u32_at(s, off + 4) as int) as u64
}

pub fn read_be_u16(data: &[u8], off: usize) -> (r: u16)
    requires
        off + 2 <= data.len(),
    ensures
        r == be_u16_at(data@, off as int),
{
    (data[off] as u16) * 0x100 + (data[off + 1] as u16)
}

pub fn read_le_u16(data: &[u8], off: usize) -> (r: u16)
    requires
        off + 2 <= data.len(),
    ensures
        r == le_u16_at(data@, off as int),
{
    (data[off] as u16) + (data[off + 1] as u16) * 0x100
}

pub fn read_be_u32(data: &[u8], off: usize) -> (r: u32)
    requires
        off + 4 <= data.len(),
    ensures
        r == be_u32_at(data@, off as int),
{
    (data[off] as u32) * 0x100_0000 + (data[off + 1] as u32) * 0x1_0000 + (data[off + 2] as u32)
        * 0x100 + (data[off + 3] as u32)
}

pub fn read_le_u32(data: &[u8], off: usize) -> (r: u32)
    requires
        off + 4 <= data.len(),
    ensures
        r == le_u32_at(data@, off as int),
{
    (data[off] as u32) + (data[off + 1] as u32) * 0x100 + (data[off + 2] as u32) * 0x1_0000
        + (data[off + 3] as u32) * 0x100_0000
}

pub fn read_be_u64(data: &[u8], off: usize) -> (r: u64)
    requires
        off + 8 <= data.len(),
    ensures
        r == be_u64_at(data@, off as int),
{
    let hi = read_be_u32(data, off);
    let lo = read_be_u32(data, off + 4);
    (hi as u64) * 0x1_0000_0000 + (lo as u64)
}

/// Copies the `N` bytes stored at `off` into an array.
pub fn read_array<const N: usize>(data: &[u8], off: usize) -> (r: [u8; N])
    requires
        off + N <= data.len(),
    ensures
        r@ == data@.subrange(off as int, off + N),
{
    let mut a = [0u8; N];
    let mut j: usize = 0;
    while j < N
        invariant
            j <= N,
            off + N <= data.len(),
            a@.len() == N,
            forall|k: int| 0 <= k < j ==> a@[k] == data@[off + k],
        decreases N - j,
    {
        a[j] = data[off + j];
        j += 1;
    }
    assert(a@ =~= data@.subrange(off as int, off + N));
    a
}

/// Whether two byte strings are equal.
pub fn bytes_eq(a: &[u8], b: &[u8]) -> (r: bool)
    ensures
        r == (a@ == b@),
{
    if a.len() != b.len() {
        return false;
    }
    let mut k: usize = 0;
    while k < a.len()
        invariant
            a@.len() == b@.len(),
            k <= a@.len(),
            forall|m: int| 0 <= m < k ==> a@[m] == b@[m],
        decreases a@.len() - k,
    {
        if a[k] != b[k] {
            return false;
        }
        k += 1;
    }
    assert(a@ =~= b@);
    true
}

/// Whether `data` holds `pat` at offset `off`.
pub fn bytes_at_eq(data: &[u8], off: usize, pat: &[u8]) -> (r: bool)
    requires
        off + pat@.len() <= data.len(),
    ensures
        r == (data@.subrange(off as int, off + pat@.len()) == pat@),
{
    let mut k: usize = 0;
    while k < pat.len()
        invariant
            off + pat@.len() <= data.len(),
            k <= pat@.len(),
            forall|m: int| 0 <= m < k ==> data@[off + m] == pat@[m],
        decreases pat@.len() - k,
    {
        if data[off + k] != pat[k] {
            assert(data@.subrange(off as int, off + pat@.len())[k as int] != pat@[k as int]);
            return false;
        }
        k += 1;
    }
    assert(data@.subrange(off as int, off + pat@.len()) =~= pat@);
    true
}

/// Whether `data` ends with `suffix`.
pub fn ends_with(data: &[u8], suffix: &[u8]) -> (r: bool)
    ensures
        r == (suffix@.len() <= data@.len() && data@.subrange(
            data@.len() - suffix@.len(),
            data@.len() as int,
        ) == suffix@),
{
    if suffix.len() > data.len() {
        return false;
    }
    bytes_at_eq(data, data.len() - suffix.len(), suffix)
}

/// Whether every byte of `data` is ASCII.
pub open spec fn all_ascii(s: Seq<u8>) -> bool {
    forall|k: int| 0 <= k < s.len() ==> s[k] < 128
}

/// Whether every byte of `data` is ASCII.
pub fn is_ascii(data: &[u8]) -> (r: bool)
    ensures
        r == all_ascii(data@),
{
    let mut k: usize = 0;
    while k < data.len()
        invariant
            k <= data@.len(),
            forall|m: int| 0 <= m < k ==> data@[m] < 128,
        decreases data@.len() - k,
    {
        if data[k] >= 128 {
            return false;
        }
        k += 1;
    }
    true
}

/// Appends the bytes of `s` to `v`.
pub fn append_bytes(v: &mut Vec<u8>, s: &[u8])
    ensures
        final(v)@ == old(v)@ + s@,
{
    v.extend_from_slice(s);
    assert(v@ =~= old(v)@ + s@);
}

} // verus!
