//! On-disk structures of UTV update modules (little-endian) and the raw RSA
//! operation that opens their key header.

use vstd::arithmetic::power::{lemma_pow_positive, lemma_pow_strictly_increases_converse, pow};
use vstd::prelude::*;

use crate::bytes::{le_u16_at, le_u32_at, read_array, read_le_u16, read_le_u32};
use crate::crypto::bignum::{
    be_encode, be_value, is_minimal_be, lemma_be_encode_of_value, lemma_be_encode_value,
    lemma_be_value_bound,
    lemma_be_value_concat, lemma_be_value_zeros, lemma_minimal_be_lower_bound,
};
use crate::crypto::number_theory::{is_prime, lemma_rsa_roundtrip};
use crate::crypto::primitives::modpow_be;
use crate::error::ExtractError;

verus! {

/// The public exponent the key header is raised to.
pub open spec fn key_header_exponent() -> nat {
    65537
}

/// The raw RSA operation on the key header: the ciphertext, read as a
/// big-endian number, raised to 65537 modulo `n`, written back in as many
/// bytes as the modulus has.
pub open spec fn rsa_key_header_plain(ciphertext: Seq<u8>, n_bytes: Seq<u8>) -> Seq<u8> {
    be_encode(
        (pow(be_value(ciphertext) as int, key_header_exponent()) % (be_value(n_bytes) as int)) as nat,
        n_bytes.len(),
    )
}

/// RSA round-trip law: opening a key header undoes the private-key
/// operation. For a key with modulus `n = p * q` (two different primes) and
/// private exponent `d` with `65537 * d` equal to 1 modulo the Carmichael
/// function of `n`, a block `m < n` raised to `d` modulo `n` and written in
/// `k` bytes (with `n < 256 ^ k`) opens, under the `k`-byte modulus, to `m`
/// written in `k` bytes.
pub proof fn law_key_header_undoes_private_key(p: nat, q: nat, d: nat, m: nat, k: nat)
    requires
        is_prime(p),
        is_prime(q),
        p != q,
        d >= 1,
        (65537 * d - 1) % ((p - 1) as int) == 0,
        (65537 * d - 1) % ((q - 1) as int) == 0,
        p * q < pow(256, k),
        m < p * q,
    ensures
        rsa_key_header_plain(
            be_encode((pow(m as int, d) % ((p * q) as int)) as nat, k),
            be_encode(p * q, k),
        ) == be_encode(m, k),
{
    let n = p * q;
    assert(n > 0) by (nonlinear_arith)
        requires
            p > 1,
            q > 1,
            n == p * q,
    ;
    let c = pow(m as int, d) % (n as int);
    vstd::arithmetic::div_mod::lemma_mod_bound(pow(m as int, d), n as int);
    lemma_be_encode_value(n, k);
    lemma_be_encode_value(c as nat, k);
    lemma_rsa_roundtrip(p, q, d, m);
}

/// Opens an RSA-encrypted key header with the public modulus `n_bytes`
/// (big-endian); the result is left-padded with zeros to the modulus length.
pub fn decrypt_key_header(ciphertext: &[u8], n_bytes: &[u8]) -> (r: Vec<u8>)
    requires
        be_value(n_bytes@) > 0,
    ensures
        r@ == rsa_key_header_plain(ciphertext@, n_bytes@),
{
    let d: [u8; 3] = [1, 0, 1];
    proof {
        let s = d@;
        assert(s.len() == 3 && s[0] == 1 && s[1] == 0 && s[2] == 1);
        let s1 = s.drop_last().drop_last();
        assert(s1.len() == 1 && s1.last() == 1);
        assert(s1.drop_last() =~= Seq::<u8>::empty());
        assert(be_value(s1.drop_last()) == 0);
        assert(be_value(s1) == 1);
        assert(be_value(s.drop_last()) == 256);
        assert(be_value(s) == 65537);
    }
    let m = modpow_be(ciphertext, &d, n_bytes);
    let key_size = n_bytes.len();
    let ghost v = (pow(be_value(ciphertext@) as int, key_header_exponent()) % (be_value(
        n_bytes@,
    ) as int)) as nat;
    proof {
        let n = be_value(n_bytes@) as int;
        vstd::arithmetic::div_mod::lemma_mod_bound(
            pow(be_value(ciphertext@) as int, key_header_exponent()),
            n,
        );
        assert(be_value(m@) == v);
        assert(v < n);
        lemma_be_value_bound(n_bytes@);
        if n_bytes@.len() == 0 {
            assert(be_value(n_bytes@) == 0);
        }
        if m@.len() > 1 {
            lemma_minimal_be_lower_bound(m@);
            lemma_pow_strictly_increases_converse(256, (m@.len() - 1) as nat, n_bytes@.len());
        }
        assert(m@.len() <= key_size);
    }
    let out = if m.len() < key_size {
        let mut padded: Vec<u8> = Vec::new();
        let pad = key_size - m.len();
        let mut k: usize = 0;
        while k < pad
            invariant
                k <= pad,
                padded@ == Seq::new(k as nat, |i: int| 0u8),
            decreases pad - k,
        {
            padded.push(0);
            k += 1;
            assert(padded@ =~= Seq::new(k as nat, |i: int| 0u8));
        }
        let ghost zeros = padded@;
        padded.extend_from_slice(m.as_slice());
        proof {
            assert(padded@ =~= zeros + m@);
            lemma_be_value_concat(zeros, m@);
            lemma_be_value_zeros(pad as nat);
            let z = be_value(zeros) as int;
            let p = pow(256, m@.len());
            assert(z == 0);
            assert(z * p == 0) by (nonlinear_arith)
                requires
                    z == 0,
            ;
            assert(be_value(padded@) == be_value(m@));
            assert(padded@.len() == key_size);
        }
        padded
    } else {
        assert(m@.len() == key_size);
        m
    };
    proof {
        assert(out@.len() == n_bytes@.len());
        assert(be_value(out@) == v);
        lemma_be_encode_of_value(out@);
    }
    out
}

/// Signature at the start of every clear header.
pub const CLEAR_HEADER_SIGNATURE: [u8; 16] = [
    0x42, 0x44, 0x43, 0x09, 0x43, 0x44, 0x42, 0x09, 0x42, 0x44, 0x43, 0x09, 0x43, 0x44, 0x42, 0x09,
];

/// Trailer at the end of every decrypted payload.
pub const DECRYPTION_TRAILER: [u8; 16] = [
    0x43, 0x44, 0x42, 0x09, 0x42, 0x44, 0x43, 0x09, 0x43, 0x44, 0x42, 0x09, 0x42, 0x44, 0x43, 0x09,
];

/// Signature at the start of every module header.
pub const MOD_HDR_SIGNATURE: [u8; 16] = [
    0x42, 0x44, 0x43, 0x09, 0x4d, 0x4f, 0x44, 0x09, 0x53, 0x49, 0x47, 0x09, 0x48, 0x44, 0x52, 0x09,
];

/// Signature at the start of the component directory.
pub const COMP_DIR_SIGNATURE: [u8; 16] = [
    0x42, 0x44, 0x43, 0x09, 0x43, 0x4f, 0x4d, 0x09, 0x44, 0x49, 0x52, 0x09, 0x53, 0x54, 0x52, 0x09,
];

/// Size of a clear header.
pub const CLEAR_HEADER_SIZE: usize = 32;

/// Size of the RSA-encrypted key header that follows a clear header.
pub const KEY_HEADER_BLOCK_SIZE: usize = 256;

/// Offset of the key header fields in the opened key header block.
pub const KEY_HEADER_OFFSET: usize = 0xA0;

/// The clear header at the start of every module.
#[derive(Clone, Copy)]
pub struct ClearHeader {
    pub signature: [u8; 16],
    pub clear_header_version: u8,
    pub key_header_version: u8,
    pub key_header_type: u8,
    pub none1: u8,
    pub oui: u32,
    pub mg: u32,
    pub module_size: u32,
}

impl ClearHeader {
    /// `self` is what the 32 bytes at the start of `s` encode.
    pub open spec fn encoded_in(self, s: Seq<u8>) -> bool {
        &&& s.len() >= 32
        &&& self.signature@ == s.subrange(0, 16)
        &&& self.clear_header_version == s[16]
        &&& self.key_header_version == s[17]
        &&& self.key_header_type == s[18]
        &&& self.none1 == s[19]
        &&& self.oui == le_u32_at(s, 20)
        &&& self.mg == le_u32_at(s, 24)
        &&& self.module_size == le_u32_at(s, 28)
    }

    /// Reads a clear header from the start of `data`.
    pub fn from_bytes(data: &[u8]) -> (r: Result<ClearHeader, ExtractError>)
        ensures
            match r {
                Ok(h) => h.encoded_in(data@),
                Err(e) => data@.len() < 32 && e == ExtractError::UnexpectedEof,
            },
    {
        if data.len() < CLEAR_HEADER_SIZE {
            return Err(ExtractError::UnexpectedEof);
        }
        Ok(ClearHeader {
            signature: read_array::<16>(data, 0),
            clear_header_version: data[16],
            key_header_version: data[17],
            key_header_type: data[18],
            none1: data[19],
            oui: read_le_u32(data, 20),
            mg: read_le_u32(data, 24),
            module_size: read_le_u32(data, 28),
        })
    }
}

/// The fields of an opened key header.
pub struct KeyHeader {
    pub header_type: u8,
    pub verification_mode: u8,
    pub cipher_type: u8,
    pub none1: u8,
    pub key_size: u32,
    pub key: [u8; 16],
    pub key2: [u8; 16],
    pub digest: [u8; 32],
    pub plaintext_length: u32,
    pub encrypt_blocks: u32,
    pub footer: [u8; 16],
}

impl KeyHeader {
    /// `self` is what the 96 bytes at `off` in `s` encode.
    pub open spec fn encoded_at(self, s: Seq<u8>, off: int) -> bool {
        &&& 0 <= off
        &&& off + 96 <= s.len()
        &&& self.header_type == s[off]
        &&& self.verification_mode == s[off + 1]
        &&& self.cipher_type == s[off + 2]
        &&& self.none1 == s[off + 3]
        &&& self.key_size == le_u32_at(s, off + 4)
        &&& self.key@ == s.subrange(off + 8, off + 24)
        &&& self.key2@ == s.subrange(off + 24, off + 40)
        &&& self.digest@ == s.subrange(off + 40, off + 72)
        &&& self.plaintext_length == le_u32_at(s, off + 72)
        &&& self.encrypt_blocks == le_u32_at(s, off + 76)
        &&& self.footer@ == s.subrange(off + 80, off + 96)
    }

    /// Reads the key header fields at `off` in `data`.
    pub fn from_bytes(data: &[u8], off: usize) -> (r: Result<KeyHeader, ExtractError>)
        ensures
            match r {
                Ok(h) => h.encoded_at(data@, off as int),
                Err(e) => off + 96 > data@.len() && e == ExtractError::UnexpectedEof,
            },
    {
        if off > data.len() || data.len() - off < 96 {
            return Err(ExtractError::UnexpectedEof);
        }
        Ok(KeyHeader {
            header_type: data[off],
            verification_mode: data[off + 1],
            cipher_type: data[off + 2],
            none1: data[off + 3],
            key_size: read_le_u32(data, off + 4),
            key: read_array::<16>(data, off + 8),
            key2: read_array::<16>(data, off + 24),
            digest: read_array::<32>(data, off + 40),
            plaintext_length: read_le_u32(data, off + 72),
            encrypt_blocks: read_le_u32(data, off + 76),
            footer: read_array::<16>(data, off + 80),
        })
    }
}

/// The header in front of a decrypted module.
pub struct ModuleHeader {
    pub signature: [u8; 16],
    pub version: u8,
    pub none1: u8,
    pub header_size: u16,
    pub none2: u16,
    pub name_offset: u16,
    pub module_version: u16,
    pub module_index: u16,
    pub module_count: u16,
    pub none3: u16,
    pub module_size: u32,
    pub module_offset: u32,
}

impl ModuleHeader {
    /// `self` is what the 40 bytes at the start of `s` encode.
    pub open spec fn encoded_in(self, s: Seq<u8>) -> bool {
        &&& s.len() >= 40
        &&& self.signature@ == s.subrange(0, 16)
        &&& self.version == s[16]
        &&& self.none1 == s[17]
        &&& self.header_size == le_u16_at(s, 18)
        &&& self.none2 == le_u16_at(s, 20)
        &&& self.name_offset == le_u16_at(s, 22)
        &&& self.module_version == le_u16_at(s, 24)
        &&& self.module_index == le_u16_at(s, 26)
        &&& self.module_count == le_u16_at(s, 28)
        &&& self.none3 == le_u16_at(s, 30)
        &&& self.module_size == le_u32_at(s, 32)
        &&& self.module_offset == le_u32_at(s, 36)
    }

    /// Reads a module header from the start of `data`.
    pub fn from_bytes(data: &[u8]) -> (r: Result<ModuleHeader, ExtractError>)
        ensures
            match r {
                Ok(h) => h.encoded_in(data@),
                Err(e) => data@.len() < 40 && e == ExtractError::UnexpectedEof,
            },
    {
        if data.len() < 40 {
            return Err(ExtractError::UnexpectedEof);
        }
        Ok(ModuleHeader {
            signature: read_array::<16>(data, 0),
            version: data[16],
            none1: data[17],
            header_size: read_le_u16(data, 18),
            none2: read_le_u16(data, 20),
            name_offset: read_le_u16(data, 22),
            module_version: read_le_u16(data, 24),
            module_index: read_le_u16(data, 26),
            module_count: read_le_u16(data, 28),
            none3: read_le_u16(data, 30),
            module_size: read_le_u32(data, 32),
            module_offset: read_le_u32(data, 36),
        })
    }
}

/// The header of the component directory (the first, decrypted module).
pub struct ComponentDirectoryHeader {
    pub signature: [u8; 16],
    pub version: u8,
    pub a2: u8,
    pub a3: u8,
    pub a4: u8,
    pub b1: u32,
    pub strings_offset: u32,
    pub oui: u32,
    pub mg: u32,
    pub b5: u32,
    pub ver1: u16,
    pub ver2: u16,
    pub c1: u16,
    pub c2: u16,
    pub c3: u16,
    pub c4: u16,
    pub component_count: u16,
    pub e2: u16,
    pub string_table_size: u16,
}

impl ComponentDirectoryHeader {
    /// `self` is what the 58 bytes at the start of `s` encode.
    pub open spec fn encoded_in(self, s: Seq<u8>) -> bool {
        &&& s.len() >= 58
        &&& self.signature@ == s.subrange(0, 16)
        &&& self.version == s[16]
        &&& self.a2 == s[17]
        &&& self.a3 == s[18]
        &&& self.a4 == s[19]
        &&& self.b1 == le_u32_at(s, 20)
        &&& self.strings_offset == le_u32_at(s, 24)
        &&& self.oui == le_u32_at(s, 28)
        &&& self.mg == le_u32_at(s, 32)
        &&& self.b5 == le_u32_at(s, 36)
        &&& self.ver1 == le_u16_at(s, 40)
        &&& self.ver2 == le_u16_at(s, 42)
        &&& self.c1 == le_u16_at(s, 44)
        &&& self.c2 == le_u16_at(s, 46)
        &&& self.c3 == le_u16_at(s, 48)
        &&& self.c4 == le_u16_at(s, 50)
        &&& self.component_count == le_u16_at(s, 52)
        &&& self.e2 == le_u16_at(s, 54)
        &&& self.string_table_size == le_u16_at(s, 56)
    }

    /// Reads the component directory header from the start of `data`.
    pub fn from_bytes(data: &[u8]) -> (r: Result<ComponentDirectoryHeader, ExtractError>)
        ensures
            match r {
                Ok(h) => h.encoded_in(data@),
                Err(e) => data@.len() < 58 && e == ExtractError::UnexpectedEof,
            },
    {
        if data.len() < 58 {
            return Err(ExtractError::UnexpectedEof);
        }
        Ok(ComponentDirectoryHeader {
            signature: read_array::<16>(data, 0),
            version: data[16],
            a2: data[17],
            a3: data[18],
            a4: data[19],
            b1: read_le_u32(data, 20),
            strings_offset: read_le_u32(data, 24),
            oui: read_le_u32(data, 28),
            mg: read_le_u32(data, 32),
            b5: read_le_u32(data, 36),
            ver1: read_le_u16(data, 40),
            ver2: read_le_u16(data, 42),
            c1: read_le_u16(data, 44),
            c2: read_le_u16(data, 46),
            c3: read_le_u16(data, 48),
            c4: read_le_u16(data, 50),
            component_count: read_le_u16(data, 52),
            e2: read_le_u16(data, 54),
            string_table_size: read_le_u16(data, 56),
        })
    }
}

/// `v` holds `count` arrays of `N` bytes stored one after the other from `off`.
pub open spec fn arrays_at<const N: usize>(v: Seq<[u8; N]>, s: Seq<u8>, off: int, count: int) -> bool {
    &&& v.len() == count
    &&& forall|k: int|
        0 <= k < count ==> (#[trigger] v[k])@ == s.subrange(off + N * k, off + N * k + N)
}

/// Reads `count` arrays of `N` bytes stored one after the other from `off`.
fn read_arrays<const N: usize>(data: &[u8], off: usize, count: usize) -> (r: Vec<[u8; N]>)
    requires
        off + N * count <= data.len(),
    ensures
        arrays_at(r@, data@, off as int, count as int),
{
    let mut out: Vec<[u8; N]> = Vec::new();
    let mut k: usize = 0;
    let mut pos: usize = off;
    while k < count
        invariant
            k <= count,
            off + N * count <= data.len(),
            pos == off + N * k,
            out@.len() == k,
            forall|m: int|
                0 <= m < k ==> (#[trigger] out@[m])@ == data@.subrange(
                    off + N * m,
                    off + N * m + N,
                ),
        decreases count - k,
    {
        assert(N * k + N <= N * count) by (nonlinear_arith)
            requires
                k < count,
        ;
        let a = read_array::<N>(data, pos);
        out.push(a);
        assert(N * (k + 1) == N * k + N) by (nonlinear_arith);
        pos = pos + N;
        k += 1;
    }
    out
}

/// One module entry of a component descriptor.
pub struct ComponentModuleDescriptor {
    pub offset: u32,
    pub plaintext_size: u32,
    pub module_size: u32,
    pub hash: [u8; 32],
}

impl ComponentModuleDescriptor {
    /// `self` is what the 44 bytes at `off` in `s` encode.
    pub open spec fn encoded_at(self, s: Seq<u8>, off: int) -> bool {
        &&& 0 <= off
        &&& off + 44 <= s.len()
        &&& self.offset == le_u32_at(s, off)
        &&& self.plaintext_size == le_u32_at(s, off + 4)
        &&& self.module_size == le_u32_at(s, off + 8)
        &&& self.hash@ == s.subrange(off + 12, off + 44)
    }
}

/// `v` holds `count` module entries stored one after the other from `off`.
pub open spec fn modules_at(v: Seq<ComponentModuleDescriptor>, s: Seq<u8>, off: int, count: int) -> bool {
    &&& v.len() == count
    &&& forall|k: int| 0 <= k < count ==> (#[trigger] v[k]).encoded_at(s, off + 44 * k)
}

/// Reads `count` module entries stored one after the other from `off`.
fn read_module_descriptors(data: &[u8], off: usize, count: usize) -> (r: Vec<
    ComponentModuleDescriptor,
>)
    requires
        off + 44 * count <= data.len(),
    ensures
        modules_at(r@, data@, off as int, count as int),
{
    let mut out: Vec<ComponentModuleDescriptor> = Vec::new();
    let mut k: usize = 0;
    while k < count
        invariant
            k <= count,
            off + 44 * count <= data.len(),
            out@.len() == k,
            forall|m: int| 0 <= m < k ==> (#[trigger] out@[m]).encoded_at(data@, off + 44 * m),
        decreases count - k,
    {
        let pos = off + 44 * k;
        out.push(
            ComponentModuleDescriptor {
                offset: read_le_u32(data, pos),
                plaintext_size: read_le_u32(data, pos + 4),
                module_size: read_le_u32(data, pos + 8),
                hash: read_array::<32>(data, pos + 12),
            },
        );
        k += 1;
    }
    out
}

/// Counts of the variable parts of the descriptor at `off`.
pub open spec fn descriptor_counts(s: Seq<u8>, off: int) -> (int, int, int, int, int) {
    (
        le_u16_at(s, off + 20) as int,
        le_u16_at(s, off + 22) as int,
        le_u16_at(s, off + 24) as int,
        le_u16_at(s, off + 26) as int,
        le_u16_at(s, off + 28) as int,
    )
}

/// Length of the descriptor at `off`: 32 fixed bytes, then the four lists of
/// 4-, 4-, 6- and 4-byte entries and the 44-byte module entries.
pub open spec fn descriptor_size(s: Seq<u8>, off: int) -> int {
    let (n1, n2, n3, n4, nm) = descriptor_counts(s, off);
    32 + 4 * n1 + 4 * n2 + 6 * n3 + 4 * n4 + 44 * nm
}

/// A component of the component directory, with its module entries.
pub struct ComponentDescriptor {
    pub a1: u16,
    pub a2: u16,
    pub oui: u32,
    pub mg: u16,
    pub name_offset: u16,
    pub module_version: u16,
    pub ver2: u16,
    pub size: u32,
    pub count1: u16,
    pub count2: u16,
    pub count3: u16,
    pub count4: u16,
    pub module_count: u16,
    pub u5: u16,
    pub c1: Vec<[u8; 4]>,
    pub c2: Vec<[u8; 4]>,
    pub c3: Vec<[u8; 6]>,
    pub c4: Vec<[u8; 4]>,
    pub modules: Vec<ComponentModuleDescriptor>,
}

impl ComponentDescriptor {
    /// `self` is what the descriptor at `off` in `s` encodes.
    pub open spec fn encoded_at(self, s: Seq<u8>, off: int) -> bool {
        let (n1, n2, n3, n4, nm) = descriptor_counts(s, off);
        let p1 = off + 32;
        let p2 = p1 + 4 * n1;
        let p3 = p2 + 4 * n2;
        let p4 = p3 + 6 * n3;
        let p5 = p4 + 4 * n4;
        &&& 0 <= off
        &&& off + descriptor_size(s, off) <= s.len()
        &&& self.a1 == le_u16_at(s, off)
        &&& self.a2 == le_u16_at(s, off + 2)
        &&& self.oui == le_u32_at(s, off + 4)
        &&& self.mg == le_u16_at(s, off + 8)
        &&& self.name_offset == le_u16_at(s, off + 10)
        &&& self.module_version == le_u16_at(s, off + 12)
        &&& self.ver2 == le_u16_at(s, off + 14)
        &&& self.size == le_u32_at(s, off + 16)
        &&& self.count1 == n1
        &&& self.count2 == n2
        &&& self.count3 == n3
        &&& self.count4 == n4
        &&& self.module_count == nm
        &&& self.u5 == le_u16_at(s, off + 30)
        &&& arrays_at(self.c1@, s, p1, n1)
        &&& arrays_at(self.c2@, s, p2, n2)
        &&& arrays_at(self.c3@, s, p3, n3)
        &&& arrays_at(self.c4@, s, p4, n4)
        &&& modules_at(self.modules@, s, p5, nm)
    }

    /// Reads the descriptor at `off` in `data`; also returns the offset just
    /// past it.
    pub fn from_bytes(data: &[u8], off: usize) -> (r: Result<(ComponentDescriptor, usize), ExtractError>)
        ensures
            match r {
                Ok((d, end)) => d.encoded_at(data@, off as int) && end == off + descriptor_size(
                    data@,
                    off as int,
                ),
                Err(e) => e == ExtractError::UnexpectedEof && (off + 32 > data@.len() || off
                    + descriptor_size(data@, off as int) > data@.len()),
            },
    {
        if off > data.len() || data.len() - off < 32 {
            return Err(ExtractError::UnexpectedEof);
        }
        let count1 = read_le_u16(data, off + 20);
        let count2 = read_le_u16(data, off + 22);
        let count3 = read_le_u16(data, off + 24);
        let count4 = read_le_u16(data, off + 26);
        let module_count = read_le_u16(data, off + 28);
        let var_size: usize = 4 * (count1 as usize) + 4 * (count2 as usize) + 6 * (count3 as usize)
            + 4 * (count4 as usize) + 44 * (module_count as usize);
        if data.len() - off - 32 < var_size {
            return Err(ExtractError::UnexpectedEof);
        }
        let p1 = off + 32;
        let p2 = p1 + 4 * (count1 as usize);
        let p3 = p2 + 4 * (count2 as usize);
        let p4 = p3 + 6 * (count3 as usize);
        let p5 = p4 + 4 * (count4 as usize);
        let d = ComponentDescriptor {
            a1: read_le_u16(data, off),
            a2: read_le_u16(data, off + 2),
            oui: read_le_u32(data, off + 4),
            mg: read_le_u16(data, off + 8),
            name_offset: read_le_u16(data, off + 10),
            module_version: read_le_u16(data, off + 12),
            ver2: read_le_u16(data, off + 14),
            size: read_le_u32(data, off + 16),
            count1,
            count2,
            count3,
            count4,
            module_count,
            u5: read_le_u16(data, off + 30),
            c1: read_arrays::<4>(data, p1, count1 as usize),
            c2: read_arrays::<4>(data, p2, count2 as usize),
            c3: read_arrays::<6>(data, p3, count3 as usize),
            c4: read_arrays::<4>(data, p4, count4 as usize),
            modules: read_module_descriptors(data, p5, module_count as usize),
        };
        Ok((d, p5 + 44 * (module_count as usize)))
    }
}

} // verus!
