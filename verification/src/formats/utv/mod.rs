//! UTV update files: a clear header, an RSA-protected key header, then
//! AES-128-CBC modules; the first module is the component directory that
//! says where the other modules lie and how they form components.

pub mod headers;

use vstd::prelude::*;

use crate::bytes::{bytes_eq, ends_with, le_u16_at, le_u32_at};
use crate::crypto::bignum::{be_value, is_nonzero};
use crate::crypto::cbc::{cbc_decrypt, cbc_nopad_result, decrypt_aes128_cbc_nopad};
use crate::error::ExtractError;
pub use headers::{
    decrypt_key_header, rsa_key_header_plain, ClearHeader, ComponentDescriptor,
    ComponentDirectoryHeader, ComponentModuleDescriptor, KeyHeader, ModuleHeader,
    CLEAR_HEADER_SIGNATURE, CLEAR_HEADER_SIZE, COMP_DIR_SIGNATURE, DECRYPTION_TRAILER,
    KEY_HEADER_BLOCK_SIZE, KEY_HEADER_OFFSET, MOD_HDR_SIGNATURE,
};

verus! {

/// Whether the first 16 bytes of a file, as read, are the clear header
/// signature.
pub fn is_utv_file(header_signature: &[u8]) -> (r: bool)
    ensures
        r == (header_signature@ == CLEAR_HEADER_SIGNATURE@),
{
    bytes_eq(header_signature, &CLEAR_HEADER_SIGNATURE)
}

/// The first clear header must be version 1 with a version 1 key header of
/// type 3 (RSA, alternative form).
pub open spec fn spec_check_clear_header(h: ClearHeader) -> Result<(), ExtractError> {
    if h.clear_header_version != 1 {
        Err(ExtractError::WrongClearHeaderVersion)
    } else if h.key_header_version != 1 {
        Err(ExtractError::WrongKeyHeaderVersion)
    } else if h.key_header_type != 3 {
        Err(ExtractError::WrongKeyHeaderType)
    } else {
        Ok(())
    }
}

/// Checks versions and key header type of the first clear header.
pub fn check_clear_header(h: &ClearHeader) -> (r: Result<(), ExtractError>)
    ensures
        r == spec_check_clear_header(*h),
{
    if h.clear_header_version != 1 {
        return Err(ExtractError::WrongClearHeaderVersion);
    }
    if h.key_header_version != 1 {
        return Err(ExtractError::WrongKeyHeaderVersion);
    }
    if h.key_header_type != 3 {
        return Err(ExtractError::WrongKeyHeaderType);
    }
    Ok(())
}

/// `s` ends with `suffix`.
pub open spec fn seq_ends_with(s: Seq<u8>, suffix: Seq<u8>) -> bool {
    suffix.len() <= s.len() && s.subrange(s.len() - suffix.len(), s.len() as int) == suffix
}

/// The modulus opens the key header: the result ends with the clear header
/// signature.
pub open spec fn modulus_fits(key_header: Seq<u8>, modulus: Seq<u8>) -> bool {
    seq_ends_with(rsa_key_header_plain(key_header, modulus), CLEAR_HEADER_SIGNATURE@)
}

/// No modulus before index `j` opens the key header.
pub open spec fn no_modulus_fits_before(key_header: Seq<u8>, moduli: Seq<Vec<u8>>, j: int) -> bool {
    forall|k: int| 0 <= k < j ==> !modulus_fits(key_header, #[trigger] moduli[k]@)
}

/// Opens the key header with one candidate modulus; the opened key header
/// is returned if it ends with the clear header signature.
pub fn try_utv_modulus(key_header: &[u8], modulus: &[u8]) -> (r: Option<Vec<u8>>)
    requires
        be_value(modulus@) > 0,
    ensures
        match r {
            Some(plain) => modulus_fits(key_header@, modulus@) && plain@ == rsa_key_header_plain(
                key_header@,
                modulus@,
            ),
            None => !modulus_fits(key_header@, modulus@),
        },
{
    let plain = decrypt_key_header(key_header, modulus);
    if ends_with(plain.as_slice(), &CLEAR_HEADER_SIGNATURE) {
        Some(plain)
    } else {
        None
    }
}

/// Tries the candidate moduli in turn and returns the index of the first that
/// opens the key header, with the opened key header; no key matches when
/// none opens it.
pub fn find_utv_key_header(key_header: &[u8], moduli: &[Vec<u8>]) -> (r: Result<
    (usize, Vec<u8>),
    ExtractError,
>)
    requires
        forall|j: int|
            0 <= j < moduli@.len() && no_modulus_fits_before(key_header@, moduli@, j) ==> be_value(
                (#[trigger] moduli@[j])@,
            ) > 0,
    ensures
        match r {
            Ok((i, plain)) => i < moduli@.len() && modulus_fits(key_header@, moduli@[i as int]@)
                && no_modulus_fits_before(key_header@, moduli@, i as int) && plain@
                == rsa_key_header_plain(key_header@, moduli@[i as int]@),
            Err(e) => no_modulus_fits_before(key_header@, moduli@, moduli@.len() as int) && e
                == ExtractError::NoMatchingKey,
        },
{
    let mut i: usize = 0;
    while i < moduli.len()
        invariant
            i <= moduli@.len(),
            no_modulus_fits_before(key_header@, moduli@, i as int),
            forall|j: int|
                0 <= j < moduli@.len() && no_modulus_fits_before(key_header@, moduli@, j)
                    ==> be_value((#[trigger] moduli@[j])@) > 0,
        decreases moduli@.len() - i,
    {
        let modulus = moduli[i].as_slice();
        assert(modulus@ == moduli@[i as int]@);
        match try_utv_modulus(key_header, modulus) {
            Some(plain) => {
                return Ok((i, plain));
            },
            None => {},
        }
        i += 1;
    }
    Err(ExtractError::NoMatchingKey)
}

/// Every modulus before index `j` is above zero.
pub open spec fn all_moduli_nonzero_before(moduli: Seq<Vec<u8>>, j: int) -> bool {
    forall|k: int| 0 <= k < j ==> be_value((#[trigger] moduli[k])@) > 0
}

/// Tries the candidate moduli in turn, checking each for zero when it is
/// reached: a zero modulus stops the search.
pub fn find_utv_key_header_checked(key_header: &[u8], moduli: &[Vec<u8>]) -> (r: Result<
    (usize, Vec<u8>),
    ExtractError,
>)
    ensures
        match r {
            Ok((i, plain)) => i < moduli@.len() && all_moduli_nonzero_before(moduli@, i + 1)
                && modulus_fits(key_header@, moduli@[i as int]@) && no_modulus_fits_before(
                key_header@,
                moduli@,
                i as int,
            ) && plain@ == rsa_key_header_plain(key_header@, moduli@[i as int]@),
            Err(ExtractError::ZeroModulus) => exists|j: int|
                0 <= j < moduli@.len() && be_value((#[trigger] moduli@[j])@) == 0
                    && all_moduli_nonzero_before(moduli@, j) && no_modulus_fits_before(
                    key_header@,
                    moduli@,
                    j,
                ),
            Err(ExtractError::NoMatchingKey) => all_moduli_nonzero_before(
                moduli@,
                moduli@.len() as int,
            ) && no_modulus_fits_before(key_header@, moduli@, moduli@.len() as int),
            Err(_) => false,
        },
{
    let mut j: usize = 0;
    while j < moduli.len() && is_nonzero(moduli[j].as_slice())
        invariant
            j <= moduli@.len(),
            all_moduli_nonzero_before(moduli@, j as int),
        decreases moduli@.len() - j,
    {
        j += 1;
    }
    let prefix = vstd::slice::slice_subrange(moduli, 0, j);
    assert(forall|k: int| 0 <= k < j ==> prefix@[k] == moduli@[k]);
    assert forall|k: int| 0 <= k <= j implies no_modulus_fits_before(key_header@, prefix@, k)
        == no_modulus_fits_before(key_header@, moduli@, k) by {
        assert(forall|m: int| 0 <= m < k ==> prefix@[m] == moduli@[m]);
    }
    match find_utv_key_header(key_header, prefix) {
        Ok((i, plain)) => {
            assert(prefix@[i as int] == moduli@[i as int]);
            Ok((i, plain))
        },
        Err(_) => {
            if j < moduli.len() {
                assert(be_value(moduli@[j as int]@) == 0);
                Err(ExtractError::ZeroModulus)
            } else {
                Err(ExtractError::NoMatchingKey)
            }
        },
    }
}

/// Reads the key header fields out of the opened key header block; only AES
/// (cipher type 1) is supported.
pub fn open_key_header(plain: &[u8]) -> (r: Result<KeyHeader, ExtractError>)
    ensures
        match r {
            Ok(k) => k.encoded_at(plain@, 0xA0) && k.cipher_type == 1,
            Err(e) => (plain@.len() < 0xA0 + 96 && e == ExtractError::UnexpectedEof) || (
            plain@.len() >= 0xA0 + 96 && plain@[0xA2int] != 1 && e
                == ExtractError::UnsupportedCipherType),
        },
{
    let k = match KeyHeader::from_bytes(plain, KEY_HEADER_OFFSET) {
        Ok(k) => k,
        Err(e) => {
            return Err(e);
        },
    };
    if k.cipher_type != 1 {
        return Err(ExtractError::UnsupportedCipherType);
    }
    Ok(k)
}

/// Length of the encrypted payload of a module: the module size without the
/// clear header and the key header block.
pub fn encrypted_payload_size(h: &ClearHeader) -> (r: usize)
    requires
        h.module_size >= 288,
    ensures
        r == h.module_size - 288,
{
    (h.module_size as usize) - 32 - 256
}

/// `p` cut to at most `n` bytes.
pub open spec fn truncated(p: Seq<u8>, n: int) -> Seq<u8> {
    if n < p.len() {
        p.take(n)
    } else {
        p
    }
}

/// A payload decrypts with AES-128-CBC under a zero IV, must end with the
/// decryption trailer, and is then cut to its plaintext length.
pub open spec fn utv_payload_result(enc: Seq<u8>, key: Seq<u8>, plaintext_length: u32) -> Result<
    Seq<u8>,
    ExtractError,
> {
    match cbc_nopad_result(key, Seq::new(16, |i: int| 0u8), enc) {
        Err(e) => Err(e),
        Ok(p) => if seq_ends_with(p, DECRYPTION_TRAILER@) {
            Ok(truncated(p, plaintext_length as int))
        } else {
            Err(ExtractError::MissingDecryptionTrailer)
        },
    }
}

/// Payload law: a payload that decrypts gives the prefix of its zero-IV CBC
/// decryption of length `min(plaintext_length, decrypted length)`, for the
/// whole 32-bit range of `plaintext_length`; it decrypts exactly when the
/// ciphertext is whole AES blocks and the decryption ends with the trailer.
pub proof fn law_utv_payload(enc: Seq<u8>, key: Seq<u8>, plaintext_length: u32)
    ensures
        ({
            let dec = cbc_decrypt(key, Seq::new(16, |i: int| 0u8), enc);
            &&& (utv_payload_result(enc, key, plaintext_length) is Ok) == (enc.len() % 16 == 0
                && DECRYPTION_TRAILER@.len() <= dec.len() && dec.subrange(
                dec.len() - DECRYPTION_TRAILER@.len(),
                dec.len() as int,
            ) == DECRYPTION_TRAILER@)
            &&& utv_payload_result(enc, key, plaintext_length) matches Ok(p) ==> {
                &&& p.len() == (if plaintext_length < dec.len() {
                    plaintext_length as int
                } else {
                    dec.len() as int
                })
                &&& p == dec.subrange(0, p.len() as int)
            }
        }),
{
    let dec = cbc_decrypt(key, Seq::new(16, |i: int| 0u8), enc);
    if utv_payload_result(enc, key, plaintext_length) is Ok {
        let p = utv_payload_result(enc, key, plaintext_length)->Ok_0;
        if plaintext_length < dec.len() {
            assert(p =~= dec.subrange(0, plaintext_length as int));
        } else {
            assert(p =~= dec.subrange(0, dec.len() as int));
        }
    }
}

/// Decrypts a module payload (or the component directory).
pub fn decrypt_utv_payload(enc: &[u8], key: &[u8; 16], plaintext_length: u32) -> (r: Result<
    Vec<u8>,
    ExtractError,
>)
    ensures
        crate::crypto::cbc::bytes_result(r) == utv_payload_result(enc@, key@, plaintext_length),
        r matches Ok(p) ==> {
            let dec = cbc_decrypt(key@, Seq::new(16, |i: int| 0u8), enc@);
            &&& p@.len() == (if plaintext_length < dec.len() {
                plaintext_length as int
            } else {
                dec.len() as int
            })
            &&& p@ == dec.subrange(0, p@.len() as int)
        },
{
    proof {
        law_utv_payload(enc@, key@, plaintext_length);
    }
    let zero = [0u8; 16];
    assert(zero@ =~= Seq::new(16, |i: int| 0u8));
    let mut p = match decrypt_aes128_cbc_nopad(enc, key, &zero) {
        Ok(p) => p,
        Err(e) => {
            return Err(e);
        },
    };
    if !ends_with(p.as_slice(), &DECRYPTION_TRAILER) {
        return Err(ExtractError::MissingDecryptionTrailer);
    }
    let ghost before = p@;
    p.truncate(plaintext_length as usize);
    assert(p@ =~= truncated(before, plaintext_length as int));
    Ok(p)
}

/// Reads the component directory header and checks its signature.
pub fn parse_component_directory(comp_dir: &[u8]) -> (r: Result<
    ComponentDirectoryHeader,
    ExtractError,
>)
    ensures
        match r {
            Ok(h) => h.encoded_in(comp_dir@) && h.signature@ == COMP_DIR_SIGNATURE@,
            Err(e) => (comp_dir@.len() < 58 && e == ExtractError::UnexpectedEof) || (
            comp_dir@.len() >= 58 && comp_dir@.subrange(0, 16) != COMP_DIR_SIGNATURE@ && e
                == ExtractError::BadComponentDirectorySignature),
        },
{
    let h = match ComponentDirectoryHeader::from_bytes(comp_dir) {
        Ok(h) => h,
        Err(e) => {
            return Err(e);
        },
    };
    if !bytes_eq(&h.signature, &COMP_DIR_SIGNATURE) {
        return Err(ExtractError::BadComponentDirectorySignature);
    }
    Ok(h)
}

/// Offset of the first component descriptor: past the string table, which
/// starts at offset 56.
pub fn first_component_offset(h: &ComponentDirectoryHeader) -> (r: usize)
    ensures
        r == 56 + h.string_table_size,
{
    56 + (h.string_table_size as usize)
}

/// The name stored at `off` in the component directory: the bytes up to the
/// first NUL, or up to the end.
pub fn component_name(comp_dir: &[u8], off: u16) -> (r: Vec<u8>)
    requires
        off <= comp_dir@.len(),
    ensures
        off + r@.len() <= comp_dir@.len(),
        r@ == comp_dir@.subrange(off as int, off + r@.len()),
        forall|k: int| 0 <= k < r@.len() ==> r@[k] != 0,
        off + r@.len() == comp_dir@.len() || comp_dir@[off + r@.len()] == 0,
{
    let mut out: Vec<u8> = Vec::new();
    let mut k: usize = off as usize;
    while k < comp_dir.len() && comp_dir[k] != 0
        invariant
            off <= k <= comp_dir@.len(),
            out@ == comp_dir@.subrange(off as int, k as int),
            forall|m: int| 0 <= m < out@.len() ==> out@[m] != 0,
        decreases comp_dir@.len() - k,
    {
        out.push(comp_dir[k]);
        k += 1;
        assert(out@ =~= comp_dir@.subrange(off as int, k as int));
    }
    out
}

/// A module's clear header must carry the clear header signature and the OUI
/// and MG of the first clear header; its key is then the one already opened.
pub fn check_module_clear_header(clear: &ClearHeader, initial: &ClearHeader) -> (r: Result<
    (),
    ExtractError,
>)
    ensures
        r == (if clear.signature@ != CLEAR_HEADER_SIGNATURE@ {
            Err(ExtractError::BadClearHeaderSignature)
        } else if clear.oui != initial.oui || clear.mg != initial.mg {
            Err(ExtractError::OuiMgMismatch)
        } else {
            Ok::<(), ExtractError>(())
        }),
{
    if !bytes_eq(&clear.signature, &CLEAR_HEADER_SIGNATURE) {
        return Err(ExtractError::BadClearHeaderSignature);
    }
    if clear.oui != initial.oui || clear.mg != initial.mg {
        return Err(ExtractError::OuiMgMismatch);
    }
    Ok(())
}

/// Reads the module header of a decrypted module and takes its contents: the
/// header signature must match, the header must carry the module's position
/// `module_index`, and the contents are `module_size` bytes from `header_size`.
pub fn module_payload(data: &[u8], module_index: usize) -> (r: Result<
    (ModuleHeader, Vec<u8>),
    ExtractError,
>)
    ensures
        match r {
            Ok((h, body)) => h.encoded_in(data@) && h.signature@ == MOD_HDR_SIGNATURE@
                && h.module_index == module_index && h.header_size + h.module_size <= data@.len()
                && body@ == data@.subrange(
                h.header_size as int,
                h.header_size + h.module_size,
            ),
            Err(e) => {
                ||| data@.len() < 40 && e == ExtractError::UnexpectedEof
                ||| data@.len() >= 40 && data@.subrange(0, 16) != MOD_HDR_SIGNATURE@ && e
                    == ExtractError::BadModuleHeaderSignature
                ||| data@.len() >= 40 && data@.subrange(0, 16) == MOD_HDR_SIGNATURE@ && le_u16_at(
                    data@,
                    26,
                ) != module_index && e == ExtractError::ModuleIndexMismatch
                ||| data@.len() >= 40 && data@.subrange(0, 16) == MOD_HDR_SIGNATURE@ && le_u16_at(
                    data@,
                    26,
                ) == module_index && le_u16_at(data@, 18) + le_u32_at(data@, 32) > data@.len()
                    && e == ExtractError::UnexpectedEof
            },
        },
{
    let h = match ModuleHeader::from_bytes(data) {
        Ok(h) => h,
        Err(e) => {
            return Err(e);
        },
    };
    if !bytes_eq(&h.signature, &MOD_HDR_SIGNATURE) {
        return Err(ExtractError::BadModuleHeaderSignature);
    }
    if h.module_index as usize != module_index {
        return Err(ExtractError::ModuleIndexMismatch);
    }
    let start = h.header_size as usize;
    let size = h.module_size as usize;
    if start > data.len() || data.len() - start < size {
        return Err(ExtractError::UnexpectedEof);
    }
    let body = vstd::slice::slice_subrange(data, start, start + size);
    let mut out: Vec<u8> = Vec::new();
    out.extend_from_slice(body);
    assert(out@ =~= data@.subrange(start as int, start + size));
    Ok((h, out))
}

/// What `module_payload` gives for decrypted module data: where the body
/// goes in the component, and the body.
pub open spec fn module_payload_result(data: Seq<u8>, module_index: int) -> Result<
    (int, Seq<u8>),
    ExtractError,
> {
    if data.len() < 40 {
        Err(ExtractError::UnexpectedEof)
    } else if data.subrange(0, 16) != MOD_HDR_SIGNATURE@ {
        Err(ExtractError::BadModuleHeaderSignature)
    } else if le_u16_at(data, 26) != module_index {
        Err(ExtractError::ModuleIndexMismatch)
    } else if le_u16_at(data, 18) + le_u32_at(data, 32) > data.len() {
        Err(ExtractError::UnexpectedEof)
    } else {
        Ok(
            (
                le_u32_at(data, 36) as int,
                data.subrange(le_u16_at(data, 18) as int, le_u16_at(data, 18) + le_u32_at(data, 32)),
            ),
        )
    }
}

/// One module of a component: its encrypted payload decrypted and cut to the
/// module's plaintext size, then its module header read.
pub open spec fn module_step_result(
    enc: Seq<u8>,
    key: Seq<u8>,
    plaintext_size: u32,
    module_index: int,
) -> Result<(int, Seq<u8>), ExtractError> {
    match utv_payload_result(enc, key, plaintext_size) {
        Err(e) => Err(e),
        Ok(data) => module_payload_result(data, module_index),
    }
}

/// A file image after writing `data` at `off`: a gap past the end reads as
/// zeros, and bytes past the written range stay.
pub open spec fn write_at(image: Seq<u8>, off: int, data: Seq<u8>) -> Seq<u8> {
    let base = if off <= image.len() {
        image.take(off)
    } else {
        image + Seq::new((off - image.len()) as nat, |i: int| 0u8)
    };
    let end = off + data.len();
    base + data + if end < image.len() {
        image.skip(end)
    } else {
        Seq::empty()
    }
}

/// A component's file after the first `n` module writes, starting empty.
pub open spec fn component_image(writes: Seq<(int, Seq<u8>)>, n: nat) -> Seq<u8>
    decreases n,
{
    if n == 0 {
        Seq::empty()
    } else {
        write_at(component_image(writes, (n - 1) as nat), writes[n - 1].0, writes[n - 1].1)
    }
}

/// Extracts the modules of one component in order, each checked against the
/// first clear header and decrypted with the opened key.
pub struct ComponentExtraction {
    component: ComponentDescriptor,
    initial: ClearHeader,
    key: [u8; 16],
    next: usize,
    payloads: Ghost<Seq<Seq<u8>>>,
    writes: Ghost<Seq<(int, Seq<u8>)>>,
}

impl ComponentExtraction {
    /// The component's module entries.
    pub closed spec fn modules(&self) -> Seq<ComponentModuleDescriptor> {
        self.component.modules@
    }

    /// The OUI of the first clear header.
    pub closed spec fn initial_oui(&self) -> u32 {
        self.initial.oui
    }

    /// The MG of the first clear header.
    pub closed spec fn initial_mg(&self) -> u32 {
        self.initial.mg
    }

    /// The module key.
    pub closed spec fn key(&self) -> Seq<u8> {
        self.key@
    }

    /// The encrypted payloads of the modules extracted so far.
    pub closed spec fn payloads(&self) -> Seq<Seq<u8>> {
        self.payloads@
    }

    /// The writes made so far: offset in the component file and bytes.
    pub closed spec fn writes(&self) -> Seq<(int, Seq<u8>)> {
        self.writes@
    }

    /// The component's file as the writes so far leave it.
    pub open spec fn image(&self) -> Seq<u8> {
        component_image(self.writes(), self.writes().len())
    }

    /// Module `i` was extracted from payload `i` and gave write `i`.
    pub closed spec fn wf(&self) -> bool {
        &&& self.next == self.payloads@.len()
        &&& self.next == self.writes@.len()
        &&& self.next <= self.component.modules@.len()
        &&& forall|i: int|
            0 <= i < self.next ==> module_step_result(
                #[trigger] self.payloads@[i],
                self.key@,
                self.component.modules@[i].plaintext_size,
                i,
            ) == Ok::<(int, Seq<u8>), ExtractError>(self.writes@[i])
    }

    /// Starts on a component, with the first clear header and the module key.
    pub fn new(component: ComponentDescriptor, initial: &ClearHeader, key: &[u8; 16]) -> (r:
        ComponentExtraction)
        ensures
            r.wf(),
            r.modules() == component.modules@,
            r.initial_oui() == initial.oui,
            r.initial_mg() == initial.mg,
            r.key() == key@,
            r.payloads() == Seq::<Seq<u8>>::empty(),
            r.writes() == Seq::<(int, Seq<u8>)>::empty(),
    {
        ComponentExtraction {
            component,
            initial: *initial,
            key: *key,
            next: 0,
            payloads: Ghost(Seq::empty()),
            writes: Ghost(Seq::empty()),
        }
    }

    /// The component being extracted.
    pub fn descriptor(&self) -> (r: &ComponentDescriptor)
        ensures
            r.modules@ == self.modules(),
    {
        &self.component
    }

    /// The index and the file offset of the next module, or nothing when all
    /// modules are done.
    pub fn next_module(&self) -> (r: Option<(usize, u32)>)
        requires
            self.wf(),
        ensures
            match r {
                Some((i, off)) => i == self.writes().len() && i < self.modules().len() && off
                    == self.modules()[i as int].offset,
                None => self.writes().len() == self.modules().len(),
            },
    {
        if self.next < self.component.modules.len() {
            Some((self.next, self.component.modules[self.next].offset))
        } else {
            None
        }
    }

    /// A module's clear header must carry the clear header signature and the
    /// first clear header's OUI and MG.
    pub fn check_clear_header(&self, clear: &ClearHeader) -> (r: Result<(), ExtractError>)
        ensures
            r == (if clear.signature@ != CLEAR_HEADER_SIGNATURE@ {
                Err(ExtractError::BadClearHeaderSignature)
            } else if clear.oui != self.initial_oui() || clear.mg != self.initial_mg() {
                Err(ExtractError::OuiMgMismatch)
            } else {
                Ok::<(), ExtractError>(())
            }),
    {
        check_module_clear_header(clear, &self.initial)
    }

    /// Extracts the next module from its encrypted payload. Component law: the
    /// component's file is always the bodies of the modules extracted so far,
    /// each written at its module offset, in module order.
    pub fn extract_module(&mut self, enc: &[u8]) -> (r: Result<(u32, Vec<u8>), ExtractError>)
        requires
            old(self).wf(),
            old(self).writes().len() < old(self).modules().len(),
        ensures
            final(self).wf(),
            final(self).modules() == old(self).modules(),
            final(self).initial_oui() == old(self).initial_oui(),
            final(self).initial_mg() == old(self).initial_mg(),
            final(self).key() == old(self).key(),
            final(self).image() == component_image(final(self).writes(), final(self).writes().len()),
            match r {
                Ok((off, body)) => {
                    &&& module_step_result(
                        enc@,
                        old(self).key(),
                        old(self).modules()[old(self).writes().len() as int].plaintext_size,
                        old(self).writes().len() as int,
                    ) == Ok::<(int, Seq<u8>), ExtractError>((off as int, body@))
                    &&& final(self).payloads() == old(self).payloads().push(enc@)
                    &&& final(self).writes() == old(self).writes().push((off as int, body@))
                    &&& final(self).image() == write_at(old(self).image(), off as int, body@)
                },
                Err(e) => {
                    &&& module_step_result(
                        enc@,
                        old(self).key(),
                        old(self).modules()[old(self).writes().len() as int].plaintext_size,
                        old(self).writes().len() as int,
                    ) == Err::<(int, Seq<u8>), ExtractError>(e)
                    &&& final(self).payloads() == old(self).payloads()
                    &&& final(self).writes() == old(self).writes()
                },
            },
    {
        let i = self.next;
        let plaintext_size = self.component.modules[i].plaintext_size;
        let data = match decrypt_utv_payload(enc, &self.key, plaintext_size) {
            Ok(d) => d,
            Err(e) => {
                return Err(e);
            },
        };
        let (h, body) = match module_payload(data.as_slice(), i) {
            Ok(x) => x,
            Err(e) => {
                return Err(e);
            },
        };
        let ghost w = (h.module_offset as int, body@);
        let ghost old_writes = self.writes@;
        let ghost old_payloads = self.payloads@;
        proof {
            assert forall|k: int| 0 <= k < i + 1 implies module_step_result(
                #[trigger] old_payloads.push(enc@)[k],
                self.key@,
                self.component.modules@[k].plaintext_size,
                k,
            ) == Ok::<(int, Seq<u8>), ExtractError>(old_writes.push(w)[k]) by {
                if k < i {
                    assert(old_payloads.push(enc@)[k] == old_payloads[k]);
                    assert(old_writes.push(w)[k] == old_writes[k]);
                }
            }
            assert(old_writes.push(w).drop_last() =~= old_writes);
            lemma_component_image_prefix(old_writes, old_writes.push(w), old_writes.len());
        }
        self.payloads = Ghost(old_payloads.push(enc@));
        self.writes = Ghost(old_writes.push(w));
        self.next = i + 1;
        Ok((h.module_offset, body))
    }
}

/// The image after the first `n` writes depends on those writes only.
proof fn lemma_component_image_prefix(a: Seq<(int, Seq<u8>)>, b: Seq<(int, Seq<u8>)>, n: nat)
    requires
        n <= a.len(),
        n <= b.len(),
        forall|i: int| 0 <= i < n ==> a[i] == b[i],
    ensures
        component_image(a, n) == component_image(b, n),
    decreases n,
{
    if n > 0 {
        lemma_component_image_prefix(a, b, (n - 1) as nat);
        assert(a[n - 1] == b[n - 1]);
    }
}

} // verus!
