//! The ways in which reading a firmware container can fail.

use vstd::prelude::*;

verus! {

/// Why a container could not be read or decrypted.
#[derive(Debug, Clone, Copy, PartialEq, Eq, Structural)]
pub enum ExtractError {
    /// The input ended before a structure could be read in full.
    UnexpectedEof,
    /// A ciphertext is not a whole number of 16-byte AES blocks.
    InvalidCipherLength,
    /// The PKCS#7 padding after CBC decryption is missing or malformed.
    InvalidPadding,
    /// An AES-GCM tag did not authenticate its block.
    AuthenticationFailed,
    /// The DWCP header does not carry version 1.
    InvalidHeaderVersion,
    /// The DWCP encrypted header is not a whole number of metadata blocks.
    MisalignedEncryptedHeader,
    /// The data does not start with the `Salted__` marker.
    InvalidEncryptedData,
    /// A passphrase is neither 16 nor 32 bytes long.
    InvalidPassphraseLength,
    /// None of the candidate keys decrypts the sample.
    NoMatchingKey,
    /// The UTV clear header is not version 1.
    WrongClearHeaderVersion,
    /// The UTV key header is not version 1.
    WrongKeyHeaderVersion,
    /// The UTV key header is not of the RSA (alternative) type.
    WrongKeyHeaderType,
    /// The UTV key header names a cipher other than AES.
    UnsupportedCipherType,
    /// A decrypted UTV payload does not end with the decryption trailer.
    MissingDecryptionTrailer,
    /// The UTV component directory signature is wrong.
    BadComponentDirectorySignature,
    /// A UTV module clear header signature is wrong.
    BadClearHeaderSignature,
    /// A UTV module names another OUI or MG than the first module.
    OuiMgMismatch,
    /// A UTV module header signature is wrong.
    BadModuleHeaderSignature,
    /// A UTV module header carries another index than its position.
    ModuleIndexMismatch,
    /// A candidate AES-256 key is not 32 bytes long.
    InvalidKeyLength,
    /// A candidate RSA modulus is zero.
    ZeroModulus,
}

} // verus!
