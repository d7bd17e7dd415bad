//! AES in CBC mode, the digests and the raw RSA operation used by the formats.

pub mod bignum;
pub mod cbc;
pub mod number_theory;
pub mod primitives;
