//! Parsers and decryptors for several TV firmware container formats:
//! DWCP update packages, MSD/OUITH encrypted items, the newer MStar secure
//! images and UTV update modules.
//!
//! Every format is read from plain byte buffers; the caller does the file I/O.

pub mod bytes;
pub mod crypto;
pub mod error;
pub mod formats;
