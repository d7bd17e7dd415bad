//! The firmware container formats.

pub mod dwcp;
pub mod msd;
pub mod mstar_secure_new;
pub mod utv;



