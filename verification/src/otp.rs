//! Time-based one-time passwords from a stored key.

pub mod hotp;
pub mod key_storage;
