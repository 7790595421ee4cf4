//! The classical ciphers.

pub mod shift_cipher;
