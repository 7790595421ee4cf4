//! Ciphers. They are exercises in modular arithmetic, not protection: nothing
//! here is secure or constant-time.

pub mod classical;
