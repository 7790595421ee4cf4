//! What the whole library shares: the numeric capability traits, their
//! implementations for the primitive types, and the error types.

pub mod errors;
pub mod machine_words;
pub mod numbers;
pub mod sequences;
pub mod text;
