//! Elementary number theory over machine integers, with every routine proved
//! against a mathematical statement of what it computes.
//!
//! The algorithms are written once against [`general::numbers::Integer`], the
//! capability a fixed-width integer type offers, and are reachable as methods
//! of the traits in [`number_theory`]. The same modules hold plain functions on
//! `usize` and `isize` for callers that want no trait in scope.
//!
//! Arithmetic never wraps and never panics: a routine either proves that its
//! intermediate values fit, asks its caller for the bound that makes them fit,
//! or reports the overflow as a [`general::errors::NumberTheoryErr`].

pub mod general;
pub mod number_theory;
pub mod cryptography;
