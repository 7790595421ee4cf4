//! The failures that the library reports.
//!
//! A routine that cannot give its result returns one of these values instead
//! of wrapping or panicking. The text that a value carries says which
//! operation failed and, where it helps, how far it had come.
use std::string::FromUtf8Error;
use vstd::prelude::*;
use vstd::string::StringExecFns;

verus! {

/// The families of failure in the library.
#[derive(Debug)]
pub enum MathLibErrors {
    NumberTheoryErr,
}

/// Failures of the number-theoretic routines.
#[derive(Debug)]
pub enum NumberTheoryErr {
    /// An exact result does not fit the numeric type.
    Overflow(String),
    /// A modular inverse was asked for operands that are not coprime.
    InverseDNE(String),
}

/// The bytes were not UTF-8: the error of `String::from_utf8`, kept as it
/// came.
#[verifier::external_type_specification]
#[verifier::external_body]
pub struct ExFromUtf8Error(FromUtf8Error);

/// Failures of the classical ciphers.
#[derive(Debug)]
pub enum ClassicalCryptographyErr {
    /// The bytes that a cipher produced are not the UTF-8 encoding of a text.
    FromUtf8Err(FromUtf8Error),
    /// The multiplier of an affine key shares a factor with the modulus.
    AffineKeyError(u8, u8),
}

impl NumberTheoryErr {
    /// What the error says: a heading for the kind of failure, then the
    /// description that the value carries, each on a line of its own.
    pub open spec fn text(self) -> Seq<char> {
        match self {
            NumberTheoryErr::Overflow(what) => "Operation overflow error:\n"@ + what@ + "\n"@,
            NumberTheoryErr::InverseDNE(what) => "Inverse does not exist:\n"@ + what@ + "\n"@,
        }
    }

    /// The error as text.
    pub fn message(&self) -> (s: String)
        ensures
            s@ == self.text(),
    {
        match self {
            NumberTheoryErr::Overflow(what) => {
                let mut s = String::from_str("Operation overflow error:\n");
                s.append(what.as_str());
                s.append("\n");
                s
            },
            NumberTheoryErr::InverseDNE(what) => {
                let mut s = String::from_str("Inverse does not exist:\n");
                s.append(what.as_str());
                s.append("\n");
                s
            },
        }
    }
}

} // verus!
