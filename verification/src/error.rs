//! The error taxonomy of the library.
//!
//! Every fallible operation reports exactly one of these kinds; all of them
//! are recoverable and none terminates the process.

use vstd::prelude::*;

verus! {

/// One error kind per failure class of the library.
#[derive(Clone, Copy, Debug, PartialEq, Eq, Structural)]
pub enum CoreError {
    /// A byte buffer has the wrong length or is truncated.
    MalformedInput,
    /// An address buffer has an unknown tag or the wrong length for its tag.
    MalformedAddress,
    /// A bech32 string has a bad checksum or is otherwise not decodable.
    InvalidChecksum,
    /// A human-readable encoding (decimal string, hex string) is not valid.
    InvalidEncoding,
    /// Value addition overflowed or subtraction underflowed.
    ArithmeticError,
    /// A hard derivation index was used to derive a public key.
    HardDerivationOnPublicKey,
    /// A variant accessor was called on a value of another variant.
    WrongVariant,
    /// A delegation ratio with fewer than two pools or a mismatched part sum.
    InvalidRatioSpec,
    /// A block declares more content than the buffer holds.
    TruncatedBlock,
    /// The operating system's random source failed.
    RandomSourceFailed,
}

impl CoreError {
    /// A short printable name of the error kind.
    pub fn as_text(&self) -> &'static str {
        match self {
            CoreError::MalformedInput => "malformed input",
            CoreError::MalformedAddress => "malformed address",
            CoreError::InvalidChecksum => "invalid checksum",
            CoreError::InvalidEncoding => "invalid encoding",
            CoreError::ArithmeticError => "arithmetic error",
            CoreError::HardDerivationOnPublicKey => "hard derivation on public key",
            CoreError::WrongVariant => "wrong variant",
            CoreError::InvalidRatioSpec => "invalid ratio specification",
            CoreError::TruncatedBlock => "truncated block",
            CoreError::RandomSourceFailed => "random source failed",
        }
    }
}

} // verus!
