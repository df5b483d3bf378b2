//! The ways in which an operation of this library can fail.

use vstd::prelude::*;

verus! {

/// Why an operation was refused. Every error is final: nothing is retried.
#[derive(Clone, Copy, Debug, PartialEq, Eq, Structural)]
pub enum AesError {
    /// The key is not 16, 24 or 32 bytes long.
    InvalidKeyLength,
    /// The operation name is neither `encrypt` nor `decrypt`.
    InvalidOperation,
    /// The ciphertext is empty or its length is not a multiple of the block size.
    InvalidCiphertextLength,
    /// The padding count read from the last byte exceeds the length of the data.
    InvalidPadding,
}

} // verus!
