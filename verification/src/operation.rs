//! The two operations by name, as a caller selects them.

use crate::cbc::{decrypt, decrypt_result, encrypt, encrypt_result, result_matches};
use crate::error::AesError;
use vstd::prelude::*;
use vstd::string::StrSliceExecFns;

verus! {

/// What to do with the input.
#[derive(Clone, Copy, Debug, PartialEq, Eq, Structural)]
pub enum Operation {
    Encrypt,
    Decrypt,
}

/// The operation that a name selects: `encrypt` or `decrypt`, and no other.
pub open spec fn operation_named(name: Seq<char>) -> Result<Operation, AesError> {
    if name == "encrypt"@ {
        Ok(Operation::Encrypt)
    } else if name == "decrypt"@ {
        Ok(Operation::Decrypt)
    } else {
        Err(AesError::InvalidOperation)
    }
}

/// What an operation returns on an input.
pub open spec fn run_result(operation: Operation, bytes: Seq<u8>, key: Seq<u8>, iv: Seq<u8>) -> Result<
    Seq<u8>,
    AesError,
> {
    match operation {
        Operation::Encrypt => encrypt_result(bytes, key, iv),
        Operation::Decrypt => decrypt_result(bytes, key, iv),
    }
}

/// What the operation of a name returns on an input. An unknown name is
/// refused before the key or the input is looked at.
pub open spec fn process_result(name: Seq<char>, bytes: Seq<u8>, key: Seq<u8>, iv: Seq<u8>) -> Result<
    Seq<u8>,
    AesError,
> {
    match operation_named(name) {
        Ok(operation) => run_result(operation, bytes, key, iv),
        Err(e) => Err(e),
    }
}

/// Whether two strings hold the same characters.
fn same_text(a: &str, b: &str) -> (same: bool)
    ensures
        same == (a@ == b@),
{
    let n = a.unicode_len();
    if n != b.unicode_len() {
        return false;
    }
    let mut i: usize = 0;
    while i < n
        invariant
            i <= n,
            n == a@.len(),
            n == b@.len(),
            forall|j: int| 0 <= j < i ==> a@[j] == b@[j],
        decreases n - i,
    {
        if a.get_char(i) != b.get_char(i) {
            return false;
        }
        i += 1;
    }
    assert(a@ =~= b@);
    true
}

/// Reads the name of an operation.
pub fn parse_operation(name: &str) -> (r: Result<Operation, AesError>)
    ensures
        r == operation_named(name@),
{
    if same_text(name, "encrypt") {
        Ok(Operation::Encrypt)
    } else if same_text(name, "decrypt") {
        Ok(Operation::Decrypt)
    } else {
        Err(AesError::InvalidOperation)
    }
}

/// Runs an operation on an input under a key and an initialization vector.
pub fn run(operation: Operation, bytes: &[u8], key: &[u8], iv: [u8; 16]) -> (r: Result<
    Vec<u8>,
    AesError,
>)
    ensures
        result_matches(r, run_result(operation, bytes@, key@, iv@)),
{
    match operation {
        Operation::Encrypt => encrypt(bytes, key, iv),
        Operation::Decrypt => decrypt(bytes, key, iv),
    }
}

/// Runs the operation of the given name on an input.
pub fn process(name: &str, bytes: &[u8], key: &[u8], iv: [u8; 16]) -> (r: Result<
    Vec<u8>,
    AesError,
>)
    ensures
        result_matches(r, process_result(name@, bytes@, key@, iv@)),
{
    match parse_operation(name) {
        Ok(operation) => run(operation, bytes, key, iv),
        Err(e) => Err(e),
    }
}

} // verus!
