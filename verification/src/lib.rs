//! A Rijndael (AES) block cipher with cipher-block chaining, built from
//! field arithmetic upwards: the field GF(2^8), the substitution tables,
//! the transformations of the cipher state, the key schedule, the rounds on
//! one block, and the chained encryption and decryption of a byte stream.

pub mod block;
pub mod cbc;
pub mod cipher;
pub mod error;
pub mod field;
pub mod key_schedule;
pub mod operation;
pub mod sbox;
pub mod word;

pub use block::Block;
pub use cbc::{bytes_to_blocks, decrypt, encrypt, pad, split_blocks};
pub use cipher::{aes, cipher, inv_aes, inv_cipher};
pub use error::AesError;
pub use field::{gf_double, gf_mult};
pub use key_schedule::{determine_key_length, key_expansion, rcon};
pub use operation::{parse_operation, process, run, Operation};
pub use sbox::{inverse_substitute, substitute};
pub use word::Word;
