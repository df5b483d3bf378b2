//! The cipher on one block: the forward and the inverse sequence of rounds
//! under an expanded key.

use crate::block::{
    inv_mixed_columns, inv_shifted_rows, lemma_mixed_columns_inverse, lemma_shifted_rows_inverse,
    lemma_state_len, lemma_substituted_inverse, lemma_xor_cancel, mixed_columns, shifted_rows,
    Block,
};
use crate::error::AesError;
use crate::key_schedule::{
    block_views, determine_key_length, expanded_key, key_expansion, key_parameters,
    lemma_expanded_key_len,
};
use crate::word::{inv_substituted, substituted, xor_bytes};
use vstd::prelude::*;

verus! {

/// A full round: substitution, row shift, column mixing, round key.
pub open spec fn round(state: Seq<u8>, key: Seq<u8>) -> Seq<u8> {
    xor_bytes(mixed_columns(shifted_rows(substituted(state))), key)
}

/// The last round, which mixes no columns.
pub open spec fn final_round(state: Seq<u8>, key: Seq<u8>) -> Seq<u8> {
    xor_bytes(shifted_rows(substituted(state)), key)
}

/// A full inverse round: inverse row shift, inverse substitution, round
/// key, inverse column mixing.
pub open spec fn inv_round(state: Seq<u8>, key: Seq<u8>) -> Seq<u8> {
    inv_mixed_columns(xor_bytes(inv_substituted(inv_shifted_rows(state)), key))
}

/// The last inverse round, which mixes no columns.
pub open spec fn inv_final_round(state: Seq<u8>, key: Seq<u8>) -> Seq<u8> {
    xor_bytes(inv_substituted(inv_shifted_rows(state)), key)
}

/// The state after the full rounds `1 ..= n`, starting from `state`.
pub open spec fn rounds_upto(state: Seq<u8>, keys: Seq<Seq<u8>>, n: int) -> Seq<u8>
    decreases n,
{
    if n <= 0 {
        state
    } else {
        round(rounds_upto(state, keys, n - 1), keys[n])
    }
}

/// The state after the full inverse rounds `nr - 1`, `nr - 2`, down to `n`,
/// starting from `state`.
pub open spec fn inv_rounds_from(state: Seq<u8>, keys: Seq<Seq<u8>>, nr: int, n: int) -> Seq<u8>
    decreases nr - n,
{
    if n >= nr {
        state
    } else {
        inv_round(inv_rounds_from(state, keys, nr, n + 1), keys[n])
    }
}

/// The forward cipher on one block: round key 0, then the full rounds
/// `1 .. nr`, then the last round with round key `nr`.
pub open spec fn cipher_spec(block: Seq<u8>, keys: Seq<Seq<u8>>, nr: int) -> Seq<u8> {
    final_round(rounds_upto(xor_bytes(block, keys[0]), keys, nr - 1), keys[nr])
}

/// The inverse cipher on one block: round key `nr`, then the full inverse
/// rounds `nr - 1` down to 1, then the last inverse round with round key 0.
pub open spec fn inv_cipher_spec(block: Seq<u8>, keys: Seq<Seq<u8>>, nr: int) -> Seq<u8> {
    inv_final_round(inv_rounds_from(xor_bytes(block, keys[nr]), keys, nr, 1), keys[0])
}

/// The forward cipher under a key of 16, 24 or 32 bytes.
pub open spec fn aes_spec(block: Seq<u8>, key: Seq<u8>) -> Seq<u8> {
    let (nk, nr) = key_parameters(key.len())->0;
    cipher_spec(block, expanded_key(key, nk as nat, nr as nat), nr as int)
}

/// The inverse cipher under a key of 16, 24 or 32 bytes.
pub open spec fn inv_aes_spec(block: Seq<u8>, key: Seq<u8>) -> Seq<u8> {
    let (nk, nr) = key_parameters(key.len())->0;
    inv_cipher_spec(block, expanded_key(key, nk as nat, nr as nat), nr as int)
}

/// Round keys `0 ..= nr` are there, each of sixteen bytes.
pub open spec fn round_keys_fit(keys: Seq<Seq<u8>>, nr: int) -> bool {
    &&& 0 <= nr < keys.len()
    &&& forall|r: int| 0 <= r <= nr ==> (#[trigger] keys[r]).len() == 16
}

/// A round of either kind gives sixteen bytes.
proof fn lemma_round_len(state: Seq<u8>, key: Seq<u8>)
    ensures
        round(state, key).len() == 16,
        final_round(state, key).len() == 16,
        inv_round(state, key).len() == 16,
        inv_final_round(state, key).len() == 16,
{
    lemma_state_len(substituted(state));
    lemma_state_len(shifted_rows(substituted(state)));
    lemma_state_len(state);
    lemma_state_len(xor_bytes(inv_substituted(inv_shifted_rows(state)), key));
}

/// The full rounds keep the sixteen bytes of a state.
proof fn lemma_rounds_upto_len(state: Seq<u8>, keys: Seq<Seq<u8>>, n: int)
    requires
        state.len() == 16,
    ensures
        rounds_upto(state, keys, n).len() == 16,
    decreases n,
{
    if n > 0 {
        lemma_round_len(rounds_upto(state, keys, n - 1), keys[n]);
    }
}

/// The full inverse rounds keep the sixteen bytes of a state.
proof fn lemma_inv_rounds_from_len(state: Seq<u8>, keys: Seq<Seq<u8>>, nr: int, n: int)
    requires
        state.len() == 16,
    ensures
        inv_rounds_from(state, keys, nr, n).len() == 16,
    decreases nr - n,
{
    if n < nr {
        lemma_round_len(inv_rounds_from(state, keys, nr, n + 1), keys[n]);
    }
}

/// The forward and the inverse cipher give sixteen bytes for sixteen.
pub proof fn lemma_cipher_len(block: Seq<u8>, keys: Seq<Seq<u8>>, nr: int)
    requires
        block.len() == 16,
    ensures
        cipher_spec(block, keys, nr).len() == 16,
        inv_cipher_spec(block, keys, nr).len() == 16,
{
    lemma_round_len(rounds_upto(xor_bytes(block, keys[0]), keys, nr - 1), keys[nr]);
    lemma_round_len(inv_rounds_from(xor_bytes(block, keys[nr]), keys, nr, 1), keys[0]);
}

/// Undoing the substitution and the row shift of a state, in either order
/// of doing and undoing.
proof fn lemma_sub_shift_inverse(s: Seq<u8>)
    requires
        s.len() == 16,
    ensures
        inv_substituted(inv_shifted_rows(shifted_rows(substituted(s)))) == s,
        shifted_rows(substituted(inv_substituted(inv_shifted_rows(s)))) == s,
{
    lemma_shifted_rows_inverse(substituted(s));
    lemma_substituted_inverse(s);
    lemma_substituted_inverse(inv_shifted_rows(s));
    lemma_shifted_rows_inverse(s);
}

/// While deciphering a ciphertext that the forward cipher made, the state
/// before inverse round `n - 1` is the state that the forward cipher had
/// after round `n - 1`, substituted and shifted.
proof fn lemma_inverse_retraces(x0: Seq<u8>, keys: Seq<Seq<u8>>, nr: int, n: int)
    requires
        x0.len() == 16,
        round_keys_fit(keys, nr),
        1 <= n,
        n <= nr || n == 1,
    ensures
        inv_rounds_from(
            shifted_rows(substituted(rounds_upto(x0, keys, nr - 1))),
            keys,
            nr,
            n,
        ) == shifted_rows(substituted(rounds_upto(x0, keys, n - 1))),
    decreases nr - n,
{
    if n < nr {
        lemma_inverse_retraces(x0, keys, nr, n + 1);
        let before = rounds_upto(x0, keys, n - 1);
        let after = rounds_upto(x0, keys, n);
        lemma_rounds_upto_len(x0, keys, n - 1);
        lemma_rounds_upto_len(x0, keys, n);
        let g = shifted_rows(substituted(before));
        lemma_state_len(substituted(before));
        lemma_state_len(g);
        assert(after == xor_bytes(mixed_columns(g), keys[n]));
        lemma_sub_shift_inverse(after);
        lemma_xor_cancel(mixed_columns(g), keys[n]);
        lemma_mixed_columns_inverse(g);
    }
}

/// While enciphering a plaintext that the inverse cipher made, the state
/// after round `n` is the state that the inverse cipher had before inverse
/// round `n`, with its row shift and substitution undone.
proof fn lemma_forward_retraces(y: Seq<u8>, keys: Seq<Seq<u8>>, nr: int, n: int)
    requires
        y.len() == 16,
        round_keys_fit(keys, nr),
        0 <= n,
        n < nr || n == 0,
    ensures
        rounds_upto(
            inv_substituted(inv_shifted_rows(inv_rounds_from(y, keys, nr, 1))),
            keys,
            n,
        ) == inv_substituted(inv_shifted_rows(inv_rounds_from(y, keys, nr, n + 1))),
    decreases n,
{
    if n > 0 {
        lemma_forward_retraces(y, keys, nr, n - 1);
        let later = inv_rounds_from(y, keys, nr, n + 1);
        let now = inv_rounds_from(y, keys, nr, n);
        lemma_inv_rounds_from_len(y, keys, nr, n + 1);
        lemma_inv_rounds_from_len(y, keys, nr, n);
        let h = inv_substituted(inv_shifted_rows(later));
        lemma_state_len(later);
        assert(now == inv_mixed_columns(xor_bytes(h, keys[n])));
        lemma_sub_shift_inverse(now);
        lemma_mixed_columns_inverse(xor_bytes(h, keys[n]));
        lemma_xor_cancel(h, keys[n]);
    }
}

/// The inverse cipher undoes the forward cipher under the same round keys,
/// and the forward cipher undoes the inverse cipher.
pub proof fn lemma_cipher_inverse(block: Seq<u8>, keys: Seq<Seq<u8>>, nr: int)
    requires
        block.len() == 16,
        round_keys_fit(keys, nr),
    ensures
        inv_cipher_spec(cipher_spec(block, keys, nr), keys, nr) == block,
        cipher_spec(inv_cipher_spec(block, keys, nr), keys, nr) == block,
{
    // Deciphering what was enciphered.
    let x0 = xor_bytes(block, keys[0]);
    let last = rounds_upto(x0, keys, nr - 1);
    let g = shifted_rows(substituted(last));
    lemma_rounds_upto_len(x0, keys, nr - 1);
    lemma_state_len(substituted(last));
    lemma_xor_cancel(g, keys[nr]);
    lemma_inverse_retraces(x0, keys, nr, 1);
    assert(rounds_upto(x0, keys, 0) == x0);
    lemma_sub_shift_inverse(x0);
    lemma_xor_cancel(block, keys[0]);
    // Enciphering what was deciphered.
    let y = xor_bytes(block, keys[nr]);
    let first = inv_rounds_from(y, keys, nr, 1);
    let h = inv_substituted(inv_shifted_rows(first));
    lemma_inv_rounds_from_len(y, keys, nr, 1);
    lemma_state_len(first);
    lemma_xor_cancel(h, keys[0]);
    if nr >= 1 {
        lemma_forward_retraces(y, keys, nr, nr - 1);
    }
    assert(inv_rounds_from(y, keys, nr, nr) == y);
    lemma_sub_shift_inverse(y);
    lemma_xor_cancel(block, keys[nr]);
}

/// Enciphers one block under the round keys `w`, in `n_rounds` rounds.
pub fn cipher(inblock: Block, n_rounds: u8, w: &[Block]) -> (outblock: Block)
    requires
        n_rounds < w@.len(),
    ensures
        outblock@ == cipher_spec(inblock@, block_views(w@), n_rounds as int),
{
    let ghost keys = block_views(w@);
    let mut state = inblock;
    state.add_round_key(w[0]);
    let ghost x0 = state@;
    let mut i: u8 = 1;
    while i < n_rounds
        invariant
            1 <= i,
            i <= n_rounds || i == 1,
            n_rounds < w@.len(),
            keys == block_views(w@),
            state@ == rounds_upto(x0, keys, i - 1),
        decreases n_rounds - i,
    {
        state.sub_bytes();
        state.shift_rows();
        state.mix_columns();
        state.add_round_key(w[i as usize]);
        i += 1;
    }
    assert(state@ == rounds_upto(x0, keys, n_rounds - 1));
    state.sub_bytes();
    state.shift_rows();
    state.add_round_key(w[n_rounds as usize]);
    state
}

/// Deciphers one block under the round keys `w`, in `n_rounds` rounds.
pub fn inv_cipher(inblock: Block, n_rounds: u8, w: &[Block]) -> (outblock: Block)
    requires
        n_rounds < w@.len(),
    ensures
        outblock@ == inv_cipher_spec(inblock@, block_views(w@), n_rounds as int),
{
    let ghost keys = block_views(w@);
    let mut state = inblock;
    state.add_round_key(w[n_rounds as usize]);
    let ghost y = state@;
    let mut i: u8 = n_rounds;
    while i > 1
        invariant
            i <= n_rounds,
            1 <= i || n_rounds == 0,
            n_rounds < w@.len(),
            keys == block_views(w@),
            state@ == inv_rounds_from(y, keys, n_rounds as int, i as int),
        decreases i,
    {
        i -= 1;
        state.inv_shift_rows();
        state.inv_sub_bytes();
        state.add_round_key(w[i as usize]);
        state.inv_mix_columns();
    }
    assert(state@ == inv_rounds_from(y, keys, n_rounds as int, 1)) by {
        if n_rounds == 0 {
            assert(inv_rounds_from(y, keys, 0, 0) == y);
            assert(inv_rounds_from(y, keys, 0, 1) == y);
        }
    }
    state.inv_shift_rows();
    state.inv_sub_bytes();
    state.add_round_key(w[0]);
    state
}

/// Enciphers one block under `key`.
pub fn aes(inblock: Block, key: &[u8]) -> (r: Result<Block, AesError>)
    ensures
        key_parameters(key@.len()) is Some ==> r is Ok && r->Ok_0@ == aes_spec(inblock@, key@),
        key_parameters(key@.len()) is None ==> r == Err::<Block, AesError>(
            AesError::InvalidKeyLength,
        ),
{
    match determine_key_length(key) {
        Ok((nk, nr)) => {
            let w = key_expansion(key, nk, nr);
            Ok(cipher(inblock, nr, w.as_slice()))
        },
        Err(e) => Err(e),
    }
}

/// Deciphers one block under `key`.
pub fn inv_aes(inblock: Block, key: &[u8]) -> (r: Result<Block, AesError>)
    ensures
        key_parameters(key@.len()) is Some ==> r is Ok && r->Ok_0@ == inv_aes_spec(
            inblock@,
            key@,
        ),
        key_parameters(key@.len()) is None ==> r == Err::<Block, AesError>(
            AesError::InvalidKeyLength,
        ),
{
    match determine_key_length(key) {
        Ok((nk, nr)) => {
            let w = key_expansion(key, nk, nr);
            Ok(inv_cipher(inblock, nr, w.as_slice()))
        },
        Err(e) => Err(e),
    }
}

/// Under a key of 16, 24 or 32 bytes the inverse cipher undoes the forward
/// cipher on every block, and the forward cipher undoes the inverse cipher.
pub proof fn lemma_aes_inverse(block: Seq<u8>, key: Seq<u8>)
    requires
        block.len() == 16,
        key_parameters(key.len()) is Some,
    ensures
        inv_aes_spec(aes_spec(block, key), key) == block,
        aes_spec(inv_aes_spec(block, key), key) == block,
        aes_spec(block, key).len() == 16,
        inv_aes_spec(block, key).len() == 16,
{
    let (nk, nr) = key_parameters(key.len())->0;
    let keys = expanded_key(key, nk as nat, nr as nat);
    lemma_expanded_key_len(key, nk as nat, nr as nat);
    lemma_cipher_inverse(block, keys, nr as int);
    lemma_cipher_len(block, keys, nr as int);
}

} // verus!
