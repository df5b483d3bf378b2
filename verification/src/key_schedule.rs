//! The key schedule: the expansion of a cipher key into one round key per
//! round, plus one.

use crate::block::Block;
use crate::error::AesError;
use crate::word::{lemma_xor_word_view, rotated, substituted, xor_bytes, Word};
use vstd::prelude::*;

verus! {

/// The round constants: the powers of `x` in the field, from `x^0` to `x^9`.
pub const R_CON: [u8; 10] = [0x01, 0x02, 0x04, 0x08, 0x10, 0x20, 0x40, 0x80, 0x1b, 0x36];

/// The round constant word with index `j`.
pub open spec fn round_constant(j: int) -> Seq<u8> {
    seq![R_CON[j], 0u8, 0u8, 0u8]
}

/// The number of key words and the number of rounds that belong to a key of
/// `len` bytes, if there are any.
pub open spec fn key_parameters(len: nat) -> Option<(u8, u8)> {
    if len == 16 {
        Some((4u8, 10u8))
    } else if len == 24 {
        Some((6u8, 12u8))
    } else if len == 32 {
        Some((8u8, 14u8))
    } else {
        None
    }
}

/// Whether a key of `nk` words can be expanded for `nr` rounds: the key has
/// at least one word, and no more than the ten round constants are needed.
pub open spec fn schedule_exists(nk: nat, nr: nat) -> bool {
    1 <= nk && 4 * (nr + 1) <= 11 * nk
}

/// Word `i` of the schedule of `key`, a key of `nk` words. The first `nk`
/// words are the key. Each later word is the word `nk` places before it,
/// XORed with the word just before it; that word is first rotated,
/// substituted and XORed with a round constant where `i` is a multiple of
/// `nk`, and substituted where the key has more than six words and `i` is
/// four more than a multiple of `nk`.
pub open spec fn schedule_word(key: Seq<u8>, nk: nat, i: nat) -> Seq<u8>
    decreases i,
{
    if nk == 0 || i < nk {
        key.subrange((4 * i) as int, (4 * i + 4) as int)
    } else {
        let prev = schedule_word(key, nk, (i - 1) as nat);
        let temp = if i % nk == 0 {
            xor_bytes(substituted(rotated(prev)), round_constant(i / nk - 1))
        } else if nk > 6 && i % nk == 4 {
            substituted(prev)
        } else {
            prev
        };
        xor_bytes(schedule_word(key, nk, (i - nk) as nat), temp)
    }
}

/// Round key `r`: the four schedule words from `4r` on, as one block.
pub open spec fn round_key(key: Seq<u8>, nk: nat, r: nat) -> Seq<u8> {
    schedule_word(key, nk, 4 * r) + schedule_word(key, nk, 4 * r + 1) + schedule_word(
        key,
        nk,
        4 * r + 2,
    ) + schedule_word(key, nk, 4 * r + 3)
}

/// The round keys `0 ..= nr` of `key`.
pub open spec fn expanded_key(key: Seq<u8>, nk: nat, nr: nat) -> Seq<Seq<u8>> {
    Seq::new(nr + 1, |r: int| round_key(key, nk, r as nat))
}

/// The blocks of a sequence, each as its sixteen bytes.
pub open spec fn block_views(blocks: Seq<Block>) -> Seq<Seq<u8>> {
    Seq::new(blocks.len(), |i: int| blocks[i]@)
}

/// Every word of a schedule has four bytes, given a key of `nk` words.
pub proof fn lemma_schedule_word_len(key: Seq<u8>, nk: nat, i: nat)
    requires
        nk >= 1,
        key.len() == 4 * nk,
    ensures
        schedule_word(key, nk, i).len() == 4,
    decreases i,
{
    if i >= nk {
        lemma_schedule_word_len(key, nk, (i - nk) as nat);
    }
}

/// Every round key of an expanded key has sixteen bytes.
pub proof fn lemma_expanded_key_len(key: Seq<u8>, nk: nat, nr: nat)
    requires
        nk >= 1,
        key.len() == 4 * nk,
    ensures
        expanded_key(key, nk, nr).len() == nr + 1,
        forall|r: int| 0 <= r <= nr ==> (#[trigger] expanded_key(key, nk, nr)[r]).len() == 16,
{
    assert forall|r: int| 0 <= r <= nr implies (#[trigger] expanded_key(key, nk, nr)[r]).len()
        == 16 by {
        lemma_schedule_word_len(key, nk, (4 * r) as nat);
        lemma_schedule_word_len(key, nk, (4 * r + 1) as nat);
        lemma_schedule_word_len(key, nk, (4 * r + 2) as nat);
        lemma_schedule_word_len(key, nk, (4 * r + 3) as nat);
    }
}

/// The round constant word with index `j`.
pub fn rcon(j: u8) -> (w: Word)
    requires
        j < 10,
    ensures
        w@ == round_constant(j as int),
{
    let w = Word { bytes: [R_CON[j as usize], 0, 0, 0] };
    assert(w@ =~= round_constant(j as int));
    w
}

/// The number of key words and the number of rounds for a key, by its
/// length: 16, 24 or 32 bytes give (4, 10), (6, 12) and (8, 14).
pub fn determine_key_length(key: &[u8]) -> (r: Result<(u8, u8), AesError>)
    ensures
        match key_parameters(key@.len()) {
            Some(p) => r == Ok::<(u8, u8), AesError>(p),
            None => r == Err::<(u8, u8), AesError>(AesError::InvalidKeyLength),
        },
{
    let n = key.len();
    if n == 16 {
        Ok((4, 10))
    } else if n == 24 {
        Ok((6, 12))
    } else if n == 32 {
        Ok((8, 14))
    } else {
        Err(AesError::InvalidKeyLength)
    }
}

/// Expands `key`, a key of `nk` words, into the round keys for `nr` rounds.
pub fn key_expansion(key: &[u8], nk: u8, nr: u8) -> (schedule: Vec<Block>)
    requires
        schedule_exists(nk as nat, nr as nat),
        key@.len() == 4 * nk,
    ensures
        schedule@.len() == nr + 1,
        block_views(schedule@) == expanded_key(key@, nk as nat, nr as nat),
{
    let words_in_key: usize = nk as usize;
    let total: usize = 4 * (nr as usize + 1);
    let ghost k = key@;
    let ghost n = nk as nat;
    let mut w: Vec<Word> = Vec::new();
    let mut i: usize = 0;
    while i < words_in_key
        invariant
            i <= words_in_key,
            words_in_key == nk,
            n == nk,
            k == key@,
            key@.len() == 4 * nk,
            w@.len() == i,
            forall|j: int| 0 <= j < i ==> (#[trigger] w@[j])@ == schedule_word(k, n, j as nat),
        decreases words_in_key - i,
    {
        let word = Word { bytes: [key[4 * i], key[4 * i + 1], key[4 * i + 2], key[4 * i + 3]] };
        assert(word@ =~= schedule_word(k, n, i as nat));
        w.push(word);
        i += 1;
    }
    while i < total
        invariant
            words_in_key <= i,
            words_in_key == nk,
            nk >= 1,
            total == 4 * (nr + 1),
            total <= 11 * nk,
            n == nk,
            k == key@,
            w@.len() == i,
            forall|j: int| 0 <= j < i ==> (#[trigger] w@[j])@ == schedule_word(k, n, j as nat),
        decreases total - i,
    {
        let mut temp = w[i - 1].copy();
        let prior = w[i - words_in_key];
        if i % words_in_key == 0 {
            assert(1 <= i / words_in_key <= 10) by (nonlinear_arith)
                requires
                    1 <= words_in_key <= i < 11 * words_in_key,
            ;
            temp.rot_word();
            temp.sub_word();
            temp.bitxor_assign(rcon((i / words_in_key - 1) as u8));
        } else if words_in_key > 6 && i % words_in_key == 4 {
            temp.sub_word();
        }
        let word = prior ^ temp;
        proof {
            lemma_xor_word_view(prior, temp);
            assert(word@ == schedule_word(k, n, i as nat));
        }
        w.push(word);
        i += 1;
    }
    let mut schedule: Vec<Block> = Vec::new();
    let mut r: usize = 0;
    while r <= nr as usize
        invariant
            r <= nr + 1,
            total == 4 * (nr + 1),
            total <= w@.len(),
            n == nk,
            k == key@,
            forall|j: int| 0 <= j < w@.len() ==> (#[trigger] w@[j])@ == schedule_word(k, n, j as nat),
            schedule@.len() == r,
            forall|j: int| 0 <= j < r ==> (#[trigger] schedule@[j])@ == round_key(k, n, j as nat),
        decreases nr + 1 - r,
    {
        let block = Block { words: [w[4 * r], w[4 * r + 1], w[4 * r + 2], w[4 * r + 3]] };
        assert(block@ == round_key(k, n, r as nat));
        schedule.push(block);
        r += 1;
    }
    assert(block_views(schedule@) =~= expanded_key(k, n, nr as nat));
    schedule
}

} // verus!
