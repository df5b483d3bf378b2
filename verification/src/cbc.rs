//! Cipher-block chaining over a byte stream: padding, segmentation into
//! blocks, and the chained encryption and decryption of the blocks.

use crate::block::{lemma_xor_block_view, lemma_xor_cancel, Block};
use crate::cipher::{aes_spec, cipher, inv_aes_spec, inv_cipher, lemma_aes_inverse};
use crate::error::AesError;
use crate::key_schedule::{
    block_views, determine_key_length, expanded_key, key_expansion, key_parameters,
};
use crate::word::xor_bytes;
use vstd::prelude::*;

verus! {

/// The number of padding bytes for a plaintext of `len` bytes: between 1
/// and 16, and 16 where `len` is a multiple of 16.
pub open spec fn padding_length(len: nat) -> nat {
    (16 - len % 16) as nat
}

/// The plaintext followed by its padding: `padding_length` bytes, each with
/// that number as its value.
pub open spec fn padded(p: Seq<u8>) -> Seq<u8> {
    p + Seq::new(padding_length(p.len()), |i: int| padding_length(p.len()) as u8)
}

/// The bytes `16i .. 16i + 16` of a byte string.
pub open spec fn segment(s: Seq<u8>, i: int) -> Seq<u8> {
    s.subrange(16 * i, 16 * i + 16)
}

/// The consecutive 16-byte blocks of a byte string, in order.
pub open spec fn segments(s: Seq<u8>) -> Seq<Seq<u8>> {
    Seq::new(s.len() / 16, |i: int| segment(s, i))
}

/// The concatenation of 16-byte blocks.
pub open spec fn joined(blocks: Seq<Seq<u8>>) -> Seq<u8>
    decreases blocks.len(),
{
    if blocks.len() == 0 {
        Seq::empty()
    } else {
        joined(blocks.drop_last()) + blocks.last()
    }
}

/// Whether every block has sixteen bytes.
pub open spec fn all_blocks(blocks: Seq<Seq<u8>>) -> bool {
    forall|i: int| 0 <= i < blocks.len() ==> (#[trigger] blocks[i]).len() == 16
}

/// Ciphertext block `i` of a chain: the cipher applied to plaintext block
/// `i` XORed with ciphertext block `i - 1`. The block before the first is
/// the initialization vector.
pub open spec fn cbc_encrypted_block(
    blocks: Seq<Seq<u8>>,
    key: Seq<u8>,
    iv: Seq<u8>,
    i: int,
) -> Seq<u8>
    decreases i + 1,
{
    if i < 0 {
        iv
    } else {
        aes_spec(xor_bytes(blocks[i], cbc_encrypted_block(blocks, key, iv, i - 1)), key)
    }
}

/// The ciphertext blocks of a chain of plaintext blocks.
pub open spec fn cbc_encrypted(blocks: Seq<Seq<u8>>, key: Seq<u8>, iv: Seq<u8>) -> Seq<Seq<u8>> {
    Seq::new(blocks.len(), |i: int| cbc_encrypted_block(blocks, key, iv, i))
}

/// The block that ciphertext block `i` is chained to: ciphertext block
/// `i - 1`, or the initialization vector for the first block.
pub open spec fn chained_to(blocks: Seq<Seq<u8>>, iv: Seq<u8>, i: int) -> Seq<u8> {
    if i <= 0 {
        iv
    } else {
        blocks[i - 1]
    }
}

/// Plaintext block `i` of a chain: the inverse cipher applied to ciphertext
/// block `i`, XORed with the block it is chained to.
pub open spec fn cbc_decrypted_block(
    blocks: Seq<Seq<u8>>,
    key: Seq<u8>,
    iv: Seq<u8>,
    i: int,
) -> Seq<u8> {
    xor_bytes(inv_aes_spec(blocks[i], key), chained_to(blocks, iv, i))
}

/// The plaintext blocks of a chain of ciphertext blocks.
pub open spec fn cbc_decrypted(blocks: Seq<Seq<u8>>, key: Seq<u8>, iv: Seq<u8>) -> Seq<Seq<u8>> {
    Seq::new(blocks.len(), |i: int| cbc_decrypted_block(blocks, key, iv, i))
}

/// The ciphertext of `p`: the chained encryption of the blocks of the
/// padded plaintext, with nothing added.
pub open spec fn encrypt_spec(p: Seq<u8>, key: Seq<u8>, iv: Seq<u8>) -> Seq<u8> {
    joined(cbc_encrypted(segments(padded(p)), key, iv))
}

/// The padded plaintext of `c`: the chained decryption of its blocks.
pub open spec fn decrypt_blocks_spec(c: Seq<u8>, key: Seq<u8>, iv: Seq<u8>) -> Seq<u8> {
    joined(cbc_decrypted(segments(c), key, iv))
}

/// A byte string without its padding: the last byte says how many bytes to
/// take off the end.
pub open spec fn stripped(d: Seq<u8>) -> Seq<u8> {
    d.subrange(0, d.len() - d.last())
}

/// What encryption returns: the ciphertext, or why there is none.
pub open spec fn encrypt_result(p: Seq<u8>, key: Seq<u8>, iv: Seq<u8>) -> Result<
    Seq<u8>,
    AesError,
> {
    if key_parameters(key.len()) is None {
        Err(AesError::InvalidKeyLength)
    } else {
        Ok(encrypt_spec(p, key, iv))
    }
}

/// What decryption returns: the plaintext, or why there is none. The key
/// is examined first, then the length of the ciphertext, then the padding
/// count, which is taken from the last byte without a look at the bytes
/// before it.
pub open spec fn decrypt_result(c: Seq<u8>, key: Seq<u8>, iv: Seq<u8>) -> Result<
    Seq<u8>,
    AesError,
> {
    if key_parameters(key.len()) is None {
        Err(AesError::InvalidKeyLength)
    } else if c.len() == 0 || c.len() % 16 != 0 {
        Err(AesError::InvalidCiphertextLength)
    } else if decrypt_blocks_spec(c, key, iv).last() > c.len() {
        Err(AesError::InvalidPadding)
    } else {
        Ok(stripped(decrypt_blocks_spec(c, key, iv)))
    }
}

/// Whether a returned result is the given one: the same error, or bytes
/// with the same contents.
pub open spec fn result_matches(r: Result<Vec<u8>, AesError>, s: Result<Seq<u8>, AesError>) -> bool {
    match s {
        Ok(bytes) => r is Ok && r->Ok_0@ == bytes,
        Err(e) => r is Err && r->Err_0 == e,
    }
}

/// The concatenation of `n` blocks has `16 n` bytes.
pub proof fn lemma_joined_len(blocks: Seq<Seq<u8>>)
    requires
        all_blocks(blocks),
    ensures
        joined(blocks).len() == 16 * blocks.len(),
    decreases blocks.len(),
{
    if blocks.len() > 0 {
        lemma_joined_len(blocks.drop_last());
    }
}

/// Block `i` of a concatenation of blocks is the block that went in.
pub proof fn lemma_segment_of_joined(blocks: Seq<Seq<u8>>, i: int)
    requires
        all_blocks(blocks),
        0 <= i < blocks.len(),
    ensures
        segment(joined(blocks), i) == blocks[i],
    decreases blocks.len(),
{
    let front = blocks.drop_last();
    lemma_joined_len(front);
    if i < blocks.len() - 1 {
        lemma_segment_of_joined(front, i);
        assert(segment(joined(blocks), i) =~= segment(joined(front), i));
    } else {
        assert(segment(joined(blocks), i) =~= blocks[i]);
    }
}

/// Cutting a concatenation of blocks into blocks gives the blocks back.
pub proof fn lemma_segments_of_joined(blocks: Seq<Seq<u8>>)
    requires
        all_blocks(blocks),
    ensures
        segments(joined(blocks)) == blocks,
{
    lemma_joined_len(blocks);
    assert forall|i: int| 0 <= i < blocks.len() implies #[trigger] segments(joined(blocks))[i]
        == blocks[i] by {
        lemma_segment_of_joined(blocks, i);
    }
    assert(segments(joined(blocks)) =~= blocks);
}

/// Concatenating the blocks of a byte string whose length is a multiple of
/// 16 gives the string back.
pub proof fn lemma_joined_segments(s: Seq<u8>)
    requires
        s.len() % 16 == 0,
    ensures
        joined(segments(s)) == s,
        all_blocks(segments(s)),
        segments(s).len() * 16 == s.len(),
    decreases s.len(),
{
    if s.len() == 0 {
        assert(joined(segments(s)) =~= s);
    } else {
        let n = s.len() / 16;
        let front = s.subrange(0, s.len() - 16);
        lemma_joined_segments(front);
        assert(segments(s).drop_last() =~= segments(front)) by {
            assert forall|i: int| 0 <= i < n - 1 implies segment(s, i) == segment(front, i) by {
                assert(segment(s, i) =~= segment(front, i));
            }
        }
        assert(segments(s).last() == segment(s, n - 1));
        assert(joined(segments(s)) =~= s);
    }
}

/// The chained decryption of a ciphertext of full blocks has the length of
/// the ciphertext.
pub proof fn lemma_decrypted_len(c: Seq<u8>, key: Seq<u8>, iv: Seq<u8>)
    requires
        key_parameters(key.len()) is Some,
        c.len() % 16 == 0,
    ensures
        decrypt_blocks_spec(c, key, iv).len() == c.len(),
        all_blocks(cbc_decrypted(segments(c), key, iv)),
{
    let blocks = segments(c);
    let clear = cbc_decrypted(blocks, key, iv);
    lemma_joined_segments(c);
    assert forall|i: int| 0 <= i < clear.len() implies (#[trigger] clear[i]).len() == 16 by {
        lemma_aes_inverse(blocks[i], key);
    }
    lemma_joined_len(clear);
}

/// What padding appends: between 1 and 16 bytes, each with their number as
/// its value, to a total length that is a multiple of 16; sixteen bytes of
/// value 16 after a plaintext whose length is a multiple of 16, and
/// `16 - r` bytes of value `16 - r` after one of length `16 n + r`. Taking
/// the padding off gives the plaintext back.
pub proof fn lemma_padded(p: Seq<u8>)
    ensures
        1 <= padding_length(p.len()) <= 16,
        p.len() % 16 == 0 ==> padding_length(p.len()) == 16,
        0 < p.len() % 16 ==> padding_length(p.len()) == 16 - p.len() % 16,
        padded(p).len() == p.len() + padding_length(p.len()),
        padded(p).len() % 16 == 0,
        padded(p).subrange(0, p.len() as int) == p,
        forall|i: int| p.len() <= i < padded(p).len() ==> padded(p)[i] == padding_length(p.len()),
        stripped(padded(p)) == p,
{
    assert(padded(p).subrange(0, p.len() as int) =~= p);
    assert(padded(p).last() == padding_length(p.len()));
}

/// Every ciphertext block of a chain has sixteen bytes.
pub proof fn lemma_cbc_encrypted_len(blocks: Seq<Seq<u8>>, key: Seq<u8>, iv: Seq<u8>)
    requires
        key_parameters(key.len()) is Some,
        all_blocks(blocks),
    ensures
        all_blocks(cbc_encrypted(blocks, key, iv)),
{
    let coded = cbc_encrypted(blocks, key, iv);
    assert forall|i: int| 0 <= i < coded.len() implies (#[trigger] coded[i]).len() == 16 by {
        lemma_aes_inverse(xor_bytes(blocks[i], cbc_encrypted_block(blocks, key, iv, i - 1)), key);
    }
}

/// Chained decryption undoes chained encryption, block by block, under the
/// same key and initialization vector.
pub proof fn lemma_cbc_round_trip(blocks: Seq<Seq<u8>>, key: Seq<u8>, iv: Seq<u8>)
    requires
        key_parameters(key.len()) is Some,
        all_blocks(blocks),
    ensures
        cbc_decrypted(cbc_encrypted(blocks, key, iv), key, iv) == blocks,
{
    let coded = cbc_encrypted(blocks, key, iv);
    let clear = cbc_decrypted(coded, key, iv);
    assert forall|i: int| 0 <= i < blocks.len() implies #[trigger] clear[i] == blocks[i] by {
        let before = cbc_encrypted_block(blocks, key, iv, i - 1);
        assert(before == chained_to(coded, iv, i));
        let mixed_in = xor_bytes(blocks[i], before);
        assert(coded[i] == aes_spec(mixed_in, key));
        lemma_aes_inverse(mixed_in, key);
        lemma_xor_cancel(blocks[i], before);
    }
    assert(clear =~= blocks);
}

/// Decryption undoes encryption: for every plaintext, every key of 16, 24
/// or 32 bytes and every initialization vector, encrypting succeeds, and
/// decrypting the ciphertext under the same key and initialization vector
/// returns the plaintext.
pub proof fn lemma_round_trip(p: Seq<u8>, key: Seq<u8>, iv: Seq<u8>)
    requires
        key_parameters(key.len()) is Some,
    ensures
        encrypt_result(p, key, iv) == Ok::<Seq<u8>, AesError>(encrypt_spec(p, key, iv)),
        decrypt_result(encrypt_spec(p, key, iv), key, iv) == Ok::<Seq<u8>, AesError>(p),
{
    let blocks = segments(padded(p));
    let coded = cbc_encrypted(blocks, key, iv);
    let c = encrypt_spec(p, key, iv);
    lemma_padded(p);
    lemma_joined_segments(padded(p));
    lemma_cbc_encrypted_len(blocks, key, iv);
    lemma_joined_len(coded);
    lemma_segments_of_joined(coded);
    lemma_cbc_round_trip(blocks, key, iv);
    assert(decrypt_blocks_spec(c, key, iv) == padded(p));
}

/// A change to one ciphertext block changes exactly two plaintext blocks
/// under decryption: the block at the same place and the one after it.
/// Every other plaintext block stays as it was.
pub proof fn lemma_chaining_dependency(
    c1: Seq<Seq<u8>>,
    c2: Seq<Seq<u8>>,
    key: Seq<u8>,
    iv: Seq<u8>,
    i: int,
)
    requires
        key_parameters(key.len()) is Some,
        all_blocks(c1),
        all_blocks(c2),
        c1.len() == c2.len(),
        0 <= i < c1.len(),
        c1[i] != c2[i],
        forall|j: int| 0 <= j < c1.len() && j != i ==> c1[j] == c2[j],
    ensures
        forall|j: int|
            0 <= j < c1.len() && j != i && j != i + 1 ==> #[trigger] cbc_decrypted(c1, key, iv)[j]
                == cbc_decrypted(c2, key, iv)[j],
        cbc_decrypted(c1, key, iv)[i] != cbc_decrypted(c2, key, iv)[i],
        i + 1 < c1.len() ==> cbc_decrypted(c1, key, iv)[i + 1] != cbc_decrypted(c2, key, iv)[i + 1],
{
    let clear1 = cbc_decrypted(c1, key, iv);
    let clear2 = cbc_decrypted(c2, key, iv);
    // The block at the place of the change.
    let link = chained_to(c1, iv, i);
    assert(link == chained_to(c2, iv, i));
    let d1 = inv_aes_spec(c1[i], key);
    let d2 = inv_aes_spec(c2[i], key);
    lemma_aes_inverse(c1[i], key);
    lemma_aes_inverse(c2[i], key);
    lemma_xor_cancel(d1, link);
    lemma_xor_cancel(d2, link);
    assert(d1 != d2);
    assert(clear1[i] != clear2[i]);
    // The block after it.
    if i + 1 < c1.len() {
        let d = inv_aes_spec(c1[i + 1], key);
        lemma_aes_inverse(c1[i + 1], key);
        lemma_xor_left_cancel(d, c1[i]);
        lemma_xor_left_cancel(d, c2[i]);
        assert(clear1[i + 1] != clear2[i + 1]);
    }
}

/// XOR with a string of the same length can be undone from the left too.
proof fn lemma_xor_left_cancel(a: Seq<u8>, b: Seq<u8>)
    requires
        a.len() == b.len(),
    ensures
        xor_bytes(a, xor_bytes(a, b)) == b,
{
    assert forall|i: int| 0 <= i < a.len() implies #[trigger] xor_bytes(a, xor_bytes(a, b))[i]
        == b[i] by {
        let x: u8 = a[i];
        let y: u8 = b[i];
        assert(x ^ (x ^ y) == y) by (bit_vector);
    }
    assert(xor_bytes(a, xor_bytes(a, b)) =~= b);
}

/// Appends the sixteen bytes of a block to a byte vector.
fn append_block(out: &mut Vec<u8>, block: &Block)
    ensures
        final(out)@ == old(out)@ + block@,
{
    let bytes = block.as_bytes();
    let ghost before = out@;
    let mut i: usize = 0;
    while i < 16
        invariant
            i <= 16,
            bytes@ == block@,
            out@ == before + bytes@.subrange(0, i as int),
        decreases 16 - i,
    {
        out.push(bytes[i]);
        i += 1;
        assert(out@ =~= before + bytes@.subrange(0, i as int));
    }
    assert(out@ =~= before + block@);
}

/// Appends the padding to a plaintext: `16 - len % 16` bytes of that value,
/// so sixteen bytes of value 16 where the length is a multiple of 16.
pub fn pad(bytes: &[u8]) -> (out: Vec<u8>)
    ensures
        out@ == padded(bytes@),
        out@.len() % 16 == 0,
        out@.len() == bytes@.len() + padding_length(bytes@.len()),
        1 <= padding_length(bytes@.len()) <= 16,
        forall|i: int| bytes@.len() <= i < out@.len() ==> out@[i] == padding_length(bytes@.len()),
{
    let n = bytes.len();
    let count: u8 = (16 - n % 16) as u8;
    let mut out: Vec<u8> = Vec::new();
    let mut i: usize = 0;
    while i < n
        invariant
            i <= n,
            n == bytes@.len(),
            out@ == bytes@.subrange(0, i as int),
        decreases n - i,
    {
        out.push(bytes[i]);
        i += 1;
        assert(out@ =~= bytes@.subrange(0, i as int));
    }
    let mut j: u8 = 0;
    while j < count
        invariant
            j <= count,
            count == padding_length(bytes@.len()),
            out@ == bytes@ + Seq::new(j as nat, |k: int| count),
        decreases count - j,
    {
        out.push(count);
        j += 1;
        assert(out@ =~= bytes@ + Seq::new(j as nat, |k: int| count));
    }
    assert(out@ =~= padded(bytes@));
    out
}

/// Cuts a byte string into its consecutive 16-byte blocks. Bytes after the
/// last full block are left out.
pub fn split_blocks(bytes: &[u8]) -> (blocks: Vec<Block>)
    ensures
        block_views(blocks@) == segments(bytes@),
{
    let n = bytes.len();
    let mut blocks: Vec<Block> = Vec::new();
    let mut at: usize = 0;
    while n - at >= 16
        invariant
            at <= n,
            n == bytes@.len(),
            at == 16 * blocks@.len(),
            forall|j: int| 0 <= j < blocks@.len() ==> (#[trigger] blocks@[j])@ == segment(bytes@, j),
        decreases n - at,
    {
        let block = Block::new(
            [
                bytes[at],
                bytes[at + 1],
                bytes[at + 2],
                bytes[at + 3],
                bytes[at + 4],
                bytes[at + 5],
                bytes[at + 6],
                bytes[at + 7],
                bytes[at + 8],
                bytes[at + 9],
                bytes[at + 10],
                bytes[at + 11],
                bytes[at + 12],
                bytes[at + 13],
                bytes[at + 14],
                bytes[at + 15],
            ],
        );
        assert(block@ =~= segment(bytes@, blocks@.len() as int));
        blocks.push(block);
        at += 16;
    }
    assert(blocks@.len() == bytes@.len() / 16);
    assert(block_views(blocks@) =~= segments(bytes@));
    blocks
}

/// Pads a plaintext and cuts it into blocks.
pub fn bytes_to_blocks(bytes: &[u8]) -> (blocks: Vec<Block>)
    ensures
        block_views(blocks@) == segments(padded(bytes@)),
        blocks@.len() == bytes@.len() / 16 + 1,
{
    let padded_bytes = pad(bytes);
    let blocks = split_blocks(padded_bytes.as_slice());
    assert(blocks@.len() == block_views(blocks@).len());
    blocks
}

/// Encrypts a byte string under `key` with cipher-block chaining from `iv`.
/// The plaintext is padded first, so the ciphertext is at least one block.
pub fn encrypt(bytes: &[u8], key: &[u8], iv: [u8; 16]) -> (r: Result<Vec<u8>, AesError>)
    ensures
        result_matches(r, encrypt_result(bytes@, key@, iv@)),
{
    let (nk, nr) = match determine_key_length(key) {
        Ok(p) => p,
        Err(e) => {
            return Err(e);
        },
    };
    let w = key_expansion(key, nk, nr);
    let blocks = bytes_to_blocks(bytes);
    let ghost plain = block_views(blocks@);
    let ghost target = cbc_encrypted(plain, key@, iv@);
    let mut out: Vec<u8> = Vec::new();
    let mut chain = Block::new(iv);
    let mut i: usize = 0;
    assert(joined(target.subrange(0, 0)) =~= Seq::<u8>::empty());
    while i < blocks.len()
        invariant
            i <= blocks@.len(),
            plain == block_views(blocks@),
            target == cbc_encrypted(plain, key@, iv@),
            key_parameters(key@.len()) == Some((nk, nr)),
            w@.len() == nr + 1,
            block_views(w@) == expanded_key(key@, nk as nat, nr as nat),
            chain@ == cbc_encrypted_block(plain, key@, iv@, i - 1),
            out@ == joined(target.subrange(0, i as int)),
        decreases blocks@.len() - i,
    {
        let ghost previous = chain;
        let mixed_in = blocks[i] ^ chain;
        chain = cipher(mixed_in, nr, w.as_slice());
        append_block(&mut out, &chain);
        proof {
            lemma_xor_block_view(blocks@[i as int], previous);
            assert(plain[i as int] == blocks@[i as int]@);
            assert(chain@ == target[i as int]);
            assert(target.subrange(0, i + 1).drop_last() =~= target.subrange(0, i as int));
        }
        i += 1;
    }
    assert(target.subrange(0, i as int) =~= target);
    Ok(out)
}

/// Decrypts a byte string under `key` with cipher-block chaining from `iv`,
/// and takes the padding off: as many bytes as the last byte says.
pub fn decrypt(bytes: &[u8], key: &[u8], iv: [u8; 16]) -> (r: Result<Vec<u8>, AesError>)
    ensures
        result_matches(r, decrypt_result(bytes@, key@, iv@)),
{
    let (nk, nr) = match determine_key_length(key) {
        Ok(p) => p,
        Err(e) => {
            return Err(e);
        },
    };
    if bytes.len() == 0 || bytes.len() % 16 != 0 {
        return Err(AesError::InvalidCiphertextLength);
    }
    let w = key_expansion(key, nk, nr);
    let blocks = split_blocks(bytes);
    let ghost coded = block_views(blocks@);
    let ghost target = cbc_decrypted(coded, key@, iv@);
    let mut plain: Vec<u8> = Vec::new();
    let mut chain = Block::new(iv);
    let mut i: usize = 0;
    assert(joined(target.subrange(0, 0)) =~= Seq::<u8>::empty());
    while i < blocks.len()
        invariant
            i <= blocks@.len(),
            coded == block_views(blocks@),
            target == cbc_decrypted(coded, key@, iv@),
            key_parameters(key@.len()) == Some((nk, nr)),
            w@.len() == nr + 1,
            block_views(w@) == expanded_key(key@, nk as nat, nr as nat),
            chain@ == chained_to(coded, iv@, i as int),
            plain@ == joined(target.subrange(0, i as int)),
        decreases blocks@.len() - i,
    {
        let block = blocks[i];
        let deciphered = inv_cipher(block, nr, w.as_slice());
        let clear = deciphered ^ chain;
        append_block(&mut plain, &clear);
        proof {
            lemma_xor_block_view(deciphered, chain);
            assert(coded[i as int] == block@);
            assert(clear@ == target[i as int]);
            assert(target.subrange(0, i + 1).drop_last() =~= target.subrange(0, i as int));
        }
        chain = block;
        i += 1;
    }
    assert(target.subrange(0, i as int) =~= target);
    proof {
        lemma_decrypted_len(bytes@, key@, iv@);
    }
    let count = plain[plain.len() - 1] as usize;
    if count > plain.len() {
        return Err(AesError::InvalidPadding);
    }
    plain.truncate(plain.len() - count);
    Ok(plain)
}

} // verus!
