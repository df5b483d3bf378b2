//! The cipher state: a block of sixteen bytes held as four columns, and the
//! transformations of a round on it.

use crate::word::{
    inv_mixed, inv_substituted, lemma_mixed_inverse, mixed, substituted, xor_bytes, xor_word, Word,
};
use crate::sbox::lemma_sbox_inverse;
use vstd::prelude::*;
use vstd::std_specs::ops::BitXorSpecImpl;

verus! {

/// Column `c` of a state: its bytes `4c .. 4c + 4`.
pub open spec fn column(s: Seq<u8>, c: int) -> Seq<u8> {
    s.subrange(4 * c, 4 * c + 4)
}

/// Row `r` of the state rotated left by `r` columns: the byte in row `r` of
/// column `c` comes from row `r` of column `c + r`.
#[verifier::opaque]
pub open spec fn shifted_rows(s: Seq<u8>) -> Seq<u8> {
    Seq::new(16, |i: int| s[4 * ((i / 4 + i % 4) % 4) + i % 4])
}

/// Row `r` of the state rotated right by `r` columns.
#[verifier::opaque]
pub open spec fn inv_shifted_rows(s: Seq<u8>) -> Seq<u8> {
    Seq::new(16, |i: int| s[4 * ((i / 4 + 4 - i % 4) % 4) + i % 4])
}

/// Every column multiplied by the mixing matrix.
#[verifier::opaque]
pub open spec fn mixed_columns(s: Seq<u8>) -> Seq<u8> {
    mixed(column(s, 0)) + mixed(column(s, 1)) + mixed(column(s, 2)) + mixed(column(s, 3))
}

/// Every column multiplied by the inverse mixing matrix.
#[verifier::opaque]
pub open spec fn inv_mixed_columns(s: Seq<u8>) -> Seq<u8> {
    inv_mixed(column(s, 0)) + inv_mixed(column(s, 1)) + inv_mixed(column(s, 2)) + inv_mixed(
        column(s, 3),
    )
}

/// Each transformation of a state gives sixteen bytes.
pub proof fn lemma_state_len(s: Seq<u8>)
    ensures
        shifted_rows(s).len() == 16,
        inv_shifted_rows(s).len() == 16,
        mixed_columns(s).len() == 16,
        inv_mixed_columns(s).len() == 16,
{
    reveal(shifted_rows);
    reveal(inv_shifted_rows);
    reveal(mixed_columns);
    reveal(inv_mixed_columns);
}

/// Substituting the bytes of a string and substituting back, in either
/// order, returns the string.
pub proof fn lemma_substituted_inverse(s: Seq<u8>)
    ensures
        inv_substituted(substituted(s)) == s,
        substituted(inv_substituted(s)) == s,
{
    assert forall|i: int| 0 <= i < s.len() implies #[trigger] inv_substituted(substituted(s))[i]
        == s[i] by {
        lemma_sbox_inverse(s[i]);
    }
    assert forall|i: int| 0 <= i < s.len() implies #[trigger] substituted(inv_substituted(s))[i]
        == s[i] by {
        lemma_sbox_inverse(s[i]);
    }
    assert(inv_substituted(substituted(s)) =~= s);
    assert(substituted(inv_substituted(s)) =~= s);
}

/// Shifting the rows of a state and shifting them back, in either order,
/// returns the state.
pub proof fn lemma_shifted_rows_inverse(s: Seq<u8>)
    requires
        s.len() == 16,
    ensures
        inv_shifted_rows(shifted_rows(s)) == s,
        shifted_rows(inv_shifted_rows(s)) == s,
{
    reveal(shifted_rows);
    reveal(inv_shifted_rows);
    let f = shifted_rows(s);
    let g = inv_shifted_rows(s);
    assert forall|i: int| 0 <= i < 16 implies #[trigger] inv_shifted_rows(f)[i] == s[i] by {
        let r = i % 4;
        let c = i / 4;
        let j = 4 * ((c + 4 - r) % 4) + r;
        assert(0 <= j < 16 && j % 4 == r && j / 4 == (c + 4 - r) % 4);
        assert((j / 4 + j % 4) % 4 == c);
        assert(inv_shifted_rows(f)[i] == f[j]);
        assert(f[j] == s[4 * c + r]);
    }
    assert forall|i: int| 0 <= i < 16 implies #[trigger] shifted_rows(g)[i] == s[i] by {
        let r = i % 4;
        let c = i / 4;
        let j = 4 * ((c + r) % 4) + r;
        assert(0 <= j < 16 && j % 4 == r && j / 4 == (c + r) % 4);
        assert((j / 4 + 4 - j % 4) % 4 == c);
        assert(shifted_rows(g)[i] == g[j]);
        assert(g[j] == s[4 * c + r]);
    }
    assert(inv_shifted_rows(f) =~= s);
    assert(shifted_rows(g) =~= s);
}

/// Column `c` of a state with mixed columns is column `c` of the state, mixed.
proof fn lemma_column_of_mixed(s: Seq<u8>, c: int)
    requires
        s.len() == 16,
        0 <= c < 4,
    ensures
        column(mixed_columns(s), c) == mixed(column(s, c)),
        column(inv_mixed_columns(s), c) == inv_mixed(column(s, c)),
{
    reveal(mixed_columns);
    reveal(inv_mixed_columns);
    assert(column(mixed_columns(s), c) =~= mixed(column(s, c)));
    assert(column(inv_mixed_columns(s), c) =~= inv_mixed(column(s, c)));
}

/// Mixing the columns of a state and mixing them back, in either order,
/// returns the state.
pub proof fn lemma_mixed_columns_inverse(s: Seq<u8>)
    requires
        s.len() == 16,
    ensures
        inv_mixed_columns(mixed_columns(s)) == s,
        mixed_columns(inv_mixed_columns(s)) == s,
{
    reveal(mixed_columns);
    reveal(inv_mixed_columns);
    lemma_column_of_mixed(s, 0);
    lemma_column_of_mixed(s, 1);
    lemma_column_of_mixed(s, 2);
    lemma_column_of_mixed(s, 3);
    lemma_mixed_inverse(column(s, 0));
    lemma_mixed_inverse(column(s, 1));
    lemma_mixed_inverse(column(s, 2));
    lemma_mixed_inverse(column(s, 3));
    assert(column(s, 0) + column(s, 1) + column(s, 2) + column(s, 3) =~= s);
}

/// XOR with the same string twice returns the first string.
pub proof fn lemma_xor_cancel(a: Seq<u8>, b: Seq<u8>)
    ensures
        xor_bytes(xor_bytes(a, b), b) == a,
{
    assert forall|i: int| 0 <= i < a.len() implies #[trigger] xor_bytes(xor_bytes(a, b), b)[i]
        == a[i] by {
        let x: u8 = a[i];
        let y: u8 = b[i];
        assert((x ^ y) ^ y == x) by (bit_vector);
    }
    assert(xor_bytes(xor_bytes(a, b), b) =~= a);
}

/// One cipher block: four words, each a column of the 4-by-4 byte grid.
/// Byte `i` of the block is byte `i % 4` of word `i / 4`.
#[derive(Clone, Copy, Debug, PartialEq, Eq)]
pub struct Block {
    pub words: [Word; 4],
}

impl View for Block {
    type V = Seq<u8>;

    open spec fn view(&self) -> Seq<u8> {
        self.words[0]@ + self.words[1]@ + self.words[2]@ + self.words[3]@
    }
}

/// The block whose words are the XOR of the words of `a` and `b`.
pub open spec fn xor_block(a: Block, b: Block) -> Block {
    Block {
        words: [
            xor_word(a.words[0], b.words[0]),
            xor_word(a.words[1], b.words[1]),
            xor_word(a.words[2], b.words[2]),
            xor_word(a.words[3], b.words[3]),
        ],
    }
}

impl BitXorSpecImpl for Block {
    open spec fn obeys_bitxor_spec() -> bool {
        true
    }

    open spec fn bitxor_req(self, rhs: Block) -> bool {
        true
    }

    open spec fn bitxor_spec(self, rhs: Block) -> Block {
        xor_block(self, rhs)
    }
}

/// The view of the XOR of two blocks is the XOR of their views.
pub proof fn lemma_xor_block_view(a: Block, b: Block)
    ensures
        xor_block(a, b)@ == xor_bytes(a@, b@),
{
    assert(xor_block(a, b)@ =~= xor_bytes(a@, b@));
}

impl core::ops::BitXor for Block {
    type Output = Block;

    fn bitxor(self, rhs: Block) -> (result: Block)
        ensures
            result@ == xor_bytes(self@, rhs@),
    {
        let result = Block {
            words: [
                self.words[0] ^ rhs.words[0],
                self.words[1] ^ rhs.words[1],
                self.words[2] ^ rhs.words[2],
                self.words[3] ^ rhs.words[3],
            ],
        };
        proof {
            assert(result.words =~= xor_block(self, rhs).words);
            lemma_xor_block_view(self, rhs);
        }
        result
    }
}

impl Block {
    /// The block made of sixteen bytes, in order.
    pub fn new(bytes: [u8; 16]) -> (result: Block)
        ensures
            result@ == bytes@,
    {
        let result = Block {
            words: [
                Word { bytes: [bytes[0], bytes[1], bytes[2], bytes[3]] },
                Word { bytes: [bytes[4], bytes[5], bytes[6], bytes[7]] },
                Word { bytes: [bytes[8], bytes[9], bytes[10], bytes[11]] },
                Word { bytes: [bytes[12], bytes[13], bytes[14], bytes[15]] },
            ],
        };
        assert(result@ =~= bytes@);
        result
    }

    /// A copy of this block.
    pub fn copy(&self) -> (result: Block)
        ensures
            result == *self,
    {
        Block { words: self.words }
    }

    /// The sixteen bytes of the block, in order.
    pub fn as_bytes(&self) -> (bytes: [u8; 16])
        ensures
            bytes@ == self@,
    {
        let w0 = self.words[0];
        let w1 = self.words[1];
        let w2 = self.words[2];
        let w3 = self.words[3];
        let bytes: [u8; 16] = [
            w0.bytes[0],
            w0.bytes[1],
            w0.bytes[2],
            w0.bytes[3],
            w1.bytes[0],
            w1.bytes[1],
            w1.bytes[2],
            w1.bytes[3],
            w2.bytes[0],
            w2.bytes[1],
            w2.bytes[2],
            w2.bytes[3],
            w3.bytes[0],
            w3.bytes[1],
            w3.bytes[2],
            w3.bytes[3],
        ];
        assert(bytes@ =~= self@);
        bytes
    }

    /// XORs `rhs` into this block, byte by byte.
    pub fn bitxor_assign(&mut self, rhs: Block)
        ensures
            final(self)@ == xor_bytes(old(self)@, rhs@),
    {
        let mut w0 = self.words[0];
        let mut w1 = self.words[1];
        let mut w2 = self.words[2];
        let mut w3 = self.words[3];
        w0.bitxor_assign(rhs.words[0]);
        w1.bitxor_assign(rhs.words[1]);
        w2.bitxor_assign(rhs.words[2]);
        w3.bitxor_assign(rhs.words[3]);
        self.words = [w0, w1, w2, w3];
        assert(self@ =~= xor_bytes(old(self)@, rhs@));
    }

    /// Applies the forward substitution to every byte.
    pub fn sub_bytes(&mut self)
        ensures
            final(self)@ == substituted(old(self)@),
    {
        let mut w0 = self.words[0];
        let mut w1 = self.words[1];
        let mut w2 = self.words[2];
        let mut w3 = self.words[3];
        w0.sub_word();
        w1.sub_word();
        w2.sub_word();
        w3.sub_word();
        self.words = [w0, w1, w2, w3];
        assert(self@ =~= substituted(old(self)@));
    }

    /// Applies the inverse substitution to every byte.
    pub fn inv_sub_bytes(&mut self)
        ensures
            final(self)@ == inv_substituted(old(self)@),
    {
        let mut w0 = self.words[0];
        let mut w1 = self.words[1];
        let mut w2 = self.words[2];
        let mut w3 = self.words[3];
        w0.inv_sub_word();
        w1.inv_sub_word();
        w2.inv_sub_word();
        w3.inv_sub_word();
        self.words = [w0, w1, w2, w3];
        assert(self@ =~= inv_substituted(old(self)@));
    }

    /// Rotates row `r` of the byte grid left by `r` columns.
    pub fn shift_rows(&mut self)
        ensures
            final(self)@ == shifted_rows(old(self)@),
    {
        let b = self.as_bytes();
        let shifted = Block::new(
            [
                b[0],
                b[5],
                b[10],
                b[15],
                b[4],
                b[9],
                b[14],
                b[3],
                b[8],
                b[13],
                b[2],
                b[7],
                b[12],
                b[1],
                b[6],
                b[11],
            ],
        );
        proof {
            reveal(shifted_rows);
        }
        assert(shifted@ =~= shifted_rows(self@));
        *self = shifted;
    }

    /// Rotates row `r` of the byte grid right by `r` columns.
    pub fn inv_shift_rows(&mut self)
        ensures
            final(self)@ == inv_shifted_rows(old(self)@),
    {
        let b = self.as_bytes();
        let shifted = Block::new(
            [
                b[0],
                b[13],
                b[10],
                b[7],
                b[4],
                b[1],
                b[14],
                b[11],
                b[8],
                b[5],
                b[2],
                b[15],
                b[12],
                b[9],
                b[6],
                b[3],
            ],
        );
        proof {
            reveal(inv_shifted_rows);
        }
        assert(shifted@ =~= inv_shifted_rows(self@));
        *self = shifted;
    }

    /// Multiplies every column by the mixing matrix.
    pub fn mix_columns(&mut self)
        ensures
            final(self)@ == mixed_columns(old(self)@),
    {
        let mut w0 = self.words[0];
        let mut w1 = self.words[1];
        let mut w2 = self.words[2];
        let mut w3 = self.words[3];
        proof {
            assert(column(self@, 0) =~= w0@);
            assert(column(self@, 1) =~= w1@);
            assert(column(self@, 2) =~= w2@);
            assert(column(self@, 3) =~= w3@);
        }
        w0.mix_column();
        w1.mix_column();
        w2.mix_column();
        w3.mix_column();
        self.words = [w0, w1, w2, w3];
        proof {
            reveal(mixed_columns);
        }
        assert(self@ =~= mixed_columns(old(self)@));
    }

    /// Multiplies every column by the inverse mixing matrix.
    pub fn inv_mix_columns(&mut self)
        ensures
            final(self)@ == inv_mixed_columns(old(self)@),
    {
        let mut w0 = self.words[0];
        let mut w1 = self.words[1];
        let mut w2 = self.words[2];
        let mut w3 = self.words[3];
        proof {
            assert(column(self@, 0) =~= w0@);
            assert(column(self@, 1) =~= w1@);
            assert(column(self@, 2) =~= w2@);
            assert(column(self@, 3) =~= w3@);
        }
        w0.inv_mix_column();
        w1.inv_mix_column();
        w2.inv_mix_column();
        w3.inv_mix_column();
        self.words = [w0, w1, w2, w3];
        proof {
            reveal(inv_mixed_columns);
        }
        assert(self@ =~= inv_mixed_columns(old(self)@));
    }

    /// XORs a round key into the state.
    pub fn add_round_key(&mut self, key: Block)
        ensures
            final(self)@ == xor_bytes(old(self)@, key@),
    {
        self.bitxor_assign(key);
    }
}

} // verus!
