//! Words: the four-byte columns of the cipher state, and the operations of
//! the cipher on one column.

use crate::field::{gf_double, gf_mult, gf_product, xtime};
use crate::sbox::{inv_sbox, inverse_substitute, sbox, substitute};
use vstd::prelude::*;
use vstd::std_specs::ops::BitXorSpecImpl;

verus! {

/// Byte-wise XOR of two byte strings of the same length.
pub open spec fn xor_bytes(a: Seq<u8>, b: Seq<u8>) -> Seq<u8> {
    Seq::new(a.len(), |i: int| a[i] ^ b[i])
}

/// Every byte replaced by its forward substitution.
pub open spec fn substituted(s: Seq<u8>) -> Seq<u8> {
    Seq::new(s.len(), |i: int| sbox(s[i]))
}

/// Every byte replaced by its inverse substitution.
pub open spec fn inv_substituted(s: Seq<u8>) -> Seq<u8> {
    Seq::new(s.len(), |i: int| inv_sbox(s[i]))
}

/// A word rotated left by one byte: the first byte wraps to the end.
pub open spec fn rotated(w: Seq<u8>) -> Seq<u8> {
    seq![w[1], w[2], w[3], w[0]]
}

/// One row of the column-mixing matrix `[2 3 1 1]` applied to a column.
#[verifier::opaque]
pub open spec fn mix_row(a: u8, b: u8, c: u8, d: u8) -> u8 {
    gf_product(a, 2) ^ gf_product(b, 3) ^ c ^ d
}

/// One row of the inverse matrix `[14 11 13 9]` applied to a column.
#[verifier::opaque]
pub open spec fn inv_mix_row(a: u8, b: u8, c: u8, d: u8) -> u8 {
    gf_product(a, 14) ^ gf_product(b, 11) ^ gf_product(c, 13) ^ gf_product(d, 9)
}

/// A column multiplied by the circulant mixing matrix over the field.
pub open spec fn mixed(w: Seq<u8>) -> Seq<u8> {
    seq![
        mix_row(w[0], w[1], w[2], w[3]),
        mix_row(w[1], w[2], w[3], w[0]),
        mix_row(w[2], w[3], w[0], w[1]),
        mix_row(w[3], w[0], w[1], w[2]),
    ]
}

/// A column multiplied by the inverse of the mixing matrix.
pub open spec fn inv_mixed(w: Seq<u8>) -> Seq<u8> {
    seq![
        inv_mix_row(w[0], w[1], w[2], w[3]),
        inv_mix_row(w[1], w[2], w[3], w[0]),
        inv_mix_row(w[2], w[3], w[0], w[1]),
        inv_mix_row(w[3], w[0], w[1], w[2]),
    ]
}

/// `a` times 3, as doublings and sums.
pub open spec fn times3(a: u8) -> u8 {
    xtime(a) ^ a
}

/// `a` times 4, as doublings.
pub open spec fn times4(a: u8) -> u8 {
    xtime(xtime(a))
}

/// `a` times 9, as doublings and sums.
pub open spec fn times9(a: u8) -> u8 {
    xtime(xtime(xtime(a))) ^ a
}

/// `a` times 11, as doublings and sums.
pub open spec fn times11(a: u8) -> u8 {
    xtime(xtime(xtime(a))) ^ xtime(a) ^ a
}

/// `a` times 13, as doublings and sums.
pub open spec fn times13(a: u8) -> u8 {
    xtime(xtime(xtime(a))) ^ xtime(xtime(a)) ^ a
}

/// `a` times 14, as doublings and sums.
pub open spec fn times14(a: u8) -> u8 {
    xtime(xtime(xtime(a))) ^ xtime(xtime(a)) ^ xtime(a)
}

/// The field products by the constants of the two mixing matrices, written
/// out as doublings and sums.
pub proof fn lemma_products_by_constants(a: u8)
    ensures
        gf_product(a, 2) == xtime(a),
        gf_product(a, 3) == times3(a),
        gf_product(a, 4) == times4(a),
        gf_product(a, 9) == times9(a),
        gf_product(a, 11) == times11(a),
        gf_product(a, 13) == times13(a),
        gf_product(a, 14) == times14(a),
{
    reveal_with_fuel(gf_product, 5);
    let x1: u8 = xtime(a);
    let x2: u8 = xtime(x1);
    let x3: u8 = xtime(x2);
    assert(0u8 ^ x1 == x1) by (bit_vector);
    assert(0u8 ^ x2 == x2) by (bit_vector);
    assert(0u8 ^ x3 == x3) by (bit_vector);
}

/// The row `[2 3 1 1]` in doublings and sums.
pub open spec fn mix_row_closed(a: u8, b: u8, c: u8, d: u8) -> u8 {
    xtime(a) ^ times3(b) ^ c ^ d
}

/// The row `[14 11 13 9]` in doublings and sums.
pub open spec fn inv_mix_row_closed(a: u8, b: u8, c: u8, d: u8) -> u8 {
    times14(a) ^ times11(b) ^ times13(c) ^ times9(d)
}

proof fn lemma_rows_closed(a: u8, b: u8, c: u8, d: u8)
    ensures
        mix_row(a, b, c, d) == mix_row_closed(a, b, c, d),
        inv_mix_row(a, b, c, d) == inv_mix_row_closed(a, b, c, d),
{
    reveal(mix_row);
    reveal(inv_mix_row);
    lemma_products_by_constants(a);
    lemma_products_by_constants(b);
    lemma_products_by_constants(c);
    lemma_products_by_constants(d);
}

/// Doubling and the products by the matrix constants distribute over sums.
proof fn lemma_linear(p: u8, q: u8)
    ensures
        xtime(p ^ q) == xtime(p) ^ xtime(q),
        times3(p ^ q) == times3(p) ^ times3(q),
        times4(p ^ q) == times4(p) ^ times4(q),
        times9(p ^ q) == times9(p) ^ times9(q),
        times11(p ^ q) == times11(p) ^ times11(q),
        times13(p ^ q) == times13(p) ^ times13(q),
        times14(p ^ q) == times14(p) ^ times14(q),
{
    assert(xtime(p ^ q) == xtime(p) ^ xtime(q)) by (bit_vector);
    assert(times3(p ^ q) == times3(p) ^ times3(q)) by (bit_vector);
    assert(times4(p ^ q) == times4(p) ^ times4(q)) by (bit_vector);
    assert(times9(p ^ q) == times9(p) ^ times9(q)) by (bit_vector);
    assert(times11(p ^ q) == times11(p) ^ times11(q)) by (bit_vector);
    assert(times13(p ^ q) == times13(p) ^ times13(q)) by (bit_vector);
    assert(times14(p ^ q) == times14(p) ^ times14(q)) by (bit_vector);
}

/// The same for a sum of four terms.
proof fn lemma_linear4(p: u8, q: u8, r: u8, s: u8)
    ensures
        xtime(p ^ q ^ r ^ s) == xtime(p) ^ xtime(q) ^ xtime(r) ^ xtime(s),
        times3(p ^ q ^ r ^ s) == times3(p) ^ times3(q) ^ times3(r) ^ times3(s),
        times9(p ^ q ^ r ^ s) == times9(p) ^ times9(q) ^ times9(r) ^ times9(s),
        times11(p ^ q ^ r ^ s) == times11(p) ^ times11(q) ^ times11(r) ^ times11(s),
        times13(p ^ q ^ r ^ s) == times13(p) ^ times13(q) ^ times13(r) ^ times13(s),
        times14(p ^ q ^ r ^ s) == times14(p) ^ times14(q) ^ times14(r) ^ times14(s),
{
    lemma_linear(p ^ q ^ r, s);
    lemma_linear(p ^ q, r);
    lemma_linear(p, q);
}

/// The products of the rows of one matrix with the columns of the other, on
/// one field element: the diagonal entry is one, the others are zero.
proof fn lemma_matrix_products(z: u8)
    ensures
        times14(xtime(z)) ^ times11(z) ^ times13(z) ^ times9(times3(z)) == z,
        times14(times3(z)) ^ times11(xtime(z)) ^ times13(z) ^ times9(z) == 0,
        times14(z) ^ times11(times3(z)) ^ times13(xtime(z)) ^ times9(z) == 0,
        times14(z) ^ times11(z) ^ times13(times3(z)) ^ times9(xtime(z)) == 0,
        xtime(times14(z)) ^ times3(times9(z)) ^ times13(z) ^ times11(z) == z,
        xtime(times11(z)) ^ times3(times14(z)) ^ times9(z) ^ times13(z) == 0,
        xtime(times13(z)) ^ times3(times11(z)) ^ times14(z) ^ times9(z) == 0,
        xtime(times9(z)) ^ times3(times13(z)) ^ times11(z) ^ times14(z) == 0,
        xtime(z) ^ xtime(times4(z)) ^ times4(z) == times14(z),
        times3(z) ^ times3(times4(z)) ^ times4(z) == times11(z),
        z ^ xtime(times4(z)) ^ times4(z) == times13(z),
        z ^ times3(times4(z)) ^ times4(z) == times9(z),
{
    assert(times14(xtime(z)) ^ times11(z) ^ times13(z) ^ times9(times3(z)) == z) by (bit_vector);
    assert(times14(times3(z)) ^ times11(xtime(z)) ^ times13(z) ^ times9(z) == 0) by (bit_vector);
    assert(times14(z) ^ times11(times3(z)) ^ times13(xtime(z)) ^ times9(z) == 0) by (bit_vector);
    assert(times14(z) ^ times11(z) ^ times13(times3(z)) ^ times9(xtime(z)) == 0) by (bit_vector);
    assert(xtime(times14(z)) ^ times3(times9(z)) ^ times13(z) ^ times11(z) == z) by (bit_vector);
    assert(xtime(times11(z)) ^ times3(times14(z)) ^ times9(z) ^ times13(z) == 0) by (bit_vector);
    assert(xtime(times13(z)) ^ times3(times11(z)) ^ times14(z) ^ times9(z) == 0) by (bit_vector);
    assert(xtime(times9(z)) ^ times3(times13(z)) ^ times11(z) ^ times14(z) == 0) by (bit_vector);
    assert(xtime(z) ^ xtime(times4(z)) ^ times4(z) == times14(z)) by (bit_vector);
    assert(times3(z) ^ times3(times4(z)) ^ times4(z) == times11(z)) by (bit_vector);
    assert(z ^ xtime(times4(z)) ^ times4(z) == times13(z)) by (bit_vector);
    assert(z ^ times3(times4(z)) ^ times4(z) == times9(z)) by (bit_vector);
}

/// The inverse row undoes the mixing of a column, and the other way round.
pub proof fn lemma_mix_rows_inverse(a: u8, b: u8, c: u8, d: u8)
    ensures
        inv_mix_row(
            mix_row(a, b, c, d),
            mix_row(b, c, d, a),
            mix_row(c, d, a, b),
            mix_row(d, a, b, c),
        ) == a,
        mix_row(
            inv_mix_row(a, b, c, d),
            inv_mix_row(b, c, d, a),
            inv_mix_row(c, d, a, b),
            inv_mix_row(d, a, b, c),
        ) == a,
{
    lemma_rows_closed(a, b, c, d);
    lemma_rows_closed(b, c, d, a);
    lemma_rows_closed(c, d, a, b);
    lemma_rows_closed(d, a, b, c);
    lemma_matrix_products(a);
    lemma_matrix_products(b);
    lemma_matrix_products(c);
    lemma_matrix_products(d);
    // The inverse matrix after the forward one.
    let m0: u8 = mix_row(a, b, c, d);
    let m1: u8 = mix_row(b, c, d, a);
    let m2: u8 = mix_row(c, d, a, b);
    let m3: u8 = mix_row(d, a, b, c);
    lemma_rows_closed(m0, m1, m2, m3);
    lemma_linear4(xtime(a), times3(b), c, d);
    lemma_linear4(xtime(b), times3(c), d, a);
    lemma_linear4(xtime(c), times3(d), a, b);
    lemma_linear4(xtime(d), times3(a), b, c);
    let e00: u8 = times14(xtime(a));
    let e01: u8 = times14(times3(b));
    let e02: u8 = times14(c);
    let e03: u8 = times14(d);
    let e10: u8 = times11(xtime(b));
    let e11: u8 = times11(times3(c));
    let e12: u8 = times11(d);
    let e13: u8 = times11(a);
    let e20: u8 = times13(xtime(c));
    let e21: u8 = times13(times3(d));
    let e22: u8 = times13(a);
    let e23: u8 = times13(b);
    let e30: u8 = times9(xtime(d));
    let e31: u8 = times9(times3(a));
    let e32: u8 = times9(b);
    let e33: u8 = times9(c);
    let r: u8 = inv_mix_row(m0, m1, m2, m3);
    assert(r == a) by (bit_vector)
        requires
            r == (e00 ^ e01 ^ e02 ^ e03) ^ (e10 ^ e11 ^ e12 ^ e13) ^ (e20 ^ e21 ^ e22 ^ e23) ^ (e30
                ^ e31 ^ e32 ^ e33),
            e00 ^ e13 ^ e22 ^ e31 == a,
            e01 ^ e10 ^ e23 ^ e32 == 0,
            e02 ^ e11 ^ e20 ^ e33 == 0,
            e03 ^ e12 ^ e21 ^ e30 == 0,
    ;
    // The forward matrix after the inverse one.
    let n0: u8 = inv_mix_row(a, b, c, d);
    let n1: u8 = inv_mix_row(b, c, d, a);
    let n2: u8 = inv_mix_row(c, d, a, b);
    let n3: u8 = inv_mix_row(d, a, b, c);
    lemma_rows_closed(n0, n1, n2, n3);
    lemma_linear4(times14(a), times11(b), times13(c), times9(d));
    lemma_linear4(times14(b), times11(c), times13(d), times9(a));
    let g00: u8 = xtime(times14(a));
    let g01: u8 = xtime(times11(b));
    let g02: u8 = xtime(times13(c));
    let g03: u8 = xtime(times9(d));
    let g10: u8 = times3(times14(b));
    let g11: u8 = times3(times11(c));
    let g12: u8 = times3(times13(d));
    let g13: u8 = times3(times9(a));
    let g20: u8 = times14(c);
    let g21: u8 = times11(d);
    let g22: u8 = times13(a);
    let g23: u8 = times9(b);
    let g30: u8 = times14(d);
    let g31: u8 = times11(a);
    let g32: u8 = times13(b);
    let g33: u8 = times9(c);
    let t: u8 = mix_row(n0, n1, n2, n3);
    assert(t == a) by (bit_vector)
        requires
            t == (g00 ^ g01 ^ g02 ^ g03) ^ (g10 ^ g11 ^ g12 ^ g13) ^ (g20 ^ g21 ^ g22 ^ g23) ^ (g30
                ^ g31 ^ g32 ^ g33),
            g00 ^ g13 ^ g22 ^ g31 == a,
            g01 ^ g10 ^ g23 ^ g32 == 0,
            g02 ^ g11 ^ g20 ^ g33 == 0,
            g03 ^ g12 ^ g21 ^ g30 == 0,
    ;
}

/// The inverse row is the forward row applied to the column after `4 * (a + c)`
/// was added to `a` and `c`, and `4 * (b + d)` to `b` and `d`.
pub proof fn lemma_inv_mix_row_factored(a: u8, b: u8, c: u8, d: u8, u: u8, v: u8)
    requires
        u == gf_product(a ^ c, 4),
        v == gf_product(b ^ d, 4),
    ensures
        mix_row(a ^ u, b ^ v, c ^ u, d ^ v) == inv_mix_row(a, b, c, d),
{
    lemma_products_by_constants(a ^ c);
    lemma_products_by_constants(b ^ d);
    lemma_rows_closed(a, b, c, d);
    lemma_rows_closed(a ^ u, b ^ v, c ^ u, d ^ v);
    lemma_matrix_products(a);
    lemma_matrix_products(b);
    lemma_matrix_products(c);
    lemma_matrix_products(d);
    lemma_linear(a, c);
    lemma_linear(b, d);
    lemma_linear(a, u);
    lemma_linear(b, v);
    lemma_linear(times4(a), times4(c));
    lemma_linear(times4(b), times4(d));
    let a4: u8 = times4(a);
    let b4: u8 = times4(b);
    let c4: u8 = times4(c);
    let d4: u8 = times4(d);
    let xa: u8 = xtime(a);
    let xa4: u8 = xtime(a4);
    let xc4: u8 = xtime(c4);
    let tb: u8 = times3(b);
    let tb4: u8 = times3(b4);
    let td4: u8 = times3(d4);
    let lhs: u8 = mix_row(a ^ u, b ^ v, c ^ u, d ^ v);
    let rhs: u8 = inv_mix_row(a, b, c, d);
    assert(lhs == rhs) by (bit_vector)
        requires
            lhs == (xa ^ (xa4 ^ xc4)) ^ (tb ^ (tb4 ^ td4)) ^ (c ^ (a4 ^ c4)) ^ (d ^ (b4 ^ d4)),
            rhs == (xa ^ xa4 ^ a4) ^ (tb ^ tb4 ^ b4) ^ (c ^ xc4 ^ c4) ^ (d ^ td4 ^ d4),
    ;
}

/// Mixing a column and mixing it back, in either order, returns the column.
pub proof fn lemma_mixed_inverse(w: Seq<u8>)
    requires
        w.len() == 4,
    ensures
        inv_mixed(mixed(w)) == w,
        mixed(inv_mixed(w)) == w,
{
    let m = mixed(w);
    let n = inv_mixed(w);
    lemma_mix_rows_inverse(w[0], w[1], w[2], w[3]);
    lemma_mix_rows_inverse(w[1], w[2], w[3], w[0]);
    lemma_mix_rows_inverse(w[2], w[3], w[0], w[1]);
    lemma_mix_rows_inverse(w[3], w[0], w[1], w[2]);
    assert(inv_mixed(m) =~= w);
    assert(mixed(n) =~= w);
}

/// Four bytes: one column of the cipher state.
#[derive(Clone, Copy, Debug, PartialEq, Eq)]
pub struct Word {
    pub bytes: [u8; 4],
}

impl View for Word {
    type V = Seq<u8>;

    open spec fn view(&self) -> Seq<u8> {
        self.bytes@
    }
}

/// The word whose bytes are the XOR of the bytes of `a` and `b`.
pub open spec fn xor_word(a: Word, b: Word) -> Word {
    Word {
        bytes: [
            a.bytes[0] ^ b.bytes[0],
            a.bytes[1] ^ b.bytes[1],
            a.bytes[2] ^ b.bytes[2],
            a.bytes[3] ^ b.bytes[3],
        ],
    }
}

/// The view of the XOR of two words is the XOR of their views.
pub proof fn lemma_xor_word_view(a: Word, b: Word)
    ensures
        xor_word(a, b)@ == xor_bytes(a@, b@),
{
    assert(xor_word(a, b)@ =~= xor_bytes(a@, b@));
}

impl BitXorSpecImpl for Word {
    open spec fn obeys_bitxor_spec() -> bool {
        true
    }

    open spec fn bitxor_req(self, rhs: Word) -> bool {
        true
    }

    open spec fn bitxor_spec(self, rhs: Word) -> Word {
        xor_word(self, rhs)
    }
}

impl core::ops::BitXor for Word {
    type Output = Word;

    fn bitxor(self, rhs: Word) -> (result: Word)
        ensures
            result@ == xor_bytes(self@, rhs@),
    {
        let mut result = self.copy();
        result.bitxor_assign(rhs);
        assert(result.bytes =~= xor_word(self, rhs).bytes);
        result
    }
}

impl Word {
    /// XORs `rhs` into this word, byte by byte.
    pub fn bitxor_assign(&mut self, rhs: Word)
        ensures
            final(self)@ == xor_bytes(old(self)@, rhs@),
    {
        self.bytes = [
            self.bytes[0] ^ rhs.bytes[0],
            self.bytes[1] ^ rhs.bytes[1],
            self.bytes[2] ^ rhs.bytes[2],
            self.bytes[3] ^ rhs.bytes[3],
        ];
        assert(self@ =~= xor_bytes(old(self)@, rhs@));
    }

    /// A copy of this word.
    pub fn copy(&self) -> (result: Word)
        ensures
            result == *self,
    {
        Word { bytes: self.bytes }
    }

    /// Rotates the bytes left by one position.
    pub fn rot_word(&mut self)
        ensures
            final(self)@ == rotated(old(self)@),
    {
        self.bytes = [self.bytes[1], self.bytes[2], self.bytes[3], self.bytes[0]];
        assert(self@ =~= rotated(old(self)@));
    }

    /// Replaces every byte by its forward substitution.
    pub fn sub_word(&mut self)
        ensures
            final(self)@ == substituted(old(self)@),
    {
        self.bytes = [
            substitute(self.bytes[0]),
            substitute(self.bytes[1]),
            substitute(self.bytes[2]),
            substitute(self.bytes[3]),
        ];
        assert(self@ =~= substituted(old(self)@));
    }

    /// Replaces every byte by its inverse substitution.
    pub fn inv_sub_word(&mut self)
        ensures
            final(self)@ == inv_substituted(old(self)@),
    {
        self.bytes = [
            inverse_substitute(self.bytes[0]),
            inverse_substitute(self.bytes[1]),
            inverse_substitute(self.bytes[2]),
            inverse_substitute(self.bytes[3]),
        ];
        assert(self@ =~= inv_substituted(old(self)@));
    }

    /// Multiplies the column by the mixing matrix.
    pub fn mix_column(&mut self)
        ensures
            final(self)@ == mixed(old(self)@),
    {
        let a0: u8 = self.bytes[0];
        let a1: u8 = self.bytes[1];
        let a2: u8 = self.bytes[2];
        let a3: u8 = self.bytes[3];
        proof {
            lemma_rows_closed(a0, a1, a2, a3);
            lemma_rows_closed(a1, a2, a3, a0);
            lemma_rows_closed(a2, a3, a0, a1);
            lemma_rows_closed(a3, a0, a1, a2);
        }
        self.bytes = [
            gf_double(a0) ^ (gf_double(a1) ^ a1) ^ a2 ^ a3,
            gf_double(a1) ^ (gf_double(a2) ^ a2) ^ a3 ^ a0,
            gf_double(a2) ^ (gf_double(a3) ^ a3) ^ a0 ^ a1,
            gf_double(a3) ^ (gf_double(a0) ^ a0) ^ a1 ^ a2,
        ];
        assert(self@ =~= mixed(old(self)@));
    }

    /// Multiplies the column by the inverse of the mixing matrix: two
    /// correction terms are folded in, then the forward matrix is applied.
    pub fn inv_mix_column(&mut self)
        ensures
            final(self)@ == inv_mixed(old(self)@),
    {
        let a0: u8 = self.bytes[0];
        let a1: u8 = self.bytes[1];
        let a2: u8 = self.bytes[2];
        let a3: u8 = self.bytes[3];
        let u: u8 = gf_mult(a0 ^ a2, 4);
        let v: u8 = gf_mult(a1 ^ a3, 4);
        self.bytes = [a0 ^ u, a1 ^ v, a2 ^ u, a3 ^ v];
        self.mix_column();
        proof {
            assert(a2 ^ a0 == a0 ^ a2) by (bit_vector);
            assert(a3 ^ a1 == a1 ^ a3) by (bit_vector);
            lemma_inv_mix_row_factored(a0, a1, a2, a3, u, v);
            lemma_inv_mix_row_factored(a1, a2, a3, a0, v, u);
            lemma_inv_mix_row_factored(a2, a3, a0, a1, u, v);
            lemma_inv_mix_row_factored(a3, a0, a1, a2, v, u);
            assert(self@ =~= inv_mixed(old(self)@));
        }
    }
}

} // verus!
