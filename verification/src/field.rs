//! Arithmetic in GF(2^8), the field of 256 elements, with bytes as
//! polynomials over GF(2) reduced by x^8 + x^4 + x^3 + x + 1.

use vstd::prelude::*;

verus! {

/// The low byte of the reduction polynomial.
pub const REDUCTION: u8 = 0x1b;

/// The product of `a` and the polynomial `x`.
pub open spec fn xtime(a: u8) -> u8 {
    if a & 0x80 == 0 {
        a << 1
    } else {
        (a << 1) ^ 0x1b
    }
}

/// `xtime` applied `n` times.
pub open spec fn xtime_pow(a: u8, n: nat) -> u8
    decreases n,
{
    if n == 0 {
        a
    } else {
        xtime(xtime_pow(a, (n - 1) as nat))
    }
}

/// The field product of `a` and `b`: the sum (XOR) of `a * x^i` over the bits
/// `i` that are set in `b`.
pub open spec fn gf_product(a: u8, b: u8) -> u8
    decreases b,
{
    if b == 0 {
        0
    } else if b % 2 == 1 {
        gf_product(xtime(a), b / 2) ^ a
    } else {
        gf_product(xtime(a), b / 2)
    }
}

/// Multiplies a field element by `x`.
pub fn gf_double(a: u8) -> (r: u8)
    ensures
        r == xtime(a),
{
    let h: u8 = (a >> 7) & 1;
    let b: u8 = a << 1;
    assert(if h == 1 { b ^ 0x1b } else { b } == xtime(a)) by (bit_vector)
        requires
            h == (a >> 7) & 1,
            b == a << 1,
    ;
    if h == 1 {
        b ^ REDUCTION
    } else {
        b
    }
}

/// Multiplies two field elements by repeated doubling.
pub fn gf_mult(a: u8, b: u8) -> (r: u8)
    ensures
        r == gf_product(a, b),
    decreases b,
{
    if b == 0 {
        return 0;
    }
    if b == 1 {
        proof {
            lemma_product_one(a);
        }
        return a;
    }
    let c: u8 = b % 2;
    let rest = gf_mult(gf_double(a), (b - c) / 2);
    if c == 1 {
        rest ^ a
    } else {
        rest
    }
}

/// One is the multiplicative identity on the right.
pub proof fn lemma_product_one(a: u8)
    ensures
        gf_product(a, 1) == a,
{
    reveal_with_fuel(gf_product, 2);
    assert(0u8 ^ a == a) by (bit_vector);
}

/// Doubling `m` times and then `n` times is doubling `m + n` times.
pub proof fn lemma_xtime_pow_add(a: u8, m: nat, n: nat)
    ensures
        xtime_pow(xtime_pow(a, m), n) == xtime_pow(a, m + n),
    decreases n,
{
    if n > 0 {
        lemma_xtime_pow_add(a, m, (n - 1) as nat);
    }
}

/// The polynomial `x` has order 51 in the multiplicative group of the field.
proof fn lemma_xtime_order(a: u8)
    ensures
        xtime_pow(a, 51) == a,
{
    let a0: u8 = a;
    let a1: u8 = xtime(a0);
    let a2: u8 = xtime(a1);
    let a3: u8 = xtime(a2);
    let a4: u8 = xtime(a3);
    let a5: u8 = xtime(a4);
    let a6: u8 = xtime(a5);
    let a7: u8 = xtime(a6);
    let a8: u8 = xtime(a7);
    let a9: u8 = xtime(a8);
    let a10: u8 = xtime(a9);
    let a11: u8 = xtime(a10);
    let a12: u8 = xtime(a11);
    let a13: u8 = xtime(a12);
    let a14: u8 = xtime(a13);
    let a15: u8 = xtime(a14);
    let a16: u8 = xtime(a15);
    let a17: u8 = xtime(a16);
    let a18: u8 = xtime(a17);
    let a19: u8 = xtime(a18);
    let a20: u8 = xtime(a19);
    let a21: u8 = xtime(a20);
    let a22: u8 = xtime(a21);
    let a23: u8 = xtime(a22);
    let a24: u8 = xtime(a23);
    let a25: u8 = xtime(a24);
    let a26: u8 = xtime(a25);
    let a27: u8 = xtime(a26);
    let a28: u8 = xtime(a27);
    let a29: u8 = xtime(a28);
    let a30: u8 = xtime(a29);
    let a31: u8 = xtime(a30);
    let a32: u8 = xtime(a31);
    let a33: u8 = xtime(a32);
    let a34: u8 = xtime(a33);
    let a35: u8 = xtime(a34);
    let a36: u8 = xtime(a35);
    let a37: u8 = xtime(a36);
    let a38: u8 = xtime(a37);
    let a39: u8 = xtime(a38);
    let a40: u8 = xtime(a39);
    let a41: u8 = xtime(a40);
    let a42: u8 = xtime(a41);
    let a43: u8 = xtime(a42);
    let a44: u8 = xtime(a43);
    let a45: u8 = xtime(a44);
    let a46: u8 = xtime(a45);
    let a47: u8 = xtime(a46);
    let a48: u8 = xtime(a47);
    let a49: u8 = xtime(a48);
    let a50: u8 = xtime(a49);
    let a51: u8 = xtime(a50);
    assert(a0 == xtime_pow(a, 0));
    assert(a1 == xtime_pow(a, 1));
    assert(a2 == xtime_pow(a, 2));
    assert(a3 == xtime_pow(a, 3));
    assert(a4 == xtime_pow(a, 4));
    assert(a5 == xtime_pow(a, 5));
    assert(a6 == xtime_pow(a, 6));
    assert(a7 == xtime_pow(a, 7));
    assert(a8 == xtime_pow(a, 8));
    assert(a9 == xtime_pow(a, 9));
    assert(a10 == xtime_pow(a, 10));
    assert(a11 == xtime_pow(a, 11));
    assert(a12 == xtime_pow(a, 12));
    assert(a13 == xtime_pow(a, 13));
    assert(a14 == xtime_pow(a, 14));
    assert(a15 == xtime_pow(a, 15));
    assert(a16 == xtime_pow(a, 16));
    assert(a17 == xtime_pow(a, 17));
    assert(a18 == xtime_pow(a, 18));
    assert(a19 == xtime_pow(a, 19));
    assert(a20 == xtime_pow(a, 20));
    assert(a21 == xtime_pow(a, 21));
    assert(a22 == xtime_pow(a, 22));
    assert(a23 == xtime_pow(a, 23));
    assert(a24 == xtime_pow(a, 24));
    assert(a25 == xtime_pow(a, 25));
    assert(a26 == xtime_pow(a, 26));
    assert(a27 == xtime_pow(a, 27));
    assert(a28 == xtime_pow(a, 28));
    assert(a29 == xtime_pow(a, 29));
    assert(a30 == xtime_pow(a, 30));
    assert(a31 == xtime_pow(a, 31));
    assert(a32 == xtime_pow(a, 32));
    assert(a33 == xtime_pow(a, 33));
    assert(a34 == xtime_pow(a, 34));
    assert(a35 == xtime_pow(a, 35));
    assert(a36 == xtime_pow(a, 36));
    assert(a37 == xtime_pow(a, 37));
    assert(a38 == xtime_pow(a, 38));
    assert(a39 == xtime_pow(a, 39));
    assert(a40 == xtime_pow(a, 40));
    assert(a41 == xtime_pow(a, 41));
    assert(a42 == xtime_pow(a, 42));
    assert(a43 == xtime_pow(a, 43));
    assert(a44 == xtime_pow(a, 44));
    assert(a45 == xtime_pow(a, 45));
    assert(a46 == xtime_pow(a, 46));
    assert(a47 == xtime_pow(a, 47));
    assert(a48 == xtime_pow(a, 48));
    assert(a49 == xtime_pow(a, 49));
    assert(a50 == xtime_pow(a, 50));
    assert(a51 == xtime_pow(a, 51));
    assert(a51 == a0) by (bit_vector)
        requires
            a1 == xtime(a0),
            a2 == xtime(a1),
            a3 == xtime(a2),
            a4 == xtime(a3),
            a5 == xtime(a4),
            a6 == xtime(a5),
            a7 == xtime(a6),
            a8 == xtime(a7),
            a9 == xtime(a8),
            a10 == xtime(a9),
            a11 == xtime(a10),
            a12 == xtime(a11),
            a13 == xtime(a12),
            a14 == xtime(a13),
            a15 == xtime(a14),
            a16 == xtime(a15),
            a17 == xtime(a16),
            a18 == xtime(a17),
            a19 == xtime(a18),
            a20 == xtime(a19),
            a21 == xtime(a20),
            a22 == xtime(a21),
            a23 == xtime(a22),
            a24 == xtime(a23),
            a25 == xtime(a24),
            a26 == xtime(a25),
            a27 == xtime(a26),
            a28 == xtime(a27),
            a29 == xtime(a28),
            a30 == xtime(a29),
            a31 == xtime(a30),
            a32 == xtime(a31),
            a33 == xtime(a32),
            a34 == xtime(a33),
            a35 == xtime(a34),
            a36 == xtime(a35),
            a37 == xtime(a36),
            a38 == xtime(a37),
            a39 == xtime(a38),
            a40 == xtime(a39),
            a41 == xtime(a40),
            a42 == xtime(a41),
            a43 == xtime(a42),
            a44 == xtime(a43),
            a45 == xtime(a44),
            a46 == xtime(a45),
            a47 == xtime(a46),
            a48 == xtime(a47),
            a49 == xtime(a48),
            a50 == xtime(a49),
            a51 == xtime(a50),
    ;
}

/// Doubling any field element 255 times returns it: the multiplicative
/// group of the field has 255 elements, so the order of `x` divides 255.
pub proof fn lemma_xtime_cycle(a: u8)
    ensures
        xtime_pow(a, 255) == a,
{
    lemma_xtime_order(a);
    lemma_xtime_pow_add(a, 51, 51);
    lemma_xtime_pow_add(a, 102, 51);
    lemma_xtime_pow_add(a, 153, 51);
    lemma_xtime_pow_add(a, 204, 51);
}

} // verus!
