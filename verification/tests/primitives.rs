use aes_cbc::block::Block;
use aes_cbc::field::{gf_double, gf_mult};
use aes_cbc::key_schedule::{determine_key_length, key_expansion, rcon};
use aes_cbc::sbox::{inverse_substitute, substitute, INV_SBOX, SBOX};
use aes_cbc::word::Word;
use aes_cbc::AesError;

#[test]
fn double_shifts_and_reduces() {
    assert_eq!(gf_double(0x00), 0x00);
    assert_eq!(gf_double(0x01), 0x02);
    assert_eq!(gf_double(0x57), 0xae);
    assert_eq!(gf_double(0xae), 0x47);
    assert_eq!(gf_double(0x47), 0x8e);
    assert_eq!(gf_double(0x80), 0x1b);
    assert_eq!(gf_double(0xff), 0xe5);
}

#[test]
fn multiply_known_products() {
    assert_eq!(gf_mult(0x57, 0x13), 0xfe);
    assert_eq!(gf_mult(0x57, 0x83), 0xc1);
    assert_eq!(gf_mult(0x57, 0x02), 0xae);
    assert_eq!(gf_mult(0x57, 0x04), 0x47);
    assert_eq!(gf_mult(0x53, 0xca), 0x01);
    assert_eq!(gf_mult(0xff, 0xff), 0x13);
}

#[test]
fn multiply_by_one_is_identity() {
    for a in 0..=255u8 {
        assert_eq!(gf_mult(a, 1), a);
    }
}

#[test]
fn multiply_by_zero_is_zero() {
    for a in 0..=255u8 {
        assert_eq!(gf_mult(a, 0), 0);
        assert_eq!(gf_mult(0, a), 0);
    }
}

#[test]
fn multiply_commutes() {
    for a in 0..=255u8 {
        for b in 0..=255u8 {
            assert_eq!(gf_mult(a, b), gf_mult(b, a));
        }
    }
}

#[test]
fn multiply_by_two_is_double() {
    for a in 0..=255u8 {
        assert_eq!(gf_mult(a, 2), gf_double(a));
    }
}

#[test]
fn double_255_times_cycles_back() {
    for a in 0..=255u8 {
        let mut b: u8 = a;
        for _ in 0..255 {
            b = gf_double(b);
        }
        assert_eq!(b, a);
    }
}

#[test]
fn double_51_times_cycles_back_and_not_before() {
    let mut b: u8 = 1;
    for step in 1..=51usize {
        b = gf_double(b);
        if step < 51 {
            assert_ne!(b, 1);
        }
    }
    assert_eq!(b, 1);
}

#[test]
fn sbox_known_entries() {
    assert_eq!(substitute(0x00), 0x63);
    assert_eq!(substitute(0x01), 0x7c);
    assert_eq!(substitute(0x53), 0xed);
    assert_eq!(substitute(0xff), 0x16);
    assert_eq!(inverse_substitute(0x00), 0x52);
    assert_eq!(inverse_substitute(0x63), 0x00);
    assert_eq!(inverse_substitute(0xed), 0x53);
    assert_eq!(inverse_substitute(0xff), 0x7d);
    assert_eq!(SBOX[0x10], 0xca);
    assert_eq!(INV_SBOX[0x10], 0x7c);
}

#[test]
fn sbox_inverse_property() {
    for b in 0..=255u8 {
        assert_eq!(inverse_substitute(substitute(b)), b);
        assert_eq!(substitute(inverse_substitute(b)), b);
    }
}

#[test]
fn sbox_is_affine_image_of_field_inverse() {
    for a in 1..=255u8 {
        let mut inverse: u8 = 0;
        for b in 1..=255u8 {
            if gf_mult(a, b) == 1 {
                inverse = b;
            }
        }
        let s: u8 = inverse
            ^ inverse.rotate_left(1)
            ^ inverse.rotate_left(2)
            ^ inverse.rotate_left(3)
            ^ inverse.rotate_left(4)
            ^ 0x63;
        assert_eq!(substitute(a), s);
    }
}

#[test]
fn word_copy_is_equal() {
    let w = Word { bytes: [1, 2, 3, 4] };
    assert_eq!(w.copy(), w);
}

#[test]
fn word_rotates_left_by_one() {
    let mut w = Word { bytes: [0x09, 0xcf, 0x4f, 0x3c] };
    w.rot_word();
    assert_eq!(w.bytes, [0xcf, 0x4f, 0x3c, 0x09]);
}

#[test]
fn word_substitutes_each_byte() {
    let mut w = Word { bytes: [0xcf, 0x4f, 0x3c, 0x09] };
    w.sub_word();
    assert_eq!(w.bytes, [0x8a, 0x84, 0xeb, 0x01]);
    w.inv_sub_word();
    assert_eq!(w.bytes, [0xcf, 0x4f, 0x3c, 0x09]);
}

#[test]
fn word_xor() {
    let a = Word { bytes: [0x8a, 0x84, 0xeb, 0x01] };
    let b = Word { bytes: [0x01, 0x00, 0x00, 0x00] };
    assert_eq!((a ^ b).bytes, [0x8b, 0x84, 0xeb, 0x01]);
    let mut c = a;
    c.bitxor_assign(b);
    assert_eq!(c, a ^ b);
    assert_eq!((a ^ b) ^ b, a);
}

#[test]
fn mix_column_known_answers() {
    let cases: [([u8; 4], [u8; 4]); 5] = [
        ([0xdb, 0x13, 0x53, 0x45], [0x8e, 0x4d, 0xa1, 0xbc]),
        ([0xf2, 0x0a, 0x22, 0x5c], [0x9f, 0xdc, 0x58, 0x9d]),
        ([0x01, 0x01, 0x01, 0x01], [0x01, 0x01, 0x01, 0x01]),
        ([0xc6, 0xc6, 0xc6, 0xc6], [0xc6, 0xc6, 0xc6, 0xc6]),
        ([0xd4, 0xd4, 0xd4, 0xd5], [0xd5, 0xd5, 0xd7, 0xd6]),
    ];
    for (before, after) in cases {
        let mut w = Word { bytes: before };
        w.mix_column();
        assert_eq!(w.bytes, after);
        w.inv_mix_column();
        assert_eq!(w.bytes, before);
    }
}

#[test]
fn inv_mix_column_is_the_inverse_matrix() {
    let a: [u8; 4] = [0x8e, 0x4d, 0xa1, 0xbc];
    let mut w = Word { bytes: a };
    w.inv_mix_column();
    let expected: [u8; 4] = [
        gf_mult(a[0], 14) ^ gf_mult(a[1], 11) ^ gf_mult(a[2], 13) ^ gf_mult(a[3], 9),
        gf_mult(a[1], 14) ^ gf_mult(a[2], 11) ^ gf_mult(a[3], 13) ^ gf_mult(a[0], 9),
        gf_mult(a[2], 14) ^ gf_mult(a[3], 11) ^ gf_mult(a[0], 13) ^ gf_mult(a[1], 9),
        gf_mult(a[3], 14) ^ gf_mult(a[0], 11) ^ gf_mult(a[1], 13) ^ gf_mult(a[2], 9),
    ];
    assert_eq!(w.bytes, expected);
    assert_eq!(w.bytes, [0xdb, 0x13, 0x53, 0x45]);
}

#[test]
fn block_from_bytes_and_back() {
    let bytes: [u8; 16] = [0, 1, 2, 3, 4, 5, 6, 7, 8, 9, 10, 11, 12, 13, 14, 15];
    let b = Block::new(bytes);
    assert_eq!(b.words[0].bytes, [0, 1, 2, 3]);
    assert_eq!(b.words[3].bytes, [12, 13, 14, 15]);
    assert_eq!(b.as_bytes(), bytes);
    assert_eq!(b.copy(), b);
}

#[test]
fn block_shift_rows_moves_row_r_by_r_columns() {
    let mut b = Block::new([0, 1, 2, 3, 4, 5, 6, 7, 8, 9, 10, 11, 12, 13, 14, 15]);
    b.shift_rows();
    assert_eq!(b.as_bytes(), [0, 5, 10, 15, 4, 9, 14, 3, 8, 13, 2, 7, 12, 1, 6, 11]);
    b.inv_shift_rows();
    assert_eq!(b.as_bytes(), [0, 1, 2, 3, 4, 5, 6, 7, 8, 9, 10, 11, 12, 13, 14, 15]);
    b.inv_shift_rows();
    assert_eq!(b.as_bytes(), [0, 13, 10, 7, 4, 1, 14, 11, 8, 5, 2, 15, 12, 9, 6, 3]);
}

#[test]
fn block_round_steps_follow_the_standard_example() {
    // The first round of the standard's worked example, step by step.
    let mut state = Block::new([
        0x19, 0x3d, 0xe3, 0xbe, 0xa0, 0xf4, 0xe2, 0x2b, 0x9a, 0xc6, 0x8d, 0x2a, 0xe9, 0xf8, 0x48,
        0x08,
    ]);
    state.sub_bytes();
    assert_eq!(
        state.as_bytes(),
        [
            0xd4, 0x27, 0x11, 0xae, 0xe0, 0xbf, 0x98, 0xf1, 0xb8, 0xb4, 0x5d, 0xe5, 0x1e, 0x41,
            0x52, 0x30
        ]
    );
    state.shift_rows();
    assert_eq!(
        state.as_bytes(),
        [
            0xd4, 0xbf, 0x5d, 0x30, 0xe0, 0xb4, 0x52, 0xae, 0xb8, 0x41, 0x11, 0xf1, 0x1e, 0x27,
            0x98, 0xe5
        ]
    );
    state.mix_columns();
    assert_eq!(
        state.as_bytes(),
        [
            0x04, 0x66, 0x81, 0xe5, 0xe0, 0xcb, 0x19, 0x9a, 0x48, 0xf8, 0xd3, 0x7a, 0x28, 0x06,
            0x26, 0x4c
        ]
    );
    state.add_round_key(Block::new([
        0xa0, 0xfa, 0xfe, 0x17, 0x88, 0x54, 0x2c, 0xb1, 0x23, 0xa3, 0x39, 0x39, 0x2a, 0x6c, 0x76,
        0x05,
    ]));
    assert_eq!(
        state.as_bytes(),
        [
            0xa4, 0x9c, 0x7f, 0xf2, 0x68, 0x9f, 0x35, 0x2b, 0x6b, 0x5b, 0xea, 0x43, 0x02, 0x6a,
            0x50, 0x49
        ]
    );
}

#[test]
fn block_steps_have_inverses() {
    let start: [u8; 16] = [
        0x32, 0x43, 0xf6, 0xa8, 0x88, 0x5a, 0x30, 0x8d, 0x31, 0x31, 0x98, 0xa2, 0xe0, 0x37, 0x07,
        0x34,
    ];
    let mut b = Block::new(start);
    b.sub_bytes();
    assert_ne!(b.as_bytes(), start);
    b.inv_sub_bytes();
    assert_eq!(b.as_bytes(), start);
    b.mix_columns();
    assert_ne!(b.as_bytes(), start);
    b.inv_mix_columns();
    assert_eq!(b.as_bytes(), start);
    b.inv_mix_columns();
    b.mix_columns();
    assert_eq!(b.as_bytes(), start);
    let key = Block::new([7; 16]);
    b.add_round_key(key);
    assert_ne!(b.as_bytes(), start);
    b.add_round_key(key);
    assert_eq!(b.as_bytes(), start);
}

#[test]
fn block_xor() {
    let a = Block::new([0x0f; 16]);
    let b = Block::new([0xf1; 16]);
    assert_eq!((a ^ b).as_bytes(), [0xfe; 16]);
    let mut c = a;
    c.bitxor_assign(b);
    assert_eq!(c, a ^ b);
}

#[test]
fn round_constants() {
    let expected: [u8; 10] = [0x01, 0x02, 0x04, 0x08, 0x10, 0x20, 0x40, 0x80, 0x1b, 0x36];
    let mut power: u8 = 1;
    for j in 0..10u8 {
        assert_eq!(rcon(j).bytes, [expected[j as usize], 0, 0, 0]);
        assert_eq!(rcon(j).bytes[0], power);
        power = gf_double(power);
    }
}

#[test]
fn key_length_decides_words_and_rounds() {
    assert_eq!(determine_key_length(&[0u8; 16]), Ok((4, 10)));
    assert_eq!(determine_key_length(&[0u8; 24]), Ok((6, 12)));
    assert_eq!(determine_key_length(&[0u8; 32]), Ok((8, 14)));
}

#[test]
fn key_length_other_than_16_24_32_is_refused() {
    for len in 0..64usize {
        if len != 16 && len != 24 && len != 32 {
            let key: Vec<u8> = vec![0u8; len];
            assert_eq!(determine_key_length(&key), Err(AesError::InvalidKeyLength));
        }
    }
}

#[test]
fn key_expansion_128_known_answer() {
    let key: [u8; 16] = [
        0x2b, 0x7e, 0x15, 0x16, 0x28, 0xae, 0xd2, 0xa6, 0xab, 0xf7, 0x15, 0x88, 0x09, 0xcf, 0x4f,
        0x3c,
    ];
    let w = key_expansion(&key, 4, 10);
    assert_eq!(w.len(), 11);
    assert_eq!(w[0].as_bytes(), key);
    assert_eq!(
        w[1].as_bytes(),
        [
            0xa0, 0xfa, 0xfe, 0x17, 0x88, 0x54, 0x2c, 0xb1, 0x23, 0xa3, 0x39, 0x39, 0x2a, 0x6c,
            0x76, 0x05
        ]
    );
    assert_eq!(
        w[10].as_bytes(),
        [
            0xd0, 0x14, 0xf9, 0xa8, 0xc9, 0xee, 0x25, 0x89, 0xe1, 0x3f, 0x0c, 0xc8, 0xb6, 0x63,
            0x0c, 0xa6
        ]
    );
}

#[test]
fn key_expansion_192_known_answer() {
    let key: [u8; 24] = [
        0x8e, 0x73, 0xb0, 0xf7, 0xda, 0x0e, 0x64, 0x52, 0xc8, 0x10, 0xf3, 0x2b, 0x80, 0x90, 0x79,
        0xe5, 0x62, 0xf8, 0xea, 0xd2, 0x52, 0x2c, 0x6b, 0x7b,
    ];
    let w = key_expansion(&key, 6, 12);
    assert_eq!(w.len(), 13);
    assert_eq!(w[1].words[2].bytes, [0xfe, 0x0c, 0x91, 0xf7]);
    assert_eq!(w[12].words[3].bytes, [0x01, 0x00, 0x22, 0x02]);
}

#[test]
fn key_expansion_256_known_answer() {
    let key: [u8; 32] = [
        0x60, 0x3d, 0xeb, 0x10, 0x15, 0xca, 0x71, 0xbe, 0x2b, 0x73, 0xae, 0xf0, 0x85, 0x7d, 0x77,
        0x81, 0x1f, 0x35, 0x2c, 0x07, 0x3b, 0x61, 0x08, 0xd7, 0x2d, 0x98, 0x10, 0xa3, 0x09, 0x14,
        0xdf, 0xf4,
    ];
    let w = key_expansion(&key, 8, 14);
    assert_eq!(w.len(), 15);
    assert_eq!(w[2].words[0].bytes, [0x9b, 0xa3, 0x54, 0x11]);
    assert_eq!(w[3].words[0].bytes, [0xa8, 0xb0, 0x9c, 0x1a]);
    assert_eq!(w[14].words[3].bytes, [0x70, 0x6c, 0x63, 0x1e]);
}
