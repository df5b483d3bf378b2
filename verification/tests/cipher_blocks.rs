use aes_cbc::block::Block;
use aes_cbc::cipher::{aes, cipher, inv_aes, inv_cipher};
use aes_cbc::key_schedule::key_expansion;
use aes_cbc::AesError;

const PLAIN: [u8; 16] = [
    0x00, 0x11, 0x22, 0x33, 0x44, 0x55, 0x66, 0x77, 0x88, 0x99, 0xaa, 0xbb, 0xcc, 0xdd, 0xee, 0xff,
];

fn counting_key(len: usize) -> Vec<u8> {
    let mut key: Vec<u8> = Vec::new();
    for i in 0..len {
        key.push(i as u8);
    }
    key
}

#[test]
fn known_answer_128() {
    let key = counting_key(16);
    let expected: [u8; 16] = [
        0x69, 0xc4, 0xe0, 0xd8, 0x6a, 0x7b, 0x04, 0x30, 0xd8, 0xcd, 0xb7, 0x80, 0x70, 0xb4, 0xc5,
        0x5a,
    ];
    let c = aes(Block::new(PLAIN), &key).unwrap();
    assert_eq!(c.as_bytes(), expected);
    assert_eq!(inv_aes(c, &key).unwrap().as_bytes(), PLAIN);
}

#[test]
fn known_answer_192() {
    let key = counting_key(24);
    let expected: [u8; 16] = [
        0xdd, 0xa9, 0x7c, 0xa4, 0x86, 0x4c, 0xdf, 0xe0, 0x6e, 0xaf, 0x70, 0xa0, 0xec, 0x0d, 0x71,
        0x91,
    ];
    let c = aes(Block::new(PLAIN), &key).unwrap();
    assert_eq!(c.as_bytes(), expected);
    assert_eq!(inv_aes(c, &key).unwrap().as_bytes(), PLAIN);
}

#[test]
fn known_answer_256() {
    let key = counting_key(32);
    let expected: [u8; 16] = [
        0x8e, 0xa2, 0xb7, 0xca, 0x51, 0x67, 0x45, 0xbf, 0xea, 0xfc, 0x49, 0x90, 0x4b, 0x49, 0x60,
        0x89,
    ];
    let c = aes(Block::new(PLAIN), &key).unwrap();
    assert_eq!(c.as_bytes(), expected);
    assert_eq!(inv_aes(c, &key).unwrap().as_bytes(), PLAIN);
}

#[test]
fn known_answer_worked_example() {
    let key: [u8; 16] = [
        0x2b, 0x7e, 0x15, 0x16, 0x28, 0xae, 0xd2, 0xa6, 0xab, 0xf7, 0x15, 0x88, 0x09, 0xcf, 0x4f,
        0x3c,
    ];
    let input: [u8; 16] = [
        0x32, 0x43, 0xf6, 0xa8, 0x88, 0x5a, 0x30, 0x8d, 0x31, 0x31, 0x98, 0xa2, 0xe0, 0x37, 0x07,
        0x34,
    ];
    let expected: [u8; 16] = [
        0x39, 0x25, 0x84, 0x1d, 0x02, 0xdc, 0x09, 0xfb, 0xdc, 0x11, 0x85, 0x97, 0x19, 0x6a, 0x0b,
        0x32,
    ];
    let w = key_expansion(&key, 4, 10);
    let c = cipher(Block::new(input), 10, &w);
    assert_eq!(c.as_bytes(), expected);
    assert_eq!(inv_cipher(c, 10, &w).as_bytes(), input);
    assert_eq!(aes(Block::new(input), &key).unwrap(), c);
}

#[test]
fn cipher_and_inverse_undo_each_other_in_both_orders() {
    for len in [16usize, 24, 32] {
        let key = counting_key(len);
        let mut bytes: [u8; 16] = [0; 16];
        for seed in 0..20u8 {
            for i in 0..16usize {
                bytes[i] = seed.wrapping_mul(37).wrapping_add((i as u8).wrapping_mul(11));
            }
            let b = Block::new(bytes);
            assert_eq!(inv_aes(aes(b, &key).unwrap(), &key).unwrap(), b);
            assert_eq!(aes(inv_aes(b, &key).unwrap(), &key).unwrap(), b);
        }
    }
}

#[test]
fn cipher_with_fewer_rounds_than_keys() {
    let key = counting_key(16);
    let w = key_expansion(&key, 4, 10);
    let b = Block::new(PLAIN);
    for rounds in 0..=10u8 {
        let c = cipher(b, rounds, &w);
        assert_eq!(inv_cipher(c, rounds, &w), b);
    }
    assert_ne!(cipher(b, 9, &w), cipher(b, 10, &w));
}

#[test]
fn block_cipher_refuses_other_key_lengths() {
    let b = Block::new(PLAIN);
    for len in [0usize, 1, 15, 17, 23, 25, 31, 33, 64] {
        let key = counting_key(len);
        assert_eq!(aes(b, &key), Err(AesError::InvalidKeyLength));
        assert_eq!(inv_aes(b, &key), Err(AesError::InvalidKeyLength));
    }
}
