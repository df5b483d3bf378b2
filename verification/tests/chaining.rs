use aes_cbc::block::Block;
use aes_cbc::cbc::{bytes_to_blocks, decrypt, encrypt, pad, split_blocks};
use aes_cbc::cipher::aes;
use aes_cbc::operation::{parse_operation, process, run, Operation};
use aes_cbc::AesError;

const ZERO_IV: [u8; 16] = [0; 16];

fn text_key() -> Vec<u8> {
    "0123456789abcdef".as_bytes().to_vec()
}

fn from_hex(text: &str) -> Vec<u8> {
    let digits: Vec<u8> = text.bytes().map(|c| (c as char).to_digit(16).unwrap() as u8).collect();
    let mut out: Vec<u8> = Vec::new();
    let mut i: usize = 0;
    while i + 1 < digits.len() {
        out.push(digits[i] * 16 + digits[i + 1]);
        i += 2;
    }
    out
}

fn sample(len: usize) -> Vec<u8> {
    let mut out: Vec<u8> = Vec::new();
    for i in 0..len {
        out.push((i * 7 + 3) as u8);
    }
    out
}

#[test]
fn padding_of_a_multiple_of_16_is_16_bytes_of_16() {
    for n in 0..4usize {
        let data = sample(16 * n);
        let padded = pad(&data);
        assert_eq!(padded.len(), 16 * n + 16);
        assert_eq!(&padded[..16 * n], &data[..]);
        assert_eq!(&padded[16 * n..], &[16u8; 16][..]);
    }
}

#[test]
fn padding_of_other_lengths_fills_the_block() {
    for n in 0..3usize {
        for r in 1..16usize {
            let data = sample(16 * n + r);
            let padded = pad(&data);
            assert_eq!(padded.len(), 16 * n + 16);
            assert_eq!(&padded[..16 * n + r], &data[..]);
            for i in 16 * n + r..padded.len() {
                assert_eq!(padded[i] as usize, 16 - r);
            }
        }
    }
}

#[test]
fn padding_of_hello_is_eleven_bytes_of_eleven() {
    let padded = pad("hello".as_bytes());
    assert_eq!(
        padded,
        vec![
            0x68, 0x65, 0x6c, 0x6c, 0x6f, 0x0b, 0x0b, 0x0b, 0x0b, 0x0b, 0x0b, 0x0b, 0x0b, 0x0b,
            0x0b, 0x0b
        ]
    );
}

#[test]
fn split_blocks_takes_full_blocks_in_order() {
    let data = sample(40);
    let blocks = split_blocks(&data);
    assert_eq!(blocks.len(), 2);
    assert_eq!(&blocks[0].as_bytes()[..], &data[0..16]);
    assert_eq!(&blocks[1].as_bytes()[..], &data[16..32]);
    assert_eq!(split_blocks(&data[..15]).len(), 0);
    assert_eq!(split_blocks(&[]).len(), 0);
}

#[test]
fn bytes_to_blocks_pads_then_splits() {
    let blocks = bytes_to_blocks("hello".as_bytes());
    assert_eq!(blocks.len(), 1);
    assert_eq!(
        blocks[0].as_bytes(),
        [
            0x68, 0x65, 0x6c, 0x6c, 0x6f, 0x0b, 0x0b, 0x0b, 0x0b, 0x0b, 0x0b, 0x0b, 0x0b, 0x0b,
            0x0b, 0x0b
        ]
    );
    let data = sample(32);
    let blocks = bytes_to_blocks(&data);
    assert_eq!(blocks.len(), 3);
    assert_eq!(&blocks[1].as_bytes()[..], &data[16..32]);
    assert_eq!(blocks[2].as_bytes(), [16u8; 16]);
    assert_eq!(bytes_to_blocks(&[]).len(), 1);
}

#[test]
fn hello_scenario() {
    let key = text_key();
    let ciphertext = encrypt("hello".as_bytes(), &key, ZERO_IV).unwrap();
    assert_eq!(
        ciphertext,
        vec![
            0x67, 0x4c, 0x7e, 0xf3, 0x8e, 0x78, 0xca, 0xbd, 0x9c, 0xec, 0x9c, 0x12, 0x58, 0x23,
            0xa6, 0x39
        ]
    );
    let plaintext = decrypt(&ciphertext, &key, ZERO_IV).unwrap();
    assert_eq!(plaintext, "hello".as_bytes());
}

#[test]
fn empty_plaintext_is_one_block_of_padding() {
    let key = text_key();
    let ciphertext = encrypt(&[], &key, ZERO_IV).unwrap();
    assert_eq!(
        ciphertext,
        vec![
            0x37, 0x72, 0x22, 0xe0, 0x61, 0xa9, 0x24, 0xc5, 0x91, 0xcd, 0x9c, 0x27, 0xea, 0x16,
            0x3e, 0xd4
        ]
    );
    assert_eq!(decrypt(&ciphertext, &key, ZERO_IV).unwrap(), Vec::<u8>::new());
}

#[test]
fn full_block_plaintext_gets_a_second_block() {
    let key = text_key();
    let ciphertext = encrypt("YELLOW SUBMARINE".as_bytes(), &key, ZERO_IV).unwrap();
    assert_eq!(
        ciphertext,
        vec![
            0x14, 0x38, 0xc8, 0xf4, 0x42, 0xce, 0x85, 0x50, 0x8d, 0x6b, 0x1f, 0x68, 0x26, 0x98,
            0x85, 0x51, 0x82, 0x2c, 0xb2, 0x10, 0xd0, 0x12, 0x94, 0x9c, 0x97, 0xd3, 0x55, 0xb4,
            0x88, 0x13, 0x78, 0x82
        ]
    );
    assert_eq!(decrypt(&ciphertext, &key, ZERO_IV).unwrap(), "YELLOW SUBMARINE".as_bytes());
}

#[test]
fn chaining_known_answers_for_each_key_size() {
    let iv: [u8; 16] = [0, 1, 2, 3, 4, 5, 6, 7, 8, 9, 10, 11, 12, 13, 14, 15];
    let plaintext = from_hex(
        "6bc1bee22e409f96e93d7e117393172aae2d8a571e03ac9c9eb76fac45af8e51\
         30c81c46a35ce411e5fbc1191a0a52eff69f2445df4f9b17ad2b417be66c3710",
    );
    let cases: [(&str, &str); 3] = [
        (
            "2b7e151628aed2a6abf7158809cf4f3c",
            "7649abac8119b246cee98e9b12e9197d5086cb9b507219ee95db113a917678b2\
             73bed6b8e3c1743b7116e69e222295163ff1caa1681fac09120eca307586e1a7\
             8cb82807230e1321d3fae00d18cc2012",
        ),
        (
            "8e73b0f7da0e6452c810f32b809079e562f8ead2522c6b7b",
            "4f021db243bc633d7178183a9fa071e8b4d9ada9ad7dedf4e5e738763f69145a\
             571b242012fb7ae07fa9baac3df102e008b0e27988598881d920a9e64f5615cd\
             612ccd79224b350935d45dd6a98f8176",
        ),
        (
            "603deb1015ca71be2b73aef0857d77811f352c073b6108d72d9810a30914dff4",
            "f58c4c04d6e5f1ba779eabfb5f7bfbd69cfc4e967edb808d679f777bc6702c7d\
             39f23369a9d9bacfa530e26304231461b2eb05e2c39be9fcda6c19078c6a9d1b\
             3f461796d6b0d6b2e0c2a72b4d80e644",
        ),
    ];
    for (key_hex, cipher_hex) in cases {
        let key = from_hex(key_hex);
        let expected = from_hex(cipher_hex);
        let ciphertext = encrypt(&plaintext, &key, iv).unwrap();
        assert_eq!(ciphertext, expected);
        assert_eq!(decrypt(&ciphertext, &key, iv).unwrap(), plaintext);
    }
}

#[test]
fn round_trip_for_many_lengths_keys_and_ivs() {
    let ivs: [[u8; 16]; 2] = [[0; 16], [0xa5; 16]];
    for key_len in [16usize, 24, 32] {
        let key = sample(key_len);
        for iv in ivs {
            for len in 0..70usize {
                let plaintext = sample(len);
                let ciphertext = encrypt(&plaintext, &key, iv).unwrap();
                assert_eq!(ciphertext.len(), 16 * (len / 16 + 1));
                assert_eq!(decrypt(&ciphertext, &key, iv).unwrap(), plaintext);
            }
        }
    }
}

#[test]
fn ciphertext_depends_on_the_iv_and_chains() {
    let key = text_key();
    let plaintext = vec![0x42u8; 48];
    let c0 = encrypt(&plaintext, &key, ZERO_IV).unwrap();
    let c1 = encrypt(&plaintext, &key, [1; 16]).unwrap();
    assert_ne!(c0, c1);
    // Equal plaintext blocks give different ciphertext blocks.
    assert_ne!(&c0[0..16], &c0[16..32]);
    assert_ne!(&c0[16..32], &c0[32..48]);
    // The first block is the cipher of the first plaintext block XOR the IV.
    let first = aes(Block::new([0x42 ^ 1; 16]), &key).unwrap();
    assert_eq!(&c1[0..16], &first.as_bytes()[..]);
}

#[test]
fn changed_ciphertext_block_corrupts_that_block_and_the_next() {
    let key = sample(24);
    let iv: [u8; 16] = [9; 16];
    let plaintext = sample(16 * 6 + 5);
    let ciphertext = encrypt(&plaintext, &key, iv).unwrap();
    assert_eq!(ciphertext.len(), 16 * 7);
    for changed in 0..5usize {
        let mut tampered = ciphertext.clone();
        tampered[16 * changed + 3] ^= 0x40;
        let decrypted = decrypt(&tampered, &key, iv).unwrap();
        assert_eq!(decrypted.len(), plaintext.len());
        for block in 0..6usize {
            let range = 16 * block..16 * block + 16;
            if block == changed || block == changed + 1 {
                assert_ne!(&decrypted[range.clone()], &plaintext[range]);
            } else {
                assert_eq!(&decrypted[range.clone()], &plaintext[range]);
            }
        }
        // In the block after the change exactly the flipped bit differs.
        let at = 16 * (changed + 1) + 3;
        assert_eq!(decrypted[at], plaintext[at] ^ 0x40);
    }
}

#[test]
fn encrypt_refuses_other_key_lengths() {
    for len in [0usize, 5, 15, 17, 31, 33] {
        let key = sample(len);
        assert_eq!(encrypt("hello".as_bytes(), &key, ZERO_IV), Err(AesError::InvalidKeyLength));
    }
}

#[test]
fn decrypt_refuses_other_key_lengths_first() {
    for len in [0usize, 5, 15, 17, 31, 33] {
        let key = sample(len);
        assert_eq!(decrypt(&[0u8; 16], &key, ZERO_IV), Err(AesError::InvalidKeyLength));
        assert_eq!(decrypt(&[0u8; 5], &key, ZERO_IV), Err(AesError::InvalidKeyLength));
    }
}

#[test]
fn decrypt_refuses_ciphertext_that_is_not_whole_blocks() {
    let key = text_key();
    for len in [0usize, 1, 15, 17, 31, 33] {
        let data = sample(len);
        assert_eq!(decrypt(&data, &key, ZERO_IV), Err(AesError::InvalidCiphertextLength));
    }
}

#[test]
fn decrypt_refuses_a_padding_count_beyond_the_data() {
    let key = text_key();
    // One block whose plaintext ends in 0xff.
    let ciphertext: [u8; 16] = [
        0xa9, 0x85, 0xa1, 0xc9, 0x58, 0x43, 0xa5, 0x1a, 0xca, 0x45, 0x89, 0x14, 0x64, 0x62, 0x1f,
        0xbd,
    ];
    assert_eq!(decrypt(&ciphertext, &key, ZERO_IV), Err(AesError::InvalidPadding));
    // One block whose plaintext ends in 17.
    let ciphertext: [u8; 16] = [
        0x0e, 0xf5, 0xe4, 0xce, 0xfa, 0x36, 0xa9, 0x98, 0x59, 0x6f, 0x38, 0x2f, 0xb3, 0x80, 0x3d,
        0x3a,
    ];
    assert_eq!(decrypt(&ciphertext, &key, ZERO_IV), Err(AesError::InvalidPadding));
}

#[test]
fn decrypt_trusts_the_last_byte() {
    let key = text_key();
    // One block whose plaintext is 1, 2, .., 15, 0: nothing is taken off.
    let ciphertext: [u8; 16] = [
        0x19, 0xa2, 0xd1, 0x88, 0x76, 0x66, 0x98, 0xb8, 0xc0, 0xcb, 0xa5, 0x26, 0xd6, 0xdb, 0xc1,
        0x13,
    ];
    assert_eq!(
        decrypt(&ciphertext, &key, ZERO_IV).unwrap(),
        vec![1, 2, 3, 4, 5, 6, 7, 8, 9, 10, 11, 12, 13, 14, 15, 0]
    );
    // One block whose plaintext is 100, .., 114, 16: all of it is taken off.
    let ciphertext: [u8; 16] = [
        0xaf, 0x59, 0xdd, 0xf4, 0x15, 0xad, 0x52, 0xd3, 0x03, 0x87, 0x28, 0x4a, 0xe9, 0x15, 0x2c,
        0x64,
    ];
    assert_eq!(decrypt(&ciphertext, &key, ZERO_IV).unwrap(), Vec::<u8>::new());
}

#[test]
fn operation_names() {
    assert_eq!(parse_operation("encrypt"), Ok(Operation::Encrypt));
    assert_eq!(parse_operation("decrypt"), Ok(Operation::Decrypt));
    for name in ["", "Encrypt", "encrypt ", "decrypted", "enc", "décrypt", "encrypu"] {
        assert_eq!(parse_operation(name), Err(AesError::InvalidOperation));
    }
}

#[test]
fn process_runs_the_named_operation() {
    let key = text_key();
    let ciphertext = process("encrypt", "hello".as_bytes(), &key, ZERO_IV).unwrap();
    assert_eq!(ciphertext, encrypt("hello".as_bytes(), &key, ZERO_IV).unwrap());
    assert_eq!(process("decrypt", &ciphertext, &key, ZERO_IV).unwrap(), "hello".as_bytes());
    assert_eq!(run(Operation::Encrypt, "hello".as_bytes(), &key, ZERO_IV).unwrap(), ciphertext);
    assert_eq!(run(Operation::Decrypt, &ciphertext, &key, ZERO_IV).unwrap(), "hello".as_bytes());
}

#[test]
fn process_refuses_an_unknown_operation_before_anything_else() {
    assert_eq!(process("sign", &[], &[], ZERO_IV), Err(AesError::InvalidOperation));
    assert_eq!(process("encrypt", &[], &[], ZERO_IV), Err(AesError::InvalidKeyLength));
    assert_eq!(process("decrypt", &[], &[], ZERO_IV), Err(AesError::InvalidKeyLength));
    assert_eq!(
        process("decrypt", &[], &text_key(), ZERO_IV),
        Err(AesError::InvalidCiphertextLength)
    );
}
