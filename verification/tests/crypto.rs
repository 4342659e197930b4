use hwp_crypto::aes::{decrypt_aes_ecb, encrypt_block, key_expansion};
use hwp_crypto::cfb::decrypt_aes_cfb_password;
use hwp_crypto::distribute::{decrypt_distribute_doc_data, extract_aes_key};
use hwp_crypto::gf::{gf_multiply, xtime};
use hwp_crypto::lcg::MsvcLcg;
use hwp_crypto::password::{derive_password_key, pad_to_block};
use hwp_crypto::sha1::sha1;
use hwp_crypto::{decrypt_password_protected, decrypt_viewtext_section, CryptoError};

#[test]
fn test_msvc_lcg() {
    let mut lcg = MsvcLcg::new(0);
    let first = lcg.rand();
    let second = lcg.rand();
    assert!(first <= 0x7FFF);
    assert!(second <= 0x7FFF);
    assert_ne!(first, second);
}

#[test]
fn test_lcg_deterministic() {
    let mut lcg1 = MsvcLcg::new(12345);
    let mut lcg2 = MsvcLcg::new(12345);
    for _ in 0..10 {
        assert_eq!(lcg1.rand(), lcg2.rand());
    }
}

#[test]
fn test_decrypt_distribute_doc_data() {
    let mut data = vec![0u8; 256];
    data[0] = 1;
    data[1] = 0;
    data[2] = 0;
    data[3] = 0;

    let result = decrypt_distribute_doc_data(&data).unwrap();
    assert_eq!(result.len(), 256);
    assert_eq!(result[0], 1);
    assert_eq!(result[1], 0);
    assert_eq!(result[2], 0);
    assert_eq!(result[3], 0);
}

#[test]
fn test_decrypt_distribute_too_short() {
    let data = vec![0u8; 100];
    let result = decrypt_distribute_doc_data(&data);
    assert!(result.is_err());
}

#[test]
fn test_extract_aes_key() {
    let mut data = vec![0x42u8; 256];
    data[0] = 0x03;

    let key = extract_aes_key(&data).unwrap();
    assert_eq!(key.len(), 16);
    assert_eq!(key, [0x42; 16]);
}

#[test]
fn test_extract_aes_key_offset_0() {
    let mut data = vec![0xAB; 256];
    data[0] = 0x00;
    data[4..20].copy_from_slice(&[1, 2, 3, 4, 5, 6, 7, 8, 9, 10, 11, 12, 13, 14, 15, 16]);

    let key = extract_aes_key(&data).unwrap();
    assert_eq!(key, [1, 2, 3, 4, 5, 6, 7, 8, 9, 10, 11, 12, 13, 14, 15, 16]);
}

#[test]
fn test_aes_encrypt_decrypt_roundtrip() {
    let key = [
        0x2b, 0x7e, 0x15, 0x16, 0x28, 0xae, 0xd2, 0xa6, 0xab, 0xf7, 0x15, 0x88, 0x09, 0xcf,
        0x4f, 0x3c,
    ];
    let plaintext = [
        0x32, 0x43, 0xf6, 0xa8, 0x88, 0x5a, 0x30, 0x8d, 0x31, 0x31, 0x98, 0xa2, 0xe0, 0x37,
        0x07, 0x34,
    ];

    let expected_ciphertext = [
        0x39, 0x25, 0x84, 0x1d, 0x02, 0xdc, 0x09, 0xfb, 0xdc, 0x11, 0x85, 0x97, 0x19, 0x6a,
        0x0b, 0x32,
    ];

    let decrypted = decrypt_aes_ecb(&expected_ciphertext, &key);
    assert_eq!(&decrypted[..16], &plaintext);
}

#[test]
fn test_aes_key_expansion_length() {
    let key = [0u8; 16];
    let expanded = key_expansion(&key);
    assert_eq!(expanded.len(), 176);
}

#[test]
fn test_gf_multiply() {
    assert_eq!(gf_multiply(0x57, 0x83), 0xc1);
}

#[test]
fn test_xtime() {
    assert_eq!(xtime(0x57), 0xae);
    assert_eq!(xtime(0xae), 0x47);
}

#[test]
fn test_no_distribute_data() {
    let result = decrypt_viewtext_section(&[], false);
    assert!(result.is_err());
}

#[test]
fn test_sha1_empty() {
    assert_eq!(
        &sha1(b""),
        b"\xda\x39\xa3\xee\x5e\x6b\x4b\x0d\x32\x55\xbf\xef\x95\x60\x18\x90\xaf\xd8\x07\x09"
    );
}

#[test]
fn test_sha1_abc() {
    assert_eq!(
        &sha1(b"abc"),
        b"\xa9\x99\x3e\x36\x47\x06\x81\x6a\xba\x3e\x25\x71\x78\x50\xc2\x6c\x9c\xd0\xd8\x9d"
    );
}

#[test]
fn test_sha1_long() {
    let msg = b"abcdbcdecdefdefgefghfghighijhijkijkljklmklmnlmnomnopnopq";
    assert_eq!(
        &sha1(msg),
        b"\x84\x98\x3e\x44\x1c\x3b\xd2\x6e\xba\xae\x4a\xa1\xf9\x51\x29\xe5\xe5\x46\x70\xf1"
    );
}

#[test]
fn test_aes_encrypt_block_nist() {
    let key = [
        0x2b, 0x7e, 0x15, 0x16, 0x28, 0xae, 0xd2, 0xa6, 0xab, 0xf7, 0x15, 0x88, 0x09, 0xcf,
        0x4f, 0x3c,
    ];
    let plaintext = [
        0x32, 0x43, 0xf6, 0xa8, 0x88, 0x5a, 0x30, 0x8d, 0x31, 0x31, 0x98, 0xa2, 0xe0, 0x37,
        0x07, 0x34,
    ];
    let expected_ciphertext = [
        0x39, 0x25, 0x84, 0x1d, 0x02, 0xdc, 0x09, 0xfb, 0xdc, 0x11, 0x85, 0x97, 0x19, 0x6a,
        0x0b, 0x32,
    ];
    let expanded = key_expansion(&key);
    assert_eq!(encrypt_block(&plaintext, &expanded), expected_ciphertext);
}

#[test]
fn test_aes_ecb_encrypt_decrypt_roundtrip() {
    let key = [
        0x2b, 0x7e, 0x15, 0x16, 0x28, 0xae, 0xd2, 0xa6, 0xab, 0xf7, 0x15, 0x88, 0x09, 0xcf,
        0x4f, 0x3c,
    ];
    let plaintext = [
        0x32, 0x43, 0xf6, 0xa8, 0x88, 0x5a, 0x30, 0x8d, 0x31, 0x31, 0x98, 0xa2, 0xe0, 0x37,
        0x07, 0x34, 0x32, 0x43, 0xf6, 0xa8, 0x88, 0x5a, 0x30, 0x8d, 0x31, 0x31, 0x98, 0xa2,
        0xe0, 0x37, 0x07, 0x34,
    ];
    let expanded = key_expansion(&key);
    let mut enc = Vec::new();
    for block in plaintext.chunks(16) {
        let mut b = [0u8; 16];
        b.copy_from_slice(block);
        enc.extend_from_slice(&encrypt_block(&b, &expanded));
    }
    let dec = decrypt_aes_ecb(&enc, &key);
    assert_eq!(dec, plaintext);
}

#[test]
fn test_derive_password_key_interleave() {
    let key = derive_password_key(b"a");
    assert_eq!(key.len(), 16);
    assert_eq!(key, derive_password_key(b"a"));
    assert_ne!(key, derive_password_key(b"b"));
}

#[test]
fn test_derive_password_key_first_byte_seed() {
    let key_empty = derive_password_key(b"");
    assert_eq!(key_empty.len(), 16);
}

#[test]
fn test_pad_to_block_aligned() {
    let data = vec![0u8; 32];
    assert_eq!(pad_to_block(&data), data);
    let data = vec![0u8; 16];
    assert_eq!(pad_to_block(&data), data);
}

#[test]
fn test_pad_to_block_unaligned() {
    let data = vec![0xABu8; 13];
    let padded = pad_to_block(&data);
    assert_eq!(padded.len(), 16);
    assert_eq!(&padded[..13], &data[..]);
    assert_eq!(&padded[13..], &[3, 3, 3]);
}

#[test]
fn test_pad_to_block_empty() {
    let padded = pad_to_block(&[]);
    assert_eq!(padded, Vec::<u8>::new());
}

/// The inverse of `decrypt_aes_cfb_password`, bit by bit.
fn encrypt_aes_cfb_password_for_test(key: &[u8; 16], data: &[u8]) -> Vec<u8> {
    let expanded_key = key_expansion(key);
    let mut tmp_in = [0u8; 16];
    let mut out = Vec::with_capacity(data.len());
    for block in data.chunks(16) {
        let mut real = [0u8; 16];
        let len = block.len().min(16);
        real[..len].copy_from_slice(&block[..len]);
        for i in 0..128usize {
            let enc = encrypt_block(&tmp_in, &expanded_key);
            let out_byte = enc[0];
            let ff = i & 7;
            let c_bit = ((real[i >> 3] >> (7 - ff)) ^ (out_byte >> 7)) & 1;
            let mut tmp = 1usize;
            for _ in 0..3 {
                let v14 = tmp_in[tmp];
                tmp_in[tmp - 1] = tmp_in[tmp - 1].wrapping_mul(2) | (tmp_in[tmp] >> 7);
                let v15 = tmp_in[tmp + 1];
                let v16 = v14.wrapping_mul(2) | (tmp_in[tmp + 1] >> 7);
                let v17 = tmp_in[tmp + 2];
                let v18 = v15.wrapping_mul(2) | (v17 >> 7);
                let v19 = tmp_in[tmp + 3];
                let v20 = v17.wrapping_mul(2) | (v19 >> 7);
                let v21 = v19.wrapping_mul(2) | (tmp_in[tmp + 4] >> 7);
                tmp_in[tmp] = v16;
                tmp_in[tmp + 1] = v18;
                tmp_in[tmp + 2] = v20;
                tmp_in[tmp + 3] = v21;
                tmp += 5;
            }
            tmp_in[15] = tmp_in[15].wrapping_mul(2) | c_bit;
            real[i >> 3] = (real[i >> 3] & !(1 << (7 - ff))) | (c_bit << (7 - ff));
        }
        out.extend_from_slice(&real[..len]);
    }
    out
}

#[test]
fn test_cfb_password_roundtrip() {
    let key = [
        0x2b, 0x7e, 0x15, 0x16, 0x28, 0xae, 0xd2, 0xa6, 0xab, 0xf7, 0x15, 0x88, 0x09, 0xcf,
        0x4f, 0x3c,
    ];
    for (idx, plaintext) in [
        &b"Hello, HWP!"[..],
        &b"0123456789abcdef"[..],
        &b"0123456789abcdefghijkl"[..],
    ]
    .iter()
    .enumerate()
    {
        let encrypted = encrypt_aes_cfb_password_for_test(&key, plaintext);
        let mut padded = encrypted.clone();
        let rem = padded.len() % 16;
        if rem != 0 {
            let amount = 16 - rem;
            padded.resize(padded.len() + amount, amount as u8);
        }
        let decrypted = decrypt_aes_cfb_password(&key, &padded);
        assert_eq!(
            &decrypted[..plaintext.len()],
            *plaintext,
            "roundtrip case {idx}"
        );
    }
}

#[test]
fn test_decrypt_password_protected_wrong_password() {
    let fake_encrypted = vec![0xAAu8; 64];
    let err = decrypt_password_protected(&fake_encrypted, b"wrongpwd", true).unwrap_err();
    assert!(matches!(err, CryptoError::WrongPassword));
}

#[test]
fn test_decrypt_password_protected_uncompressed_returns_bytes() {
    let fake = vec![0x11u8; 32];
    let result = decrypt_password_protected(&fake, b"pw", false).unwrap();
    assert_eq!(result.len(), 32);
}
