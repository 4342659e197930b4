use hwp_crypto::aes::{
    add_round_key, decrypt_aes_ecb, decrypt_block, encrypt_block, inv_mix_columns,
    inv_shift_rows, inv_sub_bytes, key_expansion, mix_columns, shift_rows, sub_bytes,
};
use hwp_crypto::cfb::decrypt_aes_cfb_password;
use hwp_crypto::distribute::{decrypt_distribute_doc_data, extract_aes_key};
use hwp_crypto::gf::{gf_multiply, xtime};
use hwp_crypto::inflate::decompress_stream;
use hwp_crypto::lcg::MsvcLcg;
use hwp_crypto::password::{
    decrypt_password_stream, derive_password_key, judge_password, pad_to_block,
};
use hwp_crypto::record::{first_header_len, read_first_record};
use hwp_crypto::sbox::{inv_substitute, substitute};
use hwp_crypto::sha1::sha1;
use hwp_crypto::viewtext::{decrypt_section_body, unpack_section};
use hwp_crypto::{decrypt_password_protected, decrypt_viewtext_section, CryptoError};

fn some_block() -> [u8; 16] {
    [
        0x00, 0x11, 0x22, 0x33, 0x44, 0x55, 0x66, 0x77, 0x88, 0x99, 0xaa, 0xbb, 0xcc, 0xdd, 0xee,
        0xff,
    ]
}

/// A payload that holds the key 0x40, 0x41, ... at the place that its first byte tells.
fn open_payload() -> Vec<u8> {
    let mut payload: Vec<u8> = (0..256usize).map(|i| (i * 7) as u8).collect();
    payload[0] = 0xA5;
    for i in 0..16 {
        payload[9 + i] = 0x40 + i as u8;
    }
    payload
}

fn ecb_encrypt(body: &[u8], key: &[u8; 16]) -> Vec<u8> {
    let expanded = key_expansion(key);
    let mut out = Vec::new();
    for chunk in body.chunks(16) {
        let mut block = [0u8; 16];
        block[..chunk.len()].copy_from_slice(chunk);
        out.extend_from_slice(&encrypt_block(&block, &expanded));
    }
    out
}

fn cfb_encrypt(text: &[u8], key: &[u8; 16]) -> Vec<u8> {
    let expanded = key_expansion(key);
    let mut register: u128 = 0;
    let mut out = Vec::new();
    for &byte in text {
        let mut c: u8 = 0;
        for i in 0..8 {
            let mask = encrypt_block(&register.to_be_bytes(), &expanded)[0] >> 7;
            let bit = ((byte >> (7 - i)) & 1) ^ mask;
            register = (register << 1) | bit as u128;
            c = (c << 1) | bit;
        }
        out.push(c);
    }
    out
}

fn header(tag: u32, level: u32, size_field: u32) -> Vec<u8> {
    (tag | (level << 10) | (size_field << 20)).to_le_bytes().to_vec()
}

fn section(head: Vec<u8>, body: &[u8]) -> Vec<u8> {
    let payload = open_payload();
    let key = extract_aes_key(&payload).unwrap();
    let mut out = head;
    out.extend_from_slice(&decrypt_distribute_doc_data(&payload).unwrap());
    out.extend_from_slice(&ecb_encrypt(body, &key));
    out
}

#[test]
fn lcg_gives_the_numbers_of_the_c_library() {
    let mut lcg = MsvcLcg::new(1);
    assert_eq!(lcg.rand(), 41);
    assert_eq!(lcg.rand(), 18467);
    assert_eq!(lcg.rand(), 6334);
    assert_eq!(lcg.rand(), 26500);
    let mut lcg = MsvcLcg::new(0);
    assert_eq!(lcg.rand(), 38);
    assert_eq!(lcg.rand(), 7719);
    assert_eq!(lcg.rand(), 21238);
}

#[test]
fn keystream_comes_in_runs() {
    let mut data = vec![0u8; 300];
    data[0] = 1;
    let open = decrypt_distribute_doc_data(&data).unwrap();
    assert_eq!(open.len(), 256);
    assert_eq!(&open[..4], &[1, 0, 0, 0]);
    assert_eq!(&open[4..9], &[0xbe; 5]);
    assert_eq!(&open[9..22], &[0xe1; 13]);
    assert_eq!(&open[22..37], &[0xd6; 15]);
    assert_eq!(&open[37..40], &[0x52, 0x49, 0x49]);
    assert_eq!(&open[252..], &[0x96; 4]);
}

#[test]
fn payload_opens_what_it_scrambles() {
    let payload = open_payload();
    let scrambled = decrypt_distribute_doc_data(&payload).unwrap();
    assert_ne!(scrambled, payload);
    assert_eq!(decrypt_distribute_doc_data(&scrambled).unwrap(), payload);
}

#[test]
fn short_payload_is_refused_with_its_size() {
    assert!(matches!(
        decrypt_distribute_doc_data(&[0; 255]),
        Err(CryptoError::InvalidPayloadSize(255))
    ));
}

#[test]
fn short_open_payload_has_no_key() {
    let err = extract_aes_key(&[0; 255]).unwrap_err();
    assert!(matches!(&err, CryptoError::KeyExtractionFailed(e) if e == "데이터가 256바이트 미만"));
    assert_eq!(err.message(), "AES 키 추출 실패: 데이터가 256바이트 미만");
}

#[test]
fn key_place_ignores_the_high_half_of_the_first_byte() {
    assert_eq!(
        extract_aes_key(&open_payload()).unwrap(),
        [
            0x40, 0x41, 0x42, 0x43, 0x44, 0x45, 0x46, 0x47, 0x48, 0x49, 0x4a, 0x4b, 0x4c, 0x4d,
            0x4e, 0x4f
        ]
    );
    let mut last: Vec<u8> = (0..=255).collect();
    last[0] = 0xFF;
    assert_eq!(extract_aes_key(&last).unwrap()[0], 19);
    assert_eq!(extract_aes_key(&last).unwrap()[15], 34);
}

#[test]
fn field_arithmetic() {
    assert_eq!(gf_multiply(0x57, 0x13), 0xfe);
    assert_eq!(gf_multiply(0x13, 0x57), 0xfe);
    assert_eq!(gf_multiply(0x53, 0xca), 0x01);
    assert_eq!(gf_multiply(0, 0xff), 0);
    assert_eq!(gf_multiply(1, 0xff), 0xff);
    assert_eq!(xtime(0x80), 0x1b);
    for a in 0..=255u8 {
        assert_eq!(xtime(a), gf_multiply(a, 2));
        assert_eq!(gf_multiply(a, 0x35 ^ 0xc7), gf_multiply(a, 0x35) ^ gf_multiply(a, 0xc7));
    }
}

#[test]
fn substitution_boxes_undo_each_other() {
    assert_eq!(substitute(0x53), 0xed);
    assert_eq!(inv_substitute(0x00), 0x52);
    for b in 0..=255u8 {
        assert_eq!(inv_substitute(substitute(b)), b);
        assert_eq!(substitute(inv_substitute(b)), b);
    }
}

#[test]
fn steps_undo_each_other() {
    let block = some_block();
    let mut s = block;
    sub_bytes(&mut s);
    assert_eq!(s[1], 0x82);
    inv_sub_bytes(&mut s);
    assert_eq!(s, block);
    shift_rows(&mut s);
    assert_eq!(
        s,
        [
            0x00, 0x55, 0xaa, 0xff, 0x44, 0x99, 0xee, 0x33, 0x88, 0xdd, 0x22, 0x77, 0xcc, 0x11,
            0x66, 0xbb
        ]
    );
    inv_shift_rows(&mut s);
    assert_eq!(s, block);
    mix_columns(&mut s);
    assert_ne!(s, block);
    inv_mix_columns(&mut s);
    assert_eq!(s, block);
    let round_key = [0x5au8; 20];
    add_round_key(&mut s, &round_key);
    assert_eq!(s[0], 0x5a);
    add_round_key(&mut s, &round_key);
    assert_eq!(s, block);
}

#[test]
fn mix_columns_on_a_known_column() {
    let mut s = [0u8; 16];
    s[..4].copy_from_slice(&[0xdb, 0x13, 0x53, 0x45]);
    mix_columns(&mut s);
    assert_eq!(&s[..4], &[0x8e, 0x4d, 0xa1, 0xbc]);
    assert_eq!(&s[4..], &[0; 12]);
}

#[test]
fn key_schedule_ends_in_the_known_word() {
    let key = [
        0x2b, 0x7e, 0x15, 0x16, 0x28, 0xae, 0xd2, 0xa6, 0xab, 0xf7, 0x15, 0x88, 0x09, 0xcf, 0x4f,
        0x3c,
    ];
    let w = key_expansion(&key);
    assert_eq!(&w[..16], &key);
    assert_eq!(&w[16..20], &[0xa0, 0xfa, 0xfe, 0x17]);
    assert_eq!(&w[172..], &[0xb6, 0x63, 0x0c, 0xa6]);
}

#[test]
fn zero_block_under_zero_key() {
    let w = key_expansion(&[0; 16]);
    let c = encrypt_block(&[0; 16], &w);
    assert_eq!(
        c,
        [
            0x66, 0xe9, 0x4b, 0xd4, 0xef, 0x8a, 0x2c, 0x3b, 0x88, 0x4c, 0xfa, 0x59, 0xca, 0x34,
            0x2b, 0x2e
        ]
    );
    assert_eq!(decrypt_block(&c, &w), [0; 16]);
    assert_eq!(encrypt_block(&decrypt_block(&some_block(), &w), &w), some_block());
}

#[test]
fn ecb_fills_up_the_last_block() {
    let key = some_block();
    assert_eq!(decrypt_aes_ecb(&[], &key), Vec::<u8>::new());
    let one = decrypt_aes_ecb(&[7], &key);
    assert_eq!(one.len(), 16);
    let mut block = [0u8; 16];
    block[0] = 7;
    assert_eq!(one, decrypt_aes_ecb(&block, &key));
    let text = b"seventeen bytes!!";
    let back = decrypt_aes_ecb(&ecb_encrypt(text, &key), &key);
    assert_eq!(back.len(), 32);
    assert_eq!(&back[..17], text);
    assert_eq!(&back[17..], &[0; 15]);
}

#[test]
fn digest_at_the_edges_of_padding() {
    assert_eq!(
        &sha1(&[b'a'; 55])[..4],
        &[0xc1, 0xc8, 0xbb, 0xdc]
    );
    assert_eq!(
        &sha1(&[b'a'; 56])[..4],
        &[0xc2, 0xdb, 0x33, 0x0f]
    );
    assert_eq!(
        &sha1(&[b'a'; 64])[..4],
        &[0x00, 0x98, 0xba, 0x82]
    );
}

#[test]
fn password_keys() {
    assert_eq!(
        derive_password_key(b"a"),
        [
            0xaf, 0xf8, 0x46, 0xf0, 0xdd, 0x70, 0x1f, 0xd6, 0xfb, 0x9a, 0xe6, 0xf2, 0x6a, 0x6d,
            0xb4, 0x0f
        ]
    );
    assert_eq!(
        derive_password_key(b"password"),
        [
            0xfb, 0x54, 0x20, 0x78, 0x89, 0xfb, 0x75, 0x1c, 0x0d, 0xcc, 0xb2, 0x6d, 0x72, 0x68,
            0xfa, 0xdf
        ]
    );
    assert_eq!(derive_password_key(b"")[..], sha1(b"")[..16]);
    assert_eq!(derive_password_key(b"a")[..], sha1(&[0xD9, 0x61])[..16]);
}

#[test]
fn padding_twice_adds_nothing() {
    for len in 0..40 {
        let data = vec![9u8; len];
        let once = pad_to_block(&data);
        assert_eq!(once.len() % 16, 0);
        assert_eq!(&once[..len], &data[..]);
        assert_eq!(pad_to_block(&once), once);
    }
    assert_eq!(pad_to_block(&[1]), [1, 15, 15, 15, 15, 15, 15, 15, 15, 15, 15, 15, 15, 15, 15, 15]);
}

#[test]
fn password_stream_on_known_bytes() {
    let expected = [
        0xee, 0x8e, 0xc7, 0x56, 0x57, 0xad, 0xa8, 0x95, 0x4d, 0x4c, 0x24, 0x4d, 0xc2, 0xf1, 0x24,
        0x0a, 0xdd, 0xdd, 0xdd, 0xdd, 0xc0, 0xec, 0xff, 0x0e, 0x7f, 0x33, 0x8d, 0xa5, 0xf3, 0x8b,
        0x79, 0x41,
    ];
    assert_eq!(decrypt_password_stream(&[0x11; 20], b"pw"), expected);
    assert_eq!(decrypt_password_protected(&[0x11; 20], b"pw", false).unwrap(), expected);
}

#[test]
fn cfb_start_does_not_depend_on_the_rest() {
    let key = some_block();
    let data: Vec<u8> = (0..40).collect();
    let all = decrypt_aes_cfb_password(&key, &data);
    for n in [0usize, 1, 15, 16, 17, 39] {
        assert_eq!(decrypt_aes_cfb_password(&key, &data[..n]), all[..n]);
    }
    assert_eq!(cfb_encrypt(&all, &key), data);
}

#[test]
fn password_gives_back_the_text() {
    let key = derive_password_key(b"secret");
    let whole = b"exactly one block and one more!!";
    let raw = cfb_encrypt(whole, &key);
    assert_eq!(decrypt_password_protected(&raw, b"secret", false).unwrap(), whole);
    let part = b"not a whole block";
    let raw = cfb_encrypt(part, &key);
    let back = decrypt_password_protected(&raw, b"secret", false).unwrap();
    assert_eq!(back.len(), 32);
    assert_eq!(&back[..part.len()], part);
}

#[test]
fn password_with_compression() {
    let text = b"compressed text, compressed text, compressed text".to_vec();
    let key = derive_password_key(b"secret");
    for packed in [
        miniz_oxide::deflate::compress_to_vec(&text, 6),
        miniz_oxide::deflate::compress_to_vec_zlib(&text, 6),
    ] {
        let raw = cfb_encrypt(&packed, &key);
        assert_eq!(decrypt_password_protected(&raw, b"secret", true).unwrap(), text);
        assert!(matches!(
            decrypt_password_protected(&raw, b"Secret", true),
            Err(CryptoError::WrongPassword)
        ));
    }
}

#[test]
fn judging_a_password() {
    assert_eq!(judge_password(Ok(vec![1, 2])).unwrap(), [1, 2]);
    assert!(matches!(judge_password(Err("x".to_string())), Err(CryptoError::WrongPassword)));
}

#[test]
fn streams_of_both_kinds_decompress() {
    let text: Vec<u8> = (0..1000u32).map(|i| (i % 13) as u8).collect();
    let raw = miniz_oxide::deflate::compress_to_vec(&text, 6);
    let zlib = miniz_oxide::deflate::compress_to_vec_zlib(&text, 6);
    assert_eq!(decompress_stream(&raw).unwrap(), text);
    assert_eq!(decompress_stream(&zlib).unwrap(), text);
    let mut padded = zlib.clone();
    padded.extend_from_slice(&[0; 9]);
    assert_eq!(decompress_stream(&padded).unwrap(), text);
    assert_eq!(decompress_stream(&[]).unwrap_err(), "Truncated input stream");
    assert_eq!(decompress_stream(&raw[..raw.len() / 2]).unwrap_err(), "Truncated input stream");
    assert_eq!(decompress_stream(&[0xff; 8]).unwrap_err(), "Invalid input data");
}

#[test]
fn records() {
    let mut data = header(0x3FF, 0x2AA, 3);
    data.extend_from_slice(&[7, 8, 9, 10]);
    let record = read_first_record(&data).unwrap();
    assert_eq!(record.tag_id, 0x3FF);
    assert_eq!(record.level, 0x2AA);
    assert_eq!(record.size, 3);
    assert_eq!(record.data, [7, 8, 9]);
    assert_eq!(first_header_len(&data), 4);

    let mut data = header(5, 1, 0xFFF);
    data.extend_from_slice(&[2, 0, 0, 0, 0xAA, 0xBB, 0xCC]);
    let record = read_first_record(&data).unwrap();
    assert_eq!(record.tag_id, 5);
    assert_eq!(record.level, 1);
    assert_eq!(record.size, 2);
    assert_eq!(record.data, [0xAA, 0xBB]);
    assert_eq!(first_header_len(&data), 8);

    let mut data = header(5, 1, 0xFFF);
    data.extend_from_slice(&5000u32.to_le_bytes());
    data.extend_from_slice(&[3; 5000]);
    assert_eq!(read_first_record(&data).unwrap().data, vec![3u8; 5000]);
}

fn record_error(data: &[u8]) -> String {
    match read_first_record(data) {
        Ok(_) => panic!("a record where none was expected"),
        Err(e) => e,
    }
}

#[test]
fn records_that_do_not_parse() {
    assert_eq!(record_error(&[]), "데이터가 4바이트 미만");
    assert_eq!(record_error(&[1, 2, 3]), "데이터가 4바이트 미만");
    let mut data = header(28, 0, 256);
    data.extend_from_slice(&[0; 255]);
    assert_eq!(record_error(&data), "레코드 데이터 부족: tag=28, 필요=256, 가용=255");
    let mut data = header(28, 0, 0xFFF);
    assert_eq!(record_error(&data), "failed to fill whole buffer");
    data.extend_from_slice(&[0xFF; 4]);
    assert_eq!(record_error(&data), "레코드 데이터 부족: tag=28, 필요=4294967295, 가용=0");
}

#[test]
fn section_gives_back_its_body() {
    let body = b"two whole blocks of plain text..";
    let data = section(header(28, 0, 256), body);
    assert_eq!(decrypt_viewtext_section(&data, false).unwrap(), body);
    assert_eq!(decrypt_section_body(&data).unwrap(), body);
    let data = section(header(28, 9, 256), &body[..20]);
    let back = decrypt_viewtext_section(&data, false).unwrap();
    assert_eq!(back.len(), 32);
    assert_eq!(&back[..20], &body[..20]);
}

#[test]
fn section_body_starts_behind_an_extended_header() {
    let body = b"two whole blocks of plain text..";
    let mut head = header(28, 0, 0xFFF);
    head.extend_from_slice(&256u32.to_le_bytes());
    let data = section(head, body);
    assert_eq!(decrypt_viewtext_section(&data, false).unwrap(), body);
}

#[test]
fn section_with_compression() {
    let text = b"compressed text, compressed text, compressed text".to_vec();
    for packed in [
        miniz_oxide::deflate::compress_to_vec(&text, 6),
        miniz_oxide::deflate::compress_to_vec_zlib(&text, 6),
    ] {
        let data = section(header(28, 0, 256), &packed);
        assert_eq!(decrypt_viewtext_section(&data, true).unwrap(), text);
    }
}

#[test]
fn sections_that_fail() {
    let body = [0xFFu8; 16];
    let err = decrypt_viewtext_section(&section(header(29, 0, 256), &body), false).unwrap_err();
    assert!(matches!(err, CryptoError::NoDistributeData));
    assert_eq!(err.message(), "DISTRIBUTE_DOC_DATA 레코드 없음");

    let err = decrypt_viewtext_section(&section(header(28, 0, 255), &body), false).unwrap_err();
    assert!(matches!(err, CryptoError::InvalidPayloadSize(255)));
    assert_eq!(err.message(), "DISTRIBUTE_DOC_DATA 크기 오류: 255바이트 (필요: 256)");

    let err = decrypt_viewtext_section(&section(header(28, 0, 256), &[]), false).unwrap_err();
    assert!(matches!(&err, CryptoError::DecryptionFailed(e) if e == "암호화된 본문 데이터 없음"));
    assert_eq!(err.message(), "복호화 실패: 암호화된 본문 데이터 없음");

    let err = decrypt_viewtext_section(&[], false).unwrap_err();
    assert!(matches!(&err, CryptoError::RecordError(e) if e == "데이터가 4바이트 미만"));
    assert_eq!(err.message(), "레코드 파싱 실패: 데이터가 4바이트 미만");

    let err = decrypt_viewtext_section(&section(header(28, 0, 256), &body), true).unwrap_err();
    assert!(matches!(&err, CryptoError::DecompressError(e) if e == "Invalid input data"));
    assert_eq!(err.message(), "압축 해제 실패: Invalid input data");
}

#[test]
fn unpacking_a_section() {
    assert_eq!(unpack_section(Ok(vec![3])).unwrap(), [3]);
    assert!(matches!(
        unpack_section(Err("x".to_string())),
        Err(CryptoError::DecompressError(e)) if e == "x"
    ));
}

#[test]
fn messages_of_the_other_errors() {
    assert_eq!(CryptoError::WrongPassword.message(), "비밀번호가 일치하지 않습니다");
    assert_eq!(
        CryptoError::UnsupportedScheme("RC4".to_string()).message(),
        "지원하지 않는 암호화 방식: RC4"
    );
    assert_eq!(
        CryptoError::InvalidPayloadSize(1234567890).message(),
        "DISTRIBUTE_DOC_DATA 크기 오류: 1234567890바이트 (필요: 256)"
    );
    assert_eq!(
        CryptoError::InvalidPayloadSize(0).message(),
        "DISTRIBUTE_DOC_DATA 크기 오류: 0바이트 (필요: 256)"
    );
}
