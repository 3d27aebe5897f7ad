use aead_suite::ascon_core::pad;
use aead_suite::ascon_core::round_constant;
use aead_suite::ascon_core::round;
use aead_suite::ascon_core::State;
use aead_suite::ascon_128::Key;
use aead_suite::ascon_head::AsconHead;

const KEY: [u8; 16] = [
    0x00, 0x01, 0x02, 0x03, 0x04, 0x05, 0x06, 0x07, 0x08, 0x09, 0x0a, 0x0b, 0x0c, 0x0d, 0x0e, 0x0f,
];

const NONCE: [u8; 16] = [
    0x10, 0x11, 0x12, 0x13, 0x14, 0x15, 0x16, 0x17, 0x18, 0x19, 0x1a, 0x1b, 0x1c, 0x1d, 0x1e, 0x1f,
];

const TEST_PLAIN_TEXT: &str = "Hello, world!";
const TEST_LONG_PLAIN_TEXT: &str = "Hello world, this is a test of the emergency broadcast system. This is only a test. If this had been an actual emergency, you would have been instructed to do something else. This concludes this test of the emergency broadcast system.";

#[test]
fn pad_0to7() {
    assert_eq!(pad(0), 0x8000000000000000);
    assert_eq!(pad(1), 0x80000000000000);
    assert_eq!(pad(2), 0x800000000000);
    assert_eq!(pad(3), 0x8000000000);
    assert_eq!(pad(4), 0x80000000);
    assert_eq!(pad(5), 0x800000);
    assert_eq!(pad(6), 0x8000);
    assert_eq!(pad(7), 0x80);
}

#[test]
fn round_constants() {
    assert_eq!(round_constant(0), 0xf0);
    assert_eq!(round_constant(1), 0xe1);
    assert_eq!(round_constant(2), 0xd2);
    assert_eq!(round_constant(3), 0xc3);
    assert_eq!(round_constant(4), 0xb4);
    assert_eq!(round_constant(5), 0xa5);
    assert_eq!(round_constant(6), 0x96);
    assert_eq!(round_constant(7), 0x87);
    assert_eq!(round_constant(8), 0x78);
    assert_eq!(round_constant(9), 0x69);
    assert_eq!(round_constant(10), 0x5a);
    assert_eq!(round_constant(11), 0x4b);
}

#[test]
fn one_round() {
    let state = round(
        State::new(
            0x0123456789abcdef,
            0x23456789abcdef01,
            0x456789abcdef0123,
            0x6789abcdef012345,
            0x89abcde01234567f,
        ),
        0x1f,
    );
    assert_eq!(
        state,
        State::new(
            0x3c1748c9be2892ce,
            0x5eafb305cd26164f,
            0xf9470254bb3a4213,
            0xf0428daf0c5d3948,
            0x281375af0b294899,
        )
    );
}

#[test]
fn state_permute_12() {
    let mut state = State::new(
        0x0123456789abcdef,
        0xef0123456789abcd,
        0xcdef0123456789ab,
        0xabcdef0123456789,
        0x89abcdef01234567,
    );
    let mut state2 = state;
    state.permute_12();
    state2.permute_n(12);
    assert_eq!(state.x0, 0x206416dfc624bb14);
    assert_eq!(state.x1, 0x1b0c47a601058aab);
    assert_eq!(state.x2, 0x8934cfc93814cddd);
    assert_eq!(state.x3, 0xa9738d287a748e4b);
    assert_eq!(state.x4, 0xddd934f058afc7e1);

    assert_eq!(state, state2);
}

#[test]
fn ascon128() {
    let key: Key = Key::from_bytes(KEY.as_ref());
    let cipher = AsconHead::new(key);

    let mut plaintext = TEST_PLAIN_TEXT.as_bytes().to_vec();
    let tag = cipher.encrypt(NONCE.as_ref(), &[], &mut plaintext);
    let mut ciphertext = plaintext;
    assert!(cipher
        .decrypt(NONCE.as_ref(), &[], &mut ciphertext, &tag)
        .is_ok());

    assert_eq!(TEST_PLAIN_TEXT.as_bytes(), ciphertext.as_slice());

    let mut plaintext = TEST_LONG_PLAIN_TEXT.as_bytes().to_vec();
    let tag = cipher.encrypt(NONCE.as_ref(), &[], &mut plaintext);
    let mut ciphertext = plaintext;
    assert!(cipher
        .decrypt(NONCE.as_ref(), &[], &mut ciphertext, &tag)
        .is_ok());

    assert_eq!(TEST_LONG_PLAIN_TEXT.as_bytes(), ciphertext.as_slice());
}

#[test]
fn ascon_round_trip_various_lengths() {
    let cipher = AsconHead::new(Key::from_bytes(KEY.as_ref()));
    // lengths around the 8-byte rate: multiples, one short, one long
    for n in [0usize, 1, 7, 8, 9, 15, 16, 17, 40] {
        let pt: Vec<u8> = (0..n).map(|i| (i * 5 + 3) as u8).collect();
        let mut buf = pt.clone();
        let tag = cipher.encrypt(&NONCE, b"meta", &mut buf);
        assert_eq!(buf.len(), n);
        assert_eq!(tag.len(), 16);
        let mut ct = buf;
        assert!(cipher.decrypt(&NONCE, b"meta", &mut ct, &tag).is_ok());
        assert_eq!(pt, ct);
    }
}

#[test]
fn ascon_multi_block_ad() {
    let cipher = AsconHead::new(Key::from_bytes(KEY.as_ref()));
    // associated data lengths around the 8-byte rate
    for n in [1usize, 7, 8, 9, 16, 24, 25] {
        let ad: Vec<u8> = (0..n).map(|i| (i * 11 + 2) as u8).collect();
        let pt: Vec<u8> = b"payload bytes".to_vec();
        let mut buf = pt.clone();
        let tag = cipher.encrypt(&NONCE, &ad, &mut buf);
        let mut ct = buf;
        assert!(cipher.decrypt(&NONCE, &ad, &mut ct, &tag).is_ok());
        assert_eq!(pt, ct);
    }
}

#[test]
fn ascon_deterministic() {
    let cipher = AsconHead::new(Key::from_bytes(KEY.as_ref()));
    let mut a: Vec<u8> = b"the same message".to_vec();
    let mut b: Vec<u8> = b"the same message".to_vec();
    let tag_a = cipher.encrypt(&NONCE, b"ad", &mut a);
    let tag_b = cipher.encrypt(&NONCE, b"ad", &mut b);
    assert_eq!(a, b);
    assert_eq!(tag_a, tag_b);
}

#[test]
fn ascon_tamper_detection() {
    let cipher = AsconHead::new(Key::from_bytes(KEY.as_ref()));
    let pt: Vec<u8> = b"a secret message, somewhat longer than one block".to_vec();
    let ad: Vec<u8> = b"public header".to_vec();
    let mut ct = pt.clone();
    let tag = cipher.encrypt(&NONCE, &ad, &mut ct);

    let mut bad_ct = ct.clone();
    bad_ct[10] ^= 0x40;
    assert!(cipher.decrypt(&NONCE, &ad, &mut bad_ct, &tag).is_err());

    let mut bad_tag = tag.clone();
    bad_tag[15] ^= 0x01;
    let mut buf = ct.clone();
    assert!(cipher.decrypt(&NONCE, &ad, &mut buf, &bad_tag).is_err());

    let mut bad_ad = ad.clone();
    bad_ad[0] ^= 0x04;
    let mut buf = ct.clone();
    assert!(cipher.decrypt(&NONCE, &bad_ad, &mut buf, &tag).is_err());

    let mut bad_nonce = NONCE;
    bad_nonce[7] ^= 0x20;
    let mut buf = ct.clone();
    assert!(cipher.decrypt(&bad_nonce, &ad, &mut buf, &tag).is_err());
}

#[test]
fn permute_n_matches_tail_rounds() {
    // the round-count entry point equals folding the round function over
    // the tail of the literal constant table, for every count 0..=12
    let table: [u64; 12] = [
        0xf0, 0xe1, 0xd2, 0xc3, 0xb4, 0xa5, 0x96, 0x87, 0x78, 0x69, 0x5a, 0x4b,
    ];
    let seed = State::new(
        0x0011223344556677,
        0x8899aabbccddeeff,
        0x0123456789abcdef,
        0xfedcba9876543210,
        0xdeadbeefcafef00d,
    );
    for n in 0..=12usize {
        let mut s = seed;
        s.permute_n(n);
        let mut s2 = seed;
        for r in (12 - n)..12 {
            s2 = round(s2, table[r]);
        }
        assert_eq!(s, s2);
    }
}
