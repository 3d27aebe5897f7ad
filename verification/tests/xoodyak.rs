use aead_suite::xoodyak::Xoodyak;
use aead_suite::xoodyak_aead::XoodyakAead;

const KEY: [u8; 16] = [
    0x00, 0x01, 0x02, 0x03, 0x04, 0x05, 0x06, 0x07, 0x08, 0x09, 0x0a, 0x0b, 0x0c, 0x0d, 0x0e, 0x0f,
];

const NONCE: [u8; 16] = [
    0x10, 0x11, 0x12, 0x13, 0x14, 0x15, 0x16, 0x17, 0x18, 0x19, 0x1a, 0x1b, 0x1c, 0x1d, 0x1e, 0x1f,
];

const TEST_PLAIN_TEXT: &str = "Hello, world!";
const TEST_LONG_PLAIN_TEXT: &str = "Hello world, this is a test of the emergency broadcast system. This is only a test. If this had been an actual emergency, you would have been instructed to do something else. This concludes this test of the emergency broadcast system.";

#[test]
fn lib_ascon128() {
    let mut cipher = XoodyakAead::new(&KEY);

    let mut plaintext = TEST_PLAIN_TEXT.as_bytes().to_vec();
    let tag = cipher.encrypt(NONCE.as_ref(), &[], &mut plaintext);
    let mut ciphertext = plaintext;
    assert!(cipher
        .decrypt(NONCE.as_ref(), &[], &mut ciphertext, &tag)
        .is_ok());

    assert_eq!(TEST_PLAIN_TEXT.as_bytes(), ciphertext.as_slice());

    let mut plaintext = TEST_LONG_PLAIN_TEXT.as_bytes().to_vec();
    let tag = cipher.encrypt(NONCE.as_ref(), &[], &mut plaintext);
    let mut ciphertext = plaintext;
    assert!(cipher
        .decrypt(NONCE.as_ref(), &[], &mut ciphertext, &tag)
        .is_ok());

    assert_eq!(TEST_LONG_PLAIN_TEXT.as_bytes(), ciphertext.as_slice());
}

#[test]
fn test_encrypt_decrypt() {
    let key = [0u8; 16];
    let nonce = [0u8; 16];
    let mut data: Vec<u8> = vec![0u8; 24];
    let mut xoodyak = Xoodyak::new(&key, &nonce, None);
    xoodyak.encrypt_inplace(&mut data);

    let mut xoodyak = Xoodyak::new(&key, &nonce, None);
    xoodyak.decrypt_inplace(&mut data);

    assert_eq!(data, vec![0u8; 24]);
}

#[test]
fn xoodyak_round_trip_various_lengths() {
    let mut cipher = XoodyakAead::new(&KEY);
    // lengths around the 24-byte squeeze rate: multiples, one short, one long
    for n in [0usize, 1, 23, 24, 25, 47, 48, 49, 100] {
        let pt: Vec<u8> = (0..n).map(|i| (i * 3 + 7) as u8).collect();
        let mut buf = pt.clone();
        let tag = cipher.encrypt(&NONCE, b"meta", &mut buf);
        assert_eq!(buf.len(), n);
        assert_eq!(tag.len(), 16);
        let mut ct = buf;
        assert!(cipher.decrypt(&NONCE, b"meta", &mut ct, &tag).is_ok());
        assert_eq!(pt, ct);
    }
}

#[test]
fn xoodyak_multi_chunk_ad() {
    let mut cipher = XoodyakAead::new(&KEY);
    // associated data lengths around the 16-byte absorb rate
    for n in [1usize, 15, 16, 17, 32, 33] {
        let ad: Vec<u8> = (0..n).map(|i| (i * 13 + 5) as u8).collect();
        let pt: Vec<u8> = b"payload bytes".to_vec();
        let mut buf = pt.clone();
        let tag = cipher.encrypt(&NONCE, &ad, &mut buf);
        let mut ct = buf;
        assert!(cipher.decrypt(&NONCE, &ad, &mut ct, &tag).is_ok());
        assert_eq!(pt, ct);
    }
}

#[test]
fn xoodyak_deterministic() {
    let mut cipher = XoodyakAead::new(&KEY);
    let mut a: Vec<u8> = b"the same message".to_vec();
    let mut b: Vec<u8> = b"the same message".to_vec();
    let tag_a = cipher.encrypt(&NONCE, b"ad", &mut a);
    let tag_b = cipher.encrypt(&NONCE, b"ad", &mut b);
    assert_eq!(a, b);
    assert_eq!(tag_a, tag_b);
}

#[test]
fn xoodyak_tamper_detection() {
    let mut cipher = XoodyakAead::new(&KEY);
    let pt: Vec<u8> = b"a secret message crossing the squeeze-rate boundary".to_vec();
    let ad: Vec<u8> = b"public header".to_vec();
    let mut ct = pt.clone();
    let tag = cipher.encrypt(&NONCE, &ad, &mut ct);

    let mut bad_ct = ct.clone();
    bad_ct[30] ^= 0x08;
    assert!(cipher.decrypt(&NONCE, &ad, &mut bad_ct, &tag).is_err());

    let mut bad_tag = tag.clone();
    bad_tag[8] ^= 0x01;
    let mut buf = ct.clone();
    assert!(cipher.decrypt(&NONCE, &ad, &mut buf, &bad_tag).is_err());

    let mut bad_ad = ad.clone();
    bad_ad[12] ^= 0x02;
    let mut buf = ct.clone();
    assert!(cipher.decrypt(&NONCE, &bad_ad, &mut buf, &tag).is_err());

    let mut bad_nonce = NONCE;
    bad_nonce[0] ^= 0x80;
    let mut buf = ct.clone();
    assert!(cipher.decrypt(&bad_nonce, &ad, &mut buf, &tag).is_err());
}

#[test]
fn xoodyak_absorb_and_squeeze() {
    // two sessions fed the same bytes squeeze the same output; a different
    // absorbed byte changes it
    let mut a = Xoodyak::new(&KEY, &NONCE, None);
    a.absorb(b"some data");
    let out_a = a.squeeze(32);

    let mut b = Xoodyak::new(&KEY, &NONCE, None);
    b.absorb(b"some data");
    let out_b = b.squeeze(32);
    assert_eq!(out_a, out_b);

    let mut c = Xoodyak::new(&KEY, &NONCE, None);
    c.absorb(b"some datb");
    let out_c = c.squeeze(32);
    assert_ne!(out_a, out_c);
}
