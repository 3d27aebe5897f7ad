use aead_suite::acorn::AcornHead;
use aead_suite::acorn_core::ch;
use aead_suite::acorn_core::maj;
use aead_suite::acorn_core::u32_from_be_bytes;

const KEY: [u8; 16] = [
    0x00, 0x01, 0x02, 0x03, 0x04, 0x05, 0x06, 0x07, 0x08, 0x09, 0x0a, 0x0b, 0x0c, 0x0d, 0x0e, 0x0f,
];

const NONCE: [u8; 16] = [
    0x10, 0x11, 0x12, 0x13, 0x14, 0x15, 0x16, 0x17, 0x18, 0x19, 0x1a, 0x1b, 0x1c, 0x1d, 0x1e, 0x1f,
];

#[test]
fn acorn_128() {
    let acorn = AcornHead::new(&KEY);

    let mut pt: Vec<u8> = vec![0u8; 16];
    let ad: &[u8] = b"";

    let tag = acorn.encrypt(&mut pt, ad, &NONCE);

    let mut ct = pt;

    assert!(acorn.decrypt(&mut ct, ad, &NONCE, &tag).is_ok());
    assert_eq!(vec![0u8; 16], ct);
}

#[test]
fn acorn_round_trip_various_lengths() {
    let acorn = AcornHead::new(&KEY);
    let ad: Vec<u8> = b"header".to_vec();
    // lengths around the 4-byte word rate: multiples, one short, one long
    for n in [0usize, 1, 3, 4, 5, 7, 8, 9, 16, 33] {
        let pt: Vec<u8> = (0..n).map(|i| (i * 7 + 1) as u8).collect();
        let mut buf = pt.clone();
        let tag = acorn.encrypt(&mut buf, &ad, &NONCE);
        assert_eq!(buf.len(), n);
        assert_eq!(tag.len(), 16);
        let mut ct = buf;
        assert!(acorn.decrypt(&mut ct, &ad, &NONCE, &tag).is_ok());
        assert_eq!(pt, ct);
    }
}

#[test]
fn acorn_deterministic() {
    let acorn = AcornHead::new(&KEY);
    let mut a: Vec<u8> = b"the same message".to_vec();
    let mut b: Vec<u8> = b"the same message".to_vec();
    let tag_a = acorn.encrypt(&mut a, b"ad", &NONCE);
    let tag_b = acorn.encrypt(&mut b, b"ad", &NONCE);
    assert_eq!(a, b);
    assert_eq!(tag_a, tag_b);
}

#[test]
fn acorn_tamper_detection() {
    let acorn = AcornHead::new(&KEY);
    let pt: Vec<u8> = b"a secret message".to_vec();
    let ad: Vec<u8> = b"public header".to_vec();
    let mut ct = pt.clone();
    let tag = acorn.encrypt(&mut ct, &ad, &NONCE);

    // flip one bit of the ciphertext
    let mut bad_ct = ct.clone();
    bad_ct[3] ^= 0x10;
    assert!(acorn.decrypt(&mut bad_ct, &ad, &NONCE, &tag).is_err());

    // flip one bit of the tag
    let mut bad_tag = tag.clone();
    bad_tag[0] ^= 0x01;
    let mut buf = ct.clone();
    assert!(acorn.decrypt(&mut buf, &ad, &NONCE, &bad_tag).is_err());

    // flip one bit of the associated data
    let mut bad_ad = ad.clone();
    bad_ad[5] ^= 0x80;
    let mut buf = ct.clone();
    assert!(acorn.decrypt(&mut buf, &bad_ad, &NONCE, &tag).is_err());

    // flip one bit of the nonce
    let mut bad_nonce = NONCE;
    bad_nonce[15] ^= 0x02;
    let mut buf = ct.clone();
    assert!(acorn.decrypt(&mut buf, &ad, &bad_nonce, &tag).is_err());
}

#[test]
fn acorn_empty_message_and_ad() {
    let acorn = AcornHead::new(&KEY);
    let mut buf: Vec<u8> = Vec::new();
    let tag = acorn.encrypt(&mut buf, b"", &NONCE);
    assert_eq!(buf.len(), 0);
    assert_eq!(tag.len(), 16);
    let mut ct = buf;
    assert!(acorn.decrypt(&mut ct, b"", &NONCE, &tag).is_ok());
    assert_eq!(ct.len(), 0);
}

#[test]
fn acorn_bit_helpers() {
    assert_eq!(maj(0xff00ff00, 0x0ff00ff0, 0x00ff00ff), 0x0ff00ff0);
    assert_eq!(maj(0xffffffff, 0x12345678, 0x00000000), 0x12345678);
    assert_eq!(ch(0xffffffff, 0x12345678, 0x9abcdef0), 0x12345678);
    assert_eq!(ch(0x00000000, 0x12345678, 0x9abcdef0), 0x9abcdef0);
    assert_eq!(ch(0xf0f0f0f0, 0xffffffff, 0x00000000), 0xf0f0f0f0);
    assert_eq!(u32_from_be_bytes(&[0x12, 0x34, 0x56, 0x78]), 0x12345678);
}
