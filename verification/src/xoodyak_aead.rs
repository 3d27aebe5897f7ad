//! Outward face of the phased duplex cipher: a 16-byte key held once, a
//! fresh session derived from (key, nonce) for every message; associated
//! data absorbed, the buffer transformed in place, and a sixteen-byte tag
//! squeezed at the end.

use vstd::prelude::*;
use crate::xoodyak::Xoodyak;
use crate::xoodyak::Phase;
use crate::xoodyak::AUTH_TAG_BYTES;
use crate::xoodyak::spec_min;
use crate::xoodyak::spec_up_state;
use crate::xoodyak::spec_down_state;
use crate::xoodyak::spec_xor_bytes;
use crate::xoodyak::spec_absorb_any;
use crate::xoodyak::spec_squeeze_any;
use crate::xoodyak::spec_encrypt_chunks;
use crate::xoodyak::spec_decrypt_chunks;
use crate::xoodyak::spec_xoodyak_new;
use crate::xoodoo::spec_extract;

verus! {

/// The session state at the point the message transform starts: key and
/// nonce absorbed, then the associated data.
pub open spec fn spec_session(key: Seq<u8>, nonce: Seq<u8>, ad: Seq<u8>) -> Seq<u32> {
    spec_absorb_any(spec_xoodyak_new(key, nonce, Option::None), Phase::Down, ad, 16, 0x03)
}

/// Whole-message encryption: (ciphertext, tag).
pub open spec fn spec_xoodyak_encrypt(key: Seq<u8>, nonce: Seq<u8>, ad: Seq<u8>, pt: Seq<u8>) -> (
    Seq<u8>,
    Seq<u8>,
) {
    let e = spec_encrypt_chunks(spec_session(key, nonce, ad), pt, 0x80);
    (e.1, spec_squeeze_any(e.0, 16, 0x80).1)
}

/// Whole-message decryption: (recovered plaintext, tag matches).  The
/// buffer holds the tentative plaintext whatever the tag outcome.
pub open spec fn spec_xoodyak_decrypt(
    key: Seq<u8>,
    nonce: Seq<u8>,
    ad: Seq<u8>,
    ct: Seq<u8>,
    expected_tag: Seq<u8>,
) -> (Seq<u8>, bool) {
    let d = spec_decrypt_chunks(spec_session(key, nonce, ad), ct, 0x80);
    (d.1, spec_squeeze_any(d.0, 16, 0x80).1 == expected_tag)
}

proof fn bv_xor_cancel_u8(a: u8, b: u8)
    by (bit_vector)
    ensures
        ((a ^ b) ^ b) == a,
{
}

/// The en/decryption chunk streams are length-preserving.
pub proof fn lemma_xoodyak_crypt_len(s: Seq<u32>, pt: Seq<u8>, cu: u8)
    ensures
        spec_encrypt_chunks(s, pt, cu).1.len() == pt.len(),
    decreases pt.len(),
{
    if pt.len() > 0 {
        let c = spec_min(24, pt.len() as int);
        let s1 = spec_up_state(s, cu);
        let ks = spec_extract(s1, c);
        let ctc = spec_xor_bytes(pt.take(c), ks);
        lemma_xoodyak_crypt_len(spec_down_state(s1, ctc, 0x00), pt.skip(c), 0x00);
    }
}

/// Decrypting the chunk-stream output of an encryption from the same
/// session state recovers the plaintext and leaves both states equal:
/// both sides absorb the ciphertext chunks.
pub proof fn lemma_xoodyak_crypt_sync(s: Seq<u32>, pt: Seq<u8>, cu: u8)
    ensures
        ({
            let e = spec_encrypt_chunks(s, pt, cu);
            let d = spec_decrypt_chunks(s, e.1, cu);
            d.0 == e.0 && d.1 == pt
        }),
    decreases pt.len(),
{
    let e = spec_encrypt_chunks(s, pt, cu);
    let ct = e.1;
    lemma_xoodyak_crypt_len(s, pt, cu);
    if pt.len() > 0 {
        let c = spec_min(24, pt.len() as int);
        let s1 = spec_up_state(s, cu);
        let ks = spec_extract(s1, c);
        let ctc = spec_xor_bytes(pt.take(c), ks);
        let s2 = spec_down_state(s1, ctc, 0x00);
        let rest = spec_encrypt_chunks(s2, pt.skip(c), 0x00);
        assert(ct.take(c) =~= ctc);
        assert(ct.skip(c) =~= rest.1);
        assert forall|k: int| 0 <= k < c implies spec_xor_bytes(ctc, ks)[k] == pt.take(c)[k] by {
            bv_xor_cancel_u8(pt[k], ks[k]);
        }
        assert(spec_xor_bytes(ctc, ks) =~= pt.take(c));
        lemma_xoodyak_crypt_sync(s2, pt.skip(c), 0x00);
        let drest = spec_decrypt_chunks(s2, ct.skip(c), 0x00);
        assert(spec_decrypt_chunks(s, ct, cu).1 == pt.take(c) + drest.1);
        assert(pt.take(c) + drest.1 =~= pt);
    } else {
        assert(ct == pt);
    }
}

/// Round trip: decrypting what encryption produced, under the same key,
/// nonce and associated data, recovers the plaintext and accepts the tag.
pub proof fn lemma_xoodyak_round_trip(key: Seq<u8>, nonce: Seq<u8>, ad: Seq<u8>, pt: Seq<u8>)
    ensures
        ({
            let e = spec_xoodyak_encrypt(key, nonce, ad, pt);
            spec_xoodyak_decrypt(key, nonce, ad, e.0, e.1) == (pt, true)
        }),
{
    lemma_xoodyak_crypt_sync(spec_session(key, nonce, ad), pt, 0x80);
}

/// Determinism: any two results meeting encryption's contract for the same
/// key, nonce, associated data and plaintext are the same ciphertext and tag.
pub proof fn lemma_xoodyak_encrypt_deterministic(
    key: Seq<u8>,
    nonce: Seq<u8>,
    ad: Seq<u8>,
    pt: Seq<u8>,
    ct1: Seq<u8>,
    tag1: Seq<u8>,
    ct2: Seq<u8>,
    tag2: Seq<u8>,
)
    requires
        (ct1, tag1) == spec_xoodyak_encrypt(key, nonce, ad, pt),
        (ct2, tag2) == spec_xoodyak_encrypt(key, nonce, ad, pt),
    ensures
        ct1 == ct2,
        tag1 == tag2,
{
}

/// Length preservation: ciphertext is exactly as long as plaintext, and
/// the tag is sixteen bytes, for every input including the empty ones.
pub proof fn lemma_xoodyak_encrypt_lengths(key: Seq<u8>, nonce: Seq<u8>, ad: Seq<u8>, pt: Seq<u8>)
    ensures
        spec_xoodyak_encrypt(key, nonce, ad, pt).0.len() == pt.len(),
        spec_xoodyak_encrypt(key, nonce, ad, pt).1.len() == 16,
{
    lemma_xoodyak_crypt_len(spec_session(key, nonce, ad), pt, 0x80);
    let e = spec_encrypt_chunks(spec_session(key, nonce, ad), pt, 0x80);
    let q = spec_squeeze_any(e.0, 16, 0x80);
    assert(q.1.len() == 16);
}

/// Byte-for-byte comparison of two buffers.
fn bytes_eq(a: &[u8], b: &[u8]) -> (r: bool)
    ensures
        r == (a@ == b@),
{
    if a.len() != b.len() {
        return false;
    }
    let n = a.len();
    let mut i: usize = 0;
    while i < n
        invariant
            i <= n,
            a@.len() == n,
            b@.len() == n,
            forall|j: int| 0 <= j < i ==> a@[j] == b@[j],
        decreases n - i,
    {
        if a[i] != b[i] {
            proof {
                assert(a@ == b@ ==> a@[i as int] == b@[i as int]);
            }
            return false;
        }
        i = i + 1;
    }
    proof {
        assert(a@ =~= b@);
    }
    true
}

pub struct XoodyakAead {
    pub key: Vec<u8>,
}

impl XoodyakAead {
    /// Holds the first sixteen bytes of `key`.
    pub fn new(key: &[u8]) -> (r: XoodyakAead)
        requires
            key@.len() >= 16,
        ensures
            r.key@ == key@.subrange(0, 16),
    {
        let mut k: Vec<u8> = Vec::new();
        let mut i: usize = 0;
        while i < 16
            invariant
                i <= 16,
                key@.len() >= 16,
                k@ == key@.subrange(0, i as int),
            decreases 16 - i,
        {
            k.push(key[i]);
            proof {
                assert(k@ =~= key@.subrange(0, i as int + 1));
            }
            i = i + 1;
        }
        XoodyakAead { key: k }
    }

    /// Encrypts `plaintext` in place and returns the sixteen-byte tag.
    pub fn encrypt(&mut self, nonce: &[u8], ad: &[u8], plaintext: &mut Vec<u8>) -> (tag: Vec<u8>)
        ensures
            *final(self) == *old(self),
            final(plaintext)@ == spec_xoodyak_encrypt(old(self).key@, nonce@, ad@, old(plaintext)@).0,
            tag@ == spec_xoodyak_encrypt(old(self).key@, nonce@, ad@, old(plaintext)@).1,
            final(plaintext)@.len() == old(plaintext)@.len(),
            tag@.len() == 16,
    {
        let mut xoodyak = Xoodyak::new(self.key.as_slice(), nonce, Option::None);
        xoodyak.absorb(ad);
        xoodyak.encrypt_inplace(plaintext);
        xoodyak.squeeze(AUTH_TAG_BYTES)
    }

    /// Decrypts `ciphertext` in place; `Ok` exactly when the recomputed
    /// tag equals `expected_tag`.  The buffer holds the tentative
    /// plaintext whatever the outcome.
    pub fn decrypt(&mut self, nonce: &[u8], ad: &[u8], ciphertext: &mut Vec<u8>, expected_tag: &[
        u8]) -> (r: Result<(), ()>)
        ensures
            *final(self) == *old(self),
            final(ciphertext)@ == spec_xoodyak_decrypt(
                old(self).key@,
                nonce@,
                ad@,
                old(ciphertext)@,
                expected_tag@,
            ).0,
            r.is_ok() == spec_xoodyak_decrypt(
                old(self).key@,
                nonce@,
                ad@,
                old(ciphertext)@,
                expected_tag@,
            ).1,
            final(ciphertext)@.len() == old(ciphertext)@.len(),
    {
        let mut xoodyak = Xoodyak::new(self.key.as_slice(), nonce, Option::None);
        xoodyak.absorb(ad);
        xoodyak.decrypt_inplace(ciphertext);
        let tag = xoodyak.squeeze(AUTH_TAG_BYTES);
        if bytes_eq(tag.as_slice(), expected_tag) {
            Ok(())
        } else {
            Err(())
        }
    }
}

} // verus!
