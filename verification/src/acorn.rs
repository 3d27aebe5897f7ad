//! Outward face of the feedback-shift-register cipher: a 128-bit key held
//! as four big-endian words, with per-message in-place encryption and
//! decryption under a caller-supplied nonce and associated data.
//!
//! Decryption runs the identical register evolution as encryption — the
//! register absorbs the ciphertext word in either direction — and differs
//! only in the keystream feedback mask and the final tag comparison.

use vstd::prelude::*;
use vstd::slice::slice_subrange;
use crate::acorn_core::State;
use crate::acorn_core::ONES;
use crate::acorn_core::u32_from_be_bytes;
use crate::acorn_core::spec_u32_from_be;
use crate::acorn_core::spec_update8;
use crate::acorn_core::spec_update32;
use crate::acorn_core::spec_init;
use crate::acorn_core::spec_process_ad;
use crate::acorn_core::spec_crypt_stream;
use crate::acorn_core::spec_crypt_full;
use crate::acorn_core::spec_finalize;

verus! {

/// The all-zero register every message starts from.
pub open spec fn spec_zero_state() -> State {
    State { s0: 0u64, s61: 0u64, s107: 0u64, s154: 0u64, s193: 0u64, s230: 0u64 }
}

/// The four big-endian 32-bit key words of a 16-byte key.
pub open spec fn spec_key_words(key: Seq<u8>) -> Seq<u32>
    recommends
        key.len() == 16,
{
    seq![
        spec_u32_from_be(key.subrange(0, 4)),
        spec_u32_from_be(key.subrange(4, 8)),
        spec_u32_from_be(key.subrange(8, 12)),
        spec_u32_from_be(key.subrange(12, 16)),
    ]
}

/// Whole-message encryption: initialize from key words and nonce, absorb
/// the associated data, transform the plaintext with the keystream
/// feedback mask disabled, then squeeze the tag.  Returns (ciphertext, tag).
pub open spec fn spec_acorn_encrypt(key: Seq<u32>, nonce: Seq<u8>, ad: Seq<u8>, pt: Seq<u8>) -> (
    Seq<u8>,
    Seq<u8>,
) {
    let s1 = spec_init(spec_zero_state(), key, nonce);
    let s2 = spec_process_ad(s1, ad);
    let c = spec_crypt_full(s2, pt, 0);
    let f = spec_finalize(c.0);
    (c.1, f.1)
}

/// Whole-message decryption: the same evolution with the keystream
/// feedback mask enabled.  Returns (recovered plaintext, tag matches).
/// The buffer is transformed whatever the tag outcome.
pub open spec fn spec_acorn_decrypt(
    key: Seq<u32>,
    nonce: Seq<u8>,
    ad: Seq<u8>,
    ct: Seq<u8>,
    expected_tag: Seq<u8>,
) -> (Seq<u8>, bool) {
    let s1 = spec_init(spec_zero_state(), key, nonce);
    let s2 = spec_process_ad(s1, ad);
    let c = spec_crypt_full(s2, ct, ONES);
    let f = spec_finalize(c.0);
    (c.1, f.1 == expected_tag)
}

pub struct AcornHead {
    pub key: [u32; 4],
}

/// XOR-mask identities behind the encrypt/decrypt lockstep: with the
/// keystream feedback term enabled, absorbing `m ^ ks` injects the same
/// feedback group as absorbing `m` with the term disabled.
proof fn lemma_mask_xor_facts()
    by (bit_vector)
    ensures
        forall|b: u32, k: u32, m: u32| #[trigger] ((b ^ (0xffff_ffffu32 & k)) ^ (m ^ k)) == ((b ^ (
        0u32 & k)) ^ m),
        forall|b: u32, k: u32, m8: u8|
            #[trigger] (((b ^ ((0xffff_ffffu32 & k) & 0xFF)) ^ (((m8 ^ (k as u8)) as u32))) & 0xFF)
                == (((b ^ ((0u32 & k) & 0xFF)) ^ (m8 as u32)) & 0xFF),
        forall|a: u32, b: u32| #[trigger] ((a ^ b) ^ b) == a,
        forall|a: u8, b: u8| #[trigger] ((a ^ b) ^ b) == a,
{
}

/// Big-endian packing of four bytes and unpacking of a 32-bit word are
/// mutually inverse.
proof fn lemma_be_facts()
    by (bit_vector)
    ensures
        forall|w: u32|
            #[trigger] (((((w >> 24) as u8) as u32) << 24) | ((((w >> 16) as u8) as u32) << 16) | ((
            ((w >> 8) as u8) as u32) << 8) | ((w as u8) as u32)) == w,
        forall|b0: u8, b1: u8, b2: u8, b3: u8|
            ((#[trigger] (((b0 as u32) << 24) | ((b1 as u32) << 16) | ((b2 as u32) << 8) | (
            b3 as u32)) >> 24) as u8) == b0,
        forall|b0: u8, b1: u8, b2: u8, b3: u8|
            ((#[trigger] (((b0 as u32) << 24) | ((b1 as u32) << 16) | ((b2 as u32) << 8) | (
            b3 as u32)) >> 16) as u8) == b1,
        forall|b0: u8, b1: u8, b2: u8, b3: u8|
            ((#[trigger] (((b0 as u32) << 24) | ((b1 as u32) << 16) | ((b2 as u32) << 8) | (
            b3 as u32)) >> 8) as u8) == b2,
        forall|b0: u8, b1: u8, b2: u8, b3: u8|
            ((#[trigger] (((b0 as u32) << 24) | ((b1 as u32) << 16) | ((b2 as u32) << 8) | (
            b3 as u32))) as u8) == b3,
{
}

/// A 32-bit decryption step on `m ^ ks` mirrors the encryption step on `m`:
/// same next state, same keystream.
proof fn lemma_step32_sync(s: State, m: u32)
    ensures
        ({
            let e = spec_update32(s, m, ONES, 0);
            spec_update32(s, m ^ e.1, ONES, ONES) == e
        }),
{
    lemma_mask_xor_facts();
}

/// The 8-bit analogue of `lemma_step32_sync`.
proof fn lemma_step8_sync(s: State, m8: u8)
    ensures
        ({
            let e = spec_update8(s, m8 as u32, ONES, 0);
            spec_update8(s, (m8 ^ (e.1 as u8)) as u32, ONES, ONES) == e
        }),
{
    lemma_mask_xor_facts();
}

/// The stream transform is length-preserving.
pub proof fn lemma_crypt_stream_len(s: State, data: Seq<u8>, mode: u32)
    ensures
        spec_crypt_stream(s, data, mode).1.len() == data.len(),
    decreases data.len(),
{
    if data.len() >= 4 {
        lemma_crypt_stream_len(spec_update32(s, spec_u32_from_be(data.take(4)), ONES, mode).0,
            data.skip(4), mode);
    } else if data.len() > 0 {
        lemma_crypt_stream_len(spec_update8(s, data[0] as u32, ONES, mode).0, data.skip(1), mode);
    }
}

/// Decrypting the stream output of an encryption from the same register
/// state recovers the plaintext and leaves both registers equal.
pub proof fn lemma_crypt_sync(s: State, pt: Seq<u8>)
    ensures
        ({
            let e = spec_crypt_stream(s, pt, 0);
            let d = spec_crypt_stream(s, e.1, ONES);
            d.0 == e.0 && d.1 == pt
        }),
    decreases pt.len(),
{
    let e = spec_crypt_stream(s, pt, 0);
    let ct = e.1;
    lemma_crypt_stream_len(s, pt, 0);
    lemma_mask_xor_facts();
    lemma_be_facts();
    if pt.len() >= 4 {
        let cx = spec_u32_from_be(pt.take(4));
        let stp = spec_update32(s, cx, ONES, 0);
        let w = cx ^ stp.1;
        let head = seq![(w >> 24) as u8, (w >> 16) as u8, (w >> 8) as u8, w as u8];
        let rest = spec_crypt_stream(stp.0, pt.skip(4), 0);
        assert(ct.take(4) =~= head);
        assert(ct.skip(4) =~= rest.1);
        assert(spec_u32_from_be(head) == w);
        lemma_step32_sync(s, cx);
        let dstp = spec_update32(s, w, ONES, ONES);
        assert(dstp == stp);
        assert(w ^ dstp.1 == cx);
        let dhead = seq![(cx >> 24) as u8, (cx >> 16) as u8, (cx >> 8) as u8, cx as u8];
        assert((cx >> 24) as u8 == pt.take(4)[0]);
        assert((cx >> 16) as u8 == pt.take(4)[1]);
        assert((cx >> 8) as u8 == pt.take(4)[2]);
        assert(cx as u8 == pt.take(4)[3]);
        assert(dhead =~= pt.take(4));
        lemma_crypt_sync(stp.0, pt.skip(4));
        let drest = spec_crypt_stream(dstp.0, ct.skip(4), ONES);
        assert(spec_crypt_stream(s, ct, ONES).1 == dhead + drest.1);
        assert(dhead + drest.1 =~= pt);
    } else if pt.len() > 0 {
        let stp = spec_update8(s, pt[0] as u32, ONES, 0);
        let ob = pt[0] ^ (stp.1 as u8);
        let rest = spec_crypt_stream(stp.0, pt.skip(1), 0);
        assert(ct.len() == pt.len() < 4);
        assert(ct[0] == ob);
        assert(ct.skip(1) =~= rest.1);
        lemma_step8_sync(s, pt[0]);
        let dstp = spec_update8(s, ob as u32, ONES, ONES);
        assert(dstp == stp);
        assert(ob ^ (dstp.1 as u8) == pt[0]);
        lemma_crypt_sync(stp.0, pt.skip(1));
        let drest = spec_crypt_stream(dstp.0, ct.skip(1), ONES);
        assert(spec_crypt_stream(s, ct, ONES).1 == seq![pt[0]] + drest.1);
        assert(seq![pt[0]] + drest.1 =~= pt);
    } else {
        assert(ct == pt);
    }
}

/// Round trip: decrypting what encryption produced, under the same key,
/// nonce and associated data, recovers the plaintext and accepts the tag.
pub proof fn lemma_acorn_round_trip(key: Seq<u32>, nonce: Seq<u8>, ad: Seq<u8>, pt: Seq<u8>)
    ensures
        ({
            let e = spec_acorn_encrypt(key, nonce, ad, pt);
            spec_acorn_decrypt(key, nonce, ad, e.0, e.1) == (pt, true)
        }),
{
    let s1 = spec_init(spec_zero_state(), key, nonce);
    let s2 = spec_process_ad(s1, ad);
    lemma_crypt_sync(s2, pt);
}

/// Determinism: any two results meeting encryption's contract for the same
/// key, nonce, associated data and plaintext are the same ciphertext and tag.
pub proof fn lemma_acorn_encrypt_deterministic(
    key: Seq<u32>,
    nonce: Seq<u8>,
    ad: Seq<u8>,
    pt: Seq<u8>,
    ct1: Seq<u8>,
    tag1: Seq<u8>,
    ct2: Seq<u8>,
    tag2: Seq<u8>,
)
    requires
        (ct1, tag1) == spec_acorn_encrypt(key, nonce, ad, pt),
        (ct2, tag2) == spec_acorn_encrypt(key, nonce, ad, pt),
    ensures
        ct1 == ct2,
        tag1 == tag2,
{
}

/// The tag squeeze emits one byte per remaining step.
proof fn lemma_squeeze_len(s: State, k: int)
    requires
        0 <= k <= 16,
    ensures
        crate::acorn_core::spec_squeeze_from(s, k).1.len() == 16 - k,
    decreases 16 - k,
{
    if k < 16 {
        lemma_squeeze_len(spec_update8(s, 0x00, ONES, ONES).0, k + 1);
    }
}

/// Length preservation: ciphertext is exactly as long as plaintext, and the
/// tag is sixteen bytes, for every input including the empty ones.
pub proof fn lemma_acorn_encrypt_lengths(key: Seq<u32>, nonce: Seq<u8>, ad: Seq<u8>, pt: Seq<u8>)
    ensures
        spec_acorn_encrypt(key, nonce, ad, pt).0.len() == pt.len(),
        spec_acorn_encrypt(key, nonce, ad, pt).1.len() == 16,
{
    let s1 = spec_init(spec_zero_state(), key, nonce);
    let s2 = spec_process_ad(s1, ad);
    lemma_crypt_stream_len(s2, pt, 0);
    let c = spec_crypt_full(s2, pt, 0);
    lemma_squeeze_len(crate::acorn_core::spec_final_diffuse_from(c.0, 0), 0);
}

/// Byte-for-byte comparison of two buffers.
fn bytes_eq(a: &[u8], b: &[u8]) -> (r: bool)
    ensures
        r == (a@ == b@),
{
    if a.len() != b.len() {
        return false;
    }
    let n = a.len();
    let mut i: usize = 0;
    while i < n
        invariant
            i <= n,
            a@.len() == n,
            b@.len() == n,
            forall|j: int| 0 <= j < i ==> a@[j] == b@[j],
        decreases n - i,
    {
        if a[i] != b[i] {
            proof {
                assert(a@ == b@ ==> a@[i as int] == b@[i as int]);
            }
            return false;
        }
        i = i + 1;
    }
    proof {
        assert(a@ =~= b@);
    }
    true
}

/// Sixteen zero bytes, the tag buffer finalization fills.
fn fresh_tag_buf() -> (t: Vec<u8>)
    ensures
        t@.len() == 16,
{
    let mut t: Vec<u8> = Vec::new();
    let mut i: usize = 0;
    while i < 16
        invariant
            t@.len() == i,
            i <= 16,
        decreases 16 - i,
    {
        t.push(0);
        i = i + 1;
    }
    t
}

impl AcornHead {
    pub fn new(key: &[u8]) -> (r: AcornHead)
        requires
            key@.len() == 16,
        ensures
            r.key@ == spec_key_words(key@),
    {
        let k0 = u32_from_be_bytes(slice_subrange(key, 0, 4));
        let k1 = u32_from_be_bytes(slice_subrange(key, 4, 8));
        let k2 = u32_from_be_bytes(slice_subrange(key, 8, 12));
        let k3 = u32_from_be_bytes(slice_subrange(key, 12, 16));
        let r = AcornHead { key: [k0, k1, k2, k3] };
        proof {
            assert(r.key@ =~= spec_key_words(key@));
        }
        r
    }

    /// Encrypts `pt` in place and returns the sixteen-byte tag.
    pub fn encrypt(&self, pt: &mut Vec<u8>, ad: &[u8], nonce: &[u8]) -> (tag: Vec<u8>)
        ensures
            final(pt)@ == spec_acorn_encrypt(self.key@, nonce@, ad@, old(pt)@).0,
            tag@ == spec_acorn_encrypt(self.key@, nonce@, ad@, old(pt)@).1,
            final(pt)@.len() == old(pt)@.len(),
            tag@.len() == 16,
    {
        let mut state = State::new();
        state.init(&self.key, nonce);
        state.process_associated_data(ad);
        state.crypt(pt, 0);
        let mut tag = fresh_tag_buf();
        state.finalize(&mut tag);
        tag
    }

    /// Decrypts `ct` in place; `Ok` exactly when the recomputed tag equals
    /// `expected_tag`.  The buffer holds the tentative plaintext whatever
    /// the outcome.
    pub fn decrypt(&self, ct: &mut Vec<u8>, ad: &[u8], nonce: &[u8], expected_tag: &[u8]) -> (r:
        Result<(), ()>)
        ensures
            final(ct)@ == spec_acorn_decrypt(self.key@, nonce@, ad@, old(ct)@, expected_tag@).0,
            r.is_ok() == spec_acorn_decrypt(self.key@, nonce@, ad@, old(ct)@, expected_tag@).1,
            final(ct)@.len() == old(ct)@.len(),
    {
        let mut state = State::new();
        state.init(&self.key, nonce);
        state.process_associated_data(ad);
        state.crypt(ct, ONES);
        let mut tag = fresh_tag_buf();
        state.finalize(&mut tag);
        if bytes_eq(tag.as_slice(), expected_tag) {
            Ok(())
        } else {
            Err(())
        }
    }
}

} // verus!
