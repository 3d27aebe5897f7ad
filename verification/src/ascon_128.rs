//! The sponge/duplex cipher over the five-lane permutation: session setup
//! from key and nonce, associated-data absorption at an eight-byte rate,
//! in-place en/decryption through lane 0, and tag extraction from lanes 3
//! and 4 after a keyed final permutation.
//!
//! The duplex absorbs the ciphertext block in either direction — on
//! decryption lane 0 is overwritten with the raw ciphertext before the
//! permutation — which keeps both sides' states in lockstep.

use vstd::prelude::*;
use vstd::slice::slice_subrange;
use crate::ascon_core::State;
use crate::ascon_core::pad;
use crate::ascon_core::spec_pad_mask;
use crate::ascon_core::spec_permute_12;
use crate::ascon_core::spec_permute_6;

verus! {

/// Initialization vector of the cipher: rate, key and tag widths, and the
/// round counts, packed into lane 0.
pub const IV: u64 = 0x80400c0600000000;

/// Big-endian 64-bit word read from eight bytes.
pub open spec fn spec_u64_from_be(b: Seq<u8>) -> u64
    recommends
        b.len() == 8,
{
    (((b[0] as u64) << 56) | ((b[1] as u64) << 48) | ((b[2] as u64) << 40) | ((b[3] as u64) << 32)
        | ((b[4] as u64) << 24) | ((b[5] as u64) << 16) | ((b[6] as u64) << 8) | (b[7] as u64))
}

/// Byte `j` (from the top) of a 64-bit lane.
pub open spec fn spec_u64_byte(w: u64, j: int) -> u8
    recommends
        0 <= j < 8,
{
    (w >> ((56 - 8 * j) as u64)) as u8
}

/// The eight big-endian bytes of a 64-bit lane.
pub open spec fn spec_u64_bytes(w: u64) -> Seq<u8> {
    Seq::new(8, |j: int| spec_u64_byte(w, j))
}

/// A partial block of at most eight bytes, packed big-endian into the top
/// of a lane with the low bytes zero.
pub open spec fn spec_u64_partial(b: Seq<u8>) -> u64
    recommends
        b.len() <= 8,
    decreases b.len(),
{
    if b.len() == 0 {
        0
    } else {
        spec_u64_partial(b.drop_last()) | ((b.last() as u64) << ((56 - 8 * (b.len() - 1)) as u64))
    }
}

/// Mask of the top `n` bytes of a lane.
pub open spec fn spec_top_mask(n: u64) -> u64 {
    if n <= 0 {
        0u64
    } else if n >= 8 {
        0xffff_ffff_ffff_ffffu64
    } else {
        !(0xffff_ffff_ffff_ffffu64 >> ((8 * n) as u64))
    }
}

/// Lane with its top `n` bytes cleared.
pub open spec fn spec_clear(w: u64, n: int) -> u64
    recommends
        1 <= n <= 7,
{
    w & (0x00ff_ffff_ffff_ffffu64 >> ((8 * n - 8) as u64))
}

/// The eight bytes of a lane, written out.
proof fn lemma_u64_bytes_unfold(w: u64)
    ensures
        spec_u64_bytes(w).len() == 8,
        spec_u64_bytes(w)[0] == (w >> 56) as u8,
        spec_u64_bytes(w)[1] == (w >> 48) as u8,
        spec_u64_bytes(w)[2] == (w >> 40) as u8,
        spec_u64_bytes(w)[3] == (w >> 32) as u8,
        spec_u64_bytes(w)[4] == (w >> 24) as u8,
        spec_u64_bytes(w)[5] == (w >> 16) as u8,
        spec_u64_bytes(w)[6] == (w >> 8) as u8,
        spec_u64_bytes(w)[7] == w as u8,
{
    assert((56 - 8 * 0) as u64 == 56u64);
    assert((56 - 8 * 1) as u64 == 48u64);
    assert((56 - 8 * 2) as u64 == 40u64);
    assert((56 - 8 * 3) as u64 == 32u64);
    assert((56 - 8 * 4) as u64 == 24u64);
    assert((56 - 8 * 5) as u64 == 16u64);
    assert((56 - 8 * 6) as u64 == 8u64);
    assert((56 - 8 * 7) as u64 == 0u64);
    assert(forall|x: u64| (x >> 0u64) == x) by (bit_vector);
}

fn u64_from_be_bytes(input: &[u8]) -> (r: u64)
    requires
        input@.len() == 8,
    ensures
        r == spec_u64_from_be(input@),
{
    (((input[0] as u64) << 56) | ((input[1] as u64) << 48) | ((input[2] as u64) << 40) | ((
    input[3] as u64) << 32) | ((input[4] as u64) << 24) | ((input[5] as u64) << 16) | ((
    input[6] as u64) << 8) | (input[7] as u64))
}

fn u64_from_be_bytes_partial(input: &[u8]) -> (r: u64)
    requires
        input@.len() <= 8,
    ensures
        r == spec_u64_partial(input@),
{
    let n = input.len();
    let mut acc: u64 = 0;
    let mut i: usize = 0;
    proof {
        assert(input@.take(0) =~= Seq::<u8>::empty());
    }
    while i < n
        invariant
            i <= n == input@.len() <= 8,
            acc == spec_u64_partial(input@.take(i as int)),
        decreases n - i,
    {
        let sh = (56 - 8 * i) as u64;
        acc = acc | ((input[i] as u64) << sh);
        proof {
            assert(input@.take(i as int + 1).drop_last() =~= input@.take(i as int));
            assert(input@.take(i as int + 1).last() == input@[i as int]);
        }
        i = i + 1;
    }
    proof {
        assert(input@.take(n as int) =~= input@);
    }
    acc
}

/// Lane with the top `n` bytes cleared: the in-flight state bits beyond a
/// partial ciphertext block.
fn clear(word: u64, n: usize) -> (r: u64)
    requires
        1 <= n <= 7,
    ensures
        r == spec_clear(word, n as int),
{
    word & (0x00ff_ffff_ffff_ffffu64 >> ((8 * n - 8) as u64))
}

/// The 128-bit key as two 64-bit halves.
#[derive(Clone, Copy)]
pub struct Key {
    pub k1: u64,
    pub k2: u64,
}

impl Key {
    /// The two big-endian halves of a 16-byte key.
    pub fn from_bytes(key: &[u8]) -> (r: Key)
        requires
            key@.len() == 16,
        ensures
            r.k1 == spec_u64_from_be(key@.subrange(0, 8)),
            r.k2 == spec_u64_from_be(key@.subrange(8, 16)),
    {
        Key {
            k1: u64_from_be_bytes(slice_subrange(key, 0, 8)),
            k2: u64_from_be_bytes(slice_subrange(key, 8, 16)),
        }
    }

    fn get_k1(&self) -> (r: u64)
        ensures
            r == self.k1,
    {
        self.k1
    }

    fn get_k2(&self) -> (r: u64)
        ensures
            r == self.k2,
    {
        self.k2
    }
}

/// Session setup: lanes filled with the initialization vector, the key
/// halves and the nonce halves, the twelve-round permutation, then the key
/// halves XORed back into lanes 3 and 4.
pub open spec fn spec_ascon_init(key: Key, nonce: Seq<u8>) -> State
    recommends
        nonce.len() == 16,
{
    let s = State {
        x0: IV,
        x1: key.k1,
        x2: key.k2,
        x3: spec_u64_from_be(nonce.subrange(0, 8)),
        x4: spec_u64_from_be(nonce.subrange(8, 16)),
    };
    let p = spec_permute_12(s);
    State { x0: p.x0, x1: p.x1, x2: p.x2, x3: p.x3 ^ key.k1, x4: p.x4 ^ key.k2 }
}

/// Full eight-byte associated-data blocks XORed into lane 0, a six-round
/// permutation between blocks.
pub open spec fn spec_ad_blocks(s: State, ad: Seq<u8>, i: int) -> State
    decreases ad.len() - i,
{
    if i < 0 || i + 8 > ad.len() {
        s
    } else {
        let t = State {
            x0: s.x0 ^ spec_u64_from_be(ad.subrange(i, i + 8)),
            x1: s.x1,
            x2: s.x2,
            x3: s.x3,
            x4: s.x4,
        };
        spec_ad_blocks(spec_permute_6(t), ad, i + 8)
    }
}

/// Associated-data absorption: full blocks, then the padded (possibly
/// empty) final block and one more permutation; skipped entirely for empty
/// associated data.  Lane 4 takes the domain-separation bit either way.
pub open spec fn spec_process_ad(s: State, ad: Seq<u8>) -> State {
    let t = if ad.len() > 0 {
        let sb = spec_ad_blocks(s, ad, 0);
        let r = (ad.len() % 8) as int;
        let x0p = sb.x0 ^ spec_pad_mask(r);
        let x0f = if r > 0 {
            x0p ^ spec_u64_partial(ad.skip(ad.len() - r))
        } else {
            x0p
        };
        spec_permute_6(State { x0: x0f, x1: sb.x1, x2: sb.x2, x3: sb.x3, x4: sb.x4 })
    } else {
        s
    };
    State { x0: t.x0, x1: t.x1, x2: t.x2, x3: t.x3, x4: t.x4 ^ 1 }
}

/// Encryption stream: per full block, XOR the plaintext into lane 0, emit
/// lane 0, permute; the final partial block is padded, XORed, and emitted
/// to exactly its own length.  Returns the final state and the ciphertext.
pub open spec fn spec_enc_stream(s: State, pt: Seq<u8>) -> (State, Seq<u8>)
    decreases pt.len(),
{
    if pt.len() >= 8 {
        let w = s.x0 ^ spec_u64_from_be(pt.take(8));
        let t = spec_permute_6(State { x0: w, x1: s.x1, x2: s.x2, x3: s.x3, x4: s.x4 });
        let rest = spec_enc_stream(t, pt.skip(8));
        (rest.0, spec_u64_bytes(w) + rest.1)
    } else {
        let n = pt.len() as int;
        let x0p = s.x0 ^ spec_pad_mask(n);
        if n > 0 {
            let w = x0p ^ spec_u64_partial(pt);
            (
                State { x0: w, x1: s.x1, x2: s.x2, x3: s.x3, x4: s.x4 },
                spec_u64_bytes(w).take(n),
            )
        } else {
            (State { x0: x0p, x1: s.x1, x2: s.x2, x3: s.x3, x4: s.x4 }, Seq::empty())
        }
    }
}

/// Decryption stream: per full block, emit lane 0 XOR ciphertext, then set
/// lane 0 to the raw ciphertext before permuting; the final partial block
/// additionally clears the lane bits beyond the block's length and
/// re-applies the ciphertext, so that no untransmitted state bits leak
/// into the next phase.
pub open spec fn spec_dec_stream(s: State, ct: Seq<u8>) -> (State, Seq<u8>)
    decreases ct.len(),
{
    if ct.len() >= 8 {
        let cx = spec_u64_from_be(ct.take(8));
        let out = spec_u64_bytes(s.x0 ^ cx);
        let t = spec_permute_6(State { x0: cx, x1: s.x1, x2: s.x2, x3: s.x3, x4: s.x4 });
        let rest = spec_dec_stream(t, ct.skip(8));
        (rest.0, out + rest.1)
    } else {
        let n = ct.len() as int;
        let x0p = s.x0 ^ spec_pad_mask(n);
        if n > 0 {
            let cx = spec_u64_partial(ct);
            let w = x0p ^ cx;
            (
                State { x0: spec_clear(w, n) ^ cx, x1: s.x1, x2: s.x2, x3: s.x3, x4: s.x4 },
                spec_u64_bytes(w).take(n),
            )
        } else {
            (State { x0: x0p, x1: s.x1, x2: s.x2, x3: s.x3, x4: s.x4 }, Seq::empty())
        }
    }
}

/// Finalization: key halves into lanes 1 and 2, the twelve-round
/// permutation with the key re-injection into lanes 3 and 4, and the tag
/// read from those two lanes big-endian.  Returns the final state and the
/// sixteen-byte tag.
pub open spec fn spec_final(s: State, key: Key) -> (State, Seq<u8>) {
    let t = State { x0: s.x0, x1: s.x1 ^ key.k1, x2: s.x2 ^ key.k2, x3: s.x3, x4: s.x4 };
    let p = spec_permute_12(t);
    let f = State { x0: p.x0, x1: p.x1, x2: p.x2, x3: p.x3 ^ key.k1, x4: p.x4 ^ key.k2 };
    (f, spec_u64_bytes(f.x3) + spec_u64_bytes(f.x4))
}

/// Whole-message encryption from key and nonce: (ciphertext, tag).
pub open spec fn spec_ascon_encrypt(key: Key, nonce: Seq<u8>, ad: Seq<u8>, pt: Seq<u8>) -> (
    Seq<u8>,
    Seq<u8>,
) {
    let s = spec_process_ad(spec_ascon_init(key, nonce), ad);
    let e = spec_enc_stream(s, pt);
    (e.1, spec_final(e.0, key).1)
}

/// Whole-message decryption: (recovered plaintext, tag matches).  The
/// buffer holds the tentative plaintext whatever the tag outcome.
pub open spec fn spec_ascon_decrypt(
    key: Key,
    nonce: Seq<u8>,
    ad: Seq<u8>,
    ct: Seq<u8>,
    expected_tag: Seq<u8>,
) -> (Seq<u8>, bool) {
    let s = spec_process_ad(spec_ascon_init(key, nonce), ad);
    let d = spec_dec_stream(s, ct);
    (d.1, spec_final(d.0, key).1 == expected_tag)
}

pub struct Ascon128 {
    pub state: State,
    pub key: Key,
}

impl Ascon128 {
    pub fn new(key: Key, nonce: &[u8]) -> (r: Ascon128)
        requires
            nonce@.len() == 16,
        ensures
            r.state == spec_ascon_init(key, nonce@),
            r.key == key,
    {
        let n0 = u64_from_be_bytes(slice_subrange(nonce, 0, 8));
        let n1 = u64_from_be_bytes(slice_subrange(nonce, 8, 16));
        let mut state = State::new(IV, key.get_k1(), key.get_k2(), n0, n1);
        state.permute_12();
        state.x3 = state.x3 ^ key.get_k1();
        state.x4 = state.x4 ^ key.get_k2();
        Ascon128 { state, key }
    }

    fn permute_12_and_apply_key(&mut self)
        ensures
            final(self).key == old(self).key,
            final(self).state == ({
                let p = spec_permute_12(old(self).state);
                State {
                    x0: p.x0,
                    x1: p.x1,
                    x2: p.x2,
                    x3: p.x3 ^ old(self).key.k1,
                    x4: p.x4 ^ old(self).key.k2,
                }
            }),
    {
        self.state.permute_12();
        self.state.x3 = self.state.x3 ^ self.key.get_k1();
        self.state.x4 = self.state.x4 ^ self.key.get_k2();
    }

    fn permute_state(&mut self)
        ensures
            final(self).key == old(self).key,
            final(self).state == spec_permute_6(old(self).state),
    {
        self.state.permute_6();
    }

    fn process_associated_date(&mut self, associated_data: &[u8])
        ensures
            final(self).key == old(self).key,
            final(self).state == spec_process_ad(old(self).state, associated_data@),
    {
        let n = associated_data.len();
        if n > 0 {
            let ghost s0 = self.state;
            let full = n - (n % 8);
            let mut i: usize = 0;
            while i < full
                invariant
                    i <= full <= n == associated_data@.len(),
                    full == n - (n % 8),
                    i % 8 == 0,
                    self.key == old(self).key,
                    spec_ad_blocks(s0, associated_data@, 0) == spec_ad_blocks(
                        self.state,
                        associated_data@,
                        i as int,
                    ),
                decreases full - i,
            {
                let w = u64_from_be_bytes(slice_subrange(associated_data, i, i + 8));
                self.state.x0 = self.state.x0 ^ w;
                self.permute_state();
                i = i + 8;
            }
            let r = n - full;
            self.state.x0 = self.state.x0 ^ pad(r);
            if r > 0 {
                let w = u64_from_be_bytes_partial(slice_subrange(associated_data, full, n));
                proof {
                    assert(associated_data@.subrange(full as int, n as int)
                        =~= associated_data@.skip(n - r));
                }
                self.state.x0 = self.state.x0 ^ w;
            }
            self.permute_state();
        }
        self.state.x4 = self.state.x4 ^ 1;
    }

    fn process_encrypt_inplace(&mut self, message: &mut Vec<u8>)
        ensures
            final(self).key == old(self).key,
            final(self).state == spec_enc_stream(old(self).state, old(message)@).0,
            final(message)@ == spec_enc_stream(old(self).state, old(message)@).1,
            final(message)@.len() == old(message)@.len(),
    {
        let ghost s0 = self.state;
        let ghost orig = message@;
        let n = message.len();
        let full = n - (n % 8);
        let mut i: usize = 0;
        proof {
            assert(orig.skip(0) =~= orig);
            assert(message@.take(0) + spec_enc_stream(self.state, orig.skip(0)).1
                =~= spec_enc_stream(self.state, orig).1);
            assert(message@.subrange(0, n as int) =~= orig.subrange(0, n as int));
        }
        while i < full
            invariant
                i <= full <= n == message@.len() == orig.len(),
                full == n - (n % 8),
                i % 8 == 0,
                self.key == old(self).key,
                message@.subrange(i as int, n as int) == orig.subrange(i as int, n as int),
                spec_enc_stream(s0, orig).0 == spec_enc_stream(self.state, orig.skip(i as int)).0,
                spec_enc_stream(s0, orig).1 == message@.take(i as int) + spec_enc_stream(
                    self.state,
                    orig.skip(i as int),
                ).1,
            decreases full - i,
        {
            let ghost spre = self.state;
            let ghost pre = message@;
            let ghost rem = orig.skip(i as int);
            let b0 = message[i];
            let b1 = message[i + 1];
            let b2 = message[i + 2];
            let b3 = message[i + 3];
            let b4 = message[i + 4];
            let b5 = message[i + 5];
            let b6 = message[i + 6];
            let b7 = message[i + 7];
            let m = (((b0 as u64) << 56) | ((b1 as u64) << 48) | ((b2 as u64) << 40) | ((
            b3 as u64) << 32) | ((b4 as u64) << 24) | ((b5 as u64) << 16) | ((b6 as u64) << 8) | (
            b7 as u64));
            proof {
                assert forall|k: int| 0 <= k < 8 implies pre.subrange(i as int, n as int)[k]
                    == orig.subrange(i as int, n as int)[k] by {}
                assert(rem.take(8)[0] == orig[i as int]);
                assert(rem.take(8)[1] == orig[i as int + 1]);
                assert(rem.take(8)[2] == orig[i as int + 2]);
                assert(rem.take(8)[3] == orig[i as int + 3]);
                assert(rem.take(8)[4] == orig[i as int + 4]);
                assert(rem.take(8)[5] == orig[i as int + 5]);
                assert(rem.take(8)[6] == orig[i as int + 6]);
                assert(rem.take(8)[7] == orig[i as int + 7]);
                assert(m == spec_u64_from_be(rem.take(8)));
            }
            let w = self.state.x0 ^ m;
            message[i] = (w >> 56) as u8;
            message[i + 1] = (w >> 48) as u8;
            message[i + 2] = (w >> 40) as u8;
            message[i + 3] = (w >> 32) as u8;
            message[i + 4] = (w >> 24) as u8;
            message[i + 5] = (w >> 16) as u8;
            message[i + 6] = (w >> 8) as u8;
            message[i + 7] = w as u8;
            self.state.x0 = w;
            self.permute_state();
            proof {
                lemma_u64_bytes_unfold(w);
                let head = spec_u64_bytes(w);
                let tail = spec_enc_stream(self.state, orig.skip(i as int + 8));
                assert(message@[i as int] == head[0]);
                assert(message@[i as int + 1] == head[1]);
                assert(message@[i as int + 2] == head[2]);
                assert(message@[i as int + 3] == head[3]);
                assert(message@[i as int + 4] == head[4]);
                assert(message@[i as int + 5] == head[5]);
                assert(message@[i as int + 6] == head[6]);
                assert(message@[i as int + 7] == head[7]);
                assert(rem.skip(8) =~= orig.skip(i as int + 8));
                assert(spec_enc_stream(spre, rem).1 == head + tail.1);
                assert(spec_enc_stream(spre, rem).0 == tail.0);
                assert(message@.take(i as int + 8) =~= pre.take(i as int) + head);
                assert(message@.subrange(i as int + 8, n as int) =~= orig.subrange(
                    i as int + 8,
                    n as int,
                ));
                assert(pre.take(i as int) + (head + tail.1) =~= (pre.take(i as int) + head)
                    + tail.1);
                assert(spec_enc_stream(s0, orig).1 == message@.take(i as int + 8) + tail.1);
            }
            i = i + 8;
        }
        let r = n - full;
        let ghost spre = self.state;
        let ghost pre = message@;
        let ghost rem = orig.skip(full as int);
        proof {
            assert(rem.len() == r < 8);
        }
        self.state.x0 = self.state.x0 ^ pad(r);
        if r > 0 {
            let p = u64_from_be_bytes_partial(slice_subrange(message.as_slice(), full, n));
            proof {
                assert(message@.subrange(full as int, n as int) =~= rem);
            }
            let w = self.state.x0 ^ p;
            let mut j: usize = 0;
            while j < r
                invariant
                    j <= r < 8,
                    full + r == n == message@.len(),
                    message@.take(full as int) == pre.take(full as int),
                    forall|k: int|
                        0 <= k < j ==> message@[full as int + k] == spec_u64_byte(w, k),
                decreases r - j,
            {
                let sh = (56 - 8 * j) as u64;
                message[full + j] = (w >> sh) as u8;
                proof {
                    assert(sh == (56 - 8 * (j as int)) as u64);
                    assert(message@[full as int + j as int] == spec_u64_byte(w, j as int));
                }
                j = j + 1;
            }
            self.state.x0 = w;
            proof {
                assert(spec_enc_stream(spre, rem).0 == self.state);
                assert(message@.take(full as int) =~= pre.take(full as int));
                assert(message@ =~= message@.take(full as int) + spec_u64_bytes(w).take(r as int));
                assert(spec_enc_stream(s0, orig).1 == pre.take(full as int) + spec_enc_stream(
                    spre,
                    rem,
                ).1);
                assert(message@ == spec_enc_stream(s0, orig).1);
            }
        } else {
            proof {
                assert(rem.len() == 0);
                assert(spec_enc_stream(spre, rem).1 =~= Seq::<u8>::empty());
                assert(message@.take(full as int) =~= message@);
                assert(message@.take(full as int) + spec_enc_stream(spre, rem).1 =~= message@);
            }
        }
    }

    fn process_decrypt_inplace(&mut self, ciphertext: &mut Vec<u8>)
        ensures
            final(self).key == old(self).key,
            final(self).state == spec_dec_stream(old(self).state, old(ciphertext)@).0,
            final(ciphertext)@ == spec_dec_stream(old(self).state, old(ciphertext)@).1,
            final(ciphertext)@.len() == old(ciphertext)@.len(),
    {
        let ghost s0 = self.state;
        let ghost orig = ciphertext@;
        let n = ciphertext.len();
        let full = n - (n % 8);
        let mut i: usize = 0;
        proof {
            assert(orig.skip(0) =~= orig);
            assert(ciphertext@.take(0) + spec_dec_stream(self.state, orig.skip(0)).1
                =~= spec_dec_stream(self.state, orig).1);
            assert(ciphertext@.subrange(0, n as int) =~= orig.subrange(0, n as int));
        }
        while i < full
            invariant
                i <= full <= n == ciphertext@.len() == orig.len(),
                full == n - (n % 8),
                i % 8 == 0,
                self.key == old(self).key,
                ciphertext@.subrange(i as int, n as int) == orig.subrange(i as int, n as int),
                spec_dec_stream(s0, orig).0 == spec_dec_stream(self.state, orig.skip(i as int)).0,
                spec_dec_stream(s0, orig).1 == ciphertext@.take(i as int) + spec_dec_stream(
                    self.state,
                    orig.skip(i as int),
                ).1,
            decreases full - i,
        {
            let ghost spre = self.state;
            let ghost pre = ciphertext@;
            let ghost rem = orig.skip(i as int);
            let b0 = ciphertext[i];
            let b1 = ciphertext[i + 1];
            let b2 = ciphertext[i + 2];
            let b3 = ciphertext[i + 3];
            let b4 = ciphertext[i + 4];
            let b5 = ciphertext[i + 5];
            let b6 = ciphertext[i + 6];
            let b7 = ciphertext[i + 7];
            let cx = (((b0 as u64) << 56) | ((b1 as u64) << 48) | ((b2 as u64) << 40) | ((
            b3 as u64) << 32) | ((b4 as u64) << 24) | ((b5 as u64) << 16) | ((b6 as u64) << 8) | (
            b7 as u64));
            proof {
                assert forall|k: int| 0 <= k < 8 implies pre.subrange(i as int, n as int)[k]
                    == orig.subrange(i as int, n as int)[k] by {}
                assert(rem.take(8)[0] == orig[i as int]);
                assert(rem.take(8)[1] == orig[i as int + 1]);
                assert(rem.take(8)[2] == orig[i as int + 2]);
                assert(rem.take(8)[3] == orig[i as int + 3]);
                assert(rem.take(8)[4] == orig[i as int + 4]);
                assert(rem.take(8)[5] == orig[i as int + 5]);
                assert(rem.take(8)[6] == orig[i as int + 6]);
                assert(rem.take(8)[7] == orig[i as int + 7]);
                assert(cx == spec_u64_from_be(rem.take(8)));
            }
            let w = self.state.x0 ^ cx;
            ciphertext[i] = (w >> 56) as u8;
            ciphertext[i + 1] = (w >> 48) as u8;
            ciphertext[i + 2] = (w >> 40) as u8;
            ciphertext[i + 3] = (w >> 32) as u8;
            ciphertext[i + 4] = (w >> 24) as u8;
            ciphertext[i + 5] = (w >> 16) as u8;
            ciphertext[i + 6] = (w >> 8) as u8;
            ciphertext[i + 7] = w as u8;
            self.state.x0 = cx;
            self.permute_state();
            proof {
                lemma_u64_bytes_unfold(w);
                let head = spec_u64_bytes(w);
                let tail = spec_dec_stream(self.state, orig.skip(i as int + 8));
                assert(ciphertext@[i as int] == head[0]);
                assert(ciphertext@[i as int + 1] == head[1]);
                assert(ciphertext@[i as int + 2] == head[2]);
                assert(ciphertext@[i as int + 3] == head[3]);
                assert(ciphertext@[i as int + 4] == head[4]);
                assert(ciphertext@[i as int + 5] == head[5]);
                assert(ciphertext@[i as int + 6] == head[6]);
                assert(ciphertext@[i as int + 7] == head[7]);
                assert(rem.skip(8) =~= orig.skip(i as int + 8));
                assert(spec_dec_stream(spre, rem).1 == head + tail.1);
                assert(spec_dec_stream(spre, rem).0 == tail.0);
                assert(ciphertext@.take(i as int + 8) =~= pre.take(i as int) + head);
                assert(ciphertext@.subrange(i as int + 8, n as int) =~= orig.subrange(
                    i as int + 8,
                    n as int,
                ));
                assert(pre.take(i as int) + (head + tail.1) =~= (pre.take(i as int) + head)
                    + tail.1);
                assert(spec_dec_stream(s0, orig).1 == ciphertext@.take(i as int + 8) + tail.1);
            }
            i = i + 8;
        }
        let r = n - full;
        let ghost spre = self.state;
        let ghost pre = ciphertext@;
        let ghost rem = orig.skip(full as int);
        proof {
            assert(rem.len() == r < 8);
        }
        self.state.x0 = self.state.x0 ^ pad(r);
        if r > 0 {
            let cx = u64_from_be_bytes_partial(slice_subrange(ciphertext.as_slice(), full, n));
            proof {
                assert(ciphertext@.subrange(full as int, n as int) =~= rem);
            }
            self.state.x0 = self.state.x0 ^ cx;
            let w = self.state.x0;
            let mut j: usize = 0;
            while j < r
                invariant
                    j <= r < 8,
                    full + r == n == ciphertext@.len(),
                    ciphertext@.take(full as int) == pre.take(full as int),
                    forall|k: int|
                        0 <= k < j ==> ciphertext@[full as int + k] == spec_u64_byte(w, k),
                decreases r - j,
            {
                let sh = (56 - 8 * j) as u64;
                ciphertext[full + j] = (w >> sh) as u8;
                proof {
                    assert(sh == (56 - 8 * (j as int)) as u64);
                    assert(ciphertext@[full as int + j as int] == spec_u64_byte(w, j as int));
                }
                j = j + 1;
            }
            self.state.x0 = clear(self.state.x0, r) ^ cx;
            proof {
                assert(spec_dec_stream(spre, rem).0 == self.state);
                assert(ciphertext@.take(full as int) =~= pre.take(full as int));
                assert(ciphertext@ =~= ciphertext@.take(full as int) + spec_u64_bytes(w).take(
                    r as int,
                ));
                assert(spec_dec_stream(s0, orig).1 == pre.take(full as int) + spec_dec_stream(
                    spre,
                    rem,
                ).1);
                assert(ciphertext@ == spec_dec_stream(s0, orig).1);
            }
        } else {
            proof {
                assert(rem.len() == 0);
                assert(spec_dec_stream(spre, rem).1 =~= Seq::<u8>::empty());
                assert(ciphertext@.take(full as int) =~= ciphertext@);
                assert(ciphertext@.take(full as int) + spec_dec_stream(spre, rem).1
                    =~= ciphertext@);
            }
        }
    }

    fn process_final(&mut self) -> (tag: Vec<u8>)
        ensures
            final(self).key == old(self).key,
            final(self).state == spec_final(old(self).state, old(self).key).0,
            tag@ == spec_final(old(self).state, old(self).key).1,
            tag@.len() == 16,
    {
        self.state.x1 = self.state.x1 ^ self.key.get_k1();
        self.state.x2 = self.state.x2 ^ self.key.get_k2();
        self.permute_12_and_apply_key();
        let h = self.state.x3;
        let l = self.state.x4;
        let mut tag: Vec<u8> = Vec::new();
        tag.push((h >> 56) as u8);
        tag.push((h >> 48) as u8);
        tag.push((h >> 40) as u8);
        tag.push((h >> 32) as u8);
        tag.push((h >> 24) as u8);
        tag.push((h >> 16) as u8);
        tag.push((h >> 8) as u8);
        tag.push(h as u8);
        tag.push((l >> 56) as u8);
        tag.push((l >> 48) as u8);
        tag.push((l >> 40) as u8);
        tag.push((l >> 32) as u8);
        tag.push((l >> 24) as u8);
        tag.push((l >> 16) as u8);
        tag.push((l >> 8) as u8);
        tag.push(l as u8);
        proof {
            lemma_u64_bytes_unfold(h);
            lemma_u64_bytes_unfold(l);
            assert(tag@ =~= spec_u64_bytes(h) + spec_u64_bytes(l));
        }
        tag
    }

    /// Encrypts `plaintext` in place from the session state and returns
    /// the sixteen-byte tag.
    pub fn encrypt(&mut self, associated_data: &[u8], plaintext: &mut Vec<u8>) -> (tag: Vec<u8>)
        ensures
            ({
                let s2 = spec_process_ad(old(self).state, associated_data@);
                let e = spec_enc_stream(s2, old(plaintext)@);
                final(plaintext)@ == e.1 && tag@ == spec_final(e.0, old(self).key).1
            }),
            tag@.len() == 16,
            final(plaintext)@.len() == old(plaintext)@.len(),
    {
        self.process_associated_date(associated_data);
        self.process_encrypt_inplace(plaintext);
        self.process_final()
    }

    /// Decrypts `ciphertext` in place from the session state; `Ok` exactly
    /// when the recomputed tag equals `expected_tag`.
    pub fn decrypt(&mut self, associated_data: &[u8], ciphertext: &mut Vec<u8>, expected_tag: &[
        u8]) -> (r: Result<(), ()>)
        ensures
            ({
                let s2 = spec_process_ad(old(self).state, associated_data@);
                let d = spec_dec_stream(s2, old(ciphertext)@);
                final(ciphertext)@ == d.1 && r.is_ok() == (spec_final(d.0, old(self).key).1
                    == expected_tag@)
            }),
            final(ciphertext)@.len() == old(ciphertext)@.len(),
    {
        self.process_associated_date(associated_data);
        self.process_decrypt_inplace(ciphertext);
        let tag = self.process_final();
        if bytes_eq(tag.as_slice(), expected_tag) {
            Ok(())
        } else {
            Err(())
        }
    }
}

proof fn bv_xor_cancel(a: u64, b: u64)
    by (bit_vector)
    ensures
        (a ^ (a ^ b)) == b,
{
}

proof fn bv_mask_base(w: u64)
    by (bit_vector)
    ensures
        (w & spec_top_mask(0)) == 0,
{
}

/// A value confined to the top `k` bytes stays confined to the top `k + 1`
/// after a byte is ORed in at position `k`.
proof fn bv_step_top(x: u64, v: u8, k: u64)
    by (bit_vector)
    requires
        k < 8,
        (x & spec_top_mask(k)) == x,
    ensures
        ((x | ((v as u64) << ((56 - 8 * k) as u64))) & spec_top_mask((k + 1) as u64)) == (x | ((
        v as u64) << ((56 - 8 * k) as u64))),
{
}

/// Repacking byte `k` of a lane on top of its first `k` bytes masks one
/// more byte of the lane.
proof fn bv_step_pack(w: u64, k: u64)
    by (bit_vector)
    requires
        k < 8,
    ensures
        ((w & spec_top_mask(k)) | ((((w >> ((56 - 8 * k) as u64)) as u8) as u64) << ((56 - 8
            * k) as u64))) == (w & spec_top_mask((k + 1) as u64)),
{
}

/// A byte ORed in at position `k` leaves the bytes above it unchanged.
proof fn bv_byte_or_low(x: u64, v: u8, k: u64, j: u64)
    by (bit_vector)
    requires
        j < k,
        k < 8,
    ensures
        (((x | ((v as u64) << ((56 - 8 * k) as u64))) >> ((56 - 8 * j) as u64)) as u8) == ((x >> ((
        56 - 8 * j) as u64)) as u8),
{
}

/// A byte ORed in at position `k` of a value confined to the top `k` bytes
/// is read back unchanged.
proof fn bv_byte_or_at(x: u64, v: u8, k: u64)
    by (bit_vector)
    requires
        k < 8,
        (x & spec_top_mask(k)) == x,
    ensures
        (((x | ((v as u64) << ((56 - 8 * k) as u64))) >> ((56 - 8 * k) as u64)) as u8) == v,
{
}

/// Two lanes that agree on their top `n` bytes under the mask agree on
/// each of those bytes.
proof fn bv_byte_masked(x: u64, y: u64, n: u64, j: u64)
    by (bit_vector)
    requires
        j < n,
        n <= 8,
        (x & spec_top_mask(n)) == (y & spec_top_mask(n)),
    ensures
        ((x >> ((56 - 8 * j) as u64)) as u8) == ((y >> ((56 - 8 * j) as u64)) as u8),
{
}

/// XOR under the top mask ignores the low bytes of the second operand.
proof fn bv_mask_xor(a: u64, b: u64, n: u64)
    by (bit_vector)
    ensures
        ((a ^ (b & spec_top_mask(n))) & spec_top_mask(n)) == ((a ^ b) & spec_top_mask(n)),
{
}

/// The partial-block state fix of decryption: clearing the transmitted top
/// bytes and re-applying the ciphertext restores the encrypting side's lane.
proof fn bv_final_fix(s: u64, p: u64, n: u64)
    by (bit_vector)
    requires
        1 <= n <= 7,
        (p & spec_top_mask(n)) == p,
    ensures
        ((((s ^ ((s ^ p) & spec_top_mask(n))) & (0x00ff_ffff_ffff_ffffu64 >> ((8 * n
            - 8) as u64))) ^ ((s ^ p) & spec_top_mask(n))) == (s ^ p)),
{
}

/// Packing eight bytes and unpacking the word gives the bytes back.
proof fn bv_unpack_pack8(b0: u8, b1: u8, b2: u8, b3: u8, b4: u8, b5: u8, b6: u8, b7: u8)
    by (bit_vector)
    ensures
        (((((b0 as u64) << 56) | ((b1 as u64) << 48) | ((b2 as u64) << 40) | ((b3 as u64) << 32) | (
        (b4 as u64) << 24) | ((b5 as u64) << 16) | ((b6 as u64) << 8) | (b7 as u64)) >> 56) as u8)
            == b0,
        (((((b0 as u64) << 56) | ((b1 as u64) << 48) | ((b2 as u64) << 40) | ((b3 as u64) << 32) | (
        (b4 as u64) << 24) | ((b5 as u64) << 16) | ((b6 as u64) << 8) | (b7 as u64)) >> 48) as u8)
            == b1,
        (((((b0 as u64) << 56) | ((b1 as u64) << 48) | ((b2 as u64) << 40) | ((b3 as u64) << 32) | (
        (b4 as u64) << 24) | ((b5 as u64) << 16) | ((b6 as u64) << 8) | (b7 as u64)) >> 40) as u8)
            == b2,
        (((((b0 as u64) << 56) | ((b1 as u64) << 48) | ((b2 as u64) << 40) | ((b3 as u64) << 32) | (
        (b4 as u64) << 24) | ((b5 as u64) << 16) | ((b6 as u64) << 8) | (b7 as u64)) >> 32) as u8)
            == b3,
        (((((b0 as u64) << 56) | ((b1 as u64) << 48) | ((b2 as u64) << 40) | ((b3 as u64) << 32) | (
        (b4 as u64) << 24) | ((b5 as u64) << 16) | ((b6 as u64) << 8) | (b7 as u64)) >> 24) as u8)
            == b4,
        (((((b0 as u64) << 56) | ((b1 as u64) << 48) | ((b2 as u64) << 40) | ((b3 as u64) << 32) | (
        (b4 as u64) << 24) | ((b5 as u64) << 16) | ((b6 as u64) << 8) | (b7 as u64)) >> 16) as u8)
            == b5,
        (((((b0 as u64) << 56) | ((b1 as u64) << 48) | ((b2 as u64) << 40) | ((b3 as u64) << 32) | (
        (b4 as u64) << 24) | ((b5 as u64) << 16) | ((b6 as u64) << 8) | (b7 as u64)) >> 8) as u8)
            == b6,
        ((((b0 as u64) << 56) | ((b1 as u64) << 48) | ((b2 as u64) << 40) | ((b3 as u64) << 32) | ((
        b4 as u64) << 24) | ((b5 as u64) << 16) | ((b6 as u64) << 8) | (b7 as u64)) as u8) == b7,
{
}

/// Unpacking a word into eight bytes and packing them gives the word back.
proof fn bv_pack_unpack8(w: u64)
    by (bit_vector)
    ensures
        (((((w >> 56) as u8) as u64) << 56) | ((((w >> 48) as u8) as u64) << 48) | ((((w
            >> 40) as u8) as u64) << 40) | ((((w >> 32) as u8) as u64) << 32) | ((((w
            >> 24) as u8) as u64) << 24) | ((((w >> 16) as u8) as u64) << 16) | ((((w
            >> 8) as u8) as u64) << 8) | ((w as u8) as u64)) == w,
{
}

/// A partial block packed into a lane is confined to its top bytes.
proof fn lemma_partial_top(b: Seq<u8>)
    requires
        b.len() <= 8,
    ensures
        (spec_u64_partial(b) & spec_top_mask(b.len() as u64)) == spec_u64_partial(b),
    decreases b.len(),
{
    if b.len() == 0 {
        bv_mask_base(0);
    } else {
        let bd = b.drop_last();
        lemma_partial_top(bd);
        bv_step_top(spec_u64_partial(bd), b.last(), (b.len() - 1) as u64);
    }
}

/// Packing the top `n` unpacked bytes of a lane masks the lane to its top
/// `n` bytes.
proof fn lemma_pack_unpack_prefix(w: u64, n: int)
    requires
        0 <= n <= 8,
    ensures
        spec_u64_partial(spec_u64_bytes(w).take(n)) == (w & spec_top_mask(n as u64)),
    decreases n,
{
    if n == 0 {
        assert(spec_u64_bytes(w).take(0) =~= Seq::<u8>::empty());
        bv_mask_base(w);
    } else {
        lemma_pack_unpack_prefix(w, n - 1);
        assert(spec_u64_bytes(w).take(n).drop_last() =~= spec_u64_bytes(w).take(n - 1));
        assert(spec_u64_bytes(w).take(n).last() == spec_u64_byte(w, n - 1));
        bv_step_pack(w, (n - 1) as u64);
    }
}

/// Unpacking a packed partial block gives the block's bytes back.
proof fn lemma_unpack_pack_prefix(b: Seq<u8>)
    requires
        b.len() <= 8,
    ensures
        spec_u64_bytes(spec_u64_partial(b)).take(b.len() as int) == b,
    decreases b.len(),
{
    let n = b.len() as int;
    if n == 0 {
        assert(spec_u64_bytes(spec_u64_partial(b)).take(0) =~= b);
    } else {
        let bd = b.drop_last();
        let pd = spec_u64_partial(bd);
        let p = spec_u64_partial(b);
        lemma_unpack_pack_prefix(bd);
        lemma_partial_top(bd);
        assert forall|j: int| 0 <= j < n - 1 implies spec_u64_byte(p, j) == b[j] by {
            bv_byte_or_low(pd, b.last(), (n - 1) as u64, j as u64);
            assert(spec_u64_byte(pd, j) == bd[j]);
            assert(bd[j] == b[j]);
        }
        bv_byte_or_at(pd, b.last(), (n - 1) as u64);
        assert(spec_u64_byte(p, n - 1) == b.last());
        assert(spec_u64_bytes(p).take(n) =~= b);
    }
}

/// Two lanes that agree on their top `n` bytes unpack to the same first
/// `n` bytes.
proof fn lemma_bytes_masked(x: u64, y: u64, n: int)
    requires
        0 <= n <= 8,
        (x & spec_top_mask(n as u64)) == (y & spec_top_mask(n as u64)),
    ensures
        spec_u64_bytes(x).take(n) == spec_u64_bytes(y).take(n),
{
    assert forall|j: int| 0 <= j < n implies spec_u64_byte(x, j) == spec_u64_byte(y, j) by {
        bv_byte_masked(x, y, n as u64, j as u64);
    }
    assert(spec_u64_bytes(x).take(n) =~= spec_u64_bytes(y).take(n));
}

/// The en/decryption streams are length-preserving.
pub proof fn lemma_enc_stream_len(s: State, pt: Seq<u8>)
    ensures
        spec_enc_stream(s, pt).1.len() == pt.len(),
    decreases pt.len(),
{
    if pt.len() >= 8 {
        let w = s.x0 ^ spec_u64_from_be(pt.take(8));
        let t = spec_permute_6(State { x0: w, x1: s.x1, x2: s.x2, x3: s.x3, x4: s.x4 });
        lemma_enc_stream_len(t, pt.skip(8));
    }
}

/// Decrypting the stream output of an encryption from the same state
/// recovers the plaintext and leaves both states equal.
pub proof fn lemma_ascon_crypt_sync(s: State, pt: Seq<u8>)
    ensures
        ({
            let e = spec_enc_stream(s, pt);
            let d = spec_dec_stream(s, e.1);
            d.0 == e.0 && d.1 == pt
        }),
    decreases pt.len(),
{
    let e = spec_enc_stream(s, pt);
    let ct = e.1;
    lemma_enc_stream_len(s, pt);
    if pt.len() >= 8 {
        let m = spec_u64_from_be(pt.take(8));
        let w = s.x0 ^ m;
        let t = spec_permute_6(State { x0: w, x1: s.x1, x2: s.x2, x3: s.x3, x4: s.x4 });
        let rest = spec_enc_stream(t, pt.skip(8));
        lemma_u64_bytes_unfold(w);
        assert(ct.take(8) =~= spec_u64_bytes(w));
        assert(ct.skip(8) =~= rest.1);
        bv_pack_unpack8(w);
        assert(spec_u64_from_be(ct.take(8)) == w);
        bv_xor_cancel(s.x0, m);
        assert(s.x0 ^ w == m);
        bv_unpack_pack8(
            pt.take(8)[0],
            pt.take(8)[1],
            pt.take(8)[2],
            pt.take(8)[3],
            pt.take(8)[4],
            pt.take(8)[5],
            pt.take(8)[6],
            pt.take(8)[7],
        );
        lemma_u64_bytes_unfold(m);
        assert(spec_u64_bytes(m) =~= pt.take(8));
        lemma_ascon_crypt_sync(t, pt.skip(8));
        let drest = spec_dec_stream(t, ct.skip(8));
        assert(spec_dec_stream(s, ct).1 == spec_u64_bytes(m) + drest.1);
        assert(spec_u64_bytes(m) + drest.1 =~= pt);
    } else if pt.len() > 0 {
        let n = pt.len() as int;
        let x0p = s.x0 ^ spec_pad_mask(n);
        let pw = spec_u64_partial(pt);
        let w = x0p ^ pw;
        assert(ct == spec_u64_bytes(w).take(n));
        assert(ct.len() == n);
        let cx = spec_u64_partial(ct);
        lemma_pack_unpack_prefix(w, n);
        assert(cx == (w & spec_top_mask(n as u64)));
        let wd = x0p ^ cx;
        lemma_partial_top(pt);
        bv_mask_xor(x0p, w, n as u64);
        bv_xor_cancel(x0p, pw);
        assert(x0p ^ w == pw);
        assert((wd & spec_top_mask(n as u64)) == (pw & spec_top_mask(n as u64)));
        lemma_bytes_masked(wd, pw, n);
        lemma_unpack_pack_prefix(pt);
        assert(spec_u64_bytes(wd).take(n) == pt);
        bv_final_fix(x0p, pw, n as u64);
        assert(spec_clear(wd, n) ^ cx == w);
    } else {
        assert(ct == pt);
    }
}

/// Round trip: decrypting what encryption produced, under the same key,
/// nonce and associated data, recovers the plaintext and accepts the tag.
pub proof fn lemma_ascon_round_trip(key: Key, nonce: Seq<u8>, ad: Seq<u8>, pt: Seq<u8>)
    ensures
        ({
            let e = spec_ascon_encrypt(key, nonce, ad, pt);
            spec_ascon_decrypt(key, nonce, ad, e.0, e.1) == (pt, true)
        }),
{
    lemma_ascon_crypt_sync(spec_process_ad(spec_ascon_init(key, nonce), ad), pt);
}

/// Determinism: any two results meeting encryption's contract for the same
/// key, nonce, associated data and plaintext are the same ciphertext and tag.
pub proof fn lemma_ascon_encrypt_deterministic(
    key: Key,
    nonce: Seq<u8>,
    ad: Seq<u8>,
    pt: Seq<u8>,
    ct1: Seq<u8>,
    tag1: Seq<u8>,
    ct2: Seq<u8>,
    tag2: Seq<u8>,
)
    requires
        (ct1, tag1) == spec_ascon_encrypt(key, nonce, ad, pt),
        (ct2, tag2) == spec_ascon_encrypt(key, nonce, ad, pt),
    ensures
        ct1 == ct2,
        tag1 == tag2,
{
}

/// Length preservation: ciphertext is exactly as long as plaintext, and
/// the tag is sixteen bytes, for every input including the empty ones.
pub proof fn lemma_ascon_encrypt_lengths(key: Key, nonce: Seq<u8>, ad: Seq<u8>, pt: Seq<u8>)
    ensures
        spec_ascon_encrypt(key, nonce, ad, pt).0.len() == pt.len(),
        spec_ascon_encrypt(key, nonce, ad, pt).1.len() == 16,
{
    lemma_enc_stream_len(spec_process_ad(spec_ascon_init(key, nonce), ad), pt);
}

/// Byte-for-byte comparison of two buffers.
fn bytes_eq(a: &[u8], b: &[u8]) -> (r: bool)
    ensures
        r == (a@ == b@),
{
    if a.len() != b.len() {
        return false;
    }
    let n = a.len();
    let mut i: usize = 0;
    while i < n
        invariant
            i <= n,
            a@.len() == n,
            b@.len() == n,
            forall|j: int| 0 <= j < i ==> a@[j] == b@[j],
        decreases n - i,
    {
        if a[i] != b[i] {
            proof {
                assert(a@ == b@ ==> a@[i as int] == b@[i as int]);
            }
            return false;
        }
        i = i + 1;
    }
    proof {
        assert(a@ =~= b@);
    }
    true
}

} // verus!
