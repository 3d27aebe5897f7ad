//! Core state machine of the feedback-shift-register cipher: a 293-bit
//! nonlinear-feedback register held in six unequal-width accumulators
//! (word boundaries at bit offsets 0, 61, 107, 154, 193 and 230), advanced
//! eight or thirty-two bits per step.
//!
//! Each step taps seven fixed bit-groups of the register, forms a keystream
//! group from them with bitwise majority and choice, and shifts a feedback
//! group back in at the top.  Two caller-supplied control masks `ca` and `cb`
//! gate the feedback terms; varying the masks and the injected value `m` is
//! how one step function serves initialization, associated-data absorption,
//! en/decryption and finalization alike.

use vstd::prelude::*;

verus! {

/// All-ones control mask: enables a feedback term unconditionally.
pub const ONES: u32 = 0xffff_ffff;

/// The 293-bit register, split at the specification's word boundaries.
/// Field `sN` holds register bits N.. in its low bits.
#[derive(Clone, Copy)]
pub struct State {
    pub s0: u64,
    pub s61: u64,
    pub s107: u64,
    pub s154: u64,
    pub s193: u64,
    pub s230: u64,
}

/// Bitwise majority-of-three.
pub open spec fn spec_maj(x: u32, y: u32, z: u32) -> u32 {
    (x & y) ^ (x & z) ^ (y & z)
}

/// Bitwise choice: select `y` where `x` has a set bit, else `z`.
pub open spec fn spec_ch(x: u32, y: u32, z: u32) -> u32 {
    (x & y) ^ ((!x) & z)
}

pub fn maj(x: u32, y: u32, z: u32) -> (r: u32)
    ensures
        r == spec_maj(x, y, z),
{
    (x & y) ^ (x & z) ^ (y & z)
}

pub fn ch(x: u32, y: u32, z: u32) -> (r: u32)
    ensures
        r == spec_ch(x, y, z),
{
    (x & y) ^ ((!x) & z)
}

/// Big-endian 32-bit word read from four bytes.
pub open spec fn spec_u32_from_be(b: Seq<u8>) -> u32
    recommends
        b.len() == 4,
{
    (((b[0] as u32) << 24) | ((b[1] as u32) << 16) | ((b[2] as u32) << 8) | (b[3] as u32))
}

pub fn u32_from_be_bytes(input: &[u8]) -> (r: u32)
    requires
        input@.len() == 4,
    ensures
        r == spec_u32_from_be(input@),
{
    ((input[0] as u32) << 24) | ((input[1] as u32) << 16) | ((input[2] as u32) << 8) | (
    input[3] as u32)
}

/// One 8-bit step of the register: the new state and the keystream group.
pub open spec fn spec_update8(s: State, m: u32, ca: u32, cb: u32) -> (State, u32) {
    let s244 = (s.s230 >> 14) as u32;
    let s235 = (s.s230 >> 5) as u32;
    let s196 = (s.s193 >> 3) as u32;
    let s160 = (s.s154 >> 6) as u32;
    let s111 = (s.s107 >> 4) as u32;
    let s66 = (s.s61 >> 5) as u32;
    let s23 = (s.s0 >> 23) as u32;
    let s12 = (s.s0 >> 12) as u32;
    let s0 = s.s0 as u32;
    let x289 = (s235 ^ (s.s230 as u32)) & 0xFF;
    let t230 = (s.s230 as u32) ^ s196 ^ ((s.s193 as u32) & 0xFF);
    let t193 = (s.s193 as u32) ^ s160 ^ ((s.s154 as u32) & 0xFF);
    let t154 = (s.s154 as u32) ^ s111 ^ ((s.s107 as u32) & 0xFF);
    let t107 = (s.s107 as u32) ^ s66 ^ ((s.s61 as u32) & 0xFF);
    let t61 = (s.s61 as u32) ^ s23 ^ (s0 & 0xFF);
    let ks = s12 ^ t154 ^ spec_maj(s235, t61, t193) ^ (spec_ch(t230, s111, s66) & 0xFF);
    let f = s0 ^ (!t107) ^ spec_maj(s244, s23, s160) ^ (ca & s196) ^ ((cb & ks) & 0xFF);
    let s293 = (f ^ m) & 0xFF;
    let ns = State {
        s230: (s.s230 >> 8) ^ ((x289 as u64) << (289 - 230 - 8)) ^ ((s293 as u64) << (293 - 230
            - 8)),
        s193: (s.s193 >> 8) ^ ((t230 as u64) << (230 - 193 - 8)),
        s154: (s.s154 >> 8) ^ ((t193 as u64) << (193 - 154 - 8)),
        s107: (s.s107 >> 8) ^ ((t154 as u64) << (154 - 107 - 8)),
        s61: (s.s61 >> 8) ^ ((t107 as u64) << (107 - 61 - 8)),
        s0: (s.s0 >> 8) ^ ((t61 as u64) << (61 - 8)),
    };
    (ns, ks)
}

/// One 32-bit step of the register: the new state and the keystream word.
pub open spec fn spec_update32(s: State, m: u32, ca: u32, cb: u32) -> (State, u32) {
    let s244 = (s.s230 >> 14) as u32;
    let s235 = (s.s230 >> 5) as u32;
    let s196 = (s.s193 >> 3) as u32;
    let s160 = (s.s154 >> 6) as u32;
    let s111 = (s.s107 >> 4) as u32;
    let s66 = (s.s61 >> 5) as u32;
    let s23 = (s.s0 >> 23) as u32;
    let s12 = (s.s0 >> 12) as u32;
    let s0 = s.s0 as u32;
    let x289 = s235 ^ (s.s230 as u32);
    let t230 = (s.s230 as u32) ^ s196 ^ (s.s193 as u32);
    let t193 = (s.s193 as u32) ^ s160 ^ (s.s154 as u32);
    let t154 = (s.s154 as u32) ^ s111 ^ (s.s107 as u32);
    let t107 = (s.s107 as u32) ^ s66 ^ (s.s61 as u32);
    let t61 = (s.s61 as u32) ^ s23 ^ s0;
    let ks = s12 ^ t154 ^ spec_maj(s235, t61, t193) ^ spec_ch(t230, s111, s66);
    let f = s0 ^ (!t107) ^ spec_maj(s244, s23, s160) ^ (ca & s196) ^ (cb & ks);
    let s293 = f ^ m;
    let ns = State {
        s230: (s.s230 >> 32) ^ ((x289 as u64) << (289 - 230 - 32)) ^ ((s293 as u64) << (293 - 230
            - 32)),
        s193: (s.s193 >> 32) ^ ((t230 as u64) << (230 - 193 - 32)),
        s154: (s.s154 >> 32) ^ ((t193 as u64) << (193 - 154 - 32)),
        s107: (s.s107 >> 32) ^ ((t154 as u64) << (154 - 107 - 32)),
        s61: (s.s61 >> 32) ^ ((t107 as u64) << (107 - 61 - 32)),
        s0: (s.s0 >> 32) ^ ((t61 as u64) << (61 - 32)),
    };
    (ns, ks)
}

/// Fold of 8-bit steps over `bytes[i..]`, the keystream discarded.
pub open spec fn spec_absorb8_from(s: State, bytes: Seq<u8>, i: int, ca: u32, cb: u32) -> State
    decreases bytes.len() - i,
{
    if i < 0 || i >= bytes.len() {
        s
    } else {
        spec_absorb8_from(spec_update8(s, bytes[i] as u32, ca, cb).0, bytes, i + 1, ca, cb)
    }
}

/// The long key-cycling diffusion phase of initialization: one 32-bit step
/// for every bit offset `i` in 32, 64, ... below 15636, feeding key word
/// `i % 128 / 32`.
pub open spec fn spec_diffuse_from(s: State, key: Seq<u32>, i: int) -> State
    decreases 15668 - i,
{
    if 0 <= i < 15636 {
        spec_diffuse_from(spec_update32(s, key[(i % 128) / 32], ONES, ONES).0, key, i + 32)
    } else {
        s
    }
}

/// Initialization: the four key words, the nonce bytes, the first key word
/// flipped in its lowest bit, then the long diffusion phase.
pub open spec fn spec_init(s: State, key: Seq<u32>, iv: Seq<u8>) -> State
    recommends
        key.len() == 4,
{
    let s1 = spec_update32(s, key[0], ONES, ONES).0;
    let s2 = spec_update32(s1, key[1], ONES, ONES).0;
    let s3 = spec_update32(s2, key[2], ONES, ONES).0;
    let s4 = spec_update32(s3, key[3], ONES, ONES).0;
    let s5 = spec_absorb8_from(s4, iv, 0, ONES, ONES);
    let s6 = spec_update32(s5, key[0] ^ 0x01, ONES, ONES).0;
    spec_diffuse_from(s6, key, 32)
}

/// The 256-bit domain-separation padding run: a one bit under mask `cb`,
/// 96 zero bits under full masks, then 128 zero bits with the primary mask
/// dropped and the secondary mask `cb`.
pub open spec fn spec_pad(s: State, cb: u32) -> State {
    let s1 = spec_update32(s, 0x01, ONES, cb).0;
    let s2 = spec_update32(s1, 0x00, ONES, ONES).0;
    let s3 = spec_update32(s2, 0x00, ONES, ONES).0;
    let s4 = spec_update32(s3, 0x00, ONES, ONES).0;
    let s5 = spec_update32(s4, 0x00, 0, cb).0;
    let s6 = spec_update32(s5, 0x00, 0, cb).0;
    let s7 = spec_update32(s6, 0x00, 0, cb).0;
    spec_update32(s7, 0x00, 0, cb).0
}

/// Associated data absorbed byte-wise under full masks, then the padding
/// run with the secondary mask enabled.
pub open spec fn spec_process_ad(s: State, ad: Seq<u8>) -> State {
    spec_pad(spec_absorb8_from(s, ad, 0, ONES, ONES), ONES)
}

/// The in-place stream transform: words of four bytes through 32-bit steps,
/// a trailing partial block byte-wise, each output the input XOR keystream.
/// The register absorbs the buffer word `cx` itself; under `mode` zero
/// (encryption) the keystream feedback term is disabled, under `mode`
/// all-ones (decryption) it is enabled, which keeps both directions'
/// registers in lockstep.  Returns the final state and the whole
/// transformed buffer.
pub open spec fn spec_crypt_stream(s: State, data: Seq<u8>, mode: u32) -> (State, Seq<u8>)
    decreases data.len(),
{
    if data.len() >= 4 {
        let cx = spec_u32_from_be(data.take(4));
        let stp = spec_update32(s, cx, ONES, mode);
        let w = cx ^ stp.1;
        let head = seq![(w >> 24) as u8, (w >> 16) as u8, (w >> 8) as u8, w as u8];
        let rest = spec_crypt_stream(stp.0, data.skip(4), mode);
        (rest.0, head + rest.1)
    } else if data.len() > 0 {
        let stp = spec_update8(s, data[0] as u32, ONES, mode);
        let ob = data[0] ^ (stp.1 as u8);
        let rest = spec_crypt_stream(stp.0, data.skip(1), mode);
        (rest.0, seq![ob] + rest.1)
    } else {
        (s, data)
    }
}

/// The stream transform followed by the padding run with both masks at
/// their transform settings dropped to zero.
pub open spec fn spec_crypt_full(s: State, data: Seq<u8>, mode: u32) -> (State, Seq<u8>) {
    let c = spec_crypt_stream(s, data, mode);
    (spec_pad(c.0, 0), c.1)
}

/// The closing diffusion phase: twenty zero-input 32-bit steps.
pub open spec fn spec_final_diffuse_from(s: State, k: int) -> State
    decreases 20 - k,
{
    if 0 <= k < 20 {
        spec_final_diffuse_from(spec_update32(s, 0x00, ONES, ONES).0, k + 1)
    } else {
        s
    }
}

/// The tag squeeze: one byte of keystream per zero-input 8-bit step,
/// sixteen bytes in all.
pub open spec fn spec_squeeze_from(s: State, k: int) -> (State, Seq<u8>)
    decreases 16 - k,
{
    if 0 <= k < 16 {
        let stp = spec_update8(s, 0x00, ONES, ONES);
        let rest = spec_squeeze_from(stp.0, k + 1);
        (rest.0, seq![stp.1 as u8] + rest.1)
    } else {
        (s, Seq::empty())
    }
}

/// Finalization: the closing diffusion phase, then the sixteen-byte tag.
pub open spec fn spec_finalize(s: State) -> (State, Seq<u8>) {
    spec_squeeze_from(spec_final_diffuse_from(s, 0), 0)
}

impl State {
    /// The all-zero register, the starting point of every message.
    pub fn new() -> (s: State)
        ensures
            s == (State { s0: 0u64, s61: 0u64, s107: 0u64, s154: 0u64, s193: 0u64, s230: 0u64 }),
    {
        State { s0: 0, s61: 0, s107: 0, s154: 0, s193: 0, s230: 0 }
    }

    fn update8(&mut self, m: u32, ca: u32, cb: u32) -> (ks: u32)
        ensures
            *final(self) == spec_update8(*old(self), m, ca, cb).0,
            ks == spec_update8(*old(self), m, ca, cb).1,
    {
        let s244 = (self.s230 >> 14) as u32;
        let s235 = (self.s230 >> 5) as u32;
        let s196 = (self.s193 >> 3) as u32;
        let s160 = (self.s154 >> 6) as u32;
        let s111 = (self.s107 >> 4) as u32;
        let s66 = (self.s61 >> 5) as u32;
        let s23 = (self.s0 >> 23) as u32;
        let s12 = (self.s0 >> 12) as u32;
        let s0 = self.s0 as u32;

        let x289 = (s235 ^ (self.s230 as u32)) & 0xFF;

        let s230 = (self.s230 as u32) ^ s196 ^ ((self.s193 as u32) & 0xFF);
        let s193 = (self.s193 as u32) ^ s160 ^ ((self.s154 as u32) & 0xFF);
        let s154 = (self.s154 as u32) ^ s111 ^ ((self.s107 as u32) & 0xFF);
        let s107 = (self.s107 as u32) ^ s66 ^ ((self.s61 as u32) & 0xFF);
        let s61 = (self.s61 as u32) ^ s23 ^ (s0 & 0xFF);

        let ks = s12 ^ s154 ^ maj(s235, s61, s193) ^ (ch(s230, s111, s66) & 0xFF);
        let f = s0 ^ (!s107) ^ maj(s244, s23, s160) ^ (ca & s196) ^ ((cb & ks) & 0xFF);

        let s293 = (f ^ m) & 0xFF;

        self.s230 = (self.s230 >> 8) ^ ((x289 as u64) << (289 - 230 - 8)) ^ ((s293 as u64) << (293
            - 230 - 8));
        self.s193 = (self.s193 >> 8) ^ ((s230 as u64) << (230 - 193 - 8));
        self.s154 = (self.s154 >> 8) ^ ((s193 as u64) << (193 - 154 - 8));
        self.s107 = (self.s107 >> 8) ^ ((s154 as u64) << (154 - 107 - 8));
        self.s61 = (self.s61 >> 8) ^ ((s107 as u64) << (107 - 61 - 8));
        self.s0 = (self.s0 >> 8) ^ ((s61 as u64) << (61 - 8));

        ks
    }

    fn update32(&mut self, m: u32, ca: u32, cb: u32) -> (ks: u32)
        ensures
            *final(self) == spec_update32(*old(self), m, ca, cb).0,
            ks == spec_update32(*old(self), m, ca, cb).1,
    {
        let s244 = (self.s230 >> 14) as u32;
        let s235 = (self.s230 >> 5) as u32;
        let s196 = (self.s193 >> 3) as u32;
        let s160 = (self.s154 >> 6) as u32;
        let s111 = (self.s107 >> 4) as u32;
        let s66 = (self.s61 >> 5) as u32;
        let s23 = (self.s0 >> 23) as u32;
        let s12 = (self.s0 >> 12) as u32;
        let s0 = self.s0 as u32;

        let x289 = s235 ^ (self.s230 as u32);

        let s230 = (self.s230 as u32) ^ s196 ^ (self.s193 as u32);
        let s193 = (self.s193 as u32) ^ s160 ^ (self.s154 as u32);
        let s154 = (self.s154 as u32) ^ s111 ^ (self.s107 as u32);
        let s107 = (self.s107 as u32) ^ s66 ^ (self.s61 as u32);
        let s61 = (self.s61 as u32) ^ s23 ^ s0;

        let ks = s12 ^ s154 ^ maj(s235, s61, s193) ^ ch(s230, s111, s66);
        let f = s0 ^ (!s107) ^ maj(s244, s23, s160) ^ (ca & s196) ^ (cb & ks);

        let s293 = f ^ m;

        self.s230 = (self.s230 >> 32) ^ ((x289 as u64) << (289 - 230 - 32)) ^ ((s293 as u64) << (293
            - 230 - 32));
        self.s193 = (self.s193 >> 32) ^ ((s230 as u64) << (230 - 193 - 32));
        self.s154 = (self.s154 >> 32) ^ ((s193 as u64) << (193 - 154 - 32));
        self.s107 = (self.s107 >> 32) ^ ((s154 as u64) << (154 - 107 - 32));
        self.s61 = (self.s61 >> 32) ^ ((s107 as u64) << (107 - 61 - 32));
        self.s0 = (self.s0 >> 32) ^ ((s61 as u64) << (61 - 32));

        ks
    }

    pub fn init(&mut self, key: &[u32; 4], iv: &[u8])
        ensures
            *final(self) == spec_init(*old(self), key@, iv@),
    {
        self.update32(key[0], ONES, ONES);
        self.update32(key[1], ONES, ONES);
        self.update32(key[2], ONES, ONES);
        self.update32(key[3], ONES, ONES);
        let ghost s4 = *self;
        let mut i: usize = 0;
        while i < iv.len()
            invariant
                i <= iv@.len(),
                spec_absorb8_from(s4, iv@, 0, ONES, ONES) == spec_absorb8_from(
                    *self,
                    iv@,
                    i as int,
                    ONES,
                    ONES,
                ),
            decreases iv@.len() - i,
        {
            self.update8(iv[i] as u32, ONES, ONES);
            i = i + 1;
        }
        self.update32(key[0] ^ 0x01, ONES, ONES);
        let ghost s6 = *self;
        let mut j: usize = 32;
        while j < 15636
            invariant
                32 <= j <= 15648,
                j % 32 == 0,
                spec_diffuse_from(s6, key@, 32) == spec_diffuse_from(*self, key@, j as int),
            decreases 15668 - j,
        {
            self.update32(key[(j % 128) / 32], ONES, ONES);
            j = j + 32;
        }
    }

    fn pad(&mut self, cb: u32)
        ensures
            *final(self) == spec_pad(*old(self), cb),
    {
        self.update32(0x01, ONES, cb);
        self.update32(0x00, ONES, ONES);
        self.update32(0x00, ONES, ONES);
        self.update32(0x00, ONES, ONES);
        self.update32(0x00, 0, cb);
        self.update32(0x00, 0, cb);
        self.update32(0x00, 0, cb);
        self.update32(0x00, 0, cb);
    }

    pub fn process_associated_data(&mut self, ad: &[u8])
        ensures
            *final(self) == spec_process_ad(*old(self), ad@),
    {
        let ghost s0 = *self;
        let mut i: usize = 0;
        while i < ad.len()
            invariant
                i <= ad@.len(),
                spec_absorb8_from(s0, ad@, 0, ONES, ONES) == spec_absorb8_from(
                    *self,
                    ad@,
                    i as int,
                    ONES,
                    ONES,
                ),
            decreases ad@.len() - i,
        {
            self.update8(ad[i] as u32, ONES, ONES);
            i = i + 1;
        }
        self.pad(ONES);
    }

    pub fn crypt(&mut self, message: &mut Vec<u8>, mode: u32)
        ensures
            final(message)@ == spec_crypt_full(*old(self), old(message)@, mode).1,
            *final(self) == spec_crypt_full(*old(self), old(message)@, mode).0,
            final(message)@.len() == old(message)@.len(),
    {
        let ghost s0 = *self;
        let ghost orig = message@;
        let n = message.len();
        let full = n - (n % 4);
        let mut i: usize = 0;
        proof {
            assert(orig.skip(0) =~= orig);
            assert(message@.take(0) + spec_crypt_stream(*self, orig.skip(0), mode).1
                =~= spec_crypt_stream(*self, orig, mode).1);
            assert(message@.subrange(0, n as int) =~= orig.subrange(0, n as int));
        }
        while i < full
            invariant
                i <= full <= n == message@.len() == orig.len(),
                full == n - (n % 4),
                i % 4 == 0,
                message@.subrange(i as int, n as int) == orig.subrange(i as int, n as int),
                spec_crypt_stream(s0, orig, mode).0 == spec_crypt_stream(
                    *self,
                    orig.skip(i as int),
                    mode,
                ).0,
                spec_crypt_stream(s0, orig, mode).1 == message@.take(i as int)
                    + spec_crypt_stream(*self, orig.skip(i as int), mode).1,
            decreases full - i,
        {
            let ghost s_pre = *self;
            let ghost pre = message@;
            let ghost rem = orig.skip(i as int);
            let b0 = message[i];
            let b1 = message[i + 1];
            let b2 = message[i + 2];
            let b3 = message[i + 3];
            let cx = ((b0 as u32) << 24) | ((b1 as u32) << 16) | ((b2 as u32) << 8) | (b3 as u32);
            proof {
                assert(pre.subrange(i as int, n as int)[0] == orig.subrange(i as int, n as int)[0]);
                assert(pre.subrange(i as int, n as int)[1] == orig.subrange(i as int, n as int)[1]);
                assert(pre.subrange(i as int, n as int)[2] == orig.subrange(i as int, n as int)[2]);
                assert(pre.subrange(i as int, n as int)[3] == orig.subrange(i as int, n as int)[3]);
                assert(rem.take(4)[0] == orig[i as int]);
                assert(rem.take(4)[1] == orig[i as int + 1]);
                assert(rem.take(4)[2] == orig[i as int + 2]);
                assert(rem.take(4)[3] == orig[i as int + 3]);
                assert(cx == spec_u32_from_be(rem.take(4)));
            }
            let ks = self.update32(cx, ONES, mode);
            let w = cx ^ ks;
            message[i] = (w >> 24) as u8;
            message[i + 1] = (w >> 16) as u8;
            message[i + 2] = (w >> 8) as u8;
            message[i + 3] = w as u8;
            proof {
                let head = seq![(w >> 24) as u8, (w >> 16) as u8, (w >> 8) as u8, w as u8];
                let tail = spec_crypt_stream(*self, orig.skip(i as int + 4), mode);
                assert(rem.skip(4) =~= orig.skip(i as int + 4));
                assert(spec_crypt_stream(s_pre, rem, mode).1 == head + tail.1);
                assert(spec_crypt_stream(s_pre, rem, mode).0 == tail.0);
                assert(message@.take(i as int + 4) =~= pre.take(i as int) + head);
                assert(message@.subrange(i as int + 4, n as int) =~= orig.subrange(
                    i as int + 4,
                    n as int,
                ));
                assert(pre.take(i as int) + (head + tail.1) =~= (pre.take(i as int) + head)
                    + tail.1);
                assert(spec_crypt_stream(s0, orig, mode).1 == message@.take(i as int + 4) + tail.1);
            }
            i = i + 4;
        }
        while i < n
            invariant
                full <= i <= n == message@.len() == orig.len(),
                full == n - (n % 4),
                message@.subrange(i as int, n as int) == orig.subrange(i as int, n as int),
                spec_crypt_stream(s0, orig, mode).0 == spec_crypt_stream(
                    *self,
                    orig.skip(i as int),
                    mode,
                ).0,
                spec_crypt_stream(s0, orig, mode).1 == message@.take(i as int)
                    + spec_crypt_stream(*self, orig.skip(i as int), mode).1,
            decreases n - i,
        {
            let ghost s_pre = *self;
            let ghost pre = message@;
            let ghost rem = orig.skip(i as int);
            proof {
                assert(rem.len() == n - i < 4);
                assert(pre.subrange(i as int, n as int)[0] == orig.subrange(i as int, n as int)[0]);
                assert(rem[0] == orig[i as int]);
            }
            let cx = message[i];
            let ks = self.update8(cx as u32, ONES, mode) as u8;
            message[i] = cx ^ ks;
            proof {
                let head = seq![cx ^ ks];
                let tail = spec_crypt_stream(*self, orig.skip(i as int + 1), mode);
                assert(rem.skip(1) =~= orig.skip(i as int + 1));
                assert(spec_crypt_stream(s_pre, rem, mode).1 == head + tail.1);
                assert(spec_crypt_stream(s_pre, rem, mode).0 == tail.0);
                assert(message@.take(i as int + 1) =~= pre.take(i as int) + head);
                assert(message@.subrange(i as int + 1, n as int) =~= orig.subrange(
                    i as int + 1,
                    n as int,
                ));
                assert(pre.take(i as int) + (head + tail.1) =~= (pre.take(i as int) + head)
                    + tail.1);
                assert(spec_crypt_stream(s0, orig, mode).1 == message@.take(i as int + 1) + tail.1);
            }
            i = i + 1;
        }
        proof {
            assert(orig.skip(n as int).len() == 0);
            assert(spec_crypt_stream(*self, orig.skip(n as int), mode).1 =~= Seq::<u8>::empty());
            assert(message@.take(n as int) =~= message@);
            assert(message@.take(n as int) + spec_crypt_stream(*self, orig.skip(n as int), mode).1
                =~= message@);
        }
        self.pad(0);
    }

    pub fn finalize(&mut self, tag: &mut Vec<u8>)
        requires
            old(tag)@.len() == 16,
        ensures
            *final(self) == spec_finalize(*old(self)).0,
            final(tag)@ == spec_finalize(*old(self)).1,
            final(tag)@.len() == 16,
    {
        let mut k: usize = 0;
        while k < 20
            invariant
                k <= 20,
                tag@ == old(tag)@,
                spec_final_diffuse_from(*old(self), 0) == spec_final_diffuse_from(*self, k as int),
            decreases 20 - k,
        {
            self.update32(0x00, ONES, ONES);
            k = k + 1;
        }
        let ghost sd = *self;
        let mut i: usize = 0;
        proof {
            assert(tag@.take(0) + spec_squeeze_from(*self, 0).1 =~= spec_squeeze_from(*self, 0).1);
        }
        while i < 16
            invariant
                i <= 16,
                tag@.len() == 16,
                spec_squeeze_from(sd, 0).0 == spec_squeeze_from(*self, i as int).0,
                spec_squeeze_from(sd, 0).1 == tag@.take(i as int) + spec_squeeze_from(
                    *self,
                    i as int,
                ).1,
            decreases 16 - i,
        {
            let ghost pre = tag@;
            let ks = self.update8(0x00, ONES, ONES) as u8;
            tag[i] = ks;
            proof {
                assert(tag@.take(i as int + 1) =~= pre.take(i as int) + seq![ks]);
                assert(spec_squeeze_from(sd, 0).1 == tag@.take(i as int + 1) + spec_squeeze_from(
                    *self,
                    i as int + 1,
                ).1);
            }
            i = i + 1;
        }
        proof {
            assert(spec_squeeze_from(*self, 16).1 =~= Seq::<u8>::empty());
            assert(tag@.take(16) + spec_squeeze_from(*self, 16).1 =~= tag@);
        }
    }
}

} // verus!
