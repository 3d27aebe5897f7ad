//! The phased duplex cipher over the twelve-lane permutation: a two-valued
//! phase flag drives alternating Up (inject a control byte at the state's
//! top, permute, optionally extract) and Down (inject input bytes, a
//! length-marking `0x01`, and a control byte; no permutation) calls.
//!
//! Absorption and squeezing split their data into rate-sized chunks with a
//! caller's control code on the first chunk only.  En/decryption derives a
//! keystream chunk by Up, absorbs the ciphertext chunk by Down on both
//! sides — the integrity binding of the mode — and XORs in place.

use vstd::prelude::*;
use vstd::slice::slice_subrange;
use crate::xoodoo::State;
use crate::xoodoo::spec_permute;
use crate::xoodoo::spec_add_byte;
use crate::xoodoo::spec_add_bytes_from;
use crate::xoodoo::spec_extract;

verus! {

/// Chunk size of key/nonce absorption.
pub const KEYED_ABSORB_RATE: usize = 44;

/// Chunk size of keystream extraction and tag squeezing.
pub const KEYED_SQUEEZE_RATE: usize = 24;

/// Width of the authentication tag.
pub const AUTH_TAG_BYTES: usize = 16;

#[derive(Clone, Copy, Debug, PartialEq, Eq, Structural)]
pub enum Phase {
    Up,
    Down,
}

pub struct Xoodyak {
    pub state: State,
    pub phase: Phase,
}

/// The smaller of two values.
pub open spec fn spec_min(a: int, b: int) -> int {
    if a < b {
        a
    } else {
        b
    }
}

/// State after an Up call: control byte at the top offset, then the
/// permutation.
pub open spec fn spec_up_state(s: Seq<u32>, cu: u8) -> Seq<u32> {
    spec_permute(spec_add_byte(s, cu, 47))
}

/// State after a Down call: the input bytes at the front, the `0x01`
/// length marker one past them, then the control byte at the top offset.
/// A Down with no input marks offset zero, the same as an empty input.
pub open spec fn spec_down_state(s: Seq<u32>, bin: Seq<u8>, cd: u8) -> Seq<u32> {
    spec_add_byte(spec_add_byte(spec_add_bytes_from(s, bin, 0), 0x01, bin.len() as int), cd, 47)
}

/// Absorption of the chunks after the first: Up with a null control, then
/// Down with the chunk.
pub open spec fn spec_absorb_rest(s: Seq<u32>, bin: Seq<u8>, rate: int) -> Seq<u32>
    decreases bin.len(),
{
    if bin.len() == 0 || rate < 1 {
        s
    } else {
        let c = spec_min(rate, bin.len() as int);
        spec_absorb_rest(spec_down_state(spec_up_state(s, 0x00), bin.take(c), 0x00), bin.skip(c),
            rate)
    }
}

/// Generic absorption: force an Up when not already in the Up phase, Down
/// with the first chunk under the caller's control code, then the rest.
pub open spec fn spec_absorb_any(s: Seq<u32>, ph: Phase, bin: Seq<u8>, rate: int, cd: u8) -> Seq<
    u32,
> {
    let s1 = if ph != Phase::Up {
        spec_up_state(s, 0x00)
    } else {
        s
    };
    let c = spec_min(rate, bin.len() as int);
    spec_absorb_rest(spec_down_state(s1, bin.take(c), cd), bin.skip(c), rate)
}

/// Squeezing of the chunks after the first: Down with no input, then Up
/// extracting the next chunk.
pub open spec fn spec_squeeze_rest(s: Seq<u32>, rem: int) -> (Seq<u32>, Seq<u8>)
    decreases rem,
{
    if rem <= 0 {
        (s, Seq::<u8>::empty())
    } else {
        let c = spec_min(24, rem);
        let s1 = spec_up_state(spec_down_state(s, Seq::empty(), 0x00), 0x00);
        let rest = spec_squeeze_rest(s1, rem - c);
        (rest.0, spec_extract(s1, c) + rest.1)
    }
}

/// Generic squeezing: Up with the first chunk under the caller's control
/// code, then the rest.
pub open spec fn spec_squeeze_any(s: Seq<u32>, outlen: int, cu: u8) -> (Seq<u32>, Seq<u8>) {
    let c = spec_min(24, outlen);
    let s1 = spec_up_state(s, cu);
    let rest = spec_squeeze_rest(s1, outlen - c);
    (rest.0, spec_extract(s1, c) + rest.1)
}

/// Byte-wise XOR of `a` against the first bytes of `b`.
pub open spec fn spec_xor_bytes(a: Seq<u8>, b: Seq<u8>) -> Seq<u8>
    recommends
        a.len() <= b.len(),
{
    Seq::new(a.len(), |i: int| a[i] ^ b[i])
}

/// Encryption chunks: Up for a keystream chunk (control `cu` on the first
/// chunk only), the ciphertext chunk as plaintext XOR keystream, Down
/// absorbing that ciphertext chunk.
pub open spec fn spec_encrypt_chunks(s: Seq<u32>, pt: Seq<u8>, cu: u8) -> (Seq<u32>, Seq<u8>)
    decreases pt.len(),
{
    if pt.len() == 0 {
        (s, Seq::<u8>::empty())
    } else {
        let c = spec_min(24, pt.len() as int);
        let s1 = spec_up_state(s, cu);
        let ks = spec_extract(s1, c);
        let ctc = spec_xor_bytes(pt.take(c), ks);
        let s2 = spec_down_state(s1, ctc, 0x00);
        let rest = spec_encrypt_chunks(s2, pt.skip(c), 0x00);
        (rest.0, ctc + rest.1)
    }
}

/// Decryption chunks: the keystream recovers the plaintext, and the Down
/// absorbs the original ciphertext chunk, captured before the XOR.
pub open spec fn spec_decrypt_chunks(s: Seq<u32>, ct: Seq<u8>, cu: u8) -> (Seq<u32>, Seq<u8>)
    decreases ct.len(),
{
    if ct.len() == 0 {
        (s, Seq::<u8>::empty())
    } else {
        let c = spec_min(24, ct.len() as int);
        let s1 = spec_up_state(s, cu);
        let ks = spec_extract(s1, c);
        let ptc = spec_xor_bytes(ct.take(c), ks);
        let s2 = spec_down_state(s1, ct.take(c), 0x00);
        let rest = spec_decrypt_chunks(s2, ct.skip(c), 0x00);
        (rest.0, ptc + rest.1)
    }
}

/// The synthesized setup buffer: key, nonce, and the nonce's length byte.
pub open spec fn spec_key_nonce_iv(key: Seq<u8>, nonce: Seq<u8>) -> Seq<u8> {
    key + nonce + seq![nonce.len() as u8]
}

/// Key/nonce setup: absorb the setup buffer at the wide rate under control
/// code 2, then an optional counter byte-wise.
pub open spec fn spec_absorb_key_nonce(
    s: Seq<u32>,
    ph: Phase,
    key: Seq<u8>,
    nonce: Seq<u8>,
    counter: Option<Seq<u8>>,
) -> Seq<u32> {
    let a = spec_absorb_any(s, ph, spec_key_nonce_iv(key, nonce), 44, 0x02);
    match counter {
        Some(c) => spec_absorb_any(a, Phase::Down, c, 1, 0x00),
        None => a,
    }
}

/// The all-zero lanes a session starts from.
pub open spec fn spec_zero_lanes() -> Seq<u32> {
    Seq::new(12, |i: int| 0u32)
}

/// The session state derived from key, nonce and optional counter.
pub open spec fn spec_xoodyak_new(key: Seq<u8>, nonce: Seq<u8>, counter: Option<Seq<u8>>) -> Seq<
    u32,
> {
    spec_absorb_key_nonce(spec_zero_lanes(), Phase::Up, key, nonce, counter)
}

impl Xoodyak {
    pub open spec fn wf(&self) -> bool {
        self.state.wf()
    }

    pub open spec fn lanes(&self) -> Seq<u32> {
        self.state.lanes()
    }

    /// A fresh session: zero state, then key/nonce (and optional counter)
    /// absorption.
    pub fn new(key: &[u8], nonce: &[u8], counter: Option<&[u8]>) -> (r: Xoodyak)
        ensures
            r.wf(),
            r.phase == Phase::Down,
            r.lanes() == spec_xoodyak_new(
                key@,
                nonce@,
                match counter {
                    Some(c) => Some(c@),
                    None => None,
                },
            ),
    {
        let mut xoodyak = Xoodyak { state: State::new(), phase: Phase::Up };
        xoodyak.absorb_key_and_nonce(key, nonce, counter);
        xoodyak
    }

    fn set_phase(&mut self, phase: Phase)
        ensures
            final(self).phase == phase,
            final(self).state == old(self).state,
    {
        self.phase = phase;
    }

    fn up(&mut self, outlen: usize, cu: u8) -> (out: Vec<u8>)
        requires
            old(self).wf(),
            outlen <= 48,
        ensures
            final(self).wf(),
            final(self).phase == Phase::Up,
            final(self).lanes() == spec_up_state(old(self).lanes(), cu),
            out@ == spec_extract(spec_up_state(old(self).lanes(), cu), outlen as int),
            out@.len() == outlen,
    {
        self.set_phase(Phase::Up);
        self.state.add_byte(cu, 47);
        self.state.permute();
        self.state.extract_bytes(outlen)
    }

    fn down(&mut self, bin: Option<&[u8]>, cd: u8)
        requires
            old(self).wf(),
            match bin {
                Some(b) => b@.len() <= 47,
                None => true,
            },
        ensures
            final(self).wf(),
            final(self).phase == Phase::Down,
            final(self).lanes() == spec_down_state(
                old(self).lanes(),
                match bin {
                    Some(b) => b@,
                    None => Seq::<u8>::empty(),
                },
                cd,
            ),
    {
        self.set_phase(Phase::Down);
        match bin {
            Some(b) => {
                self.state.add_bytes(b);
                self.state.add_byte(0x01, b.len());
            },
            None => {
                self.state.add_byte(0x01, 0);
            },
        }
        self.state.add_byte(cd, 47);
    }

    fn absorb_any(&mut self, bin: &[u8], rate: usize, cd: u8)
        requires
            old(self).wf(),
            1 <= rate <= 47,
        ensures
            final(self).wf(),
            final(self).phase == Phase::Down,
            final(self).lanes() == spec_absorb_any(
                old(self).lanes(),
                old(self).phase,
                bin@,
                rate as int,
                cd,
            ),
    {
        let n = bin.len();
        if self.phase != Phase::Up {
            self.up(0, 0x00);
        }
        let first = if rate < n {
            rate
        } else {
            n
        };
        self.down(Some(slice_subrange(bin, 0, first)), cd);
        proof {
            assert(bin@.subrange(0, first as int) =~= bin@.take(first as int));
        }
        let ghost s2 = self.lanes();
        let mut i: usize = first;
        while i < n
            invariant
                first <= i <= n == bin@.len(),
                1 <= rate <= 47,
                self.wf(),
                self.phase == Phase::Down,
                spec_absorb_rest(s2, bin@.skip(first as int), rate as int) == spec_absorb_rest(
                    self.lanes(),
                    bin@.skip(i as int),
                    rate as int,
                ),
            decreases n - i,
        {
            let ghost lpre = self.lanes();
            let ghost rem = bin@.skip(i as int);
            let c = if rate < n - i {
                rate
            } else {
                n - i
            };
            self.up(0, 0x00);
            self.down(Some(slice_subrange(bin, i, i + c)), 0x00);
            proof {
                assert(rem.take(c as int) =~= bin@.subrange(i as int, i as int + c as int));
                assert(rem.skip(c as int) =~= bin@.skip(i as int + c as int));
            }
            i = i + c;
        }
        proof {
            assert(bin@.skip(n as int).len() == 0);
        }
    }

    /// Absorb associated data: rate 16 under control code 3.
    pub fn absorb(&mut self, data: &[u8])
        requires
            old(self).wf(),
        ensures
            final(self).wf(),
            final(self).phase == Phase::Down,
            final(self).lanes() == spec_absorb_any(
                old(self).lanes(),
                old(self).phase,
                data@,
                16,
                0x03,
            ),
    {
        self.absorb_any(data, 16, 0x03);
    }

    fn squeeze_any(&mut self, outlen: usize, cu: u8) -> (out: Vec<u8>)
        requires
            old(self).wf(),
        ensures
            final(self).wf(),
            final(self).phase == Phase::Up,
            final(self).lanes() == spec_squeeze_any(old(self).lanes(), outlen as int, cu).0,
            out@ == spec_squeeze_any(old(self).lanes(), outlen as int, cu).1,
            out@.len() == outlen,
    {
        let ghost s0 = self.lanes();
        let c0 = if 24 < outlen {
            24
        } else {
            outlen
        };
        let mut out = self.up(c0, cu);
        let mut i: usize = c0;
        while i < outlen
            invariant
                c0 <= i <= outlen,
                self.wf(),
                self.phase == Phase::Up,
                out@.len() == i,
                spec_squeeze_any(s0, outlen as int, cu).0 == spec_squeeze_rest(
                    self.lanes(),
                    outlen - i,
                ).0,
                spec_squeeze_any(s0, outlen as int, cu).1 == out@ + spec_squeeze_rest(
                    self.lanes(),
                    outlen - i,
                ).1,
            decreases outlen - i,
        {
            let ghost lpre = self.lanes();
            let ghost outpre = out@;
            let c = if 24 < outlen - i {
                24
            } else {
                outlen - i
            };
            self.down(None, 0x00);
            let mut chunk = self.up(c, 0x00);
            let ghost chunkv = chunk@;
            out.append(&mut chunk);
            proof {
                assert(spec_squeeze_rest(lpre, outlen - i).1 == chunkv + spec_squeeze_rest(
                    self.lanes(),
                    outlen - i - c,
                ).1);
                assert(outpre + (chunkv + spec_squeeze_rest(self.lanes(), outlen - i - c).1)
                    =~= (outpre + chunkv) + spec_squeeze_rest(self.lanes(), outlen - i - c).1);
            }
            i = i + c;
        }
        proof {
            assert(out@ + spec_squeeze_rest(self.lanes(), 0).1 =~= out@);
        }
        out
    }

    /// Squeeze output bytes, the tag squeeze's entry point: control code
    /// `0x80` on the first chunk.
    pub fn squeeze(&mut self, outlen: usize) -> (out: Vec<u8>)
        requires
            old(self).wf(),
        ensures
            final(self).wf(),
            final(self).phase == Phase::Up,
            final(self).lanes() == spec_squeeze_any(old(self).lanes(), outlen as int, 0x80).0,
            out@ == spec_squeeze_any(old(self).lanes(), outlen as int, 0x80).1,
            out@.len() == outlen,
    {
        self.squeeze_any(outlen, 0x80)
    }

    fn absorb_key_and_nonce(&mut self, key: &[u8], nonce: &[u8], counter: Option<&[u8]>)
        requires
            old(self).wf(),
        ensures
            final(self).wf(),
            final(self).phase == Phase::Down,
            final(self).lanes() == spec_absorb_key_nonce(
                old(self).lanes(),
                old(self).phase,
                key@,
                nonce@,
                match counter {
                    Some(c) => Some(c@),
                    None => None,
                },
            ),
    {
        let key_len = key.len();
        let nonce_len = nonce.len();
        let mut iv: Vec<u8> = Vec::new();
        let mut i: usize = 0;
        while i < key_len
            invariant
                i <= key_len == key@.len(),
                iv@ == key@.take(i as int),
            decreases key_len - i,
        {
            iv.push(key[i]);
            proof {
                assert(iv@ =~= key@.take(i as int + 1));
            }
            i = i + 1;
        }
        proof {
            assert(key@.take(key_len as int) =~= key@);
        }
        let mut j: usize = 0;
        while j < nonce_len
            invariant
                j <= nonce_len == nonce@.len(),
                iv@ == key@ + nonce@.take(j as int),
            decreases nonce_len - j,
        {
            iv.push(nonce[j]);
            proof {
                assert(iv@ =~= key@ + nonce@.take(j as int + 1));
            }
            j = j + 1;
        }
        iv.push(nonce_len as u8);
        proof {
            assert(nonce@.take(nonce_len as int) =~= nonce@);
            assert(iv@ =~= spec_key_nonce_iv(key@, nonce@));
        }
        self.absorb_any(iv.as_slice(), KEYED_ABSORB_RATE, 0x02);
        if let Some(counter) = counter {
            self.absorb_any(counter, 1, 0x00);
        }
    }

    /// Encrypts the buffer in place, chunk by chunk at the squeeze rate.
    pub fn encrypt_inplace(&mut self, in_out: &mut Vec<u8>)
        requires
            old(self).wf(),
        ensures
            final(self).wf(),
            final(self).lanes() == spec_encrypt_chunks(old(self).lanes(), old(in_out)@, 0x80).0,
            final(in_out)@ == spec_encrypt_chunks(old(self).lanes(), old(in_out)@, 0x80).1,
            final(in_out)@.len() == old(in_out)@.len(),
    {
        let ghost s0 = self.lanes();
        let ghost orig = in_out@;
        let n = in_out.len();
        let mut cu: u8 = 0x80;
        let mut i: usize = 0;
        proof {
            assert(orig.skip(0) =~= orig);
            assert(in_out@.take(0) + spec_encrypt_chunks(self.lanes(), orig.skip(0), 0x80).1
                =~= spec_encrypt_chunks(self.lanes(), orig, 0x80).1);
            assert(in_out@.subrange(0, n as int) =~= orig.subrange(0, n as int));
        }
        while i < n
            invariant
                i <= n == in_out@.len() == orig.len(),
                self.wf(),
                i == 0 ==> cu == 0x80,
                i > 0 ==> cu == 0x00,
                in_out@.subrange(i as int, n as int) == orig.subrange(i as int, n as int),
                spec_encrypt_chunks(s0, orig, 0x80).0 == spec_encrypt_chunks(
                    self.lanes(),
                    orig.skip(i as int),
                    cu,
                ).0,
                spec_encrypt_chunks(s0, orig, 0x80).1 == in_out@.take(i as int)
                    + spec_encrypt_chunks(self.lanes(), orig.skip(i as int), cu).1,
            decreases n - i,
        {
            let ghost lpre = self.lanes();
            let ghost pre = in_out@;
            let ghost rem = orig.skip(i as int);
            let ghost cupre = cu;
            let c = if 24 < n - i {
                24
            } else {
                n - i
            };
            let ks = self.up(c, cu);
            cu = 0x00;
            let mut ct_chunk: Vec<u8> = Vec::new();
            let mut j: usize = 0;
            while j < c
                invariant
                    j <= c,
                    i + c <= n == in_out@.len() == orig.len(),
                    in_out@ == pre,
                    pre.subrange(i as int, n as int) == orig.subrange(i as int, n as int),
                    ks@.len() == c,
                    ct_chunk@.len() == j,
                    forall|k: int| 0 <= k < j ==> ct_chunk@[k] == (orig[i as int + k] ^ ks@[k]),
                decreases c - j,
            {
                proof {
                    assert(pre.subrange(i as int, n as int)[j as int] == orig.subrange(
                        i as int,
                        n as int,
                    )[j as int]);
                }
                ct_chunk.push(in_out[i + j] ^ ks[j]);
                j = j + 1;
            }
            proof {
                assert(ct_chunk@ =~= spec_xor_bytes(rem.take(c as int), ks@));
            }
            self.down(Some(ct_chunk.as_slice()), 0x00);
            let mut j2: usize = 0;
            while j2 < c
                invariant
                    j2 <= c,
                    i + c <= n == in_out@.len(),
                    ct_chunk@.len() == c,
                    in_out@.take(i as int) == pre.take(i as int),
                    forall|k: int| 0 <= k < j2 ==> in_out@[i as int + k] == ct_chunk@[k],
                    forall|k: int|
                        i as int + c <= k < n as int ==> in_out@[k] == pre[k],
                decreases c - j2,
            {
                in_out[i + j2] = ct_chunk[j2];
                j2 = j2 + 1;
            }
            proof {
                let tail = spec_encrypt_chunks(self.lanes(), orig.skip(i as int + c as int), 0x00);
                assert(rem.skip(c as int) =~= orig.skip(i as int + c as int));
                assert(spec_encrypt_chunks(lpre, rem, cupre).1 == ct_chunk@ + tail.1);
                assert(spec_encrypt_chunks(lpre, rem, cupre).0 == tail.0);
                assert(in_out@.take(i as int + c as int) =~= pre.take(i as int) + ct_chunk@);
                assert(in_out@.subrange(i as int + c as int, n as int) =~= orig.subrange(
                    i as int + c as int,
                    n as int,
                ));
                assert(pre.take(i as int) + (ct_chunk@ + tail.1) =~= (pre.take(i as int)
                    + ct_chunk@) + tail.1);
                assert(spec_encrypt_chunks(s0, orig, 0x80).1 == in_out@.take(i as int + c as int)
                    + tail.1);
            }
            i = i + c;
        }
        proof {
            assert(orig.skip(n as int).len() == 0);
            assert(in_out@.take(n as int) =~= in_out@);
            assert(in_out@.take(n as int) + spec_encrypt_chunks(
                self.lanes(),
                orig.skip(n as int),
                cu,
            ).1 =~= in_out@);
        }
    }

    /// Decrypts the buffer in place; the Down absorbs the original
    /// ciphertext chunk, captured before the XOR.
    pub fn decrypt_inplace(&mut self, in_out: &mut Vec<u8>)
        requires
            old(self).wf(),
        ensures
            final(self).wf(),
            final(self).lanes() == spec_decrypt_chunks(old(self).lanes(), old(in_out)@, 0x80).0,
            final(in_out)@ == spec_decrypt_chunks(old(self).lanes(), old(in_out)@, 0x80).1,
            final(in_out)@.len() == old(in_out)@.len(),
    {
        let ghost s0 = self.lanes();
        let ghost orig = in_out@;
        let n = in_out.len();
        let mut cu: u8 = 0x80;
        let mut i: usize = 0;
        proof {
            assert(orig.skip(0) =~= orig);
            assert(in_out@.take(0) + spec_decrypt_chunks(self.lanes(), orig.skip(0), 0x80).1
                =~= spec_decrypt_chunks(self.lanes(), orig, 0x80).1);
            assert(in_out@.subrange(0, n as int) =~= orig.subrange(0, n as int));
        }
        while i < n
            invariant
                i <= n == in_out@.len() == orig.len(),
                self.wf(),
                i == 0 ==> cu == 0x80,
                i > 0 ==> cu == 0x00,
                in_out@.subrange(i as int, n as int) == orig.subrange(i as int, n as int),
                spec_decrypt_chunks(s0, orig, 0x80).0 == spec_decrypt_chunks(
                    self.lanes(),
                    orig.skip(i as int),
                    cu,
                ).0,
                spec_decrypt_chunks(s0, orig, 0x80).1 == in_out@.take(i as int)
                    + spec_decrypt_chunks(self.lanes(), orig.skip(i as int), cu).1,
            decreases n - i,
        {
            let ghost lpre = self.lanes();
            let ghost pre = in_out@;
            let ghost rem = orig.skip(i as int);
            let ghost cupre = cu;
            let c = if 24 < n - i {
                24
            } else {
                n - i
            };
            let ks = self.up(c, cu);
            cu = 0x00;
            let mut ct_chunk: Vec<u8> = Vec::new();
            let mut j: usize = 0;
            while j < c
                invariant
                    j <= c,
                    i + c <= n == in_out@.len() == orig.len(),
                    in_out@ == pre,
                    pre.subrange(i as int, n as int) == orig.subrange(i as int, n as int),
                    ct_chunk@.len() == j,
                    forall|k: int| 0 <= k < j ==> ct_chunk@[k] == orig[i as int + k],
                decreases c - j,
            {
                proof {
                    assert(pre.subrange(i as int, n as int)[j as int] == orig.subrange(
                        i as int,
                        n as int,
                    )[j as int]);
                }
                ct_chunk.push(in_out[i + j]);
                j = j + 1;
            }
            proof {
                assert(ct_chunk@ =~= rem.take(c as int));
            }
            let mut j2: usize = 0;
            while j2 < c
                invariant
                    j2 <= c,
                    i + c <= n == in_out@.len(),
                    ct_chunk@.len() == c == ks@.len(),
                    forall|k: int| 0 <= k < c ==> ct_chunk@[k] == orig[i as int + k],
                    in_out@.take(i as int) == pre.take(i as int),
                    forall|k: int| 0 <= k < j2 ==> in_out@[i as int + k] == (ct_chunk@[k] ^ ks@[k]),
                    forall|k: int|
                        i as int + c <= k < n as int ==> in_out@[k] == pre[k],
                decreases c - j2,
            {
                in_out[i + j2] = ct_chunk[j2] ^ ks[j2];
                j2 = j2 + 1;
            }
            self.down(Some(ct_chunk.as_slice()), 0x00);
            proof {
                let tail = spec_decrypt_chunks(self.lanes(), orig.skip(i as int + c as int), 0x00);
                let ptc = spec_xor_bytes(rem.take(c as int), ks@);
                assert(rem.skip(c as int) =~= orig.skip(i as int + c as int));
                assert(spec_decrypt_chunks(lpre, rem, cupre).1 == ptc + tail.1);
                assert(spec_decrypt_chunks(lpre, rem, cupre).0 == tail.0);
                assert(in_out@.take(i as int + c as int) =~= pre.take(i as int) + ptc);
                assert(in_out@.subrange(i as int + c as int, n as int) =~= orig.subrange(
                    i as int + c as int,
                    n as int,
                ));
                assert(pre.take(i as int) + (ptc + tail.1) =~= (pre.take(i as int) + ptc) + tail.1);
                assert(spec_decrypt_chunks(s0, orig, 0x80).1 == in_out@.take(i as int + c as int)
                    + tail.1);
            }
            i = i + c;
        }
        proof {
            assert(orig.skip(n as int).len() == 0);
            assert(in_out@.take(n as int) =~= in_out@);
            assert(in_out@.take(n as int) + spec_decrypt_chunks(
                self.lanes(),
                orig.skip(n as int),
                cu,
            ).1 =~= in_out@);
        }
    }
}

} // verus!
