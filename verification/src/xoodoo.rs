//! The 384-bit permutation under the phased duplex cipher: twelve 32-bit
//! lanes in three planes of four, transformed by twelve rounds of a mixing
//! layer (column parity), plane shifts and rotations, a round constant,
//! and a three-input nonlinear layer.
//!
//! The state is byte-addressable little-endian within each lane: the
//! orchestration layer injects single bytes at chosen offsets, injects
//! byte runs at the front, and extracts byte runs from the front.

use vstd::prelude::*;

verus! {

/// Right rotation of a 32-bit lane.
pub open spec fn spec_rotr32(x: u32, n: u32) -> u32
    recommends
        0 < n < 32,
{
    (x >> n) | (x << ((32 - n) as u32))
}

fn rotr32(x: u32, n: u32) -> (r: u32)
    requires
        0 < n < 32,
    ensures
        r == spec_rotr32(x, n),
{
    (x >> n) | (x << (32 - n))
}

/// One round: column-parity mixing, the plane shifts and rotations, the
/// round constant into lane 0, and the nonlinear layer.
pub open spec fn spec_round(s: Seq<u32>, rc: u32) -> Seq<u32>
    recommends
        s.len() == 12,
{
    let p0 = s[0] ^ s[4] ^ s[8];
    let p1 = s[1] ^ s[5] ^ s[9];
    let p2 = s[2] ^ s[6] ^ s[10];
    let p3 = s[3] ^ s[7] ^ s[11];
    let e0 = spec_rotr32(p0, 18) ^ spec_rotr32(spec_rotr32(p0, 18), 9);
    let e1 = spec_rotr32(p1, 18) ^ spec_rotr32(spec_rotr32(p1, 18), 9);
    let e2 = spec_rotr32(p2, 18) ^ spec_rotr32(spec_rotr32(p2, 18), 9);
    let e3 = spec_rotr32(p3, 18) ^ spec_rotr32(spec_rotr32(p3, 18), 9);
    let t0 = (s[0] ^ e3) ^ rc;
    let t1 = s[1] ^ e0;
    let t2 = s[2] ^ e1;
    let t3 = s[3] ^ e2;
    let t4 = s[7] ^ e2;
    let t5 = s[4] ^ e3;
    let t6 = s[5] ^ e0;
    let t7 = s[6] ^ e1;
    let t8 = s[8] ^ e3;
    let t9 = s[9] ^ e0;
    let t10 = s[10] ^ e1;
    let t11 = s[11] ^ e2;
    let c0 = spec_rotr32(t8, 21);
    let c1 = spec_rotr32(t9, 21);
    let c2 = spec_rotr32(t10, 21);
    let c3 = spec_rotr32(t11, 21);
    let u8l = spec_rotr32((t4 & (!t0)) ^ c0, 24);
    let u9l = spec_rotr32((t5 & (!t1)) ^ c1, 24);
    let u10l = spec_rotr32((t6 & (!t2)) ^ c2, 24);
    let u11l = spec_rotr32((t7 & (!t3)) ^ c3, 24);
    let u4 = spec_rotr32((t0 & (!c0)) ^ t4, 31);
    let u5 = spec_rotr32((t1 & (!c1)) ^ t5, 31);
    let u6 = spec_rotr32((t2 & (!c2)) ^ t6, 31);
    let u7 = spec_rotr32((t3 & (!c3)) ^ t7, 31);
    let u0 = t0 ^ (c0 & (!t4));
    let u1 = t1 ^ (c1 & (!t5));
    let u2 = t2 ^ (c2 & (!t6));
    let u3 = t3 ^ (c3 & (!t7));
    seq![u0, u1, u2, u3, u4, u5, u6, u7, u10l, u11l, u8l, u9l]
}

/// The full twelve-round permutation over its constant schedule.
#[verifier::opaque]
pub open spec fn spec_permute(s: Seq<u32>) -> Seq<u32>
    recommends
        s.len() == 12,
{
    let s1 = spec_round(s, 0x058);
    let s2 = spec_round(s1, 0x038);
    let s3 = spec_round(s2, 0x3c0);
    let s4 = spec_round(s3, 0x0d0);
    let s5 = spec_round(s4, 0x120);
    let s6 = spec_round(s5, 0x014);
    let s7 = spec_round(s6, 0x060);
    let s8 = spec_round(s7, 0x02c);
    let s9 = spec_round(s8, 0x380);
    let s10 = spec_round(s9, 0x0f0);
    let s11 = spec_round(s10, 0x1a0);
    spec_round(s11, 0x012)
}

/// One byte XORed into the state at byte offset `off` (little-endian
/// within each lane).
pub open spec fn spec_add_byte(s: Seq<u32>, b: u8, off: int) -> Seq<u32>
    recommends
        s.len() == 12,
        0 <= off < 48,
{
    s.update(off / 4, s[off / 4] ^ ((b as u32) << ((8 * (off % 4)) as u32)))
}

/// A byte run XORed into the state front, one byte per offset from `i` on.
pub open spec fn spec_add_bytes_from(s: Seq<u32>, bin: Seq<u8>, i: int) -> Seq<u32>
    decreases bin.len() - i,
{
    if i < 0 || i >= bin.len() {
        s
    } else {
        spec_add_bytes_from(spec_add_byte(s, bin[i], i), bin, i + 1)
    }
}

/// Byte `i` of the state, little-endian within each lane.
pub open spec fn spec_state_byte(s: Seq<u32>, i: int) -> u8
    recommends
        s.len() == 12,
        0 <= i < 48,
{
    (s[i / 4] >> ((8 * (i % 4)) as u32)) as u8
}

/// The first `n` bytes of the state.
pub open spec fn spec_extract(s: Seq<u32>, n: int) -> Seq<u8>
    recommends
        s.len() == 12,
        0 <= n <= 48,
{
    Seq::new(n as nat, |i: int| spec_state_byte(s, i))
}

/// The permutation state: twelve 32-bit lanes.
pub struct State {
    pub st: Vec<u32>,
}

impl State {
    /// The state holds exactly twelve lanes.
    pub open spec fn wf(&self) -> bool {
        self.st@.len() == 12
    }

    /// The lanes of the state.
    pub open spec fn lanes(&self) -> Seq<u32> {
        self.st@
    }

    /// The all-zero state.
    pub fn new() -> (s: State)
        ensures
            s.wf(),
            s.lanes() == Seq::new(12, |i: int| 0u32),
    {
        let mut st: Vec<u32> = Vec::new();
        let mut i: usize = 0;
        while i < 12
            invariant
                i <= 12,
                st@.len() == i,
                forall|k: int| 0 <= k < i ==> st@[k] == 0u32,
            decreases 12 - i,
        {
            st.push(0);
            i = i + 1;
        }
        proof {
            assert(st@ =~= Seq::new(12, |i: int| 0u32));
        }
        State { st }
    }

    /// XOR one byte into the state at the given byte offset.
    pub fn add_byte(&mut self, byte: u8, offset: usize)
        requires
            old(self).wf(),
            offset < 48,
        ensures
            final(self).wf(),
            final(self).lanes() == spec_add_byte(old(self).lanes(), byte, offset as int),
    {
        let w = offset / 4;
        let sh = ((offset % 4) * 8) as u32;
        self.st[w] = self.st[w] ^ ((byte as u32) << sh);
        proof {
            assert(sh == (8 * ((offset as int) % 4)) as u32);
        }
    }

    /// XOR a run of bytes into the state front.
    pub fn add_bytes(&mut self, bin: &[u8])
        requires
            old(self).wf(),
            bin@.len() <= 48,
        ensures
            final(self).wf(),
            final(self).lanes() == spec_add_bytes_from(old(self).lanes(), bin@, 0),
    {
        let n = bin.len();
        let ghost s0 = self.lanes();
        let mut i: usize = 0;
        while i < n
            invariant
                i <= n == bin@.len() <= 48,
                self.wf(),
                spec_add_bytes_from(s0, bin@, 0) == spec_add_bytes_from(
                    self.lanes(),
                    bin@,
                    i as int,
                ),
            decreases n - i,
        {
            self.add_byte(bin[i], i);
            i = i + 1;
        }
    }

    /// Extract the first `n` bytes of the state.
    pub fn extract_bytes(&self, n: usize) -> (out: Vec<u8>)
        requires
            self.wf(),
            n <= 48,
        ensures
            out@ == spec_extract(self.lanes(), n as int),
            out@.len() == n,
    {
        let mut out: Vec<u8> = Vec::new();
        let mut i: usize = 0;
        while i < n
            invariant
                i <= n <= 48,
                self.wf(),
                out@.len() == i,
                forall|k: int| 0 <= k < i ==> out@[k] == spec_state_byte(self.lanes(), k),
            decreases n - i,
        {
            let sh = ((i % 4) * 8) as u32;
            let b = (self.st[i / 4] >> sh) as u8;
            proof {
                assert(sh == (8 * ((i as int) % 4)) as u32);
            }
            out.push(b);
            i = i + 1;
        }
        proof {
            assert(out@ =~= spec_extract(self.lanes(), n as int));
        }
        out
    }

    fn round(&mut self, rc: u32)
        requires
            old(self).wf(),
        ensures
            final(self).wf(),
            final(self).lanes() == spec_round(old(self).lanes(), rc),
    {
        let s0 = self.st[0];
        let s1 = self.st[1];
        let s2 = self.st[2];
        let s3 = self.st[3];
        let s4 = self.st[4];
        let s5 = self.st[5];
        let s6 = self.st[6];
        let s7 = self.st[7];
        let s8 = self.st[8];
        let s9 = self.st[9];
        let s10 = self.st[10];
        let s11 = self.st[11];
        let p0 = s0 ^ s4 ^ s8;
        let p1 = s1 ^ s5 ^ s9;
        let p2 = s2 ^ s6 ^ s10;
        let p3 = s3 ^ s7 ^ s11;
        let e0 = rotr32(p0, 18);
        let e0 = e0 ^ rotr32(e0, 9);
        let e1 = rotr32(p1, 18);
        let e1 = e1 ^ rotr32(e1, 9);
        let e2 = rotr32(p2, 18);
        let e2 = e2 ^ rotr32(e2, 9);
        let e3 = rotr32(p3, 18);
        let e3 = e3 ^ rotr32(e3, 9);
        let t0 = (s0 ^ e3) ^ rc;
        let t1 = s1 ^ e0;
        let t2 = s2 ^ e1;
        let t3 = s3 ^ e2;
        let t4 = s7 ^ e2;
        let t5 = s4 ^ e3;
        let t6 = s5 ^ e0;
        let t7 = s6 ^ e1;
        let t8 = s8 ^ e3;
        let t9 = s9 ^ e0;
        let t10 = s10 ^ e1;
        let t11 = s11 ^ e2;
        let c0 = rotr32(t8, 21);
        let c1 = rotr32(t9, 21);
        let c2 = rotr32(t10, 21);
        let c3 = rotr32(t11, 21);
        let u8l = rotr32((t4 & (!t0)) ^ c0, 24);
        let u9l = rotr32((t5 & (!t1)) ^ c1, 24);
        let u10l = rotr32((t6 & (!t2)) ^ c2, 24);
        let u11l = rotr32((t7 & (!t3)) ^ c3, 24);
        let u4 = rotr32((t0 & (!c0)) ^ t4, 31);
        let u5 = rotr32((t1 & (!c1)) ^ t5, 31);
        let u6 = rotr32((t2 & (!c2)) ^ t6, 31);
        let u7 = rotr32((t3 & (!c3)) ^ t7, 31);
        let u0 = t0 ^ (c0 & (!t4));
        let u1 = t1 ^ (c1 & (!t5));
        let u2 = t2 ^ (c2 & (!t6));
        let u3 = t3 ^ (c3 & (!t7));
        self.st[0] = u0;
        self.st[1] = u1;
        self.st[2] = u2;
        self.st[3] = u3;
        self.st[4] = u4;
        self.st[5] = u5;
        self.st[6] = u6;
        self.st[7] = u7;
        self.st[8] = u10l;
        self.st[9] = u11l;
        self.st[10] = u8l;
        self.st[11] = u9l;
        proof {
            assert(self.lanes() =~= spec_round(old(self).lanes(), rc));
        }
    }

    /// Apply the full twelve-round permutation.
    pub fn permute(&mut self)
        requires
            old(self).wf(),
        ensures
            final(self).wf(),
            final(self).lanes() == spec_permute(old(self).lanes()),
    {
        proof {
            reveal(crate::xoodoo::spec_permute);
        }
        self.round(0x058);
        self.round(0x038);
        self.round(0x3c0);
        self.round(0x0d0);
        self.round(0x120);
        self.round(0x014);
        self.round(0x060);
        self.round(0x02c);
        self.round(0x380);
        self.round(0x0f0);
        self.round(0x1a0);
        self.round(0x012);
    }
}

} // verus!
