//! Core permutation of the sponge/duplex cipher: a 320-bit state of five
//! 64-bit lanes, transformed by a public round function.  Each round XORs
//! a round constant into lane 2, applies a fixed 5-input nonlinear S-box
//! written out as elementary Boolean identities, then a linear diffusion
//! layer of lane-wise rotate-XOR combinations with fixed rotation amounts.
//!
//! The permutation has two entry points: a direct twelve-round chain over
//! the literal constant table, and a general path that folds the round
//! function from round index `12 - n`; their agreement for every round
//! count is proved below.

use vstd::prelude::*;

verus! {

/// Single-bit padding mask for a block of `n` bytes: the marker byte
/// `0x80` at byte position `n` from the top of the lane.
pub open spec fn spec_pad_mask(n: int) -> u64
    recommends
        0 <= n <= 7,
{
    0x80u64 << ((56 - 8 * n) as u64)
}

/// Produce the mask for padding.
pub fn pad(n: usize) -> (r: u64)
    requires
        n <= 7,
    ensures
        r == spec_pad_mask(n as int),
{
    0x80u64 << ((56 - 8 * n) as u64)
}

/// Round constant of round index `round`: `((15 - round) << 4) | round`.
pub open spec fn spec_round_constant(round: u64) -> u64
    recommends
        round <= 0xf,
{
    (((0xfu64 - round) as u64) << 4) | round
}

/// Compute the round constant.
pub fn round_constant(round: u64) -> (r: u64)
    requires
        round <= 0xf,
    ensures
        r == spec_round_constant(round),
{
    ((0xf - round) << 4u64) | round
}

/// The state of the permutation: 320 bits as five 64-bit lanes.
#[derive(Clone, Copy, Debug, PartialEq, Eq, Structural)]
pub struct State {
    pub x0: u64,
    pub x1: u64,
    pub x2: u64,
    pub x3: u64,
    pub x4: u64,
}

/// Right rotation of a 64-bit lane.
pub open spec fn spec_rotr(x: u64, n: u64) -> u64
    recommends
        0 < n < 64,
{
    (x >> n) | (x << ((64 - n) as u64))
}

fn rotr(x: u64, n: u64) -> (r: u64)
    requires
        0 < n < 64,
    ensures
        r == spec_rotr(x, n),
{
    (x >> n) | (x << (64 - n))
}

/// The round function: constant addition into lane 2, the S-box layer,
/// then the linear rotate-XOR diffusion layer.
pub open spec fn spec_round(x: State, c: u64) -> State {
    let a2 = x.x2 ^ c;
    let b0 = x.x0 ^ x.x4;
    let b4 = x.x4 ^ x.x3;
    let b2 = a2 ^ x.x1;
    let t0 = (!b0) & x.x1;
    let t1 = (!x.x1) & b2;
    let t2 = (!b2) & x.x3;
    let t3 = (!x.x3) & b4;
    let t4 = (!b4) & b0;
    let c0 = b0 ^ t1;
    let c1 = x.x1 ^ t2;
    let c2 = b2 ^ t3;
    let c3 = x.x3 ^ t4;
    let c4 = b4 ^ t0;
    let d1 = c1 ^ c0;
    let d0 = c0 ^ c4;
    let d3 = c3 ^ c2;
    let d2 = !c2;
    State {
        x0: d0 ^ spec_rotr(d0, 19) ^ spec_rotr(d0, 28),
        x1: d1 ^ spec_rotr(d1, 61) ^ spec_rotr(d1, 39),
        x2: d2 ^ spec_rotr(d2, 1) ^ spec_rotr(d2, 6),
        x3: d3 ^ spec_rotr(d3, 10) ^ spec_rotr(d3, 17),
        x4: c4 ^ spec_rotr(c4, 7) ^ spec_rotr(c4, 41),
    }
}

/// The round function, executable.
pub fn round(x: State, c: u64) -> (r: State)
    ensures
        r == spec_round(x, c),
{
    let a2 = x.x2 ^ c;
    let b0 = x.x0 ^ x.x4;
    let b4 = x.x4 ^ x.x3;
    let b2 = a2 ^ x.x1;
    let t0 = (!b0) & x.x1;
    let t1 = (!x.x1) & b2;
    let t2 = (!b2) & x.x3;
    let t3 = (!x.x3) & b4;
    let t4 = (!b4) & b0;
    let c0 = b0 ^ t1;
    let c1 = x.x1 ^ t2;
    let c2 = b2 ^ t3;
    let c3 = x.x3 ^ t4;
    let c4 = b4 ^ t0;
    let d1 = c1 ^ c0;
    let d0 = c0 ^ c4;
    let d3 = c3 ^ c2;
    let d2 = !c2;
    State {
        x0: d0 ^ rotr(d0, 19) ^ rotr(d0, 28),
        x1: d1 ^ rotr(d1, 61) ^ rotr(d1, 39),
        x2: d2 ^ rotr(d2, 1) ^ rotr(d2, 6),
        x3: d3 ^ rotr(d3, 10) ^ rotr(d3, 17),
        x4: c4 ^ rotr(c4, 7) ^ rotr(c4, 41),
    }
}

/// The general permutation path: fold the round function over round
/// indices `start..12`, constants computed from the index.
pub open spec fn spec_permute_from(s: State, start: int) -> State
    decreases 12 - start,
{
    if 0 <= start < 12 {
        spec_permute_from(spec_round(s, spec_round_constant(start as u64)), start + 1)
    } else {
        s
    }
}

/// The literal round-constant table of the twelve-round permutation.
pub open spec fn spec_table_constant(i: int) -> u64 {
    if i == 0 {
        0xf0
    } else if i == 1 {
        0xe1
    } else if i == 2 {
        0xd2
    } else if i == 3 {
        0xc3
    } else if i == 4 {
        0xb4
    } else if i == 5 {
        0xa5
    } else if i == 6 {
        0x96
    } else if i == 7 {
        0x87
    } else if i == 8 {
        0x78
    } else if i == 9 {
        0x69
    } else if i == 10 {
        0x5a
    } else {
        0x4b
    }
}

/// The direct entry point: fold the round function over the literal
/// constant table from index `start` to the table's end.
pub open spec fn spec_table_rounds_from(s: State, start: int) -> State
    decreases 12 - start,
{
    if 0 <= start < 12 {
        spec_table_rounds_from(spec_round(s, spec_table_constant(start)), start + 1)
    } else {
        s
    }
}

/// The full twelve-round permutation.
pub open spec fn spec_permute_12(s: State) -> State {
    spec_table_rounds_from(s, 0)
}

/// The six-round permutation: the general path from round index 6.
pub open spec fn spec_permute_6(s: State) -> State {
    spec_permute_from(s, 6)
}

/// The computed round-constant schedule agrees with the literal table.
proof fn lemma_constants_agree()
    ensures
        forall|i: int|
            0 <= i < 12 ==> #[trigger] spec_table_constant(i) == spec_round_constant(i as u64),
{
    assert((((0xfu64 - 0) as u64) << 4) | 0 == 0xf0u64 && (((0xfu64 - 1) as u64) << 4) | 1
        == 0xe1u64 && (((0xfu64 - 2) as u64) << 4) | 2 == 0xd2u64 && (((0xfu64 - 3) as u64) << 4)
        | 3 == 0xc3u64 && (((0xfu64 - 4) as u64) << 4) | 4 == 0xb4u64 && (((0xfu64 - 5) as u64)
        << 4) | 5 == 0xa5u64 && (((0xfu64 - 6) as u64) << 4) | 6 == 0x96u64 && (((0xfu64
        - 7) as u64) << 4) | 7 == 0x87u64 && (((0xfu64 - 8) as u64) << 4) | 8 == 0x78u64 && (((
    0xfu64 - 9) as u64) << 4) | 9 == 0x69u64 && (((0xfu64 - 10) as u64) << 4) | 10 == 0x5au64 && (((
    0xfu64 - 11) as u64) << 4) | 11 == 0x4bu64) by (bit_vector);
}

/// Internal consistency of the two permutation entry points: running the
/// round function over the last `12 - start` literal constants equals the
/// general fold from round index `start`; with `start == 0`, the direct
/// twelve-round chain equals the general path.  Equivalently, for every
/// round count `n` in `0..=12`, `n` rounds of the table's tail equal the
/// general fold from round index `12 - n`.
pub proof fn lemma_permutation_entry_points(s: State, start: int)
    requires
        0 <= start <= 12,
    ensures
        spec_table_rounds_from(s, start) == spec_permute_from(s, start),
    decreases 12 - start,
{
    lemma_constants_agree();
    if start < 12 {
        lemma_permutation_entry_points(spec_round(s, spec_table_constant(start)), start + 1);
    }
}

/// The direct twelve-round chain equals the general path run for all
/// twelve rounds.
pub proof fn lemma_permute_12_agrees(s: State)
    ensures
        spec_permute_12(s) == spec_permute_from(s, 0),
{
    lemma_permutation_entry_points(s, 0);
}

impl State {
    /// Instantiate a new state from the given lane values.
    pub fn new(x0: u64, x1: u64, x2: u64, x3: u64, x4: u64) -> (s: State)
        ensures
            s == (State { x0, x1, x2, x3, x4 }),
    {
        State { x0, x1, x2, x3, x4 }
    }

    /// Perform the permutation with 12 rounds.
    pub fn permute_12(&mut self)
        ensures
            *final(self) == spec_permute_12(*old(self)),
    {
        let mut s = *self;
        s = round(s, 0xf0);
        s = round(s, 0xe1);
        s = round(s, 0xd2);
        s = round(s, 0xc3);
        s = round(s, 0xb4);
        s = round(s, 0xa5);
        s = round(s, 0x96);
        s = round(s, 0x87);
        s = round(s, 0x78);
        s = round(s, 0x69);
        s = round(s, 0x5a);
        s = round(s, 0x4b);
        proof {
            reveal_with_fuel(spec_table_rounds_from, 13);
        }
        *self = s;
    }

    /// Perform the permutation with 6 rounds.
    pub fn permute_6(&mut self)
        ensures
            *final(self) == spec_permute_6(*old(self)),
    {
        self.permute_n(6);
    }

    /// Perform a given number (up to 12) of rounds: the general path,
    /// folding from round index `12 - rounds`.
    pub fn permute_n(&mut self, rounds: usize)
        requires
            rounds <= 12,
        ensures
            *final(self) == spec_permute_from(*old(self), 12 - rounds as int),
    {
        let start = 12 - rounds;
        let mut r = start;
        let mut s = *self;
        while r < 12
            invariant
                start <= r <= 12,
                spec_permute_from(*old(self), start as int) == spec_permute_from(s, r as int),
            decreases 12 - r,
        {
            s = round(s, round_constant(r as u64));
            r = r + 1;
        }
        *self = s;
    }
}

} // verus!
