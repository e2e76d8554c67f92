//! Random search: a seeded xorshift generator, each byte drawn between the
//! range's start and end bytes at the same position.
use vstd::prelude::*;

use crate::instruction::{InstructionBytes, RAW_REPORT_INSN_BYTES};
use crate::search::strategy::{SearchMode, SearchRange, SearchStrategy};

verus! {

broadcast use InstructionBytes::lemma_shape;

#[derive(Clone, Debug)]
pub struct RandomStrategy {
    state: u64,
    range: SearchRange,
}

/// One xorshift64 step (shifts 13, 7, 17).
pub open spec fn xorshift(s: u64) -> u64 {
    let a = s ^ (s << 13u64);
    let b = a ^ (a >> 7u64);
    b ^ (b << 17u64)
}

/// One byte between `min` and `max` drawn from `r`: uniform by remainder
/// when `min <= max`, any byte otherwise.
pub open spec fn draw_byte(r: u32, min: u8, max: u8) -> u8 {
    if min <= max {
        (min + (r as int) % (max - min + 1)) as u8
    } else {
        r as u8
    }
}

/// The bytes drawn for positions `0..i` and the generator state after them.
pub open spec fn draw_bytes(state: u64, lo: Seq<u8>, hi: Seq<u8>, i: nat) -> (Seq<u8>, u64)
    decreases i,
{
    if i == 0 {
        (Seq::empty(), state)
    } else {
        let (prev, s) = draw_bytes(state, lo, hi, (i - 1) as nat);
        let s1 = xorshift(s);
        (prev.push(draw_byte(s1 as u32, lo[i - 1], hi[i - 1])), s1)
    }
}

impl RandomStrategy {
    /// The generator state.
    pub closed spec fn spec_state(&self) -> u64 {
        self.state
    }

    pub closed spec fn spec_range(&self) -> SearchRange {
        self.range
    }

    /// A generator seeded with `seed` (0 is replaced by 1).
    pub fn new(seed: u64, range: SearchRange) -> (r: Self)
        ensures
            r.spec_state() == (if seed == 0 {
                1
            } else {
                seed
            }),
            r.spec_range() == range,
    {
        Self { state: if seed < 1 { 1 } else { seed }, range }
    }

    fn next_u32(&mut self) -> (r: u32)
        ensures
            final(self).state == xorshift(old(self).state),
            final(self).range == old(self).range,
            r == final(self).state as u32,
    {
        self.state = self.state ^ (self.state << 13u64);
        self.state = self.state ^ (self.state >> 7u64);
        self.state = self.state ^ (self.state << 17u64);
        self.state as u32
    }

    /// Sixteen drawn bytes, with the start's specified length (at least 1).
    pub fn next_candidate(&mut self) -> (r: Option<InstructionBytes>)
        ensures
            final(self).spec_range() == old(self).spec_range(),
            ({
                let d = draw_bytes(
                    old(self).spec_state(),
                    old(self).spec_range().start.spec_bytes(),
                    old(self).spec_range().end.spec_bytes(),
                    16,
                );
                &&& final(self).spec_state() == d.1
                &&& r matches Some(c)
                &&& c.spec_bytes() == d.0
                &&& c.spec_len() == (if old(self).spec_range().start.spec_len() < 1 {
                    1
                } else {
                    old(self).spec_range().start.spec_len()
                })
            }),
    {
        let ghost s0 = self.state;
        let lo = *self.range.start.bytes();
        let hi = *self.range.end.bytes();
        let mut bytes = [0u8; RAW_REPORT_INSN_BYTES];
        let mut index: usize = 0;
        while index < RAW_REPORT_INSN_BYTES
            invariant
                index <= 16,
                bytes@.len() == 16,
                lo@ == self.range.start.spec_bytes(),
                hi@ == self.range.end.spec_bytes(),
                self.range == old(self).range,
                s0 == old(self).state,
                draw_bytes(s0, lo@, hi@, index as nat).1 == self.state,
                draw_bytes(s0, lo@, hi@, index as nat).0 == bytes@.take(index as int),
            decreases 16 - index,
        {
            let min = lo[index];
            let max = hi[index];
            let ghost before = bytes@;
            let r = self.next_u32();
            let b = if min <= max {
                min.wrapping_add((r % ((max - min) as u32 + 1)) as u8)
            } else {
                r as u8
            };
            proof {
                if min <= max {
                    let m: int = max - min + 1;
                    assert((r as int) % m <= max - min);
                    assert(((max - min) as u32 + 1) as int == m);
                }
            }
            bytes[index] = b;
            assert(bytes@.take(index + 1) =~= before.take(index as int).push(b));
            index = index + 1;
        }
        assert(bytes@.take(16) =~= bytes@);
        let len = self.range.start.specified_len();
        Some(InstructionBytes::new(bytes, if len < 1 { 1 } else { len }))
    }
}

impl SearchStrategy for RandomStrategy {
    open spec fn strategy_inv(&self) -> bool {
        true
    }

    fn mode(&self) -> (r: SearchMode)
        ensures
            r == SearchMode::Random,
    {
        SearchMode::Random
    }

    fn next_candidate(&mut self) -> (r: Option<InstructionBytes>)
        ensures
            final(self).spec_range() == old(self).spec_range(),
            ({
                let d = draw_bytes(
                    old(self).spec_state(),
                    old(self).spec_range().start.spec_bytes(),
                    old(self).spec_range().end.spec_bytes(),
                    16,
                );
                &&& final(self).spec_state() == d.1
                &&& r matches Some(c)
                &&& c.spec_bytes() == d.0
                &&& c.spec_len() == (if old(self).spec_range().start.spec_len() < 1 {
                    1
                } else {
                    old(self).spec_range().start.spec_len()
                })
            }),
    {
        RandomStrategy::next_candidate(self)
    }
}

/// Every drawn byte lies between the start and end bytes at its position
/// whenever the start byte is not above the end byte.
pub proof fn lemma_random_bytes_in_bounds(state: u64, lo: Seq<u8>, hi: Seq<u8>, i: nat)
    requires
        i <= lo.len(),
        i <= hi.len(),
    ensures
        draw_bytes(state, lo, hi, i).0.len() == i,
        forall|j: int|
            0 <= j < i && lo[j] <= hi[j] ==> lo[j] <= #[trigger] draw_bytes(state, lo, hi, i).0[j]
                <= hi[j],
    decreases i,
{
    if i > 0 {
        lemma_random_bytes_in_bounds(state, lo, hi, (i - 1) as nat);
        let (prev, s) = draw_bytes(state, lo, hi, (i - 1) as nat);
        let r = xorshift(s) as u32;
        let k = i - 1;
        if lo[k] <= hi[k] {
            let m: int = hi[k] - lo[k] + 1;
            assert((r as int) % m <= hi[k] - lo[k]);
        }
        assert forall|j: int|
            0 <= j < i && lo[j] <= hi[j] implies lo[j] <= #[trigger] draw_bytes(
            state,
            lo,
            hi,
            i,
        ).0[j] <= hi[j] by {
            if j < k {
                assert(draw_bytes(state, lo, hi, i).0[j] == prev[j]);
            }
        }
    }
}

/// Two generators with the same seed and range produce the same candidates.
pub proof fn lemma_random_deterministic(a: RandomStrategy, b: RandomStrategy)
    requires
        a.spec_state() == b.spec_state(),
        a.spec_range() == b.spec_range(),
    ensures
        draw_bytes(
            a.spec_state(),
            a.spec_range().start.spec_bytes(),
            a.spec_range().end.spec_bytes(),
            16,
        ) == draw_bytes(
            b.spec_state(),
            b.spec_range().start.spec_bytes(),
            b.spec_range().end.spec_bytes(),
            16,
        ),
{
}

} // verus!
