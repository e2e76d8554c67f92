//! Exhaustive search: an odometer over the first `depth` bytes.
use vstd::prelude::*;

use crate::instruction::{self, InstructionBytes, RAW_REPORT_INSN_BYTES};
use crate::search::strategy::{instruction_lt, SearchMode, SearchRange, SearchStrategy};

verus! {

broadcast use InstructionBytes::lemma_shape;

#[derive(Clone, Debug)]
pub struct BruteStrategy {
    current: [u8; RAW_REPORT_INSN_BYTES],
    end: InstructionBytes,
    depth: usize,
    started: bool,
    done: bool,
}

/// The abstract state of a [`BruteStrategy`].
pub struct BruteView {
    pub current: Seq<u8>,
    pub end: Seq<u8>,
    pub depth: nat,
    pub started: bool,
    pub done: bool,
}

/// Big-endian increment of `cur[0..i]`; the flag tells that it carried out of
/// byte 0 (every byte of the prefix was `0xff` and is now 0).
pub open spec fn odometer(cur: Seq<u8>, i: int) -> (Seq<u8>, bool)
    decreases i,
{
    if i <= 0 {
        (cur, true)
    } else if cur[i - 1] == 255 {
        odometer(cur.update(i - 1, 0), i - 1)
    } else {
        (cur.update(i - 1, (cur[i - 1] + 1) as u8), false)
    }
}

/// The candidate at `cur`, when it is before `end`.
pub open spec fn brute_emit(cur: Seq<u8>, end: Seq<u8>) -> Option<Seq<u8>> {
    if instruction::lex_lt(cur, end) {
        Some(cur)
    } else {
        None
    }
}

/// One call of `next_candidate`: the next state and the emitted bytes.
pub open spec fn brute_step(v: BruteView) -> (BruteView, Option<Seq<u8>>) {
    if v.done {
        (v, None)
    } else if !v.started {
        (BruteView { started: true, ..v }, brute_emit(v.current, v.end))
    } else {
        let (n, carried) = odometer(v.current, v.depth as int);
        if carried {
            (BruteView { current: n, done: true, ..v }, None)
        } else {
            let e = brute_emit(n, v.end);
            (BruteView { current: n, done: e is None, ..v }, e)
        }
    }
}

pub open spec fn brute_wf(v: BruteView) -> bool {
    &&& 1 <= v.depth <= 16
    &&& v.current.len() == 16
    &&& v.end.len() == 16
}

/// The depth that `with_range` uses: at least the specified start length,
/// between 1 and 16.
pub open spec fn brute_depth(depth: nat, start_len: nat) -> nat {
    let d = if depth >= start_len {
        depth
    } else {
        start_len
    };
    if d < 1 {
        1
    } else if d > 16 {
        16
    } else {
        d
    }
}

impl View for BruteStrategy {
    type V = BruteView;

    closed spec fn view(&self) -> BruteView {
        BruteView {
            current: self.current@,
            end: self.end.spec_bytes(),
            depth: self.depth as nat,
            started: self.started,
            done: self.done,
        }
    }
}

proof fn lemma_odometer_len(cur: Seq<u8>, i: int)
    requires
        i <= cur.len(),
    ensures
        odometer(cur, i).0.len() == cur.len(),
    decreases i,
{
    if i > 0 && cur[i - 1] == 255 {
        lemma_odometer_len(cur.update(i - 1, 0), i - 1);
    }
}

impl BruteStrategy {
    pub open spec fn wf(&self) -> bool {
        brute_wf(self@)
    }

    /// The default range searched to the given depth.
    pub fn new(depth: usize) -> (r: Self)
        ensures
            r.wf(),
            r@.current == Seq::new(16, |i: int| 0u8),
            r@.end == Seq::new(16, |i: int| 0xffu8),
            r@.depth == brute_depth(depth as nat, 0),
            !r@.started,
            !r@.done,
    {
        Self::with_range(depth, SearchRange::default())
    }

    pub fn with_range(depth: usize, range: SearchRange) -> (r: Self)
        ensures
            r.wf(),
            r@.current == range.start.spec_bytes(),
            r@.end == range.end.spec_bytes(),
            r@.depth == brute_depth(depth as nat, range.start.spec_len()),
            !r@.started,
            !r@.done,
    {
        let start_len = range.start.specified_len();
        let d = if depth >= start_len {
            depth
        } else {
            start_len
        };
        let d = if d < 1 {
            1
        } else if d > RAW_REPORT_INSN_BYTES {
            RAW_REPORT_INSN_BYTES
        } else {
            d
        };
        Self { current: *range.start.bytes(), end: range.end, depth: d, started: false, done: false }
    }

    fn current_instruction(&self) -> (r: Option<InstructionBytes>)
        requires
            self.wf(),
        ensures
            match r {
                Some(c) => brute_emit(self@.current, self@.end) == Some(c.spec_bytes())
                    && c.spec_len() == self@.depth,
                None => brute_emit(self@.current, self@.end) is None,
            },
    {
        let instruction = InstructionBytes::new(self.current, self.depth);
        if instruction_lt(&instruction, &self.end) {
            Some(instruction)
        } else {
            None
        }
    }

    /// The next candidate of the odometer, `None` once it has passed `end`
    /// or wrapped around.
    pub fn next_candidate(&mut self) -> (r: Option<InstructionBytes>)
        requires
            old(self).wf(),
        ensures
            final(self)@ == brute_step(old(self)@).0,
            final(self).wf(),
            match r {
                Some(c) => brute_step(old(self)@).1 == Some(c.spec_bytes()) && c.spec_len()
                    == old(self)@.depth && instruction::lex_lt(c.spec_bytes(), old(self)@.end),
                None => brute_step(old(self)@).1 is None,
            },
    {
        if self.done {
            return None;
        }
        if !self.started {
            self.started = true;
            return self.current_instruction();
        }
        let ghost start = self.current@;
        let mut index = self.depth;
        while index > 0
            invariant
                index <= self.depth <= 16,
                1 <= self.depth,
                self.current@.len() == 16,
                self.started,
                !self.done,
                self@.end.len() == 16,
                odometer(start, old(self)@.depth as int) == odometer(self.current@, index as int),
                old(self)@ == (BruteView { current: start, ..self@ }),
            decreases index,
        {
            index = index - 1;
            let ghost before = self.current@;
            self.current[index] = self.current[index].wrapping_add(1);
            if self.current[index] != 0 {
                assert(before[index as int] != 255);
                assert(self.current@ =~= before.update(index as int, (before[index as int] + 1) as u8));
                let r = self.current_instruction();
                if r.is_none() {
                    self.done = true;
                }
                return r;
            }
            assert(before[index as int] == 255);
            assert(self.current@ =~= before.update(index as int, 0));
        }
        self.done = true;
        None
    }
}

impl SearchStrategy for BruteStrategy {
    open spec fn strategy_inv(&self) -> bool {
        self.wf()
    }

    fn mode(&self) -> (r: SearchMode)
        ensures
            r == SearchMode::Brute,
    {
        SearchMode::Brute
    }

    fn next_candidate(&mut self) -> (r: Option<InstructionBytes>)
        ensures
            final(self)@ == brute_step(old(self)@).0,
            match r {
                Some(c) => brute_step(old(self)@).1 == Some(c.spec_bytes()) && c.spec_len()
                    == old(self)@.depth && instruction::lex_lt(c.spec_bytes(), old(self)@.end),
                None => brute_step(old(self)@).1 is None,
            },
    {
        BruteStrategy::next_candidate(self)
    }
}

/// The odometer strictly increases the byte string, unless it carries out.
pub proof fn lemma_odometer_increases(cur: Seq<u8>, i: int)
    requires
        0 <= i <= cur.len(),
    ensures
        !odometer(cur, i).1 ==> instruction::lex_lt(cur, odometer(cur, i).0),
        odometer(cur, i).0.len() == cur.len(),
        forall|j: int| 0 <= j < cur.len() && (j >= i) ==> odometer(cur, i).0[j] == cur[j],
    decreases i,
{
    lemma_odometer_len(cur, i);
    if i > 0 {
        if cur[i - 1] == 255 {
            lemma_odometer_increases(cur.update(i - 1, 0), i - 1);
            let n = odometer(cur, i).0;
            assert forall|j: int| 0 <= j < cur.len() && (j >= i) implies n[j] == cur[j] by {
                assert(cur.update(i - 1, 0)[j] == cur[j]);
            }
            if !odometer(cur, i).1 {
                lemma_lex_lt_update(cur, cur.update(i - 1, 0), n, i - 1);
            }
        } else {
            let n = cur.update(i - 1, (cur[i - 1] + 1) as u8);
            lemma_lex_first_diff(cur, n, i - 1);
        }
    }
}

/// Two equal-length strings that agree before `k` and differ upward at `k`
/// are ordered.
pub proof fn lemma_lex_first_diff(a: Seq<u8>, b: Seq<u8>, k: int)
    requires
        a.len() == b.len(),
        0 <= k < a.len(),
        forall|j: int| 0 <= j < k ==> a[j] == b[j],
        a[k] < b[k],
    ensures
        instruction::lex_lt(a, b),
    decreases k,
{
    if k > 0 {
        lemma_lex_first_diff(a.drop_first(), b.drop_first(), k - 1);
    }
}

/// The first position where two different equal-length strings differ
/// decides their order.
pub proof fn lemma_lex_lt_witness(a: Seq<u8>, b: Seq<u8>)
    requires
        a.len() == b.len(),
        instruction::lex_lt(a, b),
    ensures
        exists|k: int|
            0 <= k < a.len() && a[k] < b[k] && (forall|j: int| 0 <= j < k ==> a[j] == b[j]),
    decreases a.len(),
{
    if a.len() > 0 && a[0] == b[0] {
        lemma_lex_lt_witness(a.drop_first(), b.drop_first());
        let k = choose|k: int|
            0 <= k < a.drop_first().len() && a.drop_first()[k] < b.drop_first()[k] && (forall|
                j: int,
            |
                0 <= j < k ==> a.drop_first()[j] == b.drop_first()[j]);
        assert(a[k + 1] < b[k + 1]);
        assert forall|j: int| 0 <= j < k + 1 implies a[j] == b[j] by {
            if j > 0 {
                assert(a.drop_first()[j - 1] == b.drop_first()[j - 1]);
            }
        }
    }
}

/// If `b` equals `a` everywhere but at `k`, where it is smaller, and
/// `b < c`, then `a < c` as long as `c` agrees with `b` before `k`... the
/// shape used by the odometer: zeroing the byte at `k` and carrying below it.
proof fn lemma_lex_lt_update(a: Seq<u8>, b: Seq<u8>, c: Seq<u8>, k: int)
    requires
        a.len() == b.len() == c.len(),
        0 <= k < a.len(),
        b == a.update(k, 0),
        instruction::lex_lt(b, c),
        forall|j: int| k <= j < c.len() ==> c[j] == b[j],
    ensures
        instruction::lex_lt(a, c),
{
    lemma_lex_lt_witness(b, c);
    let m = choose|m: int|
        0 <= m < b.len() && b[m] < c[m] && (forall|j: int| 0 <= j < m ==> b[j] == c[j]);
    assert(m < k);
    assert forall|j: int| 0 <= j < m implies a[j] == c[j] by {
        assert(b[j] == c[j]);
    }
    lemma_lex_first_diff(a, c, m);
}

/// Every candidate is before the end of the range, and once started, each
/// candidate is strictly after the previous one.
pub proof fn lemma_brute_candidates_increase(v: BruteView)
    requires
        brute_wf(v),
    ensures
        brute_wf(brute_step(v).0),
        brute_step(v).1 matches Some(c) ==> instruction::lex_lt(c, v.end),
        brute_step(v).1 matches Some(c) ==> (v.started ==> instruction::lex_lt(v.current, c)),
        brute_step(v).1 matches Some(c) ==> c == brute_step(v).0.current,
{
    lemma_odometer_increases(v.current, v.depth as int);
}

/// Once a brute search has ended, it stays ended.
pub proof fn lemma_brute_done_absorbing(v: BruteView)
    requires
        v.done,
    ensures
        brute_step(v).0 == v,
        brute_step(v).1 is None,
{
}

} // verus!
