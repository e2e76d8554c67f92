//! Tunnelling search: walk one byte position at a time, descending into
//! deeper bytes when the executed length shows that they matter and backing
//! out when they do not.
use vstd::prelude::*;

use crate::instruction::{self, InstructionBytes, RAW_REPORT_INSN_BYTES};
use crate::search::brute::lemma_lex_first_diff;
use crate::search::strategy::{
    instruction_lt, SearchMode, SearchRange, SearchStrategy, StrategyFeedback,
};

verus! {

broadcast use InstructionBytes::lemma_shape;

#[derive(Clone, Debug)]
pub struct TunnelStrategy {
    bytes: [u8; RAW_REPORT_INSN_BYTES],
    end: InstructionBytes,
    index: usize,
    last_length: Option<u32>,
    started: bool,
    done: bool,
}

/// The abstract state of a [`TunnelStrategy`].
pub struct TunnelView {
    pub bytes: Seq<u8>,
    pub end: Seq<u8>,
    pub index: nat,
    pub last_length: Option<u32>,
    pub started: bool,
    pub done: bool,
}

pub open spec fn tunnel_wf(v: TunnelView) -> bool {
    &&& v.bytes.len() == 16
    &&& v.end.len() == 16
    &&& v.index <= 15
}

/// x86 legacy and REX prefix bytes.
pub open spec fn spec_is_prefix(b: u8) -> bool {
    ||| b == 0xf0
    ||| b == 0xf2
    ||| b == 0xf3
    ||| b == 0x2e
    ||| b == 0x36
    ||| b == 0x3e
    ||| b == 0x26
    ||| b == 0x64
    ||| b == 0x65
    ||| b == 0x66
    ||| b == 0x67
    ||| (0x40 <= b && b <= 0x4f)
}

/// Number of leading prefix bytes.
pub open spec fn prefix_run(b: Seq<u8>) -> nat
    decreases b.len(),
{
    if b.len() > 0 && spec_is_prefix(b[0]) {
        1 + prefix_run(b.drop_first())
    } else {
        0
    }
}

/// The opcode bytes after the prefixes that open a longer opcode map: an
/// escape byte (`0f`, `0f 38`, `0f 3a`) or the start of a VEX (`c5`, `c4`) or
/// EVEX (`62`) header.
pub open spec fn structural_map(w: Seq<u8>) -> bool {
    ||| (w.len() == 1 && (w[0] == 0x0f || w[0] == 0xc5 || w[0] == 0xc4 || w[0] == 0x62))
    ||| (w.len() == 2 && ((w[0] == 0x0f && (w[1] == 0x38 || w[1] == 0x3a)) || w[0] == 0xc5
        || w[0] == 0xc4 || w[0] == 0x62))
    ||| (w.len() == 3 && (w[0] == 0xc4 || w[0] == 0x62))
    ||| (w.len() == 4 && w[0] == 0x62)
}

/// Whether the byte at `index` is a prefix or part of an opcode-map header,
/// so that the next byte must be searched too.
pub open spec fn descend_structural(b: Seq<u8>, index: nat) -> bool {
    if index + 1 >= 16 {
        false
    } else {
        let p = prefix_run(b);
        if index < p {
            true
        } else {
            structural_map(b.subrange(p as int, index + 1int))
        }
    }
}

pub open spec fn wrap_inc(x: u8) -> u8 {
    if x == 255 {
        0
    } else {
        (x + 1) as u8
    }
}

/// Increment the byte at `i`, carrying towards byte 0; the flag tells that
/// byte 0 wrapped.
pub open spec fn tunnel_carry(b: Seq<u8>, i: nat) -> (Seq<u8>, nat, bool)
    decreases i,
{
    let x = wrap_inc(b[i as int]);
    let b1 = b.update(i as int, x);
    if x != 0 {
        (b1, i, false)
    } else if i == 0 {
        (b1, 0, true)
    } else {
        tunnel_carry(b1, (i - 1) as nat)
    }
}

/// Bytes after `i` set to zero.
pub open spec fn zero_tail(b: Seq<u8>, i: nat) -> Seq<u8> {
    Seq::new(b.len(), |j: int| if j > i { 0u8 } else { b[j] })
}

pub open spec fn tunnel_emit(b: Seq<u8>, end: Seq<u8>) -> Option<Seq<u8>> {
    if instruction::lex_lt(b, end) {
        Some(b)
    } else {
        None
    }
}

/// One call of `next_candidate`.
pub open spec fn tunnel_step(v: TunnelView) -> (TunnelView, Option<Seq<u8>>) {
    if v.done {
        (v, None)
    } else if !v.started {
        (TunnelView { started: true, ..v }, tunnel_emit(v.bytes, v.end))
    } else {
        let (b, k, wrapped) = tunnel_carry(v.bytes, v.index);
        let ll = if k < v.index {
            None
        } else {
            v.last_length
        };
        if wrapped {
            (TunnelView { bytes: b, index: k, last_length: ll, done: true, ..v }, None)
        } else {
            let e = tunnel_emit(b, v.end);
            (TunnelView { bytes: b, index: k, last_length: ll, done: e is None, ..v }, e)
        }
    }
}

/// One call of `observe`.
pub open spec fn tunnel_observe(v: TunnelView, fb: StrategyFeedback) -> TunnelView {
    if descend_structural(v.bytes, v.index) {
        TunnelView { index: v.index + 1, last_length: None, ..v }
    } else if fb.spec_unknown_invalid() && v.index > 0 {
        let fault = if fb.observed_length == 0 {
            0
        } else {
            (fb.observed_length - 1) as nat
        };
        let i = if fault < v.index - 1 {
            fault
        } else {
            (v.index - 1) as nat
        };
        TunnelView { bytes: zero_tail(v.bytes, i), index: i, last_length: None, ..v }
    } else if fb.spec_known_length_match() && v.index > 1 && v.index + 1 < fb.observed_length {
        let i = (v.index - 1) as nat;
        TunnelView { bytes: zero_tail(v.bytes, i), index: i, last_length: None, ..v }
    } else {
        let deeper = !fb.spec_unknown_invalid() && !fb.spec_known_length_match() && v.index + 1
            < 16 && v.last_length != Some(fb.observed_length) && v.index + 1 < fb.observed_length;
        TunnelView {
            index: if deeper {
                v.index + 1
            } else {
                v.index
            },
            last_length: Some(fb.observed_length),
            ..v
        }
    }
}

impl View for TunnelStrategy {
    type V = TunnelView;

    closed spec fn view(&self) -> TunnelView {
        TunnelView {
            bytes: self.bytes@,
            end: self.end.spec_bytes(),
            index: self.index as nat,
            last_length: self.last_length,
            started: self.started,
            done: self.done,
        }
    }
}

/// x86 legacy and REX prefix bytes.
pub fn is_prefix(byte: u8) -> (r: bool)
    ensures
        r == spec_is_prefix(byte),
{
    byte == 0xf0 || byte == 0xf2 || byte == 0xf3 || byte == 0x2e || byte == 0x36 || byte == 0x3e
        || byte == 0x26 || byte == 0x64 || byte == 0x65 || byte == 0x66 || byte == 0x67 || (0x40
        <= byte && byte <= 0x4f)
}

proof fn lemma_prefix_run_at(b: Seq<u8>, m: int)
    requires
        0 <= m <= b.len(),
        forall|j: int| 0 <= j < m ==> spec_is_prefix(b[j]),
        m == b.len() || !spec_is_prefix(b[m]),
    ensures
        prefix_run(b) == m,
    decreases m,
{
    if m > 0 {
        lemma_prefix_run_at(b.drop_first(), m - 1);
    }
}

/// Number of leading prefix bytes.
pub fn leading_prefix_len(bytes: &[u8; RAW_REPORT_INSN_BYTES]) -> (r: usize)
    ensures
        r as nat == prefix_run(bytes@),
        r <= 16,
{
    let mut k: usize = 0;
    while k < RAW_REPORT_INSN_BYTES && is_prefix(bytes[k])
        invariant
            k <= 16,
            forall|j: int| 0 <= j < k ==> spec_is_prefix(bytes@[j]),
        decreases 16 - k,
    {
        k = k + 1;
    }
    proof {
        lemma_prefix_run_at(bytes@, k as int);
    }
    k
}

impl TunnelStrategy {
    pub open spec fn wf(&self) -> bool {
        tunnel_wf(self@)
    }

    /// The default range.
    pub fn new() -> (r: Self)
        ensures
            r.wf(),
            r@.bytes == Seq::new(16, |i: int| 0u8),
            r@.end == Seq::new(16, |i: int| 0xffu8),
            r@.index == 0,
            r@.last_length is None,
            !r@.started,
            !r@.done,
    {
        Self::with_range(SearchRange::default())
    }

    /// Starts at `range.start`, searching the byte after its specified ones.
    /// A start with all 16 bytes specified leaves no byte to search.
    pub fn with_range(range: SearchRange) -> (r: Self)
        requires
            range.start.spec_len() <= 15,
        ensures
            r.wf(),
            r@.bytes == range.start.spec_bytes(),
            r@.end == range.end.spec_bytes(),
            r@.index == range.start.spec_len(),
            r@.last_length is None,
            !r@.started,
            !r@.done,
    {
        Self {
            bytes: *range.start.bytes(),
            end: range.end,
            index: range.start.specified_len(),
            last_length: None,
            started: false,
            done: false,
        }
    }

    fn current_instruction(&self) -> (r: Option<InstructionBytes>)
        requires
            self.wf(),
        ensures
            match r {
                Some(c) => tunnel_emit(self@.bytes, self@.end) == Some(c.spec_bytes())
                    && c.spec_len() == self@.index + 1,
                None => tunnel_emit(self@.bytes, self@.end) is None,
            },
    {
        let instruction = InstructionBytes::new(self.bytes, self.index + 1);
        if instruction_lt(&instruction, &self.end) {
            Some(instruction)
        } else {
            None
        }
    }

    fn zero_tail_after_index(&mut self)
        requires
            old(self).wf(),
        ensures
            final(self)@ == (TunnelView { bytes: zero_tail(old(self)@.bytes, old(self)@.index), ..old(self)@ }),
    {
        let mut j = self.index + 1;
        let ghost b0 = self.bytes@;
        while j < RAW_REPORT_INSN_BYTES
            invariant
                self.index + 1 <= j <= 16,
                self.index == old(self).index,
                self.bytes@.len() == 16,
                forall|k: int| 0 <= k < j ==> self.bytes@[k] == zero_tail(b0, self.index as nat)[k],
                forall|k: int| j <= k < 16 ==> self.bytes@[k] == b0[k],
                b0 == old(self)@.bytes,
                self.end == old(self).end,
                self.last_length == old(self).last_length,
                self.started == old(self).started,
                self.done == old(self).done,
            decreases 16 - j,
        {
            self.bytes[j] = 0;
            j = j + 1;
        }
        assert(self.bytes@ =~= zero_tail(b0, self.index as nat));
    }

    fn should_descend_structural_byte(&self) -> (r: bool)
        requires
            self.wf(),
        ensures
            r == descend_structural(self@.bytes, self@.index),
    {
        if self.index + 1 >= RAW_REPORT_INSN_BYTES {
            return false;
        }
        let p = leading_prefix_len(&self.bytes);
        if self.index < p {
            return true;
        }
        let n = self.index + 1 - p;
        let ghost w = self.bytes@.subrange(p as int, self.index + 1);
        let b = &self.bytes;
        assert(w.len() == n);
        if n == 1 {
            assert(w[0] == b@[p as int]);
            let x = b[p];
            x == 0x0f || x == 0xc5 || x == 0xc4 || x == 0x62
        } else if n == 2 {
            assert(w[0] == b@[p as int] && w[1] == b@[p + 1]);
            let x = b[p];
            let y = b[p + 1];
            (x == 0x0f && (y == 0x38 || y == 0x3a)) || x == 0xc5 || x == 0xc4 || x == 0x62
        } else if n == 3 {
            assert(w[0] == b@[p as int]);
            let x = b[p];
            x == 0xc4 || x == 0x62
        } else if n == 4 {
            assert(w[0] == b@[p as int]);
            b[p] == 0x62
        } else {
            false
        }
    }

    /// The next candidate, `None` once past `end` or after byte 0 wrapped.
    pub fn next_candidate(&mut self) -> (r: Option<InstructionBytes>)
        requires
            old(self).wf(),
        ensures
            final(self).wf(),
            final(self)@ == tunnel_step(old(self)@).0,
            match r {
                Some(c) => tunnel_step(old(self)@).1 == Some(c.spec_bytes()) && c.spec_len()
                    == final(self)@.index + 1 && instruction::lex_lt(c.spec_bytes(), old(self)@.end),
                None => tunnel_step(old(self)@).1 is None,
            },
    {
        if self.done {
            return None;
        }
        if !self.started {
            self.started = true;
            return self.current_instruction();
        }
        let ghost v0 = self@;
        let ghost i0 = self.index as nat;
        let ghost b1 = self.bytes@.update(self.index as int, wrap_inc(self.bytes@[self.index as int]));
        self.bytes[self.index] = self.bytes[self.index].wrapping_add(1);
        assert(self.bytes@ =~= b1);
        while self.index < RAW_REPORT_INSN_BYTES && self.bytes[self.index] == 0
            invariant
                self.wf(),
                self.started,
                !self.done,
                self.end == old(self).end,
                self.index <= i0,
                tunnel_carry(v0.bytes, i0) == (if self.bytes@[self.index as int] != 0 {
                    (self.bytes@, self.index as nat, false)
                } else if self.index == 0 {
                    (self.bytes@, 0nat, true)
                } else {
                    tunnel_carry(
                        self.bytes@,
                        (self.index - 1) as nat,
                    )
                }),
                self.last_length == (if self.index < i0 {
                    None
                } else {
                    v0.last_length
                }),
                v0 == old(self)@,
                v0.started,
                !v0.done,
                i0 == v0.index,
            decreases self.index,
        {
            if self.index == 0 {
                self.done = true;
                return None;
            }
            self.index = self.index - 1;
            let ghost before = self.bytes@;
            self.bytes[self.index] = self.bytes[self.index].wrapping_add(1);
            assert(self.bytes@ =~= before.update(
                self.index as int,
                wrap_inc(before[self.index as int]),
            ));
            self.last_length = None;
        }
        let r = self.current_instruction();
        if r.is_none() {
            self.done = true;
        }
        r
    }

    /// Adjusts the searched byte position after a candidate has run.
    pub fn observe(&mut self, feedback: StrategyFeedback)
        requires
            old(self).wf(),
        ensures
            final(self).wf(),
            final(self)@ == tunnel_observe(old(self)@, feedback),
            old(self)@.last_length == Some(feedback.observed_length) && !descend_structural(
                old(self)@.bytes,
                old(self)@.index,
            ) ==> final(self)@.index <= old(self)@.index,
    {
        proof {
            if self@.last_length == Some(feedback.observed_length) && !descend_structural(
                self@.bytes,
                self@.index,
            ) {
                lemma_tunnel_same_length_no_descent(self@, feedback);
            }
        }
        if self.should_descend_structural_byte() {
            self.index = self.index + 1;
            self.last_length = None;
            return;
        }
        if feedback.is_unknown_invalid() && self.index > 0 {
            let fault_index: usize = if feedback.observed_length == 0 {
                0
            } else {
                (feedback.observed_length - 1) as usize
            };
            self.index = if fault_index < self.index - 1 {
                fault_index
            } else {
                self.index - 1
            };
            self.zero_tail_after_index();
            self.last_length = None;
            return;
        }
        if feedback.is_known_length_match() && self.index > 1 && self.index + 1
            < feedback.observed_length as usize {
            self.index = self.index - 1;
            self.zero_tail_after_index();
            self.last_length = None;
            return;
        }
        if !feedback.is_unknown_invalid() && !feedback.is_known_length_match() && self.index + 1
            < RAW_REPORT_INSN_BYTES && self.last_length != Some(feedback.observed_length)
            && self.index + 1 < feedback.observed_length as usize {
            self.index = self.index + 1;
        }
        self.last_length = Some(feedback.observed_length);
    }
}

impl Default for TunnelStrategy {
    fn default() -> (r: Self)
        ensures
            r.wf(),
            r@.index == 0,
            !r@.started,
    {
        Self::new()
    }
}

impl SearchStrategy for TunnelStrategy {
    open spec fn strategy_inv(&self) -> bool {
        self.wf()
    }

    fn mode(&self) -> (r: SearchMode)
        ensures
            r == SearchMode::Tunnel,
    {
        SearchMode::Tunnel
    }

    fn next_candidate(&mut self) -> (r: Option<InstructionBytes>)
        ensures
            final(self)@ == tunnel_step(old(self)@).0,
            match r {
                Some(c) => tunnel_step(old(self)@).1 == Some(c.spec_bytes()) && c.spec_len()
                    == final(self)@.index + 1 && instruction::lex_lt(c.spec_bytes(), old(self)@.end),
                None => tunnel_step(old(self)@).1 is None,
            },
    {
        TunnelStrategy::next_candidate(self)
    }

    fn observe(&mut self, feedback: StrategyFeedback)
        ensures
            final(self)@ == tunnel_observe(old(self)@, feedback),
    {
        TunnelStrategy::observe(self, feedback)
    }
}

proof fn lemma_carry(b: Seq<u8>, i: nat)
    requires
        i < b.len(),
    ensures
        tunnel_carry(b, i).0.len() == b.len(),
        tunnel_carry(b, i).1 <= i,
        !tunnel_carry(b, i).2 ==> {
            let (c, k, _) = tunnel_carry(b, i);
            &&& c[k as int] == b[k as int] + 1
            &&& forall|j: int| 0 <= j < k ==> c[j] == b[j]
        },
    decreases i,
{
    let x = wrap_inc(b[i as int]);
    let b1 = b.update(i as int, x);
    if x == 0 && i > 0 {
        lemma_carry(b1, (i - 1) as nat);
    }
}

/// Tunnelling only moves forward: whatever feedback the last candidate got,
/// the next candidate is lexicographically after it, and before the end.
pub proof fn lemma_tunnel_candidates_increase(v: TunnelView, fb: StrategyFeedback)
    requires
        tunnel_wf(v),
        v.started,
    ensures
        tunnel_wf(tunnel_observe(v, fb)),
        tunnel_step(tunnel_observe(v, fb)).1 matches Some(c) ==> instruction::lex_lt(v.bytes, c)
            && instruction::lex_lt(c, v.end),
        tunnel_step(v).1 matches Some(c) ==> instruction::lex_lt(v.bytes, c),
{
    let w = tunnel_observe(v, fb);
    assert(forall|j: int| 0 <= j <= w.index ==> w.bytes[j] == v.bytes[j]);
    if !w.done {
        lemma_carry(w.bytes, w.index);
        let (c, k, wrapped) = tunnel_carry(w.bytes, w.index);
        if !wrapped {
            lemma_lex_first_diff(v.bytes, c, k as int);
        }
    }
    if !v.done {
        lemma_carry(v.bytes, v.index);
        let (c, k, wrapped) = tunnel_carry(v.bytes, v.index);
        if !wrapped {
            lemma_lex_first_diff(v.bytes, c, k as int);
        }
    }
}

/// Once a tunnel search has ended it stays ended, whatever it observes.
pub proof fn lemma_tunnel_done_absorbing(v: TunnelView, fb: StrategyFeedback)
    requires
        v.done,
    ensures
        tunnel_step(v).1 is None,
        tunnel_step(tunnel_observe(v, fb)).1 is None,
{
}


/// The tunnel descends only when the observed length changed: with no
/// structural byte at the index and the same observed length as last time,
/// an observation never moves the searched byte deeper.
pub proof fn lemma_tunnel_same_length_no_descent(v: TunnelView, fb: StrategyFeedback)
    requires
        v.last_length == Some(fb.observed_length),
        !descend_structural(v.bytes, v.index),
    ensures
        tunnel_observe(v, fb).index <= v.index,
{
}

/// A new observed length that reaches past the next byte moves the search
/// one byte deeper, when the disassembler neither agrees on the length nor
/// calls the candidate an unknown SIGILL, and the next byte is within the
/// 16; the length is then remembered.
pub proof fn lemma_tunnel_new_length_descends(v: TunnelView, fb: StrategyFeedback)
    requires
        v.last_length != Some(fb.observed_length),
        !descend_structural(v.bytes, v.index),
        !(!fb.disasm_known && fb.signum == 4),
        !(fb.disasm_known && fb.disasm_length == fb.observed_length),
        v.index + 1 < 16,
        v.index + 1 < fb.observed_length,
    ensures
        tunnel_observe(v, fb).index == v.index + 1,
        tunnel_observe(v, fb).bytes == v.bytes,
        tunnel_observe(v, fb).last_length == Some(fb.observed_length),
{
}

} // verus!
