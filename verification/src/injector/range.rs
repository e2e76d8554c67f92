//! Splitting a search range into consecutive sub-ranges for parallel workers.
use vstd::prelude::*;

use crate::instruction::{self, InstructionBytes, RAW_REPORT_INSN_BYTES};
use crate::search::brute::{self, lemma_odometer_increases};
use crate::search::strategy::{instruction_lt, SearchRange};
use crate::text;

verus! {

broadcast use InstructionBytes::lemma_shape;

/// Bytes from position `m` on set to zero.
pub open spec fn zero_from(b: Seq<u8>, m: nat) -> Seq<u8> {
    Seq::new(b.len(), |j: int| if j >= m { 0u8 } else { b[j] })
}

/// The boundary after `b` when ranges are cut on the first `m` bytes.
pub open spec fn next_marker(b: Seq<u8>, m: nat) -> (Seq<u8>, bool) {
    brute::odometer(zero_from(b, m), m as int)
}

/// Big-endian value of a byte string.
pub open spec fn be_value(s: Seq<u8>) -> nat
    decreases s.len(),
{
    if s.len() == 0 {
        0
    } else {
        be_value(s.drop_last()) * 256 + s.last() as nat
    }
}

proof fn lemma_be_bound(s: Seq<u8>)
    ensures
        be_value(s) < text::pow_of(256, s.len()),
    decreases s.len(),
{
    if s.len() > 0 {
        lemma_be_bound(s.drop_last());
        assert(text::pow_of(256, s.len()) == 256 * text::pow_of(256, (s.len() - 1) as nat));
    }
}

proof fn lemma_odometer_value(cur: Seq<u8>, i: int)
    requires
        0 <= i <= cur.len(),
    ensures
        !brute::odometer(cur, i).1 ==> be_value(brute::odometer(cur, i).0.take(i)) == be_value(
            cur.take(i),
        ) + 1,
    decreases i,
{
    if i > 0 {
        lemma_odometer_increases(cur, i);
        let res = brute::odometer(cur, i).0;
        assert(res.take(i).drop_last() =~= res.take(i - 1));
        assert(cur.take(i).drop_last() =~= cur.take(i - 1));
        if cur[i - 1] == 255 {
            let c2 = cur.update(i - 1, 0);
            lemma_odometer_value(c2, i - 1);
            lemma_odometer_increases(c2, i - 1);
            assert(c2.take(i - 1) =~= cur.take(i - 1));
            assert(res == brute::odometer(c2, i - 1).0);
            assert(brute::odometer(c2, i - 1).0[i - 1] == c2[i - 1]);
            assert(res[i - 1] == 0);
        } else {
            assert(res.take(i - 1) =~= cur.take(i - 1));
            assert(res[i - 1] == cur[i - 1] + 1);
        }
    }
}

/// The start of the range that follows `instruction` when ranges are cut on
/// the first `marker` bytes; false when those bytes wrapped around.
fn increment_range(instruction: &mut InstructionBytes, marker: usize) -> (r: bool)
    requires
        1 <= marker <= 16,
    ensures
        final(instruction).spec_bytes() == next_marker(old(instruction).spec_bytes(), marker as nat).0,
        final(instruction).spec_len() == marker,
        r == !next_marker(old(instruction).spec_bytes(), marker as nat).1,
{
    let mut bytes = *instruction.bytes();
    let mut j = marker;
    while j < RAW_REPORT_INSN_BYTES
        invariant
            marker <= j <= 16,
            bytes@.len() == 16,
            forall|k: int| 0 <= k < j ==> bytes@[k] == zero_from(instruction.spec_bytes(), marker as nat)[k],
            forall|k: int| j <= k < 16 ==> bytes@[k] == instruction.spec_bytes()[k],
        decreases 16 - j,
    {
        bytes[j] = 0;
        j = j + 1;
    }
    let ghost z = zero_from(instruction.spec_bytes(), marker as nat);
    assert(bytes@ =~= z);
    let mut index = marker;
    while index > 0
        invariant
            index <= marker <= 16,
            bytes@.len() == 16,
            z == zero_from(old(instruction).spec_bytes(), marker as nat),
            brute::odometer(z, marker as int) == brute::odometer(bytes@, index as int),
        decreases index,
    {
        index = index - 1;
        let ghost before = bytes@;
        bytes[index] = bytes[index].wrapping_add(1);
        if bytes[index] != 0 {
            assert(bytes@ =~= before.update(index as int, (before[index as int] + 1) as u8));
            *instruction = InstructionBytes::new(bytes, marker);
            return true;
        }
        assert(bytes@ =~= before.update(index as int, 0));
    }
    *instruction = InstructionBytes::new(bytes, marker);
    false
}

/// Where a piece that starts at `start` ends: one step of the first `m`
/// bytes, or the end of the whole range when that step wraps or passes it.
pub open spec fn piece_end_ok(start: InstructionBytes, end: InstructionBytes, m: nat, e: InstructionBytes) -> bool {
    let (n, carried) = next_marker(start.spec_bytes(), m);
    if carried || instruction::lex_lt(end.spec_bytes(), n) {
        e == end
    } else {
        e.spec_bytes() == n && e.spec_len() == m
    }
}

/// What `split_search_range` returns for a non-empty range cut on `m` bytes.
pub open spec fn is_split_of(r: Seq<SearchRange>, range: SearchRange, m: nat) -> bool {
    &&& r.len() >= 1
    &&& r[0].start == range.start
    &&& r.last().end.spec_bytes() == range.end.spec_bytes()
    &&& forall|i: int| 0 <= i < r.len() - 1 ==> #[trigger] r[i].end == r[i + 1].start
    &&& forall|i: int|
        0 <= i < r.len() ==> instruction::lex_lt(
            #[trigger] r[i].start.spec_bytes(),
            r[i].end.spec_bytes(),
        )
    &&& forall|i: int| 0 <= i < r.len() ==> piece_end_ok(#[trigger] r[i].start, range.end, m, r[i].end)
}

/// Cuts `range` into consecutive pieces that each advance the first
/// `range_bytes` bytes by one; with 0 bytes, or an empty range, the range is
/// returned whole.
pub fn split_search_range(range: SearchRange, range_bytes: usize) -> (r: Vec<SearchRange>)
    ensures
        (range_bytes == 0 || !instruction::lex_lt(range.start.spec_bytes(), range.end.spec_bytes()))
            ==> r@ == seq![range],
        (range_bytes > 0 && instruction::lex_lt(range.start.spec_bytes(), range.end.spec_bytes()))
            ==> is_split_of(
            r@,
            range,
            (if range_bytes < 16 {
                range_bytes
            } else {
                16
            }) as nat,
        ),
{
    let marker_len = if range_bytes < RAW_REPORT_INSN_BYTES {
        range_bytes
    } else {
        RAW_REPORT_INSN_BYTES
    };
    if marker_len == 0 || !instruction_lt(&range.start, &range.end) {
        return vec![range];
    }
    let ghost m = marker_len as nat;
    let mut ranges: Vec<SearchRange> = Vec::new();
    let mut marker = range.start;
    loop
        invariant
            1 <= marker_len <= 16,
            m == marker_len,
            range_bytes > 0,
            marker_len == (if range_bytes < 16 {
                range_bytes
            } else {
                16
            }),
            instruction::lex_lt(range.start.spec_bytes(), range.end.spec_bytes()),
            instruction::lex_lt(marker.spec_bytes(), range.end.spec_bytes()),
            ranges@.len() == 0 ==> marker == range.start,
            ranges@.len() > 0 ==> {
                &&& ranges@[0].start == range.start
                &&& ranges@.last().end == marker
            },
            forall|i: int| 0 <= i < ranges@.len() - 1 ==> #[trigger] ranges@[i].end == ranges@[i + 1].start,
            forall|i: int|
                0 <= i < ranges@.len() ==> instruction::lex_lt(
                    #[trigger] ranges@[i].start.spec_bytes(),
                    ranges@[i].end.spec_bytes(),
                ),
            forall|i: int|
                0 <= i < ranges@.len() ==> piece_end_ok(#[trigger] ranges@[i].start, range.end, m, ranges@[i].end),
        decreases text::pow_of(256, m) - be_value(marker.spec_bytes().take(m as int)),
    {
        let mut next = marker;
        let ghost nm = next_marker(marker.spec_bytes(), m);
        let advanced = increment_range(&mut next, marker_len);
        proof {
            lemma_odometer_increases(zero_from(marker.spec_bytes(), m), m as int);
            lemma_odometer_value(zero_from(marker.spec_bytes(), m), m as int);
            assert(zero_from(marker.spec_bytes(), m).take(m as int) =~= marker.spec_bytes().take(
                m as int,
            ));
            lemma_be_bound(next.spec_bytes().take(m as int));
        }
        let ghost stepped = next;
        if !advanced || instruction_lt(&range.end, &next) {
            next = range.end;
        }
        let ghost before = ranges@;
        ranges.push(SearchRange { start: marker, end: next });
        proof {
            if !advanced {
                assert(instruction::lex_lt(marker.spec_bytes(), next.spec_bytes()));
            } else if next == range.end {
            } else {
                brute::lemma_lex_lt_witness(zero_from(marker.spec_bytes(), m), next.spec_bytes());
                lemma_zero_from_order(marker.spec_bytes(), next.spec_bytes(), m);
            }
            assert forall|i: int| 0 <= i < ranges@.len() - 1 implies #[trigger] ranges@[i].end
                == ranges@[i + 1].start by {
                if i < before.len() - 1 {
                    assert(ranges@[i] == before[i]);
                    assert(ranges@[i + 1] == before[i + 1]);
                }
            }
        }
        if !instruction_lt(&next, &range.end) {
            proof {
                if next.spec_bytes() != range.end.spec_bytes() {
                    instruction::lemma_lex_total(next.spec_bytes(), range.end.spec_bytes());
                    assert(false);
                }
            }
            return ranges;
        }
        proof {
            if !advanced || next == range.end {
                instruction::lemma_lex_irreflexive(range.end.spec_bytes());
            }
            assert(advanced && next == stepped);
        }
        marker = next;
    }
}

/// `zero_from(a, m)` advanced to `b` (`b` agreeing with it from `m` on and
/// ahead of it) is also ahead of `a` itself.
proof fn lemma_zero_from_order(a: Seq<u8>, b: Seq<u8>, m: nat)
    requires
        a.len() == 16,
        b.len() == 16,
        1 <= m <= 16,
        b == next_marker(a, m).0,
        !next_marker(a, m).1,
    ensures
        instruction::lex_lt(a, b),
{
    let z = zero_from(a, m);
    lemma_odometer_increases(z, m as int);
    brute::lemma_lex_lt_witness(z, b);
    let k = choose|k: int| 0 <= k < z.len() && z[k] < b[k] && (forall|j: int| 0 <= j < k ==> z[j] == b[j]);
    assert(k < m);
    assert forall|j: int| 0 <= j < k implies a[j] == b[j] by {
        assert(z[j] == b[j]);
    }
    brute::lemma_lex_first_diff(a, b, k);
}

} // verus!
