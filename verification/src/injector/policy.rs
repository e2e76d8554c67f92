//! Which candidates may not run: blacklisted opcodes and prefixes, and the
//! limits on prefix count and repetition.
use vstd::prelude::*;

use crate::instruction::{self, InstructionBytes, RAW_REPORT_INSN_BYTES};

verus! {

broadcast use InstructionBytes::lemma_shape;

/// How many prefixes a candidate may carry and whether one may repeat.
#[derive(Clone, Debug, PartialEq, Eq, Structural)]
pub struct PrefixPolicy {
    pub max_prefix: usize,
    pub allow_duplicate_prefixes: bool,
}

/// Legacy prefixes, and on x86-64 also the REX bytes `40..=4f`.
pub open spec fn spec_is_prefix(b: u8, is_x86_64: bool) -> bool {
    ||| b == 0xf0
    ||| b == 0xf2
    ||| b == 0xf3
    ||| b == 0x2e
    ||| b == 0x36
    ||| b == 0x3e
    ||| b == 0x26
    ||| b == 0x64
    ||| b == 0x65
    ||| b == 0x66
    ||| b == 0x67
    ||| (is_x86_64 && 0x40 <= b && b <= 0x4f)
}

/// Number of leading prefix bytes of `b`.
pub open spec fn prefix_count(b: Seq<u8>, is_x86_64: bool) -> nat
    decreases b.len(),
{
    if b.len() > 0 && spec_is_prefix(b[0], is_x86_64) {
        1 + prefix_count(b.drop_first(), is_x86_64)
    } else {
        0
    }
}

/// The leading prefix bytes of `b`.
pub open spec fn leading_prefixes(b: Seq<u8>, is_x86_64: bool) -> Seq<u8> {
    b.take(prefix_count(b, is_x86_64) as int)
}

pub open spec fn has_duplicate(s: Seq<u8>) -> bool {
    exists|i: int, j: int| 0 <= i < j < s.len() && s[i] == s[j]
}

/// The candidate's opcode (the bytes after its prefixes) starts with the
/// specified bytes of `opcode`.
pub open spec fn spec_has_opcode(b: Seq<u8>, opcode: InstructionBytes, is_x86_64: bool) -> bool {
    let start = prefix_count(b, is_x86_64);
    let n = opcode.spec_len();
    start + n <= b.len() && b.subrange(start as int, start + n as int) == opcode.spec_specified()
}

/// The reason of the first opcode entry that matches, else that of the first
/// prefix entry whose byte is among the leading prefixes.
pub open spec fn spec_violation(
    b: Seq<u8>,
    opcodes: Seq<(InstructionBytes, &'static str)>,
    prefixes: Seq<(u8, &'static str)>,
    is_x86_64: bool,
) -> Option<&'static str> {
    if exists|i: int| 0 <= i < opcodes.len() && spec_has_opcode(b, #[trigger] opcodes[i].0, is_x86_64) {
        let i = choose|i: int|
            0 <= i < opcodes.len() && spec_has_opcode(b, #[trigger] opcodes[i].0, is_x86_64) && forall|
                j: int,
            |
                0 <= j < i ==> !spec_has_opcode(b, #[trigger] opcodes[j].0, is_x86_64);
        Some(opcodes[i].1)
    } else if exists|i: int|
        0 <= i < prefixes.len() && leading_prefixes(b, is_x86_64).contains(#[trigger] prefixes[i].0) {
        let i = choose|i: int|
            0 <= i < prefixes.len() && leading_prefixes(b, is_x86_64).contains(
                #[trigger] prefixes[i].0,
            ) && forall|j: int|
                0 <= j < i ==> !leading_prefixes(b, is_x86_64).contains(#[trigger] prefixes[j].0);
        Some(prefixes[i].1)
    } else {
        None
    }
}

/// Legacy prefixes, and on x86-64 also the REX bytes.
pub fn is_prefix(byte: u8, is_x86_64: bool) -> (r: bool)
    ensures
        r == spec_is_prefix(byte, is_x86_64),
        is_x86_64 && 0x40 <= byte && byte <= 0x4f ==> r,
{
    proof {
        lemma_rex_is_prefix(byte);
    }
    byte == 0xf0 || byte == 0xf2 || byte == 0xf3 || byte == 0x2e || byte == 0x36 || byte == 0x3e
        || byte == 0x26 || byte == 0x64 || byte == 0x65 || byte == 0x66 || byte == 0x67 || (
    is_x86_64 && 0x40 <= byte && byte <= 0x4f)
}

proof fn lemma_prefix_count_at(b: Seq<u8>, x: bool, m: int)
    requires
        0 <= m <= b.len(),
        forall|j: int| 0 <= j < m ==> spec_is_prefix(b[j], x),
        m == b.len() || !spec_is_prefix(b[m], x),
    ensures
        prefix_count(b, x) == m,
    decreases m,
{
    if m > 0 {
        lemma_prefix_count_at(b.drop_first(), x, m - 1);
    }
}

/// Number of leading prefix bytes.
fn prefix_len(bytes: &[u8; RAW_REPORT_INSN_BYTES], is_x86_64: bool) -> (r: usize)
    ensures
        r as nat == prefix_count(bytes@, is_x86_64),
        r <= 16,
{
    let mut k: usize = 0;
    while k < RAW_REPORT_INSN_BYTES && is_prefix(bytes[k], is_x86_64)
        invariant
            k <= 16,
            forall|j: int| 0 <= j < k ==> spec_is_prefix(bytes@[j], is_x86_64),
        decreases 16 - k,
    {
        k = k + 1;
    }
    proof {
        lemma_prefix_count_at(bytes@, is_x86_64, k as int);
    }
    k
}

/// The leading prefix bytes.
pub fn leading_prefix_bytes(bytes: &[u8; RAW_REPORT_INSN_BYTES], is_x86_64: bool) -> (r: Vec<u8>)
    ensures
        r@ == leading_prefixes(bytes@, is_x86_64),
{
    let n = prefix_len(bytes, is_x86_64);
    let mut prefixes: Vec<u8> = Vec::new();
    let mut i: usize = 0;
    while i < n
        invariant
            i <= n <= 16,
            prefixes@ == bytes@.take(i as int),
        decreases n - i,
    {
        prefixes.push(bytes[i]);
        assert(bytes@.take(i + 1) =~= bytes@.take(i as int).push(bytes@[i as int]));
        i = i + 1;
    }
    prefixes
}

/// Whether the candidate's opcode starts with `opcode`'s specified bytes.
pub fn has_opcode(instruction: &InstructionBytes, opcode: &InstructionBytes, is_x86_64: bool) -> (r: bool)
    ensures
        r == spec_has_opcode(instruction.spec_bytes(), *opcode, is_x86_64),
{
    let bytes = instruction.bytes();
    let start = prefix_len(bytes, is_x86_64);
    let n = opcode.specified_len();
    if start + n > RAW_REPORT_INSN_BYTES {
        return false;
    }
    let ob = opcode.bytes();
    let mut i: usize = 0;
    while i < n
        invariant
            i <= n,
            start + n <= 16,
            start as nat == prefix_count(bytes@, is_x86_64),
            bytes@ == instruction.spec_bytes(),
            ob@ == opcode.spec_bytes(),
            n == opcode.spec_len(),
            forall|j: int| 0 <= j < i ==> bytes@[start + j] == ob@[j],
        decreases n - i,
    {
        if bytes[start + i] != ob[i] {
            assert(bytes@.subrange(start as int, start + n)[i as int] != opcode.spec_specified()[i as int]);
            return false;
        }
        i = i + 1;
    }
    assert(bytes@.subrange(start as int, start + n) =~= opcode.spec_specified());
    true
}

/// The reason a candidate may not run, if any: the first matching opcode
/// entry, else the first prefix entry found among its leading prefixes.
pub fn violates_blacklist(
    instruction: &InstructionBytes,
    opcode_blacklist: &[(InstructionBytes, &'static str)],
    prefix_blacklist: &[(u8, &'static str)],
    is_x86_64: bool,
) -> (r: Option<&'static str>)
    ensures
        r == spec_violation(instruction.spec_bytes(), opcode_blacklist@, prefix_blacklist@, is_x86_64),
{
    let ghost b = instruction.spec_bytes();
    let mut i: usize = 0;
    while i < opcode_blacklist.len()
        invariant
            i <= opcode_blacklist.len(),
            b == instruction.spec_bytes(),
            forall|j: int| 0 <= j < i ==> !spec_has_opcode(b, #[trigger] opcode_blacklist@[j].0, is_x86_64),
        decreases opcode_blacklist.len() - i,
    {
        let (opcode, reason) = opcode_blacklist[i];
        if has_opcode(instruction, &opcode, is_x86_64) {
            assert(spec_has_opcode(b, opcode_blacklist@[i as int].0, is_x86_64));
            return Some(reason);
        }
        i = i + 1;
    }
    let prefixes = leading_prefix_bytes(instruction.bytes(), is_x86_64);
    let mut k: usize = 0;
    while k < prefix_blacklist.len()
        invariant
            k <= prefix_blacklist.len(),
            b == instruction.spec_bytes(),
            prefixes@ == leading_prefixes(b, is_x86_64),
            forall|j: int| 0 <= j < opcode_blacklist@.len() ==> !spec_has_opcode(b, #[trigger] opcode_blacklist@[j].0, is_x86_64),
            forall|j: int| 0 <= j < k ==> !leading_prefixes(b, is_x86_64).contains(#[trigger] prefix_blacklist@[j].0),
        decreases prefix_blacklist.len() - k,
    {
        let (prefix, reason) = prefix_blacklist[k];
        let mut found = false;
        let mut p: usize = 0;
        while p < prefixes.len()
            invariant
                p <= prefixes.len(),
                !found ==> forall|q: int| 0 <= q < p ==> prefixes@[q] != prefix,
                found ==> prefixes@.contains(prefix),
            decreases prefixes.len() - p,
        {
            if prefixes[p] == prefix {
                found = true;
            }
            p = p + 1;
        }
        if found {
            assert(leading_prefixes(b, is_x86_64).contains(prefix_blacklist@[k as int].0));
            return Some(reason);
        }
        k = k + 1;
    }
    None
}

/// Entries of the default opcode blacklist: opcode bytes and reason.
pub open spec fn default_opcode_entries() -> Seq<(Seq<u8>, Seq<char>)> {
    seq![
        (seq![0x0fu8, 0x34u8], "sysenter"@),
        (seq![0x0fu8, 0xa1u8], "pop fs"@),
        (seq![0x0fu8, 0xa9u8], "pop gs"@),
        (seq![0x8eu8], "mov seg"@),
        (seq![0xc8u8], "enter"@),
        (seq![0x0fu8, 0xb2u8], "lss"@),
        (seq![0x0fu8, 0xb4u8], "lfs"@),
        (seq![0x0fu8, 0xb5u8], "lgs"@),
        (seq![0xbcu8], "mov sp"@),
        (seq![0xd1u8, 0xecu8], "shr sp, 1"@),
        (seq![0xd1u8, 0xe4u8], "shl sp, 1"@),
        (seq![0xd1u8, 0xfcu8], "sar sp, 1"@),
        (seq![0xd1u8, 0xdcu8], "rcr sp, 1"@),
        (seq![0xd1u8, 0xd4u8], "rcl sp, 1"@),
        (seq![0xd1u8, 0xccu8], "ror sp, 1"@),
        (seq![0xd1u8, 0xc4u8], "rol sp, 1"@),
        (seq![0x8du8, 0xa2u8], "lea sp"@),
        (seq![0xc7u8, 0xf8u8], "xbegin"@),
        (seq![0xcdu8, 0x80u8], "int 0x80"@),
        (seq![0x0fu8, 0x05u8], "syscall"@),
        (seq![0x0fu8, 0xb9u8], "ud2"@),
    ]
}

fn push_entry(
    out: &mut Vec<(InstructionBytes, &'static str)>,
    bytes: &[u8],
    reason: &'static str,
)
    requires
        bytes@.len() <= 16,
    ensures
        final(out)@.len() == old(out)@.len() + 1,
        forall|i: int| 0 <= i < old(out)@.len() ==> final(out)@[i] == old(out)@[i],
        final(out)@.last().0.spec_specified() == bytes@,
        final(out)@.last().0.spec_bytes() == instruction::zero_extend(bytes@),
        final(out)@.last().1 == reason,
{
    let ib = InstructionBytes::from_slice(bytes);
    assert(bytes@.take(bytes@.len() as int) =~= bytes@);
    assert(ib.spec_specified() =~= bytes@);
    out.push((ib, reason));
}

/// `s` is the default opcode blacklist: each entry's bytes and reason those
/// of `default_opcode_entries`, in order.
pub open spec fn is_default_opcode_blacklist(s: Seq<(InstructionBytes, &'static str)>) -> bool {
    &&& s.len() == default_opcode_entries().len()
    &&& forall|i: int|
        0 <= i < s.len() ==> {
            &&& (#[trigger] s[i]).0.spec_specified() == default_opcode_entries()[i].0
            &&& s[i].0.spec_bytes() == instruction::zero_extend(default_opcode_entries()[i].0)
            &&& s[i].1@ == default_opcode_entries()[i].1
        }
}

/// `s` is the default prefix blacklist: empty on x86-64, else `gs` (0x65).
pub open spec fn is_default_prefix_blacklist(s: Seq<(u8, &'static str)>, is_x86_64: bool) -> bool {
    &&& is_x86_64 ==> s.len() == 0
    &&& !is_x86_64 ==> s.len() == 1 && s[0].0 == 0x65 && s[0].1@ == "gs"@
}

/// The opcodes that are never executed: system entry, segment and stack
/// pointer writes, transactional begin and the like.
pub fn default_opcode_blacklist() -> (r: Vec<(InstructionBytes, &'static str)>)
    ensures
        is_default_opcode_blacklist(r@),
{
    let v = default_opcode_entries_vec();
    proof {
        assert(is_default_opcode_blacklist(v@));
    }
    v
}

fn default_opcode_entries_vec() -> (r: Vec<(InstructionBytes, &'static str)>)
    ensures
        r@.len() == default_opcode_entries().len(),
        forall|i: int|
            0 <= i < r@.len() ==> {
                &&& (#[trigger] r@[i]).0.spec_specified() == default_opcode_entries()[i].0
                &&& r@[i].0.spec_bytes() == instruction::zero_extend(default_opcode_entries()[i].0)
                &&& r@[i].1@ == default_opcode_entries()[i].1
            },
{
    let mut v: Vec<(InstructionBytes, &'static str)> = Vec::new();
    push_entry(&mut v, &[0x0f, 0x34], "sysenter");
    push_entry(&mut v, &[0x0f, 0xa1], "pop fs");
    push_entry(&mut v, &[0x0f, 0xa9], "pop gs");
    push_entry(&mut v, &[0x8e], "mov seg");
    push_entry(&mut v, &[0xc8], "enter");
    push_entry(&mut v, &[0x0f, 0xb2], "lss");
    push_entry(&mut v, &[0x0f, 0xb4], "lfs");
    push_entry(&mut v, &[0x0f, 0xb5], "lgs");
    push_entry(&mut v, &[0xbc], "mov sp");
    push_entry(&mut v, &[0xd1, 0xec], "shr sp, 1");
    push_entry(&mut v, &[0xd1, 0xe4], "shl sp, 1");
    push_entry(&mut v, &[0xd1, 0xfc], "sar sp, 1");
    push_entry(&mut v, &[0xd1, 0xdc], "rcr sp, 1");
    push_entry(&mut v, &[0xd1, 0xd4], "rcl sp, 1");
    push_entry(&mut v, &[0xd1, 0xcc], "ror sp, 1");
    push_entry(&mut v, &[0xd1, 0xc4], "rol sp, 1");
    push_entry(&mut v, &[0x8d, 0xa2], "lea sp");
    push_entry(&mut v, &[0xc7, 0xf8], "xbegin");
    push_entry(&mut v, &[0xcd, 0x80], "int 0x80");
    push_entry(&mut v, &[0x0f, 0x05], "syscall");
    push_entry(&mut v, &[0x0f, 0xb9], "ud2");
    v
}

/// The prefixes that are never executed: none on x86-64, `gs` elsewhere.
pub fn default_prefix_blacklist(is_x86_64: bool) -> (r: Vec<(u8, &'static str)>)
    ensures
        is_default_prefix_blacklist(r@, is_x86_64),
{
    if is_x86_64 {
        Vec::new()
    } else {
        vec![(0x65u8, "gs")]
    }
}

impl PrefixPolicy {
    /// `Err("prefix violation")` when the candidate has more leading prefixes
    /// than allowed, or repeats one while repetition is not allowed.
    pub fn validate(&self, instruction: &InstructionBytes, is_x86_64: bool) -> (r: Result<(), &'static str>)
        ensures
            ({
                let p = leading_prefixes(instruction.spec_bytes(), is_x86_64);
                r is Err <==> (p.len() > self.max_prefix || (!self.allow_duplicate_prefixes
                    && has_duplicate(p)))
            }),
            r matches Err(e) ==> e@ == "prefix violation"@,
    {
        let prefixes = leading_prefix_bytes(instruction.bytes(), is_x86_64);
        if prefixes.len() > self.max_prefix {
            return Err("prefix violation");
        }
        if !self.allow_duplicate_prefixes {
            let mut seen: Vec<bool> = Vec::new();
            let mut z: usize = 0;
            while z < 256
                invariant
                    z <= 256,
                    seen@.len() == z,
                    forall|q: int| 0 <= q < z ==> !seen@[q],
                decreases 256 - z,
            {
                seen.push(false);
                z = z + 1;
            }
            let mut i: usize = 0;
            while i < prefixes.len()
                invariant
                    i <= prefixes.len(),
                    seen@.len() == 256,
                    prefixes@ == leading_prefixes(instruction.spec_bytes(), is_x86_64),
                    prefixes@.len() <= self.max_prefix,
                    !self.allow_duplicate_prefixes,
                    forall|q: int| 0 <= q < 256 ==> (seen@[q] <==> exists|j: int| 0 <= j < i && prefixes@[j] == q),
                    forall|a: int, c: int| 0 <= a < c < i ==> prefixes@[a] != prefixes@[c],
                decreases prefixes.len() - i,
            {
                let index = prefixes[i] as usize;
                if seen[index] {
                    let ghost j = choose|j: int| 0 <= j < i && prefixes@[j] == index;
                    assert(prefixes@[j] == prefixes@[i as int]);
                    assert(has_duplicate(prefixes@));
                    return Err("prefix violation");
                }
                let ghost old_seen = seen@;
                seen.set(index, true);
                assert forall|a: int, c: int| 0 <= a < c < i + 1 implies prefixes@[a] != prefixes@[c] by {
                    if c == i && prefixes@[a] == prefixes@[c] {
                        assert(old_seen[index as int]);
                    }
                }
                assert forall|q: int| 0 <= q < 256 implies (seen@[q] <==> exists|j: int| 0 <= j < i + 1 && prefixes@[j] == q) by {
                    if q == index {
                        assert(prefixes@[i as int] == q);
                    } else {
                        assert(seen@[q] == old_seen[q]);
                        if exists|j: int| 0 <= j < i + 1 && prefixes@[j] == q {
                            let j = choose|j: int| 0 <= j < i + 1 && prefixes@[j] == q;
                            assert(j != i);
                        }
                    }
                }
                i = i + 1;
            }
        }
        Ok(())
    }
}


/// On x86-64 every REX byte, `40` to `4f`, is a prefix.
pub proof fn lemma_rex_is_prefix(b: u8)
    ensures
        0x40 <= b <= 0x4f ==> spec_is_prefix(b, true),
{
}

/// On x86-64 a REX byte in front of a candidate is one more prefix, and the
/// opcode behind the prefixes is the same: every opcode entry matches the
/// candidate with the REX byte exactly when it matches it without, so a
/// blacklisted opcode behind a REX byte is still found.
pub proof fn lemma_rex_prefix_transparent(b: u8, rest: Seq<u8>, opcode: InstructionBytes)
    requires
        0x40 <= b <= 0x4f,
    ensures
        prefix_count(seq![b] + rest, true) == 1 + prefix_count(rest, true),
        spec_has_opcode(seq![b] + rest, opcode, true) == spec_has_opcode(rest, opcode, true),
{
    let x = seq![b] + rest;
    assert(x[0] == b);
    assert(x.drop_first() =~= rest);
    let k = prefix_count(rest, true);
    let n = opcode.spec_len();
    if k + n <= rest.len() {
        assert(x.subrange(1 + k as int, 1 + k + n as int) =~= rest.subrange(k as int, k + n as int));
    }
}

} // verus!
