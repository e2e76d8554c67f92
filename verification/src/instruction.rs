//! Fixed-size instruction byte buffers, their hex forms and the hex parser.
use vstd::prelude::*;

use crate::text;
use crate::text::{
    chars_of, copy_range, hex_digit_char, parse_hex, push_chars, push_str, string_push, trim_chars,
};

verus! {

/// Longest x86 instruction, in bytes.
pub const MAX_INSN_LENGTH: usize = 15;

/// Size of the raw instruction buffer carried in every report.
pub const RAW_REPORT_INSN_BYTES: usize = 16;

/// A 16-byte candidate buffer and the number of bytes that were specified.
#[derive(Clone, Copy, Debug, PartialEq, Eq, Hash)]
pub struct InstructionBytes {
    bytes: [u8; RAW_REPORT_INSN_BYTES],
    specified_len: usize,
}

/// Two lower-case hex digits per byte.
pub open spec fn hex_pairs(b: Seq<u8>) -> Seq<char>
    decreases b.len(),
{
    if b.len() == 0 {
        Seq::empty()
    } else {
        hex_pairs(b.drop_last()) + seq![
            text::hex_char((b.last() / 16) as nat),
            text::hex_char((b.last() % 16) as nat),
        ]
    }
}

/// `b` followed by zeros up to 16 bytes.
pub open spec fn zero_extend(b: Seq<u8>) -> Seq<u8> {
    b + Seq::new((16 - b.len()) as nat, |i: int| 0u8)
}

/// `min(n, 16)`.
pub open spec fn clamp16(n: nat) -> nat {
    if n <= 16 {
        n
    } else {
        16
    }
}

/// Lexicographic order on byte strings, as `[u8]` and `Vec<u8>` compare.
pub open spec fn lex_lt(a: Seq<u8>, b: Seq<u8>) -> bool
    decreases a.len(),
{
    if a.len() == 0 {
        b.len() > 0
    } else if b.len() == 0 {
        false
    } else if a[0] != b[0] {
        a[0] < b[0]
    } else {
        lex_lt(a.drop_first(), b.drop_first())
    }
}

impl InstructionBytes {
    #[verifier::type_invariant]
    spec fn inv(self) -> bool {
        self.specified_len <= RAW_REPORT_INSN_BYTES
    }

    /// The 16 raw bytes.
    pub closed spec fn spec_bytes(self) -> Seq<u8> {
        self.bytes@
    }

    /// The specified length, at most 16.
    pub closed spec fn spec_len(self) -> nat {
        clamp16(self.specified_len as nat)
    }

    /// The specified bytes.
    pub open spec fn spec_specified(self) -> Seq<u8> {
        self.spec_bytes().take(self.spec_len() as int)
    }

    pub broadcast proof fn lemma_shape(self)
        ensures
            #[trigger] self.spec_bytes().len() == 16,
            self.spec_len() <= 16,
    {
    }

    pub fn new(bytes: [u8; RAW_REPORT_INSN_BYTES], specified_len: usize) -> (r: Self)
        ensures
            r.spec_bytes() == bytes@,
            r.spec_len() == clamp16(specified_len as nat),
    {
        let len = if specified_len < RAW_REPORT_INSN_BYTES {
            specified_len
        } else {
            RAW_REPORT_INSN_BYTES
        };
        Self { bytes, specified_len: len }
    }

    /// The first (at most 16) bytes of `bytes`, zero-padded.
    pub fn from_slice(bytes: &[u8]) -> (r: Self)
        ensures
            r.spec_bytes() == zero_extend(bytes@.take(clamp16(bytes@.len()) as int)),
            r.spec_len() == clamp16(bytes@.len()),
    {
        let mut raw = [0u8; RAW_REPORT_INSN_BYTES];
        let len = if bytes.len() < RAW_REPORT_INSN_BYTES {
            bytes.len()
        } else {
            RAW_REPORT_INSN_BYTES
        };
        let mut i: usize = 0;
        while i < len
            invariant
                i <= len <= 16,
                len <= bytes@.len(),
                raw@.len() == 16,
                forall|j: int| 0 <= j < i ==> raw@[j] == bytes@[j],
                forall|j: int| i <= j < 16 ==> raw@[j] == 0u8,
            decreases len - i,
        {
            raw[i] = bytes[i];
            i = i + 1;
        }
        assert(raw@ =~= zero_extend(bytes@.take(len as int)));
        Self::new(raw, len)
    }

    pub fn bytes(&self) -> (r: &[u8; RAW_REPORT_INSN_BYTES])
        ensures
            r@ == self.spec_bytes(),
    {
        &self.bytes
    }

    pub fn specified_len(&self) -> (r: usize)
        ensures
            r as nat == self.spec_len(),
            r <= 16,
    {
        proof {
            use_type_invariant(self);
        }
        self.specified_len
    }

    /// Sets the specified length, clamped to 16.
    pub fn set_specified_len(&mut self, len: usize)
        ensures
            final(self).spec_bytes() == old(self).spec_bytes(),
            final(self).spec_len() == clamp16(len as nat),
    {
        self.specified_len = if len < RAW_REPORT_INSN_BYTES {
            len
        } else {
            RAW_REPORT_INSN_BYTES
        };
    }

    /// The first `min(len, 16)` bytes.
    pub fn executed_prefix(&self, len: usize) -> (r: &[u8])
        ensures
            r@ == self.spec_bytes().take(clamp16(len as nat) as int),
    {
        let n = if len < RAW_REPORT_INSN_BYTES {
            len
        } else {
            RAW_REPORT_INSN_BYTES
        };
        let s: &[u8] = self.bytes.as_slice();
        let r = &s[0..n];
        assert(r@ =~= self.spec_bytes().take(n as int));
        r
    }

    /// Hex of all 16 bytes.
    pub fn full_hex(&self) -> (r: String)
        ensures
            r@ == hex_pairs(self.spec_bytes()),
    {
        format_full_hex(self.bytes.as_slice())
    }

    /// Hex of the specified bytes.
    pub fn compact_hex(&self) -> (r: String)
        ensures
            r@ == hex_pairs(self.spec_specified()),
    {
        let n = self.specified_len();
        format_compact_hex(&self.bytes.as_slice()[0..n])
    }
}

impl Default for InstructionBytes {
    fn default() -> (r: Self)
        ensures
            r.spec_bytes() == Seq::new(16, |i: int| 0u8),
            r.spec_len() == 0,
    {
        let r = Self::new([0u8; RAW_REPORT_INSN_BYTES], 0);
        assert(r.spec_bytes() =~= Seq::new(16, |i: int| 0u8));
        r
    }
}

/// The lower-case hex digit of a nibble.
pub fn hex_digit(value: u8) -> (c: char)
    requires
        value < 16,
    ensures
        c == text::hex_char(value as nat),
{
    hex_digit_char(value as u64)
}

/// Two lower-case hex digits per byte.
pub fn format_full_hex(bytes: &[u8]) -> (r: String)
    ensures
        r@ == hex_pairs(bytes@),
{
    let mut out = String::new();
    let mut i: usize = 0;
    while i < bytes.len()
        invariant
            i <= bytes.len(),
            out@ == hex_pairs(bytes@.take(i as int)),
        decreases bytes.len() - i,
    {
        let b = bytes[i];
        assert(b >> 4 < 16) by (bit_vector);
        assert(b & 0x0f < 16) by (bit_vector);
        string_push(&mut out, hex_digit(b >> 4));
        string_push(&mut out, hex_digit(b & 0x0f));
        proof {
            assert(b >> 4 == b / 16) by (bit_vector);
            assert(b & 0x0f == b % 16) by (bit_vector);
            assert(bytes@.take(i + 1).drop_last() =~= bytes@.take(i as int));
        }
        i = i + 1;
    }
    assert(bytes@.take(bytes.len() as int) =~= bytes@);
    out
}

/// Same as [`format_full_hex`].
pub fn format_compact_hex(bytes: &[u8]) -> (r: String)
    ensures
        r@ == hex_pairs(bytes@),
{
    format_full_hex(bytes)
}

/// Whether `bytes` is lexicographically before `other`.
pub fn bytes_lt(a: &[u8], b: &[u8]) -> (r: bool)
    ensures
        r == lex_lt(a@, b@),
{
    let mut i: usize = 0;
    assert(a@.skip(0) =~= a@);
    assert(b@.skip(0) =~= b@);
    while i < a.len() && i < b.len() && a[i] == b[i]
        invariant
            i <= a.len(),
            i <= b.len(),
            lex_lt(a@, b@) == lex_lt(a@.skip(i as int), b@.skip(i as int)),
        decreases a.len() - i,
    {
        proof {
            assert(a@.skip(i as int).drop_first() =~= a@.skip(i + 1));
            assert(b@.skip(i as int).drop_first() =~= b@.skip(i + 1));
        }
        i = i + 1;
    }
    if i == a.len() {
        i < b.len()
    } else if i == b.len() {
        false
    } else {
        a[i] < b[i]
    }
}

// ---------------------------------------------------------------------------
// Hex parsing
// ---------------------------------------------------------------------------

/// Number of UTF-8 bytes of `c`.
pub open spec fn utf8_char_len(c: char) -> nat {
    if (c as u32) < 0x80 {
        1
    } else if (c as u32) < 0x800 {
        2
    } else if (c as u32) < 0x10000 {
        3
    } else {
        4
    }
}

/// Number of UTF-8 bytes of `s`.
pub open spec fn utf8_len(s: Seq<char>) -> nat
    decreases s.len(),
{
    if s.len() == 0 {
        0
    } else {
        utf8_len(s.drop_last()) + utf8_char_len(s.last())
    }
}

pub open spec fn msg_even_length() -> Seq<char> {
    "hex input must have an even length"@
}

pub open spec fn msg_too_long() -> Seq<char> {
    "hex input is longer than 16 bytes"@
}

pub open spec fn msg_not_utf8() -> Seq<char> {
    "hex input is not valid UTF-8"@
}

pub open spec fn msg_bad_byte(pair: Seq<char>) -> Seq<char> {
    "invalid hex byte '"@ + pair + "'"@
}

/// The value of a two-character hex pair, as `u8::from_str_radix(pair, 16)`.
pub open spec fn pair_value(pair: Seq<char>) -> Option<nat> {
    text::parse_hex_unsigned(pair, 255)
}

/// The error of the first two-byte chunk of `t` that does not parse, walking
/// `t` from the start in steps of two ASCII characters.
pub open spec fn first_bad_chunk(t: Seq<char>) -> Option<Seq<char>>
    decreases t.len(),
{
    if t.len() == 0 {
        None
    } else if (t[0] as u32) >= 0x80 {
        if utf8_char_len(t[0]) == 2 {
            Some(msg_bad_byte(seq![t[0]]))
        } else {
            Some(msg_not_utf8())
        }
    } else if t.len() == 1 {
        None
    } else if (t[1] as u32) >= 0x80 {
        Some(msg_not_utf8())
    } else if pair_value(t.take(2)) is None {
        Some(msg_bad_byte(t.take(2)))
    } else {
        first_bad_chunk(t.skip(2))
    }
}

/// The bytes of an all-ASCII, even-length hex string.
pub open spec fn hex_bytes(t: Seq<char>) -> Seq<u8> {
    Seq::new(t.len() / 2, |k: int| pair_value(t.subrange(2 * k, 2 * k + 2))->0 as u8)
}

/// What `parse_hex_instruction` gives for `input`: the bytes, or the error message.
pub open spec fn spec_parse_hex(input: Seq<char>) -> Result<Seq<u8>, Seq<char>> {
    let t = text::trim(input);
    let n = utf8_len(t);
    if n % 2 != 0 {
        Err(msg_even_length())
    } else if n / 2 > 16 {
        Err(msg_too_long())
    } else {
        match first_bad_chunk(t) {
            Some(e) => Err(e),
            None => Ok(hex_bytes(t)),
        }
    }
}

proof fn lemma_utf8_len_ascii(s: Seq<char>)
    requires
        forall|i: int| 0 <= i < s.len() ==> (s[i] as u32) < 0x80,
    ensures
        utf8_len(s) == s.len(),
    decreases s.len(),
{
    if s.len() > 0 {
        lemma_utf8_len_ascii(s.drop_last());
    }
}

proof fn lemma_utf8_len_ge(s: Seq<char>)
    ensures
        utf8_len(s) >= s.len(),
    decreases s.len(),
{
    if s.len() > 0 {
        lemma_utf8_len_ge(s.drop_last());
    }
}

proof fn lemma_utf8_len_le(s: Seq<char>)
    ensures
        utf8_len(s) <= 4 * s.len(),
    decreases s.len(),
{
    if s.len() > 0 {
        lemma_utf8_len_le(s.drop_last());
    }
}

/// Number of UTF-8 bytes of `s`.
fn utf8_len_of(s: &[char]) -> (n: u128)
    ensures
        n as nat == utf8_len(s@),
{
    let mut n: u128 = 0;
    let mut i: usize = 0;
    while i < s.len()
        invariant
            i <= s.len(),
            n as nat == utf8_len(s@.take(i as int)),
        decreases s.len() - i,
    {
        let v = s[i] as u32;
        let w: u128 = if v < 0x80 {
            1
        } else if v < 0x800 {
            2
        } else if v < 0x10000 {
            3
        } else {
            4
        };
        assert(s@.take(i + 1).drop_last() =~= s@.take(i as int));
        proof {
            lemma_utf8_len_le(s@.take(i + 1));
        }
        n = n + w;
        i = i + 1;
    }
    assert(s@.take(s.len() as int) =~= s@);
    n
}

/// Builds `"invalid hex byte '<pair>'"`.
fn bad_byte_message(pair: &[char]) -> (r: String)
    ensures
        r@ == msg_bad_byte(pair@),
{
    let mut out = String::new();
    push_str(&mut out, "invalid hex byte '");
    push_chars(&mut out, pair);
    push_str(&mut out, "'");
    out
}

/// Parses up to 16 bytes written as hex digit pairs, surrounding whitespace
/// ignored.
pub fn parse_hex_instruction(input: &str) -> (r: Result<InstructionBytes, String>)
    ensures
        match r {
            Ok(ib) => spec_parse_hex(input@) is Ok && ib.spec_bytes() == zero_extend(
                spec_parse_hex(input@)->Ok_0,
            ) && ib.spec_len() == spec_parse_hex(input@)->Ok_0.len(),
            Err(e) => spec_parse_hex(input@) == Err::<Seq<u8>, Seq<char>>(e@),
        },
{
    let all = chars_of(input);
    let t = trim_chars(all.as_slice());
    let n = utf8_len_of(t.as_slice());
    if n % 2 != 0 {
        return Err(String::from_str("hex input must have an even length"));
    }
    if n / 2 > 16 {
        return Err(String::from_str("hex input is longer than 16 bytes"));
    }
    let mut raw = [0u8; RAW_REPORT_INSN_BYTES];
    let mut pos: usize = 0;
    assert(t@.skip(0) =~= t@);
    // walk two ASCII characters at a time
    while pos < t.len()
        invariant
            pos <= t.len(),
            pos % 2 == 0,
            t@ == text::trim(input@),
            utf8_len(t@) <= 32,
            utf8_len(t@) % 2 == 0,
            raw@.len() == 16,
            forall|i: int| 0 <= i < pos ==> (t@[i] as u32) < 0x80,
            first_bad_chunk(t@) == first_bad_chunk(t@.skip(pos as int)),
            forall|k: int|
                0 <= k < pos / 2 ==> #[trigger] pair_value(t@.subrange(2 * k, 2 * k + 2)) is Some
                    && raw@[k] == pair_value(t@.subrange(2 * k, 2 * k + 2))->0 as u8,
            forall|k: int| pos / 2 <= k < 16 ==> raw@[k] == 0u8,
        decreases t.len() - pos,
    {
        let ghost rest = t@.skip(pos as int);
        let c0 = t[pos];
        if c0 as u32 >= 0x80 {
            if (c0 as u32) < 0x800 {
                let one = copy_range(t.as_slice(), pos, pos + 1);
                assert(one@ =~= seq![rest[0]]);
                return Err(bad_byte_message(one.as_slice()));
            }
            return Err(String::from_str("hex input is not valid UTF-8"));
        }
        if pos + 1 == t.len() {
            proof {
                lemma_utf8_len_ascii(t@);
                assert(false);
            }
        }
        let c1 = t[pos + 1];
        if c1 as u32 >= 0x80 {
            return Err(String::from_str("hex input is not valid UTF-8"));
        }
        let pair = copy_range(t.as_slice(), pos, pos + 2);
        assert(pair@ =~= rest.take(2));
        assert(pair@ =~= t@.subrange(pos as int, pos + 2));
        match parse_hex(pair.as_slice(), 255) {
            None => {
                return Err(bad_byte_message(pair.as_slice()));
            },
            Some(v) => {
                proof {
                    lemma_utf8_len_ge(t@);
                }
                let ghost old_raw = raw@;
                let ghost old_pos = pos;
                raw[pos / 2] = v as u8;
                assert(2 * (pos / 2) == pos);
                assert(pair_value(t@.subrange(pos as int, pos + 2)) == Some(v as nat));
                assert(raw@[(pos / 2) as int] == v as u8);
                assert(rest.skip(2) =~= t@.skip(pos + 2));
                pos = pos + 2;
                assert forall|k: int| 0 <= k < pos / 2 implies #[trigger] pair_value(
                    t@.subrange(2 * k, 2 * k + 2),
                ) is Some && raw@[k] == pair_value(t@.subrange(2 * k, 2 * k + 2))->0 as u8 by {
                    if k < old_pos / 2 {
                        assert(raw@[k] == old_raw[k]);
                    } else {
                        assert(k == old_pos / 2);
                        assert(2 * k == old_pos);
                    }
                }
            },
        }
    }
    proof {
        lemma_utf8_len_ascii(t@);
        assert(t@.skip(pos as int) =~= Seq::<char>::empty());
        assert(raw@ =~= zero_extend(hex_bytes(t@)));
    }
    Ok(InstructionBytes::new(raw, t.len() / 2))
}

// ---------------------------------------------------------------------------
// Hex round trip
// ---------------------------------------------------------------------------

/// Two digits per byte: the high nibble, then the low one.
pub proof fn lemma_hex_pairs_shape(b: Seq<u8>)
    ensures
        hex_pairs(b).len() == 2 * b.len(),
        forall|k: int|
            #![trigger b[k]]
            0 <= k < b.len() ==> hex_pairs(b)[2 * k] == text::hex_char((b[k] / 16) as nat)
                && hex_pairs(b)[2 * k + 1] == text::hex_char((b[k] % 16) as nat),
    decreases b.len(),
{
    if b.len() > 0 {
        let init = b.drop_last();
        lemma_hex_pairs_shape(init);
        assert forall|k: int| #![trigger b[k]] 0 <= k < b.len() implies hex_pairs(b)[2 * k]
            == text::hex_char((b[k] / 16) as nat) && hex_pairs(b)[2 * k + 1] == text::hex_char(
            (b[k] % 16) as nat,
        ) by {
            if k < init.len() {
                assert(init[k] == b[k]);
            }
        }
    }
}

/// A nibble's digit is an ASCII hex digit worth the nibble.
proof fn lemma_nibble_char(m: nat)
    requires
        m < 16,
    ensures
        text::is_hex_digit(text::hex_char(m)),
        (text::hex_char(m) as u32) < 0x80,
        text::hex_value(text::hex_char(m)) == m,
{
}

/// Every character of `hex_pairs(b)` is an ASCII hex digit.
pub proof fn lemma_hex_pairs_digits(b: Seq<u8>)
    ensures
        forall|i: int|
            0 <= i < hex_pairs(b).len() ==> text::is_hex_digit(#[trigger] hex_pairs(b)[i]) && (
            hex_pairs(b)[i] as u32) < 0x80,
{
    lemma_hex_pairs_shape(b);
    assert forall|i: int| 0 <= i < hex_pairs(b).len() implies text::is_hex_digit(
        #[trigger] hex_pairs(b)[i],
    ) && (hex_pairs(b)[i] as u32) < 0x80 by {
        let k = i / 2;
        assert(0 <= k < b.len());
        let v = b[k];
        lemma_nibble_char((v / 16) as nat);
        lemma_nibble_char((v % 16) as nat);
        if i % 2 == 0 {
            assert(i == 2 * k);
        } else {
            assert(i == 2 * k + 1);
        }
    }
}

/// A pair of hex digits reads as its value.
proof fn lemma_pair_value(p: Seq<char>)
    requires
        p.len() == 2,
        text::is_hex_digit(p[0]),
        text::is_hex_digit(p[1]),
    ensures
        pair_value(p) == Some(text::hex_value(p[0]) * 16 + text::hex_value(p[1])),
{
    let q = p.drop_last();
    assert(q.drop_last() =~= Seq::<char>::empty());
    assert(text::hex_seq_value(Seq::<char>::empty()) == 0);
    assert(q.last() == p[0]);
    assert(text::hex_seq_value(q) == text::hex_seq_value(q.drop_last()) * 16 + text::hex_value(
        q.last(),
    ));
    assert(text::hex_seq_value(q) == text::hex_value(p[0]));
    assert(text::unsigned_body(p) == p);
    assert(text::all_hex_digits(p));
}

/// Even-length runs of hex digits have no bad chunk.
proof fn lemma_no_bad_chunk(t: Seq<char>)
    requires
        t.len() % 2 == 0,
        forall|i: int| 0 <= i < t.len() ==> text::is_hex_digit(#[trigger] t[i]) && (t[i] as u32)
            < 0x80,
    ensures
        first_bad_chunk(t) is None,
    decreases t.len(),
{
    if t.len() > 0 {
        let p = t.take(2);
        assert(p[0] == t[0] && p[1] == t[1]);
        lemma_pair_value(p);
        let rest = t.skip(2);
        assert forall|i: int| 0 <= i < rest.len() implies text::is_hex_digit(#[trigger] rest[i])
            && (rest[i] as u32) < 0x80 by {
            assert(rest[i] == t[i + 2]);
        }
        lemma_no_bad_chunk(rest);
    }
}

/// No character of a hex pair form is whitespace or a tab.
pub proof fn lemma_hex_pair_char_plain(b: Seq<u8>, i: int)
    requires
        0 <= i < 2 * b.len(),
    ensures
        !text::is_ws(hex_pairs(b)[i]),
        hex_pairs(b)[i] != '\t',
{
    lemma_hex_pairs_shape(b);
    let k = i / 2;
    let v = b[k];
    if i % 2 == 0 {
        assert(i == 2 * k);
    } else {
        assert(i == 2 * k + 1);
    }
}

/// Parsing the hex form of at most 16 bytes gives the bytes back.
pub proof fn lemma_hex_round_trip(b: Seq<u8>)
    requires
        b.len() <= 16,
    ensures
        spec_parse_hex(hex_pairs(b)) == Ok::<Seq<u8>, Seq<char>>(b),
{
    let t = hex_pairs(b);
    lemma_hex_pairs_shape(b);
    lemma_hex_pairs_digits(b);
    if t.len() > 0 {
        assert(!text::is_ws(t[0]));
        assert(!text::is_ws(t.last()));
    }
    assert(text::trim_start(t) == t);
    assert(text::trim_end(t) == t);
    lemma_utf8_len_ascii(t);
    lemma_no_bad_chunk(t);
    assert forall|k: int| 0 <= k < b.len() implies hex_bytes(t)[k] == b[k] by {
        let v = b[k];
        let p = t.subrange(2 * k, 2 * k + 2);
        assert(p[0] == t[2 * k] && p[1] == t[2 * k + 1]);
        lemma_nibble_char((v / 16) as nat);
        lemma_nibble_char((v % 16) as nat);
        lemma_pair_value(p);
        assert((v / 16) * 16 + v % 16 == v);
    }
    assert(hex_bytes(t) =~= b);
}

/// Parsing the hex form of at most 16 bytes, with any whitespace before and
/// after it, gives the bytes back.
pub proof fn lemma_hex_round_trip_padded(b: Seq<u8>, pre: Seq<char>, post: Seq<char>)
    requires
        b.len() <= 16,
        forall|i: int| 0 <= i < pre.len() ==> text::is_ws(#[trigger] pre[i]),
        forall|i: int| 0 <= i < post.len() ==> text::is_ws(#[trigger] post[i]),
    ensures
        spec_parse_hex(pre + hex_pairs(b) + post) == Ok::<Seq<u8>, Seq<char>>(b),
{
    let t = hex_pairs(b);
    lemma_hex_round_trip(b);
    lemma_hex_pairs_shape(b);
    lemma_hex_pairs_digits(b);
    if t.len() > 0 {
        assert(text::is_hex_digit(t[0]));
        assert(text::is_hex_digit(t[t.len() - 1]));
    }
    crate::text_laws::lemma_trim_padded(pre, t, post);
    crate::text_laws::lemma_trim_padded(Seq::empty(), t, Seq::empty());
    assert(Seq::<char>::empty() + t + Seq::<char>::empty() =~= t);
}

// ---------------------------------------------------------------------------
// Byte string order
// ---------------------------------------------------------------------------

/// No byte string is before itself.
pub proof fn lemma_lex_irreflexive(a: Seq<u8>)
    ensures
        !lex_lt(a, a),
    decreases a.len(),
{
    if a.len() > 0 {
        lemma_lex_irreflexive(a.drop_first());
    }
}

/// The byte string order is transitive.
pub proof fn lemma_lex_transitive(a: Seq<u8>, b: Seq<u8>, c: Seq<u8>)
    requires
        lex_lt(a, b),
        lex_lt(b, c),
    ensures
        lex_lt(a, c),
    decreases a.len(),
{
    if a.len() > 0 && b.len() > 0 && c.len() > 0 && a[0] == b[0] && b[0] == c[0] {
        lemma_lex_transitive(a.drop_first(), b.drop_first(), c.drop_first());
    }
}

/// Of two different byte strings, one is before the other.
pub proof fn lemma_lex_total(a: Seq<u8>, b: Seq<u8>)
    requires
        a != b,
        !lex_lt(a, b),
    ensures
        lex_lt(b, a),
    decreases a.len(),
{
    if a.len() == 0 {
        assert(b.len() == 0 ==> a =~= b);
    } else if b.len() > 0 && a[0] == b[0] {
        if a.drop_first() == b.drop_first() {
            assert(a.drop_first().len() == b.drop_first().len());
            assert(a.len() == b.len());
            assert forall|i: int| 0 <= i < a.len() implies a[i] == b[i] by {
                if i > 0 {
                    assert(a[i] == a.drop_first()[i - 1]);
                    assert(b[i] == b.drop_first()[i - 1]);
                }
            }
            assert(a =~= b);
        }
        lemma_lex_total(a.drop_first(), b.drop_first());
    }
}

} // verus!
