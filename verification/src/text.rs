//! Character-level helpers: the parts of `str` that the formats of this crate
//! rely on (trimming, line and field splitting, decimal and hex numbers),
//! stated over `Seq<char>` and implemented by verified loops.
use vstd::prelude::*;

verus! {

// ---------------------------------------------------------------------------
// Specifications
// ---------------------------------------------------------------------------

/// `char::is_whitespace`: the characters with the Unicode `White_Space` property.
pub open spec fn is_ws(c: char) -> bool {
    let v = c as u32;
    ||| v == 0x20
    ||| 0x09 <= v <= 0x0d
    ||| v == 0x85
    ||| v == 0xa0
    ||| v == 0x1680
    ||| 0x2000 <= v <= 0x200a
    ||| v == 0x2028
    ||| v == 0x2029
    ||| v == 0x202f
    ||| v == 0x205f
    ||| v == 0x3000
}

/// `str::trim_start`.
pub open spec fn trim_start(s: Seq<char>) -> Seq<char>
    decreases s.len(),
{
    if s.len() > 0 && is_ws(s[0]) {
        trim_start(s.drop_first())
    } else {
        s
    }
}

/// `str::trim_end`.
pub open spec fn trim_end(s: Seq<char>) -> Seq<char>
    decreases s.len(),
{
    if s.len() > 0 && is_ws(s.last()) {
        trim_end(s.drop_last())
    } else {
        s
    }
}

/// `str::trim`.
pub open spec fn trim(s: Seq<char>) -> Seq<char> {
    trim_end(trim_start(s))
}

/// Index of the first `c` in `s`, or `s.len()` when there is none.
pub open spec fn first_index(s: Seq<char>, c: char) -> nat
    decreases s.len(),
{
    if s.len() == 0 || s[0] == c {
        0
    } else {
        1 + first_index(s.drop_first(), c)
    }
}

/// Drops one trailing carriage return.
pub open spec fn strip_cr(s: Seq<char>) -> Seq<char> {
    if s.len() > 0 && s.last() == '\r' {
        s.drop_last()
    } else {
        s
    }
}

/// `s` is one line: it holds no `\n` and does not end in `\r`.
pub open spec fn is_one_line(s: Seq<char>) -> bool {
    &&& !s.contains('\n')
    &&& (s.len() == 0 || s.last() != '\r')
}

/// `str::lines`: split at `\n`, a `\r` just before a `\n` dropped, no empty
/// last line for a trailing line ending.
pub open spec fn lines(s: Seq<char>) -> Seq<Seq<char>>
    decreases s.len(),
{
    if s.len() == 0 {
        Seq::empty()
    } else {
        let k = first_index(s, '\n');
        if k < s.len() {
            seq![strip_cr(s.take(k as int))] + lines(s.skip(k + 1int))
        } else {
            seq![s]
        }
    }
}

/// `str::split(c)` for a single character: always at least one field.
pub open spec fn split_char(s: Seq<char>, c: char) -> Seq<Seq<char>>
    decreases s.len(),
{
    let k = first_index(s, c);
    if k < s.len() {
        seq![s.take(k as int)] + split_char(s.skip(k + 1int), c)
    } else {
        seq![s]
    }
}

/// `str::split_once(c)` for a single character.
pub open spec fn split_once(s: Seq<char>, c: char) -> Option<(Seq<char>, Seq<char>)> {
    let k = first_index(s, c);
    if k < s.len() {
        Some((s.take(k as int), s.skip(k + 1int)))
    } else {
        None
    }
}

/// Length of the leading run of non-whitespace characters.
pub open spec fn word_len(s: Seq<char>) -> nat
    decreases s.len(),
{
    if s.len() == 0 || is_ws(s[0]) {
        0
    } else {
        1 + word_len(s.drop_first())
    }
}

/// `str::split_whitespace`: the maximal runs of non-whitespace characters.
pub open spec fn words(s: Seq<char>) -> Seq<Seq<char>>
    decreases s.len(),
{
    if s.len() == 0 {
        Seq::empty()
    } else if is_ws(s[0]) {
        words(s.drop_first())
    } else {
        let k = word_len(s);
        proof {
            lemma_word_len_bound(s);
        }
        seq![s.take(k as int)] + words(s.skip(k as int))
    }
}

pub open spec fn is_digit(c: char) -> bool {
    '0' <= c && c <= '9'
}

pub open spec fn digit_value(c: char) -> nat {
    (c as u32 - '0' as u32) as nat
}

/// Value of a sequence of decimal digits.
pub open spec fn decimal_value(d: Seq<char>) -> nat
    decreases d.len(),
{
    if d.len() == 0 {
        0
    } else {
        decimal_value(d.drop_last()) * 10 + digit_value(d.last())
    }
}

pub open spec fn all_digits(d: Seq<char>) -> bool {
    forall|i: int| 0 <= i < d.len() ==> is_digit(#[trigger] d[i])
}

/// The text after an optional leading `+`.
pub open spec fn unsigned_body(s: Seq<char>) -> Seq<char> {
    if s.len() > 0 && s[0] == '+' {
        s.drop_first()
    } else {
        s
    }
}

/// `str::parse` for an unsigned integer type whose largest value is `max`:
/// an optional `+`, then at least one decimal digit, the value at most `max`.
pub open spec fn parse_unsigned(s: Seq<char>, max: nat) -> Option<nat> {
    let d = unsigned_body(s);
    if d.len() == 0 || !all_digits(d) || decimal_value(d) > max {
        None
    } else {
        Some(decimal_value(d))
    }
}

pub open spec fn is_hex_digit(c: char) -> bool {
    ||| is_digit(c)
    ||| ('a' <= c && c <= 'f')
    ||| ('A' <= c && c <= 'F')
}

pub open spec fn hex_value(c: char) -> nat {
    if is_digit(c) {
        digit_value(c)
    } else if 'a' <= c && c <= 'f' {
        (c as u32 - 'a' as u32 + 10) as nat
    } else {
        (c as u32 - 'A' as u32 + 10) as nat
    }
}

/// Value of a sequence of hex digits.
pub open spec fn hex_seq_value(d: Seq<char>) -> nat
    decreases d.len(),
{
    if d.len() == 0 {
        0
    } else {
        hex_seq_value(d.drop_last()) * 16 + hex_value(d.last())
    }
}

pub open spec fn all_hex_digits(d: Seq<char>) -> bool {
    forall|i: int| 0 <= i < d.len() ==> is_hex_digit(#[trigger] d[i])
}

/// `from_str_radix(s, 16)` for an unsigned type whose largest value is `max`.
pub open spec fn parse_hex_unsigned(s: Seq<char>, max: nat) -> Option<nat> {
    let d = unsigned_body(s);
    if d.len() == 0 || !all_hex_digits(d) || hex_seq_value(d) > max {
        None
    } else {
        Some(hex_seq_value(d))
    }
}

/// The decimal digit for `n < 10`.
pub open spec fn decimal_char(n: nat) -> char {
    ((n + '0' as u32) as u32) as char
}

/// The lower-case hex digit for `n < 16`.
pub open spec fn hex_char(n: nat) -> char {
    if n < 10 {
        ((n + '0' as u32) as u32) as char
    } else {
        ((n - 10 + 'a' as u32) as u32) as char
    }
}

/// `n.to_string()`: decimal digits, no leading zeros.
pub open spec fn decimal(n: nat) -> Seq<char>
    decreases n,
{
    if n < 10 {
        seq![decimal_char(n)]
    } else {
        decimal(n / 10).push(decimal_char(n % 10))
    }
}

/// `format!("{:x}", n)`: lower-case hex digits, no leading zeros.
pub open spec fn hex(n: nat) -> Seq<char>
    decreases n,
{
    if n < 16 {
        seq![hex_char(n)]
    } else {
        hex(n / 16).push(hex_char(n % 16))
    }
}

/// `parts` joined with `sep` between neighbours, as `[..].join(sep)` does.
pub open spec fn join(parts: Seq<Seq<char>>, sep: char) -> Seq<char>
    decreases parts.len(),
{
    if parts.len() == 0 {
        Seq::empty()
    } else if parts.len() == 1 {
        parts[0]
    } else {
        join(parts.drop_last(), sep) + seq![sep] + parts.last()
    }
}

/// The characters of an optional string.
pub open spec fn opt_view(o: Option<String>) -> Option<Seq<char>> {
    match o {
        Some(s) => Some(s@),
        None => None,
    }
}

/// `split_once(':')` with both sides trimmed.
pub open spec fn key_value(line: Seq<char>) -> Option<(Seq<char>, Seq<char>)> {
    match split_once(line, ':') {
        Some((k, v)) => Some((trim(k), trim(v))),
        None => None,
    }
}

/// Lexicographic order on character strings, as `str` and `String` compare.
pub open spec fn chars_lt(a: Seq<char>, b: Seq<char>) -> bool
    decreases a.len(),
{
    if a.len() == 0 {
        b.len() > 0
    } else if b.len() == 0 {
        false
    } else if a[0] != b[0] {
        a[0] < b[0]
    } else {
        chars_lt(a.drop_first(), b.drop_first())
    }
}

/// The character views of a sequence of strings.
pub open spec fn views(parts: Seq<String>) -> Seq<Seq<char>> {
    parts.map_values(|s: String| s@)
}

/// `s` right-aligned in a field of `width` characters filled with `fill`.
pub open spec fn pad_left(s: Seq<char>, width: nat, fill: char) -> Seq<char> {
    if s.len() < width {
        Seq::new((width - s.len()) as nat, |i: int| fill) + s
    } else {
        s
    }
}

/// `format!("{:w}", n)` for an integer.
pub open spec fn decimal_w(n: nat, width: nat) -> Seq<char> {
    pad_left(decimal(n), width, ' ')
}

/// `format!("{:0w$}", n)`.
pub open spec fn decimal_zw(n: nat, width: nat) -> Seq<char> {
    pad_left(decimal(n), width, '0')
}

/// `s` left-aligned in a field of `width` characters filled with `fill`.
pub open spec fn pad_right(s: Seq<char>, width: nat, fill: char) -> Seq<char> {
    if s.len() < width {
        s + Seq::new((width - s.len()) as nat, |i: int| fill)
    } else {
        s
    }
}

/// `format!("{:<w}", n)` for an integer.
pub open spec fn decimal_lw(n: nat, width: nat) -> Seq<char> {
    pad_right(decimal(n), width, ' ')
}

/// `format!("{:0w$x}", n)`.
pub open spec fn hex_zw(n: nat, width: nat) -> Seq<char> {
    pad_left(hex(n), width, '0')
}

// ---------------------------------------------------------------------------
// Lemmas
// ---------------------------------------------------------------------------

pub proof fn lemma_word_len_bound(s: Seq<char>)
    ensures
        word_len(s) <= s.len(),
        s.len() > 0 && !is_ws(s[0]) ==> word_len(s) >= 1,
    decreases s.len(),
{
    if s.len() > 0 && !is_ws(s[0]) {
        lemma_word_len_bound(s.drop_first());
    }
}

/// `first_index` is the position of the first `c`.
pub proof fn lemma_first_index_at(s: Seq<char>, c: char, m: int)
    requires
        0 <= m <= s.len(),
        forall|i: int| 0 <= i < m ==> s[i] != c,
        m == s.len() || s[m] == c,
    ensures
        first_index(s, c) == m,
    decreases m,
{
    if m > 0 {
        lemma_first_index_at(s.drop_first(), c, m - 1);
    }
}

/// `word_len` is the length of the leading non-whitespace run.
pub proof fn lemma_word_len_at(s: Seq<char>, m: int)
    requires
        0 <= m <= s.len(),
        forall|i: int| 0 <= i < m ==> !is_ws(s[i]),
        m == s.len() || is_ws(s[m]),
    ensures
        word_len(s) == m,
    decreases m,
{
    if m > 0 {
        lemma_word_len_at(s.drop_first(), m - 1);
    }
}

pub proof fn lemma_decimal_step(d: Seq<char>, i: int)
    requires
        0 <= i < d.len(),
    ensures
        decimal_value(d.take(i + 1)) == decimal_value(d.take(i)) * 10 + digit_value(d[i]),
{
    assert(d.take(i + 1).drop_last() =~= d.take(i));
}

pub proof fn lemma_hex_step(d: Seq<char>, i: int)
    requires
        0 <= i < d.len(),
    ensures
        hex_seq_value(d.take(i + 1)) == hex_seq_value(d.take(i)) * 16 + hex_value(d[i]),
{
    assert(d.take(i + 1).drop_last() =~= d.take(i));
}

/// The value of a digit string is at least that of each of its prefixes.
pub proof fn lemma_decimal_prefix_le(d: Seq<char>, i: int)
    requires
        0 <= i <= d.len(),
    ensures
        decimal_value(d.take(i)) <= decimal_value(d),
    decreases d.len() - i,
{
    if i < d.len() {
        lemma_decimal_step(d, i);
        lemma_decimal_prefix_le(d, i + 1);
    } else {
        assert(d.take(i) =~= d);
    }
}

pub proof fn lemma_hex_prefix_le(d: Seq<char>, i: int)
    requires
        0 <= i <= d.len(),
    ensures
        hex_seq_value(d.take(i)) <= hex_seq_value(d),
    decreases d.len() - i,
{
    if i < d.len() {
        lemma_hex_step(d, i);
        lemma_hex_prefix_le(d, i + 1);
    } else {
        assert(d.take(i) =~= d);
    }
}

pub open spec fn pow_of(base: nat, e: nat) -> nat
    decreases e,
{
    if e == 0 {
        1
    } else {
        base * pow_of(base, (e - 1) as nat)
    }
}

/// A number below `10^b` (with `b >= 1`) has at most `b` decimal digits.
pub proof fn lemma_decimal_len(n: nat, b: nat)
    requires
        b >= 1,
        n < pow_of(10, b),
    ensures
        1 <= decimal(n).len() <= b,
    decreases n,
{
    if n >= 10 {
        if b == 1 {
            assert(pow_of(10, 1) == 10 * pow_of(10, 0));
        } else {
            assert(pow_of(10, b) == 10 * pow_of(10, (b - 1) as nat));
            assert(n / 10 < pow_of(10, (b - 1) as nat));
            lemma_decimal_len(n / 10, (b - 1) as nat);
        }
    }
}

/// A number below `16^b` (with `b >= 1`) has at most `b` hex digits.
pub proof fn lemma_hex_len(n: nat, b: nat)
    requires
        b >= 1,
        n < pow_of(16, b),
    ensures
        1 <= hex(n).len() <= b,
    decreases n,
{
    if n >= 16 {
        if b == 1 {
            assert(pow_of(16, 1) == 16 * pow_of(16, 0));
        } else {
            assert(pow_of(16, b) == 16 * pow_of(16, (b - 1) as nat));
            assert(n / 16 < pow_of(16, (b - 1) as nat));
            lemma_hex_len(n / 16, (b - 1) as nat);
        }
    }
}

pub proof fn lemma_u64_digit_bounds(n: u64)
    ensures
        1 <= decimal(n as nat).len() <= 20,
        1 <= hex(n as nat).len() <= 16,
{
    reveal_with_fuel(pow_of, 21);
    assert(pow_of(10, 20) == 100_000_000_000_000_000_000);
    assert(pow_of(16, 16) == 0x1_0000_0000_0000_0000);
    lemma_decimal_len(n as nat, 20);
    lemma_hex_len(n as nat, 16);
}

/// The characters of a `Vec<char>` are its deep view.
pub proof fn lemma_chars_deep(v: Vec<char>)
    ensures
        v.deep_view() == v@,
{
    assert(v.deep_view() =~= v@);
}

// ---------------------------------------------------------------------------
// Executable helpers
// ---------------------------------------------------------------------------

/// Appends `c` to `s` with `String::push`.
#[verifier::external_body]
pub(crate) fn string_push(s: &mut String, c: char)
    ensures
        final(s)@ == old(s)@.push(c),
{
    s.push(c);
}

/// The characters of `s`, in order.
pub fn chars_of(s: &str) -> (v: Vec<char>)
    ensures
        v@ == s@,
{
    let mut v: Vec<char> = Vec::new();
    for c in it: s.chars()
        invariant
            v@ == it.seq().take(it.index() as int),
            it.seq() == s@,
    {
        v.push(c);
    }
    v
}

/// Appends the characters of `cs` to `out`.
pub fn push_chars(out: &mut String, cs: &[char])
    ensures
        final(out)@ == old(out)@ + cs@,
{
    let ghost start = out@;
    let mut i: usize = 0;
    while i < cs.len()
        invariant
            i <= cs.len(),
            out@ == start + cs@.take(i as int),
        decreases cs.len() - i,
    {
        string_push(out, cs[i]);
        assert(cs@.take(i + 1) =~= cs@.take(i as int).push(cs@[i as int]));
        i = i + 1;
    }
    assert(cs@.take(cs.len() as int) =~= cs@);
}

/// A `String` holding exactly `cs`.
pub fn string_of(cs: &[char]) -> (s: String)
    ensures
        s@ == cs@,
{
    let mut s = String::new();
    push_chars(&mut s, cs);
    s
}

/// Appends `t` to `out`.
pub fn push_str(out: &mut String, t: &str)
    ensures
        final(out)@ == old(out)@ + t@,
{
    out.append(t);
}

/// The characters `s[lo..hi]`.
pub fn copy_range(s: &[char], lo: usize, hi: usize) -> (v: Vec<char>)
    requires
        lo <= hi <= s.len(),
    ensures
        v@ == s@.subrange(lo as int, hi as int),
{
    let mut v: Vec<char> = Vec::new();
    let mut i = lo;
    while i < hi
        invariant
            lo <= i <= hi,
            hi <= s.len(),
            v@ == s@.subrange(lo as int, i as int),
        decreases hi - i,
    {
        v.push(s[i]);
        assert(s@.subrange(lo as int, i + 1) =~= s@.subrange(lo as int, i as int).push(s@[i as int]));
        i = i + 1;
    }
    v
}

/// Whether `s` and `t` hold the same characters.
pub fn chars_eq(s: &[char], t: &str) -> (r: bool)
    ensures
        r == (s@ == t@),
{
    let tv = chars_of(t);
    if s.len() != tv.len() {
        return false;
    }
    let mut i: usize = 0;
    while i < s.len()
        invariant
            i <= s.len(),
            s@.len() == tv@.len(),
            tv@ == t@,
            forall|j: int| 0 <= j < i ==> s@[j] == tv@[j],
        decreases s.len() - i,
    {
        if s[i] != tv[i] {
            assert(s@[i as int] != t@[i as int]);
            return false;
        }
        i = i + 1;
    }
    assert(s@ =~= tv@);
    true
}

/// `char::is_whitespace`.
pub fn is_whitespace(c: char) -> (r: bool)
    ensures
        r == is_ws(c),
{
    let v = c as u32;
    v == 0x20 || (0x09 <= v && v <= 0x0d) || v == 0x85 || v == 0xa0 || v == 0x1680 || (0x2000
        <= v && v <= 0x200a) || v == 0x2028 || v == 0x2029 || v == 0x202f || v == 0x205f || v
        == 0x3000
}

pub proof fn lemma_trim_start_skip(s: Seq<char>, i: int)
    requires
        0 <= i <= s.len(),
        forall|j: int| 0 <= j < i ==> is_ws(s[j]),
    ensures
        trim_start(s) == trim_start(s.skip(i)),
    decreases i,
{
    if i > 0 {
        assert(s.skip(1) =~= s.drop_first());
        lemma_trim_start_skip(s.drop_first(), i - 1);
        assert(s.drop_first().skip(i - 1) =~= s.skip(i));
    } else {
        assert(s.skip(0) =~= s);
    }
}

pub proof fn lemma_trim_end_take(s: Seq<char>, i: int)
    requires
        0 <= i <= s.len(),
        forall|j: int| i <= j < s.len() ==> is_ws(s[j]),
    ensures
        trim_end(s) == trim_end(s.take(i)),
    decreases s.len() - i,
{
    if i < s.len() {
        lemma_trim_end_take(s.drop_last(), i);
        assert(s.drop_last().take(i) =~= s.take(i));
    } else {
        assert(s.take(i) =~= s);
    }
}

/// `trim(s)` is `s[lo..hi]`.
pub fn trim_bounds(s: &[char]) -> (r: (usize, usize))
    ensures
        r.0 <= r.1 <= s.len(),
        s@.subrange(r.0 as int, r.1 as int) == trim(s@),
        s@.subrange(r.0 as int, s.len() as int) == trim_start(s@),
{
    let mut lo: usize = 0;
    while lo < s.len() && is_whitespace(s[lo])
        invariant
            lo <= s.len(),
            forall|j: int| 0 <= j < lo ==> is_ws(s@[j]),
        decreases s.len() - lo,
    {
        lo = lo + 1;
    }
    proof {
        lemma_trim_start_skip(s@, lo as int);
        assert(s@.skip(lo as int) =~= s@.subrange(lo as int, s.len() as int));
    }
    let ghost t = s@.subrange(lo as int, s.len() as int);
    let mut hi: usize = s.len();
    while hi > lo && is_whitespace(s[hi - 1])
        invariant
            lo <= hi <= s.len(),
            t == s@.subrange(lo as int, s.len() as int),
            forall|j: int| hi <= j < s.len() ==> is_ws(s@[j]),
        decreases hi,
    {
        hi = hi - 1;
    }
    proof {
        lemma_trim_end_take(t, hi - lo);
        assert(t.take(hi - lo) =~= s@.subrange(lo as int, hi as int));
    }
    (lo, hi)
}

/// `s.trim()`.
pub fn trim_chars(s: &[char]) -> (v: Vec<char>)
    ensures
        v@ == trim(s@),
{
    let (lo, hi) = trim_bounds(s);
    copy_range(s, lo, hi)
}

/// `s.trim_end()`.
pub fn trim_end_chars(s: &[char]) -> (v: Vec<char>)
    ensures
        v@ == trim_end(s@),
{
    let mut hi: usize = s.len();
    while hi > 0 && is_whitespace(s[hi - 1])
        invariant
            hi <= s.len(),
            forall|j: int| hi <= j < s.len() ==> is_ws(s@[j]),
        decreases hi,
    {
        hi = hi - 1;
    }
    proof {
        lemma_trim_end_take(s@, hi as int);
        assert(s@.take(hi as int) =~= s@.subrange(0, hi as int));
    }
    copy_range(s, 0, hi)
}

/// Position of the first `c` at or after `from`, or `s.len()`.
pub fn find_char(s: &[char], from: usize, c: char) -> (k: usize)
    requires
        from <= s.len(),
    ensures
        from <= k <= s.len(),
        forall|j: int| from <= j < k ==> s@[j] != c,
        k == s.len() || s@[k as int] == c,
        first_index(s@.skip(from as int), c) == k - from,
{
    let mut k = from;
    while k < s.len() && s[k] != c
        invariant
            from <= k <= s.len(),
            forall|j: int| from <= j < k ==> s@[j] != c,
        decreases s.len() - k,
    {
        k = k + 1;
    }
    proof {
        lemma_first_index_at(s@.skip(from as int), c, k - from);
    }
    k
}

/// `s.lines()`.
pub fn lines_of(s: &[char]) -> (v: Vec<Vec<char>>)
    ensures
        v.deep_view() == lines(s@),
{
    let mut v: Vec<Vec<char>> = Vec::new();
    let mut pos: usize = 0;
    assert(s@.skip(0) =~= s@);
    assert(v.deep_view() + lines(s@) =~= lines(s@));
    while pos < s.len()
        invariant
            pos <= s.len(),
            lines(s@) == v.deep_view() + lines(s@.skip(pos as int)),
        decreases s.len() - pos,
    {
        let ghost rest = s@.skip(pos as int);
        let k = find_char(s, pos, '\n');
        let ghost before = v.deep_view();
        if k < s.len() {
            let mut line = copy_range(s, pos, k);
            if line.len() > 0 && line[line.len() - 1] == '\r' {
                line.pop();
            }
            proof {
                assert(rest.take(k - pos) =~= s@.subrange(pos as int, k as int));
                assert(rest.skip(k - pos + 1) =~= s@.skip(k + 1));
            }
            proof {
                lemma_chars_deep(line);
            }
            v.push(line);
            assert(v.deep_view() =~= before.push(strip_cr(rest.take(k - pos))));
            pos = k + 1;
        } else {
            let line = copy_range(s, pos, s.len());
            assert(rest =~= s@.subrange(pos as int, s.len() as int));
            proof {
                lemma_chars_deep(line);
            }
            v.push(line);
            assert(v.deep_view() =~= before.push(rest));
            pos = s.len();
            assert(s@.skip(pos as int) =~= Seq::<char>::empty());
        }
    }
    assert(s@.skip(pos as int) =~= Seq::<char>::empty());
    assert(v.deep_view() + Seq::<Seq<char>>::empty() =~= v.deep_view());
    v
}

/// `s.split(c)`.
pub fn split_char_of(s: &[char], c: char) -> (v: Vec<Vec<char>>)
    ensures
        v.deep_view() == split_char(s@, c),
        v.len() >= 1,
{
    let mut v: Vec<Vec<char>> = Vec::new();
    let mut pos: usize = 0;
    assert(s@.skip(0) =~= s@);
    assert(v.deep_view() + split_char(s@, c) =~= split_char(s@, c));
    loop
        invariant
            pos <= s.len(),
            split_char(s@, c) == v.deep_view() + split_char(s@.skip(pos as int), c),
        decreases s.len() - pos,
    {
        let ghost rest = s@.skip(pos as int);
        let ghost before = v.deep_view();
        let k = find_char(s, pos, c);
        if k < s.len() {
            let field = copy_range(s, pos, k);
            proof {
                assert(rest.take(k - pos) =~= s@.subrange(pos as int, k as int));
                assert(rest.skip(k - pos + 1) =~= s@.skip(k + 1));
            }
            proof {
                lemma_chars_deep(field);
            }
            v.push(field);
            assert(v.deep_view() =~= before.push(rest.take(k - pos)));
            pos = k + 1;
        } else {
            let field = copy_range(s, pos, s.len());
            assert(rest =~= s@.subrange(pos as int, s.len() as int));
            proof {
                lemma_chars_deep(field);
            }
            v.push(field);
            assert(v.deep_view() =~= before.push(rest));
            return v;
        }
    }
}

/// `s.split_once(c)`.
pub fn split_once_of(s: &[char], c: char) -> (r: Option<(Vec<char>, Vec<char>)>)
    ensures
        match r {
            Some((a, b)) => split_once(s@, c) == Some((a@, b@)),
            None => split_once(s@, c) is None,
        },
{
    let k = find_char(s, 0, c);
    assert(s@.skip(0) =~= s@);
    if k < s.len() {
        let a = copy_range(s, 0, k);
        let b = copy_range(s, k + 1, s.len());
        assert(a@ =~= s@.take(k as int));
        assert(b@ =~= s@.skip(k + 1));
        Some((a, b))
    } else {
        None
    }
}

/// `s.split_whitespace()`.
pub fn words_of(s: &[char]) -> (v: Vec<Vec<char>>)
    ensures
        v.deep_view() == words(s@),
{
    let mut v: Vec<Vec<char>> = Vec::new();
    let mut pos: usize = 0;
    assert(s@.skip(0) =~= s@);
    assert(v.deep_view() + words(s@) =~= words(s@));
    while pos < s.len()
        invariant
            pos <= s.len(),
            words(s@) == v.deep_view() + words(s@.skip(pos as int)),
        decreases s.len() - pos,
    {
        let ghost rest = s@.skip(pos as int);
        if is_whitespace(s[pos]) {
            assert(rest.drop_first() =~= s@.skip(pos + 1));
            pos = pos + 1;
        } else {
            let mut k = pos;
            while k < s.len() && !is_whitespace(s[k])
                invariant
                    pos <= k <= s.len(),
                    forall|j: int| pos <= j < k ==> !is_ws(s@[j]),
                decreases s.len() - k,
            {
                k = k + 1;
            }
            proof {
                lemma_word_len_at(rest, k - pos);
                assert(rest.take(k - pos) =~= s@.subrange(pos as int, k as int));
                assert(rest.skip(k - pos) =~= s@.skip(k as int));
            }
            let ghost before = v.deep_view();
            let w = copy_range(s, pos, k);
            proof {
                lemma_chars_deep(w);
            }
            v.push(w);
            assert(v.deep_view() =~= before.push(rest.take(k - pos)));
            pos = k;
        }
    }
    assert(s@.skip(pos as int) =~= Seq::<char>::empty());
    assert(v.deep_view() + Seq::<Seq<char>>::empty() =~= v.deep_view());
    v
}

/// Whether `s` starts with `p`.
pub fn starts_with(s: &[char], p: &str) -> (r: bool)
    ensures
        r == (p@.len() <= s@.len() && s@.take(p@.len() as int) == p@),
{
    let pv = chars_of(p);
    if pv.len() > s.len() {
        return false;
    }
    let mut i: usize = 0;
    while i < pv.len()
        invariant
            i <= pv.len() <= s.len(),
            pv@ == p@,
            forall|j: int| 0 <= j < i ==> s@[j] == pv@[j],
        decreases pv.len() - i,
    {
        if s[i] != pv[i] {
            assert(s@.take(pv.len() as int)[i as int] != p@[i as int]);
            return false;
        }
        i = i + 1;
    }
    assert(s@.take(pv.len() as int) =~= p@);
    true
}

/// Whether `c` occurs in `s`.
pub fn contains_char(s: &[char], c: char) -> (r: bool)
    ensures
        r == s@.contains(c),
{
    let k = find_char(s, 0, c);
    if k < s.len() {
        assert(s@[k as int] == c);
        true
    } else {
        false
    }
}

/// Parses an unsigned decimal number no greater than `max`, as `str::parse` does.
pub fn parse_decimal(s: &[char], max: u64) -> (r: Option<u64>)
    ensures
        match r {
            Some(v) => parse_unsigned(s@, max as nat) == Some(v as nat),
            None => parse_unsigned(s@, max as nat) is None,
        },
{
    let start: usize = if s.len() > 0 && s[0] == '+' {
        1
    } else {
        0
    };
    let ghost d = unsigned_body(s@);
    assert(d =~= s@.skip(start as int));
    if start == s.len() {
        return None;
    }
    let mut acc: u64 = 0;
    let mut i = start;
    while i < s.len()
        invariant
            start <= i <= s.len(),
            d == s@.skip(start as int),
            d == unsigned_body(s@),
            acc as nat == decimal_value(d.take(i - start)),
            acc <= max,
            forall|j: int| 0 <= j < i - start ==> is_digit(#[trigger] d[j]),
        decreases s.len() - i,
    {
        let c = s[i];
        if !('0' <= c && c <= '9') {
            assert(!is_digit(d[i - start]));
            assert(!all_digits(d));
            return None;
        }
        let digit = (c as u32 - '0' as u32) as u64;
        proof {
            lemma_decimal_step(d, i - start);
        }
        let next: u128 = acc as u128 * 10 + digit as u128;
        if next > max as u128 {
            proof {
                lemma_decimal_prefix_le(d, i - start + 1);
            }
            return None;
        }
        acc = next as u64;
        i = i + 1;
    }
    assert(d.take(d.len() as int) =~= d);
    Some(acc)
}

/// Parses unsigned hex digits no greater than `max`, as `from_str_radix(_, 16)` does.
pub fn parse_hex(s: &[char], max: u64) -> (r: Option<u64>)
    ensures
        match r {
            Some(v) => parse_hex_unsigned(s@, max as nat) == Some(v as nat),
            None => parse_hex_unsigned(s@, max as nat) is None,
        },
{
    let start: usize = if s.len() > 0 && s[0] == '+' {
        1
    } else {
        0
    };
    let ghost d = unsigned_body(s@);
    assert(d =~= s@.skip(start as int));
    if start == s.len() {
        return None;
    }
    let mut acc: u64 = 0;
    let mut i = start;
    while i < s.len()
        invariant
            start <= i <= s.len(),
            d == s@.skip(start as int),
            d == unsigned_body(s@),
            acc as nat == hex_seq_value(d.take(i - start)),
            acc <= max,
            forall|j: int| 0 <= j < i - start ==> is_hex_digit(#[trigger] d[j]),
        decreases s.len() - i,
    {
        let c = s[i];
        let digit: u64 = if '0' <= c && c <= '9' {
            (c as u32 - '0' as u32) as u64
        } else if 'a' <= c && c <= 'f' {
            (c as u32 - 'a' as u32 + 10) as u64
        } else if 'A' <= c && c <= 'F' {
            (c as u32 - 'A' as u32 + 10) as u64
        } else {
            assert(!is_hex_digit(d[i - start]));
            assert(!all_hex_digits(d));
            return None;
        };
        proof {
            lemma_hex_step(d, i - start);
        }
        let next: u128 = acc as u128 * 16 + digit as u128;
        if next > max as u128 {
            proof {
                lemma_hex_prefix_le(d, i - start + 1);
            }
            return None;
        }
        acc = next as u64;
        i = i + 1;
    }
    assert(d.take(d.len() as int) =~= d);
    Some(acc)
}

/// The decimal digit for `n < 10`.
pub fn digit_char(n: u64) -> (c: char)
    requires
        n < 10,
    ensures
        c == decimal_char(n as nat),
{
    (('0' as u8) + n as u8) as char
}

/// The lower-case hex digit for `n < 16`.
pub fn hex_digit_char(n: u64) -> (c: char)
    requires
        n < 16,
    ensures
        c == hex_char(n as nat),
{
    if n < 10 {
        (('0' as u8) + n as u8) as char
    } else {
        (('a' as u8) + (n - 10) as u8) as char
    }
}

/// Appends the decimal digits of `n`.
pub fn push_decimal(out: &mut String, n: u64)
    ensures
        final(out)@ == old(out)@ + decimal(n as nat),
    decreases n,
{
    if n >= 10 {
        push_decimal(out, n / 10);
    }
    string_push(out, digit_char(n % 10));
    proof {
        if n < 10 {
            assert(n % 10 == n);
        }
    }
}

/// Appends the lower-case hex digits of `n`.
pub fn push_hex(out: &mut String, n: u64)
    ensures
        final(out)@ == old(out)@ + hex(n as nat),
    decreases n,
{
    if n >= 16 {
        push_hex(out, n / 16);
    }
    string_push(out, hex_digit_char(n % 16));
    proof {
        if n < 16 {
            assert(n % 16 == n);
        }
    }
}

/// Number of decimal digits of `n`.
pub fn decimal_len(n: u64) -> (k: usize)
    ensures
        k as nat == decimal(n as nat).len(),
    decreases n,
{
    if n < 10 {
        1
    } else {
        let k = decimal_len(n / 10);
        proof {
            lemma_u64_digit_bounds(n / 10);
        }
        k + 1
    }
}

/// Number of hex digits of `n`.
pub fn hex_len(n: u64) -> (k: usize)
    ensures
        k as nat == hex(n as nat).len(),
    decreases n,
{
    if n < 16 {
        1
    } else {
        let k = hex_len(n / 16);
        proof {
            lemma_u64_digit_bounds(n / 16);
        }
        k + 1
    }
}

/// Appends `count` copies of `c`.
pub fn push_fill(out: &mut String, c: char, count: usize)
    ensures
        final(out)@ == old(out)@ + Seq::new(count as nat, |i: int| c),
{
    let ghost start = out@;
    let mut i: usize = 0;
    while i < count
        invariant
            i <= count,
            out@ == start + Seq::new(i as nat, |j: int| c),
        decreases count - i,
    {
        string_push(out, c);
        assert(Seq::new((i + 1) as nat, |j: int| c) =~= Seq::new(i as nat, |j: int| c).push(c));
        i = i + 1;
    }
}

/// Appends `format!("{:w}", n)`.
pub fn push_decimal_w(out: &mut String, n: u64, width: usize)
    ensures
        final(out)@ == old(out)@ + decimal_w(n as nat, width as nat),
{
    let k = decimal_len(n);
    let ghost start = out@;
    if k < width {
        push_fill(out, ' ', width - k);
    }
    push_decimal(out, n);
    assert(out@ =~= start + decimal_w(n as nat, width as nat));
}

/// Appends `format!("{:0w$x}", n)`.
pub fn push_hex_zw(out: &mut String, n: u64, width: usize)
    ensures
        final(out)@ == old(out)@ + hex_zw(n as nat, width as nat),
{
    let k = hex_len(n);
    let ghost start = out@;
    if k < width {
        push_fill(out, '0', width - k);
    }
    push_hex(out, n);
    assert(out@ =~= start + hex_zw(n as nat, width as nat));
}

/// The strings of `parts` joined with `sep` between neighbours.
pub fn join_strings(parts: &Vec<String>, sep: char) -> (r: String)
    ensures
        r@ == join(views(parts@), sep),
{
    let ghost ps = views(parts@);
    let mut out = String::new();
    let mut i: usize = 0;
    while i < parts.len()
        invariant
            i <= parts.len(),
            ps == views(parts@),
            out@ == join(ps.take(i as int), sep),
        decreases parts.len() - i,
    {
        if i > 0 {
            string_push(&mut out, sep);
        }
        push_str(&mut out, parts[i].as_str());
        proof {
            assert(ps.take(i + 1).drop_last() =~= ps.take(i as int));
            if i == 0 {
                assert(ps.take(1) =~= seq![ps[0]]);
            }
        }
        i = i + 1;
    }
    assert(ps.take(parts.len() as int) =~= ps);
    out
}

/// Appends `format!("{:0w$}", n)`.
pub fn push_decimal_zw(out: &mut String, n: u64, width: usize)
    ensures
        final(out)@ == old(out)@ + decimal_zw(n as nat, width as nat),
{
    let k = decimal_len(n);
    let ghost start = out@;
    if k < width {
        push_fill(out, '0', width - k);
    }
    push_decimal(out, n);
    assert(out@ =~= start + decimal_zw(n as nat, width as nat));
}

/// Appends `format!("{:<w}", n)`.
pub fn push_decimal_lw(out: &mut String, n: u64, width: usize)
    ensures
        final(out)@ == old(out)@ + decimal_lw(n as nat, width as nat),
{
    let k = decimal_len(n);
    let ghost start = out@;
    push_decimal(out, n);
    if k < width {
        push_fill(out, ' ', width - k);
    }
    assert(out@ =~= start + decimal_lw(n as nat, width as nat));
}

/// Appends `format!("{:>w}", s)`: `s` right-aligned by its character count.
pub fn push_str_right(out: &mut String, s: &str, width: usize)
    ensures
        final(out)@ == old(out)@ + pad_left(s@, width as nat, ' '),
{
    let cs = chars_of(s);
    let ghost start = out@;
    if cs.len() < width {
        push_fill(out, ' ', width - cs.len());
    }
    push_str(out, s);
    assert(out@ =~= start + pad_left(s@, width as nat, ' '));
}

/// Whether `a` is before `b` in the order of `chars_lt`.
pub fn chars_less(a: &[char], b: &[char]) -> (r: bool)
    ensures
        r == chars_lt(a@, b@),
{
    let mut i: usize = 0;
    assert(a@.skip(0) =~= a@);
    assert(b@.skip(0) =~= b@);
    while i < a.len() && i < b.len() && a[i] == b[i]
        invariant
            i <= a.len(),
            i <= b.len(),
            chars_lt(a@, b@) == chars_lt(a@.skip(i as int), b@.skip(i as int)),
        decreases a.len() - i,
    {
        proof {
            assert(a@.skip(i as int).drop_first() =~= a@.skip(i + 1));
            assert(b@.skip(i as int).drop_first() =~= b@.skip(i + 1));
        }
        i = i + 1;
    }
    if i == a.len() {
        i < b.len()
    } else if i == b.len() {
        false
    } else {
        a[i] < b[i]
    }
}

} // verus!
