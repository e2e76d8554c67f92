//! What the text formatters write, the matching parsers read back: decimal
//! and hex numbers, zero padding, and fields joined with a separator.
use vstd::prelude::*;

use crate::text;

verus! {

/// Where the first `c` of `s` stands, and that nothing before it is `c`.
pub proof fn lemma_first_index_props(s: Seq<char>, c: char)
    ensures
        text::first_index(s, c) <= s.len(),
        forall|i: int| 0 <= i < text::first_index(s, c) ==> s[i] != c,
        text::first_index(s, c) < s.len() ==> s[text::first_index(s, c) as int] == c,
    decreases s.len(),
{
    if s.len() > 0 && s[0] != c {
        lemma_first_index_props(s.drop_first(), c);
        assert forall|i: int| 0 <= i < text::first_index(s, c) implies s[i] != c by {
            if i > 0 {
                assert(s[i] == s.drop_first()[i - 1]);
            }
        }
    }
}

/// Splitting `s`, a separator and a last field without one adds that field.
pub proof fn lemma_split_snoc(s: Seq<char>, sep: char, last: Seq<char>)
    requires
        !last.contains(sep),
    ensures
        text::split_char(s + seq![sep] + last, sep) == text::split_char(s, sep).push(last),
    decreases s.len(),
{
    let t = s + seq![sep] + last;
    lemma_first_index_props(s, sep);
    let k = text::first_index(s, sep);
    if k < s.len() {
        text::lemma_first_index_at(t, sep, k as int);
        let rest = s.skip(k + 1int);
        assert(t.take(k as int) =~= s.take(k as int));
        assert(t.skip(k + 1int) =~= rest + seq![sep] + last);
        lemma_split_snoc(rest, sep, last);
        assert(text::split_char(t, sep) =~= seq![s.take(k as int)] + text::split_char(
            rest,
            sep,
        ).push(last));
    } else {
        text::lemma_first_index_at(t, sep, s.len() as int);
        assert(t.take(s.len() as int) =~= s);
        assert(t.skip(s.len() + 1int) =~= last);
        assert forall|i: int| 0 <= i < last.len() implies last[i] != sep by {
            if last[i] == sep {
                assert(last.contains(sep));
            }
        }
        text::lemma_first_index_at(last, sep, last.len() as int);
        assert(text::split_char(last, sep) =~= seq![last]);
    }
}

/// Splitting fields joined with a separator that none of them holds gives the
/// fields back.
pub proof fn lemma_split_join(parts: Seq<Seq<char>>, sep: char)
    requires
        parts.len() >= 1,
        forall|i: int| 0 <= i < parts.len() ==> !(#[trigger] parts[i]).contains(sep),
    ensures
        text::split_char(text::join(parts, sep), sep) == parts,
    decreases parts.len(),
{
    if parts.len() == 1 {
        let p = parts[0];
        assert forall|i: int| 0 <= i < p.len() implies p[i] != sep by {
            if p[i] == sep {
                assert(p.contains(sep));
            }
        }
        text::lemma_first_index_at(p, sep, p.len() as int);
        assert(text::split_char(p, sep) =~= seq![p]);
        assert(parts =~= seq![p]);
    } else {
        let init = parts.drop_last();
        assert forall|i: int| 0 <= i < init.len() implies !(#[trigger] init[i]).contains(sep) by {
            assert(init[i] == parts[i]);
        }
        lemma_split_join(init, sep);
        assert(!parts[parts.len() - 1].contains(sep));
        lemma_split_snoc(text::join(init, sep), sep, parts.last());
        assert(init.push(parts.last()) =~= parts);
    }
}

/// The decimal form of `n` is a nonempty run of digits whose value is `n`.
pub proof fn lemma_decimal_digits(n: nat)
    ensures
        text::decimal(n).len() >= 1,
        text::all_digits(text::decimal(n)),
        text::decimal_value(text::decimal(n)) == n,
    decreases n,
{
    let c = text::decimal_char(n % 10);
    assert(text::is_digit(c) && text::digit_value(c) == n % 10);
    if n < 10 {
        let d = seq![c];
        assert(d.drop_last() =~= Seq::<char>::empty());
        assert(text::decimal(n) == d);
        assert(text::decimal_value(d) == text::decimal_value(d.drop_last()) * 10 + text::digit_value(c));
    } else {
        let d = text::decimal(n / 10);
        lemma_decimal_digits(n / 10);
        assert(d.push(c).drop_last() =~= d);
        assert(text::decimal_value(d.push(c)) == text::decimal_value(d) * 10 + text::digit_value(c));
        assert((n / 10) * 10 + n % 10 == n);
        assert forall|i: int| 0 <= i < d.len() + 1 implies text::is_digit(
            #[trigger] d.push(c)[i],
        ) by {
            if i < d.len() {
                assert(d.push(c)[i] == d[i]);
            }
        }
    }
}

/// The hex form of `n` is a nonempty run of hex digits whose value is `n`.
pub proof fn lemma_hex_digits(n: nat)
    ensures
        text::hex(n).len() >= 1,
        text::all_hex_digits(text::hex(n)),
        text::hex_seq_value(text::hex(n)) == n,
    decreases n,
{
    let c = text::hex_char(n % 16);
    assert(text::is_hex_digit(c) && text::hex_value(c) == n % 16);
    if n < 16 {
        let d = seq![c];
        assert(d.drop_last() =~= Seq::<char>::empty());
        assert(text::hex(n) == d);
        assert(text::hex_seq_value(d) == text::hex_seq_value(d.drop_last()) * 16 + text::hex_value(c));
    } else {
        let d = text::hex(n / 16);
        lemma_hex_digits(n / 16);
        assert(d.push(c).drop_last() =~= d);
        assert(text::hex_seq_value(d.push(c)) == text::hex_seq_value(d) * 16 + text::hex_value(c));
        assert((n / 16) * 16 + n % 16 == n);
        assert forall|i: int| 0 <= i < d.len() + 1 implies text::is_hex_digit(
            #[trigger] d.push(c)[i],
        ) by {
            if i < d.len() {
                assert(d.push(c)[i] == d[i]);
            }
        }
    }
}

/// Leading zeros do not change the value of hex digits.
pub proof fn lemma_zeros_hex_value(k: nat, s: Seq<char>)
    ensures
        text::hex_seq_value(Seq::new(k, |i: int| '0') + s) == text::hex_seq_value(s),
    decreases s.len(), k,
{
    let z = Seq::new(k, |i: int| '0');
    if s.len() > 0 {
        lemma_zeros_hex_value(k, s.drop_last());
        assert((z + s).drop_last() =~= z + s.drop_last());
        assert((z + s).last() == s.last());
    } else if k > 0 {
        let z1 = Seq::new((k - 1) as nat, |i: int| '0');
        lemma_zeros_hex_value((k - 1) as nat, s);
        assert((z + s).drop_last() =~= z1 + s);
        assert(z1 + s =~= z1);
        assert(z + s =~= z);
        assert(text::hex_value('0') == 0);
    } else {
        assert(z + s =~= s);
    }
}

/// `str::parse` reads back what `to_string` wrote.
pub proof fn lemma_parse_decimal_of(n: nat, max: nat)
    requires
        n <= max,
    ensures
        text::parse_unsigned(text::decimal(n), max) == Some(n),
{
    lemma_decimal_digits(n);
    let d = text::decimal(n);
    assert(text::is_digit(d[0]));
    assert(text::unsigned_body(d) == d);
}

/// `from_str_radix(_, 16)` reads back what `{:0w$x}` wrote.
pub proof fn lemma_parse_hex_zw_of(n: nat, width: nat, max: nat)
    requires
        n <= max,
    ensures
        text::parse_hex_unsigned(text::hex_zw(n, width), max) == Some(n),
{
    lemma_hex_digits(n);
    let h = text::hex(n);
    let s = text::hex_zw(n, width);
    if h.len() < width {
        let k = (width - h.len()) as nat;
        lemma_zeros_hex_value(k, h);
        assert(s == Seq::new(k, |i: int| '0') + h);
        assert forall|i: int| 0 <= i < s.len() implies text::is_hex_digit(#[trigger] s[i]) by {
            if i >= k {
                assert(s[i] == h[i - k]);
            }
        }
        assert(s[0] == '0');
    } else {
        assert(s == h);
        assert(text::is_hex_digit(h[0]));
    }
    assert(text::unsigned_body(s) == s);
}

/// Trimming the end of a line ending in `\n` removes just the `\n`, when the
/// text before it does not end in whitespace.
pub proof fn lemma_trim_end_newline(s: Seq<char>)
    requires
        s.len() > 0,
        !text::is_ws(s.last()),
    ensures
        text::trim_end(s.push('\n')) == s,
{
    assert(s.push('\n').drop_last() =~= s);
    assert(text::trim_end(s.push('\n')) == text::trim_end(s));
}

/// Where the leading word of `s` ends.
pub proof fn lemma_word_len_props(s: Seq<char>)
    ensures
        text::word_len(s) <= s.len(),
        forall|i: int| 0 <= i < text::word_len(s) ==> !text::is_ws(s[i]),
        text::word_len(s) < s.len() ==> text::is_ws(s[text::word_len(s) as int]),
    decreases s.len(),
{
    if s.len() > 0 && !text::is_ws(s[0]) {
        lemma_word_len_props(s.drop_first());
        assert forall|i: int| 0 <= i < text::word_len(s) implies !text::is_ws(s[i]) by {
            if i > 0 {
                assert(s[i] == s.drop_first()[i - 1]);
            }
        }
    }
}

/// The words of `a` followed by text that starts with whitespace are the
/// words of `a`, then those of the rest.
pub proof fn lemma_words_split(a: Seq<char>, b: Seq<char>)
    requires
        b.len() > 0,
        text::is_ws(b[0]),
    ensures
        text::words(a + b) == text::words(a) + text::words(b),
    decreases a.len(),
{
    if a.len() == 0 {
        assert(a + b =~= b);
        assert(text::words(a) =~= Seq::<Seq<char>>::empty());
        assert(text::words(a) + text::words(b) =~= text::words(b));
    } else if text::is_ws(a[0]) {
        assert((a + b).drop_first() =~= a.drop_first() + b);
        lemma_words_split(a.drop_first(), b);
    } else {
        let ab = a + b;
        lemma_word_len_props(a);
        let k = text::word_len(a);
        assert forall|i: int| 0 <= i < k implies !text::is_ws(ab[i]) by {
            assert(ab[i] == a[i]);
        }
        if k < a.len() {
            assert(ab[k as int] == a[k as int]);
        } else {
            assert(ab[k as int] == b[0]);
        }
        text::lemma_word_len_at(ab, k as int);
        text::lemma_word_len_bound(a);
        assert(ab.take(k as int) =~= a.take(k as int));
        assert(ab.skip(k as int) =~= a.skip(k as int) + b);
        lemma_words_split(a.skip(k as int), b);
        assert(text::words(ab) =~= seq![a.take(k as int)] + (text::words(a.skip(k as int))
            + text::words(b)));
    }
}

/// A nonempty run without whitespace is one word.
pub proof fn lemma_single_word(w: Seq<char>)
    requires
        w.len() > 0,
        forall|i: int| 0 <= i < w.len() ==> !text::is_ws(w[i]),
    ensures
        text::words(w) == seq![w],
{
    text::lemma_word_len_at(w, w.len() as int);
    assert(w.take(w.len() as int) =~= w);
    assert(w.skip(w.len() as int) =~= Seq::<char>::empty());
    assert(text::words(w.skip(w.len() as int)) =~= Seq::<Seq<char>>::empty());
}

/// Leading whitespace adds no word.
pub proof fn lemma_words_skip_ws(pad: Seq<char>, w: Seq<char>)
    requires
        forall|i: int| 0 <= i < pad.len() ==> text::is_ws(pad[i]),
    ensures
        text::words(pad + w) == text::words(w),
    decreases pad.len(),
{
    if pad.len() > 0 {
        assert((pad + w).drop_first() =~= pad.drop_first() + w);
        lemma_words_skip_ws(pad.drop_first(), w);
    } else {
        assert(pad + w =~= w);
    }
}

/// A number right-aligned with spaces is one word, its digits.
pub proof fn lemma_words_decimal_w(n: nat, width: nat)
    ensures
        text::words(text::decimal_w(n, width)) == seq![text::decimal(n)],
{
    let d = text::decimal(n);
    lemma_decimal_digits(n);
    assert forall|i: int| 0 <= i < d.len() implies !text::is_ws(d[i]) by {
        assert(text::is_digit(d[i]));
    }
    lemma_single_word(d);
    if d.len() < width {
        let pad = Seq::new((width - d.len()) as nat, |i: int| ' ');
        lemma_words_skip_ws(pad, d);
    }
}

/// No string is before itself.
pub proof fn lemma_chars_irreflexive(a: Seq<char>)
    ensures
        !text::chars_lt(a, a),
    decreases a.len(),
{
    if a.len() > 0 {
        lemma_chars_irreflexive(a.drop_first());
    }
}

/// The string order is transitive.
pub proof fn lemma_chars_transitive(a: Seq<char>, b: Seq<char>, c: Seq<char>)
    requires
        text::chars_lt(a, b),
        text::chars_lt(b, c),
    ensures
        text::chars_lt(a, c),
    decreases a.len(),
{
    if a.len() > 0 && b.len() > 0 && c.len() > 0 && a[0] == b[0] && b[0] == c[0] {
        lemma_chars_transitive(a.drop_first(), b.drop_first(), c.drop_first());
    }
}

/// Of two different strings, one is before the other.
pub proof fn lemma_chars_total(a: Seq<char>, b: Seq<char>)
    requires
        a != b,
        !text::chars_lt(a, b),
    ensures
        text::chars_lt(b, a),
    decreases a.len(),
{
    if a.len() == 0 {
        assert(b.len() == 0 ==> a =~= b);
    } else if b.len() > 0 && a[0] == b[0] {
        if a.drop_first() == b.drop_first() {
            assert(a.drop_first().len() == b.drop_first().len());
            assert(a.len() == b.len());
            assert forall|i: int| 0 <= i < a.len() implies a[i] == b[i] by {
                if i > 0 {
                    assert(a[i] == a.drop_first()[i - 1]);
                    assert(b[i] == b.drop_first()[i - 1]);
                }
            }
            assert(a =~= b);
        }
        lemma_chars_total(a.drop_first(), b.drop_first());
    }
}


/// A character that does not occur is found at the end.
pub proof fn lemma_first_index_absent(s: Seq<char>, c: char)
    requires
        !s.contains(c),
    ensures
        text::first_index(s, c) == s.len(),
{
    lemma_first_index_props(s, c);
    if text::first_index(s, c) < s.len() {
        assert(s[text::first_index(s, c) as int] == c);
    }
}

/// The first `c` of `a + b` is that of `a`, when `a` holds one.
pub proof fn lemma_first_index_prefix(a: Seq<char>, b: Seq<char>, c: char)
    requires
        a.contains(c),
    ensures
        text::first_index(a + b, c) == text::first_index(a, c),
        text::first_index(a, c) < a.len(),
{
    lemma_first_index_props(a, c);
    lemma_first_index_props(a + b, c);
    let k = text::first_index(a, c);
    let j = text::first_index(a + b, c);
    let w = choose|i: int| 0 <= i < a.len() && a[i] == c;
    assert(k <= w);
    if j > k {
        assert((a + b)[k as int] == a[k as int]);
    }
    if j < k {
        assert((a + b)[j as int] == a[j as int]);
    }
}

/// The lines of `a + b` are those of `a`, then those of `b`, when `a` is
/// empty or ends with a line end.
pub proof fn lemma_lines_append(a: Seq<char>, b: Seq<char>)
    requires
        a.len() == 0 || a.last() == '\n',
    ensures
        text::lines(a + b) == text::lines(a) + text::lines(b),
    decreases a.len(),
{
    if a.len() == 0 {
        assert(a + b =~= b);
        assert(text::lines(a) + text::lines(b) =~= text::lines(b));
    } else {
        assert(a[a.len() - 1] == '\n');
        lemma_first_index_prefix(a, b, '\n');
        let k = text::first_index(a, '\n');
        let rest = a.skip(k + 1int);
        assert((a + b).take(k as int) =~= a.take(k as int));
        assert((a + b).skip(k + 1int) =~= rest + b);
        if rest.len() > 0 {
            assert(rest.last() == a.last());
        }
        lemma_lines_append(rest, b);
        assert(text::lines(a + b) =~= text::lines(a) + text::lines(b));
    }
}

/// A line followed by its line end reads back as that line.
pub proof fn lemma_lines_one(l: Seq<char>)
    requires
        text::is_one_line(l),
    ensures
        text::lines(l + seq!['\n']) == seq![l],
{
    let s = l + seq!['\n'];
    lemma_first_index_props(s, '\n');
    let k = text::first_index(s, '\n');
    if k < l.len() {
        assert(s[k as int] == l[k as int]);
    }
    assert(s[l.len() as int] == '\n');
    assert(k == l.len());
    assert(s.take(k as int) =~= l);
    assert(s.skip(k + 1int) =~= Seq::<char>::empty());
    assert(text::lines(Seq::<char>::empty()) =~= Seq::<Seq<char>>::empty());
    assert(text::lines(s) =~= seq![l]);
}

/// A string whose first character is not whitespace trims to something.
pub proof fn lemma_trim_nonempty(s: Seq<char>)
    requires
        s.len() > 0,
        !text::is_ws(s[0]),
    ensures
        text::trim(s).len() > 0,
{
    assert(text::trim_start(s) == s);
    lemma_trim_end_keeps_first(s);
}

proof fn lemma_trim_end_keeps_first(s: Seq<char>)
    requires
        s.len() > 0,
        !text::is_ws(s[0]),
    ensures
        text::trim_end(s).len() > 0,
    decreases s.len(),
{
    if s.len() > 1 && text::is_ws(s.last()) {
        lemma_trim_end_keeps_first(s.drop_last());
    }
}

/// A string with no whitespace at either end is its own trim.
pub proof fn lemma_trim_fixed(s: Seq<char>)
    requires
        s.len() > 0 ==> !text::is_ws(s[0]) && !text::is_ws(s.last()),
    ensures
        text::trim(s) == s,
{
    assert(text::trim_start(s) == s);
}

/// `split_once(':')` with both sides trimmed, on `key: value`.
pub proof fn lemma_key_value_of(key: Seq<char>, v: Seq<char>)
    requires
        !key.contains(':'),
        text::trim(key) == key,
        text::trim(v) == v,
    ensures
        text::key_value(key + seq![':', ' '] + v) == Some((key, v)),
{
    let s = key + seq![':', ' '] + v;
    lemma_first_index_props(s, ':');
    let k = text::first_index(s, ':');
    if k < key.len() {
        assert(s[k as int] == key[k as int]);
    }
    assert(s[key.len() as int] == ':');
    assert(k == key.len());
    assert(s.take(k as int) =~= key);
    let rest = s.skip(k + 1int);
    assert(rest =~= seq![' '] + v);
    assert(rest.drop_first() =~= v);
    assert(text::trim_start(rest) == text::trim_start(v));
}


/// Two pieces make one line when neither holds a line end and the whole does
/// not end in a carriage return.
pub proof fn lemma_one_line_concat(a: Seq<char>, b: Seq<char>)
    requires
        !a.contains('\n'),
        text::is_one_line(b),
        b.len() == 0 ==> text::is_one_line(a),
    ensures
        text::is_one_line(a + b),
{
    if (a + b).contains('\n') {
        let j = choose|j: int| 0 <= j < (a + b).len() && (a + b)[j] == '\n';
        if j < a.len() {
            assert(a[j] == '\n');
        } else {
            assert(b[j - a.len()] == '\n');
        }
    }
    if b.len() > 0 {
        assert((a + b).last() == b.last());
    } else {
        assert(a + b =~= a);
    }
}


/// A character in neither part is not in the whole.
pub proof fn lemma_absent_concat(a: Seq<char>, b: Seq<char>, c: char)
    requires
        !a.contains(c),
        !b.contains(c),
    ensures
        !(a + b).contains(c),
{
    if (a + b).contains(c) {
        let j = choose|j: int| 0 <= j < (a + b).len() && (a + b)[j] == c;
        if j < a.len() {
            assert(a[j] == c);
        } else {
            assert(b[j - a.len()] == c);
        }
    }
}

/// A number written in decimal, padded with spaces, is spaces and digits.
pub proof fn lemma_decimal_w_plain(n: nat, width: nat)
    ensures
        forall|i: int|
            0 <= i < text::decimal_w(n, width).len() ==> #[trigger] text::decimal_w(n, width)[i]
                == ' ' || text::is_digit(text::decimal_w(n, width)[i]),
        !text::decimal_w(n, width).contains('\n'),
        text::is_one_line(text::decimal(n)),
        text::trim(text::decimal(n)) == text::decimal(n),
{
    lemma_decimal_digits(n);
    let d = text::decimal(n);
    let s = text::decimal_w(n, width);
    assert forall|i: int| 0 <= i < s.len() implies #[trigger] s[i] == ' ' || text::is_digit(s[i]) by {
        if d.len() < width {
            let k = width - d.len();
            if i >= k {
                assert(s[i] == d[i - k]);
            }
        } else {
            assert(s[i] == d[i]);
        }
    }
    if s.contains('\n') {
        let j = choose|j: int| 0 <= j < s.len() && s[j] == '\n';
        assert(s[j] == ' ' || text::is_digit(s[j]));
    }
    if d.contains('\n') {
        let j = choose|j: int| 0 <= j < d.len() && d[j] == '\n';
        assert(text::is_digit(d[j]));
    }
    assert(text::is_digit(d[0]));
    assert(text::is_digit(d.last()));
    lemma_trim_fixed(d);
}


/// Whitespace before `x` trims away at the start.
pub proof fn lemma_trim_start_ws_prefix(pre: Seq<char>, x: Seq<char>)
    requires
        forall|i: int| 0 <= i < pre.len() ==> text::is_ws(#[trigger] pre[i]),
    ensures
        text::trim_start(pre + x) == text::trim_start(x),
    decreases pre.len(),
{
    if pre.len() == 0 {
        assert(pre + x =~= x);
    } else {
        let rest = pre.drop_first();
        assert forall|i: int| 0 <= i < rest.len() implies text::is_ws(#[trigger] rest[i]) by {
            assert(rest[i] == pre[i + 1]);
        }
        assert(text::is_ws(pre[0]));
        assert((pre + x)[0] == pre[0]);
        assert((pre + x).drop_first() =~= rest + x);
        lemma_trim_start_ws_prefix(rest, x);
    }
}

/// Whitespace after `y` trims away at the end.
pub proof fn lemma_trim_end_ws_suffix(y: Seq<char>, post: Seq<char>)
    requires
        forall|i: int| 0 <= i < post.len() ==> text::is_ws(#[trigger] post[i]),
    ensures
        text::trim_end(y + post) == text::trim_end(y),
    decreases post.len(),
{
    if post.len() == 0 {
        assert(y + post =~= y);
    } else {
        let rest = post.drop_last();
        assert forall|i: int| 0 <= i < rest.len() implies text::is_ws(#[trigger] rest[i]) by {
            assert(rest[i] == post[i]);
        }
        assert(text::is_ws(post[post.len() - 1]));
        assert((y + post).last() == post.last());
        assert((y + post).drop_last() =~= y + rest);
        lemma_trim_end_ws_suffix(y, rest);
    }
}

/// A text with no whitespace at either end, padded with whitespace, trims
/// back to itself.
pub proof fn lemma_trim_padded(pre: Seq<char>, t: Seq<char>, post: Seq<char>)
    requires
        forall|i: int| 0 <= i < pre.len() ==> text::is_ws(#[trigger] pre[i]),
        forall|i: int| 0 <= i < post.len() ==> text::is_ws(#[trigger] post[i]),
        t.len() > 0 ==> !text::is_ws(t[0]) && !text::is_ws(t.last()),
    ensures
        text::trim(pre + t + post) == t,
{
    assert(pre + t + post =~= pre + (t + post));
    lemma_trim_start_ws_prefix(pre, t + post);
    if t.len() > 0 {
        assert((t + post)[0] == t[0]);
        assert(text::trim_start(t + post) == t + post);
        lemma_trim_end_ws_suffix(t, post);
        assert(text::trim_end(t) == t);
    } else {
        assert(t + post =~= post);
        lemma_trim_start_ws_prefix(post, Seq::<char>::empty());
        assert(post + Seq::<char>::empty() =~= post);
        assert(text::trim_start(Seq::<char>::empty()) == Seq::<char>::empty());
        assert(text::trim_end(Seq::<char>::empty()) == Seq::<char>::empty());
    }
}

} // verus!
