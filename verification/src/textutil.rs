//! Character-sequence helpers shared by the naming, configuration and text
//! modules: conversion between `str`/`String` and `Vec<char>`, ASCII case
//! folding, Unicode whitespace trimming, and unsigned decimal formatting and
//! parsing with the semantics of the standard library.

use vstd::prelude::*;
use vstd::string::*;

verus! {

/// `String::push` appends one character at the end of the string.
pub assume_specification[ String::push ](s: &mut String, ch: char)
    ensures
        final(s)@ == old(s)@.push(ch),
;

/// The characters of `s`, in order.
pub fn chars_of(s: &str) -> (v: Vec<char>)
    ensures
        v@ == s@,
{
    let n = s.unicode_len();
    let mut v: Vec<char> = Vec::new();
    let mut i: usize = 0;
    while i < n
        invariant
            n == s@.len(),
            i <= n,
            v@ == s@.subrange(0, i as int),
        decreases n - i,
    {
        let c = s.get_char(i);
        v.push(c);
        i = i + 1;
        assert(v@ =~= s@.subrange(0, i as int));
    }
    assert(v@ =~= s@);
    v
}

/// A `String` holding exactly the characters of `v`.
pub fn string_of(v: &Vec<char>) -> (s: String)
    ensures
        s@ == v@,
{
    let mut s = String::new();
    let mut i: usize = 0;
    while i < v.len()
        invariant
            i <= v.len(),
            s@ == v@.subrange(0, i as int),
        decreases v.len() - i,
    {
        s.push(v[i]);
        i = i + 1;
        assert(s@ =~= v@.subrange(0, i as int));
    }
    assert(s@ =~= v@);
    s
}

/// Appends the characters of `s` to `out`.
pub fn push_str(out: &mut Vec<char>, s: &str)
    ensures
        final(out)@ == old(out)@ + s@,
{
    let chars = chars_of(s);
    push_all(out, &chars);
}

/// Appends the characters of `src` to `out`.
pub fn push_all(out: &mut Vec<char>, src: &Vec<char>)
    ensures
        final(out)@ == old(out)@ + src@,
{
    let ghost start = out@;
    let mut i: usize = 0;
    while i < src.len()
        invariant
            i <= src.len(),
            out@ == start + src@.subrange(0, i as int),
        decreases src.len() - i,
    {
        out.push(src[i]);
        i = i + 1;
        assert(out@ =~= start + src@.subrange(0, i as int));
    }
    assert(src@.subrange(0, src.len() as int) =~= src@);
}

/// A copy of `v[lo..hi]`.
pub fn slice_chars(v: &Vec<char>, lo: usize, hi: usize) -> (r: Vec<char>)
    requires
        lo <= hi <= v.len(),
    ensures
        r@ == v@.subrange(lo as int, hi as int),
{
    let mut r: Vec<char> = Vec::new();
    let mut i = lo;
    while i < hi
        invariant
            lo <= i <= hi,
            hi <= v.len(),
            r@ == v@.subrange(lo as int, i as int),
        decreases hi - i,
    {
        r.push(v[i]);
        i = i + 1;
        assert(r@ =~= v@.subrange(lo as int, i as int));
    }
    r
}

/// Whether two character sequences are equal.
pub fn chars_eq(a: &Vec<char>, b: &Vec<char>) -> (r: bool)
    ensures
        r == (a@ == b@),
{
    if a.len() != b.len() {
        return false;
    }
    let mut i: usize = 0;
    while i < a.len()
        invariant
            a.len() == b.len(),
            i <= a.len(),
            forall|k: int| 0 <= k < i ==> a@[k] == b@[k],
        decreases a.len() - i,
    {
        if a[i] != b[i] {
            return false;
        }
        i = i + 1;
    }
    assert(a@ =~= b@);
    true
}

/// Whether the characters of `a` equal those of the string `b`.
pub fn chars_eq_str(a: &Vec<char>, b: &str) -> (r: bool)
    ensures
        r == (a@ == b@),
{
    let bv = chars_of(b);
    chars_eq(a, &bv)
}

/// `c` with `A`..=`Z` mapped to `a`..=`z`, as `char::to_ascii_lowercase`.
pub open spec fn ascii_lower(c: char) -> char {
    if 'A' <= c && c <= 'Z' {
        ((c as u32) + 32) as char
    } else {
        c
    }
}

/// `s` with every ASCII capital replaced by its small letter.
pub open spec fn ascii_lower_seq(s: Seq<char>) -> Seq<char> {
    s.map_values(|c: char| ascii_lower(c))
}

/// One character of `to_ascii_lowercase`.
pub fn lower_char(c: char) -> (r: char)
    ensures
        r == ascii_lower(c),
{
    if 'A' <= c && c <= 'Z' {
        let b = c as u8;
        (b + 32) as char
    } else {
        c
    }
}

/// `str::to_ascii_lowercase` on a character sequence.
pub fn lower_chars(v: &Vec<char>) -> (r: Vec<char>)
    ensures
        r@ == ascii_lower_seq(v@),
{
    let mut r: Vec<char> = Vec::new();
    let mut i: usize = 0;
    while i < v.len()
        invariant
            i <= v.len(),
            r@ == ascii_lower_seq(v@.subrange(0, i as int)),
        decreases v.len() - i,
    {
        let c = lower_char(v[i]);
        r.push(c);
        i = i + 1;
        assert(r@ =~= ascii_lower_seq(v@.subrange(0, i as int)));
    }
    assert(v@.subrange(0, v.len() as int) =~= v@);
    r
}

/// The characters with the Unicode `White_Space` property, which
/// `char::is_whitespace` and `str::trim` recognise.
pub open spec fn is_space(c: char) -> bool {
    ||| ('\u{9}' <= c && c <= '\u{d}')
    ||| c == ' '
    ||| c == '\u{85}'
    ||| c == '\u{a0}'
    ||| c == '\u{1680}'
    ||| ('\u{2000}' <= c && c <= '\u{200a}')
    ||| c == '\u{2028}'
    ||| c == '\u{2029}'
    ||| c == '\u{202f}'
    ||| c == '\u{205f}'
    ||| c == '\u{3000}'
}

/// `char::is_whitespace`.
pub fn is_space_char(c: char) -> (r: bool)
    ensures
        r == is_space(c),
{
    ('\u{9}' <= c && c <= '\u{d}') || c == ' ' || c == '\u{85}' || c == '\u{a0}' || c
        == '\u{1680}' || ('\u{2000}' <= c && c <= '\u{200a}') || c == '\u{2028}' || c
        == '\u{2029}' || c == '\u{202f}' || c == '\u{205f}' || c == '\u{3000}'
}

/// `s` without its leading whitespace.
pub open spec fn trim_start(s: Seq<char>) -> Seq<char>
    decreases s.len(),
{
    if s.len() > 0 && is_space(s[0]) {
        trim_start(s.drop_first())
    } else {
        s
    }
}

/// `s` without its trailing whitespace.
pub open spec fn trim_end(s: Seq<char>) -> Seq<char>
    decreases s.len(),
{
    if s.len() > 0 && is_space(s.last()) {
        trim_end(s.drop_last())
    } else {
        s
    }
}

/// `str::trim`: `s` without leading and trailing whitespace.
pub open spec fn trim(s: Seq<char>) -> Seq<char> {
    trim_end(trim_start(s))
}

/// `str::trim` on a character sequence.
pub fn trim_chars(v: &Vec<char>) -> (r: Vec<char>)
    ensures
        r@ == trim(v@),
{
    let n = v.len();
    let mut i: usize = 0;
    assert(v@.subrange(0, n as int) =~= v@);
    while i < n && is_space_char(v[i])
        invariant
            n == v.len(),
            i <= n,
            trim_start(v@) == trim_start(v@.subrange(i as int, n as int)),
        decreases n - i,
    {
        assert(v@.subrange(i as int, n as int).drop_first() =~= v@.subrange(i + 1, n as int));
        i = i + 1;
    }
    assert(trim_start(v@) == v@.subrange(i as int, n as int));
    let mut j: usize = n;
    while j > i && is_space_char(v[j - 1])
        invariant
            n == v.len(),
            i <= j <= n,
            trim(v@) == trim_end(v@.subrange(i as int, j as int)),
        decreases j,
    {
        assert(v@.subrange(i as int, j as int).drop_last() =~= v@.subrange(i as int, j - 1));
        j = j - 1;
    }
    slice_chars(v, i, j)
}

/// The decimal digit character for `d < 10`.
pub open spec fn digit_char(d: nat) -> char {
    (d + 48) as char
}

/// The value of a decimal digit character.
pub open spec fn char_digit(c: char) -> nat {
    (c as int - 48) as nat
}

/// Whether `c` is one of `0`..=`9`.
pub open spec fn is_digit(c: char) -> bool {
    '0' <= c && c <= '9'
}

/// Whether every character of `s` is a decimal digit.
pub open spec fn all_digits(s: Seq<char>) -> bool {
    forall|i: int| 0 <= i < s.len() ==> is_digit(#[trigger] s[i])
}

/// The decimal representation of `n`, without leading zeros.
pub open spec fn decimal(n: nat) -> Seq<char>
    decreases n,
{
    if n < 10 {
        seq![digit_char(n)]
    } else {
        decimal(n / 10).push(digit_char(n % 10))
    }
}

/// `s` left-padded with `0` to at least `width` characters, as the
/// `{:0width$}` format does for unsigned numbers.
pub open spec fn zero_pad(s: Seq<char>, width: nat) -> Seq<char> {
    if s.len() < width {
        Seq::new((width - s.len()) as nat, |i: int| '0') + s
    } else {
        s
    }
}

/// The value of a sequence of decimal digits.
pub open spec fn digits_value(s: Seq<char>) -> nat
    decreases s.len(),
{
    if s.len() == 0 {
        0
    } else {
        digits_value(s.drop_last()) * 10 + char_digit(s.last())
    }
}

/// The digits that `from_str` reads for an unsigned type: `s` without one
/// leading `+`.
pub open spec fn unsigned_body(s: Seq<char>) -> Seq<char> {
    if s.len() > 0 && s[0] == '+' {
        s.drop_first()
    } else {
        s
    }
}

/// `from_str` for an unsigned type whose largest value is `max`: one
/// optional `+`, then at least one decimal digit and nothing else, with a
/// value that fits.
pub open spec fn parse_unsigned(s: Seq<char>, max: nat) -> Option<nat> {
    let body = unsigned_body(s);
    if body.len() > 0 && all_digits(body) && digits_value(body) <= max {
        Some(digits_value(body))
    } else {
        None
    }
}

pub proof fn lemma_decimal_digits(n: nat)
    ensures
        decimal(n).len() >= 1,
        all_digits(decimal(n)),
        digits_value(decimal(n)) == n,
    decreases n,
{
    if n < 10 {
        assert(char_digit(digit_char(n)) == n);
        assert(decimal(n).drop_last() =~= Seq::<char>::empty());
        assert(is_digit(decimal(n)[0]));
        assert(decimal(n).last() == digit_char(n));
        assert(digits_value(Seq::<char>::empty()) == 0);
        assert(digits_value(decimal(n)) == digits_value(decimal(n).drop_last()) * 10
            + char_digit(decimal(n).last()));
    } else {
        lemma_decimal_digits(n / 10);
        let d = decimal(n);
        assert(d.drop_last() =~= decimal(n / 10));
        assert(char_digit(digit_char((n % 10) as nat)) == n % 10);
        assert(d.last() == digit_char((n % 10) as nat));
        assert(digits_value(d) == digits_value(decimal(n / 10)) * 10 + n % 10);
        assert((n / 10) * 10 + n % 10 == n);
        assert forall|i: int| 0 <= i < d.len() implies is_digit(#[trigger] d[i]) by {
            if i < d.len() - 1 {
                assert(d[i] == decimal(n / 10)[i]);
            }
        }
    }
}

pub proof fn lemma_decimal_len_bound(n: nat, k: nat, p: nat)
    requires
        n < p,
        p == pow10(k),
        k >= 1,
    ensures
        decimal(n).len() <= k,
    decreases k,
{
    if n >= 10 {
        lemma_pow10_positive(k);
        assert(k >= 2) by {
            if k == 1 {
                assert(pow10(1) == 10 * pow10(0));
            }
        }
        assert(pow10(k) == 10 * pow10((k - 1) as nat));
        assert(n / 10 < pow10((k - 1) as nat)) by (nonlinear_arith)
            requires
                n < 10 * pow10((k - 1) as nat),
        ;
        lemma_decimal_len_bound(n / 10, (k - 1) as nat, pow10((k - 1) as nat));
    }
}

/// `10` to the power `k`.
pub open spec fn pow10(k: nat) -> nat
    decreases k,
{
    if k == 0 {
        1
    } else {
        10 * pow10((k - 1) as nat)
    }
}

pub proof fn lemma_pow10_positive(k: nat)
    ensures
        pow10(k) >= 1,
    decreases k,
{
    if k > 0 {
        lemma_pow10_positive((k - 1) as nat);
    }
}

proof fn lemma_digits_value_prefix_le(s: Seq<char>, k: int)
    requires
        0 <= k <= s.len(),
    ensures
        digits_value(s.subrange(0, k)) <= digits_value(s),
    decreases s.len(),
{
    if k < s.len() {
        assert(s.drop_last().subrange(0, k) =~= s.subrange(0, k));
        lemma_digits_value_prefix_le(s.drop_last(), k);
    } else {
        assert(s.subrange(0, k) =~= s);
    }
}

/// The digit character of `d < 10`.
pub fn digit_to_char(d: u64) -> (c: char)
    requires
        d < 10,
    ensures
        c == digit_char(d as nat),
{
    let b = d as u8;
    (b + 48) as char
}

/// Appends `n` in decimal, left-padded with zeros to `width` characters,
/// as `format!("{n:0width$}")` does.
pub fn push_decimal(out: &mut Vec<char>, n: u64, width: usize)
    ensures
        final(out)@ == old(out)@ + zero_pad(decimal(n as nat), width as nat),
{
    let ghost start = out@;
    let mut digits: Vec<char> = Vec::new();
    let mut rest = n;
    while rest >= 10
        invariant
            decimal(n as nat) == decimal(rest as nat) + digits@,
        decreases rest,
    {
        let d = digit_to_char(rest % 10);
        let ghost before = digits@;
        digits.insert(0, d);
        proof {
            assert(decimal(rest as nat) == decimal((rest / 10) as nat).push(
                digit_char((rest % 10) as nat),
            ));
            assert(decimal(rest as nat) + before =~= decimal((rest / 10) as nat)
                + digits@) by {
                assert(digits@ =~= seq![d] + before);
            }
        }
        rest = rest / 10;
    }
    let d = digit_to_char(rest);
    digits.insert(0, d);
    assert(decimal(n as nat) =~= digits@);
    let len = digits.len();
    if len < width {
        let mut k: usize = 0;
        while k < width - len
            invariant
                len < width,
                k <= width - len,
                out@ == start + Seq::new(k as nat, |i: int| '0'),
            decreases width - len - k,
        {
            out.push('0');
            k = k + 1;
            assert(out@ =~= start + Seq::new(k as nat, |i: int| '0'));
        }
    }
    let ghost mid = out@;
    push_all(out, &digits);
    assert(out@ =~= start + zero_pad(decimal(n as nat), width as nat));
}

/// `u64::from_str` on a character sequence: `Some` exactly when the
/// standard parser accepts the text, with the value it reads.
pub fn parse_u64_chars(s: &Vec<char>) -> (r: Option<u64>)
    ensures
        match r {
            Some(v) => parse_unsigned(s@, u64::MAX as nat) == Some(v as nat),
            None => parse_unsigned(s@, u64::MAX as nat) is None,
        },
{
    let n = s.len();
    let start: usize = if n > 0 && s[0] == '+' {
        1
    } else {
        0
    };
    let ghost body = unsigned_body(s@);
    assert(body =~= s@.subrange(start as int, n as int));
    if start >= n {
        return None;
    }
    let mut acc: u64 = 0;
    let mut i = start;
    while i < n
        invariant
            start <= i <= n,
            n == s.len(),
            body == s@.subrange(start as int, n as int),
            body == unsigned_body(s@),
            all_digits(s@.subrange(start as int, i as int)),
            acc as nat == digits_value(s@.subrange(start as int, i as int)),
        decreases n - i,
    {
        let c = s[i];
        if !('0' <= c && c <= '9') {
            assert(body[i - start] == c);
            assert(!is_digit(body[i - start]));
            return None;
        }
        let d = (c as u32 - 48) as u64;
        let ghost prefix = s@.subrange(start as int, i + 1);
        assert(prefix.drop_last() =~= s@.subrange(start as int, i as int));
        assert(prefix =~= body.subrange(0, i + 1 - start));
        assert(prefix.last() == c);
        assert(char_digit(c) == d);
        assert(digits_value(prefix) == acc * 10 + d);
        match acc.checked_mul(10) {
            Some(m) => match m.checked_add(d) {
                Some(v) => {
                    acc = v;
                },
                None => {
                    proof {
                        lemma_digits_value_prefix_le(body, i + 1 - start);
                    }
                    return None;
                },
            },
            None => {
                proof {
                    lemma_digits_value_prefix_le(body, i + 1 - start);
                }
                return None;
            },
        }
        i = i + 1;
        assert(all_digits(s@.subrange(start as int, i as int))) by {
            assert forall|k: int| 0 <= k < i - start implies is_digit(
                #[trigger] s@.subrange(start as int, i as int)[k],
            ) by {
                if k < i - 1 - start {
                    assert(s@.subrange(start as int, i as int)[k] == s@.subrange(
                        start as int,
                        i - 1,
                    )[k]);
                }
            }
        }
    }
    Some(acc)
}

/// `u32::from_str` on a character sequence.
pub fn parse_u32_chars(s: &Vec<char>) -> (r: Option<u32>)
    ensures
        match r {
            Some(v) => parse_unsigned(s@, u32::MAX as nat) == Some(v as nat),
            None => parse_unsigned(s@, u32::MAX as nat) is None,
        },
{
    match parse_u64_chars(s) {
        Some(v) => {
            if v <= u32::MAX as u64 {
                Some(v as u32)
            } else {
                None
            }
        },
        None => {
            proof {
                let body = unsigned_body(s@);
                if body.len() > 0 && all_digits(body) {
                    assert(digits_value(body) > u64::MAX);
                }
            }
            None
        },
    }
}


/// The index of the last `c` in `s`, or `-1` when `s` has none.
pub open spec fn last_index_of(s: Seq<char>, c: char) -> int
    decreases s.len(),
{
    if s.len() == 0 {
        -1
    } else if s.last() == c {
        s.len() - 1
    } else {
        last_index_of(s.drop_last(), c)
    }
}

pub proof fn lemma_last_index_of(s: Seq<char>, c: char)
    ensures
        -1 <= last_index_of(s, c) < s.len(),
        last_index_of(s, c) >= 0 ==> s[last_index_of(s, c)] == c,
        forall|k: int| last_index_of(s, c) < k < s.len() ==> s[k] != c,
    decreases s.len(),
{
    if s.len() > 0 && s.last() != c {
        lemma_last_index_of(s.drop_last(), c);
        assert forall|k: int| last_index_of(s, c) < k < s.len() implies s[k] != c by {
            if k < s.len() - 1 {
                assert(s[k] == s.drop_last()[k]);
            }
        }
    }
}

/// The position of the last `c` in `v`.
pub fn find_last(v: &Vec<char>, c: char) -> (r: Option<usize>)
    ensures
        match r {
            Some(i) => i as int == last_index_of(v@, c) && i < v.len() && v@[i as int] == c,
            None => last_index_of(v@, c) == -1,
        },
{
    proof {
        lemma_last_index_of(v@, c);
    }
    let mut j = v.len();
    assert(v@.subrange(0, j as int) =~= v@);
    while j > 0 && v[j - 1] != c
        invariant
            j <= v.len(),
            last_index_of(v@, c) == last_index_of(v@.subrange(0, j as int), c),
        decreases j,
    {
        assert(v@.subrange(0, j as int).drop_last() =~= v@.subrange(0, j - 1));
        j = j - 1;
    }
    if j == 0 {
        None
    } else {
        Some(j - 1)
    }
}

/// `s` cut at every `sep`, as `str::split` with a character pattern.
pub open spec fn split_on(s: Seq<char>, sep: char) -> Seq<Seq<char>>
    decreases s.len(),
{
    if s.len() == 0 {
        seq![Seq::<char>::empty()]
    } else {
        let r = split_on(s.drop_last(), sep);
        if s.last() == sep {
            r.push(Seq::<char>::empty())
        } else {
            r.update(r.len() - 1, r.last().push(s.last()))
        }
    }
}

/// The pieces of `parts` with `sep` between each two, as `join`.
pub open spec fn join_on(parts: Seq<Seq<char>>, sep: char) -> Seq<char>
    decreases parts.len(),
{
    if parts.len() == 0 {
        Seq::<char>::empty()
    } else if parts.len() == 1 {
        parts[0]
    } else {
        join_on(parts.drop_last(), sep) + seq![sep] + parts.last()
    }
}

pub proof fn lemma_split_len(s: Seq<char>, sep: char)
    ensures
        split_on(s, sep).len() >= 1,
    decreases s.len(),
{
    if s.len() > 0 {
        lemma_split_len(s.drop_last(), sep);
    }
}

/// Splitting around one separator splits each side.
pub proof fn lemma_split_concat(a: Seq<char>, b: Seq<char>, sep: char)
    ensures
        split_on(a + seq![sep] + b, sep) =~= split_on(a, sep) + split_on(b, sep),
    decreases b.len(),
{
    lemma_split_len(a, sep);
    lemma_split_len(b, sep);
    if b.len() == 0 {
        assert((a + seq![sep] + b).drop_last() =~= a);
    } else {
        let bp = b.drop_last();
        assert((a + seq![sep] + b).drop_last() =~= a + seq![sep] + bp);
        lemma_split_concat(a, bp, sep);
        lemma_split_len(bp, sep);
    }
}

/// A sequence without the separator is one piece.
pub proof fn lemma_split_no_sep(s: Seq<char>, sep: char)
    requires
        !s.contains(sep),
    ensures
        split_on(s, sep) =~= seq![s],
    decreases s.len(),
{
    if s.len() > 0 {
        assert(!s.drop_last().contains(sep)) by {
            if s.drop_last().contains(sep) {
                let k = choose|k: int| 0 <= k < s.drop_last().len() && s.drop_last()[k] == sep;
                assert(s[k] == sep);
            }
        }
        lemma_split_no_sep(s.drop_last(), sep);
        assert(s.last() != sep) by {
            assert(s[s.len() - 1] == s.last());
        }
        let r = split_on(s.drop_last(), sep);
        assert(r =~= seq![s.drop_last()]);
        assert(split_on(s, sep) == r.update(r.len() - 1, r.last().push(s.last())));
        assert(s.drop_last().push(s.last()) =~= s);
    } else {
        assert(s =~= Seq::<char>::empty());
    }
}

/// The pieces of a split, joined again, give back the text.
pub proof fn lemma_join_split(s: Seq<char>, sep: char)
    ensures
        join_on(split_on(s, sep), sep) =~= s,
    decreases s.len(),
{
    if s.len() > 0 {
        let p = s.drop_last();
        lemma_join_split(p, sep);
        lemma_split_len(p, sep);
        let r = split_on(p, sep);
        let c = s.last();
        assert(s =~= p.push(c));
        if c == sep {
            let r2 = r.push(Seq::<char>::empty());
            assert(split_on(s, sep) == r2);
            assert(r2.drop_last() =~= r);
            assert(join_on(r2, sep) == join_on(r, sep) + seq![sep] + r2.last());
            assert(join_on(r2, sep) =~= p + seq![sep]);
        } else {
            let r2 = r.update(r.len() - 1, r.last().push(c));
            assert(split_on(s, sep) == r2);
            if r.len() == 1 {
                assert(join_on(r2, sep) == r2[0]);
                assert(join_on(r, sep) == r[0]);
                assert(join_on(r2, sep) =~= s);
            } else {
                assert(r2.drop_last() =~= r.drop_last());
                assert(join_on(r, sep) == join_on(r.drop_last(), sep) + seq![sep] + r.last());
                assert(join_on(r2, sep) == join_on(r2.drop_last(), sep) + seq![sep] + r2.last());
                assert(join_on(r2, sep) =~= join_on(r, sep).push(c));
            }
        }
    }
}

/// Splits `v` at every `sep`.
pub fn split_chars(v: &Vec<char>, sep: char) -> (r: Vec<Vec<char>>)
    ensures
        r@.len() == split_on(v@, sep).len(),
        forall|k: int| 0 <= k < r@.len() ==> #[trigger] r@[k]@ == split_on(v@, sep)[k],
{
    let mut parts: Vec<Vec<char>> = Vec::new();
    let mut cur: Vec<char> = Vec::new();
    let mut i: usize = 0;
    while i < v.len()
        invariant
            i <= v.len(),
            split_on(v@.subrange(0, i as int), sep).len() == parts@.len() + 1,
            forall|k: int|
                0 <= k < parts@.len() ==> #[trigger] parts@[k]@ == split_on(
                    v@.subrange(0, i as int),
                    sep,
                )[k],
            cur@ == split_on(v@.subrange(0, i as int), sep).last(),
        decreases v.len() - i,
    {
        let c = v[i];
        let ghost prev = split_on(v@.subrange(0, i as int), sep);
        assert(v@.subrange(0, i + 1).drop_last() =~= v@.subrange(0, i as int));
        if c == sep {
            parts.push(cur);
            cur = Vec::new();
        } else {
            cur.push(c);
        }
        i = i + 1;
    }
    parts.push(cur);
    assert(v@.subrange(0, v.len() as int) =~= v@);
    parts
}
pub proof fn lemma_zeros_value(k: nat, s: Seq<char>)
    ensures
        digits_value(Seq::new(k, |i: int| '0') + s) == digits_value(s),
    decreases s.len(), k,
{
    let z = Seq::new(k, |i: int| '0');
    if s.len() == 0 {
        assert(z + s =~= z);
        if k > 0 {
            let z1 = Seq::new((k - 1) as nat, |i: int| '0');
            assert(z.drop_last() =~= z1);
            assert(z1 + s =~= z1);
            lemma_zeros_value((k - 1) as nat, s);
            assert(digits_value(z) == digits_value(z.drop_last()) * 10 + char_digit(z.last()));
        }
    } else {
        assert((z + s).drop_last() =~= z + s.drop_last());
        lemma_zeros_value(k, s.drop_last());
    }
}


/// A zero-padded decimal is made of digits and reads back as its number.
pub proof fn lemma_zero_pad_digits(x: nat, w: nat, max: nat)
    requires
        x <= max,
    ensures
        all_digits(zero_pad(decimal(x), w)),
        zero_pad(decimal(x), w).len() >= 1,
        decimal(x).len() <= w ==> zero_pad(decimal(x), w).len() == w,
        parse_unsigned(zero_pad(decimal(x), w), max) == Some(x),
{
    lemma_decimal_digits(x);
    let d = decimal(x);
    let p = zero_pad(d, w);
    let k = (w - d.len()) as nat;
    if d.len() < w {
        assert(p == Seq::new(k, |i: int| '0') + d);
        lemma_zeros_value(k, d);
    }
    assert(all_digits(p)) by {
        assert forall|i: int| 0 <= i < p.len() implies is_digit(#[trigger] p[i]) by {
            if d.len() < w && i >= k {
                assert(p[i] == d[i - k]);
            }
        }
    }
    assert(is_digit(p[0]));
    assert(unsigned_body(p) == p);
}
} // verus!
