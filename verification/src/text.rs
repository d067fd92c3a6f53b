//! Text: conversion between strings and characters, decimal numbers, and the
//! line and field scanning that the system monitors need.
use std::time::Duration;
use vstd::prelude::*;
use vstd::string::StringExecFns;

verus! {

broadcast use vstd::string::group_string_axioms;

/// The characters of `s`, in order.
pub fn chars_of(s: &str) -> (chars: Vec<char>)
    ensures
        chars@ == s@,
{
    let mut chars: Vec<char> = Vec::new();
    for c in it: s.chars()
        invariant
            it.seq() == s@,
            chars@ == it.seq().take(it.index() as int),
    {
        chars.push(c);
    }
    chars
}

/// Collects characters into a `String` (`FromIterator<char>` for `String`).
#[verifier::external_body]
pub(crate) fn string_from_chars(chars: &[char]) -> (s: String)
    ensures
        s@ == chars@,
{
    chars.iter().collect::<String>()
}

/// The decimal digits of `n`, most significant first, without leading zeros
/// (`"0"` for zero).
pub open spec fn decimal(n: nat) -> Seq<char>
    decreases n,
{
    if n < 10 {
        seq![digit_char((n % 10) as nat)]
    } else {
        decimal(n / 10).push(digit_char((n % 10) as nat))
    }
}

/// The ASCII digit for `d < 10`.
pub open spec fn digit_char(d: nat) -> char {
    if d == 0 { '0' }
    else if d == 1 { '1' }
    else if d == 2 { '2' }
    else if d == 3 { '3' }
    else if d == 4 { '4' }
    else if d == 5 { '5' }
    else if d == 6 { '6' }
    else if d == 7 { '7' }
    else if d == 8 { '8' }
    else { '9' }
}

/// The ASCII digit for `d < 10`.
fn digit(d: u64) -> (c: char)
    requires
        d < 10,
    ensures
        c == digit_char(d as nat),
{
    if d == 0 { '0' }
    else if d == 1 { '1' }
    else if d == 2 { '2' }
    else if d == 3 { '3' }
    else if d == 4 { '4' }
    else if d == 5 { '5' }
    else if d == 6 { '6' }
    else if d == 7 { '7' }
    else if d == 8 { '8' }
    else { '9' }
}

/// The decimal digits of `n`, most significant first.
fn decimal_chars(n: u64) -> (digits: Vec<char>)
    ensures
        digits@ == decimal(n as nat),
    decreases n,
{
    if n < 10 {
        let mut digits: Vec<char> = Vec::new();
        digits.push(digit(n));
        proof {
            assert(digits@ =~= seq![digit_char((n % 10) as nat)]);
        }
        digits
    } else {
        let mut digits = decimal_chars(n / 10);
        digits.push(digit(n % 10));
        digits
    }
}

/// The decimal digits of `n` without leading zeros (`"0"` for zero), as
/// `Display` writes them.
pub(crate) fn decimal_text(n: u64) -> (s: String)
    ensures
        s@ == decimal(n as nat),
{
    let digits = decimal_chars(n);
    string_from_chars(digits.as_slice())
}

/// What `Debug` writes for the duration of `secs` seconds and `nanos`
/// nanoseconds.
pub uninterp spec fn duration_debug_text(secs: u64, nanos: u32) -> Seq<char>;

/// Formats the duration of `secs` seconds and `nanos` nanoseconds with
/// `Debug` (`Duration::new`, then `{:?}`).
#[verifier::external_body]
pub(crate) fn duration_debug(secs: u64, nanos: u32) -> (s: String)
    requires
        nanos < 1_000_000_000,
    ensures
        s@ == duration_debug_text(secs, nanos),
{
    format!("{:?}", Duration::new(secs, nanos))
}

/// `a` followed by `b`.
pub fn joined(a: &str, b: &str) -> (s: String)
    ensures
        s@ == a@ + b@,
{
    let mut s = String::from_str(a);
    s.append(b);
    s
}

/// Whether `c` is white space: the characters of the Unicode `White_Space`
/// property, as `char::is_whitespace` tests.
pub open spec fn is_white(c: char) -> bool {
    ||| c == '\t'
    ||| c == '\n'
    ||| c == '\u{0B}'
    ||| c == '\u{0C}'
    ||| c == '\r'
    ||| c == ' '
    ||| c == '\u{85}'
    ||| c == '\u{A0}'
    ||| c == '\u{1680}'
    ||| ('\u{2000}' <= c && c <= '\u{200A}')
    ||| c == '\u{2028}'
    ||| c == '\u{2029}'
    ||| c == '\u{202F}'
    ||| c == '\u{205F}'
    ||| c == '\u{3000}'
}

/// Whether `c` is white space.
pub fn white(c: char) -> (w: bool)
    ensures
        w == is_white(c),
{
    c == '\t' || c == '\n' || c == '\u{0B}' || c == '\u{0C}' || c == '\r' || c == ' ' || c == '\u{85}'
        || c == '\u{A0}' || c == '\u{1680}' || ('\u{2000}' <= c && c <= '\u{200A}') || c == '\u{2028}'
        || c == '\u{2029}' || c == '\u{202F}' || c == '\u{205F}' || c == '\u{3000}'
}

/// The index of the first `c` in `s`, or its length when there is none.
pub open spec fn first_index_of(s: Seq<char>, c: char) -> int
    decreases s.len(),
{
    if s.len() == 0 {
        0
    } else if s[0] == c {
        0
    } else {
        1 + first_index_of(s.drop_first(), c)
    }
}

/// The index of the first white space character in `s`, or its length.
pub open spec fn first_white(s: Seq<char>) -> int
    decreases s.len(),
{
    if s.len() == 0 {
        0
    } else if is_white(s[0]) {
        0
    } else {
        1 + first_white(s.drop_first())
    }
}

/// `s` without its leading white space.
pub open spec fn skip_white(s: Seq<char>) -> Seq<char>
    decreases s.len(),
{
    if s.len() > 0 && is_white(s[0]) {
        skip_white(s.drop_first())
    } else {
        s
    }
}

/// `s` without its trailing white space.
pub open spec fn trim_end(s: Seq<char>) -> Seq<char>
    decreases s.len(),
{
    if s.len() > 0 && is_white(s.last()) {
        trim_end(s.drop_last())
    } else {
        s
    }
}

/// `s` without leading and trailing white space (`str::trim`).
pub open spec fn trim(s: Seq<char>) -> Seq<char> {
    trim_end(skip_white(s))
}

/// `first_index_of` lies between zero and the length.
pub proof fn lemma_first_index_bounds(s: Seq<char>, c: char)
    ensures
        0 <= first_index_of(s, c) <= s.len(),
    decreases s.len(),
{
    if s.len() > 0 && s[0] != c {
        lemma_first_index_bounds(s.drop_first(), c);
    }
}

/// `first_white` lies between zero and the length, and past the first
/// character when that is not white space.
pub proof fn lemma_first_white_bounds(s: Seq<char>)
    ensures
        0 <= first_white(s) <= s.len(),
        s.len() > 0 && !is_white(s[0]) ==> first_white(s) >= 1,
    decreases s.len(),
{
    if s.len() > 0 && !is_white(s[0]) {
        lemma_first_white_bounds(s.drop_first());
    }
}

/// `skip_white` does not lengthen its argument and leaves no white space in
/// front.
pub proof fn lemma_skip_white_len(s: Seq<char>)
    ensures
        skip_white(s).len() <= s.len(),
        skip_white(s).len() > 0 ==> !is_white(skip_white(s)[0]),
    decreases s.len(),
{
    if s.len() > 0 && is_white(s[0]) {
        lemma_skip_white_len(s.drop_first());
    }
}

/// The lines of `s` (`str::lines`): split at each `\n`, a `\r` before it
/// dropped, with no empty line after a final `\n`.
pub open spec fn lines(s: Seq<char>) -> Seq<Seq<char>>
    decreases s.len(),
{
    if s.len() == 0 {
        Seq::empty()
    } else {
        let i = first_index_of(s, '\n');
        proof {
            lemma_first_index_bounds(s, '\n');
        }
        if i < s.len() {
            let line = s.take(i);
            seq![
                if line.len() > 0 && line.last() == '\r' {
                    line.drop_last()
                } else {
                    line
                },
            ] + lines(s.skip(i + 1))
        } else {
            seq![s]
        }
    }
}

/// The white-space separated words of `s` (`str::split_whitespace`).
pub open spec fn words(s: Seq<char>) -> Seq<Seq<char>>
    decreases s.len(),
{
    let t = skip_white(s);
    proof {
        lemma_skip_white_len(s);
        lemma_first_white_bounds(t);
    }
    if t.len() == 0 {
        Seq::empty()
    } else {
        seq![t.take(first_white(t))] + words(t.skip(first_white(t)))
    }
}

proof fn lemma_first_index_at(s: Seq<char>, c: char, n: int)
    requires
        0 <= n <= s.len(),
        forall|k: int| 0 <= k < n ==> s[k] != c,
        n == s.len() || s[n] == c,
    ensures
        first_index_of(s, c) == n,
    decreases n,
{
    if n > 0 {
        lemma_first_index_at(s.drop_first(), c, n - 1);
    }
}

proof fn lemma_first_white_at(s: Seq<char>, n: int)
    requires
        0 <= n <= s.len(),
        forall|k: int| 0 <= k < n ==> !is_white(s[k]),
        n == s.len() || is_white(s[n]),
    ensures
        first_white(s) == n,
    decreases n,
{
    if n > 0 {
        lemma_first_white_at(s.drop_first(), n - 1);
    }
}

proof fn lemma_skip_white_at(s: Seq<char>, n: int)
    requires
        0 <= n <= s.len(),
        forall|k: int| 0 <= k < n ==> is_white(s[k]),
        n == s.len() || !is_white(s[n]),
    ensures
        skip_white(s) == s.skip(n),
    decreases n,
{
    if n > 0 {
        lemma_skip_white_at(s.drop_first(), n - 1);
        assert(s.drop_first().skip(n - 1) == s.skip(n));
    } else {
        assert(s.skip(0) == s);
    }
}

proof fn lemma_trim_end_at(s: Seq<char>, n: int)
    requires
        0 <= n <= s.len(),
        forall|k: int| n <= k < s.len() ==> is_white(s[k]),
        n == 0 || !is_white(s[n - 1]),
    ensures
        trim_end(s) == s.take(n),
    decreases s.len() - n,
{
    if n < s.len() {
        lemma_trim_end_at(s.drop_last(), n);
        assert(s.drop_last().take(n) == s.take(n));
    } else {
        assert(s.take(n) == s);
    }
}

/// The lines of `s`.
pub fn split_lines(s: &Vec<char>) -> (out: Vec<Vec<char>>)
    ensures
        out@.map_values(|l: Vec<char>| l@) == lines(s@),
{
    let mut out: Vec<Vec<char>> = Vec::new();
    let mut i: usize = 0;
    proof {
        assert(s@.skip(0) == s@);
        assert(out@.map_values(|l: Vec<char>| l@) + lines(s@) =~= lines(s@));
    }
    while i < s.len()
        invariant
            i <= s@.len(),
            out@.map_values(|l: Vec<char>| l@) + lines(s@.skip(i as int)) == lines(s@),
        decreases s@.len() - i,
    {
        let ghost rest = s@.skip(i as int);
        let mut j: usize = i;
        while j < s.len() && s[j] != '\n'
            invariant
                i <= j <= s@.len(),
                forall|k: int| i <= k < j ==> s@[k] != '\n',
            decreases s@.len() - j,
        {
            j = j + 1;
        }
        proof {
            lemma_first_index_at(rest, '\n', j - i);
        }
        let mut end = j;
        if j < s.len() && end > i && s[end - 1] == '\r' {
            end = end - 1;
        }
        let mut line: Vec<char> = Vec::new();
        let mut k: usize = i;
        while k < end
            invariant
                i <= k <= end <= s@.len(),
                line@ == s@.subrange(i as int, k as int),
            decreases end - k,
        {
            line.push(s[k]);
            k = k + 1;
        }
        let ghost before = out@.map_values(|l: Vec<char>| l@);
        out.push(line);
        proof {
            assert(out@.map_values(|l: Vec<char>| l@) =~= before.push(s@.subrange(i as int, end as int)));
            if j < s@.len() {
                let taken = rest.take(j - i);
                assert(taken == s@.subrange(i as int, j as int));
                assert(rest.skip(j - i + 1) == s@.skip(j + 1));
                if taken.len() > 0 && taken.last() == '\r' {
                    assert(taken.drop_last() == s@.subrange(i as int, end as int));
                } else {
                    assert(taken == s@.subrange(i as int, end as int));
                }
                assert(lines(rest) == seq![s@.subrange(i as int, end as int)] + lines(s@.skip(j + 1)));
                assert(before.push(s@.subrange(i as int, end as int)) + lines(s@.skip(j + 1)) =~= before
                    + lines(rest));
            } else {
                assert(rest == s@.subrange(i as int, end as int));
                assert(lines(rest) == seq![rest]);
                assert(s@.skip(j as int).len() == 0);
                assert(lines(s@.skip(j as int)) == Seq::<Seq<char>>::empty());
                assert(before.push(rest) + lines(s@.skip(j as int)) =~= before + lines(rest));
            }
        }
        if j < s.len() {
            i = j + 1;
        } else {
            i = j;
        }
    }
    proof {
        assert(s@.skip(i as int).len() == 0);
        assert(out@.map_values(|l: Vec<char>| l@) + lines(s@.skip(i as int)) == out@.map_values(
            |l: Vec<char>| l@,
        ));
    }
    out
}

/// The words of `s`.
pub fn split_words(s: &Vec<char>) -> (out: Vec<Vec<char>>)
    ensures
        out@.map_values(|w: Vec<char>| w@) == words(s@),
{
    let mut out: Vec<Vec<char>> = Vec::new();
    let mut i: usize = 0;
    proof {
        assert(s@.skip(0) == s@);
        assert(out@.map_values(|w: Vec<char>| w@) + words(s@) =~= words(s@));
    }
    while i < s.len()
        invariant
            i <= s@.len(),
            out@.map_values(|w: Vec<char>| w@) + words(s@.skip(i as int)) == words(s@),
        decreases s@.len() - i,
    {
        let ghost rest = s@.skip(i as int);
        let mut a: usize = i;
        while a < s.len() && white(s[a])
            invariant
                i <= a <= s@.len(),
                forall|k: int| i <= k < a ==> is_white(s@[k]),
            decreases s@.len() - a,
        {
            a = a + 1;
        }
        proof {
            lemma_skip_white_at(rest, a - i);
            assert(rest.skip(a - i) == s@.skip(a as int));
        }
        if a == s.len() {
            proof {
                assert(skip_white(rest).len() == 0);
                assert(words(rest) == Seq::<Seq<char>>::empty());
                assert(s@.skip(a as int).len() == 0);
                assert(words(s@.skip(a as int)) == Seq::<Seq<char>>::empty()) by {
                    assert(skip_white(s@.skip(a as int)) == s@.skip(a as int));
                }
            }
            i = a;
        } else {
            let mut b: usize = a;
            while b < s.len() && !white(s[b])
                invariant
                    a <= b <= s@.len(),
                    forall|k: int| a <= k < b ==> !is_white(s@[k]),
                decreases s@.len() - b,
            {
                b = b + 1;
            }
            let ghost t = s@.skip(a as int);
            proof {
                lemma_first_white_at(t, b - a);
                assert(t.take(b - a) == s@.subrange(a as int, b as int));
                assert(t.skip(b - a) == s@.skip(b as int));
                assert(words(rest) == seq![s@.subrange(a as int, b as int)] + words(s@.skip(b as int)));
            }
            let mut word: Vec<char> = Vec::new();
            let mut k: usize = a;
            while k < b
                invariant
                    a <= k <= b <= s@.len(),
                    word@ == s@.subrange(a as int, k as int),
                decreases b - k,
            {
                word.push(s[k]);
                k = k + 1;
            }
            let ghost before = out@.map_values(|w: Vec<char>| w@);
            out.push(word);
            proof {
                assert(out@.map_values(|w: Vec<char>| w@) =~= before.push(s@.subrange(a as int, b as int)));
                assert(before.push(s@.subrange(a as int, b as int)) + words(s@.skip(b as int)) =~= before
                    + words(rest));
            }
            i = b;
        }
    }
    proof {
        assert(s@.skip(i as int).len() == 0);
        assert(skip_white(s@.skip(i as int)) == s@.skip(i as int));
        assert(out@.map_values(|w: Vec<char>| w@) + words(s@.skip(i as int)) == out@.map_values(
            |w: Vec<char>| w@,
        ));
    }
    out
}

/// `s` without leading and trailing white space.
pub fn trim_chars(s: &Vec<char>) -> (t: Vec<char>)
    ensures
        t@ == trim(s@),
{
    let mut a: usize = 0;
    while a < s.len() && white(s[a])
        invariant
            a <= s@.len(),
            forall|k: int| 0 <= k < a ==> is_white(s@[k]),
        decreases s@.len() - a,
    {
        a = a + 1;
    }
    let mut b: usize = s.len();
    while b > a && white(s[b - 1])
        invariant
            a <= b <= s@.len(),
            forall|k: int| b <= k < s@.len() ==> is_white(s@[k]),
        decreases b,
    {
        b = b - 1;
    }
    proof {
        lemma_skip_white_at(s@, a as int);
        let u = s@.skip(a as int);
        assert forall|k: int| b - a <= k < u.len() implies is_white(u[k]) by {
            assert(u[k] == s@[a + k]);
        }
        if b - a > 0 {
            assert(u[b - a - 1] == s@[b - 1]);
        }
        lemma_trim_end_at(u, b - a);
        assert(u.take(b - a) == s@.subrange(a as int, b as int));
    }
    let mut t: Vec<char> = Vec::new();
    let mut k: usize = a;
    while k < b
        invariant
            a <= k <= b <= s@.len(),
            t@ == s@.subrange(a as int, k as int),
        decreases b - k,
    {
        t.push(s[k]);
        k = k + 1;
    }
    t
}

/// Whether `s` begins with `prefix`.
pub open spec fn starts_with(s: Seq<char>, prefix: Seq<char>) -> bool {
    prefix.len() <= s.len() && s.take(prefix.len() as int) == prefix
}

/// Whether `s` begins with `prefix`.
pub fn begins_with(s: &Vec<char>, prefix: &str) -> (b: bool)
    ensures
        b == starts_with(s@, prefix@),
{
    let p = chars_of(prefix);
    if p.len() > s.len() {
        return false;
    }
    let mut i: usize = 0;
    while i < p.len()
        invariant
            p@ == prefix@,
            p@.len() <= s@.len(),
            i <= p@.len(),
            forall|k: int| 0 <= k < i ==> s@[k] == p@[k],
        decreases p@.len() - i,
    {
        if s[i] != p[i] {
            proof {
                assert(s@.take(p@.len() as int)[i as int] != p@[i as int]);
            }
            return false;
        }
        i = i + 1;
    }
    proof {
        assert(s@.take(p@.len() as int) =~= p@);
    }
    true
}

/// Whether `c` is an ASCII digit.
pub open spec fn is_digit(c: char) -> bool {
    '0' <= c && c <= '9'
}

/// The value of the decimal digits `d`.
pub open spec fn digits_value(d: Seq<char>) -> nat
    decreases d.len(),
{
    if d.len() == 0 {
        0
    } else {
        digits_value(d.drop_last()) * 10 + ((d.last() as nat) - ('0' as nat)) as nat
    }
}

/// Whether every character of `d` is a digit.
pub open spec fn all_digits(d: Seq<char>) -> bool {
    forall|i: int| 0 <= i < d.len() ==> is_digit(#[trigger] d[i])
}

/// What `str::parse::<u64>` gives for `s`, as an option: an optional `+`
/// followed by at least one digit, and a value that fits in 64 bits.
pub open spec fn parse_u64(s: Seq<char>) -> Option<u64> {
    let d = if s.len() > 0 && s[0] == '+' {
        s.drop_first()
    } else {
        s
    };
    if d.len() == 0 || !all_digits(d) || digits_value(d) > u64::MAX {
        None
    } else {
        Some(digits_value(d) as u64)
    }
}

proof fn lemma_digits_grow(d: Seq<char>, k: int)
    requires
        0 <= k <= d.len(),
        forall|i: int| 0 <= i < d.len() ==> is_digit(#[trigger] d[i]),
    ensures
        digits_value(d.take(k)) <= digits_value(d),
    decreases d.len() - k,
{
    if k < d.len() {
        lemma_digits_grow(d.drop_last(), k);
        assert(d.drop_last().take(k) == d.take(k));
    } else {
        assert(d.take(k) == d);
    }
}

/// The number that `s` writes, as `str::parse::<u64>` reads it; `None` where
/// that parse fails.
pub fn parse_number(s: &Vec<char>) -> (n: Option<u64>)
    ensures
        n == parse_u64(s@),
{
    let start: usize = if s.len() > 0 && s[0] == '+' {
        1
    } else {
        0
    };
    let ghost d = if s@.len() > 0 && s@[0] == '+' {
        s@.drop_first()
    } else {
        s@
    };
    proof {
        assert(d == s@.skip(start as int));
    }
    if start == s.len() {
        return None;
    }
    let mut value: u64 = 0;
    let mut i: usize = start;
    while i < s.len()
        invariant
            start <= i <= s@.len(),
            d == s@.skip(start as int),
            d == (if s@.len() > 0 && s@[0] == '+' {
                s@.drop_first()
            } else {
                s@
            }),
            forall|k: int| 0 <= k < i - start ==> is_digit(#[trigger] d[k]),
            value == digits_value(d.take(i - start)),
        decreases s@.len() - i,
    {
        let c = s[i];
        if !('0' <= c && c <= '9') {
            proof {
                assert(d[i - start] == c);
                assert(!is_digit(d[i - start]));
                assert(!all_digits(d));
            }
            return None;
        }
        let digit = (c as u32 - '0' as u32) as u64;
        proof {
            assert(d[i - start] == c);
            assert(d.take(i + 1 - start).drop_last() == d.take(i - start));
            assert(d.take(i + 1 - start).last() == c);
        }
        if value > (u64::MAX - digit) / 10 {
            proof {
                assert(value * 10 + digit > u64::MAX) by (nonlinear_arith)
                    requires
                        value > (u64::MAX - digit) / 10,
                        0 <= digit <= 9,
                ;
                assert(digits_value(d.take(i + 1 - start)) == value * 10 + digit);
                if all_digits(d) {
                    lemma_digits_grow(d, i + 1 - start);
                    assert(digits_value(d) > u64::MAX);
                }
            }
            return None;
        }
        value = value * 10 + digit;
        i = i + 1;
    }
    proof {
        assert(d.take(i - start) == d);
    }
    Some(value)
}

/// The part of `s` between its first and second `:` (or its end);
/// `str::split(':').nth(1)`.
pub open spec fn second_field(s: Seq<char>) -> Option<Seq<char>> {
    let i = first_index_of(s, ':');
    if i >= s.len() {
        None
    } else {
        let rest = s.skip(i + 1);
        Some(rest.take(first_index_of(rest, ':')))
    }
}

/// The part of `s` between its first and second `:`, if it has a `:`.
pub fn colon_field(s: &Vec<char>) -> (f: Option<Vec<char>>)
    ensures
        f matches Some(v) ==> second_field(s@) == Some(v@),
        f is None ==> second_field(s@) is None,
{
    let mut i: usize = 0;
    while i < s.len() && s[i] != ':'
        invariant
            i <= s@.len(),
            forall|k: int| 0 <= k < i ==> s@[k] != ':',
        decreases s@.len() - i,
    {
        i = i + 1;
    }
    proof {
        lemma_first_index_at(s@, ':', i as int);
    }
    if i == s.len() {
        return None;
    }
    let mut j: usize = i + 1;
    while j < s.len() && s[j] != ':'
        invariant
            i + 1 <= j <= s@.len(),
            forall|k: int| i + 1 <= k < j ==> s@[k] != ':',
        decreases s@.len() - j,
    {
        j = j + 1;
    }
    let ghost rest = s@.skip(i + 1);
    proof {
        lemma_first_index_at(rest, ':', j - i - 1);
        assert(rest.take(j - i - 1) == s@.subrange(i + 1, j as int));
    }
    let mut f: Vec<char> = Vec::new();
    let mut k: usize = i + 1;
    while k < j
        invariant
            i + 1 <= k <= j <= s@.len(),
            f@ == s@.subrange(i + 1, k as int),
        decreases j - k,
    {
        f.push(s[k]);
        k = k + 1;
    }
    Some(f)
}

} // verus!
