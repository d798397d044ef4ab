//! Decimal digits: the `u8` parse of `str::parse`, the canonical octet form
//! that IPv4 addresses use, and decimal rendering of integers.

use vstd::prelude::*;
use vstd::string::*;
use crate::text::push_char;

verus! {

pub open spec fn is_digit(c: char) -> bool {
    '0' <= c && c <= '9'
}

pub open spec fn digit_value(c: char) -> nat {
    (c as int - '0' as int) as nat
}

pub open spec fn digit_char(d: nat) -> char {
    (d + '0' as int) as char
}

pub open spec fn all_digits(s: Seq<char>) -> bool {
    forall|i: int| 0 <= i < s.len() ==> #[trigger] is_digit(s[i])
}

/// The value of a string of decimal digits.
pub open spec fn digits_value(s: Seq<char>) -> nat
    decreases s.len(),
{
    if s.len() == 0 {
        0
    } else {
        digits_value(s.drop_last()) * 10 + digit_value(s.last())
    }
}

/// What `s.parse::<u8>()` gives: an optional `+`, then at least one decimal
/// digit, with a value that fits in a `u8` (leading zeros allowed).
pub open spec fn parse_u8_spec(s: Seq<char>) -> Option<u8> {
    let body = if s.len() > 0 && s[0] == '+' { s.drop_first() } else { s };
    if body.len() > 0 && all_digits(body) && digits_value(body) <= 255 {
        Some(digits_value(body) as u8)
    } else {
        None
    }
}

/// An octet as the IPv4 address syntax writes it: one to three digits, no
/// leading zero unless the octet is `0` itself, value at most 255.
pub open spec fn canonical_octet(s: Seq<char>) -> Option<u8> {
    if 1 <= s.len() <= 3 && all_digits(s) && (s.len() == 1 || s[0] != '0') && digits_value(s)
        <= 255 {
        Some(digits_value(s) as u8)
    } else {
        None
    }
}

/// The decimal rendering of `n`, as `format!("{}", n)` writes it.
pub open spec fn decimal(n: nat) -> Seq<char>
    decreases n,
{
    if n < 10 {
        seq![digit_char(n)]
    } else {
        decimal(n / 10).push(digit_char(n % 10))
    }
}

proof fn lemma_digit_char(d: nat)
    requires
        d < 10,
    ensures
        is_digit(digit_char(d)),
        digit_value(digit_char(d)) == d,
{
}

proof fn lemma_char_digit(c: char)
    requires
        is_digit(c),
    ensures
        digit_char(digit_value(c)) == c,
        digit_value(c) < 10,
{
}

/// The decimal rendering is a non-empty string of digits with the value
/// rendered, and it starts with `0` only for zero.
pub proof fn lemma_decimal(n: nat)
    ensures
        decimal(n).len() >= 1,
        all_digits(decimal(n)),
        digits_value(decimal(n)) == n,
        n >= 10 ==> decimal(n)[0] != '0',
        n < 10 ==> decimal(n).len() == 1,
        10 <= n < 100 ==> decimal(n).len() == 2,
        100 <= n < 1000 ==> decimal(n).len() == 3,
    decreases n,
{
    lemma_digit_char(n % 10);
    vstd::arithmetic::div_mod::lemma_fundamental_div_mod(n as int, 10);
    if n >= 10 {
        lemma_decimal(n / 10);
        let p = decimal(n / 10);
        assert(decimal(n).drop_last() =~= p);
        assert(decimal(n).last() == digit_char(n % 10));
        assert(digits_value(decimal(n)) == digits_value(p) * 10 + digit_value(digit_char(n % 10)));
        if n / 10 < 10 {
            lemma_digit_char(n / 10);
        }
        assert(decimal(n)[0] == p[0]);
        assert(digits_value(decimal(n)) == n);
    } else {
        lemma_digit_char(n);
        lemma_digits_value_single(digit_char(n));
    }
}

proof fn lemma_digits_value_single(c: char)
    ensures
        digits_value(seq![c]) == digit_value(c),
{
    let s = seq![c];
    assert(s.drop_last() =~= Seq::<char>::empty());
    assert(digits_value(Seq::<char>::empty()) == 0);
    assert(s.last() == c);
    assert(digits_value(s) == digits_value(s.drop_last()) * 10 + digit_value(s.last()));
}

/// Rendering a `u8` in decimal and parsing it back gives the same value.
pub proof fn lemma_parse_u8_of_decimal(n: u8)
    ensures
        parse_u8_spec(decimal(n as nat)) == Some(n),
        canonical_octet(decimal(n as nat)) == Some(n),
{
    lemma_decimal(n as nat);
    let s = decimal(n as nat);
    assert(is_digit(s[0]));
}

/// The canonical form of an octet is its decimal rendering.
pub proof fn lemma_canonical_octet_is_decimal(s: Seq<char>)
    requires
        canonical_octet(s) is Some,
    ensures
        s == decimal(canonical_octet(s)->0 as nat),
{
    let v = digits_value(s);
    assert(is_digit(s[0]));
    lemma_char_digit(s[0]);
    if s.len() == 1 {
        assert(s =~= seq![s[0]]);
        lemma_digits_value_single(s[0]);
        assert(decimal(v) =~= s);
    } else if s.len() == 2 {
        assert(is_digit(s[1]));
        lemma_char_digit(s[1]);
        let p = s.drop_last();
        assert(p =~= seq![s[0]]);
        lemma_digits_value_single(s[0]);
        assert(digits_value(p) == digit_value(s[0]));
        assert(v / 10 == digit_value(s[0]));
        assert(v % 10 == digit_value(s[1]));
        assert(decimal(v) == decimal(v / 10).push(digit_char(v % 10)));
        assert(decimal(v / 10) == seq![digit_char(v / 10)]);
        assert(decimal(v) =~= s);
    } else {
        assert(is_digit(s[1]));
        assert(is_digit(s[2]));
        lemma_char_digit(s[1]);
        lemma_char_digit(s[2]);
        let p = s.drop_last();
        let q = p.drop_last();
        assert(q =~= seq![s[0]]);
        lemma_digits_value_single(s[0]);
        assert(digits_value(q) == digit_value(s[0]));
        assert(digits_value(p) == digit_value(s[0]) * 10 + digit_value(s[1]));
        assert(v / 10 == digits_value(p));
        assert(v % 10 == digit_value(s[2]));
        assert(digits_value(p) / 10 == digit_value(s[0]));
        assert(digits_value(p) % 10 == digit_value(s[1]));
        let w = digits_value(p);
        assert(decimal(w) == decimal(w / 10).push(digit_char(w % 10)));
        assert(decimal(w / 10) == seq![digit_char(w / 10)]);
        assert(decimal(w) =~= p);
        assert(decimal(v) == decimal(v / 10).push(digit_char(v % 10)));
        assert(decimal(v) =~= s);
    }
}

fn digit_to_char(d: u32) -> (c: char)
    requires
        d < 10,
    ensures
        c == digit_char(d as nat),
{
    ((d as u8) + 48u8) as char
}

/// Appends the decimal rendering of `n`.
pub fn push_decimal(out: &mut String, n: u32)
    ensures
        final(out)@ == old(out)@ + decimal(n as nat),
    decreases n,
{
    if n >= 10 {
        push_decimal(out, n / 10);
    }
    let c = digit_to_char(n % 10);
    push_char(out, c);
    if n >= 10 {
        assert(final(out)@ =~= old(out)@ + decimal(n as nat));
    } else {
        assert(final(out)@ =~= old(out)@ + decimal(n as nat));
    }
}

/// Scans `s` from `start` on: whether every remaining character is a
/// decimal digit and, if so, their value capped at 256.
fn scan_digits(s: &str, start: usize) -> (res: (bool, u32))
    requires
        start <= s@.len(),
    ensures
        res.0 == all_digits(s@.skip(start as int)),
        res.0 ==> res.1 == (if digits_value(s@.skip(start as int)) < 256 {
            digits_value(s@.skip(start as int))
        } else {
            256
        }),
{
    let n = s.unicode_len();
    let mut acc: u32 = 0;
    let mut i: usize = start;
    assert(s@.subrange(start as int, start as int) =~= Seq::<char>::empty());
    while i < n
        invariant
            n == s@.len(),
            start <= i <= n,
            all_digits(s@.subrange(start as int, i as int)),
            acc == (if digits_value(s@.subrange(start as int, i as int)) < 256 {
                digits_value(s@.subrange(start as int, i as int))
            } else {
                256
            }),
        decreases n - i,
    {
        let c = s.get_char(i);
        let ghost prev = s@.subrange(start as int, i as int);
        let ghost next = s@.subrange(start as int, i + 1);
        assert(next.drop_last() =~= prev);
        assert(next.last() == c);
        if !('0' <= c && c <= '9') {
            assert(s@.skip(start as int)[i - start] == c);
            assert(!is_digit(s@.skip(start as int)[i - start]));
            return (false, 0);
        }
        let d = (c as u32) - 48;
        assert(d == digit_value(c));
        assert(digits_value(next) == digits_value(prev) * 10 + d);
        if acc * 10 + d >= 256 {
            acc = 256;
        } else {
            acc = acc * 10 + d;
        }
        i += 1;
    }
    assert(s@.subrange(start as int, n as int) =~= s@.skip(start as int));
    (true, acc)
}

/// `s.parse::<u8>()`, with `None` for every error.
pub fn parse_u8(s: &str) -> (r: Option<u8>)
    ensures
        r == parse_u8_spec(s@),
{
    let n = s.unicode_len();
    let start: usize = if n > 0 && s.get_char(0) == '+' { 1 } else { 0 };
    if start == 1 {
        assert(s@.skip(1) =~= s@.drop_first());
    } else {
        assert(s@.skip(0) =~= s@);
    }
    if start >= n {
        return None;
    }
    let (ok, v) = scan_digits(s, start);
    if ok && v <= 255 {
        Some(v as u8)
    } else {
        None
    }
}

/// The octet that `s` writes in IPv4 address syntax, if it is one.
pub fn parse_canonical_octet(s: &str) -> (r: Option<u8>)
    ensures
        r == canonical_octet(s@),
{
    let n = s.unicode_len();
    if n < 1 || n > 3 {
        return None;
    }
    if n > 1 && s.get_char(0) == '0' {
        return None;
    }
    assert(s@.skip(0) =~= s@);
    let (ok, v) = scan_digits(s, 0);
    if ok && v <= 255 {
        Some(v as u8)
    } else {
        None
    }
}

} // verus!
