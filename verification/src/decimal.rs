//! Fixed-point decimal numbers: six fractional digits held in an `i64`.
//!
//! Money amounts, prices and quantities reach the engine as text. They are
//! kept as whole numbers of millionths, so that sums and comparisons are exact.

use vstd::prelude::*;
use vstd::string::*;
use vstd::utf8::is_ascii_chars;

verus! {

/// Number of fixed-point units in one whole unit.
pub const SCALE: i64 = 1_000_000;

/// The largest number of digits accepted before the decimal point.
pub const MAX_WHOLE_DIGITS: usize = 12;

/// The number of digits kept after the decimal point.
pub const FRACTION_DIGITS: usize = 6;

/// Whether `c` is one of the characters `0` to `9`.
pub open spec fn is_digit(c: char) -> bool {
    '0' <= c && c <= '9'
}

/// The number that the digit character `c` stands for.
pub open spec fn digit_value(c: char) -> int {
    c as int - 48
}

/// Whether every character of `s` is a digit.
pub open spec fn all_digits(s: Seq<char>) -> bool {
    forall|i: int| 0 <= i < s.len() ==> is_digit(#[trigger] s[i])
}

/// The number written by the digits `s` in base ten; the empty string is zero.
pub open spec fn digits_value(s: Seq<char>) -> int
    decreases s.len(),
{
    if s.len() == 0 {
        0
    } else {
        digits_value(s.drop_last()) * 10 + digit_value(s.last())
    }
}

/// How many digits `s` starts with.
pub open spec fn leading_digits(s: Seq<char>) -> int
    decreases s.len(),
{
    if s.len() > 0 && is_digit(s[0]) {
        1 + leading_digits(s.drop_first())
    } else {
        0
    }
}

/// The first six digits of the fraction `f`, with zeros where `f` is shorter.
pub open spec fn padded_fraction(f: Seq<char>) -> Seq<char> {
    Seq::new(6, |j: int| if j < f.len() { f[j] } else { '0' })
}

/// Ten to the power `n`.
pub open spec fn pow10(n: nat) -> int
    decreases n,
{
    if n == 0 {
        1
    } else {
        10 * pow10((n - 1) as nat)
    }
}

/// The value of the decimal numeral `s` in millionths, or `None` where `s`
/// is no numeral.
///
/// A numeral is an optional `-`, then one to twelve digits, then optionally
/// a `.` and at least one digit. Digits after the sixth fractional digit are
/// dropped.
pub open spec fn decimal_micros(s: Seq<char>) -> Option<int> {
    let negative = s.len() > 0 && s[0] == '-';
    let body = if negative { s.drop_first() } else { s };
    let k = leading_digits(body);
    let whole = digits_value(body.take(k)) * 1_000_000;
    if k < 1 || k > 12 {
        None
    } else if k == body.len() {
        Some(if negative { -whole } else { whole })
    } else if body[k] != '.' {
        None
    } else {
        let f = body.skip(k + 1);
        let m = whole + digits_value(padded_fraction(f));
        if f.len() == 0 || !all_digits(f) {
            None
        } else {
            Some(if negative { -m } else { m })
        }
    }
}

/// A run of `k` digits that ends at the end of `s` or before a character
/// that is no digit is exactly the leading run; a run of `k` digits alone
/// is at most the leading run.
pub proof fn lemma_leading_digits(s: Seq<char>, k: int)
    requires
        0 <= k <= s.len(),
        forall|i: int| 0 <= i < k ==> is_digit(#[trigger] s[i]),
    ensures
        leading_digits(s) >= k,
        (k == s.len() || !is_digit(s[k])) ==> leading_digits(s) == k,
    decreases k,
{
    if k > 0 {
        let t = s.drop_first();
        assert(is_digit(s[0]));
        assert forall|i: int| 0 <= i < k - 1 implies is_digit(#[trigger] t[i]) by {
            assert(t[i] == s[i + 1]);
        }
        lemma_leading_digits(t, k - 1);
        if k < s.len() {
            assert(t[k - 1] == s[k]);
        }
    } else {
        lemma_leading_digits_are_digits(s);
    }
}

/// The leading run lies within `s` and holds digits only.
pub proof fn lemma_leading_digits_are_digits(s: Seq<char>)
    ensures
        0 <= leading_digits(s) <= s.len(),
        forall|i: int| 0 <= i < leading_digits(s) ==> is_digit(#[trigger] s[i]),
        leading_digits(s) < s.len() ==> !is_digit(s[leading_digits(s)]),
    decreases s.len(),
{
    if s.len() > 0 && is_digit(s[0]) {
        let t = s.drop_first();
        lemma_leading_digits_are_digits(t);
        assert forall|i: int| 0 <= i < leading_digits(s) implies is_digit(#[trigger] s[i]) by {
            if i > 0 {
                assert(s[i] == t[i - 1]);
            }
        }
        if leading_digits(s) < s.len() {
            assert(s[leading_digits(s)] == t[leading_digits(t)]);
        }
    }
}

/// A numeral is made of the characters `-`, `.` and the digits, which are
/// all ASCII.
pub proof fn lemma_numeral_is_ascii(s: Seq<char>)
    requires
        decimal_micros(s) is Some,
    ensures
        forall|i: int| 0 <= i < s.len() ==> (#[trigger] s[i] == '-' || s[i] == '.' || is_digit(s[i])),
{
    let negative = s.len() > 0 && s[0] == '-';
    let body = if negative { s.drop_first() } else { s };
    let off: int = if negative { 1 } else { 0 };
    let k = leading_digits(body);
    lemma_leading_digits_are_digits(body);
    assert forall|i: int| 0 <= i < s.len() implies (#[trigger] s[i] == '-' || s[i] == '.'
        || is_digit(s[i])) by {
        if i >= off {
            let j = i - off;
            assert(s[i] == body[j]);
            if j < k {
                assert(is_digit(body[j]));
            } else if j > k {
                let f = body.skip(k + 1);
                assert(f[j - k - 1] == body[j]);
            }
        }
    }
}

/// Appending a digit to a run of digits.
proof fn lemma_digits_value_push(s: Seq<char>, from: int, to: int)
    requires
        0 <= from <= to < s.len(),
    ensures
        digits_value(s.subrange(from, to + 1)) == digits_value(s.subrange(from, to)) * 10
            + digit_value(s[to]),
{
    let t = s.subrange(from, to + 1);
    assert(t.drop_last() =~= s.subrange(from, to));
    assert(t.last() == s[to]);
}

/// Reads a decimal numeral as a whole number of millionths.
///
/// Returns `None` where the text is no numeral: see [`decimal_micros`].
pub fn parse_decimal(s: &str) -> (r: Option<i64>)
    ensures
        match r {
            Some(v) => decimal_micros(s@) == Some(v as int),
            None => decimal_micros(s@) is None,
        },
{
    if !s.is_ascii() {
        proof {
            if decimal_micros(s@) is Some {
                lemma_numeral_is_ascii(s@);
            }
        }
        return None;
    }
    broadcast use is_ascii_spec_bytes;

    let b = s.as_bytes();
    let n = b.len();
    assert(n == s@.len());
    assert(forall|i: int| 0 <= i < n ==> b@[i] == (#[trigger] s@[i]) as u8);
    let negative = n > 0 && b[0] == 0x2d;
    let start: usize = if negative { 1 } else { 0 };
    let ghost body = if negative { s@.drop_first() } else { s@ };
    assert(negative == (s@.len() > 0 && s@[0] == '-'));
    assert(forall|i: int| 0 <= i < body.len() ==> body[i] == s@[i + start]);

    let mut i: usize = start;
    let mut whole: i64 = 0;
    while i < n && i - start < MAX_WHOLE_DIGITS && b[i] >= 0x30 && b[i] <= 0x39
        invariant
            start <= i <= n,
            i - start <= 12,
            n == s@.len(),
            n == b@.len(),
            body.len() == n - start,
            forall|j: int| 0 <= j < n ==> b@[j] == (#[trigger] s@[j]) as u8,
            is_ascii_chars(s@),
            forall|j: int| 0 <= j < body.len() ==> #[trigger] body[j] == s@[j + start],
            forall|j: int| 0 <= j < i - start ==> is_digit(#[trigger] body[j]),
            whole == digits_value(body.subrange(0, i - start)),
            0 <= whole < pow10((i - start) as nat),
        decreases n - i,
    {
        proof {
            let j = i - start;
            assert(body[j] == s@[i as int]);
            assert(is_digit(body[j]));
            lemma_digits_value_push(body, 0, j);
            assert(pow10((j + 1) as nat) == 10 * pow10(j as nat));
            lemma_pow10_bound((j + 1) as nat);
        }
        whole = whole * 10 + (b[i] - 0x30) as i64;
        i = i + 1;
    }
    let ghost k = (i - start) as int;
    proof {
        lemma_pow10_bound(k as nat);
        assert(body.take(k) =~= body.subrange(0, k));
        if i < n {
            assert(body[k] == s@[i as int]);
        }
    }
    if i == start {
        proof {
            lemma_leading_digits(body, 0);
        }
        return None;
    }
    if i == n {
        proof {
            lemma_leading_digits(body, k);
        }
        let w = whole * SCALE;
        return Some(if negative { -w } else { w });
    }
    if b[i] >= 0x30 && b[i] <= 0x39 {
        proof {
            lemma_leading_digits(body, k + 1);
        }
        return None;
    }
    proof {
        lemma_leading_digits(body, k);
    }
    if b[i] != 0x2e {
        return None;
    }
    let fstart = i + 1;
    let ghost f = body.skip(k + 1);
    assert(forall|j: int| 0 <= j < f.len() ==> f[j] == s@[j + fstart]);
    if fstart == n {
        return None;
    }
    let mut p: usize = fstart;
    while p < n && b[p] >= 0x30 && b[p] <= 0x39
        invariant
            fstart <= p <= n,
            n == s@.len(),
            n == b@.len(),
            f.len() == n - fstart,
            forall|j: int| 0 <= j < n ==> b@[j] == (#[trigger] s@[j]) as u8,
            is_ascii_chars(s@),
            forall|j: int| 0 <= j < f.len() ==> #[trigger] f[j] == s@[j + fstart],
            forall|j: int| 0 <= j < p - fstart ==> is_digit(#[trigger] f[j]),
        decreases n - p,
    {
        proof {
            assert(f[p - fstart] == s@[p as int]);
        }
        p = p + 1;
    }
    if p < n {
        proof {
            assert(f[p - fstart] == s@[p as int]);
            assert(!is_digit(f[p - fstart]));
        }
        return None;
    }
    assert(all_digits(f));
    let ghost pf = padded_fraction(f);
    let mut q: usize = 0;
    let mut frac: i64 = 0;
    while q < FRACTION_DIGITS
        invariant
            q <= 6,
            fstart < n,
            n == s@.len(),
            n == b@.len(),
            f.len() == n - fstart,
            pf == padded_fraction(f),
            all_digits(f),
            forall|j: int| 0 <= j < n ==> b@[j] == (#[trigger] s@[j]) as u8,
            is_ascii_chars(s@),
            forall|j: int| 0 <= j < f.len() ==> #[trigger] f[j] == s@[j + fstart],
            frac == digits_value(pf.subrange(0, q as int)),
            0 <= frac < pow10(q as nat),
        decreases 6 - q,
    {
        let d: i64 = if q < n - fstart {
            proof {
                assert(f[q as int] == s@[q + fstart]);
                assert(is_digit(f[q as int]));
            }
            (b[fstart + q] - 0x30) as i64
        } else {
            0
        };
        proof {
            assert(d == digit_value(pf[q as int]));
            lemma_digits_value_push(pf, 0, q as int);
            assert(pow10((q + 1) as nat) == 10 * pow10(q as nat));
            lemma_pow10_bound((q + 1) as nat);
        }
        frac = frac * 10 + d;
        q = q + 1;
    }
    proof {
        assert(pf.subrange(0, 6) =~= pf);
        lemma_pow10_bound(6);
    }
    let m = whole * SCALE + frac;
    Some(if negative { -m } else { m })
}

/// The powers of ten up to the twelfth.
pub proof fn lemma_pow10_bound(n: nat)
    ensures
        n <= 12 ==> 1 <= pow10(n) <= 1_000_000_000_000,
        n == 6 ==> pow10(n) == 1_000_000,
        n == 12 ==> pow10(n) == 1_000_000_000_000,
        n <= 6 ==> pow10(n) <= 1_000_000,
{
    reveal_with_fuel(pow10, 14);
}

} // verus!
