//! Durations of the key syntax: `500`, `500ms`, `1.5s`, `1m30s`.
//!
//! A duration is a sum of terms, each a decimal number with a unit. The sum is exact and is
//! rounded once, to the nearest millisecond. With `k` characters in the text no number has more
//! than `k` digits behind its point, so the sum is counted in units of `10^-k` milliseconds.
use vstd::prelude::*;
use vstd::slice::slice_subrange;
use crate::strings::{chars_of, concat3, decimal, lemma_decimal_digits, strip_prefix, text};

verus! {

/// `10^n`.
pub open spec fn pow10(n: nat) -> nat
    decreases n,
{
    if n == 0 {
        1
    } else {
        10 * pow10((n - 1) as nat)
    }
}

// === Numbers ===

pub open spec fn is_digit(c: char) -> bool {
    '0' <= c <= '9'
}

/// The characters that a number is made of.
pub open spec fn number_char(c: char) -> bool {
    is_digit(c) || c == '.'
}

/// How many characters at the start of a text belong to a number.
pub open spec fn number_len(s: Seq<char>) -> nat
    decreases s.len(),
{
    if s.len() > 0 && number_char(s[0]) {
        1 + number_len(s.skip(1))
    } else {
        0
    }
}

/// How many characters of a text are the given one.
pub open spec fn count_char(s: Seq<char>, c: char) -> nat
    decreases s.len(),
{
    if s.len() == 0 {
        0
    } else {
        count_char(s.drop_last(), c) + if s.last() == c {
            1nat
        } else {
            0nat
        }
    }
}

/// Digits with at most one point among them, and at least one digit.
pub open spec fn valid_number(s: Seq<char>) -> bool {
    count_char(s, '.') <= 1 && count_char(s, '.') < s.len()
}

/// The number that the digits spell, the point left out.
pub open spec fn digits_value(s: Seq<char>) -> nat
    decreases s.len(),
{
    if s.len() == 0 {
        0
    } else if s.last() == '.' {
        digits_value(s.drop_last())
    } else {
        10 * digits_value(s.drop_last()) + (s.last() as nat - 48) as nat
    }
}

/// How many characters stand behind the point.
pub open spec fn fraction_len(s: Seq<char>) -> nat
    decreases s.len(),
{
    if count_char(s, '.') == 0 || s.last() == '.' {
        0
    } else {
        1 + fraction_len(s.drop_last())
    }
}

// === Units ===

/// The unit at the start of a text: its milliseconds and its length. A number that ends the text
/// needs none, if no other number has one; it counts milliseconds.
pub open spec fn unit(s: Seq<char>, has_units: bool) -> Option<(nat, nat)> {
    if "ms"@.is_prefix_of(s) {
        Some((1, 2))
    } else if "h"@.is_prefix_of(s) {
        Some((3_600_000, 1))
    } else if "m"@.is_prefix_of(s) {
        Some((60_000, 1))
    } else if "s"@.is_prefix_of(s) {
        Some((1_000, 1))
    } else if s.len() == 0 && !has_units {
        Some((1, 0))
    } else {
        None
    }
}

/// The sum of the terms in units of `10^-k` milliseconds.
pub open spec fn sum_of_terms(s: Seq<char>, k: nat, has_units: bool) -> Option<nat>
    decreases s.len(),
{
    let n = number_len(s);
    proof {
        lemma_number_len(s);
        lemma_unit_len(s.skip(n as int), has_units);
    }
    if s.len() == 0 {
        Some(0)
    } else if n == 0 || !valid_number(s.take(n as int)) {
        None
    } else {
        match unit(s.skip(n as int), has_units) {
            None => None,
            Some((ms, len)) => match sum_of_terms(s.skip((n + len) as int), k, true) {
                None => None,
                Some(rest) => Some(term(s.take(n as int), ms, k) + rest),
            },
        }
    }
}

pub proof fn lemma_number_len(s: Seq<char>)
    ensures
        number_len(s) <= s.len(),
        forall|i: int| 0 <= i < number_len(s) ==> number_char(#[trigger] s[i]),
        number_len(s) < s.len() ==> !number_char(s[number_len(s) as int]),
    decreases s.len(),
{
    if s.len() > 0 && number_char(s[0]) {
        lemma_number_len(s.skip(1));
        assert forall|i: int| 0 <= i < number_len(s) implies number_char(#[trigger] s[i]) by {
            if i > 0 {
                assert(s.skip(1)[i - 1] == s[i]);
            }
        }
    }
}

pub proof fn lemma_unit_len(s: Seq<char>, has_units: bool)
    ensures
        unit(s, has_units) matches Some((ms, len)) ==> len <= s.len() && ms <= 3_600_000,
{
    reveal_strlit("ms");
    reveal_strlit("h");
    reveal_strlit("m");
    reveal_strlit("s");
}

/// One number times its unit.
pub open spec fn term(number: Seq<char>, ms: nat, k: nat) -> nat {
    digits_value(number) * ms * pow10((k - fraction_len(number)) as nat)
}

/// The nearest whole number of milliseconds, halves up, at most `u64::MAX`.
pub open spec fn rounded(sum: nat, k: nat) -> nat {
    let ms = (2 * sum + pow10(k)) / (2 * pow10(k));
    if ms <= u64::MAX {
        ms
    } else {
        u64::MAX as nat
    }
}

/// The milliseconds that a duration stands for, or what is wrong with it.
pub open spec fn duration(s: Seq<char>) -> Result<u64, Seq<char>> {
    if s.len() == 0 {
        Err("empty duration"@)
    } else {
        match sum_of_terms(s, s.len(), false) {
            Some(sum) => Ok(rounded(sum, s.len()) as u64),
            None => Err("invalid duration: '"@ + s + "'"@),
        }
    }
}

// === Decimal digits, least significant first ===

/// The number that digits spell, the least significant first.
pub open spec fn value(d: Seq<u8>) -> nat
    decreases d.len(),
{
    if d.len() == 0 {
        0
    } else {
        value(d.drop_last()) + (d.last() as nat) * pow10((d.len() - 1) as nat)
    }
}

pub open spec fn all_digits(d: Seq<u8>) -> bool {
    forall|i: int| 0 <= i < d.len() ==> #[trigger] d[i] < 10
}

pub proof fn lemma_pow10_add(a: nat, b: nat)
    ensures
        pow10(a + b) == pow10(a) * pow10(b),
        pow10(a) > 0,
    decreases a,
{
    if a > 0 {
        lemma_pow10_add((a - 1) as nat, b);
        let x = pow10((a - 1) as nat);
        let y = pow10(b);
        assert(10 * (x * y) == (10 * x) * y) by (nonlinear_arith);
        assert(pow10(a + b) == 10 * pow10((a + b - 1) as nat));
    } else {
        assert(1 * pow10(b) == pow10(b)) by (nonlinear_arith);
    }
}

proof fn lemma_value_push(d: Seq<u8>, x: u8)
    ensures
        value(d.push(x)) == value(d) + x * pow10(d.len()),
{
    assert(d.push(x).drop_last() =~= d);
}

proof fn lemma_value_update(d: Seq<u8>, i: int, x: u8)
    requires
        0 <= i < d.len(),
    ensures
        value(d.update(i, x)) == value(d) + (x - d[i]) * pow10(i as nat),
    decreases d.len(),
{
    let e = d.update(i, x);
    if i == d.len() - 1 {
        assert(e.drop_last() =~= d.drop_last());
        let p = pow10(i as nat) as int;
        assert((x - d[i]) * p == x * p - d[i] * p) by (nonlinear_arith);
    } else {
        assert(e.drop_last() =~= d.drop_last().update(i, x));
        lemma_value_update(d.drop_last(), i, x);
    }
}

proof fn lemma_value_bound(d: Seq<u8>)
    requires
        all_digits(d),
    ensures
        value(d) < pow10(d.len()),
    decreases d.len(),
{
    if d.len() > 0 {
        assert(all_digits(d.drop_last())) by {
            assert forall|i: int| 0 <= i < d.drop_last().len() implies #[trigger] d.drop_last()[i]
                < 10 by {
                assert(d[i] < 10);
            }
        }
        lemma_value_bound(d.drop_last());
        let p = pow10((d.len() - 1) as nat) as int;
        let l = d.last() as int;
        assert(d[d.len() - 1] < 10);
        assert(l * p <= 9 * p) by (nonlinear_arith)
            requires
                0 <= l <= 9,
                p >= 0,
        ;
    }
}

proof fn lemma_value_split(d: Seq<u8>, k: nat)
    requires
        k <= d.len(),
    ensures
        value(d) == value(d.take(k as int)) + pow10(k) * value(d.skip(k as int)),
    decreases d.len() - k,
{
    if k == d.len() {
        assert(d.take(k as int) =~= d);
        assert(d.skip(k as int).len() == 0);
        assert(pow10(k) * 0 == 0) by (nonlinear_arith);
    } else {
        let e = d.drop_last();
        lemma_value_split(e, k);
        assert(e.take(k as int) =~= d.take(k as int));
        assert(d.skip(k as int).drop_last() =~= e.skip(k as int));
        assert(d.skip(k as int).last() == d.last());
        let rest = (d.len() - 1 - k) as nat;
        lemma_pow10_add(k, rest);
        let a = pow10(k) as int;
        let b = value(e.skip(k as int)) as int;
        let c = d.last() as int;
        let p = pow10(rest) as int;
        assert(a * (b + c * p) == a * b + c * (a * p)) by (nonlinear_arith);
    }
}

/// Adds `digits * factor * 10^shift` to `acc`.
fn add_product(acc: &mut Vec<u8>, digits: &[u8], factor: u32, shift: usize)
    requires
        all_digits(old(acc)@),
        all_digits(digits@),
        factor <= 3_600_000,
        old(acc)@.len() >= shift,
    ensures
        all_digits(final(acc)@),
        final(acc)@.len() >= old(acc)@.len(),
        value(final(acc)@) == value(old(acc)@) + value(digits@) * factor * pow10(shift as nat),
{
    let mut i: usize = 0;
    let mut pos: usize = shift;
    let mut carry: u64 = 0;
    let ghost start = acc@;
    proof {
        assert(value(digits@.take(0)) == 0);
        assert(0 * factor * pow10(shift as nat) == 0) by (nonlinear_arith);
        assert(0 * pow10(pos as nat) == 0) by (nonlinear_arith);
    }
    while i < digits.len() || carry > 0
        invariant
            i <= digits@.len(),
            all_digits(acc@),
            all_digits(digits@),
            factor <= 3_600_000,
            carry <= factor + 1,
            i < digits@.len() ==> pos == shift + i,
            shift + i <= pos <= acc@.len(),
            acc@.len() >= start.len(),
            value(acc@) + carry * pow10(pos as nat) == value(start) + value(
                digits@.take(i as int),
            ) * factor * pow10(shift as nat),
        decreases digits@.len() - i, carry + acc@.len() - pos,
    {
        if pos == acc.len() {
            proof {
                lemma_value_push(acc@, 0);
                assert(0 * pow10(acc@.len()) == 0) by (nonlinear_arith);
            }
            acc.push(0);
        }
        let ghost before = acc@;
        let ghost carry0 = carry;
        let ghost i0 = i as int;
        let digit: u64 = if i < digits.len() {
            digits[i] as u64
        } else {
            0
        };
        proof {
            assert(digit * factor <= 9 * 3_600_000) by (nonlinear_arith)
                requires
                    digit <= 9,
                    factor <= 3_600_000,
            ;
            assert(digit * factor <= 9 * factor) by (nonlinear_arith)
                requires
                    digit <= 9,
            ;
            assert(pos < acc.len());
        }
        let t: u64 = acc[pos] as u64 + digit * factor as u64 + carry;
        acc[pos] = (t % 10) as u8;
        carry = t / 10;
        proof {
            let p = pow10(pos as nat) as int;
            lemma_value_update(before, pos as int, (t % 10) as u8);
            let a = before[pos as int] as int;
            let r = (t % 10) as int;
            let q = (t / 10) as int;
            let df = digit * factor;
            assert((r - a) * p + q * (10 * p) == carry0 * p + df * p) by (nonlinear_arith)
                requires
                    a + df + carry0 == 10 * q + r,
            ;
            assert(pow10((pos + 1) as nat) == 10 * p);
            if i0 < digits@.len() {
                assert(digits@.take(i0 + 1).drop_last() =~= digits@.take(i0));
                assert(digits@.take(i0 + 1).last() == digit);
                lemma_pow10_add(i0 as nat, shift as nat);
                let v = value(digits@.take(i0)) as int;
                let pi = pow10(i0 as nat) as int;
                let ps = pow10(shift as nat) as int;
                let f = factor as int;
                let d = digit as int;
                assert((v + d * pi) * f * ps == v * f * ps + (d * f) * (pi * ps))
                    by (nonlinear_arith);
            } else {
                assert(0 * factor == 0);
                assert(0 * p == 0);
            }
        }
        pos = pos + 1;
        if i < digits.len() {
            i = i + 1;
        }
    }
    proof {
        assert(digits@.take(digits@.len() as int) =~= digits@);
        assert(0 * pow10(pos as nat) == 0) by (nonlinear_arith);
    }
}

proof fn lemma_value_zeros(d: Seq<u8>)
    requires
        forall|i: int| 0 <= i < d.len() ==> #[trigger] d[i] == 0,
    ensures
        value(d) == 0,
    decreases d.len(),
{
    if d.len() > 0 {
        assert forall|i: int| 0 <= i < d.drop_last().len() implies #[trigger] d.drop_last()[i]
            == 0 by {
            assert(d[i] == 0);
        }
        lemma_value_zeros(d.drop_last());
        assert(d[d.len() - 1] == 0);
        assert(0 * pow10((d.len() - 1) as nat) == 0) by (nonlinear_arith);
    }
}

proof fn lemma_all_digits_parts(d: Seq<u8>, k: int)
    requires
        all_digits(d),
        0 <= k <= d.len(),
    ensures
        all_digits(d.take(k)),
        all_digits(d.skip(k)),
{
    assert forall|i: int| 0 <= i < d.take(k).len() implies #[trigger] d.take(k)[i] < 10 by {
        assert(d[i] < 10);
    }
    assert forall|i: int| 0 <= i < d.skip(k).len() implies #[trigger] d.skip(k)[i] < 10 by {
        assert(d[i + k] < 10);
    }
}

/// A number with one more digit behind it, at most `u64::MAX`.
fn append_digit(n: u64, digit: u8) -> (r: u64)
    ensures
        r == if 10 * n + digit <= u64::MAX {
            10 * n + digit
        } else {
            u64::MAX as int
        },
{
    if n > u64::MAX / 10 {
        u64::MAX
    } else {
        (n * 10).saturating_add(digit as u64)
    }
}

/// The number that the digits from `from` on spell, at most `u64::MAX`.
fn saturated(d: &[u8], from: usize) -> (n: u64)
    requires
        all_digits(d@),
        from <= d@.len(),
    ensures
        n == if value(d@.skip(from as int)) <= u64::MAX {
            value(d@.skip(from as int))
        } else {
            u64::MAX as nat
        },
{
    let mut n: u64 = 0;
    let mut i: usize = d.len();
    while i > from
        invariant
            from <= i <= d@.len(),
            all_digits(d@),
            n == if value(d@.skip(i as int)) <= u64::MAX {
                value(d@.skip(i as int))
            } else {
                u64::MAX as nat
            },
        decreases i,
    {
        i = i - 1;
        proof {
            let rest = d@.skip(i as int);
            lemma_value_split(rest, 1);
            assert(rest.skip(1) =~= d@.skip(i + 1));
            assert(rest.take(1).drop_last() =~= Seq::<u8>::empty());
            assert(rest.take(1).last() == d@[i as int]);
            reveal_with_fuel(pow10, 2);
            assert(value(rest.take(1)) == d@[i as int]) by {
                assert(value(Seq::<u8>::empty()) == 0);
                let x = d@[i as int] as int;
                assert(x * 1 == x) by (nonlinear_arith);
            }
            assert(value(rest) == d@[i as int] + 10 * value(d@.skip(i + 1)));
        }
        n = append_digit(n, d[i]);
    }
    n
}

/// The sum rounded to whole milliseconds.
fn round_to_ms(d: &[u8], k: usize) -> (ms: u64)
    requires
        all_digits(d@),
        0 < k <= d@.len(),
    ensures
        ms == rounded(value(d@), k as nat),
{
    let whole = saturated(d, k);
    let half = d[k - 1] >= 5;
    proof {
        let p = pow10(k as nat) as int;
        let q = pow10((k - 1) as nat) as int;
        let low = d@.take(k as int);
        let hi = value(d@.skip(k as int)) as int;
        let lo = value(low) as int;
        let digit = d@[k - 1] as int;
        lemma_value_split(d@, k as nat);
        lemma_all_digits_parts(d@, k as int);
        lemma_value_bound(low);
        lemma_all_digits_parts(low, k - 1);
        assert(low.drop_last() =~= low.take(k - 1));
        lemma_value_bound(low.drop_last());
        let rest = value(low.drop_last()) as int;
        lemma_pow10_add(k as nat, 0);
        assert(lo == rest + digit * q);
        assert(half == (2 * lo >= p)) by {
            if half {
                assert(digit * q >= 5 * q) by (nonlinear_arith)
                    requires
                        digit >= 5,
                        q >= 0,
                ;
            } else {
                assert(digit * q <= 4 * q) by (nonlinear_arith)
                    requires
                        digit <= 4,
                        q >= 0,
                ;
            }
        }
        let up: int = if half {
            1
        } else {
            0
        };
        let rem = 2 * lo + p - up * (2 * p);
        assert((2 * (lo + p * hi) + p) / (2 * p) == hi + up) by {
            assert(2 * (lo + p * hi) + p == (hi + up) * (2 * p) + rem) by (nonlinear_arith)
                requires
                    rem == 2 * lo + p - up * (2 * p),
            ;
            if half {
                assert(rem == 2 * lo - p) by (nonlinear_arith)
                    requires
                        rem == 2 * lo + p - up * (2 * p),
                        up == 1,
                ;
            }
            vstd::arithmetic::div_mod::lemma_fundamental_div_mod_converse(
                2 * (lo + p * hi) + p,
                2 * p,
                hi + up,
                rem,
            );
        }
    }
    if half {
        whole.saturating_add(1)
    } else {
        whole
    }
}

/// The digits of a number, least significant first, and how many stand behind its point.
fn read_number(v: &[char]) -> (r: Option<(Vec<u8>, usize)>)
    requires
        forall|i: int| 0 <= i < v@.len() ==> number_char(#[trigger] v@[i]),
    ensures
        r is Some <==> valid_number(v@),
        r matches Some((digits, fraction)) ==> {
            &&& all_digits(digits@)
            &&& value(digits@) == digits_value(v@)
            &&& fraction == fraction_len(v@)
            &&& fraction <= v@.len()
        },
{
    let mut digits: Vec<u8> = Vec::new();
    let mut fraction: usize = 0;
    let mut points: usize = 0;
    let mut i: usize = v.len();
    proof {
        assert(v@.take(i as int) =~= v@);
        assert(digits_value(v@) * 1 == digits_value(v@)) by (nonlinear_arith);
    }
    while i > 0
        invariant
            i <= v@.len(),
            forall|j: int| 0 <= j < v@.len() ==> number_char(#[trigger] v@[j]),
            all_digits(digits@),
            points + digits@.len() + i == v@.len(),
            points + count_char(v@.take(i as int), '.') == count_char(v@, '.'),
            digits_value(v@) == digits_value(v@.take(i as int)) * pow10(digits@.len()) + value(
                digits@,
            ),
            points == 0 ==> fraction == 0,
            points == 0 && count_char(v@, '.') > 0 ==> fraction_len(v@) == fraction_len(
                v@.take(i as int),
            ) + digits@.len(),
            points == 1 ==> fraction == fraction_len(v@) && fraction <= v@.len(),
        decreases i,
    {
        i = i - 1;
        proof {
            assert(v@.take(i + 1).drop_last() =~= v@.take(i as int));
            assert(v@.take(i + 1).last() == v@[i as int]);
            assert(number_char(v@[i as int]));
        }
        if v[i] == '.' {
            if points == 0 {
                fraction = digits.len();
            }
            points = points + 1;
        } else {
            let digit: u8 = v[i] as u8 - 48;
            proof {
                lemma_value_push(digits@, digit);
                let a = digits_value(v@.take(i as int)) as int;
                let p = pow10(digits@.len()) as int;
                let x = digit as int;
                assert(pow10(digits@.len() + 1) == 10 * p);
                assert((10 * a + x) * p == a * (10 * p) + x * p) by (nonlinear_arith);
            }
            digits.push(digit);
        }
    }
    proof {
        assert(v@.take(0) =~= Seq::<char>::empty());
        assert(0 * pow10(digits@.len()) == 0) by (nonlinear_arith);
    }
    if points <= 1 && digits.len() > 0 {
        Some((digits, fraction))
    } else {
        None
    }
}

/// The unit at the start of a text.
fn read_unit(v: &[char], has_units: bool) -> (r: Option<(u32, usize)>)
    ensures
        match unit(v@, has_units) {
            Some((ms, len)) => r matches Some(u) && u.0 == ms && u.1 == len,
            None => r is None,
        },
{
    proof {
        lemma_unit_len(v@, has_units);
    }
    if strip_prefix(v, "ms").is_some() {
        Some((1, 2))
    } else if strip_prefix(v, "h").is_some() {
        Some((3_600_000, 1))
    } else if strip_prefix(v, "m").is_some() {
        Some((60_000, 1))
    } else if strip_prefix(v, "s").is_some() {
        Some((1_000, 1))
    } else if v.len() == 0 && !has_units {
        Some((1, 0))
    } else {
        None
    }
}

fn invalid_duration(s: &str) -> (e: String)
    ensures
        e@ == "invalid duration: '"@ + s@ + "'"@,
{
    concat3("invalid duration: '", s, "'")
}

/// How many characters at the start of a text belong to a number.
fn scan_number(v: &[char]) -> (n: usize)
    ensures
        n == number_len(v@),
{
    let mut n: usize = 0;
    proof {
        assert(v@.skip(0) =~= v@);
    }
    while n < v.len() && (('0' <= v[n] && v[n] <= '9') || v[n] == '.')
        invariant
            n <= v@.len(),
            number_len(v@) == n + number_len(v@.skip(n as int)),
        decreases v@.len() - n,
    {
        proof {
            assert(v@.skip(n as int).skip(1) =~= v@.skip(n + 1));
        }
        n = n + 1;
    }
    n
}

/// Parse a duration with units and compound durations, in milliseconds.
///
/// - Bare number: `500` is 500 ms
/// - With unit: `500ms`, `2s`, `1.5s`, `1m`, `1h`
/// - Compound: `1m30s`, `1h10m`, `2m500ms`
pub fn parse_duration(s: &str) -> (r: Result<u64, String>)
    ensures
        match duration(s@) {
            Ok(ms) => r == Ok::<u64, String>(ms),
            Err(e) => r matches Err(m) && m@ == e,
        },
{
    let v = chars_of(s);
    let k: usize = v.len();
    if k == 0 {
        return Err(text("empty duration"));
    }
    let mut acc: Vec<u8> = vec![0u8; k];
    let mut pos: usize = 0;
    let mut has_units = false;
    proof {
        lemma_value_zeros(acc@);
        assert(v@.skip(0) =~= v@);
        assert(all_digits(acc@));
    }
    while pos < k
        invariant
            pos <= k == v@.len(),
            v@ == s@,
            all_digits(acc@),
            k <= acc@.len(),
            sum_of_terms(v@, k as nat, false) == match sum_of_terms(
                v@.skip(pos as int),
                k as nat,
                has_units,
            ) {
                Some(rest) => Some(value(acc@) + rest),
                None => None,
            },
        decreases k - pos,
    {
        let ghost rest = v@.skip(pos as int);
        let tail = slice_subrange(v.as_slice(), pos, k);
        proof {
            assert(tail@ =~= rest);
            lemma_number_len(rest);
        }
        let n = scan_number(tail);
        if n == 0 {
            return Err(invalid_duration(s));
        }
        let number = slice_subrange(tail, 0, n);
        proof {
            assert(number@ =~= rest.take(n as int));
            assert forall|i: int| 0 <= i < number@.len() implies number_char(
                #[trigger] number@[i],
            ) by {
                assert(number_char(rest[i]));
            }
        }
        let (digits, fraction) = match read_number(number) {
            Some(x) => x,
            None => {
                return Err(invalid_duration(s));
            },
        };
        let after = slice_subrange(tail, n, tail.len());
        proof {
            assert(after@ =~= rest.skip(n as int));
            lemma_unit_len(after@, has_units);
        }
        let (ms, len) = match read_unit(after, has_units) {
            Some(u) => u,
            None => {
                return Err(invalid_duration(s));
            },
        };
        let ghost before = value(acc@);
        add_product(&mut acc, digits.as_slice(), ms, k - fraction);
        proof {
            assert(rest.skip((n + len) as int) =~= v@.skip(pos + n + len));
            assert(value(acc@) == before + term(number@, ms as nat, k as nat));
        }
        has_units = true;
        pos = pos + n + len;
    }
    proof {
        assert(v@.skip(k as int) =~= Seq::<char>::empty());
    }
    Ok(round_to_ms(acc.as_slice(), k))
}

// === Laws ===

proof fn lemma_decimal_number(n: nat)
    ensures
        digits_value(decimal(n)) == n,
        count_char(decimal(n), '.') == 0,
    decreases n,
{
    lemma_decimal_digits(n);
    let s = decimal(n);
    assert('0' <= s[s.len() - 1]);
    if n >= 10 {
        lemma_decimal_number(n / 10);
        assert(s.drop_last() =~= decimal(n / 10));
    } else {
        assert(s.drop_last() =~= Seq::<char>::empty());
        assert(digits_value(s.drop_last()) == 0);
        assert(count_char(s.drop_last(), '.') == 0);
    }
}

pub proof fn lemma_number_len_of(s: Seq<char>, rest: Seq<char>)
    requires
        forall|i: int| 0 <= i < s.len() ==> number_char(#[trigger] s[i]),
        rest.len() > 0 ==> !number_char(rest[0]),
    ensures
        number_len(s + rest) == s.len(),
    decreases s.len(),
{
    if s.len() == 0 {
        assert(s + rest =~= rest);
    } else {
        assert((s + rest).skip(1) =~= s.skip(1) + rest);
        assert(number_char(s[0]));
        assert forall|i: int| 0 <= i < s.skip(1).len() implies number_char(
            #[trigger] s.skip(1)[i],
        ) by {
            assert(number_char(s[i + 1]));
        }
        lemma_number_len_of(s.skip(1), rest);
    }
}

/// A whole number with a unit lasts that many units, and one without a unit that many
/// milliseconds, up to the longest duration that can be held.
pub proof fn law_whole_number_of_units(n: nat, suffix: Seq<char>, ms: nat)
    requires
        unit(suffix, false) == Some((ms, suffix.len())),
    ensures
        duration(decimal(n) + suffix) == Ok::<u64, Seq<char>>(
            if n * ms <= u64::MAX {
                (n * ms) as u64
            } else {
                u64::MAX
            },
        ),
{
    let number = decimal(n);
    let s = number + suffix;
    let k = s.len();
    lemma_decimal_digits(n);
    lemma_decimal_number(n);
    reveal_strlit("ms");
    reveal_strlit("h");
    reveal_strlit("m");
    reveal_strlit("s");
    assert forall|i: int| 0 <= i < number.len() implies number_char(#[trigger] number[i]) by {}
    if suffix.len() > 0 {
        let first = suffix.take(1)[0];
        assert(first == 'm' || first == 'h' || first == 's') by {
            assert("ms"@.is_prefix_of(suffix) ==> suffix.take(2)[0] == suffix[0]);
        }
        assert(!number_char(suffix[0]));
    }
    lemma_number_len_of(number, suffix);
    assert(s.take(number.len() as int) =~= number);
    assert(s.skip(number.len() as int) =~= suffix);
    assert(s.skip((number.len() + suffix.len()) as int) =~= Seq::<char>::empty());
    assert(sum_of_terms(Seq::<char>::empty(), k, true) == Some(0nat));
    assert(fraction_len(number) == 0);
    assert(sum_of_terms(s, k, false) == Some(n * ms * pow10(k)));
    lemma_whole_rounded(n * ms, k);
}

/// The sum of two sums, where both are there.
pub open spec fn both(a: Option<nat>, b: Option<nat>) -> Option<nat> {
    match (a, b) {
        (Some(x), Some(y)) => Some(x + y),
        _ => None,
    }
}

/// A unit is read the same whatever number follows.
pub proof fn lemma_unit_before(s: Seq<char>, rest: Seq<char>)
    requires
        unit(s, true) is Some,
        rest.len() > 0 ==> number_char(rest[0]),
    ensures
        unit(s + rest, true) == unit(s, true),
        s.len() > 0,
        !number_char(s[0]),
{
    reveal_strlit("ms");
    reveal_strlit("h");
    reveal_strlit("m");
    reveal_strlit("s");
    let t = s + rest;
    assert("ms"@[0] == 'm' && "ms"@[1] == 's');
    assert("h"@[0] == 'h');
    assert("m"@[0] == 'm');
    assert("s"@[0] == 's');
    assert(t.subrange(0, 1) =~= s.subrange(0, 1));
    assert(s.subrange(0, 1)[0] == s[0]);
    if s.len() > 1 {
        assert(t.subrange(0, 2) =~= s.subrange(0, 2));
        assert(s.subrange(0, 2)[0] == s[0]);
    } else if t.len() > 1 {
        assert(t.subrange(0, 2)[1] == rest[0]);
    }
}

/// Terms one after the other add up, the sum counted in units of any size: where both texts are
/// terms with units, their sum is that of the two.
proof fn lemma_terms_add_up(a: Seq<char>, b: Seq<char>, k: nat, has_units: bool)
    requires
        sum_of_terms(a, k, true) is Some,
        sum_of_terms(b, k, true) is Some,
    ensures
        sum_of_terms(a + b, k, has_units) == both(
            sum_of_terms(a, k, true),
            sum_of_terms(b, k, true),
        ) || a.len() == 0,
        sum_of_terms(a + b, k, true) == both(
            sum_of_terms(a, k, true),
            sum_of_terms(b, k, true),
        ),
    decreases a.len(),
{
    if a.len() == 0 {
        assert(a + b =~= b);
    } else {
        let n = number_len(a) as int;
        let number = a.take(n);
        let after = a.skip(n);
        lemma_number_len(a);
        lemma_number_len(b);
        lemma_unit_len(after, true);
        let len = unit(after, true)->Some_0.1 as int;
        if b.len() > 0 {
            assert(number_char(b[0]));
        }
        lemma_unit_before(after, b);
        assert forall|i: int| 0 <= i < number.len() implies number_char(#[trigger] number[i]) by {
            assert(number_char(a[i]));
        }
        lemma_number_len_of(number, after + b);
        assert(a + b =~= number + (after + b));
        assert((a + b).take(n) =~= number);
        assert((a + b).skip(n) =~= after + b);
        let rest = a.skip(n + len);
        assert((a + b).skip(n + len) =~= rest + b);
        assert(unit(after + b, has_units) == unit(after + b, true));
        lemma_terms_add_up(rest, b, k, true);
    }
}

/// Without a point, a sum of terms is a whole number of milliseconds.
proof fn lemma_whole_terms(s: Seq<char>, k: nat, has_units: bool)
    requires
        forall|i: int| 0 <= i < s.len() ==> #[trigger] s[i] != '.',
    ensures
        sum_of_terms(s, k, has_units) == match sum_of_terms(s, 0, has_units) {
            Some(ms) => Some(ms * pow10(k)),
            None => None,
        },
    decreases s.len(),
{
    let p = pow10(k);
    if s.len() == 0 {
        assert(0 * p == 0) by (nonlinear_arith);
    } else {
        let n = number_len(s) as int;
        lemma_number_len(s);
        let number = s.take(n);
        if n > 0 && valid_number(number) {
            if let Some((ms, len)) = unit(s.skip(n), has_units) {
                lemma_unit_len(s.skip(n), has_units);
                let rest = s.skip(n + len);
                assert forall|i: int| 0 <= i < rest.len() implies #[trigger] rest[i] != '.' by {
                    assert(s[i + n + len] != '.');
                }
                lemma_whole_terms(rest, k, true);
                assert forall|i: int| 0 <= i < number.len() implies #[trigger] number[i] != '.' by {
                    assert(s[i] != '.');
                }
                lemma_no_point(number);
                let x = digits_value(number) * ms;
                assert(fraction_len(number) == 0);
                assert(pow10(0) == 1);
                assert(x * 1 == x) by (nonlinear_arith);
                if let Some(y) = sum_of_terms(rest, 0, true) {
                    assert(x * p + y * p == (x + y) * p) by (nonlinear_arith);
                }
            }
        }
    }
}

proof fn lemma_no_point(s: Seq<char>)
    requires
        forall|i: int| 0 <= i < s.len() ==> #[trigger] s[i] != '.',
    ensures
        count_char(s, '.') == 0,
    decreases s.len(),
{
    if s.len() > 0 {
        assert(s[s.len() - 1] != '.');
        assert forall|i: int| 0 <= i < s.drop_last().len() implies #[trigger] s.drop_last()[i]
            != '.' by {
            assert(s[i] != '.');
        }
        lemma_no_point(s.drop_last());
    }
}

proof fn lemma_whole_rounded(ms: nat, k: nat)
    ensures
        rounded(ms * pow10(k), k) == if ms <= u64::MAX {
            ms
        } else {
            u64::MAX as nat
        },
{
    let p = pow10(k) as int;
    let x = ms as int;
    lemma_pow10_add(k, 0);
    assert(2 * (x * p) + p == x * (2 * p) + p) by (nonlinear_arith);
    vstd::arithmetic::div_mod::lemma_fundamental_div_mod_converse(
        2 * (x * p) + p,
        2 * p,
        x,
        p,
    );
}

/// Compound durations add up: `1m30s` lasts as long as `1m` and `30s` together, up to the longest
/// duration that can be held. Where a number has a point, the exact sums add up and are rounded
/// once.
pub proof fn law_compound_durations_add_up(a: Seq<char>, b: Seq<char>)
    requires
        a.len() > 0,
        b.len() > 0,
        sum_of_terms(a, (a + b).len(), true) is Some,
        sum_of_terms(b, (a + b).len(), true) is Some,
    ensures
        duration(a + b) == Ok::<u64, Seq<char>>(
            rounded(
                sum_of_terms(a, (a + b).len(), true)->Some_0 + sum_of_terms(
                    b,
                    (a + b).len(),
                    true,
                )->Some_0,
                (a + b).len(),
            ) as u64,
        ),
        !a.contains('.') && !b.contains('.') ==> {
            let ms = duration(a)->Ok_0 + duration(b)->Ok_0;
            &&& duration(a) is Ok
            &&& duration(b) is Ok
            &&& duration(a + b) == Ok::<u64, Seq<char>>(
                if ms <= u64::MAX {
                    ms as u64
                } else {
                    u64::MAX
                },
            )
        },
{
    let k = (a + b).len();
    lemma_terms_add_up(a, b, k, false);
    if !a.contains('.') && !b.contains('.') {
        assert forall|i: int| 0 <= i < a.len() implies #[trigger] a[i] != '.' by {
            assert(a.contains(a[i]));
        }
        assert forall|i: int| 0 <= i < b.len() implies #[trigger] b[i] != '.' by {
            assert(b.contains(b[i]));
        }
        lemma_whole_terms(a, k, true);
        lemma_whole_terms(b, k, true);
        lemma_whole_terms(a, a.len(), true);
        lemma_whole_terms(b, b.len(), true);
        let x = sum_of_terms(a, 0, true)->Some_0;
        let y = sum_of_terms(b, 0, true)->Some_0;
        let p = pow10(k);
        assert(x * p + y * p == (x + y) * p) by (nonlinear_arith);
        assert(a + Seq::<char>::empty() =~= a);
        assert(b + Seq::<char>::empty() =~= b);
        assert(sum_of_terms(Seq::<char>::empty(), a.len(), true) == Some(0nat));
        assert(sum_of_terms(Seq::<char>::empty(), b.len(), true) == Some(0nat));
        lemma_terms_add_up(a, Seq::empty(), a.len(), false);
        lemma_terms_add_up(b, Seq::empty(), b.len(), false);
        lemma_whole_rounded(x, a.len());
        lemma_whole_rounded(y, b.len());
        lemma_whole_rounded(x + y, k);
    }
}

} // verus!
