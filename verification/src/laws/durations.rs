//! How long durations are.
use vstd::prelude::*;
use crate::duration::{
    count_char, digits_value, duration, fraction_len, law_whole_number_of_units, lemma_number_len,
    lemma_number_len_of, lemma_pow10_add, lemma_unit_before, lemma_unit_len, number_char,
    number_len, pow10, rounded, sum_of_terms, unit, valid_number,
};
use crate::strings::{decimal, lemma_decimal_digits};

verus! {

/// At most the longest duration that can be held.
pub open spec fn capped(ms: int) -> u64 {
    if ms <= u64::MAX {
        ms as u64
    } else {
        u64::MAX
    }
}

pub open spec fn lasts(s: Seq<char>, ms: int) -> bool {
    duration(s) == Ok::<u64, Seq<char>>(capped(ms))
}

/// A number alone and one with `ms` counts milliseconds; `s` is a thousand of them, `m` sixty
/// thousand and `h` three million six hundred thousand.
pub proof fn law_units(n: nat)
    ensures
        lasts(decimal(n), n as int),
        lasts(decimal(n) + seq!['m', 's'], n as int),
        lasts(decimal(n) + seq!['s'], (n * 1_000) as int),
        lasts(decimal(n) + seq!['m'], (n * 60_000) as int),
        lasts(decimal(n) + seq!['h'], (n * 3_600_000) as int),
{
    reveal_strlit("ms");
    reveal_strlit("h");
    reveal_strlit("m");
    reveal_strlit("s");
    assert("ms"@ =~= seq!['m', 's']);
    assert("s"@ =~= seq!['s']);
    assert("m"@ =~= seq!['m']);
    assert("h"@ =~= seq!['h']);
    assert(seq!['m', 's'].subrange(0, 2) =~= seq!['m', 's']);
    assert(seq!['s'].subrange(0, 1) =~= seq!['s']);
    assert(seq!['m'].subrange(0, 1) =~= seq!['m']);
    assert(seq!['h'].subrange(0, 1) =~= seq!['h']);
    assert(seq!['m'][0] != 'h');
    assert(seq!['s'][0] != 'h' && seq!['s'][0] != 'm');
    assert(decimal(n) + Seq::<char>::empty() =~= decimal(n));
    assert(n * 1 == n) by (nonlinear_arith);
    law_whole_number_of_units(n, Seq::empty(), 1);
    law_whole_number_of_units(n, seq!['m', 's'], 1);
    law_whole_number_of_units(n, seq!['s'], 1_000);
    law_whole_number_of_units(n, seq!['m'], 60_000);
    law_whole_number_of_units(n, seq!['h'], 3_600_000);
}

proof fn lemma_append_digits(s: Seq<char>, tail: Seq<char>)
    requires
        forall|i: int| 0 <= i < tail.len() ==> '0' <= #[trigger] tail[i] <= '9',
    ensures
        digits_value(s + tail) == digits_value(s) * pow10(tail.len()) + digits_value(tail),
        count_char(s + tail, '.') == count_char(s, '.'),
        s.len() > 0 && s.last() == '.' ==> fraction_len(s + tail) == tail.len(),
    decreases tail.len(),
{
    if tail.len() == 0 {
        assert(s + tail =~= s);
        assert(digits_value(s) * 1 == digits_value(s)) by (nonlinear_arith);
    } else {
        let t = tail.drop_last();
        let all = s + tail;
        assert(all.drop_last() =~= s + t);
        assert('0' <= tail[tail.len() - 1] <= '9');
        assert forall|i: int| 0 <= i < t.len() implies '0' <= #[trigger] t[i] <= '9' by {
            assert('0' <= tail[i] <= '9');
        }
        lemma_append_digits(s, t);
        let x = digits_value(s) as int;
        let p = pow10(t.len()) as int;
        let y = digits_value(t) as int;
        let d = (tail.last() as int) - 48;
        assert(10 * (x * p + y) + d == x * (10 * p) + (10 * y + d)) by (nonlinear_arith);
        if s.len() > 0 && s.last() == '.' {
            assert(count_char(s, '.') > 0);
        }
    }
}

/// Seconds with three digits behind the point count every millisecond.
pub proof fn law_parts_of_a_second(n: nat, a: char, b: char, c: char)
    requires
        '0' <= a <= '9',
        '0' <= b <= '9',
        '0' <= c <= '9',
    ensures
        lasts(
            decimal(n) + seq!['.', a, b, c, 's'],
            n * 1000 + (a as int - 48) * 100 + (b as int - 48) * 10 + (c as int - 48),
        ),
{
    lemma_point(n, seq![a, b, c], seq!['s'], 1000);
    let tail = seq![a, b, c];
    let text = decimal(n) + seq!['.'] + tail + seq!['s'];
    assert(text =~= decimal(n) + seq!['.', a, b, c, 's']);
    reveal_with_fuel(digits_value, 4);
    assert(tail.drop_last() =~= seq![a, b]);
    assert(seq![a, b].drop_last() =~= seq![a]);
    assert(seq![a].drop_last() =~= Seq::<char>::empty());
    assert(digits_value(tail) == 100 * (a as int - 48) + 10 * (b as int - 48) + (c as int - 48));
    reveal_with_fuel(pow10, 4);
    assert(pow10(3) == 1000);
    let k = text.len();
    let v = n * 1000 + digits_value(tail);
    let p = pow10((k - 3) as nat);
    lemma_pow10_add(3, (k - 3) as nat);
    assert(pow10(k) == 1000 * p);
    assert(v * 1000 * p == v * (1000 * p)) by (nonlinear_arith);
    lemma_rounded(v, k);
}

/// A part of a millisecond is rounded: half a millisecond and more counts as a whole one.
pub proof fn law_parts_of_a_millisecond(n: nat, d: char)
    requires
        '0' <= d <= '9',
    ensures
        lasts(
            decimal(n) + seq!['.', d],
            if d >= '5' {
                (n + 1) as int
            } else {
                n as int
            },
        ),
{
    let tail = seq![d];
    lemma_point(n, tail, Seq::empty(), 1);
    let text = decimal(n) + seq!['.'] + tail + Seq::<char>::empty();
    assert(text =~= decimal(n) + seq!['.', d]);
    reveal_with_fuel(digits_value, 2);
    assert(tail.drop_last() =~= Seq::<char>::empty());
    let x = (d as int) - 48;
    assert(digits_value(tail) == x);
    reveal_with_fuel(pow10, 2);
    assert(pow10(1) == 10);
    let k = text.len();
    let p = pow10((k - 1) as nat) as int;
    lemma_pow10_add(1, (k - 1) as nat);
    lemma_pow10_add((k - 1) as nat, 0);
    assert(pow10(k) == 10 * p);
    let v = n * 10 + x;
    assert(v * 1 * p == v * p) by (nonlinear_arith);
    let q: int = if x >= 5 {
        (n + 1) as int
    } else {
        n as int
    };
    let r = 2 * (v * p) + 10 * p - q * (20 * p);
    assert(r == (2 * v + 10 - 20 * q) * p) by (nonlinear_arith)
        requires
            r == 2 * (v * p) + 10 * p - q * (20 * p),
    ;
    assert(0 <= r < 20 * p) by (nonlinear_arith)
        requires
            r == (2 * v + 10 - 20 * q) * p,
            0 <= 2 * v + 10 - 20 * q < 20,
            p > 0,
    ;
    vstd::arithmetic::div_mod::lemma_fundamental_div_mod_converse(
        2 * (v * p) + 10 * p,
        20 * p,
        q,
        r,
    );
}

proof fn lemma_rounded(v: nat, k: nat)
    ensures
        rounded(v * pow10(k), k) == capped(v as int),
{
    let p = pow10(k) as int;
    let x = v as int;
    lemma_pow10_add(k, 0);
    assert(2 * (x * p) + p == x * (2 * p) + p) by (nonlinear_arith);
    vstd::arithmetic::div_mod::lemma_fundamental_div_mod_converse(2 * (x * p) + p, 2 * p, x, p);
}

/// A number with a point: its digits, times its unit.
proof fn lemma_point(n: nat, tail: Seq<char>, suffix: Seq<char>, ms: nat)
    requires
        tail.len() > 0,
        forall|i: int| 0 <= i < tail.len() ==> '0' <= #[trigger] tail[i] <= '9',
        suffix == seq!['s'] && ms == 1000 || suffix.len() == 0 && ms == 1,
    ensures
        ({
            let s = decimal(n) + seq!['.'] + tail + suffix;
            let v = n * pow10(tail.len()) + digits_value(tail);
            &&& duration(s) == Ok::<u64, Seq<char>>(
                rounded(v * ms * pow10((s.len() - tail.len()) as nat), s.len()) as u64,
            )
        }),
{
    let head = decimal(n) + seq!['.'];
    let number = head + tail;
    let s = number + suffix;
    let k = s.len();
    assert(s =~= decimal(n) + seq!['.'] + tail + suffix);
    lemma_decimal_digits(n);
    lemma_decimal_value(n);
    assert(head.drop_last() =~= decimal(n));
    assert(head.last() == '.');
    lemma_append_digits(head, tail);
    assert(count_char(head, '.') == 1);
    assert(digits_value(head) == n);
    assert forall|i: int| 0 <= i < number.len() implies number_char(#[trigger] number[i]) by {
        if i < decimal(n).len() {
            assert('0' <= decimal(n)[i] <= '9');
        } else if i > decimal(n).len() {
            assert('0' <= tail[i - head.len()] <= '9');
        }
    }
    if suffix.len() > 0 {
        assert(!number_char(suffix[0]));
    }
    lemma_number_len_of(number, suffix);
    assert(s.take(number.len() as int) =~= number);
    assert(s.skip(number.len() as int) =~= suffix);
    reveal_strlit("ms");
    reveal_strlit("h");
    reveal_strlit("m");
    reveal_strlit("s");
    assert("s"@ =~= seq!['s']);
    assert("h"@[0] == 'h');
    assert("m"@[0] == 'm');
    assert("ms"@[0] == 'm');
    if suffix.len() > 0 {
        assert(suffix.subrange(0, 1) =~= suffix);
    }
    assert(unit(suffix, false) == Some((ms, suffix.len())));
    assert(s.skip((number.len() + suffix.len()) as int) =~= Seq::<char>::empty());
    assert(sum_of_terms(Seq::<char>::empty(), k, true) == Some(0nat));
    assert(valid_number(number));
}

proof fn lemma_decimal_value(n: nat)
    ensures
        digits_value(decimal(n)) == n,
        count_char(decimal(n), '.') == 0,
    decreases n,
{
    lemma_decimal_digits(n);
    let s = decimal(n);
    assert('0' <= s[s.len() - 1]);
    if n >= 10 {
        lemma_decimal_value(n / 10);
        assert(s.drop_last() =~= decimal(n / 10));
    } else {
        assert(s.drop_last() =~= Seq::<char>::empty());
        assert(digits_value(s.drop_last()) == 0);
        assert(count_char(s.drop_last(), '.') == 0);
    }
}

/// What does not begin with a number is no duration, and neither is nothing.
pub proof fn law_no_durations(s: Seq<char>)
    requires
        s.len() == 0 || !('0' <= s[0] <= '9' || s[0] == '.'),
    ensures
        duration(s) is Err,
{
}

proof fn lemma_bad_end(a: Seq<char>, b: Seq<char>, k: nat, has_units: bool)
    requires
        a.len() > 0,
        b.len() > 0,
        number_char(b[0]),
        sum_of_terms(a, k, true) is Some,
        sum_of_terms(b, k, true) is None,
    ensures
        sum_of_terms(a + b, k, has_units) is None,
    decreases a.len(),
{
    let n = number_len(a) as int;
    let number = a.take(n);
    let after = a.skip(n);
    lemma_number_len(a);
    lemma_unit_len(after, true);
    let len = unit(after, true)->Some_0.1 as int;
    lemma_unit_before(after, b);
    assert forall|i: int| 0 <= i < number.len() implies number_char(#[trigger] number[i]) by {
        assert(number_char(a[i]));
    }
    lemma_number_len_of(number, after + b);
    assert(a + b =~= number + (after + b));
    assert((a + b).take(n) =~= number);
    assert((a + b).skip(n) =~= after + b);
    let rest = a.skip(n + len);
    assert((a + b).skip(n + len) =~= rest + b);
    assert(unit(after + b, has_units) == unit(after + b, true));
    if rest.len() == 0 {
        assert(rest + b =~= b);
    } else {
        lemma_bad_end(rest, b, k, true);
    }
}

/// Behind a term with a unit every number needs one.
pub proof fn law_every_number_needs_a_unit(a: Seq<char>, n: nat)
    requires
        a.len() > 0,
        sum_of_terms(a, (a + decimal(n)).len(), true) is Some,
    ensures
        duration(a + decimal(n)) is Err,
{
    let b = decimal(n);
    let none = Seq::<char>::empty();
    lemma_decimal_digits(n);
    lemma_decimal_value(n);
    assert('0' <= b[0] <= '9');
    assert forall|i: int| 0 <= i < b.len() implies number_char(#[trigger] b[i]) by {}
    lemma_number_len_of(b, none);
    assert(b + none =~= b);
    assert(b.skip(b.len() as int) =~= none);
    reveal_strlit("ms");
    reveal_strlit("h");
    reveal_strlit("m");
    reveal_strlit("s");
    assert(unit(none, true) is None);
    lemma_bad_end(a, b, (a + b).len(), false);
}

/// A number with anything but a unit behind it is no duration.
pub proof fn law_other_units_are_refused(n: nat, c: char, rest: Seq<char>)
    requires
        c != 'm',
        c != 's',
        c != 'h',
        c != '.',
        !('0' <= c <= '9'),
    ensures
        duration(decimal(n) + seq![c] + rest) is Err,
{
    let b = decimal(n);
    let tail = seq![c] + rest;
    let s = b + tail;
    assert(s =~= decimal(n) + seq![c] + rest);
    lemma_decimal_digits(n);
    assert forall|i: int| 0 <= i < b.len() implies number_char(#[trigger] b[i]) by {}
    lemma_number_len_of(b, tail);
    assert(s.skip(b.len() as int) =~= tail);
    reveal_strlit("ms");
    reveal_strlit("h");
    reveal_strlit("m");
    reveal_strlit("s");
    assert("ms"@[0] == 'm');
    assert("h"@[0] == 'h');
    assert("m"@[0] == 'm');
    assert("s"@[0] == 's');
    assert(tail.subrange(0, 1)[0] == c);
    if tail.len() > 1 {
        assert(tail.subrange(0, 2)[0] == c);
    }
}

} // verus!
