//! Authentication utilities: parents and ancestors of processes.
use vstd::prelude::*;
use vstd::slice::slice_subrange;
use crate::strings::{
    chars_of, decimal, digit_char, is_white_space, lemma_decimal_digits, white_space,
};

verus! {

// === Parents ===

/// What stands behind the last character of a kind; nothing if there is none.
pub open spec fn after_last(s: Seq<char>, c: char) -> Option<Seq<char>>
    decreases s.len(),
{
    if s.len() == 0 {
        None
    } else if s.last() == c {
        Some(Seq::empty())
    } else {
        match after_last(s.drop_last(), c) {
            Some(rest) => Some(rest.push(s.last())),
            None => None,
        }
    }
}

/// How many characters at the start of a text are white space (`true`) or are not.
pub open spec fn run_length(s: Seq<char>, white: bool) -> nat
    decreases s.len(),
{
    if s.len() > 0 && white_space(s[0]) == white {
        1 + run_length(s.skip(1), white)
    } else {
        0
    }
}

/// A text without the white space at its start.
pub open spec fn trim_start(s: Seq<char>) -> Seq<char> {
    s.skip(run_length(s, true) as int)
}

/// The first field of a text.
pub open spec fn first_field(s: Seq<char>) -> Seq<char> {
    trim_start(s).take(run_length(trim_start(s), false) as int)
}

/// A text behind its first field.
pub open spec fn after_field(s: Seq<char>) -> Seq<char> {
    trim_start(s).skip(run_length(trim_start(s), false) as int)
}

/// The number that decimal digits spell.
pub open spec fn digits_value(s: Seq<char>) -> nat
    decreases s.len(),
{
    if s.len() == 0 {
        0
    } else {
        10 * digits_value(s.drop_last()) + (s.last() as nat - 48) as nat
    }
}

pub open spec fn all_digits(s: Seq<char>) -> bool {
    forall|i: int| 0 <= i < s.len() ==> '0' <= #[trigger] s[i] <= '9'
}

/// A 32-bit number in decimal, with or without a plus sign.
pub open spec fn number_of(s: Seq<char>) -> Option<u32> {
    let digits = if s.len() > 0 && s[0] == '+' {
        s.skip(1)
    } else {
        s
    };
    if digits.len() > 0 && all_digits(digits) && digits_value(digits) <= u32::MAX {
        Some(digits_value(digits) as u32)
    } else {
        None
    }
}

/// The parent in a process's stat line: `pid (comm) state ppid ...`. The command may hold spaces
/// and parentheses, so what counts stands behind the last one.
pub open spec fn parent_of(stat: Seq<char>) -> Option<u32> {
    match after_last(stat, ')') {
        None => None,
        Some(rest) => number_of(first_field(after_field(rest))),
    }
}

fn run_of(v: &[char], white: bool) -> (n: usize)
    ensures
        n == run_length(v@, white),
        n <= v@.len(),
{
    let mut n: usize = 0;
    proof {
        assert(v@.skip(0) =~= v@);
    }
    while n < v.len() && is_white_space(v[n]) == white
        invariant
            n <= v@.len(),
            run_length(v@, white) == n + run_length(v@.skip(n as int), white),
        decreases v@.len() - n,
    {
        proof {
            assert(v@.skip(n as int).skip(1) =~= v@.skip(n + 1));
        }
        n = n + 1;
    }
    n
}

/// The first field of a text, and what stands behind it.
fn split_field<'a>(v: &'a [char]) -> (r: (&'a [char], &'a [char]))
    ensures
        r.0@ == first_field(v@),
        r.1@ == after_field(v@),
{
    let start = run_of(v, true);
    let tail = slice_subrange(v, start, v.len());
    proof {
        assert(tail@ =~= trim_start(v@));
    }
    let n = run_of(tail, false);
    let field = slice_subrange(tail, 0, n);
    let rest = slice_subrange(tail, n, tail.len());
    proof {
        assert(field@ =~= first_field(v@));
        assert(rest@ =~= after_field(v@));
    }
    (field, rest)
}

proof fn lemma_digits_value_grows(s: Seq<char>, n: int)
    requires
        all_digits(s),
        0 <= n <= s.len(),
    ensures
        digits_value(s.take(n)) <= digits_value(s),
    decreases s.len() - n,
{
    if n == s.len() {
        assert(s.take(n) =~= s);
    } else {
        lemma_digits_value_grows(s, n + 1);
        assert(s.take(n + 1).drop_last() =~= s.take(n));
        assert(s.take(n + 1).last() == s[n]);
    }
}

fn has_only_digits(v: &[char]) -> (r: bool)
    ensures
        r == all_digits(v@),
{
    for i in 0..v.len()
        invariant
            forall|j: int| 0 <= j < i ==> '0' <= #[trigger] v@[j] <= '9',
    {
        let c = v[i];
        if c < '0' || c > '9' {
            assert(!('0' <= v@[i as int] && v@[i as int] <= '9'));
            return false;
        }
    }
    true
}

/// The number that digits spell, if it fits.
fn read_digits(v: &[char]) -> (r: Option<u32>)
    requires
        all_digits(v@),
    ensures
        r == if digits_value(v@) <= u32::MAX {
            Some(digits_value(v@) as u32)
        } else {
            None
        },
{
    let mut n: u64 = 0;
    for i in 0..v.len()
        invariant
            all_digits(v@),
            n == digits_value(v@.take(i as int)),
            n <= u32::MAX,
    {
        proof {
            assert(v@.take(i + 1).drop_last() =~= v@.take(i as int));
            assert(v@.take(i + 1).last() == v@[i as int]);
            assert('0' <= v@[i as int] <= '9');
        }
        n = n * 10 + (v[i] as u8 - 48) as u64;
        if n > u32::MAX as u64 {
            proof {
                lemma_digits_value_grows(v@, i + 1);
            }
            return None;
        }
    }
    proof {
        assert(v@.take(v@.len() as int) =~= v@);
    }
    Some(n as u32)
}

fn read_number(v: &[char]) -> (r: Option<u32>)
    ensures
        r == number_of(v@),
{
    let start: usize = if v.len() > 0 && v[0] == '+' {
        1
    } else {
        0
    };
    let digits = slice_subrange(v, start, v.len());
    proof {
        assert(digits@ =~= if v@.len() > 0 && v@[0] == '+' {
            v@.skip(1)
        } else {
            v@
        });
    }
    if digits.len() > 0 && has_only_digits(digits) {
        read_digits(digits)
    } else {
        None
    }
}

proof fn lemma_after_last(s: Seq<char>, c: char, n: int)
    requires
        0 <= n <= s.len(),
        forall|i: int| n <= i < s.len() ==> #[trigger] s[i] != c,
        n > 0 ==> s[n - 1] == c,
    ensures
        after_last(s, c) == if n > 0 {
            Some(s.skip(n))
        } else {
            None
        },
    decreases s.len(),
{
    if s.len() > 0 {
        if n == s.len() {
            assert(s.skip(n) =~= Seq::empty());
        } else {
            let t = s.drop_last();
            assert forall|i: int| n <= i < t.len() implies #[trigger] t[i] != c by {
                assert(s[i] != c);
            }
            assert(s[s.len() - 1] != c);
            lemma_after_last(t, c, n);
            if n > 0 {
                assert(t.skip(n).push(s.last()) =~= s.skip(n));
            }
        }
    }
}

/// The parent of a process, from its stat line.
/// Returns None if the line doesn't tell.
pub fn parse_parent_pid(stat: &str) -> (r: Option<u32>)
    ensures
        r == parent_of(stat@),
{
    let v = chars_of(stat);
    let mut n: usize = v.len();
    while n > 0 && v[n - 1] != ')'
        invariant
            n <= v@.len(),
            forall|i: int| n <= i < v@.len() ==> #[trigger] v@[i] != ')',
        decreases n,
    {
        n = n - 1;
    }
    proof {
        lemma_after_last(v@, ')', n as int);
    }
    if n == 0 {
        return None;
    }
    let rest = slice_subrange(v.as_slice(), n, v.len());
    proof {
        assert(rest@ =~= v@.skip(n as int));
    }
    let (_, behind) = split_field(rest);
    let (field, _) = split_field(behind);
    read_number(field)
}

proof fn lemma_run_length(s: Seq<char>, white: bool, n: int)
    requires
        0 <= n <= s.len(),
        forall|i: int| 0 <= i < n ==> white_space(#[trigger] s[i]) == white,
        n < s.len() ==> white_space(s[n]) != white,
    ensures
        run_length(s, white) == n,
    decreases n,
{
    if n > 0 {
        let t = s.skip(1);
        assert(white_space(s[0]) == white);
        assert forall|i: int| 0 <= i < n - 1 implies white_space(#[trigger] t[i]) == white by {
            assert(t[i] == s[i + 1]);
        }
        lemma_run_length(t, white, n - 1);
    }
}

proof fn lemma_decimal_value(n: nat)
    ensures
        digits_value(decimal(n)) == n,
    decreases n,
{
    if n < 10 {
        reveal_with_fuel(digits_value, 2);
        assert(decimal(n).last() == digit_char(n));
    } else {
        lemma_decimal_value(n / 10);
        assert(decimal(n).drop_last() =~= decimal(n / 10));
        assert(decimal(n).last() == digit_char(n % 10));
    }
}

/// The parent of a process is read from its stat line whatever its command is called: what stands
/// before the last closing parenthesis has no say.
pub proof fn law_parent_is_read_whatever_the_command(
    start: Seq<char>,
    state: char,
    parent: u32,
    tail: Seq<char>,
)
    requires
        !white_space(state),
        state != ')',
        forall|i: int| 0 <= i < tail.len() ==> #[trigger] tail[i] != ')',
    ensures
        parent_of(
            start + seq![')', ' ', state, ' '] + decimal(parent as nat) + seq![' '] + tail,
        ) == Some(parent),
{
    let number = decimal(parent as nat);
    let stat = start + seq![')', ' ', state, ' '] + number + seq![' '] + tail;
    let n = start.len() as int + 1;
    let rest = seq![' ', state, ' '] + number + seq![' '] + tail;
    lemma_decimal_digits(parent as nat);
    lemma_decimal_value(parent as nat);
    assert(stat.skip(n) =~= rest);
    assert forall|i: int| n <= i < stat.len() implies #[trigger] stat[i] != ')' by {
        assert(stat[i] == rest[i - n]);
        if 3 <= i - n < 3 + number.len() {
            assert(rest[i - n] == number[i - n - 3]);
        } else if i - n > 3 + number.len() {
            assert(rest[i - n] == tail[i - n - 4 - number.len()]);
        }
    }
    assert(stat[n - 1] == ')');
    lemma_after_last(stat, ')', n);
    lemma_run_length(rest, true, 1);
    let first = rest.skip(1);
    lemma_run_length(first, false, 1);
    let behind = seq![' '] + number + seq![' '] + tail;
    assert(first.skip(1) =~= behind);
    assert(behind[1] == number[0]);
    lemma_run_length(behind, true, 1);
    let second = behind.skip(1);
    assert forall|i: int| 0 <= i < number.len() implies !white_space(#[trigger] second[i]) by {
        assert(second[i] == number[i]);
    }
    lemma_run_length(second, false, number.len() as int);
    assert(second.take(number.len() as int) =~= number);
    assert(number[0] != '+');
}

// === Ancestors ===

/// Whether the walk up the process tree goes on from a process to its parent: it stops at PID 1
/// (init) or if the parent is not known.
pub open spec fn ancestor_of(current: u32, parent: Option<u32>) -> Option<u32> {
    match parent {
        Some(p) if current > 1 && p != current && p > 0 => Some(p),
        _ => None,
    }
}

pub fn next_ancestor(current: u32, parent: Option<u32>) -> (r: Option<u32>)
    ensures
        r == ancestor_of(current, parent),
{
    match parent {
        Some(p) if current > 1 && p != current && p > 0 => Some(p),
        _ => None,
    }
}

/// The first of a process and its ancestors that is wanted: how many come before it, all of them
/// if none is.
pub open spec fn first_wanted(pids: Seq<u32>, wanted: Set<u32>) -> nat
    decreases pids.len(),
{
    if pids.len() == 0 || wanted.contains(pids[0]) {
        0
    } else {
        1 + first_wanted(pids.skip(1), wanted)
    }
}

/// What `first_wanted` finds is wanted.
pub proof fn lemma_first_wanted(pids: Seq<u32>, wanted: Set<u32>)
    ensures
        first_wanted(pids, wanted) <= pids.len(),
        first_wanted(pids, wanted) < pids.len() ==> wanted.contains(
            pids[first_wanted(pids, wanted) as int],
        ),
    decreases pids.len(),
{
    if pids.len() > 0 && !wanted.contains(pids[0]) {
        lemma_first_wanted(pids.skip(1), wanted);
    }
}

/// Whether a process is on a list.
pub open spec fn listed(pids: Seq<u32>) -> Set<u32> {
    Set::new(|p: u32| pids.contains(p))
}

fn is_listed(pids: &[u32], pid: u32) -> (r: bool)
    ensures
        r == listed(pids@).contains(pid),
{
    for i in 0..pids.len()
        invariant
            forall|j: int| 0 <= j < i ==> pids@[j] != pid,
    {
        if pids[i] == pid {
            return true;
        }
    }
    false
}

/// Walk the ancestors of a process, itself first, to the first one that is on the list.
pub fn find_ancestor_pid(ancestry: &[u32], wanted: &[u32]) -> (r: Option<u32>)
    ensures
        r == if first_wanted(ancestry@, listed(wanted@)) < ancestry@.len() {
            Some(ancestry@[first_wanted(ancestry@, listed(wanted@)) as int])
        } else {
            None
        },
{
    let ghost set = listed(wanted@);
    proof {
        assert(ancestry@.skip(0) =~= ancestry@);
    }
    for i in 0..ancestry.len()
        invariant
            set == listed(wanted@),
            first_wanted(ancestry@, set) == i + first_wanted(ancestry@.skip(i as int), set),
    {
        proof {
            assert(ancestry@.skip(i as int).skip(1) =~= ancestry@.skip(i + 1));
        }
        if is_listed(wanted, ancestry[i]) {
            return Some(ancestry[i]);
        }
    }
    None
}

} // verus!
