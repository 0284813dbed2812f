//! Texts and lists: digits, lines, blanks and newlines.
use vstd::prelude::*;
use crate::seqs::{first_index, kept, lemma_first_index};
use crate::strings::{decimal, drop_empty_end, join, pasted, position, trim_end, white_space};

verus! {

/// The number that decimal digits spell.
pub open spec fn spelled(digits: Seq<char>) -> nat
    decreases digits.len(),
{
    if digits.len() == 0 {
        0
    } else {
        10 * spelled(digits.drop_last()) + (digits.last() as nat - '0' as nat) as nat
    }
}

/// A number is written in decimal digits, without zeros in front.
pub proof fn law_numbers_are_written_in_digits(n: nat)
    ensures
        spelled(decimal(n)) == n,
        decimal(n).len() > 0,
        forall|i: int| 0 <= i < decimal(n).len() ==> '0' <= #[trigger] decimal(n)[i] <= '9',
        n > 0 ==> decimal(n)[0] != '0',
    decreases n,
{
    if n >= 10 {
        law_numbers_are_written_in_digits(n / 10);
        assert(decimal(n).drop_last() =~= decimal(n / 10));
    } else {
        assert(decimal(n).drop_last() =~= Seq::<char>::empty());
        assert(spelled(decimal(n).drop_last()) == 0);
    }
}

/// Of a text, the white space at its end is left out, all of it and nothing else.
pub proof fn law_blanks_at_the_end_go(s: Seq<char>)
    ensures
        ({
            let t = trim_end(s);
            &&& t.len() <= s.len()
            &&& t == s.take(t.len() as int)
            &&& t.len() > 0 ==> !white_space(t.last())
            &&& forall|i: int| t.len() <= i < s.len() ==> white_space(#[trigger] s[i])
        }),
    decreases s.len(),
{
    if s.len() > 0 && white_space(s.last()) {
        let before = s.drop_last();
        law_blanks_at_the_end_go(before);
        let t = trim_end(before);
        assert(t =~= s.take(t.len() as int));
        assert forall|i: int| t.len() <= i < s.len() implies white_space(#[trigger] s[i]) by {
            if i < before.len() {
                assert(before[i] == s[i]);
            }
        }
    } else {
        assert(s.take(s.len() as int) =~= s);
    }
}

/// Spaces, tabs and newlines are white space; visible ASCII characters are not.
pub proof fn law_white_space(c: char)
    ensures
        c == ' ' || c == '\t' || c == '\n' || c == '\r' ==> white_space(c),
        '!' <= c <= '~' ==> !white_space(c),
{
}

/// Lines are put together with the separator between them and nowhere else.
pub proof fn law_lines_are_joined(a: Seq<Seq<char>>, line: Seq<char>, sep: Seq<char>)
    ensures
        join(Seq::empty(), sep) == Seq::<char>::empty(),
        join(seq![line], sep) == line,
        a.len() > 0 ==> join(a.push(line), sep) == join(a, sep) + sep + line,
{
    assert(a.push(line).drop_last() =~= a);
}

/// Empty lines at the end are left out, all of them and no others.
pub proof fn law_empty_lines_at_the_end_go(lines: Seq<Seq<char>>)
    ensures
        ({
            let left = drop_empty_end(lines);
            &&& left.len() <= lines.len()
            &&& left == lines.take(left.len() as int)
            &&& left.len() > 0 ==> left.last().len() > 0
            &&& forall|i: int| left.len() <= i < lines.len() ==> (#[trigger] lines[i]).len() == 0
        }),
    decreases lines.len(),
{
    if lines.len() > 0 && lines.last().len() == 0 {
        let before = lines.drop_last();
        law_empty_lines_at_the_end_go(before);
        let left = drop_empty_end(before);
        assert(left =~= lines.take(left.len() as int));
        assert forall|i: int| left.len() <= i < lines.len() implies (#[trigger] lines[i]).len()
            == 0 by {
            if i < before.len() {
                assert(before[i] == lines[i]);
            }
        }
    } else {
        assert(lines.take(lines.len() as int) =~= lines);
    }
}

/// In a pasted text every newline, with a carriage return in front of it or not, is one carriage
/// return; all other characters stay, in order.
pub proof fn law_newlines_are_pasted_as_enter(a: Seq<char>, b: Seq<char>)
    requires
        forall|i: int| 0 <= i < a.len() ==> #[trigger] a[i] != '\n' && a[i] != '\r',
    ensures
        pasted(a) == a,
        pasted(a + seq!['\n'] + b) == a + seq!['\r'] + pasted(b),
        pasted(a + seq!['\r', '\n'] + b) == a + seq!['\r'] + pasted(b),
        b.len() == 0 || b[0] != '\n' ==> pasted(a + seq!['\r'] + b) == a + seq!['\r'] + pasted(b),
    decreases a.len(),
{
    let lf = a + seq!['\n'] + b;
    let crlf = a + seq!['\r', '\n'] + b;
    let cr = a + seq!['\r'] + b;
    if a.len() == 0 {
        assert(lf.skip(1) =~= b);
        assert(crlf.skip(2) =~= b);
        assert(cr.skip(1) =~= b);
        assert(pasted(lf) =~= a + seq!['\r'] + pasted(b));
        assert(pasted(crlf) =~= a + seq!['\r'] + pasted(b));
        if b.len() == 0 || b[0] != '\n' {
            assert(pasted(cr) =~= a + seq!['\r'] + pasted(b));
        }
        assert(pasted(a) =~= a);
    } else {
        let tail = a.skip(1);
        assert(a[0] != '\n' && a[0] != '\r');
        assert forall|i: int| 0 <= i < tail.len() implies #[trigger] tail[i] != '\n' && tail[i]
            != '\r' by {
            assert(a[i + 1] != '\n' && a[i + 1] != '\r');
        }
        law_newlines_are_pasted_as_enter(tail, b);
        assert(lf.skip(1) =~= tail + seq!['\n'] + b);
        assert(crlf.skip(1) =~= tail + seq!['\r', '\n'] + b);
        assert(cr.skip(1) =~= tail + seq!['\r'] + b);
        assert(pasted(lf) =~= a + seq!['\r'] + pasted(b));
        assert(pasted(crlf) =~= a + seq!['\r'] + pasted(b));
        if b.len() == 0 || b[0] != '\n' {
            assert(pasted(cr) =~= a + seq!['\r'] + pasted(b));
        }
        assert(pasted(a) =~= a);
    }
}

/// The place of a character is the first one that it has.
pub proof fn law_the_first_place(s: Seq<char>, c: char)
    ensures
        position(s, c) <= s.len(),
        position(s, c) < s.len() ==> s[position(s, c) as int] == c,
        forall|i: int| 0 <= i < position(s, c) ==> #[trigger] s[i] != c,
    decreases s.len(),
{
    if s.len() > 0 && s[0] != c {
        law_the_first_place(s.skip(1), c);
        assert forall|i: int| 0 <= i < position(s, c) implies #[trigger] s[i] != c by {
            if i > 0 {
                assert(s.skip(1)[i - 1] == s[i]);
            }
        }
    }
}

/// What is wanted of two lists, one behind the other, is what is wanted of each.
pub proof fn law_what_is_kept<T>(a: Seq<T>, b: Seq<T>, x: T, wanted: spec_fn(T) -> bool)
    ensures
        kept(a + b, wanted) == kept(a, wanted) + kept(b, wanted),
        kept(seq![x], wanted) == if wanted(x) {
            seq![x]
        } else {
            Seq::empty()
        },
        kept(Seq::<T>::empty(), wanted) == Seq::<T>::empty(),
    decreases b.len(),
{
    let none = Seq::<T>::empty();
    reveal_with_fuel(kept, 2);
    assert(seq![x].drop_last() =~= none);
    assert(kept(seq![x], wanted) =~= if wanted(x) {
        seq![x]
    } else {
        none
    });
    if b.len() == 0 {
        assert(a + b =~= a);
        assert(kept(a, wanted) + none =~= kept(a, wanted));
    } else {
        law_what_is_kept(a, b.drop_last(), x, wanted);
        assert((a + b).drop_last() =~= a + b.drop_last());
        assert(kept(a + b, wanted) =~= kept(a, wanted) + kept(b, wanted));
    }
}

/// The first that is wanted has none that is wanted before it.
pub proof fn law_the_first_wanted<T>(s: Seq<T>, wanted: spec_fn(T) -> bool)
    ensures
        first_index(s, wanted) <= s.len(),
        first_index(s, wanted) < s.len() ==> wanted(s[first_index(s, wanted) as int]),
        forall|i: int| 0 <= i < first_index(s, wanted) ==> !wanted(#[trigger] s[i]),
{
    lemma_first_index(s, wanted);
}

} // verus!
