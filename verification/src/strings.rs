//! Character-level string operations shared by the other modules.
//!
//! A string is modelled by the sequence of its characters (`s@`).
use vstd::prelude::*;
use vstd::slice::slice_subrange;
use vstd::utf8::encode_utf8;

verus! {

/// `String::push` appends the given character at the end of the string.
pub assume_specification[ String::push ](s: &mut String, c: char)
    ensures
        final(s)@ == old(s)@.push(c),
;

/// `str::eq` holds of two strings exactly when they have the same characters.
pub assume_specification[ <str as PartialEq<str>>::eq ](a: &str, b: &str) -> (r: bool)
    ensures
        r == (a@ == b@),
;

/// Whether a character is alphabetic or numeric by the Unicode tables.
pub uninterp spec fn alphanumeric(c: char) -> bool;

/// `char::is_alphanumeric` looks the character up in the Unicode tables; all that is claimed
/// is that its answer depends on the character alone.
pub assume_specification[ char::is_alphanumeric ](c: char) -> (r: bool)
    ensures
        r == alphanumeric(c),
;

/// The contents of a list of strings.
pub open spec fn texts(v: Seq<String>) -> Seq<Seq<char>> {
    v.map_values(|s: String| s@)
}

/// The contents of an optional string.
pub open spec fn text_opt(s: Option<String>) -> Option<Seq<char>> {
    match s {
        Some(t) => Some(t@),
        None => None,
    }
}

pub fn chars_of(s: &str) -> (v: Vec<char>)
    ensures
        v@ == s@,
{
    let mut v: Vec<char> = Vec::new();
    for c in it: s.chars()
        invariant
            v@ == s@.take(it.index()),
            it.seq() == s@,
    {
        v.push(c);
    }
    v
}

pub fn string_of(v: &[char]) -> (s: String)
    ensures
        s@ == v@,
{
    let mut s = String::new();
    for i in 0..v.len()
        invariant
            s@ == v@.take(i as int),
    {
        s.push(v[i]);
    }
    s
}

/// The rest of a text behind a prefix, if it has that prefix.
pub fn strip_prefix<'a>(v: &'a [char], prefix: &str) -> (r: Option<&'a [char]>)
    ensures
        match r {
            Some(rest) => prefix@.is_prefix_of(v@) && rest@ == v@.skip(prefix@.len() as int),
            None => !prefix@.is_prefix_of(v@),
        },
{
    let p = chars_of(prefix);
    if p.len() > v.len() {
        return None;
    }
    for i in 0..p.len()
        invariant
            p@ == prefix@,
            p@.len() <= v@.len(),
            p@.take(i as int) == v@.take(i as int),
    {
        if p[i] != v[i] {
            proof {
                assert(prefix@[i as int] != v@[i as int]);
                assert(v@.take(p@.len() as int)[i as int] == v@[i as int]);
            }
            return None;
        }
        proof {
            assert(p@.take(i + 1) =~= p@.take(i as int).push(p@[i as int]));
            assert(v@.take(i + 1) =~= v@.take(i as int).push(v@[i as int]));
        }
    }
    proof {
        assert(p@.take(p@.len() as int) =~= p@);
        assert(v@.take(p@.len() as int) =~= v@.subrange(0, p@.len() as int));
        assert(v@.skip(p@.len() as int) =~= v@.subrange(p@.len() as int, v@.len() as int));
    }
    Some(slice_subrange(v, p.len(), v.len()))
}

/// Where a character first stands in a text: how many characters stand before it, all of them
/// if the text does not hold it.
pub open spec fn position(s: Seq<char>, c: char) -> nat
    decreases s.len(),
{
    if s.len() == 0 || s[0] == c {
        0
    } else {
        1 + position(s.skip(1), c)
    }
}

pub proof fn lemma_position(s: Seq<char>, c: char)
    ensures
        position(s, c) <= s.len(),
        position(s, c) < s.len() ==> s[position(s, c) as int] == c,
        forall|i: int| 0 <= i < position(s, c) ==> #[trigger] s[i] != c,
    decreases s.len(),
{
    if s.len() > 0 && s[0] != c {
        lemma_position(s.skip(1), c);
        assert forall|i: int| 0 <= i < position(s, c) implies #[trigger] s[i] != c by {
            if i > 0 {
                assert(s.skip(1)[i - 1] == s[i]);
            }
        }
    }
}

pub fn position_of(v: &[char], c: char) -> (n: usize)
    ensures
        n == position(v@, c),
        n <= v@.len(),
{
    let mut n: usize = 0;
    proof {
        assert(v@.skip(0) =~= v@);
    }
    while n < v.len() && v[n] != c
        invariant
            n <= v@.len(),
            position(v@, c) == n + position(v@.skip(n as int), c),
        decreases v@.len() - n,
    {
        proof {
            assert(v@.skip(n as int).skip(1) =~= v@.skip(n + 1));
        }
        n = n + 1;
    }
    n
}

/// The UTF-8 bytes of two texts, one after the other, are those of the texts put together.
pub proof fn lemma_utf8_concat(a: Seq<char>, b: Seq<char>)
    ensures
        encode_utf8(a + b) == encode_utf8(a) + encode_utf8(b),
    decreases a.len(),
{
    if a.len() == 0 {
        assert(a + b =~= b);
        assert(encode_utf8(a) + encode_utf8(b) =~= encode_utf8(b));
    } else {
        lemma_utf8_concat(a.drop_first(), b);
        assert((a + b).drop_first() =~= a.drop_first() + b);
        assert(encode_utf8(a + b) =~= encode_utf8(a) + encode_utf8(b));
    }
}

/// The bytes of a text.
pub fn bytes_of(s: &str) -> (b: Vec<u8>)
    ensures
        b@ == encode_utf8(s@),
{
    let mut b: Vec<u8> = Vec::new();
    b.extend_from_slice(s.as_bytes());
    proof {
        assert(b@ =~= encode_utf8(s@));
    }
    b
}

/// The characters `from..to` as a string.
pub fn string_of_range(v: &[char], from: usize, to: usize) -> (s: String)
    requires
        from <= to <= v@.len(),
    ensures
        s@ == v@.subrange(from as int, to as int),
{
    let mut s = String::new();
    for i in from..to
        invariant
            from <= to <= v@.len(),
            s@ == v@.subrange(from as int, i as int),
    {
        s.push(v[i]);
    }
    s
}

/// One string after the other.
pub fn concat(a: &str, b: &str) -> (s: String)
    ensures
        s@ == a@ + b@,
{
    let mut s = a.to_string();
    s.append(b);
    s
}

/// Three strings, one after the other.
pub fn concat3(a: &str, b: &str, c: &str) -> (s: String)
    ensures
        s@ == a@ + b@ + c@,
{
    let mut s = a.to_string();
    s.append(b);
    s.append(c);
    s
}

/// A copy of the text.
pub fn text(a: &str) -> (s: String)
    ensures
        s@ == a@,
{
    a.to_string()
}

// === Decimal numbers ===

/// The character of a decimal digit.
pub open spec fn digit_char(d: nat) -> char {
    (48 + d) as char
}

/// The decimal digits of a number, without leading zeros.
pub open spec fn decimal(n: nat) -> Seq<char>
    decreases n,
{
    if n < 10 {
        seq![digit_char(n)]
    } else {
        decimal(n / 10).push(digit_char(n % 10))
    }
}

pub fn decimal_string(n: u64) -> (s: String)
    ensures
        s@ == decimal(n as nat),
    decreases n,
{
    let mut s = if n >= 10 {
        decimal_string(n / 10)
    } else {
        String::new()
    };
    s.push((48 + (n % 10) as u8) as char);
    s
}

/// Every character of a decimal number is one of `0` to `9`.
pub proof fn lemma_decimal_digits(n: nat)
    ensures
        decimal(n).len() > 0,
        forall|i: int| 0 <= i < decimal(n).len() ==> '0' <= #[trigger] decimal(n)[i] <= '9',
    decreases n,
{
    if n >= 10 {
        lemma_decimal_digits(n / 10);
    }
}

// === White space ===

/// The characters with the Unicode property White_Space.
pub open spec fn white_space(c: char) -> bool {
    ||| '\u{9}' <= c <= '\u{d}'
    ||| c == ' '
    ||| c == '\u{85}'
    ||| c == '\u{a0}'
    ||| c == '\u{1680}'
    ||| '\u{2000}' <= c <= '\u{200a}'
    ||| c == '\u{2028}'
    ||| c == '\u{2029}'
    ||| c == '\u{202f}'
    ||| c == '\u{205f}'
    ||| c == '\u{3000}'
}

pub fn is_white_space(c: char) -> (r: bool)
    ensures
        r == white_space(c),
{
    ('\u{9}' <= c && c <= '\u{d}') || c == ' ' || c == '\u{85}' || c == '\u{a0}' || c == '\u{1680}'
        || ('\u{2000}' <= c && c <= '\u{200a}') || c == '\u{2028}' || c == '\u{2029}'
        || c == '\u{202f}' || c == '\u{205f}' || c == '\u{3000}'
}

/// A text without the white space at its end.
pub open spec fn trim_end(s: Seq<char>) -> Seq<char>
    decreases s.len(),
{
    if s.len() > 0 && white_space(s.last()) {
        trim_end(s.drop_last())
    } else {
        s
    }
}

/// What `trim_end` leaves is a prefix that white space alone follows, and does not end in
/// white space itself.
pub proof fn lemma_trim_end(s: Seq<char>)
    ensures
        trim_end(s).len() <= s.len(),
        trim_end(s) == s.take(trim_end(s).len() as int),
        forall|i: int| trim_end(s).len() <= i < s.len() ==> white_space(#[trigger] s[i]),
        trim_end(s).len() > 0 ==> !white_space(trim_end(s).last()),
    decreases s.len(),
{
    if s.len() > 0 && white_space(s.last()) {
        lemma_trim_end(s.drop_last());
        assert(trim_end(s) =~= s.take(trim_end(s).len() as int));
        assert forall|i: int| trim_end(s).len() <= i < s.len() implies white_space(
            #[trigger] s[i],
        ) by {
            if i < s.len() - 1 {
                assert(s.drop_last()[i] == s[i]);
            }
        }
    } else {
        assert(s =~= s.take(s.len() as int));
    }
}

pub fn trimmed_end(v: &[char]) -> (s: String)
    ensures
        s@ == trim_end(v@),
{
    let mut n: usize = v.len();
    proof {
        assert(v@.take(n as int) =~= v@);
    }
    while n > 0 && is_white_space(v[n - 1])
        invariant
            n <= v@.len(),
            trim_end(v@.take(n as int)) == trim_end(v@),
        decreases n,
    {
        proof {
            assert(v@.take(n as int).drop_last() =~= v@.take(n - 1));
        }
        n = n - 1;
    }
    string_of_range(v, 0, n)
}

// === Lines ===

/// Lines put together with a separator between each two of them.
pub open spec fn join(lines: Seq<Seq<char>>, sep: Seq<char>) -> Seq<char>
    decreases lines.len(),
{
    if lines.len() == 0 {
        Seq::empty()
    } else if lines.len() == 1 {
        lines[0]
    } else {
        join(lines.drop_last(), sep) + sep + lines.last()
    }
}

pub fn join_strings(lines: &[String], sep: &str) -> (s: String)
    ensures
        s@ == join(texts(lines@), sep@),
{
    let mut s = String::new();
    for i in 0..lines.len()
        invariant
            s@ == join(texts(lines@).take(i as int), sep@),
    {
        proof {
            let done = texts(lines@).take(i + 1);
            assert(done.drop_last() =~= texts(lines@).take(i as int));
            assert(done.last() == lines@[i as int]@);
        }
        if i > 0 {
            s.append(sep);
        }
        s.append(lines[i].as_str());
    }
    proof {
        assert(texts(lines@).take(lines@.len() as int) =~= texts(lines@));
    }
    s
}

/// The lines without the empty ones at their end.
pub open spec fn drop_empty_end(lines: Seq<Seq<char>>) -> Seq<Seq<char>>
    decreases lines.len(),
{
    if lines.len() > 0 && lines.last().len() == 0 {
        drop_empty_end(lines.drop_last())
    } else {
        lines
    }
}

pub fn pop_empty_lines(lines: &mut Vec<String>)
    ensures
        texts(final(lines)@) == drop_empty_end(texts(old(lines)@)),
{
    while lines.len() > 0 && lines[lines.len() - 1].as_str().is_empty()
        invariant
            drop_empty_end(texts(lines@)) == drop_empty_end(texts(old(lines)@)),
        decreases lines.len(),
    {
        let ghost before = lines@;
        lines.pop();
        proof {
            assert(texts(before).drop_last() =~= texts(lines@));
        }
    }
}

// === Newlines ===

/// Text as a terminal pastes it: `\r\n` and `\n` both become `\r`.
pub open spec fn pasted(s: Seq<char>) -> Seq<char>
    decreases s.len(),
{
    if s.len() == 0 {
        Seq::empty()
    } else if s[0] == '\r' && s.len() > 1 && s[1] == '\n' {
        seq!['\r'] + pasted(s.skip(2))
    } else if s[0] == '\n' {
        seq!['\r'] + pasted(s.skip(1))
    } else {
        seq![s[0]] + pasted(s.skip(1))
    }
}

pub fn pasted_text(s: &str) -> (r: String)
    ensures
        r@ == pasted(s@),
{
    let v = chars_of(s);
    let mut r = String::new();
    let mut i: usize = 0;
    proof {
        assert(v@.skip(0) =~= v@);
    }
    while i < v.len()
        invariant
            i <= v@.len(),
            r@ + pasted(v@.skip(i as int)) == pasted(v@),
        decreases v@.len() - i,
    {
        let ghost before = r@;
        let ghost rest = v@.skip(i as int);
        if v[i] == '\r' && i + 1 < v.len() && v[i + 1] == '\n' {
            r.push('\r');
            i = i + 2;
            proof {
                assert(rest.skip(2) =~= v@.skip(i as int));
                assert(r@ + pasted(v@.skip(i as int)) =~= before + pasted(rest));
            }
        } else {
            r.push(
                if v[i] == '\n' {
                    '\r'
                } else {
                    v[i]
                },
            );
            i = i + 1;
            proof {
                assert(rest.skip(1) =~= v@.skip(i as int));
                assert(r@ + pasted(v@.skip(i as int)) =~= before + pasted(rest));
            }
        }
    }
    proof {
        assert(v@.skip(i as int) =~= Seq::empty());
        assert(r@ =~= pasted(v@));
    }
    r
}

/// Pasted text holds no newline, only carriage returns.
pub proof fn law_pasted_has_no_newline(s: Seq<char>)
    ensures
        forall|i: int| 0 <= i < pasted(s).len() ==> #[trigger] pasted(s)[i] != '\n',
    decreases s.len(),
{
    if s.len() > 0 {
        let step: int = if s[0] == '\r' && s.len() > 1 && s[1] == '\n' {
            2
        } else {
            1
        };
        law_pasted_has_no_newline(s.skip(step));
        assert forall|i: int| 0 <= i < pasted(s).len() implies #[trigger] pasted(s)[i] != '\n' by {
            if i > 0 {
                assert(pasted(s)[i] == pasted(s.skip(step))[i - 1]);
            }
        }
    }
}

} // verus!
