//! Text building blocks: decimal numbers, joining, bounded replacement,
//! splitting and trimming, all stated over sequences of characters.

use vstd::prelude::*;
use vstd::string::*;

verus! {

/// The character of a decimal digit.
pub open spec fn digit_char(d: nat) -> char {
    if d == 0 {
        '0'
    } else if d == 1 {
        '1'
    } else if d == 2 {
        '2'
    } else if d == 3 {
        '3'
    } else if d == 4 {
        '4'
    } else if d == 5 {
        '5'
    } else if d == 6 {
        '6'
    } else if d == 7 {
        '7'
    } else if d == 8 {
        '8'
    } else {
        '9'
    }
}

/// The decimal digits of `n`, most significant first, without padding.
pub open spec fn decimal(n: nat) -> Seq<char>
    decreases n,
{
    if n < 10 {
        seq![digit_char(n)]
    } else {
        decimal(n / 10).push(digit_char(n % 10))
    }
}

/// `n` in decimal, padded with a zero to at least two digits.
pub open spec fn two_digits(n: nat) -> Seq<char> {
    if n < 10 {
        seq!['0'] + decimal(n)
    } else {
        decimal(n)
    }
}

/// The views of a sequence of strings.
pub open spec fn views(v: Seq<String>) -> Seq<Seq<char>> {
    Seq::new(v.len(), |i: int| v[i]@)
}

/// The parts in order, with `sep` between each two neighbours.
pub open spec fn join(parts: Seq<Seq<char>>, sep: Seq<char>) -> Seq<char>
    decreases parts.len(),
{
    if parts.len() == 0 {
        Seq::empty()
    } else if parts.len() == 1 {
        parts[0]
    } else {
        join(parts.drop_last(), sep) + sep + parts.last()
    }
}

/// `s` with its first `count` occurrences of `pat` (found from the left,
/// not overlapping) replaced by `to`.
pub open spec fn replacen(s: Seq<char>, pat: Seq<char>, to: Seq<char>, count: nat) -> Seq<char>
    recommends
        pat.len() > 0,
    decreases s.len(),
{
    if count == 0 || pat.len() == 0 || s.len() < pat.len() {
        s
    } else if s.subrange(0, pat.len() as int) == pat {
        to + replacen(s.skip(pat.len() as int), pat, to, (count - 1) as nat)
    } else {
        seq![s[0]] + replacen(s.skip(1), pat, to, count)
    }
}

/// The characters at which an artist text is cut.
pub open spec fn is_delimiter(c: char) -> bool {
    c == ',' || c == '&'
}

/// The segments of `s` between delimiters, in order; a text without a
/// delimiter is one segment, and empty segments are kept.
pub open spec fn split_segments(s: Seq<char>) -> Seq<Seq<char>>
    decreases s.len(),
{
    if s.len() == 0 {
        seq![Seq::<char>::empty()]
    } else {
        let before = split_segments(s.drop_last());
        if is_delimiter(s.last()) {
            before.push(Seq::<char>::empty())
        } else {
            before.update(before.len() - 1, before.last().push(s.last()))
        }
    }
}

/// A text always has at least one segment.
pub proof fn lemma_split_nonempty(s: Seq<char>)
    ensures
        split_segments(s).len() >= 1,
        split_trimmed(s).len() == split_segments(s).len(),
    decreases s.len(),
{
    if s.len() > 0 {
        lemma_split_nonempty(s.drop_last());
    }
}

/// Whether `c` is white space: one of the code points that Unicode gives
/// the property White_Space.
pub open spec fn is_whitespace(c: char) -> bool {
    let n = c as u32;
    (0x09 <= n <= 0x0D) || n == 0x20 || n == 0x85 || n == 0xA0 || n == 0x1680 || (0x2000 <= n
        <= 0x200A) || n == 0x2028 || n == 0x2029 || n == 0x202F || n == 0x205F || n == 0x3000
}

/// `s` without its leading whitespace.
pub open spec fn trim_start(s: Seq<char>) -> Seq<char>
    decreases s.len(),
{
    if s.len() > 0 && is_whitespace(s[0]) {
        trim_start(s.drop_first())
    } else {
        s
    }
}

/// `s` without its trailing whitespace.
pub open spec fn trim_end(s: Seq<char>) -> Seq<char>
    decreases s.len(),
{
    if s.len() > 0 && is_whitespace(s.last()) {
        trim_end(s.drop_last())
    } else {
        s
    }
}

/// `s` without the whitespace around it.
pub open spec fn trim(s: Seq<char>) -> Seq<char> {
    trim_end(trim_start(s))
}

/// Each segment of `s`, trimmed.
pub open spec fn split_trimmed(s: Seq<char>) -> Seq<Seq<char>> {
    trim_all(split_segments(s))
}

/// Every segment, trimmed.
pub open spec fn trim_all(segments: Seq<Seq<char>>) -> Seq<Seq<char>> {
    Seq::new(segments.len(), |k: int| trim(segments[k]))
}

/// Tells whether a character is white space.
pub fn is_whitespace_char(c: char) -> (r: bool)
    ensures
        r == is_whitespace(c),
{
    let n: u32 = c as u32;
    (0x09 <= n && n <= 0x0D) || n == 0x20 || n == 0x85 || n == 0xA0 || n == 0x1680 || (0x2000 <= n
        && n <= 0x200A) || n == 0x2028 || n == 0x2029 || n == 0x202F || n == 0x205F || n == 0x3000
}

fn digit_str(d: u32) -> (r: &'static str)
    requires
        d < 10,
    ensures
        r@ == seq![digit_char(d as nat)],
{
    proof {
        reveal_strlit("0");
        reveal_strlit("1");
        reveal_strlit("2");
        reveal_strlit("3");
        reveal_strlit("4");
        reveal_strlit("5");
        reveal_strlit("6");
        reveal_strlit("7");
        reveal_strlit("8");
        reveal_strlit("9");
    }
    let r = match d {
        0 => "0",
        1 => "1",
        2 => "2",
        3 => "3",
        4 => "4",
        5 => "5",
        6 => "6",
        7 => "7",
        8 => "8",
        _ => "9",
    };
    assert(r@ =~= seq![digit_char(d as nat)]);
    r
}

/// Writes `n` in decimal.
pub fn show_decimal(n: u32) -> (r: String)
    ensures
        r@ == decimal(n as nat),
    decreases n,
{
    if n < 10 {
        String::from_str(digit_str(n))
    } else {
        let mut s = show_decimal(n / 10);
        s.append(digit_str(n % 10));
        assert(s@ =~= decimal(n as nat));
        s
    }
}

/// Writes `n` in decimal with at least two digits.
pub fn show_two_digits(n: u32) -> (r: String)
    ensures
        r@ == two_digits(n as nat),
{
    if n < 10 {
        proof {
            reveal_strlit("0");
        }
        let mut s = String::from_str("0");
        s.append(digit_str(n));
        assert(s@ =~= two_digits(n as nat));
        s
    } else {
        show_decimal(n)
    }
}

/// Joins the strings with `sep` between them.
pub fn join_strings(parts: &[String], sep: &str) -> (r: String)
    ensures
        r@ == join(views(parts@), sep@),
{
    let mut out = String::new();
    let mut i: usize = 0;
    while i < parts.len()
        invariant
            i <= parts@.len(),
            out@ == join(views(parts@).take(i as int), sep@),
        decreases parts@.len() - i,
    {
        let ghost before = views(parts@).take(i as int);
        let ghost now = views(parts@).take(i + 1);
        assert(now.drop_last() =~= before);
        assert(now.last() == parts@[i as int]@);
        if i > 0 {
            out.append(sep);
        }
        out.append(parts[i].as_str());
        proof {
            if i == 0 {
                assert(out@ =~= now[0]);
            } else {
                assert(out@ =~= join(before, sep@) + sep@ + now.last());
            }
        }
        i += 1;
    }
    assert(views(parts@).take(i as int) =~= views(parts@));
    out
}

fn matches_at(s: &str, at: usize, pat: &str) -> (r: bool)
    requires
        at + pat@.len() <= s@.len(),
    ensures
        r == (s@.subrange(at as int, at + pat@.len()) == pat@),
{
    let n: usize = s.unicode_len();
    let m: usize = pat.unicode_len();
    let mut k: usize = 0;
    while k < m
        invariant
            k <= m,
            m == pat@.len(),
            n == s@.len(),
            at + m <= n,
            forall|j: int| 0 <= j < k ==> s@[at + j] == pat@[j],
        decreases m - k,
    {
        if s.get_char(at + k) != pat.get_char(k) {
            assert(s@.subrange(at as int, at + m)[k as int] != pat@[k as int]);
            return false;
        }
        k += 1;
    }
    assert(s@.subrange(at as int, at + m) =~= pat@);
    true
}

/// Replaces the first `count` occurrences of `pat` in `s` by `to`.
pub(crate) fn replace_first(s: &str, pat: &str, to: &str, count: usize) -> (r: String)
    requires
        pat@.len() > 0,
    ensures
        r@ == replacen(s@, pat@, to@, count as nat),
{
    let n: usize = s.unicode_len();
    let m: usize = pat.unicode_len();
    let mut out = String::new();
    let mut i: usize = 0;
    let mut left: usize = count;
    assert(s@.skip(0) =~= s@);
    assert(out@ + replacen(s@, pat@, to@, count as nat) =~= replacen(s@, pat@, to@, count as nat));
    while left > 0 && n - i >= m
        invariant
            i <= n,
            n == s@.len(),
            m == pat@.len(),
            m > 0,
            out@ + replacen(s@.skip(i as int), pat@, to@, left as nat) == replacen(
                s@,
                pat@,
                to@,
                count as nat,
            ),
        decreases n - i,
    {
        let ghost rest = s@.skip(i as int);
        let ghost out0 = out@;
        assert(rest.subrange(0, m as int) =~= s@.subrange(i as int, i + m));
        if matches_at(s, i, pat) {
            out.append(to);
            assert(rest.skip(m as int) =~= s@.skip(i + m));
            assert(out0 + (to@ + replacen(rest.skip(m as int), pat@, to@, (left - 1) as nat))
                =~= out@ + replacen(s@.skip(i + m), pat@, to@, (left - 1) as nat));
            i += m;
            left -= 1;
        } else {
            out.append(s.substring_char(i, i + 1));
            assert(s@.subrange(i as int, i + 1) =~= seq![rest[0]]);
            assert(rest.skip(1) =~= s@.skip(i + 1));
            assert(out0 + (seq![rest[0]] + replacen(rest.skip(1), pat@, to@, left as nat))
                =~= out@ + replacen(s@.skip(i + 1), pat@, to@, left as nat));
            i += 1;
        }
    }
    let ghost out0 = out@;
    out.append(s.substring_char(i, n));
    assert(s@.subrange(i as int, n as int) =~= s@.skip(i as int));
    assert(s@.skip(0) =~= s@);
    out
}

/// Trims the whitespace around `s`.
pub fn trim_text(s: &str) -> (r: String)
    ensures
        r@ == trim(s@),
{
    let n: usize = s.unicode_len();
    let mut a: usize = 0;
    assert(s@.skip(0) =~= s@);
    while a < n && is_whitespace_char(s.get_char(a))
        invariant
            a <= n,
            n == s@.len(),
            trim_start(s@.skip(a as int)) == trim_start(s@),
        decreases n - a,
    {
        assert(s@.skip(a as int).drop_first() =~= s@.skip(a + 1));
        a += 1;
    }
    assert(s@.skip(0) =~= s@);
    assert(trim_start(s@) == s@.skip(a as int));
    let mut b: usize = n;
    while b > a && is_whitespace_char(s.get_char(b - 1))
        invariant
            a <= b <= n,
            n == s@.len(),
            trim_end(s@.subrange(a as int, b as int)) == trim(s@),
        decreases b,
    {
        assert(s@.subrange(a as int, b as int).drop_last() =~= s@.subrange(a as int, b - 1));
        b -= 1;
    }
    String::from_str(s.substring_char(a, b))
}

/// Cuts `s` at each `,` and `&` and trims every segment; empty segments stay.
pub fn split_and_trim(s: &str) -> (r: Vec<String>)
    ensures
        views(r@) == split_trimmed(s@),
{
    let n: usize = s.unicode_len();
    let mut out: Vec<String> = Vec::new();
    let mut start: usize = 0;
    let mut i: usize = 0;
    let ghost mut done: Seq<Seq<char>> = Seq::empty();
    assert(s@.take(0) =~= Seq::<char>::empty());
    assert(s@.subrange(0, 0) =~= Seq::<char>::empty());
    assert(split_segments(s@.take(0)) =~= done.push(s@.subrange(0, 0)));
    assert(views(out@) =~= trim_all(done));
    while i < n
        invariant
            start <= i <= n,
            n == s@.len(),
            split_segments(s@.take(i as int)) == done.push(s@.subrange(start as int, i as int)),
            views(out@) == trim_all(done),
        decreases n - i,
    {
        let c: char = s.get_char(i);
        let ghost open = s@.subrange(start as int, i as int);
        let ghost before = done.push(open);
        assert(s@.take(i + 1).drop_last() =~= s@.take(i as int));
        assert(s@.take(i + 1).last() == c);
        if c == ',' || c == '&' {
            let seg = trim_text(s.substring_char(start, i));
            let ghost out0 = out@;
            out.push(seg);
            proof {
                assert(s@.subrange(i + 1, i + 1) =~= Seq::<char>::empty());
                assert(views(out0).len() == out0.len());
                assert(trim_all(done).len() == done.len());
                assert(seg@ == trim(open));
                assert forall|k: int| 0 <= k < out@.len() implies views(out@)[k] == trim_all(
                    before,
                )[k] by {
                    if k < out0.len() {
                        assert(views(out0)[k] == trim_all(done)[k]);
                    }
                }
                assert(views(out@) =~= trim_all(before));
                done = before;
            }
            start = i + 1;
        } else {
            proof {
                assert(open.push(c) =~= s@.subrange(start as int, i + 1));
                assert(before.update(before.len() - 1, before.last().push(c)) =~= done.push(
                    s@.subrange(start as int, i + 1),
                ));
            }
        }
        i += 1;
    }
    let seg = trim_text(s.substring_char(start, n));
    let ghost out0 = out@;
    out.push(seg);
    proof {
        assert(s@.take(n as int) =~= s@);
        let all = done.push(s@.subrange(start as int, n as int));
        assert forall|k: int| 0 <= k < out@.len() implies views(out@)[k] == trim_all(all)[k] by {
            if k < out0.len() {
                assert(views(out0)[k] == trim_all(done)[k]);
            }
        }
        assert(views(out@) =~= trim_all(split_segments(s@)));
    }
    out
}

} // verus!
