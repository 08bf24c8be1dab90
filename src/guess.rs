//! Reading a guess from one line of text.
use vstd::prelude::*;

verus! {

/// The line held no number that a guess can be: it was empty after
/// trimming, held something other than decimal digits, or its value does
/// not fit in a `u32`.
#[derive(Debug, Clone, Copy, PartialEq, Eq, Structural)]
pub struct ParseFailure;

/// The characters with the Unicode `White_Space` property.
pub open spec fn is_white_space(c: char) -> bool {
    let n = c as u32;
    (0x9 <= n && n <= 0xd) || n == 0x20 || n == 0x85 || n == 0xa0 || n == 0x1680
        || (0x2000 <= n && n <= 0x200a) || n == 0x2028 || n == 0x2029 || n == 0x202f
        || n == 0x205f || n == 0x3000
}

/// `s` without its leading white space.
pub open spec fn trim_start(s: Seq<char>) -> Seq<char>
    decreases s.len(),
{
    if s.len() > 0 && is_white_space(s[0]) {
        trim_start(s.drop_first())
    } else {
        s
    }
}

/// `s` without its trailing white space.
pub open spec fn trim_end(s: Seq<char>) -> Seq<char>
    decreases s.len(),
{
    if s.len() > 0 && is_white_space(s.last()) {
        trim_end(s.drop_last())
    } else {
        s
    }
}

/// `s` without the white space around it.
pub open spec fn trim(s: Seq<char>) -> Seq<char> {
    trim_end(trim_start(s))
}

pub open spec fn is_digit(c: char) -> bool {
    '0' <= c && c <= '9'
}

pub open spec fn digit_value(c: char) -> int {
    (c as u32) - ('0' as u32)
}

pub open spec fn all_digits(d: Seq<char>) -> bool {
    forall|i: int| 0 <= i < d.len() ==> #[trigger] is_digit(d[i])
}

/// The number that the decimal digits `d` write, most significant first.
pub open spec fn decimal_value(d: Seq<char>) -> int
    decreases d.len(),
{
    if d.len() == 0 {
        0
    } else {
        decimal_value(d.drop_last()) * 10 + digit_value(d.last())
    }
}

/// `t` with one leading `+` taken off, if it has one.
pub open spec fn unsigned_digits(t: Seq<char>) -> Seq<char> {
    if t.len() > 0 && t[0] == '+' {
        t.drop_first()
    } else {
        t
    }
}

/// Reading `t` as a `u32` in base ten: an optional `+`, then one or more
/// decimal digits whose value fits in a `u32`.
pub open spec fn parse_decimal(t: Seq<char>) -> Result<u32, ParseFailure> {
    let d = unsigned_digits(t);
    if d.len() > 0 && all_digits(d) && decimal_value(d) <= u32::MAX {
        Ok(decimal_value(d) as u32)
    } else {
        Err(ParseFailure)
    }
}

/// The guess that the line `s` holds: its text without the surrounding
/// white space, read as a `u32`.
pub open spec fn guess_of(s: Seq<char>) -> Result<u32, ParseFailure> {
    parse_decimal(trim(s))
}

fn is_white_space_char(c: char) -> (r: bool)
    ensures
        r == is_white_space(c),
{
    let n = c as u32;
    (0x9 <= n && n <= 0xd) || n == 0x20 || n == 0x85 || n == 0xa0 || n == 0x1680
        || (0x2000 <= n && n <= 0x200a) || n == 0x2028 || n == 0x2029 || n == 0x202f
        || n == 0x205f || n == 0x3000
}

proof fn lemma_trim_start(s: Seq<char>, i: int)
    requires
        0 <= i <= s.len(),
        forall|k: int| 0 <= k < i ==> is_white_space(#[trigger] s[k]),
        i == s.len() || !is_white_space(s[i]),
    ensures
        trim_start(s) == s.subrange(i, s.len() as int),
    decreases i,
{
    if i == 0 {
        assert(s.subrange(0, s.len() as int) =~= s);
    } else {
        let t = s.drop_first();
        assert forall|k: int| 0 <= k < i - 1 implies is_white_space(#[trigger] t[k]) by {
            assert(t[k] == s[k + 1]);
        }
        lemma_trim_start(t, i - 1);
        assert(t.subrange(i - 1, t.len() as int) =~= s.subrange(i, s.len() as int));
    }
}

proof fn lemma_trim_end(s: Seq<char>, j: int)
    requires
        0 <= j <= s.len(),
        forall|k: int| j <= k < s.len() ==> is_white_space(#[trigger] s[k]),
        j == 0 || !is_white_space(s[j - 1]),
    ensures
        trim_end(s) == s.subrange(0, j),
    decreases s.len() - j,
{
    if j == s.len() {
        assert(s.subrange(0, j) =~= s);
    } else {
        let t = s.drop_last();
        assert forall|k: int| j <= k < t.len() implies is_white_space(#[trigger] t[k]) by {
            assert(t[k] == s[k]);
        }
        lemma_trim_end(t, j);
        assert(t.subrange(0, j) =~= s.subrange(0, j));
    }
}

proof fn lemma_decimal_push(d: Seq<char>, c: char)
    ensures
        decimal_value(d.push(c)) == decimal_value(d) * 10 + digit_value(c),
{
    assert(d.push(c).drop_last() =~= d);
}

proof fn lemma_decimal_nonnegative(d: Seq<char>)
    requires
        all_digits(d),
    ensures
        decimal_value(d) >= 0,
    decreases d.len(),
{
    if d.len() > 0 {
        let p = d.drop_last();
        assert(all_digits(p)) by {
            assert forall|i: int| 0 <= i < p.len() implies #[trigger] is_digit(p[i]) by {
                assert(is_digit(d[i]));
            }
        }
        lemma_decimal_nonnegative(p);
        assert(is_digit(d[d.len() - 1]));
    }
}

pub open spec fn all_white_space(s: Seq<char>) -> bool {
    forall|i: int| 0 <= i < s.len() ==> #[trigger] is_white_space(s[i])
}

proof fn lemma_trim_start_white_prefix(w: Seq<char>, s: Seq<char>)
    requires
        all_white_space(w),
    ensures
        trim_start(w + s) == trim_start(s),
    decreases w.len(),
{
    if w.len() == 0 {
        assert(w + s =~= s);
    } else {
        let v = w.drop_first();
        assert((w + s)[0] == w[0]);
        assert((w + s).drop_first() =~= v + s);
        assert forall|i: int| 0 <= i < v.len() implies #[trigger] is_white_space(v[i]) by {
            assert(v[i] == w[i + 1]);
        }
        lemma_trim_start_white_prefix(v, s);
    }
}

proof fn lemma_trim_start_append(s: Seq<char>, u: Seq<char>)
    ensures
        trim_start(s + u) == (if trim_start(s).len() > 0 {
            trim_start(s) + u
        } else {
            trim_start(u)
        }),
    decreases s.len(),
{
    if s.len() == 0 {
        assert(s + u =~= u);
    } else {
        assert((s + u)[0] == s[0]);
        if is_white_space(s[0]) {
            assert((s + u).drop_first() =~= s.drop_first() + u);
            lemma_trim_start_append(s.drop_first(), u);
        }
    }
}

proof fn lemma_trim_end_white_suffix(s: Seq<char>, w: Seq<char>)
    requires
        all_white_space(w),
    ensures
        trim_end(s + w) == trim_end(s),
    decreases w.len(),
{
    if w.len() == 0 {
        assert(s + w =~= s);
    } else {
        let v = w.drop_last();
        assert((s + w).last() == w.last());
        assert((s + w).drop_last() =~= s + v);
        assert forall|i: int| 0 <= i < v.len() implies #[trigger] is_white_space(v[i]) by {
            assert(v[i] == w[i]);
        }
        lemma_trim_end_white_suffix(s, v);
    }
}

/// White space around a line does not change what it reads as: for any
/// text `s` and any white space `pre` and `post`, the line `pre + s + post`
/// holds the same guess as `s`, or fails as `s` does.
pub proof fn lemma_surrounding_white_space(pre: Seq<char>, s: Seq<char>, post: Seq<char>)
    requires
        all_white_space(pre),
        all_white_space(post),
    ensures
        guess_of(pre + s + post) == guess_of(s),
{
    assert(pre + s + post =~= pre + (s + post));
    lemma_trim_start_white_prefix(pre, s + post);
    lemma_trim_start_append(s, post);
    if trim_start(s).len() > 0 {
        lemma_trim_end_white_suffix(trim_start(s), post);
    } else {
        assert(post + Seq::<char>::empty() =~= post);
        lemma_trim_start_white_prefix(post, Seq::<char>::empty());
        assert(trim_end(trim_start(s)) == trim_start(s));
    }
}

/// A line is a `ParseFailure` where its trimmed text is empty, or holds a
/// character that is neither a decimal digit nor `+`.
pub proof fn lemma_non_numeric_fails(line: Seq<char>)
    requires
        trim(line).len() == 0 || exists|i: int|
            0 <= i < trim(line).len() && !is_digit(#[trigger] trim(line)[i]) && trim(line)[i]
                != '+',
    ensures
        guess_of(line) == Err::<u32, ParseFailure>(ParseFailure),
{
    let t = trim(line);
    let d = unsigned_digits(t);
    if t.len() > 0 {
        let i = choose|i: int|
            0 <= i < t.len() && !is_digit(#[trigger] t[i]) && t[i] != '+';
        if t[0] == '+' {
            assert(d[i - 1] == t[i]);
            assert(!is_digit(d[i - 1]));
        } else {
            assert(!is_digit(d[i]));
        }
    }
}

/// Reads the guess that one line of input holds: the white space around it
/// is dropped and the rest is read as a base-ten `u32`, with an optional
/// leading `+`. Anything else, an empty line included, is a `ParseFailure`.
pub fn read_guess(line: &str) -> (r: Result<u32, ParseFailure>)
    ensures
        r == guess_of(line@),
{
    let n = line.unicode_len();
    let mut lo: usize = 0;
    while lo < n && is_white_space_char(line.get_char(lo))
        invariant
            n == line@.len(),
            lo <= n,
            forall|k: int| 0 <= k < lo ==> is_white_space(#[trigger] line@[k]),
        decreases n - lo,
    {
        lo = lo + 1;
    }
    let mut hi: usize = n;
    while hi > lo && is_white_space_char(line.get_char(hi - 1))
        invariant
            n == line@.len(),
            lo <= hi <= n,
            forall|k: int| hi <= k < n ==> is_white_space(#[trigger] line@[k]),
        decreases hi - lo,
    {
        hi = hi - 1;
    }
    let ghost rest = line@.subrange(lo as int, n as int);
    let ghost t = line@.subrange(lo as int, hi as int);
    proof {
        lemma_trim_start(line@, lo as int);
        assert forall|k: int| hi - lo <= k < rest.len() implies is_white_space(
            #[trigger] rest[k],
        ) by {
            assert(rest[k] == line@[k + lo]);
        }
        lemma_trim_end(rest, hi - lo);
        assert(rest.subrange(0, hi - lo) =~= t);
    }
    if lo == hi {
        return Err(ParseFailure);
    }
    let mut start: usize = lo;
    if line.get_char(lo) == '+' {
        start = lo + 1;
    }
    let ghost d = line@.subrange(start as int, hi as int);
    assert(d =~= unsigned_digits(t));
    if start == hi {
        return Err(ParseFailure);
    }
    // `value` holds the value of the digits read so far, or one past
    // `u32::MAX` once that value no longer fits.
    let mut value: u64 = 0;
    let mut k: usize = start;
    while k < hi
        invariant
            lo <= start <= k <= hi <= n,
            n == line@.len(),
            d == line@.subrange(start as int, hi as int),
            d == unsigned_digits(t),
            trim(line@) == t,
            d.len() > 0,
            all_digits(line@.subrange(start as int, k as int)),
            ({
                let v = decimal_value(line@.subrange(start as int, k as int));
                if v <= u32::MAX {
                    value == v
                } else {
                    value == u32::MAX as u64 + 1
                }
            }),
        decreases hi - k,
    {
        let c = line.get_char(k);
        let ghost p = line@.subrange(start as int, k as int);
        proof {
            assert(line@.subrange(start as int, k + 1) =~= p.push(c));
            lemma_decimal_push(p, c);
            lemma_decimal_nonnegative(p);
        }
        if !('0' <= c && c <= '9') {
            assert(d[k - start] == c);
            assert(!is_digit(d[k - start]));
            return Err(ParseFailure);
        }
        let digit = (c as u32 - '0' as u32) as u64;
        if value > u32::MAX as u64 {
            assert(decimal_value(p) * 10 + digit_value(c) > u32::MAX) by (nonlinear_arith)
                requires
                    decimal_value(p) > u32::MAX,
                    digit_value(c) >= 0,
            ;
        } else {
            let next = value * 10 + digit;
            if next > u32::MAX as u64 {
                value = u32::MAX as u64 + 1;
            } else {
                value = next;
            }
        }
        proof {
            let q = line@.subrange(start as int, k + 1);
            assert forall|i: int| 0 <= i < q.len() implies #[trigger] is_digit(q[i]) by {
                if i < k - start {
                    assert(q[i] == p[i]);
                }
            }
        }
        k = k + 1;
    }
    assert(line@.subrange(start as int, hi as int) =~= d);
    if value > u32::MAX as u64 {
        Err(ParseFailure)
    } else {
        Ok(value as u32)
    }
}

} // verus!
