//! Text helpers: UTF-8 decoding and decimal rendering.

use vstd::prelude::*;
use vstd::utf8::{decode_utf8, valid_utf8};

verus! {

/// Calls `core::str::from_utf8`. Claimed: it succeeds exactly on well-formed
/// UTF-8 (vstd's `valid_utf8`, the RFC 3629 grammar that std documents), and
/// the `str` then holds the decoded characters.
#[verifier::external_body]
pub(crate) fn str_from_utf8(b: &[u8]) -> (r: Option<&str>)
    ensures
        r is Some <==> valid_utf8(b@),
        r matches Some(s) ==> s@ == decode_utf8(b@),
{
    core::str::from_utf8(b).ok()
}

/// Index of the first `c` at or after `i`, if any.
pub open spec fn char_from(s: Seq<char>, c: char, i: int) -> Option<int>
    decreases s.len() - i,
{
    if i < 0 || i >= s.len() {
        None
    } else if s[i] == c {
        Some(i)
    } else {
        char_from(s, c, i + 1)
    }
}

/// Where `char_from` finds a character, it lies in the text at or after `i`.
pub proof fn lemma_char_from_bounds(s: Seq<char>, c: char, i: int)
    ensures
        char_from(s, c, i) matches Some(j) ==> i <= j < s.len() && s[j] == c,
    decreases s.len() - i,
{
    if 0 <= i < s.len() && s[i] != c {
        lemma_char_from_bounds(s, c, i + 1);
    }
}

/// Position of the first `c` in `s[from..to]` (in characters), or `to`.
pub fn find_char(s: &str, c: char, from: usize, to: usize) -> (r: usize)
    requires
        from <= to <= s@.len(),
    ensures
        from <= r <= to,
        r < to ==> char_from(s@.subrange(from as int, to as int), c, 0) == Some(r - from),
        r == to ==> char_from(s@.subrange(from as int, to as int), c, 0) is None,
{
    let ghost t = s@.subrange(from as int, to as int);
    let mut i: usize = from;
    while i < to
        invariant
            from <= i <= to,
            to <= s@.len(),
            t == s@.subrange(from as int, to as int),
            char_from(t, c, 0) == char_from(t, c, i - from),
        decreases to - i,
    {
        if s.get_char(i) == c {
            return i;
        }
        i = i + 1;
    }
    i
}

/// `char::is_whitespace`: the characters with the Unicode White_Space property.
pub open spec fn is_space(c: char) -> bool {
    let u = c as u32;
    (0x09 <= u <= 0x0D) || u == 0x20 || u == 0x85 || u == 0xA0 || u == 0x1680 || (0x2000 <= u
        <= 0x200A) || u == 0x2028 || u == 0x2029 || u == 0x202F || u == 0x205F || u == 0x3000
}

pub fn is_space_char(c: char) -> (r: bool)
    ensures
        r == is_space(c),
{
    let u: u32 = c as u32;
    (0x09 <= u && u <= 0x0D) || u == 0x20 || u == 0x85 || u == 0xA0 || u == 0x1680 || (0x2000 <= u
        && u <= 0x200A) || u == 0x2028 || u == 0x2029 || u == 0x202F || u == 0x205F || u == 0x3000
}

/// `s` without its leading whitespace.
pub open spec fn trim_start(s: Seq<char>) -> Seq<char>
    decreases s.len(),
{
    if s.len() > 0 && is_space(s[0]) {
        trim_start(s.drop_first())
    } else {
        s
    }
}

/// `s` without its trailing whitespace.
pub open spec fn trim_end(s: Seq<char>) -> Seq<char>
    decreases s.len(),
{
    if s.len() > 0 && is_space(s.last()) {
        trim_end(s.drop_last())
    } else {
        s
    }
}

/// `str::trim`: `s` without leading and trailing whitespace.
pub open spec fn trimmed(s: Seq<char>) -> Seq<char> {
    trim_end(trim_start(s))
}

/// Bounds `(lo, hi)` of the trimmed text of `s[from..to]`, in characters.
pub fn trim_bounds(s: &str, from: usize, to: usize) -> (r: (usize, usize))
    requires
        from <= to <= s@.len(),
    ensures
        from <= r.0 <= r.1 <= to,
        s@.subrange(r.0 as int, r.1 as int) == trimmed(s@.subrange(from as int, to as int)),
{
    let ghost t = s@.subrange(from as int, to as int);
    let mut lo: usize = from;
    while lo < to && is_space_char(s.get_char(lo))
        invariant
            from <= lo <= to,
            to <= s@.len(),
            t == s@.subrange(from as int, to as int),
            trim_start(t) == trim_start(s@.subrange(lo as int, to as int)),
        decreases to - lo,
    {
        assert(s@.subrange(lo as int, to as int).drop_first() =~= s@.subrange(
            lo + 1,
            to as int,
        ));
        lo = lo + 1;
    }
    let ghost u = s@.subrange(lo as int, to as int);
    assert(trim_start(u) == u);
    let mut hi: usize = to;
    while hi > lo && is_space_char(s.get_char(hi - 1))
        invariant
            from <= lo <= hi <= to,
            to <= s@.len(),
            u == s@.subrange(lo as int, to as int),
            trim_start(t) == u,
            trim_end(u) == trim_end(s@.subrange(lo as int, hi as int)),
        decreases hi - lo,
    {
        assert(s@.subrange(lo as int, hi as int).drop_last() =~= s@.subrange(
            lo as int,
            hi - 1,
        ));
        hi = hi - 1;
    }
    (lo, hi)
}

pub open spec fn is_digit(c: char) -> bool {
    '0' <= c <= '9'
}

pub open spec fn all_digits(d: Seq<char>) -> bool {
    forall|i: int| 0 <= i < d.len() ==> is_digit(#[trigger] d[i])
}

/// Value of a string of decimal digits.
pub open spec fn digits_value(d: Seq<char>) -> int
    decreases d.len(),
{
    if d.len() == 0 {
        0
    } else {
        digits_value(d.drop_last()) * 10 + (d.last() as int - '0' as int)
    }
}

/// `str::parse` for an unsigned integer type whose largest value is `max`: an
/// optional `+`, then at least one decimal digit, and a value no greater than `max`.
pub open spec fn unsigned_value(t: Seq<char>, max: int) -> Option<int> {
    let d = if t.len() > 0 && t[0] == '+' {
        t.drop_first()
    } else {
        t
    };
    if d.len() == 0 || !all_digits(d) || digits_value(d) > max {
        None
    } else {
        Some(digits_value(d))
    }
}

/// `str::parse::<i32>`: an optional sign, then at least one decimal digit, in range.
pub open spec fn i32_value(t: Seq<char>) -> Option<int> {
    if t.len() > 0 && t[0] == '-' {
        let d = t.drop_first();
        if d.len() == 0 || !all_digits(d) || digits_value(d) > 0x8000_0000 {
            None
        } else {
            Some(-digits_value(d))
        }
    } else {
        unsigned_value(t, 0x7FFF_FFFF)
    }
}

proof fn lemma_digits_prefix(d: Seq<char>, k: int)
    requires
        0 <= k <= d.len(),
        all_digits(d),
    ensures
        digits_value(d.take(k)) <= digits_value(d),
        0 <= digits_value(d.take(k)),
    decreases d.len(),
{
    if k == d.len() {
        assert(d.take(k) =~= d);
        if d.len() > 0 {
            lemma_digits_prefix(d.drop_last(), k - 1);
            assert(d.drop_last().take(k - 1) =~= d.drop_last());
        }
    } else {
        lemma_digits_prefix(d.drop_last(), k);
        assert(d.drop_last().take(k) =~= d.take(k));
        lemma_digits_prefix(d.drop_last(), d.len() - 1);
        assert(d.drop_last().take(d.len() - 1) =~= d.drop_last());
    }
}

/// The digits of `s[from..to]` read as a number no greater than `max`.
fn digits_in(s: &str, from: usize, to: usize, max: u64) -> (r: Option<u64>)
    requires
        from <= to <= s@.len(),
    ensures
        r == (if to - from == 0 || !all_digits(s@.subrange(from as int, to as int)) || digits_value(
            s@.subrange(from as int, to as int),
        ) > max {
            None::<u64>
        } else {
            Some(digits_value(s@.subrange(from as int, to as int)) as u64)
        }),
        r matches Some(v) ==> v as int == digits_value(s@.subrange(from as int, to as int)),
{
    let ghost d = s@.subrange(from as int, to as int);
    if from == to {
        return None;
    }
    let mut acc: u128 = 0;
    let mut i: usize = from;
    while i < to
        invariant
            from <= i <= to,
            to <= s@.len(),
            d == s@.subrange(from as int, to as int),
            all_digits(d.take(i - from)),
            acc == digits_value(d.take(i - from)),
            acc <= max,
        decreases to - i,
    {
        let c: char = s.get_char(i);
        if !('0' <= c && c <= '9') {
            assert(!is_digit(d[i - from]));
            return None;
        }
        let digit: u128 = (c as u32 - '0' as u32) as u128;
        assert(d.take(i - from + 1).drop_last() =~= d.take(i - from));
        assert(d.take(i - from + 1).last() == c);
        acc = acc * 10 + digit;
        i = i + 1;
        assert(all_digits(d.take(i - from))) by {
            assert forall|k: int| 0 <= k < i - from implies is_digit(#[trigger] d.take(i - from)[k]) by {
                if k < i - from - 1 {
                    assert(d.take(i - from)[k] == d.take(i - from - 1)[k]);
                }
            }
        }
        if acc > max as u128 {
            proof {
                if all_digits(d) {
                    lemma_digits_prefix(d, i - from);
                }
            }
            return None;
        }
    }
    assert(d.take(to - from) =~= d);
    proof {
        lemma_digits_prefix(d, d.len() as int);
    }
    Some(acc as u64)
}

/// `s[from..to].parse()` into an unsigned type whose largest value is `max`.
pub fn parse_unsigned(s: &str, from: usize, to: usize, max: u64) -> (r: Option<u64>)
    requires
        from <= to <= s@.len(),
    ensures
        r matches Some(v) ==> unsigned_value(s@.subrange(from as int, to as int), max as int)
            == Some(v as int),
        r is None ==> unsigned_value(s@.subrange(from as int, to as int), max as int) is None,
{
    let ghost t = s@.subrange(from as int, to as int);
    if from < to && s.get_char(from) == '+' {
        assert(t.drop_first() =~= s@.subrange(from + 1, to as int));
        digits_in(s, from + 1, to, max)
    } else {
        digits_in(s, from, to, max)
    }
}

/// `s[from..to].parse::<i32>()`.
pub fn parse_i32(s: &str, from: usize, to: usize) -> (r: Option<i32>)
    requires
        from <= to <= s@.len(),
    ensures
        r matches Some(v) ==> i32_value(s@.subrange(from as int, to as int)) == Some(v as int),
        r is None ==> i32_value(s@.subrange(from as int, to as int)) is None,
{
    let ghost t = s@.subrange(from as int, to as int);
    if from < to && s.get_char(from) == '-' {
        assert(t.drop_first() =~= s@.subrange(from + 1, to as int));
        match digits_in(s, from + 1, to, 0x8000_0000) {
            Some(v) => {
                if v == 0x8000_0000 {
                    Some(i32::MIN)
                } else {
                    Some(-(v as i32))
                }
            },
            None => None,
        }
    } else {
        match parse_unsigned(s, from, to, 0x7FFF_FFFF) {
            Some(v) => Some(v as i32),
            None => None,
        }
    }
}

/// Whether `a` and `b` hold the same characters.
pub fn same_text(a: &str, b: &str) -> (r: bool)
    ensures
        r == (a@ == b@),
{
    let n: usize = a.unicode_len();
    if n != b.unicode_len() {
        return false;
    }
    let mut i: usize = 0;
    while i < n
        invariant
            n == a@.len(),
            n == b@.len(),
            i <= n,
            forall|k: int| 0 <= k < i ==> a@[k] == b@[k],
        decreases n - i,
    {
        if a.get_char(i) != b.get_char(i) {
            return false;
        }
        i = i + 1;
    }
    assert(a@ =~= b@);
    true
}

} // verus!
