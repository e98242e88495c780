//! Scanning of plain text: digit runs, signed integers and clock-style
//! durations.
use crate::error::ValueError;
use vstd::prelude::*;

verus! {

/// A decimal digit.
pub open spec fn is_digit(c: char) -> bool {
    '0' <= c && c <= '9'
}

/// One or more decimal digits and nothing else.
pub open spec fn is_digits(s: Seq<char>) -> bool {
    s.len() > 0 && forall|i: int| 0 <= i < s.len() ==> is_digit(#[trigger] s[i])
}

pub open spec fn digit_value(c: char) -> nat {
    (c as nat - '0' as nat) as nat
}

/// The number that a run of decimal digits denotes.
pub open spec fn digits_value(s: Seq<char>) -> nat
    decreases s.len(),
{
    if s.len() == 0 {
        0
    } else {
        10 * digits_value(s.drop_last()) + digit_value(s.last())
    }
}

/// The value of a run of digits, if `s` is one.
pub open spec fn natural_of(s: Seq<char>) -> Option<nat> {
    if is_digits(s) {
        Some(digits_value(s))
    } else {
        None
    }
}

/// An integer as `str::parse` reads one: an optional sign, then digits.
pub open spec fn integer_of(s: Seq<char>) -> Option<int> {
    if s.len() > 0 && s[0] == '-' {
        if is_digits(s.drop_first()) {
            Some(-digits_value(s.drop_first()))
        } else {
            None
        }
    } else if s.len() > 0 && s[0] == '+' {
        if is_digits(s.drop_first()) {
            Some(digits_value(s.drop_first()) as int)
        } else {
            None
        }
    } else if is_digits(s) {
        Some(digits_value(s) as int)
    } else {
        None
    }
}

/// The text before the first `c` in `s` and the text after it.
#[verifier::opaque]
pub open spec fn split_first(s: Seq<char>, c: char) -> Option<(Seq<char>, Seq<char>)> {
    if exists|i: int| 0 <= i < s.len() && s[i] == c {
        let i = choose|i: int|
            0 <= i < s.len() && s[i] == c && forall|j: int| 0 <= j < i ==> s[j] != c;
        Some((s.subrange(0, i), s.subrange(i + 1, s.len() as int)))
    } else {
        None
    }
}

/// `M:SS.mmm` in milliseconds.
pub open spec fn short_clock_of(s: Seq<char>) -> Option<nat> {
    match split_first(s, ':') {
        Some((m, rest)) => match split_first(rest, '.') {
            Some((sec, ms)) => if is_digits(m) && is_digits(sec) && is_digits(ms) {
                Some(digits_value(ms) + 1000 * (digits_value(sec) + 60 * digits_value(m)))
            } else {
                None
            },
            None => None,
        },
        None => None,
    }
}

/// `H:MM:SS.mmm` in milliseconds.
pub open spec fn long_clock_of(s: Seq<char>) -> Option<nat> {
    match split_first(s, ':') {
        Some((h, rest)) => match short_clock_of(rest) {
            Some(v) => if is_digits(h) {
                Some(v + 3_600_000 * digits_value(h))
            } else {
                None
            },
            None => None,
        },
        None => None,
    }
}

/// The duration in milliseconds that a clock-style time string denotes:
/// the short form is tried first, then the long one.
pub open spec fn duration_of(s: Seq<char>) -> Option<nat> {
    match short_clock_of(s) {
        Some(v) => Some(v),
        None => long_clock_of(s),
    }
}

/// A natural number that fits in `u64`, if there is one.
pub open spec fn as_u64(o: Option<nat>) -> Option<u64> {
    if o is Some && o->0 <= u64::MAX {
        Some(o->0 as u64)
    } else {
        None
    }
}

proof fn lemma_digits_prefix(t: Seq<char>, k: int)
    requires
        0 <= k <= t.len(),
    ensures
        digits_value(t.subrange(0, k)) <= digits_value(t),
    decreases t.len(),
{
    if k < t.len() {
        assert(t.subrange(0, k) =~= t.drop_last().subrange(0, k));
        lemma_digits_prefix(t.drop_last(), k);
    } else {
        assert(t.subrange(0, k) =~= t);
    }
}

proof fn lemma_split_at(s: Seq<char>, c: char, i: int)
    requires
        0 <= i < s.len(),
        s[i] == c,
        forall|j: int| 0 <= j < i ==> s[j] != c,
    ensures
        split_first(s, c) == Some((s.subrange(0, i), s.subrange(i + 1, s.len() as int))),
{
    reveal(split_first);
    let k = choose|k: int|
        0 <= k < s.len() && s[k] == c && forall|j: int| 0 <= j < k ==> s[j] != c;
    if k < i {
        assert(s[k] != c);
    }
    if i < k {
        assert(s[i] != c);
    }
}

/// The index of the first `c` in `s[lo..hi]`.
fn find_char(s: &str, c: char, lo: usize, hi: usize) -> (r: Option<usize>)
    requires
        lo <= hi <= s@.len(),
    ensures
        match r {
            Some(i) => lo <= i < hi && s@[i as int] == c && forall|j: int|
                lo <= j < i ==> s@[j] != c,
            None => forall|j: int| lo <= j < hi ==> s@[j] != c,
        },
{
    let mut i = lo;
    while i < hi
        invariant
            lo <= i <= hi <= s@.len(),
            forall|j: int| lo <= j < i ==> s@[j] != c,
        decreases hi - i,
    {
        if s.get_char(i) == c {
            return Some(i);
        }
        i = i + 1;
    }
    None
}

/// What `split_first` gives on `s[lo..hi]`, by the index found.
proof fn lemma_split_found(s: Seq<char>, c: char, lo: int, hi: int, r: Option<usize>)
    requires
        0 <= lo <= hi <= s.len(),
        match r {
            Some(i) => lo <= i < hi && s[i as int] == c && forall|j: int|
                lo <= j < i ==> s[j] != c,
            None => forall|j: int| lo <= j < hi ==> s[j] != c,
        },
    ensures
        match r {
            Some(i) => split_first(s.subrange(lo, hi), c) == Some(
                (s.subrange(lo, i as int), s.subrange(i + 1, hi)),
            ),
            None => split_first(s.subrange(lo, hi), c) is None,
        },
{
    let t = s.subrange(lo, hi);
    match r {
        Some(i) => {
            lemma_split_at(t, c, i - lo);
            assert(t.subrange(0, i - lo) =~= s.subrange(lo, i as int));
            assert(t.subrange(i - lo + 1, t.len() as int) =~= s.subrange(i + 1, hi));
        },
        None => {
            reveal(split_first);
            assert(!exists|k: int| 0 <= k < t.len() && t[k] == c) by {
                assert forall|k: int| 0 <= k < t.len() implies t[k] != c by {
                    assert(t[k] == s[lo + k]);
                }
            }
        },
    }
}

/// Whether `s[lo..hi]` is a run of digits.
fn all_digits(s: &str, lo: usize, hi: usize) -> (r: bool)
    requires
        lo <= hi <= s@.len(),
    ensures
        r == is_digits(s@.subrange(lo as int, hi as int)),
{
    let ghost t = s@.subrange(lo as int, hi as int);
    let mut i = lo;
    while i < hi
        invariant
            lo <= i <= hi <= s@.len(),
            t == s@.subrange(lo as int, hi as int),
            forall|j: int| lo <= j < i ==> is_digit(#[trigger] s@[j]),
        decreases hi - i,
    {
        let c = s.get_char(i);
        if !('0' <= c && c <= '9') {
            proof {
                assert(t[i - lo] == c);
            }
            return false;
        }
        i = i + 1;
    }
    proof {
        assert forall|j: int| 0 <= j < t.len() implies is_digit(#[trigger] t[j]) by {
            assert(t[j] == s@[lo + j]);
        }
    }
    lo < hi
}

/// The value of the digit run `s[lo..hi]`, where it is one that fits in `u64`.
fn natural_in(s: &str, lo: usize, hi: usize) -> (r: Option<u64>)
    requires
        lo <= hi <= s@.len(),
    ensures
        r == as_u64(natural_of(s@.subrange(lo as int, hi as int))),
{
    let ghost t = s@.subrange(lo as int, hi as int);
    if lo == hi {
        return None;
    }
    let mut acc: u64 = 0;
    let mut i = lo;
    while i < hi
        invariant
            lo < hi <= s@.len(),
            lo <= i <= hi,
            t == s@.subrange(lo as int, hi as int),
            forall|j: int| lo <= j < i ==> is_digit(#[trigger] s@[j]),
            acc as nat == digits_value(s@.subrange(lo as int, i as int)),
        decreases hi - i,
    {
        let c = s.get_char(i);
        if !('0' <= c && c <= '9') {
            proof {
                assert(t[i - lo] == c);
            }
            return None;
        }
        let ghost pre = s@.subrange(lo as int, i + 1);
        proof {
            assert(pre.drop_last() =~= s@.subrange(lo as int, i as int));
        }
        let d = (c as u32 - '0' as u32) as u64;
        let next: u128 = 10 * (acc as u128) + d as u128;
        if next > u64::MAX as u128 {
            proof {
                if is_digits(t) {
                    assert(pre =~= t.subrange(0, i + 1 - lo));
                    lemma_digits_prefix(t, i + 1 - lo);
                }
            }
            return None;
        }
        acc = next as u64;
        i = i + 1;
    }
    proof {
        assert(s@.subrange(lo as int, hi as int) =~= t);
        assert forall|j: int| 0 <= j < t.len() implies is_digit(#[trigger] t[j]) by {
            assert(t[j] == s@[lo + j]);
        }
    }
    Some(acc)
}

/// An integer that fits in `i32`, if there is one.
pub open spec fn as_i32(o: Option<int>) -> Option<i32> {
    if o is Some && i32::MIN <= o->0 <= i32::MAX {
        Some(o->0 as i32)
    } else {
        None
    }
}

/// Whether `s[lo..hi]` is of the form `M:SS.mmm`, and its value where that
/// fits in `u64`.
fn short_clock_in(s: &str, lo: usize, hi: usize) -> (r: Option<Option<u64>>)
    requires
        lo <= hi <= s@.len(),
    ensures
        match short_clock_of(s@.subrange(lo as int, hi as int)) {
            Some(v) => r == Some(as_u64(Some(v))),
            None => r is None,
        },
{
    let colon = find_char(s, ':', lo, hi);
    proof {
        lemma_split_found(s@, ':', lo as int, hi as int, colon);
    }
    let i = match colon {
        Some(i) => i,
        None => return None,
    };
    let dot = find_char(s, '.', i + 1, hi);
    proof {
        lemma_split_found(s@, '.', i + 1, hi as int, dot);
    }
    let j = match dot {
        Some(j) => j,
        None => return None,
    };
    let m = natural_in(s, lo, i);
    let sec = natural_in(s, i + 1, j);
    let ms = natural_in(s, j + 1, hi);
    match (m, sec, ms) {
        (Some(m), Some(sec), Some(ms)) => {
            let total: u128 = ms as u128 + 1000 * (sec as u128 + 60 * m as u128);
            if total <= u64::MAX as u128 {
                Some(Some(total as u64))
            } else {
                Some(None)
            }
        },
        (None, _, _) | (_, None, _) | (_, _, None) => {
            if all_digits(s, lo, i) && all_digits(s, i + 1, j) && all_digits(s, j + 1, hi) {
                Some(None)
            } else {
                None
            }
        },
    }
}

/// The value of `H:MM:SS.mmm` in `s[lo..hi]`.
fn long_clock_in(s: &str, lo: usize, hi: usize) -> (r: Option<u64>)
    requires
        lo <= hi <= s@.len(),
    ensures
        r == as_u64(long_clock_of(s@.subrange(lo as int, hi as int))),
{
    let colon = find_char(s, ':', lo, hi);
    proof {
        lemma_split_found(s@, ':', lo as int, hi as int, colon);
    }
    let i = match colon {
        Some(i) => i,
        None => return None,
    };
    let rest = short_clock_in(s, i + 1, hi);
    let h = natural_in(s, lo, i);
    match (h, rest) {
        (Some(h), Some(Some(rest))) => {
            let total: u128 = rest as u128 + 3_600_000 * (h as u128);
            if total <= u64::MAX as u128 {
                Some(total as u64)
            } else {
                None
            }
        },
        _ => None,
    }
}

/// Parses a clock-style time, `M:SS.mmm` or `H:MM:SS.mmm`, into milliseconds.
pub fn parse_duration(s: &str) -> (r: Result<u64, ValueError>)
    ensures
        match as_u64(duration_of(s@)) {
            Some(v) => r == Ok::<u64, ValueError>(v),
            None => r matches Err(ValueError::MalformedDuration(t)) && t@ == s@,
        },
{
    let n = s.unicode_len();
    proof {
        assert(s@.subrange(0, n as int) =~= s@);
    }
    match short_clock_in(s, 0, n) {
        Some(Some(v)) => Ok(v),
        Some(None) => Err(ValueError::MalformedDuration(s.to_owned())),
        None => match long_clock_in(s, 0, n) {
            Some(v) => Ok(v),
            None => Err(ValueError::MalformedDuration(s.to_owned())),
        },
    }
}

/// Parses an integer of `i32`'s range: an optional sign, then decimal digits.
pub fn parse_integer(s: &str) -> (r: Result<i32, ValueError>)
    ensures
        match as_i32(integer_of(s@)) {
            Some(v) => r == Ok::<i32, ValueError>(v),
            None => r matches Err(ValueError::MalformedInteger(t)) && t@ == s@,
        },
{
    let n = s.unicode_len();
    let first = if n > 0 {
        s.get_char(0)
    } else {
        ' '
    };
    let negative = n > 0 && first == '-';
    let start: usize = if n > 0 && (first == '-' || first == '+') {
        1
    } else {
        0
    };
    proof {
        assert(s@.subrange(0, n as int) =~= s@);
        assert(s@.subrange(1, n as int) =~= s@.drop_first());
    }
    match natural_in(s, start, n) {
        Some(v) => {
            if negative && v <= 2147483648 {
                Ok((0 - v as i64) as i32)
            } else if !negative && v <= 2147483647 {
                Ok(v as i32)
            } else {
                Err(ValueError::MalformedInteger(s.to_owned()))
            }
        },
        None => Err(ValueError::MalformedInteger(s.to_owned())),
    }
}

/// Whether `s` begins with `p`.
pub open spec fn starts_with(s: Seq<char>, p: Seq<char>) -> bool {
    p.len() <= s.len() && s.subrange(0, p.len() as int) == p
}

/// Whether `s` begins with `p`.
pub fn has_prefix(s: &str, p: &str) -> (r: bool)
    ensures
        r == starts_with(s@, p@),
{
    let n = s.unicode_len();
    let k = p.unicode_len();
    if k > n {
        return false;
    }
    let mut i: usize = 0;
    while i < k
        invariant
            k <= n,
            n == s@.len(),
            k == p@.len(),
            i <= k,
            forall|j: int| 0 <= j < i ==> s@[j] == p@[j],
        decreases k - i,
    {
        if s.get_char(i) != p.get_char(i) {
            proof {
                assert(s@.subrange(0, k as int)[i as int] != p@[i as int]);
            }
            return false;
        }
        i = i + 1;
    }
    proof {
        assert(s@.subrange(0, k as int) =~= p@);
    }
    true
}

/// Whether two texts hold the same characters.
pub fn same_text(a: &str, b: &str) -> (r: bool)
    ensures
        r == (a@ == b@),
{
    let r = a.unicode_len() == b.unicode_len() && has_prefix(a, b);
    proof {
        if a@.len() == b@.len() {
            assert(a@.subrange(0, b@.len() as int) =~= a@);
        }
    }
    r
}

} // verus!
