//! Decimal digit strings: what they denote, and how integer fields are read.

use vstd::prelude::*;

verus! {

/// Largest value of an `i32`.
pub const I32_MAX: u64 = 2147483647;

pub open spec fn is_digit(c: char) -> bool {
    '0' <= c && c <= '9'
}

pub open spec fn digit_value(c: char) -> int {
    (c as int) - ('0' as int)
}

pub open spec fn all_digits(s: Seq<char>) -> bool {
    forall|i: int| 0 <= i < s.len() ==> is_digit(#[trigger] s[i])
}

/// The number that a string of decimal digits denotes.
pub open spec fn digits_value(s: Seq<char>) -> nat
    decreases s.len(),
{
    if s.len() == 0 {
        0
    } else {
        (digits_value(s.drop_last()) * 10 + digit_value(s.last())) as nat
    }
}

/// The value of an `i32` written as text: an optional sign, then one or more digits.
pub open spec fn int_text_value(s: Seq<char>) -> Option<int> {
    if s.len() > 0 && (s[0] == '-' || s[0] == '+') {
        let body = s.drop_first();
        let v = if s[0] == '-' { -digits_value(body) } else { digits_value(body) as int };
        if body.len() > 0 && all_digits(body) && -I32_MAX - 1 <= v <= I32_MAX {
            Some(v)
        } else {
            None
        }
    } else if s.len() > 0 && all_digits(s) && digits_value(s) <= I32_MAX {
        Some(digits_value(s) as int)
    } else {
        None
    }
}

/// The integer that an integer field takes from its text: the text's value, or 0.
pub open spec fn int_field_value(s: Seq<char>) -> int {
    match int_text_value(s) {
        Some(v) => v,
        None => 0,
    }
}

pub proof fn lemma_digits_value_push(s: Seq<char>, c: char)
    ensures
        is_digit(c) ==> digits_value(s.push(c)) == digits_value(s) * 10 + digit_value(c),
{
    assert(s.push(c).drop_last() =~= s);
}

/// Whether every character of `s` from `from` up to `to` is a digit.
pub fn all_digits_in(s: &str, from: usize, to: usize) -> (r: bool)
    requires
        from <= to <= s@.len(),
    ensures
        r == all_digits(s@.subrange(from as int, to as int)),
{
    let mut i = from;
    while i < to
        invariant
            from <= i <= to <= s@.len(),
            all_digits(s@.subrange(from as int, i as int)),
        decreases to - i,
    {
        let c = s.get_char(i);
        if !('0' <= c && c <= '9') {
            assert(s@.subrange(from as int, to as int)[i - from] == c);
            return false;
        }
        assert(s@.subrange(from as int, i + 1) =~= s@.subrange(from as int, i as int).push(c));
        i = i + 1;
    }
    true
}

/// The value of the digits of `s` from `from` up to `to`, where they are all digits and
/// their value is at most `cap`.
pub fn digits_value_in(s: &str, from: usize, to: usize, cap: u64) -> (r: Option<u64>)
    requires
        from <= to <= s@.len(),
        cap <= I32_MAX + 1,
    ensures
        ({
            let t = s@.subrange(from as int, to as int);
            r == if all_digits(t) && digits_value(t) <= cap {
                Some(digits_value(t) as u64)
            } else {
                None
            }
        }),
{
    let mut i = from;
    let mut acc: u64 = 0;
    while i < to
        invariant
            from <= i <= to <= s@.len(),
            cap <= I32_MAX + 1,
            all_digits(s@.subrange(from as int, i as int)),
            acc == digits_value(s@.subrange(from as int, i as int)),
            acc <= cap,
        decreases to - i,
    {
        let c = s.get_char(i);
        let ghost before = s@.subrange(from as int, i as int);
        assert(s@.subrange(from as int, i + 1) =~= before.push(c));
        if !('0' <= c && c <= '9') {
            assert(s@.subrange(from as int, to as int)[i - from] == c);
            return None;
        }
        proof {
            lemma_digits_value_push(before, c);
        }
        let d = (c as u32 - '0' as u32) as u64;
        let next = acc * 10 + d;
        if next > cap {
            proof {
                lemma_digits_value_grows(s@.subrange(from as int, to as int), i + 1 - from);
                assert(s@.subrange(from as int, to as int).subrange(0, i + 1 - from)
                    =~= s@.subrange(from as int, i + 1));
            }
            return None;
        }
        acc = next;
        i = i + 1;
    }
    Some(acc)
}

/// A longer run of digits never denotes less than its prefix.
pub proof fn lemma_digits_value_grows(t: Seq<char>, k: int)
    requires
        0 <= k <= t.len(),
    ensures
        all_digits(t) ==> digits_value(t.subrange(0, k)) <= digits_value(t),
    decreases t.len() - k,
{
    if k < t.len() && all_digits(t) {
        lemma_digits_value_grows(t, k + 1);
        assert(t.subrange(0, k + 1).drop_last() =~= t.subrange(0, k));
    } else if k == t.len() {
        assert(t.subrange(0, k) =~= t);
    }
}

/// Reads an integer field: the `i32` that the text denotes, or 0 where it denotes none.
pub fn parse_int_field(s: &str) -> (r: i32)
    ensures
        r as int == int_field_value(s@),
{
    let n = s.unicode_len();
    if n == 0 {
        return 0;
    }
    let c = s.get_char(0);
    if c == '-' || c == '+' {
        let cap: u64 = if c == '-' { I32_MAX + 1 } else { I32_MAX };
        proof {
            assert(s@.subrange(1, n as int) =~= s@.drop_first());
        }
        if n == 1 {
            return 0;
        }
        match digits_value_in(s, 1, n, cap) {
            Some(v) => {
                if c == '-' {
                    (-(v as i64)) as i32
                } else {
                    v as i32
                }
            },
            None => 0,
        }
    } else {
        proof {
            assert(s@.subrange(0, n as int) =~= s@);
        }
        match digits_value_in(s, 0, n, I32_MAX) {
            Some(v) => v as i32,
            None => 0,
        }
    }
}

} // verus!

verus! {

/// Ten to the power `n`.
pub open spec fn pow10(n: nat) -> nat
    decreases n,
{
    if n == 0 {
        1
    } else {
        10 * pow10((n - 1) as nat)
    }
}

pub proof fn lemma_pow10_positive(n: nat)
    ensures
        pow10(n) >= 1,
    decreases n,
{
    if n > 0 {
        lemma_pow10_positive((n - 1) as nat);
    }
}

/// Digits written one after another denote the first run's value shifted left, plus the second's.
pub proof fn lemma_digits_value_concat(a: Seq<char>, b: Seq<char>)
    requires
        all_digits(b),
    ensures
        digits_value(a + b) == digits_value(a) * pow10(b.len()) + digits_value(b),
    decreases b.len(),
{
    if b.len() == 0 {
        assert(a + b =~= a);
        assert(pow10(b.len()) == 1);
        assert(digits_value(b) == 0);
    } else {
        let b1 = b.drop_last();
        assert(all_digits(b1));
        lemma_digits_value_concat(a, b1);
        assert((a + b).drop_last() =~= a + b1);
        assert((a + b).last() == b.last());
        let x = digits_value(a);
        let p = pow10(b1.len());
        let y = digits_value(b1);
        let d = digit_value(b.last());
        assert(is_digit(b[b.len() - 1]));
        assert(digits_value(a + b) == digits_value(a + b1) * 10 + d);
        assert(digits_value(b) == y * 10 + d);
        assert(pow10(b.len()) == 10 * p);
        assert((x * p + y) * 10 == x * (10 * p) + y * 10) by (nonlinear_arith);
        assert(digits_value(a + b) == x * pow10(b.len()) + digits_value(b));
    }
}

/// Index of the first `.` in `s` at or after `i`, or the length of `s` where there is none.
pub open spec fn first_dot_from(s: Seq<char>, i: int) -> int
    decreases s.len() - i,
{
    if i >= s.len() {
        s.len() as int
    } else if s[i] == '.' {
        i
    } else {
        first_dot_from(s, i + 1)
    }
}

pub open spec fn first_dot(s: Seq<char>) -> int {
    first_dot_from(s, 0)
}

pub proof fn lemma_first_dot_bounds(s: Seq<char>, i: int)
    requires
        0 <= i <= s.len(),
    ensures
        i <= first_dot_from(s, i) <= s.len(),
        first_dot_from(s, i) < s.len() ==> s[first_dot_from(s, i)] == '.',
        forall|j: int| i <= j < first_dot_from(s, i) ==> s[j] != '.',
    decreases s.len() - i,
{
    if i < s.len() && s[i] != '.' {
        lemma_first_dot_bounds(s, i + 1);
    }
}

/// Index of the first `.` in `s`, or its length where there is none.
pub fn find_dot(s: &str, n: usize) -> (r: usize)
    requires
        n == s@.len(),
    ensures
        r as int == first_dot(s@),
{
    let mut i: usize = 0;
    while i < n
        invariant
            n == s@.len(),
            0 <= i <= n,
            first_dot_from(s@, i as int) == first_dot(s@),
        decreases n - i,
    {
        if s.get_char(i) == '.' {
            return i;
        }
        i = i + 1;
    }
    i
}

} // verus!
