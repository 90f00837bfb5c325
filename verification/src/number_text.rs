//! Decimal integers as text: what std's `i64` parsing accepts and what its
//! `Display` prints.
use vstd::prelude::*;
use crate::text::{is_ascii_digit, string_of, chars_of};

verus! {

pub open spec fn digit_value(c: char) -> int {
    (c as int) - ('0' as int)
}

pub open spec fn all_digits(s: Seq<char>) -> bool {
    forall|i: int| 0 <= i < s.len() ==> is_ascii_digit(#[trigger] s[i])
}

/// The value of a run of decimal digits, most significant first.
pub open spec fn digits_value(s: Seq<char>) -> int
    decreases s.len(),
{
    if s.len() == 0 {
        0
    } else {
        digits_value(s.drop_last()) * 10 + digit_value(s.last())
    }
}

/// The integer that the text denotes in the syntax of `i64::from_str`: an
/// optional `+` or `-` followed by one or more ASCII digits, nothing else.
pub open spec fn int_text(s: Seq<char>) -> Option<int> {
    if s.len() >= 2 && s[0] == '-' && all_digits(s.drop_first()) {
        Some(-digits_value(s.drop_first()))
    } else if s.len() >= 2 && s[0] == '+' && all_digits(s.drop_first()) {
        Some(digits_value(s.drop_first()))
    } else if s.len() >= 1 && all_digits(s) {
        Some(digits_value(s))
    } else {
        None
    }
}

/// What `i64::from_str` returns for `s`: the value when the syntax matches
/// and it fits in an `i64`.
pub open spec fn i64_text(s: Seq<char>) -> Option<i64> {
    match int_text(s) {
        Some(v) => if i64::MIN <= v <= i64::MAX {
            Some(v as i64)
        } else {
            None
        },
        None => None,
    }
}

pub open spec fn digit_char(d: int) -> char {
    (('0' as int) + d) as char
}

/// The decimal digits of `n`, without leading zeros.
pub open spec fn nat_text(n: nat) -> Seq<char>
    decreases n,
{
    if n < 10 {
        seq![digit_char(n as int)]
    } else {
        nat_text(n / 10) + seq![digit_char((n % 10) as int)]
    }
}

/// The text that `i64`'s `Display` prints for `v`.
pub open spec fn decimal_text(v: int) -> Seq<char> {
    if v < 0 {
        seq!['-'] + nat_text((-v) as nat)
    } else {
        nat_text(v as nat)
    }
}

/// The digits of a natural number are digits, at least one, and denote it.
pub proof fn lemma_nat_text(n: nat)
    ensures
        nat_text(n).len() > 0,
        all_digits(nat_text(n)),
        digits_value(nat_text(n)) == n,
    decreases n,
{
    if n >= 10 {
        lemma_nat_text(n / 10);
        let t = nat_text(n / 10);
        let d = (n % 10) as int;
        let s = t + seq![digit_char(d)];
        assert(s.drop_last() =~= t);
        assert(digit_value(digit_char(d)) == d);
        assert(forall|i: int| 0 <= i < t.len() ==> s[i] == t[i]);
        assert((n / 10) * 10 + n % 10 == n) by (nonlinear_arith);
        assert(s.last() == digit_char(d));
        assert(digits_value(s) == digits_value(t) * 10 + d);
    } else {
        let s = seq![digit_char(n as int)];
        assert(s.drop_last() =~= Seq::<char>::empty());
        assert(digit_value(digit_char(n as int)) == n);
        assert(digits_value(s) == digits_value(s.drop_last()) * 10 + digit_value(s.last()));
    }
}

/// The text that `i64` prints reads back as the same `i64`.
pub proof fn lemma_decimal_text_read(v: i64)
    ensures
        i64_text(decimal_text(v as int)) == Some(v),
        decimal_text(v as int).len() > 0,
        forall|i: int|
            0 <= i < decimal_text(v as int).len() ==> is_ascii_digit(#[trigger] decimal_text(v as int)[i])
                || (i == 0 && decimal_text(v as int)[i] == '-'),
        is_ascii_digit(decimal_text(v as int).last()),
{
    if v < 0 {
        let n = (-(v as int)) as nat;
        lemma_nat_text(n);
        let s = seq!['-'] + nat_text(n);
        assert(s.drop_first() =~= nat_text(n));
        assert(s.last() == nat_text(n).last());
        assert(forall|i: int| 1 <= i < s.len() ==> s[i] == nat_text(n)[i - 1]);
    } else {
        lemma_nat_text(v as nat);
    }
}

/// The value of digits is never negative, and never less than the value of
/// any of its prefixes.
proof fn lemma_digits_value_grows(t: Seq<char>, j: int)
    requires
        all_digits(t),
        0 <= j <= t.len(),
    ensures
        0 <= digits_value(t.take(j)) <= digits_value(t),
    decreases t.len(),
{
    if t.len() > 0 {
        let p = t.drop_last();
        assert(all_digits(p)) by {
            assert forall|i: int| 0 <= i < p.len() implies is_ascii_digit(#[trigger] p[i]) by {
                assert(p[i] == t[i]);
            }
        }
        assert(is_ascii_digit(t.last()));
        if j == t.len() {
            assert(t.take(j) =~= t);
            lemma_digits_value_grows(p, p.len() as int);
            assert(p.take(p.len() as int) =~= p);
        } else {
            lemma_digits_value_grows(p, j);
            assert(p.take(j) =~= t.take(j));
            lemma_digits_value_grows(p, p.len() as int);
            assert(p.take(p.len() as int) =~= p);
        }
    } else {
        assert(t.take(j) =~= t);
    }
}

/// The value of the digits of `s` from `from` on, when there is at least
/// one, all are digits and the value is at most `limit`.
fn read_digits(s: &Vec<char>, from: usize, limit: u128) -> (r: Option<u128>)
    requires
        from <= s.len(),
        limit <= u64::MAX as u128 + 1,
    ensures
        r == (if from < s@.len() && all_digits(s@.skip(from as int)) && digits_value(s@.skip(from as int))
            <= limit {
            Some(digits_value(s@.skip(from as int)) as u128)
        } else {
            None::<u128>
        }),
{
    let ghost t = s@.skip(from as int);
    if from == s.len() {
        return None;
    }
    let mut v: u128 = 0;
    let mut k: usize = from;
    assert(s@.subrange(from as int, from as int) =~= Seq::<char>::empty());
    while k < s.len()
        invariant
            from <= k <= s@.len(),
            t == s@.skip(from as int),
            limit <= u64::MAX as u128 + 1,
            all_digits(s@.subrange(from as int, k as int)),
            v as int == digits_value(s@.subrange(from as int, k as int)),
            v <= limit,
        decreases s.len() - k,
    {
        let c = s[k];
        if !('0' <= c && c <= '9') {
            proof {
                assert(t[k - from] == c);
                assert(!all_digits(t));
            }
            return None;
        }
        let d: u128 = (c as u32 - '0' as u32) as u128;
        let ghost pre = s@.subrange(from as int, k as int);
        let ghost next = s@.subrange(from as int, k + 1);
        assert(next.drop_last() =~= pre);
        assert(next.last() == c);
        assert(all_digits(next)) by {
            assert forall|i: int| 0 <= i < next.len() implies is_ascii_digit(#[trigger] next[i]) by {
                if i < pre.len() {
                    assert(next[i] == pre[i]);
                }
            }
        }
        assert(digit_value(c) == d);
        let w = v * 10 + d;
        if w > limit {
            proof {
                if all_digits(t) {
                    assert(t.take(k + 1 - from) =~= next);
                    lemma_digits_value_grows(t, k + 1 - from);
                }
            }
            return None;
        }
        v = w;
        k = k + 1;
    }
    assert(s@.subrange(from as int, k as int) =~= t);
    Some(v)
}

/// `<i64 as FromStr>::from_str`: accepts an optional `+` or `-` followed by one
/// or more ASCII digits whose value fits in an `i64`; anything else (empty
/// text, whitespace, a lone sign, other characters, overflow) is an error.
pub(crate) fn parse_i64(s: &str) -> (r: Option<i64>)
    ensures
        r == i64_text(s@),
{
    let c = chars_of(s);
    if c.len() >= 2 && c[0] == '-' {
        assert(c@.drop_first() =~= c@.skip(1));
        match read_digits(&c, 1, 9223372036854775808) {
            Some(v) => {
                proof {
                    lemma_digits_value_grows(c@.skip(1), 0);
                }
                Some((0 - (v as i128)) as i64)
            },
            None => {
                assert(!all_digits(c@)) by {
                    assert(!is_ascii_digit(c@[0]));
                }
                None
            },
        }
    } else if c.len() >= 2 && c[0] == '+' {
        assert(c@.drop_first() =~= c@.skip(1));
        match read_digits(&c, 1, 9223372036854775807) {
            Some(v) => {
                proof {
                    lemma_digits_value_grows(c@.skip(1), 0);
                }
                Some(v as i64)
            },
            None => {
                assert(!all_digits(c@)) by {
                    assert(!is_ascii_digit(c@[0]));
                }
                None
            },
        }
    } else {
        assert(c@.skip(0) =~= c@);
        match read_digits(&c, 0, 9223372036854775807) {
            Some(v) => {
                proof {
                    lemma_digits_value_grows(c@.skip(0), 0);
                }
                Some(v as i64)
            },
            None => None,
        }
    }
}

/// The character of the decimal digit `d`.
fn digit_of(d: u128) -> (r: char)
    requires
        d < 10,
    ensures
        r == digit_char(d as int),
{
    match d {
        0 => '0',
        1 => '1',
        2 => '2',
        3 => '3',
        4 => '4',
        5 => '5',
        6 => '6',
        7 => '7',
        8 => '8',
        _ => '9',
    }
}

/// The decimal digits of `n`, without leading zeros.
fn digits_of(n: u128) -> (r: Vec<char>)
    ensures
        r@ == nat_text(n as nat),
    decreases n,
{
    if n < 10 {
        vec![digit_of(n)]
    } else {
        let mut r = digits_of(n / 10);
        r.push(digit_of(n % 10));
        r
    }
}

/// `i64::to_string`: the decimal digits of the value, preceded by `-` when
/// it is negative, without leading zeros.
pub(crate) fn i64_to_string(v: i64) -> (r: String)
    ensures
        r@ == decimal_text(v as int),
{
    if v < 0 {
        let n: u128 = (-(v as i128)) as u128;
        let mut t: Vec<char> = vec!['-'];
        let d = digits_of(n);
        crate::text::push_all(&mut t, &d);
        string_of(&t)
    } else {
        string_of(&digits_of(v as u128))
    }
}

/// `u128::to_string`: the decimal digits of `v`.
pub(crate) fn u128_to_string(v: u128) -> (r: String)
    ensures
        r@ == decimal_text(v as int),
{
    string_of(&digits_of(v))
}

/// The decimal digits of `a + b`, which cannot overflow here.
pub fn sum_text(a: usize, b: usize) -> (r: String)
    ensures
        r@ == decimal_text(a + b),
{
    u128_to_string((a as u128) + (b as u128))
}

/// `u64::to_string`: the decimal digits of `v`.
pub(crate) fn u64_to_string(v: u64) -> (r: String)
    ensures
        r@ == decimal_text(v as int),
{
    string_of(&digits_of(v as u128))
}

/// The value that the text denotes in the syntax of an unsigned integer's
/// `from_str`: an optional `+` followed by one or more ASCII digits.
pub open spec fn uint_text(s: Seq<char>) -> Option<int> {
    if s.len() >= 2 && s[0] == '+' && all_digits(s.drop_first()) {
        Some(digits_value(s.drop_first()))
    } else if s.len() >= 1 && all_digits(s) {
        Some(digits_value(s))
    } else {
        None
    }
}

/// `<usize as FromStr>::from_str`: accepts an optional `+` followed by one or
/// more ASCII digits whose value fits in a `usize`; anything else is an error.
pub(crate) fn parse_usize(s: &str) -> (r: Option<usize>)
    ensures
        r == (match uint_text(s@) {
            Some(v) => if v <= usize::MAX {
                Some(v as usize)
            } else {
                None::<usize>
            },
            None => None,
        }),
{
    let c = chars_of(s);
    if c.len() >= 2 && c[0] == '+' {
        assert(c@.drop_first() =~= c@.skip(1));
        match read_digits(&c, 1, usize::MAX as u128) {
            Some(v) => {
                proof {
                    lemma_digits_value_grows(c@.skip(1), 0);
                }
                Some(v as usize)
            },
            None => {
                assert(!all_digits(c@)) by {
                    assert(!is_ascii_digit(c@[0]));
                }
                None
            },
        }
    } else {
        assert(c@.skip(0) =~= c@);
        match read_digits(&c, 0, usize::MAX as u128) {
            Some(v) => {
                proof {
                    lemma_digits_value_grows(c@.skip(0), 0);
                }
                Some(v as usize)
            },
            None => None,
        }
    }
}

/// `<u64 as FromStr>::from_str`: accepts an optional `+` followed by one or
/// more ASCII digits whose value fits in a `u64`; anything else is an error.
pub(crate) fn parse_u64(s: &str) -> (r: Option<u64>)
    ensures
        r == (match uint_text(s@) {
            Some(v) => if v <= u64::MAX {
                Some(v as u64)
            } else {
                None::<u64>
            },
            None => None,
        }),
{
    let c = chars_of(s);
    if c.len() >= 2 && c[0] == '+' {
        assert(c@.drop_first() =~= c@.skip(1));
        match read_digits(&c, 1, u64::MAX as u128) {
            Some(v) => {
                proof {
                    lemma_digits_value_grows(c@.skip(1), 0);
                }
                Some(v as u64)
            },
            None => {
                assert(!all_digits(c@)) by {
                    assert(!is_ascii_digit(c@[0]));
                }
                None
            },
        }
    } else {
        assert(c@.skip(0) =~= c@);
        match read_digits(&c, 0, u64::MAX as u128) {
            Some(v) => {
                proof {
                    lemma_digits_value_grows(c@.skip(0), 0);
                }
                Some(v as u64)
            },
            None => None,
        }
    }
}

} // verus!
