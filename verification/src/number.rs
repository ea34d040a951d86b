//! Decimal numbers in text: reading an integer out of its digits, and
//! writing one as digits.

use crate::text::chars_of;
use vstd::prelude::*;
use vstd::string::*;

verus! {

/// The ten ASCII digits.
pub open spec fn is_digit(c: char) -> bool {
    '0' <= c <= '9'
}

/// The number that a digit stands for.
pub open spec fn digit_value(c: char) -> int {
    c as int - '0' as int
}

/// Whether `s` holds digits only.
pub open spec fn all_digits(s: Seq<char>) -> bool {
    forall|i: int| 0 <= i < s.len() ==> is_digit(#[trigger] s[i])
}

/// The number that a run of digits stands for, read in base ten. Zero for
/// the empty run.
pub open spec fn decimal_value(s: Seq<char>) -> int
    decreases s.len(),
{
    if s.len() == 0 {
        0
    } else {
        decimal_value(s.drop_last()) * 10 + digit_value(s.last())
    }
}

/// What is left of `s` once a leading sign is taken off: a `+`, or a `-`
/// where that is allowed.
pub open spec fn unsigned_part(s: Seq<char>, minus_allowed: bool) -> Seq<char> {
    if s.len() > 0 && (s[0] == '+' || (minus_allowed && s[0] == '-')) {
        s.skip(1)
    } else {
        s
    }
}

/// The number in `digits`, where `digits` is one digit or more and the
/// number is at most `limit`.
pub open spec fn magnitude_of(digits: Seq<char>, limit: int) -> Option<int> {
    if digits.len() > 0 && all_digits(digits) && decimal_value(digits) <= limit {
        Some(decimal_value(digits))
    } else {
        None
    }
}

/// The non-negative integer that `s` spells: an optional `+`, then one digit
/// or more, with a value of at most `max`. Anything else spells none.
pub open spec fn unsigned_of(s: Seq<char>, max: int) -> Option<int> {
    magnitude_of(unsigned_part(s, false), max)
}

/// The integer that `s` spells: an optional `+` or `-`, then one digit or
/// more, with a value from `min` to `max`. Anything else spells none.
pub open spec fn signed_of(s: Seq<char>, min: int, max: int) -> Option<int> {
    let digits = unsigned_part(s, true);
    if s.len() > 0 && s[0] == '-' {
        match magnitude_of(digits, -min) {
            Some(v) => Some(-v),
            None => None,
        }
    } else {
        magnitude_of(digits, max)
    }
}

/// The digit that stands for `d`, for `d` below ten.
pub open spec fn digit_char(d: int) -> char {
    if d == 0 {
        '0'
    } else if d == 1 {
        '1'
    } else if d == 2 {
        '2'
    } else if d == 3 {
        '3'
    } else if d == 4 {
        '4'
    } else if d == 5 {
        '5'
    } else if d == 6 {
        '6'
    } else if d == 7 {
        '7'
    } else if d == 8 {
        '8'
    } else {
        '9'
    }
}

/// `n` written in base ten, without sign or leading zeros.
pub open spec fn decimal_digits(n: nat) -> Seq<char>
    decreases n,
{
    if n < 10 {
        seq![digit_char(n as int)]
    } else {
        decimal_digits(n / 10).push(digit_char((n % 10) as int))
    }
}

/// A run of digits stands for a number that is not negative, and for no less
/// than any of its prefixes does.
pub proof fn lemma_decimal_value_grows(s: Seq<char>, k: int)
    requires
        all_digits(s),
        0 <= k <= s.len(),
    ensures
        0 <= decimal_value(s.take(k)) <= decimal_value(s),
    decreases s.len(),
{
    if k == s.len() {
        assert(s.take(k) =~= s);
        if s.len() > 0 {
            assert(all_digits(s.drop_last()));
            lemma_decimal_value_grows(s.drop_last(), k - 1);
            assert(is_digit(s.last()));
        }
    } else {
        let t = s.drop_last();
        assert(all_digits(t));
        lemma_decimal_value_grows(t, k);
        lemma_decimal_value_grows(t, t.len() as int);
        assert(t.take(k) =~= s.take(k));
        assert(is_digit(s.last()));
    }
}

/// A number read out of digits is not negative and at most the limit.
pub proof fn lemma_magnitude_bounds(digits: Seq<char>, limit: int)
    ensures
        magnitude_of(digits, limit) matches Some(v) ==> 0 <= v <= limit,
{
    if all_digits(digits) {
        lemma_decimal_value_grows(digits, 0);
    }
}

/// Writing a number and reading the digits back gives the number.
pub proof fn lemma_decimal_round_trip(n: nat)
    ensures
        decimal_digits(n).len() > 0,
        all_digits(decimal_digits(n)),
        decimal_value(decimal_digits(n)) == n,
        forall|max: int| n <= max ==> unsigned_of(decimal_digits(n), max) == Some(n as int),
    decreases n,
{
    if n < 10 {
        let s = decimal_digits(n);
        assert(s.drop_last() =~= Seq::<char>::empty());
        assert(decimal_value(s.drop_last()) == 0);
    } else {
        lemma_decimal_round_trip(n / 10);
        let s = decimal_digits(n);
        assert(s.drop_last() =~= decimal_digits(n / 10));
        assert forall|i: int| 0 <= i < s.len() implies is_digit(#[trigger] s[i]) by {
            if i < s.len() - 1 {
                assert(s[i] == decimal_digits(n / 10)[i]);
            }
        }
    }
}

/// The number that the digits of `cs` from `from` on stand for, where there
/// is at least one, all are digits, and the number is at most `limit`.
fn parse_magnitude(cs: &Vec<char>, from: usize, limit: u64) -> (r: Option<u64>)
    requires
        from <= cs.len(),
    ensures
        match magnitude_of(cs@.skip(from as int), limit as int) {
            Some(v) => r == Some(v as u64),
            None => r.is_none(),
        },
{
    let n = cs.len();
    let ghost digits = cs@.skip(from as int);
    if from == n {
        return None;
    }
    let mut acc: u64 = 0;
    let mut i = from;
    while i < n
        invariant
            from <= i <= n == cs.len(),
            digits == cs@.skip(from as int),
            all_digits(digits.take(i - from)),
            acc == decimal_value(digits.take(i - from)),
            acc <= limit,
        decreases n - i,
    {
        let c = cs[i];
        proof {
            assert(digits[i - from] == c);
            assert(digits.take(i - from + 1).drop_last() =~= digits.take(i - from));
            assert(digits.take(i - from + 1).last() == c);
        }
        if !('0' <= c && c <= '9') {
            return None;
        }
        let d: u64 = (c as u32 - '0' as u32) as u64;
        let next: u128 = acc as u128 * 10 + d as u128;
        proof {
            assert forall|j: int| 0 <= j < i - from + 1 implies is_digit(
                #[trigger] digits.take(i - from + 1)[j],
            ) by {
                if j < i - from {
                    assert(digits.take(i - from + 1)[j] == digits.take(i - from)[j]);
                }
            }
            assert(next == decimal_value(digits.take(i - from + 1)));
        }
        if next > limit as u128 {
            proof {
                if all_digits(digits) {
                    lemma_decimal_value_grows(digits, i - from + 1);
                }
            }
            return None;
        }
        acc = next as u64;
        i += 1;
    }
    proof {
        assert(digits.take(n - from) =~= digits);
    }
    Some(acc)
}

/// Reads a `usize`: an optional `+`, then digits. `None` for anything else,
/// a value too large for `usize` included.
pub fn parse_usize(s: &str) -> (r: Option<usize>)
    ensures
        match unsigned_of(s@, usize::MAX as int) {
            Some(v) => r == Some(v as usize),
            None => r.is_none(),
        },
{
    let cs = chars_of(s);
    let from: usize = if cs.len() > 0 && cs[0] == '+' {
        1
    } else {
        0
    };
    proof {
        assert(cs@.skip(0) =~= cs@);
        lemma_magnitude_bounds(cs@.skip(from as int), usize::MAX as int);
    }
    match parse_magnitude(&cs, from, usize::MAX as u64) {
        Some(v) => Some(v as usize),
        None => None,
    }
}

/// Reads an `i64`: an optional `+` or `-`, then digits. `None` for anything
/// else, a value outside `i64` included.
pub fn parse_i64(s: &str) -> (r: Option<i64>)
    ensures
        match signed_of(s@, i64::MIN as int, i64::MAX as int) {
            Some(v) => r == Some(v as i64),
            None => r.is_none(),
        },
{
    let cs = chars_of(s);
    let negative = cs.len() > 0 && cs[0] == '-';
    let from: usize = if cs.len() > 0 && (cs[0] == '+' || cs[0] == '-') {
        1
    } else {
        0
    };
    proof {
        assert(cs@.skip(0) =~= cs@);
        lemma_magnitude_bounds(cs@.skip(from as int), -(i64::MIN as int));
        lemma_magnitude_bounds(cs@.skip(from as int), i64::MAX as int);
    }
    if negative {
        match parse_magnitude(&cs, from, 0x8000_0000_0000_0000u64) {
            Some(v) => if v == 0x8000_0000_0000_0000u64 {
                Some(i64::MIN)
            } else {
                Some(-(v as i64))
            },
            None => None,
        }
    } else {
        match parse_magnitude(&cs, from, i64::MAX as u64) {
            Some(v) => Some(v as i64),
            None => None,
        }
    }
}

/// The text of one digit.
fn digit_text(d: usize) -> (r: &'static str)
    requires
        d < 10,
    ensures
        r@ == seq![digit_char(d as int)],
{
    proof {
        reveal_strlit("0");
        reveal_strlit("1");
        reveal_strlit("2");
        reveal_strlit("3");
        reveal_strlit("4");
        reveal_strlit("5");
        reveal_strlit("6");
        reveal_strlit("7");
        reveal_strlit("8");
        reveal_strlit("9");
    }
    let r = if d == 0 {
        "0"
    } else if d == 1 {
        "1"
    } else if d == 2 {
        "2"
    } else if d == 3 {
        "3"
    } else if d == 4 {
        "4"
    } else if d == 5 {
        "5"
    } else if d == 6 {
        "6"
    } else if d == 7 {
        "7"
    } else if d == 8 {
        "8"
    } else {
        "9"
    };
    assert(r@ =~= seq![digit_char(d as int)]);
    r
}

/// Writes `n` in base ten.
pub fn decimal_string(n: usize) -> (r: String)
    ensures
        r@ == decimal_digits(n as nat),
    decreases n,
{
    if n < 10 {
        String::from_str(digit_text(n))
    } else {
        let mut s = decimal_string(n / 10);
        s.append(digit_text(n % 10));
        s
    }
}

} // verus!
