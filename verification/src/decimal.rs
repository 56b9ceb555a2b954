//! Decimal numerals: reading an unsigned integer from text and writing one.
use vstd::prelude::*;

verus! {

/// Whether `c` is one of the ten ASCII digits.
pub open spec fn is_digit(c: char) -> bool {
    '0' <= c && c <= '9'
}

/// The number that the digit `c` stands for; 0 for any other character.
pub open spec fn digit_value(c: char) -> nat {
    if is_digit(c) {
        (c as u32 - '0' as u32) as nat
    } else {
        0
    }
}

/// The digit that stands for `d`, for `d` below ten.
pub open spec fn digit_char(d: nat) -> char {
    ('0' as u32 + d) as char
}

/// Whether every character of `s` is a digit.
pub open spec fn all_digits(s: Seq<char>) -> bool {
    forall|i: int| 0 <= i < s.len() ==> is_digit(#[trigger] s[i])
}

/// The number that the digits `s` write in base ten; 0 for no digits.
pub open spec fn digits_value(s: Seq<char>) -> nat
    decreases s.len(),
{
    if s.len() == 0 {
        0
    } else {
        10 * digits_value(s.drop_last()) + digit_value(s.last())
    }
}

/// `s` without the plus sign that may lead it.
pub open spec fn without_sign(s: Seq<char>) -> Seq<char> {
    if s.len() > 0 && s[0] == '+' {
        s.drop_first()
    } else {
        s
    }
}

/// The number that `s` writes, where `s` is an optional plus sign followed
/// by one digit or more and the number is at most `max`.
pub open spec fn spec_parse_decimal(s: Seq<char>, max: nat) -> Option<nat> {
    let digits = without_sign(s);
    if digits.len() > 0 && all_digits(digits) && digits_value(digits) <= max {
        Some(digits_value(digits))
    } else {
        None
    }
}

/// The digits of `n` in base ten, without leading zeros.
pub open spec fn decimal_digits(n: nat) -> Seq<char>
    decreases n,
{
    if n < 10 {
        seq![digit_char(n)]
    } else {
        decimal_digits(n / 10).push(digit_char(n % 10))
    }
}

/// A prefix of digits writes no greater a number than the whole.
proof fn lemma_digits_value_prefix(s: Seq<char>, k: int)
    requires
        0 <= k <= s.len(),
    ensures
        digits_value(s.take(k)) <= digits_value(s),
    decreases s.len(),
{
    if k == s.len() {
        assert(s.take(k) == s);
    } else {
        lemma_digits_value_prefix(s.drop_last(), k);
        assert(s.drop_last().take(k) == s.take(k));
    }
}

/// The number that `s` writes, where `s` is an optional plus sign followed
/// by one digit or more and the number is at most `max`.
pub fn parse_decimal(s: &[char], max: u64) -> (res: Option<u64>)
    ensures
        res == match spec_parse_decimal(s@, max as nat) {
            Some(n) => Some(n as u64),
            None => None,
        },
{
    let start: usize = if s.len() > 0 && s[0] == '+' {
        1
    } else {
        0
    };
    if start == s.len() {
        return None;
    }
    let ghost digits = without_sign(s@);
    assert(digits == s@.skip(start as int));
    let mut acc: u64 = 0;
    let mut i: usize = start;
    while i < s.len()
        invariant
            start <= i <= s.len(),
            digits == without_sign(s@),
            digits == s@.skip(start as int),
            all_digits(digits.take(i - start)),
            acc == digits_value(digits.take(i - start)),
            acc <= max,
        decreases s.len() - i,
    {
        let c: char = s[i];
        let ghost k = i - start;
        assert(digits[k] == c);
        assert(digits.take(k + 1).drop_last() == digits.take(k));
        if c < '0' || c > '9' {
            return None;
        }
        let d: u64 = (c as u32 - '0' as u32) as u64;
        if d > max || acc > (max - d) / 10 {
            proof {
                if all_digits(digits) {
                    lemma_digits_value_prefix(digits, k + 1);
                }
            }
            return None;
        }
        acc = acc * 10 + d;
        i += 1;
    }
    assert(digits.take(digits.len() as int) == digits);
    Some(acc)
}

/// The number that `s` writes, where `s` is an optional plus sign followed
/// by one digit or more and the number fits.
pub fn parse_u32(s: &[char]) -> (res: Option<u32>)
    ensures
        res == match spec_parse_decimal(s@, u32::MAX as nat) {
            Some(n) => Some(n as u32),
            None => None,
        },
{
    match parse_decimal(s, 0xFFFF_FFFF) {
        Some(n) => Some(n as u32),
        None => None,
    }
}

/// The number that `s` writes, where `s` is an optional plus sign followed
/// by one digit or more and the number fits.
pub fn parse_usize(s: &[char]) -> (res: Option<usize>)
    ensures
        res == match spec_parse_decimal(s@, usize::MAX as nat) {
            Some(n) => Some(n as usize),
            None => None,
        },
{
    match parse_decimal(s, usize::MAX as u64) {
        Some(n) => Some(n as usize),
        None => None,
    }
}

/// Appends the digits of `n` in base ten to `out`.
pub fn push_decimal(out: &mut String, n: u64)
    ensures
        final(out)@ == old(out)@ + decimal_digits(n as nat),
    decreases n,
{
    if n >= 10 {
        push_decimal(out, n / 10);
    }
    let d: u8 = (n % 10) as u8;
    let c: char = (0x30u8 + d) as char;
    assert(c == digit_char((n % 10) as nat));
    out.push(c);
}

/// The digits of a number are digits, at least one, and write that number.
pub proof fn lemma_decimal_digits(n: nat)
    ensures
        decimal_digits(n).len() > 0,
        all_digits(decimal_digits(n)),
        digits_value(decimal_digits(n)) == n,
    decreases n,
{
    if n < 10 {
        assert(seq![digit_char(n)].drop_last() == Seq::<char>::empty());
        assert(digits_value(Seq::<char>::empty()) == 0);
    } else {
        lemma_decimal_digits(n / 10);
        assert(decimal_digits(n).drop_last() == decimal_digits(n / 10));
    }
}

/// Reading the digits of a number gives the number back, where it is
/// within the limit.
pub proof fn lemma_parse_decimal_digits(n: nat, max: nat)
    requires
        n <= max,
    ensures
        spec_parse_decimal(decimal_digits(n), max) == Some(n),
{
    lemma_decimal_digits(n);
    assert(is_digit(decimal_digits(n)[0]));
}

} // verus!
