//! Numbers read from text, and what is said of text that is none.

use vstd::prelude::*;
use vstd::string::*;

use crate::text::{chars_of, dec, lemma_dec_digits};

verus! {

/// Why a text is no number.
#[derive(Clone, Copy, Debug, PartialEq, Eq, Structural)]
pub enum NumberError {
    Empty,
    InvalidDigit,
    TooLarge,
    Zero,
}

impl NumberError {
    pub open spec fn message(self) -> Seq<char> {
        match self {
            NumberError::Empty => "cannot parse integer from empty string"@,
            NumberError::InvalidDigit => "invalid digit found in string"@,
            NumberError::TooLarge => "number too large to fit in target type"@,
            NumberError::Zero => "number would be zero for non-zero type"@,
        }
    }

    pub fn text(self) -> (s: &'static str)
        ensures
            s@ == self.message(),
    {
        match self {
            NumberError::Empty => "cannot parse integer from empty string",
            NumberError::InvalidDigit => "invalid digit found in string",
            NumberError::TooLarge => "number too large to fit in target type",
            NumberError::Zero => "number would be zero for non-zero type",
        }
    }
}

/// The value of a digit in either case; nothing for other characters.
pub open spec fn digit_value(c: char) -> Option<nat> {
    if '0' <= c <= '9' {
        Some((c as int - '0' as int) as nat)
    } else if 'a' <= c <= 'z' {
        Some((c as int - 'a' as int + 10) as nat)
    } else if 'A' <= c <= 'Z' {
        Some((c as int - 'A' as int + 10) as nat)
    } else {
        None
    }
}

pub fn value_of_digit(c: char) -> (r: Option<u64>)
    ensures
        r is Some == digit_value(c) is Some,
        r matches Some(d) ==> d == digit_value(c)->0 && d < 36,
{
    let n: u32 = c as u32;
    if 48 <= n && n <= 57 {
        Some((n - 48) as u64)
    } else if 97 <= n && n <= 122 {
        Some((n - 87) as u64)
    } else if 65 <= n && n <= 90 {
        Some((n - 55) as u64)
    } else {
        None
    }
}

/// The number that the digits from `i` on make behind `value`. The first digit that is none
/// and the first one that brings the number over `max` are refused, whichever comes first.
pub open spec fn digits_from(s: Seq<char>, i: nat, value: nat, radix: nat, max: nat) -> Result<
    nat,
    NumberError,
>
    decreases s.len() - i,
{
    if i >= s.len() {
        Ok(value)
    } else {
        match digit_value(s[i as int]) {
            None => Err(NumberError::InvalidDigit),
            Some(d) => if d >= radix {
                Err(NumberError::InvalidDigit)
            } else if value * radix + d > max {
                Err(NumberError::TooLarge)
            } else {
                digits_from(s, i + 1, value * radix + d, radix, max)
            },
        }
    }
}

/// The number that a text shows, up to `max`; a `+` may stand in front.
pub open spec fn number_of(s: Seq<char>, radix: nat, max: nat) -> Result<nat, NumberError> {
    if s.len() == 0 {
        Err(NumberError::Empty)
    } else if s[0] == '+' {
        if s.len() == 1 {
            Err(NumberError::InvalidDigit)
        } else {
            digits_from(s, 1, 0, radix, max)
        }
    } else {
        digits_from(s, 0, 0, radix, max)
    }
}

/// A number that is not zero.
pub open spec fn positive_of(s: Seq<char>, radix: nat, max: nat) -> Result<nat, NumberError> {
    match number_of(s, radix, max) {
        Ok(n) => if n == 0 {
            Err(NumberError::Zero)
        } else {
            Ok(n)
        },
        Err(e) => Err(e),
    }
}

pub open spec fn as_number(r: Result<u64, NumberError>) -> Result<nat, NumberError> {
    match r {
        Ok(n) => Ok(n as nat),
        Err(e) => Err(e),
    }
}

pub fn parse_number(s: &str, radix: u64, max: u64) -> (r: Result<u64, NumberError>)
    requires
        2 <= radix <= 36,
    ensures
        as_number(r) == number_of(s@, radix as nat, max as nat),
{
    let chars = chars_of(s);
    let total: usize = chars.len();
    if total == 0 {
        return Err(NumberError::Empty);
    }
    let mut i: usize = 0;
    if chars[0] == '+' {
        if total == 1 {
            return Err(NumberError::InvalidDigit);
        }
        i = 1;
    }
    let mut value: u64 = 0;
    while i < total
        invariant
            total == chars@.len(),
            chars@ == s@,
            i <= total,
            value <= max,
            2 <= radix <= 36,
            number_of(s@, radix as nat, max as nat) == digits_from(
                s@,
                i as nat,
                value as nat,
                radix as nat,
                max as nat,
            ),
        decreases total - i,
    {
        let d: u64 = match value_of_digit(chars[i]) {
            Some(d) => d,
            None => {
                return Err(NumberError::InvalidDigit);
            },
        };
        if d >= radix {
            return Err(NumberError::InvalidDigit);
        }
        assert(value as int * radix as int <= 0x1_0000_0000_0000_0000 * 36) by (nonlinear_arith)
            requires
                0 <= value <= u64::MAX,
                2 <= radix <= 36,
        ;
        assert(value as int * radix as int >= 0) by (nonlinear_arith)
            requires
                0 <= value,
                2 <= radix,
        ;
        let next: u128 = value as u128 * radix as u128 + d as u128;
        if next > max as u128 {
            return Err(NumberError::TooLarge);
        }
        value = next as u64;
        i = i + 1;
    }
    Ok(value)
}

pub fn parse_positive(s: &str, radix: u64, max: u64) -> (r: Result<u64, NumberError>)
    requires
        2 <= radix <= 36,
    ensures
        as_number(r) == positive_of(s@, radix as nat, max as nat),
{
    match parse_number(s, radix, max) {
        Ok(n) => if n == 0 {
            Err(NumberError::Zero)
        } else {
            Ok(n)
        },
        Err(e) => Err(e),
    }
}

proof fn lemma_digits_within(s: Seq<char>, i: nat, value: nat, radix: nat, max: nat)
    requires
        value <= max,
    ensures
        digits_from(s, i, value, radix, max) matches Ok(n) ==> n <= max,
    decreases s.len() - i,
{
    if i < s.len() {
        if let Some(d) = digit_value(s[i as int]) {
            if d < radix && value * radix + d <= max {
                lemma_digits_within(s, i + 1, value * radix + d, radix, max);
            }
        }
    }
}

/// A number that was read is within its limit.
pub proof fn lemma_within(s: Seq<char>, radix: nat, max: nat)
    ensures
        number_of(s, radix, max) matches Ok(n) ==> n <= max,
{
    lemma_digits_within(s, 0, 0, radix, max);
    lemma_digits_within(s, 1, 0, radix, max);
}

/// What stands behind the digits of `n` is read on from `n`.
proof fn lemma_dec_from(n: nat, s: Seq<char>, max: nat)
    requires
        n <= max,
        dec(n).len() <= s.len(),
        s.take(dec(n).len() as int) == dec(n),
    ensures
        digits_from(s, 0, 0, 10, max) == digits_from(s, dec(n).len(), n, 10, max),
    decreases n,
{
    let digits = dec(n);
    let len = digits.len();
    lemma_dec_digits(n);
    assert(s[len - 1] == digits.last());
    assert(digit_value(digits.last()) == Some(n % 10));
    if n >= 10 {
        let front = dec(n / 10);
        assert(s.take(front.len() as int) =~= front) by {
            assert(front =~= digits.drop_last());
            assert(s.take(front.len() as int) =~= s.take(len as int).drop_last());
        }
        lemma_dec_from(n / 10, s, max);
        assert((n / 10) * 10 + n % 10 == n);
        assert(front.len() == len - 1);
        assert(digits_from(s, (len - 1) as nat, n / 10, 10, max) == digits_from(s, len, n, 10, max));
    } else {
        assert(digits_from(s, 0, 0, 10, max) == digits_from(s, 1, n, 10, max));
    }
}

/// The decimal digits of a number are read back as that number.
pub proof fn law_numbers_read_back(n: nat, max: nat)
    requires
        n <= max,
    ensures
        number_of(dec(n), 10, max) == Ok::<nat, NumberError>(n),
{
    lemma_dec_digits(n);
    assert(dec(n)[0] != '+');
    assert(dec(n).take(dec(n).len() as int) =~= dec(n));
    lemma_dec_from(n, dec(n), max);
}

} // verus!
