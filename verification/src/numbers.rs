//! Numbers in texts.
use crate::error::Cause;
use crate::text::chars_of;
use vstd::prelude::*;

verus! {

/// Why a text is no number.
#[derive(Copy, Clone, Debug, PartialEq, Eq, Structural)]
pub enum NumberError {
    Empty,
    InvalidDigit,
    TooLarge,
}

impl NumberError {
    pub open spec fn text(self) -> Seq<char> {
        match self {
            NumberError::Empty => "cannot parse integer from empty string"@,
            NumberError::InvalidDigit => "invalid digit found in string"@,
            NumberError::TooLarge => "number too large to fit in target type"@,
        }
    }

    /// What is said of the error.
    pub fn message(&self) -> (r: &'static str)
        ensures
            r@ == self.text(),
    {
        match self {
            NumberError::Empty => "cannot parse integer from empty string",
            NumberError::InvalidDigit => "invalid digit found in string",
            NumberError::TooLarge => "number too large to fit in target type",
        }
    }

    /// The error as a cause.
    pub fn cause(&self) -> (r: Cause)
        ensures
            r.message@ == self.text(),
            r.sources.deep_view() == Seq::<Seq<char>>::empty(),
    {
        let sources: Vec<String> = Vec::new();
        assert(sources.deep_view() =~= Seq::<Seq<char>>::empty());
        Cause { message: self.message().to_owned(), sources }
    }
}

/// The value of a digit.
pub open spec fn digit_value(c: char) -> int {
    c as int - '0' as int
}

/// The number that digits in base `radix` are. The first digit that is none, or that makes the
/// number greater than `max`, is the error.
pub open spec fn digits_value(s: Seq<char>, radix: int, max: int) -> Result<int, NumberError>
    decreases s.len(),
{
    if s.len() == 0 {
        Ok(0)
    } else {
        match digits_value(s.drop_last(), radix, max) {
            Err(e) => Err(e),
            Ok(v) => {
                let d = digit_value(s.last());
                if d < 0 || d >= radix {
                    Err(NumberError::InvalidDigit)
                } else if v * radix + d > max {
                    Err(NumberError::TooLarge)
                } else {
                    Ok(v * radix + d)
                }
            },
        }
    }
}

/// The number that a text is: digits, and a plus in front of them if need be.
pub open spec fn number_value(s: Seq<char>, radix: int, max: int) -> Result<int, NumberError> {
    if s.len() == 0 {
        Err(NumberError::Empty)
    } else if s.len() > 1 && s[0] == '+' {
        digits_value(s.skip(1), radix, max)
    } else {
        digits_value(s, radix, max)
    }
}

proof fn lemma_digits_error(s: Seq<char>, radix: int, max: int, i: int)
    requires
        0 <= i <= s.len(),
        digits_value(s.take(i), radix, max) is Err,
    ensures
        digits_value(s, radix, max) == digits_value(s.take(i), radix, max),
    decreases s.len(),
{
    if i == s.len() {
        assert(s.take(i) =~= s);
    } else {
        assert(s.drop_last().take(i) =~= s.take(i));
        lemma_digits_error(s.drop_last(), radix, max, i);
    }
}

/// The number that a text is, in base ten or less, up to `max`.
pub fn parse_number(s: &str, radix: u64, max: u64) -> (r: Result<u64, NumberError>)
    requires
        2 <= radix <= 10,
    ensures
        match number_value(s@, radix as int, max as int) {
            Ok(n) => r is Ok && r->Ok_0 == n,
            Err(e) => r == Err::<u64, NumberError>(e),
        },
{
    let v = chars_of(s);
    if v.len() == 0 {
        return Err(NumberError::Empty);
    }
    let start: usize = if v.len() > 1 && v[0] == '+' {
        1
    } else {
        0
    };
    let ghost digits = s@.skip(start as int);
    assert(s@.skip(0) =~= s@);
    let mut value: u64 = 0;
    let mut i: usize = start;
    assert(digits.take(0) =~= Seq::<char>::empty());
    while i < v.len()
        invariant
            v@ == s@,
            start <= i <= v.len(),
            start <= 1,
            2 <= radix <= 10,
            digits == s@.skip(start as int),
            digits_value(digits.take(i - start), radix as int, max as int) == Ok::<
                int,
                NumberError,
            >(value as int),
            number_value(s@, radix as int, max as int) == digits_value(
                digits,
                radix as int,
                max as int,
            ),
        decreases v.len() - i,
    {
        let c = v[i];
        proof {
            assert(digits.take(i - start + 1).drop_last() =~= digits.take(i - start));
            assert(digits.take(i - start + 1).last() == c);
        }
        if c < '0' || c > '9' || (c as u64 - '0' as u64) >= radix {
            proof {
                lemma_digits_error(digits, radix as int, max as int, i - start + 1);
            }
            return Err(NumberError::InvalidDigit);
        }
        let d: u64 = c as u64 - '0' as u64;
        assert(0 <= value * radix <= 0xffff_ffff_ffff_ffffu64 * 10) by (nonlinear_arith)
            requires
                value <= 0xffff_ffff_ffff_ffffu64,
                radix <= 10,
        ;
        let next: u128 = value as u128 * radix as u128;
        let next: u128 = next + d as u128;
        if next > max as u128 {
            proof {
                lemma_digits_error(digits, radix as int, max as int, i - start + 1);
            }
            return Err(NumberError::TooLarge);
        }
        value = next as u64;
        i += 1;
    }
    assert(digits.take(i - start) =~= digits);
    Ok(value)
}

/// The beginning of the day.
pub fn start_of_day(timestamp: u64) -> (r: u64)
    ensures
        r <= timestamp,
        timestamp - r < 86400,
        r % 86400 == 0,
{
    timestamp - timestamp % (24 * 3600)
}

} // verus!
