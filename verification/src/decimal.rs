//! Integers as decimal text.

use vstd::prelude::*;
use crate::text::chars_of;

verus! {

/// The digit character of `0..=9`.
pub open spec fn digit_char(d: int) -> char {
    (d + 48) as u8 as char
}

/// The decimal digits of a natural number, without leading zeros.
pub open spec fn digits(n: nat) -> Seq<char>
    decreases n,
{
    if n < 10 {
        seq![digit_char(n as int)]
    } else {
        digits(n / 10).push(digit_char((n % 10) as int))
    }
}

/// The decimal text of an integer.
pub open spec fn decimal(n: int) -> Seq<char> {
    if n < 0 {
        seq!['-'] + digits((-n) as nat)
    } else {
        digits(n as nat)
    }
}

/// The decimal text of an unsigned integer.
pub fn unsigned_text(n: u64) -> (r: String)
    ensures
        r@ == decimal(n as int),
    decreases n,
{
    let digit: u8 = (n % 10) as u8;
    let mut out = if n < 10 {
        String::new()
    } else {
        unsigned_text(n / 10)
    };
    out.push((digit + 48) as char);
    proof {
        assert(seq![digit_char(n as int)] == Seq::<char>::empty().push(digit_char(n as int)));
    }
    out
}

/// The decimal text of a signed integer.
pub fn signed_text(n: i64) -> (r: String)
    ensures
        r@ == decimal(n as int),
{
    if n < 0 {
        let mut out = String::new();
        out.push('-');
        let magnitude: u64 = if n == i64::MIN {
            0x8000_0000_0000_0000
        } else {
            (-n) as u64
        };
        let rest = unsigned_text(magnitude);
        out.append(rest.as_str());
        proof {
            assert(out@ == seq!['-'] + digits((-n) as nat));
        }
        out
    } else {
        unsigned_text(n as u64)
    }
}

/// Why a text is not an integer of the wanted range.
#[derive(Clone, Copy, Debug, PartialEq, Eq, Structural)]
pub enum IntError {
    Empty,
    InvalidDigit,
    TooLarge,
    TooSmall,
}

impl IntError {
    /// What an integer parse says of this error.
    pub open spec fn message(self) -> Seq<char> {
        match self {
            IntError::Empty => "cannot parse integer from empty string"@,
            IntError::InvalidDigit => "invalid digit found in string"@,
            IntError::TooLarge => "number too large to fit in target type"@,
            IntError::TooSmall => "number too small to fit in target type"@,
        }
    }

    /// The error in words.
    pub fn describe(&self) -> (r: String)
        ensures
            r@ == self.message(),
    {
        match self {
            IntError::Empty => "cannot parse integer from empty string".to_owned(),
            IntError::InvalidDigit => "invalid digit found in string".to_owned(),
            IntError::TooLarge => "number too large to fit in target type".to_owned(),
            IntError::TooSmall => "number too small to fit in target type".to_owned(),
        }
    }
}

/// Whether a character is an ASCII digit.
pub open spec fn is_digit(c: char) -> bool {
    '0' <= c && c <= '9'
}

/// The value of the digits of `s` read behind a number `acc`, as long as it stays within `max`.
///
/// The first character that fails decides the error, `over` where the value grows too large.
pub open spec fn digits_value(s: Seq<char>, acc: int, max: int, over: IntError) -> Result<int, IntError>
    decreases s.len(),
{
    if s.len() == 0 {
        Ok(acc)
    } else if !is_digit(s[0]) {
        Err(IntError::InvalidDigit)
    } else {
        let next = acc * 10 + (s[0] as int - 48);
        if next > max {
            Err(over)
        } else {
            digits_value(s.drop_first(), next, max, over)
        }
    }
}

/// The unsigned integer up to `max` that a text stands for: digits, with an optional `+` before.
pub open spec fn parsed_unsigned(s: Seq<char>, max: int) -> Result<int, IntError> {
    if s.len() == 0 {
        Err(IntError::Empty)
    } else if s.len() == 1 && (s[0] == '+' || s[0] == '-') {
        Err(IntError::InvalidDigit)
    } else if s[0] == '+' {
        digits_value(s.drop_first(), 0, max, IntError::TooLarge)
    } else {
        digits_value(s, 0, max, IntError::TooLarge)
    }
}

/// The signed 64-bit integer that a text stands for: digits, with an optional sign before.
pub open spec fn parsed_signed(s: Seq<char>) -> Result<int, IntError> {
    if s.len() == 0 {
        Err(IntError::Empty)
    } else if s.len() == 1 && (s[0] == '+' || s[0] == '-') {
        Err(IntError::InvalidDigit)
    } else if s[0] == '+' {
        digits_value(s.drop_first(), 0, i64::MAX as int, IntError::TooLarge)
    } else if s[0] == '-' {
        match digits_value(s.drop_first(), 0, i64::MAX as int + 1, IntError::TooSmall) {
            Ok(n) => Ok(-n),
            Err(error) => Err(error),
        }
    } else {
        digits_value(s, 0, i64::MAX as int, IntError::TooLarge)
    }
}

/// A result of an integer parse as a mathematical value.
pub open spec fn int_result(r: Result<u64, IntError>) -> Result<int, IntError> {
    match r {
        Ok(n) => Ok(n as int),
        Err(error) => Err(error),
    }
}

fn read_digits(chars: &Vec<char>, from: usize, max: u64, over: IntError) -> (r: Result<u64, IntError>)
    requires
        from <= chars@.len(),
    ensures
        int_result(r) == digits_value(chars@.skip(from as int), 0, max as int, over),
        r matches Ok(n) ==> n <= max,
{
    let mut acc: u64 = 0;
    let mut i: usize = from;
    while i < chars.len()
        invariant
            from <= i <= chars@.len(),
            acc <= max,
            digits_value(chars@.skip(from as int), 0, max as int, over) == digits_value(
                chars@.skip(i as int),
                acc as int,
                max as int,
                over,
            ),
        decreases chars@.len() - i,
    {
        let ghost rest = chars@.skip(i as int);
        assert(rest.drop_first() == chars@.skip(i + 1));
        let c = chars[i];
        if !('0' <= c && c <= '9') {
            return Err(IntError::InvalidDigit);
        }
        let d: u8 = c as u8 - 48;
        let next: u128 = acc as u128 * 10 + d as u128;
        if next > max as u128 {
            return Err(over);
        }
        acc = next as u64;
        i += 1;
    }
    Ok(acc)
}

/// Reads an unsigned integer up to `max`.
pub fn parse_unsigned(s: &str, max: u64) -> (r: Result<u64, IntError>)
    ensures
        int_result(r) == parsed_unsigned(s@, max as int),
        r matches Ok(n) ==> n <= max,
{
    let chars = chars_of(s);
    if chars.len() == 0 {
        return Err(IntError::Empty);
    }
    let first = chars[0];
    if chars.len() == 1 && (first == '+' || first == '-') {
        return Err(IntError::InvalidDigit);
    }
    assert(s@.skip(0) == s@);
    assert(s@.skip(1) == s@.drop_first());
    if first == '+' {
        read_digits(&chars, 1, max, IntError::TooLarge)
    } else {
        read_digits(&chars, 0, max, IntError::TooLarge)
    }
}

/// Reads a signed 64-bit integer.
pub fn parse_signed(s: &str) -> (r: Result<i64, IntError>)
    ensures
        r matches Ok(n) ==> parsed_signed(s@) == Ok::<int, IntError>(n as int),
        r matches Err(error) ==> parsed_signed(s@) == Err::<int, IntError>(error),
{
    let chars = chars_of(s);
    if chars.len() == 0 {
        return Err(IntError::Empty);
    }
    let first = chars[0];
    if chars.len() == 1 && (first == '+' || first == '-') {
        return Err(IntError::InvalidDigit);
    }
    assert(s@.skip(0) == s@);
    assert(s@.skip(1) == s@.drop_first());
    let top: u64 = 0x7fff_ffff_ffff_ffff;
    if first == '-' {
        match read_digits(&chars, 1, top + 1, IntError::TooSmall) {
            Ok(n) => if n == top + 1 {
                Ok(i64::MIN)
            } else {
                Ok(-(n as i64))
            },
            Err(error) => Err(error),
        }
    } else {
        let from: usize = if first == '+' {
            1
        } else {
            0
        };
        match read_digits(&chars, from, top, IntError::TooLarge) {
            Ok(n) => Ok(n as i64),
            Err(error) => Err(error),
        }
    }
}

proof fn lemma_one_more_digit(s: Seq<char>, d: int, acc: int, max: int, over: IntError)
    requires
        0 <= d <= 9,
        digits_value(s, acc, max, over) is Ok,
        digits_value(s, acc, max, over)->Ok_0 * 10 + d <= max,
    ensures
        digits_value(s.push(digit_char(d)), acc, max, over) == Ok::<int, IntError>(
            digits_value(s, acc, max, over)->Ok_0 * 10 + d,
        ),
    decreases s.len(),
{
    let all = s.push(digit_char(d));
    if s.len() == 0 {
        assert(all.drop_first() =~= seq![]);
        assert(all[0] == digit_char(d));
        reveal_with_fuel(digits_value, 2);
    } else {
        assert(all[0] == s[0]);
        assert(all.drop_first() =~= s.drop_first().push(digit_char(d)));
        lemma_one_more_digit(s.drop_first(), d, acc * 10 + (s[0] as int - 48), max, over);
    }
}

proof fn lemma_digits_read_back(n: nat, max: int, over: IntError)
    requires
        n <= max,
    ensures
        digits_value(digits(n), 0, max, over) == Ok::<int, IntError>(n as int),
        digits(n).len() > 0,
        is_digit(digits(n)[0]),
    decreases n,
{
    if n < 10 {
        assert(digits(n).drop_first() =~= seq![]);
        reveal_with_fuel(digits_value, 2);
    } else {
        lemma_digits_read_back(n / 10, max, over);
        lemma_one_more_digit(digits(n / 10), (n % 10) as int, 0, max, over);
    }
}

/// The digits of a number are digits, at least one.
pub proof fn lemma_digits_are_digits(n: nat)
    ensures
        digits(n).len() > 0,
        is_digit(digits(n)[0]),
        is_digit(digits(n).last()),
    decreases n,
{
    if n >= 10 {
        lemma_digits_are_digits(n / 10);
    }
}

/// A number reads back from its decimal text.
pub proof fn law_decimals_read_back(n: i64)
    ensures
        parsed_signed(decimal(n as int)) == Ok::<int, IntError>(n as int),
        n >= 0 ==> parsed_unsigned(decimal(n as int), u64::MAX as int) == Ok::<int, IntError>(
            n as int,
        ),
{
    if n < 0 {
        lemma_digits_read_back((-n) as nat, i64::MAX as int + 1, IntError::TooSmall);
        assert(decimal(n as int).drop_first() =~= digits((-n) as nat));
    } else {
        lemma_digits_read_back(n as nat, i64::MAX as int, IntError::TooLarge);
        lemma_digits_read_back(n as nat, u64::MAX as int, IntError::TooLarge);
    }
}

} // verus!
