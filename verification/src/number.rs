//! Small unsigned numbers as text: reading a byte in base ten or sixteen,
//! and writing a count in base ten.

use crate::text::push_chars;
use vstd::prelude::*;

verus! {

/// The bases in which numbers are read.
#[derive(Clone, Copy, Debug, PartialEq, Eq, Structural)]
pub enum Radix {
    Decimal,
    Hexadecimal,
}

impl Radix {
    /// The number of digits of the base.
    pub open spec fn base(self) -> int {
        match self {
            Radix::Decimal => 10,
            Radix::Hexadecimal => 16,
        }
    }

    /// The number of digits of the base.
    pub fn base_of(self) -> (b: u32)
        ensures
            b == self.base(),
    {
        match self {
            Radix::Decimal => 10,
            Radix::Hexadecimal => 16,
        }
    }
}

/// The value of `c` read as a digit: `0` to `9`, then the letters of either
/// case from ten on. Zero for any other character.
pub open spec fn digit_value(c: char) -> int {
    let n = c as u32 as int;
    if 0x30 <= n <= 0x39 {
        n - 0x30
    } else if 0x61 <= n <= 0x7a {
        n - 0x61 + 10
    } else if 0x41 <= n <= 0x5a {
        n - 0x41 + 10
    } else {
        0
    }
}

/// Whether `c` is a digit of the base `radix`.
pub open spec fn is_digit(c: char, radix: Radix) -> bool {
    let n = c as u32 as int;
    &&& 0x30 <= n <= 0x39 || 0x61 <= n <= 0x7a || 0x41 <= n <= 0x5a
    &&& digit_value(c) < radix.base()
}

/// Whether `s` holds digits of the base `radix` only.
pub open spec fn all_digits(s: Seq<char>, radix: Radix) -> bool {
    forall|i: int| 0 <= i < s.len() ==> is_digit(#[trigger] s[i], radix)
}

/// The number that the digits of `s` write in the base `radix`, the most
/// significant digit first.
pub open spec fn number(s: Seq<char>, radix: Radix) -> int
    decreases s.len(),
{
    if s.len() == 0 {
        0
    } else {
        number(s.drop_last(), radix) * radix.base() + digit_value(s.last())
    }
}

/// The digits of `text`: `text` without a leading plus sign.
pub open spec fn unsigned_part(text: Seq<char>) -> Seq<char> {
    if text.len() > 0 && text[0] == '+' {
        text.skip(1)
    } else {
        text
    }
}

/// The byte that `text` writes in the base `radix`: an optional plus sign and
/// then one digit or more, whose number is at most 255. `None` for any other
/// text.
pub open spec fn byte_of(text: Seq<char>, radix: Radix) -> Option<u8> {
    let digits = unsigned_part(text);
    if digits.len() > 0 && all_digits(digits, radix) && number(digits, radix) <= 255 {
        Some(number(digits, radix) as u8)
    } else {
        None
    }
}

/// A number does not shrink when digits are written after it.
pub proof fn lemma_number_grows(s: Seq<char>, radix: Radix, k: int)
    requires
        0 <= k <= s.len(),
    ensures
        0 <= number(s.take(k), radix) <= number(s, radix),
    decreases s.len() - k,
{
    lemma_number_nonnegative(s.take(k), radix);
    if k < s.len() {
        lemma_number_grows(s, radix, k + 1);
        assert(s.take(k + 1).drop_last() == s.take(k));
    } else {
        assert(s.take(k) == s);
    }
}

/// The number that digits write is not negative.
pub proof fn lemma_number_nonnegative(s: Seq<char>, radix: Radix)
    ensures
        0 <= number(s, radix),
    decreases s.len(),
{
    if s.len() > 0 {
        lemma_number_nonnegative(s.drop_last(), radix);
    }
}

/// The value of `c` as a digit of the base `radix`, if it is one.
pub fn digit_of(c: char, radix: Radix) -> (d: Option<u32>)
    ensures
        d is Some <==> is_digit(c, radix),
        d matches Some(v) ==> v == digit_value(c),
{
    let n: u32 = c as u32;
    let v: u32 = if 0x30 <= n && n <= 0x39 {
        n - 0x30
    } else if 0x61 <= n && n <= 0x7a {
        n - 0x61 + 10
    } else if 0x41 <= n && n <= 0x5a {
        n - 0x41 + 10
    } else {
        return None;
    };
    if v < radix.base_of() {
        Some(v)
    } else {
        None
    }
}

/// Reads `text` as a byte written in the base `radix`.
pub fn parse_byte(text: &[char], radix: Radix) -> (out: Option<u8>)
    ensures
        out == byte_of(text@, radix),
{
    let start: usize = if text.len() > 0 && text[0] == '+' {
        1
    } else {
        0
    };
    let ghost digits = unsigned_part(text@);
    assert(digits == text@.skip(start as int));
    if start >= text.len() {
        return None;
    }
    let base: u32 = radix.base_of();
    let mut acc: u32 = 0;
    let mut i: usize = start;
    assert(digits.take(0) == Seq::<char>::empty());
    while i < text.len()
        invariant
            start <= i <= text.len(),
            digits == text@.skip(start as int),
            digits == unsigned_part(text@),
            base == radix.base(),
            acc <= 255,
            acc == number(digits.take(i - start), radix),
            all_digits(digits.take(i - start), radix),
        decreases text.len() - i,
    {
        let ghost k = i - start;
        assert(digits[k] == text@[i as int]);
        assert(digits.take(k + 1).drop_last() == digits.take(k));
        assert(digits.take(k + 1).last() == digits[k]);
        match digit_of(text[i], radix) {
            None => {
                assert(!all_digits(digits, radix));
                return None;
            },
            Some(d) => {
                acc = acc * base + d;
                if acc > 255 {
                    proof {
                        lemma_number_grows(digits, radix, k + 1);
                    }
                    return None;
                }
                assert forall|j: int| 0 <= j < k + 1 implies is_digit(
                    #[trigger] digits.take(k + 1)[j],
                    radix,
                ) by {
                    if j < k {
                        assert(digits.take(k + 1)[j] == digits.take(k)[j]);
                    }
                }
            },
        }
        i += 1;
    }
    assert(digits.take(i - start) == digits);
    Some(acc as u8)
}

/// The character that writes the digit `d` of base ten.
pub open spec fn digit_char(d: int) -> char {
    if d == 0 {
        '0'
    } else if d == 1 {
        '1'
    } else if d == 2 {
        '2'
    } else if d == 3 {
        '3'
    } else if d == 4 {
        '4'
    } else if d == 5 {
        '5'
    } else if d == 6 {
        '6'
    } else if d == 7 {
        '7'
    } else if d == 8 {
        '8'
    } else {
        '9'
    }
}

/// `n` written in base ten, without a sign and without leading zeros.
pub open spec fn decimal(n: nat) -> Seq<char>
    decreases n,
{
    if n < 10 {
        seq![digit_char(n as int)]
    } else {
        decimal(n / 10).push(digit_char((n % 10) as int))
    }
}

/// The digits of base ten, in order.
pub const DIGITS: [char; 10] = ['0', '1', '2', '3', '4', '5', '6', '7', '8', '9'];

/// Appends `n`, written in base ten, to `out`.
pub fn push_decimal(out: &mut String, n: usize)
    ensures
        final(out)@ == old(out)@ + decimal(n as nat),
    decreases n,
{
    if n >= 10 {
        push_decimal(out, n / 10);
    }
    let d: usize = n % 10;
    let digit: [char; 1] = [DIGITS[d]];
    assert(digit@ == seq![digit_char(d as int)]);
    push_chars(out, digit.as_slice());
}

} // verus!
