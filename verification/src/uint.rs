//! Unsigned 256-bit numbers, as a chain scheme writes them.

use vstd::prelude::*;
use vstd::string::StringSliceAdditionalSpecFns;

verus! {

/// An unsigned 256-bit number, held as its upper and lower 128 bits.
#[derive(Clone, Copy, Debug, PartialEq, Eq, Structural)]
pub struct Uint {
    pub hi: u128,
    pub lo: u128,
}

/// Why a text is no 256-bit number.
#[derive(Clone, Copy, Debug, PartialEq, Eq, Structural)]
pub enum UintError {
    /// The text holds a character that is no digit of its base.
    InvalidDigit,
    /// The number does not fit in 256 bits.
    Overflow,
}

/// The first number that does not fit in 256 bits.
pub open spec fn limit() -> int {
    0x1_0000_0000_0000_0000_0000_0000_0000_0000_0000_0000_0000_0000_0000_0000_0000_0000int
}

impl View for Uint {
    type V = int;

    open spec fn view(&self) -> int {
        self.hi as int * 0x1_0000_0000_0000_0000_0000_0000_0000_0000int + self.lo as int
    }
}

/// What a decimal digit stands for, by its character code.
pub open spec fn decimal_digit(c: u8) -> Option<int> {
    if 0x30 <= c <= 0x39 {
        Some(c - 0x30)
    } else {
        None
    }
}

/// What a hexadecimal digit stands for, by its character code. Letters count
/// in either case.
pub open spec fn hex_digit(c: u8) -> Option<int> {
    if 0x30 <= c <= 0x39 {
        Some(c - 0x30)
    } else if 0x61 <= c <= 0x66 {
        Some(c - 0x61 + 10)
    } else if 0x41 <= c <= 0x46 {
        Some(c - 0x41 + 10)
    } else {
        None
    }
}

/// What a digit stands for in base 16 (`hex`) or base 10.
pub open spec fn digit(c: u8, hex: bool) -> Option<int> {
    if hex {
        hex_digit(c)
    } else {
        decimal_digit(c)
    }
}

/// A number with one more digit written behind it.
pub open spec fn with_digit(value: int, d: int, hex: bool) -> int {
    if hex {
        value * 16 + d
    } else {
        value * 10 + d
    }
}

/// The number that a string of digits stands for, the most significant digit
/// first; no digits stand for zero. `None` where a character is no digit.
pub open spec fn digits_value(digits: Seq<u8>, hex: bool) -> Option<int>
    decreases digits.len(),
{
    if digits.len() == 0 {
        Some(0)
    } else {
        match (digits_value(digits.drop_last(), hex), digit(digits.last(), hex)) {
            (Some(value), Some(d)) => Some(with_digit(value, d, hex)),
            _ => None,
        }
    }
}

/// Whether a text starts with `0x`.
pub open spec fn has_hex_prefix(text: Seq<u8>) -> bool {
    text.len() >= 2 && text[0] == 0x30 && text[1] == 0x78
}

/// The number that a text stands for: hexadecimal digits behind `0x`, or
/// else decimal digits. The empty text and a bare `0x` stand for zero.
pub open spec fn text_value(text: Seq<u8>) -> Option<int> {
    if has_hex_prefix(text) {
        digits_value(text.subrange(2, text.len() as int), true)
    } else {
        digits_value(text, false)
    }
}

/// A string of digits with one more digit is worth the string with that digit
/// written behind it.
proof fn lemma_digits_step(digits: Seq<u8>, from: int, to: int, hex: bool)
    requires
        0 <= from <= to < digits.len(),
    ensures
        digits_value(digits.subrange(from, to + 1), hex) == match (
            digits_value(digits.subrange(from, to), hex),
            digit(digits[to], hex),
        ) {
            (Some(value), Some(d)) => Some(with_digit(value, d, hex)),
            _ => None,
        },
{
    assert(digits.subrange(from, to + 1).drop_last() =~= digits.subrange(from, to));
}

/// A string of digits stands for a number that is not negative.
proof fn lemma_digits_not_negative(digits: Seq<u8>, hex: bool)
    ensures
        digits_value(digits, hex) matches Some(value) ==> value >= 0,
    decreases digits.len(),
{
    if digits.len() > 0 {
        lemma_digits_not_negative(digits.drop_last(), hex);
    }
}

/// What is known of a string of digits from its first part: a character that
/// is no digit spoils the whole, and the value never falls below that of the
/// first part.
proof fn lemma_digits_prefix(digits: Seq<u8>, from: int, to: int, hex: bool)
    requires
        0 <= from <= to <= digits.len(),
    ensures
        digits_value(digits.subrange(from, to), hex) is None ==> digits_value(
            digits.subrange(from, digits.len() as int),
            hex,
        ) is None,
        (digits_value(digits.subrange(from, to), hex), digits_value(
            digits.subrange(from, digits.len() as int),
            hex,
        )) matches (Some(part), Some(whole)) ==> part <= whole,
    decreases digits.len() - to,
{
    if to < digits.len() {
        lemma_digits_step(digits, from, to, hex);
        lemma_digits_not_negative(digits.subrange(from, to), hex);
        lemma_digits_prefix(digits, from, to + 1, hex);
    }
}

impl From<u64> for Uint {
    fn from(value: u64) -> (r: Uint) {
        Uint { hi: 0, lo: value as u128 }
    }
}

impl vstd::std_specs::convert::FromSpecImpl<u64> for Uint {
    open spec fn obeys_from_spec() -> bool {
        true
    }

    open spec fn from_spec(value: u64) -> Uint {
        Uint { hi: 0, lo: value as u128 }
    }
}

/// What the character `c` stands for as a digit.
fn digit_of(c: u8, hex: bool) -> (r: Option<u8>)
    ensures
        match r {
            Some(d) => digit(c, hex) == Some(d as int) && d < 16,
            None => digit(c, hex) is None,
        },
{
    if 0x30 <= c && c <= 0x39 {
        Some(c - 0x30)
    } else if hex && 0x61 <= c && c <= 0x66 {
        Some(c - 0x61 + 10)
    } else if hex && 0x41 <= c && c <= 0x46 {
        Some(c - 0x41 + 10)
    } else {
        None
    }
}

/// A 64-bit part of a number with a digit behind it and a carry added: the
/// 64 bits that stay, and the carry into the next part.
fn scale(part: u128, carry: u128, hex: bool) -> (r: (u128, u128))
    requires
        part < 0x1_0000_0000_0000_0000,
        carry < 16,
    ensures
        r.0 < 0x1_0000_0000_0000_0000,
        r.1 < 16,
        r.1 * 0x1_0000_0000_0000_0000 + r.0 == with_digit(part as int, carry as int, hex),
{
    let scaled: u128 = if hex {
        part * 16 + carry
    } else {
        part * 10 + carry
    };
    (scaled % 0x1_0000_0000_0000_0000, scaled / 0x1_0000_0000_0000_0000)
}

impl Uint {
    /// The number zero.
    pub fn zero() -> (r: Uint)
        ensures
            r@ == 0,
    {
        Uint { hi: 0, lo: 0 }
    }

    /// This number with the digit `d` written behind it, if that fits in 256 bits.
    fn push_digit(&self, d: u8, hex: bool) -> (r: Option<Uint>)
        requires
            d < 16,
        ensures
            match r {
                Some(next) => next@ == with_digit(self@, d as int, hex),
                None => with_digit(self@, d as int, hex) >= limit(),
            },
    {
        let (p0, c0) = scale(self.lo % 0x1_0000_0000_0000_0000, d as u128, hex);
        let (p1, c1) = scale(self.lo / 0x1_0000_0000_0000_0000, c0, hex);
        let (p2, c2) = scale(self.hi % 0x1_0000_0000_0000_0000, c1, hex);
        let (p3, c3) = scale(self.hi / 0x1_0000_0000_0000_0000, c2, hex);
        if c3 != 0 {
            None
        } else {
            Some(
                Uint {
                    hi: p3 * 0x1_0000_0000_0000_0000 + p2,
                    lo: p1 * 0x1_0000_0000_0000_0000 + p0,
                },
            )
        }
    }

    /// The number that `text` stands for: hexadecimal digits behind `0x`, in
    /// either case, or else decimal digits. The empty text and a bare `0x`
    /// stand for zero. Any other character makes the text invalid, and a
    /// number of 257 bits or more is refused.
    pub fn from_text(text: &str) -> (r: Result<Uint, UintError>)
        ensures
            match r {
                Ok(number) => text_value(text.spec_bytes()) == Some(number@),
                Err(UintError::InvalidDigit) => text_value(text.spec_bytes()) is None,
                Err(UintError::Overflow) => text_value(text.spec_bytes()) matches Some(value)
                    && value >= limit(),
            },
    {
        let bytes = text.as_bytes();
        let n = bytes.len();
        let hex = n >= 2 && bytes[0] == 0x30 && bytes[1] == 0x78;
        let start: usize = if hex {
            2
        } else {
            0
        };
        let ghost digits = bytes@.subrange(start as int, n as int);
        assert(text_value(text.spec_bytes()) == digits_value(digits, hex)) by {
            if !hex {
                assert(digits =~= bytes@);
            }
        }
        let mut i: usize = start;
        while i < n
            invariant
                start <= i <= n,
                n == bytes@.len(),
                digits == bytes@.subrange(start as int, n as int),
                text_value(text.spec_bytes()) == digits_value(digits, hex),
                digits_value(bytes@.subrange(start as int, i as int), hex) is Some,
            decreases n - i,
        {
            proof {
                lemma_digits_step(bytes@, start as int, i as int, hex);
            }
            if digit_of(bytes[i], hex).is_none() {
                proof {
                    lemma_digits_prefix(bytes@, start as int, i + 1, hex);
                }
                return Err(UintError::InvalidDigit);
            }
            i = i + 1;
        }
        let mut number = Uint { hi: 0, lo: 0 };
        let mut i: usize = start;
        assert(bytes@.subrange(start as int, start as int) =~= Seq::empty());
        while i < n
            invariant
                start <= i <= n,
                n == bytes@.len(),
                digits == bytes@.subrange(start as int, n as int),
                text_value(text.spec_bytes()) == digits_value(digits, hex),
                digits_value(digits, hex) is Some,
                digits_value(bytes@.subrange(start as int, i as int), hex) == Some(number@),
            decreases n - i,
        {
            proof {
                lemma_digits_step(bytes@, start as int, i as int, hex);
                lemma_digits_prefix(bytes@, start as int, i + 1, hex);
            }
            let d = match digit_of(bytes[i], hex) {
                Some(d) => d,
                None => {
                    return Err(UintError::InvalidDigit);
                },
            };
            match number.push_digit(d, hex) {
                Some(next) => {
                    number = next;
                },
                None => {
                    return Err(UintError::Overflow);
                },
            }
            i = i + 1;
        }
        Ok(number)
    }
}

} // verus!
