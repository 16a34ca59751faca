//! Lox numbers: IEEE-754 binary64 values, held as their 64-bit patterns.
//!
//! Sign handling, classification and comparison are decided on the bit
//! pattern directly. Rounding arithmetic and decimal conversion are left to
//! `rustc_apfloat`, which computes them in integer arithmetic.
use rustc_apfloat::ieee::Double;
use rustc_apfloat::Float;
use vstd::prelude::*;
use vstd::string::*;
use vstd::utf8::is_ascii_chars;
use crate::text::text_len;

verus! {

/// The bit that holds the sign of a number.
pub const SIGN_BIT: u64 = 0x8000_0000_0000_0000;

/// The pattern of positive infinity; every larger magnitude is a NaN.
pub const INFINITY_BITS: u64 = 0x7ff0_0000_0000_0000;

/// A double-precision number, identified by its bit pattern.
#[derive(Clone, Copy, Debug, PartialEq, Eq, Structural)]
pub struct Number {
    pub bits: u64,
}

/// The pattern of the correctly rounded sum of the numbers with patterns `a` and `b`.
pub uninterp spec fn double_sum(a: u64, b: u64) -> u64;

/// The pattern of the correctly rounded difference `a - b`.
pub uninterp spec fn double_difference(a: u64, b: u64) -> u64;

/// The pattern of the correctly rounded product of `a` and `b`.
pub uninterp spec fn double_product(a: u64, b: u64) -> u64;

/// The pattern of the correctly rounded quotient `a / b`.
pub uninterp spec fn double_quotient(a: u64, b: u64) -> u64;

/// The pattern of the number nearest to what a decimal numeral denotes.
pub uninterp spec fn double_from_text(text: Seq<char>) -> u64;

/// The most characters of a decimal numeral that is converted: 2^27. The
/// converter counts the binary digits of a numeral, and of the power of ten
/// that scales it, in signed 32-bit integers; a numeral of this length has
/// fewer than 2^29 of them, so that no count, sum or difference of counts
/// leaves that range.
pub const MAX_DECIMAL_LENGTH: usize = 0x0800_0000;

/// Whether a character is a decimal digit.
pub open spec fn is_digit(c: char) -> bool {
    '0' <= c && c <= '9'
}

/// The end of the run of digits that starts at `from`.
pub open spec fn digits_end(line: Seq<char>, from: int) -> int
    decreases line.len() - from,
{
    if 0 <= from < line.len() && is_digit(line[from]) {
        digits_end(line, from + 1)
    } else {
        from
    }
}

/// Whether every digit of a text is a zero.
pub open spec fn is_zero_numeral(text: Seq<char>) -> bool {
    forall|i: int| 0 <= i < text.len() ==> #[trigger] text[i] == '0' || text[i] == '.'
}

/// The pattern of the number nearest to what a decimal numeral denotes: a
/// numeral of zeros denotes positive zero, whose pattern is 0.
pub open spec fn decimal_bits(text: Seq<char>) -> u64 {
    if is_zero_numeral(text) {
        0
    } else {
        double_from_text(text)
    }
}

/// Whether a text is a decimal numeral: one or more digits, which a dot and
/// one or more digits may follow, and nothing else; in all no more than
/// `MAX_DECIMAL_LENGTH` characters.
pub open spec fn is_decimal(text: Seq<char>) -> bool {
    let whole = digits_end(text, 0);
    is_ascii_chars(text) && 0 < whole && text.len() <= MAX_DECIMAL_LENGTH && (whole == text.len()
        || (whole + 1 < text.len() && text[whole] == '.' && digits_end(text, whole + 1)
        == text.len()))
}

/// A run of digits ends within the line.
pub proof fn lemma_digits_end(line: Seq<char>, from: int)
    requires
        0 <= from <= line.len(),
    ensures
        from <= digits_end(line, from) <= line.len(),
    decreases line.len() - from,
{
    if from < line.len() && is_digit(line[from]) {
        lemma_digits_end(line, from + 1);
    }
}

/// A run of digits inside a piece of a line ends where it ends in the line,
/// or with the piece.
pub proof fn lemma_digits_end_of_piece(line: Seq<char>, from: int, to: int, at: int)
    requires
        0 <= from <= at <= to <= line.len(),
    ensures
        digits_end(line.subrange(from, to), at - from) + from == if digits_end(line, at) <= to {
            digits_end(line, at)
        } else {
            to
        },
    decreases to - at,
{
    lemma_digits_end(line, at);
    if at < to && is_digit(line[at]) {
        lemma_digits_end_of_piece(line, from, to, at + 1);
    }
}

/// Whether a byte is the code of a decimal digit.
pub open spec fn is_digit_code(b: u8) -> bool {
    48 <= b <= 57
}

pub(crate) fn digit_byte(b: u8) -> (r: bool)
    ensures
        r == is_digit_code(b),
{
    48 <= b && b <= 57
}

/// The end of the run of digits of an ASCII text that starts at `from`.
pub(crate) fn skip_digits(line: &str, from: usize) -> (end: usize)
    requires
        line.is_ascii(),
        from <= line@.len(),
    ensures
        end == digits_end(line@, from as int),
        from <= end <= line@.len(),
{
    let n = text_len(line);
    let mut end = from;
    while end < n && digit_byte(line.get_ascii(end))
        invariant
            line.is_ascii(),
            n == line@.len(),
            from <= end <= n,
            digits_end(line@, from as int) == digits_end(line@, end as int),
        decreases n - end,
    {
        end += 1;
    }
    end
}

/// `rustc_apfloat`'s `Add` for `ieee::Double`: the sum under round-to-nearest,
/// ties to even. The result depends on the two patterns alone.
#[verifier::external_body]
pub(crate) fn double_add(a: u64, b: u64) -> (r: u64)
    ensures
        r == double_sum(a, b),
{
    (Double::from_bits(a as u128) + Double::from_bits(b as u128)).value.to_bits() as u64
}

/// `rustc_apfloat`'s `Sub` for `ieee::Double`: the difference under
/// round-to-nearest, ties to even. The result depends on the two patterns alone.
#[verifier::external_body]
pub(crate) fn double_sub(a: u64, b: u64) -> (r: u64)
    ensures
        r == double_difference(a, b),
{
    (Double::from_bits(a as u128) - Double::from_bits(b as u128)).value.to_bits() as u64
}

/// `rustc_apfloat`'s `Mul` for `ieee::Double`: the product under
/// round-to-nearest, ties to even. The result depends on the two patterns alone.
#[verifier::external_body]
pub(crate) fn double_mul(a: u64, b: u64) -> (r: u64)
    ensures
        r == double_product(a, b),
{
    (Double::from_bits(a as u128) * Double::from_bits(b as u128)).value.to_bits() as u64
}

/// `rustc_apfloat`'s `Div` for `ieee::Double`: the quotient under
/// round-to-nearest, ties to even. The result depends on the two patterns alone.
#[verifier::external_body]
pub(crate) fn double_div(a: u64, b: u64) -> (r: u64)
    ensures
        r == double_quotient(a, b),
{
    (Double::from_bits(a as u128) / Double::from_bits(b as u128)).value.to_bits() as u64
}

/// `rustc_apfloat`'s `FromStr` for `ieee::Double`, on decimal numerals only:
/// a text of digits with at most one dot is never refused, and the result is
/// the number nearest to it, which depends on the text alone. A numeral
/// without a digit other than zero gives positive zero. Signs, exponents,
/// hexadecimal and the names of special values are kept away from the
/// converter, and so is a numeral whose binary digits it could not count.
#[verifier::external_body]
pub(crate) fn double_parse(text: &str) -> (r: Option<u64>)
    requires
        is_decimal(text@),
    ensures
        r == Some(double_from_text(text@)),
        is_zero_numeral(text@) ==> r == Some(0u64),
{
    match text.parse::<Double>() {
        Ok(value) => Some(value.to_bits() as u64),
        Err(_) => None,
    }
}

impl Number {
    /// The pattern with the sign bit cleared, as an integer.
    pub open spec fn magnitude(self) -> int {
        if self.bits >= SIGN_BIT {
            self.bits - SIGN_BIT
        } else {
            self.bits as int
        }
    }

    /// Whether the sign bit is set.
    pub open spec fn is_negative(self) -> bool {
        self.bits >= SIGN_BIT
    }

    /// Whether the pattern is no number: a magnitude above infinity.
    pub open spec fn is_nan(self) -> bool {
        self.magnitude() > INFINITY_BITS
    }

    /// Positive and negative zero are both zero.
    pub open spec fn is_zero(self) -> bool {
        self.magnitude() == 0
    }

    /// An integer that orders the numbers that are not NaN as their values do:
    /// the magnitude, negated under a set sign bit.
    pub open spec fn rank(self) -> int {
        if self.is_negative() {
            -self.magnitude()
        } else {
            self.magnitude()
        }
    }

    /// Numeric equality: no NaN equals anything, the two zeros are equal.
    pub open spec fn same_value(self, other: Number) -> bool {
        !self.is_nan() && !other.is_nan() && self.rank() == other.rank()
    }

    /// Numeric order: false whenever a NaN takes part.
    pub open spec fn below(self, other: Number) -> bool {
        !self.is_nan() && !other.is_nan() && self.rank() < other.rank()
    }

    /// The number with the opposite sign.
    pub open spec fn opposite(self) -> Number {
        if self.bits >= SIGN_BIT {
            Number { bits: (self.bits - SIGN_BIT) as u64 }
        } else {
            Number { bits: (self.bits + SIGN_BIT) as u64 }
        }
    }

    /// The sum of two numbers.
    pub open spec fn sum(self, other: Number) -> Number {
        Number { bits: double_sum(self.bits, other.bits) }
    }

    /// The difference of two numbers.
    pub open spec fn difference(self, other: Number) -> Number {
        Number { bits: double_difference(self.bits, other.bits) }
    }

    /// The product of two numbers.
    pub open spec fn product(self, other: Number) -> Number {
        Number { bits: double_product(self.bits, other.bits) }
    }

    /// The quotient of two numbers.
    pub open spec fn quotient(self, other: Number) -> Number {
        Number { bits: double_quotient(self.bits, other.bits) }
    }

    /// The number with the given bit pattern.
    pub fn from_bits(bits: u64) -> (r: Number)
        ensures
            r.bits == bits,
    {
        Number { bits }
    }

    fn magnitude_bits(self) -> (r: u64)
        ensures
            r == self.magnitude(),
    {
        if self.bits >= SIGN_BIT {
            self.bits - SIGN_BIT
        } else {
            self.bits
        }
    }

    /// Whether the sign bit is set.
    pub fn has_sign(self) -> (r: bool)
        ensures
            r == self.is_negative(),
    {
        self.bits >= SIGN_BIT
    }

    /// Whether the number is a NaN.
    pub fn not_a_number(self) -> (r: bool)
        ensures
            r == self.is_nan(),
    {
        self.magnitude_bits() > INFINITY_BITS
    }

    /// Whether the number is positive or negative zero.
    pub fn zero(self) -> (r: bool)
        ensures
            r == self.is_zero(),
    {
        self.magnitude_bits() == 0
    }

    /// The number with the opposite sign.
    pub fn negate(self) -> (r: Number)
        ensures
            r == self.opposite(),
            r.magnitude() == self.magnitude(),
            r.is_negative() != self.is_negative(),
    {
        if self.bits >= SIGN_BIT {
            Number { bits: self.bits - SIGN_BIT }
        } else {
            Number { bits: self.bits + SIGN_BIT }
        }
    }

    /// Numeric equality: false with a NaN on either side, true of the two zeros.
    pub fn equals(self, other: Number) -> (r: bool)
        ensures
            r == self.same_value(other),
    {
        if self.not_a_number() || other.not_a_number() {
            false
        } else if self.zero() && other.zero() {
            true
        } else {
            self.bits == other.bits
        }
    }

    /// Numeric order: false with a NaN on either side.
    pub fn less_than(self, other: Number) -> (r: bool)
        ensures
            r == self.below(other),
    {
        if self.not_a_number() || other.not_a_number() {
            false
        } else if self.has_sign() {
            if other.has_sign() {
                self.magnitude_bits() > other.magnitude_bits()
            } else {
                !(self.zero() && other.zero())
            }
        } else {
            if other.has_sign() {
                false
            } else {
                self.bits < other.bits
            }
        }
    }

    /// Numeric order or equality: false with a NaN on either side.
    pub fn less_or_equal(self, other: Number) -> (r: bool)
        ensures
            r == (self.below(other) || self.same_value(other)),
    {
        self.less_than(other) || self.equals(other)
    }

    /// The sum, rounded to the nearest number.
    pub fn plus(self, other: Number) -> (r: Number)
        ensures
            r == self.sum(other),
    {
        Number { bits: double_add(self.bits, other.bits) }
    }

    /// The difference, rounded to the nearest number.
    pub fn minus(self, other: Number) -> (r: Number)
        ensures
            r == self.difference(other),
    {
        Number { bits: double_sub(self.bits, other.bits) }
    }

    /// The product, rounded to the nearest number.
    pub fn times(self, other: Number) -> (r: Number)
        ensures
            r == self.product(other),
    {
        Number { bits: double_mul(self.bits, other.bits) }
    }

    /// The quotient, rounded to the nearest number.
    pub fn divided_by(self, other: Number) -> (r: Number)
        ensures
            r == self.quotient(other),
    {
        Number { bits: double_div(self.bits, other.bits) }
    }

    /// The number nearest to what a decimal numeral denotes; nothing for
    /// any other text.
    pub fn from_decimal(text: &str) -> (r: Option<Number>)
        ensures
            r == Number::decimal_value(text@),
    {
        if !text.is_ascii() {
            return None;
        }
        let n = text_len(text);
        if n > MAX_DECIMAL_LENGTH {
            return None;
        }
        let whole = skip_digits(text, 0);
        if whole == 0 {
            return None;
        }
        if whole < n {
            if whole + 1 >= n || text.get_ascii(whole) != 46 {
                return None;
            }
            let end = skip_digits(text, whole + 1);
            if end != n {
                return None;
            }
        }
        match double_parse(text) {
            Some(bits) => Some(Number { bits }),
            None => None,
        }
    }

    /// The number nearest to what a decimal numeral denotes; nothing for
    /// any other text.
    pub open spec fn decimal_value(text: Seq<char>) -> Option<Number> {
        if is_decimal(text) {
            Some(Number { bits: decimal_bits(text) })
        } else {
            None
        }
    }
}

} // verus!
