//! Amounts of money. An amount is an IEEE 754 double-precision number, held
//! here by its 64-bit pattern: sign, eleven bits of exponent, fifty-two of
//! fraction. The library compares amounts and tells their sign; arithmetic on
//! them and their written form are left to the caller.
use vstd::prelude::*;

verus! {

/// The bit of the sign.
pub const SIGN_BIT: u64 = 0x8000_0000_0000_0000;

/// The pattern of positive infinity: every pattern above it, sign aside, is
/// not a number.
pub const INFINITY_BITS: u64 = 0x7ff0_0000_0000_0000;

/// The pattern without its sign.
pub open spec fn magnitude(bits: u64) -> u64 {
    if bits >= SIGN_BIT {
        (bits - SIGN_BIT) as u64
    } else {
        bits
    }
}

/// Whether the pattern stands for no number at all.
pub open spec fn not_a_number(bits: u64) -> bool {
    magnitude(bits) > INFINITY_BITS
}

/// Whether the pattern stands for a number greater than zero, infinity
/// included.
pub open spec fn positive(bits: u64) -> bool {
    0 < bits <= INFINITY_BITS
}

/// Whether two patterns stand for equal numbers: both are numbers, and either
/// the patterns agree or both stand for zero, whatever its sign.
pub open spec fn same_number(a: u64, b: u64) -> bool {
    &&& !not_a_number(a)
    &&& !not_a_number(b)
    &&& (a == b || (magnitude(a) == 0 && magnitude(b) == 0))
}

/// An amount of money.
#[derive(Clone, Copy, Debug)]
pub struct Amount {
    bits: u64,
}

impl View for Amount {
    type V = u64;

    closed spec fn view(&self) -> u64 {
        self.bits
    }
}

impl Amount {
    /// The amount with the given bit pattern.
    pub fn from_bits(bits: u64) -> (a: Amount)
        ensures
            a@ == bits,
    {
        Amount { bits }
    }

    /// The bit pattern of the amount.
    pub fn to_bits(&self) -> (bits: u64)
        ensures
            bits == self@,
    {
        self.bits
    }

    /// Whether the amount is greater than zero.
    pub fn is_positive(&self) -> (b: bool)
        ensures
            b == positive(self@),
    {
        0 < self.bits && self.bits <= INFINITY_BITS
    }

    /// Whether the amount is no number.
    pub fn is_nan(&self) -> (b: bool)
        ensures
            b == not_a_number(self@),
    {
        Self::strip_sign(self.bits) > INFINITY_BITS
    }

    /// Whether the two amounts are equal as numbers.
    pub fn equals(&self, other: &Amount) -> (b: bool)
        ensures
            b == same_number(self@, other@),
    {
        let m: u64 = Self::strip_sign(self.bits);
        let n: u64 = Self::strip_sign(other.bits);
        m <= INFINITY_BITS && n <= INFINITY_BITS && (self.bits == other.bits || (m == 0 && n == 0))
    }

    fn strip_sign(bits: u64) -> (m: u64)
        ensures
            m == magnitude(bits),
    {
        if bits >= SIGN_BIT {
            bits - SIGN_BIT
        } else {
            bits
        }
    }
}

/// What was read of a written amount: the number, or the words in which the
/// reader refused the text.
pub type Reading = Result<Amount, String>;

/// A reading as the contracts speak of it.
pub open spec fn reading_view(reading: Reading) -> Result<u64, Seq<char>> {
    match reading {
        Ok(a) => Ok(a@),
        Err(why) => Err(why@),
    }
}

/// The words for an amount that is not greater than zero.
pub const NOT_POSITIVE: &'static str = "amount should be greater than 0.0";

/// The words for an amount that is no number.
pub const NOT_A_NUMBER: &'static str = "Invalid value for amount!";

/// The amount of a new expense, from what was read of the text that the
/// user gave: a number greater than zero, and nothing else.
pub fn validate_amount(reading: &Reading) -> (r: Result<Amount, &'static str>)
    ensures
        match *reading {
            Ok(amount) => if positive(amount@) {
                r matches Ok(a) && a@ == amount@
            } else {
                r matches Err(why) && why@ == NOT_POSITIVE@
            },
            Err(_) => r matches Err(why) && why@ == NOT_A_NUMBER@,
        },
{
    match reading {
        Ok(amount) => if amount.is_positive() {
            Ok(*amount)
        } else {
            Err(NOT_POSITIVE)
        },
        Err(_) => Err(NOT_A_NUMBER),
    }
}

} // verus!
