//! Double-precision numbers, held as the bits of their binary representation.

use vstd::prelude::*;
use vstd::string::*;

verus! {

/// A double-precision number: its IEEE 754 bits, and the number as JSON.
#[derive(Debug)]
pub struct Double {
    pub bits: u64,
    pub json: String,
}

/// The finite number that a text spells, where it spells one: its bits, and the number as
/// JSON.
pub uninterp spec fn finite_number(s: Seq<char>) -> Option<(u64, Seq<char>)>;

/// Whether the bits are those of a finite number: its exponent is not the largest.
pub open spec fn is_finite(bits: u64) -> bool {
    let magnitude = if bits >= 0x8000_0000_0000_0000 {
        bits - 0x8000_0000_0000_0000
    } else {
        bits as int
    };
    magnitude < 0x7FF0_0000_0000_0000
}

pub fn bits_are_finite(bits: u64) -> (r: bool)
    ensures
        r == is_finite(bits),
{
    let magnitude: u64 = if bits >= 0x8000_0000_0000_0000 {
        bits - 0x8000_0000_0000_0000
    } else {
        bits
    };
    magnitude < 0x7FF0_0000_0000_0000
}

/// Whether the bits are those of zero, of either sign.
pub open spec fn is_zero(bits: u64) -> bool {
    bits == 0 || bits == 0x8000_0000_0000_0000
}

/// `str::parse` to a double, then `serde_json::Number::from_f64`, which takes finite numbers
/// only, `Number::as_f64` and the number's JSON text. The result depends on the text alone;
/// which number a given text spells is left to the two.
#[verifier::external_body]
pub(crate) fn read_finite(s: &str) -> (r: Option<Double>)
    ensures
        match r {
            Some(number) => finite_number(s@) == Some((number.bits, number.json@)) && is_finite(
                number.bits,
            ),
            None => finite_number(s@) is None,
        },
{
    let number = s.parse().ok().and_then(serde_json::Number::from_f64)?;
    Some(Double { bits: number.as_f64()?.to_bits(), json: number.to_string() })
}

/// Where a number stands in the total order of numbers: its bits as a sign and a magnitude,
/// with negative zero below zero.
pub open spec fn order_key(bits: u64) -> int {
    if bits < 0x8000_0000_0000_0000 {
        bits as int
    } else {
        -(bits - 0x8000_0000_0000_0000) - 1
    }
}

/// Whether the number `a` is above the number `b`.
pub fn is_above(a: u64, b: u64) -> (r: bool)
    ensures
        r == (order_key(a) > order_key(b)),
{
    let a_positive = a < 0x8000_0000_0000_0000;
    let b_positive = b < 0x8000_0000_0000_0000;
    if a_positive && b_positive {
        a > b
    } else if a_positive {
        true
    } else if b_positive {
        false
    } else {
        a < b
    }
}

} // verus!
