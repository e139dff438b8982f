use vstd::prelude::*;

verus! {

/// The sign bit of an IEEE 754 double.
pub const SIGN_BIT: u64 = 0x8000_0000_0000_0000;

/// The exponent bits of an IEEE 754 double.
pub const EXPONENT_BITS: u64 = 0x7ff0_0000_0000_0000;

/// The fraction bits of an IEEE 754 double.
pub const FRACTION_BITS: u64 = 0x000f_ffff_ffff_ffff;

/// The one bit pattern that stands for every NaN.
pub const CANONICAL_NAN: u64 = 0x7ff8_0000_0000_0000;

/// Whether the double with bit pattern `b` is a NaN.
pub open spec fn is_nan_bits(b: u64) -> bool {
    b & 0x7ff0_0000_0000_0000u64 == 0x7ff0_0000_0000_0000u64 && b & 0x000f_ffff_ffff_ffffu64 != 0
}

/// The bit pattern that stands for `b` among equal scores: every NaN is one
/// score, and negative zero is zero.
pub open spec fn canonical_bits(b: u64) -> u64 {
    if is_nan_bits(b) {
        0x7ff8_0000_0000_0000u64
    } else if b == 0x8000_0000_0000_0000u64 {
        0
    } else {
        b
    }
}

/// The position of the double with bit pattern `b` in the total order of
/// scores, as an unsigned integer: negative values below positive ones, NaN
/// above every number.
pub open spec fn order_key(b: u64) -> u64 {
    if b & 0x8000_0000_0000_0000u64 != 0 {
        !b
    } else {
        b | 0x8000_0000_0000_0000u64
    }
}

/// A sorted-set score: a double held by its position in the total order in
/// which NaN equals NaN and is above every number, and `-0.0` equals `0.0`.
/// Scores compare as their keys do.
#[derive(Clone, Copy, Debug, PartialEq, Eq, Structural)]
pub struct Score {
    pub key: u64,
}

impl Score {
    /// The score of the double whose bit pattern is `bits`.
    pub fn from_bits(bits: u64) -> (r: Score)
        ensures
            r.key == order_key(canonical_bits(bits)),
    {
        let c: u64 = if bits & EXPONENT_BITS == EXPONENT_BITS && bits & FRACTION_BITS != 0 {
            CANONICAL_NAN
        } else if bits == SIGN_BIT {
            0
        } else {
            bits
        };
        let key: u64 = if c & SIGN_BIT != 0 {
            !c
        } else {
            c | SIGN_BIT
        };
        Score { key }
    }

    /// The bit pattern of a double with this score.
    pub fn to_bits(&self) -> (r: u64)
        ensures
            order_key(r) == self.key,
    {
        let k = self.key;
        let r: u64 = if k & SIGN_BIT != 0 {
            k & !SIGN_BIT
        } else {
            !k
        };
        proof {
            assert(k & 0x8000_0000_0000_0000u64 != 0 ==> (k & !0x8000_0000_0000_0000u64) & 0x8000_0000_0000_0000u64 == 0
                && ((k & !0x8000_0000_0000_0000u64) | 0x8000_0000_0000_0000u64) == k) by (bit_vector);
            assert(k & 0x8000_0000_0000_0000u64 == 0 ==> (!k) & 0x8000_0000_0000_0000u64 != 0
                && !(!k) == k) by (bit_vector);
        }
        r
    }
}

} // verus!
