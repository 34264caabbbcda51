//! The weight of an instance, kept as the bits of a single precision number.

use vstd::arithmetic::power2::{lemma2_to64, lemma_pow2_pos, lemma_pow2_unfold, pow2};
use vstd::prelude::*;

verus! {

/// The bits of `0.001` as a single precision number.
pub const MIN_WEIGHT_BITS: u32 = 0x3A83_126F;

/// The bits of positive infinity.
pub const INFINITY_BITS: u32 = 0x7F80_0000;

/// A weight, held as the IEEE 754 single precision bit pattern of its value.
#[derive(Clone, Copy, Debug, PartialEq, Eq, Structural)]
pub struct Weight {
    pub bits: u32,
}

/// The distance from zero of the number with these bits, in units of the
/// smallest positive single precision number. The sign bit is not looked at.
/// Infinity counts as one step above the largest finite number.
pub open spec fn magnitude(bits: int) -> int {
    let rest = bits % 0x8000_0000;
    let exponent = rest / 0x80_0000;
    let fraction = rest % 0x80_0000;
    if exponent == 0 {
        fraction
    } else {
        (0x80_0000 + fraction) * pow2((exponent - 1) as nat)
    }
}

impl Weight {
    /// Whether the bits stand for no number at all.
    pub open spec fn is_nan(self) -> bool {
        self.bits as int % 0x8000_0000 > INFINITY_BITS
    }

    /// The value of the weight, in units of the smallest positive single
    /// precision number.
    pub open spec fn value(self) -> int {
        if self.bits < 0x8000_0000 {
            magnitude(self.bits as int)
        } else {
            -magnitude(self.bits as int)
        }
    }

    /// Whether the weight is a number greater than the least one that counts.
    pub open spec fn counts(self) -> bool {
        !self.is_nan() && self.value() > (Weight { bits: MIN_WEIGHT_BITS }).value()
    }

    /// Tells whether the weight is a number above `0.001`.
    pub fn exceeds_minimum(self) -> (res: bool)
        ensures
            res == self.counts(),
    {
        proof {
            lemma_weight_order(self);
        }
        self.bits > MIN_WEIGHT_BITS && self.bits <= INFINITY_BITS
    }
}

/// A larger bit pattern without a sign stands for a larger number.
proof fn lemma_magnitude_grows(low: int, high: int)
    requires
        0 <= low < high < 0x8000_0000,
    ensures
        magnitude(low) < magnitude(high),
    decreases high - low,
{
    let before = high - 1;
    let exponent = before / 0x80_0000;
    let fraction = before % 0x80_0000;
    if low < before {
        lemma_magnitude_grows(low, before);
    }
    lemma2_to64();
    if exponent == 0 {
        if fraction == 0x80_0000 - 1 {
            assert(high == 0x80_0000);
            assert(magnitude(high) == 0x80_0000 * pow2(0));
        }
    } else {
        let scale = pow2((exponent - 1) as nat) as int;
        lemma_pow2_pos((exponent - 1) as nat);
        if fraction == 0x80_0000 - 1 {
            assert(high == (exponent + 1) * 0x80_0000);
            assert(high / 0x80_0000 == exponent + 1 && high % 0x80_0000 == 0);
            lemma_pow2_unfold(exponent as nat);
            assert(pow2(exponent as nat) == 2 * scale);
            assert((0x80_0000 + fraction) * scale < 0x80_0000 * (2 * scale)) by (nonlinear_arith)
                requires
                    fraction == 0x80_0000 - 1,
                    scale > 0,
            ;
        } else {
            assert(high / 0x80_0000 == exponent && high % 0x80_0000 == fraction + 1);
            assert((0x80_0000 + fraction) * scale < (0x80_0000 + (fraction + 1)) * scale)
                by (nonlinear_arith)
                requires
                    scale > 0,
            ;
        }
    }
}

/// The numbers above the least weight are those whose bits lie above its bits
/// and not above those of infinity.
proof fn lemma_weight_order(weight: Weight)
    ensures
        weight.counts() <==> MIN_WEIGHT_BITS < weight.bits <= INFINITY_BITS,
{
    let least = MIN_WEIGHT_BITS as int;
    let bits = weight.bits as int;
    lemma_magnitude_grows(0, least);
    assert(magnitude(0) == 0);
    if bits < 0x8000_0000 {
        if bits > least {
            lemma_magnitude_grows(least, bits);
        } else if bits < least {
            lemma_magnitude_grows(bits, least);
        }
    } else {
        let rest = bits % 0x8000_0000;
        assert(magnitude(bits) == magnitude(rest));
        if rest > 0 {
            lemma_magnitude_grows(0, rest);
        }
    }
}

/// A weight counts exactly if its bits lie above those of the single precision
/// number closest to one thousandth, and not above those of infinity: neither
/// a negative weight nor one that is no number counts.
pub proof fn law_weight_counts_by_bits(weight: Weight)
    ensures
        weight.counts() <==> 0x3A83_126F < weight.bits <= 0x7F80_0000,
{
    lemma_weight_order(weight);
}

} // verus!
