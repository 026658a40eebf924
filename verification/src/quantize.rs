//! Whole ticks and playfield units from the bit patterns of binary
//! fractions.
//!
//! Parsers hand out times in milliseconds as IEEE 754 binary64 numbers and
//! positions as binary32 numbers. Such a number is a significand times a
//! power of two, so the nearest thousandth of a millisecond, or the nearest
//! unit, can be found in whole numbers from its bits alone. Halves go away
//! from zero. What lies outside the range of the result is held at its edge,
//! and what is not a number counts as zero.

use crate::model::{time_in_range, TIME_LIMIT};
use vstd::arithmetic::power2::{
    lemma2_to64, lemma_pow2_pos, lemma_pow2_strictly_increases, lemma_pow2_unfold, pow2,
};
use vstd::prelude::*;

verus! {

/// Ticks in a millisecond.
pub const TICKS_PER_MILLISECOND: u64 = 1_000;

/// Largest magnitude of a position, in units.
pub const UNIT_LIMIT: i32 = 2_147_483_647;

/// The whole number nearest to `product / 2^point`, halves going up.
pub open spec fn nearest_quotient(product: int, point: nat) -> int {
    (2 * product + pow2(point) as int) / (2 * (pow2(point) as int))
}

/// The whole number nearest to `product * 2^(-point)`, halves going up.
pub open spec fn nearest_whole(product: int, point: int) -> int {
    if point <= 0 {
        product * (pow2((-point) as nat) as int)
    } else {
        nearest_quotient(product, point as nat)
    }
}

/// `value`, or `limit` if it is more.
pub open spec fn at_most(value: int, limit: int) -> int {
    if value > limit {
        limit
    } else {
        value
    }
}

/// Whether the sign bit of a binary64 number is set.
pub open spec fn double_is_negative(bits: u64) -> bool {
    bits >= 0x8000_0000_0000_0000
}

/// The exponent field of a binary64 number: eleven bits.
pub open spec fn double_exponent(bits: u64) -> int {
    (bits as int / 0x10_0000_0000_0000) % 0x800
}

/// The fraction field of a binary64 number: fifty-two bits.
pub open spec fn double_fraction(bits: u64) -> int {
    bits as int % 0x10_0000_0000_0000
}

/// The significand of a finite binary64 number: the fraction, with the
/// hidden bit before it unless the number is subnormal.
pub open spec fn double_significand(bits: u64) -> int {
    if double_exponent(bits) == 0 {
        double_fraction(bits)
    } else {
        double_fraction(bits) + 0x10_0000_0000_0000
    }
}

/// Where the binary point of a finite binary64 number lies: its magnitude is
/// its significand times two to the power minus this.
pub open spec fn double_point(bits: u64) -> int {
    if double_exponent(bits) == 0 {
        1074
    } else {
        1075 - double_exponent(bits)
    }
}

/// The ticks nearest to the binary64 number of milliseconds with these
/// bits: zero for what is not a number, the limit for what lies beyond it.
pub open spec fn ticks_of_double(bits: u64) -> int {
    let magnitude = if double_exponent(bits) == 0x7FF {
        if double_fraction(bits) == 0 {
            TIME_LIMIT as int
        } else {
            0
        }
    } else {
        at_most(
            nearest_whole(double_significand(bits) * TICKS_PER_MILLISECOND, double_point(bits)),
            TIME_LIMIT as int,
        )
    };
    if double_is_negative(bits) {
        -magnitude
    } else {
        magnitude
    }
}

/// Whether the sign bit of a binary32 number is set.
pub open spec fn single_is_negative(bits: u32) -> bool {
    bits >= 0x8000_0000
}

/// The exponent field of a binary32 number: eight bits.
pub open spec fn single_exponent(bits: u32) -> int {
    (bits as int / 0x80_0000) % 0x100
}

/// The fraction field of a binary32 number: twenty-three bits.
pub open spec fn single_fraction(bits: u32) -> int {
    bits as int % 0x80_0000
}

/// The significand of a finite binary32 number.
pub open spec fn single_significand(bits: u32) -> int {
    if single_exponent(bits) == 0 {
        single_fraction(bits)
    } else {
        single_fraction(bits) + 0x80_0000
    }
}

/// Where the binary point of a finite binary32 number lies.
pub open spec fn single_point(bits: u32) -> int {
    if single_exponent(bits) == 0 {
        149
    } else {
        150 - single_exponent(bits)
    }
}

/// The units nearest to the binary32 coordinate with these bits: zero for
/// what is not a number, the limit for what lies beyond it.
pub open spec fn units_of_single(bits: u32) -> int {
    let magnitude = if single_exponent(bits) == 0xFF {
        if single_fraction(bits) == 0 {
            UNIT_LIMIT as int
        } else {
            0
        }
    } else {
        at_most(nearest_whole(single_significand(bits), single_point(bits)), UNIT_LIMIT as int)
    };
    if single_is_negative(bits) {
        -magnitude
    } else {
        magnitude
    }
}

/// Two to the power `exponent`.
pub fn power_of_two(exponent: u64) -> (power: u128)
    requires
        exponent <= 64,
    ensures
        power == pow2(exponent as nat),
        1 <= power <= 0x1_0000_0000_0000_0000,
{
    let mut power: u128 = 1;
    let mut i: u64 = 0;
    proof {
        lemma2_to64();
    }
    while i < exponent
        invariant
            i <= exponent <= 64,
            power == pow2(i as nat),
            1 <= power,
            pow2(64) == 0x1_0000_0000_0000_0000,
        decreases exponent - i,
    {
        proof {
            lemma_pow2_unfold((i + 1) as nat);
            if i + 1 < 64 {
                lemma_pow2_strictly_increases((i + 1) as nat, 64);
            }
        }
        power = power * 2;
        i += 1;
    }
    proof {
        if exponent < 64 {
            lemma_pow2_strictly_increases(exponent as nat, 64);
        }
    }
    power
}

/// The whole number nearest to `product / 2^point`, halves going up, but no
/// more than `limit`.
pub fn nearest_within(product: u64, point: u64, limit: u64) -> (nearest: u64)
    requires
        point >= 1,
    ensures
        nearest == at_most(nearest_quotient(product as int, point as nat), limit as int),
{
    if point > 64 {
        proof {
            lemma2_to64();
            lemma_pow2_unfold(65);
            if point > 65 {
                lemma_pow2_strictly_increases(65, point as nat);
            }
            let p = pow2(point as nat) as int;
            let n = product as int;
            assert((2 * n + p) / (2 * p) == 0) by (nonlinear_arith)
                requires
                    0 <= n,
                    2 * n < p,
            ;
        }
        0
    } else {
        let power: u128 = power_of_two(point);
        let doubled: u128 = 2 * (product as u128) + power;
        let nearest: u128 = doubled / (2 * power);
        proof {
            let p = power as int;
            let d = doubled as int;
            assert(0 <= d / (2 * p) <= d) by (nonlinear_arith)
                requires
                    0 <= d,
                    1 <= p,
            ;
        }
        if nearest > limit as u128 {
            limit
        } else {
            nearest as u64
        }
    }
}

/// The ticks nearest to the binary64 number of milliseconds with the given
/// bits.
pub fn ticks_from_double_bits(bits: u64) -> (ticks: i64)
    ensures
        ticks == ticks_of_double(bits),
        time_in_range(ticks as int),
{
    let exponent: u64 = (bits / 0x10_0000_0000_0000) % 0x800;
    let fraction: u64 = bits % 0x10_0000_0000_0000;
    let negative: bool = bits >= 0x8000_0000_0000_0000;
    let limit: u64 = TIME_LIMIT as u64;
    let magnitude: u64 = if exponent == 0x7FF {
        if fraction == 0 {
            limit
        } else {
            0
        }
    } else if exponent >= 1075 {
        proof {
            let s = double_significand(bits) * TICKS_PER_MILLISECOND;
            let p = pow2((-double_point(bits)) as nat) as int;
            lemma_pow2_pos((-double_point(bits)) as nat);
            assert(s * p >= s) by (nonlinear_arith)
                requires
                    s >= 0,
                    p >= 1,
            ;
        }
        limit
    } else {
        let significand: u64 = if exponent == 0 {
            fraction
        } else {
            fraction + 0x10_0000_0000_0000
        };
        let point: u64 = if exponent == 0 {
            1074
        } else {
            1075 - exponent
        };
        nearest_within(significand * TICKS_PER_MILLISECOND, point, limit)
    };
    if negative {
        -(magnitude as i64)
    } else {
        magnitude as i64
    }
}

/// The units nearest to the binary32 coordinate with the given bits.
pub fn units_from_single_bits(bits: u32) -> (units: i32)
    ensures
        units == units_of_single(bits),
{
    let exponent: u32 = (bits / 0x80_0000) % 0x100;
    let fraction: u32 = bits % 0x80_0000;
    let negative: bool = bits >= 0x8000_0000;
    let limit: u64 = UNIT_LIMIT as u64;
    let magnitude: u64 = if exponent == 0xFF {
        if fraction == 0 {
            limit
        } else {
            0
        }
    } else if exponent >= 158 {
        proof {
            let s = single_significand(bits);
            let k = (-single_point(bits)) as nat;
            lemma2_to64();
            if k > 8 {
                lemma_pow2_strictly_increases(8, k);
            }
            let p = pow2(k) as int;
            assert(s * p >= 0x80_0000 * 0x100) by (nonlinear_arith)
                requires
                    s >= 0x80_0000,
                    p >= 0x100,
            ;
        }
        limit
    } else if exponent >= 150 {
        let significand: u64 = fraction as u64 + 0x80_0000;
        let power: u128 = power_of_two((exponent - 150) as u64);
        proof {
            lemma2_to64();
            if exponent - 150 < 8 {
                lemma_pow2_strictly_increases((exponent - 150) as nat, 8);
            }
            assert(significand * power <= 0x100_0000 * 0x100) by (nonlinear_arith)
                requires
                    0 <= significand <= 0x100_0000,
                    0 <= power <= 0x100,
            ;
        }
        let whole: u128 = significand as u128 * power;
        if whole > limit as u128 {
            limit
        } else {
            whole as u64
        }
    } else {
        let significand: u64 = if exponent == 0 {
            fraction as u64
        } else {
            fraction as u64 + 0x80_0000
        };
        let point: u64 = if exponent == 0 {
            149
        } else {
            (150 - exponent) as u64
        };
        nearest_within(significand, point, limit)
    };
    if negative {
        -(magnitude as i32)
    } else {
        magnitude as i32
    }
}

} // verus!
