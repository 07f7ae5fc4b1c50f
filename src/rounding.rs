//! Rounding towards negative infinity, done on the bits alone.
use vstd::arithmetic::div_mod::*;
use vstd::arithmetic::power2::*;
use vstd::bits::*;
use vstd::prelude::*;

use crate::binary32::{
    exponent_field, fraction_field, is_finite, is_integral, lemma_encoding_unique,
    lemma_field_bits, scale, scaled_one, scaled_value, sign_set, significand, SIGN_BIT,
};
use crate::sleef::VFloat;

verus! {

/// `r` is `floor(b)`: for a finite `b`, the greatest integer not above it,
/// with the sign of `b` (so `floor(-0.0)` is `-0.0` and `floor(0.5)` is
/// `+0.0`); an infinity or NaN is kept as it is.
pub open spec fn is_floor_of(r: u32, b: u32) -> bool {
    if is_finite(b) {
        &&& is_finite(r)
        &&& sign_set(r) == sign_set(b)
        &&& is_integral(r)
        &&& scaled_value(r) <= scaled_value(b) < scaled_value(r) + scaled_one()
    } else {
        r == b
    }
}

/// Two integral values less than one apart are equal.
proof fn lemma_integral_gap(x: int, y: int)
    requires
        x % scaled_one() == 0,
        y % scaled_one() == 0,
        x <= y < x + scaled_one(),
    ensures
        x == y,
{
    let one = scaled_one();
    lemma_pow2_pos(149);
    lemma_fundamental_div_mod(x, one);
    lemma_fundamental_div_mod(y, one);
    let qx = x / one;
    let qy = y / one;
    assert(qx == qy) by (nonlinear_arith)
        requires
            one > 0,
            x == one * qx,
            y == one * qy,
            x <= y < x + one,
    ;
}

/// The fields of +0.0 and of -1.0.
proof fn lemma_constant_bits()
    by (bit_vector)
    ensures
        exponent_field(0u32) == 0,
        fraction_field(0u32) == 0,
        !sign_set(0u32),
        exponent_field(0xbf80_0000u32) == 127,
        fraction_field(0xbf80_0000u32) == 0,
        sign_set(0xbf80_0000u32),
{
}

/// A finite pattern whose exponent field is 150 or more is integral.
proof fn lemma_large_is_integral(b: u32)
    requires
        150 <= exponent_field(b) < 0xff,
    ensures
        is_integral(b),
{
    let e = exponent_field(b) as nat;
    lemma_pow2_adds(149, (e - 150) as nat);
    let q = pow2((e - 150) as nat) as int;
    let m = significand(b);
    let k = (exponent_field(b) - 1) as nat;
    assert(k == 149 + (e - 150) as nat);
    assert(pow2(k) == pow2(149) * pow2((e - 150) as nat));
    assert(scale(b) == pow2(k));
    assert(scale(b) == scaled_one() * q);
    lemma_pow2_pos(149);
    if sign_set(b) {
        assert(scaled_value(b) == (-(m * q)) * scaled_one()) by (nonlinear_arith)
            requires
                scaled_value(b) == -(m * scale(b)),
                scale(b) == scaled_one() * q,
        ;
        lemma_mod_multiples_basic(-(m * q), scaled_one());
    } else {
        assert(scaled_value(b) == (m * q) * scaled_one()) by (nonlinear_arith)
            requires
                scaled_value(b) == m * scale(b),
                scale(b) == scaled_one() * q,
        ;
        lemma_mod_multiples_basic(m * q, scaled_one());
    }
}

/// A nonzero pattern whose exponent field is below 127 lies strictly
/// between -1 and 1, and is not zero.
proof fn lemma_small_magnitude(b: u32)
    requires
        exponent_field(b) < 127,
        exponent_field(b) != 0 || fraction_field(b) != 0,
    ensures
        0 < significand(b) * scale(b) < scaled_one(),
{
    let e = exponent_field(b) as nat;
    lemma_field_bits(b);
    lemma2_to64();
    lemma_pow2_strictly_increases(23, 149);
    if e == 0 {
        assert(significand(b) * scale(b) == fraction_field(b));
    } else {
        lemma_pow2_adds(24, 125);
        lemma_pow2_pos((e - 1) as nat);
        if e - 1 < 125 {
            lemma_pow2_strictly_increases((e - 1) as nat, 125);
        }
        let p = pow2((e - 1) as nat) as int;
        let p125 = pow2(125) as int;
        assert(significand(b) * p < 0x100_0000 * p125) by (nonlinear_arith)
            requires
                0 < significand(b) < 0x100_0000,
                0 < p <= p125,
        ;
        assert(significand(b) * p > 0) by (nonlinear_arith)
            requires
                0 < significand(b),
                0 < p,
        ;
    }
}

/// A unit bit inside the fraction field.
proof fn lemma_shift_mask(s: u32)
    by (bit_vector)
    requires
        1 <= s <= 23,
    ensures
        2 <= (1u32 << s) <= 0x80_0000,
{
}

/// Bits of a pattern whose unit bit lies inside the fraction field, `mask`
/// covering the fraction bits below it.
proof fn lemma_window_bits(b: u32, s: u32, mask: u32)
    by (bit_vector)
    requires
        127 <= exponent_field(b) <= 149,
        s == 150 - exponent_field(b),
        mask == (1u32 << s) - 1,
    ensures
        (b & mask) == (fraction_field(b) & mask),
        exponent_field(b & !mask) == exponent_field(b),
        fraction_field(b & !mask) == fraction_field(b) - (fraction_field(b) & mask),
        sign_set(b & !mask) == sign_set(b),
        b + mask <= 0xffff_ffff,
{
}

/// Rounding the magnitude bits up to the unit bit: the fraction grows to the
/// next multiple of the unit, and a carry out of it moves into the exponent.
proof fn lemma_round_up_bits(b: u32, s: u32, mask: u32)
    by (bit_vector)
    requires
        127 <= exponent_field(b) <= 149,
        s == 150 - exponent_field(b),
        mask == (1u32 << s) - 1,
        (b & mask) != 0,
    ensures
        sign_set(((b + mask) as u32) & !mask) == sign_set(b),
        fraction_field(b) - (fraction_field(b) & mask) + mask + 1 <= 0x80_0000,
        fraction_field(b) - (fraction_field(b) & mask) + mask + 1 < 0x80_0000 ==> exponent_field(
            ((b + mask) as u32) & !mask,
        ) == exponent_field(b) && fraction_field(((b + mask) as u32) & !mask) == fraction_field(b)
            - (fraction_field(b) & mask) + mask + 1,
        fraction_field(b) - (fraction_field(b) & mask) + mask + 1 == 0x80_0000 ==> exponent_field(
            ((b + mask) as u32) & !mask,
        ) == exponent_field(b) + 1 && fraction_field(((b + mask) as u32) & !mask) == 0,
{
}

/// The arithmetic of one window: with `unit` the weight of the unit bit
/// (2^s) and `p` the weight of the significand's lowest bit, a significand
/// `m` splits into whole units `q` and a remainder `fm`.
proof fn lemma_window_arith(m: int, unit: int, p: int, q: int, fm: int)
    requires
        unit > 0,
        p > 0,
        m == unit * q + fm,
        0 <= fm < unit,
    ensures
        (unit * q) * p == q * (unit * p),
        (unit * (q + 1)) * p == (q + 1) * (unit * p),
        m * p == (unit * q) * p + fm * p,
        0 <= fm * p < unit * p,
        fm > 0 ==> fm * p > 0,
        m * p == (unit * (q + 1)) * p - (unit - fm) * p,
        0 < (unit - fm) * p <= unit * p,
        fm > 0 ==> (unit - fm) * p < unit * p,
{
    assert((unit * q) * p == q * (unit * p)) by (nonlinear_arith);
    assert((unit * (q + 1)) * p == (q + 1) * (unit * p)) by (nonlinear_arith);
    assert(m * p == (unit * q) * p + fm * p) by (nonlinear_arith)
        requires
            m == unit * q + fm,
    ;
    assert(0 <= fm * p < unit * p) by (nonlinear_arith)
        requires
            p > 0,
            0 <= fm < unit,
    ;
    assert(fm > 0 ==> fm * p > 0) by (nonlinear_arith)
        requires
            p > 0,
    ;
    assert(m * p == (unit * (q + 1)) * p - (unit - fm) * p) by (nonlinear_arith)
        requires
            m == unit * q + fm,
    ;
    assert(0 < (unit - fm) * p <= unit * p) by (nonlinear_arith)
        requires
            p > 0,
            0 <= fm < unit,
    ;
    assert(fm > 0 ==> (unit - fm) * p < unit * p) by (nonlinear_arith)
        requires
            p > 0,
    ;
}

/// The greatest integer not above a binary32 value, computed on its bits.
pub fn floor_bits(b: u32) -> (r: u32)
    ensures
        is_floor_of(r, b),
        is_finite(b) && is_integral(b) ==> r == b,
{
    proof {
        lemma_field_bits(b);
        lemma_constant_bits();
        lemma_pow2_pos(149);
    }
    let e: u32 = (b >> 23u32) & 0xff;
    if e >= 150 {
        proof {
            if e < 0xff {
                lemma_large_is_integral(b);
            }
        }
        return b;
    }
    if e < 127 {
        if b & 0x7fff_ffff == 0 {
            assert(scaled_value(b) == 0);
            return b;
        }
        proof {
            lemma_small_magnitude(b);
            lemma_pow2_adds(23, 126);
            lemma2_to64();
            assert(scale(0xbf80_0000u32) == pow2(126));
            assert(significand(0xbf80_0000u32) * scale(0xbf80_0000u32) == scaled_one());
            assert(0int % scaled_one() == 0);
            lemma_mod_multiples_basic(-1, scaled_one());
            if is_integral(b) {
                if sign_set(b) {
                    lemma_integral_gap(-scaled_one(), scaled_value(b));
                } else {
                    lemma_integral_gap(0, scaled_value(b));
                }
            }
        }
        if b & SIGN_BIT != 0 {
            return 0xbf80_0000;
        } else {
            return 0;
        }
    }
    let s: u32 = 150 - e;
    proof {
        lemma_shift_mask(s);
    }
    let mask: u32 = (1u32 << s) - 1;
    let ghost f = fraction_field(b) as int;
    let ghost unit = pow2(s as nat) as int;
    let ghost p = scale(b);
    let ghost m = significand(b);
    proof {
        lemma_window_bits(b, s, mask);
        lemma_u32_pow2_no_overflow(s as nat);
        lemma_u32_shl_is_mul(1u32, s);
        lemma_pow2_pos(s as nat);
        lemma_pow2_pos((e - 1) as nat);
        assert(mask as nat == low_bits_mask(s as nat));
        lemma_u32_low_bits_mask_is_mod(fraction_field(b), s as nat);
        // 2^23 is a whole number of units, so the significand and the fraction
        // leave the same remainder.
        lemma_pow2_adds(s as nat, (23 - s) as nat);
        lemma2_to64();
        assert(m == unit * pow2((23 - s) as nat) + f);
        lemma_mod_multiples_vanish(pow2((23 - s) as nat) as int, f, unit);
        lemma_fundamental_div_mod(m, unit);
        lemma_mod_bound(m, unit);
        // One unit at this exponent is 1.0.
        lemma_pow2_adds(s as nat, (e - 1) as nat);
        assert((s + (e - 1)) as nat == 149);
        assert(scaled_one() == unit * p);
        lemma_window_arith(m, unit, p, m / unit, m % unit);
        lemma_mod_multiples_basic(m / unit, scaled_one());
        lemma_mod_multiples_basic(-(m / unit), scaled_one());
        lemma_mod_multiples_basic(m / unit + 1, scaled_one());
        lemma_mod_multiples_basic(-(m / unit + 1), scaled_one());
    }
    if b & mask == 0 {
        proof {
            let q = m / unit;
            assert(scaled_value(b) == q * scaled_one() || scaled_value(b) == (-q) * scaled_one())
                by (nonlinear_arith)
                requires
                    m * p == (unit * q) * p + 0 * p,
                    (unit * q) * p == q * (unit * p),
                    scaled_one() == unit * p,
                    scaled_value(b) == m * p || scaled_value(b) == -(m * p),
            ;
        }
        return b;
    }
    if b & SIGN_BIT == 0 {
        let r = b & !mask;
        proof {
            assert(significand(r) == unit * (m / unit));
            assert(scaled_value(r) == (m / unit) * scaled_one());
            if is_integral(b) {
                lemma_integral_gap(scaled_value(r), scaled_value(b));
            }
        }
        r
    } else {
        let r = (b + mask) & !mask;
        proof {
            assert(m % unit > 0);
            lemma_round_up_bits(b, s, mask);
            assert(unit * (m / unit + 1) == unit * (m / unit) + unit) by (nonlinear_arith);
            if fraction_field(r) == 0 && exponent_field(r) == e + 1 {
                lemma_pow2_unfold(e as nat);
                assert(scale(r) == 2 * p);
                assert(significand(r) * scale(r) == unit * (m / unit + 1) * p) by (nonlinear_arith)
                    requires
                        significand(r) == 0x80_0000,
                        scale(r) == 2 * p,
                        unit * (m / unit + 1) == 0x100_0000,
                ;
            } else {
                assert(significand(r) == unit * (m / unit + 1));
            }
            let q = m / unit;
            assert(scaled_value(r) == -(q + 1) * scaled_one()) by (nonlinear_arith)
                requires
                    scaled_value(r) == -(significand(r) * scale(r)),
                    significand(r) * scale(r) == (unit * (q + 1)) * p,
                    (unit * (q + 1)) * p == (q + 1) * (unit * p),
                    scaled_one() == unit * p,
            ;
            assert(scaled_value(b) == scaled_value(r) + (unit - m % unit) * p) by (nonlinear_arith)
                requires
                    scaled_value(r) == -(q + 1) * scaled_one(),
                    scaled_value(b) == -(m * p),
                    m * p == (unit * (q + 1)) * p - (unit - m % unit) * p,
                    (unit * (q + 1)) * p == (q + 1) * (unit * p),
                    scaled_one() == unit * p,
            ;
            if is_integral(b) {
                lemma_integral_gap(scaled_value(r), scaled_value(b));
            }
        }
        r
    }
}

/// Rounds every float lane towards negative infinity.
pub fn vfloor_vf_vf(d: VFloat) -> (r: VFloat)
    ensures
        forall|i: int| 0 <= i < 4 ==> is_floor_of(#[trigger] r@[i], d@[i]),
{
    VFloat {
        lanes: [
            floor_bits(d.lanes[0]),
            floor_bits(d.lanes[1]),
            floor_bits(d.lanes[2]),
            floor_bits(d.lanes[3]),
        ],
    }
}

/// A value has exactly one floor.
pub proof fn lemma_floor_unique(b: u32, r1: u32, r2: u32)
    requires
        is_floor_of(r1, b),
        is_floor_of(r2, b),
    ensures
        r1 == r2,
{
    if is_finite(b) {
        if scaled_value(r1) <= scaled_value(r2) {
            lemma_integral_gap(scaled_value(r1), scaled_value(r2));
        } else {
            lemma_integral_gap(scaled_value(r2), scaled_value(r1));
        }
        lemma_encoding_unique(r1, r2);
    }
}

/// Rounding down is idempotent: the floor of a floor is that floor, bit
/// for bit.
pub proof fn law_floor_bits_idempotent(b: u32, r: u32, rr: u32)
    requires
        is_floor_of(r, b),
        is_floor_of(rr, r),
    ensures
        rr == r,
{
    lemma_pow2_pos(149);
    if is_finite(b) {
        assert(is_floor_of(r, r));
        lemma_floor_unique(r, r, rr);
    }
}

} // verus!
