//! The binary32 encoding: the fields of a bit pattern and the value it
//! stands for.
//!
//! Every finite binary32 value is an integer multiple of 2^-149, the least
//! subnormal, so the value times 2^149 (its *scaled value*) is an integer.
//! Contracts speak of that integer.
use vstd::arithmetic::power2::*;
use vstd::prelude::*;

verus! {

/// The sign bit of a binary32 lane.
pub const SIGN_BIT: u32 = 0x8000_0000;

/// The exponent field of a binary32 bit pattern.
pub open spec fn exponent_field(b: u32) -> u32 {
    (b >> 23u32) & 0xffu32
}

/// The fraction field of a binary32 bit pattern.
pub open spec fn fraction_field(b: u32) -> u32 {
    b & 0x7f_ffffu32
}

/// Whether a bit pattern encodes a NaN.
pub open spec fn is_nan(b: u32) -> bool {
    exponent_field(b) == 0xff && fraction_field(b) != 0
}

/// The magnitude bits of a pattern (all but the sign).
pub open spec fn magnitude(b: u32) -> u32 {
    b & 0x7fff_ffffu32
}

/// Whether the sign bit of a pattern is set.
pub open spec fn sign_set(b: u32) -> bool {
    b & SIGN_BIT != 0
}

/// The scaled value of 1.0.
pub open spec fn scaled_one() -> int {
    pow2(149) as int
}

/// The significand as an integer: the fraction field, with the implicit
/// leading bit for a normal number.
pub open spec fn significand(b: u32) -> int {
    if exponent_field(b) == 0 {
        fraction_field(b) as int
    } else {
        fraction_field(b) + 0x80_0000
    }
}

/// The weight of the significand's lowest bit, in units of 2^-149.
pub open spec fn scale(b: u32) -> int {
    if exponent_field(b) == 0 {
        1
    } else {
        pow2((exponent_field(b) - 1) as nat) as int
    }
}

/// The value of a finite pattern times 2^149. An infinity gets the next
/// power of two beyond the greatest finite magnitude, with its sign, so the
/// order of values extends to the infinities.
pub open spec fn scaled_value(b: u32) -> int {
    if sign_set(b) {
        -(significand(b) * scale(b))
    } else {
        significand(b) * scale(b)
    }
}

/// Whether a pattern encodes a finite number (not an infinity or NaN).
pub open spec fn is_finite(b: u32) -> bool {
    exponent_field(b) != 0xff
}

/// Whether a finite pattern encodes an integer.
pub open spec fn is_integral(b: u32) -> bool {
    scaled_value(b) % scaled_one() == 0
}

/// The fields of a pattern, read off its bits.
pub(crate) proof fn lemma_field_bits(b: u32)
    by (bit_vector)
    ensures
        exponent_field(b) <= 0xff,
        fraction_field(b) < 0x80_0000,
        (b & 0x7fff_ffffu32 == 0) == (exponent_field(b) == 0 && fraction_field(b) == 0),
        (b & SIGN_BIT != 0) == sign_set(b),
{
}

/// A pattern is its sign, exponent field and fraction field.
proof fn lemma_bits_from_fields(a: u32, c: u32)
    by (bit_vector)
    requires
        sign_set(a) == sign_set(c),
        exponent_field(a) == exponent_field(c),
        fraction_field(a) == fraction_field(c),
    ensures
        a == c,
{
}

/// A smaller exponent field means a smaller magnitude.
proof fn lemma_magnitude_below(a: u32, c: u32)
    requires
        exponent_field(a) < exponent_field(c),
    ensures
        significand(a) * scale(a) < significand(c) * scale(c),
{
    lemma_field_bits(a);
    lemma_field_bits(c);
    lemma2_to64();
    let ec = exponent_field(c) as nat;
    let pc = pow2((ec - 1) as nat) as int;
    lemma_pow2_pos((ec - 1) as nat);
    assert(significand(c) * scale(c) >= 0x80_0000 * pc) by (nonlinear_arith)
        requires
            significand(c) >= 0x80_0000,
            scale(c) == pc,
            pc > 0,
    ;
    if exponent_field(a) == 0 {
        assert(0x80_0000 * pc >= 0x80_0000) by (nonlinear_arith)
            requires
                pc > 0,
        ;
    } else {
        let ea = exponent_field(a) as nat;
        let pa = pow2((ea - 1) as nat) as int;
        lemma_pow2_pos((ea - 1) as nat);
        lemma_pow2_unfold(ea);
        if ea < ec - 1 {
            lemma_pow2_strictly_increases(ea, (ec - 1) as nat);
        }
        assert(significand(a) * pa < 0x80_0000 * pc) by (nonlinear_arith)
            requires
                significand(a) < 0x100_0000,
                pa > 0,
                2 * pa <= pc,
        ;
    }
}

/// A finite binary32 value has one encoding for each sign.
pub proof fn lemma_encoding_unique(a: u32, c: u32)
    requires
        is_finite(a),
        is_finite(c),
        sign_set(a) == sign_set(c),
        scaled_value(a) == scaled_value(c),
    ensures
        a == c,
{
    lemma_field_bits(a);
    lemma_field_bits(c);
    if exponent_field(a) < exponent_field(c) {
        lemma_magnitude_below(a, c);
    } else if exponent_field(c) < exponent_field(a) {
        lemma_magnitude_below(c, a);
    } else {
        if exponent_field(a) != 0 {
            lemma_pow2_pos((exponent_field(a) - 1) as nat);
        }
        let p = scale(a);
        assert(significand(a) == significand(c)) by (nonlinear_arith)
            requires
                p > 0,
                significand(a) * p == significand(c) * p,
        ;
        lemma_bits_from_fields(a, c);
    }
}

/// The magnitude bits of a pattern: its exponent field, then its fraction.
proof fn lemma_magnitude_fields(b: u32)
    by (bit_vector)
    ensures
        magnitude(b) == exponent_field(b) * 0x80_0000 + fraction_field(b),
{
}

/// The magnitude bits of a pattern order it as its magnitude.
proof fn lemma_magnitude_order(a: u32, c: u32)
    requires
        magnitude(a) < magnitude(c),
    ensures
        significand(a) * scale(a) < significand(c) * scale(c),
{
    lemma_magnitude_fields(a);
    lemma_magnitude_fields(c);
    lemma_field_bits(a);
    lemma_field_bits(c);
    if exponent_field(a) < exponent_field(c) {
        lemma_magnitude_below(a, c);
    } else {
        assert(exponent_field(a) == exponent_field(c));
        if exponent_field(a) != 0 {
            lemma_pow2_pos((exponent_field(a) - 1) as nat);
        }
        let p = scale(a);
        assert(significand(a) * p < significand(c) * p) by (nonlinear_arith)
            requires
                p > 0,
                significand(a) < significand(c),
        ;
    }
}

/// Only a zero has no magnitude.
proof fn lemma_zero_magnitude(a: u32)
    ensures
        (significand(a) * scale(a) == 0) == (magnitude(a) == 0),
        significand(a) * scale(a) >= 0,
{
    lemma_magnitude_fields(a);
    lemma_field_bits(a);
    if exponent_field(a) != 0 {
        lemma_pow2_pos((exponent_field(a) - 1) as nat);
    }
    let p = scale(a);
    assert((significand(a) * p == 0) == (significand(a) == 0) && significand(a) * p >= 0)
        by (nonlinear_arith)
        requires
            p > 0,
            significand(a) >= 0,
    ;
}

/// Among non-NaN patterns, values are ordered as their signed magnitude
/// bits, both zeros sharing the place of 0.
pub proof fn lemma_order_matches_value(a: u32, c: u32)
    requires
        !is_nan(a),
        !is_nan(c),
    ensures
        (scaled_value(a) < scaled_value(c)) == ((if sign_set(a) {
            -(magnitude(a) as int)
        } else {
            magnitude(a) as int
        }) < (if sign_set(c) {
            -(magnitude(c) as int)
        } else {
            magnitude(c) as int
        })),
{
    lemma_zero_magnitude(a);
    lemma_zero_magnitude(c);
    if magnitude(a) < magnitude(c) {
        lemma_magnitude_order(a, c);
    } else if magnitude(c) < magnitude(a) {
        lemma_magnitude_order(c, a);
    } else {
        lemma_magnitude_fields(a);
        lemma_magnitude_fields(c);
        lemma_field_bits(a);
        lemma_field_bits(c);
        assert(exponent_field(a) == exponent_field(c) && fraction_field(a) == fraction_field(c));
    }
}

} // verus!
