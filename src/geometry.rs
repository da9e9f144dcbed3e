//! Plain-value geometry records. Every scalar is the bit pattern of an
//! IEEE-754 single-precision float (`f32::to_bits` on the host side).

use vstd::arithmetic::div_mod::lemma_basic_div_specific_divisor;
use vstd::arithmetic::power2::{lemma2_to64, lemma_pow2_strictly_increases, pow2};
use vstd::bits::lemma_u64_shr_is_div;
use vstd::prelude::*;

verus! {

/// Bit pattern of `0.0`.
pub const ZERO_BITS: u32 = 0;

/// Bit pattern of `0.5`.
pub const HALF_BITS: u32 = 0x3F00_0000;

/// Bit pattern of `1.0`.
pub const ONE_BITS: u32 = 0x3F80_0000;

/// A point or direction in space.
#[derive(Clone, Copy, Debug, PartialEq, Eq, Structural)]
pub struct Vec3 {
    pub x: u32,
    pub y: u32,
    pub z: u32,
}

/// A texture coordinate.
#[derive(Clone, Copy, Debug, PartialEq, Eq, Structural)]
pub struct Uv {
    pub u: u32,
    pub v: u32,
}

/// An RGB color with channels nominally in `[0, 1]`.
#[derive(Clone, Copy, Debug, PartialEq, Eq, Structural)]
pub struct Color {
    pub r: u32,
    pub g: u32,
    pub b: u32,
}

pub open spec fn spec_black() -> Color {
    Color { r: ZERO_BITS, g: ZERO_BITS, b: ZERO_BITS }
}

pub open spec fn spec_origin_uv() -> Uv {
    Uv { u: ZERO_BITS, v: ZERO_BITS }
}

/// All channels zero.
pub fn black() -> (r: Color)
    ensures
        r == spec_black(),
{
    Color { r: ZERO_BITS, g: ZERO_BITS, b: ZERO_BITS }
}

/// The texture coordinate `(0, 0)`.
pub fn origin_uv() -> (r: Uv)
    ensures
        r == spec_origin_uv(),
{
    Uv { u: ZERO_BITS, v: ZERO_BITS }
}

/// Sign bit of a single-precision bit pattern.
pub open spec fn sign_field(bits: u32) -> nat {
    bits as nat / 0x8000_0000
}

/// Biased exponent (8 bits) of a single-precision bit pattern.
pub open spec fn exponent_field(bits: u32) -> nat {
    (bits as nat / 0x80_0000) % 0x100
}

/// Stored fraction (23 bits) of a single-precision bit pattern.
pub open spec fn fraction_field(bits: u32) -> nat {
    bits as nat % 0x80_0000
}

/// For a finite non-negative pattern, the value is
/// `significand(bits) / 2^scale(bits)`.
pub open spec fn significand(bits: u32) -> nat {
    if exponent_field(bits) == 0 {
        fraction_field(bits)
    } else {
        fraction_field(bits) + 0x80_0000
    }
}

pub open spec fn scale(bits: u32) -> nat {
    if exponent_field(bits) == 0 {
        149
    } else {
        (150 - exponent_field(bits)) as nat
    }
}

/// The channel value times 255, rounded toward zero and saturated to
/// `0..=255`, the way a float-to-`u8` cast treats it: negative values,
/// negative zero and NaN give 0; values of 1 and above (and +inf) give 255.
pub open spec fn spec_channel_byte(bits: u32) -> u8 {
    if sign_field(bits) == 1 || (exponent_field(bits) == 255 && fraction_field(bits) != 0) {
        0
    } else if exponent_field(bits) >= 127 {
        255
    } else {
        (significand(bits) * 255 / pow2(scale(bits))) as u8
    }
}

/// Scales one color channel to an 8-bit value (see `spec_channel_byte`).
pub fn channel_byte(bits: u32) -> (r: u8)
    ensures
        r == spec_channel_byte(bits),
{
    let sign = bits >> 31u32;
    let exponent = (bits >> 23u32) & 0xFFu32;
    let fraction = bits & 0x7F_FFFFu32;
    assert(sign == bits / 0x8000_0000) by (bit_vector)
        requires
            sign == bits >> 31u32,
    ;
    assert(exponent == (bits / 0x80_0000) % 0x100) by (bit_vector)
        requires
            exponent == (bits >> 23u32) & 0xFFu32,
    ;
    assert(fraction == bits % 0x80_0000) by (bit_vector)
        requires
            fraction == bits & 0x7F_FFFFu32,
    ;
    if sign == 1 || (exponent == 255 && fraction != 0) {
        0
    } else if exponent >= 127 {
        255
    } else {
        let m: u64 = if exponent == 0 {
            fraction as u64
        } else {
            (fraction + 0x80_0000) as u64
        };
        let shift: u64 = if exponent == 0 {
            149
        } else {
            (150 - exponent) as u64
        };
        let x: u64 = m * 255;
        assert(x < 0xFF00_0000);
        assert(shift >= 24);
        if shift >= 32 {
            proof {
                lemma2_to64();
                if shift > 32 {
                    lemma_pow2_strictly_increases(32, shift as nat);
                }
                lemma_basic_div_specific_divisor(pow2(shift as nat) as int);
            }
            0
        } else {
            proof {
                lemma_u64_shr_is_div(x, shift);
            }
            assert((x >> shift) < 255) by (bit_vector)
                requires
                    x < 0xFF00_0000,
                    24 <= shift < 32,
            ;
            (x >> shift) as u8
        }
    }
}

} // verus!
