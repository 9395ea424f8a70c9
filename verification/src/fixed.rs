//! Fixed-point scalars.
//!
//! Positions, sizes and colours are fractions of the viewport. They are held
//! as signed numbers with sixteen fractional bits, so `1.0` is the raw value
//! 65536. Arithmetic saturates at the ends of the raw range instead of
//! wrapping, and every operation is specified over the mathematical integers.

use vstd::prelude::*;

verus! {

/// Raw value that stands for `1.0`.
pub const ONE_RAW: i64 = 65536;

/// A signed fixed-point number with sixteen fractional bits.
#[derive(Clone, Copy, Debug, PartialEq, Eq, Structural)]
pub struct Fixed {
    /// The number times 65536.
    pub raw: i64,
}

/// `v` limited to the range of raw values.
pub open spec fn saturate(v: int) -> i64 {
    if v < i64::MIN {
        i64::MIN
    } else if v > i64::MAX {
        i64::MAX
    } else {
        v as i64
    }
}

/// `v` limited to the range of a signed 32-bit pixel coordinate.
pub open spec fn saturate_pixel(v: int) -> i32 {
    if v < i32::MIN {
        i32::MIN
    } else if v > i32::MAX {
        i32::MAX
    } else {
        v as i32
    }
}

/// `n / d` rounded toward zero, for a positive `d`.
pub open spec fn toward_zero(n: int, d: int) -> int
    recommends
        d > 0,
{
    if n >= 0 {
        n / d
    } else {
        -((-n) / d)
    }
}

impl View for Fixed {
    type V = int;

    /// The raw value: the number times 65536.
    open spec fn view(&self) -> int {
        self.raw as int
    }
}

impl Fixed {
    /// The sum, saturating.
    pub open spec fn spec_plus(self, other: Fixed) -> Fixed {
        Fixed { raw: saturate(self@ + other@) }
    }

    /// The difference, saturating.
    pub open spec fn spec_minus(self, other: Fixed) -> Fixed {
        Fixed { raw: saturate(self@ - other@) }
    }

    /// The product, rounded toward zero and saturating.
    pub open spec fn spec_times(self, other: Fixed) -> Fixed {
        Fixed { raw: saturate(toward_zero(self@ * other@, ONE_RAW as int)) }
    }

    /// This fraction of `pixels`, in fixed point, saturating.
    pub open spec fn spec_scaled(self, pixels: u32) -> Fixed {
        Fixed { raw: saturate(self@ * pixels) }
    }

    /// The whole pixel that this fraction of `pixels` falls on: the product
    /// rounded toward zero and limited to 32 bits.
    pub open spec fn spec_to_pixel(self, pixels: u32) -> i32 {
        saturate_pixel(toward_zero(self@ * pixels, ONE_RAW as int))
    }

    /// The device-space coordinate of the point `self + extent`, both being
    /// fractions of the viewport: twice the sum, less one, saturating.
    pub open spec fn spec_to_device(self, extent: Fixed) -> Fixed {
        Fixed { raw: saturate(2 * extent@ - ONE_RAW + 2 * self@) }
    }

    /// The larger of the two.
    pub open spec fn spec_max(self, other: Fixed) -> Fixed {
        if self@ >= other@ {
            self
        } else {
            other
        }
    }

    /// The number with the given raw value.
    pub fn from_raw(raw: i64) -> (r: Fixed)
        ensures
            r == (Fixed { raw }),
    {
        Fixed { raw }
    }

    /// The raw value of this number.
    pub fn raw(self) -> (r: i64)
        ensures
            r == self.raw,
    {
        self.raw
    }

    /// Zero.
    pub fn zero() -> (r: Fixed)
        ensures
            r@ == 0,
    {
        Fixed { raw: 0 }
    }

    /// One.
    pub fn one() -> (r: Fixed)
        ensures
            r@ == ONE_RAW,
    {
        Fixed { raw: ONE_RAW }
    }

    /// The whole number `n`.
    pub fn from_int(n: i32) -> (r: Fixed)
        ensures
            r@ == n * ONE_RAW,
    {
        let wide: i64 = n as i64;
        Fixed { raw: wide * ONE_RAW }
    }

    fn from_wide(v: i128) -> (r: Fixed)
        ensures
            r.raw == saturate(v as int),
    {
        if v < i64::MIN as i128 {
            Fixed { raw: i64::MIN }
        } else if v > i64::MAX as i128 {
            Fixed { raw: i64::MAX }
        } else {
            Fixed { raw: v as i64 }
        }
    }

    fn quotient(p: i128) -> (q: i128)
        requires
            -0x4000_0000_0000_0000_0000_0000_0000_0000 <= p
                <= 0x4000_0000_0000_0000_0000_0000_0000_0000,
        ensures
            q == toward_zero(p as int, ONE_RAW as int),
    {
        if p >= 0 {
            p / (ONE_RAW as i128)
        } else {
            -((-p) / (ONE_RAW as i128))
        }
    }

    /// Saturating sum.
    pub fn plus(self, other: Fixed) -> (r: Fixed)
        ensures
            r == self.spec_plus(other),
    {
        Fixed::from_wide(self.raw as i128 + other.raw as i128)
    }

    /// Saturating difference.
    pub fn minus(self, other: Fixed) -> (r: Fixed)
        ensures
            r == self.spec_minus(other),
    {
        Fixed::from_wide(self.raw as i128 - other.raw as i128)
    }

    /// Saturating product, rounded toward zero.
    pub fn times(self, other: Fixed) -> (r: Fixed)
        ensures
            r == self.spec_times(other),
    {
        let a: i128 = self.raw as i128;
        let b: i128 = other.raw as i128;
        proof {
            lemma_product_bounds(a as int, b as int);
        }
        Fixed::from_wide(Fixed::quotient(a * b))
    }

    /// Saturating product with a pixel count: the fraction of `pixels` that
    /// this number stands for, still in fixed point.
    pub fn scaled(self, pixels: u32) -> (r: Fixed)
        ensures
            r == self.spec_scaled(pixels),
    {
        let a: i128 = self.raw as i128;
        let b: i128 = pixels as i128;
        proof {
            lemma_product_bounds(a as int, b as int);
        }
        Fixed::from_wide(a * b)
    }

    /// The whole pixel that this fraction of `pixels` falls on, rounded toward
    /// zero and limited to the range of a 32-bit coordinate.
    pub fn to_pixel(self, pixels: u32) -> (r: i32)
        ensures
            r == self.spec_to_pixel(pixels),
    {
        let a: i128 = self.raw as i128;
        let b: i128 = pixels as i128;
        proof {
            lemma_product_bounds(a as int, b as int);
        }
        let q: i128 = Fixed::quotient(a * b);
        if q < i32::MIN as i128 {
            i32::MIN
        } else if q > i32::MAX as i128 {
            i32::MAX
        } else {
            q as i32
        }
    }

    /// The device-space coordinate of the point `self + extent`, where both
    /// are fractions of the viewport: `2 * (self + extent) - 1`, saturating.
    pub fn to_device(self, extent: Fixed) -> (r: Fixed)
        ensures
            r == self.spec_to_device(extent),
    {
        let o: i128 = self.raw as i128;
        let e: i128 = extent.raw as i128;
        Fixed::from_wide(2 * e - (ONE_RAW as i128) + 2 * o)
    }

    /// The larger of two numbers.
    pub fn max(self, other: Fixed) -> (r: Fixed)
        ensures
            r == self.spec_max(other),
    {
        if self.raw >= other.raw {
            self
        } else {
            other
        }
    }

    /// Whether this number is at most `other`.
    pub fn le(self, other: Fixed) -> (r: bool)
        ensures
            r == (self@ <= other@),
    {
        self.raw <= other.raw
    }

    /// Whether this number is at least `other`.
    pub fn ge(self, other: Fixed) -> (r: bool)
        ensures
            r == (self@ >= other@),
    {
        self.raw >= other.raw
    }
}

/// The product of two 64-bit magnitudes fits in 128 bits with room to negate.
proof fn lemma_product_bounds(a: int, b: int)
    requires
        -0x8000_0000_0000_0000 <= a <= 0x8000_0000_0000_0000,
        -0x8000_0000_0000_0000 <= b <= 0x8000_0000_0000_0000,
    ensures
        -0x4000_0000_0000_0000_0000_0000_0000_0000 <= a * b
            <= 0x4000_0000_0000_0000_0000_0000_0000_0000,
{
    assert(-0x4000_0000_0000_0000_0000_0000_0000_0000 <= a * b
        <= 0x4000_0000_0000_0000_0000_0000_0000_0000) by (nonlinear_arith)
        requires
            -0x8000_0000_0000_0000 <= a <= 0x8000_0000_0000_0000,
            -0x8000_0000_0000_0000 <= b <= 0x8000_0000_0000_0000,
    ;
}

/// For an offset and an extent that stay inside the viewport, the device
/// coordinate is exactly `2 * (offset + extent) - 1` and lies between minus
/// one and one.
pub proof fn lemma_device_range(offset: Fixed, extent: Fixed)
    requires
        0 <= offset@,
        0 <= extent@,
        offset@ + extent@ <= ONE_RAW,
    ensures
        offset.spec_to_device(extent)@ == 2 * (offset@ + extent@) - ONE_RAW,
        -ONE_RAW <= offset.spec_to_device(extent)@ <= ONE_RAW,
{
}

} // verus!
