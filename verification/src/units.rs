//! Exact fixed-point quantities.
//!
//! Every length and ratio of the chart model is held as an integer count of
//! millionths (`micros`): `Px { micros: 2_500_000 }` is 2.5 px. Numeric TCML
//! literals are decimal, so holding them as decimal fixed point keeps every
//! comparison and every derived value (half a step, two thirds of a step,
//! multiples of a step) exact down to one millionth.

use vstd::prelude::*;

verus! {

/// One unit expressed in millionths.
pub const MICROS_PER_UNIT: i64 = 1_000_000;

/// A pixel length in millionths of a pixel.
#[derive(Debug, Clone, Copy, PartialEq, Eq, Structural)]
pub struct Px {
    pub micros: i64,
}

/// A dimensionless ratio in millionths.
#[derive(Debug, Clone, Copy, PartialEq, Eq, Structural)]
pub struct Ratio {
    pub micros: i64,
}

/// A point in chart coordinates.
#[derive(Debug, Clone, Copy, PartialEq, Eq, Structural)]
pub struct Point {
    pub x: Px,
    pub y: Px,
}

/// The amount of vertical space requested by `@skip(...)`.
#[derive(Debug, Clone, Copy, PartialEq, Eq, Structural)]
pub enum Length {
    /// A multiple of the line height (`@skip(2)`).
    Lh(Ratio),
    /// An absolute pixel amount (`@skip(20px)`).
    Px(Px),
}

/// Saturation to the `i64` range.
pub open spec fn spec_clamp_i64(v: int) -> int {
    if v > i64::MAX {
        i64::MAX as int
    } else if v < i64::MIN {
        i64::MIN as int
    } else {
        v
    }
}

pub fn clamp_i128_to_i64(v: i128) -> (r: i64)
    ensures
        r as int == spec_clamp_i64(v as int),
{
    if v > 0x7fff_ffff_ffff_ffffi128 {
        0x7fff_ffff_ffff_ffffi64
    } else if v < -0x8000_0000_0000_0000i128 {
        -0x8000_0000_0000_0000i64
    } else {
        v as i64
    }
}

impl Px {
    pub fn zero() -> (p: Px)
        ensures
            p.micros == 0,
    {
        Px { micros: 0 }
    }

    /// `n` whole pixels.
    pub fn from_int(n: i32) -> (p: Px)
        ensures
            p.micros == n as int * 1_000_000,
    {
        Px { micros: (n as i64) * 1_000_000 }
    }

    pub fn from_micros(micros: i64) -> (p: Px)
        ensures
            p.micros == micros,
    {
        Px { micros }
    }

    /// `self * n`, saturating at the `i64` range of millionths.
    pub fn mul_int(self, n: u32) -> (p: Px)
        ensures
            p.micros as int == spec_clamp_i64(self.micros * n),
    {
        let a = self.micros as i128;
        let b = n as i128;
        assert(-0x8000_0000_0000_0000 * 0x1_0000_0000 <= a * b <= 0x7fff_ffff_ffff_ffff * 0x1_0000_0000)
            by (nonlinear_arith)
            requires
                -0x8000_0000_0000_0000 <= a <= 0x7fff_ffff_ffff_ffff,
                0 <= b <= 0xffff_ffff,
        ;
        let product: i128 = a * b;
        Px { micros: clamp_i128_to_i64(product) }
    }

    /// The smaller of two lengths.
    pub fn min(self, other: Px) -> (p: Px)
        ensures
            p.micros == if self.micros <= other.micros { self.micros } else { other.micros },
    {
        if self.micros <= other.micros {
            self
        } else {
            other
        }
    }

    /// The larger of two lengths.
    pub fn max(self, other: Px) -> (p: Px)
        ensures
            p.micros == if self.micros >= other.micros { self.micros } else { other.micros },
    {
        if self.micros >= other.micros {
            self
        } else {
            other
        }
    }
}

impl Ratio {
    pub fn from_micros(micros: i64) -> (r: Ratio)
        ensures
            r.micros == micros,
    {
        Ratio { micros }
    }
}

impl Point {
    pub fn zero() -> (p: Point)
        ensures
            p.x.micros == 0,
            p.y.micros == 0,
    {
        Point { x: Px { micros: 0 }, y: Px { micros: 0 } }
    }

    pub fn new(x: Px, y: Px) -> (p: Point)
        ensures
            p.x == x,
            p.y == y,
    {
        Point { x, y }
    }
}

} // verus!
