//! Geometry primitives: rectangles, affine transforms, and the device
//! scale factor used to turn logical layer bounds into physical surface
//! sizes.

use vstd::prelude::*;

verus! {

/// A rectangle in logical coordinates: origin `(x, y)` and extent
/// `width` x `height`.
#[derive(Clone, Copy, Debug, PartialEq, Eq, Structural)]
pub struct Rect {
    pub x: i32,
    pub y: i32,
    pub width: i32,
    pub height: i32,
}

impl Rect {
    /// The empty rectangle at the origin.
    pub fn new_empty() -> (r: Rect)
        ensures
            r == (Rect { x: 0, y: 0, width: 0, height: 0 }),
    {
        Rect { x: 0, y: 0, width: 0, height: 0 }
    }

    /// A rectangle from its origin and extent.
    pub fn from_xywh(x: i32, y: i32, width: i32, height: i32) -> (r: Rect)
        ensures
            r == (Rect { x, y, width, height }),
    {
        Rect { x, y, width, height }
    }
}

/// One unit on the fixed-point scale used for affine matrix entries:
/// an entry of `MATRIX_UNIT` stands for the real value 1.
pub const MATRIX_UNIT: i64 = 65536;

/// A 2D affine transform.  Entries are fixed-point numbers in units of
/// `MATRIX_UNIT`; the compositor only carries transforms through to the
/// emitted drawing commands and never computes with the entries.
#[derive(Clone, Copy, Debug, PartialEq, Eq, Structural)]
pub struct Matrix {
    pub scale_x: i64,
    pub skew_x: i64,
    pub trans_x: i64,
    pub skew_y: i64,
    pub scale_y: i64,
    pub trans_y: i64,
}

/// The identity transform, as a spec-level value.
pub open spec fn spec_identity_matrix() -> Matrix {
    Matrix {
        scale_x: MATRIX_UNIT,
        skew_x: 0,
        trans_x: 0,
        skew_y: 0,
        scale_y: MATRIX_UNIT,
        trans_y: 0,
    }
}

impl Matrix {
    /// The identity transform.
    pub fn identity() -> (m: Matrix)
        ensures
            m == spec_identity_matrix(),
    {
        Matrix {
            scale_x: MATRIX_UNIT,
            skew_x: 0,
            trans_x: 0,
            skew_y: 0,
            scale_y: MATRIX_UNIT,
            trans_y: 0,
        }
    }
}

/// Largest numerator or denominator a device scale factor may have.
pub const SCALE_LIMIT: u32 = 65536;

/// The device scale factor, as an exact rational `num / den`.
#[derive(Clone, Copy, Debug, PartialEq, Eq, Structural)]
pub struct ScaleFactor {
    pub num: u32,
    pub den: u32,
}

impl ScaleFactor {
    /// A well-formed scale factor is a positive rational with bounded
    /// numerator and denominator.
    pub open spec fn wf(self) -> bool {
        1 <= self.num <= SCALE_LIMIT && 1 <= self.den <= SCALE_LIMIT
    }

    /// The scale factor 1 (logical units are physical pixels).
    pub fn one() -> (s: ScaleFactor)
        ensures
            s == (ScaleFactor { num: 1, den: 1 }),
            s.wf(),
    {
        ScaleFactor { num: 1, den: 1 }
    }

    /// A scale factor from a numerator and denominator.
    pub fn new(num: u32, den: u32) -> (s: ScaleFactor)
        requires
            1 <= num <= SCALE_LIMIT,
            1 <= den <= SCALE_LIMIT,
        ensures
            s == (ScaleFactor { num, den }),
            s.wf(),
    {
        ScaleFactor { num, den }
    }
}

/// Physical pixel extent of a logical extent under scale `num / den`:
/// the ceiling of `logical * num / den`, and 0 when nothing is visible.
pub open spec fn spec_physical_extent(logical: int, scale: ScaleFactor) -> int {
    if logical <= 0 {
        0
    } else {
        (logical * scale.num + scale.den - 1) / (scale.den as int)
    }
}

/// Computes the physical pixel extent of a logical extent: the ceiling of
/// `logical * scale`, or 0 for a non-positive extent.
pub fn physical_extent(logical: i32, scale: ScaleFactor) -> (r: u64)
    requires
        scale.wf(),
    ensures
        r == spec_physical_extent(logical as int, scale),
        logical > 0 ==> r >= 1,
{
    if logical <= 0 {
        0
    } else {
        let num = scale.num as u64;
        let den = scale.den as u64;
        let l = logical as u64;
        proof {
            assert(l * num <= 0x8000_0000u64 * 0x10000u64) by (nonlinear_arith)
                requires
                    l <= 0x8000_0000u64,
                    num <= 0x10000u64,
            ;
            assert(l * num >= 1) by (nonlinear_arith)
                requires
                    l >= 1,
                    num >= 1,
            ;
        }
        proof {
            assert(((l as int) * (num as int) + (den as int) - 1) / (den as int) >= 1)
                by (nonlinear_arith)
                requires
                    (l as int) * (num as int) >= 1,
                    (den as int) >= 1,
            ;
        }
        (l * num + den - 1) / den
    }
}

} // verus!
