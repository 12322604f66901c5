//! Points, render scales and the control points of a perspective warp.
use vstd::prelude::*;

verus! {

/// A position in the logical coordinate space of a composition.
#[derive(Clone, Copy, Debug, PartialEq, Eq, Structural)]
pub struct Point {
    pub x: i32,
    pub y: i32,
}

/// A positive render scale, held exactly as the fraction `num / den`.
#[derive(Clone, Copy, Debug, PartialEq, Eq, Structural)]
pub struct Scale {
    pub num: u32,
    pub den: u32,
}

/// A scaled position: the coordinates are numerators over the denominator of
/// the scale that produced them.
#[derive(Clone, Copy, Debug, PartialEq, Eq, Structural)]
pub struct ScaledPoint {
    pub x: i64,
    pub y: i64,
}

/// The data of one perspective warp: the square `(0,0)-(side,0)-(side,side)-(0,side)`
/// is carried onto the four destination corners, each of which is the stored
/// numerator pair divided by `den`.
#[derive(Clone, Copy, Debug, PartialEq, Eq, Structural)]
pub struct ControlPoints {
    pub side: u32,
    pub top_left: ScaledPoint,
    pub top_right: ScaledPoint,
    pub bottom_right: ScaledPoint,
    pub bottom_left: ScaledPoint,
    pub den: u32,
}

impl Point {
    pub fn new(x: i32, y: i32) -> (p: Point)
        ensures
            p == (Point { x, y }),
    {
        Point { x, y }
    }

    /// The point multiplied by the numerator of `scale`.
    pub open spec fn scaled(&self, scale: Scale) -> ScaledPoint {
        ScaledPoint {
            x: (self.x as int * scale.num as int) as i64,
            y: (self.y as int * scale.num as int) as i64,
        }
    }

    /// Multiplies both coordinates by the numerator of `scale`; the product
    /// of a 32-bit coordinate and a 32-bit numerator always fits.
    pub fn scale_by(&self, scale: Scale) -> (p: ScaledPoint)
        ensures
            p == self.scaled(scale),
            p.x as int == self.x as int * scale.num as int,
            p.y as int == self.y as int * scale.num as int,
    {
        proof {
            lemma_product_fits(self.x as int, scale.num as int);
            lemma_product_fits(self.y as int, scale.num as int);
        }
        ScaledPoint { x: (self.x as i64) * (scale.num as i64), y: (self.y as i64) * (scale.num as i64) }
    }
}

/// The product of a signed 32-bit value and an unsigned 32-bit value lies
/// within the signed 64-bit range.
pub proof fn lemma_product_fits(a: int, b: int)
    requires
        -0x8000_0000 <= a <= 0x7fff_ffff,
        0 <= b <= 0xffff_ffff,
    ensures
        -0x8000_0000_0000_0000 <= a * b <= 0x7fff_ffff_ffff_ffff,
{
    assert(a * b <= 0x7fff_ffff * 0xffff_ffff) by (nonlinear_arith)
        requires
            a <= 0x7fff_ffff,
            0 <= b <= 0xffff_ffff,
    ;
    assert(a * b >= -0x8000_0000 * 0xffff_ffff) by (nonlinear_arith)
        requires
            -0x8000_0000 <= a,
            0 <= b <= 0xffff_ffff,
    ;
}

impl Scale {
    /// A scale is usable when it is a positive fraction.
    pub open spec fn wf(&self) -> bool {
        self.num > 0 && self.den > 0
    }

    /// The scale `num / den`, or `None` unless both parts are positive.
    pub fn new(num: u32, den: u32) -> (s: Option<Scale>)
        ensures
            s == (if num > 0 && den > 0 {
                Some(Scale { num, den })
            } else {
                None
            }),
    {
        if num > 0 && den > 0 {
            Some(Scale { num, den })
        } else {
            None
        }
    }

    /// The scale one: logical units are pixels.
    pub fn identity() -> (s: Scale)
        ensures
            s == (Scale { num: 1, den: 1 }),
            s.wf(),
    {
        Scale { num: 1, den: 1 }
    }

    /// The number of whole pixels that `logical` units cover at this scale:
    /// the floor of `logical * num / den`.
    pub open spec fn extent(&self, logical: u32) -> int {
        (logical as int * self.num as int) / (self.den as int)
    }

    pub fn scaled_extent(&self, logical: u32) -> (pixels: u64)
        requires
            self.wf(),
        ensures
            pixels as int == self.extent(logical),
    {
        assert(logical as int * self.num as int <= 0xffff_ffff * 0xffff_ffff) by (nonlinear_arith)
            requires
                0 <= logical as int <= 0xffff_ffff,
                0 <= self.num as int <= 0xffff_ffff,
        ;
        assert(0 <= logical as int * self.num as int) by (nonlinear_arith)
            requires
                0 <= logical as int,
                0 <= self.num as int,
        ;
        let product: u64 = (logical as u64) * (self.num as u64);
        product / (self.den as u64)
    }
}

/// Extents grow with the logical size: a larger logical size never covers
/// fewer pixels.
pub proof fn lemma_extent_monotonic(scale: Scale, a: u32, b: u32)
    requires
        scale.wf(),
        a <= b,
    ensures
        0 <= scale.extent(a) <= scale.extent(b),
{
    let n = scale.num as int;
    let d = scale.den as int;
    assert(0 <= a as int * n <= b as int * n) by (nonlinear_arith)
        requires
            0 <= a as int <= b as int,
            0 < n,
    ;
    vstd::arithmetic::div_mod::lemma_div_is_ordered(a as int * n, b as int * n, d);
    vstd::arithmetic::div_mod::lemma_div_pos_is_pos(a as int * n, d);
}

impl ControlPoints {
    /// The side of the source square as a point list in the order top-left,
    /// top-right, bottom-right, bottom-left.
    pub open spec fn source_points(&self) -> Seq<(int, int)> {
        seq![
            (0int, 0int),
            (self.side as int, 0int),
            (self.side as int, self.side as int),
            (0int, self.side as int),
        ]
    }

    /// The destination numerators in the same corner order.
    pub open spec fn destination_points(&self) -> Seq<(int, int)> {
        seq![
            (self.top_left.x as int, self.top_left.y as int),
            (self.top_right.x as int, self.top_right.y as int),
            (self.bottom_right.x as int, self.bottom_right.y as int),
            (self.bottom_left.x as int, self.bottom_left.y as int),
        ]
    }
}

} // verus!
