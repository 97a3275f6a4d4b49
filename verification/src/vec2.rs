//! 2-D vectors over saturating fixed-point scalars.
//!
//! All operators produce new values; the Euclidean length is the integer
//! square root of the exact sum of squares, so it is itself exact up to
//! truncation of the final root.

use vstd::prelude::*;
use crate::fx::{
    Fx, abs_u128, from_mag, fx, fx_clip, iabs, is_sqrt_floor, isqrt_u128, lemma_sqrt_floor_unique, spec_add,
    spec_div, spec_mul, spec_sub, sqrt_floor,
};

verus! {

/// An immutable 2-D vector of fixed-point scalars.
#[derive(Clone, Copy, PartialEq, Eq, Structural, Debug)]
pub struct Vec2D {
    pub x: Fx,
    pub y: Fx,
}

pub open spec fn spec_vadd(a: Vec2D, b: Vec2D) -> Vec2D {
    Vec2D { x: spec_add(a.x, b.x), y: spec_add(a.y, b.y) }
}

pub open spec fn spec_vsub(a: Vec2D, b: Vec2D) -> Vec2D {
    Vec2D { x: spec_sub(a.x, b.x), y: spec_sub(a.y, b.y) }
}

pub open spec fn spec_vscale(a: Vec2D, s: Fx) -> Vec2D {
    Vec2D { x: spec_mul(a.x, s), y: spec_mul(a.y, s) }
}

pub open spec fn spec_vdiv(a: Vec2D, s: Fx) -> Vec2D {
    Vec2D { x: spec_div(a.x, s), y: spec_div(a.y, s) }
}

/// The Euclidean norm: the saturated integer square root of the exact
/// sum of squared raw components.
pub open spec fn spec_vlength(a: Vec2D) -> Fx {
    fx(fx_clip(sqrt_floor(a.x.raw * a.x.raw + a.y.raw * a.y.raw)))
}

impl Vec2D {
    /// The vector with the given components.
    pub fn new(x: Fx, y: Fx) -> (r: Vec2D)
        ensures
            r == (Vec2D { x, y }),
    {
        Vec2D { x, y }
    }

    /// The zero vector.
    pub fn zero() -> (r: Vec2D)
        ensures
            r == (Vec2D { x: Fx { raw: 0 }, y: Fx { raw: 0 } }),
    {
        Vec2D { x: Fx::zero(), y: Fx::zero() }
    }

    /// Componentwise sum.
    pub fn add(self, other: Vec2D) -> (r: Vec2D)
        ensures
            r == spec_vadd(self, other),
    {
        Vec2D { x: self.x.add(other.x), y: self.y.add(other.y) }
    }

    /// Componentwise difference.
    pub fn subtract(self, other: Vec2D) -> (r: Vec2D)
        ensures
            r == spec_vsub(self, other),
    {
        Vec2D { x: self.x.sub(other.x), y: self.y.sub(other.y) }
    }

    /// Componentwise product with a scalar.
    pub fn scale(self, s: Fx) -> (r: Vec2D)
        ensures
            r == spec_vscale(self, s),
    {
        Vec2D { x: self.x.mul(s), y: self.y.mul(s) }
    }

    /// Componentwise quotient by a nonzero scalar.
    pub fn divide(self, s: Fx) -> (r: Vec2D)
        requires
            s.raw != 0,
        ensures
            r == spec_vdiv(self, s),
    {
        Vec2D { x: self.x.div(s), y: self.y.div(s) }
    }

    /// The Euclidean norm of the vector.
    pub fn length(&self) -> (r: Fx)
        ensures
            r == spec_vlength(*self),
    {
        let mx: u128 = abs_u128(self.x.raw);
        let my: u128 = abs_u128(self.y.raw);
        assert((mx as int) * (mx as int) <= 0x8000_0000_0000_0000 * 0x8000_0000_0000_0000
            && (my as int) * (my as int) <= 0x8000_0000_0000_0000 * 0x8000_0000_0000_0000)
            by (nonlinear_arith)
            requires
                0 <= (mx as int) <= 0x8000_0000_0000_0000,
                0 <= (my as int) <= 0x8000_0000_0000_0000,
        ;
        let s: u128 = mx * mx + my * my;
        let q: u128 = isqrt_u128(s);
        proof {
            assert((mx as int) * (mx as int) == (self.x.raw as int) * (self.x.raw as int)
                && (my as int) * (my as int) == (self.y.raw as int) * (self.y.raw as int))
                by (nonlinear_arith)
                requires
                    (mx as int) == iabs(self.x.raw as int),
                    (my as int) == iabs(self.y.raw as int),
            ;
            lemma_sqrt_floor_unique(s as int, q as int);
        }
        from_mag(q, false)
    }
}

} // verus!
