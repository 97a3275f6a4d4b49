//! Saturating fixed-point scalars.
//!
//! A `Fx` holds a signed count of millionths of a unit. Every operation
//! computes the mathematically exact result and then saturates it into
//! `[-FX_LIMIT, FX_LIMIT]`, so no operation can overflow or panic.
//! Multiplication and division truncate toward zero, as the corresponding
//! binary floating-point operations round their results.

use vstd::prelude::*;

verus! {

/// Raw units per whole unit: a `Fx` counts millionths.
pub const FX_SCALE: i64 = 1_000_000;

/// Largest raw magnitude a fixed-point value may hold.
pub const FX_LIMIT: i64 = 0x3fff_ffff_ffff_ffff;

/// A saturating fixed-point scalar; `raw` counts millionths of a unit.
#[derive(Clone, Copy, PartialEq, Eq, Structural, Debug)]
pub struct Fx {
    pub raw: i64,
}

/// Magnitude of an integer.
pub open spec fn iabs(n: int) -> int {
    if n < 0 {
        -n
    } else {
        n
    }
}

/// Saturation of an unbounded result into the representable range.
pub open spec fn fx_clip(v: int) -> int {
    if v > FX_LIMIT {
        FX_LIMIT as int
    } else if v < -(FX_LIMIT as int) {
        -(FX_LIMIT as int)
    } else {
        v
    }
}

/// Division truncating toward zero; unspecified when `d == 0`.
pub open spec fn tdiv(n: int, d: int) -> int {
    if (n < 0) != (d < 0) {
        -(iabs(n) / iabs(d))
    } else {
        iabs(n) / iabs(d)
    }
}

/// A `Fx` with the given raw count, which must be representable.
pub open spec fn fx(raw: int) -> Fx {
    Fx { raw: raw as i64 }
}

pub open spec fn spec_add(a: Fx, b: Fx) -> Fx {
    fx(fx_clip(a.raw + b.raw))
}

pub open spec fn spec_sub(a: Fx, b: Fx) -> Fx {
    fx(fx_clip(a.raw - b.raw))
}

pub open spec fn spec_neg(a: Fx) -> Fx {
    fx(fx_clip(-a.raw))
}

pub open spec fn spec_mul(a: Fx, b: Fx) -> Fx {
    fx(fx_clip(tdiv(a.raw * b.raw, FX_SCALE as int)))
}

pub open spec fn spec_div(a: Fx, b: Fx) -> Fx {
    fx(fx_clip(tdiv(a.raw * (FX_SCALE as int), b.raw as int)))
}

pub open spec fn spec_min(a: Fx, b: Fx) -> Fx {
    if a.raw <= b.raw {
        a
    } else {
        b
    }
}

pub open spec fn spec_max(a: Fx, b: Fx) -> Fx {
    if a.raw >= b.raw {
        a
    } else {
        b
    }
}

/// `r` is the integer square root of `n`, rounded down.
pub open spec fn is_sqrt_floor(n: int, r: int) -> bool {
    0 <= r && r * r <= n && n < (r + 1) * (r + 1)
}

/// The integer square root, rounded down; meaningful for `n >= 0`.
pub open spec fn sqrt_floor(n: int) -> int {
    choose|r: int| is_sqrt_floor(n, r)
}

pub proof fn lemma_sqrt_floor_exists(n: int)
    requires
        n >= 0,
    ensures
        is_sqrt_floor(n, sqrt_floor(n)),
    decreases n,
{
    if n == 0 {
        assert(is_sqrt_floor(0, 0));
    } else {
        lemma_sqrt_floor_exists(n - 1);
        let r = sqrt_floor(n - 1);
        if (r + 1) * (r + 1) <= n {
            assert(is_sqrt_floor(n, r + 1)) by (nonlinear_arith)
                requires
                    is_sqrt_floor(n - 1, r),
                    (r + 1) * (r + 1) <= n,
            ;
        } else {
            assert(is_sqrt_floor(n, r));
        }
    }
}

pub proof fn lemma_sqrt_floor_unique(n: int, r: int)
    requires
        is_sqrt_floor(n, r),
    ensures
        r == sqrt_floor(n),
{
    assert(n >= 0) by (nonlinear_arith)
        requires
            is_sqrt_floor(n, r),
    ;
    lemma_sqrt_floor_exists(n);
    let r2 = sqrt_floor(n);
    assert(r == r2) by (nonlinear_arith)
        requires
            is_sqrt_floor(n, r),
            is_sqrt_floor(n, r2),
    ;
}

/// Saturates an exact wide result into the raw range.
fn clip_i128(v: i128) -> (r: i64)
    ensures
        r as int == fx_clip(v as int),
{
    if v > FX_LIMIT as i128 {
        FX_LIMIT
    } else if v < -(FX_LIMIT as i128) {
        -FX_LIMIT
    } else {
        v as i64
    }
}

/// Magnitude of a raw value, exact even for `i64::MIN`.
pub(crate) fn abs_u128(x: i64) -> (r: u128)
    ensures
        r as int == iabs(x as int),
{
    if x < 0 {
        (-(x as i128)) as u128
    } else {
        x as u128
    }
}

/// Saturates a magnitude and reapplies its sign.
pub(crate) fn from_mag(q: u128, neg: bool) -> (r: Fx)
    ensures
        neg ==> r.raw as int == fx_clip(-(q as int)),
        !neg ==> r.raw as int == fx_clip(q as int),
{
    let m: i64 = if q > FX_LIMIT as u128 {
        FX_LIMIT
    } else {
        q as i64
    };
    if neg {
        Fx { raw: -m }
    } else {
        Fx { raw: m }
    }
}

proof fn lemma_mul_sign_abs(a: int, b: int)
    ensures
        iabs(a * b) == iabs(a) * iabs(b),
        ((a < 0) != (b < 0)) ==> a * b <= 0,
        ((a < 0) == (b < 0)) ==> a * b >= 0,
{
    assert(iabs(a * b) == iabs(a) * iabs(b) && (((a < 0) != (b < 0)) ==> a * b <= 0) && (((a < 0)
        == (b < 0)) ==> a * b >= 0)) by (nonlinear_arith);
}

impl Fx {
    /// The zero scalar.
    pub fn zero() -> (r: Fx)
        ensures
            r.raw == 0,
    {
        Fx { raw: 0 }
    }

    /// The scalar counting `raw` millionths of a unit.
    pub fn from_raw(raw: i64) -> (r: Fx)
        ensures
            r.raw == raw,
    {
        Fx { raw }
    }

    /// Saturating addition.
    pub fn add(self, other: Fx) -> (r: Fx)
        ensures
            r == spec_add(self, other),
    {
        let s: i128 = self.raw as i128 + other.raw as i128;
        let raw = clip_i128(s);
        Fx { raw }
    }

    /// Saturating subtraction.
    pub fn sub(self, other: Fx) -> (r: Fx)
        ensures
            r == spec_sub(self, other),
    {
        let s: i128 = self.raw as i128 - other.raw as i128;
        let raw = clip_i128(s);
        Fx { raw }
    }

    /// Saturating negation.
    pub fn neg(self) -> (r: Fx)
        ensures
            r == spec_neg(self),
    {
        let s: i128 = -(self.raw as i128);
        let raw = clip_i128(s);
        Fx { raw }
    }

    /// Saturating multiplication, truncating toward zero.
    pub fn mul(self, other: Fx) -> (r: Fx)
        ensures
            r == spec_mul(self, other),
    {
        let neg: bool = (self.raw < 0) != (other.raw < 0);
        let ma: u128 = abs_u128(self.raw);
        let mb: u128 = abs_u128(other.raw);
        assert((ma as int) * (mb as int) <= 0x8000_0000_0000_0000 * 0x8000_0000_0000_0000)
            by (nonlinear_arith)
            requires
                0 <= (ma as int) <= 0x8000_0000_0000_0000,
                0 <= (mb as int) <= 0x8000_0000_0000_0000,
        ;
        let p: u128 = ma * mb;
        let q: u128 = p / (FX_SCALE as u128);
        proof {
            lemma_mul_sign_abs(self.raw as int, other.raw as int);
        }
        from_mag(q, neg)
    }

    /// Saturating division, truncating toward zero; `other` must be nonzero.
    pub fn div(self, other: Fx) -> (r: Fx)
        requires
            other.raw != 0,
        ensures
            r == spec_div(self, other),
    {
        let neg: bool = (self.raw < 0) != (other.raw < 0);
        let ma: u128 = abs_u128(self.raw);
        let mb: u128 = abs_u128(other.raw);
        assert((ma as int) * (FX_SCALE as int) <= 0x8000_0000_0000_0000 * 0x1000_0000)
            by (nonlinear_arith)
            requires
                0 <= (ma as int) <= 0x8000_0000_0000_0000,
        ;
        let p: u128 = ma * (FX_SCALE as u128);
        let q: u128 = p / mb;
        proof {
            lemma_mul_sign_abs(self.raw as int, FX_SCALE as int);
        }
        from_mag(q, neg)
    }

    /// The smaller of two scalars.
    pub fn min(self, other: Fx) -> (r: Fx)
        ensures
            r == spec_min(self, other),
    {
        if self.raw <= other.raw {
            self
        } else {
            other
        }
    }

    /// The larger of two scalars.
    pub fn max(self, other: Fx) -> (r: Fx)
        ensures
            r == spec_max(self, other),
    {
        if self.raw >= other.raw {
            self
        } else {
            other
        }
    }
}

/// Integer square root, rounded down.
pub fn isqrt_u128(n: u128) -> (r: u128)
    ensures
        is_sqrt_floor(n as int, r as int),
{
    let mut lo: u128 = 0;
    let mut hi: u128 = 0x1_0000_0000_0000_0000;
    assert((n as int) < (hi as int) * (hi as int)) by (nonlinear_arith)
        requires
            (n as int) <= 0xffff_ffff_ffff_ffff_ffff_ffff_ffff_ffff,
            (hi as int) == 0x1_0000_0000_0000_0000,
    ;
    while lo + 1 < hi
        invariant
            lo < hi,
            hi <= 0x1_0000_0000_0000_0000,
            (lo as int) * (lo as int) <= (n as int),
            (n as int) < (hi as int) * (hi as int),
        decreases hi - lo,
    {
        let mid: u128 = lo + (hi - lo) / 2;
        assert(lo < mid < hi);
        assert((mid as int) * (mid as int) < 0xffff_ffff_ffff_ffff_ffff_ffff_ffff_ffff)
            by (nonlinear_arith)
            requires
                0 <= (mid as int) < 0x1_0000_0000_0000_0000,
        ;
        if mid * mid <= n {
            lo = mid;
        } else {
            hi = mid;
        }
    }
    lo
}

} // verus!
