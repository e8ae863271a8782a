//! Exact fixed-point scalars.
//!
//! Every quantity the estimators work with (features, labels, dual
//! coefficients, kernel values, the bias) is a real number with a modest
//! magnitude.  The library represents such a number exactly as an `i64`
//! count of units of `1 / FX_SCALE`, so that every arithmetic step the
//! solver takes has a precise mathematical meaning that contracts can
//! state and proofs can rely on.
//!
//! Multiplication and division truncate toward zero, and every operation
//! saturates at `±FX_MAX` instead of overflowing; the spec functions
//! below (`fx_add`, `fx_mul`, ...) say exactly what each executable
//! operation returns, for every input.

use vstd::arithmetic::div_mod::lemma_div_multiples_vanish;
use vstd::prelude::*;

verus! {

/// Number of fixed-point units that stand for 1.0.
pub const FX_SCALE: i64 = 1_000_000_000;

/// Largest magnitude a scalar can hold; results saturate here.
pub const FX_MAX: i64 = i64::MAX;

/// Largest penalty parameter the trainers accept.  Keeping the box
/// bound this far from `FX_MAX` keeps every sum and difference of
/// box-constrained coefficients exact (no saturation).
pub const FX_C_LIMIT: i64 = 0x1fff_ffff_ffff_ffff;

/// Magnitude of an integer, kept in `int` (no `nat` cast).
pub open spec fn fx_iabs(x: int) -> int {
    if x < 0 {
        -x
    } else {
        x
    }
}

/// Clamp a mathematical result into the representable range.
pub open spec fn fx_sat(x: int) -> int {
    if x > FX_MAX {
        FX_MAX as int
    } else if x < -(FX_MAX as int) {
        -(FX_MAX as int)
    } else {
        x
    }
}

/// What `Fx::add` returns.
pub open spec fn fx_add(a: int, b: int) -> int {
    fx_sat(a + b)
}

/// What `Fx::sub` returns.
pub open spec fn fx_sub(a: int, b: int) -> int {
    fx_sat(a - b)
}

/// What `Fx::neg` returns.
pub open spec fn fx_neg(a: int) -> int {
    fx_sat(-a)
}

/// What `Fx::abs` returns.
pub open spec fn fx_abs(a: int) -> int {
    fx_sat(fx_iabs(a))
}

/// What `Fx::mul` returns: the product of the magnitudes, scaled back
/// down with truncation toward zero, then signed and saturated.
pub open spec fn fx_mul(a: int, b: int) -> int {
    let m = (fx_iabs(a) * fx_iabs(b)) / (FX_SCALE as int);
    if (a < 0) == (b < 0) {
        fx_sat(m)
    } else {
        fx_sat(-m)
    }
}

/// What `Fx::div` returns (meaningful only for `b != 0`): the scaled
/// quotient of the magnitudes, truncated toward zero, signed, saturated.
pub open spec fn fx_div(a: int, b: int) -> int {
    let m = (fx_iabs(a) * (FX_SCALE as int)) / fx_iabs(b);
    if (a < 0) == (b < 0) {
        fx_sat(m)
    } else {
        fx_sat(-m)
    }
}

/// The smaller of two values.
pub open spec fn fx_min(a: int, b: int) -> int {
    if a <= b {
        a
    } else {
        b
    }
}

/// The larger of two values.
pub open spec fn fx_max(a: int, b: int) -> int {
    if a >= b {
        a
    } else {
        b
    }
}

/// The values a sequence of scalars stands for.
pub open spec fn fx_seq(s: Seq<Fx>) -> Seq<int> {
    Seq::new(s.len(), |i: int| s[i]@)
}

/// A fixed-point scalar: `v` counts units of `1 / FX_SCALE`.
#[derive(Clone, Copy, PartialEq, Eq, Structural, Debug)]
pub struct Fx {
    pub v: i64,
}

impl View for Fx {
    type V = int;

    open spec fn view(&self) -> int {
        self.v as int
    }
}

/// Saturate a wide intermediate result into an `i64`.
fn fx_sat_i128(x: i128) -> (r: i64)
    ensures
        r as int == fx_sat(x as int),
{
    if x > FX_MAX as i128 {
        FX_MAX
    } else if x < -(FX_MAX as i128) {
        -FX_MAX
    } else {
        x as i64
    }
}

/// Magnitude of an `i64`, widened so that `i64::MIN` poses no problem.
fn fx_abs_u128(v: i64) -> (r: u128)
    ensures
        r as int == fx_iabs(v as int),
{
    let w: i128 = v as i128;
    if w < 0 {
        (-w) as u128
    } else {
        w as u128
    }
}

impl Fx {
    /// The scalar 0.
    pub fn zero() -> (r: Fx)
        ensures
            r@ == 0,
    {
        Fx { v: 0 }
    }

    /// The scalar 1.
    pub fn one() -> (r: Fx)
        ensures
            r@ == FX_SCALE,
    {
        Fx { v: FX_SCALE }
    }

    /// A scalar from a raw unit count (`v / FX_SCALE` as a real number).
    pub fn from_raw(v: i64) -> (r: Fx)
        ensures
            r@ == v,
    {
        Fx { v }
    }

    /// A scalar from a whole number, saturating on overflow.
    pub fn from_int(u: i64) -> (r: Fx)
        ensures
            r@ == fx_sat(u * (FX_SCALE as int)),
    {
        proof {
            assert((u as i128) * (FX_SCALE as i128) == u * (FX_SCALE as int)) by (nonlinear_arith);
        }
        let s: i128 = (u as i128) * (FX_SCALE as i128);
        Fx { v: fx_sat_i128(s) }
    }

    /// The raw unit count.
    pub fn raw(self) -> (r: i64)
        ensures
            r as int == self@,
    {
        self.v
    }

    /// Saturating addition.
    pub fn add(self, o: Fx) -> (r: Fx)
        ensures
            r@ == fx_add(self@, o@),
    {
        let s: i128 = self.v as i128 + o.v as i128;
        Fx { v: fx_sat_i128(s) }
    }

    /// Saturating subtraction.
    pub fn sub(self, o: Fx) -> (r: Fx)
        ensures
            r@ == fx_sub(self@, o@),
    {
        let s: i128 = self.v as i128 - o.v as i128;
        Fx { v: fx_sat_i128(s) }
    }

    /// Saturating negation.
    pub fn neg(self) -> (r: Fx)
        ensures
            r@ == fx_neg(self@),
    {
        if self.v == i64::MIN {
            Fx { v: FX_MAX }
        } else {
            Fx { v: -self.v }
        }
    }

    /// Saturating absolute value.
    pub fn abs(self) -> (r: Fx)
        ensures
            r@ == fx_abs(self@),
    {
        if self.v < 0 {
            self.neg()
        } else {
            self
        }
    }

    /// Saturating truncated multiplication.
    pub fn mul(self, o: Fx) -> (r: Fx)
        ensures
            r@ == fx_mul(self@, o@),
    {
        let neg: bool = (self.v < 0) != (o.v < 0);
        let ua: u128 = fx_abs_u128(self.v);
        let ub: u128 = fx_abs_u128(o.v);
        proof {
            assert(ua as int * ub as int <= 0x8000_0000_0000_0000int * 0x8000_0000_0000_0000int)
                by (nonlinear_arith)
                requires
                    0 <= ua as int <= 0x8000_0000_0000_0000int,
                    0 <= ub as int <= 0x8000_0000_0000_0000int,
            ;
        }
        let p: u128 = ua * ub;
        let q: u128 = p / (FX_SCALE as u128);
        let m: i64 = if q > FX_MAX as u128 {
            FX_MAX
        } else {
            q as i64
        };
        if neg {
            Fx { v: -m }
        } else {
            Fx { v: m }
        }
    }

    /// Saturating truncated division.
    pub fn div(self, o: Fx) -> (r: Fx)
        requires
            o@ != 0,
        ensures
            r@ == fx_div(self@, o@),
    {
        let neg: bool = (self.v < 0) != (o.v < 0);
        let ua: u128 = fx_abs_u128(self.v);
        let ub: u128 = fx_abs_u128(o.v);
        proof {
            assert(ua as int * (FX_SCALE as int) <= 0x8000_0000_0000_0000int * (FX_SCALE as int))
                by (nonlinear_arith)
                requires
                    0 <= ua as int <= 0x8000_0000_0000_0000int,
            ;
        }
        let p: u128 = ua * (FX_SCALE as u128);
        let q: u128 = p / ub;
        let m: i64 = if q > FX_MAX as u128 {
            FX_MAX
        } else {
            q as i64
        };
        if neg {
            Fx { v: -m }
        } else {
            Fx { v: m }
        }
    }

    /// The smaller of two scalars.
    pub fn min(self, o: Fx) -> (r: Fx)
        ensures
            r@ == fx_min(self@, o@),
    {
        if self.v <= o.v {
            self
        } else {
            o
        }
    }

    /// The larger of two scalars.
    pub fn max(self, o: Fx) -> (r: Fx)
        ensures
            r@ == fx_max(self@, o@),
    {
        if self.v >= o.v {
            self
        } else {
            o
        }
    }
}

/// Multiplying by `±1.0` is exact: it returns the other factor, up to sign.
pub proof fn lemma_fx_mul_sign(s: int, x: int)
    requires
        s == FX_SCALE || s == -(FX_SCALE as int),
        -(FX_MAX as int) <= x <= FX_MAX as int,
    ensures
        fx_mul(s, x) == if s == FX_SCALE {
            x
        } else {
            -x
        },
{
    lemma_div_multiples_vanish(fx_iabs(x), FX_SCALE as int);
    assert(fx_iabs(s) * fx_iabs(x) == (FX_SCALE as int) * fx_iabs(x));
}

/// Dividing by `±1.0` is exact: it returns the dividend, up to sign.
pub proof fn lemma_fx_div_sign(x: int, s: int)
    requires
        s == FX_SCALE || s == -(FX_SCALE as int),
        -(FX_MAX as int) <= x <= FX_MAX as int,
    ensures
        fx_div(x, s) == if s == FX_SCALE {
            x
        } else {
            -x
        },
{
    lemma_div_multiples_vanish(fx_iabs(x), FX_SCALE as int);
    assert(fx_iabs(x) * (FX_SCALE as int) == (FX_SCALE as int) * fx_iabs(x));
}

/// Fixed-point multiplication is commutative.
pub proof fn lemma_fx_mul_comm(a: int, b: int)
    ensures
        fx_mul(a, b) == fx_mul(b, a),
{
    assert(fx_iabs(a) * fx_iabs(b) == fx_iabs(b) * fx_iabs(a));
}

} // verus!
