use vstd::prelude::*;

verus! {

/// Number of fractional bits in the fixed-point score representation.
pub const FX_FRAC_BITS: u32 = 24;

/// The fixed-point representation of 1.0: `1 << FX_FRAC_BITS`.
pub const FX_ONE: i64 = 16777216;

/// Saturation point standing for positive infinity.
pub const FX_INF: i64 = i64::MAX;

/// Saturation point standing for negative infinity.
pub const FX_NEG_INF: i64 = -9223372036854775807;

/// Reserved bit pattern standing for an invalid score ("not a number").
/// Arithmetic never produces it; it only enters through raw conversion at
/// the boundary and is rejected when a logits collection is built.
pub const FX_NAN: i64 = i64::MIN;

/// Clamp a mathematical integer into the representable range
/// `[FX_NEG_INF, FX_INF]`.
pub open spec fn fx_sat(x: int) -> int {
    if x > FX_INF as int {
        FX_INF as int
    } else if x < FX_NEG_INF as int {
        FX_NEG_INF as int
    } else {
        x
    }
}

/// Absolute value over mathematical integers.
pub open spec fn abs_i(x: int) -> int {
    if x < 0 {
        -x
    } else {
        x
    }
}

/// Whether a raw value is one of the two saturation points, which behave
/// as the real line's infinities under arithmetic.
pub open spec fn fx_is_inf(a: int) -> bool {
    a == FX_INF as int || a == FX_NEG_INF as int
}

/// Addition: the saturation points absorb (opposite ones cancel to zero),
/// and finite sums saturate.
pub open spec fn fx_add(a: int, b: int) -> int {
    if a == FX_INF as int || b == FX_INF as int {
        if a == FX_NEG_INF as int || b == FX_NEG_INF as int {
            0
        } else {
            FX_INF as int
        }
    } else if a == FX_NEG_INF as int || b == FX_NEG_INF as int {
        FX_NEG_INF as int
    } else {
        fx_sat(a + b)
    }
}

/// Subtraction: the saturation points absorb (matching ones cancel to
/// zero), and finite differences saturate.
pub open spec fn fx_sub(a: int, b: int) -> int {
    if a == FX_INF as int || b == FX_NEG_INF as int {
        if a == FX_NEG_INF as int || b == FX_INF as int {
            0
        } else {
            FX_INF as int
        }
    } else if a == FX_NEG_INF as int || b == FX_INF as int {
        FX_NEG_INF as int
    } else {
        fx_sat(a - b)
    }
}

/// Product: `a * b / FX_ONE`, truncated toward zero and saturating; a
/// saturation point absorbs any nonzero partner, by sign.
pub open spec fn fx_mul(a: int, b: int) -> int {
    if a == 0 || b == 0 {
        0
    } else if fx_is_inf(a) || fx_is_inf(b) {
        if (a < 0) == (b < 0) {
            FX_INF as int
        } else {
            FX_NEG_INF as int
        }
    } else {
        let m = (abs_i(a) * abs_i(b)) / (FX_ONE as int);
        if (a < 0) == (b < 0) {
            fx_sat(m)
        } else {
            fx_sat(-m)
        }
    }
}

/// Quotient: `a * FX_ONE / b`, truncated toward zero and saturating.
/// Division by zero saturates by the sign of the numerator; a saturated
/// numerator absorbs, and a saturated denominator yields zero.
pub open spec fn fx_div(a: int, b: int) -> int {
    if b == 0 {
        if a > 0 {
            FX_INF as int
        } else if a < 0 {
            FX_NEG_INF as int
        } else {
            0
        }
    } else if a == 0 {
        0
    } else if fx_is_inf(a) {
        if (a < 0) == (b < 0) {
            FX_INF as int
        } else {
            FX_NEG_INF as int
        }
    } else if fx_is_inf(b) {
        0
    } else {
        let m = (abs_i(a) * (FX_ONE as int)) / abs_i(b);
        if (a < 0) == (b < 0) {
            fx_sat(m)
        } else {
            fx_sat(-m)
        }
    }
}

/// A score value in signed 64-bit fixed-point form with `FX_FRAC_BITS`
/// fractional bits. It stands in for the real-valued logits and
/// probabilities of the sampling pipeline; `FX_INF` / `FX_NEG_INF` are
/// saturation points playing the role of the infinities.
#[derive(Clone, Copy, PartialEq, Eq, Structural, Debug)]
pub struct Fx {
    pub bits: i64,
}

fn self_neg(v: Fx) -> (r: Fx)
    ensures
        r.bits as int == fx_sub(0, v.bits as int),
{
    if v.bits == FX_INF {
        Fx { bits: FX_NEG_INF }
    } else if v.bits == FX_NEG_INF {
        Fx { bits: FX_INF }
    } else {
        let s: i128 = 0i128 - v.bits as i128;
        Fx { bits: clamp_i128(s) }
    }
}

fn clamp_i128(x: i128) -> (r: i64)
    ensures
        r as int == fx_sat(x as int),
{
    if x > FX_INF as i128 {
        FX_INF
    } else if x < FX_NEG_INF as i128 {
        FX_NEG_INF
    } else {
        x as i64
    }
}

impl Fx {
    /// Build a value directly from its raw fixed-point bit pattern.
    pub fn from_raw(bits: i64) -> (r: Fx)
        ensures
            r.bits == bits,
    {
        Fx { bits }
    }

    /// The raw fixed-point bit pattern.
    pub fn raw(self) -> (r: i64)
        ensures
            r == self.bits,
    {
        self.bits
    }

    pub fn zero() -> (r: Fx)
        ensures
            r.bits == 0,
    {
        Fx { bits: 0 }
    }

    pub fn one() -> (r: Fx)
        ensures
            r.bits == FX_ONE,
    {
        Fx { bits: FX_ONE }
    }

    pub fn inf() -> (r: Fx)
        ensures
            r.bits == FX_INF,
    {
        Fx { bits: FX_INF }
    }

    pub fn neg_inf() -> (r: Fx)
        ensures
            r.bits == FX_NEG_INF,
    {
        Fx { bits: FX_NEG_INF }
    }

    pub fn nan() -> (r: Fx)
        ensures
            r.bits == FX_NAN,
    {
        Fx { bits: FX_NAN }
    }

    pub open spec fn spec_is_nan(self) -> bool {
        self.bits == FX_NAN
    }

    #[verifier::when_used_as_spec(spec_is_nan)]
    pub fn is_nan(self) -> (r: bool)
        ensures
            r == self.spec_is_nan(),
    {
        self.bits == FX_NAN
    }

    /// Addition, with absorbing saturation points.
    pub fn add(self, o: Fx) -> (r: Fx)
        ensures
            r.bits as int == fx_add(self.bits as int, o.bits as int),
    {
        if self.bits == FX_INF || o.bits == FX_INF {
            if self.bits == FX_NEG_INF || o.bits == FX_NEG_INF {
                return Fx { bits: 0 };
            }
            return Fx { bits: FX_INF };
        }
        if self.bits == FX_NEG_INF || o.bits == FX_NEG_INF {
            return Fx { bits: FX_NEG_INF };
        }
        let s: i128 = self.bits as i128 + o.bits as i128;
        Fx { bits: clamp_i128(s) }
    }

    /// Subtraction, with absorbing saturation points.
    pub fn sub(self, o: Fx) -> (r: Fx)
        ensures
            r.bits as int == fx_sub(self.bits as int, o.bits as int),
    {
        if self.bits == FX_INF || o.bits == FX_NEG_INF {
            if self.bits == FX_NEG_INF || o.bits == FX_INF {
                return Fx { bits: 0 };
            }
            return Fx { bits: FX_INF };
        }
        if self.bits == FX_NEG_INF || o.bits == FX_INF {
            return Fx { bits: FX_NEG_INF };
        }
        let s: i128 = self.bits as i128 - o.bits as i128;
        Fx { bits: clamp_i128(s) }
    }

    /// Negation.
    pub fn neg(self) -> (r: Fx)
        ensures
            r.bits as int == fx_sub(0, self.bits as int),
    {
        self_neg(self)
    }

    /// Saturating fixed-point multiplication.
    pub fn mul(self, o: Fx) -> (r: Fx)
        ensures
            r.bits as int == fx_mul(self.bits as int, o.bits as int),
    {
        let a = self.bits;
        let b = o.bits;
        if a == 0 || b == 0 {
            return Fx { bits: 0 };
        }
        if a == FX_INF || a == FX_NEG_INF || b == FX_INF || b == FX_NEG_INF {
            return Fx {
                bits: if (a < 0) == (b < 0) {
                    FX_INF
                } else {
                    FX_NEG_INF
                },
            };
        }
        let ua: u128 = if a < 0 {
            (-(a as i128)) as u128
        } else {
            a as u128
        };
        let ub: u128 = if b < 0 {
            (-(b as i128)) as u128
        } else {
            b as u128
        };
        assert(ua as int == abs_i(a as int));
        assert(ub as int == abs_i(b as int));
        assert(ua * ub <= 0x8000000000000000u128 * 0x8000000000000000u128) by (nonlinear_arith)
            requires
                ua <= 0x8000000000000000u128,
                ub <= 0x8000000000000000u128,
        ;
        let p: u128 = ua * ub;
        let q: u128 = p / (FX_ONE as u128);
        let neg = (a < 0) != (b < 0);
        let bits = if q > FX_INF as u128 {
            if neg {
                FX_NEG_INF
            } else {
                FX_INF
            }
        } else if neg {
            -(q as i64)
        } else {
            q as i64
        };
        Fx { bits }
    }

    /// Saturating fixed-point division.
    pub fn div(self, o: Fx) -> (r: Fx)
        ensures
            r.bits as int == fx_div(self.bits as int, o.bits as int),
    {
        let a = self.bits;
        let b = o.bits;
        if b == 0 {
            return Fx {
                bits: if a > 0 {
                    FX_INF
                } else if a < 0 {
                    FX_NEG_INF
                } else {
                    0
                },
            };
        }
        if a == 0 {
            return Fx { bits: 0 };
        }
        if a == FX_INF || a == FX_NEG_INF {
            return Fx {
                bits: if (a < 0) == (b < 0) {
                    FX_INF
                } else {
                    FX_NEG_INF
                },
            };
        }
        if b == FX_INF || b == FX_NEG_INF {
            return Fx { bits: 0 };
        }
        let ua: u128 = if a < 0 {
            (-(a as i128)) as u128
        } else {
            a as u128
        };
        let ub: u128 = if b < 0 {
            (-(b as i128)) as u128
        } else {
            b as u128
        };
        assert(ua as int == abs_i(a as int));
        assert(ub as int == abs_i(b as int));
        assert(ua * (FX_ONE as u128) <= 0x8000000000000000u128 * 0x1000000u128) by (nonlinear_arith)
            requires
                ua <= 0x8000000000000000u128,
        ;
        let p: u128 = ua * (FX_ONE as u128);
        let q: u128 = p / ub;
        let neg = (a < 0) != (b < 0);
        let bits = if q > FX_INF as u128 {
            if neg {
                FX_NEG_INF
            } else {
                FX_INF
            }
        } else if neg {
            -(q as i64)
        } else {
            q as i64
        };
        Fx { bits }
    }

    /// A whole number of units, saturating at the representation's edge.
    pub fn from_uint(u: usize) -> (r: Fx)
        ensures
            r.bits as int == fx_sat(u as int * FX_ONE as int),
    {
        let p: i128 = (u as i128) * (FX_ONE as i128);
        Fx { bits: clamp_i128(p) }
    }

    /// Truncate toward negative infinity to a whole number of units,
    /// clamped into `[0, usize::MAX]`.
    pub fn to_uint_sat(self) -> (r: usize)
        ensures
            self.bits <= 0 ==> r == 0,
            self.bits > 0 ==> r as int == fx_sat_usize(self.bits as int / FX_ONE as int),
    {
        if self.bits <= 0 {
            0
        } else {
            let q: u64 = (self.bits / FX_ONE) as u64;
            if q > usize::MAX as u64 {
                usize::MAX
            } else {
                q as usize
            }
        }
    }
}

/// Dividing a value by a smaller positive value yields at least one.
pub proof fn lemma_fx_div_pos(a: int, b: int)
    requires
        1 <= b <= a,
        a <= FX_INF as int,
    ensures
        fx_div(a, b) >= FX_ONE as int,
{
    if fx_is_inf(a) {
        assert(fx_div(a, b) == FX_INF as int);
    } else {
        let m = (abs_i(a) * (FX_ONE as int)) / abs_i(b);
        assert(abs_i(a) == a && abs_i(b) == b);
        assert(b * (FX_ONE as int) <= a * (FX_ONE as int)) by (nonlinear_arith)
            requires
                1 <= b <= a,
        ;
        vstd::arithmetic::div_mod::lemma_div_is_ordered(
            b * (FX_ONE as int),
            a * (FX_ONE as int),
            b,
        );
        vstd::arithmetic::div_mod::lemma_div_by_multiple(FX_ONE as int, b);
        assert((FX_ONE as int) * b == b * (FX_ONE as int)) by (nonlinear_arith);
        assert(m >= FX_ONE as int);
        assert(fx_div(a, b) == fx_sat(m));
    }
}

/// Clamp a non-negative integer into the `usize` range.
pub open spec fn fx_sat_usize(x: int) -> int {
    if x > usize::MAX as int {
        usize::MAX as int
    } else {
        x
    }
}

} // verus!
