use vstd::prelude::*;

use crate::fixed::{fx_div, fx_mul, fx_sat, Fx, FX_INF, FX_NEG_INF, FX_ONE};

verus! {

/// ln(2) in fixed-point form.
pub const LN2_FX: i64 = 11629080;

/// log2(e) in fixed-point form.
pub const LOG2E_FX: i64 = 24204406;

/// Power of two over the integers.
pub open spec fn pow2i(k: nat) -> int
    decreases k,
{
    if k == 0 {
        1
    } else {
        2 * pow2i((k - 1) as nat)
    }
}

proof fn lemma_pow2i_values()
    ensures
        pow2i(24) == 0x1000000,
        pow2i(38) == 0x4000000000,
        pow2i(46) == 0x400000000000,
        pow2i(47) == 0x800000000000,
{
    reveal_with_fuel(pow2i, 48);
}

proof fn lemma_pow2i_ordered(a: nat, b: nat)
    requires
        a <= b,
    ensures
        pow2i(a) <= pow2i(b),
        pow2i(a) >= 1,
    decreases b,
{
    if b > 0 {
        if a == b {
            lemma_pow2i_ordered((a - 1) as nat, (b - 1) as nat);
        } else {
            lemma_pow2i_ordered(a, (b - 1) as nat);
        }
    }
}

/// One Horner step of the series for `e^-t`: `c - t * r / FX_ONE`.
pub open spec fn horner_step(c: int, t: int, r: int) -> int {
    c - fx_mul(t, r)
}

/// Degree-8 alternating series for `e^-t` with `t` a fixed-point value in
/// `[0, ln 2]`; coefficients are `FX_ONE / j!` rounded to nearest.
pub open spec fn exp_poly_spec(t: int) -> int {
    let r8 = 416int;
    let r7 = horner_step(3329, t, r8);
    let r6 = horner_step(23302, t, r7);
    let r5 = horner_step(139810, t, r6);
    let r4 = horner_step(699051, t, r5);
    let r3 = horner_step(2796203, t, r4);
    let r2 = horner_step(8388608, t, r3);
    let r1 = horner_step(16777216, t, r2);
    horner_step(16777216, t, r1)
}

/// `e^x` for non-positive fixed-point `x`, floored at one raw unit so the
/// result is always strictly positive, as the real exponential is.
pub open spec fn exp_spec(x: int) -> int {
    let m2 = fx_mul(-x, LOG2E_FX as int);
    let k = m2 / (FX_ONE as int);
    let f = m2 % (FX_ONE as int);
    let t = fx_mul(f, LN2_FX as int);
    if k >= 48 {
        1
    } else {
        let p = exp_poly_spec(t) / pow2i(k as nat);
        if p < 1 {
            1
        } else {
            p
        }
    }
}

/// Nonnegative fixed-point products are nonnegative and bounded by any `k`
/// with `a * b <= k * FX_ONE`.
proof fn lemma_mul_div_le(a: int, b: int, k: int)
    requires
        0 <= a,
        0 <= b,
        a < FX_INF as int,
        b < FX_INF as int,
        a * b <= k * (FX_ONE as int),
    ensures
        0 <= fx_mul(a, b) <= k,
{
    assert(a * b >= 0) by (nonlinear_arith)
        requires
            0 <= a,
            0 <= b,
    ;
    if a == 0 || b == 0 {
        assert(fx_mul(a, b) == 0);
        assert(k * (FX_ONE as int) >= 0);
        if k < 0 {
            assert(k * (FX_ONE as int) < 0) by (nonlinear_arith)
                requires
                    k < 0,
            ;
        }
    } else {
        let m = (a * b) / (FX_ONE as int);
        assert(fx_mul(a, b) == fx_sat(m));
        vstd::arithmetic::div_mod::lemma_multiply_divide_le(a * b, FX_ONE as int, k);
        vstd::arithmetic::div_mod::lemma_div_pos_is_pos(a * b, FX_ONE as int);
    }
}

/// The fixed-point product of nonnegative values is nonnegative.
proof fn lemma_fx_mul_nonneg(a: int, b: int)
    requires
        0 <= a,
        0 <= b,
    ensures
        0 <= fx_mul(a, b),
{
    if a != 0 && b != 0 {
        assert(a * b >= 0) by (nonlinear_arith)
            requires
                0 <= a,
                0 <= b,
        ;
        vstd::arithmetic::div_mod::lemma_div_pos_is_pos(a * b, FX_ONE as int);
    }
}

fn mul_raw(a: i64, b: i64) -> (r: i64)
    ensures
        r as int == fx_mul(a as int, b as int),
{
    Fx { bits: a }.mul(Fx { bits: b }).bits
}

fn pow2_exec(k: i64) -> (r: i64)
    requires
        0 <= k < 48,
    ensures
        r as int == pow2i(k as nat),
        r >= 1,
{
    let mut d: i64 = 1;
    let mut j: i64 = 0;
    proof {
        lemma_pow2i_ordered(0, 47);
    }
    while j < k
        invariant
            0 <= j <= k < 48,
            d as int == pow2i(j as nat),
            1 <= d as int <= pow2i(47),
        decreases k - j,
    {
        proof {
            lemma_pow2i_values();
            assert(pow2i((j + 1) as nat) == 2 * pow2i(j as nat));
            lemma_pow2i_ordered((j + 1) as nat, 47);
        }
        d = d * 2;
        j = j + 1;
    }
    d
}

/// `e^x` for non-positive `x`, in `[1, FX_ONE]` raw units.
pub fn exp_fx(x: i64) -> (r: i64)
    requires
        FX_NEG_INF as int <= x <= 0,
    ensures
        r as int == exp_spec(x as int),
        1 <= r <= FX_ONE,
{
    let m2 = mul_raw(-x, LOG2E_FX);
    proof {
        lemma_fx_mul_nonneg(-x as int, LOG2E_FX as int);
    }
    let k = m2 / FX_ONE;
    let f = m2 % FX_ONE;
    let t = mul_raw(f, LN2_FX);
    assert(0 <= t <= LN2_FX as int) by {
        assert(0 <= f < FX_ONE as int);
        assert((f as int) * (LN2_FX as int) <= (LN2_FX as int) * (FX_ONE as int))
            by (nonlinear_arith)
            requires
                0 <= f as int <= FX_ONE as int,
        ;
        lemma_mul_div_le(f as int, LN2_FX as int, LN2_FX as int);
    }
    if k >= 48 {
        return 1;
    }
    let r8: i64 = 416;
    let m8 = mul_raw(t, r8);
    proof {
        assert((t as int) * 416 <= 289 * (FX_ONE as int)) by (nonlinear_arith)
            requires
                0 <= t as int <= 11629080,
        ;
        lemma_mul_div_le(t as int, 416, 289);
    }
    let r7: i64 = 3329 - m8;
    let m7 = mul_raw(t, r7);
    proof {
        assert((t as int) * (r7 as int) <= 2308 * (FX_ONE as int)) by (nonlinear_arith)
            requires
                0 <= t as int <= 11629080,
                0 <= r7 as int <= 3329,
        ;
        lemma_mul_div_le(t as int, r7 as int, 2308);
    }
    let r6: i64 = 23302 - m7;
    let m6 = mul_raw(t, r6);
    proof {
        assert((t as int) * (r6 as int) <= 16152 * (FX_ONE as int)) by (nonlinear_arith)
            requires
                0 <= t as int <= 11629080,
                0 <= r6 as int <= 23302,
        ;
        lemma_mul_div_le(t as int, r6 as int, 16152);
    }
    let r5: i64 = 139810 - m6;
    let m5 = mul_raw(t, r5);
    proof {
        assert((t as int) * (r5 as int) <= 96909 * (FX_ONE as int)) by (nonlinear_arith)
            requires
                0 <= t as int <= 11629080,
                0 <= r5 as int <= 139810,
        ;
        lemma_mul_div_le(t as int, r5 as int, 96909);
    }
    let r4: i64 = 699051 - m5;
    let m4 = mul_raw(t, r4);
    proof {
        assert((t as int) * (r4 as int) <= 484546 * (FX_ONE as int)) by (nonlinear_arith)
            requires
                0 <= t as int <= 11629080,
                0 <= r4 as int <= 699051,
        ;
        lemma_mul_div_le(t as int, r4 as int, 484546);
    }
    let r3: i64 = 2796203 - m4;
    let m3 = mul_raw(t, r3);
    proof {
        assert((t as int) * (r3 as int) <= 1938181 * (FX_ONE as int)) by (nonlinear_arith)
            requires
                0 <= t as int <= 11629080,
                0 <= r3 as int <= 2796203,
        ;
        lemma_mul_div_le(t as int, r3 as int, 1938181);
    }
    let r2: i64 = 8388608 - m3;
    let m2p = mul_raw(t, r2);
    proof {
        assert((t as int) * (r2 as int) <= 5814540 * (FX_ONE as int)) by (nonlinear_arith)
            requires
                0 <= t as int <= 11629080,
                0 <= r2 as int <= 8388608,
        ;
        lemma_mul_div_le(t as int, r2 as int, 5814540);
    }
    let r1: i64 = 16777216 - m2p;
    let m1 = mul_raw(t, r1);
    proof {
        assert((t as int) * (r1 as int) <= 11629080 * (FX_ONE as int)) by (nonlinear_arith)
            requires
                0 <= t as int <= 11629080,
                0 <= r1 as int <= 16777216,
        ;
        lemma_mul_div_le(t as int, r1 as int, 11629080);
    }
    let p: i64 = 16777216 - m1;
    assert(p as int == exp_poly_spec(t as int));
    assert(5148136 <= p <= FX_ONE);
    let d = pow2_exec(k);
    let q = p / d;
    assert(0 <= q as int <= p as int) by {
        vstd::arithmetic::div_mod::lemma_div_pos_is_pos(p as int, d as int);
        vstd::arithmetic::div_mod::lemma_div_is_ordered_by_denominator(p as int, 1, d as int);
    }
    if q < 1 {
        1
    } else {
        q
    }
}

/// The exponential of zero is exactly one.
pub proof fn lemma_exp_spec_zero()
    ensures
        exp_spec(0) == FX_ONE as int,
{
    assert(fx_mul(0, LOG2E_FX as int) == 0);
    assert(exp_poly_spec(0) == 16777216) by {
        assert(fx_mul(0, 416) == 0);
    }
    assert(pow2i(0) == 1);
    assert(exp_poly_spec(0) / pow2i(0) == 16777216);
}

/// Doubling `x` until it reaches `[FX_ONE, ..)`: the normalized mantissa.
pub open spec fn up_y(x: int) -> int
    decreases 2 * FX_ONE as int - x when 1 <= x
{
    if x >= FX_ONE as int {
        x
    } else {
        up_y(2 * x)
    }
}

/// Number of doublings applied by `up_y`.
pub open spec fn up_e(x: int) -> int
    decreases 2 * FX_ONE as int - x when 1 <= x
{
    if x >= FX_ONE as int {
        0
    } else {
        1 + up_e(2 * x)
    }
}

/// Halving `x` until it falls below `2 * FX_ONE`.
pub open spec fn down_y(x: int) -> int
    decreases x when x >= 1
{
    if x < 2 * FX_ONE as int {
        x
    } else {
        down_y(x / 2)
    }
}

/// Number of halvings applied by `down_y`.
pub open spec fn down_e(x: int) -> int
    decreases x when x >= 1
{
    if x < 2 * FX_ONE as int {
        0
    } else {
        1 + down_e(x / 2)
    }
}

/// Square-and-compare extraction of `n` fractional bits of `log2(y / FX_ONE)`
/// for a mantissa `y` in `[FX_ONE, 2 * FX_ONE)`.
pub open spec fn lg_frac_spec(y: int, n: nat) -> int
    decreases n,
{
    if n == 0 {
        0
    } else {
        let y2 = (y * y) / (FX_ONE as int);
        if y2 >= 2 * FX_ONE as int {
            pow2i((n - 1) as nat) + lg_frac_spec(y2 / 2, (n - 1) as nat)
        } else {
            lg_frac_spec(y2, (n - 1) as nat)
        }
    }
}

/// `log2(x / FX_ONE)` in fixed-point form, for positive `x`.
pub open spec fn lg_spec(x: int) -> int {
    if x < FX_ONE as int {
        (-up_e(x)) * (FX_ONE as int) + lg_frac_spec(up_y(x), 24)
    } else {
        down_e(x) * (FX_ONE as int) + lg_frac_spec(down_y(x), 24)
    }
}

/// `ln(x / FX_ONE)` in fixed-point form, for positive `x`.
pub open spec fn ln_spec(x: int) -> int {
    fx_mul(lg_spec(x), LN2_FX as int)
}

proof fn lemma_lg_frac_bounds(y: int, n: nat)
    requires
        FX_ONE as int <= y < 2 * FX_ONE as int,
    ensures
        0 <= lg_frac_spec(y, n) < pow2i(n),
    decreases n,
{
    if n > 0 {
        let y2 = (y * y) / (FX_ONE as int);
        lemma_square_range(y);
        if y2 >= 2 * FX_ONE as int {
            lemma_lg_frac_bounds(y2 / 2, (n - 1) as nat);
        } else {
            lemma_lg_frac_bounds(y2, (n - 1) as nat);
        }
        lemma_pow2i_ordered((n - 1) as nat, n);
    }
}

/// The squared mantissa, rescaled, stays within `[FX_ONE, 4 * FX_ONE)`,
/// and halving the upper half lands back inside `[FX_ONE, 2 * FX_ONE)`.
proof fn lemma_square_range(y: int)
    requires
        FX_ONE as int <= y < 2 * FX_ONE as int,
    ensures
        FX_ONE as int <= (y * y) / (FX_ONE as int) < 4 * FX_ONE as int,
        (y * y) / (FX_ONE as int) >= 2 * FX_ONE as int ==> FX_ONE as int <= ((y * y) / (
        FX_ONE as int)) / 2 < 2 * FX_ONE as int,
{
    let one = FX_ONE as int;
    assert(y * y >= one * one) by (nonlinear_arith)
        requires
            y >= one > 0,
    ;
    assert(y * y < (4 * one) * one) by (nonlinear_arith)
        requires
            0 < y < 2 * one,
    ;
    vstd::arithmetic::div_mod::lemma_div_by_multiple(one, one);
    vstd::arithmetic::div_mod::lemma_div_is_ordered(one * one, y * y, one);
    vstd::arithmetic::div_mod::lemma_multiply_divide_lt(y * y, one, 4 * one);
}

/// `down_e` and `down_y` of a positive 63-bit value: at most 38 halvings,
/// and the result is normalized (or already small).
proof fn lemma_down_props(x: int)
    requires
        1 <= x < 0x8000000000000000,
    ensures
        0 <= down_e(x) <= 38,
        down_y(x) * pow2i(down_e(x) as nat) <= x,
        FX_ONE as int <= down_y(x) < 2 * FX_ONE as int || (down_y(x) == x && x < 2 * FX_ONE as int),
    decreases x,
{
    if x < 2 * FX_ONE as int {
    } else {
        lemma_down_props(x / 2);
        assert(x / 2 >= FX_ONE as int);
        let e1 = down_e(x / 2);
        assert(down_e(x) == 1 + e1);
        assert(down_y(x) == down_y(x / 2));
        assert(pow2i((e1 + 1) as nat) == 2 * pow2i(e1 as nat));
        assert(down_y(x) * pow2i((e1 + 1) as nat) <= 2 * (x / 2)) by (nonlinear_arith)
            requires
                down_y(x) * pow2i(e1 as nat) <= x / 2,
                pow2i((e1 + 1) as nat) == 2 * pow2i(e1 as nat),
        ;
        if down_e(x) > 38 {
            assert(e1 == 38);
            assert(down_y(x / 2) >= FX_ONE as int);
            lemma_pow2i_values();
            assert(down_y(x / 2) * pow2i(38) >= 0x1000000 * 0x4000000000) by (nonlinear_arith)
                requires
                    down_y(x / 2) >= 0x1000000,
                    pow2i(38) == 0x4000000000,
            ;
            assert(false);
        }
    }
}

/// `down_e` is nonnegative.
proof fn lemma_down_e_nonneg(x: int)
    requires
        1 <= x,
    ensures
        down_e(x) >= 0,
    decreases x,
{
    if x >= 2 * FX_ONE as int {
        lemma_down_e_nonneg(x / 2);
    }
}

fn lg_frac_exec(y0: i64) -> (r: i64)
    requires
        FX_ONE as int <= y0 < 2 * FX_ONE as int,
    ensures
        r as int == lg_frac_spec(y0 as int, 24),
        0 <= r < FX_ONE,
{
    let mut y: i64 = y0;
    let mut r: i64 = 0;
    let mut i: i64 = 0;
    proof {
        lemma_pow2i_values();
        lemma_pow2i_ordered(0, 24);
    }
    while i < 24
        invariant
            0 <= i <= 24,
            FX_ONE as int <= y < 2 * FX_ONE as int,
            0 <= r < pow2i(i as nat),
            pow2i(i as nat) <= pow2i(24),
            pow2i(24) == 0x1000000,
            lg_frac_spec(y0 as int, 24) == r * pow2i((24 - i) as nat) + lg_frac_spec(
                y as int,
                (24 - i) as nat,
            ),
        decreases 24 - i,
    {
        proof {
            lemma_square_range(y as int);
        }
        let y2 = (y * y) / FX_ONE;
        let ghost n = (24 - i) as nat;
        proof {
            lemma_pow2i_ordered((n - 1) as nat, n);
            lemma_lg_frac_bounds(y as int, n);
            lemma_pow2i_values();
            lemma_pow2i_ordered((i + 1) as nat, 24);
        }
        if y2 >= 2 * FX_ONE {
            y = y2 / 2;
            proof {
                assert((2 * r + 1) * pow2i((n - 1) as nat) == r * pow2i(n) + pow2i((n - 1) as nat))
                    by (nonlinear_arith)
                    requires
                        pow2i(n) == 2 * pow2i((n - 1) as nat),
                ;
            }
            r = 2 * r + 1;
        } else {
            y = y2;
            proof {
                assert((2 * r) * pow2i((n - 1) as nat) == r * pow2i(n)) by (nonlinear_arith)
                    requires
                        pow2i(n) == 2 * pow2i((n - 1) as nat),
                ;
            }
            r = 2 * r;
        }
        i = i + 1;
    }
    proof {
        assert(pow2i(0) == 1);
        assert(lg_frac_spec(y as int, 0) == 0);
        assert(r as int * pow2i(0) == r as int) by (nonlinear_arith)
            requires
                pow2i(0) == 1,
        ;
    }
    r
}

/// `log2` of a positive fixed-point value.
pub fn lg_fx(x: i64) -> (r: i64)
    requires
        1 <= x,
    ensures
        r as int == lg_spec(x as int),
        -25 * (FX_ONE as int) <= r as int,
        (r as int) < 40 * (FX_ONE as int),
{
    let mut y: i64 = x;
    let mut e: i64 = 0;
    if x < FX_ONE {
        while y < FX_ONE
            invariant
                1 <= y,
                (y as int) < 2 * (FX_ONE as int),
                y as int == x as int * pow2i(e as nat),
                up_y(x as int) == up_y(y as int),
                up_e(x as int) == e + up_e(y as int),
                0 <= e <= 24,
                1 <= x as int,
                (x as int) < FX_ONE as int,
            decreases 2 * FX_ONE as int - y,
        {
            proof {
                lemma_pow2i_ordered(e as nat, (e + 1) as nat);
                assert(2 * (y as int) == x as int * pow2i((e + 1) as nat)) by (nonlinear_arith)
                    requires
                        y as int == x as int * pow2i(e as nat),
                        pow2i((e + 1) as nat) == 2 * pow2i(e as nat),
                ;
                if e >= 24 {
                    lemma_pow2i_ordered(24, e as nat);
                    lemma_pow2i_values();
                    assert(x as int * pow2i(e as nat) >= 0x1000000) by (nonlinear_arith)
                        requires
                            x as int >= 1,
                            pow2i(e as nat) >= 0x1000000,
                    ;
                    assert(false);
                }
            }
            y = y * 2;
            e = e + 1;
        }
        assert(up_y(x as int) == y as int);
        assert(up_e(x as int) == e as int);
        proof {
            lemma_lg_frac_bounds(y as int, 24);
            lemma_pow2i_values();
        }
        let frac = lg_frac_exec(y);
        return -e * FX_ONE + frac;
    }
    proof {
        lemma_down_props(x as int);
        lemma_down_e_nonneg(x as int);
    }
    while y >= 2 * FX_ONE
        invariant
            1 <= y <= x,
            down_y(x as int) == down_y(y as int),
            down_e(x as int) == e + down_e(y as int),
            0 <= e,
            down_e(x as int) <= 38,
            down_e(y as int) >= 0,
        decreases y,
    {
        proof {
            lemma_down_e_nonneg((y as int) / 2);
        }
        y = y / 2;
        e = e + 1;
    }
    assert(down_y(x as int) == y as int);
    assert(down_e(x as int) == e as int);
    assert(e <= 38);
    proof {
        lemma_lg_frac_bounds(y as int, 24);
        lemma_pow2i_values();
    }
    let frac = lg_frac_exec(y);
    e * FX_ONE + frac
}

/// `ln` of a positive fixed-point value.
pub fn ln_fx(x: i64) -> (r: i64)
    requires
        1 <= x,
    ensures
        r as int == ln_spec(x as int),
{
    let lg = lg_fx(x);
    mul_raw(lg, LN2_FX)
}

/// `b^ex` over fixed-point values: `e^(ex * ln b)`, with the positive side
/// computed as the reciprocal of the negative side.
pub open spec fn pow_spec(b: int, ex: int) -> int {
    let t = fx_mul(ex, ln_spec(b));
    if t <= 0 {
        exp_spec(t)
    } else {
        fx_div(FX_ONE as int, exp_spec(-t))
    }
}

/// `b^ex` for positive fixed-point `b`.
pub fn pow_fx(b: i64, ex: i64) -> (r: i64)
    requires
        1 <= b,
    ensures
        r as int == pow_spec(b as int, ex as int),
        r >= 0,
{
    let lnb = ln_fx(b);
    let t = mul_raw(ex, lnb);
    if t <= 0 {
        exp_fx(t)
    } else {
        let en = exp_fx(if t >= FX_NEG_INF { -t } else { 0 });
        assert(t >= FX_NEG_INF);
        let r = Fx { bits: FX_ONE }.div(Fx { bits: en }).bits;
        assert(r as int == fx_div(FX_ONE as int, exp_spec(-t as int)));
        assert(r >= 0) by {
            assert(fx_div(FX_ONE as int, en as int) >= 0) by {
                vstd::arithmetic::div_mod::lemma_div_pos_is_pos(
                    (FX_ONE as int) * (FX_ONE as int),
                    en as int,
                );
            }
        }
        r
    }
}

} // verus!
