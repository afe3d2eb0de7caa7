//! Error function in single precision.
//!
//! Small arguments use a series, larger ones a continued fraction. Both stop
//! once a step changes little.
use vstd::prelude::*;
use crate::arith::{compute, fp, fp_add, fp_mul, fp_neg, is_arith, negate, plus, times, FloatOp};
use crate::dtype::{f32_of_int, is_nan, u32_to_f32, ONE, QUIET_NAN};

verus! {

/// Bits of -1.
pub const MINUS_ONE: u32 = 0xBF80_0000;

/// Bits of `1/2`.
pub const HALF: u32 = 0x3F00_0000;

/// Bits of 2.
pub const TWO: u32 = 0x4000_0000;

/// Bits of `3/2`, up to which the series is used.
pub const SERIES_END: u32 = 0x3FC0_0000;

/// Bits of 5, beyond which the function is its limit.
pub const LIMIT: u32 = 0x40A0_0000;

/// Bits of the single nearest to 2 over the square root of pi.
pub const TWO_DIV_SQRT_PI: u32 = 0x3F90_6EBB;

/// Bits of the single nearest to `1e-8`, below which a term ends the series.
pub const SMALL_TERM: u32 = 0x322B_CC77;

/// Bits of the single nearest to `1e-30`, in place of smaller denominators.
pub const TINY: u32 = 0x0DA2_4260;

/// Bits of the single nearest to `1e-7`, below which a change ends the fraction.
pub const SMALL_CHANGE: u32 = 0x33D6_BF95;

/// Magnitude of a number.
pub open spec fn magnitude(v: u32) -> u32 {
    v % 0x8000_0000
}

/// Next term of the series.
pub open spec fn next_term<F: Fn(FloatOp, u32, u32) -> u32>(f: F, term: u32, square: u32, n: int) -> u32 {
    let n_f = f32_of_int(n);
    let twice = fp_mul(f, TWO, n_f);
    let a = fp(f, FloatOp::Over, fp_mul(f, fp_neg(term), square), n_f);
    let b = fp_mul(f, a, fp(f, FloatOp::Minus, twice, ONE));
    fp(f, FloatOp::Over, b, fp_add(f, twice, ONE))
}

/// Sum of the series from the `n`-th term on, before the 25th, up to the first
/// small term.
pub open spec fn series<F: Fn(FloatOp, u32, u32) -> u32>(
    f: F,
    square: u32,
    term: u32,
    sum: u32,
    n: int,
) -> u32
    decreases 25 - n,
{
    if n >= 25 {
        sum
    } else {
        let t = next_term(f, term, square, n);
        let s = fp_add(f, sum, t);
        if magnitude(t) < SMALL_TERM {
            s
        } else {
            series(f, square, t, s, n + 1)
        }
    }
}

/// A denominator, or a tiny number in its place.
pub open spec fn not_tiny(v: u32) -> u32 {
    if magnitude(v) < TINY {
        TINY
    } else {
        v
    }
}

/// Value of the continued fraction from the `j`-th step on, before the 50th, up
/// to the first small change.
pub open spec fn fraction<F: Fn(FloatOp, u32, u32) -> u32>(
    f: F,
    x: u32,
    value: u32,
    c: u32,
    d: u32,
    j: int,
) -> u32
    decreases 50 - j,
{
    if j >= 50 {
        value
    } else {
        let a = fp_mul(f, f32_of_int(j), HALF);
        let next_d = fp(f, FloatOp::Over, ONE, not_tiny(fp_add(f, x, fp_mul(f, a, d))));
        let next_c = not_tiny(fp_add(f, x, fp(f, FloatOp::Over, a, c)));
        let delta = fp_mul(f, next_c, next_d);
        let v = fp_mul(f, value, delta);
        if magnitude(fp(f, FloatOp::Minus, delta, ONE)) < SMALL_CHANGE {
            v
        } else {
            fraction(f, x, v, next_c, next_d, j + 1)
        }
    }
}

/// Error function.
pub open spec fn erf<F: Fn(FloatOp, u32, u32) -> u32>(f: F, x: u32) -> u32 {
    let ax = magnitude(x);
    let sign = if x < 0x8000_0000 {
        ONE
    } else {
        MINUS_ONE
    };
    if is_nan(x) {
        QUIET_NAN
    } else if ax == 0 {
        0
    } else if ax > LIMIT {
        sign
    } else if ax < SERIES_END {
        let first = fp_mul(f, ax, TWO_DIV_SQRT_PI);
        fp_mul(f, sign, series(f, fp_mul(f, ax, ax), first, first, 1))
    } else {
        let tail = fp(f, FloatOp::Exp, fp_mul(f, fp_neg(ax), ax), 0);
        let scaled = fp_mul(f, tail, fp_mul(f, TWO_DIV_SQRT_PI, HALF));
        let rest = fp(f, FloatOp::Over, scaled, fraction(f, ax, ax, ax, 0, 1));
        fp_mul(f, sign, fp(f, FloatOp::Minus, ONE, rest))
    }
}

fn sum_series<F: Fn(FloatOp, u32, u32) -> u32>(f: &F, ax: u32) -> (r: u32)
    requires
        is_arith(*f),
    ensures
        ({
            let first = fp_mul(*f, ax, TWO_DIV_SQRT_PI);
            r == series(*f, fp_mul(*f, ax, ax), first, first, 1)
        }),
{
    let first: u32 = times(f, ax, TWO_DIV_SQRT_PI);
    let square: u32 = times(f, ax, ax);
    let mut term: u32 = first;
    let mut sum: u32 = first;
    let mut n: u32 = 1;
    while n < 25
        invariant
            is_arith(*f),
            first == fp_mul(*f, ax, TWO_DIV_SQRT_PI),
            square == fp_mul(*f, ax, ax),
            1 <= n <= 25,
            series(*f, square, first, first, 1) == series(*f, square, term, sum, n as int),
        decreases 25 - n,
    {
        let n_f: u32 = u32_to_f32(n);
        let twice: u32 = times(f, TWO, n_f);
        let a: u32 = compute(f, FloatOp::Over, times(f, negate(term), square), n_f);
        let b: u32 = times(f, a, compute(f, FloatOp::Minus, twice, ONE));
        term = compute(f, FloatOp::Over, b, plus(f, twice, ONE));
        sum = plus(f, sum, term);
        if term % 0x8000_0000 < SMALL_TERM {
            return sum;
        }
        n += 1;
    }
    sum
}

fn limit_tiny(v: u32) -> (r: u32)
    ensures
        r == not_tiny(v),
{
    if v % 0x8000_0000 < TINY {
        TINY
    } else {
        v
    }
}

fn run_fraction<F: Fn(FloatOp, u32, u32) -> u32>(f: &F, ax: u32) -> (r: u32)
    requires
        is_arith(*f),
    ensures
        r == fraction(*f, ax, ax, ax, 0, 1),
{
    let mut value: u32 = ax;
    let mut c: u32 = ax;
    let mut d: u32 = 0;
    let mut j: u32 = 1;
    while j < 50
        invariant
            is_arith(*f),
            1 <= j <= 50,
            fraction(*f, ax, ax, ax, 0, 1) == fraction(*f, ax, value, c, d, j as int),
        decreases 50 - j,
    {
        let a: u32 = times(f, u32_to_f32(j), HALF);
        d = compute(f, FloatOp::Over, ONE, limit_tiny(plus(f, ax, times(f, a, d))));
        c = limit_tiny(plus(f, ax, compute(f, FloatOp::Over, a, c)));
        let delta: u32 = times(f, c, d);
        value = times(f, value, delta);
        if compute(f, FloatOp::Minus, delta, ONE) % 0x8000_0000 < SMALL_CHANGE {
            return value;
        }
        j += 1;
    }
    value
}

/// Computes the error function.
pub fn erf_f32<F: Fn(FloatOp, u32, u32) -> u32>(f: &F, x: u32) -> (r: u32)
    requires
        is_arith(*f),
    ensures
        r == erf(*f, x),
{
    let nan: bool = (x / 0x80_0000) % 0x100 == 255 && x % 0x80_0000 != 0;
    if nan {
        return QUIET_NAN;
    }
    let ax: u32 = x % 0x8000_0000;
    if ax == 0 {
        return 0;
    }
    let sign: u32 = if x < 0x8000_0000 {
        ONE
    } else {
        MINUS_ONE
    };
    if ax > LIMIT {
        return sign;
    }
    if ax < SERIES_END {
        times(f, sign, sum_series(f, ax))
    } else {
        let tail: u32 = compute(f, FloatOp::Exp, times(f, negate(ax), ax), 0);
        let scaled: u32 = times(f, tail, times(f, TWO_DIV_SQRT_PI, HALF));
        let rest: u32 = compute(f, FloatOp::Over, scaled, run_fraction(f, ax));
        times(f, sign, compute(f, FloatOp::Minus, ONE, rest))
    }
}

/// The error function is odd wherever multiplying by minus one flips the sign.
pub proof fn law_erf_odd<F: Fn(FloatOp, u32, u32) -> u32>(f: F, x: u32)
    requires
        x < 0x8000_0000,
        !is_nan(x),
        magnitude(x) != 0,
        forall|v: u32| #[trigger] fp_mul(f, MINUS_ONE, v) == fp_neg(fp_mul(f, ONE, v)),
    ensures
        erf(f, fp_neg(x)) == fp_neg(erf(f, x)),
{
    assert(magnitude(fp_neg(x)) == magnitude(x));
}

} // verus!
