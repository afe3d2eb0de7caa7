//! Double-precision arithmetic as a function that the caller supplies, with the
//! functions that references are built from.
use vstd::prelude::*;
use crate::ir::ActivationKind;

verus! {

/// An operation on doubles. A unary operation has zero as its second operand.
#[derive(Debug, Clone, Copy, PartialEq, Eq, Structural)]
pub enum DoubleOp {
    /// Sum.
    Plus,
    /// Difference.
    Minus,
    /// Product.
    Times,
    /// Quotient.
    Over,
    /// Exponential function.
    Exp,
    /// Hyperbolic tangent.
    Tanh,
    /// The larger operand.
    Max,
    /// The smaller operand.
    Min,
    /// The double nearest to an integer.
    Whole,
    /// The double equal to a single, which is given by its bits.
    Widen,
    /// The bits of the single nearest to a double.
    Narrow,
}

/// Bits of 1.
pub const ONE: u64 = 0x3FF0_0000_0000_0000;

/// Bits of -1.
pub const MINUS_ONE: u64 = 0xBFF0_0000_0000_0000;

/// Bits of `1/2`.
pub const HALF: u64 = 0x3FE0_0000_0000_0000;

/// Bits of 2.
pub const TWO: u64 = 0x4000_0000_0000_0000;

/// Bits of infinity.
pub const INFINITY: u64 = 0x7FF0_0000_0000_0000;

/// Bits of minus infinity.
pub const MINUS_INFINITY: u64 = 0xFFF0_0000_0000_0000;

/// Bits of a quiet NaN.
pub const QUIET_NAN: u64 = 0x7FF8_0000_0000_0000;

/// Bits of the sign.
pub const SIGN: u64 = 0x8000_0000_0000_0000;

/// Bits of `3/2`, up to which the series is used.
pub const SERIES_END: u64 = 0x3FF8_0000_0000_0000;

/// Bits of 6, beyond which the error function is its limit.
pub const LIMIT: u64 = 0x4018_0000_0000_0000;

/// Bits of the double nearest to 2 over the square root of pi.
pub const TWO_DIV_SQRT_PI: u64 = 0x3FF2_0DD7_5042_9B6D;

/// Bits of the double nearest to 1 over the square root of pi.
pub const ONE_DIV_SQRT_PI: u64 = 0x3FE2_0DD7_5042_9B6D;

/// Bits of the double nearest to `1e-17`, below which a term ends the series.
pub const SMALL_TERM: u64 = 0x3C67_0EF5_4646_D497;

/// Bits of the double nearest to `1e-30`, in place of smaller denominators.
pub const TINY: u64 = 0x39B4_484B_FEEB_C2A0;

/// Bits of the double nearest to `1e-16`, below which a change ends the fraction.
pub const SMALL_CHANGE: u64 = 0x3C9C_D2B2_97D8_89BC;

/// Bits of the double nearest to the square root of `1/2`.
pub const INV_SQRT_2: u64 = 0x3FE6_A09E_667F_3BCD;

/// Bits of the double nearest to the square root of `2/pi`.
pub const SQRT_2_DIV_PI: u64 = 0x3FE9_8845_33D4_3651;

/// Bits of the double nearest to `0.044715`.
pub const GELU_CUBIC: u64 = 0x3FA6_E4E2_6D48_01F7;

/// Whether `e` accepts every operation and its result depends on its arguments
/// alone.
pub open spec fn is_double<E: Fn(DoubleOp, u64, u64) -> u64>(e: E) -> bool {
    &&& forall|o: DoubleOp, a: u64, b: u64| #[trigger] e.requires((o, a, b))
    &&& forall|o: DoubleOp, a: u64, b: u64, r: u64, s: u64| #[trigger]
        e.ensures((o, a, b), r) && #[trigger] e.ensures((o, a, b), s) ==> r == s
}

/// Result of an operation.
pub open spec fn dp<E: Fn(DoubleOp, u64, u64) -> u64>(e: E, o: DoubleOp, a: u64, b: u64) -> u64 {
    choose|r: u64| e.ensures((o, a, b), r)
}

/// Sum.
pub open spec fn dp_add<E: Fn(DoubleOp, u64, u64) -> u64>(e: E, a: u64, b: u64) -> u64 {
    dp(e, DoubleOp::Plus, a, b)
}

/// Product.
pub open spec fn dp_mul<E: Fn(DoubleOp, u64, u64) -> u64>(e: E, a: u64, b: u64) -> u64 {
    dp(e, DoubleOp::Times, a, b)
}

/// The double equal to a single.
pub open spec fn widened<E: Fn(DoubleOp, u64, u64) -> u64>(e: E, a: u32) -> u64 {
    dp(e, DoubleOp::Widen, a as u64, 0)
}

/// Performs an operation.
pub fn reckon<E: Fn(DoubleOp, u64, u64) -> u64>(e: &E, o: DoubleOp, a: u64, b: u64) -> (r: u64)
    requires
        is_double(*e),
    ensures
        r == dp(*e, o, a, b),
{
    e(o, a, b)
}

/// Sum.
pub fn add_up<E: Fn(DoubleOp, u64, u64) -> u64>(e: &E, a: u64, b: u64) -> (r: u64)
    requires
        is_double(*e),
    ensures
        r == dp_add(*e, a, b),
{
    reckon(e, DoubleOp::Plus, a, b)
}

/// Product.
pub fn multiply<E: Fn(DoubleOp, u64, u64) -> u64>(e: &E, a: u64, b: u64) -> (r: u64)
    requires
        is_double(*e),
    ensures
        r == dp_mul(*e, a, b),
{
    reckon(e, DoubleOp::Times, a, b)
}

/// The double equal to a single.
pub fn widen<E: Fn(DoubleOp, u64, u64) -> u64>(e: &E, a: u32) -> (r: u64)
    requires
        is_double(*e),
    ensures
        r == widened(*e, a),
{
    reckon(e, DoubleOp::Widen, a as u64, 0)
}

/// Magnitude of a number.
pub open spec fn magnitude(v: u64) -> u64 {
    v % SIGN
}

/// Whether a number is NaN.
pub open spec fn is_nan(v: u64) -> bool {
    magnitude(v) > INFINITY
}

/// The number with the opposite sign.
pub open spec fn dp_neg(a: u64) -> u64 {
    if a < SIGN {
        (a + SIGN) as u64
    } else {
        (a - SIGN) as u64
    }
}

/// The number with the opposite sign.
pub fn opposite(a: u64) -> (r: u64)
    ensures
        r == dp_neg(a),
{
    if a < SIGN {
        a + SIGN
    } else {
        a - SIGN
    }
}

/// Place of a number that is not NaN in the order of numbers; both zeros have
/// the same.
pub open spec fn rank_of(v: u64) -> int {
    if v < SIGN {
        v as int
    } else {
        -(magnitude(v) as int)
    }
}

/// Whether a number is larger than another; no number is larger or smaller than
/// NaN.
pub open spec fn exceeds(a: u64, b: u64) -> bool {
    !is_nan(a) && !is_nan(b) && rank_of(a) > rank_of(b)
}

/// Whether a number is NaN.
pub fn nan(v: u64) -> (r: bool)
    ensures
        r == is_nan(v),
{
    v % SIGN > INFINITY
}

/// Whether a number is larger than another.
pub fn larger(a: u64, b: u64) -> (r: bool)
    ensures
        r == exceeds(a, b),
{
    if nan(a) || nan(b) {
        false
    } else if a < SIGN {
        if b < SIGN {
            a > b
        } else {
            a > 0 || b % SIGN > 0
        }
    } else if b < SIGN {
        false
    } else {
        a % SIGN < b % SIGN
    }
}

/// Next term of the series of the error function.
pub open spec fn next_term<E: Fn(DoubleOp, u64, u64) -> u64>(
    e: E,
    term: u64,
    square: u64,
    n: int,
) -> u64 {
    let n_f = dp(e, DoubleOp::Whole, n as u64, 0);
    let twice = dp_mul(e, TWO, n_f);
    let a = dp(e, DoubleOp::Over, dp_mul(e, dp_neg(term), square), n_f);
    let b = dp_mul(e, a, dp(e, DoubleOp::Minus, twice, ONE));
    dp(e, DoubleOp::Over, b, dp_add(e, twice, ONE))
}

/// Sum of the series from the `n`-th term on, before the 40th, up to the first
/// small term.
pub open spec fn series<E: Fn(DoubleOp, u64, u64) -> u64>(
    e: E,
    square: u64,
    term: u64,
    sum: u64,
    n: int,
) -> u64
    decreases 40 - n,
{
    if n >= 40 {
        sum
    } else {
        let t = next_term(e, term, square, n);
        let s = dp_add(e, sum, t);
        if magnitude(t) < SMALL_TERM {
            s
        } else {
            series(e, square, t, s, n + 1)
        }
    }
}

/// A denominator, or a tiny number in its place.
pub open spec fn not_tiny(v: u64) -> u64 {
    if magnitude(v) < TINY {
        TINY
    } else {
        v
    }
}

/// Value of the continued fraction from the `j`-th step on, before the 80th, up
/// to the first small change.
pub open spec fn fraction<E: Fn(DoubleOp, u64, u64) -> u64>(
    e: E,
    x: u64,
    value: u64,
    c: u64,
    d: u64,
    j: int,
) -> u64
    decreases 80 - j,
{
    if j >= 80 {
        value
    } else {
        let a = dp_mul(e, dp(e, DoubleOp::Whole, j as u64, 0), HALF);
        let next_d = dp(e, DoubleOp::Over, ONE, not_tiny(dp_add(e, x, dp_mul(e, a, d))));
        let next_c = not_tiny(dp_add(e, x, dp(e, DoubleOp::Over, a, c)));
        let delta = dp_mul(e, next_c, next_d);
        let v = dp_mul(e, value, delta);
        if magnitude(dp(e, DoubleOp::Minus, delta, ONE)) < SMALL_CHANGE {
            v
        } else {
            fraction(e, x, v, next_c, next_d, j + 1)
        }
    }
}

/// Error function.
pub open spec fn erf<E: Fn(DoubleOp, u64, u64) -> u64>(e: E, x: u64) -> u64 {
    let ax = magnitude(x);
    let sign = if x < SIGN {
        ONE
    } else {
        MINUS_ONE
    };
    if is_nan(x) {
        QUIET_NAN
    } else if ax == 0 {
        0
    } else if ax > LIMIT {
        sign
    } else if ax < SERIES_END {
        let first = dp_mul(e, ax, TWO_DIV_SQRT_PI);
        dp_mul(e, sign, series(e, dp_mul(e, ax, ax), first, first, 1))
    } else {
        let tail = dp(e, DoubleOp::Exp, dp_mul(e, dp_neg(ax), ax), 0);
        let scaled = dp_mul(e, tail, ONE_DIV_SQRT_PI);
        let rest = dp(e, DoubleOp::Over, scaled, fraction(e, ax, ax, ax, 0, 1));
        dp_mul(e, sign, dp(e, DoubleOp::Minus, ONE, rest))
    }
}

fn sum_series<E: Fn(DoubleOp, u64, u64) -> u64>(e: &E, ax: u64) -> (r: u64)
    requires
        is_double(*e),
    ensures
        ({
            let first = dp_mul(*e, ax, TWO_DIV_SQRT_PI);
            r == series(*e, dp_mul(*e, ax, ax), first, first, 1)
        }),
{
    let first: u64 = multiply(e, ax, TWO_DIV_SQRT_PI);
    let square: u64 = multiply(e, ax, ax);
    let mut term: u64 = first;
    let mut sum: u64 = first;
    let mut n: u64 = 1;
    while n < 40
        invariant
            is_double(*e),
            first == dp_mul(*e, ax, TWO_DIV_SQRT_PI),
            square == dp_mul(*e, ax, ax),
            1 <= n <= 40,
            series(*e, square, first, first, 1) == series(*e, square, term, sum, n as int),
        decreases 40 - n,
    {
        let n_f: u64 = reckon(e, DoubleOp::Whole, n, 0);
        let twice: u64 = multiply(e, TWO, n_f);
        let a: u64 = reckon(e, DoubleOp::Over, multiply(e, opposite(term), square), n_f);
        let b: u64 = multiply(e, a, reckon(e, DoubleOp::Minus, twice, ONE));
        term = reckon(e, DoubleOp::Over, b, add_up(e, twice, ONE));
        sum = add_up(e, sum, term);
        if term % SIGN < SMALL_TERM {
            return sum;
        }
        n += 1;
    }
    sum
}

fn limit_tiny(v: u64) -> (r: u64)
    ensures
        r == not_tiny(v),
{
    if v % SIGN < TINY {
        TINY
    } else {
        v
    }
}

fn run_fraction<E: Fn(DoubleOp, u64, u64) -> u64>(e: &E, ax: u64) -> (r: u64)
    requires
        is_double(*e),
    ensures
        r == fraction(*e, ax, ax, ax, 0, 1),
{
    let mut value: u64 = ax;
    let mut c: u64 = ax;
    let mut d: u64 = 0;
    let mut j: u64 = 1;
    while j < 80
        invariant
            is_double(*e),
            1 <= j <= 80,
            fraction(*e, ax, ax, ax, 0, 1) == fraction(*e, ax, value, c, d, j as int),
        decreases 80 - j,
    {
        let a: u64 = multiply(e, reckon(e, DoubleOp::Whole, j, 0), HALF);
        d = reckon(e, DoubleOp::Over, ONE, limit_tiny(add_up(e, ax, multiply(e, a, d))));
        c = limit_tiny(add_up(e, ax, reckon(e, DoubleOp::Over, a, c)));
        let delta: u64 = multiply(e, c, d);
        value = multiply(e, value, delta);
        if reckon(e, DoubleOp::Minus, delta, ONE) % SIGN < SMALL_CHANGE {
            return value;
        }
        j += 1;
    }
    value
}

/// Computes the error function.
pub fn erf_f64<E: Fn(DoubleOp, u64, u64) -> u64>(e: &E, x: u64) -> (r: u64)
    requires
        is_double(*e),
    ensures
        r == erf(*e, x),
{
    if nan(x) {
        return QUIET_NAN;
    }
    let ax: u64 = x % SIGN;
    if ax == 0 {
        return 0;
    }
    let sign: u64 = if x < SIGN {
        ONE
    } else {
        MINUS_ONE
    };
    if ax > LIMIT {
        return sign;
    }
    if ax < SERIES_END {
        multiply(e, sign, sum_series(e, ax))
    } else {
        let tail: u64 = reckon(e, DoubleOp::Exp, multiply(e, opposite(ax), ax), 0);
        let scaled: u64 = multiply(e, tail, ONE_DIV_SQRT_PI);
        let rest: u64 = reckon(e, DoubleOp::Over, scaled, run_fraction(e, ax));
        multiply(e, sign, reckon(e, DoubleOp::Minus, ONE, rest))
    }
}

/// Value of an activation function.
pub open spec fn activated<E: Fn(DoubleOp, u64, u64) -> u64>(
    e: E,
    x: u64,
    kind: ActivationKind,
) -> u64 {
    match kind {
        ActivationKind::Silu => dp(
            e,
            DoubleOp::Over,
            x,
            dp_add(e, ONE, dp(e, DoubleOp::Exp, dp_neg(x), 0)),
        ),
        ActivationKind::Gelu => dp_mul(
            e,
            dp_mul(e, HALF, x),
            dp_add(e, ONE, erf(e, dp_mul(e, x, INV_SQRT_2))),
        ),
        ActivationKind::GeluTanh => {
            let cubic = dp_mul(e, dp_mul(e, dp_mul(e, GELU_CUBIC, x), x), x);
            let inner = dp_mul(e, SQRT_2_DIV_PI, dp_add(e, x, cubic));
            dp_mul(e, dp_mul(e, HALF, x), dp_add(e, ONE, dp(e, DoubleOp::Tanh, inner, 0)))
        },
        ActivationKind::Relu2 => {
            let relu = if exceeds(x, 0) {
                x
            } else {
                0
            };
            dp_mul(e, relu, relu)
        },
        ActivationKind::Identity => x,
    }
}

/// Evaluates an activation function.
pub fn eval_activation_f64<E: Fn(DoubleOp, u64, u64) -> u64>(
    e: &E,
    x: u64,
    kind: ActivationKind,
) -> (r: u64)
    requires
        is_double(*e),
    ensures
        r == activated(*e, x, kind),
{
    match kind {
        ActivationKind::Silu => {
            let power: u64 = reckon(e, DoubleOp::Exp, opposite(x), 0);
            reckon(e, DoubleOp::Over, x, add_up(e, ONE, power))
        },
        ActivationKind::Gelu => {
            let part: u64 = erf_f64(e, multiply(e, x, INV_SQRT_2));
            multiply(e, multiply(e, HALF, x), add_up(e, ONE, part))
        },
        ActivationKind::GeluTanh => {
            let cubic: u64 = multiply(e, multiply(e, multiply(e, GELU_CUBIC, x), x), x);
            let inner: u64 = multiply(e, SQRT_2_DIV_PI, add_up(e, x, cubic));
            let t: u64 = reckon(e, DoubleOp::Tanh, inner, 0);
            multiply(e, multiply(e, HALF, x), add_up(e, ONE, t))
        },
        ActivationKind::Relu2 => {
            let relu: u64 = if larger(x, 0) {
                x
            } else {
                0
            };
            multiply(e, relu, relu)
        },
        ActivationKind::Identity => x,
    }
}

} // verus!
