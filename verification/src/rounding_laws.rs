//! Conversions go to the nearest number.
use vstd::prelude::*;
use vstd::arithmetic::power2::*;
use crate::dtype::{
    bf16_of, e4m3_of, e5m2_of, exp_of, f16_of, f32_of_bf16, f32_of_e4m3, f32_of_e5m2, f32_of_f16,
    f32_of_int, int_of_f32, is_nan, lemma_top_bit, mant_of, normalized, rne_div, sign_of,
    signed_bits, top_bit, whole_part,
};
use crate::dtype_laws::{law_rounds_to_nearest, lemma_fields, lemma_normalized};

verus! {

/// Magnitude of a finite single, in units of the smallest positive single.
pub open spec fn units(b: u32) -> int {
    if exp_of(b) == 0 {
        mant_of(b)
    } else {
        (mant_of(b) + 0x80_0000) * pow2((exp_of(b) - 1) as nat)
    }
}

/// Whether two magnitudes are at most half a step apart.
pub open spec fn within_half(a: int, b: int, step: int) -> bool {
    2 * (a - b) <= step && 2 * (b - a) <= step
}

/// Whether two magnitudes are half a step apart.
pub open spec fn is_tie(a: int, b: int, step: int) -> bool {
    2 * (a - b) == step || 2 * (b - a) == step
}

/// Whether a code's number is nearest to another: at most half a step away, and
/// the even code of two that are equally near.
pub open spec fn is_nearest(a: int, b: int, step: int, code: int) -> bool {
    &&& within_half(a, b, step)
    &&& is_tie(a, b, step) ==> code % 2 == 0
}

/// Units of a number with the given exponent whose mantissa may carry.
proof fn lemma_carry(sign: int, exp: int, mant: int)
    requires
        0 <= sign <= 1,
        1 <= exp < 254,
        0 <= mant <= 0x80_0000,
    ensures
        ({
            let b = signed_bits(sign, exp * 0x80_0000 + mant);
            &&& sign_of(b) == sign
            &&& !is_nan(b)
            &&& units(b) == (mant + 0x80_0000) * pow2((exp - 1) as nat)
        }),
{
    if mant < 0x80_0000 {
        lemma_fields(sign, exp, mant);
    } else {
        lemma_fields(sign, exp + 1, 0);
        assert(exp * 0x80_0000 + mant == (exp + 1) * 0x80_0000 + 0);
        lemma_pow2_unfold(exp as nat);
        assert((0 + 0x80_0000) * pow2(exp as nat) == (mant + 0x80_0000) * pow2((exp - 1) as nat))
            by (nonlinear_arith)
            requires
                mant == 0x80_0000,
                pow2(exp as nat) == 2 * pow2((exp - 1) as nat),
        ;
    }
}

/// Units of a small multiple of a power of two.
proof fn lemma_small(sign: int, n: int, unit: int)
    requires
        0 <= sign <= 1,
        0 < n < 0x100_0000,
        0 < unit,
        unit + 23 <= 250,
    ensures
        ({
            let b = signed_bits(sign, normalized(n, unit));
            &&& sign_of(b) == sign
            &&& units(b) == n * pow2((unit + 22) as nat)
        }),
{
    lemma_normalized(sign, n, unit);
    let k = top_bit(n as nat);
    let s = (23 - k) as nat;
    lemma_pow2_adds(s, (unit + k - 1) as nat);
    assert(s + (unit + k - 1) as nat == (unit + 22) as nat);
    assert(n * pow2(s) * pow2((unit + k - 1) as nat) == n * pow2((unit + 22) as nat))
        by (nonlinear_arith)
        requires
            pow2(s) * pow2((unit + k - 1) as nat) == pow2((unit + 22) as nat),
    ;
}

/// A zero has no units.
proof fn lemma_no_units(q: int, k: nat, sign: int)
    requires
        q == 0,
        0 <= sign <= 1,
    ensures
        q * pow2(k) == 0,
        sign_of(signed_bits(sign, 0)) == sign,
        units(signed_bits(sign, 0)) == 0,
{
    lemma_fields(sign, 0, 0);
    assert(sign == 0 || sign == 1);
    assert(q * pow2(k) == 0) by (nonlinear_arith)
        requires
            q == 0,
    ;
}

/// Rounding of a mantissa to a shorter one.
proof fn lemma_round_mantissa(exp: int, mant: int, step: int)
    requires
        1 <= exp,
        0 <= mant < 0x80_0000,
        step > 0,
        0x80_0000int % step == 0,
    ensures
        ({
            let q = rne_div(mant, step);
            &&& 0 <= q * step <= 0x80_0000
            &&& within_half(
                (mant + 0x80_0000) * pow2((exp - 1) as nat),
                (q * step + 0x80_0000) * pow2((exp - 1) as nat),
                step * pow2((exp - 1) as nat),
            )
            &&& is_tie(
                (mant + 0x80_0000) * pow2((exp - 1) as nat),
                (q * step + 0x80_0000) * pow2((exp - 1) as nat),
                step * pow2((exp - 1) as nat),
            ) ==> q % 2 == 0
        }),
{
    let q = rne_div(mant, step);
    law_rounds_to_nearest(mant, step, 0);
    let p = pow2((exp - 1) as nat) as int;
    lemma_pow2_pos((exp - 1) as nat);
    let n = 0x80_0000int / step;
    vstd::arithmetic::div_mod::lemma_fundamental_div_mod(0x80_0000int, step);
    assert(n * step == 0x80_0000) by (nonlinear_arith)
        requires
            0x80_0000 == step * n + 0,
    ;
    vstd::arithmetic::div_mod::lemma_div_pos_is_pos(mant, step);
    vstd::arithmetic::div_mod::lemma_fundamental_div_mod(mant, step);
    assert(mant / step < n) by (nonlinear_arith)
        requires
            mant == step * (mant / step) + mant % step,
            0 <= mant % step,
            mant < n * step,
            step > 0,
    ;
    vstd::arithmetic::div_mod::lemma_mod_bound(mant, step);
    assert(0 <= q <= n);
    assert(0 <= q * step <= n * step) by (nonlinear_arith)
        requires
            0 <= q <= n,
            step > 0,
    ;
    let x = mant - q * step;
    assert((mant + 0x80_0000) * p - (q * step + 0x80_0000) * p == x * p) by (nonlinear_arith)
        requires
            x == mant - q * step,
    ;
    assert(2 * (x * p) <= step * p && 2 * (-(x * p)) <= step * p) by (nonlinear_arith)
        requires
            -step <= 2 * x <= step,
            p > 0,
    ;
    if 2 * (x * p) == step * p || 2 * (-(x * p)) == step * p {
        assert(2 * x == step || 2 * x == -step) by (nonlinear_arith)
            requires
                2 * (x * p) == step * p || 2 * (-(x * p)) == step * p,
                p > 0,
        ;
    }
}

/// Rounding of a small number to a multiple of a larger unit.
proof fn lemma_round_small(exp: int, mant: int, unit: int)
    requires
        1 <= exp <= unit + 22,
        0 <= mant < 0x80_0000,
    ensures
        ({
            let d = pow2((unit + 23 - exp) as nat) as int;
            let q = rne_div(mant + 0x80_0000, d);
            &&& 0 <= q
            &&& within_half(
                (mant + 0x80_0000) * pow2((exp - 1) as nat),
                q * pow2((unit + 22) as nat),
                pow2((unit + 22) as nat) as int,
            )
            &&& is_tie(
                (mant + 0x80_0000) * pow2((exp - 1) as nat),
                q * pow2((unit + 22) as nat),
                pow2((unit + 22) as nat) as int,
            ) ==> q % 2 == 0
        }),
{
    let d = pow2((unit + 23 - exp) as nat) as int;
    let m = mant + 0x80_0000;
    let q = rne_div(m, d);
    lemma_pow2_pos((unit + 23 - exp) as nat);
    law_rounds_to_nearest(m, d, 0);
    vstd::arithmetic::div_mod::lemma_div_pos_is_pos(m, d);
    let p = pow2((exp - 1) as nat) as int;
    lemma_pow2_pos((exp - 1) as nat);
    lemma_pow2_adds((unit + 23 - exp) as nat, (exp - 1) as nat);
    assert((unit + 23 - exp) as nat + (exp - 1) as nat == (unit + 22) as nat);
    let u = pow2((unit + 22) as nat) as int;
    assert(u == d * p);
    let x = m - q * d;
    assert(m * p - q * u == x * p) by (nonlinear_arith)
        requires
            x == m - q * d,
            u == d * p,
    ;
    assert(2 * (x * p) <= u && 2 * (-(x * p)) <= u) by (nonlinear_arith)
        requires
            -d <= 2 * x <= d,
            u == d * p,
            p > 0,
    ;
    if 2 * (x * p) == u || 2 * (-(x * p)) == u {
        assert(2 * x == d || 2 * x == -d) by (nonlinear_arith)
            requires
                2 * (x * p) == u || 2 * (-(x * p)) == u,
                u == d * p,
                p > 0,
        ;
    }
}

/// A single converts to the nearest half-precision number: the result keeps the
/// sign and is at most half a step away, where a step is the distance
/// between such numbers there; of two that are equally near the code is even.
#[verifier::spinoff_prover]
#[verifier::rlimit(60)]
pub proof fn law_f16_nearest(b: u32)
    requires
        !is_nan(b),
        exp_of(b) < 255,
        f16_of(b) % 0x8000 < 0x7C00,
    ensures
        sign_of(f32_of_f16(f16_of(b))) == sign_of(b),
        exp_of(b) >= 113 ==> is_nearest(
            units(b),
            units(f32_of_f16(f16_of(b))),
            0x2000int * pow2((exp_of(b) - 1) as nat),
            f16_of(b) as int,
        ),
        1 <= exp_of(b) < 113 ==> is_nearest(
            units(b),
            units(f32_of_f16(f16_of(b))),
            pow2(125) as int,
            f16_of(b) as int,
        ),
        exp_of(b) == 0 ==> units(f32_of_f16(f16_of(b))) == 0,
{
    let sign = sign_of(b);
    let exp = exp_of(b);
    let mant = mant_of(b);
    let h = f16_of(b);
    lemma2_to64();
    if exp >= 143 {
    } else if exp >= 113 {
        let q = rne_div(mant, 0x2000);
        lemma_round_mantissa(exp, mant, 0x2000);
        let code = (exp - 112) * 0x400 + q;
        assert(h == sign * 0x8000 + code);
        lemma_carry(sign, exp, q * 0x2000);
        assert(f32_of_f16(h) == signed_bits(sign, exp * 0x80_0000 + q * 0x2000));
    } else if exp >= 1 {
        lemma_round_small(exp, mant, 103);
        let d = pow2((126 - exp) as nat) as int;
        let q = rne_div(mant + 0x80_0000, d);
        lemma_small_code(exp, mant, 126, 14, 0x400);
        assert(h == sign * 0x8000 + q);
        if q == 0 {
            lemma_no_units(q, 125, sign);
            assert(f32_of_f16(h) == signed_bits(sign, 0));
            assert(units(f32_of_f16(h)) == q * pow2(125));
        } else if q < 0x400 {
            lemma_small(sign, q, 103);
            assert(f32_of_f16(h) == signed_bits(sign, normalized(q, 103)));
            assert(units(f32_of_f16(h)) == q * pow2(125));
        } else {
            lemma_carry(sign, 113, 0);
            lemma_pow2_adds(23, 112);
            lemma_pow2_adds(10, 125);
            assert(0x80_0000 * pow2(112) == 0x400 * pow2(125));
            assert(f32_of_f16(h) == signed_bits(sign, 113int * 0x80_0000 + 0));
            assert(units(f32_of_f16(h)) == q * pow2(125));
        }
        assert(units(f32_of_f16(h)) == q * pow2(125));
        assert(q % 2 == 0 ==> h as int % 2 == 0);
    } else {
        lemma_fields(sign, 0, 0);
        lemma_fields(0, 0, 0);
        assert(h == sign * 0x8000);
    }
}

/// A single converts to the nearest E4M3 number up to 448: the result keeps the
/// sign unless it is zero and is at most half a step away, where a step is the
/// distance between such numbers there; of two that are equally near the code is
/// even.
#[verifier::spinoff_prover]
#[verifier::rlimit(60)]
pub proof fn law_e4m3_nearest(b: u32)
    requires
        !is_nan(b),
        exp_of(b) < 255,
        b % 0x8000_0000 <= 0x43E0_0000,
    ensures
        e4m3_of(b) % 0x80 != 0 ==> sign_of(f32_of_e4m3(e4m3_of(b))) == sign_of(b),
        exp_of(b) >= 121 ==> is_nearest(
            units(b),
            units(f32_of_e4m3(e4m3_of(b))),
            0x10_0000int * pow2((exp_of(b) - 1) as nat),
            e4m3_of(b) as int,
        ),
        1 <= exp_of(b) < 121 ==> is_nearest(
            units(b),
            units(f32_of_e4m3(e4m3_of(b))),
            pow2(140) as int,
            e4m3_of(b) as int,
        ),
        exp_of(b) == 0 ==> units(f32_of_e4m3(e4m3_of(b))) == 0,
{
    let sign = sign_of(b);
    let exp = exp_of(b);
    let mant = mant_of(b);
    let h = e4m3_of(b);
    lemma2_to64();
    if exp >= 136 {
    } else if exp >= 121 {
        let q = rne_div(mant, 0x10_0000);
        lemma_round_mantissa(exp, mant, 0x10_0000);
        let code = (exp - 120) * 8 + q;
        assert(h == sign * 0x80 + code);
        lemma_carry(sign, exp, q * 0x10_0000);
        assert(f32_of_e4m3(h) == signed_bits(sign, exp * 0x80_0000 + q * 0x10_0000));
    } else if exp >= 1 {
        lemma_round_small(exp, mant, 118);
        let d = pow2((141 - exp) as nat) as int;
        let q = rne_div(mant + 0x80_0000, d);
        lemma_small_code(exp, mant, 141, 21, 8);
        assert(h == if q == 0 { 0 } else { sign * 0x80 + q });
        if q == 0 {
            lemma_no_units(q, 140, 0);
            assert(h == 0u8);
            assert(f32_of_e4m3(h) == signed_bits(0, 0));
            assert(units(f32_of_e4m3(h)) == q * pow2(140));
        } else if q < 8 {
            lemma_small(sign, q, 118);
            assert(f32_of_e4m3(h) == signed_bits(sign, normalized(q, 118)));
            assert(units(f32_of_e4m3(h)) == q * pow2(140));
        } else {
            lemma_carry(sign, 121, 0);
            lemma_pow2_adds(23, 120);
            lemma_pow2_adds(3, 140);
            assert(0x80_0000 * pow2(120) == 8 * pow2(140));
            assert(f32_of_e4m3(h) == signed_bits(sign, 121int * 0x80_0000 + 0));
            assert(units(f32_of_e4m3(h)) == q * pow2(140));
        }
        assert(units(f32_of_e4m3(h)) == q * pow2(140));
        assert(q % 2 == 0 ==> h as int % 2 == 0);
    } else {
        lemma_fields(sign, 0, 0);
        lemma_fields(0, 0, 0);
        assert(h % 0x80 == 0);
    }
}

/// A single converts to the nearest E5M2 number up to 57344: the result keeps the
/// sign unless it is zero and is at most half a step away, where a step is the
/// distance between such numbers there; of two that are equally near the code is
/// even.
#[verifier::spinoff_prover]
#[verifier::rlimit(60)]
pub proof fn law_e5m2_nearest(b: u32)
    requires
        !is_nan(b),
        exp_of(b) < 255,
        b % 0x8000_0000 <= 0x4760_0000,
    ensures
        e5m2_of(b) % 0x80 != 0 ==> sign_of(f32_of_e5m2(e5m2_of(b))) == sign_of(b),
        exp_of(b) >= 113 ==> is_nearest(
            units(b),
            units(f32_of_e5m2(e5m2_of(b))),
            0x20_0000int * pow2((exp_of(b) - 1) as nat),
            e5m2_of(b) as int,
        ),
        1 <= exp_of(b) < 113 ==> is_nearest(
            units(b),
            units(f32_of_e5m2(e5m2_of(b))),
            pow2(133) as int,
            e5m2_of(b) as int,
        ),
        exp_of(b) == 0 ==> units(f32_of_e5m2(e5m2_of(b))) == 0,
{
    let sign = sign_of(b);
    let exp = exp_of(b);
    let mant = mant_of(b);
    let h = e5m2_of(b);
    lemma2_to64();
    if exp >= 143 {
    } else if exp >= 113 {
        let q = rne_div(mant, 0x20_0000);
        lemma_round_mantissa(exp, mant, 0x20_0000);
        let code = (exp - 112) * 4 + q;
        assert(h == sign * 0x80 + code);
        lemma_carry(sign, exp, q * 0x20_0000);
        assert(f32_of_e5m2(h) == signed_bits(sign, exp * 0x80_0000 + q * 0x20_0000));
    } else if exp >= 1 {
        lemma_round_small(exp, mant, 111);
        let d = pow2((134 - exp) as nat) as int;
        let q = rne_div(mant + 0x80_0000, d);
        lemma_small_code(exp, mant, 134, 22, 4);
        assert(h == if q == 0 { 0 } else { sign * 0x80 + q });
        if q == 0 {
            lemma_no_units(q, 133, 0);
            assert(h == 0u8);
            assert(f32_of_e5m2(h) == signed_bits(0, 0));
            assert(units(f32_of_e5m2(h)) == q * pow2(133));
        } else if q < 4 {
            lemma_small(sign, q, 111);
            assert(f32_of_e5m2(h) == signed_bits(sign, normalized(q, 111)));
            assert(units(f32_of_e5m2(h)) == q * pow2(133));
        } else {
            lemma_carry(sign, 113, 0);
            lemma_pow2_adds(23, 112);
            lemma_pow2_adds(2, 133);
            assert(0x80_0000 * pow2(112) == 4 * pow2(133));
            assert(f32_of_e5m2(h) == signed_bits(sign, 113int * 0x80_0000 + 0));
            assert(units(f32_of_e5m2(h)) == q * pow2(133));
        }
        assert(units(f32_of_e5m2(h)) == q * pow2(133));
        assert(q % 2 == 0 ==> h as int % 2 == 0);
    } else {
        lemma_fields(sign, 0, 0);
        lemma_fields(0, 0, 0);
        assert(h % 0x80 == 0);
    }
}

/// The code of a small number is at most that of the smallest normal one.
proof fn lemma_small_code(exp: int, mant: int, top: int, drop: int, limit: int)
    requires
        1 <= exp,
        exp <= top - drop + 0,
        0 < drop <= 23,
        0 <= mant < 0x80_0000,
        limit == pow2((24 - drop) as nat),
    ensures
        0 <= rne_div(mant + 0x80_0000, pow2((top - exp) as nat) as int) <= limit,
{
    let d = pow2((top - exp) as nat) as int;
    let m = mant + 0x80_0000;
    lemma2_to64();
    lemma_pow2_pos((top - exp) as nat);
    lemma_pow2_adds(drop as nat, (24 - drop) as nat);
    assert(drop as nat + (24 - drop) as nat == 24nat);
    if top - exp > drop {
        lemma_pow2_strictly_increases(drop as nat, (top - exp) as nat);
    }
    let q = m / d;
    vstd::arithmetic::div_mod::lemma_fundamental_div_mod(m, d);
    vstd::arithmetic::div_mod::lemma_mod_bound(m, d);
    vstd::arithmetic::div_mod::lemma_div_pos_is_pos(m, d);
    let e = pow2(drop as nat) as int;
    assert(q < limit) by (nonlinear_arith)
        requires
            m == d * q + m % d,
            0 <= m % d,
            m < 0x100_0000,
            e * limit == 0x100_0000,
            e <= d,
            0 <= q,
            0 < limit,
    ;
}

/// A single converts to the nearest bfloat16 number. Numbers of one exponent are
/// evenly spaced, so the distance is counted in singles that lie between: at most
/// half of those from one bfloat16 number to the next; of two that are equally
/// near the code is even.
pub proof fn law_bf16_nearest(b: u32)
    requires
        !is_nan(b),
    ensures
        sign_of(f32_of_bf16(bf16_of(b))) == sign_of(b),
        is_nearest(b as int, f32_of_bf16(bf16_of(b)) as int, 0x1_0000, bf16_of(b) as int),
{
    law_rounds_to_nearest(b as int, 0x1_0000, 0);
    let q = rne_div(b as int, 0x1_0000);
    assert(0 <= q <= 0xFF80);
    assert(bf16_of(b) as int == q);
    assert(f32_of_bf16(bf16_of(b)) as int == q * 0x1_0000);
}

/// Distance of an integer from zero.
pub open spec fn distance(n: int) -> int {
    if n < 0 {
        -n
    } else {
        n
    }
}

/// An integer of at most 24 bits becomes the single of the same value.
pub proof fn law_integer_kept(n: int)
    requires
        -0x100_0000 < n < 0x100_0000,
    ensures
        sign_of(f32_of_int(n)) == 1 <==> n < 0,
        units(f32_of_int(n)) == distance(n) * pow2(149),
{
    if n == 0 {
        lemma_fields(0, 0, 0);
        assert(distance(n) * pow2(149) == 0) by (nonlinear_arith)
            requires
                distance(n) == 0,
        ;
        assert(units(signed_bits(0, 0)) == 0);
    } else if n < 0 {
        lemma_small(1, -n, 127);
    } else {
        lemma_small(0, n, 127);
    }
}

/// A longer integer becomes the nearest single: with its highest bit at `k` at
/// most half of two to the power `k - 23` away; of two that are equally near the
/// bits are even.
pub proof fn law_integer_nearest(n: int, k: nat)
    requires
        24 <= k <= 31,
        pow2(k) <= distance(n) < pow2(k + 1),
    ensures
        sign_of(f32_of_int(n)) == 1 <==> n < 0,
        is_nearest(
            distance(n) * pow2(149),
            units(f32_of_int(n)),
            pow2((k + 126) as nat) as int,
            f32_of_int(n) as int,
        ),
{
    let m = distance(n);
    let sign: int = if n < 0 {
        1
    } else {
        0
    };
    lemma_top_bit(m as nat, k);
    let s = (k - 23) as nat;
    let d = pow2(s) as int;
    let q = rne_div(m, d);
    lemma2_to64();
    lemma_pow2_pos(s);
    lemma_pow2_strictly_increases(23, k);
    lemma_pow2_unfold(24);
    if k > 24 {
        lemma_pow2_strictly_increases(24, k);
    }
    assert(m >= 0x100_0000);
    law_rounds_to_nearest(m, d, 0x80_0000);
    law_rounds_to_nearest(m, d, 0x100_0000);
    lemma_pow2_adds(s, 23);
    lemma_pow2_adds(s, 24);
    assert(s + 23 == k && s + 24 == k + 1);
    vstd::arithmetic::div_mod::lemma_fundamental_div_mod(m, d);
    vstd::arithmetic::div_mod::lemma_mod_bound(m, d);
    assert(0x80_0000 <= m / d < 0x100_0000) by (nonlinear_arith)
        requires
            m == d * (m / d) + m % d,
            0 <= m % d < d,
            d * 0x80_0000 <= m < d * 0x100_0000,
            d > 0,
    ;
    assert(0x80_0000 <= q <= 0x100_0000);
    lemma_carry(sign, 127 + k as int, q - 0x80_0000);
    let f = f32_of_int(n);
    assert((127 + k - 1) as nat == (k + 126) as nat);
    let u = pow2((k + 126) as nat) as int;
    let p = pow2(149) as int;
    lemma_pow2_pos(149);
    lemma_pow2_adds(s, 149);
    assert(s + 149 == (k + 126) as nat);
    assert(u == d * p);
    assert(units(f) == q * u);
    let x = m - q * d;
    assert(m * p - q * u == x * p) by (nonlinear_arith)
        requires
            x == m - q * d,
            u == d * p,
    ;
    assert(2 * (x * p) <= u && 2 * (-(x * p)) <= u) by (nonlinear_arith)
        requires
            -d <= 2 * x <= d,
            u == d * p,
            p > 0,
    ;
    if 2 * (x * p) == u || 2 * (-(x * p)) == u {
        assert(2 * x == d || 2 * x == -d) by (nonlinear_arith)
            requires
                2 * (x * p) == u || 2 * (-(x * p)) == u,
                u == d * p,
                p > 0,
        ;
    }
    assert(f as int % 2 == q % 2);
}

/// Whether an integer is that of a finite single: the nearest one, even of two
/// that are equally near, or the nearest one on the side of zero.
pub open spec fn is_whole(b: u32, nearest: bool, n: int) -> bool {
    &&& n != 0 ==> (n < 0 <==> sign_of(b) == 1)
    &&& if nearest {
        is_nearest(units(b), distance(n) * pow2(149), pow2(149) as int, n)
    } else {
        distance(n) * pow2(149) <= units(b) < (distance(n) + 1) * pow2(149)
    }
}

/// The end of a range nearest to an integer, or the integer where it lies inside.
pub open spec fn clamped(n: int, lo: int, hi: int) -> int {
    if n < lo {
        lo
    } else if n > hi {
        hi
    } else {
        n
    }
}

/// A single becomes its integer, brought into the range: an infinity gives the
/// end of its sign and a NaN zero.
pub proof fn law_whole(b: u32, nearest: bool, lo: int, hi: int)
    requires
        lo <= 0 <= hi,
    ensures
        is_nan(b) ==> int_of_f32(b, nearest, lo, hi) == 0,
        !is_nan(b) && exp_of(b) == 255 ==> int_of_f32(b, nearest, lo, hi) == if sign_of(b) == 1 {
            lo
        } else {
            hi
        },
        exp_of(b) < 255 ==> exists|n: int| #[trigger]
            is_whole(b, nearest, n) && int_of_f32(b, nearest, lo, hi) == clamped(n, lo, hi),
{
    let exp = exp_of(b);
    let m = mant_of(b) + 0x80_0000;
    if exp < 255 {
        let w = whole_part(b, nearest);
        let n = if sign_of(b) == 1 {
            -w
        } else {
            w
        };
        let p = pow2(149) as int;
        lemma_pow2_pos(149);
        if exp == 0 {
            lemma2_to64();
            lemma_pow2_strictly_increases(24, 149);
            assert(0 * p == 0);
            assert(1 * p == p);
            assert(distance(n) * p == 0) by (nonlinear_arith)
                requires
                    distance(n) == 0,
            ;
            assert((distance(n) + 1) * p == p) by (nonlinear_arith)
                requires
                    distance(n) == 0,
            ;
        } else if exp >= 150 {
            lemma_pow2_pos((exp - 150) as nat);
            lemma_pow2_adds((exp - 150) as nat, 149);
            assert((exp - 150) as nat + 149 == (exp - 1) as nat);
            assert(w >= 0) by (nonlinear_arith)
                requires
                    w == m * pow2((exp - 150) as nat),
                    m >= 0,
            ;
            assert(m * pow2((exp - 150) as nat) * p == m * pow2((exp - 1) as nat))
                by (nonlinear_arith)
                requires
                    pow2((exp - 1) as nat) == pow2((exp - 150) as nat) * p,
            ;
            assert((w + 1) * p == w * p + p) by (nonlinear_arith);
        } else {
            let d = pow2((150 - exp) as nat) as int;
            lemma_pow2_pos((150 - exp) as nat);
            if nearest {
                lemma_round_small(exp, mant_of(b), 127);
                assert((127 + 23 - exp) as nat == (150 - exp) as nat);
                assert((127 + 22) as nat == 149nat);
            } else {
                let e = pow2((exp - 1) as nat) as int;
                lemma_pow2_pos((exp - 1) as nat);
                lemma_pow2_adds((150 - exp) as nat, (exp - 1) as nat);
                assert((150 - exp) as nat + (exp - 1) as nat == 149nat);
                vstd::arithmetic::div_mod::lemma_fundamental_div_mod(m, d);
                vstd::arithmetic::div_mod::lemma_mod_bound(m, d);
                vstd::arithmetic::div_mod::lemma_div_pos_is_pos(m, d);
                assert(w * p <= m * e < (w + 1) * p) by (nonlinear_arith)
                    requires
                        m == d * w + m % d,
                        0 <= m % d < d,
                        p == d * e,
                        e > 0,
                ;
            }
        }
        assert(distance(n) == w);
        assert(is_whole(b, nearest, n));
    }
}

} // verus!
