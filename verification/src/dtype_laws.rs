//! What conversions between element types keep.
use vstd::prelude::*;
use vstd::arithmetic::power2::*;
use crate::dtype::{
    bf16_of, e4m3_of, e5m2_of, exp_of, f16_of, f32_of_bf16, f32_of_e4m3, f32_of_e5m2, f32_of_f16,
    f32_of_int, int_of_f32, is_nan, lemma_top_bit_bounds, mant_of, normalized, rne_div, sign_of,
    signed_bits, top_bit,
};

verus! {

/// Rounded division gives a nearest integer, and the even one of two that are
/// equally near.
pub proof fn law_rounds_to_nearest(n: int, d: int, other: int)
    requires
        d > 0,
    ensures
        -d <= 2 * (n - rne_div(n, d) * d) <= d,
        2 * (n - rne_div(n, d) * d) == d || 2 * (n - rne_div(n, d) * d) == -d ==> rne_div(n, d) % 2
            == 0,
        other * d <= n ==> n - other * d >= n - rne_div(n, d) * d && n - other * d >= rne_div(n, d)
            * d - n,
        other * d >= n ==> other * d - n >= n - rne_div(n, d) * d && other * d - n >= rne_div(n, d)
            * d - n,
{
    let q = n / d;
    let r = n % d;
    vstd::arithmetic::div_mod::lemma_fundamental_div_mod(n, d);
    assert(n == q * d + r) by (nonlinear_arith)
        requires
            n == d * q + r,
    ;
    assert((q + 1) * d == q * d + d) by (nonlinear_arith);
    if other <= q {
        assert(other * d <= q * d) by (nonlinear_arith)
            requires
                other <= q,
                d > 0,
        ;
    } else {
        assert(other * d >= (q + 1) * d) by (nonlinear_arith)
            requires
                other >= q + 1,
                d > 0,
        ;
    }
}

/// A multiple is divided without rounding.
proof fn lemma_exact(q: int, d: int)
    requires
        d > 0,
    ensures
        rne_div(q * d, d) == q,
{
    vstd::arithmetic::div_mod::lemma_fundamental_div_mod_converse(q * d, d, q, 0);
}

/// Fields of bits that are put together from a sign, an exponent and a mantissa.
pub proof fn lemma_fields(sign: int, exp: int, mant: int)
    requires
        0 <= sign <= 1,
        0 <= exp <= 255,
        0 <= mant < 0x80_0000,
    ensures
        ({
            let b = signed_bits(sign, exp * 0x80_0000 + mant);
            &&& sign_of(b) == sign
            &&& exp_of(b) == exp
            &&& mant_of(b) == mant
            &&& b as int % 0x8000_0000 == exp * 0x80_0000 + mant
        }),
{
}

/// Fields of a number that was brought into normal form.
pub proof fn lemma_normalized(sign: int, n: int, unit: int)
    requires
        0 <= sign <= 1,
        0 < n < 0x100_0000,
        0 <= unit,
        unit + 23 <= 255,
    ensures
        ({
            let k = top_bit(n as nat);
            let b = signed_bits(sign, normalized(n, unit));
            &&& k <= 23
            &&& sign_of(b) == sign
            &&& exp_of(b) == unit + k
            &&& mant_of(b) + 0x80_0000 == n * pow2((23 - k) as nat)
            &&& b as int % 0x8000_0000 == normalized(n, unit)
        }),
{
    let k = top_bit(n as nat);
    lemma_top_bit_bounds(n as nat);
    lemma2_to64();
    if k > 23 {
        if k > 24 {
            lemma_pow2_strictly_increases(24, k);
        }
    }
    let s = (23 - k) as nat;
    let m = n * pow2(s);
    lemma_pow2_adds(k, s);
    lemma_pow2_adds(k + 1, s);
    lemma_pow2_pos(s);
    assert(0x80_0000 <= m < 0x100_0000) by (nonlinear_arith)
        requires
            m == n * pow2(s),
            pow2(k) <= n < pow2(k + 1),
            pow2(k) * pow2(s) == 0x80_0000,
            pow2(k + 1) * pow2(s) == 0x100_0000,
            pow2(s) > 0,
    ;
    lemma_fields(sign, unit + k, m - 0x80_0000);
}

/// A bfloat16 number converts to a single and back without change.
pub proof fn law_bf16_round_trip(h: u16)
    requires
        !is_nan(f32_of_bf16(h)),
    ensures
        bf16_of(f32_of_bf16(h)) == h,
{
    lemma_exact(h as int, 0x1_0000);
}

/// A half-precision number converts to a single and back without change.
pub proof fn law_f16_round_trip(h: u16)
    requires
        h % 0x8000 <= 0x7C00,
    ensures
        f16_of(f32_of_f16(h)) == h,
{
    let sign = h as int / 0x8000;
    let exp = (h as int / 0x400) % 0x20;
    let mant = h as int % 0x400;
    if exp == 31 {
        assert(mant == 0);
        lemma_fields(sign, 255, 0);
    } else if exp == 0 {
        if mant == 0 {
            lemma_fields(sign, 0, 0);
        } else {
            lemma_normalized(sign, mant, 103);
            let k = top_bit(mant as nat);
            lemma2_to64();
            lemma_small_top_bit(mant as nat, 10);
            let d = pow2((23 - k) as nat) as int;
            lemma_pow2_pos((23 - k) as nat);
            lemma_exact(mant, d);
        }
    } else {
        lemma_fields(sign, exp + 112, mant * 0x2000);
        lemma_exact(mant, 0x2000);
    }
}

/// A single that a half-precision code stands for keeps its bits when it is
/// stored as half precision and read again, even if it is NaN.
pub proof fn law_f16_value_kept(h: u16)
    ensures
        f32_of_f16(f16_of(f32_of_f16(h))) == f32_of_f16(h),
{
    if h % 0x8000 <= 0x7C00 {
        law_f16_round_trip(h);
    } else {
        let sign = h as int / 0x8000;
        let mant = h as int % 0x400;
        let m = (0x200 + mant % 0x200) * 0x2000;
        lemma_fields(sign, 255, m);
        assert(m / 0x2000 == 0x200 + mant % 0x200);
    }
}

/// A number below a power of two has its highest bit below it.
pub proof fn lemma_small_top_bit(n: nat, k: nat)
    requires
        0 < n < pow2(k),
    ensures
        top_bit(n) < k,
{
    lemma_top_bit_bounds(n);
    if top_bit(n) >= k {
        if top_bit(n) > k {
            lemma_pow2_strictly_increases(k, top_bit(n));
        }
    }
}

/// An E4M3 code converts to a single and back without change; the two codes for
/// NaN give the positive one.
pub proof fn law_e4m3_round_trip(b: u8)
    ensures
        e4m3_of(f32_of_e4m3(b)) == if b == 0xFF {
            0x7F
        } else {
            b
        },
{
    let sign = b as int / 0x80;
    let exp = (b as int / 8) % 16;
    let mant = b as int % 8;
    if exp == 0 {
        if mant == 0 {
            lemma_fields(sign, 0, 0);
        } else {
            lemma2_to64();
            lemma_normalized(sign, mant, 118);
            let k = top_bit(mant as nat);
            lemma_small_top_bit(mant as nat, 3);
            let d = pow2((23 - k) as nat) as int;
            lemma_pow2_pos((23 - k) as nat);
            lemma_exact(mant, d);
        }
    } else if exp == 15 && mant == 7 {
        assert(is_nan(crate::dtype::QUIET_NAN));
    } else {
        lemma_fields(sign, exp + 120, mant * 0x10_0000);
        lemma_exact(mant, 0x10_0000);
    }
}

/// An E5M2 code of a finite number converts to a single and back without change.
pub proof fn law_e5m2_round_trip(b: u8)
    requires
        b % 0x80 < 0x7C,
    ensures
        e5m2_of(f32_of_e5m2(b)) == b,
{
    let sign = b as int / 0x80;
    let exp = (b as int / 4) % 32;
    let mant = b as int % 4;
    if exp == 0 {
        if mant == 0 {
            lemma_fields(sign, 0, 0);
        } else {
            lemma2_to64();
            lemma_normalized(sign, mant, 111);
            let k = top_bit(mant as nat);
            lemma_small_top_bit(mant as nat, 2);
            let d = pow2((23 - k) as nat) as int;
            lemma_pow2_pos((23 - k) as nat);
            lemma_exact(mant, d);
        }
    } else {
        lemma_fields(sign, exp + 112, mant * 0x20_0000);
        lemma_exact(mant, 0x20_0000);
    }
}

/// An integer of at most 24 bits converts to a single and back without change.
pub proof fn law_integer_round_trip(n: int, nearest: bool, lo: int, hi: int)
    requires
        -0x100_0000 < n < 0x100_0000,
        lo <= n <= hi,
    ensures
        int_of_f32(f32_of_int(n), nearest, lo, hi) == n,
{
    let sign: int = if n < 0 {
        1
    } else {
        0
    };
    let m = if n < 0 {
        -n
    } else {
        n
    };
    if m == 0 {
        lemma_fields(0, 0, 0);
    } else {
        lemma_normalized(sign, m, 127);
        let k = top_bit(m as nat);
        let d = pow2((23 - k) as nat) as int;
        lemma_pow2_pos((23 - k) as nat);
        lemma_exact(m, d);
        vstd::arithmetic::div_mod::lemma_fundamental_div_mod_converse(m * d, d, m, 0);
        if k == 23 {
            lemma2_to64();
            assert((150 - (127 + k)) as nat == 0nat);
            assert(m * 1 == m);
        }
    }
}

} // verus!
