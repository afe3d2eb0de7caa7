//! Conversions between the element types of a tensor.
//!
//! A real number is held as the bit pattern of an IEEE 754 single: sign in bit
//! 31, biased exponent in bits 23 to 30, mantissa in bits 0 to 22.
use vstd::prelude::*;
use vstd::arithmetic::power2::*;
use crate::ir::DType;

verus! {

/// Bits of the quiet NaN that decoding gives for a NaN code.
pub const QUIET_NAN: u32 = 0x7FC0_0000;

/// Bits of positive infinity.
pub const INFINITY: u32 = 0x7F80_0000;

/// Bits of `1.0`.
pub const ONE: u32 = 0x3F80_0000;

/// Sign of a single: 0 or 1.
pub open spec fn sign_of(b: u32) -> int {
    b as int / 0x8000_0000
}

/// Biased exponent of a single.
pub open spec fn exp_of(b: u32) -> int {
    (b as int / 0x80_0000) % 0x100
}

/// Mantissa of a single, without the hidden bit.
pub open spec fn mant_of(b: u32) -> int {
    b as int % 0x80_0000
}

/// Whether the bits are those of a NaN.
pub open spec fn is_nan(b: u32) -> bool {
    exp_of(b) == 255 && mant_of(b) != 0
}

/// Whether the bits are those of a finite number.
pub open spec fn is_finite(b: u32) -> bool {
    exp_of(b) != 255
}

/// Whether the bits are those of a finite number greater than zero.
pub open spec fn is_finite_positive(b: u32) -> bool {
    0 < b < INFINITY
}

/// Whether the bits are those of a finite number that is not less than zero
/// (negative zero is not less than zero).
pub open spec fn is_finite_nonnegative(b: u32) -> bool {
    b < INFINITY || b == 0x8000_0000
}

/// The integer nearest to `n / d`, the even one of two that are equally near.
pub open spec fn rne_div(n: int, d: int) -> int {
    let q = n / d;
    let r = n % d;
    if 2 * r < d {
        q
    } else if 2 * r > d {
        q + 1
    } else if q % 2 == 0 {
        q
    } else {
        q + 1
    }
}

/// Position of the highest set bit of `n`.
pub open spec fn top_bit(n: nat) -> nat
    decreases n,
{
    if n < 2 {
        0
    } else {
        1 + top_bit(n / 2)
    }
}

/// Magnitude bits of the single that equals `n` times two to the power
/// `unit - 127`, for `0 < n < 2^24`.
pub open spec fn normalized(n: int, unit: int) -> int {
    let k = top_bit(n as nat);
    (unit + k) * 0x80_0000 + n * pow2((23 - k) as nat) - 0x80_0000
}

/// Bits with the given sign and magnitude.
pub open spec fn signed_bits(sign: int, magnitude: int) -> u32 {
    (sign * 0x8000_0000 + magnitude) as u32
}

pub proof fn lemma_top_bit(n: nat, k: nat)
    requires
        pow2(k) <= n < pow2(k + 1),
    ensures
        top_bit(n) == k,
    decreases k,
{
    lemma2_to64();
    if k == 0 {
        assert(n < 2);
    } else {
        lemma_pow2_unfold(k);
        lemma_pow2_unfold(k + 1);
        assert((k + 1 - 1) as nat == k);
        assert(pow2((k - 1) as nat) >= 1) by {
            lemma_pow2_pos((k - 1) as nat);
        }
        assert(n >= 2);
        lemma_top_bit(n / 2, (k - 1) as nat);
    }
}

/// The position of the highest bit bounds the number on both sides.
pub proof fn lemma_top_bit_bounds(n: nat)
    requires
        n > 0,
    ensures
        pow2(top_bit(n)) <= n < pow2(top_bit(n) + 1),
    decreases n,
{
    lemma2_to64();
    if n >= 2 {
        lemma_top_bit_bounds(n / 2);
        lemma_pow2_unfold(top_bit(n));
        lemma_pow2_unfold(top_bit(n) + 1);
        assert((top_bit(n) + 1 - 1) as nat == top_bit(n));
        assert((top_bit(n) - 1) as nat == top_bit(n / 2));
    }
}

/// Two to the power `s`.
fn power_of_two(s: u32) -> (r: u64)
    requires
        s < 64,
    ensures
        r == pow2(s as nat),
{
    let mut r: u64 = 1;
    proof {
        lemma2_to64();
        lemma2_to64_rest();
    }
    for i in 0..s
        invariant
            s < 64,
            r == pow2(i as nat),
    {
        proof {
            lemma_pow2_unfold((i + 1) as nat);
            if i + 1 < 63 {
                lemma_pow2_strictly_increases((i + 1) as nat, 63);
            }
            lemma2_to64_rest();
        }
        r = r * 2;
    }
    r
}

/// The integer nearest to `n / 2^s`, ties to even.
fn round_shift(n: u32, s: u32) -> (r: u32)
    requires
        1 <= s,
    ensures
        r == rne_div(n as int, pow2(s as nat) as int),
        r <= n,
{
    proof {
        lemma_pow2_pos(s as nat);
    }
    if s >= 34 {
        proof {
            lemma2_to64_rest();
            if s > 34 {
                lemma_pow2_strictly_increases(34, s as nat);
            }
            vstd::arithmetic::div_mod::lemma_small_mod(n as nat, pow2(s as nat));
            vstd::arithmetic::div_mod::lemma_basic_div(n as int, pow2(s as nat) as int);
        }
        return 0;
    }
    let d: u64 = power_of_two(s);
    let q: u64 = n as u64 / d;
    let r: u64 = n as u64 % d;
    proof {
        vstd::arithmetic::div_mod::lemma_fundamental_div_mod(n as int, d as int);
        vstd::arithmetic::div_mod::lemma_mod_bound(n as int, d as int);
        lemma2_to64();
        lemma2_to64_rest();
        if s > 1 {
            lemma_pow2_strictly_increases(1, s as nat);
        }
        if s < 34 {
            lemma_pow2_strictly_increases(s as nat, 34);
        }
        assert(q >= 1 ==> q + 1 <= n) by (nonlinear_arith)
            requires
                n == d * q + r,
                r >= 0,
                d >= 2,
        ;
    }
    if 2 * r < d {
        q as u32
    } else if 2 * r > d {
        (q + 1) as u32
    } else if q % 2 == 0 {
        q as u32
    } else {
        (q + 1) as u32
    }
}

/// Magnitude bits of `n` times two to the power `unit - 127`.
fn normalize(n: u32, unit: u32) -> (r: u32)
    requires
        0 < n < 0x100_0000,
        1 <= unit <= 200,
    ensures
        r == normalized(n as int, unit as int),
        r < 0x7F80_0000,
{
    let mut v: u32 = n;
    let mut k: u32 = 23;
    proof {
        lemma2_to64();
        assert(n * pow2(0) == n);
    }
    while v < 0x80_0000
        invariant
            0 < n < 0x100_0000,
            k <= 23,
            0 < v < 0x100_0000,
            v == n * pow2((23 - k) as nat),
        decreases 0x100_0000 - v,
    {
        proof {
            if k == 0 {
                lemma2_to64();
                assert(v >= 0x80_0000) by (nonlinear_arith)
                    requires
                        v == n * pow2((23 - k) as nat),
                        n > 0,
                        k == 0,
                        pow2(23) == 0x80_0000,
                ;
            }
            lemma_pow2_unfold((23 - k + 1) as nat);
            assert(n * pow2((23 - (k - 1)) as nat) == 2 * (n * pow2((23 - k) as nat)))
                by (nonlinear_arith)
                requires
                    pow2((23 - (k - 1)) as nat) == 2 * pow2((23 - k) as nat),
            ;
        }
        v = v * 2;
        k = k - 1;
    }
    proof {
        lemma2_to64();
        let p = pow2((23 - k) as nat) as int;
        lemma_pow2_adds((23 - k) as nat, k as nat);
        lemma_pow2_adds((23 - k) as nat, (k + 1) as nat);
        assert((23 - k) as nat + k as nat == 23);
        assert((23 - k) as nat + (k + 1) as nat == 24);
        lemma_pow2_pos((23 - k) as nat);
        assert(pow2(k as nat) <= n < pow2((k + 1) as nat)) by (nonlinear_arith)
            requires
                p > 0,
                p * pow2(k as nat) == 0x80_0000,
                p * pow2((k + 1) as nat) == 0x100_0000,
                0x80_0000 <= n * p < 0x100_0000,
        ;
        lemma_top_bit(n as nat, k as nat);
    }
    (unit + k) * 0x80_0000 + v - 0x80_0000
}

/// Magnitude of a half-precision code for a finite single: the code whose
/// value is nearest, ties to even; a carry out of the mantissa raises the
/// exponent and, at the top, gives infinity.
pub open spec fn f16_magnitude(exp: int, mant: int) -> int {
    if exp >= 143 {
        0x7C00
    } else if exp >= 113 {
        (exp - 112) * 0x400 + rne_div(mant, 0x2000)
    } else if exp >= 1 {
        rne_div(mant + 0x80_0000, pow2((126 - exp) as nat) as int)
    } else {
        0
    }
}

/// Half-precision bits of a single, rounded to nearest even.
pub open spec fn f16_of(b: u32) -> u16 {
    let sign = sign_of(b) * 0x8000;
    if is_nan(b) {
        let q = mant_of(b) / 0x2000;
        (sign + 0x7E00 + (if q == 0 {
            1
        } else {
            q % 0x200
        })) as u16
    } else if exp_of(b) == 255 {
        (sign + 0x7C00) as u16
    } else {
        (sign + f16_magnitude(exp_of(b), mant_of(b))) as u16
    }
}

/// Converts a single to half precision, rounding to nearest even: an overflow
/// gives infinity, a NaN stays a quiet NaN.
pub fn f32_to_f16(val: u32) -> (r: u16)
    ensures
        r == f16_of(val),
{
    let sign: u32 = val / 0x8000_0000 * 0x8000;
    let exp: u32 = (val / 0x80_0000) % 0x100;
    let mant: u32 = val % 0x80_0000;
    proof {
        lemma2_to64();
    }
    if exp == 255 {
        if mant != 0 {
            let q: u32 = mant / 0x2000;
            let payload: u32 = if q == 0 {
                1
            } else {
                q % 0x200
            };
            (sign + 0x7E00 + payload) as u16
        } else {
            (sign + 0x7C00) as u16
        }
    } else if exp >= 143 {
        (sign + 0x7C00) as u16
    } else if exp >= 113 {
        let m: u32 = round_shift(mant, 13);
        (sign + (exp - 112) * 0x400 + m) as u16
    } else if exp >= 1 {
        let m: u32 = round_shift(mant + 0x80_0000, 126 - exp);
        proof {
            if exp < 112 {
                lemma_pow2_strictly_increases(14, (126 - exp) as nat);
            }
            lemma_rne_bound((mant + 0x80_0000) as int, pow2((126 - exp) as nat) as int, 0x400);
        }
        (sign + m) as u16
    } else {
        sign as u16
    }
}

/// A quotient that is at most `bound` rounds to at most `bound`.
proof fn lemma_rne_bound(n: int, d: int, bound: int)
    requires
        0 <= n,
        0 < d,
        n <= bound * d,
    ensures
        0 <= rne_div(n, d) <= bound,
{
    vstd::arithmetic::div_mod::lemma_fundamental_div_mod(n, d);
    vstd::arithmetic::div_mod::lemma_mod_bound(n, d);
    let q = n / d;
    assert(0 <= q <= bound) by (nonlinear_arith)
        requires
            n == d * q + n % d,
            0 <= n % d < d,
            0 <= n <= bound * d,
            d > 0,
    ;
    if q == bound {
        assert(n % d == 0) by (nonlinear_arith)
            requires
                n == d * q + n % d,
                0 <= n % d,
                n <= bound * d,
                q == bound,
        ;
    }
}

/// Bits of the single that a half-precision code stands for.
pub open spec fn f32_of_f16(h: u16) -> u32 {
    let sign = h as int / 0x8000;
    let exp = (h as int / 0x400) % 0x20;
    let mant = h as int % 0x400;
    if exp == 31 {
        if mant == 0 {
            signed_bits(sign, 0x7F80_0000)
        } else {
            signed_bits(sign, 0x7F80_0000 + (0x200 + mant % 0x200) * 0x2000)
        }
    } else if exp == 0 {
        if mant == 0 {
            signed_bits(sign, 0)
        } else {
            signed_bits(sign, normalized(mant, 103))
        }
    } else {
        signed_bits(sign, (exp + 112) * 0x80_0000 + mant * 0x2000)
    }
}

/// Converts a half-precision code to the single of the same value; a NaN
/// becomes quiet.
pub fn f16_to_f32(bits: u16) -> (r: u32)
    ensures
        r == f32_of_f16(bits),
{
    let sign: u32 = (bits as u32 / 0x8000) * 0x8000_0000;
    let exp: u32 = (bits as u32 / 0x400) % 0x20;
    let mant: u32 = bits as u32 % 0x400;
    if exp == 31 {
        if mant == 0 {
            sign + 0x7F80_0000
        } else {
            sign + 0x7F80_0000 + (0x200 + mant % 0x200) * 0x2000
        }
    } else if exp == 0 {
        if mant == 0 {
            sign
        } else {
            sign + normalize(mant, 103)
        }
    } else {
        sign + (exp + 112) * 0x80_0000 + mant * 0x2000
    }
}

/// bfloat16 bits of a single, rounded to nearest even; a NaN keeps its upper
/// half with the quiet bit set.
pub open spec fn bf16_of(b: u32) -> u16 {
    if is_nan(b) {
        let q = b as int / 0x1_0000;
        (if (q / 0x40) % 2 == 1 {
            q
        } else {
            q + 0x40
        }) as u16
    } else {
        rne_div(b as int, 0x1_0000) as u16
    }
}

/// Converts a single to bfloat16, rounding to nearest even.
pub fn f32_to_bf16(val: u32) -> (r: u16)
    ensures
        r == bf16_of(val),
{
    let exp: u32 = (val / 0x80_0000) % 0x100;
    let mant: u32 = val % 0x80_0000;
    if exp == 255 && mant != 0 {
        let q: u32 = val / 0x1_0000;
        if (q / 0x40) % 2 == 1 {
            q as u16
        } else {
            (q + 0x40) as u16
        }
    } else {
        proof {
            lemma2_to64();
        }
        round_shift(val, 16) as u16
    }
}

/// Bits of the single that a bfloat16 code stands for.
pub open spec fn f32_of_bf16(h: u16) -> u32 {
    (h * 0x1_0000) as u32
}

/// Converts a bfloat16 code to the single of the same value.
pub fn bf16_to_f32(bits: u16) -> (r: u32)
    ensures
        r == f32_of_bf16(bits),
{
    bits as u32 * 0x1_0000
}

/// Bits of the single that an E4M3 code stands for.
pub open spec fn f32_of_e4m3(b: u8) -> u32 {
    let sign = b as int / 0x80;
    let exp = (b as int / 8) % 16;
    let mant = b as int % 8;
    if exp == 0 {
        if mant == 0 {
            signed_bits(sign, 0)
        } else {
            signed_bits(sign, normalized(mant, 118))
        }
    } else if exp == 15 && mant == 7 {
        QUIET_NAN
    } else {
        signed_bits(sign, (exp + 120) * 0x80_0000 + mant * 0x10_0000)
    }
}

/// Decodes an OCP FP8 E4M3 code.
pub fn fp8_e4m3_decode(b: u8) -> (r: u32)
    ensures
        r == f32_of_e4m3(b),
{
    let sign: u32 = (b as u32 / 0x80) * 0x8000_0000;
    let exp: u32 = (b as u32 / 8) % 16;
    let mant: u32 = b as u32 % 8;
    if exp == 0 {
        if mant == 0 {
            sign
        } else {
            sign + normalize(mant, 118)
        }
    } else if exp == 15 && mant == 7 {
        QUIET_NAN
    } else {
        sign + (exp + 120) * 0x80_0000 + mant * 0x10_0000
    }
}

/// Magnitude of the E4M3 code nearest to a finite single of at most 448, ties
/// to even.
pub open spec fn e4m3_magnitude(exp: int, mant: int) -> int {
    if exp >= 121 {
        (exp - 120) * 8 + rne_div(mant, 0x10_0000)
    } else if exp >= 1 {
        rne_div(mant + 0x80_0000, pow2((141 - exp) as nat) as int)
    } else {
        0
    }
}

/// E4M3 code of a single: nearest with ties to even, saturating at 448. A value
/// that rounds to zero gives positive zero, a zero keeps its sign.
pub open spec fn e4m3_of(b: u32) -> u8 {
    let sign = sign_of(b) * 0x80;
    let magnitude = b as int % 0x8000_0000;
    if is_nan(b) {
        0x7F
    } else if magnitude > 0x43E0_0000 {
        (sign + 0x7E) as u8
    } else if magnitude == 0 {
        sign as u8
    } else {
        let code = e4m3_magnitude(exp_of(b), mant_of(b));
        if code == 0 {
            0
        } else {
            (sign + code) as u8
        }
    }
}

/// Encodes a single as OCP FP8 E4M3, saturating at 448 in magnitude.
pub fn fp8_e4m3_encode(v: u32) -> (r: u8)
    ensures
        r == e4m3_of(v),
{
    let sign: u32 = (v / 0x8000_0000) * 0x80;
    let magnitude: u32 = v % 0x8000_0000;
    let exp: u32 = (v / 0x80_0000) % 0x100;
    let mant: u32 = v % 0x80_0000;
    if exp == 255 && mant != 0 {
        return 0x7F;
    }
    if magnitude > 0x43E0_0000 {
        return (sign + 0x7E) as u8;
    }
    if magnitude == 0 {
        return sign as u8;
    }
    proof {
        lemma2_to64();
    }
    let code: u32 = if exp >= 121 {
        let m: u32 = round_shift(mant, 20);
        proof {
            assert(exp <= 135);
            if exp == 135 {
                assert(mant <= 0x60_0000);
                lemma_rne_bound(mant as int, 0x10_0000, 6);
            } else {
                lemma_rne_bound(mant as int, 0x10_0000, 8);
            }
        }
        (exp - 120) * 8 + m
    } else if exp >= 1 {
        let m: u32 = round_shift(mant + 0x80_0000, 141 - exp);
        proof {
            if exp < 120 {
                lemma_pow2_strictly_increases(21, (141 - exp) as nat);
            }
            lemma_rne_bound((mant + 0x80_0000) as int, pow2((141 - exp) as nat) as int, 8);
        }
        m
    } else {
        0
    };
    if code == 0 {
        0
    } else {
        (sign + code) as u8
    }
}

/// Bits of the single that an E5M2 code stands for.
pub open spec fn f32_of_e5m2(b: u8) -> u32 {
    let sign = b as int / 0x80;
    let exp = (b as int / 4) % 32;
    let mant = b as int % 4;
    if exp == 0 {
        if mant == 0 {
            signed_bits(sign, 0)
        } else {
            signed_bits(sign, normalized(mant, 111))
        }
    } else if exp == 31 {
        if mant == 0 {
            signed_bits(sign, 0x7F80_0000)
        } else {
            QUIET_NAN
        }
    } else {
        signed_bits(sign, (exp + 112) * 0x80_0000 + mant * 0x20_0000)
    }
}

/// Decodes an OCP FP8 E5M2 code.
pub fn fp8_e5m2_decode(b: u8) -> (r: u32)
    ensures
        r == f32_of_e5m2(b),
{
    let sign: u32 = (b as u32 / 0x80) * 0x8000_0000;
    let exp: u32 = (b as u32 / 4) % 32;
    let mant: u32 = b as u32 % 4;
    if exp == 0 {
        if mant == 0 {
            sign
        } else {
            sign + normalize(mant, 111)
        }
    } else if exp == 31 {
        if mant == 0 {
            sign + 0x7F80_0000
        } else {
            QUIET_NAN
        }
    } else {
        sign + (exp + 112) * 0x80_0000 + mant * 0x20_0000
    }
}

/// Magnitude of the E5M2 code nearest to a finite single of at most 57344, ties
/// to even.
pub open spec fn e5m2_magnitude(exp: int, mant: int) -> int {
    if exp >= 113 {
        (exp - 112) * 4 + rne_div(mant, 0x20_0000)
    } else if exp >= 1 {
        rne_div(mant + 0x80_0000, pow2((134 - exp) as nat) as int)
    } else {
        0
    }
}

/// E5M2 code of a single: nearest with ties to even, saturating at 57344. A
/// value that rounds to zero gives positive zero, a zero keeps its sign.
pub open spec fn e5m2_of(b: u32) -> u8 {
    let sign = sign_of(b) * 0x80;
    let magnitude = b as int % 0x8000_0000;
    if is_nan(b) {
        0x7F
    } else if magnitude > 0x4760_0000 {
        (sign + 0x7B) as u8
    } else if magnitude == 0 {
        sign as u8
    } else {
        let code = e5m2_magnitude(exp_of(b), mant_of(b));
        if code == 0 {
            0
        } else {
            (sign + code) as u8
        }
    }
}

/// Encodes a single as OCP FP8 E5M2, saturating at 57344 in magnitude.
pub fn fp8_e5m2_encode(v: u32) -> (r: u8)
    ensures
        r == e5m2_of(v),
{
    let sign: u32 = (v / 0x8000_0000) * 0x80;
    let magnitude: u32 = v % 0x8000_0000;
    let exp: u32 = (v / 0x80_0000) % 0x100;
    let mant: u32 = v % 0x80_0000;
    if exp == 255 && mant != 0 {
        return 0x7F;
    }
    if magnitude > 0x4760_0000 {
        return (sign + 0x7B) as u8;
    }
    if magnitude == 0 {
        return sign as u8;
    }
    proof {
        lemma2_to64();
    }
    let code: u32 = if exp >= 113 {
        let m: u32 = round_shift(mant, 21);
        proof {
            assert(exp <= 142);
            if exp == 142 {
                assert(mant <= 0x60_0000);
                lemma_rne_bound(mant as int, 0x20_0000, 3);
            } else {
                lemma_rne_bound(mant as int, 0x20_0000, 4);
            }
        }
        (exp - 112) * 4 + m
    } else if exp >= 1 {
        let m: u32 = round_shift(mant + 0x80_0000, 134 - exp);
        proof {
            if exp < 112 {
                lemma_pow2_strictly_increases(22, (134 - exp) as nat);
            }
            lemma_rne_bound((mant + 0x80_0000) as int, pow2((134 - exp) as nat) as int, 4);
        }
        m
    } else {
        0
    };
    if code == 0 {
        0
    } else {
        (sign + code) as u8
    }
}

/// Magnitude bits of the single nearest to a natural number, ties to even.
pub open spec fn f32_of_nat(n: int) -> int {
    if n == 0 {
        0
    } else if n < 0x100_0000 {
        normalized(n, 127)
    } else {
        let k = top_bit(n as nat);
        (127 + k) * 0x80_0000 + rne_div(n, pow2((k - 23) as nat) as int) - 0x80_0000
    }
}

/// Bits of the single nearest to an integer, ties to even.
pub open spec fn f32_of_int(n: int) -> u32 {
    if n < 0 {
        signed_bits(1, f32_of_nat(-n))
    } else {
        signed_bits(0, f32_of_nat(n))
    }
}

/// Magnitude bits of the single nearest to `n`.
fn nat_to_f32(n: u32) -> (r: u32)
    ensures
        r == f32_of_nat(n as int),
        r < 0x7F80_0000,
{
    if n == 0 {
        0
    } else if n < 0x100_0000 {
        normalize(n, 127)
    } else {
        let mut k: u32 = 24;
        let mut p: u64 = 0x200_0000;
        proof {
            lemma2_to64();
        }
        while p <= n as u64
            invariant
                24 <= k <= 31,
                n >= 0x100_0000,
                p == pow2((k + 1) as nat),
                pow2(k as nat) <= n,
                p <= 0x1_0000_0000,
            decreases 32 - k,
        {
            proof {
                lemma2_to64();
                lemma_pow2_unfold((k + 2) as nat);
                assert((k + 2 - 1) as nat == (k + 1) as nat);
                if k == 31 {
                    assert(p == 0x1_0000_0000);
                }
                if k + 2 < 32 {
                    lemma_pow2_strictly_increases((k + 2) as nat, 32);
                }
            }
            k = k + 1;
            p = p * 2;
        }
        proof {
            lemma_top_bit(n as nat, k as nat);
            lemma2_to64();
            let d = pow2((k - 23) as nat) as int;
            lemma_pow2_adds(24, (k - 23) as nat);
            assert(24 + (k - 23) as nat == (k + 1) as nat);
            lemma_pow2_pos((k - 23) as nat);
            assert(n <= 0x100_0000 * d);
            lemma_rne_bound(n as int, d, 0x100_0000);
            lemma_pow2_adds(23, (k - 23) as nat);
            assert(23 + (k - 23) as nat == k as nat);
            lemma_rne_floor(n as int, d, 0x80_0000);
        }
        let q: u32 = round_shift(n, k - 23);
        (127 + k) * 0x80_0000 + (q - 0x80_0000)
    }
}

/// A quotient that is at least `floor` rounds to at least `floor`.
proof fn lemma_rne_floor(n: int, d: int, floor: int)
    requires
        0 <= n,
        0 < d,
        floor * d <= n,
    ensures
        rne_div(n, d) >= floor,
{
    vstd::arithmetic::div_mod::lemma_fundamental_div_mod(n, d);
    vstd::arithmetic::div_mod::lemma_mod_bound(n, d);
    let q = n / d;
    assert(q >= floor) by (nonlinear_arith)
        requires
            n == d * q + n % d,
            0 <= n % d < d,
            floor * d <= n,
            d > 0,
    ;
}

/// Converts an unsigned integer to the nearest single.
pub fn u32_to_f32(n: u32) -> (r: u32)
    ensures
        r == f32_of_int(n as int),
{
    nat_to_f32(n)
}

/// Converts a signed integer to the nearest single.
pub fn i32_to_f32(n: i32) -> (r: u32)
    ensures
        r == f32_of_int(n as int),
{
    if n < 0 {
        0x8000_0000 + nat_to_f32((-(n as i64)) as u32)
    } else {
        nat_to_f32(n as u32)
    }
}

/// Magnitude of a finite single as an integer: rounded to nearest even, or
/// truncated.
pub open spec fn whole_part(b: u32, nearest: bool) -> int {
    let exp = exp_of(b);
    let m = mant_of(b) + 0x80_0000;
    if exp == 0 {
        0
    } else if exp >= 150 {
        m * pow2((exp - 150) as nat)
    } else if nearest {
        rne_div(m, pow2((150 - exp) as nat) as int)
    } else {
        m / pow2((150 - exp) as nat) as int
    }
}

/// Integer of a single within `[lo, hi]`: rounded to nearest even, or truncated
/// towards zero, then brought into the range. A NaN gives zero.
pub open spec fn int_of_f32(b: u32, nearest: bool, lo: int, hi: int) -> int {
    if is_nan(b) {
        0
    } else if exp_of(b) == 255 {
        if sign_of(b) == 1 {
            lo
        } else {
            hi
        }
    } else {
        let n = if sign_of(b) == 1 {
            -whole_part(b, nearest)
        } else {
            whole_part(b, nearest)
        };
        if n < lo {
            lo
        } else if n > hi {
            hi
        } else {
            n
        }
    }
}

/// Integer of a single within `[lo, hi]`.
pub fn f32_to_int(b: u32, nearest: bool, lo: i64, hi: i64) -> (r: i64)
    requires
        -0x1_0000_0000 <= lo <= 0 <= hi <= 0x1_0000_0000,
    ensures
        r == int_of_f32(b, nearest, lo as int, hi as int),
        lo <= r <= hi,
{
    let negative: bool = b >= 0x8000_0000;
    let exp: u32 = (b / 0x80_0000) % 0x100;
    let m: u32 = b % 0x80_0000 + 0x80_0000;
    if exp == 255 && m != 0x80_0000 {
        return 0;
    }
    if exp >= 160 {
        proof {
            if exp < 255 {
                lemma2_to64();
                if exp > 160 {
                    lemma_pow2_strictly_increases(10, (exp - 150) as nat);
                }
                assert(m * pow2((exp - 150) as nat) >= 0x2_0000_0000) by (nonlinear_arith)
                    requires
                        m >= 0x80_0000,
                        pow2((exp - 150) as nat) >= 0x400,
                ;
            }
        }
        return if negative {
            lo
        } else {
            hi
        };
    }
    let n: u64 = if exp == 0 {
        0
    } else if exp >= 150 {
        let p: u64 = power_of_two(exp - 150);
        proof {
            lemma2_to64();
            if exp < 159 {
                lemma_pow2_strictly_increases((exp - 150) as nat, 9);
            }
            assert(0 <= m * p <= 0x100_0000 * 0x200) by (nonlinear_arith)
                requires
                    0 <= m <= 0x100_0000,
                    0 <= p <= 0x200,
            ;
        }
        m as u64 * p
    } else if nearest {
        round_shift(m, 150 - exp) as u64
    } else if 150 - exp >= 32 {
        proof {
            lemma2_to64();
            if 150 - exp > 32 {
                lemma_pow2_strictly_increases(32, (150 - exp) as nat);
            }
            vstd::arithmetic::div_mod::lemma_basic_div(m as int, pow2((150 - exp) as nat) as int);
        }
        0
    } else {
        let p: u64 = power_of_two(150 - exp);
        proof {
            lemma_pow2_pos((150 - exp) as nat);
            assert(m as u64 / p <= m) by (nonlinear_arith)
                requires
                    p > 0,
            ;
        }
        m as u64 / p
    };
    let v: i64 = if negative {
        -(n as i64)
    } else {
        n as i64
    };
    if v < lo {
        lo
    } else if v > hi {
        hi
    } else {
        v
    }
}

/// Bytes that one element takes; packed nibbles count as one.
pub open spec fn element_size(dtype: DType) -> int {
    match dtype {
        DType::F32 | DType::I32 | DType::U32 => 4,
        DType::F16 | DType::Bf16 => 2,
        _ => 1,
    }
}

/// Bytes that `n` elements take, two nibbles to a byte.
pub open spec fn byte_len(dtype: DType, n: int) -> int {
    match dtype {
        DType::F32 | DType::I32 | DType::U32 => 4 * n,
        DType::F16 | DType::Bf16 => 2 * n,
        DType::I4 => (n + 1) / 2,
        _ => n,
    }
}

/// Little-endian 16-bit integer at `off`.
pub open spec fn le16(s: Seq<u8>, off: int) -> u16 {
    (s[off] + 0x100 * s[off + 1]) as u16
}

/// Little-endian 32-bit integer at `off`.
pub open spec fn le32(s: Seq<u8>, off: int) -> u32 {
    (s[off] + 0x100 * s[off + 1] + 0x1_0000 * s[off + 2] + 0x100_0000 * s[off + 3]) as u32
}

/// `s` with a little-endian 16-bit integer at `off`.
pub open spec fn put_le16(s: Seq<u8>, off: int, v: u16) -> Seq<u8> {
    s.update(off, (v % 0x100) as u8).update(off + 1, (v / 0x100) as u8)
}

/// `s` with a little-endian 32-bit integer at `off`.
pub open spec fn put_le32(s: Seq<u8>, off: int, v: u32) -> Seq<u8> {
    s.update(off, (v % 0x100) as u8).update(off + 1, ((v / 0x100) % 0x100) as u8).update(
        off + 2,
        ((v / 0x1_0000) % 0x100) as u8,
    ).update(off + 3, (v / 0x100_0000) as u8)
}

/// A 16-bit integer is read back where it was put, and what lies apart stays.
pub proof fn lemma_put_le16(s: Seq<u8>, off: int, v: u16, other: int)
    requires
        0 <= off,
        off + 2 <= s.len(),
        0 <= other,
        other + 2 <= s.len(),
        other == off || other + 2 <= off || off + 2 <= other,
    ensures
        le16(put_le16(s, off, v), other) == if other == off {
            v
        } else {
            le16(s, other)
        },
{
}

/// A 32-bit integer is read back where it was put, and what lies apart stays.
pub proof fn lemma_put_le32(s: Seq<u8>, off: int, v: u32, other: int)
    requires
        0 <= off,
        off + 4 <= s.len(),
        0 <= other,
        other + 4 <= s.len(),
        other == off || other + 4 <= off || off + 4 <= other,
    ensures
        le32(put_le32(s, off, v), other) == if other == off {
            v
        } else {
            le32(s, other)
        },
{
    let t = put_le32(s, off, v);
    if other == off {
        assert(t[off] == v % 0x100);
        assert(t[off + 1] == (v / 0x100) % 0x100);
        assert(t[off + 2] == (v / 0x1_0000) % 0x100);
        assert(t[off + 3] == v / 0x100_0000);
    }
}

/// The byte read as a two's complement integer.
pub open spec fn byte_as_i8(b: u8) -> i8 {
    if b < 128 {
        b as i8
    } else {
        (b - 256) as i8
    }
}

/// The byte of a two's complement integer.
pub open spec fn i8_as_byte(v: i8) -> u8 {
    if v >= 0 {
        v as u8
    } else {
        (v + 256) as u8
    }
}

/// The 32 bits read as a two's complement integer.
pub open spec fn bits_as_i32(b: u32) -> i32 {
    if b < 0x8000_0000 {
        b as i32
    } else {
        (b - 0x1_0000_0000) as i32
    }
}

/// The 32 bits of a two's complement integer.
pub open spec fn i32_as_bits(v: i32) -> u32 {
    if v >= 0 {
        v as u32
    } else {
        (v + 0x1_0000_0000) as u32
    }
}

/// The `i`-th nibble, low half first.
pub open spec fn nibble_at(s: Seq<u8>, i: int) -> u8 {
    if i % 2 == 0 {
        (s[i / 2] % 16) as u8
    } else {
        (s[i / 2] / 16) as u8
    }
}

/// `s` with its `i`-th nibble replaced.
pub open spec fn put_nibble(s: Seq<u8>, i: int, v: u8) -> Seq<u8> {
    let b = s[i / 2];
    if i % 2 == 0 {
        s.update(i / 2, (b / 16 * 16 + v % 16) as u8)
    } else {
        s.update(i / 2, (b % 16 + v % 16 * 16) as u8)
    }
}

/// Reads a byte as a two's complement integer.
pub fn signed_byte(b: u8) -> (r: i8)
    ensures
        r == byte_as_i8(b),
{
    if b < 128 {
        b as i8
    } else {
        (b as i16 - 256) as i8
    }
}

/// The byte of a two's complement integer.
pub fn unsigned_byte(v: i8) -> (r: u8)
    ensures
        r == i8_as_byte(v),
{
    if v >= 0 {
        v as u8
    } else {
        (v as i16 + 256) as u8
    }
}

fn signed_word(b: u32) -> (r: i32)
    ensures
        r == bits_as_i32(b),
{
    if b < 0x8000_0000 {
        b as i32
    } else {
        (b as i64 - 0x1_0000_0000) as i32
    }
}

fn unsigned_word(v: i32) -> (r: u32)
    ensures
        r == i32_as_bits(v),
{
    if v >= 0 {
        v as u32
    } else {
        (v as i64 + 0x1_0000_0000) as u32
    }
}

/// Reads a little-endian 16-bit integer.
pub fn read_le16(slice: &[u8], off: usize) -> (r: u16)
    requires
        off + 2 <= slice@.len(),
    ensures
        r == le16(slice@, off as int),
{
    slice[off] as u16 + 0x100 * slice[off + 1] as u16
}

/// Reads a little-endian 32-bit integer.
pub fn read_le32(slice: &[u8], off: usize) -> (r: u32)
    requires
        off + 4 <= slice@.len(),
    ensures
        r == le32(slice@, off as int),
{
    slice[off] as u32 + 0x100 * slice[off + 1] as u32 + 0x1_0000 * slice[off + 2] as u32
        + 0x100_0000 * slice[off + 3] as u32
}

/// Writes a little-endian 16-bit integer.
pub fn write_le16(slice: &mut [u8], off: usize, v: u16)
    requires
        off + 2 <= old(slice)@.len(),
    ensures
        final(slice)@ == put_le16(old(slice)@, off as int, v),
{
    slice[off] = (v % 0x100) as u8;
    slice[off + 1] = (v / 0x100) as u8;
}

/// Writes a little-endian 32-bit integer.
pub fn write_le32(slice: &mut [u8], off: usize, v: u32)
    requires
        off + 4 <= old(slice)@.len(),
    ensures
        final(slice)@ == put_le32(old(slice)@, off as int, v),
{
    slice[off] = (v % 0x100) as u8;
    slice[off + 1] = ((v / 0x100) % 0x100) as u8;
    slice[off + 2] = ((v / 0x1_0000) % 0x100) as u8;
    slice[off + 3] = (v / 0x100_0000) as u8;
}

/// The `i`-th nibble, low half first.
pub fn read_nibble(slice: &[u8], i: usize) -> (r: u8)
    requires
        i / 2 < slice@.len(),
    ensures
        r == nibble_at(slice@, i as int),
        r < 16,
{
    let b: u8 = slice[i / 2];
    if i % 2 == 0 {
        b % 16
    } else {
        b / 16
    }
}

/// Value of a two's complement nibble.
pub open spec fn nibble_value(n: u8) -> int {
    if n >= 8 {
        n - 16
    } else {
        n as int
    }
}

/// Bits of the single that the `i`-th element of raw storage stands for.
pub open spec fn f32_in_bytes(dtype: DType, s: Seq<u8>, i: int) -> u32 {
    match dtype {
        DType::F32 => le32(s, i * 4),
        DType::F16 => f32_of_f16(le16(s, i * 2)),
        DType::Bf16 => f32_of_bf16(le16(s, i * 2)),
        DType::E4m3 => f32_of_e4m3(s[i]),
        DType::E5m2 => f32_of_e5m2(s[i]),
        DType::I8 => f32_of_int(byte_as_i8(s[i]) as int),
        DType::I32 => f32_of_int(bits_as_i32(le32(s, i * 4)) as int),
        DType::U32 => f32_of_int(le32(s, i * 4) as int),
        DType::Bool => if s[i] != 0 {
            ONE
        } else {
            0
        },
        DType::I4 => f32_of_int(nibble_value(nibble_at(s, i))),
    }
}

/// Nearest signed byte of a single.
pub open spec fn i8_of(b: u32) -> i8 {
    int_of_f32(b, true, -128, 127) as i8
}

/// Nearest signed 32-bit integer of a single.
pub open spec fn i32_of(b: u32) -> i32 {
    int_of_f32(b, true, -0x8000_0000, 0x7FFF_FFFF) as i32
}

/// Nearest unsigned 32-bit integer of a single.
pub open spec fn u32_of(b: u32) -> u32 {
    int_of_f32(b, true, 0, 0xFFFF_FFFF) as u32
}

/// Nibble of the nearest integer in `[-8, 7]`.
pub open spec fn nibble_of(b: u32) -> u8 {
    let n = int_of_f32(b, true, -8, 7);
    (if n < 0 {
        n + 16
    } else {
        n
    }) as u8
}

/// Whether a single is neither zero nor NaN, as a byte.
pub open spec fn bool_of(b: u32) -> u8 {
    if is_nan(b) || b == 0 || b == 0x8000_0000 {
        0
    } else {
        1
    }
}

/// Raw storage with its `i`-th element set to the value of a single, converted
/// to the element type.
pub open spec fn put_f32(dtype: DType, s: Seq<u8>, i: int, v: u32) -> Seq<u8> {
    match dtype {
        DType::F32 => put_le32(s, i * 4, v),
        DType::F16 => put_le16(s, i * 2, f16_of(v)),
        DType::Bf16 => put_le16(s, i * 2, bf16_of(v)),
        DType::E4m3 => s.update(i, e4m3_of(v)),
        DType::E5m2 => s.update(i, e5m2_of(v)),
        DType::I8 => s.update(i, i8_as_byte(i8_of(v))),
        DType::I32 => put_le32(s, i * 4, i32_as_bits(i32_of(v))),
        DType::U32 => put_le32(s, i * 4, u32_of(v)),
        DType::Bool => s.update(i, bool_of(v)),
        DType::I4 => put_nibble(s, i, nibble_of(v)),
    }
}

/// Nearest signed byte of a single.
pub fn f32_to_i8(v: u32) -> (r: i8)
    ensures
        r == i8_of(v),
{
    f32_to_int(v, true, -128, 127) as i8
}

/// Nearest unsigned 32-bit integer of a single.
pub fn f32_to_u32(v: u32) -> (r: u32)
    ensures
        r == u32_of(v),
{
    f32_to_int(v, true, 0, 0xFFFF_FFFF) as u32
}

/// Reads element `index` of raw storage as a single.
pub fn read_f32_at(dtype: DType, slice: &[u8], index: usize) -> (r: u32)
    requires
        byte_len(dtype, index + 1) <= slice@.len(),
    ensures
        r == f32_in_bytes(dtype, slice@, index as int),
{
    let len: usize = slice.len();
    assert(byte_len(dtype, index + 1) <= len);
    match dtype {
        DType::F32 => read_le32(slice, index * 4),
        DType::F16 => f16_to_f32(read_le16(slice, index * 2)),
        DType::Bf16 => bf16_to_f32(read_le16(slice, index * 2)),
        DType::E4m3 => fp8_e4m3_decode(slice[index]),
        DType::E5m2 => fp8_e5m2_decode(slice[index]),
        DType::I8 => i32_to_f32(signed_byte(slice[index]) as i32),
        DType::I32 => i32_to_f32(signed_word(read_le32(slice, index * 4))),
        DType::U32 => u32_to_f32(read_le32(slice, index * 4)),
        DType::Bool => if slice[index] != 0 {
            ONE
        } else {
            0
        },
        DType::I4 => {
            let n: u8 = read_nibble(slice, index);
            let v: i32 = if n >= 8 {
                n as i32 - 16
            } else {
                n as i32
            };
            i32_to_f32(v)
        },
    }
}

/// Writes a single to element `index` of raw storage, converted to `dtype`.
pub fn write_f32_at(dtype: DType, slice: &mut [u8], index: usize, val: u32)
    requires
        byte_len(dtype, index + 1) <= old(slice)@.len(),
    ensures
        final(slice)@ == put_f32(dtype, old(slice)@, index as int, val),
{
    let len: usize = slice.len();
    assert(byte_len(dtype, index + 1) <= len);
    match dtype {
        DType::F32 => write_le32(slice, index * 4, val),
        DType::F16 => write_le16(slice, index * 2, f32_to_f16(val)),
        DType::Bf16 => write_le16(slice, index * 2, f32_to_bf16(val)),
        DType::E4m3 => {
            slice[index] = fp8_e4m3_encode(val);
        },
        DType::E5m2 => {
            slice[index] = fp8_e5m2_encode(val);
        },
        DType::I8 => {
            slice[index] = unsigned_byte(f32_to_i8(val));
        },
        DType::I32 => {
            let v: i32 = f32_to_int(val, true, -0x8000_0000, 0x7FFF_FFFF) as i32;
            write_le32(slice, index * 4, unsigned_word(v));
        },
        DType::U32 => write_le32(slice, index * 4, f32_to_u32(val)),
        DType::Bool => {
            let exp: u32 = (val / 0x80_0000) % 0x100;
            let nan: bool = exp == 255 && val % 0x80_0000 != 0;
            slice[index] = if nan || val == 0 || val == 0x8000_0000 {
                0
            } else {
                1
            };
        },
        DType::I4 => {
            let n: i64 = f32_to_int(val, true, -8, 7);
            let v: u8 = if n < 0 {
                (n + 16) as u8
            } else {
                n as u8
            };
            let b: u8 = slice[index / 2];
            slice[index / 2] = if index % 2 == 0 {
                b / 16 * 16 + v % 16
            } else {
                b % 16 + v % 16 * 16
            };
        },
    }
}

/// Bytes that one element takes; packed nibbles count as one.
pub fn dtype_element_size(dtype: DType) -> (r: usize)
    ensures
        r == element_size(dtype),
        1 <= r <= 4,
{
    match dtype {
        DType::F32 | DType::I32 | DType::U32 => 4,
        DType::F16 | DType::Bf16 => 2,
        DType::E4m3 | DType::E5m2 | DType::I8 | DType::Bool => 1,
        DType::I4 => 1,
    }
}

/// Bytes that `n` elements take, two nibbles to a byte.
pub fn byte_count(dtype: DType, n: usize) -> (r: usize)
    requires
        byte_len(dtype, n as int) <= usize::MAX,
    ensures
        r == byte_len(dtype, n as int),
{
    match dtype {
        DType::F32 | DType::I32 | DType::U32 => n * 4,
        DType::F16 | DType::Bf16 => n * 2,
        DType::I4 => n / 2 + n % 2,
        _ => n,
    }
}

/// Whether a single is finite.
pub fn finite(v: u32) -> (r: bool)
    ensures
        r == is_finite(v),
{
    (v / 0x80_0000) % 0x100 != 255
}

/// Whether a single is finite and greater than zero.
pub fn finite_positive(v: u32) -> (r: bool)
    ensures
        r == is_finite_positive(v),
{
    0 < v && v < INFINITY
}

/// Whether a single is finite and not less than zero.
pub fn finite_nonnegative(v: u32) -> (r: bool)
    ensures
        r == is_finite_nonnegative(v),
{
    v < INFINITY || v == 0x8000_0000
}

} // verus!
