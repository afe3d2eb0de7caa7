//! Conversions between element types.
use r9v_t0::dtype::{
    bf16_to_f32, byte_count, dtype_element_size, f16_to_f32, f32_to_bf16, f32_to_f16, f32_to_i8,
    f32_to_int, f32_to_u32, finite, finite_nonnegative, finite_positive, fp8_e4m3_decode,
    fp8_e4m3_encode, fp8_e5m2_decode, fp8_e5m2_encode, i32_to_f32, read_f32_at, read_le16,
    read_le32, read_nibble, signed_byte, u32_to_f32, unsigned_byte, write_f32_at, write_le16,
    write_le32,
};
use r9v_t0::ir::DType;

fn b(v: f32) -> u32 {
    v.to_bits()
}

#[test]
fn half_precision_exact_values() {
    assert_eq!(f32_to_f16(b(1.0)), 0x3C00);
    assert_eq!(f32_to_f16(b(-2.0)), 0xC000);
    assert_eq!(f32_to_f16(b(65504.0)), 0x7BFF);
    assert_eq!(f32_to_f16(b(65520.0)), 0x7C00);
    assert_eq!(f32_to_f16(b(65519.0)), 0x7BFF);
    assert_eq!(f32_to_f16(b(f32::INFINITY)), 0x7C00);
    assert_eq!(f32_to_f16(b(0.0)), 0);
    assert_eq!(f32_to_f16(b(-0.0)), 0x8000);
    assert_eq!(f32_to_f16(b(5.9604645e-8)), 1);
    assert_eq!(f32_to_f16(b(2.9802322e-8)), 0);
    assert_eq!(f32_to_f16(b(1e-30)), 0);
    assert_eq!(f32_to_f16(b(1.0 + 1.0 / 2048.0)), 0x3C00);
    assert_eq!(f32_to_f16(b(1.0 + 3.0 / 2048.0)), 0x3C02);
}

#[test]
fn half_precision_nan_stays_nan() {
    assert_eq!(f32_to_f16(0x7F80_0001), 0x7E01);
    assert_eq!(f32_to_f16(0x7FC0_0000) & 0x7C00, 0x7C00);
    assert!(f32::from_bits(f16_to_f32(0x7E00)).is_nan());
    assert!(f32::from_bits(f16_to_f32(0x7C01)).is_nan());
}

#[test]
fn half_precision_round_trip() {
    for h in 0..=0xFFFFu32 {
        let h = h as u16;
        if h & 0x7FFF <= 0x7C00 {
            assert_eq!(f32_to_f16(f16_to_f32(h)), h);
        }
    }
}

#[test]
fn half_precision_decodes_exactly() {
    assert_eq!(f32::from_bits(f16_to_f32(0x3C00)), 1.0);
    assert_eq!(f32::from_bits(f16_to_f32(0x0001)), 5.9604645e-8);
    assert_eq!(f32::from_bits(f16_to_f32(0x03FF)), 6.0975552e-5);
    assert_eq!(f32::from_bits(f16_to_f32(0xFC00)), f32::NEG_INFINITY);
}

#[test]
fn bfloat_round_trip_and_ties() {
    for h in 0..=0xFFFFu32 {
        let h = h as u16;
        if !f32::from_bits(bf16_to_f32(h)).is_nan() {
            assert_eq!(f32_to_bf16(bf16_to_f32(h)), h);
        }
    }
    assert_eq!(f32_to_bf16(0x3F80_8000), 0x3F80);
    assert_eq!(f32_to_bf16(0x3F81_8000), 0x3F82);
    assert_eq!(f32_to_bf16(0x3F80_8001), 0x3F81);
    assert_eq!(f32_to_bf16(0x7F7F_FFFF), 0x7F80);
    assert_eq!(f32_to_bf16(0x7F80_0001), 0x7FC0);
}

#[test]
fn e4m3_exact_values() {
    assert_eq!(fp8_e4m3_encode(b(448.0)), 0x7E);
    assert_eq!(fp8_e4m3_encode(b(1000.0)), 0x7E);
    assert_eq!(fp8_e4m3_encode(b(-1000.0)), 0xFE);
    assert_eq!(fp8_e4m3_encode(b(f32::INFINITY)), 0x7E);
    assert_eq!(fp8_e4m3_encode(b(f32::NAN)), 0x7F);
    assert_eq!(fp8_e4m3_encode(b(1.0)), 0x38);
    assert_eq!(fp8_e4m3_encode(b(-0.0)), 0x80);
    assert_eq!(fp8_e4m3_encode(b(-1e-9)), 0x00);
    assert_eq!(f32::from_bits(fp8_e4m3_decode(0x01)), 0.001953125);
    assert_eq!(f32::from_bits(fp8_e4m3_decode(0x7E)), 448.0);
    assert!(f32::from_bits(fp8_e4m3_decode(0xFF)).is_nan());
}

#[test]
fn e4m3_round_trip() {
    for c in 0..=255u8 {
        let want = if c == 0xFF { 0x7F } else { c };
        assert_eq!(fp8_e4m3_encode(fp8_e4m3_decode(c)), want);
    }
}

#[test]
fn e5m2_round_trip_and_saturation() {
    for c in 0..=255u8 {
        if c & 0x7F < 0x7C {
            assert_eq!(fp8_e5m2_encode(fp8_e5m2_decode(c)), c);
        }
    }
    assert_eq!(fp8_e5m2_encode(b(57344.0)), 0x7B);
    assert_eq!(fp8_e5m2_encode(b(1e9)), 0x7B);
    assert_eq!(fp8_e5m2_encode(b(-1e9)), 0xFB);
    assert_eq!(f32::from_bits(fp8_e5m2_decode(0x7C)), f32::INFINITY);
    assert!(f32::from_bits(fp8_e5m2_decode(0x7D)).is_nan());
}

#[test]
fn integers_to_singles() {
    for n in [0u32, 1, 2, 3, 127, 16_777_215, 16_777_216, 16_777_217, 16_777_219, u32::MAX] {
        assert_eq!(u32_to_f32(n), b(n as f32));
    }
    for n in [-1i32, -2, -128, -16_777_217, i32::MIN, i32::MAX] {
        assert_eq!(i32_to_f32(n), b(n as f32));
    }
}

#[test]
fn singles_to_integers() {
    assert_eq!(f32_to_i8(b(2.5)), 2);
    assert_eq!(f32_to_i8(b(3.5)), 4);
    assert_eq!(f32_to_i8(b(-200.0)), -128);
    assert_eq!(f32_to_i8(b(200.0)), 127);
    assert_eq!(f32_to_i8(b(f32::NAN)), 0);
    assert_eq!(f32_to_u32(b(-5.0)), 0);
    assert_eq!(f32_to_u32(b(f32::INFINITY)), u32::MAX);
    assert_eq!(f32_to_int(b(-2.9), false, -8, 7), -2);
    assert_eq!(f32_to_int(b(-2.9), true, -8, 7), -3);
}

#[test]
fn integer_round_trip() {
    for n in [-0xFF_FFFFi64, -12_345, -1, 0, 1, 7, 0xFF_FFFF] {
        let bits = if n < 0 { i32_to_f32(n as i32) } else { u32_to_f32(n as u32) };
        assert_eq!(f32_to_int(bits, true, -0x100_0000, 0x100_0000), n);
        assert_eq!(f32_to_int(bits, false, -0x100_0000, 0x100_0000), n);
    }
}

#[test]
fn classification() {
    assert!(finite(b(1.0)) && !finite(b(f32::NAN)) && !finite(b(f32::INFINITY)));
    assert!(finite_positive(b(1e-40)) && !finite_positive(b(0.0)) && !finite_positive(b(-1.0)));
    assert!(finite_nonnegative(b(0.0)) && finite_nonnegative(b(-0.0)));
    assert!(!finite_nonnegative(b(-1.0)) && !finite_nonnegative(b(f32::INFINITY)));
}

#[test]
fn bytes_and_nibbles() {
    let mut s = [0u8; 8];
    write_le16(&mut s, 1, 0xABCD);
    assert_eq!(read_le16(&s, 1), 0xABCD);
    assert_eq!(s[1], 0xCD);
    write_le32(&mut s, 4, 0x0102_0304);
    assert_eq!(read_le32(&s, 4), 0x0102_0304);
    assert_eq!(s[4], 4);
    assert_eq!(read_nibble(&[0x5A], 0), 0xA);
    assert_eq!(read_nibble(&[0x5A], 1), 0x5);
    assert_eq!(signed_byte(0xFF), -1);
    assert_eq!(unsigned_byte(-128), 0x80);
}

#[test]
fn raw_elements_are_read_back() {
    for (dtype, want) in [
        (DType::F32, 3.0f32),
        (DType::F16, 3.0),
        (DType::Bf16, 3.0),
        (DType::E4m3, 3.0),
        (DType::E5m2, 3.0),
        (DType::I8, 3.0),
        (DType::I32, 3.0),
        (DType::U32, 3.0),
        (DType::Bool, 1.0),
        (DType::I4, 3.0),
    ] {
        let mut s = [0u8; 16];
        write_f32_at(dtype, &mut s, 2, b(3.0));
        assert_eq!(read_f32_at(dtype, &s, 2), b(want));
        assert_eq!(read_f32_at(dtype, &s, 1), 0);
        assert_eq!(read_f32_at(dtype, &s, 3), 0);
    }
}

#[test]
fn sizes() {
    assert_eq!(dtype_element_size(DType::F32), 4);
    assert_eq!(dtype_element_size(DType::F16), 2);
    assert_eq!(dtype_element_size(DType::I4), 1);
    assert_eq!(byte_count(DType::I4, 5), 3);
    assert_eq!(byte_count(DType::Bf16, 5), 10);
}
