//! Buffers and views.
use r9v_t0::buffer::{TensorView, TensorViewMut, TypedBuffer};
use r9v_t0::error::{push_shape_agreement, u64_to_usize, T0Error};
use r9v_t0::ir::{DType, LayoutId, QuantScheme};

fn b(v: f32) -> u32 {
    v.to_bits()
}

#[test]
fn zeros_are_readable() {
    for dtype in [DType::F32, DType::F16, DType::I8, DType::U32, DType::I4, DType::Bool] {
        let z = TypedBuffer::zeros(&[2, 3], dtype);
        assert_eq!(z.num_elements(), 6);
        for i in 0..6 {
            assert_eq!(z.read_f32(i), 0);
        }
    }
}

#[test]
fn zeros_refuse_overflow() {
    let r = TypedBuffer::try_zeros(&[usize::MAX, 2], DType::F32);
    assert!(matches!(r, Err(T0Error::ArithmeticOverflow { op: "buffer", .. })));
    let r = TypedBuffer::try_zeros(&[usize::MAX / 2], DType::F32);
    assert!(matches!(r, Err(T0Error::ArithmeticOverflow { op: "buffer", .. })));
}

#[test]
fn writes_are_read_back_in_every_type() {
    for (dtype, stored) in [
        (DType::F32, 2.3f32),
        (DType::F16, 2.3007812),
        (DType::Bf16, 2.296875),
        (DType::I8, 2.0),
        (DType::U32, 2.0),
    ] {
        let mut z = TypedBuffer::zeros(&[3], dtype);
        z.write_f32(1, b(2.3));
        assert_eq!(f32::from_bits(z.read_f32(1)), stored);
        assert_eq!(z.read_f32(0), 0);
        assert_eq!(z.read_f32(2), 0);
    }
}

#[test]
fn writes_through_a_view_reach_the_buffer() {
    let mut z = TypedBuffer::zeros(&[2], DType::F16);
    {
        let mut v = z.as_view_mut();
        v.write_f32(1, b(1.5));
        v.write_all(&[b(4.0), b(-8.0)]);
    }
    assert_eq!(f32::from_bits(z.read_f32(0)), 4.0);
    assert_eq!(f32::from_bits(z.read_f32(1)), -8.0);
}

#[test]
fn typed_constructors() {
    let f = TypedBuffer::from_f32(&[2], &[b(1.0), b(2.0)]);
    assert_eq!(f.to_f32_vec(), vec![b(1.0), b(2.0)]);
    let i = TypedBuffer::from_i8(&[3], &[-1, 0, 5]);
    assert_eq!(i.to_i8_vec(), vec![-1, 0, 5]);
    let u = TypedBuffer::from_u32(&[2], &[7, 9]);
    assert_eq!(u.to_u32_vec(), vec![7, 9]);
    let w = TypedBuffer::from_i32(&[2], &[-7, 9]);
    assert_eq!(w.to_i32_vec(), vec![-7, 9]);
    let e = TypedBuffer::from_e4m3_bytes(&[1], &[0x38]);
    assert_eq!(f32::from_bits(e.as_view().read_f32(0)), 1.0);
    let empty = TypedBuffer::from_u32(&[0], &[]);
    assert_eq!(empty.num_elements(), 0);
}

#[test]
fn backing_is_checked() {
    let data = [0u32; 3];
    let v = TensorView::from_f32_slice(&[2, 2], &data);
    match v.validate_backing("x") {
        Err(T0Error::BufferLengthMismatch { tensor, buffer_len, expected_len, shape }) => {
            assert_eq!((tensor, buffer_len, expected_len), ("x", 3, 4));
            assert_eq!(shape, vec![2, 2]);
        }
        _ => panic!("expected a length mismatch"),
    }
    let v = TensorView::from_bytes(&[3], DType::F16, &[0; 6]);
    assert!(v.validate_backing("x").is_ok());
    let v = TensorView::from_bytes(&[3], DType::I4, &[0; 1]);
    assert!(v.validate_backing("x").is_err());
    let v = TensorView::from_bytes(&[usize::MAX, 2], DType::I8, &[0; 1]);
    assert!(v.validate_backing("x").is_err());
}

#[test]
fn room_is_counted_in_elements() {
    let v = TensorView::from_bytes(&[1], DType::F16, &[0; 5]);
    assert!(v.has_room(2) && !v.has_room(3));
    let v = TensorView::from_bytes(&[1], DType::I4, &[0; 2]);
    assert!(v.has_room(4) && !v.has_room(5));
}

#[test]
fn views_carry_their_attributes() {
    let data = [0u16; 2];
    let v = TensorView::from_f16_slice(&[2], &data)
        .with_quant(QuantScheme::PerToken)
        .with_layout(LayoutId::L1);
    assert_eq!(v.quant(), QuantScheme::PerToken);
    assert_eq!(v.layout(), LayoutId::L1);
    assert!(v.scale().is_none());
    let scales = [b(1.0); 2];
    let v = v.with_scale(TensorView::from_f32_slice(&[2], &scales));
    assert!(v.scale().is_some());
    assert_eq!(v.dtype(), DType::F16);
    assert_eq!(v.rank(), 1);
}

#[test]
fn reshaping_copies_or_refuses() {
    let f = TypedBuffer::from_u32(&[2, 3], &[1, 2, 3, 4, 5, 6]);
    let g = f.copy_with_shape(&[3, 2]).unwrap();
    assert_eq!(g.shape(), &[3, 2]);
    assert_eq!(g.to_u32_vec(), vec![1, 2, 3, 4, 5, 6]);
    assert!(f.copy_with_shape(&[4, 2]).is_none());
}

#[test]
fn words_are_read_with_errors() {
    let data = [1u32, 2];
    let v = TensorView::from_u32_slice(&[2], &data);
    assert_eq!(v.try_read_u32(1, "ids").unwrap(), 2);
    assert!(matches!(
        v.try_read_u32(2, "ids"),
        Err(T0Error::BufferLengthMismatch { tensor: "ids", buffer_len: 2, expected_len: 3, .. })
    ));
}

#[test]
fn raw_bits_are_kept() {
    let data = [0x7F80_0001u32, 5];
    let v = TensorView::from_f32_slice(&[2], &data);
    assert_eq!(v.read_raw(0), 0x7F80_0001);
    let mut out = [0u8; 4];
    let mut w = TensorViewMut::from_bytes(&[2], DType::F16, &mut out);
    w.write_raw(1, 0xBEEF);
    assert_eq!(out, [0, 0, 0xEF, 0xBE]);
}

#[test]
fn problems_are_collected() {
    assert!(T0Error::from_problems(Vec::new()).is_ok());
    let one = vec![T0Error::EmptyInput { op: "op", tensor: "x" }];
    assert!(matches!(
        T0Error::from_problems(one),
        Err(T0Error::EmptyInput { op: "op", tensor: "x" })
    ));
    let two = vec![
        T0Error::EmptyInput { op: "op", tensor: "x" },
        T0Error::EmptyInput { op: "op", tensor: "y" },
    ];
    match T0Error::from_problems(two) {
        Err(T0Error::Multiple { problems }) => assert_eq!(problems.len(), 2),
        _ => panic!("expected both problems"),
    }
}

#[test]
fn shapes_are_compared_dimension_by_dimension() {
    let mut problems = Vec::new();
    push_shape_agreement(&mut problems, "y", "x", &[2, 3], &[2, 3]);
    assert!(problems.is_empty());
    push_shape_agreement(&mut problems, "y", "x", &[2, 4], &[2, 3]);
    assert_eq!(problems.len(), 1);
    assert!(matches!(problems[0], T0Error::DimensionMismatch { expected: 3, got: 4, .. }));
}

#[test]
fn sizes_convert() {
    assert_eq!(u64_to_usize(12, "n").unwrap(), 12);
}

#[test]
fn typed_slices_are_handed_out() {
    let ints = [1i8, -2];
    let v = TensorView::from_i8_slice(&[2], &ints);
    assert_eq!(v.as_i8_slice(), Some(&ints[..]));
    assert!(v.as_f16_slice().is_none() && v.as_bytes().is_none());
    let halves = [0x3C00u16];
    let h = TensorView::from_f16_slice(&[1], &halves);
    assert_eq!(h.as_f16_slice(), Some(&halves[..]));
    let scaled = v.with_scale_opt(Some(h));
    assert_eq!(scaled.scale().unwrap().read_f32(0), b(1.0));
    assert!(TensorView::from_i8_slice(&[2], &ints).with_scale_opt(None).scale().is_none());
    let mut f = TypedBuffer::from_f32(&[2], &[b(1.0), b(2.0)]);
    f.as_f32_slice_mut().unwrap()[1] = b(5.0);
    assert_eq!(f.to_f32_vec(), vec![b(1.0), b(5.0)]);
    let mut i = TypedBuffer::from_i8(&[2], &ints);
    assert!(i.as_f32_slice_mut().is_none());
    let e = TypedBuffer::from_e4m3_bytes(&[2], &[0x38, 0x40]);
    assert_eq!(e.to_byte_vec(), vec![0x38, 0x40]);
    assert_eq!(e.to_f32_vec(), vec![b(1.0), b(2.0)]);
}

#[test]
fn raw_signed_bytes_are_copied_out() {
    let buf = TypedBuffer::from_bytes(&[2], DType::I8, &[0x01, 0xFF]);
    assert_eq!(buf.to_i8_vec(), vec![1i8, -1]);
    assert_eq!(buf.to_byte_vec(), vec![0x01, 0xFF]);
    assert_eq!(TypedBuffer::from_i8(&[2], &[1, -1]).to_i8_vec(), vec![1i8, -1]);
    assert_eq!(TypedBuffer::from_f32(&[2], &[b(1.9), b(-300.0)]).to_i8_vec(), vec![1i8, -128]);
}

#[test]
fn stored_bytes_are_copied_out() {
    let f = TypedBuffer::from_f32(&[1], &[0x0403_0201]);
    assert_eq!(f.to_byte_vec(), vec![1, 2, 3, 4]);
    let u = TypedBuffer::from_u32(&[2], &[0x0403_0201, 5]);
    assert_eq!(u.to_byte_vec(), vec![1, 2, 3, 4, 5, 0, 0, 0]);
    let h = TypedBuffer::from_f16(&[2], &[0x0201, 0x0403]);
    assert_eq!(h.to_byte_vec(), vec![1, 2, 3, 4]);
    let b = TypedBuffer::from_bf16(&[1], &[0x0201]);
    assert_eq!(b.to_byte_vec(), vec![1, 2]);
    let i = TypedBuffer::from_i8(&[2], &[-1, 1]);
    assert_eq!(i.to_byte_vec(), vec![255, 1]);
    let raw = TypedBuffer::from_bytes(&[1], DType::F16, &[7, 8]);
    assert_eq!(raw.to_byte_vec(), vec![7, 8]);
}

#[test]
fn raw_bytes_are_apart_from_typed_storage() {
    for dtype in [DType::F32, DType::F16, DType::Bf16, DType::I8, DType::U32] {
        let mut z = TypedBuffer::zeros(&[3], dtype);
        z.write_f32(1, b(2.0));
        z.write_byte(2, 7);
        assert!(z.byte_data().is_empty());
        assert!(z.copy_with_shape(&[3, 1]).unwrap().byte_data().is_empty());
        assert_eq!(z.to_f32_vec(), vec![b(0.0), b(2.0), b(7.0)]);
    }
    assert!(TypedBuffer::from_f32(&[1], &[b(1.0)]).byte_data().is_empty());
    assert!(TypedBuffer::from_f16(&[1], &[0x3c00]).byte_data().is_empty());
    assert!(TypedBuffer::from_bf16(&[1], &[0x3f80]).byte_data().is_empty());
    assert!(TypedBuffer::from_i8(&[1], &[-1]).byte_data().is_empty());
    assert!(TypedBuffer::from_u32(&[1], &[9]).byte_data().is_empty());
    let w = TypedBuffer::from_i32(&[2, 1], &[-2, 258]);
    assert_eq!(w.byte_data(), &[0xfe, 0xff, 0xff, 0xff, 2, 1, 0, 0]);
    assert_eq!(w.shape(), &[2, 1]);
    assert_eq!(w.dtype(), DType::I32);
    assert_eq!(w.quant(), QuantScheme::Unquantized);
    assert_eq!(w.layout(), LayoutId::Contiguous);
    let c = w.copy_with_shape(&[2]).unwrap();
    assert_eq!(c.byte_data(), w.byte_data());
}

#[test]
fn writing_singles_keeps_the_attributes() {
    let mut f = TypedBuffer::from_f32(&[2], &[b(1.0), b(2.0)]).with_layout(LayoutId::Contiguous);
    f.as_f32_slice_mut().unwrap()[0] = b(8.0);
    assert_eq!(f.to_f32_vec(), vec![b(8.0), b(2.0)]);
    assert_eq!(f.shape(), &[2]);
    assert_eq!(f.quant(), QuantScheme::Unquantized);
    assert_eq!(f.layout(), LayoutId::Contiguous);
    assert!(f.byte_data().is_empty());
}

#[test]
fn clones_have_the_same_contents() {
    let mut f = TypedBuffer::from_f32(&[2], &[b(1.0), b(2.0)]);
    let g = f.clone();
    f.write_f32(0, b(9.0));
    assert_eq!(g.to_f32_vec(), vec![b(1.0), b(2.0)]);
    assert_eq!(g.shape(), &[2]);
    let r = TypedBuffer::from_bytes(&[2], DType::E4m3, &[0x38, 0x40]);
    assert_eq!(r.clone().byte_data(), &[0x38, 0x40]);
    let s = TypedBuffer::from_f16(&[1], &[0x4000]);
    let v = g.as_view().with_scale(s.as_view());
    let w = v.clone();
    assert_eq!(w.as_f32_slice(), v.as_f32_slice());
    assert_eq!(w.shape(), v.shape());
    assert_eq!(w.scale().unwrap().as_f16_slice(), Some(&[0x4000u16][..]));
    assert!(w.scale().unwrap().scale().is_none());
}
