//! References in double precision and comparison with them.
use r9v_t0::act_mul::ActMulOp;
use r9v_t0::activation::{activation, ActivationOp};
use r9v_t0::arith::FloatOp;
use r9v_t0::buffer::{TensorView, TensorViewMut, TypedBuffer};
use r9v_t0::causal_conv1d::ConvActivation;
use r9v_t0::copy::{CopyKind, CopyOp};
use r9v_t0::double::{erf_f64, eval_activation_f64, DoubleOp};
use r9v_t0::double_io::{buffer_to_f64, bytes_f16_to_f64, read_f64_at};
use r9v_t0::error::T0Error;
use r9v_t0::gemm::Epilogue;
use r9v_t0::harness::HarnessError;
use r9v_t0::ir::{ActivationKind, DType};
use r9v_t0::reference::{
    act_mul_f64_reference, activation_f64_reference, attention_row_f64_reference,
    copy_f64_reference, embed_gather_f64_reference, gather_rows_f64_reference,
    logit_softcap_f64_reference, matmul_f64_reference, mla_row_f64_reference,
};
use r9v_t0::reference_moe::moe_ffn_f64_reference;
use r9v_t0::reference_scan::linear_attn_scan_f64_reference;
use r9v_t0::reference_state::causal_conv1d_f64_reference;
use r9v_t0::tolerance::{check_f32_against_f64, check_within, Tolerance};

fn arith(op: FloatOp, x: u32, y: u32) -> u32 {
    let (x, y) = (f32::from_bits(x), f32::from_bits(y));
    let r = match op {
        FloatOp::Plus => x + y,
        FloatOp::Minus => x - y,
        FloatOp::Times => x * y,
        FloatOp::Over => x / y,
        FloatOp::Exp => x.exp(),
        FloatOp::Tanh => x.tanh(),
        FloatOp::Max => x.max(y),
    };
    r.to_bits()
}

fn double(op: DoubleOp, a: u64, c: u64) -> u64 {
    let (x, y) = (f64::from_bits(a), f64::from_bits(c));
    let r = match op {
        DoubleOp::Plus => x + y,
        DoubleOp::Minus => x - y,
        DoubleOp::Times => x * y,
        DoubleOp::Over => x / y,
        DoubleOp::Exp => x.exp(),
        DoubleOp::Tanh => x.tanh(),
        DoubleOp::Max => x.max(y),
        DoubleOp::Min => x.min(y),
        DoubleOp::Whole => a as f64,
        DoubleOp::Widen => f32::from_bits(a as u32) as f64,
        DoubleOp::Narrow => return (x as f32).to_bits() as u64,
    };
    r.to_bits()
}

fn d(v: &[f64]) -> Vec<u64> {
    v.iter().map(|x| x.to_bits()).collect()
}

fn f(v: &[u64]) -> Vec<f64> {
    v.iter().map(|&x| f64::from_bits(x)).collect()
}

#[test]
fn error_function_in_double_precision() {
    for (x, want) in [
        (0.1, 0.112_462_916_018_284_89),
        (0.5, 0.520_499_877_813_046_5),
        (1.0, 0.842_700_792_949_714_9),
        (2.0, 0.995_322_265_018_952_7),
        (4.0, 0.999_999_984_582_742_1),
        (-1.0, -0.842_700_792_949_714_9),
    ] {
        let got = f64::from_bits(erf_f64(&double, f64::to_bits(x)));
        assert!((got - want).abs() < 1e-12, "{} {}", got, want);
    }
    assert_eq!(erf_f64(&double, f64::to_bits(7.0)), f64::to_bits(1.0));
    assert_eq!(erf_f64(&double, f64::to_bits(-7.0)), f64::to_bits(-1.0));
    assert_eq!(erf_f64(&double, f64::to_bits(-0.0)), 0);
    assert!(f64::from_bits(erf_f64(&double, f64::to_bits(f64::NAN))).is_nan());
}

#[test]
fn activations_in_double_precision() {
    let at = |x: f64, k| f64::from_bits(eval_activation_f64(&double, x.to_bits(), k));
    assert!((at(1.0, ActivationKind::Silu) - 0.731_058_578_630_004_9).abs() < 1e-15);
    assert!((at(1.0, ActivationKind::Gelu) - 0.841_344_746_068_542_9).abs() < 1e-12);
    assert!((at(1.0, ActivationKind::GeluTanh) - 0.841_191_990_608_276_2).abs() < 1e-12);
    assert_eq!(at(-3.0, ActivationKind::Relu2), 0.0);
    assert_eq!(at(3.0, ActivationKind::Relu2), 9.0);
    assert_eq!(at(-3.0, ActivationKind::Identity), -3.0);
}

#[test]
fn pointwise_references() {
    let relu = ActivationOp { act: ActivationKind::Relu2, clamp: Some(16f32.to_bits()) };
    let y = activation_f64_reference(&double, &relu, &d(&[3.0, 5.0, -1.0]));
    assert_eq!(f(&y), vec![9.0, 16.0, 0.0]);
    let gate = ActMulOp { act: ActivationKind::Identity, clamp: Some(2f32.to_bits()) };
    let y = act_mul_f64_reference(&double, &gate, &d(&[1.0, 5.0]), &d(&[10.0, 10.0]));
    assert_eq!(f(&y), vec![10.0, 20.0]);
    let y = copy_f64_reference(&CopyOp { kind: CopyKind::DeviceToDevice }, &d(&[1.0, 5.0]));
    assert_eq!(f(&y), vec![1.0, 5.0]);
    let y = logit_softcap_f64_reference(&double, &d(&[0.0, 1e9]), 30f64.to_bits());
    assert_eq!(f(&y), vec![0.0, 30.0]);
}

#[test]
fn rows_are_gathered_in_double_precision() {
    let x = d(&[1.0, 2.0, 3.0, 4.0]);
    assert_eq!(f(&gather_rows_f64_reference(&x, 2, 2, &[1, 0, 1])), vec![3.0, 4.0, 1.0, 2.0, 3.0, 4.0]);
    let y = embed_gather_f64_reference(&double, &[1], &x, 2, 2, 0.5f64.to_bits());
    assert_eq!(f(&y), vec![1.5, 2.0]);
}

#[test]
fn products_in_double_precision() {
    let x = d(&[1.0, 2.0]);
    let w = d(&[1.0, 2.0, 10.0, 20.0]);
    let run = |bias: Option<&[u64]>, residual: Option<&[u64]>, e, t| {
        f(&matmul_f64_reference(&double, &x, 1, 2, &w, 2, bias, residual, e, t))
    };
    assert_eq!(run(None, None, Epilogue::Plain, false), vec![5.0, 50.0]);
    assert_eq!(run(None, None, Epilogue::Plain, true), vec![21.0, 42.0]);
    let b = d(&[0.5, -0.5]);
    assert_eq!(run(Some(&b), None, Epilogue::Bias, false), vec![5.5, 49.5]);
    assert_eq!(run(None, Some(&b), Epilogue::Residual, false), vec![5.5, 49.5]);
    let act = Epilogue::Act(ActivationKind::Relu2);
    assert_eq!(run(None, None, act, false), vec![25.0, 2500.0]);
}

#[test]
fn attention_rows_in_double_precision() {
    let k = vec![d(&[0.0]), d(&[0.0])];
    let v = vec![d(&[1.0, 2.0]), d(&[3.0, 6.0])];
    let one = 1f64.to_bits();
    let y = attention_row_f64_reference(&double, &d(&[1.0]), &k, &v, one, None);
    assert_eq!(f(&y), vec![2.0, 4.0]);
    let y = attention_row_f64_reference(&double, &d(&[1.0]), &k[..1], &v, one, Some(one));
    assert_eq!(f(&y), vec![1.0, 2.0]);
    let y = attention_row_f64_reference(&double, &d(&[1.0]), &[], &v, one, None);
    assert_eq!(f(&y), vec![0.0, 0.0]);
    let y = mla_row_f64_reference(&double, &d(&[0.0, 0.0]), &d(&[5.0]), &v, &k, one, None);
    assert_eq!(f(&y), vec![2.0, 4.0]);
}

#[test]
fn convolution_in_double_precision() {
    let run = |x: &[f64], lens: &[u32], window: &[f64]| {
        let (y, s) = causal_conv1d_f64_reference(
            &double, &d(x), x.len(), 1, &d(&[10.0, 1.0]), 2, None, ConvActivation::Identity,
            &d(window), lens.len(), lens,
        )
        .unwrap();
        (f(&y), f(&s))
    };
    assert_eq!(
        run(&[1.0, 2.0, 3.0], &[2, 1], &[5.0, 7.0]),
        (vec![51.0, 12.0, 73.0], vec![2.0, 3.0])
    );
    assert_eq!(run(&[1.0, 2.0], &[1], &[5.0]), (vec![51.0, 0.0], vec![1.0]));
    assert_eq!(run(&[1.0], &[0, 1], &[5.0, 7.0]).1, vec![5.0, 1.0]);
}

#[test]
fn convolution_reference_checks_lengths() {
    let r = causal_conv1d_f64_reference(
        &double, &d(&[1.0]), 2, 1, &d(&[1.0]), 1, Some(&d(&[1.0, 2.0])), ConvActivation::Silu,
        &[], 1, &[2],
    );
    match r {
        Err(T0Error::Multiple { problems }) => {
            assert_eq!(problems.len(), 2);
            assert!(matches!(
                problems[0],
                T0Error::ShapeLengthMismatch { tensor: "x", expected: 2, got: 1, .. }
            ));
        }
        _ => panic!("expected two problems"),
    }
    let r = causal_conv1d_f64_reference(
        &double, &[], usize::MAX, 2, &[], 1, None, ConvActivation::Silu, &[], 0, &[],
    );
    assert!(matches!(r, Err(T0Error::ArithmeticOverflow { op: "causal_conv1d", .. })));
}

#[test]
fn scan_in_double_precision() {
    let (o, s) = linear_attn_scan_f64_reference(
        &double,
        &d(&[1.0, 1.0]),
        &d(&[2.0, 3.0]),
        &d(&[5.0, 7.0]),
        &d(&[0.5, 0.5]),
        &d(&[1.0, 2.0]),
        2, 1, 1, 1,
        &d(&[4.0]),
        1,
        &[2],
    )
    .unwrap();
    assert_eq!(f(&o), vec![12.0, 48.0]);
    assert_eq!(f(&s), vec![48.0]);
    let r = linear_attn_scan_f64_reference(
        &double, &[], &[], &[], &[], &[], 1, 1, 1, 1, &[], 0, &[],
    );
    match r {
        Err(T0Error::Multiple { problems }) => assert_eq!(problems.len(), 5),
        _ => panic!("expected five problems"),
    }
}

#[test]
fn experts_in_double_precision() {
    let y = moe_ffn_f64_reference(
        &double,
        &d(&[2.0]),
        1,
        1,
        &[1, 0],
        &d(&[0.25, 0.75]),
        2,
        &d(&[1.0, 3.0, 2.0, 5.0]),
        2,
        1,
        &d(&[10.0, 100.0]),
        ActivationKind::Identity,
    )
    .unwrap();
    assert_eq!(f(&y), vec![1090.0]);
    let r = moe_ffn_f64_reference(
        &double, &d(&[2.0]), 1, 1, &[7], &d(&[1.0]), 1, &d(&[1.0, 3.0]), 1, 1, &d(&[10.0]),
        ActivationKind::Silu,
    );
    assert!(matches!(
        r,
        Err(T0Error::RowIndexOutOfRange { tensor: "expert_ids", position: 0, index: 7, upper_bound: 1, .. })
    ));
}

#[test]
fn doubles_are_read_and_written() {
    let words = [1.5f32.to_bits(), 0];
    let v = TensorView::from_f32_slice(&[2], &words);
    assert_eq!(f64::from_bits(v.read_f64(&double, 0)), 1.5);
    let ints = [u32::MAX];
    let v = TensorView::from_u32_slice(&[1], &ints);
    assert_eq!(f64::from_bits(v.read_f64(&double, 0)), 4_294_967_295.0);
    let mut out = [0u32; 1];
    let mut m = TensorViewMut::from_f32_slice(&[1], &mut out);
    m.write_f64(&double, 0, 0.1f64.to_bits());
    assert_eq!(f64::from_bits(m.read_f64(&double, 0)), 0.1f32 as f64);
    assert_eq!(out, [0.1f32.to_bits()]);
    assert_eq!(f64::from_bits(read_f64_at(&double, DType::I8, &[0xFF], 0)), -1.0);
    let buf = TypedBuffer::from_f32(&[2], &words);
    assert_eq!(f(&buffer_to_f64(&double, &buf)), vec![1.5, 0.0]);
    let half = TypedBuffer::from_bytes(&[1], DType::F16, &0x3C00u16.to_le_bytes());
    assert_eq!(f(&bytes_f16_to_f64(&double, &half)), vec![1.0]);
}

#[test]
fn results_near_their_references_pass() {
    let tol = Tolerance { abs: 0.01f64.to_bits(), rel: 0.1f64.to_bits() };
    assert!(check_within(&double, tol, &d(&[1.0, 100.0]), &d(&[1.0, 105.0]), "x").is_ok());
    match check_within(&double, tol, &d(&[1.0, 100.0]), &d(&[1.0, 120.0]), "x") {
        Err(HarnessError::GoldenMismatch { index, actual, expected, .. }) => {
            assert_eq!((index, f64::from_bits(actual), f64::from_bits(expected)), (1, 100.0, 120.0));
        }
        _ => panic!("expected a mismatch"),
    }
    assert!(check_within(&double, tol, &d(&[f64::NAN]), &d(&[f64::NAN]), "x").is_ok());
    assert!(check_within(&double, tol, &d(&[f64::NAN]), &d(&[1.0]), "x").is_err());
    assert!(check_within(&double, tol, &d(&[1.0]), &d(&[f64::NAN]), "x").is_err());
    assert!(check_f32_against_f64(&double, tol, &[f32::NAN.to_bits()], &d(&[1.0]), "x").is_err());
    assert!(matches!(
        check_within(&double, tol, &d(&[1.0]), &[], "x"),
        Err(HarnessError::LengthMismatch { actual: 1, expected: 0, .. })
    ));
    assert!(check_f32_against_f64(&double, tol, &[1f32.to_bits()], &d(&[1.0]), "x").is_ok());
    assert!(check_f32_against_f64(&double, tol, &[2f32.to_bits()], &d(&[1.0]), "x").is_err());
}

#[test]
fn a_kernel_agrees_with_its_reference() {
    let x: Vec<f32> = (0..16).map(|i| i as f32 / 4.0 - 2.0).collect();
    let bits: Vec<u32> = x.iter().map(|v| v.to_bits()).collect();
    let wide: Vec<f64> = x.iter().map(|&v| v as f64).collect();
    let tol = Tolerance { abs: 1e-5f64.to_bits(), rel: 1e-5f64.to_bits() };
    for act in [
        ActivationKind::Silu,
        ActivationKind::Gelu,
        ActivationKind::GeluTanh,
        ActivationKind::Relu2,
        ActivationKind::Identity,
    ] {
        let op = ActivationOp { act, clamp: None };
        let mut y = [0u32; 16];
        let xv = TensorView::from_f32_slice(&[4, 4], &bits);
        let mut yv = TensorViewMut::from_f32_slice(&[4, 4], &mut y);
        activation(&arith, &op, &xv, &mut yv).unwrap();
        let want = activation_f64_reference(&double, &op, &d(&wide));
        check_f32_against_f64(&double, tol, &y, &want, "activation").unwrap();
    }
}

#[test]
fn references_report_lengths_before_reading_past_the_tokens() {
    let r = causal_conv1d_f64_reference(
        &double, &[], 1, 1, &d(&[1.0]), 1, None, ConvActivation::Identity, &[], 1, &[5],
    );
    assert!(matches!(
        r,
        Err(T0Error::ShapeLengthMismatch { tensor: "x", expected: 1, got: 0, .. })
    ));
    let one = d(&[1.0]);
    let r = linear_attn_scan_f64_reference(
        &double, &one, &one, &one, &[], &one, 1, 1, 1, 1, &one, 1, &[5],
    );
    assert!(matches!(
        r,
        Err(T0Error::ShapeLengthMismatch { tensor: "alpha", expected: 1, got: 0, .. })
    ));
    let r = linear_attn_scan_f64_reference(
        &double, &[], &[], &[], &[], &[], usize::MAX, 2, 1, 1, &[], 1, &[5],
    );
    assert!(matches!(r, Err(T0Error::ArithmeticOverflow { op: "linear_attn_scan", .. })));
}
