//! Pointwise kernels, copies and transfers.
use r9v_t0::act_mul::{act_mul, ActMulOp};
use r9v_t0::activation::{activation, apply_clamp, eval_activation_f32, ActivationOp};
use r9v_t0::arith::FloatOp;
use r9v_t0::buffer::{TensorView, TensorViewMut};
use r9v_t0::collectives::{
    all_gather, all_reduce, all_to_all, barrier, recv, reduce_scatter, send, AllGatherOp,
    AllReduceOp, AllToAllOp, BarrierOp, RecvOp, ReduceOp, ReduceScatterOp, SendOp,
};
use r9v_t0::copy::{copy, CopyKind, CopyOp};
use r9v_t0::erf::erf_f32;
use r9v_t0::error::T0Error;
use r9v_t0::gather_rows::{gather_rows, GatherRowsOp};
use r9v_t0::ir::{ActivationKind, DType};
use r9v_t0::logit_softcap::{logit_softcap, softcap_value, LogitSoftcapOp};

fn b(v: f32) -> u32 {
    v.to_bits()
}

fn arith(op: FloatOp, x: u32, y: u32) -> u32 {
    let (x, y) = (f32::from_bits(x), f32::from_bits(y));
    let r = match op {
        FloatOp::Plus => x + y,
        FloatOp::Minus => x - y,
        FloatOp::Times => x * y,
        FloatOp::Over => x / y,
        FloatOp::Exp => x.exp(),
        FloatOp::Tanh => x.tanh(),
        FloatOp::Max => x.max(y),
    };
    r.to_bits()
}

fn close(bits: u32, want: f32, tol: f32) {
    let got = f32::from_bits(bits);
    assert!((got - want).abs() <= tol, "{} is not near {}", got, want);
}

#[test]
fn activation_functions() {
    let one = b(1.0);
    close(eval_activation_f32(&arith, one, ActivationKind::Silu), 0.731_058_6, 1e-6);
    close(eval_activation_f32(&arith, one, ActivationKind::Gelu), 0.841_344_8, 1e-6);
    close(eval_activation_f32(&arith, one, ActivationKind::GeluTanh), 0.841_192, 1e-5);
    assert_eq!(eval_activation_f32(&arith, b(-3.0), ActivationKind::Relu2), 0);
    assert_eq!(eval_activation_f32(&arith, b(3.0), ActivationKind::Relu2), b(9.0));
    assert_eq!(eval_activation_f32(&arith, b(-3.5), ActivationKind::Identity), b(-3.5));
    assert_eq!(eval_activation_f32(&arith, 0, ActivationKind::Silu), 0);
}

#[test]
fn error_function() {
    for (x, want) in [
        (0.1f32, 0.112_462_92),
        (0.5, 0.520_499_9),
        (1.0, 0.842_700_8),
        (1.4, 0.952_285_1),
        (1.6, 0.976_348_4),
        (2.0, 0.995_322_3),
        (3.0, 0.999_977_9),
    ] {
        close(erf_f32(&arith, b(x)), want, 1e-6);
        assert_eq!(erf_f32(&arith, b(-x)), erf_f32(&arith, b(x)) ^ 0x8000_0000);
    }
    assert_eq!(erf_f32(&arith, b(6.0)), b(1.0));
    assert_eq!(erf_f32(&arith, b(-6.0)), b(-1.0));
    assert_eq!(erf_f32(&arith, b(-0.0)), 0);
    assert!(f32::from_bits(erf_f32(&arith, b(f32::NAN))).is_nan());
}

#[test]
fn clamp_is_an_upper_bound() {
    assert_eq!(apply_clamp(b(5.0), Some(b(2.0))), b(2.0));
    assert_eq!(apply_clamp(b(-5.0), Some(b(2.0))), b(-5.0));
    assert_eq!(apply_clamp(b(f32::NAN), Some(b(2.0))), b(2.0));
    assert_eq!(apply_clamp(b(5.0), None), b(5.0));
}

#[test]
fn activation_writes_every_element() {
    let x = [b(-1.0), b(2.0), b(3.0), b(0.5)];
    let mut y = [0u32; 4];
    let op = ActivationOp { act: ActivationKind::Identity, clamp: Some(b(2.5)) };
    let xv = TensorView::from_f32_slice(&[2, 2], &x);
    let mut yv = TensorViewMut::from_f32_slice(&[2, 2], &mut y);
    activation(&arith, &op, &xv, &mut yv).unwrap();
    assert_eq!(y, [b(-1.0), b(2.0), b(2.5), b(0.5)]);
}

#[test]
fn activation_refuses_mismatches() {
    let x = [0u32; 4];
    let mut y = [7u32; 4];
    let op = ActivationOp { act: ActivationKind::Silu, clamp: Some(b(-1.0)) };
    let xv = TensorView::from_f32_slice(&[2, 2], &x);
    let mut yv = TensorViewMut::from_f32_slice(&[4, 1], &mut y);
    let e = activation(&arith, &op, &xv, &mut yv).unwrap_err();
    match e {
        T0Error::Multiple { problems } => assert!(problems.len() >= 2),
        _ => panic!("expected several problems"),
    }
    assert_eq!(y, [7u32; 4]);
}

#[test]
fn act_mul_multiplies_by_the_gate() {
    let gate = [b(2.0), b(-3.0)];
    let up = [b(5.0), b(7.0)];
    let mut y = [0u32; 2];
    let op = ActMulOp { act: ActivationKind::Relu2, clamp: None };
    let g = TensorView::from_f32_slice(&[1, 2], &gate);
    let u = TensorView::from_f32_slice(&[1, 2], &up);
    let mut yv = TensorViewMut::from_f32_slice(&[1, 2], &mut y);
    act_mul(&arith, &op, &g, &u, &mut yv).unwrap();
    assert_eq!(y, [b(20.0), b(0.0)]);
}

#[test]
fn softcap_bounds_logits() {
    let x = [b(0.0), b(100.0), b(-100.0)];
    let mut y = [1u32; 3];
    let op = LogitSoftcapOp { cap: b(30.0) };
    let xv = TensorView::from_f32_slice(&[1, 3], &x);
    let mut yv = TensorViewMut::from_f32_slice(&[1, 3], &mut y);
    logit_softcap(&arith, &op, &xv, &mut yv).unwrap();
    assert_eq!(y[0], b(0.0));
    close(y[1], 30.0 * (100.0f32 / 30.0).tanh(), 1e-6);
    assert_eq!(y[2], y[1] ^ 0x8000_0000);
    assert_eq!(softcap_value(&arith, b(100.0), b(30.0)), y[1]);
}

#[test]
fn softcap_refuses_a_bad_cap() {
    let x = [0u32; 1];
    let mut y = [9u32; 1];
    let op = LogitSoftcapOp { cap: b(0.0) };
    let xv = TensorView::from_f32_slice(&[1, 1], &x);
    let mut yv = TensorViewMut::from_f32_slice(&[1, 1], &mut y);
    let e = logit_softcap(&arith, &op, &xv, &mut yv).unwrap_err();
    assert!(matches!(e, T0Error::InvalidAttribute { op: "logit_softcap", attribute: "cap", .. }));
    assert_eq!(y, [9]);
}

#[test]
fn copy_keeps_bits() {
    let x = [0x7F80_0001u32, 0x8000_0000];
    let mut y = [0u32; 2];
    let op = CopyOp { kind: CopyKind::DeviceToDevice };
    let xv = TensorView::from_f32_slice(&[2], &x);
    let mut yv = TensorViewMut::from_f32_slice(&[2], &mut y);
    copy(&op, &xv, &mut yv).unwrap();
    assert_eq!(y, x);
}

#[test]
fn rows_are_gathered_by_index() {
    let x = [1u32, 2, 3, 4, 5, 6];
    let ids = [2u32, 0];
    let mut y = [0u32; 4];
    let xv = TensorView::from_f32_slice(&[3, 2], &x);
    let iv = TensorView::from_u32_slice(&[2], &ids);
    let mut yv = TensorViewMut::from_f32_slice(&[2, 2], &mut y);
    gather_rows(&GatherRowsOp {}, &xv, &iv, &mut yv).unwrap();
    assert_eq!(y, [5, 6, 1, 2]);
}

#[test]
fn gather_refuses_a_missing_row() {
    let x = [1u32, 2];
    let ids = [1u32];
    let mut y = [0u32; 2];
    let xv = TensorView::from_f32_slice(&[1, 2], &x);
    let iv = TensorView::from_u32_slice(&[1], &ids);
    let mut yv = TensorViewMut::from_f32_slice(&[1, 2], &mut y);
    let e = gather_rows(&GatherRowsOp {}, &xv, &iv, &mut yv).unwrap_err();
    assert!(matches!(
        e,
        T0Error::RowIndexOutOfRange { position: 0, index: 1, upper_bound: 1, .. }
    ));
    assert_eq!(y, [0, 0]);
}

#[test]
fn transfers_of_one_rank_are_copies() {
    let x = [b(1.0), b(2.0)];
    let xv = TensorView::from_f32_slice(&[2, 1], &x);
    let mut y = [0u32; 2];
    let op = AllReduceOp { op: ReduceOp::Sum, dtype: DType::F32, reduce_in: DType::F32 };
    all_reduce(&op, &xv, &mut TensorViewMut::from_f32_slice(&[2, 1], &mut y)).unwrap();
    assert_eq!(y, x);
    let mut y = [0u32; 2];
    let op = AllGatherOp { axis: 0, dtype: DType::F32 };
    all_gather(&op, &xv, &mut TensorViewMut::from_f32_slice(&[2, 1], &mut y)).unwrap();
    assert_eq!(y, x);
    let mut y = [0u32; 2];
    let op = ReduceScatterOp {
        op: ReduceOp::Sum,
        axis: 0,
        dtype: DType::F32,
        reduce_in: DType::F32,
    };
    reduce_scatter(&op, &xv, &mut TensorViewMut::from_f32_slice(&[2, 1], &mut y)).unwrap();
    assert_eq!(y, x);
    let mut y = [0u32; 2];
    let counts = [2u32];
    let cv = TensorView::from_u32_slice(&[1], &counts);
    let op = AllToAllOp { dtype: DType::F32 };
    all_to_all(&op, &xv, &cv, &mut TensorViewMut::from_f32_slice(&[2, 1], &mut y)).unwrap();
    assert_eq!(y, x);
    assert!(barrier(&BarrierOp {}).is_ok());
    assert!(send(&SendOp { peer: 0, dtype: DType::F32 }, &xv).is_ok());
}

#[test]
fn exchange_refuses_wrong_counts() {
    let x = [b(1.0), b(2.0)];
    let xv = TensorView::from_f32_slice(&[2, 1], &x);
    let mut y = [0u32; 2];
    let counts = [1u32];
    let cv = TensorView::from_u32_slice(&[1], &counts);
    let op = AllToAllOp { dtype: DType::F32 };
    let e = all_to_all(&op, &xv, &cv, &mut TensorViewMut::from_f32_slice(&[2, 1], &mut y));
    assert!(e.is_err());
    assert_eq!(y, [0, 0]);
}

#[test]
fn receiving_without_a_peer_is_refused() {
    let mut y = [3u32; 1];
    let op = RecvOp { peer: 0, dtype: DType::F32 };
    assert!(recv(&op, &mut TensorViewMut::from_f32_slice(&[1], &mut y)).is_err());
    assert_eq!(y, [3]);
}
