//! Kernels that carry state along sequences.
use r9v_t0::arith::FloatOp;
use r9v_t0::buffer::{TensorView, TensorViewMut};
use r9v_t0::causal_conv1d::{causal_conv1d, CausalConv1dOp, ConvActivation};
use r9v_t0::error::T0Error;
use r9v_t0::ir::{DType, StateHandle, StateKind};
use r9v_t0::linear_attn_scan::{
    linear_attn_scan_chunked, linear_attn_scan_recurrent, LinearAttnKind, LinearAttnScanOp,
};
use r9v_t0::segments::SeqLayout;

fn b(v: f32) -> u32 {
    v.to_bits()
}

fn arith(op: FloatOp, x: u32, y: u32) -> u32 {
    let (x, y) = (f32::from_bits(x), f32::from_bits(y));
    let r = match op {
        FloatOp::Plus => x + y,
        FloatOp::Minus => x - y,
        FloatOp::Times => x * y,
        FloatOp::Over => x / y,
        FloatOp::Exp => x.exp(),
        FloatOp::Tanh => x.tanh(),
        FloatOp::Max => x.max(y),
    };
    r.to_bits()
}

fn f16(v: f32) -> u16 {
    r9v_t0::dtype::f32_to_f16(b(v))
}

fn conv_op() -> CausalConv1dOp {
    CausalConv1dOp {
        kernel: 2,
        act: ConvActivation::Identity,
        handle: StateHandle { layer: 0, kind: StateKind::ConvWindow },
    }
}

fn conv(x: &[f32], lens: &[u32], window: &[f32]) -> (Vec<f32>, Vec<f32>) {
    let t = x.len();
    let s = lens.len();
    let xs: Vec<u32> = x.iter().map(|&v| b(v)).collect();
    let w = [b(10.0), b(1.0)];
    let state: Vec<u16> = window.iter().map(|&v| f16(v)).collect();
    let mut y = vec![0u32; t];
    let mut next = vec![0u16; s];
    let xv = TensorView::from_f32_slice(&[t, 1], &xs);
    let wv = TensorView::from_f32_slice(&[1, 2], &w);
    let sv = TensorView::from_f16_slice(&[s, 1, 1], &state);
    let seq = SeqLayout::new(lens.to_vec());
    let mut yv = TensorViewMut::from_f32_slice(&[t, 1], &mut y);
    let mut nv = TensorViewMut::from_f16_slice(&[s, 1, 1], &mut next);
    causal_conv1d(&arith, &conv_op(), &xv, &wv, None, &sv, &seq, &mut yv, &mut nv).unwrap();
    (
        y.iter().map(|&v| f32::from_bits(v)).collect(),
        next.iter().map(|&v| f32::from_bits(r9v_t0::dtype::f16_to_f32(v))).collect(),
    )
}

#[test]
fn convolution_uses_the_carried_window() {
    let (y, next) = conv(&[1.0, 2.0, 3.0], &[2, 1], &[5.0, 7.0]);
    assert_eq!(y, vec![51.0, 12.0, 73.0]);
    assert_eq!(next, vec![2.0, 3.0]);
}

#[test]
fn convolution_continues_where_it_stopped() {
    let (whole, end) = conv(&[1.0, 2.0, 3.0, 4.0], &[4], &[0.0]);
    let (first, mid) = conv(&[1.0, 2.0], &[2], &[0.0]);
    let (second, last) = conv(&[3.0, 4.0], &[2], &mid);
    assert_eq!(whole, [first, second].concat());
    assert_eq!(end, last);
}

#[test]
fn convolution_refuses_a_wrong_kernel() {
    let x = [b(1.0)];
    let w = [b(1.0); 3];
    let state = [0u16];
    let mut y = [8u32; 1];
    let mut next = [0u16; 1];
    let xv = TensorView::from_f32_slice(&[1, 1], &x);
    let wv = TensorView::from_f32_slice(&[1, 3], &w);
    let sv = TensorView::from_f16_slice(&[1, 1, 1], &state);
    let seq = SeqLayout::new(vec![1]);
    let mut yv = TensorViewMut::from_f32_slice(&[1, 1], &mut y);
    let mut nv = TensorViewMut::from_f16_slice(&[1, 1, 1], &mut next);
    let r = causal_conv1d(&arith, &conv_op(), &xv, &wv, None, &sv, &seq, &mut yv, &mut nv);
    assert!(r.is_err());
    assert_eq!(y, [8]);
}

#[test]
fn sequence_lengths_must_add_up() {
    let seq = SeqLayout::new(vec![2, 3]);
    assert_eq!(seq.seq_count(), 2);
    assert_eq!(seq.seq_lens(), &[2, 3]);
    assert!(seq.check_total("x", 5).is_ok());
    assert!(matches!(
        seq.check_total("x", 6),
        Err(T0Error::DimensionMismatch { dim_name: "T", .. })
    ));
}

fn scan(
    chunked: bool,
    chunk: u32,
    values: &[f32],
    lens: &[u32],
    start: &[f32],
) -> (Vec<u32>, Vec<u32>) {
    let t = values.len();
    let s = lens.len();
    let op = LinearAttnScanOp {
        kind: LinearAttnKind::GatedDeltaNet,
        chunk,
        out_dtype: DType::F32,
        handle: StateHandle { layer: 0, kind: StateKind::Recurrent },
    };
    let q: Vec<u32> = values.iter().flat_map(|&v| [b(v), b(0.5 - v)]).collect();
    let k: Vec<u32> = values.iter().flat_map(|&v| [b(0.1 * v), b(0.3)]).collect();
    let v: Vec<u32> = values.iter().map(|&v| b(v * v)).collect();
    let alpha: Vec<u32> = values.iter().map(|&v| b(-0.1 * v.abs())).collect();
    let beta: Vec<u32> = values.iter().map(|&v| b(0.2 * v)).collect();
    let state: Vec<u32> = start.iter().map(|&v| b(v)).collect();
    let mut o = vec![0u32; t];
    let mut next = vec![0u32; s * 2];
    let qv = TensorView::from_f32_slice(&[t, 1, 2], &q);
    let kv = TensorView::from_f32_slice(&[t, 1, 2], &k);
    let vv = TensorView::from_f32_slice(&[t, 1, 1], &v);
    let av = TensorView::from_f32_slice(&[t, 1], &alpha);
    let bv = TensorView::from_f32_slice(&[t, 1], &beta);
    let sv = TensorView::from_f32_slice(&[s, 1, 2, 1], &state);
    let seq = SeqLayout::new(lens.to_vec());
    let mut ov = TensorViewMut::from_f32_slice(&[t, 1, 1], &mut o);
    let mut nv = TensorViewMut::from_f32_slice(&[s, 1, 2, 1], &mut next);
    let r = if chunked {
        linear_attn_scan_chunked(
            &arith, &op, &qv, &kv, &vv, &av, &bv, &sv, &seq, &mut ov, &mut nv,
        )
    } else {
        linear_attn_scan_recurrent(
            &arith, &op, &qv, &kv, &vv, &av, &bv, &sv, &seq, &mut ov, &mut nv,
        )
    };
    if let Err(e) = r {
        panic!("{:?}", e);
    }
    (o, next)
}

#[test]
fn chunks_and_single_steps_agree() {
    let values = [0.3f32, -1.2, 0.7, 2.0, -0.4];
    let one = scan(false, 64, &values, &[2, 3], &[0.1, 0.2, 0.3, 0.4]);
    let two = scan(true, 2, &values, &[2, 3], &[0.1, 0.2, 0.3, 0.4]);
    assert_eq!(one, two);
    assert!(one.0.iter().any(|&v| v != 0));
}

#[test]
fn scans_continue_where_they_stopped() {
    let values = [0.3f32, -1.2, 0.7, 2.0];
    let (o, end) = scan(false, 64, &values, &[4], &[0.1, 0.2]);
    let (a, mid) = scan(false, 64, &values[..2], &[2], &[0.1, 0.2]);
    let mid: Vec<f32> = mid.iter().map(|&v| f32::from_bits(v)).collect();
    let (c, last) = scan(false, 64, &values[2..], &[2], &mid);
    assert_eq!(o, [a, c].concat());
    assert_eq!(end, last);
}

#[test]
fn scans_refuse_gates_that_are_not_finite() {
    let op = LinearAttnScanOp {
        kind: LinearAttnKind::GLA,
        chunk: 64,
        out_dtype: DType::F32,
        handle: StateHandle { layer: 0, kind: StateKind::Recurrent },
    };
    let one = [b(1.0)];
    let bad = [b(f32::NAN)];
    let mut o = [6u32; 1];
    let mut next = [7u32; 1];
    let t3 = TensorView::from_f32_slice(&[1, 1, 1], &one);
    let good = TensorView::from_f32_slice(&[1, 1], &one);
    let nan = TensorView::from_f32_slice(&[1, 1], &bad);
    let state = TensorView::from_f32_slice(&[1, 1, 1, 1], &one);
    let seq = SeqLayout::new(vec![1]);
    let mut ov = TensorViewMut::from_f32_slice(&[1, 1, 1], &mut o);
    let mut nv = TensorViewMut::from_f32_slice(&[1, 1, 1, 1], &mut next);
    let r = linear_attn_scan_recurrent(
        &arith, &op, &t3, &t3, &t3, &nan, &good, &state, &seq, &mut ov, &mut nv,
    );
    assert!(matches!(r, Err(T0Error::InvalidAttribute { attribute: "alpha", .. })));
    assert_eq!((o, next), ([6], [7]));
}

#[test]
fn scans_refuse_gates_of_another_extent() {
    let op = LinearAttnScanOp {
        kind: LinearAttnKind::GLA,
        chunk: 64,
        out_dtype: DType::F32,
        handle: StateHandle { layer: 0, kind: StateKind::Recurrent },
    };
    let two = [b(1.0); 2];
    let one = [b(1.0)];
    let mut o = [6u32; 2];
    let mut next = [7u32; 1];
    let t3 = TensorView::from_f32_slice(&[2, 1, 1], &two);
    let good = TensorView::from_f32_slice(&[2, 1], &two);
    let short = TensorView::from_f32_slice(&[1, 1], &one);
    let state = TensorView::from_f32_slice(&[1, 1, 1, 1], &one);
    let seq = SeqLayout::new(vec![2]);
    let mut ov = TensorViewMut::from_f32_slice(&[2, 1, 1], &mut o);
    let mut nv = TensorViewMut::from_f32_slice(&[1, 1, 1, 1], &mut next);
    let r = linear_attn_scan_recurrent(
        &arith, &op, &t3, &t3, &t3, &good, &short, &state, &seq, &mut ov, &mut nv,
    );
    assert!(matches!(r, Err(T0Error::DimensionMismatch { tensor: "beta", .. })));
}

#[test]
fn sequences_do_not_depend_on_the_batch() {
    let (alone, window) = conv(&[1.5, 2.5], &[2], &[5.0]);
    let (batch, windows) = conv(&[9.0, 1.5, 2.5, 7.0], &[1, 2, 1], &[3.0, 5.0, 4.0]);
    assert_eq!(alone[..], batch[1..3]);
    assert_eq!(window[0], windows[1]);
    let (alone, state) = scan(false, 64, &[0.3, -1.2], &[2], &[0.1, 0.2]);
    let (batch, states) =
        scan(false, 64, &[2.0, 0.3, -1.2], &[1, 2], &[0.7, 0.8, 0.1, 0.2]);
    assert_eq!(alone[..], batch[1..]);
    assert_eq!(state[..], states[2..]);
}
