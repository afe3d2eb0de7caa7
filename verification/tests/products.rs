//! Matrix products, embeddings and experts.
use r9v_t0::arith::FloatOp;
use r9v_t0::buffer::{TensorView, TensorViewMut};
use r9v_t0::embed_gather::{embed_gather, embed_gather_with_scales, EmbedGatherOp};
use r9v_t0::error::{FormatError, T0Error};
use r9v_t0::gemm::Epilogue;
use r9v_t0::ir::{ActivationKind, DType, LayoutId, QuantScheme, SchemeId};
use r9v_t0::matmul::{matmul, matmul_with_scales, MatmulOp};
use r9v_t0::moe_ffn::{moe_ffn, MoeFfnOp};
use r9v_t0::weight::FormatQuery;

fn b(v: f32) -> u32 {
    v.to_bits()
}

fn arith(op: FloatOp, x: u32, y: u32) -> u32 {
    let (x, y) = (f32::from_bits(x), f32::from_bits(y));
    let r = match op {
        FloatOp::Plus => x + y,
        FloatOp::Minus => x - y,
        FloatOp::Times => x * y,
        FloatOp::Over => x / y,
        FloatOp::Exp => x.exp(),
        FloatOp::Tanh => x.tanh(),
        FloatOp::Max => x.max(y),
    };
    r.to_bits()
}

fn half(h: u16) -> u32 {
    r9v_t0::dtype::f16_to_f32(h)
}

/// A format whose tiles are the plain rows, so that tiled and plain storage can
/// be compared.
fn format(q: FormatQuery) -> Result<u64, FormatError> {
    match q {
        FormatQuery::PaddedRows { rows, .. } => Ok(rows as u64),
        FormatQuery::PaddedCols { cols, .. } => Ok(cols as u64),
        FormatQuery::TileIndex { cols, row, col, .. } => {
            Ok(row as u64 * cols as u64 + col as u64)
        }
        FormatQuery::ScaleCheck { bits, index, .. } => {
            if f32::from_bits(half(bits)).is_finite() {
                Ok(0)
            } else {
                Err(FormatError::Record { index })
            }
        }
        FormatQuery::ScaleValue { bits, .. } => Ok(half(bits) as u64),
        FormatQuery::E4m3Check { byte, index } => {
            if byte % 0x80 == 0x7F {
                Err(FormatError::Record { index })
            } else {
                Ok(0)
            }
        }
        FormatQuery::E4m3Value { byte } => Ok(r9v_t0::dtype::fp8_e4m3_decode(byte) as u64),
        FormatQuery::HeaderScale { bits, .. } => Ok(half(bits as u16) as u64),
        FormatQuery::HeaderMin { bits, .. } => Ok(half((bits >> 16) as u16) as u64),
        FormatQuery::PartScale { .. } => Ok(2),
        FormatQuery::PartMin { .. } => Ok(1),
        FormatQuery::ScaleRowBlocks { rows, .. } => Ok(rows as u64),
        FormatQuery::ScaleColBlocks { .. } => Ok(1),
        FormatQuery::ScaleRecords { rows, .. } => Ok(rows as u64),
        FormatQuery::ScaleBytes { rows, .. } => Ok(2 * rows as u64),
        FormatQuery::RecordOffset { row, .. } => Ok(2 * row as u64),
        FormatQuery::E4m3Code { value } => Ok(r9v_t0::dtype::fp8_e4m3_encode(value) as u64),
    }
}

fn f16(v: f32) -> u16 {
    r9v_t0::dtype::f32_to_f16(b(v))
}

fn f16_bytes(values: &[f32]) -> Vec<u8> {
    let mut out = Vec::new();
    for &v in values {
        out.extend_from_slice(&f16(v).to_le_bytes());
    }
    out
}

fn op(epilogue: Epilogue) -> MatmulOp {
    MatmulOp { out_dtype: DType::F32, epilogue, transpose_w: false }
}

#[test]
fn half_precision_product() {
    let x = [f16(1.0), f16(2.0), f16(3.0), f16(4.0)];
    let w = f16_bytes(&[1.0, 1.0, 2.0, -1.0, 0.5, 0.5]);
    let mut y = [0u32; 6];
    let xv = TensorView::from_f16_slice(&[2, 2], &x);
    let wv = TensorView::from_bytes(&[3, 2], DType::F16, &w);
    let mut yv = TensorViewMut::from_f32_slice(&[2, 3], &mut y);
    matmul(&arith, &format, &op(Epilogue::Plain), &xv, &wv, None, None, &mut yv).unwrap();
    assert_eq!(y, [b(3.0), b(0.0), b(1.5), b(7.0), b(2.0), b(3.5)]);
}

#[test]
fn product_by_columns() {
    let x = [f16(1.0), f16(2.0)];
    let w = f16_bytes(&[1.0, 2.0, 10.0, 20.0]);
    let mut y = [0u32; 2];
    let xv = TensorView::from_f16_slice(&[1, 2], &x);
    let wv = TensorView::from_bytes(&[2, 2], DType::F16, &w);
    let mut yv = TensorViewMut::from_f32_slice(&[1, 2], &mut y);
    let o = MatmulOp { out_dtype: DType::F32, epilogue: Epilogue::Plain, transpose_w: true };
    matmul(&arith, &format, &o, &xv, &wv, None, None, &mut yv).unwrap();
    assert_eq!(y, [b(21.0), b(42.0)]);
}

#[test]
fn epilogues() {
    let x = [f16(2.0)];
    let w = f16_bytes(&[3.0, -4.0]);
    let bias = [b(0.5), b(1.0)];
    let xv = TensorView::from_f16_slice(&[1, 1], &x);
    let wv = TensorView::from_bytes(&[2, 1], DType::F16, &w);
    let bv = TensorView::from_f32_slice(&[2], &bias);
    let rv = TensorView::from_f32_slice(&[1, 2], &bias);
    let mut y = [0u32; 2];
    let mut yv = TensorViewMut::from_f32_slice(&[1, 2], &mut y);
    matmul(&arith, &format, &op(Epilogue::Bias), &xv, &wv, Some(&bv), None, &mut yv).unwrap();
    assert_eq!(y, [b(6.5), b(-7.0)]);
    let mut y = [0u32; 2];
    let mut yv = TensorViewMut::from_f32_slice(&[1, 2], &mut y);
    matmul(&arith, &format, &op(Epilogue::Residual), &xv, &wv, None, Some(&rv), &mut yv).unwrap();
    assert_eq!(y, [b(6.5), b(-7.0)]);
    let mut y = [0u32; 2];
    let mut yv = TensorViewMut::from_f32_slice(&[1, 2], &mut y);
    let act = op(Epilogue::Act(ActivationKind::Relu2));
    matmul(&arith, &format, &act, &xv, &wv, None, None, &mut yv).unwrap();
    assert_eq!(y, [b(36.0), b(0.0)]);
}

#[test]
fn integer_product_with_row_scales() {
    let x = [3i8, -2];
    let xs = [b(0.5)];
    let mut w = vec![5u8, 0xFF];
    w.extend_from_slice(&f16(2.0).to_le_bytes());
    let xv = TensorView::from_i8_slice(&[1, 2], &x).with_quant(QuantScheme::PerToken);
    let sv = TensorView::from_f32_slice(&[1], &xs);
    let wv = TensorView::from_bytes(&[1, 2], DType::I8, &w)
        .with_quant(QuantScheme::Scheme(SchemeId::I8R));
    let mut y = [0u32; 1];
    let mut yv = TensorViewMut::from_f32_slice(&[1, 1], &mut y);
    matmul_with_scales(
        &arith, &format, &op(Epilogue::Plain), &xv, Some(&sv), &wv, None, None, None, &mut yv,
    )
    .unwrap();
    assert_eq!(y, [b(17.0)]);
    let mut y = [0u32; 1];
    let mut yv = TensorViewMut::from_f32_slice(&[1, 1], &mut y);
    let attached = xv.with_scale(sv);
    matmul(&arith, &format, &op(Epilogue::Plain), &attached, &wv, None, None, &mut yv).unwrap();
    assert_eq!(y, [b(17.0)]);
}

#[test]
fn tiled_and_plain_weights_agree() {
    let x = [f16(1.0), f16(-2.0), f16(0.25), f16(4.0)];
    let w = f16_bytes(&[1.0, 2.0, 3.0, 4.0, -1.0, -2.0, -3.0, -4.0]);
    let xv = TensorView::from_f16_slice(&[1, 4], &x);
    let mut plain = [0u32; 2];
    let mut tiled = [0u32; 2];
    let wv = TensorView::from_bytes(&[2, 4], DType::F16, &w);
    matmul(
        &arith, &format, &op(Epilogue::Plain), &xv, &wv, None, None,
        &mut TensorViewMut::from_f32_slice(&[1, 2], &mut plain),
    )
    .unwrap();
    let wv = TensorView::from_bytes(&[2, 4], DType::F16, &w).with_layout(LayoutId::L1);
    matmul(
        &arith, &format, &op(Epilogue::Plain), &xv, &wv, None, None,
        &mut TensorViewMut::from_f32_slice(&[1, 2], &mut tiled),
    )
    .unwrap();
    assert_eq!(plain, tiled);
    assert_eq!(plain, [b(13.75), b(-13.75)]);
}

#[test]
fn rows_do_not_depend_on_the_batch() {
    let row = [f16(0.3), f16(-1.7)];
    let batch = [f16(9.0), f16(9.0), row[0], row[1], f16(-5.0), f16(1.0)];
    let w = f16_bytes(&[0.1, 0.7, -0.2, 0.4]);
    let wv = TensorView::from_bytes(&[2, 2], DType::F16, &w);
    let mut alone = [0u32; 2];
    let mut embedded = [0u32; 6];
    matmul(
        &arith, &format, &op(Epilogue::Plain), &TensorView::from_f16_slice(&[1, 2], &row), &wv,
        None, None, &mut TensorViewMut::from_f32_slice(&[1, 2], &mut alone),
    )
    .unwrap();
    matmul(
        &arith, &format, &op(Epilogue::Plain), &TensorView::from_f16_slice(&[3, 2], &batch), &wv,
        None, None, &mut TensorViewMut::from_f32_slice(&[3, 2], &mut embedded),
    )
    .unwrap();
    assert_eq!(alone[..], embedded[2..4]);
}

#[test]
fn product_collects_problems() {
    let x = [0u32; 2];
    let w = [0u8; 4];
    let mut y = [5u32; 1];
    let xv = TensorView::from_f32_slice(&[1, 2], &x);
    let wv = TensorView::from_bytes(&[1, 2], DType::F16, &w);
    let mut yv = TensorViewMut::from_f32_slice(&[1, 1], &mut y);
    let e = matmul(&arith, &format, &op(Epilogue::Bias), &xv, &wv, None, None, &mut yv);
    assert!(matches!(e, Err(T0Error::Multiple { .. })));
    assert_eq!(y, [5]);
}

#[test]
fn product_refuses_unequal_widths() {
    let x = [0u16; 3];
    let w = [0u8; 4];
    let mut y = [5u32; 1];
    let xv = TensorView::from_f16_slice(&[1, 3], &x);
    let wv = TensorView::from_bytes(&[1, 2], DType::F16, &w);
    let mut yv = TensorViewMut::from_f32_slice(&[1, 1], &mut y);
    let e = matmul(&arith, &format, &op(Epilogue::Plain), &xv, &wv, None, None, &mut yv);
    assert!(matches!(
        e,
        Err(T0Error::DimensionMismatch { dim_name: "K", expected: 3, tensor: "w", got: 2, .. })
    ));
}

#[test]
fn product_reports_a_bad_scale_record() {
    let x = [1i8];
    let xs = [b(1.0)];
    let mut w = vec![5u8];
    w.extend_from_slice(&0x7C00u16.to_le_bytes());
    let xv = TensorView::from_i8_slice(&[1, 1], &x).with_quant(QuantScheme::PerToken);
    let sv = TensorView::from_f32_slice(&[1], &xs);
    let wv = TensorView::from_bytes(&[1, 1], DType::I8, &w)
        .with_quant(QuantScheme::Scheme(SchemeId::I8R));
    let mut y = [9u32; 1];
    let mut yv = TensorViewMut::from_f32_slice(&[1, 1], &mut y);
    let e = matmul_with_scales(
        &arith, &format, &op(Epilogue::Plain), &xv, Some(&sv), &wv, None, None, None, &mut yv,
    );
    assert!(matches!(e, Err(T0Error::Format(FormatError::Record { .. }))));
    assert_eq!(y, [9]);
}

#[test]
fn embeddings_are_scaled_rows() {
    let ids = [1u32, 0];
    let table = f16_bytes(&[1.0, 2.0, 3.0, 4.0]);
    let iv = TensorView::from_u32_slice(&[2], &ids);
    let tv = TensorView::from_bytes(&[2, 2], DType::F16, &table);
    let mut x = [0u32; 4];
    let mut xv = TensorViewMut::from_f32_slice(&[2, 2], &mut x);
    let o = EmbedGatherOp { out_dtype: DType::F32, scale: b(2.0) };
    embed_gather(&arith, &format, &o, &iv, &tv, &mut xv).unwrap();
    assert_eq!(x, [b(6.0), b(8.0), b(2.0), b(4.0)]);
}

#[test]
fn quantized_embeddings() {
    let ids = [0u32];
    let mut table = vec![3u8, 0xFE];
    table.extend_from_slice(&f16(0.5).to_le_bytes());
    let iv = TensorView::from_u32_slice(&[1], &ids);
    let tv = TensorView::from_bytes(&[1, 2], DType::I8, &table)
        .with_quant(QuantScheme::Scheme(SchemeId::I8R));
    let mut x = [0u32; 2];
    let mut xv = TensorViewMut::from_f32_slice(&[1, 2], &mut x);
    let o = EmbedGatherOp { out_dtype: DType::F32, scale: b(1.0) };
    embed_gather_with_scales(&arith, &format, &o, &iv, &tv, None, &mut xv).unwrap();
    assert_eq!(x, [b(1.5), b(-1.0)]);
}

#[test]
fn embeddings_refuse_unknown_tokens() {
    let ids = [2u32];
    let table = f16_bytes(&[1.0, 2.0]);
    let iv = TensorView::from_u32_slice(&[1], &ids);
    let tv = TensorView::from_bytes(&[1, 2], DType::F16, &table);
    let mut x = [3u32; 2];
    let mut xv = TensorViewMut::from_f32_slice(&[1, 2], &mut x);
    let o = EmbedGatherOp { out_dtype: DType::F32, scale: b(1.0) };
    assert!(embed_gather(&arith, &format, &o, &iv, &tv, &mut xv).is_err());
    assert_eq!(x, [3, 3]);
}

#[test]
fn experts_are_weighted_and_summed() {
    // Two experts of width one: the joint projection holds one gating and one
    // linear row each, the identity activation multiplies them.
    let x = [f16(2.0)];
    let ids = [1u32, 0];
    let weights = [b(0.25), b(0.75)];
    let gate_up = f16_bytes(&[1.0, 3.0, 2.0, 5.0]);
    let down = f16_bytes(&[10.0, 100.0]);
    let xv = TensorView::from_f16_slice(&[1, 1], &x);
    let iv = TensorView::from_u32_slice(&[1, 2], &ids);
    let wv = TensorView::from_f32_slice(&[1, 2], &weights);
    let gv = TensorView::from_bytes(&[2, 2, 1], DType::F16, &gate_up);
    let dv = TensorView::from_bytes(&[2, 1, 1], DType::F16, &down);
    let mut y = [0u32; 1];
    let mut yv = TensorViewMut::from_f32_slice(&[1, 1], &mut y);
    let o = MoeFfnOp { act: ActivationKind::Identity, out_dtype: DType::F32, shared_experts: 0 };
    let r = moe_ffn(
        &arith, &format, &o, &xv, &iv, &wv, &gv, None, &dv, None, None, &mut yv,
    );
    match r {
        Ok(()) => {
            // Expert 0: (2 * 1) * (2 * 3) * 10 * 0.75; expert 1: (2 * 2) * (2 * 5) * 100 * 0.25.
            assert_eq!(f32::from_bits(y[0]), 90.0 + 1000.0);
        }
        Err(e) => panic!("{:?}", e),
    }
}

#[test]
fn experts_refuse_an_unknown_expert() {
    let x = [f16(2.0)];
    let ids = [7u32];
    let weights = [b(1.0)];
    let gate_up = f16_bytes(&[1.0, 3.0]);
    let down = f16_bytes(&[10.0]);
    let xv = TensorView::from_f16_slice(&[1, 1], &x);
    let iv = TensorView::from_u32_slice(&[1, 1], &ids);
    let wv = TensorView::from_f32_slice(&[1, 1], &weights);
    let gv = TensorView::from_bytes(&[1, 2, 1], DType::F16, &gate_up);
    let dv = TensorView::from_bytes(&[1, 1, 1], DType::F16, &down);
    let mut y = [4u32; 1];
    let mut yv = TensorViewMut::from_f32_slice(&[1, 1], &mut y);
    let o = MoeFfnOp { act: ActivationKind::Silu, out_dtype: DType::F32, shared_experts: 0 };
    let r = moe_ffn(
        &arith, &format, &o, &xv, &iv, &wv, &gv, None, &dv, None, None, &mut yv,
    );
    assert!(r.is_err());
    assert_eq!(y, [4]);
}

#[test]
fn tokens_do_not_depend_on_the_batch() {
    let gate_up = f16_bytes(&[1.0, 3.0, 2.0, 5.0]);
    let down = f16_bytes(&[10.0, 100.0]);
    let run = |x: &[u16], ids: &[u32], weights: &[u32]| {
        let t = x.len();
        let mut y = vec![0u32; t];
        let xv = TensorView::from_f16_slice(&[t, 1], x);
        let iv = TensorView::from_u32_slice(&[t, 2], ids);
        let wv = TensorView::from_f32_slice(&[t, 2], weights);
        let gv = TensorView::from_bytes(&[2, 2, 1], DType::F16, &gate_up);
        let dv = TensorView::from_bytes(&[2, 1, 1], DType::F16, &down);
        let o = MoeFfnOp { act: ActivationKind::Silu, out_dtype: DType::F32, shared_experts: 0 };
        let mut yv = TensorViewMut::from_f32_slice(&[t, 1], &mut y);
        moe_ffn(&arith, &format, &o, &xv, &iv, &wv, &gv, None, &dv, None, None, &mut yv).unwrap();
        y
    };
    let alone = run(&[f16(0.7)], &[1, 0], &[b(0.3), b(0.7)]);
    let embedded = run(
        &[f16(-2.0), f16(0.7), f16(4.0)],
        &[1, 1, 1, 0, 0, 0],
        &[b(1.0), b(1.0), b(0.3), b(0.7), b(0.5), b(0.5)],
    );
    assert_eq!(alone[0], embedded[1]);
}

#[test]
fn tiled_and_plain_tables_agree() {
    let ids = [1u32, 0, 1];
    let table = f16_bytes(&[1.0, 2.0, 3.0, 4.0]);
    let iv = TensorView::from_u32_slice(&[3], &ids);
    let o = EmbedGatherOp { out_dtype: DType::F32, scale: b(3.0) };
    let mut plain = [0u32; 6];
    let mut tiled = [0u32; 6];
    let tv = TensorView::from_bytes(&[2, 2], DType::F16, &table);
    let mut xv = TensorViewMut::from_f32_slice(&[3, 2], &mut plain);
    embed_gather(&arith, &format, &o, &iv, &tv, &mut xv).unwrap();
    let tv = TensorView::from_bytes(&[2, 2], DType::F16, &table).with_layout(LayoutId::L1);
    let mut xv = TensorViewMut::from_f32_slice(&[3, 2], &mut tiled);
    embed_gather(&arith, &format, &o, &iv, &tv, &mut xv).unwrap();
    assert_eq!(plain, tiled);
    assert_eq!(plain[..2], plain[4..]);
}

#[test]
fn experts_need_a_row_of_ids_per_token() {
    let x = [f16(2.0)];
    let ids = [0u32, 0];
    let weights = [b(1.0)];
    let gate_up = f16_bytes(&[1.0, 3.0]);
    let down = f16_bytes(&[10.0]);
    let xv = TensorView::from_f16_slice(&[1, 1], &x);
    let iv = TensorView::from_u32_slice(&[2, 1], &ids);
    let wv = TensorView::from_f32_slice(&[1, 1], &weights);
    let gv = TensorView::from_bytes(&[1, 2, 1], DType::F16, &gate_up);
    let dv = TensorView::from_bytes(&[1, 1, 1], DType::F16, &down);
    let mut y = [4u32; 1];
    let mut yv = TensorViewMut::from_f32_slice(&[1, 1], &mut y);
    let o = MoeFfnOp { act: ActivationKind::Silu, out_dtype: DType::F32, shared_experts: 0 };
    let r = moe_ffn(
        &arith, &format, &o, &xv, &iv, &wv, &gv, None, &dv, None, None, &mut yv,
    );
    assert!(matches!(
        r,
        Err(T0Error::DimensionMismatch {
            dim_name: "T",
            expected_from: "x",
            expected: 1,
            tensor: "expert_ids",
            got: 2,
        })
    ));
    assert_eq!(y, [4]);
}

#[test]
fn the_order_of_routes_does_not_matter() {
    let gate_up = f16_bytes(&[1.0, 3.0, 2.0, 5.0, -1.0, 0.3]);
    let down = f16_bytes(&[10.0, 0.1, 0.7]);
    let run = |ids: &[u32], weights: &[u32]| {
        let x = [f16(0.7), f16(-1.3)];
        let mut y = vec![0u32; 2];
        let xv = TensorView::from_f16_slice(&[2, 1], &x);
        let iv = TensorView::from_u32_slice(&[2, 3], ids);
        let wv = TensorView::from_f32_slice(&[2, 3], weights);
        let gv = TensorView::from_bytes(&[3, 2, 1], DType::F16, &gate_up);
        let dv = TensorView::from_bytes(&[3, 1, 1], DType::F16, &down);
        let o = MoeFfnOp { act: ActivationKind::Silu, out_dtype: DType::F32, shared_experts: 0 };
        let mut yv = TensorViewMut::from_f32_slice(&[2, 1], &mut y);
        moe_ffn(&arith, &format, &o, &xv, &iv, &wv, &gv, None, &dv, None, None, &mut yv).unwrap();
        y
    };
    let (p, q, r) = (b(0.1), b(0.2), b(0.7));
    assert_eq!(run(&[0, 1, 2, 0, 1, 2], &[p, q, r, r, q, p]), run(&[2, 0, 1, 1, 2, 0], &[r, p, q, q, p, r]));
}

#[test]
fn scales_behind_rows_or_apart_agree() {
    let x = [3i8, -2];
    let xs = [b(0.5)];
    let xv = TensorView::from_i8_slice(&[1, 2], &x).with_quant(QuantScheme::PerToken);
    let sv = TensorView::from_f32_slice(&[1], &xs);
    let scheme = QuantScheme::Scheme(SchemeId::I8R);
    let (s0, s1) = (f16(2.0).to_le_bytes(), f16(0.3).to_le_bytes());
    let joint = [5u8, 0xFF, s0[0], s0[1], 7, 9, s1[0], s1[1]];
    let values = [5u8, 0xFF, 7, 9];
    let records = [s0[0], s0[1], s1[0], s1[1]];
    let mut behind = [0u32; 2];
    let mut apart = [0u32; 2];
    let wv = TensorView::from_bytes(&[2, 2], DType::I8, &joint).with_quant(scheme);
    matmul_with_scales(
        &arith, &format, &op(Epilogue::Plain), &xv, Some(&sv), &wv, None, None, None,
        &mut TensorViewMut::from_f32_slice(&[1, 2], &mut behind),
    )
    .unwrap();
    let wv = TensorView::from_bytes(&[2, 2], DType::I8, &values).with_quant(scheme);
    let rv = TensorView::from_bytes(&[2], DType::F16, &records);
    let r = matmul_with_scales(
        &arith, &format, &op(Epilogue::Plain), &xv, Some(&sv), &wv, Some(&rv), None, None,
        &mut TensorViewMut::from_f32_slice(&[1, 2], &mut apart),
    );
    if let Err(e) = r {
        panic!("{:?}", e);
    }
    assert_eq!(behind, apart);
    assert_eq!(behind[0], b(17.0));
}
