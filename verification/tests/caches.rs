//! Caches of keys and values, and attention over them.
use r9v_t0::arith::FloatOp;
use r9v_t0::attention::{attention, attention_mla, attention_paged, AttentionMask, AttentionOp, MlaSpec};
use r9v_t0::batch::{BatchMeta, TreeMask, BLOCK_TABLE_SENTINEL, SLOT_NONE};
use r9v_t0::buffer::{TensorView, TensorViewMut};
use r9v_t0::error::{FormatError, T0Error};
use r9v_t0::ir::{DType, StateHandle, StateKind};
use r9v_t0::kv_cache::{
    checked_addr, checked_store, KvCache, KvLatentCache, KvPagedCache,
};
use r9v_t0::kv_latent::{state_write_kv, state_write_kv_latent};
use r9v_t0::kv_rows::{quant_row_i8, RowPlace};
use r9v_t0::kv_write::{
    state_write_kv_paged, CacheScaleGranularity, LatentSpec, StateWriteKvOp,
};
use r9v_t0::visibility::{is_retained, plan_queries, slot_for_position};
use r9v_t0::weight::FormatQuery;

fn b(v: f32) -> u32 {
    v.to_bits()
}

fn arith(op: FloatOp, x: u32, y: u32) -> u32 {
    let (x, y) = (f32::from_bits(x), f32::from_bits(y));
    let r = match op {
        FloatOp::Plus => x + y,
        FloatOp::Minus => x - y,
        FloatOp::Times => x * y,
        FloatOp::Over => x / y,
        FloatOp::Exp => x.exp(),
        FloatOp::Tanh => x.tanh(),
        FloatOp::Max => x.max(y),
    };
    r.to_bits()
}

fn format(q: FormatQuery) -> Result<u64, FormatError> {
    match q {
        FormatQuery::E4m3Code { value } => Ok(r9v_t0::dtype::fp8_e4m3_encode(value) as u64),
        _ => Err(FormatError::Overflow),
    }
}

fn refuse(_q: FormatQuery) -> Result<u64, FormatError> {
    Err(FormatError::Overflow)
}

fn meta(ctx: &[u32], query: &[u32], slots: &[u32], blocks: &[u32]) -> BatchMeta {
    let s = ctx.len();
    BatchMeta {
        num_groups: 1,
        total_tokens: slots.len(),
        max_blocks: (blocks.len() / s) as u32,
        ctx_len: ctx.to_vec(),
        query_len: query.to_vec(),
        slot_map: slots.to_vec(),
        block_table: blocks.to_vec(),
        window_start: vec![0; s],
        tree: None,
    }
}

fn write_op(dtype: DType) -> StateWriteKvOp {
    StateWriteKvOp {
        handle: StateHandle { layer: 0, kind: StateKind::KvPaged },
        cache_dtype: dtype,
        scale_granularity: CacheScaleGranularity::PerTokenHead,
        latent: None,
    }
}

fn latent_op(dtype: DType) -> StateWriteKvOp {
    StateWriteKvOp {
        handle: StateHandle { layer: 0, kind: StateKind::KvLatent },
        cache_dtype: dtype,
        scale_granularity: CacheScaleGranularity::PerTokenHead,
        latent: Some(LatentSpec { kv_lora_rank: 2, rope_dim: 1 }),
    }
}

fn attn_op() -> AttentionOp {
    AttentionOp {
        handle: StateHandle { layer: 0, kind: StateKind::KvPaged },
        out_dtype: DType::F32,
        softmax_scale: b(1.0),
        mask: AttentionMask::Causal,
        logit_softcap: None,
        sinks: 0,
        mla: None,
    }
}

fn bits(values: &[f32]) -> Vec<u32> {
    values.iter().map(|&v| b(v)).collect()
}

#[test]
fn new_caches_are_empty_and_checked() {
    let c = KvPagedCache::new(2, 1, 3, 4, DType::F16).unwrap();
    assert_eq!((c.num_blocks(), c.hkv(), c.d(), c.dv(), c.num_slots()), (2, 1, 3, 4, 64));
    assert_eq!(c.dtype(), DType::F16);
    assert!(!c.is_written(0) && !c.is_written(64));
    assert_eq!(c.read_k_f32(&arith, 63, 0, 2).unwrap(), 0);
    assert!(matches!(
        c.read_k_f32(&arith, 64, 0, 0),
        Err(T0Error::RowIndexOutOfRange { tensor: "cache", position: 64, upper_bound: 64, .. })
    ));
    assert!(c.read_v_f32(&arith, 63, 0, 4).is_err());
    match KvPagedCache::new(0, 0, 1, 1, DType::F32) {
        Err(T0Error::Multiple { problems }) => assert_eq!(problems.len(), 3),
        _ => panic!("expected three problems"),
    }
    assert!(matches!(
        KvPagedCache::new(usize::MAX, 1, 1, 1, DType::F16),
        Err(T0Error::ArithmeticOverflow { op: "attention", .. })
    ));
    let l = KvLatentCache::new(1, 2, 1, DType::I8).unwrap();
    assert_eq!((l.num_blocks(), l.latent(), l.rope(), l.num_slots()), (1, 2, 1, 32));
    assert_eq!(l.read_latent_f32(&arith, 0, 0).unwrap(), 0);
    assert_eq!(l.read_rope_f32(31, 0).unwrap(), 0);
    assert!(l.read_rope_f32(31, 1).is_err());
}

#[test]
fn addresses_and_stores_are_checked() {
    assert_eq!(checked_addr(3, 4, 5, "x").unwrap(), 17);
    assert!(checked_addr(usize::MAX, 2, 0, "x").is_err());
    assert!(checked_addr(usize::MAX, 1, 1, "x").is_err());
    let mut s = [1u8, 2];
    checked_store(&mut s, 1, 9, "x").unwrap();
    assert_eq!(s, [1, 9]);
    assert!(matches!(
        checked_store(&mut s, 2, 7, "x"),
        Err(T0Error::BufferLengthMismatch { tensor: "x", buffer_len: 2, expected_len: 3, .. })
    ));
    assert_eq!(s, [1, 9]);
}

#[test]
fn half_precision_rows_are_read_back() {
    let mut c = KvPagedCache::new(1, 1, 2, 1, DType::F16).unwrap();
    let k = bits(&[1.5, -2.0, 0.1, 4.0]);
    let v = bits(&[7.0, 8.0]);
    let kv = TensorView::from_f32_slice(&[2, 1, 2], &k);
    let vv = TensorView::from_f32_slice(&[2, 1, 1], &v);
    let m = meta(&[0], &[2], &[5, SLOT_NONE], &[0]);
    state_write_kv_paged(&arith, &format, &write_op(DType::F16), &kv, &vv, &m, 0, &mut c).unwrap();
    assert!(c.is_written(5) && !c.is_written(0) && !c.is_written(6));
    assert_eq!(c.read_k_f32(&arith, 5, 0, 0).unwrap(), b(1.5));
    assert_eq!(c.read_k_f32(&arith, 5, 0, 1).unwrap(), b(-2.0));
    assert_eq!(c.read_v_f32(&arith, 5, 0, 0).unwrap(), b(7.0));
    assert_eq!(c.read_k_f32(&arith, 6, 0, 0).unwrap(), 0);
}

#[test]
fn the_last_write_to_a_slot_stays() {
    let mut c = KvPagedCache::new(1, 1, 1, 1, DType::F16).unwrap();
    let k = bits(&[1.0, 2.0]);
    let kv = TensorView::from_f32_slice(&[2, 1, 1], &k);
    let m = meta(&[0], &[2], &[3, 3], &[0]);
    state_write_kv_paged(&arith, &format, &write_op(DType::F16), &kv, &kv, &m, 0, &mut c).unwrap();
    assert_eq!(c.read_k_f32(&arith, 3, 0, 0).unwrap(), b(2.0));
}

#[test]
fn byte_rows_have_a_scale() {
    let (q, s) = quant_row_i8(&arith, &bits(&[127.0, -63.5, 0.0]));
    assert_eq!(q, vec![127, -64, 0]);
    assert_eq!(s, b(1.0));
    let (q, s) = quant_row_i8(&arith, &bits(&[0.0, -0.0]));
    assert_eq!((q, s), (vec![0, 0], 0));
    let mut c = KvPagedCache::new(1, 2, 2, 1, DType::I8).unwrap();
    let k = bits(&[127.0, -63.5, 0.0, 0.0]);
    let v = bits(&[254.0, 1.0]);
    let kv = TensorView::from_f32_slice(&[1, 2, 2], &k);
    let vv = TensorView::from_f32_slice(&[1, 2, 1], &v);
    let m = meta(&[0], &[1], &[0], &[0]);
    state_write_kv_paged(&arith, &format, &write_op(DType::I8), &kv, &vv, &m, 0, &mut c).unwrap();
    assert_eq!(c.read_k_f32(&arith, 0, 0, 0).unwrap(), b(127.0));
    assert_eq!(c.read_k_f32(&arith, 0, 0, 1).unwrap(), b(-64.0));
    assert_eq!(c.read_k_f32(&arith, 0, 1, 0).unwrap(), 0);
    assert_eq!(c.read_v_f32(&arith, 0, 0, 0).unwrap(), b(254.0));
}

#[test]
fn e4m3_rows_have_a_scale() {
    let mut c = KvPagedCache::new(1, 1, 2, 1, DType::E4m3).unwrap();
    let k = bits(&[448.0, 224.0]);
    let v = bits(&[896.0]);
    let kv = TensorView::from_f32_slice(&[1, 1, 2], &k);
    let vv = TensorView::from_f32_slice(&[1, 1, 1], &v);
    let m = meta(&[0], &[1], &[0], &[0]);
    state_write_kv_paged(&arith, &format, &write_op(DType::E4m3), &kv, &vv, &m, 0, &mut c).unwrap();
    assert_eq!(c.read_k_f32(&arith, 0, 0, 1).unwrap(), b(224.0));
    assert_eq!(c.read_v_f32(&arith, 0, 0, 0).unwrap(), b(896.0));
}

#[test]
fn a_failed_encoding_leaves_the_cache_alone() {
    let mut c = KvPagedCache::new(1, 1, 1, 1, DType::E4m3).unwrap();
    let k = bits(&[0.0, 2.0]);
    let kv = TensorView::from_f32_slice(&[2, 1, 1], &k);
    let m = meta(&[0], &[2], &[0, 1], &[0]);
    let r = state_write_kv_paged(
        &arith, &refuse, &write_op(DType::E4m3), &kv, &kv, &m, 0, &mut c,
    );
    assert!(matches!(r, Err(T0Error::InvalidAttribute { attribute: "k/v", .. })));
    assert!(!c.is_written(0) && !c.is_written(1));
}

#[test]
fn infinities_have_no_byte_code() {
    let mut c = KvPagedCache::new(1, 1, 1, 1, DType::I8).unwrap();
    let k = bits(&[f32::INFINITY]);
    let v = bits(&[f32::NAN]);
    let kv = TensorView::from_f32_slice(&[1, 1, 1], &k);
    let vv = TensorView::from_f32_slice(&[1, 1, 1], &v);
    let m = meta(&[0], &[1], &[0], &[0]);
    let r = state_write_kv_paged(&arith, &format, &write_op(DType::I8), &kv, &vv, &m, 0, &mut c);
    match r {
        Err(T0Error::InvalidAttribute { attribute, reason, .. }) => {
            assert_eq!(attribute, "k/v");
            assert_eq!(reason.args.len(), 4);
        }
        _ => panic!("expected a refusal"),
    }
    let mut c = KvPagedCache::new(1, 1, 1, 1, DType::F16).unwrap();
    state_write_kv_paged(&arith, &format, &write_op(DType::F16), &kv, &vv, &m, 0, &mut c).unwrap();
    assert_eq!(c.read_k_f32(&arith, 0, 0, 0).unwrap(), b(f32::INFINITY));
}

#[test]
fn writes_collect_problems() {
    let mut c = KvPagedCache::new(1, 1, 2, 1, DType::F16).unwrap();
    let k = bits(&[1.0]);
    let kv = TensorView::from_f32_slice(&[1, 1, 1], &k);
    let m = meta(&[0], &[1], &[99], &[0]);
    let mut op = write_op(DType::F32);
    op.scale_granularity = CacheScaleGranularity::PerBlock;
    op.latent = Some(LatentSpec { kv_lora_rank: 1, rope_dim: 1 });
    let r = state_write_kv_paged(&arith, &format, &op, &kv, &kv, &m, 0, &mut c);
    match r {
        Err(T0Error::Multiple { problems }) => {
            assert_eq!(problems.len(), 5);
            assert!(matches!(
                problems[4],
                T0Error::RowIndexOutOfRange { tensor: "slot_map", index: 99, upper_bound: 32, .. }
            ));
        }
        _ => panic!("expected problems"),
    }
    assert!((0..32).all(|s| !c.is_written(s)));
}

#[test]
fn a_cache_of_another_type_has_no_room() {
    let mut c = KvPagedCache::new(1, 1, 1, 1, DType::I8).unwrap();
    let k = bits(&[1.0]);
    let kv = TensorView::from_f32_slice(&[1, 1, 1], &k);
    let m = meta(&[0], &[1], &[4], &[0]);
    let r = state_write_kv_paged(&arith, &format, &write_op(DType::F16), &kv, &kv, &m, 0, &mut c);
    assert!(matches!(
        r,
        Err(T0Error::BufferLengthMismatch {
            tensor: "cache.k",
            buffer_len: 0,
            expected_len: 5,
            ..
        })
    ));
    assert!(!c.is_written(4));
}

#[test]
fn compressed_rows_split_or_combined() {
    let m = meta(&[0], &[1], &[1], &[0]);
    let c_kv = bits(&[1.0, 2.0]);
    let rope = bits(&[3.0]);
    let both = bits(&[1.0, 2.0, 3.0]);
    let mut split = KvLatentCache::new(1, 2, 1, DType::F16).unwrap();
    let cv = TensorView::from_f32_slice(&[1, 1, 2], &c_kv);
    let rv = TensorView::from_f32_slice(&[1, 1, 1], &rope);
    state_write_kv_latent(&arith, &format, &latent_op(DType::F16), &cv, &rv, &m, 0, &mut split)
        .unwrap();
    let mut combined = KvLatentCache::new(1, 2, 1, DType::F16).unwrap();
    let bv = TensorView::from_f32_slice(&[1, 1, 3], &both);
    let other = bits(&[9.0]);
    let ov = TensorView::from_f32_slice(&[1, 1, 1], &other);
    state_write_kv_latent(&arith, &format, &latent_op(DType::F16), &bv, &ov, &m, 0, &mut combined)
        .unwrap();
    for c in [&split, &combined] {
        assert_eq!(c.read_latent_f32(&arith, 1, 0).unwrap(), b(1.0));
        assert_eq!(c.read_latent_f32(&arith, 1, 1).unwrap(), b(2.0));
        assert_eq!(c.read_rope_f32(1, 0).unwrap(), b(3.0));
        assert!(c.is_written(1) && !c.is_written(0));
    }
}

#[test]
fn compressed_writes_need_their_widths() {
    let m = meta(&[0], &[1], &[1], &[0]);
    let c_kv = bits(&[1.0, 2.0]);
    let cv = TensorView::from_f32_slice(&[1, 1, 2], &c_kv);
    let mut c = KvLatentCache::new(1, 2, 1, DType::F16).unwrap();
    let mut op = latent_op(DType::F16);
    op.latent = None;
    let r = state_write_kv_latent(&arith, &format, &op, &cv, &cv, &m, 0, &mut c);
    assert!(matches!(r, Err(T0Error::InvalidAttribute { attribute: "latent", .. })));
    let r = state_write_kv_latent(
        &arith, &format, &latent_op(DType::F16), &cv, &cv, &m, 0, &mut c,
    );
    assert!(matches!(r, Err(T0Error::InvalidAttribute { attribute: "k/v", .. })));
}

#[test]
fn writes_go_by_the_handle() {
    let m = meta(&[0], &[1], &[0], &[0]);
    let k = bits(&[1.0]);
    let kv = TensorView::from_f32_slice(&[1, 1, 1], &k);
    let mut c = KvCache::Paged(KvPagedCache::new(1, 1, 1, 1, DType::F16).unwrap());
    state_write_kv(&arith, &format, &write_op(DType::F16), &kv, &kv, &m, 0, &mut c).unwrap();
    let r = state_write_kv(&arith, &format, &latent_op(DType::F16), &kv, &kv, &m, 0, &mut c);
    assert!(matches!(r, Err(T0Error::InvalidAttribute { attribute: "handle", .. })));
}

#[test]
fn retention_is_prefix_or_window() {
    assert!(is_retained(2, 10, 1));
    assert!(!is_retained(2, 10, 2));
    assert!(!is_retained(2, 10, 9));
    assert!(is_retained(2, 10, 10));
}

#[test]
fn queries_are_listed_in_order() {
    let m = meta(&[3, 0], &[2, 1], &[0, 0, 0], &[0, 0]);
    let q = plan_queries(&m).unwrap();
    assert_eq!(q.len(), 3);
    assert_eq!((q[1].seq, q[1].abs_pos, q[1].ctx, q[1].qlen), (0, 4, 3, 2));
    assert_eq!((q[2].seq, q[2].abs_pos), (1, 0));
    let m = meta(&[3, 0], &[2, 2], &[0, 0, 0], &[0, 0]);
    assert!(matches!(
        plan_queries(&m),
        Err(T0Error::InvalidAttribute { attribute: "query_len", .. })
    ));
}

#[test]
fn positions_lead_to_slots() {
    let m = meta(&[40], &[1], &[0], &[3, BLOCK_TABLE_SENTINEL]);
    assert_eq!(slot_for_position(&m, 0, 0, 5, 1000).unwrap(), Some(101));
    assert_eq!(slot_for_position(&m, 0, 0, 33, 1000).unwrap(), None);
    assert!(slot_for_position(&m, 0, 0, 64, 1000).is_err());
    assert!(slot_for_position(&m, 0, 0, 5, 101).is_err());
}

fn filled() -> KvPagedCache {
    let mut c = KvPagedCache::new(1, 1, 1, 2, DType::F16).unwrap();
    let k = bits(&[0.0, 1.0, 2.0]);
    let v = bits(&[1.0, 10.0, 2.0, 20.0, 4.0, 40.0]);
    let kv = TensorView::from_f32_slice(&[3, 1, 1], &k);
    let vv = TensorView::from_f32_slice(&[3, 1, 2], &v);
    let m = meta(&[0], &[3], &[0, 1, 2], &[0]);
    state_write_kv_paged(&arith, &format, &write_op(DType::F16), &kv, &vv, &m, 0, &mut c).unwrap();
    c
}

#[test]
fn attention_weighs_what_is_seen() {
    let c = filled();
    let q = bits(&[0.0, 0.0, 0.0]);
    let qv = TensorView::from_f32_slice(&[3, 1, 1], &q);
    let m = meta(&[0], &[3], &[0, 1, 2], &[0]);
    let mut o = [0u32; 6];
    let mut ov = TensorViewMut::from_f32_slice(&[3, 1, 2], &mut o);
    attention_paged(&arith, &attn_op(), &qv, &m, 0, &c, &mut ov).unwrap();
    assert_eq!(o[..4], bits(&[1.0, 10.0, 1.5, 15.0])[..]);
    assert!((f32::from_bits(o[4]) - 7.0 / 3.0).abs() < 1e-6);
    let q = bits(&[1.0]);
    let qv = TensorView::from_f32_slice(&[1, 1, 1], &q);
    let m = meta(&[2], &[1], &[2], &[0]);
    let mut o = [0u32; 2];
    let mut ov = TensorViewMut::from_f32_slice(&[1, 1, 2], &mut o);
    attention_paged(&arith, &attn_op(), &qv, &m, 0, &c, &mut ov).unwrap();
    let (e1, e2) = (1f64.exp(), 2f64.exp());
    let want = (1.0 + 2.0 * e1 + 4.0 * e2) / (1.0 + e1 + e2);
    assert!((f32::from_bits(o[0]) as f64 - want).abs() < 1e-5);
}

#[test]
fn decoding_and_chunks_agree() {
    let c = filled();
    let q = bits(&[0.3, -0.7, 1.1]);
    let qv = TensorView::from_f32_slice(&[3, 1, 1], &q);
    let mut whole = [0u32; 6];
    let m = meta(&[0], &[3], &[0, 1, 2], &[0]);
    attention_paged(
        &arith, &attn_op(), &qv, &m, 0, &c,
        &mut TensorViewMut::from_f32_slice(&[3, 1, 2], &mut whole),
    )
    .unwrap();
    let last = bits(&[1.1]);
    let qv = TensorView::from_f32_slice(&[1, 1, 1], &last);
    let mut one = [0u32; 2];
    let m = meta(&[2], &[1], &[2], &[0]);
    attention_paged(
        &arith, &attn_op(), &qv, &m, 0, &c,
        &mut TensorViewMut::from_f32_slice(&[1, 1, 2], &mut one),
    )
    .unwrap();
    assert_eq!(whole[4..], one);
}

#[test]
fn windows_and_sinks_limit_what_is_seen() {
    let c = filled();
    let q = bits(&[0.0]);
    let qv = TensorView::from_f32_slice(&[1, 1, 1], &q);
    let mut m = meta(&[2], &[1], &[2], &[0]);
    m.window_start = vec![2];
    let mut op = attn_op();
    op.mask = AttentionMask::CausalWindow(1);
    let mut o = [0u32; 2];
    attention_paged(
        &arith, &op, &qv, &m, 0, &c, &mut TensorViewMut::from_f32_slice(&[1, 1, 2], &mut o),
    )
    .unwrap();
    assert_eq!(o[..], bits(&[4.0, 40.0])[..]);
    op.sinks = 1;
    attention_paged(
        &arith, &op, &qv, &m, 0, &c, &mut TensorViewMut::from_f32_slice(&[1, 1, 2], &mut o),
    )
    .unwrap();
    assert_eq!(o[..], bits(&[2.5, 25.0])[..]);
    op.mask = AttentionMask::CausalWindow(0);
    let r = attention_paged(
        &arith, &op, &qv, &m, 0, &c, &mut TensorViewMut::from_f32_slice(&[1, 1, 2], &mut o),
    );
    assert!(matches!(r, Err(T0Error::InvalidAttribute { attribute: "mask", .. })));
}

#[test]
fn trees_decide_among_query_tokens() {
    let c = filled();
    let q = bits(&[0.0, 0.0]);
    let qv = TensorView::from_f32_slice(&[2, 1, 1], &q);
    let mut m = meta(&[1], &[2], &[1, 2], &[0]);
    let mut op = attn_op();
    op.mask = AttentionMask::Tree;
    let mut o = [0u32; 4];
    let r = attention_paged(
        &arith, &op, &qv, &m, 0, &c, &mut TensorViewMut::from_f32_slice(&[2, 1, 2], &mut o),
    );
    assert!(matches!(r, Err(T0Error::MissingOperand { operand: "BatchMeta.tree", .. })));
    m.tree = Some(TreeMask { t_max: 2, ancestors: vec![true, false, false, true] });
    attention_paged(
        &arith, &op, &qv, &m, 0, &c, &mut TensorViewMut::from_f32_slice(&[2, 1, 2], &mut o),
    )
    .unwrap();
    assert_eq!(o[..], bits(&[1.5, 15.0, 2.5, 25.0])[..]);
}

#[test]
fn unwritten_slots_are_refused() {
    let c = filled();
    let q = bits(&[0.0]);
    let qv = TensorView::from_f32_slice(&[1, 1, 1], &q);
    let m = meta(&[3], &[1], &[3], &[0]);
    let mut o = [5u32; 2];
    let r = attention_paged(
        &arith, &attn_op(), &qv, &m, 0, &c,
        &mut TensorViewMut::from_f32_slice(&[1, 1, 2], &mut o),
    );
    assert!(matches!(r, Err(T0Error::InvalidAttribute { attribute: "cache", .. })));
    assert_eq!(o, [5, 5]);
}

#[test]
fn to_see_nothing_is_refused() {
    let c = filled();
    let q = bits(&[0.0]);
    let qv = TensorView::from_f32_slice(&[1, 1, 1], &q);
    let m = meta(&[2], &[1], &[2], &[BLOCK_TABLE_SENTINEL]);
    let mut o = [5u32; 2];
    let r = attention_paged(
        &arith, &attn_op(), &qv, &m, 0, &c,
        &mut TensorViewMut::from_f32_slice(&[1, 1, 2], &mut o),
    );
    assert!(matches!(r, Err(T0Error::InvalidDistribution { seq: 0, pos: 2, sum: 0, .. })));
}

#[test]
fn compressed_attention() {
    let mut c = KvLatentCache::new(1, 2, 1, DType::F16).unwrap();
    let c_kv = bits(&[1.0, 2.0, 3.0, 4.0]);
    let rope = bits(&[0.5, 0.25]);
    let cv = TensorView::from_f32_slice(&[2, 1, 2], &c_kv);
    let rv = TensorView::from_f32_slice(&[2, 1, 1], &rope);
    let m = meta(&[0], &[2], &[0, 1], &[0]);
    state_write_kv_latent(&arith, &format, &latent_op(DType::F16), &cv, &rv, &m, 0, &mut c)
        .unwrap();
    let mut op = attn_op();
    op.handle = StateHandle { layer: 0, kind: StateKind::KvLatent };
    op.mla = Some(MlaSpec { qk_nope_dim: 2, qk_rope_dim: 1, v_dim: 2, kv_lora_rank: 2 });
    let q = bits(&[0.0, 0.0, 0.0]);
    let qv = TensorView::from_f32_slice(&[1, 1, 3], &q);
    let m = meta(&[1], &[1], &[1], &[0]);
    let mut o = [0u32; 2];
    attention_mla(
        &arith, &op, &qv, &m, 0, &c, &mut TensorViewMut::from_f32_slice(&[1, 1, 2], &mut o),
    )
    .unwrap();
    assert_eq!(o[..], bits(&[2.0, 3.0])[..]);
    let cache = KvCache::Latent(c);
    let mut again = [0u32; 2];
    attention(
        &arith, &op, &qv, &m, 0, &cache,
        &mut TensorViewMut::from_f32_slice(&[1, 1, 2], &mut again),
    )
    .unwrap();
    assert_eq!(o, again);
    op.mla = None;
    let r = attention(
        &arith, &op, &qv, &m, 0, &cache,
        &mut TensorViewMut::from_f32_slice(&[1, 1, 2], &mut again),
    );
    assert!(matches!(r, Err(T0Error::InvalidAttribute { attribute: "handle", .. })));
}

#[test]
fn query_heads_share_cached_heads() {
    let mut c = KvPagedCache::new(1, 2, 1, 1, DType::F16).unwrap();
    let k = bits(&[0.0, 0.0]);
    let v = bits(&[3.0, 5.0]);
    let kv = TensorView::from_f32_slice(&[1, 2, 1], &k);
    let vv = TensorView::from_f32_slice(&[1, 2, 1], &v);
    let m = meta(&[0], &[1], &[0], &[0]);
    state_write_kv_paged(&arith, &format, &write_op(DType::F16), &kv, &vv, &m, 0, &mut c).unwrap();
    let q = bits(&[1.0; 4]);
    let qv = TensorView::from_f32_slice(&[1, 4, 1], &q);
    let mut o = [0u32; 4];
    attention_paged(
        &arith, &attn_op(), &qv, &m, 0, &c,
        &mut TensorViewMut::from_f32_slice(&[1, 4, 1], &mut o),
    )
    .unwrap();
    assert_eq!(o[..], bits(&[3.0, 3.0, 5.0, 5.0])[..]);
    let q = bits(&[1.0; 3]);
    let qv = TensorView::from_f32_slice(&[1, 3, 1], &q);
    let mut o = [0u32; 3];
    let r = attention_paged(
        &arith, &attn_op(), &qv, &m, 0, &c,
        &mut TensorViewMut::from_f32_slice(&[1, 3, 1], &mut o),
    );
    assert!(matches!(r, Err(T0Error::InvalidAttribute { attribute: "qkv_heads", .. })));
}

#[test]
fn places_are_plain_values() {
    let p = RowPlace { tensor: "k", tok: 1, head: 2 };
    assert_eq!((p.tensor, p.tok, p.head), ("k", 1, 2));
}

#[test]
fn a_cloned_cache_keeps_its_rows() {
    let mut c = KvPagedCache::new(1, 1, 1, 1, DType::F16).unwrap();
    let k = bits(&[1.0]);
    let kv = TensorView::from_f32_slice(&[1, 1, 1], &k);
    let m = meta(&[0], &[1], &[3], &[0]);
    state_write_kv_paged(&arith, &format, &write_op(DType::F16), &kv, &kv, &m, 0, &mut c).unwrap();
    let before = c.clone();
    let k = bits(&[2.0]);
    let kv = TensorView::from_f32_slice(&[1, 1, 1], &k);
    state_write_kv_paged(&arith, &format, &write_op(DType::F16), &kv, &kv, &m, 0, &mut c).unwrap();
    assert!(before.is_written(3) && !before.is_written(4));
    assert_eq!(before.read_k_f32(&arith, 3, 0, 0).unwrap(), b(1.0));
    assert_eq!(c.read_k_f32(&arith, 3, 0, 0).unwrap(), b(2.0));
    match KvCache::Paged(before).clone() {
        KvCache::Paged(p) => assert_eq!(p.read_v_f32(&arith, 3, 0, 0).unwrap(), b(1.0)),
        KvCache::Latent(_) => panic!("expected the same kind"),
    }
    let l = KvLatentCache::new(2, 2, 1, DType::I8).unwrap();
    match KvCache::Latent(l).clone() {
        KvCache::Latent(p) => assert!((p.num_blocks, p.latent, p.rope) == (2, 2, 1)),
        KvCache::Paged(_) => panic!("expected the same kind"),
    }
}
