//! Trials, their seeds and their operands.
use std::cell::Cell;

use r9v_t0::arith::FloatOp;
use r9v_t0::buffer::TypedBuffer;
use r9v_t0::error::{Detail, FormatError, T0Error};
use r9v_t0::fixtures::{
    activation_tensor, activation_tensor_as, activation_values, all_classes, bytes_f16_to_f32,
    class_tensor, f16_bytes_tensor, ids_in_range, keep_mask, per_block_scales, per_token_scales,
    positions_tensor, quant_of, row_ids_tensor, symmetric_i8, token_ids_tensor, uniform_f32,
    weight_tensor, weight_values, Class,
};
use r9v_t0::gates::{
    batch_invariant, concat_output_bytes, deterministic, f32_output_bytes, golden, i8_output_bytes,
    repeat_verdict, run_gates, shape_fuzz, u32_output_bytes, BatchRows, GateBuffers, GateCase,
};
use r9v_t0::harness::{
    bucket_edge_counts, case_index, case_seed, check_bits_equal, checked_add_u64, checked_extent3,
    logical_row_bytes, seed_for, seed_input, tolerance_for, words_to_bytes, Context, HarnessError,
    MASTER_SEED,
};
use r9v_t0::ir::{DType, QuantScheme, SchemeId};
use r9v_t0::refusal::refusal_marker;
use r9v_t0::scheme_rows::{
    carrier_for_ggml, i8r_l0_weight, is_natively_decoded, native_l0_stride, native_l0_weight,
    scheme_block, scheme_weight_carrier, FormatScheme, NibbleHeader,
};
use r9v_t0::tolerance::Tolerance;

fn b(v: f32) -> u32 {
    v.to_bits()
}

fn arith(op: FloatOp, x: u32, y: u32) -> u32 {
    let (x, y) = (f32::from_bits(x), f32::from_bits(y));
    let r = match op {
        FloatOp::Plus => x + y,
        FloatOp::Minus => x - y,
        FloatOp::Times => x * y,
        FloatOp::Over => x / y,
        FloatOp::Exp => x.exp(),
        FloatOp::Tanh => x.tanh(),
        FloatOp::Max => x.max(y),
    };
    r.to_bits()
}

#[test]
fn seeds_are_hashes() {
    let input = seed_input("copy", 3, MASTER_SEED);
    let mut want = b"a1.10|copy|".to_vec();
    want.extend_from_slice(&3u64.to_le_bytes());
    want.extend_from_slice(&MASTER_SEED.to_le_bytes());
    assert_eq!(input, want);
    let seed = seed_for("copy", 3, MASTER_SEED);
    assert_eq!(seed, xxhash_rust::xxh3::xxh3_64(&input));
    assert_ne!(seed, 3);
    assert_ne!(seed, seed_for("copy", 4, MASTER_SEED));
    assert_eq!(xxhash_rust::xxh3::xxh3_64(b""), 0x2D06_8005_38D3_94C2);
}

#[test]
fn cases_are_numbered_shape_by_shape() {
    assert_eq!(case_index("copy", 2, 5).unwrap(), 69);
    assert_eq!(case_seed("copy", 2, 5).unwrap(), seed_for("copy", 69, MASTER_SEED));
    assert!(matches!(
        case_index("copy", usize::MAX, 0),
        Err(HarnessError::ArithmeticOverflow { .. })
    ));
    assert!(case_seed("copy", usize::MAX, 0).is_err());
    assert!(case_index("copy", 1, u64::MAX).is_err());
}

#[test]
fn bytes_are_compared() {
    assert!(check_bits_equal(&[1, 2], &[1, 2], "x").is_ok());
    match check_bits_equal(&[1, 2, 3], &[1, 9, 8], "x") {
        Err(HarnessError::BitMismatch { index, actual, expected, context }) => {
            assert_eq!((index, actual, expected), (1, 2, 9));
            assert_eq!(context.name, "x");
        }
        _ => panic!("expected a mismatch"),
    }
    assert!(matches!(
        check_bits_equal(&[1], &[1, 2], "x"),
        Err(HarnessError::LengthMismatch { actual: 1, expected: 2, .. })
    ));
}

#[test]
fn extents_and_sums_are_checked() {
    assert_eq!(checked_extent3(2, 3, 4, "x").unwrap(), 24);
    assert!(checked_extent3(usize::MAX, 2, 1, "x").is_err());
    assert!(checked_extent3(usize::MAX, 1, 2, "x").is_err());
    assert_eq!(checked_add_u64(2, 3, "x").unwrap(), 5);
    assert!(matches!(
        checked_add_u64(u64::MAX, 1, "x"),
        Err(HarnessError::ArithmeticOverflow { .. })
    ));
}

#[test]
fn buckets_end_at_their_edges() {
    assert_eq!(bucket_edge_counts(), [1, 5, 33, 4096]);
}

#[test]
fn tolerances_go_by_op() {
    assert_eq!(tolerance_for("copy", Some(7u8)).unwrap(), 7);
    match tolerance_for::<u8>("nothing", None) {
        Err(HarnessError::UnknownOp { op }) => assert_eq!(op, "nothing"),
        _ => panic!("expected a refusal"),
    }
}

#[test]
fn rows_are_cut_out() {
    let full = [1u32, 2, 3, 0x0403_0201];
    assert_eq!(logical_row_bytes(&full, 1, 2, "x").unwrap(), vec![3, 0, 0, 0, 1, 2, 3, 4]);
    assert_eq!(words_to_bytes(&full[3..]), vec![1, 2, 3, 4]);
    assert!(logical_row_bytes(&full, 2, 2, "x").is_err());
    assert!(logical_row_bytes(&full, usize::MAX, 2, "x").is_err());
    assert!(logical_row_bytes(&full, 1, usize::MAX, "x").is_err());
}

#[test]
fn draws_are_uniform() {
    let words = [0u64, u64::MAX, 1 << 23];
    assert_eq!(uniform_f32(&arith, &words[..1], b(-1.0), b(1.0)), vec![b(-1.0)]);
    let v = uniform_f32(&arith, &words, b(-1.0), b(1.0));
    assert!(f32::from_bits(v[1]) < 1.0 && f32::from_bits(v[1]) > 0.999);
    assert_eq!(v[2], b(0.0));
    assert_eq!(activation_values(&arith, &words)[0], b(-2.0));
    assert_eq!(weight_values(&arith, &words)[2], b(0.0));
}

#[test]
fn drawn_integers_stay_in_range() {
    assert_eq!(symmetric_i8(&[0, 127, 254, 255]), vec![-127, 0, 127, -127]);
    let ids = ids_in_range(&[0, 5, u64::MAX], 4);
    assert!(ids.iter().all(|&i| i < 4));
    assert_eq!(keep_mask(&arith, &[0, u64::MAX], b(0.5)), vec![true, false]);
    assert_eq!(keep_mask(&arith, &[0, u64::MAX], b(1.0)), vec![true, true]);
    assert_eq!(keep_mask(&arith, &[0, u64::MAX], b(0.0)), vec![false, false]);
}

#[test]
fn drawn_tensors() {
    let words = [0u64, 1 << 23];
    let t = activation_tensor(&arith, &words, &[2, 1]);
    assert_eq!((t.shape(), t.dtype()), (&[2usize, 1][..], DType::F32));
    assert_eq!(t.to_f32_vec(), vec![b(-2.0), b(0.0)]);
    assert_eq!(weight_tensor(&arith, &words, &[2]).shape(), &[2]);
    for dtype in [DType::F16, DType::Bf16, DType::E4m3, DType::E5m2] {
        let t = activation_tensor_as(&arith, &words, &[], &[2], dtype);
        assert_eq!((t.dtype(), t.to_f32_vec()), (dtype, vec![b(-2.0), b(0.0)]));
    }
    let t = activation_tensor_as(&arith, &words, &[1, 2], &[2], DType::I8);
    assert_eq!(t.to_i8_vec(), vec![-126, -125]);
    let t = activation_tensor_as(&arith, &words, &[3, 1], &[2], DType::U32);
    assert_eq!(t.num_elements(), 2);
    assert!(t.to_u32_vec().iter().all(|&v| v < 1024));
    assert_eq!(token_ids_tensor(&[8, 9], 1).to_u32_vec(), vec![0, 0]);
    assert_eq!(row_ids_tensor(&[8], 0).to_u32_vec(), vec![0]);
    assert!(positions_tensor(&[8, 77], 5).to_u32_vec().iter().all(|&v| v < 5));
    assert_eq!(quant_of(&t), QuantScheme::Unquantized);
}

#[test]
fn drawn_scales_are_positive() {
    let t = per_token_scales(&arith, &[0, u64::MAX], 2);
    assert_eq!(t.shape(), &[2]);
    assert_eq!(t.to_f32_vec()[0], b(0.25));
    let t = per_block_scales(&arith, &[0, 0, 0, 0], 2, 33);
    assert_eq!(t.shape(), &[2, 2]);
    assert_eq!(t.to_f32_vec(), vec![b(0.25); 4]);
}

#[test]
fn half_precision_bytes_round_trip() {
    let t = f16_bytes_tensor(&arith, &[0, 1 << 23], &[1, 2]);
    assert_eq!(t.dtype(), DType::F16);
    assert_eq!(bytes_f16_to_f32(&t), vec![b(-2.0), b(0.0)]);
}

#[test]
fn classes_have_tensors() {
    assert_eq!(all_classes().len(), 5);
    let words = [0u64, 0];
    for class in all_classes() {
        let t = class_tensor(&arith, &words, class, &[2]);
        assert_eq!(t.shape(), &[2]);
    }
    assert_eq!(class_tensor(&arith, &words, Class::State, &[2]).to_f32_vec(), vec![0, 0]);
}

#[test]
fn schemes_have_blocks_and_strides() {
    assert_eq!(scheme_block(FormatScheme::I8B128), 128);
    assert_eq!(scheme_block(FormatScheme::I4K), 256);
    assert!(is_natively_decoded(FormatScheme::I8R) && !is_natively_decoded(FormatScheme::Iq2S));
    assert_eq!(native_l0_stride(FormatScheme::I8R, 5), Some(7));
    assert_eq!(native_l0_stride(FormatScheme::I8B128, 128), Some(130));
    assert_eq!(native_l0_stride(FormatScheme::I4K, 256), Some(144));
    assert_eq!(native_l0_stride(FormatScheme::Iq2S, 256), None);
}

#[test]
fn carriers_hold_bytes_and_scales() {
    let c = scheme_weight_carrier(
        &arith, &[9, 10], &[0], FormatScheme::I8R, SchemeId::I8R, 1, 2,
    );
    assert_eq!(c.values.shape(), &[1, 2]);
    assert_eq!(c.values.quant(), QuantScheme::Scheme(SchemeId::I8R));
    assert_eq!(c.scales.to_f32_vec(), vec![b(0.25)]);
    assert!(c.native);
    assert!(carrier_for_ggml(&arith, &[], &[], None, 1, 2).is_none());
}

fn pack(h: NibbleHeader) -> Result<u128, FormatError> {
    Ok(h.d as u128 | (h.dmin as u128) << 16)
}

fn decode(bytes: &[u8], cols: usize) -> Result<Vec<u32>, FormatError> {
    let scale = u16::from_le_bytes([bytes[cols], bytes[cols + 1]]);
    let scale = f32::from_bits(r9v_t0::dtype::f16_to_f32(scale));
    Ok(bytes[..cols].iter().map(|&v| b(v as i8 as f32 * scale)).collect())
}

#[test]
fn rows_with_scales() {
    let (bytes, scales) = i8r_l0_weight(&arith, &[127, 128, 0], 1, 2);
    assert_eq!(bytes.len(), 4);
    assert_eq!(&bytes[..2], &[0, 1]);
    let stored = r9v_t0::dtype::f16_to_f32(u16::from_le_bytes([bytes[2], bytes[3]]));
    assert_eq!(scales, vec![stored]);
    let w = native_l0_weight(
        &arith, &pack, &decode, &[127, 128, 0], FormatScheme::I8R, SchemeId::I8R, 1, 2,
    )
    .unwrap();
    assert_eq!(w.values.byte_data(), &bytes[..]);
    assert_eq!(w.expected, vec![0, stored]);
    let copy = w.clone();
    assert_eq!(copy.values.byte_data(), w.values.byte_data());
    assert_eq!(copy.expected, w.expected);
    let e = native_l0_weight(
        &arith, &pack, &decode, &[], FormatScheme::Iq2S, SchemeId::I8R, 1, 2,
    );
    assert!(matches!(
        e,
        Err(HarnessError::UnsupportedScheme { scheme: FormatScheme::Iq2S, .. })
    ));
}

/// A kernel that doubles a row, or misbehaves in one way.
struct Doubling {
    wrong: bool,
    mixes_rows: bool,
    refuses: bool,
    takes_anything: bool,
}

impl Doubling {
    fn good() -> Doubling {
        Doubling { wrong: false, mixes_rows: false, refuses: false, takes_anything: false }
    }
}

impl GateCase for Doubling {
    fn op_name(&self) -> &'static str {
        "doubling"
    }

    fn tolerance(&self) -> Tolerance {
        Tolerance { abs: 0, rel: 0 }
    }

    fn legal_shapes(&self) -> Vec<Vec<usize>> {
        vec![vec![1, 2], vec![3, 2]]
    }

    fn fuzz_legal(&self) -> Vec<Vec<usize>> {
        vec![vec![2, 5]]
    }

    fn build(&self, shape: &[usize], seed: u64) -> Result<GateBuffers, HarnessError> {
        let n = shape[0] * shape[1];
        let values: Vec<u32> = (0..n).map(|i| b((seed % 100) as f32 + i as f32)).collect();
        Ok(GateBuffers::fresh(
            vec![TypedBuffer::from_f32(shape, &values)],
            vec![TypedBuffer::zeros(shape, DType::F32)],
        ))
    }

    fn build_pinned(&self, shape: &[usize], row: usize) -> Result<GateBuffers, HarnessError> {
        let values: Vec<u32> = (0..shape[0] * shape[1])
            .map(|i| if i / 2 == row { b(7.0) } else { b(i as f32) })
            .collect();
        Ok(GateBuffers::pinned(
            vec![TypedBuffer::from_f32(shape, &values)],
            vec![TypedBuffer::zeros(shape, DType::F32)],
            row,
        ))
    }

    fn execute(&self, buffers: &mut GateBuffers) -> Result<(), T0Error> {
        if self.refuses || (buffers.inputs[0].rank() != 2 && !self.takes_anything) {
            return Err(T0Error::MissingOperand { op: "doubling", operand: "x", detail: Detail::plain("absent") });
        }
        let rows = if self.mixes_rows { buffers.inputs[0].shape()[0] as f32 } else { 0.0 };
        for i in 0..buffers.inputs[0].num_elements() {
            let v = f32::from_bits(buffers.inputs[0].read_f32(i));
            buffers.outputs[0].write_f32(i, b(2.0 * v + rows));
        }
        Ok(())
    }

    fn verify(&self, buffers: &GateBuffers) -> Result<(), HarnessError> {
        if self.wrong {
            return check_bits_equal(&[0], &[1], "doubling");
        }
        for i in 0..buffers.inputs[0].num_elements() {
            let v = f32::from_bits(buffers.inputs[0].read_f32(i));
            assert!(self.mixes_rows || buffers.outputs[0].read_f32(i) == b(2.0 * v));
        }
        Ok(())
    }

    fn output_bytes(&self, buffers: &GateBuffers) -> Result<Vec<u8>, HarnessError> {
        f32_output_bytes(&buffers.outputs[0], "doubling")
    }

    fn logical_bytes(&self, buffers: &GateBuffers) -> Result<Vec<u8>, HarnessError> {
        logical_row_bytes(&buffers.outputs[0].to_f32_vec(), buffers.logical_row, 2, "doubling")
    }

    fn batch_rows(&self) -> BatchRows {
        BatchRows {
            alone: vec![1, 2],
            padded: vec![4, 2],
            embedded: vec![4, 2],
            row_alone: 0,
            row: 2,
        }
    }

    fn illegal_count(&self) -> usize {
        1
    }

    fn build_illegal(&self, _index: usize) -> Result<GateBuffers, HarnessError> {
        Ok(GateBuffers::fresh(
            vec![TypedBuffer::from_f32(&[2], &[0, 0])],
            vec![TypedBuffer::zeros(&[2], DType::F32)],
        ))
    }
}

#[test]
fn a_good_kernel_passes() {
    let case = Doubling::good();
    assert!(!case.always_refuses());
    let any: &dyn GateCase = &case;
    run_gates(any).unwrap();
    golden(&case).unwrap();
    batch_invariant(&case).unwrap();
    deterministic(&case).unwrap();
    shape_fuzz(&case).unwrap();
    run_gates(&case).unwrap();
}

#[test]
fn a_wrong_kernel_fails() {
    let case = Doubling { wrong: true, ..Doubling::good() };
    assert!(matches!(golden(&case), Err(HarnessError::BitMismatch { .. })));
    assert!(run_gates(&case).is_err());
}

#[test]
fn a_kernel_that_mixes_rows_fails() {
    let case = Doubling { mixes_rows: true, ..Doubling::good() };
    golden(&case).unwrap();
    assert!(matches!(batch_invariant(&case), Err(HarnessError::BitMismatch { .. })));
}

#[test]
fn a_kernel_that_refuses_fails() {
    let case = Doubling { refuses: true, ..Doubling::good() };
    assert!(matches!(golden(&case), Err(HarnessError::UnexpectedRefusal { .. })));
}

#[test]
fn a_kernel_that_takes_anything_fails() {
    let case = Doubling { takes_anything: true, ..Doubling::good() };
    assert!(matches!(
        shape_fuzz(&case),
        Err(HarnessError::MissingRefusal { .. }) | Err(HarnessError::FuzzVerdict { .. })
    ));
}

#[test]
fn output_bytes() {
    let f = TypedBuffer::from_f32(&[1], &[0x0403_0201]);
    assert_eq!(f32_output_bytes(&f, "x").unwrap(), vec![1, 2, 3, 4]);
    let u = TypedBuffer::from_u32(&[1], &[0x0403_0201]);
    assert_eq!(u32_output_bytes(&u, "x").unwrap(), vec![1, 2, 3, 4]);
    let i = TypedBuffer::from_i8(&[2], &[-1, 1]);
    assert_eq!(i8_output_bytes(&i, "x"), vec![255, 1]);
    let bytes = |t: &TypedBuffer| i8_output_bytes(t, "x");
    assert_eq!(concat_output_bytes(&[i], &bytes), vec![255, 1]);
    let raw = TypedBuffer::from_bytes(&[2], DType::I8, &[0x01, 0xFF]);
    assert_eq!(i8_output_bytes(&raw, "x"), vec![1, 255]);
}

/// A kernel that refuses whatever it is given.
struct Refusing {
    flaky: Cell<u32>,
}

impl GateCase for Refusing {
    fn op_name(&self) -> &'static str {
        "refusing"
    }

    fn tolerance(&self) -> Tolerance {
        Tolerance { abs: 0, rel: 0 }
    }

    fn legal_shapes(&self) -> Vec<Vec<usize>> {
        vec![vec![1]]
    }

    fn fuzz_legal(&self) -> Vec<Vec<usize>> {
        vec![]
    }

    fn build(&self, _shape: &[usize], _seed: u64) -> Result<GateBuffers, HarnessError> {
        Ok(GateBuffers::fresh(Vec::new(), Vec::new()))
    }

    fn build_pinned(&self, _shape: &[usize], row: usize) -> Result<GateBuffers, HarnessError> {
        Ok(GateBuffers::pinned(Vec::new(), Vec::new(), row))
    }

    fn execute(&self, _buffers: &mut GateBuffers) -> Result<(), T0Error> {
        self.flaky.set(self.flaky.get() * 2);
        Err(T0Error::RowIndexOutOfRange {
            op: "refusing",
            tensor: "x",
            position: 0,
            index: self.flaky.get(),
            upper_bound: 1,
        })
    }

    fn verify(&self, _buffers: &GateBuffers) -> Result<(), HarnessError> {
        Ok(())
    }

    fn output_bytes(&self, _buffers: &GateBuffers) -> Result<Vec<u8>, HarnessError> {
        Ok(Vec::new())
    }

    fn logical_bytes(&self, _buffers: &GateBuffers) -> Result<Vec<u8>, HarnessError> {
        Ok(Vec::new())
    }

    fn batch_rows(&self) -> BatchRows {
        BatchRows { alone: vec![1], padded: vec![1], embedded: vec![1], row_alone: 0, row: 0 }
    }

    fn illegal_count(&self) -> usize {
        0
    }

    fn build_illegal(&self, _index: usize) -> Result<GateBuffers, HarnessError> {
        Ok(GateBuffers::fresh(Vec::new(), Vec::new()))
    }

    fn always_refuses(&self) -> bool {
        true
    }
}

#[test]
fn refusals_are_compared() {
    let steady = Refusing { flaky: Cell::new(0) };
    run_gates(&steady).unwrap();
    let flaky = Refusing { flaky: Cell::new(1) };
    assert!(matches!(deterministic(&flaky), Err(HarnessError::BitMismatch { .. })));
    let flaky = Refusing { flaky: Cell::new(1) };
    assert!(matches!(batch_invariant(&flaky), Err(HarnessError::BitMismatch { .. })));
}

#[test]
fn refusals_have_bytes() {
    let e = |index: u32| T0Error::RowIndexOutOfRange {
        op: "o",
        tensor: "x",
        position: 2,
        index,
        upper_bound: 1,
    };
    let marker = refusal_marker(&e(3));
    assert_eq!(&marker[..8], b"refused:");
    assert_eq!(marker, refusal_marker(&e(3)));
    assert_ne!(marker, refusal_marker(&e(4)));
    let both = T0Error::Multiple { problems: vec![e(3), e(4)] };
    let swapped = T0Error::Multiple { problems: vec![e(4), e(3)] };
    assert_ne!(refusal_marker(&both), refusal_marker(&swapped));
}

#[test]
fn two_runs_are_judged() {
    let context = Context::named("x");
    assert!(repeat_verdict(Ok(vec![1, 2]), Ok(vec![1, 2]), &context).is_ok());
    assert!(matches!(
        repeat_verdict(Ok(vec![1, 2]), Ok(vec![1, 3]), &context),
        Err(HarnessError::BitMismatch { index: 1, actual: 2, expected: 3, .. })
    ));
    assert!(matches!(
        repeat_verdict(Ok(vec![1]), Ok(vec![]), &context),
        Err(HarnessError::LengthMismatch { actual: 1, expected: 0, .. })
    ));
    let fail = || HarnessError::NoLegalShapes { op: "first" };
    let other = || HarnessError::NoLegalShapes { op: "second" };
    assert!(matches!(
        repeat_verdict(Err(fail()), Err(other()), &context),
        Err(HarnessError::NoLegalShapes { op: "first" })
    ));
    assert!(matches!(
        repeat_verdict(Ok(vec![1]), Err(other()), &context),
        Err(HarnessError::NoLegalShapes { op: "second" })
    ));
}
