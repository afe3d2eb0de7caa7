//! Seeded operands for trials.
//!
//! Every generator takes the words that a seeded stream drew, one per number
//! unless it says otherwise, so that the same words give the same bytes.
use vstd::prelude::*;
use crate::arith::{compute, fp, fp_add, fp_mul, is_arith, plus, times, FloatOp};
use crate::buffer::{dense, extent, Cells, Tensor, TypedBuffer};
use crate::dtype::{
    bf16_of, e4m3_of, e5m2_of, f16_of, f16_to_f32, f32_of_f16, f32_of_int, f32_to_bf16, f32_to_int,
    fp8_e4m3_encode, fp8_e5m2_encode, int_of_f32, is_nan, u32_to_f32, ONE,
};
use crate::harness::{word_bytes, words_to_bytes};
use crate::ir::{DType, QuantScheme};

verus! {

/// Bits of 2 to the power of 24.
pub const TWO_24: u32 = 0x4B80_0000;

/// A number between two bounds, from the low 24 bits of a word.
pub open spec fn uniform<F: Fn(FloatOp, u32, u32) -> u32>(f: F, word: u64, lo: u32, hi: u32) -> u32 {
    let span = fp(f, FloatOp::Minus, hi, lo);
    let part = fp(f, FloatOp::Over, f32_of_int((word % 0x100_0000) as int), TWO_24);
    fp_add(f, lo, fp_mul(f, span, part))
}

/// Numbers between two bounds.
pub open spec fn uniforms<F: Fn(FloatOp, u32, u32) -> u32>(
    f: F,
    words: Seq<u64>,
    lo: u32,
    hi: u32,
) -> Seq<u32> {
    Seq::new(words.len(), |i: int| uniform(f, words[i], lo, hi))
}

/// Number between two bounds, drawn by a word.
pub fn uniform_value<F: Fn(FloatOp, u32, u32) -> u32>(f: &F, word: u64, lo: u32, hi: u32) -> (r: u32)
    requires
        is_arith(*f),
    ensures
        r == uniform(*f, word, lo, hi),
{
    let span: u32 = compute(f, FloatOp::Minus, hi, lo);
    let part: u32 = compute(
        f,
        FloatOp::Over,
        u32_to_f32((word % 0x100_0000) as u32),
        TWO_24,
    );
    plus(f, lo, times(f, span, part))
}

/// Numbers between two bounds.
pub fn uniform_f32<F: Fn(FloatOp, u32, u32) -> u32>(f: &F, words: &[u64], lo: u32, hi: u32) -> (r:
    Vec<u32>)
    requires
        is_arith(*f),
    ensures
        r@ == uniforms(*f, words@, lo, hi),
{
    let mut out: Vec<u32> = Vec::new();
    let mut i: usize = 0;
    while i < words.len()
        invariant
            i <= words@.len(),
            is_arith(*f),
            out@.len() == i,
            forall|j: int| 0 <= j < i ==> out@[j] == uniform(*f, words@[j], lo, hi),
        decreases words@.len() - i,
    {
        out.push(uniform_value(f, words[i], lo, hi));
        i += 1;
    }
    assert(out@ =~= uniforms(*f, words@, lo, hi));
    out
}

/// Bits of -2.
pub const MINUS_TWO: u32 = 0xC000_0000;

/// Bits of 2.
pub const TWO: u32 = 0x4000_0000;

/// Bits of -1.
pub const MINUS_ONE: u32 = 0xBF80_0000;

/// Bits of a quarter.
pub const QUARTER: u32 = 0x3E80_0000;

/// Bits of minus a half.
pub const MINUS_HALF: u32 = 0xBF00_0000;

/// Bits of a half.
pub const HALF: u32 = 0x3F00_0000;

/// Numbers between -2 and 2.
pub fn activation_values<F: Fn(FloatOp, u32, u32) -> u32>(f: &F, words: &[u64]) -> (r: Vec<u32>)
    requires
        is_arith(*f),
    ensures
        r@ == uniforms(*f, words@, MINUS_TWO, TWO),
{
    uniform_f32(f, words, MINUS_TWO, TWO)
}

/// Numbers between -1 and 1.
pub fn weight_values<F: Fn(FloatOp, u32, u32) -> u32>(f: &F, words: &[u64]) -> (r: Vec<u32>)
    requires
        is_arith(*f),
    ensures
        r@ == uniforms(*f, words@, MINUS_ONE, ONE),
{
    uniform_f32(f, words, MINUS_ONE, ONE)
}

/// Numbers between a quarter and 2.
pub fn positive_scales<F: Fn(FloatOp, u32, u32) -> u32>(f: &F, words: &[u64]) -> (r: Vec<u32>)
    requires
        is_arith(*f),
    ensures
        r@ == uniforms(*f, words@, QUARTER, TWO),
{
    uniform_f32(f, words, QUARTER, TWO)
}

/// A signed byte from -127 to 127.
pub open spec fn symmetric(word: u64) -> i8 {
    (word % 255 - 127) as i8
}

/// Signed bytes from -127 to 127.
pub fn symmetric_i8(words: &[u64]) -> (r: Vec<i8>)
    ensures
        r@ == Seq::new(words@.len(), |i: int| symmetric(words@[i])),
        forall|i: int| 0 <= i < r@.len() ==> -127 <= #[trigger] r@[i] <= 127,
{
    let mut out: Vec<i8> = Vec::new();
    let mut i: usize = 0;
    while i < words.len()
        invariant
            i <= words@.len(),
            out@.len() == i,
            forall|j: int| 0 <= j < i ==> out@[j] == symmetric(words@[j]),
            forall|j: int| 0 <= j < i ==> -127 <= #[trigger] out@[j] <= 127,
        decreases words@.len() - i,
    {
        out.push(((words[i] % 255) as i64 - 127) as i8);
        i += 1;
    }
    assert(out@ =~= Seq::new(words@.len(), |i: int| symmetric(words@[i])));
    out
}

/// A number below a bound, or zero if the bound is zero.
pub open spec fn below(word: u64, bound: u32) -> u32 {
    if bound == 0 {
        0
    } else {
        (word % bound as u64) as u32
    }
}

/// Numbers below a bound.
pub open spec fn all_below(words: Seq<u64>, bound: u32) -> Seq<u32> {
    Seq::new(words.len(), |i: int| below(words[i], bound))
}

/// Numbers below a bound, or zeros if the bound is zero.
pub fn ids_in_range(words: &[u64], bound: u32) -> (r: Vec<u32>)
    ensures
        r@ == all_below(words@, bound),
        bound > 0 ==> forall|i: int| 0 <= i < r@.len() ==> #[trigger] r@[i] < bound,
{
    let mut out: Vec<u32> = Vec::new();
    let mut i: usize = 0;
    while i < words.len()
        invariant
            i <= words@.len(),
            out@.len() == i,
            forall|j: int| 0 <= j < i ==> out@[j] == below(words@[j], bound),
            bound > 0 ==> forall|j: int| 0 <= j < i ==> #[trigger] out@[j] < bound,
        decreases words@.len() - i,
    {
        if bound == 0 {
            out.push(0);
        } else {
            out.push((words[i] % bound as u64) as u32);
        }
        i += 1;
    }
    assert(out@ =~= all_below(words@, bound));
    out
}

/// A probability brought between 0 and 1; a NaN stays.
pub open spec fn clamped(p: u32) -> u32 {
    if is_nan(p) {
        p
    } else if p > 0x8000_0000 {
        0
    } else if ONE < p && p < 0x8000_0000 {
        ONE
    } else {
        p
    }
}

/// Threshold for 24 bits that keeps the given part of them.
pub open spec fn threshold<F: Fn(FloatOp, u32, u32) -> u32>(f: F, p: u32) -> int {
    int_of_f32(fp_mul(f, clamped(p), TWO_24), false, 0, 0x1_0000_0000)
}

/// Truth values, of which about the given part is true.
pub fn keep_mask<F: Fn(FloatOp, u32, u32) -> u32>(f: &F, words: &[u64], keep_prob: u32) -> (r: Vec<
    bool,
>)
    requires
        is_arith(*f),
    ensures
        r@ == Seq::new(
            words@.len(),
            |i: int| words@[i] / 0x100_0000_0000 < threshold(*f, keep_prob),
        ),
{
    let nan: bool = keep_prob % 0x8000_0000 > 0x7F80_0000;
    let p: u32 = if nan {
        keep_prob
    } else if keep_prob > 0x8000_0000 {
        0
    } else if ONE < keep_prob && keep_prob < 0x8000_0000 {
        ONE
    } else {
        keep_prob
    };
    assert(p == clamped(keep_prob));
    let limit: i64 = f32_to_int(times(f, p, TWO_24), false, 0, 0x1_0000_0000);
    let mut out: Vec<bool> = Vec::new();
    let mut i: usize = 0;
    while i < words.len()
        invariant
            i <= words@.len(),
            limit == threshold(*f, keep_prob),
            limit >= 0,
            out@.len() == i,
            forall|j: int| 0 <= j < i ==> out@[j] == (words@[j] / 0x100_0000_0000 < limit),
        decreases words@.len() - i,
    {
        out.push(words[i] / 0x100_0000_0000 < limit as u64);
        i += 1;
    }
    assert(out@ =~= Seq::new(
        words@.len(),
        |i: int| words@[i] / 0x100_0000_0000 < threshold(*f, keep_prob),
    ));
    out
}

/// Tensor of singles between two bounds.
pub open spec fn uniform_tensor<F: Fn(FloatOp, u32, u32) -> u32>(
    f: F,
    words: Seq<u64>,
    shape: Seq<usize>,
    lo: u32,
    hi: u32,
) -> Tensor {
    dense(shape, Cells::F32(uniforms(f, words, lo, hi)).or_empty())
}

/// Tensor of singles between -2 and 2.
pub fn activation_tensor<F: Fn(FloatOp, u32, u32) -> u32>(
    f: &F,
    words: &[u64],
    shape: &[usize],
) -> (r: TypedBuffer)
    requires
        is_arith(*f),
        extent(shape@) == Some(words@.len() as usize),
    ensures
        r@ == uniform_tensor(*f, words@, shape@, MINUS_TWO, TWO),
        r.wf(),
{
    let len: usize = words.len();
    TypedBuffer::from_f32(shape, activation_values(f, words).as_slice())
}

/// Tensor of singles between -1 and 1.
pub fn weight_tensor<F: Fn(FloatOp, u32, u32) -> u32>(f: &F, words: &[u64], shape: &[usize]) -> (r:
    TypedBuffer)
    requires
        is_arith(*f),
        extent(shape@) == Some(words@.len() as usize),
    ensures
        r@ == uniform_tensor(*f, words@, shape@, MINUS_ONE, ONE),
        r.wf(),
{
    let len: usize = words.len();
    TypedBuffer::from_f32(shape, weight_values(f, words).as_slice())
}

/// Tensor of singles between minus a half and a half.
pub fn param_class_tensor<F: Fn(FloatOp, u32, u32) -> u32>(
    f: &F,
    words: &[u64],
    shape: &[usize],
) -> (r: TypedBuffer)
    requires
        is_arith(*f),
        extent(shape@) == Some(words@.len() as usize),
    ensures
        r@ == uniform_tensor(*f, words@, shape@, MINUS_HALF, HALF),
        r.wf(),
{
    let len: usize = words.len();
    TypedBuffer::from_f32(shape, uniform_f32(f, words, MINUS_HALF, HALF).as_slice())
}

/// Encodes singles in half precision.
fn halves(values: &Vec<u32>) -> (r: Vec<u16>)
    ensures
        r@ == Seq::new(values@.len(), |i: int| f16_of(values@[i])),
{
    crate::kv_rows::half_row(values.as_slice())
}

/// Encodes singles as bfloat16.
fn brains(values: &Vec<u32>) -> (r: Vec<u16>)
    ensures
        r@ == Seq::new(values@.len(), |i: int| bf16_of(values@[i])),
{
    let mut out: Vec<u16> = Vec::new();
    let mut i: usize = 0;
    while i < values.len()
        invariant
            i <= values@.len(),
            out@.len() == i,
            forall|j: int| 0 <= j < i ==> out@[j] == bf16_of(values@[j]),
        decreases values@.len() - i,
    {
        out.push(f32_to_bf16(values[i]));
        i += 1;
    }
    assert(out@ =~= Seq::new(values@.len(), |i: int| bf16_of(values@[i])));
    out
}

/// Codes of singles in one of the 8-bit formats.
pub open spec fn eights(values: Seq<u32>, wide: bool) -> Seq<u8> {
    Seq::new(
        values.len(),
        |i: int|
            if wide {
                e5m2_of(values[i])
            } else {
                e4m3_of(values[i])
            },
    )
}

fn encode_eights(values: &Vec<u32>, wide: bool) -> (r: Vec<u8>)
    ensures
        r@ == eights(values@, wide),
{
    let mut out: Vec<u8> = Vec::new();
    let mut i: usize = 0;
    while i < values.len()
        invariant
            i <= values@.len(),
            out@.len() == i,
            forall|j: int| 0 <= j < i ==> out@[j] == eights(values@, wide)[j],
        decreases values@.len() - i,
    {
        if wide {
            out.push(fp8_e5m2_encode(values[i]));
        } else {
            out.push(fp8_e4m3_encode(values[i]));
        }
        i += 1;
    }
    assert(out@ =~= eights(values@, wide));
    out
}

/// Whether a type is drawn as integers, from words of their own.
pub open spec fn is_integer(dtype: DType) -> bool {
    dtype == DType::I8 || dtype == DType::U32 || dtype == DType::I32
}

/// Storage of an activation of the given type: floating-point types from the
/// words as numbers between -2 and 2, integers from further words, and zeros for
/// packed nibbles and truth values.
pub open spec fn activation_cells<F: Fn(FloatOp, u32, u32) -> u32>(
    f: F,
    words: Seq<u64>,
    more: Seq<u64>,
    dtype: DType,
) -> Cells {
    let values = uniforms(f, words, MINUS_TWO, TWO);
    match dtype {
        DType::F32 => Cells::F32(values).or_empty(),
        DType::F16 => Cells::F16(Seq::new(values.len(), |i: int| f16_of(values[i]))).or_empty(),
        DType::Bf16 => Cells::Bf16(Seq::new(values.len(), |i: int| bf16_of(values[i]))).or_empty(),
        DType::E4m3 => Cells::Bytes(dtype, eights(values, false)),
        DType::E5m2 => Cells::Bytes(dtype, eights(values, true)),
        DType::I8 => Cells::I8(Seq::new(more.len(), |i: int| symmetric(more[i]))).or_empty(),
        DType::U32 => Cells::U32(all_below(more, 1024)).or_empty(),
        DType::I32 => Cells::Bytes(dtype, word_bytes(all_below(more, 1024))),
        _ => TypedBuffer::zero_cells(dtype, words.len() as int),
    }
}

/// The bytes of words are four each.
proof fn lemma_word_bytes_len(values: Seq<u32>)
    ensures
        word_bytes(values).len() == 4 * values.len(),
    decreases values.len(),
{
    if values.len() > 0 {
        lemma_word_bytes_len(values.drop_last());
    }
}

/// Tensor of activations of the given type.
pub fn activation_tensor_as<F: Fn(FloatOp, u32, u32) -> u32>(
    f: &F,
    words: &[u64],
    more: &[u64],
    shape: &[usize],
    dtype: DType,
) -> (r: TypedBuffer)
    requires
        is_arith(*f),
        extent(shape@) == Some(words@.len() as usize),
        is_integer(dtype) ==> more@.len() == words@.len(),
        TypedBuffer::zeros_fault(shape@, dtype) is None,
    ensures
        r@ == dense(shape@, activation_cells(*f, words@, more@, dtype)),
        r.wf(),
{
    let len: usize = words.len();
    let values = activation_values(f, words);
    match dtype {
        DType::F32 => TypedBuffer::from_f32(shape, values.as_slice()),
        DType::F16 => TypedBuffer::from_f16(shape, halves(&values).as_slice()),
        DType::Bf16 => TypedBuffer::from_bf16(shape, brains(&values).as_slice()),
        DType::E4m3 => TypedBuffer::from_e4m3_bytes(shape, encode_eights(&values, false).as_slice()),
        DType::E5m2 => TypedBuffer::from_bytes(
            shape,
            DType::E5m2,
            encode_eights(&values, true).as_slice(),
        ),
        DType::I8 => TypedBuffer::from_i8(shape, symmetric_i8(more).as_slice()),
        DType::U32 => TypedBuffer::from_u32(shape, ids_in_range(more, 1024).as_slice()),
        DType::I32 => {
            let ids = ids_in_range(more, 1024);
            proof {
                lemma_word_bytes_len(ids@);
            }
            let bytes = words_to_bytes(ids.as_slice());
            TypedBuffer::from_bytes(shape, DType::I32, bytes.as_slice())
        },
        _ => TypedBuffer::zeros(shape, dtype),
    }
}

/// Tensor of numbers below a bound, which counts as one if it is zero.
pub open spec fn id_tensor(words: Seq<u64>, bound: u32) -> Tensor {
    let limit = if bound == 0 {
        1u32
    } else {
        bound
    };
    dense(seq![words.len() as usize], Cells::U32(all_below(words, limit)).or_empty())
}

fn make_ids(words: &[u64], bound: u32) -> (r: TypedBuffer)
    ensures
        r@ == id_tensor(words@, bound),
        r.wf(),
{
    let limit: u32 = if bound == 0 {
        1
    } else {
        bound
    };
    let ids = ids_in_range(words, limit);
    let shape = vec![words.len()];
    assert(shape@ =~= seq![words@.len() as usize]);
    proof {
        crate::buffer::lemma_extent1(shape@);
    }
    TypedBuffer::from_u32(shape.as_slice(), ids.as_slice())
}

/// Token ids below the size of a vocabulary.
pub fn token_ids_tensor(words: &[u64], vocab: u32) -> (r: TypedBuffer)
    ensures
        r@ == id_tensor(words@, vocab),
        r.wf(),
{
    make_ids(words, vocab)
}

/// Row indices below a number of rows.
pub fn row_ids_tensor(words: &[u64], rows: u32) -> (r: TypedBuffer)
    ensures
        r@ == id_tensor(words@, rows),
        r.wf(),
{
    make_ids(words, rows)
}

/// Positions below a bound.
pub fn positions_tensor(words: &[u64], max_pos: u32) -> (r: TypedBuffer)
    ensures
        r@ == id_tensor(words@, max_pos),
        r.wf(),
{
    make_ids(words, max_pos)
}

/// At least one.
pub open spec fn or_one(n: int) -> int {
    if n == 0 {
        1
    } else {
        n
    }
}

/// A count, or one in place of zero.
pub fn at_least_one(n: usize) -> (r: usize)
    ensures
        r == or_one(n as int),
{
    if n == 0 {
        1
    } else {
        n
    }
}

/// One scale per token, and at least one.
pub fn per_token_scales<F: Fn(FloatOp, u32, u32) -> u32>(f: &F, words: &[u64], t: usize) -> (r:
    TypedBuffer)
    requires
        is_arith(*f),
        words@.len() == or_one(t as int),
    ensures
        r@ == uniform_tensor(*f, words@, seq![or_one(t as int) as usize], QUARTER, TWO),
        r.wf(),
{
    let n: usize = at_least_one(t);
    let shape = vec![n];
    assert(shape@ =~= seq![n]);
    proof {
        crate::buffer::lemma_extent1(shape@);
    }
    TypedBuffer::from_f32(shape.as_slice(), positive_scales(f, words).as_slice())
}

/// Number of blocks that cover a width, at least one.
pub open spec fn blocks_of(n: int, block: int) -> int {
    or_one((n + block - 1) / block)
}

/// Number of blocks that cover a count, at least one.
pub fn count_blocks(n: usize, block: usize) -> (r: usize)
    requires
        block > 0,
    ensures
        r == blocks_of(n as int, block as int),
{
    proof {
        vstd::arithmetic::div_mod::lemma_fundamental_div_mod(n as int, block as int);
        let q = n as int / block as int;
        let m = n as int % block as int;
        assert(block * q == q * block) by (nonlinear_arith);
        assert((q + 1) * block == q * block + block) by (nonlinear_arith);
        if m == 0 {
            vstd::arithmetic::div_mod::lemma_fundamental_div_mod_converse(
                n + block - 1,
                block as int,
                q,
                block - 1,
            );
        } else {
            vstd::arithmetic::div_mod::lemma_fundamental_div_mod_converse(
                n + block - 1,
                block as int,
                q + 1,
                m - 1,
            );
            vstd::arithmetic::div_mod::lemma_div_is_ordered_by_denominator(
                n as int,
                1,
                block as int,
            );
            if block == 1 {
                assert(m == 0);
            }
            vstd::arithmetic::div_mod::lemma_div_decreases(n as int, block as int);
        }
    }
    if n % block == 0 {
        at_least_one(n / block)
    } else {
        n / block + 1
    }
}

/// One scale per token and block of 32, and at least one.
pub fn per_block_scales<F: Fn(FloatOp, u32, u32) -> u32>(
    f: &F,
    words: &[u64],
    t: usize,
    n: usize,
) -> (r: TypedBuffer)
    requires
        is_arith(*f),
        words@.len() == or_one(t as int) * blocks_of(n as int, 32),
    ensures
        r@ == uniform_tensor(
            *f,
            words@,
            seq![or_one(t as int) as usize, blocks_of(n as int, 32) as usize],
            QUARTER,
            TWO,
        ),
        r.wf(),
{
    let len: usize = words.len();
    let rows: usize = at_least_one(t);
    let blocks: usize = count_blocks(n, 32);
    let shape = vec![rows, blocks];
    assert(shape@ =~= seq![rows, blocks]);
    proof {
        lemma_extent_of_two(rows, blocks);
    }
    TypedBuffer::from_f32(shape.as_slice(), positive_scales(f, words).as_slice())
}

/// The extent of a shape of two dimensions whose product is representable.
pub proof fn lemma_extent_of_two(a: usize, b: usize)
    requires
        a * b <= usize::MAX,
    ensures
        extent(seq![a, b]) == Some((a * b) as usize),
{
    crate::buffer::lemma_extent2(seq![a, b]);
}

/// Half-precision numbers of raw storage; bytes that are missing count as
/// zeros.
pub open spec fn raw_half(bytes: Seq<u8>, i: int) -> u32 {
    let lo = if 2 * i < bytes.len() {
        bytes[2 * i]
    } else {
        0
    };
    let hi = if 2 * i + 1 < bytes.len() {
        bytes[2 * i + 1]
    } else {
        0
    };
    f32_of_f16((lo + 0x100 * hi) as u16)
}

/// Decodes raw half-precision storage.
pub fn bytes_f16_to_f32(buf: &TypedBuffer) -> (r: Vec<u32>)
    requires
        extent(buf.shape@) is Some,
    ensures
        r@ == Seq::new(extent(buf.shape@)->0 as nat, |i: int| raw_half(buf.byte_data@, i)),
{
    let raw = buf.byte_data();
    let len: usize = raw.len();
    let n: usize = buf.num_elements();
    let mut out: Vec<u32> = Vec::new();
    let mut i: usize = 0;
    while i < n
        invariant
            i <= n,
            len == raw@.len(),
            raw@ == buf.byte_data@,
            out@.len() == i,
            forall|j: int| 0 <= j < i ==> out@[j] == raw_half(raw@, j),
        decreases n - i,
    {
        let lo: u8 = if i < len && i <= (len - 1) / 2 {
            raw[2 * i]
        } else {
            0
        };
        let hi: u8 = if i < len && len >= 2 && i <= (len - 2) / 2 {
            raw[2 * i + 1]
        } else {
            0
        };
        out.push(f16_to_f32(lo as u16 + 0x100 * hi as u16));
        i += 1;
    }
    assert(out@ =~= Seq::new(extent(buf.shape@)->0 as nat, |i: int| raw_half(buf.byte_data@, i)));
    out
}

/// The two bytes of each code, lowest first.
pub open spec fn half_bytes(codes: Seq<u16>) -> Seq<u8>
    decreases codes.len(),
{
    if codes.len() == 0 {
        Seq::empty()
    } else {
        half_bytes(codes.drop_last()) + seq![
            (codes.last() % 0x100) as u8,
            (codes.last() / 0x100) as u8,
        ]
    }
}

fn halves_to_bytes(codes: &Vec<u16>) -> (r: Vec<u8>)
    ensures
        r@ == half_bytes(codes@),
        r@.len() == 2 * codes@.len(),
{
    let mut out: Vec<u8> = Vec::new();
    let mut i: usize = 0;
    while i < codes.len()
        invariant
            i <= codes@.len(),
            out@ == half_bytes(codes@.take(i as int)),
            out@.len() == 2 * i,
        decreases codes@.len() - i,
    {
        let ghost before = out@;
        let v: u16 = codes[i];
        out.push((v % 0x100) as u8);
        out.push((v / 0x100) as u8);
        assert(codes@.take(i + 1).drop_last() =~= codes@.take(i as int));
        assert(out@ =~= before + seq![(v % 0x100) as u8, (v / 0x100) as u8]);
        i += 1;
    }
    assert(codes@.take(i as int) =~= codes@);
    out
}

/// Tensor of half-precision numbers between -2 and 2 in raw storage.
pub fn f16_bytes_tensor<F: Fn(FloatOp, u32, u32) -> u32>(
    f: &F,
    words: &[u64],
    shape: &[usize],
) -> (r: TypedBuffer)
    requires
        is_arith(*f),
        extent(shape@) == Some(words@.len() as usize),
    ensures
        ({
            let values = uniforms(*f, words@, MINUS_TWO, TWO);
            r@ == dense(
                shape@,
                Cells::Bytes(
                    DType::F16,
                    half_bytes(Seq::new(values.len(), |i: int| f16_of(values[i]))),
                ),
            )
        }),
        r.wf(),
{
    let len: usize = words.len();
    let bytes = halves_to_bytes(&halves(&activation_values(f, words)));
    TypedBuffer::from_bytes(shape, DType::F16, bytes.as_slice())
}

/// Quantization scheme of a buffer.
pub fn quant_of(buf: &TypedBuffer) -> (r: QuantScheme)
    ensures
        r == buf@.quant,
{
    buf.quant()
}

/// What a tensor is for.
#[derive(Debug, Clone, Copy, PartialEq, Eq, Structural)]
pub enum Class {
    /// Live signal.
    Activation,
    /// Weights.
    Weight,
    /// State from step to step.
    State,
    /// Scratch.
    Staging,
    /// Small values that are fixed with the model.
    Param,
}

/// Number of classes.
pub const CLASS_COUNT: usize = 5;

/// All classes.
pub fn all_classes() -> (r: [Class; 5])
    ensures
        r@ =~= seq![
            Class::Activation,
            Class::Weight,
            Class::State,
            Class::Staging,
            Class::Param,
        ],
{
    [Class::Activation, Class::Weight, Class::State, Class::Staging, Class::Param]
}

/// Tensor of singles between -2 and 2.
pub fn activation_class_tensor<F: Fn(FloatOp, u32, u32) -> u32>(
    f: &F,
    words: &[u64],
    shape: &[usize],
) -> (r: TypedBuffer)
    requires
        is_arith(*f),
        extent(shape@) == Some(words@.len() as usize),
    ensures
        r@ == uniform_tensor(*f, words@, shape@, MINUS_TWO, TWO),
        r.wf(),
{
    activation_tensor(f, words, shape)
}

/// Tensor of singles between -1 and 1.
pub fn weight_class_tensor<F: Fn(FloatOp, u32, u32) -> u32>(
    f: &F,
    words: &[u64],
    shape: &[usize],
) -> (r: TypedBuffer)
    requires
        is_arith(*f),
        extent(shape@) == Some(words@.len() as usize),
    ensures
        r@ == uniform_tensor(*f, words@, shape@, MINUS_ONE, ONE),
        r.wf(),
{
    weight_tensor(f, words, shape)
}

/// State starts as zeros.
pub fn state_class_tensor(shape: &[usize]) -> (r: TypedBuffer)
    requires
        TypedBuffer::zeros_fault(shape@, DType::F32) is None,
    ensures
        r@ == dense(shape@, TypedBuffer::zero_cells(DType::F32, extent(shape@)->0 as int)),
        r.wf(),
{
    TypedBuffer::zeros(shape, DType::F32)
}

/// Scratch starts as zeros.
pub fn staging_class_tensor(shape: &[usize]) -> (r: TypedBuffer)
    requires
        TypedBuffer::zeros_fault(shape@, DType::F32) is None,
    ensures
        r@ == dense(shape@, TypedBuffer::zero_cells(DType::F32, extent(shape@)->0 as int)),
        r.wf(),
{
    TypedBuffer::zeros(shape, DType::F32)
}

/// Tensor of a class. State and scratch need no words.
pub fn class_tensor<F: Fn(FloatOp, u32, u32) -> u32>(
    f: &F,
    words: &[u64],
    class: Class,
    shape: &[usize],
) -> (r: TypedBuffer)
    requires
        is_arith(*f),
        class == Class::State || class == Class::Staging || extent(shape@) == Some(
            words@.len() as usize,
        ),
        TypedBuffer::zeros_fault(shape@, DType::F32) is None,
    ensures
        r@ == (match class {
            Class::Activation => uniform_tensor(*f, words@, shape@, MINUS_TWO, TWO),
            Class::Weight => uniform_tensor(*f, words@, shape@, MINUS_ONE, ONE),
            Class::Param => uniform_tensor(*f, words@, shape@, MINUS_HALF, HALF),
            _ => dense(
                shape@,
                TypedBuffer::zero_cells(DType::F32, extent(shape@)->0 as int),
            ),
        }),
        r.wf(),
{
    match class {
        Class::Activation => activation_class_tensor(f, words, shape),
        Class::Weight => weight_class_tensor(f, words, shape),
        Class::State => state_class_tensor(shape),
        Class::Staging => staging_class_tensor(shape),
        Class::Param => param_class_tensor(f, words, shape),
    }
}

} // verus!
