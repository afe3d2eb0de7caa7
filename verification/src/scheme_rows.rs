//! Seeded rows of quantized weights, as bytes that the decoders take.
use vstd::prelude::*;
use crate::arith::{is_arith, FloatOp};
use crate::buffer::{copy_u32, dense, Cells, Tensor, TypedBuffer};
use crate::dtype::{e4m3_of, f16_of, f32_to_f16, fp8_e4m3_encode, i8_as_byte, unsigned_byte};
use crate::error::FormatError;
use crate::fixtures::{
    at_least_one, blocks_of, count_blocks, lemma_extent_of_two, or_one, symmetric, uniform,
    uniform_tensor, uniform_value, uniforms, positive_scales, MINUS_TWO, QUARTER, TWO,
};
use crate::harness::{HarnessError, HarnessFault};
use crate::ir::{DType, QuantScheme, SchemeId};

verus! {

/// Weight scheme of a format.
#[derive(Debug, Clone, Copy, PartialEq, Eq, Structural)]
pub enum FormatScheme {
    /// Signed bytes with one scale per row.
    I8R,
    /// Signed bytes with one scale per 128 elements.
    I8B128,
    /// E4M3 codes with one scale per 128 elements.
    E4M3B128,
    /// Nibbles with a header per 256 elements.
    I4K,
    /// Five-bit codes in blocks of 256.
    I5K,
    /// Six-bit codes in blocks of 256.
    I6K,
    /// Three-bit codes in blocks of 256.
    I3K,
    /// Two-bit codes in blocks of 256.
    I2K,
    /// Signed bytes in blocks of 32.
    I8B32F,
    /// Nibbles in blocks of 32.
    I4B32F,
    /// Nibbles in blocks of 32, with a minimum.
    I4B32FM,
    /// Five-bit codes in blocks of 32.
    I5B32F,
    /// Five-bit codes in blocks of 32, with a minimum.
    I5B32FM,
    /// Nibbles into a table.
    I4Nl,
    /// Nibbles into a table, in larger blocks.
    I4Xs,
    /// Three bits, smallest.
    Iq3Xxs,
    /// Three bits.
    Iq3S,
    /// Two bits, smallest.
    Iq2Xxs,
    /// Two bits, small.
    Iq2Xs,
    /// Two bits.
    Iq2S,
    /// One bit.
    Iq1S,
    /// One bit, larger.
    Iq1M,
}

/// Elements that share a scale; none for one scale per row.
pub open spec fn block_width(scheme: FormatScheme) -> usize {
    match scheme {
        FormatScheme::I8R => 0,
        FormatScheme::I8B128 | FormatScheme::E4M3B128 => 128,
        FormatScheme::I4K | FormatScheme::I5K | FormatScheme::I6K | FormatScheme::I3K
        | FormatScheme::I2K => 256,
        _ => 32,
    }
}

/// Elements that share a scale; zero for one scale per row.
pub fn scheme_block(scheme: FormatScheme) -> (r: usize)
    ensures
        r == block_width(scheme),
{
    match scheme {
        FormatScheme::I8R => 0,
        FormatScheme::I8B128 | FormatScheme::E4M3B128 => 128,
        FormatScheme::I4K | FormatScheme::I5K | FormatScheme::I6K | FormatScheme::I3K
        | FormatScheme::I2K => 256,
        _ => 32,
    }
}

/// Whether a scheme has a decoder.
pub open spec fn decodes(scheme: FormatScheme) -> bool {
    scheme == FormatScheme::I8R || scheme == FormatScheme::I8B128 || scheme == FormatScheme::I4K
        || scheme == FormatScheme::E4M3B128
}

/// Whether a scheme has a decoder.
pub fn is_natively_decoded(scheme: FormatScheme) -> (r: bool)
    ensures
        r == decodes(scheme),
{
    matches!(
        scheme,
        FormatScheme::I8R | FormatScheme::I8B128 | FormatScheme::I4K | FormatScheme::E4M3B128
    )
}

/// Weights with arbitrary bytes and scales of the right number. Only the schemes
/// with a decoder stand for numbers.
#[derive(Debug)]
pub struct SchemeCarrier {
    /// Value bytes.
    pub values: TypedBuffer,
    /// Scales.
    pub scales: TypedBuffer,
    /// Whether the scheme has a decoder.
    pub native: bool,
}

/// Scales per row.
pub open spec fn scales_in_row(scheme: FormatScheme, cols: int) -> int {
    if block_width(scheme) == 0 {
        1
    } else {
        blocks_of(or_one(cols), block_width(scheme) as int)
    }
}

/// Value bytes: those drawn, or a single zero if there are none.
pub open spec fn carrier_bytes(fill: Seq<u8>) -> Seq<u8> {
    if fill.len() == 0 {
        seq![0u8]
    } else {
        fill
    }
}

/// Weights of a scheme from drawn bytes and words for scales; `id` is the
/// scheme's id.
pub fn scheme_weight_carrier<F: Fn(FloatOp, u32, u32) -> u32>(
    f: &F,
    fill: &[u8],
    words: &[u64],
    scheme: FormatScheme,
    id: SchemeId,
    rows: usize,
    cols: usize,
) -> (r: SchemeCarrier)
    requires
        is_arith(*f),
        fill@.len() == rows * cols,
        or_one(rows as int) * or_one(cols as int) == or_one(rows * cols),
        words@.len() == or_one(rows as int) * scales_in_row(scheme, cols as int),
    ensures
        ({
            let shape = seq![or_one(rows as int) as usize, or_one(cols as int) as usize];
            let dtype = if scheme == FormatScheme::E4M3B128 {
                DType::E4m3
            } else {
                DType::I8
            };
            &&& r.values@ == (Tensor {
                quant: QuantScheme::Scheme(id),
                ..dense(shape, Cells::Bytes(dtype, carrier_bytes(fill@)))
            })
            &&& r.scales@ == uniform_tensor(
                *f,
                words@,
                seq![
                    or_one(rows as int) as usize,
                    scales_in_row(scheme, cols as int) as usize,
                ],
                QUARTER,
                TWO,
            )
            &&& r.native == decodes(scheme)
        }),
        r.values.wf(),
        r.scales.wf(),
{
    let fill_len: usize = fill.len();
    let words_len: usize = words.len();
    let h: usize = at_least_one(rows);
    let w: usize = at_least_one(cols);
    let dtype = match scheme {
        FormatScheme::E4M3B128 => DType::E4m3,
        _ => DType::I8,
    };
    let shape = vec![h, w];
    assert(shape@ =~= seq![h, w]);
    let mut bytes: Vec<u8> = Vec::new();
    if fill_len == 0 {
        bytes.push(0);
    } else {
        let mut i: usize = 0;
        while i < fill_len
            invariant
                i <= fill_len,
                fill_len == fill@.len(),
                bytes@ =~= fill@.take(i as int),
            decreases fill_len - i,
        {
            bytes.push(fill[i]);
            i += 1;
        }
    }
    assert(bytes@ =~= carrier_bytes(fill@));
    proof {
        lemma_extent_of_two(h, w);
    }
    let values = TypedBuffer::from_bytes(shape.as_slice(), dtype, bytes.as_slice()).with_quant(
        QuantScheme::Scheme(id),
    );
    let block: usize = scheme_block(scheme);
    let per_row: usize = if block == 0 {
        1
    } else {
        count_blocks(w, block)
    };
    let scale_shape = vec![h, per_row];
    assert(scale_shape@ =~= seq![h, per_row]);
    proof {
        lemma_extent_of_two(h, per_row);
    }
    let scales = TypedBuffer::from_f32(scale_shape.as_slice(), positive_scales(f, words).as_slice());
    SchemeCarrier { values, scales, native: is_natively_decoded(scheme) }
}

/// Weights for a foreign type: those of its scheme, or none if it is not
/// quantized.
pub fn carrier_for_ggml<F: Fn(FloatOp, u32, u32) -> u32>(
    f: &F,
    fill: &[u8],
    words: &[u64],
    scheme: Option<(FormatScheme, SchemeId)>,
    rows: usize,
    cols: usize,
) -> (r: Option<SchemeCarrier>)
    requires
        is_arith(*f),
        scheme matches Some(s) ==> {
            &&& fill@.len() == rows * cols
            &&& or_one(rows as int) * or_one(cols as int) == or_one(rows * cols)
            &&& words@.len() == or_one(rows as int) * scales_in_row(s.0, cols as int)
        },
    ensures
        r is Some <==> scheme is Some,
        r matches Some(c) ==> {
            let s = scheme->0;
            let shape = seq![or_one(rows as int) as usize, or_one(cols as int) as usize];
            let dtype = if s.0 == FormatScheme::E4M3B128 {
                DType::E4m3
            } else {
                DType::I8
            };
            &&& c.values@ == (Tensor {
                quant: QuantScheme::Scheme(s.1),
                ..dense(shape, Cells::Bytes(dtype, carrier_bytes(fill@)))
            })
            &&& c.scales@ == uniform_tensor(
                *f,
                words@,
                seq![
                    or_one(rows as int) as usize,
                    scales_in_row(s.0, cols as int) as usize,
                ],
                QUARTER,
                TWO,
            )
            &&& c.native == decodes(s.0)
        },
{
    match scheme {
        Some((s, id)) => Some(scheme_weight_carrier(f, fill, words, s, id, rows, cols)),
        None => None,
    }
}

/// Bytes of a row with its scale records behind it; none for a scheme without a
/// decoder or a row that is too long.
pub open spec fn row_stride(scheme: FormatScheme, cols: int) -> Option<int> {
    let n = match scheme {
        FormatScheme::I8R => Some(cols + 2),
        FormatScheme::I8B128 | FormatScheme::E4M3B128 => Some(cols + cols / 128 * 2),
        FormatScheme::I4K => Some(cols / 2 + cols / 256 * 16),
        _ => None,
    };
    match n {
        Some(v) if v <= usize::MAX => Some(v),
        _ => None,
    }
}

/// Computes the bytes of a row with its scale records behind it.
pub fn native_l0_stride(scheme: FormatScheme, cols: usize) -> (r: Option<usize>)
    ensures
        match row_stride(scheme, cols as int) {
            Some(v) => r == Some(v as usize),
            None => r is None,
        },
{
    match scheme {
        FormatScheme::I8R => cols.checked_add(2),
        FormatScheme::I8B128 | FormatScheme::E4M3B128 => cols.checked_add(cols / 128 * 2),
        FormatScheme::I4K => (cols / 2).checked_add(cols / 256 * 16),
        _ => None,
    }
}

/// Words that one row draws.
pub open spec fn words_in_row(scheme: FormatScheme, cols: int) -> int {
    match scheme {
        FormatScheme::I8R => cols + 1,
        FormatScheme::I4K => cols / 256 * 274,
        _ => cols + cols / 128,
    }
}

/// The two bytes of the half-precision code of a scale.
pub open spec fn scale_record<F: Fn(FloatOp, u32, u32) -> u32>(f: F, word: u64) -> Seq<u8> {
    let code = f16_of(uniform(f, word, QUARTER, TWO));
    seq![(code % 0x100) as u8, (code / 0x100) as u8]
}

/// Records of the first scales of a row.
pub open spec fn scale_records<F: Fn(FloatOp, u32, u32) -> u32>(
    f: F,
    words: Seq<u64>,
    n: int,
) -> Seq<u8>
    decreases n,
{
    if n <= 0 {
        Seq::empty()
    } else {
        scale_records(f, words, n - 1) + scale_record(f, words[n - 1])
    }
}

/// Code of an element of a row of bytes.
pub open spec fn code_of<F: Fn(FloatOp, u32, u32) -> u32>(
    f: F,
    scheme: FormatScheme,
    word: u64,
) -> u8 {
    if scheme == FormatScheme::E4M3B128 {
        e4m3_of(uniform(f, word, MINUS_TWO, TWO))
    } else {
        i8_as_byte(symmetric(word))
    }
}

/// Row of byte codes with its scale records behind it. The first words are for
/// the elements, the others for the scales.
pub open spec fn byte_row<F: Fn(FloatOp, u32, u32) -> u32>(
    f: F,
    scheme: FormatScheme,
    words: Seq<u64>,
    cols: int,
) -> Seq<u8> {
    Seq::new(cols as nat, |c: int| code_of(f, scheme, words[c])) + scale_records(
        f,
        words.skip(cols),
        words.len() - cols,
    )
}

fn push_scale<F: Fn(FloatOp, u32, u32) -> u32>(f: &F, out: &mut Vec<u8>, word: u64) -> (r: u32)
    requires
        is_arith(*f),
    ensures
        final(out)@ == old(out)@ + scale_record(*f, word),
        r == uniform(*f, word, QUARTER, TWO),
{
    let s: u32 = uniform_value(f, word, QUARTER, TWO);
    let code: u16 = f32_to_f16(s);
    out.push((code % 0x100) as u8);
    out.push((code / 0x100) as u8);
    assert(out@ =~= old(out)@ + scale_record(*f, word));
    s
}

/// Appends a row of byte codes; gives its scales.
fn push_byte_row<F: Fn(FloatOp, u32, u32) -> u32>(
    f: &F,
    out: &mut Vec<u8>,
    scheme: FormatScheme,
    words: &[u64],
    cols: usize,
) -> (r: Vec<u32>)
    requires
        is_arith(*f),
        cols <= words@.len(),
    ensures
        final(out)@ == old(out)@ + byte_row(*f, scheme, words@, cols as int),
        r@ == uniforms(*f, words@.skip(cols as int), QUARTER, TWO),
{
    let ghost start = out@;
    let ghost codes = Seq::new(cols as nat, |c: int| code_of(*f, scheme, words@[c]));
    let ghost rest = words@.skip(cols as int);
    let mut c: usize = 0;
    while c < cols
        invariant
            is_arith(*f),
            c <= cols <= words@.len(),
            codes == Seq::new(cols as nat, |c: int| code_of(*f, scheme, words@[c])),
            out@ =~= start + codes.take(c as int),
        decreases cols - c,
    {
        let code: u8 = if scheme == FormatScheme::E4M3B128 {
            fp8_e4m3_encode(uniform_value(f, words[c], MINUS_TWO, TWO))
        } else {
            unsigned_byte(((words[c] % 255) as i64 - 127) as i8)
        };
        assert(code == codes[c as int]);
        out.push(code);
        c += 1;
    }
    assert(codes.take(c as int) =~= codes);
    let mut scales: Vec<u32> = Vec::new();
    let mut b: usize = cols;
    assert(out@ =~= start + codes + scale_records(*f, rest, 0));
    while b < words.len()
        invariant
            is_arith(*f),
            cols <= b <= words@.len(),
            rest == words@.skip(cols as int),
            out@ == start + codes + scale_records(*f, rest, b - cols),
            scales@.len() == b - cols,
            forall|j: int|
                0 <= j < scales@.len() ==> scales@[j] == uniform(*f, rest[j], QUARTER, TWO),
        decreases words@.len() - b,
    {
        let s: u32 = push_scale(f, out, words[b]);
        scales.push(s);
        assert(rest[b - cols] == words@[b as int]);
        b += 1;
        assert(out@ =~= start + codes + scale_records(*f, rest, b - cols));
    }
    assert(out@ =~= start + byte_row(*f, scheme, words@, cols as int));
    assert(scales@ =~= uniforms(*f, rest, QUARTER, TWO));
    scales
}

/// First rows of byte codes.
pub open spec fn byte_rows<F: Fn(FloatOp, u32, u32) -> u32>(
    f: F,
    scheme: FormatScheme,
    words: Seq<u64>,
    cols: int,
    rows: int,
) -> Seq<u8>
    decreases rows,
{
    if rows <= 0 {
        Seq::empty()
    } else {
        let n = words_in_row(scheme, cols);
        byte_rows(f, scheme, words, cols, rows - 1) + byte_row(
            f,
            scheme,
            words.subrange((rows - 1) * n, (rows - 1) * n + n),
            cols,
        )
    }
}

/// Scales of the first rows that have one each.
pub open spec fn row_scales<F: Fn(FloatOp, u32, u32) -> u32>(
    f: F,
    words: Seq<u64>,
    cols: int,
    rows: int,
) -> Seq<u32> {
    Seq::new(rows as nat, |r: int| uniform(f, words[r * (cols + 1) + cols], QUARTER, TWO))
}

/// Rows of signed bytes, each with one scale behind it; gives the scales too.
pub fn i8r_l0_weight<F: Fn(FloatOp, u32, u32) -> u32>(
    f: &F,
    words: &[u64],
    rows: usize,
    cols: usize,
) -> (r: (Vec<u8>, Vec<u32>))
    requires
        is_arith(*f),
        words@.len() == rows * (cols + 1),
    ensures
        r.0@ == byte_rows(*f, FormatScheme::I8R, words@, cols as int, rows as int),
        r.1@ == row_scales(*f, words@, cols as int, rows as int),
{
    let len: usize = words.len();
    let mut bytes: Vec<u8> = Vec::new();
    let mut scales: Vec<u32> = Vec::new();
    let mut r: usize = 0;
    while r < rows
        invariant
            is_arith(*f),
            r <= rows,
            len == words@.len(),
            words@.len() == rows * (cols + 1),
            bytes@ == byte_rows(*f, FormatScheme::I8R, words@, cols as int, r as int),
            scales@.len() == r,
            forall|i: int|
                0 <= i < r ==> scales@[i] == row_scales(*f, words@, cols as int, rows as int)[i],
        decreases rows - r,
    {
        proof {
            assert(0 <= r * (cols + 1) && r * (cols + 1) + (cols + 1) <= rows * (cols + 1))
                by (nonlinear_arith)
                requires
                    0 <= r < rows,
                    0 <= cols,
            ;
        }
        let n: usize = cols + 1;
        let part = vstd::slice::slice_subrange(words, r * n, r * n + n);
        let mut s = push_byte_row(f, &mut bytes, FormatScheme::I8R, part, cols);
        assert(part@.skip(cols as int)[0] == words@[r * (cols + 1) + cols]);
        assert(s@.len() == 1);
        scales.append(&mut s);
        r += 1;
    }
    assert(scales@ =~= row_scales(*f, words@, cols as int, rows as int));
    (bytes, scales)
}

/// Fields of the header of a block of nibbles.
#[derive(Debug, Clone, Copy, PartialEq, Eq, Structural)]
pub struct NibbleHeader {
    /// Half-precision code of the scale.
    pub d: u16,
    /// Half-precision code of the minimum.
    pub dmin: u16,
    /// Scale factors of the eight parts, lowest byte first.
    pub scales: u64,
    /// Minimum factors of the eight parts, lowest byte first.
    pub mins: u64,
}

/// Whether headers can be packed whatever their fields, and a header depends on
/// its fields alone.
pub open spec fn is_packer<P: Fn(NibbleHeader) -> Result<u128, FormatError>>(p: P) -> bool {
    &&& forall|h: NibbleHeader| #[trigger] p.requires((h,))
    &&& forall|h: NibbleHeader, a: Result<u128, FormatError>, b: Result<u128, FormatError>|
        #[trigger] p.ensures((h,), a) && #[trigger] p.ensures((h,), b) ==> a == b
}

/// The packed header, or the error of its fields.
pub open spec fn packed<P: Fn(NibbleHeader) -> Result<u128, FormatError>>(
    p: P,
    h: NibbleHeader,
) -> Result<u128, FormatError> {
    choose|r: Result<u128, FormatError>| p.ensures((h,), r)
}

/// Eight factors below 64, one per word, lowest byte first.
pub open spec fn factors(words: Seq<u64>, from: int, n: int) -> int
    decreases n,
{
    if n <= 0 {
        0
    } else {
        factors(words, from, n - 1) + (words[from + n - 1] % 64) * byte_weight(n - 1)
    }
}

/// 256 to the power of `n`.
pub open spec fn byte_weight(n: int) -> int
    decreases n,
{
    if n <= 0 {
        1
    } else {
        0x100 * byte_weight(n - 1)
    }
}

fn read_factors(words: &[u64], from: usize) -> (r: u64)
    requires
        from + 8 <= words@.len(),
    ensures
        r == factors(words@, from as int, 8),
{
    let len: usize = words.len();
    let mut r: u64 = 0;
    let mut w: u64 = 1;
    let mut k: usize = 0;
    while k < 8
        invariant
            k <= 8,
            len == words@.len(),
            from + 8 <= words@.len(),
            r == factors(words@, from as int, k as int),
            k < 8 ==> w == byte_weight(k as int),
            k < 8 ==> w <= 0x100_0000_0000_0000,
            r < 0x100_0000_0000_0000 || k == 8,
            r < w || k == 8,
            k == 8 ==> r <= u64::MAX,
            k < 8 ==> w == 1 || w == 0x100 || w == 0x1_0000 || w == 0x100_0000 || w == 0x1_0000_0000
                || w == 0x100_0000_0000 || w == 0x1_0000_0000_0000 || w == 0x100_0000_0000_0000,
            k == 0 ==> w == 1,
            k == 1 ==> w == 0x100,
            k == 2 ==> w == 0x1_0000,
            k == 3 ==> w == 0x100_0000,
            k == 4 ==> w == 0x1_0000_0000,
            k == 5 ==> w == 0x100_0000_0000,
            k == 6 ==> w == 0x1_0000_0000_0000,
            k == 7 ==> w == 0x100_0000_0000_0000,
        decreases 8 - k,
    {
        let v: u64 = words[from + k] % 64;
        assert(v * w <= 63 * w && 0 <= v * w) by (nonlinear_arith)
            requires
                0 <= v <= 63,
                0 <= w,
        ;
        r = r + v * w;
        k += 1;
        if k < 8 {
            w = w * 0x100;
        }
    }
    r
}

/// Fields of the header that a block's words give: behind 256 words for the
/// nibbles come one each for scale and minimum and eight each for their
/// factors.
pub open spec fn header_of<F: Fn(FloatOp, u32, u32) -> u32>(f: F, words: Seq<u64>, base: int) -> NibbleHeader {
    NibbleHeader {
        d: f16_of(uniform(f, words[base + 256], QUARTER, TWO)),
        dmin: f16_of(uniform(f, words[base + 257], QUARTER, TWO)),
        scales: factors(words, base + 258, 8) as u64,
        mins: factors(words, base + 266, 8) as u64,
    }
}

/// Byte of two nibbles, the first in the low half.
pub open spec fn nibble_pair(a: u64, b: u64) -> u8 {
    (a % 16 + 16 * (b % 16)) as u8
}

/// Nibbles of the first blocks of a row.
pub open spec fn nibble_bytes(words: Seq<u64>, blocks: int) -> Seq<u8> {
    Seq::new(
        (blocks * 128) as nat,
        |i: int|
            nibble_pair(
                words[i / 128 * 274 + 2 * (i % 128)],
                words[i / 128 * 274 + 2 * (i % 128) + 1],
            ),
    )
}

/// The sixteen bytes of a header, lowest first.
pub open spec fn header_bytes(h: u128) -> Seq<u8> {
    Seq::new(16, |i: int| (h as int / byte_weight(i) % 0x100) as u8)
}

/// Headers of the first blocks of a row, or the first error.
pub open spec fn headers<
    F: Fn(FloatOp, u32, u32) -> u32,
    P: Fn(NibbleHeader) -> Result<u128, FormatError>,
>(f: F, p: P, words: Seq<u64>, blocks: int) -> Result<Seq<u8>, FormatError>
    decreases blocks,
{
    if blocks <= 0 {
        Ok(Seq::empty())
    } else {
        match headers(f, p, words, blocks - 1) {
            Err(e) => Err(e),
            Ok(s) => match packed(p, header_of(f, words, (blocks - 1) * 274)) {
                Err(e) => Err(e),
                Ok(h) => Ok(s + header_bytes(h)),
            },
        }
    }
}

proof fn lemma_headers_prefix<
    F: Fn(FloatOp, u32, u32) -> u32,
    P: Fn(NibbleHeader) -> Result<u128, FormatError>,
>(f: F, p: P, words: Seq<u64>, n: int, m: int)
    requires
        n <= m,
        headers(f, p, words, n) is Err,
    ensures
        headers(f, p, words, m) == headers(f, p, words, n),
    decreases m - n,
{
    if n < m {
        lemma_headers_prefix(f, p, words, n, m - 1);
    }
}

fn push_header(out: &mut Vec<u8>, h: u128)
    ensures
        final(out)@ == old(out)@ + header_bytes(h),
{
    let ghost start = out@;
    let mut rest: u128 = h;
    let mut k: usize = 0;
    assert(byte_weight(0) == 1);
    while k < 16
        invariant
            k <= 16,
            rest == h as int / byte_weight(k as int),
            byte_weight(k as int) > 0,
            out@ =~= start + header_bytes(h).take(k as int),
        decreases 16 - k,
    {
        out.push((rest % 0x100) as u8);
        proof {
            vstd::arithmetic::div_mod::lemma_div_denominator(
                h as int,
                byte_weight(k as int),
                0x100,
            );
            assert(byte_weight(k + 1) == byte_weight(k as int) * 0x100) by {
                assert(byte_weight(k + 1) == 0x100 * byte_weight(k as int));
            }
        }
        rest = rest / 0x100;
        k += 1;
    }
    assert(header_bytes(h).take(k as int) =~= header_bytes(h));
}

/// Row of nibbles with its headers behind it, or the error of a header.
pub open spec fn nibble_row<
    F: Fn(FloatOp, u32, u32) -> u32,
    P: Fn(NibbleHeader) -> Result<u128, FormatError>,
>(f: F, p: P, words: Seq<u64>, blocks: int) -> Result<Seq<u8>, FormatError> {
    match headers(f, p, words, blocks) {
        Err(e) => Err(e),
        Ok(s) => Ok(nibble_bytes(words, blocks) + s),
    }
}

/// Appends a row of nibbles with its headers behind it.
fn pack_i4k_row<
    F: Fn(FloatOp, u32, u32) -> u32,
    P: Fn(NibbleHeader) -> Result<u128, FormatError>,
>(f: &F, p: &P, out: &mut Vec<u8>, words: &[u64], blocks: usize) -> (r: Result<(), FormatError>)
    requires
        is_arith(*f),
        is_packer(*p),
        words@.len() == blocks * 274,
    ensures
        match nibble_row(*f, *p, words@, blocks as int) {
            Err(e) => r == Err::<(), FormatError>(e),
            Ok(s) => r is Ok && final(out)@ == old(out)@ + s,
        },
{
    let len: usize = words.len();
    let ghost start = out@;
    let ghost all = nibble_bytes(words@, blocks as int);
    let n: usize = blocks * 128;
    let mut i: usize = 0;
    while i < n
        invariant
            i <= n,
            n == blocks * 128,
            len == words@.len(),
            words@.len() == blocks * 274,
            all == nibble_bytes(words@, blocks as int),
            out@ =~= start + all.take(i as int),
        decreases n - i,
    {
        let base: usize = i / 128 * 274 + 2 * (i % 128);
        let a: u64 = words[base];
        let b: u64 = words[base + 1];
        out.push((a % 16 + 16 * (b % 16)) as u8);
        i += 1;
    }
    assert(all.take(i as int) =~= all);
    let mut block: usize = 0;
    assert(out@ =~= start + all + Seq::<u8>::empty());
    while block < blocks
        invariant
            is_arith(*f),
            is_packer(*p),
            block <= blocks,
            len == words@.len(),
            words@.len() == blocks * 274,
            headers(*f, *p, words@, block as int) is Ok,
            out@ == start + all + headers(*f, *p, words@, block as int)->Ok_0,
        decreases blocks - block,
    {
        let base: usize = block * 274;
        let h = NibbleHeader {
            d: f32_to_f16(uniform_value(f, words[base + 256], QUARTER, TWO)),
            dmin: f32_to_f16(uniform_value(f, words[base + 257], QUARTER, TWO)),
            scales: read_factors(words, base + 258),
            mins: read_factors(words, base + 266),
        };
        assert(h == header_of(*f, words@, block * 274));
        match p(h) {
            Ok(bits) => {
                assert(packed(*p, h) == Ok::<u128, FormatError>(bits));
                let ghost before = out@;
                push_header(out, bits);
                assert(out@ =~= start + all + headers(*f, *p, words@, block + 1)->Ok_0);
            },
            Err(e) => {
                assert(packed(*p, h) == Err::<u128, FormatError>(e));
                proof {
                    lemma_headers_prefix(*f, *p, words@, block + 1, blocks as int);
                }
                return Err(e);
            },
        }
        block += 1;
    }
    assert(out@ =~= start + (all + headers(*f, *p, words@, blocks as int)->Ok_0));
    Ok(())
}

/// Weights with the numbers that they stand for.
#[derive(Debug)]
pub struct NativeL0Weight {
    /// Rows of bytes with their scale records.
    pub values: TypedBuffer,
    /// Numbers of all rows.
    pub expected: Vec<u32>,
}

impl Clone for NativeL0Weight {
    fn clone(&self) -> (r: Self)
        ensures
            r.values@ == self.values@,
            r.values.dtype == self.values.dtype,
            r.values.same_storage(&self.values),
            r.expected@ == self.expected@,
    {
        NativeL0Weight { values: self.values.clone(), expected: copy_u32(&self.expected) }
    }
}

/// Value of the result of a decoder.
pub open spec fn numbers(r: Result<Vec<u32>, FormatError>) -> Result<Seq<u32>, FormatError> {
    match r {
        Ok(v) => Ok(v@),
        Err(e) => Err(e),
    }
}

/// Whether a decoder takes any row, and its result depends on the bytes and the
/// number of columns alone.
pub open spec fn is_decoder<O: Fn(&[u8], usize) -> Result<Vec<u32>, FormatError>>(o: O) -> bool {
    &&& forall|b: &[u8], c: usize| #[trigger] o.requires((b, c))
    &&& forall|
        a: &[u8],
        b: &[u8],
        c: usize,
        x: Result<Vec<u32>, FormatError>,
        y: Result<Vec<u32>, FormatError>,
    |
        #![trigger o.ensures((a, c), x), o.ensures((b, c), y)]
        o.ensures((a, c), x) && o.ensures((b, c), y) && a@ == b@ ==> numbers(x) == numbers(y)
}

/// Whether a decoder may give a result for a row.
pub open spec fn may_decode<O: Fn(&[u8], usize) -> Result<Vec<u32>, FormatError>>(
    o: O,
    bytes: Seq<u8>,
    cols: usize,
    r: Result<Seq<u32>, FormatError>,
) -> bool {
    exists|b: &[u8], v: Result<Vec<u32>, FormatError>| #[trigger]
        o.ensures((b, cols), v) && b@ == bytes && numbers(v) == r
}

/// Numbers that a decoder gives for a row, or its error.
pub open spec fn decoded<O: Fn(&[u8], usize) -> Result<Vec<u32>, FormatError>>(
    o: O,
    bytes: Seq<u8>,
    cols: usize,
) -> Result<Seq<u32>, FormatError> {
    choose|r: Result<Seq<u32>, FormatError>| may_decode(o, bytes, cols, r)
}

fn decode_row<O: Fn(&[u8], usize) -> Result<Vec<u32>, FormatError>>(
    o: &O,
    bytes: &[u8],
    cols: usize,
) -> (r: Result<Vec<u32>, FormatError>)
    requires
        is_decoder(*o),
    ensures
        numbers(r) == decoded(*o, bytes@, cols),
{
    let r = o(bytes, cols);
    assert(o.ensures((bytes, cols), r));
    assert(may_decode(*o, bytes@, cols, numbers(r)));
    r
}

/// A row of a scheme, or the error of a header.
pub open spec fn scheme_row<
    F: Fn(FloatOp, u32, u32) -> u32,
    P: Fn(NibbleHeader) -> Result<u128, FormatError>,
>(f: F, p: P, scheme: FormatScheme, words: Seq<u64>, cols: int) -> Result<Seq<u8>, FormatError> {
    if scheme == FormatScheme::I4K {
        nibble_row(f, p, words, cols / 256)
    } else {
        Ok(byte_row(f, scheme, words, cols))
    }
}

/// Words of a row.
pub open spec fn row_words(scheme: FormatScheme, words: Seq<u64>, cols: int, row: int) -> Seq<u64> {
    let n = words_in_row(scheme, cols);
    words.subrange(row * n, row * n + n)
}

/// Bytes and numbers of the first rows, or the first error.
pub open spec fn built_rows<
    F: Fn(FloatOp, u32, u32) -> u32,
    P: Fn(NibbleHeader) -> Result<u128, FormatError>,
    O: Fn(&[u8], usize) -> Result<Vec<u32>, FormatError>,
>(f: F, p: P, o: O, scheme: FormatScheme, words: Seq<u64>, cols: usize, rows: int) -> Result<
    (Seq<u8>, Seq<u32>),
    FormatError,
>
    decreases rows,
{
    if rows <= 0 {
        Ok((Seq::empty(), Seq::empty()))
    } else {
        match built_rows(f, p, o, scheme, words, cols, rows - 1) {
            Err(e) => Err(e),
            Ok((bytes, expected)) => match scheme_row(
                f,
                p,
                scheme,
                row_words(scheme, words, cols as int, rows - 1),
                cols as int,
            ) {
                Err(e) => Err(e),
                Ok(row) => match decoded(o, row, cols) {
                    Err(e) => Err(e),
                    Ok(values) => Ok((bytes + row, expected + values)),
                },
            },
        }
    }
}

proof fn lemma_built_prefix<
    F: Fn(FloatOp, u32, u32) -> u32,
    P: Fn(NibbleHeader) -> Result<u128, FormatError>,
    O: Fn(&[u8], usize) -> Result<Vec<u32>, FormatError>,
>(
    f: F,
    p: P,
    o: O,
    scheme: FormatScheme,
    words: Seq<u64>,
    cols: usize,
    n: int,
    m: int,
)
    requires
        n <= m,
        built_rows(f, p, o, scheme, words, cols, n) is Err,
    ensures
        built_rows(f, p, o, scheme, words, cols, m) == built_rows(
            f,
            p,
            o,
            scheme,
            words,
            cols,
            n,
        ),
    decreases m - n,
{
    if n < m {
        lemma_built_prefix(f, p, o, scheme, words, cols, n, m - 1);
    }
}

/// Why a scheme has no rows of a width, if it has none.
pub open spec fn width_fault(scheme: FormatScheme, cols: int) -> Option<HarnessFault> {
    let fault = |detail: &'static str| Some(HarnessFault::UnsupportedScheme { scheme, detail });
    match scheme {
        FormatScheme::I8R => if row_stride(scheme, cols) is None {
            fault("stride overflow")
        } else {
            None
        },
        FormatScheme::I8B128 => if cols % 128 != 0 {
            fault("I8B128 needs cols % 128 == 0")
        } else if row_stride(scheme, cols) is None {
            fault("stride overflow")
        } else {
            None
        },
        FormatScheme::E4M3B128 => if cols % 128 != 0 {
            fault("E4M3B128 needs cols % 128 == 0")
        } else if row_stride(scheme, cols) is None {
            fault("stride overflow")
        } else {
            None
        },
        FormatScheme::I4K => if cols % 256 != 0 {
            fault("I4K needs cols % 256 == 0")
        } else if row_stride(scheme, cols) is None {
            fault("stride overflow")
        } else {
            None
        },
        _ => fault(
            "only I8R, I8B128, I4K, E4M3B128 have T0 decode paths; repack/IQ carriers are geometry fixtures, not wire records",
        ),
    }
}

fn check_width(scheme: FormatScheme, cols: usize) -> (r: Result<usize, HarnessError>)
    ensures
        match width_fault(scheme, cols as int) {
            Some(e) => r is Err && r->Err_0@ == e,
            None => r is Ok && row_stride(scheme, cols as int) == Some(r->Ok_0 as int),
        },
{
    let uneven: Option<&'static str> = match scheme {
        FormatScheme::I8R => None,
        FormatScheme::I8B128 => if cols % 128 != 0 {
            Some("I8B128 needs cols % 128 == 0")
        } else {
            None
        },
        FormatScheme::E4M3B128 => if cols % 128 != 0 {
            Some("E4M3B128 needs cols % 128 == 0")
        } else {
            None
        },
        FormatScheme::I4K => if cols % 256 != 0 {
            Some("I4K needs cols % 256 == 0")
        } else {
            None
        },
        _ => Some(
            "only I8R, I8B128, I4K, E4M3B128 have T0 decode paths; repack/IQ carriers are geometry fixtures, not wire records",
        ),
    };
    match uneven {
        Some(detail) => {
            return Err(HarnessError::UnsupportedScheme { scheme, detail });
        },
        None => {},
    }
    match native_l0_stride(scheme, cols) {
        Some(n) => Ok(n),
        None => Err(HarnessError::UnsupportedScheme { scheme, detail: "stride overflow" }),
    }
}

/// Type of a scheme's elements.
pub open spec fn scheme_dtype(scheme: FormatScheme) -> DType {
    match scheme {
        FormatScheme::E4M3B128 => DType::E4m3,
        FormatScheme::I4K => DType::I4,
        _ => DType::I8,
    }
}

proof fn lemma_records_len<F: Fn(FloatOp, u32, u32) -> u32>(f: F, words: Seq<u64>, n: int)
    requires
        0 <= n,
    ensures
        scale_records(f, words, n).len() == 2 * n,
    decreases n,
{
    if n > 0 {
        lemma_records_len(f, words, n - 1);
    }
}

proof fn lemma_headers_len<
    F: Fn(FloatOp, u32, u32) -> u32,
    P: Fn(NibbleHeader) -> Result<u128, FormatError>,
>(f: F, p: P, words: Seq<u64>, blocks: int)
    requires
        0 <= blocks,
        headers(f, p, words, blocks) is Ok,
    ensures
        headers(f, p, words, blocks)->Ok_0.len() == 16 * blocks,
    decreases blocks,
{
    if blocks > 0 {
        lemma_headers_len(f, p, words, blocks - 1);
    }
}

/// Every row of a scheme has the scheme's stride.
pub proof fn law_row_stride<
    F: Fn(FloatOp, u32, u32) -> u32,
    P: Fn(NibbleHeader) -> Result<u128, FormatError>,
>(f: F, p: P, scheme: FormatScheme, words: Seq<u64>, cols: int)
    requires
        0 <= cols,
        width_fault(scheme, cols) is None,
        words.len() == words_in_row(scheme, cols),
        scheme_row(f, p, scheme, words, cols) is Ok,
    ensures
        row_stride(scheme, cols) == Some(
            scheme_row(f, p, scheme, words, cols)->Ok_0.len() as int,
        ),
{
    if scheme == FormatScheme::I4K {
        lemma_headers_len(f, p, words, cols / 256);
    } else {
        lemma_records_len(f, words.skip(cols), words.len() - cols);
    }
}

/// Weights of one of the schemes with a decoder, with the numbers that the
/// decoder gives for them. `pack` packs headers, `decode` decodes a row, `id` is
/// the scheme's id.
pub fn native_l0_weight<
    F: Fn(FloatOp, u32, u32) -> u32,
    P: Fn(NibbleHeader) -> Result<u128, FormatError>,
    O: Fn(&[u8], usize) -> Result<Vec<u32>, FormatError>,
>(
    f: &F,
    pack: &P,
    decode: &O,
    words: &[u64],
    scheme: FormatScheme,
    id: SchemeId,
    rows: usize,
    cols: usize,
) -> (r: Result<NativeL0Weight, HarnessError>)
    requires
        is_arith(*f),
        is_packer(*pack),
        is_decoder(*decode),
        width_fault(scheme, cols as int) is None ==> {
            &&& rows > 0
            &&& scheme == FormatScheme::I8R || cols > 0
            &&& words@.len() == rows * words_in_row(scheme, cols as int)
            &&& rows * or_one(cols as int) <= usize::MAX
            &&& rows * row_stride(scheme, cols as int)->0 <= usize::MAX
        },
    ensures
        match width_fault(scheme, cols as int) {
            Some(e) => r is Err && r->Err_0@ == e,
            None => match built_rows(*f, *pack, *decode, scheme, words@, cols, rows as int) {
                Err(e) => r is Err && r->Err_0@ == HarnessFault::Format(e),
                Ok((bytes, expected)) => {
                    &&& r is Ok
                    &&& r->Ok_0.values@ == (Tensor {
                        quant: QuantScheme::Scheme(id),
                        ..dense(
                            seq![rows, or_one(cols as int) as usize],
                            Cells::Bytes(scheme_dtype(scheme), bytes),
                        )
                    })
                    &&& r->Ok_0.expected@ == expected
                },
            },
        },
{
    let stride: usize = match check_width(scheme, cols) {
        Ok(n) => n,
        Err(e) => {
            return Err(e);
        },
    };
    let len: usize = words.len();
    let ghost n = words_in_row(scheme, cols as int);
    let mut bytes: Vec<u8> = Vec::new();
    let mut expected: Vec<u32> = Vec::new();
    let mut row: usize = 0;
    assert(0 * stride == 0) by (nonlinear_arith);
    while row < rows
        invariant
            is_arith(*f),
            is_packer(*pack),
            is_decoder(*decode),
            row <= rows,
            len == words@.len(),
            n == words_in_row(scheme, cols as int),
            words@.len() == rows * n,
            width_fault(scheme, cols as int) is None,
            row_stride(scheme, cols as int) == Some(stride as int),
            rows * stride <= usize::MAX,
            built_rows(*f, *pack, *decode, scheme, words@, cols, row as int) == Ok::<
                (Seq<u8>, Seq<u32>),
                FormatError,
            >((bytes@, expected@)),
            bytes@.len() == row * stride,
        decreases rows - row,
    {
        proof {
            assert(0 <= n <= len && 0 <= row * n && row * n + n <= rows * n) by (nonlinear_arith)
                requires
                    0 <= row < rows,
                    0 <= n,
                    len == rows * n,
            ;
            assert((row + 1) * stride == row * stride + stride) by (nonlinear_arith);
        }
        let per_row: usize = match scheme {
            FormatScheme::I8R => cols + 1,
            FormatScheme::I4K => cols / 256 * 274,
            _ => cols + cols / 128,
        };
        let part = vstd::slice::slice_subrange(words, row * per_row, row * per_row + per_row);
        assert(part@ == row_words(scheme, words@, cols as int, row as int));
        let mut line: Vec<u8> = Vec::new();
        let ghost empty = line@;
        let packed_row: Result<(), FormatError> = if scheme == FormatScheme::I4K {
            pack_i4k_row(f, pack, &mut line, part, cols / 256)
        } else {
            let _ = push_byte_row(f, &mut line, scheme, part, cols);
            Ok(())
        };
        match packed_row {
            Ok(_) => {},
            Err(e) => {
                proof {
                    lemma_built_prefix(
                        *f,
                        *pack,
                        *decode,
                        scheme,
                        words@,
                        cols,
                        row + 1,
                        rows as int,
                    );
                }
                return Err(HarnessError::Format(e));
            },
        }
        proof {
            let whole = scheme_row(*f, *pack, scheme, part@, cols as int)->Ok_0;
            assert(empty + whole =~= whole);
            assert(line@ == whole);
            law_row_stride(*f, *pack, scheme, part@, cols as int);
        }
        let mut values = match decode_row(decode, line.as_slice(), cols) {
            Ok(v) => v,
            Err(e) => {
                proof {
                    lemma_built_prefix(
                        *f,
                        *pack,
                        *decode,
                        scheme,
                        words@,
                        cols,
                        row + 1,
                        rows as int,
                    );
                }
                return Err(HarnessError::Format(e));
            },
        };
        bytes.append(&mut line);
        expected.append(&mut values);
        row += 1;
    }
    let width: usize = at_least_one(cols);
    let shape = vec![rows, width];
    assert(shape@ =~= seq![rows, width]);
    let dtype = match scheme {
        FormatScheme::E4M3B128 => DType::E4m3,
        FormatScheme::I4K => DType::I4,
        _ => DType::I8,
    };
    proof {
        lemma_extent_of_two(rows, width);
        if scheme == FormatScheme::I4K {
            assert((rows * width + 1) / 2 <= rows * stride) by (nonlinear_arith)
                requires
                    rows > 0,
                    stride >= width / 2,
                    width == 2 * (width / 2),
                    width > 0,
            ;
        } else {
            assert(rows * width <= rows * stride) by (nonlinear_arith)
                requires
                    rows > 0,
                    width <= stride,
            ;
        }
    }
    let values = TypedBuffer::from_bytes(shape.as_slice(), dtype, bytes.as_slice()).with_quant(
        QuantScheme::Scheme(id),
    );
    Ok(NativeL0Weight { values, expected })
}

} // verus!
