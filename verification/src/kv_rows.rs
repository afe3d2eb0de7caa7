//! Rows of a cache: how numbers are encoded into them, and how they are stored.
use vstd::prelude::*;
use crate::arith::{compute, fp, is_arith, FloatOp};
use crate::buffer::{Cells, TensorView};
use crate::check::{attr_error, invalid_attr};
use crate::dtype::{f16_of, f32_to_f16, f32_to_int, int_of_f32, INFINITY};
use crate::error::{about, Arg, Detail, ErrorView, FormatError, T0Error};
use crate::ir::DType;
use crate::kv_cache::{checked_store, is_cache_dtype, Plane, PlaneView};
use crate::weight::{answer, ask, is_format, FormatQuery};

verus! {

/// Bits of 127.
pub const I8_LIMIT: u32 = 0x42FE_0000;

/// Bits of 448, the largest E4M3 number.
pub const E4M3_LIMIT: u32 = 0x43E0_0000;

/// Consecutive elements of a storage as singles.
pub open spec fn row_at(cells: Cells, base: int, width: int) -> Seq<u32> {
    Seq::new(width as nat, |d: int| cells.f32_at(base + d))
}

/// Reads consecutive elements.
pub fn read_row(x: &TensorView<'_>, base: usize, width: usize) -> (r: Vec<u32>)
    requires
        base + width <= usize::MAX,
        forall|i: int| base <= i < base + width ==> #[trigger] x@.cells.holds(i),
    ensures
        r@ == row_at(x@.cells, base as int, width as int),
{
    let mut r: Vec<u32> = Vec::new();
    let mut d: usize = 0;
    while d < width
        invariant
            d <= width,
            base + width <= usize::MAX,
            forall|i: int| base <= i < base + width ==> #[trigger] x@.cells.holds(i),
            r@ == row_at(x@.cells, base as int, d as int),
        decreases width - d,
    {
        assert(x@.cells.holds(base + d));
        r.push(x.read_f32(base + d));
        assert(r@ =~= row_at(x@.cells, base as int, d + 1));
        d += 1;
    }
    assert(r@ =~= row_at(x@.cells, base as int, width as int));
    r
}

/// Largest magnitude of a row, as bits; a NaN counts for nothing.
pub open spec fn max_abs(values: Seq<u32>) -> u32
    decreases values.len(),
{
    if values.len() == 0 {
        0
    } else {
        let m = max_abs(values.drop_last());
        let a = values.last() % 0x8000_0000;
        if m < a && a <= INFINITY {
            a
        } else {
            m
        }
    }
}

/// Largest magnitude of a row.
pub fn largest_magnitude(values: &[u32]) -> (r: u32)
    ensures
        r == max_abs(values@),
{
    let mut m: u32 = 0;
    let mut i: usize = 0;
    while i < values.len()
        invariant
            i <= values@.len(),
            m == max_abs(values@.take(i as int)),
        decreases values@.len() - i,
    {
        let a: u32 = values[i] % 0x8000_0000;
        assert(values@.take(i + 1).drop_last() =~= values@.take(i as int));
        if m < a && a <= INFINITY {
            m = a;
        }
        i += 1;
    }
    assert(values@.take(i as int) =~= values@);
    m
}

/// Whether a single is a zero of either sign.
pub open spec fn is_zero(v: u32) -> bool {
    v % 0x8000_0000 == 0
}

/// Scale of a row: its largest magnitude over the largest code.
pub open spec fn row_scale<F: Fn(FloatOp, u32, u32) -> u32>(
    f: F,
    values: Seq<u32>,
    limit: u32,
) -> u32 {
    let s = fp(f, FloatOp::Over, max_abs(values), limit);
    if is_zero(s) {
        0
    } else {
        s
    }
}

/// Computes the scale of a row.
fn scale_for<F: Fn(FloatOp, u32, u32) -> u32>(f: &F, values: &[u32], limit: u32) -> (r: u32)
    requires
        is_arith(*f),
    ensures
        r == row_scale(*f, values@, limit),
{
    let m: u32 = largest_magnitude(values);
    let s: u32 = compute(f, FloatOp::Over, m, limit);
    if s % 0x8000_0000 == 0 {
        0
    } else {
        s
    }
}

/// Signed-byte code of a number under a scale.
pub open spec fn i8_code<F: Fn(FloatOp, u32, u32) -> u32>(f: F, v: u32, scale: u32) -> i8 {
    if is_zero(scale) {
        0
    } else {
        int_of_f32(fp(f, FloatOp::Over, v, scale), true, -127, 127) as i8
    }
}

/// Signed-byte codes of a row.
pub open spec fn i8_codes<F: Fn(FloatOp, u32, u32) -> u32>(f: F, values: Seq<u32>) -> Seq<i8> {
    Seq::new(values.len(), |i: int| i8_code(f, values[i], row_scale(f, values, I8_LIMIT)))
}

/// Encodes a row as signed bytes with a scale: symmetric, nearest even, within
/// `[-127, 127]`. A row of zeros has the scale zero and zero codes.
pub fn quant_row_i8<F: Fn(FloatOp, u32, u32) -> u32>(f: &F, values: &[u32]) -> (r: (Vec<i8>, u32))
    requires
        is_arith(*f),
    ensures
        r.0@ == i8_codes(*f, values@),
        r.1 == row_scale(*f, values@, I8_LIMIT),
{
    let scale: u32 = scale_for(f, values, I8_LIMIT);
    let mut q: Vec<i8> = Vec::new();
    let mut i: usize = 0;
    while i < values.len()
        invariant
            i <= values@.len(),
            is_arith(*f),
            scale == row_scale(*f, values@, I8_LIMIT),
            q@.len() == i,
            forall|j: int| 0 <= j < i ==> q@[j] == i8_codes(*f, values@)[j],
        decreases values@.len() - i,
    {
        if scale % 0x8000_0000 == 0 {
            q.push(0);
        } else {
            let x: u32 = compute(f, FloatOp::Over, values[i], scale);
            q.push(f32_to_int(x, true, -127, 127) as i8);
        }
        i += 1;
    }
    assert(q@ =~= i8_codes(*f, values@));
    (q, scale)
}

/// Where a row comes from, for its error.
#[derive(Debug, Clone, Copy)]
pub struct RowPlace {
    /// Operand.
    pub tensor: &'static str,
    /// Position among the rows that are written.
    pub tok: usize,
    /// Head.
    pub head: usize,
}

/// The error of a number without an E4M3 code.
pub open spec fn code_error(at: RowPlace, scaled: u32, scale: u32) -> ErrorView {
    attr_error(
        "state_write_kv",
        "k/v",
        about(
            at.tensor,
            "token {} head {}: scaled value {} / scale {} is not encodable in e4m3 {what} cache",
            seq![
                Arg::Int(at.tok as u64),
                Arg::Int(at.head as u64),
                Arg::Real(scaled),
                Arg::Real(scale),
            ],
        ),
    )
}

/// E4M3 codes of the first numbers of a row under a scale.
pub open spec fn e4m3_codes<
    F: Fn(FloatOp, u32, u32) -> u32,
    G: Fn(FormatQuery) -> Result<u64, FormatError>,
>(f: F, g: G, values: Seq<u32>, scale: u32, at: RowPlace) -> Result<Seq<u8>, ErrorView>
    decreases values.len(),
{
    if values.len() == 0 {
        Ok(Seq::empty())
    } else {
        match e4m3_codes(f, g, values.drop_last(), scale, at) {
            Err(e) => Err(e),
            Ok(codes) => if is_zero(scale) {
                Ok(codes.push(0))
            } else {
                let x = fp(f, FloatOp::Over, values.last(), scale);
                match answer(g, FormatQuery::E4m3Code { value: x }) {
                    Err(_) => Err(code_error(at, x, scale)),
                    Ok(c) => Ok(codes.push((c % 256) as u8)),
                }
            },
        }
    }
}

/// An error among the first numbers of a row is the error of the row.
proof fn lemma_codes_prefix<
    F: Fn(FloatOp, u32, u32) -> u32,
    G: Fn(FormatQuery) -> Result<u64, FormatError>,
>(f: F, g: G, values: Seq<u32>, scale: u32, at: RowPlace, n: int)
    requires
        0 <= n <= values.len(),
        e4m3_codes(f, g, values.take(n), scale, at) is Err,
    ensures
        e4m3_codes(f, g, values, scale, at) == e4m3_codes(f, g, values.take(n), scale, at),
    decreases values.len() - n,
{
    if n == values.len() {
        assert(values.take(n) =~= values);
    } else {
        assert(values.take(n + 1).drop_last() =~= values.take(n));
        lemma_codes_prefix(f, g, values, scale, at, n + 1);
    }
}

/// Encodes a row as E4M3 codes with a scale.
pub fn quant_row_e4m3<
    F: Fn(FloatOp, u32, u32) -> u32,
    G: Fn(FormatQuery) -> Result<u64, FormatError>,
>(f: &F, g: &G, values: &[u32], at: RowPlace) -> (r: Result<(Vec<u8>, u32), T0Error>)
    requires
        is_arith(*f),
        is_format(*g),
    ensures
        match e4m3_codes(*f, *g, values@, row_scale(*f, values@, E4M3_LIMIT), at) {
            Err(e) => r is Err && r->Err_0.view() == e,
            Ok(codes) => r is Ok && r->Ok_0.0@ == codes && r->Ok_0.1 == row_scale(
                *f,
                values@,
                E4M3_LIMIT,
            ),
        },
{
    let scale: u32 = scale_for(f, values, E4M3_LIMIT);
    let mut q: Vec<u8> = Vec::new();
    let mut i: usize = 0;
    while i < values.len()
        invariant
            i <= values@.len(),
            is_arith(*f),
            is_format(*g),
            scale == row_scale(*f, values@, E4M3_LIMIT),
            e4m3_codes(*f, *g, values@.take(i as int), scale, at) == Ok::<Seq<u8>, ErrorView>(q@),
        decreases values@.len() - i,
    {
        assert(values@.take(i + 1).drop_last() =~= values@.take(i as int));
        if scale % 0x8000_0000 == 0 {
            q.push(0);
        } else {
            let x: u32 = compute(f, FloatOp::Over, values[i], scale);
            match ask(g, FormatQuery::E4m3Code { value: x }) {
                Ok(c) => {
                    q.push((c % 256) as u8);
                },
                Err(_) => {
                    let args = vec![
                        Arg::Int(at.tok as u64),
                        Arg::Int(at.head as u64),
                        Arg::Real(x),
                        Arg::Real(scale),
                    ];
                    assert(args@ =~= seq![
                        Arg::Int(at.tok as u64),
                        Arg::Int(at.head as u64),
                        Arg::Real(x),
                        Arg::Real(scale),
                    ]);
                    proof {
                        lemma_codes_prefix(*f, *g, values@, scale, at, i + 1);
                    }
                    let reason = Detail::about(
                        at.tensor,
                        "token {} head {}: scaled value {} / scale {} is not encodable in e4m3 {what} cache",
                        args,
                    );
                    return Err(invalid_attr("state_write_kv", "k/v", reason));
                },
            }
        }
        i += 1;
    }
    assert(values@.take(i as int) =~= values@);
    Ok((q, scale))
}

/// A row as a cache stores it.
#[derive(Debug)]
pub enum Row {
    /// Half-precision codes.
    Half(Vec<u16>),
    /// Signed-byte codes with their scale in half precision.
    Bytes(Vec<i8>, u16),
    /// E4M3 codes with their scale in half precision.
    Eights(Vec<u8>, u16),
}

/// Value of a [`Row`].
#[verifier::ext_equal]
pub enum RowView {
    /// Half-precision codes.
    Half(Seq<u16>),
    /// Signed-byte codes with their scale in half precision.
    Bytes(Seq<i8>, u16),
    /// E4M3 codes with their scale in half precision.
    Eights(Seq<u8>, u16),
}

impl View for Row {
    type V = RowView;

    open spec fn view(&self) -> RowView {
        match self {
            Row::Half(q) => RowView::Half(q@),
            Row::Bytes(q, s) => RowView::Bytes(q@, *s),
            Row::Eights(q, s) => RowView::Eights(q@, *s),
        }
    }
}

impl RowView {
    /// Type that the row is stored as.
    pub open spec fn dtype(self) -> DType {
        match self {
            RowView::Half(_) => DType::F16,
            RowView::Bytes(_, _) => DType::I8,
            RowView::Eights(_, _) => DType::E4m3,
        }
    }

    /// Number of codes.
    pub open spec fn len(self) -> nat {
        match self {
            RowView::Half(q) => q.len(),
            RowView::Bytes(q, _) => q.len(),
            RowView::Eights(q, _) => q.len(),
        }
    }
}

/// Half-precision codes of a row.
pub open spec fn half_codes(values: Seq<u32>) -> Seq<u16> {
    Seq::new(values.len(), |i: int| f16_of(values[i]))
}

/// Encodes a row in half precision.
pub fn half_row(values: &[u32]) -> (r: Vec<u16>)
    ensures
        r@ == half_codes(values@),
{
    let mut q: Vec<u16> = Vec::new();
    let mut i: usize = 0;
    while i < values.len()
        invariant
            i <= values@.len(),
            q@.len() == i,
            forall|j: int| 0 <= j < i ==> q@[j] == f16_of(values@[j]),
        decreases values@.len() - i,
    {
        q.push(f32_to_f16(values[i]));
        i += 1;
    }
    assert(q@ =~= half_codes(values@));
    q
}

/// Encoding of a row for a cache of the given type.
pub open spec fn encoded_row<
    F: Fn(FloatOp, u32, u32) -> u32,
    G: Fn(FormatQuery) -> Result<u64, FormatError>,
>(f: F, g: G, dtype: DType, values: Seq<u32>, at: RowPlace) -> Result<RowView, ErrorView> {
    match dtype {
        DType::F16 => Ok(RowView::Half(half_codes(values))),
        DType::I8 => Ok(
            RowView::Bytes(i8_codes(f, values), f16_of(row_scale(f, values, I8_LIMIT))),
        ),
        _ => {
            let scale = row_scale(f, values, E4M3_LIMIT);
            match e4m3_codes(f, g, values, scale, at) {
                Err(e) => Err(e),
                Ok(codes) => Ok(RowView::Eights(codes, f16_of(scale))),
            }
        },
    }
}

/// Outcome of an encoding.
pub open spec fn row_outcome(r: Result<Row, T0Error>) -> Result<RowView, ErrorView> {
    match r {
        Ok(row) => Ok(row@),
        Err(e) => Err(e.view()),
    }
}

/// A row has as many codes as numbers, for every type.
pub proof fn lemma_encoded_len<
    F: Fn(FloatOp, u32, u32) -> u32,
    G: Fn(FormatQuery) -> Result<u64, FormatError>,
>(f: F, g: G, dtype: DType, values: Seq<u32>, at: RowPlace)
    requires
        is_cache_dtype(dtype),
        encoded_row(f, g, dtype, values, at) is Ok,
    ensures
        encoded_row(f, g, dtype, values, at)->Ok_0.len() == values.len(),
        encoded_row(f, g, dtype, values, at)->Ok_0.dtype() == dtype,
{
    if dtype == DType::E4m3 {
        lemma_codes_len(f, g, values, row_scale(f, values, E4M3_LIMIT), at);
    }
}

proof fn lemma_codes_len<
    F: Fn(FloatOp, u32, u32) -> u32,
    G: Fn(FormatQuery) -> Result<u64, FormatError>,
>(f: F, g: G, values: Seq<u32>, scale: u32, at: RowPlace)
    requires
        e4m3_codes(f, g, values, scale, at) is Ok,
    ensures
        e4m3_codes(f, g, values, scale, at)->Ok_0.len() == values.len(),
    decreases values.len(),
{
    if values.len() > 0 {
        lemma_codes_len(f, g, values.drop_last(), scale, at);
    }
}

/// Encodes a row for a cache of the given type.
pub fn encode_row<
    F: Fn(FloatOp, u32, u32) -> u32,
    G: Fn(FormatQuery) -> Result<u64, FormatError>,
>(f: &F, g: &G, dtype: DType, values: &[u32], at: RowPlace) -> (r: Result<Row, T0Error>)
    requires
        is_arith(*f),
        is_format(*g),
        is_cache_dtype(dtype),
    ensures
        row_outcome(r) == encoded_row(*f, *g, dtype, values@, at),
        r is Ok ==> r->Ok_0@.len() == values@.len() && r->Ok_0@.dtype() == dtype,
{
    proof {
        if encoded_row(*f, *g, dtype, values@, at) is Ok {
            lemma_encoded_len(*f, *g, dtype, values@, at);
        }
    }
    match dtype {
        DType::F16 => Ok(Row::Half(half_row(values))),
        DType::I8 => {
            let (q, scale) = quant_row_i8(f, values);
            Ok(Row::Bytes(q, f32_to_f16(scale)))
        },
        _ => match quant_row_e4m3(f, g, values, at) {
            Ok((q, scale)) => Ok(Row::Eights(q, f32_to_f16(scale))),
            Err(e) => Err(e),
        },
    }
}

/// A list with part of it replaced.
pub open spec fn spliced<T>(s: Seq<T>, off: int, part: Seq<T>) -> Seq<T> {
    Seq::new(
        s.len(),
        |i: int|
            if off <= i < off + part.len() {
                part[i - off]
            } else {
                s[i]
            },
    )
}

/// Stores consecutive values.
pub fn store_part<T: Copy>(
    s: &mut Vec<T>,
    off: usize,
    part: &Vec<T>,
    tensor: &'static str,
) -> (r: Result<(), T0Error>)
    requires
        off + part@.len() <= old(s)@.len(),
    ensures
        r is Ok,
        final(s)@ == spliced(old(s)@, off as int, part@),
{
    let len: usize = s.len();
    let mut i: usize = 0;
    assert(s@ =~= spliced(old(s)@, off as int, part@.take(0)));
    while i < part.len()
        invariant
            i <= part@.len(),
            off + part@.len() <= old(s)@.len() == len,
            s@ == spliced(old(s)@, off as int, part@.take(i as int)),
        decreases part@.len() - i,
    {
        match checked_store(s.as_mut_slice(), off + i, part[i], tensor) {
            Ok(_) => {},
            Err(e) => {
                return Err(e);
            },
        }
        i += 1;
        assert(s@ =~= spliced(old(s)@, off as int, part@.take(i as int)));
    }
    assert(part@.take(i as int) =~= part@);
    Ok(())
}

impl PlaneView {
    /// The plane with a row stored from a position on.
    pub open spec fn with_row(self, off: int, scale_at: int, row: RowView) -> PlaneView {
        match row {
            RowView::Half(q) => PlaneView { half: spliced(self.half, off, q), ..self },
            RowView::Bytes(q, s) => PlaneView {
                bytes: spliced(self.bytes, off, q),
                scales: self.scales.update(scale_at, s),
                ..self
            },
            RowView::Eights(q, s) => PlaneView {
                e4m3: spliced(self.e4m3, off, q),
                scales: self.scales.update(scale_at, s),
                ..self
            },
        }
    }
}

impl Plane {
    /// Stores a row.
    pub fn put_row(
        &mut self,
        off: usize,
        scale_at: usize,
        row: &Row,
        names: (&'static str, &'static str),
    ) -> (r: Result<(), T0Error>)
        requires
            off + row@.len() <= old(self)@.len(row@.dtype()),
            row@.dtype() != DType::F16 ==> scale_at < old(self)@.scales.len(),
        ensures
            r is Ok,
            final(self)@ == old(self)@.with_row(off as int, scale_at as int, row@),
    {
        match row {
            Row::Half(q) => store_part(&mut self.half, off, q, names.0),
            Row::Bytes(q, s) => {
                match store_part(&mut self.bytes, off, q, names.0) {
                    Ok(_) => {},
                    Err(e) => {
                        return Err(e);
                    },
                }
                checked_store(self.scales.as_mut_slice(), scale_at, *s, names.1)
            },
            Row::Eights(q, s) => {
                match store_part(&mut self.e4m3, off, q, names.0) {
                    Ok(_) => {},
                    Err(e) => {
                        return Err(e);
                    },
                }
                checked_store(self.scales.as_mut_slice(), scale_at, *s, names.1)
            },
        }
    }
}

} // verus!
