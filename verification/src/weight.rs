//! Quantized weight matrices and the decoding of their elements.
//!
//! A weight matrix is stored row by row, with its scale records at the end of
//! each row or in an operand of their own, or in tiles with a region of scale
//! records. What only the weight format knows (tile order, record places, the
//! meaning of a record) comes from a function that the caller supplies.
use vstd::prelude::*;
use vstd::arithmetic::power2::*;
use crate::arith::{compute, fp, fp_mul, is_arith, times, FloatOp};
use crate::check::{length_error, length_mismatch, overflow, overflow_error};
use crate::dtype::{
    byte_as_i8, f16_to_f32, f32_of_f16, f32_of_int, le16, read_le16, signed_byte, i32_to_f32, u32_to_f32,
};
use crate::error::{
    about, outcome, plain, u64_to_usize, Arg, Detail, ErrorView, FormatError, T0Error,
};
use crate::index::lemma_flat_bound;
use crate::ir::SchemeId;

verus! {

/// A question about a weight format.
#[derive(Debug, Clone, Copy, PartialEq, Eq, Structural)]
#[allow(inconsistent_fields)]
pub enum FormatQuery {
    /// Rows of a matrix padded for tiling; `block` is the number of columns
    /// that a scale record covers at most.
    PaddedRows { rows: u32, cols: u32, block: u32 },
    /// Columns of a matrix padded for tiling.
    PaddedCols { rows: u32, cols: u32, block: u32 },
    /// Row blocks of the scale region of a tiled matrix.
    ScaleRowBlocks { scheme: SchemeId, rows: u32, cols: u32, block: u32 },
    /// Column blocks of the scale region of a tiled matrix.
    ScaleColBlocks { scheme: SchemeId, rows: u32, cols: u32, block: u32 },
    /// Records of the scale region of a tiled matrix.
    ScaleRecords { scheme: SchemeId, rows: u32, cols: u32, block: u32 },
    /// Bytes of the scale region of a tiled matrix.
    ScaleBytes { scheme: SchemeId, rows: u32, cols: u32, block: u32 },
    /// Byte offset of a record within the scale region of a tiled matrix.
    RecordOffset {
        scheme: SchemeId,
        rows: u32,
        cols: u32,
        block: u32,
        row_block: u64,
        col_block: u64,
        row: u32,
    },
    /// Position of an element of a tiled matrix.
    TileIndex { rows: u32, cols: u32, block: u32, row: u32, col: u32 },
    /// Whether a two-byte record at an index holds a scale; the answer itself
    /// means nothing.
    ScaleCheck { scheme: SchemeId, bits: u16, index: u64 },
    /// Bits of the scale that a two-byte record holds.
    ScaleValue { scheme: SchemeId, bits: u16 },
    /// Bits of the scale of a 16-byte header.
    HeaderScale { bits: u128, index: u64 },
    /// Bits of the minimum of a 16-byte header.
    HeaderMin { bits: u128, index: u64 },
    /// Scale factor of one of the eight parts of a header's block.
    PartScale { bits: u128, part: u8 },
    /// Minimum factor of one of the eight parts of a header's block.
    PartMin { bits: u128, part: u8 },
    /// Whether an E4M3 code at an index stands for a number; the answer itself
    /// means nothing.
    E4m3Check { byte: u8, index: u64 },
    /// Bits of the number that an E4M3 code stands for.
    E4m3Value { byte: u8 },
    /// E4M3 code of the number nearest to a single, by its bits.
    E4m3Code { value: u32 },
}

/// Whether `g` answers every question and its answer depends on the question
/// alone.
pub open spec fn is_format<G: Fn(FormatQuery) -> Result<u64, FormatError>>(g: G) -> bool {
    &&& forall|q: FormatQuery| #[trigger] g.requires((q,))
    &&& forall|q: FormatQuery, r: Result<u64, FormatError>, s: Result<u64, FormatError>| #[trigger]
        g.ensures((q,), r) && #[trigger] g.ensures((q,), s) ==> r == s
}

/// The answer to a question, with an error as an error of the op.
pub open spec fn answer<G: Fn(FormatQuery) -> Result<u64, FormatError>>(
    g: G,
    q: FormatQuery,
) -> Result<u64, ErrorView> {
    match choose|r: Result<u64, FormatError>| g.ensures((q,), r) {
        Ok(v) => Ok(v),
        Err(e) => Err(ErrorView::Format(e)),
    }
}

/// Asks a question.
pub fn ask<G: Fn(FormatQuery) -> Result<u64, FormatError>>(g: &G, q: FormatQuery) -> (r: Result<
    u64,
    T0Error,
>)
    requires
        is_format(*g),
    ensures
        outcome(r) == answer(*g, q),
{
    match g(q) {
        Ok(v) => Ok(v),
        Err(e) => Err(T0Error::Format(e)),
    }
}

/// The answer to a question as the bits of a single.
pub open spec fn answer32<G: Fn(FormatQuery) -> Result<u64, FormatError>>(
    g: G,
    q: FormatQuery,
) -> Result<u32, ErrorView> {
    match answer(g, q) {
        Ok(v) => Ok((v % 0x1_0000_0000) as u32),
        Err(e) => Err(e),
    }
}

/// Asks a question about the bits of a single.
pub fn ask32<G: Fn(FormatQuery) -> Result<u64, FormatError>>(g: &G, q: FormatQuery) -> (r: Result<
    u32,
    T0Error,
>)
    requires
        is_format(*g),
    ensures
        outcome(r) == answer32(*g, q),
{
    match ask(g, q) {
        Ok(v) => Ok((v % 0x1_0000_0000) as u32),
        Err(e) => Err(e),
    }
}

/// Scale that a two-byte record at an index holds.
pub open spec fn answer_scale<G: Fn(FormatQuery) -> Result<u64, FormatError>>(
    g: G,
    scheme: SchemeId,
    bits: u16,
    index: int,
) -> Result<u32, ErrorView> {
    match answer(g, FormatQuery::ScaleCheck { scheme, bits, index: index as u64 }) {
        Err(e) => Err(e),
        Ok(_) => answer32(g, FormatQuery::ScaleValue { scheme, bits }),
    }
}

/// Checks a two-byte record at an index and asks for its scale.
pub fn ask_scale<G: Fn(FormatQuery) -> Result<u64, FormatError>>(
    g: &G,
    scheme: SchemeId,
    bits: u16,
    index: u64,
) -> (r: Result<u32, T0Error>)
    requires
        is_format(*g),
    ensures
        outcome(r) == answer_scale(*g, scheme, bits, index as int),
{
    match ask(g, FormatQuery::ScaleCheck { scheme, bits, index }) {
        Ok(_) => ask32(g, FormatQuery::ScaleValue { scheme, bits }),
        Err(e) => Err(e),
    }
}

/// Number that an E4M3 code at an index stands for.
pub open spec fn answer_e4m3<G: Fn(FormatQuery) -> Result<u64, FormatError>>(
    g: G,
    byte: u8,
    index: int,
) -> Result<u32, ErrorView> {
    match answer(g, FormatQuery::E4m3Check { byte, index: index as u64 }) {
        Err(e) => Err(e),
        Ok(_) => answer32(g, FormatQuery::E4m3Value { byte }),
    }
}

/// Checks an E4M3 code at an index and asks for its number.
pub fn ask_e4m3<G: Fn(FormatQuery) -> Result<u64, FormatError>>(g: &G, byte: u8, index: usize) -> (r:
    Result<u32, T0Error>)
    requires
        is_format(*g),
    ensures
        outcome(r) == answer_e4m3(*g, byte, index as int),
{
    match ask(g, FormatQuery::E4m3Check { byte, index: index as u64 }) {
        Ok(_) => ask32(g, FormatQuery::E4m3Value { byte }),
        Err(e) => Err(e),
    }
}

/// The answer to a question as a machine size; `what` names it in an error.
pub open spec fn answer_size<G: Fn(FormatQuery) -> Result<u64, FormatError>>(
    g: G,
    q: FormatQuery,
    what: &'static str,
) -> Result<usize, ErrorView> {
    match answer(g, q) {
        Ok(v) => size_of_u64(v, what),
        Err(e) => Err(e),
    }
}

/// A 64-bit size as a machine size.
pub open spec fn size_of_u64(v: u64, what: &'static str) -> Result<usize, ErrorView> {
    if v <= usize::MAX {
        Ok(v as usize)
    } else {
        Err(
            overflow_error(
                "u64_to_usize",
                about(what, "{what} value {} overflows usize", seq![Arg::Int(v)]),
            ),
        )
    }
}

/// Asks a question about a machine size.
pub fn ask_size<G: Fn(FormatQuery) -> Result<u64, FormatError>>(
    g: &G,
    q: FormatQuery,
    what: &'static str,
) -> (r: Result<usize, T0Error>)
    requires
        is_format(*g),
    ensures
        outcome(r) == answer_size(*g, q, what),
{
    match ask(g, q) {
        Ok(v) => u64_to_usize(v, what),
        Err(e) => Err(e),
    }
}

/// Names that the errors of a weight matrix quote.
#[derive(Debug, Clone, Copy)]
pub struct WeightNames {
    /// Op name.
    pub op: &'static str,
    /// Operand with the elements.
    pub tensor: &'static str,
    /// Operand with the scale records.
    pub scale_tensor: &'static str,
    /// Name of the position of a one-byte element.
    pub byte_text: &'static str,
    /// Text of an overflowing half-precision position.
    pub half_text: &'static str,
    /// Whether errors quote the row and the column count in place of the shape.
    pub row_shape: bool,
}

/// A weight matrix of `n` rows and `k` columns.
#[derive(Debug)]
pub struct Weights<'a> {
    /// Bytes of the elements, and of the scale records unless they are separate.
    pub bytes: &'a [u8],
    /// Bytes of separate scale records, or of the scale region of a tiled
    /// matrix.
    pub scales: &'a [u8],
    /// Whether the scale records are an operand of their own.
    pub separate: bool,
    /// Whether the matrix is tiled.
    pub tiled: bool,
    /// Whether a row-major matrix is stored by columns.
    pub transposed: bool,
    /// Quantization scheme; half precision if none.
    pub scheme: Option<SchemeId>,
    /// Number of rows.
    pub n: usize,
    /// Number of columns.
    pub k: usize,
    /// Columns that tiling pads to.
    pub block: u32,
    /// Shape of the operand.
    pub shape: Vec<usize>,
    /// Names for errors.
    pub names: WeightNames,
}

/// Bytes of one scale record.
pub open spec fn record_len(scheme: Option<SchemeId>) -> int {
    if scheme == Some(SchemeId::I4K) {
        16
    } else {
        2
    }
}

/// Columns that tiling pads to.
pub open spec fn block_of(scheme: Option<SchemeId>) -> u32 {
    match scheme {
        Some(SchemeId::I4K) => 256,
        Some(SchemeId::I8B128) | Some(SchemeId::E4M3B128) => 128,
        _ => 16,
    }
}

/// Columns that tiling pads to.
pub fn block_size(scheme: Option<SchemeId>) -> (r: u32)
    ensures
        r == block_of(scheme),
{
    match scheme {
        Some(SchemeId::I4K) => 256,
        Some(SchemeId::I8B128) | Some(SchemeId::E4M3B128) => 128,
        _ => 16,
    }
}

/// Bytes of the elements of one row of `k` columns.
pub open spec fn row_bytes(scheme: Option<SchemeId>, k: int) -> int {
    match scheme {
        None => 2 * k,
        Some(SchemeId::I4K) => k / 2,
        _ => k,
    }
}

/// Scale records of one row of `k` columns.
pub open spec fn row_records(scheme: Option<SchemeId>, k: int) -> int {
    match scheme {
        None => 0,
        Some(SchemeId::I4K) => k / 256,
        Some(SchemeId::I8B128) | Some(SchemeId::E4M3B128) => k / 128,
        _ => 1,
    }
}

/// Scale record that covers a column.
pub open spec fn record_of(scheme: Option<SchemeId>, col: int) -> int {
    match scheme {
        Some(SchemeId::I4K) => col / 256,
        Some(SchemeId::I8B128) | Some(SchemeId::E4M3B128) => col / 128,
        _ => 0,
    }
}

/// Whether elements of the scheme can be decoded.
pub open spec fn is_native(scheme: SchemeId) -> bool {
    match scheme {
        SchemeId::Reserved(_) | SchemeId::Unknown(_) => false,
        _ => true,
    }
}

/// Value of a weight matrix of `n` rows and `k` columns.
#[verifier::ext_equal]
pub struct Matrix {
    /// Bytes of the elements, and of the scale records unless they are separate.
    pub bytes: Seq<u8>,
    /// Bytes of separate scale records, or of the scale region of a tiled
    /// matrix.
    pub scales: Seq<u8>,
    /// Whether the scale records are an operand of their own.
    pub separate: bool,
    /// Whether the matrix is tiled.
    pub tiled: bool,
    /// Whether a row-major matrix is stored by columns.
    pub transposed: bool,
    /// Quantization scheme; half precision if none.
    pub scheme: Option<SchemeId>,
    /// Number of rows.
    pub n: int,
    /// Number of columns.
    pub k: int,
    /// Columns that tiling pads to.
    pub block: u32,
    /// Shape of the operand.
    pub shape: Seq<usize>,
    /// Names for errors.
    pub names: WeightNames,
}

impl<'a> View for Weights<'a> {
    type V = Matrix;

    open spec fn view(&self) -> Matrix {
        Matrix {
            bytes: self.bytes@,
            scales: self.scales@,
            separate: self.separate,
            tiled: self.tiled,
            transposed: self.transposed,
            scheme: self.scheme,
            n: self.n as int,
            k: self.k as int,
            block: self.block,
            shape: self.shape@,
            names: self.names,
        }
    }
}

impl Matrix {
    /// Bytes from one row to the next.
    pub open spec fn stride(self) -> int {
        row_bytes(self.scheme, self.k) + if self.separate {
            0
        } else {
            row_records(self.scheme, self.k) * record_len(self.scheme)
        }
    }

    /// Whether the extents suit the scheme and row-major storage is complete.
    pub open spec fn wf(self) -> bool {
        &&& 0 < self.n <= u32::MAX
        &&& 0 < self.k <= u32::MAX
        &&& self.block == block_of(self.scheme)
        &&& self.scheme matches Some(s) ==> is_native(s)
        &&& self.k % block_of(self.scheme) as int == 0 || block_of(self.scheme) == 16
        &&& self.transposed ==> !self.tiled && self.scheme is None
        &&& !self.tiled ==> self.n * self.stride() <= self.bytes.len()
        &&& !self.tiled && self.separate && self.scheme is Some ==> self.scales.len() == self.n
            * row_records(self.scheme, self.k) * record_len(self.scheme)
    }

    /// Shape that errors about a row quote.
    pub open spec fn error_shape(self, row: int) -> Seq<usize> {
        if self.names.row_shape {
            seq![row as usize, self.k as usize]
        } else {
            self.shape
        }
    }

    /// Position of an element of a tiled matrix.
    pub open spec fn tile_query(self, row: int, col: int) -> FormatQuery {
        FormatQuery::TileIndex {
            rows: self.n as u32,
            cols: self.k as u32,
            block: self.block,
            row: row as u32,
            col: col as u32,
        }
    }

    /// The error of a read of `len` bytes at `off` that ends outside a buffer.
    pub open spec fn short(self, tensor: &'static str, have: int, end: int, row: int) -> ErrorView {
        length_error(
            tensor,
            have,
            if end > usize::MAX {
                usize::MAX as int
            } else {
                end
            },
            self.error_shape(row),
        )
    }

    /// Byte of a one-byte element.
    pub open spec fn byte_value<G: Fn(FormatQuery) -> Result<u64, FormatError>>(
        self,
        g: G,
        row: int,
        col: int,
    ) -> Result<u8, ErrorView> {
        if !self.tiled {
            Ok(self.bytes[row * self.stride() + col])
        } else {
            match answer_size(g, self.tile_query(row, col), self.names.byte_text) {
                Err(e) => Err(e),
                Ok(off) => if off < self.bytes.len() {
                    Ok(self.bytes[off as int])
                } else {
                    Err(self.short(self.names.tensor, self.bytes.len() as int, off + 1, row))
                },
            }
        }
    }

    /// Value of a nibble element.
    pub open spec fn nibble_value<G: Fn(FormatQuery) -> Result<u64, FormatError>>(
        self,
        g: G,
        row: int,
        col: int,
    ) -> Result<u8, ErrorView> {
        if !self.tiled {
            Ok(half_byte(self.bytes[row * self.stride() + col / 2], col))
        } else {
            match answer(g, self.tile_query(row, col)) {
                Err(e) => Err(e),
                Ok(idx) => match size_of_u64((idx / 2) as u64, "l1_i4_offset") {
                    Err(e) => Err(e),
                    Ok(off) => if off < self.bytes.len() {
                        Ok(half_byte(self.bytes[off as int], idx as int))
                    } else {
                        Err(self.short(self.names.tensor, self.bytes.len() as int, off + 1, row))
                    },
                },
            }
        }
    }

    /// Bits of a half-precision element.
    pub open spec fn half_value<G: Fn(FormatQuery) -> Result<u64, FormatError>>(
        self,
        g: G,
        row: int,
        col: int,
    ) -> Result<u16, ErrorView> {
        if !self.tiled {
            let at = if self.transposed {
                col * self.n + row
            } else {
                row * self.k + col
            };
            Ok(le16(self.bytes, at * 2))
        } else {
            match answer(g, self.tile_query(row, col)) {
                Err(e) => Err(e),
                Ok(idx) => if idx * 2 > u64::MAX {
                    Err(overflow_error(self.names.op, plain(self.names.half_text)))
                } else {
                    match size_of_u64((idx * 2) as u64, "l1_f16_offset") {
                        Err(e) => Err(e),
                        Ok(off) => if off + 2 <= self.bytes.len() {
                            Ok(le16(self.bytes, off as int))
                        } else {
                            Err(
                                self.short(
                                    self.names.tensor,
                                    self.bytes.len() as int,
                                    off + 2,
                                    row,
                                ),
                            )
                        },
                    }
                },
            }
        }
    }

    /// Place of a scale record: whether it is among the elements, and its
    /// offset.
    pub open spec fn record_place<G: Fn(FormatQuery) -> Result<u64, FormatError>>(
        self,
        g: G,
        row: int,
        record: int,
    ) -> Result<int, ErrorView> {
        if !self.tiled {
            if self.separate {
                Ok((row * row_records(self.scheme, self.k) + record) * record_len(self.scheme))
            } else {
                Ok(
                    row * self.stride() + row_bytes(self.scheme, self.k) + record
                        * record_len(self.scheme),
                )
            }
        } else {
            let q = FormatQuery::RecordOffset {
                scheme: self.scheme->0,
                rows: self.n as u32,
                cols: self.k as u32,
                block: self.block,
                row_block: (row / 16) as u64,
                col_block: record as u64,
                row: (row % 16) as u32,
            };
            match answer_size(g, q, "record_offset") {
                Err(e) => Err(e),
                Ok(off) => Ok(off as int),
            }
        }
    }

    /// Whether scale records stand among the elements.
    pub open spec fn inline_records(self) -> bool {
        !self.tiled && !self.separate
    }

    /// Bytes that hold the scale records.
    pub open spec fn record_bytes(self) -> Seq<u8> {
        if self.inline_records() {
            self.bytes
        } else {
            self.scales
        }
    }

    /// Bits of a scale record.
    pub open spec fn record_value<G: Fn(FormatQuery) -> Result<u64, FormatError>>(
        self,
        g: G,
        row: int,
        record: int,
    ) -> Result<u128, ErrorView> {
        let len = record_len(self.scheme);
        match self.record_place(g, row, record) {
            Err(e) => Err(e),
            Ok(off) => if off + len <= self.record_bytes().len() {
                Ok(le_bits(self.record_bytes(), off, len))
            } else {
                Err(
                    self.short(
                        if self.separate {
                            self.names.scale_tensor
                        } else {
                            self.names.tensor
                        },
                        self.record_bytes().len() as int,
                        off + len,
                        row,
                    ),
                )
            },
        }
    }

    /// Scale of a two-byte record.
    pub open spec fn scale_value<G: Fn(FormatQuery) -> Result<u64, FormatError>>(
        self,
        g: G,
        row: int,
        record: int,
    ) -> Result<u32, ErrorView> {
        match self.record_value(g, row, record) {
            Err(e) => Err(e),
            Ok(bits) => answer_scale(
                g,
                self.scheme->0,
                bits as u16,
                if self.scheme == Some(SchemeId::I8R) {
                    row
                } else {
                    record
                },
            ),
        }
    }

    /// Scale and minimum of one part of a header's block.
    pub open spec fn part_value<
        F: Fn(FloatOp, u32, u32) -> u32,
        G: Fn(FormatQuery) -> Result<u64, FormatError>,
    >(self, f: F, g: G, row: int, part: int) -> Result<(u32, u32), ErrorView> {
        let record = part / 8;
        match self.record_value(g, row, record) {
            Err(e) => Err(e),
            Ok(bits) => match answer32(g, FormatQuery::HeaderScale { bits, index: record as u64 }) {
                Err(e) => Err(e),
                Ok(d) => match answer32(
                    g,
                    FormatQuery::HeaderMin { bits, index: record as u64 },
                ) {
                    Err(e) => Err(e),
                    Ok(dmin) => match answer32(
                        g,
                        FormatQuery::PartScale { bits, part: (part % 8) as u8 },
                    ) {
                        Err(e) => Err(e),
                        Ok(sc) => match answer32(
                            g,
                            FormatQuery::PartMin { bits, part: (part % 8) as u8 },
                        ) {
                            Err(e) => Err(e),
                            Ok(mn) => Ok(
                                (
                                    fp_mul(f, d, f32_of_int(sc as int)),
                                    fp_mul(f, dmin, f32_of_int(mn as int)),
                                ),
                            ),
                        },
                    },
                },
            },
        }
    }

    /// Number that an element stands for.
    pub open spec fn element<
        F: Fn(FloatOp, u32, u32) -> u32,
        G: Fn(FormatQuery) -> Result<u64, FormatError>,
    >(self, f: F, g: G, row: int, col: int) -> Result<u32, ErrorView> {
        match self.scheme {
            None => match self.half_value(g, row, col) {
                Err(e) => Err(e),
                Ok(h) => Ok(f32_of_f16(h)),
            },
            Some(SchemeId::I4K) => match self.part_value(f, g, row, col / 32) {
                Err(e) => Err(e),
                Ok((s, m)) => match self.nibble_value(g, row, col) {
                    Err(e) => Err(e),
                    Ok(q) => Ok(fp(f, FloatOp::Minus, fp_mul(f, s, f32_of_int(q as int)), m)),
                },
            },
            Some(SchemeId::E4M3B128) => match self.scale_value(g, row, col / 128) {
                Err(e) => Err(e),
                Ok(s) => match self.e4m3_value(g, row, col) {
                    Err(e) => Err(e),
                    Ok(v) => Ok(fp_mul(f, v, s)),
                },
            },
            _ => match self.scale_value(g, row, record_of(self.scheme, col)) {
                Err(e) => Err(e),
                Ok(s) => match self.byte_value(g, row, col) {
                    Err(e) => Err(e),
                    Ok(b) => Ok(fp_mul(f, f32_of_int(byte_as_i8(b) as int), s)),
                },
            },
        }
    }

    /// Number that an E4M3 element stands for, before scaling.
    pub open spec fn e4m3_value<G: Fn(FormatQuery) -> Result<u64, FormatError>>(
        self,
        g: G,
        row: int,
        col: int,
    ) -> Result<u32, ErrorView> {
        match self.byte_value(g, row, col) {
            Err(e) => Err(e),
            Ok(byte) => answer_e4m3(g, byte, col),
        }
    }
}

/// The half of a byte that holds the nibble with the given position.
pub open spec fn half_byte(b: u8, i: int) -> u8 {
    if i % 2 == 0 {
        (b % 16) as u8
    } else {
        (b / 16) as u8
    }
}

/// Little-endian integer of `len` bytes at `off`.
pub open spec fn le_bits(s: Seq<u8>, off: int, len: int) -> u128
    decreases len,
{
    if len <= 0 {
        0
    } else {
        (s[off] as u128 + 256 * le_bits(s, off + 1, len - 1)) as u128
    }
}

proof fn lemma_le_bits_bound(s: Seq<u8>, off: int, len: int)
    requires
        0 <= len <= 16,
    ensures
        le_bits(s, off, len) < pow2((8 * len) as nat),
        len > 0 ==> le_bits(s, off, len) == s[off] + 256 * le_bits(s, off + 1, len - 1),
        pow2((8 * len) as nat) <= u128::MAX + 1,
    decreases len,
{
    lemma2_to64();
    lemma2_to64_rest();
    lemma_pow2_adds(64, 64);
    if len == 0 {
    } else {
        lemma_le_bits_bound(s, off + 1, len - 1);
        lemma_pow2_adds(8, (8 * (len - 1)) as nat);
        assert(8 + (8 * (len - 1)) as nat == (8 * len) as nat);
        if len < 16 {
            lemma_pow2_strictly_increases((8 * len) as nat, 128);
        }
        assert(pow2(128) == 0x1_0000_0000_0000_0000 * 0x1_0000_0000_0000_0000);
    }
}

/// Little-endian integer of `len` bytes at `off`.
fn read_bits(slice: &[u8], off: usize, len: usize) -> (r: u128)
    requires
        len <= 16,
        off + len <= slice@.len(),
    ensures
        r == le_bits(slice@, off as int, len as int),
{
    let mut v: u128 = 0;
    let mut i: usize = len;
    let have: usize = slice.len();
    while i > 0
        invariant
            i <= len <= 16,
            off + len <= have,
            have == slice@.len(),
            v == le_bits(slice@, off + i, len - i),
        decreases i,
    {
        proof {
            lemma_le_bits_bound(slice@, off + i, len - i);
            lemma_le_bits_bound(slice@, off + i - 1, len - i + 1);
        }
        i = i - 1;
        v = slice[off + i] as u128 + 256 * v;
    }
    v
}

/// Sum, or the largest size if it exceeds that.
fn plus_capped(a: usize, b: usize) -> (r: usize)
    ensures
        r == (if a + b > usize::MAX {
            usize::MAX as int
        } else {
            a + b
        }),
{
    match a.checked_add(b) {
        Some(v) => v,
        None => usize::MAX,
    }
}

/// Two's complement value of the low half of a record.
#[verifier::truncate]
fn low_half(bits: u128) -> (r: u16)
    ensures
        r == bits as u16,
{
    bits as u16
}

impl<'a> Weights<'a> {
    /// Bytes from one row to the next.
    fn row_stride(&self) -> (r: usize)
        requires
            self@.wf(),
            !self.tiled,
        ensures
            r == self@.stride(),
    {
        let k: usize = self.k;
        let len: usize = self.bytes.len();
        proof {
            assert(self@.stride() <= self.n * self@.stride()) by (nonlinear_arith)
                requires
                    self.n >= 1,
                    self@.stride() >= 0,
            ;
        }
        let values: usize = match self.scheme {
            None => 2 * k,
            Some(SchemeId::I4K) => k / 2,
            _ => k,
        };
        if self.separate {
            values
        } else {
            match self.scheme {
                None => values,
                Some(SchemeId::I4K) => values + k / 256 * 16,
                Some(SchemeId::I8B128) | Some(SchemeId::E4M3B128) => values + k / 128 * 2,
                _ => values + 2,
            }
        }
    }

    /// The error of a read that ends outside a buffer.
    fn short_read(&self, tensor: &'static str, have: usize, off: usize, len: usize, row: usize)
        -> (e: T0Error)
        ensures
            e.view() == self@.short(tensor, have as int, off + len, row as int),
    {
        let end: usize = plus_capped(off, len);
        if self.names.row_shape {
            let shape = vec![row, self.k];
            assert(shape@ =~= seq![row, self.k]);
            length_mismatch(tensor, have, end, shape.as_slice())
        } else {
            length_mismatch(tensor, have, end, self.shape.as_slice())
        }
    }

    /// Asks for the position of an element of a tiled matrix.
    fn tile_question(&self, row: usize, col: usize) -> (q: FormatQuery)
        requires
            self@.wf(),
            row < self.n,
            col < self.k,
        ensures
            q == self@.tile_query(row as int, col as int),
    {
        FormatQuery::TileIndex {
            rows: self.n as u32,
            cols: self.k as u32,
            block: self.block,
            row: row as u32,
            col: col as u32,
        }
    }

    /// Reads a one-byte element.
    pub fn byte_at<G: Fn(FormatQuery) -> Result<u64, FormatError>>(
        &self,
        g: &G,
        row: usize,
        col: usize,
    ) -> (r: Result<u8, T0Error>)
        requires
            is_format(*g),
            self@.wf(),
            self.scheme is Some,
            self.scheme != Some(SchemeId::I4K),
            row < self.n,
            col < self.k,
        ensures
            outcome(r) == self@.byte_value(*g, row as int, col as int),
    {
        if !self.tiled {
            let stride: usize = self.row_stride();
            let len: usize = self.bytes.len();
            proof {
                lemma_row_in(row as int, self.n as int, col as int, self@.stride());
            }
            Ok(self.bytes[row * stride + col])
        } else {
            let off: usize = match ask_size(g, self.tile_question(row, col), self.names.byte_text) {
                Ok(v) => v,
                Err(e) => {
                    return Err(e);
                },
            };
            if off < self.bytes.len() {
                Ok(self.bytes[off])
            } else {
                Err(self.short_read(self.names.tensor, self.bytes.len(), off, 1, row))
            }
        }
    }

    /// Reads a nibble element.
    pub fn nibble_at<G: Fn(FormatQuery) -> Result<u64, FormatError>>(
        &self,
        g: &G,
        row: usize,
        col: usize,
    ) -> (r: Result<u8, T0Error>)
        requires
            is_format(*g),
            self@.wf(),
            self.scheme == Some(SchemeId::I4K),
            row < self.n,
            col < self.k,
        ensures
            outcome(r) == self@.nibble_value(*g, row as int, col as int),
            r matches Ok(v) ==> v < 16,
    {
        if !self.tiled {
            let stride: usize = self.row_stride();
            let len: usize = self.bytes.len();
            proof {
                lemma_row_in(row as int, self.n as int, (col / 2) as int, self@.stride());
            }
            let b: u8 = self.bytes[row * stride + col / 2];
            if col % 2 == 0 {
                Ok(b % 16)
            } else {
                Ok(b / 16)
            }
        } else {
            let idx: u64 = match ask(g, self.tile_question(row, col)) {
                Ok(v) => v,
                Err(e) => {
                    return Err(e);
                },
            };
            let off: usize = match u64_to_usize(idx / 2, "l1_i4_offset") {
                Ok(v) => v,
                Err(e) => {
                    return Err(e);
                },
            };
            if off < self.bytes.len() {
                let b: u8 = self.bytes[off];
                if idx % 2 == 0 {
                    Ok(b % 16)
                } else {
                    Ok(b / 16)
                }
            } else {
                Err(self.short_read(self.names.tensor, self.bytes.len(), off, 1, row))
            }
        }
    }

    /// Reads the bits of a half-precision element.
    pub fn half_at<G: Fn(FormatQuery) -> Result<u64, FormatError>>(
        &self,
        g: &G,
        row: usize,
        col: usize,
    ) -> (r: Result<u16, T0Error>)
        requires
            is_format(*g),
            self@.wf(),
            self.scheme is None,
            row < self.n,
            col < self.k,
        ensures
            outcome(r) == self@.half_value(*g, row as int, col as int),
    {
        if !self.tiled {
            let len: usize = self.bytes.len();
            let ghost n = self.n as int;
            let ghost k = self.k as int;
            proof {
                assert(n * (2 * k) == 2 * (n * k)) by (nonlinear_arith);
                assert(n * k == k * n) by (nonlinear_arith);
                lemma_flat_bound(row as int, n, col as int, k);
                lemma_flat_bound(col as int, k, row as int, n);
            }
            let at: usize = if self.transposed {
                col * self.n + row
            } else {
                row * self.k + col
            };
            Ok(read_le16(self.bytes, at * 2))
        } else {
            let idx: u64 = match ask(g, self.tile_question(row, col)) {
                Ok(v) => v,
                Err(e) => {
                    return Err(e);
                },
            };
            let twice: u64 = match idx.checked_mul(2) {
                Some(v) => v,
                None => {
                    return Err(overflow(self.names.op, Detail::plain(self.names.half_text)));
                },
            };
            let off: usize = match u64_to_usize(twice, "l1_f16_offset") {
                Ok(v) => v,
                Err(e) => {
                    return Err(e);
                },
            };
            if self.bytes.len() >= 2 && off <= self.bytes.len() - 2 {
                Ok(read_le16(self.bytes, off))
            } else {
                Err(self.short_read(self.names.tensor, self.bytes.len(), off, 2, row))
            }
        }
    }

    /// Reads a scale record.
    pub fn record_at<G: Fn(FormatQuery) -> Result<u64, FormatError>>(
        &self,
        g: &G,
        row: usize,
        record: usize,
    ) -> (r: Result<u128, T0Error>)
        requires
            is_format(*g),
            self@.wf(),
            self.scheme is Some,
            row < self.n,
            record < row_records(self.scheme, self.k as int),
        ensures
            outcome(r) == self@.record_value(*g, row as int, record as int),
    {
        let len: usize = if self.scheme == Some(SchemeId::I4K) {
            16
        } else {
            2
        };
        let ghost n = self.n as int;
        let ghost per = row_records(self.scheme, self.k as int);
        if !self.tiled {
            if self.separate {
                let have: usize = self.scales.len();
                proof {
                    lemma_flat_bound(row as int, n, record as int, per);
                    lemma_flat_bound(row * per + record, n * per, 0, len as int);
                    assert(n * per <= n * per * len) by (nonlinear_arith)
                        requires
                            n * per >= 0,
                            len >= 1,
                    ;
                }
                let k: usize = self.k;
                let records: usize = match self.scheme {
                    Some(SchemeId::I4K) => k / 256,
                    Some(SchemeId::I8B128) | Some(SchemeId::E4M3B128) => k / 128,
                    _ => 1,
                };
                Ok(read_bits(self.scales, (row * records + record) * len, len))
            } else {
                let stride: usize = self.row_stride();
                let have: usize = self.bytes.len();
                let k: usize = self.k;
                let values: usize = match self.scheme {
                    Some(SchemeId::I4K) => k / 2,
                    _ => k,
                };
                proof {
                    lemma_flat_bound(record as int, per, 0, len as int);
                    lemma_row_in(
                        row as int,
                        n,
                        values + record * len + len - 1,
                        self@.stride(),
                    );
                }
                Ok(read_bits(self.bytes, row * stride + values + record * len, len))
            }
        } else {
            let scheme = match self.scheme {
                Some(s) => s,
                None => SchemeId::I8R,
            };
            let q = FormatQuery::RecordOffset {
                scheme,
                rows: self.n as u32,
                cols: self.k as u32,
                block: self.block,
                row_block: (row / 16) as u64,
                col_block: record as u64,
                row: (row % 16) as u32,
            };
            let off: usize = match ask_size(g, q, "record_offset") {
                Ok(v) => v,
                Err(e) => {
                    return Err(e);
                },
            };
            if self.scales.len() >= len && off <= self.scales.len() - len {
                Ok(read_bits(self.scales, off, len))
            } else {
                let tensor = if self.separate {
                    self.names.scale_tensor
                } else {
                    self.names.tensor
                };
                Err(self.short_read(tensor, self.scales.len(), off, len, row))
            }
        }
    }

    /// Reads the scale of a two-byte record.
    pub fn scale_at<G: Fn(FormatQuery) -> Result<u64, FormatError>>(
        &self,
        g: &G,
        row: usize,
        record: usize,
    ) -> (r: Result<u32, T0Error>)
        requires
            is_format(*g),
            self@.wf(),
            self.scheme is Some,
            row < self.n,
            record < row_records(self.scheme, self.k as int),
        ensures
            outcome(r) == self@.scale_value(*g, row as int, record as int),
    {
        let bits: u128 = match self.record_at(g, row, record) {
            Ok(v) => v,
            Err(e) => {
                return Err(e);
            },
        };
        let scheme = match self.scheme {
            Some(s) => s,
            None => SchemeId::I8R,
        };
        let index: u64 = if scheme == SchemeId::I8R {
            row as u64
        } else {
            record as u64
        };
        ask_scale(g, scheme, low_half(bits), index)
    }

    /// Reads the scale and minimum of one part of a header's block.
    pub fn part_at<
        F: Fn(FloatOp, u32, u32) -> u32,
        G: Fn(FormatQuery) -> Result<u64, FormatError>,
    >(&self, f: &F, g: &G, row: usize, part: usize) -> (r: Result<(u32, u32), T0Error>)
        requires
            is_arith(*f),
            is_format(*g),
            self@.wf(),
            self.scheme == Some(SchemeId::I4K),
            row < self.n,
            part / 8 < self.k / 256,
        ensures
            outcome(r) == self@.part_value(*f, *g, row as int, part as int),
    {
        let record: usize = part / 8;
        let which: u8 = (part % 8) as u8;
        let bits: u128 = match self.record_at(g, row, record) {
            Ok(v) => v,
            Err(e) => {
                return Err(e);
            },
        };
        let d: u32 = match ask32(g, FormatQuery::HeaderScale { bits, index: record as u64 }) {
            Ok(v) => v,
            Err(e) => {
                return Err(e);
            },
        };
        let dmin: u32 = match ask32(g, FormatQuery::HeaderMin { bits, index: record as u64 }) {
            Ok(v) => v,
            Err(e) => {
                return Err(e);
            },
        };
        let sc: u32 = match ask32(g, FormatQuery::PartScale { bits, part: which }) {
            Ok(v) => v,
            Err(e) => {
                return Err(e);
            },
        };
        let mn: u32 = match ask32(g, FormatQuery::PartMin { bits, part: which }) {
            Ok(v) => v,
            Err(e) => {
                return Err(e);
            },
        };
        let s: u32 = times(f, d, u32_to_f32(sc));
        let m: u32 = times(f, dmin, u32_to_f32(mn));
        Ok((s, m))
    }

    /// Reads an E4M3 element, before scaling.
    pub fn e4m3_at<G: Fn(FormatQuery) -> Result<u64, FormatError>>(
        &self,
        g: &G,
        row: usize,
        col: usize,
    ) -> (r: Result<u32, T0Error>)
        requires
            is_format(*g),
            self@.wf(),
            self.scheme is Some,
            self.scheme != Some(SchemeId::I4K),
            row < self.n,
            col < self.k,
        ensures
            outcome(r) == self@.e4m3_value(*g, row as int, col as int),
    {
        let byte: u8 = match self.byte_at(g, row, col) {
            Ok(v) => v,
            Err(e) => {
                return Err(e);
            },
        };
        ask_e4m3(g, byte, col)
    }

    /// Reads an element as a number.
    pub fn element_at<
        F: Fn(FloatOp, u32, u32) -> u32,
        G: Fn(FormatQuery) -> Result<u64, FormatError>,
    >(&self, f: &F, g: &G, row: usize, col: usize) -> (r: Result<u32, T0Error>)
        requires
            is_arith(*f),
            is_format(*g),
            self@.wf(),
            row < self.n,
            col < self.k,
        ensures
            outcome(r) == self@.element(*f, *g, row as int, col as int),
    {
        match self.scheme {
            None => {
                let h: u16 = match self.half_at(g, row, col) {
                    Ok(v) => v,
                    Err(e) => {
                        return Err(e);
                    },
                };
                Ok(f16_to_f32(h))
            },
            Some(SchemeId::I4K) => {
                let sm: (u32, u32) = match self.part_at(f, g, row, col / 32) {
                    Ok(v) => v,
                    Err(e) => {
                        return Err(e);
                    },
                };
                let q: u8 = match self.nibble_at(g, row, col) {
                    Ok(v) => v,
                    Err(e) => {
                        return Err(e);
                    },
                };
                let scaled: u32 = times(f, sm.0, u32_to_f32(q as u32));
                Ok(compute(f, FloatOp::Minus, scaled, sm.1))
            },
            Some(SchemeId::E4M3B128) => {
                let s: u32 = match self.scale_at(g, row, col / 128) {
                    Ok(v) => v,
                    Err(e) => {
                        return Err(e);
                    },
                };
                let v: u32 = match self.e4m3_at(g, row, col) {
                    Ok(v) => v,
                    Err(e) => {
                        return Err(e);
                    },
                };
                Ok(times(f, v, s))
            },
            Some(scheme) => {
                let record: usize = match scheme {
                    SchemeId::I8B128 => col / 128,
                    _ => 0,
                };
                let s: u32 = match self.scale_at(g, row, record) {
                    Ok(v) => v,
                    Err(e) => {
                        return Err(e);
                    },
                };
                let b: u8 = match self.byte_at(g, row, col) {
                    Ok(v) => v,
                    Err(e) => {
                        return Err(e);
                    },
                };
                Ok(times(f, i32_to_f32(signed_byte(b) as i32), s))
            },
        }
    }
}

/// A position within a row lies within the rows.
proof fn lemma_row_in(row: int, n: int, at: int, stride: int)
    requires
        0 <= row < n,
        0 <= at < stride,
    ensures
        0 <= row * stride <= row * stride + at < n * stride,
{
    lemma_flat_bound(row, n, at, stride);
}

} // verus!
