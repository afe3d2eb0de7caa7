//! Checks of the bytes that carry a weight matrix and its scale records.
use vstd::prelude::*;
use crate::buffer::{
    extent, fault_result, lemma_extent1, lemma_extent2, lemma_extent3, Tensor, TensorData,
    TensorView,
};
use crate::check::{
    attr_error, backing_error, dim_error, dim_mismatch, dtype_error, dtype_mismatch, invalid_attr,
    layout_error, length_error, length_mismatch, only, overflow, overflow_error,
};
use crate::dtype::byte_len;
use crate::error::{outcome, plain, u64_to_usize, Detail, ErrorView, FormatError, T0Error};
use crate::ir::{DType, LayoutId, SchemeId};
use crate::weight::{
    answer, answer32, answer_size, ask, ask32, ask_size, is_format, is_native, record_len,
    row_bytes, row_records, size_of_u64, FormatQuery,
};

verus! {

/// Names that the checks of a weight's bytes quote.
#[derive(Debug, Clone, Copy)]
pub struct CarrierNames {
    /// Op name.
    pub op: &'static str,
    /// Operand with the elements.
    pub tensor: &'static str,
    /// Operand with the scale records.
    pub scale_tensor: &'static str,
    /// Name of the row dimension.
    pub row_dim: &'static str,
    /// Text of an overflowing padded size.
    pub padded_text: &'static str,
    /// Text of an overflowing unpadded size.
    pub plain_text: &'static str,
    /// Text of an overflowing sum of element and scale bytes.
    pub sum_text: &'static str,
    /// Text of the refusal of scales for unquantized weights.
    pub stray_text: &'static str,
}

/// Extents and storage of a weight matrix.
#[derive(Debug, Clone, Copy)]
pub struct WeightForm {
    /// Element type.
    pub dtype: DType,
    /// Quantization scheme; half precision if none.
    pub scheme: Option<SchemeId>,
    /// Whether the matrix is tiled.
    pub tiled: bool,
    /// Number of rows.
    pub n: u32,
    /// Number of columns.
    pub k: u32,
    /// Columns that tiling pads to.
    pub block: u32,
}

/// Element type of a scheme.
pub open spec fn scheme_dtype(scheme: Option<SchemeId>) -> DType {
    match scheme {
        None => DType::F16,
        Some(SchemeId::I4K) => DType::I4,
        Some(SchemeId::E4M3B128) => DType::E4m3,
        _ => DType::I8,
    }
}

impl WeightForm {
    /// Whether type, scheme and extents suit each other.
    pub open spec fn wf(self) -> bool {
        &&& self.n > 0
        &&& self.k > 0
        &&& self.scheme matches Some(s) ==> is_native(s)
        &&& self.dtype == scheme_dtype(self.scheme)
        &&& self.scheme == Some(SchemeId::I4K) ==> self.k % 256 == 0
        &&& (self.scheme == Some(SchemeId::I8B128) || self.scheme == Some(SchemeId::E4M3B128))
            ==> self.k % 128 == 0
    }

    /// Bytes of `count` elements, rounded down.
    pub open spec fn bytes_of(self, count: int) -> int {
        if self.dtype == DType::I4 {
            count / 2
        } else if self.dtype == DType::F16 {
            2 * count
        } else {
            count
        }
    }

    /// Bytes of a number of elements that is a product, unless that overflows.
    pub open spec fn product_bytes(
        self,
        a: int,
        b: int,
        op: &'static str,
        text: &'static str,
    ) -> Result<usize, ErrorView> {
        if a * b > usize::MAX || self.bytes_of(a * b) > usize::MAX {
            Err(overflow_error(op, plain(text)))
        } else {
            Ok(self.bytes_of(a * b) as usize)
        }
    }

    /// Bytes of the elements of the matrix padded for tiling.
    pub open spec fn padded<G: Fn(FormatQuery) -> Result<u64, FormatError>>(
        self,
        g: G,
        c: CarrierNames,
    ) -> Result<usize, ErrorView> {
        match answer32(
            g,
            FormatQuery::PaddedRows { rows: self.n, cols: self.k, block: self.block },
        ) {
            Err(e) => Err(e),
            Ok(rows) => match answer32(
                g,
                FormatQuery::PaddedCols { rows: self.n, cols: self.k, block: self.block },
            ) {
                Err(e) => Err(e),
                Ok(cols) => self.product_bytes(rows as int, cols as int, c.op, c.padded_text),
            },
        }
    }

    /// Bytes of the elements of the matrix without padding.
    pub open spec fn unpadded(self, c: CarrierNames) -> Result<usize, ErrorView> {
        self.product_bytes(self.n as int, self.k as int, c.op, c.plain_text)
    }

    /// Question about the bytes of the scale region.
    pub open spec fn scale_bytes_query(self) -> FormatQuery {
        FormatQuery::ScaleBytes {
            scheme: self.scheme->0,
            rows: self.n,
            cols: self.k,
            block: self.block,
        }
    }

    /// Bytes that a matrix without separate scale records needs: its elements
    /// and its records.
    pub open spec fn inline_need<G: Fn(FormatQuery) -> Result<u64, FormatError>>(
        self,
        g: G,
        padded: usize,
        values: usize,
        c: CarrierNames,
    ) -> Result<usize, ErrorView> {
        if self.scheme is None {
            Ok(values)
        } else if self.tiled {
            match answer_size(g, self.scale_bytes_query(), "region_bytes") {
                Err(e) => Err(e),
                Ok(region) => if padded + region > usize::MAX {
                    Err(overflow_error(c.op, plain(c.sum_text)))
                } else {
                    Ok((padded + region) as usize)
                },
            }
        } else {
            let stride = row_bytes(self.scheme, self.k as int) + row_records(
                self.scheme,
                self.k as int,
            ) * record_len(self.scheme);
            if self.n * stride > u64::MAX {
                Err(ErrorView::Format(FormatError::Overflow))
            } else {
                size_of_u64((self.n * stride) as u64, "l0_region_bytes")
            }
        }
    }

    /// Shape of the scale records of a row-major matrix.
    pub open spec fn row_scale_shape(self) -> Seq<usize> {
        match self.scheme {
            Some(SchemeId::I4K) => seq![self.n as usize, (self.k / 256) as usize, 4],
            Some(SchemeId::I8B128) | Some(SchemeId::E4M3B128) => seq![
                self.n as usize,
                (self.k / 128) as usize,
            ],
            _ => seq![self.n as usize],
        }
    }

    /// Type of the operand that carries scale records.
    pub open spec fn scale_dtype(self) -> DType {
        if self.scheme == Some(SchemeId::I4K) {
            DType::U32
        } else {
            DType::F16
        }
    }

    /// The error of a separate scale operand of a row-major matrix.
    pub open spec fn row_scale_fault(self, ws: Tensor, c: CarrierNames) -> Option<ErrorView> {
        let need = self.n * row_records(self.scheme, self.k as int) * record_len(self.scheme);
        if ws.dtype() != self.scale_dtype() {
            Some(dtype_error(c.scale_tensor, seq![self.scale_dtype()], ws.dtype()))
        } else if ws.shape != self.row_scale_shape() {
            let first = if ws.shape.len() > 0 {
                ws.shape[0]
            } else {
                0
            };
            let second = if ws.shape.len() > 1 {
                ws.shape[1]
            } else {
                first
            };
            Some(
                match self.scheme {
                    Some(SchemeId::I4K) => dim_error(
                        "K_superblocks",
                        c.tensor,
                        (self.k / 256) as usize,
                        c.scale_tensor,
                        second,
                    ),
                    Some(SchemeId::I8B128) | Some(SchemeId::E4M3B128) => dim_error(
                        "K_blocks",
                        c.tensor,
                        (self.k / 128) as usize,
                        c.scale_tensor,
                        second,
                    ),
                    _ => dim_error(c.row_dim, c.tensor, self.n as usize, c.scale_tensor, first),
                },
            )
        } else if ws.cells.len() != need {
            Some(length_error(c.scale_tensor, ws.cells.len() as int, need, ws.shape))
        } else {
            None
        }
    }

    /// The error of a separate scale operand of a tiled matrix.
    pub open spec fn tiled_scale_fault<G: Fn(FormatQuery) -> Result<u64, FormatError>>(
        self,
        g: G,
        ws: Tensor,
        c: CarrierNames,
    ) -> Option<ErrorView> {
        let scheme = self.scheme->0;
        let rows = self.n;
        let cols = self.k;
        let block = self.block;
        let nb = answer_size(
            g,
            FormatQuery::ScaleRowBlocks { scheme, rows, cols, block },
            "n_blocks",
        );
        let kb = answer_size(
            g,
            FormatQuery::ScaleColBlocks { scheme, rows, cols, block },
            "k_blocks",
        );
        let need = answer_size(g, self.scale_bytes_query(), "region_bytes");
        let records = answer(g, FormatQuery::ScaleRecords { scheme, rows, cols, block });
        if nb is Err {
            Some(nb->Err_0)
        } else if kb is Err {
            Some(kb->Err_0)
        } else if need is Err {
            Some(need->Err_0)
        } else if ws.dtype() != self.scale_dtype() {
            Some(dtype_error(c.scale_tensor, seq![self.scale_dtype()], ws.dtype()))
        } else if ws.shape != (if self.scheme == Some(SchemeId::I4K) {
            seq![nb->Ok_0, kb->Ok_0, 16, 4]
        } else {
            seq![nb->Ok_0, kb->Ok_0, 16]
        }) {
            match records {
                Err(e) => Some(e),
                Ok(count) => Some(
                    dim_error(
                        "scale_shape",
                        "scale_geometry",
                        words(self.scheme, count),
                        c.scale_tensor,
                        extent(ws.shape)->0,
                    ),
                ),
            }
        } else if ws.cells.len() != need->Ok_0 {
            Some(
                length_error(
                    c.scale_tensor,
                    ws.cells.len() as int,
                    need->Ok_0 as int,
                    ws.shape,
                ),
            )
        } else {
            None
        }
    }

    /// The error of a separate scale operand, or of elements that are too short
    /// beside one.
    pub open spec fn separate_fault<G: Fn(FormatQuery) -> Result<u64, FormatError>>(
        self,
        g: G,
        ws: Tensor,
        have: usize,
        values: usize,
        shape: Seq<usize>,
        c: CarrierNames,
    ) -> Option<ErrorView> {
        if ws.layout != LayoutId::Contiguous {
            Some(layout_error(c.scale_tensor, seq![LayoutId::Contiguous], ws.layout))
        } else if !(ws.cells is Bytes) {
            Some(backing_error(c.op, ws.dtype()))
        } else if have < values {
            Some(length_error(c.tensor, have as int, values as int, shape))
        } else if self.scheme is None {
            Some(attr_error(c.op, c.scale_tensor, plain(c.stray_text)))
        } else if self.tiled {
            self.tiled_scale_fault(g, ws, c)
        } else {
            self.row_scale_fault(ws, c)
        }
    }
}

/// Elements of a scale operand with `records` records: four words per header.
pub open spec fn words(scheme: Option<SchemeId>, records: u64) -> usize {
    if scheme == Some(SchemeId::I4K) {
        (if records > u64::MAX / 4 {
            u64::MAX
        } else {
            (records * 4) as u64
        }) as usize
    } else {
        records as usize
    }
}

#[verifier::truncate]
fn words_of(scheme: Option<SchemeId>, records: u64) -> (r: usize)
    ensures
        r == words(scheme, records),
{
    if scheme == Some(SchemeId::I4K) {
        let w: u64 = if records > u64::MAX / 4 {
            u64::MAX
        } else {
            records * 4
        };
        w as usize
    } else {
        records as usize
    }
}

/// Whether a shape has the given extents.
pub fn shape_is(shape: &[usize], expected: &Vec<usize>) -> (r: bool)
    ensures
        r == (shape@ == expected@),
{
    if shape.len() != expected.len() {
        return false;
    }
    for i in 0..shape.len()
        invariant
            shape@.len() == expected@.len(),
            forall|j: int| 0 <= j < i ==> shape@[j] == expected@[j],
    {
        if shape[i] != expected[i] {
            return false;
        }
    }
    assert(shape@ =~= expected@);
    true
}

impl WeightForm {
    /// Bytes of a number of elements that is a product.
    fn bytes_of_product(&self, a: usize, b: usize, op: &'static str, text: &'static str) -> (r: Result<
        usize,
        T0Error,
    >)
        ensures
            outcome(r) == self.product_bytes(a as int, b as int, op, text),
    {
        let count: usize = match a.checked_mul(b) {
            Some(v) => v,
            None => {
                return Err(overflow(op, Detail::plain(text)));
            },
        };
        match self.dtype {
            DType::I4 => Ok(count / 2),
            DType::F16 => match count.checked_mul(2) {
                Some(v) => Ok(v),
                None => Err(overflow(op, Detail::plain(text))),
            },
            _ => Ok(count),
        }
    }

    /// Bytes of the elements of the matrix padded for tiling.
    pub fn padded_bytes<G: Fn(FormatQuery) -> Result<u64, FormatError>>(
        &self,
        g: &G,
        c: &CarrierNames,
    ) -> (r: Result<usize, T0Error>)
        requires
            is_format(*g),
        ensures
            outcome(r) == self.padded(*g, *c),
    {
        let rows: u32 = match ask32(
            g,
            FormatQuery::PaddedRows { rows: self.n, cols: self.k, block: self.block },
        ) {
            Ok(v) => v,
            Err(e) => {
                return Err(e);
            },
        };
        let cols: u32 = match ask32(
            g,
            FormatQuery::PaddedCols { rows: self.n, cols: self.k, block: self.block },
        ) {
            Ok(v) => v,
            Err(e) => {
                return Err(e);
            },
        };
        self.bytes_of_product(rows as usize, cols as usize, c.op, c.padded_text)
    }

    /// Bytes of the elements of the matrix without padding.
    pub fn plain_bytes(&self, c: &CarrierNames) -> (r: Result<usize, T0Error>)
        ensures
            outcome(r) == self.unpadded(*c),
    {
        self.bytes_of_product(self.n as usize, self.k as usize, c.op, c.plain_text)
    }

    /// Bytes that a matrix without separate scale records needs.
    pub fn inline_bytes<G: Fn(FormatQuery) -> Result<u64, FormatError>>(
        &self,
        g: &G,
        padded: usize,
        values: usize,
        c: &CarrierNames,
    ) -> (r: Result<usize, T0Error>)
        requires
            is_format(*g),
        ensures
            outcome(r) == self.inline_need(*g, padded, values, *c),
    {
        let scheme = match self.scheme {
            None => {
                return Ok(values);
            },
            Some(s) => s,
        };
        if self.tiled {
            let q = FormatQuery::ScaleBytes {
                scheme,
                rows: self.n,
                cols: self.k,
                block: self.block,
            };
            let region: usize = match ask_size(g, q, "region_bytes") {
                Ok(v) => v,
                Err(e) => {
                    return Err(e);
                },
            };
            match padded.checked_add(region) {
                Some(v) => Ok(v),
                None => Err(overflow(c.op, Detail::plain(c.sum_text))),
            }
        } else {
            let k: u64 = self.k as u64;
            let stride: u64 = match scheme {
                SchemeId::I4K => k / 2 + k / 256 * 16,
                SchemeId::I8B128 | SchemeId::E4M3B128 => k + k / 128 * 2,
                _ => k + 2,
            };
            match (self.n as u64).checked_mul(stride) {
                Some(v) => u64_to_usize(v, "l0_region_bytes"),
                None => Err(T0Error::Format(FormatError::Overflow)),
            }
        }
    }

    /// Checks a separate scale operand of a row-major matrix.
    fn check_row_scales(&self, ws: &TensorView<'_>, c: &CarrierNames) -> (r: Result<(), T0Error>)
        requires
            self.scheme is Some,
            ws@.backed(),
            ws@.cells is Bytes,
        ensures
            outcome(r) == fault_result(self.row_scale_fault(ws@, *c)),
    {
        let n: usize = self.n as usize;
        let k: usize = self.k as usize;
        let wanted = if self.scheme == Some(SchemeId::I4K) {
            DType::U32
        } else {
            DType::F16
        };
        if ws.dtype() != wanted {
            return Err(dtype_mismatch(c.scale_tensor, only(wanted), ws.dtype()));
        }
        let shape = ws.shape();
        let expected = match self.scheme {
            Some(SchemeId::I4K) => vec![n, k / 256, 4usize],
            Some(SchemeId::I8B128) | Some(SchemeId::E4M3B128) => vec![n, k / 128],
            _ => vec![n],
        };
        assert(expected@ =~= self.row_scale_shape());
        if !shape_is(shape, &expected) {
            let first: usize = if shape.len() > 0 {
                shape[0]
            } else {
                0
            };
            let second: usize = if shape.len() > 1 {
                shape[1]
            } else {
                first
            };
            return Err(
                match self.scheme {
                    Some(SchemeId::I4K) => dim_mismatch(
                        "K_superblocks",
                        c.tensor,
                        k / 256,
                        c.scale_tensor,
                        second,
                    ),
                    Some(SchemeId::I8B128) | Some(SchemeId::E4M3B128) => dim_mismatch(
                        "K_blocks",
                        c.tensor,
                        k / 128,
                        c.scale_tensor,
                        second,
                    ),
                    _ => dim_mismatch(c.row_dim, c.tensor, n, c.scale_tensor, first),
                },
            );
        }
        let have: usize = ws.backing_len();
        let ghost per = row_records(self.scheme, k as int);
        proof {
            if self.scheme == Some(SchemeId::I4K) {
                lemma_extent3(ws@.shape);
                assert(byte_len(DType::U32, ws@.count()) == 4 * ws@.count());
                assert(4 * (n * (k / 256) * 4) == n * (k / 256) * 16) by (nonlinear_arith);
            } else if per == 1 && !(self.scheme == Some(SchemeId::I8B128) || self.scheme == Some(
                SchemeId::E4M3B128,
            )) {
                lemma_extent1(ws@.shape);
            } else {
                lemma_extent2(ws@.shape);
                assert(2 * (n * (k / 128)) == n * (k / 128) * 2) by (nonlinear_arith);
            }
        }
        let need: usize = match self.scheme {
            Some(SchemeId::I4K) => n * (k / 256) * 16,
            Some(SchemeId::I8B128) | Some(SchemeId::E4M3B128) => n * (k / 128) * 2,
            _ => n * 2,
        };
        if have != need {
            return Err(length_mismatch(c.scale_tensor, have, need, shape));
        }
        Ok(())
    }

    /// Checks a separate scale operand of a tiled matrix.
    fn check_tiled_scales<G: Fn(FormatQuery) -> Result<u64, FormatError>>(
        &self,
        g: &G,
        ws: &TensorView<'_>,
        c: &CarrierNames,
    ) -> (r: Result<(), T0Error>)
        requires
            is_format(*g),
            self.scheme is Some,
            ws@.backed(),
            ws@.cells is Bytes,
        ensures
            outcome(r) == fault_result(self.tiled_scale_fault(*g, ws@, *c)),
    {
        let scheme = match self.scheme {
            Some(s) => s,
            None => SchemeId::I8R,
        };
        let rows: u32 = self.n;
        let cols: u32 = self.k;
        let block: u32 = self.block;
        let q = FormatQuery::ScaleRowBlocks { scheme, rows, cols, block };
        let nb: usize = match ask_size(g, q, "n_blocks") {
            Ok(v) => v,
            Err(e) => {
                return Err(e);
            },
        };
        let q = FormatQuery::ScaleColBlocks { scheme, rows, cols, block };
        let kb: usize = match ask_size(g, q, "k_blocks") {
            Ok(v) => v,
            Err(e) => {
                return Err(e);
            },
        };
        let q = FormatQuery::ScaleBytes { scheme, rows, cols, block };
        let need: usize = match ask_size(g, q, "region_bytes") {
            Ok(v) => v,
            Err(e) => {
                return Err(e);
            },
        };
        let wanted = if self.scheme == Some(SchemeId::I4K) {
            DType::U32
        } else {
            DType::F16
        };
        if ws.dtype() != wanted {
            return Err(dtype_mismatch(c.scale_tensor, only(wanted), ws.dtype()));
        }
        let shape = ws.shape();
        let expected = if self.scheme == Some(SchemeId::I4K) {
            vec![nb, kb, 16usize, 4usize]
        } else {
            vec![nb, kb, 16usize]
        };
        assert(expected@ =~= (if self.scheme == Some(SchemeId::I4K) {
            seq![nb, kb, 16, 4]
        } else {
            seq![nb, kb, 16]
        }));
        if !shape_is(shape, &expected) {
            let q = FormatQuery::ScaleRecords { scheme, rows, cols, block };
            let records: u64 = match ask(g, q) {
                Ok(v) => v,
                Err(e) => {
                    return Err(e);
                },
            };
            return Err(
                dim_mismatch(
                    "scale_shape",
                    "scale_geometry",
                    words_of(self.scheme, records),
                    c.scale_tensor,
                    ws.num_elements(),
                ),
            );
        }
        let have: usize = ws.backing_len();
        if have != need {
            return Err(length_mismatch(c.scale_tensor, have, need, shape));
        }
        Ok(())
    }

    /// Checks a separate scale operand, and the elements beside it.
    pub fn check_separate<G: Fn(FormatQuery) -> Result<u64, FormatError>>(
        &self,
        g: &G,
        ws: &TensorView<'_>,
        have: usize,
        values: usize,
        shape: &[usize],
        c: &CarrierNames,
    ) -> (r: Result<(), T0Error>)
        requires
            is_format(*g),
            ws@.backed(),
        ensures
            outcome(r) == fault_result(
                self.separate_fault(*g, ws@, have, values, shape@, *c),
            ),
    {
        if ws.layout() != LayoutId::Contiguous {
            let expected = vec![LayoutId::Contiguous];
            assert(expected@ =~= seq![LayoutId::Contiguous]);
            return Err(
                T0Error::LayoutMismatch { tensor: c.scale_tensor, expected, got: ws.layout() },
            );
        }
        match ws.data {
            TensorData::Bytes(_, _) => {},
            _ => {
                return Err(
                    T0Error::BackingRepresentationMismatch { op: c.op, dtype: ws.dtype() },
                );
            },
        }
        if have < values {
            return Err(length_mismatch(c.tensor, have, values, shape));
        }
        if self.scheme.is_none() {
            return Err(invalid_attr(c.op, c.scale_tensor, Detail::plain(c.stray_text)));
        }
        if self.tiled {
            self.check_tiled_scales(g, ws, c)
        } else {
            self.check_row_scales(ws, c)
        }
    }
}

} // verus!
