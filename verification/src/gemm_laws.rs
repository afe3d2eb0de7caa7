//! What a matrix product depends on.
use vstd::prelude::*;
use crate::arith::FloatOp;
use crate::buffer::Tensor;
use crate::embed_gather::EmbedArgs;
use crate::error::FormatError;
use crate::gemm::{is_activation, Epilogue, GemmArgs};
use crate::index::{lemma_split, lemma_unflat};
use crate::ir::{DType, QuantScheme, SchemeId};
use crate::weight::{record_of, row_records, FormatQuery, Matrix};

verus! {

/// Whether an activation has the code of another of the same type.
pub open spec fn same_activation(x: Tensor, i: int, y: Tensor, j: int) -> bool {
    match x.dtype() {
        DType::I8 => x.i8_at(i) == y.i8_at(j),
        DType::E4m3 => x.byte_at(i) == y.byte_at(j),
        _ => x.cells.f32_at(i) == y.cells.f32_at(j),
    }
}

/// Whether a row of one product has the same activations and scales as a row of
/// another with the same weights.
pub open spec fn same_row(a: GemmArgs, row: int, b: GemmArgs, other: int) -> bool {
    let blocks = if a.x.quant == QuantScheme::PerBlock32 {
        a.w.k / 32
    } else {
        1
    };
    &&& a.w == b.w
    &&& a.x.dtype() == b.x.dtype()
    &&& a.x.quant == b.x.quant
    &&& forall|at: int|
        0 <= at < a.w.k ==> same_activation(
            a.x,
            #[trigger] (row * a.w.k + at),
            b.x,
            other * a.w.k + at,
        )
    &&& a.x.quant != QuantScheme::Unquantized ==> forall|block: int|
        0 <= block < blocks ==> #[trigger] a.x_scale(row, block) == b.x_scale(other, block)
}

/// Scales of the blocks of a row are those of the other row.
proof fn lemma_same_scale(a: GemmArgs, row: int, b: GemmArgs, other: int, block: int)
    requires
        same_row(a, row, b, other),
        0 <= block,
        a.x.quant == QuantScheme::PerBlock32 ==> block < a.w.k / 32,
        a.x.quant != QuantScheme::Unquantized,
    ensures
        a.x_scale(row, block) == b.x_scale(other, block),
{
    assert(a.x.quant != QuantScheme::PerBlock32 ==> a.x_scale(row, 0) == b.x_scale(other, 0));
}

proof fn lemma_int_dot<G: Fn(FormatQuery) -> Result<u64, FormatError>>(
    a: GemmArgs,
    row: int,
    b: GemmArgs,
    other: int,
    g: G,
    col: int,
    start: int,
    count: int,
)
    requires
        a.x.dtype() == DType::I8,
        same_row(a, row, b, other),
        0 <= start,
        start + count <= a.w.k,
        a.int_dot(g, row, col, start, count) is Ok,
    ensures
        b.int_dot(g, other, col, start, count) == a.int_dot(g, row, col, start, count),
    decreases count,
{
    if count > 0 {
        lemma_int_dot(a, row, b, other, g, col, start, count - 1);
        let at = start + count - 1;
        assert(same_activation(a.x, row * a.w.k + at, b.x, other * a.w.k + at));
    }
}

proof fn lemma_nibble_dot<G: Fn(FormatQuery) -> Result<u64, FormatError>>(
    a: GemmArgs,
    row: int,
    b: GemmArgs,
    other: int,
    g: G,
    col: int,
    start: int,
    count: int,
)
    requires
        a.x.dtype() == DType::I8,
        same_row(a, row, b, other),
        0 <= start,
        start + count <= a.w.k,
    ensures
        b.nibble_dot(g, other, col, start, count) == a.nibble_dot(g, row, col, start, count),
    decreases count,
{
    if count > 0 {
        lemma_nibble_dot(a, row, b, other, g, col, start, count - 1);
        let at = start + count - 1;
        assert(same_activation(a.x, row * a.w.k + at, b.x, other * a.w.k + at));
    }
}

proof fn lemma_x_e4m3<G: Fn(FormatQuery) -> Result<u64, FormatError>>(
    a: GemmArgs,
    row: int,
    b: GemmArgs,
    other: int,
    g: G,
    at: int,
)
    requires
        a.x.dtype() == DType::E4m3,
        same_row(a, row, b, other),
        0 <= at < a.w.k,
        a.x_e4m3(g, row * a.w.k + at) is Ok,
        b.x_e4m3(g, other * a.w.k + at) is Ok,
    ensures
        b.x_e4m3(g, other * a.w.k + at) == a.x_e4m3(g, row * a.w.k + at),
{
    assert(same_activation(a.x, row * a.w.k + at, b.x, other * a.w.k + at));
}

proof fn lemma_e4m3_dot<
    F: Fn(FloatOp, u32, u32) -> u32,
    G: Fn(FormatQuery) -> Result<u64, FormatError>,
>(
    a: GemmArgs,
    row: int,
    b: GemmArgs,
    other: int,
    f: F,
    g: G,
    col: int,
    start: int,
    count: int,
)
    requires
        a.x.dtype() == DType::E4m3,
        same_row(a, row, b, other),
        0 <= start,
        start + count <= a.w.k,
        a.e4m3_dot(f, g, row, col, start, count) is Ok,
        b.e4m3_dot(f, g, other, col, start, count) is Ok,
    ensures
        b.e4m3_dot(f, g, other, col, start, count) == a.e4m3_dot(f, g, row, col, start, count),
    decreases count,
{
    if count > 0 {
        lemma_e4m3_dot(a, row, b, other, f, g, col, start, count - 1);
        lemma_x_e4m3(a, row, b, other, g, start + count - 1);
    }
}

proof fn lemma_block_value<
    F: Fn(FloatOp, u32, u32) -> u32,
    G: Fn(FormatQuery) -> Result<u64, FormatError>,
>(
    a: GemmArgs,
    row: int,
    b: GemmArgs,
    other: int,
    f: F,
    g: G,
    col: int,
    size: int,
    block: int,
)
    requires
        a.x.dtype() == (if a.w.scheme == Some(SchemeId::E4M3B128) {
            DType::E4m3
        } else {
            DType::I8
        }),
        is_activation(a.x.dtype(), a.x.quant),
        a.x.quant == QuantScheme::PerBlock32 ==> size == 32,
        0 <= block,
        same_row(a, row, b, other),
        0 <= block * size,
        block * size + size <= a.w.k,
        a.block_value(f, g, row, col, size, block) is Ok,
        b.block_value(f, g, other, col, size, block) is Ok,
    ensures
        b.block_value(f, g, other, col, size, block) == a.block_value(
            f,
            g,
            row,
            col,
            size,
            block,
        ),
{
    let start = block * size;
    lemma_same_scale(a, row, b, other, block);
    match a.w.scheme {
        Some(SchemeId::I4K) => {
            lemma_nibble_dot(a, row, b, other, g, col, start, size);
        },
        Some(SchemeId::E4M3B128) => {
            lemma_e4m3_dot(a, row, b, other, f, g, col, start, size);
        },
        _ => {
            lemma_int_dot(a, row, b, other, g, col, start, size);
        },
    }
}

proof fn lemma_block_sum<
    F: Fn(FloatOp, u32, u32) -> u32,
    G: Fn(FormatQuery) -> Result<u64, FormatError>,
>(
    a: GemmArgs,
    row: int,
    b: GemmArgs,
    other: int,
    f: F,
    g: G,
    col: int,
    size: int,
    count: int,
)
    requires
        a.x.dtype() == (if a.w.scheme == Some(SchemeId::E4M3B128) {
            DType::E4m3
        } else {
            DType::I8
        }),
        is_activation(a.x.dtype(), a.x.quant),
        a.x.quant == QuantScheme::PerBlock32 ==> size == 32,
        same_row(a, row, b, other),
        size > 0,
        count * size <= a.w.k,
        a.block_sum(f, g, row, col, size, count) is Ok,
        b.block_sum(f, g, other, col, size, count) is Ok,
    ensures
        b.block_sum(f, g, other, col, size, count) == a.block_sum(f, g, row, col, size, count),
    decreases count,
{
    if count > 0 {
        assert(0 <= (count - 1) * size && (count - 1) * size + size == count * size)
            by (nonlinear_arith)
            requires
                count >= 1,
                size > 0,
        ;
        lemma_block_sum(a, row, b, other, f, g, col, size, count - 1);
        lemma_block_value(a, row, b, other, f, g, col, size, count - 1);
    }
}

proof fn lemma_real_dot<
    F: Fn(FloatOp, u32, u32) -> u32,
    G: Fn(FormatQuery) -> Result<u64, FormatError>,
>(a: GemmArgs, row: int, b: GemmArgs, other: int, f: F, g: G, col: int, count: int)
    requires
        is_activation(a.x.dtype(), a.x.quant),
        a.x.quant == QuantScheme::PerBlock32 ==> a.w.k % 32 == 0,
        same_row(a, row, b, other),
        count <= a.w.k,
        a.real_dot(f, g, row, col, count) is Ok,
        b.real_dot(f, g, other, col, count) is Ok,
    ensures
        b.real_dot(f, g, other, col, count) == a.real_dot(f, g, row, col, count),
    decreases count,
{
    if count > 0 {
        lemma_real_dot(a, row, b, other, f, g, col, count - 1);
        let at = count - 1;
        assert(same_activation(a.x, row * a.w.k + at, b.x, other * a.w.k + at));
        if a.x.quant != QuantScheme::Unquantized {
            lemma_same_scale(a, row, b, other, at / 32);
            lemma_same_scale(a, row, b, other, 0);
        }
        if a.x.dtype() == DType::E4m3 {
            lemma_x_e4m3(a, row, b, other, g, at);
        }
    }
}

/// A row of a product depends on its own activations and scales and on the
/// weights, not on the batch around it: wherever the same row stands in another
/// batch, its elements have the same bits.
pub proof fn law_row_independent<
    F: Fn(FloatOp, u32, u32) -> u32,
    G: Fn(FormatQuery) -> Result<u64, FormatError>,
>(a: GemmArgs, row: int, b: GemmArgs, other: int, f: F, g: G, col: int)
    requires
        a.w.k > 0,
        is_activation(a.x.dtype(), a.x.quant),
        a.x.quant == QuantScheme::PerBlock32 ==> a.w.k % 32 == 0,
        same_row(a, row, b, other),
        a.epilogue == b.epilogue,
        a.epilogue == Epilogue::Bias ==> a.bias->0.cells.f32_at(col) == b.bias->0.cells.f32_at(col),
        a.epilogue == Epilogue::Residual ==> a.residual->0.cells.f32_at(row * a.w.n + col)
            == b.residual->0.cells.f32_at(other * a.w.n + col),
        a.total(f, g, row, col) is Ok,
        b.total(f, g, other, col) is Ok,
    ensures
        b.total(f, g, other, col) == a.total(f, g, row, col),
        b.finished(f, a.total(f, g, row, col)->Ok_0, other, col) == a.finished(
            f,
            a.total(f, g, row, col)->Ok_0,
            row,
            col,
        ),
{
    let size = a.block_size();
    if a.single_block() {
        assert(0 * size == 0) by (nonlinear_arith);
        lemma_block_value(a, row, b, other, f, g, col, size, 0);
    } else if size > 0 {
        vstd::arithmetic::div_mod::lemma_fundamental_div_mod(a.w.k, size);
        assert(a.w.k / size * size <= a.w.k) by (nonlinear_arith)
            requires
                a.w.k == size * (a.w.k / size) + a.w.k % size,
                0 <= a.w.k % size,
        ;
        lemma_block_sum(a, row, b, other, f, g, col, size, a.w.k / size);
    } else {
        lemma_real_dot(a, row, b, other, f, g, col, a.w.k);
    }
}

/// Whether two matrices have the same code for an element, wherever each stores
/// it.
pub open spec fn same_code<G: Fn(FormatQuery) -> Result<u64, FormatError>>(
    g: G,
    a: Matrix,
    b: Matrix,
    row: int,
    col: int,
) -> bool {
    match a.scheme {
        None => a.half_value(g, row, col) == b.half_value(g, row, col),
        Some(SchemeId::I4K) => a.nibble_value(g, row, col) == b.nibble_value(g, row, col),
        _ => a.byte_value(g, row, col) == b.byte_value(g, row, col),
    }
}

/// Whether two matrices have the same scale record, wherever each stores it.
pub open spec fn same_record<G: Fn(FormatQuery) -> Result<u64, FormatError>>(
    g: G,
    a: Matrix,
    b: Matrix,
    row: int,
    record: int,
) -> bool {
    match a.scheme {
        Some(SchemeId::I4K) => a.record_value(g, row, record) == b.record_value(g, row, record),
        _ => a.scale_value(g, row, record) == b.scale_value(g, row, record),
    }
}

/// Whether two matrices hold the same codes and the same scale records, element
/// by element, wherever each stores them.
pub open spec fn same_codes<G: Fn(FormatQuery) -> Result<u64, FormatError>>(
    g: G,
    a: Matrix,
    b: Matrix,
) -> bool {
    &&& a.scheme == b.scheme
    &&& a.n == b.n
    &&& a.k == b.k
    &&& forall|row: int, col: int|
        0 <= row < a.n && 0 <= col < a.k ==> #[trigger] same_code(g, a, b, row, col)
    &&& forall|row: int, record: int|
        0 <= row < a.n && 0 <= record < row_records(a.scheme, a.k) ==> #[trigger] same_record(
            g,
            a,
            b,
            row,
            record,
        )
}

/// How weights are stored does not matter: matrices that hold the same codes and
/// scale records stand for the same numbers, whether one is tiled and the other
/// is not.
pub proof fn law_layout_independent<
    F: Fn(FloatOp, u32, u32) -> u32,
    G: Fn(FormatQuery) -> Result<u64, FormatError>,
>(a: Matrix, b: Matrix, f: F, g: G, row: int, col: int)
    requires
        a.wf(),
        same_codes(g, a, b),
        0 <= row < a.n,
        0 <= col < a.k,
    ensures
        a.element(f, g, row, col) == b.element(f, g, row, col),
{
    assert(same_code(g, a, b, row, col));
    if a.scheme is Some {
        lemma_record_bound(a, col);
        assert(same_record(g, a, b, row, record_of(a.scheme, col)));
        if a.scheme == Some(SchemeId::I4K) {
            assert(col / 32 / 8 == col / 256);
        }
    }
}

/// The record that covers a column is one of its row.
pub proof fn lemma_record_bound(a: Matrix, col: int)
    requires
        a.wf(),
        a.scheme is Some,
        0 <= col < a.k,
    ensures
        0 <= record_of(a.scheme, col) < row_records(a.scheme, a.k),
{
}

proof fn lemma_same_dots<
    F: Fn(FloatOp, u32, u32) -> u32,
    G: Fn(FormatQuery) -> Result<u64, FormatError>,
>(
    a: GemmArgs,
    b: GemmArgs,
    f: F,
    g: G,
    row: int,
    col: int,
    start: int,
    count: int,
)
    requires
        same_codes(g, a.w, b.w),
        b == (GemmArgs { w: b.w, ..a }),
        0 <= col < a.w.n,
        0 <= start,
        start + count <= a.w.k,
    ensures
        a.w.scheme == Some(SchemeId::I4K) ==> a.nibble_dot(g, row, col, start, count)
            == b.nibble_dot(g, row, col, start, count),
        a.w.scheme is Some && a.w.scheme != Some(SchemeId::I4K) ==> a.int_dot(
            g,
            row,
            col,
            start,
            count,
        ) == b.int_dot(g, row, col, start, count) && a.e4m3_dot(f, g, row, col, start, count)
            == b.e4m3_dot(f, g, row, col, start, count),
    decreases count,
{
    if count > 0 {
        lemma_same_dots(a, b, f, g, row, col, start, count - 1);
        let at = start + count - 1;
        assert(same_code(g, a.w, b.w, col, at));
    }
}

proof fn lemma_same_blocks<
    F: Fn(FloatOp, u32, u32) -> u32,
    G: Fn(FormatQuery) -> Result<u64, FormatError>,
>(
    a: GemmArgs,
    b: GemmArgs,
    f: F,
    g: G,
    row: int,
    col: int,
    size: int,
    block: int,
)
    requires
        a.w.wf(),
        a.w.scheme is Some,
        same_codes(g, a.w, b.w),
        b == (GemmArgs { w: b.w, ..a }),
        0 <= col < a.w.n,
        0 < size,
        0 <= block,
        0 <= block * size,
        block * size + size <= a.w.k,
        a.w.scheme == Some(SchemeId::I4K) ==> size == 32,
        a.w.scheme == Some(SchemeId::E4M3B128) ==> size == 128,
    ensures
        a.block_value(f, g, row, col, size, block) == b.block_value(f, g, row, col, size, block),
{
    let start = block * size;
    lemma_same_dots(a, b, f, g, row, col, start, size);
    lemma_record_bound(a.w, start);
    assert(same_record(g, a.w, b.w, col, record_of(a.w.scheme, start)));
    if a.w.scheme == Some(SchemeId::I4K) {
        assert(start / 256 == block / 8);
    }
    if a.w.scheme == Some(SchemeId::E4M3B128) {
        assert(start / 128 == block);
    }
}

proof fn lemma_same_block_sum<
    F: Fn(FloatOp, u32, u32) -> u32,
    G: Fn(FormatQuery) -> Result<u64, FormatError>,
>(
    a: GemmArgs,
    b: GemmArgs,
    f: F,
    g: G,
    row: int,
    col: int,
    size: int,
    count: int,
)
    requires
        a.w.wf(),
        a.w.scheme is Some,
        same_codes(g, a.w, b.w),
        b == (GemmArgs { w: b.w, ..a }),
        0 <= col < a.w.n,
        0 < size,
        count * size <= a.w.k,
        a.w.scheme == Some(SchemeId::I4K) ==> size == 32,
        a.w.scheme == Some(SchemeId::E4M3B128) ==> size == 128,
    ensures
        a.block_sum(f, g, row, col, size, count) == b.block_sum(f, g, row, col, size, count),
    decreases count,
{
    if count > 0 {
        assert(0 <= (count - 1) * size && (count - 1) * size + size == count * size)
            by (nonlinear_arith)
            requires
                count >= 1,
                size > 0,
        ;
        lemma_same_block_sum(a, b, f, g, row, col, size, count - 1);
        lemma_same_blocks(a, b, f, g, row, col, size, count - 1);
    }
}

proof fn lemma_same_real_dot<
    F: Fn(FloatOp, u32, u32) -> u32,
    G: Fn(FormatQuery) -> Result<u64, FormatError>,
>(a: GemmArgs, b: GemmArgs, f: F, g: G, row: int, col: int, count: int)
    requires
        a.w.wf(),
        same_codes(g, a.w, b.w),
        b == (GemmArgs { w: b.w, ..a }),
        0 <= col < a.w.n,
        count <= a.w.k,
    ensures
        a.real_dot(f, g, row, col, count) == b.real_dot(f, g, row, col, count),
    decreases count,
{
    if count > 0 {
        lemma_same_real_dot(a, b, f, g, row, col, count - 1);
        law_layout_independent(a.w, b.w, f, g, col, count - 1);
    }
}

/// A product does not depend on how its weights are stored: weights that hold
/// the same codes and scale records give elements with the same bits.
pub proof fn law_product_layout<
    F: Fn(FloatOp, u32, u32) -> u32,
    G: Fn(FormatQuery) -> Result<u64, FormatError>,
>(a: GemmArgs, b: GemmArgs, f: F, g: G, i: int)
    requires
        a.w.wf(),
        same_codes(g, a.w, b.w),
        b == (GemmArgs { w: b.w, ..a }),
    ensures
        a.cell(f, g, i) == b.cell(f, g, i),
{
    let row = i / a.w.n;
    let col = i % a.w.n;
    let size = a.block_size();
    if a.single_block() {
        assert(0 * size == 0) by (nonlinear_arith);
        lemma_same_blocks(a, b, f, g, row, col, size, 0);
    } else if size > 0 {
        vstd::arithmetic::div_mod::lemma_fundamental_div_mod(a.w.k, size);
        assert(a.w.k / size * size <= a.w.k) by (nonlinear_arith)
            requires
                a.w.k == size * (a.w.k / size) + a.w.k % size,
                0 <= a.w.k % size,
        ;
        lemma_same_block_sum(a, b, f, g, row, col, size, a.w.k / size);
    } else {
        lemma_same_real_dot(a, b, f, g, row, col, a.w.k);
    }
}

/// Embeddings do not depend on how their table is stored: tables that hold the
/// same codes and scale records give elements with the same bits.
pub proof fn law_embed_layout<
    F: Fn(FloatOp, u32, u32) -> u32,
    G: Fn(FormatQuery) -> Result<u64, FormatError>,
>(a: EmbedArgs, b: EmbedArgs, f: F, g: G, i: int)
    requires
        a.wf(),
        same_codes(g, a.table, b.table),
        b == (EmbedArgs { table: b.table, ..a }),
        0 <= i < a.size(),
    ensures
        a.cell(f, g, i) == b.cell(f, g, i),
{
    lemma_unflat(i, a.t, a.table.k);
    let token = a.ids.u32_at(i / a.table.k);
    law_layout_independent(a.table, b.table, f, g, token as int, i % a.table.k);
}

/// An embedding depends on its token and the table alone: wherever the same
/// token stands in another batch, its elements have the same bits.
pub proof fn law_embed_row_independent<
    F: Fn(FloatOp, u32, u32) -> u32,
    G: Fn(FormatQuery) -> Result<u64, FormatError>,
>(
    a: EmbedArgs,
    b: EmbedArgs,
    f: F,
    g: G,
    row: int,
    other: int,
    d: int,
)
    requires
        a.table == b.table,
        a.scale == b.scale,
        a.ids.u32_at(row) == b.ids.u32_at(other),
        0 <= row,
        0 <= other,
        0 <= d < a.table.k,
    ensures
        a.cell(f, g, row * a.table.k + d) == b.cell(f, g, other * a.table.k + d),
{
    lemma_split(row, d, a.table.k);
    lemma_split(other, d, a.table.k);
}

} // verus!
