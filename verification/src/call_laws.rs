//! Laws over several calls, stated of the tensors that the calls take and give.
use vstd::prelude::*;
use crate::arith::FloatOp;
use crate::buffer::Tensor;
use crate::carrier_laws::{
    is_carrier_pair, is_tiling, law_carrier_pair, law_tiling_pair, same_rows,
};
use crate::embed_gather::{
    embed_args, embed_fault, embed_matrix, lemma_embed_fits, EmbedArgs, EmbedGatherOp,
};
use crate::error::FormatError;
use crate::exec_prepare::Operand;
use crate::gemm::{Epilogue, GemmArgs};
use crate::gemm_laws::{
    law_embed_layout, law_product_layout, law_row_independent, same_codes, same_row,
};
use crate::index::{lemma_flat_bound, lemma_split};
use crate::ir::LayoutId;
use crate::kernels::{embed_output, matmul_output};
use crate::matmul::{
    gemm_args, lemma_computed_le, lemma_matmul_fits, lemma_no_dim_faults, lemma_no_form_faults,
    matmul_fault, matmul_matrix, weight_dims, weight_scheme, MatmulOp,
};
use crate::storage_laws::{coded, law_write_all_bits};
use crate::weight::FormatQuery;

verus! {

/// Whether a storage is one that a machine can hold.
pub open spec fn fits_memory(t: Tensor) -> bool {
    t.cells.len() <= usize::MAX
}

/// Whether the storage of an operand is one that a machine can hold.
pub open spec fn opt_fits_memory(t: Option<Tensor>) -> bool {
    t matches Some(t) ==> fits_memory(t)
}

/// All elements up to the first without a value have one.
proof fn lemma_cells_ok<
    F: Fn(FloatOp, u32, u32) -> u32,
    G: Fn(FormatQuery) -> Result<u64, FormatError>,
>(a: GemmArgs, f: F, g: G, n: int, i: int)
    requires
        0 <= i < n,
        a.computed(f, g, n) == n,
    ensures
        a.cell(f, g, i) is Ok,
    decreases n,
{
    lemma_computed_le(a, f, g, n - 1);
    if i < n - 1 {
        lemma_cells_ok(a, f, g, n - 1, i);
    }
}

/// What a product that succeeds leaves in its output.
pub proof fn lemma_product_bits<
    F: Fn(FloatOp, u32, u32) -> u32,
    G: Fn(FormatQuery) -> Result<u64, FormatError>,
>(
    f: F,
    g: G,
    op: MatmulOp,
    x: Operand,
    w: Operand,
    bias: Option<Tensor>,
    residual: Option<Tensor>,
    y: Tensor,
    i: int,
)
    requires
        matmul_output(f, g, op, x, w, bias, residual, y) is Ok,
        fits_memory(x.tensor),
        fits_memory(w.tensor),
        opt_fits_memory(x.scale),
        opt_fits_memory(w.scale),
        opt_fits_memory(bias),
        opt_fits_memory(residual),
        fits_memory(y),
        0 <= i < y.count(),
    ensures
        ({
            let a = gemm_args(g, op, x.tensor, x.scale, w.tensor, w.scale, bias, residual);
            let out = matmul_output(f, g, op, x, w, bias, residual, y)->Ok_0;
            &&& a.wf()
            &&& y.count() == a.size()
            &&& a.w.n == y.shape[1]
            &&& a.cell(f, g, i) is Ok
            &&& out.cells.raw_at(i) == coded(op.out_dtype, a.cell(f, g, i)->Ok_0)
        }),
{
    let a = gemm_args(g, op, x.tensor, x.scale, w.tensor, w.scale, bias, residual);
    assert(matmul_fault(g, op, x.tensor, x.scale, w.tensor, w.scale, bias, residual, y) is None);
    lemma_matmul_fits(g, op, x.tensor, x.scale, w.tensor, w.scale, bias, residual, y);
    lemma_no_form_faults(op, x.tensor, x.scale, w.tensor, w.scale, bias, residual, y);
    lemma_no_dim_faults(op, x.tensor, x.scale, w.tensor, w.scale, bias, residual, y);
    lemma_computed_le(a, f, g, a.size());
    assert(a.computed(f, g, a.size()) == a.size());
    lemma_cells_ok(a, f, g, a.size(), i);
    law_write_all_bits(y.cells, a.values(f, g), i);
}

/// A row of a product depends on its own activations, its scales and the
/// weights: if two products with the same weights and bias succeed, rows with the
/// same activations and scales have the same bits, whatever the batches around
/// them are.
pub proof fn law_product_rows<
    F: Fn(FloatOp, u32, u32) -> u32,
    G: Fn(FormatQuery) -> Result<u64, FormatError>,
>(
    f: F,
    g: G,
    op: MatmulOp,
    w: Operand,
    bias: Option<Tensor>,
    x: Operand,
    residual: Option<Tensor>,
    y: Tensor,
    row: int,
    other_x: Operand,
    other_residual: Option<Tensor>,
    other_y: Tensor,
    other: int,
    col: int,
)
    requires
        op.epilogue != Epilogue::Residual,
        fits_memory(w.tensor) && opt_fits_memory(w.scale) && opt_fits_memory(bias),
        fits_memory(x.tensor) && opt_fits_memory(x.scale) && opt_fits_memory(residual),
        fits_memory(other_x.tensor) && opt_fits_memory(other_x.scale) && opt_fits_memory(
            other_residual,
        ),
        fits_memory(y) && fits_memory(other_y),
        matmul_output(f, g, op, x, w, bias, residual, y) is Ok,
        matmul_output(f, g, op, other_x, w, bias, other_residual, other_y) is Ok,
        0 <= row < y.shape[0],
        0 <= other < other_y.shape[0],
        0 <= col < y.shape[1],
        same_row(
            gemm_args(g, op, x.tensor, x.scale, w.tensor, w.scale, bias, residual),
            row,
            gemm_args(g, op, other_x.tensor, other_x.scale, w.tensor, w.scale, bias, other_residual),
            other,
        ),
    ensures
        matmul_output(f, g, op, x, w, bias, residual, y)->Ok_0.cells.raw_at(
            row * y.shape[1] + col,
        ) == matmul_output(
            f,
            g,
            op,
            other_x,
            w,
            bias,
            other_residual,
            other_y,
        )->Ok_0.cells.raw_at(other * y.shape[1] + col),
{
    let a = gemm_args(g, op, x.tensor, x.scale, w.tensor, w.scale, bias, residual);
    let b = gemm_args(
        g,
        op,
        other_x.tensor,
        other_x.scale,
        w.tensor,
        w.scale,
        bias,
        other_residual,
    );
    lemma_output_shape(f, g, op, x, w, bias, residual, y);
    lemma_output_shape(f, g, op, other_x, w, bias, other_residual, other_y);
    let n = y.shape[1] as int;
    lemma_flat_bound(row, y.shape[0] as int, col, n);
    lemma_flat_bound(other, other_y.shape[0] as int, col, n);
    lemma_product_bits(f, g, op, x, w, bias, residual, y, row * n + col);
    lemma_product_bits(
        f,
        g,
        op,
        other_x,
        w,
        bias,
        other_residual,
        other_y,
        other * n + col,
    );
    lemma_split(row, col, n);
    lemma_split(other, col, n);
    law_row_independent(a, row, b, other, f, g, col);
}

/// The shape of the output of a product that succeeds.
pub proof fn lemma_output_shape<
    F: Fn(FloatOp, u32, u32) -> u32,
    G: Fn(FormatQuery) -> Result<u64, FormatError>,
>(
    f: F,
    g: G,
    op: MatmulOp,
    x: Operand,
    w: Operand,
    bias: Option<Tensor>,
    residual: Option<Tensor>,
    y: Tensor,
)
    requires
        matmul_output(f, g, op, x, w, bias, residual, y) is Ok,
        fits_memory(y),
    ensures
        y.rank() == 2,
        y.count() == y.shape[0] * y.shape[1],
        y.shape[1] == weight_dims(op, w.tensor).0,
{
    assert(matmul_fault(g, op, x.tensor, x.scale, w.tensor, w.scale, bias, residual, y) is None);
    lemma_no_form_faults(op, x.tensor, x.scale, w.tensor, w.scale, bias, residual, y);
    lemma_no_dim_faults(op, x.tensor, x.scale, w.tensor, w.scale, bias, residual, y);
    crate::buffer::lemma_extent2(y.shape);
}

/// Two products that succeed give the same bits if their weights hold the same
/// codes and scale records.
proof fn lemma_same_products<
    F: Fn(FloatOp, u32, u32) -> u32,
    G: Fn(FormatQuery) -> Result<u64, FormatError>,
>(
    f: F,
    g: G,
    op: MatmulOp,
    x: Operand,
    bias: Option<Tensor>,
    residual: Option<Tensor>,
    w: Operand,
    y: Tensor,
    other_w: Operand,
    other_y: Tensor,
    i: int,
)
    requires
        fits_memory(x.tensor) && opt_fits_memory(x.scale),
        opt_fits_memory(bias) && opt_fits_memory(residual),
        fits_memory(w.tensor) && opt_fits_memory(w.scale),
        fits_memory(other_w.tensor) && opt_fits_memory(other_w.scale),
        fits_memory(y) && fits_memory(other_y),
        matmul_output(f, g, op, x, w, bias, residual, y) is Ok,
        matmul_output(f, g, op, x, other_w, bias, residual, other_y) is Ok,
        same_codes(
            g,
            matmul_matrix(g, op, w.tensor, w.scale),
            matmul_matrix(g, op, other_w.tensor, other_w.scale),
        ),
        0 <= i < y.count(),
        y.count() == other_y.count(),
    ensures
        matmul_output(f, g, op, x, w, bias, residual, y)->Ok_0.cells.raw_at(i) == matmul_output(
            f,
            g,
            op,
            x,
            other_w,
            bias,
            residual,
            other_y,
        )->Ok_0.cells.raw_at(i),
{
    lemma_product_bits(f, g, op, x, w, bias, residual, y, i);
    lemma_product_bits(f, g, op, x, other_w, bias, residual, other_y, i);
    let a = gemm_args(g, op, x.tensor, x.scale, w.tensor, w.scale, bias, residual);
    let b = gemm_args(g, op, x.tensor, x.scale, other_w.tensor, other_w.scale, bias, residual);
    assert(b == (GemmArgs { w: b.w, ..a }));
    law_product_layout(a, b, f, g, i);
}

/// Where scale records are carried does not change a product: weights in rows
/// with their records behind each row, and the same rows with the records as an
/// operand of its own, give outputs with the same bits if both products succeed.
pub proof fn law_product_carrier<
    F: Fn(FloatOp, u32, u32) -> u32,
    G: Fn(FormatQuery) -> Result<u64, FormatError>,
>(
    f: F,
    g: G,
    op: MatmulOp,
    x: Operand,
    bias: Option<Tensor>,
    residual: Option<Tensor>,
    joint: Tensor,
    y: Tensor,
    values: Tensor,
    records: Tensor,
    other_y: Tensor,
    i: int,
)
    requires
        fits_memory(x.tensor) && opt_fits_memory(x.scale),
        opt_fits_memory(bias) && opt_fits_memory(residual),
        fits_memory(joint) && fits_memory(values) && fits_memory(records),
        fits_memory(y) && fits_memory(other_y),
        ({
            let a = Operand { tensor: joint, scale: None };
            let b = Operand { tensor: values, scale: Some(records) };
            &&& matmul_output(f, g, op, x, a, bias, residual, y) is Ok
            &&& matmul_output(f, g, op, x, b, bias, residual, other_y) is Ok
        }),
        joint.shape == values.shape,
        joint.dtype() == values.dtype(),
        joint.quant == values.quant,
        joint.layout != LayoutId::L1 && values.layout != LayoutId::L1,
        weight_scheme(joint.dtype(), joint.quant) is Some,
        same_rows(
            weight_scheme(joint.dtype(), joint.quant),
            weight_dims(op, joint).0 as int,
            weight_dims(op, joint).1 as int,
            joint.cells->Bytes_1,
            values.cells->Bytes_1,
            records.cells->Bytes_1,
        ),
        0 <= i < y.count(),
    ensures
        ({
            let a = Operand { tensor: joint, scale: None };
            let b = Operand { tensor: values, scale: Some(records) };
            matmul_output(f, g, op, x, a, bias, residual, y)->Ok_0.cells.raw_at(i)
                == matmul_output(f, g, op, x, b, bias, residual, other_y)->Ok_0.cells.raw_at(i)
        }),
{
    let a = Operand { tensor: joint, scale: None };
    let b = Operand { tensor: values, scale: Some(records) };
    let v = matmul_matrix(g, op, joint, None);
    let w = matmul_matrix(g, op, values, Some(records));
    lemma_output_shape(f, g, op, x, a, bias, residual, y);
    lemma_output_shape(f, g, op, x, b, bias, residual, other_y);
    lemma_rows(f, g, op, x, a, bias, residual, y);
    lemma_rows(f, g, op, x, b, bias, residual, other_y);
    lemma_product_bits(f, g, op, x, a, bias, residual, y, i);
    lemma_product_bits(f, g, op, x, b, bias, residual, other_y, i);
    assert(is_carrier_pair(v, w));
    law_carrier_pair(g, v, w);
    lemma_same_products(f, g, op, x, bias, residual, a, y, b, other_y, i);
}

/// A product that succeeds has a row per row of its activations.
proof fn lemma_rows<
    F: Fn(FloatOp, u32, u32) -> u32,
    G: Fn(FormatQuery) -> Result<u64, FormatError>,
>(
    f: F,
    g: G,
    op: MatmulOp,
    x: Operand,
    w: Operand,
    bias: Option<Tensor>,
    residual: Option<Tensor>,
    y: Tensor,
)
    requires
        matmul_output(f, g, op, x, w, bias, residual, y) is Ok,
    ensures
        y.shape[0] == x.tensor.shape[0],
        0 < weight_dims(op, w.tensor).0 <= u32::MAX,
        0 < weight_dims(op, w.tensor).1 <= u32::MAX,
{
    assert(matmul_fault(g, op, x.tensor, x.scale, w.tensor, w.scale, bias, residual, y) is None);
    lemma_no_form_faults(op, x.tensor, x.scale, w.tensor, w.scale, bias, residual, y);
    lemma_no_dim_faults(op, x.tensor, x.scale, w.tensor, w.scale, bias, residual, y);
}

/// Elements of a gather up to the first without a value have one.
proof fn lemma_embed_cells_ok<
    F: Fn(FloatOp, u32, u32) -> u32,
    G: Fn(FormatQuery) -> Result<u64, FormatError>,
>(a: EmbedArgs, f: F, g: G, n: int, i: int)
    requires
        0 <= n,
        a.computed(f, g, n) == n,
    ensures
        0 <= i < n ==> a.cell(f, g, i) is Ok,
    decreases n,
{
    if n > 0 {
        lemma_embed_computed(a, f, g, n - 1);
        lemma_embed_cells_ok(a, f, g, n - 1, i);
    }
}

proof fn lemma_embed_computed<
    F: Fn(FloatOp, u32, u32) -> u32,
    G: Fn(FormatQuery) -> Result<u64, FormatError>,
>(a: EmbedArgs, f: F, g: G, n: int)
    requires
        0 <= n,
    ensures
        0 <= a.computed(f, g, n) <= n,
    decreases n,
{
    if n > 0 {
        lemma_embed_computed(a, f, g, n - 1);
    }
}

/// What a gather that succeeds leaves in its output.
pub proof fn lemma_embed_bits<
    F: Fn(FloatOp, u32, u32) -> u32,
    G: Fn(FormatQuery) -> Result<u64, FormatError>,
>(f: F, g: G, op: EmbedGatherOp, ids: Tensor, table: Operand, x: Tensor, i: int)
    requires
        embed_output(f, g, op, ids, table, x) is Ok,
        fits_memory(ids) && fits_memory(table.tensor) && fits_memory(x),
        0 <= i < x.count(),
    ensures
        ({
            let a = embed_args(g, op, ids, table.tensor, table.scale);
            &&& a.wf()
            &&& x.count() == a.size()
            &&& a.cell(f, g, i) is Ok
            &&& embed_output(f, g, op, ids, table, x)->Ok_0.cells.raw_at(i) == coded(
                op.out_dtype,
                a.cell(f, g, i)->Ok_0,
            )
        }),
{
    let a = embed_args(g, op, ids, table.tensor, table.scale);
    assert(embed_fault(g, op, ids, table.tensor, table.scale, x) is None);
    lemma_embed_fits(g, op, ids, table.tensor, table.scale, x);
    lemma_embed_computed(a, f, g, a.size());
    let n = a.size();
    assert(a.computed(f, g, n) == n);
    lemma_embed_cells_ok(a, f, g, n, i);
    assert(n / a.table.k * a.table.k == n) by {
        lemma_split(a.t, 0, a.table.k);
    }
    assert(a.values(f, g).len() == n);
    law_write_all_bits(x.cells, a.values(f, g), i);
}

/// How a table is laid out does not change embeddings: a table in rows and its
/// tiling give outputs with the same bits if both gathers succeed.
pub proof fn law_embed_tiling<
    F: Fn(FloatOp, u32, u32) -> u32,
    G: Fn(FormatQuery) -> Result<u64, FormatError>,
>(
    f: F,
    g: G,
    op: EmbedGatherOp,
    ids: Tensor,
    rows: Operand,
    x: Tensor,
    tiles: Operand,
    other_x: Tensor,
    i: int,
)
    requires
        fits_memory(ids) && fits_memory(rows.tensor) && fits_memory(tiles.tensor),
        fits_memory(x) && fits_memory(other_x),
        embed_output(f, g, op, ids, rows, x) is Ok,
        embed_output(f, g, op, ids, tiles, other_x) is Ok,
        is_tiling(
            g,
            embed_matrix(g, rows.tensor, rows.scale),
            embed_matrix(g, tiles.tensor, tiles.scale),
        ),
        0 <= i < x.count(),
    ensures
        embed_output(f, g, op, ids, rows, x)->Ok_0.cells.raw_at(i) == embed_output(
            f,
            g,
            op,
            ids,
            tiles,
            other_x,
        )->Ok_0.cells.raw_at(i),
{
    let a = embed_args(g, op, ids, rows.tensor, rows.scale);
    let b = embed_args(g, op, ids, tiles.tensor, tiles.scale);
    lemma_embed_bits(f, g, op, ids, rows, x, i);
    assert(embed_fault(g, op, ids, tiles.tensor, tiles.scale, other_x) is None);
    lemma_embed_fits(g, op, ids, tiles.tensor, tiles.scale, other_x);
    lemma_embed_bits(f, g, op, ids, tiles, other_x, i);
    law_tiling_pair(g, a.table, b.table);
    assert(b == (EmbedArgs { table: b.table, ..a }));
    law_embed_layout(a, b, f, g, i);
}

/// How weights are laid out does not change a product: weights in rows and their
/// tiling give outputs with the same bits if both products succeed.
pub proof fn law_product_tiling<
    F: Fn(FloatOp, u32, u32) -> u32,
    G: Fn(FormatQuery) -> Result<u64, FormatError>,
>(
    f: F,
    g: G,
    op: MatmulOp,
    x: Operand,
    bias: Option<Tensor>,
    residual: Option<Tensor>,
    rows: Operand,
    y: Tensor,
    tiles: Operand,
    other_y: Tensor,
    i: int,
)
    requires
        fits_memory(x.tensor) && opt_fits_memory(x.scale),
        opt_fits_memory(bias) && opt_fits_memory(residual),
        fits_memory(rows.tensor) && opt_fits_memory(rows.scale),
        fits_memory(tiles.tensor) && opt_fits_memory(tiles.scale),
        fits_memory(y) && fits_memory(other_y),
        matmul_output(f, g, op, x, rows, bias, residual, y) is Ok,
        matmul_output(f, g, op, x, tiles, bias, residual, other_y) is Ok,
        is_tiling(
            g,
            matmul_matrix(g, op, rows.tensor, rows.scale),
            matmul_matrix(g, op, tiles.tensor, tiles.scale),
        ),
        0 <= i < y.count(),
    ensures
        matmul_output(f, g, op, x, rows, bias, residual, y)->Ok_0.cells.raw_at(i)
            == matmul_output(f, g, op, x, tiles, bias, residual, other_y)->Ok_0.cells.raw_at(i),
{
    lemma_output_shape(f, g, op, x, rows, bias, residual, y);
    lemma_output_shape(f, g, op, x, tiles, bias, residual, other_y);
    lemma_rows(f, g, op, x, rows, bias, residual, y);
    lemma_rows(f, g, op, x, tiles, bias, residual, other_y);
    law_tiling_pair(
        g,
        matmul_matrix(g, op, rows.tensor, rows.scale),
        matmul_matrix(g, op, tiles.tensor, tiles.scale),
    );
    lemma_same_products(f, g, op, x, bias, residual, rows, y, tiles, other_y, i);
}

} // verus!
