//! What element-by-element kernels compute.
use vstd::prelude::*;
use crate::act_mul::{act_mul_fault, ActMulOp};
use crate::activation::{
    activated, activation_fault, bounded, lemma_no_disagreement, pair_faults, ActivationOp,
};
use crate::arith::{fp, fp_neg, FloatOp};
use crate::buffer::{lemma_backed_holds, lemma_extent2, Tensor};
use crate::call_laws::{fits_memory, lemma_embed_bits, opt_fits_memory};
use crate::dtype::is_nan;
use crate::embed_gather::{embed_args, embed_matrix, EmbedGatherOp};
use crate::erf::erf;
use crate::error::FormatError;
use crate::exec_prepare::Operand;
use crate::gather_rows::{gather_fault, law_gather_exact};
use crate::index::{lemma_flat_bound, lemma_split};
use crate::ir::{ActivationKind, DType};
use crate::kernels::{
    act_mul_output, activation_output, embed_output, gather_output, softcap_output,
};
use crate::logit_softcap::{softcap_fault, LogitSoftcapOp};
use crate::product_laws::weight_number;
use crate::storage_laws::{coded, law_write_all_read, stored};
use crate::weight::FormatQuery;

verus! {

/// Whether a number is the value of an activation function: `x / (1 + exp(-x))`;
/// `x / 2 * (1 + erf(x / sqrt(2)))`; the same with the hyperbolic tangent of
/// `sqrt(2 / pi) * (x + 0.044715 x^3)` in place of the error function; the square
/// of a positive number and zero else; or the number itself.
pub open spec fn is_activated<F: Fn(FloatOp, u32, u32) -> u32>(
    f: F,
    kind: ActivationKind,
    x: u32,
    r: u32,
) -> bool {
    let half_x = fp(f, FloatOp::Times, 0x3F00_0000, x);
    match kind {
        ActivationKind::Silu => {
            let e = fp(f, FloatOp::Exp, fp_neg(x), 0);
            r == fp(f, FloatOp::Over, x, fp(f, FloatOp::Plus, 0x3F80_0000, e))
        },
        ActivationKind::Gelu => {
            let e = erf(f, fp(f, FloatOp::Times, x, 0x3F35_04F3));
            r == fp(f, FloatOp::Times, half_x, fp(f, FloatOp::Plus, 0x3F80_0000, e))
        },
        ActivationKind::GeluTanh => {
            let linear = fp(f, FloatOp::Times, 0x3D37_2713, x);
            let square = fp(f, FloatOp::Times, linear, x);
            let cube = fp(f, FloatOp::Times, square, x);
            let inner = fp(f, FloatOp::Times, 0x3F4C_422A, fp(f, FloatOp::Plus, x, cube));
            let t = fp(f, FloatOp::Tanh, inner, 0);
            r == fp(f, FloatOp::Times, half_x, fp(f, FloatOp::Plus, 0x3F80_0000, t))
        },
        ActivationKind::Relu2 => {
            &&& x > 0x7F80_0000 || x == 0 ==> r == fp(f, FloatOp::Times, 0, 0)
            &&& 0 < x <= 0x7F80_0000 ==> r == fp(f, FloatOp::Times, x, x)
        },
        ActivationKind::Identity => r == x,
    }
}

/// Activation functions have their values.
pub proof fn law_activations<F: Fn(FloatOp, u32, u32) -> u32>(f: F, kind: ActivationKind, x: u32)
    ensures
        is_activated(f, kind, x, activated(f, x, kind)),
{
}

/// Whether a number is the smaller of another and an upper bound, by the order
/// of numbers: nothing above the bound is left, and nothing below it is changed.
pub open spec fn is_bounded(v: u32, clamp: Option<u32>, r: u32) -> bool {
    match clamp {
        None => r == v,
        Some(c) => {
            &&& is_nan(v) ==> r == c
            &&& v < 0x8000_0000 && v > c ==> r == c
            &&& !is_nan(v) && (v >= 0x8000_0000 || v <= c) ==> r == v
        },
    }
}

/// Two tensors of rank two without a disagreement have one shape.
proof fn lemma_one_shape(a: Tensor, b: Tensor)
    requires
        a.rank() == 2,
        b.rank() == 2,
        pair_faults("y", "x", a.shape, b.shape).len() == 0,
    ensures
        a.shape == b.shape,
{
    lemma_no_disagreement("y", "x", a.shape, b.shape);
}

/// An activation is applied to each element by itself, and then bounded.
pub proof fn law_activation_element<F: Fn(FloatOp, u32, u32) -> u32>(
    f: F,
    op: ActivationOp,
    x: Tensor,
    y: Tensor,
    i: int,
    value: u32,
    result: u32,
)
    requires
        fits_memory(x) && fits_memory(y),
        activation_output(f, op, x, y) is Ok,
        0 <= i < x.count(),
        is_activated(f, op.act, x.cells.f32_at(i), value),
        is_bounded(value, op.clamp, result),
    ensures
        activation_output(f, op, x, y)->Ok_0.cells.f32_at(i) == stored(y.dtype(), result),
{
    law_activations(f, op.act, x.cells.f32_at(i));
    assert(activation_fault(op, x, y) is None);
    lemma_one_shape(y, x);
    lemma_backed_holds(y, i);
    law_write_all_read(
        y.cells,
        Seq::new(
            x.count() as nat,
            |i: int| bounded(activated(f, x.cells.f32_at(i), op.act), op.clamp),
        ),
        i,
    );
}

/// A gated product is the activated and bounded gate times the other operand,
/// element by element.
pub proof fn law_act_mul_element<F: Fn(FloatOp, u32, u32) -> u32>(
    f: F,
    op: ActMulOp,
    gate: Tensor,
    up: Tensor,
    y: Tensor,
    i: int,
    value: u32,
    result: u32,
)
    requires
        fits_memory(gate) && fits_memory(up) && fits_memory(y),
        act_mul_output(f, op, gate, up, y) is Ok,
        0 <= i < gate.count(),
        is_activated(f, op.act, gate.cells.f32_at(i), value),
        is_bounded(value, op.clamp, result),
    ensures
        act_mul_output(f, op, gate, up, y)->Ok_0.cells.f32_at(i) == stored(
            y.dtype(),
            fp(f, FloatOp::Times, result, up.cells.f32_at(i)),
        ),
{
    law_activations(f, op.act, gate.cells.f32_at(i));
    assert(act_mul_fault(op, gate, up, y) is None);
    lemma_no_disagreement("y", "gate", y.shape, gate.shape);
    lemma_backed_holds(y, i);
    law_write_all_read(
        y.cells,
        Seq::new(
            gate.count() as nat,
            |i: int| crate::act_mul::gated(f, op, gate, up, i),
        ),
        i,
    );
}

/// A soft cap is `cap * tanh(x / cap)`, element by element.
pub proof fn law_softcap_element<F: Fn(FloatOp, u32, u32) -> u32>(
    f: F,
    op: LogitSoftcapOp,
    x: Tensor,
    y: Tensor,
    i: int,
)
    requires
        fits_memory(x) && fits_memory(y),
        softcap_output(f, op, x, y) is Ok,
        0 <= i < x.count(),
    ensures
        softcap_output(f, op, x, y)->Ok_0.cells.f32_at(i) == fp(
            f,
            FloatOp::Times,
            op.cap,
            fp(
                f,
                FloatOp::Tanh,
                fp(f, FloatOp::Over, x.cells.f32_at(i), op.cap),
                0,
            ),
        ),
{
    assert(softcap_fault(op, x, y) is None);
    lemma_no_disagreement("y", "x", y.shape, x.shape);
    lemma_backed_holds(y, i);
    law_write_all_read(
        y.cells,
        Seq::new(
            x.count() as nat,
            |i: int| crate::logit_softcap::capped(f, x.cells.f32_at(i), op.cap),
        ),
        i,
    );
}

/// A gather of rows gives each output row the bits of the row that its index
/// names, where both are stored in the same way.
pub proof fn law_gather_row(x: Tensor, indices: Tensor, y: Tensor, row: int, j: int)
    requires
        fits_memory(x) && fits_memory(indices) && fits_memory(y),
        gather_output(x, indices, y) is Ok,
        x.cells.same_backing(y.cells),
        x.dtype() != DType::I4,
        0 <= row < indices.shape[0],
        0 <= j < x.shape[1],
    ensures
        gather_output(x, indices, y)->Ok_0.cells.raw_at(row * x.shape[1] + j) == x.cells.raw_at(
            indices.u32_at(row) * x.shape[1] + j,
        ),
{
    let d = x.shape[1] as int;
    let m = indices.shape[0] as int;
    assert(gather_fault(x, indices, y) is None);
    lemma_flat_bound(row, m, j, d);
    lemma_split(row, j, d);
    lemma_extent2(y.shape);
    assert(y.cells.required(m * d) <= y.cells.len());
    law_gather_exact(y.cells, x.cells, indices, d, m * d);
    assert(crate::gather_rows::gathered(y.cells, x.cells, indices, d, m * d).raw_at(row * d + j)
        == x.cells.raw_at(crate::gather_rows::source_of(indices, d, row * d + j)));
}

/// A gather of embeddings gives each token the row of the table that its id
/// names, each number times the factor.
pub proof fn law_embedding<
    F: Fn(FloatOp, u32, u32) -> u32,
    G: Fn(FormatQuery) -> Result<u64, FormatError>,
>(
    f: F,
    g: G,
    op: EmbedGatherOp,
    ids: Tensor,
    table: Operand,
    y: Tensor,
    tok: int,
    j: int,
)
    requires
        fits_memory(ids) && fits_memory(table.tensor) && opt_fits_memory(table.scale),
        fits_memory(y),
        embed_output(f, g, op, ids, table, y) is Ok,
        0 <= tok < ids.shape[0],
        0 <= j < embed_matrix(g, table.tensor, table.scale).k,
    ensures
        ({
            let m = embed_matrix(g, table.tensor, table.scale);
            embed_output(f, g, op, ids, table, y)->Ok_0.cells.raw_at(tok * m.k + j) == coded(
                op.out_dtype,
                fp(
                    f,
                    FloatOp::Times,
                    weight_number(f, g, m, ids.u32_at(tok) as int, j),
                    op.scale,
                ),
            )
        }),
{
    let a = embed_args(g, op, ids, table.tensor, table.scale);
    crate::embed_gather::lemma_embed_fits(g, op, ids, table.tensor, table.scale, y);
    lemma_flat_bound(tok, a.t, j, a.table.k);
    lemma_split(tok, j, a.table.k);
    lemma_embed_bits(f, g, op, ids, table, y, tok * a.table.k + j);
}

} // verus!
