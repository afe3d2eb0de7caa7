//! What steps of the executor read and leave.
use vstd::prelude::*;
use crate::act_mul::ActMulOp;
use crate::arith::FloatOp;
use crate::attention::{attention_output, attention_plan, AttentionOp};
use crate::batch::BatchMeta;
use crate::buffer::{Tensor, TypedBuffer};
use crate::conv_laws::conv_result;
use crate::embed_gather::EmbedGatherOp;
use crate::error::FormatError;
use crate::exec_prepare::Operand;
use crate::exec_state::{
    attention_step, key_of, law_keys_differ, scan_form, scan_step, state_write_step, StateView,
};
use crate::gather_rows::GatherRowsOp;
use crate::gemm::Epilogue;
use crate::graph::Op;
use crate::ir::StateHandle;
use crate::kernels::{
    act_mul_output, embed_output, gather_output, kernel_output, matmul_output, moe_output,
};
use crate::kv_latent::written_cache;
use crate::kv_write::StateWriteKvOp;
use crate::matmul::MatmulOp;
use crate::moe_ffn::MoeFfnOp;
use crate::scan_laws::scan_result;
use crate::weight::FormatQuery;

verus! {

/// State that the next scan of a layer starts from; none if it starts from
/// zeros.
pub open spec fn carried(state: StateView, handle: StateHandle) -> Option<Tensor> {
    let key = key_of(handle);
    if state.flips.contains_key(key) && state.flips[key] {
        if state.scan_b.contains_key(key) {
            Some(state.scan_b[key])
        } else {
            None
        }
    } else if state.scan_a.contains_key(key) {
        Some(state.scan_a[key])
    } else {
        None
    }
}

/// Whether a tensor is what a scan starts from: what was carried, or zeros of the
/// extents that the operands ask for.
pub open spec fn starts_from(
    node: usize,
    op: Op,
    inputs: Seq<Operand>,
    batch: BatchMeta,
    state: StateView,
    handle: StateHandle,
    from: Tensor,
) -> bool {
    match carried(state, handle) {
        Some(t) => from == t,
        None => {
            let form = scan_form(node, op, inputs, batch.ctx_len@.len() as usize)->Ok_0;
            &&& from.shape == form.1
            &&& from.dtype() == form.2
            &&& forall|i: int| 0 <= i < from.count() ==> #[trigger] from.cells.f32_at(i) == 0
        },
    }
}

/// Zeroed storage reads as zeros.
proof fn lemma_zeros(shape: Seq<usize>, dtype: crate::ir::DType, i: int)
    requires
        dtype == crate::ir::DType::F16 || dtype == crate::ir::DType::F32,
        crate::buffer::extent(shape) is Some,
        0 <= i < crate::buffer::extent(shape)->0,
    ensures
        TypedBuffer::zero_cells(
            dtype,
            crate::buffer::extent(shape)->0 as int,
        ).f32_at(i) == 0,
{
}

/// A convolution step carries its windows: it starts from what the layer's last
/// step left, or from zeros; it leaves the windows that the convolution gives; and
/// the state of every other layer and kind stays.
pub proof fn law_conv_carries<F: Fn(FloatOp, u32, u32) -> u32>(
    f: F,
    node: usize,
    op: crate::causal_conv1d::CausalConv1dOp,
    inputs: Seq<Operand>,
    outputs: Seq<Tensor>,
    batch: BatchMeta,
    state: StateView,
    other: StateHandle,
) -> (r: (Tensor, Tensor))
    requires
        scan_step(f, node, Op::CausalConv1d(op), inputs, outputs, batch, state).1 is Ok,
        2 <= inputs.len() <= 3,
        // Both slots of a layer are made together.
        state.scan_a.contains_key(key_of(op.handle)) == state.scan_b.contains_key(
            key_of(op.handle),
        ),
        other != op.handle,
    ensures
        ({
            let step = scan_step(f, node, Op::CausalConv1d(op), inputs, outputs, batch, state);
            let bias = if inputs.len() == 3 {
                Some(inputs[2].tensor)
            } else {
                None
            };
            let done = conv_result(
                f,
                op,
                inputs[0].tensor,
                inputs[1].tensor,
                bias,
                r.0,
                batch.query_len@,
                outputs[0],
                r.1,
            );
            &&& starts_from(
                node,
                Op::CausalConv1d(op),
                inputs,
                batch,
                state,
                op.handle,
                r.0,
            )
            &&& done is Ok
            &&& step.1->Ok_0 == seq![done->Ok_0.0]
            &&& carried(step.0, op.handle) == Some(done->Ok_0.1)
            &&& carried(step.0, other) == carried(state, other)
            &&& step.0.caches == state.caches
        }),
{
    reveal(crate::exec_state::scan_result);
    let key = key_of(op.handle);
    if key_of(other) == key {
        law_keys_differ(other, op.handle);
    }
    let (handle, shape, dtype) = scan_form(
        node,
        Op::CausalConv1d(op),
        inputs,
        batch.ctx_len@.len() as usize,
    )->Ok_0;
    let (made, _) = crate::exec_state::with_slots(state, key, shape, dtype);
    let flip = made.flips.contains_key(key) && made.flips[key];
    assert forall|i: int|
        0 <= i < crate::buffer::extent(shape)->0 implies #[trigger] TypedBuffer::zero_cells(
        dtype,
        crate::buffer::extent(shape)->0 as int,
    ).f32_at(i) == 0 by {
        if crate::buffer::extent(shape) is Some {
            lemma_zeros(shape, dtype, i);
        }
    }
    if flip {
        (made.scan_b[key], made.scan_a[key])
    } else {
        (made.scan_a[key], made.scan_b[key])
    }
}

/// A linear-attention step carries its matrices: it starts from what the layer's
/// last step left, or from zeros; it leaves the matrices that the scan gives; and
/// the state of every other layer and kind stays.
pub proof fn law_scan_carries<F: Fn(FloatOp, u32, u32) -> u32>(
    f: F,
    node: usize,
    op: crate::linear_attn_scan::LinearAttnScanOp,
    inputs: Seq<Operand>,
    outputs: Seq<Tensor>,
    batch: BatchMeta,
    state: StateView,
    other: StateHandle,
) -> (r: (Tensor, Tensor))
    requires
        scan_step(f, node, Op::LinearAttnScan(op), inputs, outputs, batch, state).1 is Ok,
        inputs.len() == 5,
        // Both slots of a layer are made together.
        state.scan_a.contains_key(key_of(op.handle)) == state.scan_b.contains_key(
            key_of(op.handle),
        ),
        other != op.handle,
    ensures
        ({
            let step = scan_step(f, node, Op::LinearAttnScan(op), inputs, outputs, batch, state);
            let done = scan_result(
                f,
                op,
                inputs[0].tensor,
                inputs[1].tensor,
                inputs[2].tensor,
                inputs[3].tensor,
                inputs[4].tensor,
                r.0,
                batch.query_len@,
                outputs[0],
                r.1,
            );
            &&& starts_from(
                node,
                Op::LinearAttnScan(op),
                inputs,
                batch,
                state,
                op.handle,
                r.0,
            )
            &&& done is Ok
            &&& step.1->Ok_0 == seq![done->Ok_0.0]
            &&& carried(step.0, op.handle) == Some(done->Ok_0.1)
            &&& carried(step.0, other) == carried(state, other)
            &&& step.0.caches == state.caches
        }),
{
    reveal(crate::exec_state::scan_result);
    let key = key_of(op.handle);
    if key_of(other) == key {
        law_keys_differ(other, op.handle);
    }
    let (handle, shape, dtype) = scan_form(
        node,
        Op::LinearAttnScan(op),
        inputs,
        batch.ctx_len@.len() as usize,
    )->Ok_0;
    let (made, _) = crate::exec_state::with_slots(state, key, shape, dtype);
    let flip = made.flips.contains_key(key) && made.flips[key];
    assert forall|i: int|
        0 <= i < crate::buffer::extent(shape)->0 implies #[trigger] TypedBuffer::zero_cells(
        dtype,
        crate::buffer::extent(shape)->0 as int,
    ).f32_at(i) == 0 by {
        if crate::buffer::extent(shape) is Some {
            lemma_zeros(shape, dtype, i);
        }
    }
    if flip {
        (made.scan_b[key], made.scan_a[key])
    } else {
        (made.scan_a[key], made.scan_b[key])
    }
}

/// Attention after a write reads what was written: a step that writes a layer's
/// cache leaves every other cache, and attention of that layer then runs over the
/// written cache.
pub proof fn law_attention_after_write<
    F: Fn(FloatOp, u32, u32) -> u32,
    G: Fn(FormatQuery) -> Result<u64, FormatError>,
>(
    f: F,
    g: G,
    node: usize,
    write: StateWriteKvOp,
    rows: Seq<Operand>,
    reader: usize,
    op: AttentionOp,
    queries: Seq<Operand>,
    outputs: Seq<Tensor>,
    batch: BatchMeta,
    state: StateView,
    group: u32,
    other: StateHandle,
)
    requires
        op.handle == write.handle,
        other != write.handle,
        rows.len() == 2,
        state.caches.contains_key(key_of(write.handle)),
        if batch.num_groups == 1 {
            group == 0
        } else {
            state.groups.contains_key(write.handle.layer) && group
                == state.groups[write.handle.layer]
        },
        state_write_step(f, g, node, write, rows, batch, state) is Ok,
        attention_step(
            f,
            reader,
            op,
            queries,
            outputs,
            batch,
            state_write_step(f, g, node, write, rows, batch, state)->Ok_0,
        ) is Ok,
    ensures
        ({
            let after = state_write_step(f, g, node, write, rows, batch, state)->Ok_0;
            let cache = written_cache(
                f,
                g,
                write,
                rows[0].tensor,
                rows[1].tensor,
                batch,
                group,
                state.caches[key_of(write.handle)],
            );
            let q = queries[0].tensor;
            &&& cache is Ok
            &&& after.caches[key_of(write.handle)] == cache->Ok_0
            &&& after.caches.contains_key(key_of(other)) == state.caches.contains_key(
                key_of(other),
            )
            &&& after.caches[key_of(other)] == state.caches[key_of(other)]
            &&& attention_plan(op, q, outputs[0], batch, group, cache->Ok_0) is Ok
            &&& attention_step(f, reader, op, queries, outputs, batch, after)->Ok_0 == seq![
                attention_output(
                    f,
                    op,
                    q,
                    outputs[0],
                    cache->Ok_0,
                    attention_plan(op, q, outputs[0], batch, group, cache->Ok_0)->Ok_0,
                ),
            ]
        }),
{
    if key_of(other) == key_of(write.handle) {
        law_keys_differ(other, write.handle);
    }
}

/// First among the operands of a gated product stand the gating values, among
/// those of a gather of rows the rows, and of a gather of embeddings the ids.
pub proof fn law_pair_order<
    F: Fn(FloatOp, u32, u32) -> u32,
    G: Fn(FormatQuery) -> Result<u64, FormatError>,
>(
    f: F,
    g: G,
    inputs: Seq<Operand>,
    y: Tensor,
    gated: ActMulOp,
    embed: EmbedGatherOp,
    gather: GatherRowsOp,
)
    requires
        inputs.len() == 2,
    ensures
        kernel_output(f, g, Op::ActMul(gated), inputs, y) == act_mul_output(
            f,
            gated,
            inputs[0].tensor,
            inputs[1].tensor,
            y,
        ),
        kernel_output(f, g, Op::EmbedGather(embed), inputs, y) == embed_output(
            f,
            g,
            embed,
            inputs[0].tensor,
            inputs[1],
            y,
        ),
        kernel_output(f, g, Op::GatherRows(gather), inputs, y) == gather_output(
            inputs[0].tensor,
            inputs[1].tensor,
            y,
        ),
{
}

/// A product takes the activations, the weights, and then a residual if it adds
/// one, else a bias.
pub proof fn law_product_order<
    F: Fn(FloatOp, u32, u32) -> u32,
    G: Fn(FormatQuery) -> Result<u64, FormatError>,
>(f: F, g: G, inputs: Seq<Operand>, y: Tensor, product: MatmulOp)
    requires
        2 <= inputs.len() <= 3,
    ensures
        ({
            let extra = if inputs.len() == 3 {
                Some(inputs[2].tensor)
            } else {
                None
            };
            let (bias, residual) = if product.epilogue == Epilogue::Residual {
                (None, extra)
            } else {
                (extra, None)
            };
            kernel_output(f, g, Op::Matmul(product), inputs, y) == matmul_output(
                f,
                g,
                product,
                inputs[0],
                inputs[1],
                bias,
                residual,
                y,
            )
        }),
{
}

/// A layer of experts takes the activations, the experts of each token, their
/// weights, the joint projections and the projections back.
pub proof fn law_expert_order<
    F: Fn(FloatOp, u32, u32) -> u32,
    G: Fn(FormatQuery) -> Result<u64, FormatError>,
>(f: F, g: G, inputs: Seq<Operand>, y: Tensor, moe: MoeFfnOp)
    requires
        inputs.len() == 5,
    ensures
        kernel_output(f, g, Op::MoeFfn(moe), inputs, y) == moe_output(
            f,
            g,
            moe,
            inputs[0],
            inputs[1].tensor,
            inputs[2].tensor,
            inputs[3],
            inputs[4],
            y,
        ),
{
}

} // verus!
