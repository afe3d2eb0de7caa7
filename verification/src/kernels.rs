//! Kernels without state as steps of a graph.
//!
//! A node's operands are those of its kernel in order. A node with another
//! number of operands is none that a kernel here takes.
use vstd::prelude::*;
use crate::act_mul::{act_mul, act_mul_fault, gated, ActMulOp};
use crate::activation::{activated, activation, activation_fault, bounded, ActivationOp};
use crate::arith::{is_arith, FloatOp};
use crate::buffer::{Tensor, TensorView, TypedBuffer};
use crate::check::or_fault;
use crate::collectives::{
    all_gather, all_gather_fault, all_reduce, all_reduce_fault, all_to_all, all_to_all_fault,
    barrier, recv, recv_fault, reduce_scatter, reduce_scatter_fault, send, send_fault, transferred,
    AllGatherOp, AllReduceOp, AllToAllOp, RecvOp, ReduceScatterOp,
};
use crate::copy::{copy, copy_fault, CopyOp};
use crate::embed_gather::{embed_args, embed_fault, embed_gather, EmbedGatherOp};
use crate::error::{ErrorView, FormatError, T0Error};
use crate::exec_prepare::{all_wf, buffer_views, operand_of, operands_of, Operand};
use crate::gather_rows::{gather_fault, gather_rows, gathered, GatherRowsOp};
use crate::gemm::Epilogue;
use crate::graph::Op;
use crate::logit_softcap::{capped, logit_softcap, softcap_fault, LogitSoftcapOp};
use crate::matmul::{gemm_args, matmul, matmul_fault, MatmulOp};
use crate::moe_ffn::{
    moe_args, moe_backing_fault, moe_fault, moe_ffn, moe_scale_backing_fault, MoeFfnOp,
};
use crate::weight::{is_format, FormatQuery};

verus! {

/// Whether a kernel here takes an operation with so many inputs and outputs.
pub open spec fn has_kernel(op: Op, inputs: int, outputs: int) -> bool {
    match op {
        Op::Activation(_)
        | Op::Copy(_)
        | Op::LogitSoftcap(_)
        | Op::AllReduce(_)
        | Op::AllGather(_)
        | Op::ReduceScatter(_) => inputs == 1 && outputs == 1,
        Op::ActMul(_) | Op::EmbedGather(_) | Op::GatherRows(_) | Op::AllToAll(_) => inputs == 2
            && outputs == 1,
        Op::Matmul(m) => outputs == 1 && (inputs == 2 || (inputs == 3 && (m.epilogue
            == Epilogue::Bias || m.epilogue == Epilogue::Residual))),
        Op::MoeFfn(_) => inputs == 5 && outputs == 1,
        Op::Send(_) => inputs == 1 && outputs == 0,
        Op::Recv(_) => inputs == 0 && outputs == 1,
        Op::Barrier(_) => inputs == 0 && outputs == 0,
        _ => false,
    }
}

/// Whether a kernel here takes an operation with so many inputs and outputs.
pub fn takes(op: &Op, inputs: usize, outputs: usize) -> (r: bool)
    ensures
        r == has_kernel(*op, inputs as int, outputs as int),
{
    match op {
        Op::Activation(_)
        | Op::Copy(_)
        | Op::LogitSoftcap(_)
        | Op::AllReduce(_)
        | Op::AllGather(_)
        | Op::ReduceScatter(_) => inputs == 1 && outputs == 1,
        Op::ActMul(_) | Op::EmbedGather(_) | Op::GatherRows(_) | Op::AllToAll(_) => inputs == 2
            && outputs == 1,
        Op::Matmul(m) => {
            let extra: bool = match m.epilogue {
                Epilogue::Bias | Epilogue::Residual => true,
                _ => false,
            };
            outputs == 1 && (inputs == 2 || (inputs == 3 && extra))
        },
        Op::MoeFfn(_) => inputs == 5 && outputs == 1,
        Op::Send(_) => inputs == 1 && outputs == 0,
        Op::Recv(_) => inputs == 0 && outputs == 1,
        Op::Barrier(_) => inputs == 0 && outputs == 0,
        _ => false,
    }
}

/// A result that is an error if there is one.
pub open spec fn unless(fault: Option<ErrorView>, y: Tensor) -> Result<Tensor, ErrorView> {
    match fault {
        Some(e) => Err(e),
        None => Ok(y),
    }
}

/// Output of an activation.
pub open spec fn activation_output<F: Fn(FloatOp, u32, u32) -> u32>(
    f: F,
    op: ActivationOp,
    x: Tensor,
    y: Tensor,
) -> Result<Tensor, ErrorView> {
    unless(
        activation_fault(op, x, y),
        y.with_cells(
            y.cells.with_f32s(
                Seq::new(
                    x.count() as nat,
                    |i: int| bounded(activated(f, x.cells.f32_at(i), op.act), op.clamp),
                ),
            ),
        ),
    )
}

/// Output of a gated product.
pub open spec fn act_mul_output<F: Fn(FloatOp, u32, u32) -> u32>(
    f: F,
    op: ActMulOp,
    gate: Tensor,
    up: Tensor,
    y: Tensor,
) -> Result<Tensor, ErrorView> {
    unless(
        act_mul_fault(op, gate, up, y),
        y.with_cells(
            y.cells.with_f32s(
                Seq::new(gate.count() as nat, |i: int| gated(f, op, gate, up, i)),
            ),
        ),
    )
}

/// Output of a soft cap.
pub open spec fn softcap_output<F: Fn(FloatOp, u32, u32) -> u32>(
    f: F,
    op: LogitSoftcapOp,
    x: Tensor,
    y: Tensor,
) -> Result<Tensor, ErrorView> {
    unless(
        softcap_fault(op, x, y),
        y.with_cells(
            y.cells.with_f32s(
                Seq::new(x.count() as nat, |i: int| capped(f, x.cells.f32_at(i), op.cap)),
            ),
        ),
    )
}

/// Output of a gather of rows.
pub open spec fn gather_output(x: Tensor, indices: Tensor, y: Tensor) -> Result<Tensor, ErrorView> {
    unless(
        gather_fault(x, indices, y),
        y.with_cells(
            gathered(
                y.cells,
                x.cells,
                indices,
                x.shape[1] as int,
                indices.shape[0] * x.shape[1],
            ),
        ),
    )
}

/// Output of a product.
pub open spec fn matmul_output<
    F: Fn(FloatOp, u32, u32) -> u32,
    G: Fn(FormatQuery) -> Result<u64, FormatError>,
>(
    f: F,
    g: G,
    op: MatmulOp,
    x: Operand,
    w: Operand,
    bias: Option<Tensor>,
    residual: Option<Tensor>,
    y: Tensor,
) -> Result<Tensor, ErrorView> {
    let a = gemm_args(g, op, x.tensor, x.scale, w.tensor, w.scale, bias, residual);
    unless(
        or_fault(
            matmul_fault(g, op, x.tensor, x.scale, w.tensor, w.scale, bias, residual, y),
            a.first_error(f, g),
        ),
        y.with_cells(y.cells.with_f32s(a.values(f, g))),
    )
}

/// Output of a gather of embeddings.
pub open spec fn embed_output<
    F: Fn(FloatOp, u32, u32) -> u32,
    G: Fn(FormatQuery) -> Result<u64, FormatError>,
>(f: F, g: G, op: EmbedGatherOp, ids: Tensor, table: Operand, y: Tensor) -> Result<
    Tensor,
    ErrorView,
> {
    let a = embed_args(g, op, ids, table.tensor, table.scale);
    unless(
        or_fault(
            embed_fault(g, op, ids, table.tensor, table.scale, y),
            a.first_error(f, g),
        ),
        y.with_cells(y.cells.with_f32s(a.values(f, g))),
    )
}

/// Output of the feed-forward of experts.
pub open spec fn moe_output<
    F: Fn(FloatOp, u32, u32) -> u32,
    G: Fn(FormatQuery) -> Result<u64, FormatError>,
>(
    f: F,
    g: G,
    op: MoeFfnOp,
    x: Operand,
    ids: Tensor,
    weights: Tensor,
    gate_up: Operand,
    down: Operand,
    y: Tensor,
) -> Result<Tensor, ErrorView> {
    let fault = or_fault(
        or_fault(
            moe_backing_fault(x.tensor, ids, weights, gate_up.tensor, down.tensor, y),
            moe_scale_backing_fault(None, None, None, x.scale, gate_up.scale, down.scale),
        ),
        moe_fault(
            g,
            op,
            x.tensor,
            ids,
            weights,
            gate_up.tensor,
            gate_up.scale,
            down.tensor,
            down.scale,
            x.scale,
            y,
        ),
    );
    let a = moe_args(
        g,
        op,
        x.tensor,
        ids,
        weights,
        gate_up.tensor,
        gate_up.scale,
        down.tensor,
        down.scale,
        x.scale,
    );
    match fault {
        Some(e) => Err(e),
        None => match a.outputs(f, g, a.e) {
            Err(e) => Err(e),
            Ok(values) => Ok(y.with_cells(y.cells.with_f32s(values))),
        },
    }
}

/// Output of an operation with one output.
pub open spec fn kernel_output<
    F: Fn(FloatOp, u32, u32) -> u32,
    G: Fn(FormatQuery) -> Result<u64, FormatError>,
>(f: F, g: G, op: Op, inputs: Seq<Operand>, y: Tensor) -> Result<Tensor, ErrorView> {
    let x = inputs[0].tensor;
    match op {
        Op::Activation(o) => activation_output(f, o, x, y),
        Op::ActMul(o) => act_mul_output(f, o, x, inputs[1].tensor, y),
        Op::Copy(_) => unless(copy_fault(x, y), transferred(x, y)),
        Op::LogitSoftcap(o) => softcap_output(f, o, x, y),
        Op::Matmul(o) => {
            let extra = if inputs.len() == 3 {
                Some(inputs[2].tensor)
            } else {
                None
            };
            if o.epilogue == Epilogue::Residual {
                matmul_output(f, g, o, inputs[0], inputs[1], None, extra, y)
            } else {
                matmul_output(f, g, o, inputs[0], inputs[1], extra, None, y)
            }
        },
        Op::EmbedGather(o) => embed_output(f, g, o, x, inputs[1], y),
        Op::GatherRows(_) => gather_output(x, inputs[1].tensor, y),
        Op::MoeFfn(o) => moe_output(
            f,
            g,
            o,
            inputs[0],
            inputs[1].tensor,
            inputs[2].tensor,
            inputs[3],
            inputs[4],
            y,
        ),
        Op::AllReduce(o) => unless(all_reduce_fault(o, x, y), transferred(x, y)),
        Op::AllGather(o) => unless(all_gather_fault(o, x, y), transferred(x, y)),
        Op::ReduceScatter(o) => unless(reduce_scatter_fault(o, x, y), transferred(x, y)),
        Op::AllToAll(o) => unless(
            all_to_all_fault(o, x, inputs[1].tensor, y),
            transferred(x, y),
        ),
        Op::Recv(o) => unless(recv_fault(o, y), y),
        _ => Ok(y),
    }
}

/// Outputs of an operation that a kernel here takes.
#[verifier::opaque]
pub open spec fn kernel_result<
    F: Fn(FloatOp, u32, u32) -> u32,
    G: Fn(FormatQuery) -> Result<u64, FormatError>,
>(f: F, g: G, op: Op, inputs: Seq<Operand>, outputs: Seq<Tensor>) -> Result<
    Seq<Tensor>,
    ErrorView,
> {
    match op {
        Op::Send(o) => match send_fault(o, inputs[0].tensor) {
            Some(e) => Err(e),
            None => Ok(outputs),
        },
        Op::Barrier(_) => Ok(outputs),
        _ => match kernel_output(f, g, op, inputs, outputs[0]) {
            Err(e) => Err(e),
            Ok(t) => Ok(seq![t]),
        },
    }
}

fn run_matmul<
    F: Fn(FloatOp, u32, u32) -> u32,
    G: Fn(FormatQuery) -> Result<u64, FormatError>,
>(
    f: &F,
    g: &G,
    op: &MatmulOp,
    x: &TensorView<'_>,
    w: &TensorView<'_>,
    extra: Option<&TensorView<'_>>,
    out: &mut TypedBuffer,
) -> (r: Result<(), T0Error>)
    requires
        is_arith(*f),
        is_format(*g),
        old(out).wf(),
    ensures
        ({
            let e = crate::buffer::opt_view(extra);
            let (x, w) = (operand_of(*x), operand_of(*w));
            match (if op.epilogue == Epilogue::Residual {
                matmul_output(*f, *g, *op, x, w, None, e, old(out)@)
            } else {
                matmul_output(*f, *g, *op, x, w, e, None, old(out)@)
            }) {
                Err(e) => r is Err && r->Err_0.view() == e,
                Ok(t) => r is Ok && final(out)@ == t && final(out).wf(),
            }
        }),
{
    let mut view = out.as_view_mut();
    let residual: bool = match op.epilogue {
        Epilogue::Residual => true,
        _ => false,
    };
    let r = if residual {
        matmul(f, g, op, x, w, None, extra, &mut view)
    } else {
        matmul(f, g, op, x, w, extra, None, &mut view)
    };
    let ghost done = view@;
    assert(out@ =~= done);
    r
}

fn run_moe<
    F: Fn(FloatOp, u32, u32) -> u32,
    G: Fn(FormatQuery) -> Result<u64, FormatError>,
>(f: &F, g: &G, op: &MoeFfnOp, inputs: &[TensorView<'_>], out: &mut TypedBuffer) -> (r: Result<
    (),
    T0Error,
>)
    requires
        is_arith(*f),
        is_format(*g),
        old(out).wf(),
        inputs@.len() == 5,
    ensures
        match moe_output(
            *f,
            *g,
            *op,
            operand_of(inputs@[0]),
            inputs@[1]@,
            inputs@[2]@,
            operand_of(inputs@[3]),
            operand_of(inputs@[4]),
            old(out)@,
        ) {
            Err(e) => r is Err && r->Err_0.view() == e,
            Ok(t) => r is Ok && final(out)@ == t && final(out).wf(),
        },
{
    let mut view = out.as_view_mut();
    let r = moe_ffn(
        f,
        g,
        op,
        &inputs[0],
        &inputs[1],
        &inputs[2],
        &inputs[3],
        None,
        &inputs[4],
        None,
        None,
        &mut view,
    );
    let ghost done = view@;
    assert(out@ =~= done);
    r
}

fn run_embed<
    F: Fn(FloatOp, u32, u32) -> u32,
    G: Fn(FormatQuery) -> Result<u64, FormatError>,
>(
    f: &F,
    g: &G,
    op: &EmbedGatherOp,
    ids: &TensorView<'_>,
    table: &TensorView<'_>,
    out: &mut TypedBuffer,
) -> (r: Result<(), T0Error>)
    requires
        is_arith(*f),
        is_format(*g),
        old(out).wf(),
    ensures
        match embed_output(*f, *g, *op, ids@, operand_of(*table), old(out)@) {
            Err(e) => r is Err && r->Err_0.view() == e,
            Ok(t) => r is Ok && final(out)@ == t && final(out).wf(),
        },
{
    let mut view = out.as_view_mut();
    let r = embed_gather(f, g, op, ids, table, &mut view);
    let ghost done = view@;
    assert(out@ =~= done);
    r
}

fn run_activation<F: Fn(FloatOp, u32, u32) -> u32>(
    f: &F,
    op: &ActivationOp,
    x: &TensorView<'_>,
    out: &mut TypedBuffer,
) -> (r: Result<(), T0Error>)
    requires
        is_arith(*f),
        old(out).wf(),
    ensures
        match activation_output(*f, *op, x@, old(out)@) {
            Err(e) => r is Err && r->Err_0.view() == e,
            Ok(t) => r is Ok && final(out)@ == t && final(out).wf(),
        },
{
    let mut view = out.as_view_mut();
    let r = activation(f, op, x, &mut view);
    let ghost done = view@;
    assert(out@ =~= done);
    r
}

fn run_act_mul<F: Fn(FloatOp, u32, u32) -> u32>(
    f: &F,
    op: &ActMulOp,
    gate: &TensorView<'_>,
    up: &TensorView<'_>,
    out: &mut TypedBuffer,
) -> (r: Result<(), T0Error>)
    requires
        is_arith(*f),
        old(out).wf(),
    ensures
        match act_mul_output(*f, *op, gate@, up@, old(out)@) {
            Err(e) => r is Err && r->Err_0.view() == e,
            Ok(t) => r is Ok && final(out)@ == t && final(out).wf(),
        },
{
    let mut view = out.as_view_mut();
    let r = act_mul(f, op, gate, up, &mut view);
    let ghost done = view@;
    assert(out@ =~= done);
    r
}

fn run_softcap<F: Fn(FloatOp, u32, u32) -> u32>(
    f: &F,
    op: &LogitSoftcapOp,
    x: &TensorView<'_>,
    out: &mut TypedBuffer,
) -> (r: Result<(), T0Error>)
    requires
        is_arith(*f),
        old(out).wf(),
    ensures
        match softcap_output(*f, *op, x@, old(out)@) {
            Err(e) => r is Err && r->Err_0.view() == e,
            Ok(t) => r is Ok && final(out)@ == t && final(out).wf(),
        },
{
    let mut view = out.as_view_mut();
    let r = logit_softcap(f, op, x, &mut view);
    let ghost done = view@;
    assert(out@ =~= done);
    r
}

fn run_copy(
    op: &CopyOp,
    x: &TensorView<'_>,
    out: &mut TypedBuffer,
) -> (r: Result<(), T0Error>)
    requires
        old(out).wf(),
    ensures
        match unless(copy_fault(x@, old(out)@), transferred(x@, old(out)@)) {
            Err(e) => r is Err && r->Err_0.view() == e,
            Ok(t) => r is Ok && final(out)@ == t && final(out).wf(),
        },
{
    let mut view = out.as_view_mut();
    let r = copy(op, x, &mut view);
    let ghost done = view@;
    assert(out@ =~= done);
    r
}

fn run_gather(
    op: &GatherRowsOp,
    x: &TensorView<'_>,
    indices: &TensorView<'_>,
    out: &mut TypedBuffer,
) -> (r: Result<(), T0Error>)
    requires
        old(out).wf(),
    ensures
        match gather_output(x@, indices@, old(out)@) {
            Err(e) => r is Err && r->Err_0.view() == e,
            Ok(t) => r is Ok && final(out)@ == t && final(out).wf(),
        },
{
    let mut view = out.as_view_mut();
    let r = gather_rows(op, x, indices, &mut view);
    let ghost done = view@;
    assert(out@ =~= done);
    r
}

fn run_all_reduce(
    op: &AllReduceOp,
    x: &TensorView<'_>,
    out: &mut TypedBuffer,
) -> (r: Result<(), T0Error>)
    requires
        old(out).wf(),
    ensures
        match unless(all_reduce_fault(*op, x@, old(out)@), transferred(x@, old(out)@)) {
            Err(e) => r is Err && r->Err_0.view() == e,
            Ok(t) => r is Ok && final(out)@ == t && final(out).wf(),
        },
{
    let mut view = out.as_view_mut();
    let r = all_reduce(op, x, &mut view);
    let ghost done = view@;
    assert(out@ =~= done);
    r
}

fn run_all_gather(
    op: &AllGatherOp,
    x: &TensorView<'_>,
    out: &mut TypedBuffer,
) -> (r: Result<(), T0Error>)
    requires
        old(out).wf(),
    ensures
        match unless(all_gather_fault(*op, x@, old(out)@), transferred(x@, old(out)@)) {
            Err(e) => r is Err && r->Err_0.view() == e,
            Ok(t) => r is Ok && final(out)@ == t && final(out).wf(),
        },
{
    let mut view = out.as_view_mut();
    let r = all_gather(op, x, &mut view);
    let ghost done = view@;
    assert(out@ =~= done);
    r
}

fn run_reduce_scatter(
    op: &ReduceScatterOp,
    x: &TensorView<'_>,
    out: &mut TypedBuffer,
) -> (r: Result<(), T0Error>)
    requires
        old(out).wf(),
    ensures
        match unless(reduce_scatter_fault(*op, x@, old(out)@), transferred(x@, old(out)@)) {
            Err(e) => r is Err && r->Err_0.view() == e,
            Ok(t) => r is Ok && final(out)@ == t && final(out).wf(),
        },
{
    let mut view = out.as_view_mut();
    let r = reduce_scatter(op, x, &mut view);
    let ghost done = view@;
    assert(out@ =~= done);
    r
}

fn run_all_to_all(
    op: &AllToAllOp,
    x: &TensorView<'_>,
    counts: &TensorView<'_>,
    out: &mut TypedBuffer,
) -> (r: Result<(), T0Error>)
    requires
        old(out).wf(),
    ensures
        match unless(all_to_all_fault(*op, x@, counts@, old(out)@), transferred(x@, old(out)@)) {
            Err(e) => r is Err && r->Err_0.view() == e,
            Ok(t) => r is Ok && final(out)@ == t && final(out).wf(),
        },
{
    let mut view = out.as_view_mut();
    let r = all_to_all(op, x, counts, &mut view);
    let ghost done = view@;
    assert(out@ =~= done);
    r
}

fn run_recv(
    op: &RecvOp,
    out: &mut TypedBuffer,
) -> (r: Result<(), T0Error>)
    requires
        old(out).wf(),
    ensures
        match unless(recv_fault(*op, old(out)@), old(out)@) {
            Err(e) => r is Err && r->Err_0.view() == e,
            Ok(t) => r is Ok && final(out)@ == t && final(out).wf(),
        },
{
    let mut view = out.as_view_mut();
    let r = recv(op, &mut view);
    let ghost done = view@;
    assert(out@ =~= done);
    r
}

/// Runs an operation that a kernel here takes.
pub fn run_builtin<F: Fn(FloatOp, u32, u32) -> u32, G: Fn(FormatQuery) -> Result<u64, FormatError>>(
    f: &F,
    g: &G,
    op: &Op,
    inputs: &[TensorView<'_>],
    outputs: Vec<TypedBuffer>,
) -> (r: Result<Vec<TypedBuffer>, T0Error>)
    requires
        is_arith(*f),
        is_format(*g),
        all_wf(outputs@),
        has_kernel(*op, inputs@.len() as int, outputs@.len() as int),
    ensures
        match kernel_result(*f, *g, *op, operands_of(inputs@), buffer_views(outputs@)) {
            Err(e) => r is Err && r->Err_0.view() == e,
            Ok(t) => r is Ok && buffer_views(r->Ok_0@) == t && all_wf(r->Ok_0@)
                && r->Ok_0@.len() == outputs@.len(),
        },
{
    proof {
        reveal(kernel_result);
    }
    let ghost given = operands_of(inputs@);
    assert(forall|i: int|
        0 <= i < inputs@.len() ==> given[i] == operand_of(#[trigger] inputs@[i]));
    match op {
        Op::Send(o) => {
            return match send(o, &inputs[0]) {
                Ok(_) => Ok(outputs),
                Err(e) => Err(e),
            };
        },
        Op::Barrier(o) => {
            return match barrier(o) {
                Ok(_) => Ok(outputs),
                Err(e) => Err(e),
            };
        },
        _ => {},
    }
    let mut outputs = outputs;
    let ghost start = buffer_views(outputs@);
    let mut out = match outputs.pop() {
        Some(b) => b,
        None => {
            return Ok(outputs);
        },
    };
    assert(start[0] == out@);
    let r = match op {
        Op::Matmul(o) => {
            let extra = if inputs.len() == 3 {
                Some(&inputs[2])
            } else {
                None
            };
            run_matmul(f, g, o, &inputs[0], &inputs[1], extra, &mut out)
        },
        Op::MoeFfn(o) => run_moe(f, g, o, inputs, &mut out),
        Op::EmbedGather(o) => run_embed(f, g, o, &inputs[0], &inputs[1], &mut out),
        Op::Activation(o) => run_activation(f, o, &inputs[0], &mut out),
        Op::ActMul(o) => run_act_mul(f, o, &inputs[0], &inputs[1], &mut out),
        Op::Copy(o) => run_copy(o, &inputs[0], &mut out),
        Op::LogitSoftcap(o) => run_softcap(f, o, &inputs[0], &mut out),
        Op::GatherRows(o) => run_gather(o, &inputs[0], &inputs[1], &mut out),
        Op::AllReduce(o) => run_all_reduce(o, &inputs[0], &mut out),
        Op::AllGather(o) => run_all_gather(o, &inputs[0], &mut out),
        Op::ReduceScatter(o) => run_reduce_scatter(o, &inputs[0], &mut out),
        Op::AllToAll(o) => run_all_to_all(o, &inputs[0], &inputs[1], &mut out),
        Op::Recv(o) => run_recv(o, &mut out),
        _ => Ok(()),
    };
    match r {
        Err(e) => Err(e),
        Ok(_) => {
            let ghost done = out@;
            outputs.push(out);
            assert(buffer_views(outputs@) =~= seq![done]);
            Ok(outputs)
        },
    }
}

} // verus!
