//! Laws of the executor.
use vstd::prelude::*;
use crate::arith::FloatOp;
use crate::buffer::{TensorView, Tensor, TypedBuffer};
use crate::error::{FormatError, T0Error};
use crate::batch::BatchMeta;
use crate::exec::{
    dispatched, is_trace, node_ran, published_by, stepped, ExecView, Moment, RunArgs,
};
use crate::exec_draw::{Draw, Drawn};
use crate::exec_error::ExecFault;
use crate::exec_prepare::{fresh_outputs, input_tensors, with_scales, Operand};
use crate::exec_state::StateView;
use crate::graph::{EdgeId, Graph, Op};
use crate::kernels::has_kernel;
use crate::weight::FormatQuery;

verus! {

/// Whether a node is run by this library alone.
pub open spec fn runs_here(graph: Graph, node: usize) -> bool {
    let n = graph.nodes@[node as int];
    match n.op {
        Op::StateWriteKv(_)
        | Op::Attention(_)
        | Op::CausalConv1d(_)
        | Op::LinearAttnScan(_) => true,
        op => has_kernel(op, n.inputs@.len() as int, n.outputs@.len() as int),
    }
}

proof fn lemma_dispatch_repeats<
    F: Fn(FloatOp, u32, u32) -> u32,
    G: Fn(FormatQuery) -> Result<u64, FormatError>,
    K: Fn(usize, &[TensorView<'_>], Vec<TypedBuffer>) -> Result<Vec<TypedBuffer>, T0Error>,
    P,
    R,
    D: Fn(Draw<'_, P, R>) -> Drawn<R>,
>(
    f: F,
    g: G,
    k: K,
    d: D,
    node: usize,
    op: Op,
    inputs: Seq<Operand>,
    outputs: Seq<Tensor>,
    args: RunArgs<'_, P>,
    state: StateView,
    rng: Seq<R>,
    next: StateView,
    next_rng: Seq<R>,
    result: Result<Seq<Tensor>, ExecFault>,
    other: StateView,
    other_rng: Seq<R>,
    other_result: Result<Seq<Tensor>, ExecFault>,
)
    requires
        ({
            ||| op is StateWriteKv
            ||| op is Attention
            ||| op is CausalConv1d
            ||| op is LinearAttnScan
            ||| has_kernel(op, inputs.len() as int, outputs.len() as int)
        }),
        dispatched(
            f,
            g,
            k,
            d,
            node,
            op,
            inputs,
            outputs,
            args,
            state,
            rng,
            next,
            next_rng,
            result,
        ),
        dispatched(
            f,
            g,
            k,
            d,
            node,
            op,
            inputs,
            outputs,
            args,
            state,
            rng,
            other,
            other_rng,
            other_result,
        ),
    ensures
        next == other,
        next_rng == other_rng,
        result == other_result,
{
    reveal(dispatched);
}

proof fn lemma_outputs_len(graph: Graph, node: usize, edges: Seq<EdgeId>, batch: BatchMeta)
    ensures
        fresh_outputs(graph, node, edges, batch) matches Ok(t) ==> t.len() == edges.len(),
    decreases edges.len(),
{
    if edges.len() > 0 {
        lemma_outputs_len(graph, node, edges.drop_last(), batch);
    }
}

proof fn lemma_operands_len(
    node: usize,
    edges: Seq<EdgeId>,
    tensors: Seq<Tensor>,
    store: Seq<Option<Tensor>>,
    scales: Map<usize, usize>,
    n: int,
)
    requires
        0 <= n,
    ensures
        with_scales(node, edges, tensors, store, scales, n) matches Ok(t) ==> t.len() == n,
    decreases n,
{
    if n > 0 {
        lemma_operands_len(node, edges, tensors, store, scales, n - 1);
    }
}

proof fn lemma_node_repeats<
    F: Fn(FloatOp, u32, u32) -> u32,
    G: Fn(FormatQuery) -> Result<u64, FormatError>,
    K: Fn(usize, &[TensorView<'_>], Vec<TypedBuffer>) -> Result<Vec<TypedBuffer>, T0Error>,
    P,
    R,
    D: Fn(Draw<'_, P, R>) -> Drawn<R>,
>(
    f: F,
    g: G,
    k: K,
    d: D,
    graph: Graph,
    node: usize,
    args: RunArgs<'_, P>,
    start: ExecView,
    rng: Seq<R>,
    next: StateView,
    next_rng: Seq<R>,
    result: Result<Seq<Tensor>, ExecFault>,
    other: StateView,
    other_rng: Seq<R>,
    other_result: Result<Seq<Tensor>, ExecFault>,
)
    requires
        runs_here(graph, node),
        node_ran(f, g, k, d, graph, node, args, start, rng, next, next_rng, result),
        node_ran(f, g, k, d, graph, node, args, start, rng, other, other_rng, other_result),
    ensures
        next == other,
        next_rng == other_rng,
        result == other_result,
{
    reveal(node_ran);
    let n = graph.nodes@[node as int];
    let batch = *args.batch;
    lemma_outputs_len(graph, node, n.outputs@, batch);
    match fresh_outputs(graph, node, n.outputs@, batch) {
        Err(_) => {},
        Ok(outputs) => match input_tensors(graph, node, n.inputs@, start.store, batch) {
            Err(_) => {},
            Ok(tensors) => {
                let many = n.inputs@.len() as int;
                lemma_operands_len(node, n.inputs@, tensors, start.store, start.scales, many);
                match with_scales(node, n.inputs@, tensors, start.store, start.scales, many) {
                    Err(_) => {},
                    Ok(inputs) => {
                        lemma_dispatch_repeats(
                            f,
                            g,
                            k,
                            d,
                            node,
                            n.op,
                            inputs,
                            outputs,
                            args,
                            start.state,
                            rng,
                            next,
                            next_rng,
                            result,
                            other,
                            other_rng,
                            other_result,
                        );
                    },
                }
            },
        },
    }
}

/// A node that is run by this library alone gives the same outputs, state and
/// error whenever it is run on the same values.
pub proof fn law_step_repeats<
    F: Fn(FloatOp, u32, u32) -> u32,
    G: Fn(FormatQuery) -> Result<u64, FormatError>,
    K: Fn(usize, &[TensorView<'_>], Vec<TypedBuffer>) -> Result<Vec<TypedBuffer>, T0Error>,
    P,
    R,
    D: Fn(Draw<'_, P, R>) -> Drawn<R>,
>(
    f: F,
    g: G,
    k: K,
    d: D,
    graph: Graph,
    node: usize,
    args: RunArgs<'_, P>,
    start: ExecView,
    rng: Seq<R>,
    end: ExecView,
    end_rng: Seq<R>,
    result: Result<(), ExecFault>,
    other: ExecView,
    other_rng: Seq<R>,
    other_result: Result<(), ExecFault>,
)
    requires
        runs_here(graph, node),
        stepped(f, g, k, d, graph, node, args, start, rng, end, end_rng, result),
        stepped(f, g, k, d, graph, node, args, start, rng, other, other_rng, other_result),
    ensures
        end == other,
        end_rng == other_rng,
        result == other_result,
{
    reveal(stepped);
    let a = choose|p: Result<Seq<Tensor>, ExecFault>|
        {
            &&& #[trigger] node_ran(
                f,
                g,
                k,
                d,
                graph,
                node,
                args,
                start,
                rng,
                end.state,
                end_rng,
                p,
            )
            &&& published_by(graph, node, start, end, result, p)
        };
    let b = choose|p: Result<Seq<Tensor>, ExecFault>|
        {
            &&& #[trigger] node_ran(
                f,
                g,
                k,
                d,
                graph,
                node,
                args,
                start,
                rng,
                other.state,
                other_rng,
                p,
            )
            &&& published_by(graph, node, start, other, other_result, p)
        };
    lemma_node_repeats(
        f,
        g,
        k,
        d,
        graph,
        node,
        args,
        start,
        rng,
        end.state,
        end_rng,
        a,
        other.state,
        other_rng,
        b,
    );
}

/// A run over nodes that are run by this library alone passes through the same
/// moments whenever it starts from the same values.
pub proof fn law_run_repeats<
    F: Fn(FloatOp, u32, u32) -> u32,
    G: Fn(FormatQuery) -> Result<u64, FormatError>,
    K: Fn(usize, &[TensorView<'_>], Vec<TypedBuffer>) -> Result<Vec<TypedBuffer>, T0Error>,
    P,
    R,
    D: Fn(Draw<'_, P, R>) -> Drawn<R>,
>(
    f: F,
    g: G,
    k: K,
    d: D,
    graph: Graph,
    order: Seq<usize>,
    args: RunArgs<'_, P>,
    trace: Seq<Moment<R>>,
    other: Seq<Moment<R>>,
    n: int,
)
    requires
        forall|i: int| 0 <= i < order.len() ==> runs_here(graph, #[trigger] order[i]),
        is_trace(f, g, k, d, graph, order, args, trace),
        is_trace(f, g, k, d, graph, order, args, other),
        trace[0] == other[0],
        0 <= n < trace.len() <= order.len() + 1,
        n < other.len() <= order.len() + 1,
    ensures
        trace[n] == other[n],
    decreases n,
{
    if n > 0 {
        law_run_repeats(f, g, k, d, graph, order, args, trace, other, n - 1);
        let i = n - 1;
        assert(runs_here(graph, order[i]));
        assert(trace[i] == other[i]);
        law_step_repeats(
            f,
            g,
            k,
            d,
            graph,
            order[i],
            args,
            trace[i].view,
            trace[i].rng,
            trace[i + 1].view,
            trace[i + 1].rng,
            Ok(()),
            other[i + 1].view,
            other[i + 1].rng,
            Ok(()),
        );
    }
}

} // verus!
