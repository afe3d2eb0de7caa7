//! Executor of step graphs.
//!
//! Nodes run in the order of [`state_ordered`]. A node's inputs are what edges
//! hold, its outputs are zeroed first, and they are put on their edges only if
//! it succeeds. Operations with a kernel in this library run here; others are
//! handed to a kernel of the caller, and those that draw tokens to a draw of
//! the caller.
use std::collections::BTreeMap;
use vstd::prelude::*;
use crate::arith::{is_arith, FloatOp};
use crate::batch::BatchMeta;
use crate::buffer::{Tensor, TensorView, TypedBuffer};
use crate::check::invalid_attr;
use crate::error::{Arg, Detail, ErrorView, FormatError, IrError, T0Error};
use crate::exec_draw::{
    dispatch_postprocess, dispatch_sample, dispatch_verify, draws_always, drew, postprocess_call,
    postprocess_result, sample_call, sample_result, verify_call, verify_result, Draw, Drawn,
    DrawnView,
};
use crate::exec_error::{exec_outcome, ExecError, ExecFault};
use crate::exec_prepare::{
    all_wf, allocate_outputs, buffer_views, fresh_outputs, held, input_tensors, look_up,
    operands_of, realize_inputs, store_views, store_wf, view_inputs, with_scales, Operand,
};
use crate::exec_state::{
    arity_error, attention_step, dispatch_attention, dispatch_scan, dispatch_state_write, key_of,
    scan_step, state_write_step, ExecState, StateView,
};
use crate::graph::{
    first_missing, node_ids, run_order, state_ordered, EdgeId, Graph, NgramSource, Op,
};
use crate::ir::StateHandle;
use crate::kernels::{has_kernel, kernel_result, run_builtin, takes};
use crate::kv_cache::{KvCache, KvLatentCache, KvPagedCache};
use crate::kv_latent::CacheView;
use crate::weight::{is_format, FormatQuery};

verus! {

/// What a step is run with, besides its graph.
pub struct RunArgs<'a, P> {
    /// The batch.
    pub batch: &'a BatchMeta,
    /// Sampling parameters of each sequence.
    pub params: &'a [P],
    /// Whether the kernel has a hash for gathers on the device.
    pub ngram_hash: bool,
}

/// Executor of step graphs.
pub struct CpuExecutor {
    /// What edges hold.
    pub store: Vec<Option<TypedBuffer>>,
    /// State from step to step.
    pub state: ExecState,
    /// Edges that hold the scales of other edges.
    pub scales: BTreeMap<usize, usize>,
}

/// Value of a [`CpuExecutor`].
#[verifier::ext_equal]
pub struct ExecView {
    /// What edges hold.
    pub store: Seq<Option<Tensor>>,
    /// State from step to step.
    pub state: StateView,
    /// Edges that hold the scales of other edges.
    pub scales: Map<usize, usize>,
}

impl View for CpuExecutor {
    type V = ExecView;

    open spec fn view(&self) -> ExecView {
        ExecView { store: store_views(self.store@), state: self.state@, scales: self.scales@ }
    }
}

/// What edges hold after a tensor was put on one.
pub open spec fn bound(store: Seq<Option<Tensor>>, edge: int, t: Tensor) -> Seq<Option<Tensor>> {
    Seq::new(
        if edge < store.len() {
            store.len()
        } else {
            (edge + 1) as nat
        },
        |i: int|
            if i == edge {
                Some(t)
            } else {
                held(store, i)
            },
    )
}

/// What edges hold after the first outputs were put on theirs in order.
pub open spec fn published(
    store: Seq<Option<Tensor>>,
    edges: Seq<EdgeId>,
    tensors: Seq<Tensor>,
    n: int,
) -> Seq<Option<Tensor>>
    decreases n,
{
    if n <= 0 {
        store
    } else {
        bound(published(store, edges, tensors, n - 1), edges[n - 1].0 as int, tensors[n - 1])
    }
}

fn put_buffer(store: &mut Vec<Option<TypedBuffer>>, edge: usize, buffer: TypedBuffer)
    requires
        store_wf(old(store)@),
        buffer.wf(),
        edge < usize::MAX,
    ensures
        store_wf(final(store)@),
        store_views(final(store)@) == bound(store_views(old(store)@), edge as int, buffer@),
{
    let ghost start = store@;
    let ghost t = buffer@;
    while store.len() <= edge
        invariant
            edge < usize::MAX,
            store_wf(store@),
            store@.len() >= start.len(),
            store@.len() == start.len() || store@.len() <= edge + 1,
            forall|i: int| 0 <= i < start.len() ==> store@[i] == start[i],
            forall|i: int| start.len() <= i < store@.len() ==> #[trigger] store@[i] is None,
        decreases edge + 1 - store@.len(),
    {
        store.push(None);
    }
    store.set(edge, Some(buffer));
    assert(store_views(store@) =~= bound(store_views(start), edge as int, t));
}

impl CpuExecutor {
    /// Whether all buffers and caches have the extents that they claim.
    pub open spec fn wf(&self) -> bool {
        store_wf(self.store@) && self.state.wf()
    }

    /// Executor that holds nothing.
    pub fn new() -> (r: CpuExecutor)
        ensures
            r.wf(),
            r@ == (ExecView {
                store: Seq::empty(),
                state: StateView {
                    caches: Map::empty(),
                    scan_a: Map::empty(),
                    scan_b: Map::empty(),
                    flips: Map::empty(),
                    groups: Map::empty(),
                },
                scales: Map::empty(),
            }),
    {
        let r = CpuExecutor {
            store: Vec::new(),
            state: ExecState::new(),
            scales: BTreeMap::new(),
        };
        assert(store_views(r.store@) =~= Seq::empty());
        r
    }

    /// Puts a buffer on an edge, in place of what it held.
    pub fn bind(&mut self, edge: EdgeId, buffer: TypedBuffer)
        requires
            old(self).wf(),
            buffer.wf(),
            edge.0 < usize::MAX,
        ensures
            final(self).wf(),
            final(self)@ == (ExecView {
                store: bound(old(self)@.store, edge.0 as int, buffer@),
                ..old(self)@
            }),
    {
        put_buffer(&mut self.store, edge.0, buffer);
    }

    /// Empties all edges. State, scales and groups stay.
    pub fn clear_edges(&mut self)
        requires
            old(self).wf(),
        ensures
            final(self).wf(),
            final(self)@ == (ExecView {
                store: Seq::new(old(self)@.store.len(), |i: int| None),
                ..old(self)@
            }),
    {
        let n: usize = self.store.len();
        let mut i: usize = 0;
        while i < n
            invariant
                i <= n,
                n == self.store@.len(),
                n == old(self).store@.len(),
                self.state == old(self).state,
                self.scales == old(self).scales,
                store_wf(self.store@),
                forall|j: int| 0 <= j < i ==> #[trigger] self.store@[j] is None,
            decreases n - i,
        {
            self.store.set(i, None);
            i += 1;
        }
        assert(store_views(self.store@) =~= Seq::new(old(self)@.store.len(), |i: int| None));
    }

    /// Registers a paged cache for a handle.
    pub fn register_paged_cache(&mut self, handle: StateHandle, cache: KvPagedCache)
        requires
            old(self).wf(),
            cache.wf(),
        ensures
            final(self).wf(),
            final(self)@ == (ExecView {
                state: StateView {
                    caches: old(self)@.state.caches.insert(
                        key_of(handle),
                        CacheView::Paged(cache@),
                    ),
                    ..old(self)@.state
                },
                ..old(self)@
            }),
    {
        self.state.put_cache(handle, KvCache::Paged(cache));
    }

    /// Registers a latent cache for a handle.
    pub fn register_latent_cache(&mut self, handle: StateHandle, cache: KvLatentCache)
        requires
            old(self).wf(),
            cache.wf(),
        ensures
            final(self).wf(),
            final(self)@ == (ExecView {
                state: StateView {
                    caches: old(self)@.state.caches.insert(
                        key_of(handle),
                        CacheView::Latent(cache@),
                    ),
                    ..old(self)@.state
                },
                ..old(self)@
            }),
    {
        self.state.put_cache(handle, KvCache::Latent(cache));
    }

    /// Names the edge that holds the scales of another.
    pub fn set_scale_edge(&mut self, data: EdgeId, scale: EdgeId)
        requires
            old(self).wf(),
        ensures
            final(self).wf(),
            final(self)@ == (ExecView {
                scales: old(self)@.scales.insert(data.0, scale.0),
                ..old(self)@
            }),
    {
        broadcast use vstd::std_specs::btree::group_btree_axioms;

        let _ = self.scales.insert(data.0, scale.0);
    }

    /// Assigns a group to a layer.
    pub fn set_layer_group(&mut self, layer: u32, group: u32)
        requires
            old(self).wf(),
        ensures
            final(self).wf(),
            final(self)@ == (ExecView {
                state: StateView {
                    groups: old(self)@.state.groups.insert(layer, group),
                    ..old(self)@.state
                },
                ..old(self)@
            }),
    {
        broadcast use vstd::std_specs::btree::group_btree_axioms;

        let _ = self.state.groups.insert(layer, group);
    }

    /// What an edge holds.
    pub fn edge(&self, edge: EdgeId) -> (r: Option<&TypedBuffer>)
        requires
            self.wf(),
        ensures
            match r {
                Some(b) => held(self@.store, edge.0 as int) == Some(b@) && b.wf(),
                None => held(self@.store, edge.0 as int) is None,
            },
    {
        look_up(&self.store, edge.0)
    }
}

impl Default for CpuExecutor {
    fn default() -> (r: CpuExecutor)
        ensures
            r.wf(),
            r@ == (ExecView {
                store: Seq::empty(),
                state: StateView {
                    caches: Map::empty(),
                    scan_a: Map::empty(),
                    scan_b: Map::empty(),
                    flips: Map::empty(),
                    groups: Map::empty(),
                },
                scales: Map::empty(),
            }),
    {
        CpuExecutor::new()
    }
}

/// Whether a kernel takes any operands and gives back as many buffers as it
/// got, each with room for its shape.
pub open spec fn is_kernel<
    K: Fn(usize, &[TensorView<'_>], Vec<TypedBuffer>) -> Result<Vec<TypedBuffer>, T0Error>,
>(k: K) -> bool {
    &&& forall|n: usize, i: &[TensorView<'_>], o: Vec<TypedBuffer>| #[trigger]
        k.requires((n, i, o))
    &&& forall|
        n: usize,
        i: &[TensorView<'_>],
        o: Vec<TypedBuffer>,
        r: Result<Vec<TypedBuffer>, T0Error>,
    | #[trigger]
        k.ensures((n, i, o), r) && all_wf(o@) && r is Ok ==> r->Ok_0@.len() == o@.len() && all_wf(
            r->Ok_0@,
        )
}

/// Whether a kernel was handed a node's operands and zeroed outputs, and gave
/// back a result.
pub open spec fn kernel_ran<
    K: Fn(usize, &[TensorView<'_>], Vec<TypedBuffer>) -> Result<Vec<TypedBuffer>, T0Error>,
>(
    k: K,
    node: usize,
    inputs: Seq<Operand>,
    outputs: Seq<Tensor>,
    result: Result<Seq<Tensor>, ExecFault>,
) -> bool {
    exists|i: &[TensorView<'_>], o: Vec<TypedBuffer>, r: Result<Vec<TypedBuffer>, T0Error>|
        #[trigger] k.ensures((node, i, o), r) && operands_of(i@) == inputs && buffer_views(o@)
            == outputs && result == (match r {
            Ok(v) => Ok(buffer_views(v@)),
            Err(e) => Err(ExecFault::T0(e.view())),
        })
}

fn run_kernel<
    K: Fn(usize, &[TensorView<'_>], Vec<TypedBuffer>) -> Result<Vec<TypedBuffer>, T0Error>,
>(k: &K, node: usize, inputs: &[TensorView<'_>], outputs: Vec<TypedBuffer>) -> (r: Result<
    Vec<TypedBuffer>,
    ExecError,
>)
    requires
        is_kernel(*k),
        all_wf(outputs@),
    ensures
        kernel_ran(
            *k,
            node,
            operands_of(inputs@),
            buffer_views(outputs@),
            result_view(r),
        ),
        r is Ok ==> r->Ok_0@.len() == outputs@.len() && all_wf(r->Ok_0@),
{
    let r = k(node, inputs, outputs);
    assert(k.ensures((node, inputs, outputs), r));
    match r {
        Ok(v) => Ok(v),
        Err(e) => Err(ExecError::T0(e)),
    }
}

/// Value of the result of a node.
pub open spec fn result_view(r: Result<Vec<TypedBuffer>, ExecError>) -> Result<
    Seq<Tensor>,
    ExecFault,
> {
    match r {
        Ok(v) => Ok(buffer_views(v@)),
        Err(e) => Err(e.view()),
    }
}

/// Whether running an operation on operands and zeroed outputs leads from one
/// state to another with a result.
#[verifier::opaque]
pub open spec fn dispatched<
    F: Fn(FloatOp, u32, u32) -> u32,
    G: Fn(FormatQuery) -> Result<u64, FormatError>,
    K: Fn(usize, &[TensorView<'_>], Vec<TypedBuffer>) -> Result<Vec<TypedBuffer>, T0Error>,
    P,
    R,
    D: Fn(Draw<'_, P, R>) -> Drawn<R>,
>(
    f: F,
    g: G,
    k: K,
    d: D,
    node: usize,
    op: Op,
    inputs: Seq<Operand>,
    outputs: Seq<Tensor>,
    args: RunArgs<'_, P>,
    state: StateView,
    rng: Seq<R>,
    next: StateView,
    next_rng: Seq<R>,
    result: Result<Seq<Tensor>, ExecFault>,
) -> bool {
    let batch = *args.batch;
    match op {
        Op::StateWriteKv(write) => next_rng == rng && match state_write_step(
            f,
            g,
            node,
            write,
            inputs,
            batch,
            state,
        ) {
            Err(e) => next == state && result == Err::<Seq<Tensor>, ExecFault>(e),
            Ok(s) => next == s && result == Ok::<Seq<Tensor>, ExecFault>(outputs),
        },
        Op::Attention(a) => next_rng == rng && next == state && result == attention_step(
            f,
            node,
            a,
            inputs,
            outputs,
            batch,
            state,
        ),
        Op::CausalConv1d(_) | Op::LinearAttnScan(_) => next_rng == rng && (next, result)
            == scan_step(f, node, op, inputs, outputs, batch, state),
        Op::LogitsPostprocess => next_rng == rng && next == state && match postprocess_call::<P, R>(
            node,
            inputs,
            outputs,
            args.params@,
            batch,
        ) {
            Err(e) => result == Err::<Seq<Tensor>, ExecFault>(e),
            Ok(call) => exists|drawn: DrawnView<R>| #[trigger]
                drew(d, call, drawn) && result == postprocess_result(outputs[0], drawn),
        },
        Op::Sample => next == state && match sample_call::<P, R>(node, inputs, outputs, rng, batch) {
            Err(e) => next_rng == rng && result == Err::<Seq<Tensor>, ExecFault>(e),
            Ok(call) => exists|drawn: DrawnView<R>| #[trigger]
                drew(d, call, drawn) && next_rng == drawn.rng && result == sample_result(
                    node,
                    outputs,
                    batch.ctx_len@.len() as usize,
                    drawn,
                ),
        },
        Op::Verify(v) => next == state && match verify_call::<P, R>(
            node,
            v,
            inputs,
            outputs,
            rng,
            batch,
        ) {
            Err(e) => next_rng == rng && result == Err::<Seq<Tensor>, ExecFault>(e),
            Ok(call) => exists|drawn: DrawnView<R>| #[trigger]
                drew(d, call, drawn) && next_rng == drawn.rng && result == verify_result(
                    node,
                    outputs,
                    batch.ctx_len@.len() as usize,
                    inputs[0].tensor.shape[1],
                    drawn,
                ),
        },
        Op::NgramGather(NgramSource::Device) => next_rng == rng && next == state && if !args.ngram_hash {
            result == Err::<Seq<Tensor>, ExecFault>(ExecFault::MissingNgramHash { node })
        } else if outputs.len() != 1 || inputs.len() < 2 || inputs.len() > 3 {
            result == Err::<Seq<Tensor>, ExecFault>(
                arity_error(
                    "ngram_gather",
                    "inputs/outputs",
                    "device ngram_gather requires 2 or 3 inputs and 1 output, got {} inputs and {} outputs",
                    seq![Arg::Int(inputs.len() as u64), Arg::Int(outputs.len() as u64)],
                ),
            )
        } else {
            kernel_ran(k, node, inputs, outputs, result)
        },
        _ => next_rng == rng && next == state && if outputs.len() > 2 {
            result == Err::<Seq<Tensor>, ExecFault>(
                arity_error(
                    op.name(),
                    "outputs",
                    "node {}: executor supports at most 2 outputs, got {}",
                    seq![Arg::Int(node as u64), Arg::Int(outputs.len() as u64)],
                ),
            )
        } else if has_kernel(op, inputs.len() as int, outputs.len() as int) {
            result == (match kernel_result(f, g, op, inputs, outputs) {
                Err(e) => Err(ExecFault::T0(e)),
                Ok(t) => Ok(t),
            })
        } else {
            kernel_ran(k, node, inputs, outputs, result)
        },
    }
}

/// Runs an operation.
fn dispatch<
    F: Fn(FloatOp, u32, u32) -> u32,
    G: Fn(FormatQuery) -> Result<u64, FormatError>,
    K: Fn(usize, &[TensorView<'_>], Vec<TypedBuffer>) -> Result<Vec<TypedBuffer>, T0Error>,
    P,
    R,
    D: Fn(Draw<'_, P, R>) -> Drawn<R>,
>(
    f: &F,
    g: &G,
    k: &K,
    d: &D,
    node: usize,
    op: &Op,
    inputs: &[TensorView<'_>],
    outputs: Vec<TypedBuffer>,
    args: &RunArgs<'_, P>,
    rng: Vec<R>,
    state: &mut ExecState,
) -> (r: (Result<Vec<TypedBuffer>, ExecError>, Vec<R>))
    requires
        is_arith(*f),
        is_format(*g),
        is_kernel(*k),
        draws_always(*d),
        args.batch.wf(),
        old(state).wf(),
        all_wf(outputs@),
        forall|i: int| 0 <= i < inputs@.len() ==> (#[trigger] inputs@[i])@.backed(),
    ensures
        dispatched(
            *f,
            *g,
            *k,
            *d,
            node,
            *op,
            operands_of(inputs@),
            buffer_views(outputs@),
            *args,
            old(state)@,
            rng@,
            final(state)@,
            r.1@,
            result_view(r.0),
        ),
        final(state).wf(),
        r.0 is Ok ==> r.0->Ok_0@.len() == outputs@.len() && all_wf(r.0->Ok_0@),
{
    proof {
        reveal(dispatched);
    }
    let count: usize = outputs.len();
    match op {
        Op::StateWriteKv(write) => match dispatch_state_write(
            f,
            g,
            node,
            write,
            inputs,
            args.batch,
            state,
        ) {
            Ok(_) => (Ok(outputs), rng),
            Err(e) => (Err(e), rng),
        },
        Op::Attention(a) => {
            let r = dispatch_attention(f, node, a, inputs, outputs, args.batch, state);
            assert(r is Ok ==> buffer_views(r->Ok_0@).len() == 1);
            (r, rng)
        },
        Op::CausalConv1d(_) | Op::LinearAttnScan(_) => {
            let r = dispatch_scan(f, node, op, inputs, outputs, args.batch, state);
            assert(r is Ok ==> buffer_views(r->Ok_0@).len() == 1);
            (r, rng)
        },
        Op::LogitsPostprocess => {
            let ghost zeros = buffer_views(outputs@);
            assert(count > 0 ==> zeros[0] == outputs@[0]@);
            let r = dispatch_postprocess(d, node, inputs, outputs, args.params, args.batch);
            assert(r is Ok ==> buffer_views(r->Ok_0@).len() == 1);
            (r, rng)
        },
        Op::Sample => {
            let r = dispatch_sample(d, node, inputs, outputs, rng, args.batch);
            assert(r.0 is Ok ==> buffer_views(r.0->Ok_0@).len() == count);
            r
        },
        Op::Verify(v) => {
            assert(inputs@.len() > 0 ==> operands_of(inputs@)[0].tensor == inputs@[0]@);
            let r = dispatch_verify(d, node, v, inputs, outputs, rng, args.batch);
            assert(r.0 is Ok ==> buffer_views(r.0->Ok_0@).len() == count);
            r
        },
        Op::NgramGather(NgramSource::Device) => {
            if !args.ngram_hash {
                return (Err(ExecError::MissingNgramHash { node }), rng);
            }
            if count != 1 || inputs.len() < 2 || inputs.len() > 3 {
                let reason = Detail::two(
                    "device ngram_gather requires 2 or 3 inputs and 1 output, got {} inputs and {} outputs",
                    Arg::Int(inputs.len() as u64),
                    Arg::Int(count as u64),
                );
                return (
                    Err(ExecError::T0(invalid_attr("ngram_gather", "inputs/outputs", reason))),
                    rng,
                );
            }
            (run_kernel(k, node, inputs, outputs), rng)
        },
        _ => {
            if count > 2 {
                let reason = Detail::two(
                    "node {}: executor supports at most 2 outputs, got {}",
                    Arg::Int(node as u64),
                    Arg::Int(count as u64),
                );
                return (Err(ExecError::T0(invalid_attr(op.op_name(), "outputs", reason))), rng);
            }
            if takes(op, inputs.len(), count) {
                return match run_builtin(f, g, op, inputs, outputs) {
                    Ok(v) => (Ok(v), rng),
                    Err(e) => (Err(ExecError::T0(e)), rng),
                };
            }
            (run_kernel(k, node, inputs, outputs), rng)
        },
    }
}

/// Whether running a node leads from one state to another with a result.
#[verifier::opaque]
pub open spec fn node_ran<
    F: Fn(FloatOp, u32, u32) -> u32,
    G: Fn(FormatQuery) -> Result<u64, FormatError>,
    K: Fn(usize, &[TensorView<'_>], Vec<TypedBuffer>) -> Result<Vec<TypedBuffer>, T0Error>,
    P,
    R,
    D: Fn(Draw<'_, P, R>) -> Drawn<R>,
>(
    f: F,
    g: G,
    k: K,
    d: D,
    graph: Graph,
    node: usize,
    args: RunArgs<'_, P>,
    start: ExecView,
    rng: Seq<R>,
    next: StateView,
    next_rng: Seq<R>,
    result: Result<Seq<Tensor>, ExecFault>,
) -> bool {
    let n = graph.nodes@[node as int];
    let batch = *args.batch;
    let failed = |e: ExecFault|
        next == start.state && next_rng == rng && result == Err::<Seq<Tensor>, ExecFault>(e);
    match fresh_outputs(graph, node, n.outputs@, batch) {
        Err(e) => failed(e),
        Ok(outputs) => match input_tensors(graph, node, n.inputs@, start.store, batch) {
            Err(e) => failed(e),
            Ok(tensors) => match with_scales(
                node,
                n.inputs@,
                tensors,
                start.store,
                start.scales,
                n.inputs@.len() as int,
            ) {
                Err(e) => failed(e),
                Ok(inputs) => dispatched(
                    f,
                    g,
                    k,
                    d,
                    node,
                    n.op,
                    inputs,
                    outputs,
                    args,
                    start.state,
                    rng,
                    next,
                    next_rng,
                    result,
                ),
            },
        },
    }
}

/// Runs a node.
fn run_node<
    F: Fn(FloatOp, u32, u32) -> u32,
    G: Fn(FormatQuery) -> Result<u64, FormatError>,
    K: Fn(usize, &[TensorView<'_>], Vec<TypedBuffer>) -> Result<Vec<TypedBuffer>, T0Error>,
    P,
    R,
    D: Fn(Draw<'_, P, R>) -> Drawn<R>,
>(
    f: &F,
    g: &G,
    k: &K,
    d: &D,
    graph: &Graph,
    node: usize,
    args: &RunArgs<'_, P>,
    rng: Vec<R>,
    store: &Vec<Option<TypedBuffer>>,
    scales: &BTreeMap<usize, usize>,
    state: &mut ExecState,
) -> (r: (Result<Vec<TypedBuffer>, ExecError>, Vec<R>))
    requires
        is_arith(*f),
        is_format(*g),
        is_kernel(*k),
        draws_always(*d),
        graph.wf(),
        node < graph.nodes@.len(),
        args.batch.wf(),
        store_wf(store@),
        old(state).wf(),
    ensures
        node_ran(
            *f,
            *g,
            *k,
            *d,
            *graph,
            node,
            *args,
            (ExecView { store: store_views(store@), state: old(state)@, scales: scales@ }),
            rng@,
            final(state)@,
            r.1@,
            result_view(r.0),
        ),
        final(state).wf(),
        r.0 is Ok ==> r.0->Ok_0@.len() == graph.nodes@[node as int].outputs@.len() && all_wf(
            r.0->Ok_0@,
        ),
{
    proof {
        reveal(node_ran);
    }
    let outputs = match allocate_outputs(graph, node, args.batch) {
        Ok(o) => o,
        Err(e) => {
            return (Err(e), rng);
        },
    };
    let copies = match realize_inputs(graph, node, store, args.batch) {
        Ok(c) => c,
        Err(e) => {
            return (Err(e), rng);
        },
    };
    let n = &graph.nodes[node];
    let ghost tensors = input_tensors(
        *graph,
        node,
        n.inputs@,
        store_views(store@),
        *args.batch,
    )->Ok_0;
    let inputs = match view_inputs(node, &n.inputs, &copies, store, scales, Ghost(tensors)) {
        Ok(v) => v,
        Err(e) => {
            return (Err(e), rng);
        },
    };
    dispatch(f, g, k, d, node, &n.op, inputs.as_slice(), outputs, args, rng, state)
}

/// Whether what a node produced reached its edges, or its error the result.
pub open spec fn published_by(
    graph: Graph,
    node: usize,
    start: ExecView,
    end: ExecView,
    result: Result<(), ExecFault>,
    produced: Result<Seq<Tensor>, ExecFault>,
) -> bool {
    &&& end.scales == start.scales
    &&& match produced {
        Err(e) => end.store == start.store && result == Err::<(), ExecFault>(e),
        Ok(tensors) => end.store == published(
            start.store,
            graph.nodes@[node as int].outputs@,
            tensors,
            tensors.len() as int,
        ) && result == Ok::<(), ExecFault>(()),
    }
}

/// Whether a step over one node leads from one value of the executor to another.
/// Outputs reach their edges only if the node succeeds.
#[verifier::opaque]
pub open spec fn stepped<
    F: Fn(FloatOp, u32, u32) -> u32,
    G: Fn(FormatQuery) -> Result<u64, FormatError>,
    K: Fn(usize, &[TensorView<'_>], Vec<TypedBuffer>) -> Result<Vec<TypedBuffer>, T0Error>,
    P,
    R,
    D: Fn(Draw<'_, P, R>) -> Drawn<R>,
>(
    f: F,
    g: G,
    k: K,
    d: D,
    graph: Graph,
    node: usize,
    args: RunArgs<'_, P>,
    start: ExecView,
    rng: Seq<R>,
    end: ExecView,
    end_rng: Seq<R>,
    result: Result<(), ExecFault>,
) -> bool {
    exists|produced: Result<Seq<Tensor>, ExecFault>|
        {
            &&& #[trigger] node_ran(
                f,
                g,
                k,
                d,
                graph,
                node,
                args,
                start,
                rng,
                end.state,
                end_rng,
                produced,
            )
            &&& published_by(graph, node, start, end, result, produced)
        }
}

/// A moment of a run: the executor and the random states.
pub struct Moment<R> {
    /// The executor.
    pub view: ExecView,
    /// The random states.
    pub rng: Seq<R>,
}

/// Whether each moment of a run follows from the one before it by running the
/// next node of an order with success.
pub open spec fn is_trace<
    F: Fn(FloatOp, u32, u32) -> u32,
    G: Fn(FormatQuery) -> Result<u64, FormatError>,
    K: Fn(usize, &[TensorView<'_>], Vec<TypedBuffer>) -> Result<Vec<TypedBuffer>, T0Error>,
    P,
    R,
    D: Fn(Draw<'_, P, R>) -> Drawn<R>,
>(
    f: F,
    g: G,
    k: K,
    d: D,
    graph: Graph,
    order: Seq<usize>,
    args: RunArgs<'_, P>,
    trace: Seq<Moment<R>>,
) -> bool {
    &&& trace.len() > 0
    &&& forall|i: int|
        0 <= i < trace.len() - 1 ==> stepped(
            f,
            g,
            k,
            d,
            graph,
            order[i],
            args,
            (#[trigger] trace[i]).view,
            trace[i].rng,
            trace[i + 1].view,
            trace[i + 1].rng,
            Ok(()),
        )
}

fn publish(store: &mut Vec<Option<TypedBuffer>>, edges: &Vec<EdgeId>, buffers: Vec<TypedBuffer>)
    requires
        store_wf(old(store)@),
        all_wf(buffers@),
        buffers@.len() == edges@.len(),
        forall|i: int| 0 <= i < edges@.len() ==> (#[trigger] edges@[i]).0 < usize::MAX,
    ensures
        store_wf(final(store)@),
        store_views(final(store)@) == published(
            store_views(old(store)@),
            edges@,
            buffer_views(buffers@),
            buffers@.len() as int,
        ),
{
    let ghost all = buffers@;
    let ghost tensors = buffer_views(buffers@);
    let n: usize = buffers.len();
    let mut rest = buffers;
    let mut reversed: Vec<TypedBuffer> = Vec::new();
    while rest.len() > 0
        invariant
            n == all.len(),
            rest@.len() + reversed@.len() == n,
            rest@ == all.take(rest@.len() as int),
            forall|i: int|
                0 <= i < reversed@.len() ==> (#[trigger] reversed@[i]) == all[n - 1 - i],
        decreases rest@.len(),
    {
        let ghost before = rest@;
        match rest.pop() {
            Some(b) => {
                assert(b == all[before.len() - 1]);
                reversed.push(b);
            },
            None => {},
        }
        assert(rest@ =~= all.take(rest@.len() as int));
    }
    let mut i: usize = 0;
    while i < n
        invariant
            i <= n,
            n == all.len(),
            n == edges@.len(),
            all_wf(all),
            tensors == buffer_views(all),
            forall|i: int| 0 <= i < edges@.len() ==> (#[trigger] edges@[i]).0 < usize::MAX,
            reversed@.len() == n - i,
            forall|j: int|
                0 <= j < reversed@.len() ==> (#[trigger] reversed@[j]) == all[n - 1 - j],
            store_wf(store@),
            store_views(store@) == published(
                store_views(old(store)@),
                edges@,
                tensors,
                i as int,
            ),
        decreases n - i,
    {
        match reversed.pop() {
            Some(b) => {
                assert(b == all[i as int]);
                assert(b.wf());
                assert(edges@[i as int].0 < usize::MAX);
                put_buffer(store, edges[i].0, b);
            },
            None => {},
        }
        i += 1;
    }
}

impl CpuExecutor {
    /// Runs a node and puts its outputs on their edges.
    fn step<
        F: Fn(FloatOp, u32, u32) -> u32,
        G: Fn(FormatQuery) -> Result<u64, FormatError>,
        K: Fn(usize, &[TensorView<'_>], Vec<TypedBuffer>) -> Result<Vec<TypedBuffer>, T0Error>,
        P,
        R,
        D: Fn(Draw<'_, P, R>) -> Drawn<R>,
    >(
        &mut self,
        f: &F,
        g: &G,
        k: &K,
        d: &D,
        graph: &Graph,
        node: usize,
        args: &RunArgs<'_, P>,
        rng: Vec<R>,
    ) -> (r: (Result<(), ExecError>, Vec<R>))
        requires
            is_arith(*f),
            is_format(*g),
            is_kernel(*k),
            draws_always(*d),
            graph.wf(),
            node < graph.nodes@.len(),
            args.batch.wf(),
            old(self).wf(),
        ensures
            final(self).wf(),
            stepped(
                *f,
                *g,
                *k,
                *d,
                *graph,
                node,
                *args,
                old(self)@,
                rng@,
                final(self)@,
                r.1@,
                exec_outcome(r.0),
            ),
    {
        proof {
            reveal(stepped);
        }
        let edges: usize = graph.edges.len();
        let ghost start_rng = rng@;
        let (result, rng) = run_node(
            f,
            g,
            k,
            d,
            graph,
            node,
            args,
            rng,
            &self.store,
            &self.scales,
            &mut self.state,
        );
        let ghost produced = result_view(result);
        assert(node_ran(
            *f,
            *g,
            *k,
            *d,
            *graph,
            node,
            *args,
            old(self)@,
            start_rng,
            self@.state,
            rng@,
            produced,
        ));
        match result {
            Err(e) => (Err(e), rng),
            Ok(buffers) => {
                let outputs = &graph.nodes[node].outputs;
                assert forall|j: int| 0 <= j < outputs@.len() implies (#[trigger] outputs@[j]).0
                    < usize::MAX by {
                    assert(graph.nodes@[node as int].outputs@[j].0 < graph.edges@.len());
                }
                let ghost tensors = buffer_views(buffers@);
                publish(&mut self.store, outputs, buffers);
                assert(self@.store == published(
                    old(self)@.store,
                    graph.nodes@[node as int].outputs@,
                    tensors,
                    tensors.len() as int,
                ));
                assert(produced == Ok::<Seq<Tensor>, ExecFault>(tensors));
                assert(self@.scales == old(self)@.scales);
                assert(node_ran(
                    *f,
                    *g,
                    *k,
                    *d,
                    *graph,
                    node,
                    *args,
                    old(self)@,
                    start_rng,
                    self@.state,
                    rng@,
                    produced,
                ));
                assert(stepped(
                    *f,
                    *g,
                    *k,
                    *d,
                    *graph,
                    node,
                    *args,
                    old(self)@,
                    start_rng,
                    self@,
                    rng@,
                    Ok(()),
                ));
                (Ok(()), rng)
            },
        }
    }

    /// Runs all nodes of a graph in order, up to the first error. Gives the
    /// random states back.
    pub fn run<
        F: Fn(FloatOp, u32, u32) -> u32,
        G: Fn(FormatQuery) -> Result<u64, FormatError>,
        K: Fn(usize, &[TensorView<'_>], Vec<TypedBuffer>) -> Result<Vec<TypedBuffer>, T0Error>,
        P,
        R,
        D: Fn(Draw<'_, P, R>) -> Drawn<R>,
    >(
        &mut self,
        f: &F,
        g: &G,
        k: &K,
        d: &D,
        graph: &Graph,
        args: &RunArgs<'_, P>,
        rng: Vec<R>,
    ) -> (r: (Result<(), ExecError>, Vec<R>))
        requires
            is_arith(*f),
            is_format(*g),
            is_kernel(*k),
            draws_always(*d),
            graph.wf(),
            args.batch.wf(),
            old(self).wf(),
        ensures
            final(self).wf(),
            ({
                let n = graph.nodes@.len() as int;
                let order = run_order(graph.links(), n);
                if order.len() != n {
                    &&& r.0 is Err
                    &&& r.0->Err_0.view() == ExecFault::T0(
                        ErrorView::Ir(IrError::GraphCycle { node: first_missing(order, 0, n) }),
                    )
                    &&& final(self)@ == old(self)@
                    &&& r.1@ == rng@
                } else {
                    exists|trace: Seq<Moment<R>>|
                        {
                            &&& #[trigger] is_trace(
                                *f,
                                *g,
                                *k,
                                *d,
                                *graph,
                                order,
                                *args,
                                trace,
                            )
                            &&& trace[0] == (Moment { view: old(self)@, rng: rng@ })
                            &&& match r.0 {
                                Ok(_) => trace.len() == n + 1 && trace.last() == (Moment {
                                    view: final(self)@,
                                    rng: r.1@,
                                }),
                                Err(e) => trace.len() <= n && stepped(
                                    *f,
                                    *g,
                                    *k,
                                    *d,
                                    *graph,
                                    order[trace.len() - 1],
                                    *args,
                                    trace.last().view,
                                    trace.last().rng,
                                    final(self)@,
                                    r.1@,
                                    Err(e.view()),
                                ),
                            }
                        }
                }
            }),
    {
        let order = match state_ordered(graph) {
            Ok(o) => o,
            Err(e) => {
                return (Err(ExecError::T0(e)), rng);
            },
        };
        let ghost list = run_order(graph.links(), graph.nodes@.len() as int);
        let ghost mut trace = seq![Moment { view: self@, rng: rng@ }];
        let mut states = rng;
        let mut i: usize = 0;
        while i < order.len()
            invariant
                i <= order@.len(),
                is_arith(*f),
                is_format(*g),
                is_kernel(*k),
                draws_always(*d),
                graph.wf(),
                args.batch.wf(),
                self.wf(),
                list == run_order(graph.links(), graph.nodes@.len() as int),
                order@ == node_ids(list),
                list.len() == graph.nodes@.len(),
                forall|j: int| 0 <= j < list.len() ==> (#[trigger] list[j]) < graph.nodes@.len(),
                is_trace(*f, *g, *k, *d, *graph, list, *args, trace),
                trace.len() == i + 1,
                trace[0] == (Moment { view: old(self)@, rng: rng@ }),
                trace.last() == (Moment { view: self@, rng: states@ }),
            decreases order@.len() - i,
        {
            let node: usize = order[i].0;
            assert(node == list[i as int]);
            let (result, next_rng) = self.step(f, g, k, d, graph, node, args, states);
            states = next_rng;
            match result {
                Err(e) => {
                    assert(is_trace(*f, *g, *k, *d, *graph, list, *args, trace));
                    assert(list[trace.len() - 1] == node);
                    assert(stepped(
                        *f,
                        *g,
                        *k,
                        *d,
                        *graph,
                        list[trace.len() - 1],
                        *args,
                        trace.last().view,
                        trace.last().rng,
                        self@,
                        states@,
                        Err(e.view()),
                    ));
                    return (Err(e), states);
                },
                Ok(_) => {
                    proof {
                        trace = trace.push(Moment { view: self@, rng: states@ });
                    }
                },
            }
            i += 1;
        }
        (Ok(()), states)
    }
}

} // verus!
