//! What a node needs before it runs: zeroed outputs and its inputs.
use std::collections::BTreeMap;
use vstd::prelude::*;
use crate::batch::BatchMeta;
use crate::buffer::{dense, extent, shape_extent, Tensor, TensorView, TypedBuffer};
use crate::check::overflow_error;
use crate::error::{Arg, Detail, DetailView, T0Error};
use crate::exec_error::{ExecError, ExecFault};
use crate::graph::{Dim, EdgeId, Graph, ShapeSymbol, TensorDesc};

verus! {

/// Extent that a dimension has for a batch: numbers of sequences and tokens are
/// the batch's, other symbols have none.
pub open spec fn dim_extent(dim: Dim, batch: BatchMeta) -> Result<usize, ShapeSymbol> {
    match dim {
        Dim::Concrete(v) => Ok(v as usize),
        Dim::Symbolic(ShapeSymbol::S) => Ok(batch.ctx_len@.len() as usize),
        Dim::Symbolic(ShapeSymbol::T) => Ok(batch.total_tokens),
        Dim::Symbolic(symbol) => Err(symbol),
    }
}

/// Extents of the first dimensions, or the error of the first symbol without
/// one.
pub open spec fn resolved(
    node: usize,
    edge: usize,
    dims: Seq<Dim>,
    batch: BatchMeta,
) -> Result<Seq<usize>, ExecFault>
    decreases dims.len(),
{
    if dims.len() == 0 {
        Ok(Seq::empty())
    } else {
        match resolved(node, edge, dims.drop_last(), batch) {
            Err(e) => Err(e),
            Ok(shape) => match dim_extent(dims.last(), batch) {
                Ok(n) => Ok(shape.push(n)),
                Err(symbol) => Err(ExecFault::SymbolicDim { node, edge, symbol }),
            },
        }
    }
}

/// An error among the first dimensions is the error of the shape.
proof fn lemma_resolved_prefix(
    node: usize,
    edge: usize,
    dims: Seq<Dim>,
    batch: BatchMeta,
    n: int,
)
    requires
        0 <= n <= dims.len(),
        resolved(node, edge, dims.take(n), batch) is Err,
    ensures
        resolved(node, edge, dims, batch) == resolved(node, edge, dims.take(n), batch),
    decreases dims.len() - n,
{
    if n == dims.len() {
        assert(dims.take(n) =~= dims);
    } else {
        assert(dims.take(n + 1).drop_last() =~= dims.take(n));
        lemma_resolved_prefix(node, edge, dims, batch, n + 1);
    }
}

/// Resolves the shape of a tensor against a batch.
pub fn resolve_shape(node: usize, edge: usize, tensor: &TensorDesc, batch: &BatchMeta) -> (r: Result<
    Vec<usize>,
    ExecError,
>)
    ensures
        match resolved(node, edge, tensor.shape@, *batch) {
            Err(e) => r is Err && r->Err_0.view() == e,
            Ok(shape) => r is Ok && r->Ok_0@ == shape,
        },
{
    let mut shape: Vec<usize> = Vec::new();
    let mut i: usize = 0;
    while i < tensor.shape.len()
        invariant
            i <= tensor.shape@.len(),
            resolved(node, edge, tensor.shape@.take(i as int), *batch) == Ok::<
                Seq<usize>,
                ExecFault,
            >(shape@),
        decreases tensor.shape@.len() - i,
    {
        assert(tensor.shape@.take(i + 1).drop_last() =~= tensor.shape@.take(i as int));
        let n: usize = match tensor.shape[i] {
            Dim::Concrete(v) => v as usize,
            Dim::Symbolic(ShapeSymbol::S) => batch.num_seqs(),
            Dim::Symbolic(ShapeSymbol::T) => batch.total_tokens(),
            Dim::Symbolic(symbol) => {
                proof {
                    lemma_resolved_prefix(node, edge, tensor.shape@, *batch, i + 1);
                }
                return Err(ExecError::SymbolicDim { node, edge, symbol });
            },
        };
        shape.push(n);
        i += 1;
    }
    assert(tensor.shape@.take(i as int) =~= tensor.shape@);
    Ok(shape)
}

/// Zeroed output of an edge, or the error of a shape that it cannot have.
pub open spec fn fresh_output(
    node: usize,
    edge: usize,
    tensor: TensorDesc,
    batch: BatchMeta,
) -> Result<Tensor, ExecFault> {
    match resolved(node, edge, tensor.shape@, batch) {
        Err(e) => Err(e),
        Ok(shape) => match extent(shape) {
            None => Err(
                ExecFault::T0(
                    overflow_error(
                        "executor",
                        DetailView {
                            text: "node {}: output edge {} shape {dims} element product overflows usize",
                            subject: "",
                            args: seq![Arg::Int(node as u64), Arg::Int(edge as u64)],
                            dims: shape,
                        },
                    ),
                ),
            ),
            Some(n) => match TypedBuffer::zeros_fault(shape, tensor.dtype) {
                Some(e) => Err(ExecFault::T0(e)),
                None => Ok(
                    Tensor {
                        quant: tensor.quant,
                        layout: tensor.layout,
                        ..dense(shape, TypedBuffer::zero_cells(tensor.dtype, n as int))
                    },
                ),
            },
        },
    }
}

/// Allocates the zeroed output of an edge.
fn allocate_output(node: usize, edge: usize, tensor: &TensorDesc, batch: &BatchMeta) -> (r: Result<
    TypedBuffer,
    ExecError,
>)
    ensures
        match fresh_output(node, edge, *tensor, *batch) {
            Err(e) => r is Err && r->Err_0.view() == e,
            Ok(t) => r is Ok && r->Ok_0@ == t && r->Ok_0.wf(),
        },
{
    let shape = match resolve_shape(node, edge, tensor, batch) {
        Ok(s) => s,
        Err(e) => {
            return Err(e);
        },
    };
    if shape_extent(shape.as_slice()).is_none() {
        let args = vec![Arg::Int(node as u64), Arg::Int(edge as u64)];
        assert(args@ =~= seq![Arg::Int(node as u64), Arg::Int(edge as u64)]);
        let detail = Detail {
            text: "node {}: output edge {} shape {dims} element product overflows usize",
            subject: "",
            args,
            dims: shape,
        };
        return Err(ExecError::T0(T0Error::ArithmeticOverflow { op: "executor", detail }));
    }
    match TypedBuffer::try_zeros(shape.as_slice(), tensor.dtype) {
        Err(e) => Err(ExecError::T0(e)),
        Ok(b) => {
            let b = b.with_quant(tensor.quant).with_layout(tensor.layout);
            Ok(b)
        },
    }
}

/// Values of buffers.
pub open spec fn buffer_views(buffers: Seq<TypedBuffer>) -> Seq<Tensor> {
    Seq::new(buffers.len(), |i: int| buffers[i]@)
}

/// Whether all buffers have room for their shapes.
pub open spec fn all_wf(buffers: Seq<TypedBuffer>) -> bool {
    forall|i: int| 0 <= i < buffers.len() ==> (#[trigger] buffers[i]).wf()
}

/// Zeroed outputs of the first edges, or the first error.
pub open spec fn fresh_outputs(graph: Graph, node: usize, edges: Seq<EdgeId>, batch: BatchMeta) -> Result<
    Seq<Tensor>,
    ExecFault,
>
    decreases edges.len(),
{
    if edges.len() == 0 {
        Ok(Seq::empty())
    } else {
        match fresh_outputs(graph, node, edges.drop_last(), batch) {
            Err(e) => Err(e),
            Ok(outputs) => {
                let edge = edges.last().0;
                match fresh_output(node, edge, graph.edges@[edge as int].tensor, batch) {
                    Err(e) => Err(e),
                    Ok(t) => Ok(outputs.push(t)),
                }
            },
        }
    }
}

proof fn lemma_outputs_prefix(
    graph: Graph,
    node: usize,
    edges: Seq<EdgeId>,
    batch: BatchMeta,
    n: int,
)
    requires
        0 <= n <= edges.len(),
        fresh_outputs(graph, node, edges.take(n), batch) is Err,
    ensures
        fresh_outputs(graph, node, edges, batch) == fresh_outputs(
            graph,
            node,
            edges.take(n),
            batch,
        ),
    decreases edges.len() - n,
{
    if n == edges.len() {
        assert(edges.take(n) =~= edges);
    } else {
        assert(edges.take(n + 1).drop_last() =~= edges.take(n));
        lemma_outputs_prefix(graph, node, edges, batch, n + 1);
    }
}

/// Allocates the zeroed outputs of a node.
pub fn allocate_outputs(graph: &Graph, node: usize, batch: &BatchMeta) -> (r: Result<
    Vec<TypedBuffer>,
    ExecError,
>)
    requires
        graph.wf(),
        node < graph.nodes@.len(),
    ensures
        match fresh_outputs(*graph, node, graph.nodes@[node as int].outputs@, *batch) {
            Err(e) => r is Err && r->Err_0.view() == e,
            Ok(outputs) => {
                &&& r is Ok
                &&& buffer_views(r->Ok_0@) == outputs
                &&& all_wf(r->Ok_0@)
                &&& r->Ok_0@.len() == graph.nodes@[node as int].outputs@.len()
            },
        },
{
    let edges = &graph.nodes[node].outputs;
    let mut outputs: Vec<TypedBuffer> = Vec::new();
    let mut i: usize = 0;
    assert(buffer_views(outputs@) =~= Seq::empty());
    while i < edges.len()
        invariant
            graph.wf(),
            node < graph.nodes@.len(),
            edges@ == graph.nodes@[node as int].outputs@,
            i <= edges@.len(),
            outputs@.len() == i,
            all_wf(outputs@),
            fresh_outputs(*graph, node, edges@.take(i as int), *batch) == Ok::<
                Seq<Tensor>,
                ExecFault,
            >(buffer_views(outputs@)),
        decreases edges@.len() - i,
    {
        let ghost before = buffer_views(outputs@);
        assert(edges@.take(i + 1).drop_last() =~= edges@.take(i as int));
        assert(graph.nodes@[node as int].outputs@[i as int].0 < graph.edges@.len());
        let edge: usize = edges[i].0;
        match allocate_output(node, edge, &graph.edges[edge].tensor, batch) {
            Ok(b) => {
                outputs.push(b);
                assert(buffer_views(outputs@) =~= before.push(b@));
            },
            Err(e) => {
                proof {
                    lemma_outputs_prefix(*graph, node, edges@, *batch, i + 1);
                }
                return Err(e);
            },
        }
        i += 1;
    }
    assert(edges@.take(i as int) =~= edges@);
    Ok(outputs)
}

/// Tensor that an edge holds.
pub open spec fn held(store: Seq<Option<Tensor>>, edge: int) -> Option<Tensor> {
    if 0 <= edge < store.len() {
        store[edge]
    } else {
        None
    }
}

/// Values of what edges hold.
pub open spec fn store_views(store: Seq<Option<TypedBuffer>>) -> Seq<Option<Tensor>> {
    Seq::new(
        store.len(),
        |i: int|
            match store[i] {
                Some(b) => Some(b@),
                None => None,
            },
    )
}

/// Whether all buffers that edges hold have room for their shapes.
pub open spec fn store_wf(store: Seq<Option<TypedBuffer>>) -> bool {
    forall|i: int| 0 <= i < store.len() ==> (#[trigger] store[i] matches Some(b) ==> b.wf())
}

/// Tensor that a node reads from an edge: the one that the edge holds, or the
/// one that its source holds, under the edge's own shape.
pub open spec fn input_tensor(
    graph: Graph,
    node: usize,
    edge: usize,
    store: Seq<Option<Tensor>>,
    batch: BatchMeta,
) -> Result<Tensor, ExecFault> {
    match held(store, edge as int) {
        Some(t) => Ok(t),
        None => {
            let view = graph.edges@[edge as int];
            match view.source_edge {
                None => Err(ExecFault::UnboundEdge { node, edge }),
                Some(source) => {
                    let broken = ExecFault::NonContiguousView {
                        node,
                        edge,
                        source_edge: source.0,
                    };
                    if !view.contiguous {
                        Err(broken)
                    } else {
                        match held(store, source.0 as int) {
                            None => Err(ExecFault::UnboundEdge { node, edge: source.0 }),
                            Some(t) => match resolved(node, edge, view.tensor.shape@, batch) {
                                Err(e) => Err(e),
                                Ok(shape) => if extent(shape) is Some && extent(shape) == extent(
                                    t.shape,
                                ) {
                                    Ok(Tensor { shape, ..t })
                                } else {
                                    Err(broken)
                                },
                            },
                        }
                    }
                },
            }
        },
    }
}

/// Looks up what an edge holds.
pub fn look_up(store: &Vec<Option<TypedBuffer>>, edge: usize) -> (r: Option<&TypedBuffer>)
    requires
        store_wf(store@),
    ensures
        match r {
            Some(b) => held(store_views(store@), edge as int) == Some(b@) && b.wf()
                && edge < store@.len() && store@[edge as int] == Some(*b),
            None => held(store_views(store@), edge as int) is None,
        },
{
    if edge < store.len() {
        assert(store_views(store@)[edge as int] == match store@[edge as int] {
            Some(b) => Some(b@),
            None => None,
        });
        store[edge].as_ref()
    } else {
        None
    }
}

/// Copies the source of a view edge that holds nothing itself.
fn realize(
    graph: &Graph,
    node: usize,
    edge: usize,
    store: &Vec<Option<TypedBuffer>>,
    batch: &BatchMeta,
) -> (r: Result<Option<TypedBuffer>, ExecError>)
    requires
        store_wf(store@),
        edge < graph.edges@.len(),
    ensures
        match input_tensor(*graph, node, edge, store_views(store@), *batch) {
            Err(e) => r is Err && r->Err_0.view() == e,
            Ok(t) => match r {
                Err(_) => false,
                Ok(None) => held(store_views(store@), edge as int) == Some(t),
                Ok(Some(b)) => b@ == t && b.wf() && held(store_views(store@), edge as int) is None,
            },
        },
{
    match look_up(store, edge) {
        Some(_) => {
            return Ok(None);
        },
        None => {},
    }
    let view = &graph.edges[edge];
    let source: usize = match view.source_edge {
        Some(s) => s.0,
        None => {
            return Err(ExecError::UnboundEdge { node, edge });
        },
    };
    if !view.contiguous {
        return Err(ExecError::NonContiguousView { node, edge, source_edge: source });
    }
    let buffer = match look_up(store, source) {
        Some(b) => b,
        None => {
            return Err(ExecError::UnboundEdge { node, edge: source });
        },
    };
    let shape = match resolve_shape(node, edge, &view.tensor, batch) {
        Ok(s) => s,
        Err(e) => {
            return Err(e);
        },
    };
    if shape_extent(shape.as_slice()).is_none() {
        return Err(ExecError::NonContiguousView { node, edge, source_edge: source });
    }
    match buffer.copy_with_shape(shape.as_slice()) {
        Some(b) => Ok(Some(b)),
        None => Err(ExecError::NonContiguousView { node, edge, source_edge: source }),
    }
}

/// An input of a node, with the scales that travel with it.
#[verifier::ext_equal]
pub struct Operand {
    /// Value.
    pub tensor: Tensor,
    /// Scales.
    pub scale: Option<Tensor>,
}

/// Value of a view with its scales.
pub open spec fn operand_of(v: TensorView<'_>) -> Operand {
    Operand {
        tensor: v@,
        scale: match v.scale {
            Some(s) => Some((*s)@),
            None => None,
        },
    }
}

/// Values of views with their scales.
pub open spec fn operands_of(views: Seq<TensorView<'_>>) -> Seq<Operand> {
    Seq::new(views.len(), |i: int| operand_of(views[i]))
}

/// Tensors of the first inputs, or the first error.
pub open spec fn input_tensors(
    graph: Graph,
    node: usize,
    edges: Seq<EdgeId>,
    store: Seq<Option<Tensor>>,
    batch: BatchMeta,
) -> Result<Seq<Tensor>, ExecFault>
    decreases edges.len(),
{
    if edges.len() == 0 {
        Ok(Seq::empty())
    } else {
        match input_tensors(graph, node, edges.drop_last(), store, batch) {
            Err(e) => Err(e),
            Ok(tensors) => match input_tensor(graph, node, edges.last().0, store, batch) {
                Err(e) => Err(e),
                Ok(t) => Ok(tensors.push(t)),
            },
        }
    }
}

proof fn lemma_inputs_prefix(
    graph: Graph,
    node: usize,
    edges: Seq<EdgeId>,
    store: Seq<Option<Tensor>>,
    batch: BatchMeta,
    n: int,
)
    requires
        0 <= n <= edges.len(),
        input_tensors(graph, node, edges.take(n), store, batch) is Err,
    ensures
        input_tensors(graph, node, edges, store, batch) == input_tensors(
            graph,
            node,
            edges.take(n),
            store,
            batch,
        ),
    decreases edges.len() - n,
{
    if n == edges.len() {
        assert(edges.take(n) =~= edges);
    } else {
        assert(edges.take(n + 1).drop_last() =~= edges.take(n));
        lemma_inputs_prefix(graph, node, edges, store, batch, n + 1);
    }
}

/// Whether copies of inputs stand for those that no edge holds.
pub open spec fn copies_fit(
    copies: Seq<Option<TypedBuffer>>,
    edges: Seq<EdgeId>,
    store: Seq<Option<Tensor>>,
    tensors: Seq<Tensor>,
) -> bool {
    &&& copies.len() == tensors.len()
    &&& copies.len() <= edges.len()
    &&& forall|i: int|
        0 <= i < copies.len() ==> match #[trigger] copies[i] {
            Some(b) => b@ == tensors[i] && b.wf(),
            None => held(store, edges[i].0 as int) == Some(tensors[i]),
        }
}

/// Copies the inputs of a node that no edge holds.
pub fn realize_inputs(
    graph: &Graph,
    node: usize,
    store: &Vec<Option<TypedBuffer>>,
    batch: &BatchMeta,
) -> (r: Result<Vec<Option<TypedBuffer>>, ExecError>)
    requires
        graph.wf(),
        node < graph.nodes@.len(),
        store_wf(store@),
    ensures
        match input_tensors(
            *graph,
            node,
            graph.nodes@[node as int].inputs@,
            store_views(store@),
            *batch,
        ) {
            Err(e) => r is Err && r->Err_0.view() == e,
            Ok(tensors) => r is Ok && copies_fit(
                r->Ok_0@,
                graph.nodes@[node as int].inputs@,
                store_views(store@),
                tensors,
            ) && tensors.len() == graph.nodes@[node as int].inputs@.len(),
        },
{
    let edges = &graph.nodes[node].inputs;
    let mut copies: Vec<Option<TypedBuffer>> = Vec::new();
    let ghost mut tensors: Seq<Tensor> = Seq::empty();
    let mut i: usize = 0;
    while i < edges.len()
        invariant
            graph.wf(),
            node < graph.nodes@.len(),
            store_wf(store@),
            edges@ == graph.nodes@[node as int].inputs@,
            i <= edges@.len(),
            copies@.len() == i,
            copies_fit(copies@, edges@, store_views(store@), tensors),
            input_tensors(
                *graph,
                node,
                edges@.take(i as int),
                store_views(store@),
                *batch,
            ) == Ok::<Seq<Tensor>, ExecFault>(tensors),
        decreases edges@.len() - i,
    {
        assert(edges@.take(i + 1).drop_last() =~= edges@.take(i as int));
        assert(graph.nodes@[node as int].inputs@[i as int].0 < graph.edges@.len());
        let edge: usize = edges[i].0;
        match realize(graph, node, edge, store, batch) {
            Ok(copy) => {
                copies.push(copy);
                proof {
                    tensors = tensors.push(
                        input_tensor(*graph, node, edge, store_views(store@), *batch)->Ok_0,
                    );
                }
            },
            Err(e) => {
                proof {
                    lemma_inputs_prefix(
                        *graph,
                        node,
                        edges@,
                        store_views(store@),
                        *batch,
                        i + 1,
                    );
                }
                return Err(e);
            },
        }
        i += 1;
    }
    assert(edges@.take(i as int) =~= edges@);
    Ok(copies)
}

/// Inputs with their scales, or the error of the first scale edge that holds
/// nothing.
pub open spec fn with_scales(
    node: usize,
    edges: Seq<EdgeId>,
    tensors: Seq<Tensor>,
    store: Seq<Option<Tensor>>,
    scales: Map<usize, usize>,
    n: int,
) -> Result<Seq<Operand>, ExecFault>
    decreases n,
{
    if n <= 0 {
        Ok(Seq::empty())
    } else {
        match with_scales(node, edges, tensors, store, scales, n - 1) {
            Err(e) => Err(e),
            Ok(operands) => {
                let edge = edges[n - 1].0;
                let tensor = tensors[n - 1];
                if !scales.contains_key(edge) {
                    Ok(operands.push(Operand { tensor, scale: None }))
                } else {
                    match held(store, scales[edge] as int) {
                        Some(t) => Ok(operands.push(Operand { tensor, scale: Some(t) })),
                        None => Err(ExecFault::UnboundEdge { node, edge: scales[edge] }),
                    }
                }
            },
        }
    }
}

proof fn lemma_scales_prefix(
    node: usize,
    edges: Seq<EdgeId>,
    tensors: Seq<Tensor>,
    store: Seq<Option<Tensor>>,
    scales: Map<usize, usize>,
    n: int,
    m: int,
)
    requires
        n <= m,
        with_scales(node, edges, tensors, store, scales, n) is Err,
    ensures
        with_scales(node, edges, tensors, store, scales, m) == with_scales(
            node,
            edges,
            tensors,
            store,
            scales,
            n,
        ),
    decreases m - n,
{
    if n < m {
        lemma_scales_prefix(node, edges, tensors, store, scales, n, m - 1);
    }
}

/// Views the inputs of a node with their scales.
pub fn view_inputs<'a>(
    node: usize,
    edges: &Vec<EdgeId>,
    copies: &'a Vec<Option<TypedBuffer>>,
    store: &'a Vec<Option<TypedBuffer>>,
    scales: &BTreeMap<usize, usize>,
    Ghost(tensors): Ghost<Seq<Tensor>>,
) -> (r: Result<Vec<TensorView<'a>>, ExecError>)
    requires
        store_wf(store@),
        copies_fit(copies@, edges@, store_views(store@), tensors),
        copies@.len() == edges@.len(),
    ensures
        match with_scales(
            node,
            edges@,
            tensors,
            store_views(store@),
            scales@,
            edges@.len() as int,
        ) {
            Err(e) => r is Err && r->Err_0.view() == e,
            Ok(operands) => {
                &&& r is Ok
                &&& operands_of(r->Ok_0@) == operands
                &&& r->Ok_0@.len() == edges@.len()
                &&& forall|i: int| 0 <= i < r->Ok_0@.len() ==> (#[trigger] r->Ok_0@[i])@.backed()
            },
        },
{
    broadcast use vstd::std_specs::btree::group_btree_axioms;

    let mut views: Vec<TensorView<'a>> = Vec::new();
    let mut i: usize = 0;
    assert(operands_of(views@) =~= Seq::empty());
    while i < edges.len()
        invariant
            store_wf(store@),
            copies_fit(copies@, edges@, store_views(store@), tensors),
            copies@.len() == edges@.len(),
            i <= edges@.len(),
            views@.len() == i,
            forall|j: int| 0 <= j < views@.len() ==> (#[trigger] views@[j])@.backed(),
            with_scales(node, edges@, tensors, store_views(store@), scales@, i as int) == Ok::<
                Seq<Operand>,
                ExecFault,
            >(operands_of(views@)),
        decreases edges@.len() - i,
    {
        broadcast use vstd::std_specs::btree::group_btree_axioms;

        let ghost before = operands_of(views@);
        let edge: usize = edges[i].0;
        assert(match copies@[i as int] {
            Some(b) => b@ == tensors[i as int] && b.wf(),
            None => held(store_views(store@), edges@[i as int].0 as int) == Some(
                tensors[i as int],
            ),
        });
        let view: TensorView<'a> = match &copies[i] {
            Some(b) => b.as_view(),
            None => match look_up(store, edge) {
                Some(b) => b.as_view(),
                None => {
                    return Err(ExecError::UnboundEdge { node, edge });
                },
            },
        };
        let view: TensorView<'a> = match scales.get(&edge) {
            None => view,
            Some(scale_edge) => match look_up(store, *scale_edge) {
                Some(s) => view.with_scale(s.as_view()),
                None => {
                    proof {
                        lemma_scales_prefix(
                            node,
                            edges@,
                            tensors,
                            store_views(store@),
                            scales@,
                            i + 1,
                            edges@.len() as int,
                        );
                    }
                    return Err(ExecError::UnboundEdge { node, edge: *scale_edge });
                },
            },
        };
        views.push(view);
        assert(operands_of(views@) =~= before.push(operand_of(view)));
        i += 1;
    }
    Ok(views)
}

} // verus!
