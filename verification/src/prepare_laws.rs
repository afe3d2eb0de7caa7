//! What a node is handed.
use vstd::prelude::*;
use crate::batch::BatchMeta;
use crate::buffer::{extent, Cells, Tensor};
use crate::exec_error::ExecFault;
use crate::exec_prepare::{fresh_outputs, input_tensor, input_tensors, resolved, with_scales};
use crate::graph::{Dim, EdgeId, Graph, ShapeSymbol};

verus! {

/// Whether a shape is that of dimensions for a batch: a given extent is kept, and
/// the symbols stand for the sequences and the tokens of the batch.
pub open spec fn is_shape_for(shape: Seq<usize>, dims: Seq<Dim>, batch: BatchMeta) -> bool {
    &&& shape.len() == dims.len()
    &&& forall|i: int|
        0 <= i < dims.len() ==> match dims[i] {
            Dim::Concrete(v) => #[trigger] shape[i] == v,
            Dim::Symbolic(ShapeSymbol::S) => shape[i] == batch.ctx_len@.len(),
            Dim::Symbolic(ShapeSymbol::T) => shape[i] == batch.total_tokens,
            Dim::Symbolic(_) => false,
        }
}

/// Whether storage holds zeros alone.
pub open spec fn is_blank(cells: Cells) -> bool {
    match cells {
        Cells::F32(s) => forall|i: int| 0 <= i < s.len() ==> s[i] == 0,
        Cells::F16(s) => forall|i: int| 0 <= i < s.len() ==> s[i] == 0,
        Cells::Bf16(s) => forall|i: int| 0 <= i < s.len() ==> s[i] == 0,
        Cells::I8(s) => forall|i: int| 0 <= i < s.len() ==> s[i] == 0,
        Cells::U32(s) => forall|i: int| 0 <= i < s.len() ==> s[i] == 0,
        Cells::Bytes(_, s) => forall|i: int| 0 <= i < s.len() ==> s[i] == 0,
    }
}

/// Dimensions get the extents of their batch.
pub proof fn law_shape_resolved(node: usize, edge: usize, dims: Seq<Dim>, batch: BatchMeta)
    ensures
        resolved(node, edge, dims, batch) matches Ok(shape) ==> is_shape_for(shape, dims, batch),
        resolved(node, edge, dims, batch) is Ok <==> forall|i: int|
            0 <= i < dims.len() ==> match #[trigger] dims[i] {
                Dim::Concrete(_) => true,
                Dim::Symbolic(s) => s == ShapeSymbol::S || s == ShapeSymbol::T,
            },
    decreases dims.len(),
{
    if dims.len() > 0 {
        let rest = dims.drop_last();
        law_shape_resolved(node, edge, rest, batch);
        assert(forall|i: int| 0 <= i < rest.len() ==> rest[i] == dims[i]);
        if resolved(node, edge, dims, batch) is Ok {
            let shape = resolved(node, edge, dims, batch)->Ok_0;
            let before = resolved(node, edge, rest, batch)->Ok_0;
            assert(batch.ctx_len@.len() == batch.ctx_len.len());
            assert forall|i: int| 0 <= i < dims.len() implies match dims[i] {
                Dim::Concrete(v) => #[trigger] shape[i] == v,
                Dim::Symbolic(ShapeSymbol::S) => shape[i] == batch.ctx_len@.len(),
                Dim::Symbolic(ShapeSymbol::T) => shape[i] == batch.total_tokens,
                Dim::Symbolic(_) => false,
            } by {
                if i < rest.len() {
                    assert(rest[i] == dims[i]);
                    assert(shape[i] == before[i]);
                }
            }
            assert forall|i: int| 0 <= i < dims.len() implies match #[trigger] dims[i] {
                Dim::Concrete(_) => true,
                Dim::Symbolic(s) => s == ShapeSymbol::S || s == ShapeSymbol::T,
            } by {
                if i < rest.len() {
                    assert(rest[i] == dims[i]);
                }
            }
        }
    }
}

/// A node's outputs are blank, one for each of its edges in their order, with the
/// shape, the element type, the scheme and the layout of the edge.
pub proof fn law_outputs_blank(graph: Graph, node: usize, edges: Seq<EdgeId>, batch: BatchMeta)
    requires
        fresh_outputs(graph, node, edges, batch) is Ok,
    ensures
        ({
            let outputs = fresh_outputs(graph, node, edges, batch)->Ok_0;
            &&& outputs.len() == edges.len()
            &&& forall|i: int|
                0 <= i < edges.len() ==> {
                    let t = #[trigger] outputs[i];
                    let d = graph.edges@[edges[i].0 as int].tensor;
                    &&& is_shape_for(t.shape, d.shape@, batch)
                    &&& is_blank(t.cells)
                    &&& t.cells.dtype() == d.dtype
                    &&& t.quant == d.quant
                    &&& t.layout == d.layout
                }
        }),
    decreases edges.len(),
{
    if edges.len() > 0 {
        let rest = edges.drop_last();
        law_outputs_blank(graph, node, rest, batch);
        let d = graph.edges@[edges.last().0 as int].tensor;
        law_shape_resolved(node, edges.last().0, d.shape@, batch);
        let outputs = fresh_outputs(graph, node, edges, batch)->Ok_0;
        let before = fresh_outputs(graph, node, rest, batch)->Ok_0;
        assert(outputs =~= before.push(outputs.last()));
        assert forall|i: int| 0 <= i < edges.len() implies {
            let t = #[trigger] outputs[i];
            let d = graph.edges@[edges[i].0 as int].tensor;
            &&& is_shape_for(t.shape, d.shape@, batch)
            &&& is_blank(t.cells)
            &&& t.cells.dtype() == d.dtype
            &&& t.quant == d.quant
            &&& t.layout == d.layout
        } by {
            if i < rest.len() {
                assert(outputs[i] == before[i]);
                assert(rest[i] == edges[i]);
            }
        }
    }
}

/// A node's input is what its edge holds. An edge that holds nothing shows what
/// its source holds, element for element, under its own shape.
pub proof fn law_input_read(
    graph: Graph,
    node: usize,
    edge: usize,
    store: Seq<Option<Tensor>>,
    batch: BatchMeta,
)
    ensures
        ({
            let r = input_tensor(graph, node, edge, store, batch);
            let view = graph.edges@[edge as int];
            let own = if edge < store.len() {
                store[edge as int]
            } else {
                None
            };
            &&& own is Some ==> r == Ok::<Tensor, ExecFault>(own->0)
            &&& own is None && view.source_edge is None ==> r == Err::<Tensor, ExecFault>(
                ExecFault::UnboundEdge { node, edge },
            )
            &&& own is None && view.source_edge is Some && r is Ok ==> {
                let source = (view.source_edge->0).0 as int;
                &&& view.contiguous
                &&& source < store.len()
                &&& store[source] is Some
                &&& r->Ok_0.cells == store[source]->0.cells
                &&& r->Ok_0.quant == store[source]->0.quant
                &&& r->Ok_0.layout == store[source]->0.layout
                &&& is_shape_for(r->Ok_0.shape, view.tensor.shape@, batch)
                &&& extent(r->Ok_0.shape) == extent(store[source]->0.shape)
            }
        }),
{
    let view = graph.edges@[edge as int];
    law_shape_resolved(node, edge, view.tensor.shape@, batch);
}

/// A node is handed its inputs in the order of its edges.
pub proof fn law_inputs_in_order(
    graph: Graph,
    node: usize,
    edges: Seq<EdgeId>,
    store: Seq<Option<Tensor>>,
    batch: BatchMeta,
)
    ensures
        input_tensors(graph, node, edges, store, batch) is Ok <==> forall|i: int|
            0 <= i < edges.len() ==> input_tensor(
                graph,
                node,
                (#[trigger] edges[i]).0,
                store,
                batch,
            ) is Ok,
        input_tensors(graph, node, edges, store, batch) matches Ok(tensors) ==> {
            &&& tensors.len() == edges.len()
            &&& forall|i: int|
                0 <= i < edges.len() ==> input_tensor(graph, node, edges[i].0, store, batch) == Ok::<
                    Tensor,
                    ExecFault,
                >(#[trigger] tensors[i])
        },
    decreases edges.len(),
{
    if edges.len() > 0 {
        let rest = edges.drop_last();
        law_inputs_in_order(graph, node, rest, store, batch);
        assert(forall|i: int| 0 <= i < rest.len() ==> rest[i] == edges[i]);
        if input_tensors(graph, node, edges, store, batch) is Ok {
            let tensors = input_tensors(graph, node, edges, store, batch)->Ok_0;
            let before = input_tensors(graph, node, rest, store, batch)->Ok_0;
            assert(tensors =~= before.push(tensors.last()));
            assert forall|i: int| 0 <= i < edges.len() implies input_tensor(
                graph,
                node,
                edges[i].0,
                store,
                batch,
            ) == Ok::<Tensor, ExecFault>(#[trigger] tensors[i]) by {
                if i < rest.len() {
                    assert(tensors[i] == before[i]);
                    assert(rest[i] == edges[i]);
                }
            }
            assert forall|i: int| 0 <= i < edges.len() implies input_tensor(
                graph,
                node,
                (#[trigger] edges[i]).0,
                store,
                batch,
            ) is Ok by {
                assert(input_tensor(graph, node, edges[i].0, store, batch) == Ok::<
                    Tensor,
                    ExecFault,
                >(tensors[i]));
            }
        }
    }
}

/// Each input comes with what the edge of its own scales holds, or without scales
/// where it has no such edge.
pub proof fn law_scales_attached(
    node: usize,
    edges: Seq<EdgeId>,
    tensors: Seq<Tensor>,
    store: Seq<Option<Tensor>>,
    scales: Map<usize, usize>,
    n: int,
)
    requires
        0 <= n <= edges.len(),
        n <= tensors.len(),
    ensures
        with_scales(node, edges, tensors, store, scales, n) matches Ok(operands) ==> {
            &&& operands.len() == n
            &&& forall|i: int|
                0 <= i < n ==> {
                    let o = #[trigger] operands[i];
                    &&& o.tensor == tensors[i]
                    &&& o.scale is Some <==> scales.contains_key(edges[i].0)
                    &&& o.scale is Some ==> scales[edges[i].0] < store.len() && store[scales[edges[i].0] as int]
                        == o.scale
                }
        },
    decreases n,
{
    if n > 0 {
        law_scales_attached(node, edges, tensors, store, scales, n - 1);
    }
}

} // verus!
