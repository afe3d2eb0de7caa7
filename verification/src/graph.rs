//! Step graphs and the order in which their nodes run.
//!
//! A node runs after the nodes whose outputs it reads. Nodes that touch the same
//! state run in the order in which they stand in the graph.
use vstd::prelude::*;
use crate::act_mul::ActMulOp;
use crate::activation::ActivationOp;
use crate::attention::AttentionOp;
use crate::causal_conv1d::CausalConv1dOp;
use crate::collectives::{
    AllGatherOp, AllReduceOp, AllToAllOp, BarrierOp, RecvOp, ReduceScatterOp, SendOp,
};
use crate::copy::CopyOp;
use crate::embed_gather::EmbedGatherOp;
use crate::error::{ErrorView, IrError, T0Error};
use crate::gather_rows::GatherRowsOp;
use crate::ir::{DType, LayoutId, QuantScheme, StateHandle};
use crate::kv_write::StateWriteKvOp;
use crate::linear_attn_scan::LinearAttnScanOp;
use crate::logit_softcap::LogitSoftcapOp;
use crate::matmul::MatmulOp;
use crate::moe_ffn::MoeFfnOp;

verus! {

/// Index of an edge of a graph.
#[derive(Debug, Clone, Copy, PartialEq, Eq, Structural)]
pub struct EdgeId(pub usize);

/// Index of a node of a graph.
#[derive(Debug, Clone, Copy, PartialEq, Eq, Structural)]
pub struct NodeId(pub usize);

/// Symbol that stands for an extent.
#[derive(Debug, Clone, Copy, PartialEq, Eq, Structural)]
pub enum ShapeSymbol {
    /// Number of sequences.
    S,
    /// Number of tokens.
    T,
    /// An extent of the model, by its number.
    Model(u16),
}

/// Extent of a dimension.
#[derive(Debug, Clone, Copy, PartialEq, Eq, Structural)]
pub enum Dim {
    /// A number.
    Concrete(u32),
    /// A symbol.
    Symbolic(ShapeSymbol),
}

/// Description of the tensor of an edge.
#[derive(Debug)]
pub struct TensorDesc {
    /// Extents of the dimensions.
    pub shape: Vec<Dim>,
    /// Element type.
    pub dtype: DType,
    /// Quantization scheme.
    pub quant: QuantScheme,
    /// Storage layout.
    pub layout: LayoutId,
}

/// An edge of a graph.
#[derive(Debug)]
pub struct GraphEdge {
    /// Tensor of the edge.
    pub tensor: TensorDesc,
    /// Edge that this one is another view of.
    pub source_edge: Option<EdgeId>,
    /// Whether the view keeps the order of the elements.
    pub contiguous: bool,
}

/// Where an n-gram gather takes its rows from.
#[derive(Debug, Clone, Copy, PartialEq, Eq, Structural)]
pub enum NgramSource {
    /// Rows that were staged before.
    Staged,
    /// Rows that a hash of the tokens names.
    Device,
}

/// How draft tokens are accepted, by the number that the draw of the caller
/// knows the method by.
#[derive(Debug, Clone, Copy, PartialEq, Eq, Structural)]
pub struct VerifyMethod(pub u32);

/// Attributes of a check of draft tokens.
#[derive(Debug, Clone, Copy, PartialEq, Eq, Structural)]
pub struct VerifyOp {
    /// How tokens are accepted.
    pub method: VerifyMethod,
}

/// Operation of a node.
#[derive(Debug, Clone, Copy)]
#[allow(inconsistent_fields)]
pub enum Op {
    /// Normalization.
    Norm,
    /// Sum with a residual.
    ResidualAdd,
    /// Activation times a gate.
    ActMul(ActMulOp),
    /// Activation.
    Activation(ActivationOp),
    /// Rotary position embedding.
    Rope,
    /// Conversion of the element type.
    Cast,
    /// Exact copy.
    Copy(CopyOp),
    /// Quantization of activations.
    QuantAct,
    /// Split along an axis.
    Split,
    /// Concatenation along an axis.
    Concat,
    /// Soft cap on logits.
    LogitSoftcap(LogitSoftcapOp),
    /// Matrix product.
    Matmul(MatmulOp),
    /// Rows of an embedding.
    EmbedGather(EmbedGatherOp),
    /// Rows by index.
    GatherRows(GatherRowsOp),
    /// Sums into rows by index.
    ScatterAddRows,
    /// Choice of experts.
    MoeRoute,
    /// Feed-forward network of experts.
    MoeFfn(MoeFfnOp),
    /// Depthwise causal convolution.
    CausalConv1d(CausalConv1dOp),
    /// Scan of linear attention.
    LinearAttnScan(LinearAttnScanOp),
    /// Rows of an n-gram table.
    NgramGather(NgramSource),
    /// Write into a cache.
    StateWriteKv(StateWriteKvOp),
    /// Attention over a cache.
    Attention(AttentionOp),
    /// Probabilities from logits.
    LogitsPostprocess,
    /// Draw of one token per sequence.
    Sample,
    /// Check of draft tokens.
    Verify(VerifyOp),
    /// Reduction over all ranks.
    AllReduce(AllReduceOp),
    /// Gather to all ranks.
    AllGather(AllGatherOp),
    /// Reduction that leaves each rank a part.
    ReduceScatter(ReduceScatterOp),
    /// Exchange between all ranks.
    AllToAll(AllToAllOp),
    /// Transfer to a rank.
    Send(SendOp),
    /// Transfer from a rank.
    Recv(RecvOp),
    /// Barrier over all ranks.
    Barrier(BarrierOp),
}

impl Op {
    /// Name of the operation.
    pub open spec fn name(self) -> &'static str {
        match self {
            Op::Norm => "norm",
            Op::ResidualAdd => "residual_add",
            Op::ActMul(_) => "act_mul",
            Op::Activation(_) => "activation",
            Op::Rope => "rope",
            Op::Cast => "cast",
            Op::Copy(_) => "copy",
            Op::QuantAct => "quant_act",
            Op::Split => "split",
            Op::Concat => "concat",
            Op::LogitSoftcap(_) => "logit_softcap",
            Op::Matmul(_) => "matmul",
            Op::EmbedGather(_) => "embed_gather",
            Op::GatherRows(_) => "gather_rows",
            Op::ScatterAddRows => "scatter_add_rows",
            Op::MoeRoute => "moe_route",
            Op::MoeFfn(_) => "moe_ffn",
            Op::CausalConv1d(_) => "causal_conv1d",
            Op::LinearAttnScan(_) => "linear_attn_scan",
            Op::NgramGather(_) => "ngram_gather",
            Op::StateWriteKv(_) => "state_write_kv",
            Op::Attention(_) => "attention",
            Op::LogitsPostprocess => "logits_postprocess",
            Op::Sample => "sample",
            Op::Verify(_) => "verify",
            Op::AllReduce(_) => "all_reduce",
            Op::AllGather(_) => "all_gather",
            Op::ReduceScatter(_) => "reduce_scatter",
            Op::AllToAll(_) => "all_to_all",
            Op::Send(_) => "send",
            Op::Recv(_) => "recv",
            Op::Barrier(_) => "barrier",
        }
    }

    /// Name of the operation.
    pub fn op_name(&self) -> (r: &'static str)
        ensures
            r == self.name(),
    {
        match self {
            Op::Norm => "norm",
            Op::ResidualAdd => "residual_add",
            Op::ActMul(_) => "act_mul",
            Op::Activation(_) => "activation",
            Op::Rope => "rope",
            Op::Cast => "cast",
            Op::Copy(_) => "copy",
            Op::QuantAct => "quant_act",
            Op::Split => "split",
            Op::Concat => "concat",
            Op::LogitSoftcap(_) => "logit_softcap",
            Op::Matmul(_) => "matmul",
            Op::EmbedGather(_) => "embed_gather",
            Op::GatherRows(_) => "gather_rows",
            Op::ScatterAddRows => "scatter_add_rows",
            Op::MoeRoute => "moe_route",
            Op::MoeFfn(_) => "moe_ffn",
            Op::CausalConv1d(_) => "causal_conv1d",
            Op::LinearAttnScan(_) => "linear_attn_scan",
            Op::NgramGather(_) => "ngram_gather",
            Op::StateWriteKv(_) => "state_write_kv",
            Op::Attention(_) => "attention",
            Op::LogitsPostprocess => "logits_postprocess",
            Op::Sample => "sample",
            Op::Verify(_) => "verify",
            Op::AllReduce(_) => "all_reduce",
            Op::AllGather(_) => "all_gather",
            Op::ReduceScatter(_) => "reduce_scatter",
            Op::AllToAll(_) => "all_to_all",
            Op::Send(_) => "send",
            Op::Recv(_) => "recv",
            Op::Barrier(_) => "barrier",
        }
    }

    /// State that the operation touches.
    pub open spec fn handle(self) -> Option<StateHandle> {
        match self {
            Op::StateWriteKv(op) => Some(op.handle),
            Op::Attention(op) => Some(op.handle),
            Op::CausalConv1d(op) => Some(op.handle),
            Op::LinearAttnScan(op) => Some(op.handle),
            _ => None,
        }
    }

    /// State that the operation touches.
    pub fn state_handle(&self) -> (r: Option<StateHandle>)
        ensures
            r == self.handle(),
    {
        match self {
            Op::StateWriteKv(op) => Some(op.handle),
            Op::Attention(op) => Some(op.handle),
            Op::CausalConv1d(op) => Some(op.handle),
            Op::LinearAttnScan(op) => Some(op.handle),
            _ => None,
        }
    }
}

/// A node of a graph.
#[derive(Debug)]
pub struct GraphNode {
    /// Operation.
    pub op: Op,
    /// Edges that the node reads.
    pub inputs: Vec<EdgeId>,
    /// Edges that the node produces.
    pub outputs: Vec<EdgeId>,
}

/// A step graph.
#[derive(Debug)]
pub struct Graph {
    /// Nodes; a node's id is its index.
    pub nodes: Vec<GraphNode>,
    /// Edges; an edge's id is its index.
    pub edges: Vec<GraphEdge>,
}

impl Graph {
    /// Whether the nodes name only edges that the graph has.
    pub open spec fn wf(&self) -> bool {
        forall|i: int|
            0 <= i < self.nodes@.len() ==> {
                &&& forall|j: int|
                    0 <= j < (#[trigger] self.nodes@[i]).outputs@.len()
                        ==> (#[trigger] self.nodes@[i].outputs@[j]).0 < self.edges@.len()
                &&& forall|j: int|
                    0 <= j < self.nodes@[i].inputs@.len()
                        ==> (#[trigger] self.nodes@[i].inputs@[j]).0 < self.edges@.len()
            }
    }

    /// Last of the first nodes that produces an edge.
    pub open spec fn producer(&self, edge: int, nodes: int) -> Option<usize>
        decreases nodes,
    {
        if nodes <= 0 {
            None
        } else if produces(self.nodes@[nodes - 1].outputs@, edge) {
            Some((nodes - 1) as usize)
        } else {
            self.producer(edge, nodes - 1)
        }
    }

    /// Node that produces an edge or the edge that it is a view of, following
    /// views up to the given depth.
    pub open spec fn origin(&self, edge: int, depth: nat) -> Option<usize>
        decreases depth,
    {
        if depth == 0 {
            None
        } else {
            match self.producer(edge, self.nodes@.len() as int) {
                Some(p) => Some(p),
                None => if edge < self.edges@.len() {
                    match self.edges@[edge].source_edge {
                        Some(s) => self.origin(s.0 as int, (depth - 1) as nat),
                        None => None,
                    }
                } else {
                    None
                },
            }
        }
    }

    /// Node whose output an input of a node comes from.
    pub open spec fn input_origin(&self, node: int, input: int) -> Option<usize> {
        self.origin(self.nodes@[node].inputs@[input].0 as int, self.edges@.len() + 1)
    }

    /// Links into a node through its first inputs.
    pub open spec fn node_links(&self, node: int, inputs: int) -> Seq<(usize, usize)>
        decreases inputs,
    {
        if inputs <= 0 {
            Seq::empty()
        } else {
            let before = self.node_links(node, inputs - 1);
            match self.input_origin(node, inputs - 1) {
                Some(p) => before.push((p, node as usize)),
                None => before,
            }
        }
    }

    /// Links into the first nodes through their inputs.
    pub open spec fn tensor_links(&self, nodes: int) -> Seq<(usize, usize)>
        decreases nodes,
    {
        if nodes <= 0 {
            Seq::empty()
        } else {
            self.tensor_links(nodes - 1) + self.node_links(
                nodes - 1,
                self.nodes@[nodes - 1].inputs@.len() as int,
            )
        }
    }

    /// Last of the first nodes that touches a state.
    pub open spec fn toucher(&self, handle: StateHandle, nodes: int) -> Option<usize>
        decreases nodes,
    {
        if nodes <= 0 {
            None
        } else if self.nodes@[nodes - 1].op.handle() == Some(handle) {
            Some((nodes - 1) as usize)
        } else {
            self.toucher(handle, nodes - 1)
        }
    }

    /// Links between the first nodes that touch the same state: each to the
    /// next.
    pub open spec fn state_links(&self, nodes: int) -> Seq<(usize, usize)>
        decreases nodes,
    {
        if nodes <= 0 {
            Seq::empty()
        } else {
            let before = self.state_links(nodes - 1);
            match self.nodes@[nodes - 1].op.handle() {
                None => before,
                Some(h) => match self.toucher(h, nodes - 1) {
                    None => before,
                    Some(p) => before.push((p, (nodes - 1) as usize)),
                },
            }
        }
    }

    /// All links: from a node to one that must run later.
    pub open spec fn links(&self) -> Seq<(usize, usize)> {
        let n = self.nodes@.len() as int;
        self.tensor_links(n) + self.state_links(n)
    }
}

/// Whether an edge is among outputs.
pub open spec fn produces(outputs: Seq<EdgeId>, edge: int) -> bool {
    exists|j: int| 0 <= j < outputs.len() && (#[trigger] outputs[j]).0 == edge
}

/// Number of links to a node whose start is not among those done.
pub open spec fn pending(links: Seq<(usize, usize)>, done: Seq<usize>, node: usize) -> int
    decreases links.len(),
{
    if links.len() == 0 {
        0
    } else {
        pending(links.drop_last(), done, node) + if links.last().1 == node && !done.contains(
            links.last().0,
        ) {
            1int
        } else {
            0
        }
    }
}

/// Nodes that links lead to from a node, in order.
pub open spec fn followers(links: Seq<(usize, usize)>, node: usize) -> Seq<usize>
    decreases links.len(),
{
    if links.len() == 0 {
        Seq::empty()
    } else if links.last().0 == node {
        followers(links.drop_last(), node).push(links.last().1)
    } else {
        followers(links.drop_last(), node)
    }
}

/// Number of times that a node occurs among the first ones of a list.
pub open spec fn times_in(list: Seq<usize>, n: int, node: usize) -> int
    decreases n,
{
    if n <= 0 {
        0
    } else {
        times_in(list, n - 1, node) + if list[n - 1] == node {
            1int
        } else {
            0
        }
    }
}

/// Nodes of the first ones that no link leads to, in ascending order.
pub open spec fn roots(links: Seq<(usize, usize)>, nodes: int) -> Seq<usize>
    decreases nodes,
{
    if nodes <= 0 {
        Seq::empty()
    } else if pending(links, Seq::empty(), (nodes - 1) as usize) == 0 {
        roots(links, nodes - 1).push((nodes - 1) as usize)
    } else {
        roots(links, nodes - 1)
    }
}

/// The schedule after followers of its `at`-th node were looked at: each that
/// waits for no other node any more is added.
pub open spec fn released(
    links: Seq<(usize, usize)>,
    list: Seq<usize>,
    at: int,
    seen: int,
) -> Seq<usize>
    decreases seen,
{
    let row = followers(links, list[at]);
    if seen <= 0 {
        list
    } else {
        let before = released(links, list, at, seen - 1);
        let node = row[seen - 1];
        if pending(links, list.take(at), node) == times_in(row, seen, node) {
            before.push(node)
        } else {
            before
        }
    }
}

/// The schedule after its first nodes ran: first the roots, then nodes in the
/// order in which the last node that they wait for runs.
pub open spec fn schedule(links: Seq<(usize, usize)>, nodes: int, ran: int) -> Seq<usize>
    decreases ran,
{
    if ran <= 0 {
        roots(links, nodes)
    } else {
        let list = schedule(links, nodes, ran - 1);
        if ran - 1 < list.len() {
            released(links, list, ran - 1, followers(links, list[ran - 1]).len() as int)
        } else {
            list
        }
    }
}

/// The order in which all nodes run that wait for no cycle.
pub open spec fn run_order(links: Seq<(usize, usize)>, nodes: int) -> Seq<usize> {
    schedule(links, nodes, nodes)
}

/// Whether ranks put the start of every link before its end.
pub open spec fn respects(links: Seq<(usize, usize)>, rank: spec_fn(usize) -> int) -> bool {
    forall|i: int|
        0 <= i < links.len() ==> rank((#[trigger] links[i]).0) < rank(links[i].1)
}

/// Whether a list holds every node once, and the start of every link before its
/// end.
pub open spec fn is_order(links: Seq<(usize, usize)>, nodes: int, list: Seq<usize>) -> bool {
    &&& list.len() == nodes
    &&& list.no_duplicates()
    &&& forall|i: int| 0 <= i < list.len() ==> (#[trigger] list[i]) < nodes
    &&& forall|i: int, k: int|
        0 <= i < links.len() && 0 <= k < list.len() && (#[trigger] links[i]).1 == (
        #[trigger] list[k]) ==> list.take(k).contains(links[i].0)
}

/// What holds of a schedule: `ran` of its nodes ran, and a node is in it if it
/// waits for no node that did not run.
spec fn sound(links: Seq<(usize, usize)>, nodes: int, list: Seq<usize>, ran: int) -> bool {
    &&& 0 <= ran <= list.len()
    &&& list.no_duplicates()
    &&& forall|i: int| 0 <= i < list.len() ==> (#[trigger] list[i]) < nodes
    &&& forall|v: usize|
        v < nodes ==> (#[trigger] list.contains(v) <==> pending(links, list.take(ran), v) == 0)
    &&& forall|i: int, k: int|
        0 <= i < links.len() && 0 <= k < list.len() && (#[trigger] links[i]).1 == (
        #[trigger] list[k]) ==> list.take(k).contains(links[i].0)
}

spec fn in_range(links: Seq<(usize, usize)>, nodes: int) -> bool {
    forall|i: int|
        0 <= i < links.len() ==> (#[trigger] links[i]).0 < nodes && links[i].1 < nodes
}

proof fn lemma_pending_bounds(links: Seq<(usize, usize)>, done: Seq<usize>, node: usize)
    ensures
        0 <= pending(links, done, node) <= links.len(),
    decreases links.len(),
{
    if links.len() > 0 {
        lemma_pending_bounds(links.drop_last(), done, node);
    }
}

/// A node that waits for none has all its links from nodes that are done.
proof fn lemma_pending_zero(links: Seq<(usize, usize)>, done: Seq<usize>, node: usize, i: int)
    requires
        pending(links, done, node) == 0,
        0 <= i < links.len(),
        links[i].1 == node,
    ensures
        done.contains(links[i].0),
    decreases links.len(),
{
    lemma_pending_bounds(links.drop_last(), done, node);
    if i < links.len() - 1 {
        lemma_pending_zero(links.drop_last(), done, node, i);
    }
}

/// A node that waits has a link from a node that is not done.
proof fn lemma_pending_some(links: Seq<(usize, usize)>, done: Seq<usize>, node: usize) -> (i: int)
    requires
        pending(links, done, node) > 0,
    ensures
        0 <= i < links.len(),
        links[i].1 == node,
        !done.contains(links[i].0),
    decreases links.len(),
{
    if links.last().1 == node && !done.contains(links.last().0) {
        links.len() - 1
    } else {
        lemma_pending_some(links.drop_last(), done, node)
    }
}

/// Running a node settles its links.
proof fn lemma_pending_step(
    links: Seq<(usize, usize)>,
    done: Seq<usize>,
    next: usize,
    node: usize,
)
    requires
        !done.contains(next),
    ensures
        pending(links, done, node) == pending(links, done.push(next), node) + times_in(
            followers(links, next),
            followers(links, next).len() as int,
            node,
        ),
    decreases links.len(),
{
    if links.len() > 0 {
        lemma_pending_step(links.drop_last(), done, next, node);
        let u = links.last().0;
        let row = followers(links.drop_last(), next);
        if u == next {
            assert(followers(links, next) == row.push(links.last().1));
            lemma_times_prefix(row, row.push(links.last().1), row.len() as int, node);
            assert(done.push(next)[done.len() as int] == next);
            assert(done.push(next).contains(u));
        } else {
            assert(done.push(next).contains(u) == done.contains(u)) by {
                if done.contains(u) {
                    let k = choose|k: int| 0 <= k < done.len() && done[k] == u;
                    assert(done.push(next)[k] == u);
                }
                if done.push(next).contains(u) {
                    let k = choose|k: int|
                        0 <= k < done.push(next).len() && done.push(next)[k] == u;
                    assert(done[k] == u);
                }
            }
        }
    }
}

proof fn lemma_times_prefix(a: Seq<usize>, b: Seq<usize>, n: int, node: usize)
    requires
        n <= a.len(),
        n <= b.len(),
        forall|i: int| 0 <= i < n ==> a[i] == b[i],
    ensures
        times_in(a, n, node) == times_in(b, n, node),
    decreases n,
{
    if n > 0 {
        lemma_times_prefix(a, b, n - 1, node);
    }
}

proof fn lemma_times_grow(list: Seq<usize>, n: int, m: int, node: usize)
    requires
        0 <= n <= m,
    ensures
        0 <= times_in(list, n, node) <= times_in(list, m, node),
    decreases m - n, m,
{
    if n < m {
        lemma_times_grow(list, n, m - 1, node);
    } else if n > 0 {
        lemma_times_grow(list, n - 1, n - 1, node);
    }
}

/// All ends of links from a node are nodes.
proof fn lemma_followers(links: Seq<(usize, usize)>, nodes: int, node: usize, i: int)
    requires
        in_range(links, nodes),
        0 <= i < followers(links, node).len(),
    ensures
        followers(links, node)[i] < nodes,
    decreases links.len(),
{
    if links.len() > 0 {
        assert(in_range(links.drop_last(), nodes)) by {
            assert forall|k: int| 0 <= k < links.drop_last().len() implies (
            #[trigger] links.drop_last()[k]).0 < nodes && links.drop_last()[k].1 < nodes by {
                assert(links.drop_last()[k] == links[k]);
            }
        }
        assert(links[links.len() - 1] == links.last());
        if links.last().0 == node {
            if i < followers(links.drop_last(), node).len() {
                lemma_followers(links.drop_last(), nodes, node, i);
            }
        } else {
            lemma_followers(links.drop_last(), nodes, node, i);
        }
    }
}

/// The roots are sound.
proof fn lemma_roots(links: Seq<(usize, usize)>, nodes: int, n: int)
    requires
        0 <= n <= nodes,
        nodes <= usize::MAX,
    ensures
        roots(links, n).no_duplicates(),
        roots(links, n).len() <= n,
        forall|i: int| 0 <= i < roots(links, n).len() ==> (#[trigger] roots(links, n)[i]) < n,
        forall|v: usize|
            v < n ==> (#[trigger] roots(links, n).contains(v) <==> pending(
                links,
                Seq::empty(),
                v,
            ) == 0),
    decreases n,
{
    if n > 0 {
        lemma_roots(links, nodes, n - 1);
        let before = roots(links, n - 1);
        let list = roots(links, n);
        let last = (n - 1) as usize;
        assert forall|v: usize| v < n implies (#[trigger] list.contains(v) <==> pending(
            links,
            Seq::empty(),
            v,
        ) == 0) by {
            if pending(links, Seq::empty(), last) == 0 {
                assert(list == before.push(last));
                if v == last {
                    assert(list[before.len() as int] == v);
                } else {
                    if before.contains(v) {
                        let k = choose|k: int| 0 <= k < before.len() && before[k] == v;
                        assert(list[k] == v);
                    }
                    if list.contains(v) {
                        let k = choose|k: int| 0 <= k < list.len() && list[k] == v;
                        assert(before[k] == v);
                    }
                }
            } else {
                if v == last && list.contains(v) {
                    let k = choose|k: int| 0 <= k < list.len() && list[k] == v;
                    assert(before[k] < n - 1);
                }
            }
        }
    }
}

/// What holds while the followers of a node are looked at.
spec fn releasing(
    links: Seq<(usize, usize)>,
    nodes: int,
    list: Seq<usize>,
    at: int,
    seen: int,
    now: Seq<usize>,
) -> bool {
    let row = followers(links, list[at]);
    &&& now.len() >= list.len()
    &&& forall|i: int| 0 <= i < list.len() ==> now[i] == list[i]
    &&& now.no_duplicates()
    &&& forall|i: int| 0 <= i < now.len() ==> (#[trigger] now[i]) < nodes
    &&& forall|v: usize|
        v < nodes ==> (#[trigger] now.contains(v) <==> pending(links, list.take(at), v) == times_in(
            row,
            seen,
            v,
        ))
}

proof fn lemma_released(
    links: Seq<(usize, usize)>,
    nodes: int,
    list: Seq<usize>,
    at: int,
    seen: int,
)
    requires
        in_range(links, nodes),
        sound(links, nodes, list, at),
        at < list.len(),
        0 <= seen <= followers(links, list[at]).len(),
    ensures
        releasing(links, nodes, list, at, seen, released(links, list, at, seen)),
    decreases seen,
{
    let row = followers(links, list[at]);
    let done = list.take(at);
    let now = released(links, list, at, seen);
    if seen > 0 {
        lemma_released(links, nodes, list, at, seen - 1);
        let before = released(links, list, at, seen - 1);
        let node = row[seen - 1];
        lemma_followers(links, nodes, list[at], seen - 1);
        lemma_not_done(links, nodes, list, at);
        lemma_pending_step(links, done, list[at], node);
        lemma_pending_bounds(links, done.push(list[at]), node);
        lemma_times_grow(row, seen, row.len() as int, node);
        lemma_times_grow(row, seen - 1, seen, node);
        assert(times_in(row, seen, node) == times_in(row, seen - 1, node) + 1);
        assert(!before.contains(node));
        if pending(links, done, node) == times_in(row, seen, node) {
            assert(now == before.push(node));
            assert(now.no_duplicates()) by {
                assert forall|i: int, j: int| 0 <= i < j < now.len() implies now[i] != now[j] by {
                    if j == before.len() {
                        if now[i] == node {
                            assert(before[i] == node);
                        }
                    }
                }
            }
        }
        assert forall|v: usize| v < nodes implies (#[trigger] now.contains(v) <==> pending(
            links,
            done,
            v,
        ) == times_in(row, seen, v)) by {
            if now.len() > before.len() {
                if v == node {
                    assert(now[before.len() as int] == v);
                }
                if before.contains(v) {
                    let k = choose|k: int| 0 <= k < before.len() && before[k] == v;
                    assert(now[k] == v);
                }
                if now.contains(v) && v != node {
                    let k = choose|k: int| 0 <= k < now.len() && now[k] == v;
                    assert(before[k] == v);
                }
            }
            if v != node {
                assert(times_in(row, seen, v) == times_in(row, seen - 1, v));
            }
        }
    }
}

/// The next node to run is not among those that ran.
proof fn lemma_not_done(links: Seq<(usize, usize)>, nodes: int, list: Seq<usize>, at: int)
    requires
        sound(links, nodes, list, at),
        at < list.len(),
    ensures
        !list.take(at).contains(list[at]),
{
    if list.take(at).contains(list[at]) {
        let done = list.take(at);
        let k = choose|k: int| 0 <= k < done.len() && done[k] == list[at];
        assert(list[k] == list[at]);
    }
}

/// Running a node keeps a schedule sound.
proof fn lemma_sound_step(links: Seq<(usize, usize)>, nodes: int, list: Seq<usize>, at: int)
    requires
        in_range(links, nodes),
        sound(links, nodes, list, at),
        at < list.len(),
    ensures
        ({
            let next = released(links, list, at, followers(links, list[at]).len() as int);
            &&& sound(links, nodes, next, at + 1)
            &&& next.len() >= list.len()
            &&& forall|i: int| 0 <= i < list.len() ==> next[i] == list[i]
        }),
{
    let row = followers(links, list[at]);
    let next = released(links, list, at, row.len() as int);
    lemma_released(links, nodes, list, at, row.len() as int);
    lemma_not_done(links, nodes, list, at);
    assert(next.take(at + 1) =~= list.take(at).push(list[at]));
    assert forall|v: usize| v < nodes implies (#[trigger] next.contains(v) <==> pending(
        links,
        next.take(at + 1),
        v,
    ) == 0) by {
        lemma_pending_step(links, list.take(at), list[at], v);
    }
    assert forall|i: int, k: int|
        0 <= i < links.len() && 0 <= k < next.len() && (#[trigger] links[i]).1 == (
        #[trigger] next[k]) implies next.take(k).contains(links[i].0) by {
        let u = links[i].0;
        if k < list.len() {
            assert(list.take(k).contains(u)) by {
                assert(links[i].1 == list[k]);
            }
            assert(next.take(k) =~= list.take(k));
        } else {
            assert(next.contains(next[k]));
            lemma_pending_zero(links, next.take(at + 1), next[k], i);
            let ran = next.take(at + 1);
            let j = choose|j: int| 0 <= j < ran.len() && ran[j] == u;
            assert(next.take(k)[j] == u);
        }
    }
}

/// Every schedule is sound.
proof fn lemma_schedule(links: Seq<(usize, usize)>, nodes: int, ran: int)
    requires
        in_range(links, nodes),
        0 <= nodes <= usize::MAX,
        0 <= ran,
    ensures
        ({
            let list = schedule(links, nodes, ran);
            let at = if ran <= list.len() {
                ran
            } else {
                list.len() as int
            };
            sound(links, nodes, list, at)
        }),
    decreases ran,
{
    if ran == 0 {
        lemma_roots(links, nodes, nodes);
        let list = roots(links, nodes);
        assert(list.take(0) =~= Seq::empty());
        assert forall|i: int, k: int|
            0 <= i < links.len() && 0 <= k < list.len() && (#[trigger] links[i]).1 == (
            #[trigger] list[k]) implies list.take(k).contains(links[i].0) by {
            assert(list.contains(list[k]));
            lemma_pending_zero(links, Seq::empty(), list[k], i);
        }
    } else {
        lemma_schedule(links, nodes, ran - 1);
        let list = schedule(links, nodes, ran - 1);
        if ran - 1 < list.len() {
            lemma_sound_step(links, nodes, list, ran - 1);
        }
    }
}

/// A list without duplicates of numbers below a bound is no longer than the
/// bound.
proof fn lemma_at_most(list: Seq<usize>, nodes: int)
    requires
        0 <= nodes,
        list.no_duplicates(),
        forall|i: int| 0 <= i < list.len() ==> (#[trigger] list[i]) < nodes,
    ensures
        list.len() <= nodes,
{
    let ints = Seq::new(list.len(), |i: int| list[i] as int);
    assert(ints.no_duplicates());
    ints.unique_seq_to_set();
    let all = vstd::set_lib::set_int_range(0, nodes);
    vstd::set_lib::lemma_int_range(0, nodes);
    assert(ints.to_set().subset_of(all)) by {
        assert forall|x: int| ints.to_set().contains(x) implies all.contains(x) by {
            let k = choose|k: int| 0 <= k < ints.len() && ints[k] == x;
            assert(list[k] < nodes);
        }
    }
    vstd::set_lib::lemma_len_subset(ints.to_set(), all);
}

/// A list without duplicates that is shorter than the bound misses a number.
proof fn lemma_missing(list: Seq<usize>, nodes: int) -> (v: usize)
    requires
        0 <= nodes <= usize::MAX,
        list.len() < nodes,
    ensures
        v < nodes,
        !list.contains(v),
{
    if forall|v: usize| v < nodes ==> list.contains(v) {
        let all = vstd::set_lib::set_int_range(0, nodes);
        vstd::set_lib::lemma_int_range(0, nodes);
        let ints = Seq::new(list.len(), |i: int| list[i] as int);
        assert(all.subset_of(ints.to_set())) by {
            assert forall|x: int| all.contains(x) implies ints.to_set().contains(x) by {
                assert(list.contains(x as usize));
                let k = choose|k: int| 0 <= k < list.len() && list[k] == x as usize;
                assert(ints[k] == x);
            }
        }
        ints.lemma_cardinality_of_set();
        vstd::set_lib::lemma_len_subset(all, ints.to_set());
        assert(false);
    }
    choose|v: usize| v < nodes && !list.contains(v)
}

/// Of the nodes that a list misses, one has the least rank.
proof fn lemma_least(
    list: Seq<usize>,
    nodes: int,
    rank: spec_fn(usize) -> int,
    some: usize,
) -> (v: usize)
    requires
        0 <= nodes <= usize::MAX,
        some < nodes,
        !list.contains(some),
    ensures
        v < nodes,
        !list.contains(v),
        forall|u: usize| u < nodes && !list.contains(u) ==> rank(v) <= #[trigger] rank(u),
    decreases nodes,
{
    let last = (nodes - 1) as usize;
    if some == last && (forall|u: usize| u < nodes - 1 ==> list.contains(u)) {
        last
    } else {
        let other = if some == last {
            choose|u: usize| u < nodes - 1 && !list.contains(u)
        } else {
            some
        };
        let v = lemma_least(list, nodes - 1, rank, other);
        if !list.contains(last) && rank(last) < rank(v) {
            last
        } else {
            v
        }
    }
}

/// If the run order misses a node, no ranks respect the links: there is a
/// cycle.
proof fn lemma_cycle(links: Seq<(usize, usize)>, nodes: int, rank: spec_fn(usize) -> int)
    requires
        in_range(links, nodes),
        0 <= nodes <= usize::MAX,
        run_order(links, nodes).len() < nodes,
    ensures
        !respects(links, rank),
{
    lemma_schedule(links, nodes, nodes);
    let list = run_order(links, nodes);
    let some = lemma_missing(list, nodes);
    let v = lemma_least(list, nodes, rank, some);
    assert(list.take(list.len() as int) =~= list);
    lemma_pending_bounds(links, list, v);
    assert(pending(links, list, v) != 0);
    let i = lemma_pending_some(links, list, v);
    assert(links[i].0 < nodes);
    assert(rank(v) <= rank(links[i].0));
}

/// A schedule that has run out stays as it is.
proof fn lemma_schedule_stays(links: Seq<(usize, usize)>, nodes: int, ran: int, later: int)
    requires
        0 <= ran <= later,
        schedule(links, nodes, ran).len() <= ran,
    ensures
        schedule(links, nodes, later) == schedule(links, nodes, ran),
    decreases later - ran,
{
    if ran < later {
        lemma_schedule_stays(links, nodes, ran, later - 1);
    }
}

/// Building the table of producers.
fn list_producers(graph: &Graph) -> (r: Vec<Option<usize>>)
    requires
        graph.wf(),
    ensures
        r@.len() == graph.edges@.len(),
        forall|e: int|
            0 <= e < r@.len() ==> #[trigger] r@[e] == graph.producer(
                e,
                graph.nodes@.len() as int,
            ),
{
    let mut r: Vec<Option<usize>> = vec![None; graph.edges.len()];
    let mut node: usize = 0;
    while node < graph.nodes.len()
        invariant
            graph.wf(),
            node <= graph.nodes@.len(),
            r@.len() == graph.edges@.len(),
            forall|e: int|
                0 <= e < r@.len() ==> #[trigger] r@[e] == graph.producer(e, node as int),
        decreases graph.nodes@.len() - node,
    {
        let outputs = &graph.nodes[node].outputs;
        let mut j: usize = 0;
        while j < outputs.len()
            invariant
                graph.wf(),
                node < graph.nodes@.len(),
                outputs@ == graph.nodes@[node as int].outputs@,
                j <= outputs@.len(),
                r@.len() == graph.edges@.len(),
                forall|e: int|
                    0 <= e < r@.len() ==> #[trigger] r@[e] == if produces(
                        outputs@.take(j as int),
                        e,
                    ) {
                        Some(node)
                    } else {
                        graph.producer(e, node as int)
                    },
            decreases outputs@.len() - j,
        {
            let ghost before = r@;
            let edge: usize = outputs[j].0;
            assert(graph.nodes@[node as int].outputs@[j as int].0 < graph.edges@.len());
            r[edge] = Some(node);
            assert forall|e: int| 0 <= e < r@.len() implies #[trigger] r@[e] == if produces(
                outputs@.take(j + 1),
                e,
            ) {
                Some(node)
            } else {
                graph.producer(e, node as int)
            } by {
                let head = outputs@.take(j as int);
                let more = outputs@.take(j + 1);
                if e == edge {
                    assert(more[j as int].0 == e);
                } else {
                    if produces(head, e) {
                        let k = choose|k: int| 0 <= k < head.len() && (#[trigger] head[k]).0 == e;
                        assert(more[k].0 == e);
                    }
                    if produces(more, e) {
                        let k = choose|k: int| 0 <= k < more.len() && (#[trigger] more[k]).0 == e;
                        assert(head[k].0 == e);
                    }
                    assert(r@[e] == before[e]);
                }
            }
            j += 1;
        }
        assert(outputs@.take(j as int) =~= outputs@);
        node += 1;
    }
    r
}

/// Finds the node that an edge comes from.
fn find_origin(graph: &Graph, producers: &Vec<Option<usize>>, edge: usize) -> (r: Option<usize>)
    requires
        graph.wf(),
        edge < graph.edges@.len(),
        producers@.len() == graph.edges@.len(),
        forall|e: int|
            0 <= e < producers@.len() ==> #[trigger] producers@[e] == graph.producer(
                e,
                graph.nodes@.len() as int,
            ),
    ensures
        r == graph.origin(edge as int, graph.edges@.len() + 1),
{
    let edges: usize = graph.edges.len();
    let mut at: usize = edge;
    let mut left: usize = edges;
    loop
        invariant
            graph.wf(),
            edges == graph.edges@.len(),
            producers@.len() == graph.edges@.len(),
            forall|e: int|
                0 <= e < producers@.len() ==> #[trigger] producers@[e] == graph.producer(
                    e,
                    graph.nodes@.len() as int,
                ),
            graph.origin(edge as int, graph.edges@.len() + 1) == graph.origin(
                at as int,
                (left + 1) as nat,
            ),
        decreases left,
    {
        if at >= edges {
            proof {
                lemma_no_producer(*graph, at as int, graph.nodes@.len() as int);
            }
            return None;
        }
        match producers[at] {
            Some(p) => {
                return Some(p);
            },
            None => {},
        }
        match graph.edges[at].source_edge {
            Some(s) => {
                if left == 0 {
                    assert(graph.origin(s.0 as int, 0) is None);
                    return None;
                }
                at = s.0;
                left -= 1;
            },
            None => {
                return None;
            },
        }
    }
}

/// No node produces an edge that the graph does not have.
proof fn lemma_no_producer(graph: Graph, edge: int, nodes: int)
    requires
        graph.wf(),
        edge >= graph.edges@.len(),
        nodes <= graph.nodes@.len(),
    ensures
        graph.producer(edge, nodes) is None,
    decreases nodes,
{
    if nodes > 0 {
        lemma_no_producer(graph, edge, nodes - 1);
        let outputs = graph.nodes@[nodes - 1].outputs@;
        if produces(outputs, edge) {
            let j = choose|j: int| 0 <= j < outputs.len() && (#[trigger] outputs[j]).0 == edge;
            assert(graph.nodes@[nodes - 1].outputs@[j].0 < graph.edges@.len());
        }
    }
}

/// Origins are nodes.
proof fn lemma_origin_node(graph: Graph, edge: int, depth: nat)
    ensures
        graph.origin(edge, depth) matches Some(p) ==> p < graph.nodes@.len(),
    decreases depth,
{
    if depth > 0 {
        lemma_producer_node(graph, edge, graph.nodes@.len() as int);
        if edge < graph.edges@.len() {
            match graph.edges@[edge].source_edge {
                Some(s) => {
                    lemma_origin_node(graph, s.0 as int, (depth - 1) as nat);
                },
                None => {},
            }
        }
    }
}

proof fn lemma_producer_node(graph: Graph, edge: int, nodes: int)
    requires
        nodes <= graph.nodes@.len(),
    ensures
        graph.producer(edge, nodes) matches Some(p) ==> p < graph.nodes@.len(),
    decreases nodes,
{
    if nodes > 0 {
        lemma_producer_node(graph, edge, nodes - 1);
    }
}

/// Finds the last of the first nodes that touches a state.
fn find_toucher(graph: &Graph, handle: StateHandle, nodes: usize) -> (r: Option<usize>)
    requires
        nodes <= graph.nodes@.len(),
    ensures
        r == graph.toucher(handle, nodes as int),
        r matches Some(p) ==> p < nodes,
{
    let mut n: usize = nodes;
    while n > 0
        invariant
            n <= nodes <= graph.nodes@.len(),
            graph.toucher(handle, nodes as int) == graph.toucher(handle, n as int),
        decreases n,
    {
        match graph.nodes[n - 1].op.state_handle() {
            Some(h) => {
                if h == handle {
                    return Some(n - 1);
                }
            },
            None => {},
        }
        n -= 1;
    }
    None
}

/// Lists all links of a graph.
fn list_links(graph: &Graph) -> (r: Vec<(usize, usize)>)
    requires
        graph.wf(),
    ensures
        r@ == graph.links(),
        in_range(r@, graph.nodes@.len() as int),
{
    let producers = list_producers(graph);
    let count: usize = graph.nodes.len();
    let mut r: Vec<(usize, usize)> = Vec::new();
    let mut node: usize = 0;
    while node < count
        invariant
            graph.wf(),
            count == graph.nodes@.len(),
            node <= count,
            producers@.len() == graph.edges@.len(),
            forall|e: int|
                0 <= e < producers@.len() ==> #[trigger] producers@[e] == graph.producer(
                    e,
                    graph.nodes@.len() as int,
                ),
            r@ == graph.tensor_links(node as int),
            in_range(r@, graph.nodes@.len() as int),
        decreases count - node,
    {
        let inputs = &graph.nodes[node].inputs;
        let ghost before = r@;
        let mut j: usize = 0;
        assert(r@ =~= before + graph.node_links(node as int, 0));
        while j < inputs.len()
            invariant
                graph.wf(),
                count == graph.nodes@.len(),
                node < count,
                inputs@ == graph.nodes@[node as int].inputs@,
                j <= inputs@.len(),
                producers@.len() == graph.edges@.len(),
                forall|e: int|
                    0 <= e < producers@.len() ==> #[trigger] producers@[e] == graph.producer(
                        e,
                        graph.nodes@.len() as int,
                    ),
                r@ == before + graph.node_links(node as int, j as int),
                in_range(r@, graph.nodes@.len() as int),
            decreases inputs@.len() - j,
        {
            let edge: usize = inputs[j].0;
            assert(graph.nodes@[node as int].inputs@[j as int].0 < graph.edges@.len());
            proof {
                lemma_origin_node(*graph, edge as int, graph.edges@.len() + 1);
            }
            match find_origin(graph, &producers, edge) {
                Some(p) => {
                    r.push((p, node));
                },
                None => {},
            }
            j += 1;
            assert(r@ =~= before + graph.node_links(node as int, j as int));
        }
        node += 1;
    }
    let ghost tensors = r@;
    let mut node: usize = 0;
    assert(r@ =~= tensors + graph.state_links(0));
    while node < count
        invariant
            count == graph.nodes@.len(),
            node <= count,
            r@ == tensors + graph.state_links(node as int),
            in_range(r@, graph.nodes@.len() as int),
        decreases count - node,
    {
        match graph.nodes[node].op.state_handle() {
            Some(h) => match find_toucher(graph, h, node) {
                Some(p) => {
                    r.push((p, node));
                },
                None => {},
            },
            None => {},
        }
        node += 1;
        assert(r@ =~= tensors + graph.state_links(node as int));
    }
    r
}

/// First number from `from` on, below `nodes`, that a list misses, or zero.
pub open spec fn first_missing(list: Seq<usize>, from: int, nodes: int) -> usize
    decreases nodes - from,
{
    if from >= nodes {
        0
    } else if !list.contains(from as usize) {
        from as usize
    } else {
        first_missing(list, from + 1, nodes)
    }
}

/// Counts the links into each node and lists the followers of each.
fn spread_links(links: &Vec<(usize, usize)>, count: usize) -> (r: (Vec<usize>, Vec<Vec<usize>>))
    requires
        in_range(links@, count as int),
    ensures
        r.0@.len() == count,
        r.1@.len() == count,
        forall|v: usize|
            v < count ==> #[trigger] r.0@[v as int] == pending(links@, Seq::empty(), v),
        forall|u: usize| u < count ==> (#[trigger] r.1@[u as int])@ == followers(links@, u),
{
    let mut degrees: Vec<usize> = vec![0usize; count];
    let mut rows: Vec<Vec<usize>> = Vec::new();
    let mut k: usize = 0;
    while k < count
        invariant
            k <= count,
            rows@.len() == k,
            forall|u: int| 0 <= u < k ==> (#[trigger] rows@[u])@ == Seq::<usize>::empty(),
        decreases count - k,
    {
        let row: Vec<usize> = Vec::new();
        assert(row@ =~= Seq::<usize>::empty());
        rows.push(row);
        k += 1;
    }
    let mut i: usize = 0;
    while i < links.len()
        invariant
            in_range(links@, count as int),
            i <= links@.len(),
            degrees@.len() == count,
            rows@.len() == count,
            forall|v: usize|
                v < count ==> #[trigger] degrees@[v as int] == pending(
                    links@.take(i as int),
                    Seq::empty(),
                    v,
                ),
            forall|u: usize|
                u < count ==> (#[trigger] rows@[u as int])@ == followers(links@.take(i as int), u),
        decreases links@.len() - i,
    {
        let (from, to) = links[i];
        assert(links@[i as int].0 < count && links@[i as int].1 < count);
        let ghost more = links@.take(i + 1);
        assert(more.drop_last() =~= links@.take(i as int));
        assert(more.last() == links@[i as int]);
        proof {
            lemma_pending_bounds(links@.take(i as int), Seq::empty(), to);
        }
        let d: usize = degrees[to];
        degrees[to] = d + 1;
        let ghost rows_before = rows@;
        rows[from].push(to);
        assert forall|u: usize| u < count implies (#[trigger] rows@[u as int])@ == followers(
            more,
            u,
        ) by {
            assert(rows_before[u as int]@ == followers(links@.take(i as int), u));
        }
        i += 1;
    }
    assert(links@.take(i as int) =~= links@);
    (degrees, rows)
}

/// Node ids of a list of indices.
pub open spec fn node_ids(list: Seq<usize>) -> Seq<NodeId> {
    Seq::new(list.len(), |i: int| NodeId(list[i]))
}

/// Runs the schedule: gives the nodes that run and, for each node, how many
/// links into it stay open.
fn run_schedule(links: &Vec<(usize, usize)>, count: usize) -> (r: (Vec<usize>, Vec<usize>))
    requires
        in_range(links@, count as int),
    ensures
        r.0@ == run_order(links@, count as int),
        r.1@.len() == count,
        forall|v: usize|
            v < count ==> (#[trigger] r.1@[v as int] == 0 <==> r.0@.contains(v)),
        r.0@.len() <= count,
{
    let (mut degrees, rows) = spread_links(links, count);
    let mut list: Vec<usize> = Vec::new();
    let mut v: usize = 0;
    while v < count
        invariant
            v <= count,
            degrees@.len() == count,
            forall|u: usize|
                u < count ==> #[trigger] degrees@[u as int] == pending(links@, Seq::empty(), u),
            list@ == roots(links@, v as int),
        decreases count - v,
    {
        if degrees[v] == 0 {
            list.push(v);
        }
        v += 1;
    }
    let mut at: usize = 0;
    assert(list@.take(0) =~= Seq::<usize>::empty());
    proof {
        lemma_schedule(links@, count as int, 0);
        lemma_at_most(list@, count as int);
    }
    while at < list.len()
        invariant
            in_range(links@, count as int),
            at <= list@.len() <= count,
            degrees@.len() == count,
            rows@.len() == count,
            forall|u: usize| u < count ==> (#[trigger] rows@[u as int])@ == followers(links@, u),
            forall|u: usize|
                u < count ==> #[trigger] degrees@[u as int] == pending(
                    links@,
                    list@.take(at as int),
                    u,
                ),
            list@ == schedule(links@, count as int, at as int),
            sound(links@, count as int, list@, at as int),
        decreases count - at,
    {
        let ghost start = list@;
        let node: usize = list[at];
        assert(start[at as int] < count);
        let row = &rows[node];
        assert(row@ == followers(links@, node));
        proof {
            lemma_not_done(links@, count as int, start, at as int);
        }
        let mut seen: usize = 0;
        while seen < row.len()
            invariant
                in_range(links@, count as int),
                at < start.len(),
                node == start[at as int],
                node < count,
                row@ == followers(links@, node),
                seen <= row@.len(),
                degrees@.len() == count,
                sound(links@, count as int, start, at as int),
                !start.take(at as int).contains(node),
                list@ == released(links@, start, at as int, seen as int),
                forall|u: usize|
                    u < count ==> #[trigger] degrees@[u as int] == pending(
                        links@,
                        start.take(at as int),
                        u,
                    ) - times_in(row@, seen as int, u),
            decreases row@.len() - seen,
        {
            let next: usize = row[seen];
            proof {
                lemma_followers(links@, count as int, node, seen as int);
                lemma_pending_step(links@, start.take(at as int), node, next);
                lemma_pending_bounds(links@, start.take(at as int).push(node), next);
                lemma_times_grow(row@, seen + 1, row@.len() as int, next);
            }
            let d: usize = degrees[next];
            degrees[next] = d - 1;
            if d - 1 == 0 {
                list.push(next);
            }
            seen += 1;
        }
        proof {
            lemma_sound_step(links@, count as int, start, at as int);
            lemma_at_most(list@, count as int);
            assert(list@.take(at + 1) =~= start.take(at as int).push(node));
            assert forall|u: usize| u < count implies #[trigger] degrees@[u as int] == pending(
                links@,
                list@.take(at + 1),
                u,
            ) by {
                lemma_pending_step(links@, start.take(at as int), node, u);
            }
        }
        at += 1;
    }
    proof {
        lemma_schedule_stays(links@, count as int, at as int, count as int);
        assert(list@.take(at as int) =~= list@);
        assert forall|u: usize| u < count implies (#[trigger] degrees@[u as int] == 0
            <==> list@.contains(u)) by {
            assert(degrees@[u as int] == pending(links@, list@.take(at as int), u));
        }
    }
    (list, degrees)
}

/// Finds the first node that links stay open into.
fn first_open(degrees: &Vec<usize>, Ghost(list): Ghost<Seq<usize>>) -> (r: usize)
    requires
        forall|u: usize|
            u < degrees@.len() ==> (#[trigger] degrees@[u as int] == 0 <==> list.contains(u)),
    ensures
        r == first_missing(list, 0, degrees@.len() as int),
{
    let mut node: usize = 0;
    while node < degrees.len()
        invariant
            node <= degrees@.len(),
            forall|u: usize|
                u < degrees@.len() ==> (#[trigger] degrees@[u as int] == 0 <==> list.contains(u)),
            first_missing(list, 0, degrees@.len() as int) == first_missing(
                list,
                node as int,
                degrees@.len() as int,
            ),
        decreases degrees@.len() - node,
    {
        assert(degrees@[node as int] == 0 <==> list.contains(node));
        if degrees[node] > 0 {
            return node;
        }
        node += 1;
    }
    0
}

/// Orders the nodes of a graph for execution. The order holds every node once,
/// behind the nodes that it depends on; if there is none, the graph has a cycle.
pub fn state_ordered(graph: &Graph) -> (r: Result<Vec<NodeId>, T0Error>)
    requires
        graph.wf(),
    ensures
        ({
            let n = graph.nodes@.len() as int;
            let order = run_order(graph.links(), n);
            if order.len() == n {
                &&& r is Ok
                &&& r->Ok_0@ == node_ids(order)
                &&& is_order(graph.links(), n, order)
            } else {
                &&& r is Err
                &&& r->Err_0.view() == ErrorView::Ir(
                    IrError::GraphCycle { node: first_missing(order, 0, n) },
                )
                &&& forall|rank: spec_fn(usize) -> int| !#[trigger] respects(graph.links(), rank)
            }
        }),
{
    let links = list_links(graph);
    let count: usize = graph.nodes.len();
    let (list, degrees) = run_schedule(&links, count);
    proof {
        lemma_schedule(links@, count as int, count as int);
    }
    if list.len() != count {
        proof {
            assert forall|rank: spec_fn(usize) -> int| !#[trigger] respects(
                graph.links(),
                rank,
            ) by {
                lemma_cycle(links@, count as int, rank);
            }
        }
        let node: usize = first_open(&degrees, Ghost(list@));
        return Err(T0Error::Ir(IrError::GraphCycle { node }));
    }
    let mut order: Vec<NodeId> = Vec::new();
    let mut i: usize = 0;
    while i < list.len()
        invariant
            i <= list@.len(),
            order@.len() == i,
            forall|k: int| 0 <= k < i ==> order@[k] == NodeId(list@[k]),
        decreases list@.len() - i,
    {
        order.push(NodeId(list[i]));
        i += 1;
    }
    assert(order@ =~= node_ids(list@));
    Ok(order)
}

/// An order holds every node.
proof fn lemma_order_holds(links: Seq<(usize, usize)>, nodes: int, list: Seq<usize>, v: usize)
    requires
        is_order(links, nodes, list),
        v < nodes,
    ensures
        list.contains(v),
{
    if !list.contains(v) {
        let more = list.push(v);
        assert(more.no_duplicates()) by {
            assert forall|i: int, j: int| 0 <= i < j < more.len() implies more[i] != more[j] by {
                if j == list.len() && more[i] == v {
                    assert(list[i] == v);
                }
            }
        }
        lemma_at_most(more, nodes);
    }
}

/// Whether one node runs before another.
pub open spec fn runs_before(list: Seq<usize>, u: usize, v: usize) -> bool {
    exists|a: int, b: int|
        0 <= a < b < list.len() && #[trigger] list[a] == u && #[trigger] list[b] == v
}

/// The start of a link runs before its end.
proof fn lemma_link_order(links: Seq<(usize, usize)>, nodes: int, list: Seq<usize>, i: int)
    requires
        is_order(links, nodes, list),
        0 <= i < links.len(),
        links[i].1 < nodes,
    ensures
        runs_before(list, links[i].0, links[i].1),
{
    let (u, v) = links[i];
    lemma_order_holds(links, nodes, list, v);
    let b = choose|b: int| 0 <= b < list.len() && list[b] == v;
    assert(links[i].1 == list[b]);
    let head = list.take(b);
    let a = choose|a: int| 0 <= a < head.len() && head[a] == u;
    assert(list[a] == u && list[b] == v);
}

/// To run before is transitive.
proof fn lemma_before_transitive(list: Seq<usize>, u: usize, v: usize, w: usize)
    requires
        list.no_duplicates(),
        runs_before(list, u, v),
        runs_before(list, v, w),
    ensures
        runs_before(list, u, w),
{
    let (a, b) = choose|a: int, b: int|
        0 <= a < b < list.len() && #[trigger] list[a] == u && #[trigger] list[b] == v;
    let (c, d) = choose|c: int, d: int|
        0 <= c < d < list.len() && #[trigger] list[c] == v && #[trigger] list[d] == w;
    assert(b == c);
    assert(list[a] == u && list[d] == w);
}

/// A state link is among the state links of all later prefixes.
proof fn lemma_state_link(graph: Graph, handle: StateHandle, node: int, nodes: int)
    requires
        0 <= node < nodes <= graph.nodes@.len(),
        graph.nodes@[node].op.handle() == Some(handle),
        graph.toucher(handle, node) is Some,
    ensures
        graph.state_links(nodes).contains((graph.toucher(handle, node)->0, node as usize)),
    decreases nodes,
{
    let link = (graph.toucher(handle, node)->0, node as usize);
    let all = graph.state_links(nodes);
    if node == nodes - 1 {
        assert(all[all.len() - 1] == link);
    } else {
        lemma_state_link(graph, handle, node, nodes - 1);
        let before = graph.state_links(nodes - 1);
        let k = choose|k: int| 0 <= k < before.len() && before[k] == link;
        assert(all[k] == link);
    }
}

/// The last node that touches a state is no earlier than any other.
proof fn lemma_toucher(graph: Graph, handle: StateHandle, node: int, nodes: int)
    requires
        0 <= node < nodes <= graph.nodes@.len() <= usize::MAX,
        graph.nodes@[node].op.handle() == Some(handle),
    ensures
        graph.toucher(handle, nodes) matches Some(p) && node <= p < nodes
            && graph.nodes@[p as int].op.handle() == Some(handle),
    decreases nodes,
{
    if node < nodes - 1 {
        lemma_toucher(graph, handle, node, nodes - 1);
    }
}

/// Nodes that touch the same state run in the order in which they stand in the
/// graph.
pub proof fn law_state_order(
    graph: Graph,
    order: Seq<usize>,
    handle: StateHandle,
    first: int,
    second: int,
)
    requires
        is_order(graph.links(), graph.nodes@.len() as int, order),
        0 <= first < second < graph.nodes@.len() <= usize::MAX,
        graph.nodes@[first].op.handle() == Some(handle),
        graph.nodes@[second].op.handle() == Some(handle),
    ensures
        runs_before(order, first as usize, second as usize),
    decreases second,
{
    let n = graph.nodes@.len() as int;
    lemma_toucher(graph, handle, first, second);
    let p = graph.toucher(handle, second)->0;
    lemma_state_link(graph, handle, second, n);
    let states = graph.state_links(n);
    let k = choose|k: int| 0 <= k < states.len() && states[k] == (p, second as usize);
    let i = graph.tensor_links(n).len() + k;
    assert(graph.links()[i] == states[k]);
    lemma_link_order(graph.links(), n, order, i);
    if first < p {
        law_state_order(graph, order, handle, first, p as int);
        lemma_before_transitive(order, first as usize, p, second as usize);
    }
}

/// A tensor link is among the tensor links of all later prefixes.
proof fn lemma_tensor_link(graph: Graph, node: int, input: int, nodes: int)
    requires
        0 <= node < nodes <= graph.nodes@.len(),
        0 <= input < graph.nodes@[node].inputs@.len(),
        graph.input_origin(node, input) is Some,
    ensures
        graph.tensor_links(nodes).contains((graph.input_origin(node, input)->0, node as usize)),
    decreases nodes,
{
    let link = (graph.input_origin(node, input)->0, node as usize);
    let before = graph.tensor_links(nodes - 1);
    let all = graph.tensor_links(nodes);
    if node == nodes - 1 {
        let len = graph.nodes@[node].inputs@.len() as int;
        lemma_node_link(graph, node, input, len);
        let mine = graph.node_links(node, len);
        let k = choose|k: int| 0 <= k < mine.len() && mine[k] == link;
        assert(all[before.len() + k] == link);
    } else {
        lemma_tensor_link(graph, node, input, nodes - 1);
        let k = choose|k: int| 0 <= k < before.len() && before[k] == link;
        assert(all[k] == link);
    }
}

proof fn lemma_node_link(graph: Graph, node: int, input: int, inputs: int)
    requires
        0 <= input < inputs,
        graph.input_origin(node, input) is Some,
    ensures
        graph.node_links(node, inputs).contains(
            (graph.input_origin(node, input)->0, node as usize),
        ),
    decreases inputs,
{
    let link = (graph.input_origin(node, input)->0, node as usize);
    let all = graph.node_links(node, inputs);
    if input == inputs - 1 {
        assert(all[all.len() - 1] == link);
    } else {
        lemma_node_link(graph, node, input, inputs - 1);
        let before = graph.node_links(node, inputs - 1);
        let k = choose|k: int| 0 <= k < before.len() && before[k] == link;
        assert(all[k] == link);
    }
}

/// The node that an input comes from runs before the node that reads it.
pub proof fn law_inputs_first(graph: Graph, order: Seq<usize>, node: int, input: int)
    requires
        is_order(graph.links(), graph.nodes@.len() as int, order),
        0 <= node < graph.nodes@.len(),
        0 <= input < graph.nodes@[node].inputs@.len(),
        graph.input_origin(node, input) is Some,
    ensures
        runs_before(order, graph.input_origin(node, input)->0, node as usize),
{
    let n = graph.nodes@.len() as int;
    lemma_tensor_link(graph, node, input, n);
    let tensors = graph.tensor_links(n);
    let link = (graph.input_origin(node, input)->0, node as usize);
    let k = choose|k: int| 0 <= k < tensors.len() && tensors[k] == link;
    assert(graph.links()[k] == link);
    lemma_link_order(graph.links(), n, order, k);
}

} // verus!
