//! Graphs and their execution.
use r9v_t0::activation::ActivationOp;
use r9v_t0::arith::FloatOp;
use r9v_t0::attention::{AttentionMask, AttentionOp};
use r9v_t0::batch::{BatchMeta, TreeMask};
use r9v_t0::buffer::{TensorView, TypedBuffer};
use r9v_t0::causal_conv1d::{CausalConv1dOp, ConvActivation};
use r9v_t0::copy::{CopyKind, CopyOp};
use r9v_t0::error::{Detail, FormatError, IrError, T0Error};
use r9v_t0::exec::{CpuExecutor, RunArgs};
use r9v_t0::exec_draw::{view_u32, Draw, Drawn};
use r9v_t0::exec_error::ExecError;
use r9v_t0::exec_state::state_key;
use r9v_t0::gemm::Epilogue;
use r9v_t0::graph::{
    state_ordered, Dim, EdgeId, Graph, GraphEdge, GraphNode, NgramSource, NodeId, Op, ShapeSymbol,
    TensorDesc, VerifyMethod, VerifyOp,
};
use r9v_t0::ir::{ActivationKind, DType, LayoutId, QuantScheme, StateHandle, StateKind};
use r9v_t0::kv_cache::{KvLatentCache, KvPagedCache};
use r9v_t0::kv_write::{CacheScaleGranularity, LatentSpec, StateWriteKvOp};
use r9v_t0::matmul::MatmulOp;
use r9v_t0::weight::FormatQuery;

fn b(v: f32) -> u32 {
    v.to_bits()
}

fn arith(op: FloatOp, x: u32, y: u32) -> u32 {
    let (x, y) = (f32::from_bits(x), f32::from_bits(y));
    let r = match op {
        FloatOp::Plus => x + y,
        FloatOp::Minus => x - y,
        FloatOp::Times => x * y,
        FloatOp::Over => x / y,
        FloatOp::Exp => x.exp(),
        FloatOp::Tanh => x.tanh(),
        FloatOp::Max => x.max(y),
    };
    r.to_bits()
}

fn half(h: u16) -> u32 {
    r9v_t0::dtype::f16_to_f32(h)
}

/// A format whose tiles are the plain rows, so that tiled and plain storage can
/// be compared.
fn format(q: FormatQuery) -> Result<u64, FormatError> {
    match q {
        FormatQuery::PaddedRows { rows, .. } => Ok(rows as u64),
        FormatQuery::PaddedCols { cols, .. } => Ok(cols as u64),
        FormatQuery::TileIndex { cols, row, col, .. } => {
            Ok(row as u64 * cols as u64 + col as u64)
        }
        FormatQuery::ScaleCheck { bits, index, .. } => {
            if f32::from_bits(half(bits)).is_finite() {
                Ok(0)
            } else {
                Err(FormatError::Record { index })
            }
        }
        FormatQuery::ScaleValue { bits, .. } => Ok(half(bits) as u64),
        FormatQuery::E4m3Check { byte, index } => {
            if byte % 0x80 == 0x7F {
                Err(FormatError::Record { index })
            } else {
                Ok(0)
            }
        }
        FormatQuery::E4m3Value { byte } => Ok(r9v_t0::dtype::fp8_e4m3_decode(byte) as u64),
        FormatQuery::HeaderScale { bits, .. } => Ok(half(bits as u16) as u64),
        FormatQuery::HeaderMin { bits, .. } => Ok(half((bits >> 16) as u16) as u64),
        FormatQuery::PartScale { .. } => Ok(2),
        FormatQuery::PartMin { .. } => Ok(1),
        FormatQuery::ScaleRowBlocks { rows, .. } => Ok(rows as u64),
        FormatQuery::ScaleColBlocks { .. } => Ok(1),
        FormatQuery::ScaleRecords { rows, .. } => Ok(rows as u64),
        FormatQuery::ScaleBytes { rows, .. } => Ok(2 * rows as u64),
        FormatQuery::RecordOffset { row, .. } => Ok(2 * row as u64),
        FormatQuery::E4m3Code { value } => Ok(r9v_t0::dtype::fp8_e4m3_encode(value) as u64),
    }
}

/// Kernel that adds one to its first operand.
fn add_one(
    node: usize,
    inputs: &[TensorView<'_>],
    mut outputs: Vec<TypedBuffer>,
) -> Result<Vec<TypedBuffer>, T0Error> {
    if inputs.is_empty() {
        return Err(T0Error::MissingOperand { op: "kernel", operand: "x", detail: Detail::plain("absent") });
    }
    assert!(node < 100);
    for i in 0..inputs[0].num_elements() {
        let v = f32::from_bits(inputs[0].read_f32(i)) + 1.0;
        outputs[0].write_f32(i, b(v));
    }
    Ok(outputs)
}

/// Draw that answers with the numbers it was asked about.
fn draw(call: Draw<'_, f32, u64>) -> Drawn<u64> {
    match call {
        Draw::Postprocess { logits, s, params, .. } => {
            assert_eq!(params.len(), s);
            let scaled = logits.iter().map(|&v| b(f32::from_bits(v) * params[0])).collect();
            Drawn { values: Ok(scaled), lens: Vec::new(), rng: Vec::new() }
        }
        Draw::Sample { s, rng, .. } => Drawn {
            values: Ok((0..s as u32).map(|i| 7 + i).collect()),
            lens: Vec::new(),
            rng: rng.iter().map(|r| r + 1).collect(),
        },
        Draw::Verify { draft, s, k, method, rng, tree, .. } => {
            assert_eq!(draft.len(), s * k);
            assert_eq!(method, VerifyMethod(6));
            assert_eq!(tree.unwrap().t_max, 2);
            Drawn {
                values: Ok(vec![4; s * (k + 1)]),
                lens: vec![1; s],
                rng: rng.iter().map(|r| r + 2).collect(),
            }
        }
    }
}

fn batch(s: usize, t: usize) -> BatchMeta {
    BatchMeta {
        num_groups: 1,
        total_tokens: t,
        max_blocks: 1,
        ctx_len: vec![0; s],
        query_len: vec![(t / s) as u32; s],
        slot_map: (0..t as u32).collect(),
        block_table: vec![0; s],
        window_start: vec![0; s],
        tree: None,
    }
}

fn edge(shape: Vec<Dim>, dtype: DType) -> GraphEdge {
    GraphEdge {
        tensor: TensorDesc {
            shape,
            dtype,
            quant: QuantScheme::Unquantized,
            layout: LayoutId::Contiguous,
        },
        source_edge: None,
        contiguous: true,
    }
}

fn plain(n: u32) -> GraphEdge {
    edge(vec![Dim::Concrete(n)], DType::F32)
}

fn node(op: Op, inputs: &[usize], outputs: &[usize]) -> GraphNode {
    GraphNode {
        op,
        inputs: inputs.iter().map(|&e| EdgeId(e)).collect(),
        outputs: outputs.iter().map(|&e| EdgeId(e)).collect(),
    }
}

/// An operation that is handed to the kernel of the caller.
fn act() -> Op {
    Op::Norm
}

fn handle(kind: StateKind) -> StateHandle {
    StateHandle { layer: 3, kind }
}

fn write_op() -> Op {
    Op::StateWriteKv(StateWriteKvOp {
        handle: handle(StateKind::KvPaged),
        cache_dtype: DType::F16,
        scale_granularity: CacheScaleGranularity::PerTokenHead,
        latent: None,
    })
}

fn attention_op() -> Op {
    Op::Attention(AttentionOp {
        handle: handle(StateKind::KvPaged),
        out_dtype: DType::F32,
        softmax_scale: b(1.0),
        mask: AttentionMask::Causal,
        logit_softcap: None,
        sinks: 0,
        mla: None,
    })
}

fn conv_op() -> Op {
    Op::CausalConv1d(CausalConv1dOp {
        kernel: 2,
        act: ConvActivation::Identity,
        handle: handle(StateKind::ConvWindow),
    })
}

fn run(
    exec: &mut CpuExecutor,
    graph: &Graph,
    meta: &BatchMeta,
    rng: Vec<u64>,
) -> (Result<(), ExecError>, Vec<u64>) {
    let params = vec![1.0f32; meta.ctx_len.len()];
    let args = RunArgs { batch: meta, params: &params, ngram_hash: false };
    exec.run(&arith, &format, &add_one, &draw, graph, &args, rng)
}

fn f32s(exec: &CpuExecutor, e: usize) -> Vec<f32> {
    exec.edge(EdgeId(e)).unwrap().to_f32_vec().iter().map(|&v| f32::from_bits(v)).collect()
}

#[test]
fn inputs_come_before_their_users() {
    let graph = Graph {
        nodes: vec![node(act(), &[1], &[2]), node(act(), &[0], &[1])],
        edges: vec![plain(1), plain(1), plain(1)],
    };
    assert_eq!(state_ordered(&graph).unwrap(), vec![NodeId(1), NodeId(0)]);
}

#[test]
fn state_is_touched_in_the_order_of_the_graph() {
    let kv = || edge(vec![Dim::Symbolic(ShapeSymbol::T), Dim::Concrete(1), Dim::Concrete(1)], DType::F32);
    // The reader stands behind the writer though no edge links them, and the
    // writer waits for its operand.
    let graph = Graph {
        nodes: vec![
            node(write_op(), &[1, 1], &[]),
            node(attention_op(), &[0], &[2]),
            node(act(), &[0], &[1]),
        ],
        edges: vec![kv(), kv(), kv()],
    };
    assert_eq!(state_ordered(&graph).unwrap(), vec![NodeId(2), NodeId(0), NodeId(1)]);
}

#[test]
fn cycles_are_refused() {
    let graph = Graph {
        nodes: vec![node(act(), &[0], &[2]), node(act(), &[2], &[1]), node(act(), &[1], &[2])],
        edges: vec![plain(1), plain(1), plain(1)],
    };
    match state_ordered(&graph) {
        Err(T0Error::Ir(IrError::GraphCycle { node })) => assert_eq!(node, 1),
        other => panic!("{:?}", other),
    }
    let mut exec = CpuExecutor::new();
    let (r, rng) = run(&mut exec, &graph, &batch(1, 1), vec![5]);
    assert!(matches!(r, Err(ExecError::T0(T0Error::Ir(IrError::GraphCycle { node: 1 })))));
    assert_eq!(rng, vec![5]);
}

#[test]
fn names_of_states_differ() {
    let kinds =
        [StateKind::KvPaged, StateKind::KvLatent, StateKind::Recurrent, StateKind::ConvWindow];
    let mut keys = Vec::new();
    for layer in [0u32, 1, u32::MAX] {
        for kind in kinds {
            keys.push(state_key(StateHandle { layer, kind }));
        }
    }
    keys.sort();
    keys.dedup();
    assert_eq!(keys.len(), 12);
}

#[test]
fn kernels_run_in_order() {
    let graph = Graph {
        nodes: vec![node(act(), &[1], &[2]), node(act(), &[0], &[1])],
        edges: vec![plain(2), plain(2), plain(2)],
    };
    let mut exec = CpuExecutor::default();
    exec.bind(EdgeId(0), TypedBuffer::from_f32(&[2], &[b(1.0), b(5.0)]));
    let (r, _) = run(&mut exec, &graph, &batch(1, 1), vec![0]);
    r.unwrap();
    assert_eq!(f32s(&exec, 2), vec![3.0, 7.0]);
    exec.clear_edges();
    assert!(exec.edge(EdgeId(2)).is_none());
    assert!(exec.edge(EdgeId(77)).is_none());
}

#[test]
fn own_kernels_run_without_the_caller() {
    let wide = |n: u32| edge(vec![Dim::Concrete(1), Dim::Concrete(n)], DType::F32);
    let relu = Op::Activation(ActivationOp { act: ActivationKind::Relu2, clamp: Some(b(16.0)) });
    let product = Op::Matmul(MatmulOp {
        out_dtype: DType::F32,
        epilogue: Epilogue::Bias,
        transpose_w: false,
    });
    let graph = Graph {
        nodes: vec![
            node(relu, &[0], &[1]),
            node(Op::Copy(CopyOp { kind: CopyKind::DeviceToDevice }), &[1], &[2]),
            node(product, &[3, 4, 5], &[6]),
        ],
        edges: vec![
            wide(2),
            wide(2),
            wide(2),
            edge(vec![Dim::Concrete(1), Dim::Concrete(2)], DType::F16),
            edge(vec![Dim::Concrete(1), Dim::Concrete(2)], DType::F16),
            edge(vec![Dim::Concrete(1)], DType::F32),
            wide(1),
        ],
    };
    let h = |v: f32| r9v_t0::dtype::f32_to_f16(b(v));
    let mut exec = CpuExecutor::new();
    exec.bind(EdgeId(0), TypedBuffer::from_f32(&[1, 2], &[b(3.0), b(5.0)]));
    exec.bind(EdgeId(3), TypedBuffer::from_f16(&[1, 2], &[h(2.0), h(3.0)]));
    let w = [h(10.0).to_le_bytes(), h(1.0).to_le_bytes()].concat();
    exec.bind(EdgeId(4), TypedBuffer::from_bytes(&[1, 2], DType::F16, &w));
    exec.bind(EdgeId(5), TypedBuffer::from_f32(&[1], &[b(0.5)]));
    let (r, _) = run(&mut exec, &graph, &batch(1, 1), vec![0]);
    r.unwrap();
    assert_eq!(f32s(&exec, 1), vec![9.0, 16.0]);
    assert_eq!(f32s(&exec, 2), vec![9.0, 16.0]);
    assert_eq!(f32s(&exec, 6), vec![23.5]);
}

#[test]
fn own_kernels_report_their_errors() {
    let graph = Graph {
        nodes: vec![node(
            Op::Activation(ActivationOp { act: ActivationKind::Silu, clamp: None }),
            &[0],
            &[1],
        )],
        edges: vec![plain(2), plain(2)],
    };
    let mut exec = CpuExecutor::new();
    exec.bind(EdgeId(0), TypedBuffer::from_f32(&[2], &[0, 0]));
    let (r, _) = run(&mut exec, &graph, &batch(1, 1), vec![0]);
    assert!(matches!(r, Err(ExecError::T0(T0Error::Multiple { .. }))));
    assert!(exec.edge(EdgeId(1)).is_none());
}

#[test]
fn unbound_edges_are_named() {
    let graph = Graph {
        nodes: vec![node(act(), &[0, 1], &[2])],
        edges: vec![plain(2), plain(2), plain(2)],
    };
    let mut exec = CpuExecutor::new();
    exec.bind(EdgeId(0), TypedBuffer::from_f32(&[2], &[b(1.0), b(5.0)]));
    let (r, _) = run(&mut exec, &graph, &batch(1, 1), vec![0]);
    assert!(matches!(r, Err(ExecError::UnboundEdge { node: 0, edge: 1 })));
    assert!(exec.edge(EdgeId(2)).is_none());
}

#[test]
fn model_dimensions_are_not_resolved() {
    let graph = Graph {
        nodes: vec![node(act(), &[0], &[1])],
        edges: vec![
            plain(2),
            edge(vec![Dim::Symbolic(ShapeSymbol::S), Dim::Symbolic(ShapeSymbol::Model(4))], DType::F32),
        ],
    };
    let mut exec = CpuExecutor::new();
    exec.bind(EdgeId(0), TypedBuffer::from_f32(&[2], &[b(1.0), b(5.0)]));
    let (r, _) = run(&mut exec, &graph, &batch(1, 1), vec![0]);
    assert!(matches!(
        r,
        Err(ExecError::SymbolicDim { node: 0, edge: 1, symbol: ShapeSymbol::Model(4) })
    ));
}

#[test]
fn views_take_the_shape_of_their_edge() {
    let mut view = edge(vec![Dim::Concrete(2), Dim::Concrete(1)], DType::F32);
    view.source_edge = Some(EdgeId(0));
    let graph = Graph {
        nodes: vec![node(act(), &[1], &[2])],
        edges: vec![plain(2), view, plain(2)],
    };
    let mut exec = CpuExecutor::new();
    exec.bind(EdgeId(0), TypedBuffer::from_f32(&[2], &[b(1.0), b(5.0)]));
    run(&mut exec, &graph, &batch(1, 1), vec![0]).0.unwrap();
    assert_eq!(f32s(&exec, 2), vec![2.0, 6.0]);
}

#[test]
fn views_with_gaps_are_refused() {
    let mut view = edge(vec![Dim::Concrete(2)], DType::F32);
    view.source_edge = Some(EdgeId(0));
    view.contiguous = false;
    let graph = Graph {
        nodes: vec![node(act(), &[1], &[2])],
        edges: vec![plain(2), view, plain(2)],
    };
    let mut exec = CpuExecutor::new();
    exec.bind(EdgeId(0), TypedBuffer::from_f32(&[2], &[b(1.0), b(5.0)]));
    let (r, _) = run(&mut exec, &graph, &batch(1, 1), vec![0]);
    assert!(matches!(
        r,
        Err(ExecError::NonContiguousView { node: 0, edge: 1, source_edge: 0 })
    ));
}

fn kv_graph() -> Graph {
    let kv = || edge(vec![Dim::Symbolic(ShapeSymbol::T), Dim::Concrete(1), Dim::Concrete(1)], DType::F32);
    Graph {
        nodes: vec![node(write_op(), &[0, 1], &[]), node(attention_op(), &[0], &[2])],
        edges: vec![kv(), kv(), kv()],
    }
}

#[test]
fn caches_are_written_then_attended() {
    let graph = kv_graph();
    let mut exec = CpuExecutor::new();
    exec.register_paged_cache(
        handle(StateKind::KvPaged),
        KvPagedCache::new(1, 1, 1, 1, DType::F16).unwrap(),
    );
    exec.bind(EdgeId(0), TypedBuffer::from_f32(&[2, 1, 1], &[0, 0]));
    exec.bind(EdgeId(1), TypedBuffer::from_f32(&[2, 1, 1], &[b(2.0), b(4.0)]));
    run(&mut exec, &graph, &batch(1, 2), vec![0]).0.unwrap();
    assert_eq!(f32s(&exec, 2), vec![2.0, 3.0]);
}

#[test]
fn states_must_be_registered() {
    let graph = kv_graph();
    let mut exec = CpuExecutor::new();
    exec.bind(EdgeId(0), TypedBuffer::from_f32(&[2, 1, 1], &[0, 0]));
    exec.bind(EdgeId(1), TypedBuffer::from_f32(&[2, 1, 1], &[b(2.0), b(4.0)]));
    let (r, _) = run(&mut exec, &graph, &batch(1, 2), vec![0]);
    assert!(matches!(
        r,
        Err(ExecError::UnknownState { node: 0, layer: 3, kind: StateKind::KvPaged, .. })
    ));
}

#[test]
fn groups_must_be_known() {
    let graph = kv_graph();
    let mut exec = CpuExecutor::new();
    exec.register_paged_cache(
        handle(StateKind::KvPaged),
        KvPagedCache::new(1, 1, 1, 1, DType::F16).unwrap(),
    );
    exec.bind(EdgeId(0), TypedBuffer::from_f32(&[2, 1, 1], &[0, 0]));
    exec.bind(EdgeId(1), TypedBuffer::from_f32(&[2, 1, 1], &[b(2.0), b(4.0)]));
    let meta = BatchMeta {
        num_groups: 2,
        slot_map: vec![9, 9, 0, 1],
        block_table: vec![0, 0],
        window_start: vec![0, 0],
        ..batch(1, 2)
    };
    let (r, _) = run(&mut exec, &graph, &meta, vec![0]);
    assert!(matches!(r, Err(ExecError::UnknownGroup { node: 0, layer: 3, g: 2 })));
    exec.set_layer_group(3, 1);
    run(&mut exec, &graph, &meta, vec![0]).0.unwrap();
    assert_eq!(f32s(&exec, 2), vec![2.0, 3.0]);
}

#[test]
fn windows_are_carried_from_step_to_step() {
    let row = |n: u32| {
        edge(vec![Dim::Symbolic(ShapeSymbol::T), Dim::Concrete(n)], DType::F32)
    };
    let graph = Graph {
        nodes: vec![node(conv_op(), &[0, 1], &[2])],
        edges: vec![row(1), edge(vec![Dim::Concrete(1), Dim::Concrete(2)], DType::F32), row(1)],
    };
    let mut exec = CpuExecutor::new();
    exec.bind(EdgeId(1), TypedBuffer::from_f32(&[1, 2], &[b(10.0), b(1.0)]));
    exec.bind(EdgeId(0), TypedBuffer::from_f32(&[1, 1], &[b(3.0)]));
    run(&mut exec, &graph, &batch(1, 1), vec![0]).0.unwrap();
    assert_eq!(f32s(&exec, 2), vec![3.0]);
    exec.bind(EdgeId(0), TypedBuffer::from_f32(&[1, 1], &[b(4.0)]));
    run(&mut exec, &graph, &batch(1, 1), vec![0]).0.unwrap();
    assert_eq!(f32s(&exec, 2), vec![34.0]);
    exec.bind(EdgeId(0), TypedBuffer::from_f32(&[1, 1], &[b(5.0)]));
    run(&mut exec, &graph, &batch(1, 1), vec![0]).0.unwrap();
    assert_eq!(f32s(&exec, 2), vec![45.0]);
}

#[test]
fn tokens_are_drawn() {
    let graph = Graph {
        nodes: vec![node(Op::Sample, &[0], &[1])],
        edges: vec![
            edge(vec![Dim::Symbolic(ShapeSymbol::S), Dim::Concrete(3)], DType::F32),
            edge(vec![Dim::Symbolic(ShapeSymbol::S)], DType::U32),
        ],
    };
    let mut exec = CpuExecutor::new();
    exec.bind(EdgeId(0), TypedBuffer::from_f32(&[2, 3], &[0; 6]));
    let (r, rng) = run(&mut exec, &graph, &batch(2, 2), vec![10, 20]);
    r.unwrap();
    assert_eq!(rng, vec![11, 21]);
    assert_eq!(exec.edge(EdgeId(1)).unwrap().to_u32_vec(), vec![7, 8]);
    let (r, rng) = run(&mut exec, &graph, &batch(2, 2), vec![10]);
    assert!(matches!(r, Err(ExecError::SamplingContext { node: 0, expected: 2, got: 1, s: 2, .. })));
    assert_eq!(rng, vec![10]);
}

#[test]
fn drafts_are_checked() {
    let graph = Graph {
        nodes: vec![node(Op::Verify(VerifyOp { method: VerifyMethod(6) }), &[0, 1], &[2, 3])],
        edges: vec![
            edge(vec![Dim::Concrete(1), Dim::Concrete(2)], DType::U32),
            edge(vec![Dim::Concrete(1), Dim::Concrete(3), Dim::Concrete(2)], DType::F32),
            edge(vec![Dim::Concrete(1), Dim::Concrete(3)], DType::U32),
            edge(vec![Dim::Concrete(1)], DType::U32),
        ],
    };
    let mut exec = CpuExecutor::new();
    exec.bind(EdgeId(0), TypedBuffer::from_u32(&[1, 2], &[1, 0]));
    exec.bind(EdgeId(1), TypedBuffer::from_f32(&[1, 3, 2], &[0; 6]));
    let mut meta = batch(1, 1);
    meta.tree = Some(TreeMask { t_max: 2, ancestors: vec![true, false] });
    let (r, rng) = run(&mut exec, &graph, &meta, vec![10]);
    r.unwrap();
    assert_eq!(rng, vec![12]);
    assert_eq!(exec.edge(EdgeId(2)).unwrap().to_u32_vec(), vec![4, 4, 4]);
    assert_eq!(exec.edge(EdgeId(3)).unwrap().to_u32_vec(), vec![1]);
}

#[test]
fn logits_are_postprocessed() {
    let logits = || edge(vec![Dim::Concrete(1), Dim::Concrete(1), Dim::Concrete(2)], DType::F32);
    let graph = Graph {
        nodes: vec![node(Op::LogitsPostprocess, &[0], &[1])],
        edges: vec![logits(), logits()],
    };
    let mut exec = CpuExecutor::new();
    exec.bind(EdgeId(0), TypedBuffer::from_f32(&[1, 1, 2], &[b(0.25), b(0.75)]));
    run(&mut exec, &graph, &batch(1, 1), vec![0]).0.unwrap();
    assert_eq!(f32s(&exec, 1), vec![0.25, 0.75]);
    let meta = batch(1, 1);
    let args = RunArgs { batch: &meta, params: &[2.0f32], ngram_hash: false };
    exec.run(&arith, &format, &add_one, &draw, &graph, &args, vec![0]).0.unwrap();
    assert_eq!(f32s(&exec, 1), vec![0.5, 1.5]);
    let args = RunArgs { batch: &meta, params: &[1.0f32, 1.0], ngram_hash: false };
    let (r, _) = exec.run(&arith, &format, &add_one, &draw, &graph, &args, vec![0]);
    assert!(matches!(
        r,
        Err(ExecError::SamplingContext { what: "params", expected: 1, got: 2, .. })
    ));
}

#[test]
fn device_gathers_need_a_hash() {
    let graph = Graph {
        nodes: vec![node(Op::NgramGather(NgramSource::Device), &[0], &[1])],
        edges: vec![plain(2), plain(2)],
    };
    let mut exec = CpuExecutor::new();
    exec.bind(EdgeId(0), TypedBuffer::from_f32(&[2], &[0, 0]));
    let (r, _) = run(&mut exec, &graph, &batch(1, 1), vec![0]);
    assert!(matches!(r, Err(ExecError::MissingNgramHash { node: 0 })));
    let meta = batch(1, 1);
    let args = RunArgs { batch: &meta, params: &[1.0f32], ngram_hash: true };
    let (r, _) = exec.run(&arith, &format, &add_one, &draw, &graph, &args, vec![0u64]);
    assert!(matches!(
        r,
        Err(ExecError::T0(T0Error::InvalidAttribute { op: "ngram_gather", .. }))
    ));
}

#[test]
fn failures_stop_a_run_and_publish_nothing() {
    let graph = Graph {
        nodes: vec![node(act(), &[0], &[1]), node(act(), &[], &[2])],
        edges: vec![plain(1), plain(1), plain(1)],
    };
    let mut exec = CpuExecutor::new();
    exec.bind(EdgeId(0), TypedBuffer::from_f32(&[1], &[0]));
    let (r, _) = run(&mut exec, &graph, &batch(1, 1), vec![0]);
    assert!(matches!(r, Err(ExecError::T0(T0Error::MissingOperand { operand: "x", .. }))));
    assert_eq!(f32s(&exec, 1), vec![1.0]);
    assert!(exec.edge(EdgeId(2)).is_none());
}

#[test]
fn scales_travel_with_their_edge() {
    fn scaled(
        _node: usize,
        inputs: &[TensorView<'_>],
        mut outputs: Vec<TypedBuffer>,
    ) -> Result<Vec<TypedBuffer>, T0Error> {
        let scale = inputs[0].scale().unwrap().read_f32(0);
        outputs[0].write_f32(0, scale);
        Ok(outputs)
    }
    let graph = Graph {
        nodes: vec![node(act(), &[0], &[1])],
        edges: vec![plain(1), plain(1), plain(1)],
    };
    let mut exec = CpuExecutor::new();
    exec.bind(EdgeId(0), TypedBuffer::from_f32(&[1], &[0]));
    exec.set_scale_edge(EdgeId(0), EdgeId(2));
    let meta = batch(1, 1);
    let args = RunArgs { batch: &meta, params: &[1.0f32], ngram_hash: false };
    let (r, _) = exec.run(&arith, &format, &scaled, &draw, &graph, &args, vec![0u64]);
    assert!(matches!(r, Err(ExecError::UnboundEdge { node: 0, edge: 2 })));
    exec.bind(EdgeId(2), TypedBuffer::from_f32(&[1], &[b(0.5)]));
    exec.run(&arith, &format, &scaled, &draw, &graph, &args, vec![0u64]).0.unwrap();
    assert_eq!(f32s(&exec, 1), vec![0.5]);
}

#[test]
fn problems_are_gathered() {
    assert!(ExecError::from_problems(Vec::new()).is_ok());
    assert!(matches!(
        ExecError::from_problems(vec![ExecError::MissingNgramHash { node: 4 }]),
        Err(ExecError::MissingNgramHash { node: 4 })
    ));
    let two = vec![ExecError::MissingNgramHash { node: 4 }, ExecError::MissingNgramHash { node: 5 }];
    match ExecError::from_problems(two) {
        Err(ExecError::Multiple { problems }) => assert_eq!(problems.len(), 2),
        _ => panic!("expected two problems"),
    }
}

#[test]
fn runs_repeat() {
    let graph = kv_graph();
    let mut ends = Vec::new();
    for _ in 0..2 {
        let mut exec = CpuExecutor::new();
        exec.register_paged_cache(
            handle(StateKind::KvPaged),
            KvPagedCache::new(1, 1, 1, 1, DType::F16).unwrap(),
        );
        exec.bind(EdgeId(0), TypedBuffer::from_f32(&[2, 1, 1], &[b(0.3), b(0.4)]));
        exec.bind(EdgeId(1), TypedBuffer::from_f32(&[2, 1, 1], &[b(2.0), b(4.0)]));
        run(&mut exec, &graph, &batch(1, 2), vec![0]).0.unwrap();
        ends.push(exec.edge(EdgeId(2)).unwrap().to_f32_vec());
    }
    assert_eq!(ends[0], ends[1]);
}

#[test]
fn latent_caches_are_registered() {
    let latent = StateHandle { layer: 3, kind: StateKind::KvLatent };
    let mut exec = CpuExecutor::new();
    exec.register_latent_cache(latent, KvLatentCache::new(1, 2, 1, DType::F16).unwrap());
    let write = Op::StateWriteKv(StateWriteKvOp {
        handle: latent,
        cache_dtype: DType::F16,
        scale_granularity: CacheScaleGranularity::PerTokenHead,
        latent: Some(LatentSpec { kv_lora_rank: 2, rope_dim: 1 }),
    });
    let part = |n: u32| {
        edge(
            vec![Dim::Symbolic(ShapeSymbol::T), Dim::Concrete(1), Dim::Concrete(n)],
            DType::F32,
        )
    };
    let graph =
        Graph { nodes: vec![node(write, &[0, 1], &[])], edges: vec![part(2), part(1)] };
    exec.bind(EdgeId(0), TypedBuffer::from_f32(&[1, 1, 2], &[b(1.0), b(2.0)]));
    exec.bind(EdgeId(1), TypedBuffer::from_f32(&[1, 1, 1], &[b(3.0)]));
    run(&mut exec, &graph, &batch(1, 1), vec![0]).0.unwrap();
}

#[test]
fn raw_words_are_read_exactly() {
    let bytes = [0xFFu8, 0xFF, 0xFF, 0xFF, 1, 0, 0, 1];
    let raw = TensorView::from_bytes(&[2], DType::U32, &bytes);
    assert_eq!(view_u32(&raw), vec![u32::MAX, 0x0100_0001]);
    let reals = [b(3.9), b(-1.0)];
    assert_eq!(view_u32(&TensorView::from_f32_slice(&[2], &reals)), vec![3, 0]);
}
