//! State that the executor keeps from step to step, and the operations that
//! touch it.
//!
//! Caches are registered. Scans keep two slots each, made on first use: one is
//! read and the other written, and a scan that succeeds swaps them.
use std::collections::BTreeMap;
use vstd::prelude::*;
use crate::arith::{is_arith, FloatOp};
use crate::attention::{attention, attention_output, attention_plan, AttentionOp};
use crate::batch::BatchMeta;
use crate::buffer::{
    dense, extent, shape_extent, Tensor, TensorView, TypedBuffer,
};
use crate::causal_conv1d::{causal_conv1d, conv_args, conv_fault};
use crate::check::{attr_error, dim_error, invalid_attr, dim_mismatch, overflow_error};
use crate::error::{quoting, quoting_shape, Arg, Detail, ErrorView, FormatError, T0Error};
use crate::exec_error::{ExecError, ExecFault};
use crate::exec_prepare::{all_wf, buffer_views, operands_of, Operand};
use crate::graph::Op;
use crate::ir::{DType, StateHandle, StateKind};
use crate::kv_cache::KvCache;
use crate::kv_latent::{state_write_kv, written_cache, CacheView};
use crate::kv_write::StateWriteKvOp;
use crate::linear_attn_scan::{
    linear_attn_scan_chunked, linear_attn_scan_recurrent, scan_args, scan_fault,
};
use crate::segments::SeqLayout;
use crate::weight::{is_format, FormatQuery};

verus! {

/// Key of a state: its layer and kind.
pub open spec fn key_of(handle: StateHandle) -> u64 {
    (handle.layer * 4 + match handle.kind {
        StateKind::KvPaged => 0int,
        StateKind::KvLatent => 1,
        StateKind::Recurrent => 2,
        StateKind::ConvWindow => 3,
    }) as u64
}

/// Key of a state.
pub fn state_key(handle: StateHandle) -> (r: u64)
    ensures
        r == key_of(handle),
{
    let tag: u64 = match handle.kind {
        StateKind::KvPaged => 0,
        StateKind::KvLatent => 1,
        StateKind::Recurrent => 2,
        StateKind::ConvWindow => 3,
    };
    handle.layer as u64 * 4 + tag
}

/// Different states have different keys.
pub proof fn law_keys_differ(a: StateHandle, b: StateHandle)
    requires
        key_of(a) == key_of(b),
    ensures
        a == b,
{
}

/// State from step to step.
pub struct ExecState {
    /// Caches.
    pub caches: BTreeMap<u64, KvCache>,
    /// First slots of scans.
    pub scan_a: BTreeMap<u64, TypedBuffer>,
    /// Second slots of scans.
    pub scan_b: BTreeMap<u64, TypedBuffer>,
    /// Whether a scan reads its second slot next.
    pub scan_flip: BTreeMap<u64, bool>,
    /// Groups of layers.
    pub groups: BTreeMap<u32, u32>,
}

/// Value of an [`ExecState`].
#[verifier::ext_equal]
pub struct StateView {
    /// Caches.
    pub caches: Map<u64, CacheView>,
    /// First slots of scans.
    pub scan_a: Map<u64, Tensor>,
    /// Second slots of scans.
    pub scan_b: Map<u64, Tensor>,
    /// Whether a scan reads its second slot next.
    pub flips: Map<u64, bool>,
    /// Groups of layers.
    pub groups: Map<u32, u32>,
}

/// Values of slots.
pub open spec fn slot_views(m: Map<u64, TypedBuffer>) -> Map<u64, Tensor> {
    Map::new(|k: u64| m.contains_key(k), |k: u64| m[k]@)
}

/// Values of caches.
pub open spec fn cache_views(m: Map<u64, KvCache>) -> Map<u64, CacheView> {
    Map::new(|k: u64| m.contains_key(k), |k: u64| m[k]@)
}

impl View for ExecState {
    type V = StateView;

    open spec fn view(&self) -> StateView {
        StateView {
            caches: cache_views(self.caches@),
            scan_a: slot_views(self.scan_a@),
            scan_b: slot_views(self.scan_b@),
            flips: self.scan_flip@,
            groups: self.groups@,
        }
    }
}

impl ExecState {
    /// Whether all caches and slots have the extents that they claim.
    pub open spec fn wf(&self) -> bool {
        &&& forall|k: u64| #[trigger] self.caches@.contains_key(k) ==> self.caches@[k].wf()
        &&& forall|k: u64| #[trigger] self.scan_a@.contains_key(k) ==> self.scan_a@[k].wf()
        &&& forall|k: u64| #[trigger] self.scan_b@.contains_key(k) ==> self.scan_b@[k].wf()
    }

    /// State without anything in it.
    pub fn new() -> (r: ExecState)
        ensures
            r.wf(),
            r@ == (StateView {
                caches: Map::empty(),
                scan_a: Map::empty(),
                scan_b: Map::empty(),
                flips: Map::empty(),
                groups: Map::empty(),
            }),
    {
        let r = ExecState {
            caches: BTreeMap::new(),
            scan_a: BTreeMap::new(),
            scan_b: BTreeMap::new(),
            scan_flip: BTreeMap::new(),
            groups: BTreeMap::new(),
        };
        assert(cache_views(r.caches@) =~= Map::empty());
        assert(slot_views(r.scan_a@) =~= Map::empty());
        assert(slot_views(r.scan_b@) =~= Map::empty());
        r
    }

    /// Puts a cache in place of the one that a handle names, if any.
    pub fn put_cache(&mut self, handle: StateHandle, cache: KvCache)
        requires
            old(self).wf(),
            cache.wf(),
        ensures
            final(self).wf(),
            final(self)@ == (StateView {
                caches: old(self)@.caches.insert(key_of(handle), cache@),
                ..old(self)@
            }),
    {
        broadcast use vstd::std_specs::btree::group_btree_axioms;

        let _ = self.caches.insert(state_key(handle), cache);
        assert(cache_views(self.caches@) =~= old(self)@.caches.insert(key_of(handle), cache@));
    }
}

/// Group of a layer for a batch: the only one, or the one assigned.
pub open spec fn group_of(
    assigned: Option<u32>,
    node: usize,
    handle: StateHandle,
    batch: BatchMeta,
) -> Result<u32, ExecFault> {
    if batch.num_groups == 1 {
        Ok(0)
    } else {
        match assigned {
            Some(g) => Ok(g),
            None => Err(
                ExecFault::UnknownGroup { node, layer: handle.layer, g: batch.num_groups },
            ),
        }
    }
}

/// Finds the group of a layer for a batch.
pub fn group_for(assigned: Option<u32>, node: usize, handle: StateHandle, batch: &BatchMeta) -> (r:
    Result<u32, ExecError>)
    ensures
        match group_of(assigned, node, handle, *batch) {
            Ok(g) => r == Ok::<u32, ExecError>(g),
            Err(e) => r is Err && r->Err_0.view() == e,
        },
{
    if batch.num_groups() == 1 {
        return Ok(0);
    }
    match assigned {
        Some(g) => Ok(g),
        None => Err(
            ExecError::UnknownGroup { node, layer: handle.layer, g: batch.num_groups() },
        ),
    }
}

/// Value of a key, if there is one.
pub open spec fn entry<V>(m: Map<u32, V>, k: u32) -> Option<V> {
    if m.contains_key(k) {
        Some(m[k])
    } else {
        None
    }
}

fn assigned_group(groups: &BTreeMap<u32, u32>, layer: u32) -> (r: Option<u32>)
    ensures
        r == entry(groups@, layer),
{
    broadcast use vstd::std_specs::btree::group_btree_axioms;

    match groups.get(&layer) {
        Some(g) => Some(*g),
        None => None,
    }
}

/// The error of a wrong number of inputs or outputs.
pub open spec fn arity_error(
    op: &'static str,
    attribute: &'static str,
    text: &'static str,
    args: Seq<Arg>,
) -> ExecFault {
    ExecFault::T0(attr_error(op, attribute, quoting(text, args)))
}

/// The error of an operation whose state is not there.
pub open spec fn no_state(node: usize, op: &'static str, handle: StateHandle) -> ExecFault {
    ExecFault::UnknownState { node, op, layer: handle.layer, kind: handle.kind }
}

/// The state after a cache write, or the error of the write.
pub open spec fn state_write_step<
    F: Fn(FloatOp, u32, u32) -> u32,
    G: Fn(FormatQuery) -> Result<u64, FormatError>,
>(
    f: F,
    g: G,
    node: usize,
    op: StateWriteKvOp,
    inputs: Seq<Operand>,
    batch: BatchMeta,
    state: StateView,
) -> Result<StateView, ExecFault> {
    let key = key_of(op.handle);
    if inputs.len() != 2 {
        Err(
            arity_error(
                "state_write_kv",
                "inputs",
                "state_write_kv requires 2 inputs (k, v), got {}",
                seq![Arg::Int(inputs.len() as u64)],
            ),
        )
    } else {
        match group_of(entry(state.groups, op.handle.layer), node, op.handle, batch) {
            Err(e) => Err(e),
            Ok(group) => if !state.caches.contains_key(key) {
                Err(no_state(node, "state_write_kv", op.handle))
            } else {
                match written_cache(
                    f,
                    g,
                    op,
                    inputs[0].tensor,
                    inputs[1].tensor,
                    batch,
                    group,
                    state.caches[key],
                ) {
                    Err(e) => Err(ExecFault::T0(e)),
                    Ok(c) => Ok(StateView { caches: state.caches.insert(key, c), ..state }),
                }
            },
        }
    }
}

/// Writes rows into a registered cache. An error leaves the state unchanged.
pub fn dispatch_state_write<
    F: Fn(FloatOp, u32, u32) -> u32,
    G: Fn(FormatQuery) -> Result<u64, FormatError>,
>(
    f: &F,
    g: &G,
    node: usize,
    op: &StateWriteKvOp,
    inputs: &[TensorView<'_>],
    batch: &BatchMeta,
    state: &mut ExecState,
) -> (r: Result<(), ExecError>)
    requires
        is_arith(*f),
        is_format(*g),
        batch.wf(),
        old(state).wf(),
    ensures
        match state_write_step(*f, *g, node, *op, operands_of(inputs@), *batch, old(state)@) {
            Err(e) => r is Err && r->Err_0.view() == e && final(state)@ == old(state)@,
            Ok(s) => r is Ok && final(state)@ == s,
        },
        final(state).wf(),
{
    broadcast use vstd::std_specs::btree::group_btree_axioms;

    if inputs.len() != 2 {
        let reason = Detail::one(
            "state_write_kv requires 2 inputs (k, v), got {}",
            Arg::Int(inputs.len() as u64),
        );
        return Err(ExecError::T0(invalid_attr("state_write_kv", "inputs", reason)));
    }
    let group: u32 = match group_for(
        assigned_group(&state.groups, op.handle.layer),
        node,
        op.handle,
        batch,
    ) {
        Ok(g) => g,
        Err(e) => {
            return Err(e);
        },
    };
    let key: u64 = state_key(op.handle);
    let mut cache = match state.caches.remove(&key) {
        Some(c) => c,
        None => {
            assert(cache_views(state.caches@) =~= old(state)@.caches);
            return Err(
                ExecError::UnknownState {
                    node,
                    op: "state_write_kv",
                    layer: op.handle.layer,
                    kind: op.handle.kind,
                },
            );
        },
    };
    assert(operands_of(inputs@)[0].tensor == inputs@[0]@);
    assert(operands_of(inputs@)[1].tensor == inputs@[1]@);
    assert(old(state)@.caches[key] == cache@);
    let r = state_write_kv(f, g, op, &inputs[0], &inputs[1], batch, group, &mut cache);
    let ghost after = cache@;
    let _ = state.caches.insert(key, cache);
    assert(cache_views(state.caches@) =~= old(state)@.caches.insert(key, after));
    match r {
        Ok(_) => Ok(()),
        Err(e) => {
            assert(old(state)@.caches.insert(key, after) =~= old(state)@.caches);
            Err(ExecError::T0(e))
        },
    }
}

/// The output of attention over a registered cache, or its error.
pub open spec fn attention_step<F: Fn(FloatOp, u32, u32) -> u32>(
    f: F,
    node: usize,
    op: AttentionOp,
    inputs: Seq<Operand>,
    outputs: Seq<Tensor>,
    batch: BatchMeta,
    state: StateView,
) -> Result<Seq<Tensor>, ExecFault> {
    let key = key_of(op.handle);
    if inputs.len() != 1 || outputs.len() != 1 {
        Err(
            arity_error(
                "attention",
                "inputs/outputs",
                "attention requires 1 input and 1 output, got {} inputs and {} outputs",
                seq![Arg::Int(inputs.len() as u64), Arg::Int(outputs.len() as u64)],
            ),
        )
    } else {
        match group_of(entry(state.groups, op.handle.layer), node, op.handle, batch) {
            Err(e) => Err(e),
            Ok(group) => if !state.caches.contains_key(key) {
                Err(no_state(node, "attention", op.handle))
            } else {
                let cache = state.caches[key];
                let q = inputs[0].tensor;
                match attention_plan(op, q, outputs[0], batch, group, cache) {
                    Err(e) => Err(ExecFault::T0(e)),
                    Ok(plans) => Ok(
                        seq![attention_output(f, op, q, outputs[0], cache, plans)],
                    ),
                }
            },
        }
    }
}

/// Attention over a registered cache.
pub fn dispatch_attention<F: Fn(FloatOp, u32, u32) -> u32>(
    f: &F,
    node: usize,
    op: &AttentionOp,
    inputs: &[TensorView<'_>],
    outputs: Vec<TypedBuffer>,
    batch: &BatchMeta,
    state: &ExecState,
) -> (r: Result<Vec<TypedBuffer>, ExecError>)
    requires
        is_arith(*f),
        batch.wf(),
        state.wf(),
        all_wf(outputs@),
    ensures
        match attention_step(
            *f,
            node,
            *op,
            operands_of(inputs@),
            buffer_views(outputs@),
            *batch,
            state@,
        ) {
            Err(e) => r is Err && r->Err_0.view() == e,
            Ok(t) => r is Ok && buffer_views(r->Ok_0@) == t && all_wf(r->Ok_0@),
        },
{
    broadcast use vstd::std_specs::btree::group_btree_axioms;

    let count: usize = outputs.len();
    if inputs.len() != 1 || count != 1 {
        let reason = Detail::two(
            "attention requires 1 input and 1 output, got {} inputs and {} outputs",
            Arg::Int(inputs.len() as u64),
            Arg::Int(count as u64),
        );
        return Err(ExecError::T0(invalid_attr("attention", "inputs/outputs", reason)));
    }
    let group: u32 = match group_for(
        assigned_group(&state.groups, op.handle.layer),
        node,
        op.handle,
        batch,
    ) {
        Ok(g) => g,
        Err(e) => {
            return Err(e);
        },
    };
    let key: u64 = state_key(op.handle);
    let cache = match state.caches.get(&key) {
        Some(c) => c,
        None => {
            return Err(
                ExecError::UnknownState {
                    node,
                    op: "attention",
                    layer: op.handle.layer,
                    kind: op.handle.kind,
                },
            );
        },
    };
    assert(operands_of(inputs@)[0].tensor == inputs@[0]@);
    let mut outputs = outputs;
    let ghost start = buffer_views(outputs@);
    let mut out = match outputs.pop() {
        Some(b) => b,
        None => {
            return Ok(outputs);
        },
    };
    assert(start[0] == out@);
    let r = run_attention(f, op, &inputs[0], batch, group, cache, &mut out);
    match r {
        Err(e) => Err(ExecError::T0(e)),
        Ok(_) => {
            let ghost done = out@;
            outputs.push(out);
            assert(buffer_views(outputs@) =~= seq![done]);
            Ok(outputs)
        },
    }
}

/// Attention into a buffer.
fn run_attention<F: Fn(FloatOp, u32, u32) -> u32>(
    f: &F,
    op: &AttentionOp,
    q: &TensorView<'_>,
    batch: &BatchMeta,
    group: u32,
    cache: &KvCache,
    out: &mut TypedBuffer,
) -> (r: Result<(), T0Error>)
    requires
        is_arith(*f),
        batch.wf(),
        cache.wf(),
        old(out).wf(),
    ensures
        match attention_plan(*op, q@, old(out)@, *batch, group, cache@) {
            Err(e) => r is Err && r->Err_0.view() == e,
            Ok(plans) => r is Ok && final(out)@ == attention_output(
                *f,
                *op,
                q@,
                old(out)@,
                cache@,
                plans,
            ) && final(out).wf(),
        },
{
    let mut view = out.as_view_mut();
    let r = attention(f, op, q, batch, group, cache, &mut view);
    let ghost done = view@;
    assert(out@ =~= done);
    r
}

/// Extent of a dimension, or zero if there is none.
pub open spec fn dim_or_zero(shape: Seq<usize>, i: int) -> usize {
    if i < shape.len() {
        shape[i]
    } else {
        0
    }
}

fn dim_at(shape: &[usize], i: usize) -> (r: usize)
    ensures
        r == dim_or_zero(shape@, i as int),
{
    if i < shape.len() {
        shape[i]
    } else {
        0
    }
}

/// The error of a scan that has too few inputs to derive its state from.
pub open spec fn few_inputs(op: &'static str, text: &'static str, node: usize) -> ExecFault {
    arity_error(op, "inputs", text, seq![Arg::Int(node as u64)])
}

/// State, shape and type of the slots of a scan.
pub open spec fn scan_form(node: usize, op: Op, inputs: Seq<Operand>, s: usize) -> Result<
    (StateHandle, Seq<usize>, DType),
    ExecFault,
> {
    match op {
        Op::CausalConv1d(conv) => if inputs.len() == 0 {
            Err(
                few_inputs(
                    "causal_conv1d",
                    "node {}: causal_conv1d requires 2 or 3 inputs",
                    node,
                ),
            )
        } else {
            let window = if conv.kernel == 0 {
                0usize
            } else {
                (conv.kernel - 1) as usize
            };
            Ok(
                (
                    conv.handle,
                    seq![s, window, dim_or_zero(inputs[0].tensor.shape, 1)],
                    DType::F16,
                ),
            )
        },
        Op::LinearAttnScan(scan) => if inputs.len() < 3 {
            Err(
                few_inputs(
                    "linear_attn_scan",
                    "node {}: linear_attn_scan requires 5 inputs",
                    node,
                ),
            )
        } else {
            let q = inputs[0].tensor.shape;
            let v = inputs[2].tensor.shape;
            Ok(
                (
                    scan.handle,
                    seq![s, dim_or_zero(q, 1), dim_or_zero(q, 2), dim_or_zero(v, 2)],
                    DType::F32,
                ),
            )
        },
        _ => Err(
            arity_error(op.name(), "op", "node {}: not a scan op", seq![Arg::Int(node as u64)]),
        ),
    }
}

/// Derives state, shape and type of the slots of a scan from its inputs.
pub fn scan_geometry(node: usize, op: &Op, inputs: &[TensorView<'_>], s: usize) -> (r: Result<
    (StateHandle, Vec<usize>, DType),
    ExecError,
>)
    ensures
        match scan_form(node, *op, operands_of(inputs@), s) {
            Err(e) => r is Err && r->Err_0.view() == e,
            Ok((handle, shape, dtype)) => r is Ok && r->Ok_0.0 == handle && r->Ok_0.1@ == shape
                && r->Ok_0.2 == dtype,
        },
{
    match op {
        Op::CausalConv1d(conv) => {
            if inputs.len() == 0 {
                let reason = Detail::one(
                    "node {}: causal_conv1d requires 2 or 3 inputs",
                    Arg::Int(node as u64),
                );
                return Err(ExecError::T0(invalid_attr("causal_conv1d", "inputs", reason)));
            }
            assert(operands_of(inputs@)[0].tensor == inputs@[0]@);
            let channels: usize = dim_at(inputs[0].shape(), 1);
            let window: usize = if conv.kernel == 0 {
                0
            } else {
                (conv.kernel - 1) as usize
            };
            let shape = vec![s, window, channels];
            assert(shape@ =~= seq![s, window, channels]);
            Ok((conv.handle, shape, DType::F16))
        },
        Op::LinearAttnScan(scan) => {
            if inputs.len() < 3 {
                let reason = Detail::one(
                    "node {}: linear_attn_scan requires 5 inputs",
                    Arg::Int(node as u64),
                );
                return Err(ExecError::T0(invalid_attr("linear_attn_scan", "inputs", reason)));
            }
            assert(operands_of(inputs@)[0].tensor == inputs@[0]@);
            assert(operands_of(inputs@)[2].tensor == inputs@[2]@);
            let h: usize = dim_at(inputs[0].shape(), 1);
            let d: usize = dim_at(inputs[0].shape(), 2);
            let dv: usize = dim_at(inputs[2].shape(), 2);
            let shape = vec![s, h, d, dv];
            assert(shape@ =~= seq![s, h, d, dv]);
            Ok((scan.handle, shape, DType::F32))
        },
        _ => {
            let reason = Detail::one("node {}: not a scan op", Arg::Int(node as u64));
            Err(ExecError::T0(invalid_attr(op.op_name(), "op", reason)))
        },
    }
}

/// Slots after one was made for a key, unless there is one. A slot of another
/// shape is an error.
pub open spec fn slots_with(
    slots: Map<u64, Tensor>,
    key: u64,
    name: &'static str,
    shape: Seq<usize>,
    dtype: DType,
) -> Result<Map<u64, Tensor>, ErrorView> {
    if slots.contains_key(key) {
        if slots[key].shape != shape {
            Err(
                dim_error(
                    "scan_state",
                    name,
                    extent(shape)->0,
                    "scan_state",
                    extent(slots[key].shape)->0,
                ),
            )
        } else {
            Ok(slots)
        }
    } else {
        match TypedBuffer::zeros_fault(shape, dtype) {
            Some(e) => Err(e),
            None => Ok(
                slots.insert(
                    key,
                    dense(shape, TypedBuffer::zero_cells(dtype, extent(shape)->0 as int)),
                ),
            ),
        }
    }
}

/// Whether two shapes are the same.
pub fn same_shape(a: &[usize], b: &[usize]) -> (r: bool)
    ensures
        r == (a@ == b@),
{
    if a.len() != b.len() {
        return false;
    }
    let mut i: usize = 0;
    while i < a.len()
        invariant
            i <= a@.len(),
            a@.len() == b@.len(),
            forall|j: int| 0 <= j < i ==> a@[j] == b@[j],
        decreases a@.len() - i,
    {
        if a[i] != b[i] {
            return false;
        }
        i += 1;
    }
    assert(a@ =~= b@);
    true
}

/// Makes a slot for a key, unless there is one.
fn ensure_slot(
    slots: &mut BTreeMap<u64, TypedBuffer>,
    key: u64,
    name: &'static str,
    shape: &[usize],
    dtype: DType,
    expected: usize,
) -> (r: Result<(), T0Error>)
    requires
        extent(shape@) == Some(expected),
        forall|k: u64| #[trigger] old(slots)@.contains_key(k) ==> old(slots)@[k].wf(),
    ensures
        match slots_with(slot_views(old(slots)@), key, name, shape@, dtype) {
            Err(e) => r is Err && r->Err_0.view() == e && final(slots)@ == old(slots)@,
            Ok(s) => r is Ok && slot_views(final(slots)@) == s && final(slots)@.contains_key(key),
        },
        forall|k: u64| #[trigger] final(slots)@.contains_key(k) ==> final(slots)@[k].wf(),
{
    broadcast use vstd::std_specs::btree::group_btree_axioms;

    match slots.get(&key) {
        Some(b) => {
            assert(slot_views(slots@)[key] == b@);
            if same_shape(b.shape(), shape) {
                Ok(())
            } else {
                Err(dim_mismatch("scan_state", name, expected, "scan_state", b.num_elements()))
            }
        },
        None => match TypedBuffer::try_zeros(shape, dtype) {
            Err(e) => Err(e),
            Ok(b) => {
                let ghost fresh = b@;
                let _ = slots.insert(key, b);
                assert(slot_views(slots@) =~= slot_views(old(slots)@).insert(key, fresh));
                Ok(())
            },
        },
    }
}

/// State with both slots of a scan made, unless they are there, and the error
/// if one has another shape.
pub open spec fn with_slots(state: StateView, key: u64, shape: Seq<usize>, dtype: DType) -> (
    StateView,
    Option<ErrorView>,
) {
    match extent(shape) {
        None => (
            state,
            Some(
                overflow_error(
                    "scan_state",
                    quoting_shape("state shape {dims} element product overflows usize", shape),
                ),
            ),
        ),
        Some(_) => match slots_with(state.scan_a, key, "A", shape, dtype) {
            Err(e) => (state, Some(e)),
            Ok(a) => {
                let half = StateView { scan_a: a, ..state };
                match slots_with(state.scan_b, key, "B", shape, dtype) {
                    Err(e) => (half, Some(e)),
                    Ok(b) => (StateView { scan_b: b, ..half }, None),
                }
            },
        },
    }
}

/// Makes both slots of a scan, unless they are there.
pub fn ensure_scan_slots(key: u64, shape: &[usize], dtype: DType, state: &mut ExecState) -> (r:
    Result<(), ExecError>)
    requires
        old(state).wf(),
    ensures
        final(state).wf(),
        final(state)@ == with_slots(old(state)@, key, shape@, dtype).0,
        match with_slots(old(state)@, key, shape@, dtype).1 {
            Some(e) => r is Err && r->Err_0.view() == ExecFault::T0(e),
            None => r is Ok && final(state).scan_a@.contains_key(key)
                && final(state).scan_b@.contains_key(key),
        },
{
    let expected: usize = match shape_extent(shape) {
        Some(n) => n,
        None => {
            let detail = Detail::shape(
                "state shape {dims} element product overflows usize",
                shape,
            );
            return Err(
                ExecError::T0(T0Error::ArithmeticOverflow { op: "scan_state", detail }),
            );
        },
    };
    match ensure_slot(&mut state.scan_a, key, "A", shape, dtype, expected) {
        Ok(_) => {},
        Err(e) => {
            return Err(ExecError::T0(e));
        },
    }
    match ensure_slot(&mut state.scan_b, key, "B", shape, dtype, expected) {
        Ok(_) => Ok(()),
        Err(e) => Err(ExecError::T0(e)),
    }
}

/// Output and new state of a scan, or its error.
#[verifier::opaque]
pub open spec fn scan_result<F: Fn(FloatOp, u32, u32) -> u32>(
    f: F,
    op: Op,
    inputs: Seq<Operand>,
    state_in: Tensor,
    lens: Seq<u32>,
    out: Tensor,
    state_out: Tensor,
) -> Result<(Tensor, Tensor), ErrorView> {
    match op {
        Op::CausalConv1d(conv) => if inputs.len() < 2 || inputs.len() > 3 {
            Err(
                attr_error(
                    "causal_conv1d",
                    "inputs",
                    quoting(
                        "causal_conv1d requires 2 or 3 inputs, got {}",
                        seq![Arg::Int(inputs.len() as u64)],
                    ),
                ),
            )
        } else {
            let x = inputs[0].tensor;
            let w = inputs[1].tensor;
            let bias = if inputs.len() == 3 {
                Some(inputs[2].tensor)
            } else {
                None
            };
            match conv_fault(conv, x, w, bias, state_in, lens, out, state_out) {
                Some(e) => Err(e),
                None => {
                    let a = conv_args(conv, x, w, bias, state_in, lens);
                    Ok(
                        (
                            out.with_cells(out.cells.with_f32s(a.outputs(f))),
                            state_out.with_cells(state_out.cells.with_f32s(a.windows())),
                        ),
                    )
                },
            }
        },
        Op::LinearAttnScan(scan) => if inputs.len() != 5 {
            Err(
                attr_error(
                    "linear_attn_scan",
                    "inputs",
                    quoting(
                        "linear_attn_scan requires 5 inputs, got {}",
                        seq![Arg::Int(inputs.len() as u64)],
                    ),
                ),
            )
        } else {
            let q = inputs[0].tensor;
            let k = inputs[1].tensor;
            let v = inputs[2].tensor;
            let alpha = inputs[3].tensor;
            let beta = inputs[4].tensor;
            match scan_fault(scan, q, k, v, alpha, beta, state_in, lens, out, state_out) {
                Some(e) => Err(e),
                None => {
                    let a = scan_args(q, k, v, alpha, beta, state_in, lens);
                    Ok(
                        (
                            out.with_cells(out.cells.with_f32s(a.outputs(f))),
                            state_out.with_cells(state_out.cells.with_f32s(a.states(f))),
                        ),
                    )
                },
            }
        },
        _ => Err(attr_error("executor", "op", quoting("not a scan op", Seq::empty()))),
    }
}

/// Runs a convolution into buffers.
fn run_conv<F: Fn(FloatOp, u32, u32) -> u32>(
    f: &F,
    op: &Op,
    inputs: &[TensorView<'_>],
    state_in: &TypedBuffer,
    seq: &SeqLayout,
    out: &mut TypedBuffer,
    state_out: &mut TypedBuffer,
) -> (r: Result<(), T0Error>)
    requires
        is_arith(*f),
        *op is CausalConv1d,
        old(out).wf(),
        old(state_out).wf(),
    ensures
        match scan_result(
            *f,
            *op,
            operands_of(inputs@),
            state_in@,
            seq.seq_lens@,
            old(out)@,
            old(state_out)@,
        ) {
            Err(e) => r is Err && r->Err_0.view() == e && final(state_out)@ == old(state_out)@,
            Ok((o, s)) => r is Ok && final(out)@ == o && final(state_out)@ == s,
        },
        final(out).wf(),
        final(state_out).wf(),
{
    proof {
        reveal(scan_result);
    }
    if inputs.len() < 2 || inputs.len() > 3 {
        let reason = Detail::one(
            "causal_conv1d requires 2 or 3 inputs, got {}",
            Arg::Int(inputs.len() as u64),
        );
        return Err(invalid_attr("causal_conv1d", "inputs", reason));
    }
    let conv = match op {
        Op::CausalConv1d(c) => *c,
        _ => {
            return Ok(());
        },
    };
    assert(forall|i: int|
        0 <= i < inputs@.len() ==> (#[trigger] operands_of(inputs@)[i]).tensor == inputs@[i]@);
    let bias: Option<&TensorView<'_>> = if inputs.len() == 3 {
        Some(&inputs[2])
    } else {
        None
    };
    let state_view = state_in.as_view();
    let mut out_view = out.as_view_mut();
    let mut next = state_out.as_view_mut();
    let r = causal_conv1d(
        f,
        &conv,
        &inputs[0],
        &inputs[1],
        bias,
        &state_view,
        seq,
        &mut out_view,
        &mut next,
    );
    let ghost done = out_view@;
    let ghost after = next@;
    assert(out@ =~= done);
    assert(state_out@ =~= after);
    r
}

/// Runs a scan of linear attention into buffers.
fn run_linear<F: Fn(FloatOp, u32, u32) -> u32>(
    f: &F,
    op: &Op,
    inputs: &[TensorView<'_>],
    state_in: &TypedBuffer,
    seq: &SeqLayout,
    chunked: bool,
    out: &mut TypedBuffer,
    state_out: &mut TypedBuffer,
) -> (r: Result<(), T0Error>)
    requires
        is_arith(*f),
        *op is LinearAttnScan,
        old(out).wf(),
        old(state_out).wf(),
    ensures
        match scan_result(
            *f,
            *op,
            operands_of(inputs@),
            state_in@,
            seq.seq_lens@,
            old(out)@,
            old(state_out)@,
        ) {
            Err(e) => r is Err && r->Err_0.view() == e && final(state_out)@ == old(state_out)@,
            Ok((o, s)) => r is Ok && final(out)@ == o && final(state_out)@ == s,
        },
        final(out).wf(),
        final(state_out).wf(),
{
    proof {
        reveal(scan_result);
    }
    if inputs.len() != 5 {
        let reason = Detail::one(
            "linear_attn_scan requires 5 inputs, got {}",
            Arg::Int(inputs.len() as u64),
        );
        return Err(invalid_attr("linear_attn_scan", "inputs", reason));
    }
    let scan = match op {
        Op::LinearAttnScan(s) => *s,
        _ => {
            return Ok(());
        },
    };
    assert(forall|i: int|
        0 <= i < inputs@.len() ==> (#[trigger] operands_of(inputs@)[i]).tensor == inputs@[i]@);
    let state_view = state_in.as_view();
    let mut out_view = out.as_view_mut();
    let mut next = state_out.as_view_mut();
    let r = if chunked {
        linear_attn_scan_chunked(
            f,
            &scan,
            &inputs[0],
            &inputs[1],
            &inputs[2],
            &inputs[3],
            &inputs[4],
            &state_view,
            seq,
            &mut out_view,
            &mut next,
        )
    } else {
        linear_attn_scan_recurrent(
            f,
            &scan,
            &inputs[0],
            &inputs[1],
            &inputs[2],
            &inputs[3],
            &inputs[4],
            &state_view,
            seq,
            &mut out_view,
            &mut next,
        )
    };
    let ghost done = out_view@;
    let ghost after = next@;
    assert(out@ =~= done);
    assert(state_out@ =~= after);
    r
}

/// State and output after a scan. The slots are made before it runs, and swapped
/// only if it succeeds.
pub open spec fn scan_step<F: Fn(FloatOp, u32, u32) -> u32>(
    f: F,
    node: usize,
    op: Op,
    inputs: Seq<Operand>,
    outputs: Seq<Tensor>,
    batch: BatchMeta,
    state: StateView,
) -> (StateView, Result<Seq<Tensor>, ExecFault>) {
    if outputs.len() != 1 {
        (
            state,
            Err(
                arity_error(
                    op.name(),
                    "outputs",
                    "scan ops require 1 output, got {}",
                    seq![Arg::Int(outputs.len() as u64)],
                ),
            ),
        )
    } else {
        match scan_form(node, op, inputs, batch.ctx_len@.len() as usize) {
            Err(e) => (state, Err(e)),
            Ok((handle, shape, dtype)) => {
                let key = key_of(handle);
                let (made, fault) = with_slots(state, key, shape, dtype);
                match fault {
                    Some(e) => (made, Err(ExecFault::T0(e))),
                    None => {
                        let flip = made.flips.contains_key(key) && made.flips[key];
                        let (read, write) = if flip {
                            (made.scan_b[key], made.scan_a[key])
                        } else {
                            (made.scan_a[key], made.scan_b[key])
                        };
                        match scan_result(
                            f,
                            op,
                            inputs,
                            read,
                            batch.query_len@,
                            outputs[0],
                            write,
                        ) {
                            Err(e) => (made, Err(ExecFault::T0(e))),
                            Ok((o, s)) => {
                                let flips = made.flips.insert(key, !flip);
                                let next = if flip {
                                    StateView { scan_a: made.scan_a.insert(key, s), flips, ..made }
                                } else {
                                    StateView { scan_b: made.scan_b.insert(key, s), flips, ..made }
                                };
                                (next, Ok(seq![o]))
                            },
                        }
                    },
                }
            },
        }
    }
}

/// Runs either kind of scan into buffers.
fn run_scan_op<F: Fn(FloatOp, u32, u32) -> u32>(
    f: &F,
    op: &Op,
    inputs: &[TensorView<'_>],
    state_in: &TypedBuffer,
    seq: &SeqLayout,
    chunked: bool,
    out: &mut TypedBuffer,
    state_out: &mut TypedBuffer,
) -> (r: Result<(), T0Error>)
    requires
        is_arith(*f),
        *op is LinearAttnScan || *op is CausalConv1d,
        old(out).wf(),
        old(state_out).wf(),
    ensures
        match scan_result(
            *f,
            *op,
            operands_of(inputs@),
            state_in@,
            seq.seq_lens@,
            old(out)@,
            old(state_out)@,
        ) {
            Err(e) => r is Err && r->Err_0.view() == e && final(state_out)@ == old(state_out)@,
            Ok((o, s)) => r is Ok && final(out)@ == o && final(state_out)@ == s,
        },
        final(out).wf(),
        final(state_out).wf(),
{
    match op {
        Op::CausalConv1d(_) => run_conv(f, op, inputs, state_in, seq, out, state_out),
        _ => run_linear(f, op, inputs, state_in, seq, chunked, out, state_out),
    }
}

/// Runs a scan with the first given slots to read and the others to write.
fn scan_slots<F: Fn(FloatOp, u32, u32) -> u32>(
    f: &F,
    key: u64,
    op: &Op,
    inputs: &[TensorView<'_>],
    read: &BTreeMap<u64, TypedBuffer>,
    write: &mut BTreeMap<u64, TypedBuffer>,
    seq: &SeqLayout,
    chunked: bool,
    out: &mut TypedBuffer,
) -> (r: Result<(), T0Error>)
    requires
        is_arith(*f),
        *op is LinearAttnScan || *op is CausalConv1d,
        read@.contains_key(key),
        old(write)@.contains_key(key),
        forall|k: u64| #[trigger] old(write)@.contains_key(k) ==> old(write)@[k].wf(),
        old(out).wf(),
    ensures
        match scan_result(
            *f,
            *op,
            operands_of(inputs@),
            read@[key]@,
            seq.seq_lens@,
            old(out)@,
            old(write)@[key]@,
        ) {
            Err(e) => r is Err && r->Err_0.view() == e && slot_views(final(write)@) == slot_views(
                old(write)@,
            ),
            Ok((o, s)) => r is Ok && final(out)@ == o && slot_views(final(write)@) == slot_views(
                old(write)@,
            ).insert(key, s),
        },
        final(out).wf(),
        forall|k: u64| #[trigger] final(write)@.contains_key(k) ==> final(write)@[k].wf(),
{
    broadcast use vstd::std_specs::btree::group_btree_axioms;

    let state_in = match read.get(&key) {
        Some(b) => b,
        None => {
            return Ok(());
        },
    };
    let mut state_out = match write.remove(&key) {
        Some(b) => b,
        None => {
            return Ok(());
        },
    };
    let r = run_scan_op(f, op, inputs, state_in, seq, chunked, out, &mut state_out);
    let ghost after = state_out@;
    let _ = write.insert(key, state_out);
    assert(slot_views(write@) =~= slot_views(old(write)@).insert(key, after));
    assert(slot_views(old(write)@).insert(key, old(write)@[key]@) =~= slot_views(old(write)@));
    r
}

/// Whether a sequence is long enough to be scanned in chunks.
fn any_long(lens: &Vec<u32>) -> (r: bool)
    ensures
        r == exists|i: int| 0 <= i < lens@.len() && #[trigger] lens@[i] >= 32,
{
    let mut i: usize = 0;
    while i < lens.len()
        invariant
            i <= lens@.len(),
            forall|j: int| 0 <= j < i ==> (#[trigger] lens@[j]) < 32,
        decreases lens@.len() - i,
    {
        if lens[i] >= 32 {
            return true;
        }
        i += 1;
    }
    false
}

fn copy_lens(lens: &Vec<u32>) -> (r: Vec<u32>)
    ensures
        r@ == lens@,
{
    let mut r: Vec<u32> = Vec::new();
    let mut i: usize = 0;
    while i < lens.len()
        invariant
            i <= lens@.len(),
            r@ =~= lens@.take(i as int),
        decreases lens@.len() - i,
    {
        r.push(lens[i]);
        i += 1;
    }
    assert(r@ =~= lens@);
    r
}

/// Runs a scan over its slots.
pub fn dispatch_scan<F: Fn(FloatOp, u32, u32) -> u32>(
    f: &F,
    node: usize,
    op: &Op,
    inputs: &[TensorView<'_>],
    outputs: Vec<TypedBuffer>,
    batch: &BatchMeta,
    state: &mut ExecState,
) -> (r: Result<Vec<TypedBuffer>, ExecError>)
    requires
        is_arith(*f),
        *op is LinearAttnScan || *op is CausalConv1d,
        old(state).wf(),
        all_wf(outputs@),
    ensures
        ({
            let (next, result) = scan_step(
                *f,
                node,
                *op,
                operands_of(inputs@),
                buffer_views(outputs@),
                *batch,
                old(state)@,
            );
            &&& final(state)@ == next
            &&& match result {
                Err(e) => r is Err && r->Err_0.view() == e,
                Ok(t) => r is Ok && buffer_views(r->Ok_0@) == t && all_wf(r->Ok_0@),
            }
        }),
        final(state).wf(),
{
    broadcast use vstd::std_specs::btree::group_btree_axioms;

    let count: usize = outputs.len();
    if count != 1 {
        let reason = Detail::one("scan ops require 1 output, got {}", Arg::Int(count as u64));
        return Err(ExecError::T0(invalid_attr(op.op_name(), "outputs", reason)));
    }
    let (handle, shape, dtype) = match scan_geometry(node, op, inputs, batch.num_seqs()) {
        Ok(g) => g,
        Err(e) => {
            return Err(e);
        },
    };
    let key: u64 = state_key(handle);
    match ensure_scan_slots(key, shape.as_slice(), dtype, state) {
        Ok(_) => {},
        Err(e) => {
            return Err(e);
        },
    }
    let ghost made = state@;
    let flip: bool = match state.scan_flip.get(&key) {
        Some(b) => *b,
        None => false,
    };
    let chunked: bool = any_long(&batch.query_len);
    let seq = SeqLayout::new(copy_lens(&batch.query_len));
    let mut outputs = outputs;
    let ghost start = buffer_views(outputs@);
    let mut out = match outputs.pop() {
        Some(b) => b,
        None => {
            return Ok(outputs);
        },
    };
    assert(start[0] == out@);
    let r = if flip {
        scan_slots(
            f,
            key,
            op,
            inputs,
            &state.scan_b,
            &mut state.scan_a,
            &seq,
            chunked,
            &mut out,
        )
    } else {
        scan_slots(
            f,
            key,
            op,
            inputs,
            &state.scan_a,
            &mut state.scan_b,
            &seq,
            chunked,
            &mut out,
        )
    };
    match r {
        Err(e) => {
            assert(state@ =~= made);
            Err(ExecError::T0(e))
        },
        Ok(_) => {
            let _ = state.scan_flip.insert(key, !flip);
            let ghost done = out@;
            outputs.push(out);
            assert(buffer_views(outputs@) =~= seq![done]);
            Ok(outputs)
        },
    }
}

} // verus!
