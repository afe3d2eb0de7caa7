//! Which operands an op accepts.
use vstd::prelude::*;
use crate::act_mul::{act_mul_fault, ActMulOp};
use crate::activation::{activation_fault, lemma_no_disagreement, ActivationOp};
use crate::attention::{
    attention_faults, attribute_faults, paged_attention_faults, AttentionMask, AttentionOp,
};
use crate::batch::BatchMeta;
use crate::buffer::{extent, Cells, Tensor};
use crate::causal_conv1d::{conv_fault, CausalConv1dOp};
use crate::check::{
    attr_error, clear, dim_error, dim_faults, dtype_faults, float_faults, given, is_float,
    rank_faults, row_major_faults,
};
use crate::copy::copy_fault;
use crate::dtype::{byte_len, is_finite};
use crate::error::{
    dim_disagreements, quoting, shape_disagreements, Arg, ErrorView, FormatError,
};
use crate::gather_rows::{gather_fault, index_faults};
use crate::ir::{DType, LayoutId, QuantScheme, SchemeId, StateKind};
use crate::kv_write::and_fault;
use crate::linear_attn_scan::{gate_fault, gate_faults, scan_fault, LinearAttnScanOp};
use crate::logit_softcap::{softcap_fault, LogitSoftcapOp};
use crate::matmul::{
    matmul_dim_faults, matmul_fault, matmul_form_faults, x_scale_value_fault, MatmulOp,
};
use crate::segments::total;
use crate::weight::FormatQuery;

verus! {

/// Whether the storage of a tensor can be that of a program.
pub open spec fn is_real(t: Tensor) -> bool {
    t.cells.len() <= usize::MAX
}

/// Whether a tensor has room for the elements of its shape.
pub open spec fn has_room(t: Tensor) -> bool {
    match extent(t.shape) {
        None => false,
        Some(n) => match t.cells {
            Cells::F32(s) => n <= s.len(),
            Cells::F16(s) => n <= s.len(),
            Cells::Bf16(s) => n <= s.len(),
            Cells::I8(s) => n <= s.len(),
            Cells::U32(s) => n <= s.len(),
            Cells::Bytes(dtype, s) => byte_len(dtype, n as int) <= s.len(),
        },
    }
}

/// Whether a type is half precision, bfloat16 or single precision.
pub open spec fn is_floating(d: DType) -> bool {
    d == DType::F16 || d == DType::Bf16 || d == DType::F32
}

/// Whether a layout stores row after row.
pub open spec fn stores_rows(l: LayoutId) -> bool {
    l == LayoutId::Contiguous || l == LayoutId::L0
}

/// Whether a number is finite and greater than zero.
pub open spec fn is_positive(v: u32) -> bool {
    0 < v < 0x7F80_0000
}

/// Whether a number is neither infinite nor NaN.
pub open spec fn is_number(v: u32) -> bool {
    v % 0x8000_0000 < 0x7F80_0000
}

/// Equal shapes do not disagree.
proof fn lemma_agree(tensor: &'static str, from: &'static str, a: Seq<usize>, n: int)
    ensures
        dim_disagreements(tensor, from, a, a, n).len() == 0,
    decreases n,
{
    if n > 0 {
        lemma_agree(tensor, from, a, n - 1);
    }
}

/// Shapes disagree exactly if they differ.
proof fn lemma_shapes(tensor: &'static str, from: &'static str, a: Seq<usize>, b: Seq<usize>)
    ensures
        shape_disagreements(tensor, from, a, b).len() == 0 <==> a == b,
{
    lemma_agree(tensor, from, a, a.len() as int);
    if shape_disagreements(tensor, from, a, b).len() == 0 {
        lemma_no_disagreement(tensor, from, a, b);
    }
}

/// Storage that is too short is refused.
pub proof fn lemma_room(t: Tensor, tensor: &'static str)
    requires
        is_real(t),
    ensures
        t.backing_fault(tensor) is None <==> has_room(t),
{
}

/// An activation takes a matrix of floating-point numbers and gives one of the
/// same shape and type; a bound on its results is finite and positive.
pub proof fn law_activation_accepts(op: ActivationOp, x: Tensor, y: Tensor)
    requires
        is_real(x),
        is_real(y),
    ensures
        activation_fault(op, x, y) is None <==> {
            &&& has_room(x)
            &&& has_room(y)
            &&& x.shape.len() == 2
            &&& y.shape == x.shape
            &&& is_floating(x.cells.dtype())
            &&& y.cells.dtype() == x.cells.dtype()
            &&& op.clamp matches Some(c) ==> is_positive(c)
        },
{
    lemma_room(x, "x");
    lemma_room(y, "y");
    lemma_shapes("y", "x", y.shape, x.shape);
}

/// A gated product takes two matrices of floating-point numbers and gives one,
/// all of one shape and type; a bound is finite and positive.
pub proof fn law_act_mul_accepts(op: ActMulOp, gate: Tensor, up: Tensor, y: Tensor)
    requires
        is_real(gate),
        is_real(up),
        is_real(y),
    ensures
        act_mul_fault(op, gate, up, y) is None <==> {
            &&& has_room(gate)
            &&& has_room(up)
            &&& has_room(y)
            &&& gate.shape.len() == 2
            &&& up.shape == gate.shape
            &&& y.shape == gate.shape
            &&& is_floating(gate.cells.dtype())
            &&& up.cells.dtype() == gate.cells.dtype()
            &&& y.cells.dtype() == gate.cells.dtype()
            &&& op.clamp matches Some(c) ==> is_positive(c)
        },
{
    lemma_room(gate, "gate");
    lemma_room(up, "up");
    lemma_room(y, "y");
    lemma_shapes("up", "gate", up.shape, gate.shape);
    lemma_shapes("y", "gate", y.shape, gate.shape);
}

/// A soft cap takes a matrix of singles and gives one of the same shape; the cap
/// is finite and positive.
pub proof fn law_softcap_accepts(op: LogitSoftcapOp, x: Tensor, y: Tensor)
    requires
        is_real(x),
        is_real(y),
    ensures
        softcap_fault(op, x, y) is None <==> {
            &&& has_room(x)
            &&& has_room(y)
            &&& is_positive(op.cap)
            &&& x.shape.len() == 2
            &&& y.shape == x.shape
            &&& x.cells.dtype() == DType::F32
            &&& y.cells.dtype() == DType::F32
        },
{
    lemma_room(x, "x");
    lemma_room(y, "y");
    lemma_shapes("y", "x", y.shape, x.shape);
}

/// A copy takes any tensor and gives one of the same shape and type.
pub proof fn law_copy_accepts(x: Tensor, y: Tensor)
    requires
        is_real(x),
        is_real(y),
    ensures
        copy_fault(x, y) is None <==> {
            &&& has_room(x)
            &&& has_room(y)
            &&& y.shape == x.shape
            &&& y.cells.dtype() == x.cells.dtype()
        },
{
    lemma_room(x, "x");
    lemma_room(y, "y");
    lemma_shapes("y", "x", y.shape, x.shape);
}

/// Indices are refused exactly if one is too large.
proof fn lemma_indices(indices: Tensor, n: usize, k: int)
    ensures
        index_faults(indices, n, k).len() == 0 <==> forall|i: int|
            0 <= i < k ==> #[trigger] indices.u32_at(i) < n,
    decreases k,
{
    if k > 0 {
        lemma_indices(indices, n, k - 1);
    }
}

/// A gather takes a matrix of floating-point numbers and indices of its rows, and
/// gives a row for each index. No extent is zero or longer than 32 bits.
pub proof fn law_gather_accepts(x: Tensor, indices: Tensor, y: Tensor)
    requires
        is_real(x),
        is_real(indices),
        is_real(y),
    ensures
        gather_fault(x, indices, y) is None <==> {
            &&& has_room(x)
            &&& has_room(indices)
            &&& has_room(y)
            &&& x.shape.len() == 2
            &&& indices.shape.len() == 1
            &&& y.shape.len() == 2
            &&& stores_rows(x.layout)
            &&& stores_rows(indices.layout)
            &&& stores_rows(y.layout)
            &&& is_floating(x.cells.dtype())
            &&& indices.cells.dtype() == DType::U32
            &&& y.cells.dtype() == x.cells.dtype()
            &&& 0 < x.shape[0] <= u32::MAX
            &&& 0 < x.shape[1] <= u32::MAX
            &&& 0 < indices.shape[0] <= u32::MAX
            &&& y.shape[0] == indices.shape[0]
            &&& y.shape[1] == x.shape[1]
            &&& forall|i: int|
                0 <= i < indices.shape[0] ==> #[trigger] indices.u32_at(i) < x.shape[0]
        },
{
    lemma_room(x, "x");
    lemma_room(indices, "indices");
    lemma_room(y, "y");
    lemma_indices(indices, x.shape[0], indices.shape[0] as int);
}

/// A convolution takes rows of channels and a window of weights for each channel,
/// and states of one row less than the window for each sequence. The sequences
/// share the rows out.
#[verifier::spinoff_prover]
#[verifier::rlimit(60)]
pub proof fn law_conv_accepts(
    op: CausalConv1dOp,
    x: Tensor,
    w: Tensor,
    bias: Option<Tensor>,
    state_in: Tensor,
    lens: Seq<u32>,
    y: Tensor,
    state_out: Tensor,
)
    requires
        is_real(x),
        is_real(w),
        bias is Some ==> is_real(bias->0),
        is_real(state_in),
        is_real(y),
        is_real(state_out),
        lens.len() <= usize::MAX,
    ensures
        conv_fault(op, x, w, bias, state_in, lens, y, state_out) is None <==> {
            &&& has_room(x) && has_room(w) && has_room(state_in) && has_room(y) && has_room(
                state_out,
            )
            &&& x.shape.len() == 2 && w.shape.len() == 2 && y.shape.len() == 2
            &&& state_in.shape.len() == 3 && state_out.shape.len() == 3
            &&& stores_rows(x.layout) && stores_rows(w.layout) && stores_rows(state_in.layout)
            &&& stores_rows(y.layout) && stores_rows(state_out.layout)
            &&& is_floating(x.cells.dtype()) && is_floating(w.cells.dtype())
            &&& state_in.cells.dtype() == DType::F16 && state_out.cells.dtype() == DType::F16
            &&& y.cells.dtype() == x.cells.dtype()
            &&& op.kernel > 0
            &&& op.handle.kind == StateKind::ConvWindow
            &&& 0 < x.shape[0] <= u32::MAX
            &&& 0 < x.shape[1] <= u32::MAX
            &&& lens.len() <= u32::MAX
            &&& total(lens) == x.shape[0]
            &&& w.shape[0] == x.shape[1] && w.shape[1] == op.kernel
            &&& y.shape[0] == x.shape[0] && y.shape[1] == x.shape[1]
            &&& state_in.shape[0] == lens.len() && state_out.shape[0] == lens.len()
            &&& state_in.shape[1] == op.kernel - 1 && state_out.shape[1] == op.kernel - 1
            &&& state_in.shape[2] == x.shape[1] && state_out.shape[2] == x.shape[1]
            &&& bias matches Some(b) ==> {
                &&& has_room(b)
                &&& b.shape.len() == 1
                &&& b.shape[0] == x.shape[1]
                &&& stores_rows(b.layout)
                &&& is_floating(b.cells.dtype())
            }
        },
{
    reveal(conv_fault);
    lemma_room(x, "x");
    lemma_room(w, "w");
    lemma_room(state_in, "state_in");
    lemma_room(y, "y");
    lemma_room(state_out, "state_out");
    if bias is Some {
        lemma_room(bias->0, "bias");
    }
}

/// A number is finite exactly if its exponent is not the largest.
pub proof fn lemma_number(v: u32)
    ensures
        is_number(v) <==> is_finite(v),
{
    let e = v as int / 0x80_0000;
    assert(0 <= e < 0x200);
    assert(v as int / 0x8000_0000 == e / 0x100);
    if e < 0x100 {
        assert(v as int % 0x8000_0000 == v as int);
        assert(e % 0x100 == e);
    } else {
        assert(v as int % 0x8000_0000 == v as int - 0x8000_0000);
        assert(e % 0x100 == e - 0x100);
    }
}

/// Gates are refused exactly if one is infinite or NaN.
proof fn lemma_gates(alpha: Tensor, beta: Tensor, h: int, n: int)
    ensures
        gate_faults(alpha, beta, h, n).len() == 0 <==> forall|i: int|
            0 <= i < n ==> is_number(#[trigger] alpha.cells.f32_at(i)) && is_number(
                beta.cells.f32_at(i),
            ),
    decreases n,
{
    if n > 0 {
        lemma_gates(alpha, beta, h, n - 1);
        let a = alpha.cells.f32_at(n - 1);
        let b = beta.cells.f32_at(n - 1);
        lemma_number(a);
        lemma_number(b);
        let i = n - 1;
        assert(gate_faults(alpha, beta, h, n).len() == gate_faults(alpha, beta, h, i).len()
            + gate_fault("alpha", i / h, i % h, a).len() + gate_fault(
            "beta",
            i / h,
            i % h,
            b,
        ).len());
        if gate_faults(alpha, beta, h, n).len() == 0 {
            assert forall|j: int| 0 <= j < n implies is_number(#[trigger] alpha.cells.f32_at(j))
                && is_number(beta.cells.f32_at(j)) by {
                assert(j < i || j == i);
            }
        }
    }
}

/// A scan takes queries, keys and values of one type, with a finite pair of gates
/// for each token and head, and a state for each sequence and head. The sequences
/// share the tokens out.
#[verifier::spinoff_prover]
#[verifier::rlimit(60)]
pub proof fn law_scan_accepts(
    op: LinearAttnScanOp,
    q: Tensor,
    k: Tensor,
    v: Tensor,
    alpha: Tensor,
    beta: Tensor,
    state_in: Tensor,
    lens: Seq<u32>,
    o: Tensor,
    state_out: Tensor,
)
    requires
        is_real(q) && is_real(k) && is_real(v) && is_real(alpha) && is_real(beta),
        is_real(state_in) && is_real(o) && is_real(state_out),
        lens.len() <= usize::MAX,
        scan_fault(op, q, k, v, alpha, beta, state_in, lens, o, state_out) is None,
    ensures
        has_room(q) && has_room(k) && has_room(v) && has_room(alpha) && has_room(beta),
        has_room(state_in) && has_room(o) && has_room(state_out),
        stores_rows(q.layout) && stores_rows(k.layout) && stores_rows(v.layout),
        stores_rows(alpha.layout) && stores_rows(beta.layout),
        stores_rows(state_in.layout) && stores_rows(o.layout) && stores_rows(state_out.layout),
        is_floating(q.cells.dtype()),
        k.cells.dtype() == q.cells.dtype() && v.cells.dtype() == q.cells.dtype(),
        alpha.cells.dtype() == DType::F32 && beta.cells.dtype() == DType::F32,
        state_in.cells.dtype() == DType::F32 && state_out.cells.dtype() == DType::F32,
        is_floating(op.out_dtype) && o.cells.dtype() == op.out_dtype,
        op.chunk > 0,
        op.handle.kind == StateKind::Recurrent,
        total(lens) == q.shape[0],
        q.shape.len() == 3 && v.shape.len() == 3,
        q.shape[0] > 0 && q.shape[1] > 0 && q.shape[2] > 0 && v.shape[2] > 0,
        k.shape == q.shape,
        v.shape == seq![q.shape[0], q.shape[1], v.shape[2]],
        o.shape == v.shape,
        alpha.shape == seq![q.shape[0], q.shape[1]],
        beta.shape == alpha.shape,
        state_in.shape == seq![lens.len() as usize, q.shape[1], q.shape[2], v.shape[2]],
        state_out.shape == state_in.shape,
        forall|i: int|
            0 <= i < q.shape[0] * q.shape[1] ==> is_number(#[trigger] alpha.cells.f32_at(i))
                && is_number(beta.cells.f32_at(i)),
{
    reveal(scan_fault);
    lemma_room(q, "q");
    lemma_room(k, "k");
    lemma_room(v, "v");
    lemma_room(alpha, "alpha");
    lemma_room(beta, "beta");
    lemma_room(state_in, "state_in");
    lemma_room(o, "o");
    lemma_room(state_out, "state_out");
    crate::buffer::lemma_extent2(alpha.shape);
    crate::buffer::lemma_extent2(beta.shape);
    let n = q.shape[0] * q.shape[1];
    assert(alpha.shape[0] * alpha.shape[1] == n && beta.shape[0] * beta.shape[1] == n);
    assert(extent(alpha.shape) == Some(n as usize) && extent(beta.shape) == Some(n as usize));
    assert(alpha.cells.required(n) <= alpha.cells.len());
    assert(beta.cells.required(n) <= beta.cells.len());
    assert(gate_faults(alpha, beta, q.shape[1] as int, n).len() == 0);
    lemma_gates(alpha, beta, q.shape[1] as int, q.shape[0] * q.shape[1]);
}

/// Whether what attention over either kind of cache has in common is accepted.
pub open spec fn attends(op: AttentionOp, q: Tensor, o: Tensor, meta: BatchMeta, group: u32) -> bool {
    &&& has_room(q) && has_room(o)
    &&& stores_rows(q.layout) && stores_rows(o.layout)
    &&& is_floating(q.cells.dtype())
    &&& is_floating(op.out_dtype) && o.cells.dtype() == op.out_dtype
    &&& is_positive(op.softmax_scale)
    &&& op.logit_softcap matches Some(c) ==> is_positive(c)
    &&& op.mask matches AttentionMask::CausalWindow(n) ==> n > 0
    &&& op.mask is Tree ==> meta.tree is Some
    &&& group < meta.num_groups
    &&& q.shape.len() == 3 && o.shape.len() == 3
    &&& q.shape[0] == meta.total_tokens && o.shape[0] == meta.total_tokens
    &&& q.shape[1] > 0
    &&& o.shape[1] == q.shape[1]
}

/// Attributes of attention that are accepted.
proof fn lemma_attributes(list: Seq<ErrorView>, op: AttentionOp, meta: BatchMeta, group: u32)
    ensures
        attribute_faults(list, op, meta, group).len() == 0 <==> {
            &&& list.len() == 0
            &&& is_positive(op.softmax_scale)
            &&& op.logit_softcap matches Some(c) ==> is_positive(c)
            &&& op.mask matches AttentionMask::CausalWindow(n) ==> n > 0
            &&& op.mask is Tree ==> meta.tree is Some
            &&& group < meta.num_groups
        },
{
}

/// Extents that attention accepts.
proof fn lemma_extents(list: Seq<ErrorView>, q: Tensor, o: Tensor, t: usize)
    ensures
        (list + dim_faults("T", "BatchMeta", t, "q", q.shape[0]) + dim_faults(
            "T",
            "BatchMeta",
            t,
            "o",
            o.shape[0],
        ) + dim_faults("H", "q", q.shape[1], "o", o.shape[1]) + given(
            q.shape[1] == 0,
            dim_error("H", "q", 1, "q", 0),
        )).len() == 0 <==> {
            &&& list.len() == 0
            &&& q.shape[0] == t && o.shape[0] == t
            &&& q.shape[1] > 0
            &&& o.shape[1] == q.shape[1]
        },
{
}

/// Forms of queries and values that attention accepts.
proof fn lemma_forms(list: Seq<ErrorView>, op: AttentionOp, q: Tensor, o: Tensor)
    ensures
        (list + row_major_faults("q", q.layout) + row_major_faults("o", o.layout) + rank_faults(
            "q",
            3,
            q.shape,
        ) + rank_faults("o", 3, o.shape) + float_faults("q", q.dtype()) + given(
            !is_float(op.out_dtype),
            attr_error(
                "attention",
                "out_dtype",
                quoting("must be f16, bf16, or f32; got {}", seq![Arg::Type(op.out_dtype)]),
            ),
        ) + dtype_faults("o", op.out_dtype, o.dtype())).len() == 0 <==> {
            &&& list.len() == 0
            &&& stores_rows(q.layout) && stores_rows(o.layout)
            &&& q.shape.len() == 3 && o.shape.len() == 3
            &&& is_floating(q.cells.dtype())
            &&& is_floating(op.out_dtype) && o.cells.dtype() == op.out_dtype
        },
{
}

pub proof fn lemma_attends(op: AttentionOp, q: Tensor, o: Tensor, meta: BatchMeta, group: u32)
    requires
        is_real(q),
        is_real(o),
    ensures
        attention_faults(op, q, o, meta, group).len() == 0 <==> attends(op, q, o, meta, group),
{
    reveal(attention_faults);
    lemma_room(q, "q");
    lemma_room(o, "o");
    let backing = and_fault(and_fault(clear(), q.backing_fault("q")), o.backing_fault("o"));
    assert(backing.len() == 0 <==> has_room(q) && has_room(o));
    lemma_forms(backing, op, q, o);
    let form = backing + row_major_faults("q", q.layout) + row_major_faults("o", o.layout)
        + rank_faults("q", 3, q.shape) + rank_faults("o", 3, o.shape) + float_faults("q", q.dtype())
        + given(
        !is_float(op.out_dtype),
        attr_error(
            "attention",
            "out_dtype",
            quoting("must be f16, bf16, or f32; got {}", seq![Arg::Type(op.out_dtype)]),
        ),
    ) + dtype_faults("o", op.out_dtype, o.dtype());
    lemma_attributes(form, op, meta, group);
    lemma_extents(attribute_faults(form, op, meta, group), q, o, meta.total_tokens);
}

/// Attention over a paged cache takes a query for each token of the batch and each
/// head, in whole groups of heads for each head of the cache, and gives as many
/// values. The scale and a cap are finite and positive, a window is not empty, and
/// a tree of tokens is there where the mask needs it.
#[verifier::spinoff_prover]
#[verifier::rlimit(60)]
pub proof fn law_attention_accepts(
    op: AttentionOp,
    q: Tensor,
    o: Tensor,
    meta: BatchMeta,
    group: u32,
    hkv: usize,
    d: usize,
    dv: usize,
)
    requires
        is_real(q),
        is_real(o),
        hkv > 0,
    ensures
        paged_attention_faults(op, q, o, meta, group, hkv, d, dv).len() == 0 <==> {
            &&& attends(op, q, o, meta, group)
            &&& op.handle.kind == StateKind::KvPaged
            &&& op.mla is None
            &&& q.shape[1] as int % hkv as int == 0
            &&& q.shape[2] == d && o.shape[2] == dv
        },
{
    lemma_attends(op, q, o, meta, group);
}

/// Whether activations have a type and a scheme that can be multiplied.
pub open spec fn is_multiplicand(d: DType, q: QuantScheme) -> bool {
    ||| (d == DType::F16 || d == DType::Bf16) && q == QuantScheme::Unquantized
    ||| d == DType::I8 && (q == QuantScheme::PerToken || q == QuantScheme::PerBlock32)
    ||| d == DType::E4m3 && q == QuantScheme::PerToken
}

/// Whether weights have a type and a scheme that can be decoded.
pub open spec fn is_weight(d: DType, q: QuantScheme) -> bool {
    ||| d == DType::F16 && q == QuantScheme::Unquantized
    ||| d == DType::I8 && (q == QuantScheme::PerRow || q == QuantScheme::Scheme(SchemeId::I8R) || q
        == QuantScheme::Scheme(SchemeId::I8B128))
    ||| d == DType::I4 && q == QuantScheme::Scheme(SchemeId::I4K)
    ||| d == DType::E4m3 && q == QuantScheme::Scheme(SchemeId::E4M3B128)
}

/// Whether the forms of a product's operands are accepted: integer weights are
/// not multiplied with 8-bit floating-point numbers nor the other way round, and
/// there is a bias or a residual exactly if the product adds it.
pub open spec fn forms_fit(
    op: MatmulOp,
    x: Tensor,
    x_scale: Option<Tensor>,
    w: Tensor,
    w_scale: Option<Tensor>,
    bias: Option<Tensor>,
    residual: Option<Tensor>,
    y: Tensor,
) -> bool {
    &&& x.shape.len() == 2 && w.shape.len() == 2 && y.shape.len() == 2
    &&& stores_rows(x.layout) && stores_rows(y.layout)
    &&& stores_rows(w.layout) || w.layout == LayoutId::L1
    &&& is_floating(op.out_dtype) && y.cells.dtype() == op.out_dtype
    &&& is_multiplicand(x.cells.dtype(), x.quant)
    &&& is_weight(w.cells.dtype(), w.quant)
    &&& w.cells.dtype() == DType::E4m3 ==> x.cells.dtype() != DType::I8
    &&& w.cells.dtype() == DType::I8 || w.cells.dtype() == DType::I4 ==> x.cells.dtype()
        != DType::E4m3
    &&& bias is Some <==> op.epilogue is Bias
    &&& bias matches Some(b) ==> b.shape.len() == 1 && b.cells.dtype() == DType::F32 && stores_rows(
        b.layout,
    )
    &&& residual is Some <==> op.epilogue is Residual
    &&& residual matches Some(r) ==> r.shape.len() == 2 && is_floating(r.cells.dtype())
        && stores_rows(r.layout)
    &&& x_scale matches Some(s) ==> stores_rows(s.layout)
    &&& w_scale matches Some(s) ==> stores_rows(s.layout) || s.layout == LayoutId::L1
}

/// Whether the extents of a product's operands are accepted: with `m` rows of `k`
/// elements and `n` rows of weights.
pub open spec fn extents_fit(
    op: MatmulOp,
    x: Tensor,
    x_scale: Option<Tensor>,
    w: Tensor,
    w_scale: Option<Tensor>,
    bias: Option<Tensor>,
    residual: Option<Tensor>,
    y: Tensor,
) -> bool {
    let m = x.shape[0];
    let k = x.shape[1];
    let n = y.shape[1];
    &&& y.shape[0] == m
    &&& if op.transpose_w {
        w.shape[0] == k && w.shape[1] == n && w.cells.dtype() == DType::F16 && w.layout
            != LayoutId::L1
    } else {
        w.shape[0] == n && w.shape[1] == k
    }
    &&& bias matches Some(b) ==> b.shape[0] == n
    &&& residual matches Some(r) ==> r.shape[0] == m && r.shape[1] == n
    &&& w.cells.dtype() == DType::I4 ==> k % 256 == 0
    &&& w.quant == QuantScheme::Scheme(SchemeId::I8B128) || w.quant == QuantScheme::Scheme(
        SchemeId::E4M3B128,
    ) ==> k % 128 == 0
    &&& x_scale is Some <==> x.quant != QuantScheme::Unquantized
    &&& x_scale matches Some(s) ==> {
        &&& s.cells.dtype() == DType::F32
        &&& x.quant == QuantScheme::PerToken ==> s.shape.len() == 1 && s.shape[0] == m
        &&& x.quant == QuantScheme::PerBlock32 ==> k % 32 == 0 && s.shape.len() == 2 && s.shape[0]
            == m && s.shape[1] == k / 32
    }
    &&& w_scale matches Some(s) ==> {
        &&& w.cells.dtype() != DType::F16
        &&& s.cells.dtype() == DType::F16 || s.cells.dtype() == DType::U32 || s.cells.dtype()
            == DType::I8
    }
}

#[verifier::spinoff_prover]
#[verifier::rlimit(60)]
proof fn lemma_forms_fit(
    op: MatmulOp,
    x: Tensor,
    x_scale: Option<Tensor>,
    w: Tensor,
    w_scale: Option<Tensor>,
    bias: Option<Tensor>,
    residual: Option<Tensor>,
    y: Tensor,
)
    requires
        matmul_form_faults(op, x, x_scale, w, w_scale, bias, residual, y).len() == 0,
    ensures
        forms_fit(op, x, x_scale, w, w_scale, bias, residual, y),
{
    reveal(matmul_form_faults);
}

#[verifier::spinoff_prover]
#[verifier::rlimit(60)]
proof fn lemma_extents_fit(
    op: MatmulOp,
    x: Tensor,
    x_scale: Option<Tensor>,
    w: Tensor,
    w_scale: Option<Tensor>,
    bias: Option<Tensor>,
    residual: Option<Tensor>,
    y: Tensor,
)
    requires
        forms_fit(op, x, x_scale, w, w_scale, bias, residual, y),
        matmul_dim_faults(op, x, x_scale, w, w_scale, bias, residual, y).len() == 0,
    ensures
        extents_fit(op, x, x_scale, w, w_scale, bias, residual, y),
{
    reveal(matmul_dim_faults);
}

/// Scales that are accepted are finite and not negative.
proof fn lemma_scale_values(s: Tensor, n: int)
    requires
        x_scale_value_fault(s, n) is None,
    ensures
        forall|i: int|
            0 <= i < n ==> #[trigger] s.cells.f32_at(i) < 0x7F80_0000 || s.cells.f32_at(i)
                == 0x8000_0000,
    decreases n,
{
    if n > 0 {
        lemma_scale_values(s, n - 1);
    }
}

/// A product that is computed has operands that fit: their types and schemes, the
/// extents that they share, whole blocks of weights, and scales that are finite
/// and not negative.
pub proof fn law_product_accepts<G: Fn(FormatQuery) -> Result<u64, FormatError>>(
    g: G,
    op: MatmulOp,
    x: Tensor,
    x_scale: Option<Tensor>,
    w: Tensor,
    w_scale: Option<Tensor>,
    bias: Option<Tensor>,
    residual: Option<Tensor>,
    y: Tensor,
)
    requires
        matmul_fault(g, op, x, x_scale, w, w_scale, bias, residual, y) is None,
    ensures
        forms_fit(op, x, x_scale, w, w_scale, bias, residual, y),
        extents_fit(op, x, x_scale, w, w_scale, bias, residual, y),
        x.shape[0] > 0 && x.shape[1] > 0 && w.shape[0] > 0 && w.shape[1] > 0,
        w.cells is Bytes,
        x_scale matches Some(s) ==> forall|i: int|
            0 <= i < s.count() ==> #[trigger] s.cells.f32_at(i) < 0x7F80_0000 || s.cells.f32_at(i)
                == 0x8000_0000,
{
    lemma_forms_fit(op, x, x_scale, w, w_scale, bias, residual, y);
    lemma_extents_fit(op, x, x_scale, w, w_scale, bias, residual, y);
    if x_scale is Some {
        lemma_scale_values(x_scale->0, (x_scale->0).count());
    }
}

} // verus!
