//! Feed-forward layer with routed experts.
//!
//! Every token names the experts that it is routed to. Experts run in ascending
//! order on the rows of their tokens: a gate and an up projection, the gated
//! activation, a down projection, and a weighted sum into the token's output
//! row.
use vstd::prelude::*;
use vstd::slice::slice_subrange;
use crate::activation::{activated, eval_activation_f32};
use crate::arith::{fp_add, fp_mul, is_arith, plus, times, FloatOp};
use crate::buffer::{
    dense, fault_result, lemma_backed_holds, lemma_extent1, lemma_extent2, lemma_extent3, opt_view,
    Cells, Tensor, TensorData, TensorDataMut, TensorView, TensorViewMut,
};
use crate::carrier::{CarrierNames, WeightForm};
use crate::causal_conv1d::{
    check_opt_backing, check_opt_row_major, check_u32, lemma_count_fits, opt_backing_fault,
    opt_row_major_faults, u32_fault,
};
use crate::check::{
    attr_error, backing_error, check_dim, check_dtype, check_rank, check_row_major,
    check_weight_layout, clear, dim_error, dim_faults, dim_mismatch, dtype_faults, empty_error,
    fault_if, fault_of, float_type, given, invalid_attr, is_float, length_error, length_mismatch,
    missing, missing_error, no_problems, or_fault, overflow, overflow_error, push_when, rank_faults,
    row_major_faults, weight_layout_faults,
};
use crate::dtype::{element_size, finite_nonnegative, is_finite_nonnegative};
use crate::embed_gather::{check_padding, padding_fault};
use crate::error::{
    outcome, plain, quoting, to_vec, views, Arg, Detail, ErrorView, FormatError, T0Error,
};
use crate::gemm::{is_activation, Epilogue, Gemm, GemmArgs};
use crate::index::{lemma_flat_bound, lemma_mul_le, lemma_mul_nonneg, lemma_split};
use crate::ir::{ActivationKind, DType, LayoutId, QuantScheme, SchemeId};
use crate::matmul::{
    activation_faults, attached, block_faults, check_activation, check_blocks,
    check_opt_scale_layout, check_scheme, check_weight_dtype, first_dim, gemm_args, leading_dim,
    matmul_fault, next_dim, opt_scale_layout_faults, plan_matmul, resolve_weight_scheme,
    scale_bytes, scheme_fault, second_dim, weight_dtype_faults, weight_scheme, weight_scheme_fault,
    x_scale_error, MatmulOp,
};
use crate::weight::{
    answer, ask, block_of, block_size, is_format, row_bytes, FormatQuery, Matrix, WeightNames,
    Weights,
};

verus! {

/// Attributes of the expert layer.
#[derive(Debug, Clone, Copy)]
pub struct MoeFfnOp {
    /// Activation of the gating half.
    pub act: ActivationKind,
    /// Type of the output.
    pub out_dtype: DType,
    /// Experts that every token shares; they are computed elsewhere.
    pub shared_experts: u32,
}

/// Problems of the operands' forms and of the attributes.
pub open spec fn moe_form_faults(
    op: MoeFfnOp,
    x: Tensor,
    ids: Tensor,
    weights: Tensor,
    gate_up: Tensor,
    down: Tensor,
    down_scale: Option<Tensor>,
    x_scale: Option<Tensor>,
    y: Tensor,
) -> Seq<ErrorView> {
    clear() + rank_faults("x", 2, x.shape) + rank_faults("expert_ids", 2, ids.shape) + rank_faults(
        "weights",
        2,
        weights.shape,
    ) + rank_faults("w_gate_up", 3, gate_up.shape) + rank_faults("w_down", 3, down.shape)
        + rank_faults("y", 2, y.shape) + row_major_faults("x", x.layout) + row_major_faults(
        "expert_ids",
        ids.layout,
    ) + row_major_faults("weights", weights.layout) + weight_layout_faults(
        "w_gate_up",
        gate_up.layout,
    ) + weight_layout_faults("w_down", down.layout) + row_major_faults("y", y.layout)
        + opt_row_major_faults("x_scale", x_scale) + opt_scale_layout_faults(
        "w_down_scale",
        down_scale,
    ) + activation_faults(x) + dtype_faults("expert_ids", DType::U32, ids.dtype()) + dtype_faults(
        "weights",
        DType::F32,
        weights.dtype(),
    ) + given(
        !is_float(op.out_dtype),
        attr_error(
            "moe_ffn",
            "out_dtype",
            quoting("must be f16, bf16, or f32, got {}", seq![Arg::Type(op.out_dtype)]),
        ),
    ) + dtype_faults("y", op.out_dtype, y.dtype()) + weight_dtype_faults(
        "w_gate_up",
        gate_up.dtype(),
    ) + weight_dtype_faults("w_down", down.dtype())
}

/// Number of unsigned integers that the storage of a tensor holds.
pub open spec fn u32_capacity(t: Tensor) -> int {
    match t.cells {
        Cells::U32(s) => s.len() as int,
        Cells::Bytes(DType::U32, s) => s.len() as int / 4,
        _ => 0,
    }
}

/// Problems of the first `n` expert ids against the expert count.
pub open spec fn id_faults(ids: Tensor, e: usize, n: int) -> Seq<ErrorView>
    decreases n,
{
    if n <= 0 {
        Seq::empty()
    } else {
        let id = ids.u32_at(n - 1);
        id_faults(ids, e, n - 1) + given(
            id >= e,
            ErrorView::RowIndexOutOfRange {
                op: "moe_ffn",
                tensor: "expert_ids",
                position: (n - 1) as usize,
                index: id,
                upper_bound: e,
            },
        )
    }
}

/// Problems of the first `n` activation scale values.
pub open spec fn scale_value_faults(xs: Tensor, n: int) -> Seq<ErrorView>
    decreases n,
{
    if n <= 0 {
        Seq::empty()
    } else {
        let s = xs.cells.f32_at(n - 1);
        scale_value_faults(xs, n - 1) + given(
            !is_finite_nonnegative(s),
            x_scale_error("moe_ffn", n - 1, s),
        )
    }
}

/// Problems of the activation scales' form.
pub open spec fn moe_scale_form_faults(
    x: Tensor,
    x_scale: Option<Tensor>,
    t: usize,
    dm: usize,
) -> Seq<ErrorView> {
    let blocks = (dm / 32) as usize;
    match x.quant {
        QuantScheme::PerToken => match x_scale {
            None => seq![
                missing_error(
                    "moe_ffn",
                    "x_scale",
                    plain("x_scale required for PerToken activations"),
                ),
            ],
            Some(xs) => clear() + given(
                xs.rank() != 1 || xs.shape[0] != t,
                dim_error("T", "x", t, "x_scale", first_dim(xs.shape)),
            ) + dtype_faults("x_scale", DType::F32, xs.dtype()) + given(
                xs.count() < t || xs.cells.len() < t,
                length_error("x_scale", xs.cells.len() as int, t as int, xs.shape),
            ),
        },
        QuantScheme::PerBlock32 => given(
            dm % 32 != 0,
            dim_error("Dm", "block_size_32", 32, "x", dm),
        ) + (match x_scale {
            None => seq![
                missing_error(
                    "moe_ffn",
                    "x_scale",
                    plain("x_scale required for PerBlock32 activations"),
                ),
            ],
            Some(xs) => clear() + given(
                xs.rank() != 2 || xs.shape[0] != t || xs.shape[1] != blocks,
                dim_error("Dm_blocks", "dm_div_32", blocks, "x_scale", second_dim(xs.shape)),
            ) + dtype_faults("x_scale", DType::F32, xs.dtype()),
        }),
        QuantScheme::Unquantized => given(
            x_scale is Some,
            attr_error(
                "moe_ffn",
                "x_scale",
                plain("x_scale provided for unquantized activations"),
            ),
        ),
        _ => Seq::empty(),
    }
}

/// Problems of the activation scales.
pub open spec fn moe_x_scale_faults(
    x: Tensor,
    x_scale: Option<Tensor>,
    t: usize,
    dm: usize,
) -> Seq<ErrorView> {
    moe_scale_form_faults(x, x_scale, t, dm) + (match x_scale {
        None => Seq::empty(),
        Some(xs) => scale_value_faults(xs, xs.count()),
    })
}

/// Names that errors about the down projection's bytes quote.
pub open spec fn down_carrier(dtype: DType) -> CarrierNames {
    CarrierNames {
        op: "moe_ffn",
        tensor: "w_down",
        scale_tensor: "w_down_scale",
        row_dim: "N",
        padded_text: "L1 down values size overflows usize",
        plain_text: if dtype == DType::I4 {
            "down-projection I4 values size overflows usize"
        } else {
            "down-projection values size overflows usize"
        },
        sum_text: "L1 down values + scales overflow",
        stray_text: "w_down_scale provided for unquantized weights",
    }
}

/// Extents and storage of the down projection, all experts' rows in one matrix.
pub open spec fn down_form(down: Tensor, e: usize, dff: usize) -> WeightForm {
    let scheme = weight_scheme(down.dtype(), down.quant);
    WeightForm {
        dtype: down.dtype(),
        scheme,
        tiled: down.layout == LayoutId::L1,
        n: (e * down.shape[1]) as u32,
        k: dff as u32,
        block: block_of(scheme),
    }
}

/// Bytes that the down projection needs without separate scale records.
pub open spec fn down_need<G: Fn(FormatQuery) -> Result<u64, FormatError>>(
    g: G,
    form: WeightForm,
    values: usize,
    c: CarrierNames,
) -> Result<usize, ErrorView> {
    if form.scheme is Some && form.tiled {
        match answer(g, form.scale_bytes_query()) {
            Err(e) => Err(e),
            Ok(_) => match form.padded(g, c) {
                Err(e) => Err(e),
                Ok(padded) => form.inline_need(g, padded, values, c),
            },
        }
    } else {
        form.inline_need(g, 0, values, c)
    }
}

/// Length of raw storage, or zero.
pub open spec fn raw_len(t: Tensor) -> usize {
    if t.cells is Bytes {
        t.cells.len() as usize
    } else {
        0
    }
}

/// Problems of the down projection's bytes and scales, or the error that ends
/// the check.
pub open spec fn down_faults<G: Fn(FormatQuery) -> Result<u64, FormatError>>(
    g: G,
    down: Tensor,
    down_scale: Option<Tensor>,
    e: usize,
    dff: usize,
) -> Result<Seq<ErrorView>, ErrorView> {
    let dm = down.shape[1];
    let form = down_form(down, e, dff);
    let c = down_carrier(down.dtype());
    let found = block_faults("Dff", "w_down", form.scheme, dff) + given(
        !(down.cells is Bytes),
        backing_error("moe_ffn", down.dtype()),
    );
    if e * dm > usize::MAX {
        Err(
            overflow_error(
                "moe_ffn",
                quoting(
                    "E * Dm overflows usize for E={}, Dm={}",
                    seq![Arg::Int(e as u64), Arg::Int(dm as u64)],
                ),
            ),
        )
    } else if e * dm > u32::MAX {
        Err(
            overflow_error(
                "moe_ffn",
                quoting(
                    "down-projection row count exceeds u32: {}",
                    seq![Arg::Int((e * dm) as u64)],
                ),
            ),
        )
    } else if padding_fault(g, form) is Some {
        Err(padding_fault(g, form)->0)
    } else {
        match form.unpadded(c) {
            Err(err) => Err(err),
            Ok(values) => match down_scale {
                Some(ws) => match form.separate_fault(
                    g,
                    ws,
                    raw_len(down),
                    values,
                    down.shape,
                    c,
                ) {
                    Some(err) => Err(err),
                    None => Ok(found),
                },
                None => match down_need(g, form, values, c) {
                    Err(err) => Err(err),
                    Ok(need) => Ok(
                        found + given(
                            raw_len(down) < need,
                            length_error("w_down", raw_len(down) as int, need as int, down.shape),
                        ),
                    ),
                },
            },
        }
    }
}

/// Problems of the operands' extents.
pub open spec fn moe_dim_faults(
    x: Tensor,
    ids: Tensor,
    weights: Tensor,
    gate_up: Tensor,
    down: Tensor,
    y: Tensor,
) -> Seq<ErrorView> {
    let t = x.shape[0];
    let dm = x.shape[1];
    let dff = down.shape[2];
    clear() + dim_faults("T", "x", t, "expert_ids", ids.shape[0]) + dim_faults(
        "T",
        "x",
        t,
        "weights",
        weights.shape[0],
    ) + dim_faults(
        "K",
        "expert_ids",
        ids.shape[1],
        "weights",
        weights.shape[1],
    ) + dim_faults("2Dff", "w_down", (2 * dff) as usize, "w_gate_up", gate_up.shape[1])
        + dim_faults("Dm", "x", dm, "w_gate_up", gate_up.shape[2]) + dim_faults(
        "E",
        "w_gate_up",
        gate_up.shape[0],
        "w_down",
        down.shape[0],
    ) + dim_faults("Dm", "x", dm, "w_down", down.shape[1]) + dim_faults("T", "x", t, "y", y.shape[0])
        + dim_faults("Dm", "x", dm, "y", y.shape[1])
}

/// The error of an operand whose storage is too short.
pub open spec fn moe_backing_fault(
    x: Tensor,
    ids: Tensor,
    weights: Tensor,
    gate_up: Tensor,
    down: Tensor,
    y: Tensor,
) -> Option<ErrorView> {
    or_fault(
        or_fault(
            or_fault(
                or_fault(
                    or_fault(x.backing_fault("x"), ids.backing_fault("expert_ids")),
                    weights.backing_fault("weights"),
                ),
                gate_up.backing_fault("w_gate_up"),
            ),
            down.backing_fault("w_down"),
        ),
        y.backing_fault("y"),
    )
}

/// The error of an expert layer with extents that are zero or too large.
#[verifier::opaque]
pub open spec fn moe_size_fault(
    op: MoeFfnOp,
    x: Tensor,
    ids: Tensor,
    gate_up: Tensor,
    down: Tensor,
) -> Option<ErrorView> {
    let name = "moe_ffn";
    let t = x.shape[0];
    let dm = x.shape[1];
    let k = ids.shape[1];
    let e = gate_up.shape[0];
    let dff = down.shape[2];
    let empty = or_fault(
        or_fault(
            or_fault(
                fault_if(t == 0 || dm == 0, empty_error(name, "x")),
                fault_if(e == 0, empty_error(name, "w_gate_up")),
            ),
            fault_if(dff == 0, empty_error(name, "w_down")),
        ),
        fault_if(k == 0, empty_error(name, "expert_ids")),
    );
    let shared = fault_if(
        op.shared_experts > e as u32,
        attr_error(
            name,
            "shared_experts",
            quoting(
                "shared_experts {} exceeds expert count E={}",
                seq![Arg::Int(op.shared_experts as u64), Arg::Int(e as u64)],
            ),
        ),
    );
    let wide = or_fault(
        or_fault(
            or_fault(or_fault(u32_fault(name, t), u32_fault(name, dm)), u32_fault(name, e)),
            u32_fault(name, dff),
        ),
        u32_fault(name, k),
    );
    let doubled = fault_if(
        2 * dff > usize::MAX,
        overflow_error(
            name,
            quoting("2 * Dff overflows usize for Dff={}", seq![Arg::Int(dff as u64)]),
        ),
    );
    let short_ids = fault_if(
        u32_capacity(ids) < t * k,
        length_error(
            "expert_ids",
            ids.cells.len() as int,
            if u32_capacity(ids) + 1 > usize::MAX {
                usize::MAX as int
            } else {
                u32_capacity(ids) + 1
            },
            ids.shape,
        ),
    );
    or_fault(or_fault(or_fault(or_fault(empty, shared), wide), doubled), short_ids)
}

/// The error of an expert layer with complete storage whose operands or
/// attributes do not fit.
#[verifier::opaque]
pub open spec fn moe_fault<G: Fn(FormatQuery) -> Result<u64, FormatError>>(
    g: G,
    op: MoeFfnOp,
    x: Tensor,
    ids: Tensor,
    weights: Tensor,
    gate_up: Tensor,
    gate_up_scale: Option<Tensor>,
    down: Tensor,
    down_scale: Option<Tensor>,
    x_scale: Option<Tensor>,
    y: Tensor,
) -> Option<ErrorView> {
    let name = "moe_ffn";
    let t = x.shape[0];
    let dm = x.shape[1];
    let k = ids.shape[1];
    let e = gate_up.shape[0];
    let dff = down.shape[2];
    let schemes = or_fault(
        or_fault(scheme_fault(x.quant), scheme_fault(gate_up.quant)),
        scheme_fault(down.quant),
    );
    let form = fault_of(
        moe_form_faults(op, x, ids, weights, gate_up, down, down_scale, x_scale, y),
    );
    let down_scheme = weight_scheme_fault("w_down", down.dtype(), down.quant);
    let rest = match down_faults(g, down, down_scale, e, dff) {
        Err(err) => Some(err),
        Ok(found) => fault_of(
            moe_dim_faults(x, ids, weights, gate_up, down, y) + id_faults(ids, e, t * k)
                + moe_x_scale_faults(x, x_scale, t, dm) + found,
        ),
    };
    let raw = fault_if(!(gate_up.cells is Bytes), backing_error(name, gate_up.dtype()));
    or_fault(
        or_fault(
            or_fault(
                or_fault(or_fault(schemes, form), down_scheme),
                moe_size_fault(op, x, ids, gate_up, down),
            ),
            rest,
        ),
        raw,
    )
}

/// The error of a scale operand whose storage is too short: of the explicit
/// ones first, then of those in use.
pub open spec fn moe_scale_backing_fault(
    gate_up_scale: Option<Tensor>,
    down_scale: Option<Tensor>,
    x_scale: Option<Tensor>,
    used_x: Option<Tensor>,
    used_gate_up: Option<Tensor>,
    used_down: Option<Tensor>,
) -> Option<ErrorView> {
    or_fault(
        or_fault(
            or_fault(
                or_fault(
                    or_fault(
                        opt_backing_fault("w_gate_up_scale", gate_up_scale),
                        opt_backing_fault("w_down_scale", down_scale),
                    ),
                    opt_backing_fault("x_scale", x_scale),
                ),
                opt_backing_fault("x_scale", used_x),
            ),
            opt_backing_fault("w_gate_up_scale", used_gate_up),
        ),
        opt_backing_fault("w_down_scale", used_down),
    )
}

/// Operands of an expert layer of `t` tokens with `k` routes each.
pub struct MoeArgs {
    /// Activations.
    pub x: Tensor,
    /// Activation scales.
    pub xs: Option<Tensor>,
    /// Expert ids.
    pub ids: Tensor,
    /// Routing weights.
    pub weights: Tensor,
    /// Gate and up projections of all experts, row by row.
    pub gate_up: Tensor,
    /// Their scales.
    pub gate_up_scale: Option<Tensor>,
    /// Down projections of all experts, row by row.
    pub down: Matrix,
    /// Error of the down projection's tiling, if any.
    pub down_error: Option<ErrorView>,
    /// Activation of the gating half.
    pub act: ActivationKind,
    /// Number of tokens.
    pub t: int,
    /// Width of a token.
    pub dm: int,
    /// Routes per token.
    pub k: int,
    /// Number of experts.
    pub e: int,
    /// Width of an expert.
    pub dff: int,
}

/// The product that gives gates and ups.
pub open spec fn gate_up_op() -> MatmulOp {
    MatmulOp { out_dtype: DType::F32, epilogue: Epilogue::Plain, transpose_w: false }
}

/// Rows of a tensor by index.
pub open spec fn gathered_cells(c: Cells, toks: Seq<usize>, dm: int) -> Cells {
    let n = (toks.len() * dm) as nat;
    match c {
        Cells::F32(s) => Cells::F32(Seq::new(n, |i: int| s[toks[i / dm] * dm + i % dm])),
        Cells::F16(s) => Cells::F16(Seq::new(n, |i: int| s[toks[i / dm] * dm + i % dm])),
        Cells::Bf16(s) => Cells::Bf16(Seq::new(n, |i: int| s[toks[i / dm] * dm + i % dm])),
        Cells::I8(s) => Cells::I8(Seq::new(n, |i: int| s[toks[i / dm] * dm + i % dm])),
        Cells::U32(s) => Cells::U32(Seq::new(n, |i: int| s[toks[i / dm] * dm + i % dm])),
        Cells::Bytes(dtype, s) => {
            let stride = dm * element_size(dtype);
            Cells::Bytes(
                dtype,
                Seq::new(
                    (toks.len() * stride) as nat,
                    |i: int| s[toks[i / stride] * stride + i % stride],
                ),
            )
        },
    }
}

impl MoeArgs {
    /// Whether a token is routed to an expert.
    pub open spec fn routed(self, row: int, expert: int) -> bool {
        exists|slot: int|
            0 <= slot < self.k && #[trigger] self.ids.u32_at(row * self.k + slot) == expert
    }

    /// Tokens among the first `n` that are routed to an expert.
    pub open spec fn tokens(self, expert: int, n: int) -> Seq<usize>
        decreases n,
    {
        if n <= 0 {
            Seq::empty()
        } else if self.routed(n - 1, expert) {
            self.tokens(expert, n - 1).push((n - 1) as usize)
        } else {
            self.tokens(expert, n - 1)
        }
    }

    /// Activations of an expert's tokens.
    pub open spec fn expert_x(self, expert: int) -> Tensor {
        let toks = self.tokens(expert, self.t);
        Tensor {
            shape: seq![toks.len() as usize, self.dm as usize],
            cells: gathered_cells(self.x.cells, toks, self.dm),
            quant: self.x.quant,
            layout: self.x.layout,
        }
    }

    /// Activation scales of an expert's tokens.
    pub open spec fn expert_xs(self, expert: int) -> Option<Tensor> {
        let toks = self.tokens(expert, self.t);
        let blocks = self.dm / 32;
        match self.xs {
            None => None,
            Some(xs) => if self.x.quant == QuantScheme::PerBlock32 {
                Some(
                    dense(
                        seq![toks.len() as usize, blocks as usize],
                        Cells::F32(
                            Seq::new(
                                (toks.len() * blocks) as nat,
                                |i: int|
                                    xs.cells.f32_at(toks[i / blocks] * blocks + i % blocks),
                            ),
                        ),
                    ),
                )
            } else if self.x.quant == QuantScheme::PerToken {
                Some(
                    dense(
                        seq![toks.len() as usize],
                        Cells::F32(
                            Seq::new(toks.len(), |i: int| xs.cells.f32_at(toks[i] as int)),
                        ),
                    ),
                )
            } else {
                None
            },
        }
    }

    /// Width of the joint gate and up projection of all experts.
    pub open spec fn width(self) -> int {
        self.e * self.dff * 2
    }

    /// Target of an expert's gate and up projection.
    pub open spec fn expert_target(self, expert: int) -> Tensor {
        let le = self.tokens(expert, self.t).len();
        dense(
            seq![le as usize, self.width() as usize],
            Cells::F32(Seq::new((le * self.width()) as nat, |i: int| 0u32)),
        )
    }

    /// Operands of an expert's gate and up projection.
    pub open spec fn expert_gemm<G: Fn(FormatQuery) -> Result<u64, FormatError>>(
        self,
        g: G,
        expert: int,
    ) -> GemmArgs {
        gemm_args(
            g,
            gate_up_op(),
            self.expert_x(expert),
            self.expert_xs(expert),
            self.gate_up,
            self.gate_up_scale,
            None,
            None,
        )
    }

    /// Gates and ups of an expert's tokens, for all experts' rows.
    pub open spec fn projected<
        F: Fn(FloatOp, u32, u32) -> u32,
        G: Fn(FormatQuery) -> Result<u64, FormatError>,
    >(self, f: F, g: G, expert: int) -> Result<Seq<u32>, ErrorView> {
        let le = self.tokens(expert, self.t).len();
        let fault = or_fault(
            fault_if(
                le * self.width() > usize::MAX,
                overflow_error(
                    "moe_ffn",
                    quoting("Le * 2Dff overflows usize for Le={}", seq![Arg::Int(le as u64)]),
                ),
            ),
            matmul_fault(
                g,
                gate_up_op(),
                self.expert_x(expert),
                self.expert_xs(expert),
                self.gate_up,
                self.gate_up_scale,
                None,
                None,
                self.expert_target(expert),
            ),
        );
        match fault {
            Some(e) => Err(e),
            None => match self.expert_gemm(g, expert).first_error(f, g) {
                Some(e) => Err(e),
                None => Ok(self.expert_gemm(g, expert).values(f, g)),
            },
        }
    }

    /// Hidden element of a token: the activated gate times the up.
    pub open spec fn hidden_at<F: Fn(FloatOp, u32, u32) -> u32>(
        self,
        f: F,
        h: Seq<u32>,
        expert: int,
        i: int,
    ) -> u32 {
        let at = i / self.dff * self.width() + expert * 2 * self.dff + i % self.dff;
        fp_mul(f, activated(f, h[at], self.act), h[at + self.dff])
    }

    /// Hidden rows of an expert's tokens.
    pub open spec fn hidden<F: Fn(FloatOp, u32, u32) -> u32>(
        self,
        f: F,
        h: Seq<u32>,
        expert: int,
    ) -> Seq<u32> {
        Seq::new(
            (self.tokens(expert, self.t).len() * self.dff) as nat,
            |i: int| self.hidden_at(f, h, expert, i),
        )
    }

    /// Product of the first `n` hidden elements of a row with a row of the down
    /// projection.
    pub open spec fn down_dot<
        F: Fn(FloatOp, u32, u32) -> u32,
        G: Fn(FormatQuery) -> Result<u64, FormatError>,
    >(self, f: F, g: G, hid: Seq<u32>, expert: int, r: int, d: int, n: int) -> Result<
        u32,
        ErrorView,
    >
        decreases n,
    {
        if n <= 0 {
            Ok(0u32)
        } else {
            match self.down_dot(f, g, hid, expert, r, d, n - 1) {
                Err(e) => Err(e),
                Ok(acc) => match self.down.element(f, g, expert * self.dm + d, n - 1) {
                    Err(e) => Err(e),
                    Ok(w) => Ok(fp_add(f, acc, fp_mul(f, hid[r * self.dff + n - 1], w))),
                },
            }
        }
    }

    /// First `n` elements of the down projection of an expert's hidden rows.
    pub open spec fn down_rows<
        F: Fn(FloatOp, u32, u32) -> u32,
        G: Fn(FormatQuery) -> Result<u64, FormatError>,
    >(self, f: F, g: G, hid: Seq<u32>, expert: int, n: int) -> Result<Seq<u32>, ErrorView>
        decreases n,
    {
        if n <= 0 {
            Ok(Seq::<u32>::empty())
        } else {
            match self.down_rows(f, g, hid, expert, n - 1) {
                Err(e) => Err(e),
                Ok(out) => match self.down_dot(
                    f,
                    g,
                    hid,
                    expert,
                    (n - 1) / self.dm,
                    (n - 1) % self.dm,
                    self.dff,
                ) {
                    Err(e) => Err(e),
                    Ok(v) => Ok(out.push(v)),
                },
            }
        }
    }

    /// Output rows of an expert for its tokens.
    #[verifier::opaque]
    pub open spec fn expert_out<
        F: Fn(FloatOp, u32, u32) -> u32,
        G: Fn(FormatQuery) -> Result<u64, FormatError>,
    >(self, f: F, g: G, expert: int) -> Result<Seq<u32>, ErrorView> {
        match self.projected(f, g, expert) {
            Err(e) => Err(e),
            Ok(h) => match self.down_error {
                Some(e) => Err(e),
                None => self.down_rows(
                    f,
                    g,
                    self.hidden(f, h, expert),
                    expert,
                    self.tokens(expert, self.t).len() * self.dm,
                ),
            },
        }
    }

    /// Outputs after an expert's contributions along the first `n` routes, in
    /// the order of tokens and slots.
    pub open spec fn combined<F: Fn(FloatOp, u32, u32) -> u32>(
        self,
        f: F,
        expert: int,
        out: Seq<u32>,
        y: Seq<u32>,
        n: int,
    ) -> Seq<u32>
        decreases n,
    {
        if n <= 0 {
            y
        } else {
            let before = self.combined(f, expert, out, y, n - 1);
            if self.ids.u32_at(n - 1) == expert {
                let tok = (n - 1) / self.k;
                let r = self.tokens(expert, tok).len() as int;
                Seq::new(
                    (self.t * self.dm) as nat,
                    |i: int|
                        if i / self.dm == tok {
                            fp_add(
                                f,
                                before[i],
                                fp_mul(
                                    f,
                                    self.weights.cells.f32_at(n - 1),
                                    out[r * self.dm + i % self.dm],
                                ),
                            )
                        } else {
                            before[i]
                        },
                )
            } else {
                before
            }
        }
    }

    /// Whether the operands have the extents and the storage of the layer.
    pub open spec fn wf(self) -> bool {
        &&& 0 < self.t <= u32::MAX
        &&& 0 < self.dm <= u32::MAX
        &&& 0 < self.k <= u32::MAX
        &&& 0 < self.e <= u32::MAX
        &&& 0 < self.dff <= u32::MAX
        &&& self.x.backed()
        &&& self.x.count() == self.t * self.dm
        &&& is_activation(self.x.dtype(), self.x.quant)
        &&& self.x.quant == QuantScheme::PerToken ==> self.xs is Some && self.xs->0.backed()
            && self.xs->0.count() == self.t
        &&& self.x.quant == QuantScheme::PerBlock32 ==> self.xs is Some && self.xs->0.backed()
            && self.xs->0.count() == self.t * (self.dm / 32)
        &&& self.x.quant == QuantScheme::Unquantized ==> self.xs is None
        &&& self.ids.dtype() == DType::U32
        &&& u32_capacity(self.ids) >= self.t * self.k
        &&& self.ids.cells.len() <= usize::MAX
        &&& forall|p: int|
            0 <= p < self.t * self.k ==> #[trigger] self.ids.u32_at(p) < self.e
        &&& self.weights.backed()
        &&& self.weights.count() == self.t * self.k
        &&& self.down.wf()
        &&& !self.down.transposed
        &&& self.down.n == self.e * self.dm
        &&& self.down.k == self.dff
        &&& self.width() <= usize::MAX
        &&& self.gate_up.cells is Bytes
    }

    /// Outputs after the first `n` experts.
    pub open spec fn outputs<
        F: Fn(FloatOp, u32, u32) -> u32,
        G: Fn(FormatQuery) -> Result<u64, FormatError>,
    >(self, f: F, g: G, n: int) -> Result<Seq<u32>, ErrorView>
        decreases n,
    {
        if n <= 0 {
            Ok(Seq::new((self.t * self.dm) as nat, |i: int| 0u32))
        } else {
            match self.outputs(f, g, n - 1) {
                Err(e) => Err(e),
                Ok(y) => if self.tokens(n - 1, self.t).len() == 0 {
                    Ok(y)
                } else {
                    match self.expert_out(f, g, n - 1) {
                        Err(e) => Err(e),
                        Ok(out) => Ok(self.combined(f, n - 1, out, y, self.t * self.k)),
                    }
                },
            }
        }
    }
}

/// The down projections of an expert layer.
pub open spec fn down_matrix<G: Fn(FormatQuery) -> Result<u64, FormatError>>(
    g: G,
    down: Tensor,
    down_scale: Option<Tensor>,
    e: usize,
    dff: usize,
) -> Matrix {
    let form = down_form(down, e, dff);
    Matrix {
        bytes: down.cells->Bytes_1,
        scales: scale_bytes(
            down,
            down_scale,
            form.tiled,
            match form.padded(g, down_carrier(down.dtype())) {
                Ok(v) => v as int,
                Err(_) => usize::MAX as int,
            },
        ),
        separate: down_scale is Some,
        tiled: form.tiled,
        transposed: false,
        scheme: form.scheme,
        n: form.n as int,
        k: form.k as int,
        block: form.block,
        shape: down.shape,
        names: WeightNames {
            op: "moe_ffn",
            tensor: "w_down",
            scale_tensor: "w_down_scale",
            byte_text: "l1_forward_index",
            half_text: "L1 F16 down offset overflows",
            row_shape: true,
        },
    }
}

/// Operands of an expert layer.
pub open spec fn moe_args<G: Fn(FormatQuery) -> Result<u64, FormatError>>(
    g: G,
    op: MoeFfnOp,
    x: Tensor,
    ids: Tensor,
    weights: Tensor,
    gate_up: Tensor,
    gate_up_scale: Option<Tensor>,
    down: Tensor,
    down_scale: Option<Tensor>,
    x_scale: Option<Tensor>,
) -> MoeArgs {
    let e = gate_up.shape[0];
    let dff = down.shape[2];
    let dm = x.shape[1];
    let padded = down_form(down, e, dff).padded(g, down_carrier(down.dtype()));
    MoeArgs {
        x,
        xs: x_scale,
        ids,
        weights,
        gate_up: Tensor { shape: seq![(e * dff * 2) as usize, dm], ..gate_up },
        gate_up_scale,
        down: down_matrix(g, down, down_scale, e, dff),
        down_error: if down.layout == LayoutId::L1 && down_scale is None && padded is Err {
            Some(padded->Err_0)
        } else {
            None
        },
        act: op.act,
        t: x.shape[0] as int,
        dm: dm as int,
        k: ids.shape[1] as int,
        e: e as int,
        dff: dff as int,
    }
}

/// An expert's tokens are ascending, and those below a row come first.
pub proof fn lemma_tokens(a: MoeArgs, expert: int, n: int, m: int)
    requires
        0 <= n <= m,
    ensures
        a.tokens(expert, n).len() <= a.tokens(expert, m).len(),
        a.tokens(expert, n).len() <= n,
        forall|i: int|
            0 <= i < a.tokens(expert, n).len() ==> (#[trigger] a.tokens(expert, n)[i]) < n
                && a.tokens(expert, n)[i] == a.tokens(expert, m)[i],
    decreases m,
{
    if n < m {
        lemma_tokens(a, expert, n, m - 1);
        lemma_tokens(a, expert, m - 1, m - 1);
    } else if n > 0 {
        lemma_tokens(a, expert, n - 1, n - 1);
    }
}

/// Collects the tokens that are routed to an expert.
fn expert_tokens(ids: &TensorView<'_>, t: usize, k: usize, expert: u32, Ghost(a): Ghost<MoeArgs>)
    -> (r: Vec<usize>)
    requires
        a.wf(),
        a.ids == ids@,
        a.t == t,
        a.k == k,
    ensures
        r@ == a.tokens(expert as int, t as int),
{
    let mut toks: Vec<usize> = Vec::new();
    let have: usize = ids.backing_len();
    for row in 0..t
        invariant
            a.wf(),
            a.ids == ids@,
            a.t == t,
            a.k == k,
            have == ids@.cells.len(),
            toks@ == a.tokens(expert as int, row as int),
    {
        let mut found: bool = false;
        for slot in 0..k
            invariant
                a.wf(),
                a.ids == ids@,
                a.t == t,
                a.k == k,
                row < t,
                have == ids@.cells.len(),
                found == (exists|s: int|
                    0 <= s < slot && #[trigger] a.ids.u32_at(row * k + s) == expert),
        {
            proof {
                lemma_flat_bound(row as int, t as int, slot as int, k as int);
                lemma_id_holds(a, row * k + slot);
            }
            let id: u32 = ids.read_u32(row * k + slot);
            if id == expert {
                found = true;
                assert(a.ids.u32_at(row * k + slot) == expert);
            }
        }
        if found {
            toks.push(row);
        }
    }
    toks
}

/// A route's id is in storage.
proof fn lemma_id_holds(a: MoeArgs, p: int)
    requires
        a.wf(),
        0 <= p < a.t * a.k,
    ensures
        a.ids.cells.holds(p),
        p <= usize::MAX,
{
}

/// Rows gathered from a tensor, stored as the tensor stores them.
#[derive(Debug)]
pub enum OwnedRows {
    /// Half-precision codes.
    F16(Vec<u16>),
    /// bfloat16 codes.
    Bf16(Vec<u16>),
    /// Signed bytes.
    I8(Vec<i8>),
    /// Raw bytes of elements of the given type.
    Bytes(DType, Vec<u8>),
}

impl View for OwnedRows {
    type V = Cells;

    open spec fn view(&self) -> Cells {
        match self {
            OwnedRows::F16(v) => Cells::F16(v@),
            OwnedRows::Bf16(v) => Cells::Bf16(v@),
            OwnedRows::I8(v) => Cells::I8(v@),
            OwnedRows::Bytes(dtype, v) => Cells::Bytes(*dtype, v@),
        }
    }
}

impl OwnedRows {
    /// The rows as a tensor.
    pub fn tensor(&self, shape: &[usize], quant: QuantScheme, layout: LayoutId) -> (r: TensorView<'_>)
        ensures
            r@ == (Tensor { shape: shape@, cells: self@, quant, layout }),
            r.scale is None,
    {
        match self {
            OwnedRows::F16(v) => TensorView::from_f16_slice(shape, v.as_slice()).with_quant(
                quant,
            ).with_layout(layout),
            OwnedRows::Bf16(v) => TensorView::from_bf16_slice(shape, v.as_slice()).with_quant(
                quant,
            ).with_layout(layout),
            OwnedRows::I8(v) => TensorView::from_i8_slice(shape, v.as_slice()).with_quant(
                quant,
            ).with_layout(layout),
            OwnedRows::Bytes(dtype, v) => TensorView::from_bytes(
                shape,
                *dtype,
                v.as_slice(),
            ).with_quant(quant).with_layout(layout),
        }
    }
}

/// Copies rows of `width` elements.
fn copy_rows_u16(src: &[u16], toks: &Vec<usize>, width: usize, Ghost(rows): Ghost<int>) -> (out: Vec<u16>)
    requires
        width > 0,
        rows * width <= src@.len(),
        forall|i: int| 0 <= i < toks@.len() ==> (#[trigger] toks@[i]) < rows,
    ensures
        out@ == Seq::new(
            (toks@.len() * width) as nat,
            |i: int| src@[toks@[i / width as int] * width + i % width as int],
        ),
{
    let have: usize = src.len();
    let mut out: Vec<u16> = Vec::new();
    assert(0 * width == 0) by (nonlinear_arith);
    for r in 0..toks.len()
        invariant
            width > 0,
            have == src@.len(),
            rows * width <= have,
            forall|i: int| 0 <= i < toks@.len() ==> (#[trigger] toks@[i]) < rows,
            out@.len() == r * width,
            forall|i: int|
                0 <= i < out@.len() ==> #[trigger] out@[i] == src@[toks@[i / width as int] * width
                    + i % width as int],
    {
        let tok: usize = toks[r];
        for c in 0..width
            invariant
                width > 0,
                have == src@.len(),
                rows * width <= have,
                r < toks@.len(),
                tok == toks@[r as int],
                tok < rows,
                out@.len() == r * width + c,
                forall|i: int|
                    0 <= i < out@.len() ==> #[trigger] out@[i] == src@[toks@[i / width as int]
                        * width + i % width as int],
        {
            proof {
                lemma_flat_bound(tok as int, rows, c as int, width as int);
                lemma_split(r as int, c as int, width as int);
            }
            out.push(src[tok * width + c]);
        }
        assert((r + 1) * width == r * width + width) by (nonlinear_arith);
    }
    assert(out@ =~= Seq::new(
        (toks@.len() * width) as nat,
        |i: int| src@[toks@[i / width as int] * width + i % width as int],
    ));
    out
}

/// Copies rows of `width` elements.
fn copy_rows_i8(src: &[i8], toks: &Vec<usize>, width: usize, Ghost(rows): Ghost<int>) -> (out: Vec<i8>)
    requires
        width > 0,
        rows * width <= src@.len(),
        forall|i: int| 0 <= i < toks@.len() ==> (#[trigger] toks@[i]) < rows,
    ensures
        out@ == Seq::new(
            (toks@.len() * width) as nat,
            |i: int| src@[toks@[i / width as int] * width + i % width as int],
        ),
{
    let have: usize = src.len();
    let mut out: Vec<i8> = Vec::new();
    assert(0 * width == 0) by (nonlinear_arith);
    for r in 0..toks.len()
        invariant
            width > 0,
            have == src@.len(),
            rows * width <= have,
            forall|i: int| 0 <= i < toks@.len() ==> (#[trigger] toks@[i]) < rows,
            out@.len() == r * width,
            forall|i: int|
                0 <= i < out@.len() ==> #[trigger] out@[i] == src@[toks@[i / width as int] * width
                    + i % width as int],
    {
        let tok: usize = toks[r];
        for c in 0..width
            invariant
                width > 0,
                have == src@.len(),
                rows * width <= have,
                r < toks@.len(),
                tok == toks@[r as int],
                tok < rows,
                out@.len() == r * width + c,
                forall|i: int|
                    0 <= i < out@.len() ==> #[trigger] out@[i] == src@[toks@[i / width as int]
                        * width + i % width as int],
        {
            proof {
                lemma_flat_bound(tok as int, rows, c as int, width as int);
                lemma_split(r as int, c as int, width as int);
            }
            out.push(src[tok * width + c]);
        }
        assert((r + 1) * width == r * width + width) by (nonlinear_arith);
    }
    assert(out@ =~= Seq::new(
        (toks@.len() * width) as nat,
        |i: int| src@[toks@[i / width as int] * width + i % width as int],
    ));
    out
}

/// Copies rows of `width` elements.
fn copy_rows_u8(src: &[u8], toks: &Vec<usize>, width: usize, Ghost(rows): Ghost<int>) -> (out: Vec<u8>)
    requires
        width > 0,
        rows * width <= src@.len(),
        forall|i: int| 0 <= i < toks@.len() ==> (#[trigger] toks@[i]) < rows,
    ensures
        out@ == Seq::new(
            (toks@.len() * width) as nat,
            |i: int| src@[toks@[i / width as int] * width + i % width as int],
        ),
{
    let have: usize = src.len();
    let mut out: Vec<u8> = Vec::new();
    assert(0 * width == 0) by (nonlinear_arith);
    for r in 0..toks.len()
        invariant
            width > 0,
            have == src@.len(),
            rows * width <= have,
            forall|i: int| 0 <= i < toks@.len() ==> (#[trigger] toks@[i]) < rows,
            out@.len() == r * width,
            forall|i: int|
                0 <= i < out@.len() ==> #[trigger] out@[i] == src@[toks@[i / width as int] * width
                    + i % width as int],
    {
        let tok: usize = toks[r];
        for c in 0..width
            invariant
                width > 0,
                have == src@.len(),
                rows * width <= have,
                r < toks@.len(),
                tok == toks@[r as int],
                tok < rows,
                out@.len() == r * width + c,
                forall|i: int|
                    0 <= i < out@.len() ==> #[trigger] out@[i] == src@[toks@[i / width as int]
                        * width + i % width as int],
        {
            proof {
                lemma_flat_bound(tok as int, rows, c as int, width as int);
                lemma_split(r as int, c as int, width as int);
            }
            out.push(src[tok * width + c]);
        }
        assert((r + 1) * width == r * width + width) by (nonlinear_arith);
    }
    assert(out@ =~= Seq::new(
        (toks@.len() * width) as nat,
        |i: int| src@[toks@[i / width as int] * width + i % width as int],
    ));
    out
}

/// Gathers the activations of an expert's tokens, bit by bit.
fn gather_activation_rows(x: &TensorView<'_>, toks: &Vec<usize>, dm: usize, Ghost(a): Ghost<MoeArgs>)
    -> (r: OwnedRows)
    requires
        a.wf(),
        a.x == x@,
        a.dm == dm,
        forall|i: int| 0 <= i < toks@.len() ==> (#[trigger] toks@[i]) < a.t,
    ensures
        r@ == gathered_cells(x@.cells, toks@, dm as int),
{
    match x.data {
        TensorData::F16(s) => OwnedRows::F16(copy_rows_u16(s, toks, dm, Ghost(a.t))),
        TensorData::Bf16(s) => OwnedRows::Bf16(copy_rows_u16(s, toks, dm, Ghost(a.t))),
        TensorData::I8(s) => OwnedRows::I8(copy_rows_i8(s, toks, dm, Ghost(a.t))),
        TensorData::Bytes(dtype, s) => {
            let wide: bool = dtype == DType::F16 || dtype == DType::Bf16;
            let have: usize = s.len();
            let ghost size = element_size(dtype);
            proof {
                assert(a.t * (dm * size) == size * (a.t * dm)) by (nonlinear_arith);
                assert(dm * size <= a.t * (dm * size)) by (nonlinear_arith)
                    requires
                        a.t >= 1,
                        dm * size >= 0,
                ;
            }
            let stride: usize = if wide {
                dm * 2
            } else {
                dm
            };
            OwnedRows::Bytes(dtype, copy_rows_u8(s, toks, stride, Ghost(a.t)))
        },
        _ => OwnedRows::I8(Vec::new()),
    }
}

/// Gathers the activation scales of an expert's tokens.
fn gather_scale_rows(
    x: &TensorView<'_>,
    xs: Option<&TensorView<'_>>,
    toks: &Vec<usize>,
    dm: usize,
    Ghost(a): Ghost<MoeArgs>,
    Ghost(expert): Ghost<int>,
) -> (r: Option<Vec<u32>>)
    requires
        a.wf(),
        a.x == x@,
        a.xs == opt_view(xs),
        a.dm == dm,
        toks@ == a.tokens(expert, a.t),
        forall|i: int| 0 <= i < toks@.len() ==> (#[trigger] toks@[i]) < a.t,
    ensures
        match a.expert_xs(expert) {
            None => r is None,
            Some(t) => r is Some && t.cells == Cells::F32(r->0@),
        },
{
    let xs = match xs {
        None => {
            return None;
        },
        Some(t) => t,
    };
    let mut out: Vec<u32> = Vec::new();
    match x.quant() {
        QuantScheme::PerToken => {
            for r in 0..toks.len()
                invariant
                    xs@.backed(),
                    xs@.count() == a.t,
                    forall|i: int| 0 <= i < toks@.len() ==> (#[trigger] toks@[i]) < a.t,
                    out@ =~= Seq::new(r as nat, |i: int| xs@.cells.f32_at(toks@[i] as int)),
            {
                proof {
                    lemma_backed_holds(xs@, toks@[r as int] as int);
                }
                out.push(xs.read_f32(toks[r]));
            }
            Some(out)
        },
        QuantScheme::PerBlock32 => {
            let blocks: usize = dm / 32;
            assert(0 * blocks == 0) by (nonlinear_arith);
            for r in 0..toks.len()
                invariant
                    xs@.backed(),
                    xs@.count() == a.t * blocks,
                    forall|i: int| 0 <= i < toks@.len() ==> (#[trigger] toks@[i]) < a.t,
                    out@.len() == r * blocks,
                    forall|i: int|
                        0 <= i < out@.len() ==> #[trigger] out@[i] == xs@.cells.f32_at(
                            toks@[i / blocks as int] * blocks + i % blocks as int,
                        ),
            {
                let tok: usize = toks[r];
                for b in 0..blocks
                    invariant
                        xs@.backed(),
                        xs@.count() == a.t * blocks,
                        r < toks@.len(),
                        tok == toks@[r as int],
                        tok < a.t,
                        out@.len() == r * blocks + b,
                        forall|i: int|
                            0 <= i < out@.len() ==> #[trigger] out@[i] == xs@.cells.f32_at(
                                toks@[i / blocks as int] * blocks + i % blocks as int,
                            ),
                {
                    proof {
                        lemma_flat_bound(tok as int, a.t, b as int, blocks as int);
                        lemma_split(r as int, b as int, blocks as int);
                        lemma_backed_holds(xs@, tok * blocks + b);
                        lemma_count_fits(xs@);
                    }
                    out.push(xs.read_f32(tok * blocks + b));
                }
                assert((r + 1) * blocks == r * blocks + blocks) by (nonlinear_arith);
            }
            assert(out@ =~= a.expert_xs(expert)->0.cells->F32_0);
            Some(out)
        },
        _ => None,
    }
}

/// Gates and ups of an expert's tokens.
fn project<
    F: Fn(FloatOp, u32, u32) -> u32,
    G: Fn(FormatQuery) -> Result<u64, FormatError>,
>(
    f: &F,
    g: &G,
    x: &TensorView<'_>,
    xs: Option<&TensorView<'_>>,
    gate_up: &TensorView<'_>,
    gate_up_scale: Option<&TensorView<'_>>,
    toks: &Vec<usize>,
    dm: usize,
    width: usize,
    Ghost(a): Ghost<MoeArgs>,
    Ghost(expert): Ghost<int>,
) -> (r: Result<Vec<u32>, T0Error>)
    requires
        is_arith(*f),
        is_format(*g),
        a.wf(),
        a.x == x@,
        a.xs == opt_view(xs),
        a.gate_up == gate_up@,
        a.gate_up_scale == opt_view(gate_up_scale),
        a.dm == dm,
        a.width() == width,
        toks@ == a.tokens(expert, a.t),
        forall|i: int| 0 <= i < toks@.len() ==> (#[trigger] toks@[i]) < a.t,
    ensures
        match r {
            Ok(h) => a.projected(*f, *g, expert) == Ok::<Seq<u32>, ErrorView>(h@),
            Err(e) => a.projected(*f, *g, expert) == Err::<Seq<u32>, ErrorView>(e.view()),
        },
{
    let le: usize = toks.len();
    let len: usize = match le.checked_mul(width) {
        Some(v) => v,
        None => {
            return Err(
                overflow(
                    "moe_ffn",
                    Detail::one("Le * 2Dff overflows usize for Le={}", Arg::Int(le as u64)),
                ),
            );
        },
    };
    let rows = gather_activation_rows(x, toks, dm, Ghost(a));
    let shape = vec![le, dm];
    assert(shape@ =~= seq![le, dm]);
    let gx = rows.tensor(shape.as_slice(), x.quant(), x.layout());
    assert(gx@ =~= a.expert_x(expert));
    let scales = gather_scale_rows(x, xs, toks, dm, Ghost(a), Ghost(expert));
    let scale_shape = if x.quant() == QuantScheme::PerBlock32 {
        vec![le, dm / 32]
    } else {
        vec![le]
    };
    assert(scale_shape@ =~= (if x@.quant == QuantScheme::PerBlock32 {
        seq![le, (dm / 32) as usize]
    } else {
        seq![le]
    }));
    let empty: Vec<u32> = Vec::new();
    let has_scales: bool = scales.is_some();
    let scale_data: &[u32] = match &scales {
        Some(v) => v.as_slice(),
        None => empty.as_slice(),
    };
    let scale_view = TensorView::from_f32_slice(scale_shape.as_slice(), scale_data);
    let gxs: Option<&TensorView<'_>> = if has_scales {
        Some(&scale_view)
    } else {
        None
    };
    proof {
        assert(opt_view(gxs) == a.expert_xs(expert));
    }
    let op = MatmulOp {
        out_dtype: DType::F32,
        epilogue: Epilogue::Plain,
        transpose_w: false,
    };
    let mut buffer: Vec<u32> = vec![0u32; len];
    let target_shape = vec![le, width];
    assert(target_shape@ =~= seq![le, width]);
    let target = TensorViewMut::from_f32_slice(target_shape.as_slice(), buffer.as_mut_slice());
    proof {
        assert(target@ =~= a.expert_target(expert)) by {
            assert(target@.cells->F32_0 =~= Seq::new((le * width) as nat, |i: int| 0u32));
        }
        assert(opt_view(None::<&TensorView<'_>>) is None);
    }
    let weights = match plan_matmul(
        g,
        &op,
        &gx,
        gxs,
        gate_up,
        gate_up_scale,
        None,
        None,
        &target,
    ) {
        Ok(v) => v,
        Err(e) => {
            return Err(e);
        },
    };
    let gemm = Gemm {
        x: &gx,
        xs: gxs,
        w: &weights,
        bias: None,
        residual: None,
        epilogue: Epilogue::Plain,
        m: le,
    };
    assert(gemm@ == a.expert_gemm(*g, expert));
    let (values, error) = gemm.run(f, g);
    match error {
        None => Ok(values),
        Some(e) => Err(e),
    }
}

/// Hidden rows of an expert's tokens.
fn hidden_rows<F: Fn(FloatOp, u32, u32) -> u32>(
    f: &F,
    h: &Vec<u32>,
    le: usize,
    width: usize,
    dff: usize,
    expert: usize,
    act: ActivationKind,
    Ghost(a): Ghost<MoeArgs>,
) -> (r: Vec<u32>)
    requires
        is_arith(*f),
        a.wf(),
        a.width() == width,
        a.dff == dff,
        a.act == act,
        0 <= expert < a.e,
        le == a.tokens(expert as int, a.t).len(),
        h@.len() == le * width,
    ensures
        r@ == a.hidden(*f, h@, expert as int),
{
    let have: usize = h.len();
    let mut out: Vec<u32> = Vec::new();
    proof {
        assert(0 * dff == 0) by (nonlinear_arith);
        assert(expert * 2 * dff + 2 * dff <= width) by (nonlinear_arith)
            requires
                expert + 1 <= a.e,
                width == a.e * dff * 2,
                dff >= 0,
        ;
        assert(0 <= expert * 2 * dff) by (nonlinear_arith)
            requires
                0 <= expert,
                0 <= dff,
        ;
        assert(expert * 2 <= expert * 2 * dff) by (nonlinear_arith)
            requires
                0 <= expert,
                1 <= dff,
        ;
    }
    let base: usize = expert * 2 * dff;
    for r in 0..le
        invariant
            is_arith(*f),
            a.wf(),
            a.width() == width,
            a.dff == dff,
            a.act == act,
            0 <= expert < a.e,
            base == expert * 2 * dff,
            base + 2 * dff <= width,
            have == h@.len(),
            h@.len() == le * width,
            out@.len() == r * dff,
            forall|i: int|
                0 <= i < out@.len() ==> #[trigger] out@[i] == a.hidden_at(
                    *f,
                    h@,
                    expert as int,
                    i,
                ),
    {
        for d in 0..dff
            invariant
                is_arith(*f),
                a.wf(),
                a.width() == width,
                a.dff == dff,
                a.act == act,
                0 <= expert < a.e,
                base == expert * 2 * dff,
                base + 2 * dff <= width,
                have == h@.len(),
                h@.len() == le * width,
                r < le,
                out@.len() == r * dff + d,
                forall|i: int|
                    0 <= i < out@.len() ==> #[trigger] out@[i] == a.hidden_at(
                        *f,
                        h@,
                        expert as int,
                        i,
                    ),
        {
            proof {
                lemma_flat_bound(r as int, le as int, base + dff + d, width as int);
                lemma_split(r as int, d as int, dff as int);
            }
            let at: usize = r * width + base + d;
            let gate: u32 = eval_activation_f32(f, h[at], act);
            let v: u32 = times(f, gate, h[at + dff]);
            assert(v == a.hidden_at(*f, h@, expert as int, r * dff + d));
            out.push(v);
        }
        assert((r + 1) * dff == r * dff + dff) by (nonlinear_arith);
    }
    assert(out@ =~= a.hidden(*f, h@, expert as int));
    out
}

/// Once a partial product is an error, it stays that error.
proof fn lemma_down_dot_err<
    F: Fn(FloatOp, u32, u32) -> u32,
    G: Fn(FormatQuery) -> Result<u64, FormatError>,
>(
    a: MoeArgs,
    f: F,
    g: G,
    hid: Seq<u32>,
    expert: int,
    r: int,
    d: int,
    n: int,
    count: int,
    e: ErrorView,
)
    requires
        1 <= n <= count,
        a.down_dot(f, g, hid, expert, r, d, n) == Err::<u32, ErrorView>(e),
    ensures
        a.down_dot(f, g, hid, expert, r, d, count) == Err::<u32, ErrorView>(e),
    decreases count - n,
{
    if n < count {
        lemma_down_dot_err(a, f, g, hid, expert, r, d, n + 1, count, e);
    }
}

/// Once a partial list of rows is an error, it stays that error.
proof fn lemma_down_rows_err<
    F: Fn(FloatOp, u32, u32) -> u32,
    G: Fn(FormatQuery) -> Result<u64, FormatError>,
>(
    a: MoeArgs,
    f: F,
    g: G,
    hid: Seq<u32>,
    expert: int,
    n: int,
    count: int,
    e: ErrorView,
)
    requires
        1 <= n <= count,
        a.down_rows(f, g, hid, expert, n) == Err::<Seq<u32>, ErrorView>(e),
    ensures
        a.down_rows(f, g, hid, expert, count) == Err::<Seq<u32>, ErrorView>(e),
    decreases count - n,
{
    if n < count {
        lemma_down_rows_err(a, f, g, hid, expert, n + 1, count, e);
    }
}

/// Product of a hidden row with a row of the down projection.
fn down_dot_at<
    F: Fn(FloatOp, u32, u32) -> u32,
    G: Fn(FormatQuery) -> Result<u64, FormatError>,
>(
    f: &F,
    g: &G,
    hid: &Vec<u32>,
    le: usize,
    expert: usize,
    r: usize,
    d: usize,
    row: usize,
    down: &Weights<'_>,
    dff: usize,
    Ghost(a): Ghost<MoeArgs>,
) -> (res: Result<u32, T0Error>)
    requires
        is_arith(*f),
        is_format(*g),
        a.down == down@,
        a.down.wf(),
        a.down.k == dff,
        a.dff == dff,
        row == expert * a.dm + d,
        row < a.down.n,
        hid@.len() == le * dff,
        r < le,
    ensures
        outcome(res) == a.down_dot(
            *f,
            *g,
            hid@,
            expert as int,
            r as int,
            d as int,
            dff as int,
        ),
{
    let have: usize = hid.len();
    let mut acc: u32 = 0;
    for i in 0..dff
        invariant
            is_arith(*f),
            is_format(*g),
            a.down == down@,
            a.down.wf(),
            a.down.k == dff,
            a.dff == dff,
            row == expert * a.dm + d,
            row < a.down.n,
            have == hid@.len(),
            have == le * dff,
            r < le,
            a.down_dot(*f, *g, hid@, expert as int, r as int, d as int, i as int) == Ok::<
                u32,
                ErrorView,
            >(acc),
    {
        let w: u32 = match down.element_at(f, g, row, i) {
            Ok(v) => v,
            Err(e) => {
                proof {
                    lemma_down_dot_err(
                        a,
                        *f,
                        *g,
                        hid@,
                        expert as int,
                        r as int,
                        d as int,
                        i + 1,
                        dff as int,
                        e.view(),
                    );
                }
                return Err(e);
            },
        };
        proof {
            lemma_flat_bound(r as int, le as int, i as int, dff as int);
        }
        acc = plus(f, acc, times(f, hid[r * dff + i], w));
    }
    Ok(acc)
}

/// Down projection of an expert's hidden rows.
fn down_gemm<
    F: Fn(FloatOp, u32, u32) -> u32,
    G: Fn(FormatQuery) -> Result<u64, FormatError>,
>(
    f: &F,
    g: &G,
    hid: &Vec<u32>,
    le: usize,
    expert: usize,
    down: &Weights<'_>,
    dm: usize,
    dff: usize,
    Ghost(a): Ghost<MoeArgs>,
) -> (r: Result<Vec<u32>, T0Error>)
    requires
        is_arith(*f),
        is_format(*g),
        a.wf(),
        a.down == down@,
        a.dm == dm,
        a.dff == dff,
        0 <= expert < a.e,
        hid@.len() == le * dff,
    ensures
        match r {
            Ok(v) => a.down_rows(*f, *g, hid@, expert as int, le * dm) == Ok::<
                Seq<u32>,
                ErrorView,
            >(v@) && v@.len() == le * dm,
            Err(e) => a.down_rows(*f, *g, hid@, expert as int, le * dm) == Err::<
                Seq<u32>,
                ErrorView,
            >(e.view()),
        },
{
    let have: usize = hid.len();
    let mut out: Vec<u32> = Vec::new();
    proof {
        assert(0 * dm == 0) by (nonlinear_arith);
        lemma_flat_bound(expert as int, a.e, 0, dm as int);
        assert(out@ =~= Seq::<u32>::empty());
    }
    let first: usize = expert * dm;
    for r in 0..le
        invariant
            is_arith(*f),
            is_format(*g),
            a.wf(),
            a.down == down@,
            a.dm == dm,
            a.dff == dff,
            0 <= expert < a.e,
            first == expert * dm,
            have == hid@.len(),
            have == le * dff,
            out@.len() == r * dm,
            a.down_rows(*f, *g, hid@, expert as int, r * dm) == Ok::<Seq<u32>, ErrorView>(out@),
    {
        for d in 0..dm
            invariant
                is_arith(*f),
                is_format(*g),
                a.wf(),
                a.down == down@,
                a.dm == dm,
                a.dff == dff,
                0 <= expert < a.e,
                first == expert * dm,
                have == hid@.len(),
                have == le * dff,
                r < le,
                out@.len() == r * dm + d,
                a.down_rows(*f, *g, hid@, expert as int, r * dm + d) == Ok::<Seq<u32>, ErrorView>(
                    out@,
                ),
        {
            proof {
                lemma_flat_bound(expert as int, a.e, d as int, dm as int);
                lemma_split(r as int, d as int, dm as int);
                lemma_flat_bound(r as int, le as int, d as int, dm as int);
            }
            let row: usize = first + d;
            let acc: u32 = match down_dot_at(
                f,
                g,
                hid,
                le,
                expert,
                r,
                d,
                row,
                down,
                dff,
                Ghost(a),
            ) {
                Ok(v) => v,
                Err(e) => {
                    proof {
                        lemma_down_rows_err(
                            a,
                            *f,
                            *g,
                            hid@,
                            expert as int,
                            r * dm + d + 1,
                            le * dm,
                            e.view(),
                        );
                    }
                    return Err(e);
                },
            };
            out.push(acc);
        }
        assert((r + 1) * dm == r * dm + dm) by (nonlinear_arith);
    }
    Ok(out)
}

/// Adds an expert's weighted rows to the outputs, in the order of tokens and
/// slots.
fn combine<F: Fn(FloatOp, u32, u32) -> u32>(
    f: &F,
    ids: &TensorView<'_>,
    weights: &TensorView<'_>,
    out: &Vec<u32>,
    y: &mut Vec<u32>,
    t: usize,
    dm: usize,
    k: usize,
    expert: u32,
    Ghost(a): Ghost<MoeArgs>,
)
    requires
        is_arith(*f),
        a.wf(),
        a.ids == ids@,
        a.weights == weights@,
        a.t == t,
        a.dm == dm,
        a.k == k,
        0 <= expert < a.e,
        out@.len() == a.tokens(expert as int, t as int).len() * dm,
        old(y)@.len() == t * dm,
    ensures
        final(y)@ == a.combined(*f, expert as int, out@, old(y)@, t * k),
        final(y)@.len() == t * dm,
{
    let ghost start = y@;
    let have: usize = ids.backing_len();
    let room: usize = y.len();
    let rows: usize = out.len();
    let mut rank: usize = 0;
    assert(0 * k == 0) by (nonlinear_arith);
    for row in 0..t
        invariant
            is_arith(*f),
            a.wf(),
            a.ids == ids@,
            a.weights == weights@,
            a.t == t,
            a.dm == dm,
            a.k == k,
            0 <= expert < a.e,
            rows == out@.len(),
            room == t * dm,
            out@.len() == a.tokens(expert as int, t as int).len() * dm,
            rank == a.tokens(expert as int, row as int).len(),
            rank <= row,
            y@.len() == t * dm,
            y@ == a.combined(*f, expert as int, out@, start, row * k),
    {
        let mut found: bool = false;
        for slot in 0..k
            invariant
                is_arith(*f),
                a.wf(),
                a.ids == ids@,
                a.weights == weights@,
                a.t == t,
                a.dm == dm,
                a.k == k,
                0 <= expert < a.e,
                rows == out@.len(),
                room == t * dm,
                out@.len() == a.tokens(expert as int, t as int).len() * dm,
                row < t,
                rank == a.tokens(expert as int, row as int).len(),
                found == (exists|s: int|
                    0 <= s < slot && #[trigger] a.ids.u32_at(row * k + s) == expert),
                y@.len() == t * dm,
                y@ == a.combined(*f, expert as int, out@, start, row * k + slot),
        {
            proof {
                lemma_flat_bound(row as int, t as int, slot as int, k as int);
                lemma_split(row as int, slot as int, k as int);
                lemma_id_holds(a, row * k + slot);
                lemma_backed_holds(weights@, row * k + slot);
            }
            let p: usize = row * k + slot;
            let id: u32 = ids.read_u32(p);
            if id == expert {
                found = true;
                let w: u32 = weights.read_f32(p);
                let ghost before = y@;
                proof {
                    assert(a.ids.u32_at(row * k + slot) == expert);
                    assert(a.routed(row as int, expert as int));
                    lemma_tokens(a, expert as int, row + 1, t as int);
                    assert(rank < a.tokens(expert as int, t as int).len());
                }
                for d in 0..dm
                    invariant
                        is_arith(*f),
                        a.dm == dm,
                        room == t * dm,
                        rows == out@.len(),
                        row < t,
                        rank < a.tokens(expert as int, t as int).len(),
                        out@.len() == a.tokens(expert as int, t as int).len() * dm,
                        w == a.weights.cells.f32_at(p as int),
                        before.len() == t * dm,
                        y@.len() == t * dm,
                        forall|i: int|
                            0 <= i < t * dm ==> #[trigger] y@[i] == (if row * dm <= i < row * dm
                                + d {
                                fp_add(
                                    *f,
                                    before[i],
                                    fp_mul(*f, w, out@[rank * dm + (i - row * dm)]),
                                )
                            } else {
                                before[i]
                            }),
                {
                    proof {
                        lemma_flat_bound(row as int, t as int, d as int, dm as int);
                        lemma_flat_bound(
                            rank as int,
                            a.tokens(expert as int, t as int).len() as int,
                            d as int,
                            dm as int,
                        );
                    }
                    let v: u32 = plus(f, y[row * dm + d], times(f, w, out[rank * dm + d]));
                    y.set(row * dm + d, v);
                }
                proof {
                    let after = a.combined(*f, expert as int, out@, start, row * k + slot + 1);
                    assert forall|i: int| 0 <= i < t * dm implies y@[i] == after[i] by {
                        if row * dm <= i < row * dm + dm {
                            lemma_split(row as int, i - row * dm, dm as int);
                        } else {
                            lemma_other_row(i, row as int, dm as int);
                        }
                    }
                    assert(y@ =~= after);
                }
            }
        }
        if found {
            assert(a.routed(row as int, expert as int));
            rank = rank + 1;
        }
        assert((row + 1) * k == row * k + k) by (nonlinear_arith);
    }
}

/// An index outside a row belongs to another row.
proof fn lemma_other_row(i: int, row: int, n: int)
    requires
        0 <= i,
        0 < n,
        i < row * n || i >= row * n + n,
    ensures
        i / n != row,
{
    vstd::arithmetic::div_mod::lemma_fundamental_div_mod(i, n);
    vstd::arithmetic::div_mod::lemma_mod_bound(i, n);
    if i / n == row {
        assert(i == n * row + i % n);
        assert(n * row == row * n) by (nonlinear_arith);
    }
}

/// Once a partial output is an error, it stays that error.
proof fn lemma_outputs_err<
    F: Fn(FloatOp, u32, u32) -> u32,
    G: Fn(FormatQuery) -> Result<u64, FormatError>,
>(a: MoeArgs, f: F, g: G, n: int, count: int, e: ErrorView)
    requires
        0 <= n <= count,
        a.outputs(f, g, n) == Err::<Seq<u32>, ErrorView>(e),
    ensures
        a.outputs(f, g, count) == Err::<Seq<u32>, ErrorView>(e),
    decreases count - n,
{
    if n < count {
        lemma_outputs_err(a, f, g, n + 1, count, e);
    }
}

/// The error of a tiled down projection whose padded size overflows.
pub open spec fn oversize_error() -> ErrorView {
    overflow_error("moe_ffn", plain("L1 down values size overflows usize"))
}

/// Runs one expert on its tokens.
fn run_expert<
    F: Fn(FloatOp, u32, u32) -> u32,
    G: Fn(FormatQuery) -> Result<u64, FormatError>,
>(
    f: &F,
    g: &G,
    x: &TensorView<'_>,
    xs: Option<&TensorView<'_>>,
    gate_up: &TensorView<'_>,
    gate_up_scale: Option<&TensorView<'_>>,
    down: &Weights<'_>,
    oversized: bool,
    act: ActivationKind,
    toks: &Vec<usize>,
    dm: usize,
    dff: usize,
    width: usize,
    expert: usize,
    Ghost(a): Ghost<MoeArgs>,
) -> (r: Result<Vec<u32>, T0Error>)
    requires
        is_arith(*f),
        is_format(*g),
        a.wf(),
        a.x == x@,
        a.xs == opt_view(xs),
        a.gate_up == gate_up@,
        a.gate_up_scale == opt_view(gate_up_scale),
        a.down == down@,
        a.down_error == fault_if(oversized, oversize_error()),
        a.act == act,
        a.dm == dm,
        a.dff == dff,
        a.width() == width,
        0 <= expert < a.e,
        toks@ == a.tokens(expert as int, a.t),
    ensures
        match r {
            Ok(v) => a.expert_out(*f, *g, expert as int) == Ok::<Seq<u32>, ErrorView>(v@)
                && v@.len() == a.tokens(expert as int, a.t).len() * dm,
            Err(e) => a.expert_out(*f, *g, expert as int) == Err::<Seq<u32>, ErrorView>(e.view()),
        },
{
    let le: usize = toks.len();
    proof {
        lemma_tokens(a, expert as int, a.t, a.t);
        reveal(MoeArgs::expert_out);
    }
    let h = match project(
        f,
        g,
        x,
        xs,
        gate_up,
        gate_up_scale,
        toks,
        dm,
        width,
        Ghost(a),
        Ghost(expert as int),
    ) {
        Ok(v) => v,
        Err(e) => {
            return Err(e);
        },
    };
    if oversized {
        return Err(overflow("moe_ffn", Detail::plain("L1 down values size overflows usize")));
    }
    proof {
        lemma_projected_len(a, *f, *g, expert as int);
    }
    let hid = hidden_rows(f, &h, le, width, dff, expert, act, Ghost(a));
    proof {
        lemma_mul_nonneg(le as int, dff as int);
    }
    down_gemm(f, g, &hid, le, expert, down, dm, dff, Ghost(a))
}

/// Runs all experts in ascending order.
fn run_experts<
    F: Fn(FloatOp, u32, u32) -> u32,
    G: Fn(FormatQuery) -> Result<u64, FormatError>,
>(
    f: &F,
    g: &G,
    x: &TensorView<'_>,
    xs: Option<&TensorView<'_>>,
    ids: &TensorView<'_>,
    weights: &TensorView<'_>,
    gate_up: &TensorView<'_>,
    gate_up_scale: Option<&TensorView<'_>>,
    down: &Weights<'_>,
    oversized: bool,
    act: ActivationKind,
    t: usize,
    dm: usize,
    k: usize,
    e: usize,
    dff: usize,
    Ghost(a): Ghost<MoeArgs>,
) -> (r: Result<Vec<u32>, T0Error>)
    requires
        is_arith(*f),
        is_format(*g),
        a.wf(),
        a == (MoeArgs {
            x: x@,
            xs: opt_view(xs),
            ids: ids@,
            weights: weights@,
            gate_up: gate_up@,
            gate_up_scale: opt_view(gate_up_scale),
            down: down@,
            down_error: fault_if(oversized, oversize_error()),
            act,
            t: t as int,
            dm: dm as int,
            k: k as int,
            e: e as int,
            dff: dff as int,
        }),
    ensures
        match r {
            Ok(y) => a.outputs(*f, *g, e as int) == Ok::<Seq<u32>, ErrorView>(y@) && y@.len() == t
                * dm,
            Err(err) => a.outputs(*f, *g, e as int) == Err::<Seq<u32>, ErrorView>(err.view()),
        },
{
    proof {
        lemma_count_fits(x@);
        assert(e * dff <= e * dff * 2);
    }
    let width: usize = e * dff * 2;
    let mut y: Vec<u32> = vec![0u32; t * dm];
    assert(y@ =~= Seq::new((t * dm) as nat, |i: int| 0u32));
    for expert in 0..e
        invariant
            is_arith(*f),
            is_format(*g),
            a.wf(),
            a == (MoeArgs {
                x: x@,
                xs: opt_view(xs),
                ids: ids@,
                weights: weights@,
                gate_up: gate_up@,
                gate_up_scale: opt_view(gate_up_scale),
                down: down@,
                down_error: fault_if(oversized, oversize_error()),
                act,
                t: t as int,
                dm: dm as int,
                k: k as int,
                e: e as int,
                dff: dff as int,
            }),
            width == a.width(),
            y@.len() == t * dm,
            a.outputs(*f, *g, expert as int) == Ok::<Seq<u32>, ErrorView>(y@),
    {
        let toks = expert_tokens(ids, t, k, expert as u32, Ghost(a));
        if toks.len() > 0 {
            let out = match run_expert(
                f,
                g,
                x,
                xs,
                gate_up,
                gate_up_scale,
                down,
                oversized,
                act,
                &toks,
                dm,
                dff,
                width,
                expert,
                Ghost(a),
            ) {
                Ok(v) => v,
                Err(err) => {
                    proof {
                        lemma_outputs_err(a, *f, *g, expert + 1, e as int, err.view());
                    }
                    return Err(err);
                },
            };
            combine(f, ids, weights, &out, &mut y, t, dm, k, expert as u32, Ghost(a));
        }
    }
    Ok(y)
}

/// A complete projection has a value for every token and row.
proof fn lemma_projected_len<
    F: Fn(FloatOp, u32, u32) -> u32,
    G: Fn(FormatQuery) -> Result<u64, FormatError>,
>(a: MoeArgs, f: F, g: G, expert: int)
    requires
        a.wf(),
        a.projected(f, g, expert) is Ok,
    ensures
        a.projected(f, g, expert)->Ok_0.len() == a.tokens(expert, a.t).len() * a.width(),
{
    let gemm = a.expert_gemm(g, expert);
    crate::matmul::lemma_computed_le(gemm, f, g, gemm.size());
    lemma_tokens(a, expert, a.t, a.t);
    lemma_mul_nonneg(a.e, a.dff);
    lemma_mul_nonneg(gemm.m, gemm.w.n);
    lemma_gate_up_rows(a, g, expert);
}

/// The joint projection has as many rows as the joint width.
proof fn lemma_gate_up_rows<G: Fn(FormatQuery) -> Result<u64, FormatError>>(
    a: MoeArgs,
    g: G,
    expert: int,
)
    requires
        a.wf(),
        matmul_fault(
            g,
            gate_up_op(),
            a.expert_x(expert),
            a.expert_xs(expert),
            a.gate_up,
            a.gate_up_scale,
            None,
            None,
            a.expert_target(expert),
        ) is None,
    ensures
        a.expert_gemm(g, expert).w.n == a.width(),
        a.expert_gemm(g, expert).m == a.tokens(expert, a.t).len(),
{
    lemma_tokens(a, expert, a.t, a.t);
    let y = a.expert_target(expert);
    assert(y.shape[1] == a.width() as usize);
    crate::matmul::lemma_no_dim_faults(
        gate_up_op(),
        a.expert_x(expert),
        a.expert_xs(expert),
        a.gate_up,
        a.gate_up_scale,
        None,
        None,
        y,
    );
}

/// Checks the operands' forms and the attributes.
fn check_moe_form(
    op: &MoeFfnOp,
    x: &TensorView<'_>,
    expert_ids: &TensorView<'_>,
    weights: &TensorView<'_>,
    w_gate_up: &TensorView<'_>,
    w_down: &TensorView<'_>,
    w_down_scale: Option<&TensorView<'_>>,
    x_scale: Option<&TensorView<'_>>,
    y: &TensorViewMut<'_>,
) -> (r: Result<(), T0Error>)
    ensures
        ({
            let faults = moe_form_faults(
                *op,
                x@,
                expert_ids@,
                weights@,
                w_gate_up@,
                w_down@,
                opt_view(w_down_scale),
                opt_view(x_scale),
                y@,
            );
            &&& outcome(r) == fault_result(fault_of(faults))
            &&& r is Ok ==> faults.len() == 0
        }),
{
    let mut problems = no_problems();
    check_rank(&mut problems, "x", 2, x.shape());
    check_rank(&mut problems, "expert_ids", 2, expert_ids.shape());
    check_rank(&mut problems, "weights", 2, weights.shape());
    check_rank(&mut problems, "w_gate_up", 3, w_gate_up.shape());
    check_rank(&mut problems, "w_down", 3, w_down.shape());
    check_rank(&mut problems, "y", 2, y.shape());
    check_row_major(&mut problems, "x", x.layout());
    check_row_major(&mut problems, "expert_ids", expert_ids.layout());
    check_row_major(&mut problems, "weights", weights.layout());
    check_weight_layout(&mut problems, "w_gate_up", w_gate_up.layout());
    check_weight_layout(&mut problems, "w_down", w_down.layout());
    check_row_major(&mut problems, "y", y.layout());
    check_opt_row_major(&mut problems, "x_scale", x_scale);
    check_opt_scale_layout(&mut problems, "w_down_scale", w_down_scale);
    check_activation(&mut problems, x);
    check_dtype(&mut problems, "expert_ids", DType::U32, expert_ids.dtype());
    check_dtype(&mut problems, "weights", DType::F32, weights.dtype());
    let reason = Detail::one("must be f16, bf16, or f32, got {}", Arg::Type(op.out_dtype));
    push_when(
        &mut problems,
        !float_type(op.out_dtype),
        invalid_attr("moe_ffn", "out_dtype", reason),
    );
    check_dtype(&mut problems, "y", op.out_dtype, y.dtype());
    check_weight_dtype(&mut problems, "w_gate_up", w_gate_up.dtype());
    check_weight_dtype(&mut problems, "w_down", w_down.dtype());
    T0Error::from_problems(problems)
}

/// Number of unsigned integers that the storage of a tensor holds.
fn id_capacity(ids: &TensorView<'_>) -> (r: usize)
    requires
        ids@.dtype() == DType::U32,
    ensures
        r == u32_capacity(ids@),
{
    match ids.data {
        TensorData::U32(s) => s.len(),
        TensorData::Bytes(DType::U32, s) => s.len() / 4,
        _ => 0,
    }
}

/// Checks the expert ids against the expert count.
fn check_ids(problems: &mut Vec<T0Error>, ids: &TensorView<'_>, e: usize, n: usize)
    requires
        ids@.dtype() == DType::U32,
        u32_capacity(ids@) >= n,
    ensures
        views(final(problems)@) == views(old(problems)@) + id_faults(ids@, e, n as int),
{
    let ghost before = views(problems@);
    assert(before =~= before + id_faults(ids@, e, 0));
    for pos in 0..n
        invariant
            ids@.dtype() == DType::U32,
            u32_capacity(ids@) >= n,
            views(problems@) == before + id_faults(ids@, e, pos as int),
    {
        let id: u32 = ids.read_u32(pos);
        let err = T0Error::RowIndexOutOfRange {
            op: "moe_ffn",
            tensor: "expert_ids",
            position: pos,
            index: id,
            upper_bound: e,
        };
        push_when(problems, id as usize >= e, err);
        assert(views(problems@) =~= before + id_faults(ids@, e, pos + 1));
    }
}

proof fn lemma_ids_ok(ids: Tensor, e: usize, n: int, i: int)
    requires
        id_faults(ids, e, n).len() == 0,
        0 <= i < n,
    ensures
        ids.u32_at(i) < e,
    decreases n,
{
    if i < n - 1 {
        lemma_ids_ok(ids, e, n - 1, i);
    }
}

/// Checks that every activation scale is finite and not negative.
fn check_scale_values(problems: &mut Vec<T0Error>, xs: &TensorView<'_>)
    requires
        xs@.backed(),
    ensures
        views(final(problems)@) == views(old(problems)@) + scale_value_faults(xs@, xs@.count()),
{
    let ghost before = views(problems@);
    assert(before =~= before + scale_value_faults(xs@, 0));
    let n: usize = xs.num_elements();
    for i in 0..n
        invariant
            xs@.backed(),
            n == xs@.count(),
            views(problems@) == before + scale_value_faults(xs@, i as int),
    {
        proof {
            lemma_backed_holds(xs@, i as int);
        }
        let s: u32 = xs.read_f32(i);
        let reason = Detail::two(
            "activation scale at index {} must be finite and non-negative, got {}",
            Arg::Int(i as u64),
            Arg::Real(s),
        );
        push_when(
            problems,
            !finite_nonnegative(s),
            invalid_attr("moe_ffn", "x_scale", reason),
        );
        assert(views(problems@) =~= before + scale_value_faults(xs@, i + 1));
    }
}

/// Checks the form of the activation scales.
fn check_scale_form(
    problems: &mut Vec<T0Error>,
    x: &TensorView<'_>,
    x_scale: Option<&TensorView<'_>>,
    t: usize,
    dm: usize,
)
    requires
        x_scale matches Some(xs) ==> xs@.backed(),
    ensures
        views(final(problems)@) == views(old(problems)@) + moe_scale_form_faults(
            x@,
            opt_view(x_scale),
            t,
            dm,
        ),
{
    let ghost before = views(problems@);
    match x.quant() {
        QuantScheme::PerToken => match x_scale {
            None => {
                let detail = Detail::plain("x_scale required for PerToken activations");
                push_when(problems, true, missing("moe_ffn", "x_scale", detail));
            },
            Some(xs) => {
                let bad: bool = xs.rank() != 1 || xs.shape()[0] != t;
                let e = dim_mismatch("T", "x", t, "x_scale", leading_dim(xs.shape()));
                push_when(problems, bad, e);
                check_dtype(problems, "x_scale", DType::F32, xs.dtype());
                let have: usize = xs.backing_len();
                let short: bool = xs.num_elements() < t || have < t;
                push_when(problems, short, length_mismatch("x_scale", have, t, xs.shape()));
            },
        },
        QuantScheme::PerBlock32 => {
            let blocks: usize = dm / 32;
            push_when(problems, dm % 32 != 0, dim_mismatch("Dm", "block_size_32", 32, "x", dm));
            match x_scale {
                None => {
                    let detail = Detail::plain("x_scale required for PerBlock32 activations");
                    push_when(problems, true, missing("moe_ffn", "x_scale", detail));
                },
                Some(xs) => {
                    let bad: bool = xs.rank() != 2 || xs.shape()[0] != t || xs.shape()[1] != blocks;
                    let e = dim_mismatch(
                        "Dm_blocks",
                        "dm_div_32",
                        blocks,
                        "x_scale",
                        next_dim(xs.shape()),
                    );
                    push_when(problems, bad, e);
                    check_dtype(problems, "x_scale", DType::F32, xs.dtype());
                },
            }
        },
        QuantScheme::Unquantized => {
            let reason = Detail::plain("x_scale provided for unquantized activations");
            push_when(problems, x_scale.is_some(), invalid_attr("moe_ffn", "x_scale", reason));
        },
        _ => {},
    }
    assert(views(problems@) =~= before + moe_scale_form_faults(x@, opt_view(x_scale), t, dm));
}

/// Checks the activation scales.
fn validate_moe_x_scale(
    problems: &mut Vec<T0Error>,
    x: &TensorView<'_>,
    x_scale: Option<&TensorView<'_>>,
    t: usize,
    dm: usize,
)
    requires
        x_scale matches Some(xs) ==> xs@.backed(),
    ensures
        views(final(problems)@) == views(old(problems)@) + moe_x_scale_faults(
            x@,
            opt_view(x_scale),
            t,
            dm,
        ),
{
    let ghost before = views(problems@);
    check_scale_form(problems, x, x_scale, t, dm);
    match x_scale {
        None => {},
        Some(xs) => check_scale_values(problems, xs),
    }
    assert(views(problems@) =~= before + moe_x_scale_faults(x@, opt_view(x_scale), t, dm));
}

fn down_carrier_names(dtype: DType) -> (c: CarrierNames)
    ensures
        c == down_carrier(dtype),
{
    CarrierNames {
        op: "moe_ffn",
        tensor: "w_down",
        scale_tensor: "w_down_scale",
        row_dim: "N",
        padded_text: "L1 down values size overflows usize",
        plain_text: if dtype == DType::I4 {
            "down-projection I4 values size overflows usize"
        } else {
            "down-projection values size overflows usize"
        },
        sum_text: "L1 down values + scales overflow",
        stray_text: "w_down_scale provided for unquantized weights",
    }
}

/// Bytes that the down projection needs without separate scale records.
fn down_bytes_needed<G: Fn(FormatQuery) -> Result<u64, FormatError>>(
    g: &G,
    form: &WeightForm,
    values: usize,
    c: &CarrierNames,
) -> (r: Result<usize, T0Error>)
    requires
        is_format(*g),
    ensures
        outcome(r) == down_need(*g, *form, values, *c),
{
    match form.scheme {
        Some(scheme) => {
            if form.tiled {
                let q = FormatQuery::ScaleBytes {
                    scheme,
                    rows: form.n,
                    cols: form.k,
                    block: form.block,
                };
                let _region: u64 = match ask(g, q) {
                    Ok(v) => v,
                    Err(e) => {
                        return Err(e);
                    },
                };
                let padded: usize = match form.padded_bytes(g, c) {
                    Ok(v) => v,
                    Err(e) => {
                        return Err(e);
                    },
                };
                return form.inline_bytes(g, padded, values, c);
            }
        },
        None => {},
    }
    form.inline_bytes(g, 0, values, c)
}

/// Checks the bytes and scales of the down projection.
fn validate_down_scales<G: Fn(FormatQuery) -> Result<u64, FormatError>>(
    problems: &mut Vec<T0Error>,
    g: &G,
    w_down: &TensorView<'_>,
    w_down_scale: Option<&TensorView<'_>>,
    scheme: Option<SchemeId>,
    e: usize,
    dff: usize,
) -> (r: Result<(), T0Error>)
    requires
        is_format(*g),
        w_down@.rank() == 3,
        dff <= u32::MAX,
        scheme == weight_scheme(w_down@.dtype(), w_down@.quant),
        w_down_scale matches Some(ws) ==> ws@.backed(),
    ensures
        match down_faults(*g, w_down@, opt_view(w_down_scale), e, dff) {
            Err(err) => outcome(r) == Err::<(), ErrorView>(err),
            Ok(found) => r is Ok && views(final(problems)@) == views(old(problems)@) + found,
        },
{
    let ghost before = views(problems@);
    let dm: usize = w_down.shape()[1];
    let n: usize = match e.checked_mul(dm) {
        Some(v) => v,
        None => {
            return Err(
                overflow(
                    "moe_ffn",
                    Detail::two(
                        "E * Dm overflows usize for E={}, Dm={}",
                        Arg::Int(e as u64),
                        Arg::Int(dm as u64),
                    ),
                ),
            );
        },
    };
    if n > u32::MAX as usize {
        return Err(
            overflow(
                "moe_ffn",
                Detail::one(
                    "down-projection row count exceeds u32: {}",
                    Arg::Int(n as u64),
                ),
            ),
        );
    }
    check_blocks(problems, "Dff", "w_down", scheme, dff);
    let dtype = w_down.dtype();
    let (raw, have): (bool, usize) = match w_down.data {
        TensorData::Bytes(_, s) => (true, s.len()),
        _ => (false, 0),
    };
    push_when(
        problems,
        !raw,
        T0Error::BackingRepresentationMismatch { op: "moe_ffn", dtype },
    );
    let form = WeightForm {
        dtype,
        scheme,
        tiled: w_down.layout() == LayoutId::L1,
        n: n as u32,
        k: dff as u32,
        block: block_size(scheme),
    };
    assert(form == down_form(w_down@, e, dff));
    let ghost found = block_faults("Dff", "w_down", scheme, dff) + given(
        !(w_down@.cells is Bytes),
        backing_error("moe_ffn", w_down@.dtype()),
    );
    assert(views(problems@) =~= before + found);
    match check_padding(g, &form) {
        Ok(_) => {},
        Err(e) => {
            return Err(e);
        },
    }
    let c = down_carrier_names(dtype);
    let values: usize = match form.plain_bytes(&c) {
        Ok(v) => v,
        Err(e) => {
            return Err(e);
        },
    };
    match w_down_scale {
        Some(ws) => {
            match form.check_separate(g, ws, have, values, w_down.shape(), &c) {
                Ok(_) => {},
                Err(e) => {
                    return Err(e);
                },
            }
        },
        None => {
            let need: usize = match down_bytes_needed(g, &form, values, &c) {
                Ok(v) => v,
                Err(e) => {
                    return Err(e);
                },
            };
            push_when(
                problems,
                have < need,
                length_mismatch("w_down", have, need, w_down.shape()),
            );
            assert(views(problems@) =~= before + (found + given(
                raw_len(w_down@) < need,
                length_error("w_down", raw_len(w_down@) as int, need as int, w_down@.shape),
            )));
        },
    }
    Ok(())
}

/// Scales in use: the explicit ones, or those that travel with the operand.
pub open spec fn used_scales<'a>(explicit: Option<&TensorView<'a>>, t: &TensorView<'a>) -> Option<
    Tensor,
> {
    match explicit {
        Some(s) => Some(s@),
        None => attached(t),
    }
}

fn scales_or_attached<'a, 'b>(explicit: Option<&'b TensorView<'a>>, t: &'b TensorView<'a>)
    -> (r: Option<&'b TensorView<'a>>)
    ensures
        opt_view(r) == used_scales(explicit, t),
{
    match explicit {
        Some(s) => Some(s),
        None => t.scale(),
    }
}

/// Checks the operands' extents, the routes, and all scales.
fn check_moe_dims<G: Fn(FormatQuery) -> Result<u64, FormatError>>(
    g: &G,
    x: &TensorView<'_>,
    expert_ids: &TensorView<'_>,
    weights: &TensorView<'_>,
    w_gate_up: &TensorView<'_>,
    w_down: &TensorView<'_>,
    w_down_scale: Option<&TensorView<'_>>,
    x_scale: Option<&TensorView<'_>>,
    scheme: Option<SchemeId>,
    routes: usize,
    y: &TensorViewMut<'_>,
) -> (r: Result<(), T0Error>)
    requires
        is_format(*g),
        x@.rank() == 2,
        expert_ids@.rank() == 2,
        weights@.rank() == 2,
        w_gate_up@.rank() == 3,
        w_down@.rank() == 3,
        y@.rank() == 2,
        w_down@.shape[2] <= u32::MAX,
        2 * w_down@.shape[2] <= usize::MAX,
        scheme == weight_scheme(w_down@.dtype(), w_down@.quant),
        w_down_scale matches Some(ws) ==> ws@.backed(),
        x_scale matches Some(xs) ==> xs@.backed(),
        expert_ids@.dtype() == DType::U32,
        u32_capacity(expert_ids@) >= routes,
    ensures
        match down_faults(
            *g,
            w_down@,
            opt_view(w_down_scale),
            w_gate_up@.shape[0],
            w_down@.shape[2],
        ) {
            Err(err) => outcome(r) == Err::<(), ErrorView>(err),
            Ok(found) => ({
                let faults = moe_dim_faults(
                    x@,
                    expert_ids@,
                    weights@,
                    w_gate_up@,
                    w_down@,
                    y@,
                ) + id_faults(expert_ids@, w_gate_up@.shape[0], routes as int)
                    + moe_x_scale_faults(x@, opt_view(x_scale), x@.shape[0], x@.shape[1]) + found;
                &&& outcome(r) == fault_result(fault_of(faults))
                &&& r is Ok ==> faults.len() == 0
            }),
        },
{
    let t: usize = x.shape()[0];
    let dm: usize = x.shape()[1];
    let k: usize = expert_ids.shape()[1];
    let e: usize = w_gate_up.shape()[0];
    let dff: usize = w_down.shape()[2];
    let mut problems = no_problems();
    check_dim(&mut problems, "T", "x", t, "expert_ids", expert_ids.shape()[0]);
    check_dim(&mut problems, "T", "x", t, "weights", weights.shape()[0]);
    check_dim(&mut problems, "K", "expert_ids", k, "weights", weights.shape()[1]);
    check_dim(&mut problems, "2Dff", "w_down", 2 * dff, "w_gate_up", w_gate_up.shape()[1]);
    check_dim(&mut problems, "Dm", "x", dm, "w_gate_up", w_gate_up.shape()[2]);
    check_dim(&mut problems, "E", "w_gate_up", e, "w_down", w_down.shape()[0]);
    check_dim(&mut problems, "Dm", "x", dm, "w_down", w_down.shape()[1]);
    check_dim(&mut problems, "T", "x", t, "y", y.shape()[0]);
    check_dim(&mut problems, "Dm", "x", dm, "y", y.shape()[1]);
    check_ids(&mut problems, expert_ids, e, routes);
    validate_moe_x_scale(&mut problems, x, x_scale, t, dm);
    match validate_down_scales(&mut problems, g, w_down, w_down_scale, scheme, e, dff) {
        Ok(_) => {},
        Err(e) => {
            return Err(e);
        },
    }
    T0Error::from_problems(problems)
}

/// Operands without a problem have the extents of the layer.
pub proof fn lemma_moe_fits<G: Fn(FormatQuery) -> Result<u64, FormatError>>(
    g: G,
    op: MoeFfnOp,
    x: Tensor,
    ids: Tensor,
    weights: Tensor,
    gate_up: Tensor,
    gate_up_scale: Option<Tensor>,
    down: Tensor,
    down_scale: Option<Tensor>,
    x_scale: Option<Tensor>,
    y: Tensor,
)
    requires
        moe_fault(
            g,
            op,
            x,
            ids,
            weights,
            gate_up,
            gate_up_scale,
            down,
            down_scale,
            x_scale,
            y,
        ) is None,
        x.backed(),
        ids.backed(),
        weights.backed(),
        gate_up.backed(),
        down.backed(),
        y.backed(),
        down_scale matches Some(t) ==> t.backed(),
        x_scale matches Some(t) ==> t.backed(),
    ensures
        ({
            let a = moe_args(
                g,
                op,
                x,
                ids,
                weights,
                gate_up,
                gate_up_scale,
                down,
                down_scale,
                x_scale,
            );
            &&& a.wf()
            &&& y.count() == a.t * a.dm
        }),
        x.rank() == 2,
        ids.rank() == 2,
        gate_up.rank() == 3,
        down.rank() == 3,
        down.shape[1] == x.shape[1],
        gate_up.shape[0] * down.shape[1] <= u32::MAX,
        down.shape[2] <= u32::MAX,
        down.cells is Bytes,
        gate_up.cells is Bytes,
        down_scale matches Some(t) ==> t.cells is Bytes,
        padding_fault(g, down_form(down, gate_up.shape[0], down.shape[2])) is None,
        x.quant == QuantScheme::PerBlock32 ==> x.shape[1] % 32 == 0,
        is_float(op.out_dtype),
        y.dtype() == op.out_dtype,
{
    reveal(moe_fault);
    reveal(moe_size_fault);
    let a = moe_args(
        g,
        op,
        x,
        ids,
        weights,
        gate_up,
        gate_up_scale,
        down,
        down_scale,
        x_scale,
    );
    let t = x.shape[0];
    let dm = x.shape[1];
    let k = ids.shape[1];
    let e = gate_up.shape[0];
    let dff = down.shape[2];
    assert(moe_form_faults(op, x, ids, weights, gate_up, down, down_scale, x_scale, y).len() == 0);
    let found = down_faults(g, down, down_scale, e, dff)->Ok_0;
    let all = moe_dim_faults(x, ids, weights, gate_up, down, y) + id_faults(ids, e, t * k)
        + moe_x_scale_faults(x, x_scale, t, dm) + found;
    assert(all.len() == 0);
    assert(moe_dim_faults(x, ids, weights, gate_up, down, y).len() == 0);
    assert(id_faults(ids, e, t * k).len() == 0);
    assert(moe_x_scale_faults(x, x_scale, t, dm).len() == 0);
    assert(moe_scale_form_faults(x, x_scale, t, dm).len() == 0);
    assert(found.len() == 0);
    lemma_extent2(x.shape);
    lemma_extent2(weights.shape);
    lemma_extent2(y.shape);
    lemma_extent3(gate_up.shape);
    lemma_extent3(down.shape);
    if x_scale is Some {
        let xs = x_scale->0;
        if x.quant == QuantScheme::PerToken {
            lemma_extent1(xs.shape);
        } else if x.quant == QuantScheme::PerBlock32 {
            lemma_extent2(xs.shape);
        }
    }
    assert forall|p: int| 0 <= p < a.t * a.k implies #[trigger] a.ids.u32_at(p) < a.e by {
        lemma_ids_ok(ids, e, t * k, p);
    }
    assert(e * (2 * dff) == e * dff * 2) by (nonlinear_arith);
    lemma_mul_nonneg(e as int, dff as int);
    lemma_mul_nonneg(t as int, k as int);
    lemma_down_fits(g, down, down_scale, e, dff);
}

/// A down projection without a problem holds its rows.
proof fn lemma_down_fits<G: Fn(FormatQuery) -> Result<u64, FormatError>>(
    g: G,
    down: Tensor,
    down_scale: Option<Tensor>,
    e: usize,
    dff: usize,
)
    requires
        down_faults(g, down, down_scale, e, dff) is Ok,
        down_faults(g, down, down_scale, e, dff)->Ok_0.len() == 0,
        scheme_fault(down.quant) is None,
        weight_scheme_fault("w_down", down.dtype(), down.quant) is None,
        0 < e <= u32::MAX,
        0 < down.shape[1],
        0 < dff <= u32::MAX,
        down.cells.len() <= usize::MAX,
    ensures
        down_matrix(g, down, down_scale, e, dff).wf(),
        down_matrix(g, down, down_scale, e, dff).n == e * down.shape[1],
        down_matrix(g, down, down_scale, e, dff).k == dff,
{
    let form = down_form(down, e, dff);
    let n = form.n as int;
    let k = form.k as int;
    let m = down_matrix(g, down, down_scale, e, dff);
    let found = block_faults("Dff", "w_down", form.scheme, dff) + given(
        !(down.cells is Bytes),
        backing_error("moe_ffn", down.dtype()),
    );
    assert(found.len() == 0);
    assert(e * down.shape[1] >= 1) by (nonlinear_arith)
        requires
            e >= 1,
            down.shape[1] >= 1,
    ;
    let rb = row_bytes(form.scheme, k);
    assert(n * (2 * k) == 2 * (n * k)) by (nonlinear_arith);
    if form.scheme == Some(SchemeId::I4K) {
        assert(n * k == 2 * (n * (k / 2))) by (nonlinear_arith)
            requires
                k == 2 * (k / 2),
        ;
    }
    assert(form.bytes_of(n * k) == n * rb);
    if down_scale is None && form.scheme is None {
        assert(m.stride() == rb);
    }
}

/// Checks the extents of an expert layer; gives the number of routes.
fn check_moe_sizes(
    op: &MoeFfnOp,
    x: &TensorView<'_>,
    expert_ids: &TensorView<'_>,
    w_gate_up: &TensorView<'_>,
    w_down: &TensorView<'_>,
) -> (r: Result<usize, T0Error>)
    requires
        x@.rank() == 2,
        expert_ids@.rank() == 2,
        w_gate_up@.rank() == 3,
        w_down@.rank() == 3,
        expert_ids@.dtype() == DType::U32,
    ensures
        match moe_size_fault(*op, x@, expert_ids@, w_gate_up@, w_down@) {
            Some(e) => outcome(r) == Err::<usize, ErrorView>(e),
            None => {
                &&& r is Ok
                &&& r->Ok_0 == x@.shape[0] * expert_ids@.shape[1]
                &&& w_down@.shape[2] <= u32::MAX
                &&& 2 * w_down@.shape[2] <= usize::MAX
                &&& u32_capacity(expert_ids@) >= r->Ok_0
            },
        },
{
    proof {
        reveal(moe_size_fault);
    }
    let t: usize = x.shape()[0];
    let dm: usize = x.shape()[1];
    let k: usize = expert_ids.shape()[1];
    let e: usize = w_gate_up.shape()[0];
    let dff: usize = w_down.shape()[2];
    if t == 0 || dm == 0 {
        return Err(T0Error::EmptyInput { op: "moe_ffn", tensor: "x" });
    }
    if e == 0 {
        return Err(T0Error::EmptyInput { op: "moe_ffn", tensor: "w_gate_up" });
    }
    if dff == 0 {
        return Err(T0Error::EmptyInput { op: "moe_ffn", tensor: "w_down" });
    }
    if k == 0 {
        return Err(T0Error::EmptyInput { op: "moe_ffn", tensor: "expert_ids" });
    }
    if op.shared_experts > low_word(e) {
        let reason = Detail::two(
            "shared_experts {} exceeds expert count E={}",
            Arg::Int(op.shared_experts as u64),
            Arg::Int(e as u64),
        );
        return Err(invalid_attr("moe_ffn", "shared_experts", reason));
    }
    match check_u32("moe_ffn", t) {
        Ok(_) => {},
        Err(e) => {
            return Err(e);
        },
    }
    match check_u32("moe_ffn", dm) {
        Ok(_) => {},
        Err(e) => {
            return Err(e);
        },
    }
    match check_u32("moe_ffn", e) {
        Ok(_) => {},
        Err(e) => {
            return Err(e);
        },
    }
    match check_u32("moe_ffn", dff) {
        Ok(_) => {},
        Err(e) => {
            return Err(e);
        },
    }
    match check_u32("moe_ffn", k) {
        Ok(_) => {},
        Err(e) => {
            return Err(e);
        },
    }
    if dff > usize::MAX / 2 {
        return Err(
            overflow(
                "moe_ffn",
                Detail::one("2 * Dff overflows usize for Dff={}", Arg::Int(dff as u64)),
            ),
        );
    }
    let capacity: usize = id_capacity(expert_ids);
    proof {
        lemma_mul_le(t as int, u32::MAX as int, k as int, u32::MAX as int);
    }
    if (capacity as u128) < (t as u128) * (k as u128) {
        let end: usize = if capacity == usize::MAX {
            usize::MAX
        } else {
            capacity + 1
        };
        return Err(
            length_mismatch("expert_ids", expert_ids.backing_len(), end, expert_ids.shape()),
        );
    }
    Ok(t * k)
}

/// Checks an expert layer with complete storage; gives the scheme of the down
/// projection.
#[verifier::spinoff_prover]
#[verifier::rlimit(60)]
fn validate_moe<G: Fn(FormatQuery) -> Result<u64, FormatError>>(
    g: &G,
    op: &MoeFfnOp,
    x: &TensorView<'_>,
    expert_ids: &TensorView<'_>,
    weights: &TensorView<'_>,
    w_gate_up: &TensorView<'_>,
    w_gate_up_scale: Option<&TensorView<'_>>,
    w_down: &TensorView<'_>,
    w_down_scale: Option<&TensorView<'_>>,
    x_scale: Option<&TensorView<'_>>,
    y: &TensorViewMut<'_>,
) -> (r: Result<Option<SchemeId>, T0Error>)
    requires
        is_format(*g),
        w_down_scale matches Some(ws) ==> ws@.backed(),
        x_scale matches Some(xs) ==> xs@.backed(),
    ensures
        match moe_fault(
            *g,
            *op,
            x@,
            expert_ids@,
            weights@,
            w_gate_up@,
            opt_view(w_gate_up_scale),
            w_down@,
            opt_view(w_down_scale),
            opt_view(x_scale),
            y@,
        ) {
            Some(e) => outcome(r) == Err::<Option<SchemeId>, ErrorView>(e),
            None => outcome(r) == Ok::<Option<SchemeId>, ErrorView>(
                weight_scheme(w_down@.dtype(), w_down@.quant),
            ),
        },
{
    proof {
        reveal(moe_fault);
    }
    match check_scheme(x.quant()) {
        Ok(_) => {},
        Err(e) => {
            return Err(e);
        },
    }
    match check_scheme(w_gate_up.quant()) {
        Ok(_) => {},
        Err(e) => {
            return Err(e);
        },
    }
    match check_scheme(w_down.quant()) {
        Ok(_) => {},
        Err(e) => {
            return Err(e);
        },
    }
    match check_moe_form(
        op,
        x,
        expert_ids,
        weights,
        w_gate_up,
        w_down,
        w_down_scale,
        x_scale,
        y,
    ) {
        Ok(_) => {},
        Err(e) => {
            return Err(e);
        },
    }
    let scheme = match resolve_weight_scheme("w_down", w_down.dtype(), w_down.quant()) {
        Ok(v) => v,
        Err(e) => {
            return Err(e);
        },
    };
    let routes: usize = match check_moe_sizes(op, x, expert_ids, w_gate_up, w_down) {
        Ok(n) => n,
        Err(e) => {
            return Err(e);
        },
    };
    match check_moe_dims(
        g,
        x,
        expert_ids,
        weights,
        w_gate_up,
        w_down,
        w_down_scale,
        x_scale,
        scheme,
        routes,
        y,
    ) {
        Ok(_) => {},
        Err(e) => {
            return Err(e);
        },
    }
    match w_gate_up.as_bytes() {
        Some(_) => {},
        None => {
            return Err(
                T0Error::BackingRepresentationMismatch {
                    op: "moe_ffn",
                    dtype: w_gate_up.dtype(),
                },
            );
        },
    }
    Ok(scheme)
}

/// Feed-forward layer with routed experts.
///
/// Everything is checked before the output is touched. Experts run in ascending
/// order; each adds, for every route to it in the order of tokens and slots,
/// the route's weight times its output row to the token's row. An error leaves
/// `y` unchanged.
pub fn moe_ffn<
    F: Fn(FloatOp, u32, u32) -> u32,
    G: Fn(FormatQuery) -> Result<u64, FormatError>,
>(
    f: &F,
    g: &G,
    op: &MoeFfnOp,
    x: &TensorView<'_>,
    expert_ids: &TensorView<'_>,
    weights: &TensorView<'_>,
    w_gate_up: &TensorView<'_>,
    w_gate_up_scale: Option<&TensorView<'_>>,
    w_down: &TensorView<'_>,
    w_down_scale: Option<&TensorView<'_>>,
    x_scale: Option<&TensorView<'_>>,
    y: &mut TensorViewMut<'_>,
) -> (r: Result<(), T0Error>)
    requires
        is_arith(*f),
        is_format(*g),
    ensures
        ({
            let used_x = used_scales(x_scale, x);
            let used_gate_up = used_scales(w_gate_up_scale, w_gate_up);
            let used_down = used_scales(w_down_scale, w_down);
            let fault = or_fault(
                or_fault(
                    moe_backing_fault(
                        x@,
                        expert_ids@,
                        weights@,
                        w_gate_up@,
                        w_down@,
                        old(y)@,
                    ),
                    moe_scale_backing_fault(
                        opt_view(w_gate_up_scale),
                        opt_view(w_down_scale),
                        opt_view(x_scale),
                        used_x,
                        used_gate_up,
                        used_down,
                    ),
                ),
                moe_fault(
                    *g,
                    *op,
                    x@,
                    expert_ids@,
                    weights@,
                    w_gate_up@,
                    used_gate_up,
                    w_down@,
                    used_down,
                    used_x,
                    old(y)@,
                ),
            );
            let a = moe_args(
                *g,
                *op,
                x@,
                expert_ids@,
                weights@,
                w_gate_up@,
                used_gate_up,
                w_down@,
                used_down,
                used_x,
            );
            match fault {
                Some(err) => outcome(r) == Err::<(), ErrorView>(err) && final(y)@ == old(y)@,
                None => match a.outputs(*f, *g, a.e) {
                    Err(err) => outcome(r) == Err::<(), ErrorView>(err) && final(y)@ == old(y)@,
                    Ok(values) => r is Ok && final(y)@ == old(y)@.with_cells(
                        old(y)@.cells.with_f32s(values),
                    ),
                },
            }
        }),
        match (old(y).data, final(y).data) {
            (TensorDataMut::F32(a), TensorDataMut::F32(b)) => {
                a@.len() == b@.len() && (*final(a))@ == (*final(b))@
            },
            (TensorDataMut::F16(a), TensorDataMut::F16(b)) => {
                a@.len() == b@.len() && (*final(a))@ == (*final(b))@
            },
            (TensorDataMut::Bf16(a), TensorDataMut::Bf16(b)) => {
                a@.len() == b@.len() && (*final(a))@ == (*final(b))@
            },
            (TensorDataMut::I8(a), TensorDataMut::I8(b)) => {
                a@.len() == b@.len() && (*final(a))@ == (*final(b))@
            },
            (TensorDataMut::U32(a), TensorDataMut::U32(b)) => {
                a@.len() == b@.len() && (*final(a))@ == (*final(b))@
            },
            (TensorDataMut::Bytes(d, a), TensorDataMut::Bytes(e, b)) => {
                d == e && a@.len() == b@.len() && (*final(a))@ == (*final(b))@
            },
            _ => false,
        },
{
    match x.validate_backing("x") {
        Ok(_) => {},
        Err(e) => {
            return Err(e);
        },
    }
    match expert_ids.validate_backing("expert_ids") {
        Ok(_) => {},
        Err(e) => {
            return Err(e);
        },
    }
    match weights.validate_backing("weights") {
        Ok(_) => {},
        Err(e) => {
            return Err(e);
        },
    }
    match w_gate_up.validate_backing("w_gate_up") {
        Ok(_) => {},
        Err(e) => {
            return Err(e);
        },
    }
    match w_down.validate_backing("w_down") {
        Ok(_) => {},
        Err(e) => {
            return Err(e);
        },
    }
    match y.validate_backing("y") {
        Ok(_) => {},
        Err(e) => {
            return Err(e);
        },
    }
    match check_opt_backing("w_gate_up_scale", w_gate_up_scale) {
        Ok(_) => {},
        Err(e) => {
            return Err(e);
        },
    }
    match check_opt_backing("w_down_scale", w_down_scale) {
        Ok(_) => {},
        Err(e) => {
            return Err(e);
        },
    }
    match check_opt_backing("x_scale", x_scale) {
        Ok(_) => {},
        Err(e) => {
            return Err(e);
        },
    }
    let x_scale = scales_or_attached(x_scale, x);
    let w_gate_up_scale = scales_or_attached(w_gate_up_scale, w_gate_up);
    let w_down_scale = scales_or_attached(w_down_scale, w_down);
    match check_opt_backing("x_scale", x_scale) {
        Ok(_) => {},
        Err(e) => {
            return Err(e);
        },
    }
    match check_opt_backing("w_gate_up_scale", w_gate_up_scale) {
        Ok(_) => {},
        Err(e) => {
            return Err(e);
        },
    }
    match check_opt_backing("w_down_scale", w_down_scale) {
        Ok(_) => {},
        Err(e) => {
            return Err(e);
        },
    }
    let scheme = match validate_moe(
        g,
        op,
        x,
        expert_ids,
        weights,
        w_gate_up,
        w_gate_up_scale,
        w_down,
        w_down_scale,
        x_scale,
        y,
    ) {
        Ok(v) => v,
        Err(e) => {
            return Err(e);
        },
    };
    let ghost used_x = opt_view(x_scale);
    let ghost used_gate_up = opt_view(w_gate_up_scale);
    let ghost used_down = opt_view(w_down_scale);
    let ghost a = moe_args(
        *g,
        *op,
        x@,
        expert_ids@,
        weights@,
        w_gate_up@,
        used_gate_up,
        w_down@,
        used_down,
        used_x,
    );
    proof {
        lemma_moe_fits(
            *g,
            *op,
            x@,
            expert_ids@,
            weights@,
            w_gate_up@,
            used_gate_up,
            w_down@,
            used_down,
            used_x,
            y@,
        );
    }
    let t: usize = x.shape()[0];
    let dm: usize = x.shape()[1];
    let k: usize = expert_ids.shape()[1];
    let e: usize = w_gate_up.shape()[0];
    let dff: usize = w_down.shape()[2];
    assert(e * dff <= e * dff * 2);
    let gate_up_bytes = match w_gate_up.as_bytes() {
        Some(b) => b,
        None => &[],
    };
    let rows: usize = e * dff * 2;
    let shape = vec![rows, dm];
    assert(shape@ =~= seq![rows, dm]);
    let gate_up = TensorView::from_bytes(
        shape.as_slice(),
        w_gate_up.dtype(),
        gate_up_bytes,
    ).with_quant(w_gate_up.quant()).with_layout(w_gate_up.layout());
    assert(gate_up@ =~= a.gate_up);
    let (down, oversized) = lay_out_down(g, w_down, w_down_scale, scheme, e, dm, dff);
    let values = match run_experts(
        f,
        g,
        x,
        x_scale,
        expert_ids,
        weights,
        &gate_up,
        w_gate_up_scale,
        &down,
        oversized,
        op.act,
        t,
        dm,
        k,
        e,
        dff,
        Ghost(a),
    ) {
        Ok(v) => v,
        Err(e) => {
            return Err(e);
        },
    };
    y.write_all(values.as_slice());
    Ok(())
}

#[verifier::truncate]
fn low_word(e: usize) -> (r: u32)
    ensures
        r == e as u32,
{
    e as u32
}

/// Lays out the down projection; tells whether its padded size overflows.
fn lay_out_down<'a, G: Fn(FormatQuery) -> Result<u64, FormatError>>(
    g: &G,
    w_down: &TensorView<'a>,
    w_down_scale: Option<&TensorView<'a>>,
    scheme: Option<SchemeId>,
    e: usize,
    dm: usize,
    dff: usize,
) -> (r: (Weights<'a>, bool))
    requires
        is_format(*g),
        w_down@.rank() == 3,
        scheme == weight_scheme(w_down@.dtype(), w_down@.quant),
        dm == w_down@.shape[1],
        e * dm <= u32::MAX,
        dff <= u32::MAX,
        w_down@.cells is Bytes,
        w_down_scale matches Some(ws) ==> ws@.cells is Bytes,
        padding_fault(*g, down_form(w_down@, e, dff)) is None,
    ensures
        r.0@ == down_matrix(*g, w_down@, opt_view(w_down_scale), e, dff),
        ({
            let padded = down_form(w_down@, e, dff).padded(*g, down_carrier(w_down@.dtype()));
            let bad = w_down@.layout == LayoutId::L1 && w_down_scale is None && padded is Err;
            &&& r.1 == bad
            &&& bad ==> padded->Err_0 == oversize_error()
        }),
{
    let n: usize = e * dm;
    let form = WeightForm {
        dtype: w_down.dtype(),
        scheme,
        tiled: w_down.layout() == LayoutId::L1,
        n: n as u32,
        k: dff as u32,
        block: block_size(scheme),
    };
    assert(form == down_form(w_down@, e, dff));
    let empty: &'a [u8] = match w_down.as_bytes() {
        Some(b) => b,
        None => &[],
    };
    let bytes: &'a [u8] = empty;
    let have: usize = bytes.len();
    let mut oversized: bool = false;
    let scales: &'a [u8] = match w_down_scale {
        Some(ws) => match ws.as_bytes() {
            Some(b) => b,
            None => slice_subrange(bytes, 0, 0),
        },
        None => if form.tiled {
            let c = down_carrier_names(w_down.dtype());
            match form.padded_bytes(g, &c) {
                Ok(padded) => if bytes.len() > padded {
                    assert(bytes@.skip(padded as int) =~= bytes@.subrange(
                        padded as int,
                        bytes@.len() as int,
                    ));
                    slice_subrange(bytes, padded, bytes.len())
                } else {
                    slice_subrange(bytes, 0, 0)
                },
                Err(_) => {
                    oversized = true;
                    slice_subrange(bytes, 0, 0)
                },
            }
        } else {
            slice_subrange(bytes, 0, 0)
        },
    };
    let weights = Weights {
        bytes,
        scales,
        separate: w_down_scale.is_some(),
        tiled: form.tiled,
        transposed: false,
        scheme,
        n,
        k: dff,
        block: form.block,
        shape: to_vec(w_down.shape()),
        names: WeightNames {
            op: "moe_ffn",
            tensor: "w_down",
            scale_tensor: "w_down_scale",
            byte_text: "l1_forward_index",
            half_text: "L1 F16 down offset overflows",
            row_shape: true,
        },
    };
    let ghost m = down_matrix(*g, w_down@, opt_view(w_down_scale), e, dff);
    assert(weights@.scales =~= m.scales);
    assert(weights@ =~= m);
    (weights, oversized)
}

} // verus!
