//! Matrix product of activations with a weight matrix.
use vstd::prelude::*;
use vstd::slice::slice_subrange;
use crate::arith::{is_arith, FloatOp};
use crate::buffer::{
    fault_result, lemma_backed_holds, lemma_extent1, lemma_extent2, opt_view, Cells, Tensor,
    TensorData, TensorDataMut, TensorView, TensorViewMut,
};
use crate::carrier::{CarrierNames, WeightForm};
use crate::causal_conv1d::{
    check_opt_backing, check_opt_row_major, opt_backing_fault, opt_row_major_faults,
};
use crate::check::{
    attr_error, backing_error, check_dim, check_dtype, check_float, check_rank, check_row_major,
    check_scale_layout, check_weight_layout, clear, dim_error, dim_faults, dim_mismatch,
    dtype_error, dtype_faults, dtype_mismatch, empty_error, fault_if, fault_of, float_faults, given,
    invalid_attr, is_float, length_error, length_mismatch, missing, missing_error, no_problems, only,
    or_fault, push_when, quant_error, quant_mismatch, rank_faults, row_major_faults,
    scale_layout_faults, weight_layout_faults,
};
use crate::dtype::{finite_nonnegative, is_finite_nonnegative};
use crate::error::{
    outcome, plain, quoting, to_vec, views, Arg, Detail, ErrorView, FormatError, T0Error,
};
use crate::gather_rows::{check_named_u32, named_u32_fault};
use crate::gemm::{is_activation, Epilogue, Gemm, GemmArgs};
use crate::ir::{DType, LayoutId, QuantScheme, SchemeId};
use crate::weight::{
    block_of, block_size, is_format, record_len, row_bytes, row_records, FormatQuery, Matrix,
    WeightNames, Weights,
};

verus! {

/// Attributes of the matrix product.
#[derive(Debug, Clone, Copy)]
pub struct MatmulOp {
    /// Type of the output.
    pub out_dtype: DType,
    /// What follows the sums.
    pub epilogue: Epilogue,
    /// Whether the weights are stored by columns.
    pub transpose_w: bool,
}

/// The error of a scheme that is unknown or has no decoder.
pub open spec fn scheme_fault(quant: QuantScheme) -> Option<ErrorView> {
    match quant {
        QuantScheme::Scheme(SchemeId::Unknown(id)) => Some(
            ErrorView::Format(FormatError::UnknownScheme { id }),
        ),
        QuantScheme::Scheme(SchemeId::Reserved(id)) => Some(
            ErrorView::Format(FormatError::ReservedScheme { id }),
        ),
        _ => None,
    }
}

/// Checks that a scheme can be decoded.
pub fn check_scheme(quant: QuantScheme) -> (r: Result<(), T0Error>)
    ensures
        outcome(r) == fault_result(scheme_fault(quant)),
{
    match quant {
        QuantScheme::Scheme(SchemeId::Unknown(id)) => Err(
            T0Error::Format(FormatError::UnknownScheme { id }),
        ),
        QuantScheme::Scheme(SchemeId::Reserved(id)) => Err(
            T0Error::Format(FormatError::ReservedScheme { id }),
        ),
        _ => Ok(()),
    }
}

/// Problem of activations whose type and scheme cannot be multiplied.
pub open spec fn activation_faults(x: Tensor) -> Seq<ErrorView> {
    if is_activation(x.dtype(), x.quant) {
        Seq::empty()
    } else if x.dtype() == DType::F32 {
        seq![
            dtype_error(
                "x",
                seq![DType::F16, DType::Bf16, DType::I8, DType::E4m3],
                x.dtype(),
            ),
        ]
    } else {
        seq![
            quant_error(
                "x",
                seq![
                    QuantScheme::Unquantized,
                    QuantScheme::PerToken,
                    QuantScheme::PerBlock32,
                ],
                x.quant,
            ),
        ]
    }
}

/// Checks the type and scheme of activations.
pub fn check_activation(problems: &mut Vec<T0Error>, x: &TensorView<'_>)
    ensures
        views(final(problems)@) == views(old(problems)@) + activation_faults(x@),
{
    let ghost before = views(problems@);
    let ok: bool = match (x.dtype(), x.quant()) {
        (DType::F16, QuantScheme::Unquantized) => true,
        (DType::Bf16, QuantScheme::Unquantized) => true,
        (DType::I8, QuantScheme::PerToken) => true,
        (DType::I8, QuantScheme::PerBlock32) => true,
        (DType::E4m3, QuantScheme::PerToken) => true,
        _ => false,
    };
    if ok {
        assert(views(problems@) =~= before + activation_faults(x@));
    } else if x.dtype() == DType::F32 {
        let expected = vec![DType::F16, DType::Bf16, DType::I8, DType::E4m3];
        assert(expected@ =~= seq![DType::F16, DType::Bf16, DType::I8, DType::E4m3]);
        push_when(problems, true, dtype_mismatch("x", expected, x.dtype()));
    } else {
        let expected = vec![
            QuantScheme::Unquantized,
            QuantScheme::PerToken,
            QuantScheme::PerBlock32,
        ];
        assert(expected@ =~= seq![
            QuantScheme::Unquantized,
            QuantScheme::PerToken,
            QuantScheme::PerBlock32,
        ]);
        push_when(problems, true, quant_mismatch("x", expected, x.quant()));
    }
}

/// Problem of weights of a wide floating-point type.
pub open spec fn weight_dtype_faults(tensor: &'static str, dtype: DType) -> Seq<ErrorView> {
    given(
        dtype == DType::F32 || dtype == DType::Bf16,
        dtype_error(tensor, seq![DType::F16, DType::I8, DType::I4, DType::E4m3], dtype),
    )
}

/// Checks that weights are not of a wide floating-point type.
pub fn check_weight_dtype(problems: &mut Vec<T0Error>, tensor: &'static str, dtype: DType)
    ensures
        views(final(problems)@) == views(old(problems)@) + weight_dtype_faults(tensor, dtype),
{
    let expected = vec![DType::F16, DType::I8, DType::I4, DType::E4m3];
    assert(expected@ =~= seq![DType::F16, DType::I8, DType::I4, DType::E4m3]);
    push_when(
        problems,
        dtype == DType::F32 || dtype == DType::Bf16,
        dtype_mismatch(tensor, expected, dtype),
    );
}

/// Decoding scheme of weights: half precision if none.
pub open spec fn weight_scheme(dtype: DType, quant: QuantScheme) -> Option<SchemeId> {
    match (dtype, quant) {
        (DType::I8, QuantScheme::PerRow) => Some(SchemeId::I8R),
        (DType::I8, QuantScheme::Scheme(s)) => Some(s),
        (DType::I4, QuantScheme::Scheme(s)) => Some(s),
        (DType::E4m3, QuantScheme::Scheme(s)) => Some(s),
        _ => None,
    }
}

/// The error of weights whose type and scheme do not suit each other.
pub open spec fn weight_scheme_fault(
    tensor: &'static str,
    dtype: DType,
    quant: QuantScheme,
) -> Option<ErrorView> {
    match (dtype, quant) {
        (DType::F16, QuantScheme::Unquantized) => None,
        (DType::I8, QuantScheme::PerRow) => None,
        (DType::I8, QuantScheme::Scheme(s)) => fault_if(
            s != SchemeId::I8R && s != SchemeId::I8B128,
            quant_error(
                tensor,
                seq![
                    QuantScheme::PerRow,
                    QuantScheme::Scheme(SchemeId::I8R),
                    QuantScheme::Scheme(SchemeId::I8B128),
                ],
                quant,
            ),
        ),
        (DType::I4, QuantScheme::Scheme(s)) => fault_if(
            s != SchemeId::I4K,
            quant_error(tensor, seq![QuantScheme::Scheme(SchemeId::I4K)], quant),
        ),
        (DType::E4m3, QuantScheme::Scheme(s)) => fault_if(
            s != SchemeId::E4M3B128,
            quant_error(tensor, seq![QuantScheme::Scheme(SchemeId::E4M3B128)], quant),
        ),
        _ => Some(
            quant_error(
                tensor,
                seq![
                    QuantScheme::Unquantized,
                    QuantScheme::PerRow,
                    QuantScheme::Scheme(SchemeId::I8R),
                ],
                quant,
            ),
        ),
    }
}

/// Decoding scheme of weights, or the error of a type and scheme that do not
/// suit each other.
pub fn resolve_weight_scheme(tensor: &'static str, dtype: DType, quant: QuantScheme) -> (r: Result<
    Option<SchemeId>,
    T0Error,
>)
    ensures
        match weight_scheme_fault(tensor, dtype, quant) {
            Some(e) => outcome(r) == Err::<Option<SchemeId>, ErrorView>(e),
            None => outcome(r) == Ok::<Option<SchemeId>, ErrorView>(weight_scheme(dtype, quant)),
        },
{
    match (dtype, quant) {
        (DType::F16, QuantScheme::Unquantized) => Ok(None),
        (DType::I8, QuantScheme::PerRow) => Ok(Some(SchemeId::I8R)),
        (DType::I8, QuantScheme::Scheme(s)) => {
            if s != SchemeId::I8R && s != SchemeId::I8B128 {
                let expected = vec![
                    QuantScheme::PerRow,
                    QuantScheme::Scheme(SchemeId::I8R),
                    QuantScheme::Scheme(SchemeId::I8B128),
                ];
                assert(expected@ =~= seq![
                    QuantScheme::PerRow,
                    QuantScheme::Scheme(SchemeId::I8R),
                    QuantScheme::Scheme(SchemeId::I8B128),
                ]);
                return Err(quant_mismatch(tensor, expected, quant));
            }
            Ok(Some(s))
        },
        (DType::I4, QuantScheme::Scheme(s)) => {
            if s != SchemeId::I4K {
                let expected = vec![QuantScheme::Scheme(SchemeId::I4K)];
                assert(expected@ =~= seq![QuantScheme::Scheme(SchemeId::I4K)]);
                return Err(quant_mismatch(tensor, expected, quant));
            }
            Ok(Some(s))
        },
        (DType::E4m3, QuantScheme::Scheme(s)) => {
            if s != SchemeId::E4M3B128 {
                let expected = vec![QuantScheme::Scheme(SchemeId::E4M3B128)];
                assert(expected@ =~= seq![QuantScheme::Scheme(SchemeId::E4M3B128)]);
                return Err(quant_mismatch(tensor, expected, quant));
            }
            Ok(Some(s))
        },
        _ => {
            let expected = vec![
                QuantScheme::Unquantized,
                QuantScheme::PerRow,
                QuantScheme::Scheme(SchemeId::I8R),
            ];
            assert(expected@ =~= seq![
                QuantScheme::Unquantized,
                QuantScheme::PerRow,
                QuantScheme::Scheme(SchemeId::I8R),
            ]);
            Err(quant_mismatch(tensor, expected, quant))
        },
    }
}

/// The problem that an error amounts to, if there is one.
pub open spec fn faults_of(e: Option<ErrorView>) -> Seq<ErrorView> {
    match e {
        None => Seq::empty(),
        Some(v) => seq![v],
    }
}

/// Problems of activations and weights of incompatible types.
pub open spec fn pairing_faults(x: Tensor, scheme: Option<SchemeId>) -> Seq<ErrorView> {
    given(
        scheme == Some(SchemeId::E4M3B128) && x.dtype() == DType::I8,
        dtype_error("x", seq![DType::E4m3, DType::F16, DType::Bf16], x.dtype()),
    ) + given(
        (scheme == Some(SchemeId::I8R) || scheme == Some(SchemeId::I8B128) || scheme == Some(
            SchemeId::I4K,
        )) && x.dtype() == DType::E4m3,
        dtype_error("x", seq![DType::I8, DType::F16, DType::Bf16], x.dtype()),
    )
}

/// Checks that activations and weights have compatible types.
fn check_pairing(problems: &mut Vec<T0Error>, x: DType, scheme: Option<SchemeId>, Ghost(t): Ghost<
    Tensor,
>)
    requires
        t.dtype() == x,
    ensures
        views(final(problems)@) == views(old(problems)@) + pairing_faults(t, scheme),
{
    let ghost before = views(problems@);
    let expected = vec![DType::E4m3, DType::F16, DType::Bf16];
    assert(expected@ =~= seq![DType::E4m3, DType::F16, DType::Bf16]);
    push_when(
        problems,
        scheme == Some(SchemeId::E4M3B128) && x == DType::I8,
        dtype_mismatch("x", expected, x),
    );
    let expected = vec![DType::I8, DType::F16, DType::Bf16];
    assert(expected@ =~= seq![DType::I8, DType::F16, DType::Bf16]);
    let integer: bool = scheme == Some(SchemeId::I8R) || scheme == Some(SchemeId::I8B128) || scheme
        == Some(SchemeId::I4K);
    push_when(problems, integer && x == DType::E4m3, dtype_mismatch("x", expected, x));
    assert(views(problems@) =~= before + pairing_faults(t, scheme));
}

/// Layout problem of an optional scale operand.
pub open spec fn opt_scale_layout_faults(tensor: &'static str, t: Option<Tensor>) -> Seq<ErrorView> {
    match t {
        None => Seq::empty(),
        Some(b) => scale_layout_faults(tensor, b.layout),
    }
}

/// Checks the layout of an optional scale operand.
pub fn check_opt_scale_layout(
    problems: &mut Vec<T0Error>,
    tensor: &'static str,
    t: Option<&TensorView<'_>>,
)
    ensures
        views(final(problems)@) == views(old(problems)@) + opt_scale_layout_faults(
            tensor,
            opt_view(t),
        ),
{
    match t {
        None => {
            assert(views(problems@) =~= views(old(problems)@) + opt_scale_layout_faults(
                tensor,
                opt_view(t),
            ));
        },
        Some(b) => {
            check_scale_layout(problems, tensor, b.layout());
        },
    }
}

/// Problems of a bias operand's form.
pub open spec fn bias_form_faults(bias: Option<Tensor>) -> Seq<ErrorView> {
    match bias {
        None => seq![
            missing_error("matmul", "bias", plain("bias operand required for Bias epilogue")),
        ],
        Some(b) => clear() + rank_faults("bias", 1, b.shape) + dtype_faults(
            "bias",
            DType::F32,
            b.dtype(),
        ),
    }
}

/// Problems of a residual operand's form.
pub open spec fn residual_form_faults(residual: Option<Tensor>) -> Seq<ErrorView> {
    match residual {
        None => seq![
            missing_error(
                "matmul",
                "residual",
                plain("residual operand required for Residual epilogue"),
            ),
        ],
        Some(r) => clear() + rank_faults("residual", 2, r.shape) + float_faults(
            "residual",
            r.dtype(),
        ),
    }
}

/// Problems of the operands that an epilogue needs or does not take.
pub open spec fn epilogue_faults(
    epilogue: Epilogue,
    bias: Option<Tensor>,
    residual: Option<Tensor>,
) -> Seq<ErrorView> {
    match epilogue {
        Epilogue::Bias => bias_form_faults(bias) + given(
            residual is Some,
            attr_error("matmul", "residual", plain("residual provided but epilogue is Bias")),
        ),
        Epilogue::Residual => residual_form_faults(residual) + given(
            bias is Some,
            attr_error("matmul", "bias", plain("bias provided but epilogue is Residual")),
        ),
        _ => given(
            bias is Some,
            attr_error("matmul", "bias", plain("bias provided but epilogue is not Bias")),
        ) + given(
            residual is Some,
            attr_error(
                "matmul",
                "residual",
                plain("residual provided but epilogue is not Residual"),
            ),
        ),
    }
}

/// Checks the operands that an epilogue needs or does not take.
fn check_epilogue(
    problems: &mut Vec<T0Error>,
    epilogue: Epilogue,
    bias: Option<&TensorView<'_>>,
    residual: Option<&TensorView<'_>>,
)
    ensures
        views(final(problems)@) == views(old(problems)@) + epilogue_faults(
            epilogue,
            opt_view(bias),
            opt_view(residual),
        ),
{
    let ghost before = views(problems@);
    match epilogue {
        Epilogue::Bias => {
            match bias {
                None => {
                    let e = missing(
                        "matmul",
                        "bias",
                        Detail::plain("bias operand required for Bias epilogue"),
                    );
                    push_when(problems, true, e);
                },
                Some(b) => {
                    check_rank(problems, "bias", 1, b.shape());
                    check_dtype(problems, "bias", DType::F32, b.dtype());
                },
            }
            let e = invalid_attr(
                "matmul",
                "residual",
                Detail::plain("residual provided but epilogue is Bias"),
            );
            push_when(problems, residual.is_some(), e);
        },
        Epilogue::Residual => {
            match residual {
                None => {
                    let e = missing(
                        "matmul",
                        "residual",
                        Detail::plain("residual operand required for Residual epilogue"),
                    );
                    push_when(problems, true, e);
                },
                Some(r) => {
                    check_rank(problems, "residual", 2, r.shape());
                    check_float(problems, "residual", r.dtype());
                },
            }
            let e = invalid_attr(
                "matmul",
                "bias",
                Detail::plain("bias provided but epilogue is Residual"),
            );
            push_when(problems, bias.is_some(), e);
        },
        _ => {
            let e = invalid_attr(
                "matmul",
                "bias",
                Detail::plain("bias provided but epilogue is not Bias"),
            );
            push_when(problems, bias.is_some(), e);
            let e = invalid_attr(
                "matmul",
                "residual",
                Detail::plain("residual provided but epilogue is not Residual"),
            );
            push_when(problems, residual.is_some(), e);
        },
    }
    assert(views(problems@) =~= before + epilogue_faults(
        epilogue,
        opt_view(bias),
        opt_view(residual),
    ));
}

/// Problems of the operands' forms and of the attributes.
#[verifier::opaque]
pub open spec fn matmul_form_faults(
    op: MatmulOp,
    x: Tensor,
    x_scale: Option<Tensor>,
    w: Tensor,
    w_scale: Option<Tensor>,
    bias: Option<Tensor>,
    residual: Option<Tensor>,
    y: Tensor,
) -> Seq<ErrorView> {
    clear() + rank_faults("x", 2, x.shape) + rank_faults("w", 2, w.shape) + rank_faults(
        "y",
        2,
        y.shape,
    ) + row_major_faults("x", x.layout) + weight_layout_faults("w", w.layout)
        + opt_row_major_faults("bias", bias) + opt_row_major_faults("residual", residual)
        + row_major_faults("y", y.layout) + opt_row_major_faults("x_scale", x_scale)
        + opt_scale_layout_faults("w_scale", w_scale) + epilogue_faults(
        op.epilogue,
        bias,
        residual,
    ) + float_faults("out_dtype", op.out_dtype) + dtype_faults("y", op.out_dtype, y.dtype())
        + activation_faults(x) + weight_dtype_faults("w", w.dtype()) + faults_of(
        weight_scheme_fault("w", w.dtype(), w.quant),
    ) + pairing_faults(x, weight_scheme(w.dtype(), w.quant))
}

/// Rows and columns of the weights.
pub open spec fn weight_dims(op: MatmulOp, w: Tensor) -> (usize, usize) {
    if op.transpose_w {
        (w.shape[1], w.shape[0])
    } else {
        (w.shape[0], w.shape[1])
    }
}

/// Problems of weights stored by columns.
pub open spec fn transpose_faults(op: MatmulOp, w: Tensor) -> Seq<ErrorView> {
    given(
        op.transpose_w && weight_scheme(w.dtype(), w.quant) is Some,
        attr_error(
            "matmul",
            "transpose_w",
            quoting(
                "transpose_w is only supported for unquantized L0 weights ([K, N] row-major); quantized scheme {} requires [N, K] storage",
                seq![Arg::Quant(w.quant)],
            ),
        ),
    ) + given(
        op.transpose_w && w.layout == LayoutId::L1,
        attr_error(
            "matmul",
            "transpose_w",
            plain(
                "transpose_w is only supported for unquantized L0 weights ([K, N] row-major); tiled L1 layout requires [N, K] storage",
            ),
        ),
    )
}

/// Whether a scale operand has fewer than `need` elements.
pub open spec fn scales_short(xs: Tensor, need: int) -> bool {
    xs.count() < need || (match xs.cells {
        Cells::Bytes(_, b) => b.len() < need * 4,
        c => c.len() < need,
    })
}

/// Problems of the activation scales.
pub open spec fn x_scale_faults(x: Tensor, x_scale: Option<Tensor>, m: usize, k: usize) -> Seq<
    ErrorView,
> {
    let blocks = (k / 32) as usize;
    match x.quant {
        QuantScheme::PerToken => match x_scale {
            None => seq![
                missing_error(
                    "matmul",
                    "x_scale",
                    plain("x_scale required for PerToken activations"),
                ),
            ],
            Some(xs) => clear() + given(
                xs.rank() != 1 || xs.shape[0] != m,
                dim_error("M", "x", m, "x_scale", first_dim(xs.shape)),
            ) + dtype_faults("x_scale", DType::F32, xs.dtype()) + given(
                scales_short(xs, m as int),
                length_error("x_scale", xs.cells.len() as int, m as int, xs.shape),
            ),
        },
        QuantScheme::PerBlock32 => given(
            k % 32 != 0,
            dim_error("K", "block_size_32", 32, "x", k),
        ) + (match x_scale {
            None => seq![
                missing_error(
                    "matmul",
                    "x_scale",
                    plain("x_scale required for PerBlock32 activations"),
                ),
            ],
            Some(xs) => clear() + given(
                xs.rank() != 2 || xs.shape[0] != m || xs.shape[1] != blocks,
                dim_error("K_blocks", "k_div_32", blocks, "x_scale", second_dim(xs.shape)),
            ) + dtype_faults("x_scale", DType::F32, xs.dtype()) + given(
                scales_short(xs, m * blocks),
                length_error("x_scale", xs.cells.len() as int, m * blocks, xs.shape),
            ),
        }),
        QuantScheme::Unquantized => given(
            x_scale is Some,
            attr_error(
                "matmul",
                "x_scale",
                plain("x_scale provided for unquantized activations"),
            ),
        ),
        _ => Seq::empty(),
    }
}

/// First extent of a shape, or zero.
pub open spec fn first_dim(shape: Seq<usize>) -> usize {
    if shape.len() > 0 {
        shape[0]
    } else {
        0
    }
}

/// Second extent of a shape, or zero.
pub open spec fn second_dim(shape: Seq<usize>) -> usize {
    if shape.len() > 1 {
        shape[1]
    } else {
        0
    }
}

/// First extent of a shape, or zero.
pub fn leading_dim(shape: &[usize]) -> (r: usize)
    ensures
        r == first_dim(shape@),
{
    if shape.len() > 0 {
        shape[0]
    } else {
        0
    }
}

/// Second extent of a shape, or zero.
pub fn next_dim(shape: &[usize]) -> (r: usize)
    ensures
        r == second_dim(shape@),
{
    if shape.len() > 1 {
        shape[1]
    } else {
        0
    }
}

/// Problem of a column count that the scheme does not divide.
pub open spec fn block_faults(
    dim: &'static str,
    tensor: &'static str,
    scheme: Option<SchemeId>,
    k: usize,
) -> Seq<ErrorView> {
    match scheme {
        Some(SchemeId::I4K) => given(
            k % 256 != 0,
            dim_error(dim, "superblock_256", 256, tensor, k),
        ),
        Some(SchemeId::I8B128) | Some(SchemeId::E4M3B128) => given(
            k % 128 != 0,
            dim_error(dim, "block_size_128", 128, tensor, k),
        ),
        _ => Seq::empty(),
    }
}

/// Checks that the scheme divides the column count.
pub fn check_blocks(
    problems: &mut Vec<T0Error>,
    dim: &'static str,
    tensor: &'static str,
    scheme: Option<SchemeId>,
    k: usize,
)
    ensures
        views(final(problems)@) == views(old(problems)@) + block_faults(dim, tensor, scheme, k),
{
    let ghost before = views(problems@);
    match scheme {
        Some(SchemeId::I4K) => {
            push_when(
                problems,
                k % 256 != 0,
                dim_mismatch(dim, "superblock_256", 256, tensor, k),
            );
        },
        Some(SchemeId::I8B128) | Some(SchemeId::E4M3B128) => {
            push_when(
                problems,
                k % 128 != 0,
                dim_mismatch(dim, "block_size_128", 128, tensor, k),
            );
        },
        _ => {
            assert(views(problems@) =~= before + block_faults(dim, tensor, scheme, k));
        },
    }
}

/// Problems of the weight scale operand's presence and type.
pub open spec fn w_scale_faults(scheme: Option<SchemeId>, w_scale: Option<Tensor>) -> Seq<
    ErrorView,
> {
    match w_scale {
        None => Seq::empty(),
        Some(ws) => {
            let known = ws.dtype() == DType::F16 || ws.dtype() == DType::U32 || ws.dtype()
                == DType::I8;
            match scheme {
                None => seq![
                    attr_error(
                        "matmul",
                        "w_scale",
                        plain("w_scale provided for unquantized weights"),
                    ),
                ],
                Some(SchemeId::I4K) => given(
                    !known,
                    dtype_error("w_scale", seq![DType::U32, DType::I8, DType::F16], ws.dtype()),
                ),
                _ => given(
                    !known,
                    dtype_error("w_scale", seq![DType::F16, DType::U32, DType::I8], ws.dtype()),
                ),
            }
        },
    }
}

/// Problems of the operands' extents and scales.
#[verifier::opaque]
pub open spec fn matmul_dim_faults(
    op: MatmulOp,
    x: Tensor,
    x_scale: Option<Tensor>,
    w: Tensor,
    w_scale: Option<Tensor>,
    bias: Option<Tensor>,
    residual: Option<Tensor>,
    y: Tensor,
) -> Seq<ErrorView> {
    let m = x.shape[0];
    let k = x.shape[1];
    let (n, kw) = weight_dims(op, w);
    let scheme = weight_scheme(w.dtype(), w.quant);
    clear() + transpose_faults(op, w) + dim_faults("K", "x", k, "w", kw) + dim_faults(
        "M",
        "x",
        m,
        "y",
        y.shape[0],
    ) + dim_faults("N", "w", n, "y", y.shape[1]) + (match bias {
        None => Seq::empty(),
        Some(b) => dim_faults("N", "w", n, "bias", b.shape[0]),
    }) + (match residual {
        None => Seq::empty(),
        Some(r) => dim_faults("M", "x", m, "residual", r.shape[0]) + dim_faults(
            "N",
            "w",
            n,
            "residual",
            r.shape[1],
        ),
    }) + x_scale_faults(x, x_scale, m, k) + block_faults("K", "w", scheme, k) + w_scale_faults(
        scheme,
        w_scale,
    )
}

/// The error of an activation scale that is negative or not finite.
pub open spec fn x_scale_error(op: &'static str, i: int, s: u32) -> ErrorView {
    attr_error(
        op,
        "x_scale",
        quoting(
            "activation scale at index {} must be finite and non-negative, got {}",
            seq![Arg::Int(i as u64), Arg::Real(s)],
        ),
    )
}

/// The error of the first among `n` activation scales that is negative or not
/// finite.
pub open spec fn x_scale_value_fault(xs: Tensor, n: int) -> Option<ErrorView>
    decreases n,
{
    if n <= 0 {
        None
    } else {
        let s = xs.cells.f32_at(n - 1);
        or_fault(
            x_scale_value_fault(xs, n - 1),
            fault_if(!is_finite_nonnegative(s), x_scale_error("matmul", n - 1, s)),
        )
    }
}

/// Names that errors about the weights quote.
pub open spec fn matmul_carrier() -> CarrierNames {
    CarrierNames {
        op: "matmul",
        tensor: "w",
        scale_tensor: "w_scale",
        row_dim: "N",
        padded_text: "padded dimensions overflow usize",
        plain_text: "dimensions N*K overflow usize",
        sum_text: "l1_values_bytes + geom.region_bytes overflow",
        stray_text: "w_scale provided for unquantized weights",
    }
}

fn carrier_names() -> (c: CarrierNames)
    ensures
        c == matmul_carrier(),
{
    CarrierNames {
        op: "matmul",
        tensor: "w",
        scale_tensor: "w_scale",
        row_dim: "N",
        padded_text: "padded dimensions overflow usize",
        plain_text: "dimensions N*K overflow usize",
        sum_text: "l1_values_bytes + geom.region_bytes overflow",
        stray_text: "w_scale provided for unquantized weights",
    }
}

/// Extents and storage of the weights.
pub open spec fn matmul_form(op: MatmulOp, w: Tensor) -> WeightForm {
    let (n, k) = weight_dims(op, w);
    let scheme = weight_scheme(w.dtype(), w.quant);
    WeightForm {
        dtype: w.dtype(),
        scheme,
        tiled: w.layout == LayoutId::L1,
        n: n as u32,
        k: k as u32,
        block: block_of(scheme),
    }
}

/// The error of weight bytes that are too short or of scale operands that do
/// not fit.
#[verifier::opaque]
pub open spec fn bytes_fault<G: Fn(FormatQuery) -> Result<u64, FormatError>>(
    g: G,
    form: WeightForm,
    have: usize,
    w_scale: Option<Tensor>,
    shape: Seq<usize>,
    c: CarrierNames,
) -> Option<ErrorView> {
    let padded = form.padded(g, c);
    let values = form.unpadded(c);
    if padded is Err {
        Some(padded->Err_0)
    } else if values is Err {
        Some(values->Err_0)
    } else {
        let stored = if form.tiled {
            padded->Ok_0
        } else {
            values->Ok_0
        };
        match w_scale {
            Some(ws) => form.separate_fault(g, ws, have, stored, shape, c),
            None => match form.inline_need(g, padded->Ok_0, stored, c) {
                Err(e) => Some(e),
                Ok(need) => fault_if(
                    have < need,
                    length_error(c.tensor, have as int, need as int, shape),
                ),
            },
        }
    }
}

/// Checks the bytes of the weights and their scales; gives the bytes of the
/// tiled elements.
pub fn check_bytes<G: Fn(FormatQuery) -> Result<u64, FormatError>>(
    g: &G,
    form: &WeightForm,
    have: usize,
    w_scale: Option<&TensorView<'_>>,
    shape: &[usize],
    c: &CarrierNames,
) -> (r: Result<usize, T0Error>)
    requires
        is_format(*g),
        form.wf(),
        w_scale matches Some(ws) ==> ws@.backed(),
    ensures
        match bytes_fault(*g, *form, have, opt_view(w_scale), shape@, *c) {
            Some(e) => outcome(r) == Err::<usize, ErrorView>(e),
            None => outcome(r) == form.padded(*g, *c) && r is Ok,
        },
{
    proof {
        reveal(bytes_fault);
    }
    let padded: usize = match form.padded_bytes(g, c) {
        Ok(v) => v,
        Err(e) => {
            return Err(e);
        },
    };
    let values: usize = match form.plain_bytes(c) {
        Ok(v) => v,
        Err(e) => {
            return Err(e);
        },
    };
    let stored: usize = if form.tiled {
        padded
    } else {
        values
    };
    match w_scale {
        Some(ws) => {
            match form.check_separate(g, ws, have, stored, shape, c) {
                Ok(_) => {},
                Err(e) => {
                    return Err(e);
                },
            }
        },
        None => {
            let need: usize = match form.inline_bytes(g, padded, stored, c) {
                Ok(v) => v,
                Err(e) => {
                    return Err(e);
                },
            };
            if have < need {
                return Err(length_mismatch(c.tensor, have, need, shape));
            }
        },
    }
    Ok(padded)
}

/// The error of a matrix product whose operands or attributes do not fit.
pub open spec fn matmul_fault<G: Fn(FormatQuery) -> Result<u64, FormatError>>(
    g: G,
    op: MatmulOp,
    x: Tensor,
    x_scale: Option<Tensor>,
    w: Tensor,
    w_scale: Option<Tensor>,
    bias: Option<Tensor>,
    residual: Option<Tensor>,
    y: Tensor,
) -> Option<ErrorView> {
    let backing = or_fault(
        or_fault(
            or_fault(
                or_fault(
                    or_fault(
                        or_fault(x.backing_fault("x"), w.backing_fault("w")),
                        y.backing_fault("y"),
                    ),
                    opt_backing_fault("bias", bias),
                ),
                opt_backing_fault("residual", residual),
            ),
            opt_backing_fault("x_scale", x_scale),
        ),
        opt_backing_fault("w_scale", w_scale),
    );
    let schemes = or_fault(scheme_fault(x.quant), scheme_fault(w.quant));
    let form = fault_of(matmul_form_faults(op, x, x_scale, w, w_scale, bias, residual, y));
    let empty = or_fault(
        fault_if(x.shape[0] == 0 || x.shape[1] == 0, empty_error("matmul", "x")),
        fault_if(w.shape[0] == 0 || w.shape[1] == 0, empty_error("matmul", "w")),
    );
    let wide = or_fault(
        or_fault(
            named_u32_fault("matmul", "dimension M exceeds u32: {}", x.shape[0]),
            named_u32_fault("matmul", "dimension w.shape[0] exceeds u32: {}", w.shape[0]),
        ),
        named_u32_fault("matmul", "dimension w.shape[1] exceeds u32: {}", w.shape[1]),
    );
    let dims = fault_of(matmul_dim_faults(op, x, x_scale, w, w_scale, bias, residual, y));
    let scales = match x_scale {
        None => None,
        Some(xs) => x_scale_value_fault(xs, xs.count()),
    };
    let raw = fault_if(!(w.cells is Bytes), backing_error("matmul", w.dtype()));
    let bytes = bytes_fault(
        g,
        matmul_form(op, w),
        w.cells.len() as usize,
        w_scale,
        w.shape,
        matmul_carrier(),
    );
    or_fault(
        or_fault(
            or_fault(
                or_fault(
                    or_fault(or_fault(or_fault(or_fault(backing, schemes), form), empty), wide),
                    dims,
                ),
                scales,
            ),
            raw,
        ),
        bytes,
    )
}

/// Bytes of scale records beside the elements: of a separate operand, or behind
/// the elements of a tiled matrix.
pub open spec fn scale_bytes(
    w: Tensor,
    w_scale: Option<Tensor>,
    tiled: bool,
    padded: int,
) -> Seq<u8> {
    match w_scale {
        Some(ws) => ws.cells->Bytes_1,
        None => if tiled && w.cells->Bytes_1.len() > padded {
            w.cells->Bytes_1.skip(padded)
        } else {
            Seq::empty()
        },
    }
}

/// Names that errors about weight elements quote.
pub open spec fn matmul_names() -> WeightNames {
    WeightNames {
        op: "matmul",
        tensor: "w",
        scale_tensor: "w_scale",
        byte_text: "l1_forward_index",
        half_text: "L1 F16 offset overflow",
        row_shape: false,
    }
}

/// The weight matrix of a product.
pub open spec fn matmul_matrix<G: Fn(FormatQuery) -> Result<u64, FormatError>>(
    g: G,
    op: MatmulOp,
    w: Tensor,
    w_scale: Option<Tensor>,
) -> Matrix {
    let form = matmul_form(op, w);
    let padded = form.padded(g, matmul_carrier())->Ok_0 as int;
    Matrix {
        bytes: w.cells->Bytes_1,
        scales: scale_bytes(w, w_scale, form.tiled, padded),
        separate: w_scale is Some,
        tiled: form.tiled,
        transposed: op.transpose_w,
        scheme: form.scheme,
        n: form.n as int,
        k: form.k as int,
        block: form.block,
        shape: w.shape,
        names: matmul_names(),
    }
}

/// Operands of a matrix product.
pub open spec fn gemm_args<G: Fn(FormatQuery) -> Result<u64, FormatError>>(
    g: G,
    op: MatmulOp,
    x: Tensor,
    x_scale: Option<Tensor>,
    w: Tensor,
    w_scale: Option<Tensor>,
    bias: Option<Tensor>,
    residual: Option<Tensor>,
) -> GemmArgs {
    GemmArgs {
        x,
        xs: x_scale,
        w: matmul_matrix(g, op, w, w_scale),
        bias,
        residual,
        epilogue: op.epilogue,
        m: x.shape[0] as int,
    }
}

/// Checks the operands' forms and the attributes.
fn check_matmul_form(
    op: &MatmulOp,
    x: &TensorView<'_>,
    x_scale: Option<&TensorView<'_>>,
    w: &TensorView<'_>,
    w_scale: Option<&TensorView<'_>>,
    bias: Option<&TensorView<'_>>,
    residual: Option<&TensorView<'_>>,
    y: &TensorViewMut<'_>,
) -> (r: Result<(), T0Error>)
    ensures
        ({
            let faults = matmul_form_faults(*op, x@, opt_view(x_scale), w@, opt_view(w_scale), opt_view(bias), opt_view(residual), y@);
            &&& outcome(r) == fault_result(fault_of(faults))
            &&& r is Ok ==> faults.len() == 0
        }),
{
    let mut problems = no_problems();
    check_rank(&mut problems, "x", 2, x.shape());
    check_rank(&mut problems, "w", 2, w.shape());
    check_rank(&mut problems, "y", 2, y.shape());
    check_row_major(&mut problems, "x", x.layout());
    check_weight_layout(&mut problems, "w", w.layout());
    check_opt_row_major(&mut problems, "bias", bias);
    check_opt_row_major(&mut problems, "residual", residual);
    check_row_major(&mut problems, "y", y.layout());
    check_opt_row_major(&mut problems, "x_scale", x_scale);
    check_opt_scale_layout(&mut problems, "w_scale", w_scale);
    check_epilogue(&mut problems, op.epilogue, bias, residual);
    check_float(&mut problems, "out_dtype", op.out_dtype);
    check_dtype(&mut problems, "y", op.out_dtype, y.dtype());
    check_activation(&mut problems, x);
    check_weight_dtype(&mut problems, "w", w.dtype());
    let ghost before = views(problems@);
    let ghost fault = weight_scheme_fault("w", w@.dtype(), w@.quant);
    match resolve_weight_scheme("w", w.dtype(), w.quant()) {
        Ok(_) => {
            assert(views(problems@) =~= before + faults_of(fault));
        },
        Err(e) => {
            push_when(&mut problems, true, e);
        },
    }
    assert(views(problems@) == before + faults_of(fault));
    check_pairing(&mut problems, x.dtype(), scheme_of(w.dtype(), w.quant()), Ghost(x@));
    proof {
        reveal(matmul_form_faults);
    }
    T0Error::from_problems(problems)
}

/// Decoding scheme of weights.
pub fn scheme_of(dtype: DType, quant: QuantScheme) -> (r: Option<SchemeId>)
    ensures
        r == weight_scheme(dtype, quant),
{
    match (dtype, quant) {
        (DType::I8, QuantScheme::PerRow) => Some(SchemeId::I8R),
        (DType::I8, QuantScheme::Scheme(s)) => Some(s),
        (DType::I4, QuantScheme::Scheme(s)) => Some(s),
        (DType::E4m3, QuantScheme::Scheme(s)) => Some(s),
        _ => None,
    }
}

/// Whether a scale operand has fewer than `need` elements.
fn too_few_scales(xs: &TensorView<'_>, need: usize) -> (r: bool)
    requires
        xs@.backed(),
    ensures
        r == scales_short(xs@, need as int),
{
    if xs.num_elements() < need {
        return true;
    }
    let have: usize = xs.backing_len();
    match xs.data {
        TensorData::Bytes(_, _) => (have as u128) < (need as u128) * 4,
        _ => have < need,
    }
}

/// Checks the activation scales.
fn check_x_scale(
    problems: &mut Vec<T0Error>,
    x: &TensorView<'_>,
    x_scale: Option<&TensorView<'_>>,
    m: usize,
    k: usize,
)
    requires
        x_scale matches Some(xs) ==> xs@.backed(),
        m * k <= usize::MAX,
    ensures
        views(final(problems)@) == views(old(problems)@) + x_scale_faults(
            x@,
            opt_view(x_scale),
            m,
            k,
        ),
{
    let ghost before = views(problems@);
    match x.quant() {
        QuantScheme::PerToken => match x_scale {
            None => {
                let detail = Detail::plain("x_scale required for PerToken activations");
                push_when(problems, true, missing("matmul", "x_scale", detail));
            },
            Some(xs) => {
                let bad: bool = xs.rank() != 1 || xs.shape()[0] != m;
                let e = dim_mismatch("M", "x", m, "x_scale", leading_dim(xs.shape()));
                push_when(problems, bad, e);
                check_dtype(problems, "x_scale", DType::F32, xs.dtype());
                let e = length_mismatch("x_scale", xs.backing_len(), m, xs.shape());
                push_when(problems, too_few_scales(xs, m), e);
            },
        },
        QuantScheme::PerBlock32 => {
            let blocks: usize = k / 32;
            proof {
                assert(m * (k / 32) <= m * k) by (nonlinear_arith)
                    requires
                        0 <= m,
                        0 <= k,
                ;
            }
            push_when(problems, k % 32 != 0, dim_mismatch("K", "block_size_32", 32, "x", k));
            match x_scale {
                None => {
                    let detail = Detail::plain("x_scale required for PerBlock32 activations");
                    push_when(problems, true, missing("matmul", "x_scale", detail));
                },
                Some(xs) => {
                    let bad: bool = xs.rank() != 2 || xs.shape()[0] != m || xs.shape()[1] != blocks;
                    let e = dim_mismatch(
                        "K_blocks",
                        "k_div_32",
                        blocks,
                        "x_scale",
                        next_dim(xs.shape()),
                    );
                    push_when(problems, bad, e);
                    check_dtype(problems, "x_scale", DType::F32, xs.dtype());
                    let e = length_mismatch("x_scale", xs.backing_len(), m * blocks, xs.shape());
                    push_when(problems, too_few_scales(xs, m * blocks), e);
                },
            }
        },
        QuantScheme::Unquantized => {
            let reason = Detail::plain("x_scale provided for unquantized activations");
            push_when(problems, x_scale.is_some(), invalid_attr("matmul", "x_scale", reason));
        },
        _ => {},
    }
    assert(views(problems@) =~= before + x_scale_faults(x@, opt_view(x_scale), m, k));
}

/// Checks the presence and type of the weight scale operand.
fn check_w_scale(
    problems: &mut Vec<T0Error>,
    scheme: Option<SchemeId>,
    w_scale: Option<&TensorView<'_>>,
)
    ensures
        views(final(problems)@) == views(old(problems)@) + w_scale_faults(
            scheme,
            opt_view(w_scale),
        ),
{
    let ghost before = views(problems@);
    match w_scale {
        None => {},
        Some(ws) => {
            let got = ws.dtype();
            let known: bool = got == DType::F16 || got == DType::U32 || got == DType::I8;
            match scheme {
                None => {
                    let reason = Detail::plain("w_scale provided for unquantized weights");
                    push_when(problems, true, invalid_attr("matmul", "w_scale", reason));
                },
                Some(SchemeId::I4K) => {
                    let expected = vec![DType::U32, DType::I8, DType::F16];
                    assert(expected@ =~= seq![DType::U32, DType::I8, DType::F16]);
                    push_when(problems, !known, dtype_mismatch("w_scale", expected, got));
                },
                _ => {
                    let expected = vec![DType::F16, DType::U32, DType::I8];
                    assert(expected@ =~= seq![DType::F16, DType::U32, DType::I8]);
                    push_when(problems, !known, dtype_mismatch("w_scale", expected, got));
                },
            }
        },
    }
    assert(views(problems@) =~= before + w_scale_faults(scheme, opt_view(w_scale)));
}

/// Checks that weights stored by columns are plain.
fn check_transpose(problems: &mut Vec<T0Error>, op: &MatmulOp, w: &TensorView<'_>)
    ensures
        views(final(problems)@) == views(old(problems)@) + transpose_faults(*op, w@),
{
    let ghost before = views(problems@);
    let reason = Detail::one(
        "transpose_w is only supported for unquantized L0 weights ([K, N] row-major); quantized scheme {} requires [N, K] storage",
        Arg::Quant(w.quant()),
    );
    let quantized: bool = scheme_of(w.dtype(), w.quant()).is_some();
    push_when(
        problems,
        op.transpose_w && quantized,
        invalid_attr("matmul", "transpose_w", reason),
    );
    let reason = Detail::plain(
        "transpose_w is only supported for unquantized L0 weights ([K, N] row-major); tiled L1 layout requires [N, K] storage",
    );
    push_when(
        problems,
        op.transpose_w && w.layout() == LayoutId::L1,
        invalid_attr("matmul", "transpose_w", reason),
    );
    assert(views(problems@) =~= before + transpose_faults(*op, w@));
}

/// Checks the operands' extents and scales.
fn check_matmul_dims(
    op: &MatmulOp,
    x: &TensorView<'_>,
    x_scale: Option<&TensorView<'_>>,
    w: &TensorView<'_>,
    w_scale: Option<&TensorView<'_>>,
    bias: Option<&TensorView<'_>>,
    residual: Option<&TensorView<'_>>,
    y: &TensorViewMut<'_>,
) -> (r: Result<(), T0Error>)
    requires
        matmul_form_faults(*op, x@, opt_view(x_scale), w@, opt_view(w_scale), opt_view(bias), opt_view(residual), y@).len()
            == 0,
        x_scale matches Some(xs) ==> xs@.backed(),
        x@.backed(),
    ensures
        ({
            let faults = matmul_dim_faults(*op, x@, opt_view(x_scale), w@, opt_view(w_scale), opt_view(bias), opt_view(residual), y@);
            &&& outcome(r) == fault_result(fault_of(faults))
            &&& r is Ok ==> faults.len() == 0
        }),
{
    proof {
        reveal(matmul_form_faults);
        reveal(matmul_dim_faults);
    }
    proof {
        lemma_extent2(x@.shape);
        lemma_epilogue_form(op.epilogue, opt_view(bias), opt_view(residual));
    }
    let m: usize = x.shape()[0];
    let k: usize = x.shape()[1];
    let scheme = scheme_of(w.dtype(), w.quant());
    let (n, kw): (usize, usize) = if op.transpose_w {
        (w.shape()[1], w.shape()[0])
    } else {
        (w.shape()[0], w.shape()[1])
    };
    let mut problems = no_problems();
    check_transpose(&mut problems, op, w);
    check_dim(&mut problems, "K", "x", k, "w", kw);
    check_dim(&mut problems, "M", "x", m, "y", y.shape()[0]);
    check_dim(&mut problems, "N", "w", n, "y", y.shape()[1]);
    let ghost before = views(problems@);
    match bias {
        None => {
            assert(before =~= before + Seq::<ErrorView>::empty());
        },
        Some(b) => {
            check_dim(&mut problems, "N", "w", n, "bias", b.shape()[0]);
        },
    }
    let ghost middle = views(problems@);
    match residual {
        None => {
            assert(middle =~= middle + Seq::<ErrorView>::empty());
        },
        Some(r) => {
            check_dim(&mut problems, "M", "x", m, "residual", r.shape()[0]);
            check_dim(&mut problems, "N", "w", n, "residual", r.shape()[1]);
            assert(views(problems@) =~= middle + (dim_faults(
                "M",
                "x",
                m,
                "residual",
                r@.shape[0],
            ) + dim_faults("N", "w", n, "residual", r@.shape[1])));
        },
    }
    check_x_scale(&mut problems, x, x_scale, m, k);
    check_blocks(&mut problems, "K", "w", scheme, k);
    check_w_scale(&mut problems, scheme, w_scale);
    T0Error::from_problems(problems)
}

/// Operands of an epilogue without a problem have the ranks it needs.
proof fn lemma_epilogue_form(epilogue: Epilogue, bias: Option<Tensor>, residual: Option<Tensor>)
    requires
        epilogue_faults(epilogue, bias, residual).len() == 0,
    ensures
        bias matches Some(b) ==> b.rank() == 1 && epilogue == Epilogue::Bias,
        residual matches Some(r) ==> r.rank() == 2 && epilogue == Epilogue::Residual,
        epilogue == Epilogue::Bias ==> bias is Some,
        epilogue == Epilogue::Residual ==> residual is Some,
{
}

/// Checks that every activation scale is finite and not negative.
fn check_x_scale_values(xs: &TensorView<'_>) -> (r: Result<(), T0Error>)
    requires
        xs@.backed(),
    ensures
        outcome(r) == fault_result(x_scale_value_fault(xs@, xs@.count())),
{
    let n: usize = xs.num_elements();
    for i in 0..n
        invariant
            xs@.backed(),
            n == xs@.count(),
            x_scale_value_fault(xs@, i as int) is None,
    {
        proof {
            lemma_backed_holds(xs@, i as int);
        }
        let s: u32 = xs.read_f32(i);
        if !finite_nonnegative(s) {
            let e = invalid_attr(
                "matmul",
                "x_scale",
                Detail::two(
                    "activation scale at index {} must be finite and non-negative, got {}",
                    Arg::Int(i as u64),
                    Arg::Real(s),
                ),
            );
            proof {
                assert(x_scale_value_fault(xs@, i + 1) == Some(e.view()));
                lemma_scale_fault_stays(xs@, i + 1, n as int);
            }
            return Err(e);
        }
    }
    Ok(())
}

proof fn lemma_scale_fault_stays(xs: Tensor, i: int, n: int)
    requires
        0 <= i <= n,
        x_scale_value_fault(xs, i) is Some,
    ensures
        x_scale_value_fault(xs, n) == x_scale_value_fault(xs, i),
    decreases n - i,
{
    if i < n {
        lemma_scale_fault_stays(xs, i, n - 1);
    }
}

/// Checks a matrix product and lays out its weights.
pub fn plan_matmul<'a, G: Fn(FormatQuery) -> Result<u64, FormatError>>(
    g: &G,
    op: &MatmulOp,
    x: &TensorView<'_>,
    x_scale: Option<&TensorView<'_>>,
    w: &TensorView<'a>,
    w_scale: Option<&TensorView<'a>>,
    bias: Option<&TensorView<'_>>,
    residual: Option<&TensorView<'_>>,
    y: &TensorViewMut<'_>,
) -> (r: Result<Weights<'a>, T0Error>)
    requires
        is_format(*g),
    ensures
        match matmul_fault(*g, *op, x@, opt_view(x_scale), w@, opt_view(w_scale), opt_view(bias), opt_view(residual), y@) {
            Some(e) => r is Err && r->Err_0.view() == e,
            None => r is Ok && r->Ok_0@ == matmul_matrix(*g, *op, w@, opt_view(w_scale)) && ({
                let a = gemm_args(*g, *op, x@, opt_view(x_scale), w@, opt_view(w_scale), opt_view(bias), opt_view(residual));
                &&& a.wf()
                &&& y@.backed()
                &&& y@.count() == a.size()
                &&& x@.rank() == 2
            }),
        },
{
    match x.validate_backing("x") {
        Ok(_) => {},
        Err(e) => {
            return Err(e);
        },
    }
    match w.validate_backing("w") {
        Ok(_) => {},
        Err(e) => {
            return Err(e);
        },
    }
    match y.validate_backing("y") {
        Ok(_) => {},
        Err(e) => {
            return Err(e);
        },
    }
    match check_opt_backing("bias", bias) {
        Ok(_) => {},
        Err(e) => {
            return Err(e);
        },
    }
    match check_opt_backing("residual", residual) {
        Ok(_) => {},
        Err(e) => {
            return Err(e);
        },
    }
    match check_opt_backing("x_scale", x_scale) {
        Ok(_) => {},
        Err(e) => {
            return Err(e);
        },
    }
    match check_opt_backing("w_scale", w_scale) {
        Ok(_) => {},
        Err(e) => {
            return Err(e);
        },
    }
    match check_scheme(x.quant()) {
        Ok(_) => {},
        Err(e) => {
            return Err(e);
        },
    }
    match check_scheme(w.quant()) {
        Ok(_) => {},
        Err(e) => {
            return Err(e);
        },
    }
    match check_matmul_form(op, x, x_scale, w, w_scale, bias, residual, y) {
        Ok(_) => {},
        Err(e) => {
            return Err(e);
        },
    }
    proof {
        lemma_no_form_faults(*op, x@, opt_view(x_scale), w@, opt_view(w_scale), opt_view(bias), opt_view(residual), y@);
    }
    if x.shape()[0] == 0 || x.shape()[1] == 0 {
        return Err(T0Error::EmptyInput { op: "matmul", tensor: "x" });
    }
    if w.shape()[0] == 0 || w.shape()[1] == 0 {
        return Err(T0Error::EmptyInput { op: "matmul", tensor: "w" });
    }
    match check_named_u32("matmul", "dimension M exceeds u32: {}", x.shape()[0]) {
        Ok(_) => {},
        Err(e) => {
            return Err(e);
        },
    }
    match check_named_u32("matmul", "dimension w.shape[0] exceeds u32: {}", w.shape()[0]) {
        Ok(_) => {},
        Err(e) => {
            return Err(e);
        },
    }
    match check_named_u32("matmul", "dimension w.shape[1] exceeds u32: {}", w.shape()[1]) {
        Ok(_) => {},
        Err(e) => {
            return Err(e);
        },
    }
    match check_matmul_dims(op, x, x_scale, w, w_scale, bias, residual, y) {
        Ok(_) => {},
        Err(e) => {
            return Err(e);
        },
    }
    proof {
        lemma_no_dim_faults(*op, x@, opt_view(x_scale), w@, opt_view(w_scale), opt_view(bias), opt_view(residual), y@);
    }
    match x_scale {
        None => {},
        Some(xs) => {
            match check_x_scale_values(xs) {
                Ok(_) => {},
                Err(e) => {
                    return Err(e);
                },
            }
        },
    }
    let bytes: &'a [u8] = match w.as_bytes() {
        Some(b) => b,
        None => {
            return Err(
                T0Error::BackingRepresentationMismatch { op: "matmul", dtype: w.dtype() },
            );
        },
    };
    let (n, k): (usize, usize) = if op.transpose_w {
        (w.shape()[1], w.shape()[0])
    } else {
        (w.shape()[0], w.shape()[1])
    };
    let scheme = scheme_of(w.dtype(), w.quant());
    let form = WeightForm {
        dtype: w.dtype(),
        scheme,
        tiled: w.layout() == LayoutId::L1,
        n: n as u32,
        k: k as u32,
        block: block_size(scheme),
    };
    assert(form == matmul_form(*op, w@));
    proof {
        lemma_form_wf(*op, x@, w@);
    }
    let c = carrier_names();
    let padded: usize = match check_bytes(g, &form, bytes.len(), w_scale, w.shape(), &c) {
        Ok(v) => v,
        Err(e) => {
            return Err(e);
        },
    };
    let scales: &'a [u8] = match w_scale {
        Some(ws) => match ws.as_bytes() {
            Some(b) => b,
            None => slice_subrange(bytes, 0, 0),
        },
        None => if form.tiled && bytes.len() > padded {
            slice_subrange(bytes, padded, bytes.len())
        } else {
            slice_subrange(bytes, 0, 0)
        },
    };
    let weights = Weights {
        bytes,
        scales,
        separate: w_scale.is_some(),
        tiled: form.tiled,
        transposed: op.transpose_w,
        scheme,
        n,
        k,
        block: form.block,
        shape: to_vec(w.shape()),
        names: WeightNames {
            op: "matmul",
            tensor: "w",
            scale_tensor: "w_scale",
            byte_text: "l1_forward_index",
            half_text: "L1 F16 offset overflow",
            row_shape: false,
        },
    };
    proof {
        lemma_bytes_fit(
            *g,
            form,
            bytes@.len() as usize,
            opt_view(w_scale),
            w@.shape,
            matmul_carrier(),
        );
        assert(bytes@.skip(padded as int) =~= bytes@.subrange(padded as int, bytes@.len() as int));
        assert(weights@ =~= matmul_matrix(*g, *op, w@, opt_view(w_scale)));
        lemma_matmul_fits(*g, *op, x@, opt_view(x_scale), w@, opt_view(w_scale), opt_view(bias), opt_view(residual), y@);
    }
    Ok(weights)
}

/// Weights without a problem have a scheme that suits their type and extents.
proof fn lemma_form_wf(op: MatmulOp, x: Tensor, w: Tensor)
    requires
        w.rank() == 2,
        0 < w.shape[0] <= u32::MAX,
        0 < w.shape[1] <= u32::MAX,
        scheme_fault(w.quant) is None,
        weight_scheme_fault("w", w.dtype(), w.quant) is None,
        block_faults(
            "K",
            "w",
            weight_scheme(w.dtype(), w.quant),
            weight_dims(op, w).1,
        ).len() == 0,
    ensures
        matmul_form(op, w).wf(),
{
}

/// Bytes that pass the check hold the rows of the weights and their records.
pub proof fn lemma_bytes_fit<G: Fn(FormatQuery) -> Result<u64, FormatError>>(
    g: G,
    form: WeightForm,
    have: usize,
    w_scale: Option<Tensor>,
    shape: Seq<usize>,
    c: CarrierNames,
)
    requires
        form.wf(),
        bytes_fault(g, form, have, w_scale, shape, c) is None,
    ensures
        form.padded(g, c) is Ok,
        !form.tiled && w_scale is None ==> form.n * (row_bytes(form.scheme, form.k as int)
            + row_records(form.scheme, form.k as int) * record_len(form.scheme)) <= have,
        !form.tiled && w_scale is Some ==> form.n * row_bytes(form.scheme, form.k as int) <= have,
        w_scale is Some ==> form.scheme is Some && w_scale->0.cells is Bytes,
        !form.tiled && w_scale is Some ==> w_scale->0.cells.len() == form.n * row_records(
            form.scheme,
            form.k as int,
        ) * record_len(form.scheme),
{
    reveal(bytes_fault);
    let n = form.n as int;
    let k = form.k as int;
    let rb = row_bytes(form.scheme, k);
    assert(n * (2 * k) == 2 * (n * k)) by (nonlinear_arith);
    if form.scheme == Some(SchemeId::I4K) {
        assert(n * k == 2 * (n * (k / 2))) by (nonlinear_arith)
            requires
                k == 2 * (k / 2),
        ;
    }
    assert(form.bytes_of(n * k) == n * rb);
}

/// What the absence of form problems says.
pub proof fn lemma_no_form_faults(
    op: MatmulOp,
    x: Tensor,
    x_scale: Option<Tensor>,
    w: Tensor,
    w_scale: Option<Tensor>,
    bias: Option<Tensor>,
    residual: Option<Tensor>,
    y: Tensor,
)
    requires
        matmul_form_faults(op, x, x_scale, w, w_scale, bias, residual, y).len() == 0,
    ensures
        x.rank() == 2,
        w.rank() == 2,
        y.rank() == 2,
        epilogue_faults(op.epilogue, bias, residual).len() == 0,
        activation_faults(x).len() == 0,
        weight_scheme_fault("w", w.dtype(), w.quant) is None,
        is_float(op.out_dtype),
        y.dtype() == op.out_dtype,
{
    reveal(matmul_form_faults);
}

/// What the absence of problems of the extents says.
#[verifier::spinoff_prover]
#[verifier::rlimit(60)]
pub proof fn lemma_no_dim_faults(
    op: MatmulOp,
    x: Tensor,
    x_scale: Option<Tensor>,
    w: Tensor,
    w_scale: Option<Tensor>,
    bias: Option<Tensor>,
    residual: Option<Tensor>,
    y: Tensor,
)
    requires
        matmul_dim_faults(op, x, x_scale, w, w_scale, bias, residual, y).len() == 0,
    ensures
        transpose_faults(op, w).len() == 0,
        weight_dims(op, w).1 == x.shape[1],
        y.shape[0] == x.shape[0],
        y.shape[1] == weight_dims(op, w).0,
        bias matches Some(b) ==> b.shape[0] == weight_dims(op, w).0,
        residual matches Some(r) ==> r.shape[0] == x.shape[0] && r.shape[1] == weight_dims(
            op,
            w,
        ).0,
        x_scale_faults(x, x_scale, x.shape[0], x.shape[1]).len() == 0,
        block_faults("K", "w", weight_scheme(w.dtype(), w.quant), x.shape[1]).len() == 0,
{
    reveal(matmul_dim_faults);
}

/// What the absence of problems of the activation scales says.
proof fn lemma_no_scale_faults(x: Tensor, x_scale: Option<Tensor>, m: usize, k: usize)
    requires
        x_scale_faults(x, x_scale, m, k).len() == 0,
    ensures
        x.quant == QuantScheme::PerToken ==> x_scale is Some && x_scale->0.count() >= m,
        x.quant == QuantScheme::PerBlock32 ==> x_scale is Some && k % 32 == 0
            && x_scale->0.count() >= m * (k / 32),
{
    if x.quant == QuantScheme::PerToken {
        assert(!scales_short(x_scale->0, m as int));
    }
    if x.quant == QuantScheme::PerBlock32 {
        assert(!scales_short(x_scale->0, m * ((k / 32) as usize)));
    }
}

/// Weights without a problem form a matrix.
proof fn lemma_matrix_fits<G: Fn(FormatQuery) -> Result<u64, FormatError>>(
    g: G,
    op: MatmulOp,
    w: Tensor,
    w_scale: Option<Tensor>,
)
    requires
        w.cells is Bytes,
        w.cells.len() <= usize::MAX,
        matmul_form(op, w).wf(),
        transpose_faults(op, w).len() == 0,
        0 < weight_dims(op, w).0 <= u32::MAX,
        0 < weight_dims(op, w).1 <= u32::MAX,
        bytes_fault(
            g,
            matmul_form(op, w),
            w.cells.len() as usize,
            w_scale,
            w.shape,
            matmul_carrier(),
        ) is None,
    ensures
        matmul_matrix(g, op, w, w_scale).wf(),
{
    let form = matmul_form(op, w);
    lemma_bytes_fit(g, form, w.cells.len() as usize, w_scale, w.shape, matmul_carrier());
}

/// Operands without a problem have the extents of the product.
pub proof fn lemma_matmul_fits<G: Fn(FormatQuery) -> Result<u64, FormatError>>(
    g: G,
    op: MatmulOp,
    x: Tensor,
    x_scale: Option<Tensor>,
    w: Tensor,
    w_scale: Option<Tensor>,
    bias: Option<Tensor>,
    residual: Option<Tensor>,
    y: Tensor,
)
    requires
        matmul_fault(g, op, x, x_scale, w, w_scale, bias, residual, y) is None,
        x.backed(),
        w.backed(),
        y.backed(),
        x_scale matches Some(t) ==> t.backed(),
        w_scale matches Some(t) ==> t.backed(),
        bias matches Some(t) ==> t.backed(),
        residual matches Some(t) ==> t.backed(),
    ensures
        ({
            let a = gemm_args(g, op, x, x_scale, w, w_scale, bias, residual);
            &&& a.wf()
            &&& y.count() == a.size()
        }),
{
    lemma_no_form_faults(op, x, x_scale, w, w_scale, bias, residual, y);
    lemma_no_dim_faults(op, x, x_scale, w, w_scale, bias, residual, y);
    lemma_epilogue_form(op.epilogue, bias, residual);
    lemma_extent2(x.shape);
    lemma_extent2(w.shape);
    lemma_extent2(y.shape);
    lemma_form_wf(op, x, w);
    lemma_matrix_fits(g, op, w, w_scale);
    if bias is Some {
        lemma_extent1(bias->0.shape);
    }
    if residual is Some {
        lemma_extent2(residual->0.shape);
    }
    lemma_no_scale_faults(x, x_scale, x.shape[0], x.shape[1]);
}

/// Matrix product with explicit scale operands.
///
/// Element `[i, j]` of `y` is the product of row `i` of the activations with
/// row `j` of the weights, followed by the epilogue. An error that a weight or
/// a sum gives while the product runs leaves the elements before it written.
#[verifier::spinoff_prover]
#[verifier::rlimit(60)]
pub fn matmul_with_scales<
    F: Fn(FloatOp, u32, u32) -> u32,
    G: Fn(FormatQuery) -> Result<u64, FormatError>,
>(
    f: &F,
    g: &G,
    op: &MatmulOp,
    x: &TensorView<'_>,
    x_scale: Option<&TensorView<'_>>,
    w: &TensorView<'_>,
    w_scale: Option<&TensorView<'_>>,
    bias: Option<&TensorView<'_>>,
    residual: Option<&TensorView<'_>>,
    y: &mut TensorViewMut<'_>,
) -> (r: Result<(), T0Error>)
    requires
        is_arith(*f),
        is_format(*g),
    ensures
        ({
            let a = gemm_args(*g, *op, x@, opt_view(x_scale), w@, opt_view(w_scale), opt_view(bias), opt_view(residual));
            match matmul_fault(*g, *op, x@, opt_view(x_scale), w@, opt_view(w_scale), opt_view(bias), opt_view(residual), old(y)@) {
                Some(e) => outcome(r) == Err::<(), ErrorView>(e) && final(y)@ == old(y)@,
                None => {
                    &&& outcome(r) == fault_result(a.first_error(*f, *g))
                    &&& final(y)@ == old(y)@.with_cells(
                        old(y)@.cells.with_f32s(a.values(*f, *g)),
                    )
                },
            }
        }),
        match (old(y).data, final(y).data) {
            (TensorDataMut::F32(a), TensorDataMut::F32(b)) => {
                a@.len() == b@.len() && (*final(a))@ == (*final(b))@
            },
            (TensorDataMut::F16(a), TensorDataMut::F16(b)) => {
                a@.len() == b@.len() && (*final(a))@ == (*final(b))@
            },
            (TensorDataMut::Bf16(a), TensorDataMut::Bf16(b)) => {
                a@.len() == b@.len() && (*final(a))@ == (*final(b))@
            },
            (TensorDataMut::I8(a), TensorDataMut::I8(b)) => {
                a@.len() == b@.len() && (*final(a))@ == (*final(b))@
            },
            (TensorDataMut::U32(a), TensorDataMut::U32(b)) => {
                a@.len() == b@.len() && (*final(a))@ == (*final(b))@
            },
            (TensorDataMut::Bytes(d, a), TensorDataMut::Bytes(e, b)) => {
                d == e && a@.len() == b@.len() && (*final(a))@ == (*final(b))@
            },
            _ => false,
        },
{
    let weights = match plan_matmul(g, op, x, x_scale, w, w_scale, bias, residual, y) {
        Ok(v) => v,
        Err(e) => {
            return Err(e);
        },
    };
    let gemm = Gemm {
        x,
        xs: x_scale,
        w: &weights,
        bias,
        residual,
        epilogue: op.epilogue,
        m: x.shape()[0],
    };
    assert(gemm@ == gemm_args(*g, *op, x@, opt_view(x_scale), w@, opt_view(w_scale), opt_view(bias), opt_view(residual)));
    let (values, error) = gemm.run(f, g);
    proof {
        lemma_computed_le(gemm@, *f, *g, gemm@.size());
        lemma_required_le(y@, values@.len() as int);
    }
    y.write_all(values.as_slice());
    match error {
        None => Ok(()),
        Some(e) => Err(e),
    }
}

/// Fewer elements need no more storage.
pub proof fn lemma_required_le(t: Tensor, n: int)
    requires
        t.backed(),
        0 <= n <= t.count(),
    ensures
        t.cells.required(n) <= t.cells.len(),
{
}

/// No more elements are computed than there are.
pub proof fn lemma_computed_le<
    F: Fn(FloatOp, u32, u32) -> u32,
    G: Fn(FormatQuery) -> Result<u64, FormatError>,
>(a: GemmArgs, f: F, g: G, i: int)
    requires
        0 <= i,
    ensures
        0 <= a.computed(f, g, i) <= i,
    decreases i,
{
    if i > 0 {
        lemma_computed_le(a, f, g, i - 1);
    }
}

/// Matrix product with the scales that travel with its operands.
pub fn matmul<
    F: Fn(FloatOp, u32, u32) -> u32,
    G: Fn(FormatQuery) -> Result<u64, FormatError>,
>(
    f: &F,
    g: &G,
    op: &MatmulOp,
    x: &TensorView<'_>,
    w: &TensorView<'_>,
    bias: Option<&TensorView<'_>>,
    residual: Option<&TensorView<'_>>,
    y: &mut TensorViewMut<'_>,
) -> (r: Result<(), T0Error>)
    requires
        is_arith(*f),
        is_format(*g),
    ensures
        ({
            let xs = attached(x);
            let ws = attached(w);
            let a = gemm_args(*g, *op, x@, xs, w@, ws, opt_view(bias), opt_view(residual));
            match matmul_fault(
                *g,
                *op,
                x@,
                xs,
                w@,
                ws,
                opt_view(bias),
                opt_view(residual),
                old(y)@,
            ) {
                Some(e) => outcome(r) == Err::<(), ErrorView>(e) && final(y)@ == old(y)@,
                None => {
                    &&& outcome(r) == fault_result(a.first_error(*f, *g))
                    &&& final(y)@ == old(y)@.with_cells(
                        old(y)@.cells.with_f32s(a.values(*f, *g)),
                    )
                },
            }
        }),
        match (old(y).data, final(y).data) {
            (TensorDataMut::F32(a), TensorDataMut::F32(b)) => {
                a@.len() == b@.len() && (*final(a))@ == (*final(b))@
            },
            (TensorDataMut::F16(a), TensorDataMut::F16(b)) => {
                a@.len() == b@.len() && (*final(a))@ == (*final(b))@
            },
            (TensorDataMut::Bf16(a), TensorDataMut::Bf16(b)) => {
                a@.len() == b@.len() && (*final(a))@ == (*final(b))@
            },
            (TensorDataMut::I8(a), TensorDataMut::I8(b)) => {
                a@.len() == b@.len() && (*final(a))@ == (*final(b))@
            },
            (TensorDataMut::U32(a), TensorDataMut::U32(b)) => {
                a@.len() == b@.len() && (*final(a))@ == (*final(b))@
            },
            (TensorDataMut::Bytes(d, a), TensorDataMut::Bytes(e, b)) => {
                d == e && a@.len() == b@.len() && (*final(a))@ == (*final(b))@
            },
            _ => false,
        },
{
    matmul_with_scales(f, g, op, x, x.scale(), w, w.scale(), bias, residual, y)
}

/// Scales that travel with an operand.
pub open spec fn attached<'a>(t: &TensorView<'a>) -> Option<Tensor> {
    match t.scale {
        Some(b) => Some((*b)@),
        None => None,
    }
}

} // verus!
