//! Gather of token embeddings from a weight table.
use vstd::prelude::*;
use vstd::slice::slice_subrange;
use crate::arith::{fp_mul, is_arith, times, FloatOp};
use crate::buffer::{
    fault_result, lemma_backed_holds, lemma_extent1, lemma_extent2, opt_view, Tensor, TensorDataMut,
    TensorView, TensorViewMut,
};
use crate::carrier::{CarrierNames, WeightForm};
use crate::causal_conv1d::{check_opt_backing, opt_backing_fault};
use crate::check::{
    attr_error, backing_error, check_dim, check_dtype, check_float, check_rank, check_row_major,
    check_weight_layout, clear, dim_faults, dtype_error, dtype_faults, dtype_mismatch, empty_error,
    fault_if, fault_of, float_faults, given, invalid_attr, is_float, no_problems, or_fault, push_when,
    quant_error, quant_mismatch, rank_faults, row_major_faults, weight_layout_faults,
};
use crate::dtype::{finite_positive, is_finite_positive};
use crate::error::{
    outcome, plain, quoting, to_vec, views, Arg, Detail, ErrorView, FormatError, T0Error,
};
use crate::gather_rows::{check_named_u32, named_u32_fault};
use crate::index::{lemma_flat_bound, lemma_split};
use crate::ir::{DType, LayoutId, QuantScheme, SchemeId};
use crate::matmul::{
    attached, block_faults, bytes_fault, check_blocks, check_bytes, check_opt_scale_layout,
    check_scheme, lemma_bytes_fit, lemma_required_le, opt_scale_layout_faults, scale_bytes,
    scheme_fault,
};
use crate::weight::{
    answer32, ask32, block_of, block_size, is_format, FormatQuery, Matrix, WeightNames, Weights,
};

verus! {

/// Attributes of the embedding gather.
#[derive(Debug, Clone, Copy)]
pub struct EmbedGatherOp {
    /// Type of the output.
    pub out_dtype: DType,
    /// Factor of every element.
    pub scale: u32,
}

/// Decoding scheme of the table: half precision if none.
pub open spec fn table_scheme(quant: QuantScheme) -> Option<SchemeId> {
    match quant {
        QuantScheme::PerRow => Some(SchemeId::I8R),
        QuantScheme::Scheme(s) => Some(s),
        _ => None,
    }
}

/// Decoding scheme of the table.
fn scheme_of_table(quant: QuantScheme) -> (r: Option<SchemeId>)
    ensures
        r == table_scheme(quant),
{
    match quant {
        QuantScheme::PerRow => Some(SchemeId::I8R),
        QuantScheme::Scheme(s) => Some(s),
        _ => None,
    }
}

/// Problem of a table whose type and scheme do not suit each other.
pub open spec fn table_scheme_faults(table: Tensor) -> Seq<ErrorView> {
    match table.quant {
        QuantScheme::Unquantized => given(
            table.dtype() != DType::F16,
            quant_error(
                "table",
                seq![QuantScheme::PerRow, QuantScheme::Scheme(SchemeId::I8R)],
                table.quant,
            ),
        ),
        QuantScheme::PerRow => dtype_faults("table", DType::I8, table.dtype()),
        QuantScheme::Scheme(SchemeId::I8R) => dtype_faults("table", DType::I8, table.dtype()),
        QuantScheme::Scheme(SchemeId::I8B128) => dtype_faults("table", DType::I8, table.dtype()),
        QuantScheme::Scheme(SchemeId::I4K) => dtype_faults("table", DType::I4, table.dtype()),
        QuantScheme::Scheme(_) => seq![
            quant_error(
                "table",
                seq![
                    QuantScheme::PerRow,
                    QuantScheme::Scheme(SchemeId::I8R),
                    QuantScheme::Scheme(SchemeId::I8B128),
                    QuantScheme::Scheme(SchemeId::I4K),
                ],
                table.quant,
            ),
        ],
        _ => seq![
            quant_error(
                "table",
                seq![
                    QuantScheme::Unquantized,
                    QuantScheme::PerRow,
                    QuantScheme::Scheme(SchemeId::I8R),
                ],
                table.quant,
            ),
        ],
    }
}

/// Problems of the scale operand's presence and type.
pub open spec fn table_scale_faults(scheme: Option<SchemeId>, scales: Option<Tensor>) -> Seq<
    ErrorView,
> {
    match scales {
        None => Seq::empty(),
        Some(s) => match scheme {
            None => seq![
                attr_error(
                    "embed_gather",
                    "table_scales",
                    plain("table_scales provided for unquantized table"),
                ),
            ],
            Some(SchemeId::I8R) | Some(SchemeId::I8B128) => dtype_faults(
                "table_scales",
                DType::F16,
                s.dtype(),
            ),
            Some(SchemeId::I4K) => dtype_faults("table_scales", DType::U32, s.dtype()),
            _ => Seq::empty(),
        },
    }
}

/// Problems of the operands' forms and of the attributes.
#[verifier::opaque]
pub open spec fn embed_form_faults(
    op: EmbedGatherOp,
    token_ids: Tensor,
    table: Tensor,
    scales: Option<Tensor>,
    x: Tensor,
) -> Seq<ErrorView> {
    clear() + rank_faults("token_ids", 1, token_ids.shape) + rank_faults("table", 2, table.shape)
        + rank_faults("x", 2, x.shape) + row_major_faults("token_ids", token_ids.layout)
        + weight_layout_faults("table", table.layout) + opt_scale_layout_faults(
        "table_scales",
        scales,
    ) + row_major_faults("x", x.layout) + dtype_faults("token_ids", DType::U32, token_ids.dtype())
        + given(
        table.dtype() != DType::F16 && table.dtype() != DType::I8 && table.dtype() != DType::I4,
        dtype_error("table", seq![DType::F16, DType::I8, DType::I4], table.dtype()),
    ) + float_faults("out_dtype", op.out_dtype) + dtype_faults("x", op.out_dtype, x.dtype())
        + given(
        !is_finite_positive(op.scale),
        attr_error(
            "embed_gather",
            "scale",
            quoting("scale must be finite and positive, got {}", seq![Arg::Real(op.scale)]),
        ),
    ) + table_scheme_faults(table) + table_scale_faults(table_scheme(table.quant), scales)
}

/// Problems of the first `n` token ids against the vocabulary.
pub open spec fn token_faults(ids: Tensor, vocab: usize, n: int) -> Seq<ErrorView>
    decreases n,
{
    if n <= 0 {
        Seq::empty()
    } else {
        let token = ids.u32_at(n - 1);
        token_faults(ids, vocab, n - 1) + given(
            token >= vocab,
            ErrorView::TokenOutOfRange {
                op: "embed_gather",
                tensor: "token_ids",
                position: (n - 1) as usize,
                token,
                vocab_size: vocab,
            },
        )
    }
}

/// Problems of the operands' extents and of the token ids.
pub open spec fn embed_dim_faults(token_ids: Tensor, table: Tensor, x: Tensor) -> Seq<ErrorView> {
    let t = token_ids.shape[0];
    let v = table.shape[0];
    let dm = table.shape[1];
    clear() + dim_faults("T", "token_ids", t, "x", x.shape[0]) + dim_faults(
        "Dm",
        "table",
        dm,
        "x",
        x.shape[1],
    ) + block_faults("Dm", "table", table_scheme(table.quant), dm) + token_faults(
        token_ids,
        v,
        t as int,
    )
}

/// Names that errors about the table's bytes quote.
pub open spec fn embed_carrier() -> CarrierNames {
    CarrierNames {
        op: "embed_gather",
        tensor: "table",
        scale_tensor: "table_scales",
        row_dim: "V",
        padded_text: "padded dimensions overflow usize",
        plain_text: "dimensions V*Dm overflow usize",
        sum_text: "l1_values_bytes + geom.region_bytes overflow",
        stray_text: "table_scales provided for unquantized table",
    }
}

/// Extents and storage of the table.
pub open spec fn embed_form(table: Tensor) -> WeightForm {
    let scheme = table_scheme(table.quant);
    WeightForm {
        dtype: table.dtype(),
        scheme,
        tiled: table.layout == LayoutId::L1,
        n: table.shape[0] as u32,
        k: table.shape[1] as u32,
        block: block_of(scheme),
    }
}

/// The error of extents that cannot be padded for tiling.
pub open spec fn padding_fault<G: Fn(FormatQuery) -> Result<u64, FormatError>>(
    g: G,
    form: WeightForm,
) -> Option<ErrorView> {
    let rows = answer32(
        g,
        FormatQuery::PaddedRows { rows: form.n, cols: form.k, block: form.block },
    );
    let cols = answer32(
        g,
        FormatQuery::PaddedCols { rows: form.n, cols: form.k, block: form.block },
    );
    if rows is Err {
        Some(rows->Err_0)
    } else if cols is Err {
        Some(cols->Err_0)
    } else {
        None
    }
}

/// Checks that the extents can be padded for tiling.
pub fn check_padding<G: Fn(FormatQuery) -> Result<u64, FormatError>>(g: &G, form: &WeightForm)
    -> (r: Result<(), T0Error>)
    requires
        is_format(*g),
    ensures
        outcome(r) == fault_result(padding_fault(*g, *form)),
{
    let q = FormatQuery::PaddedRows { rows: form.n, cols: form.k, block: form.block };
    let _rows: u32 = match ask32(g, q) {
        Ok(v) => v,
        Err(e) => {
            return Err(e);
        },
    };
    let q = FormatQuery::PaddedCols { rows: form.n, cols: form.k, block: form.block };
    let _cols: u32 = match ask32(g, q) {
        Ok(v) => v,
        Err(e) => {
            return Err(e);
        },
    };
    Ok(())
}

/// The error of a gather whose operands or attributes do not fit, apart from
/// the bytes of the table.
#[verifier::opaque]
pub open spec fn embed_operand_fault(
    op: EmbedGatherOp,
    token_ids: Tensor,
    table: Tensor,
    scales: Option<Tensor>,
    x: Tensor,
) -> Option<ErrorView> {
    let backing = or_fault(
        or_fault(
            or_fault(token_ids.backing_fault("token_ids"), table.backing_fault("table")),
            opt_backing_fault("table_scales", scales),
        ),
        x.backing_fault("x"),
    );
    let form = fault_of(embed_form_faults(op, token_ids, table, scales, x));
    let t = token_ids.shape[0];
    let v = table.shape[0];
    let dm = table.shape[1];
    let empty = or_fault(
        fault_if(t == 0, empty_error("embed_gather", "token_ids")),
        fault_if(v == 0 || dm == 0, empty_error("embed_gather", "table")),
    );
    let wide = or_fault(
        or_fault(
            named_u32_fault("embed_gather", "dimension T exceeds u32: {}", t),
            named_u32_fault("embed_gather", "dimension V exceeds u32: {}", v),
        ),
        named_u32_fault("embed_gather", "dimension Dm exceeds u32: {}", dm),
    );
    let dims = fault_of(embed_dim_faults(token_ids, table, x));
    or_fault(
        or_fault(
            or_fault(or_fault(or_fault(backing, scheme_fault(table.quant)), form), empty),
            wide,
        ),
        dims,
    )
}

/// The error of a gather whose operands or attributes do not fit.
pub open spec fn embed_fault<G: Fn(FormatQuery) -> Result<u64, FormatError>>(
    g: G,
    op: EmbedGatherOp,
    token_ids: Tensor,
    table: Tensor,
    scales: Option<Tensor>,
    x: Tensor,
) -> Option<ErrorView> {
    let padding = padding_fault(g, embed_form(table));
    let raw = fault_if(!(table.cells is Bytes), backing_error("embed_gather", table.dtype()));
    let bytes = bytes_fault(
        g,
        embed_form(table),
        table.cells.len() as usize,
        scales,
        table.shape,
        embed_carrier(),
    );
    or_fault(
        or_fault(
            or_fault(embed_operand_fault(op, token_ids, table, scales, x), padding),
            raw,
        ),
        bytes,
    )
}

/// The table of a gather.
pub open spec fn embed_matrix<G: Fn(FormatQuery) -> Result<u64, FormatError>>(
    g: G,
    table: Tensor,
    scales: Option<Tensor>,
) -> Matrix {
    let form = embed_form(table);
    Matrix {
        bytes: table.cells->Bytes_1,
        scales: scale_bytes(
            table,
            scales,
            form.tiled,
            form.padded(g, embed_carrier())->Ok_0 as int,
        ),
        separate: scales is Some,
        tiled: form.tiled,
        transposed: false,
        scheme: form.scheme,
        n: form.n as int,
        k: form.k as int,
        block: form.block,
        shape: table.shape,
        names: WeightNames {
            op: "embed_gather",
            tensor: "table",
            scale_tensor: "table_scales",
            byte_text: "l1_i8_offset",
            half_text: "L1 offset overflow",
            row_shape: false,
        },
    }
}

/// Operands of a gather of `t` tokens.
pub struct EmbedArgs {
    /// Token ids.
    pub ids: Tensor,
    /// Table.
    pub table: Matrix,
    /// Factor of every element.
    pub scale: u32,
    /// Number of tokens.
    pub t: int,
}

impl EmbedArgs {
    /// Whether the ids are in the table and all operands have storage.
    pub open spec fn wf(self) -> bool {
        &&& self.table.wf()
        &&& !self.table.transposed
        &&& self.ids.backed()
        &&& self.ids.count() == self.t
        &&& 0 < self.t
        &&& self.t * self.table.k <= usize::MAX
        &&& forall|i: int| 0 <= i < self.t ==> #[trigger] self.ids.u32_at(i) < self.table.n
    }

    /// Output element at a flat index: the token's table element times the
    /// factor.
    pub open spec fn cell<
        F: Fn(FloatOp, u32, u32) -> u32,
        G: Fn(FormatQuery) -> Result<u64, FormatError>,
    >(self, f: F, g: G, i: int) -> Result<u32, ErrorView> {
        let token = self.ids.u32_at(i / self.table.k);
        match self.table.element(f, g, token as int, i % self.table.k) {
            Err(e) => Err(e),
            Ok(v) => Ok(fp_mul(f, v, self.scale)),
        }
    }

    /// Number of leading elements among the first `i` that have a value.
    pub open spec fn computed<
        F: Fn(FloatOp, u32, u32) -> u32,
        G: Fn(FormatQuery) -> Result<u64, FormatError>,
    >(self, f: F, g: G, i: int) -> int
        decreases i,
    {
        if i <= 0 {
            0
        } else {
            let before = self.computed(f, g, i - 1);
            if before == i - 1 && self.cell(f, g, i - 1) is Ok {
                i
            } else {
                before
            }
        }
    }

    /// Number of output elements.
    pub open spec fn size(self) -> int {
        self.t * self.table.k
    }

    /// Number of elements that are written: all that have a value before the
    /// first error, in whole rows if the table is tiled.
    pub open spec fn written<
        F: Fn(FloatOp, u32, u32) -> u32,
        G: Fn(FormatQuery) -> Result<u64, FormatError>,
    >(self, f: F, g: G) -> int {
        let n = self.computed(f, g, self.size());
        if self.table.tiled {
            n / self.table.k * self.table.k
        } else {
            n
        }
    }

    /// The elements that are written.
    pub open spec fn values<
        F: Fn(FloatOp, u32, u32) -> u32,
        G: Fn(FormatQuery) -> Result<u64, FormatError>,
    >(self, f: F, g: G) -> Seq<u32> {
        Seq::new(self.written(f, g) as nat, |i: int| self.cell(f, g, i)->Ok_0)
    }

    /// The first error of an element.
    pub open spec fn first_error<
        F: Fn(FloatOp, u32, u32) -> u32,
        G: Fn(FormatQuery) -> Result<u64, FormatError>,
    >(self, f: F, g: G) -> Option<ErrorView> {
        let n = self.computed(f, g, self.size());
        if n < self.size() {
            Some(self.cell(f, g, n)->Err_0)
        } else {
            None
        }
    }
}

/// Operands of a gather.
pub open spec fn embed_args<G: Fn(FormatQuery) -> Result<u64, FormatError>>(
    g: G,
    op: EmbedGatherOp,
    token_ids: Tensor,
    table: Tensor,
    scales: Option<Tensor>,
) -> EmbedArgs {
    EmbedArgs {
        ids: token_ids,
        table: embed_matrix(g, table, scales),
        scale: op.scale,
        t: token_ids.shape[0] as int,
    }
}

proof fn lemma_stuck<
    F: Fn(FloatOp, u32, u32) -> u32,
    G: Fn(FormatQuery) -> Result<u64, FormatError>,
>(a: EmbedArgs, f: F, g: G, i: int, n: int)
    requires
        0 <= i < n,
        a.computed(f, g, i) == i,
        a.cell(f, g, i) is Err,
    ensures
        a.computed(f, g, n) == i,
    decreases n,
{
    if n > i + 1 {
        lemma_stuck(a, f, g, i, n - 1);
    }
}

/// Computes the output elements in order, up to the first error.
fn gather_elements<
    F: Fn(FloatOp, u32, u32) -> u32,
    G: Fn(FormatQuery) -> Result<u64, FormatError>,
>(
    f: &F,
    g: &G,
    ids: &TensorView<'_>,
    table: &Weights<'_>,
    scale: u32,
    t: usize,
    Ghost(a): Ghost<EmbedArgs>,
) -> (r: (Vec<u32>, Option<T0Error>))
    requires
        is_arith(*f),
        is_format(*g),
        a.wf(),
        a == (EmbedArgs { ids: ids@, table: table@, scale, t: t as int }),
    ensures
        r.0@ == a.values(*f, *g),
        r.0@.len() <= a.size(),
        match r.1 {
            None => a.first_error(*f, *g) is None,
            Some(e) => a.first_error(*f, *g) == Some(e.view()),
        },
{
    let k: usize = table.k;
    let mut out: Vec<u32> = Vec::new();
    assert(0 * k == 0) by (nonlinear_arith);
    for row in 0..t
        invariant
            is_arith(*f),
            is_format(*g),
            a.wf(),
            a == (EmbedArgs { ids: ids@, table: table@, scale, t: t as int }),
            k == table.k,
            out@.len() == row * k,
            a.computed(*f, *g, row * k) == row * k,
            forall|i: int|
                0 <= i < out@.len() ==> a.cell(*f, *g, i) == Ok::<u32, ErrorView>(
                    #[trigger] out@[i],
                ),
    {
        proof {
            lemma_backed_holds(ids@, row as int);
            assert(a.ids.u32_at(row as int) < a.table.n);
        }
        let token: usize = ids.read_u32(row) as usize;
        for col in 0..k
            invariant
                is_arith(*f),
                is_format(*g),
                a.wf(),
                a == (EmbedArgs { ids: ids@, table: table@, scale, t: t as int }),
                k == table.k,
                row < t,
                token == a.ids.u32_at(row as int),
                token < table.n,
                out@.len() == row * k + col,
                a.computed(*f, *g, row * k + col) == row * k + col,
                forall|i: int|
                    0 <= i < out@.len() ==> a.cell(*f, *g, i) == Ok::<u32, ErrorView>(
                        #[trigger] out@[i],
                    ),
        {
            proof {
                lemma_split(row as int, col as int, k as int);
                lemma_flat_bound(row as int, t as int, col as int, k as int);
            }
            match table.element_at(f, g, token, col) {
                Ok(v) => {
                    out.push(times(f, v, scale));
                },
                Err(e) => {
                    proof {
                        let i = row * k + col;
                        assert(a.cell(*f, *g, i) == Err::<u32, ErrorView>(e.view()));
                        lemma_stuck(a, *f, *g, i, a.size());
                    }
                    if table.tiled {
                        out.truncate(row * k);
                    }
                    assert(out@ =~= a.values(*f, *g));
                    return (out, Some(e));
                },
            }
        }
        assert((row + 1) * k == row * k + k) by (nonlinear_arith);
    }
    proof {
        lemma_split(t as int, 0, k as int);
    }
    assert(out@ =~= a.values(*f, *g));
    (out, None)
}

fn embed_carrier_names() -> (c: CarrierNames)
    ensures
        c == embed_carrier(),
{
    CarrierNames {
        op: "embed_gather",
        tensor: "table",
        scale_tensor: "table_scales",
        row_dim: "V",
        padded_text: "padded dimensions overflow usize",
        plain_text: "dimensions V*Dm overflow usize",
        sum_text: "l1_values_bytes + geom.region_bytes overflow",
        stray_text: "table_scales provided for unquantized table",
    }
}

/// Checks the type and scheme of the table.
fn check_table_scheme(problems: &mut Vec<T0Error>, table: &TensorView<'_>)
    ensures
        views(final(problems)@) == views(old(problems)@) + table_scheme_faults(table@),
{
    let got = table.quant();
    match got {
        QuantScheme::Unquantized => {
            let expected = vec![QuantScheme::PerRow, QuantScheme::Scheme(SchemeId::I8R)];
            assert(expected@ =~= seq![QuantScheme::PerRow, QuantScheme::Scheme(SchemeId::I8R)]);
            push_when(
                problems,
                table.dtype() != DType::F16,
                quant_mismatch("table", expected, got),
            );
        },
        QuantScheme::PerRow => check_dtype(problems, "table", DType::I8, table.dtype()),
        QuantScheme::Scheme(SchemeId::I8R) => check_dtype(
            problems,
            "table",
            DType::I8,
            table.dtype(),
        ),
        QuantScheme::Scheme(SchemeId::I8B128) => check_dtype(
            problems,
            "table",
            DType::I8,
            table.dtype(),
        ),
        QuantScheme::Scheme(SchemeId::I4K) => check_dtype(
            problems,
            "table",
            DType::I4,
            table.dtype(),
        ),
        QuantScheme::Scheme(_) => {
            let expected = vec![
                QuantScheme::PerRow,
                QuantScheme::Scheme(SchemeId::I8R),
                QuantScheme::Scheme(SchemeId::I8B128),
                QuantScheme::Scheme(SchemeId::I4K),
            ];
            assert(expected@ =~= seq![
                QuantScheme::PerRow,
                QuantScheme::Scheme(SchemeId::I8R),
                QuantScheme::Scheme(SchemeId::I8B128),
                QuantScheme::Scheme(SchemeId::I4K),
            ]);
            push_when(problems, true, quant_mismatch("table", expected, got));
        },
        _ => {
            let expected = vec![
                QuantScheme::Unquantized,
                QuantScheme::PerRow,
                QuantScheme::Scheme(SchemeId::I8R),
            ];
            assert(expected@ =~= seq![
                QuantScheme::Unquantized,
                QuantScheme::PerRow,
                QuantScheme::Scheme(SchemeId::I8R),
            ]);
            push_when(problems, true, quant_mismatch("table", expected, got));
        },
    }
}

/// Checks the presence and type of the scale operand.
fn check_table_scales(
    problems: &mut Vec<T0Error>,
    scheme: Option<SchemeId>,
    scales: Option<&TensorView<'_>>,
)
    ensures
        views(final(problems)@) == views(old(problems)@) + table_scale_faults(
            scheme,
            opt_view(scales),
        ),
{
    let ghost before = views(problems@);
    match scales {
        None => {},
        Some(s) => match scheme {
            None => {
                let reason = Detail::plain("table_scales provided for unquantized table");
                push_when(problems, true, invalid_attr("embed_gather", "table_scales", reason));
            },
            Some(SchemeId::I8R) | Some(SchemeId::I8B128) => {
                check_dtype(problems, "table_scales", DType::F16, s.dtype());
            },
            Some(SchemeId::I4K) => {
                check_dtype(problems, "table_scales", DType::U32, s.dtype());
            },
            _ => {},
        },
    }
    assert(views(problems@) =~= before + table_scale_faults(scheme, opt_view(scales)));
}

/// Checks the operands' forms and the attributes.
fn check_embed_form(
    op: &EmbedGatherOp,
    token_ids: &TensorView<'_>,
    table: &TensorView<'_>,
    scales: Option<&TensorView<'_>>,
    x: &TensorViewMut<'_>,
) -> (r: Result<(), T0Error>)
    ensures
        ({
            let faults = embed_form_faults(*op, token_ids@, table@, opt_view(scales), x@);
            &&& outcome(r) == fault_result(fault_of(faults))
            &&& r is Ok ==> faults.len() == 0
        }),
{
    let mut problems = no_problems();
    check_rank(&mut problems, "token_ids", 1, token_ids.shape());
    check_rank(&mut problems, "table", 2, table.shape());
    check_rank(&mut problems, "x", 2, x.shape());
    check_row_major(&mut problems, "token_ids", token_ids.layout());
    check_weight_layout(&mut problems, "table", table.layout());
    check_opt_scale_layout(&mut problems, "table_scales", scales);
    check_row_major(&mut problems, "x", x.layout());
    check_dtype(&mut problems, "token_ids", DType::U32, token_ids.dtype());
    let got = table.dtype();
    let expected = vec![DType::F16, DType::I8, DType::I4];
    assert(expected@ =~= seq![DType::F16, DType::I8, DType::I4]);
    push_when(
        &mut problems,
        got != DType::F16 && got != DType::I8 && got != DType::I4,
        dtype_mismatch("table", expected, got),
    );
    check_float(&mut problems, "out_dtype", op.out_dtype);
    check_dtype(&mut problems, "x", op.out_dtype, x.dtype());
    let reason = Detail::one("scale must be finite and positive, got {}", Arg::Real(op.scale));
    push_when(
        &mut problems,
        !finite_positive(op.scale),
        invalid_attr("embed_gather", "scale", reason),
    );
    check_table_scheme(&mut problems, table);
    check_table_scales(&mut problems, scheme_of_table(table.quant()), scales);
    proof {
        reveal(embed_form_faults);
    }
    T0Error::from_problems(problems)
}

/// Checks the token ids against the vocabulary.
fn check_tokens(problems: &mut Vec<T0Error>, ids: &TensorView<'_>, vocab: usize, t: usize)
    requires
        ids@.backed(),
        ids@.count() == t,
    ensures
        views(final(problems)@) == views(old(problems)@) + token_faults(ids@, vocab, t as int),
{
    let ghost before = views(problems@);
    assert(before =~= before + token_faults(ids@, vocab, 0));
    for pos in 0..t
        invariant
            ids@.backed(),
            ids@.count() == t,
            views(problems@) == before + token_faults(ids@, vocab, pos as int),
    {
        proof {
            lemma_backed_holds(ids@, pos as int);
        }
        let token: u32 = ids.read_u32(pos);
        let e = T0Error::TokenOutOfRange {
            op: "embed_gather",
            tensor: "token_ids",
            position: pos,
            token,
            vocab_size: vocab,
        };
        push_when(problems, token as usize >= vocab, e);
        assert(views(problems@) =~= before + token_faults(ids@, vocab, pos + 1));
    }
}

proof fn lemma_tokens_ok(ids: Tensor, vocab: usize, n: int, i: int)
    requires
        token_faults(ids, vocab, n).len() == 0,
        0 <= i < n,
    ensures
        ids.u32_at(i) < vocab,
    decreases n,
{
    if i < n - 1 {
        lemma_tokens_ok(ids, vocab, n - 1, i);
    }
}

/// A table without a problem has a scheme that suits its type and extents.
proof fn lemma_embed_form_wf(table: Tensor)
    requires
        table.rank() == 2,
        0 < table.shape[0] <= u32::MAX,
        0 < table.shape[1] <= u32::MAX,
        scheme_fault(table.quant) is None,
        table_scheme_faults(table).len() == 0,
        block_faults("Dm", "table", table_scheme(table.quant), table.shape[1]).len() == 0,
    ensures
        embed_form(table).wf(),
{
}

/// What the absence of form problems says.
proof fn lemma_no_embed_form_faults(
    op: EmbedGatherOp,
    token_ids: Tensor,
    table: Tensor,
    scales: Option<Tensor>,
    x: Tensor,
)
    requires
        embed_form_faults(op, token_ids, table, scales, x).len() == 0,
    ensures
        token_ids.rank() == 1,
        table.rank() == 2,
        x.rank() == 2,
        table_scheme_faults(table).len() == 0,
        is_float(op.out_dtype),
        x.dtype() == op.out_dtype,
{
    reveal(embed_form_faults);
}

/// Operands of a gather without a problem have its extents.
pub proof fn lemma_embed_fits<G: Fn(FormatQuery) -> Result<u64, FormatError>>(
    g: G,
    op: EmbedGatherOp,
    token_ids: Tensor,
    table: Tensor,
    scales: Option<Tensor>,
    x: Tensor,
)
    requires
        embed_fault(g, op, token_ids, table, scales, x) is None,
        token_ids.cells.len() <= usize::MAX,
        table.cells.len() <= usize::MAX,
        x.cells.len() <= usize::MAX,
    ensures
        ({
            let a = embed_args(g, op, token_ids, table, scales);
            &&& a.wf()
            &&& x.backed()
            &&& x.count() == a.size()
            &&& is_float(x.dtype())
            &&& x.dtype() == op.out_dtype
        }),
{
    reveal(embed_operand_fault);
    lemma_no_embed_form_faults(op, token_ids, table, scales, x);
    lemma_extent1(token_ids.shape);
    lemma_extent2(table.shape);
    lemma_extent2(x.shape);
    assert(embed_dim_faults(token_ids, table, x).len() == 0);
    lemma_embed_form_wf(table);
    let form = embed_form(table);
    lemma_bytes_fit(g, form, table.cells.len() as usize, scales, table.shape, embed_carrier());
    let a = embed_args(g, op, token_ids, table, scales);
    assert forall|i: int| 0 <= i < a.t implies #[trigger] a.ids.u32_at(i) < a.table.n by {
        lemma_tokens_ok(token_ids, table.shape[0], a.t, i);
    }
    assert(a.table.wf());
}

/// Checks the operands of a gather; gives the scheme of the table.
fn check_embed_operands(
    op: &EmbedGatherOp,
    token_ids: &TensorView<'_>,
    table: &TensorView<'_>,
    table_scales: Option<&TensorView<'_>>,
    x: &TensorViewMut<'_>,
) -> (r: Result<Option<SchemeId>, T0Error>)
    ensures
        match embed_operand_fault(*op, token_ids@, table@, opt_view(table_scales), x@) {
            Some(e) => outcome(r) == Err::<Option<SchemeId>, ErrorView>(e),
            None => {
                &&& r == Ok::<Option<SchemeId>, T0Error>(table_scheme(table@.quant))
                &&& token_ids@.backed()
                &&& table@.backed()
                &&& x@.backed()
                &&& table_scales matches Some(ws) ==> ws@.backed()
                &&& token_ids@.rank() == 1
                &&& table@.rank() == 2
                &&& token_ids@.count() == token_ids@.shape[0]
                &&& 0 < token_ids@.shape[0]
                &&& 0 < table@.shape[0] <= u32::MAX
                &&& 0 < table@.shape[1] <= u32::MAX
                &&& x@.count() == token_ids@.shape[0] * table@.shape[1]
                &&& embed_form(table@).wf()
                &&& token_faults(
                    token_ids@,
                    table@.shape[0],
                    token_ids@.shape[0] as int,
                ).len() == 0
            },
        },
{
    proof {
        reveal(embed_operand_fault);
    }
    match token_ids.validate_backing("token_ids") {
        Ok(_) => {},
        Err(e) => {
            return Err(e);
        },
    }
    match table.validate_backing("table") {
        Ok(_) => {},
        Err(e) => {
            return Err(e);
        },
    }
    match check_opt_backing("table_scales", table_scales) {
        Ok(_) => {},
        Err(e) => {
            return Err(e);
        },
    }
    match x.validate_backing("x") {
        Ok(_) => {},
        Err(e) => {
            return Err(e);
        },
    }
    match check_scheme(table.quant()) {
        Ok(_) => {},
        Err(e) => {
            return Err(e);
        },
    }
    match check_embed_form(op, token_ids, table, table_scales, x) {
        Ok(_) => {},
        Err(e) => {
            return Err(e);
        },
    }
    proof {
        lemma_no_embed_form_faults(*op, token_ids@, table@, opt_view(table_scales), x@);
    }
    let t: usize = token_ids.shape()[0];
    let v: usize = table.shape()[0];
    let dm: usize = table.shape()[1];
    if t == 0 {
        return Err(T0Error::EmptyInput { op: "embed_gather", tensor: "token_ids" });
    }
    if v == 0 || dm == 0 {
        return Err(T0Error::EmptyInput { op: "embed_gather", tensor: "table" });
    }
    match check_named_u32("embed_gather", "dimension T exceeds u32: {}", t) {
        Ok(_) => {},
        Err(e) => {
            return Err(e);
        },
    }
    match check_named_u32("embed_gather", "dimension V exceeds u32: {}", v) {
        Ok(_) => {},
        Err(e) => {
            return Err(e);
        },
    }
    match check_named_u32("embed_gather", "dimension Dm exceeds u32: {}", dm) {
        Ok(_) => {},
        Err(e) => {
            return Err(e);
        },
    }
    proof {
        lemma_extent1(token_ids@.shape);
        lemma_extent2(table@.shape);
        lemma_extent2(x@.shape);
    }
    let scheme = scheme_of_table(table.quant());
    let mut problems = no_problems();
    check_dim(&mut problems, "T", "token_ids", t, "x", x.shape()[0]);
    check_dim(&mut problems, "Dm", "table", dm, "x", x.shape()[1]);
    check_blocks(&mut problems, "Dm", "table", scheme, dm);
    check_tokens(&mut problems, token_ids, v, t);
    let ghost found = views(problems@);
    match T0Error::from_problems(problems) {
        Ok(_) => {},
        Err(e) => {
            return Err(e);
        },
    }
    proof {
        assert(found.len() == 0);
        assert(token_faults(token_ids@, v, t as int).len() == 0);
        lemma_embed_form_wf(table@);
    }
    Ok(scheme)
}

/// Checks a gather and gives the table.
fn plan_embed<'a, G: Fn(FormatQuery) -> Result<u64, FormatError>>(
    g: &G,
    op: &EmbedGatherOp,
    token_ids: &TensorView<'_>,
    table: &TensorView<'a>,
    table_scales: Option<&TensorView<'a>>,
    x: &TensorViewMut<'_>,
) -> (r: Result<Weights<'a>, T0Error>)
    requires
        is_format(*g),
    ensures
        match embed_fault(*g, *op, token_ids@, table@, opt_view(table_scales), x@) {
            Some(e) => outcome(r) == Err::<Weights<'a>, ErrorView>(e),
            None => {
                let a = embed_args(*g, *op, token_ids@, table@, opt_view(table_scales));
                &&& r is Ok
                &&& r->Ok_0@ == a.table
                &&& a.wf()
                &&& token_ids@.rank() == 1
                &&& x@.backed()
                &&& x@.count() == a.size()
            },
        },
{
    let scheme = match check_embed_operands(op, token_ids, table, table_scales, x) {
        Ok(s) => s,
        Err(e) => {
            return Err(e);
        },
    };
    let t: usize = token_ids.shape()[0];
    let v: usize = table.shape()[0];
    let dm: usize = table.shape()[1];
    let form = WeightForm {
        dtype: table.dtype(),
        scheme,
        tiled: table.layout() == LayoutId::L1,
        n: v as u32,
        k: dm as u32,
        block: block_size(scheme),
    };
    assert(form == embed_form(table@));
    match check_padding(g, &form) {
        Ok(_) => {},
        Err(e) => {
            return Err(e);
        },
    }
    let bytes = match table.as_bytes() {
        Some(b) => b,
        None => {
            return Err(
                T0Error::BackingRepresentationMismatch {
                    op: "embed_gather",
                    dtype: table.dtype(),
                },
            );
        },
    };
    let c = embed_carrier_names();
    let padded: usize = match check_bytes(g, &form, bytes.len(), table_scales, table.shape(), &c) {
        Ok(v) => v,
        Err(e) => {
            return Err(e);
        },
    };
    let scales: &'a [u8] = match table_scales {
        Some(ws) => match ws.as_bytes() {
            Some(b) => b,
            None => slice_subrange(bytes, 0, 0),
        },
        None => if form.tiled && bytes.len() > padded {
            slice_subrange(bytes, padded, bytes.len())
        } else {
            slice_subrange(bytes, 0, 0)
        },
    };
    let weights = Weights {
        bytes,
        scales,
        separate: table_scales.is_some(),
        tiled: form.tiled,
        transposed: false,
        scheme,
        n: v,
        k: dm,
        block: form.block,
        shape: to_vec(table.shape()),
        names: WeightNames {
            op: "embed_gather",
            tensor: "table",
            scale_tensor: "table_scales",
            byte_text: "l1_i8_offset",
            half_text: "L1 offset overflow",
            row_shape: false,
        },
    };
    let ghost a = embed_args(*g, *op, token_ids@, table@, opt_view(table_scales));
    proof {
        assert(bytes@.skip(padded as int) =~= bytes@.subrange(padded as int, bytes@.len() as int));
        lemma_bytes_fit(
            *g,
            form,
            bytes@.len() as usize,
            opt_view(table_scales),
            table@.shape,
            embed_carrier(),
        );
        assert(weights@ =~= embed_matrix(*g, table@, opt_view(table_scales)));
        assert forall|i: int| 0 <= i < t implies #[trigger] a.ids.u32_at(i) < a.table.n by {
            lemma_tokens_ok(token_ids@, v, t as int, i);
        }
        assert(a.table.wf());
        assert(a.wf());
    }
    Ok(weights)
}

/// Gathers embeddings with an explicit scale operand.
///
/// Row `i` of `x` is the table row of token `i` times the factor. Every token
/// id is checked first. An error that a table element gives while the gather
/// runs leaves the elements before it written, in whole rows if the table is
/// tiled.
pub fn embed_gather_with_scales<
    F: Fn(FloatOp, u32, u32) -> u32,
    G: Fn(FormatQuery) -> Result<u64, FormatError>,
>(
    f: &F,
    g: &G,
    op: &EmbedGatherOp,
    token_ids: &TensorView<'_>,
    table: &TensorView<'_>,
    table_scales: Option<&TensorView<'_>>,
    x: &mut TensorViewMut<'_>,
) -> (r: Result<(), T0Error>)
    requires
        is_arith(*f),
        is_format(*g),
    ensures
        ({
            let a = embed_args(*g, *op, token_ids@, table@, opt_view(table_scales));
            match embed_fault(*g, *op, token_ids@, table@, opt_view(table_scales), old(x)@) {
                Some(e) => outcome(r) == Err::<(), ErrorView>(e) && final(x)@ == old(x)@,
                None => {
                    &&& outcome(r) == fault_result(a.first_error(*f, *g))
                    &&& final(x)@ == old(x)@.with_cells(
                        old(x)@.cells.with_f32s(a.values(*f, *g)),
                    )
                },
            }
        }),
        match (old(x).data, final(x).data) {
            (TensorDataMut::F32(a), TensorDataMut::F32(b)) => {
                a@.len() == b@.len() && (*final(a))@ == (*final(b))@
            },
            (TensorDataMut::F16(a), TensorDataMut::F16(b)) => {
                a@.len() == b@.len() && (*final(a))@ == (*final(b))@
            },
            (TensorDataMut::Bf16(a), TensorDataMut::Bf16(b)) => {
                a@.len() == b@.len() && (*final(a))@ == (*final(b))@
            },
            (TensorDataMut::I8(a), TensorDataMut::I8(b)) => {
                a@.len() == b@.len() && (*final(a))@ == (*final(b))@
            },
            (TensorDataMut::U32(a), TensorDataMut::U32(b)) => {
                a@.len() == b@.len() && (*final(a))@ == (*final(b))@
            },
            (TensorDataMut::Bytes(d, a), TensorDataMut::Bytes(e, b)) => {
                d == e && a@.len() == b@.len() && (*final(a))@ == (*final(b))@
            },
            _ => false,
        },
{
    let weights = match plan_embed(g, op, token_ids, table, table_scales, x) {
        Ok(w) => w,
        Err(e) => {
            return Err(e);
        },
    };
    let t: usize = token_ids.shape()[0];
    let ghost a = embed_args(*g, *op, token_ids@, table@, opt_view(table_scales));
    let (values, error) = gather_elements(f, g, token_ids, &weights, op.scale, t, Ghost(a));
    proof {
        lemma_required_le(x@, values@.len() as int);
    }
    x.write_all(values.as_slice());
    match error {
        None => Ok(()),
        Some(e) => Err(e),
    }
}

/// Gathers embeddings with the scales that travel with the table.
pub fn embed_gather<
    F: Fn(FloatOp, u32, u32) -> u32,
    G: Fn(FormatQuery) -> Result<u64, FormatError>,
>(
    f: &F,
    g: &G,
    op: &EmbedGatherOp,
    token_ids: &TensorView<'_>,
    table: &TensorView<'_>,
    x: &mut TensorViewMut<'_>,
) -> (r: Result<(), T0Error>)
    requires
        is_arith(*f),
        is_format(*g),
    ensures
        ({
            let scales = attached(table);
            let a = embed_args(*g, *op, token_ids@, table@, scales);
            match embed_fault(*g, *op, token_ids@, table@, scales, old(x)@) {
                Some(e) => outcome(r) == Err::<(), ErrorView>(e) && final(x)@ == old(x)@,
                None => {
                    &&& outcome(r) == fault_result(a.first_error(*f, *g))
                    &&& final(x)@ == old(x)@.with_cells(
                        old(x)@.cells.with_f32s(a.values(*f, *g)),
                    )
                },
            }
        }),
        match (old(x).data, final(x).data) {
            (TensorDataMut::F32(a), TensorDataMut::F32(b)) => {
                a@.len() == b@.len() && (*final(a))@ == (*final(b))@
            },
            (TensorDataMut::F16(a), TensorDataMut::F16(b)) => {
                a@.len() == b@.len() && (*final(a))@ == (*final(b))@
            },
            (TensorDataMut::Bf16(a), TensorDataMut::Bf16(b)) => {
                a@.len() == b@.len() && (*final(a))@ == (*final(b))@
            },
            (TensorDataMut::I8(a), TensorDataMut::I8(b)) => {
                a@.len() == b@.len() && (*final(a))@ == (*final(b))@
            },
            (TensorDataMut::U32(a), TensorDataMut::U32(b)) => {
                a@.len() == b@.len() && (*final(a))@ == (*final(b))@
            },
            (TensorDataMut::Bytes(d, a), TensorDataMut::Bytes(e, b)) => {
                d == e && a@.len() == b@.len() && (*final(a))@ == (*final(b))@
            },
            _ => false,
        },
{
    embed_gather_with_scales(f, g, op, token_ids, table, table.scale(), x)
}

} // verus!
