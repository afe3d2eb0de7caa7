//! Which operands gathers of embeddings and expert layers accept.
use vstd::prelude::*;
use crate::accept_laws::{is_floating, is_multiplicand, is_positive, is_weight, stores_rows};
use crate::buffer::Tensor;
use crate::embed_gather::{
    embed_dim_faults, embed_fault, embed_form_faults, embed_operand_fault, token_faults,
    EmbedGatherOp,
};
use crate::error::FormatError;
use crate::ir::{DType, LayoutId, QuantScheme, SchemeId};
use crate::moe_ffn::{
    id_faults, moe_dim_faults, moe_fault, moe_form_faults, moe_scale_form_faults, moe_size_fault,
    scale_value_faults, MoeFfnOp,
};
use crate::weight::FormatQuery;

verus! {

/// Tokens that are accepted lie in the vocabulary.
proof fn lemma_tokens(ids: Tensor, vocab: usize, n: int)
    requires
        token_faults(ids, vocab, n).len() == 0,
    ensures
        forall|i: int| 0 <= i < n ==> #[trigger] ids.u32_at(i) < vocab,
    decreases n,
{
    if n > 0 {
        lemma_tokens(ids, vocab, n - 1);
    }
}

/// Whether a table has a type and a scheme that can be decoded.
pub open spec fn is_table(d: DType, q: QuantScheme) -> bool {
    ||| d == DType::F16 && q == QuantScheme::Unquantized
    ||| d == DType::I8 && (q == QuantScheme::PerRow || q == QuantScheme::Scheme(SchemeId::I8R) || q
        == QuantScheme::Scheme(SchemeId::I8B128))
    ||| d == DType::I4 && q == QuantScheme::Scheme(SchemeId::I4K)
}

#[verifier::spinoff_prover]
#[verifier::rlimit(60)]
proof fn lemma_embed_forms(
    op: EmbedGatherOp,
    token_ids: Tensor,
    table: Tensor,
    scales: Option<Tensor>,
    x: Tensor,
)
    requires
        embed_form_faults(op, token_ids, table, scales, x).len() == 0,
    ensures
        token_ids.shape.len() == 1 && table.shape.len() == 2 && x.shape.len() == 2,
        stores_rows(token_ids.layout) && stores_rows(x.layout),
        stores_rows(table.layout) || table.layout == LayoutId::L1,
        token_ids.cells.dtype() == DType::U32,
        is_table(table.cells.dtype(), table.quant),
        is_floating(op.out_dtype) && x.cells.dtype() == op.out_dtype,
        is_positive(op.scale),
        scales matches Some(s) ==> {
            &&& table.cells.dtype() == DType::I8 && s.cells.dtype() == DType::F16
                || table.cells.dtype() == DType::I4 && s.cells.dtype() == DType::U32
            &&& stores_rows(s.layout) || s.layout == LayoutId::L1
        },
{
    reveal(embed_form_faults);
}

proof fn lemma_embed_extents(token_ids: Tensor, table: Tensor, x: Tensor)
    requires
        embed_dim_faults(token_ids, table, x).len() == 0,
        is_table(table.cells.dtype(), table.quant),
    ensures
        x.shape[0] == token_ids.shape[0] && x.shape[1] == table.shape[1],
        table.cells.dtype() == DType::I4 ==> table.shape[1] % 256 == 0,
        table.quant == QuantScheme::Scheme(SchemeId::I8B128) ==> table.shape[1] % 128 == 0,
        forall|i: int|
            0 <= i < token_ids.shape[0] ==> #[trigger] token_ids.u32_at(i) < table.shape[0],
{
    lemma_tokens(token_ids, table.shape[0], token_ids.shape[0] as int);
}

proof fn lemma_embed_operands(
    op: EmbedGatherOp,
    token_ids: Tensor,
    table: Tensor,
    scales: Option<Tensor>,
    x: Tensor,
)
    requires
        embed_operand_fault(op, token_ids, table, scales, x) is None,
    ensures
        embed_form_faults(op, token_ids, table, scales, x).len() == 0,
        embed_dim_faults(token_ids, table, x).len() == 0,
        token_ids.shape[0] > 0 && table.shape[0] > 0 && table.shape[1] > 0,
{
    reveal(embed_operand_fault);
}

/// A gather of embeddings that is done has a token of the vocabulary for each row
/// of its result, rows as wide as those of the table, and whole blocks of numbers.
/// The factor is finite and positive.
pub proof fn law_embed_accepts<G: Fn(FormatQuery) -> Result<u64, FormatError>>(
    g: G,
    op: EmbedGatherOp,
    token_ids: Tensor,
    table: Tensor,
    scales: Option<Tensor>,
    x: Tensor,
)
    requires
        embed_fault(g, op, token_ids, table, scales, x) is None,
    ensures
        token_ids.shape.len() == 1 && table.shape.len() == 2 && x.shape.len() == 2,
        token_ids.shape[0] > 0 && table.shape[0] > 0 && table.shape[1] > 0,
        x.shape[0] == token_ids.shape[0] && x.shape[1] == table.shape[1],
        stores_rows(token_ids.layout) && stores_rows(x.layout),
        stores_rows(table.layout) || table.layout == LayoutId::L1,
        token_ids.cells.dtype() == DType::U32,
        is_table(table.cells.dtype(), table.quant),
        table.cells is Bytes,
        is_floating(op.out_dtype) && x.cells.dtype() == op.out_dtype,
        is_positive(op.scale),
        table.cells.dtype() == DType::I4 ==> table.shape[1] % 256 == 0,
        table.quant == QuantScheme::Scheme(SchemeId::I8B128) ==> table.shape[1] % 128 == 0,
        scales matches Some(s) ==> {
            &&& table.cells.dtype() == DType::I8 && s.cells.dtype() == DType::F16
                || table.cells.dtype() == DType::I4 && s.cells.dtype() == DType::U32
            &&& stores_rows(s.layout) || s.layout == LayoutId::L1
        },
        forall|i: int|
            0 <= i < token_ids.shape[0] ==> #[trigger] token_ids.u32_at(i) < table.shape[0],
{
    lemma_embed_operands(op, token_ids, table, scales, x);
    lemma_embed_forms(op, token_ids, table, scales, x);
    lemma_embed_extents(token_ids, table, x);
}

/// Experts that are accepted exist.
proof fn lemma_ids(ids: Tensor, e: usize, n: int)
    requires
        id_faults(ids, e, n).len() == 0,
    ensures
        forall|i: int| 0 <= i < n ==> #[trigger] ids.u32_at(i) < e,
    decreases n,
{
    if n > 0 {
        lemma_ids(ids, e, n - 1);
    }
}

/// Scales that are accepted are finite and not negative.
proof fn lemma_scales(xs: Tensor, n: int)
    requires
        scale_value_faults(xs, n).len() == 0,
    ensures
        forall|i: int|
            0 <= i < n ==> #[trigger] xs.cells.f32_at(i) < 0x7F80_0000 || xs.cells.f32_at(i)
                == 0x8000_0000,
    decreases n,
{
    if n > 0 {
        lemma_scales(xs, n - 1);
    }
}

#[verifier::spinoff_prover]
#[verifier::rlimit(60)]
proof fn lemma_layer_forms(
    op: MoeFfnOp,
    x: Tensor,
    ids: Tensor,
    weights: Tensor,
    gate_up: Tensor,
    down: Tensor,
    down_scale: Option<Tensor>,
    x_scale: Option<Tensor>,
    y: Tensor,
)
    requires
        moe_form_faults(op, x, ids, weights, gate_up, down, down_scale, x_scale, y).len() == 0,
    ensures
        x.shape.len() == 2 && ids.shape.len() == 2 && weights.shape.len() == 2,
        gate_up.shape.len() == 3 && down.shape.len() == 3 && y.shape.len() == 2,
        stores_rows(x.layout) && stores_rows(ids.layout),
        stores_rows(weights.layout) && stores_rows(y.layout),
        stores_rows(gate_up.layout) || gate_up.layout == LayoutId::L1,
        stores_rows(down.layout) || down.layout == LayoutId::L1,
        x_scale matches Some(s) ==> stores_rows(s.layout),
        is_multiplicand(x.cells.dtype(), x.quant),
        ids.cells.dtype() == DType::U32,
        weights.cells.dtype() == DType::F32,
        is_floating(op.out_dtype) && y.cells.dtype() == op.out_dtype,
{
}

/// An expert layer that is computed has, for each token, experts that exist and as
/// many weights, a gate and an up projection as wide together as twice the down
/// projection, and a result like its input. Scales are finite and not negative.
#[verifier::spinoff_prover]
#[verifier::rlimit(60)]
pub proof fn law_layer_accepts<G: Fn(FormatQuery) -> Result<u64, FormatError>>(
    g: G,
    op: MoeFfnOp,
    x: Tensor,
    ids: Tensor,
    weights: Tensor,
    gate_up: Tensor,
    gate_up_scale: Option<Tensor>,
    down: Tensor,
    down_scale: Option<Tensor>,
    x_scale: Option<Tensor>,
    y: Tensor,
)
    requires
        moe_fault(
            g,
            op,
            x,
            ids,
            weights,
            gate_up,
            gate_up_scale,
            down,
            down_scale,
            x_scale,
            y,
        ) is None,
    ensures
        x.shape.len() == 2 && x.shape[0] > 0 && x.shape[1] > 0,
        ids.shape.len() == 2 && ids.shape[0] == x.shape[0] && ids.shape[1] > 0,
        weights.shape == ids.shape,
        gate_up.shape.len() == 3 && gate_up.shape[0] > 0 && gate_up.shape[2] == x.shape[1],
        down.shape.len() == 3 && down.shape[0] == gate_up.shape[0] && down.shape[1] == x.shape[1],
        down.shape[2] > 0 && gate_up.shape[1] == 2 * down.shape[2],
        y.shape == x.shape,
        op.shared_experts <= gate_up.shape[0],
        stores_rows(x.layout) && stores_rows(ids.layout),
        stores_rows(weights.layout) && stores_rows(y.layout),
        is_multiplicand(x.cells.dtype(), x.quant),
        ids.cells.dtype() == DType::U32,
        weights.cells.dtype() == DType::F32,
        is_floating(op.out_dtype) && y.cells.dtype() == op.out_dtype,
        is_weight(down.cells.dtype(), down.quant),
        gate_up.cells is Bytes,
        x_scale is Some <==> x.quant != QuantScheme::Unquantized,
        x_scale matches Some(s) ==> {
            &&& s.cells.dtype() == DType::F32
            &&& x.quant == QuantScheme::PerToken ==> s.shape.len() == 1 && s.shape[0] == x.shape[0]
            &&& x.quant == QuantScheme::PerBlock32 ==> x.shape[1] % 32 == 0 && s.shape.len() == 2
                && s.shape[0] == x.shape[0] && s.shape[1] == x.shape[1] / 32
            &&& forall|i: int|
                0 <= i < s.count() ==> #[trigger] s.cells.f32_at(i) < 0x7F80_0000 || s.cells.f32_at(
                    i,
                ) == 0x8000_0000
        },
        forall|i: int|
            0 <= i < x.shape[0] * ids.shape[1] ==> #[trigger] ids.u32_at(i) < gate_up.shape[0],
{
    reveal(moe_fault);
    reveal(moe_size_fault);
    lemma_layer_forms(op, x, ids, weights, gate_up, down, down_scale, x_scale, y);
    let t = x.shape[0];
    assert(moe_dim_faults(x, ids, weights, gate_up, down, y).len() == 0);
    assert(moe_scale_form_faults(x, x_scale, t, x.shape[1]).len() == 0);
    lemma_ids(ids, gate_up.shape[0], t * ids.shape[1]);
    if x_scale is Some {
        lemma_scales(x_scale->0, (x_scale->0).count());
    }
    assert(weights.shape =~= ids.shape);
    assert(y.shape =~= x.shape);
}

} // verus!
