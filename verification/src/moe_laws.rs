//! Independence of tokens in the feed-forward of experts.
use vstd::prelude::*;
use crate::activation::activated;
use crate::arith::{fp_add, fp_mul, FloatOp};
use crate::buffer::{Cells, Tensor};
use crate::call_laws::{fits_memory, opt_fits_memory};
use crate::check::is_float;
use crate::dtype::element_size;
use crate::error::FormatError;
use crate::exec_prepare::Operand;
use crate::gemm::GemmArgs;
use crate::block_laws::{is_block, law_cut_total};
use crate::gemm_laws::{
    law_layout_independent, law_row_independent, same_activation, same_codes, same_row,
};
use crate::index::{lemma_flat_bound, lemma_split, lemma_unflat};
use crate::ir::{DType, QuantScheme};
use crate::kernels::moe_output;
use crate::moe_ffn::{
    gathered_cells, lemma_moe_fits, lemma_tokens, moe_args, MoeArgs, MoeFfnOp,
};
use crate::storage_laws::law_write_all_bits;
use crate::weight::FormatQuery;

verus! {

/// Whether a layer's operands have their extents, and the joint projection is a
/// matrix of all experts' rows.
pub open spec fn is_layer(a: MoeArgs) -> bool {
    &&& a.wf()
    &&& a.width() <= u32::MAX
    &&& a.gate_up.shape == seq![a.width() as usize, a.dm as usize]
    &&& a.x.quant == QuantScheme::PerBlock32 ==> a.dm % 32 == 0
}

/// Whether a token of one layer has the activations, scales, experts and weights
/// of a token of another with the same projections.
pub open spec fn same_moe_token(a: MoeArgs, tok: int, b: MoeArgs, other: int) -> bool {
    &&& a.gate_up == b.gate_up
    &&& a.gate_up_scale == b.gate_up_scale
    &&& a.down == b.down
    &&& a.act == b.act
    &&& a.dm == b.dm
    &&& a.k == b.k
    &&& a.e == b.e
    &&& a.dff == b.dff
    &&& a.x.dtype() == b.x.dtype()
    &&& a.x.quant == b.x.quant
    &&& forall|at: int|
        0 <= at < a.dm ==> same_activation(a.x, #[trigger] (tok * a.dm + at), b.x, other * a.dm + at)
    &&& a.x.quant == QuantScheme::PerToken ==> a.xs->0.cells.f32_at(tok)
        == b.xs->0.cells.f32_at(other)
    &&& a.x.quant == QuantScheme::PerBlock32 ==> forall|block: int|
        0 <= block < a.dm / 32 ==> #[trigger] a.xs->0.cells.f32_at(tok * (a.dm / 32) + block)
            == b.xs->0.cells.f32_at(other * (a.dm / 32) + block)
    &&& forall|slot: int|
        0 <= slot < a.k ==> #[trigger] a.ids.u32_at(tok * a.k + slot) == b.ids.u32_at(
            other * a.k + slot,
        )
    &&& forall|slot: int|
        0 <= slot < a.k ==> #[trigger] a.weights.cells.f32_at(tok * a.k + slot)
            == b.weights.cells.f32_at(other * a.k + slot)
}

/// A routed token stands behind the tokens before it.
pub proof fn lemma_place(a: MoeArgs, expert: int, tok: int)
    requires
        0 <= tok < a.t <= u32::MAX,
        a.routed(tok, expert),
    ensures
        a.tokens(expert, tok).len() < a.tokens(expert, a.t).len(),
        a.tokens(expert, a.t)[a.tokens(expert, tok).len() as int] == tok,
        a.tokens(expert, a.t).len() <= a.t,
{
    lemma_tokens(a, expert, tok + 1, a.t);
    lemma_tokens(a, expert, a.t, a.t);
    let r = a.tokens(expert, tok).len() as int;
    assert(a.tokens(expert, tok + 1)[r] == tok);
}

/// Rows that were gathered hold the activations of their tokens.
pub proof fn lemma_gathered(x: Tensor, y: Tensor, toks: Seq<usize>, dm: int, r: int, at: int)
    requires
        y.cells == gathered_cells(x.cells, toks, dm),
        0 <= r < toks.len(),
        0 <= at < dm,
        x.dtype() == DType::I8 || x.dtype() == DType::E4m3 || x.dtype() == DType::F16 || x.dtype()
            == DType::Bf16,
    ensures
        y.dtype() == x.dtype(),
        same_activation(y, r * dm + at, x, toks[r] * dm + at),
{
    lemma_flat_bound(r, toks.len() as int, at, dm);
    lemma_split(r, at, dm);
    match x.cells {
        Cells::Bytes(dtype, s) => {
            let size = element_size(dtype);
            let stride = dm * size;
            let tok = toks[r] as int;
            if size == 1 {
                assert(stride == dm) by (nonlinear_arith)
                    requires
                        stride == dm * size,
                        size == 1,
                ;
            } else {
                assert(size == 2);
                assert(stride == 2 * dm) by (nonlinear_arith)
                    requires
                        stride == dm * size,
                        size == 2,
                ;
                lemma_flat_bound(r, toks.len() as int, 2 * at, stride);
                lemma_flat_bound(r, toks.len() as int, 2 * at + 1, stride);
                lemma_split(r, 2 * at, stride);
                lemma_split(r, 2 * at + 1, stride);
                assert((r * dm + at) * 2 == r * stride + 2 * at) by (nonlinear_arith)
                    requires
                        stride == 2 * dm,
                ;
                assert((tok * dm + at) * 2 == tok * stride + 2 * at) by (nonlinear_arith)
                    requires
                        stride == 2 * dm,
                ;
            }
        },
        _ => {},
    }
}

/// An expert's rows of the same token are the same.
proof fn lemma_same_row<G: Fn(FormatQuery) -> Result<u64, FormatError>>(
    g: G,
    a: MoeArgs,
    tok: int,
    b: MoeArgs,
    other: int,
    expert: int,
)
    requires
        is_layer(a),
        is_layer(b),
        same_moe_token(a, tok, b, other),
        0 <= tok < a.t,
        0 <= other < b.t,
        a.routed(tok, expert),
        b.routed(other, expert),
    ensures
        same_row(
            a.expert_gemm(g, expert),
            a.tokens(expert, tok).len() as int,
            b.expert_gemm(g, expert),
            b.tokens(expert, other).len() as int,
        ),
        a.expert_gemm(g, expert).w.k == a.dm,
        a.expert_gemm(g, expert).w.n == a.width(),
        a.expert_gemm(g, expert).m == a.tokens(expert, a.t).len(),
        a.expert_x(expert).dtype() == a.x.dtype(),
{
    lemma_place(a, expert, tok);
    lemma_place(b, expert, other);
    let ra = a.tokens(expert, tok).len() as int;
    let rb = b.tokens(expert, other).len() as int;
    let ta = a.tokens(expert, a.t);
    let tb = b.tokens(expert, b.t);
    let x = a.expert_gemm(g, expert);
    let y = b.expert_gemm(g, expert);
    let dm = a.dm;
    lemma_gathered(a.x, x.x, ta, dm, ra, 0);
    lemma_gathered(b.x, y.x, tb, dm, rb, 0);
    assert forall|at: int| 0 <= at < dm implies same_activation(
        x.x,
        #[trigger] (ra * dm + at),
        y.x,
        rb * dm + at,
    ) by {
        lemma_gathered(a.x, x.x, ta, dm, ra, at);
        lemma_gathered(b.x, y.x, tb, dm, rb, at);
        assert(same_activation(a.x, tok * dm + at, b.x, other * dm + at));
    }
    let blocks = dm / 32;
    if a.x.quant == QuantScheme::PerBlock32 {
        assert forall|block: int| 0 <= block < blocks implies #[trigger] x.x_scale(ra, block)
            == y.x_scale(rb, block) by {
            lemma_flat_bound(ra, ta.len() as int, block, blocks);
            lemma_flat_bound(rb, tb.len() as int, block, blocks);
            lemma_split(ra, block, blocks);
            lemma_split(rb, block, blocks);
            assert(a.xs->0.cells.f32_at(tok * (a.dm / 32) + block) == b.xs->0.cells.f32_at(
                other * (a.dm / 32) + block,
            ));
        }
    }
}

/// All elements of a product without an error have a value.
pub proof fn lemma_all_computed<
    F: Fn(FloatOp, u32, u32) -> u32,
    G: Fn(FormatQuery) -> Result<u64, FormatError>,
>(x: GemmArgs, f: F, g: G, n: int, i: int)
    requires
        0 <= i < n,
        x.computed(f, g, n) == n,
    ensures
        x.cell(f, g, i) is Ok,
    decreases n,
{
    lemma_computed_bound(x, f, g, n - 1);
    if i < n - 1 {
        lemma_all_computed(x, f, g, n - 1, i);
    }
}

pub proof fn lemma_computed_bound<
    F: Fn(FloatOp, u32, u32) -> u32,
    G: Fn(FormatQuery) -> Result<u64, FormatError>,
>(x: GemmArgs, f: F, g: G, n: int)
    requires
        0 <= n,
    ensures
        0 <= x.computed(f, g, n) <= n,
    decreases n,
{
    if n > 0 {
        lemma_computed_bound(x, f, g, n - 1);
    }
}

/// An element of the joint projection of a token's row.
proof fn lemma_projected<
    F: Fn(FloatOp, u32, u32) -> u32,
    G: Fn(FormatQuery) -> Result<u64, FormatError>,
>(f: F, g: G, a: MoeArgs, tok: int, b: MoeArgs, other: int, expert: int, col: int)
    requires
        is_layer(a),
        is_layer(b),
        same_moe_token(a, tok, b, other),
        0 <= tok < a.t,
        0 <= other < b.t,
        a.routed(tok, expert),
        b.routed(other, expert),
        a.projected(f, g, expert) is Ok,
        b.projected(f, g, expert) is Ok,
        0 <= col < a.width(),
    ensures
        a.projected(f, g, expert)->Ok_0[a.tokens(expert, tok).len() * a.width() + col]
            == b.projected(f, g, expert)->Ok_0[b.tokens(expert, other).len() * b.width() + col],
{
    lemma_same_row(g, a, tok, b, other, expert);
    lemma_same_row(g, b, other, b, other, expert);
    lemma_place(a, expert, tok);
    lemma_place(b, expert, other);
    let ra = a.tokens(expert, tok).len() as int;
    let rb = b.tokens(expert, other).len() as int;
    let x = a.expert_gemm(g, expert);
    let y = b.expert_gemm(g, expert);
    let w = a.width();
    assert(b.width() == w);
    lemma_flat_bound(ra, x.m, col, w);
    lemma_flat_bound(rb, y.m, col, w);
    lemma_split(ra, col, w);
    lemma_split(rb, col, w);
    lemma_computed_bound(x, f, g, x.size());
    lemma_computed_bound(y, f, g, y.size());
    lemma_all_computed(x, f, g, x.size(), ra * w + col);
    lemma_all_computed(y, f, g, y.size(), rb * w + col);
    law_row_independent(x, ra, y, rb, f, g, col);
}

/// A column of an expert's part of the joint projection is one of its columns.
pub proof fn lemma_column(a: MoeArgs, expert: int, j: int)
    requires
        0 <= expert < a.e,
        0 <= j < a.dff,
    ensures
        0 <= expert * 2 * a.dff + j,
        expert * 2 * a.dff + j + a.dff < a.width(),
{
    assert(0 <= expert * 2 * a.dff && expert * 2 * a.dff + 2 * a.dff <= a.e * a.dff * 2)
        by (nonlinear_arith)
        requires
            0 <= expert,
            expert + 1 <= a.e,
            0 <= a.dff,
    ;
}

/// A hidden element from the elements of the joint projection.
pub proof fn lemma_hidden_at<F: Fn(FloatOp, u32, u32) -> u32>(
    f: F,
    a: MoeArgs,
    h: Seq<u32>,
    expert: int,
    r: int,
    j: int,
)
    requires
        0 <= r < a.tokens(expert, a.t).len(),
        0 <= j < a.dff,
    ensures
        a.hidden(f, h, expert)[r * a.dff + j] == fp_mul(
            f,
            activated(f, h[r * a.width() + (expert * 2 * a.dff + j)], a.act),
            h[r * a.width() + (expert * 2 * a.dff + j + a.dff)],
        ),
{
    lemma_flat_bound(r, a.tokens(expert, a.t).len() as int, j, a.dff);
    lemma_split(r, j, a.dff);
    let at = r * a.width() + expert * 2 * a.dff + j;
    assert(r * a.width() + (expert * 2 * a.dff + j) == at);
    assert(r * a.width() + (expert * 2 * a.dff + j + a.dff) == at + a.dff);
    assert(a.hidden(f, h, expert)[r * a.dff + j] == a.hidden_at(f, h, expert, r * a.dff + j));
}

/// Hidden elements of the same token are the same.
proof fn lemma_hidden<
    F: Fn(FloatOp, u32, u32) -> u32,
    G: Fn(FormatQuery) -> Result<u64, FormatError>,
>(f: F, g: G, a: MoeArgs, tok: int, b: MoeArgs, other: int, expert: int, j: int)
    requires
        is_layer(a),
        is_layer(b),
        same_moe_token(a, tok, b, other),
        0 <= tok < a.t,
        0 <= other < b.t,
        0 <= expert < a.e,
        a.routed(tok, expert),
        b.routed(other, expert),
        a.projected(f, g, expert) is Ok,
        b.projected(f, g, expert) is Ok,
        0 <= j < a.dff,
    ensures
        a.hidden(f, a.projected(f, g, expert)->Ok_0, expert)[a.tokens(expert, tok).len() * a.dff
            + j] == b.hidden(f, b.projected(f, g, expert)->Ok_0, expert)[b.tokens(
            expert,
            other,
        ).len() * b.dff + j],
{
    lemma_place(a, expert, tok);
    lemma_place(b, expert, other);
    let ra = a.tokens(expert, tok).len() as int;
    let rb = b.tokens(expert, other).len() as int;
    let ha = a.projected(f, g, expert)->Ok_0;
    let hb = b.projected(f, g, expert)->Ok_0;
    lemma_hidden_at(f, a, ha, expert, ra, j);
    lemma_hidden_at(f, b, hb, expert, rb, j);
    lemma_column(a, expert, j);
    lemma_projected(f, g, a, tok, b, other, expert, expert * 2 * a.dff + j);
    lemma_projected(f, g, a, tok, b, other, expert, expert * 2 * a.dff + j + a.dff);
}

proof fn lemma_down_dot<
    F: Fn(FloatOp, u32, u32) -> u32,
    G: Fn(FormatQuery) -> Result<u64, FormatError>,
>(
    f: F,
    g: G,
    a: MoeArgs,
    ha: Seq<u32>,
    ra: int,
    b: MoeArgs,
    hb: Seq<u32>,
    rb: int,
    expert: int,
    d: int,
    n: int,
)
    requires
        a.down == b.down,
        a.dm == b.dm,
        a.dff == b.dff,
        n <= a.dff,
        forall|j: int| 0 <= j < a.dff ==> #[trigger] ha[ra * a.dff + j] == hb[rb * a.dff + j],
    ensures
        a.down_dot(f, g, ha, expert, ra, d, n) == b.down_dot(f, g, hb, expert, rb, d, n),
    decreases n,
{
    if n > 0 {
        lemma_down_dot(f, g, a, ha, ra, b, hb, rb, expert, d, n - 1);
        assert(ha[ra * a.dff + (n - 1)] == hb[rb * a.dff + (n - 1)]);
    }
}

pub proof fn lemma_down_rows<
    F: Fn(FloatOp, u32, u32) -> u32,
    G: Fn(FormatQuery) -> Result<u64, FormatError>,
>(f: F, g: G, a: MoeArgs, hid: Seq<u32>, expert: int, n: int, i: int)
    requires
        0 <= i < n,
        a.down_rows(f, g, hid, expert, n) is Ok,
    ensures
        a.down_rows(f, g, hid, expert, n)->Ok_0.len() == n,
        a.down_dot(f, g, hid, expert, i / a.dm, i % a.dm, a.dff) is Ok,
        a.down_rows(f, g, hid, expert, n)->Ok_0[i] == a.down_dot(
            f,
            g,
            hid,
            expert,
            i / a.dm,
            i % a.dm,
            a.dff,
        )->Ok_0,
    decreases n,
{
    if n > 1 {
        if i < n - 1 {
            lemma_down_rows(f, g, a, hid, expert, n - 1, i);
        } else {
            lemma_down_rows(f, g, a, hid, expert, n - 1, 0);
        }
    } else {
        assert(a.down_rows(f, g, hid, expert, 0)->Ok_0.len() == 0);
    }
}

/// An expert's answers for the same token are the same.
proof fn lemma_expert_out<
    F: Fn(FloatOp, u32, u32) -> u32,
    G: Fn(FormatQuery) -> Result<u64, FormatError>,
>(f: F, g: G, a: MoeArgs, tok: int, b: MoeArgs, other: int, expert: int, d: int)
    requires
        is_layer(a),
        is_layer(b),
        same_moe_token(a, tok, b, other),
        0 <= tok < a.t,
        0 <= other < b.t,
        0 <= expert < a.e,
        a.routed(tok, expert),
        b.routed(other, expert),
        a.expert_out(f, g, expert) is Ok,
        b.expert_out(f, g, expert) is Ok,
        0 <= d < a.dm,
    ensures
        a.expert_out(f, g, expert)->Ok_0[a.tokens(expert, tok).len() * a.dm + d] == b.expert_out(
            f,
            g,
            expert,
        )->Ok_0[b.tokens(expert, other).len() * b.dm + d],
{
    reveal(MoeArgs::expert_out);
    lemma_place(a, expert, tok);
    lemma_place(b, expert, other);
    let ra = a.tokens(expert, tok).len() as int;
    let rb = b.tokens(expert, other).len() as int;
    let la = a.tokens(expert, a.t).len() as int;
    let lb = b.tokens(expert, b.t).len() as int;
    let ha = a.hidden(f, a.projected(f, g, expert)->Ok_0, expert);
    let hb = b.hidden(f, b.projected(f, g, expert)->Ok_0, expert);
    assert forall|j: int| 0 <= j < a.dff implies #[trigger] ha[ra * a.dff + j] == hb[rb * a.dff
        + j] by {
        lemma_hidden(f, g, a, tok, b, other, expert, j);
    }
    lemma_down_dot(f, g, a, ha, ra, b, hb, rb, expert, d, a.dff);
    lemma_flat_bound(ra, la, d, a.dm);
    lemma_flat_bound(rb, lb, d, b.dm);
    lemma_split(ra, d, a.dm);
    lemma_split(rb, d, b.dm);
    lemma_down_rows(f, g, a, ha, expert, la * a.dm, ra * a.dm + d);
    lemma_down_rows(f, g, b, hb, expert, lb * b.dm, rb * b.dm + d);
}

/// An output after an expert's answer was added along the first routes of a
/// token.
pub open spec fn along<F: Fn(FloatOp, u32, u32) -> u32>(
    f: F,
    a: MoeArgs,
    tok: int,
    expert: int,
    y: u32,
    v: u32,
    n: int,
) -> u32
    decreases n,
{
    if n <= 0 {
        y
    } else {
        let before = along(f, a, tok, expert, y, v, n - 1);
        let i = tok * a.k + n - 1;
        if a.ids.u32_at(i) == expert {
            fp_add(f, before, fp_mul(f, a.weights.cells.f32_at(i), v))
        } else {
            before
        }
    }
}

spec fn clipped(n: int, k: int) -> int {
    if n < 0 {
        0
    } else if n > k {
        k
    } else {
        n
    }
}

proof fn lemma_combined<F: Fn(FloatOp, u32, u32) -> u32>(
    f: F,
    a: MoeArgs,
    tok: int,
    expert: int,
    out: Seq<u32>,
    y: Seq<u32>,
    d: int,
    n: int,
)
    requires
        0 <= tok < a.t,
        0 <= d < a.dm,
        0 < a.k,
        0 <= n,
    ensures
        a.combined(f, expert, out, y, n)[tok * a.dm + d] == along(
            f,
            a,
            tok,
            expert,
            y[tok * a.dm + d],
            out[a.tokens(expert, tok).len() * a.dm + d],
            clipped(n - tok * a.k, a.k),
        ),
    decreases n,
{
    if n > 0 {
        lemma_combined(f, a, tok, expert, out, y, d, n - 1);
        lemma_flat_bound(tok, a.t, d, a.dm);
        lemma_split(tok, d, a.dm);
        let slot = n - 1 - tok * a.k;
        if 0 <= slot < a.k {
            lemma_split(tok, slot, a.k);
            assert((n - 1) / a.k == tok);
            assert(clipped(n - tok * a.k, a.k) == slot + 1);
            assert(clipped(n - 1 - tok * a.k, a.k) == slot);
            assert(tok * a.k + (slot + 1) - 1 == n - 1);
        } else {
            assert((n - 1) / a.k != tok) by {
                vstd::arithmetic::div_mod::lemma_fundamental_div_mod(n - 1, a.k);
                assert(a.k * ((n - 1) / a.k) == ((n - 1) / a.k) * a.k) by (nonlinear_arith);
            }
        }
    } else {
        vstd::arithmetic::mul::lemma_mul_nonnegative(tok, a.k);
    }
}

proof fn lemma_same_along<F: Fn(FloatOp, u32, u32) -> u32>(
    f: F,
    a: MoeArgs,
    tok: int,
    b: MoeArgs,
    other: int,
    expert: int,
    y: u32,
    v: u32,
    w: u32,
    n: int,
)
    requires
        same_moe_token(a, tok, b, other),
        n <= a.k,
        a.routed(tok, expert) ==> v == w,
    ensures
        along(f, a, tok, expert, y, v, n) == along(f, b, other, expert, y, w, n),
        !a.routed(tok, expert) ==> along(f, a, tok, expert, y, v, n) == y,
    decreases n,
{
    if n > 0 {
        lemma_same_along(f, a, tok, b, other, expert, y, v, w, n - 1);
        let slot = n - 1;
        assert(a.ids.u32_at(tok * a.k + slot) == b.ids.u32_at(other * a.k + slot));
        assert(a.weights.cells.f32_at(tok * a.k + slot) == b.weights.cells.f32_at(
            other * a.k + slot,
        ));
        if a.ids.u32_at(tok * a.k + slot) == expert {
            assert(a.routed(tok, expert));
        }
    }
}

proof fn lemma_same_routes(a: MoeArgs, tok: int, b: MoeArgs, other: int, expert: int)
    requires
        same_moe_token(a, tok, b, other),
    ensures
        a.routed(tok, expert) == b.routed(other, expert),
{
    if a.routed(tok, expert) {
        let slot = choose|slot: int|
            0 <= slot < a.k && #[trigger] a.ids.u32_at(tok * a.k + slot) == expert;
        assert(b.ids.u32_at(other * b.k + slot) == expert);
    }
    if b.routed(other, expert) {
        let slot = choose|slot: int|
            0 <= slot < b.k && #[trigger] b.ids.u32_at(other * b.k + slot) == expert;
        assert(a.ids.u32_at(tok * a.k + slot) == b.ids.u32_at(other * a.k + slot));
    }
}

/// An output of one token after one more expert.
pub proof fn lemma_next<
    F: Fn(FloatOp, u32, u32) -> u32,
    G: Fn(FormatQuery) -> Result<u64, FormatError>,
>(f: F, g: G, a: MoeArgs, tok: int, d: int, n: int)
    requires
        a.wf(),
        0 <= tok < a.t,
        0 <= d < a.dm,
        n > 0,
        a.outputs(f, g, n) is Ok,
    ensures
        a.outputs(f, g, n - 1) is Ok,
        a.routed(tok, n - 1) ==> a.expert_out(f, g, n - 1) is Ok,
        a.outputs(f, g, n)->Ok_0[tok * a.dm + d] == along(
            f,
            a,
            tok,
            n - 1,
            a.outputs(f, g, n - 1)->Ok_0[tok * a.dm + d],
            a.expert_out(f, g, n - 1)->Ok_0[a.tokens(n - 1, tok).len() * a.dm + d],
            a.k,
        ) || !a.routed(tok, n - 1) && a.outputs(f, g, n)->Ok_0[tok * a.dm + d] == a.outputs(
            f,
            g,
            n - 1,
        )->Ok_0[tok * a.dm + d],
{
    let y = a.outputs(f, g, n - 1)->Ok_0;
    if a.tokens(n - 1, a.t).len() == 0 {
        if a.routed(tok, n - 1) {
            lemma_place(a, n - 1, tok);
        }
    } else {
        let out = a.expert_out(f, g, n - 1)->Ok_0;
        lemma_flat_bound(tok, a.t, 0, a.k);
        vstd::arithmetic::mul::lemma_mul_nonnegative(a.t, a.k);
        lemma_combined(f, a, tok, n - 1, out, y, d, a.t * a.k);
    }
}

proof fn lemma_same_outputs<
    F: Fn(FloatOp, u32, u32) -> u32,
    G: Fn(FormatQuery) -> Result<u64, FormatError>,
>(f: F, g: G, a: MoeArgs, tok: int, b: MoeArgs, other: int, d: int, n: int)
    requires
        is_layer(a),
        is_layer(b),
        same_moe_token(a, tok, b, other),
        0 <= tok < a.t,
        0 <= other < b.t,
        0 <= d < a.dm,
        0 <= n <= a.e,
        a.outputs(f, g, n) is Ok,
        b.outputs(f, g, n) is Ok,
    ensures
        a.outputs(f, g, n)->Ok_0[tok * a.dm + d] == b.outputs(f, g, n)->Ok_0[other * b.dm + d],
    decreases n,
{
    if n <= 0 {
        lemma_flat_bound(tok, a.t, d, a.dm);
        lemma_flat_bound(other, b.t, d, b.dm);
    } else {
        let expert = n - 1;
        lemma_next(f, g, a, tok, d, n);
        lemma_next(f, g, b, other, d, n);
        lemma_same_outputs(f, g, a, tok, b, other, d, n - 1);
        lemma_same_routes(a, tok, b, other, expert);
        let y = a.outputs(f, g, n - 1)->Ok_0[tok * a.dm + d];
        let v = a.expert_out(f, g, expert)->Ok_0[a.tokens(expert, tok).len() * a.dm + d];
        let w = b.expert_out(f, g, expert)->Ok_0[b.tokens(expert, other).len() * b.dm + d];
        if a.routed(tok, expert) {
            lemma_expert_out(f, g, a, tok, b, other, expert, d);
        }
        lemma_same_along(f, a, tok, b, other, expert, y, v, w, a.k);
    }
}

/// The output of a token depends on its own activations, experts and weights and
/// on the projections, not on the batch around it: wherever the same token stands
/// in another batch, its output has the same bits.
pub proof fn law_moe_row_independent<
    F: Fn(FloatOp, u32, u32) -> u32,
    G: Fn(FormatQuery) -> Result<u64, FormatError>,
>(f: F, g: G, a: MoeArgs, tok: int, b: MoeArgs, other: int, d: int)
    requires
        is_layer(a),
        is_layer(b),
        same_moe_token(a, tok, b, other),
        0 <= tok < a.t,
        0 <= other < b.t,
        0 <= d < a.dm,
        a.outputs(f, g, a.e) is Ok,
        b.outputs(f, g, b.e) is Ok,
    ensures
        a.outputs(f, g, a.e)->Ok_0[tok * a.dm + d] == b.outputs(f, g, b.e)->Ok_0[other * b.dm + d],
{
    lemma_same_outputs(f, g, a, tok, b, other, d, a.e);
}

/// The joint product of all experts, cut to the columns of one, is the product
/// with that expert's own rows, bit for bit.
pub proof fn law_expert_cut<
    F: Fn(FloatOp, u32, u32) -> u32,
    G: Fn(FormatQuery) -> Result<u64, FormatError>,
>(f: F, g: G, a: MoeArgs, expert: int, part: GemmArgs, row: int, col: int)
    requires
        is_layer(a),
        0 <= expert < a.e,
        a.projected(f, g, expert) is Ok,
        part == (GemmArgs { w: part.w, ..a.expert_gemm(g, expert) }),
        part.w.wf(),
        part.w.n == 2 * a.dff,
        is_block(g, part.w, a.expert_gemm(g, expert).w, expert * 2 * a.dff),
        part.first_error(f, g) is None,
        0 <= row < a.tokens(expert, a.t).len(),
        0 <= col < 2 * a.dff,
    ensures
        a.projected(f, g, expert)->Ok_0[row * a.width() + (expert * 2 * a.dff + col)]
            == part.values(f, g)[row * (2 * a.dff) + col],
{
    let whole = a.expert_gemm(g, expert);
    let first = expert * 2 * a.dff;
    let n = 2 * a.dff;
    let w = a.width();
    lemma_expert_extent(g, a, expert);
    assert(0 <= first && first + n <= w) by (nonlinear_arith)
        requires
            first == expert * 2 * a.dff,
            n == 2 * a.dff,
            w == a.e * a.dff * 2,
            0 <= expert,
            expert + 1 <= a.e,
            0 <= a.dff,
    ;
    lemma_flat_bound(row, whole.m, first + col, w);
    lemma_flat_bound(row, part.m, col, n);
    lemma_split(row, first + col, w);
    lemma_split(row, col, n);
    lemma_computed_bound(whole, f, g, whole.size());
    lemma_computed_bound(part, f, g, part.size());
    lemma_all_computed(whole, f, g, whole.size(), row * w + (first + col));
    lemma_all_computed(part, f, g, part.size(), row * n + col);
    law_cut_total(f, g, part, whole, first, row, col);
}

/// Extents of an expert's product.
proof fn lemma_expert_extent<G: Fn(FormatQuery) -> Result<u64, FormatError>>(
    g: G,
    a: MoeArgs,
    expert: int,
)
    requires
        is_layer(a),
    ensures
        a.expert_gemm(g, expert).w.k == a.dm,
        a.expert_gemm(g, expert).w.n == a.width(),
        a.expert_gemm(g, expert).m == a.tokens(expert, a.t).len(),
{
    lemma_tokens(a, expert, a.t, a.t);
}

/// The projection back is the product of decoded numbers: a product of the same
/// hidden rows, held in a floating-point type, with weights that hold the same
/// codes and records has the same sums, bit for bit.
pub proof fn law_down_is_product<
    F: Fn(FloatOp, u32, u32) -> u32,
    G: Fn(FormatQuery) -> Result<u64, FormatError>,
>(
    f: F,
    g: G,
    a: MoeArgs,
    hidden: Seq<u32>,
    expert: int,
    r: int,
    d: int,
    p: GemmArgs,
)
    requires
        a.wf(),
        0 <= expert < a.e,
        0 <= d < a.dm,
        same_codes(g, a.down, p.w),
        p.x.dtype() == DType::F16 || p.x.dtype() == DType::Bf16,
        p.x.quant == QuantScheme::Unquantized,
        forall|i: int|
            0 <= i < a.dff ==> #[trigger] p.x.cells.f32_at(r * a.dff + i) == hidden[r * a.dff + i],
    ensures
        a.down_dot(f, g, hidden, expert, r, d, a.dff) == p.total(f, g, r, expert * a.dm + d),
{
    lemma_down_is_dot(f, g, a, hidden, expert, r, d, p, a.dff);
}

proof fn lemma_down_is_dot<
    F: Fn(FloatOp, u32, u32) -> u32,
    G: Fn(FormatQuery) -> Result<u64, FormatError>,
>(
    f: F,
    g: G,
    a: MoeArgs,
    hidden: Seq<u32>,
    expert: int,
    r: int,
    d: int,
    p: GemmArgs,
    n: int,
)
    requires
        a.wf(),
        0 <= expert < a.e,
        0 <= d < a.dm,
        same_codes(g, a.down, p.w),
        p.x.dtype() == DType::F16 || p.x.dtype() == DType::Bf16,
        n <= a.dff,
        forall|i: int|
            0 <= i < a.dff ==> #[trigger] p.x.cells.f32_at(r * a.dff + i) == hidden[r * a.dff + i],
    ensures
        a.down_dot(f, g, hidden, expert, r, d, n) == p.real_dot(f, g, r, expert * a.dm + d, n),
    decreases n,
{
    if n > 0 {
        lemma_down_is_dot(f, g, a, hidden, expert, r, d, p, n - 1);
        lemma_flat_bound(expert, a.e, d, a.dm);
        law_layout_independent(a.down, p.w, f, g, expert * a.dm + d, n - 1);
        assert(p.x.cells.f32_at(r * a.dff + (n - 1)) == hidden[r * a.dff + (n - 1)]);
    }
}

/// Whether the routes of every token of one layer are those of another in some
/// order, each with its weight, and the experts of a token are distinct.
pub open spec fn slots_permuted(a: MoeArgs, b: MoeArgs) -> bool {
    &&& b == (MoeArgs { ids: b.ids, weights: b.weights, ..a })
    &&& forall|tok: int| 0 <= tok < a.t ==> distinct_experts(a, tok) && distinct_experts(b, tok)
    &&& forall|tok: int, slot: int|
        0 <= tok < a.t && 0 <= slot < a.k ==> #[trigger] has_route(
            b,
            tok,
            a.ids.u32_at(tok * a.k + slot),
            a.weights.cells.f32_at(tok * a.k + slot),
        )
    &&& forall|tok: int, slot: int|
        0 <= tok < a.t && 0 <= slot < a.k ==> #[trigger] has_route(
            a,
            tok,
            b.ids.u32_at(tok * a.k + slot),
            b.weights.cells.f32_at(tok * a.k + slot),
        )
}

/// Whether a token has a route to an expert with a weight.
pub open spec fn has_route(a: MoeArgs, tok: int, expert: u32, weight: u32) -> bool {
    exists|slot: int|
        0 <= slot < a.k && #[trigger] a.ids.u32_at(tok * a.k + slot) == expert
            && a.weights.cells.f32_at(tok * a.k + slot) == weight
}

/// Whether a token's routes lead to different experts.
pub open spec fn distinct_experts(a: MoeArgs, tok: int) -> bool {
    forall|i: int, j: int|
        0 <= i < j < a.k ==> #[trigger] a.ids.u32_at(tok * a.k + i) != #[trigger] a.ids.u32_at(
            tok * a.k + j,
        )
}

/// Along routes to different experts, an expert's answer is added once.
proof fn lemma_along_once<F: Fn(FloatOp, u32, u32) -> u32>(
    f: F,
    a: MoeArgs,
    tok: int,
    expert: int,
    y: u32,
    v: u32,
    slot: int,
    n: int,
)
    requires
        distinct_experts(a, tok),
        0 <= slot < a.k,
        a.ids.u32_at(tok * a.k + slot) == expert,
        n <= a.k,
    ensures
        along(f, a, tok, expert, y, v, n) == if n <= slot {
            y
        } else {
            fp_add(f, y, fp_mul(f, a.weights.cells.f32_at(tok * a.k + slot), v))
        },
    decreases n,
{
    if n > 0 {
        lemma_along_once(f, a, tok, expert, y, v, slot, n - 1);
        let i = n - 1;
        assert(tok * a.k + n - 1 == tok * a.k + i);
        if i < slot {
            assert(a.ids.u32_at(tok * a.k + i) != a.ids.u32_at(tok * a.k + slot));
        } else if i > slot {
            assert(a.ids.u32_at(tok * a.k + slot) != a.ids.u32_at(tok * a.k + i));
        }
    }
}

/// Without a route to an expert, nothing of it is added.
proof fn lemma_along_none<F: Fn(FloatOp, u32, u32) -> u32>(
    f: F,
    a: MoeArgs,
    tok: int,
    expert: int,
    y: u32,
    v: u32,
    n: int,
)
    requires
        !a.routed(tok, expert),
        n <= a.k,
    ensures
        along(f, a, tok, expert, y, v, n) == y,
    decreases n,
{
    if n > 0 {
        lemma_along_none(f, a, tok, expert, y, v, n - 1);
        let slot = n - 1;
        assert(a.ids.u32_at(tok * a.k + slot) != expert);
    }
}

proof fn lemma_permuted_route(a: MoeArgs, b: MoeArgs, tok: int, slot: int) -> (other: int)
    requires
        slots_permuted(a, b),
        0 <= tok < a.t,
        0 <= slot < a.k,
    ensures
        0 <= other < a.k,
        b.ids.u32_at(tok * a.k + other) == a.ids.u32_at(tok * a.k + slot),
        b.weights.cells.f32_at(tok * a.k + other) == a.weights.cells.f32_at(tok * a.k + slot),
{
    let expert = a.ids.u32_at(tok * a.k + slot);
    let weight = a.weights.cells.f32_at(tok * a.k + slot);
    assert(has_route(b, tok, expert, weight));
    choose|other: int|
        0 <= other < b.k && #[trigger] b.ids.u32_at(tok * b.k + other) == expert
            && b.weights.cells.f32_at(tok * b.k + other) == weight
}

proof fn lemma_permuted_back(a: MoeArgs, b: MoeArgs)
    requires
        slots_permuted(a, b),
    ensures
        slots_permuted(b, a),
{
    assert(a == (MoeArgs { ids: a.ids, weights: a.weights, ..b }));
}

proof fn lemma_permuted_routed(a: MoeArgs, b: MoeArgs, tok: int, expert: int)
    requires
        slots_permuted(a, b),
        0 <= tok < a.t,
        a.routed(tok, expert),
    ensures
        b.routed(tok, expert),
{
    let slot = choose|slot: int|
        0 <= slot < a.k && #[trigger] a.ids.u32_at(tok * a.k + slot) == expert;
    let other = lemma_permuted_route(a, b, tok, slot);
    assert(b.ids.u32_at(tok * b.k + other) == expert);
}

proof fn lemma_permuted_along<F: Fn(FloatOp, u32, u32) -> u32>(
    f: F,
    a: MoeArgs,
    b: MoeArgs,
    tok: int,
    expert: int,
    y: u32,
    v: u32,
)
    requires
        slots_permuted(a, b),
        0 <= tok < a.t,
    ensures
        along(f, a, tok, expert, y, v, a.k) == along(f, b, tok, expert, y, v, a.k),
{
    assert(distinct_experts(a, tok) && distinct_experts(b, tok));
    if a.routed(tok, expert) {
        let slot = choose|slot: int|
            0 <= slot < a.k && #[trigger] a.ids.u32_at(tok * a.k + slot) == expert;
        let other = lemma_permuted_route(a, b, tok, slot);
        lemma_along_once(f, a, tok, expert, y, v, slot, a.k);
        lemma_along_once(f, b, tok, expert, y, v, other, b.k);
    } else {
        if b.routed(tok, expert) {
            lemma_permuted_back(a, b);
            lemma_permuted_routed(b, a, tok, expert);
        }
        lemma_along_none(f, a, tok, expert, y, v, a.k);
        lemma_along_none(f, b, tok, expert, y, v, b.k);
    }
}

proof fn lemma_permuted_tokens(a: MoeArgs, b: MoeArgs, expert: int, n: int)
    requires
        slots_permuted(a, b),
        n <= a.t,
    ensures
        a.tokens(expert, n) == b.tokens(expert, n),
    decreases n,
{
    if n > 0 {
        lemma_permuted_tokens(a, b, expert, n - 1);
        lemma_permuted_back(a, b);
        if a.routed(n - 1, expert) {
            lemma_permuted_routed(a, b, n - 1, expert);
        }
        if b.routed(n - 1, expert) {
            lemma_permuted_routed(b, a, n - 1, expert);
        }
    }
}

proof fn lemma_permuted_down<
    F: Fn(FloatOp, u32, u32) -> u32,
    G: Fn(FormatQuery) -> Result<u64, FormatError>,
>(f: F, g: G, a: MoeArgs, b: MoeArgs, hid: Seq<u32>, expert: int, n: int)
    requires
        slots_permuted(a, b),
    ensures
        a.down_rows(f, g, hid, expert, n) == b.down_rows(f, g, hid, expert, n),
    decreases n,
{
    if n > 0 {
        lemma_permuted_down(f, g, a, b, hid, expert, n - 1);
        let r = (n - 1) / a.dm;
        lemma_down_dot(f, g, a, hid, r, b, hid, r, expert, (n - 1) % a.dm, a.dff);
    }
}

proof fn lemma_permuted_out<
    F: Fn(FloatOp, u32, u32) -> u32,
    G: Fn(FormatQuery) -> Result<u64, FormatError>,
>(f: F, g: G, a: MoeArgs, b: MoeArgs, expert: int)
    requires
        slots_permuted(a, b),
    ensures
        a.expert_out(f, g, expert) == b.expert_out(f, g, expert),
{
    reveal(MoeArgs::expert_out);
    lemma_permuted_tokens(a, b, expert, a.t);
    assert(a.expert_x(expert) == b.expert_x(expert));
    assert(a.expert_xs(expert) == b.expert_xs(expert));
    assert(a.expert_target(expert) == b.expert_target(expert));
    assert(a.expert_gemm(g, expert) == b.expert_gemm(g, expert));
    assert(a.projected(f, g, expert) == b.projected(f, g, expert));
    if a.projected(f, g, expert) is Ok {
        let h = a.projected(f, g, expert)->Ok_0;
        assert(a.hidden(f, h, expert) =~= b.hidden(f, h, expert));
        lemma_permuted_down(
            f,
            g,
            a,
            b,
            a.hidden(f, h, expert),
            expert,
            a.tokens(expert, a.t).len() * a.dm,
        );
    }
}

/// Adding answers keeps the number of outputs.
proof fn lemma_combined_len<F: Fn(FloatOp, u32, u32) -> u32>(
    f: F,
    a: MoeArgs,
    expert: int,
    out: Seq<u32>,
    y: Seq<u32>,
    n: int,
)
    requires
        y.len() == a.t * a.dm,
    ensures
        a.combined(f, expert, out, y, n).len() == a.t * a.dm,
    decreases n,
{
    if n > 0 {
        lemma_combined_len(f, a, expert, out, y, n - 1);
    }
}

proof fn lemma_permuted_combined<F: Fn(FloatOp, u32, u32) -> u32>(
    f: F,
    a: MoeArgs,
    b: MoeArgs,
    expert: int,
    out: Seq<u32>,
    y: Seq<u32>,
)
    requires
        a.wf(),
        slots_permuted(a, b),
        y.len() == a.t * a.dm,
    ensures
        a.combined(f, expert, out, y, a.t * a.k) == b.combined(f, expert, out, y, a.t * a.k),
{
    let n = a.t * a.k;
    vstd::arithmetic::mul::lemma_mul_nonnegative(a.t, a.k);
    let left = a.combined(f, expert, out, y, n);
    let right = b.combined(f, expert, out, y, n);
    lemma_combined_len(f, a, expert, out, y, n);
    lemma_combined_len(f, b, expert, out, y, n);
    assert forall|i: int| 0 <= i < left.len() implies left[i] == right[i] by {
        lemma_unflat(i, a.t, a.dm);
        let tok = i / a.dm;
        let d = i % a.dm;
        lemma_flat_bound(tok, a.t, 0, a.k);
        lemma_combined(f, a, tok, expert, out, y, d, n);
        lemma_combined(f, b, tok, expert, out, y, d, n);
        lemma_permuted_tokens(a, b, expert, tok);
        lemma_permuted_along(
            f,
            a,
            b,
            tok,
            expert,
            y[i],
            out[a.tokens(expert, tok).len() * a.dm + d],
        );
    }
    assert(left =~= right);
}

/// The order of a token's routes does not matter: layers whose tokens have the
/// same routes in another order, each with its weight and to different experts,
/// have the same outputs, bit for bit.
pub proof fn law_slot_order<
    F: Fn(FloatOp, u32, u32) -> u32,
    G: Fn(FormatQuery) -> Result<u64, FormatError>,
>(f: F, g: G, a: MoeArgs, b: MoeArgs, n: int)
    requires
        a.wf(),
        slots_permuted(a, b),
        0 <= n <= a.e,
    ensures
        a.outputs(f, g, n) == b.outputs(f, g, n),
        a.outputs(f, g, n) matches Ok(y) ==> y.len() == a.t * a.dm,
    decreases n,
{
    vstd::arithmetic::mul::lemma_mul_nonnegative(a.t, a.dm);
    if n > 0 {
        law_slot_order(f, g, a, b, n - 1);
        lemma_permuted_tokens(a, b, n - 1, a.t);
        lemma_permuted_out(f, g, a, b, n - 1);
        if a.outputs(f, g, n - 1) is Ok && a.expert_out(f, g, n - 1) is Ok {
            let y = a.outputs(f, g, n - 1)->Ok_0;
            let out = a.expert_out(f, g, n - 1)->Ok_0;
            lemma_permuted_combined(f, a, b, n - 1, out, y);
            lemma_combined_len(f, a, n - 1, out, y, a.t * a.k);
        }
    }
}

/// Whether the storages of a call's operands are such that a machine can hold.
pub open spec fn moe_fits_memory(
    x: Operand,
    ids: Tensor,
    weights: Tensor,
    gate_up: Operand,
    down: Operand,
    y: Tensor,
) -> bool {
    &&& fits_memory(x.tensor) && opt_fits_memory(x.scale)
    &&& fits_memory(ids) && fits_memory(weights)
    &&& fits_memory(gate_up.tensor) && opt_fits_memory(gate_up.scale)
    &&& fits_memory(down.tensor) && opt_fits_memory(down.scale)
    &&& fits_memory(y)
}

/// Operands of a call.
pub open spec fn call_args<G: Fn(FormatQuery) -> Result<u64, FormatError>>(
    g: G,
    op: MoeFfnOp,
    x: Operand,
    ids: Tensor,
    weights: Tensor,
    gate_up: Operand,
    down: Operand,
) -> MoeArgs {
    moe_args(
        g,
        op,
        x.tensor,
        ids,
        weights,
        gate_up.tensor,
        gate_up.scale,
        down.tensor,
        down.scale,
        x.scale,
    )
}

/// What a call that succeeds says of its operands.
pub proof fn lemma_call_sound<
    F: Fn(FloatOp, u32, u32) -> u32,
    G: Fn(FormatQuery) -> Result<u64, FormatError>,
>(
    f: F,
    g: G,
    op: MoeFfnOp,
    x: Operand,
    ids: Tensor,
    weights: Tensor,
    gate_up: Operand,
    down: Operand,
    y: Tensor,
)
    requires
        moe_fits_memory(x, ids, weights, gate_up, down, y),
        moe_output(f, g, op, x, ids, weights, gate_up, down, y) is Ok,
    ensures
        ({
            let a = call_args(g, op, x, ids, weights, gate_up, down);
            &&& a.wf()
            &&& a.outputs(f, g, a.e) is Ok
            &&& moe_output(f, g, op, x, ids, weights, gate_up, down, y)->Ok_0 == y.with_cells(
                y.cells.with_f32s(a.outputs(f, g, a.e)->Ok_0),
            )
            &&& y.backed()
            &&& y.count() == a.t * a.dm
            &&& is_float(y.dtype())
            &&& y.dtype() == op.out_dtype
            &&& a.gate_up.shape == seq![a.width() as usize, a.dm as usize]
            &&& a.x.quant == QuantScheme::PerBlock32 ==> a.dm % 32 == 0
        }),
{
    lemma_moe_fits(
        g,
        op,
        x.tensor,
        ids,
        weights,
        gate_up.tensor,
        gate_up.scale,
        down.tensor,
        down.scale,
        x.scale,
        y,
    );
}

/// The order of a token's routes does not matter over calls: if two calls that
/// differ only in the order of the routes of each token, to different experts,
/// succeed, they leave the same output.
pub proof fn law_moe_slot_calls<
    F: Fn(FloatOp, u32, u32) -> u32,
    G: Fn(FormatQuery) -> Result<u64, FormatError>,
>(
    f: F,
    g: G,
    op: MoeFfnOp,
    x: Operand,
    gate_up: Operand,
    down: Operand,
    ids: Tensor,
    weights: Tensor,
    other_ids: Tensor,
    other_weights: Tensor,
    y: Tensor,
)
    requires
        moe_fits_memory(x, ids, weights, gate_up, down, y),
        moe_fits_memory(x, other_ids, other_weights, gate_up, down, y),
        moe_output(f, g, op, x, ids, weights, gate_up, down, y) is Ok,
        moe_output(f, g, op, x, other_ids, other_weights, gate_up, down, y) is Ok,
        slots_permuted(
            call_args(g, op, x, ids, weights, gate_up, down),
            call_args(g, op, x, other_ids, other_weights, gate_up, down),
        ),
    ensures
        moe_output(f, g, op, x, ids, weights, gate_up, down, y) == moe_output(
            f,
            g,
            op,
            x,
            other_ids,
            other_weights,
            gate_up,
            down,
            y,
        ),
{
    lemma_call_sound(f, g, op, x, ids, weights, gate_up, down, y);
    lemma_call_sound(f, g, op, x, other_ids, other_weights, gate_up, down, y);
    let a = call_args(g, op, x, ids, weights, gate_up, down);
    let b = call_args(g, op, x, other_ids, other_weights, gate_up, down);
    law_slot_order(f, g, a, b, a.e);
}

/// Each number of experts up to all has outputs if all have.
pub proof fn lemma_outputs_before<
    F: Fn(FloatOp, u32, u32) -> u32,
    G: Fn(FormatQuery) -> Result<u64, FormatError>,
>(f: F, g: G, a: MoeArgs, n: int, m: int)
    requires
        a.wf(),
        0 <= n <= m,
        a.outputs(f, g, m) is Ok,
    ensures
        a.outputs(f, g, n) is Ok,
    decreases m,
{
    if n < m {
        lemma_next(f, g, a, 0, 0, m);
        lemma_outputs_before(f, g, a, n, m - 1);
    }
}

/// A call that succeeds has a joint projection whose rows a 32-bit number counts.
pub proof fn lemma_width<
    F: Fn(FloatOp, u32, u32) -> u32,
    G: Fn(FormatQuery) -> Result<u64, FormatError>,
>(f: F, g: G, a: MoeArgs)
    requires
        a.wf(),
        a.gate_up.shape == seq![a.width() as usize, a.dm as usize],
        a.outputs(f, g, a.e) is Ok,
    ensures
        a.width() <= u32::MAX,
{
    lemma_flat_bound(0, a.t, 0, a.k);
    let expert = a.ids.u32_at(0) as int;
    assert(a.ids.u32_at(0 * a.k + 0) == expert);
    assert(a.routed(0, expert));
    lemma_outputs_before(f, g, a, expert + 1, a.e);
    lemma_next(f, g, a, 0, 0, expert + 1);
    reveal(MoeArgs::expert_out);
    assert(a.projected(f, g, expert) is Ok);
}

/// A token's output depends on the token and the projections: if two calls with
/// the same projections succeed, tokens with the same activations, scales,
/// experts and weights have outputs with the same bits, whatever the batches
/// around them are.
pub proof fn law_moe_row_calls<
    F: Fn(FloatOp, u32, u32) -> u32,
    G: Fn(FormatQuery) -> Result<u64, FormatError>,
>(
    f: F,
    g: G,
    op: MoeFfnOp,
    gate_up: Operand,
    down: Operand,
    x: Operand,
    ids: Tensor,
    weights: Tensor,
    y: Tensor,
    tok: int,
    other_x: Operand,
    other_ids: Tensor,
    other_weights: Tensor,
    other_y: Tensor,
    other: int,
    d: int,
)
    requires
        moe_fits_memory(x, ids, weights, gate_up, down, y),
        moe_fits_memory(other_x, other_ids, other_weights, gate_up, down, other_y),
        moe_output(f, g, op, x, ids, weights, gate_up, down, y) is Ok,
        moe_output(f, g, op, other_x, other_ids, other_weights, gate_up, down, other_y) is Ok,
        same_moe_token(
            call_args(g, op, x, ids, weights, gate_up, down),
            tok,
            call_args(g, op, other_x, other_ids, other_weights, gate_up, down),
            other,
        ),
        0 <= tok < x.tensor.shape[0],
        0 <= other < other_x.tensor.shape[0],
        0 <= d < x.tensor.shape[1],
    ensures
        moe_output(f, g, op, x, ids, weights, gate_up, down, y)->Ok_0.cells.raw_at(
            tok * x.tensor.shape[1] + d,
        ) == moe_output(
            f,
            g,
            op,
            other_x,
            other_ids,
            other_weights,
            gate_up,
            down,
            other_y,
        )->Ok_0.cells.raw_at(other * x.tensor.shape[1] + d),
{
    lemma_call_sound(f, g, op, x, ids, weights, gate_up, down, y);
    lemma_call_sound(f, g, op, other_x, other_ids, other_weights, gate_up, down, other_y);
    let a = call_args(g, op, x, ids, weights, gate_up, down);
    let b = call_args(g, op, other_x, other_ids, other_weights, gate_up, down);
    lemma_width(f, g, a);
    lemma_width(f, g, b);
    law_moe_row_independent(f, g, a, tok, b, other, d);
    lemma_flat_bound(tok, a.t, d, a.dm);
    lemma_flat_bound(other, b.t, d, b.dm);
    lemma_outputs_len(f, g, a, a.e);
    lemma_outputs_len(f, g, b, b.e);
    law_write_all_bits(y.cells, a.outputs(f, g, a.e)->Ok_0, tok * a.dm + d);
    law_write_all_bits(other_y.cells, b.outputs(f, g, b.e)->Ok_0, other * b.dm + d);
}

pub proof fn lemma_outputs_len<
    F: Fn(FloatOp, u32, u32) -> u32,
    G: Fn(FormatQuery) -> Result<u64, FormatError>,
>(f: F, g: G, a: MoeArgs, n: int)
    requires
        a.wf(),
        0 <= n,
        a.outputs(f, g, n) is Ok,
    ensures
        a.outputs(f, g, n)->Ok_0.len() == a.t * a.dm,
    decreases n,
{
    vstd::arithmetic::mul::lemma_mul_nonnegative(a.t, a.dm);
    if n > 0 {
        lemma_next(f, g, a, 0, 0, n);
        lemma_outputs_len(f, g, a, n - 1);
        if a.tokens(n - 1, a.t).len() > 0 {
            lemma_combined_len(
                f,
                a,
                n - 1,
                a.expert_out(f, g, n - 1)->Ok_0,
                a.outputs(f, g, n - 1)->Ok_0,
                a.t * a.k,
            );
        }
    }
}

} // verus!
