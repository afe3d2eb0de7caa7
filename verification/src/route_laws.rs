//! What a layer of experts computes: a weighted sum of its experts' answers.
use vstd::prelude::*;
use crate::activation::activated;
use crate::arith::{fp, FloatOp};
use crate::buffer::Tensor;
use crate::call_laws::{fits_memory, lemma_output_shape, lemma_product_bits, opt_fits_memory};
use crate::error::FormatError;
use crate::exec_prepare::Operand;
use crate::gemm::{Epilogue, GemmArgs};
use crate::gemm_laws::{law_row_independent, same_activation, same_row};
use crate::index::{lemma_flat_bound, lemma_split};
use crate::ir::{DType, QuantScheme};
use crate::kernels::{matmul_output, moe_output};
use crate::matmul::{
    gemm_args, lemma_no_dim_faults, lemma_no_form_faults, matmul_fault, MatmulOp,
};
use crate::moe_ffn::{down_matrix, MoeArgs, MoeFfnOp};
use crate::moe_laws::{
    along, call_args, is_layer, lemma_all_computed, lemma_call_sound, lemma_column,
    lemma_computed_bound, lemma_down_rows, lemma_gathered, lemma_hidden_at, lemma_next,
    lemma_outputs_before, lemma_outputs_len, lemma_place, lemma_width, moe_fits_memory,
};
use crate::product_laws::weight_number;
use crate::storage_laws::{coded, law_write_all_bits};
use crate::sums::{in_order, lemma_in_order_last, lemma_in_order_none};
use crate::weight::{FormatQuery, Matrix};

verus! {

/// Whether a sequence lists all routes of a token by their experts, and those to
/// the same expert by their places.
pub open spec fn lists_routes(ids: Tensor, k: int, tok: int, order: Seq<int>) -> bool {
    &&& order.len() == k
    &&& forall|n: int| 0 <= n < k ==> 0 <= #[trigger] order[n] < k
    &&& forall|slot: int| 0 <= slot < k ==> #[trigger] order.contains(slot)
    &&& forall|n: int, m: int|
        0 <= n < m < k ==> {
            let a = ids.u32_at(tok * k + #[trigger] order[n]);
            let b = ids.u32_at(tok * k + #[trigger] order[m]);
            a < b || a == b && order[n] < order[m]
        }
}

/// What the routes of a token add to an output, in order.
pub open spec fn route_terms<F: Fn(FloatOp, u32, u32) -> u32>(
    f: F,
    weights: Tensor,
    k: int,
    tok: int,
    order: Seq<int>,
    answers: spec_fn(int) -> u32,
    ids: Tensor,
) -> Seq<u32> {
    Seq::new(
        order.len(),
        |n: int|
            fp(
                f,
                FloatOp::Times,
                weights.cells.f32_at(tok * k + order[n]),
                answers(ids.u32_at(tok * k + order[n]) as int),
            ),
    )
}

/// Whether the routes before a place are those to experts before one, and to that
/// one from slots before one.
spec fn is_cut(a: MoeArgs, tok: int, order: Seq<int>, expert: int, slot: int, c: int) -> bool {
    &&& 0 <= c <= order.len()
    &&& forall|n: int|
        0 <= n < order.len() ==> {
            let id = a.ids.u32_at(tok * a.k + #[trigger] order[n]);
            (n < c) == (id < expert || id == expert && order[n] < slot)
        }
}

proof fn lemma_along<F: Fn(FloatOp, u32, u32) -> u32>(
    f: F,
    a: MoeArgs,
    tok: int,
    order: Seq<int>,
    answers: spec_fn(int) -> u32,
    expert: int,
    y: u32,
    v: u32,
    m: int,
    start: int,
) -> (c: int)
    requires
        0 < a.k,
        0 <= expert,
        lists_routes(a.ids, a.k, tok, order),
        is_cut(a, tok, order, expert, 0, start),
        y == in_order(
            f,
            FloatOp::Plus,
            0,
            route_terms(f, a.weights, a.k, tok, order, answers, a.ids).take(start),
        ),
        a.routed(tok, expert) ==> v == answers(expert),
        0 <= m <= a.k,
    ensures
        is_cut(a, tok, order, expert, m, c),
        along(f, a, tok, expert, y, v, m) == in_order(
            f,
            FloatOp::Plus,
            0,
            route_terms(f, a.weights, a.k, tok, order, answers, a.ids).take(c),
        ),
    decreases m,
{
    let terms = route_terms(f, a.weights, a.k, tok, order, answers, a.ids);
    if m == 0 {
        start
    } else {
        let c = lemma_along(f, a, tok, order, answers, expert, y, v, m - 1, start);
        let slot = m - 1;
        let id = a.ids.u32_at(tok * a.k + slot);
        assert(order.contains(slot));
        let p = choose|p: int| 0 <= p < order.len() && order[p] == slot;
        if id == expert {
            assert(p >= c);
            if p > c {
                let i = a.ids.u32_at(tok * a.k + order[c]);
                assert(i < id || i == id && order[c] < order[p]);
                assert(false);
            }
            assert(a.routed(tok, expert));
            assert(terms.take(c + 1).drop_last() =~= terms.take(c));
            lemma_in_order_last(f, FloatOp::Plus, 0, terms.take(c + 1));
            assert(tok * a.k + m - 1 == tok * a.k + slot);
            assert forall|n: int| 0 <= n < order.len() implies {
                let i = a.ids.u32_at(tok * a.k + #[trigger] order[n]);
                (n < c + 1) == (i < expert || i == expert && order[n] < m)
            } by {
                if n > c {
                    let i = a.ids.u32_at(tok * a.k + order[n]);
                    assert(id < i || id == i && order[p] < order[n]);
                }
            }
            c + 1
        } else {
            assert(tok * a.k + m - 1 == tok * a.k + slot);
            c
        }
    }
}

/// An output after the first experts is the sum along the routes to them.
proof fn lemma_outputs<
    F: Fn(FloatOp, u32, u32) -> u32,
    G: Fn(FormatQuery) -> Result<u64, FormatError>,
>(
    f: F,
    g: G,
    a: MoeArgs,
    tok: int,
    d: int,
    order: Seq<int>,
    answers: spec_fn(int) -> u32,
    n: int,
) -> (c: int)
    requires
        a.wf(),
        0 <= tok < a.t,
        0 <= d < a.dm,
        0 <= n <= a.e,
        a.outputs(f, g, n) is Ok,
        lists_routes(a.ids, a.k, tok, order),
        forall|e: int|
            0 <= e < n && a.routed(tok, e) ==> #[trigger] answers(e) == a.expert_out(
                f,
                g,
                e,
            )->Ok_0[a.tokens(e, tok).len() * a.dm + d],
    ensures
        is_cut(a, tok, order, n, 0, c),
        a.outputs(f, g, n)->Ok_0[tok * a.dm + d] == in_order(
            f,
            FloatOp::Plus,
            0,
            route_terms(f, a.weights, a.k, tok, order, answers, a.ids).take(c),
        ),
    decreases n,
{
    let terms = route_terms(f, a.weights, a.k, tok, order, answers, a.ids);
    if n == 0 {
        lemma_flat_bound(tok, a.t, d, a.dm);
        lemma_in_order_none(f, FloatOp::Plus, 0, terms.take(0));
        0
    } else {
        lemma_next(f, g, a, tok, d, n);
        let before = lemma_outputs(f, g, a, tok, d, order, answers, n - 1);
        let e = n - 1;
        let y = a.outputs(f, g, e)->Ok_0[tok * a.dm + d];
        let v = a.expert_out(f, g, e)->Ok_0[a.tokens(e, tok).len() * a.dm + d];
        if a.routed(tok, e) {
            assert(answers(e) == v);
        }
        let c = lemma_along(f, a, tok, order, answers, e, y, v, a.k, before);
        assert(is_cut(a, tok, order, n, 0, c)) by {
            assert forall|i: int| 0 <= i < order.len() implies {
                let id = a.ids.u32_at(tok * a.k + #[trigger] order[i]);
                (i < c) == (id < n || id == n && order[i] < 0)
            } by {
                assert(0 <= order[i] < a.k);
            }
        }
        if !a.routed(tok, e) {
            assert(c == before) by {
                if c > before {
                    let id = a.ids.u32_at(tok * a.k + order[before]);
                    assert(id == e);
                    assert(0 <= order[before] < a.k);
                    assert(a.routed(tok, e));
                }
                if c < before {
                    let id = a.ids.u32_at(tok * a.k + order[c]);
                    assert(id < e);
                }
            }
        }
        c
    }
}

/// An expert's product of a token's row is that of the whole batch.
proof fn lemma_token_row<G: Fn(FormatQuery) -> Result<u64, FormatError>>(
    g: G,
    a: MoeArgs,
    tok: int,
    expert: int,
    whole: GemmArgs,
)
    requires
        is_layer(a),
        0 <= tok < a.t,
        a.routed(tok, expert),
        whole == (GemmArgs {
            x: a.x,
            xs: a.xs,
            m: a.t,
            ..a.expert_gemm(g, expert)
        }),
    ensures
        same_row(
            a.expert_gemm(g, expert),
            a.tokens(expert, tok).len() as int,
            whole,
            tok,
        ),
{
    lemma_place(a, expert, tok);
    let r = a.tokens(expert, tok).len() as int;
    let toks = a.tokens(expert, a.t);
    let x = a.expert_gemm(g, expert);
    let dm = a.dm;
    lemma_gathered(a.x, x.x, toks, dm, r, 0);
    assert forall|at: int| 0 <= at < dm implies same_activation(
        x.x,
        #[trigger] (r * dm + at),
        a.x,
        tok * dm + at,
    ) by {
        lemma_gathered(a.x, x.x, toks, dm, r, at);
    }
    let blocks = dm / 32;
    if a.x.quant == QuantScheme::PerBlock32 {
        assert forall|block: int| 0 <= block < blocks implies #[trigger] x.x_scale(r, block)
            == whole.x_scale(tok, block) by {
            lemma_flat_bound(r, toks.len() as int, block, blocks);
            lemma_split(r, block, blocks);
        }
    }
}

/// An element of an expert's joint projection of a token's row.
proof fn lemma_joint<
    F: Fn(FloatOp, u32, u32) -> u32,
    G: Fn(FormatQuery) -> Result<u64, FormatError>,
>(f: F, g: G, a: MoeArgs, tok: int, expert: int, whole: GemmArgs, col: int)
    requires
        is_layer(a),
        0 <= tok < a.t,
        a.routed(tok, expert),
        whole == (GemmArgs { x: a.x, xs: a.xs, m: a.t, ..a.expert_gemm(g, expert) }),
        a.projected(f, g, expert) is Ok,
        0 <= col < a.width(),
        whole.total(f, g, tok, col) is Ok,
    ensures
        a.projected(f, g, expert)->Ok_0[a.tokens(expert, tok).len() * a.width() + col]
            == whole.total(f, g, tok, col)->Ok_0,
{
    lemma_token_row(g, a, tok, expert, whole);
    lemma_place(a, expert, tok);
    let r = a.tokens(expert, tok).len() as int;
    let x = a.expert_gemm(g, expert);
    let w = a.width();
    crate::moe_ffn::lemma_tokens(a, expert, a.t, a.t);
    assert(x.w.n == w && x.w.k == a.dm && x.m == a.tokens(expert, a.t).len());
    lemma_gathered(a.x, x.x, a.tokens(expert, a.t), a.dm, r, 0);
    lemma_flat_bound(r, x.m, col, w);
    lemma_split(r, col, w);
    lemma_computed_bound(x, f, g, x.size());
    lemma_all_computed(x, f, g, x.size(), r * w + col);
    law_row_independent(x, r, whole, tok, f, g, col);
}

/// Answer of an expert to a token: the product of the hidden row with a row of
/// the projection back; a hidden element is an activated gate times an up, both
/// from the joint projection of the token.
pub open spec fn expert_answer<
    F: Fn(FloatOp, u32, u32) -> u32,
    G: Fn(FormatQuery) -> Result<u64, FormatError>,
>(
    f: F,
    g: G,
    op: MoeFfnOp,
    joint: Tensor,
    down: Matrix,
    tok: int,
    experts: int,
    dff: int,
    dm: int,
    expert: int,
    d: int,
) -> u32 {
    let gate = |j: int| joint.cells.raw_at(tok * (experts * dff * 2) + (expert * 2 * dff + j));
    let up = |j: int|
        joint.cells.raw_at(tok * (experts * dff * 2) + (expert * 2 * dff + j + dff));
    in_order(
        f,
        FloatOp::Plus,
        0,
        Seq::new(
            dff as nat,
            |j: int|
                fp(
                    f,
                    FloatOp::Times,
                    fp(f, FloatOp::Times, activated(f, gate(j), op.act), up(j)),
                    weight_number(f, g, down, expert * dm + d, j),
                ),
        ),
    )
}

/// A decoded weight is its number.
proof fn lemma_weight<
    F: Fn(FloatOp, u32, u32) -> u32,
    G: Fn(FormatQuery) -> Result<u64, FormatError>,
>(f: F, g: G, w: Matrix, row: int, at: int)
    requires
        w.wf(),
        w.element(f, g, row, at) is Ok,
    ensures
        w.element(f, g, row, at)->Ok_0 == weight_number(f, g, w, row, at),
{
}

proof fn lemma_down_sum<
    F: Fn(FloatOp, u32, u32) -> u32,
    G: Fn(FormatQuery) -> Result<u64, FormatError>,
>(
    f: F,
    g: G,
    a: MoeArgs,
    hid: Seq<u32>,
    expert: int,
    r: int,
    d: int,
    n: int,
)
    requires
        a.down.wf(),
        0 <= n,
        a.down_dot(f, g, hid, expert, r, d, n) is Ok,
    ensures
        a.down_dot(f, g, hid, expert, r, d, n)->Ok_0 == in_order(
            f,
            FloatOp::Plus,
            0,
            Seq::new(
                n as nat,
                |j: int|
                    fp(
                        f,
                        FloatOp::Times,
                        hid[r * a.dff + j],
                        weight_number(f, g, a.down, expert * a.dm + d, j),
                    ),
            ),
        ),
    decreases n,
{
    let terms = |c: int|
        Seq::new(
            c as nat,
            |j: int|
                fp(
                    f,
                    FloatOp::Times,
                    hid[r * a.dff + j],
                    weight_number(f, g, a.down, expert * a.dm + d, j),
                ),
        );
    if n > 0 {
        lemma_down_sum(f, g, a, hid, expert, r, d, n - 1);
        lemma_weight(f, g, a.down, expert * a.dm + d, n - 1);
        lemma_in_order_last(f, FloatOp::Plus, 0, terms(n));
        assert(terms(n).drop_last() =~= terms(n - 1));
        assert(r * a.dff + n - 1 == r * a.dff + (n - 1));
    } else {
        lemma_in_order_none(f, FloatOp::Plus, 0, terms(n));
    }
}

proof fn lemma_answer<
    F: Fn(FloatOp, u32, u32) -> u32,
    G: Fn(FormatQuery) -> Result<u64, FormatError>,
>(
    f: F,
    g: G,
    op: MoeFfnOp,
    a: MoeArgs,
    whole: GemmArgs,
    joint: Tensor,
    tok: int,
    expert: int,
    d: int,
)
    requires
        is_layer(a),
        a.act == op.act,
        0 <= tok < a.t,
        0 <= d < a.dm,
        0 <= expert < a.e,
        a.routed(tok, expert),
        whole == (GemmArgs { x: a.x, xs: a.xs, m: a.t, ..a.expert_gemm(g, expert) }),
        a.expert_out(f, g, expert) is Ok,
        forall|col: int|
            0 <= col < a.width() ==> (#[trigger] whole.total(f, g, tok, col)) is Ok
                && joint.cells.raw_at(tok * a.width() + col) == whole.total(
                f,
                g,
                tok,
                col,
            )->Ok_0,
    ensures
        a.expert_out(f, g, expert)->Ok_0[a.tokens(expert, tok).len() * a.dm + d] == expert_answer(
            f,
            g,
            op,
            joint,
            a.down,
            tok,
            a.e,
            a.dff,
            a.dm,
            expert,
            d,
        ),
{
    reveal(MoeArgs::expert_out);
    lemma_place(a, expert, tok);
    let r = a.tokens(expert, tok).len() as int;
    let l = a.tokens(expert, a.t).len() as int;
    let h = a.projected(f, g, expert)->Ok_0;
    let hid = a.hidden(f, h, expert);
    lemma_flat_bound(r, l, d, a.dm);
    lemma_split(r, d, a.dm);
    lemma_down_rows(f, g, a, hid, expert, l * a.dm, r * a.dm + d);
    lemma_down_sum(f, g, a, hid, expert, r, d, a.dff);
    let left = Seq::new(
        a.dff as nat,
        |j: int|
            fp(
                f,
                FloatOp::Times,
                hid[r * a.dff + j],
                weight_number(f, g, a.down, expert * a.dm + d, j),
            ),
    );
    let gate = |j: int|
        joint.cells.raw_at(tok * (a.e * a.dff * 2) + (expert * 2 * a.dff + j));
    let up = |j: int|
        joint.cells.raw_at(tok * (a.e * a.dff * 2) + (expert * 2 * a.dff + j + a.dff));
    let right = Seq::new(
        a.dff as nat,
        |j: int|
            fp(
                f,
                FloatOp::Times,
                fp(f, FloatOp::Times, activated(f, gate(j), op.act), up(j)),
                weight_number(f, g, a.down, expert * a.dm + d, j),
            ),
    );
    assert forall|j: int| 0 <= j < a.dff implies left[j] == right[j] by {
        let c = expert * 2 * a.dff + j;
        lemma_column(a, expert, j);
        lemma_hidden_at(f, a, h, expert, r, j);
        assert(whole.total(f, g, tok, c) is Ok);
        assert(whole.total(f, g, tok, c + a.dff) is Ok);
        lemma_joint(f, g, a, tok, expert, whole, c);
        lemma_joint(f, g, a, tok, expert, whole, c + a.dff);
    }
    assert(left =~= right);
}

/// A layer of experts is a sum along routes: the output of a token is the sum,
/// expert by expert, of its routes' weights times the experts' answers. Gates and
/// ups are those of one product of all tokens with all experts' rows.
pub proof fn law_moe_routes<
    F: Fn(FloatOp, u32, u32) -> u32,
    G: Fn(FormatQuery) -> Result<u64, FormatError>,
>(
    f: F,
    g: G,
    op: MoeFfnOp,
    x: Operand,
    ids: Tensor,
    weights: Tensor,
    gate_up: Operand,
    down: Operand,
    y: Tensor,
    rows: Operand,
    joint: Tensor,
    tok: int,
    d: int,
    order: Seq<int>,
    answers: spec_fn(int) -> u32,
)
    requires
        moe_fits_memory(x, ids, weights, gate_up, down, y),
        moe_output(f, g, op, x, ids, weights, gate_up, down, y) is Ok,
        rows.scale == gate_up.scale,
        rows.tensor == (Tensor {
            shape: seq![
                (gate_up.tensor.shape[0] * down.tensor.shape[2] * 2) as usize,
                x.tensor.shape[1],
            ],
            ..gate_up.tensor
        }),
        fits_memory(joint),
        ({
            let p = MatmulOp {
                out_dtype: DType::F32,
                epilogue: Epilogue::Plain,
                transpose_w: false,
            };
            matmul_output(f, g, p, x, rows, None, None, joint) is Ok
        }),
        0 <= tok < x.tensor.shape[0],
        0 <= d < x.tensor.shape[1],
        lists_routes(ids, ids.shape[1] as int, tok, order),
        ({
            let p = MatmulOp {
                out_dtype: DType::F32,
                epilogue: Epilogue::Plain,
                transpose_w: false,
            };
            let e = gate_up.tensor.shape[0];
            let dff = down.tensor.shape[2];
            forall|expert: int| #[trigger]
                answers(expert) == expert_answer(
                    f,
                    g,
                    op,
                    matmul_output(f, g, p, x, rows, None, None, joint)->Ok_0,
                    down_matrix(g, down.tensor, down.scale, e, dff),
                    tok,
                    e as int,
                    dff as int,
                    x.tensor.shape[1] as int,
                    expert,
                    d,
                )
        }),
    ensures
        moe_output(f, g, op, x, ids, weights, gate_up, down, y)->Ok_0.cells.raw_at(
            tok * x.tensor.shape[1] + d,
        ) == coded(
            op.out_dtype,
            in_order(
                f,
                FloatOp::Plus,
                0,
                Seq::new(
                    ids.shape[1] as nat,
                    |n: int|
                        fp(
                            f,
                            FloatOp::Times,
                            weights.cells.f32_at(tok * ids.shape[1] + order[n]),
                            answers(ids.u32_at(tok * ids.shape[1] + order[n]) as int),
                        ),
                ),
            ),
        ),
{
    let p = MatmulOp { out_dtype: DType::F32, epilogue: Epilogue::Plain, transpose_w: false };
    let a = call_args(g, op, x, ids, weights, gate_up, down);
    lemma_call_sound(f, g, op, x, ids, weights, gate_up, down, y);
    lemma_width(f, g, a);
    let whole = gemm_args(g, p, x.tensor, x.scale, rows.tensor, rows.scale, None, None);
    let got = matmul_output(f, g, p, x, rows, None, None, joint)->Ok_0;
    lemma_output_shape(f, g, p, x, rows, None, None, joint);
    assert(a.gate_up == rows.tensor);
    let w = a.width();
    assert forall|col: int| 0 <= col < w implies (#[trigger] whole.total(f, g, tok, col)) is Ok
        && got.cells.raw_at(tok * w + col) == whole.total(f, g, tok, col)->Ok_0 by {
        lemma_joint_bits(f, g, p, x, rows, joint, a.t, w, tok, col);
    }
    assert forall|e: int| 0 <= e < a.e && a.routed(tok, e) implies #[trigger] answers(e)
        == a.expert_out(f, g, e)->Ok_0[a.tokens(e, tok).len() * a.dm + d] by {
        lemma_outputs_before(f, g, a, e + 1, a.e);
        lemma_next(f, g, a, tok, d, e + 1);
        assert(whole == (GemmArgs { x: a.x, xs: a.xs, m: a.t, ..a.expert_gemm(g, e) }));
        lemma_answer(f, g, op, a, whole, got, tok, e, d);
    }
    let c = lemma_outputs(f, g, a, tok, d, order, answers, a.e);
    let terms = route_terms(f, a.weights, a.k, tok, order, answers, a.ids);
    assert(c == a.k) by {
        if c < a.k {
            assert(0 <= order[c] < a.k);
            lemma_flat_bound(tok, a.t, order[c], a.k);
            assert(a.ids.u32_at(tok * a.k + order[c]) < a.e);
        }
    }
    assert(terms.take(c) =~= Seq::new(
        ids.shape[1] as nat,
        |n: int|
            fp(
                f,
                FloatOp::Times,
                weights.cells.f32_at(tok * ids.shape[1] + order[n]),
                answers(ids.u32_at(tok * ids.shape[1] + order[n]) as int),
            ),
    ));
    lemma_flat_bound(tok, a.t, d, a.dm);
    lemma_outputs_len(f, g, a, a.e);
    law_write_all_bits(y.cells, a.outputs(f, g, a.e)->Ok_0, tok * a.dm + d);
}

/// A sum of the product of all tokens.
proof fn lemma_joint_bits<
    F: Fn(FloatOp, u32, u32) -> u32,
    G: Fn(FormatQuery) -> Result<u64, FormatError>,
>(
    f: F,
    g: G,
    p: MatmulOp,
    x: Operand,
    rows: Operand,
    joint: Tensor,
    t: int,
    w: int,
    tok: int,
    col: int,
)
    requires
        p.out_dtype == DType::F32,
        p.epilogue == Epilogue::Plain,
        !p.transpose_w,
        matmul_output(f, g, p, x, rows, None, None, joint) is Ok,
        fits_memory(x.tensor) && opt_fits_memory(x.scale),
        fits_memory(rows.tensor) && opt_fits_memory(rows.scale),
        fits_memory(joint),
        t == x.tensor.shape[0],
        w == rows.tensor.shape[0],
        0 <= tok < t,
        0 <= col < w,
    ensures
        ({
            let a = gemm_args(g, p, x.tensor, x.scale, rows.tensor, rows.scale, None, None);
            &&& a.total(f, g, tok, col) is Ok
            &&& matmul_output(f, g, p, x, rows, None, None, joint)->Ok_0.cells.raw_at(
                tok * w + col,
            ) == a.total(f, g, tok, col)->Ok_0
        }),
{
    let a = gemm_args(g, p, x.tensor, x.scale, rows.tensor, rows.scale, None, None);
    lemma_output_shape(f, g, p, x, rows, None, None, joint);
    lemma_flat_bound(tok, t, col, w);
    lemma_split(tok, col, w);
    lemma_joint_count(f, g, p, x, rows, joint, t, w);
    lemma_product_bits(f, g, p, x, rows, None, None, joint, tok * w + col);
}

proof fn lemma_joint_count<
    F: Fn(FloatOp, u32, u32) -> u32,
    G: Fn(FormatQuery) -> Result<u64, FormatError>,
>(f: F, g: G, p: MatmulOp, x: Operand, rows: Operand, joint: Tensor, t: int, w: int)
    requires
        !p.transpose_w,
        matmul_output(f, g, p, x, rows, None, None, joint) is Ok,
        fits_memory(joint),
        t == x.tensor.shape[0],
        w == rows.tensor.shape[0],
    ensures
        joint.count() == t * w,
{
    assert(matmul_fault(
        g,
        p,
        x.tensor,
        x.scale,
        rows.tensor,
        rows.scale,
        None,
        None,
        joint,
    ) is None);
    lemma_output_shape(f, g, p, x, rows, None, None, joint);
    lemma_no_form_faults(p, x.tensor, x.scale, rows.tensor, rows.scale, None, None, joint);
    lemma_no_dim_faults(p, x.tensor, x.scale, rows.tensor, rows.scale, None, None, joint);
}

} // verus!
