//! What the references in double precision compute.
use vstd::prelude::*;
use crate::causal_conv1d::ConvActivation;
use crate::double::{activated, dp, dp_neg, erf, DoubleOp};
use crate::gemm::Epilogue;
use crate::index::{lemma_flat_bound, lemma_split};
use crate::ir::ActivationKind;
use crate::reference::{
    largest, mean_at, raw_weight, row_dot, scored, weight_sum, weighted_mean, zip_dot, ProductArgs,
};
use crate::reference_moe::MoeRef;
use crate::reference_scan::ScanRef;
use crate::reference_state::ConvRef;
use crate::segments::{lemma_slot_of, start_of};
use crate::sums::{in_order_wide, lemma_wide_last};

verus! {

/// Whether a double is the value of an activation function, by the same formulas
/// as in single precision.
pub open spec fn is_activated_wide<E: Fn(DoubleOp, u64, u64) -> u64>(
    e: E,
    kind: ActivationKind,
    x: u64,
    r: u64,
) -> bool {
    let one = 0x3FF0_0000_0000_0000u64;
    let half_x = dp(e, DoubleOp::Times, 0x3FE0_0000_0000_0000, x);
    match kind {
        ActivationKind::Silu => r == dp(
            e,
            DoubleOp::Over,
            x,
            dp(e, DoubleOp::Plus, one, dp(e, DoubleOp::Exp, dp_neg(x), 0)),
        ),
        ActivationKind::Gelu => {
            let t = erf(e, dp(e, DoubleOp::Times, x, 0x3FE6_A09E_667F_3BCD));
            r == dp(e, DoubleOp::Times, half_x, dp(e, DoubleOp::Plus, one, t))
        },
        ActivationKind::GeluTanh => {
            let linear = dp(e, DoubleOp::Times, 0x3FA6_E4E2_6D48_01F7, x);
            let square = dp(e, DoubleOp::Times, linear, x);
            let cube = dp(e, DoubleOp::Times, square, x);
            let sum = dp(e, DoubleOp::Plus, x, cube);
            let t = dp(
                e,
                DoubleOp::Tanh,
                dp(e, DoubleOp::Times, 0x3FE9_8845_33D4_3651, sum),
                0,
            );
            r == dp(e, DoubleOp::Times, half_x, dp(e, DoubleOp::Plus, one, t))
        },
        ActivationKind::Relu2 => {
            &&& x > 0x7FF0_0000_0000_0000 || x == 0 ==> r == dp(e, DoubleOp::Times, 0, 0)
            &&& 0 < x <= 0x7FF0_0000_0000_0000 ==> r == dp(e, DoubleOp::Times, x, x)
        },
        ActivationKind::Identity => r == x,
    }
}

/// Activation functions have their values in double precision.
pub proof fn law_wide_activations<E: Fn(DoubleOp, u64, u64) -> u64>(
    e: E,
    kind: ActivationKind,
    x: u64,
)
    ensures
        is_activated_wide(e, kind, x, activated(e, x, kind)),
{
}

proof fn lemma_product_sum<E: Fn(DoubleOp, u64, u64) -> u64>(
    e: E,
    a: ProductArgs,
    row: int,
    col: int,
    n: int,
)
    requires
        0 <= n,
    ensures
        a.dot(e, row, col, n) == in_order_wide(
            e,
            DoubleOp::Plus,
            0,
            Seq::new(
                n as nat,
                |i: int|
                    dp(
                        e,
                        DoubleOp::Times,
                        a.x[row * a.k + i],
                        if a.transpose_w {
                            a.w[i * a.n + col]
                        } else {
                            a.w[col * a.k + i]
                        },
                    ),
            ),
        ),
    decreases n,
{
    let terms = |c: int|
        Seq::new(
            c as nat,
            |i: int|
                dp(
                    e,
                    DoubleOp::Times,
                    a.x[row * a.k + i],
                    if a.transpose_w {
                        a.w[i * a.n + col]
                    } else {
                        a.w[col * a.k + i]
                    },
                ),
        );
    lemma_wide_last(e, DoubleOp::Plus, 0, terms(n));
    if n > 0 {
        lemma_product_sum(e, a, row, col, n - 1);
        assert(terms(n).drop_last() =~= terms(n - 1));
        assert(row * a.k + n - 1 == row * a.k + (n - 1));
    }
}

/// The reference of a product sums over all columns, and the epilogue follows.
pub proof fn law_reference_product<E: Fn(DoubleOp, u64, u64) -> u64>(
    e: E,
    a: ProductArgs,
    row: int,
    col: int,
    sum: u64,
    value: u64,
)
    requires
        0 <= a.k,
        sum == in_order_wide(
            e,
            DoubleOp::Plus,
            0,
            Seq::new(
                a.k as nat,
                |i: int|
                    dp(
                        e,
                        DoubleOp::Times,
                        a.x[row * a.k + i],
                        if a.transpose_w {
                            a.w[i * a.n + col]
                        } else {
                            a.w[col * a.k + i]
                        },
                    ),
            ),
        ),
        match a.epilogue {
            Epilogue::Plain => value == sum,
            Epilogue::Bias => a.bias is Some && value == dp(
                e,
                DoubleOp::Plus,
                sum,
                a.bias->0[col],
            ),
            Epilogue::Residual => a.residual is Some && value == dp(
                e,
                DoubleOp::Plus,
                sum,
                a.residual->0[row * a.n + col],
            ),
            Epilogue::Act(kind) => is_activated_wide(e, kind, sum, value),
        },
    ensures
        a.element(e, row, col) == value,
{
    lemma_product_sum(e, a, row, col, a.k);
}

proof fn lemma_reference_taps<E: Fn(DoubleOp, u64, u64) -> u64>(
    e: E,
    a: ConvRef,
    slot: int,
    row: int,
    ch: int,
    signal: Seq<u64>,
    n: int,
)
    requires
        0 <= n <= a.wk,
        0 <= row,
        row + a.wk <= signal.len(),
        forall|i: int| 0 <= i < signal.len() ==> #[trigger] signal[i] == a.history(slot, i, ch),
    ensures
        a.sum(e, slot, row, ch, n) == in_order_wide(
            e,
            DoubleOp::Plus,
            match a.bias {
                Some(b) => b[ch],
                None => 0,
            },
            Seq::new(
                n as nat,
                |i: int| dp(e, DoubleOp::Times, a.w[ch * a.wk + i], signal[row + i]),
            ),
        ),
    decreases n,
{
    let start = match a.bias {
        Some(b) => b[ch],
        None => 0,
    };
    let terms = |c: int|
        Seq::new(
            c as nat,
            |i: int| dp(e, DoubleOp::Times, a.w[ch * a.wk + i], signal[row + i]),
        );
    lemma_wide_last(e, DoubleOp::Plus, start, terms(n));
    if n > 0 {
        lemma_reference_taps(e, a, slot, row, ch, signal, n - 1);
        assert(terms(n).drop_last() =~= terms(n - 1));
        assert(ch * a.wk + n - 1 == ch * a.wk + (n - 1));
        assert(signal[row + (n - 1)] == a.history(slot, row + n - 1, ch));
    }
}

/// The reference of a convolution slides the taps of each channel over the
/// carried window and the rows of the sequence, and leaves the end of them.
pub proof fn law_reference_taps<E: Fn(DoubleOp, u64, u64) -> u64>(
    e: E,
    a: ConvRef,
    slot: int,
    ch: int,
    signal: Seq<u64>,
    row: int,
    sum: u64,
    n: int,
)
    requires
        a.wk > 0,
        0 <= slot < a.lens.len(),
        0 <= ch < a.c,
        signal.len() == a.wk - 1 + a.lens[slot],
        forall|i: int|
            0 <= i < a.wk - 1 ==> #[trigger] signal[i] == a.state[(slot * (a.wk - 1) + i) * a.c
                + ch],
        forall|i: int|
            a.wk - 1 <= i < signal.len() ==> #[trigger] signal[i] == a.x[(start_of(a.lens, slot) + (
            i - (a.wk - 1))) * a.c + ch],
        sum == in_order_wide(
            e,
            DoubleOp::Plus,
            match a.bias {
                Some(b) => b[ch],
                None => 0,
            },
            Seq::new(
                a.wk as nat,
                |i: int| dp(e, DoubleOp::Times, a.w[ch * a.wk + i], signal[row + i]),
            ),
        ),
    ensures
        0 <= row < a.lens[slot] ==> a.output_at(e, (start_of(a.lens, slot) + row) * a.c + ch)
            == match a.act {
            ConvActivation::Identity => sum,
            ConvActivation::Silu => dp(
                e,
                DoubleOp::Over,
                sum,
                dp(
                    e,
                    DoubleOp::Plus,
                    0x3FF0_0000_0000_0000,
                    dp(e, DoubleOp::Exp, dp_neg(sum), 0),
                ),
            ),
        },
        0 <= n < a.wk - 1 ==> a.window_at((slot * (a.wk - 1) + n) * a.c + ch) == signal[signal.len()
            - (a.wk - 1) + n],
{
    assert forall|i: int| 0 <= i < signal.len() implies #[trigger] signal[i] == a.history(
        slot,
        i,
        ch,
    ) by {
        if i >= a.wk - 1 {
            assert(start_of(a.lens, slot) + i - a.hist() == start_of(a.lens, slot) + (i - (a.wk
                - 1)));
        }
    }
    if 0 <= row < a.lens[slot] {
        let token = start_of(a.lens, slot) + row;
        lemma_slot_of(a.lens, slot, row);
        lemma_split(token, ch, a.c as int);
        lemma_reference_taps(e, a, slot, row, ch, signal, a.wk as int);
    }
    if 0 <= n < a.wk - 1 {
        let hist = a.wk - 1;
        lemma_split(slot, n, hist);
        lemma_split(slot * hist + n, ch, a.c as int);
    }
}

/// Whether matrices of one head of a sequence follow the recurrence of a scan in
/// double precision.
pub open spec fn follows_wide<E: Fn(DoubleOp, u64, u64) -> u64>(
    e: E,
    a: ScanRef,
    slot: int,
    head: int,
    m: spec_fn(int, int, int) -> u64,
) -> bool {
    let lane = |r: int| (start_of(a.lens, slot) + r) * a.h + head;
    &&& forall|i: int, j: int|
        0 <= i < a.d && 0 <= j < a.dv ==> #[trigger] m(0, i, j) == a.state[((slot * a.h + head)
            * a.d + i) * a.dv + j]
    &&& forall|r: int, i: int, j: int|
        #![trigger m(r + 1, i, j)]
        0 <= r < a.lens[slot] && 0 <= i < a.d && 0 <= j < a.dv ==> m(r + 1, i, j) == dp(
            e,
            DoubleOp::Plus,
            dp(e, DoubleOp::Times, a.alpha[lane(r)], m(r, i, j)),
            dp(
                e,
                DoubleOp::Times,
                dp(e, DoubleOp::Times, a.beta[lane(r)], a.k[lane(r) * a.d + i]),
                a.v[lane(r) * a.dv + j],
            ),
        )
}

proof fn lemma_reference_cell<E: Fn(DoubleOp, u64, u64) -> u64>(
    e: E,
    a: ScanRef,
    slot: int,
    head: int,
    m: spec_fn(int, int, int) -> u64,
    r: int,
    i: int,
    j: int,
)
    requires
        follows_wide(e, a, slot, head, m),
        0 <= slot,
        0 <= head < a.h,
        0 <= r <= a.lens[slot],
        0 <= i < a.d,
        0 <= j < a.dv,
    ensures
        a.cell(e, slot, (head * a.d + i) * a.dv + j, r) == m(r, i, j),
    decreases r,
{
    let p = (head * a.d + i) * a.dv + j;
    lemma_split(head, i, a.d as int);
    lemma_split(head * a.d + i, j, a.dv as int);
    if r > 0 {
        lemma_reference_cell(e, a, slot, head, m, r - 1, i, j);
        assert(m((r - 1) + 1, i, j) == m(r, i, j));
    } else {
        assert(slot * a.size() + p == ((slot * a.h + head) * a.d + i) * a.dv + j)
            by (nonlinear_arith)
            requires
                a.size() == a.h * a.d * a.dv,
                p == (head * a.d + i) * a.dv + j,
        ;
    }
}

proof fn lemma_reference_output<E: Fn(DoubleOp, u64, u64) -> u64>(
    e: E,
    a: ScanRef,
    slot: int,
    head: int,
    m: spec_fn(int, int, int) -> u64,
    row: int,
    j: int,
    n: int,
)
    requires
        follows_wide(e, a, slot, head, m),
        0 <= slot,
        0 <= head < a.h,
        0 <= row < a.lens[slot],
        0 <= j < a.dv,
        0 <= n <= a.d,
    ensures
        a.dot(e, slot, row, head, j, n) == in_order_wide(
            e,
            DoubleOp::Plus,
            0,
            Seq::new(
                n as nat,
                |i: int|
                    dp(
                        e,
                        DoubleOp::Times,
                        a.q[((start_of(a.lens, slot) + row) * a.h + head) * a.d + i],
                        m(row + 1, i, j),
                    ),
            ),
        ),
    decreases n,
{
    let lane = (start_of(a.lens, slot) + row) * a.h + head;
    let terms = |c: int|
        Seq::new(
            c as nat,
            |i: int| dp(e, DoubleOp::Times, a.q[lane * a.d + i], m(row + 1, i, j)),
        );
    lemma_wide_last(e, DoubleOp::Plus, 0, terms(n));
    if n > 0 {
        lemma_reference_output(e, a, slot, head, m, row, j, n - 1);
        lemma_reference_cell(e, a, slot, head, m, row + 1, n - 1, j);
        assert(terms(n).drop_last() =~= terms(n - 1));
        assert(lane * a.d + n - 1 == lane * a.d + (n - 1));
        assert((head * a.d + n - 1) == (head * a.d + (n - 1)));
    }
}

/// The reference of a scan follows the recurrence of the scan.
pub proof fn law_reference_recurrence<E: Fn(DoubleOp, u64, u64) -> u64>(
    e: E,
    a: ScanRef,
    slot: int,
    head: int,
    m: spec_fn(int, int, int) -> u64,
    row: int,
    i: int,
    j: int,
)
    requires
        follows_wide(e, a, slot, head, m),
        0 <= slot < a.lens.len(),
        0 <= head < a.h,
        0 <= i < a.d,
        0 <= j < a.dv,
    ensures
        0 <= row < a.lens[slot] ==> a.output_at(
            e,
            ((start_of(a.lens, slot) + row) * a.h + head) * a.dv + j,
        ) == in_order_wide(
            e,
            DoubleOp::Plus,
            0,
            Seq::new(
                a.d as nat,
                |i: int|
                    dp(
                        e,
                        DoubleOp::Times,
                        a.q[((start_of(a.lens, slot) + row) * a.h + head) * a.d + i],
                        m(row + 1, i, j),
                    ),
            ),
        ),
        a.state_at(e, ((slot * a.h + head) * a.d + i) * a.dv + j) == m(
            a.lens[slot] as int,
            i,
            j,
        ),
{
    if 0 <= row < a.lens[slot] {
        let token = start_of(a.lens, slot) + row;
        lemma_slot_of(a.lens, slot, row);
        lemma_split(token, head, a.h as int);
        lemma_split(token * a.h + head, j, a.dv as int);
        lemma_reference_output(e, a, slot, head, m, row, j, a.d as int);
    }
    let p = (head * a.d + i) * a.dv + j;
    let x = ((slot * a.h + head) * a.d + i) * a.dv + j;
    lemma_flat_bound(head, a.h as int, i, a.d as int);
    lemma_flat_bound(head * a.d + i, a.h * a.d, j, a.dv as int);
    assert(slot * a.size() + p == x) by (nonlinear_arith)
        requires
            a.size() == a.h * a.d * a.dv,
            p == (head * a.d + i) * a.dv + j,
            x == ((slot * a.h + head) * a.d + i) * a.dv + j,
    ;
    lemma_split(slot, p, a.size());
    lemma_reference_cell(e, a, slot, head, m, a.lens[slot] as int, i, j);
}

proof fn lemma_row_dot<E: Fn(DoubleOp, u64, u64) -> u64>(
    e: E,
    a: Seq<u64>,
    b: Seq<u64>,
    n: int,
)
    requires
        0 <= n,
    ensures
        row_dot(e, a, b, n) == in_order_wide(
            e,
            DoubleOp::Plus,
            0,
            Seq::new(n as nat, |i: int| dp(e, DoubleOp::Times, a[i], b[i])),
        ),
    decreases n,
{
    let terms = |c: int| Seq::new(c as nat, |i: int| dp(e, DoubleOp::Times, a[i], b[i]));
    lemma_wide_last(e, DoubleOp::Plus, 0, terms(n));
    if n > 0 {
        lemma_row_dot(e, a, b, n - 1);
        assert(terms(n).drop_last() =~= terms(n - 1));
    }
}

/// A score of a reference is the sum of the products of query and key, times the
/// scale, under the soft cap if there is one.
pub proof fn law_reference_score<E: Fn(DoubleOp, u64, u64) -> u64>(
    e: E,
    q: Seq<u64>,
    k: Seq<u64>,
    scale: u64,
    softcap: Option<u64>,
)
    requires
        q.len() == k.len(),
    ensures
        ({
            let s = dp(
                e,
                DoubleOp::Times,
                in_order_wide(
                    e,
                    DoubleOp::Plus,
                    0,
                    Seq::new(q.len(), |i: int| dp(e, DoubleOp::Times, q[i], k[i])),
                ),
                scale,
            );
            scored(e, zip_dot(e, q, k), scale, softcap) == match softcap {
                None => s,
                Some(cap) => dp(
                    e,
                    DoubleOp::Times,
                    cap,
                    dp(e, DoubleOp::Tanh, dp(e, DoubleOp::Over, s, cap), 0),
                ),
            }
        }),
{
    lemma_row_dot(e, q, k, q.len() as int);
}

proof fn lemma_largest<E: Fn(DoubleOp, u64, u64) -> u64>(e: E, s: Seq<u64>, n: int)
    requires
        0 <= n <= s.len(),
    ensures
        largest(e, s, n) == in_order_wide(
            e,
            DoubleOp::Max,
            0xFFF0_0000_0000_0000,
            s.take(n),
        ),
    decreases n,
{
    lemma_wide_last(e, DoubleOp::Max, 0xFFF0_0000_0000_0000, s.take(n));
    if n > 0 {
        lemma_largest(e, s, n - 1);
        assert(s.take(n).drop_last() =~= s.take(n - 1));
    }
}

proof fn lemma_weight_sum<E: Fn(DoubleOp, u64, u64) -> u64>(
    e: E,
    s: Seq<u64>,
    weights: Seq<u64>,
    n: int,
)
    requires
        0 <= n <= s.len(),
        weights.len() == s.len(),
        forall|i: int| 0 <= i < s.len() ==> #[trigger] weights[i] == raw_weight(e, s, i),
    ensures
        weight_sum(e, s, n) == in_order_wide(e, DoubleOp::Plus, 0, weights.take(n)),
    decreases n,
{
    lemma_wide_last(e, DoubleOp::Plus, 0, weights.take(n));
    if n > 0 {
        lemma_weight_sum(e, s, weights, n - 1);
        assert(weights.take(n).drop_last() =~= weights.take(n - 1));
    }
}

proof fn lemma_mean<E: Fn(DoubleOp, u64, u64) -> u64>(
    e: E,
    s: Seq<u64>,
    rows: Seq<Vec<u64>>,
    weights: Seq<u64>,
    sum: u64,
    j: int,
    n: int,
)
    requires
        0 <= n <= s.len() <= rows.len(),
        weights.len() == s.len(),
        forall|i: int| 0 <= i < s.len() ==> #[trigger] weights[i] == raw_weight(e, s, i),
        sum == weight_sum(e, s, s.len() as int),
        forall|i: int| 0 <= i < s.len() ==> j < (#[trigger] rows[i])@.len(),
    ensures
        mean_at(e, s, rows, j, n) == in_order_wide(
            e,
            DoubleOp::Plus,
            0,
            Seq::new(
                n as nat,
                |i: int|
                    dp(
                        e,
                        DoubleOp::Times,
                        dp(e, DoubleOp::Over, weights[i], sum),
                        rows[i]@[j],
                    ),
            ),
        ),
    decreases n,
{
    let terms = |c: int|
        Seq::new(
            c as nat,
            |i: int|
                dp(
                    e,
                    DoubleOp::Times,
                    dp(e, DoubleOp::Over, weights[i], sum),
                    rows[i]@[j],
                ),
        );
    lemma_wide_last(e, DoubleOp::Plus, 0, terms(n));
    if n > 0 {
        lemma_mean(e, s, rows, weights, sum, j, n - 1);
        assert(terms(n).drop_last() =~= terms(n - 1));
        assert(j < rows[n - 1]@.len());
    }
}

/// The reference of attention is a softmax: weights are the exponentials of the
/// scores less the largest, and the result is the sum of the values under their
/// shares of all weights.
pub proof fn law_reference_softmax<E: Fn(DoubleOp, u64, u64) -> u64>(
    e: E,
    scores: Seq<u64>,
    rows: Seq<Vec<u64>>,
    weights: Seq<u64>,
    j: int,
)
    requires
        0 < scores.len() <= rows.len(),
        weights.len() == scores.len(),
        forall|i: int|
            0 <= i < scores.len() ==> #[trigger] weights[i] == dp(
                e,
                DoubleOp::Exp,
                dp(
                    e,
                    DoubleOp::Minus,
                    scores[i],
                    in_order_wide(e, DoubleOp::Max, 0xFFF0_0000_0000_0000, scores),
                ),
                0,
            ),
        0 <= j,
        forall|i: int| 0 <= i < scores.len() ==> j < (#[trigger] rows[i])@.len(),
    ensures
        weighted_mean(e, scores, rows)[j] == in_order_wide(
            e,
            DoubleOp::Plus,
            0,
            Seq::new(
                scores.len(),
                |i: int|
                    dp(
                        e,
                        DoubleOp::Times,
                        dp(
                            e,
                            DoubleOp::Over,
                            weights[i],
                            in_order_wide(e, DoubleOp::Plus, 0, weights),
                        ),
                        rows[i]@[j],
                    ),
            ),
        ),
{
    let n = scores.len() as int;
    lemma_largest(e, scores, n);
    assert(scores.take(n) =~= scores);
    lemma_weight_sum(e, scores, weights, n);
    assert(weights.take(n) =~= weights);
    assert(j < rows[0]@.len());
    lemma_mean(e, scores, rows, weights, weight_sum(e, scores, n), j, n);
}

/// Whether a sequence lists all places of a token by their experts, and those of
/// the same expert by their order.
pub open spec fn lists_places(a: MoeRef, tok: int, order: Seq<int>) -> bool {
    &&& order.len() == a.k
    &&& forall|n: int| 0 <= n < a.k ==> 0 <= #[trigger] order[n] < a.k
    &&& forall|place: int| 0 <= place < a.k ==> #[trigger] order.contains(place)
    &&& forall|n: int, m: int|
        0 <= n < m < a.k ==> {
            let x = a.ids[tok * a.k + #[trigger] order[n]];
            let y = a.ids[tok * a.k + #[trigger] order[m]];
            x < y || x == y && order[n] < order[m]
        }
}

/// What the places of a token add to an output, in order.
pub open spec fn place_terms<E: Fn(DoubleOp, u64, u64) -> u64>(
    e: E,
    a: MoeRef,
    tok: int,
    order: Seq<int>,
    answers: spec_fn(int) -> u64,
) -> Seq<u64> {
    Seq::new(
        order.len(),
        |n: int|
            dp(
                e,
                DoubleOp::Times,
                a.weights[tok * a.k + order[n]],
                answers(a.ids[tok * a.k + order[n]] as int),
            ),
    )
}

/// Whether the places before one in order are those of experts before one, and of
/// that one before a place.
spec fn is_front(a: MoeRef, tok: int, order: Seq<int>, expert: int, place: int, c: int) -> bool {
    &&& 0 <= c <= order.len()
    &&& forall|n: int|
        0 <= n < order.len() ==> {
            let id = a.ids[tok * a.k + #[trigger] order[n]];
            (n < c) == (id < expert || id == expert && order[n] < place)
        }
}

proof fn lemma_combined<E: Fn(DoubleOp, u64, u64) -> u64>(
    e: E,
    a: MoeRef,
    tok: int,
    d: int,
    order: Seq<int>,
    answers: spec_fn(int) -> u64,
    expert: int,
    place: int,
) -> (c: int)
    requires
        lists_places(a, tok, order),
        forall|x: int| #[trigger] answers(x) == a.answer(e, tok, x, d, a.dff as int),
        0 <= expert,
        0 <= place <= a.k,
    ensures
        is_front(a, tok, order, expert, place, c),
        a.combined(e, tok, d, expert, place) == in_order_wide(
            e,
            DoubleOp::Plus,
            0,
            place_terms(e, a, tok, order, answers).take(c),
        ),
    decreases expert, place,
{
    let terms = place_terms(e, a, tok, order, answers);
    if place > 0 {
        let c = lemma_combined(e, a, tok, d, order, answers, expert, place - 1);
        let at = place - 1;
        assert(tok * a.k + place - 1 == tok * a.k + at);
        let id = a.ids[tok * a.k + at];
        assert(order.contains(at));
        let p = choose|p: int| 0 <= p < order.len() && order[p] == at;
        if id == expert {
            assert(p >= c);
            if p > c {
                let x = a.ids[tok * a.k + order[c]];
                assert(x < id || x == id && order[c] < order[p]);
                assert(false);
            }
            assert(terms.take(c + 1).drop_last() =~= terms.take(c));
            lemma_wide_last(e, DoubleOp::Plus, 0, terms.take(c + 1));
            assert forall|n: int| 0 <= n < order.len() implies {
                let x = a.ids[tok * a.k + #[trigger] order[n]];
                (n < c + 1) == (x < expert || x == expert && order[n] < place)
            } by {
                if n > c {
                    let x = a.ids[tok * a.k + order[n]];
                    assert(id < x || id == x && order[p] < order[n]);
                }
            }
            c + 1
        } else {
            c
        }
    } else if expert > 0 {
        let c = lemma_combined(e, a, tok, d, order, answers, expert - 1, a.k as int);
        assert forall|n: int| 0 <= n < order.len() implies {
            let x = a.ids[tok * a.k + #[trigger] order[n]];
            (n < c) == (x < expert || x == expert && order[n] < 0)
        } by {
            assert(0 <= order[n] < a.k);
        }
        c
    } else {
        lemma_wide_last(e, DoubleOp::Plus, 0, terms.take(0));
        0
    }
}

proof fn lemma_projected<E: Fn(DoubleOp, u64, u64) -> u64>(
    e: E,
    a: MoeRef,
    tok: int,
    expert: int,
    row: int,
    n: int,
)
    requires
        0 <= n,
    ensures
        a.projected(e, tok, expert, row, n) == in_order_wide(
            e,
            DoubleOp::Plus,
            0,
            Seq::new(
                n as nat,
                |i: int|
                    dp(
                        e,
                        DoubleOp::Times,
                        a.x[tok * a.dm + i],
                        a.gate_up[(expert * 2 * a.dff + row) * a.dm + i],
                    ),
            ),
        ),
    decreases n,
{
    let terms = |c: int|
        Seq::new(
            c as nat,
            |i: int|
                dp(
                    e,
                    DoubleOp::Times,
                    a.x[tok * a.dm + i],
                    a.gate_up[(expert * 2 * a.dff + row) * a.dm + i],
                ),
        );
    lemma_wide_last(e, DoubleOp::Plus, 0, terms(n));
    if n > 0 {
        lemma_projected(e, a, tok, expert, row, n - 1);
        assert(terms(n).drop_last() =~= terms(n - 1));
        assert(tok * a.dm + n - 1 == tok * a.dm + (n - 1));
        assert((expert * 2 * a.dff + row) * a.dm + n - 1 == (expert * 2 * a.dff + row) * a.dm + (n
            - 1));
    }
}

proof fn lemma_reference_answer<E: Fn(DoubleOp, u64, u64) -> u64>(
    e: E,
    a: MoeRef,
    tok: int,
    expert: int,
    d: int,
    n: int,
)
    requires
        0 <= n,
    ensures
        a.answer(e, tok, expert, d, n) == in_order_wide(
            e,
            DoubleOp::Plus,
            0,
            Seq::new(
                n as nat,
                |j: int|
                    dp(
                        e,
                        DoubleOp::Times,
                        a.hidden(e, tok, expert, j),
                        a.down[(expert * a.dm + d) * a.dff + j],
                    ),
            ),
        ),
    decreases n,
{
    let terms = |c: int|
        Seq::new(
            c as nat,
            |j: int|
                dp(
                    e,
                    DoubleOp::Times,
                    a.hidden(e, tok, expert, j),
                    a.down[(expert * a.dm + d) * a.dff + j],
                ),
        );
    lemma_wide_last(e, DoubleOp::Plus, 0, terms(n));
    if n > 0 {
        lemma_reference_answer(e, a, tok, expert, d, n - 1);
        assert(terms(n).drop_last() =~= terms(n - 1));
        assert((expert * a.dm + d) * a.dff + n - 1 == (expert * a.dm + d) * a.dff + (n - 1));
    }
}

/// Element of the joint projection of a token by an expert.
pub open spec fn joint_wide<E: Fn(DoubleOp, u64, u64) -> u64>(
    e: E,
    a: MoeRef,
    tok: int,
    row: int,
) -> u64 {
    in_order_wide(
        e,
        DoubleOp::Plus,
        0,
        Seq::new(
            a.dm as nat,
            |i: int|
                dp(e, DoubleOp::Times, a.x[tok * a.dm + i], a.gate_up[row * a.dm + i]),
        ),
    )
}

/// The reference of a layer of experts is the sum, expert by expert, of the
/// weights of a token's places times the experts' answers; an answer is the
/// product of the hidden row, the activated gates times the ups, with a row of
/// the projection back.
pub proof fn law_reference_routes<E: Fn(DoubleOp, u64, u64) -> u64>(
    e: E,
    a: MoeRef,
    tok: int,
    d: int,
    order: Seq<int>,
    answers: spec_fn(int) -> u64,
)
    requires
        a.fits(),
        0 <= tok < a.t,
        0 <= d < a.dm,
        lists_places(a, tok, order),
        forall|x: int|
            #[trigger] answers(x) == in_order_wide(
                e,
                DoubleOp::Plus,
                0,
                Seq::new(
                    a.dff as nat,
                    |j: int|
                        dp(
                            e,
                            DoubleOp::Times,
                            dp(
                                e,
                                DoubleOp::Times,
                                activated(
                                    e,
                                    joint_wide(e, a, tok, x * 2 * a.dff + j),
                                    a.act,
                                ),
                                joint_wide(e, a, tok, x * 2 * a.dff + (a.dff + j)),
                            ),
                            a.down[(x * a.dm + d) * a.dff + j],
                        ),
                ),
            ),
    ensures
        a.output_at(e, tok * a.dm + d) == in_order_wide(
            e,
            DoubleOp::Plus,
            0,
            Seq::new(
                a.k as nat,
                |n: int|
                    dp(
                        e,
                        DoubleOp::Times,
                        a.weights[tok * a.k + order[n]],
                        answers(a.ids[tok * a.k + order[n]] as int),
                    ),
            ),
        ),
{
    assert forall|x: int| #[trigger] answers(x) == a.answer(e, tok, x, d, a.dff as int) by {
        lemma_reference_answer(e, a, tok, x, d, a.dff as int);
        let left = Seq::new(
            a.dff as nat,
            |j: int|
                dp(
                    e,
                    DoubleOp::Times,
                    a.hidden(e, tok, x, j),
                    a.down[(x * a.dm + d) * a.dff + j],
                ),
        );
        let right = Seq::new(
            a.dff as nat,
            |j: int|
                dp(
                    e,
                    DoubleOp::Times,
                    dp(
                        e,
                        DoubleOp::Times,
                        activated(e, joint_wide(e, a, tok, x * 2 * a.dff + j), a.act),
                        joint_wide(e, a, tok, x * 2 * a.dff + (a.dff + j)),
                    ),
                    a.down[(x * a.dm + d) * a.dff + j],
                ),
        );
        assert forall|j: int| 0 <= j < a.dff implies left[j] == right[j] by {
            lemma_projected(e, a, tok, x, j, a.dm as int);
            lemma_projected(e, a, tok, x, a.dff + j, a.dm as int);
        }
        assert(left =~= right);
    }
    let c = lemma_combined(e, a, tok, d, order, answers, a.e as int, 0);
    lemma_split(tok, d, a.dm as int);
    let terms = place_terms(e, a, tok, order, answers);
    assert(c == a.k) by {
        if c < a.k {
            assert(0 <= order[c] < a.k);
            lemma_flat_bound(tok, a.t as int, order[c], a.k as int);
            assert(a.ids[tok * a.k + order[c]] < a.e);
        }
    }
    assert(terms.take(c) =~= Seq::new(
        a.k as nat,
        |n: int|
            dp(
                e,
                DoubleOp::Times,
                a.weights[tok * a.k + order[n]],
                answers(a.ids[tok * a.k + order[n]] as int),
            ),
    ));
}

} // verus!
