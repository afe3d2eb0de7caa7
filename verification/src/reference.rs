//! References in double precision for kernels without state.
//!
//! They are written over plain rows of doubles and share no code with the
//! kernels that are compared with them.
use vstd::prelude::*;
use crate::act_mul::ActMulOp;
use crate::activation::ActivationOp;
use crate::copy::CopyOp;
use crate::double::{
    activated, add_up, dp, dp_add, dp_mul, eval_activation_f64, is_double, multiply, reckon, widen,
    widened, DoubleOp, MINUS_INFINITY,
};
use crate::gemm::Epilogue;
use crate::index::{lemma_flat_bound, lemma_mul_nonneg, lemma_split};

verus! {

/// The smaller of a number and a bound, if there is one.
pub open spec fn clamped<E: Fn(DoubleOp, u64, u64) -> u64>(e: E, v: u64, clamp: Option<u32>) -> u64 {
    match clamp {
        None => v,
        Some(c) => dp(e, DoubleOp::Min, v, widened(e, c)),
    }
}

fn clamp_to<E: Fn(DoubleOp, u64, u64) -> u64>(e: &E, v: u64, clamp: Option<u32>) -> (r: u64)
    requires
        is_double(*e),
    ensures
        r == clamped(*e, v, clamp),
{
    match clamp {
        None => v,
        Some(c) => reckon(e, DoubleOp::Min, v, widen(e, c)),
    }
}

/// Reference of [`crate::activation::activation`].
pub fn activation_f64_reference<E: Fn(DoubleOp, u64, u64) -> u64>(
    e: &E,
    op: &ActivationOp,
    x: &[u64],
) -> (r: Vec<u64>)
    requires
        is_double(*e),
    ensures
        r@ == Seq::new(x@.len(), |i: int| clamped(*e, activated(*e, x@[i], op.act), op.clamp)),
{
    let mut out: Vec<u64> = Vec::new();
    for i in 0..x.len()
        invariant
            is_double(*e),
            out@ =~= Seq::new(
                i as nat,
                |j: int| clamped(*e, activated(*e, x@[j], op.act), op.clamp),
            ),
    {
        out.push(clamp_to(e, eval_activation_f64(e, x[i], op.act), op.clamp));
    }
    out
}

/// Reference of [`crate::act_mul::act_mul`].
pub fn act_mul_f64_reference<E: Fn(DoubleOp, u64, u64) -> u64>(
    e: &E,
    op: &ActMulOp,
    gate: &[u64],
    up: &[u64],
) -> (r: Vec<u64>)
    requires
        is_double(*e),
        gate@.len() == up@.len(),
    ensures
        r@ == Seq::new(
            gate@.len(),
            |i: int| dp_mul(*e, clamped(*e, activated(*e, gate@[i], op.act), op.clamp), up@[i]),
        ),
{
    let mut out: Vec<u64> = Vec::new();
    for i in 0..gate.len()
        invariant
            is_double(*e),
            gate@.len() == up@.len(),
            out@ =~= Seq::new(
                i as nat,
                |j: int| dp_mul(*e, clamped(*e, activated(*e, gate@[j], op.act), op.clamp), up@[j]),
            ),
    {
        let g: u64 = clamp_to(e, eval_activation_f64(e, gate[i], op.act), op.clamp);
        out.push(multiply(e, g, up[i]));
    }
    out
}

/// Reference of [`crate::copy::copy`].
pub fn copy_f64_reference(_op: &CopyOp, x: &[u64]) -> (r: Vec<u64>)
    ensures
        r@ == x@,
{
    let mut out: Vec<u64> = Vec::new();
    for i in 0..x.len()
        invariant
            out@ =~= x@.take(i as int),
    {
        out.push(x[i]);
    }
    assert(x@.take(x@.len() as int) =~= x@);
    out
}

/// A score under a soft cap.
pub open spec fn capped<E: Fn(DoubleOp, u64, u64) -> u64>(e: E, v: u64, cap: u64) -> u64 {
    dp_mul(e, cap, dp(e, DoubleOp::Tanh, dp(e, DoubleOp::Over, v, cap), 0))
}

fn cap_at<E: Fn(DoubleOp, u64, u64) -> u64>(e: &E, v: u64, cap: u64) -> (r: u64)
    requires
        is_double(*e),
    ensures
        r == capped(*e, v, cap),
{
    let part: u64 = reckon(e, DoubleOp::Over, v, cap);
    multiply(e, cap, reckon(e, DoubleOp::Tanh, part, 0))
}

/// Reference of [`crate::logit_softcap::logit_softcap`].
pub fn logit_softcap_f64_reference<E: Fn(DoubleOp, u64, u64) -> u64>(
    e: &E,
    x: &[u64],
    cap: u64,
) -> (r: Vec<u64>)
    requires
        is_double(*e),
    ensures
        r@ == Seq::new(x@.len(), |i: int| capped(*e, x@[i], cap)),
{
    let mut out: Vec<u64> = Vec::new();
    for i in 0..x.len()
        invariant
            is_double(*e),
            out@ =~= Seq::new(i as nat, |j: int| capped(*e, x@[j], cap)),
    {
        out.push(cap_at(e, x[i], cap));
    }
    out
}

/// Reference of [`crate::gather_rows::gather_rows`].
pub fn gather_rows_f64_reference(x: &[u64], n: usize, d: usize, indices: &[u32]) -> (r: Vec<u64>)
    requires
        x@.len() == n * d,
        forall|i: int| 0 <= i < indices@.len() ==> (#[trigger] indices@[i]) < n,
    ensures
        r@ == Seq::new(
            (indices@.len() * d) as nat,
            |i: int| x@[indices@[i / d as int] * d + i % d as int],
        ),
{
    let ghost at = |i: int| x@[indices@[i / d as int] * d + i % d as int];
    let mut out: Vec<u64> = Vec::new();
    let len: usize = x.len();
    for i in 0..indices.len()
        invariant
            len == x@.len(),
            x@.len() == n * d,
            forall|i: int| 0 <= i < indices@.len() ==> (#[trigger] indices@[i]) < n,
            at == (|i: int| x@[indices@[i / d as int] * d + i % d as int]),
            out@ =~= Seq::new((i * d) as nat, at),
    {
        let row: usize = indices[i] as usize;
        assert(indices@[i as int] < n);
        proof {
            lemma_mul_nonneg(i as int, d as int);
            assert((i + 1) * d == i * d + d) by (nonlinear_arith);
        }
        for j in 0..d
            invariant
                len == x@.len(),
                x@.len() == n * d,
                i < indices@.len(),
                row == indices@[i as int],
                row < n,
                at == (|i: int| x@[indices@[i / d as int] * d + i % d as int]),
                0 <= i * d,
                out@ =~= Seq::new((i * d + j) as nat, at),
        {
            proof {
                lemma_flat_bound(row as int, n as int, j as int, d as int);
                lemma_split(i as int, j as int, d as int);
            }
            out.push(x[row * d + j]);
        }
    }
    assert(out@ =~= Seq::new((indices@.len() * d) as nat, at));
    out
}

/// Reference of [`crate::embed_gather::embed_gather`].
pub fn embed_gather_f64_reference<E: Fn(DoubleOp, u64, u64) -> u64>(
    e: &E,
    token_ids: &[u32],
    table: &[u64],
    v: usize,
    dm: usize,
    scale: u64,
) -> (r: Vec<u64>)
    requires
        is_double(*e),
        table@.len() == v * dm,
        forall|i: int| 0 <= i < token_ids@.len() ==> (#[trigger] token_ids@[i]) < v,
    ensures
        r@ == Seq::new(
            (token_ids@.len() * dm) as nat,
            |i: int|
                dp_mul(*e, table@[token_ids@[i / dm as int] * dm + i % dm as int], scale),
        ),
{
    let rows = gather_rows_f64_reference(table, v, dm, token_ids);
    let mut out: Vec<u64> = Vec::new();
    for i in 0..rows.len()
        invariant
            is_double(*e),
            rows@ == Seq::new(
                (token_ids@.len() * dm) as nat,
                |i: int| table@[token_ids@[i / dm as int] * dm + i % dm as int],
            ),
            out@ =~= Seq::new(
                i as nat,
                |i: int|
                    dp_mul(*e, table@[token_ids@[i / dm as int] * dm + i % dm as int], scale),
            ),
    {
        out.push(multiply(e, rows[i], scale));
    }
    out
}

/// Operands of a product.
pub struct ProductArgs {
    /// Rows of the left operand.
    pub x: Seq<u64>,
    /// Weights.
    pub w: Seq<u64>,
    /// Bias of each column.
    pub bias: Option<Seq<u64>>,
    /// What is added to each element.
    pub residual: Option<Seq<u64>>,
    /// Width of the rows.
    pub k: int,
    /// Number of columns of the result.
    pub n: int,
    /// What happens to the sums.
    pub epilogue: Epilogue,
    /// Whether the weights are stored by input row.
    pub transpose_w: bool,
}

impl ProductArgs {
    /// Weight of an input for a column.
    pub open spec fn weight(self, col: int, i: int) -> u64 {
        if self.transpose_w {
            self.w[i * self.n + col]
        } else {
            self.w[col * self.k + i]
        }
    }

    /// Sum of the first products of an element.
    pub open spec fn dot<E: Fn(DoubleOp, u64, u64) -> u64>(
        self,
        e: E,
        row: int,
        col: int,
        i: int,
    ) -> u64
        decreases i,
    {
        if i <= 0 {
            0
        } else {
            dp_add(
                e,
                self.dot(e, row, col, i - 1),
                dp_mul(e, self.x[row * self.k + i - 1], self.weight(col, i - 1)),
            )
        }
    }

    /// An element of the result.
    pub open spec fn element<E: Fn(DoubleOp, u64, u64) -> u64>(self, e: E, row: int, col: int) -> u64 {
        let sum = self.dot(e, row, col, self.k);
        match self.epilogue {
            Epilogue::Plain => sum,
            Epilogue::Bias => match self.bias {
                Some(b) => dp_add(e, sum, b[col]),
                None => sum,
            },
            Epilogue::Residual => match self.residual {
                Some(r) => dp_add(e, sum, r[row * self.n + col]),
                None => sum,
            },
            Epilogue::Act(kind) => activated(e, sum, kind),
        }
    }
}

/// Value of an optional slice.
pub open spec fn opt_seq(s: Option<&[u64]>) -> Option<Seq<u64>> {
    match s {
        Some(v) => Some(v@),
        None => None,
    }
}

fn product_dot<E: Fn(DoubleOp, u64, u64) -> u64>(
    e: &E,
    x: &[u64],
    w: &[u64],
    m: usize,
    k: usize,
    n: usize,
    transpose_w: bool,
    row: usize,
    col: usize,
    Ghost(args): Ghost<ProductArgs>,
) -> (r: u64)
    requires
        is_double(*e),
        x@ == args.x,
        w@ == args.w,
        k == args.k,
        n == args.n,
        transpose_w == args.transpose_w,
        x@.len() == m * k,
        w@.len() == n * k,
        row < m,
        col < n,
    ensures
        r == args.dot(*e, row as int, col as int, k as int),
{
    let x_len: usize = x.len();
    let w_len: usize = w.len();
    let mut acc: u64 = 0;
    for i in 0..k
        invariant
            is_double(*e),
            x@ == args.x,
            w@ == args.w,
            k == args.k,
            n == args.n,
            transpose_w == args.transpose_w,
            x_len == x@.len(),
            w_len == w@.len(),
            x@.len() == m * k,
            w@.len() == n * k,
            row < m,
            col < n,
            acc == args.dot(*e, row as int, col as int, i as int),
    {
        proof {
            lemma_flat_bound(row as int, m as int, i as int, k as int);
            lemma_flat_bound(col as int, n as int, i as int, k as int);
            lemma_flat_bound(i as int, k as int, col as int, n as int);
            assert(k * n == n * k) by (nonlinear_arith);
        }
        let weight: u64 = if transpose_w {
            w[i * n + col]
        } else {
            w[col * k + i]
        };
        acc = add_up(e, acc, multiply(e, x[row * k + i], weight));
    }
    acc
}

/// Reference of [`crate::matmul::matmul`].
pub fn matmul_f64_reference<E: Fn(DoubleOp, u64, u64) -> u64>(
    e: &E,
    x: &[u64],
    m: usize,
    k: usize,
    w: &[u64],
    n: usize,
    bias: Option<&[u64]>,
    residual: Option<&[u64]>,
    epilogue: Epilogue,
    transpose_w: bool,
) -> (r: Vec<u64>)
    requires
        is_double(*e),
        x@.len() == m * k,
        w@.len() == n * k,
        bias matches Some(b) ==> b@.len() == n,
        residual matches Some(s) ==> s@.len() == m * n,
    ensures
        ({
            let args = ProductArgs {
                x: x@,
                w: w@,
                bias: opt_seq(bias),
                residual: opt_seq(residual),
                k: k as int,
                n: n as int,
                epilogue,
                transpose_w,
            };
            r@ == Seq::new((m * n) as nat, |i: int| args.element(*e, i / n as int, i % n as int))
        }),
{
    let ghost args = ProductArgs {
        x: x@,
        w: w@,
        bias: opt_seq(bias),
        residual: opt_seq(residual),
        k: k as int,
        n: n as int,
        epilogue,
        transpose_w,
    };
    let ghost at = |i: int| args.element(*e, i / n as int, i % n as int);
    let mut y: Vec<u64> = Vec::new();
    assert(0 * n == 0) by (nonlinear_arith);
    for row in 0..m
        invariant
            is_double(*e),
            x@.len() == m * k,
            w@.len() == n * k,
            bias matches Some(b) ==> b@.len() == n,
            residual matches Some(s) ==> s@.len() == m * n,
            args == (ProductArgs {
                x: x@,
                w: w@,
                bias: opt_seq(bias),
                residual: opt_seq(residual),
                k: k as int,
                n: n as int,
                epilogue,
                transpose_w,
            }),
            at == (|i: int| args.element(*e, i / n as int, i % n as int)),
            y@ =~= Seq::new((row * n) as nat, at),
    {
        proof {
            lemma_mul_nonneg(row as int, n as int);
            assert((row + 1) * n == row * n + n) by (nonlinear_arith);
        }
        for col in 0..n
            invariant
                is_double(*e),
                x@.len() == m * k,
                w@.len() == n * k,
                bias matches Some(b) ==> b@.len() == n,
                residual matches Some(s) ==> s@.len() == m * n,
                args == (ProductArgs {
                    x: x@,
                    w: w@,
                    bias: opt_seq(bias),
                    residual: opt_seq(residual),
                    k: k as int,
                    n: n as int,
                    epilogue,
                    transpose_w,
                }),
                row < m,
                0 <= row * n,
                at == (|i: int| args.element(*e, i / n as int, i % n as int)),
                y@ =~= Seq::new((row * n + col) as nat, at),
        {
            let sum: u64 = product_dot(
                e,
                x,
                w,
                m,
                k,
                n,
                transpose_w,
                row,
                col,
                Ghost(args),
            );
            proof {
                lemma_flat_bound(row as int, m as int, col as int, n as int);
                lemma_split(row as int, col as int, n as int);
            }
            let v: u64 = match epilogue {
                Epilogue::Plain => sum,
                Epilogue::Bias => match bias {
                    Some(b) => add_up(e, sum, b[col]),
                    None => sum,
                },
                Epilogue::Residual => match residual {
                    Some(s) => {
                        let len: usize = s.len();
                        add_up(e, sum, s[row * n + col])
                    },
                    None => sum,
                },
                Epilogue::Act(kind) => eval_activation_f64(e, sum, kind),
            };
            assert(v == args.element(*e, row as int, col as int));
            y.push(v);
        }
    }
    assert(y@ =~= Seq::new((m * n) as nat, at));
    y
}

/// Sum of the products of the first elements of two rows.
pub open spec fn row_dot<E: Fn(DoubleOp, u64, u64) -> u64>(
    e: E,
    a: Seq<u64>,
    b: Seq<u64>,
    n: int,
) -> u64
    decreases n,
{
    if n <= 0 {
        0
    } else {
        dp_add(e, row_dot(e, a, b, n - 1), dp_mul(e, a[n - 1], b[n - 1]))
    }
}

/// Sum of the products of two rows, up to the end of the shorter.
pub open spec fn zip_dot<E: Fn(DoubleOp, u64, u64) -> u64>(e: E, a: Seq<u64>, b: Seq<u64>) -> u64 {
    row_dot(
        e,
        a,
        b,
        if a.len() <= b.len() {
            a.len() as int
        } else {
            b.len() as int
        },
    )
}

fn dot_rows<E: Fn(DoubleOp, u64, u64) -> u64>(e: &E, a: &[u64], b: &[u64]) -> (r: u64)
    requires
        is_double(*e),
    ensures
        r == zip_dot(*e, a@, b@),
{
    let n: usize = if a.len() <= b.len() {
        a.len()
    } else {
        b.len()
    };
    let mut acc: u64 = 0;
    for i in 0..n
        invariant
            is_double(*e),
            n <= a@.len(),
            n <= b@.len(),
            acc == row_dot(*e, a@, b@, i as int),
    {
        acc = add_up(e, acc, multiply(e, a[i], b[i]));
    }
    acc
}

/// A sum of products, scaled and capped.
pub open spec fn scored<E: Fn(DoubleOp, u64, u64) -> u64>(
    e: E,
    sum: u64,
    scale: u64,
    softcap: Option<u64>,
) -> u64 {
    let s = dp_mul(e, sum, scale);
    match softcap {
        None => s,
        Some(cap) => capped(e, s, cap),
    }
}

fn score<E: Fn(DoubleOp, u64, u64) -> u64>(e: &E, sum: u64, scale: u64, softcap: Option<u64>) -> (r:
    u64)
    requires
        is_double(*e),
    ensures
        r == scored(*e, sum, scale, softcap),
{
    let s: u64 = multiply(e, sum, scale);
    match softcap {
        None => s,
        Some(cap) => cap_at(e, s, cap),
    }
}

/// The largest of the first numbers.
pub open spec fn largest<E: Fn(DoubleOp, u64, u64) -> u64>(e: E, s: Seq<u64>, n: int) -> u64
    decreases n,
{
    if n <= 0 {
        MINUS_INFINITY
    } else {
        dp(e, DoubleOp::Max, largest(e, s, n - 1), s[n - 1])
    }
}

/// Weight of a score before weights are normalized.
pub open spec fn raw_weight<E: Fn(DoubleOp, u64, u64) -> u64>(e: E, s: Seq<u64>, i: int) -> u64 {
    dp(e, DoubleOp::Exp, dp(e, DoubleOp::Minus, s[i], largest(e, s, s.len() as int)), 0)
}

/// Sum of the first weights.
pub open spec fn weight_sum<E: Fn(DoubleOp, u64, u64) -> u64>(e: E, s: Seq<u64>, n: int) -> u64
    decreases n,
{
    if n <= 0 {
        0
    } else {
        dp_add(e, weight_sum(e, s, n - 1), raw_weight(e, s, n - 1))
    }
}

/// Element of the mean of the first rows, weighted by scores. A row that is
/// too short counts as if it were not there.
pub open spec fn mean_at<E: Fn(DoubleOp, u64, u64) -> u64>(
    e: E,
    s: Seq<u64>,
    rows: Seq<Vec<u64>>,
    j: int,
    n: int,
) -> u64
    decreases n,
{
    if n <= 0 {
        0
    } else {
        let before = mean_at(e, s, rows, j, n - 1);
        if j < rows[n - 1]@.len() {
            let share = dp(
                e,
                DoubleOp::Over,
                raw_weight(e, s, n - 1),
                weight_sum(e, s, s.len() as int),
            );
            dp_add(e, before, dp_mul(e, share, rows[n - 1]@[j]))
        } else {
            before
        }
    }
}

/// Mean of rows, weighted by scores.
pub open spec fn weighted_mean<E: Fn(DoubleOp, u64, u64) -> u64>(
    e: E,
    s: Seq<u64>,
    rows: Seq<Vec<u64>>,
) -> Seq<u64> {
    Seq::new(rows[0]@.len(), |j: int| mean_at(e, s, rows, j, s.len() as int))
}

fn take_mean<E: Fn(DoubleOp, u64, u64) -> u64>(e: &E, scores: &Vec<u64>, rows: &[Vec<u64>]) -> (r:
    Vec<u64>)
    requires
        is_double(*e),
        0 < scores@.len() <= rows@.len(),
    ensures
        r@ == weighted_mean(*e, scores@, rows@),
{
    let n: usize = scores.len();
    let mut top: u64 = MINUS_INFINITY;
    for i in 0..n
        invariant
            is_double(*e),
            n == scores@.len(),
            top == largest(*e, scores@, i as int),
    {
        top = reckon(e, DoubleOp::Max, top, scores[i]);
    }
    let mut weights: Vec<u64> = Vec::new();
    let mut sum: u64 = 0;
    for i in 0..n
        invariant
            is_double(*e),
            n == scores@.len(),
            top == largest(*e, scores@, n as int),
            weights@.len() == i,
            forall|j: int|
                0 <= j < i ==> (#[trigger] weights@[j]) == raw_weight(*e, scores@, j),
            sum == weight_sum(*e, scores@, i as int),
    {
        let w: u64 = reckon(e, DoubleOp::Exp, reckon(e, DoubleOp::Minus, scores[i], top), 0);
        weights.push(w);
        sum = add_up(e, sum, w);
    }
    let width: usize = rows[0].len();
    let mut out: Vec<u64> = Vec::new();
    for j in 0..width
        invariant
            is_double(*e),
            n == scores@.len(),
            n <= rows@.len(),
            n == weights@.len(),
            forall|j: int|
                0 <= j < n ==> (#[trigger] weights@[j]) == raw_weight(*e, scores@, j),
            sum == weight_sum(*e, scores@, n as int),
            out@ =~= Seq::new(j as nat, |j: int| mean_at(*e, scores@, rows@, j, n as int)),
    {
        let mut acc: u64 = 0;
        for i in 0..n
            invariant
                is_double(*e),
                n == scores@.len(),
                n <= rows@.len(),
                n == weights@.len(),
                forall|j: int|
                    0 <= j < n ==> (#[trigger] weights@[j]) == raw_weight(*e, scores@, j),
                sum == weight_sum(*e, scores@, n as int),
                acc == mean_at(*e, scores@, rows@, j as int, i as int),
        {
            if j < rows[i].len() {
                let share: u64 = reckon(e, DoubleOp::Over, weights[i], sum);
                acc = add_up(e, acc, multiply(e, share, rows[i][j]));
            }
        }
        out.push(acc);
    }
    out
}

/// The smaller of two numbers.
pub open spec fn least(a: nat, b: nat) -> nat {
    if a <= b {
        a
    } else {
        b
    }
}

fn zero_row(rows: &[Vec<u64>]) -> (r: Vec<u64>)
    ensures
        r@ == Seq::new(
            if rows@.len() == 0 {
                0
            } else {
                rows@[0]@.len()
            },
            |i: int| 0u64,
        ),
{
    let width: usize = if rows.len() == 0 {
        0
    } else {
        rows[0].len()
    };
    let mut out: Vec<u64> = Vec::new();
    for i in 0..width
        invariant
            out@ =~= Seq::new(i as nat, |i: int| 0u64),
    {
        out.push(0);
    }
    out
}

/// Reference of one query row of attention over a paged cache: rows of keys and
/// values pair up to the end of the shorter list.
pub fn attention_row_f64_reference<E: Fn(DoubleOp, u64, u64) -> u64>(
    e: &E,
    q_row: &[u64],
    k_rows: &[Vec<u64>],
    v_rows: &[Vec<u64>],
    scale: u64,
    softcap: Option<u64>,
) -> (r: Vec<u64>)
    requires
        is_double(*e),
    ensures
        ({
            let n = least(k_rows@.len(), v_rows@.len());
            let scores = Seq::new(
                n,
                |i: int| scored(*e, zip_dot(*e, q_row@, k_rows@[i]@), scale, softcap),
            );
            r@ == if n > 0 {
                weighted_mean(*e, scores, v_rows@)
            } else {
                Seq::new(
                    if v_rows@.len() == 0 {
                        0
                    } else {
                        v_rows@[0]@.len()
                    },
                    |i: int| 0u64,
                )
            }
        }),
{
    let n: usize = if k_rows.len() <= v_rows.len() {
        k_rows.len()
    } else {
        v_rows.len()
    };
    if n == 0 {
        return zero_row(v_rows);
    }
    let mut scores: Vec<u64> = Vec::new();
    for i in 0..n
        invariant
            is_double(*e),
            n <= k_rows@.len(),
            scores@ =~= Seq::new(
                i as nat,
                |i: int| scored(*e, zip_dot(*e, q_row@, k_rows@[i]@), scale, softcap),
            ),
    {
        scores.push(score(e, dot_rows(e, q_row, k_rows[i].as_slice()), scale, softcap));
    }
    take_mean(e, &scores, v_rows)
}

/// Reference of one query row of attention over a latent cache: rows of both
/// parts pair up to the end of the shorter list.
pub fn mla_row_f64_reference<E: Fn(DoubleOp, u64, u64) -> u64>(
    e: &E,
    q_nope: &[u64],
    q_rope: &[u64],
    c_rows: &[Vec<u64>],
    r_rows: &[Vec<u64>],
    scale: u64,
    softcap: Option<u64>,
) -> (r: Vec<u64>)
    requires
        is_double(*e),
    ensures
        ({
            let n = least(c_rows@.len(), r_rows@.len());
            let scores = Seq::new(
                n,
                |i: int|
                    scored(
                        *e,
                        dp_add(
                            *e,
                            zip_dot(*e, q_nope@, c_rows@[i]@),
                            zip_dot(*e, q_rope@, r_rows@[i]@),
                        ),
                        scale,
                        softcap,
                    ),
            );
            r@ == if n > 0 {
                weighted_mean(*e, scores, c_rows@)
            } else {
                Seq::new(
                    if c_rows@.len() == 0 {
                        0
                    } else {
                        c_rows@[0]@.len()
                    },
                    |i: int| 0u64,
                )
            }
        }),
{
    let n: usize = if c_rows.len() <= r_rows.len() {
        c_rows.len()
    } else {
        r_rows.len()
    };
    if n == 0 {
        return zero_row(c_rows);
    }
    let mut scores: Vec<u64> = Vec::new();
    for i in 0..n
        invariant
            is_double(*e),
            n <= c_rows@.len(),
            n <= r_rows@.len(),
            scores@ =~= Seq::new(
                i as nat,
                |i: int|
                    scored(
                        *e,
                        dp_add(
                            *e,
                            zip_dot(*e, q_nope@, c_rows@[i]@),
                            zip_dot(*e, q_rope@, r_rows@[i]@),
                        ),
                        scale,
                        softcap,
                    ),
            ),
    {
        let latent: u64 = dot_rows(e, q_nope, c_rows[i].as_slice());
        let rope: u64 = dot_rows(e, q_rope, r_rows[i].as_slice());
        scores.push(score(e, add_up(e, latent, rope), scale, softcap));
    }
    take_mean(e, &scores, c_rows)
}

} // verus!
