//! Gated linear-attention scan over sequences, with a carried matrix state.
//!
//! Each head of each sequence keeps a matrix. A token scales the matrix by its
//! gate `alpha`, adds `beta` times the outer product of its key and value, and
//! then reads the matrix with its query. Running token by token and running in
//! chunks perform the same operations in the same order for every head.
use vstd::prelude::*;
use crate::arith::{fp_add, fp_mul, is_arith, plus, times, FloatOp};
use crate::buffer::{
    fault_result, lemma_backed_holds, lemma_extent2, lemma_extent3, lemma_extent4, Tensor,
    TensorDataMut, TensorView, TensorViewMut,
};
use crate::causal_conv1d::{check_u32, lemma_count_fits, u32_fault};
use crate::check::{
    attr_error, check_dim, check_dtype, check_float, check_rank, check_row_major, clear, dim_faults,
    dtype_faults, empty_error, fault_if, fault_of, float_faults, float_type, given, invalid_attr,
    is_float, no_problems, or_fault, push_when, rank_faults, row_major_faults,
};
use crate::dtype::{finite, is_finite};
use crate::error::{outcome, plain, quoting, views, Arg, Detail, ErrorView, T0Error};
use crate::index::{lemma_flat_bound, lemma_mul_nonneg, lemma_split};
use crate::ir::{DType, StateHandle, StateKind};
use crate::segments::{
    lemma_slot_of, lemma_start_le, lemma_start_step, slot_of, start_of, total, SeqLayout,
};

verus! {

/// Family of the recurrence; all of them run the same scan.
#[derive(Debug, Clone, Copy, PartialEq, Eq, Structural)]
pub enum LinearAttnKind {
    /// Gated delta network.
    GatedDeltaNet,
    /// Gated linear attention.
    GLA,
    /// State-space model.
    Mamba2,
}

/// Attributes of the scan.
#[derive(Debug, Clone, Copy)]
pub struct LinearAttnScanOp {
    /// Family of the recurrence.
    pub kind: LinearAttnKind,
    /// Tokens per chunk.
    pub chunk: u32,
    /// Type of the output.
    pub out_dtype: DType,
    /// State that holds the matrices.
    pub handle: StateHandle,
}

/// Operands of a scan.
pub struct ScanArgs {
    /// Queries.
    pub q: Tensor,
    /// Keys.
    pub k: Tensor,
    /// Values.
    pub v: Tensor,
    /// Decay gates.
    pub alpha: Tensor,
    /// Input gates.
    pub beta: Tensor,
    /// Carried matrices.
    pub state: Tensor,
    /// Token counts of the sequences.
    pub lens: Seq<u32>,
    /// Number of heads.
    pub h: int,
    /// Width of queries and keys.
    pub d: int,
    /// Width of values.
    pub dv: int,
}

impl ScanArgs {
    /// Row of a token and head in the flattened operands.
    pub open spec fn lane(self, slot: int, row: int, head: int) -> int {
        (start_of(self.lens, slot) + row) * self.h + head
    }

    /// Element of the matrix of a head after the first `r` tokens of a sequence.
    pub open spec fn matrix<F: Fn(FloatOp, u32, u32) -> u32>(
        self,
        f: F,
        slot: int,
        head: int,
        r: int,
        i: int,
        j: int,
    ) -> u32
        decreases r,
    {
        if r <= 0 {
            self.state.cells.f32_at(((slot * self.h + head) * self.d + i) * self.dv + j)
        } else {
            let lane = self.lane(slot, r - 1, head);
            let decayed = fp_mul(
                f,
                self.alpha.cells.f32_at(lane),
                self.matrix(f, slot, head, r - 1, i, j),
            );
            let gated_key = fp_mul(
                f,
                self.beta.cells.f32_at(lane),
                self.k.cells.f32_at(lane * self.d + i),
            );
            fp_add(f, decayed, fp_mul(f, gated_key, self.v.cells.f32_at(lane * self.dv + j)))
        }
    }

    /// First `n` terms of the product of a query with a column of the matrix.
    pub open spec fn dot<F: Fn(FloatOp, u32, u32) -> u32>(
        self,
        f: F,
        slot: int,
        head: int,
        row: int,
        j: int,
        n: int,
    ) -> u32
        decreases n,
    {
        if n <= 0 {
            0
        } else {
            fp_add(
                f,
                self.dot(f, slot, head, row, j, n - 1),
                fp_mul(
                    f,
                    self.q.cells.f32_at(self.lane(slot, row, head) * self.d + n - 1),
                    self.matrix(f, slot, head, row + 1, n - 1, j),
                ),
            )
        }
    }

    /// Output at a flat index.
    pub open spec fn output_at<F: Fn(FloatOp, u32, u32) -> u32>(self, f: F, x: int) -> u32 {
        let lane = x / self.dv;
        let token = lane / self.h;
        let slot = slot_of(self.lens, token);
        self.dot(f, slot, lane % self.h, token - start_of(self.lens, slot), x % self.dv, self.d)
    }

    /// All outputs, token by token.
    pub open spec fn outputs<F: Fn(FloatOp, u32, u32) -> u32>(self, f: F) -> Seq<u32> {
        Seq::new(
            (total(self.lens) * self.h * self.dv) as nat,
            |x: int| self.output_at(f, x),
        )
    }

    /// Element of the matrices of a sequence after `r` tokens, at a flat index.
    pub open spec fn flat_matrix<F: Fn(FloatOp, u32, u32) -> u32>(
        self,
        f: F,
        slot: int,
        r: int,
        x: int,
    ) -> u32 {
        let y = x / self.dv;
        self.matrix(f, slot, y / self.d, r, y % self.d, x % self.dv)
    }

    /// Number of elements of the matrices of one sequence.
    pub open spec fn size(self) -> int {
        self.h * self.d * self.dv
    }

    /// The matrices of a sequence after `r` tokens.
    pub open spec fn matrices<F: Fn(FloatOp, u32, u32) -> u32>(
        self,
        f: F,
        slot: int,
        r: int,
    ) -> Seq<u32> {
        Seq::new(self.size() as nat, |x: int| self.flat_matrix(f, slot, r, x))
    }

    /// The matrices of the first `n` sequences after all their tokens.
    pub open spec fn final_states<F: Fn(FloatOp, u32, u32) -> u32>(
        self,
        f: F,
        n: int,
    ) -> Seq<u32>
        decreases n,
    {
        if n <= 0 {
            Seq::empty()
        } else {
            self.final_states(f, n - 1) + self.matrices(f, n - 1, self.lens[n - 1] as int)
        }
    }

    /// The matrices that the next call carries on, sequence by sequence.
    pub open spec fn states<F: Fn(FloatOp, u32, u32) -> u32>(self, f: F) -> Seq<u32> {
        self.final_states(f, self.lens.len() as int)
    }

    /// Whether the operands have the extents and the storage of the scan.
    pub open spec fn wf(self) -> bool {
        let lanes = total(self.lens) * self.h;
        &&& self.h > 0
        &&& self.d > 0
        &&& self.dv > 0
        &&& self.q.backed()
        &&& self.k.backed()
        &&& self.v.backed()
        &&& self.alpha.backed()
        &&& self.beta.backed()
        &&& self.state.backed()
        &&& self.q.count() == lanes * self.d
        &&& self.k.count() == lanes * self.d
        &&& self.v.count() == lanes * self.dv
        &&& self.alpha.count() == lanes
        &&& self.beta.count() == lanes
        &&& self.state.count() == self.lens.len() * self.h * self.d * self.dv
        &&& total(self.lens) <= u32::MAX
    }
}

/// A token, head and column within bounds have their flat elements in storage.
proof fn lemma_lane(a: ScanArgs, slot: int, row: int, head: int)
    requires
        a.wf(),
        0 <= slot < a.lens.len(),
        0 <= row < a.lens[slot],
        0 <= head < a.h,
    ensures
        0 <= a.lane(slot, row, head) < total(a.lens) * a.h,
        a.lane(slot, row, head) <= usize::MAX,
        a.alpha.cells.holds(a.lane(slot, row, head)),
        a.beta.cells.holds(a.lane(slot, row, head)),
        start_of(a.lens, slot) + row < total(a.lens),
        0 <= (start_of(a.lens, slot) + row) * a.h <= a.lane(slot, row, head),
{
    lemma_start_step(a.lens, slot);
    lemma_start_le(a.lens, slot + 1);
    lemma_flat_bound(start_of(a.lens, slot) + row, total(a.lens) as int, head, a.h);
    lemma_backed_holds(a.alpha, a.lane(slot, row, head));
    lemma_backed_holds(a.beta, a.lane(slot, row, head));
}

/// An element of a row of a flattened operand is in storage.
proof fn lemma_row_holds(t: Tensor, lane: int, lanes: int, i: int, n: int)
    requires
        t.backed(),
        t.count() == lanes * n,
        0 <= lane < lanes,
        0 <= i < n,
    ensures
        t.cells.holds(lane * n + i),
        0 <= lane * n <= lane * n + i <= usize::MAX,
{
    lemma_flat_bound(lane, lanes, i, n);
    lemma_backed_holds(t, lane * n + i);
    lemma_count_fits(t);
}

/// Advances the matrices of a sequence by one token and appends its outputs.
fn scan_token<F: Fn(FloatOp, u32, u32) -> u32>(
    f: &F,
    q: &TensorView<'_>,
    k: &TensorView<'_>,
    v: &TensorView<'_>,
    alpha: &TensorView<'_>,
    beta: &TensorView<'_>,
    h: usize,
    d: usize,
    dv: usize,
    token: usize,
    matrices: &Vec<u32>,
    out: &mut Vec<u32>,
    Ghost(a): Ghost<ScanArgs>,
    Ghost(slot): Ghost<int>,
    Ghost(row): Ghost<int>,
) -> (next: Vec<u32>)
    requires
        is_arith(*f),
        a.wf(),
        a.q == q@,
        a.k == k@,
        a.v == v@,
        a.alpha == alpha@,
        a.beta == beta@,
        a.h == h,
        a.d == d,
        a.dv == dv,
        0 <= slot < a.lens.len(),
        0 <= row < a.lens[slot],
        token == start_of(a.lens, slot) + row,
        matrices@ == a.matrices(*f, slot, row),
        a.size() <= usize::MAX,
        old(out)@ == Seq::new((token * h * dv) as nat, |x: int| a.output_at(*f, x)),
    ensures
        next@ == a.matrices(*f, slot, row + 1),
        final(out)@ == Seq::new(((token + 1) * h * dv) as nat, |x: int| a.output_at(*f, x)),
{
    let mut next: Vec<u32> = Vec::new();
    proof {
        assert((0 * d) * dv == 0) by (nonlinear_arith);
        assert((token * h + 0) * dv == token * h * dv);
    }
    for head in 0..h
        invariant
            is_arith(*f),
            a.wf(),
            a.q == q@,
            a.k == k@,
            a.v == v@,
            a.alpha == alpha@,
            a.beta == beta@,
            a.h == h,
            a.d == d,
            a.dv == dv,
            0 <= slot < a.lens.len(),
            0 <= row < a.lens[slot],
            token == start_of(a.lens, slot) + row,
            matrices@ == a.matrices(*f, slot, row),
            a.size() <= usize::MAX,
            next@.len() == head * d * dv,
            forall|x: int|
                0 <= x < next@.len() ==> next@[x] == #[trigger] a.flat_matrix(*f, slot, row + 1, x),
            out@.len() == (token * h + head) * dv,
            forall|x: int| 0 <= x < out@.len() ==> out@[x] == #[trigger] a.output_at(*f, x),
    {
        proof {
            lemma_lane(a, slot, row, head as int);
        }
        let lane: usize = token * h + head;
        let ga: u32 = alpha.read_f32(lane);
        let gb: u32 = beta.read_f32(lane);
        assert((head * d + 0) * dv == head * d * dv);
        for i in 0..d
            invariant
                is_arith(*f),
                a.wf(),
                a.k == k@,
                a.v == v@,
                a.h == h,
                a.d == d,
                a.dv == dv,
                0 <= slot < a.lens.len(),
                0 <= row < a.lens[slot],
                0 <= head < h,
                lane == a.lane(slot, row, head as int),
                lane < total(a.lens) * a.h,
                ga == a.alpha.cells.f32_at(lane as int),
                gb == a.beta.cells.f32_at(lane as int),
                matrices@ == a.matrices(*f, slot, row),
                a.size() <= usize::MAX,
                next@.len() == (head * d + i) * dv,
                forall|x: int|
                    0 <= x < next@.len() ==> next@[x] == #[trigger] a.flat_matrix(
                        *f,
                        slot,
                        row + 1,
                        x,
                    ),
        {
            proof {
                lemma_row_holds(k@, lane as int, total(a.lens) * a.h, i as int, d as int);
            }
            let ki: u32 = k.read_f32(lane * d + i);
            let bk: u32 = times(f, gb, ki);
            for j in 0..dv
                invariant
                    is_arith(*f),
                    a.wf(),
                    a.k == k@,
                    a.v == v@,
                    a.h == h,
                    a.d == d,
                    a.dv == dv,
                    0 <= slot < a.lens.len(),
                    0 <= row < a.lens[slot],
                    0 <= head < h,
                    0 <= i < d,
                    lane == a.lane(slot, row, head as int),
                    lane < total(a.lens) * a.h,
                    ga == a.alpha.cells.f32_at(lane as int),
                    gb == a.beta.cells.f32_at(lane as int),
                    ki == a.k.cells.f32_at(lane * d + i),
                    bk == fp_mul(*f, gb, ki),
                    matrices@ == a.matrices(*f, slot, row),
                    a.size() <= usize::MAX,
                    next@.len() == (head * d + i) * dv + j,
                    forall|x: int|
                        0 <= x < next@.len() ==> next@[x] == #[trigger] a.flat_matrix(
                            *f,
                            slot,
                            row + 1,
                            x,
                        ),
            {
                let ghost x = (head * d + i) * dv + j;
                proof {
                    lemma_row_holds(v@, lane as int, total(a.lens) * a.h, j as int, dv as int);
                    lemma_flat_bound(head as int, h as int, i as int, d as int);
                    lemma_flat_bound(head * d + i, h * d, j as int, dv as int);
                    lemma_split(head as int, i as int, d as int);
                    lemma_split(head * d + i, j as int, dv as int);
                }
                let at: usize = next.len();
                let m: u32 = matrices[at];
                let vj: u32 = v.read_f32(lane * dv + j);
                let n: u32 = plus(f, times(f, ga, m), times(f, bk, vj));
                assert(m == a.flat_matrix(*f, slot, row, x));
                assert(n == a.flat_matrix(*f, slot, row + 1, x));
                next.push(n);
            }
            proof {
                assert((head * d + i + 1) * dv == (head * d + i) * dv + dv) by (nonlinear_arith);
            }
        }
        proof {
            assert((head * d + d) * dv == (head + 1) * d * dv) by (nonlinear_arith);
        }
        for j in 0..dv
            invariant
                is_arith(*f),
                a.wf(),
                a.q == q@,
                a.h == h,
                a.d == d,
                a.dv == dv,
                0 <= slot < a.lens.len(),
                0 <= row < a.lens[slot],
                token == start_of(a.lens, slot) + row,
                0 <= head < h,
                lane == a.lane(slot, row, head as int),
                lane < total(a.lens) * a.h,
                a.size() <= usize::MAX,
                next@.len() == (head + 1) * d * dv,
                forall|x: int|
                    0 <= x < next@.len() ==> next@[x] == #[trigger] a.flat_matrix(
                        *f,
                        slot,
                        row + 1,
                        x,
                    ),
                out@.len() == lane * dv + j,
                forall|x: int| 0 <= x < out@.len() ==> out@[x] == #[trigger] a.output_at(*f, x),
        {
            let mut acc: u32 = 0;
            for i in 0..d
                invariant
                    is_arith(*f),
                    a.wf(),
                    a.q == q@,
                    a.h == h,
                    a.d == d,
                    a.dv == dv,
                    0 <= slot < a.lens.len(),
                    0 <= row < a.lens[slot],
                    0 <= head < h,
                    0 <= j < dv,
                    lane == a.lane(slot, row, head as int),
                    lane < total(a.lens) * a.h,
                    a.size() <= usize::MAX,
                    next@.len() == (head + 1) * d * dv,
                    forall|x: int|
                        0 <= x < next@.len() ==> next@[x] == #[trigger] a.flat_matrix(
                            *f,
                            slot,
                            row + 1,
                            x,
                        ),
                    acc == a.dot(*f, slot, head as int, row, j as int, i as int),
            {
                let ghost x = (head * d + i) * dv + j;
                proof {
                    lemma_row_holds(q@, lane as int, total(a.lens) * a.h, i as int, d as int);
                    lemma_flat_bound(head as int, h as int, i as int, d as int);
                    lemma_flat_bound(head * d + i, h * d, j as int, dv as int);
                    lemma_flat_bound(head as int, head + 1, i as int, d as int);
                    lemma_flat_bound(head * d + i, (head + 1) * d, j as int, dv as int);
                    lemma_split(head as int, i as int, d as int);
                    lemma_split(head * d + i, j as int, dv as int);
                    assert(h * d <= h * d * dv) by (nonlinear_arith)
                        requires
                            dv > 0,
                            h * d >= 0,
                    ;
                    assert(next@[x] == a.flat_matrix(*f, slot, row + 1, x));
                }
                let m: u32 = next[(head * d + i) * dv + j];
                acc = plus(f, acc, times(f, q.read_f32(lane * d + i), m));
            }
            proof {
                lemma_split(lane as int, j as int, dv as int);
                lemma_split(token as int, head as int, h as int);
                lemma_slot_of(a.lens, slot, row);
                assert(acc == a.output_at(*f, lane * dv + j));
            }
            out.push(acc);
        }
        proof {
            assert((token * h + head + 1) * dv == lane * dv + dv) by (nonlinear_arith)
                requires
                    lane == token * h + head,
            ;
        }
    }
    proof {
        assert((token * h + h) * dv == (token + 1) * h * dv) by (nonlinear_arith);
        assert(next@ =~= a.matrices(*f, slot, row + 1));
        assert(out@ =~= Seq::new(((token + 1) * h * dv) as nat, |x: int| a.output_at(*f, x)));
    }
    next
}

/// Runs the scan over all sequences: token by token, or in chunks of tokens.
/// Returns the outputs and the matrices.
fn run_scan<F: Fn(FloatOp, u32, u32) -> u32>(
    f: &F,
    q: &TensorView<'_>,
    k: &TensorView<'_>,
    v: &TensorView<'_>,
    alpha: &TensorView<'_>,
    beta: &TensorView<'_>,
    state: &TensorView<'_>,
    lens: &[u32],
    h: usize,
    d: usize,
    dv: usize,
    size: usize,
    chunk: usize,
    chunked: bool,
    Ghost(a): Ghost<ScanArgs>,
) -> (r: (Vec<u32>, Vec<u32>))
    requires
        is_arith(*f),
        a.wf(),
        a.q == q@,
        a.k == k@,
        a.v == v@,
        a.alpha == alpha@,
        a.beta == beta@,
        a.state == state@,
        a.lens == lens@,
        a.h == h,
        a.d == d,
        a.dv == dv,
        a.size() == size,
        size <= usize::MAX,
        chunk > 0,
    ensures
        r.0@ == a.outputs(*f),
        r.1@ == a.states(*f),
{
    let mut out: Vec<u32> = Vec::new();
    let mut states: Vec<u32> = Vec::new();
    let mut base: usize = 0;
    proof {
        if lens@.len() > 0 {
            lemma_start_step(lens@, 0);
        } else {
            assert(start_of(lens@, 0) == 0);
        }
        assert(0 * h * dv == 0) by (nonlinear_arith);
        assert(out@ =~= Seq::new((base * h * dv) as nat, |x: int| a.output_at(*f, x)));
        assert(states@ =~= a.final_states(*f, 0));
    }
    for slot in 0..lens.len()
        invariant
            is_arith(*f),
            a.wf(),
            a.q == q@,
            a.k == k@,
            a.v == v@,
            a.alpha == alpha@,
            a.beta == beta@,
            a.state == state@,
            a.lens == lens@,
            a.h == h,
            a.d == d,
            a.dv == dv,
            a.size() == size,
            size <= usize::MAX,
            chunk > 0,
            base == start_of(lens@, slot as int),
            out@ == Seq::new((base * h * dv) as nat, |x: int| a.output_at(*f, x)),
            states@ == a.final_states(*f, slot as int),
    {
        let len: usize = lens[slot] as usize;
        proof {
            lemma_start_step(lens@, slot as int);
            lemma_start_le(lens@, slot + 1);
        }
        let mut matrices: Vec<u32> = load_state::<F>(
            state,
            size,
            slot,
            Ghost(a),
            Ghost(*f),
        );
        if chunked {
            let mut cs: usize = 0;
            while cs < len
                invariant
                    is_arith(*f),
                    a.wf(),
                    a.q == q@,
                    a.k == k@,
                    a.v == v@,
                    a.alpha == alpha@,
                    a.beta == beta@,
                    a.state == state@,
                    a.lens == lens@,
                    a.h == h,
                    a.d == d,
                    a.dv == dv,
                    a.size() == size,
                    size <= usize::MAX,
                    chunk > 0,
                    0 <= slot < lens@.len(),
                    len == lens@[slot as int],
                    base == start_of(lens@, slot as int),
                    base + len <= total(lens@),
                    cs <= len,
                    matrices@ == a.matrices(*f, slot as int, cs as int),
                    out@ == Seq::new(((base + cs) * h * dv) as nat, |x: int| a.output_at(*f, x)),
                decreases len - cs,
            {
                let ce: usize = if chunk < len - cs {
                    cs + chunk
                } else {
                    len
                };
                for r in cs..ce
                    invariant
                        is_arith(*f),
                        a.wf(),
                        a.q == q@,
                        a.k == k@,
                        a.v == v@,
                        a.alpha == alpha@,
                        a.beta == beta@,
                        a.state == state@,
                        a.lens == lens@,
                        a.h == h,
                        a.d == d,
                        a.dv == dv,
                        a.size() == size,
                        size <= usize::MAX,
                        0 <= slot < lens@.len(),
                        len == lens@[slot as int],
                        base == start_of(lens@, slot as int),
                        base + len <= total(lens@),
                        cs < ce <= len,
                        matrices@ == a.matrices(*f, slot as int, r as int),
                        out@ == Seq::new(
                            ((base + r) * h * dv) as nat,
                            |x: int| a.output_at(*f, x),
                        ),
                {
                    matrices =
                    scan_token(
                        f,
                        q,
                        k,
                        v,
                        alpha,
                        beta,
                        h,
                        d,
                        dv,
                        base + r,
                        &matrices,
                        &mut out,
                        Ghost(a),
                        Ghost(slot as int),
                        Ghost(r as int),
                    );
                }
                cs = ce;
            }
        } else {
            for r in 0..len
                invariant
                    is_arith(*f),
                    a.wf(),
                    a.q == q@,
                    a.k == k@,
                    a.v == v@,
                    a.alpha == alpha@,
                    a.beta == beta@,
                    a.state == state@,
                    a.lens == lens@,
                    a.h == h,
                    a.d == d,
                    a.dv == dv,
                    a.size() == size,
                    size <= usize::MAX,
                    0 <= slot < lens@.len(),
                    len == lens@[slot as int],
                    base == start_of(lens@, slot as int),
                    base + len <= total(lens@),
                    matrices@ == a.matrices(*f, slot as int, r as int),
                    out@ == Seq::new(((base + r) * h * dv) as nat, |x: int| a.output_at(*f, x)),
            {
                matrices =
                scan_token(
                    f,
                    q,
                    k,
                    v,
                    alpha,
                    beta,
                    h,
                    d,
                    dv,
                    base + r,
                    &matrices,
                    &mut out,
                    Ghost(a),
                    Ghost(slot as int),
                    Ghost(r as int),
                );
            }
        }
        append_all(&mut states, &matrices);
        base = base + len;
    }
    proof {
        assert(lens@.take(lens@.len() as int) =~= lens@);
        assert(out@ =~= a.outputs(*f));
    }
    (out, states)
}

/// Appends the elements of `src`.
pub fn append_all(dst: &mut Vec<u32>, src: &Vec<u32>)
    ensures
        final(dst)@ == old(dst)@ + src@,
{
    let ghost start = dst@;
    for i in 0..src.len()
        invariant
            dst@ =~= start + src@.take(i as int),
    {
        dst.push(src[i]);
    }
    assert(dst@ =~= start + src@);
}

/// Reads the carried matrices of a sequence.
fn load_state<F: Fn(FloatOp, u32, u32) -> u32>(
    state: &TensorView<'_>,
    size: usize,
    slot: usize,
    Ghost(a): Ghost<ScanArgs>,
    Ghost(f): Ghost<F>,
) -> (r: Vec<u32>)
    requires
        a.wf(),
        a.state == state@,
        a.size() == size,
        0 <= slot < a.lens.len(),
    ensures
        r@ == a.matrices(f, slot as int, 0),
{
    let mut r: Vec<u32> = Vec::new();
    for x in 0..size
        invariant
            a.wf(),
            a.state == state@,
            a.size() == size,
            0 <= slot < a.lens.len(),
            r@ =~= Seq::new(x as nat, |y: int| a.flat_matrix(f, slot as int, 0, y)),
    {
        proof {
            lemma_state_index(a, slot as int, x as int);
            lemma_backed_holds(state@, slot * size + x);
            lemma_count_fits(state@);
        }
        r.push(state.read_f32(slot * size + x));
    }
    assert(r@ =~= a.matrices(f, slot as int, 0));
    r
}

/// The flat index of a matrix element of a sequence.
proof fn lemma_state_index(a: ScanArgs, slot: int, x: int)
    requires
        a.wf(),
        0 <= slot < a.lens.len(),
        0 <= x < a.size(),
    ensures
        0 <= slot * a.size() <= slot * a.size() + x < a.state.count(),
        ((slot * a.h + x / a.dv / a.d) * a.d + x / a.dv % a.d) * a.dv + x % a.dv == slot * a.size()
            + x,
{
    let size = a.size();
    let n = a.lens.len() as int;
    lemma_flat_bound(slot, n, x, size);
    assert(n * a.h * a.d * a.dv == n * size) by (nonlinear_arith)
        requires
            size == a.h * a.d * a.dv,
    ;
    let y = x / a.dv;
    vstd::arithmetic::div_mod::lemma_fundamental_div_mod(x, a.dv);
    vstd::arithmetic::div_mod::lemma_fundamental_div_mod(y, a.d);
    let hd = y / a.d;
    let i = y % a.d;
    let j = x % a.dv;
    assert(((slot * a.h + hd) * a.d + i) * a.dv + j == slot * size + x) by (nonlinear_arith)
        requires
            size == a.h * a.d * a.dv,
            x == a.dv * y + j,
            y == a.d * hd + i,
    ;
}

/// Problems of the operands' ranks, layouts and types and of the attributes.
pub open spec fn scan_form_faults(
    op: LinearAttnScanOp,
    q: Tensor,
    k: Tensor,
    v: Tensor,
    alpha: Tensor,
    beta: Tensor,
    state_in: Tensor,
    o: Tensor,
    state_out: Tensor,
) -> Seq<ErrorView> {
    clear() + rank_faults("q", 3, q.shape) + rank_faults("k", 3, k.shape) + rank_faults(
        "v",
        3,
        v.shape,
    ) + rank_faults("alpha", 2, alpha.shape) + rank_faults("beta", 2, beta.shape) + rank_faults(
        "state_in",
        4,
        state_in.shape,
    ) + rank_faults("o", 3, o.shape) + rank_faults("state_out", 4, state_out.shape)
        + row_major_faults("q", q.layout) + row_major_faults("k", k.layout) + row_major_faults(
        "v",
        v.layout,
    ) + row_major_faults("alpha", alpha.layout) + row_major_faults("beta", beta.layout)
        + row_major_faults("state_in", state_in.layout) + row_major_faults("o", o.layout)
        + row_major_faults("state_out", state_out.layout) + float_faults("q", q.dtype())
        + float_faults("k", k.dtype()) + float_faults("v", v.dtype()) + dtype_faults(
        "k",
        q.dtype(),
        k.dtype(),
    ) + dtype_faults("v", q.dtype(), v.dtype()) + dtype_faults("alpha", DType::F32, alpha.dtype())
        + dtype_faults("beta", DType::F32, beta.dtype()) + dtype_faults(
        "state_in",
        DType::F32,
        state_in.dtype(),
    ) + given(
        !is_float(op.out_dtype),
        attr_error(
            "linear_attn_scan",
            "out_dtype",
            quoting("must be f16, bf16, or f32, got {}", seq![Arg::Type(op.out_dtype)]),
        ),
    ) + dtype_faults("o", op.out_dtype, o.dtype()) + dtype_faults(
        "state_out",
        DType::F32,
        state_out.dtype(),
    ) + given(
        op.chunk == 0,
        attr_error("linear_attn_scan", "chunk", plain("chunk must be > 0")),
    ) + given(
        op.handle.kind != StateKind::Recurrent,
        attr_error(
            "linear_attn_scan",
            "handle",
            quoting("state handle must be Recurrent, got {}", seq![Arg::State(op.handle.kind)]),
        ),
    )
}

/// Problems of a state operand's extents.
pub open spec fn scan_state_faults(
    tensor: &'static str,
    shape: Seq<usize>,
    s: usize,
    h: usize,
    d: usize,
    dv: usize,
) -> Seq<ErrorView> {
    clear() + dim_faults("S", "seq", s, tensor, shape[0]) + dim_faults(
        "H",
        "q",
        h,
        tensor,
        shape[1],
    ) + dim_faults("D", "q", d, tensor, shape[2]) + dim_faults("Dv", "v", dv, tensor, shape[3])
}

/// Problem of a gate that is not finite.
pub open spec fn gate_fault(attribute: &'static str, row: int, head: int, g: u32) -> Seq<
    ErrorView,
> {
    given(
        !is_finite(g),
        attr_error(
            "linear_attn_scan",
            attribute,
            quoting(
                "non-finite gate at (t={}, h={}): {}",
                seq![Arg::Int(row as u64), Arg::Int(head as u64), Arg::Real(g)],
            ),
        ),
    )
}

/// Problems of all gates, where both have room for them. Where one has not, its
/// extents differ from those of the queries, which is a problem by itself.
pub open spec fn all_gate_faults(q: Tensor, alpha: Tensor, beta: Tensor) -> Seq<ErrorView> {
    let n = q.shape[0] * q.shape[1];
    if alpha.cells.required(n) <= alpha.cells.len() && beta.cells.required(n) <= beta.cells.len() {
        gate_faults(alpha, beta, q.shape[1] as int, n)
    } else {
        Seq::empty()
    }
}

/// Problems of the first `n` gates of each kind, in turn.
pub open spec fn gate_faults(alpha: Tensor, beta: Tensor, h: int, n: int) -> Seq<ErrorView>
    decreases n,
{
    if n <= 0 {
        Seq::empty()
    } else {
        let i = n - 1;
        gate_faults(alpha, beta, h, i) + gate_fault("alpha", i / h, i % h, alpha.cells.f32_at(i))
            + gate_fault("beta", i / h, i % h, beta.cells.f32_at(i))
    }
}

/// Problems of the operands' extents.
pub open spec fn scan_dim_faults(
    q: Tensor,
    k: Tensor,
    v: Tensor,
    alpha: Tensor,
    beta: Tensor,
    state_in: Tensor,
    s: usize,
    o: Tensor,
    state_out: Tensor,
) -> Seq<ErrorView> {
    let t = q.shape[0];
    let h = q.shape[1];
    let d = q.shape[2];
    let dv = v.shape[2];
    clear() + dim_faults("T", "q", t, "k", k.shape[0]) + dim_faults("T", "q", t, "v", v.shape[0])
        + dim_faults("T", "q", t, "alpha", alpha.shape[0]) + dim_faults(
        "T",
        "q",
        t,
        "beta",
        beta.shape[0],
    ) + dim_faults("T", "q", t, "o", o.shape[0]) + dim_faults("H", "q", h, "k", k.shape[1])
        + dim_faults("H", "q", h, "v", v.shape[1]) + dim_faults("H", "q", h, "alpha", alpha.shape[1])
        + dim_faults("H", "q", h, "beta", beta.shape[1]) + dim_faults("H", "q", h, "o", o.shape[1])
        + dim_faults("D", "q", d, "k", k.shape[2]) + dim_faults("Dv", "v", dv, "o", o.shape[2])
        + scan_state_faults("state_in", state_in.shape, s, h, d, dv) + scan_state_faults(
        "state_out",
        state_out.shape,
        s,
        h,
        d,
        dv,
    )
}

/// The error of a scan that is found before its extents are compared.
pub open spec fn scan_early_fault(
    op: LinearAttnScanOp,
    q: Tensor,
    k: Tensor,
    v: Tensor,
    alpha: Tensor,
    beta: Tensor,
    state_in: Tensor,
    lens: Seq<u32>,
    o: Tensor,
    state_out: Tensor,
) -> Option<ErrorView> {
    let name = "linear_attn_scan";
    let backing = or_fault(
        or_fault(
            or_fault(
                or_fault(
                    or_fault(
                        or_fault(
                            or_fault(q.backing_fault("q"), k.backing_fault("k")),
                            v.backing_fault("v"),
                        ),
                        alpha.backing_fault("alpha"),
                    ),
                    beta.backing_fault("beta"),
                ),
                state_in.backing_fault("state_in"),
            ),
            o.backing_fault("o"),
        ),
        state_out.backing_fault("state_out"),
    );
    let form = fault_of(scan_form_faults(op, q, k, v, alpha, beta, state_in, o, state_out));
    let empty = fault_if(
        q.shape[0] == 0 || q.shape[1] == 0 || q.shape[2] == 0 || v.shape[2] == 0,
        empty_error(name, "q"),
    );
    let wide = or_fault(
        or_fault(
            or_fault(
                or_fault(u32_fault(name, q.shape[0]), u32_fault(name, q.shape[1])),
                u32_fault(name, q.shape[2]),
            ),
            u32_fault(name, v.shape[2]),
        ),
        u32_fault(name, lens.len() as usize),
    );
    let tokens = SeqLayout::total_fault(lens, "q", q.shape[0]);
    or_fault(or_fault(or_fault(or_fault(backing, form), empty), wide), tokens)
}

/// The error of a scan whose operands or attributes do not fit.
#[verifier::opaque]
pub open spec fn scan_fault(
    op: LinearAttnScanOp,
    q: Tensor,
    k: Tensor,
    v: Tensor,
    alpha: Tensor,
    beta: Tensor,
    state_in: Tensor,
    lens: Seq<u32>,
    o: Tensor,
    state_out: Tensor,
) -> Option<ErrorView> {
    or_fault(
        scan_early_fault(op, q, k, v, alpha, beta, state_in, lens, o, state_out),
        fault_of(
            scan_dim_faults(q, k, v, alpha, beta, state_in, lens.len() as usize, o, state_out)
                + all_gate_faults(q, alpha, beta),
        ),
    )
}

/// Operands of a scan.
pub open spec fn scan_args(
    q: Tensor,
    k: Tensor,
    v: Tensor,
    alpha: Tensor,
    beta: Tensor,
    state_in: Tensor,
    lens: Seq<u32>,
) -> ScanArgs {
    ScanArgs {
        q,
        k,
        v,
        alpha,
        beta,
        state: state_in,
        lens,
        h: q.shape[1] as int,
        d: q.shape[2] as int,
        dv: v.shape[2] as int,
    }
}

/// Checks ranks, layouts, types and attributes.
fn check_scan_form(
    op: &LinearAttnScanOp,
    q: &TensorView<'_>,
    k: &TensorView<'_>,
    v: &TensorView<'_>,
    alpha: &TensorView<'_>,
    beta: &TensorView<'_>,
    state_in: &TensorView<'_>,
    o: &TensorViewMut<'_>,
    state_out: &TensorViewMut<'_>,
) -> (r: Result<(), T0Error>)
    ensures
        outcome(r) == fault_result(
            fault_of(
                scan_form_faults(*op, q@, k@, v@, alpha@, beta@, state_in@, o@, state_out@),
            ),
        ),
        r is Ok ==> scan_form_faults(
            *op,
            q@,
            k@,
            v@,
            alpha@,
            beta@,
            state_in@,
            o@,
            state_out@,
        ).len() == 0,
{
    let mut problems = no_problems();
    check_rank(&mut problems, "q", 3, q.shape());
    check_rank(&mut problems, "k", 3, k.shape());
    check_rank(&mut problems, "v", 3, v.shape());
    check_rank(&mut problems, "alpha", 2, alpha.shape());
    check_rank(&mut problems, "beta", 2, beta.shape());
    check_rank(&mut problems, "state_in", 4, state_in.shape());
    check_rank(&mut problems, "o", 3, o.shape());
    check_rank(&mut problems, "state_out", 4, state_out.shape());
    check_row_major(&mut problems, "q", q.layout());
    check_row_major(&mut problems, "k", k.layout());
    check_row_major(&mut problems, "v", v.layout());
    check_row_major(&mut problems, "alpha", alpha.layout());
    check_row_major(&mut problems, "beta", beta.layout());
    check_row_major(&mut problems, "state_in", state_in.layout());
    check_row_major(&mut problems, "o", o.layout());
    check_row_major(&mut problems, "state_out", state_out.layout());
    check_float(&mut problems, "q", q.dtype());
    check_float(&mut problems, "k", k.dtype());
    check_float(&mut problems, "v", v.dtype());
    check_dtype(&mut problems, "k", q.dtype(), k.dtype());
    check_dtype(&mut problems, "v", q.dtype(), v.dtype());
    check_dtype(&mut problems, "alpha", DType::F32, alpha.dtype());
    check_dtype(&mut problems, "beta", DType::F32, beta.dtype());
    check_dtype(&mut problems, "state_in", DType::F32, state_in.dtype());
    let reason = Detail::one("must be f16, bf16, or f32, got {}", Arg::Type(op.out_dtype));
    push_when(
        &mut problems,
        !float_type(op.out_dtype),
        invalid_attr("linear_attn_scan", "out_dtype", reason),
    );
    check_dtype(&mut problems, "o", op.out_dtype, o.dtype());
    check_dtype(&mut problems, "state_out", DType::F32, state_out.dtype());
    push_when(
        &mut problems,
        op.chunk == 0,
        invalid_attr("linear_attn_scan", "chunk", Detail::plain("chunk must be > 0")),
    );
    let kind = op.handle.kind;
    let reason = Detail::one("state handle must be Recurrent, got {}", Arg::State(kind));
    push_when(
        &mut problems,
        kind != StateKind::Recurrent,
        invalid_attr("linear_attn_scan", "handle", reason),
    );
    T0Error::from_problems(problems)
}

/// Checks the extents of a state operand.
fn check_scan_state(
    problems: &mut Vec<T0Error>,
    tensor: &'static str,
    shape: &[usize],
    s: usize,
    h: usize,
    d: usize,
    dv: usize,
)
    requires
        shape@.len() == 4,
    ensures
        views(final(problems)@) == views(old(problems)@) + scan_state_faults(
            tensor,
            shape@,
            s,
            h,
            d,
            dv,
        ),
{
    let ghost before = views(problems@);
    check_dim(problems, "S", "seq", s, tensor, shape[0]);
    check_dim(problems, "H", "q", h, tensor, shape[1]);
    check_dim(problems, "D", "q", d, tensor, shape[2]);
    check_dim(problems, "Dv", "v", dv, tensor, shape[3]);
    assert(views(problems@) =~= before + scan_state_faults(tensor, shape@, s, h, d, dv));
}

/// Checks that every gate is finite.
fn check_gates(
    problems: &mut Vec<T0Error>,
    alpha: &TensorView<'_>,
    beta: &TensorView<'_>,
    h: usize,
    n: usize,
)
    requires
        h > 0,
        alpha@.cells.required(n as int) <= alpha@.cells.len(),
        beta@.cells.required(n as int) <= beta@.cells.len(),
    ensures
        views(final(problems)@) == views(old(problems)@) + gate_faults(
            alpha@,
            beta@,
            h as int,
            n as int,
        ),
{
    let ghost before = views(problems@);
    assert(before =~= before + gate_faults(alpha@, beta@, h as int, 0));
    for i in 0..n
        invariant
            h > 0,
            alpha@.cells.required(n as int) <= alpha@.cells.len(),
            beta@.cells.required(n as int) <= beta@.cells.len(),
            views(problems@) == before + gate_faults(alpha@, beta@, h as int, i as int),
    {
        let row: usize = i / h;
        let head: usize = i % h;
        let a: u32 = alpha.read_f32(i);
        let reason = Detail::three(
            "non-finite gate at (t={}, h={}): {}",
            Arg::Int(row as u64),
            Arg::Int(head as u64),
            Arg::Real(a),
        );
        push_when(problems, !finite(a), invalid_attr("linear_attn_scan", "alpha", reason));
        let b: u32 = beta.read_f32(i);
        let reason = Detail::three(
            "non-finite gate at (t={}, h={}): {}",
            Arg::Int(row as u64),
            Arg::Int(head as u64),
            Arg::Real(b),
        );
        push_when(problems, !finite(b), invalid_attr("linear_attn_scan", "beta", reason));
        assert(views(problems@) =~= before + gate_faults(alpha@, beta@, h as int, i + 1));
    }
}

/// Checks the extents of all operands and the gates.
fn check_scan_dims(
    q: &TensorView<'_>,
    k: &TensorView<'_>,
    v: &TensorView<'_>,
    alpha: &TensorView<'_>,
    beta: &TensorView<'_>,
    state_in: &TensorView<'_>,
    s: usize,
    o: &TensorViewMut<'_>,
    state_out: &TensorViewMut<'_>,
) -> (r: Result<(), T0Error>)
    requires
        q@.rank() == 3,
        k@.rank() == 3,
        v@.rank() == 3,
        alpha@.rank() == 2,
        beta@.rank() == 2,
        state_in@.rank() == 4,
        o@.rank() == 3,
        state_out@.rank() == 4,
        q@.shape[1] > 0,
        q@.shape[0] * q@.shape[1] <= usize::MAX,
    ensures
        ({
            let faults = scan_dim_faults(
                q@,
                k@,
                v@,
                alpha@,
                beta@,
                state_in@,
                s,
                o@,
                state_out@,
            ) + all_gate_faults(q@, alpha@, beta@);
            &&& outcome(r) == fault_result(fault_of(faults))
            &&& r is Ok ==> faults.len() == 0
        }),
{
    let t: usize = q.shape()[0];
    let h: usize = q.shape()[1];
    let d: usize = q.shape()[2];
    let dv: usize = v.shape()[2];
    let mut problems = no_problems();
    check_dim(&mut problems, "T", "q", t, "k", k.shape()[0]);
    check_dim(&mut problems, "T", "q", t, "v", v.shape()[0]);
    check_dim(&mut problems, "T", "q", t, "alpha", alpha.shape()[0]);
    check_dim(&mut problems, "T", "q", t, "beta", beta.shape()[0]);
    check_dim(&mut problems, "T", "q", t, "o", o.shape()[0]);
    check_dim(&mut problems, "H", "q", h, "k", k.shape()[1]);
    check_dim(&mut problems, "H", "q", h, "v", v.shape()[1]);
    check_dim(&mut problems, "H", "q", h, "alpha", alpha.shape()[1]);
    check_dim(&mut problems, "H", "q", h, "beta", beta.shape()[1]);
    check_dim(&mut problems, "H", "q", h, "o", o.shape()[1]);
    check_dim(&mut problems, "D", "q", d, "k", k.shape()[2]);
    check_dim(&mut problems, "Dv", "v", dv, "o", o.shape()[2]);
    check_scan_state(&mut problems, "state_in", state_in.shape(), s, h, d, dv);
    check_scan_state(&mut problems, "state_out", state_out.shape(), s, h, d, dv);
    if alpha.has_room(t * h) && beta.has_room(t * h) {
        check_gates(&mut problems, alpha, beta, h, t * h);
    } else {
        assert(views(problems@) =~= views(problems@) + all_gate_faults(q@, alpha@, beta@));
    }
    T0Error::from_problems(problems)
}

/// Checks a scan without touching its outputs.
fn validate_scan(
    op: &LinearAttnScanOp,
    q: &TensorView<'_>,
    k: &TensorView<'_>,
    v: &TensorView<'_>,
    alpha: &TensorView<'_>,
    beta: &TensorView<'_>,
    state_in: &TensorView<'_>,
    seq: &SeqLayout,
    o: &TensorViewMut<'_>,
    state_out: &TensorViewMut<'_>,
) -> (r: Result<(), T0Error>)
    ensures
        outcome(r) == fault_result(
            scan_fault(
                *op,
                q@,
                k@,
                v@,
                alpha@,
                beta@,
                state_in@,
                seq.seq_lens@,
                o@,
                state_out@,
            ),
        ),
        r is Ok ==> ({
            let a = scan_args(q@, k@, v@, alpha@, beta@, state_in@, seq.seq_lens@);
            &&& a.wf()
            &&& op.chunk > 0
            &&& q@.rank() == 3
            &&& v@.rank() == 3
            &&& a.size() <= usize::MAX
            &&& a.h * a.d <= usize::MAX
            &&& o@.backed()
            &&& state_out@.backed()
            &&& o@.count() == total(a.lens) * a.h * a.dv
            &&& state_out@.count() == a.lens.len() * a.size()
        }),
{
    proof {
        reveal(scan_fault);
    }
    match q.validate_backing("q") {
        Ok(_) => {},
        Err(e) => {
            return Err(e);
        },
    }
    match k.validate_backing("k") {
        Ok(_) => {},
        Err(e) => {
            return Err(e);
        },
    }
    match v.validate_backing("v") {
        Ok(_) => {},
        Err(e) => {
            return Err(e);
        },
    }
    match alpha.validate_backing("alpha") {
        Ok(_) => {},
        Err(e) => {
            return Err(e);
        },
    }
    match beta.validate_backing("beta") {
        Ok(_) => {},
        Err(e) => {
            return Err(e);
        },
    }
    match state_in.validate_backing("state_in") {
        Ok(_) => {},
        Err(e) => {
            return Err(e);
        },
    }
    match o.validate_backing("o") {
        Ok(_) => {},
        Err(e) => {
            return Err(e);
        },
    }
    match state_out.validate_backing("state_out") {
        Ok(_) => {},
        Err(e) => {
            return Err(e);
        },
    }
    match check_scan_form(op, q, k, v, alpha, beta, state_in, o, state_out) {
        Ok(_) => {},
        Err(e) => {
            return Err(e);
        },
    }
    let t: usize = q.shape()[0];
    let h: usize = q.shape()[1];
    let d: usize = q.shape()[2];
    let dv: usize = v.shape()[2];
    let s: usize = seq.seq_count();
    if h == 0 || d == 0 || dv == 0 || t == 0 {
        return Err(T0Error::EmptyInput { op: "linear_attn_scan", tensor: "q" });
    }
    match check_u32("linear_attn_scan", t) {
        Ok(_) => {},
        Err(e) => {
            return Err(e);
        },
    }
    match check_u32("linear_attn_scan", h) {
        Ok(_) => {},
        Err(e) => {
            return Err(e);
        },
    }
    match check_u32("linear_attn_scan", d) {
        Ok(_) => {},
        Err(e) => {
            return Err(e);
        },
    }
    match check_u32("linear_attn_scan", dv) {
        Ok(_) => {},
        Err(e) => {
            return Err(e);
        },
    }
    match check_u32("linear_attn_scan", s) {
        Ok(_) => {},
        Err(e) => {
            return Err(e);
        },
    }
    match seq.check_total("q", t) {
        Ok(_) => {},
        Err(e) => {
            return Err(e);
        },
    }
    proof {
        lemma_extent3(q@.shape);
    }
    match check_scan_dims(q, k, v, alpha, beta, state_in, s, o, state_out) {
        Ok(_) => {},
        Err(e) => {
            return Err(e);
        },
    }
    proof {
        lemma_scan_fits(
            *op,
            q@,
            k@,
            v@,
            alpha@,
            beta@,
            state_in@,
            seq.seq_lens@,
            o@,
            state_out@,
        );
    }
    Ok(())
}

/// Operands without a problem have the extents of the scan.
pub proof fn lemma_scan_fits(
    op: LinearAttnScanOp,
    q: Tensor,
    k: Tensor,
    v: Tensor,
    alpha: Tensor,
    beta: Tensor,
    state_in: Tensor,
    lens: Seq<u32>,
    o: Tensor,
    state_out: Tensor,
)
    requires
        q.backed(),
        k.backed(),
        v.backed(),
        alpha.backed(),
        beta.backed(),
        state_in.backed(),
        o.backed(),
        state_out.backed(),
        scan_form_faults(op, q, k, v, alpha, beta, state_in, o, state_out).len() == 0,
        q.shape[0] > 0,
        q.shape[1] > 0,
        q.shape[2] > 0,
        v.shape[2] > 0,
        q.shape[0] <= u32::MAX,
        total(lens) == q.shape[0],
        lens.len() <= usize::MAX,
        scan_dim_faults(
            q,
            k,
            v,
            alpha,
            beta,
            state_in,
            lens.len() as usize,
            o,
            state_out,
        ).len() == 0,
    ensures
        ({
            let a = scan_args(q, k, v, alpha, beta, state_in, lens);
            &&& a.wf()
            &&& a.size() <= usize::MAX
            &&& a.h * a.d <= usize::MAX
            &&& o.count() == total(lens) * a.h * a.dv
            &&& state_out.count() == lens.len() * a.size()
        }),
{
    lemma_extent3(q.shape);
    lemma_extent3(k.shape);
    lemma_extent3(v.shape);
    lemma_extent2(alpha.shape);
    lemma_extent2(beta.shape);
    lemma_extent4(state_in.shape);
    lemma_extent3(o.shape);
    lemma_extent4(state_out.shape);
    let a = scan_args(q, k, v, alpha, beta, state_in, lens);
    let n = lens.len() as int;
    if n == 0 {
        assert(total(lens) == 0);
    }
    assert(n * a.h * a.d * a.dv == n * a.size()) by (nonlinear_arith)
        requires
            a.size() == a.h * a.d * a.dv,
    ;
    assert(a.size() <= n * a.size()) by (nonlinear_arith)
        requires
            n >= 1,
            a.size() >= 0,
    ;
    assert(a.h * a.d <= a.size()) by (nonlinear_arith)
        requires
            a.size() == a.h * a.d * a.dv,
            a.dv > 0,
            a.h * a.d >= 0,
    ;
}

/// Checks and runs a scan, and writes its outputs once all are computed.
fn scan_and_commit<F: Fn(FloatOp, u32, u32) -> u32>(
    f: &F,
    op: &LinearAttnScanOp,
    q: &TensorView<'_>,
    k: &TensorView<'_>,
    v: &TensorView<'_>,
    alpha: &TensorView<'_>,
    beta: &TensorView<'_>,
    state_in: &TensorView<'_>,
    seq: &SeqLayout,
    chunked: bool,
    o: &mut TensorViewMut<'_>,
    state_out: &mut TensorViewMut<'_>,
) -> (r: Result<(), T0Error>)
    requires
        is_arith(*f),
    ensures
        outcome(r) == fault_result(
            scan_fault(
                *op,
                q@,
                k@,
                v@,
                alpha@,
                beta@,
                state_in@,
                seq.seq_lens@,
                old(o)@,
                old(state_out)@,
            ),
        ),
        r is Err ==> final(o)@ == old(o)@ && final(state_out)@ == old(state_out)@,
        r is Ok ==> ({
            let a = scan_args(q@, k@, v@, alpha@, beta@, state_in@, seq.seq_lens@);
            &&& final(o)@ == old(o)@.with_cells(old(o)@.cells.with_f32s(a.outputs(*f)))
            &&& final(state_out)@ == old(state_out)@.with_cells(
                old(state_out)@.cells.with_f32s(a.states(*f)),
            )
        }),
        match (old(o).data, final(o).data) {
            (TensorDataMut::F32(a), TensorDataMut::F32(b)) => {
                a@.len() == b@.len() && (*final(a))@ == (*final(b))@
            },
            (TensorDataMut::F16(a), TensorDataMut::F16(b)) => {
                a@.len() == b@.len() && (*final(a))@ == (*final(b))@
            },
            (TensorDataMut::Bf16(a), TensorDataMut::Bf16(b)) => {
                a@.len() == b@.len() && (*final(a))@ == (*final(b))@
            },
            (TensorDataMut::I8(a), TensorDataMut::I8(b)) => {
                a@.len() == b@.len() && (*final(a))@ == (*final(b))@
            },
            (TensorDataMut::U32(a), TensorDataMut::U32(b)) => {
                a@.len() == b@.len() && (*final(a))@ == (*final(b))@
            },
            (TensorDataMut::Bytes(d, a), TensorDataMut::Bytes(e, b)) => {
                d == e && a@.len() == b@.len() && (*final(a))@ == (*final(b))@
            },
            _ => false,
        },
        match (old(state_out).data, final(state_out).data) {
            (TensorDataMut::F32(a), TensorDataMut::F32(b)) => {
                a@.len() == b@.len() && (*final(a))@ == (*final(b))@
            },
            (TensorDataMut::F16(a), TensorDataMut::F16(b)) => {
                a@.len() == b@.len() && (*final(a))@ == (*final(b))@
            },
            (TensorDataMut::Bf16(a), TensorDataMut::Bf16(b)) => {
                a@.len() == b@.len() && (*final(a))@ == (*final(b))@
            },
            (TensorDataMut::I8(a), TensorDataMut::I8(b)) => {
                a@.len() == b@.len() && (*final(a))@ == (*final(b))@
            },
            (TensorDataMut::U32(a), TensorDataMut::U32(b)) => {
                a@.len() == b@.len() && (*final(a))@ == (*final(b))@
            },
            (TensorDataMut::Bytes(d, a), TensorDataMut::Bytes(e, b)) => {
                d == e && a@.len() == b@.len() && (*final(a))@ == (*final(b))@
            },
            _ => false,
        },
{
    match validate_scan(op, q, k, v, alpha, beta, state_in, seq, o, state_out) {
        Ok(_) => {},
        Err(e) => {
            return Err(e);
        },
    }
    let ghost a = scan_args(q@, k@, v@, alpha@, beta@, state_in@, seq.seq_lens@);
    let h: usize = q.shape()[1];
    let d: usize = q.shape()[2];
    let dv: usize = v.shape()[2];
    let size: usize = h * d * dv;
    let (values, states) = run_scan(
        f,
        q,
        k,
        v,
        alpha,
        beta,
        state_in,
        seq.seq_lens(),
        h,
        d,
        dv,
        size,
        op.chunk as usize,
        chunked,
        Ghost(a),
    );
    proof {
        lemma_states_len(a, *f, a.lens.len() as int);
        lemma_mul_nonneg(total(a.lens) as int, a.h);
        lemma_mul_nonneg(total(a.lens) * a.h, a.dv);
    }
    o.write_all(values.as_slice());
    state_out.write_all(states.as_slice());
    Ok(())
}

/// Number of matrix elements of the first `n` sequences.
pub proof fn lemma_states_len<F: Fn(FloatOp, u32, u32) -> u32>(a: ScanArgs, f: F, n: int)
    requires
        a.wf(),
        0 <= n,
    ensures
        a.final_states(f, n).len() == n * a.size(),
    decreases n,
{
    lemma_mul_nonneg(a.h, a.d);
    lemma_mul_nonneg(a.h * a.d, a.dv);
    if n > 0 {
        lemma_states_len(a, f, n - 1);
        assert(n * a.size() == (n - 1) * a.size() + a.size()) by (nonlinear_arith);
    } else {
        assert(n * a.size() == 0) by (nonlinear_arith)
            requires
                n == 0,
        ;
    }
}

/// Runs the scan in chunks of `op.chunk` tokens.
///
/// If an operand or attribute does not fit, neither output changes.
pub fn linear_attn_scan_chunked<F: Fn(FloatOp, u32, u32) -> u32>(
    f: &F,
    op: &LinearAttnScanOp,
    q: &TensorView<'_>,
    k: &TensorView<'_>,
    v: &TensorView<'_>,
    alpha: &TensorView<'_>,
    beta: &TensorView<'_>,
    state_in: &TensorView<'_>,
    seq: &SeqLayout,
    o: &mut TensorViewMut<'_>,
    state_out: &mut TensorViewMut<'_>,
) -> (r: Result<(), T0Error>)
    requires
        is_arith(*f),
    ensures
        outcome(r) == fault_result(
            scan_fault(
                *op,
                q@,
                k@,
                v@,
                alpha@,
                beta@,
                state_in@,
                seq.seq_lens@,
                old(o)@,
                old(state_out)@,
            ),
        ),
        r is Err ==> final(o)@ == old(o)@ && final(state_out)@ == old(state_out)@,
        r is Ok ==> ({
            let a = scan_args(q@, k@, v@, alpha@, beta@, state_in@, seq.seq_lens@);
            &&& final(o)@ == old(o)@.with_cells(old(o)@.cells.with_f32s(a.outputs(*f)))
            &&& final(state_out)@ == old(state_out)@.with_cells(
                old(state_out)@.cells.with_f32s(a.states(*f)),
            )
        }),
        match (old(o).data, final(o).data) {
            (TensorDataMut::F32(a), TensorDataMut::F32(b)) => {
                a@.len() == b@.len() && (*final(a))@ == (*final(b))@
            },
            (TensorDataMut::F16(a), TensorDataMut::F16(b)) => {
                a@.len() == b@.len() && (*final(a))@ == (*final(b))@
            },
            (TensorDataMut::Bf16(a), TensorDataMut::Bf16(b)) => {
                a@.len() == b@.len() && (*final(a))@ == (*final(b))@
            },
            (TensorDataMut::I8(a), TensorDataMut::I8(b)) => {
                a@.len() == b@.len() && (*final(a))@ == (*final(b))@
            },
            (TensorDataMut::U32(a), TensorDataMut::U32(b)) => {
                a@.len() == b@.len() && (*final(a))@ == (*final(b))@
            },
            (TensorDataMut::Bytes(d, a), TensorDataMut::Bytes(e, b)) => {
                d == e && a@.len() == b@.len() && (*final(a))@ == (*final(b))@
            },
            _ => false,
        },
        match (old(state_out).data, final(state_out).data) {
            (TensorDataMut::F32(a), TensorDataMut::F32(b)) => {
                a@.len() == b@.len() && (*final(a))@ == (*final(b))@
            },
            (TensorDataMut::F16(a), TensorDataMut::F16(b)) => {
                a@.len() == b@.len() && (*final(a))@ == (*final(b))@
            },
            (TensorDataMut::Bf16(a), TensorDataMut::Bf16(b)) => {
                a@.len() == b@.len() && (*final(a))@ == (*final(b))@
            },
            (TensorDataMut::I8(a), TensorDataMut::I8(b)) => {
                a@.len() == b@.len() && (*final(a))@ == (*final(b))@
            },
            (TensorDataMut::U32(a), TensorDataMut::U32(b)) => {
                a@.len() == b@.len() && (*final(a))@ == (*final(b))@
            },
            (TensorDataMut::Bytes(d, a), TensorDataMut::Bytes(e, b)) => {
                d == e && a@.len() == b@.len() && (*final(a))@ == (*final(b))@
            },
            _ => false,
        },
{
    scan_and_commit(f, op, q, k, v, alpha, beta, state_in, seq, true, o, state_out)
}

/// Runs the scan token by token.
///
/// If an operand or attribute does not fit, neither output changes.
pub fn linear_attn_scan_recurrent<F: Fn(FloatOp, u32, u32) -> u32>(
    f: &F,
    op: &LinearAttnScanOp,
    q: &TensorView<'_>,
    k: &TensorView<'_>,
    v: &TensorView<'_>,
    alpha: &TensorView<'_>,
    beta: &TensorView<'_>,
    state_in: &TensorView<'_>,
    seq: &SeqLayout,
    o: &mut TensorViewMut<'_>,
    state_out: &mut TensorViewMut<'_>,
) -> (r: Result<(), T0Error>)
    requires
        is_arith(*f),
    ensures
        outcome(r) == fault_result(
            scan_fault(
                *op,
                q@,
                k@,
                v@,
                alpha@,
                beta@,
                state_in@,
                seq.seq_lens@,
                old(o)@,
                old(state_out)@,
            ),
        ),
        r is Err ==> final(o)@ == old(o)@ && final(state_out)@ == old(state_out)@,
        r is Ok ==> ({
            let a = scan_args(q@, k@, v@, alpha@, beta@, state_in@, seq.seq_lens@);
            &&& final(o)@ == old(o)@.with_cells(old(o)@.cells.with_f32s(a.outputs(*f)))
            &&& final(state_out)@ == old(state_out)@.with_cells(
                old(state_out)@.cells.with_f32s(a.states(*f)),
            )
        }),
        match (old(o).data, final(o).data) {
            (TensorDataMut::F32(a), TensorDataMut::F32(b)) => {
                a@.len() == b@.len() && (*final(a))@ == (*final(b))@
            },
            (TensorDataMut::F16(a), TensorDataMut::F16(b)) => {
                a@.len() == b@.len() && (*final(a))@ == (*final(b))@
            },
            (TensorDataMut::Bf16(a), TensorDataMut::Bf16(b)) => {
                a@.len() == b@.len() && (*final(a))@ == (*final(b))@
            },
            (TensorDataMut::I8(a), TensorDataMut::I8(b)) => {
                a@.len() == b@.len() && (*final(a))@ == (*final(b))@
            },
            (TensorDataMut::U32(a), TensorDataMut::U32(b)) => {
                a@.len() == b@.len() && (*final(a))@ == (*final(b))@
            },
            (TensorDataMut::Bytes(d, a), TensorDataMut::Bytes(e, b)) => {
                d == e && a@.len() == b@.len() && (*final(a))@ == (*final(b))@
            },
            _ => false,
        },
        match (old(state_out).data, final(state_out).data) {
            (TensorDataMut::F32(a), TensorDataMut::F32(b)) => {
                a@.len() == b@.len() && (*final(a))@ == (*final(b))@
            },
            (TensorDataMut::F16(a), TensorDataMut::F16(b)) => {
                a@.len() == b@.len() && (*final(a))@ == (*final(b))@
            },
            (TensorDataMut::Bf16(a), TensorDataMut::Bf16(b)) => {
                a@.len() == b@.len() && (*final(a))@ == (*final(b))@
            },
            (TensorDataMut::I8(a), TensorDataMut::I8(b)) => {
                a@.len() == b@.len() && (*final(a))@ == (*final(b))@
            },
            (TensorDataMut::U32(a), TensorDataMut::U32(b)) => {
                a@.len() == b@.len() && (*final(a))@ == (*final(b))@
            },
            (TensorDataMut::Bytes(d, a), TensorDataMut::Bytes(e, b)) => {
                d == e && a@.len() == b@.len() && (*final(a))@ == (*final(b))@
            },
            _ => false,
        },
{
    scan_and_commit(f, op, q, k, v, alpha, beta, state_in, seq, false, o, state_out)
}

/// Whether `first` and `second` run the two parts of the sequences of `whole`:
/// `first` starts from its matrices and `second` from those that `first`
/// leaves.
pub open spec fn is_split<F: Fn(FloatOp, u32, u32) -> u32>(
    f: F,
    whole: ScanArgs,
    first: ScanArgs,
    second: ScanArgs,
) -> bool {
    &&& first.h == whole.h && second.h == whole.h && whole.h > 0
    &&& first.d == whole.d && second.d == whole.d && whole.d > 0
    &&& first.dv == whole.dv && second.dv == whole.dv && whole.dv > 0
    &&& first.lens.len() == whole.lens.len() && second.lens.len() == whole.lens.len()
    &&& forall|slot: int|
        0 <= slot < whole.lens.len() ==> #[trigger] whole.lens[slot] == first.lens[slot]
            + second.lens[slot]
    &&& first.state == whole.state
    &&& forall|slot: int, row: int, head: int|
        0 <= slot < whole.lens.len() && 0 <= row < first.lens[slot] && 0 <= head < whole.h
            ==> #[trigger] same_token(
            first,
            first.lane(slot, row, head),
            whole,
            whole.lane(slot, row, head),
        )
    &&& forall|slot: int, row: int, head: int|
        0 <= slot < whole.lens.len() && 0 <= row < second.lens[slot] && 0 <= head < whole.h
            ==> #[trigger] same_token(
            second,
            second.lane(slot, row, head),
            whole,
            whole.lane(slot, first.lens[slot] + row, head),
        )
    &&& forall|slot: int, head: int, i: int, j: int|
        0 <= slot < whole.lens.len() && 0 <= head < whole.h && 0 <= i < whole.d && 0 <= j
            < whole.dv ==> #[trigger] second.matrix(f, slot, head, 0, i, j) == first.matrix(
            f,
            slot,
            head,
            first.lens[slot] as int,
            i,
            j,
        )
}

/// Whether lane `x` of `a` and lane `y` of `b` have the same gates, query, key
/// and value.
pub open spec fn same_token(a: ScanArgs, x: int, b: ScanArgs, y: int) -> bool {
    &&& a.alpha.cells.f32_at(x) == b.alpha.cells.f32_at(y)
    &&& a.beta.cells.f32_at(x) == b.beta.cells.f32_at(y)
    &&& forall|i: int|
        0 <= i < a.d ==> #[trigger] a.q.cells.f32_at(x * a.d + i) == b.q.cells.f32_at(y * b.d + i)
    &&& forall|i: int|
        0 <= i < a.d ==> #[trigger] a.k.cells.f32_at(x * a.d + i) == b.k.cells.f32_at(y * b.d + i)
    &&& forall|j: int|
        0 <= j < a.dv ==> #[trigger] a.v.cells.f32_at(x * a.dv + j) == b.v.cells.f32_at(
            y * b.dv + j,
        )
}

proof fn lemma_split_matrix<F: Fn(FloatOp, u32, u32) -> u32>(
    f: F,
    whole: ScanArgs,
    first: ScanArgs,
    second: ScanArgs,
    slot: int,
    head: int,
    r: int,
    i: int,
    j: int,
)
    requires
        is_split(f, whole, first, second),
        0 <= slot < whole.lens.len(),
        0 <= head < whole.h,
        0 <= i < whole.d,
        0 <= j < whole.dv,
        0 <= r,
    ensures
        r <= first.lens[slot] ==> first.matrix(f, slot, head, r, i, j) == whole.matrix(
            f,
            slot,
            head,
            r,
            i,
            j,
        ),
        r <= second.lens[slot] ==> second.matrix(f, slot, head, r, i, j) == whole.matrix(
            f,
            slot,
            head,
            first.lens[slot] + r,
            i,
            j,
        ),
    decreases r, 1int,
{
    lemma_split_first(f, whole, first, second, slot, head, r, i, j);
    if r <= second.lens[slot] {
        if r == 0 {
            lemma_split_first(
                f,
                whole,
                first,
                second,
                slot,
                head,
                first.lens[slot] as int,
                i,
                j,
            );
        } else {
            lemma_split_matrix(f, whole, first, second, slot, head, r - 1, i, j);
            assert(same_token(
                second,
                second.lane(slot, r - 1, head),
                whole,
                whole.lane(slot, first.lens[slot] + (r - 1), head),
            ));
        }
    }
}

proof fn lemma_split_first<F: Fn(FloatOp, u32, u32) -> u32>(
    f: F,
    whole: ScanArgs,
    first: ScanArgs,
    second: ScanArgs,
    slot: int,
    head: int,
    r: int,
    i: int,
    j: int,
)
    requires
        is_split(f, whole, first, second),
        0 <= slot < whole.lens.len(),
        0 <= head < whole.h,
        0 <= i < whole.d,
        0 <= j < whole.dv,
        0 <= r,
    ensures
        r <= first.lens[slot] ==> first.matrix(f, slot, head, r, i, j) == whole.matrix(
            f,
            slot,
            head,
            r,
            i,
            j,
        ),
    decreases r, 0int,
{
    if r > 0 && r <= first.lens[slot] {
        lemma_split_first(f, whole, first, second, slot, head, r - 1, i, j);
        assert(same_token(
            first,
            first.lane(slot, r - 1, head),
            whole,
            whole.lane(slot, r - 1, head),
        ));
    }
}

proof fn lemma_split_dot<F: Fn(FloatOp, u32, u32) -> u32>(
    f: F,
    whole: ScanArgs,
    first: ScanArgs,
    second: ScanArgs,
    slot: int,
    head: int,
    row: int,
    j: int,
    n: int,
)
    requires
        is_split(f, whole, first, second),
        0 <= slot < whole.lens.len(),
        0 <= head < whole.h,
        0 <= j < whole.dv,
        0 <= row,
        0 <= n <= whole.d,
    ensures
        row < first.lens[slot] ==> first.dot(f, slot, head, row, j, n) == whole.dot(
            f,
            slot,
            head,
            row,
            j,
            n,
        ),
        row < second.lens[slot] ==> second.dot(f, slot, head, row, j, n) == whole.dot(
            f,
            slot,
            head,
            first.lens[slot] + row,
            j,
            n,
        ),
    decreases n,
{
    if n > 0 {
        lemma_split_dot(f, whole, first, second, slot, head, row, j, n - 1);
        lemma_split_matrix(f, whole, first, second, slot, head, row + 1, n - 1, j);
        if row < first.lens[slot] {
            assert(same_token(
                first,
                first.lane(slot, row, head),
                whole,
                whole.lane(slot, row, head),
            ));
            assert(first.q.cells.f32_at(first.lane(slot, row, head) * first.d + (n - 1))
                == whole.q.cells.f32_at(whole.lane(slot, row, head) * whole.d + (n - 1)));
        }
        if row < second.lens[slot] {
            assert(same_token(
                second,
                second.lane(slot, row, head),
                whole,
                whole.lane(slot, first.lens[slot] + row, head),
            ));
            assert(second.q.cells.f32_at(second.lane(slot, row, head) * second.d + (n - 1))
                == whole.q.cells.f32_at(
                whole.lane(slot, first.lens[slot] + row, head) * whole.d + (n - 1),
            ));
        }
    }
}

/// Continuity: scanning sequences in two parts, the second from the matrices
/// that the first leaves, gives the outputs and the matrices of one scan, bit
/// for bit.
pub proof fn law_scan_continuity<F: Fn(FloatOp, u32, u32) -> u32>(
    f: F,
    whole: ScanArgs,
    first: ScanArgs,
    second: ScanArgs,
)
    requires
        is_split(f, whole, first, second),
    ensures
        forall|slot: int, head: int, row: int, j: int|
            0 <= slot < whole.lens.len() && 0 <= head < whole.h && 0 <= row < first.lens[slot] && 0
                <= j < whole.dv ==> #[trigger] first.dot(f, slot, head, row, j, whole.d)
                == whole.dot(f, slot, head, row, j, whole.d),
        forall|slot: int, head: int, row: int, j: int|
            0 <= slot < whole.lens.len() && 0 <= head < whole.h && 0 <= row < second.lens[slot] && 0
                <= j < whole.dv ==> #[trigger] second.dot(f, slot, head, row, j, whole.d)
                == whole.dot(f, slot, head, first.lens[slot] + row, j, whole.d),
        forall|slot: int, head: int, i: int, j: int|
            0 <= slot < whole.lens.len() && 0 <= head < whole.h && 0 <= i < whole.d && 0 <= j
                < whole.dv ==> #[trigger] second.matrix(
                f,
                slot,
                head,
                second.lens[slot] as int,
                i,
                j,
            ) == whole.matrix(f, slot, head, whole.lens[slot] as int, i, j),
{
    assert forall|slot: int, head: int, row: int, j: int|
        0 <= slot < whole.lens.len() && 0 <= head < whole.h && 0 <= row < first.lens[slot] && 0 <= j
            < whole.dv implies #[trigger] first.dot(f, slot, head, row, j, whole.d) == whole.dot(
        f,
        slot,
        head,
        row,
        j,
        whole.d,
    ) by {
        lemma_split_dot(f, whole, first, second, slot, head, row, j, whole.d);
    }
    assert forall|slot: int, head: int, row: int, j: int|
        0 <= slot < whole.lens.len() && 0 <= head < whole.h && 0 <= row < second.lens[slot] && 0
            <= j < whole.dv implies #[trigger] second.dot(f, slot, head, row, j, whole.d)
        == whole.dot(f, slot, head, first.lens[slot] + row, j, whole.d) by {
        lemma_split_dot(f, whole, first, second, slot, head, row, j, whole.d);
    }
    assert forall|slot: int, head: int, i: int, j: int|
        0 <= slot < whole.lens.len() && 0 <= head < whole.h && 0 <= i < whole.d && 0 <= j
            < whole.dv implies #[trigger] second.matrix(
        f,
        slot,
        head,
        second.lens[slot] as int,
        i,
        j,
    ) == whole.matrix(f, slot, head, whole.lens[slot] as int, i, j) by {
        lemma_split_matrix(
            f,
            whole,
            first,
            second,
            slot,
            head,
            second.lens[slot] as int,
            i,
            j,
        );
        assert(whole.lens[slot] == first.lens[slot] + second.lens[slot]);
    }
}

} // verus!
