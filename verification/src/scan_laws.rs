//! What a scan computes: a recurrence over tokens.
use vstd::prelude::*;
use crate::arith::{fp, FloatOp};
use crate::buffer::{lemma_backed_holds, Tensor};
use crate::call_laws::fits_memory;
use crate::error::ErrorView;
use crate::index::{lemma_flat_bound, lemma_split};
use crate::linear_attn_scan::{
    lemma_scan_fits, lemma_states_len, scan_args, scan_dim_faults, scan_early_fault, scan_fault,
    scan_form_faults, LinearAttnScanOp, ScanArgs,
};
use crate::segments::{lemma_slot_of, start_of, total};
use crate::storage_laws::{law_write_all_read, stored};
use crate::sums::{in_order, lemma_in_order_last, lemma_in_order_none};

verus! {

/// Outputs and matrices that a scan leaves, or its error.
pub open spec fn scan_result<F: Fn(FloatOp, u32, u32) -> u32>(
    f: F,
    op: LinearAttnScanOp,
    q: Tensor,
    k: Tensor,
    v: Tensor,
    alpha: Tensor,
    beta: Tensor,
    state_in: Tensor,
    lens: Seq<u32>,
    o: Tensor,
    state_out: Tensor,
) -> Result<(Tensor, Tensor), ErrorView> {
    let a = scan_args(q, k, v, alpha, beta, state_in, lens);
    match scan_fault(op, q, k, v, alpha, beta, state_in, lens, o, state_out) {
        Some(e) => Err(e),
        None => Ok(
            (
                o.with_cells(o.cells.with_f32s(a.outputs(f))),
                state_out.with_cells(state_out.cells.with_f32s(a.states(f))),
            ),
        ),
    }
}

/// What the absence of a problem says of the operands of a scan.
proof fn lemma_scan_sound(
    op: LinearAttnScanOp,
    q: Tensor,
    k: Tensor,
    v: Tensor,
    alpha: Tensor,
    beta: Tensor,
    state_in: Tensor,
    lens: Seq<u32>,
    o: Tensor,
    state_out: Tensor,
)
    requires
        scan_fault(op, q, k, v, alpha, beta, state_in, lens, o, state_out) is None,
        fits_memory(q) && fits_memory(k) && fits_memory(v) && fits_memory(alpha),
        fits_memory(beta) && fits_memory(state_in) && fits_memory(o) && fits_memory(state_out),
        lens.len() <= usize::MAX,
    ensures
        ({
            let a = scan_args(q, k, v, alpha, beta, state_in, lens);
            &&& a.wf()
            &&& o.backed() && state_out.backed()
            &&& o.count() == total(lens) * a.h * a.dv
            &&& state_out.count() == lens.len() * a.size()
        }),
{
    reveal(scan_fault);
    assert(scan_early_fault(op, q, k, v, alpha, beta, state_in, lens, o, state_out) is None);
    assert(scan_form_faults(op, q, k, v, alpha, beta, state_in, o, state_out).len() == 0);
    assert(scan_dim_faults(
        q,
        k,
        v,
        alpha,
        beta,
        state_in,
        lens.len() as usize,
        o,
        state_out,
    ).len() == 0);
    lemma_scan_fits(op, q, k, v, alpha, beta, state_in, lens, o, state_out);
}

/// Matrices of one head of a sequence, by the number of tokens that were taken
/// in, the row and the column: they start as the carried ones, and each token
/// decays them by its first gate and adds the product of its key and its value
/// under its second gate.
pub open spec fn follows_recurrence<F: Fn(FloatOp, u32, u32) -> u32>(
    f: F,
    k: Tensor,
    v: Tensor,
    alpha: Tensor,
    beta: Tensor,
    state_in: Tensor,
    lens: Seq<u32>,
    h: int,
    d: int,
    dv: int,
    slot: int,
    head: int,
    m: spec_fn(int, int, int) -> u32,
) -> bool {
    let lane = |r: int| (start_of(lens, slot) + r) * h + head;
    &&& forall|i: int, j: int|
        0 <= i < d && 0 <= j < dv ==> #[trigger] m(0, i, j) == state_in.cells.f32_at(
            ((slot * h + head) * d + i) * dv + j,
        )
    &&& forall|r: int, i: int, j: int|
        #![trigger m(r + 1, i, j)]
        0 <= r < lens[slot] && 0 <= i < d && 0 <= j < dv ==> m(r + 1, i, j) == fp(
            f,
            FloatOp::Plus,
            fp(f, FloatOp::Times, alpha.cells.f32_at(lane(r)), m(r, i, j)),
            fp(
                f,
                FloatOp::Times,
                fp(
                    f,
                    FloatOp::Times,
                    beta.cells.f32_at(lane(r)),
                    k.cells.f32_at(lane(r) * d + i),
                ),
                v.cells.f32_at(lane(r) * dv + j),
            ),
        )
}

proof fn lemma_matrix<F: Fn(FloatOp, u32, u32) -> u32>(
    f: F,
    a: ScanArgs,
    slot: int,
    head: int,
    m: spec_fn(int, int, int) -> u32,
    r: int,
    i: int,
    j: int,
)
    requires
        follows_recurrence(
            f,
            a.k,
            a.v,
            a.alpha,
            a.beta,
            a.state,
            a.lens,
            a.h,
            a.d,
            a.dv,
            slot,
            head,
            m,
        ),
        0 <= r <= a.lens[slot],
        0 <= i < a.d,
        0 <= j < a.dv,
    ensures
        a.matrix(f, slot, head, r, i, j) == m(r, i, j),
    decreases r,
{
    if r > 0 {
        lemma_matrix(f, a, slot, head, m, r - 1, i, j);
        assert(m((r - 1) + 1, i, j) == m(r, i, j));
    }
}

proof fn lemma_output<F: Fn(FloatOp, u32, u32) -> u32>(
    f: F,
    a: ScanArgs,
    slot: int,
    head: int,
    m: spec_fn(int, int, int) -> u32,
    row: int,
    j: int,
    n: int,
)
    requires
        follows_recurrence(
            f,
            a.k,
            a.v,
            a.alpha,
            a.beta,
            a.state,
            a.lens,
            a.h,
            a.d,
            a.dv,
            slot,
            head,
            m,
        ),
        0 <= row < a.lens[slot],
        0 <= j < a.dv,
        0 <= n <= a.d,
    ensures
        a.dot(f, slot, head, row, j, n) == in_order(
            f,
            FloatOp::Plus,
            0,
            Seq::new(
                n as nat,
                |i: int|
                    fp(
                        f,
                        FloatOp::Times,
                        a.q.cells.f32_at(((start_of(a.lens, slot) + row) * a.h + head) * a.d + i),
                        m(row + 1, i, j),
                    ),
            ),
        ),
    decreases n,
{
    let lane = (start_of(a.lens, slot) + row) * a.h + head;
    let terms = |c: int|
        Seq::new(
            c as nat,
            |i: int| fp(f, FloatOp::Times, a.q.cells.f32_at(lane * a.d + i), m(row + 1, i, j)),
        );
    if n > 0 {
        lemma_output(f, a, slot, head, m, row, j, n - 1);
        lemma_matrix(f, a, slot, head, m, row + 1, n - 1, j);
        lemma_in_order_last(f, FloatOp::Plus, 0, terms(n));
        assert(terms(n).drop_last() =~= terms(n - 1));
        assert(lane * a.d + n - 1 == lane * a.d + (n - 1));
    } else {
        lemma_in_order_none(f, FloatOp::Plus, 0, terms(n));
    }
}

/// Element of the matrices after all sequences.
proof fn lemma_final_state<F: Fn(FloatOp, u32, u32) -> u32>(
    f: F,
    a: ScanArgs,
    n: int,
    slot: int,
    head: int,
    i: int,
    j: int,
)
    requires
        a.wf(),
        0 <= slot < n <= a.lens.len(),
        0 <= head < a.h,
        0 <= i < a.d,
        0 <= j < a.dv,
    ensures
        ({
            let x = ((slot * a.h + head) * a.d + i) * a.dv + j;
            &&& 0 <= x < n * a.size()
            &&& a.final_states(f, n).len() == n * a.size()
            &&& a.final_states(f, n)[x] == a.matrix(
                f,
                slot,
                head,
                a.lens[slot] as int,
                i,
                j,
            )
        }),
    decreases n,
{
    let y = (head * a.d + i) * a.dv + j;
    let x = ((slot * a.h + head) * a.d + i) * a.dv + j;
    lemma_flat_bound(head, a.h, i, a.d);
    lemma_flat_bound(head * a.d + i, a.h * a.d, j, a.dv);
    lemma_split(head, i, a.d);
    lemma_split(head * a.d + i, j, a.dv);
    lemma_states_len(a, f, n);
    lemma_states_len(a, f, n - 1);
    assert(x == slot * a.size() + y) by (nonlinear_arith)
        requires
            x == ((slot * a.h + head) * a.d + i) * a.dv + j,
            y == (head * a.d + i) * a.dv + j,
            a.size() == a.h * a.d * a.dv,
    ;
    lemma_flat_bound(slot, n, y, a.size());
    if slot < n - 1 {
        lemma_final_state(f, a, n - 1, slot, head, i, j);
    } else {
        assert(a.final_states(f, n)[x] == a.matrices(f, slot, a.lens[slot] as int)[y]);
    }
}

/// A scan follows its recurrence: whatever matrices do so, an output is the
/// product of the token's query with the matrix after that token, added up in
/// ascending order, and the matrices that are left are those after the last
/// token.
pub proof fn law_scan_recurrence<F: Fn(FloatOp, u32, u32) -> u32>(
    f: F,
    op: LinearAttnScanOp,
    q: Tensor,
    k: Tensor,
    v: Tensor,
    alpha: Tensor,
    beta: Tensor,
    state_in: Tensor,
    lens: Seq<u32>,
    o: Tensor,
    state_out: Tensor,
    slot: int,
    head: int,
    m: spec_fn(int, int, int) -> u32,
)
    requires
        fits_memory(q) && fits_memory(k) && fits_memory(v) && fits_memory(alpha),
        fits_memory(beta) && fits_memory(state_in) && fits_memory(o) && fits_memory(state_out),
        lens.len() <= usize::MAX,
        scan_result(f, op, q, k, v, alpha, beta, state_in, lens, o, state_out) is Ok,
        0 <= slot < lens.len(),
        0 <= head < q.shape[1],
        follows_recurrence(
            f,
            k,
            v,
            alpha,
            beta,
            state_in,
            lens,
            q.shape[1] as int,
            q.shape[2] as int,
            v.shape[2] as int,
            slot,
            head,
            m,
        ),
    ensures
        ({
            let h = q.shape[1] as int;
            let d = q.shape[2] as int;
            let dv = v.shape[2] as int;
            let after = scan_result(
                f,
                op,
                q,
                k,
                v,
                alpha,
                beta,
                state_in,
                lens,
                o,
                state_out,
            )->Ok_0;
            &&& forall|row: int, j: int|
                #![trigger after.0.cells.f32_at(
                    ((start_of(lens, slot) + row) * h + head) * dv + j,
                )]
                0 <= row < lens[slot] && 0 <= j < dv ==> after.0.cells.f32_at(
                    ((start_of(lens, slot) + row) * h + head) * dv + j,
                ) == stored(
                    o.dtype(),
                    in_order(
                        f,
                        FloatOp::Plus,
                        0,
                        Seq::new(
                            d as nat,
                            |i: int|
                                fp(
                                    f,
                                    FloatOp::Times,
                                    q.cells.f32_at(
                                        ((start_of(lens, slot) + row) * h + head) * d + i,
                                    ),
                                    m(row + 1, i, j),
                                ),
                        ),
                    ),
                )
            &&& forall|i: int, j: int|
                #![trigger after.1.cells.f32_at(((slot * h + head) * d + i) * dv + j)]
                0 <= i < d && 0 <= j < dv ==> after.1.cells.f32_at(
                    ((slot * h + head) * d + i) * dv + j,
                ) == stored(state_out.dtype(), m(lens[slot] as int, i, j))
        }),
{
    let a = scan_args(q, k, v, alpha, beta, state_in, lens);
    let h = a.h;
    let d = a.d;
    let dv = a.dv;
    let after = scan_result(f, op, q, k, v, alpha, beta, state_in, lens, o, state_out)->Ok_0;
    lemma_scan_sound(op, q, k, v, alpha, beta, state_in, lens, o, state_out);
    assert forall|row: int, j: int|
        #![trigger after.0.cells.f32_at(((start_of(lens, slot) + row) * h + head) * dv + j)]
        0 <= row < lens[slot] && 0 <= j < dv implies after.0.cells.f32_at(
        ((start_of(lens, slot) + row) * h + head) * dv + j,
    ) == stored(
        o.dtype(),
        in_order(
            f,
            FloatOp::Plus,
            0,
            Seq::new(
                d as nat,
                |i: int|
                    fp(
                        f,
                        FloatOp::Times,
                        q.cells.f32_at(((start_of(lens, slot) + row) * h + head) * d + i),
                        m(row + 1, i, j),
                    ),
            ),
        ),
    ) by {
        let token = start_of(lens, slot) + row;
        lemma_slot_of(lens, slot, row);
        lemma_flat_bound(token, total(lens) as int, head, h);
        lemma_flat_bound(token * h + head, total(lens) * h, j, dv);
        lemma_split(token, head, h);
        lemma_split(token * h + head, j, dv);
        let x = (token * h + head) * dv + j;
        lemma_backed_holds(o, x);
        law_write_all_read(o.cells, a.outputs(f), x);
        lemma_output(f, a, slot, head, m, row, j, d);
    }
    assert forall|i: int, j: int|
        #![trigger after.1.cells.f32_at(((slot * h + head) * d + i) * dv + j)]
        0 <= i < d && 0 <= j < dv implies after.1.cells.f32_at(
        ((slot * h + head) * d + i) * dv + j,
    ) == stored(state_out.dtype(), m(lens[slot] as int, i, j)) by {
        let x = ((slot * h + head) * d + i) * dv + j;
        lemma_final_state(f, a, lens.len() as int, slot, head, i, j);
        lemma_backed_holds(state_out, x);
        law_write_all_read(state_out.cells, a.states(f), x);
        lemma_matrix(f, a, slot, head, m, lens[slot] as int, i, j);
    }
}

/// A sequence of one token: every element of its matrices is the carried one
/// under the first gate plus the product of key and value under the second.
pub proof fn law_scan_one_token<F: Fn(FloatOp, u32, u32) -> u32>(
    f: F,
    op: LinearAttnScanOp,
    q: Tensor,
    k: Tensor,
    v: Tensor,
    alpha: Tensor,
    beta: Tensor,
    state_in: Tensor,
    lens: Seq<u32>,
    o: Tensor,
    state_out: Tensor,
    slot: int,
    head: int,
    i: int,
    j: int,
)
    requires
        fits_memory(q) && fits_memory(k) && fits_memory(v) && fits_memory(alpha),
        fits_memory(beta) && fits_memory(state_in) && fits_memory(o) && fits_memory(state_out),
        lens.len() <= usize::MAX,
        scan_result(f, op, q, k, v, alpha, beta, state_in, lens, o, state_out) is Ok,
        0 <= slot < lens.len(),
        lens[slot] == 1,
        0 <= head < q.shape[1],
        0 <= i < q.shape[2],
        0 <= j < v.shape[2],
    ensures
        ({
            let h = q.shape[1] as int;
            let d = q.shape[2] as int;
            let dv = v.shape[2] as int;
            let lane = start_of(lens, slot) * h + head;
            let x = ((slot * h + head) * d + i) * dv + j;
            let after = scan_result(
                f,
                op,
                q,
                k,
                v,
                alpha,
                beta,
                state_in,
                lens,
                o,
                state_out,
            )->Ok_0;
            after.1.cells.f32_at(x) == stored(
                state_out.dtype(),
                fp(
                    f,
                    FloatOp::Plus,
                    fp(
                        f,
                        FloatOp::Times,
                        alpha.cells.f32_at(lane),
                        state_in.cells.f32_at(x),
                    ),
                    fp(
                        f,
                        FloatOp::Times,
                        fp(
                            f,
                            FloatOp::Times,
                            beta.cells.f32_at(lane),
                            k.cells.f32_at(lane * d + i),
                        ),
                        v.cells.f32_at(lane * dv + j),
                    ),
                ),
            )
        }),
{
    let a = scan_args(q, k, v, alpha, beta, state_in, lens);
    let m = |r: int, x: int, y: int| a.matrix(f, slot, head, r, x, y);
    lemma_own_recurrence(f, a, slot, head, m);
    law_scan_recurrence(f, op, q, k, v, alpha, beta, state_in, lens, o, state_out, slot, head, m);
    reveal_with_fuel(ScanArgs::matrix, 2);
    assert(m(0int + 1, i, j) == a.matrix(f, slot, head, 1, i, j));
}

proof fn lemma_own_recurrence<F: Fn(FloatOp, u32, u32) -> u32>(
    f: F,
    a: ScanArgs,
    slot: int,
    head: int,
    m: spec_fn(int, int, int) -> u32,
)
    requires
        forall|r: int, i: int, j: int|
            #[trigger] m(r, i, j) == a.matrix(f, slot, head, r, i, j),
    ensures
        follows_recurrence(
            f,
            a.k,
            a.v,
            a.alpha,
            a.beta,
            a.state,
            a.lens,
            a.h,
            a.d,
            a.dv,
            slot,
            head,
            m,
        ),
{
}

/// A closed first gate forgets: where zero times any number is zero, and the last
/// token of a sequence has the first gate zero for a head, the matrices that are
/// left of that head are the same whatever was carried and whatever came before.
pub proof fn law_scan_forgets<F: Fn(FloatOp, u32, u32) -> u32>(
    f: F,
    op: LinearAttnScanOp,
    q: Tensor,
    k: Tensor,
    v: Tensor,
    alpha: Tensor,
    beta: Tensor,
    state_in: Tensor,
    other_state: Tensor,
    lens: Seq<u32>,
    o: Tensor,
    state_out: Tensor,
    slot: int,
    head: int,
    i: int,
    j: int,
)
    requires
        forall|x: u32| #[trigger] fp(f, FloatOp::Times, 0, x) == 0,
        fits_memory(q) && fits_memory(k) && fits_memory(v) && fits_memory(alpha),
        fits_memory(beta) && fits_memory(state_in) && fits_memory(o) && fits_memory(state_out),
        fits_memory(other_state),
        lens.len() <= usize::MAX,
        scan_result(f, op, q, k, v, alpha, beta, state_in, lens, o, state_out) is Ok,
        scan_result(f, op, q, k, v, alpha, beta, other_state, lens, o, state_out) is Ok,
        0 <= slot < lens.len(),
        lens[slot] > 0,
        0 <= head < q.shape[1],
        0 <= i < q.shape[2],
        0 <= j < v.shape[2],
        alpha.cells.f32_at((start_of(lens, slot) + lens[slot] - 1) * q.shape[1] + head) == 0,
    ensures
        ({
            let x = ((slot * q.shape[1] + head) * q.shape[2] + i) * v.shape[2] + j;
            scan_result(
                f,
                op,
                q,
                k,
                v,
                alpha,
                beta,
                state_in,
                lens,
                o,
                state_out,
            )->Ok_0.1.cells.f32_at(x) == scan_result(
                f,
                op,
                q,
                k,
                v,
                alpha,
                beta,
                other_state,
                lens,
                o,
                state_out,
            )->Ok_0.1.cells.f32_at(x)
        }),
{
    let a = scan_args(q, k, v, alpha, beta, state_in, lens);
    let b = scan_args(q, k, v, alpha, beta, other_state, lens);
    let m = |r: int, x: int, y: int| a.matrix(f, slot, head, r, x, y);
    let n = |r: int, x: int, y: int| b.matrix(f, slot, head, r, x, y);
    lemma_own_recurrence(f, a, slot, head, m);
    lemma_own_recurrence(f, b, slot, head, n);
    law_scan_recurrence(f, op, q, k, v, alpha, beta, state_in, lens, o, state_out, slot, head, m);
    law_scan_recurrence(
        f,
        op,
        q,
        k,
        v,
        alpha,
        beta,
        other_state,
        lens,
        o,
        state_out,
        slot,
        head,
        n,
    );
    let r = lens[slot] - 1;
    assert(start_of(lens, slot) + lens[slot] - 1 == start_of(lens, slot) + r);
    assert(m(r + 1, i, j) == n(r + 1, i, j));
}

} // verus!
