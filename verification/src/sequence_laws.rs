//! Independence of sequences in kernels that carry state.
use vstd::prelude::*;
use crate::arith::FloatOp;
use crate::causal_conv1d::ConvArgs;
use crate::index::lemma_split;
use crate::linear_attn_scan::{same_token, ScanArgs};
use crate::segments::{lemma_slot_of, start_of};

verus! {

/// Whether a sequence of one convolution has the tokens and the carried window
/// of a sequence of another with the same taps.
pub open spec fn same_conv_sequence(a: ConvArgs, slot: int, b: ConvArgs, other: int) -> bool {
    &&& a.w == b.w
    &&& a.bias == b.bias
    &&& a.c == b.c
    &&& a.wk == b.wk
    &&& a.act == b.act
    &&& a.lens[slot] == b.lens[other]
    &&& forall|abs: int, ch: int|
        0 <= abs < a.hist() + a.lens[slot] && 0 <= ch < a.c ==> #[trigger] a.history(slot, abs, ch)
            == b.history(other, abs, ch)
}

proof fn lemma_same_sum<F: Fn(FloatOp, u32, u32) -> u32>(
    f: F,
    a: ConvArgs,
    slot: int,
    b: ConvArgs,
    other: int,
    row: int,
    ch: int,
    n: int,
)
    requires
        same_conv_sequence(a, slot, b, other),
        0 <= row < a.lens[slot],
        0 <= ch < a.c,
        n <= a.wk,
    ensures
        a.sum(f, slot, row, ch, n) == b.sum(f, other, row, ch, n),
    decreases n,
{
    if n > 0 {
        lemma_same_sum(f, a, slot, b, other, row, ch, n - 1);
        assert(a.history(slot, row + n - 1, ch) == b.history(other, row + n - 1, ch));
    }
}

/// The output of a token of a convolution depends on its own sequence, not on
/// the batch around it: wherever the same sequence stands in another batch, its
/// outputs have the same bits.
pub proof fn law_conv_independent<F: Fn(FloatOp, u32, u32) -> u32>(
    f: F,
    a: ConvArgs,
    slot: int,
    b: ConvArgs,
    other: int,
    row: int,
    ch: int,
)
    requires
        same_conv_sequence(a, slot, b, other),
        0 <= slot < a.lens.len(),
        0 <= other < b.lens.len(),
        0 <= row < a.lens[slot],
        0 <= ch < a.c,
    ensures
        a.output_at(f, (start_of(a.lens, slot) + row) * a.c + ch) == b.output_at(
            f,
            (start_of(b.lens, other) + row) * b.c + ch,
        ),
{
    let x = start_of(a.lens, slot) + row;
    let y = start_of(b.lens, other) + row;
    lemma_slot_of(a.lens, slot, row);
    lemma_slot_of(b.lens, other, row);
    lemma_split(x, ch, a.c);
    lemma_split(y, ch, b.c);
    lemma_same_sum(f, a, slot, b, other, row, ch, a.wk);
}

/// Whether a sequence of one scan has the tokens and the carried matrices of a
/// sequence of another.
pub open spec fn same_scan_sequence(a: ScanArgs, slot: int, b: ScanArgs, other: int) -> bool {
    &&& a.h == b.h
    &&& a.d == b.d
    &&& a.dv == b.dv
    &&& a.lens[slot] == b.lens[other]
    &&& forall|row: int, head: int|
        0 <= row < a.lens[slot] && 0 <= head < a.h ==> same_token(
            a,
            #[trigger] a.lane(slot, row, head),
            b,
            b.lane(other, row, head),
        )
    &&& forall|head: int, i: int, j: int|
        0 <= head < a.h && 0 <= i < a.d && 0 <= j < a.dv ==> #[trigger] a.state.cells.f32_at(
            ((slot * a.h + head) * a.d + i) * a.dv + j,
        ) == b.state.cells.f32_at(((other * a.h + head) * a.d + i) * a.dv + j)
}

proof fn lemma_same_matrix<F: Fn(FloatOp, u32, u32) -> u32>(
    f: F,
    a: ScanArgs,
    slot: int,
    b: ScanArgs,
    other: int,
    head: int,
    r: int,
    i: int,
    j: int,
)
    requires
        same_scan_sequence(a, slot, b, other),
        0 <= head < a.h,
        0 <= i < a.d,
        0 <= j < a.dv,
        r <= a.lens[slot],
    ensures
        a.matrix(f, slot, head, r, i, j) == b.matrix(f, other, head, r, i, j),
    decreases r,
{
    if r <= 0 {
        assert(a.state.cells.f32_at(((slot * a.h + head) * a.d + i) * a.dv + j)
            == b.state.cells.f32_at(((other * a.h + head) * a.d + i) * a.dv + j));
    } else {
        lemma_same_matrix(f, a, slot, b, other, head, r - 1, i, j);
        let x = a.lane(slot, r - 1, head);
        let y = b.lane(other, r - 1, head);
        assert(same_token(a, x, b, y));
        assert(a.k.cells.f32_at(x * a.d + i) == b.k.cells.f32_at(y * b.d + i));
        assert(a.v.cells.f32_at(x * a.dv + j) == b.v.cells.f32_at(y * b.dv + j));
    }
}

proof fn lemma_same_dot<F: Fn(FloatOp, u32, u32) -> u32>(
    f: F,
    a: ScanArgs,
    slot: int,
    b: ScanArgs,
    other: int,
    head: int,
    row: int,
    j: int,
    n: int,
)
    requires
        same_scan_sequence(a, slot, b, other),
        0 <= head < a.h,
        0 <= row < a.lens[slot],
        0 <= j < a.dv,
        n <= a.d,
    ensures
        a.dot(f, slot, head, row, j, n) == b.dot(f, other, head, row, j, n),
    decreases n,
{
    if n > 0 {
        lemma_same_dot(f, a, slot, b, other, head, row, j, n - 1);
        lemma_same_matrix(f, a, slot, b, other, head, row + 1, n - 1, j);
        let x = a.lane(slot, row, head);
        let y = b.lane(other, row, head);
        assert(same_token(a, x, b, y));
        assert(a.q.cells.f32_at(x * a.d + (n - 1)) == b.q.cells.f32_at(y * b.d + (n - 1)));
    }
}

/// The outputs and the matrices of a scanned sequence depend on that sequence,
/// not on the batch around it: wherever the same sequence stands in another
/// batch, they have the same bits.
pub proof fn law_scan_independent<F: Fn(FloatOp, u32, u32) -> u32>(
    f: F,
    a: ScanArgs,
    slot: int,
    b: ScanArgs,
    other: int,
    row: int,
    head: int,
    i: int,
    j: int,
)
    requires
        same_scan_sequence(a, slot, b, other),
        0 <= slot < a.lens.len(),
        0 <= other < b.lens.len(),
        0 <= row < a.lens[slot],
        0 <= head < a.h,
        0 <= i < a.d,
        0 <= j < a.dv,
    ensures
        a.output_at(f, a.lane(slot, row, head) * a.dv + j) == b.output_at(
            f,
            b.lane(other, row, head) * b.dv + j,
        ),
        a.matrix(f, slot, head, a.lens[slot] as int, i, j) == b.matrix(
            f,
            other,
            head,
            b.lens[other] as int,
            i,
            j,
        ),
{
    let x = start_of(a.lens, slot) + row;
    let y = start_of(b.lens, other) + row;
    lemma_slot_of(a.lens, slot, row);
    lemma_slot_of(b.lens, other, row);
    lemma_split(x, head, a.h);
    lemma_split(y, head, b.h);
    lemma_split(a.lane(slot, row, head), j, a.dv);
    lemma_split(b.lane(other, row, head), j, b.dv);
    lemma_same_dot(f, a, slot, b, other, head, row, j, a.d);
    lemma_same_matrix(f, a, slot, b, other, head, a.lens[slot] as int, i, j);
}

} // verus!
