//! Continuity of the convolution over calls.
use vstd::prelude::*;
use crate::arith::FloatOp;
use crate::buffer::{Cells, Tensor};
use crate::call_laws::{fits_memory, opt_fits_memory};
use crate::causal_conv1d::{
    conv_args, conv_dim_faults, conv_fault, conv_form_faults, is_split, law_conv_continuity,
    lemma_conv_fits, CausalConv1dOp, ConvArgs,
};
use crate::dtype_laws::law_f16_value_kept;
use crate::error::ErrorView;
use crate::index::{lemma_flat_bound, lemma_split};
use crate::ir::DType;
use crate::segments::{lemma_slot_of, start_of, total};
use crate::storage_laws::{coded, law_write_all_bits, law_write_all_read, stored};

verus! {

/// Outputs and windows that a convolution leaves, or its error.
pub open spec fn conv_result<F: Fn(FloatOp, u32, u32) -> u32>(
    f: F,
    op: CausalConv1dOp,
    x: Tensor,
    w: Tensor,
    bias: Option<Tensor>,
    state_in: Tensor,
    lens: Seq<u32>,
    y: Tensor,
    state_out: Tensor,
) -> Result<(Tensor, Tensor), ErrorView> {
    let a = conv_args(op, x, w, bias, state_in, lens);
    match conv_fault(op, x, w, bias, state_in, lens, y, state_out) {
        Some(e) => Err(e),
        None => Ok(
            (
                y.with_cells(y.cells.with_f32s(a.outputs(f))),
                state_out.with_cells(state_out.cells.with_f32s(a.windows())),
            ),
        ),
    }
}

/// Whether the rows of two runs are the two parts of the rows of a whole run,
/// sequence by sequence.
pub open spec fn rows_split(whole: ConvArgs, first: ConvArgs, second: ConvArgs) -> bool {
    &&& first.lens.len() == whole.lens.len() && second.lens.len() == whole.lens.len()
    &&& forall|slot: int|
        0 <= slot < whole.lens.len() ==> #[trigger] whole.lens[slot] == first.lens[slot]
            + second.lens[slot]
    &&& forall|slot: int, row: int, ch: int|
        0 <= slot < whole.lens.len() && 0 <= row < first.lens[slot] && 0 <= ch < whole.c
            ==> #[trigger] first.row_element(slot, row, ch) == whole.row_element(slot, row, ch)
    &&& forall|slot: int, row: int, ch: int|
        0 <= slot < whole.lens.len() && 0 <= row < second.lens[slot] && 0 <= ch < whole.c
            ==> #[trigger] second.row_element(slot, row, ch) == whole.row_element(
            slot,
            first.lens[slot] + row,
            ch,
        )
}

/// What the absence of a problem says of the operands of a convolution.
pub proof fn lemma_conv_sound(
    op: CausalConv1dOp,
    x: Tensor,
    w: Tensor,
    bias: Option<Tensor>,
    state_in: Tensor,
    lens: Seq<u32>,
    y: Tensor,
    state_out: Tensor,
)
    requires
        conv_fault(op, x, w, bias, state_in, lens, y, state_out) is None,
        fits_memory(x) && fits_memory(w) && opt_fits_memory(bias) && fits_memory(state_in),
        fits_memory(y) && fits_memory(state_out),
        lens.len() <= usize::MAX,
    ensures
        conv_args(op, x, w, bias, state_in, lens).wf(),
        y.backed() && state_out.backed(),
        y.count() == total(lens) * x.shape[1],
        state_out.count() == lens.len() * (op.kernel - 1) * x.shape[1],
        y.dtype() == x.dtype(),
        state_in.dtype() == DType::F16,
        state_out.dtype() == DType::F16,
{
    reveal(conv_fault);
    assert(conv_form_faults(op, x, w, bias, state_in, y, state_out).len() == 0);
    assert(conv_dim_faults(
        op,
        x,
        w,
        bias,
        state_in,
        lens.len() as usize,
        y,
        state_out,
    ).len() == 0);
    lemma_conv_fits(op, x, w, bias, state_in, lens, y, state_out);
}

/// A half-precision element keeps its value when it is stored again.
proof fn lemma_half_kept(c: Cells, i: int)
    requires
        c.dtype() == DType::F16,
    ensures
        stored(DType::F16, c.f32_at(i)) == c.f32_at(i),
{
    match c {
        Cells::F16(s) => {
            law_f16_value_kept(s[i]);
        },
        Cells::Bytes(_, s) => {
            law_f16_value_kept(crate::dtype::le16(s, i * 2));
        },
        _ => {},
    }
}

/// A window of half-precision rows is stored without change.
proof fn lemma_window_kept(a: ConvArgs, i: int)
    requires
        a.x.dtype() == DType::F16,
        a.state.dtype() == DType::F16,
    ensures
        stored(DType::F16, a.window_at(i)) == a.window_at(i),
{
    let row = i / a.c;
    let slot = row / a.hist();
    let abs = a.lens[slot] + row % a.hist();
    let ch = i % a.c;
    if abs < a.hist() {
        lemma_half_kept(a.state.cells, (slot * a.hist() + abs) * a.c + ch);
    } else {
        lemma_half_kept(a.x.cells, (start_of(a.lens, slot) + abs - a.hist()) * a.c + ch);
    }
}

/// What the windows that a run leaves are read as by the next.
proof fn lemma_state_carried(a: ConvArgs, state_out: Tensor, i: int)
    requires
        a.x.dtype() == DType::F16,
        a.state.dtype() == DType::F16,
        state_out.dtype() == DType::F16,
        state_out.backed(),
        state_out.count() == a.windows().len(),
        0 <= i < state_out.count(),
    ensures
        state_out.cells.with_f32s(a.windows()).f32_at(i) == a.window_at(i),
{
    law_write_all_read(state_out.cells, a.windows(), i);
    lemma_window_kept(a, i);
}

/// Continuity: half-precision sequences that are convolved in two calls, the
/// second from the windows that the first leaves, have the outputs and the
/// windows of one call over all rows, bit for bit.
pub proof fn law_conv_calls<F: Fn(FloatOp, u32, u32) -> u32>(
    f: F,
    op: CausalConv1dOp,
    w: Tensor,
    bias: Option<Tensor>,
    state_in: Tensor,
    x: Tensor,
    lens: Seq<u32>,
    y: Tensor,
    state_out: Tensor,
    first_x: Tensor,
    first_lens: Seq<u32>,
    first_y: Tensor,
    between: Tensor,
    second_x: Tensor,
    second_lens: Seq<u32>,
    second_y: Tensor,
    second_state: Tensor,
)
    requires
        fits_memory(w) && opt_fits_memory(bias) && fits_memory(state_in),
        fits_memory(x) && fits_memory(y) && fits_memory(state_out),
        fits_memory(first_x) && fits_memory(first_y) && fits_memory(between),
        fits_memory(second_x) && fits_memory(second_y) && fits_memory(second_state),
        lens.len() <= usize::MAX,
        x.dtype() == DType::F16 && first_x.dtype() == DType::F16 && second_x.dtype() == DType::F16,
        first_x.shape[1] == x.shape[1] && second_x.shape[1] == x.shape[1],
        conv_result(f, op, x, w, bias, state_in, lens, y, state_out) is Ok,
        conv_result(f, op, first_x, w, bias, state_in, first_lens, first_y, between) is Ok,
        ({
            let carried = conv_result(
                f,
                op,
                first_x,
                w,
                bias,
                state_in,
                first_lens,
                first_y,
                between,
            )->Ok_0.1;
            &&& conv_result(
                f,
                op,
                second_x,
                w,
                bias,
                carried,
                second_lens,
                second_y,
                second_state,
            ) is Ok
            &&& rows_split(
                conv_args(op, x, w, bias, state_in, lens),
                conv_args(op, first_x, w, bias, state_in, first_lens),
                conv_args(op, second_x, w, bias, carried, second_lens),
            )
        }),
    ensures
        ({
            let whole = conv_result(f, op, x, w, bias, state_in, lens, y, state_out)->Ok_0;
            let first = conv_result(
                f,
                op,
                first_x,
                w,
                bias,
                state_in,
                first_lens,
                first_y,
                between,
            )->Ok_0;
            let second = conv_result(
                f,
                op,
                second_x,
                w,
                bias,
                first.1,
                second_lens,
                second_y,
                second_state,
            )->Ok_0;
            let c = x.shape[1] as int;
            &&& forall|slot: int, row: int, ch: int|
                #![trigger first.0.cells.raw_at((start_of(first_lens, slot) + row) * c + ch)]
                0 <= slot < lens.len() && 0 <= row < first_lens[slot] && 0 <= ch < c
                    ==> first.0.cells.raw_at((start_of(first_lens, slot) + row) * c + ch)
                    == whole.0.cells.raw_at((start_of(lens, slot) + row) * c + ch)
            &&& forall|slot: int, row: int, ch: int|
                #![trigger second.0.cells.raw_at((start_of(second_lens, slot) + row) * c + ch)]
                0 <= slot < lens.len() && 0 <= row < second_lens[slot] && 0 <= ch < c
                    ==> second.0.cells.raw_at((start_of(second_lens, slot) + row) * c + ch)
                    == whole.0.cells.raw_at(
                    (start_of(lens, slot) + first_lens[slot] + row) * c + ch,
                )
            &&& forall|i: int|
                #![trigger second.1.cells.raw_at(i)]
                0 <= i < state_out.count() ==> second.1.cells.raw_at(i)
                    == whole.1.cells.raw_at(i)
        }),
{
    let a = conv_args(op, x, w, bias, state_in, lens);
    let a1 = conv_args(op, first_x, w, bias, state_in, first_lens);
    let first = conv_result(
        f,
        op,
        first_x,
        w,
        bias,
        state_in,
        first_lens,
        first_y,
        between,
    )->Ok_0;
    let carried = first.1;
    let a2 = conv_args(op, second_x, w, bias, carried, second_lens);
    let whole = conv_result(f, op, x, w, bias, state_in, lens, y, state_out)->Ok_0;
    let second = conv_result(
        f,
        op,
        second_x,
        w,
        bias,
        carried,
        second_lens,
        second_y,
        second_state,
    )->Ok_0;
    let c = a.c;
    lemma_conv_sound(op, x, w, bias, state_in, lens, y, state_out);
    lemma_conv_sound(op, first_x, w, bias, state_in, first_lens, first_y, between);
    lemma_write_form(between, a1.windows());
    lemma_conv_sound(op, second_x, w, bias, carried, second_lens, second_y, second_state);
    assert forall|i: int| 0 <= i < a.lens.len() * a.hist() * a.c implies #[trigger]
        a2.state.cells.f32_at(i) == a1.window_at(i) by {
        lemma_state_carried(a1, between, i);
    }
    assert(is_split(a, a1, a2));
    law_conv_continuity(f, a, a1, a2);
    assert forall|slot: int, row: int, ch: int|
        #![trigger first.0.cells.raw_at((start_of(first_lens, slot) + row) * c + ch)]
        0 <= slot < lens.len() && 0 <= row < first_lens[slot] && 0 <= ch
            < c implies first.0.cells.raw_at((start_of(first_lens, slot) + row) * c + ch)
        == whole.0.cells.raw_at((start_of(lens, slot) + row) * c + ch) by {
        assert(lens[slot] == first_lens[slot] + second_lens[slot]);
        lemma_output_bits(f, a1, first_y, slot, row, ch);
        lemma_output_bits(f, a, y, slot, row, ch);
        assert(a1.output(f, slot, row, ch) == a.output(f, slot, row, ch));
    }
    assert forall|slot: int, row: int, ch: int|
        #![trigger second.0.cells.raw_at((start_of(second_lens, slot) + row) * c + ch)]
        0 <= slot < lens.len() && 0 <= row < second_lens[slot] && 0 <= ch
            < c implies second.0.cells.raw_at((start_of(second_lens, slot) + row) * c + ch)
        == whole.0.cells.raw_at((start_of(lens, slot) + first_lens[slot] + row) * c + ch) by {
        assert(lens[slot] == first_lens[slot] + second_lens[slot]);
        lemma_output_bits(f, a2, second_y, slot, row, ch);
        lemma_output_bits(f, a, y, slot, first_lens[slot] + row, ch);
        assert(a2.output(f, slot, row, ch) == a.output(f, slot, first_lens[slot] + row, ch));
        assert(start_of(lens, slot) + first_lens[slot] + row == start_of(lens, slot) + (
        first_lens[slot] + row));
    }
    assert forall|i: int|
        #![trigger second.1.cells.raw_at(i)]
        0 <= i < state_out.count() implies second.1.cells.raw_at(i) == whole.1.cells.raw_at(i) by {
        law_write_all_bits(state_out.cells, a.windows(), i);
        law_write_all_bits(second_state.cells, a2.windows(), i);
        assert(a2.windows() == a.windows());
    }
}

/// Writing keeps the form of a tensor.
proof fn lemma_write_form(t: Tensor, values: Seq<u32>)
    requires
        t.backed(),
        values.len() == t.count(),
    ensures
        t.with_cells(t.cells.with_f32s(values)).dtype() == t.dtype(),
        t.with_cells(t.cells.with_f32s(values)).cells.len() == t.cells.len(),
{
    if values.len() > 0 {
        law_write_all_read(t.cells, values, 0);
    }
}

/// Bits of an output of a convolution.
proof fn lemma_output_bits<F: Fn(FloatOp, u32, u32) -> u32>(
    f: F,
    a: ConvArgs,
    y: Tensor,
    slot: int,
    row: int,
    ch: int,
)
    requires
        a.wf(),
        y.backed(),
        y.dtype() == DType::F16,
        y.count() == total(a.lens) * a.c,
        0 <= slot < a.lens.len(),
        0 <= row < a.lens[slot],
        0 <= ch < a.c,
    ensures
        y.with_cells(y.cells.with_f32s(a.outputs(f))).cells.raw_at(
            (start_of(a.lens, slot) + row) * a.c + ch,
        ) == coded(DType::F16, a.output(f, slot, row, ch)),
{
    let token = start_of(a.lens, slot) + row;
    lemma_slot_of(a.lens, slot, row);
    lemma_flat_bound(token, total(a.lens) as int, ch, a.c);
    lemma_split(token, ch, a.c);
    law_write_all_bits(y.cells, a.outputs(f), token * a.c + ch);
}

} // verus!
