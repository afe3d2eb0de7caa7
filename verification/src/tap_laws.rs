//! What a convolution computes: weighted sums over a sliding window.
use vstd::prelude::*;
use crate::arith::{fp, fp_neg, FloatOp};
use crate::buffer::{lemma_backed_holds, Tensor};
use crate::call_laws::{fits_memory, opt_fits_memory};
use crate::causal_conv1d::{conv_args, CausalConv1dOp, ConvActivation, ConvArgs};
use crate::conv_laws::{conv_result, lemma_conv_sound};
use crate::index::{lemma_flat_bound, lemma_split};
use crate::segments::{lemma_slot_of, start_of, total};
use crate::storage_laws::{law_write_all_read, stored};
use crate::sums::{in_order, lemma_in_order_last, lemma_in_order_none};

verus! {

/// Channel of a sequence in time: the carried window, then the rows of the
/// sequence.
pub open spec fn is_signal(
    op: CausalConv1dOp,
    x: Tensor,
    state_in: Tensor,
    lens: Seq<u32>,
    slot: int,
    ch: int,
    signal: Seq<u32>,
) -> bool {
    let hist = op.kernel - 1;
    let c = x.shape[1] as int;
    &&& signal.len() == hist + lens[slot]
    &&& forall|n: int|
        0 <= n < hist ==> #[trigger] signal[n] == state_in.cells.f32_at(
            (slot * hist + n) * c + ch,
        )
    &&& forall|n: int|
        hist <= n < signal.len() ==> #[trigger] signal[n] == x.cells.f32_at(
            (start_of(lens, slot) + (n - hist)) * c + ch,
        )
}

/// Sum of a bias and a window of a signal under taps, in ascending order, and
/// then under the activation.
pub open spec fn tapped<F: Fn(FloatOp, u32, u32) -> u32>(
    f: F,
    act: ConvActivation,
    bias: u32,
    taps: Seq<u32>,
    window: Seq<u32>,
) -> u32 {
    let s = in_order(
        f,
        FloatOp::Plus,
        bias,
        Seq::new(taps.len(), |t: int| fp(f, FloatOp::Times, taps[t], window[t])),
    );
    match act {
        ConvActivation::Identity => s,
        ConvActivation::Silu => fp(
            f,
            FloatOp::Over,
            s,
            fp(f, FloatOp::Plus, 0x3F80_0000, fp(f, FloatOp::Exp, fp_neg(s), 0)),
        ),
    }
}

proof fn lemma_tap_sum<F: Fn(FloatOp, u32, u32) -> u32>(
    f: F,
    a: ConvArgs,
    slot: int,
    row: int,
    ch: int,
    n: int,
)
    requires
        0 <= n,
    ensures
        a.sum(f, slot, row, ch, n) == in_order(
            f,
            FloatOp::Plus,
            match a.bias {
                Some(b) => b.cells.f32_at(ch),
                None => 0,
            },
            Seq::new(
                n as nat,
                |t: int|
                    fp(
                        f,
                        FloatOp::Times,
                        a.w.cells.f32_at(ch * a.wk + t),
                        a.history(slot, row + t, ch),
                    ),
            ),
        ),
    decreases n,
{
    let start = match a.bias {
        Some(b) => b.cells.f32_at(ch),
        None => 0,
    };
    let terms = |c: int|
        Seq::new(
            c as nat,
            |t: int|
                fp(
                    f,
                    FloatOp::Times,
                    a.w.cells.f32_at(ch * a.wk + t),
                    a.history(slot, row + t, ch),
                ),
        );
    if n > 0 {
        lemma_tap_sum(f, a, slot, row, ch, n - 1);
        lemma_in_order_last(f, FloatOp::Plus, start, terms(n));
        assert(terms(n).drop_last() =~= terms(n - 1));
        assert(ch * a.wk + n - 1 == ch * a.wk + (n - 1));
        assert(row + n - 1 == row + (n - 1));
    } else {
        lemma_in_order_none(f, FloatOp::Plus, start, terms(n));
    }
}

/// A convolution slides its taps over each channel: the output of a row is the
/// sum over the window that ends at that row, under the channel's own taps and
/// bias, and the window that is left is the end of the signal.
pub proof fn law_conv_taps<F: Fn(FloatOp, u32, u32) -> u32>(
    f: F,
    op: CausalConv1dOp,
    x: Tensor,
    w: Tensor,
    bias: Option<Tensor>,
    state_in: Tensor,
    lens: Seq<u32>,
    y: Tensor,
    state_out: Tensor,
    slot: int,
    ch: int,
    signal: Seq<u32>,
)
    requires
        fits_memory(x) && fits_memory(w) && opt_fits_memory(bias) && fits_memory(state_in),
        fits_memory(y) && fits_memory(state_out),
        lens.len() <= usize::MAX,
        conv_result(f, op, x, w, bias, state_in, lens, y, state_out) is Ok,
        0 <= slot < lens.len(),
        0 <= ch < x.shape[1],
        is_signal(op, x, state_in, lens, slot, ch, signal),
    ensures
        ({
            let c = x.shape[1] as int;
            let wk = op.kernel as int;
            let after = conv_result(f, op, x, w, bias, state_in, lens, y, state_out)->Ok_0;
            &&& forall|row: int|
                #![trigger after.0.cells.f32_at((start_of(lens, slot) + row) * c + ch)]
                0 <= row < lens[slot] ==> after.0.cells.f32_at(
                    (start_of(lens, slot) + row) * c + ch,
                ) == stored(
                    y.dtype(),
                    tapped(
                        f,
                        op.act,
                        match bias {
                            Some(b) => b.cells.f32_at(ch),
                            None => 0,
                        },
                        Seq::new(wk as nat, |t: int| w.cells.f32_at(ch * wk + t)),
                        signal.subrange(row, row + wk),
                    ),
                )
            &&& forall|n: int|
                #![trigger after.1.cells.f32_at((slot * (wk - 1) + n) * c + ch)]
                0 <= n < wk - 1 ==> after.1.cells.f32_at((slot * (wk - 1) + n) * c + ch) == stored(
                    state_out.dtype(),
                    signal[signal.len() - (wk - 1) + n],
                )
        }),
{
    let a = conv_args(op, x, w, bias, state_in, lens);
    let c = a.c;
    let wk = a.wk;
    let hist = a.hist();
    let after = conv_result(f, op, x, w, bias, state_in, lens, y, state_out)->Ok_0;
    lemma_conv_sound(op, x, w, bias, state_in, lens, y, state_out);
    let start = match bias {
        Some(b) => b.cells.f32_at(ch),
        None => 0,
    };
    let taps = Seq::new(wk as nat, |t: int| w.cells.f32_at(ch * wk + t));
    assert forall|n: int| 0 <= n < signal.len() implies #[trigger] a.history(slot, n, ch)
        == signal[n] by {
        if n >= hist {
            assert(start_of(lens, slot) + n - hist == start_of(lens, slot) + (n - hist));
        }
    }
    assert forall|row: int|
        #![trigger after.0.cells.f32_at((start_of(lens, slot) + row) * c + ch)]
        0 <= row < lens[slot] implies after.0.cells.f32_at((start_of(lens, slot) + row) * c + ch)
        == stored(
        y.dtype(),
        tapped(f, op.act, start, taps, signal.subrange(row, row + wk)),
    ) by {
        let token = start_of(lens, slot) + row;
        lemma_slot_of(lens, slot, row);
        lemma_flat_bound(token, total(lens) as int, ch, c);
        lemma_split(token, ch, c);
        lemma_backed_holds(y, token * c + ch);
        law_write_all_read(y.cells, a.outputs(f), token * c + ch);
        lemma_tap_sum(f, a, slot, row, ch, wk);
        let window = signal.subrange(row, row + wk);
        let left = Seq::new(
            wk as nat,
            |t: int|
                fp(
                    f,
                    FloatOp::Times,
                    a.w.cells.f32_at(ch * a.wk + t),
                    a.history(slot, row + t, ch),
                ),
        );
        let right = Seq::new(taps.len(), |t: int| fp(f, FloatOp::Times, taps[t], window[t]));
        assert forall|t: int| 0 <= t < wk implies left[t] == right[t] by {
            assert(a.history(slot, row + t, ch) == signal[row + t]);
        }
        assert(left =~= right);
    }
    assert forall|n: int|
        #![trigger after.1.cells.f32_at((slot * (wk - 1) + n) * c + ch)]
        0 <= n < wk - 1 implies after.1.cells.f32_at((slot * (wk - 1) + n) * c + ch) == stored(
        state_out.dtype(),
        signal[signal.len() - (wk - 1) + n],
    ) by {
        let r = slot * hist + n;
        lemma_flat_bound(slot, lens.len() as int, n, hist);
        lemma_flat_bound(r, lens.len() * hist, ch, c);
        lemma_split(slot, n, hist);
        lemma_split(r, ch, c);
        lemma_backed_holds(state_out, r * c + ch);
        law_write_all_read(state_out.cells, a.windows(), r * c + ch);
        assert(a.history(slot, lens[slot] + n, ch) == signal[lens[slot] + n]);
    }
}

/// Channels are convolved apart: a channel of a convolution has the outputs and
/// the window of a convolution over that channel alone, with its row of taps and
/// its bias.
pub proof fn law_conv_depthwise<F: Fn(FloatOp, u32, u32) -> u32>(
    f: F,
    op: CausalConv1dOp,
    lens: Seq<u32>,
    x: Tensor,
    w: Tensor,
    bias: Option<Tensor>,
    state_in: Tensor,
    y: Tensor,
    state_out: Tensor,
    ch: int,
    one_x: Tensor,
    one_w: Tensor,
    one_bias: Option<Tensor>,
    one_state: Tensor,
    one_y: Tensor,
    one_out: Tensor,
    slot: int,
)
    requires
        fits_memory(x) && fits_memory(w) && opt_fits_memory(bias) && fits_memory(state_in),
        fits_memory(y) && fits_memory(state_out),
        fits_memory(one_x) && fits_memory(one_w) && opt_fits_memory(one_bias),
        fits_memory(one_state) && fits_memory(one_y) && fits_memory(one_out),
        lens.len() <= usize::MAX,
        conv_result(f, op, x, w, bias, state_in, lens, y, state_out) is Ok,
        conv_result(f, op, one_x, one_w, one_bias, one_state, lens, one_y, one_out) is Ok,
        one_x.shape[1] == 1,
        one_y.dtype() == y.dtype(),
        one_out.dtype() == state_out.dtype(),
        0 <= slot < lens.len(),
        0 <= ch < x.shape[1],
        forall|n: int|
            #![trigger one_x.cells.f32_at(n)]
            0 <= n < total(lens) ==> one_x.cells.f32_at(n) == x.cells.f32_at(
                n * x.shape[1] + ch,
            ),
        forall|n: int|
            #![trigger one_state.cells.f32_at(n)]
            0 <= n < lens.len() * (op.kernel - 1) ==> one_state.cells.f32_at(n)
                == state_in.cells.f32_at(n * x.shape[1] + ch),
        forall|t: int|
            #![trigger one_w.cells.f32_at(t)]
            0 <= t < op.kernel ==> one_w.cells.f32_at(t) == w.cells.f32_at(ch * op.kernel + t),
        match (bias, one_bias) {
            (Some(b), Some(one)) => one.cells.f32_at(0) == b.cells.f32_at(ch),
            (None, None) => true,
            _ => false,
        },
    ensures
        ({
            let c = x.shape[1] as int;
            let hist = op.kernel - 1;
            let many = conv_result(f, op, x, w, bias, state_in, lens, y, state_out)->Ok_0;
            let one = conv_result(
                f,
                op,
                one_x,
                one_w,
                one_bias,
                one_state,
                lens,
                one_y,
                one_out,
            )->Ok_0;
            &&& forall|row: int|
                #![trigger many.0.cells.f32_at((start_of(lens, slot) + row) * c + ch)]
                0 <= row < lens[slot] ==> many.0.cells.f32_at(
                    (start_of(lens, slot) + row) * c + ch,
                ) == one.0.cells.f32_at(start_of(lens, slot) + row)
            &&& forall|n: int|
                #![trigger many.1.cells.f32_at((slot * hist + n) * c + ch)]
                0 <= n < hist ==> many.1.cells.f32_at((slot * hist + n) * c + ch)
                    == one.1.cells.f32_at(slot * hist + n)
        }),
{
    let c = x.shape[1] as int;
    let wk = op.kernel as int;
    let hist = wk - 1;
    lemma_conv_sound(op, x, w, bias, state_in, lens, y, state_out);
    lemma_conv_sound(op, one_x, one_w, one_bias, one_state, lens, one_y, one_out);
    let begin = start_of(lens, slot) as int;
    let signal = Seq::new(
        (hist + lens[slot]) as nat,
        |n: int|
            if n < hist {
                state_in.cells.f32_at((slot * hist + n) * c + ch)
            } else {
                x.cells.f32_at((begin + (n - hist)) * c + ch)
            },
    );
    assert forall|n: int| 0 <= n < hist implies #[trigger] signal[n] == one_state.cells.f32_at(
        (slot * hist + n) * 1 + 0,
    ) by {
        lemma_flat_bound(slot, lens.len() as int, n, hist);
        assert((slot * hist + n) * 1 + 0 == slot * hist + n);
    }
    assert forall|n: int| hist <= n < signal.len() implies #[trigger] signal[n]
        == one_x.cells.f32_at((begin + (n - hist)) * 1 + 0) by {
        lemma_slot_of(lens, slot, n - hist);
        assert((begin + (n - hist)) * 1 + 0 == begin + (n - hist));
    }
    assert(is_signal(op, one_x, one_state, lens, slot, 0, signal));
    assert(is_signal(op, x, state_in, lens, slot, ch, signal));
    law_conv_taps(f, op, x, w, bias, state_in, lens, y, state_out, slot, ch, signal);
    law_conv_taps(
        f,
        op,
        one_x,
        one_w,
        one_bias,
        one_state,
        lens,
        one_y,
        one_out,
        slot,
        0,
        signal,
    );
    let many = conv_result(f, op, x, w, bias, state_in, lens, y, state_out)->Ok_0;
    let one = conv_result(
        f,
        op,
        one_x,
        one_w,
        one_bias,
        one_state,
        lens,
        one_y,
        one_out,
    )->Ok_0;
    let one_taps = Seq::new(wk as nat, |t: int| one_w.cells.f32_at(0 * wk + t));
    let taps = Seq::new(wk as nat, |t: int| w.cells.f32_at(ch * wk + t));
    assert forall|t: int| 0 <= t < wk implies #[trigger] one_taps[t] == taps[t] by {
        assert(0 * wk + t == t);
        assert(one_w.cells.f32_at(t) == w.cells.f32_at(ch * op.kernel + t));
    }
    assert(one_taps =~= taps);
    assert forall|row: int|
        #![trigger many.0.cells.f32_at((start_of(lens, slot) + row) * c + ch)]
        0 <= row < lens[slot] implies many.0.cells.f32_at((start_of(lens, slot) + row) * c + ch)
        == one.0.cells.f32_at(start_of(lens, slot) + row) by {
        assert((start_of(lens, slot) + row) * 1 + 0 == start_of(lens, slot) + row);
        assert(one.0.cells.f32_at((start_of(lens, slot) + row) * 1 + 0) == one.0.cells.f32_at(
            start_of(lens, slot) + row,
        ));
    }
    assert forall|n: int|
        #![trigger many.1.cells.f32_at((slot * hist + n) * c + ch)]
        0 <= n < hist implies many.1.cells.f32_at((slot * hist + n) * c + ch)
        == one.1.cells.f32_at(slot * hist + n) by {
        assert((slot * hist + n) * 1 + 0 == slot * hist + n);
        assert(one.1.cells.f32_at((slot * (wk - 1) + n) * 1 + 0) == one.1.cells.f32_at(
            slot * hist + n,
        ));
    }
}

} // verus!
