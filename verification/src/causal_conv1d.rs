//! Depthwise causal convolution over sequences, with a carried window.
//!
//! The history of a sequence is its carried window followed by its own rows.
//! Every output is a weighted sum over consecutive rows of the history, and the
//! last rows of the history are the window that the next call carries on.
use vstd::prelude::*;
use crate::activation::{activated, eval_activation_f32};
use crate::arith::{fp_add, fp_mul, is_arith, plus, times, FloatOp};
use crate::buffer::{
    fault_result, lemma_backed_holds, lemma_extent1, lemma_extent2, lemma_extent3, opt_view, Tensor,
    TensorDataMut, TensorView, TensorViewMut,
};
use crate::check::{
    attr_error, check_dim, check_dtype, check_float, check_rank, check_row_major, clear, dim_faults,
    dtype_error, dtype_faults, dtype_mismatch, empty_error, fault_if, fault_of, float_faults,
    float_type, floats, float_types, given, invalid_attr, is_float, no_problems, or_fault, overflow,
    overflow_error, push_when, quant_error, quant_mismatch, rank_faults, row_major_faults,
};
use crate::error::{outcome, plain, quoting, views, Arg, Detail, ErrorView, T0Error};
use crate::index::{lemma_flat_bound, lemma_split};
use crate::ir::{ActivationKind, DType, QuantScheme, StateHandle, StateKind};
use crate::segments::{
    lemma_slot_of, lemma_start_le, lemma_start_step, slot_of, start_of, total, SeqLayout,
};

verus! {

/// Activation of a convolution.
#[derive(Debug, Clone, Copy, PartialEq, Eq, Structural)]
pub enum ConvActivation {
    /// `x / (1 + exp(-x))`.
    Silu,
    /// The sum itself.
    Identity,
}

/// Attributes of the convolution.
#[derive(Debug, Clone, Copy)]
pub struct CausalConv1dOp {
    /// Number of taps.
    pub kernel: u32,
    /// Activation of the sums.
    pub act: ConvActivation,
    /// State that holds the carried windows.
    pub handle: StateHandle,
}

impl ConvActivation {
    /// The activation function.
    pub open spec fn kind(self) -> ActivationKind {
        match self {
            ConvActivation::Silu => ActivationKind::Silu,
            ConvActivation::Identity => ActivationKind::Identity,
        }
    }
}

/// The error of a dimension that does not fit in 32 bits.
pub open spec fn u32_fault(op: &'static str, v: usize) -> Option<ErrorView> {
    fault_if(
        v > u32::MAX,
        overflow_error(op, quoting("dimension exceeds u32: {}", seq![Arg::Int(v as u64)])),
    )
}

/// Checks that a dimension fits in 32 bits.
pub fn check_u32(op: &'static str, v: usize) -> (r: Result<(), T0Error>)
    ensures
        outcome(r) == fault_result(u32_fault(op, v)),
{
    if v > u32::MAX as usize {
        Err(overflow(op, Detail::one("dimension exceeds u32: {}", Arg::Int(v as u64))))
    } else {
        Ok(())
    }
}

/// Layout problem of an optional operand.
pub open spec fn opt_row_major_faults(tensor: &'static str, t: Option<Tensor>) -> Seq<ErrorView> {
    match t {
        None => Seq::empty(),
        Some(b) => row_major_faults(tensor, b.layout),
    }
}

/// Storage error of an optional operand.
pub open spec fn opt_backing_fault(tensor: &'static str, t: Option<Tensor>) -> Option<ErrorView> {
    match t {
        None => None,
        Some(b) => b.backing_fault(tensor),
    }
}

/// Checks the layout of an optional operand.
pub fn check_opt_row_major(
    problems: &mut Vec<T0Error>,
    tensor: &'static str,
    t: Option<&TensorView<'_>>,
)
    ensures
        views(final(problems)@) == views(old(problems)@) + opt_row_major_faults(
            tensor,
            opt_view(t),
        ),
{
    match t {
        None => {
            assert(views(problems@) =~= views(old(problems)@) + opt_row_major_faults(
                tensor,
                opt_view(t),
            ));
        },
        Some(b) => {
            check_row_major(problems, tensor, b.layout());
        },
    }
}

/// Checks the storage of an optional operand.
pub fn check_opt_backing(tensor: &'static str, t: Option<&TensorView<'_>>) -> (r: Result<
    (),
    T0Error,
>)
    ensures
        outcome(r) == fault_result(opt_backing_fault(tensor, opt_view(t))),
        r is Ok ==> (t matches Some(b) ==> b@.backed()),
{
    match t {
        None => Ok(()),
        Some(b) => b.validate_backing(tensor),
    }
}

/// Type problem of the convolution's weights: quantized weights have no scales
/// here.
pub open spec fn conv_weight_faults(w: Tensor) -> Seq<ErrorView> {
    if is_float(w.dtype()) {
        Seq::empty()
    } else if w.dtype() == DType::I8 || w.dtype() == DType::I4 {
        seq![quant_error("w", seq![QuantScheme::Unquantized], w.quant)]
    } else {
        seq![dtype_error("w", float_types(), w.dtype())]
    }
}

/// Problems of the operands' ranks, layouts and types and of the attributes.
pub open spec fn conv_form_faults(
    op: CausalConv1dOp,
    x: Tensor,
    w: Tensor,
    bias: Option<Tensor>,
    state_in: Tensor,
    y: Tensor,
    state_out: Tensor,
) -> Seq<ErrorView> {
    clear() + rank_faults("x", 2, x.shape) + rank_faults("w", 2, w.shape) + rank_faults(
        "y",
        2,
        y.shape,
    ) + rank_faults("state_in", 3, state_in.shape) + rank_faults("state_out", 3, state_out.shape)
        + row_major_faults("x", x.layout) + row_major_faults("w", w.layout) + row_major_faults(
        "state_in",
        state_in.layout,
    ) + opt_row_major_faults("bias", bias) + row_major_faults("y", y.layout) + row_major_faults(
        "state_out",
        state_out.layout,
    ) + float_faults("x", x.dtype()) + conv_weight_faults(w) + dtype_faults(
        "state_in",
        DType::F16,
        state_in.dtype(),
    ) + dtype_faults("state_out", DType::F16, state_out.dtype()) + dtype_faults(
        "y",
        x.dtype(),
        y.dtype(),
    ) + given(
        op.kernel == 0,
        attr_error("causal_conv1d", "kernel", plain("kernel must be > 0")),
    ) + given(
        op.handle.kind != StateKind::ConvWindow,
        attr_error(
            "causal_conv1d",
            "handle",
            quoting("state handle must be ConvWindow, got {}", seq![Arg::State(op.handle.kind)]),
        ),
    )
}

/// Problems of the bias against the channel count.
pub open spec fn conv_bias_faults(bias: Option<Tensor>, c: usize) -> Seq<ErrorView> {
    match bias {
        None => Seq::empty(),
        Some(b) => (if b.rank() != 1 {
            rank_faults("bias", 1, b.shape)
        } else {
            dim_faults("C", "x", c, "bias", b.shape[0])
        }) + float_faults("bias", b.dtype()),
    }
}

/// Problems of one state operand's extents.
pub open spec fn conv_state_faults(
    tensor: &'static str,
    shape: Seq<usize>,
    s: usize,
    hist: usize,
    c: usize,
) -> Seq<ErrorView> {
    clear() + dim_faults("S", "seq", s, tensor, shape[0]) + dim_faults(
        "Wk-1",
        "kernel",
        hist,
        tensor,
        shape[1],
    ) + dim_faults("C", "x", c, tensor, shape[2])
}

/// Problems of the operands' extents.
pub open spec fn conv_dim_faults(
    op: CausalConv1dOp,
    x: Tensor,
    w: Tensor,
    bias: Option<Tensor>,
    state_in: Tensor,
    s: usize,
    y: Tensor,
    state_out: Tensor,
) -> Seq<ErrorView> {
    let t = x.shape[0];
    let c = x.shape[1];
    let wk = op.kernel as usize;
    let hist = (op.kernel - 1) as usize;
    clear() + dim_faults("C", "x", c, "w", w.shape[0]) + dim_faults(
        "Wk",
        "kernel",
        wk,
        "w",
        w.shape[1],
    ) + conv_bias_faults(bias, c) + dim_faults("T", "x", t, "y", y.shape[0]) + dim_faults(
        "C",
        "x",
        c,
        "y",
        y.shape[1],
    ) + conv_state_faults("state_in", state_in.shape, s, hist, c) + conv_state_faults(
        "state_out",
        state_out.shape,
        s,
        hist,
        c,
    )
}

/// The error of a convolution whose operands or attributes do not fit.
#[verifier::opaque]
pub open spec fn conv_fault(
    op: CausalConv1dOp,
    x: Tensor,
    w: Tensor,
    bias: Option<Tensor>,
    state_in: Tensor,
    lens: Seq<u32>,
    y: Tensor,
    state_out: Tensor,
) -> Option<ErrorView> {
    let backing = or_fault(
        or_fault(
            or_fault(
                or_fault(
                    or_fault(x.backing_fault("x"), w.backing_fault("w")),
                    opt_backing_fault("bias", bias),
                ),
                state_in.backing_fault("state_in"),
            ),
            y.backing_fault("y"),
        ),
        state_out.backing_fault("state_out"),
    );
    let form = fault_of(conv_form_faults(op, x, w, bias, state_in, y, state_out));
    let empty = fault_if(
        x.shape[0] == 0 || x.shape[1] == 0,
        empty_error("causal_conv1d", "x"),
    );
    let wide = or_fault(
        or_fault(u32_fault("causal_conv1d", x.shape[0]), u32_fault("causal_conv1d", x.shape[1])),
        u32_fault("causal_conv1d", lens.len() as usize),
    );
    let tokens = SeqLayout::total_fault(lens, "state_in", x.shape[0]);
    let dims = fault_of(
        conv_dim_faults(op, x, w, bias, state_in, lens.len() as usize, y, state_out),
    );
    or_fault(
        or_fault(or_fault(or_fault(or_fault(backing, form), empty), wide), tokens),
        dims,
    )
}

/// Operands of a convolution that fits.
pub struct ConvArgs {
    /// Input rows.
    pub x: Tensor,
    /// Taps of each channel.
    pub w: Tensor,
    /// Bias of each channel.
    pub bias: Option<Tensor>,
    /// Carried windows.
    pub state: Tensor,
    /// Token counts of the sequences.
    pub lens: Seq<u32>,
    /// Number of channels.
    pub c: int,
    /// Number of taps.
    pub wk: int,
    /// Activation of the sums.
    pub act: ActivationKind,
}

impl ConvArgs {
    /// Rows of the carried window.
    pub open spec fn hist(self) -> int {
        self.wk - 1
    }

    /// Element of the history of a sequence: row `abs` counts from the first
    /// row of the carried window.
    pub open spec fn history(self, slot: int, abs: int, ch: int) -> u32 {
        if abs < self.hist() {
            self.state.cells.f32_at((slot * self.hist() + abs) * self.c + ch)
        } else {
            self.x.cells.f32_at(
                (start_of(self.lens, slot) + abs - self.hist()) * self.c + ch,
            )
        }
    }

    /// The bias of a channel plus its first `n` weighted history elements.
    pub open spec fn sum<F: Fn(FloatOp, u32, u32) -> u32>(
        self,
        f: F,
        slot: int,
        row: int,
        ch: int,
        n: int,
    ) -> u32
        decreases n,
    {
        if n <= 0 {
            match self.bias {
                Some(b) => b.cells.f32_at(ch),
                None => 0,
            }
        } else {
            fp_add(
                f,
                self.sum(f, slot, row, ch, n - 1),
                fp_mul(
                    f,
                    self.w.cells.f32_at(ch * self.wk + n - 1),
                    self.history(slot, row + n - 1, ch),
                ),
            )
        }
    }

    /// Output of a row of a sequence.
    pub open spec fn output<F: Fn(FloatOp, u32, u32) -> u32>(
        self,
        f: F,
        slot: int,
        row: int,
        ch: int,
    ) -> u32 {
        activated(f, self.sum(f, slot, row, ch, self.wk), self.act)
    }

    /// All outputs, row by row.
    pub open spec fn outputs<F: Fn(FloatOp, u32, u32) -> u32>(self, f: F) -> Seq<u32> {
        Seq::new(
            (total(self.lens) * self.c) as nat,
            |i: int| self.output_at(f, i),
        )
    }

    /// Output at a flat index.
    pub open spec fn output_at<F: Fn(FloatOp, u32, u32) -> u32>(self, f: F, i: int) -> u32 {
        let token = i / self.c;
        let slot = slot_of(self.lens, token);
        self.output(f, slot, token - start_of(self.lens, slot), i % self.c)
    }

    /// Window that the next call carries on: the last rows of each history.
    pub open spec fn window_at(self, i: int) -> u32 {
        let row = i / self.c;
        let slot = row / self.hist();
        self.history(slot, self.lens[slot] + row % self.hist(), i % self.c)
    }

    /// All windows, sequence by sequence.
    pub open spec fn windows(self) -> Seq<u32> {
        Seq::new(
            (self.lens.len() * self.hist() * self.c) as nat,
            |i: int| self.window_at(i),
        )
    }

    /// Whether the operands have the extents and the storage of the convolution.
    pub open spec fn wf(self) -> bool {
        &&& self.c > 0
        &&& self.wk > 0
        &&& self.x.backed()
        &&& self.w.backed()
        &&& self.state.backed()
        &&& self.x.count() == total(self.lens) * self.c
        &&& self.w.count() == self.c * self.wk
        &&& self.state.count() == self.lens.len() * self.hist() * self.c
        &&& self.bias matches Some(b) ==> b.backed() && b.count() == self.c
    }
}

/// Operands of a convolution.
pub open spec fn conv_args(
    op: CausalConv1dOp,
    x: Tensor,
    w: Tensor,
    bias: Option<Tensor>,
    state_in: Tensor,
    lens: Seq<u32>,
) -> ConvArgs {
    ConvArgs {
        x,
        w,
        bias,
        state: state_in,
        lens,
        c: x.shape[1] as int,
        wk: op.kernel as int,
        act: op.act.kind(),
    }
}

/// Reads an element of a history.
fn read_history(
    x: &TensorView<'_>,
    state: &TensorView<'_>,
    base: usize,
    slot: usize,
    abs: u64,
    ch: usize,
    hist: usize,
    c: usize,
    Ghost(a): Ghost<ConvArgs>,
) -> (r: u32)
    requires
        a.wf(),
        a.x == x@,
        a.state == state@,
        a.c == c,
        a.hist() == hist,
        0 <= slot < a.lens.len(),
        base == start_of(a.lens, slot as int),
        abs < hist + a.lens[slot as int],
        total(a.lens) <= u32::MAX,
        ch < c,
    ensures
        r == a.history(slot as int, abs as int, ch as int),
{
    proof {
        lemma_start_step(a.lens, slot as int);
        lemma_start_le(a.lens, slot + 1);
    }
    if abs < hist as u64 {
        let abs: usize = abs as usize;
        proof {
            lemma_flat_bound(slot as int, a.lens.len() as int, abs as int, hist as int);
            lemma_flat_bound(slot * hist + abs, a.lens.len() * hist, ch as int, c as int);
            lemma_backed_holds(state@, (slot * hist + abs) * c + ch);
            lemma_count_fits(state@);
            assert(a.lens.len() * hist <= a.lens.len() * hist * c) by (nonlinear_arith)
                requires
                    c > 0,
                    a.lens.len() * hist >= 0,
            ;
        }
        state.read_f32((slot * hist + abs) * c + ch)
    } else {
        proof {
            lemma_flat_bound(base + abs - hist, total(a.lens) as int, ch as int, c as int);
            lemma_backed_holds(x@, (base + abs - hist) * c + ch);
            lemma_count_fits(x@);
        }
        let row: usize = base + (abs - hist as u64) as usize;
        x.read_f32(row * c + ch)
    }
}

/// The number of elements of a tensor is a machine size.
pub proof fn lemma_count_fits(t: Tensor)
    ensures
        0 <= t.count() <= usize::MAX,
{
}

/// Computes the outputs of a convolution that fits.
fn conv_outputs<F: Fn(FloatOp, u32, u32) -> u32>(
    f: &F,
    x: &TensorView<'_>,
    w: &TensorView<'_>,
    bias: Option<&TensorView<'_>>,
    state: &TensorView<'_>,
    lens: &[u32],
    c: usize,
    wk: usize,
    act: ActivationKind,
    Ghost(a): Ghost<ConvArgs>,
) -> (r: Vec<u32>)
    requires
        is_arith(*f),
        a.wf(),
        a == (ConvArgs {
            x: x@,
            w: w@,
            bias: opt_view(bias),
            state: state@,
            lens: lens@,
            c: c as int,
            wk: wk as int,
            act,
        }),
        total(lens@) <= usize::MAX,
        wk <= u32::MAX,
        total(lens@) <= u32::MAX,
    ensures
        r@ == a.outputs(*f),
{
    let hist: usize = wk - 1;
    let mut out: Vec<u32> = Vec::new();
    let mut base: usize = 0;
    proof {
        if lens@.len() > 0 {
            lemma_start_step(lens@, 0);
        } else {
            assert(start_of(lens@, 0) == 0);
        }
        assert(0 * c == 0);
    }
    for slot in 0..lens.len()
        invariant
            is_arith(*f),
            a.wf(),
            a == (ConvArgs {
                x: x@,
                w: w@,
                bias: opt_view(bias),
                state: state@,
                lens: lens@,
                c: c as int,
                wk: wk as int,
                act,
            }),
            hist == wk - 1,
            wk <= u32::MAX,
            total(lens@) <= u32::MAX,
            base == start_of(lens@, slot as int),
            out@.len() == base * c,
            forall|i: int| 0 <= i < out@.len() ==> out@[i] == #[trigger] a.output_at(*f, i),
    {
        let len: usize = lens[slot] as usize;
        proof {
            lemma_start_step(lens@, slot as int);
            lemma_start_le(lens@, slot + 1);
        }
        for row in 0..len
            invariant
                is_arith(*f),
                a.wf(),
                a == (ConvArgs {
                    x: x@,
                    w: w@,
                    bias: opt_view(bias),
                    state: state@,
                    lens: lens@,
                    c: c as int,
                    wk: wk as int,
                    act,
                }),
                hist == wk - 1,
                wk <= u32::MAX,
                total(lens@) <= u32::MAX,
                0 <= slot < lens@.len(),
                len == lens@[slot as int],
                base == start_of(lens@, slot as int),
                base + len <= total(lens@),
                out@.len() == (base + row) * c,
                forall|i: int| 0 <= i < out@.len() ==> out@[i] == #[trigger] a.output_at(*f, i),
        {
            for ch in 0..c
                invariant
                    is_arith(*f),
                    a.wf(),
                    a == (ConvArgs {
                        x: x@,
                        w: w@,
                        bias: opt_view(bias),
                        state: state@,
                        lens: lens@,
                        c: c as int,
                        wk: wk as int,
                        act,
                    }),
                    hist == wk - 1,
                    wk <= u32::MAX,
                    total(lens@) <= u32::MAX,
                    0 <= slot < lens@.len(),
                    len == lens@[slot as int],
                    0 <= row < len,
                    base == start_of(lens@, slot as int),
                    base + len <= total(lens@),
                    out@.len() == (base + row) * c + ch,
                    forall|i: int| 0 <= i < out@.len() ==> out@[i] == #[trigger] a.output_at(*f, i),
            {
                let mut acc: u32 = match bias {
                    Some(b) => {
                        proof {
                            lemma_backed_holds(b@, ch as int);
                        }
                        b.read_f32(ch)
                    },
                    None => 0,
                };
                for i in 0..wk
                    invariant
                        is_arith(*f),
                        a.wf(),
                        a == (ConvArgs {
                            x: x@,
                            w: w@,
                            bias: opt_view(bias),
                            state: state@,
                            lens: lens@,
                            c: c as int,
                            wk: wk as int,
                            act,
                        }),
                        hist == wk - 1,
                        wk <= u32::MAX,
                        total(lens@) <= u32::MAX,
                        0 <= slot < lens@.len(),
                        len == lens@[slot as int],
                        0 <= row < len,
                        0 <= ch < c,
                        base == start_of(lens@, slot as int),
                        base + len <= total(lens@),
                        acc == a.sum(*f, slot as int, row as int, ch as int, i as int),
                {
                    proof {
                        lemma_flat_bound(ch as int, c as int, i as int, wk as int);
                        lemma_backed_holds(w@, ch * wk + i);
                        lemma_count_fits(w@);
                    }
                    let h: u32 = read_history(
                        x,
                        state,
                        base,
                        slot,
                        row as u64 + i as u64,
                        ch,
                        hist,
                        c,
                        Ghost(a),
                    );
                    acc = plus(f, acc, times(f, w.read_f32(ch * wk + i), h));
                }
                let v: u32 = eval_activation_f32(f, acc, act);
                proof {
                    lemma_split(base + row, ch as int, c as int);
                    lemma_slot_of(lens@, slot as int, row as int);
                    assert(v == a.output_at(*f, (base + row) * c + ch));
                }
                out.push(v);
            }
            proof {
                assert((base + row + 1) * c == (base + row) * c + c) by (nonlinear_arith);
            }
        }
        base = base + len;
    }
    proof {
        assert(lens@.take(lens@.len() as int) =~= lens@);
        assert(out@ =~= a.outputs(*f));
    }
    out
}

/// Collects the windows that the next call carries on.
fn conv_windows(
    x: &TensorView<'_>,
    state: &TensorView<'_>,
    lens: &[u32],
    c: usize,
    hist: usize,
    Ghost(a): Ghost<ConvArgs>,
) -> (r: Vec<u32>)
    requires
        a.wf(),
        a.x == x@,
        a.state == state@,
        a.lens == lens@,
        a.c == c,
        a.hist() == hist,
        hist <= u32::MAX,
        total(lens@) <= u32::MAX,
    ensures
        r@ == a.windows(),
{
    let mut out: Vec<u32> = Vec::new();
    let mut base: usize = 0;
    proof {
        if lens@.len() > 0 {
            lemma_start_step(lens@, 0);
        } else {
            assert(start_of(lens@, 0) == 0);
        }
        assert(0 * hist * c == 0) by (nonlinear_arith);
    }
    for slot in 0..lens.len()
        invariant
            a.wf(),
            a.x == x@,
            a.state == state@,
            a.lens == lens@,
            a.c == c,
            a.hist() == hist,
            hist <= u32::MAX,
            total(lens@) <= u32::MAX,
            base == start_of(lens@, slot as int),
            out@.len() == slot * hist * c,
            forall|i: int| 0 <= i < out@.len() ==> out@[i] == #[trigger] a.window_at(i),
    {
        let len: usize = lens[slot] as usize;
        proof {
            lemma_start_step(lens@, slot as int);
            lemma_start_le(lens@, slot + 1);
            assert((slot * hist + 0) * c == slot * hist * c);
        }
        for row in 0..hist
            invariant
                a.wf(),
                a.x == x@,
                a.state == state@,
                a.lens == lens@,
                a.c == c,
                a.hist() == hist,
                hist <= u32::MAX,
                total(lens@) <= u32::MAX,
                0 <= slot < lens@.len(),
                len == lens@[slot as int],
                base == start_of(lens@, slot as int),
                base + len <= total(lens@),
                out@.len() == (slot * hist + row) * c,
                forall|i: int| 0 <= i < out@.len() ==> out@[i] == #[trigger] a.window_at(i),
        {
            for ch in 0..c
                invariant
                    a.wf(),
                    a.x == x@,
                    a.state == state@,
                    a.lens == lens@,
                    a.c == c,
                    a.hist() == hist,
                    hist <= u32::MAX,
                    total(lens@) <= u32::MAX,
                    0 <= slot < lens@.len(),
                    0 <= row < hist,
                    len == lens@[slot as int],
                    base == start_of(lens@, slot as int),
                    base + len <= total(lens@),
                    out@.len() == (slot * hist + row) * c + ch,
                    forall|i: int| 0 <= i < out@.len() ==> out@[i] == #[trigger] a.window_at(i),
            {
                let v: u32 = read_history(
                    x,
                    state,
                    base,
                    slot,
                    len as u64 + row as u64,
                    ch,
                    hist,
                    c,
                    Ghost(a),
                );
                proof {
                    lemma_split(slot as int, row as int, hist as int);
                    lemma_split(slot * hist + row, ch as int, c as int);
                    assert(v == a.window_at((slot * hist + row) * c + ch));
                }
                out.push(v);
            }
            proof {
                assert((slot * hist + row + 1) * c == (slot * hist + row) * c + c)
                    by (nonlinear_arith);
            }
        }
        proof {
            assert((slot * hist + hist) * c == (slot + 1) * hist * c) by (nonlinear_arith);
        }
        base = base + len;
    }
    assert(out@ =~= a.windows());
    out
}

/// Checks ranks, layouts, types and attributes.
#[verifier::spinoff_prover]
#[verifier::rlimit(60)]
fn check_conv_form(
    op: &CausalConv1dOp,
    x: &TensorView<'_>,
    w: &TensorView<'_>,
    bias: Option<&TensorView<'_>>,
    state_in: &TensorView<'_>,
    y: &TensorViewMut<'_>,
    state_out: &TensorViewMut<'_>,
) -> (r: Result<(), T0Error>)
    ensures
        outcome(r) == fault_result(
            fault_of(conv_form_faults(*op, x@, w@, opt_view(bias), state_in@, y@, state_out@)),
        ),
        r is Ok ==> conv_form_faults(
            *op,
            x@,
            w@,
            opt_view(bias),
            state_in@,
            y@,
            state_out@,
        ).len() == 0,
{
    let mut problems = no_problems();
    check_rank(&mut problems, "x", 2, x.shape());
    check_rank(&mut problems, "w", 2, w.shape());
    check_rank(&mut problems, "y", 2, y.shape());
    check_rank(&mut problems, "state_in", 3, state_in.shape());
    check_rank(&mut problems, "state_out", 3, state_out.shape());
    check_row_major(&mut problems, "x", x.layout());
    check_row_major(&mut problems, "w", w.layout());
    check_row_major(&mut problems, "state_in", state_in.layout());
    check_opt_row_major(&mut problems, "bias", bias);
    check_row_major(&mut problems, "y", y.layout());
    check_row_major(&mut problems, "state_out", state_out.layout());
    check_float(&mut problems, "x", x.dtype());
    let ghost before = views(problems@);
    let wt = w.dtype();
    if float_type(wt) {
        assert(views(problems@) =~= before + conv_weight_faults(w@));
    } else if wt == DType::I8 || wt == DType::I4 {
        let expected = vec![QuantScheme::Unquantized];
        assert(expected@ =~= seq![QuantScheme::Unquantized]);
        push_when(&mut problems, true, quant_mismatch("w", expected, w.quant()));
    } else {
        push_when(&mut problems, true, dtype_mismatch("w", floats(), wt));
    }
    assert(views(problems@) == before + conv_weight_faults(w@));
    check_dtype(&mut problems, "state_in", DType::F16, state_in.dtype());
    check_dtype(&mut problems, "state_out", DType::F16, state_out.dtype());
    check_dtype(&mut problems, "y", x.dtype(), y.dtype());
    push_when(
        &mut problems,
        op.kernel == 0,
        invalid_attr("causal_conv1d", "kernel", Detail::plain("kernel must be > 0")),
    );
    let kind = op.handle.kind;
    let reason = Detail::one("state handle must be ConvWindow, got {}", Arg::State(kind));
    push_when(
        &mut problems,
        kind != StateKind::ConvWindow,
        invalid_attr("causal_conv1d", "handle", reason),
    );
    T0Error::from_problems(problems)
}

/// Checks the extents of a state operand.
fn check_conv_state(
    problems: &mut Vec<T0Error>,
    tensor: &'static str,
    shape: &[usize],
    s: usize,
    hist: usize,
    c: usize,
)
    requires
        shape@.len() == 3,
    ensures
        views(final(problems)@) == views(old(problems)@) + conv_state_faults(
            tensor,
            shape@,
            s,
            hist,
            c,
        ),
{
    let ghost before = views(problems@);
    check_dim(problems, "S", "seq", s, tensor, shape[0]);
    check_dim(problems, "Wk-1", "kernel", hist, tensor, shape[1]);
    check_dim(problems, "C", "x", c, tensor, shape[2]);
    assert(views(problems@) =~= before + conv_state_faults(tensor, shape@, s, hist, c));
}

/// Checks the bias against the channel count.
fn check_conv_bias(problems: &mut Vec<T0Error>, bias: Option<&TensorView<'_>>, c: usize)
    ensures
        views(final(problems)@) == views(old(problems)@) + conv_bias_faults(opt_view(bias), c),
{
    let ghost before = views(problems@);
    match bias {
        None => {},
        Some(b) => {
            if b.rank() != 1 {
                check_rank(problems, "bias", 1, b.shape());
            } else {
                check_dim(problems, "C", "x", c, "bias", b.shape()[0]);
            }
            check_float(problems, "bias", b.dtype());
        },
    }
    assert(views(problems@) =~= before + conv_bias_faults(opt_view(bias), c));
}

/// Checks the extents of all operands.
fn check_conv_dims(
    op: &CausalConv1dOp,
    x: &TensorView<'_>,
    w: &TensorView<'_>,
    bias: Option<&TensorView<'_>>,
    state_in: &TensorView<'_>,
    s: usize,
    y: &TensorViewMut<'_>,
    state_out: &TensorViewMut<'_>,
) -> (r: Result<(), T0Error>)
    requires
        conv_form_faults(
            *op,
            x@,
            w@,
            opt_view(bias),
            state_in@,
            y@,
            state_out@,
        ).len() == 0,
    ensures
        outcome(r) == fault_result(
            fault_of(conv_dim_faults(*op, x@, w@, opt_view(bias), state_in@, s, y@, state_out@)),
        ),
        r is Ok ==> conv_dim_faults(
            *op,
            x@,
            w@,
            opt_view(bias),
            state_in@,
            s,
            y@,
            state_out@,
        ).len() == 0,
{
    let t: usize = x.shape()[0];
    let c: usize = x.shape()[1];
    let wk: usize = op.kernel as usize;
    let hist: usize = wk - 1;
    let mut problems = no_problems();
    check_dim(&mut problems, "C", "x", c, "w", w.shape()[0]);
    check_dim(&mut problems, "Wk", "kernel", wk, "w", w.shape()[1]);
    check_conv_bias(&mut problems, bias, c);
    check_dim(&mut problems, "T", "x", t, "y", y.shape()[0]);
    check_dim(&mut problems, "C", "x", c, "y", y.shape()[1]);
    check_conv_state(&mut problems, "state_in", state_in.shape(), s, hist, c);
    check_conv_state(&mut problems, "state_out", state_out.shape(), s, hist, c);
    T0Error::from_problems(problems)
}

/// Operands without a problem have the extents of the convolution.
pub proof fn lemma_conv_fits(
    op: CausalConv1dOp,
    x: Tensor,
    w: Tensor,
    bias: Option<Tensor>,
    state_in: Tensor,
    lens: Seq<u32>,
    y: Tensor,
    state_out: Tensor,
)
    requires
        x.backed(),
        w.backed(),
        state_in.backed(),
        y.backed(),
        state_out.backed(),
        bias matches Some(b) ==> b.backed(),
        conv_form_faults(op, x, w, bias, state_in, y, state_out).len() == 0,
        x.shape[1] > 0,
        total(lens) == x.shape[0],
        lens.len() <= usize::MAX,
        conv_dim_faults(
            op,
            x,
            w,
            bias,
            state_in,
            lens.len() as usize,
            y,
            state_out,
        ).len() == 0,
    ensures
        conv_args(op, x, w, bias, state_in, lens).wf(),
        y.count() == total(lens) * x.shape[1],
        state_out.count() == lens.len() * (op.kernel - 1) * x.shape[1],
{
    lemma_extent2(x.shape);
    lemma_extent2(w.shape);
    lemma_extent2(y.shape);
    lemma_extent3(state_in.shape);
    lemma_extent3(state_out.shape);
    if bias is Some {
        assert(conv_bias_faults(bias, x.shape[1]).len() == 0);
        lemma_extent1(bias->0.shape);
    }
}

/// Depthwise causal convolution of the rows of `x`, sequence by sequence.
///
/// Output `[t, ch]` is the activation of the bias plus the sum over the taps of
/// the weight times the history row that ends at `t`. The last rows of each
/// history go to `state_out`. If an operand or attribute does not fit, neither
/// output changes.
pub fn causal_conv1d<F: Fn(FloatOp, u32, u32) -> u32>(
    f: &F,
    op: &CausalConv1dOp,
    x: &TensorView<'_>,
    w: &TensorView<'_>,
    bias: Option<&TensorView<'_>>,
    state_in: &TensorView<'_>,
    seq: &SeqLayout,
    y: &mut TensorViewMut<'_>,
    state_out: &mut TensorViewMut<'_>,
) -> (r: Result<(), T0Error>)
    requires
        is_arith(*f),
    ensures
        outcome(r) == fault_result(
            conv_fault(
                *op,
                x@,
                w@,
                opt_view(bias),
                state_in@,
                seq.seq_lens@,
                old(y)@,
                old(state_out)@,
            ),
        ),
        r is Err ==> final(y)@ == old(y)@ && final(state_out)@ == old(state_out)@,
        r is Ok ==> ({
            let a = conv_args(*op, x@, w@, opt_view(bias), state_in@, seq.seq_lens@);
            &&& final(y)@ == old(y)@.with_cells(old(y)@.cells.with_f32s(a.outputs(*f)))
            &&& final(state_out)@ == old(state_out)@.with_cells(
                old(state_out)@.cells.with_f32s(a.windows()),
            )
        }),
        match (old(y).data, final(y).data) {
            (TensorDataMut::F32(a), TensorDataMut::F32(b)) => {
                a@.len() == b@.len() && (*final(a))@ == (*final(b))@
            },
            (TensorDataMut::F16(a), TensorDataMut::F16(b)) => {
                a@.len() == b@.len() && (*final(a))@ == (*final(b))@
            },
            (TensorDataMut::Bf16(a), TensorDataMut::Bf16(b)) => {
                a@.len() == b@.len() && (*final(a))@ == (*final(b))@
            },
            (TensorDataMut::I8(a), TensorDataMut::I8(b)) => {
                a@.len() == b@.len() && (*final(a))@ == (*final(b))@
            },
            (TensorDataMut::U32(a), TensorDataMut::U32(b)) => {
                a@.len() == b@.len() && (*final(a))@ == (*final(b))@
            },
            (TensorDataMut::Bytes(d, a), TensorDataMut::Bytes(e, b)) => {
                d == e && a@.len() == b@.len() && (*final(a))@ == (*final(b))@
            },
            _ => false,
        },
        match (old(state_out).data, final(state_out).data) {
            (TensorDataMut::F32(a), TensorDataMut::F32(b)) => {
                a@.len() == b@.len() && (*final(a))@ == (*final(b))@
            },
            (TensorDataMut::F16(a), TensorDataMut::F16(b)) => {
                a@.len() == b@.len() && (*final(a))@ == (*final(b))@
            },
            (TensorDataMut::Bf16(a), TensorDataMut::Bf16(b)) => {
                a@.len() == b@.len() && (*final(a))@ == (*final(b))@
            },
            (TensorDataMut::I8(a), TensorDataMut::I8(b)) => {
                a@.len() == b@.len() && (*final(a))@ == (*final(b))@
            },
            (TensorDataMut::U32(a), TensorDataMut::U32(b)) => {
                a@.len() == b@.len() && (*final(a))@ == (*final(b))@
            },
            (TensorDataMut::Bytes(d, a), TensorDataMut::Bytes(e, b)) => {
                d == e && a@.len() == b@.len() && (*final(a))@ == (*final(b))@
            },
            _ => false,
        },
{
    proof {
        reveal(conv_fault);
    }
    match x.validate_backing("x") {
        Ok(_) => {},
        Err(e) => {
            return Err(e);
        },
    }
    match w.validate_backing("w") {
        Ok(_) => {},
        Err(e) => {
            return Err(e);
        },
    }
    match check_opt_backing("bias", bias) {
        Ok(_) => {},
        Err(e) => {
            return Err(e);
        },
    }
    match state_in.validate_backing("state_in") {
        Ok(_) => {},
        Err(e) => {
            return Err(e);
        },
    }
    match y.validate_backing("y") {
        Ok(_) => {},
        Err(e) => {
            return Err(e);
        },
    }
    match state_out.validate_backing("state_out") {
        Ok(_) => {},
        Err(e) => {
            return Err(e);
        },
    }
    match check_conv_form(op, x, w, bias, state_in, y, state_out) {
        Ok(_) => {},
        Err(e) => {
            return Err(e);
        },
    }
    let t: usize = x.shape()[0];
    let c: usize = x.shape()[1];
    let wk: usize = op.kernel as usize;
    let s: usize = seq.seq_count();
    if t == 0 || c == 0 {
        return Err(T0Error::EmptyInput { op: "causal_conv1d", tensor: "x" });
    }
    match check_u32("causal_conv1d", t) {
        Ok(_) => {},
        Err(e) => {
            return Err(e);
        },
    }
    match check_u32("causal_conv1d", c) {
        Ok(_) => {},
        Err(e) => {
            return Err(e);
        },
    }
    match check_u32("causal_conv1d", s) {
        Ok(_) => {},
        Err(e) => {
            return Err(e);
        },
    }
    match seq.check_total("state_in", t) {
        Ok(_) => {},
        Err(e) => {
            return Err(e);
        },
    }
    match check_conv_dims(op, x, w, bias, state_in, s, y, state_out) {
        Ok(_) => {},
        Err(e) => {
            return Err(e);
        },
    }
    let ghost a = conv_args(*op, x@, w@, opt_view(bias), state_in@, seq.seq_lens@);
    proof {
        lemma_conv_fits(
            *op,
            x@,
            w@,
            opt_view(bias),
            state_in@,
            seq.seq_lens@,
            y@,
            state_out@,
        );
    }
    let act = match op.act {
        ConvActivation::Silu => ActivationKind::Silu,
        ConvActivation::Identity => ActivationKind::Identity,
    };
    let lens = seq.seq_lens();
    let y_values = conv_outputs(f, x, w, bias, state_in, lens, c, wk, act, Ghost(a));
    let windows = conv_windows(x, state_in, lens, c, wk - 1, Ghost(a));
    y.write_all(y_values.as_slice());
    state_out.write_all(windows.as_slice());
    Ok(())
}

/// Whether `first` and `second` run the two parts of the sequences of `whole`:
/// they share its weights, `first` starts from its windows and `second` starts
/// from the windows that `first` leaves.
pub open spec fn is_split(whole: ConvArgs, first: ConvArgs, second: ConvArgs) -> bool {
    &&& first.w == whole.w && second.w == whole.w
    &&& first.bias == whole.bias && second.bias == whole.bias
    &&& first.c == whole.c && second.c == whole.c && whole.c > 0
    &&& first.wk == whole.wk && second.wk == whole.wk && whole.wk > 0
    &&& first.act == whole.act && second.act == whole.act
    &&& first.lens.len() == whole.lens.len() && second.lens.len() == whole.lens.len()
    &&& forall|slot: int|
        0 <= slot < whole.lens.len() ==> #[trigger] whole.lens[slot] == first.lens[slot]
            + second.lens[slot]
    &&& first.state == whole.state
    &&& forall|slot: int, row: int, ch: int|
        0 <= slot < whole.lens.len() && 0 <= row < first.lens[slot] && 0 <= ch < whole.c
            ==> #[trigger] first.row_element(slot, row, ch) == whole.row_element(slot, row, ch)
    &&& forall|slot: int, row: int, ch: int|
        0 <= slot < whole.lens.len() && 0 <= row < second.lens[slot] && 0 <= ch < whole.c
            ==> #[trigger] second.row_element(slot, row, ch) == whole.row_element(
            slot,
            first.lens[slot] + row,
            ch,
        )
    &&& forall|i: int|
        0 <= i < whole.lens.len() * whole.hist() * whole.c ==> #[trigger] second.state.cells.f32_at(
            i,
        ) == first.window_at(i)
}

impl ConvArgs {
    /// Element of a row of a sequence.
    pub open spec fn row_element(self, slot: int, row: int, ch: int) -> u32 {
        self.x.cells.f32_at((start_of(self.lens, slot) + row) * self.c + ch)
    }
}

/// The history of the second part is the history of the whole, from where the
/// first part ends.
proof fn lemma_split_history(
    whole: ConvArgs,
    first: ConvArgs,
    second: ConvArgs,
    slot: int,
    abs: int,
    ch: int,
)
    requires
        is_split(whole, first, second),
        0 <= slot < whole.lens.len(),
        0 <= ch < whole.c,
        0 <= abs,
    ensures
        abs < whole.hist() + first.lens[slot] ==> first.history(slot, abs, ch) == whole.history(
            slot,
            abs,
            ch,
        ),
        abs < whole.hist() + second.lens[slot] ==> second.history(slot, abs, ch) == whole.history(
            slot,
            first.lens[slot] + abs,
            ch,
        ),
{
    let hist = whole.hist();
    let c = whole.c;
    if abs < hist + first.lens[slot] && abs >= hist {
        assert(first.row_element(slot, abs - hist, ch) == whole.row_element(slot, abs - hist, ch));
    }
    if abs < hist + second.lens[slot] {
        if abs < hist {
            let i = (slot * hist + abs) * c + ch;
            lemma_flat_bound(slot, whole.lens.len() as int, abs, hist);
            lemma_flat_bound(slot * hist + abs, whole.lens.len() * hist, ch, c);
            lemma_split(slot * hist + abs, ch, c);
            lemma_split(slot, abs, hist);
            assert(second.state.cells.f32_at(i) == first.window_at(i));
            let there = first.lens[slot] + abs;
            assert(first.window_at(i) == first.history(slot, there, ch));
            if there >= hist {
                assert(first.row_element(slot, there - hist, ch) == whole.row_element(
                    slot,
                    there - hist,
                    ch,
                ));
            }
        } else {
            assert(second.row_element(slot, abs - hist, ch) == whole.row_element(
                slot,
                first.lens[slot] + abs - hist,
                ch,
            ));
        }
    }
}

proof fn lemma_split_sum<F: Fn(FloatOp, u32, u32) -> u32>(
    f: F,
    whole: ConvArgs,
    first: ConvArgs,
    second: ConvArgs,
    slot: int,
    row: int,
    ch: int,
    n: int,
)
    requires
        is_split(whole, first, second),
        0 <= slot < whole.lens.len(),
        0 <= ch < whole.c,
        0 <= row,
        0 <= n <= whole.wk,
    ensures
        row < first.lens[slot] ==> first.sum(f, slot, row, ch, n) == whole.sum(
            f,
            slot,
            row,
            ch,
            n,
        ),
        row < second.lens[slot] ==> second.sum(f, slot, row, ch, n) == whole.sum(
            f,
            slot,
            first.lens[slot] + row,
            ch,
            n,
        ),
    decreases n,
{
    if n > 0 {
        lemma_split_sum(f, whole, first, second, slot, row, ch, n - 1);
        lemma_split_history(whole, first, second, slot, row + n - 1, ch);
    }
}

/// Continuity: running sequences in two parts, the second from the windows that
/// the first leaves, gives the outputs and the windows of one run, bit for bit,
/// as long as the carried windows are stored without rounding.
pub proof fn law_conv_continuity<F: Fn(FloatOp, u32, u32) -> u32>(
    f: F,
    whole: ConvArgs,
    first: ConvArgs,
    second: ConvArgs,
)
    requires
        is_split(whole, first, second),
    ensures
        forall|slot: int, row: int, ch: int|
            0 <= slot < whole.lens.len() && 0 <= row < first.lens[slot] && 0 <= ch < whole.c
                ==> #[trigger] first.output(f, slot, row, ch) == whole.output(f, slot, row, ch),
        forall|slot: int, row: int, ch: int|
            0 <= slot < whole.lens.len() && 0 <= row < second.lens[slot] && 0 <= ch < whole.c
                ==> #[trigger] second.output(f, slot, row, ch) == whole.output(
                f,
                slot,
                first.lens[slot] + row,
                ch,
            ),
        second.windows() == whole.windows(),
{
    assert forall|slot: int, row: int, ch: int|
        0 <= slot < whole.lens.len() && 0 <= row < first.lens[slot] && 0 <= ch < whole.c implies
        #[trigger] first.output(f, slot, row, ch) == whole.output(f, slot, row, ch) by {
        lemma_split_sum(f, whole, first, second, slot, row, ch, whole.wk);
    }
    assert forall|slot: int, row: int, ch: int|
        0 <= slot < whole.lens.len() && 0 <= row < second.lens[slot] && 0 <= ch < whole.c implies
        #[trigger] second.output(f, slot, row, ch) == whole.output(
        f,
        slot,
        first.lens[slot] + row,
        ch,
    ) by {
        lemma_split_sum(f, whole, first, second, slot, row, ch, whole.wk);
    }
    let hist = whole.hist();
    let c = whole.c;
    assert forall|i: int| 0 <= i < whole.lens.len() * hist * c implies second.window_at(i)
        == whole.window_at(i) by {
        let row = i / c;
        let slot = row / hist;
        lemma_window_slot(i, whole.lens.len() as int, hist, c);
        lemma_split_history(
            whole,
            first,
            second,
            slot,
            second.lens[slot] + row % hist,
            i % c,
        );
        assert(whole.lens[slot] == first.lens[slot] + second.lens[slot]);
    }
    assert(second.windows() =~= whole.windows());
}

/// A flat index into the windows names a sequence, a row and a channel.
proof fn lemma_window_slot(i: int, s: int, hist: int, c: int)
    requires
        0 <= i < s * hist * c,
        0 < c,
        0 <= hist,
        0 <= s,
    ensures
        0 < hist,
        0 <= i / c / hist < s,
        0 <= i / c % hist < hist,
        0 <= i % c < c,
{
    if hist == 0 {
        assert(s * hist * c == 0) by (nonlinear_arith)
            requires
                hist == 0,
        ;
    }
    assert(0 <= i / c < s * hist) by (nonlinear_arith)
        requires
            0 <= i < s * hist * c,
            0 < c,
    ;
    let r = i / c;
    assert(0 <= r / hist < s) by (nonlinear_arith)
        requires
            0 <= r < s * hist,
            0 < hist,
    ;
    vstd::arithmetic::div_mod::lemma_mod_bound(r, hist);
    vstd::arithmetic::div_mod::lemma_mod_bound(i, c);
}

} // verus!
