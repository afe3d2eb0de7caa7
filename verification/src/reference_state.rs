//! References in double precision for kernels that carry state.
use vstd::prelude::*;
use crate::buffer::{extent, lemma_extent2, lemma_extent3, shape_extent};
use crate::causal_conv1d::ConvActivation;
use crate::check::{
    clear, fault_if, fault_of, given, no_problems, or_fault, overflow, overflow_error, push_when,
};
use crate::double::{
    activated, add_up, dp_add, dp_mul, eval_activation_f64, is_double, multiply, DoubleOp,
};
use crate::error::{plain, quoting, views, Arg, Detail, DetailView, ErrorView, T0Error};
use crate::index::{lemma_flat_bound, lemma_mul_nonneg, lemma_unflat};
use crate::ir::ActivationKind;
use crate::reference::opt_seq;
use crate::segments::{lemma_slot_of, lemma_start_le, lemma_start_step, slot_of, start_of, total};

verus! {

/// The error of a product of extents that overflows.
pub open spec fn size_fault(op: &'static str, dims: Seq<usize>, detail: DetailView) -> Option<
    ErrorView,
> {
    fault_if(extent(dims) is None, overflow_error(op, detail))
}

/// Computes a product of extents.
pub fn check_size(op: &'static str, dims: &[usize], detail: Detail) -> (r: Result<usize, T0Error>)
    ensures
        match r {
            Ok(n) => extent(dims@) == Some(n) && size_fault(op, dims@, detail@) is None,
            Err(e) => size_fault(op, dims@, detail@) == Some(e.view()),
        },
{
    match shape_extent(dims) {
        Some(n) => Ok(n),
        None => Err(overflow(op, detail)),
    }
}

/// Problem of a slice whose length is not the product of its extents.
pub open spec fn len_faults(
    op: &'static str,
    tensor: &'static str,
    expected: usize,
    got: usize,
    text: &'static str,
) -> Seq<ErrorView> {
    given(
        got != expected,
        ErrorView::ShapeLengthMismatch { op, tensor, expected, got, detail: plain(text) },
    )
}

/// Checks the length of a slice.
pub fn check_len(
    problems: &mut Vec<T0Error>,
    op: &'static str,
    tensor: &'static str,
    expected: usize,
    got: usize,
    text: &'static str,
)
    ensures
        views(final(problems)@) == views(old(problems)@) + len_faults(
            op,
            tensor,
            expected,
            got,
            text,
        ),
{
    let detail = Detail::plain(text);
    push_when(
        problems,
        got != expected,
        T0Error::ShapeLengthMismatch { op, tensor, expected, got, detail },
    );
}

/// Whether a pair is the sequence of a token and its row there.
pub open spec fn is_place(lens: Seq<u32>, token: int, p: (usize, usize)) -> bool {
    &&& p.0 == slot_of(lens, token)
    &&& p.0 < lens.len()
    &&& p.1 == token - start_of(lens, p.0 as int)
    &&& p.1 < lens[p.0 as int]
}

/// Sequence and row of each token.
pub(crate) fn token_places(lens: &[u32]) -> (r: Vec<(usize, usize)>)
    requires
        total(lens@) <= usize::MAX,
    ensures
        r@.len() == total(lens@),
        forall|i: int| 0 <= i < r@.len() ==> is_place(lens@, i, #[trigger] r@[i]),
{
    let mut out: Vec<(usize, usize)> = Vec::new();
    assert(start_of(lens@, 0) == 0) by {
        assert(lens@.take(0).len() == 0);
    }
    for slot in 0..lens.len()
        invariant
            total(lens@) <= usize::MAX,
            out@.len() == start_of(lens@, slot as int),
            forall|i: int| 0 <= i < out@.len() ==> is_place(lens@, i, #[trigger] out@[i]),
    {
        let len: usize = lens[slot] as usize;
        for row in 0..len
            invariant
                slot < lens@.len(),
                len == lens@[slot as int],
                out@.len() == start_of(lens@, slot as int) + row,
                forall|i: int| 0 <= i < out@.len() ==> is_place(lens@, i, #[trigger] out@[i]),
        {
            proof {
                lemma_slot_of(lens@, slot as int, row as int);
            }
            out.push((slot, row));
        }
        proof {
            lemma_start_step(lens@, slot as int);
        }
    }
    assert(lens@.take(lens@.len() as int) =~= lens@);
    out
}

/// Operands of the reference convolution.
pub struct ConvRef {
    /// Input rows.
    pub x: Seq<u64>,
    /// Taps of each channel.
    pub w: Seq<u64>,
    /// Bias of each channel.
    pub bias: Option<Seq<u64>>,
    /// Carried windows.
    pub state: Seq<u64>,
    /// Token counts of the sequences.
    pub lens: Seq<u32>,
    /// Number of tokens.
    pub t: usize,
    /// Number of channels.
    pub c: usize,
    /// Number of taps.
    pub wk: usize,
    /// Number of carried windows.
    pub s: usize,
    /// Activation of the sums.
    pub act: ConvActivation,
}

impl ConvRef {
    /// Rows of a carried window.
    pub open spec fn hist(self) -> usize {
        if self.wk == 0 {
            0
        } else {
            (self.wk - 1) as usize
        }
    }

    /// Problems of the lengths.
    pub open spec fn length_faults(self) -> Seq<ErrorView> {
        let op = "causal_conv1d";
        clear() + len_faults(
            op,
            "x",
            extent(seq![self.t, self.c])->0,
            self.x.len() as usize,
            "x length must equal T * C",
        ) + len_faults(
            op,
            "w",
            extent(seq![self.c, self.wk])->0,
            self.w.len() as usize,
            "w length must equal C * Wk",
        ) + (match self.bias {
            None => Seq::empty(),
            Some(b) => len_faults(
                op,
                "bias",
                self.c,
                b.len() as usize,
                "bias length must equal C",
            ),
        }) + len_faults(
            op,
            "state_in",
            extent(seq![self.s, self.hist(), self.c])->0,
            self.state.len() as usize,
            "state_in length must equal S * hist * C",
        ) + len_faults(
            op,
            "seq_lens",
            self.s,
            self.lens.len() as usize,
            "seq_lens length must equal S",
        )
    }

    /// The error of operands that do not fit.
    pub open spec fn fault(self) -> Option<ErrorView> {
        let op = "causal_conv1d";
        or_fault(
            or_fault(
                or_fault(
                    size_fault(
                        op,
                        seq![self.t, self.c],
                        quoting(
                            "T * C overflows usize for T={}, C={}",
                            seq![Arg::Int(self.t as u64), Arg::Int(self.c as u64)],
                        ),
                    ),
                    size_fault(
                        op,
                        seq![self.c, self.wk],
                        quoting(
                            "C * Wk overflows usize for C={}, Wk={}",
                            seq![Arg::Int(self.c as u64), Arg::Int(self.wk as u64)],
                        ),
                    ),
                ),
                size_fault(
                    op,
                    seq![self.s, self.hist(), self.c],
                    plain("S * hist * C overflows usize"),
                ),
            ),
            fault_of(self.length_faults()),
        )
    }

    /// Whether the operands fit, with room for the tokens of all sequences.
    pub open spec fn fits(self) -> bool {
        &&& self.x.len() == self.t * self.c
        &&& self.w.len() == self.c * self.wk
        &&& self.bias matches Some(b) ==> b.len() == self.c
        &&& self.state.len() == self.s * self.hist() * self.c
        &&& self.lens.len() == self.s
        &&& total(self.lens) <= self.t
    }

    /// Element of the history of a sequence: row `abs` counts from the first
    /// row of the carried window.
    pub open spec fn history(self, slot: int, abs: int, ch: int) -> u64 {
        if abs < self.hist() {
            self.state[(slot * self.hist() + abs) * self.c + ch]
        } else {
            self.x[(start_of(self.lens, slot) + abs - self.hist()) * self.c + ch]
        }
    }

    /// Sum of the first taps.
    pub open spec fn sum<E: Fn(DoubleOp, u64, u64) -> u64>(
        self,
        e: E,
        slot: int,
        row: int,
        ch: int,
        i: int,
    ) -> u64
        decreases i,
    {
        if i <= 0 {
            match self.bias {
                Some(b) => b[ch],
                None => 0,
            }
        } else {
            dp_add(
                e,
                self.sum(e, slot, row, ch, i - 1),
                dp_mul(e, self.w[ch * self.wk + i - 1], self.history(slot, row + i - 1, ch)),
            )
        }
    }

    /// Output at a flat index; tokens beyond the last sequence have zeros.
    pub open spec fn output_at<E: Fn(DoubleOp, u64, u64) -> u64>(self, e: E, p: int) -> u64 {
        let token = p / self.c as int;
        let slot = slot_of(self.lens, token);
        if token < total(self.lens) {
            activated(
                e,
                self.sum(
                    e,
                    slot,
                    token - start_of(self.lens, slot),
                    p % self.c as int,
                    self.wk as int,
                ),
                self.act.kind(),
            )
        } else {
            0
        }
    }

    /// Carried window at a flat index.
    pub open spec fn window_at(self, p: int) -> u64 {
        let row = p / self.c as int;
        let slot = row / self.hist() as int;
        self.history(slot, self.lens[slot] + row % self.hist() as int, p % self.c as int)
    }
}

fn history_of(
    x: &[u64],
    state: &[u64],
    base: usize,
    hist: usize,
    c: usize,
    slot: usize,
    row: usize,
    i: usize,
    ch: usize,
    Ghost(args): Ghost<ConvRef>,
) -> (r: u64)
    requires
        args.fits(),
        x@ == args.x,
        state@ == args.state,
        base == start_of(args.lens, slot as int),
        hist == args.hist(),
        c == args.c,
        slot < args.s,
        ch < c,
        i <= hist,
        row + i < hist + args.lens[slot as int],
    ensures
        r == args.history(slot as int, row + i, ch as int),
{
    let x_len: usize = x.len();
    let state_len: usize = state.len();
    proof {
        lemma_start_step(args.lens, slot as int);
        lemma_start_le(args.lens, slot + 1);
    }
    if row < hist - i {
        let abs: usize = row + i;
        proof {
            lemma_flat_bound(slot as int, args.s as int, abs as int, hist as int);
            lemma_flat_bound(slot * hist + abs, args.s * hist, ch as int, c as int);
            assert(slot * hist + abs <= (slot * hist + abs) * c) by (nonlinear_arith)
                requires
                    c > 0,
                    slot * hist + abs >= 0,
            ;
        }
        state[(slot * hist + abs) * c + ch]
    } else {
        let past: usize = row - (hist - i);
        proof {
            lemma_flat_bound(base + past, args.t as int, ch as int, c as int);
        }
        x[(base + past) * c + ch]
    }
}

/// Reference of [`crate::causal_conv1d::causal_conv1d`]: outputs and carried
/// windows.
pub fn causal_conv1d_f64_reference<E: Fn(DoubleOp, u64, u64) -> u64>(
    e: &E,
    x: &[u64],
    t: usize,
    c: usize,
    w: &[u64],
    wk: usize,
    bias: Option<&[u64]>,
    act: ConvActivation,
    state_in: &[u64],
    s: usize,
    seq_lens: &[u32],
) -> (r: Result<(Vec<u64>, Vec<u64>), T0Error>)
    requires
        is_double(*e),
        (ConvRef {
            x: x@,
            w: w@,
            bias: opt_seq(bias),
            state: state_in@,
            lens: seq_lens@,
            t,
            c,
            wk,
            s,
            act,
        }).fault() is None ==> c == 0 || total(seq_lens@) <= t,
    ensures
        ({
            let args = ConvRef {
                x: x@,
                w: w@,
                bias: opt_seq(bias),
                state: state_in@,
                lens: seq_lens@,
                t,
                c,
                wk,
                s,
                act,
            };
            match args.fault() {
                Some(f) => r is Err && r->Err_0.view() == f,
                None => {
                    &&& r is Ok
                    &&& r->Ok_0.0@ == Seq::new((t * c) as nat, |p: int| args.output_at(*e, p))
                    &&& r->Ok_0.1@ == Seq::new(
                        (s * args.hist() * c) as nat,
                        |p: int| args.window_at(p),
                    )
                },
            }
        }),
{
    let ghost args = ConvRef {
        x: x@,
        w: w@,
        bias: opt_seq(bias),
        state: state_in@,
        lens: seq_lens@,
        t,
        c,
        wk,
        s,
        act,
    };
    let hist: usize = if wk == 0 {
        0
    } else {
        wk - 1
    };
    let (tc, shc) = match check_conv_ref(x, t, c, w, wk, bias, state_in, s, seq_lens, Ghost(args)) {
        Ok(n) => n,
        Err(f) => {
            return Err(f);
        },
    };
    if c == 0 {
        proof {
            assert(t * c == 0) by (nonlinear_arith)
                requires
                    c == 0,
            ;
            assert(s * args.hist() * c == 0) by (nonlinear_arith)
                requires
                    c == 0,
            ;
        }
        let none = (Vec::new(), Vec::new());
        assert(none.0@ =~= Seq::new((t * c) as nat, |p: int| args.output_at(*e, p)));
        assert(none.1@ =~= Seq::new((s * args.hist() * c) as nat, |p: int| args.window_at(p)));
        return Ok(none);
    }
    let y = conv_outputs(e, x, c, w, wk, bias, act, state_in, seq_lens, tc, Ghost(args));
    let out = conv_windows(x, c, wk, state_in, seq_lens, shc, Ghost(args));
    Ok((y, out))
}

fn check_conv_ref(
    x: &[u64],
    t: usize,
    c: usize,
    w: &[u64],
    wk: usize,
    bias: Option<&[u64]>,
    state_in: &[u64],
    s: usize,
    seq_lens: &[u32],
    Ghost(args): Ghost<ConvRef>,
) -> (r: Result<(usize, usize), T0Error>)
    requires
        x@ == args.x,
        w@ == args.w,
        opt_seq(bias) == args.bias,
        state_in@ == args.state,
        seq_lens@ == args.lens,
        t == args.t,
        c == args.c,
        wk == args.wk,
        s == args.s,
    ensures
        match r {
            Err(f) => args.fault() == Some(f.view()),
            Ok(n) => {
                &&& args.fault() is None
                &&& n.0 == t * c
                &&& n.1 == s * args.hist() * c
                &&& args.x.len() == t * c
                &&& args.w.len() == c * wk
                &&& args.bias matches Some(b) ==> b.len() == c
                &&& args.state.len() == s * args.hist() * c
                &&& args.lens.len() == s
            },
        },
{
    let op = "causal_conv1d";
    let hist: usize = if wk == 0 {
        0
    } else {
        wk - 1
    };
    let dims = vec![t, c];
    assert(dims@ =~= seq![t, c]);
    let detail = Detail::two(
        "T * C overflows usize for T={}, C={}",
        Arg::Int(t as u64),
        Arg::Int(c as u64),
    );
    let tc: usize = match check_size(op, dims.as_slice(), detail) {
        Ok(n) => n,
        Err(f) => {
            return Err(f);
        },
    };
    let dims = vec![c, wk];
    assert(dims@ =~= seq![c, wk]);
    let detail = Detail::two(
        "C * Wk overflows usize for C={}, Wk={}",
        Arg::Int(c as u64),
        Arg::Int(wk as u64),
    );
    let cwk: usize = match check_size(op, dims.as_slice(), detail) {
        Ok(n) => n,
        Err(f) => {
            return Err(f);
        },
    };
    let dims = vec![s, hist, c];
    assert(dims@ =~= seq![s, hist, c]);
    let detail = Detail::plain("S * hist * C overflows usize");
    let shc: usize = match check_size(op, dims.as_slice(), detail) {
        Ok(n) => n,
        Err(f) => {
            return Err(f);
        },
    };
    let mut problems = no_problems();
    check_len(&mut problems, op, "x", tc, x.len(), "x length must equal T * C");
    check_len(&mut problems, op, "w", cwk, w.len(), "w length must equal C * Wk");
    match bias {
        None => {
            assert(views(problems@) =~= views(problems@) + Seq::<ErrorView>::empty());
        },
        Some(b) => {
            check_len(&mut problems, op, "bias", c, b.len(), "bias length must equal C");
        },
    }
    check_len(
        &mut problems,
        op,
        "state_in",
        shc,
        state_in.len(),
        "state_in length must equal S * hist * C",
    );
    check_len(&mut problems, op, "seq_lens", s, seq_lens.len(), "seq_lens length must equal S");
    assert(views(problems@) =~= args.length_faults());
    match T0Error::from_problems(problems) {
        Ok(()) => {},
        Err(f) => {
            return Err(f);
        },
    }
    proof {
        lemma_extent2(seq![t, c]);
        lemma_extent2(seq![c, wk]);
        lemma_extent3(seq![s, hist, c]);
    }
    Ok((tc, shc))
}

fn conv_outputs<E: Fn(DoubleOp, u64, u64) -> u64>(
    e: &E,
    x: &[u64],
    c: usize,
    w: &[u64],
    wk: usize,
    bias: Option<&[u64]>,
    act: ConvActivation,
    state_in: &[u64],
    seq_lens: &[u32],
    tc: usize,
    Ghost(args): Ghost<ConvRef>,
) -> (y: Vec<u64>)
    requires
        is_double(*e),
        args.fits(),
        x@ == args.x,
        w@ == args.w,
        opt_seq(bias) == args.bias,
        state_in@ == args.state,
        seq_lens@ == args.lens,
        c == args.c,
        wk == args.wk,
        act == args.act,
        tc == args.t * c,
        c > 0,
    ensures
        y@ == Seq::new(tc as nat, |p: int| args.output_at(*e, p)),
{
    let hist: usize = if wk == 0 {
        0
    } else {
        wk - 1
    };
    let places = token_places(seq_lens);
    let kind = match act {
        ConvActivation::Silu => ActivationKind::Silu,
        ConvActivation::Identity => ActivationKind::Identity,
    };
    let w_len: usize = w.len();
    let mut y: Vec<u64> = Vec::new();
    for p in 0..tc
        invariant
            is_double(*e),
            args.fits(),
            x@ == args.x,
            w@ == args.w,
            opt_seq(bias) == args.bias,
            state_in@ == args.state,
            seq_lens@ == args.lens,
            c == args.c,
            wk == args.wk,
            hist == args.hist(),
            kind == args.act.kind(),
            w_len == w@.len(),
            tc == args.t * c,
            c > 0,
            places@.len() == total(seq_lens@),
            forall|i: int| 0 <= i < places@.len() ==> is_place(seq_lens@, i, #[trigger] places@[i]),
            y@ =~= Seq::new(p as nat, |p: int| args.output_at(*e, p)),
    {
        proof {
            lemma_unflat(p as int, args.t as int, c as int);
        }
        let token: usize = p / c;
        let ch: usize = p % c;
        if token < places.len() {
            let (slot, row) = places[token];
            assert(places@[token as int].0 == slot);
            let base: usize = token - row;
            let mut acc: u64 = match bias {
                Some(b) => b[ch],
                None => 0,
            };
            for i in 0..wk
                invariant
                    is_double(*e),
                    args.fits(),
                    x@ == args.x,
                    w@ == args.w,
                    state_in@ == args.state,
                    seq_lens@ == args.lens,
                    c == args.c,
                    wk == args.wk,
                    hist == args.hist(),
                    w_len == w@.len(),
                    ch < c,
                    slot < args.s,
                    row < seq_lens@[slot as int],
                    base == start_of(args.lens, slot as int),
                    acc == args.sum(*e, slot as int, row as int, ch as int, i as int),
            {
                proof {
                    lemma_flat_bound(ch as int, c as int, i as int, wk as int);
                }
                let v: u64 = history_of(
                    x,
                    state_in,
                    base,
                    hist,
                    c,
                    slot,
                    row,
                    i,
                    ch,
                    Ghost(args),
                );
                acc = add_up(e, acc, multiply(e, w[ch * wk + i], v));
            }
            y.push(eval_activation_f64(e, acc, kind));
        } else {
            y.push(0);
        }
    }
    y
}

fn conv_windows(
    x: &[u64],
    c: usize,
    wk: usize,
    state_in: &[u64],
    seq_lens: &[u32],
    shc: usize,
    Ghost(args): Ghost<ConvRef>,
) -> (out: Vec<u64>)
    requires
        args.fits(),
        x@ == args.x,
        state_in@ == args.state,
        seq_lens@ == args.lens,
        c == args.c,
        wk == args.wk,
        shc == args.s * args.hist() * c,
    ensures
        out@ == Seq::new(shc as nat, |p: int| args.window_at(p)),
{
    let hist: usize = if wk == 0 {
        0
    } else {
        wk - 1
    };
    let starts = first_tokens(seq_lens);
    let mut out: Vec<u64> = Vec::new();
    for p in 0..shc
        invariant
            args.fits(),
            x@ == args.x,
            state_in@ == args.state,
            seq_lens@ == args.lens,
            c == args.c,
            hist == args.hist(),
            shc == args.s * hist * c,
            starts@.len() == args.s,
            forall|i: int|
                0 <= i < args.s ==> (#[trigger] starts@[i]) == start_of(seq_lens@, i),
            out@ =~= Seq::new(p as nat, |p: int| args.window_at(p)),
    {
        proof {
            lemma_mul_nonneg(args.s as int, hist as int);
            lemma_unflat(p as int, args.s * hist, c as int);
            lemma_unflat(p as int / c as int, args.s as int, hist as int);
        }
        let row: usize = p / c;
        let slot: usize = row / hist;
        out.push(
            history_of(
                x,
                state_in,
                starts[slot],
                hist,
                c,
                slot,
                seq_lens[slot] as usize,
                row % hist,
                p % c,
                Ghost(args),
            ),
        );
    }
    out
}

/// Index of the first token of each sequence.
pub(crate) fn first_tokens(lens: &[u32]) -> (r: Vec<usize>)
    requires
        total(lens@) <= usize::MAX,
    ensures
        r@.len() == lens@.len(),
        forall|i: int| 0 <= i < r@.len() ==> (#[trigger] r@[i]) == start_of(lens@, i),
{
    let mut out: Vec<usize> = Vec::new();
    let mut base: usize = 0;
    assert(start_of(lens@, 0) == 0) by {
        assert(lens@.take(0).len() == 0);
    }
    for slot in 0..lens.len()
        invariant
            total(lens@) <= usize::MAX,
            base == start_of(lens@, slot as int),
            out@.len() == slot,
            forall|i: int| 0 <= i < slot ==> (#[trigger] out@[i]) == start_of(lens@, i),
    {
        proof {
            lemma_start_step(lens@, slot as int);
            lemma_start_le(lens@, slot + 1);
        }
        out.push(base);
        base = base + lens[slot] as usize;
    }
    out
}

} // verus!
