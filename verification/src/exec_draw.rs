//! Operations at the end of a step that draw tokens: what they are handed, and
//! what becomes of their results.
use vstd::prelude::*;
use crate::batch::{BatchMeta, TreeMask};
use crate::buffer::{
    dense, extent, shape_extent, Cells, Tensor, TensorView, TypedBuffer,
};
use crate::check::{
    dim_error, dim_mismatch, dtype_error, dtype_mismatch, invalid_attr, length_error,
    length_mismatch, only, overflow, overflow_error,
};
use crate::dtype::{f32_to_int, int_of_f32, le32};
use crate::error::{about, quoting, quoting_shape, Arg, Detail, ErrorView, T0Error};
use crate::exec_error::{ExecError, ExecFault};
use crate::exec_prepare::{all_wf, buffer_views, operands_of, Operand};
use crate::exec_state::{arity_error, same_shape};
use crate::graph::{VerifyMethod, VerifyOp};
use crate::ir::DType;
use crate::matmul::{first_dim, leading_dim};

verus! {

/// What an operation that draws tokens is handed.
pub enum Draw<'a, P, R> {
    /// Probabilities from logits.
    Postprocess {
        /// Node.
        node: usize,
        /// Logits, by their bits.
        logits: Vec<u32>,
        /// Number of sequences.
        s: usize,
        /// Queries per sequence.
        q: usize,
        /// Size of the vocabulary.
        v: usize,
        /// Sampling parameters of each sequence.
        params: &'a [P],
        /// How often each token occurred.
        history: Option<Vec<u32>>,
        /// Which tokens a grammar admits.
        grammar: Option<Vec<bool>>,
    },
    /// One token per sequence.
    Sample {
        /// Node.
        node: usize,
        /// Probabilities, by their bits.
        probs: Vec<u32>,
        /// Number of sequences.
        s: usize,
        /// Size of the vocabulary.
        v: usize,
        /// Random states.
        rng: Vec<R>,
    },
    /// Check of draft tokens.
    Verify {
        /// Node.
        node: usize,
        /// Draft tokens.
        draft: Vec<u32>,
        /// Probabilities of the draft tokens.
        draft_probs: Option<Vec<u32>>,
        /// Target probabilities.
        target: Vec<u32>,
        /// Number of sequences.
        s: usize,
        /// Draft tokens per sequence.
        k: usize,
        /// Size of the vocabulary.
        v: usize,
        /// How tokens are accepted.
        method: VerifyMethod,
        /// Random states.
        rng: Vec<R>,
        /// Which query tokens a query token of a draft tree sees.
        tree: Option<&'a TreeMask>,
    },
}

/// Value of a [`Draw`].
pub enum DrawView<P, R> {
    /// See [`Draw::Postprocess`].
    Postprocess {
        node: usize,
        logits: Seq<u32>,
        s: usize,
        q: usize,
        v: usize,
        params: Seq<P>,
        history: Option<Seq<u32>>,
        grammar: Option<Seq<bool>>,
    },
    /// See [`Draw::Sample`].
    Sample { node: usize, probs: Seq<u32>, s: usize, v: usize, rng: Seq<R> },
    /// See [`Draw::Verify`].
    Verify {
        node: usize,
        draft: Seq<u32>,
        draft_probs: Option<Seq<u32>>,
        target: Seq<u32>,
        s: usize,
        k: usize,
        v: usize,
        method: VerifyMethod,
        rng: Seq<R>,
        tree: Option<TreeMask>,
    },
}

/// Value that a reference leads to, if there is one.
pub open spec fn opt_value<T>(v: Option<&T>) -> Option<T> {
    match v {
        Some(t) => Some(*t),
        None => None,
    }
}

/// Elements of a list, if there is one.
pub open spec fn opt_seq<T>(v: Option<Vec<T>>) -> Option<Seq<T>> {
    match v {
        Some(v) => Some(v@),
        None => None,
    }
}

impl<'a, P, R> View for Draw<'a, P, R> {
    type V = DrawView<P, R>;

    open spec fn view(&self) -> DrawView<P, R> {
        match self {
            Draw::Postprocess { node, logits, s, q, v, params, history, grammar } => {
                DrawView::Postprocess {
                    node: *node,
                    logits: logits@,
                    s: *s,
                    q: *q,
                    v: *v,
                    params: params@,
                    history: opt_seq(*history),
                    grammar: opt_seq(*grammar),
                }
            },
            Draw::Sample { node, probs, s, v, rng } => DrawView::Sample {
                node: *node,
                probs: probs@,
                s: *s,
                v: *v,
                rng: rng@,
            },
            Draw::Verify { node, draft, draft_probs, target, s, k, v, method, rng, tree } => {
                DrawView::Verify {
                    node: *node,
                    draft: draft@,
                    draft_probs: opt_seq(*draft_probs),
                    target: target@,
                    s: *s,
                    k: *k,
                    v: *v,
                    method: *method,
                    rng: rng@,
                    tree: opt_value(*tree),
                }
            },
        }
    }
}

/// What an operation that draws tokens gives back.
pub struct Drawn<R> {
    /// Probabilities by their bits, or tokens.
    pub values: Result<Vec<u32>, T0Error>,
    /// Number of accepted tokens per sequence.
    pub lens: Vec<u32>,
    /// Random states afterwards.
    pub rng: Vec<R>,
}

/// Value of a [`Drawn`].
pub struct DrawnView<R> {
    /// Probabilities by their bits, or tokens.
    pub values: Result<Seq<u32>, ErrorView>,
    /// Number of accepted tokens per sequence.
    pub lens: Seq<u32>,
    /// Random states afterwards.
    pub rng: Seq<R>,
}

impl<R> View for Drawn<R> {
    type V = DrawnView<R>;

    open spec fn view(&self) -> DrawnView<R> {
        DrawnView {
            values: match self.values {
                Ok(v) => Ok(v@),
                Err(e) => Err(e.view()),
            },
            lens: self.lens@,
            rng: self.rng@,
        }
    }
}

/// Whether a call was made that was handed `call` and gave back `drawn`.
pub open spec fn drew<P, R, D: Fn(Draw<'_, P, R>) -> Drawn<R>>(
    d: D,
    call: DrawView<P, R>,
    drawn: DrawnView<R>,
) -> bool {
    exists|c: Draw<'_, P, R>, r: Drawn<R>| #[trigger] d.ensures((c,), r) && c@ == call && r@ == drawn
}

/// Whether a call can be made whatever it is handed.
pub open spec fn draws_always<P, R, D: Fn(Draw<'_, P, R>) -> Drawn<R>>(d: D) -> bool {
    forall|c: Draw<'_, P, R>| #[trigger] d.requires((c,))
}

fn draw<P, R, D: Fn(Draw<'_, P, R>) -> Drawn<R>>(d: &D, call: Draw<'_, P, R>) -> (r: Drawn<R>)
    requires
        draws_always(*d),
    ensures
        drew(*d, call@, r@),
{
    let r = d(call);
    assert(d.ensures((call,), r));
    r
}

/// Number of sequences, or the error of a context of another length.
pub open spec fn sampling_len(
    node: usize,
    op: &'static str,
    what: &'static str,
    got: usize,
    batch: BatchMeta,
) -> Result<usize, ExecFault> {
    let s = batch.ctx_len@.len() as usize;
    if got != s {
        Err(ExecFault::SamplingContext { node, op, what, expected: s, got, s })
    } else {
        Ok(s)
    }
}

/// Checks that a context has one entry per sequence.
pub fn check_sampling_len(
    node: usize,
    op: &'static str,
    what: &'static str,
    got: usize,
    batch: &BatchMeta,
) -> (r: Result<usize, ExecError>)
    ensures
        match sampling_len(node, op, what, got, *batch) {
            Ok(s) => r == Ok::<usize, ExecError>(s),
            Err(e) => r is Err && r->Err_0.view() == e,
        },
{
    let s: usize = batch.num_seqs();
    if got != s {
        return Err(ExecError::SamplingContext { node, op, what, expected: s, got, s });
    }
    Ok(s)
}

/// Elements of a tensor as singles: the whole storage if it holds singles.
pub open spec fn singles(t: Tensor) -> Seq<u32> {
    match t.cells {
        Cells::F32(s) => s,
        c => Seq::new(t.count() as nat, |i: int| c.f32_at(i)),
    }
}

/// Elements of a tensor as unsigned integers: the whole storage if it holds
/// such, raw words as they are, and other elements truncated.
pub open spec fn words(t: Tensor) -> Seq<u32> {
    match t.cells {
        Cells::U32(s) => s,
        Cells::Bytes(DType::U32, s) => Seq::new(t.count() as nat, |i: int| le32(s, i * 4)),
        c => Seq::new(
            t.count() as nat,
            |i: int| int_of_f32(c.f32_at(i), false, 0, 0xFFFF_FFFF) as u32,
        ),
    }
}

fn copy_words(s: &[u32]) -> (r: Vec<u32>)
    ensures
        r@ == s@,
{
    let mut r: Vec<u32> = Vec::new();
    let mut i: usize = 0;
    while i < s.len()
        invariant
            i <= s@.len(),
            r@ =~= s@.take(i as int),
        decreases s@.len() - i,
    {
        r.push(s[i]);
        i += 1;
    }
    assert(r@ =~= s@);
    r
}

/// Reads the elements of a tensor as singles.
pub fn view_f32(view: &TensorView<'_>) -> (r: Vec<u32>)
    requires
        view@.backed(),
    ensures
        r@ == singles(view@),
{
    match view.as_f32_slice() {
        Some(s) => {
            return copy_words(s);
        },
        None => {},
    }
    let n: usize = view.num_elements();
    let mut r: Vec<u32> = Vec::new();
    let mut i: usize = 0;
    while i < n
        invariant
            i <= n,
            view@.backed(),
            n == view@.count(),
            r@.len() == i,
            forall|j: int| 0 <= j < i ==> r@[j] == view@.cells.f32_at(j),
        decreases n - i,
    {
        r.push(view.read_f32(i));
        i += 1;
    }
    assert(r@ =~= singles(view@));
    r
}

/// Reads the elements of a tensor as unsigned integers.
pub fn view_u32(view: &TensorView<'_>) -> (r: Vec<u32>)
    requires
        view@.backed(),
    ensures
        r@ == words(view@),
{
    match view.as_u32_slice() {
        Some(s) => {
            return copy_words(s);
        },
        None => {},
    }
    let n: usize = view.num_elements();
    if view.dtype() == DType::U32 {
        let mut r: Vec<u32> = Vec::new();
        let mut i: usize = 0;
        while i < n
            invariant
                i <= n,
                view@.backed(),
                view@.cells is Bytes,
                view@.dtype() == DType::U32,
                n == view@.count(),
                r@.len() == i,
                forall|j: int| 0 <= j < i ==> r@[j] == le32(view@.cells->Bytes_1, j * 4),
            decreases n - i,
        {
            r.push(view.read_raw(i));
            i += 1;
        }
        assert(r@ =~= words(view@));
        return r;
    }
    let mut r: Vec<u32> = Vec::new();
    let mut i: usize = 0;
    while i < n
        invariant
            i <= n,
            view@.backed(),
            n == view@.count(),
            r@.len() == i,
            forall|j: int|
                0 <= j < i ==> r@[j] == int_of_f32(
                    view@.cells.f32_at(j),
                    false,
                    0,
                    0xFFFF_FFFF,
                ) as u32,
        decreases n - i,
    {
        r.push(f32_to_int(view.read_f32(i), false, 0, 0xFFFF_FFFF) as u32);
        i += 1;
    }
    assert(r@ =~= words(view@));
    r
}

/// Truth values of bytes.
pub open spec fn flags(bytes: Seq<u8>) -> Seq<bool> {
    Seq::new(bytes.len(), |i: int| bytes[i] != 0)
}

fn read_flags(bytes: &[u8]) -> (r: Vec<bool>)
    ensures
        r@ == flags(bytes@),
{
    let mut r: Vec<bool> = Vec::new();
    let mut i: usize = 0;
    while i < bytes.len()
        invariant
            i <= bytes@.len(),
            r@.len() == i,
            forall|j: int| 0 <= j < i ==> r@[j] == (bytes@[j] != 0),
        decreases bytes@.len() - i,
    {
        r.push(bytes[i] != 0);
        i += 1;
    }
    assert(r@ =~= flags(bytes@));
    r
}

/// The error of a second input of the same kind.
pub open spec fn duplicate_error(node: usize, input: usize, what: &'static str) -> ExecFault {
    ExecFault::T0(
        crate::check::attr_error(
            "logits_postprocess",
            "inputs",
            about(
                what,
                "duplicate {what} at input {} in node {}",
                seq![Arg::Int(input as u64), Arg::Int(node as u64)],
            ),
        ),
    )
}

/// The error of a second input of the same kind.
pub fn duplicate_aux(node: usize, input: usize, what: &'static str) -> (e: ExecError)
    ensures
        e.view() == duplicate_error(node, input, what),
{
    let args = vec![Arg::Int(input as u64), Arg::Int(node as u64)];
    assert(args@ =~= seq![Arg::Int(input as u64), Arg::Int(node as u64)]);
    let reason = Detail::about(what, "duplicate {what} at input {} in node {}", args);
    ExecError::T0(invalid_attr("logits_postprocess", "inputs", reason))
}

/// History and grammar among the first inputs behind the logits, or the error
/// of an input that is neither.
pub open spec fn extras(node: usize, inputs: Seq<Operand>, n: int) -> Result<
    (Option<Seq<u32>>, Option<Seq<bool>>),
    ExecFault,
>
    decreases n,
{
    if n <= 1 {
        Ok((None, None))
    } else {
        match extras(node, inputs, n - 1) {
            Err(e) => Err(e),
            Ok((history, grammar)) => {
                let t = inputs[n - 1].tensor;
                let at = (n - 1) as usize;
                let bad = ExecFault::BadPostprocessInput {
                    node,
                    input: at,
                    rank: t.rank() as usize,
                    dtype: t.dtype(),
                };
                if t.rank() == 2 && t.dtype() == DType::U32 {
                    if history is Some {
                        Err(duplicate_error(node, at, "history_counts"))
                    } else {
                        Ok((Some(words(t)), grammar))
                    }
                } else if t.rank() == 3 && t.dtype() == DType::Bool {
                    if grammar is Some {
                        Err(duplicate_error(node, at, "grammar_mask"))
                    } else if t.cells is Bytes {
                        Ok((history, Some(flags(t.cells->Bytes_1))))
                    } else {
                        Err(bad)
                    }
                } else {
                    Err(bad)
                }
            },
        }
    }
}

proof fn lemma_extras_prefix(node: usize, inputs: Seq<Operand>, n: int, m: int)
    requires
        n <= m,
        extras(node, inputs, n) is Err,
    ensures
        extras(node, inputs, m) == extras(node, inputs, n),
    decreases m - n,
{
    if n < m {
        lemma_extras_prefix(node, inputs, n, m - 1);
    }
}

/// Sorts the inputs behind the logits into history and grammar.
fn read_extras(node: usize, inputs: &[TensorView<'_>]) -> (r: Result<
    (Option<Vec<u32>>, Option<Vec<bool>>),
    ExecError,
>)
    requires
        inputs@.len() > 0,
        forall|i: int| 0 <= i < inputs@.len() ==> (#[trigger] inputs@[i])@.backed(),
    ensures
        match extras(node, operands_of(inputs@), inputs@.len() as int) {
            Err(e) => r is Err && r->Err_0.view() == e,
            Ok((history, grammar)) => r is Ok && opt_seq(r->Ok_0.0) == history && opt_seq(r->Ok_0.1)
                == grammar,
        },
{
    let mut history: Option<Vec<u32>> = None;
    let mut grammar: Option<Vec<bool>> = None;
    let ghost all = operands_of(inputs@);
    let mut i: usize = 1;
    while i < inputs.len()
        invariant
            1 <= i <= inputs@.len(),
            all == operands_of(inputs@),
            forall|j: int| 0 <= j < inputs@.len() ==> (#[trigger] inputs@[j])@.backed(),
            extras(node, all, i as int) == Ok::<(Option<Seq<u32>>, Option<Seq<bool>>), ExecFault>(
                (opt_seq(history), opt_seq(grammar)),
            ),
        decreases inputs@.len() - i,
    {
        let aux = &inputs[i];
        assert(all[i as int].tensor == aux@);
        assert(inputs@[i as int]@.backed());
        let rank: usize = aux.rank();
        let dtype = aux.dtype();
        proof {
            if extras(node, all, i + 1) is Err {
                lemma_extras_prefix(node, all, i + 1, inputs@.len() as int);
            }
        }
        if rank == 2 && dtype == DType::U32 {
            if history.is_some() {
                return Err(duplicate_aux(node, i, "history_counts"));
            }
            history = Some(view_u32(aux));
        } else if rank == 3 && dtype == DType::Bool {
            if grammar.is_some() {
                return Err(duplicate_aux(node, i, "grammar_mask"));
            }
            match aux.as_bytes() {
                Some(bytes) => {
                    grammar = Some(read_flags(bytes));
                },
                None => {
                    return Err(ExecError::BadPostprocessInput { node, input: i, rank, dtype });
                },
            }
        } else {
            return Err(ExecError::BadPostprocessInput { node, input: i, rank, dtype });
        }
        i += 1;
    }
    Ok((history, grammar))
}

/// The error of a tensor whose first extent is not the number of sequences.
pub open spec fn seq_dim_error(tensor: &'static str, s: usize, t: Tensor) -> ExecFault {
    ExecFault::T0(dim_error("S", "batch", s, tensor, first_dim(t.shape)))
}

fn bad_seq_dim(tensor: &'static str, s: usize, t: &TensorView<'_>) -> (e: ExecError)
    ensures
        e.view() == seq_dim_error(tensor, s, t@),
{
    ExecError::T0(dim_mismatch("S", "batch", s, tensor, leading_dim(t.shape())))
}

/// What the postprocessing is handed, or its error.
pub open spec fn postprocess_call<P, R>(
    node: usize,
    inputs: Seq<Operand>,
    outputs: Seq<Tensor>,
    params: Seq<P>,
    batch: BatchMeta,
) -> Result<DrawView<P, R>, ExecFault> {
    match sampling_len(node, "logits_postprocess", "params", params.len() as usize, batch) {
        Err(e) => Err(e),
        Ok(s) => if inputs.len() == 0 || outputs.len() != 1 {
            Err(
                arity_error(
                    "logits_postprocess",
                    "inputs/outputs",
                    "logits_postprocess requires 1-3 inputs and 1 output, got {} inputs and {} outputs",
                    seq![Arg::Int(inputs.len() as u64), Arg::Int(outputs.len() as u64)],
                ),
            )
        } else {
            let logits = inputs[0].tensor;
            let out = outputs[0];
            if logits.rank() != 3 || logits.shape[0] != s {
                Err(seq_dim_error("logits", s, logits))
            } else {
                match extras(node, inputs, inputs.len() as int) {
                    Err(e) => Err(e),
                    Ok((history, grammar)) => if out.dtype() != DType::F32 {
                        Err(ExecFault::T0(dtype_error("probs", seq![DType::F32], out.dtype())))
                    } else if !(out.cells is F32) {
                        Err(
                            ExecFault::T0(
                                length_error(
                                    "probs",
                                    0,
                                    singles(logits).len() as int,
                                    out.shape,
                                ),
                            ),
                        )
                    } else {
                        Ok(
                            DrawView::Postprocess {
                                node,
                                logits: singles(logits),
                                s,
                                q: logits.shape[1],
                                v: logits.shape[2],
                                params,
                                history,
                                grammar,
                            },
                        )
                    },
                }
            }
        },
    }
}

/// Output of the postprocessing, given what was computed.
pub open spec fn postprocess_result<R>(out: Tensor, drawn: DrawnView<R>) -> Result<
    Seq<Tensor>,
    ExecFault,
> {
    match drawn.values {
        Err(e) => Err(ExecFault::T0(e)),
        Ok(values) => if values.len() != out.cells.len() {
            Err(
                ExecFault::T0(
                    length_error(
                        "probs",
                        out.cells.len() as int,
                        values.len() as int,
                        out.shape,
                    ),
                ),
            )
        } else {
            Ok(seq![out.with_cells(out.cells.with_f32s(values))])
        },
    }
}

/// Writes computed probabilities into an output.
pub fn finish_postprocess<R>(drawn: Drawn<R>, out: TypedBuffer) -> (r: Result<
    Vec<TypedBuffer>,
    ExecError,
>)
    requires
        out.wf(),
        out@.cells is F32,
    ensures
        match postprocess_result(out@, drawn@) {
            Err(e) => r is Err && r->Err_0.view() == e,
            Ok(t) => r is Ok && buffer_views(r->Ok_0@) == t && all_wf(r->Ok_0@),
        },
{
    let mut out = out;
    let values = match drawn.values {
        Ok(v) => v,
        Err(e) => {
            return Err(ExecError::T0(e));
        },
    };
    let len: usize = out.as_view().backing_len();
    if values.len() != len {
        return Err(ExecError::T0(length_mismatch("probs", len, values.len(), out.shape())));
    }
    let ghost start = out@;
    let mut view = out.as_view_mut();
    view.write_all(values.as_slice());
    let ghost done = view@;
    assert(out@ =~= done);
    let mut outputs: Vec<TypedBuffer> = Vec::new();
    outputs.push(out);
    assert(buffer_views(outputs@) =~= seq![done]);
    Ok(outputs)
}

/// Postprocesses logits.
pub fn dispatch_postprocess<P, R, D: Fn(Draw<'_, P, R>) -> Drawn<R>>(
    d: &D,
    node: usize,
    inputs: &[TensorView<'_>],
    outputs: Vec<TypedBuffer>,
    params: &[P],
    batch: &BatchMeta,
) -> (r: Result<Vec<TypedBuffer>, ExecError>)
    requires
        draws_always(*d),
        forall|i: int| 0 <= i < inputs@.len() ==> (#[trigger] inputs@[i])@.backed(),
        all_wf(outputs@),
    ensures
        match postprocess_call::<P, R>(
            node,
            operands_of(inputs@),
            buffer_views(outputs@),
            params@,
            *batch,
        ) {
            Err(e) => r is Err && r->Err_0.view() == e,
            Ok(call) => exists|drawn: DrawnView<R>|
                #![trigger drew(*d, call, drawn)]
                {
                    &&& drew(*d, call, drawn)
                    &&& match postprocess_result(outputs@[0]@, drawn) {
                        Err(e) => r is Err && r->Err_0.view() == e,
                        Ok(t) => r is Ok && buffer_views(r->Ok_0@) == t && all_wf(r->Ok_0@),
                    }
                },
        },
{
    let s: usize = match check_sampling_len(
        node,
        "logits_postprocess",
        "params",
        params.len(),
        batch,
    ) {
        Ok(s) => s,
        Err(e) => {
            return Err(e);
        },
    };
    let count: usize = outputs.len();
    if inputs.len() == 0 || count != 1 {
        let reason = Detail::two(
            "logits_postprocess requires 1-3 inputs and 1 output, got {} inputs and {} outputs",
            Arg::Int(inputs.len() as u64),
            Arg::Int(count as u64),
        );
        return Err(ExecError::T0(invalid_attr("logits_postprocess", "inputs/outputs", reason)));
    }
    let logits = &inputs[0];
    assert(operands_of(inputs@)[0].tensor == logits@);
    assert(inputs@[0]@.backed());
    if logits.rank() != 3 || logits.shape()[0] != s {
        return Err(bad_seq_dim("logits", s, logits));
    }
    let (history, grammar) = match read_extras(node, inputs) {
        Ok(x) => x,
        Err(e) => {
            return Err(e);
        },
    };
    let q: usize = logits.shape()[1];
    let v: usize = logits.shape()[2];
    let values = view_f32(logits);
    let mut outputs = outputs;
    let ghost start = buffer_views(outputs@);
    let out = match outputs.pop() {
        Some(b) => b,
        None => {
            return Ok(outputs);
        },
    };
    assert(start[0] == out@);
    let view = out.as_view();
    if view.dtype() != DType::F32 {
        return Err(ExecError::T0(dtype_mismatch("probs", only(DType::F32), view.dtype())));
    }
    if view.as_f32_slice().is_none() {
        return Err(ExecError::T0(length_mismatch("probs", 0, values.len(), out.shape())));
    }
    let call = Draw::Postprocess { node, logits: values, s, q, v, params, history, grammar };
    let drawn = draw(d, call);
    assert(drew(*d, call@, drawn@));
    finish_postprocess(drawn, out)
}

/// A tensor of unsigned integers in place of an output, or the error of a length
/// or shape that does not fit.
pub open spec fn replaced(
    node: usize,
    op: &'static str,
    outputs: Seq<Tensor>,
    position: int,
    shape: Seq<usize>,
    values: Seq<u32>,
) -> Result<Seq<Tensor>, ExecFault> {
    match extent(shape) {
        None => Err(
            ExecFault::T0(
                overflow_error(
                    op,
                    quoting_shape("output shape {dims} element product overflows usize", shape),
                ),
            ),
        ),
        Some(expected) => if values.len() != expected {
            Err(
                ExecFault::T0(
                    ErrorView::ShapeLengthMismatch {
                        op,
                        tensor: "output",
                        expected,
                        got: values.len() as usize,
                        detail: quoting(
                            "node {} output {} length mismatch",
                            seq![Arg::Int(node as u64), Arg::Int(position as u64)],
                        ),
                    },
                ),
            )
        } else if outputs[position].shape != shape {
            Err(
                ExecFault::T0(
                    dim_error(
                        "output",
                        "graph",
                        expected,
                        "output",
                        extent(outputs[position].shape)->0,
                    ),
                ),
            )
        } else {
            Ok(outputs.update(position, dense(shape, Cells::U32(values).or_empty())))
        },
    }
}

/// Replaces an output by unsigned integers.
pub fn replace_u32_output(
    node: usize,
    op: &'static str,
    outputs: &mut Vec<TypedBuffer>,
    position: usize,
    shape: &[usize],
    values: &[u32],
) -> (r: Result<(), ExecError>)
    requires
        position < old(outputs)@.len(),
        all_wf(old(outputs)@),
    ensures
        match replaced(node, op, buffer_views(old(outputs)@), position as int, shape@, values@) {
            Err(e) => r is Err && r->Err_0.view() == e && final(outputs)@ == old(outputs)@,
            Ok(t) => r is Ok && buffer_views(final(outputs)@) == t,
        },
        all_wf(final(outputs)@),
        final(outputs)@.len() == old(outputs)@.len(),
{
    let expected: usize = match shape_extent(shape) {
        Some(n) => n,
        None => {
            let detail = Detail::shape("output shape {dims} element product overflows usize", shape);
            return Err(ExecError::T0(overflow(op, detail)));
        },
    };
    if values.len() != expected {
        let detail = Detail::two(
            "node {} output {} length mismatch",
            Arg::Int(node as u64),
            Arg::Int(position as u64),
        );
        return Err(
            ExecError::T0(
                T0Error::ShapeLengthMismatch {
                    op,
                    tensor: "output",
                    expected,
                    got: values.len(),
                    detail,
                },
            ),
        );
    }
    assert(buffer_views(outputs@)[position as int] == outputs@[position as int]@);
    assert(outputs@[position as int].wf());
    if !same_shape(outputs[position].shape(), shape) {
        let got: usize = outputs[position].num_elements();
        return Err(ExecError::T0(dim_mismatch("output", "graph", expected, "output", got)));
    }
    let b = TypedBuffer::from_u32(shape, values);
    let ghost fresh = b@;
    outputs.set(position, b);
    assert(buffer_views(outputs@) =~= buffer_views(old(outputs)@).update(position as int, fresh));
    Ok(())
}

/// What a draw is handed, or its error.
pub open spec fn sample_call<P, R>(
    node: usize,
    inputs: Seq<Operand>,
    outputs: Seq<Tensor>,
    rng: Seq<R>,
    batch: BatchMeta,
) -> Result<DrawView<P, R>, ExecFault> {
    match sampling_len(node, "sample", "rng", rng.len() as usize, batch) {
        Err(e) => Err(e),
        Ok(s) => if inputs.len() != 1 || outputs.len() != 1 {
            Err(
                arity_error(
                    "sample",
                    "inputs/outputs",
                    "sample requires 1 input and 1 output, got {} inputs and {} outputs",
                    seq![Arg::Int(inputs.len() as u64), Arg::Int(outputs.len() as u64)],
                ),
            )
        } else {
            let probs = inputs[0].tensor;
            if probs.rank() != 2 || probs.shape[0] != s {
                Err(seq_dim_error("probs", s, probs))
            } else {
                Ok(DrawView::Sample { node, probs: singles(probs), s, v: probs.shape[1], rng })
            }
        },
    }
}

/// Output of a draw, given the tokens.
pub open spec fn sample_result<R>(
    node: usize,
    outputs: Seq<Tensor>,
    s: usize,
    drawn: DrawnView<R>,
) -> Result<Seq<Tensor>, ExecFault> {
    match drawn.values {
        Err(e) => Err(ExecFault::T0(e)),
        Ok(tokens) => replaced(node, "sample", outputs, 0, seq![s], tokens),
    }
}

/// Puts drawn tokens into an output.
pub fn finish_sample<R>(node: usize, s: usize, drawn: Drawn<R>, outputs: Vec<TypedBuffer>) -> (r: (
    Result<Vec<TypedBuffer>, ExecError>,
    Vec<R>,
))
    requires
        outputs@.len() == 1,
        all_wf(outputs@),
    ensures
        match sample_result(node, buffer_views(outputs@), s, drawn@) {
            Err(e) => r.0 is Err && r.0->Err_0.view() == e,
            Ok(t) => r.0 is Ok && buffer_views(r.0->Ok_0@) == t && all_wf(r.0->Ok_0@),
        },
        r.1@ == drawn@.rng,
{
    let mut outputs = outputs;
    let tokens = match drawn.values {
        Ok(v) => v,
        Err(e) => {
            return (Err(ExecError::T0(e)), drawn.rng);
        },
    };
    let shape = vec![s];
    assert(shape@ =~= seq![s]);
    match replace_u32_output(node, "sample", &mut outputs, 0, shape.as_slice(), tokens.as_slice()) {
        Ok(_) => (Ok(outputs), drawn.rng),
        Err(e) => (Err(e), drawn.rng),
    }
}

/// Draws one token per sequence. Only the draw itself changes the random states.
pub fn dispatch_sample<P, R, D: Fn(Draw<'_, P, R>) -> Drawn<R>>(
    d: &D,
    node: usize,
    inputs: &[TensorView<'_>],
    outputs: Vec<TypedBuffer>,
    rng: Vec<R>,
    batch: &BatchMeta,
) -> (r: (Result<Vec<TypedBuffer>, ExecError>, Vec<R>))
    requires
        draws_always(*d),
        forall|i: int| 0 <= i < inputs@.len() ==> (#[trigger] inputs@[i])@.backed(),
        all_wf(outputs@),
    ensures
        match sample_call::<P, R>(
            node,
            operands_of(inputs@),
            buffer_views(outputs@),
            rng@,
            *batch,
        ) {
            Err(e) => r.0 is Err && r.0->Err_0.view() == e && r.1@ == rng@,
            Ok(call) => exists|drawn: DrawnView<R>|
                #![trigger drew(*d, call, drawn)]
                {
                    &&& drew(*d, call, drawn)
                    &&& r.1@ == drawn.rng
                    &&& match sample_result(
                        node,
                        buffer_views(outputs@),
                        batch.ctx_len@.len() as usize,
                        drawn,
                    ) {
                        Err(e) => r.0 is Err && r.0->Err_0.view() == e,
                        Ok(t) => r.0 is Ok && buffer_views(r.0->Ok_0@) == t && all_wf(r.0->Ok_0@),
                    }
                },
        },
{
    let s: usize = match check_sampling_len(node, "sample", "rng", rng.len(), batch) {
        Ok(s) => s,
        Err(e) => {
            return (Err(e), rng);
        },
    };
    let count: usize = outputs.len();
    if inputs.len() != 1 || count != 1 {
        let reason = Detail::two(
            "sample requires 1 input and 1 output, got {} inputs and {} outputs",
            Arg::Int(inputs.len() as u64),
            Arg::Int(count as u64),
        );
        return (Err(ExecError::T0(invalid_attr("sample", "inputs/outputs", reason))), rng);
    }
    let probs = &inputs[0];
    assert(operands_of(inputs@)[0].tensor == probs@);
    assert(inputs@[0]@.backed());
    if probs.rank() != 2 || probs.shape()[0] != s {
        return (Err(bad_seq_dim("probs", s, probs)), rng);
    }
    let v: usize = probs.shape()[1];
    let call = Draw::Sample { node, probs: view_f32(probs), s, v, rng };
    let drawn = draw(d, call);
    assert(drew(*d, call@, drawn@));
    finish_sample(node, s, drawn, outputs)
}

/// What a check of draft tokens is handed, or its error.
pub open spec fn verify_call<P, R>(
    node: usize,
    op: VerifyOp,
    inputs: Seq<Operand>,
    outputs: Seq<Tensor>,
    rng: Seq<R>,
    batch: BatchMeta,
) -> Result<DrawView<P, R>, ExecFault> {
    match sampling_len(node, "verify", "rng", rng.len() as usize, batch) {
        Err(e) => Err(e),
        Ok(s) => if inputs.len() < 2 || inputs.len() > 3 || outputs.len() != 2 {
            Err(
                arity_error(
                    "verify",
                    "inputs/outputs",
                    "verify requires 2 or 3 inputs and 2 outputs, got {} inputs and {} outputs",
                    seq![Arg::Int(inputs.len() as u64), Arg::Int(outputs.len() as u64)],
                ),
            )
        } else {
            let draft = inputs[0].tensor;
            let target = inputs[1].tensor;
            if draft.rank() != 2 || draft.shape[0] != s {
                Err(seq_dim_error("draft_tokens", s, draft))
            } else {
                Ok(
                    DrawView::Verify {
                        node,
                        draft: words(draft),
                        draft_probs: if inputs.len() == 3 {
                            Some(singles(inputs[2].tensor))
                        } else {
                            None
                        },
                        target: singles(target),
                        s,
                        k: draft.shape[1],
                        v: if target.rank() > 0 {
                            target.shape.last()
                        } else {
                            0
                        },
                        method: op.method,
                        rng,
                        tree: batch.tree,
                    },
                )
            }
        },
    }
}

/// Outputs of a check of draft tokens, given what was accepted.
pub open spec fn verify_result<R>(
    node: usize,
    outputs: Seq<Tensor>,
    s: usize,
    k: usize,
    drawn: DrawnView<R>,
) -> Result<Seq<Tensor>, ExecFault> {
    match drawn.values {
        Err(e) => Err(ExecFault::T0(e)),
        Ok(tokens) => if k == usize::MAX {
            Err(
                ExecFault::T0(
                    overflow_error(
                        "verify",
                        quoting("accepted width {} + 1 overflows usize", seq![Arg::Int(k as u64)]),
                    ),
                ),
            )
        } else {
            match replaced(node, "verify", outputs, 0, seq![s, (k + 1) as usize], tokens) {
                Err(e) => Err(e),
                Ok(first) => replaced(node, "verify", first, 1, seq![s], drawn.lens),
            }
        },
    }
}

/// Puts accepted tokens and their numbers into outputs.
pub fn finish_verify<R>(
    node: usize,
    s: usize,
    k: usize,
    drawn: Drawn<R>,
    outputs: Vec<TypedBuffer>,
) -> (r: (Result<Vec<TypedBuffer>, ExecError>, Vec<R>))
    requires
        outputs@.len() == 2,
        all_wf(outputs@),
    ensures
        match verify_result(node, buffer_views(outputs@), s, k, drawn@) {
            Err(e) => r.0 is Err && r.0->Err_0.view() == e,
            Ok(t) => r.0 is Ok && buffer_views(r.0->Ok_0@) == t && all_wf(r.0->Ok_0@),
        },
        r.1@ == drawn@.rng,
{
    let mut outputs = outputs;
    let tokens = match drawn.values {
        Ok(v) => v,
        Err(e) => {
            return (Err(ExecError::T0(e)), drawn.rng);
        },
    };
    if k == usize::MAX {
        let detail = Detail::one("accepted width {} + 1 overflows usize", Arg::Int(k as u64));
        return (Err(ExecError::T0(overflow("verify", detail))), drawn.rng);
    }
    let wide = vec![s, k + 1];
    assert(wide@ =~= seq![s, (k + 1) as usize]);
    match replace_u32_output(node, "verify", &mut outputs, 0, wide.as_slice(), tokens.as_slice()) {
        Ok(_) => {},
        Err(e) => {
            return (Err(e), drawn.rng);
        },
    }
    let shape = vec![s];
    assert(shape@ =~= seq![s]);
    match replace_u32_output(
        node,
        "verify",
        &mut outputs,
        1,
        shape.as_slice(),
        drawn.lens.as_slice(),
    ) {
        Ok(_) => (Ok(outputs), drawn.rng),
        Err(e) => (Err(e), drawn.rng),
    }
}

/// Checks draft tokens. Only the check itself changes the random states.
pub fn dispatch_verify<P, R, D: Fn(Draw<'_, P, R>) -> Drawn<R>>(
    d: &D,
    node: usize,
    op: &VerifyOp,
    inputs: &[TensorView<'_>],
    outputs: Vec<TypedBuffer>,
    rng: Vec<R>,
    batch: &BatchMeta,
) -> (r: (Result<Vec<TypedBuffer>, ExecError>, Vec<R>))
    requires
        draws_always(*d),
        forall|i: int| 0 <= i < inputs@.len() ==> (#[trigger] inputs@[i])@.backed(),
        all_wf(outputs@),
    ensures
        match verify_call::<P, R>(
            node,
            *op,
            operands_of(inputs@),
            buffer_views(outputs@),
            rng@,
            *batch,
        ) {
            Err(e) => r.0 is Err && r.0->Err_0.view() == e && r.1@ == rng@,
            Ok(call) => exists|drawn: DrawnView<R>|
                #![trigger drew(*d, call, drawn)]
                {
                    &&& drew(*d, call, drawn)
                    &&& r.1@ == drawn.rng
                    &&& match verify_result(
                        node,
                        buffer_views(outputs@),
                        batch.ctx_len@.len() as usize,
                        inputs@[0]@.shape[1],
                        drawn,
                    ) {
                        Err(e) => r.0 is Err && r.0->Err_0.view() == e,
                        Ok(t) => r.0 is Ok && buffer_views(r.0->Ok_0@) == t && all_wf(r.0->Ok_0@),
                    }
                },
        },
{
    let s: usize = match check_sampling_len(node, "verify", "rng", rng.len(), batch) {
        Ok(s) => s,
        Err(e) => {
            return (Err(e), rng);
        },
    };
    let count: usize = outputs.len();
    if inputs.len() < 2 || inputs.len() > 3 || count != 2 {
        let reason = Detail::two(
            "verify requires 2 or 3 inputs and 2 outputs, got {} inputs and {} outputs",
            Arg::Int(inputs.len() as u64),
            Arg::Int(count as u64),
        );
        return (Err(ExecError::T0(invalid_attr("verify", "inputs/outputs", reason))), rng);
    }
    let draft = &inputs[0];
    let target = &inputs[1];
    assert(forall|i: int|
        0 <= i < inputs@.len() ==> (#[trigger] operands_of(inputs@)[i]).tensor == inputs@[i]@);
    assert(inputs@[0]@.backed());
    assert(inputs@[1]@.backed());
    if draft.rank() != 2 || draft.shape()[0] != s {
        return (Err(bad_seq_dim("draft_tokens", s, draft)), rng);
    }
    let k: usize = draft.shape()[1];
    let draft_probs: Option<Vec<u32>> = if inputs.len() == 3 {
        assert(inputs@[2]@.backed());
        Some(view_f32(&inputs[2]))
    } else {
        None
    };
    let rank: usize = target.rank();
    let v: usize = if rank > 0 {
        target.shape()[rank - 1]
    } else {
        0
    };
    let call = Draw::Verify {
        node,
        draft: view_u32(draft),
        draft_probs,
        target: view_f32(target),
        s,
        k,
        v,
        method: op.method,
        rng,
        tree: match &batch.tree {
            Some(t) => Some(t),
            None => None,
        },
    };
    let drawn = draw(d, call);
    assert(drew(*d, call@, drawn@));
    finish_verify(node, s, k, drawn, outputs)
}

} // verus!
