//! What draws of tokens are handed and what becomes of their results.
use vstd::prelude::*;
use crate::batch::BatchMeta;
use crate::buffer::{extent, Cells, Tensor};
use crate::dtype::int_of_f32;
use crate::exec_draw::{
    extras, flags, postprocess_result, sample_call, sample_result, singles, verify_call,
    verify_result, words, DrawView, DrawnView,
};
use crate::exec_prepare::Operand;
use crate::graph::VerifyOp;
use crate::harness::word_bytes;
use crate::ir::DType;
use crate::storage_laws::{law_write_all_read, stored};

verus! {

/// Whether numbers are those of a tensor, in order and with none left out.
pub open spec fn are_elements(values: Seq<u32>, t: Tensor) -> bool {
    &&& t.cells is F32 ==> values == t.cells->F32_0
    &&& !(t.cells is F32) ==> values.len() == t.count() && forall|i: int|
        0 <= i < values.len() ==> #[trigger] values[i] == t.cells.f32_at(i)
}

/// Whether integers are those of a tensor, in order and with none left out.
pub open spec fn are_integers(values: Seq<u32>, t: Tensor) -> bool {
    match t.cells {
        Cells::U32(s) => values == s,
        Cells::Bytes(DType::U32, s) => values.len() == t.count() && forall|i: int|
            0 <= i < values.len() ==> #[trigger] values[i] == (s[4 * i] + 0x100 * s[4 * i + 1]
                + 0x1_0000 * s[4 * i + 2] + 0x100_0000 * s[4 * i + 3]),
        _ => values.len() == t.count() && forall|i: int|
            0 <= i < values.len() ==> #[trigger] values[i] == int_of_f32(
                t.cells.f32_at(i),
                false,
                0,
                0xFFFF_FFFF,
            ),
    }
}

proof fn lemma_elements(t: Tensor)
    requires
        extent(t.shape) is Some,
    ensures
        are_elements(singles(t), t),
        are_integers(words(t), t),
{
    if t.cells is Bytes && t.cells->Bytes_0 == DType::U32 {
        let s = t.cells->Bytes_1;
        let values = words(t);
        assert forall|i: int| 0 <= i < values.len() implies #[trigger] values[i] == (s[4 * i]
            + 0x100 * s[4 * i + 1] + 0x1_0000 * s[4 * i + 2] + 0x100_0000 * s[4 * i + 3]) by {
            assert(i * 4 == 4 * i);
        }
    }
}

/// A draw is handed the probabilities of the one input, in rows of its last
/// extent, and a random state for each sequence of the batch.
pub proof fn law_sample_handed<P, R>(
    node: usize,
    inputs: Seq<Operand>,
    outputs: Seq<Tensor>,
    rng: Seq<R>,
    batch: BatchMeta,
)
    requires
        inputs.len() > 0 ==> extent(inputs[0].tensor.shape) is Some,
        rng.len() <= usize::MAX,
        sample_call::<P, R>(node, inputs, outputs, rng, batch) is Ok,
    ensures
        inputs.len() == 1,
        outputs.len() == 1,
        rng.len() == batch.ctx_len@.len(),
        inputs[0].tensor.shape.len() == 2,
        inputs[0].tensor.shape[0] == batch.ctx_len@.len(),
        sample_call::<P, R>(node, inputs, outputs, rng, batch)->Ok_0 matches DrawView::Sample {
            node: n,
            probs,
            s,
            v,
            rng: states,
        } && n == node && are_elements(probs, inputs[0].tensor) && s == batch.ctx_len@.len() && v
            == inputs[0].tensor.shape[1] && states == rng,
{
    assert(batch.ctx_len@.len() == batch.ctx_len.len());
    lemma_elements(inputs[0].tensor);
}

/// A check of draft tokens is handed the tokens of the first input, the
/// probabilities of the second, and those of the draft where there is a third.
pub proof fn law_verify_handed<P, R>(
    node: usize,
    op: VerifyOp,
    inputs: Seq<Operand>,
    outputs: Seq<Tensor>,
    rng: Seq<R>,
    batch: BatchMeta,
)
    requires
        forall|i: int|
            0 <= i < inputs.len() ==> extent((#[trigger] inputs[i]).tensor.shape) is Some,
        rng.len() <= usize::MAX,
        verify_call::<P, R>(node, op, inputs, outputs, rng, batch) is Ok,
    ensures
        inputs.len() == 2 || inputs.len() == 3,
        outputs.len() == 2,
        rng.len() == batch.ctx_len@.len(),
        inputs[0].tensor.shape.len() == 2,
        inputs[0].tensor.shape[0] == batch.ctx_len@.len(),
        verify_call::<P, R>(node, op, inputs, outputs, rng, batch)->Ok_0 matches DrawView::Verify {
            node: n,
            draft,
            draft_probs,
            target,
            s,
            k,
            v,
            method,
            rng: states,
            tree,
        } && {
            &&& n == node
            &&& are_integers(draft, inputs[0].tensor)
            &&& are_elements(target, inputs[1].tensor)
            &&& draft_probs is Some <==> inputs.len() == 3
            &&& draft_probs is Some ==> are_elements(draft_probs->0, inputs[2].tensor)
            &&& s == batch.ctx_len@.len()
            &&& k == inputs[0].tensor.shape[1]
            &&& inputs[1].tensor.shape.len() > 0 ==> v
                == inputs[1].tensor.shape[inputs[1].tensor.shape.len() - 1]
            &&& method == op.method
            &&& states == rng
            &&& tree == batch.tree
        },
{
    assert(batch.ctx_len@.len() == batch.ctx_len.len());
    lemma_elements(inputs[0].tensor);
    lemma_elements(inputs[1].tensor);
    if inputs.len() == 3 {
        lemma_elements(inputs[2].tensor);
    }
}

/// Behind the logits stands at most one matrix of integers, the history, and at
/// most one block of truth values, the grammar; what is not zero is true.
pub proof fn law_extras_handed(node: usize, inputs: Seq<Operand>, n: int)
    requires
        forall|i: int|
            0 <= i < inputs.len() ==> extent((#[trigger] inputs[i]).tensor.shape) is Some,
        n <= inputs.len(),
        extras(node, inputs, n) is Ok,
    ensures
        ({
            let (history, grammar) = extras(node, inputs, n)->Ok_0;
            &&& forall|i: int|
                1 <= i < n ==> {
                    let t = (#[trigger] inputs[i]).tensor;
                    ||| t.shape.len() == 2 && t.cells.dtype() == DType::U32 && history is Some
                        && are_integers(history->0, t)
                    ||| t.shape.len() == 3 && t.cells is Bytes && t.cells.dtype() == DType::Bool
                        && grammar is Some && (grammar->0).len() == t.cells->Bytes_1.len()
                        && forall|j: int|
                        0 <= j < (grammar->0).len() ==> (#[trigger] (grammar->0)[j] <==> t.cells->Bytes_1[j]
                            != 0)
                }
            &&& n <= 1 ==> history is None && grammar is None
            &&& history is Some ==> exists|i: int|
                1 <= i < n && (#[trigger] inputs[i]).tensor.shape.len() == 2
            &&& grammar is Some ==> exists|i: int|
                1 <= i < n && (#[trigger] inputs[i]).tensor.shape.len() == 3
        }),
    decreases n,
{
    if n > 1 {
        law_extras_handed(node, inputs, n - 1);
        lemma_elements(inputs[n - 1].tensor);
        let t = inputs[n - 1].tensor;
        assert(t.cells is Bytes ==> flags(t.cells->Bytes_1).len() == t.cells->Bytes_1.len());
    }
}

/// The tokens of a draw are the elements of its output, one for each sequence.
pub proof fn law_sample_kept<R>(
    node: usize,
    outputs: Seq<Tensor>,
    s: usize,
    drawn: DrawnView<R>,
    i: int,
)
    requires
        outputs.len() == 1,
        sample_result(node, outputs, s, drawn) is Ok,
        0 <= i < s,
    ensures
        ({
            let r = sample_result(node, outputs, s, drawn)->Ok_0;
            &&& r.len() == 1
            &&& drawn.values is Ok
            &&& drawn.values->Ok_0.len() == s
            &&& r[0].shape == seq![s]
            &&& r[0].cells == Cells::U32(drawn.values->Ok_0)
            &&& outputs[0].shape == seq![s]
        }),
{
    crate::buffer::lemma_extent1(seq![s]);
}

/// The tokens that a check accepts are the elements of its first output, one more
/// than there are draft tokens for each sequence, and their numbers those of the
/// second.
pub proof fn law_verify_kept<R>(
    node: usize,
    outputs: Seq<Tensor>,
    s: usize,
    k: usize,
    drawn: DrawnView<R>,
)
    requires
        outputs.len() == 2,
        s > 0,
        verify_result(node, outputs, s, k, drawn) is Ok,
    ensures
        ({
            let r = verify_result(node, outputs, s, k, drawn)->Ok_0;
            &&& r.len() == 2
            &&& drawn.values is Ok
            &&& drawn.values->Ok_0.len() == s * (k + 1)
            &&& drawn.lens.len() == s
            &&& r[0].shape == seq![s, (k + 1) as usize]
            &&& r[0].cells == Cells::U32(drawn.values->Ok_0)
            &&& r[1].shape == seq![s]
            &&& r[1].cells == Cells::U32(drawn.lens)
        }),
{
    crate::buffer::lemma_extent1(seq![s]);
    let shape = seq![s, (k + 1) as usize];
    crate::buffer::lemma_extent2(shape);
    assert(shape[0] == s && shape[1] == k + 1);
    assert(s * (k + 1) > 0) by (nonlinear_arith)
        requires
            s > 0,
            k >= 0,
    ;
}

/// The probabilities of a postprocessing are the elements of its output.
pub proof fn law_postprocess_kept<R>(out: Tensor, drawn: DrawnView<R>, i: int)
    requires
        out.cells is F32,
        postprocess_result(out, drawn) is Ok,
        0 <= i < out.cells.len(),
    ensures
        ({
            let r = postprocess_result(out, drawn)->Ok_0;
            &&& r.len() == 1
            &&& drawn.values is Ok
            &&& drawn.values->Ok_0.len() == out.cells.len()
            &&& r[0].shape == out.shape
            &&& r[0].cells.f32_at(i) == drawn.values->Ok_0[i]
        }),
{
    law_write_all_read(out.cells, drawn.values->Ok_0, i);
    assert(stored(DType::F32, drawn.values->Ok_0[i]) == drawn.values->Ok_0[i]);
}

/// Each word becomes four bytes, in its place and lowest first.
pub proof fn law_word_bytes(values: Seq<u32>, i: int)
    requires
        0 <= i < values.len(),
    ensures
        ({
            let b = word_bytes(values);
            &&& b.len() == 4 * values.len()
            &&& values[i] == b[4 * i] + 0x100 * b[4 * i + 1] + 0x1_0000 * b[4 * i + 2] + 0x100_0000
                * b[4 * i + 3]
        }),
    decreases values.len(),
{
    let rest = values.drop_last();
    let n = rest.len() as int;
    if n > 0 {
        law_word_bytes(rest, if i < n { i } else { 0 });
    }
    let b = word_bytes(values);
    assert(word_bytes(rest).len() == 4 * n);
    if i < n {
        assert(rest[i] == values[i]);
        let a = word_bytes(rest);
        assert(b[4 * i] == a[4 * i]);
        assert(b[4 * i + 1] == a[4 * i + 1]);
        assert(b[4 * i + 2] == a[4 * i + 2]);
        assert(b[4 * i + 3] == a[4 * i + 3]);
    } else {
        let v = values.last();
        assert(b[4 * n] == (v % 0x100) as u8);
        assert(b[4 * n + 1] == (v / 0x100 % 0x100) as u8);
        assert(b[4 * n + 2] == (v / 0x1_0000 % 0x100) as u8);
        assert(b[4 * n + 3] == (v / 0x100_0000) as u8);
    }
}

} // verus!
