//! Soft cap on logits.
use vstd::prelude::*;
use crate::activation::lemma_no_disagreement;
use crate::arith::{compute, fp, fp_mul, is_arith, times, FloatOp};
use crate::buffer::{fault_result, Tensor, TensorDataMut, TensorView, TensorViewMut};
use crate::check::{
    attr_error, check_dtype, check_rank, clear, dtype_faults, fault_of, given, invalid_attr,
    no_problems, or_fault, push_when, rank_faults,
};
use crate::dtype::{finite_positive, is_finite_positive};
use crate::error::{
    outcome, push_shape_agreement, quoting, shape_disagreements, views, Arg, Detail, ErrorView,
    T0Error,
};
use crate::ir::DType;

verus! {

/// Attributes of the soft cap.
#[derive(Debug, Clone, Copy)]
pub struct LogitSoftcapOp {
    /// Bound that the result approaches.
    pub cap: u32,
}

/// The error of a soft cap whose operands or attributes do not fit.
pub open spec fn softcap_fault(op: LogitSoftcapOp, x: Tensor, y: Tensor) -> Option<ErrorView> {
    or_fault(
        or_fault(x.backing_fault("x"), y.backing_fault("y")),
        fault_of(
            clear() + given(
                !is_finite_positive(op.cap),
                attr_error(
                    "logit_softcap",
                    "cap",
                    quoting("must be finite and > 0, got {}", seq![Arg::Real(op.cap)]),
                ),
            ) + rank_faults("x", 2, x.shape) + rank_faults("y", 2, y.shape) + dtype_faults(
                "x",
                DType::F32,
                x.dtype(),
            ) + dtype_faults("y", DType::F32, y.dtype()) + shape_disagreements(
                "y",
                "x",
                y.shape,
                x.shape,
            ),
        ),
    )
}

/// `cap * tanh(v / cap)`.
pub open spec fn capped<F: Fn(FloatOp, u32, u32) -> u32>(f: F, v: u32, cap: u32) -> u32 {
    fp_mul(f, cap, fp(f, FloatOp::Tanh, fp(f, FloatOp::Over, v, cap), 0))
}

/// Evaluates `cap * tanh(v / cap)`.
pub fn softcap_value<F: Fn(FloatOp, u32, u32) -> u32>(f: &F, v: u32, cap: u32) -> (r: u32)
    requires
        is_arith(*f),
    ensures
        r == capped(*f, v, cap),
{
    let t: u32 = compute(f, FloatOp::Tanh, compute(f, FloatOp::Over, v, cap), 0);
    times(f, cap, t)
}

/// Computes `cap * tanh(x / cap)` element by element; a mismatch of the
/// operands leaves `y` unchanged.
pub fn logit_softcap<F: Fn(FloatOp, u32, u32) -> u32>(
    f: &F,
    op: &LogitSoftcapOp,
    x: &TensorView<'_>,
    y: &mut TensorViewMut<'_>,
) -> (r: Result<(), T0Error>)
    requires
        is_arith(*f),
    ensures
        outcome(r) == fault_result(softcap_fault(*op, x@, old(y)@)),
        r is Err ==> final(y)@ == old(y)@,
        r is Ok ==> final(y)@ == old(y)@.with_cells(
            old(y)@.cells.with_f32s(
                Seq::new(x@.count() as nat, |i: int| capped(*f, x@.cells.f32_at(i), op.cap)),
            ),
        ),
        match (old(y).data, final(y).data) {
            (TensorDataMut::F32(a), TensorDataMut::F32(b)) => {
                a@.len() == b@.len() && (*final(a))@ == (*final(b))@
            },
            (TensorDataMut::F16(a), TensorDataMut::F16(b)) => {
                a@.len() == b@.len() && (*final(a))@ == (*final(b))@
            },
            (TensorDataMut::Bf16(a), TensorDataMut::Bf16(b)) => {
                a@.len() == b@.len() && (*final(a))@ == (*final(b))@
            },
            (TensorDataMut::I8(a), TensorDataMut::I8(b)) => {
                a@.len() == b@.len() && (*final(a))@ == (*final(b))@
            },
            (TensorDataMut::U32(a), TensorDataMut::U32(b)) => {
                a@.len() == b@.len() && (*final(a))@ == (*final(b))@
            },
            (TensorDataMut::Bytes(d, a), TensorDataMut::Bytes(e, b)) => {
                d == e && a@.len() == b@.len() && (*final(a))@ == (*final(b))@
            },
            _ => false,
        },
{
    match x.validate_backing("x") {
        Ok(_) => {},
        Err(e) => {
            return Err(e);
        },
    }
    match y.validate_backing("y") {
        Ok(_) => {},
        Err(e) => {
            return Err(e);
        },
    }
    let mut problems = no_problems();
    let reason = Detail::one("must be finite and > 0, got {}", Arg::Real(op.cap));
    push_when(
        &mut problems,
        !finite_positive(op.cap),
        invalid_attr("logit_softcap", "cap", reason),
    );
    check_rank(&mut problems, "x", 2, x.shape());
    check_rank(&mut problems, "y", 2, y.shape());
    check_dtype(&mut problems, "x", DType::F32, x.dtype());
    check_dtype(&mut problems, "y", DType::F32, y.dtype());
    push_shape_agreement(&mut problems, "y", "x", y.shape(), x.shape());
    let ghost found = views(problems@);
    match T0Error::from_problems(problems) {
        Ok(_) => {},
        Err(e) => {
            return Err(e);
        },
    }
    proof {
        assert(found.len() == 0);
        lemma_no_disagreement("y", "x", y@.shape, x@.shape);
    }
    let n: usize = x.num_elements();
    let mut out: Vec<u32> = Vec::new();
    for i in 0..n
        invariant
            is_arith(*f),
            n == x@.count(),
            x@.backed(),
            out@ =~= Seq::new(i as nat, |j: int| capped(*f, x@.cells.f32_at(j), op.cap)),
    {
        out.push(softcap_value(f, x.read_f32(i), op.cap));
    }
    y.write_all(out.as_slice());
    Ok(())
}

} // verus!
