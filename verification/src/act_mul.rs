//! Gated activation product.
use vstd::prelude::*;
use crate::activation::{
    activated, apply_clamp, bounded, check_clamp, check_pair, clamp_faults, eval_activation_f32,
    lemma_no_disagreement, pair_faults,
};
use crate::arith::{fp_mul, is_arith, times, FloatOp};
use crate::buffer::{fault_result, Tensor, TensorDataMut, TensorView, TensorViewMut};
use crate::check::{
    check_dtype, check_float, check_rank, clear, dtype_faults, fault_of, float_faults, no_problems,
    or_fault, rank_faults,
};
use crate::error::{outcome, views, ErrorView, T0Error};
use crate::ir::ActivationKind;

verus! {

/// Attributes of the gated product.
#[derive(Debug, Clone, Copy)]
pub struct ActMulOp {
    /// The activation function of the gating operand.
    pub act: ActivationKind,
    /// Upper bound of the activated gate, if any.
    pub clamp: Option<u32>,
}

/// The error of a gated product whose operands or attributes do not fit.
pub open spec fn act_mul_fault(
    op: ActMulOp,
    gate: Tensor,
    up: Tensor,
    y: Tensor,
) -> Option<ErrorView> {
    or_fault(
        or_fault(
            or_fault(gate.backing_fault("gate"), up.backing_fault("up")),
            y.backing_fault("y"),
        ),
        fault_of(
            clear() + rank_faults("gate", 2, gate.shape) + rank_faults("up", 2, up.shape)
                + rank_faults("y", 2, y.shape) + float_faults("gate", gate.dtype()) + dtype_faults(
                "up",
                gate.dtype(),
                up.dtype(),
            ) + dtype_faults("y", gate.dtype(), y.dtype()) + pair_faults(
                "up",
                "gate",
                up.shape,
                gate.shape,
            ) + pair_faults("y", "gate", y.shape, gate.shape) + clamp_faults("act_mul", op.clamp),
        ),
    )
}

/// Value of the gated product at element `i`: the activated gate, bounded
/// above, times `up`.
pub open spec fn gated<F: Fn(FloatOp, u32, u32) -> u32>(
    f: F,
    op: ActMulOp,
    gate: Tensor,
    up: Tensor,
    i: int,
) -> u32 {
    fp_mul(
        f,
        bounded(activated(f, gate.cells.f32_at(i), op.act), op.clamp),
        up.cells.f32_at(i),
    )
}

/// Computes `act(gate) * up` element by element; the clamp bounds the activated
/// gate. A mismatch of the operands leaves `y` unchanged.
pub fn act_mul<F: Fn(FloatOp, u32, u32) -> u32>(
    f: &F,
    op: &ActMulOp,
    gate: &TensorView<'_>,
    up: &TensorView<'_>,
    y: &mut TensorViewMut<'_>,
) -> (r: Result<(), T0Error>)
    requires
        is_arith(*f),
    ensures
        outcome(r) == fault_result(act_mul_fault(*op, gate@, up@, old(y)@)),
        r is Err ==> final(y)@ == old(y)@,
        r is Ok ==> final(y)@ == old(y)@.with_cells(
            old(y)@.cells.with_f32s(
                Seq::new(gate@.count() as nat, |i: int| gated(*f, *op, gate@, up@, i)),
            ),
        ),
        match (old(y).data, final(y).data) {
            (TensorDataMut::F32(a), TensorDataMut::F32(b)) => {
                a@.len() == b@.len() && (*final(a))@ == (*final(b))@
            },
            (TensorDataMut::F16(a), TensorDataMut::F16(b)) => {
                a@.len() == b@.len() && (*final(a))@ == (*final(b))@
            },
            (TensorDataMut::Bf16(a), TensorDataMut::Bf16(b)) => {
                a@.len() == b@.len() && (*final(a))@ == (*final(b))@
            },
            (TensorDataMut::I8(a), TensorDataMut::I8(b)) => {
                a@.len() == b@.len() && (*final(a))@ == (*final(b))@
            },
            (TensorDataMut::U32(a), TensorDataMut::U32(b)) => {
                a@.len() == b@.len() && (*final(a))@ == (*final(b))@
            },
            (TensorDataMut::Bytes(d, a), TensorDataMut::Bytes(e, b)) => {
                d == e && a@.len() == b@.len() && (*final(a))@ == (*final(b))@
            },
            _ => false,
        },
{
    match gate.validate_backing("gate") {
        Ok(_) => {},
        Err(e) => {
            return Err(e);
        },
    }
    match up.validate_backing("up") {
        Ok(_) => {},
        Err(e) => {
            return Err(e);
        },
    }
    match y.validate_backing("y") {
        Ok(_) => {},
        Err(e) => {
            return Err(e);
        },
    }
    let mut problems = no_problems();
    check_rank(&mut problems, "gate", 2, gate.shape());
    check_rank(&mut problems, "up", 2, up.shape());
    check_rank(&mut problems, "y", 2, y.shape());
    check_float(&mut problems, "gate", gate.dtype());
    check_dtype(&mut problems, "up", gate.dtype(), up.dtype());
    check_dtype(&mut problems, "y", gate.dtype(), y.dtype());
    check_pair(&mut problems, "up", "gate", up.shape(), gate.shape());
    check_pair(&mut problems, "y", "gate", y.shape(), gate.shape());
    check_clamp(&mut problems, "act_mul", op.clamp);
    let ghost found = views(problems@);
    match T0Error::from_problems(problems) {
        Ok(_) => {},
        Err(e) => {
            return Err(e);
        },
    }
    proof {
        assert(found.len() == 0);
        lemma_no_disagreement("up", "gate", up@.shape, gate@.shape);
        lemma_no_disagreement("y", "gate", y@.shape, gate@.shape);
    }
    let n: usize = gate.num_elements();
    let mut out: Vec<u32> = Vec::new();
    for i in 0..n
        invariant
            is_arith(*f),
            n == gate@.count(),
            n == up@.count(),
            gate@.backed(),
            up@.backed(),
            out@ =~= Seq::new(i as nat, |j: int| gated(*f, *op, gate@, up@, j)),
    {
        let a: u32 = eval_activation_f32(f, gate.read_f32(i), op.act);
        out.push(times(f, apply_clamp(a, op.clamp), up.read_f32(i)));
    }
    y.write_all(out.as_slice());
    Ok(())
}

} // verus!
