//! Which operands reductions, gathers and sends accept in a group of one.
use vstd::prelude::*;
use crate::accept_laws::{has_room, is_real, law_copy_accepts, lemma_room, stores_rows};
use crate::buffer::Tensor;
use crate::collectives::{
    all_gather_fault, all_reduce_fault, recv_fault, reduce_scatter_fault, send_fault,
    transfer_fault, AllGatherOp, AllReduceOp, RecvOp, ReduceScatterOp, SendOp,
};
use crate::ir::DType;

verus! {

/// Whether a tensor can be handed on: to one of the same shape and type.
pub open spec fn can_hand_on(x: Tensor, y: Tensor) -> bool {
    &&& has_room(x) && has_room(y)
    &&& y.shape == x.shape
    &&& y.cells.dtype() == x.cells.dtype()
}

proof fn lemma_hand_on(x: Tensor, y: Tensor)
    requires
        is_real(x),
        is_real(y),
    ensures
        transfer_fault(x, y) is None <==> can_hand_on(x, y),
{
    law_copy_accepts(x, y);
    lemma_room(x, "x");
    lemma_room(y, "y");
}

/// Reductions and gathers take a tensor of the given type to one of the same shape
/// and type. A reduction sums in single precision, and an axis is one of the
/// tensor's.
pub proof fn law_collectives_accept(
    reduce: AllReduceOp,
    gather: AllGatherOp,
    scatter: ReduceScatterOp,
    x: Tensor,
    y: Tensor,
)
    requires
        is_real(x),
        is_real(y),
    ensures
        all_reduce_fault(reduce, x, y) is None <==> {
            &&& can_hand_on(x, y)
            &&& reduce.dtype == x.cells.dtype()
            &&& reduce.reduce_in == DType::F32
        },
        all_gather_fault(gather, x, y) is None <==> {
            &&& can_hand_on(x, y)
            &&& gather.dtype == x.cells.dtype()
            &&& gather.axis < x.shape.len()
        },
        reduce_scatter_fault(scatter, x, y) is None <==> {
            &&& can_hand_on(x, y)
            &&& scatter.dtype == x.cells.dtype()
            &&& scatter.reduce_in == DType::F32
            &&& scatter.axis < x.shape.len()
        },
{
    lemma_hand_on(x, y);
}

/// A send reaches the member itself alone, and nothing can be received.
pub proof fn law_peer_accepts(send: SendOp, recv: RecvOp, x: Tensor, y: Tensor)
    requires
        is_real(x),
    ensures
        send_fault(send, x) is None <==> {
            &&& has_room(x)
            &&& send.dtype == x.cells.dtype()
            &&& stores_rows(x.layout)
            &&& send.peer == 0
        },
        recv_fault(recv, y) is Some,
{
    lemma_room(x, "x");
}

} // verus!
