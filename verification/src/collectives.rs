//! Collectives of a group with a single member.
//!
//! Every data-moving collective is then an exact copy, a send to the member
//! itself and a barrier do nothing, and a receive has no source.
use vstd::prelude::*;
use crate::buffer::{
    fault_result, lemma_backed_holds, lemma_extent1, Tensor, TensorDataMut, TensorView,
    TensorViewMut,
};
use crate::check::{
    attr_error, check_dtype, check_rank, check_row_major, clear, dim_error, dim_mismatch,
    dtype_faults, fault_if, fault_of, given, invalid_attr, no_problems, or_fault, push_when,
    rank_error, rank_faults, rank_mismatch, row_major_faults,
};
use crate::copy::{copied, copy, copy_fault, CopyKind, CopyOp};
use crate::error::{outcome, quoting, views, Arg, Detail, ErrorView, T0Error};
use crate::ir::DType;

verus! {

/// How a reduction combines its inputs.
#[derive(Debug, Clone, Copy, PartialEq, Eq, Structural)]
pub enum ReduceOp {
    /// Sum.
    Sum,
}

/// Attributes of a reduction to all members.
#[derive(Debug, Clone, Copy)]
pub struct AllReduceOp {
    /// How inputs are combined.
    pub op: ReduceOp,
    /// Element type.
    pub dtype: DType,
    /// Type that sums are formed in.
    pub reduce_in: DType,
}

/// Attributes of a gather to all members.
#[derive(Debug, Clone, Copy)]
pub struct AllGatherOp {
    /// Axis along which parts are joined.
    pub axis: u32,
    /// Element type.
    pub dtype: DType,
}

/// Attributes of a reduction that leaves each member a part.
#[derive(Debug, Clone, Copy)]
pub struct ReduceScatterOp {
    /// How inputs are combined.
    pub op: ReduceOp,
    /// Axis along which the result is divided.
    pub axis: u32,
    /// Element type.
    pub dtype: DType,
    /// Type that sums are formed in.
    pub reduce_in: DType,
}

/// Attributes of an exchange between all members.
#[derive(Debug, Clone, Copy)]
pub struct AllToAllOp {
    /// Element type.
    pub dtype: DType,
}

/// Attributes of a send.
#[derive(Debug, Clone, Copy)]
pub struct SendOp {
    /// Receiving member.
    pub peer: u32,
    /// Element type.
    pub dtype: DType,
}

/// Attributes of a receive.
#[derive(Debug, Clone, Copy)]
pub struct RecvOp {
    /// Sending member.
    pub peer: u32,
    /// Element type.
    pub dtype: DType,
}

/// Attributes of a barrier; there are none.
#[derive(Debug, Clone, Copy)]
pub struct BarrierOp {}

/// The error of an exact transfer whose operands do not fit.
pub open spec fn transfer_fault(x: Tensor, y: Tensor) -> Option<ErrorView> {
    or_fault(
        or_fault(
            or_fault(x.backing_fault("x"), y.backing_fault("y")),
            fault_of(clear() + dtype_faults("y", x.dtype(), y.dtype())),
        ),
        copy_fault(x, y),
    )
}

/// The target of an exact transfer.
pub open spec fn transferred(x: Tensor, y: Tensor) -> Tensor {
    y.with_cells(copied(y.cells, x.cells, x.count()))
}

/// Copies `x` to `y` exactly.
fn identity_transfer(x: &TensorView<'_>, y: &mut TensorViewMut<'_>) -> (r: Result<(), T0Error>)
    ensures
        outcome(r) == fault_result(transfer_fault(x@, old(y)@)),
        r is Err ==> final(y)@ == old(y)@,
        r is Ok ==> final(y)@ == transferred(x@, old(y)@),
        match (old(y).data, final(y).data) {
            (TensorDataMut::F32(a), TensorDataMut::F32(b)) => {
                a@.len() == b@.len() && (*final(a))@ == (*final(b))@
            },
            (TensorDataMut::F16(a), TensorDataMut::F16(b)) => {
                a@.len() == b@.len() && (*final(a))@ == (*final(b))@
            },
            (TensorDataMut::Bf16(a), TensorDataMut::Bf16(b)) => {
                a@.len() == b@.len() && (*final(a))@ == (*final(b))@
            },
            (TensorDataMut::I8(a), TensorDataMut::I8(b)) => {
                a@.len() == b@.len() && (*final(a))@ == (*final(b))@
            },
            (TensorDataMut::U32(a), TensorDataMut::U32(b)) => {
                a@.len() == b@.len() && (*final(a))@ == (*final(b))@
            },
            (TensorDataMut::Bytes(d, a), TensorDataMut::Bytes(e, b)) => {
                d == e && a@.len() == b@.len() && (*final(a))@ == (*final(b))@
            },
            _ => false,
        },
{
    match x.validate_backing("x") {
        Ok(_) => {},
        Err(e) => {
            return Err(e);
        },
    }
    match y.validate_backing("y") {
        Ok(_) => {},
        Err(e) => {
            return Err(e);
        },
    }
    let mut problems = no_problems();
    check_dtype(&mut problems, "y", x.dtype(), y.dtype());
    match T0Error::from_problems(problems) {
        Ok(_) => {},
        Err(e) => {
            return Err(e);
        },
    }
    copy(&CopyOp { kind: CopyKind::DeviceToDevice }, x, y)
}

/// Problem of a reduction whose sums are not formed in single precision.
pub open spec fn reduce_in_faults(op: &'static str, reduce_in: DType) -> Seq<ErrorView> {
    given(
        reduce_in != DType::F32,
        attr_error(
            op,
            "reduce_in",
            quoting("must be f32, got {}", seq![Arg::Type(reduce_in)]),
        ),
    )
}

/// Checks that sums are formed in single precision.
fn check_reduce_in(problems: &mut Vec<T0Error>, op: &'static str, reduce_in: DType)
    ensures
        views(final(problems)@) == views(old(problems)@) + reduce_in_faults(op, reduce_in),
{
    let reason = Detail::one("must be f32, got {}", Arg::Type(reduce_in));
    push_when(problems, reduce_in != DType::F32, invalid_attr(op, "reduce_in", reason));
}

/// Problem of an axis that the operand does not have.
pub open spec fn axis_faults(op: &'static str, axis: u32, rank: int) -> Seq<ErrorView> {
    given(
        axis >= rank,
        attr_error(
            op,
            "axis",
            quoting(
                "axis {} out of bounds for rank {}",
                seq![Arg::Int(axis as u64), Arg::Int(rank as u64)],
            ),
        ),
    )
}

/// Checks that the operand has the axis.
fn check_axis(problems: &mut Vec<T0Error>, op: &'static str, axis: u32, rank: usize)
    ensures
        views(final(problems)@) == views(old(problems)@) + axis_faults(op, axis, rank as int),
{
    let reason = Detail::two(
        "axis {} out of bounds for rank {}",
        Arg::Int(axis as u64),
        Arg::Int(rank as u64),
    );
    push_when(problems, axis as usize >= rank, invalid_attr(op, "axis", reason));
}

/// The error of a reduction to all members.
pub open spec fn all_reduce_fault(op: AllReduceOp, x: Tensor, y: Tensor) -> Option<ErrorView> {
    or_fault(
        fault_of(
            clear() + reduce_in_faults("all_reduce", op.reduce_in) + dtype_faults(
                "x",
                op.dtype,
                x.dtype(),
            ) + dtype_faults("y", op.dtype, y.dtype()),
        ),
        transfer_fault(x, y),
    )
}

/// Reduction to all members of a group of one: an exact copy.
pub fn all_reduce(op: &AllReduceOp, x: &TensorView<'_>, y: &mut TensorViewMut<'_>) -> (r: Result<
    (),
    T0Error,
>)
    ensures
        outcome(r) == fault_result(all_reduce_fault(*op, x@, old(y)@)),
        r is Err ==> final(y)@ == old(y)@,
        r is Ok ==> final(y)@ == transferred(x@, old(y)@),
        match (old(y).data, final(y).data) {
            (TensorDataMut::F32(a), TensorDataMut::F32(b)) => {
                a@.len() == b@.len() && (*final(a))@ == (*final(b))@
            },
            (TensorDataMut::F16(a), TensorDataMut::F16(b)) => {
                a@.len() == b@.len() && (*final(a))@ == (*final(b))@
            },
            (TensorDataMut::Bf16(a), TensorDataMut::Bf16(b)) => {
                a@.len() == b@.len() && (*final(a))@ == (*final(b))@
            },
            (TensorDataMut::I8(a), TensorDataMut::I8(b)) => {
                a@.len() == b@.len() && (*final(a))@ == (*final(b))@
            },
            (TensorDataMut::U32(a), TensorDataMut::U32(b)) => {
                a@.len() == b@.len() && (*final(a))@ == (*final(b))@
            },
            (TensorDataMut::Bytes(d, a), TensorDataMut::Bytes(e, b)) => {
                d == e && a@.len() == b@.len() && (*final(a))@ == (*final(b))@
            },
            _ => false,
        },
{
    let mut problems = no_problems();
    check_reduce_in(&mut problems, "all_reduce", op.reduce_in);
    check_dtype(&mut problems, "x", op.dtype, x.dtype());
    check_dtype(&mut problems, "y", op.dtype, y.dtype());
    match T0Error::from_problems(problems) {
        Ok(_) => {},
        Err(e) => {
            return Err(e);
        },
    }
    identity_transfer(x, y)
}

/// The error of a gather to all members.
pub open spec fn all_gather_fault(op: AllGatherOp, x: Tensor, y: Tensor) -> Option<ErrorView> {
    or_fault(
        fault_of(
            clear() + dtype_faults("x", op.dtype, x.dtype()) + dtype_faults(
                "y",
                op.dtype,
                y.dtype(),
            ) + axis_faults("all_gather", op.axis, x.rank()),
        ),
        transfer_fault(x, y),
    )
}

/// Gather to all members of a group of one: an exact copy.
pub fn all_gather(op: &AllGatherOp, x: &TensorView<'_>, y: &mut TensorViewMut<'_>) -> (r: Result<
    (),
    T0Error,
>)
    ensures
        outcome(r) == fault_result(all_gather_fault(*op, x@, old(y)@)),
        r is Err ==> final(y)@ == old(y)@,
        r is Ok ==> final(y)@ == transferred(x@, old(y)@),
        match (old(y).data, final(y).data) {
            (TensorDataMut::F32(a), TensorDataMut::F32(b)) => {
                a@.len() == b@.len() && (*final(a))@ == (*final(b))@
            },
            (TensorDataMut::F16(a), TensorDataMut::F16(b)) => {
                a@.len() == b@.len() && (*final(a))@ == (*final(b))@
            },
            (TensorDataMut::Bf16(a), TensorDataMut::Bf16(b)) => {
                a@.len() == b@.len() && (*final(a))@ == (*final(b))@
            },
            (TensorDataMut::I8(a), TensorDataMut::I8(b)) => {
                a@.len() == b@.len() && (*final(a))@ == (*final(b))@
            },
            (TensorDataMut::U32(a), TensorDataMut::U32(b)) => {
                a@.len() == b@.len() && (*final(a))@ == (*final(b))@
            },
            (TensorDataMut::Bytes(d, a), TensorDataMut::Bytes(e, b)) => {
                d == e && a@.len() == b@.len() && (*final(a))@ == (*final(b))@
            },
            _ => false,
        },
{
    let mut problems = no_problems();
    check_dtype(&mut problems, "x", op.dtype, x.dtype());
    check_dtype(&mut problems, "y", op.dtype, y.dtype());
    check_axis(&mut problems, "all_gather", op.axis, x.rank());
    match T0Error::from_problems(problems) {
        Ok(_) => {},
        Err(e) => {
            return Err(e);
        },
    }
    identity_transfer(x, y)
}

/// The error of a reduction that leaves each member a part.
pub open spec fn reduce_scatter_fault(op: ReduceScatterOp, x: Tensor, y: Tensor) -> Option<
    ErrorView,
> {
    or_fault(
        fault_of(
            clear() + reduce_in_faults("reduce_scatter", op.reduce_in) + dtype_faults(
                "x",
                op.dtype,
                x.dtype(),
            ) + dtype_faults("y", op.dtype, y.dtype()) + axis_faults(
                "reduce_scatter",
                op.axis,
                x.rank(),
            ),
        ),
        transfer_fault(x, y),
    )
}

/// Reduction that leaves the single member everything: an exact copy.
pub fn reduce_scatter(
    op: &ReduceScatterOp,
    x: &TensorView<'_>,
    y: &mut TensorViewMut<'_>,
) -> (r: Result<(), T0Error>)
    ensures
        outcome(r) == fault_result(reduce_scatter_fault(*op, x@, old(y)@)),
        r is Err ==> final(y)@ == old(y)@,
        r is Ok ==> final(y)@ == transferred(x@, old(y)@),
        match (old(y).data, final(y).data) {
            (TensorDataMut::F32(a), TensorDataMut::F32(b)) => {
                a@.len() == b@.len() && (*final(a))@ == (*final(b))@
            },
            (TensorDataMut::F16(a), TensorDataMut::F16(b)) => {
                a@.len() == b@.len() && (*final(a))@ == (*final(b))@
            },
            (TensorDataMut::Bf16(a), TensorDataMut::Bf16(b)) => {
                a@.len() == b@.len() && (*final(a))@ == (*final(b))@
            },
            (TensorDataMut::I8(a), TensorDataMut::I8(b)) => {
                a@.len() == b@.len() && (*final(a))@ == (*final(b))@
            },
            (TensorDataMut::U32(a), TensorDataMut::U32(b)) => {
                a@.len() == b@.len() && (*final(a))@ == (*final(b))@
            },
            (TensorDataMut::Bytes(d, a), TensorDataMut::Bytes(e, b)) => {
                d == e && a@.len() == b@.len() && (*final(a))@ == (*final(b))@
            },
            _ => false,
        },
{
    let mut problems = no_problems();
    check_reduce_in(&mut problems, "reduce_scatter", op.reduce_in);
    check_dtype(&mut problems, "x", op.dtype, x.dtype());
    check_dtype(&mut problems, "y", op.dtype, y.dtype());
    check_axis(&mut problems, "reduce_scatter", op.axis, x.rank());
    match T0Error::from_problems(problems) {
        Ok(_) => {},
        Err(e) => {
            return Err(e);
        },
    }
    identity_transfer(x, y)
}

/// The error of an exchange: the single count must cover all rows.
#[verifier::opaque]
pub open spec fn all_to_all_fault(
    op: AllToAllOp,
    x: Tensor,
    counts: Tensor,
    y: Tensor,
) -> Option<ErrorView> {
    let backing = or_fault(
        or_fault(x.backing_fault("x"), counts.backing_fault("counts")),
        y.backing_fault("y"),
    );
    let form = fault_of(
        clear() + dtype_faults("x", op.dtype, x.dtype()) + dtype_faults("y", op.dtype, y.dtype())
            + rank_faults("counts", 1, counts.shape) + dtype_faults(
            "counts",
            DType::U32,
            counts.dtype(),
        ) + given(x.rank() == 0, rank_error("x", 1, x.shape)),
    );
    let single = fault_if(
        counts.shape[0] != 1,
        dim_error("P", "ranks_1", 1, "counts", counts.shape[0]),
    );
    let rows = fault_if(
        counts.u32_at(0) != x.shape[0],
        dim_error("rows", "x", x.shape[0], "counts", counts.u32_at(0) as usize),
    );
    or_fault(
        or_fault(or_fault(or_fault(backing, form), single), rows),
        transfer_fault(x, y),
    )
}

/// Exchange within a group of one: an exact copy of all rows.
pub fn all_to_all(
    op: &AllToAllOp,
    x: &TensorView<'_>,
    counts: &TensorView<'_>,
    y: &mut TensorViewMut<'_>,
) -> (r: Result<(), T0Error>)
    ensures
        outcome(r) == fault_result(all_to_all_fault(*op, x@, counts@, old(y)@)),
        r is Err ==> final(y)@ == old(y)@,
        r is Ok ==> final(y)@ == transferred(x@, old(y)@),
        match (old(y).data, final(y).data) {
            (TensorDataMut::F32(a), TensorDataMut::F32(b)) => {
                a@.len() == b@.len() && (*final(a))@ == (*final(b))@
            },
            (TensorDataMut::F16(a), TensorDataMut::F16(b)) => {
                a@.len() == b@.len() && (*final(a))@ == (*final(b))@
            },
            (TensorDataMut::Bf16(a), TensorDataMut::Bf16(b)) => {
                a@.len() == b@.len() && (*final(a))@ == (*final(b))@
            },
            (TensorDataMut::I8(a), TensorDataMut::I8(b)) => {
                a@.len() == b@.len() && (*final(a))@ == (*final(b))@
            },
            (TensorDataMut::U32(a), TensorDataMut::U32(b)) => {
                a@.len() == b@.len() && (*final(a))@ == (*final(b))@
            },
            (TensorDataMut::Bytes(d, a), TensorDataMut::Bytes(e, b)) => {
                d == e && a@.len() == b@.len() && (*final(a))@ == (*final(b))@
            },
            _ => false,
        },
{
    proof {
        reveal(all_to_all_fault);
    }
    match x.validate_backing("x") {
        Ok(_) => {},
        Err(e) => {
            return Err(e);
        },
    }
    match counts.validate_backing("counts") {
        Ok(_) => {},
        Err(e) => {
            return Err(e);
        },
    }
    match y.validate_backing("y") {
        Ok(_) => {},
        Err(e) => {
            return Err(e);
        },
    }
    let mut problems = no_problems();
    check_dtype(&mut problems, "x", op.dtype, x.dtype());
    check_dtype(&mut problems, "y", op.dtype, y.dtype());
    check_rank(&mut problems, "counts", 1, counts.shape());
    check_dtype(&mut problems, "counts", DType::U32, counts.dtype());
    push_when(&mut problems, x.rank() == 0, rank_mismatch("x", 1, x.shape()));
    match T0Error::from_problems(problems) {
        Ok(_) => {},
        Err(e) => {
            return Err(e);
        },
    }
    let members: usize = counts.shape()[0];
    if members != 1 {
        return Err(dim_mismatch("P", "ranks_1", 1, "counts", members));
    }
    proof {
        lemma_extent1(counts@.shape);
        lemma_backed_holds(counts@, 0);
    }
    let first: u32 = counts.read_u32(0);
    let rows: usize = x.shape()[0];
    if first as usize != rows {
        return Err(dim_mismatch("rows", "x", rows, "counts", first as usize));
    }
    identity_transfer(x, y)
}

/// The error of a send: only the member itself can be reached.
pub open spec fn send_fault(op: SendOp, x: Tensor) -> Option<ErrorView> {
    or_fault(
        x.backing_fault("x"),
        fault_of(
            clear() + dtype_faults("x", op.dtype, x.dtype()) + row_major_faults("x", x.layout)
                + given(
                op.peer != 0,
                attr_error(
                    "send",
                    "peer",
                    quoting(
                        "rank-1 send supports peer 0 only, got peer {}",
                        seq![Arg::Int(op.peer as u64)],
                    ),
                ),
            ),
        ),
    )
}

/// Send within a group of one: nothing moves.
pub fn send(op: &SendOp, x: &TensorView<'_>) -> (r: Result<(), T0Error>)
    ensures
        outcome(r) == fault_result(send_fault(*op, x@)),
{
    match x.validate_backing("x") {
        Ok(_) => {},
        Err(e) => {
            return Err(e);
        },
    }
    let mut problems = no_problems();
    check_dtype(&mut problems, "x", op.dtype, x.dtype());
    check_row_major(&mut problems, "x", x.layout());
    let reason = Detail::one(
        "rank-1 send supports peer 0 only, got peer {}",
        Arg::Int(op.peer as u64),
    );
    push_when(&mut problems, op.peer != 0, invalid_attr("send", "peer", reason));
    T0Error::from_problems(problems)
}

/// The refusal of a receive.
pub open spec fn recv_refusal(op: RecvOp) -> ErrorView {
    attr_error(
        "recv",
        "peer",
        quoting("rank-1 recv has no data source in T0 (peer {}); SI-54", seq![Arg::Int(op.peer as u64)]),
    )
}

/// The error of a receive: there is always one.
pub open spec fn recv_fault(op: RecvOp, y: Tensor) -> Option<ErrorView> {
    or_fault(
        y.backing_fault("y"),
        fault_of(
            clear() + dtype_faults("y", op.dtype, y.dtype()) + given(true, recv_refusal(op)),
        ),
    )
}

/// Receive within a group of one: refused, as there is no source. The output is
/// left unchanged.
pub fn recv(op: &RecvOp, y: &mut TensorViewMut<'_>) -> (r: Result<(), T0Error>)
    ensures
        outcome(r) == fault_result(recv_fault(*op, old(y)@)),
        r is Err,
        final(y)@ == old(y)@,
        match (old(y).data, final(y).data) {
            (TensorDataMut::F32(a), TensorDataMut::F32(b)) => {
                a@.len() == b@.len() && (*final(a))@ == (*final(b))@
            },
            (TensorDataMut::F16(a), TensorDataMut::F16(b)) => {
                a@.len() == b@.len() && (*final(a))@ == (*final(b))@
            },
            (TensorDataMut::Bf16(a), TensorDataMut::Bf16(b)) => {
                a@.len() == b@.len() && (*final(a))@ == (*final(b))@
            },
            (TensorDataMut::I8(a), TensorDataMut::I8(b)) => {
                a@.len() == b@.len() && (*final(a))@ == (*final(b))@
            },
            (TensorDataMut::U32(a), TensorDataMut::U32(b)) => {
                a@.len() == b@.len() && (*final(a))@ == (*final(b))@
            },
            (TensorDataMut::Bytes(d, a), TensorDataMut::Bytes(e, b)) => {
                d == e && a@.len() == b@.len() && (*final(a))@ == (*final(b))@
            },
            _ => false,
        },
{
    match y.validate_backing("y") {
        Ok(_) => {},
        Err(e) => {
            return Err(e);
        },
    }
    let mut problems = no_problems();
    check_dtype(&mut problems, "y", op.dtype, y.dtype());
    let reason = Detail::one(
        "rank-1 recv has no data source in T0 (peer {}); SI-54",
        Arg::Int(op.peer as u64),
    );
    push_when(&mut problems, true, invalid_attr("recv", "peer", reason));
    T0Error::from_problems(problems)
}

/// Barrier of a group of one: nothing to wait for.
pub fn barrier(_op: &BarrierOp) -> (r: Result<(), T0Error>)
    ensures
        r is Ok,
{
    Ok(())
}

/// In a group of one every data-moving collective whose attributes fit has the
/// errors and the result of a plain copy.
pub proof fn law_rank_one_identity(
    reduce: AllReduceOp,
    gather: AllGatherOp,
    scatter: ReduceScatterOp,
    x: Tensor,
    y: Tensor,
)
    requires
        x.dtype() == y.dtype(),
        reduce.dtype == x.dtype(),
        gather.dtype == x.dtype(),
        scatter.dtype == x.dtype(),
        reduce.reduce_in == DType::F32,
        scatter.reduce_in == DType::F32,
        gather.axis < x.rank(),
        scatter.axis < x.rank(),
    ensures
        all_reduce_fault(reduce, x, y) == copy_fault(x, y),
        all_gather_fault(gather, x, y) == copy_fault(x, y),
        reduce_scatter_fault(scatter, x, y) == copy_fault(x, y),
        transferred(x, y) == y.with_cells(copied(y.cells, x.cells, x.count())),
{
}

} // verus!
