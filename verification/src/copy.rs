//! Bit-exact tensor copy.
use vstd::prelude::*;
use crate::activation::lemma_no_disagreement;
use crate::buffer::{
    fault_result, lemma_raw_value, lemma_same_backing, lemma_with_raw, Cells, Tensor, TensorData,
    TensorDataMut, TensorView, TensorViewMut,
};
use crate::check::{check_dtype, clear, dtype_faults, fault_of, no_problems, or_fault};
use crate::dtype::{byte_count, byte_len};
use crate::error::{
    outcome, push_shape_agreement, shape_disagreements, views, ErrorView, T0Error,
};
use crate::ir::DType;

verus! {

/// Where a copy goes.
#[derive(Debug, Clone, Copy, PartialEq, Eq, Structural)]
pub enum CopyKind {
    /// From and to the memory that the kernels work on.
    DeviceToDevice,
}

/// Attributes of a copy.
#[derive(Debug, Clone, Copy)]
pub struct CopyOp {
    /// Where the copy goes.
    pub kind: CopyKind,
}

/// The error of a copy between operands that differ in shape or type.
pub open spec fn copy_fault(x: Tensor, y: Tensor) -> Option<ErrorView> {
    or_fault(
        or_fault(x.backing_fault("x"), y.backing_fault("y")),
        fault_of(
            clear() + shape_disagreements("y", "x", y.shape, x.shape) + dtype_faults(
                "y",
                x.dtype(),
                y.dtype(),
            ),
        ),
    )
}

/// `y` with the bits of its first `n` elements taken from `x`.
pub open spec fn with_elements(y: Cells, x: Cells, n: int) -> Cells
    decreases n,
{
    if n <= 0 {
        y
    } else {
        with_elements(y, x, n - 1).with_raw(n - 1, x.raw_at(n - 1))
    }
}

/// `y` after a copy of the first `n` elements of `x`: the leading bytes if both
/// are raw bytes, else the bits of each element.
pub open spec fn copied(y: Cells, x: Cells, n: int) -> Cells {
    match (x, y) {
        (Cells::Bytes(dtype, src), Cells::Bytes(_, dst)) => Cells::Bytes(
            y.dtype(),
            src.take(byte_len(dtype, n)) + dst.skip(byte_len(dtype, n)),
        ),
        _ => with_elements(y, x, n),
    }
}

/// Taking the bits of elements from storage of the same type keeps the form of
/// the storage, gives those bits and leaves the other elements unchanged.
proof fn lemma_with_elements(y: Cells, x: Cells, n: int)
    requires
        x.dtype() == y.dtype(),
        x.dtype() != DType::I4,
        0 <= n,
        y.required(n) <= y.len(),
    ensures
        with_elements(y, x, n).same_backing(y),
        with_elements(y, x, n).len() == y.len(),
        forall|i: int|
            0 <= i < n ==> #[trigger] with_elements(y, x, n).raw_at(i) == x.raw_at(i),
        forall|i: int|
            i >= n && y.holds(i) ==> #[trigger] with_elements(y, x, n).raw_at(i) == y.raw_at(i),
    decreases n,
{
    if n > 0 {
        lemma_with_elements(y, x, n - 1);
        let before = with_elements(y, x, n - 1);
        lemma_same_backing(before, y, n);
        lemma_same_backing(before, y, n - 1);
        lemma_with_raw(before, n - 1, x, n - 1);
        let after = with_elements(y, x, n);
        assert forall|i: int| 0 <= i < n implies #[trigger] after.raw_at(i) == x.raw_at(i) by {
            lemma_same_backing(before, y, i);
            assert(y.holds(i));
        }
        assert forall|i: int| i >= n && y.holds(i) implies #[trigger] after.raw_at(i) == y.raw_at(
            i,
        ) by {
            lemma_same_backing(before, y, i);
        }
    }
}

/// A copy is exact: every copied element has the bits, and so the value, that
/// it has in the source, and every element behind them is unchanged.
pub proof fn law_copy_exact(y: Cells, x: Cells, n: int)
    requires
        x.dtype() == y.dtype(),
        0 <= n,
        x.required(n) <= x.len(),
        y.required(n) <= y.len(),
    ensures
        copied(y, x, n).dtype() == y.dtype(),
        copied(y, x, n).len() == y.len(),
        forall|i: int|
            #![trigger copied(y, x, n).f32_at(i)]
            0 <= i < n ==> copied(y, x, n).f32_at(i) == x.f32_at(i),
        x.dtype() != DType::I4 ==> forall|i: int|
            #![trigger copied(y, x, n).raw_at(i)]
            0 <= i < n ==> copied(y, x, n).raw_at(i) == x.raw_at(i),
        x.dtype() != DType::I4 ==> forall|i: int|
            #![trigger copied(y, x, n).raw_at(i)]
            i >= n && y.holds(i) ==> copied(y, x, n).raw_at(i) == y.raw_at(i),
{
    let after = copied(y, x, n);
    match (x, y) {
        (Cells::Bytes(dtype, src), Cells::Bytes(_, dst)) => {
            let k = byte_len(dtype, n);
            let bytes = src.take(k) + dst.skip(k);
            assert(forall|b: int| 0 <= b < k ==> bytes[b] == src[b]);
            assert(forall|b: int| k <= b < dst.len() ==> bytes[b] == dst[b]);
        },
        _ => {
            lemma_with_elements(y, x, n);
            assert forall|i: int| 0 <= i < n implies #[trigger] after.f32_at(i) == x.f32_at(i) by {
                assert(after.raw_at(i) == x.raw_at(i));
                lemma_raw_value(after, i, x, i);
            }
        },
    }
}

/// Copies the bytes of `src` to the front of `dst`.
fn copy_bytes(src: &[u8], dst: &mut [u8], n: usize)
    requires
        n <= src@.len(),
        n <= old(dst)@.len(),
    ensures
        final(dst)@ == src@.take(n as int) + old(dst)@.skip(n as int),
{
    let ghost start = dst@;
    for i in 0..n
        invariant
            n <= src@.len(),
            n <= start.len(),
            dst@.len() == start.len(),
            forall|j: int| 0 <= j < i ==> dst@[j] == src@[j],
            forall|j: int| i <= j < start.len() ==> dst@[j] == start[j],
    {
        dst[i] = src[i];
    }
    assert(dst@ =~= src@.take(n as int) + start.skip(n as int));
}

/// Copies the first `n` elements of `x` to `y`, bit by bit.
pub fn copy_elements(x: &TensorView<'_>, y: &mut TensorViewMut<'_>, n: usize)
    requires
        x@.dtype() == old(y)@.dtype(),
        x@.cells.required(n as int) <= x@.cells.len(),
        old(y)@.cells.required(n as int) <= old(y)@.cells.len(),
    ensures
        final(y)@ == old(y)@.with_cells(copied(old(y)@.cells, x@.cells, n as int)),
        match (old(y).data, final(y).data) {
            (TensorDataMut::F32(a), TensorDataMut::F32(b)) => {
                a@.len() == b@.len() && (*final(a))@ == (*final(b))@
            },
            (TensorDataMut::F16(a), TensorDataMut::F16(b)) => {
                a@.len() == b@.len() && (*final(a))@ == (*final(b))@
            },
            (TensorDataMut::Bf16(a), TensorDataMut::Bf16(b)) => {
                a@.len() == b@.len() && (*final(a))@ == (*final(b))@
            },
            (TensorDataMut::I8(a), TensorDataMut::I8(b)) => {
                a@.len() == b@.len() && (*final(a))@ == (*final(b))@
            },
            (TensorDataMut::U32(a), TensorDataMut::U32(b)) => {
                a@.len() == b@.len() && (*final(a))@ == (*final(b))@
            },
            (TensorDataMut::Bytes(d, a), TensorDataMut::Bytes(e, b)) => {
                d == e && a@.len() == b@.len() && (*final(a))@ == (*final(b))@
            },
            _ => false,
        },
{
    let len: usize = x.backing_len();
    assert(x@.cells.required(n as int) <= len);
    match &x.data {
        TensorData::Bytes(dtype, src) => {
            let count: usize = byte_count(*dtype, n);
            match &mut y.data {
                TensorDataMut::Bytes(_, dst) => {
                    copy_bytes(src, dst, count);
                    return ;
                },
                _ => {},
            }
        },
        _ => {},
    }
    let ghost start = y@;
    for i in 0..n
        invariant
            match (old(y).data, y.data) {
                (TensorDataMut::F32(a), TensorDataMut::F32(b)) => {
                    a@.len() == b@.len() && (*final(a))@ == (*final(b))@
                },
                (TensorDataMut::F16(a), TensorDataMut::F16(b)) => {
                    a@.len() == b@.len() && (*final(a))@ == (*final(b))@
                },
                (TensorDataMut::Bf16(a), TensorDataMut::Bf16(b)) => {
                    a@.len() == b@.len() && (*final(a))@ == (*final(b))@
                },
                (TensorDataMut::I8(a), TensorDataMut::I8(b)) => {
                    a@.len() == b@.len() && (*final(a))@ == (*final(b))@
                },
                (TensorDataMut::U32(a), TensorDataMut::U32(b)) => {
                    a@.len() == b@.len() && (*final(a))@ == (*final(b))@
                },
                (TensorDataMut::Bytes(d, a), TensorDataMut::Bytes(e, b)) => {
                    d == e && a@.len() == b@.len() && (*final(a))@ == (*final(b))@
                },
                _ => false,
            },
            x@.dtype() == start.dtype(),
            x@.dtype() != DType::I4,
            x@.cells.required(n as int) <= x@.cells.len(),
            start.cells.required(n as int) <= start.cells.len(),
            y@ == start.with_cells(with_elements(start.cells, x@.cells, i as int)),
    {
        proof {
            lemma_with_elements(start.cells, x@.cells, i as int);
            lemma_same_backing(y@.cells, start.cells, i as int);
        }
        let bits: u32 = x.read_raw(i);
        y.write_raw(i, bits);
    }
}

/// Copies `x` to `y` without converting any element; a mismatch leaves `y`
/// unchanged.
pub fn copy(_op: &CopyOp, x: &TensorView<'_>, y: &mut TensorViewMut<'_>) -> (r: Result<
    (),
    T0Error,
>)
    ensures
        outcome(r) == fault_result(copy_fault(x@, old(y)@)),
        r is Err ==> final(y)@ == old(y)@,
        r is Ok ==> final(y)@ == old(y)@.with_cells(
            copied(old(y)@.cells, x@.cells, x@.count()),
        ),
        match (old(y).data, final(y).data) {
            (TensorDataMut::F32(a), TensorDataMut::F32(b)) => {
                a@.len() == b@.len() && (*final(a))@ == (*final(b))@
            },
            (TensorDataMut::F16(a), TensorDataMut::F16(b)) => {
                a@.len() == b@.len() && (*final(a))@ == (*final(b))@
            },
            (TensorDataMut::Bf16(a), TensorDataMut::Bf16(b)) => {
                a@.len() == b@.len() && (*final(a))@ == (*final(b))@
            },
            (TensorDataMut::I8(a), TensorDataMut::I8(b)) => {
                a@.len() == b@.len() && (*final(a))@ == (*final(b))@
            },
            (TensorDataMut::U32(a), TensorDataMut::U32(b)) => {
                a@.len() == b@.len() && (*final(a))@ == (*final(b))@
            },
            (TensorDataMut::Bytes(d, a), TensorDataMut::Bytes(e, b)) => {
                d == e && a@.len() == b@.len() && (*final(a))@ == (*final(b))@
            },
            _ => false,
        },
{
    match x.validate_backing("x") {
        Ok(_) => {},
        Err(e) => {
            return Err(e);
        },
    }
    match y.validate_backing("y") {
        Ok(_) => {},
        Err(e) => {
            return Err(e);
        },
    }
    let mut problems = no_problems();
    push_shape_agreement(&mut problems, "y", "x", y.shape(), x.shape());
    check_dtype(&mut problems, "y", x.dtype(), y.dtype());
    let ghost found = views(problems@);
    match T0Error::from_problems(problems) {
        Ok(_) => {},
        Err(e) => {
            return Err(e);
        },
    }
    proof {
        assert(found.len() == 0);
        lemma_no_disagreement("y", "x", y@.shape, x@.shape);
    }
    let n: usize = x.num_elements();
    copy_elements(x, y, n);
    Ok(())
}

} // verus!
