//! Gather of matrix rows by index.
use vstd::prelude::*;
use crate::buffer::{
    fault_result, lemma_backed_holds, lemma_extent1, lemma_extent2, lemma_raw_value,
    lemma_same_backing, lemma_with_f32_shape, lemma_with_raw, Cells, Tensor, TensorData,
    TensorDataMut, TensorView, TensorViewMut,
};
use crate::check::{
    check_dim, check_dtype, check_float, check_rank, check_row_major, clear, dim_faults,
    dtype_faults, empty_error, fault_if, fault_of, float_faults, given, no_problems, or_fault,
    overflow, overflow_error, push_when, rank_faults, row_major_faults,
};
use crate::error::{outcome, quoting, views, Arg, Detail, ErrorView, T0Error};
use crate::index::{lemma_flat_bound, lemma_split};
use crate::ir::DType;

verus! {

/// Attributes of a row gather; there are none.
#[derive(Debug, Clone, Copy)]
pub struct GatherRowsOp {}

/// The error of a named dimension that does not fit in 32 bits; `text` quotes
/// the dimension.
pub open spec fn named_u32_fault(op: &'static str, text: &'static str, v: usize) -> Option<
    ErrorView,
> {
    fault_if(v > u32::MAX, overflow_error(op, quoting(text, seq![Arg::Int(v as u64)])))
}

/// Checks that a named dimension fits in 32 bits.
pub fn check_named_u32(op: &'static str, text: &'static str, v: usize) -> (r: Result<(), T0Error>)
    ensures
        outcome(r) == fault_result(named_u32_fault(op, text, v)),
{
    if v > u32::MAX as usize {
        Err(overflow(op, Detail::one(text, Arg::Int(v as u64))))
    } else {
        Ok(())
    }
}

/// Problems of the operands' ranks, layouts and types.
pub open spec fn gather_form_faults(x: Tensor, indices: Tensor, y: Tensor) -> Seq<ErrorView> {
    clear() + rank_faults("x", 2, x.shape) + rank_faults("indices", 1, indices.shape)
        + rank_faults("y", 2, y.shape) + row_major_faults("x", x.layout) + row_major_faults(
        "indices",
        indices.layout,
    ) + row_major_faults("y", y.layout) + float_faults("x", x.dtype()) + dtype_faults(
        "indices",
        DType::U32,
        indices.dtype(),
    ) + dtype_faults("y", x.dtype(), y.dtype())
}

/// Problems of the first `k` indices against `n` rows.
pub open spec fn index_faults(indices: Tensor, n: usize, k: int) -> Seq<ErrorView>
    decreases k,
{
    if k <= 0 {
        Seq::empty()
    } else {
        let idx = indices.u32_at(k - 1);
        index_faults(indices, n, k - 1) + given(
            idx >= n,
            ErrorView::RowIndexOutOfRange {
                op: "gather_rows",
                tensor: "indices",
                position: (k - 1) as usize,
                index: idx,
                upper_bound: n,
            },
        )
    }
}

/// The error of a gather whose operands do not fit.
pub open spec fn gather_fault(x: Tensor, indices: Tensor, y: Tensor) -> Option<ErrorView> {
    let backing = or_fault(
        or_fault(x.backing_fault("x"), indices.backing_fault("indices")),
        y.backing_fault("y"),
    );
    let form = fault_of(gather_form_faults(x, indices, y));
    let n = x.shape[0];
    let d = x.shape[1];
    let m = indices.shape[0];
    let empty = or_fault(
        fault_if(m == 0, empty_error("gather_rows", "indices")),
        fault_if(n == 0 || d == 0, empty_error("gather_rows", "x")),
    );
    let wide = or_fault(
        or_fault(
            named_u32_fault("gather_rows", "dimension M exceeds u32: {}", m),
            named_u32_fault("gather_rows", "dimension N exceeds u32: {}", n),
        ),
        named_u32_fault("gather_rows", "dimension D exceeds u32: {}", d),
    );
    let dims = fault_of(
        clear() + dim_faults("M", "indices", m, "y", y.shape[0]) + dim_faults(
            "D",
            "x",
            d,
            "y",
            y.shape[1],
        ) + index_faults(indices, n, m as int),
    );
    or_fault(or_fault(or_fault(or_fault(backing, form), empty), wide), dims)
}

/// Flat position in the source of output element `k`.
pub open spec fn source_of(indices: Tensor, d: int, k: int) -> int {
    indices.u32_at(k / d) * d + k % d
}

/// `y` with its first `k` elements gathered from `x`: bit by bit if both are
/// stored in the same way, else by value.
pub open spec fn gathered(y: Cells, x: Cells, indices: Tensor, d: int, k: int) -> Cells
    decreases k,
{
    if k <= 0 {
        y
    } else {
        let src = source_of(indices, d, k - 1);
        let before = gathered(y, x, indices, d, k - 1);
        if x.same_backing(y) {
            before.with_raw(k - 1, x.raw_at(src))
        } else {
            before.with_f32(k - 1, x.f32_at(src))
        }
    }
}

proof fn lemma_gathered_shape(y: Cells, x: Cells, indices: Tensor, d: int, k: int)
    requires
        x.dtype() == y.dtype(),
        x.dtype() != DType::I4,
        0 <= k,
        y.required(k) <= y.len(),
    ensures
        gathered(y, x, indices, d, k).same_backing(y),
        gathered(y, x, indices, d, k).len() == y.len(),
    decreases k,
{
    if k > 0 {
        lemma_gathered_shape(y, x, indices, d, k - 1);
        let before = gathered(y, x, indices, d, k - 1);
        lemma_same_backing(before, y, k - 1);
        lemma_with_raw(before, k - 1, x, source_of(indices, d, k - 1));
        lemma_with_f32_shape(before, k - 1, x.f32_at(source_of(indices, d, k - 1)));
    }
}

/// A gather is exact: where source and target are stored in the same way, each
/// gathered element has the bits and the value of the indexed row's element.
pub proof fn law_gather_exact(y: Cells, x: Cells, indices: Tensor, d: int, k: int)
    requires
        x.same_backing(y),
        x.dtype() != DType::I4,
        0 <= k,
        y.required(k) <= y.len(),
    ensures
        forall|i: int|
            #![trigger gathered(y, x, indices, d, k).raw_at(i)]
            0 <= i < k ==> gathered(y, x, indices, d, k).raw_at(i) == x.raw_at(
                source_of(indices, d, i),
            ),
        forall|i: int|
            #![trigger gathered(y, x, indices, d, k).f32_at(i)]
            0 <= i < k ==> gathered(y, x, indices, d, k).f32_at(i) == x.f32_at(
                source_of(indices, d, i),
            ),
    decreases k,
{
    if k > 0 {
        law_gather_exact(y, x, indices, d, k - 1);
        lemma_gathered_shape(y, x, indices, d, k - 1);
        lemma_gathered_shape(y, x, indices, d, k);
        let before = gathered(y, x, indices, d, k - 1);
        let after = gathered(y, x, indices, d, k);
        lemma_same_backing(before, y, k - 1);
        lemma_with_raw(before, k - 1, x, source_of(indices, d, k - 1));
        assert forall|i: int| 0 <= i < k implies #[trigger] after.raw_at(i) == x.raw_at(
            source_of(indices, d, i),
        ) by {
            lemma_same_backing(before, y, i);
            assert(before.holds(i));
        }
        assert forall|i: int| 0 <= i < k implies #[trigger] after.f32_at(i) == x.f32_at(
            source_of(indices, d, i),
        ) by {
            assert(after.raw_at(i) == x.raw_at(source_of(indices, d, i)));
            lemma_raw_value(after, i, x, source_of(indices, d, i));
        }
    }
}

/// Checks the indices against `n` rows.
fn check_indices(problems: &mut Vec<T0Error>, indices: &TensorView<'_>, n: usize, m: usize)
    requires
        indices@.backed(),
        indices@.count() == m,
    ensures
        views(final(problems)@) == views(old(problems)@) + index_faults(indices@, n, m as int),
{
    let ghost before = views(problems@);
    assert(before =~= before + index_faults(indices@, n, 0));
    for pos in 0..m
        invariant
            indices@.backed(),
            indices@.count() == m,
            views(problems@) == before + index_faults(indices@, n, pos as int),
    {
        proof {
            lemma_backed_holds(indices@, pos as int);
        }
        let idx: u32 = indices.read_u32(pos);
        let e = T0Error::RowIndexOutOfRange {
            op: "gather_rows",
            tensor: "indices",
            position: pos,
            index: idx,
            upper_bound: n,
        };
        push_when(problems, idx as usize >= n, e);
        assert(views(problems@) =~= before + index_faults(indices@, n, pos + 1));
    }
}

proof fn lemma_indices_ok(indices: Tensor, n: usize, k: int, i: int)
    requires
        index_faults(indices, n, k).len() == 0,
        0 <= i < k,
    ensures
        indices.u32_at(i) < n,
    decreases k,
{
    if i < k - 1 {
        lemma_indices_ok(indices, n, k - 1, i);
    }
}

/// Whether two operands hold their elements in the same way.
pub fn backs_alike(x: &TensorView<'_>, y: &TensorViewMut<'_>) -> (r: bool)
    ensures
        r == x@.cells.same_backing(y@.cells),
{
    match (&x.data, &y.data) {
        (TensorData::F32(_), TensorDataMut::F32(_)) => true,
        (TensorData::F16(_), TensorDataMut::F16(_)) => true,
        (TensorData::Bf16(_), TensorDataMut::Bf16(_)) => true,
        (TensorData::I8(_), TensorDataMut::I8(_)) => true,
        (TensorData::U32(_), TensorDataMut::U32(_)) => true,
        (TensorData::Bytes(a, _), TensorDataMut::Bytes(b, _)) => *a == *b,
        _ => false,
    }
}

/// Gathers rows of `x` into `y`: row `r` of `y` is row `indices[r]` of `x`.
/// Every index is checked first; a mismatch leaves `y` unchanged.
pub fn gather_rows(
    _op: &GatherRowsOp,
    x: &TensorView<'_>,
    indices: &TensorView<'_>,
    y: &mut TensorViewMut<'_>,
) -> (r: Result<(), T0Error>)
    ensures
        outcome(r) == fault_result(gather_fault(x@, indices@, old(y)@)),
        r is Err ==> final(y)@ == old(y)@,
        r is Ok ==> final(y)@ == old(y)@.with_cells(
            gathered(
                old(y)@.cells,
                x@.cells,
                indices@,
                x@.shape[1] as int,
                indices@.shape[0] * x@.shape[1],
            ),
        ),
        match (old(y).data, final(y).data) {
            (TensorDataMut::F32(a), TensorDataMut::F32(b)) => {
                a@.len() == b@.len() && (*final(a))@ == (*final(b))@
            },
            (TensorDataMut::F16(a), TensorDataMut::F16(b)) => {
                a@.len() == b@.len() && (*final(a))@ == (*final(b))@
            },
            (TensorDataMut::Bf16(a), TensorDataMut::Bf16(b)) => {
                a@.len() == b@.len() && (*final(a))@ == (*final(b))@
            },
            (TensorDataMut::I8(a), TensorDataMut::I8(b)) => {
                a@.len() == b@.len() && (*final(a))@ == (*final(b))@
            },
            (TensorDataMut::U32(a), TensorDataMut::U32(b)) => {
                a@.len() == b@.len() && (*final(a))@ == (*final(b))@
            },
            (TensorDataMut::Bytes(d, a), TensorDataMut::Bytes(e, b)) => {
                d == e && a@.len() == b@.len() && (*final(a))@ == (*final(b))@
            },
            _ => false,
        },
{
    match x.validate_backing("x") {
        Ok(_) => {},
        Err(e) => {
            return Err(e);
        },
    }
    match indices.validate_backing("indices") {
        Ok(_) => {},
        Err(e) => {
            return Err(e);
        },
    }
    match y.validate_backing("y") {
        Ok(_) => {},
        Err(e) => {
            return Err(e);
        },
    }
    let mut problems = no_problems();
    check_rank(&mut problems, "x", 2, x.shape());
    check_rank(&mut problems, "indices", 1, indices.shape());
    check_rank(&mut problems, "y", 2, y.shape());
    check_row_major(&mut problems, "x", x.layout());
    check_row_major(&mut problems, "indices", indices.layout());
    check_row_major(&mut problems, "y", y.layout());
    check_float(&mut problems, "x", x.dtype());
    check_dtype(&mut problems, "indices", DType::U32, indices.dtype());
    check_dtype(&mut problems, "y", x.dtype(), y.dtype());
    match T0Error::from_problems(problems) {
        Ok(_) => {},
        Err(e) => {
            return Err(e);
        },
    }
    let n: usize = x.shape()[0];
    let d: usize = x.shape()[1];
    let m: usize = indices.shape()[0];
    if m == 0 {
        return Err(T0Error::EmptyInput { op: "gather_rows", tensor: "indices" });
    }
    if n == 0 || d == 0 {
        return Err(T0Error::EmptyInput { op: "gather_rows", tensor: "x" });
    }
    match check_named_u32("gather_rows", "dimension M exceeds u32: {}", m) {
        Ok(_) => {},
        Err(e) => {
            return Err(e);
        },
    }
    match check_named_u32("gather_rows", "dimension N exceeds u32: {}", n) {
        Ok(_) => {},
        Err(e) => {
            return Err(e);
        },
    }
    match check_named_u32("gather_rows", "dimension D exceeds u32: {}", d) {
        Ok(_) => {},
        Err(e) => {
            return Err(e);
        },
    }
    proof {
        lemma_extent2(x@.shape);
        lemma_extent1(indices@.shape);
        lemma_extent2(y@.shape);
    }
    let mut problems = no_problems();
    check_dim(&mut problems, "M", "indices", m, "y", y.shape()[0]);
    check_dim(&mut problems, "D", "x", d, "y", y.shape()[1]);
    check_indices(&mut problems, indices, n, m);
    let ghost found = views(problems@);
    match T0Error::from_problems(problems) {
        Ok(_) => {},
        Err(e) => {
            return Err(e);
        },
    }
    proof {
        assert(found.len() == 0);
        assert(index_faults(indices@, n, m as int).len() == 0);
    }
    let alike: bool = backs_alike(x, y);
    let ghost start = y@;
    assert(0 * d == 0) by (nonlinear_arith);
    for row in 0..m
        invariant
            match (old(y).data, y.data) {
                (TensorDataMut::F32(a), TensorDataMut::F32(b)) => {
                    a@.len() == b@.len() && (*final(a))@ == (*final(b))@
                },
                (TensorDataMut::F16(a), TensorDataMut::F16(b)) => {
                    a@.len() == b@.len() && (*final(a))@ == (*final(b))@
                },
                (TensorDataMut::Bf16(a), TensorDataMut::Bf16(b)) => {
                    a@.len() == b@.len() && (*final(a))@ == (*final(b))@
                },
                (TensorDataMut::I8(a), TensorDataMut::I8(b)) => {
                    a@.len() == b@.len() && (*final(a))@ == (*final(b))@
                },
                (TensorDataMut::U32(a), TensorDataMut::U32(b)) => {
                    a@.len() == b@.len() && (*final(a))@ == (*final(b))@
                },
                (TensorDataMut::Bytes(d, a), TensorDataMut::Bytes(e, b)) => {
                    d == e && a@.len() == b@.len() && (*final(a))@ == (*final(b))@
                },
                _ => false,
            },
            x@.backed(),
            x@.count() == n * d,
            indices@.backed(),
            indices@.count() == m,
            start.backed(),
            start.count() == m * d,
            d > 0,
            x@.dtype() == start.dtype(),
            x@.dtype() != DType::I4,
            index_faults(indices@, n, m as int).len() == 0,
            alike == x@.cells.same_backing(start.cells),
            y@ == start.with_cells(
                gathered(start.cells, x@.cells, indices@, d as int, row * d),
            ),
    {
        proof {
            lemma_backed_holds(indices@, row as int);
            lemma_indices_ok(indices@, n, m as int, row as int);
        }
        let src_row: usize = indices.read_u32(row) as usize;
        for col in 0..d
            invariant
                match (old(y).data, y.data) {
                    (TensorDataMut::F32(a), TensorDataMut::F32(b)) => {
                        a@.len() == b@.len() && (*final(a))@ == (*final(b))@
                    },
                    (TensorDataMut::F16(a), TensorDataMut::F16(b)) => {
                        a@.len() == b@.len() && (*final(a))@ == (*final(b))@
                    },
                    (TensorDataMut::Bf16(a), TensorDataMut::Bf16(b)) => {
                        a@.len() == b@.len() && (*final(a))@ == (*final(b))@
                    },
                    (TensorDataMut::I8(a), TensorDataMut::I8(b)) => {
                        a@.len() == b@.len() && (*final(a))@ == (*final(b))@
                    },
                    (TensorDataMut::U32(a), TensorDataMut::U32(b)) => {
                        a@.len() == b@.len() && (*final(a))@ == (*final(b))@
                    },
                    (TensorDataMut::Bytes(d, a), TensorDataMut::Bytes(e, b)) => {
                        d == e && a@.len() == b@.len() && (*final(a))@ == (*final(b))@
                    },
                    _ => false,
                },
                x@.backed(),
                x@.count() == n * d,
                start.backed(),
                start.count() == m * d,
                d > 0,
                row < m,
                x@.dtype() == start.dtype(),
                x@.dtype() != DType::I4,
                src_row == indices@.u32_at(row as int),
                src_row < n,
                alike == x@.cells.same_backing(start.cells),
                y@ == start.with_cells(
                    gathered(start.cells, x@.cells, indices@, d as int, row * d + col),
                ),
        {
            proof {
                lemma_flat_bound(src_row as int, n as int, col as int, d as int);
                lemma_flat_bound(row as int, m as int, col as int, d as int);
                lemma_split(row as int, col as int, d as int);
                lemma_backed_holds(x@, src_row * d + col);
                lemma_backed_holds(start, row * d + col);
                lemma_gathered_shape(
                    start.cells,
                    x@.cells,
                    indices@,
                    d as int,
                    row * d + col,
                );
                lemma_same_backing(y@.cells, start.cells, row * d + col);
                assert(source_of(indices@, d as int, row * d + col) == src_row * d + col);
            }
            let src: usize = src_row * d + col;
            let dst: usize = row * d + col;
            if alike {
                y.write_raw(dst, x.read_raw(src));
            } else {
                y.write_f32(dst, x.read_f32(src));
            }
        }
        assert((row + 1) * d == row * d + d) by (nonlinear_arith);
    }
    Ok(())
}

} // verus!
