//! Building blocks for the checks that every op makes before it computes.
//!
//! A stage of checks collects its problems in a list; the list of a stage is
//! stated as the concatenation of what each check contributes. The first stage
//! with a problem decides the error of the op.
use vstd::prelude::*;
use crate::error::{
    push_problem, to_vec, verdict, views, Detail, DetailView, ErrorView, T0Error,
};
use crate::ir::{DType, LayoutId, QuantScheme};

verus! {

/// The problem `e` if `c` holds, else none.
pub open spec fn given(c: bool, e: ErrorView) -> Seq<ErrorView> {
    if c {
        seq![e]
    } else {
        Seq::empty()
    }
}

/// The error that a list of problems amounts to.
pub open spec fn fault_of(problems: Seq<ErrorView>) -> Option<ErrorView> {
    match verdict(problems) {
        Ok(_) => None,
        Err(e) => Some(e),
    }
}

/// The first of two errors.
pub open spec fn or_fault(a: Option<ErrorView>, b: Option<ErrorView>) -> Option<ErrorView> {
    if a is Some {
        a
    } else {
        b
    }
}

/// The error `e` if `c` holds, else none.
pub open spec fn fault_if(c: bool, e: ErrorView) -> Option<ErrorView> {
    if c {
        Some(e)
    } else {
        None
    }
}

/// No problems.
pub open spec fn clear() -> Seq<ErrorView> {
    Seq::empty()
}

/// An empty list of problems.
pub fn no_problems() -> (r: Vec<T0Error>)
    ensures
        views(r@) == clear(),
{
    let r: Vec<T0Error> = Vec::new();
    assert(views(r@) =~= clear());
    r
}

/// Appends a problem if `c` holds.
pub fn push_when(problems: &mut Vec<T0Error>, c: bool, e: T0Error)
    ensures
        views(final(problems)@) == views(old(problems)@) + given(c, e.view()),
{
    if c {
        push_problem(problems, e);
        assert(views(problems@) =~= views(old(problems)@) + given(c, e.view()));
    } else {
        assert(views(problems@) =~= views(old(problems)@) + given(c, e.view()));
    }
}

/// See [`T0Error::RankMismatch`].
pub open spec fn rank_error(tensor: &'static str, expected: usize, shape: Seq<usize>) -> ErrorView {
    ErrorView::RankMismatch { tensor, expected, got: shape.len() as usize, shape }
}

/// See [`T0Error::RankMismatch`].
pub fn rank_mismatch(tensor: &'static str, expected: usize, shape: &[usize]) -> (e: T0Error)
    ensures
        e.view() == rank_error(tensor, expected, shape@),
{
    T0Error::RankMismatch { tensor, expected, got: shape.len(), shape: to_vec(shape) }
}

/// See [`T0Error::LayoutMismatch`].
pub open spec fn layout_error(
    tensor: &'static str,
    expected: Seq<LayoutId>,
    got: LayoutId,
) -> ErrorView {
    ErrorView::LayoutMismatch { tensor, expected, got }
}

/// See [`T0Error::DTypeMismatch`].
pub open spec fn dtype_error(tensor: &'static str, expected: Seq<DType>, got: DType) -> ErrorView {
    ErrorView::DTypeMismatch { tensor, expected, got }
}

/// See [`T0Error::DTypeMismatch`].
pub fn dtype_mismatch(tensor: &'static str, expected: Vec<DType>, got: DType) -> (e: T0Error)
    ensures
        e.view() == dtype_error(tensor, expected@, got),
{
    T0Error::DTypeMismatch { tensor, expected, got }
}

/// See [`T0Error::QuantMismatch`].
pub open spec fn quant_error(
    tensor: &'static str,
    expected: Seq<QuantScheme>,
    got: QuantScheme,
) -> ErrorView {
    ErrorView::QuantMismatch { tensor, expected, got }
}

/// See [`T0Error::QuantMismatch`].
pub fn quant_mismatch(
    tensor: &'static str,
    expected: Vec<QuantScheme>,
    got: QuantScheme,
) -> (e: T0Error)
    ensures
        e.view() == quant_error(tensor, expected@, got),
{
    T0Error::QuantMismatch { tensor, expected, got }
}

/// See [`T0Error::DimensionMismatch`].
pub open spec fn dim_error(
    dim_name: &'static str,
    expected_from: &'static str,
    expected: usize,
    tensor: &'static str,
    got: usize,
) -> ErrorView {
    ErrorView::DimensionMismatch { dim_name, expected_from, expected, tensor, got }
}

/// See [`T0Error::DimensionMismatch`].
pub fn dim_mismatch(
    dim_name: &'static str,
    expected_from: &'static str,
    expected: usize,
    tensor: &'static str,
    got: usize,
) -> (e: T0Error)
    ensures
        e.view() == dim_error(dim_name, expected_from, expected, tensor, got),
{
    T0Error::DimensionMismatch { dim_name, expected_from, expected, tensor, got }
}

/// See [`T0Error::BufferLengthMismatch`].
pub open spec fn length_error(
    tensor: &'static str,
    buffer_len: int,
    expected_len: int,
    shape: Seq<usize>,
) -> ErrorView {
    ErrorView::BufferLengthMismatch {
        tensor,
        buffer_len: buffer_len as usize,
        expected_len: expected_len as usize,
        shape,
    }
}

/// See [`T0Error::BufferLengthMismatch`].
pub fn length_mismatch(
    tensor: &'static str,
    buffer_len: usize,
    expected_len: usize,
    shape: &[usize],
) -> (e: T0Error)
    ensures
        e.view() == length_error(tensor, buffer_len as int, expected_len as int, shape@),
{
    T0Error::BufferLengthMismatch { tensor, buffer_len, expected_len, shape: to_vec(shape) }
}

/// See [`T0Error::InvalidAttribute`].
pub open spec fn attr_error(
    op: &'static str,
    attribute: &'static str,
    reason: DetailView,
) -> ErrorView {
    ErrorView::InvalidAttribute { op, attribute, reason }
}

/// See [`T0Error::InvalidAttribute`].
pub fn invalid_attr(op: &'static str, attribute: &'static str, reason: Detail) -> (e: T0Error)
    ensures
        e.view() == attr_error(op, attribute, reason@),
{
    T0Error::InvalidAttribute { op, attribute, reason }
}

/// See [`T0Error::ArithmeticOverflow`].
pub open spec fn overflow_error(op: &'static str, detail: DetailView) -> ErrorView {
    ErrorView::ArithmeticOverflow { op, detail }
}

/// See [`T0Error::ArithmeticOverflow`].
pub fn overflow(op: &'static str, detail: Detail) -> (e: T0Error)
    ensures
        e.view() == overflow_error(op, detail@),
{
    T0Error::ArithmeticOverflow { op, detail }
}

/// See [`T0Error::MissingOperand`].
pub open spec fn missing_error(
    op: &'static str,
    operand: &'static str,
    detail: DetailView,
) -> ErrorView {
    ErrorView::MissingOperand { op, operand, detail }
}

/// See [`T0Error::MissingOperand`].
pub fn missing(op: &'static str, operand: &'static str, detail: Detail) -> (e: T0Error)
    ensures
        e.view() == missing_error(op, operand, detail@),
{
    T0Error::MissingOperand { op, operand, detail }
}

/// See [`T0Error::EmptyInput`].
pub open spec fn empty_error(op: &'static str, tensor: &'static str) -> ErrorView {
    ErrorView::EmptyInput { op, tensor }
}

/// See [`T0Error::BackingRepresentationMismatch`].
pub open spec fn backing_error(op: &'static str, dtype: DType) -> ErrorView {
    ErrorView::BackingRepresentationMismatch { op, dtype }
}

/// The floating-point types of activations.
pub open spec fn float_types() -> Seq<DType> {
    seq![DType::F16, DType::Bf16, DType::F32]
}

/// The floating-point types of activations.
pub fn floats() -> (r: Vec<DType>)
    ensures
        r@ == float_types(),
{
    let r = vec![DType::F16, DType::Bf16, DType::F32];
    assert(r@ =~= float_types());
    r
}

/// A list of one type.
pub fn only(d: DType) -> (r: Vec<DType>)
    ensures
        r@ == seq![d],
{
    let r = vec![d];
    assert(r@ =~= seq![d]);
    r
}

/// Whether a type is one of the floating-point types of activations.
pub open spec fn is_float(d: DType) -> bool {
    d == DType::F16 || d == DType::Bf16 || d == DType::F32
}

/// Whether a type is one of the floating-point types of activations.
pub fn float_type(d: DType) -> (r: bool)
    ensures
        r == is_float(d),
{
    matches!(d, DType::F16 | DType::Bf16 | DType::F32)
}

/// The row-major layouts.
pub open spec fn row_major() -> Seq<LayoutId> {
    seq![LayoutId::Contiguous, LayoutId::L0]
}

/// Whether a layout is row-major.
pub open spec fn is_row_major(l: LayoutId) -> bool {
    l == LayoutId::Contiguous || l == LayoutId::L0
}

/// Whether a layout is row-major or tiled.
pub open spec fn is_dense_layout(l: LayoutId) -> bool {
    l == LayoutId::Contiguous || l == LayoutId::L0 || l == LayoutId::L1
}

/// Problem of an operand that must have the given rank.
pub open spec fn rank_faults(
    tensor: &'static str,
    expected: usize,
    shape: Seq<usize>,
) -> Seq<ErrorView> {
    given(shape.len() != expected, rank_error(tensor, expected, shape))
}

/// Checks the rank of an operand.
pub fn check_rank(
    problems: &mut Vec<T0Error>,
    tensor: &'static str,
    expected: usize,
    shape: &[usize],
)
    ensures
        views(final(problems)@) == views(old(problems)@) + rank_faults(tensor, expected, shape@),
{
    push_when(problems, shape.len() != expected, rank_mismatch(tensor, expected, shape));
}

/// Problem of an operand that must be row-major.
pub open spec fn row_major_faults(tensor: &'static str, layout: LayoutId) -> Seq<ErrorView> {
    given(!is_row_major(layout), layout_error(tensor, row_major(), layout))
}

/// Checks that an operand is row-major.
pub fn check_row_major(problems: &mut Vec<T0Error>, tensor: &'static str, layout: LayoutId)
    ensures
        views(final(problems)@) == views(old(problems)@) + row_major_faults(tensor, layout),
{
    let expected = vec![LayoutId::Contiguous, LayoutId::L0];
    assert(expected@ =~= row_major());
    let bad: bool = layout != LayoutId::Contiguous && layout != LayoutId::L0;
    push_when(problems, bad, T0Error::LayoutMismatch { tensor, expected, got: layout });
}

/// Problem of a weight that must be row-major or tiled.
pub open spec fn weight_layout_faults(tensor: &'static str, layout: LayoutId) -> Seq<ErrorView> {
    given(
        !is_dense_layout(layout),
        layout_error(tensor, seq![LayoutId::L0, LayoutId::L1], layout),
    )
}

/// Checks that a weight is row-major or tiled.
pub fn check_weight_layout(problems: &mut Vec<T0Error>, tensor: &'static str, layout: LayoutId)
    ensures
        views(final(problems)@) == views(old(problems)@) + weight_layout_faults(tensor, layout),
{
    let expected = vec![LayoutId::L0, LayoutId::L1];
    assert(expected@ =~= seq![LayoutId::L0, LayoutId::L1]);
    let bad: bool = layout != LayoutId::Contiguous && layout != LayoutId::L0 && layout
        != LayoutId::L1;
    push_when(problems, bad, T0Error::LayoutMismatch { tensor, expected, got: layout });
}

/// Problem of a scale operand that must be row-major or tiled.
pub open spec fn scale_layout_faults(tensor: &'static str, layout: LayoutId) -> Seq<ErrorView> {
    given(
        !is_dense_layout(layout),
        layout_error(tensor, seq![LayoutId::Contiguous, LayoutId::L0, LayoutId::L1], layout),
    )
}

/// Checks that a scale operand is row-major or tiled.
pub fn check_scale_layout(problems: &mut Vec<T0Error>, tensor: &'static str, layout: LayoutId)
    ensures
        views(final(problems)@) == views(old(problems)@) + scale_layout_faults(tensor, layout),
{
    let expected = vec![LayoutId::Contiguous, LayoutId::L0, LayoutId::L1];
    assert(expected@ =~= seq![LayoutId::Contiguous, LayoutId::L0, LayoutId::L1]);
    let bad: bool = layout != LayoutId::Contiguous && layout != LayoutId::L0 && layout
        != LayoutId::L1;
    push_when(problems, bad, T0Error::LayoutMismatch { tensor, expected, got: layout });
}

/// Problem of an operand that must have a floating-point type.
pub open spec fn float_faults(tensor: &'static str, got: DType) -> Seq<ErrorView> {
    given(!is_float(got), dtype_error(tensor, float_types(), got))
}

/// Checks that an operand has a floating-point type.
pub fn check_float(problems: &mut Vec<T0Error>, tensor: &'static str, got: DType)
    ensures
        views(final(problems)@) == views(old(problems)@) + float_faults(tensor, got),
{
    push_when(problems, !float_type(got), dtype_mismatch(tensor, floats(), got));
}

/// Problem of an operand that must have the given type.
pub open spec fn dtype_faults(tensor: &'static str, expected: DType, got: DType) -> Seq<ErrorView> {
    given(got != expected, dtype_error(tensor, seq![expected], got))
}

/// Checks the type of an operand.
pub fn check_dtype(problems: &mut Vec<T0Error>, tensor: &'static str, expected: DType, got: DType)
    ensures
        views(final(problems)@) == views(old(problems)@) + dtype_faults(tensor, expected, got),
{
    push_when(problems, got != expected, dtype_mismatch(tensor, only(expected), got));
}

/// Problem of an operand that must have the given extent.
pub open spec fn dim_faults(
    dim_name: &'static str,
    expected_from: &'static str,
    expected: usize,
    tensor: &'static str,
    got: usize,
) -> Seq<ErrorView> {
    given(got != expected, dim_error(dim_name, expected_from, expected, tensor, got))
}

/// Checks the extent of an operand.
pub fn check_dim(
    problems: &mut Vec<T0Error>,
    dim_name: &'static str,
    expected_from: &'static str,
    expected: usize,
    tensor: &'static str,
    got: usize,
)
    ensures
        views(final(problems)@) == views(old(problems)@) + dim_faults(
            dim_name,
            expected_from,
            expected,
            tensor,
            got,
        ),
{
    push_when(
        problems,
        got != expected,
        dim_mismatch(dim_name, expected_from, expected, tensor, got),
    );
}

} // verus!
