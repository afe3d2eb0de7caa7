//! Errors of the reference kernels, and the lists of problems they collect.
use vstd::prelude::*;
use crate::ir::{DType, LayoutId, QuantScheme, SchemeId, StateKind};

verus! {

/// One value quoted in the text of a [`Detail`].
#[derive(Debug, Clone, Copy, PartialEq, Eq, Structural)]
pub enum Arg {
    /// An integer.
    Int(u64),
    /// A single-precision number, by its bits.
    Real(u32),
    /// A data type.
    Type(DType),
    /// A weight scheme.
    Scheme(SchemeId),
    /// A quantization scheme.
    Quant(QuantScheme),
    /// A state kind.
    State(StateKind),
    /// A truth value.
    Flag(bool),
}

/// Human-readable detail of an error: a text whose `{}` marks stand for the
/// values of `args` in order, a leading `{what}` for `subject`, and `{dims}`
/// for the shape in `dims`.
#[derive(Debug)]
pub struct Detail {
    /// Text with one `{}` per argument.
    pub text: &'static str,
    /// What the text is about, where it names an operand.
    pub subject: &'static str,
    /// Values quoted in the text.
    pub args: Vec<Arg>,
    /// Shape quoted in the text.
    pub dims: Vec<usize>,
}

/// Mathematical value of a [`Detail`].
#[verifier::ext_equal]
pub struct DetailView {
    /// Text with one `{}` per argument.
    pub text: &'static str,
    /// What the text is about.
    pub subject: &'static str,
    /// Values quoted in the text.
    pub args: Seq<Arg>,
    /// Shape quoted in the text.
    pub dims: Seq<usize>,
}

impl View for Detail {
    type V = DetailView;

    open spec fn view(&self) -> DetailView {
        DetailView { text: self.text, subject: self.subject, args: self.args@, dims: self.dims@ }
    }
}

/// Detail with a fixed text.
pub open spec fn plain(text: &'static str) -> DetailView {
    DetailView { text, subject: "", args: Seq::empty(), dims: Seq::empty() }
}

/// Detail that quotes `args`.
pub open spec fn quoting(text: &'static str, args: Seq<Arg>) -> DetailView {
    DetailView { text, subject: "", args, dims: Seq::empty() }
}

/// Detail that names `subject` and quotes `args`.
pub open spec fn about(subject: &'static str, text: &'static str, args: Seq<Arg>) -> DetailView {
    DetailView { text, subject, args, dims: Seq::empty() }
}

/// Detail that quotes a shape.
pub open spec fn quoting_shape(text: &'static str, dims: Seq<usize>) -> DetailView {
    DetailView { text, subject: "", args: Seq::empty(), dims }
}

impl Detail {
    /// Detail with a fixed text.
    pub fn plain(text: &'static str) -> (d: Detail)
        ensures
            d@ == plain(text),
    {
        let d = Detail { text, subject: "", args: Vec::new(), dims: Vec::new() };
        assert(d@ =~= plain(text));
        d
    }

    /// Detail that quotes one value.
    pub fn one(text: &'static str, a: Arg) -> (d: Detail)
        ensures
            d@ == quoting(text, seq![a]),
    {
        let d = Detail { text, subject: "", args: vec![a], dims: Vec::new() };
        assert(d@ =~= quoting(text, seq![a]));
        d
    }

    /// Detail that quotes two values.
    pub fn two(text: &'static str, a: Arg, b: Arg) -> (d: Detail)
        ensures
            d@ == quoting(text, seq![a, b]),
    {
        let d = Detail { text, subject: "", args: vec![a, b], dims: Vec::new() };
        assert(d@ =~= quoting(text, seq![a, b]));
        d
    }

    /// Detail that quotes three values.
    pub fn three(text: &'static str, a: Arg, b: Arg, c: Arg) -> (d: Detail)
        ensures
            d@ == quoting(text, seq![a, b, c]),
    {
        let d = Detail { text, subject: "", args: vec![a, b, c], dims: Vec::new() };
        assert(d@ =~= quoting(text, seq![a, b, c]));
        d
    }

    /// Detail that names `subject` and quotes the values in `args`.
    pub fn about(subject: &'static str, text: &'static str, args: Vec<Arg>) -> (d: Detail)
        ensures
            d@ == about(subject, text, args@),
    {
        let d = Detail { text, subject, args, dims: Vec::new() };
        assert(d@ =~= about(subject, text, args@));
        d
    }

    /// Detail that quotes a shape.
    pub fn shape(text: &'static str, dims: &[usize]) -> (d: Detail)
        ensures
            d@ == quoting_shape(text, dims@),
    {
        let d = Detail { text, subject: "", args: Vec::new(), dims: to_vec(dims) };
        assert(d@ =~= quoting_shape(text, dims@));
        d
    }
}

/// Copies a shape.
pub fn to_vec(dims: &[usize]) -> (v: Vec<usize>)
    ensures
        v@ == dims@,
{
    let mut v: Vec<usize> = Vec::new();
    for i in 0..dims.len()
        invariant
            v@ =~= dims@.take(i as int),
    {
        v.push(dims[i]);
    }
    assert(v@ =~= dims@);
    v
}

/// Error of a weight format.
#[derive(Debug, Clone, Copy, PartialEq, Eq, Structural)]
pub enum FormatError {
    /// The id names no scheme.
    UnknownScheme {
        /// The id.
        id: u16,
    },
    /// The scheme is named but cannot be decoded.
    ReservedScheme {
        /// The scheme.
        id: u16,
    },
    /// A size in bytes exceeds 64 bits.
    Overflow,
    /// A stored record cannot be decoded.
    Record {
        /// Row or block index of the record.
        index: u64,
    },
    /// A tiled layout cannot be built for the given extents.
    Geometry,
}

/// Error of a computation graph.
#[derive(Debug, Clone, Copy, PartialEq, Eq, Structural)]
pub enum IrError {
    /// The graph has a cycle through the node.
    GraphCycle {
        /// Index of a node on or behind the cycle.
        node: usize,
    },
}

/// Error of a reference kernel.
#[derive(Debug)]
#[allow(inconsistent_fields)]
pub enum T0Error {
    /// Error of the graph.
    Ir(IrError),
    /// Error of a weight format.
    Format(FormatError),
    /// Quantization scheme mismatch.
    QuantMismatch {
        /// Operand name.
        tensor: &'static str,
        /// Schemes that would be accepted.
        expected: Vec<QuantScheme>,
        /// Observed scheme.
        got: QuantScheme,
    },
    /// Layout mismatch.
    LayoutMismatch {
        /// Operand name.
        tensor: &'static str,
        /// Layouts that would be accepted.
        expected: Vec<LayoutId>,
        /// Observed layout.
        got: LayoutId,
    },
    /// A row or token index is outside its bounds.
    RowIndexOutOfRange {
        /// Op name.
        op: &'static str,
        /// Operand name.
        tensor: &'static str,
        /// Flat position of the index.
        position: usize,
        /// The index.
        index: u32,
        /// Exclusive upper bound.
        upper_bound: usize,
    },
    /// A size or an accumulation overflows.
    ArithmeticOverflow {
        /// Op name.
        op: &'static str,
        /// What overflowed.
        detail: Detail,
    },
    /// Rank mismatch.
    RankMismatch {
        /// Operand name.
        tensor: &'static str,
        /// Expected rank.
        expected: usize,
        /// Observed rank.
        got: usize,
        /// Observed shape.
        shape: Vec<usize>,
    },
    /// Element type mismatch.
    DTypeMismatch {
        /// Operand name.
        tensor: &'static str,
        /// Types that would be accepted.
        expected: Vec<DType>,
        /// Observed type.
        got: DType,
    },
    /// A buffer is too short for its shape.
    BufferLengthMismatch {
        /// Operand name.
        tensor: &'static str,
        /// Available length.
        buffer_len: usize,
        /// Required length.
        expected_len: usize,
        /// Shape of the operand.
        shape: Vec<usize>,
    },
    /// Two operands disagree on a dimension.
    DimensionMismatch {
        /// Name of the dimension.
        dim_name: &'static str,
        /// Where the expected extent comes from.
        expected_from: &'static str,
        /// Expected extent.
        expected: usize,
        /// Operand name.
        tensor: &'static str,
        /// Observed extent.
        got: usize,
    },
    /// An attribute is not valid.
    InvalidAttribute {
        /// Op name.
        op: &'static str,
        /// Attribute name.
        attribute: &'static str,
        /// Reason.
        reason: Detail,
    },
    /// A required operand is missing.
    MissingOperand {
        /// Op name.
        op: &'static str,
        /// Operand name.
        operand: &'static str,
        /// Reason.
        detail: Detail,
    },
    /// A cast between two types is not supported.
    UnsupportedCast {
        /// Source type.
        from: DType,
        /// Target type.
        to: DType,
    },
    /// Two operands of one type are stored in ways with no bit-exact conversion.
    BackingRepresentationMismatch {
        /// Op name.
        op: &'static str,
        /// The shared type.
        dtype: DType,
    },
    /// A flat slice has the wrong length.
    ShapeLengthMismatch {
        /// Op name.
        op: &'static str,
        /// Operand name.
        tensor: &'static str,
        /// Expected length.
        expected: usize,
        /// Observed length.
        got: usize,
        /// Reason.
        detail: Detail,
    },
    /// An operand is empty.
    EmptyInput {
        /// Op name.
        op: &'static str,
        /// Operand name.
        tensor: &'static str,
    },
    /// Every token is masked out.
    AllTokensMasked {
        /// Sequence index.
        seq: usize,
        /// Query index.
        query: usize,
        /// Vocabulary size.
        vocab_size: usize,
    },
    /// A distribution has no positive finite sum.
    InvalidDistribution {
        /// Op name.
        op: &'static str,
        /// Sequence index.
        seq: usize,
        /// Position.
        pos: usize,
        /// Observed sum, by its bits.
        sum: u32,
    },
    /// A token id is outside the vocabulary.
    TokenOutOfRange {
        /// Op name.
        op: &'static str,
        /// Operand name.
        tensor: &'static str,
        /// Flat position of the id.
        position: usize,
        /// The id.
        token: u32,
        /// Vocabulary size.
        vocab_size: usize,
    },
    /// A probability is negative or not finite.
    InvalidProbability {
        /// Op name.
        op: &'static str,
        /// Sequence index.
        seq: usize,
        /// Position.
        pos: usize,
        /// Token index.
        token: usize,
        /// The probability, by its bits.
        value: u32,
    },
    /// A logit is NaN or positive infinity.
    InvalidLogit {
        /// Op name.
        op: &'static str,
        /// Sequence index.
        seq: usize,
        /// Query index.
        query: usize,
        /// Token index.
        token: usize,
        /// The logit, by its bits.
        value: u32,
    },
    /// A sequence id does not fit the 32-bit counter word.
    SeqIdOutOfRange {
        /// Op name.
        op: &'static str,
        /// The id.
        seq_id: u64,
        /// Largest id.
        max: u64,
    },
    /// A draw counter would wrap.
    DrawIndexOverflow {
        /// Op name.
        op: &'static str,
        /// Current counter.
        draw_index: u32,
        /// Requested advance.
        advance: u32,
    },
    /// A draft tree is not valid.
    InvalidTree {
        /// Sequence index.
        seq: usize,
        /// Reason.
        detail: Detail,
    },
    /// Several problems at once.
    Multiple {
        /// The problems, in the order in which they were found.
        problems: Vec<T0Error>,
    },
}

/// Mathematical value of a [`T0Error`].
#[verifier::ext_equal]
#[allow(inconsistent_fields)]
pub enum ErrorView {
    /// See [`T0Error::Ir`].
    Ir(IrError),
    /// See [`T0Error::Format`].
    Format(FormatError),
    /// See [`T0Error::QuantMismatch`].
    QuantMismatch { tensor: &'static str, expected: Seq<QuantScheme>, got: QuantScheme },
    /// See [`T0Error::LayoutMismatch`].
    LayoutMismatch { tensor: &'static str, expected: Seq<LayoutId>, got: LayoutId },
    /// See [`T0Error::RowIndexOutOfRange`].
    RowIndexOutOfRange {
        op: &'static str,
        tensor: &'static str,
        position: usize,
        index: u32,
        upper_bound: usize,
    },
    /// See [`T0Error::ArithmeticOverflow`].
    ArithmeticOverflow { op: &'static str, detail: DetailView },
    /// See [`T0Error::RankMismatch`].
    RankMismatch { tensor: &'static str, expected: usize, got: usize, shape: Seq<usize> },
    /// See [`T0Error::DTypeMismatch`].
    DTypeMismatch { tensor: &'static str, expected: Seq<DType>, got: DType },
    /// See [`T0Error::BufferLengthMismatch`].
    BufferLengthMismatch {
        tensor: &'static str,
        buffer_len: usize,
        expected_len: usize,
        shape: Seq<usize>,
    },
    /// See [`T0Error::DimensionMismatch`].
    DimensionMismatch {
        dim_name: &'static str,
        expected_from: &'static str,
        expected: usize,
        tensor: &'static str,
        got: usize,
    },
    /// See [`T0Error::InvalidAttribute`].
    InvalidAttribute { op: &'static str, attribute: &'static str, reason: DetailView },
    /// See [`T0Error::MissingOperand`].
    MissingOperand { op: &'static str, operand: &'static str, detail: DetailView },
    /// See [`T0Error::UnsupportedCast`].
    UnsupportedCast { from: DType, to: DType },
    /// See [`T0Error::BackingRepresentationMismatch`].
    BackingRepresentationMismatch { op: &'static str, dtype: DType },
    /// See [`T0Error::ShapeLengthMismatch`].
    ShapeLengthMismatch {
        op: &'static str,
        tensor: &'static str,
        expected: usize,
        got: usize,
        detail: DetailView,
    },
    /// See [`T0Error::EmptyInput`].
    EmptyInput { op: &'static str, tensor: &'static str },
    /// See [`T0Error::AllTokensMasked`].
    AllTokensMasked { seq: usize, query: usize, vocab_size: usize },
    /// See [`T0Error::InvalidDistribution`].
    InvalidDistribution { op: &'static str, seq: usize, pos: usize, sum: u32 },
    /// See [`T0Error::TokenOutOfRange`].
    TokenOutOfRange {
        op: &'static str,
        tensor: &'static str,
        position: usize,
        token: u32,
        vocab_size: usize,
    },
    /// See [`T0Error::InvalidProbability`].
    InvalidProbability { op: &'static str, seq: usize, pos: usize, token: usize, value: u32 },
    /// See [`T0Error::InvalidLogit`].
    InvalidLogit { op: &'static str, seq: usize, query: usize, token: usize, value: u32 },
    /// See [`T0Error::SeqIdOutOfRange`].
    SeqIdOutOfRange { op: &'static str, seq_id: u64, max: u64 },
    /// See [`T0Error::DrawIndexOverflow`].
    DrawIndexOverflow { op: &'static str, draw_index: u32, advance: u32 },
    /// See [`T0Error::InvalidTree`].
    InvalidTree { seq: usize, detail: DetailView },
    /// See [`T0Error::Multiple`].
    Multiple { problems: Seq<ErrorView> },
}

impl T0Error {
    /// Mathematical value of the error.
    pub open spec fn view(self) -> ErrorView
        decreases self,
    {
        match self {
            T0Error::Ir(e) => ErrorView::Ir(e),
            T0Error::Format(e) => ErrorView::Format(e),
            T0Error::QuantMismatch { tensor, expected, got } => ErrorView::QuantMismatch {
                tensor,
                expected: expected@,
                got,
            },
            T0Error::LayoutMismatch { tensor, expected, got } => ErrorView::LayoutMismatch {
                tensor,
                expected: expected@,
                got,
            },
            T0Error::RowIndexOutOfRange { op, tensor, position, index, upper_bound } => {
                ErrorView::RowIndexOutOfRange { op, tensor, position, index, upper_bound }
            },
            T0Error::ArithmeticOverflow { op, detail } => ErrorView::ArithmeticOverflow {
                op,
                detail: detail@,
            },
            T0Error::RankMismatch { tensor, expected, got, shape } => ErrorView::RankMismatch {
                tensor,
                expected,
                got,
                shape: shape@,
            },
            T0Error::DTypeMismatch { tensor, expected, got } => ErrorView::DTypeMismatch {
                tensor,
                expected: expected@,
                got,
            },
            T0Error::BufferLengthMismatch { tensor, buffer_len, expected_len, shape } => {
                ErrorView::BufferLengthMismatch { tensor, buffer_len, expected_len, shape: shape@ }
            },
            T0Error::DimensionMismatch { dim_name, expected_from, expected, tensor, got } => {
                ErrorView::DimensionMismatch { dim_name, expected_from, expected, tensor, got }
            },
            T0Error::InvalidAttribute { op, attribute, reason } => ErrorView::InvalidAttribute {
                op,
                attribute,
                reason: reason@,
            },
            T0Error::MissingOperand { op, operand, detail } => ErrorView::MissingOperand {
                op,
                operand,
                detail: detail@,
            },
            T0Error::UnsupportedCast { from, to } => ErrorView::UnsupportedCast { from, to },
            T0Error::BackingRepresentationMismatch { op, dtype } => {
                ErrorView::BackingRepresentationMismatch { op, dtype }
            },
            T0Error::ShapeLengthMismatch { op, tensor, expected, got, detail } => {
                ErrorView::ShapeLengthMismatch { op, tensor, expected, got, detail: detail@ }
            },
            T0Error::EmptyInput { op, tensor } => ErrorView::EmptyInput { op, tensor },
            T0Error::AllTokensMasked { seq, query, vocab_size } => ErrorView::AllTokensMasked {
                seq,
                query,
                vocab_size,
            },
            T0Error::InvalidDistribution { op, seq, pos, sum } => ErrorView::InvalidDistribution {
                op,
                seq,
                pos,
                sum,
            },
            T0Error::TokenOutOfRange { op, tensor, position, token, vocab_size } => {
                ErrorView::TokenOutOfRange { op, tensor, position, token, vocab_size }
            },
            T0Error::InvalidProbability { op, seq, pos, token, value } => {
                ErrorView::InvalidProbability { op, seq, pos, token, value }
            },
            T0Error::InvalidLogit { op, seq, query, token, value } => ErrorView::InvalidLogit {
                op,
                seq,
                query,
                token,
                value,
            },
            T0Error::SeqIdOutOfRange { op, seq_id, max } => ErrorView::SeqIdOutOfRange {
                op,
                seq_id,
                max,
            },
            T0Error::DrawIndexOverflow { op, draw_index, advance } => {
                ErrorView::DrawIndexOverflow { op, draw_index, advance }
            },
            T0Error::InvalidTree { seq, detail } => ErrorView::InvalidTree { seq, detail: detail@ },
            T0Error::Multiple { problems } => ErrorView::Multiple {
                problems: Seq::new(
                    problems@.len(),
                    |i: int|
                        if 0 <= i < problems@.len() {
                            problems@[i].view()
                        } else {
                            arbitrary()
                        },
                ),
            },
        }
    }
}

/// Values of a list of errors.
pub open spec fn views(problems: Seq<T0Error>) -> Seq<ErrorView> {
    Seq::new(problems.len(), |i: int| problems[i].view())
}

/// A result with its error replaced by the error's value.
pub open spec fn outcome<T>(r: Result<T, T0Error>) -> Result<T, ErrorView> {
    match r {
        Ok(t) => Ok(t),
        Err(e) => Err(e.view()),
    }
}

/// What a list of problems amounts to: success if there is none, the problem
/// itself if there is one, all of them otherwise.
pub open spec fn verdict(problems: Seq<ErrorView>) -> Result<(), ErrorView> {
    if problems.len() == 0 {
        Ok(())
    } else if problems.len() == 1 {
        Err(problems[0])
    } else {
        Err(ErrorView::Multiple { problems })
    }
}

impl T0Error {
    /// Success if `problems` is empty, the problem if there is one, and
    /// `Multiple` otherwise.
    pub fn from_problems(problems: Vec<T0Error>) -> (r: Result<(), T0Error>)
        ensures
            outcome(r) == verdict(views(problems@)),
    {
        let mut problems = problems;
        let ghost before = views(problems@);
        if problems.len() == 0 {
            Ok(())
        } else if problems.len() == 1 {
            let first = problems.pop();
            match first {
                Some(problem) => {
                    assert(before[0] == problem.view());
                    Err(problem)
                },
                None => Ok(()),
            }
        } else {
            let e = T0Error::Multiple { problems };
            assert(e.view()->Multiple_problems =~= before);
            Err(e)
        }
    }
}

/// Appends a problem to a list.
pub fn push_problem(problems: &mut Vec<T0Error>, problem: T0Error)
    ensures
        views(final(problems)@) == views(old(problems)@).push(problem.view()),
{
    problems.push(problem);
    assert(views(problems@) =~= views(old(problems)@).push(problem.view()));
}

/// Name of the `i`-th dimension of a shape without symbolic names.
pub open spec fn pos_dim_name(i: int) -> &'static str {
    if i == 0 {
        "d0"
    } else if i == 1 {
        "d1"
    } else if i == 2 {
        "d2"
    } else if i == 3 {
        "d3"
    } else if i == 4 {
        "d4"
    } else if i == 5 {
        "d5"
    } else if i == 6 {
        "d6"
    } else if i == 7 {
        "d7"
    } else {
        "dim"
    }
}

fn positional_name(i: usize) -> (name: &'static str)
    ensures
        name == pos_dim_name(i as int),
{
    match i {
        0 => "d0",
        1 => "d1",
        2 => "d2",
        3 => "d3",
        4 => "d4",
        5 => "d5",
        6 => "d6",
        7 => "d7",
        _ => "dim",
    }
}

/// Disagreements of two shapes of one rank among their first `n` dimensions.
pub open spec fn dim_disagreements(
    tensor: &'static str,
    expected_from: &'static str,
    actual: Seq<usize>,
    expected: Seq<usize>,
    n: int,
) -> Seq<ErrorView>
    decreases n,
{
    if n <= 0 {
        Seq::empty()
    } else {
        let before = dim_disagreements(tensor, expected_from, actual, expected, n - 1);
        if actual[n - 1] != expected[n - 1] {
            before.push(
                ErrorView::DimensionMismatch {
                    dim_name: pos_dim_name(n - 1),
                    expected_from,
                    expected: expected[n - 1],
                    tensor,
                    got: actual[n - 1],
                },
            )
        } else {
            before
        }
    }
}

/// Disagreements of two shapes: of their ranks, or else of each dimension.
pub open spec fn shape_disagreements(
    tensor: &'static str,
    expected_from: &'static str,
    actual: Seq<usize>,
    expected: Seq<usize>,
) -> Seq<ErrorView> {
    if actual.len() != expected.len() {
        seq![
            ErrorView::RankMismatch {
                tensor,
                expected: expected.len() as usize,
                got: actual.len() as usize,
                shape: actual,
            },
        ]
    } else {
        dim_disagreements(tensor, expected_from, actual, expected, actual.len() as int)
    }
}

/// Appends every disagreement between two shapes: a `RankMismatch` if the ranks
/// differ, otherwise one `DimensionMismatch` per differing dimension.
pub fn push_shape_agreement(
    problems: &mut Vec<T0Error>,
    tensor: &'static str,
    expected_from: &'static str,
    actual_shape: &[usize],
    expected_shape: &[usize],
)
    ensures
        views(final(problems)@) == views(old(problems)@) + shape_disagreements(
            tensor,
            expected_from,
            actual_shape@,
            expected_shape@,
        ),
{
    let ghost before = views(problems@);
    if actual_shape.len() != expected_shape.len() {
        let e = T0Error::RankMismatch {
            tensor,
            expected: expected_shape.len(),
            got: actual_shape.len(),
            shape: to_vec(actual_shape),
        };
        push_problem(problems, e);
        assert(views(problems@) =~= before + shape_disagreements(
            tensor,
            expected_from,
            actual_shape@,
            expected_shape@,
        ));
        return ;
    }
    assert(before =~= before + dim_disagreements(
        tensor,
        expected_from,
        actual_shape@,
        expected_shape@,
        0,
    ));
    for i in 0..actual_shape.len()
        invariant
            actual_shape@.len() == expected_shape@.len(),
            views(problems@) == before + dim_disagreements(
                tensor,
                expected_from,
                actual_shape@,
                expected_shape@,
                i as int,
            ),
    {
        if actual_shape[i] != expected_shape[i] {
            let e = T0Error::DimensionMismatch {
                dim_name: positional_name(i),
                expected_from,
                expected: expected_shape[i],
                tensor,
                got: actual_shape[i],
            };
            push_problem(problems, e);
        }
        assert(views(problems@) =~= before + dim_disagreements(
            tensor,
            expected_from,
            actual_shape@,
            expected_shape@,
            i + 1,
        ));
    }
}

/// Converts a 64-bit size to the machine's size type.
pub fn u64_to_usize(val: u64, what: &'static str) -> (r: Result<usize, T0Error>)
    ensures
        outcome(r) == (if val <= usize::MAX {
            Ok(val as usize)
        } else {
            Err(
                ErrorView::ArithmeticOverflow {
                    op: "u64_to_usize",
                    detail: about(
                        what,
                        "{what} value {} overflows usize",
                        seq![Arg::Int(val)],
                    ),
                },
            )
        }),
{
    if val <= usize::MAX as u64 {
        Ok(val as usize)
    } else {
        let args = vec![Arg::Int(val)];
        assert(args@ =~= seq![Arg::Int(val)]);
        Err(
            T0Error::ArithmeticOverflow {
                op: "u64_to_usize",
                detail: Detail::about(what, "{what} value {} overflows usize", args),
            },
        )
    }
}

} // verus!
