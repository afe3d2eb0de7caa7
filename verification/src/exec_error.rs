//! Errors of the graph executor.
use vstd::prelude::*;
use crate::error::{ErrorView, IrError, T0Error};
use crate::graph::ShapeSymbol;
use crate::ir::{DType, StateKind};

verus! {

/// Error of a step.
#[derive(Debug)]
#[allow(inconsistent_fields)]
pub enum ExecError {
    /// Error of a kernel.
    T0(T0Error),
    /// Error of the graph.
    Ir(IrError),
    /// A node reads an edge that holds nothing.
    UnboundEdge {
        /// Node.
        node: usize,
        /// Edge.
        edge: usize,
    },
    /// A node did not produce one of its outputs.
    MissingOutput {
        /// Node.
        node: usize,
        /// Edge.
        edge: usize,
    },
    /// An extent has a symbol that the batch does not resolve.
    SymbolicDim {
        /// Node.
        node: usize,
        /// Edge.
        edge: usize,
        /// Symbol.
        symbol: ShapeSymbol,
    },
    /// An operation needs state that is not there.
    UnknownState {
        /// Node.
        node: usize,
        /// Op name.
        op: &'static str,
        /// Layer.
        layer: u32,
        /// Kind of state.
        kind: StateKind,
    },
    /// State is there, but of another kind than the operation needs.
    StateKindMismatch {
        /// Node.
        node: usize,
        /// Op name.
        op: &'static str,
        /// Layer.
        layer: u32,
        /// Kind of state.
        kind: StateKind,
        /// What is needed.
        expected: &'static str,
        /// What is there.
        got: &'static str,
    },
    /// A batch has several groups and a layer has none assigned.
    UnknownGroup {
        /// Node.
        node: usize,
        /// Layer.
        layer: u32,
        /// Number of groups.
        g: usize,
    },
    /// Sampling context has another length than the batch.
    SamplingContext {
        /// Node.
        node: usize,
        /// Op name.
        op: &'static str,
        /// Which context.
        what: &'static str,
        /// Length that is needed.
        expected: usize,
        /// Length that is there.
        got: usize,
        /// Number of sequences.
        s: usize,
    },
    /// A gather on the device has no hash.
    MissingNgramHash {
        /// Node.
        node: usize,
    },
    /// An input of the postprocessing is neither history nor grammar.
    BadPostprocessInput {
        /// Node.
        node: usize,
        /// Position of the input.
        input: usize,
        /// Rank of the input.
        rank: usize,
        /// Type of the input.
        dtype: DType,
    },
    /// Several independent problems.
    Multiple {
        /// The problems.
        problems: Vec<ExecError>,
    },
    /// A view does not keep the order of the elements.
    NonContiguousView {
        /// Node.
        node: usize,
        /// Edge of the view.
        edge: usize,
        /// Edge that it is a view of.
        source_edge: usize,
    },
}

/// Value of an [`ExecError`].
#[allow(inconsistent_fields)]
pub enum ExecFault {
    /// See [`ExecError::T0`].
    T0(ErrorView),
    /// See [`ExecError::Ir`].
    Ir(IrError),
    /// See [`ExecError::UnboundEdge`].
    UnboundEdge { node: usize, edge: usize },
    /// See [`ExecError::MissingOutput`].
    MissingOutput { node: usize, edge: usize },
    /// See [`ExecError::SymbolicDim`].
    SymbolicDim { node: usize, edge: usize, symbol: ShapeSymbol },
    /// See [`ExecError::UnknownState`].
    UnknownState { node: usize, op: &'static str, layer: u32, kind: StateKind },
    /// See [`ExecError::StateKindMismatch`].
    StateKindMismatch {
        node: usize,
        op: &'static str,
        layer: u32,
        kind: StateKind,
        expected: &'static str,
        got: &'static str,
    },
    /// See [`ExecError::UnknownGroup`].
    UnknownGroup { node: usize, layer: u32, g: usize },
    /// See [`ExecError::SamplingContext`].
    SamplingContext {
        node: usize,
        op: &'static str,
        what: &'static str,
        expected: usize,
        got: usize,
        s: usize,
    },
    /// See [`ExecError::MissingNgramHash`].
    MissingNgramHash { node: usize },
    /// See [`ExecError::BadPostprocessInput`].
    BadPostprocessInput { node: usize, input: usize, rank: usize, dtype: DType },
    /// See [`ExecError::Multiple`].
    Multiple { problems: Seq<ExecFault> },
    /// See [`ExecError::NonContiguousView`].
    NonContiguousView { node: usize, edge: usize, source_edge: usize },
}

impl ExecError {
    /// Mathematical value of the error.
    pub open spec fn view(self) -> ExecFault
        decreases self,
    {
        match self {
            ExecError::T0(e) => ExecFault::T0(e.view()),
            ExecError::Ir(e) => ExecFault::Ir(e),
            ExecError::UnboundEdge { node, edge } => ExecFault::UnboundEdge { node, edge },
            ExecError::MissingOutput { node, edge } => ExecFault::MissingOutput { node, edge },
            ExecError::SymbolicDim { node, edge, symbol } => ExecFault::SymbolicDim {
                node,
                edge,
                symbol,
            },
            ExecError::UnknownState { node, op, layer, kind } => ExecFault::UnknownState {
                node,
                op,
                layer,
                kind,
            },
            ExecError::StateKindMismatch { node, op, layer, kind, expected, got } => {
                ExecFault::StateKindMismatch { node, op, layer, kind, expected, got }
            },
            ExecError::UnknownGroup { node, layer, g } => ExecFault::UnknownGroup {
                node,
                layer,
                g,
            },
            ExecError::SamplingContext { node, op, what, expected, got, s } => {
                ExecFault::SamplingContext { node, op, what, expected, got, s }
            },
            ExecError::MissingNgramHash { node } => ExecFault::MissingNgramHash { node },
            ExecError::BadPostprocessInput { node, input, rank, dtype } => {
                ExecFault::BadPostprocessInput { node, input, rank, dtype }
            },
            ExecError::Multiple { problems } => ExecFault::Multiple {
                problems: Seq::new(
                    problems@.len(),
                    |i: int|
                        if 0 <= i < problems@.len() {
                            problems@[i].view()
                        } else {
                            arbitrary()
                        },
                ),
            },
            ExecError::NonContiguousView { node, edge, source_edge } => {
                ExecFault::NonContiguousView { node, edge, source_edge }
            },
        }
    }

    /// Success if `problems` is empty, the problem if there is one, and
    /// `Multiple` otherwise.
    pub fn from_problems(problems: Vec<ExecError>) -> (r: Result<(), ExecError>)
        ensures
            exec_outcome(r) == exec_verdict(faults(problems@)),
    {
        let mut problems = problems;
        let ghost before = faults(problems@);
        if problems.len() == 0 {
            Ok(())
        } else if problems.len() == 1 {
            match problems.pop() {
                Some(problem) => {
                    assert(before[0] == problem.view());
                    Err(problem)
                },
                None => Ok(()),
            }
        } else {
            let e = ExecError::Multiple { problems };
            assert(e.view()->Multiple_problems =~= before);
            Err(e)
        }
    }
}

/// Values of a list of errors.
pub open spec fn faults(problems: Seq<ExecError>) -> Seq<ExecFault> {
    Seq::new(problems.len(), |i: int| problems[i].view())
}

/// A result with its error replaced by the error's value.
pub open spec fn exec_outcome<T>(r: Result<T, ExecError>) -> Result<T, ExecFault> {
    match r {
        Ok(t) => Ok(t),
        Err(e) => Err(e.view()),
    }
}

/// What a list of problems amounts to.
pub open spec fn exec_verdict(problems: Seq<ExecFault>) -> Result<(), ExecFault> {
    if problems.len() == 0 {
        Ok(())
    } else if problems.len() == 1 {
        Err(problems[0])
    } else {
        Err(ExecFault::Multiple { problems })
    }
}

} // verus!
