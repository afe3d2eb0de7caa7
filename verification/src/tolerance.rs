//! Comparison of results with references.
use vstd::prelude::*;
use crate::double::{
    dp, dp_add, dp_mul, exceeds, is_double, is_nan, larger, magnitude, multiply, nan, reckon, widen,
    widened, add_up, DoubleOp, SIGN,
};
use crate::harness::{named, Context, ContextView, HarnessError, HarnessFault};

verus! {

/// How far a result may be from its reference.
#[derive(Debug, Clone, Copy, PartialEq, Eq, Structural)]
pub struct Tolerance {
    /// Bits of the bound on the difference.
    pub abs: u64,
    /// Bits of the bound on the difference, relative to the reference.
    pub rel: u64,
}

/// Whether a result is near its reference: both are NaN, or neither is and the
/// difference does not exceed the bounds.
pub open spec fn near<E: Fn(DoubleOp, u64, u64) -> u64>(
    e: E,
    tol: Tolerance,
    actual: u64,
    expected: u64,
) -> bool {
    if is_nan(actual) || is_nan(expected) {
        is_nan(actual) && is_nan(expected)
    } else {
        !exceeds(
            magnitude(dp(e, DoubleOp::Minus, actual, expected)),
            dp_add(e, tol.abs, dp_mul(e, tol.rel, magnitude(expected))),
        )
    }
}

/// Index of the first result, from one on, that is not near its reference.
pub open spec fn first_far<E: Fn(DoubleOp, u64, u64) -> u64>(
    e: E,
    tol: Tolerance,
    actual: Seq<u64>,
    expected: Seq<u64>,
    from: int,
) -> Option<int>
    decreases actual.len() - from,
{
    if from >= actual.len() {
        None
    } else if !near(e, tol, actual[from], expected[from]) {
        Some(from)
    } else {
        first_far(e, tol, actual, expected, from + 1)
    }
}

/// The failure of results that are compared with references.
pub open spec fn tolerance_fault<E: Fn(DoubleOp, u64, u64) -> u64>(
    e: E,
    tol: Tolerance,
    actual: Seq<u64>,
    expected: Seq<u64>,
    context: ContextView,
) -> Option<HarnessFault> {
    if actual.len() != expected.len() {
        Some(
            HarnessFault::LengthMismatch {
                context,
                actual: actual.len() as usize,
                expected: expected.len() as usize,
            },
        )
    } else {
        match first_far(e, tol, actual, expected, 0) {
            None => None,
            Some(i) => Some(
                HarnessFault::GoldenMismatch {
                    context,
                    index: i as usize,
                    actual: actual[i],
                    expected: expected[i],
                    abs: tol.abs,
                    rel: tol.rel,
                },
            ),
        }
    }
}

fn is_near<E: Fn(DoubleOp, u64, u64) -> u64>(e: &E, tol: Tolerance, actual: u64, expected: u64) -> (r:
    bool)
    requires
        is_double(*e),
    ensures
        r == near(*e, tol, actual, expected),
{
    if nan(actual) || nan(expected) {
        return nan(actual) && nan(expected);
    }
    let diff: u64 = reckon(e, DoubleOp::Minus, actual, expected) % SIGN;
    let limit: u64 = add_up(e, tol.abs, multiply(e, tol.rel, expected % SIGN));
    !larger(diff, limit)
}

/// Compares results with references; a failure names the first that is too far.
pub fn check_within<E: Fn(DoubleOp, u64, u64) -> u64>(
    e: &E,
    tol: Tolerance,
    actual: &[u64],
    expected: &[u64],
    context: &str,
) -> (r: Result<(), HarnessError>)
    requires
        is_double(*e),
    ensures
        match tolerance_fault(*e, tol, actual@, expected@, named(context@)) {
            None => r is Ok,
            Some(f) => r is Err && r->Err_0@ == f,
        },
{
    if actual.len() != expected.len() {
        return Err(
            HarnessError::LengthMismatch {
                context: Context::named(context),
                actual: actual.len(),
                expected: expected.len(),
            },
        );
    }
    let mut i: usize = 0;
    while i < actual.len()
        invariant
            is_double(*e),
            i <= actual@.len(),
            actual@.len() == expected@.len(),
            first_far(*e, tol, actual@, expected@, 0) == first_far(
                *e,
                tol,
                actual@,
                expected@,
                i as int,
            ),
        decreases actual@.len() - i,
    {
        if !is_near(e, tol, actual[i], expected[i]) {
            return Err(
                HarnessError::GoldenMismatch {
                    context: Context::named(context),
                    index: i,
                    actual: actual[i],
                    expected: expected[i],
                    abs: tol.abs,
                    rel: tol.rel,
                },
            );
        }
        i += 1;
    }
    Ok(())
}

/// Compares singles with references.
pub fn check_f32_against_f64<E: Fn(DoubleOp, u64, u64) -> u64>(
    e: &E,
    tol: Tolerance,
    actual: &[u32],
    expected: &[u64],
    context: &str,
) -> (r: Result<(), HarnessError>)
    requires
        is_double(*e),
    ensures
        match tolerance_fault(
            *e,
            tol,
            Seq::new(actual@.len(), |i: int| widened(*e, actual@[i])),
            expected@,
            named(context@),
        ) {
            None => r is Ok,
            Some(f) => r is Err && r->Err_0@ == f,
        },
{
    let mut wide: Vec<u64> = Vec::new();
    for i in 0..actual.len()
        invariant
            is_double(*e),
            wide@ =~= Seq::new(i as nat, |i: int| widened(*e, actual@[i])),
    {
        wide.push(widen(e, actual[i]));
    }
    check_within(e, tol, wide.as_slice(), expected, context)
}

/// A comparison passes if and only if there are as many results as references
/// and each is near its own.
pub proof fn law_within<E: Fn(DoubleOp, u64, u64) -> u64>(
    e: E,
    tol: Tolerance,
    actual: Seq<u64>,
    expected: Seq<u64>,
    context: ContextView,
)
    ensures
        tolerance_fault(e, tol, actual, expected, context) is None <==> actual.len()
            == expected.len() && forall|i: int|
            0 <= i < actual.len() ==> near(e, tol, #[trigger] actual[i], expected[i]),
{
    if actual.len() == expected.len() {
        lemma_first_far(e, tol, actual, expected, 0);
    }
}

/// A result passes if its distance from the reference is at most the first bound
/// plus the second times the size of the reference. A NaN passes beside a NaN and
/// beside nothing else.
pub proof fn law_near<E: Fn(DoubleOp, u64, u64) -> u64>(
    e: E,
    tol: Tolerance,
    actual: u64,
    expected: u64,
)
    ensures
        ({
            let nan = |v: u64| v % 0x8000_0000_0000_0000 > 0x7FF0_0000_0000_0000;
            let apart = dp(e, DoubleOp::Minus, actual, expected) % 0x8000_0000_0000_0000;
            let bound = dp(
                e,
                DoubleOp::Plus,
                tol.abs,
                dp(e, DoubleOp::Times, tol.rel, (expected % 0x8000_0000_0000_0000) as u64),
            );
            &&& nan(actual) && nan(expected) ==> near(e, tol, actual, expected)
            &&& nan(actual) != nan(expected) ==> !near(e, tol, actual, expected)
            &&& !nan(actual) && !nan(expected) && apart <= 0x7FF0_0000_0000_0000 && bound
                <= 0x7FF0_0000_0000_0000 ==> (near(e, tol, actual, expected) <==> apart <= bound)
        }),
{
}

proof fn lemma_first_far<E: Fn(DoubleOp, u64, u64) -> u64>(
    e: E,
    tol: Tolerance,
    actual: Seq<u64>,
    expected: Seq<u64>,
    from: int,
)
    requires
        0 <= from <= actual.len(),
    ensures
        first_far(e, tol, actual, expected, from) is None <==> forall|i: int|
            from <= i < actual.len() ==> near(e, tol, #[trigger] actual[i], expected[i]),
    decreases actual.len() - from,
{
    if from < actual.len() {
        lemma_first_far(e, tol, actual, expected, from + 1);
        if near(e, tol, actual[from], expected[from]) {
            assert forall|i: int| from <= i < actual.len() && first_far(
                e,
                tol,
                actual,
                expected,
                from,
            ) is None implies near(e, tol, #[trigger] actual[i], expected[i]) by {
                if i > from {
                    assert(from + 1 <= i);
                }
            }
        }
    }
}

} // verus!
