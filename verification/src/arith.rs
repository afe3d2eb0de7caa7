//! Single-precision arithmetic as a function that the caller supplies.
//!
//! Kernels take the machine's arithmetic as one function from an operation and
//! the bits of its operands to the bits of its result. Their results are stated
//! over that function, so they hold for any arithmetic that depends on its
//! arguments alone.
use vstd::prelude::*;

verus! {

/// An operation on singles. A unary operation has zero as its second operand.
#[derive(Debug, Clone, Copy, PartialEq, Eq, Structural)]
pub enum FloatOp {
    /// Sum.
    Plus,
    /// Difference.
    Minus,
    /// Product.
    Times,
    /// Quotient.
    Over,
    /// Exponential function.
    Exp,
    /// Hyperbolic tangent.
    Tanh,
    /// The larger operand.
    Max,
}

/// Whether `f` accepts every operation and its result depends on its arguments
/// alone.
pub open spec fn is_arith<F: Fn(FloatOp, u32, u32) -> u32>(f: F) -> bool {
    &&& forall|o: FloatOp, a: u32, b: u32| #[trigger] f.requires((o, a, b))
    &&& forall|o: FloatOp, a: u32, b: u32, r: u32, s: u32| #[trigger]
        f.ensures((o, a, b), r) && #[trigger] f.ensures((o, a, b), s) ==> r == s
}

/// Result of an operation.
pub open spec fn fp<F: Fn(FloatOp, u32, u32) -> u32>(f: F, o: FloatOp, a: u32, b: u32) -> u32 {
    choose|r: u32| f.ensures((o, a, b), r)
}

/// Sum.
pub open spec fn fp_add<F: Fn(FloatOp, u32, u32) -> u32>(f: F, a: u32, b: u32) -> u32 {
    fp(f, FloatOp::Plus, a, b)
}

/// Product.
pub open spec fn fp_mul<F: Fn(FloatOp, u32, u32) -> u32>(f: F, a: u32, b: u32) -> u32 {
    fp(f, FloatOp::Times, a, b)
}

/// Performs an operation.
pub fn compute<F: Fn(FloatOp, u32, u32) -> u32>(f: &F, o: FloatOp, a: u32, b: u32) -> (r: u32)
    requires
        is_arith(*f),
    ensures
        r == fp(*f, o, a, b),
{
    f(o, a, b)
}

/// Sum.
pub fn plus<F: Fn(FloatOp, u32, u32) -> u32>(f: &F, a: u32, b: u32) -> (r: u32)
    requires
        is_arith(*f),
    ensures
        r == fp_add(*f, a, b),
{
    compute(f, FloatOp::Plus, a, b)
}

/// Product.
pub fn times<F: Fn(FloatOp, u32, u32) -> u32>(f: &F, a: u32, b: u32) -> (r: u32)
    requires
        is_arith(*f),
    ensures
        r == fp_mul(*f, a, b),
{
    compute(f, FloatOp::Times, a, b)
}

/// The number with the opposite sign.
pub open spec fn fp_neg(a: u32) -> u32 {
    if a < 0x8000_0000 {
        (a + 0x8000_0000) as u32
    } else {
        (a - 0x8000_0000) as u32
    }
}

/// The number with the opposite sign.
pub fn negate(a: u32) -> (r: u32)
    ensures
        r == fp_neg(a),
{
    if a < 0x8000_0000 {
        a + 0x8000_0000
    } else {
        a - 0x8000_0000
    }
}

} // verus!
