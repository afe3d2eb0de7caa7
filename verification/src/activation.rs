//! Pointwise activation functions.
use vstd::prelude::*;
use crate::arith::{compute, fp, fp_add, fp_mul, fp_neg, is_arith, negate, plus, times, FloatOp};
use crate::buffer::{fault_result, Tensor, TensorDataMut, TensorView, TensorViewMut};
use crate::check::{
    attr_error, check_dtype, check_float, check_rank, clear, dtype_faults, fault_of, float_faults,
    invalid_attr, no_problems, or_fault, push_when, rank_faults, given,
};
use crate::dtype::{finite_positive, is_finite_positive, is_nan, INFINITY, ONE};
use crate::erf::{erf, erf_f32};
use crate::error::{
    outcome, push_shape_agreement, quoting, shape_disagreements, views, Arg, Detail, ErrorView,
    T0Error,
};
use crate::ir::ActivationKind;

verus! {

/// Bits of `1/2`.
pub const HALF: u32 = 0x3F00_0000;

/// Bits of the single nearest to the square root of `1/2`.
pub const INV_SQRT_2: u32 = 0x3F35_04F3;

/// Bits of the single nearest to the square root of `2/pi`.
pub const SQRT_2_DIV_PI: u32 = 0x3F4C_422A;

/// Bits of the single nearest to `0.044715`.
pub const GELU_CUBIC: u32 = 0x3D37_2713;

/// Attributes of the activation op.
#[derive(Debug, Clone, Copy)]
pub struct ActivationOp {
    /// The function.
    pub act: ActivationKind,
    /// Upper bound of the result, if any.
    pub clamp: Option<u32>,
}

/// Value of an activation function.
pub open spec fn activated<F: Fn(FloatOp, u32, u32) -> u32>(
    f: F,
    x: u32,
    kind: ActivationKind,
) -> u32 {
    match kind {
        ActivationKind::Silu => fp(
            f,
            FloatOp::Over,
            x,
            fp_add(f, ONE, fp(f, FloatOp::Exp, fp_neg(x), 0)),
        ),
        ActivationKind::Gelu => fp_mul(
            f,
            fp_mul(f, HALF, x),
            fp_add(f, ONE, erf(f, fp_mul(f, x, INV_SQRT_2))),
        ),
        ActivationKind::GeluTanh => {
            let cubic = fp_mul(f, fp_mul(f, fp_mul(f, GELU_CUBIC, x), x), x);
            let inner = fp_mul(f, SQRT_2_DIV_PI, fp_add(f, x, cubic));
            fp_mul(f, fp_mul(f, HALF, x), fp_add(f, ONE, fp(f, FloatOp::Tanh, inner, 0)))
        },
        ActivationKind::Relu2 => {
            let relu = if 0 < x <= INFINITY {
                x
            } else {
                0
            };
            fp_mul(f, relu, relu)
        },
        ActivationKind::Identity => x,
    }
}

/// Evaluates an activation function.
pub fn eval_activation_f32<F: Fn(FloatOp, u32, u32) -> u32>(
    f: &F,
    x: u32,
    kind: ActivationKind,
) -> (r: u32)
    requires
        is_arith(*f),
    ensures
        r == activated(*f, x, kind),
{
    match kind {
        ActivationKind::Silu => {
            let e: u32 = compute(f, FloatOp::Exp, negate(x), 0);
            compute(f, FloatOp::Over, x, plus(f, ONE, e))
        },
        ActivationKind::Gelu => {
            let e: u32 = erf_f32(f, times(f, x, INV_SQRT_2));
            times(f, times(f, HALF, x), plus(f, ONE, e))
        },
        ActivationKind::GeluTanh => {
            let cubic: u32 = times(f, times(f, times(f, GELU_CUBIC, x), x), x);
            let inner: u32 = times(f, SQRT_2_DIV_PI, plus(f, x, cubic));
            let t: u32 = compute(f, FloatOp::Tanh, inner, 0);
            times(f, times(f, HALF, x), plus(f, ONE, t))
        },
        ActivationKind::Relu2 => {
            let relu: u32 = if 0 < x && x <= INFINITY {
                x
            } else {
                0
            };
            times(f, relu, relu)
        },
        ActivationKind::Identity => x,
    }
}

/// The smaller of `a` and a positive finite bound; the bound if `a` is NaN.
pub open spec fn bounded(a: u32, clamp: Option<u32>) -> u32 {
    match clamp {
        None => a,
        Some(c) => if is_nan(a) {
            c
        } else if a >= 0x8000_0000 || a <= c {
            a
        } else {
            c
        },
    }
}

/// Applies an upper bound.
pub fn apply_clamp(a: u32, clamp: Option<u32>) -> (r: u32)
    ensures
        r == bounded(a, clamp),
{
    match clamp {
        None => a,
        Some(c) => {
            let nan: bool = (a / 0x80_0000) % 0x100 == 255 && a % 0x80_0000 != 0;
            if nan {
                c
            } else if a >= 0x8000_0000 || a <= c {
                a
            } else {
                c
            }
        },
    }
}

/// Problem of a bound that is not finite and positive.
pub open spec fn clamp_faults(op: &'static str, clamp: Option<u32>) -> Seq<ErrorView> {
    match clamp {
        None => Seq::empty(),
        Some(c) => given(
            !is_finite_positive(c),
            attr_error(op, "clamp", quoting("must be finite and > 0, got {}", seq![Arg::Real(c)])),
        ),
    }
}

/// Checks the bound of an activation.
pub fn check_clamp(problems: &mut Vec<T0Error>, op: &'static str, clamp: Option<u32>)
    ensures
        views(final(problems)@) == views(old(problems)@) + clamp_faults(op, clamp),
{
    match clamp {
        None => {
            assert(views(problems@) =~= views(old(problems)@) + clamp_faults(op, clamp));
        },
        Some(c) => {
            let reason = Detail::one("must be finite and > 0, got {}", Arg::Real(c));
            push_when(problems, !finite_positive(c), invalid_attr(op, "clamp", reason));
        },
    }
}

/// Problems of two operands of rank two whose shapes differ.
pub open spec fn pair_faults(
    tensor: &'static str,
    from: &'static str,
    actual: Seq<usize>,
    expected: Seq<usize>,
) -> Seq<ErrorView> {
    if actual.len() == 2 && expected.len() == 2 {
        shape_disagreements(tensor, from, actual, expected)
    } else {
        Seq::empty()
    }
}

/// Checks that two operands of rank two have one shape.
pub fn check_pair(
    problems: &mut Vec<T0Error>,
    tensor: &'static str,
    from: &'static str,
    actual: &[usize],
    expected: &[usize],
)
    ensures
        views(final(problems)@) == views(old(problems)@) + pair_faults(
            tensor,
            from,
            actual@,
            expected@,
        ),
{
    if actual.len() == 2 && expected.len() == 2 {
        push_shape_agreement(problems, tensor, from, actual, expected);
    } else {
        assert(views(problems@) =~= views(old(problems)@) + pair_faults(
            tensor,
            from,
            actual@,
            expected@,
        ));
    }
}

/// The error of an activation whose operands or attributes do not fit.
pub open spec fn activation_fault(op: ActivationOp, x: Tensor, y: Tensor) -> Option<ErrorView> {
    or_fault(
        or_fault(x.backing_fault("x"), y.backing_fault("y")),
        fault_of(
            clear() + rank_faults("x", 2, x.shape) + rank_faults("y", 2, y.shape) + float_faults(
                "x",
                x.dtype(),
            ) + dtype_faults("y", x.dtype(), y.dtype()) + pair_faults("y", "x", y.shape, x.shape)
                + clamp_faults("activation", op.clamp),
        ),
    )
}

/// Two shapes of rank two without a disagreement are equal.
pub proof fn lemma_no_disagreement(
    tensor: &'static str,
    from: &'static str,
    actual: Seq<usize>,
    expected: Seq<usize>,
)
    requires
        shape_disagreements(tensor, from, actual, expected).len() == 0,
    ensures
        actual == expected,
{
    lemma_no_dim_disagreement(tensor, from, actual, expected, actual.len() as int);
    assert(actual =~= expected);
}

proof fn lemma_no_dim_disagreement(
    tensor: &'static str,
    from: &'static str,
    actual: Seq<usize>,
    expected: Seq<usize>,
    n: int,
)
    requires
        crate::error::dim_disagreements(tensor, from, actual, expected, n).len() == 0,
    ensures
        forall|i: int| 0 <= i < n ==> actual[i] == expected[i],
    decreases n,
{
    if n > 0 {
        lemma_no_dim_disagreement(tensor, from, actual, expected, n - 1);
    }
}

/// Applies an activation function to every element of `x`, bounded above by the
/// clamp; a mismatch of the operands leaves `y` unchanged.
pub fn activation<F: Fn(FloatOp, u32, u32) -> u32>(
    f: &F,
    op: &ActivationOp,
    x: &TensorView<'_>,
    y: &mut TensorViewMut<'_>,
) -> (r: Result<(), T0Error>)
    requires
        is_arith(*f),
    ensures
        outcome(r) == fault_result(activation_fault(*op, x@, old(y)@)),
        r is Err ==> final(y)@ == old(y)@,
        r is Ok ==> final(y)@ == old(y)@.with_cells(
            old(y)@.cells.with_f32s(
                Seq::new(
                    x@.count() as nat,
                    |i: int| bounded(activated(*f, x@.cells.f32_at(i), op.act), op.clamp),
                ),
            ),
        ),
        match (old(y).data, final(y).data) {
            (TensorDataMut::F32(a), TensorDataMut::F32(b)) => {
                a@.len() == b@.len() && (*final(a))@ == (*final(b))@
            },
            (TensorDataMut::F16(a), TensorDataMut::F16(b)) => {
                a@.len() == b@.len() && (*final(a))@ == (*final(b))@
            },
            (TensorDataMut::Bf16(a), TensorDataMut::Bf16(b)) => {
                a@.len() == b@.len() && (*final(a))@ == (*final(b))@
            },
            (TensorDataMut::I8(a), TensorDataMut::I8(b)) => {
                a@.len() == b@.len() && (*final(a))@ == (*final(b))@
            },
            (TensorDataMut::U32(a), TensorDataMut::U32(b)) => {
                a@.len() == b@.len() && (*final(a))@ == (*final(b))@
            },
            (TensorDataMut::Bytes(d, a), TensorDataMut::Bytes(e, b)) => {
                d == e && a@.len() == b@.len() && (*final(a))@ == (*final(b))@
            },
            _ => false,
        },
{
    match x.validate_backing("x") {
        Ok(()) => {},
        Err(e) => {
            return Err(e);
        },
    }
    match y.validate_backing("y") {
        Ok(()) => {},
        Err(e) => {
            return Err(e);
        },
    }
    let mut problems = no_problems();
    check_rank(&mut problems, "x", 2, x.shape());
    check_rank(&mut problems, "y", 2, y.shape());
    check_float(&mut problems, "x", x.dtype());
    check_dtype(&mut problems, "y", x.dtype(), y.dtype());
    check_pair(&mut problems, "y", "x", y.shape(), x.shape());
    check_clamp(&mut problems, "activation", op.clamp);
    let ghost found = views(problems@);
    match T0Error::from_problems(problems) {
        Ok(()) => {},
        Err(e) => {
            return Err(e);
        },
    }
    proof {
        assert(found.len() == 0);
        lemma_no_disagreement("y", "x", y@.shape, x@.shape);
    }
    let n: usize = x.num_elements();
    let mut out: Vec<u32> = Vec::new();
    for i in 0..n
        invariant
            is_arith(*f),
            n == x@.count(),
            x@.backed(),
            out@ =~= Seq::new(
                i as nat,
                |j: int| bounded(activated(*f, x@.cells.f32_at(j), op.act), op.clamp),
            ),
    {
        let v: u32 = eval_activation_f32(f, x.read_f32(i), op.act);
        out.push(apply_clamp(v, op.clamp));
    }
    y.write_all(out.as_slice());
    Ok(())
}

} // verus!
