//! What a matrix product computes: sums over all columns.
use vstd::prelude::*;
use crate::activation::activated;
use crate::arith::{fp, FloatOp};
use crate::buffer::Tensor;
use crate::call_laws::{fits_memory, lemma_output_shape, lemma_product_bits, opt_fits_memory};
use crate::dtype::{byte_as_i8, f32_of_f16, f32_of_int};
use crate::error::FormatError;
use crate::exec_prepare::Operand;
use crate::gemm::{Epilogue, GemmArgs};
use crate::index::{lemma_flat_bound, lemma_split};
use crate::ir::{DType, QuantScheme, SchemeId};
use crate::kernels::matmul_output;
use crate::matmul::{gemm_args, matmul_matrix, MatmulOp};
use crate::storage_laws::coded;
use crate::sums::{in_order, lemma_in_order_last, lemma_in_order_none};
use crate::weight::{answer_e4m3, FormatQuery, Matrix};

verus! {

/// Sum of integers.
pub open spec fn int_sum(terms: Seq<int>) -> int {
    terms.fold_left(0, |a: int, t: int| a + t)
}

/// Scale of an activation: one per row, or one per 32 columns of a row.
pub open spec fn activation_scale(x: Tensor, xs: Tensor, k: int, row: int, at: int) -> u32 {
    if x.quant == QuantScheme::PerBlock32 {
        xs.cells.f32_at(row * (k / 32) + at / 32)
    } else {
        xs.cells.f32_at(row)
    }
}

/// Number that an activation stands for: a code times its scale, or the number
/// itself.
pub open spec fn activation_number<
    F: Fn(FloatOp, u32, u32) -> u32,
    G: Fn(FormatQuery) -> Result<u64, FormatError>,
>(f: F, g: G, x: Tensor, xs: Option<Tensor>, k: int, row: int, at: int) -> u32 {
    let i = row * k + at;
    match x.dtype() {
        DType::I8 => fp(
            f,
            FloatOp::Times,
            f32_of_int(x.i8_at(i) as int),
            activation_scale(x, xs->0, k, row, at),
        ),
        DType::E4m3 => fp(
            f,
            FloatOp::Times,
            answer_e4m3(g, x.byte_at(i), i)->Ok_0,
            xs->0.cells.f32_at(row),
        ),
        _ => x.cells.f32_at(i),
    }
}

/// Number that a weight stands for: a code times the scale of its row or block,
/// for nibbles less the minimum of their part; or the number itself.
pub open spec fn weight_number<
    F: Fn(FloatOp, u32, u32) -> u32,
    G: Fn(FormatQuery) -> Result<u64, FormatError>,
>(f: F, g: G, w: Matrix, col: int, at: int) -> u32 {
    match w.scheme {
        None => f32_of_f16(w.half_value(g, col, at)->Ok_0),
        Some(SchemeId::I4K) => {
            let (scale, min) = w.part_value(f, g, col, at / 32)->Ok_0;
            let q = w.nibble_value(g, col, at)->Ok_0;
            fp(f, FloatOp::Minus, fp(f, FloatOp::Times, scale, f32_of_int(q as int)), min)
        },
        Some(SchemeId::E4M3B128) => fp(
            f,
            FloatOp::Times,
            w.e4m3_value(g, col, at)->Ok_0,
            w.scale_value(g, col, at / 128)->Ok_0,
        ),
        Some(SchemeId::I8B128) => fp(
            f,
            FloatOp::Times,
            f32_of_int(byte_as_i8(w.byte_value(g, col, at)->Ok_0) as int),
            w.scale_value(g, col, at / 128)->Ok_0,
        ),
        _ => fp(
            f,
            FloatOp::Times,
            f32_of_int(byte_as_i8(w.byte_value(g, col, at)->Ok_0) as int),
            w.scale_value(g, col, 0)->Ok_0,
        ),
    }
}

/// Columns that share one scale of activations and one of weights where codes
/// meet codes; zero where numbers meet numbers.
pub open spec fn shared_columns(x: Tensor, w: Matrix) -> int {
    if x.dtype() == DType::E4m3 && x.quant == QuantScheme::PerToken && w.scheme == Some(
        SchemeId::E4M3B128,
    ) {
        128
    } else if x.dtype() != DType::I8 {
        0
    } else if x.quant == QuantScheme::PerToken {
        match w.scheme {
            Some(SchemeId::I8R) => w.k,
            Some(SchemeId::I8B128) => 128,
            Some(SchemeId::I4K) => 32,
            _ => 0,
        }
    } else if x.quant == QuantScheme::PerBlock32 {
        match w.scheme {
            Some(SchemeId::I8R) => 32,
            Some(SchemeId::I8B128) => 32,
            Some(SchemeId::I4K) => 32,
            _ => 0,
        }
    } else {
        0
    }
}

/// What a block of columns contributes: the product of its codes, scaled once.
pub open spec fn contribution<
    F: Fn(FloatOp, u32, u32) -> u32,
    G: Fn(FormatQuery) -> Result<u64, FormatError>,
>(
    f: F,
    g: G,
    x: Tensor,
    xs: Tensor,
    w: Matrix,
    row: int,
    col: int,
    size: int,
    b: int,
) -> u32 {
    let first = b * size;
    let x_scale = activation_scale(x, xs, w.k, row, first);
    match w.scheme {
        Some(SchemeId::I4K) => {
            let (scale, min) = w.part_value(f, g, col, b)->Ok_0;
            let dot = int_sum(
                Seq::new(
                    size as nat,
                    |t: int| x.i8_at(row * w.k + (first + t)) * w.nibble_value(g, col, first + t)->Ok_0,
                ),
            );
            let sum = int_sum(Seq::new(size as nat, |t: int| x.i8_at(row * w.k + (first + t)) as int));
            fp(
                f,
                FloatOp::Times,
                fp(
                    f,
                    FloatOp::Minus,
                    fp(f, FloatOp::Times, scale, f32_of_int(dot)),
                    fp(f, FloatOp::Times, min, f32_of_int(sum)),
                ),
                x_scale,
            )
        },
        Some(SchemeId::E4M3B128) => {
            let dot = in_order(
                f,
                FloatOp::Plus,
                0,
                Seq::new(
                    size as nat,
                    |t: int|
                        fp(
                            f,
                            FloatOp::Times,
                            answer_e4m3(
                                g,
                                x.byte_at(row * w.k + (first + t)),
                                row * w.k + (first + t),
                            )->Ok_0,
                            w.e4m3_value(g, col, first + t)->Ok_0,
                        ),
                ),
            );
            fp(
                f,
                FloatOp::Times,
                dot,
                fp(f, FloatOp::Times, w.scale_value(g, col, b)->Ok_0, x_scale),
            )
        },
        _ => {
            let dot = int_sum(
                Seq::new(
                    size as nat,
                    |t: int|
                        x.i8_at(row * w.k + (first + t)) * byte_as_i8(w.byte_value(g, col, first + t)->Ok_0),
                ),
            );
            let record = if w.scheme == Some(SchemeId::I8B128) {
                first / 128
            } else {
                0
            };
            fp(
                f,
                FloatOp::Times,
                f32_of_int(dot),
                fp(f, FloatOp::Times, w.scale_value(g, col, record)->Ok_0, x_scale),
            )
        },
    }
}

/// Sum of an output element: over all columns in ascending order, or over all
/// blocks of columns in ascending order.
pub open spec fn product_sum<
    F: Fn(FloatOp, u32, u32) -> u32,
    G: Fn(FormatQuery) -> Result<u64, FormatError>,
>(f: F, g: G, x: Tensor, xs: Option<Tensor>, w: Matrix, row: int, col: int) -> u32 {
    let size = shared_columns(x, w);
    if size == 0 {
        in_order(
            f,
            FloatOp::Plus,
            0,
            Seq::new(
                w.k as nat,
                |t: int|
                    fp(
                        f,
                        FloatOp::Times,
                        activation_number(f, g, x, xs, w.k, row, t),
                        weight_number(f, g, w, col, t),
                    ),
            ),
        )
    } else if x.quant == QuantScheme::PerToken && w.scheme == Some(SchemeId::I8R) {
        contribution(f, g, x, xs->0, w, row, col, w.k, 0)
    } else {
        in_order(
            f,
            FloatOp::Plus,
            0,
            Seq::new(
                (w.k / size) as nat,
                |b: int| contribution(f, g, x, xs->0, w, row, col, size, b),
            ),
        )
    }
}

/// One more term of an integer sum.
proof fn lemma_int_sum_last(terms: Seq<int>)
    ensures
        terms.len() > 0 ==> int_sum(terms) == int_sum(terms.drop_last()) + terms.last(),
        terms.len() == 0 ==> int_sum(terms) == 0,
{
}

proof fn lemma_int_dot<G: Fn(FormatQuery) -> Result<u64, FormatError>>(
    a: GemmArgs,
    g: G,
    row: int,
    col: int,
    first: int,
    n: int,
)
    requires
        0 <= n,
        a.int_dot(g, row, col, first, n) is Ok,
    ensures
        a.int_dot(g, row, col, first, n)->Ok_0 == int_sum(
            Seq::new(
                n as nat,
                |t: int|
                    a.x.i8_at(row * a.w.k + (first + t)) * byte_as_i8(
                        a.w.byte_value(g, col, first + t)->Ok_0,
                    ),
            ),
        ),
    decreases n,
{
    let terms = |c: int|
        Seq::new(
            c as nat,
            |t: int|
                a.x.i8_at(row * a.w.k + (first + t)) * byte_as_i8(
                    a.w.byte_value(g, col, first + t)->Ok_0,
                ),
        );
    lemma_int_sum_last(terms(n));
    if n > 0 {
        lemma_int_dot(a, g, row, col, first, n - 1);
        assert(terms(n).drop_last() =~= terms(n - 1));
        assert(first + n - 1 == first + (n - 1));
    }
}

proof fn lemma_nibble_dot<G: Fn(FormatQuery) -> Result<u64, FormatError>>(
    a: GemmArgs,
    g: G,
    row: int,
    col: int,
    first: int,
    n: int,
)
    requires
        0 <= n,
        a.nibble_dot(g, row, col, first, n) is Ok,
    ensures
        a.nibble_dot(g, row, col, first, n)->Ok_0.0 == int_sum(
            Seq::new(
                n as nat,
                |t: int|
                    a.x.i8_at(row * a.w.k + (first + t)) * a.w.nibble_value(
                        g,
                        col,
                        first + t,
                    )->Ok_0,
            ),
        ),
        a.nibble_dot(g, row, col, first, n)->Ok_0.1 == int_sum(
            Seq::new(n as nat, |t: int| a.x.i8_at(row * a.w.k + (first + t)) as int),
        ),
    decreases n,
{
    let terms = |c: int|
        Seq::new(
            c as nat,
            |t: int|
                a.x.i8_at(row * a.w.k + (first + t)) * a.w.nibble_value(g, col, first + t)->Ok_0,
        );
    let plain = |c: int|
        Seq::new(c as nat, |t: int| a.x.i8_at(row * a.w.k + (first + t)) as int);
    lemma_int_sum_last(terms(n));
    lemma_int_sum_last(plain(n));
    if n > 0 {
        lemma_nibble_dot(a, g, row, col, first, n - 1);
        assert(terms(n).drop_last() =~= terms(n - 1));
        assert(plain(n).drop_last() =~= plain(n - 1));
        assert(first + n - 1 == first + (n - 1));
    }
}

proof fn lemma_e4m3_dot<
    F: Fn(FloatOp, u32, u32) -> u32,
    G: Fn(FormatQuery) -> Result<u64, FormatError>,
>(a: GemmArgs, f: F, g: G, row: int, col: int, first: int, n: int)
    requires
        0 <= n,
        a.e4m3_dot(f, g, row, col, first, n) is Ok,
    ensures
        a.e4m3_dot(f, g, row, col, first, n)->Ok_0 == in_order(
            f,
            FloatOp::Plus,
            0,
            Seq::new(
                n as nat,
                |t: int|
                    fp(
                        f,
                        FloatOp::Times,
                        answer_e4m3(
                            g,
                            a.x.byte_at(row * a.w.k + (first + t)),
                            row * a.w.k + (first + t),
                        )->Ok_0,
                        a.w.e4m3_value(g, col, first + t)->Ok_0,
                    ),
            ),
        ),
    decreases n,
{
    let terms = |c: int|
        Seq::new(
            c as nat,
            |t: int|
                fp(
                    f,
                    FloatOp::Times,
                    answer_e4m3(
                        g,
                        a.x.byte_at(row * a.w.k + (first + t)),
                        row * a.w.k + (first + t),
                    )->Ok_0,
                    a.w.e4m3_value(g, col, first + t)->Ok_0,
                ),
        );
    if n > 0 {
        lemma_e4m3_dot(a, f, g, row, col, first, n - 1);
        lemma_in_order_last(f, FloatOp::Plus, 0, terms(n));
        assert(terms(n).drop_last() =~= terms(n - 1));
        assert(first + n - 1 == first + (n - 1));
    } else {
        lemma_in_order_none(f, FloatOp::Plus, 0, terms(n));
    }
}

proof fn lemma_contribution<
    F: Fn(FloatOp, u32, u32) -> u32,
    G: Fn(FormatQuery) -> Result<u64, FormatError>,
>(a: GemmArgs, f: F, g: G, row: int, col: int, size: int, b: int)
    requires
        0 <= b,
        size == shared_columns(a.x, a.w),
        size > 0,
        a.block_value(f, g, row, col, size, b) is Ok,
        size == a.w.k ==> b == 0,
    ensures
        a.block_value(f, g, row, col, size, b)->Ok_0 == contribution(
            f,
            g,
            a.x,
            a.xs->0,
            a.w,
            row,
            col,
            size,
            b,
        ),
{
    let first = b * size;
    if a.x.quant == QuantScheme::PerBlock32 {
        assert(first / 32 == b) by {
            lemma_split(b, 0, 32);
            assert(b * 32 + 0 == b * size);
        }
    }
    match a.w.scheme {
        Some(SchemeId::I4K) => {
            lemma_nibble_dot(a, g, row, col, first, size);
        },
        Some(SchemeId::E4M3B128) => {
            lemma_e4m3_dot(a, f, g, row, col, first, size);
        },
        _ => {
            lemma_int_dot(a, g, row, col, first, size);
        },
    }
}

proof fn lemma_block_sum<
    F: Fn(FloatOp, u32, u32) -> u32,
    G: Fn(FormatQuery) -> Result<u64, FormatError>,
>(a: GemmArgs, f: F, g: G, row: int, col: int, size: int, n: int)
    requires
        0 <= n,
        size == shared_columns(a.x, a.w),
        size > 0,
        size == a.w.k ==> n <= 1,
        a.block_sum(f, g, row, col, size, n) is Ok,
    ensures
        a.block_sum(f, g, row, col, size, n)->Ok_0 == in_order(
            f,
            FloatOp::Plus,
            0,
            Seq::new(
                n as nat,
                |b: int| contribution(f, g, a.x, a.xs->0, a.w, row, col, size, b),
            ),
        ),
    decreases n,
{
    let terms = |c: int|
        Seq::new(
            c as nat,
            |b: int| contribution(f, g, a.x, a.xs->0, a.w, row, col, size, b),
        );
    if n > 0 {
        lemma_block_sum(a, f, g, row, col, size, n - 1);
        lemma_contribution(a, f, g, row, col, size, n - 1);
        lemma_in_order_last(f, FloatOp::Plus, 0, terms(n));
        assert(terms(n).drop_last() =~= terms(n - 1));
    } else {
        lemma_in_order_none(f, FloatOp::Plus, 0, terms(n));
    }
}

proof fn lemma_real_dot<
    F: Fn(FloatOp, u32, u32) -> u32,
    G: Fn(FormatQuery) -> Result<u64, FormatError>,
>(a: GemmArgs, f: F, g: G, row: int, col: int, n: int)
    requires
        0 <= n,
        a.x.dtype() == DType::E4m3 ==> a.x.quant != QuantScheme::PerBlock32,
        a.real_dot(f, g, row, col, n) is Ok,
    ensures
        a.real_dot(f, g, row, col, n)->Ok_0 == in_order(
            f,
            FloatOp::Plus,
            0,
            Seq::new(
                n as nat,
                |t: int|
                    fp(
                        f,
                        FloatOp::Times,
                        activation_number(f, g, a.x, a.xs, a.w.k, row, t),
                        weight_number(f, g, a.w, col, t),
                    ),
            ),
        ),
    decreases n,
{
    let terms = |c: int|
        Seq::new(
            c as nat,
            |t: int|
                fp(
                    f,
                    FloatOp::Times,
                    activation_number(f, g, a.x, a.xs, a.w.k, row, t),
                    weight_number(f, g, a.w, col, t),
                ),
        );
    if n > 0 {
        lemma_real_dot(a, f, g, row, col, n - 1);
        lemma_in_order_last(f, FloatOp::Plus, 0, terms(n));
        assert(terms(n).drop_last() =~= terms(n - 1));
    } else {
        lemma_in_order_none(f, FloatOp::Plus, 0, terms(n));
    }
}

/// A product sums over all columns: an output element is the sum of the products
/// of a row of activations with a row of weights, each number by its code and its
/// scale; where codes meet codes, every block of columns contributes its product
/// once; and the epilogue follows.
pub proof fn law_product_sum<
    F: Fn(FloatOp, u32, u32) -> u32,
    G: Fn(FormatQuery) -> Result<u64, FormatError>,
>(
    f: F,
    g: G,
    op: MatmulOp,
    x: Operand,
    w: Operand,
    bias: Option<Tensor>,
    residual: Option<Tensor>,
    y: Tensor,
    row: int,
    col: int,
)
    requires
        fits_memory(x.tensor) && opt_fits_memory(x.scale) && fits_memory(w.tensor),
        opt_fits_memory(w.scale) && opt_fits_memory(bias) && opt_fits_memory(residual),
        fits_memory(y),
        matmul_output(f, g, op, x, w, bias, residual, y) is Ok,
        0 <= row < y.shape[0],
        0 <= col < y.shape[1],
    ensures
        ({
            let out = matmul_output(f, g, op, x, w, bias, residual, y)->Ok_0;
            let i = row * y.shape[1] + col;
            let sum = product_sum(
                f,
                g,
                x.tensor,
                x.scale,
                matmul_matrix(g, op, w.tensor, w.scale),
                row,
                col,
            );
            out.cells.raw_at(i) == coded(
                op.out_dtype,
                match op.epilogue {
                    Epilogue::Plain => sum,
                    Epilogue::Bias => fp(f, FloatOp::Plus, sum, bias->0.cells.f32_at(col)),
                    Epilogue::Residual => fp(
                        f,
                        FloatOp::Plus,
                        sum,
                        residual->0.cells.f32_at(i),
                    ),
                    Epilogue::Act(kind) => activated(f, sum, kind),
                },
            )
        }),
{
    let a = gemm_args(g, op, x.tensor, x.scale, w.tensor, w.scale, bias, residual);
    let n = y.shape[1] as int;
    lemma_output_shape(f, g, op, x, w, bias, residual, y);
    lemma_flat_bound(row, y.shape[0] as int, col, n);
    lemma_split(row, col, n);
    lemma_product_bits(f, g, op, x, w, bias, residual, y, row * n + col);
    let size = shared_columns(x.tensor, a.w);
    assert(size == a.block_size());
    if a.single_block() {
        lemma_contribution(a, f, g, row, col, size, 0);
    } else if size > 0 {
        if size == a.w.k {
            vstd::arithmetic::div_mod::lemma_div_by_self(size);
        }
        vstd::arithmetic::div_mod::lemma_div_pos_is_pos(a.w.k, size);
        lemma_block_sum(a, f, g, row, col, size, a.w.k / size);
    } else {
        lemma_real_dot(a, f, g, row, col, a.w.k);
    }
}

/// Activations and weights of a product.
pub struct Factors {
    /// Activations.
    pub x: Tensor,
    /// Scales of the activations.
    pub xs: Option<Tensor>,
    /// Weights.
    pub w: Matrix,
}

/// Activations and weights that a product is called with.
pub open spec fn factors<G: Fn(FormatQuery) -> Result<u64, FormatError>>(
    g: G,
    op: MatmulOp,
    x: Operand,
    w: Operand,
) -> Factors {
    Factors { x: x.tensor, xs: x.scale, w: matmul_matrix(g, op, w.tensor, w.scale) }
}

/// Whether weights of the scheme are signed bytes.
pub open spec fn in_bytes(scheme: Option<SchemeId>) -> bool {
    scheme == Some(SchemeId::I8R) || scheme == Some(SchemeId::I8B128)
}

/// Whether weights of the scheme have a scale for every 128 columns.
pub open spec fn in_blocks(scheme: Option<SchemeId>) -> bool {
    scheme == Some(SchemeId::I8B128) || scheme == Some(SchemeId::E4M3B128)
}

/// Whether the columns of one product are those of another from a column on: the
/// same codes, numbers and scales.
#[verifier::opaque]
pub open spec fn has_columns<
    F: Fn(FloatOp, u32, u32) -> u32,
    G: Fn(FormatQuery) -> Result<u64, FormatError>,
>(f: F, g: G, part: Factors, whole: Factors, from: int, row: int, col: int) -> bool {
    &&& (part.xs is Some) == (whole.xs is Some)
    &&& part.x.dtype() == whole.x.dtype() && part.x.quant == whole.x.quant
    &&& part.w.scheme == whole.w.scheme
    &&& forall|t: int|
        #![trigger part.x.i8_at(row * part.w.k + t)]
        0 <= t < part.w.k && part.x.dtype() == DType::I8 ==> part.x.i8_at(row * part.w.k + t) == whole.x.i8_at(
            row * whole.w.k + (from + t),
        )
    &&& forall|t: int|
        #![trigger part.x.byte_at(row * part.w.k + t)]
        0 <= t < part.w.k && part.x.dtype() == DType::E4m3 ==> answer_e4m3(
            g,
            part.x.byte_at(row * part.w.k + t),
            row * part.w.k + t,
        )->Ok_0 == answer_e4m3(
            g,
            whole.x.byte_at(row * whole.w.k + (from + t)),
            row * whole.w.k + (from + t),
        )->Ok_0
    &&& forall|t: int|
        #![trigger activation_number(f, g, part.x, part.xs, part.w.k, row, t)]
        0 <= t < part.w.k ==> activation_number(f, g, part.x, part.xs, part.w.k, row, t)
            == activation_number(f, g, whole.x, whole.xs, whole.w.k, row, from + t)
    &&& forall|t: int|
        #![trigger activation_scale(part.x, part.xs->0, part.w.k, row, t)]
        0 <= t < part.w.k && part.xs is Some ==> activation_scale(part.x, part.xs->0, part.w.k, row, t)
            == activation_scale(whole.x, whole.xs->0, whole.w.k, row, from + t)
    &&& forall|t: int|
        #![trigger part.w.byte_value(g, col, t)]
        0 <= t < part.w.k && in_bytes(part.w.scheme) ==> part.w.byte_value(g, col, t)->Ok_0 == whole.w.byte_value(
            g,
            col,
            from + t,
        )->Ok_0
    &&& forall|t: int|
        #![trigger part.w.nibble_value(g, col, t)]
        0 <= t < part.w.k && part.w.scheme == Some(SchemeId::I4K) ==> part.w.nibble_value(g, col, t)->Ok_0 == whole.w.nibble_value(
            g,
            col,
            from + t,
        )->Ok_0
    &&& forall|t: int|
        #![trigger part.w.e4m3_value(g, col, t)]
        0 <= t < part.w.k && part.w.scheme == Some(SchemeId::E4M3B128) ==> part.w.e4m3_value(g, col, t)->Ok_0 == whole.w.e4m3_value(
            g,
            col,
            from + t,
        )->Ok_0
    &&& forall|t: int|
        #![trigger weight_number(f, g, part.w, col, t)]
        0 <= t < part.w.k ==> weight_number(f, g, part.w, col, t) == weight_number(
            f,
            g,
            whole.w,
            col,
            from + t,
        )
    &&& part.w.scheme == Some(SchemeId::I8R) ==> part.w.scale_value(g, col, 0)->Ok_0
        == whole.w.scale_value(g, col, 0)->Ok_0
    &&& forall|t: int|
        #![trigger part.w.scale_value(g, col, t / 128)]
        0 <= t < part.w.k && in_blocks(part.w.scheme) ==> part.w.scale_value(g, col, t / 128)->Ok_0 == whole.w.scale_value(
            g,
            col,
            (from + t) / 128,
        )->Ok_0
    &&& forall|t: int|
        #![trigger part.w.part_value(f, g, col, t / 32)]
        0 <= t < part.w.k && part.w.scheme == Some(SchemeId::I4K) ==> part.w.part_value(f, g, col, t / 32)->Ok_0 == whole.w.part_value(
            f,
            g,
            col,
            (from + t) / 32,
        )->Ok_0
}

/// One column of a product that has the columns of another.
proof fn lemma_column<
    F: Fn(FloatOp, u32, u32) -> u32,
    G: Fn(FormatQuery) -> Result<u64, FormatError>,
>(f: F, g: G, part: Factors, whole: Factors, from: int, row: int, col: int, t: int)
    requires
        has_columns(f, g, part, whole, from, row, col),
        0 <= t < part.w.k,
    ensures
        part.x.dtype() == whole.x.dtype() && part.x.quant == whole.x.quant,
        part.w.scheme == whole.w.scheme,
        part.x.dtype() == DType::I8 ==> part.x.i8_at(row * part.w.k + t) == whole.x.i8_at(row * whole.w.k + (from + t)),
        part.x.dtype() == DType::E4m3 ==> answer_e4m3(g, part.x.byte_at(row * part.w.k + t), row * part.w.k + t)->Ok_0
            == answer_e4m3(
            g,
            whole.x.byte_at(row * whole.w.k + (from + t)),
            row * whole.w.k + (from + t),
        )->Ok_0,
        activation_number(f, g, part.x, part.xs, part.w.k, row, t) == activation_number(
            f,
            g,
            whole.x,
            whole.xs,
            whole.w.k,
            row,
            from + t,
        ),
        part.xs is Some ==> activation_scale(part.x, part.xs->0, part.w.k, row, t) == activation_scale(
            whole.x,
            whole.xs->0,
            whole.w.k,
            row,
            from + t,
        ),
        in_bytes(part.w.scheme) ==> part.w.byte_value(g, col, t)->Ok_0 == whole.w.byte_value(g, col, from + t)->Ok_0,
        part.w.scheme == Some(SchemeId::I4K) ==> part.w.nibble_value(g, col, t)->Ok_0 == whole.w.nibble_value(g, col, from + t)->Ok_0,
        part.w.scheme == Some(SchemeId::E4M3B128) ==> part.w.e4m3_value(g, col, t)->Ok_0 == whole.w.e4m3_value(g, col, from + t)->Ok_0,
        weight_number(f, g, part.w, col, t) == weight_number(f, g, whole.w, col, from + t),
        part.w.scheme == Some(SchemeId::I8R) ==> part.w.scale_value(g, col, 0)->Ok_0
            == whole.w.scale_value(g, col, 0)->Ok_0,
        in_blocks(part.w.scheme) ==> part.w.scale_value(g, col, t / 128)->Ok_0 == whole.w.scale_value(
            g,
            col,
            (from + t) / 128,
        )->Ok_0,
        part.w.scheme == Some(SchemeId::I4K) ==> part.w.part_value(f, g, col, t / 32)->Ok_0 == whole.w.part_value(
            f,
            g,
            col,
            (from + t) / 32,
        )->Ok_0,
{
    reveal(has_columns);
}

/// A block of columns contributes the same to both products.
#[verifier::spinoff_prover]
#[verifier::rlimit(60)]
proof fn lemma_same_contribution<
    F: Fn(FloatOp, u32, u32) -> u32,
    G: Fn(FormatQuery) -> Result<u64, FormatError>,
>(
    f: F,
    g: G,
    part: Factors,
    whole: Factors,
    skip: int,
    row: int,
    col: int,
    size: int,
    b: int,
)
    requires
        size == shared_columns(part.x, part.w),
        size > 0,
        !(part.x.quant == QuantScheme::PerToken && part.w.scheme == Some(SchemeId::I8R)),
        has_columns(f, g, part, whole, skip * size, row, col),
        0 <= b,
        0 <= skip,
        b * size + size <= part.w.k,
        part.xs is Some,
    ensures
        contribution(f, g, part.x, part.xs->0, part.w, row, col, size, b) == contribution(
            f,
            g,
            whole.x,
            whole.xs->0,
            whole.w,
            row,
            col,
            size,
            skip + b,
        ),
{
    let from = skip * size;
    let first = b * size;
    let other = (skip + b) * size;
    assert(other == from + first) by (nonlinear_arith)
        requires
            first == b * size,
            from == skip * size,
            other == (skip + b) * size,
    ;
    assert(0 <= first) by (nonlinear_arith)
        requires
            first == b * size,
            0 <= b,
            0 < size,
    ;
    lemma_column(f, g, part, whole, from, row, col, first);
    match part.w.scheme {
        Some(SchemeId::I4K) => {
            assert(size == 32);
            assert(first / 32 == b && other / 32 == skip + b);
            let l = Seq::new(
                size as nat,
                |t: int|
                    part.x.i8_at(row * part.w.k + (first + t)) * part.w.nibble_value(
                        g,
                        col,
                        first + t,
                    )->Ok_0,
            );
            let r = Seq::new(
                size as nat,
                |t: int|
                    whole.x.i8_at(row * whole.w.k + (other + t)) * whole.w.nibble_value(
                        g,
                        col,
                        other + t,
                    )->Ok_0,
            );
            let ls = Seq::new(
                size as nat,
                |t: int| part.x.i8_at(row * part.w.k + (first + t)) as int,
            );
            let rs = Seq::new(
                size as nat,
                |t: int| whole.x.i8_at(row * whole.w.k + (other + t)) as int,
            );
            assert forall|t: int| 0 <= t < size implies l[t] == r[t] && ls[t] == rs[t] by {
                lemma_column(f, g, part, whole, from, row, col, first + t);
                assert(other + t == from + (first + t));
            }
            assert(l =~= r);
            assert(ls =~= rs);
        },
        Some(SchemeId::E4M3B128) => {
            assert(size == 128);
            assert(first / 128 == b && other / 128 == skip + b);
            let l = Seq::new(
                size as nat,
                |t: int|
                    fp(
                        f,
                        FloatOp::Times,
                        answer_e4m3(
                            g,
                            part.x.byte_at(row * part.w.k + (first + t)),
                            row * part.w.k + (first + t),
                        )->Ok_0,
                        part.w.e4m3_value(g, col, first + t)->Ok_0,
                    ),
            );
            let r = Seq::new(
                size as nat,
                |t: int|
                    fp(
                        f,
                        FloatOp::Times,
                        answer_e4m3(
                            g,
                            whole.x.byte_at(row * whole.w.k + (other + t)),
                            row * whole.w.k + (other + t),
                        )->Ok_0,
                        whole.w.e4m3_value(g, col, other + t)->Ok_0,
                    ),
            );
            assert forall|t: int| 0 <= t < size implies l[t] == r[t] by {
                lemma_column(f, g, part, whole, from, row, col, first + t);
                assert(other + t == from + (first + t));
            }
            assert(l =~= r);
        },
        _ => {
            let l = Seq::new(
                size as nat,
                |t: int|
                    part.x.i8_at(row * part.w.k + (first + t)) * byte_as_i8(
                        part.w.byte_value(g, col, first + t)->Ok_0,
                    ),
            );
            let r = Seq::new(
                size as nat,
                |t: int|
                    whole.x.i8_at(row * whole.w.k + (other + t)) * byte_as_i8(
                        whole.w.byte_value(g, col, other + t)->Ok_0,
                    ),
            );
            assert forall|t: int| 0 <= t < size implies l[t] == r[t] by {
                lemma_column(f, g, part, whole, from, row, col, first + t);
                assert(other + t == from + (first + t));
            }
            assert(l =~= r);
        },
    }
}

/// The sum over columns is the sum over all but the last of them plus the sum
/// over the last.
proof fn lemma_sum_columns<
    F: Fn(FloatOp, u32, u32) -> u32,
    G: Fn(FormatQuery) -> Result<u64, FormatError>,
>(f: F, g: G, whole: Factors, head: Factors, tail: Factors, row: int, col: int)
    requires
        forall|v: u32| #[trigger] fp(f, FloatOp::Plus, 0, v) == v,
        !(whole.x.quant == QuantScheme::PerToken && whole.w.scheme == Some(SchemeId::I8R)),
        whole.w.k == head.w.k + tail.w.k,
        head.w.k > 0,
        ({
            let size = shared_columns(whole.x, whole.w);
            tail.w.k == if size == 0 {
                1
            } else {
                size
            }
        }),
        head.w.k % tail.w.k == 0,
        shared_columns(whole.x, whole.w) > 0 ==> head.xs is Some && tail.xs is Some,
        has_columns(f, g, head, whole, 0, row, col),
        has_columns(f, g, tail, whole, head.w.k, row, col),
    ensures
        product_sum(f, g, whole.x, whole.xs, whole.w, row, col) == fp(
            f,
            FloatOp::Plus,
            product_sum(f, g, head.x, head.xs, head.w, row, col),
            product_sum(f, g, tail.x, tail.xs, tail.w, row, col),
        ),
{
    let size = shared_columns(whole.x, whole.w);
    lemma_column(f, g, head, whole, 0, row, col, 0);
    lemma_column(f, g, tail, whole, head.w.k, row, col, 0);
    assert(shared_columns(head.x, head.w) == size);
    assert(shared_columns(tail.x, tail.w) == size);
    let k = head.w.k;
    if size == 0 {
        let terms = |p: Factors|
            Seq::new(
                p.w.k as nat,
                |t: int|
                    fp(
                        f,
                        FloatOp::Times,
                        activation_number(f, g, p.x, p.xs, p.w.k, row, t),
                        weight_number(f, g, p.w, col, t),
                    ),
            );
        lemma_in_order_last(f, FloatOp::Plus, 0, terms(whole));
        let short = terms(whole).drop_last();
        let front = terms(head);
        assert forall|t: int| 0 <= t < k implies #[trigger] short[t] == front[t] by {
            lemma_column(f, g, head, whole, 0, row, col, t);
        }
        assert(short =~= front);
        lemma_in_order_last(f, FloatOp::Plus, 0, terms(tail));
        lemma_in_order_none(f, FloatOp::Plus, 0, terms(tail).drop_last());
        assert(terms(whole).last() == terms(tail).last());
    } else {
        let n = k / size;
        vstd::arithmetic::div_mod::lemma_fundamental_div_mod(k, size);
        assert(k == n * size) by (nonlinear_arith)
            requires
                k == size * n + 0,
        ;
        lemma_split(n + 1, 0, size);
        assert((n + 1) * size + 0 == whole.w.k) by (nonlinear_arith)
            requires
                whole.w.k == k + size,
                k == n * size,
        ;
        lemma_split(1, 0, size);
        assert(1 * size + 0 == tail.w.k);
        vstd::arithmetic::div_mod::lemma_div_pos_is_pos(k, size);
        let terms = |p: Factors|
            Seq::new(
                (p.w.k / size) as nat,
                |b: int| contribution(f, g, p.x, p.xs->0, p.w, row, col, size, b),
            );
        assert(terms(whole).len() == n + 1);
        lemma_in_order_last(f, FloatOp::Plus, 0, terms(whole));
        assert(0 * size == 0);
        let short = terms(whole).drop_last();
        let front = terms(head);
        assert forall|b: int| 0 <= b < n implies #[trigger] short[b] == front[b] by {
            assert(b * size + size <= k) by (nonlinear_arith)
                requires
                    b + 1 <= n,
                    k == n * size,
                    size > 0,
            ;
            lemma_same_contribution(f, g, head, whole, 0, row, col, size, b);
        }
        assert(short =~= front);
        lemma_in_order_last(f, FloatOp::Plus, 0, terms(tail));
        lemma_in_order_none(f, FloatOp::Plus, 0, terms(tail).drop_last());
        lemma_same_contribution(f, g, tail, whole, n, row, col, size, 0);
        assert(terms(whole).last() == terms(tail).last());
    }
}

/// Every column counts: a product over columns is the sum of the product over all
/// but the last columns and of the product over the last, one block of them where
/// codes meet codes and one of them otherwise. All three are calls; where one
/// integer sum runs over all columns there are no blocks to part.
pub proof fn law_product_columns<
    F: Fn(FloatOp, u32, u32) -> u32,
    G: Fn(FormatQuery) -> Result<u64, FormatError>,
>(
    f: F,
    g: G,
    op: MatmulOp,
    x: Operand,
    w: Operand,
    head_x: Operand,
    head_w: Operand,
    tail_x: Operand,
    tail_w: Operand,
    y: Tensor,
    row: int,
    col: int,
)
    requires
        forall|v: u32| #[trigger] fp(f, FloatOp::Plus, 0, v) == v,
        op.epilogue == Epilogue::Plain,
        op.out_dtype == DType::F32,
        fits_memory(x.tensor) && opt_fits_memory(x.scale) && fits_memory(w.tensor),
        opt_fits_memory(w.scale) && fits_memory(y),
        fits_memory(head_x.tensor) && opt_fits_memory(head_x.scale),
        fits_memory(head_w.tensor) && opt_fits_memory(head_w.scale),
        fits_memory(tail_x.tensor) && opt_fits_memory(tail_x.scale),
        fits_memory(tail_w.tensor) && opt_fits_memory(tail_w.scale),
        matmul_output(f, g, op, x, w, None, None, y) is Ok,
        matmul_output(f, g, op, head_x, head_w, None, None, y) is Ok,
        matmul_output(f, g, op, tail_x, tail_w, None, None, y) is Ok,
        0 <= row < y.shape[0],
        0 <= col < y.shape[1],
        ({
            let whole = factors(g, op, x, w);
            let head = factors(g, op, head_x, head_w);
            let tail = factors(g, op, tail_x, tail_w);
            let size = shared_columns(whole.x, whole.w);
            &&& !(whole.x.quant == QuantScheme::PerToken && whole.w.scheme == Some(SchemeId::I8R))
            &&& whole.w.k == head.w.k + tail.w.k
            &&& tail.w.k == if size == 0 {
                1
            } else {
                size
            }
            &&& head.w.k % tail.w.k == 0
            &&& has_columns(f, g, head, whole, 0, row, col)
            &&& has_columns(f, g, tail, whole, head.w.k, row, col)
        }),
    ensures
        ({
            let at = |t: Tensor| t.cells.raw_at(row * y.shape[1] + col);
            at(matmul_output(f, g, op, x, w, None, None, y)->Ok_0) == fp(
                f,
                FloatOp::Plus,
                at(matmul_output(f, g, op, head_x, head_w, None, None, y)->Ok_0),
                at(matmul_output(f, g, op, tail_x, tail_w, None, None, y)->Ok_0),
            )
        }),
{
    law_product_sum(f, g, op, x, w, None, None, y, row, col);
    law_product_sum(f, g, op, head_x, head_w, None, None, y, row, col);
    law_product_sum(f, g, op, tail_x, tail_w, None, None, y, row, col);
    lemma_output_shape(f, g, op, head_x, head_w, None, None, y);
    lemma_flat_bound(row, y.shape[0] as int, col, y.shape[1] as int);
    lemma_product_bits(
        f,
        g,
        op,
        head_x,
        head_w,
        None,
        None,
        y,
        row * y.shape[1] + col,
    );
    lemma_product_bits(
        f,
        g,
        op,
        tail_x,
        tail_w,
        None,
        None,
        y,
        row * y.shape[1] + col,
    );
    lemma_column(f, g, factors(g, op, head_x, head_w), factors(g, op, x, w), 0, row, col, 0);
    lemma_column(
        f,
        g,
        factors(g, op, tail_x, tail_w),
        factors(g, op, x, w),
        factors(g, op, head_x, head_w).w.k,
        row,
        col,
        0,
    );
    lemma_sum_columns(
        f,
        g,
        factors(g, op, x, w),
        factors(g, op, head_x, head_w),
        factors(g, op, tail_x, tail_w),
        row,
        col,
    );
}

} // verus!
