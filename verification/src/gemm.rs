//! Matrix product kernels.
//!
//! Every output element is computed by itself. Quantized activations meet
//! quantized weights in integer arithmetic, block by block; all other pairs are
//! decoded to singles and accumulated in ascending order.
use vstd::prelude::*;
use crate::activation::{activated, eval_activation_f32};
use crate::arith::{compute, fp, fp_add, fp_mul, is_arith, plus, times, FloatOp};
use crate::buffer::{lemma_backed_holds, opt_view, Tensor, TensorView};
use crate::causal_conv1d::lemma_count_fits;
use crate::check::{overflow, overflow_error};
use crate::dtype::{byte_as_i8, f32_of_int, i32_to_f32, signed_byte};
use crate::error::{outcome, quoting, Arg, Detail, ErrorView, FormatError, T0Error};
use crate::index::{lemma_flat_bound, lemma_split};
use crate::ir::{ActivationKind, DType, QuantScheme, SchemeId};
use crate::weight::{answer_e4m3, ask_e4m3, is_format, record_of, FormatQuery, Matrix, Weights};

verus! {

/// What follows the sums of a matrix product.
#[derive(Debug, Clone, Copy, PartialEq, Eq, Structural)]
pub enum Epilogue {
    /// Nothing.
    Plain,
    /// The bias of the column is added.
    Bias,
    /// A residual is added.
    Residual,
    /// An activation function is applied.
    Act(ActivationKind),
}

/// Operands of a matrix product of `m` rows by `n` weight rows.
pub struct GemmArgs {
    /// Activations.
    pub x: Tensor,
    /// Activation scales.
    pub xs: Option<Tensor>,
    /// Weights.
    pub w: Matrix,
    /// Bias of each column.
    pub bias: Option<Tensor>,
    /// Residual of each element.
    pub residual: Option<Tensor>,
    /// What follows the sums.
    pub epilogue: Epilogue,
    /// Rows of the activations.
    pub m: int,
}

/// Whether activations of the type and scheme can be multiplied.
pub open spec fn is_activation(dtype: DType, quant: QuantScheme) -> bool {
    match (dtype, quant) {
        (DType::F16, QuantScheme::Unquantized) => true,
        (DType::Bf16, QuantScheme::Unquantized) => true,
        (DType::I8, QuantScheme::PerToken) => true,
        (DType::I8, QuantScheme::PerBlock32) => true,
        (DType::E4m3, QuantScheme::PerToken) => true,
        _ => false,
    }
}

impl GemmArgs {
    /// Whether the operands have the extents and the storage of the product.
    pub open spec fn wf(self) -> bool {
        let k = self.w.k;
        &&& self.w.wf()
        &&& 0 < self.m <= u32::MAX
        &&& self.x.backed()
        &&& self.x.count() == self.m * k
        &&& is_activation(self.x.dtype(), self.x.quant)
        &&& self.x.quant == QuantScheme::PerToken ==> self.xs is Some && self.xs->0.backed()
            && self.xs->0.count() >= self.m
        &&& self.x.quant == QuantScheme::PerBlock32 ==> self.xs is Some && self.xs->0.backed()
            && self.xs->0.count() >= self.m * (k / 32) && k % 32 == 0
        &&& self.epilogue == Epilogue::Bias ==> self.bias is Some && self.bias->0.backed()
            && self.bias->0.count() == self.w.n
        &&& self.epilogue == Epilogue::Residual ==> self.residual is Some
            && self.residual->0.backed() && self.residual->0.count() == self.m * self.w.n
        &&& self.m * self.w.n <= usize::MAX
    }

    /// Scale of an activation block.
    pub open spec fn x_scale(self, row: int, block: int) -> u32 {
        if self.x.quant == QuantScheme::PerBlock32 {
            self.xs->0.cells.f32_at(row * (self.w.k / 32) + block)
        } else {
            self.xs->0.cells.f32_at(row)
        }
    }

    /// The error of a sum that leaves 32 bits.
    pub open spec fn sum_overflow(self, row: int, col: int, at: int) -> ErrorView {
        overflow_error(
            "matmul",
            quoting(
                "i32 accumulation overflow at m={}, n={}, k={}",
                seq![Arg::Int(row as u64), Arg::Int(col as u64), Arg::Int(at as u64)],
            ),
        )
    }

    /// Integer product of `count` activations with signed-byte weights.
    pub open spec fn int_dot<G: Fn(FormatQuery) -> Result<u64, FormatError>>(
        self,
        g: G,
        row: int,
        col: int,
        start: int,
        count: int,
    ) -> Result<int, ErrorView>
        decreases count,
    {
        if count <= 0 {
            Ok(0int)
        } else {
            let at = start + count - 1;
            match self.int_dot(g, row, col, start, count - 1) {
                Err(e) => Err(e),
                Ok(acc) => match self.w.byte_value(g, col, at) {
                    Err(e) => Err(e),
                    Ok(b) => {
                        let sum = acc + self.x.i8_at(row * self.w.k + at) * byte_as_i8(b);
                        if i32::MIN <= sum <= i32::MAX {
                            Ok(sum)
                        } else {
                            Err(self.sum_overflow(row, col, at))
                        }
                    },
                },
            }
        }
    }

    /// Integer product of `count` activations with nibble weights, and the sum
    /// of the activations.
    pub open spec fn nibble_dot<G: Fn(FormatQuery) -> Result<u64, FormatError>>(
        self,
        g: G,
        row: int,
        col: int,
        start: int,
        count: int,
    ) -> Result<(int, int), ErrorView>
        decreases count,
    {
        if count <= 0 {
            Ok((0int, 0int))
        } else {
            let at = start + count - 1;
            match self.nibble_dot(g, row, col, start, count - 1) {
                Err(e) => Err(e),
                Ok((dot, sum)) => match self.w.nibble_value(g, col, at) {
                    Err(e) => Err(e),
                    Ok(q) => {
                        let xv = self.x.i8_at(row * self.w.k + at);
                        Ok((dot + xv * q, sum + xv))
                    },
                },
            }
        }
    }

    /// Number that an E4M3 activation stands for, before scaling.
    pub open spec fn x_e4m3<G: Fn(FormatQuery) -> Result<u64, FormatError>>(
        self,
        g: G,
        at: int,
    ) -> Result<u32, ErrorView> {
        answer_e4m3(g, self.x.byte_at(at), at)
    }

    /// Product of `count` E4M3 activations with E4M3 weights, before scaling.
    pub open spec fn e4m3_dot<
        F: Fn(FloatOp, u32, u32) -> u32,
        G: Fn(FormatQuery) -> Result<u64, FormatError>,
    >(self, f: F, g: G, row: int, col: int, start: int, count: int) -> Result<u32, ErrorView>
        decreases count,
    {
        if count <= 0 {
            Ok(0u32)
        } else {
            let at = start + count - 1;
            match self.e4m3_dot(f, g, row, col, start, count - 1) {
                Err(e) => Err(e),
                Ok(acc) => match self.x_e4m3(g, row * self.w.k + at) {
                    Err(e) => Err(e),
                    Ok(xv) => match self.w.e4m3_value(g, col, at) {
                        Err(e) => Err(e),
                        Ok(wv) => Ok(fp_add(f, acc, fp_mul(f, xv, wv))),
                    },
                },
            }
        }
    }

    /// Contribution of one block of `size` columns.
    pub open spec fn block_value<
        F: Fn(FloatOp, u32, u32) -> u32,
        G: Fn(FormatQuery) -> Result<u64, FormatError>,
    >(self, f: F, g: G, row: int, col: int, size: int, b: int) -> Result<u32, ErrorView> {
        let xs = self.x_scale(row, b);
        let start = b * size;
        match self.w.scheme {
            Some(SchemeId::I4K) => match self.w.part_value(f, g, col, b) {
                Err(e) => Err(e),
                Ok((s, m)) => match self.nibble_dot(g, row, col, start, size) {
                    Err(e) => Err(e),
                    Ok((dot, sum)) => Ok(
                        fp_mul(
                            f,
                            fp(
                                f,
                                FloatOp::Minus,
                                fp_mul(f, s, f32_of_int(dot)),
                                fp_mul(f, m, f32_of_int(sum)),
                            ),
                            xs,
                        ),
                    ),
                },
            },
            Some(SchemeId::E4M3B128) => match self.w.scale_value(g, col, b) {
                Err(e) => Err(e),
                Ok(s) => match self.e4m3_dot(f, g, row, col, start, size) {
                    Err(e) => Err(e),
                    Ok(dot) => Ok(fp_mul(f, dot, fp_mul(f, s, xs))),
                },
            },
            _ => match self.w.scale_value(g, col, record_of(self.w.scheme, start)) {
                Err(e) => Err(e),
                Ok(s) => match self.int_dot(g, row, col, start, size) {
                    Err(e) => Err(e),
                    Ok(dot) => Ok(fp_mul(f, f32_of_int(dot), fp_mul(f, s, xs))),
                },
            },
        }
    }

    /// Sum of the contributions of the first `count` blocks.
    pub open spec fn block_sum<
        F: Fn(FloatOp, u32, u32) -> u32,
        G: Fn(FormatQuery) -> Result<u64, FormatError>,
    >(self, f: F, g: G, row: int, col: int, size: int, count: int) -> Result<u32, ErrorView>
        decreases count,
    {
        if count <= 0 {
            Ok(0u32)
        } else {
            match self.block_sum(f, g, row, col, size, count - 1) {
                Err(e) => Err(e),
                Ok(acc) => match self.block_value(f, g, row, col, size, count - 1) {
                    Err(e) => Err(e),
                    Ok(v) => Ok(fp_add(f, acc, v)),
                },
            }
        }
    }

    /// Number that an activation stands for.
    pub open spec fn x_value<
        F: Fn(FloatOp, u32, u32) -> u32,
        G: Fn(FormatQuery) -> Result<u64, FormatError>,
    >(self, f: F, g: G, row: int, at: int) -> Result<u32, ErrorView> {
        let i = row * self.w.k + at;
        if self.x.dtype() == DType::I8 {
            Ok(fp_mul(f, f32_of_int(self.x.i8_at(i) as int), self.x_scale(row, at / 32)))
        } else if self.x.dtype() == DType::E4m3 {
            match self.x_e4m3(g, i) {
                Err(e) => Err(e),
                Ok(v) => Ok(fp_mul(f, v, self.x_scale(row, 0))),
            }
        } else {
            Ok(self.x.cells.f32_at(i))
        }
    }

    /// Product of the first `count` decoded activations and weights.
    pub open spec fn real_dot<
        F: Fn(FloatOp, u32, u32) -> u32,
        G: Fn(FormatQuery) -> Result<u64, FormatError>,
    >(self, f: F, g: G, row: int, col: int, count: int) -> Result<u32, ErrorView>
        decreases count,
    {
        if count <= 0 {
            Ok(0u32)
        } else {
            match self.real_dot(f, g, row, col, count - 1) {
                Err(e) => Err(e),
                Ok(acc) => match self.x_value(f, g, row, count - 1) {
                    Err(e) => Err(e),
                    Ok(xv) => match self.w.element(f, g, col, count - 1) {
                        Err(e) => Err(e),
                        Ok(wv) => Ok(fp_add(f, acc, fp_mul(f, xv, wv))),
                    },
                },
            }
        }
    }

    /// Columns per block, or zero if activations and weights are decoded
    /// element by element.
    pub open spec fn block_size(self) -> int {
        match (self.x.dtype(), self.x.quant, self.w.scheme) {
            (DType::I8, QuantScheme::PerToken, Some(SchemeId::I8R)) => self.w.k,
            (DType::I8, QuantScheme::PerToken, Some(SchemeId::I8B128)) => 128,
            (DType::I8, QuantScheme::PerToken, Some(SchemeId::I4K)) => 32,
            (DType::I8, QuantScheme::PerBlock32, Some(SchemeId::I8R)) => 32,
            (DType::I8, QuantScheme::PerBlock32, Some(SchemeId::I8B128)) => 32,
            (DType::I8, QuantScheme::PerBlock32, Some(SchemeId::I4K)) => 32,
            (DType::E4m3, QuantScheme::PerToken, Some(SchemeId::E4M3B128)) => 128,
            _ => 0,
        }
    }

    /// Whether one integer sum runs over all columns.
    pub open spec fn single_block(self) -> bool {
        self.x.dtype() == DType::I8 && self.x.quant == QuantScheme::PerToken && self.w.scheme
            == Some(SchemeId::I8R)
    }

    /// Sum of an output element.
    pub open spec fn total<
        F: Fn(FloatOp, u32, u32) -> u32,
        G: Fn(FormatQuery) -> Result<u64, FormatError>,
    >(self, f: F, g: G, row: int, col: int) -> Result<u32, ErrorView> {
        let size = self.block_size();
        if self.single_block() {
            self.block_value(f, g, row, col, size, 0)
        } else if size > 0 {
            self.block_sum(f, g, row, col, size, self.w.k / size)
        } else {
            self.real_dot(f, g, row, col, self.w.k)
        }
    }

    /// An output element from its sum.
    pub open spec fn finished<F: Fn(FloatOp, u32, u32) -> u32>(
        self,
        f: F,
        acc: u32,
        row: int,
        col: int,
    ) -> u32 {
        match self.epilogue {
            Epilogue::Plain => acc,
            Epilogue::Bias => fp_add(f, acc, self.bias->0.cells.f32_at(col)),
            Epilogue::Residual => fp_add(
                f,
                acc,
                self.residual->0.cells.f32_at(row * self.w.n + col),
            ),
            Epilogue::Act(kind) => activated(f, acc, kind),
        }
    }

    /// Output element at a flat index.
    pub open spec fn cell<
        F: Fn(FloatOp, u32, u32) -> u32,
        G: Fn(FormatQuery) -> Result<u64, FormatError>,
    >(self, f: F, g: G, i: int) -> Result<u32, ErrorView> {
        let row = i / self.w.n;
        let col = i % self.w.n;
        match self.total(f, g, row, col) {
            Err(e) => Err(e),
            Ok(acc) => Ok(self.finished(f, acc, row, col)),
        }
    }

    /// Number of leading elements among the first `i` that have a value.
    pub open spec fn computed<
        F: Fn(FloatOp, u32, u32) -> u32,
        G: Fn(FormatQuery) -> Result<u64, FormatError>,
    >(self, f: F, g: G, i: int) -> int
        decreases i,
    {
        if i <= 0 {
            0
        } else {
            let before = self.computed(f, g, i - 1);
            if before == i - 1 && self.cell(f, g, i - 1) is Ok {
                i
            } else {
                before
            }
        }
    }

    /// Number of output elements.
    pub open spec fn size(self) -> int {
        self.m * self.w.n
    }

    /// The elements that are computed before the first error.
    pub open spec fn values<
        F: Fn(FloatOp, u32, u32) -> u32,
        G: Fn(FormatQuery) -> Result<u64, FormatError>,
    >(self, f: F, g: G) -> Seq<u32> {
        Seq::new(
            self.computed(f, g, self.size()) as nat,
            |i: int| self.cell(f, g, i)->Ok_0,
        )
    }

    /// The first error of an element.
    pub open spec fn first_error<
        F: Fn(FloatOp, u32, u32) -> u32,
        G: Fn(FormatQuery) -> Result<u64, FormatError>,
    >(self, f: F, g: G) -> Option<ErrorView> {
        let n = self.computed(f, g, self.size());
        if n < self.size() {
            Some(self.cell(f, g, n)->Err_0)
        } else {
            None
        }
    }
}

/// The leading elements with a value end at the first without one.
pub proof fn lemma_computed<
    F: Fn(FloatOp, u32, u32) -> u32,
    G: Fn(FormatQuery) -> Result<u64, FormatError>,
>(a: GemmArgs, f: F, g: G, i: int, n: int)
    requires
        0 <= i <= n,
        a.computed(f, g, i) == i,
        i < n ==> a.cell(f, g, i) is Err,
    ensures
        a.computed(f, g, n) == i,
    decreases n - i,
{
    if n > i {
        lemma_stuck(a, f, g, i, n);
    }
}

proof fn lemma_stuck<
    F: Fn(FloatOp, u32, u32) -> u32,
    G: Fn(FormatQuery) -> Result<u64, FormatError>,
>(a: GemmArgs, f: F, g: G, i: int, n: int)
    requires
        0 <= i < n,
        a.computed(f, g, i) == i,
        a.cell(f, g, i) is Err,
    ensures
        a.computed(f, g, n) == i,
    decreases n,
{
    if n > i + 1 {
        lemma_stuck(a, f, g, i, n - 1);
    }
}

/// A matrix product that is ready to run.
pub struct Gemm<'a, 'b> {
    /// Activations.
    pub x: &'b TensorView<'a>,
    /// Activation scales.
    pub xs: Option<&'b TensorView<'a>>,
    /// Weights.
    pub w: &'b Weights<'a>,
    /// Bias of each column.
    pub bias: Option<&'b TensorView<'a>>,
    /// Residual of each element.
    pub residual: Option<&'b TensorView<'a>>,
    /// What follows the sums.
    pub epilogue: Epilogue,
    /// Rows of the activations.
    pub m: usize,
}

impl<'a, 'b> View for Gemm<'a, 'b> {
    type V = GemmArgs;

    open spec fn view(&self) -> GemmArgs {
        GemmArgs {
            x: self.x@,
            xs: opt_view(self.xs),
            w: self.w@,
            bias: opt_view(self.bias),
            residual: opt_view(self.residual),
            epilogue: self.epilogue,
            m: self.m as int,
        }
    }
}

impl<'a, 'b> Gemm<'a, 'b> {
    /// Flat position of an activation.
    fn x_index(&self, row: usize, at: usize) -> (r: usize)
        requires
            self@.wf(),
            row < self.m,
            at < self.w.k,
        ensures
            r == row * self.w.k + at,
            self.x@.cells.holds(r as int),
    {
        proof {
            lemma_flat_bound(row as int, self.m as int, at as int, self.w.k as int);
            lemma_backed_holds(self.x@, row * self.w.k + at);
            lemma_count_fits(self.x@);
        }
        row * self.w.k + at
    }

    /// Reads the scale of an activation block.
    fn x_scale_at(&self, row: usize, block: usize) -> (r: u32)
        requires
            self@.wf(),
            row < self.m,
            self.x@.quant == QuantScheme::PerToken || self.x@.quant == QuantScheme::PerBlock32,
            self.x@.quant == QuantScheme::PerBlock32 ==> block < self.w.k / 32,
        ensures
            r == self@.x_scale(row as int, block as int),
    {
        match self.xs {
            Some(xs) => {
                if self.x.quant() == QuantScheme::PerBlock32 {
                    proof {
                        lemma_flat_bound(
                            row as int,
                            self.m as int,
                            block as int,
                            self.w.k as int / 32,
                        );
                        lemma_backed_holds(xs@, row * (self.w.k as int / 32) + block);
                        lemma_count_fits(xs@);
                    }
                    xs.read_f32(row * (self.w.k / 32) + block)
                } else {
                    proof {
                        lemma_backed_holds(xs@, row as int);
                    }
                    xs.read_f32(row)
                }
            },
            None => 0,
        }
    }

    /// Integer product of `count` activations with signed-byte weights.
    fn int_dot_at<G: Fn(FormatQuery) -> Result<u64, FormatError>>(
        &self,
        g: &G,
        row: usize,
        col: usize,
        start: usize,
        count: usize,
    ) -> (r: Result<i32, T0Error>)
        requires
            is_format(*g),
            self@.wf(),
            self.w.scheme is Some,
            self.w.scheme != Some(SchemeId::I4K),
            row < self.m,
            col < self.w.n,
            start + count <= self.w.k,
        ensures
            match r {
                Ok(v) => self@.int_dot(*g, row as int, col as int, start as int, count as int)
                    == Ok::<int, ErrorView>(v as int),
                Err(e) => self@.int_dot(
                    *g,
                    row as int,
                    col as int,
                    start as int,
                    count as int,
                ) == Err::<int, ErrorView>(e.view()),
            },
    {
        let mut acc: i32 = 0;
        for i in 0..count
            invariant
                is_format(*g),
                self@.wf(),
                self.w.scheme is Some,
                self.w.scheme != Some(SchemeId::I4K),
                row < self.m,
                col < self.w.n,
                start + count <= self.w.k,
                self@.int_dot(*g, row as int, col as int, start as int, i as int) == Ok::<
                    int,
                    ErrorView,
                >(acc as int),
        {
            let at: usize = start + i;
            let b: u8 = match self.w.byte_at(g, col, at) {
                Ok(v) => v,
                Err(e) => {
                    proof {
                        lemma_int_dot_err(
                            self@,
                            *g,
                            row as int,
                            col as int,
                            start as int,
                            i + 1,
                            count as int,
                            e.view(),
                        );
                    }
                    return Err(e);
                },
            };
            let xi: usize = self.x_index(row, at);
            let xv: i32 = self.x.read_i8(xi) as i32;
            let wv: i32 = signed_byte(b) as i32;
            proof {
                assert(-16384 <= xv * wv <= 16384) by (nonlinear_arith)
                    requires
                        -128 <= xv <= 127,
                        -128 <= wv <= 127,
                ;
            }
            match acc.checked_add(xv * wv) {
                Some(v) => {
                    acc = v;
                },
                None => {
                    let e = overflow(
                        "matmul",
                        Detail::three(
                            "i32 accumulation overflow at m={}, n={}, k={}",
                            Arg::Int(row as u64),
                            Arg::Int(col as u64),
                            Arg::Int(at as u64),
                        ),
                    );
                    proof {
                        lemma_int_dot_err(
                            self@,
                            *g,
                            row as int,
                            col as int,
                            start as int,
                            i + 1,
                            count as int,
                            e.view(),
                        );
                    }
                    return Err(e);
                },
            }
        }
        Ok(acc)
    }

    /// Integer product of 32 activations with nibble weights, and the sum of
    /// the activations.
    fn nibble_dot_at<G: Fn(FormatQuery) -> Result<u64, FormatError>>(&self, g: &G, row: usize, col: usize, start: usize) -> (r: Result<
        (i32, i32),
        T0Error,
    >)
        requires
            is_format(*g),
            self@.wf(),
            self.w.scheme == Some(SchemeId::I4K),
            row < self.m,
            col < self.w.n,
            start + 32 <= self.w.k,
        ensures
            match r {
                Ok(v) => self@.nibble_dot(*g, row as int, col as int, start as int, 32) == Ok::<
                    (int, int),
                    ErrorView,
                >((v.0 as int, v.1 as int)),
                Err(e) => self@.nibble_dot(*g, row as int, col as int, start as int, 32) == Err::<
                    (int, int),
                    ErrorView,
                >(e.view()),
            },
    {
        let mut dot: i32 = 0;
        let mut sum: i32 = 0;
        for i in 0..32usize
            invariant
                is_format(*g),
                self@.wf(),
                self.w.scheme == Some(SchemeId::I4K),
                row < self.m,
                col < self.w.n,
                start + 32 <= self.w.k,
                -2000 * i <= dot <= 2000 * i,
                -128 * i <= sum <= 128 * i,
                self@.nibble_dot(*g, row as int, col as int, start as int, i as int) == Ok::<
                    (int, int),
                    ErrorView,
                >((dot as int, sum as int)),
        {
            let at: usize = start + i;
            let q: u8 = match self.w.nibble_at(g, col, at) {
                Ok(v) => v,
                Err(e) => {
                    proof {
                        lemma_nibble_dot_err(
                            self@,
                            *g,
                            row as int,
                            col as int,
                            start as int,
                            i + 1,
                            32,
                            e.view(),
                        );
                    }
                    return Err(e);
                },
            };
            let xi: usize = self.x_index(row, at);
            let xv: i32 = self.x.read_i8(xi) as i32;
            let qv: i32 = q as i32;
            proof {
                assert(-2000 <= xv * qv <= 2000) by (nonlinear_arith)
                    requires
                        -128 <= xv <= 127,
                        0 <= qv < 16,
                ;
            }
            dot = dot + xv * qv;
            sum = sum + xv;
        }
        Ok((dot, sum))
    }

    /// Decodes an E4M3 activation.
    fn x_e4m3_at<G: Fn(FormatQuery) -> Result<u64, FormatError>>(&self, g: &G, xi: usize) -> (r: Result<u32, T0Error>)
        requires
            is_format(*g),
            self.x@.cells.holds(xi as int),
            self.x@.dtype() == DType::E4m3,
        ensures
            outcome(r) == self@.x_e4m3(*g, xi as int),
    {
        let byte: u8 = self.x.read_byte(xi);
        ask_e4m3(g, byte, xi)
    }

    /// Product of E4M3 activations with E4M3 weights, before scaling.
    fn e4m3_dot_at<F: Fn(FloatOp, u32, u32) -> u32, G: Fn(FormatQuery) -> Result<u64, FormatError>>(&self, f: &F, g: &G, row: usize, col: usize, start: usize, count: usize)
        -> (r: Result<u32, T0Error>)
        requires
            is_arith(*f),
            is_format(*g),
            self@.wf(),
            self.x@.dtype() == DType::E4m3,
            self.w.scheme is Some,
            self.w.scheme != Some(SchemeId::I4K),
            row < self.m,
            col < self.w.n,
            start + count <= self.w.k,
        ensures
            outcome(r) == self@.e4m3_dot(
                *f,
                *g,
                row as int,
                col as int,
                start as int,
                count as int,
            ),
    {
        let mut acc: u32 = 0;
        for i in 0..count
            invariant
                is_arith(*f),
                is_format(*g),
                self@.wf(),
                self.x@.dtype() == DType::E4m3,
                self.w.scheme is Some,
                self.w.scheme != Some(SchemeId::I4K),
                row < self.m,
                col < self.w.n,
                start + count <= self.w.k,
                self@.e4m3_dot(*f, *g, row as int, col as int, start as int, i as int) == Ok::<
                    u32,
                    ErrorView,
                >(acc),
        {
            let at: usize = start + i;
            let xi: usize = self.x_index(row, at);
            let xv: u32 = match self.x_e4m3_at(g, xi) {
                Ok(v) => v,
                Err(e) => {
                    proof {
                        lemma_e4m3_dot_err(
                            self@,
                            *f,
                            *g,
                            row as int,
                            col as int,
                            start as int,
                            i + 1,
                            count as int,
                            e.view(),
                        );
                    }
                    return Err(e);
                },
            };
            let wv: u32 = match self.w.e4m3_at(g, col, at) {
                Ok(v) => v,
                Err(e) => {
                    proof {
                        lemma_e4m3_dot_err(
                            self@,
                            *f,
                            *g,
                            row as int,
                            col as int,
                            start as int,
                            i + 1,
                            count as int,
                            e.view(),
                        );
                    }
                    return Err(e);
                },
            };
            acc = plus(f, acc, times(f, xv, wv));
        }
        Ok(acc)
    }

    /// Contribution of one block of `size` columns.
    fn block_value_at<F: Fn(FloatOp, u32, u32) -> u32, G: Fn(FormatQuery) -> Result<u64, FormatError>>(&self, f: &F, g: &G, row: usize, col: usize, size: usize, b: usize)
        -> (r: Result<u32, T0Error>)
        requires
            is_arith(*f),
            is_format(*g),
            self@.wf(),
            self@.block_size() == size,
            size > 0,
            row < self.m,
            col < self.w.n,
            b < self.w.k / size,
        ensures
            outcome(r) == self@.block_value(
                *f,
                *g,
                row as int,
                col as int,
                size as int,
                b as int,
            ),
    {
        proof {
            let k = self.w.k as int;
            vstd::arithmetic::div_mod::lemma_fundamental_div_mod(k, size as int);
            assert(b * size + size <= k) by (nonlinear_arith)
                requires
                    b + 1 <= k / size as int,
                    k == size * (k / size as int) + k % size as int,
                    k % size as int >= 0,
                    size > 0,
            ;
            assert(0 <= b * size) by (nonlinear_arith)
                requires
                    0 <= b,
                    0 < size,
            ;
        }
        let start: usize = b * size;
        let xs: u32 = self.x_scale_at(row, b);
        match self.w.scheme {
            Some(SchemeId::I4K) => {
                let sm: (u32, u32) = match self.w.part_at(f, g, col, b) {
                    Ok(v) => v,
                    Err(e) => {
                        return Err(e);
                    },
                };
                let ds: (i32, i32) = match self.nibble_dot_at(g, row, col, start) {
                    Ok(v) => v,
                    Err(e) => {
                        return Err(e);
                    },
                };
                let scaled: u32 = times(f, sm.0, i32_to_f32(ds.0));
                let shift: u32 = times(f, sm.1, i32_to_f32(ds.1));
                Ok(times(f, compute(f, FloatOp::Minus, scaled, shift), xs))
            },
            Some(SchemeId::E4M3B128) => {
                let s: u32 = match self.w.scale_at(g, col, b) {
                    Ok(v) => v,
                    Err(e) => {
                        return Err(e);
                    },
                };
                let dot: u32 = match self.e4m3_dot_at(f, g, row, col, start, size) {
                    Ok(v) => v,
                    Err(e) => {
                        return Err(e);
                    },
                };
                Ok(times(f, dot, times(f, s, xs)))
            },
            _ => {
                let record: usize = match self.w.scheme {
                    Some(SchemeId::I8B128) => start / 128,
                    _ => 0,
                };
                let s: u32 = match self.w.scale_at(g, col, record) {
                    Ok(v) => v,
                    Err(e) => {
                        return Err(e);
                    },
                };
                let dot: i32 = match self.int_dot_at(g, row, col, start, size) {
                    Ok(v) => v,
                    Err(e) => {
                        return Err(e);
                    },
                };
                Ok(times(f, i32_to_f32(dot), times(f, s, xs)))
            },
        }
    }

    /// Sum of the contributions of all blocks.
    #[verifier::spinoff_prover]
    #[verifier::rlimit(60)]
    fn block_sum_at<F: Fn(FloatOp, u32, u32) -> u32, G: Fn(FormatQuery) -> Result<u64, FormatError>>(&self, f: &F, g: &G, row: usize, col: usize, size: usize) -> (r: Result<
        u32,
        T0Error,
    >)
        requires
            is_arith(*f),
            is_format(*g),
            self@.wf(),
            self@.block_size() == size,
            size > 0,
            row < self.m,
            col < self.w.n,
        ensures
            outcome(r) == self@.block_sum(
                *f,
                *g,
                row as int,
                col as int,
                size as int,
                self.w.k as int / size as int,
            ),
    {
        let mut acc: u32 = 0;
        let count: usize = self.w.k / size;
        for b in 0..count
            invariant
                is_arith(*f),
                is_format(*g),
                self@.wf(),
                self@.block_size() == size,
                size > 0,
                row < self.m,
                col < self.w.n,
                count == self.w.k / size,
                self@.block_sum(*f, *g, row as int, col as int, size as int, b as int) == Ok::<
                    u32,
                    ErrorView,
                >(acc),
        {
            let v: u32 = match self.block_value_at(f, g, row, col, size, b) {
                Ok(v) => v,
                Err(e) => {
                    proof {
                        lemma_block_sum_err(
                            self@,
                            *f,
                            *g,
                            row as int,
                            col as int,
                            size as int,
                            b + 1,
                            count as int,
                            e.view(),
                        );
                    }
                    return Err(e);
                },
            };
            acc = plus(f, acc, v);
        }
        Ok(acc)
    }

    /// Decodes an activation.
    fn x_value_at<F: Fn(FloatOp, u32, u32) -> u32, G: Fn(FormatQuery) -> Result<u64, FormatError>>(&self, f: &F, g: &G, row: usize, at: usize) -> (r: Result<u32, T0Error>)
        requires
            is_arith(*f),
            is_format(*g),
            self@.wf(),
            row < self.m,
            at < self.w.k,
        ensures
            outcome(r) == self@.x_value(*f, *g, row as int, at as int),
    {
        let xi: usize = self.x_index(row, at);
        match self.x.dtype() {
            DType::I8 => {
                let q: u32 = i32_to_f32(self.x.read_i8(xi) as i32);
                Ok(times(f, q, self.x_scale_at(row, at / 32)))
            },
            DType::E4m3 => {
                let v: u32 = match self.x_e4m3_at(g, xi) {
                    Ok(v) => v,
                    Err(e) => {
                        return Err(e);
                    },
                };
                Ok(times(f, v, self.x_scale_at(row, 0)))
            },
            _ => Ok(self.x.read_f32(xi)),
        }
    }

    /// Product of all decoded activations and weights.
    fn real_dot_at<F: Fn(FloatOp, u32, u32) -> u32, G: Fn(FormatQuery) -> Result<u64, FormatError>>(&self, f: &F, g: &G, row: usize, col: usize) -> (r: Result<u32, T0Error>)
        requires
            is_arith(*f),
            is_format(*g),
            self@.wf(),
            row < self.m,
            col < self.w.n,
        ensures
            outcome(r) == self@.real_dot(*f, *g, row as int, col as int, self.w.k as int),
    {
        let mut acc: u32 = 0;
        let k: usize = self.w.k;
        for at in 0..k
            invariant
                is_arith(*f),
                is_format(*g),
                self@.wf(),
                row < self.m,
                col < self.w.n,
                k == self.w.k,
                self@.real_dot(*f, *g, row as int, col as int, at as int) == Ok::<u32, ErrorView>(
                    acc,
                ),
        {
            let xv: u32 = match self.x_value_at(f, g, row, at) {
                Ok(v) => v,
                Err(e) => {
                    proof {
                        lemma_real_dot_err(
                            self@,
                            *f,
                            *g,
                            row as int,
                            col as int,
                            at + 1,
                            k as int,
                            e.view(),
                        );
                    }
                    return Err(e);
                },
            };
            let wv: u32 = match self.w.element_at(f, g, col, at) {
                Ok(v) => v,
                Err(e) => {
                    proof {
                        lemma_real_dot_err(
                            self@,
                            *f,
                            *g,
                            row as int,
                            col as int,
                            at + 1,
                            k as int,
                            e.view(),
                        );
                    }
                    return Err(e);
                },
            };
            acc = plus(f, acc, times(f, xv, wv));
        }
        Ok(acc)
    }

    /// Columns per block, or zero.
    fn block_columns(&self) -> (r: usize)
        ensures
            r == self@.block_size(),
    {
        match (self.x.dtype(), self.x.quant(), self.w.scheme) {
            (DType::I8, QuantScheme::PerToken, Some(SchemeId::I8R)) => self.w.k,
            (DType::I8, QuantScheme::PerToken, Some(SchemeId::I8B128)) => 128,
            (DType::I8, QuantScheme::PerToken, Some(SchemeId::I4K)) => 32,
            (DType::I8, QuantScheme::PerBlock32, Some(SchemeId::I8R)) => 32,
            (DType::I8, QuantScheme::PerBlock32, Some(SchemeId::I8B128)) => 32,
            (DType::I8, QuantScheme::PerBlock32, Some(SchemeId::I4K)) => 32,
            (DType::E4m3, QuantScheme::PerToken, Some(SchemeId::E4M3B128)) => 128,
            _ => 0,
        }
    }

    /// Sum of an output element.
    fn total_at<F: Fn(FloatOp, u32, u32) -> u32, G: Fn(FormatQuery) -> Result<u64, FormatError>>(&self, f: &F, g: &G, row: usize, col: usize) -> (r: Result<u32, T0Error>)
        requires
            is_arith(*f),
            is_format(*g),
            self@.wf(),
            row < self.m,
            col < self.w.n,
        ensures
            outcome(r) == self@.total(*f, *g, row as int, col as int),
    {
        let size: usize = self.block_columns();
        let single: bool = self.x.dtype() == DType::I8 && self.x.quant() == QuantScheme::PerToken
            && self.w.scheme == Some(SchemeId::I8R);
        if single {
            assert(self.w.k as int / self.w.k as int == 1);
            self.block_value_at(f, g, row, col, size, 0)
        } else if size > 0 {
            self.block_sum_at(f, g, row, col, size)
        } else {
            self.real_dot_at(f, g, row, col)
        }
    }

    /// Applies what follows the sums.
    fn apply_epilogue<F: Fn(FloatOp, u32, u32) -> u32>(&self, f: &F, acc: u32, row: usize, col: usize) -> (r: u32)
        requires
            is_arith(*f),
            self@.wf(),
            row < self.m,
            col < self.w.n,
        ensures
            r == self@.finished(*f, acc, row as int, col as int),
    {
        match self.epilogue {
            Epilogue::Plain => acc,
            Epilogue::Bias => match self.bias {
                Some(b) => {
                    proof {
                        lemma_backed_holds(b@, col as int);
                    }
                    plus(f, acc, b.read_f32(col))
                },
                None => acc,
            },
            Epilogue::Residual => match self.residual {
                Some(r) => {
                    proof {
                        lemma_flat_bound(row as int, self.m as int, col as int, self.w.n as int);
                        lemma_backed_holds(r@, row * self.w.n + col);
                    }
                    plus(f, acc, r.read_f32(row * self.w.n + col))
                },
                None => acc,
            },
            Epilogue::Act(kind) => eval_activation_f32(f, acc, kind),
        }
    }

    /// Computes the output elements in order, up to the first error.
    #[verifier::spinoff_prover]
    #[verifier::rlimit(60)]
    pub fn run<F: Fn(FloatOp, u32, u32) -> u32, G: Fn(FormatQuery) -> Result<u64, FormatError>>(&self, f: &F, g: &G) -> (r: (Vec<u32>, Option<T0Error>))
        requires
            is_arith(*f),
            is_format(*g),
            self@.wf(),
        ensures
            r.0@ == self@.values(*f, *g),
            match r.1 {
                None => self@.first_error(*f, *g) is None,
                Some(e) => self@.first_error(*f, *g) == Some(e.view()),
            },
    {
        let n: usize = self.w.n;
        let mut out: Vec<u32> = Vec::new();
        assert(0 * n == 0) by (nonlinear_arith);
        for row in 0..self.m
            invariant
                is_arith(*f),
                is_format(*g),
                self@.wf(),
                n == self.w.n,
                out@.len() == row * n,
                self@.computed(*f, *g, row * n) == row * n,
                forall|i: int|
                    0 <= i < out@.len() ==> self@.cell(*f, *g, i) == Ok::<u32, ErrorView>(
                        #[trigger] out@[i],
                    ),
        {
            for col in 0..n
                invariant
                    is_arith(*f),
                    is_format(*g),
                    self@.wf(),
                    n == self.w.n,
                    row < self.m,
                    out@.len() == row * n + col,
                    self@.computed(*f, *g, row * n + col) == row * n + col,
                    forall|i: int|
                        0 <= i < out@.len() ==> self@.cell(*f, *g, i) == Ok::<u32, ErrorView>(
                            #[trigger] out@[i],
                        ),
            {
                proof {
                    lemma_split(row as int, col as int, n as int);
                    lemma_flat_bound(row as int, self.m as int, col as int, n as int);
                }
                let acc: u32 = match self.total_at(f, g, row, col) {
                    Ok(v) => v,
                    Err(e) => {
                        proof {
                            let i = row * n + col;
                            assert(self@.cell(*f, *g, i) == Err::<u32, ErrorView>(e.view()));
                            lemma_computed(self@, *f, *g, i, self@.size());
                            assert(out@ =~= self@.values(*f, *g));
                        }
                        return (out, Some(e));
                    },
                };
                let v: u32 = self.apply_epilogue(f, acc, row, col);
                proof {
                    assert(self@.cell(*f, *g, row * n + col) == Ok::<u32, ErrorView>(v));
                }
                out.push(v);
            }
            assert((row + 1) * n == row * n + n) by (nonlinear_arith);
        }
        assert(out@ =~= self@.values(*f, *g));
        (out, None)
    }
}

/// Once a partial result is an error, it stays that error.
proof fn lemma_int_dot_err<G: Fn(FormatQuery) -> Result<u64, FormatError>>(
    a: GemmArgs,
    g: G,
    row: int,
    col: int,
    start: int,
    n: int,
    count: int,
    e: ErrorView,
)
    requires
        1 <= n <= count,
        a.int_dot(g, row, col, start, n) == Err::<int, ErrorView>(e),
    ensures
        a.int_dot(g, row, col, start, count) == Err::<int, ErrorView>(e),
    decreases count - n,
{
    if n < count {
        lemma_int_dot_err(a, g, row, col, start, n + 1, count, e);
    }
}

/// Once a partial result is an error, it stays that error.
proof fn lemma_nibble_dot_err<G: Fn(FormatQuery) -> Result<u64, FormatError>>(
    a: GemmArgs,
    g: G,
    row: int,
    col: int,
    start: int,
    n: int,
    count: int,
    e: ErrorView,
)
    requires
        1 <= n <= count,
        a.nibble_dot(g, row, col, start, n) == Err::<(int, int), ErrorView>(e),
    ensures
        a.nibble_dot(g, row, col, start, count) == Err::<(int, int), ErrorView>(e),
    decreases count - n,
{
    if n < count {
        lemma_nibble_dot_err(a, g, row, col, start, n + 1, count, e);
    }
}

/// Once a partial result is an error, it stays that error.
proof fn lemma_e4m3_dot_err<F: Fn(FloatOp, u32, u32) -> u32, G: Fn(FormatQuery) -> Result<u64, FormatError>>(
    a: GemmArgs,
    f: F,
    g: G,
    row: int,
    col: int,
    start: int,
    n: int,
    count: int,
    e: ErrorView,
)
    requires
        1 <= n <= count,
        a.e4m3_dot(f, g, row, col, start, n) == Err::<u32, ErrorView>(e),
    ensures
        a.e4m3_dot(f, g, row, col, start, count) == Err::<u32, ErrorView>(e),
    decreases count - n,
{
    if n < count {
        lemma_e4m3_dot_err(a, f, g, row, col, start, n + 1, count, e);
    }
}

/// Once a partial result is an error, it stays that error.
proof fn lemma_block_sum_err<F: Fn(FloatOp, u32, u32) -> u32, G: Fn(FormatQuery) -> Result<u64, FormatError>>(
    a: GemmArgs,
    f: F,
    g: G,
    row: int,
    col: int,
    size: int,
    n: int,
    count: int,
    e: ErrorView,
)
    requires
        1 <= n <= count,
        a.block_sum(f, g, row, col, size, n) == Err::<u32, ErrorView>(e),
    ensures
        a.block_sum(f, g, row, col, size, count) == Err::<u32, ErrorView>(e),
    decreases count - n,
{
    if n < count {
        lemma_block_sum_err(a, f, g, row, col, size, n + 1, count, e);
    }
}

/// Once a partial result is an error, it stays that error.
proof fn lemma_real_dot_err<F: Fn(FloatOp, u32, u32) -> u32, G: Fn(FormatQuery) -> Result<u64, FormatError>>(
    a: GemmArgs,
    f: F,
    g: G,
    row: int,
    col: int,
    n: int,
    count: int,
    e: ErrorView,
)
    requires
        1 <= n <= count,
        a.real_dot(f, g, row, col, n) == Err::<u32, ErrorView>(e),
    ensures
        a.real_dot(f, g, row, col, count) == Err::<u32, ErrorView>(e),
    decreases count - n,
{
    if n < count {
        lemma_real_dot_err(a, f, g, row, col, n + 1, count, e);
    }
}

} // verus!
