//! Reference in double precision for the feed-forward of experts.
use vstd::prelude::*;
use crate::buffer::{extent, lemma_extent2, lemma_extent3, lemma_extent4};
use crate::check::{clear, fault_of, given, no_problems, or_fault, push_when};
use crate::double::{
    activated, add_up, dp_add, dp_mul, eval_activation_f64, is_double, multiply, DoubleOp,
};
use crate::error::{plain, quoting, views, Arg, Detail, ErrorView, T0Error};
use crate::index::{lemma_flat_bound, lemma_mul_nonneg, lemma_split};
use crate::ir::ActivationKind;
use crate::reference_state::{check_len, check_size, len_faults, size_fault};

verus! {

/// Operands of the reference.
pub struct MoeRef {
    /// Input rows.
    pub x: Seq<u64>,
    /// Experts of each token.
    pub ids: Seq<u32>,
    /// Weights of the experts of each token.
    pub weights: Seq<u64>,
    /// Joint projections: gating rows, then linear rows, of each expert.
    pub gate_up: Seq<u64>,
    /// Projections back of each expert.
    pub down: Seq<u64>,
    /// Number of tokens.
    pub t: usize,
    /// Width of an input row.
    pub dm: usize,
    /// Number of experts of a token.
    pub k: usize,
    /// Number of experts.
    pub e: usize,
    /// Width of a hidden row.
    pub dff: usize,
    /// Activation of the gating values.
    pub act: ActivationKind,
}

/// Problems of the first ids that name no expert.
pub open spec fn expert_faults(ids: Seq<u32>, e: usize, n: int) -> Seq<ErrorView>
    decreases n,
{
    if n <= 0 {
        Seq::empty()
    } else {
        expert_faults(ids, e, n - 1) + given(
            ids[n - 1] >= e,
            ErrorView::RowIndexOutOfRange {
                op: "moe_ffn",
                tensor: "expert_ids",
                position: (n - 1) as usize,
                index: ids[n - 1],
                upper_bound: e,
            },
        )
    }
}

impl MoeRef {
    /// The error of extents that overflow.
    pub open spec fn size_fault(self) -> Option<ErrorView> {
        let op = "moe_ffn";
        or_fault(
            or_fault(
                or_fault(
                    size_fault(
                        op,
                        seq![self.t, self.dm],
                        quoting(
                            "T * Dm overflows usize for T={}, Dm={}",
                            seq![Arg::Int(self.t as u64), Arg::Int(self.dm as u64)],
                        ),
                    ),
                    size_fault(
                        op,
                        seq![self.t, self.k],
                        quoting(
                            "T * K overflows usize for T={}, K={}",
                            seq![Arg::Int(self.t as u64), Arg::Int(self.k as u64)],
                        ),
                    ),
                ),
                size_fault(
                    op,
                    seq![self.e, 2, self.dff, self.dm],
                    plain("E * 2Dff * Dm overflows usize"),
                ),
            ),
            size_fault(
                op,
                seq![self.e, self.dm, self.dff],
                plain("E * Dm * Dff overflows usize"),
            ),
        )
    }

    /// Problems of the lengths and of the ids.
    pub open spec fn operand_faults(self) -> Seq<ErrorView> {
        let op = "moe_ffn";
        clear() + len_faults(
            op,
            "x",
            extent(seq![self.t, self.dm])->0,
            self.x.len() as usize,
            "x length must equal T * Dm",
        ) + len_faults(
            op,
            "expert_ids",
            extent(seq![self.t, self.k])->0,
            self.ids.len() as usize,
            "expert_ids length must equal T * K",
        ) + len_faults(
            op,
            "weights",
            extent(seq![self.t, self.k])->0,
            self.weights.len() as usize,
            "weights length must equal T * K",
        ) + len_faults(
            op,
            "w_gate_up",
            extent(seq![self.e, 2, self.dff, self.dm])->0,
            self.gate_up.len() as usize,
            "w_gate_up length must equal E * 2Dff * Dm",
        ) + len_faults(
            op,
            "w_down",
            extent(seq![self.e, self.dm, self.dff])->0,
            self.down.len() as usize,
            "w_down length must equal E * Dm * Dff",
        ) + expert_faults(self.ids, self.e, self.ids.len() as int)
    }

    /// The error of operands that do not fit.
    pub open spec fn fault(self) -> Option<ErrorView> {
        or_fault(self.size_fault(), fault_of(self.operand_faults()))
    }

    /// Whether the operands fit.
    pub open spec fn fits(self) -> bool {
        &&& self.x.len() == self.t * self.dm
        &&& self.ids.len() == self.t * self.k
        &&& self.weights.len() == self.t * self.k
        &&& self.gate_up.len() == self.e * 2 * self.dff * self.dm
        &&& self.down.len() == self.e * self.dm * self.dff
        &&& forall|i: int| 0 <= i < self.ids.len() ==> (#[trigger] self.ids[i]) < self.e
    }

    /// Sum of the first products of an input row with a row of an expert's joint
    /// projection.
    pub open spec fn projected<E: Fn(DoubleOp, u64, u64) -> u64>(
        self,
        f: E,
        tok: int,
        expert: int,
        row: int,
        n: int,
    ) -> u64
        decreases n,
    {
        if n <= 0 {
            0
        } else {
            dp_add(
                f,
                self.projected(f, tok, expert, row, n - 1),
                dp_mul(
                    f,
                    self.x[tok * self.dm + n - 1],
                    self.gate_up[(expert * 2 * self.dff + row) * self.dm + n - 1],
                ),
            )
        }
    }

    /// Element of the hidden row of a token at an expert.
    pub open spec fn hidden<E: Fn(DoubleOp, u64, u64) -> u64>(
        self,
        f: E,
        tok: int,
        expert: int,
        d: int,
    ) -> u64 {
        dp_mul(
            f,
            activated(f, self.projected(f, tok, expert, d, self.dm as int), self.act),
            self.projected(f, tok, expert, self.dff + d, self.dm as int),
        )
    }

    /// Sum of the first products of a hidden row with a row of an expert's
    /// projection back.
    pub open spec fn answer<E: Fn(DoubleOp, u64, u64) -> u64>(
        self,
        f: E,
        tok: int,
        expert: int,
        d: int,
        n: int,
    ) -> u64
        decreases n,
    {
        if n <= 0 {
            0
        } else {
            dp_add(
                f,
                self.answer(f, tok, expert, d, n - 1),
                dp_mul(
                    f,
                    self.hidden(f, tok, expert, n - 1),
                    self.down[(expert * self.dm + d) * self.dff + n - 1],
                ),
            )
        }
    }

    /// An output after the first experts, and the first places of the next one:
    /// the answers of a token's experts are added in the order of experts, then
    /// of places.
    pub open spec fn combined<E: Fn(DoubleOp, u64, u64) -> u64>(
        self,
        f: E,
        tok: int,
        d: int,
        expert: int,
        place: int,
    ) -> u64
        decreases expert, place,
    {
        if place > 0 {
            let before = self.combined(f, tok, d, expert, place - 1);
            let i = tok * self.k + place - 1;
            if self.ids[i] == expert {
                dp_add(
                    f,
                    before,
                    dp_mul(f, self.weights[i], self.answer(f, tok, expert, d, self.dff as int)),
                )
            } else {
                before
            }
        } else if expert > 0 {
            self.combined(f, tok, d, expert - 1, self.k as int)
        } else {
            0
        }
    }

    /// Output at a flat index.
    pub open spec fn output_at<E: Fn(DoubleOp, u64, u64) -> u64>(self, f: E, p: int) -> u64 {
        self.combined(f, p / self.dm as int, p % self.dm as int, self.e as int, 0)
    }
}

/// Slices of the operands of the reference.
struct MoeSlices<'a> {
    x: &'a [u64],
    ids: &'a [u32],
    weights: &'a [u64],
    gate_up: &'a [u64],
    down: &'a [u64],
    t: usize,
    dm: usize,
    k: usize,
    e: usize,
    dff: usize,
    act: ActivationKind,
}

impl<'a> MoeSlices<'a> {
    spec fn value(self) -> MoeRef {
        MoeRef {
            x: self.x@,
            ids: self.ids@,
            weights: self.weights@,
            gate_up: self.gate_up@,
            down: self.down@,
            t: self.t,
            dm: self.dm,
            k: self.k,
            e: self.e,
            dff: self.dff,
            act: self.act,
        }
    }

    /// Checks the extents, lengths and ids.
    fn check(&self) -> (r: Result<(), T0Error>)
        ensures
            match r {
                Err(f) => self.value().fault() == Some(f.view()),
                Ok(_) => self.value().fault() is None && self.value().fits(),
            },
    {
        let op = "moe_ffn";
        let (t, dm, k, e, dff) = (self.t, self.dm, self.k, self.e, self.dff);
        let dims = vec![t, dm];
        assert(dims@ =~= seq![t, dm]);
        let detail = Detail::two(
            "T * Dm overflows usize for T={}, Dm={}",
            Arg::Int(t as u64),
            Arg::Int(dm as u64),
        );
        let tdm: usize = match check_size(op, dims.as_slice(), detail) {
            Ok(n) => n,
            Err(f) => {
                return Err(f);
            },
        };
        let dims = vec![t, k];
        assert(dims@ =~= seq![t, k]);
        let detail = Detail::two(
            "T * K overflows usize for T={}, K={}",
            Arg::Int(t as u64),
            Arg::Int(k as u64),
        );
        let tk: usize = match check_size(op, dims.as_slice(), detail) {
            Ok(n) => n,
            Err(f) => {
                return Err(f);
            },
        };
        let dims = vec![e, 2, dff, dm];
        assert(dims@ =~= seq![e, 2, dff, dm]);
        let joint: usize = match check_size(
            op,
            dims.as_slice(),
            Detail::plain("E * 2Dff * Dm overflows usize"),
        ) {
            Ok(n) => n,
            Err(f) => {
                return Err(f);
            },
        };
        let dims = vec![e, dm, dff];
        assert(dims@ =~= seq![e, dm, dff]);
        let back: usize = match check_size(
            op,
            dims.as_slice(),
            Detail::plain("E * Dm * Dff overflows usize"),
        ) {
            Ok(n) => n,
            Err(f) => {
                return Err(f);
            },
        };
        let mut problems = no_problems();
        check_len(&mut problems, op, "x", tdm, self.x.len(), "x length must equal T * Dm");
        check_len(
            &mut problems,
            op,
            "expert_ids",
            tk,
            self.ids.len(),
            "expert_ids length must equal T * K",
        );
        check_len(
            &mut problems,
            op,
            "weights",
            tk,
            self.weights.len(),
            "weights length must equal T * K",
        );
        check_len(
            &mut problems,
            op,
            "w_gate_up",
            joint,
            self.gate_up.len(),
            "w_gate_up length must equal E * 2Dff * Dm",
        );
        check_len(
            &mut problems,
            op,
            "w_down",
            back,
            self.down.len(),
            "w_down length must equal E * Dm * Dff",
        );
        self.check_ids(&mut problems);
        assert(views(problems@) =~= self.value().operand_faults());
        match T0Error::from_problems(problems) {
            Ok(()) => {},
            Err(f) => {
                return Err(f);
            },
        }
        proof {
            lemma_extent2(seq![t, dm]);
            lemma_extent2(seq![t, k]);
            lemma_extent4(seq![e, 2, dff, dm]);
            lemma_extent3(seq![e, dm, dff]);
            lemma_no_expert_faults(self.ids@, e, self.ids@.len() as int);
        }
        Ok(())
    }

    fn check_ids(&self, problems: &mut Vec<T0Error>)
        ensures
            views(final(problems)@) == views(old(problems)@) + expert_faults(
                self.ids@,
                self.e,
                self.ids@.len() as int,
            ),
    {
        let ghost start = views(problems@);
        assert(start =~= start + expert_faults(self.ids@, self.e, 0));
        for i in 0..self.ids.len()
            invariant
                views(problems@) == start + expert_faults(self.ids@, self.e, i as int),
        {
            let index: u32 = self.ids[i];
            push_when(
                problems,
                index as usize >= self.e,
                T0Error::RowIndexOutOfRange {
                    op: "moe_ffn",
                    tensor: "expert_ids",
                    position: i,
                    index,
                    upper_bound: self.e,
                },
            );
            assert(views(problems@) =~= start + expert_faults(self.ids@, self.e, i + 1));
        }
    }

    /// Product of an input row with a row of an expert's joint projection.
    fn project<E: Fn(DoubleOp, u64, u64) -> u64>(
        &self,
        f: &E,
        tok: usize,
        expert: usize,
        row: usize,
    ) -> (r: u64)
        requires
            is_double(*f),
            self.value().fits(),
            tok < self.t,
            expert < self.e,
            row < 2 * self.dff,
        ensures
            r == self.value().projected(
                *f,
                tok as int,
                expert as int,
                row as int,
                self.dm as int,
            ),
    {
        let ghost args = self.value();
        let (dm, dff) = (self.dm, self.dff);
        let x_len: usize = self.x.len();
        let w_len: usize = self.gate_up.len();
        let mut acc: u64 = 0;
        for m in 0..dm
            invariant
                is_double(*f),
                args == self.value(),
                args.fits(),
                dm == self.dm,
                dff == self.dff,
                tok < self.t,
                expert < self.e,
                row < 2 * dff,
                x_len == self.x@.len(),
                w_len == self.gate_up@.len(),
                acc == args.projected(*f, tok as int, expert as int, row as int, m as int),
        {
            proof {
                lemma_flat_bound(tok as int, self.t as int, m as int, dm as int);
                let wide = 2 * dff as int;
                lemma_flat_bound(expert as int, self.e as int, row as int, wide);
                assert(expert * 2 * dff == expert * wide) by (nonlinear_arith)
                    requires
                        wide == 2 * dff,
                ;
                assert(self.e * 2 * dff == self.e * wide) by (nonlinear_arith)
                    requires
                        wide == 2 * dff,
                ;
                let at = expert * wide + row;
                lemma_flat_bound(at, self.e * wide, m as int, dm as int);
                assert(at <= at * dm) by (nonlinear_arith)
                    requires
                        at >= 0,
                        dm > 0,
                ;
                assert(0 <= expert * 2 <= expert * wide) by (nonlinear_arith)
                    requires
                        wide >= 2,
                        expert >= 0,
                ;
            }
            let w: u64 = self.gate_up[(expert * 2 * dff + row) * dm + m];
            acc = add_up(f, acc, multiply(f, self.x[tok * dm + m], w));
        }
        acc
    }

    /// Hidden row of a token at an expert.
    fn hidden_row<E: Fn(DoubleOp, u64, u64) -> u64>(&self, f: &E, tok: usize, expert: usize) -> (r:
        Vec<u64>)
        requires
            is_double(*f),
            self.value().fits(),
            tok < self.t,
            expert < self.e,
            2 * self.dff <= usize::MAX,
        ensures
            r@ == Seq::new(
                self.dff as nat,
                |d: int| self.value().hidden(*f, tok as int, expert as int, d),
            ),
    {
        let ghost args = self.value();
        let dff: usize = self.dff;
        let mut out: Vec<u64> = Vec::new();
        for d in 0..dff
            invariant
                is_double(*f),
                args == self.value(),
                args.fits(),
                dff == self.dff,
                2 * dff <= usize::MAX,
                tok < self.t,
                expert < self.e,
                out@ =~= Seq::new(
                    d as nat,
                    |d: int| args.hidden(*f, tok as int, expert as int, d),
                ),
        {
            let g: u64 = self.project(f, tok, expert, d);
            let u: u64 = self.project(f, tok, expert, dff + d);
            out.push(multiply(f, eval_activation_f64(f, g, self.act), u));
        }
        out
    }

    /// Product of a hidden row with a row of an expert's projection back.
    fn answer<E: Fn(DoubleOp, u64, u64) -> u64>(
        &self,
        f: &E,
        tok: usize,
        expert: usize,
        d: usize,
        hidden: &Vec<u64>,
    ) -> (r: u64)
        requires
            is_double(*f),
            self.value().fits(),
            tok < self.t,
            expert < self.e,
            d < self.dm,
            hidden@ == Seq::new(
                self.dff as nat,
                |d: int| self.value().hidden(*f, tok as int, expert as int, d),
            ),
        ensures
            r == self.value().answer(
                *f,
                tok as int,
                expert as int,
                d as int,
                self.dff as int,
            ),
    {
        let ghost args = self.value();
        let (dm, dff) = (self.dm, self.dff);
        let w_len: usize = self.down.len();
        let mut acc: u64 = 0;
        for i in 0..dff
            invariant
                is_double(*f),
                args == self.value(),
                args.fits(),
                dm == self.dm,
                dff == self.dff,
                tok < self.t,
                expert < self.e,
                d < dm,
                w_len == self.down@.len(),
                hidden@ == Seq::new(
                    dff as nat,
                    |d: int| args.hidden(*f, tok as int, expert as int, d),
                ),
                acc == args.answer(*f, tok as int, expert as int, d as int, i as int),
        {
            proof {
                lemma_flat_bound(expert as int, self.e as int, d as int, dm as int);
                let at = expert * dm + d;
                lemma_flat_bound(at, self.e * dm, i as int, dff as int);
                assert(at <= at * dff) by (nonlinear_arith)
                    requires
                        at >= 0,
                        dff > 0,
                ;
            }
            let w: u64 = self.down[(expert * dm + d) * dff + i];
            acc = add_up(f, acc, multiply(f, hidden[i], w));
        }
        acc
    }

    /// Adds the answers of one of a token's experts to its output row.
    fn add_expert<E: Fn(DoubleOp, u64, u64) -> u64>(
        &self,
        f: &E,
        tok: usize,
        expert: usize,
        place: usize,
        row: Vec<u64>,
    ) -> (r: Vec<u64>)
        requires
            is_double(*f),
            self.value().fits(),
            2 * self.dff <= usize::MAX,
            tok < self.t,
            self.dm > 0,
            place < self.k,
            expert < self.e,
            self.ids@[tok * self.k + place] == expert,
            row@ == Seq::new(
                self.dm as nat,
                |d: int|
                    self.value().combined(*f, tok as int, d, expert as int, place as int),
            ),
        ensures
            r@ == Seq::new(
                self.dm as nat,
                |d: int| self.value().combined(*f, tok as int, d, expert as int, place + 1),
            ),
    {
        let ghost args = self.value();
        let (dm, k) = (self.dm, self.k);
        let w_len: usize = self.weights.len();
        let hidden = self.hidden_row(f, tok, expert);
        proof {
            lemma_flat_bound(tok as int, self.t as int, place as int, k as int);
        }
        let w: u64 = self.weights[tok * k + place];
        let mut out: Vec<u64> = Vec::new();
        for d in 0..dm
            invariant
                is_double(*f),
                args == self.value(),
                args.fits(),
                dm == self.dm,
                k == self.k,
                tok < self.t,
                place < k,
                expert < self.e,
                self.ids@[tok * k + place] == expert,
                w == self.weights@[tok * k + place],
                hidden@ == Seq::new(
                    self.dff as nat,
                    |d: int| args.hidden(*f, tok as int, expert as int, d),
                ),
                row@ == Seq::new(
                    dm as nat,
                    |d: int| args.combined(*f, tok as int, d, expert as int, place as int),
                ),
                out@ =~= Seq::new(
                    d as nat,
                    |d: int| args.combined(*f, tok as int, d, expert as int, place + 1),
                ),
        {
            let acc: u64 = self.answer(f, tok, expert, d, &hidden);
            out.push(add_up(f, row[d], multiply(f, w, acc)));
        }
        out
    }

    /// Output row of a token.
    fn output_row<E: Fn(DoubleOp, u64, u64) -> u64>(&self, f: &E, tok: usize) -> (r: Vec<u64>)
        requires
            is_double(*f),
            self.value().fits(),
            self.e > 0 ==> 2 * self.dff <= usize::MAX,
            tok < self.t,
            self.dm > 0,
        ensures
            r@ == Seq::new(
                self.dm as nat,
                |d: int| self.value().combined(*f, tok as int, d, self.e as int, 0),
            ),
    {
        let ghost args = self.value();
        let k: usize = self.k;
        let ids_len: usize = self.ids.len();
        let mut row: Vec<u64> = Vec::new();
        for d in 0..self.dm
            invariant
                row@ =~= Seq::new(
                    d as nat,
                    |d: int| args.combined(*f, tok as int, d, 0, 0),
                ),
        {
            row.push(0);
        }
        for expert in 0..self.e
            invariant
                is_double(*f),
                args == self.value(),
                args.fits(),
                self.e > 0 ==> 2 * self.dff <= usize::MAX,
                tok < self.t,
                self.dm > 0,
                k == self.k,
                ids_len == self.ids@.len(),
                row@ == Seq::new(
                    self.dm as nat,
                    |d: int| args.combined(*f, tok as int, d, expert as int, 0),
                ),
        {
            for place in 0..k
                invariant
                    is_double(*f),
                    args == self.value(),
                    args.fits(),
                    2 * self.dff <= usize::MAX,
                    tok < self.t,
                    self.dm > 0,
                    expert < self.e,
                    k == self.k,
                    ids_len == self.ids@.len(),
                    row@ == Seq::new(
                        self.dm as nat,
                        |d: int| args.combined(*f, tok as int, d, expert as int, place as int),
                    ),
            {
                proof {
                    lemma_flat_bound(tok as int, self.t as int, place as int, k as int);
                }
                if self.ids[tok * k + place] as usize == expert {
                    row = self.add_expert(f, tok, expert, place, row);
                } else {
                    assert(row@ =~= Seq::new(
                        self.dm as nat,
                        |d: int| args.combined(*f, tok as int, d, expert as int, place + 1),
                    ));
                }
            }
            assert(row@ =~= Seq::new(
                self.dm as nat,
                |d: int| args.combined(*f, tok as int, d, expert + 1, 0),
            ));
        }
        row
    }
}

/// Ids without a problem name experts.
proof fn lemma_no_expert_faults(ids: Seq<u32>, e: usize, n: int)
    requires
        0 <= n <= ids.len(),
        expert_faults(ids, e, n).len() == 0,
    ensures
        forall|i: int| 0 <= i < n ==> (#[trigger] ids[i]) < e,
    decreases n,
{
    if n > 0 {
        lemma_no_expert_faults(ids, e, n - 1);
    }
}

/// Reference of [`crate::moe_ffn::moe_ffn`] with weights that are not quantized.
pub fn moe_ffn_f64_reference<E: Fn(DoubleOp, u64, u64) -> u64>(
    f: &E,
    x: &[u64],
    t: usize,
    dm: usize,
    expert_ids: &[u32],
    weights: &[u64],
    k_dim: usize,
    w_gate_up: &[u64],
    e: usize,
    dff: usize,
    w_down: &[u64],
    act: ActivationKind,
) -> (r: Result<Vec<u64>, T0Error>)
    requires
        is_double(*f),
    ensures
        ({
            let args = MoeRef {
                x: x@,
                ids: expert_ids@,
                weights: weights@,
                gate_up: w_gate_up@,
                down: w_down@,
                t,
                dm,
                k: k_dim,
                e,
                dff,
                act,
            };
            match args.fault() {
                Some(g) => r is Err && r->Err_0.view() == g,
                None => r is Ok && r->Ok_0@ == Seq::new(
                    (t * dm) as nat,
                    |p: int| args.output_at(*f, p),
                ),
            }
        }),
{
    let slices = MoeSlices {
        x,
        ids: expert_ids,
        weights,
        gate_up: w_gate_up,
        down: w_down,
        t,
        dm,
        k: k_dim,
        e,
        dff,
        act,
    };
    let ghost args = slices.value();
    match slices.check() {
        Ok(()) => {},
        Err(g) => {
            return Err(g);
        },
    }
    let mut y: Vec<u64> = Vec::new();
    proof {
        assert(0 * dm == 0) by (nonlinear_arith);
    }
    if dm == 0 {
        assert(t * dm == 0) by (nonlinear_arith)
            requires
                dm == 0,
        ;
        assert(y@ =~= Seq::new((t * dm) as nat, |p: int| args.output_at(*f, p)));
        return Ok(y);
    }
    proof {
        if e > 0 {
            lemma_joint_bound(args);
        }
    }
    for tok in 0..t
        invariant
            is_double(*f),
            args == slices.value(),
            args.fits(),
            t == args.t,
            dm == args.dm,
            dm > 0,
            args.e > 0 ==> 2 * args.dff <= usize::MAX,
            y@ =~= Seq::new((tok * dm) as nat, |p: int| args.output_at(*f, p)),
    {
        let row = slices.output_row(f, tok);
        proof {
            lemma_mul_nonneg(tok as int, dm as int);
            assert((tok + 1) * dm == tok * dm + dm) by (nonlinear_arith);
        }
        for d in 0..dm
            invariant
                args == slices.value(),
                dm == args.dm,
                0 <= tok * dm,
                row@ == Seq::new(
                    dm as nat,
                    |d: int| args.combined(*f, tok as int, d, args.e as int, 0),
                ),
                y@ =~= Seq::new((tok * dm + d) as nat, |p: int| args.output_at(*f, p)),
        {
            proof {
                lemma_split(tok as int, d as int, dm as int);
            }
            y.push(row[d]);
        }
    }
    Ok(y)
}

/// Both rows of a joint projection are counted by the size type.
proof fn lemma_joint_bound(args: MoeRef)
    requires
        args.fault() is None,
        args.e > 0,
    ensures
        2 * args.dff <= usize::MAX,
{
    lemma_extent4(seq![args.e, 2, args.dff, args.dm]);
    assert(2 * args.dff <= args.e * 2 * args.dff) by (nonlinear_arith)
        requires
            args.e >= 1,
    ;
}

} // verus!
