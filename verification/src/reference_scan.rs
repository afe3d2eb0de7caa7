//! Reference in double precision for the linear-attention scan.
use vstd::prelude::*;
use crate::buffer::{extent, lemma_extent2, lemma_extent3, lemma_extent4};
use crate::check::{clear, fault_of, no_problems, or_fault};
use crate::double::{add_up, dp_add, dp_mul, is_double, multiply, DoubleOp};
use crate::error::{plain, quoting, views, Arg, Detail, ErrorView, T0Error};
use crate::index::{lemma_flat_bound, lemma_mul_nonneg, lemma_split, lemma_unflat};
use crate::reference_state::{
    check_len, check_size, first_tokens, len_faults, size_fault,
};
use crate::segments::{lemma_slot_of, lemma_start_le, lemma_start_step, slot_of, start_of, total};

verus! {

/// Operands of the reference scan.
pub struct ScanRef {
    /// Queries.
    pub q: Seq<u64>,
    /// Keys.
    pub k: Seq<u64>,
    /// Values.
    pub v: Seq<u64>,
    /// Decays.
    pub alpha: Seq<u64>,
    /// Strengths of the updates.
    pub beta: Seq<u64>,
    /// Carried matrices.
    pub state: Seq<u64>,
    /// Token counts of the sequences.
    pub lens: Seq<u32>,
    /// Number of tokens.
    pub t: usize,
    /// Number of heads.
    pub h: usize,
    /// Width of a key.
    pub d: usize,
    /// Width of a value.
    pub dv: usize,
    /// Number of carried matrices per head.
    pub s: usize,
}

impl ScanRef {
    /// The error of extents that overflow.
    pub open spec fn size_fault(self) -> Option<ErrorView> {
        let op = "linear_attn_scan";
        or_fault(
            or_fault(
                or_fault(
                    size_fault(
                        op,
                        seq![self.t, self.h, self.d],
                        plain("T * H * D overflows usize"),
                    ),
                    size_fault(
                        op,
                        seq![self.t, self.h, self.dv],
                        plain("T * H * Dv overflows usize"),
                    ),
                ),
                size_fault(
                    op,
                    seq![self.t, self.h],
                    quoting(
                        "T * H overflows usize for T={}, H={}",
                        seq![Arg::Int(self.t as u64), Arg::Int(self.h as u64)],
                    ),
                ),
            ),
            size_fault(
                op,
                seq![self.s, self.h, self.d, self.dv],
                plain("S * H * D * Dv overflows usize"),
            ),
        )
    }

    /// Problems of the lengths.
    pub open spec fn length_faults(self) -> Seq<ErrorView> {
        let op = "linear_attn_scan";
        let thd = extent(seq![self.t, self.h, self.d])->0;
        let thdv = extent(seq![self.t, self.h, self.dv])->0;
        let th = extent(seq![self.t, self.h])->0;
        let all = extent(seq![self.s, self.h, self.d, self.dv])->0;
        clear() + len_faults(op, "q", thd, self.q.len() as usize, "q length must equal T * H * D")
            + len_faults(op, "k", thd, self.k.len() as usize, "k length must equal T * H * D")
            + len_faults(op, "v", thdv, self.v.len() as usize, "v length must equal T * H * Dv")
            + len_faults(
            op,
            "alpha",
            th,
            self.alpha.len() as usize,
            "alpha length must equal T * H",
        ) + len_faults(
            op,
            "beta",
            th,
            self.beta.len() as usize,
            "beta length must equal T * H",
        ) + len_faults(
            op,
            "state_in",
            all,
            self.state.len() as usize,
            "state_in length must equal S * H * D * Dv",
        ) + len_faults(
            op,
            "seq_lens",
            self.s,
            self.lens.len() as usize,
            "seq_lens length must equal S",
        )
    }

    /// The error of operands that do not fit.
    pub open spec fn fault(self) -> Option<ErrorView> {
        or_fault(self.size_fault(), fault_of(self.length_faults()))
    }

    /// Whether the lengths are those of the extents.
    pub open spec fn sized(self) -> bool {
        &&& self.q.len() == self.t * self.h * self.d
        &&& self.k.len() == self.t * self.h * self.d
        &&& self.v.len() == self.t * self.h * self.dv
        &&& self.alpha.len() == self.t * self.h
        &&& self.beta.len() == self.t * self.h
        &&& self.state.len() == self.s * self.size()
        &&& self.lens.len() == self.s
    }

    /// Number of elements of the matrices of a sequence.
    pub open spec fn size(self) -> int {
        self.h * self.d * self.dv
    }

    /// Token and head of a row, as one index.
    pub open spec fn lane(self, slot: int, row: int, head: int) -> int {
        (start_of(self.lens, slot) + row) * self.h + head
    }

    /// Element of the matrices of a sequence after its first `r` tokens.
    pub open spec fn cell<E: Fn(DoubleOp, u64, u64) -> u64>(
        self,
        e: E,
        slot: int,
        p: int,
        r: int,
    ) -> u64
        decreases r,
    {
        if r <= 0 {
            self.state[slot * self.size() + p]
        } else {
            let head = p / self.dv as int / self.d as int;
            let i = (p / self.dv as int) % self.d as int;
            let j = p % self.dv as int;
            let lane = self.lane(slot, r - 1, head);
            dp_add(
                e,
                dp_mul(e, self.alpha[lane], self.cell(e, slot, p, r - 1)),
                dp_mul(
                    e,
                    dp_mul(e, self.beta[lane], self.k[lane * self.d + i]),
                    self.v[lane * self.dv + j],
                ),
            )
        }
    }

    /// Sum of the first products of a query with a column of its matrix.
    pub open spec fn dot<E: Fn(DoubleOp, u64, u64) -> u64>(
        self,
        e: E,
        slot: int,
        row: int,
        head: int,
        j: int,
        i: int,
    ) -> u64
        decreases i,
    {
        if i <= 0 {
            0
        } else {
            dp_add(
                e,
                self.dot(e, slot, row, head, j, i - 1),
                dp_mul(
                    e,
                    self.q[self.lane(slot, row, head) * self.d + i - 1],
                    self.cell(e, slot, (head * self.d + i - 1) * self.dv + j, row + 1),
                ),
            )
        }
    }

    /// Output at a flat index; tokens beyond the last sequence have zeros.
    pub open spec fn output_at<E: Fn(DoubleOp, u64, u64) -> u64>(self, e: E, p: int) -> u64 {
        let lane = p / self.dv as int;
        let token = lane / self.h as int;
        let slot = slot_of(self.lens, token);
        if token < total(self.lens) {
            self.dot(
                e,
                slot,
                token - start_of(self.lens, slot),
                lane % self.h as int,
                p % self.dv as int,
                self.d as int,
            )
        } else {
            0
        }
    }

    /// Carried matrices at a flat index.
    pub open spec fn state_at<E: Fn(DoubleOp, u64, u64) -> u64>(self, e: E, p: int) -> u64 {
        let slot = p / self.size();
        self.cell(e, slot, p % self.size(), self.lens[slot] as int)
    }
}

/// Slices of the operands of the reference scan.
struct ScanSlices<'a> {
    q: &'a [u64],
    k: &'a [u64],
    v: &'a [u64],
    alpha: &'a [u64],
    beta: &'a [u64],
    state: &'a [u64],
    lens: &'a [u32],
    t: usize,
    h: usize,
    d: usize,
    dv: usize,
    s: usize,
}

impl<'a> ScanSlices<'a> {
    spec fn value(self) -> ScanRef {
        ScanRef {
            q: self.q@,
            k: self.k@,
            v: self.v@,
            alpha: self.alpha@,
            beta: self.beta@,
            state: self.state@,
            lens: self.lens@,
            t: self.t,
            h: self.h,
            d: self.d,
            dv: self.dv,
            s: self.s,
        }
    }

    /// Checks the extents and lengths.
    fn check(&self) -> (r: Result<(), T0Error>)
        ensures
            match r {
                Err(f) => self.value().fault() == Some(f.view()),
                Ok(_) => self.value().fault() is None && self.value().sized(),
            },
    {
        let op = "linear_attn_scan";
        let (t, h, d, dv, s) = (self.t, self.h, self.d, self.dv, self.s);
        let dims = vec![t, h, d];
        assert(dims@ =~= seq![t, h, d]);
        let thd: usize = match check_size(
            op,
            dims.as_slice(),
            Detail::plain("T * H * D overflows usize"),
        ) {
            Ok(n) => n,
            Err(f) => {
                return Err(f);
            },
        };
        let dims = vec![t, h, dv];
        assert(dims@ =~= seq![t, h, dv]);
        let thdv: usize = match check_size(
            op,
            dims.as_slice(),
            Detail::plain("T * H * Dv overflows usize"),
        ) {
            Ok(n) => n,
            Err(f) => {
                return Err(f);
            },
        };
        let dims = vec![t, h];
        assert(dims@ =~= seq![t, h]);
        let detail = Detail::two(
            "T * H overflows usize for T={}, H={}",
            Arg::Int(t as u64),
            Arg::Int(h as u64),
        );
        let th: usize = match check_size(op, dims.as_slice(), detail) {
            Ok(n) => n,
            Err(f) => {
                return Err(f);
            },
        };
        let dims = vec![s, h, d, dv];
        assert(dims@ =~= seq![s, h, d, dv]);
        let all: usize = match check_size(
            op,
            dims.as_slice(),
            Detail::plain("S * H * D * Dv overflows usize"),
        ) {
            Ok(n) => n,
            Err(f) => {
                return Err(f);
            },
        };
        let mut problems = no_problems();
        check_len(&mut problems, op, "q", thd, self.q.len(), "q length must equal T * H * D");
        check_len(&mut problems, op, "k", thd, self.k.len(), "k length must equal T * H * D");
        check_len(&mut problems, op, "v", thdv, self.v.len(), "v length must equal T * H * Dv");
        check_len(
            &mut problems,
            op,
            "alpha",
            th,
            self.alpha.len(),
            "alpha length must equal T * H",
        );
        check_len(&mut problems, op, "beta", th, self.beta.len(), "beta length must equal T * H");
        check_len(
            &mut problems,
            op,
            "state_in",
            all,
            self.state.len(),
            "state_in length must equal S * H * D * Dv",
        );
        check_len(
            &mut problems,
            op,
            "seq_lens",
            s,
            self.lens.len(),
            "seq_lens length must equal S",
        );
        assert(views(problems@) =~= self.value().length_faults());
        match T0Error::from_problems(problems) {
            Ok(()) => {},
            Err(f) => {
                return Err(f);
            },
        }
        proof {
            lemma_extent3(seq![t, h, d]);
            lemma_extent3(seq![t, h, dv]);
            lemma_extent2(seq![t, h]);
            lemma_extent4(seq![s, h, d, dv]);
            assert(s * h * d * dv == s * (h * d * dv)) by (nonlinear_arith);
        }
        Ok(())
    }

    /// Matrices of a sequence before its first token.
    fn start(&self, slot: usize, size: usize) -> (r: Vec<u64>)
        requires
            self.value().sized(),
            size == self.value().size(),
            slot < self.s,
        ensures
            r@ == self.state@.subrange(slot * size, slot * size + size),
            0 <= slot * size,
            slot * size + size <= self.state@.len(),
    {
        let len: usize = self.state.len();
        let mut out: Vec<u64> = Vec::new();
        proof {
            lemma_mul_nonneg(slot as int, size as int);
            assert(slot * size + size <= self.s * size) by (nonlinear_arith)
                requires
                    slot + 1 <= self.s,
                    size >= 0,
            ;
        }
        let base: usize = slot * size;
        for p in 0..size
            invariant
                base == slot * size,
                len == self.state@.len(),
                base + size <= len,
                out@ =~= self.state@.subrange(base as int, base + p),
        {
            out.push(self.state[base + p]);
        }
        out
    }

    /// Matrices of a sequence after its next token.
    fn advance<E: Fn(DoubleOp, u64, u64) -> u64>(
        &self,
        e: &E,
        slot: usize,
        base: usize,
        row: usize,
        cells: Vec<u64>,
    ) -> (r: Vec<u64>)
        requires
            is_double(*e),
            self.value().sized(),
            slot < self.s,
            base == start_of(self.lens@, slot as int),
            row < self.lens@[slot as int],
            total(self.lens@) <= self.t,
            cells@ == Seq::new(
                self.value().size() as nat,
                |p: int| self.value().cell(*e, slot as int, p, row as int),
            ),
            self.value().size() >= 0,
        ensures
            r@ == Seq::new(
                self.value().size() as nat,
                |p: int| self.value().cell(*e, slot as int, p, row + 1),
            ),
    {
        let ghost args = self.value();
        let (h, d, dv) = (self.h, self.d, self.dv);
        let a_len: usize = self.alpha.len();
        let k_len: usize = self.k.len();
        let v_len: usize = self.v.len();
        let n: usize = cells.len();
        let mut out: Vec<u64> = Vec::new();
        for p in 0..n
            invariant
                is_double(*e),
                args == self.value(),
                args.sized(),
                slot < self.s,
                base == start_of(self.lens@, slot as int),
                row < self.lens@[slot as int],
                total(self.lens@) <= self.t,
                h == self.h,
                d == self.d,
                dv == self.dv,
                n == cells@.len(),
                n == h * d * dv,
                a_len == self.alpha@.len(),
                k_len == self.k@.len(),
                v_len == self.v@.len(),
                cells@ == Seq::new(
                    n as nat,
                    |p: int| args.cell(*e, slot as int, p, row as int),
                ),
                out@ =~= Seq::new(p as nat, |p: int| args.cell(*e, slot as int, p, row + 1)),
        {
            proof {
                lemma_start_step(self.lens@, slot as int);
                lemma_start_le(self.lens@, slot + 1);
                lemma_mul_nonneg(h as int, d as int);
                lemma_unflat(p as int, h * d, dv as int);
                lemma_unflat(p as int / dv as int, h as int, d as int);
            }
            let head: usize = p / dv / d;
            let i: usize = (p / dv) % d;
            let j: usize = p % dv;
            proof {
                lemma_flat_bound(base + row, self.t as int, head as int, h as int);
                lemma_flat_bound((base + row) * h + head, self.t * h, i as int, d as int);
                lemma_flat_bound((base + row) * h + head, self.t * h, j as int, dv as int);
            }
            let lane: usize = (base + row) * h + head;
            assert(lane == args.lane(slot as int, row as int, head as int));
            let kept: u64 = multiply(e, self.alpha[lane], cells[p]);
            let strength: u64 = multiply(e, self.beta[lane], self.k[lane * d + i]);
            let fresh: u64 = multiply(e, strength, self.v[lane * dv + j]);
            out.push(add_up(e, kept, fresh));
        }
        out
    }

    /// Product of a query with a column of its matrix.
    fn answer<E: Fn(DoubleOp, u64, u64) -> u64>(
        &self,
        e: &E,
        slot: usize,
        base: usize,
        row: usize,
        head: usize,
        j: usize,
        cells: &Vec<u64>,
    ) -> (r: u64)
        requires
            is_double(*e),
            self.value().sized(),
            slot < self.s,
            base == start_of(self.lens@, slot as int),
            row < self.lens@[slot as int],
            total(self.lens@) <= self.t,
            head < self.h,
            j < self.dv,
            self.value().size() >= 0,
            cells@ == Seq::new(
                self.value().size() as nat,
                |p: int| self.value().cell(*e, slot as int, p, row + 1),
            ),
        ensures
            r == self.value().dot(
                *e,
                slot as int,
                row as int,
                head as int,
                j as int,
                self.d as int,
            ),
    {
        let ghost args = self.value();
        let (h, d, dv) = (self.h, self.d, self.dv);
        let q_len: usize = self.q.len();
        let a_len: usize = self.alpha.len();
        let n: usize = cells.len();
        proof {
            lemma_start_step(self.lens@, slot as int);
            lemma_start_le(self.lens@, slot + 1);
            lemma_flat_bound(base + row, self.t as int, head as int, h as int);
        }
        let lane: usize = (base + row) * h + head;
        assert(lane == args.lane(slot as int, row as int, head as int));
        let mut acc: u64 = 0;
        for i in 0..d
            invariant
                is_double(*e),
                args == self.value(),
                args.sized(),
                h == self.h,
                d == self.d,
                dv == self.dv,
                head < h,
                j < dv,
                lane == args.lane(slot as int, row as int, head as int),
                lane < self.t * h,
                q_len == self.q@.len(),
                n == cells@.len(),
                n == h * d * dv,
                cells@ == Seq::new(
                    n as nat,
                    |p: int| args.cell(*e, slot as int, p, row + 1),
                ),
                acc == args.dot(*e, slot as int, row as int, head as int, j as int, i as int),
        {
            proof {
                lemma_flat_bound(lane as int, self.t * h, i as int, d as int);
                lemma_flat_bound(head as int, h as int, i as int, d as int);
                lemma_flat_bound(head * d + i, h * d, j as int, dv as int);
                assert(head * d + i <= (head * d + i) * dv) by (nonlinear_arith)
                    requires
                        dv > 0,
                        head * d + i >= 0,
                ;
            }
            let c: u64 = cells[(head * d + i) * dv + j];
            acc = add_up(e, acc, multiply(e, self.q[lane * d + i], c));
        }
        acc
    }

    /// Adds the outputs of a token.
    fn answer_token<E: Fn(DoubleOp, u64, u64) -> u64>(
        &self,
        e: &E,
        slot: usize,
        base: usize,
        row: usize,
        cells: &Vec<u64>,
        out: &mut Vec<u64>,
    )
        requires
            is_double(*e),
            self.value().sized(),
            slot < self.s,
            base == start_of(self.lens@, slot as int),
            row < self.lens@[slot as int],
            total(self.lens@) <= self.t,
            self.value().size() >= 0,
            cells@ == Seq::new(
                self.value().size() as nat,
                |p: int| self.value().cell(*e, slot as int, p, row + 1),
            ),
            old(out)@ == Seq::new(
                ((base + row) * self.h * self.dv) as nat,
                |p: int| self.value().output_at(*e, p),
            ),
        ensures
            final(out)@ == Seq::new(
                ((base + row + 1) * self.h * self.dv) as nat,
                |p: int| self.value().output_at(*e, p),
            ),
    {
        let ghost args = self.value();
        let (h, dv) = (self.h, self.dv);
        let ghost token = base + row;
        proof {
            lemma_mul_nonneg(token, h as int);
            lemma_mul_nonneg(token * h, dv as int);
            lemma_slot_of(self.lens@, slot as int, row as int);
        }
        for head in 0..h
            invariant
                is_double(*e),
                args == self.value(),
                args.sized(),
                slot < self.s,
                base == start_of(self.lens@, slot as int),
                row < self.lens@[slot as int],
                total(self.lens@) <= self.t,
                token == base + row,
                slot_of(self.lens@, token) == slot,
                token < total(self.lens@),
                args.size() >= 0,
                h == self.h,
                dv == self.dv,
                0 <= token * h,
                cells@ == Seq::new(
                    args.size() as nat,
                    |p: int| args.cell(*e, slot as int, p, row + 1),
                ),
                out@ =~= Seq::new(
                    ((token * h + head) * dv) as nat,
                    |p: int| args.output_at(*e, p),
                ),
        {
            proof {
                lemma_mul_nonneg(token * h + head, dv as int);
                assert((token * h + head + 1) * dv == (token * h + head) * dv + dv)
                    by (nonlinear_arith);
            }
            for j in 0..dv
                invariant
                    is_double(*e),
                    args == self.value(),
                    args.sized(),
                    slot < self.s,
                    base == start_of(self.lens@, slot as int),
                    row < self.lens@[slot as int],
                    total(self.lens@) <= self.t,
                    token == base + row,
                    slot_of(self.lens@, token) == slot,
                    token < total(self.lens@),
                    args.size() >= 0,
                    h == self.h,
                    dv == self.dv,
                    head < h,
                    0 <= token * h,
                    0 <= (token * h + head) * dv,
                    cells@ == Seq::new(
                        args.size() as nat,
                        |p: int| args.cell(*e, slot as int, p, row + 1),
                    ),
                    out@ =~= Seq::new(
                        ((token * h + head) * dv + j) as nat,
                        |p: int| args.output_at(*e, p),
                    ),
            {
                proof {
                    lemma_split(token * h + head, j as int, dv as int);
                    lemma_split(token as int, head as int, h as int);
                }
                let v: u64 = self.answer(e, slot, base, row, head, j, cells);
                assert(v == args.output_at(*e, (token * h + head) * dv + j));
                out.push(v);
            }
        }
        proof {
            assert((token + 1) * h == token * h + h) by (nonlinear_arith);
        }
        assert(out@ =~= Seq::new(
            ((base + row + 1) * self.h * self.dv) as nat,
            |p: int| self.value().output_at(*e, p),
        ));
    }

    /// Runs a sequence: adds its outputs and gives its matrices.
    fn run_slot<E: Fn(DoubleOp, u64, u64) -> u64>(
        &self,
        e: &E,
        slot: usize,
        base: usize,
        size: usize,
        out: &mut Vec<u64>,
    ) -> (r: Vec<u64>)
        requires
            is_double(*e),
            self.value().sized(),
            slot < self.s,
            base == start_of(self.lens@, slot as int),
            total(self.lens@) <= self.t,
            size == self.value().size(),
            old(out)@ == Seq::new(
                (base * self.h * self.dv) as nat,
                |p: int| self.value().output_at(*e, p),
            ),
        ensures
            final(out)@ == Seq::new(
                ((base + self.lens@[slot as int]) * self.h * self.dv) as nat,
                |p: int| self.value().output_at(*e, p),
            ),
            r@ == Seq::new(
                size as nat,
                |p: int|
                    self.value().cell(*e, slot as int, p, self.lens@[slot as int] as int),
            ),
    {
        let ghost args = self.value();
        let len: usize = self.lens[slot] as usize;
        let mut cells = self.start(slot, size);
        assert(cells@ =~= Seq::new(size as nat, |p: int| args.cell(*e, slot as int, p, 0)));
        for row in 0..len
            invariant
                is_double(*e),
                args == self.value(),
                args.sized(),
                slot < self.s,
                base == start_of(self.lens@, slot as int),
                total(self.lens@) <= self.t,
                size == args.size(),
                len == self.lens@[slot as int],
                cells@ == Seq::new(
                    size as nat,
                    |p: int| args.cell(*e, slot as int, p, row as int),
                ),
                out@ == Seq::new(
                    ((base + row) * self.h * self.dv) as nat,
                    |p: int| args.output_at(*e, p),
                ),
        {
            cells = self.advance(e, slot, base, row, cells);
            self.answer_token(e, slot, base, row, &cells, out);
        }
        cells
    }

    /// Runs all sequences.
    fn run<E: Fn(DoubleOp, u64, u64) -> u64>(&self, e: &E, size: usize, outputs: usize) -> (r: (
        Vec<u64>,
        Vec<u64>,
    ))
        requires
            is_double(*e),
            self.value().sized(),
            total(self.lens@) <= self.t,
            size == self.value().size(),
            outputs == self.t * self.h * self.dv,
        ensures
            r.0@ == Seq::new(outputs as nat, |p: int| self.value().output_at(*e, p)),
            r.1@ == Seq::new((self.s * size) as nat, |p: int| self.value().state_at(*e, p)),
    {
        let ghost args = self.value();
        let starts = first_tokens(self.lens);
        let (h, dv) = (self.h, self.dv);
        let mut out: Vec<u64> = Vec::new();
        let mut states: Vec<u64> = Vec::new();
        proof {
            assert(start_of(self.lens@, 0) == 0) by {
                assert(self.lens@.take(0).len() == 0);
            }
            assert(0 * h * dv == 0) by (nonlinear_arith);
            assert(0 * size == 0) by (nonlinear_arith);
            assert(out@ =~= Seq::new(0 as nat, |p: int| args.output_at(*e, p)));
        }
        for slot in 0..self.s
            invariant
                is_double(*e),
                args == self.value(),
                args.sized(),
                total(self.lens@) <= self.t,
                size == args.size(),
                h == self.h,
                dv == self.dv,
                starts@.len() == self.s,
                forall|i: int|
                    0 <= i < self.s ==> (#[trigger] starts@[i]) == start_of(self.lens@, i),
                out@ == Seq::new(
                    (start_of(self.lens@, slot as int) * h * dv) as nat,
                    |p: int| args.output_at(*e, p),
                ),
                states@ =~= Seq::new((slot * size) as nat, |p: int| args.state_at(*e, p)),
        {
            let cells = self.run_slot(e, slot, starts[slot], size, &mut out);
            proof {
                lemma_start_step(self.lens@, slot as int);
                lemma_mul_nonneg(slot as int, size as int);
                assert((slot + 1) * size == slot * size + size) by (nonlinear_arith);
            }
            for p in 0..size
                invariant
                    args == self.value(),
                    size == args.size(),
                    slot < self.s,
                    0 <= slot * size,
                    cells@ == Seq::new(
                        size as nat,
                        |p: int|
                            args.cell(*e, slot as int, p, self.lens@[slot as int] as int),
                    ),
                    states@ =~= Seq::new((slot * size + p) as nat, |p: int| args.state_at(*e, p)),
            {
                proof {
                    lemma_split(slot as int, p as int, size as int);
                }
                states.push(cells[p]);
            }
        }
        proof {
            lemma_start_le(self.lens@, self.s as int);
            assert(self.lens@.take(self.s as int) =~= self.lens@);
        }
        let ghost tokens = total(self.lens@) as int;
        proof {
            lemma_mul_nonneg(tokens, h as int);
            lemma_mul_nonneg(tokens * h, dv as int);
            assert(tokens * h * dv <= self.t * h * dv) by (nonlinear_arith)
                requires
                    0 <= tokens <= self.t,
                    h >= 0,
                    dv >= 0,
            ;
        }
        while out.len() < outputs
            invariant
                args == self.value(),
                h == self.h,
                dv == self.dv,
                outputs == self.t * h * dv,
                tokens == total(self.lens@),
                tokens * h * dv <= out@.len() <= outputs,
                out@ == Seq::new(out@.len(), |p: int| args.output_at(*e, p)),
            decreases outputs - out@.len(),
        {
            proof {
                let p = out@.len() as int;
                lemma_mul_nonneg(self.t as int, h as int);
                lemma_unflat(p, self.t * h, dv as int);
                lemma_unflat(p / dv as int, self.t as int, h as int);
                let token = p / dv as int / h as int;
                assert(tokens <= token) by {
                    if token < tokens {
                        assert(token * h + h <= tokens * h) by (nonlinear_arith)
                            requires
                                token + 1 <= tokens,
                                h >= 0,
                        ;
                        let lane = p / dv as int;
                        assert(lane + 1 <= tokens * h);
                        assert(lane * dv + dv <= tokens * h * dv) by (nonlinear_arith)
                            requires
                                lane + 1 <= tokens * h,
                                dv >= 0,
                        ;
                    }
                }
                assert(args.output_at(*e, p) == 0);
            }
            out.push(0);
            assert(out@ =~= Seq::new(out@.len(), |p: int| args.output_at(*e, p)));
        }
        (out, states)
    }
}

/// Reference of [`crate::linear_attn_scan::linear_attn_scan_recurrent`]: outputs
/// and carried matrices.
pub fn linear_attn_scan_f64_reference<E: Fn(DoubleOp, u64, u64) -> u64>(
    e: &E,
    q: &[u64],
    k: &[u64],
    v: &[u64],
    alpha: &[u64],
    beta: &[u64],
    t: usize,
    h: usize,
    d: usize,
    dv: usize,
    state_in: &[u64],
    s: usize,
    seq_lens: &[u32],
) -> (r: Result<(Vec<u64>, Vec<u64>), T0Error>)
    requires
        is_double(*e),
        (ScanRef {
            q: q@,
            k: k@,
            v: v@,
            alpha: alpha@,
            beta: beta@,
            state: state_in@,
            lens: seq_lens@,
            t,
            h,
            d,
            dv,
            s,
        }).fault() is None ==> h == 0 || total(seq_lens@) <= t,
    ensures
        ({
            let args = ScanRef {
                q: q@,
                k: k@,
                v: v@,
                alpha: alpha@,
                beta: beta@,
                state: state_in@,
                lens: seq_lens@,
                t,
                h,
                d,
                dv,
                s,
            };
            match args.fault() {
                Some(f) => r is Err && r->Err_0.view() == f,
                None => {
                    &&& r is Ok
                    &&& r->Ok_0.0@ == Seq::new(
                        (t * h * dv) as nat,
                        |p: int| args.output_at(*e, p),
                    )
                    &&& r->Ok_0.1@ == Seq::new(
                        (s * args.size()) as nat,
                        |p: int| args.state_at(*e, p),
                    )
                },
            }
        }),
{
    let slices = ScanSlices {
        q,
        k,
        v,
        alpha,
        beta,
        state: state_in,
        lens: seq_lens,
        t,
        h,
        d,
        dv,
        s,
    };
    let ghost args = slices.value();
    match slices.check() {
        Ok(()) => {},
        Err(f) => {
            return Err(f);
        },
    }
    let outputs: usize = v.len();
    let all: usize = state_in.len();
    if h == 0 || s == 0 {
        proof {
            assert(s * (h * d * dv) == 0 && (h == 0 ==> t * h * dv == 0)) by (nonlinear_arith)
                requires
                    h == 0 || s == 0,
            ;
        }
        let mut out: Vec<u64> = Vec::new();
        let none: Vec<u64> = Vec::new();
        if h > 0 {
            assert(total(seq_lens@) == 0);
        }
        while out.len() < outputs
            invariant
                args == slices.value(),
                h == args.h,
                h > 0 ==> total(args.lens) == 0,
                h == 0 ==> outputs == 0,
                out@.len() <= outputs,
                out@ =~= Seq::new(out@.len(), |p: int| args.output_at(*e, p)),
                outputs == args.t * args.h * args.dv,
            decreases outputs - out@.len(),
        {
            proof {
                let p = out@.len() as int;
                lemma_mul_nonneg(args.t as int, h as int);
                lemma_unflat(p, args.t * h, args.dv as int);
                lemma_unflat(p / args.dv as int, args.t as int, h as int);
                assert(args.output_at(*e, p) == 0);
            }
            out.push(0);
        }
        assert(none@ =~= Seq::new((s * args.size()) as nat, |p: int| args.state_at(*e, p)));
        return Ok((out, none));
    }
    let size: usize = all / s;
    proof {
        assert(size == args.size()) by {
            vstd::arithmetic::div_mod::lemma_div_multiples_vanish(args.size(), s as int);
            assert(args.size() * s == s * args.size()) by (nonlinear_arith);
        }
    }
    Ok(slices.run(e, size, outputs))
}

} // verus!
