//! Attention over cached keys and values.
//!
//! Every query head weighs the positions that its token sees by a softmax over
//! scaled scores. The softmax runs online: maximum, sum and weighted values are
//! carried on in ascending position order.
use vstd::prelude::*;
use crate::arith::{compute, fp, fp_add, fp_mul, is_arith, plus, times, FloatOp};
use crate::batch::{bad_group, group_error, BatchMeta};
use crate::buffer::{lemma_extent3, Tensor, TensorDataMut, TensorView, TensorViewMut};
use crate::check::{
    attr_error, check_dim, check_dtype, check_float, check_rank, check_row_major, clear, dim_error,
    dim_faults, dim_mismatch, dtype_faults, fault_of, float_faults, float_type, given, invalid_attr,
    is_float, missing, missing_error, no_problems, push_when, rank_faults, row_major_faults,
};
use crate::dtype::{finite_positive, is_finite_positive};
use crate::error::{plain, push_problem, quoting, views, Arg, Detail, ErrorView, T0Error};
use crate::index::{lemma_flat_bound, lemma_mul_nonneg, lemma_split};
use crate::ir::{DType, StateHandle, StateKind};
use crate::kv_cache::{KvCache, KvLatentCache, KvPagedCache};
use crate::kv_latent::{CacheView, LatentView};
use crate::kv_rows::{read_row, row_at};
use crate::kv_write::{and_fault, lemma_row_held, PagedView};
use crate::logit_softcap::{capped, softcap_value};
use crate::visibility::{
    plan_queries, plan_visible, query_plan, sights, slot_lists, QueryInfo, Sight,
};

verus! {

/// Bits of negative infinity.
pub const NEG_INFINITY: u32 = 0xFF80_0000;

/// Which positions a query token may see.
#[derive(Debug, Clone, Copy, PartialEq, Eq, Structural)]
pub enum AttentionMask {
    /// All positions up to its own.
    Causal,
    /// The positions up to its own within a window of the given length.
    CausalWindow(u32),
    /// What was in state before, and the ancestors in a draft tree.
    Tree,
}

/// Widths of compressed attention.
#[derive(Debug, Clone, Copy, PartialEq, Eq, Structural)]
pub struct MlaSpec {
    /// Width of the part of a query without rotation.
    pub qk_nope_dim: u32,
    /// Width of the rotary part of a query.
    pub qk_rope_dim: u32,
    /// Width of an output row.
    pub v_dim: u32,
    /// Width of a latent row.
    pub kv_lora_rank: u32,
}

/// Attributes of attention.
#[derive(Debug, Clone, Copy)]
pub struct AttentionOp {
    /// State that is read.
    pub handle: StateHandle,
    /// Type of the output.
    pub out_dtype: DType,
    /// Factor of the scores.
    pub softmax_scale: u32,
    /// Which positions are seen.
    pub mask: AttentionMask,
    /// Soft cap on the scores.
    pub logit_softcap: Option<u32>,
    /// Length of the pinned prefix.
    pub sinks: u32,
    /// Widths of compressed attention, for a latent cache.
    pub mla: Option<MlaSpec>,
}

/// Problem of a real attribute that must be positive.
pub open spec fn positive_faults(attribute: &'static str, v: u32) -> Seq<ErrorView> {
    given(
        !is_finite_positive(v),
        attr_error(
            "attention",
            attribute,
            quoting("must be finite and > 0, got {}", seq![Arg::Real(v)]),
        ),
    )
}

fn check_positive(problems: &mut Vec<T0Error>, attribute: &'static str, v: u32)
    ensures
        views(final(problems)@) == views(old(problems)@) + positive_faults(attribute, v),
{
    let reason = Detail::one("must be finite and > 0, got {}", Arg::Real(v));
    push_when(problems, !finite_positive(v), invalid_attr("attention", attribute, reason));
}

/// Problems of the attributes.
pub open spec fn attribute_faults(
    list: Seq<ErrorView>,
    op: AttentionOp,
    meta: BatchMeta,
    group: u32,
) -> Seq<ErrorView> {
    let scaled = list + positive_faults("softmax_scale", op.softmax_scale) + given(
        op.mask == AttentionMask::CausalWindow(0),
        attr_error("attention", "mask", plain("causal window must be > 0")),
    );
    let cap = match op.logit_softcap {
        Some(c) => scaled + positive_faults("logit_softcap", c),
        None => scaled,
    };
    cap + given(
        op.mask == AttentionMask::Tree && meta.tree is None,
        missing_error(
            "attention",
            "BatchMeta.tree",
            plain("Tree mask requires a TreeMask in BatchMeta"),
        ),
    ) + given(group >= meta.num_groups, group_error("attention", group, meta.num_groups))
}

/// Problems that attention over either kind of cache has in common.
#[verifier::opaque]
pub open spec fn attention_faults(
    op: AttentionOp,
    q: Tensor,
    o: Tensor,
    meta: BatchMeta,
    group: u32,
) -> Seq<ErrorView> {
    let backing = and_fault(and_fault(clear(), q.backing_fault("q")), o.backing_fault("o"));
    let form = backing + row_major_faults("q", q.layout) + row_major_faults("o", o.layout)
        + rank_faults("q", 3, q.shape) + rank_faults("o", 3, o.shape) + float_faults("q", q.dtype())
        + given(
        !is_float(op.out_dtype),
        attr_error(
            "attention",
            "out_dtype",
            quoting("must be f16, bf16, or f32; got {}", seq![Arg::Type(op.out_dtype)]),
        ),
    ) + dtype_faults("o", op.out_dtype, o.dtype());
    let attributes = attribute_faults(form, op, meta, group);
    if q.rank() == 3 && o.rank() == 3 {
        attributes + dim_faults("T", "BatchMeta", meta.total_tokens, "q", q.shape[0]) + dim_faults(
            "T",
            "BatchMeta",
            meta.total_tokens,
            "o",
            o.shape[0],
        ) + dim_faults("H", "q", q.shape[1], "o", o.shape[1]) + given(
            q.shape[1] == 0,
            dim_error("H", "q", 1, "q", 0),
        )
    } else {
        attributes
    }
}

fn check_attributes(
    problems: &mut Vec<T0Error>,
    op: &AttentionOp,
    meta: &BatchMeta,
    group: u32,
)
    ensures
        views(final(problems)@) == attribute_faults(views(old(problems)@), *op, *meta, group),
{
    check_positive(problems, "softmax_scale", op.softmax_scale);
    push_when(
        problems,
        op.mask == AttentionMask::CausalWindow(0),
        invalid_attr("attention", "mask", Detail::plain("causal window must be > 0")),
    );
    match op.logit_softcap {
        Some(c) => {
            check_positive(problems, "logit_softcap", c);
        },
        None => {},
    }
    push_when(
        problems,
        op.mask == AttentionMask::Tree && meta.tree.is_none(),
        missing(
            "attention",
            "BatchMeta.tree",
            Detail::plain("Tree mask requires a TreeMask in BatchMeta"),
        ),
    );
    push_when(
        problems,
        group as usize >= meta.num_groups(),
        bad_group("attention", group, meta.num_groups()),
    );
}

/// Checks what attention over either kind of cache has in common.
fn validate_attention_common(
    op: &AttentionOp,
    q: &TensorView<'_>,
    o: &TensorViewMut<'_>,
    meta: &BatchMeta,
    group: u32,
) -> (problems: Vec<T0Error>)
    ensures
        views(problems@) == attention_faults(*op, q@, o@, *meta, group),
        q@.cells.len() <= usize::MAX,
        o@.cells.len() <= usize::MAX,
{
    let q_len: usize = q.backing_len();
    let o_len: usize = o.backing_len();
    let mut problems = no_problems();
    match q.validate_backing("q") {
        Ok(_) => {},
        Err(e) => {
            push_problem(&mut problems, e);
        },
    }
    match o.validate_backing("o") {
        Ok(_) => {},
        Err(e) => {
            push_problem(&mut problems, e);
        },
    }
    check_row_major(&mut problems, "q", q.layout());
    check_row_major(&mut problems, "o", o.layout());
    check_rank(&mut problems, "q", 3, q.shape());
    check_rank(&mut problems, "o", 3, o.shape());
    check_float(&mut problems, "q", q.dtype());
    push_when(
        &mut problems,
        !float_type(op.out_dtype),
        invalid_attr(
            "attention",
            "out_dtype",
            Detail::one("must be f16, bf16, or f32; got {}", Arg::Type(op.out_dtype)),
        ),
    );
    check_dtype(&mut problems, "o", op.out_dtype, o.dtype());
    check_attributes(&mut problems, op, meta, group);
    if q.rank() == 3 && o.rank() == 3 {
        check_dim(&mut problems, "T", "BatchMeta", meta.total_tokens(), "q", q.shape()[0]);
        check_dim(&mut problems, "T", "BatchMeta", meta.total_tokens(), "o", o.shape()[0]);
        check_dim(&mut problems, "H", "q", q.shape()[1], "o", o.shape()[1]);
        push_when(&mut problems, q.shape()[1] == 0, dim_mismatch("H", "q", 1, "q", 0));
    }
    proof {
        reveal(attention_faults);
    }
    problems
}

/// What the absence of problems says of the operands.
pub proof fn lemma_no_attention_faults(
    op: AttentionOp,
    q: Tensor,
    o: Tensor,
    meta: BatchMeta,
    group: u32,
)
    requires
        attention_faults(op, q, o, meta, group).len() == 0,
        q.cells.len() <= usize::MAX,
        o.cells.len() <= usize::MAX,
    ensures
        q.backed(),
        o.backed(),
        q.rank() == 3,
        o.rank() == 3,
        q.shape[0] == meta.total_tokens,
        o.shape[0] == meta.total_tokens,
        o.shape[1] == q.shape[1],
        q.shape[1] > 0,
        group < meta.num_groups,
{
    reveal(attention_faults);
    let backing = and_fault(and_fault(clear(), q.backing_fault("q")), o.backing_fault("o"));
    let form = backing + row_major_faults("q", q.layout) + row_major_faults("o", o.layout)
        + rank_faults("q", 3, q.shape) + rank_faults("o", 3, o.shape) + float_faults("q", q.dtype())
        + given(
        !is_float(op.out_dtype),
        attr_error(
            "attention",
            "out_dtype",
            quoting("must be f16, bf16, or f32; got {}", seq![Arg::Type(op.out_dtype)]),
        ),
    ) + dtype_faults("o", op.out_dtype, o.dtype());
    let attributes = attribute_faults(form, op, meta, group);
    assert(attributes.len() == 0);
    assert(form.len() == 0);
    assert(backing.len() == 0);
}

/// Width of a key.
pub open spec fn key_width(cache: CacheView) -> int {
    match cache {
        CacheView::Paged(c) => c.d as int,
        CacheView::Latent(c) => c.latent + c.rope,
    }
}

/// Width of a value.
pub open spec fn value_width(cache: CacheView) -> int {
    match cache {
        CacheView::Paged(c) => c.dv as int,
        CacheView::Latent(c) => c.latent as int,
    }
}

/// Cached head that a query head reads: query heads share cached heads in equal
/// groups.
pub open spec fn cached_head(cache: CacheView, heads: int, head: int) -> int {
    match cache {
        CacheView::Paged(c) => head / (heads / c.hkv as int),
        CacheView::Latent(_) => 0,
    }
}

/// Element of a cached key. A compressed key is the latent row followed by the
/// rotary row.
pub open spec fn key_at<F: Fn(FloatOp, u32, u32) -> u32>(
    f: F,
    cache: CacheView,
    head: int,
    slot: int,
    dim: int,
) -> u32 {
    match cache {
        CacheView::Paged(c) => c.k_at(f, slot, head, dim),
        CacheView::Latent(c) => if dim < c.latent {
            c.latent_at(f, slot, dim)
        } else {
            c.rope_at(slot, dim - c.latent)
        },
    }
}

/// Element of a cached value. A compressed value is the latent row.
pub open spec fn value_at<F: Fn(FloatOp, u32, u32) -> u32>(
    f: F,
    cache: CacheView,
    head: int,
    slot: int,
    dim: int,
) -> u32 {
    match cache {
        CacheView::Paged(c) => c.v_at(f, slot, head, dim),
        CacheView::Latent(c) => c.latent_at(f, slot, dim),
    }
}

/// Sum of the products of the first elements of a query and a key.
pub open spec fn dot<F: Fn(FloatOp, u32, u32) -> u32>(
    f: F,
    cache: CacheView,
    head: int,
    slot: int,
    row: Seq<u32>,
    n: int,
) -> u32
    decreases n,
{
    if n <= 0 {
        0
    } else {
        fp_add(
            f,
            dot(f, cache, head, slot, row, n - 1),
            fp_mul(f, row[n - 1], key_at(f, cache, head, slot, n - 1)),
        )
    }
}

/// Score of a position: the scaled product of query and key, softly capped.
pub open spec fn score<F: Fn(FloatOp, u32, u32) -> u32>(
    f: F,
    op: AttentionOp,
    cache: CacheView,
    head: int,
    slot: int,
    row: Seq<u32>,
) -> u32 {
    let s = fp_mul(f, dot(f, cache, head, slot, row, row.len() as int), op.softmax_scale);
    match op.logit_softcap {
        Some(cap) => capped(f, s, cap),
        None => s,
    }
}

/// State of an online softmax.
#[verifier::ext_equal]
pub struct Softmax {
    /// Largest score so far.
    pub m: u32,
    /// Sum of the weights relative to it.
    pub l: u32,
    /// Weighted sum of the values relative to it.
    pub acc: Seq<u32>,
}

impl Softmax {
    /// The state before any position.
    pub open spec fn start(width: int) -> Softmax {
        Softmax { m: NEG_INFINITY, l: 0, acc: Seq::new(width as nat, |j: int| 0u32) }
    }

    /// The state after one more position with score `s` and values `value`.
    pub open spec fn next<F: Fn(FloatOp, u32, u32) -> u32>(
        self,
        f: F,
        s: u32,
        value: Seq<u32>,
    ) -> Softmax {
        let m = fp(f, FloatOp::Max, self.m, s);
        let a = fp(f, FloatOp::Exp, fp(f, FloatOp::Minus, self.m, m), 0);
        let b = fp(f, FloatOp::Exp, fp(f, FloatOp::Minus, s, m), 0);
        Softmax {
            m,
            l: fp_add(f, fp_mul(f, self.l, a), b),
            acc: Seq::new(
                self.acc.len(),
                |j: int| fp_add(f, fp_mul(f, self.acc[j], a), fp_mul(f, b, value[j])),
            ),
        }
    }

    /// The weighted mean of the values.
    pub open spec fn mean<F: Fn(FloatOp, u32, u32) -> u32>(self, f: F) -> Seq<u32> {
        Seq::new(self.acc.len(), |j: int| fp(f, FloatOp::Over, self.acc[j], self.l))
    }
}

/// Cached value of a position.
pub open spec fn value_row<F: Fn(FloatOp, u32, u32) -> u32>(
    f: F,
    cache: CacheView,
    head: int,
    slot: int,
) -> Seq<u32> {
    Seq::new(value_width(cache) as nat, |j: int| value_at(f, cache, head, slot, j))
}

/// Softmax over positions in order.
pub open spec fn softmax<F: Fn(FloatOp, u32, u32) -> u32>(
    f: F,
    op: AttentionOp,
    cache: CacheView,
    head: int,
    row: Seq<u32>,
    slots: Seq<usize>,
) -> Softmax
    decreases slots.len(),
{
    if slots.len() == 0 {
        Softmax::start(value_width(cache))
    } else {
        let slot = slots.last() as int;
        softmax(f, op, cache, head, row, slots.drop_last()).next(
            f,
            score(f, op, cache, head, slot, row),
            value_row(f, cache, head, slot),
        )
    }
}

/// Output row of a query head.
pub open spec fn attended<F: Fn(FloatOp, u32, u32) -> u32>(
    f: F,
    op: AttentionOp,
    q: Tensor,
    cache: CacheView,
    plans: Seq<Seq<usize>>,
    tok: int,
    head: int,
) -> Seq<u32> {
    let h = q.shape[1] as int;
    let width = key_width(cache);
    softmax(
        f,
        op,
        cache,
        cached_head(cache, h, head),
        row_at(q.cells, (tok * h + head) * width, width),
        plans[tok],
    ).mean(f)
}

/// Output of attention, row by row: tokens, then heads.
pub open spec fn attention_values<F: Fn(FloatOp, u32, u32) -> u32>(
    f: F,
    op: AttentionOp,
    q: Tensor,
    cache: CacheView,
    plans: Seq<Seq<usize>>,
    rows: int,
) -> Seq<u32> {
    let h = q.shape[1] as int;
    let dv = value_width(cache);
    Seq::new(
        (rows * dv) as nat,
        |i: int| attended(f, op, q, cache, plans, (i / dv) / h, (i / dv) % h)[i % dv],
    )
}

/// Either kind of cache, to read.
enum Source<'a> {
    /// Keys and values with several heads.
    Paged(&'a KvPagedCache),
    /// Compressed keys and values.
    Latent(&'a KvLatentCache),
}

impl<'a> Source<'a> {
    spec fn wf(self) -> bool {
        match self {
            Source::Paged(c) => c.wf(),
            Source::Latent(c) => c.wf() && c.latent + c.rope <= usize::MAX,
        }
    }

    spec fn value(self) -> CacheView {
        match self {
            Source::Paged(c) => CacheView::Paged(c@),
            Source::Latent(c) => CacheView::Latent(c@),
        }
    }

    spec fn slots(self) -> int {
        match self {
            Source::Paged(c) => c.slots(),
            Source::Latent(c) => c.slots(),
        }
    }

    spec fn has_head(self, head: int) -> bool {
        match self {
            Source::Paged(c) => 0 <= head < c.hkv,
            Source::Latent(_) => true,
        }
    }

    fn key_width(&self) -> (r: usize)
        requires
            self.wf(),
        ensures
            r == key_width(self.value()),
    {
        match self {
            Source::Paged(c) => c.d,
            Source::Latent(c) => c.latent + c.rope,
        }
    }

    fn value_width(&self) -> (r: usize)
        requires
            self.wf(),
        ensures
            r == value_width(self.value()),
            r > 0,
    {
        match self {
            Source::Paged(c) => c.dv,
            Source::Latent(c) => c.latent,
        }
    }

    fn key_element<F: Fn(FloatOp, u32, u32) -> u32>(
        &self,
        f: &F,
        head: usize,
        slot: usize,
        dim: usize,
    ) -> (r: u32)
        requires
            is_arith(*f),
            self.wf(),
            self.has_head(head as int),
            slot < self.slots(),
            dim < key_width(self.value()),
        ensures
            r == key_at(*f, self.value(), head as int, slot as int, dim as int),
    {
        match self {
            Source::Paged(c) => c.key(f, slot, head, dim),
            Source::Latent(c) => {
                if dim < c.latent {
                    c.latent_at(f, slot, dim)
                } else {
                    c.rope_at(slot, dim - c.latent)
                }
            },
        }
    }

    fn value_element<F: Fn(FloatOp, u32, u32) -> u32>(
        &self,
        f: &F,
        head: usize,
        slot: usize,
        dim: usize,
    ) -> (r: u32)
        requires
            is_arith(*f),
            self.wf(),
            self.has_head(head as int),
            slot < self.slots(),
            dim < value_width(self.value()),
        ensures
            r == value_at(*f, self.value(), head as int, slot as int, dim as int),
    {
        match self {
            Source::Paged(c) => c.value(f, slot, head, dim),
            Source::Latent(c) => c.latent_at(f, slot, dim),
        }
    }

    fn score<F: Fn(FloatOp, u32, u32) -> u32>(
        &self,
        f: &F,
        op: &AttentionOp,
        head: usize,
        slot: usize,
        row: &[u32],
    ) -> (r: u32)
        requires
            is_arith(*f),
            self.wf(),
            self.has_head(head as int),
            slot < self.slots(),
            row@.len() == key_width(self.value()),
        ensures
            r == score(*f, *op, self.value(), head as int, slot as int, row@),
    {
        let mut s: u32 = 0;
        let mut i: usize = 0;
        while i < row.len()
            invariant
                i <= row@.len(),
                is_arith(*f),
                self.wf(),
                self.has_head(head as int),
                slot < self.slots(),
                row@.len() == key_width(self.value()),
                s == dot(*f, self.value(), head as int, slot as int, row@, i as int),
            decreases row@.len() - i,
        {
            let k: u32 = self.key_element(f, head, slot, i);
            s = plus(f, s, times(f, row[i], k));
            i += 1;
        }
        s = times(f, s, op.softmax_scale);
        match op.logit_softcap {
            Some(cap) => softcap_value(f, s, cap),
            None => s,
        }
    }

    fn attend<F: Fn(FloatOp, u32, u32) -> u32>(
        &self,
        f: &F,
        op: &AttentionOp,
        head: usize,
        row: &[u32],
        slots: &[usize],
    ) -> (r: Vec<u32>)
        requires
            is_arith(*f),
            self.wf(),
            self.has_head(head as int),
            row@.len() == key_width(self.value()),
            forall|i: int| 0 <= i < slots@.len() ==> #[trigger] slots@[i] < self.slots(),
        ensures
            r@ == softmax(*f, *op, self.value(), head as int, row@, slots@).mean(*f),
            r@.len() == value_width(self.value()),
    {
        let dv: usize = self.value_width();
        let mut m: u32 = NEG_INFINITY;
        let mut l: u32 = 0;
        let mut acc: Vec<u32> = vec![0u32; dv];
        assert(slots@.take(0).len() == 0);
        assert((Softmax { m, l, acc: acc@ }) =~= Softmax::start(dv as int));
        let mut p: usize = 0;
        while p < slots.len()
            invariant
                p <= slots@.len(),
                is_arith(*f),
                self.wf(),
                self.has_head(head as int),
                row@.len() == key_width(self.value()),
                dv == value_width(self.value()),
                forall|i: int| 0 <= i < slots@.len() ==> #[trigger] slots@[i] < self.slots(),
                acc@.len() == dv,
                softmax(
                    *f,
                    *op,
                    self.value(),
                    head as int,
                    row@,
                    slots@.take(p as int),
                ) == (Softmax { m, l, acc: acc@ }),
            decreases slots@.len() - p,
        {
            let ghost state = Softmax { m, l, acc: acc@ };
            assert(slots@.take(p + 1).drop_last() =~= slots@.take(p as int));
            let slot: usize = slots[p];
            let s: u32 = self.score(f, op, head, slot, row);
            let m_new: u32 = compute(f, FloatOp::Max, m, s);
            let a: u32 = compute(f, FloatOp::Exp, compute(f, FloatOp::Minus, m, m_new), 0);
            let b: u32 = compute(f, FloatOp::Exp, compute(f, FloatOp::Minus, s, m_new), 0);
            l = plus(f, times(f, l, a), b);
            let ghost values = value_row(*f, self.value(), head as int, slot as int);
            let ghost next = state.next(*f, s, values);
            let mut j: usize = 0;
            while j < dv
                invariant
                    j <= dv,
                    is_arith(*f),
                    self.wf(),
                    self.has_head(head as int),
                    slot < self.slots(),
                    dv == value_width(self.value()),
                    values == value_row(*f, self.value(), head as int, slot as int),
                    next == state.next(*f, s, values),
                    m_new == next.m,
                    a == fp(*f, FloatOp::Exp, fp(*f, FloatOp::Minus, state.m, m_new), 0),
                    b == fp(*f, FloatOp::Exp, fp(*f, FloatOp::Minus, s, m_new), 0),
                    acc@.len() == dv,
                    state.acc.len() == dv,
                    forall|i: int| 0 <= i < j ==> acc@[i] == next.acc[i],
                    forall|i: int| j <= i < dv ==> acc@[i] == state.acc[i],
                decreases dv - j,
            {
                let v: u32 = self.value_element(f, head, slot, j);
                assert(values[j as int] == v);
                let scaled: u32 = times(f, acc[j], a);
                acc[j] = plus(f, scaled, times(f, b, v));
                j += 1;
            }
            m = m_new;
            assert((Softmax { m, l, acc: acc@ }) =~= next);
            p += 1;
        }
        assert(slots@.take(p as int) =~= slots@);
        let ghost done = softmax(*f, *op, self.value(), head as int, row@, slots@);
        let mut out: Vec<u32> = Vec::new();
        let mut j: usize = 0;
        while j < dv
            invariant
                j <= dv,
                is_arith(*f),
                acc@.len() == dv,
                done == (Softmax { m, l, acc: acc@ }),
                out@.len() == j,
                forall|i: int| 0 <= i < j ==> out@[i] == done.mean(*f)[i],
            decreases dv - j,
        {
            out.push(compute(f, FloatOp::Over, acc[j], l));
            j += 1;
        }
        assert(out@ =~= done.mean(*f));
        out
    }

    fn head_of(&self, heads: usize, head: usize) -> (r: usize)
        requires
            self.wf(),
            head < heads,
            self matches Source::Paged(c) ==> heads % c.hkv == 0,
        ensures
            r == cached_head(self.value(), heads as int, head as int),
            self.has_head(r as int),
    {
        match self {
            Source::Paged(c) => {
                proof {
                    lemma_group_of(heads as int, c.hkv as int, head as int);
                }
                head / (heads / c.hkv)
            },
            Source::Latent(_) => 0,
        }
    }

    fn run<F: Fn(FloatOp, u32, u32) -> u32>(
        &self,
        f: &F,
        op: &AttentionOp,
        q: &TensorView<'_>,
        plans: &Vec<Vec<usize>>,
    ) -> (r: Vec<u32>)
        requires
            is_arith(*f),
            self.wf(),
            q@.rank() == 3,
            q@.backed(),
            q@.shape[1] > 0,
            q@.shape[2] == key_width(self.value()),
            plans@.len() == q@.shape[0],
            self matches Source::Paged(c) ==> q@.shape[1] % c.hkv == 0,
            forall|i: int, j: int|
                0 <= i < plans@.len() && 0 <= j < plans@[i]@.len() ==> #[trigger] plans@[i]@[j]
                    < self.slots(),
        ensures
            r@ == attention_values(
                *f,
                *op,
                q@,
                self.value(),
                slot_lists(plans@),
                q@.shape[0] * q@.shape[1],
            ),
    {
        let t: usize = q.shape()[0];
        let h: usize = q.shape()[1];
        let d: usize = self.key_width();
        let dv: usize = self.value_width();
        let ghost cache = self.value();
        let ghost lists = slot_lists(plans@);
        proof {
            lemma_extent3(q@.shape);
        }
        let mut out: Vec<u32> = Vec::new();
        let mut tok: usize = 0;
        assert(out@ =~= attention_values(*f, *op, q@, cache, lists, 0 * h)) by {
            assert(0 * h == 0) by (nonlinear_arith);
            assert((0 * h) * dv == 0) by (nonlinear_arith);
        }
        while tok < t
            invariant
                tok <= t,
                is_arith(*f),
                self.wf(),
                cache == self.value(),
                lists == slot_lists(plans@),
                q@.rank() == 3,
                q@.backed(),
                t == q@.shape[0],
                h == q@.shape[1],
                h > 0,
                d == key_width(cache),
                dv == value_width(cache),
                dv > 0,
                q@.shape[2] == d,
                q@.count() == t * h * d,
                t * h <= usize::MAX,
                plans@.len() == t,
                self matches Source::Paged(c) ==> h % c.hkv == 0,
                forall|i: int, j: int|
                    0 <= i < plans@.len() && 0 <= j < plans@[i]@.len() ==> #[trigger] plans@[i]@[j]
                        < self.slots(),
                out@ == attention_values(*f, *op, q@, cache, lists, tok * h),
            decreases t - tok,
        {
            let mut head: usize = 0;
            while head < h
                invariant
                    head <= h,
                    tok < t,
                    is_arith(*f),
                    self.wf(),
                    cache == self.value(),
                    lists == slot_lists(plans@),
                    q@.rank() == 3,
                    q@.backed(),
                    t == q@.shape[0],
                    h == q@.shape[1],
                    h > 0,
                    d == key_width(cache),
                    dv == value_width(cache),
                    dv > 0,
                    q@.shape[2] == d,
                    q@.count() == t * h * d,
                    t * h <= usize::MAX,
                    plans@.len() == t,
                    self matches Source::Paged(c) ==> h % c.hkv == 0,
                    forall|i: int, j: int|
                        0 <= i < plans@.len() && 0 <= j < plans@[i]@.len()
                            ==> #[trigger] plans@[i]@[j] < self.slots(),
                    out@ == attention_values(*f, *op, q@, cache, lists, tok * h + head),
                decreases h - head,
            {
                let ghost before = out@;
                proof {
                    lemma_flat_bound(tok as int, t as int, head as int, h as int);
                    lemma_mul_nonneg(tok as int, h as int);
                    lemma_row_held(q@.cells, tok * h + head, t * h, d as int);
                }
                let base: usize = (tok * h + head) * d;
                let row = read_row(q, base, d);
                let kv_head: usize = self.head_of(h, head);
                let mut part = self.attend(f, op, kv_head, row.as_slice(), plans[tok].as_slice());
                assert(lists[tok as int] == plans@[tok as int]@);
                assert(part@ == attended(*f, *op, q@, cache, lists, tok as int, head as int));
                let ghost values = part@;
                out.append(&mut part);
                proof {
                    lemma_next_row(
                        *f,
                        *op,
                        q@,
                        cache,
                        lists,
                        tok as int,
                        head as int,
                        before,
                        values,
                    );
                }
                head += 1;
            }
            assert((tok + 1) * h == tok * h + h) by (nonlinear_arith);
            tok += 1;
        }
        out
    }
}

/// A query head falls into one of the cached heads.
proof fn lemma_group_of(heads: int, hkv: int, head: int)
    requires
        0 <= head < heads,
        0 < hkv,
        heads % hkv == 0,
    ensures
        0 < heads / hkv,
        0 <= head / (heads / hkv) < hkv,
{
    let n = heads / hkv;
    vstd::arithmetic::div_mod::lemma_fundamental_div_mod(heads, hkv);
    assert(heads == hkv * n);
    assert(n > 0) by (nonlinear_arith)
        requires
            heads == hkv * n,
            heads > 0,
            hkv > 0,
    ;
    vstd::arithmetic::div_mod::lemma_fundamental_div_mod(head, n);
    assert(head / n < hkv) by (nonlinear_arith)
        requires
            head == n * (head / n) + head % n,
            0 <= head % n,
            head < hkv * n,
            n > 0,
    ;
    assert(0 <= head / n) by (nonlinear_arith)
        requires
            head >= 0,
            n > 0,
    ;
}

/// The output up to a row, followed by that row, is the output up to the next.
proof fn lemma_next_row<F: Fn(FloatOp, u32, u32) -> u32>(
    f: F,
    op: AttentionOp,
    q: Tensor,
    cache: CacheView,
    plans: Seq<Seq<usize>>,
    tok: int,
    head: int,
    before: Seq<u32>,
    row: Seq<u32>,
)
    requires
        0 <= tok,
        0 <= head < q.shape[1],
        0 < value_width(cache),
        before == attention_values(f, op, q, cache, plans, tok * q.shape[1] + head),
        row == attended(f, op, q, cache, plans, tok, head),
        row.len() == value_width(cache),
    ensures
        before + row == attention_values(f, op, q, cache, plans, tok * q.shape[1] + head + 1),
{
    let h = q.shape[1] as int;
    let dv = value_width(cache);
    let r = tok * h + head;
    let after = attention_values(f, op, q, cache, plans, r + 1);
    lemma_mul_nonneg(tok, h);
    lemma_mul_nonneg(r, dv);
    assert((r + 1) * dv == r * dv + dv) by (nonlinear_arith);
    lemma_split(tok, head, h);
    assert forall|i: int| 0 <= i < after.len() implies (before + row)[i] == after[i] by {
        if i >= r * dv {
            lemma_split(r, i - r * dv, dv);
        }
    }
    assert(before + row =~= after);
}

/// What decides which positions are seen.
pub open spec fn sight_of(op: AttentionOp, group: u32) -> Sight {
    Sight { group, sinks: op.sinks as u64, is_tree: op.mask == AttentionMask::Tree }
}

fn sight_for(op: &AttentionOp, group: u32) -> (r: Sight)
    ensures
        r == sight_of(*op, group),
{
    Sight { group, sinks: op.sinks as u64, is_tree: op.mask == AttentionMask::Tree }
}

/// Slots that every query token reads, or the error that the problems amount
/// to.
pub open spec fn slot_plan(
    list: Seq<ErrorView>,
    op: AttentionOp,
    meta: BatchMeta,
    group: u32,
    written: Seq<bool>,
) -> Result<Seq<Seq<usize>>, ErrorView> {
    if group >= meta.num_groups {
        Err(fault_of(list)->0)
    } else {
        match query_plan(meta) {
            Err(e) => Err(fault_of(list.push(e))->0),
            Ok(all) => {
                let (plans, problems) = sights(
                    meta,
                    sight_of(op, group),
                    written,
                    all,
                    list,
                    all.len() as int,
                );
                match fault_of(problems) {
                    Some(e) => Err(e),
                    None => Ok(plans),
                }
            },
        }
    }
}

/// Finding problems never loses one.
pub proof fn lemma_problems_grow(
    meta: BatchMeta,
    sight: Sight,
    written: Seq<bool>,
    all: Seq<QueryInfo>,
    list: Seq<ErrorView>,
    n: int,
)
    ensures
        sights(meta, sight, written, all, list, n).1.len() >= list.len(),
    decreases n,
{
    if n > 0 {
        lemma_problems_grow(meta, sight, written, all, list, n - 1);
        let (plans, problems) = sights(meta, sight, written, all, list, n - 1);
        let q = all[n - 1];
        if q.seq <= u32::MAX {
            match crate::batch::window_result(meta, sight.group, q.seq as u32) {
                Ok(w) => {
                    lemma_scan_grows(
                        meta,
                        sight,
                        written,
                        w as int,
                        n - 1,
                        q,
                        problems,
                        crate::visibility::horizon(sight, q),
                    );
                },
                Err(_) => {},
            }
        }
    }
}

proof fn lemma_scan_grows(
    meta: BatchMeta,
    sight: Sight,
    written: Seq<bool>,
    window_start: int,
    tok: int,
    q: QueryInfo,
    list: Seq<ErrorView>,
    positions: int,
)
    ensures
        crate::visibility::scan(
            meta,
            sight,
            written,
            window_start,
            tok,
            q,
            list,
            positions,
        ).1.len() >= list.len(),
    decreases positions,
{
    if positions > 0 {
        lemma_scan_grows(meta, sight, written, window_start, tok, q, list, positions - 1);
    }
}

/// Finds the slots that every query token reads.
fn plan_slots(
    problems: Vec<T0Error>,
    op: &AttentionOp,
    meta: &BatchMeta,
    group: u32,
    written: &[bool],
) -> (r: Result<Vec<Vec<usize>>, T0Error>)
    requires
        meta.wf(),
        group >= meta.num_groups ==> views(problems@).len() > 0,
    ensures
        match slot_plan(views(problems@), *op, *meta, group, written@) {
            Err(e) => r is Err && r->Err_0.view() == e,
            Ok(plans) => {
                &&& r is Ok
                &&& slot_lists(r->Ok_0@) == plans
                &&& r->Ok_0@.len() == meta.total_tokens
                &&& views(problems@).len() == 0
                &&& group < meta.num_groups
                &&& forall|i: int, j: int|
                    0 <= i < r->Ok_0@.len() && 0 <= j < r->Ok_0@[i]@.len()
                        ==> #[trigger] r->Ok_0@[i]@[j] < written@.len()
            },
        },
{
    let mut problems = problems;
    let ghost list = views(problems@);
    if group as usize >= meta.num_groups() {
        return match T0Error::from_problems(problems) {
            Err(e) => Err(e),
            Ok(_) => Ok(Vec::new()),
        };
    }
    let all = match plan_queries(meta) {
        Ok(all) => all,
        Err(e) => {
            push_problem(&mut problems, e);
            return match T0Error::from_problems(problems) {
                Err(e) => Err(e),
                Ok(_) => Ok(Vec::new()),
            };
        },
    };
    let plans = plan_visible(meta, sight_for(op, group), all.as_slice(), written, &mut problems);
    proof {
        lemma_problems_grow(
            *meta,
            sight_of(*op, group),
            written@,
            all@,
            list,
            all@.len() as int,
        );
    }
    match T0Error::from_problems(problems) {
        Ok(_) => Ok(plans),
        Err(e) => Err(e),
    }
}

/// Problems of attention over a paged cache.
pub open spec fn paged_attention_faults(
    op: AttentionOp,
    q: Tensor,
    o: Tensor,
    meta: BatchMeta,
    group: u32,
    hkv: usize,
    d: usize,
    dv: usize,
) -> Seq<ErrorView> {
    let form = attention_faults(op, q, o, meta, group) + given(
        op.handle.kind != StateKind::KvPaged,
        attr_error(
            "attention",
            "handle",
            quoting(
                "paged attention requires a KvPaged handle, got {}",
                seq![Arg::State(op.handle.kind)],
            ),
        ),
    ) + given(
        op.mla is Some,
        attr_error(
            "attention",
            "mla",
            plain("paged attention takes no MLA spec; use attention_mla with a KvLatent cache"),
        ),
    );
    if q.rank() == 3 && o.rank() == 3 {
        form + given(
            q.shape[1] as int % hkv as int != 0,
            attr_error(
                "attention",
                "qkv_heads",
                quoting(
                    "H ({}) must be a multiple of Hkv ({}) for GQA/MQA grouping",
                    seq![Arg::Int(q.shape[1] as u64), Arg::Int(hkv as u64)],
                ),
            ),
        ) + dim_faults("D", "cache", d, "q", q.shape[2]) + dim_faults(
            "Dv",
            "cache",
            dv,
            "o",
            o.shape[2],
        )
    } else {
        form
    }
}

/// Plan of attention over a paged cache, or its error.
pub open spec fn paged_attention_plan(
    op: AttentionOp,
    q: Tensor,
    o: Tensor,
    meta: BatchMeta,
    group: u32,
    cache: PagedView,
) -> Result<Seq<Seq<usize>>, ErrorView> {
    slot_plan(
        paged_attention_faults(op, q, o, meta, group, cache.hkv, cache.d, cache.dv),
        op,
        meta,
        group,
        cache.written,
    )
}

/// The output after attention.
pub open spec fn attention_output<F: Fn(FloatOp, u32, u32) -> u32>(
    f: F,
    op: AttentionOp,
    q: Tensor,
    o: Tensor,
    cache: CacheView,
    plans: Seq<Seq<usize>>,
) -> Tensor {
    o.with_cells(
        o.cells.with_f32s(
            attention_values(f, op, q, cache, plans, q.shape[0] * q.shape[1]),
        ),
    )
}

/// Attention over a paged cache. An error leaves the output unchanged.
pub fn attention_paged<F: Fn(FloatOp, u32, u32) -> u32>(
    f: &F,
    op: &AttentionOp,
    q: &TensorView<'_>,
    meta: &BatchMeta,
    group: u32,
    cache: &KvPagedCache,
    o: &mut TensorViewMut<'_>,
) -> (r: Result<(), T0Error>)
    requires
        is_arith(*f),
        meta.wf(),
        cache.wf(),
    ensures
        match paged_attention_plan(*op, q@, old(o)@, *meta, group, cache@) {
            Err(e) => r is Err && r->Err_0.view() == e && final(o)@ == old(o)@,
            Ok(plans) => r is Ok && final(o)@ == attention_output(
                *f,
                *op,
                q@,
                old(o)@,
                CacheView::Paged(cache@),
                plans,
            ),
        },
        match (old(o).data, final(o).data) {
            (TensorDataMut::F32(a), TensorDataMut::F32(b)) => {
                a@.len() == b@.len() && (*final(a))@ == (*final(b))@
            },
            (TensorDataMut::F16(a), TensorDataMut::F16(b)) => {
                a@.len() == b@.len() && (*final(a))@ == (*final(b))@
            },
            (TensorDataMut::Bf16(a), TensorDataMut::Bf16(b)) => {
                a@.len() == b@.len() && (*final(a))@ == (*final(b))@
            },
            (TensorDataMut::I8(a), TensorDataMut::I8(b)) => {
                a@.len() == b@.len() && (*final(a))@ == (*final(b))@
            },
            (TensorDataMut::U32(a), TensorDataMut::U32(b)) => {
                a@.len() == b@.len() && (*final(a))@ == (*final(b))@
            },
            (TensorDataMut::Bytes(d, a), TensorDataMut::Bytes(e, b)) => {
                d == e && a@.len() == b@.len() && (*final(a))@ == (*final(b))@
            },
            _ => false,
        },
{
    let mut problems = validate_attention_common(op, q, o, meta, group);
    let ghost common = views(problems@);
    push_when(
        &mut problems,
        op.handle.kind != StateKind::KvPaged,
        invalid_attr(
            "attention",
            "handle",
            Detail::one(
                "paged attention requires a KvPaged handle, got {}",
                Arg::State(op.handle.kind),
            ),
        ),
    );
    push_when(
        &mut problems,
        op.mla.is_some(),
        invalid_attr(
            "attention",
            "mla",
            Detail::plain(
                "paged attention takes no MLA spec; use attention_mla with a KvLatent cache",
            ),
        ),
    );
    if q.rank() == 3 && o.rank() == 3 {
        let h: usize = q.shape()[1];
        push_when(
            &mut problems,
            h % cache.hkv != 0,
            invalid_attr(
                "attention",
                "qkv_heads",
                Detail::two(
                    "H ({}) must be a multiple of Hkv ({}) for GQA/MQA grouping",
                    Arg::Int(h as u64),
                    Arg::Int(cache.hkv as u64),
                ),
            ),
        );
        check_dim(&mut problems, "D", "cache", cache.d, "q", q.shape()[2]);
        check_dim(&mut problems, "Dv", "cache", cache.dv, "o", o.shape()[2]);
    }
    let ghost list = views(problems@);
    proof {
        lemma_group_fault(*op, q@, o@, *meta, group);
    }
    let plans = match plan_slots(problems, op, meta, group, cache.written.as_slice()) {
        Ok(p) => p,
        Err(e) => {
            return Err(e);
        },
    };
    proof {
        assert(list.len() == 0);
        assert(common.len() == 0);
        lemma_no_attention_faults(*op, q@, o@, *meta, group);
        lemma_extent3(o@.shape);
    }
    let values = Source::Paged(cache).run(f, op, q, &plans);
    o.write_all(values.as_slice());
    Ok(())
}

/// Checking the attributes loses no problem.
proof fn lemma_attributes_grow(
    list: Seq<ErrorView>,
    op: AttentionOp,
    meta: BatchMeta,
    group: u32,
)
    ensures
        attribute_faults(list, op, meta, group).len() >= list.len(),
        group >= meta.num_groups ==> attribute_faults(list, op, meta, group).len() > 0,
{
}

/// A group that the batch does not have and operands of another rank are among
/// the problems.
pub proof fn lemma_group_fault(op: AttentionOp, q: Tensor, o: Tensor, meta: BatchMeta, group: u32)
    ensures
        group >= meta.num_groups ==> attention_faults(op, q, o, meta, group).len() > 0,
        q.rank() != 3 || o.rank() != 3 ==> attention_faults(op, q, o, meta, group).len() > 0,
{
    reveal(attention_faults);
    let backing = and_fault(and_fault(clear(), q.backing_fault("q")), o.backing_fault("o"));
    let form = backing + row_major_faults("q", q.layout) + row_major_faults("o", o.layout)
        + rank_faults("q", 3, q.shape) + rank_faults("o", 3, o.shape) + float_faults("q", q.dtype())
        + given(
        !is_float(op.out_dtype),
        attr_error(
            "attention",
            "out_dtype",
            quoting("must be f16, bf16, or f32; got {}", seq![Arg::Type(op.out_dtype)]),
        ),
    ) + dtype_faults("o", op.out_dtype, o.dtype());
    assert(q.rank() != 3 || o.rank() != 3 ==> form.len() > 0);
    lemma_attributes_grow(form, op, meta, group);
}

/// Problems of the widths of compressed attention.
pub open spec fn mla_dim_faults(
    list: Seq<ErrorView>,
    op: AttentionOp,
    qd: usize,
    od: usize,
    latent: usize,
    rope: usize,
) -> Seq<ErrorView> {
    match op.mla {
        None => list.push(
            attr_error("attention", "mla", plain("latent attention requires an MLA spec")),
        ),
        Some(m) => {
            let width = m.qk_nope_dim + m.qk_rope_dim;
            list + given(
                width != qd,
                dim_error(
                    "D",
                    "mla.nope+rope",
                    crate::visibility::capped_size(width),
                    "q",
                    qd,
                ),
            ) + dim_faults("Dv", "mla.v_dim", m.v_dim as usize, "o", od) + given(
                m.qk_nope_dim != m.kv_lora_rank,
                attr_error(
                    "attention",
                    "mla.qk_nope_dim",
                    quoting(
                        "absorbed MLA requires qk_nope_dim ({}) == kv_lora_rank ({}); see SI-46",
                        seq![Arg::Int(m.qk_nope_dim as u64), Arg::Int(m.kv_lora_rank as u64)],
                    ),
                ),
            ) + dim_faults("rope", "cache", rope, "mla.qk_rope_dim", m.qk_rope_dim as usize)
                + dim_faults(
                "latent",
                "cache",
                latent,
                "mla.kv_lora_rank",
                m.kv_lora_rank as usize,
            ) + given(
                m.v_dim != m.kv_lora_rank,
                attr_error(
                    "attention",
                    "mla.v_dim",
                    quoting(
                        "absorbed MLA requires v_dim ({}) == kv_lora_rank ({}); see SI-46",
                        seq![Arg::Int(m.v_dim as u64), Arg::Int(m.kv_lora_rank as u64)],
                    ),
                ),
            )
        },
    }
}

/// Checks the widths of compressed attention: queries are already in the space
/// of latent rows.
pub fn validate_mla_dims(
    op: &AttentionOp,
    qd: usize,
    od: usize,
    cache: &KvLatentCache,
    problems: &mut Vec<T0Error>,
)
    ensures
        views(final(problems)@) == mla_dim_faults(
            views(old(problems)@),
            *op,
            qd,
            od,
            cache.latent,
            cache.rope,
        ),
{
    match op.mla {
        None => {
            push_problem(
                problems,
                invalid_attr(
                    "attention",
                    "mla",
                    Detail::plain("latent attention requires an MLA spec"),
                ),
            );
        },
        Some(m) => {
            let width: u64 = m.qk_nope_dim as u64 + m.qk_rope_dim as u64;
            let expected: usize = if width > usize::MAX as u64 {
                usize::MAX
            } else {
                width as usize
            };
            push_when(
                problems,
                width != qd as u64,
                dim_mismatch("D", "mla.nope+rope", expected, "q", qd),
            );
            check_dim(problems, "Dv", "mla.v_dim", m.v_dim as usize, "o", od);
            push_when(
                problems,
                m.qk_nope_dim != m.kv_lora_rank,
                invalid_attr(
                    "attention",
                    "mla.qk_nope_dim",
                    Detail::two(
                        "absorbed MLA requires qk_nope_dim ({}) == kv_lora_rank ({}); see SI-46",
                        Arg::Int(m.qk_nope_dim as u64),
                        Arg::Int(m.kv_lora_rank as u64),
                    ),
                ),
            );
            check_dim(
                problems,
                "rope",
                "cache",
                cache.rope,
                "mla.qk_rope_dim",
                m.qk_rope_dim as usize,
            );
            check_dim(
                problems,
                "latent",
                "cache",
                cache.latent,
                "mla.kv_lora_rank",
                m.kv_lora_rank as usize,
            );
            push_when(
                problems,
                m.v_dim != m.kv_lora_rank,
                invalid_attr(
                    "attention",
                    "mla.v_dim",
                    Detail::two(
                        "absorbed MLA requires v_dim ({}) == kv_lora_rank ({}); see SI-46",
                        Arg::Int(m.v_dim as u64),
                        Arg::Int(m.kv_lora_rank as u64),
                    ),
                ),
            );
        },
    }
}

/// Problems of attention over a latent cache.
pub open spec fn mla_faults(
    op: AttentionOp,
    q: Tensor,
    o: Tensor,
    meta: BatchMeta,
    group: u32,
    latent: usize,
    rope: usize,
) -> Seq<ErrorView> {
    let form = attention_faults(op, q, o, meta, group) + given(
        op.handle.kind != StateKind::KvLatent,
        attr_error(
            "attention",
            "handle",
            quoting(
                "MLA attention requires a KvLatent handle, got {}",
                seq![Arg::State(op.handle.kind)],
            ),
        ),
    );
    if q.rank() == 3 && o.rank() == 3 {
        mla_dim_faults(form, op, q.shape[2], o.shape[2], latent, rope)
    } else {
        form
    }
}

/// Plan of attention over a latent cache, or its error. Without widths nothing
/// is looked up.
pub open spec fn mla_plan(
    op: AttentionOp,
    q: Tensor,
    o: Tensor,
    meta: BatchMeta,
    group: u32,
    cache: LatentView,
) -> Result<Seq<Seq<usize>>, ErrorView> {
    let list = mla_faults(op, q, o, meta, group, cache.latent, cache.rope);
    if op.mla is None && group < meta.num_groups && query_plan(meta) is Ok {
        Err(fault_of(list)->0)
    } else {
        slot_plan(list, op, meta, group, cache.written)
    }
}

/// Without widths there is a problem.
proof fn lemma_mla_missing(
    op: AttentionOp,
    q: Tensor,
    o: Tensor,
    meta: BatchMeta,
    group: u32,
    latent: usize,
    rope: usize,
)
    ensures
        op.mla is None ==> mla_faults(op, q, o, meta, group, latent, rope).len() > 0,
        group >= meta.num_groups ==> mla_faults(op, q, o, meta, group, latent, rope).len() > 0,
{
    lemma_group_fault(op, q, o, meta, group);
}

/// Attention over a latent cache: the key of a position is its latent row
/// followed by its rotary row, the value is the latent row, and all heads share
/// them. An error leaves the output unchanged.
pub fn attention_mla<F: Fn(FloatOp, u32, u32) -> u32>(
    f: &F,
    op: &AttentionOp,
    q: &TensorView<'_>,
    meta: &BatchMeta,
    group: u32,
    cache: &KvLatentCache,
    o: &mut TensorViewMut<'_>,
) -> (r: Result<(), T0Error>)
    requires
        is_arith(*f),
        meta.wf(),
        cache.wf(),
    ensures
        match mla_plan(*op, q@, old(o)@, *meta, group, cache@) {
            Err(e) => r is Err && r->Err_0.view() == e && final(o)@ == old(o)@,
            Ok(plans) => r is Ok && final(o)@ == attention_output(
                *f,
                *op,
                q@,
                old(o)@,
                CacheView::Latent(cache@),
                plans,
            ),
        },
        match (old(o).data, final(o).data) {
            (TensorDataMut::F32(a), TensorDataMut::F32(b)) => {
                a@.len() == b@.len() && (*final(a))@ == (*final(b))@
            },
            (TensorDataMut::F16(a), TensorDataMut::F16(b)) => {
                a@.len() == b@.len() && (*final(a))@ == (*final(b))@
            },
            (TensorDataMut::Bf16(a), TensorDataMut::Bf16(b)) => {
                a@.len() == b@.len() && (*final(a))@ == (*final(b))@
            },
            (TensorDataMut::I8(a), TensorDataMut::I8(b)) => {
                a@.len() == b@.len() && (*final(a))@ == (*final(b))@
            },
            (TensorDataMut::U32(a), TensorDataMut::U32(b)) => {
                a@.len() == b@.len() && (*final(a))@ == (*final(b))@
            },
            (TensorDataMut::Bytes(d, a), TensorDataMut::Bytes(e, b)) => {
                d == e && a@.len() == b@.len() && (*final(a))@ == (*final(b))@
            },
            _ => false,
        },
{
    let mut problems = validate_attention_common(op, q, o, meta, group);
    let ghost common = views(problems@);
    push_when(
        &mut problems,
        op.handle.kind != StateKind::KvLatent,
        invalid_attr(
            "attention",
            "handle",
            Detail::one(
                "MLA attention requires a KvLatent handle, got {}",
                Arg::State(op.handle.kind),
            ),
        ),
    );
    if q.rank() == 3 && o.rank() == 3 {
        validate_mla_dims(op, q.shape()[2], o.shape()[2], cache, &mut problems);
    }
    let ghost list = views(problems@);
    proof {
        lemma_mla_missing(*op, q@, o@, *meta, group, cache.latent, cache.rope);
    }
    if op.mla.is_none() && (group as usize) < meta.num_groups() {
        match plan_queries(meta) {
            Ok(_) => {
                return T0Error::from_problems(problems);
            },
            Err(_) => {},
        }
    }
    let plans = match plan_slots(problems, op, meta, group, cache.written.as_slice()) {
        Ok(p) => p,
        Err(e) => {
            return Err(e);
        },
    };
    proof {
        assert(list.len() == 0);
        assert(common.len() == 0);
        lemma_no_attention_faults(*op, q@, o@, *meta, group);
        lemma_extent3(o@.shape);
    }
    let values = Source::Latent(cache).run(f, op, q, &plans);
    o.write_all(values.as_slice());
    Ok(())
}

/// The error of a handle, widths and a cache that do not go together.
pub open spec fn mixed_error(kind: StateKind, mla: bool, cache: StateKind) -> ErrorView {
    attr_error(
        "attention",
        "handle",
        quoting(
            "handle kind {} with mla={} does not match cache {}; paged attention needs KvPaged without MLA, MLA attention needs KvLatent with an MLA spec",
            seq![Arg::State(kind), Arg::Flag(mla), Arg::State(cache)],
        ),
    )
}

/// Plan of attention over the cache that the handle names, or its error.
pub open spec fn attention_plan(
    op: AttentionOp,
    q: Tensor,
    o: Tensor,
    meta: BatchMeta,
    group: u32,
    cache: CacheView,
) -> Result<Seq<Seq<usize>>, ErrorView> {
    match cache {
        CacheView::Paged(c) => if op.handle.kind == StateKind::KvPaged && op.mla is None {
            paged_attention_plan(op, q, o, meta, group, c)
        } else {
            Err(mixed_error(op.handle.kind, op.mla is Some, StateKind::KvPaged))
        },
        CacheView::Latent(c) => if op.handle.kind == StateKind::KvLatent && op.mla is Some {
            mla_plan(op, q, o, meta, group, c)
        } else {
            Err(mixed_error(op.handle.kind, op.mla is Some, StateKind::KvLatent))
        },
    }
}

/// Attention over the cache that the handle names. An error leaves the output
/// unchanged.
pub fn attention<F: Fn(FloatOp, u32, u32) -> u32>(
    f: &F,
    op: &AttentionOp,
    q: &TensorView<'_>,
    meta: &BatchMeta,
    group: u32,
    cache: &KvCache,
    o: &mut TensorViewMut<'_>,
) -> (r: Result<(), T0Error>)
    requires
        is_arith(*f),
        meta.wf(),
        cache.wf(),
    ensures
        match attention_plan(*op, q@, old(o)@, *meta, group, cache@) {
            Err(e) => r is Err && r->Err_0.view() == e && final(o)@ == old(o)@,
            Ok(plans) => r is Ok && final(o)@ == attention_output(
                *f,
                *op,
                q@,
                old(o)@,
                cache@,
                plans,
            ),
        },
        match (old(o).data, final(o).data) {
            (TensorDataMut::F32(a), TensorDataMut::F32(b)) => {
                a@.len() == b@.len() && (*final(a))@ == (*final(b))@
            },
            (TensorDataMut::F16(a), TensorDataMut::F16(b)) => {
                a@.len() == b@.len() && (*final(a))@ == (*final(b))@
            },
            (TensorDataMut::Bf16(a), TensorDataMut::Bf16(b)) => {
                a@.len() == b@.len() && (*final(a))@ == (*final(b))@
            },
            (TensorDataMut::I8(a), TensorDataMut::I8(b)) => {
                a@.len() == b@.len() && (*final(a))@ == (*final(b))@
            },
            (TensorDataMut::U32(a), TensorDataMut::U32(b)) => {
                a@.len() == b@.len() && (*final(a))@ == (*final(b))@
            },
            (TensorDataMut::Bytes(d, a), TensorDataMut::Bytes(e, b)) => {
                d == e && a@.len() == b@.len() && (*final(a))@ == (*final(b))@
            },
            _ => false,
        },
{
    let kind = op.handle.kind;
    let mla: bool = op.mla.is_some();
    let got = match cache {
        KvCache::Paged(c) => {
            if kind == StateKind::KvPaged && !mla {
                return attention_paged(f, op, q, meta, group, c, o);
            }
            StateKind::KvPaged
        },
        KvCache::Latent(c) => {
            if kind == StateKind::KvLatent && mla {
                return attention_mla(f, op, q, meta, group, c, o);
            }
            StateKind::KvLatent
        },
    };
    let reason = Detail::three(
        "handle kind {} with mla={} does not match cache {}; paged attention needs KvPaged without MLA, MLA attention needs KvLatent with an MLA spec",
        Arg::State(kind),
        Arg::Flag(mla),
        Arg::State(got),
    );
    Err(invalid_attr("attention", "handle", reason))
}

/// The output row of a query head depends on its own query row and on the slots
/// that its token sees, not on the batch around it: decoding one token and
/// computing it within a longer chunk give the same bits.
pub proof fn law_batch_invariance<F: Fn(FloatOp, u32, u32) -> u32>(
    f: F,
    op: AttentionOp,
    cache: CacheView,
    q: Tensor,
    plans: Seq<Seq<usize>>,
    tok: int,
    other_q: Tensor,
    other_plans: Seq<Seq<usize>>,
    other_tok: int,
    head: int,
)
    requires
        q.shape[1] == other_q.shape[1],
        plans[tok] == other_plans[other_tok],
        forall|dim: int|
            0 <= dim < key_width(cache) ==> #[trigger] q.cells.f32_at(
                (tok * q.shape[1] + head) * key_width(cache) + dim,
            ) == other_q.cells.f32_at(
                (other_tok * q.shape[1] + head) * key_width(cache) + dim,
            ),
    ensures
        attended(f, op, q, cache, plans, tok, head) == attended(
            f,
            op,
            other_q,
            cache,
            other_plans,
            other_tok,
            head,
        ),
{
    let width = key_width(cache);
    let h = q.shape[1] as int;
    let a = row_at(q.cells, (tok * h + head) * width, width);
    let b = row_at(other_q.cells, (other_tok * h + head) * width, width);
    assert forall|i: int| 0 <= i < a.len() implies a[i] == b[i] by {
        assert(a[i] == q.cells.f32_at((tok * h + head) * width + i));
    }
    assert(a =~= b);
}

} // verus!
