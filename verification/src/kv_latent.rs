//! Writes of compressed rows into latent caches, and writes by the kind of
//! state.
use vstd::prelude::*;
use crate::arith::{is_arith, FloatOp};
use crate::batch::BatchMeta;
use crate::buffer::{lemma_extent3, Tensor, TensorView};
use crate::check::{
    attr_error, check_dim, dim_faults, fault_of, given, invalid_attr, length_error,
    length_mismatch, push_when,
};
use crate::dtype::f32_of_f16;
use crate::error::{
    plain, push_problem, quoting, views, Arg, Detail, ErrorView, FormatError, T0Error,
};
use crate::index::{lemma_flat_bound, lemma_mul_nonneg};
use crate::ir::{DType, StateKind};
use crate::kv_cache::{
    is_cache_dtype, KvCache, KvLatentCache, PlaneView,
};
use crate::kv_rows::{
    encode_row, encoded_row, half_codes, half_row, read_row, row_at, spliced, store_part, Row,
    RowPlace, RowView,
};
use crate::kv_write::{
    bad_row_faults, check_bad_row, count_non_finite, is_scaled, lemma_no_write_faults,
    lemma_row_fits, lemma_row_held, lemma_with_row_wf, non_finite, paged_plan, plan_faults,
    plan_write_slots, state_write_kv_paged, target, validate_write_common,
    write_faults, PagedView, StateWriteKvOp,
};
use crate::weight::{is_format, FormatQuery};

verus! {

/// Value of a latent cache.
#[verifier::ext_equal]
pub struct LatentView {
    /// Number of blocks.
    pub num_blocks: usize,
    /// Width of a latent row.
    pub latent: usize,
    /// Width of a rotary row.
    pub rope: usize,
    /// Stored type of latent rows.
    pub dtype: DType,
    /// Latent rows.
    pub rows: PlaneView,
    /// Rotary rows.
    pub rope_f16: Seq<u16>,
    /// Whether each slot was ever written.
    pub written: Seq<bool>,
}

impl View for KvLatentCache {
    type V = LatentView;

    open spec fn view(&self) -> LatentView {
        LatentView {
            num_blocks: self.num_blocks,
            latent: self.latent,
            rope: self.rope,
            dtype: self.dtype,
            rows: self.rows@,
            rope_f16: self.rope_f16@,
            written: self.written@,
        }
    }
}

impl LatentView {
    /// Whether the storage has the extents of the cache.
    pub open spec fn wf(self) -> bool {
        &&& is_cache_dtype(self.dtype)
        &&& self.rows.wf(self.dtype, self.written.len() * self.latent, self.written.len() as int)
        &&& self.rope_f16.len() == self.written.len() * self.rope
    }

    /// Element of a latent row.
    pub open spec fn latent_at<F: Fn(FloatOp, u32, u32) -> u32>(
        self,
        f: F,
        slot: int,
        dim: int,
    ) -> u32 {
        self.rows.value(f, self.dtype, slot * self.latent + dim, slot)
    }

    /// Element of a rotary row.
    pub open spec fn rope_at(self, slot: int, dim: int) -> u32 {
        f32_of_f16(self.rope_f16[slot * self.rope + dim])
    }
}

/// Rows of one token on their way into a slot.
pub struct LatentRows {
    /// Slot.
    pub slot: usize,
    /// Latent row.
    pub latent: Row,
    /// Rotary row.
    pub rope: Vec<u16>,
}

/// Value of [`LatentRows`].
#[verifier::ext_equal]
pub struct LatentRowsView {
    /// Slot.
    pub slot: usize,
    /// Latent row.
    pub latent: RowView,
    /// Rotary row.
    pub rope: Seq<u16>,
}

impl View for LatentRows {
    type V = LatentRowsView;

    open spec fn view(&self) -> LatentRowsView {
        LatentRowsView { slot: self.slot, latent: self.latent@, rope: self.rope@ }
    }
}

/// Values of planned writes.
pub open spec fn latent_views(plan: Seq<LatentRows>) -> Seq<LatentRowsView> {
    Seq::new(plan.len(), |i: int| plan[i]@)
}

impl LatentView {
    /// The cache with the rows of a token in a slot, which is then written.
    pub open spec fn with_token(self, t: LatentRowsView) -> LatentView {
        LatentView {
            rows: self.rows.with_row(t.slot * self.latent, t.slot as int, t.latent),
            rope_f16: spliced(self.rope_f16, t.slot * self.rope, t.rope),
            written: self.written.update(t.slot as int, true),
            ..self
        }
    }

    /// The cache with planned writes done in order.
    pub open spec fn with_tokens(self, plan: Seq<LatentRowsView>) -> LatentView
        decreases plan.len(),
    {
        if plan.len() == 0 {
            self
        } else {
            self.with_tokens(plan.drop_last()).with_token(plan.last())
        }
    }
}

/// Whether the operands are one latent and one rotary row per token.
pub open spec fn is_split(op: StateWriteKvOp, c_kv: Tensor, k_rope: Tensor) -> bool {
    c_kv.shape[2] == op.latent->0.kv_lora_rank && k_rope.shape[2] == op.latent->0.rope_dim
}

/// Whether the first operand holds both rows of each token.
pub open spec fn is_combined(op: StateWriteKvOp, c_kv: Tensor) -> bool {
    c_kv.shape[2] == op.latent->0.kv_lora_rank + op.latent->0.rope_dim
}

/// Problem of an operand with several heads.
pub open spec fn latent_head_faults(tensor: &'static str, shape: Seq<usize>) -> Seq<ErrorView> {
    if shape.len() == 3 {
        dim_faults("H", "KvLatent (no head dimension)", 1, tensor, shape[1])
    } else {
        Seq::empty()
    }
}

/// Checks that an operand has one head.
pub fn check_latent_heads(shape: &[usize], tensor: &'static str, problems: &mut Vec<T0Error>)
    ensures
        views(final(problems)@) == views(old(problems)@) + latent_head_faults(tensor, shape@),
{
    if shape.len() == 3 {
        check_dim(problems, "H", "KvLatent (no head dimension)", 1, tensor, shape[1]);
    } else {
        assert(views(problems@) =~= views(old(problems)@) + latent_head_faults(tensor, shape@));
    }
}

/// Problems of the values of the first heads of a token.
pub open spec fn latent_row_faults(c_kv: Tensor, dtype: DType, tok: int, heads: int) -> Seq<
    ErrorView,
>
    decreases heads,
{
    if heads <= 0 {
        Seq::empty()
    } else {
        let d = c_kv.shape[2] as int;
        let row = tok * c_kv.shape[1] + heads - 1;
        latent_row_faults(c_kv, dtype, tok, heads - 1) + bad_row_faults(
            "c_kv",
            tok,
            heads - 1,
            non_finite(row_at(c_kv.cells, row * d, d)),
            dtype,
        )
    }
}

/// Problems of the values of the first tokens.
pub open spec fn latent_token_faults(c_kv: Tensor, dtype: DType, toks: int) -> Seq<ErrorView>
    decreases toks,
{
    if toks <= 0 {
        Seq::empty()
    } else {
        latent_token_faults(c_kv, dtype, toks - 1) + latent_row_faults(
            c_kv,
            dtype,
            toks - 1,
            c_kv.shape[1] as int,
        )
    }
}

/// Scans the operand for infinities.
fn check_latent_finite(problems: &mut Vec<T0Error>, c_kv: &TensorView<'_>, dtype: DType)
    requires
        c_kv@.rank() == 3,
        c_kv@.backed(),
    ensures
        views(final(problems)@) == views(old(problems)@) + latent_token_faults(
            c_kv@,
            dtype,
            c_kv@.shape[0] as int,
        ),
{
    let t: usize = c_kv.shape()[0];
    let h: usize = c_kv.shape()[1];
    let d: usize = c_kv.shape()[2];
    proof {
        lemma_extent3(c_kv@.shape);
    }
    let mut tok: usize = 0;
    assert(views(problems@) =~= views(old(problems)@) + latent_token_faults(c_kv@, dtype, 0));
    while tok < t
        invariant
            tok <= t,
            c_kv@.rank() == 3,
            t == c_kv@.shape[0],
            h == c_kv@.shape[1],
            d == c_kv@.shape[2],
            c_kv@.count() == t * h * d,
            t * h <= usize::MAX,
            c_kv@.backed(),
            views(problems@) == views(old(problems)@) + latent_token_faults(
                c_kv@,
                dtype,
                tok as int,
            ),
        decreases t - tok,
    {
        let ghost before = views(problems@);
        let mut head: usize = 0;
        assert(views(problems@) =~= before + latent_row_faults(c_kv@, dtype, tok as int, 0));
        while head < h
            invariant
                head <= h,
                tok < t,
                c_kv@.rank() == 3,
                t == c_kv@.shape[0],
                h == c_kv@.shape[1],
                d == c_kv@.shape[2],
                c_kv@.count() == t * h * d,
                t * h <= usize::MAX,
                c_kv@.backed(),
                views(problems@) == before + latent_row_faults(
                    c_kv@,
                    dtype,
                    tok as int,
                    head as int,
                ),
            decreases h - head,
        {
            proof {
                lemma_flat_bound(tok as int, t as int, head as int, h as int);
                lemma_mul_nonneg(tok as int, h as int);
                lemma_row_held(c_kv@.cells, tok * h + head, t * h, d as int);
            }
            let row: usize = tok * h + head;
            let values = read_row(c_kv, row * d, d);
            let bad: usize = count_non_finite(values.as_slice());
            check_bad_row(problems, "c_kv", tok, head, bad, dtype);
            head += 1;
            assert(views(problems@) =~= before + latent_row_faults(
                c_kv@,
                dtype,
                tok as int,
                head as int,
            ));
        }
        tok += 1;
        assert(views(problems@) =~= views(old(problems)@) + latent_token_faults(
            c_kv@,
            dtype,
            tok as int,
        ));
    }
}

/// Problems of the widths of the operands.
#[verifier::opaque]
pub open spec fn latent_form_faults(
    list: Seq<ErrorView>,
    op: StateWriteKvOp,
    c_kv: Tensor,
    k_rope: Tensor,
    cache: LatentView,
) -> Seq<ErrorView> {
    let rank = op.latent->0.kv_lora_rank;
    let rope = op.latent->0.rope_dim;
    let widths = list + given(
        rank == 0 || rope == 0,
        attr_error(
            "state_write_kv",
            "latent",
            quoting(
                "kv_lora_rank ({}) and rope_dim ({}) must both be > 0",
                seq![Arg::Int(rank as u64), Arg::Int(rope as u64)],
            ),
        ),
    );
    if c_kv.rank() == 3 && k_rope.rank() == 3 {
        widths + given(
            !is_split(op, c_kv, k_rope) && !is_combined(op, c_kv),
            attr_error(
                "state_write_kv",
                "k/v",
                quoting(
                    "MLA latent dim {} / rotary dim {} must be the exact split pair (latent {} / rotary {}) or the combined latent (rank {} + rope {})",
                    seq![
                        Arg::Int(c_kv.shape[2] as u64),
                        Arg::Int(k_rope.shape[2] as u64),
                        Arg::Int(rank as u64),
                        Arg::Int(rope as u64),
                        Arg::Int(rank as u64),
                        Arg::Int(rope as u64),
                    ],
                ),
            ),
        ) + latent_head_faults("c_kv", c_kv.shape) + latent_head_faults("k_rope", k_rope.shape)
            + dim_faults("latent", "cache", cache.latent, "c_kv", rank as usize) + dim_faults(
            "rope",
            "cache",
            cache.rope,
            "k_rope",
            rope as usize,
        )
    } else {
        widths
    }
}

/// Problems of a write into a latent cache. Where the operand is too short to be
/// scanned for infinities, that is a problem by itself.
pub open spec fn latent_write_faults(
    op: StateWriteKvOp,
    c_kv: Tensor,
    k_rope: Tensor,
    meta: BatchMeta,
    group: u32,
    cache: LatentView,
) -> Seq<ErrorView> {
    let common = write_faults(op, c_kv, k_rope, meta, group);
    if op.latent is None {
        common.push(
            attr_error(
                "state_write_kv",
                "latent",
                plain("latent write requires a latent spec; use a KvPaged cache otherwise"),
            ),
        )
    } else {
        let form = latent_form_faults(common, op, c_kv, k_rope, cache);
        let values = if is_scaled(op.cache_dtype) && c_kv.rank() == 3 && k_rope.rank() == 3
            && c_kv.backed() {
            form + latent_token_faults(c_kv, op.cache_dtype, c_kv.shape[0] as int)
        } else {
            form
        };
        if group < meta.num_groups {
            values + plan_faults(
                meta,
                group,
                cache.written.len() as usize,
                meta.total_tokens as int,
            )
        } else {
            values
        }
    }
}

/// Latent row of a token.
pub open spec fn latent_values(op: StateWriteKvOp, c_kv: Tensor, tok: int) -> Seq<u32> {
    row_at(c_kv.cells, tok * c_kv.shape[2], op.latent->0.kv_lora_rank as int)
}

/// Rotary row of a token: of the second operand, or behind the latent row.
pub open spec fn rope_values(op: StateWriteKvOp, c_kv: Tensor, k_rope: Tensor, tok: int) -> Seq<
    u32,
> {
    let rope = op.latent->0.rope_dim as int;
    if is_split(op, c_kv, k_rope) {
        row_at(k_rope.cells, tok * k_rope.shape[2], rope)
    } else {
        row_at(c_kv.cells, tok * c_kv.shape[2] + op.latent->0.kv_lora_rank, rope)
    }
}

/// Planned writes of the first tokens. A cache of another type than the write
/// has no room for the first row.
pub open spec fn latent_token_plan<
    F: Fn(FloatOp, u32, u32) -> u32,
    G: Fn(FormatQuery) -> Result<u64, FormatError>,
>(
    f: F,
    g: G,
    op: StateWriteKvOp,
    c_kv: Tensor,
    k_rope: Tensor,
    meta: BatchMeta,
    group: u32,
    cache: LatentView,
    toks: int,
) -> Result<Seq<LatentRowsView>, ErrorView>
    decreases toks,
{
    if toks <= 0 {
        Ok(Seq::empty())
    } else {
        match latent_token_plan(f, g, op, c_kv, k_rope, meta, group, cache, toks - 1) {
            Err(e) => Err(e),
            Ok(plan) => match target(meta, group, toks - 1) {
                None => Ok(plan),
                Some(slot) => match encoded_row(
                    f,
                    g,
                    op.cache_dtype,
                    latent_values(op, c_kv, toks - 1),
                    (RowPlace { tensor: "c_kv", tok: plan.len() as usize, head: 0 }),
                ) {
                    Err(e) => Err(e),
                    Ok(latent) => if op.cache_dtype != cache.dtype {
                        Err(
                            length_error(
                                "cache.latent",
                                0,
                                slot * cache.latent + 1,
                                seq![0usize],
                            ),
                        )
                    } else {
                        Ok(
                            plan.push(
                                LatentRowsView {
                                    slot,
                                    latent,
                                    rope: half_codes(rope_values(op, c_kv, k_rope, toks - 1)),
                                },
                            ),
                        )
                    },
                },
            },
        }
    }
}

/// Planned writes into a latent cache, or the error of the write.
pub open spec fn latent_plan<
    F: Fn(FloatOp, u32, u32) -> u32,
    G: Fn(FormatQuery) -> Result<u64, FormatError>,
>(
    f: F,
    g: G,
    op: StateWriteKvOp,
    c_kv: Tensor,
    k_rope: Tensor,
    meta: BatchMeta,
    group: u32,
    cache: LatentView,
) -> Result<Seq<LatentRowsView>, ErrorView> {
    match fault_of(latent_write_faults(op, c_kv, k_rope, meta, group, cache)) {
        Some(e) => Err(e),
        None => latent_token_plan(
            f,
            g,
            op,
            c_kv,
            k_rope,
            meta,
            group,
            cache,
            meta.total_tokens as int,
        ),
    }
}

/// Checks the widths of the operands.
fn check_latent_form(
    problems: &mut Vec<T0Error>,
    op: &StateWriteKvOp,
    c_kv: &TensorView<'_>,
    k_rope: &TensorView<'_>,
    cache: &KvLatentCache,
)
    requires
        op.latent is Some,
    ensures
        views(final(problems)@) == latent_form_faults(
            views(old(problems)@),
            *op,
            c_kv@,
            k_rope@,
            cache@,
        ),
{
    proof {
        reveal(latent_form_faults);
    }
    let (rank, rope): (u32, u32) = match op.latent {
        Some(l) => (l.kv_lora_rank, l.rope_dim),
        None => (0, 0),
    };
    push_when(
        problems,
        rank == 0 || rope == 0,
        invalid_attr(
            "state_write_kv",
            "latent",
            Detail::two(
                "kv_lora_rank ({}) and rope_dim ({}) must both be > 0",
                Arg::Int(rank as u64),
                Arg::Int(rope as u64),
            ),
        ),
    );
    if c_kv.rank() == 3 && k_rope.rank() == 3 {
        let d0: usize = c_kv.shape()[2];
        let d1: usize = k_rope.shape()[2];
        let split: bool = d0 == rank as usize && d1 == rope as usize;
        let combined: bool = d0 as u64 == rank as u64 + rope as u64;
        let args = vec![
            Arg::Int(d0 as u64),
            Arg::Int(d1 as u64),
            Arg::Int(rank as u64),
            Arg::Int(rope as u64),
            Arg::Int(rank as u64),
            Arg::Int(rope as u64),
        ];
        assert(args@ =~= seq![
            Arg::Int(d0 as u64),
            Arg::Int(d1 as u64),
            Arg::Int(rank as u64),
            Arg::Int(rope as u64),
            Arg::Int(rank as u64),
            Arg::Int(rope as u64),
        ]);
        let reason = Detail::about(
            "",
            "MLA latent dim {} / rotary dim {} must be the exact split pair (latent {} / rotary {}) or the combined latent (rank {} + rope {})",
            args,
        );
        push_when(problems, !split && !combined, invalid_attr("state_write_kv", "k/v", reason));
        check_latent_heads(c_kv.shape(), "c_kv", problems);
        check_latent_heads(k_rope.shape(), "k_rope", problems);
        check_dim(problems, "latent", "cache", cache.latent, "c_kv", rank as usize);
        check_dim(problems, "rope", "cache", cache.rope, "k_rope", rope as usize);
    }
}

/// Checking the widths loses no problem.
pub proof fn lemma_latent_form_grows(
    list: Seq<ErrorView>,
    op: StateWriteKvOp,
    c_kv: Tensor,
    k_rope: Tensor,
    cache: LatentView,
)
    ensures
        list.len() <= latent_form_faults(list, op, c_kv, k_rope, cache).len(),
{
    reveal(latent_form_faults);
}

/// What the absence of problems says of the widths.
pub proof fn lemma_no_latent_form_faults(
    list: Seq<ErrorView>,
    op: StateWriteKvOp,
    c_kv: Tensor,
    k_rope: Tensor,
    cache: LatentView,
)
    requires
        c_kv.rank() == 3,
        k_rope.rank() == 3,
        latent_form_faults(list, op, c_kv, k_rope, cache).len() == 0,
    ensures
        list.len() == 0,
        is_split(op, c_kv, k_rope) || is_combined(op, c_kv),
        c_kv.shape[1] == 1,
        k_rope.shape[1] == 1,
        op.latent->0.kv_lora_rank == cache.latent,
        op.latent->0.rope_dim == cache.rope,
        op.latent->0.kv_lora_rank > 0,
        op.latent->0.rope_dim > 0,
{
    reveal(latent_form_faults);
}

/// Checks a write into a latent cache and gives the slots of all tokens.
fn check_latent_write(
    op: &StateWriteKvOp,
    c_kv: &TensorView<'_>,
    k_rope: &TensorView<'_>,
    meta: &BatchMeta,
    group: u32,
    cache: &KvLatentCache,
) -> (r: Result<Vec<Option<usize>>, T0Error>)
    requires
        meta.wf(),
    ensures
        match fault_of(latent_write_faults(*op, c_kv@, k_rope@, *meta, group, cache@)) {
            Some(e) => r is Err && r->Err_0.view() == e,
            None => {
                &&& r is Ok
                &&& op.latent is Some
                &&& is_cache_dtype(op.cache_dtype)
                &&& c_kv@.rank() == 3
                &&& k_rope@.rank() == 3
                &&& c_kv@.backed()
                &&& k_rope@.backed()
                &&& c_kv@.shape[0] == meta.total_tokens
                &&& k_rope@.shape[0] == meta.total_tokens
                &&& c_kv@.shape[1] == 1
                &&& k_rope@.shape[1] == 1
                &&& is_split(*op, c_kv@, k_rope@) || is_combined(*op, c_kv@)
                &&& op.latent->0.kv_lora_rank == cache.latent
                &&& op.latent->0.rope_dim == cache.rope
                &&& r->Ok_0@.len() == meta.total_tokens
                &&& forall|tok: int|
                    0 <= tok < r->Ok_0@.len() ==> {
                        &&& #[trigger] r->Ok_0@[tok] == target(*meta, group, tok)
                        &&& r->Ok_0@[tok] matches Some(s) ==> s < cache.slots()
                    }
            },
        },
{
    let mut problems = validate_write_common(op, c_kv, k_rope, meta, group);
    let ghost common = views(problems@);
    if op.latent.is_none() {
        push_problem(
            &mut problems,
            invalid_attr(
                "state_write_kv",
                "latent",
                Detail::plain(
                    "latent write requires a latent spec; use a KvPaged cache otherwise",
                ),
            ),
        );
        return match T0Error::from_problems(problems) {
            Err(e) => Err(e),
            Ok(_) => Ok(Vec::new()),
        };
    }
    check_latent_form(&mut problems, op, c_kv, k_rope, cache);
    let ghost form = views(problems@);
    if c_kv.rank() == 3 && k_rope.rank() == 3 && (op.cache_dtype == DType::I8 || op.cache_dtype
        == DType::E4m3) {
        match c_kv.validate_backing("k") {
            Ok(_) => {
                check_latent_finite(&mut problems, c_kv, op.cache_dtype);
            },
            Err(_) => {},
        }
    }
    let planned = if (group as usize) < meta.num_groups() {
        plan_write_slots(meta, group, cache.num_slots(), &mut problems)
    } else {
        None
    };
    assert(views(problems@) == latent_write_faults(*op, c_kv@, k_rope@, *meta, group, cache@));
    let ghost found = views(problems@);
    match T0Error::from_problems(problems) {
        Ok(_) => {},
        Err(e) => {
            return Err(e);
        },
    }
    assert(found.len() == 0);
    assert(form.len() == 0);
    proof {
        lemma_latent_form_grows(common, *op, c_kv@, k_rope@, cache@);
        lemma_no_write_faults(*op, c_kv@, k_rope@, *meta, group);
        lemma_no_latent_form_faults(common, *op, c_kv@, k_rope@, cache@);
    }
    match planned {
        Some(s) => Ok(s),
        None => Ok(Vec::new()),
    }
}

/// Reads the latent and the rotary row of a token.
fn read_token(
    op: &StateWriteKvOp,
    c_kv: &TensorView<'_>,
    k_rope: &TensorView<'_>,
    tok: usize,
) -> (r: (Vec<u32>, Vec<u32>))
    requires
        op.latent is Some,
        c_kv@.rank() == 3,
        k_rope@.rank() == 3,
        c_kv@.backed(),
        k_rope@.backed(),
        c_kv@.shape[1] == 1,
        k_rope@.shape[1] == 1,
        is_split(*op, c_kv@, k_rope@) || is_combined(*op, c_kv@),
        tok < c_kv@.shape[0],
        tok < k_rope@.shape[0],
    ensures
        r.0@ == latent_values(*op, c_kv@, tok as int),
        r.1@ == rope_values(*op, c_kv@, k_rope@, tok as int),
        r.0@.len() == op.latent->0.kv_lora_rank,
        r.1@.len() == op.latent->0.rope_dim,
{
    let (rank, rope): (u32, u32) = match op.latent {
        Some(l) => (l.kv_lora_rank, l.rope_dim),
        None => (0, 0),
    };
    let d0: usize = c_kv.shape()[2];
    let d1: usize = k_rope.shape()[2];
    proof {
        lemma_extent3(c_kv@.shape);
        lemma_extent3(k_rope@.shape);
        lemma_row_held(c_kv@.cells, tok as int, c_kv@.shape[0] as int, d0 as int);
        lemma_row_held(k_rope@.cells, tok as int, k_rope@.shape[0] as int, d1 as int);
    }
    let latent = read_row(c_kv, tok * d0, rank as usize);
    let rope_row = if d0 == rank as usize && d1 == rope as usize {
        read_row(k_rope, tok * d1, rope as usize)
    } else {
        read_row(c_kv, tok * d0 + rank as usize, rope as usize)
    };
    (latent, rope_row)
}

/// Whether a planned token fits into a cache.
pub open spec fn latent_fits(t: LatentRowsView, cache: LatentView) -> bool {
    &&& t.slot < cache.written.len()
    &&& t.latent.len() == cache.latent
    &&& t.latent.dtype() == cache.dtype
    &&& t.rope.len() == cache.rope
}

/// An error among the first tokens is the error of the plan.
proof fn lemma_latent_prefix<
    F: Fn(FloatOp, u32, u32) -> u32,
    G: Fn(FormatQuery) -> Result<u64, FormatError>,
>(
    f: F,
    g: G,
    op: StateWriteKvOp,
    c_kv: Tensor,
    k_rope: Tensor,
    meta: BatchMeta,
    group: u32,
    cache: LatentView,
    n: int,
    toks: int,
)
    requires
        n <= toks,
        latent_token_plan(f, g, op, c_kv, k_rope, meta, group, cache, n) is Err,
    ensures
        latent_token_plan(f, g, op, c_kv, k_rope, meta, group, cache, toks) == latent_token_plan(
            f,
            g,
            op,
            c_kv,
            k_rope,
            meta,
            group,
            cache,
            n,
        ),
    decreases toks - n,
{
    if n < toks {
        lemma_latent_prefix(f, g, op, c_kv, k_rope, meta, group, cache, n, toks - 1);
    }
}

/// Encodes the rows of all tokens that have a slot.
fn plan_latent_tokens<
    F: Fn(FloatOp, u32, u32) -> u32,
    G: Fn(FormatQuery) -> Result<u64, FormatError>,
>(
    f: &F,
    g: &G,
    op: &StateWriteKvOp,
    c_kv: &TensorView<'_>,
    k_rope: &TensorView<'_>,
    meta: &BatchMeta,
    group: u32,
    cache: &KvLatentCache,
    slots: &Vec<Option<usize>>,
) -> (r: Result<Vec<LatentRows>, T0Error>)
    requires
        is_arith(*f),
        is_format(*g),
        cache.wf(),
        op.latent is Some,
        is_cache_dtype(op.cache_dtype),
        c_kv@.rank() == 3,
        k_rope@.rank() == 3,
        c_kv@.backed(),
        k_rope@.backed(),
        c_kv@.shape[0] == meta.total_tokens,
        k_rope@.shape[0] == meta.total_tokens,
        c_kv@.shape[1] == 1,
        k_rope@.shape[1] == 1,
        is_split(*op, c_kv@, k_rope@) || is_combined(*op, c_kv@),
        op.latent->0.kv_lora_rank == cache.latent,
        op.latent->0.rope_dim == cache.rope,
        slots@.len() == meta.total_tokens,
        forall|tok: int|
            0 <= tok < slots@.len() ==> {
                &&& #[trigger] slots@[tok] == target(*meta, group, tok)
                &&& slots@[tok] matches Some(s) ==> s < cache.slots()
            },
    ensures
        match latent_token_plan(
            *f,
            *g,
            *op,
            c_kv@,
            k_rope@,
            *meta,
            group,
            cache@,
            meta.total_tokens as int,
        ) {
            Err(e) => r is Err && r->Err_0.view() == e,
            Ok(plan) => {
                &&& r is Ok
                &&& latent_views(r->Ok_0@) == plan
                &&& forall|i: int|
                    0 <= i < plan.len() ==> latent_fits(#[trigger] plan[i], cache@)
            },
        },
{
    let t: usize = slots.len();
    let mut plan: Vec<LatentRows> = Vec::new();
    let mut tok: usize = 0;
    assert(latent_views(plan@) =~= Seq::empty());
    while tok < t
        invariant
            tok <= t,
            t == slots@.len(),
            is_arith(*f),
            is_format(*g),
            cache.wf(),
            op.latent is Some,
            is_cache_dtype(op.cache_dtype),
            c_kv@.rank() == 3,
            k_rope@.rank() == 3,
            c_kv@.backed(),
            k_rope@.backed(),
            c_kv@.shape[0] == meta.total_tokens,
            k_rope@.shape[0] == meta.total_tokens,
            c_kv@.shape[1] == 1,
            k_rope@.shape[1] == 1,
            is_split(*op, c_kv@, k_rope@) || is_combined(*op, c_kv@),
            op.latent->0.kv_lora_rank == cache.latent,
            op.latent->0.rope_dim == cache.rope,
            slots@.len() == meta.total_tokens,
            forall|tok: int|
                0 <= tok < slots@.len() ==> {
                    &&& #[trigger] slots@[tok] == target(*meta, group, tok)
                    &&& slots@[tok] matches Some(s) ==> s < cache.slots()
                },
            latent_token_plan(
                *f,
                *g,
                *op,
                c_kv@,
                k_rope@,
                *meta,
                group,
                cache@,
                tok as int,
            ) == Ok::<Seq<LatentRowsView>, ErrorView>(latent_views(plan@)),
            forall|i: int|
                0 <= i < plan@.len() ==> latent_fits(#[trigger] latent_views(plan@)[i], cache@),
        decreases t - tok,
    {
        let ghost before = latent_views(plan@);
        let at: usize = plan.len();
        match slots[tok] {
            None => {},
            Some(slot) => {
                let (values, rope_row) = read_token(op, c_kv, k_rope, tok);
                let place = RowPlace { tensor: "c_kv", tok: at, head: 0 };
                let latent = match encode_row(f, g, op.cache_dtype, values.as_slice(), place) {
                    Ok(row) => row,
                    Err(e) => {
                        proof {
                            lemma_latent_prefix(
                                *f,
                                *g,
                                *op,
                                c_kv@,
                                k_rope@,
                                *meta,
                                group,
                                cache@,
                                tok + 1,
                                t as int,
                            );
                        }
                        return Err(e);
                    },
                };
                if op.cache_dtype != cache.dtype {
                    proof {
                        lemma_latent_prefix(
                            *f,
                            *g,
                            *op,
                            c_kv@,
                            k_rope@,
                            *meta,
                            group,
                            cache@,
                            tok + 1,
                            t as int,
                        );
                        lemma_row_fits(slot as int, cache.slots(), cache.latent as int);
                    }
                    let shape = vec![0usize];
                    assert(shape@ =~= seq![0usize]);
                    return Err(
                        length_mismatch(
                            "cache.latent",
                            0,
                            slot * cache.latent + 1,
                            shape.as_slice(),
                        ),
                    );
                }
                let rope = half_row(rope_row.as_slice());
                plan.push(LatentRows { slot, latent, rope });
                assert(latent_views(plan@) =~= before.push(
                    LatentRowsView { slot, latent: latent@, rope: rope@ },
                ));
            },
        }
        tok += 1;
    }
    Ok(plan)
}

impl KvLatentCache {
    /// Stores the rows of planned tokens in order.
    fn put_tokens(&mut self, plan: &Vec<LatentRows>) -> (r: Result<(), T0Error>)
        requires
            old(self).wf(),
            forall|j: int|
                0 <= j < plan@.len() ==> latent_fits(#[trigger] latent_views(plan@)[j], old(self)@),
        ensures
            r is Ok,
            final(self)@ == old(self)@.with_tokens(latent_views(plan@)),
            final(self).wf(),
    {
        let mut i: usize = 0;
        assert(latent_views(plan@).take(0) =~= Seq::empty());
        while i < plan.len()
            invariant
                i <= plan@.len(),
                self.wf(),
                self@ == old(self)@.with_tokens(latent_views(plan@).take(i as int)),
                self@.latent == old(self).latent,
                self@.rope == old(self).rope,
                self@.dtype == old(self).dtype,
                self@.written.len() == old(self)@.written.len(),
                forall|j: int|
                    0 <= j < plan@.len() ==> latent_fits(
                        #[trigger] latent_views(plan@)[j],
                        old(self)@,
                    ),
            decreases plan@.len() - i,
        {
            let ghost before = self@;
            proof {
                assert(latent_views(plan@).take(i + 1).drop_last() =~= latent_views(plan@).take(
                    i as int,
                ));
                assert(latent_views(plan@)[i as int] == plan@[i as int]@);
                lemma_row_fits(plan@[i as int].slot as int, self.slots(), self.latent as int);
                lemma_row_fits(plan@[i as int].slot as int, self.slots(), self.rope as int);
                lemma_with_row_wf(
                    self.rows@,
                    plan@[i as int].slot * self.latent,
                    plan@[i as int].slot as int,
                    plan@[i as int].latent@,
                    self.dtype,
                    self.slots() * self.latent,
                    self.slots(),
                );
            }
            let t = &plan[i];
            match self.rows.put_row(
                t.slot * self.latent,
                t.slot,
                &t.latent,
                ("cache.latent", "cache.latent_scales"),
            ) {
                Ok(_) => {},
                Err(e) => {
                    return Err(e);
                },
            }
            match store_part(&mut self.rope_f16, t.slot * self.rope, &t.rope, "cache.rope") {
                Ok(_) => {},
                Err(e) => {
                    return Err(e);
                },
            }
            self.written[t.slot] = true;
            assert(self@ == before.with_token(t@));
            i += 1;
        }
        assert(latent_views(plan@).take(i as int) =~= latent_views(plan@));
        Ok(())
    }
}

/// Writes the compressed rows of all tokens that have a slot into a latent
/// cache. The operands are one latent and one rotary row per token, or the
/// first operand holds both.
pub fn state_write_kv_latent<
    F: Fn(FloatOp, u32, u32) -> u32,
    G: Fn(FormatQuery) -> Result<u64, FormatError>,
>(
    f: &F,
    g: &G,
    op: &StateWriteKvOp,
    c_kv: &TensorView<'_>,
    k_rope: &TensorView<'_>,
    meta: &BatchMeta,
    group: u32,
    cache: &mut KvLatentCache,
) -> (r: Result<(), T0Error>)
    requires
        is_arith(*f),
        is_format(*g),
        meta.wf(),
        old(cache).wf(),
    ensures
        match latent_plan(*f, *g, *op, c_kv@, k_rope@, *meta, group, old(cache)@) {
            Err(e) => r is Err && r->Err_0.view() == e && final(cache)@ == old(cache)@,
            Ok(plan) => r is Ok && final(cache)@ == old(cache)@.with_tokens(plan),
        },
        final(cache).wf(),
{
    let slots = match check_latent_write(op, c_kv, k_rope, meta, group, cache) {
        Ok(s) => s,
        Err(e) => {
            return Err(e);
        },
    };
    let plan = match plan_latent_tokens(f, g, op, c_kv, k_rope, meta, group, cache, &slots) {
        Ok(p) => p,
        Err(e) => {
            return Err(e);
        },
    };
    cache.put_tokens(&plan)
}

/// Value of either kind of cache.
pub enum CacheView {
    /// Keys and values with several heads.
    Paged(PagedView),
    /// Compressed keys and values.
    Latent(LatentView),
}

impl View for KvCache {
    type V = CacheView;

    open spec fn view(&self) -> CacheView {
        match self {
            KvCache::Paged(c) => CacheView::Paged(c@),
            KvCache::Latent(c) => CacheView::Latent(c@),
        }
    }
}

impl CacheView {
    /// Kind of state that the cache holds.
    pub open spec fn kind(self) -> StateKind {
        match self {
            CacheView::Paged(_) => StateKind::KvPaged,
            CacheView::Latent(_) => StateKind::KvLatent,
        }
    }
}

/// The cache after a write, or the error of the write.
pub open spec fn written_cache<
    F: Fn(FloatOp, u32, u32) -> u32,
    G: Fn(FormatQuery) -> Result<u64, FormatError>,
>(
    f: F,
    g: G,
    op: StateWriteKvOp,
    k: Tensor,
    v: Tensor,
    meta: BatchMeta,
    group: u32,
    cache: CacheView,
) -> Result<CacheView, ErrorView> {
    if op.handle.kind != cache.kind() {
        Err(
            attr_error(
                "state_write_kv",
                "handle",
                quoting(
                    "handle kind {} does not match cache {}; paged writes need KvPaged, latent writes need KvLatent",
                    seq![Arg::State(op.handle.kind), Arg::State(cache.kind())],
                ),
            ),
        )
    } else {
        match cache {
            CacheView::Paged(c) => match paged_plan(f, g, op, k, v, meta, group, c) {
                Err(e) => Err(e),
                Ok(plan) => Ok(CacheView::Paged(c.with_tokens(plan))),
            },
            CacheView::Latent(c) => match latent_plan(f, g, op, k, v, meta, group, c) {
                Err(e) => Err(e),
                Ok(plan) => Ok(CacheView::Latent(c.with_tokens(plan))),
            },
        }
    }
}

/// Writes all tokens that have a slot into the cache that the handle names.
pub fn state_write_kv<
    F: Fn(FloatOp, u32, u32) -> u32,
    G: Fn(FormatQuery) -> Result<u64, FormatError>,
>(
    f: &F,
    g: &G,
    op: &StateWriteKvOp,
    k: &TensorView<'_>,
    v: &TensorView<'_>,
    meta: &BatchMeta,
    group: u32,
    cache: &mut KvCache,
) -> (r: Result<(), T0Error>)
    requires
        is_arith(*f),
        is_format(*g),
        meta.wf(),
        old(cache).wf(),
    ensures
        match written_cache(*f, *g, *op, k@, v@, *meta, group, old(cache)@) {
            Err(e) => r is Err && r->Err_0.view() == e && final(cache)@ == old(cache)@,
            Ok(c) => r is Ok && final(cache)@ == c,
        },
        final(cache).wf(),
{
    let kind = op.handle.kind;
    let got = match cache {
        KvCache::Paged(_) => StateKind::KvPaged,
        KvCache::Latent(_) => StateKind::KvLatent,
    };
    if kind != got {
        return Err(
            invalid_attr(
                "state_write_kv",
                "handle",
                Detail::two(
                    "handle kind {} does not match cache {}; paged writes need KvPaged, latent writes need KvLatent",
                    Arg::State(kind),
                    Arg::State(got),
                ),
            ),
        );
    }
    match cache {
        KvCache::Paged(c) => state_write_kv_paged(f, g, op, k, v, meta, group, c),
        KvCache::Latent(c) => state_write_kv_latent(f, g, op, k, v, meta, group, c),
    }
}

} // verus!
