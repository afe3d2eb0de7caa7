//! Writes of new tokens into caches.
//!
//! Every write is planned before the first element of the cache changes: a
//! write that fails leaves the cache as it was. Tokens without a slot are
//! skipped.
use vstd::prelude::*;
use crate::arith::{is_arith, FloatOp};
use crate::batch::{bad_group, checked_slot, group_error, slot_result, BatchMeta, SLOT_NONE};
use crate::buffer::{lemma_extent3, Cells, Tensor, TensorView};
use crate::check::{
    attr_error, check_dim, check_float, check_rank, check_row_major, clear, dim_faults, fault_of,
    float_faults, given, is_float, is_row_major, invalid_attr, length_error, length_mismatch,
    no_problems, overflow, overflow_error, push_when, rank_faults, row_major_faults,
};
use crate::dtype::{finite, is_finite};
use crate::error::{
    about, plain, push_problem, quoting, views, Arg, Detail, ErrorView, FormatError, T0Error,
};
use crate::index::{lemma_flat_bound, lemma_mul_nonneg};
use crate::ir::{DType, StateHandle};
use crate::kv_cache::{
    cache_dtype, cache_dtype_faults, check_cache_dtype, is_cache_dtype, lemma_cell, KvPagedCache,
    PlaneView,
};
use crate::kv_rows::{encode_row, encoded_row, read_row, row_at, Row, RowPlace, RowView};
use crate::weight::{is_format, FormatQuery};

verus! {

/// Which rows of a cache share a scale.
#[derive(Debug, Clone, Copy, PartialEq, Eq, Structural)]
pub enum CacheScaleGranularity {
    /// One scale per token and head.
    PerTokenHead,
    /// One scale per block.
    PerBlock,
}

/// Widths of compressed rows.
#[derive(Debug, Clone, Copy, PartialEq, Eq, Structural)]
pub struct LatentSpec {
    /// Width of a latent row.
    pub kv_lora_rank: u32,
    /// Width of a rotary row.
    pub rope_dim: u32,
}

/// Attributes of a cache write.
#[derive(Debug, Clone, Copy)]
pub struct StateWriteKvOp {
    /// State that is written.
    pub handle: StateHandle,
    /// Type that rows are stored as.
    pub cache_dtype: DType,
    /// Which rows share a scale.
    pub scale_granularity: CacheScaleGranularity,
    /// Widths of compressed rows, for a latent cache.
    pub latent: Option<LatentSpec>,
}

/// A list of problems with the form problems of an operand behind it.
pub open spec fn and_operand(list: Seq<ErrorView>, name: &'static str, x: Tensor) -> Seq<ErrorView> {
    and_fault(
        list + float_faults(name, x.dtype()) + row_major_faults(name, x.layout),
        x.backing_fault(name),
    )
}

/// A list of problems with an error behind it.
pub open spec fn and_fault(list: Seq<ErrorView>, fault: Option<ErrorView>) -> Seq<ErrorView> {
    match fault {
        Some(e) => list.push(e),
        None => list,
    }
}

/// Checks the form of one operand of a write.
pub fn check_operand(problems: &mut Vec<T0Error>, name: &'static str, x: &TensorView<'_>)
    ensures
        views(final(problems)@) == and_operand(views(old(problems)@), name, x@),
{
    check_float(problems, name, x.dtype());
    check_row_major(problems, name, x.layout());
    match x.validate_backing(name) {
        Ok(_) => {},
        Err(e) => {
            push_problem(problems, e);
        },
    }
}

/// The absence of form problems of an operand.
pub proof fn lemma_no_operand_faults(list: Seq<ErrorView>, name: &'static str, x: Tensor)
    requires
        x.cells.len() <= usize::MAX,
        and_operand(list, name, x).len() == 0,
    ensures
        list.len() == 0,
        x.backed(),
        is_float(x.dtype()),
        is_row_major(x.layout),
{
}

/// Problems of the form of a write that do not depend on extents.
pub open spec fn write_form_faults(
    op: StateWriteKvOp,
    k: Tensor,
    v: Tensor,
    meta: BatchMeta,
    group: u32,
) -> Seq<ErrorView> {
    let ranks = clear() + rank_faults("k", 3, k.shape) + rank_faults("v", 3, v.shape);
    and_operand(and_operand(ranks, "k", k), "v", v) + cache_dtype_faults(
        "must be f16, i8, or e4m3; got {}",
        op.cache_dtype,
    ) + given(
        op.scale_granularity != CacheScaleGranularity::PerTokenHead,
        attr_error(
            "state_write_kv",
            "scale_granularity",
            plain("PerBlock cache scale geometry is undefined (see SI-45); only PerTokenHead is supported"),
        ),
    ) + given(
        group >= meta.num_groups,
        group_error("state_write_kv", group, meta.num_groups),
    )
}

/// Problems that writes into either kind of cache have in common.
#[verifier::opaque]
pub open spec fn write_faults(
    op: StateWriteKvOp,
    k: Tensor,
    v: Tensor,
    meta: BatchMeta,
    group: u32,
) -> Seq<ErrorView> {
    let form = write_form_faults(op, k, v, meta, group);
    if k.rank() == 3 && v.rank() == 3 {
        form + dim_faults("T", "BatchMeta", meta.total_tokens, "k", k.shape[0]) + dim_faults(
            "T",
            "BatchMeta",
            meta.total_tokens,
            "v",
            v.shape[0],
        ) + dim_faults("Hkv", "k", k.shape[1], "v", v.shape[1])
    } else {
        form
    }
}

/// Checks what writes into either kind of cache have in common.
pub fn validate_write_common(
    op: &StateWriteKvOp,
    k: &TensorView<'_>,
    v: &TensorView<'_>,
    meta: &BatchMeta,
    group: u32,
) -> (problems: Vec<T0Error>)
    ensures
        views(problems@) == write_faults(*op, k@, v@, *meta, group),
        k@.cells.len() <= usize::MAX,
        v@.cells.len() <= usize::MAX,
{
    let k_len: usize = k.backing_len();
    let v_len: usize = v.backing_len();
    let mut problems = no_problems();
    check_rank(&mut problems, "k", 3, k.shape());
    check_rank(&mut problems, "v", 3, v.shape());
    check_operand(&mut problems, "k", k);
    check_operand(&mut problems, "v", v);
    check_cache_dtype(&mut problems, "must be f16, i8, or e4m3; got {}", op.cache_dtype);
    push_when(
        &mut problems,
        op.scale_granularity != CacheScaleGranularity::PerTokenHead,
        invalid_attr(
            "state_write_kv",
            "scale_granularity",
            Detail::plain(
                "PerBlock cache scale geometry is undefined (see SI-45); only PerTokenHead is supported",
            ),
        ),
    );
    push_when(
        &mut problems,
        group as usize >= meta.num_groups(),
        bad_group("state_write_kv", group, meta.num_groups()),
    );
    assert(views(problems@) == write_form_faults(*op, k@, v@, *meta, group));
    if k.rank() == 3 && v.rank() == 3 {
        check_dim(&mut problems, "T", "BatchMeta", meta.total_tokens(), "k", k.shape()[0]);
        check_dim(&mut problems, "T", "BatchMeta", meta.total_tokens(), "v", v.shape()[0]);
        check_dim(&mut problems, "Hkv", "k", k.shape()[1], "v", v.shape()[1]);
    }
    proof {
        reveal(write_faults);
    }
    problems
}

/// Number of values of a row that are infinite or NaN.
pub open spec fn non_finite(values: Seq<u32>) -> int
    decreases values.len(),
{
    if values.len() == 0 {
        0
    } else {
        non_finite(values.drop_last()) + if is_finite(values.last()) {
            0int
        } else {
            1
        }
    }
}

/// Counts the values of a row that are infinite or NaN.
pub fn count_non_finite(values: &[u32]) -> (r: usize)
    ensures
        r == non_finite(values@),
        r <= values@.len(),
{
    let mut r: usize = 0;
    let mut i: usize = 0;
    while i < values.len()
        invariant
            i <= values@.len(),
            r <= i,
            r == non_finite(values@.take(i as int)),
        decreases values@.len() - i,
    {
        assert(values@.take(i + 1).drop_last() =~= values@.take(i as int));
        if !finite(values[i]) {
            r += 1;
        }
        i += 1;
    }
    assert(values@.take(i as int) =~= values@);
    r
}

/// The problem of a row with values that a quantized cache cannot hold.
pub open spec fn bad_row_faults(
    attribute: &'static str,
    tok: int,
    head: int,
    bad: int,
    dtype: DType,
) -> Seq<ErrorView> {
    given(
        bad > 0,
        attr_error(
            "state_write_kv",
            attribute,
            quoting(
                "token {} head {}: {} non-finite value(s) cannot be stored in {} cache",
                seq![
                    Arg::Int(tok as u64),
                    Arg::Int(head as u64),
                    Arg::Int(bad as u64),
                    Arg::Type(dtype),
                ],
            ),
        ),
    )
}

/// Records the problem of a row with values that a quantized cache cannot hold.
pub fn check_bad_row(
    problems: &mut Vec<T0Error>,
    attribute: &'static str,
    tok: usize,
    head: usize,
    bad: usize,
    dtype: DType,
)
    ensures
        views(final(problems)@) == views(old(problems)@) + bad_row_faults(
            attribute,
            tok as int,
            head as int,
            bad as int,
            dtype,
        ),
{
    let args = vec![
        Arg::Int(tok as u64),
        Arg::Int(head as u64),
        Arg::Int(bad as u64),
        Arg::Type(dtype),
    ];
    assert(args@ =~= seq![
        Arg::Int(tok as u64),
        Arg::Int(head as u64),
        Arg::Int(bad as u64),
        Arg::Type(dtype),
    ]);
    let reason = Detail::about(
        "",
        "token {} head {}: {} non-finite value(s) cannot be stored in {} cache",
        args,
    );
    push_when(problems, bad > 0, invalid_attr("state_write_kv", attribute, reason));
}

/// Whether rows of the type have a scale, so that infinities have no code.
pub open spec fn is_scaled(dtype: DType) -> bool {
    dtype == DType::I8 || dtype == DType::E4m3
}

/// Number of non-finite values of a row of the keys and of the values.
pub open spec fn bad_values(k: Tensor, v: Tensor, row: int) -> int {
    let kd = k.shape[2] as int;
    let vd = v.shape[2] as int;
    non_finite(row_at(k.cells, row * kd, kd)) + non_finite(row_at(v.cells, row * vd, vd))
}

/// Problems of the first heads of a token.
pub open spec fn head_faults(
    k: Tensor,
    v: Tensor,
    dtype: DType,
    tok: int,
    heads: int,
) -> Seq<ErrorView>
    decreases heads,
{
    if heads <= 0 {
        Seq::empty()
    } else {
        head_faults(k, v, dtype, tok, heads - 1) + bad_row_faults(
            "k/v",
            tok,
            heads - 1,
            bad_values(k, v, tok * k.shape[1] + heads - 1),
            dtype,
        )
    }
}

/// Problems of the first tokens.
pub open spec fn token_faults(k: Tensor, v: Tensor, dtype: DType, toks: int) -> Seq<ErrorView>
    decreases toks,
{
    if toks <= 0 {
        Seq::empty()
    } else {
        token_faults(k, v, dtype, toks - 1) + head_faults(
            k,
            v,
            dtype,
            toks - 1,
            k.shape[1] as int,
        )
    }
}

/// Whether the scan for infinities stays within the operands: it goes by the
/// extents of the keys, whatever else is wrong with the operands.
pub open spec fn scan_readable(op: StateWriteKvOp, k: Tensor, v: Tensor) -> bool {
    let n = k.shape[0] * k.shape[1] * v.shape[2];
    &&& is_scaled(op.cache_dtype)
    &&& k.rank() == 3
    &&& v.rank() == 3
    &&& k.backed()
    &&& n <= usize::MAX
    &&& v.cells.required(n) <= v.cells.len()
    &&& k.shape[2] + v.shape[2] <= usize::MAX
}

/// Finds out whether the scan for infinities stays within the operands.
fn can_scan(op: &StateWriteKvOp, k: &TensorView<'_>, v: &TensorView<'_>) -> (r: bool)
    ensures
        r == scan_readable(*op, k@, v@),
{
    let scaled: bool = op.cache_dtype == DType::I8 || op.cache_dtype == DType::E4m3;
    if !scaled || k.rank() != 3 || v.rank() != 3 {
        return false;
    }
    match k.validate_backing("k") {
        Ok(_) => {},
        Err(_) => {
            return false;
        },
    }
    proof {
        lemma_extent3(k@.shape);
    }
    let rows: usize = k.shape()[0] * k.shape()[1];
    let n: usize = match rows.checked_mul(v.shape()[2]) {
        Some(n) => n,
        None => {
            return false;
        },
    };
    v.has_room(n) && k.shape()[2].checked_add(v.shape()[2]).is_some()
}

/// All elements of a row lie within a storage that has room for all rows.
pub proof fn lemma_row_held(cells: Cells, row: int, rows: int, width: int)
    requires
        0 <= row < rows,
        0 <= width,
        cells.required(rows * width) <= cells.len(),
    ensures
        0 <= row * width <= row * width + width <= rows * width,
        forall|i: int| row * width <= i < row * width + width ==> #[trigger] cells.holds(i),
{
    assert(0 <= row * width <= row * width + width <= rows * width) by (nonlinear_arith)
        requires
            0 <= row < rows,
            0 <= width,
    ;
}

/// Scans the operands for infinities.
fn check_finite(
    problems: &mut Vec<T0Error>,
    op: &StateWriteKvOp,
    k: &TensorView<'_>,
    v: &TensorView<'_>,
)
    requires
        scan_readable(*op, k@, v@),
    ensures
        views(final(problems)@) == views(old(problems)@) + token_faults(
            k@,
            v@,
            op.cache_dtype,
            k@.shape[0] as int,
        ),
{
    let t: usize = k.shape()[0];
    let h: usize = k.shape()[1];
    let kd: usize = k.shape()[2];
    let vd: usize = v.shape()[2];
    proof {
        lemma_extent3(k@.shape);
    }
    let mut tok: usize = 0;
    assert(views(problems@) =~= views(old(problems)@) + token_faults(k@, v@, op.cache_dtype, 0));
    while tok < t
        invariant
            tok <= t,
            k@.rank() == 3,
            v@.rank() == 3,
            t == k@.shape[0],
            h == k@.shape[1],
            kd == k@.shape[2],
            vd == v@.shape[2],
            k@.count() == t * h * kd,
            t * h <= usize::MAX,
            k@.backed(),
            t * h * vd <= usize::MAX,
            v@.cells.required(t * h * vd) <= v@.cells.len(),
            kd + vd <= usize::MAX,
            views(problems@) == views(old(problems)@) + token_faults(
                k@,
                v@,
                op.cache_dtype,
                tok as int,
            ),
        decreases t - tok,
    {
        let ghost before = views(problems@);
        let mut head: usize = 0;
        assert(views(problems@) =~= before + head_faults(k@, v@, op.cache_dtype, tok as int, 0));
        while head < h
            invariant
                head <= h,
                tok < t,
                k@.rank() == 3,
                v@.rank() == 3,
                t == k@.shape[0],
                h == k@.shape[1],
                kd == k@.shape[2],
                vd == v@.shape[2],
                k@.count() == t * h * kd,
                t * h <= usize::MAX,
                k@.backed(),
                t * h * vd <= usize::MAX,
                v@.cells.required(t * h * vd) <= v@.cells.len(),
                kd + vd <= usize::MAX,
                views(problems@) == before + head_faults(
                    k@,
                    v@,
                    op.cache_dtype,
                    tok as int,
                    head as int,
                ),
            decreases h - head,
        {
            proof {
                lemma_flat_bound(tok as int, t as int, head as int, h as int);
                lemma_mul_nonneg(tok as int, h as int);
                lemma_row_held(k@.cells, tok * h + head, t * h, kd as int);
                lemma_row_held(v@.cells, tok * h + head, t * h, vd as int);
            }
            let row: usize = tok * h + head;
            let ks = read_row(k, row * kd, kd);
            let vs = read_row(v, row * vd, vd);
            let bad: usize = count_non_finite(ks.as_slice()) + count_non_finite(vs.as_slice());
            check_bad_row(problems, "k/v", tok, head, bad, op.cache_dtype);
            head += 1;
            assert(views(problems@) =~= before + head_faults(
                k@,
                v@,
                op.cache_dtype,
                tok as int,
                head as int,
            ));
        }
        tok += 1;
        assert(views(problems@) =~= views(old(problems)@) + token_faults(
            k@,
            v@,
            op.cache_dtype,
            tok as int,
        ));
    }
}

/// Problem of the slot of one token.
pub open spec fn slot_faults(meta: BatchMeta, group: u32, slots: usize, tok: int) -> Seq<ErrorView> {
    if tok > u32::MAX {
        seq![
            overflow_error(
                "state_write_kv",
                quoting("token index {} overflows u32", seq![Arg::Int(tok as u64)]),
            ),
        ]
    } else {
        match slot_result(meta, group, tok as u32) {
            Err(e) => seq![e],
            Ok(slot) => given(
                slot != SLOT_NONE && slot >= slots,
                ErrorView::RowIndexOutOfRange {
                    op: "state_write_kv",
                    tensor: "slot_map",
                    position: tok as usize,
                    index: slot,
                    upper_bound: slots,
                },
            ),
        }
    }
}

/// Problems of the slots of the first tokens.
pub open spec fn plan_faults(meta: BatchMeta, group: u32, slots: usize, toks: int) -> Seq<ErrorView>
    decreases toks,
{
    if toks <= 0 {
        Seq::empty()
    } else {
        plan_faults(meta, group, slots, toks - 1) + slot_faults(meta, group, slots, toks - 1)
    }
}

/// Slot that a token is written to, if any.
pub open spec fn target(meta: BatchMeta, group: u32, tok: int) -> Option<usize> {
    if meta.slot_of(group as int, tok) == SLOT_NONE {
        None
    } else {
        Some(meta.slot_of(group as int, tok) as usize)
    }
}

/// Checks the slots of all tokens. The plan is complete if there is no problem
/// so far.
pub fn plan_write_slots(
    meta: &BatchMeta,
    group: u32,
    num_slots: usize,
    problems: &mut Vec<T0Error>,
) -> (r: Option<Vec<Option<usize>>>)
    requires
        meta.wf(),
    ensures
        views(final(problems)@) == views(old(problems)@) + plan_faults(
            *meta,
            group,
            num_slots,
            meta.total_tokens as int,
        ),
        r is Some <==> views(final(problems)@).len() == 0,
        r matches Some(slots) ==> {
            &&& slots@.len() == meta.total_tokens
            &&& forall|tok: int|
                0 <= tok < slots@.len() ==> {
                    &&& group < meta.num_groups
                    &&& tok <= u32::MAX
                    &&& #[trigger] slots@[tok] == target(*meta, group, tok)
                    &&& slots@[tok] matches Some(s) ==> s < num_slots
                }
        },
{
    let t: usize = meta.total_tokens();
    let mut slots: Vec<Option<usize>> = Vec::new();
    let mut tok: usize = 0;
    assert(views(problems@) =~= views(old(problems)@) + plan_faults(*meta, group, num_slots, 0));
    while tok < t
        invariant
            tok <= t,
            t == meta.total_tokens,
            meta.wf(),
            slots@.len() == tok,
            views(problems@) == views(old(problems)@) + plan_faults(
                *meta,
                group,
                num_slots,
                tok as int,
            ),
            views(problems@).len() == 0 ==> forall|i: int|
                0 <= i < tok ==> {
                    &&& group < meta.num_groups
                    &&& i <= u32::MAX
                    &&& #[trigger] slots@[i] == target(*meta, group, i)
                    &&& slots@[i] matches Some(s) ==> s < num_slots
                },
        decreases t - tok,
    {
        let ghost before = views(problems@);
        if tok > u32::MAX as usize {
            let detail = Detail::one("token index {} overflows u32", Arg::Int(tok as u64));
            push_problem(problems, overflow("state_write_kv", detail));
            slots.push(None);
        } else {
            match checked_slot(meta, group, tok as u32) {
                Err(e) => {
                    push_problem(problems, e);
                    slots.push(None);
                },
                Ok(raw) => {
                    if raw == SLOT_NONE {
                        slots.push(None);
                    } else if raw as usize >= num_slots {
                        push_problem(
                            problems,
                            T0Error::RowIndexOutOfRange {
                                op: "state_write_kv",
                                tensor: "slot_map",
                                position: tok,
                                index: raw,
                                upper_bound: num_slots,
                            },
                        );
                        slots.push(None);
                    } else {
                        slots.push(Some(raw as usize));
                    }
                },
            }
        }
        assert(views(problems@) =~= before + slot_faults(*meta, group, num_slots, tok as int));
        tok += 1;
        assert(views(problems@) =~= views(old(problems)@) + plan_faults(
            *meta,
            group,
            num_slots,
            tok as int,
        ));
    }
    if problems.len() == 0 {
        Some(slots)
    } else {
        None
    }
}

/// Value of a paged cache.
#[verifier::ext_equal]
pub struct PagedView {
    /// Number of blocks.
    pub num_blocks: usize,
    /// Heads per slot.
    pub hkv: usize,
    /// Width of a key.
    pub d: usize,
    /// Width of a value.
    pub dv: usize,
    /// Stored type.
    pub dtype: DType,
    /// Keys.
    pub k: PlaneView,
    /// Values.
    pub v: PlaneView,
    /// Whether each slot was ever written.
    pub written: Seq<bool>,
}

impl View for KvPagedCache {
    type V = PagedView;

    open spec fn view(&self) -> PagedView {
        PagedView {
            num_blocks: self.num_blocks,
            hkv: self.hkv,
            d: self.d,
            dv: self.dv,
            dtype: self.dtype,
            k: self.k@,
            v: self.v@,
            written: self.written@,
        }
    }
}

impl PagedView {
    /// Whether the storage has the extents of the cache.
    pub open spec fn wf(self) -> bool {
        let rows = self.written.len() * self.hkv;
        &&& is_cache_dtype(self.dtype)
        &&& self.k.wf(self.dtype, rows * self.d, rows)
        &&& self.v.wf(self.dtype, rows * self.dv, rows)
    }

    /// Element of a key.
    pub open spec fn k_at<F: Fn(FloatOp, u32, u32) -> u32>(
        self,
        f: F,
        slot: int,
        head: int,
        dim: int,
    ) -> u32 {
        let row = slot * self.hkv + head;
        self.k.value(f, self.dtype, row * self.d + dim, row)
    }

    /// Element of a value.
    pub open spec fn v_at<F: Fn(FloatOp, u32, u32) -> u32>(
        self,
        f: F,
        slot: int,
        head: int,
        dim: int,
    ) -> u32 {
        let row = slot * self.hkv + head;
        self.v.value(f, self.dtype, row * self.dv + dim, row)
    }
}

/// Rows of one token on their way into a slot.
pub struct TokenRows {
    /// Slot.
    pub slot: usize,
    /// Keys, head by head.
    pub k: Vec<Row>,
    /// Values, head by head.
    pub v: Vec<Row>,
}

/// Value of [`TokenRows`].
#[verifier::ext_equal]
pub struct TokenRowsView {
    /// Slot.
    pub slot: usize,
    /// Keys, head by head.
    pub k: Seq<RowView>,
    /// Values, head by head.
    pub v: Seq<RowView>,
}

/// Values of rows.
pub open spec fn row_views(rows: Seq<Row>) -> Seq<RowView> {
    Seq::new(rows.len(), |i: int| rows[i]@)
}

impl View for TokenRows {
    type V = TokenRowsView;

    open spec fn view(&self) -> TokenRowsView {
        TokenRowsView { slot: self.slot, k: row_views(self.k@), v: row_views(self.v@) }
    }
}

/// Values of planned writes.
pub open spec fn plan_views(plan: Seq<TokenRows>) -> Seq<TokenRowsView> {
    Seq::new(plan.len(), |i: int| plan[i]@)
}

/// A plane with rows of the first heads stored in a slot.
pub open spec fn with_heads(
    p: PlaneView,
    slot: int,
    hkv: int,
    width: int,
    rows: Seq<RowView>,
    heads: int,
) -> PlaneView
    decreases heads,
{
    if heads <= 0 {
        p
    } else {
        let row = slot * hkv + heads - 1;
        with_heads(p, slot, hkv, width, rows, heads - 1).with_row(
            row * width,
            row,
            rows[heads - 1],
        )
    }
}

impl PagedView {
    /// The cache with the rows of a token in a slot, which is then written.
    pub open spec fn with_token(self, t: TokenRowsView) -> PagedView {
        PagedView {
            k: with_heads(
                self.k,
                t.slot as int,
                self.hkv as int,
                self.d as int,
                t.k,
                self.hkv as int,
            ),
            v: with_heads(
                self.v,
                t.slot as int,
                self.hkv as int,
                self.dv as int,
                t.v,
                self.hkv as int,
            ),
            written: self.written.update(t.slot as int, true),
            ..self
        }
    }

    /// The cache with planned writes done in order.
    pub open spec fn with_tokens(self, plan: Seq<TokenRowsView>) -> PagedView
        decreases plan.len(),
    {
        if plan.len() == 0 {
            self
        } else {
            self.with_tokens(plan.drop_last()).with_token(plan.last())
        }
    }
}

/// Encoding of the key and the value of one head of a token; `at` is the
/// token's position among those written.
pub open spec fn encoded_head<
    F: Fn(FloatOp, u32, u32) -> u32,
    G: Fn(FormatQuery) -> Result<u64, FormatError>,
>(f: F, g: G, dtype: DType, k: Tensor, v: Tensor, tok: int, at: int, head: int) -> Result<
    (RowView, RowView),
    ErrorView,
> {
    let row = tok * k.shape[1] + head;
    let kd = k.shape[2] as int;
    let vd = v.shape[2] as int;
    let place = |tensor: &'static str| RowPlace { tensor, tok: at as usize, head: head as usize };
    match encoded_row(f, g, dtype, row_at(k.cells, row * kd, kd), place("k")) {
        Err(e) => Err(e),
        Ok(kr) => match encoded_row(f, g, dtype, row_at(v.cells, row * vd, vd), place("v")) {
            Err(e) => Err(e),
            Ok(vr) => Ok((kr, vr)),
        },
    }
}

/// Encodings of the first heads of a token.
pub open spec fn encoded_heads<
    F: Fn(FloatOp, u32, u32) -> u32,
    G: Fn(FormatQuery) -> Result<u64, FormatError>,
>(f: F, g: G, dtype: DType, k: Tensor, v: Tensor, tok: int, at: int, heads: int) -> Result<
    (Seq<RowView>, Seq<RowView>),
    ErrorView,
>
    decreases heads,
{
    if heads <= 0 {
        Ok((Seq::empty(), Seq::empty()))
    } else {
        match encoded_heads(f, g, dtype, k, v, tok, at, heads - 1) {
            Err(e) => Err(e),
            Ok((ks, vs)) => match encoded_head(f, g, dtype, k, v, tok, at, heads - 1) {
                Err(e) => Err(e),
                Ok((kr, vr)) => Ok((ks.push(kr), vs.push(vr))),
            },
        }
    }
}

/// Planned writes of the first tokens. A cache of another type than the write
/// has no room for the first row.
pub open spec fn token_plan<
    F: Fn(FloatOp, u32, u32) -> u32,
    G: Fn(FormatQuery) -> Result<u64, FormatError>,
>(
    f: F,
    g: G,
    op: StateWriteKvOp,
    k: Tensor,
    v: Tensor,
    meta: BatchMeta,
    group: u32,
    cache: PagedView,
    toks: int,
) -> Result<Seq<TokenRowsView>, ErrorView>
    decreases toks,
{
    if toks <= 0 {
        Ok(Seq::empty())
    } else {
        match token_plan(f, g, op, k, v, meta, group, cache, toks - 1) {
            Err(e) => Err(e),
            Ok(plan) => match target(meta, group, toks - 1) {
                None => Ok(plan),
                Some(slot) => if op.cache_dtype != cache.dtype {
                    match encoded_head(
                        f,
                        g,
                        op.cache_dtype,
                        k,
                        v,
                        toks - 1,
                        plan.len() as int,
                        0,
                    ) {
                        Err(e) => Err(e),
                        Ok(_) => Err(
                            length_error(
                                "cache.k",
                                0,
                                slot * cache.hkv * cache.d + 1,
                                seq![0usize],
                            ),
                        ),
                    }
                } else {
                    match encoded_heads(
                        f,
                        g,
                        op.cache_dtype,
                        k,
                        v,
                        toks - 1,
                        plan.len() as int,
                        k.shape[1] as int,
                    ) {
                        Err(e) => Err(e),
                        Ok((ks, vs)) => Ok(plan.push(TokenRowsView { slot, k: ks, v: vs })),
                    }
                },
            },
        }
    }
}

/// Problems of a write into a paged cache. Where the operands are too short to
/// be scanned for infinities, that is a problem by itself.
pub open spec fn paged_write_faults(
    op: StateWriteKvOp,
    k: Tensor,
    v: Tensor,
    meta: BatchMeta,
    group: u32,
    cache: PagedView,
) -> Seq<ErrorView> {
    let form = write_faults(op, k, v, meta, group) + given(
        op.latent is Some,
        attr_error(
            "state_write_kv",
            "latent",
            plain("paged write takes no latent spec; use a KvLatent cache"),
        ),
    );
    let dims = if k.rank() == 3 && v.rank() == 3 {
        form + dim_faults("Hkv", "cache", cache.hkv, "k", k.shape[1]) + dim_faults(
            "D",
            "cache",
            cache.d,
            "k",
            k.shape[2],
        ) + dim_faults("Dv", "cache", cache.dv, "v", v.shape[2])
    } else {
        form
    };
    let values = if scan_readable(op, k, v) {
        dims + token_faults(k, v, op.cache_dtype, k.shape[0] as int)
    } else {
        dims
    };
    if group < meta.num_groups {
        values + plan_faults(
            meta,
            group,
            cache.written.len() as usize,
            meta.total_tokens as int,
        )
    } else {
        values
    }
}

/// Planned writes into a paged cache, or the error of the write.
pub open spec fn paged_plan<
    F: Fn(FloatOp, u32, u32) -> u32,
    G: Fn(FormatQuery) -> Result<u64, FormatError>,
>(
    f: F,
    g: G,
    op: StateWriteKvOp,
    k: Tensor,
    v: Tensor,
    meta: BatchMeta,
    group: u32,
    cache: PagedView,
) -> Result<Seq<TokenRowsView>, ErrorView> {
    match fault_of(paged_write_faults(op, k, v, meta, group, cache)) {
        Some(e) => Err(e),
        None => token_plan(f, g, op, k, v, meta, group, cache, meta.total_tokens as int),
    }
}

/// Encodes one head of a token.
fn encode_head<
    F: Fn(FloatOp, u32, u32) -> u32,
    G: Fn(FormatQuery) -> Result<u64, FormatError>,
>(
    f: &F,
    g: &G,
    dtype: DType,
    k: &TensorView<'_>,
    v: &TensorView<'_>,
    tok: usize,
    at: usize,
    head: usize,
) -> (r: Result<(Row, Row), T0Error>)
    requires
        is_arith(*f),
        is_format(*g),
        is_cache_dtype(dtype),
        k@.rank() == 3,
        v@.rank() == 3,
        k@.backed(),
        v@.backed(),
        v@.shape[0] == k@.shape[0],
        v@.shape[1] == k@.shape[1],
        tok < k@.shape[0],
        head < k@.shape[1],
    ensures
        match encoded_head(*f, *g, dtype, k@, v@, tok as int, at as int, head as int) {
            Err(e) => r is Err && r->Err_0.view() == e,
            Ok((kr, vr)) => {
                &&& r is Ok
                &&& r->Ok_0.0@ == kr
                &&& r->Ok_0.1@ == vr
                &&& kr.len() == k@.shape[2]
                &&& vr.len() == v@.shape[2]
                &&& kr.dtype() == dtype
                &&& vr.dtype() == dtype
            },
        },
{
    let t: usize = k.shape()[0];
    let h: usize = k.shape()[1];
    let kd: usize = k.shape()[2];
    let vd: usize = v.shape()[2];
    proof {
        lemma_extent3(k@.shape);
        lemma_extent3(v@.shape);
        lemma_flat_bound(tok as int, t as int, head as int, h as int);
        lemma_mul_nonneg(tok as int, h as int);
        lemma_row_held(k@.cells, tok * h + head, t * h, kd as int);
        lemma_row_held(v@.cells, tok * h + head, t * h, vd as int);
    }
    let row: usize = tok * h + head;
    let ks = read_row(k, row * kd, kd);
    let vs = read_row(v, row * vd, vd);
    let kr = match encode_row(f, g, dtype, ks.as_slice(), RowPlace { tensor: "k", tok: at, head }) {
        Ok(r) => r,
        Err(e) => {
            return Err(e);
        },
    };
    let vr = match encode_row(f, g, dtype, vs.as_slice(), RowPlace { tensor: "v", tok: at, head }) {
        Ok(r) => r,
        Err(e) => {
            return Err(e);
        },
    };
    Ok((kr, vr))
}

/// An error among the first heads is the error of the token.
proof fn lemma_heads_prefix<
    F: Fn(FloatOp, u32, u32) -> u32,
    G: Fn(FormatQuery) -> Result<u64, FormatError>,
>(f: F, g: G, dtype: DType, k: Tensor, v: Tensor, tok: int, at: int, n: int, heads: int)
    requires
        n <= heads,
        encoded_heads(f, g, dtype, k, v, tok, at, n) is Err,
    ensures
        encoded_heads(f, g, dtype, k, v, tok, at, heads) == encoded_heads(
            f,
            g,
            dtype,
            k,
            v,
            tok,
            at,
            n,
        ),
    decreases heads - n,
{
    if n < heads {
        lemma_heads_prefix(f, g, dtype, k, v, tok, at, n, heads - 1);
    }
}

/// Whether all rows have the given width and type.
pub open spec fn uniform(rows: Seq<RowView>, width: int, dtype: DType) -> bool {
    forall|i: int|
        0 <= i < rows.len() ==> (#[trigger] rows[i]).len() == width && rows[i].dtype() == dtype
}

/// Encodes all heads of a token.
fn encode_heads<
    F: Fn(FloatOp, u32, u32) -> u32,
    G: Fn(FormatQuery) -> Result<u64, FormatError>,
>(
    f: &F,
    g: &G,
    dtype: DType,
    k: &TensorView<'_>,
    v: &TensorView<'_>,
    tok: usize,
    at: usize,
) -> (r: Result<(Vec<Row>, Vec<Row>), T0Error>)
    requires
        is_arith(*f),
        is_format(*g),
        is_cache_dtype(dtype),
        k@.rank() == 3,
        v@.rank() == 3,
        k@.backed(),
        v@.backed(),
        v@.shape[0] == k@.shape[0],
        v@.shape[1] == k@.shape[1],
        tok < k@.shape[0],
    ensures
        match encoded_heads(
            *f,
            *g,
            dtype,
            k@,
            v@,
            tok as int,
            at as int,
            k@.shape[1] as int,
        ) {
            Err(e) => r is Err && r->Err_0.view() == e,
            Ok((ks, vs)) => {
                &&& r is Ok
                &&& row_views(r->Ok_0.0@) == ks
                &&& row_views(r->Ok_0.1@) == vs
                &&& ks.len() == k@.shape[1]
                &&& vs.len() == k@.shape[1]
                &&& uniform(ks, k@.shape[2] as int, dtype)
                &&& uniform(vs, v@.shape[2] as int, dtype)
            },
        },
{
    let h: usize = k.shape()[1];
    let mut ks: Vec<Row> = Vec::new();
    let mut vs: Vec<Row> = Vec::new();
    let mut head: usize = 0;
    assert(row_views(ks@) =~= Seq::empty());
    assert(row_views(vs@) =~= Seq::empty());
    while head < h
        invariant
            head <= h,
            h == k@.shape[1],
            is_arith(*f),
            is_format(*g),
            is_cache_dtype(dtype),
            k@.rank() == 3,
            v@.rank() == 3,
            k@.backed(),
            v@.backed(),
            v@.shape[0] == k@.shape[0],
            v@.shape[1] == k@.shape[1],
            tok < k@.shape[0],
            encoded_heads(*f, *g, dtype, k@, v@, tok as int, at as int, head as int) == Ok::<
                (Seq<RowView>, Seq<RowView>),
                ErrorView,
            >((row_views(ks@), row_views(vs@))),
            ks@.len() == head,
            vs@.len() == head,
            uniform(row_views(ks@), k@.shape[2] as int, dtype),
            uniform(row_views(vs@), v@.shape[2] as int, dtype),
        decreases h - head,
    {
        let ghost ks0 = row_views(ks@);
        let ghost vs0 = row_views(vs@);
        match encode_head(f, g, dtype, k, v, tok, at, head) {
            Ok((kr, vr)) => {
                ks.push(kr);
                vs.push(vr);
                assert(row_views(ks@) =~= ks0.push(kr@));
                assert(row_views(vs@) =~= vs0.push(vr@));
            },
            Err(e) => {
                proof {
                    lemma_heads_prefix(
                        *f,
                        *g,
                        dtype,
                        k@,
                        v@,
                        tok as int,
                        at as int,
                        head + 1,
                        h as int,
                    );
                }
                return Err(e);
            },
        }
        head += 1;
    }
    Ok((ks, vs))
}

/// Whether a planned token fits into a cache.
pub open spec fn token_fits(t: TokenRowsView, cache: PagedView) -> bool {
    &&& t.slot < cache.written.len()
    &&& t.k.len() == cache.hkv
    &&& t.v.len() == cache.hkv
    &&& uniform(t.k, cache.d as int, cache.dtype)
    &&& uniform(t.v, cache.dv as int, cache.dtype)
}

/// An error among the first tokens is the error of the plan.
proof fn lemma_plan_prefix<
    F: Fn(FloatOp, u32, u32) -> u32,
    G: Fn(FormatQuery) -> Result<u64, FormatError>,
>(
    f: F,
    g: G,
    op: StateWriteKvOp,
    k: Tensor,
    v: Tensor,
    meta: BatchMeta,
    group: u32,
    cache: PagedView,
    n: int,
    toks: int,
)
    requires
        n <= toks,
        token_plan(f, g, op, k, v, meta, group, cache, n) is Err,
    ensures
        token_plan(f, g, op, k, v, meta, group, cache, toks) == token_plan(
            f,
            g,
            op,
            k,
            v,
            meta,
            group,
            cache,
            n,
        ),
    decreases toks - n,
{
    if n < toks {
        lemma_plan_prefix(f, g, op, k, v, meta, group, cache, n, toks - 1);
    }
}

/// Encodes the rows of all tokens that have a slot.
fn plan_tokens<
    F: Fn(FloatOp, u32, u32) -> u32,
    G: Fn(FormatQuery) -> Result<u64, FormatError>,
>(
    f: &F,
    g: &G,
    op: &StateWriteKvOp,
    k: &TensorView<'_>,
    v: &TensorView<'_>,
    meta: &BatchMeta,
    group: u32,
    cache: &KvPagedCache,
    slots: &Vec<Option<usize>>,
) -> (r: Result<Vec<TokenRows>, T0Error>)
    requires
        is_arith(*f),
        is_format(*g),
        is_cache_dtype(op.cache_dtype),
        cache.wf(),
        k@.rank() == 3,
        v@.rank() == 3,
        k@.backed(),
        v@.backed(),
        k@.shape[0] == meta.total_tokens,
        k@.shape[1] == cache.hkv,
        k@.shape[2] == cache.d,
        v@.shape[0] == k@.shape[0],
        v@.shape[1] == k@.shape[1],
        v@.shape[2] == cache.dv,
        slots@.len() == meta.total_tokens,
        forall|tok: int|
            0 <= tok < slots@.len() ==> {
                &&& #[trigger] slots@[tok] == target(*meta, group, tok)
                &&& slots@[tok] matches Some(s) ==> s < cache.slots()
            },
    ensures
        match token_plan(
            *f,
            *g,
            *op,
            k@,
            v@,
            *meta,
            group,
            cache@,
            meta.total_tokens as int,
        ) {
            Err(e) => r is Err && r->Err_0.view() == e,
            Ok(plan) => {
                &&& r is Ok
                &&& plan_views(r->Ok_0@) == plan
                &&& forall|i: int|
                    0 <= i < plan.len() ==> token_fits(#[trigger] plan[i], cache@)
            },
        },
{
    let t: usize = slots.len();
    let mut plan: Vec<TokenRows> = Vec::new();
    let mut tok: usize = 0;
    assert(plan_views(plan@) =~= Seq::empty());
    while tok < t
        invariant
            tok <= t,
            t == slots@.len(),
            is_arith(*f),
            is_format(*g),
            is_cache_dtype(op.cache_dtype),
            cache.wf(),
            k@.rank() == 3,
            v@.rank() == 3,
            k@.backed(),
            v@.backed(),
            k@.shape[0] == meta.total_tokens,
            k@.shape[1] == cache.hkv,
            k@.shape[2] == cache.d,
            v@.shape[0] == k@.shape[0],
            v@.shape[1] == k@.shape[1],
            v@.shape[2] == cache.dv,
            slots@.len() == meta.total_tokens,
            forall|tok: int|
                0 <= tok < slots@.len() ==> {
                    &&& #[trigger] slots@[tok] == target(*meta, group, tok)
                    &&& slots@[tok] matches Some(s) ==> s < cache.slots()
                },
            token_plan(*f, *g, *op, k@, v@, *meta, group, cache@, tok as int) == Ok::<
                Seq<TokenRowsView>,
                ErrorView,
            >(plan_views(plan@)),
            forall|i: int|
                0 <= i < plan@.len() ==> token_fits(#[trigger] plan_views(plan@)[i], cache@),
        decreases t - tok,
    {
        let ghost before = plan_views(plan@);
        let at: usize = plan.len();
        match slots[tok] {
            None => {},
            Some(slot) => {
                if op.cache_dtype != cache.dtype {
                    let e = match encode_head(f, g, op.cache_dtype, k, v, tok, at, 0) {
                        Err(e) => e,
                        Ok(_) => {
                            proof {
                                lemma_cell(
                                    slot as int,
                                    cache.slots(),
                                    0,
                                    cache.hkv as int,
                                    0,
                                    cache.d as int,
                                );
                            }
                            let shape = vec![0usize];
                            assert(shape@ =~= seq![0usize]);
                            length_mismatch(
                                "cache.k",
                                0,
                                slot * cache.hkv * cache.d + 1,
                                shape.as_slice(),
                            )
                        },
                    };
                    proof {
                        lemma_plan_prefix(
                            *f,
                            *g,
                            *op,
                            k@,
                            v@,
                            *meta,
                            group,
                            cache@,
                            tok + 1,
                            t as int,
                        );
                    }
                    return Err(e);
                }
                match encode_heads(f, g, op.cache_dtype, k, v, tok, at) {
                    Ok((ks, vs)) => {
                        plan.push(TokenRows { slot, k: ks, v: vs });
                        assert(plan_views(plan@) =~= before.push(
                            TokenRowsView { slot, k: row_views(ks@), v: row_views(vs@) },
                        ));
                    },
                    Err(e) => {
                        proof {
                            lemma_plan_prefix(
                                *f,
                                *g,
                                *op,
                                k@,
                                v@,
                                *meta,
                                group,
                                cache@,
                                tok + 1,
                                t as int,
                            );
                        }
                        return Err(e);
                    },
                }
            },
        }
        tok += 1;
    }
    Ok(plan)
}

/// Storing rows keeps the extents of a plane.
pub proof fn lemma_with_row_wf(
    p: PlaneView,
    off: int,
    at: int,
    row: RowView,
    dtype: DType,
    n: int,
    rows: int,
)
    requires
        p.wf(dtype, n, rows),
        row.dtype() == dtype,
        0 <= at < rows,
    ensures
        p.with_row(off, at, row).wf(dtype, n, rows),
{
}

/// Storing the heads of a token keeps the extents of a plane.
pub proof fn lemma_with_heads_wf(
    p: PlaneView,
    slot: int,
    slots: int,
    hkv: int,
    width: int,
    rows: Seq<RowView>,
    heads: int,
    dtype: DType,
)
    requires
        p.wf(dtype, slots * hkv * width, slots * hkv),
        0 <= slot < slots,
        0 <= heads <= hkv,
        rows.len() == hkv,
        uniform(rows, width, dtype),
    ensures
        with_heads(p, slot, hkv, width, rows, heads).wf(dtype, slots * hkv * width, slots * hkv),
    decreases heads,
{
    if heads > 0 {
        lemma_with_heads_wf(p, slot, slots, hkv, width, rows, heads - 1, dtype);
        lemma_flat_bound(slot, slots, heads - 1, hkv);
        lemma_mul_nonneg(slot, hkv);
        lemma_with_row_wf(
            with_heads(p, slot, hkv, width, rows, heads - 1),
            (slot * hkv + heads - 1) * width,
            slot * hkv + heads - 1,
            rows[heads - 1],
            dtype,
            slots * hkv * width,
            slots * hkv,
        );
    }
}

impl KvPagedCache {
    /// Stores the rows of a token.
    fn put_token(&mut self, t: &TokenRows) -> (r: Result<(), T0Error>)
        requires
            old(self).wf(),
            token_fits(t@, old(self)@),
        ensures
            r is Ok,
            final(self)@ == old(self)@.with_token(t@),
            final(self).wf(),
    {
        let slots: usize = self.written.len();
        let h: usize = self.hkv;
        let kd: usize = self.d;
        let vd: usize = self.dv;
        let mut head: usize = 0;
        while head < h
            invariant
                head <= h,
                h == old(self).hkv,
                kd == old(self).d,
                vd == old(self).dv,
                slots == old(self).slots(),
                old(self).wf(),
                token_fits(t@, old(self)@),
                self@ == (PagedView {
                    k: with_heads(
                        old(self).k@,
                        t.slot as int,
                        h as int,
                        kd as int,
                        t@.k,
                        head as int,
                    ),
                    v: with_heads(
                        old(self).v@,
                        t.slot as int,
                        h as int,
                        vd as int,
                        t@.v,
                        head as int,
                    ),
                    ..old(self)@
                }),
            decreases h - head,
        {
            proof {
                lemma_cell(t.slot as int, slots as int, head as int, h as int, 0, kd as int);
                lemma_cell(t.slot as int, slots as int, head as int, h as int, 0, vd as int);
                lemma_with_heads_wf(
                    old(self).k@,
                    t.slot as int,
                    slots as int,
                    h as int,
                    kd as int,
                    t@.k,
                    head as int,
                    old(self).dtype,
                );
                lemma_with_heads_wf(
                    old(self).v@,
                    t.slot as int,
                    slots as int,
                    h as int,
                    vd as int,
                    t@.v,
                    head as int,
                    old(self).dtype,
                );
                assert(t@.k[head as int] == t.k@[head as int]@);
                assert(t@.v[head as int] == t.v@[head as int]@);
                lemma_row_fits(t.slot * h + head, slots * h, kd as int);
                lemma_row_fits(t.slot * h + head, slots * h, vd as int);
            }
            let row: usize = t.slot * h + head;
            match self.k.put_row(row * kd, row, &t.k[head], ("cache.k", "cache.k_scales")) {
                Ok(_) => {},
                Err(e) => {
                    return Err(e);
                },
            }
            match self.v.put_row(row * vd, row, &t.v[head], ("cache.v", "cache.v_scales")) {
                Ok(_) => {},
                Err(e) => {
                    return Err(e);
                },
            }
            head += 1;
        }
        proof {
            lemma_with_heads_wf(
                old(self).k@,
                t.slot as int,
                slots as int,
                h as int,
                kd as int,
                t@.k,
                h as int,
                old(self).dtype,
            );
            lemma_with_heads_wf(
                old(self).v@,
                t.slot as int,
                slots as int,
                h as int,
                vd as int,
                t@.v,
                h as int,
                old(self).dtype,
            );
        }
        self.written[t.slot] = true;
        Ok(())
    }
}

impl KvPagedCache {
    /// Stores the rows of planned tokens in order.
    fn put_tokens(&mut self, plan: &Vec<TokenRows>) -> (r: Result<(), T0Error>)
        requires
            old(self).wf(),
            forall|j: int|
                0 <= j < plan@.len() ==> token_fits(#[trigger] plan_views(plan@)[j], old(self)@),
        ensures
            r is Ok,
            final(self)@ == old(self)@.with_tokens(plan_views(plan@)),
            final(self).wf(),
    {
        let mut i: usize = 0;
        assert(plan_views(plan@).take(0) =~= Seq::empty());
        while i < plan.len()
            invariant
                i <= plan@.len(),
                self.wf(),
                self@ == old(self)@.with_tokens(plan_views(plan@).take(i as int)),
                self@.hkv == old(self).hkv,
                self@.d == old(self).d,
                self@.dv == old(self).dv,
                self@.dtype == old(self).dtype,
                self@.written.len() == old(self)@.written.len(),
                forall|j: int|
                    0 <= j < plan@.len() ==> token_fits(
                        #[trigger] plan_views(plan@)[j],
                        old(self)@,
                    ),
            decreases plan@.len() - i,
        {
            assert(plan_views(plan@).take(i + 1).drop_last() =~= plan_views(plan@).take(i as int));
            assert(plan_views(plan@)[i as int] == plan@[i as int]@);
            match self.put_token(&plan[i]) {
                Ok(_) => {},
                Err(e) => {
                    return Err(e);
                },
            }
            i += 1;
        }
        assert(plan_views(plan@).take(i as int) =~= plan_views(plan@));
        Ok(())
    }
}

/// A row lies within the storage of all rows.
pub proof fn lemma_row_fits(row: int, rows: int, width: int)
    requires
        0 <= row < rows,
        0 <= width,
    ensures
        0 <= row * width,
        row * width + width <= rows * width,
{
    assert(0 <= row * width && row * width + width <= rows * width) by (nonlinear_arith)
        requires
            0 <= row < rows,
            0 <= width,
    ;
}

/// Checks a write into a paged cache and gives the slots of all tokens.
fn check_paged_write(
    op: &StateWriteKvOp,
    k: &TensorView<'_>,
    v: &TensorView<'_>,
    meta: &BatchMeta,
    group: u32,
    cache: &KvPagedCache,
) -> (r: Result<Vec<Option<usize>>, T0Error>)
    requires
        meta.wf(),
    ensures
        match fault_of(paged_write_faults(*op, k@, v@, *meta, group, cache@)) {
            Some(e) => r is Err && r->Err_0.view() == e,
            None => {
                &&& r is Ok
                &&& is_cache_dtype(op.cache_dtype)
                &&& k@.rank() == 3
                &&& v@.rank() == 3
                &&& k@.backed()
                &&& v@.backed()
                &&& k@.shape[0] == meta.total_tokens
                &&& k@.shape[1] == cache.hkv
                &&& k@.shape[2] == cache.d
                &&& v@.shape[0] == k@.shape[0]
                &&& v@.shape[1] == k@.shape[1]
                &&& v@.shape[2] == cache.dv
                &&& r->Ok_0@.len() == meta.total_tokens
                &&& forall|tok: int|
                    0 <= tok < r->Ok_0@.len() ==> {
                        &&& #[trigger] r->Ok_0@[tok] == target(*meta, group, tok)
                        &&& r->Ok_0@[tok] matches Some(s) ==> s < cache.slots()
                    }
            },
        },
{
    let mut problems = validate_write_common(op, k, v, meta, group);
    push_when(
        &mut problems,
        op.latent.is_some(),
        invalid_attr(
            "state_write_kv",
            "latent",
            Detail::plain("paged write takes no latent spec; use a KvLatent cache"),
        ),
    );
    if k.rank() == 3 && v.rank() == 3 {
        check_dim(&mut problems, "Hkv", "cache", cache.hkv, "k", k.shape()[1]);
        check_dim(&mut problems, "D", "cache", cache.d, "k", k.shape()[2]);
        check_dim(&mut problems, "Dv", "cache", cache.dv, "v", v.shape()[2]);
        if can_scan(op, k, v) {
            check_finite(&mut problems, op, k, v);
        }
    }
    let planned = if (group as usize) < meta.num_groups() {
        plan_write_slots(meta, group, cache.num_slots(), &mut problems)
    } else {
        None
    };
    assert(views(problems@) == paged_write_faults(*op, k@, v@, *meta, group, cache@));
    let ghost found = views(problems@);
    match T0Error::from_problems(problems) {
        Ok(_) => {},
        Err(e) => {
            return Err(e);
        },
    }
    assert(found.len() == 0);
    proof {
        lemma_no_write_faults(*op, k@, v@, *meta, group);
    }
    match planned {
        Some(s) => Ok(s),
        None => Ok(Vec::new()),
    }
}

/// Writes the keys and values of all tokens that have a slot into a paged
/// cache.
pub fn state_write_kv_paged<
    F: Fn(FloatOp, u32, u32) -> u32,
    G: Fn(FormatQuery) -> Result<u64, FormatError>,
>(
    f: &F,
    g: &G,
    op: &StateWriteKvOp,
    k: &TensorView<'_>,
    v: &TensorView<'_>,
    meta: &BatchMeta,
    group: u32,
    cache: &mut KvPagedCache,
) -> (r: Result<(), T0Error>)
    requires
        is_arith(*f),
        is_format(*g),
        meta.wf(),
        old(cache).wf(),
    ensures
        match paged_plan(*f, *g, *op, k@, v@, *meta, group, old(cache)@) {
            Err(e) => r is Err && r->Err_0.view() == e && final(cache)@ == old(cache)@,
            Ok(plan) => r is Ok && final(cache)@ == old(cache)@.with_tokens(plan),
        },
        final(cache).wf(),
{
    let slots = match check_paged_write(op, k, v, meta, group, cache) {
        Ok(s) => s,
        Err(e) => {
            return Err(e);
        },
    };
    let plan = match plan_tokens(f, g, op, k, v, meta, group, cache, &slots) {
        Ok(p) => p,
        Err(e) => {
            return Err(e);
        },
    };
    cache.put_tokens(&plan)
}

/// What the absence of problems says of the operands of a write.
pub proof fn lemma_no_write_faults(
    op: StateWriteKvOp,
    k: Tensor,
    v: Tensor,
    meta: BatchMeta,
    group: u32,
)
    requires
        write_faults(op, k, v, meta, group).len() == 0,
        k.cells.len() <= usize::MAX,
        v.cells.len() <= usize::MAX,
    ensures
        k.rank() == 3,
        v.rank() == 3,
        k.backed(),
        v.backed(),
        is_cache_dtype(op.cache_dtype),
        op.scale_granularity == CacheScaleGranularity::PerTokenHead,
        group < meta.num_groups,
        k.shape[0] == meta.total_tokens,
        v.shape[0] == meta.total_tokens,
        v.shape[1] == k.shape[1],
{
    reveal(write_faults);
    let ranks = clear() + rank_faults("k", 3, k.shape) + rank_faults("v", 3, v.shape);
    let first = and_operand(ranks, "k", k);
    let form = write_form_faults(op, k, v, meta, group);
    assert(form.len() == 0);
    assert(and_operand(first, "v", v).len() == 0);
    lemma_no_operand_faults(first, "v", v);
    lemma_no_operand_faults(ranks, "k", k);
}

} // verus!
