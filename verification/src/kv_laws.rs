//! What reads of a cache give back of writes.
use vstd::prelude::*;
use crate::arith::{fp_mul, FloatOp};
use crate::batch::BatchMeta;
use crate::buffer::Tensor;
use crate::dtype::{f16_of, f32_of_e4m3, f32_of_f16, f32_of_int};
use crate::error::{ErrorView, FormatError};
use crate::ir::DType;
use crate::kv_cache::{is_cache_dtype, lemma_cell, KvLatentCache, KvPagedCache, PlaneView};
use crate::kv_latent::{
    latent_fits, latent_form_faults, latent_plan, latent_token_plan, latent_values,
    latent_write_faults, lemma_latent_form_grows, lemma_no_latent_form_faults, rope_values,
    LatentRowsView, LatentView,
};
use crate::kv_rows::{
    e4m3_codes, encoded_row, half_codes, lemma_encoded_len, row_at, row_scale, RowPlace, RowView,
    E4M3_LIMIT,
};
use crate::kv_write::{
    encoded_head, encoded_heads, lemma_no_write_faults, lemma_row_fits, lemma_with_heads_wf,
    lemma_with_row_wf, paged_plan, paged_write_faults, plan_faults, slot_faults, target, token_fits,
    token_plan, uniform, with_heads, write_faults, PagedView, StateWriteKvOp, TokenRowsView,
};
use crate::weight::FormatQuery;

verus! {

/// Number that the code at a position of a row stands for.
pub open spec fn row_value<F: Fn(FloatOp, u32, u32) -> u32>(f: F, row: RowView, dim: int) -> u32 {
    match row {
        RowView::Half(q) => f32_of_f16(q[dim]),
        RowView::Bytes(q, s) => fp_mul(f, f32_of_f16(s), f32_of_int(q[dim] as int)),
        RowView::Eights(q, s) => fp_mul(f, f32_of_f16(s), f32_of_e4m3(q[dim])),
    }
}

/// Two positions in different rows differ.
proof fn lemma_rows_apart(r: int, s: int, c: int, width: int)
    requires
        r != s,
        0 <= c < width,
    ensures
        !(s * width <= r * width + c < s * width + width),
{
    if r < s {
        assert(r * width + width <= s * width) by (nonlinear_arith)
            requires
                r + 1 <= s,
                0 < width,
        ;
    } else {
        assert(s * width + width <= r * width) by (nonlinear_arith)
            requires
                s + 1 <= r,
                0 < width,
        ;
    }
}

/// A stored row is read back, and every other row stays.
proof fn lemma_with_row_value<F: Fn(FloatOp, u32, u32) -> u32>(
    f: F,
    p: PlaneView,
    dtype: DType,
    rows: int,
    width: int,
    at: int,
    row: RowView,
    r: int,
    dim: int,
)
    requires
        is_cache_dtype(dtype),
        p.wf(dtype, rows * width, rows),
        row.dtype() == dtype,
        row.len() == width,
        0 <= at < rows,
        0 <= r < rows,
        0 <= dim < width,
    ensures
        p.with_row(at * width, at, row).value(f, dtype, r * width + dim, r) == if r == at {
            row_value(f, row, dim)
        } else {
            p.value(f, dtype, r * width + dim, r)
        },
{
    lemma_row_fits(r, rows, width);
    lemma_row_fits(at, rows, width);
    if r != at {
        lemma_rows_apart(r, at, dim, width);
    }
}

/// The stored heads of a token are read back, and all else stays.
proof fn lemma_with_heads_value<F: Fn(FloatOp, u32, u32) -> u32>(
    f: F,
    p: PlaneView,
    dtype: DType,
    slot: int,
    slots: int,
    hkv: int,
    width: int,
    rows: Seq<RowView>,
    heads: int,
    s: int,
    head: int,
    dim: int,
)
    requires
        is_cache_dtype(dtype),
        p.wf(dtype, slots * hkv * width, slots * hkv),
        0 <= slot < slots,
        0 <= heads <= hkv,
        rows.len() == hkv,
        uniform(rows, width, dtype),
        0 <= s < slots,
        0 <= head < hkv,
        0 <= dim < width,
    ensures
        ({
            let r = s * hkv + head;
            with_heads(p, slot, hkv, width, rows, heads).value(f, dtype, r * width + dim, r)
                == if s == slot && head < heads {
                row_value(f, rows[head], dim)
            } else {
                p.value(f, dtype, r * width + dim, r)
            }
        }),
    decreases heads,
{
    if heads > 0 {
        lemma_with_heads_value(
            f,
            p,
            dtype,
            slot,
            slots,
            hkv,
            width,
            rows,
            heads - 1,
            s,
            head,
            dim,
        );
        lemma_with_heads_wf(p, slot, slots, hkv, width, rows, heads - 1, dtype);
        lemma_cell(s, slots, head, hkv, dim, width);
        lemma_cell(slot, slots, heads - 1, hkv, 0, width);
        if s != slot {
            lemma_rows_apart(s, slot, head, hkv);
            lemma_rows_apart(slot, s, heads - 1, hkv);
        }
        lemma_with_row_value(
            f,
            with_heads(p, slot, hkv, width, rows, heads - 1),
            dtype,
            slots * hkv,
            width,
            slot * hkv + heads - 1,
            rows[heads - 1],
            s * hkv + head,
            dim,
        );
    }
}

/// The elements that a cache gives are those of its value.
pub proof fn law_reads_view<F: Fn(FloatOp, u32, u32) -> u32>(
    cache: KvPagedCache,
    f: F,
    slot: int,
    head: int,
    dim: int,
)
    requires
        cache.wf(),
    ensures
        cache@.wf(),
        cache.k_value(f, slot, head, dim) == cache@.k_at(f, slot, head, dim),
        cache.v_value(f, slot, head, dim) == cache@.v_at(f, slot, head, dim),
{
}

/// Storing a token: its slot holds its rows and counts as written, and every
/// other slot stays as it was.
pub proof fn law_token_stored<F: Fn(FloatOp, u32, u32) -> u32>(
    f: F,
    cache: PagedView,
    t: TokenRowsView,
    slot: int,
    head: int,
    dim: int,
)
    requires
        cache.wf(),
        token_fits(t, cache),
        0 <= slot < cache.written.len(),
        0 <= head < cache.hkv,
        0 <= dim,
    ensures
        cache.with_token(t).wf(),
        dim < cache.d ==> cache.with_token(t).k_at(f, slot, head, dim) == if slot == t.slot {
            row_value(f, t.k[head], dim)
        } else {
            cache.k_at(f, slot, head, dim)
        },
        dim < cache.dv ==> cache.with_token(t).v_at(f, slot, head, dim) == if slot == t.slot {
            row_value(f, t.v[head], dim)
        } else {
            cache.v_at(f, slot, head, dim)
        },
        cache.with_token(t).written[slot] == (slot == t.slot || cache.written[slot]),
{
    let slots = cache.written.len() as int;
    let hkv = cache.hkv as int;
    lemma_with_heads_wf(
        cache.k,
        t.slot as int,
        slots,
        hkv,
        cache.d as int,
        t.k,
        hkv,
        cache.dtype,
    );
    lemma_with_heads_wf(
        cache.v,
        t.slot as int,
        slots,
        hkv,
        cache.dv as int,
        t.v,
        hkv,
        cache.dtype,
    );
    if dim < cache.d {
        lemma_with_heads_value(
            f,
            cache.k,
            cache.dtype,
            t.slot as int,
            slots,
            hkv,
            cache.d as int,
            t.k,
            hkv,
            slot,
            head,
            dim,
        );
    }
    if dim < cache.dv {
        lemma_with_heads_value(
            f,
            cache.v,
            cache.dtype,
            t.slot as int,
            slots,
            hkv,
            cache.dv as int,
            t.v,
            hkv,
            slot,
            head,
            dim,
        );
    }
}

/// Storing tokens keeps the form of a cache.
pub proof fn law_tokens_wf(cache: PagedView, plan: Seq<TokenRowsView>)
    requires
        cache.wf(),
        forall|i: int| 0 <= i < plan.len() ==> token_fits(#[trigger] plan[i], cache),
    ensures
        cache.with_tokens(plan).wf(),
        cache.with_tokens(plan).num_blocks == cache.num_blocks,
        cache.with_tokens(plan).hkv == cache.hkv,
        cache.with_tokens(plan).d == cache.d,
        cache.with_tokens(plan).dv == cache.dv,
        cache.with_tokens(plan).dtype == cache.dtype,
        cache.with_tokens(plan).written.len() == cache.written.len(),
    decreases plan.len(),
{
    if plan.len() > 0 {
        let init = plan.drop_last();
        assert forall|i: int| 0 <= i < init.len() implies token_fits(#[trigger] init[i], cache) by {
            assert(init[i] == plan[i]);
        }
        law_tokens_wf(cache, init);
        let c = cache.with_tokens(init);
        let t = plan.last();
        assert(plan[plan.len() - 1] == t);
        lemma_with_heads_wf(
            c.k,
            t.slot as int,
            c.written.len() as int,
            c.hkv as int,
            c.d as int,
            t.k,
            c.hkv as int,
            c.dtype,
        );
        lemma_with_heads_wf(
            c.v,
            t.slot as int,
            c.written.len() as int,
            c.hkv as int,
            c.dv as int,
            t.v,
            c.hkv as int,
            c.dtype,
        );
    }
}

/// A slot that no token is written to stays as it was.
pub proof fn law_other_slots_stay<F: Fn(FloatOp, u32, u32) -> u32>(
    f: F,
    cache: PagedView,
    plan: Seq<TokenRowsView>,
    slot: int,
    head: int,
    dim: int,
)
    requires
        cache.wf(),
        forall|i: int| 0 <= i < plan.len() ==> token_fits(#[trigger] plan[i], cache),
        forall|i: int| 0 <= i < plan.len() ==> (#[trigger] plan[i]).slot != slot,
        0 <= slot < cache.written.len(),
        0 <= head < cache.hkv,
        0 <= dim,
    ensures
        dim < cache.d ==> cache.with_tokens(plan).k_at(f, slot, head, dim) == cache.k_at(
            f,
            slot,
            head,
            dim,
        ),
        dim < cache.dv ==> cache.with_tokens(plan).v_at(f, slot, head, dim) == cache.v_at(
            f,
            slot,
            head,
            dim,
        ),
        cache.with_tokens(plan).written[slot] == cache.written[slot],
    decreases plan.len(),
{
    if plan.len() > 0 {
        let init = plan.drop_last();
        assert forall|i: int| 0 <= i < init.len() implies token_fits(#[trigger] init[i], cache)
            && init[i].slot != slot by {
            assert(init[i] == plan[i]);
        }
        law_other_slots_stay(f, cache, init, slot, head, dim);
        law_tokens_wf(cache, init);
        assert(plan[plan.len() - 1] == plan.last());
        law_token_stored(f, cache.with_tokens(init), plan.last(), slot, head, dim);
    }
}

/// A slot holds the rows of the last token that is written to it, and counts as
/// written.
pub proof fn law_last_write_read<F: Fn(FloatOp, u32, u32) -> u32>(
    f: F,
    cache: PagedView,
    plan: Seq<TokenRowsView>,
    at: int,
    head: int,
    dim: int,
)
    requires
        cache.wf(),
        forall|i: int| 0 <= i < plan.len() ==> token_fits(#[trigger] plan[i], cache),
        0 <= at < plan.len(),
        forall|i: int| at < i < plan.len() ==> (#[trigger] plan[i]).slot != plan[at].slot,
        0 <= head < cache.hkv,
        0 <= dim,
    ensures
        ({
            let slot = plan[at].slot as int;
            let after = cache.with_tokens(plan);
            &&& dim < cache.d ==> after.k_at(f, slot, head, dim) == row_value(
                f,
                plan[at].k[head],
                dim,
            )
            &&& dim < cache.dv ==> after.v_at(f, slot, head, dim) == row_value(
                f,
                plan[at].v[head],
                dim,
            )
            &&& after.written[slot]
        }),
    decreases plan.len(),
{
    let init = plan.drop_last();
    let slot = plan[at].slot as int;
    assert(token_fits(plan[at], cache));
    assert forall|i: int| 0 <= i < init.len() implies token_fits(#[trigger] init[i], cache) by {
        assert(init[i] == plan[i]);
    }
    law_tokens_wf(cache, init);
    assert(plan[plan.len() - 1] == plan.last());
    law_token_stored(f, cache.with_tokens(init), plan.last(), slot, head, dim);
    if at < plan.len() - 1 {
        assert forall|i: int| at < i < init.len() implies (#[trigger] init[i]).slot
            != init[at].slot by {
            assert(init[i] == plan[i]);
        }
        assert(init[at] == plan[at]);
        law_last_write_read(f, cache, init, at, head, dim);
    }
}

/// A number stored in half precision is read back as the nearest
/// half-precision number.
pub proof fn law_half_row_read<F: Fn(FloatOp, u32, u32) -> u32>(
    f: F,
    values: Seq<u32>,
    dim: int,
)
    requires
        0 <= dim < values.len(),
    ensures
        row_value(f, RowView::Half(half_codes(values)), dim) == f32_of_f16(f16_of(values[dim])),
{
}

/// Number of tokens among the first that have a slot.
pub open spec fn targets(meta: BatchMeta, group: u32, toks: int) -> int
    decreases toks,
{
    if toks <= 0 {
        0
    } else {
        targets(meta, group, toks - 1) + if target(meta, group, toks - 1) is Some {
            1int
        } else {
            0
        }
    }
}

/// More tokens have no fewer slots.
proof fn lemma_targets_grow(meta: BatchMeta, group: u32, n: int, m: int)
    requires
        n <= m,
    ensures
        0 <= targets(meta, group, n) <= targets(meta, group, m),
    decreases m - n, m,
{
    if n < m {
        lemma_targets_grow(meta, group, n, m - 1);
    } else if n > 0 {
        lemma_targets_grow(meta, group, n - 1, n - 1);
    }
}

/// The codes of a row do not depend on the place that an error would quote.
proof fn lemma_place<
    F: Fn(FloatOp, u32, u32) -> u32,
    G: Fn(FormatQuery) -> Result<u64, FormatError>,
>(f: F, g: G, values: Seq<u32>, scale: u32, a: RowPlace, b: RowPlace)
    requires
        e4m3_codes(f, g, values, scale, a) is Ok,
    ensures
        e4m3_codes(f, g, values, scale, a) == e4m3_codes(f, g, values, scale, b),
    decreases values.len(),
{
    if values.len() > 0 {
        lemma_place(f, g, values.drop_last(), scale, a, b);
    }
}

/// The heads of an encoded token are the encodings of its rows.
proof fn lemma_heads<
    F: Fn(FloatOp, u32, u32) -> u32,
    G: Fn(FormatQuery) -> Result<u64, FormatError>,
>(
    f: F,
    g: G,
    dtype: DType,
    k: Tensor,
    v: Tensor,
    tok: int,
    at: int,
    heads: int,
    head: int,
)
    requires
        is_cache_dtype(dtype),
        0 <= heads,
        encoded_heads(f, g, dtype, k, v, tok, at, heads) is Ok,
    ensures
        ({
            let (ks, vs) = encoded_heads(f, g, dtype, k, v, tok, at, heads)->Ok_0;
            &&& ks.len() == heads
            &&& vs.len() == heads
            &&& uniform(ks, k.shape[2] as int, dtype)
            &&& uniform(vs, v.shape[2] as int, dtype)
            &&& 0 <= head < heads ==> encoded_head(f, g, dtype, k, v, tok, at, head) == Ok::<
                (RowView, RowView),
                ErrorView,
            >((ks[head], vs[head]))
        }),
    decreases heads,
{
    if heads > 0 {
        lemma_heads(f, g, dtype, k, v, tok, at, heads - 1, head);
        let row = tok * k.shape[1] + heads - 1;
        let kd = k.shape[2] as int;
        let vd = v.shape[2] as int;
        let h = (heads - 1) as usize;
        lemma_encoded_len(
            f,
            g,
            dtype,
            row_at(k.cells, row * kd, kd),
            RowPlace { tensor: "k", tok: at as usize, head: h },
        );
        lemma_encoded_len(
            f,
            g,
            dtype,
            row_at(v.cells, row * vd, vd),
            RowPlace { tensor: "v", tok: at as usize, head: h },
        );
    }
}

/// A plan holds one entry for each token that has a slot, in order, and each
/// entry fits into the cache.
proof fn lemma_plan<
    F: Fn(FloatOp, u32, u32) -> u32,
    G: Fn(FormatQuery) -> Result<u64, FormatError>,
>(
    f: F,
    g: G,
    op: StateWriteKvOp,
    k: Tensor,
    v: Tensor,
    meta: BatchMeta,
    group: u32,
    cache: PagedView,
    toks: int,
    tok: int,
)
    requires
        is_cache_dtype(op.cache_dtype),
        k.shape[1] == cache.hkv,
        k.shape[2] == cache.d,
        v.shape[2] == cache.dv,
        0 <= toks,
        0 <= tok,
        token_plan(f, g, op, k, v, meta, group, cache, toks) is Ok,
        forall|i: int|
            0 <= i < toks ==> (#[trigger] target(meta, group, i) matches Some(s) ==> s
                < cache.written.len()),
    ensures
        ({
            let plan = token_plan(f, g, op, k, v, meta, group, cache, toks)->Ok_0;
            let at = targets(meta, group, tok);
            &&& plan.len() == targets(meta, group, toks)
            &&& forall|i: int| 0 <= i < plan.len() ==> token_fits(#[trigger] plan[i], cache)
            &&& forall|i: int|
                0 <= i < plan.len() ==> exists|t: int|
                    0 <= t < toks && target(meta, group, t) == Some(
                        (#[trigger] plan[i]).slot,
                    )
            &&& tok < toks && target(meta, group, tok) is Some ==> {
                &&& op.cache_dtype == cache.dtype
                &&& 0 <= at < plan.len()
                &&& plan[at].slot == target(meta, group, tok)->0
                &&& encoded_heads(
                    f,
                    g,
                    op.cache_dtype,
                    k,
                    v,
                    tok,
                    at,
                    k.shape[1] as int,
                ) == Ok::<(Seq<RowView>, Seq<RowView>), ErrorView>((plan[at].k, plan[at].v))
            }
            &&& tok < toks ==> forall|i: int|
                targets(meta, group, tok + 1) <= i < plan.len() ==> exists|t: int|
                    tok < t < toks && target(meta, group, t) == Some((#[trigger] plan[i]).slot)
        }),
    decreases toks,
{
    if toks > 0 {
        let plan = token_plan(f, g, op, k, v, meta, group, cache, toks)->Ok_0;
        let init = token_plan(f, g, op, k, v, meta, group, cache, toks - 1)->Ok_0;
        lemma_plan(f, g, op, k, v, meta, group, cache, toks - 1, tok);
        if target(meta, group, toks - 1) is Some {
            lemma_heads(
                f,
                g,
                op.cache_dtype,
                k,
                v,
                toks - 1,
                init.len() as int,
                k.shape[1] as int,
                0,
            );
            assert(plan == init.push(plan.last()));
            assert(target(meta, group, toks - 1) == Some(plan.last().slot));
            assert forall|i: int| 0 <= i < plan.len() implies exists|t: int|
                0 <= t < toks && target(meta, group, t) == Some((#[trigger] plan[i]).slot) by {
                if i < init.len() {
                    let t = choose|t: int|
                        0 <= t < toks - 1 && target(meta, group, t) == Some(init[i].slot);
                    assert(0 <= t < toks && target(meta, group, t) == Some(plan[i].slot));
                }
            }
            if tok < toks {
                assert forall|i: int|
                    targets(meta, group, tok + 1) <= i < plan.len() implies exists|t: int|
                    tok < t < toks && target(meta, group, t) == Some((#[trigger] plan[i]).slot) by {
                    if tok == toks - 1 {
                        assert(targets(meta, group, tok + 1) == plan.len());
                    } else if i < init.len() {
                        lemma_targets_grow(meta, group, 0, tok + 1);
                        let t = choose|t: int|
                            tok < t < toks - 1 && target(meta, group, t) == Some(init[i].slot);
                        assert(tok < t < toks && target(meta, group, t) == Some(plan[i].slot));
                    }
                }
            }
        } else {
            assert(plan == init);
            assert forall|i: int| 0 <= i < plan.len() implies exists|t: int|
                0 <= t < toks && target(meta, group, t) == Some((#[trigger] plan[i]).slot) by {
                let t = choose|t: int|
                    0 <= t < toks - 1 && target(meta, group, t) == Some(init[i].slot);
                assert(0 <= t < toks && target(meta, group, t) == Some(plan[i].slot));
            }
            if tok < toks {
                assert forall|i: int|
                    targets(meta, group, tok + 1) <= i < plan.len() implies exists|t: int|
                    tok < t < toks && target(meta, group, t) == Some((#[trigger] plan[i]).slot) by {
                    if tok == toks - 1 {
                        assert(targets(meta, group, tok + 1) == plan.len());
                    } else {
                        lemma_targets_grow(meta, group, 0, tok + 1);
                        let t = choose|t: int|
                            tok < t < toks - 1 && target(meta, group, t) == Some(init[i].slot);
                        assert(tok < t < toks && target(meta, group, t) == Some(plan[i].slot));
                    }
                }
            }
        }
        if tok < toks {
            lemma_targets_grow(meta, group, 0, tok);
            lemma_targets_grow(meta, group, tok + 1, toks);
        }
    }
}

/// What the absence of problems says of the slots.
proof fn lemma_no_slot_faults(meta: BatchMeta, group: u32, slots: usize, toks: int, tok: int)
    requires
        plan_faults(meta, group, slots, toks).len() == 0,
        group < meta.num_groups,
        toks <= meta.total_tokens,
        0 <= tok < toks,
    ensures
        target(meta, group, tok) matches Some(s) ==> s < slots,
    decreases toks,
{
    assert(slot_faults(meta, group, slots, toks - 1).len() == 0);
    if tok < toks - 1 {
        lemma_no_slot_faults(meta, group, slots, toks - 1, tok);
    }
}

/// What a planned write says of the operands and of the slots.
proof fn lemma_planned<
    F: Fn(FloatOp, u32, u32) -> u32,
    G: Fn(FormatQuery) -> Result<u64, FormatError>,
>(
    f: F,
    g: G,
    op: StateWriteKvOp,
    k: Tensor,
    v: Tensor,
    meta: BatchMeta,
    group: u32,
    cache: PagedView,
)
    requires
        k.cells.len() <= usize::MAX,
        v.cells.len() <= usize::MAX,
        cache.written.len() <= usize::MAX,
        paged_plan(f, g, op, k, v, meta, group, cache) is Ok,
    ensures
        is_cache_dtype(op.cache_dtype),
        k.shape[0] == meta.total_tokens,
        k.shape[1] == cache.hkv,
        k.shape[2] == cache.d,
        v.shape[2] == cache.dv,
        forall|i: int|
            0 <= i < meta.total_tokens ==> (#[trigger] target(meta, group, i) matches Some(s) ==> s
                < cache.written.len()),
{
    let list = paged_write_faults(op, k, v, meta, group, cache);
    assert(list.len() == 0);
    assert(write_faults(op, k, v, meta, group).len() == 0);
    lemma_no_write_faults(op, k, v, meta, group);
    let slots = cache.written.len() as usize;
    assert(plan_faults(meta, group, slots, meta.total_tokens as int).len() == 0);
    assert forall|i: int| 0 <= i < meta.total_tokens implies (#[trigger] target(
        meta,
        group,
        i,
    ) matches Some(s) ==> s < cache.written.len()) by {
        lemma_no_slot_faults(meta, group, slots, meta.total_tokens as int, i);
    }
}

/// After a write, a slot gives back the rows of the last token that was written
/// to it: each number as its row's encoding stands for it, whatever the place
/// that an error would have quoted.
pub proof fn law_write_then_read<
    F: Fn(FloatOp, u32, u32) -> u32,
    G: Fn(FormatQuery) -> Result<u64, FormatError>,
>(
    f: F,
    g: G,
    op: StateWriteKvOp,
    k: Tensor,
    v: Tensor,
    meta: BatchMeta,
    group: u32,
    cache: PagedView,
    tok: int,
    head: int,
    dim: int,
    place: RowPlace,
)
    requires
        k.cells.len() <= usize::MAX,
        v.cells.len() <= usize::MAX,
        cache.written.len() <= usize::MAX,
        cache.wf(),
        paged_plan(f, g, op, k, v, meta, group, cache) is Ok,
        0 <= tok < meta.total_tokens,
        target(meta, group, tok) is Some,
        forall|t: int|
            tok < t < meta.total_tokens ==> #[trigger] target(meta, group, t) != target(
                meta,
                group,
                tok,
            ),
        0 <= head < cache.hkv,
        0 <= dim,
    ensures
        ({
            let after = cache.with_tokens(
                paged_plan(f, g, op, k, v, meta, group, cache)->Ok_0,
            );
            let slot = target(meta, group, tok)->0 as int;
            let row = tok * cache.hkv + head;
            let keys = row_at(k.cells, row * cache.d, cache.d as int);
            let values = row_at(v.cells, row * cache.dv, cache.dv as int);
            &&& after.written[slot]
            &&& encoded_row(f, g, cache.dtype, keys, place) is Ok
            &&& encoded_row(f, g, cache.dtype, values, place) is Ok
            &&& dim < cache.d ==> after.k_at(f, slot, head, dim) == row_value(
                f,
                encoded_row(f, g, cache.dtype, keys, place)->Ok_0,
                dim,
            )
            &&& dim < cache.dv ==> after.v_at(f, slot, head, dim) == row_value(
                f,
                encoded_row(f, g, cache.dtype, values, place)->Ok_0,
                dim,
            )
        }),
{
    lemma_planned(f, g, op, k, v, meta, group, cache);
    let toks = meta.total_tokens as int;
    lemma_plan(f, g, op, k, v, meta, group, cache, toks, tok);
    let plan = token_plan(f, g, op, k, v, meta, group, cache, toks)->Ok_0;
    let at = targets(meta, group, tok);
    assert forall|i: int| at < i < plan.len() implies (#[trigger] plan[i]).slot
        != plan[at].slot by {
        let t = choose|t: int|
            tok < t < toks && target(meta, group, t) == Some((#[trigger] plan[i]).slot);
        assert(target(meta, group, t) != target(meta, group, tok));
    }
    law_last_write_read(f, cache, plan, at, head, dim);
    lemma_heads(f, g, op.cache_dtype, k, v, tok, at, cache.hkv as int, head);
    let row = tok * cache.hkv + head;
    let keys = row_at(k.cells, row * cache.d, cache.d as int);
    let values = row_at(v.cells, row * cache.dv, cache.dv as int);
    if op.cache_dtype == DType::E4m3 {
        lemma_place(
            f,
            g,
            keys,
            row_scale(f, keys, E4M3_LIMIT),
            RowPlace { tensor: "k", tok: at as usize, head: head as usize },
            place,
        );
        lemma_place(
            f,
            g,
            values,
            row_scale(f, values, E4M3_LIMIT),
            RowPlace { tensor: "v", tok: at as usize, head: head as usize },
            place,
        );
    }
}

/// After a write, a slot that no token was written to is as it was.
pub proof fn law_write_elsewhere<
    F: Fn(FloatOp, u32, u32) -> u32,
    G: Fn(FormatQuery) -> Result<u64, FormatError>,
>(
    f: F,
    g: G,
    op: StateWriteKvOp,
    k: Tensor,
    v: Tensor,
    meta: BatchMeta,
    group: u32,
    cache: PagedView,
    slot: int,
    head: int,
    dim: int,
)
    requires
        k.cells.len() <= usize::MAX,
        v.cells.len() <= usize::MAX,
        cache.written.len() <= usize::MAX,
        cache.wf(),
        paged_plan(f, g, op, k, v, meta, group, cache) is Ok,
        0 <= slot < cache.written.len(),
        forall|t: int|
            0 <= t < meta.total_tokens ==> #[trigger] target(meta, group, t) != Some(slot as usize),
        0 <= head < cache.hkv,
        0 <= dim,
    ensures
        ({
            let after = cache.with_tokens(
                paged_plan(f, g, op, k, v, meta, group, cache)->Ok_0,
            );
            &&& after.written[slot] == cache.written[slot]
            &&& dim < cache.d ==> after.k_at(f, slot, head, dim) == cache.k_at(f, slot, head, dim)
            &&& dim < cache.dv ==> after.v_at(f, slot, head, dim) == cache.v_at(f, slot, head, dim)
        }),
{
    lemma_planned(f, g, op, k, v, meta, group, cache);
    let toks = meta.total_tokens as int;
    lemma_plan(f, g, op, k, v, meta, group, cache, toks, 0);
    let plan = token_plan(f, g, op, k, v, meta, group, cache, toks)->Ok_0;
    assert forall|i: int| 0 <= i < plan.len() implies (#[trigger] plan[i]).slot != slot by {
        let t = choose|t: int|
            0 <= t < toks && target(meta, group, t) == Some((#[trigger] plan[i]).slot);
        assert(target(meta, group, t) != Some(slot as usize));
    }
    law_other_slots_stay(f, cache, plan, slot, head, dim);
}

/// The elements that a latent cache gives are those of its value.
pub proof fn law_latent_reads_view<F: Fn(FloatOp, u32, u32) -> u32>(
    cache: KvLatentCache,
    f: F,
    slot: int,
    dim: int,
)
    requires
        cache.wf(),
    ensures
        cache@.wf(),
        cache.latent_value(f, slot, dim) == cache@.latent_at(f, slot, dim),
        cache.rope_value(slot, dim) == cache@.rope_at(slot, dim),
{
}

/// Storing a token in a latent cache: its slot holds its rows and counts as
/// written, and every other slot stays as it was.
pub proof fn law_latent_token_stored<F: Fn(FloatOp, u32, u32) -> u32>(
    f: F,
    cache: LatentView,
    t: LatentRowsView,
    slot: int,
    dim: int,
)
    requires
        cache.wf(),
        latent_fits(t, cache),
        0 <= slot < cache.written.len(),
        0 <= dim,
    ensures
        cache.with_token(t).wf(),
        dim < cache.latent ==> cache.with_token(t).latent_at(f, slot, dim) == if slot == t.slot {
            row_value(f, t.latent, dim)
        } else {
            cache.latent_at(f, slot, dim)
        },
        dim < cache.rope ==> cache.with_token(t).rope_at(slot, dim) == if slot == t.slot {
            f32_of_f16(t.rope[dim])
        } else {
            cache.rope_at(slot, dim)
        },
        cache.with_token(t).written[slot] == (slot == t.slot || cache.written[slot]),
{
    let slots = cache.written.len() as int;
    lemma_with_row_wf(
        cache.rows,
        t.slot * cache.latent,
        t.slot as int,
        t.latent,
        cache.dtype,
        slots * cache.latent,
        slots,
    );
    if dim < cache.latent {
        lemma_with_row_value(
            f,
            cache.rows,
            cache.dtype,
            slots,
            cache.latent as int,
            t.slot as int,
            t.latent,
            slot,
            dim,
        );
    }
    if dim < cache.rope {
        lemma_row_fits(slot, slots, cache.rope as int);
        lemma_row_fits(t.slot as int, slots, cache.rope as int);
        if slot != t.slot {
            lemma_rows_apart(slot, t.slot as int, dim, cache.rope as int);
        }
    }
}

/// Storing tokens keeps the form of a latent cache.
pub proof fn law_latent_tokens_wf(cache: LatentView, plan: Seq<LatentRowsView>)
    requires
        cache.wf(),
        forall|i: int| 0 <= i < plan.len() ==> latent_fits(#[trigger] plan[i], cache),
    ensures
        cache.with_tokens(plan).wf(),
        cache.with_tokens(plan).num_blocks == cache.num_blocks,
        cache.with_tokens(plan).latent == cache.latent,
        cache.with_tokens(plan).rope == cache.rope,
        cache.with_tokens(plan).dtype == cache.dtype,
        cache.with_tokens(plan).written.len() == cache.written.len(),
    decreases plan.len(),
{
    if plan.len() > 0 {
        let init = plan.drop_last();
        assert forall|i: int| 0 <= i < init.len() implies latent_fits(
            #[trigger] init[i],
            cache,
        ) by {
            assert(init[i] == plan[i]);
        }
        law_latent_tokens_wf(cache, init);
        let c = cache.with_tokens(init);
        let t = plan.last();
        assert(plan[plan.len() - 1] == t);
        lemma_with_row_wf(
            c.rows,
            t.slot * c.latent,
            t.slot as int,
            t.latent,
            c.dtype,
            c.written.len() * c.latent,
            c.written.len() as int,
        );
    }
}

/// A slot of a latent cache that no token is written to stays as it was.
pub proof fn law_other_latent_slots_stay<F: Fn(FloatOp, u32, u32) -> u32>(
    f: F,
    cache: LatentView,
    plan: Seq<LatentRowsView>,
    slot: int,
    dim: int,
)
    requires
        cache.wf(),
        forall|i: int| 0 <= i < plan.len() ==> latent_fits(#[trigger] plan[i], cache),
        forall|i: int| 0 <= i < plan.len() ==> (#[trigger] plan[i]).slot != slot,
        0 <= slot < cache.written.len(),
        0 <= dim,
    ensures
        dim < cache.latent ==> cache.with_tokens(plan).latent_at(f, slot, dim) == cache.latent_at(
            f,
            slot,
            dim,
        ),
        dim < cache.rope ==> cache.with_tokens(plan).rope_at(slot, dim) == cache.rope_at(slot, dim),
        cache.with_tokens(plan).written[slot] == cache.written[slot],
    decreases plan.len(),
{
    if plan.len() > 0 {
        let init = plan.drop_last();
        assert forall|i: int| 0 <= i < init.len() implies latent_fits(#[trigger] init[i], cache)
            && init[i].slot != slot by {
            assert(init[i] == plan[i]);
        }
        law_other_latent_slots_stay(f, cache, init, slot, dim);
        law_latent_tokens_wf(cache, init);
        assert(plan[plan.len() - 1] == plan.last());
        law_latent_token_stored(f, cache.with_tokens(init), plan.last(), slot, dim);
    }
}

/// A slot of a latent cache holds the rows of the last token that is written to
/// it, and counts as written.
pub proof fn law_last_latent_write_read<F: Fn(FloatOp, u32, u32) -> u32>(
    f: F,
    cache: LatentView,
    plan: Seq<LatentRowsView>,
    at: int,
    dim: int,
)
    requires
        cache.wf(),
        forall|i: int| 0 <= i < plan.len() ==> latent_fits(#[trigger] plan[i], cache),
        0 <= at < plan.len(),
        forall|i: int| at < i < plan.len() ==> (#[trigger] plan[i]).slot != plan[at].slot,
        0 <= dim,
    ensures
        ({
            let slot = plan[at].slot as int;
            let after = cache.with_tokens(plan);
            &&& dim < cache.latent ==> after.latent_at(f, slot, dim) == row_value(
                f,
                plan[at].latent,
                dim,
            )
            &&& dim < cache.rope ==> after.rope_at(slot, dim) == f32_of_f16(plan[at].rope[dim])
            &&& after.written[slot]
        }),
    decreases plan.len(),
{
    let init = plan.drop_last();
    let slot = plan[at].slot as int;
    assert(latent_fits(plan[at], cache));
    assert forall|i: int| 0 <= i < init.len() implies latent_fits(#[trigger] init[i], cache) by {
        assert(init[i] == plan[i]);
    }
    law_latent_tokens_wf(cache, init);
    assert(plan[plan.len() - 1] == plan.last());
    law_latent_token_stored(f, cache.with_tokens(init), plan.last(), slot, dim);
    if at < plan.len() - 1 {
        assert forall|i: int| at < i < init.len() implies (#[trigger] init[i]).slot
            != init[at].slot by {
            assert(init[i] == plan[i]);
        }
        assert(init[at] == plan[at]);
        law_last_latent_write_read(f, cache, init, at, dim);
    }
}

/// A plan holds one entry for each token that has a slot, in order, and each
/// entry fits into the latent cache.
proof fn lemma_latent_plan<
    F: Fn(FloatOp, u32, u32) -> u32,
    G: Fn(FormatQuery) -> Result<u64, FormatError>,
>(
    f: F,
    g: G,
    op: StateWriteKvOp,
    c_kv: Tensor,
    k_rope: Tensor,
    meta: BatchMeta,
    group: u32,
    cache: LatentView,
    toks: int,
    tok: int,
)
    requires
        is_cache_dtype(op.cache_dtype),
        op.latent->0.kv_lora_rank == cache.latent,
        op.latent->0.rope_dim == cache.rope,
        0 <= toks,
        0 <= tok,
        latent_token_plan(f, g, op, c_kv, k_rope, meta, group, cache, toks) is Ok,
        forall|i: int|
            0 <= i < toks ==> (#[trigger] target(meta, group, i) matches Some(s) ==> s
                < cache.written.len()),
    ensures
        ({
            let plan = latent_token_plan(
                f,
                g,
                op,
                c_kv,
                k_rope,
                meta,
                group,
                cache,
                toks,
            )->Ok_0;
            let at = targets(meta, group, tok);
            &&& plan.len() == targets(meta, group, toks)
            &&& forall|i: int| 0 <= i < plan.len() ==> latent_fits(#[trigger] plan[i], cache)
            &&& forall|i: int|
                0 <= i < plan.len() ==> exists|t: int|
                    0 <= t < toks && target(meta, group, t) == Some(
                        (#[trigger] plan[i]).slot,
                    )
            &&& tok < toks && target(meta, group, tok) is Some ==> {
                &&& op.cache_dtype == cache.dtype
                &&& 0 <= at < plan.len()
                &&& plan[at].slot == target(meta, group, tok)->0
                &&& encoded_row(
                    f,
                    g,
                    op.cache_dtype,
                    latent_values(op, c_kv, tok),
                    (RowPlace { tensor: "c_kv", tok: at as usize, head: 0 }),
                ) == Ok::<RowView, ErrorView>(plan[at].latent)
                &&& plan[at].rope == half_codes(rope_values(op, c_kv, k_rope, tok))
            }
            &&& tok < toks ==> forall|i: int|
                targets(meta, group, tok + 1) <= i < plan.len() ==> exists|t: int|
                    tok < t < toks && target(meta, group, t) == Some((#[trigger] plan[i]).slot)
        }),
    decreases toks,
{
    if toks > 0 {
        let plan = latent_token_plan(f, g, op, c_kv, k_rope, meta, group, cache, toks)->Ok_0;
        let init = latent_token_plan(f, g, op, c_kv, k_rope, meta, group, cache, toks - 1)->Ok_0;
        lemma_latent_plan(f, g, op, c_kv, k_rope, meta, group, cache, toks - 1, tok);
        if target(meta, group, toks - 1) is Some {
            lemma_encoded_len(
                f,
                g,
                op.cache_dtype,
                latent_values(op, c_kv, toks - 1),
                RowPlace { tensor: "c_kv", tok: init.len() as usize, head: 0 },
            );
            assert(plan == init.push(plan.last()));
            assert(target(meta, group, toks - 1) == Some(plan.last().slot));
        } else {
            assert(plan == init);
        }
        assert forall|i: int| 0 <= i < plan.len() implies exists|t: int|
            0 <= t < toks && target(meta, group, t) == Some((#[trigger] plan[i]).slot) by {
            if i < init.len() {
                let t = choose|t: int|
                    0 <= t < toks - 1 && target(meta, group, t) == Some(init[i].slot);
                assert(0 <= t < toks && target(meta, group, t) == Some(plan[i].slot));
            }
        }
        if tok < toks {
            assert forall|i: int|
                targets(meta, group, tok + 1) <= i < plan.len() implies exists|t: int|
                tok < t < toks && target(meta, group, t) == Some((#[trigger] plan[i]).slot) by {
                if tok == toks - 1 {
                    assert(targets(meta, group, tok + 1) == plan.len());
                } else if i < init.len() {
                    lemma_targets_grow(meta, group, 0, tok + 1);
                    let t = choose|t: int|
                        tok < t < toks - 1 && target(meta, group, t) == Some(init[i].slot);
                    assert(tok < t < toks && target(meta, group, t) == Some(plan[i].slot));
                }
            }
            lemma_targets_grow(meta, group, 0, tok);
            lemma_targets_grow(meta, group, tok + 1, toks);
        }
    }
}

/// What a planned write into a latent cache says of the operands and of the
/// slots.
proof fn lemma_latent_planned<
    F: Fn(FloatOp, u32, u32) -> u32,
    G: Fn(FormatQuery) -> Result<u64, FormatError>,
>(
    f: F,
    g: G,
    op: StateWriteKvOp,
    c_kv: Tensor,
    k_rope: Tensor,
    meta: BatchMeta,
    group: u32,
    cache: LatentView,
)
    requires
        c_kv.cells.len() <= usize::MAX,
        k_rope.cells.len() <= usize::MAX,
        cache.written.len() <= usize::MAX,
        latent_plan(f, g, op, c_kv, k_rope, meta, group, cache) is Ok,
    ensures
        is_cache_dtype(op.cache_dtype),
        op.latent->0.kv_lora_rank == cache.latent,
        op.latent->0.rope_dim == cache.rope,
        forall|i: int|
            0 <= i < meta.total_tokens ==> (#[trigger] target(meta, group, i) matches Some(s) ==> s
                < cache.written.len()),
{
    let list = latent_write_faults(op, c_kv, k_rope, meta, group, cache);
    let common = write_faults(op, c_kv, k_rope, meta, group);
    assert(list.len() == 0);
    assert(op.latent is Some);
    lemma_latent_form_grows(common, op, c_kv, k_rope, cache);
    assert(latent_form_faults(common, op, c_kv, k_rope, cache).len() == 0);
    lemma_no_write_faults(op, c_kv, k_rope, meta, group);
    lemma_no_latent_form_faults(common, op, c_kv, k_rope, cache);
    let slots = cache.written.len() as usize;
    assert(plan_faults(meta, group, slots, meta.total_tokens as int).len() == 0);
    assert forall|i: int| 0 <= i < meta.total_tokens implies (#[trigger] target(
        meta,
        group,
        i,
    ) matches Some(s) ==> s < cache.written.len()) by {
        lemma_no_slot_faults(meta, group, slots, meta.total_tokens as int, i);
    }
}

/// After a write, a slot of a latent cache gives back the rows of the last token
/// that was written to it: the latent row as its encoding stands for it, the
/// rotary row in half precision.
pub proof fn law_latent_write_then_read<
    F: Fn(FloatOp, u32, u32) -> u32,
    G: Fn(FormatQuery) -> Result<u64, FormatError>,
>(
    f: F,
    g: G,
    op: StateWriteKvOp,
    c_kv: Tensor,
    k_rope: Tensor,
    meta: BatchMeta,
    group: u32,
    cache: LatentView,
    tok: int,
    dim: int,
    place: RowPlace,
)
    requires
        c_kv.cells.len() <= usize::MAX,
        k_rope.cells.len() <= usize::MAX,
        cache.written.len() <= usize::MAX,
        cache.wf(),
        latent_plan(f, g, op, c_kv, k_rope, meta, group, cache) is Ok,
        0 <= tok < meta.total_tokens,
        target(meta, group, tok) is Some,
        forall|t: int|
            tok < t < meta.total_tokens ==> #[trigger] target(meta, group, t) != target(
                meta,
                group,
                tok,
            ),
        0 <= dim,
    ensures
        ({
            let after = cache.with_tokens(
                latent_plan(f, g, op, c_kv, k_rope, meta, group, cache)->Ok_0,
            );
            let slot = target(meta, group, tok)->0 as int;
            &&& after.written[slot]
            &&& encoded_row(f, g, cache.dtype, latent_values(op, c_kv, tok), place) is Ok
            &&& dim < cache.latent ==> after.latent_at(f, slot, dim) == row_value(
                f,
                encoded_row(f, g, cache.dtype, latent_values(op, c_kv, tok), place)->Ok_0,
                dim,
            )
            &&& dim < cache.rope ==> after.rope_at(slot, dim) == f32_of_f16(
                f16_of(rope_values(op, c_kv, k_rope, tok)[dim]),
            )
        }),
{
    lemma_latent_planned(f, g, op, c_kv, k_rope, meta, group, cache);
    let toks = meta.total_tokens as int;
    lemma_latent_plan(f, g, op, c_kv, k_rope, meta, group, cache, toks, tok);
    let plan = latent_token_plan(f, g, op, c_kv, k_rope, meta, group, cache, toks)->Ok_0;
    let at = targets(meta, group, tok);
    assert forall|i: int| at < i < plan.len() implies (#[trigger] plan[i]).slot
        != plan[at].slot by {
        let t = choose|t: int|
            tok < t < toks && target(meta, group, t) == Some((#[trigger] plan[i]).slot);
        assert(target(meta, group, t) != target(meta, group, tok));
    }
    law_last_latent_write_read(f, cache, plan, at, dim);
    let values = latent_values(op, c_kv, tok);
    if op.cache_dtype == DType::E4m3 {
        lemma_place(
            f,
            g,
            values,
            row_scale(f, values, E4M3_LIMIT),
            RowPlace { tensor: "c_kv", tok: at as usize, head: 0 },
            place,
        );
    }
}

/// After a write, a slot of a latent cache that no token was written to is as it
/// was.
pub proof fn law_latent_write_elsewhere<
    F: Fn(FloatOp, u32, u32) -> u32,
    G: Fn(FormatQuery) -> Result<u64, FormatError>,
>(
    f: F,
    g: G,
    op: StateWriteKvOp,
    c_kv: Tensor,
    k_rope: Tensor,
    meta: BatchMeta,
    group: u32,
    cache: LatentView,
    slot: int,
    dim: int,
)
    requires
        c_kv.cells.len() <= usize::MAX,
        k_rope.cells.len() <= usize::MAX,
        cache.written.len() <= usize::MAX,
        cache.wf(),
        latent_plan(f, g, op, c_kv, k_rope, meta, group, cache) is Ok,
        0 <= slot < cache.written.len(),
        forall|t: int|
            0 <= t < meta.total_tokens ==> #[trigger] target(meta, group, t) != Some(slot as usize),
        0 <= dim,
    ensures
        ({
            let after = cache.with_tokens(
                latent_plan(f, g, op, c_kv, k_rope, meta, group, cache)->Ok_0,
            );
            &&& after.written[slot] == cache.written[slot]
            &&& dim < cache.latent ==> after.latent_at(f, slot, dim) == cache.latent_at(
                f,
                slot,
                dim,
            )
            &&& dim < cache.rope ==> after.rope_at(slot, dim) == cache.rope_at(slot, dim)
        }),
{
    lemma_latent_planned(f, g, op, c_kv, k_rope, meta, group, cache);
    let toks = meta.total_tokens as int;
    lemma_latent_plan(f, g, op, c_kv, k_rope, meta, group, cache, toks, 0);
    let plan = latent_token_plan(f, g, op, c_kv, k_rope, meta, group, cache, toks)->Ok_0;
    assert forall|i: int| 0 <= i < plan.len() implies (#[trigger] plan[i]).slot != slot by {
        let t = choose|t: int|
            0 <= t < toks && target(meta, group, t) == Some((#[trigger] plan[i]).slot);
        assert(target(meta, group, t) != Some(slot as usize));
    }
    law_other_latent_slots_stay(f, cache, plan, slot, dim);
}

} // verus!
