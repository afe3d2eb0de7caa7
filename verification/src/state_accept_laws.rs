//! Which operands attention and the writes of its caches accept.
use vstd::prelude::*;
use crate::accept_laws::{
    attends, has_room, is_floating, is_number, is_real, lemma_attends, lemma_number, lemma_room,
    stores_rows,
};
use crate::attention::{mla_faults, AttentionOp};
use crate::batch::{BatchMeta, SLOT_NONE};
use crate::buffer::{extent, Tensor};
use crate::ir::{DType, StateKind};
use crate::kv_latent::{
    latent_form_faults, latent_row_faults, latent_token_faults, latent_write_faults, LatentView,
};
use crate::kv_rows::row_at;
use crate::kv_write::{
    head_faults, non_finite, paged_write_faults, plan_faults, token_faults, write_faults,
    write_form_faults, PagedView, StateWriteKvOp,
};

verus! {

/// Attention over a latent cache takes queries as wide as a latent and a rotary
/// row together and gives values as wide as a latent row, which are the widths of
/// the cache.
pub proof fn law_latent_attention_accepts(
    op: AttentionOp,
    q: Tensor,
    o: Tensor,
    meta: BatchMeta,
    group: u32,
    latent: usize,
    rope: usize,
)
    requires
        is_real(q),
        is_real(o),
    ensures
        mla_faults(op, q, o, meta, group, latent, rope).len() == 0 <==> {
            &&& attends(op, q, o, meta, group)
            &&& op.handle.kind == StateKind::KvLatent
            &&& op.mla is Some
            &&& q.shape[2] == latent + rope
            &&& o.shape[2] == latent
            &&& (op.mla->0).kv_lora_rank == latent
            &&& (op.mla->0).qk_nope_dim == latent
            &&& (op.mla->0).v_dim == latent
            &&& (op.mla->0).qk_rope_dim == rope
        },
{
    lemma_attends(op, q, o, meta, group);
}

/// Whether what writes into either kind of cache have in common is accepted.
pub open spec fn can_write(
    op: StateWriteKvOp,
    k: Tensor,
    v: Tensor,
    meta: BatchMeta,
    group: u32,
) -> bool {
    &&& has_room(k) && has_room(v)
    &&& stores_rows(k.layout) && stores_rows(v.layout)
    &&& is_floating(k.cells.dtype()) && is_floating(v.cells.dtype())
    &&& op.cache_dtype == DType::F16 || op.cache_dtype == DType::I8 || op.cache_dtype == DType::E4m3
    &&& op.scale_granularity is PerTokenHead
    &&& group < meta.num_groups
    &&& k.shape.len() == 3 && v.shape.len() == 3
    &&& k.shape[0] == meta.total_tokens && v.shape[0] == meta.total_tokens
    &&& v.shape[1] == k.shape[1]
}

proof fn lemma_can_write(op: StateWriteKvOp, k: Tensor, v: Tensor, meta: BatchMeta, group: u32)
    requires
        is_real(k),
        is_real(v),
    ensures
        write_faults(op, k, v, meta, group).len() == 0 <==> can_write(op, k, v, meta, group),
{
    reveal(write_faults);
    lemma_room(k, "k");
    lemma_room(v, "v");
    lemma_write_form(op, k, v, meta, group);
}

proof fn lemma_write_form(op: StateWriteKvOp, k: Tensor, v: Tensor, meta: BatchMeta, group: u32)
    requires
        is_real(k),
        is_real(v),
    ensures
        write_form_faults(op, k, v, meta, group).len() == 0 <==> {
            &&& has_room(k) && has_room(v)
            &&& stores_rows(k.layout) && stores_rows(v.layout)
            &&& is_floating(k.cells.dtype()) && is_floating(v.cells.dtype())
            &&& op.cache_dtype == DType::F16 || op.cache_dtype == DType::I8 || op.cache_dtype
                == DType::E4m3
            &&& op.scale_granularity is PerTokenHead
            &&& group < meta.num_groups
            &&& k.shape.len() == 3 && v.shape.len() == 3
        },
{
    lemma_room(k, "k");
    lemma_room(v, "v");
}

/// Slots that are accepted lie in the cache.
proof fn lemma_slots(meta: BatchMeta, group: u32, slots: usize, toks: int, tok: int)
    requires
        plan_faults(meta, group, slots, toks).len() == 0,
        0 <= tok < toks,
    ensures
        meta.slot_of(group as int, tok) == SLOT_NONE || meta.slot_of(group as int, tok) < slots,
    decreases toks,
{
    if tok < toks - 1 {
        lemma_slots(meta, group, slots, toks - 1, tok);
    }
}

/// A row without infinities and NaN holds numbers.
proof fn lemma_numbers(values: Seq<u32>)
    ensures
        non_finite(values) >= 0,
        non_finite(values) == 0 ==> forall|i: int|
            0 <= i < values.len() ==> is_number(#[trigger] values[i]),
    decreases values.len(),
{
    if values.len() > 0 {
        lemma_numbers(values.drop_last());
        lemma_number(values.last());
        assert forall|i: int|
            0 <= i < values.len() && non_finite(values) == 0 implies is_number(
            #[trigger] values[i],
        ) by {
            if i < values.len() - 1 {
                assert(values.drop_last()[i] == values[i]);
            }
        }
    }
}

proof fn lemma_heads(k: Tensor, v: Tensor, dtype: DType, tok: int, heads: int, head: int)
    requires
        head_faults(k, v, dtype, tok, heads).len() == 0,
        0 <= head < heads,
    ensures
        ({
            let row = tok * k.shape[1] + head;
            let kd = k.shape[2] as int;
            let vd = v.shape[2] as int;
            &&& forall|i: int|
                0 <= i < kd ==> is_number(#[trigger] row_at(k.cells, row * kd, kd)[i])
            &&& forall|i: int|
                0 <= i < vd ==> is_number(#[trigger] row_at(v.cells, row * vd, vd)[i])
        }),
    decreases heads,
{
    if head < heads - 1 {
        lemma_heads(k, v, dtype, tok, heads - 1, head);
    } else {
        let row = tok * k.shape[1] + head;
        let kd = k.shape[2] as int;
        let vd = v.shape[2] as int;
        lemma_numbers(row_at(k.cells, row * kd, kd));
        lemma_numbers(row_at(v.cells, row * vd, vd));
    }
}

proof fn lemma_tokens(k: Tensor, v: Tensor, dtype: DType, toks: int, tok: int, head: int)
    requires
        token_faults(k, v, dtype, toks).len() == 0,
        0 <= tok < toks,
        0 <= head < k.shape[1],
    ensures
        ({
            let row = tok * k.shape[1] + head;
            let kd = k.shape[2] as int;
            let vd = v.shape[2] as int;
            &&& forall|i: int|
                0 <= i < kd ==> is_number(#[trigger] row_at(k.cells, row * kd, kd)[i])
            &&& forall|i: int|
                0 <= i < vd ==> is_number(#[trigger] row_at(v.cells, row * vd, vd)[i])
        }),
    decreases toks,
{
    if tok < toks - 1 {
        lemma_tokens(k, v, dtype, toks - 1, tok, head);
    } else {
        lemma_heads(k, v, dtype, tok, k.shape[1] as int, head);
    }
}

/// A write into a paged cache that is done has a row of keys and a row of values
/// for each token and head, as wide as those of the cache, and a slot of the cache
/// or none for each token. A cache with scales is given numbers alone.
pub proof fn law_paged_write_accepts(
    op: StateWriteKvOp,
    k: Tensor,
    v: Tensor,
    meta: BatchMeta,
    group: u32,
    cache: PagedView,
    tok: int,
    head: int,
    i: int,
)
    requires
        is_real(k),
        is_real(v),
        cache.written.len() <= usize::MAX,
        paged_write_faults(op, k, v, meta, group, cache).len() == 0,
        0 <= tok < k.shape[0],
        0 <= head < k.shape[1],
    ensures
        can_write(op, k, v, meta, group),
        op.latent is None,
        k.shape == seq![meta.total_tokens, cache.hkv, cache.d],
        v.shape == seq![meta.total_tokens, cache.hkv, cache.dv],
        meta.slot_of(group as int, tok) == SLOT_NONE || meta.slot_of(group as int, tok)
            < cache.written.len(),
        op.cache_dtype != DType::F16 && cache.d + cache.dv <= usize::MAX ==> {
            &&& 0 <= i < cache.d ==> is_number(
                k.cells.f32_at((tok * cache.hkv + head) * cache.d + i),
            )
            &&& 0 <= i < cache.dv ==> is_number(
                v.cells.f32_at((tok * cache.hkv + head) * cache.dv + i),
            )
        },
{
    lemma_can_write(op, k, v, meta, group);
    let form = write_faults(op, k, v, meta, group);
    assert(form.len() == 0);
    assert(k.shape =~= seq![meta.total_tokens, cache.hkv, cache.d]);
    assert(v.shape =~= seq![meta.total_tokens, cache.hkv, cache.dv]);
    lemma_slots(meta, group, cache.written.len() as usize, meta.total_tokens as int, tok);
    crate::buffer::lemma_extent3(k.shape);
    crate::buffer::lemma_extent3(v.shape);
    if op.cache_dtype != DType::F16 && cache.d + cache.dv <= usize::MAX {
        let n = k.shape[0] * k.shape[1] * v.shape[2];
        assert(extent(v.shape) == Some(n as usize) && n <= usize::MAX);
        assert(k.backed());
        assert(crate::kv_write::scan_readable(op, k, v));
        lemma_tokens(k, v, op.cache_dtype, k.shape[0] as int, tok, head);
        let row = tok * k.shape[1] + head;
        if 0 <= i < cache.d {
            let kd = k.shape[2] as int;
            assert(row_at(k.cells, row * kd, kd)[i] == k.cells.f32_at(row * kd + i));
        }
        if 0 <= i < cache.dv {
            let vd = v.shape[2] as int;
            assert(row_at(v.cells, row * vd, vd)[i] == v.cells.f32_at(row * vd + i));
        }
    }
}

proof fn lemma_latent_row(c_kv: Tensor, dtype: DType, toks: int, tok: int)
    requires
        latent_token_faults(c_kv, dtype, toks).len() == 0,
        0 <= tok < toks,
        c_kv.shape[1] == 1,
    ensures
        ({
            let d = c_kv.shape[2] as int;
            forall|i: int|
                0 <= i < d ==> is_number(#[trigger] row_at(c_kv.cells, tok * d, d)[i])
        }),
    decreases toks,
{
    if tok < toks - 1 {
        lemma_latent_row(c_kv, dtype, toks - 1, tok);
    } else {
        let d = c_kv.shape[2] as int;
        assert(latent_row_faults(c_kv, dtype, tok, 1).len() == 0);
        assert(tok * c_kv.shape[1] + 1 - 1 == tok);
        lemma_numbers(row_at(c_kv.cells, tok * d, d));
    }
}

/// A write into a latent cache that is done has one head, rows as wide as those of
/// the cache, either apart or one behind the other, and a slot of the cache or none
/// for each token. A cache with scales is given numbers alone.
pub proof fn law_latent_write_accepts(
    op: StateWriteKvOp,
    c_kv: Tensor,
    k_rope: Tensor,
    meta: BatchMeta,
    group: u32,
    cache: LatentView,
    tok: int,
    i: int,
)
    requires
        is_real(c_kv),
        is_real(k_rope),
        cache.written.len() <= usize::MAX,
        latent_write_faults(op, c_kv, k_rope, meta, group, cache).len() == 0,
        0 <= tok < c_kv.shape[0],
    ensures
        can_write(op, c_kv, k_rope, meta, group),
        op.latent is Some,
        (op.latent->0).kv_lora_rank == cache.latent,
        (op.latent->0).rope_dim == cache.rope,
        cache.latent > 0 && cache.rope > 0,
        c_kv.shape[1] == 1 && k_rope.shape[1] == 1,
        c_kv.shape[2] == cache.latent + cache.rope || (c_kv.shape[2] == cache.latent
            && k_rope.shape[2] == cache.rope),
        meta.slot_of(group as int, tok) == SLOT_NONE || meta.slot_of(group as int, tok)
            < cache.written.len(),
        op.cache_dtype != DType::F16 && 0 <= i < c_kv.shape[2] ==> is_number(
            c_kv.cells.f32_at(tok * c_kv.shape[2] + i),
        ),
{
    lemma_can_write(op, c_kv, k_rope, meta, group);
    reveal(latent_form_faults);
    let common = write_faults(op, c_kv, k_rope, meta, group);
    assert(common.len() == 0);
    lemma_slots(meta, group, cache.written.len() as usize, meta.total_tokens as int, tok);
    if op.cache_dtype != DType::F16 && 0 <= i < c_kv.shape[2] {
        assert(c_kv.backed());
        lemma_latent_row(c_kv, op.cache_dtype, c_kv.shape[0] as int, tok);
        let d = c_kv.shape[2] as int;
        assert(row_at(c_kv.cells, tok * d, d)[i] == c_kv.cells.f32_at(tok * d + i));
    }
}

} // verus!
