//! What attention computes: a softmax over scaled products.
use vstd::prelude::*;
use crate::arith::{fp, FloatOp};
use crate::attention::{
    attended, attention_faults, attention_output, attention_values, cached_head, dot, key_at,
    key_width, lemma_no_attention_faults, lemma_problems_grow, mla_faults, mla_plan,
    paged_attention_faults, paged_attention_plan, score, sight_of, slot_plan, softmax, value_at,
    value_row, value_width, AttentionOp, Softmax,
};
use crate::batch::BatchMeta;
use crate::buffer::{lemma_backed_holds, lemma_extent3, Tensor};
use crate::call_laws::fits_memory;
use crate::error::ErrorView;
use crate::index::{lemma_flat_bound, lemma_split};
use crate::ir::DType;
use crate::kv_latent::{CacheView, LatentView};
use crate::kv_rows::row_at;
use crate::kv_write::PagedView;
use crate::storage_laws::{law_write_all_read, stored};
use crate::sums::{
    distributes, in_order, lemma_in_order_last, lemma_in_order_none, lemma_sum_scaled,
};
use crate::visibility::query_plan;

verus! {

/// Whether each score is the product of the query with a key, added up in
/// ascending order, times the scale, and then under the soft cap if there is one.
pub open spec fn are_scores<F: Fn(FloatOp, u32, u32) -> u32>(
    f: F,
    op: AttentionOp,
    query: Seq<u32>,
    keys: Seq<Seq<u32>>,
    scores: Seq<u32>,
) -> bool {
    &&& scores.len() == keys.len()
    &&& forall|i: int|
        0 <= i < keys.len() ==> #[trigger] scores[i] == {
            let products = Seq::new(
                query.len(),
                |d: int| fp(f, FloatOp::Times, query[d], keys[i][d]),
            );
            let s = fp(
                f,
                FloatOp::Times,
                in_order(f, FloatOp::Plus, 0, products),
                op.softmax_scale,
            );
            match op.logit_softcap {
                None => s,
                Some(cap) => fp(
                    f,
                    FloatOp::Times,
                    cap,
                    fp(f, FloatOp::Tanh, fp(f, FloatOp::Over, s, cap), 0),
                ),
            }
        }
}

/// Weight of a score against the largest one.
pub open spec fn weight_of<F: Fn(FloatOp, u32, u32) -> u32>(f: F, s: u32, top: u32) -> u32 {
    fp(f, FloatOp::Exp, fp(f, FloatOp::Minus, s, top), 0)
}

/// Whether the exponential of a difference can be taken in two steps, and the
/// factors of a product in either order.
pub open spec fn exact_weights<F: Fn(FloatOp, u32, u32) -> u32>(f: F) -> bool {
    &&& distributes(f)
    &&& forall|s: u32, m: u32, n: u32|
        #![trigger fp(f, FloatOp::Times, weight_of(f, s, m), weight_of(f, m, n))]
        fp(f, FloatOp::Times, weight_of(f, s, m), weight_of(f, m, n)) == weight_of(f, s, n)
    &&& forall|w: u32, v: u32, a: u32|
        #![trigger fp(f, FloatOp::Times, fp(f, FloatOp::Times, w, v), a)]
        fp(f, FloatOp::Times, fp(f, FloatOp::Times, w, v), a) == fp(
            f,
            FloatOp::Times,
            fp(f, FloatOp::Times, w, a),
            v,
        )
}

/// Mean of values under the weights of their scores.
pub open spec fn weighted_mean<F: Fn(FloatOp, u32, u32) -> u32>(
    f: F,
    scores: Seq<u32>,
    values: Seq<u32>,
) -> u32 {
    let top = in_order(f, FloatOp::Max, 0xFF80_0000, scores);
    let weights = Seq::new(scores.len(), |i: int| weight_of(f, scores[i], top));
    let parts = Seq::new(scores.len(), |i: int| fp(f, FloatOp::Times, weights[i], values[i]));
    fp(
        f,
        FloatOp::Over,
        in_order(f, FloatOp::Plus, 0, parts),
        in_order(f, FloatOp::Plus, 0, weights),
    )
}

proof fn lemma_dot<F: Fn(FloatOp, u32, u32) -> u32>(
    f: F,
    cache: CacheView,
    head: int,
    slot: int,
    row: Seq<u32>,
    key: Seq<u32>,
    n: int,
)
    requires
        0 <= n <= row.len(),
        key.len() == row.len(),
        forall|d: int| 0 <= d < key.len() ==> #[trigger] key[d] == key_at(f, cache, head, slot, d),
    ensures
        dot(f, cache, head, slot, row, n) == in_order(
            f,
            FloatOp::Plus,
            0,
            Seq::new(n as nat, |d: int| fp(f, FloatOp::Times, row[d], key[d])),
        ),
    decreases n,
{
    let products = Seq::new(n as nat, |d: int| fp(f, FloatOp::Times, row[d], key[d]));
    if n > 0 {
        lemma_dot(f, cache, head, slot, row, key, n - 1);
        lemma_in_order_last(f, FloatOp::Plus, 0, products);
        assert(products.drop_last() =~= Seq::new(
            (n - 1) as nat,
            |d: int| fp(f, FloatOp::Times, row[d], key[d]),
        ));
        assert(key[n - 1] == key_at(f, cache, head, slot, n - 1));
    } else {
        lemma_in_order_none(f, FloatOp::Plus, 0, products);
    }
}

/// Whether keys are those that a head reads from slots.
spec fn keys_read<F: Fn(FloatOp, u32, u32) -> u32>(
    f: F,
    cache: CacheView,
    head: int,
    slots: Seq<usize>,
    width: int,
    keys: Seq<Seq<u32>>,
) -> bool {
    &&& keys.len() == slots.len()
    &&& forall|i: int, d: int|
        #![trigger keys[i][d]]
        0 <= i < slots.len() && 0 <= d < width ==> keys[i][d] == key_at(
            f,
            cache,
            head,
            slots[i] as int,
            d,
        )
    &&& forall|i: int| 0 <= i < slots.len() ==> (#[trigger] keys[i]).len() == width
}

proof fn lemma_scores<F: Fn(FloatOp, u32, u32) -> u32>(
    f: F,
    op: AttentionOp,
    cache: CacheView,
    head: int,
    row: Seq<u32>,
    slots: Seq<usize>,
    keys: Seq<Seq<u32>>,
    scores: Seq<u32>,
    i: int,
)
    requires
        keys_read(f, cache, head, slots, row.len() as int, keys),
        are_scores(f, op, row, keys, scores),
        0 <= i < slots.len(),
    ensures
        scores[i] == score(f, op, cache, head, slots[i] as int, row),
{
    lemma_dot(f, cache, head, slots[i] as int, row, keys[i], row.len() as int);
}

/// The softmax over no position, one and two, written out.
proof fn lemma_softmax_first<F: Fn(FloatOp, u32, u32) -> u32>(
    f: F,
    op: AttentionOp,
    cache: CacheView,
    head: int,
    row: Seq<u32>,
    slots: Seq<usize>,
)
    requires
        1 <= slots.len() <= 2,
    ensures
        ({
            let s = |i: int| score(f, op, cache, head, slots[i] as int, row);
            let v = |i: int| value_row(f, cache, head, slots[i] as int);
            let one = Softmax::start(value_width(cache)).next(f, s(0), v(0));
            softmax(f, op, cache, head, row, slots) == if slots.len() == 1 {
                one
            } else {
                one.next(f, s(1), v(1))
            }
        }),
{
    reveal_with_fuel(softmax, 3);
    if slots.len() == 2 {
        assert(slots.drop_last().drop_last().len() == 0);
        assert(slots.drop_last().last() == slots[0]);
    }
}

/// Under an arithmetic without rounding the running softmax holds the largest
/// score, the sum of the weights against it and the weighted sums of the values.
proof fn lemma_softmax_closed<F: Fn(FloatOp, u32, u32) -> u32>(
    f: F,
    op: AttentionOp,
    cache: CacheView,
    head: int,
    row: Seq<u32>,
    slots: Seq<usize>,
    scores: Seq<u32>,
    j: int,
)
    requires
        exact_weights(f),
        scores.len() == slots.len(),
        forall|i: int|
            0 <= i < slots.len() ==> #[trigger] scores[i] == score(
                f,
                op,
                cache,
                head,
                slots[i] as int,
                row,
            ),
        0 <= j < value_width(cache),
    ensures
        ({
            let state = softmax(f, op, cache, head, row, slots);
            let top = in_order(f, FloatOp::Max, 0xFF80_0000, scores);
            &&& state.acc.len() == value_width(cache)
            &&& state.m == top
            &&& state.l == in_order(
                f,
                FloatOp::Plus,
                0,
                Seq::new(scores.len(), |i: int| weight_of(f, scores[i], top)),
            )
            &&& state.acc[j] == in_order(
                f,
                FloatOp::Plus,
                0,
                Seq::new(
                    scores.len(),
                    |i: int|
                        fp(
                            f,
                            FloatOp::Times,
                            weight_of(f, scores[i], top),
                            value_at(f, cache, head, slots[i] as int, j),
                        ),
                ),
            )
        }),
    decreases slots.len(),
{
    let n = slots.len() as int;
    let top = in_order(f, FloatOp::Max, 0xFF80_0000, scores);
    let weights = Seq::new(scores.len(), |i: int| weight_of(f, scores[i], top));
    let parts = Seq::new(
        scores.len(),
        |i: int|
            fp(
                f,
                FloatOp::Times,
                weight_of(f, scores[i], top),
                value_at(f, cache, head, slots[i] as int, j),
            ),
    );
    if n == 0 {
        lemma_in_order_none(f, FloatOp::Max, 0xFF80_0000, scores);
        lemma_in_order_none(f, FloatOp::Plus, 0, weights);
        lemma_in_order_none(f, FloatOp::Plus, 0, parts);
    } else {
        let fewer = scores.drop_last();
        let some = slots.drop_last();
        assert forall|i: int| 0 <= i < some.len() implies #[trigger] fewer[i] == score(
            f,
            op,
            cache,
            head,
            some[i] as int,
            row,
        ) by {
            assert(fewer[i] == scores[i]);
        }
        lemma_softmax_closed(f, op, cache, head, row, some, fewer, j);
        let before = softmax(f, op, cache, head, row, some);
        let was = in_order(f, FloatOp::Max, 0xFF80_0000, fewer);
        lemma_in_order_last(f, FloatOp::Max, 0xFF80_0000, scores);
        let old_weights = Seq::new(fewer.len(), |i: int| weight_of(f, fewer[i], was));
        let old_parts = Seq::new(
            fewer.len(),
            |i: int|
                fp(
                    f,
                    FloatOp::Times,
                    weight_of(f, fewer[i], was),
                    value_at(f, cache, head, some[i] as int, j),
                ),
        );
        let a = weight_of(f, was, top);
        assert forall|i: int| 0 <= i < fewer.len() implies #[trigger] weights.drop_last()[i]
            == fp(f, FloatOp::Times, old_weights[i], a) by {
            assert(fp(f, FloatOp::Times, weight_of(f, fewer[i], was), weight_of(f, was, top))
                == weight_of(f, fewer[i], top));
        }
        lemma_sum_scaled(f, old_weights, a, weights.drop_last());
        lemma_in_order_last(f, FloatOp::Plus, 0, weights);
        assert forall|i: int| 0 <= i < fewer.len() implies #[trigger] parts.drop_last()[i] == fp(
            f,
            FloatOp::Times,
            old_parts[i],
            a,
        ) by {
            let w = weight_of(f, fewer[i], was);
            let v = value_at(f, cache, head, some[i] as int, j);
            assert(fp(f, FloatOp::Times, fp(f, FloatOp::Times, w, v), a) == fp(
                f,
                FloatOp::Times,
                fp(f, FloatOp::Times, w, a),
                v,
            ));
            assert(fp(f, FloatOp::Times, weight_of(f, fewer[i], was), weight_of(f, was, top))
                == weight_of(f, fewer[i], top));
        }
        lemma_sum_scaled(f, old_parts, a, parts.drop_last());
        lemma_in_order_last(f, FloatOp::Plus, 0, parts);
        assert(scores[n - 1] == score(f, op, cache, head, slots.last() as int, row));
        let s = score(f, op, cache, head, slots.last() as int, row);
        assert(weights.last() == weight_of(f, s, top));
        assert(value_row(f, cache, head, slots.last() as int)[j] == value_at(
            f,
            cache,
            head,
            slots.last() as int,
            j,
        ));
    }
}

/// Element of the output of attention.
proof fn lemma_output_element<F: Fn(FloatOp, u32, u32) -> u32>(
    f: F,
    op: AttentionOp,
    q: Tensor,
    o: Tensor,
    cache: CacheView,
    plans: Seq<Seq<usize>>,
    tok: int,
    head: int,
    j: int,
)
    requires
        o.backed(),
        o.rank() == 3,
        o.shape[0] == q.shape[0],
        o.shape[1] == q.shape[1],
        o.shape[2] == value_width(cache),
        0 <= tok < q.shape[0],
        0 <= head < q.shape[1],
        0 <= j < value_width(cache),
    ensures
        attention_output(f, op, q, o, cache, plans).cells.f32_at(
            (tok * q.shape[1] + head) * value_width(cache) + j,
        ) == stored(o.dtype(), attended(f, op, q, cache, plans, tok, head)[j]),
{
    let h = q.shape[1] as int;
    let dv = value_width(cache);
    let rows = q.shape[0] * q.shape[1];
    let values = attention_values(f, op, q, cache, plans, rows);
    lemma_extent3(o.shape);
    lemma_flat_bound(tok, q.shape[0] as int, head, h);
    lemma_flat_bound(tok * h + head, rows, j, dv);
    lemma_split(tok, head, h);
    lemma_split(tok * h + head, j, dv);
    let i = (tok * h + head) * dv + j;
    assert(o.count() == rows * dv);
    lemma_backed_holds(o, i);
    law_write_all_read(o.cells, values, i);
}

/// A plan exists only where there is no problem.
proof fn lemma_no_problem(
    list: Seq<ErrorView>,
    op: AttentionOp,
    meta: BatchMeta,
    group: u32,
    written: Seq<bool>,
)
    requires
        slot_plan(list, op, meta, group, written) is Ok,
    ensures
        list.len() == 0,
        query_plan(meta) is Ok,
{
    let all = query_plan(meta)->Ok_0;
    lemma_problems_grow(meta, sight_of(op, group), written, all, list, all.len() as int);
}

/// Mean over a single position, in the order in which the softmax runs.
pub open spec fn mean_of_one<F: Fn(FloatOp, u32, u32) -> u32>(f: F, s: u32, v: u32) -> u32 {
    let m = fp(f, FloatOp::Max, 0xFF80_0000, s);
    let a = weight_of(f, 0xFF80_0000, m);
    let b = weight_of(f, s, m);
    fp(
        f,
        FloatOp::Over,
        fp(f, FloatOp::Plus, fp(f, FloatOp::Times, 0, a), fp(f, FloatOp::Times, b, v)),
        fp(f, FloatOp::Plus, fp(f, FloatOp::Times, 0, a), b),
    )
}

/// Mean over two positions, in the order in which the softmax runs.
pub open spec fn mean_of_two<F: Fn(FloatOp, u32, u32) -> u32>(
    f: F,
    s: u32,
    v: u32,
    t: u32,
    w: u32,
) -> u32 {
    let m = fp(f, FloatOp::Max, 0xFF80_0000, s);
    let a = weight_of(f, 0xFF80_0000, m);
    let b = weight_of(f, s, m);
    let l = fp(f, FloatOp::Plus, fp(f, FloatOp::Times, 0, a), b);
    let x = fp(f, FloatOp::Plus, fp(f, FloatOp::Times, 0, a), fp(f, FloatOp::Times, b, v));
    let n = fp(f, FloatOp::Max, m, t);
    let c = weight_of(f, m, n);
    let d = weight_of(f, t, n);
    fp(
        f,
        FloatOp::Over,
        fp(f, FloatOp::Plus, fp(f, FloatOp::Times, x, c), fp(f, FloatOp::Times, d, w)),
        fp(f, FloatOp::Plus, fp(f, FloatOp::Times, l, c), d),
    )
}

/// Whether a number is the softmax mean of values: over one and two positions to
/// the bit, and over any number of positions where the arithmetic does not round.
pub open spec fn is_softmax_mean<F: Fn(FloatOp, u32, u32) -> u32>(
    f: F,
    scores: Seq<u32>,
    values: Seq<u32>,
    dtype: DType,
    got: u32,
) -> bool {
    &&& scores.len() == 1 ==> got == stored(dtype, mean_of_one(f, scores[0], values[0]))
    &&& scores.len() == 2 ==> got == stored(
        dtype,
        mean_of_two(f, scores[0], values[0], scores[1], values[1]),
    )
    &&& exact_weights(f) ==> got == stored(dtype, weighted_mean(f, scores, values))
}

proof fn lemma_mean<F: Fn(FloatOp, u32, u32) -> u32>(
    f: F,
    op: AttentionOp,
    q: Tensor,
    cache: CacheView,
    plans: Seq<Seq<usize>>,
    tok: int,
    head: int,
    j: int,
    keys: Seq<Seq<u32>>,
    scores: Seq<u32>,
    values: Seq<u32>,
    dtype: DType,
)
    requires
        0 <= j < value_width(cache),
        keys_read(
            f,
            cache,
            cached_head(cache, q.shape[1] as int, head),
            plans[tok],
            key_width(cache),
            keys,
        ),
        are_scores(
            f,
            op,
            row_at(q.cells, (tok * q.shape[1] + head) * key_width(cache), key_width(cache)),
            keys,
            scores,
        ),
        key_width(cache) >= 0,
        values.len() == plans[tok].len(),
        forall|i: int|
            0 <= i < values.len() ==> #[trigger] values[i] == value_at(
                f,
                cache,
                cached_head(cache, q.shape[1] as int, head),
                plans[tok][i] as int,
                j,
            ),
    ensures
        is_softmax_mean(
            f,
            scores,
            values,
            dtype,
            stored(dtype, attended(f, op, q, cache, plans, tok, head)[j]),
        ),
{
    let g = cached_head(cache, q.shape[1] as int, head);
    let row = row_at(q.cells, (tok * q.shape[1] + head) * key_width(cache), key_width(cache));
    let slots = plans[tok];
    assert forall|i: int| 0 <= i < slots.len() implies #[trigger] scores[i] == score(
        f,
        op,
        cache,
        g,
        slots[i] as int,
        row,
    ) by {
        lemma_scores(f, op, cache, g, row, slots, keys, scores, i);
    }
    let state = softmax(f, op, cache, g, row, slots);
    if 1 <= slots.len() <= 2 {
        lemma_softmax_first(f, op, cache, g, row, slots);
        assert(scores[0] == score(f, op, cache, g, slots[0] as int, row));
        assert(values[0] == value_row(f, cache, g, slots[0] as int)[j]);
        if slots.len() == 2 {
            assert(scores[1] == score(f, op, cache, g, slots[1] as int, row));
            assert(values[1] == value_row(f, cache, g, slots[1] as int)[j]);
        }
    }
    if exact_weights(f) {
        lemma_softmax_closed(f, op, cache, g, row, slots, scores, j);
        let top = in_order(f, FloatOp::Max, 0xFF80_0000, scores);
        let weights = Seq::new(scores.len(), |i: int| weight_of(f, scores[i], top));
        assert(Seq::new(scores.len(), |i: int| fp(f, FloatOp::Times, weights[i], values[i]))
            =~= Seq::new(
            scores.len(),
            |i: int|
                fp(
                    f,
                    FloatOp::Times,
                    weight_of(f, scores[i], top),
                    value_at(f, cache, g, slots[i] as int, j),
                ),
        ));
    }
}

/// Attention over a paged cache is a softmax: the output of a query head is the
/// mean of the values at the positions that its token sees, under the
/// exponentials of their scores; a score is the product of query and key times
/// the scale; and query head `h` of `H` reads cached head `h / (H / Hkv)`.
pub proof fn law_paged_softmax<F: Fn(FloatOp, u32, u32) -> u32>(
    f: F,
    op: AttentionOp,
    q: Tensor,
    o: Tensor,
    meta: BatchMeta,
    group: u32,
    cache: PagedView,
    plans: Seq<Seq<usize>>,
    tok: int,
    head: int,
    j: int,
    keys: Seq<Seq<u32>>,
    scores: Seq<u32>,
    values: Seq<u32>,
)
    requires
        fits_memory(q) && fits_memory(o),
        paged_attention_plan(op, q, o, meta, group, cache) == Ok::<
            Seq<Seq<usize>>,
            ErrorView,
        >(plans),
        0 <= tok < meta.total_tokens,
        0 <= head < q.shape[1],
        0 <= j < cache.dv,
        keys.len() == plans[tok].len(),
        forall|i: int| 0 <= i < keys.len() ==> (#[trigger] keys[i]).len() == cache.d,
        forall|i: int, d: int|
            #![trigger keys[i][d]]
            0 <= i < keys.len() && 0 <= d < cache.d ==> keys[i][d] == cache.k_at(
                f,
                plans[tok][i] as int,
                head / (q.shape[1] as int / cache.hkv as int),
                d,
            ),
        values.len() == plans[tok].len(),
        forall|i: int|
            0 <= i < values.len() ==> #[trigger] values[i] == cache.v_at(
                f,
                plans[tok][i] as int,
                head / (q.shape[1] as int / cache.hkv as int),
                j,
            ),
        are_scores(
            f,
            op,
            Seq::new(
                cache.d as nat,
                |d: int| q.cells.f32_at((tok * q.shape[1] + head) * cache.d + d),
            ),
            keys,
            scores,
        ),
    ensures
        is_softmax_mean(
            f,
            scores,
            values,
            o.dtype(),
            attention_output(f, op, q, o, CacheView::Paged(cache), plans).cells.f32_at(
                (tok * q.shape[1] + head) * cache.dv + j,
            ),
        ),
{
    let list = paged_attention_faults(op, q, o, meta, group, cache.hkv, cache.d, cache.dv);
    lemma_no_problem(list, op, meta, group, cache.written);
    assert(attention_faults(op, q, o, meta, group).len() == 0);
    lemma_no_attention_faults(op, q, o, meta, group);
    let view = CacheView::Paged(cache);
    let row = row_at(q.cells, (tok * q.shape[1] + head) * cache.d, cache.d as int);
    assert(row =~= Seq::new(
        cache.d as nat,
        |d: int| q.cells.f32_at((tok * q.shape[1] + head) * cache.d + d),
    ));
    lemma_output_element(f, op, q, o, view, plans, tok, head, j);
    lemma_mean(f, op, q, view, plans, tok, head, j, keys, scores, values, o.dtype());
}

/// Attention over a latent cache is a softmax: as over a paged one, where every
/// query head reads the same rows, a key is the latent row followed by the rotary
/// row, and a value is the latent row.
pub proof fn law_latent_softmax<F: Fn(FloatOp, u32, u32) -> u32>(
    f: F,
    op: AttentionOp,
    q: Tensor,
    o: Tensor,
    meta: BatchMeta,
    group: u32,
    cache: LatentView,
    plans: Seq<Seq<usize>>,
    tok: int,
    head: int,
    j: int,
    keys: Seq<Seq<u32>>,
    scores: Seq<u32>,
    values: Seq<u32>,
)
    requires
        fits_memory(q) && fits_memory(o),
        mla_plan(op, q, o, meta, group, cache) == Ok::<Seq<Seq<usize>>, ErrorView>(plans),
        0 <= tok < meta.total_tokens,
        0 <= head < q.shape[1],
        0 <= j < cache.latent,
        keys.len() == plans[tok].len(),
        forall|i: int|
            0 <= i < keys.len() ==> (#[trigger] keys[i]).len() == cache.latent + cache.rope,
        forall|i: int, d: int|
            #![trigger keys[i][d]]
            0 <= i < keys.len() && 0 <= d < cache.latent ==> keys[i][d] == cache.latent_at(
                f,
                plans[tok][i] as int,
                d,
            ),
        forall|i: int, d: int|
            #![trigger keys[i][d]]
            0 <= i < keys.len() && cache.latent <= d < cache.latent + cache.rope ==> keys[i][d]
                == cache.rope_at(plans[tok][i] as int, d - cache.latent),
        values.len() == plans[tok].len(),
        forall|i: int|
            0 <= i < values.len() ==> #[trigger] values[i] == cache.latent_at(
                f,
                plans[tok][i] as int,
                j,
            ),
        are_scores(
            f,
            op,
            Seq::new(
                (cache.latent + cache.rope) as nat,
                |d: int|
                    q.cells.f32_at(
                        (tok * q.shape[1] + head) * (cache.latent + cache.rope) + d,
                    ),
            ),
            keys,
            scores,
        ),
    ensures
        is_softmax_mean(
            f,
            scores,
            values,
            o.dtype(),
            attention_output(f, op, q, o, CacheView::Latent(cache), plans).cells.f32_at(
                (tok * q.shape[1] + head) * cache.latent + j,
            ),
        ),
{
    let list = mla_faults(op, q, o, meta, group, cache.latent, cache.rope);
    lemma_no_problem(list, op, meta, group, cache.written);
    assert(attention_faults(op, q, o, meta, group).len() == 0);
    lemma_no_attention_faults(op, q, o, meta, group);
    let view = CacheView::Latent(cache);
    let width = cache.latent + cache.rope;
    let row = row_at(q.cells, (tok * q.shape[1] + head) * width, width);
    assert(row =~= Seq::new(
        (cache.latent + cache.rope) as nat,
        |d: int| q.cells.f32_at((tok * q.shape[1] + head) * (cache.latent + cache.rope) + d),
    ));
    lemma_output_element(f, op, q, o, view, plans, tok, head, j);
    lemma_mean(f, op, q, view, plans, tok, head, j, keys, scores, values, o.dtype());
}

} // verus!
