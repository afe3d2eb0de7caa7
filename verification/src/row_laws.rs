//! What a cache keeps of a row: codes under the row's own scale.
use vstd::prelude::*;
use crate::arith::{fp, fp_neg, FloatOp};
use crate::batch::BatchMeta;
use crate::buffer::Tensor;
use crate::call_laws::fits_memory;
use crate::dtype::{
    exp_of, f16_of, f32_of_e4m3, f32_of_f16, f32_of_int, int_of_f32, mant_of, sign_of, whole_part,
};
use crate::error::FormatError;
use crate::ir::DType;
use crate::kv_cache::is_cache_dtype;
use crate::kv_latent::{latent_plan, latent_values, LatentView};
use crate::kv_laws::{law_latent_write_then_read, law_write_then_read, row_value};
use crate::kv_rows::{e4m3_codes, encoded_row, i8_codes, max_abs, row_at, row_scale, RowPlace};
use crate::kv_write::{paged_plan, target, PagedView, StateWriteKvOp};
use crate::weight::{answer, FormatQuery};

verus! {

/// Whether a number is the largest magnitude of a row, by its bits: no element
/// but a NaN has a larger magnitude, and some element has this one unless it is
/// zero.
pub open spec fn is_largest_magnitude(values: Seq<u32>, m: u32) -> bool {
    &&& forall|i: int|
        0 <= i < values.len() && #[trigger] values[i] % 0x8000_0000 <= 0x7F80_0000 ==> values[i]
            % 0x8000_0000 <= m
    &&& m == 0 || exists|i: int|
        0 <= i < values.len() && #[trigger] values[i] % 0x8000_0000 == m && m <= 0x7F80_0000
}

/// The largest magnitude of a row bounds every element of either sign, and is
/// the magnitude of an element.
pub proof fn law_largest_magnitude(values: Seq<u32>)
    ensures
        is_largest_magnitude(values, max_abs(values)),
    decreases values.len(),
{
    if values.len() > 0 {
        let init = values.drop_last();
        law_largest_magnitude(init);
        let m = max_abs(values);
        let last = values.len() - 1;
        assert forall|i: int|
            0 <= i < values.len() && #[trigger] values[i] % 0x8000_0000
                <= 0x7F80_0000 implies values[i] % 0x8000_0000 <= m by {
            if i < last {
                assert(init[i] == values[i]);
                assert(init[i] % 0x8000_0000 <= 0x7F80_0000);
            }
        }
        if m != 0 {
            if m == max_abs(init) {
                let i = choose|i: int|
                    0 <= i < init.len() && #[trigger] init[i] % 0x8000_0000 == max_abs(init)
                        && max_abs(init) <= 0x7F80_0000;
                assert(values[i] % 0x8000_0000 == m);
            } else {
                assert(values[last] % 0x8000_0000 == m);
            }
        }
    }
}

/// There is one largest magnitude.
proof fn lemma_one_largest(values: Seq<u32>, m: u32)
    requires
        is_largest_magnitude(values, m),
    ensures
        m == max_abs(values),
{
    let n = max_abs(values);
    law_largest_magnitude(values);
    if n != 0 {
        let i = choose|i: int|
            0 <= i < values.len() && #[trigger] values[i] % 0x8000_0000 == n && n <= 0x7F80_0000;
        assert(values[i] % 0x8000_0000 <= m);
    }
    if m != 0 {
        let i = choose|i: int|
            0 <= i < values.len() && #[trigger] values[i] % 0x8000_0000 == m && m <= 0x7F80_0000;
        assert(values[i] % 0x8000_0000 <= n);
    }
}

/// Scale of a row: its largest magnitude over the largest code.
pub open spec fn scale_under<F: Fn(FloatOp, u32, u32) -> u32>(f: F, m: u32, limit: u32) -> u32 {
    let s = fp(f, FloatOp::Over, m, limit);
    if s % 0x8000_0000 == 0 {
        0
    } else {
        s
    }
}

/// What is read back of an element of a row: the nearest half-precision number;
/// or the scale in half precision times the code of the element over the scale,
/// a whole number within 127 or an E4M3 code under 448.
pub open spec fn kept_number<
    F: Fn(FloatOp, u32, u32) -> u32,
    G: Fn(FormatQuery) -> Result<u64, FormatError>,
>(f: F, g: G, dtype: DType, m: u32, v: u32) -> u32 {
    match dtype {
        DType::F16 => f32_of_f16(f16_of(v)),
        DType::I8 => {
            let scale = scale_under(f, m, 0x42FE_0000);
            let code = if scale == 0 {
                0
            } else {
                int_of_f32(fp(f, FloatOp::Over, v, scale), true, -127, 127)
            };
            fp(f, FloatOp::Times, f32_of_f16(f16_of(scale)), f32_of_int(code))
        },
        _ => {
            let scale = scale_under(f, m, 0x43E0_0000);
            let code: u64 = if scale == 0 {
                0
            } else {
                answer(
                    g,
                    FormatQuery::E4m3Code { value: fp(f, FloatOp::Over, v, scale) },
                )->Ok_0
            };
            fp(
                f,
                FloatOp::Times,
                f32_of_f16(f16_of(scale)),
                f32_of_e4m3((code % 256) as u8),
            )
        },
    }
}

/// The bounds of a clamped integer.
proof fn lemma_code_range(b: u32)
    ensures
        -127 <= int_of_f32(b, true, -127, 127) <= 127,
{
}

proof fn lemma_e4m3_code<
    F: Fn(FloatOp, u32, u32) -> u32,
    G: Fn(FormatQuery) -> Result<u64, FormatError>,
>(f: F, g: G, values: Seq<u32>, scale: u32, at: RowPlace, i: int)
    requires
        e4m3_codes(f, g, values, scale, at) is Ok,
        0 <= i < values.len(),
    ensures
        e4m3_codes(f, g, values, scale, at)->Ok_0.len() == values.len(),
        e4m3_codes(f, g, values, scale, at)->Ok_0[i] == if scale % 0x8000_0000 == 0 {
            0
        } else {
            (answer(
                g,
                FormatQuery::E4m3Code { value: fp(f, FloatOp::Over, values[i], scale) },
            )->Ok_0 % 256) as u8
        },
    decreases values.len(),
{
    let init = values.drop_last();
    lemma_e4m3_codes_len(f, g, init, scale, at);
    if i < values.len() - 1 {
        lemma_e4m3_code(f, g, init, scale, at, i);
    }
}

proof fn lemma_e4m3_codes_len<
    F: Fn(FloatOp, u32, u32) -> u32,
    G: Fn(FormatQuery) -> Result<u64, FormatError>,
>(f: F, g: G, values: Seq<u32>, scale: u32, at: RowPlace)
    requires
        e4m3_codes(f, g, values, scale, at) is Ok,
    ensures
        e4m3_codes(f, g, values, scale, at)->Ok_0.len() == values.len(),
    decreases values.len(),
{
    if values.len() > 0 {
        lemma_e4m3_codes_len(f, g, values.drop_last(), scale, at);
    }
}

/// Number that the encoding of a row stands for.
proof fn lemma_kept<
    F: Fn(FloatOp, u32, u32) -> u32,
    G: Fn(FormatQuery) -> Result<u64, FormatError>,
>(f: F, g: G, dtype: DType, values: Seq<u32>, at: RowPlace, m: u32, dim: int)
    requires
        is_cache_dtype(dtype),
        encoded_row(f, g, dtype, values, at) is Ok,
        is_largest_magnitude(values, m),
        0 <= dim < values.len(),
    ensures
        row_value(f, encoded_row(f, g, dtype, values, at)->Ok_0, dim) == kept_number(
            f,
            g,
            dtype,
            m,
            values[dim],
        ),
{
    lemma_one_largest(values, m);
    if dtype == DType::I8 {
        let scale = row_scale(f, values, 0x42FE_0000);
        lemma_code_range(fp(f, FloatOp::Over, values[dim], scale));
        assert(scale % 0x8000_0000 == 0 ==> scale == 0);
    } else if dtype == DType::E4m3 {
        let scale = row_scale(f, values, 0x43E0_0000);
        assert(scale % 0x8000_0000 == 0 ==> scale == 0);
        lemma_e4m3_code(f, g, values, scale, at, dim);
    }
}

/// After a write, each number of the last row that was written to a slot is read
/// back as its type keeps it, under the largest magnitude of its own row.
pub proof fn law_rows_kept<
    F: Fn(FloatOp, u32, u32) -> u32,
    G: Fn(FormatQuery) -> Result<u64, FormatError>,
>(
    f: F,
    g: G,
    op: StateWriteKvOp,
    k: Tensor,
    v: Tensor,
    meta: BatchMeta,
    group: u32,
    cache: PagedView,
    tok: int,
    head: int,
    dim: int,
    keys: Seq<u32>,
    values: Seq<u32>,
    key_top: u32,
    value_top: u32,
)
    requires
        fits_memory(k) && fits_memory(v),
        cache.written.len() <= usize::MAX,
        cache.wf(),
        paged_plan(f, g, op, k, v, meta, group, cache) is Ok,
        0 <= tok < meta.total_tokens,
        target(meta, group, tok) is Some,
        forall|t: int|
            tok < t < meta.total_tokens ==> #[trigger] target(meta, group, t) != target(
                meta,
                group,
                tok,
            ),
        0 <= head < cache.hkv,
        0 <= dim,
        keys.len() == cache.d,
        forall|i: int|
            0 <= i < cache.d ==> #[trigger] keys[i] == k.cells.f32_at(
                (tok * cache.hkv + head) * cache.d + i,
            ),
        values.len() == cache.dv,
        forall|i: int|
            0 <= i < cache.dv ==> #[trigger] values[i] == v.cells.f32_at(
                (tok * cache.hkv + head) * cache.dv + i,
            ),
        is_largest_magnitude(keys, key_top),
        is_largest_magnitude(values, value_top),
    ensures
        ({
            let after = cache.with_tokens(
                paged_plan(f, g, op, k, v, meta, group, cache)->Ok_0,
            );
            let slot = meta.slot_map@[group * meta.total_tokens + tok] as int;
            &&& after.written[slot]
            &&& dim < cache.d ==> after.k_at(f, slot, head, dim) == kept_number(
                f,
                g,
                cache.dtype,
                key_top,
                keys[dim],
            )
            &&& dim < cache.dv ==> after.v_at(f, slot, head, dim) == kept_number(
                f,
                g,
                cache.dtype,
                value_top,
                values[dim],
            )
        }),
{
    let place = RowPlace { tensor: "k", tok: 0, head: 0 };
    law_write_then_read(f, g, op, k, v, meta, group, cache, tok, head, dim, place);
    let row = tok * cache.hkv + head;
    assert(row_at(k.cells, row * cache.d, cache.d as int) =~= keys);
    assert(row_at(v.cells, row * cache.dv, cache.dv as int) =~= values);
    if dim < cache.d {
        lemma_kept(f, g, cache.dtype, keys, place, key_top, dim);
    }
    if dim < cache.dv {
        lemma_kept(f, g, cache.dtype, values, place, value_top, dim);
    }
}

/// After a write, each number of the last latent row that was written to a slot
/// is read back as its type keeps it, and each of the rotary row in half
/// precision. Both rows stand in operands of their own, or one behind the other.
pub proof fn law_latent_rows_kept<
    F: Fn(FloatOp, u32, u32) -> u32,
    G: Fn(FormatQuery) -> Result<u64, FormatError>,
>(
    f: F,
    g: G,
    op: StateWriteKvOp,
    c_kv: Tensor,
    k_rope: Tensor,
    meta: BatchMeta,
    group: u32,
    cache: LatentView,
    tok: int,
    dim: int,
    latents: Seq<u32>,
    top: u32,
)
    requires
        fits_memory(c_kv) && fits_memory(k_rope),
        cache.written.len() <= usize::MAX,
        cache.wf(),
        latent_plan(f, g, op, c_kv, k_rope, meta, group, cache) is Ok,
        0 <= tok < meta.total_tokens,
        target(meta, group, tok) is Some,
        forall|t: int|
            tok < t < meta.total_tokens ==> #[trigger] target(meta, group, t) != target(
                meta,
                group,
                tok,
            ),
        0 <= dim,
        latents.len() == op.latent->0.kv_lora_rank,
        cache.latent == op.latent->0.kv_lora_rank,
        cache.rope == op.latent->0.rope_dim,
        forall|i: int|
            0 <= i < latents.len() ==> #[trigger] latents[i] == c_kv.cells.f32_at(
                tok * c_kv.shape[2] + i,
            ),
        is_largest_magnitude(latents, top),
    ensures
        ({
            let after = cache.with_tokens(
                latent_plan(f, g, op, c_kv, k_rope, meta, group, cache)->Ok_0,
            );
            let slot = meta.slot_map@[group * meta.total_tokens + tok] as int;
            let apart = c_kv.shape[2] == cache.latent && k_rope.shape[2] == cache.rope;
            &&& after.written[slot]
            &&& dim < cache.latent ==> after.latent_at(f, slot, dim) == kept_number(
                f,
                g,
                cache.dtype,
                top,
                latents[dim],
            )
            &&& dim < cache.rope ==> after.rope_at(slot, dim) == f32_of_f16(
                f16_of(
                    if apart {
                        k_rope.cells.f32_at(tok * cache.rope + dim)
                    } else {
                        c_kv.cells.f32_at(tok * c_kv.shape[2] + cache.latent + dim)
                    },
                ),
            )
        }),
{
    let place = RowPlace { tensor: "c_kv", tok: 0, head: 0 };
    law_latent_write_then_read(f, g, op, c_kv, k_rope, meta, group, cache, tok, dim, place);
    assert(latent_values(op, c_kv, tok) =~= latents);
    if dim < cache.latent {
        lemma_kept(f, g, cache.dtype, latents, place, top, dim);
    }
}

/// The integer of a number with the opposite sign is the opposite integer.
proof fn lemma_opposite_int(b: u32)
    ensures
        int_of_f32(fp_neg(b), true, -127, 127) == -int_of_f32(b, true, -127, 127),
{
    let n = fp_neg(b);
    assert(exp_of(n) == exp_of(b) && mant_of(n) == mant_of(b) && sign_of(n) == 1 - sign_of(b));
    assert(whole_part(n, true) == whole_part(b, true));
}

/// A row with every sign turned has the same scale and the opposite codes, where
/// the arithmetic divides numbers of opposite signs to numbers of opposite signs.
pub proof fn law_row_negated<
    F: Fn(FloatOp, u32, u32) -> u32,
    G: Fn(FormatQuery) -> Result<u64, FormatError>,
>(f: F, g: G, values: Seq<u32>, turned: Seq<u32>, at: RowPlace)
    requires
        forall|a: u32, b: u32| #[trigger]
            fp(f, FloatOp::Over, fp_neg(a), b) == fp_neg(fp(f, FloatOp::Over, a, b)),
        turned.len() == values.len(),
        forall|i: int| 0 <= i < values.len() ==> #[trigger] turned[i] == fp_neg(values[i]),
    ensures
        ({
            let a = encoded_row(f, g, DType::I8, values, at)->Ok_0;
            let b = encoded_row(f, g, DType::I8, turned, at)->Ok_0;
            &&& a is Bytes && b is Bytes
            &&& a->Bytes_1 == b->Bytes_1
            &&& forall|i: int|
                0 <= i < values.len() ==> #[trigger] b->Bytes_0[i] == -a->Bytes_0[i]
        }),
{
    law_largest_magnitude(values);
    let m = max_abs(values);
    assert forall|i: int|
        0 <= i < turned.len() && #[trigger] turned[i] % 0x8000_0000 <= 0x7F80_0000 implies turned[i]
        % 0x8000_0000 <= m by {
        assert(turned[i] == fp_neg(values[i]));
        assert(turned[i] % 0x8000_0000 == values[i] % 0x8000_0000);
    }
    if m != 0 {
        let i = choose|i: int|
            0 <= i < values.len() && #[trigger] values[i] % 0x8000_0000 == m && m <= 0x7F80_0000;
        assert(turned[i] == fp_neg(values[i]));
        assert(turned[i] % 0x8000_0000 == m);
    }
    lemma_one_largest(turned, m);
    let scale = row_scale(f, values, 0x42FE_0000);
    assert forall|i: int| 0 <= i < values.len() implies #[trigger] i8_codes(f, turned)[i]
        == -i8_codes(f, values)[i] by {
        let b = fp(f, FloatOp::Over, values[i], scale);
        assert(turned[i] == fp_neg(values[i]));
        lemma_opposite_int(b);
        lemma_code_range(b);
    }
}

} // verus!
