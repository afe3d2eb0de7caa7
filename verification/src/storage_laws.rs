//! What reads of a storage give back of writes.
use vstd::prelude::*;
use crate::buffer::Cells;
use crate::check::is_float;
use crate::dtype::{
    bf16_of, bits_as_i32, bool_of, byte_as_i8, e4m3_of, e5m2_of, f16_of, f32_of_bf16, f32_of_e4m3,
    f32_of_e5m2, f32_of_f16, f32_of_int, i32_as_bits, i32_of, i8_as_byte, i8_of, int_of_f32,
    lemma_put_le16, lemma_put_le32, nibble_at, nibble_of, put_nibble, u32_of, ONE,
};
use crate::ir::DType;

verus! {

/// Number that is read back after a single was written to an element of the
/// type: the single, converted to the type and back.
pub open spec fn stored(dtype: DType, v: u32) -> u32 {
    match dtype {
        DType::F32 => v,
        DType::F16 => f32_of_f16(f16_of(v)),
        DType::Bf16 => f32_of_bf16(bf16_of(v)),
        DType::E4m3 => f32_of_e4m3(e4m3_of(v)),
        DType::E5m2 => f32_of_e5m2(e5m2_of(v)),
        DType::I8 => f32_of_int(i8_of(v) as int),
        DType::I32 => f32_of_int(i32_of(v) as int),
        DType::U32 => f32_of_int(u32_of(v) as int),
        DType::Bool => if bool_of(v) == 1 {
            ONE
        } else {
            0
        },
        DType::I4 => f32_of_int(int_of_f32(v, true, -8, 7)),
    }
}

/// A written element is read back as its type stores it, and every other element
/// stays as it was.
pub proof fn law_write_read(c: Cells, i: int, v: u32, j: int)
    requires
        c.holds(i),
        c.holds(j),
    ensures
        c.with_f32(i, v).f32_at(j) == if j == i {
            stored(c.dtype(), v)
        } else {
            c.f32_at(j)
        },
{
    match c {
        Cells::Bytes(DType::F32, s) => {
            lemma_put_le32(s, i * 4, v, j * 4);
        },
        Cells::Bytes(DType::I32, s) => {
            lemma_put_le32(s, i * 4, i32_as_bits(i32_of(v)), j * 4);
        },
        Cells::Bytes(DType::U32, s) => {
            lemma_put_le32(s, i * 4, u32_of(v), j * 4);
        },
        Cells::Bytes(DType::F16, s) => {
            lemma_put_le16(s, i * 2, f16_of(v), j * 2);
        },
        Cells::Bytes(DType::Bf16, s) => {
            lemma_put_le16(s, i * 2, bf16_of(v), j * 2);
        },
        Cells::Bytes(DType::I4, s) => {
            lemma_put_nibble(s, i, nibble_of(v), j);
        },
        _ => {},
    }
}

/// A nibble is read back where it was put, and every other nibble stays.
proof fn lemma_put_nibble(s: Seq<u8>, i: int, v: u8, j: int)
    requires
        0 <= i < 2 * s.len(),
        0 <= j < 2 * s.len(),
        v < 16,
    ensures
        nibble_at(put_nibble(s, i, v), j) == if j == i {
            v
        } else {
            nibble_at(s, j)
        },
{
}

/// Elements keep their positions: writing leaves the length and the type of a
/// storage as they are.
pub proof fn law_write_keeps_form(c: Cells, i: int, v: u32)
    requires
        c.holds(i),
    ensures
        c.with_f32(i, v).dtype() == c.dtype(),
        c.with_f32(i, v).len() == c.len(),
        forall|n: int| #[trigger] c.with_f32(i, v).required(n) == c.required(n),
{
}

/// After values were written to the first elements, each is read back as its
/// type stores it, and every element behind them stays as it was.
pub proof fn law_write_all_read(c: Cells, values: Seq<u32>, j: int)
    requires
        c.required(values.len() as int) <= c.len(),
        c.holds(j),
    ensures
        c.with_f32s(values).dtype() == c.dtype(),
        c.with_f32s(values).len() == c.len(),
        forall|n: int| #[trigger] c.with_f32s(values).required(n) == c.required(n),
        c.with_f32s(values).f32_at(j) == if j < values.len() {
            stored(c.dtype(), values[j])
        } else {
            c.f32_at(j)
        },
    decreases values.len(),
{
    if values.len() > 0 {
        let init = values.drop_last();
        law_write_all_read(c, init, j);
        let before = c.with_f32s(init);
        law_write_keeps_form(before, values.len() - 1, values.last());
        law_write_read(before, values.len() - 1, values.last(), j);
    }
}

/// Bits of an element of a floating-point type after a single was written to it.
pub open spec fn coded(dtype: DType, v: u32) -> u32 {
    match dtype {
        DType::F16 => f16_of(v) as u32,
        DType::Bf16 => bf16_of(v) as u32,
        _ => v,
    }
}

/// A written element of a floating-point type has the bits of the single in that
/// type, and every other element keeps its bits.
pub proof fn law_write_bits(c: Cells, i: int, v: u32, j: int)
    requires
        is_float(c.dtype()),
        c.holds(i),
        c.holds(j),
    ensures
        c.with_f32(i, v).raw_at(j) == if j == i {
            coded(c.dtype(), v)
        } else {
            c.raw_at(j)
        },
{
    match c {
        Cells::Bytes(DType::F32, s) => {
            lemma_put_le32(s, i * 4, v, j * 4);
        },
        Cells::Bytes(DType::F16, s) => {
            lemma_put_le16(s, i * 2, f16_of(v), j * 2);
        },
        Cells::Bytes(DType::Bf16, s) => {
            lemma_put_le16(s, i * 2, bf16_of(v), j * 2);
        },
        _ => {},
    }
}

/// After values were written to the first elements of a floating-point type,
/// each has the bits of its value in that type.
pub proof fn law_write_all_bits(c: Cells, values: Seq<u32>, j: int)
    requires
        is_float(c.dtype()),
        c.required(values.len() as int) <= c.len(),
        c.holds(j),
    ensures
        c.with_f32s(values).raw_at(j) == if j < values.len() {
            coded(c.dtype(), values[j])
        } else {
            c.raw_at(j)
        },
    decreases values.len(),
{
    if values.len() > 0 {
        let init = values.drop_last();
        let n = init.len() as int;
        assert(c.required(n) <= c.required(n + 1));
        law_write_all_bits(c, init, j);
        law_write_all_read(c, init, j);
        law_write_bits(c.with_f32s(init), n, values.last(), j);
    }
}

/// A byte that stands for a signed byte stands for the same number again.
pub proof fn law_signed_bytes(v: i8, b: u8)
    ensures
        byte_as_i8(i8_as_byte(v)) == v,
        i8_as_byte(byte_as_i8(b)) == b,
{
}

/// Bits that stand for a signed integer stand for the same number again.
pub proof fn law_signed_words(v: i32, b: u32)
    ensures
        bits_as_i32(i32_as_bits(v)) == v,
        i32_as_bits(bits_as_i32(b)) == b,
{
}

} // verus!
