//! Rows of a matrix as a matrix of their own: products with it are columns of
//! the products with the whole.
use vstd::prelude::*;
use crate::arith::FloatOp;
use crate::carrier_laws::{lemma_same_bits, records_size};
use crate::error::FormatError;
use crate::gemm::GemmArgs;
use crate::gemm_laws::lemma_record_bound;
use crate::index::lemma_flat_bound;
use crate::ir::SchemeId;
use crate::weight::{record_len, record_of, row_bytes, row_records, FormatQuery, Matrix};

verus! {

/// Whether a row of one matrix has the code of a row of another in a column.
pub open spec fn row_code<G: Fn(FormatQuery) -> Result<u64, FormatError>>(
    g: G,
    part: Matrix,
    row: int,
    whole: Matrix,
    other: int,
    col: int,
) -> bool {
    match part.scheme {
        None => part.half_value(g, row, col) == whole.half_value(g, other, col),
        Some(SchemeId::I4K) => part.nibble_value(g, row, col) == whole.nibble_value(g, other, col),
        _ => part.byte_value(g, row, col) == whole.byte_value(g, other, col),
    }
}

/// Whether the rows of one matrix are the rows of another from a row on.
pub open spec fn is_block<G: Fn(FormatQuery) -> Result<u64, FormatError>>(
    g: G,
    part: Matrix,
    whole: Matrix,
    first: int,
) -> bool {
    &&& part.scheme == whole.scheme
    &&& part.k == whole.k
    &&& 0 <= first
    &&& first + part.n <= whole.n
    &&& forall|row: int, col: int|
        0 <= row < part.n && 0 <= col < part.k ==> #[trigger] row_code(
            g,
            part,
            row,
            whole,
            first + row,
            col,
        )
    &&& forall|row: int, record: int|
        0 <= row < part.n && 0 <= record < row_records(part.scheme, part.k) ==> #[trigger]
            part.record_value(g, row, record) == whole.record_value(g, first + row, record)
}

/// The bytes of some rows of a matrix, with the records of these rows, are a
/// matrix of these rows.
pub proof fn law_rows_are_block<G: Fn(FormatQuery) -> Result<u64, FormatError>>(
    g: G,
    part: Matrix,
    whole: Matrix,
    first: int,
)
    requires
        part.wf(),
        whole.wf(),
        part.scheme == whole.scheme,
        part.k == whole.k,
        part.separate == whole.separate,
        !part.tiled && !whole.tiled,
        !part.transposed && !whole.transposed,
        0 <= first,
        first + part.n <= whole.n,
        part.bytes == whole.bytes.subrange(
            first * whole.stride(),
            (first + part.n) * whole.stride(),
        ),
        whole.separate && whole.scheme is Some ==> part.scales == whole.scales.subrange(
            first * records_size(whole.scheme, whole.k),
            (first + part.n) * records_size(whole.scheme, whole.k),
        ),
    ensures
        is_block(g, part, whole, first),
{
    let s = whole.stride();
    let k = part.k;
    lemma_block_range(first, part.n, whole.n, s);
    assert(part.bytes.len() == part.n * s);
    assert forall|row: int, col: int| 0 <= row < part.n && 0 <= col < k implies #[trigger] row_code(
        g,
        part,
        row,
        whole,
        first + row,
        col,
    ) by {
        lemma_block_row(first, part.n, row, s);
        match part.scheme {
            None => {
                assert(s == 2 * k);
                assert((row * k + col) * 2 == row * s + 2 * col) by (nonlinear_arith)
                    requires
                        s == 2 * k,
                ;
                assert(((first + row) * k + col) * 2 == (first + row) * s + 2 * col)
                    by (nonlinear_arith)
                    requires
                        s == 2 * k,
                ;
            },
            Some(SchemeId::I4K) => {
                assert(0 <= col / 2 < s);
            },
            _ => {},
        }
    }
    assert forall|row: int, record: int|
        0 <= row < part.n && 0 <= record < row_records(part.scheme, k) implies #[trigger]
        part.record_value(g, row, record) == whole.record_value(g, first + row, record) by {
        lemma_block_record(g, part, whole, first, row, record);
    }
}

proof fn lemma_block_range(first: int, n: int, rows: int, s: int)
    requires
        0 <= first,
        0 <= n,
        first + n <= rows,
        0 <= s,
    ensures
        0 <= first * s <= (first + n) * s <= rows * s,
        (first + n) * s - first * s == n * s,
{
    assert(0 <= first * s <= (first + n) * s <= rows * s && (first + n) * s - first * s == n * s)
        by (nonlinear_arith)
        requires
            0 <= first,
            0 <= n,
            first + n <= rows,
            0 <= s,
    ;
}

proof fn lemma_block_row(first: int, n: int, row: int, s: int)
    requires
        0 <= row < n,
        0 <= s,
        0 <= first,
    ensures
        (first + row) * s == first * s + row * s,
        0 <= row * s,
        row * s + s <= n * s,
{
    assert((first + row) * s == first * s + row * s && 0 <= row * s && row * s + s <= n * s)
        by (nonlinear_arith)
        requires
            0 <= row,
            row + 1 <= n,
            0 <= s,
    ;
}

proof fn lemma_block_record<G: Fn(FormatQuery) -> Result<u64, FormatError>>(
    g: G,
    part: Matrix,
    whole: Matrix,
    first: int,
    row: int,
    record: int,
)
    requires
        part.wf(),
        whole.wf(),
        part.scheme == whole.scheme,
        part.k == whole.k,
        part.separate == whole.separate,
        !part.tiled && !whole.tiled,
        0 <= first,
        first + part.n <= whole.n,
        part.bytes == whole.bytes.subrange(
            first * whole.stride(),
            (first + part.n) * whole.stride(),
        ),
        whole.separate && whole.scheme is Some ==> part.scales == whole.scales.subrange(
            first * records_size(whole.scheme, whole.k),
            (first + part.n) * records_size(whole.scheme, whole.k),
        ),
        0 <= row < part.n,
        0 <= record < row_records(part.scheme, part.k),
    ensures
        part.record_value(g, row, record) == whole.record_value(g, first + row, record),
{
    let len = record_len(part.scheme);
    let rr = row_records(part.scheme, part.k);
    let w = row_bytes(part.scheme, part.k);
    let r = records_size(part.scheme, part.k);
    let s = whole.stride();
    lemma_flat_bound(record, rr, 0, len);
    if part.separate {
        let i = (row * rr + record) * len;
        let j = ((first + row) * rr + record) * len;
        assert(i == row * r + record * len && j == (first + row) * r + record * len)
            by (nonlinear_arith)
            requires
                i == (row * rr + record) * len,
                j == ((first + row) * rr + record) * len,
                r == rr * len,
        ;
        lemma_block_range(first, part.n, whole.n, r);
        lemma_block_row(first, part.n, row, r);
        assert(whole.n * r == whole.n * rr * len && part.n * r == part.n * rr * len)
            by (nonlinear_arith)
            requires
                r == rr * len,
        ;
        assert forall|p: int| 0 <= p < len implies #[trigger] part.scales[i + p] == whole.scales[j
            + p] by {
        }
        lemma_same_bits(part.scales, i, whole.scales, j, len);
    } else {
        assert(s == w + r);
        lemma_block_range(first, part.n, whole.n, s);
        lemma_block_row(first, part.n, row, s);
        let i = row * s + w + record * len;
        let j = (first + row) * s + w + record * len;
        assert forall|p: int| 0 <= p < len implies #[trigger] part.bytes[i + p] == whole.bytes[j
            + p] by {
        }
        lemma_same_bits(part.bytes, i, whole.bytes, j, len);
    }
}

/// Elements of a block are those of the whole wherever both have a value.
pub proof fn law_block_element<
    F: Fn(FloatOp, u32, u32) -> u32,
    G: Fn(FormatQuery) -> Result<u64, FormatError>,
>(g: G, f: F, part: Matrix, whole: Matrix, first: int, row: int, col: int)
    requires
        part.wf(),
        is_block(g, part, whole, first),
        0 <= row < part.n,
        0 <= col < part.k,
        part.element(f, g, row, col) is Ok,
        whole.element(f, g, first + row, col) is Ok,
    ensures
        part.element(f, g, row, col) == whole.element(f, g, first + row, col),
{
    assert(row_code(g, part, row, whole, first + row, col));
    if part.scheme is Some {
        lemma_record_bound(part, col);
        let record = record_of(part.scheme, col);
        assert(part.record_value(g, row, record) == whole.record_value(g, first + row, record));
        if part.scheme == Some(SchemeId::I4K) {
            assert(col / 32 / 8 == col / 256);
        }
    }
}

/// Whether two products have the same activations, and the weights of one are
/// some rows of the weights of the other.
pub open spec fn is_cut<G: Fn(FormatQuery) -> Result<u64, FormatError>>(
    g: G,
    part: GemmArgs,
    whole: GemmArgs,
    first: int,
) -> bool {
    &&& part.x == whole.x
    &&& part.xs == whole.xs
    &&& is_block(g, part.w, whole.w, first)
}

proof fn lemma_cut_int<G: Fn(FormatQuery) -> Result<u64, FormatError>>(
    g: G,
    part: GemmArgs,
    whole: GemmArgs,
    first: int,
    row: int,
    col: int,
    start: int,
    count: int,
)
    requires
        is_cut(g, part, whole, first),
        part.w.scheme is Some && part.w.scheme != Some(SchemeId::I4K),
        0 <= col < part.w.n,
        0 <= start,
        start + count <= part.w.k,
        part.int_dot(g, row, col, start, count) is Ok,
        whole.int_dot(g, row, first + col, start, count) is Ok,
    ensures
        part.int_dot(g, row, col, start, count) == whole.int_dot(
            g,
            row,
            first + col,
            start,
            count,
        ),
    decreases count,
{
    if count > 0 {
        lemma_cut_int(g, part, whole, first, row, col, start, count - 1);
        assert(row_code(g, part.w, col, whole.w, first + col, start + count - 1));
    }
}

proof fn lemma_cut_nibble<G: Fn(FormatQuery) -> Result<u64, FormatError>>(
    g: G,
    part: GemmArgs,
    whole: GemmArgs,
    first: int,
    row: int,
    col: int,
    start: int,
    count: int,
)
    requires
        is_cut(g, part, whole, first),
        part.w.scheme == Some(SchemeId::I4K),
        0 <= col < part.w.n,
        0 <= start,
        start + count <= part.w.k,
    ensures
        part.nibble_dot(g, row, col, start, count) == whole.nibble_dot(
            g,
            row,
            first + col,
            start,
            count,
        ),
    decreases count,
{
    if count > 0 {
        lemma_cut_nibble(g, part, whole, first, row, col, start, count - 1);
        assert(row_code(g, part.w, col, whole.w, first + col, start + count - 1));
    }
}

proof fn lemma_cut_e4m3<
    F: Fn(FloatOp, u32, u32) -> u32,
    G: Fn(FormatQuery) -> Result<u64, FormatError>,
>(
    f: F,
    g: G,
    part: GemmArgs,
    whole: GemmArgs,
    first: int,
    row: int,
    col: int,
    start: int,
    count: int,
)
    requires
        is_cut(g, part, whole, first),
        part.w.scheme is Some && part.w.scheme != Some(SchemeId::I4K),
        0 <= col < part.w.n,
        0 <= start,
        start + count <= part.w.k,
    ensures
        part.e4m3_dot(f, g, row, col, start, count) == whole.e4m3_dot(
            f,
            g,
            row,
            first + col,
            start,
            count,
        ),
    decreases count,
{
    if count > 0 {
        lemma_cut_e4m3(f, g, part, whole, first, row, col, start, count - 1);
        assert(row_code(g, part.w, col, whole.w, first + col, start + count - 1));
    }
}

proof fn lemma_cut_block<
    F: Fn(FloatOp, u32, u32) -> u32,
    G: Fn(FormatQuery) -> Result<u64, FormatError>,
>(
    f: F,
    g: G,
    part: GemmArgs,
    whole: GemmArgs,
    first: int,
    row: int,
    col: int,
    size: int,
    block: int,
)
    requires
        part.w.wf(),
        is_cut(g, part, whole, first),
        part.w.scheme is Some,
        0 <= col < part.w.n,
        0 < size,
        0 <= block,
        0 <= block * size,
        block * size + size <= part.w.k,
        part.w.scheme == Some(SchemeId::I4K) ==> size == 32,
        part.w.scheme == Some(SchemeId::E4M3B128) ==> size == 128,
        part.block_value(f, g, row, col, size, block) is Ok,
        whole.block_value(f, g, row, first + col, size, block) is Ok,
    ensures
        part.block_value(f, g, row, col, size, block) == whole.block_value(
            f,
            g,
            row,
            first + col,
            size,
            block,
        ),
{
    let start = block * size;
    lemma_record_bound(part.w, start);
    let record = record_of(part.w.scheme, start);
    assert(part.w.record_value(g, col, record) == whole.w.record_value(g, first + col, record));
    match part.w.scheme {
        Some(SchemeId::I4K) => {
            assert(start / 256 == block / 8);
            lemma_cut_nibble(g, part, whole, first, row, col, start, size);
        },
        Some(SchemeId::E4M3B128) => {
            assert(start / 128 == block);
            lemma_cut_e4m3(f, g, part, whole, first, row, col, start, size);
        },
        _ => {
            lemma_cut_int(g, part, whole, first, row, col, start, size);
        },
    }
}

proof fn lemma_cut_sum<
    F: Fn(FloatOp, u32, u32) -> u32,
    G: Fn(FormatQuery) -> Result<u64, FormatError>,
>(
    f: F,
    g: G,
    part: GemmArgs,
    whole: GemmArgs,
    first: int,
    row: int,
    col: int,
    size: int,
    count: int,
)
    requires
        part.w.wf(),
        is_cut(g, part, whole, first),
        part.w.scheme is Some,
        0 <= col < part.w.n,
        0 < size,
        count * size <= part.w.k,
        part.w.scheme == Some(SchemeId::I4K) ==> size == 32,
        part.w.scheme == Some(SchemeId::E4M3B128) ==> size == 128,
        part.block_sum(f, g, row, col, size, count) is Ok,
        whole.block_sum(f, g, row, first + col, size, count) is Ok,
    ensures
        part.block_sum(f, g, row, col, size, count) == whole.block_sum(
            f,
            g,
            row,
            first + col,
            size,
            count,
        ),
    decreases count,
{
    if count > 0 {
        assert(0 <= (count - 1) * size && (count - 1) * size + size == count * size)
            by (nonlinear_arith)
            requires
                count >= 1,
                size > 0,
        ;
        lemma_cut_sum(f, g, part, whole, first, row, col, size, count - 1);
        lemma_cut_block(f, g, part, whole, first, row, col, size, count - 1);
    }
}

proof fn lemma_cut_real<
    F: Fn(FloatOp, u32, u32) -> u32,
    G: Fn(FormatQuery) -> Result<u64, FormatError>,
>(
    f: F,
    g: G,
    part: GemmArgs,
    whole: GemmArgs,
    first: int,
    row: int,
    col: int,
    count: int,
)
    requires
        part.w.wf(),
        is_cut(g, part, whole, first),
        0 <= col < part.w.n,
        count <= part.w.k,
        part.real_dot(f, g, row, col, count) is Ok,
        whole.real_dot(f, g, row, first + col, count) is Ok,
    ensures
        part.real_dot(f, g, row, col, count) == whole.real_dot(f, g, row, first + col, count),
    decreases count,
{
    if count > 0 {
        lemma_cut_real(f, g, part, whole, first, row, col, count - 1);
        law_block_element(g, f, part.w, whole.w, first, col, count - 1);
    }
}

/// A product with some rows of the weights has the sums of those columns of the
/// product with all rows, bit for bit, wherever both have a value.
pub proof fn law_cut_total<
    F: Fn(FloatOp, u32, u32) -> u32,
    G: Fn(FormatQuery) -> Result<u64, FormatError>,
>(
    f: F,
    g: G,
    part: GemmArgs,
    whole: GemmArgs,
    first: int,
    row: int,
    col: int,
)
    requires
        part.w.wf(),
        is_cut(g, part, whole, first),
        0 <= col < part.w.n,
        part.total(f, g, row, col) is Ok,
        whole.total(f, g, row, first + col) is Ok,
    ensures
        part.total(f, g, row, col) == whole.total(f, g, row, first + col),
{
    let size = part.block_size();
    if part.single_block() {
        assert(0 * size == 0) by (nonlinear_arith);
        lemma_cut_block(f, g, part, whole, first, row, col, size, 0);
    } else if size > 0 {
        vstd::arithmetic::div_mod::lemma_fundamental_div_mod(part.w.k, size);
        assert(part.w.k / size * size <= part.w.k) by (nonlinear_arith)
            requires
                part.w.k == size * (part.w.k / size) + part.w.k % size,
                0 <= part.w.k % size,
        ;
        lemma_cut_sum(f, g, part, whole, first, row, col, size, part.w.k / size);
    } else {
        lemma_cut_real(f, g, part, whole, first, row, col, part.w.k);
    }
}

} // verus!
