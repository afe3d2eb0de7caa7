//! Where scale records are carried, and how elements are laid out, does not
//! change what a matrix holds.
use vstd::prelude::*;
use crate::dtype::le16;
use crate::error::FormatError;
use crate::gemm_laws::{same_code, same_codes, same_record};
use crate::index::lemma_flat_bound;
use crate::ir::SchemeId;
use crate::weight::{
    answer, half_byte, le_bits, record_len, row_bytes, row_records, FormatQuery, Matrix,
};

verus! {

/// Bytes of the scale records of one row.
pub open spec fn records_size(scheme: Option<SchemeId>, k: int) -> int {
    row_records(scheme, k) * record_len(scheme)
}

/// Whether rows of elements with their scale records behind each row hold the
/// same bytes as rows of elements without and the records in row order.
pub open spec fn same_rows(
    scheme: Option<SchemeId>,
    n: int,
    k: int,
    joint: Seq<u8>,
    values: Seq<u8>,
    records: Seq<u8>,
) -> bool {
    let w = row_bytes(scheme, k);
    let r = records_size(scheme, k);
    &&& forall|row: int, i: int|
        0 <= row < n && 0 <= i < w ==> #[trigger] values[row * w + i] == joint[row * (w + r) + i]
    &&& forall|row: int, i: int|
        0 <= row < n && 0 <= i < r ==> #[trigger] records[row * r + i] == joint[row * (w + r) + (w
            + i)]
}

/// Whether one matrix carries its scale records behind each row and the other
/// the same records apart.
pub open spec fn is_carrier_pair(a: Matrix, b: Matrix) -> bool {
    &&& a.scheme is Some
    &&& a.scheme == b.scheme
    &&& a.n == b.n
    &&& a.k == b.k
    &&& !a.tiled && !b.tiled
    &&& !a.separate && b.separate
    &&& same_rows(a.scheme, a.n, a.k, a.bytes, b.bytes, b.scales)
}

/// Bytes that are the same hold the same number.
pub proof fn lemma_same_bits(s: Seq<u8>, i: int, t: Seq<u8>, j: int, len: int)
    requires
        forall|p: int| 0 <= p < len ==> #[trigger] s[i + p] == t[j + p],
    ensures
        le_bits(s, i, len) == le_bits(t, j, len),
    decreases len,
{
    if len > 0 {
        assert(s[i + 0] == t[j + 0]);
        assert forall|p: int| 0 <= p < len - 1 implies #[trigger] s[i + 1 + p] == t[j + 1 + p] by {
            assert(s[i + (p + 1)] == t[j + (p + 1)]);
        }
        lemma_same_bits(s, i + 1, t, j + 1, len - 1);
    }
}

/// A record within a row ends within the row's records.
proof fn lemma_record_end(record: int, records: int, len: int)
    requires
        0 <= record < records,
        len > 0,
    ensures
        0 <= record * len,
        record * len + len <= records * len,
{
    lemma_flat_bound(record, records, 0, len);
}

proof fn lemma_carrier_record<G: Fn(FormatQuery) -> Result<u64, FormatError>>(
    g: G,
    a: Matrix,
    b: Matrix,
    row: int,
    record: int,
)
    requires
        a.wf(),
        b.wf(),
        is_carrier_pair(a, b),
        0 <= row < a.n,
        0 <= record < row_records(a.scheme, a.k),
    ensures
        a.record_value(g, row, record) == b.record_value(g, row, record),
{
    let len = record_len(a.scheme);
    let rr = row_records(a.scheme, a.k);
    let w = row_bytes(a.scheme, a.k);
    let r = records_size(a.scheme, a.k);
    assert(same_rows(a.scheme, a.n, a.k, a.bytes, b.bytes, b.scales));
    lemma_record_end(record, rr, len);
    let i = row * (w + r) + w + record * len;
    let j = (row * rr + record) * len;
    assert(a.stride() == w + r);
    assert(j == row * r + record * len) by (nonlinear_arith)
        requires
            j == (row * rr + record) * len,
            r == rr * len,
    ;
    assert(row * (w + r) + (w + r) <= a.n * (w + r)) by (nonlinear_arith)
        requires
            row + 1 <= a.n,
            w + r >= 0,
    ;
    assert(row * r + r <= a.n * r) by (nonlinear_arith)
        requires
            row + 1 <= a.n,
            r >= 0,
    ;
    assert(a.n * r == a.n * rr * len) by (nonlinear_arith)
        requires
            r == rr * len,
    ;
    assert forall|p: int| 0 <= p < len implies #[trigger] a.bytes[i + p] == b.scales[j + p] by {
        let at = record * len + p;
        assert(0 <= at < r);
        assert(b.scales[row * r + at] == a.bytes[row * (w + r) + (w + at)]);
    }
    lemma_same_bits(a.bytes, i, b.scales, j, len);
}

/// A matrix that carries its scale records behind each row and one that carries
/// the same records apart hold the same codes and records.
pub proof fn law_carrier_pair<G: Fn(FormatQuery) -> Result<u64, FormatError>>(
    g: G,
    a: Matrix,
    b: Matrix,
)
    requires
        a.wf(),
        b.wf(),
        is_carrier_pair(a, b),
    ensures
        same_codes(g, a, b),
{
    let w = row_bytes(a.scheme, a.k);
    let r = records_size(a.scheme, a.k);
    assert forall|row: int, col: int| 0 <= row < a.n && 0 <= col < a.k implies #[trigger] same_code(
        g,
        a,
        b,
        row,
        col,
    ) by {
        assert(a.stride() == w + r);
        assert(b.stride() == w);
        if a.scheme == Some(SchemeId::I4K) {
            assert(0 <= col / 2 < w);
            assert(b.bytes[row * w + col / 2] == a.bytes[row * (w + r) + col / 2]);
        } else {
            assert(b.bytes[row * w + col] == a.bytes[row * (w + r) + col]);
        }
    }
    assert forall|row: int, record: int|
        0 <= row < a.n && 0 <= record < row_records(a.scheme, a.k) implies #[trigger] same_record(
        g,
        a,
        b,
        row,
        record,
    ) by {
        lemma_carrier_record(g, a, b, row, record);
    }
}

/// Whether a tiled matrix stores each element of another at the place that the
/// format gives for it, and each of its records.
pub open spec fn is_tiling<G: Fn(FormatQuery) -> Result<u64, FormatError>>(
    g: G,
    a: Matrix,
    b: Matrix,
) -> bool {
    &&& a.scheme == b.scheme
    &&& a.n == b.n
    &&& a.k == b.k
    &&& !a.tiled && b.tiled
    &&& forall|row: int, col: int|
        0 <= row < a.n && 0 <= col < a.k ==> #[trigger] tiles_element(g, a, b, row, col)
    &&& forall|row: int, record: int|
        0 <= row < a.n && 0 <= record < row_records(a.scheme, a.k) ==> #[trigger] tiles_record(
            g,
            a,
            b,
            row,
            record,
        )
}

/// Whether a tiled matrix stores an element of another at the place that the
/// format gives for it.
pub open spec fn tiles_element<G: Fn(FormatQuery) -> Result<u64, FormatError>>(
    g: G,
    a: Matrix,
    b: Matrix,
    row: int,
    col: int,
) -> bool {
    match answer(g, b.tile_query(row, col)) {
        Err(_) => false,
        Ok(idx) => match a.scheme {
            None => {
                let at = if a.transposed {
                    col * a.n + row
                } else {
                    row * a.k + col
                };
                &&& idx * 2 + 2 <= b.bytes.len() <= usize::MAX
                &&& le16(b.bytes, idx * 2) == le16(a.bytes, at * 2)
            },
            Some(SchemeId::I4K) => {
                &&& idx / 2 < b.bytes.len() <= usize::MAX
                &&& half_byte(b.bytes[idx as int / 2], idx as int) == half_byte(
                    a.bytes[row * a.stride() + col / 2],
                    col,
                )
            },
            Some(_) => {
                &&& idx < b.bytes.len() <= usize::MAX
                &&& b.bytes[idx as int] == a.bytes[row * a.stride() + col]
            },
        },
    }
}

/// Whether a tiled matrix stores a scale record of another at the place that the
/// format gives for it.
pub open spec fn tiles_record<G: Fn(FormatQuery) -> Result<u64, FormatError>>(
    g: G,
    a: Matrix,
    b: Matrix,
    row: int,
    record: int,
) -> bool {
    let len = record_len(a.scheme);
    match (a.record_place(g, row, record), b.record_place(g, row, record)) {
        (Ok(i), Ok(j)) => {
            &&& i + len <= a.record_bytes().len()
            &&& j + len <= b.record_bytes().len()
            &&& forall|p: int|
                0 <= p < len ==> #[trigger] a.record_bytes()[i + p] == b.record_bytes()[j + p]
        },
        _ => false,
    }
}

/// A matrix and its tiling hold the same codes and records.
pub proof fn law_tiling_pair<G: Fn(FormatQuery) -> Result<u64, FormatError>>(
    g: G,
    a: Matrix,
    b: Matrix,
)
    requires
        is_tiling(g, a, b),
    ensures
        same_codes(g, a, b),
{
    assert forall|row: int, col: int| 0 <= row < a.n && 0 <= col < a.k implies #[trigger] same_code(
        g,
        a,
        b,
        row,
        col,
    ) by {
        assert(tiles_element(g, a, b, row, col));
    }
    assert forall|row: int, record: int|
        0 <= row < a.n && 0 <= record < row_records(a.scheme, a.k) implies #[trigger] same_record(
        g,
        a,
        b,
        row,
        record,
    ) by {
        assert(tiles_record(g, a, b, row, record));
        let i = a.record_place(g, row, record)->Ok_0;
        let j = b.record_place(g, row, record)->Ok_0;
        lemma_same_bits(a.record_bytes(), i, b.record_bytes(), j, record_len(a.scheme));
    }
}

} // verus!
