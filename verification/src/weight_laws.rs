//! Where the codes and scales of weights in rows lie.
use vstd::prelude::*;
use crate::arith::{fp, FloatOp};
use crate::dtype::f32_of_int;
use crate::error::FormatError;
use crate::ir::SchemeId;
use crate::weight::{answer32, le_bits, FormatQuery, Matrix};

verus! {

/// Bytes of the codes of a row.
pub open spec fn code_bytes(m: Matrix) -> int {
    match m.scheme {
        None => 2 * m.k,
        Some(SchemeId::I4K) => m.k / 2,
        _ => m.k,
    }
}

/// Scale records of a row, and the bytes of each: one of two bytes for a row, one
/// of two bytes for 128 columns, or one of 16 bytes for 256 columns.
pub open spec fn row_scales(m: Matrix) -> (int, int) {
    match m.scheme {
        None => (0, 2),
        Some(SchemeId::I4K) => (m.k / 256, 16),
        Some(SchemeId::I8B128) => (m.k / 128, 2),
        Some(SchemeId::E4M3B128) => (m.k / 128, 2),
        _ => (1, 2),
    }
}

/// First byte of a row: rows follow each other, each with its scale records
/// behind its codes unless they are kept apart.
pub open spec fn row_start(m: Matrix, row: int) -> int {
    row * (code_bytes(m) + if m.separate {
        0
    } else {
        row_scales(m).0 * row_scales(m).1
    })
}

/// First byte of a scale record, where the records are.
pub open spec fn record_start(m: Matrix, row: int, record: int) -> int {
    if m.separate {
        (row * row_scales(m).0 + record) * row_scales(m).1
    } else {
        row_start(m, row) + code_bytes(m) + record * row_scales(m).1
    }
}

/// Bits of 16 bytes, the first lowest.
pub open spec fn header_bits(s: Seq<u8>, at: int) -> int {
    s[at] + 0x100 * s[at + 1] + 0x1_0000 * s[at + 2] + 0x100_0000 * s[at + 3] + 0x1_0000_0000
        * s[at + 4] + 0x100_0000_0000 * s[at + 5] + 0x1_0000_0000_0000 * s[at + 6]
        + 0x100_0000_0000_0000 * s[at + 7] + 0x1_0000_0000_0000_0000 * (s[at + 8] + 0x100 * s[at
        + 9] + 0x1_0000 * s[at + 10] + 0x100_0000 * s[at + 11] + 0x1_0000_0000 * s[at + 12]
        + 0x100_0000_0000 * s[at + 13] + 0x1_0000_0000_0000 * s[at + 14] + 0x100_0000_0000_0000
        * s[at + 15])
}

/// Weights that lie in rows hold one byte per column, or one nibble with the even
/// column in the lower half, or two bytes with the lower first; half-precision
/// weights may lie by columns instead.
pub proof fn law_row_codes<G: Fn(FormatQuery) -> Result<u64, FormatError>>(
    g: G,
    m: Matrix,
    row: int,
    col: int,
)
    requires
        !m.tiled,
        0 <= row < m.n,
        0 <= col < m.k,
    ensures
        m.scheme is Some ==> m.byte_value(g, row, col) == Ok::<u8, crate::error::ErrorView>(
            m.bytes[row_start(m, row) + col],
        ),
        m.scheme == Some(SchemeId::I4K) ==> m.nibble_value(g, row, col) == Ok::<
            u8,
            crate::error::ErrorView,
        >(
            if col % 2 == 0 {
                (m.bytes[row_start(m, row) + col / 2] % 16) as u8
            } else {
                (m.bytes[row_start(m, row) + col / 2] / 16) as u8
            },
        ),
        m.scheme is None ==> ({
            let at = 2 * if m.transposed {
                col * m.n + row
            } else {
                row * m.k + col
            };
            m.half_value(g, row, col) == Ok::<u16, crate::error::ErrorView>(
                (m.bytes[at] + 0x100 * m.bytes[at + 1]) as u16,
            )
        }),
{
}

/// Scale records of weights in rows stand behind the codes of their row, or row by
/// row apart from the codes, the lower byte first.
pub proof fn law_row_records<G: Fn(FormatQuery) -> Result<u64, FormatError>>(
    g: G,
    m: Matrix,
    row: int,
    record: int,
)
    requires
        !m.tiled,
        m.scheme is Some,
        0 <= row < m.n,
        0 <= record < row_scales(m).0,
        ({
            let bytes = if m.separate {
                m.scales
            } else {
                m.bytes
            };
            record_start(m, row, record) + row_scales(m).1 <= bytes.len()
        }),
    ensures
        ({
            let bytes = if m.separate {
                m.scales
            } else {
                m.bytes
            };
            let at = record_start(m, row, record);
            &&& m.scheme != Some(SchemeId::I4K) ==> m.record_value(g, row, record) == Ok::<
                u128,
                crate::error::ErrorView,
            >((bytes[at] + 0x100 * bytes[at + 1]) as u128)
            &&& m.scheme == Some(SchemeId::I4K) ==> m.record_value(g, row, record) == Ok::<
                u128,
                crate::error::ErrorView,
            >(header_bits(bytes, at) as u128)
        }),
{
    let bytes = if m.separate {
        m.scales
    } else {
        m.bytes
    };
    let at = record_start(m, row, record);
    assert(m.record_bytes() == bytes);
    assert(m.record_place(g, row, record) == Ok::<int, crate::error::ErrorView>(at));
    lemma_le_two(bytes, at);
    lemma_le_sixteen(bytes, at);
}

proof fn lemma_le_two(s: Seq<u8>, at: int)
    ensures
        le_bits(s, at, 2) == s[at] + 0x100 * s[at + 1],
{
    reveal_with_fuel(le_bits, 3);
}

proof fn lemma_le_sixteen(s: Seq<u8>, at: int)
    ensures
        le_bits(s, at, 16) == header_bits(s, at),
{
    reveal_with_fuel(le_bits, 17);
}

/// The parts of a header: eight parts of 32 columns share a record, and each has
/// a scale and a minimum that are its own numbers times those of the record.
pub proof fn law_header_parts<
    F: Fn(FloatOp, u32, u32) -> u32,
    G: Fn(FormatQuery) -> Result<u64, FormatError>,
>(f: F, g: G, m: Matrix, row: int, part: int, bits: u128)
    requires
        0 <= part,
        m.part_value(f, g, row, part) is Ok,
        m.record_value(g, row, part / 8) == Ok::<u128, crate::error::ErrorView>(bits),
    ensures
        ({
            let record = (part / 8) as u64;
            let p = (part % 8) as u8;
            let d = answer32(g, FormatQuery::HeaderScale { bits, index: record })->Ok_0;
            let least = answer32(g, FormatQuery::HeaderMin { bits, index: record })->Ok_0;
            let s = answer32(g, FormatQuery::PartScale { bits, part: p })->Ok_0;
            let n = answer32(g, FormatQuery::PartMin { bits, part: p })->Ok_0;
            m.part_value(f, g, row, part)->Ok_0 == (
                fp(f, FloatOp::Times, d, f32_of_int(s as int)),
                fp(f, FloatOp::Times, least, f32_of_int(n as int)),
            )
        }),
{
}

} // verus!
