//! Doubles in tensors.
use vstd::prelude::*;
use crate::buffer::{
    extent, Cells, TensorData, TensorDataMut, TensorView, TensorViewMut, TypedBuffer,
};
use crate::double::{dp, is_double, reckon, widen, widened, DoubleOp};
use crate::dtype::{byte_len, f32_in_bytes, read_f32_at};
use crate::fixtures::{bytes_f16_to_f32, raw_half};
use crate::ir::DType;

verus! {

/// Element of a storage as a double.
pub open spec fn f64_at<E: Fn(DoubleOp, u64, u64) -> u64>(e: E, cells: Cells, i: int) -> u64 {
    match cells {
        Cells::U32(s) => dp(e, DoubleOp::Whole, s[i] as u64, 0),
        _ => widened(e, cells.f32_at(i)),
    }
}

/// The single nearest to a double.
pub open spec fn narrowed<E: Fn(DoubleOp, u64, u64) -> u64>(e: E, v: u64) -> u32 {
    (dp(e, DoubleOp::Narrow, v, 0) % 0x1_0000_0000) as u32
}

/// Reads an element of raw storage as a double.
pub fn read_f64_at<E: Fn(DoubleOp, u64, u64) -> u64>(
    e: &E,
    dtype: DType,
    slice: &[u8],
    index: usize,
) -> (r: u64)
    requires
        is_double(*e),
        byte_len(dtype, index + 1) <= slice@.len(),
    ensures
        r == widened(*e, f32_in_bytes(dtype, slice@, index as int)),
{
    widen(e, read_f32_at(dtype, slice, index))
}

impl<'a> TensorView<'a> {
    /// Reads an element as a double.
    pub fn read_f64<E: Fn(DoubleOp, u64, u64) -> u64>(&self, e: &E, index: usize) -> (r: u64)
        requires
            is_double(*e),
            self@.cells.holds(index as int),
        ensures
            r == f64_at(*e, self@.cells, index as int),
    {
        match self.data {
            TensorData::U32(slice) => reckon(e, DoubleOp::Whole, slice[index] as u64, 0),
            _ => widen(e, self.read_f32(index)),
        }
    }
}

impl<'a> TensorViewMut<'a> {
    /// Reads an element as a double.
    pub fn read_f64<E: Fn(DoubleOp, u64, u64) -> u64>(&self, e: &E, index: usize) -> (r: u64)
        requires
            is_double(*e),
            self@.cells.holds(index as int),
        ensures
            r == f64_at(*e, self@.cells, index as int),
    {
        match &self.data {
            TensorDataMut::U32(slice) => reckon(e, DoubleOp::Whole, slice[index] as u64, 0),
            _ => widen(e, self.read_f32(index)),
        }
    }

    /// Writes a double to an element: it is rounded to a single, which is
    /// converted to the element type.
    pub fn write_f64<E: Fn(DoubleOp, u64, u64) -> u64>(&mut self, e: &E, index: usize, val: u64)
        requires
            is_double(*e),
            old(self)@.cells.holds(index as int),
        ensures
            final(self)@ == old(self)@.with_cells(
                old(self)@.cells.with_f32(index as int, narrowed(*e, val)),
            ),
            match (old(self).data, final(self).data) {
                (TensorDataMut::F32(a), TensorDataMut::F32(b)) => {
                    a@.len() == b@.len() && (*final(a))@ == (*final(b))@
                },
                (TensorDataMut::F16(a), TensorDataMut::F16(b)) => {
                    a@.len() == b@.len() && (*final(a))@ == (*final(b))@
                },
                (TensorDataMut::Bf16(a), TensorDataMut::Bf16(b)) => {
                    a@.len() == b@.len() && (*final(a))@ == (*final(b))@
                },
                (TensorDataMut::I8(a), TensorDataMut::I8(b)) => {
                    a@.len() == b@.len() && (*final(a))@ == (*final(b))@
                },
                (TensorDataMut::U32(a), TensorDataMut::U32(b)) => {
                    a@.len() == b@.len() && (*final(a))@ == (*final(b))@
                },
                (TensorDataMut::Bytes(d, a), TensorDataMut::Bytes(e, b)) => {
                    d == e && a@.len() == b@.len() && (*final(a))@ == (*final(b))@
                },
                _ => false,
            },
    {
        let bits: u64 = reckon(e, DoubleOp::Narrow, val, 0);
        self.write_f32(index, (bits % 0x1_0000_0000) as u32);
    }
}

fn widen_all<E: Fn(DoubleOp, u64, u64) -> u64>(e: &E, values: &Vec<u32>) -> (r: Vec<u64>)
    requires
        is_double(*e),
    ensures
        r@ == Seq::new(values@.len(), |i: int| widened(*e, values@[i])),
{
    let mut out: Vec<u64> = Vec::new();
    for i in 0..values.len()
        invariant
            is_double(*e),
            out@ =~= Seq::new(i as nat, |i: int| widened(*e, values@[i])),
    {
        out.push(widen(e, values[i]));
    }
    out
}

/// Elements of a buffer as doubles.
pub fn buffer_to_f64<E: Fn(DoubleOp, u64, u64) -> u64>(e: &E, buf: &TypedBuffer) -> (r: Vec<u64>)
    requires
        is_double(*e),
        buf.all_readable(),
    ensures
        r@ == Seq::new(
            buf@.count() as nat,
            |i: int| widened(*e, buf@.cells.f32_at(i)),
        ),
{
    let values = buf.to_f32_vec();
    let out = widen_all(e, &values);
    assert(out@ =~= Seq::new(
        buf@.count() as nat,
        |i: int| widened(*e, buf@.cells.f32_at(i)),
    ));
    out
}

/// Decodes raw half-precision storage.
pub fn bytes_f16_to_f64<E: Fn(DoubleOp, u64, u64) -> u64>(e: &E, buf: &TypedBuffer) -> (r: Vec<u64>)
    requires
        is_double(*e),
        extent(buf.shape@) is Some,
    ensures
        r@ == Seq::new(
            extent(buf.shape@)->0 as nat,
            |i: int| widened(*e, raw_half(buf.byte_data@, i)),
        ),
{
    let values = bytes_f16_to_f32(buf);
    let out = widen_all(e, &values);
    assert(out@ =~= Seq::new(
        extent(buf.shape@)->0 as nat,
        |i: int| widened(*e, raw_half(buf.byte_data@, i)),
    ));
    out
}

} // verus!
