//! Tensor storage: borrowed views and owned buffers.
//!
//! Singles are stored by their bits. [`Cells`] and [`Tensor`] are the values
//! that the contracts speak of.
use vstd::prelude::*;
use crate::dtype::{
    bf16_of, bf16_to_f32, bits_as_i32, byte_as_i8, byte_len, dtype_element_size, element_size,
    f16_of, f16_to_f32, f32_in_bytes, f32_of_bf16, f32_of_f16, f32_of_int, f32_to_bf16, f32_to_f16,
    f32_to_i8, f32_to_int, f32_to_u32, fp8_e4m3_decode, fp8_e4m3_encode, fp8_e5m2_decode,
    fp8_e5m2_encode, i32_to_f32, i8_as_byte, i8_of, int_of_f32, le16, le32, lemma_put_le32,
    put_f32, put_le16, put_le32, read_f32_at, read_le16, read_le32, signed_byte, u32_of,
    u32_to_f32, unsigned_byte, write_f32_at, write_le16, write_le32,
};
use crate::error::{outcome, to_vec, Arg, Detail, ErrorView, T0Error};
use crate::error::{quoting, quoting_shape};
use crate::ir::{DType, LayoutId, QuantScheme};

verus! {

/// Contents of a tensor's storage.
#[verifier::ext_equal]
pub enum Cells {
    /// Singles, by their bits.
    F32(Seq<u32>),
    /// Half-precision codes.
    F16(Seq<u16>),
    /// bfloat16 codes.
    Bf16(Seq<u16>),
    /// Signed bytes.
    I8(Seq<i8>),
    /// Unsigned 32-bit integers.
    U32(Seq<u32>),
    /// Raw bytes of elements of the given type.
    Bytes(DType, Seq<u8>),
}

impl Cells {
    /// Element type.
    pub open spec fn dtype(self) -> DType {
        match self {
            Cells::F32(_) => DType::F32,
            Cells::F16(_) => DType::F16,
            Cells::Bf16(_) => DType::Bf16,
            Cells::I8(_) => DType::I8,
            Cells::U32(_) => DType::U32,
            Cells::Bytes(dtype, _) => dtype,
        }
    }

    /// Length in elements, or in bytes for raw storage.
    pub open spec fn len(self) -> nat {
        match self {
            Cells::F32(s) => s.len(),
            Cells::F16(s) => s.len(),
            Cells::Bf16(s) => s.len(),
            Cells::I8(s) => s.len(),
            Cells::U32(s) => s.len(),
            Cells::Bytes(_, s) => s.len(),
        }
    }

    /// Length that `n` elements need.
    pub open spec fn required(self, n: int) -> int {
        match self {
            Cells::Bytes(dtype, _) => byte_len(dtype, n),
            _ => n,
        }
    }

    /// The storage, or raw storage without bytes if it is empty.
    pub open spec fn or_empty(self) -> Cells {
        if self.len() > 0 {
            self
        } else {
            Cells::Bytes(self.dtype(), Seq::empty())
        }
    }

    /// Whether the storage has an `i`-th element.
    pub open spec fn holds(self, i: int) -> bool {
        0 <= i && self.required(i + 1) <= self.len()
    }

    /// Bits of the single that the `i`-th element stands for.
    pub open spec fn f32_at(self, i: int) -> u32 {
        match self {
            Cells::F32(s) => s[i],
            Cells::F16(s) => f32_of_f16(s[i]),
            Cells::Bf16(s) => f32_of_bf16(s[i]),
            Cells::I8(s) => f32_of_int(s[i] as int),
            Cells::U32(s) => f32_of_int(s[i] as int),
            Cells::Bytes(dtype, s) => f32_in_bytes(dtype, s, i),
        }
    }

    /// The storage with its `i`-th element set to a single, converted to the
    /// element type.
    pub open spec fn with_f32(self, i: int, v: u32) -> Cells {
        match self {
            Cells::F32(s) => Cells::F32(s.update(i, v)),
            Cells::F16(s) => Cells::F16(s.update(i, f16_of(v))),
            Cells::Bf16(s) => Cells::Bf16(s.update(i, bf16_of(v))),
            Cells::I8(s) => Cells::I8(s.update(i, i8_of(v))),
            Cells::U32(s) => Cells::U32(s.update(i, u32_of(v))),
            Cells::Bytes(dtype, s) => Cells::Bytes(dtype, put_f32(dtype, s, i, v)),
        }
    }

    /// The storage with its first elements set to the given singles in order.
    pub open spec fn with_f32s(self, values: Seq<u32>) -> Cells
        decreases values.len(),
    {
        if values.len() == 0 {
            self
        } else {
            self.with_f32s(values.drop_last()).with_f32(values.len() - 1, values.last())
        }
    }
}

impl Cells {
    /// Bit pattern of the `i`-th element, for elements of whole bytes.
    pub open spec fn raw_at(self, i: int) -> u32 {
        match self {
            Cells::F32(s) => s[i],
            Cells::F16(s) => s[i] as u32,
            Cells::Bf16(s) => s[i] as u32,
            Cells::I8(s) => i8_as_byte(s[i]) as u32,
            Cells::U32(s) => s[i],
            Cells::Bytes(dtype, s) => if element_size(dtype) == 4 {
                le32(s, i * 4)
            } else if element_size(dtype) == 2 {
                le16(s, i * 2) as u32
            } else {
                s[i] as u32
            },
        }
    }

    /// The storage with the bit pattern of its `i`-th element replaced.
    pub open spec fn with_raw(self, i: int, bits: u32) -> Cells {
        match self {
            Cells::F32(s) => Cells::F32(s.update(i, bits)),
            Cells::F16(s) => Cells::F16(s.update(i, bits as u16)),
            Cells::Bf16(s) => Cells::Bf16(s.update(i, bits as u16)),
            Cells::I8(s) => Cells::I8(s.update(i, byte_as_i8(bits as u8))),
            Cells::U32(s) => Cells::U32(s.update(i, bits)),
            Cells::Bytes(dtype, s) => Cells::Bytes(
                dtype,
                if element_size(dtype) == 4 {
                    put_le32(s, i * 4, bits)
                } else if element_size(dtype) == 2 {
                    put_le16(s, i * 2, bits as u16)
                } else {
                    s.update(i, bits as u8)
                },
            ),
        }
    }

    /// Whether two storages hold their elements in the same way.
    pub open spec fn same_backing(self, other: Cells) -> bool {
        match (self, other) {
            (Cells::F32(_), Cells::F32(_)) => true,
            (Cells::F16(_), Cells::F16(_)) => true,
            (Cells::Bf16(_), Cells::Bf16(_)) => true,
            (Cells::I8(_), Cells::I8(_)) => true,
            (Cells::U32(_), Cells::U32(_)) => true,
            (Cells::Bytes(a, _), Cells::Bytes(b, _)) => a == b,
            _ => false,
        }
    }
}

/// Elements of one type with equal bits stand for one number.
pub proof fn lemma_raw_value(c: Cells, i: int, d: Cells, k: int)
    requires
        c.dtype() == d.dtype(),
        c.dtype() != DType::I4,
        c.raw_at(i) == d.raw_at(k),
    ensures
        c.f32_at(i) == d.f32_at(k),
{
    if c.dtype() == DType::I8 {
        let a = match c {
            Cells::I8(s) => s[i],
            Cells::Bytes(_, s) => byte_as_i8(s[i]),
            _ => 0,
        };
        let b = match d {
            Cells::I8(s) => s[k],
            Cells::Bytes(_, s) => byte_as_i8(s[k]),
            _ => 0,
        };
        assert(a == b);
    }
}

proof fn lemma_put_words(s: Seq<u8>, i: int, v: u32)
    requires
        0 <= i,
        i * 4 + 4 <= s.len(),
    ensures
        put_le32(s, i * 4, v).len() == s.len(),
        le32(put_le32(s, i * 4, v), i * 4) == v,
        forall|j: int|
            j != i && 0 <= j && j * 4 + 4 <= s.len() ==> #[trigger] le32(
                put_le32(s, i * 4, v),
                j * 4,
            ) == le32(s, j * 4),
{
}

proof fn lemma_put_halves(s: Seq<u8>, i: int, v: u16)
    requires
        0 <= i,
        i * 2 + 2 <= s.len(),
    ensures
        put_le16(s, i * 2, v).len() == s.len(),
        le16(put_le16(s, i * 2, v), i * 2) == v,
        forall|j: int|
            j != i && 0 <= j && j * 2 + 2 <= s.len() ==> #[trigger] le16(
                put_le16(s, i * 2, v),
                j * 2,
            ) == le16(s, j * 2),
{
}

/// Replacing the bits of an element leaves the form of the storage and its
/// other elements unchanged, and gives those bits back, if the bits come from
/// storage of the same type.
pub proof fn lemma_with_raw(c: Cells, i: int, src: Cells, k: int)
    requires
        c.dtype() == src.dtype(),
        c.dtype() != DType::I4,
        c.holds(i),
    ensures
        c.with_raw(i, src.raw_at(k)).same_backing(c),
        c.with_raw(i, src.raw_at(k)).len() == c.len(),
        c.with_raw(i, src.raw_at(k)).raw_at(i) == src.raw_at(k),
        forall|j: int|
            #![trigger c.with_raw(i, src.raw_at(k)).raw_at(j)]
            j != i && c.holds(j) ==> c.with_raw(i, src.raw_at(k)).raw_at(j) == c.raw_at(j),
{
    let bits = src.raw_at(k);
    match c {
        Cells::Bytes(dtype, s) => {
            if element_size(dtype) == 4 {
                lemma_put_words(s, i, bits);
            } else if element_size(dtype) == 2 {
                assert(bits <= 0xFFFF);
                lemma_put_halves(s, i, bits as u16);
            } else {
                assert(bits <= 0xFF);
            }
        },
        _ => {},
    }
}

/// Storages of one form hold the same elements.
pub proof fn lemma_same_backing(a: Cells, b: Cells, n: int)
    requires
        a.same_backing(b),
        a.len() == b.len(),
    ensures
        a.dtype() == b.dtype(),
        a.required(n) == b.required(n),
        a.holds(n) == b.holds(n),
{
}

/// Writing an element changes neither the type nor the length of the storage.
pub broadcast proof fn lemma_with_f32_shape(c: Cells, i: int, v: u32)
    requires
        c.holds(i),
    ensures
        #![trigger c.with_f32(i, v)]
        c.with_f32(i, v).dtype() == c.dtype(),
        c.with_f32(i, v).len() == c.len(),
        forall|n: int| #[trigger] c.with_f32(i, v).required(n) == c.required(n),
{
}

/// Writing elements changes neither the type nor the length of the storage.
pub broadcast proof fn lemma_with_f32s_shape(c: Cells, values: Seq<u32>)
    requires
        c.required(values.len() as int) <= c.len(),
    ensures
        #![trigger c.with_f32s(values)]
        c.with_f32s(values).dtype() == c.dtype(),
        c.with_f32s(values).len() == c.len(),
        forall|n: int| #[trigger] c.with_f32s(values).required(n) == c.required(n),
    decreases values.len(),
{
    if values.len() > 0 {
        lemma_with_f32s_shape(c, values.drop_last());
        let before = c.with_f32s(values.drop_last());
        assert(before.required(values.len() as int) == c.required(values.len() as int));
        lemma_with_f32_shape(before, values.len() - 1, values.last());
        assert forall|n: int| #[trigger] c.with_f32s(values).required(n) == c.required(n) by {
            assert(before.required(n) == c.required(n));
        }
    }
}

/// Number of elements of a shape, unless a partial product exceeds the machine's
/// size type.
pub open spec fn extent(shape: Seq<usize>) -> Option<usize>
    decreases shape.len(),
{
    if shape.len() == 0 {
        Some(1)
    } else {
        match extent(shape.drop_last()) {
            None => None,
            Some(p) => if p * shape.last() > usize::MAX {
                None
            } else {
                Some((p * shape.last()) as usize)
            },
        }
    }
}

/// Value of a tensor operand, without its scales.
#[verifier::ext_equal]
pub struct Tensor {
    /// Extents of the dimensions.
    pub shape: Seq<usize>,
    /// Contents.
    pub cells: Cells,
    /// Quantization scheme.
    pub quant: QuantScheme,
    /// Storage layout.
    pub layout: LayoutId,
}

impl Tensor {
    /// Number of dimensions.
    pub open spec fn rank(self) -> int {
        self.shape.len() as int
    }

    /// Element type.
    pub open spec fn dtype(self) -> DType {
        self.cells.dtype()
    }

    /// Number of elements.
    pub open spec fn count(self) -> int {
        extent(self.shape)->0 as int
    }

    /// Whether the shape has a number of elements and the storage has room for
    /// them.
    pub open spec fn backed(self) -> bool {
        extent(self.shape) is Some && self.cells.required(self.count()) <= self.cells.len()
            && self.cells.len() <= usize::MAX
    }

    /// The error that a storage too short for the shape gives.
    pub open spec fn backing_fault(self, tensor: &'static str) -> Option<ErrorView> {
        let (short, expected) = match extent(self.shape) {
            None => (true, usize::MAX),
            Some(n) => {
                let need = self.cells.required(n as int);
                if need > usize::MAX {
                    (true, usize::MAX)
                } else {
                    (self.cells.len() < need, need as usize)
                }
            },
        };
        if short {
            Some(
                ErrorView::BufferLengthMismatch {
                    tensor,
                    buffer_len: self.cells.len() as usize,
                    expected_len: expected,
                    shape: self.shape,
                },
            )
        } else {
            None
        }
    }

    /// The tensor with other contents.
    pub open spec fn with_cells(self, cells: Cells) -> Tensor {
        Tensor { cells, ..self }
    }

    /// Result of reading the `i`-th element as an unsigned integer.
    pub open spec fn u32_result(self, i: int, tensor: &'static str) -> Result<u32, ErrorView> {
        let short = |end: int|
            Err(
                ErrorView::BufferLengthMismatch {
                    tensor,
                    buffer_len: self.cells.len() as usize,
                    expected_len: end as usize,
                    shape: self.shape,
                },
            );
        match self.cells {
            Cells::U32(s) => if i < s.len() {
                Ok(s[i])
            } else {
                short(i + 1)
            },
            Cells::Bytes(DType::U32, s) => if i * 4 > usize::MAX {
                Err(
                    ErrorView::ArithmeticOverflow {
                        op: "read_u32",
                        detail: quoting("index {} * 4 overflows usize", seq![Arg::Int(i as u64)]),
                    },
                )
            } else if i * 4 + 4 > usize::MAX {
                Err(
                    ErrorView::ArithmeticOverflow {
                        op: "read_u32",
                        detail: quoting(
                            "byte range end for index {} overflows usize",
                            seq![Arg::Int(i as u64)],
                        ),
                    },
                )
            } else if i * 4 + 4 <= s.len() {
                Ok(le32(s, i * 4))
            } else {
                short(i * 4 + 4)
            },
            _ => Ok(int_of_f32(self.cells.f32_at(i), false, 0, 0xFFFF_FFFF) as u32),
        }
    }

    /// The `i`-th element as an unsigned integer.
    pub open spec fn u32_at(self, i: int) -> u32 {
        self.u32_result(i, "tensor")->Ok_0
    }

    /// The `i`-th raw byte, or the element as a byte for typed storage.
    pub open spec fn byte_at(self, i: int) -> u8 {
        match self.cells {
            Cells::Bytes(_, s) => s[i],
            Cells::I8(s) => i8_as_byte(s[i]),
            _ => int_of_f32(self.cells.f32_at(i), false, 0, 255) as u8,
        }
    }

    /// The `i`-th element as a signed byte.
    pub open spec fn i8_at(self, i: int) -> i8 {
        match self.cells {
            Cells::I8(s) => s[i],
            Cells::Bytes(DType::I8, s) => byte_as_i8(s[i]),
            _ => int_of_f32(self.cells.f32_at(i), false, -128, 127) as i8,
        }
    }
}

/// A tensor whose storage has room for its shape holds each of its elements.
pub proof fn lemma_backed_holds(t: Tensor, i: int)
    requires
        t.backed(),
        0 <= i < t.count(),
    ensures
        t.cells.holds(i),
{
}

/// The extent of a shape of rank one.
pub proof fn lemma_extent1(s: Seq<usize>)
    requires
        s.len() == 1,
    ensures
        extent(s) == Some(s[0]),
{
    reveal_with_fuel(extent, 2);
    assert(s.drop_last().len() == 0);
}

/// The extent of a shape of rank two.
pub proof fn lemma_extent2(s: Seq<usize>)
    requires
        s.len() == 2,
    ensures
        s[0] * s[1] <= usize::MAX ==> extent(s) == Some((s[0] * s[1]) as usize),
        s[0] * s[1] > usize::MAX ==> extent(s) is None,
{
    lemma_extent1(s.drop_last());
}

/// The extent of a shape of rank three.
pub proof fn lemma_extent3(s: Seq<usize>)
    requires
        s.len() == 3,
        extent(s) is Some,
    ensures
        s[0] * s[1] <= usize::MAX,
        extent(s)->0 == s[0] * s[1] * s[2],
{
    lemma_extent2(s.drop_last());
}

/// The extent of a shape of rank four.
pub proof fn lemma_extent4(s: Seq<usize>)
    requires
        s.len() == 4,
        extent(s) is Some,
    ensures
        s[0] * s[1] <= usize::MAX,
        s[0] * s[1] * s[2] <= usize::MAX,
        extent(s)->0 == s[0] * s[1] * s[2] * s[3],
{
    lemma_extent3(s.drop_last());
}

/// Number of elements of a shape, unless a partial product overflows.
pub fn shape_extent(shape: &[usize]) -> (r: Option<usize>)
    ensures
        r == extent(shape@),
{
    let mut n: usize = 1;
    for i in 0..shape.len()
        invariant
            extent(shape@.take(i as int)) == Some(n),
    {
        assert(shape@.take(i + 1).drop_last() =~= shape@.take(i as int));
        assert(shape@.take(i + 1).last() == shape@[i as int]);
        match n.checked_mul(shape[i]) {
            Some(m) => {
                n = m;
            },
            None => {
                proof {
                    lemma_extent_prefix(shape@, i + 1);
                }
                return None;
            },
        }
    }
    assert(shape@.take(shape@.len() as int) =~= shape@);
    Some(n)
}

/// A shape has no extent if one of its prefixes has none.
proof fn lemma_extent_prefix(shape: Seq<usize>, n: int)
    requires
        0 <= n <= shape.len(),
        extent(shape.take(n)) is None,
    ensures
        extent(shape) is None,
    decreases shape.len() - n,
{
    if n == shape.len() {
        assert(shape.take(n) =~= shape);
    } else {
        assert(shape.take(n + 1).drop_last() =~= shape.take(n));
        lemma_extent_prefix(shape, n + 1);
    }
}

/// Borrowed storage of a tensor.
#[derive(Debug)]
pub enum TensorData<'a> {
    /// Singles, by their bits.
    F32(&'a [u32]),
    /// Half-precision codes.
    F16(&'a [u16]),
    /// bfloat16 codes.
    Bf16(&'a [u16]),
    /// Signed bytes.
    I8(&'a [i8]),
    /// Unsigned 32-bit integers.
    U32(&'a [u32]),
    /// Raw bytes of elements of the given type.
    Bytes(DType, &'a [u8]),
}

impl<'a> View for TensorData<'a> {
    type V = Cells;

    open spec fn view(&self) -> Cells {
        match self {
            TensorData::F32(s) => Cells::F32(s@),
            TensorData::F16(s) => Cells::F16(s@),
            TensorData::Bf16(s) => Cells::Bf16(s@),
            TensorData::I8(s) => Cells::I8(s@),
            TensorData::U32(s) => Cells::U32(s@),
            TensorData::Bytes(dtype, s) => Cells::Bytes(*dtype, s@),
        }
    }
}

impl<'a> Clone for TensorData<'a> {
    fn clone(&self) -> (r: Self)
        ensures
            r == *self,
    {
        match self {
            TensorData::F32(s) => TensorData::F32(*s),
            TensorData::F16(s) => TensorData::F16(*s),
            TensorData::Bf16(s) => TensorData::Bf16(*s),
            TensorData::I8(s) => TensorData::I8(*s),
            TensorData::U32(s) => TensorData::U32(*s),
            TensorData::Bytes(dtype, s) => TensorData::Bytes(*dtype, *s),
        }
    }
}

/// Mutably borrowed storage of a tensor.
#[derive(Debug)]
pub enum TensorDataMut<'a> {
    /// Singles, by their bits.
    F32(&'a mut [u32]),
    /// Half-precision codes.
    F16(&'a mut [u16]),
    /// bfloat16 codes.
    Bf16(&'a mut [u16]),
    /// Signed bytes.
    I8(&'a mut [i8]),
    /// Unsigned 32-bit integers.
    U32(&'a mut [u32]),
    /// Raw bytes of elements of the given type.
    Bytes(DType, &'a mut [u8]),
}

impl<'a> View for TensorDataMut<'a> {
    type V = Cells;

    open spec fn view(&self) -> Cells {
        match self {
            TensorDataMut::F32(s) => Cells::F32(s@),
            TensorDataMut::F16(s) => Cells::F16(s@),
            TensorDataMut::Bf16(s) => Cells::Bf16(s@),
            TensorDataMut::I8(s) => Cells::I8(s@),
            TensorDataMut::U32(s) => Cells::U32(s@),
            TensorDataMut::Bytes(dtype, s) => Cells::Bytes(*dtype, s@),
        }
    }
}

/// Read-only view of a tensor.
#[derive(Debug)]
pub struct TensorView<'a> {
    /// Extents of the dimensions.
    pub shape: Vec<usize>,
    /// Storage.
    pub data: TensorData<'a>,
    /// Quantization scheme.
    pub quant: QuantScheme,
    /// Storage layout.
    pub layout: LayoutId,
    /// Scales that travel with the tensor.
    pub scale: Option<Box<TensorView<'a>>>,
}

impl<'a> View for TensorView<'a> {
    type V = Tensor;

    open spec fn view(&self) -> Tensor {
        Tensor {
            shape: self.shape@,
            cells: self.data@,
            quant: self.quant,
            layout: self.layout,
        }
    }
}

/// Whether two views have the same value, and so have their scales.
pub open spec fn alike(a: TensorView<'_>, b: TensorView<'_>) -> bool
    decreases a,
{
    &&& a@ == b@
    &&& match (a.scale, b.scale) {
        (Some(x), Some(y)) => alike(*x, *y),
        (None, None) => true,
        _ => false,
    }
}

impl<'a> Clone for TensorView<'a> {
    fn clone(&self) -> (r: Self)
        ensures
            alike(*self, r),
        decreases self,
    {
        let scale = match &self.scale {
            Some(b) => Some(Box::new((&**b).clone())),
            None => None,
        };
        TensorView {
            shape: to_vec(self.shape.as_slice()),
            data: self.data.clone(),
            quant: self.quant,
            layout: self.layout,
            scale,
        }
    }
}

/// Value of a tensor that carries no quantization and lies row by row.
pub open spec fn dense(shape: Seq<usize>, cells: Cells) -> Tensor {
    Tensor { shape, cells, quant: QuantScheme::Unquantized, layout: LayoutId::Contiguous }
}

/// Values of an optional operand.
pub open spec fn opt_view<'a>(v: Option<&TensorView<'a>>) -> Option<Tensor> {
    match v {
        Some(t) => Some(t@),
        None => None,
    }
}

impl<'a> TensorView<'a> {
    /// View of raw bytes.
    pub fn from_bytes(shape: &[usize], dtype: DType, data: &'a [u8]) -> (r: Self)
        ensures
            r@ == dense(shape@, Cells::Bytes(dtype, data@)),
            r.scale is None,
    {
        Self {
            shape: to_vec(shape),
            data: TensorData::Bytes(dtype, data),
            quant: QuantScheme::Unquantized,
            layout: LayoutId::Contiguous,
            scale: None,
        }
    }

    /// View of singles.
    pub fn from_f32_slice(shape: &[usize], data: &'a [u32]) -> (r: Self)
        ensures
            r@ == dense(shape@, Cells::F32(data@)),
            r.scale is None,
    {
        Self {
            shape: to_vec(shape),
            data: TensorData::F32(data),
            quant: QuantScheme::Unquantized,
            layout: LayoutId::Contiguous,
            scale: None,
        }
    }

    /// View of half-precision codes.
    pub fn from_f16_slice(shape: &[usize], data: &'a [u16]) -> (r: Self)
        ensures
            r@ == dense(shape@, Cells::F16(data@)),
            r.scale is None,
    {
        Self {
            shape: to_vec(shape),
            data: TensorData::F16(data),
            quant: QuantScheme::Unquantized,
            layout: LayoutId::Contiguous,
            scale: None,
        }
    }

    /// View of bfloat16 codes.
    pub fn from_bf16_slice(shape: &[usize], data: &'a [u16]) -> (r: Self)
        ensures
            r@ == dense(shape@, Cells::Bf16(data@)),
            r.scale is None,
    {
        Self {
            shape: to_vec(shape),
            data: TensorData::Bf16(data),
            quant: QuantScheme::Unquantized,
            layout: LayoutId::Contiguous,
            scale: None,
        }
    }

    /// View of signed bytes.
    pub fn from_i8_slice(shape: &[usize], data: &'a [i8]) -> (r: Self)
        ensures
            r@ == dense(shape@, Cells::I8(data@)),
            r.scale is None,
    {
        Self {
            shape: to_vec(shape),
            data: TensorData::I8(data),
            quant: QuantScheme::Unquantized,
            layout: LayoutId::Contiguous,
            scale: None,
        }
    }

    /// View of unsigned integers.
    pub fn from_u32_slice(shape: &[usize], data: &'a [u32]) -> (r: Self)
        ensures
            r@ == dense(shape@, Cells::U32(data@)),
            r.scale is None,
    {
        Self {
            shape: to_vec(shape),
            data: TensorData::U32(data),
            quant: QuantScheme::Unquantized,
            layout: LayoutId::Contiguous,
            scale: None,
        }
    }

    /// Quantization scheme.
    pub fn quant(&self) -> (r: QuantScheme)
        ensures
            r == self@.quant,
    {
        self.quant
    }

    /// Storage layout.
    pub fn layout(&self) -> (r: LayoutId)
        ensures
            r == self@.layout,
    {
        self.layout
    }

    /// Scales that travel with the tensor.
    pub fn scale(&self) -> (r: Option<&TensorView<'a>>)
        ensures
            r == (match self.scale {
                Some(b) => Some(&*b),
                None => None,
            }),
    {
        match &self.scale {
            Some(b) => Some(&**b),
            None => None,
        }
    }

    /// The view with another quantization scheme.
    pub fn with_quant(self, quant: QuantScheme) -> (r: Self)
        ensures
            r@ == (Tensor { quant, ..self@ }),
            r.scale == self.scale,
    {
        TensorView { quant, ..self }
    }

    /// The view with another layout.
    pub fn with_layout(self, layout: LayoutId) -> (r: Self)
        ensures
            r@ == (Tensor { layout, ..self@ }),
            r.scale == self.scale,
    {
        TensorView { layout, ..self }
    }

    /// The view with scales attached.
    pub fn with_scale(self, scale: TensorView<'a>) -> (r: Self)
        ensures
            r@ == self@,
            r.scale == Some(Box::new(scale)),
    {
        TensorView { scale: Some(Box::new(scale)), ..self }
    }

    /// The view with the given scales, if any.
    pub fn with_scale_opt(self, scale: Option<TensorView<'a>>) -> (r: Self)
        ensures
            r@ == self@,
            r.scale == (match scale {
                Some(s) => Some(Box::new(s)),
                None => None,
            }),
    {
        match scale {
            Some(s) => TensorView { scale: Some(Box::new(s)), ..self },
            None => TensorView { scale: None, ..self },
        }
    }

    /// The raw bytes, if the storage is raw.
    pub fn as_bytes(&self) -> (r: Option<&'a [u8]>)
        ensures
            match self@.cells {
                Cells::Bytes(_, s) => r is Some && r->0@ == s,
                _ => r is None,
            },
    {
        match self.data {
            TensorData::Bytes(_, slice) => Some(slice),
            _ => None,
        }
    }

    /// The signed bytes, if they are stored as such.
    pub fn as_i8_slice(&self) -> (r: Option<&'a [i8]>)
        ensures
            match self@.cells {
                Cells::I8(s) => r is Some && r->0@ == s,
                _ => r is None,
            },
    {
        match self.data {
            TensorData::I8(slice) => Some(slice),
            _ => None,
        }
    }

    /// The singles, if they are stored as such.
    pub fn as_f32_slice(&self) -> (r: Option<&'a [u32]>)
        ensures
            match self@.cells {
                Cells::F32(s) => r is Some && r->0@ == s,
                _ => r is None,
            },
    {
        match self.data {
            TensorData::F32(slice) => Some(slice),
            _ => None,
        }
    }

    /// The half-precision codes, if they are stored as such.
    pub fn as_f16_slice(&self) -> (r: Option<&'a [u16]>)
        ensures
            match self@.cells {
                Cells::F16(s) => r is Some && r->0@ == s,
                _ => r is None,
            },
    {
        match self.data {
            TensorData::F16(slice) => Some(slice),
            _ => None,
        }
    }

    /// The unsigned integers, if they are stored as such.
    pub fn as_u32_slice(&self) -> (r: Option<&'a [u32]>)
        ensures
            match self@.cells {
                Cells::U32(s) => r is Some && r->0@ == s,
                _ => r is None,
            },
    {
        match self.data {
            TensorData::U32(slice) => Some(slice),
            _ => None,
        }
    }

    /// Extents of the dimensions.
    pub fn shape(&self) -> (r: &[usize])
        ensures
            r@ == self@.shape,
    {
        self.shape.as_slice()
    }

    /// Number of dimensions.
    pub fn rank(&self) -> (r: usize)
        ensures
            r == self@.rank(),
    {
        self.shape.len()
    }

    /// Element type.
    pub fn dtype(&self) -> (r: DType)
        ensures
            r == self@.dtype(),
    {
        match self.data {
            TensorData::F32(_) => DType::F32,
            TensorData::F16(_) => DType::F16,
            TensorData::Bf16(_) => DType::Bf16,
            TensorData::I8(_) => DType::I8,
            TensorData::U32(_) => DType::U32,
            TensorData::Bytes(dtype, _) => dtype,
        }
    }

    /// Number of elements.
    pub fn num_elements(&self) -> (r: usize)
        requires
            extent(self@.shape) is Some,
        ensures
            Some(r) == extent(self@.shape),
    {
        match shape_extent(self.shape.as_slice()) {
            Some(n) => n,
            None => 0,
        }
    }

    /// Length of the storage in elements, or in bytes for raw storage.
    pub fn backing_len(&self) -> (r: usize)
        ensures
            r == self@.cells.len(),
    {
        match self.data {
            TensorData::F32(slice) => slice.len(),
            TensorData::F16(slice) => slice.len(),
            TensorData::Bf16(slice) => slice.len(),
            TensorData::I8(slice) => slice.len(),
            TensorData::U32(slice) => slice.len(),
            TensorData::Bytes(_, slice) => slice.len(),
        }
    }

    /// Length of the storage in bytes, or the largest size if it exceeds that.
    pub fn backing_bytes_len(&self) -> (r: usize)
        ensures
            r == cells_bytes(self@.cells),
    {
        match self.data {
            TensorData::Bytes(_, slice) => slice.len(),
            TensorData::I8(slice) => slice.len(),
            TensorData::F16(slice) => times_capped(slice.len(), 2),
            TensorData::Bf16(slice) => times_capped(slice.len(), 2),
            TensorData::U32(slice) => times_capped(slice.len(), 4),
            TensorData::F32(slice) => times_capped(slice.len(), 4),
        }
    }

    /// Checks that the storage has room for the shape.
    pub fn validate_backing(&self, tensor: &'static str) -> (r: Result<(), T0Error>)
        ensures
            outcome(r) == fault_result(self@.backing_fault(tensor)),
            r is Ok <==> self@.backed(),
    {
        let len: usize = self.backing_len();
        let raw: Option<DType> = match self.data {
            TensorData::Bytes(dtype, _) => Some(dtype),
            _ => None,
        };
        check_room(self.shape.as_slice(), raw, len, tensor, Ghost(self@))
    }

    /// Whether the storage has room for a number of elements.
    pub fn has_room(&self, n: usize) -> (r: bool)
        ensures
            r == (self@.cells.required(n as int) <= self@.cells.len()),
    {
        let len: usize = self.backing_len();
        match self.data {
            TensorData::Bytes(dtype, _) => match dtype {
                DType::I4 => n / 2 + n % 2 <= len,
                DType::F32 | DType::I32 | DType::U32 => n <= len / 4,
                DType::F16 | DType::Bf16 => n <= len / 2,
                _ => n <= len,
            },
            _ => n <= len,
        }
    }

    /// Reads an element as a single.
    pub fn read_f32(&self, index: usize) -> (r: u32)
        requires
            self@.cells.holds(index as int),
        ensures
            r == self@.cells.f32_at(index as int),
    {
        match self.data {
            TensorData::F32(slice) => slice[index],
            TensorData::F16(slice) => f16_to_f32(slice[index]),
            TensorData::Bf16(slice) => bf16_to_f32(slice[index]),
            TensorData::I8(slice) => i32_to_f32(slice[index] as i32),
            TensorData::U32(slice) => u32_to_f32(slice[index]),
            TensorData::Bytes(dtype, slice) => read_f32_at(dtype, slice, index),
        }
    }

    /// Reads the bit pattern of an element.
    pub fn read_raw(&self, index: usize) -> (r: u32)
        requires
            self@.cells.holds(index as int),
            self@.dtype() != DType::I4,
        ensures
            r == self@.cells.raw_at(index as int),
    {
        let len: usize = self.backing_len();
        assert(self@.cells.required(index + 1) <= len);
        match self.data {
            TensorData::F32(slice) => slice[index],
            TensorData::F16(slice) => slice[index] as u32,
            TensorData::Bf16(slice) => slice[index] as u32,
            TensorData::I8(slice) => unsigned_byte(slice[index]) as u32,
            TensorData::U32(slice) => slice[index],
            TensorData::Bytes(dtype, slice) => {
                let size: usize = dtype_element_size(dtype);
                if size == 4 {
                    read_le32(slice, index * 4)
                } else if size == 2 {
                    read_le16(slice, index * 2) as u32
                } else {
                    slice[index] as u32
                }
            },
        }
    }

    /// Reads an element as an unsigned integer, checking the bounds of integer
    /// storage.
    pub fn try_read_u32(&self, index: usize, tensor: &'static str) -> (r: Result<u32, T0Error>)
        requires
            self@.cells is U32 ==> index < usize::MAX,
            self@.dtype() != DType::U32 ==> self@.cells.holds(index as int),
        ensures
            outcome(r) == self@.u32_result(index as int, tensor),
    {
        match self.data {
            TensorData::U32(slice) => {
                if index < slice.len() {
                    Ok(slice[index])
                } else {
                    Err(
                        T0Error::BufferLengthMismatch {
                            tensor,
                            buffer_len: slice.len(),
                            expected_len: index + 1,
                            shape: to_vec(self.shape.as_slice()),
                        },
                    )
                }
            },
            TensorData::Bytes(DType::U32, slice) => {
                let offset: usize = match index.checked_mul(4) {
                    Some(v) => v,
                    None => {
                        return Err(
                            T0Error::ArithmeticOverflow {
                                op: "read_u32",
                                detail: Detail::one(
                                    "index {} * 4 overflows usize",
                                    Arg::Int(index as u64),
                                ),
                            },
                        );
                    },
                };
                let end: usize = match offset.checked_add(4) {
                    Some(v) => v,
                    None => {
                        return Err(
                            T0Error::ArithmeticOverflow {
                                op: "read_u32",
                                detail: Detail::one(
                                    "byte range end for index {} overflows usize",
                                    Arg::Int(index as u64),
                                ),
                            },
                        );
                    },
                };
                if end <= slice.len() {
                    Ok(read_le32(slice, offset))
                } else {
                    Err(
                        T0Error::BufferLengthMismatch {
                            tensor,
                            buffer_len: slice.len(),
                            expected_len: end,
                            shape: to_vec(self.shape.as_slice()),
                        },
                    )
                }
            },
            _ => Ok(f32_to_int(self.read_f32(index), false, 0, 0xFFFF_FFFF) as u32),
        }
    }

    /// Reads an element as an unsigned integer.
    pub fn read_u32(&self, index: usize) -> (r: u32)
        requires
            self@.cells.holds(index as int),
        ensures
            r == self@.u32_at(index as int),
    {
        let len: usize = self.backing_len();
        assert(self@.cells.required(index + 1) <= len);
        match self.try_read_u32(index, "tensor") {
            Ok(v) => v,
            Err(_) => 0,
        }
    }

    /// Reads a raw byte, or an element as a byte for typed storage.
    pub fn read_byte(&self, index: usize) -> (r: u8)
        requires
            match self@.cells {
                Cells::Bytes(_, s) => index < s.len(),
                _ => self@.cells.holds(index as int),
            },
        ensures
            r == self@.byte_at(index as int),
    {
        match self.data {
            TensorData::Bytes(_, slice) => slice[index],
            TensorData::I8(slice) => unsigned_byte(slice[index]),
            _ => f32_to_int(self.read_f32(index), false, 0, 255) as u8,
        }
    }

    /// Reads an element as a signed byte.
    pub fn read_i8(&self, index: usize) -> (r: i8)
        requires
            self@.cells.holds(index as int),
        ensures
            r == self@.i8_at(index as int),
    {
        match self.data {
            TensorData::I8(slice) => slice[index],
            TensorData::Bytes(DType::I8, slice) => signed_byte(slice[index]),
            _ => f32_to_int(self.read_f32(index), false, -128, 127) as i8,
        }
    }
}

/// Product, or the largest size if it exceeds that.
pub fn times_capped(n: usize, k: usize) -> (r: usize)
    ensures
        r == (if n * k > usize::MAX {
            usize::MAX as int
        } else {
            n * k
        }),
{
    match n.checked_mul(k) {
        Some(v) => v,
        None => usize::MAX,
    }
}

/// Length of a storage in bytes, capped at the largest size.
pub open spec fn cells_bytes(cells: Cells) -> int {
    let n = match cells {
        Cells::Bytes(_, s) => s.len() as int,
        _ => cells.len() * element_size(cells.dtype()),
    };
    if n > usize::MAX {
        usize::MAX as int
    } else {
        n
    }
}

/// Success, or the given error.
pub open spec fn fault_result(fault: Option<ErrorView>) -> Result<(), ErrorView> {
    match fault {
        None => Ok(()),
        Some(e) => Err(e),
    }
}

/// Checks that a storage of `len` has room for `shape`; `raw` is the element
/// type of raw storage.
fn check_room(
    shape: &[usize],
    raw: Option<DType>,
    len: usize,
    tensor: &'static str,
    Ghost(t): Ghost<Tensor>,
) -> (r: Result<(), T0Error>)
    requires
        t.shape == shape@,
        t.cells.len() == len,
        match raw {
            Some(dtype) => t.cells matches Cells::Bytes(d, _) && d == dtype,
            None => !(t.cells is Bytes),
        },
    ensures
        outcome(r) == fault_result(t.backing_fault(tensor)),
        r is Ok <==> t.backed(),
{
    let n: usize = match shape_extent(shape) {
        Some(n) => n,
        None => {
            return Err(
                T0Error::BufferLengthMismatch {
                    tensor,
                    buffer_len: len,
                    expected_len: usize::MAX,
                    shape: to_vec(shape),
                },
            );
        },
    };
    let required: usize = match raw {
        None => n,
        Some(DType::I4) => n / 2 + n % 2,
        Some(dtype) => match n.checked_mul(dtype_element_size(dtype)) {
            Some(b) => b,
            None => {
                return Err(
                    T0Error::BufferLengthMismatch {
                        tensor,
                        buffer_len: len,
                        expected_len: usize::MAX,
                        shape: to_vec(shape),
                    },
                );
            },
        },
    };
    if len < required {
        return Err(
            T0Error::BufferLengthMismatch {
                tensor,
                buffer_len: len,
                expected_len: required,
                shape: to_vec(shape),
            },
        );
    }
    Ok(())
}

/// Writable view of a tensor.
#[derive(Debug)]
pub struct TensorViewMut<'a> {
    /// Extents of the dimensions.
    pub shape: Vec<usize>,
    /// Storage.
    pub data: TensorDataMut<'a>,
    /// Quantization scheme.
    pub quant: QuantScheme,
    /// Storage layout.
    pub layout: LayoutId,
}

impl<'a> View for TensorViewMut<'a> {
    type V = Tensor;

    open spec fn view(&self) -> Tensor {
        Tensor {
            shape: self.shape@,
            cells: self.data@,
            quant: self.quant,
            layout: self.layout,
        }
    }
}

impl<'a> TensorViewMut<'a> {
    /// Writable view of raw bytes.
    pub fn from_bytes(shape: &[usize], dtype: DType, data: &'a mut [u8]) -> (r: Self)
        ensures
            r@ == dense(shape@, Cells::Bytes(dtype, old(data)@)),
            r.data matches TensorDataMut::Bytes(_, s) && (*final(s))@ == final(data)@,
    {
        Self {
            shape: to_vec(shape),
            data: TensorDataMut::Bytes(dtype, data),
            quant: QuantScheme::Unquantized,
            layout: LayoutId::Contiguous,
        }
    }

    /// Writable view of singles.
    pub fn from_f32_slice(shape: &[usize], data: &'a mut [u32]) -> (r: Self)
        ensures
            r@ == dense(shape@, Cells::F32(old(data)@)),
            r.data matches TensorDataMut::F32(s) && (*final(s))@ == final(data)@,
    {
        Self {
            shape: to_vec(shape),
            data: TensorDataMut::F32(data),
            quant: QuantScheme::Unquantized,
            layout: LayoutId::Contiguous,
        }
    }

    /// Writable view of half-precision codes.
    pub fn from_f16_slice(shape: &[usize], data: &'a mut [u16]) -> (r: Self)
        ensures
            r@ == dense(shape@, Cells::F16(old(data)@)),
            r.data matches TensorDataMut::F16(s) && (*final(s))@ == final(data)@,
    {
        Self {
            shape: to_vec(shape),
            data: TensorDataMut::F16(data),
            quant: QuantScheme::Unquantized,
            layout: LayoutId::Contiguous,
        }
    }

    /// Writable view of bfloat16 codes.
    pub fn from_bf16_slice(shape: &[usize], data: &'a mut [u16]) -> (r: Self)
        ensures
            r@ == dense(shape@, Cells::Bf16(old(data)@)),
            r.data matches TensorDataMut::Bf16(s) && (*final(s))@ == final(data)@,
    {
        Self {
            shape: to_vec(shape),
            data: TensorDataMut::Bf16(data),
            quant: QuantScheme::Unquantized,
            layout: LayoutId::Contiguous,
        }
    }

    /// Writable view of signed bytes.
    pub fn from_i8_slice(shape: &[usize], data: &'a mut [i8]) -> (r: Self)
        ensures
            r@ == dense(shape@, Cells::I8(old(data)@)),
            r.data matches TensorDataMut::I8(s) && (*final(s))@ == final(data)@,
    {
        Self {
            shape: to_vec(shape),
            data: TensorDataMut::I8(data),
            quant: QuantScheme::Unquantized,
            layout: LayoutId::Contiguous,
        }
    }

    /// Writable view of unsigned integers.
    pub fn from_u32_slice(shape: &[usize], data: &'a mut [u32]) -> (r: Self)
        ensures
            r@ == dense(shape@, Cells::U32(old(data)@)),
            r.data matches TensorDataMut::U32(s) && (*final(s))@ == final(data)@,
    {
        Self {
            shape: to_vec(shape),
            data: TensorDataMut::U32(data),
            quant: QuantScheme::Unquantized,
            layout: LayoutId::Contiguous,
        }
    }

    /// Quantization scheme.
    pub fn quant(&self) -> (r: QuantScheme)
        ensures
            r == self@.quant,
    {
        self.quant
    }

    /// Storage layout.
    pub fn layout(&self) -> (r: LayoutId)
        ensures
            r == self@.layout,
    {
        self.layout
    }

    /// The view with another quantization scheme.
    pub fn with_quant(self, quant: QuantScheme) -> (r: Self)
        ensures
            r@ == (Tensor { quant, ..self@ }),
            r.data == self.data,
    {
        TensorViewMut { quant, ..self }
    }

    /// The view with another layout.
    pub fn with_layout(self, layout: LayoutId) -> (r: Self)
        ensures
            r@ == (Tensor { layout, ..self@ }),
            r.data == self.data,
    {
        TensorViewMut { layout, ..self }
    }

    /// Extents of the dimensions.
    pub fn shape(&self) -> (r: &[usize])
        ensures
            r@ == self@.shape,
    {
        self.shape.as_slice()
    }

    /// Number of dimensions.
    pub fn rank(&self) -> (r: usize)
        ensures
            r == self@.rank(),
    {
        self.shape.len()
    }

    /// Element type.
    pub fn dtype(&self) -> (r: DType)
        ensures
            r == self@.dtype(),
    {
        match &self.data {
            TensorDataMut::F32(_) => DType::F32,
            TensorDataMut::F16(_) => DType::F16,
            TensorDataMut::Bf16(_) => DType::Bf16,
            TensorDataMut::I8(_) => DType::I8,
            TensorDataMut::U32(_) => DType::U32,
            TensorDataMut::Bytes(dtype, _) => *dtype,
        }
    }

    /// Number of elements.
    pub fn num_elements(&self) -> (r: usize)
        requires
            extent(self@.shape) is Some,
        ensures
            Some(r) == extent(self@.shape),
    {
        match shape_extent(self.shape.as_slice()) {
            Some(n) => n,
            None => 0,
        }
    }

    /// Length of the storage in elements, or in bytes for raw storage.
    pub fn backing_len(&self) -> (r: usize)
        ensures
            r == self@.cells.len(),
    {
        match &self.data {
            TensorDataMut::F32(slice) => slice.len(),
            TensorDataMut::F16(slice) => slice.len(),
            TensorDataMut::Bf16(slice) => slice.len(),
            TensorDataMut::I8(slice) => slice.len(),
            TensorDataMut::U32(slice) => slice.len(),
            TensorDataMut::Bytes(_, slice) => slice.len(),
        }
    }

    /// Length of the storage in bytes, or the largest size if it exceeds that.
    pub fn backing_bytes_len(&self) -> (r: usize)
        ensures
            r == cells_bytes(self@.cells),
    {
        match &self.data {
            TensorDataMut::Bytes(_, slice) => slice.len(),
            TensorDataMut::I8(slice) => slice.len(),
            TensorDataMut::F16(slice) => times_capped(slice.len(), 2),
            TensorDataMut::Bf16(slice) => times_capped(slice.len(), 2),
            TensorDataMut::U32(slice) => times_capped(slice.len(), 4),
            TensorDataMut::F32(slice) => times_capped(slice.len(), 4),
        }
    }

    /// Checks that the storage has room for the shape.
    pub fn validate_backing(&self, tensor: &'static str) -> (r: Result<(), T0Error>)
        ensures
            outcome(r) == fault_result(self@.backing_fault(tensor)),
            r is Ok <==> self@.backed(),
    {
        let len: usize = self.backing_len();
        let raw: Option<DType> = match &self.data {
            TensorDataMut::Bytes(dtype, _) => Some(*dtype),
            _ => None,
        };
        check_room(self.shape.as_slice(), raw, len, tensor, Ghost(self@))
    }

    /// Reads an element as a single.
    pub fn read_f32(&self, index: usize) -> (r: u32)
        requires
            self@.cells.holds(index as int),
        ensures
            r == self@.cells.f32_at(index as int),
    {
        match &self.data {
            TensorDataMut::F32(slice) => slice[index],
            TensorDataMut::F16(slice) => f16_to_f32(slice[index]),
            TensorDataMut::Bf16(slice) => bf16_to_f32(slice[index]),
            TensorDataMut::I8(slice) => i32_to_f32(slice[index] as i32),
            TensorDataMut::U32(slice) => u32_to_f32(slice[index]),
            TensorDataMut::Bytes(dtype, slice) => read_f32_at(*dtype, slice, index),
        }
    }

    /// Writes a single to an element, converted to the element type.
    pub fn write_f32(&mut self, index: usize, val: u32)
        requires
            old(self)@.cells.holds(index as int),
        ensures
            final(self)@ == old(self)@.with_cells(old(self)@.cells.with_f32(index as int, val)),
            match (old(self).data, final(self).data) {
                (TensorDataMut::F32(a), TensorDataMut::F32(b)) => {
                    a@.len() == b@.len() && (*final(a))@ == (*final(b))@
                },
                (TensorDataMut::F16(a), TensorDataMut::F16(b)) => {
                    a@.len() == b@.len() && (*final(a))@ == (*final(b))@
                },
                (TensorDataMut::Bf16(a), TensorDataMut::Bf16(b)) => {
                    a@.len() == b@.len() && (*final(a))@ == (*final(b))@
                },
                (TensorDataMut::I8(a), TensorDataMut::I8(b)) => {
                    a@.len() == b@.len() && (*final(a))@ == (*final(b))@
                },
                (TensorDataMut::U32(a), TensorDataMut::U32(b)) => {
                    a@.len() == b@.len() && (*final(a))@ == (*final(b))@
                },
                (TensorDataMut::Bytes(d, a), TensorDataMut::Bytes(e, b)) => {
                    d == e && a@.len() == b@.len() && (*final(a))@ == (*final(b))@
                },
                _ => false,
            },
    {
        match &mut self.data {
            TensorDataMut::F32(slice) => {
                slice[index] = val;
            },
            TensorDataMut::F16(slice) => {
                slice[index] = f32_to_f16(val);
            },
            TensorDataMut::Bf16(slice) => {
                slice[index] = f32_to_bf16(val);
            },
            TensorDataMut::I8(slice) => {
                slice[index] = f32_to_i8(val);
            },
            TensorDataMut::U32(slice) => {
                slice[index] = f32_to_u32(val);
            },
            TensorDataMut::Bytes(dtype, slice) => {
                write_f32_at(*dtype, slice, index, val);
            },
        }
    }

    /// Writes the bit pattern of an element.
    pub fn write_raw(&mut self, index: usize, bits: u32)
        requires
            old(self)@.cells.holds(index as int),
            old(self)@.dtype() != DType::I4,
        ensures
            final(self)@ == old(self)@.with_cells(old(self)@.cells.with_raw(index as int, bits)),
            match (old(self).data, final(self).data) {
                (TensorDataMut::F32(a), TensorDataMut::F32(b)) => {
                    a@.len() == b@.len() && (*final(a))@ == (*final(b))@
                },
                (TensorDataMut::F16(a), TensorDataMut::F16(b)) => {
                    a@.len() == b@.len() && (*final(a))@ == (*final(b))@
                },
                (TensorDataMut::Bf16(a), TensorDataMut::Bf16(b)) => {
                    a@.len() == b@.len() && (*final(a))@ == (*final(b))@
                },
                (TensorDataMut::I8(a), TensorDataMut::I8(b)) => {
                    a@.len() == b@.len() && (*final(a))@ == (*final(b))@
                },
                (TensorDataMut::U32(a), TensorDataMut::U32(b)) => {
                    a@.len() == b@.len() && (*final(a))@ == (*final(b))@
                },
                (TensorDataMut::Bytes(d, a), TensorDataMut::Bytes(e, b)) => {
                    d == e && a@.len() == b@.len() && (*final(a))@ == (*final(b))@
                },
                _ => false,
            },
    {
        let len: usize = self.backing_len();
        assert(self@.cells.required(index + 1) <= len);
        match &mut self.data {
            TensorDataMut::F32(slice) => {
                slice[index] = bits;
            },
            TensorDataMut::F16(slice) => {
                slice[index] = low16(bits);
            },
            TensorDataMut::Bf16(slice) => {
                slice[index] = low16(bits);
            },
            TensorDataMut::I8(slice) => {
                slice[index] = signed_byte(low8(bits));
            },
            TensorDataMut::U32(slice) => {
                slice[index] = bits;
            },
            TensorDataMut::Bytes(dtype, slice) => {
                let size: usize = dtype_element_size(*dtype);
                if size == 4 {
                    write_le32(slice, index * 4, bits);
                } else if size == 2 {
                    write_le16(slice, index * 2, low16(bits));
                } else {
                    slice[index] = low8(bits);
                }
            },
        }
    }

    /// Writes singles to the first elements, converted to the element type.
    pub fn write_all(&mut self, values: &[u32])
        requires
            old(self)@.cells.required(values@.len() as int) <= old(self)@.cells.len(),
        ensures
            final(self)@ == old(self)@.with_cells(old(self)@.cells.with_f32s(values@)),
            match (old(self).data, final(self).data) {
                (TensorDataMut::F32(a), TensorDataMut::F32(b)) => {
                    a@.len() == b@.len() && (*final(a))@ == (*final(b))@
                },
                (TensorDataMut::F16(a), TensorDataMut::F16(b)) => {
                    a@.len() == b@.len() && (*final(a))@ == (*final(b))@
                },
                (TensorDataMut::Bf16(a), TensorDataMut::Bf16(b)) => {
                    a@.len() == b@.len() && (*final(a))@ == (*final(b))@
                },
                (TensorDataMut::I8(a), TensorDataMut::I8(b)) => {
                    a@.len() == b@.len() && (*final(a))@ == (*final(b))@
                },
                (TensorDataMut::U32(a), TensorDataMut::U32(b)) => {
                    a@.len() == b@.len() && (*final(a))@ == (*final(b))@
                },
                (TensorDataMut::Bytes(d, a), TensorDataMut::Bytes(e, b)) => {
                    d == e && a@.len() == b@.len() && (*final(a))@ == (*final(b))@
                },
                _ => false,
            },
    {
        let ghost start = self@;
        assert(values@.take(0).len() == 0);
        for i in 0..values.len()
            invariant
                start.cells.required(values@.len() as int) <= start.cells.len(),
                self@ == start.with_cells(start.cells.with_f32s(values@.take(i as int))),
                match (old(self).data, self.data) {
                (TensorDataMut::F32(a), TensorDataMut::F32(b)) => {
                    a@.len() == b@.len() && (*final(a))@ == (*final(b))@
                },
                (TensorDataMut::F16(a), TensorDataMut::F16(b)) => {
                    a@.len() == b@.len() && (*final(a))@ == (*final(b))@
                },
                (TensorDataMut::Bf16(a), TensorDataMut::Bf16(b)) => {
                    a@.len() == b@.len() && (*final(a))@ == (*final(b))@
                },
                (TensorDataMut::I8(a), TensorDataMut::I8(b)) => {
                    a@.len() == b@.len() && (*final(a))@ == (*final(b))@
                },
                (TensorDataMut::U32(a), TensorDataMut::U32(b)) => {
                    a@.len() == b@.len() && (*final(a))@ == (*final(b))@
                },
                (TensorDataMut::Bytes(d, a), TensorDataMut::Bytes(e, b)) => {
                    d == e && a@.len() == b@.len() && (*final(a))@ == (*final(b))@
                },
                _ => false,
            },
        {
            proof {
                lemma_with_f32s_shape(start.cells, values@.take(i as int));
                assert(self@.cells.required(i + 1) == start.cells.required(i + 1));
                assert(values@.take(i + 1).drop_last() =~= values@.take(i as int));
            }
            self.write_f32(i, values[i]);
        }
        assert(values@.take(values@.len() as int) =~= values@);
    }

    /// Writes a raw byte, or a byte as an element for typed storage.
    pub fn write_byte(&mut self, index: usize, val: u8)
        requires
            match old(self)@.cells {
                Cells::Bytes(_, s) => index < s.len(),
                _ => old(self)@.cells.holds(index as int),
            },
        ensures
            final(self)@ == old(self)@.with_cells(
                match old(self)@.cells {
                    Cells::Bytes(dtype, s) => Cells::Bytes(dtype, s.update(index as int, val)),
                    Cells::I8(s) => Cells::I8(s.update(index as int, byte_as_i8(val))),
                    c => c.with_f32(index as int, f32_of_int(val as int)),
                },
            ),
            match (old(self).data, final(self).data) {
                (TensorDataMut::F32(a), TensorDataMut::F32(b)) => {
                    a@.len() == b@.len() && (*final(a))@ == (*final(b))@
                },
                (TensorDataMut::F16(a), TensorDataMut::F16(b)) => {
                    a@.len() == b@.len() && (*final(a))@ == (*final(b))@
                },
                (TensorDataMut::Bf16(a), TensorDataMut::Bf16(b)) => {
                    a@.len() == b@.len() && (*final(a))@ == (*final(b))@
                },
                (TensorDataMut::I8(a), TensorDataMut::I8(b)) => {
                    a@.len() == b@.len() && (*final(a))@ == (*final(b))@
                },
                (TensorDataMut::U32(a), TensorDataMut::U32(b)) => {
                    a@.len() == b@.len() && (*final(a))@ == (*final(b))@
                },
                (TensorDataMut::Bytes(d, a), TensorDataMut::Bytes(e, b)) => {
                    d == e && a@.len() == b@.len() && (*final(a))@ == (*final(b))@
                },
                _ => false,
            },
    {
        match &mut self.data {
            TensorDataMut::Bytes(_, slice) => {
                slice[index] = val;
            },
            TensorDataMut::I8(slice) => {
                slice[index] = signed_byte(val);
            },
            _ => self.write_f32(index, u32_to_f32(val as u32)),
        }
    }

    /// The same tensor as a read-only view.
    pub fn as_view(&self) -> (r: TensorView<'_>)
        ensures
            r@ == self@,
            r.scale is None,
    {
        let data = match &self.data {
            TensorDataMut::F32(slice) => TensorData::F32(&**slice),
            TensorDataMut::F16(slice) => TensorData::F16(&**slice),
            TensorDataMut::Bf16(slice) => TensorData::Bf16(&**slice),
            TensorDataMut::I8(slice) => TensorData::I8(&**slice),
            TensorDataMut::U32(slice) => TensorData::U32(&**slice),
            TensorDataMut::Bytes(dtype, slice) => TensorData::Bytes(*dtype, &**slice),
        };
        TensorView {
            shape: to_vec(self.shape.as_slice()),
            data,
            quant: self.quant,
            layout: self.layout,
            scale: None,
        }
    }
}

/// Owned tensor buffer.
#[derive(Debug)]
pub struct TypedBuffer {
    /// Extents of the dimensions.
    pub shape: Vec<usize>,
    /// Element type.
    pub dtype: DType,
    /// Singles, by their bits.
    pub f32_data: Vec<u32>,
    /// Half-precision codes.
    pub f16_data: Vec<u16>,
    /// bfloat16 codes.
    pub bf16_data: Vec<u16>,
    /// Signed bytes.
    pub i8_data: Vec<i8>,
    /// Unsigned integers.
    pub u32_data: Vec<u32>,
    /// Raw bytes.
    pub byte_data: Vec<u8>,
    /// Quantization scheme.
    pub quant: QuantScheme,
    /// Storage layout.
    pub layout: LayoutId,
}

impl View for TypedBuffer {
    type V = Tensor;

    open spec fn view(&self) -> Tensor {
        Tensor { shape: self.shape@, cells: self.cells(), quant: self.quant, layout: self.layout }
    }
}

impl Clone for TypedBuffer {
    fn clone(&self) -> (r: Self)
        ensures
            r@ == self@,
            r.dtype == self.dtype,
            r.same_storage(self),
    {
        Self {
            shape: to_vec(self.shape.as_slice()),
            dtype: self.dtype,
            f32_data: copy_u32(&self.f32_data),
            f16_data: copy_u16(&self.f16_data),
            bf16_data: copy_u16(&self.bf16_data),
            i8_data: copy_i8(&self.i8_data),
            u32_data: copy_u32(&self.u32_data),
            byte_data: copy_u8(&self.byte_data),
            quant: self.quant,
            layout: self.layout,
        }
    }
}

/// Whether elements of the type have a storage of their own; those of the
/// other types are raw bytes.
pub open spec fn typed(dtype: DType) -> bool {
    match dtype {
        DType::F32 | DType::F16 | DType::Bf16 | DType::I8 | DType::U32 => true,
        _ => false,
    }
}

impl TypedBuffer {
    /// Contents: the typed storage of the element type, or the raw bytes if
    /// that is empty.
    pub open spec fn cells(&self) -> Cells {
        match self.dtype {
            DType::F32 if self.f32_data@.len() > 0 => Cells::F32(self.f32_data@),
            DType::F16 if self.f16_data@.len() > 0 => Cells::F16(self.f16_data@),
            DType::Bf16 if self.bf16_data@.len() > 0 => Cells::Bf16(self.bf16_data@),
            DType::I8 if self.i8_data@.len() > 0 => Cells::I8(self.i8_data@),
            DType::U32 if self.u32_data@.len() > 0 => Cells::U32(self.u32_data@),
            _ => Cells::Bytes(self.dtype, self.byte_data@),
        }
    }

    /// Whether the storage has room for the shape.
    pub open spec fn wf(&self) -> bool {
        self@.backed()
    }

    /// Whether the storages are those of another buffer, value by value.
    pub open spec fn same_storage(&self, other: &Self) -> bool {
        &&& self.f32_data@ == other.f32_data@
        &&& self.f16_data@ == other.f16_data@
        &&& self.bf16_data@ == other.bf16_data@
        &&& self.i8_data@ == other.i8_data@
        &&& self.u32_data@ == other.u32_data@
        &&& self.byte_data@ == other.byte_data@
    }

    /// Whether nothing changed but the storage of the element type.
    pub open spec fn kept_elsewhere(&self, before: &Self) -> bool {
        match before.dtype {
            DType::F32 => *self == (Self { f32_data: self.f32_data, ..*before }),
            DType::F16 => *self == (Self { f16_data: self.f16_data, ..*before }),
            DType::Bf16 => *self == (Self { bf16_data: self.bf16_data, ..*before }),
            DType::I8 => *self == (Self { i8_data: self.i8_data, ..*before }),
            DType::U32 => *self == (Self { u32_data: self.u32_data, ..*before }),
            _ => *self == (Self { byte_data: self.byte_data, ..*before }),
        }
    }

    /// Whether every storage but that of the element type is empty.
    pub open spec fn empty_elsewhere(&self) -> bool {
        &&& self.dtype != DType::F32 ==> self.f32_data@.len() == 0
        &&& self.dtype != DType::F16 ==> self.f16_data@.len() == 0
        &&& self.dtype != DType::Bf16 ==> self.bf16_data@.len() == 0
        &&& self.dtype != DType::I8 ==> self.i8_data@.len() == 0
        &&& self.dtype != DType::U32 ==> self.u32_data@.len() == 0
        &&& typed(self.dtype) ==> self.byte_data@.len() == 0
    }

    /// Whether the storage that single elements are read from holds the `i`-th.
    pub open spec fn readable(&self, i: int) -> bool {
        0 <= i && match self.dtype {
            DType::F32 => i < self.f32_data@.len(),
            DType::F16 => i < self.f16_data@.len(),
            DType::Bf16 => i < self.bf16_data@.len(),
            DType::I8 => i < self.i8_data@.len(),
            DType::U32 => i < self.u32_data@.len(),
            d => byte_len(d, i + 1) <= self.byte_data@.len(),
        }
    }

    /// Whether every element of the shape can be read by itself.
    pub open spec fn all_readable(&self) -> bool {
        extent(self.shape@) is Some && forall|i: int|
            0 <= i < extent(self.shape@)->0 ==> #[trigger] self.readable(i)
    }

    /// Outcome of allocating a zeroed buffer.
    pub open spec fn zeros_fault(shape: Seq<usize>, dtype: DType) -> Option<ErrorView> {
        let overflow = |text: &'static str|
            Some(
                ErrorView::ArithmeticOverflow { op: "buffer", detail: quoting_shape(text, shape) },
            );
        match extent(shape) {
            None => overflow("shape {dims} element product overflows usize"),
            Some(n) => match dtype {
                DType::F32 | DType::U32 | DType::I32 => if 4 * n > usize::MAX {
                    overflow("shape {dims} byte size (elements * 4) overflows usize")
                } else {
                    None
                },
                DType::F16 | DType::Bf16 => if 2 * n > usize::MAX {
                    overflow("shape {dims} byte size (elements * 2) overflows usize")
                } else {
                    None
                },
                DType::I4 => if n + 1 > usize::MAX {
                    overflow("shape {dims} byte size (I4 packed) overflows usize")
                } else {
                    None
                },
                _ => None,
            },
        }
    }

    /// Zeroed storage of `n` elements.
    pub open spec fn zero_cells(dtype: DType, n: int) -> Cells {
        match dtype {
            DType::F32 if n > 0 => Cells::F32(Seq::new(n as nat, |i: int| 0u32)),
            DType::F16 if n > 0 => Cells::F16(Seq::new(n as nat, |i: int| 0u16)),
            DType::Bf16 if n > 0 => Cells::Bf16(Seq::new(n as nat, |i: int| 0u16)),
            DType::I8 if n > 0 => Cells::I8(Seq::new(n as nat, |i: int| 0i8)),
            DType::U32 if n > 0 => Cells::U32(Seq::new(n as nat, |i: int| 0u32)),
            _ => Cells::Bytes(dtype, Seq::new(byte_len(dtype, n) as nat, |i: int| 0u8)),
        }
    }

    /// Zeroed buffer of a shape whose size in bytes is representable.
    pub fn zeros(shape: &[usize], dtype: DType) -> (r: Self)
        requires
            Self::zeros_fault(shape@, dtype) is None,
        ensures
            r@ == dense(shape@, Self::zero_cells(dtype, extent(shape@)->0 as int)),
            r.dtype == dtype,
            r.empty_elsewhere(),
            r.wf(),
            r.all_readable(),
    {
        match Self::try_zeros(shape, dtype) {
            Ok(b) => b,
            Err(_) => Self::empty(shape, dtype),
        }
    }

    /// Buffer without storage.
    fn empty(shape: &[usize], dtype: DType) -> (r: Self)
        ensures
            r.shape@ == shape@,
            r.dtype == dtype,
            r.f32_data@.len() == 0,
            r.f16_data@.len() == 0,
            r.bf16_data@.len() == 0,
            r.i8_data@.len() == 0,
            r.u32_data@.len() == 0,
            r.byte_data@.len() == 0,
            r.quant == QuantScheme::Unquantized,
            r.layout == LayoutId::Contiguous,
    {
        Self {
            shape: to_vec(shape),
            dtype,
            f32_data: Vec::new(),
            f16_data: Vec::new(),
            bf16_data: Vec::new(),
            i8_data: Vec::new(),
            u32_data: Vec::new(),
            byte_data: Vec::new(),
            quant: QuantScheme::Unquantized,
            layout: LayoutId::Contiguous,
        }
    }

    /// Zeroed buffer, or an error if the size of the shape overflows.
    pub fn try_zeros(shape: &[usize], dtype: DType) -> (r: Result<Self, T0Error>)
        ensures
            match Self::zeros_fault(shape@, dtype) {
                Some(e) => r is Err && r->Err_0.view() == e,
                None => {
                    &&& r is Ok
                    &&& r->Ok_0@ == dense(
                        shape@,
                        Self::zero_cells(dtype, extent(shape@)->0 as int),
                    )
                    &&& r->Ok_0.dtype == dtype
                    &&& r->Ok_0.empty_elsewhere()
                    &&& r->Ok_0.wf()
                    &&& r->Ok_0.all_readable()
                },
            },
    {
        let n: usize = match shape_extent(shape) {
            Some(n) => n,
            None => {
                return Err(
                    T0Error::ArithmeticOverflow {
                        op: "buffer",
                        detail: Detail::shape(
                            "shape {dims} element product overflows usize",
                            shape,
                        ),
                    },
                );
            },
        };
        let bytes: usize = match dtype {
            DType::F32 | DType::U32 | DType::I32 => match n.checked_mul(4) {
                Some(b) => b,
                None => {
                    return Err(
                        T0Error::ArithmeticOverflow {
                            op: "buffer",
                            detail: Detail::shape(
                                "shape {dims} byte size (elements * 4) overflows usize",
                                shape,
                            ),
                        },
                    );
                },
            },
            DType::F16 | DType::Bf16 => match n.checked_mul(2) {
                Some(b) => b,
                None => {
                    return Err(
                        T0Error::ArithmeticOverflow {
                            op: "buffer",
                            detail: Detail::shape(
                                "shape {dims} byte size (elements * 2) overflows usize",
                                shape,
                            ),
                        },
                    );
                },
            },
            DType::I4 => match n.checked_add(1) {
                Some(b) => b / 2,
                None => {
                    return Err(
                        T0Error::ArithmeticOverflow {
                            op: "buffer",
                            detail: Detail::shape(
                                "shape {dims} byte size (I4 packed) overflows usize",
                                shape,
                            ),
                        },
                    );
                },
            },
            DType::I8 | DType::E4m3 | DType::E5m2 | DType::Bool => n,
        };
        let mut buf = Self::empty(shape, dtype);
        match dtype {
            DType::F32 => {
                buf.f32_data = vec![0u32; n];
            },
            DType::F16 => {
                buf.f16_data = vec![0u16; n];
            },
            DType::Bf16 => {
                buf.bf16_data = vec![0u16; n];
            },
            DType::I8 => {
                buf.i8_data = vec![0i8; n];
            },
            DType::U32 => {
                buf.u32_data = vec![0u32; n];
            },
            DType::E4m3 | DType::E5m2 | DType::Bool | DType::I4 | DType::I32 => {
                buf.byte_data = vec![0u8; bytes];
            },
        }
        proof {
            let z = Self::zero_cells(dtype, n as int);
            assert(buf@.cells =~= z);
        }
        Ok(buf)
    }

    /// Buffer of singles.
    pub fn from_f32(shape: &[usize], values: &[u32]) -> (r: Self)
        requires
            extent(shape@) == Some(values@.len() as usize),
        ensures
            r.wf(),
            r@.shape == shape@,
            r.f32_data@ == values@,
            r@ == dense(shape@, Cells::F32(values@).or_empty()),
            r.all_readable(),
            r.dtype == DType::F32,
            r.empty_elsewhere(),
    {
        let mut data: Vec<u32> = Vec::new();
        for i in 0..values.len()
            invariant
                data@ =~= values@.take(i as int),
        {
            data.push(values[i]);
        }
        assert(data@ =~= values@);
        let b = Self {
            shape: to_vec(shape),
            dtype: DType::F32,
            f32_data: data,
            f16_data: Vec::new(),
            bf16_data: Vec::new(),
            i8_data: Vec::new(),
            u32_data: Vec::new(),
            byte_data: Vec::new(),
            quant: QuantScheme::Unquantized,
            layout: LayoutId::Contiguous,
        };
        assert(b@.cells =~= Cells::F32(values@).or_empty());
        b
    }

    /// Buffer of half-precision codes.
    pub fn from_f16(shape: &[usize], values: &[u16]) -> (r: Self)
        requires
            extent(shape@) == Some(values@.len() as usize),
        ensures
            r.wf(),
            r@.shape == shape@,
            r.f16_data@ == values@,
            r@ == dense(shape@, Cells::F16(values@).or_empty()),
            r.all_readable(),
            r.dtype == DType::F16,
            r.empty_elsewhere(),
    {
        let mut data: Vec<u16> = Vec::new();
        for i in 0..values.len()
            invariant
                data@ =~= values@.take(i as int),
        {
            data.push(values[i]);
        }
        assert(data@ =~= values@);
        let b = Self {
            shape: to_vec(shape),
            dtype: DType::F16,
            f32_data: Vec::new(),
            f16_data: data,
            bf16_data: Vec::new(),
            i8_data: Vec::new(),
            u32_data: Vec::new(),
            byte_data: Vec::new(),
            quant: QuantScheme::Unquantized,
            layout: LayoutId::Contiguous,
        };
        assert(b@.cells =~= Cells::F16(values@).or_empty());
        b
    }

    /// Buffer of bfloat16 codes.
    pub fn from_bf16(shape: &[usize], values: &[u16]) -> (r: Self)
        requires
            extent(shape@) == Some(values@.len() as usize),
        ensures
            r.wf(),
            r@.shape == shape@,
            r.bf16_data@ == values@,
            r@ == dense(shape@, Cells::Bf16(values@).or_empty()),
            r.all_readable(),
            r.dtype == DType::Bf16,
            r.empty_elsewhere(),
    {
        let mut data: Vec<u16> = Vec::new();
        for i in 0..values.len()
            invariant
                data@ =~= values@.take(i as int),
        {
            data.push(values[i]);
        }
        assert(data@ =~= values@);
        let b = Self {
            shape: to_vec(shape),
            dtype: DType::Bf16,
            f32_data: Vec::new(),
            f16_data: Vec::new(),
            bf16_data: data,
            i8_data: Vec::new(),
            u32_data: Vec::new(),
            byte_data: Vec::new(),
            quant: QuantScheme::Unquantized,
            layout: LayoutId::Contiguous,
        };
        assert(b@.cells =~= Cells::Bf16(values@).or_empty());
        b
    }

    /// Buffer of signed bytes.
    pub fn from_i8(shape: &[usize], values: &[i8]) -> (r: Self)
        requires
            extent(shape@) == Some(values@.len() as usize),
        ensures
            r.wf(),
            r@.shape == shape@,
            r.i8_data@ == values@,
            r@ == dense(shape@, Cells::I8(values@).or_empty()),
            r.all_readable(),
            r.dtype == DType::I8,
            r.empty_elsewhere(),
    {
        let mut data: Vec<i8> = Vec::new();
        for i in 0..values.len()
            invariant
                data@ =~= values@.take(i as int),
        {
            data.push(values[i]);
        }
        assert(data@ =~= values@);
        let b = Self {
            shape: to_vec(shape),
            dtype: DType::I8,
            f32_data: Vec::new(),
            f16_data: Vec::new(),
            bf16_data: Vec::new(),
            i8_data: data,
            u32_data: Vec::new(),
            byte_data: Vec::new(),
            quant: QuantScheme::Unquantized,
            layout: LayoutId::Contiguous,
        };
        assert(b@.cells =~= Cells::I8(values@).or_empty());
        b
    }

    /// Buffer of unsigned integers.
    pub fn from_u32(shape: &[usize], values: &[u32]) -> (r: Self)
        requires
            extent(shape@) == Some(values@.len() as usize),
        ensures
            r.wf(),
            r@.shape == shape@,
            r.u32_data@ == values@,
            r@ == dense(shape@, Cells::U32(values@).or_empty()),
            r.all_readable(),
            r.dtype == DType::U32,
            r.empty_elsewhere(),
    {
        let mut data: Vec<u32> = Vec::new();
        for i in 0..values.len()
            invariant
                data@ =~= values@.take(i as int),
        {
            data.push(values[i]);
        }
        assert(data@ =~= values@);
        let b = Self {
            shape: to_vec(shape),
            dtype: DType::U32,
            f32_data: Vec::new(),
            f16_data: Vec::new(),
            bf16_data: Vec::new(),
            i8_data: Vec::new(),
            u32_data: data,
            byte_data: Vec::new(),
            quant: QuantScheme::Unquantized,
            layout: LayoutId::Contiguous,
        };
        assert(b@.cells =~= Cells::U32(values@).or_empty());
        b
    }

    /// Buffer of signed 32-bit integers, stored as little-endian bytes.
    pub fn from_i32(shape: &[usize], values: &[i32]) -> (r: Self)
        requires
            extent(shape@) == Some(values@.len() as usize),
            4 * values@.len() <= usize::MAX,
        ensures
            r.wf(),
            r.dtype == DType::I32,
            r@ == dense(shape@, Cells::Bytes(DType::I32, r.byte_data@)),
            r.empty_elsewhere(),
            r.byte_data@.len() == 4 * values@.len(),
            forall|i: int|
                0 <= i < values@.len() ==> bits_as_i32(#[trigger] le32(r.byte_data@, i * 4))
                    == values@[i],
    {
        let n: usize = values.len();
        let mut data: Vec<u8> = vec![0u8; n * 4];
        for i in 0..n
            invariant
                n == values@.len(),
                data@.len() == 4 * n,
                4 * n <= usize::MAX,
                forall|j: int|
                    0 <= j < i ==> bits_as_i32(#[trigger] le32(data@, j * 4)) == values@[j],
        {
            let ghost before = data@;
            let v: i32 = values[i];
            let bits: u32 = if v >= 0 {
                v as u32
            } else {
                (v as i64 + 0x1_0000_0000) as u32
            };
            write_le32(data.as_mut_slice(), i * 4, bits);
            proof {
                assert forall|j: int| 0 <= j <= i implies bits_as_i32(
                    #[trigger] le32(data@, j * 4),
                ) == values@[j] by {
                    lemma_put_le32(before, i * 4, bits, j * 4);
                    if j < i {
                        assert(bits_as_i32(le32(before, j * 4)) == values@[j]);
                    }
                }
            }
        }
        Self {
            shape: to_vec(shape),
            dtype: DType::I32,
            f32_data: Vec::new(),
            f16_data: Vec::new(),
            bf16_data: Vec::new(),
            i8_data: Vec::new(),
            u32_data: Vec::new(),
            byte_data: data,
            quant: QuantScheme::Unquantized,
            layout: LayoutId::Contiguous,
        }
    }

    /// Buffer of raw bytes; the bytes may be more than the shape needs.
    pub fn from_bytes(shape: &[usize], dtype: DType, bytes: &[u8]) -> (r: Self)
        requires
            extent(shape@) is Some,
            byte_len(dtype, extent(shape@)->0 as int) <= bytes@.len(),
        ensures
            r@ == dense(shape@, Cells::Bytes(dtype, bytes@)),
            r.byte_data@ == bytes@,
            r.dtype == dtype,
            r.wf(),
    {
        let mut data: Vec<u8> = Vec::new();
        for i in 0..bytes.len()
            invariant
                data@ =~= bytes@.take(i as int),
        {
            data.push(bytes[i]);
        }
        assert(data@ =~= bytes@);
        Self {
            shape: to_vec(shape),
            dtype,
            f32_data: Vec::new(),
            f16_data: Vec::new(),
            bf16_data: Vec::new(),
            i8_data: Vec::new(),
            u32_data: Vec::new(),
            byte_data: data,
            quant: QuantScheme::Unquantized,
            layout: LayoutId::Contiguous,
        }
    }

    /// Buffer of E4M3 codes.
    pub fn from_e4m3_bytes(shape: &[usize], bytes: &[u8]) -> (r: Self)
        requires
            extent(shape@) == Some(bytes@.len() as usize),
        ensures
            r@ == dense(shape@, Cells::Bytes(DType::E4m3, bytes@)),
            r.byte_data@ == bytes@,
            r.dtype == DType::E4m3,
            r.wf(),
    {
        Self::from_bytes(shape, DType::E4m3, bytes)
    }

    /// Quantization scheme.
    pub fn quant(&self) -> (r: QuantScheme)
        ensures
            r == self@.quant,
    {
        self.quant
    }

    /// Storage layout.
    pub fn layout(&self) -> (r: LayoutId)
        ensures
            r == self@.layout,
    {
        self.layout
    }

    /// The buffer with another quantization scheme.
    pub fn with_quant(self, quant: QuantScheme) -> (r: Self)
        ensures
            r == (TypedBuffer { quant, ..self }),
    {
        TypedBuffer { quant, ..self }
    }

    /// The buffer with another layout.
    pub fn with_layout(self, layout: LayoutId) -> (r: Self)
        ensures
            r == (TypedBuffer { layout, ..self }),
    {
        TypedBuffer { layout, ..self }
    }

    /// Extents of the dimensions.
    pub fn shape(&self) -> (r: &[usize])
        ensures
            r@ == self@.shape,
    {
        self.shape.as_slice()
    }

    /// Number of dimensions.
    pub fn rank(&self) -> (r: usize)
        ensures
            r == self@.rank(),
    {
        self.shape.len()
    }

    /// Element type.
    pub fn dtype(&self) -> (r: DType)
        ensures
            r == self.dtype,
            r == self@.dtype(),
    {
        self.dtype
    }

    /// Number of elements.
    pub fn num_elements(&self) -> (r: usize)
        requires
            extent(self@.shape) is Some,
        ensures
            Some(r) == extent(self@.shape),
    {
        match shape_extent(self.shape.as_slice()) {
            Some(n) => n,
            None => 0,
        }
    }

    /// Reads an element as a single.
    pub fn read_f32(&self, index: usize) -> (r: u32)
        requires
            self.readable(index as int),
        ensures
            r == self@.cells.f32_at(index as int),
    {
        match self.dtype {
            DType::F32 => self.f32_data[index],
            DType::F16 => f16_to_f32(self.f16_data[index]),
            DType::Bf16 => bf16_to_f32(self.bf16_data[index]),
            DType::I8 => i32_to_f32(self.i8_data[index] as i32),
            DType::U32 => u32_to_f32(self.u32_data[index]),
            DType::E4m3 => fp8_e4m3_decode(self.byte_data[index]),
            DType::E5m2 => fp8_e5m2_decode(self.byte_data[index]),
            DType::Bool | DType::I4 | DType::I32 => {
                read_f32_at(self.dtype, self.byte_data.as_slice(), index)
            },
        }
    }

    /// Writes a single to an element, converted to the element type.
    pub fn write_f32(&mut self, index: usize, val: u32)
        requires
            old(self).readable(index as int),
        ensures
            final(self)@ == old(self)@.with_cells(old(self)@.cells.with_f32(index as int, val)),
            final(self).dtype == old(self).dtype,
            final(self).kept_elsewhere(old(self)),
            forall|i: int| old(self).readable(i) ==> #[trigger] final(self).readable(i),
    {
        match self.dtype {
            DType::F32 => {
                self.f32_data.set(index, val);
            },
            DType::F16 => {
                self.f16_data.set(index, f32_to_f16(val));
            },
            DType::Bf16 => {
                self.bf16_data.set(index, f32_to_bf16(val));
            },
            DType::I8 => {
                self.i8_data.set(index, f32_to_i8(val));
            },
            DType::U32 => {
                self.u32_data.set(index, f32_to_u32(val));
            },
            DType::E4m3 => {
                self.byte_data.set(index, fp8_e4m3_encode(val));
            },
            DType::E5m2 => {
                self.byte_data.set(index, fp8_e5m2_encode(val));
            },
            DType::Bool | DType::I4 | DType::I32 => {
                let dtype = self.dtype;
                write_f32_at(dtype, self.byte_data.as_mut_slice(), index, val);
            },
        }
    }

    /// Reads a raw byte, or an element as a byte for other types.
    pub fn read_byte(&self, index: usize) -> (r: u8)
        requires
            match self.dtype {
                DType::E4m3 | DType::E5m2 | DType::Bool | DType::I4 | DType::I32 => index
                    < self.byte_data@.len(),
                _ => self.readable(index as int),
            },
        ensures
            r == self@.byte_at(index as int),
    {
        match self.dtype {
            DType::E4m3 | DType::E5m2 | DType::Bool | DType::I4 | DType::I32 => {
                self.byte_data[index]
            },
            DType::I8 => unsigned_byte(self.i8_data[index]),
            _ => f32_to_int(self.read_f32(index), false, 0, 255) as u8,
        }
    }

    /// Writes a raw byte, or a byte as an element for other types.
    pub fn write_byte(&mut self, index: usize, val: u8)
        requires
            match old(self).dtype {
                DType::E4m3 | DType::E5m2 | DType::Bool | DType::I4 | DType::I32 => index < old(
                    self,
                ).byte_data@.len(),
                _ => old(self).readable(index as int),
            },
        ensures
            final(self)@ == old(self)@.with_cells(
                match old(self)@.cells {
                    Cells::Bytes(dtype, s) => Cells::Bytes(dtype, s.update(index as int, val)),
                    Cells::I8(s) => Cells::I8(s.update(index as int, byte_as_i8(val))),
                    c => c.with_f32(index as int, f32_of_int(val as int)),
                },
            ),
            final(self).dtype == old(self).dtype,
            final(self).kept_elsewhere(old(self)),
    {
        match self.dtype {
            DType::E4m3 | DType::E5m2 | DType::Bool | DType::I4 | DType::I32 => {
                self.byte_data.set(index, val);
            },
            DType::I8 => {
                self.i8_data.set(index, signed_byte(val));
            },
            _ => self.write_f32(index, u32_to_f32(val as u32)),
        }
    }

    /// The raw bytes; empty for typed storage.
    pub fn byte_data(&self) -> (r: &[u8])
        ensures
            r@ == self.byte_data@,
    {
        self.byte_data.as_slice()
    }

    /// The elements as singles.
    pub fn to_f32_vec(&self) -> (r: Vec<u32>)
        requires
            self.all_readable(),
        ensures
            r@ == Seq::new(self@.count() as nat, |i: int| self@.cells.f32_at(i)),
    {
        let n: usize = self.num_elements();
        let mut out: Vec<u32> = Vec::new();
        for i in 0..n
            invariant
                self.all_readable(),
                n == self@.count(),
                out@ =~= Seq::new(i as nat, |j: int| self@.cells.f32_at(j)),
        {
            assert(self.readable(i as int));
            out.push(self.read_f32(i));
        }
        out
    }

    /// The same storage under another shape of as many elements.
    pub fn copy_with_shape(&self, shape: &[usize]) -> (r: Option<Self>)
        requires
            extent(shape@) is Some,
            extent(self.shape@) is Some,
        ensures
            match r {
                None => extent(shape@) != extent(self.shape@),
                Some(b) => {
                    &&& extent(shape@) == extent(self.shape@)
                    &&& b@ == (Tensor { shape: shape@, ..self@ })
                    &&& b.dtype == self.dtype
                    &&& b.same_storage(self)
                    &&& self.wf() ==> b.wf()
                    &&& self.all_readable() ==> b.all_readable()
                },
            },
    {
        let expected: usize = match shape_extent(shape) {
            Some(n) => n,
            None => 0,
        };
        if self.num_elements() != expected {
            return None;
        }
        let b = Self {
            shape: to_vec(shape),
            dtype: self.dtype,
            f32_data: copy_u32(&self.f32_data),
            f16_data: copy_u16(&self.f16_data),
            bf16_data: copy_u16(&self.bf16_data),
            i8_data: copy_i8(&self.i8_data),
            u32_data: copy_u32(&self.u32_data),
            byte_data: copy_u8(&self.byte_data),
            quant: self.quant,
            layout: self.layout,
        };
        proof {
            if self.all_readable() {
                assert forall|i: int| 0 <= i < extent(b.shape@)->0 implies #[trigger] b.readable(
                    i,
                ) by {
                    assert(self.readable(i));
                }
            }
        }
        Some(b)
    }

    /// The singles for writing, if they are stored as such and there are any.
    pub fn as_f32_slice_mut(&mut self) -> (r: Option<&mut [u32]>)
        ensures
            match r {
                Some(s) => {
                    &&& old(self)@.cells is F32
                    &&& s@ == old(self)@.cells->F32_0
                    &&& final(self).f32_data@ == (*final(s))@
                    &&& *final(self) == (TypedBuffer {
                        f32_data: final(self).f32_data,
                        ..*old(self)
                    })
                },
                None => !(old(self)@.cells is F32) && *final(self) == *old(self),
            },
    {
        if self.dtype == DType::F32 && self.f32_data.len() > 0 {
            Some(self.f32_data.as_mut_slice())
        } else {
            None
        }
    }

    /// The `i`-th raw byte; zero beyond their end.
    pub open spec fn octet(&self, i: int) -> u8 {
        if i < self.byte_data@.len() {
            self.byte_data@[i]
        } else {
            0
        }
    }

    /// The elements as signed bytes: as they are stored, typed or raw, or
    /// truncated.
    pub open spec fn signed_elements(&self) -> Seq<i8> {
        if self.dtype != DType::I8 {
            Seq::new(
                self@.count() as nat,
                |i: int| int_of_f32(self@.cells.f32_at(i), false, -128, 127) as i8,
            )
        } else if self.i8_data@.len() > 0 {
            self.i8_data@
        } else {
            Seq::new(self@.count() as nat, |i: int| byte_as_i8(self.octet(i)))
        }
    }

    /// The elements as signed bytes.
    pub fn to_i8_vec(&self) -> (r: Vec<i8>)
        requires
            extent(self.shape@) is Some,
            self.dtype != DType::I8 ==> self.all_readable(),
        ensures
            r@ == self.signed_elements(),
            self.dtype == DType::I8 && self.i8_data@.len() == 0 && self@.backed() ==> r@
                == Seq::new(self@.count() as nat, |i: int| self@.i8_at(i)),
    {
        let n: usize = self.num_elements();
        let mut out: Vec<i8> = Vec::new();
        if self.dtype == DType::I8 {
            if self.i8_data.len() > 0 {
                return copy_i8(&self.i8_data);
            }
            for i in 0..n
                invariant
                    out@ =~= Seq::new(i as nat, |j: int| byte_as_i8(self.octet(j))),
            {
                let b: u8 = if i < self.byte_data.len() {
                    self.byte_data[i]
                } else {
                    0
                };
                out.push(signed_byte(b));
            }
            proof {
                if self@.backed() {
                    assert(out@ =~= Seq::new(self@.count() as nat, |i: int| self@.i8_at(i)));
                }
            }
            return out;
        }
        for i in 0..n
            invariant
                self.all_readable(),
                n == self@.count(),
                out@ =~= Seq::new(
                    i as nat,
                    |j: int| int_of_f32(self@.cells.f32_at(j), false, -128, 127) as i8,
                ),
        {
            assert(self.readable(i as int));
            out.push(f32_to_int(self.read_f32(i), false, -128, 127) as i8);
        }
        out
    }

    /// The 32-bit word at element `i` of the raw bytes; zero beyond their end.
    pub open spec fn word(&self, i: int) -> u32 {
        if i * 4 + 4 <= self.byte_data@.len() {
            le32(self.byte_data@, i * 4)
        } else {
            0
        }
    }

    /// The word at element `i` of the raw bytes.
    fn word_at(&self, i: usize) -> (r: u32)
        ensures
            r == self.word(i as int),
    {
        let len: usize = self.byte_data.len();
        match i.checked_mul(4) {
            Some(off) => if len >= 4 && off <= len - 4 {
                read_le32(self.byte_data.as_slice(), off)
            } else {
                0
            },
            None => 0,
        }
    }

    /// The elements as unsigned integers: as they are stored, or truncated.
    pub fn to_u32_vec(&self) -> (r: Vec<u32>)
        requires
            extent(self.shape@) is Some,
            self.dtype != DType::U32 ==> self.all_readable(),
        ensures
            r@ == (if self.dtype == DType::U32 && self.u32_data@.len() > 0 {
                self.u32_data@
            } else if self.dtype == DType::U32 {
                Seq::new(self@.count() as nat, |i: int| self.word(i))
            } else {
                Seq::new(
                    self@.count() as nat,
                    |i: int| int_of_f32(self@.cells.f32_at(i), false, 0, 0xFFFF_FFFF) as u32,
                )
            }),
    {
        let n: usize = self.num_elements();
        if self.dtype == DType::U32 && self.u32_data.len() > 0 {
            return copy_u32(&self.u32_data);
        }
        let mut out: Vec<u32> = Vec::new();
        if self.dtype == DType::U32 {
            for i in 0..n
                invariant
                    out@ =~= Seq::new(i as nat, |j: int| self.word(j)),
            {
                out.push(self.word_at(i));
            }
            return out;
        }
        for i in 0..n
            invariant
                self.all_readable(),
                n == self@.count(),
                out@ =~= Seq::new(
                    i as nat,
                    |j: int| int_of_f32(self@.cells.f32_at(j), false, 0, 0xFFFF_FFFF) as u32,
                ),
        {
            assert(self.readable(i as int));
            out.push(f32_to_int(self.read_f32(i), false, 0, 0xFFFF_FFFF) as u32);
        }
        out
    }

    /// The elements as signed integers: as they are stored, or truncated.
    pub fn to_i32_vec(&self) -> (r: Vec<i32>)
        requires
            extent(self.shape@) is Some,
            self.dtype != DType::I32 ==> self.all_readable(),
        ensures
            r@ == (if self.dtype == DType::I32 {
                Seq::new(self@.count() as nat, |i: int| bits_as_i32(self.word(i)))
            } else {
                Seq::new(
                    self@.count() as nat,
                    |i: int|
                        int_of_f32(self@.cells.f32_at(i), false, -0x8000_0000, 0x7FFF_FFFF) as i32,
                )
            }),
    {
        let n: usize = self.num_elements();
        let mut out: Vec<i32> = Vec::new();
        if self.dtype == DType::I32 {
            for i in 0..n
                invariant
                    out@ =~= Seq::new(i as nat, |j: int| bits_as_i32(self.word(j))),
            {
                let b: u32 = self.word_at(i);
                let v: i32 = if b < 0x8000_0000 {
                    b as i32
                } else {
                    (b as i64 - 0x1_0000_0000) as i32
                };
                out.push(v);
            }
            return out;
        }
        for i in 0..n
            invariant
                self.all_readable(),
                n == self@.count(),
                out@ =~= Seq::new(
                    i as nat,
                    |j: int|
                        int_of_f32(self@.cells.f32_at(j), false, -0x8000_0000, 0x7FFF_FFFF) as i32,
                ),
        {
            assert(self.readable(i as int));
            out.push(f32_to_int(self.read_f32(i), false, -0x8000_0000, 0x7FFF_FFFF) as i32);
        }
        out
    }

    /// The bytes of what is stored: raw bytes as they are, typed elements with
    /// their lowest byte first.
    pub open spec fn stored_bytes(&self) -> Seq<u8> {
        match self@.cells {
            Cells::F32(s) => single_bytes(s),
            Cells::F16(s) => half_bytes(s),
            Cells::Bf16(s) => half_bytes(s),
            Cells::I8(s) => Seq::new(s.len(), |i: int| i8_as_byte(s[i])),
            Cells::U32(s) => single_bytes(s),
            Cells::Bytes(_, s) => s,
        }
    }

    /// Copies the bytes of what is stored.
    pub fn to_byte_vec(&self) -> (r: Vec<u8>)
        ensures
            r@ == self.stored_bytes(),
    {
        match self.dtype {
            DType::F32 if self.f32_data.len() > 0 => split_singles(&self.f32_data),
            DType::F16 if self.f16_data.len() > 0 => split_halves(&self.f16_data),
            DType::Bf16 if self.bf16_data.len() > 0 => split_halves(&self.bf16_data),
            DType::I8 if self.i8_data.len() > 0 => {
                let mut out: Vec<u8> = Vec::new();
                for i in 0..self.i8_data.len()
                    invariant
                        out@ =~= Seq::new(i as nat, |j: int| i8_as_byte(self.i8_data@[j])),
                {
                    out.push(unsigned_byte(self.i8_data[i]));
                }
                out
            },
            DType::U32 if self.u32_data.len() > 0 => split_singles(&self.u32_data),
            _ => copy_u8(&self.byte_data),
        }
    }

    /// The buffer as a read-only view.
    pub fn as_view(&self) -> (r: TensorView<'_>)
        ensures
            r@ == self@,
            r.scale is None,
    {
        let data = match self.dtype {
            DType::F32 if self.f32_data.len() > 0 => TensorData::F32(self.f32_data.as_slice()),
            DType::F16 if self.f16_data.len() > 0 => TensorData::F16(self.f16_data.as_slice()),
            DType::Bf16 if self.bf16_data.len() > 0 => TensorData::Bf16(self.bf16_data.as_slice()),
            DType::I8 if self.i8_data.len() > 0 => TensorData::I8(self.i8_data.as_slice()),
            DType::U32 if self.u32_data.len() > 0 => TensorData::U32(self.u32_data.as_slice()),
            _ => TensorData::Bytes(self.dtype, self.byte_data.as_slice()),
        };
        TensorView {
            shape: to_vec(self.shape.as_slice()),
            data,
            quant: self.quant,
            layout: self.layout,
            scale: None,
        }
    }

    /// The buffer as a writable view.
    pub fn as_view_mut(&mut self) -> (r: TensorViewMut<'_>)
        ensures
            r@ == old(self)@,
            match r.data {
                TensorDataMut::F32(s) => final(self).f32_data@ == (*final(s))@ && *final(self) == (
                TypedBuffer { f32_data: final(self).f32_data, ..*old(self) }),
                TensorDataMut::F16(s) => final(self).f16_data@ == (*final(s))@ && *final(self) == (
                TypedBuffer { f16_data: final(self).f16_data, ..*old(self) }),
                TensorDataMut::Bf16(s) => final(self).bf16_data@ == (*final(s))@ && *final(self) == (
                TypedBuffer { bf16_data: final(self).bf16_data, ..*old(self) }),
                TensorDataMut::I8(s) => final(self).i8_data@ == (*final(s))@ && *final(self) == (
                TypedBuffer { i8_data: final(self).i8_data, ..*old(self) }),
                TensorDataMut::U32(s) => final(self).u32_data@ == (*final(s))@ && *final(self) == (
                TypedBuffer { u32_data: final(self).u32_data, ..*old(self) }),
                TensorDataMut::Bytes(_, s) => final(self).byte_data@ == (*final(s))@ && *final(self) == (
                TypedBuffer { byte_data: final(self).byte_data, ..*old(self) }),
            },
    {
        let dtype = self.dtype;
        let shape = to_vec(self.shape.as_slice());
        let quant = self.quant;
        let layout = self.layout;
        let data = match dtype {
            DType::F32 if self.f32_data.len() > 0 => TensorDataMut::F32(
                self.f32_data.as_mut_slice(),
            ),
            DType::F16 if self.f16_data.len() > 0 => TensorDataMut::F16(
                self.f16_data.as_mut_slice(),
            ),
            DType::Bf16 if self.bf16_data.len() > 0 => TensorDataMut::Bf16(
                self.bf16_data.as_mut_slice(),
            ),
            DType::I8 if self.i8_data.len() > 0 => TensorDataMut::I8(self.i8_data.as_mut_slice()),
            DType::U32 if self.u32_data.len() > 0 => TensorDataMut::U32(
                self.u32_data.as_mut_slice(),
            ),
            _ => TensorDataMut::Bytes(dtype, self.byte_data.as_mut_slice()),
        };
        TensorViewMut { shape, data, quant, layout }
    }
}

#[verifier::truncate]
fn low16(bits: u32) -> (r: u16)
    ensures
        r == bits as u16,
{
    bits as u16
}

#[verifier::truncate]
fn low8(bits: u32) -> (r: u8)
    ensures
        r == bits as u8,
{
    bits as u8
}

pub(crate) fn copy_u32(src: &Vec<u32>) -> (v: Vec<u32>)
    ensures
        v@ == src@,
{
    let mut v: Vec<u32> = Vec::new();
    for i in 0..src.len()
        invariant
            v@ =~= src@.take(i as int),
    {
        v.push(src[i]);
    }
    assert(v@ =~= src@);
    v
}

pub(crate) fn copy_u16(src: &Vec<u16>) -> (v: Vec<u16>)
    ensures
        v@ == src@,
{
    let mut v: Vec<u16> = Vec::new();
    for i in 0..src.len()
        invariant
            v@ =~= src@.take(i as int),
    {
        v.push(src[i]);
    }
    assert(v@ =~= src@);
    v
}

/// Byte of a word, counted from the lowest.
pub open spec fn byte_of_word(v: u32, i: int) -> u8 {
    if i == 0 {
        (v % 0x100) as u8
    } else if i == 1 {
        (v / 0x100 % 0x100) as u8
    } else if i == 2 {
        (v / 0x1_0000 % 0x100) as u8
    } else {
        (v / 0x100_0000) as u8
    }
}

/// Bytes of 32-bit words, each with its lowest byte first.
pub open spec fn single_bytes(s: Seq<u32>) -> Seq<u8> {
    Seq::new(4 * s.len(), |i: int| byte_of_word(s[i / 4], i % 4))
}

/// Bytes of 16-bit words, each with its lowest byte first.
pub open spec fn half_bytes(s: Seq<u16>) -> Seq<u8> {
    Seq::new(2 * s.len(), |i: int| byte_of_word(s[i / 2] as u32, i % 2))
}

fn split_singles(src: &Vec<u32>) -> (v: Vec<u8>)
    ensures
        v@ == single_bytes(src@),
{
    let mut v: Vec<u8> = Vec::new();
    for i in 0..src.len()
        invariant
            v@ =~= single_bytes(src@.take(i as int)),
    {
        let w: u32 = src[i];
        v.push((w % 0x100) as u8);
        v.push((w / 0x100 % 0x100) as u8);
        v.push((w / 0x1_0000 % 0x100) as u8);
        v.push((w / 0x100_0000) as u8);
        assert(v@ =~= single_bytes(src@.take(i + 1)));
    }
    assert(src@.take(src@.len() as int) =~= src@);
    v
}

fn split_halves(src: &Vec<u16>) -> (v: Vec<u8>)
    ensures
        v@ == half_bytes(src@),
{
    let mut v: Vec<u8> = Vec::new();
    for i in 0..src.len()
        invariant
            v@ =~= half_bytes(src@.take(i as int)),
    {
        let w: u16 = src[i];
        v.push((w % 0x100) as u8);
        v.push((w / 0x100) as u8);
        assert(v@ =~= half_bytes(src@.take(i + 1)));
    }
    assert(src@.take(src@.len() as int) =~= src@);
    v
}

pub(crate) fn copy_i8(src: &Vec<i8>) -> (v: Vec<i8>)
    ensures
        v@ == src@,
{
    let mut v: Vec<i8> = Vec::new();
    for i in 0..src.len()
        invariant
            v@ =~= src@.take(i as int),
    {
        v.push(src[i]);
    }
    assert(v@ =~= src@);
    v
}

pub(crate) fn copy_u8(src: &Vec<u8>) -> (v: Vec<u8>)
    ensures
        v@ == src@,
{
    let mut v: Vec<u8> = Vec::new();
    for i in 0..src.len()
        invariant
            v@ =~= src@.take(i as int),
    {
        v.push(src[i]);
    }
    assert(v@ =~= src@);
    v
}

} // verus!
