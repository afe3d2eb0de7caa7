//! Caches of keys and values.
//!
//! A cache holds its slots in blocks of 32. Rows are stored as half-precision
//! codes, or as signed bytes or E4M3 codes with one half-precision scale per
//! row. A slot remembers whether it was ever written.
use vstd::prelude::*;
use crate::arith::{fp_mul, is_arith, times, FloatOp};
use crate::buffer::{copy_i8, copy_u16, copy_u8};
use crate::check::{
    attr_error, clear, fault_if, fault_of, given, invalid_attr, length_error, length_mismatch,
    no_problems, or_fault, overflow, overflow_error, push_when,
};
use crate::dtype::{
    f16_to_f32, f32_of_e4m3, f32_of_f16, f32_of_int, fp8_e4m3_decode, i32_to_f32,
};
use crate::error::{about, outcome, quoting, views, Arg, Detail, ErrorView, T0Error};
use crate::index::lemma_flat_bound;
use crate::ir::DType;

verus! {

/// Slots per block.
pub const BLOCK_TOKENS: usize = 32;

/// `a * b + c`, or the error of an overflow.
pub open spec fn addr_result(a: int, b: int, c: int, what: &'static str) -> Result<usize, ErrorView> {
    if a * b > usize::MAX || a * b + c > usize::MAX {
        Err(
            overflow_error(
                "attention",
                about(
                    what,
                    "{what}: {} * {} + {} overflows usize",
                    seq![Arg::Int(a as u64), Arg::Int(b as u64), Arg::Int(c as u64)],
                ),
            ),
        )
    } else {
        Ok((a * b + c) as usize)
    }
}

/// Computes `a * b + c` for a flat index.
pub fn checked_addr(a: usize, b: usize, c: usize, what: &'static str) -> (r: Result<usize, T0Error>)
    ensures
        outcome(r) == addr_result(a as int, b as int, c as int, what),
{
    match a.checked_mul(b) {
        Some(v) => match v.checked_add(c) {
            Some(w) => {
                return Ok(w);
            },
            None => {},
        },
        None => {},
    }
    let args = vec![Arg::Int(a as u64), Arg::Int(b as u64), Arg::Int(c as u64)];
    assert(args@ =~= seq![Arg::Int(a as u64), Arg::Int(b as u64), Arg::Int(c as u64)]);
    Err(overflow("attention", Detail::about(what, "{what}: {} * {} + {} overflows usize", args)))
}

/// The successor of an index, capped at the largest size.
pub open spec fn end_of(idx: int) -> int {
    if idx + 1 > usize::MAX {
        usize::MAX as int
    } else {
        idx + 1
    }
}

/// The successor of an index, capped at the largest size.
pub fn capped_end(idx: usize) -> (r: usize)
    ensures
        r == end_of(idx as int),
{
    if idx == usize::MAX {
        usize::MAX
    } else {
        idx + 1
    }
}

/// Stores a value, or gives an error and leaves the slice unchanged if the
/// index is outside it.
pub fn checked_store<T: Copy>(slice: &mut [T], idx: usize, value: T, tensor: &'static str) -> (r: Result<
    (),
    T0Error,
>)
    ensures
        idx < old(slice)@.len() ==> r is Ok && final(slice)@ == old(slice)@.update(
            idx as int,
            value,
        ),
        idx >= old(slice)@.len() ==> final(slice)@ == old(slice)@ && outcome(r) == Err::<
            (),
            ErrorView,
        >(
            length_error(
                tensor,
                old(slice)@.len() as int,
                end_of(idx as int),
                seq![old(slice)@.len() as usize],
            ),
        ),
{
    let len: usize = slice.len();
    if idx < len {
        slice[idx] = value;
        Ok(())
    } else {
        let shape = vec![len];
        assert(shape@ =~= seq![len]);
        Err(length_mismatch(tensor, len, capped_end(idx), shape.as_slice()))
    }
}

/// Storage of rows of one kind: only the list of the cache's type is in use.
#[derive(Debug)]
pub struct Plane {
    /// Half-precision codes.
    pub half: Vec<u16>,
    /// Signed-byte codes.
    pub bytes: Vec<i8>,
    /// E4M3 codes.
    pub e4m3: Vec<u8>,
    /// Half-precision scales of byte rows.
    pub scales: Vec<u16>,
}

/// Contents of a [`Plane`].
#[verifier::ext_equal]
pub struct PlaneView {
    /// Half-precision codes.
    pub half: Seq<u16>,
    /// Signed-byte codes.
    pub bytes: Seq<i8>,
    /// E4M3 codes.
    pub e4m3: Seq<u8>,
    /// Half-precision scales of byte rows.
    pub scales: Seq<u16>,
}

impl View for Plane {
    type V = PlaneView;

    open spec fn view(&self) -> PlaneView {
        PlaneView {
            half: self.half@,
            bytes: self.bytes@,
            e4m3: self.e4m3@,
            scales: self.scales@,
        }
    }
}

impl Clone for Plane {
    fn clone(&self) -> (r: Self)
        ensures
            r@ == self@,
    {
        Plane {
            half: copy_u16(&self.half),
            bytes: copy_i8(&self.bytes),
            e4m3: copy_u8(&self.e4m3),
            scales: copy_u16(&self.scales),
        }
    }
}

fn copy_marks(src: &Vec<bool>) -> (v: Vec<bool>)
    ensures
        v@ == src@,
{
    let mut v: Vec<bool> = Vec::new();
    for i in 0..src.len()
        invariant
            v@ =~= src@.take(i as int),
    {
        v.push(src[i]);
    }
    assert(v@ =~= src@);
    v
}

/// Whether a cache can store the type.
pub open spec fn is_cache_dtype(dtype: DType) -> bool {
    dtype == DType::F16 || dtype == DType::I8 || dtype == DType::E4m3
}

/// Whether a cache can store the type.
pub fn cache_dtype(dtype: DType) -> (r: bool)
    ensures
        r == is_cache_dtype(dtype),
{
    matches!(dtype, DType::F16 | DType::I8 | DType::E4m3)
}

impl PlaneView {
    /// Whether the plane holds `n` elements with `rows` scales, of the given
    /// type.
    pub open spec fn wf(self, dtype: DType, n: int, rows: int) -> bool {
        match dtype {
            DType::F16 => self.half.len() == n && self.bytes.len() == 0 && self.e4m3.len() == 0
                && self.scales.len() == 0,
            DType::I8 => self.half.len() == 0 && self.bytes.len() == n && self.e4m3.len() == 0
                && self.scales.len() == rows,
            DType::E4m3 => self.half.len() == 0 && self.bytes.len() == 0 && self.e4m3.len() == n
                && self.scales.len() == rows,
            _ => false,
        }
    }

    /// A plane of zeros.
    pub open spec fn zeros(dtype: DType, n: int, rows: int) -> PlaneView {
        let none16 = Seq::<u16>::empty();
        let none8 = Seq::<i8>::empty();
        let none = Seq::<u8>::empty();
        let scales = Seq::new(rows as nat, |i: int| 0u16);
        match dtype {
            DType::F16 => PlaneView {
                half: Seq::new(n as nat, |i: int| 0u16),
                bytes: none8,
                e4m3: none,
                scales: none16,
            },
            DType::I8 => PlaneView {
                half: none16,
                bytes: Seq::new(n as nat, |i: int| 0i8),
                e4m3: none,
                scales,
            },
            _ => PlaneView {
                half: none16,
                bytes: none8,
                e4m3: Seq::new(n as nat, |i: int| 0u8),
                scales,
            },
        }
    }

    /// Number of codes of the type.
    pub open spec fn len(self, dtype: DType) -> int {
        match dtype {
            DType::F16 => self.half.len() as int,
            DType::I8 => self.bytes.len() as int,
            _ => self.e4m3.len() as int,
        }
    }

    /// Number at a position, with the scale at another.
    pub open spec fn value<F: Fn(FloatOp, u32, u32) -> u32>(
        self,
        f: F,
        dtype: DType,
        off: int,
        row: int,
    ) -> u32 {
        match dtype {
            DType::F16 => f32_of_f16(self.half[off]),
            DType::I8 => fp_mul(f, f32_of_f16(self.scales[row]), f32_of_int(self.bytes[off] as int)),
            _ => fp_mul(f, f32_of_f16(self.scales[row]), f32_of_e4m3(self.e4m3[off])),
        }
    }

    /// Number at a position, or the error of a position outside the plane.
    pub open spec fn result<F: Fn(FloatOp, u32, u32) -> u32>(
        self,
        f: F,
        dtype: DType,
        off: int,
        row: int,
        names: (&'static str, &'static str),
        shape: Seq<usize>,
        scale_shape: Seq<usize>,
    ) -> Result<u32, ErrorView> {
        if off >= self.len(dtype) {
            Err(length_error(names.0, self.len(dtype), end_of(off), shape))
        } else if dtype != DType::F16 && row >= self.scales.len() {
            Err(length_error(names.1, self.scales.len() as int, end_of(row), scale_shape))
        } else {
            Ok(self.value(f, dtype, off, row))
        }
    }
}

impl Plane {
    /// A plane of zeros.
    pub fn new(dtype: DType, n: usize, rows: usize) -> (r: Plane)
        requires
            is_cache_dtype(dtype),
        ensures
            r@ == PlaneView::zeros(dtype, n as int, rows as int),
            r@.wf(dtype, n as int, rows as int),
    {
        let r = match dtype {
            DType::F16 => Plane {
                half: vec![0u16; n],
                bytes: Vec::new(),
                e4m3: Vec::new(),
                scales: Vec::new(),
            },
            DType::I8 => Plane {
                half: Vec::new(),
                bytes: vec![0i8; n],
                e4m3: Vec::new(),
                scales: vec![0u16; rows],
            },
            _ => Plane {
                half: Vec::new(),
                bytes: Vec::new(),
                e4m3: vec![0u8; n],
                scales: vec![0u16; rows],
            },
        };
        assert(r@ =~= PlaneView::zeros(dtype, n as int, rows as int));
        r
    }

    /// Reads a number.
    pub fn read<F: Fn(FloatOp, u32, u32) -> u32>(
        &self,
        f: &F,
        dtype: DType,
        off: usize,
        row: usize,
        names: (&'static str, &'static str),
        shape: Vec<usize>,
        scale_shape: Vec<usize>,
    ) -> (r: Result<u32, T0Error>)
        requires
            is_arith(*f),
            is_cache_dtype(dtype),
        ensures
            outcome(r) == self@.result(
                *f,
                dtype,
                off as int,
                row as int,
                names,
                shape@,
                scale_shape@,
            ),
    {
        let len: usize = match dtype {
            DType::F16 => self.half.len(),
            DType::I8 => self.bytes.len(),
            _ => self.e4m3.len(),
        };
        if off >= len {
            return Err(length_mismatch(names.0, len, capped_end(off), shape.as_slice()));
        }
        if dtype == DType::F16 {
            return Ok(f16_to_f32(self.half[off]));
        }
        if row >= self.scales.len() {
            return Err(
                length_mismatch(
                    names.1,
                    self.scales.len(),
                    capped_end(row),
                    scale_shape.as_slice(),
                ),
            );
        }
        let s: u32 = f16_to_f32(self.scales[row]);
        let q: u32 = if dtype == DType::I8 {
            i32_to_f32(self.bytes[off] as i32)
        } else {
            fp8_e4m3_decode(self.e4m3[off])
        };
        Ok(times(f, s, q))
    }

    /// Reads a number at a position that the plane has.
    pub fn get<F: Fn(FloatOp, u32, u32) -> u32>(
        &self,
        f: &F,
        dtype: DType,
        off: usize,
        row: usize,
    ) -> (r: u32)
        requires
            is_arith(*f),
            is_cache_dtype(dtype),
            off < self@.len(dtype),
            dtype != DType::F16 ==> row < self@.scales.len(),
        ensures
            r == self@.value(*f, dtype, off as int, row as int),
    {
        match dtype {
            DType::F16 => f16_to_f32(self.half[off]),
            DType::I8 => times(
                f,
                f16_to_f32(self.scales[row]),
                i32_to_f32(self.bytes[off] as i32),
            ),
            _ => times(f, f16_to_f32(self.scales[row]), fp8_e4m3_decode(self.e4m3[off])),
        }
    }
}

/// The error of a slot that a cache does not have.
pub open spec fn slot_error(slot: int, bound: int) -> ErrorView {
    ErrorView::RowIndexOutOfRange {
        op: "attention",
        tensor: "cache",
        position: slot as usize,
        index: if slot > u32::MAX {
            u32::MAX
        } else {
            slot as u32
        },
        upper_bound: bound as usize,
    }
}

fn bad_slot(slot: usize, bound: usize) -> (e: T0Error)
    ensures
        e.view() == slot_error(slot as int, bound as int),
{
    T0Error::RowIndexOutOfRange {
        op: "attention",
        tensor: "cache",
        position: slot,
        index: if slot > u32::MAX as usize {
            u32::MAX
        } else {
            slot as u32
        },
        upper_bound: bound,
    }
}

/// Cache of keys and values with several heads per slot.
#[derive(Debug)]
pub struct KvPagedCache {
    /// Number of blocks.
    pub num_blocks: usize,
    /// Heads per slot.
    pub hkv: usize,
    /// Width of a key.
    pub d: usize,
    /// Width of a value.
    pub dv: usize,
    /// Stored type.
    pub dtype: DType,
    /// Keys.
    pub k: Plane,
    /// Values.
    pub v: Plane,
    /// Whether each slot was ever written.
    pub written: Vec<bool>,
}

impl KvPagedCache {
    /// Whether another cache has the same extents, type, rows and marks.
    pub open spec fn same_as(&self, other: &Self) -> bool {
        &&& self.num_blocks == other.num_blocks
        &&& self.hkv == other.hkv
        &&& self.d == other.d
        &&& self.dv == other.dv
        &&& self.dtype == other.dtype
        &&& self.k@ == other.k@
        &&& self.v@ == other.v@
        &&& self.written@ == other.written@
    }
}

impl Clone for KvPagedCache {
    fn clone(&self) -> (r: Self)
        ensures
            r.same_as(self),
    {
        KvPagedCache {
            num_blocks: self.num_blocks,
            hkv: self.hkv,
            d: self.d,
            dv: self.dv,
            dtype: self.dtype,
            k: self.k.clone(),
            v: self.v.clone(),
            written: copy_marks(&self.written),
        }
    }
}

/// Problem of an extent that is zero.
pub open spec fn zero_faults(name: &'static str, value: usize) -> Seq<ErrorView> {
    given(
        value == 0,
        attr_error(
            "state_write_kv",
            "cache_geometry",
            about(name, "{what} must be > 0, got 0", Seq::empty()),
        ),
    )
}

fn check_zero(problems: &mut Vec<T0Error>, name: &'static str, value: usize)
    ensures
        views(final(problems)@) == views(old(problems)@) + zero_faults(name, value),
{
    let args: Vec<Arg> = Vec::new();
    assert(args@ =~= Seq::<Arg>::empty());
    let reason = Detail::about(name, "{what} must be > 0, got 0", args);
    push_when(problems, value == 0, invalid_attr("state_write_kv", "cache_geometry", reason));
}

/// Problem of a type that a cache cannot store.
pub open spec fn cache_dtype_faults(text: &'static str, dtype: DType) -> Seq<ErrorView> {
    given(
        !is_cache_dtype(dtype),
        attr_error("state_write_kv", "cache_dtype", quoting(text, seq![Arg::Type(dtype)])),
    )
}

/// Checks that a cache can store the type.
pub fn check_cache_dtype(problems: &mut Vec<T0Error>, text: &'static str, dtype: DType)
    ensures
        views(final(problems)@) == views(old(problems)@) + cache_dtype_faults(text, dtype),
{
    let reason = Detail::one(text, Arg::Type(dtype));
    push_when(
        problems,
        !cache_dtype(dtype),
        invalid_attr("state_write_kv", "cache_dtype", reason),
    );
}

/// The error of a product of extents that overflows.
pub open spec fn elems_error(text: &'static str, args: Seq<Arg>) -> ErrorView {
    overflow_error("attention", quoting(text, args))
}

impl KvPagedCache {
    /// Number of slots.
    pub open spec fn slots(&self) -> int {
        self.written@.len() as int
    }

    /// Whether the storage has the extents of the cache.
    pub open spec fn wf(&self) -> bool {
        let rows = self.slots() * self.hkv;
        &&& self.hkv > 0
        &&& self.d > 0
        &&& self.dv > 0
        &&& self.num_blocks > 0
        &&& is_cache_dtype(self.dtype)
        &&& self.slots() == self.num_blocks * 32
        &&& rows * self.d <= usize::MAX
        &&& rows * self.dv <= usize::MAX
        &&& self.k@.wf(self.dtype, rows * self.d, rows)
        &&& self.v@.wf(self.dtype, rows * self.dv, rows)
    }

    /// The error of a cache that cannot be made.
    pub open spec fn new_fault(
        num_blocks: usize,
        hkv: usize,
        d: usize,
        dv: usize,
        dtype: DType,
    ) -> Option<ErrorView> {
        let form = fault_of(
            clear() + cache_dtype_faults("paged cache dtype must be f16, i8, or e4m3; got {}", dtype)
                + zero_faults("num_blocks", num_blocks) + zero_faults("hkv", hkv) + zero_faults(
                "d",
                d,
            ) + zero_faults("dv", dv),
        );
        let slots = num_blocks * 32;
        let size = match addr_result(num_blocks as int, 32, 0, "paged cache slots") {
            Err(e) => Some(e),
            Ok(_) => None,
        };
        let keys = fault_if(
            slots * hkv > usize::MAX || slots * hkv * d > usize::MAX,
            elems_error(
                "paged K elements {} * {} * {} overflows usize",
                seq![Arg::Int(slots as u64), Arg::Int(hkv as u64), Arg::Int(d as u64)],
            ),
        );
        let values = fault_if(
            slots * hkv * dv > usize::MAX,
            elems_error(
                "paged V elements {} * {} * {} overflows usize",
                seq![Arg::Int(slots as u64), Arg::Int(hkv as u64), Arg::Int(dv as u64)],
            ),
        );
        or_fault(or_fault(or_fault(form, size), keys), values)
    }

    /// A cache that was never written.
    pub fn new(num_blocks: usize, hkv: usize, d: usize, dv: usize, dtype: DType) -> (r: Result<
        Self,
        T0Error,
    >)
        ensures
            match Self::new_fault(num_blocks, hkv, d, dv, dtype) {
                Some(e) => r is Err && r->Err_0.view() == e,
                None => {
                    &&& r is Ok
                    &&& r->Ok_0.wf()
                    &&& r->Ok_0.num_blocks == num_blocks
                    &&& r->Ok_0.hkv == hkv
                    &&& r->Ok_0.d == d
                    &&& r->Ok_0.dv == dv
                    &&& r->Ok_0.dtype == dtype
                    &&& r->Ok_0.written@ == Seq::new((num_blocks * 32) as nat, |i: int| false)
                    &&& r->Ok_0.k@ == PlaneView::zeros(
                        dtype,
                        num_blocks * 32 * hkv * d,
                        num_blocks * 32 * hkv,
                    )
                    &&& r->Ok_0.v@ == PlaneView::zeros(
                        dtype,
                        num_blocks * 32 * hkv * dv,
                        num_blocks * 32 * hkv,
                    )
                },
            },
    {
        let mut problems = no_problems();
        check_cache_dtype(
            &mut problems,
            "paged cache dtype must be f16, i8, or e4m3; got {}",
            dtype,
        );
        check_zero(&mut problems, "num_blocks", num_blocks);
        check_zero(&mut problems, "hkv", hkv);
        check_zero(&mut problems, "d", d);
        check_zero(&mut problems, "dv", dv);
        let ghost found = views(problems@);
        match T0Error::from_problems(problems) {
            Ok(_) => {},
            Err(e) => {
                return Err(e);
            },
        }
        assert(found.len() == 0);
        let slots: usize = match checked_addr(num_blocks, BLOCK_TOKENS, 0, "paged cache slots") {
            Ok(v) => v,
            Err(e) => {
                return Err(e);
            },
        };
        let rows: Option<usize> = slots.checked_mul(hkv);
        let keys: Option<usize> = match rows {
            Some(n) => n.checked_mul(d),
            None => None,
        };
        let k_len: usize = match keys {
            Some(n) => n,
            None => {
                return Err(
                    overflow(
                        "attention",
                        Detail::three(
                            "paged K elements {} * {} * {} overflows usize",
                            Arg::Int(slots as u64),
                            Arg::Int(hkv as u64),
                            Arg::Int(d as u64),
                        ),
                    ),
                );
            },
        };
        let rows: usize = match rows {
            Some(n) => n,
            None => 0,
        };
        let v_len: usize = match rows.checked_mul(dv) {
            Some(n) => n,
            None => {
                return Err(
                    overflow(
                        "attention",
                        Detail::three(
                            "paged V elements {} * {} * {} overflows usize",
                            Arg::Int(slots as u64),
                            Arg::Int(hkv as u64),
                            Arg::Int(dv as u64),
                        ),
                    ),
                );
            },
        };
        let cache = KvPagedCache {
            num_blocks,
            hkv,
            d,
            dv,
            dtype,
            k: Plane::new(dtype, k_len, rows),
            v: Plane::new(dtype, v_len, rows),
            written: vec![false; slots],
        };
        assert(cache.written@ =~= Seq::new((num_blocks * 32) as nat, |i: int| false));
        Ok(cache)
    }

    /// Number of blocks.
    pub fn num_blocks(&self) -> (r: usize)
        ensures
            r == self.num_blocks,
    {
        self.num_blocks
    }

    /// Heads per slot.
    pub fn hkv(&self) -> (r: usize)
        ensures
            r == self.hkv,
    {
        self.hkv
    }

    /// Width of a key.
    pub fn d(&self) -> (r: usize)
        ensures
            r == self.d,
    {
        self.d
    }

    /// Width of a value.
    pub fn dv(&self) -> (r: usize)
        ensures
            r == self.dv,
    {
        self.dv
    }

    /// Stored type.
    pub fn dtype(&self) -> (r: DType)
        ensures
            r == self.dtype,
    {
        self.dtype
    }

    /// Number of slots.
    pub fn num_slots(&self) -> (r: usize)
        ensures
            r == self.slots(),
    {
        self.written.len()
    }

    /// Whether a slot was ever written.
    pub open spec fn was_written(&self, slot: int) -> bool {
        0 <= slot < self.slots() && self.written@[slot]
    }

    /// Whether a slot was ever written.
    pub fn is_written(&self, slot: usize) -> (r: bool)
        ensures
            r == self.was_written(slot as int),
    {
        slot < self.written.len() && self.written[slot]
    }

    /// Outcome of reading an element of a plane of rows of `width`.
    pub open spec fn read_result<F: Fn(FloatOp, u32, u32) -> u32>(
        &self,
        f: F,
        plane: PlaneView,
        width: usize,
        slot: int,
        head: int,
        dim: int,
        names: (&'static str, &'static str),
        texts: (&'static str, &'static str),
    ) -> Result<u32, ErrorView> {
        if slot >= self.slots() {
            Err(slot_error(slot, self.slots()))
        } else {
            match addr_result(slot, self.hkv as int, head, texts.0) {
                Err(e) => Err(e),
                Ok(row) => match addr_result(row as int, width as int, dim, texts.1) {
                    Err(e) => Err(e),
                    Ok(off) => plane.result(
                        f,
                        self.dtype,
                        off as int,
                        row as int,
                        names,
                        seq![self.slots() as usize, self.hkv, width],
                        seq![self.slots() as usize, self.hkv],
                    ),
                },
            }
        }
    }

    /// Reads an element of a plane.
    fn read_plane<F: Fn(FloatOp, u32, u32) -> u32>(
        &self,
        f: &F,
        plane: &Plane,
        width: usize,
        slot: usize,
        head: usize,
        dim: usize,
        names: (&'static str, &'static str),
        texts: (&'static str, &'static str),
    ) -> (r: Result<u32, T0Error>)
        requires
            is_arith(*f),
            is_cache_dtype(self.dtype),
        ensures
            outcome(r) == self.read_result(
                *f,
                plane@,
                width,
                slot as int,
                head as int,
                dim as int,
                names,
                texts,
            ),
    {
        let slots: usize = self.num_slots();
        if slot >= slots {
            return Err(bad_slot(slot, slots));
        }
        let row: usize = match checked_addr(slot, self.hkv, head, texts.0) {
            Ok(v) => v,
            Err(e) => {
                return Err(e);
            },
        };
        let off: usize = match checked_addr(row, width, dim, texts.1) {
            Ok(v) => v,
            Err(e) => {
                return Err(e);
            },
        };
        let shape = vec![slots, self.hkv, width];
        assert(shape@ =~= seq![slots, self.hkv, width]);
        let scale_shape = vec![slots, self.hkv];
        assert(scale_shape@ =~= seq![slots, self.hkv]);
        plane.read(f, self.dtype, off, row, names, shape, scale_shape)
    }

    /// Outcome of reading an element of a key.
    pub open spec fn k_result<F: Fn(FloatOp, u32, u32) -> u32>(
        &self,
        f: F,
        slot: int,
        head: int,
        dim: int,
    ) -> Result<u32, ErrorView> {
        self.read_result(
            f,
            self.k@,
            self.d,
            slot,
            head,
            dim,
            ("cache.k", "cache.k_scales"),
            ("paged K slot/head", "paged K head/dim"),
        )
    }

    /// Reads an element of a key.
    pub fn read_k_f32<F: Fn(FloatOp, u32, u32) -> u32>(
        &self,
        f: &F,
        slot: usize,
        head: usize,
        dim: usize,
    ) -> (r: Result<u32, T0Error>)
        requires
            is_arith(*f),
            is_cache_dtype(self.dtype),
        ensures
            outcome(r) == self.k_result(*f, slot as int, head as int, dim as int),
    {
        self.read_plane(
            f,
            &self.k,
            self.d,
            slot,
            head,
            dim,
            ("cache.k", "cache.k_scales"),
            ("paged K slot/head", "paged K head/dim"),
        )
    }

    /// Outcome of reading an element of a value.
    pub open spec fn v_result<F: Fn(FloatOp, u32, u32) -> u32>(
        &self,
        f: F,
        slot: int,
        head: int,
        dim: int,
    ) -> Result<u32, ErrorView> {
        self.read_result(
            f,
            self.v@,
            self.dv,
            slot,
            head,
            dim,
            ("cache.v", "cache.v_scales"),
            ("paged V slot/head", "paged V head/dim"),
        )
    }

    /// Reads an element of a value.
    pub fn read_v_f32<F: Fn(FloatOp, u32, u32) -> u32>(
        &self,
        f: &F,
        slot: usize,
        head: usize,
        dim: usize,
    ) -> (r: Result<u32, T0Error>)
        requires
            is_arith(*f),
            is_cache_dtype(self.dtype),
        ensures
            outcome(r) == self.v_result(*f, slot as int, head as int, dim as int),
    {
        self.read_plane(
            f,
            &self.v,
            self.dv,
            slot,
            head,
            dim,
            ("cache.v", "cache.v_scales"),
            ("paged V slot/head", "paged V head/dim"),
        )
    }

    /// Element of a key within the cache.
    pub open spec fn k_value<F: Fn(FloatOp, u32, u32) -> u32>(
        &self,
        f: F,
        slot: int,
        head: int,
        dim: int,
    ) -> u32 {
        let row = slot * self.hkv + head;
        self.k@.value(f, self.dtype, row * self.d + dim, row)
    }

    /// Element of a value within the cache.
    pub open spec fn v_value<F: Fn(FloatOp, u32, u32) -> u32>(
        &self,
        f: F,
        slot: int,
        head: int,
        dim: int,
    ) -> u32 {
        let row = slot * self.hkv + head;
        self.v@.value(f, self.dtype, row * self.dv + dim, row)
    }

    /// Reads an element of a key within the cache.
    pub fn key<F: Fn(FloatOp, u32, u32) -> u32>(
        &self,
        f: &F,
        slot: usize,
        head: usize,
        dim: usize,
    ) -> (r: u32)
        requires
            is_arith(*f),
            self.wf(),
            slot < self.slots(),
            head < self.hkv,
            dim < self.d,
        ensures
            r == self.k_value(*f, slot as int, head as int, dim as int),
    {
        proof {
            lemma_cell(
                slot as int,
                self.slots(),
                head as int,
                self.hkv as int,
                dim as int,
                self.d as int,
            );
        }
        let row: usize = slot * self.hkv + head;
        self.k.get(f, self.dtype, row * self.d + dim, row)
    }

    /// Reads an element of a value within the cache.
    pub fn value<F: Fn(FloatOp, u32, u32) -> u32>(
        &self,
        f: &F,
        slot: usize,
        head: usize,
        dim: usize,
    ) -> (r: u32)
        requires
            is_arith(*f),
            self.wf(),
            slot < self.slots(),
            head < self.hkv,
            dim < self.dv,
        ensures
            r == self.v_value(*f, slot as int, head as int, dim as int),
    {
        proof {
            lemma_cell(
                slot as int,
                self.slots(),
                head as int,
                self.hkv as int,
                dim as int,
                self.dv as int,
            );
        }
        let row: usize = slot * self.hkv + head;
        self.v.get(f, self.dtype, row * self.dv + dim, row)
    }
}

/// An element within the extents lies within the flat storage.
pub proof fn lemma_cell(slot: int, slots: int, head: int, heads: int, dim: int, width: int)
    requires
        0 <= slot < slots,
        0 <= head < heads,
        0 <= dim < width,
    ensures
        0 <= slot * heads <= slot * heads + head < slots * heads,
        0 <= (slot * heads + head) * width <= (slot * heads + head) * width + dim < slots * heads
            * width,
        slots * heads <= slots * heads * width,
{
    lemma_flat_bound(slot, slots, head, heads);
    lemma_flat_bound(slot * heads + head, slots * heads, dim, width);
    assert(slots * heads <= slots * heads * width) by (nonlinear_arith)
        requires
            width >= 1,
            slots * heads >= 0,
    ;
}

/// Reads within the extents of a cache succeed and give the stored elements.
pub proof fn law_reads_succeed<F: Fn(FloatOp, u32, u32) -> u32>(
    cache: KvPagedCache,
    f: F,
    slot: int,
    head: int,
    dim: int,
)
    requires
        cache.wf(),
        0 <= slot < cache.slots(),
        0 <= head < cache.hkv,
        0 <= dim,
    ensures
        dim < cache.d ==> cache.k_result(f, slot, head, dim) == Ok::<u32, ErrorView>(
            cache.k_value(f, slot, head, dim),
        ),
        dim < cache.dv ==> cache.v_result(f, slot, head, dim) == Ok::<u32, ErrorView>(
            cache.v_value(f, slot, head, dim),
        ),
{
    if dim < cache.d {
        lemma_cell(slot, cache.slots(), head, cache.hkv as int, dim, cache.d as int);
    }
    if dim < cache.dv {
        lemma_cell(slot, cache.slots(), head, cache.hkv as int, dim, cache.dv as int);
    }
}

/// Cache of compressed keys and values: one latent row and one rotary row per
/// slot. Rotary rows are always half precision.
#[derive(Debug)]
pub struct KvLatentCache {
    /// Number of blocks.
    pub num_blocks: usize,
    /// Width of a latent row.
    pub latent: usize,
    /// Width of a rotary row.
    pub rope: usize,
    /// Stored type of latent rows.
    pub dtype: DType,
    /// Latent rows.
    pub rows: Plane,
    /// Rotary rows.
    pub rope_f16: Vec<u16>,
    /// Whether each slot was ever written.
    pub written: Vec<bool>,
}

impl Clone for KvLatentCache {
    fn clone(&self) -> (r: Self)
        ensures
            r.same_as(self),
    {
        KvLatentCache {
            num_blocks: self.num_blocks,
            latent: self.latent,
            rope: self.rope,
            dtype: self.dtype,
            rows: self.rows.clone(),
            rope_f16: copy_u16(&self.rope_f16),
            written: copy_marks(&self.written),
        }
    }
}

impl KvLatentCache {
    /// Whether another cache has the same extents, type, rows and marks.
    pub open spec fn same_as(&self, other: &Self) -> bool {
        &&& self.num_blocks == other.num_blocks
        &&& self.latent == other.latent
        &&& self.rope == other.rope
        &&& self.dtype == other.dtype
        &&& self.rows@ == other.rows@
        &&& self.rope_f16@ == other.rope_f16@
        &&& self.written@ == other.written@
    }

    /// Number of slots.
    pub open spec fn slots(&self) -> int {
        self.written@.len() as int
    }

    /// Whether the storage has the extents of the cache.
    pub open spec fn wf(&self) -> bool {
        &&& self.latent > 0
        &&& self.rope > 0
        &&& self.num_blocks > 0
        &&& is_cache_dtype(self.dtype)
        &&& self.slots() == self.num_blocks * 32
        &&& self.slots() * self.latent <= usize::MAX
        &&& self.slots() * self.rope <= usize::MAX
        &&& self.rows@.wf(self.dtype, self.slots() * self.latent, self.slots())
        &&& self.rope_f16@.len() == self.slots() * self.rope
    }

    /// The error of a cache that cannot be made.
    pub open spec fn new_fault(
        num_blocks: usize,
        latent: usize,
        rope: usize,
        dtype: DType,
    ) -> Option<ErrorView> {
        let form = fault_of(
            clear() + cache_dtype_faults(
                "latent cache dtype must be f16, i8, or e4m3; got {}",
                dtype,
            ) + zero_faults("num_blocks", num_blocks) + zero_faults("latent", latent) + zero_faults(
                "rope",
                rope,
            ),
        );
        let slots = num_blocks * 32;
        let size = match addr_result(num_blocks as int, 32, 0, "latent cache slots") {
            Err(e) => Some(e),
            Ok(_) => None,
        };
        let rows = fault_if(
            slots * latent > usize::MAX,
            elems_error(
                "latent elements {} * {} overflows usize",
                seq![Arg::Int(slots as u64), Arg::Int(latent as u64)],
            ),
        );
        let ropes = fault_if(
            slots * rope > usize::MAX,
            elems_error(
                "rope elements {} * {} overflows usize",
                seq![Arg::Int(slots as u64), Arg::Int(rope as u64)],
            ),
        );
        or_fault(or_fault(or_fault(form, size), rows), ropes)
    }

    /// A cache that was never written.
    pub fn new(num_blocks: usize, latent: usize, rope: usize, dtype: DType) -> (r: Result<
        Self,
        T0Error,
    >)
        ensures
            match Self::new_fault(num_blocks, latent, rope, dtype) {
                Some(e) => r is Err && r->Err_0.view() == e,
                None => {
                    &&& r is Ok
                    &&& r->Ok_0.wf()
                    &&& r->Ok_0.num_blocks == num_blocks
                    &&& r->Ok_0.latent == latent
                    &&& r->Ok_0.rope == rope
                    &&& r->Ok_0.dtype == dtype
                    &&& r->Ok_0.written@ == Seq::new((num_blocks * 32) as nat, |i: int| false)
                    &&& r->Ok_0.rows@ == PlaneView::zeros(
                        dtype,
                        num_blocks * 32 * latent,
                        num_blocks * 32,
                    )
                    &&& r->Ok_0.rope_f16@ == Seq::new(
                        (num_blocks * 32 * rope) as nat,
                        |i: int| 0u16,
                    )
                },
            },
    {
        let mut problems = no_problems();
        check_cache_dtype(
            &mut problems,
            "latent cache dtype must be f16, i8, or e4m3; got {}",
            dtype,
        );
        check_zero(&mut problems, "num_blocks", num_blocks);
        check_zero(&mut problems, "latent", latent);
        check_zero(&mut problems, "rope", rope);
        let ghost found = views(problems@);
        match T0Error::from_problems(problems) {
            Ok(_) => {},
            Err(e) => {
                return Err(e);
            },
        }
        assert(found.len() == 0);
        let slots: usize = match checked_addr(num_blocks, BLOCK_TOKENS, 0, "latent cache slots") {
            Ok(v) => v,
            Err(e) => {
                return Err(e);
            },
        };
        let len: usize = match slots.checked_mul(latent) {
            Some(n) => n,
            None => {
                return Err(
                    overflow(
                        "attention",
                        Detail::two(
                            "latent elements {} * {} overflows usize",
                            Arg::Int(slots as u64),
                            Arg::Int(latent as u64),
                        ),
                    ),
                );
            },
        };
        let rope_len: usize = match slots.checked_mul(rope) {
            Some(n) => n,
            None => {
                return Err(
                    overflow(
                        "attention",
                        Detail::two(
                            "rope elements {} * {} overflows usize",
                            Arg::Int(slots as u64),
                            Arg::Int(rope as u64),
                        ),
                    ),
                );
            },
        };
        let cache = KvLatentCache {
            num_blocks,
            latent,
            rope,
            dtype,
            rows: Plane::new(dtype, len, slots),
            rope_f16: vec![0u16; rope_len],
            written: vec![false; slots],
        };
        assert(cache.written@ =~= Seq::new((num_blocks * 32) as nat, |i: int| false));
        assert(cache.rope_f16@ =~= Seq::new((num_blocks * 32 * rope) as nat, |i: int| 0u16));
        Ok(cache)
    }

    /// Number of blocks.
    pub fn num_blocks(&self) -> (r: usize)
        ensures
            r == self.num_blocks,
    {
        self.num_blocks
    }

    /// Width of a latent row.
    pub fn latent(&self) -> (r: usize)
        ensures
            r == self.latent,
    {
        self.latent
    }

    /// Width of a rotary row.
    pub fn rope(&self) -> (r: usize)
        ensures
            r == self.rope,
    {
        self.rope
    }

    /// Stored type of latent rows.
    pub fn dtype(&self) -> (r: DType)
        ensures
            r == self.dtype,
    {
        self.dtype
    }

    /// Number of slots.
    pub fn num_slots(&self) -> (r: usize)
        ensures
            r == self.slots(),
    {
        self.written.len()
    }

    /// Whether a slot was ever written.
    pub open spec fn was_written(&self, slot: int) -> bool {
        0 <= slot < self.slots() && self.written@[slot]
    }

    /// Whether a slot was ever written.
    pub fn is_written(&self, slot: usize) -> (r: bool)
        ensures
            r == self.was_written(slot as int),
    {
        slot < self.written.len() && self.written[slot]
    }

    /// Outcome of reading an element of a latent row.
    pub open spec fn latent_result<F: Fn(FloatOp, u32, u32) -> u32>(
        &self,
        f: F,
        slot: int,
        dim: int,
    ) -> Result<u32, ErrorView> {
        if slot >= self.slots() {
            Err(slot_error(slot, self.slots()))
        } else {
            match addr_result(slot, self.latent as int, dim, "latent slot/dim") {
                Err(e) => Err(e),
                Ok(off) => self.rows@.result(
                    f,
                    self.dtype,
                    off as int,
                    slot,
                    ("cache.latent", "cache.latent_scales"),
                    seq![self.slots() as usize, self.latent],
                    seq![self.slots() as usize],
                ),
            }
        }
    }

    /// Reads an element of a latent row.
    pub fn read_latent_f32<F: Fn(FloatOp, u32, u32) -> u32>(
        &self,
        f: &F,
        slot: usize,
        dim: usize,
    ) -> (r: Result<u32, T0Error>)
        requires
            is_arith(*f),
            is_cache_dtype(self.dtype),
        ensures
            outcome(r) == self.latent_result(*f, slot as int, dim as int),
    {
        let slots: usize = self.num_slots();
        if slot >= slots {
            return Err(bad_slot(slot, slots));
        }
        let off: usize = match checked_addr(slot, self.latent, dim, "latent slot/dim") {
            Ok(v) => v,
            Err(e) => {
                return Err(e);
            },
        };
        let shape = vec![slots, self.latent];
        assert(shape@ =~= seq![slots, self.latent]);
        let scale_shape = vec![slots];
        assert(scale_shape@ =~= seq![slots]);
        self.rows.read(
            f,
            self.dtype,
            off,
            slot,
            ("cache.latent", "cache.latent_scales"),
            shape,
            scale_shape,
        )
    }

    /// Outcome of reading an element of a rotary row.
    pub open spec fn rope_result(&self, slot: int, dim: int) -> Result<u32, ErrorView> {
        if slot >= self.slots() {
            Err(slot_error(slot, self.slots()))
        } else {
            match addr_result(slot, self.rope as int, dim, "rope slot/dim") {
                Err(e) => Err(e),
                Ok(off) => if off < self.rope_f16@.len() {
                    Ok(f32_of_f16(self.rope_f16@[off as int]))
                } else {
                    Err(
                        length_error(
                            "cache.rope",
                            self.rope_f16@.len() as int,
                            end_of(off as int),
                            seq![self.slots() as usize, self.rope],
                        ),
                    )
                },
            }
        }
    }

    /// Reads an element of a rotary row.
    pub fn read_rope_f32(&self, slot: usize, dim: usize) -> (r: Result<u32, T0Error>)
        ensures
            outcome(r) == self.rope_result(slot as int, dim as int),
    {
        let slots: usize = self.num_slots();
        if slot >= slots {
            return Err(bad_slot(slot, slots));
        }
        let off: usize = match checked_addr(slot, self.rope, dim, "rope slot/dim") {
            Ok(v) => v,
            Err(e) => {
                return Err(e);
            },
        };
        if off < self.rope_f16.len() {
            Ok(f16_to_f32(self.rope_f16[off]))
        } else {
            let shape = vec![slots, self.rope];
            assert(shape@ =~= seq![slots, self.rope]);
            Err(
                length_mismatch(
                    "cache.rope",
                    self.rope_f16.len(),
                    capped_end(off),
                    shape.as_slice(),
                ),
            )
        }
    }

    /// Element of a latent row within the cache.
    pub open spec fn latent_value<F: Fn(FloatOp, u32, u32) -> u32>(
        &self,
        f: F,
        slot: int,
        dim: int,
    ) -> u32 {
        self.rows@.value(f, self.dtype, slot * self.latent + dim, slot)
    }

    /// Element of a rotary row within the cache.
    pub open spec fn rope_value(&self, slot: int, dim: int) -> u32 {
        f32_of_f16(self.rope_f16@[slot * self.rope + dim])
    }

    /// Reads an element of a latent row within the cache.
    pub fn latent_at<F: Fn(FloatOp, u32, u32) -> u32>(&self, f: &F, slot: usize, dim: usize) -> (r:
        u32)
        requires
            is_arith(*f),
            self.wf(),
            slot < self.slots(),
            dim < self.latent,
        ensures
            r == self.latent_value(*f, slot as int, dim as int),
    {
        proof {
            lemma_flat_bound(slot as int, self.slots(), dim as int, self.latent as int);
        }
        self.rows.get(f, self.dtype, slot * self.latent + dim, slot)
    }

    /// Reads an element of a rotary row within the cache.
    pub fn rope_at(&self, slot: usize, dim: usize) -> (r: u32)
        requires
            self.wf(),
            slot < self.slots(),
            dim < self.rope,
        ensures
            r == self.rope_value(slot as int, dim as int),
    {
        proof {
            lemma_flat_bound(slot as int, self.slots(), dim as int, self.rope as int);
        }
        f16_to_f32(self.rope_f16[slot * self.rope + dim])
    }
}

/// Either kind of cache.
#[derive(Debug)]
pub enum KvCache {
    /// Keys and values with several heads.
    Paged(KvPagedCache),
    /// Compressed keys and values.
    Latent(KvLatentCache),
}

impl KvCache {
    /// Whether the storage has the extents of the cache.
    pub open spec fn wf(&self) -> bool {
        match self {
            KvCache::Paged(c) => c.wf(),
            KvCache::Latent(c) => c.wf(),
        }
    }

    /// Whether another cache is of the same kind with the same contents.
    pub open spec fn same_as(&self, other: &Self) -> bool {
        match (self, other) {
            (KvCache::Paged(a), KvCache::Paged(b)) => a.same_as(b),
            (KvCache::Latent(a), KvCache::Latent(b)) => a.same_as(b),
            _ => false,
        }
    }
}

impl Clone for KvCache {
    fn clone(&self) -> (r: Self)
        ensures
            r.same_as(self),
    {
        match self {
            KvCache::Paged(c) => KvCache::Paged(c.clone()),
            KvCache::Latent(c) => KvCache::Latent(c.clone()),
        }
    }
}

} // verus!
