//! Tensor metadata and op attributes shared by every kernel.
//!
//! Real-valued attributes are held as the bit pattern of an IEEE 754 single.
use vstd::prelude::*;

verus! {

/// Element data type of a tensor.
#[derive(Debug, Clone, Copy, PartialEq, Eq, Structural)]
pub enum DType {
    /// IEEE 754 single precision.
    F32,
    /// IEEE 754 half precision.
    F16,
    /// bfloat16.
    Bf16,
    /// OCP FP8 E4M3.
    E4m3,
    /// OCP FP8 E5M2.
    E5m2,
    /// Signed byte.
    I8,
    /// Signed 32-bit integer.
    I32,
    /// Unsigned 32-bit integer.
    U32,
    /// One byte per truth value.
    Bool,
    /// Signed nibble, two per byte.
    I4,
}

/// Storage layout of a tensor.
#[derive(Debug, Clone, Copy, PartialEq, Eq, Structural)]
pub enum LayoutId {
    /// Plain row-major storage.
    Contiguous,
    /// Row-major storage with scale records at the end of each row.
    L0,
    /// Tiled storage with a scale region behind the values.
    L1,
    /// Tiled storage for sparse weights.
    L1s,
    /// Any other layout id.
    Other(u16),
}

/// Weight quantization scheme.
#[derive(Debug, Clone, Copy, PartialEq, Eq, Structural)]
pub enum SchemeId {
    /// Signed bytes with one half-precision scale per row.
    I8R,
    /// Signed bytes with one half-precision scale per 128 elements.
    I8B128,
    /// E4M3 bytes with one half-precision scale per 128 elements.
    E4M3B128,
    /// Nibbles with a 16-byte header per 256 elements.
    I4K,
    /// A scheme that is named but has no decoder here.
    Reserved(u16),
    /// An id that names no scheme.
    Unknown(u16),
}

/// How the values of a tensor are quantized.
#[derive(Debug, Clone, Copy, PartialEq, Eq, Structural)]
pub enum QuantScheme {
    /// Not quantized.
    Unquantized,
    /// One scale per weight row.
    PerRow,
    /// One scale per activation row.
    PerToken,
    /// One scale per 32 activation elements.
    PerBlock32,
    /// A weight scheme.
    Scheme(SchemeId),
}

/// Kind of per-layer state that a handle names.
#[derive(Debug, Clone, Copy, PartialEq, Eq, Structural)]
pub enum StateKind {
    /// Paged key/value cache.
    KvPaged,
    /// Paged latent cache.
    KvLatent,
    /// Recurrent matrix state.
    Recurrent,
    /// Convolution window.
    ConvWindow,
}

/// Names the state of one layer.
#[derive(Debug, Clone, Copy, PartialEq, Eq, Structural)]
pub struct StateHandle {
    /// Layer index.
    pub layer: u32,
    /// Kind of state.
    pub kind: StateKind,
}

/// Pointwise activation function.
#[derive(Debug, Clone, Copy, PartialEq, Eq, Structural)]
pub enum ActivationKind {
    /// `x / (1 + exp(-x))`.
    Silu,
    /// Gaussian error linear unit with the exact error function.
    Gelu,
    /// Gaussian error linear unit with the tanh approximation.
    GeluTanh,
    /// `max(x, 0)` squared.
    Relu2,
    /// The argument itself.
    Identity,
}

} // verus!
