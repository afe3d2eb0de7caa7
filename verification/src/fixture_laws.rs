//! What the numbers drawn for a trial are.
use vstd::prelude::*;
use crate::arith::{fp, FloatOp};
use crate::buffer::Cells;
use crate::dtype::{f32_of_int, is_nan};
use crate::fixtures::{
    all_below, below, blocks_of, clamped, id_tensor, symmetric, threshold, uniform_tensor, uniforms,
};

verus! {

/// Each number lies as far between the bounds as the low 24 bits of its own word
/// lie between zero and two to the power of 24.
pub proof fn law_uniform<F: Fn(FloatOp, u32, u32) -> u32>(
    f: F,
    words: Seq<u64>,
    shape: Seq<usize>,
    lo: u32,
    hi: u32,
    i: int,
    above: int,
    n: int,
)
    requires
        0 <= i < words.len(),
        words[i] == above * 0x100_0000 + n,
        0 <= n < 0x100_0000,
    ensures
        uniforms(f, words, lo, hi).len() == words.len(),
        uniforms(f, words, lo, hi)[i] == fp(
            f,
            FloatOp::Plus,
            lo,
            fp(
                f,
                FloatOp::Times,
                fp(f, FloatOp::Minus, hi, lo),
                fp(f, FloatOp::Over, f32_of_int(n), 0x4B80_0000),
            ),
        ),
        uniform_tensor(f, words, shape, lo, hi).shape == shape,
        uniform_tensor(f, words, shape, lo, hi).cells == Cells::F32(uniforms(f, words, lo, hi)),
{
    assert(words[i] % 0x100_0000 == n);
}

/// A signed byte is drawn evenly from -127 to 127: it goes up by one with its
/// word and starts again after 255.
pub proof fn law_symmetric(word: u64, times: int)
    requires
        times * 255 <= word < times * 255 + 255,
    ensures
        symmetric(word) == word - times * 255 - 127,
{
    assert(word % 255 == word - times * 255);
}

/// A number is drawn evenly from those below its bound: it goes up by one with
/// its word and starts again at the bound. Ids below zero are drawn below one.
pub proof fn law_below(words: Seq<u64>, bound: u32, i: int, times: int)
    requires
        0 <= i < words.len(),
        bound > 0,
        times * bound <= words[i] < times * bound + bound,
    ensures
        all_below(words, bound).len() == words.len(),
        all_below(words, bound)[i] == words[i] - times * bound,
        id_tensor(words, bound).cells == Cells::U32(all_below(words, bound)),
        id_tensor(words, 0) == id_tensor(words, 1),
        below(words[i], 0) == 0,
{
    let rest = words[i] - times * bound;
    assert(times * bound == bound * times) by (nonlinear_arith);
    vstd::arithmetic::div_mod::lemma_fundamental_div_mod_converse(
        words[i] as int,
        bound as int,
        times,
        rest,
    );
}

/// Nothing is kept with a probability of zero or less, and everything with a
/// probability of one or more, wherever zero and one times two to the power of 24
/// are exact.
pub proof fn law_keep_ends<F: Fn(FloatOp, u32, u32) -> u32>(f: F, p: u32, word: u64)
    requires
        !is_nan(p),
        fp(f, FloatOp::Times, 0, 0x4B80_0000) == 0,
        fp(f, FloatOp::Times, 0x8000_0000, 0x4B80_0000) == 0x8000_0000,
        fp(f, FloatOp::Times, 0x3F80_0000, 0x4B80_0000) == 0x4B80_0000,
    ensures
        p == 0 || p >= 0x8000_0000 ==> !(word / 0x100_0000_0000 < threshold(f, p)),
        0x3F80_0000 <= p < 0x8000_0000 ==> word / 0x100_0000_0000 < threshold(f, p),
{
    vstd::arithmetic::power2::lemma2_to64();
    assert(word / 0x100_0000_0000 < 0x100_0000);
    assert((151int - 150) as nat == 1nat);
    if p == 0 || p >= 0x8000_0000 {
        assert(clamped(p) == 0 || clamped(p) == 0x8000_0000);
        assert(threshold(f, p) == 0);
    }
    if 0x3F80_0000 <= p < 0x8000_0000 {
        assert(clamped(p) == 0x3F80_0000);
        assert(threshold(f, p) == 0x100_0000);
    }
}

/// Blocks cover a width and none is left over, but one covers no width.
pub proof fn law_blocks_cover(n: int, block: int)
    requires
        0 <= n,
        0 < block,
    ensures
        blocks_of(n, block) >= 1,
        blocks_of(n, block) * block >= n,
        n > 0 ==> (blocks_of(n, block) - 1) * block < n,
        n == 0 ==> blocks_of(n, block) == 1,
{
    let m = n + block - 1;
    let q = m / block;
    vstd::arithmetic::div_mod::lemma_fundamental_div_mod(m, block);
    vstd::arithmetic::div_mod::lemma_mod_bound(m, block);
    assert(block * q == q * block) by (nonlinear_arith);
    assert((q - 1) * block == q * block - block) by (nonlinear_arith);
    if n == 0 {
        vstd::arithmetic::div_mod::lemma_fundamental_div_mod_converse(m, block, 0, block - 1);
    } else {
        assert(q > 0) by (nonlinear_arith)
            requires
                q * block > 0,
                block > 0,
        ;
    }
}

} // verus!
