//! Values gathered one after another by an operation of the arithmetic.
use vstd::prelude::*;
use crate::arith::{fp, FloatOp};
use crate::double::{dp, DoubleOp};

verus! {

/// A start value and terms, gathered from left to right.
pub open spec fn in_order<F: Fn(FloatOp, u32, u32) -> u32>(
    f: F,
    o: FloatOp,
    start: u32,
    terms: Seq<u32>,
) -> u32 {
    terms.fold_left(start, |a: u32, t: u32| fp(f, o, a, t))
}

/// The last term is gathered last.
pub proof fn lemma_in_order_last<F: Fn(FloatOp, u32, u32) -> u32>(
    f: F,
    o: FloatOp,
    start: u32,
    terms: Seq<u32>,
)
    requires
        terms.len() > 0,
    ensures
        in_order(f, o, start, terms) == fp(
            f,
            o,
            in_order(f, o, start, terms.drop_last()),
            terms.last(),
        ),
{
}

/// Without terms the start value is left.
pub proof fn lemma_in_order_none<F: Fn(FloatOp, u32, u32) -> u32>(
    f: F,
    o: FloatOp,
    start: u32,
    terms: Seq<u32>,
)
    requires
        terms.len() == 0,
    ensures
        in_order(f, o, start, terms) == start,
{
}

/// Whether a factor reaches every term of a sum: a product with zero is zero,
/// and a product with a sum is the sum of the products.
pub open spec fn distributes<F: Fn(FloatOp, u32, u32) -> u32>(f: F) -> bool {
    &&& forall|a: u32| #[trigger] fp(f, FloatOp::Times, 0, a) == 0
    &&& forall|x: u32, y: u32, a: u32|
        #![trigger fp(f, FloatOp::Times, fp(f, FloatOp::Plus, x, y), a)]
        fp(f, FloatOp::Times, fp(f, FloatOp::Plus, x, y), a) == fp(
            f,
            FloatOp::Plus,
            fp(f, FloatOp::Times, x, a),
            fp(f, FloatOp::Times, y, a),
        )
}

/// A factor of a sum is a factor of its terms.
pub proof fn lemma_sum_scaled<F: Fn(FloatOp, u32, u32) -> u32>(
    f: F,
    terms: Seq<u32>,
    a: u32,
    scaled: Seq<u32>,
)
    requires
        distributes(f),
        scaled.len() == terms.len(),
        forall|i: int|
            0 <= i < terms.len() ==> #[trigger] scaled[i] == fp(f, FloatOp::Times, terms[i], a),
    ensures
        fp(f, FloatOp::Times, in_order(f, FloatOp::Plus, 0, terms), a) == in_order(
            f,
            FloatOp::Plus,
            0,
            scaled,
        ),
    decreases terms.len(),
{
    if terms.len() > 0 {
        lemma_in_order_last(f, FloatOp::Plus, 0, terms);
        lemma_in_order_last(f, FloatOp::Plus, 0, scaled);
        let s = scaled.drop_last();
        assert forall|i: int| 0 <= i < s.len() implies #[trigger] s[i] == fp(
            f,
            FloatOp::Times,
            terms.drop_last()[i],
            a,
        ) by {
            assert(s[i] == scaled[i]);
        }
        lemma_sum_scaled(f, terms.drop_last(), a, s);
        assert(scaled[terms.len() - 1] == fp(f, FloatOp::Times, terms.last(), a));
    }
}

/// A start value and terms, gathered from left to right in double precision.
pub open spec fn in_order_wide<E: Fn(DoubleOp, u64, u64) -> u64>(
    e: E,
    o: DoubleOp,
    start: u64,
    terms: Seq<u64>,
) -> u64 {
    terms.fold_left(start, |a: u64, t: u64| dp(e, o, a, t))
}

/// The last term is gathered last; without terms the start value is left.
pub proof fn lemma_wide_last<E: Fn(DoubleOp, u64, u64) -> u64>(
    e: E,
    o: DoubleOp,
    start: u64,
    terms: Seq<u64>,
)
    ensures
        terms.len() > 0 ==> in_order_wide(e, o, start, terms) == dp(
            e,
            o,
            in_order_wide(e, o, start, terms.drop_last()),
            terms.last(),
        ),
        terms.len() == 0 ==> in_order_wide(e, o, start, terms) == start,
{
}

} // verus!
