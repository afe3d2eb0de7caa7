//! The error function as its series and its continued fraction.
use vstd::prelude::*;
use crate::arith::{fp, fp_neg, FloatOp};
use crate::dtype::f32_of_int;
use crate::erf::{erf, fraction, next_term, series};
use crate::sums::{in_order, lemma_in_order_last, lemma_in_order_none};

verus! {

/// Whether terms are those of the series of an argument after the first: with `x`
/// the argument each is the one before times `-x * x`, over its number, times one
/// less and over one more than twice its number.
#[verifier::opaque]
pub open spec fn are_terms<F: Fn(FloatOp, u32, u32) -> u32>(f: F, x: u32, first: u32, terms: Seq<u32>) -> bool {
    forall|i: int|
        0 <= i < terms.len() ==> {
            let before = if i == 0 {
                first
            } else {
                terms[i - 1]
            };
            let n = f32_of_int(i + 1);
            let twice = fp(f, FloatOp::Times, 0x4000_0000, n);
            let folded = fp(f, FloatOp::Times, fp_neg(before), fp(f, FloatOp::Times, x, x));
            #[trigger] terms[i] == fp(
                f,
                FloatOp::Over,
                fp(
                    f,
                    FloatOp::Times,
                    fp(f, FloatOp::Over, folded, n),
                    fp(f, FloatOp::Minus, twice, 0x3F80_0000),
                ),
                fp(f, FloatOp::Plus, twice, 0x3F80_0000),
            )
        }
}

/// Whether terms end where they should: none but the last is small, and the last
/// is unless there are 24 of them.
pub open spec fn end_well(terms: Seq<u32>) -> bool {
    &&& 0 < terms.len() <= 24
    &&& forall|i: int| 0 <= i < terms.len() - 1 ==> #[trigger] terms[i] % 0x8000_0000 >= 0x322B_CC77
    &&& terms.len() < 24 ==> terms.last() % 0x8000_0000 < 0x322B_CC77
}

proof fn lemma_series<F: Fn(FloatOp, u32, u32) -> u32>(f: F, x: u32, first: u32, terms: Seq<u32>) -> (all: Seq<u32>)
    requires
        are_terms(f, x, first, terms),
        terms.len() < 24,
        forall|i: int| 0 <= i < terms.len() ==> #[trigger] terms[i] % 0x8000_0000 >= 0x322B_CC77,
    ensures
        are_terms(f, x, first, all),
        end_well(all),
        series(
            f,
            fp(f, FloatOp::Times, x, x),
            if terms.len() == 0 {
                first
            } else {
                terms.last()
            },
            in_order(f, FloatOp::Plus, first, terms),
            terms.len() as int + 1,
        ) == in_order(f, FloatOp::Plus, first, all),
    decreases 24 - terms.len(),
{
    reveal(are_terms);
    let last = if terms.len() == 0 {
        first
    } else {
        terms.last()
    };
    let n: int = terms.len() as int + 1;
    let t = next_term(f, last, fp(f, FloatOp::Times, x, x), n);
    let more = terms.push(t);
    assert(more.drop_last() =~= terms);
    lemma_in_order_last(f, FloatOp::Plus, first, more);
    assert forall|i: int| 0 <= i < more.len() implies {
        let before = if i == 0 {
            first
        } else {
            more[i - 1]
        };
        let n = f32_of_int(i + 1);
        let twice = fp(f, FloatOp::Times, 0x4000_0000, n);
        let folded = fp(f, FloatOp::Times, fp_neg(before), fp(f, FloatOp::Times, x, x));
        #[trigger] more[i] == fp(
            f,
            FloatOp::Over,
            fp(
                f,
                FloatOp::Times,
                fp(f, FloatOp::Over, folded, n),
                fp(f, FloatOp::Minus, twice, 0x3F80_0000),
            ),
            fp(f, FloatOp::Plus, twice, 0x3F80_0000),
        )
    } by {
        if i < terms.len() {
            assert(more[i] == terms[i]);
            assert(i > 0 ==> more[i - 1] == terms[i - 1]);
        }
    }
    assert(are_terms(f, x, first, more));
    if t % 0x8000_0000 < 0x322B_CC77 {
        assert(end_well(more));
        more
    } else if n + 1 >= 24 + 1 {
        assert(series(
            f,
            fp(f, FloatOp::Times, x, x),
            t,
            in_order(f, FloatOp::Plus, first, more),
            n + 1,
        ) == in_order(f, FloatOp::Plus, first, more));
        assert(end_well(more));
        more
    } else {
        lemma_series(f, x, first, more)
    }
}

/// The error function up to `3/2` is the sum of its series: the first
/// term is the argument times two over the square root of pi.
pub proof fn law_erf_series<F: Fn(FloatOp, u32, u32) -> u32>(f: F, x: u32)
    requires
        0 < x < 0x3FC0_0000,
    ensures
        exists|terms: Seq<u32>|
            {
                let first = fp(f, FloatOp::Times, x, 0x3F90_6EBB);
                &&& are_terms(f, x, first, terms)
                &&& #[trigger] end_well(terms)
                &&& erf(f, x) == fp(
                    f,
                    FloatOp::Times,
                    0x3F80_0000,
                    in_order(f, FloatOp::Plus, first, terms),
                )
            },
{
    let first = fp(f, FloatOp::Times, x, 0x3F90_6EBB);
    let none = Seq::<u32>::empty();
    lemma_in_order_none(f, FloatOp::Plus, first, none);
    assert(are_terms(f, x, first, none)) by {
        reveal(are_terms);
    }
    let terms = lemma_series(f, x, first, none);
    assert(are_terms(f, x, first, terms));
}

/// A number that may be divided by: a tiny one is replaced.
pub open spec fn divisor_of(v: u32) -> u32 {
    if v % 0x8000_0000 < 0x0DA2_4260 {
        0x0DA2_4260
    } else {
        v
    }
}

/// Whether pairs are the steps of the continued fraction of an argument: with `a`
/// half the number of a step, its second part is one over `x` plus `a` times the
/// one before, and its first `x` plus `a` over the one before.
#[verifier::opaque]
pub open spec fn are_steps<F: Fn(FloatOp, u32, u32) -> u32>(f: F, x: u32, steps: Seq<(u32, u32)>) -> bool {
    forall|i: int|
        0 <= i < steps.len() ==> {
            let before = if i == 0 {
                (x, 0u32)
            } else {
                steps[i - 1]
            };
            let a = fp(f, FloatOp::Times, f32_of_int(i + 1), 0x3F00_0000);
            let lower = fp(f, FloatOp::Plus, x, fp(f, FloatOp::Times, a, before.1));
            let upper = fp(f, FloatOp::Plus, x, fp(f, FloatOp::Over, a, before.0));
            #[trigger] steps[i] == (
                divisor_of(upper),
                fp(f, FloatOp::Over, 0x3F80_0000, divisor_of(lower)),
            )
        }
}

/// The factor that each step of a continued fraction brings.
pub open spec fn factors<F: Fn(FloatOp, u32, u32) -> u32>(f: F, steps: Seq<(u32, u32)>) -> Seq<u32> {
    Seq::new(steps.len(), |i: int| fp(f, FloatOp::Times, steps[i].0, steps[i].1))
}

/// Whether steps end where they should: none but the last brings a factor near
/// one, and the last does unless there are 49 of them.
pub open spec fn settle_well<F: Fn(FloatOp, u32, u32) -> u32>(f: F, factors: Seq<u32>) -> bool {
    &&& 0 < factors.len() <= 49
    &&& forall|i: int|
        0 <= i < factors.len() - 1 ==> fp(f, FloatOp::Minus, #[trigger] factors[i], 0x3F80_0000) % 0x8000_0000
            >= 0x33D6_BF95
    &&& factors.len() < 49 ==> fp(f, FloatOp::Minus, factors.last(), 0x3F80_0000) % 0x8000_0000 < 0x33D6_BF95
}

proof fn lemma_fraction<F: Fn(FloatOp, u32, u32) -> u32>(f: F, x: u32, steps: Seq<(u32, u32)>) -> (all: Seq<(u32, u32)>)
    requires
        are_steps(f, x, steps),
        steps.len() < 49,
        forall|i: int|
            0 <= i < steps.len() ==> fp(f, FloatOp::Minus, #[trigger] factors(f, steps)[i], 0x3F80_0000)
                % 0x8000_0000 >= 0x33D6_BF95,
    ensures
        are_steps(f, x, all),
        settle_well(f, factors(f, all)),
        fraction(
            f,
            x,
            in_order(f, FloatOp::Times, x, factors(f, steps)),
            if steps.len() == 0 {
                x
            } else {
                steps.last().0
            },
            if steps.len() == 0 {
                0
            } else {
                steps.last().1
            },
            steps.len() as int + 1,
        ) == in_order(f, FloatOp::Times, x, factors(f, all)),
    decreases 49 - steps.len(),
{
    reveal(are_steps);
    let before = if steps.len() == 0 {
        (x, 0u32)
    } else {
        steps.last()
    };
    let i: int = steps.len() as int;
    let a = fp(f, FloatOp::Times, f32_of_int(i + 1), 0x3F00_0000);
    let lower = fp(f, FloatOp::Plus, x, fp(f, FloatOp::Times, a, before.1));
    let upper = fp(f, FloatOp::Plus, x, fp(f, FloatOp::Over, a, before.0));
    let step = (divisor_of(upper), fp(f, FloatOp::Over, 0x3F80_0000, divisor_of(lower)));
    let more = steps.push(step);
    let delta = fp(f, FloatOp::Times, step.0, step.1);
    assert(factors(f, more).drop_last() =~= factors(f, steps));
    assert(factors(f, more).last() == delta);
    lemma_in_order_last(f, FloatOp::Times, x, factors(f, more));
    assert forall|i: int| 0 <= i < more.len() implies {
        let before = if i == 0 {
            (x, 0u32)
        } else {
            more[i - 1]
        };
        let a = fp(f, FloatOp::Times, f32_of_int(i + 1), 0x3F00_0000);
        let lower = fp(f, FloatOp::Plus, x, fp(f, FloatOp::Times, a, before.1));
        let upper = fp(f, FloatOp::Plus, x, fp(f, FloatOp::Over, a, before.0));
        #[trigger] more[i] == (
            divisor_of(upper),
            fp(f, FloatOp::Over, 0x3F80_0000, divisor_of(lower)),
        )
    } by {
        if i < steps.len() {
            assert(more[i] == steps[i]);
            assert(i > 0 ==> more[i - 1] == steps[i - 1]);
        }
    }
    assert(are_steps(f, x, more));
    assert forall|i: int| 0 <= i < more.len() - 1 implies fp(
        f,
        FloatOp::Minus,
        #[trigger] factors(f, more)[i],
        0x3F80_0000,
    ) % 0x8000_0000 >= 0x33D6_BF95 by {
        assert(factors(f, more)[i] == factors(f, steps)[i]);
    }
    if fp(f, FloatOp::Minus, delta, 0x3F80_0000) % 0x8000_0000 < 0x33D6_BF95 {
        more
    } else if more.len() >= 49 {
        assert(fraction(
            f,
            x,
            in_order(f, FloatOp::Times, x, factors(f, more)),
            step.0,
            step.1,
            more.len() as int + 1,
        ) == in_order(f, FloatOp::Times, x, factors(f, more)));
        more
    } else {
        lemma_fraction(f, x, more)
    }
}

/// The error function from there to 5 is one less the exponential
/// of `-x * x` over the square root of pi and over the continued fraction, and
/// beyond it is one.
pub proof fn law_erf_fraction<F: Fn(FloatOp, u32, u32) -> u32>(f: F, x: u32)
    requires
        0x3FC0_0000 <= x <= 0x7F80_0000,
    ensures
        x > 0x40A0_0000 ==> erf(f, x) == 0x3F80_0000,
        x <= 0x40A0_0000 ==> exists|steps: Seq<(u32, u32)>|
            {
                let bell = fp(f, FloatOp::Exp, fp(f, FloatOp::Times, fp_neg(x), x), 0);
                let below = in_order(f, FloatOp::Times, x, factors(f, steps));
                &&& #[trigger] are_steps(f, x, steps)
                &&& settle_well(f, factors(f, steps))
                &&& erf(f, x) == fp(
                    f,
                    FloatOp::Times,
                    0x3F80_0000,
                    fp(
                        f,
                        FloatOp::Minus,
                        0x3F80_0000,
                        fp(f, FloatOp::Over, fp(f, FloatOp::Times, bell, fp(f, FloatOp::Times, 0x3F90_6EBB, 0x3F00_0000)), below),
                    ),
                )
            },
{
    if x <= 0x40A0_0000 {
        let none = Seq::<(u32, u32)>::empty();
        lemma_in_order_none(f, FloatOp::Times, x, factors(f, none));
        assert(are_steps(f, x, none)) by {
            reveal(are_steps);
        }
        let steps = lemma_fraction(f, x, none);
        assert(are_steps(f, x, steps));
    }
}

} // verus!
