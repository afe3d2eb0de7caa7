//! The error function in double precision as its series and its continued
//! fraction.
use vstd::prelude::*;
use crate::double::{dp, dp_neg, erf, fraction, next_term, series, DoubleOp};
use crate::sums::{in_order_wide, lemma_wide_last};

verus! {

/// Whether terms are those of the series of an argument after the first: with `x`
/// the argument each is the one before times `-x * x`, over its number, times one
/// less and over one more than twice its number.
#[verifier::opaque]
pub open spec fn are_wide_terms<E: Fn(DoubleOp, u64, u64) -> u64>(e: E, x: u64, first: u64, terms: Seq<u64>) -> bool {
    forall|i: int|
        0 <= i < terms.len() ==> {
            let before = if i == 0 {
                first
            } else {
                terms[i - 1]
            };
            let n = dp(e, DoubleOp::Whole, (i + 1) as u64, 0);
            let twice = dp(e, DoubleOp::Times, 0x4000_0000_0000_0000, n);
            let folded = dp(e, DoubleOp::Times, dp_neg(before), dp(e, DoubleOp::Times, x, x));
            #[trigger] terms[i] == dp(
                e,
                DoubleOp::Over,
                dp(
                    e,
                    DoubleOp::Times,
                    dp(e, DoubleOp::Over, folded, n),
                    dp(e, DoubleOp::Minus, twice, 0x3FF0_0000_0000_0000),
                ),
                dp(e, DoubleOp::Plus, twice, 0x3FF0_0000_0000_0000),
            )
        }
}

/// Whether terms end where they should: none but the last is small, and the last
/// is unless there are 39 of them.
pub open spec fn end_wide_well(terms: Seq<u64>) -> bool {
    &&& 0 < terms.len() <= 39
    &&& forall|i: int| 0 <= i < terms.len() - 1 ==> #[trigger] terms[i] % 0x8000_0000_0000_0000 >= 0x3C67_0EF5_4646_D497
    &&& terms.len() < 39 ==> terms.last() % 0x8000_0000_0000_0000 < 0x3C67_0EF5_4646_D497
}

proof fn lemma_series<E: Fn(DoubleOp, u64, u64) -> u64>(e: E, x: u64, first: u64, terms: Seq<u64>) -> (all: Seq<u64>)
    requires
        are_wide_terms(e, x, first, terms),
        terms.len() < 39,
        forall|i: int| 0 <= i < terms.len() ==> #[trigger] terms[i] % 0x8000_0000_0000_0000 >= 0x3C67_0EF5_4646_D497,
    ensures
        are_wide_terms(e, x, first, all),
        end_wide_well(all),
        series(
            e,
            dp(e, DoubleOp::Times, x, x),
            if terms.len() == 0 {
                first
            } else {
                terms.last()
            },
            in_order_wide(e, DoubleOp::Plus, first, terms),
            terms.len() as int + 1,
        ) == in_order_wide(e, DoubleOp::Plus, first, all),
    decreases 39 - terms.len(),
{
    reveal(are_wide_terms);
    let last = if terms.len() == 0 {
        first
    } else {
        terms.last()
    };
    let n: int = terms.len() as int + 1;
    let t = next_term(e, last, dp(e, DoubleOp::Times, x, x), n);
    let more = terms.push(t);
    assert(more.drop_last() =~= terms);
    lemma_wide_last(e, DoubleOp::Plus, first, more);
    assert forall|i: int| 0 <= i < more.len() implies {
        let before = if i == 0 {
            first
        } else {
            more[i - 1]
        };
        let n = dp(e, DoubleOp::Whole, (i + 1) as u64, 0);
        let twice = dp(e, DoubleOp::Times, 0x4000_0000_0000_0000, n);
        let folded = dp(e, DoubleOp::Times, dp_neg(before), dp(e, DoubleOp::Times, x, x));
        #[trigger] more[i] == dp(
            e,
            DoubleOp::Over,
            dp(
                e,
                DoubleOp::Times,
                dp(e, DoubleOp::Over, folded, n),
                dp(e, DoubleOp::Minus, twice, 0x3FF0_0000_0000_0000),
            ),
            dp(e, DoubleOp::Plus, twice, 0x3FF0_0000_0000_0000),
        )
    } by {
        if i < terms.len() {
            assert(more[i] == terms[i]);
            assert(i > 0 ==> more[i - 1] == terms[i - 1]);
        }
    }
    assert(are_wide_terms(e, x, first, more));
    if t % 0x8000_0000_0000_0000 < 0x3C67_0EF5_4646_D497 {
        assert(end_wide_well(more));
        more
    } else if n + 1 >= 39 + 1 {
        assert(series(
            e,
            dp(e, DoubleOp::Times, x, x),
            t,
            in_order_wide(e, DoubleOp::Plus, first, more),
            n + 1,
        ) == in_order_wide(e, DoubleOp::Plus, first, more));
        assert(end_wide_well(more));
        more
    } else {
        lemma_series(e, x, first, more)
    }
}

/// The error function in double precision up to `3/2` is the sum of its series: the first
/// term is the argument times two over the square root of pi.
pub proof fn law_wide_erf_series<E: Fn(DoubleOp, u64, u64) -> u64>(e: E, x: u64)
    requires
        0 < x < 0x3FF8_0000_0000_0000,
    ensures
        exists|terms: Seq<u64>|
            {
                let first = dp(e, DoubleOp::Times, x, 0x3FF2_0DD7_5042_9B6D);
                &&& are_wide_terms(e, x, first, terms)
                &&& #[trigger] end_wide_well(terms)
                &&& erf(e, x) == dp(
                    e,
                    DoubleOp::Times,
                    0x3FF0_0000_0000_0000,
                    in_order_wide(e, DoubleOp::Plus, first, terms),
                )
            },
{
    let first = dp(e, DoubleOp::Times, x, 0x3FF2_0DD7_5042_9B6D);
    let none = Seq::<u64>::empty();
    lemma_wide_last(e, DoubleOp::Plus, first, none);
    assert(are_wide_terms(e, x, first, none)) by {
        reveal(are_wide_terms);
    }
    let terms = lemma_series(e, x, first, none);
    assert(are_wide_terms(e, x, first, terms));
}

/// A number that may be divided by: a tiny one is replaced.
pub open spec fn divisor_of_wide(v: u64) -> u64 {
    if v % 0x8000_0000_0000_0000 < 0x39B4_484B_FEEB_C2A0 {
        0x39B4_484B_FEEB_C2A0
    } else {
        v
    }
}

/// Whether pairs are the steps of the continued fraction of an argument: with `a`
/// half the number of a step, its second part is one over `x` plus `a` times the
/// one before, and its first `x` plus `a` over the one before.
#[verifier::opaque]
pub open spec fn are_wide_steps<E: Fn(DoubleOp, u64, u64) -> u64>(e: E, x: u64, steps: Seq<(u64, u64)>) -> bool {
    forall|i: int|
        0 <= i < steps.len() ==> {
            let before = if i == 0 {
                (x, 0u64)
            } else {
                steps[i - 1]
            };
            let a = dp(e, DoubleOp::Times, dp(e, DoubleOp::Whole, (i + 1) as u64, 0), 0x3FE0_0000_0000_0000);
            let lower = dp(e, DoubleOp::Plus, x, dp(e, DoubleOp::Times, a, before.1));
            let upper = dp(e, DoubleOp::Plus, x, dp(e, DoubleOp::Over, a, before.0));
            #[trigger] steps[i] == (
                divisor_of_wide(upper),
                dp(e, DoubleOp::Over, 0x3FF0_0000_0000_0000, divisor_of_wide(lower)),
            )
        }
}

/// The factor that each step of a continued fraction brings.
pub open spec fn wide_factors<E: Fn(DoubleOp, u64, u64) -> u64>(e: E, steps: Seq<(u64, u64)>) -> Seq<u64> {
    Seq::new(steps.len(), |i: int| dp(e, DoubleOp::Times, steps[i].0, steps[i].1))
}

/// Whether steps end where they should: none but the last brings a factor near
/// one, and the last does unless there are 79 of them.
pub open spec fn settle_wide_well<E: Fn(DoubleOp, u64, u64) -> u64>(e: E, factors: Seq<u64>) -> bool {
    &&& 0 < factors.len() <= 79
    &&& forall|i: int|
        0 <= i < factors.len() - 1 ==> dp(e, DoubleOp::Minus, #[trigger] factors[i], 0x3FF0_0000_0000_0000) % 0x8000_0000_0000_0000
            >= 0x3C9C_D2B2_97D8_89BC
    &&& factors.len() < 79 ==> dp(e, DoubleOp::Minus, factors.last(), 0x3FF0_0000_0000_0000) % 0x8000_0000_0000_0000 < 0x3C9C_D2B2_97D8_89BC
}

proof fn lemma_fraction<E: Fn(DoubleOp, u64, u64) -> u64>(e: E, x: u64, steps: Seq<(u64, u64)>) -> (all: Seq<(u64, u64)>)
    requires
        are_wide_steps(e, x, steps),
        steps.len() < 79,
        forall|i: int|
            0 <= i < steps.len() ==> dp(e, DoubleOp::Minus, #[trigger] wide_factors(e, steps)[i], 0x3FF0_0000_0000_0000)
                % 0x8000_0000_0000_0000 >= 0x3C9C_D2B2_97D8_89BC,
    ensures
        are_wide_steps(e, x, all),
        settle_wide_well(e, wide_factors(e, all)),
        fraction(
            e,
            x,
            in_order_wide(e, DoubleOp::Times, x, wide_factors(e, steps)),
            if steps.len() == 0 {
                x
            } else {
                steps.last().0
            },
            if steps.len() == 0 {
                0
            } else {
                steps.last().1
            },
            steps.len() as int + 1,
        ) == in_order_wide(e, DoubleOp::Times, x, wide_factors(e, all)),
    decreases 79 - steps.len(),
{
    reveal(are_wide_steps);
    let before = if steps.len() == 0 {
        (x, 0u64)
    } else {
        steps.last()
    };
    let i: int = steps.len() as int;
    let a = dp(e, DoubleOp::Times, dp(e, DoubleOp::Whole, (i + 1) as u64, 0), 0x3FE0_0000_0000_0000);
    let lower = dp(e, DoubleOp::Plus, x, dp(e, DoubleOp::Times, a, before.1));
    let upper = dp(e, DoubleOp::Plus, x, dp(e, DoubleOp::Over, a, before.0));
    let step = (divisor_of_wide(upper), dp(e, DoubleOp::Over, 0x3FF0_0000_0000_0000, divisor_of_wide(lower)));
    let more = steps.push(step);
    let delta = dp(e, DoubleOp::Times, step.0, step.1);
    assert(wide_factors(e, more).drop_last() =~= wide_factors(e, steps));
    assert(wide_factors(e, more).last() == delta);
    lemma_wide_last(e, DoubleOp::Times, x, wide_factors(e, more));
    assert forall|i: int| 0 <= i < more.len() implies {
        let before = if i == 0 {
            (x, 0u64)
        } else {
            more[i - 1]
        };
        let a = dp(e, DoubleOp::Times, dp(e, DoubleOp::Whole, (i + 1) as u64, 0), 0x3FE0_0000_0000_0000);
        let lower = dp(e, DoubleOp::Plus, x, dp(e, DoubleOp::Times, a, before.1));
        let upper = dp(e, DoubleOp::Plus, x, dp(e, DoubleOp::Over, a, before.0));
        #[trigger] more[i] == (
            divisor_of_wide(upper),
            dp(e, DoubleOp::Over, 0x3FF0_0000_0000_0000, divisor_of_wide(lower)),
        )
    } by {
        if i < steps.len() {
            assert(more[i] == steps[i]);
            assert(i > 0 ==> more[i - 1] == steps[i - 1]);
        }
    }
    assert(are_wide_steps(e, x, more));
    assert forall|i: int| 0 <= i < more.len() - 1 implies dp(
        e,
        DoubleOp::Minus,
        #[trigger] wide_factors(e, more)[i],
        0x3FF0_0000_0000_0000,
    ) % 0x8000_0000_0000_0000 >= 0x3C9C_D2B2_97D8_89BC by {
        assert(wide_factors(e, more)[i] == wide_factors(e, steps)[i]);
    }
    if dp(e, DoubleOp::Minus, delta, 0x3FF0_0000_0000_0000) % 0x8000_0000_0000_0000 < 0x3C9C_D2B2_97D8_89BC {
        more
    } else if more.len() >= 79 {
        assert(fraction(
            e,
            x,
            in_order_wide(e, DoubleOp::Times, x, wide_factors(e, more)),
            step.0,
            step.1,
            more.len() as int + 1,
        ) == in_order_wide(e, DoubleOp::Times, x, wide_factors(e, more)));
        more
    } else {
        lemma_fraction(e, x, more)
    }
}

/// The error function in double precision from there to 6 is one less the exponential
/// of `-x * x` over the square root of pi and over the continued fraction, and
/// beyond it is one.
pub proof fn law_wide_erf_fraction<E: Fn(DoubleOp, u64, u64) -> u64>(e: E, x: u64)
    requires
        0x3FF8_0000_0000_0000 <= x <= 0x7FF0_0000_0000_0000,
    ensures
        x > 0x4018_0000_0000_0000 ==> erf(e, x) == 0x3FF0_0000_0000_0000,
        x <= 0x4018_0000_0000_0000 ==> exists|steps: Seq<(u64, u64)>|
            {
                let bell = dp(e, DoubleOp::Exp, dp(e, DoubleOp::Times, dp_neg(x), x), 0);
                let below = in_order_wide(e, DoubleOp::Times, x, wide_factors(e, steps));
                &&& #[trigger] are_wide_steps(e, x, steps)
                &&& settle_wide_well(e, wide_factors(e, steps))
                &&& erf(e, x) == dp(
                    e,
                    DoubleOp::Times,
                    0x3FF0_0000_0000_0000,
                    dp(
                        e,
                        DoubleOp::Minus,
                        0x3FF0_0000_0000_0000,
                        dp(e, DoubleOp::Over, dp(e, DoubleOp::Times, bell, 0x3FE2_0DD7_5042_9B6D), below),
                    ),
                )
            },
{
    if x <= 0x4018_0000_0000_0000 {
        let none = Seq::<(u64, u64)>::empty();
        lemma_wide_last(e, DoubleOp::Times, x, wide_factors(e, none));
        assert(are_wide_steps(e, x, none)) by {
            reveal(are_wide_steps);
        }
        let steps = lemma_fraction(e, x, none);
        assert(are_wide_steps(e, x, steps));
    }
}

} // verus!
