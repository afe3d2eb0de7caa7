//! Arithmetic of flat indices.
use vstd::prelude::*;

verus! {

/// A flat index splits into its row and column.
pub proof fn lemma_split(r: int, c: int, n: int)
    requires
        0 <= r,
        0 <= c < n,
    ensures
        (r * n + c) / n == r,
        (r * n + c) % n == c,
        0 <= r * n + c,
{
    vstd::arithmetic::div_mod::lemma_fundamental_div_mod_converse(r * n + c, n, r, c);
    assert(r * n >= 0) by (nonlinear_arith)
        requires
            r >= 0,
            n > 0,
    ;
}

/// An index below a product splits into a row and a column within bounds.
pub proof fn lemma_unflat(p: int, rows: int, n: int)
    requires
        0 <= p < rows * n,
        0 <= rows,
        0 <= n,
    ensures
        n > 0,
        0 <= p / n < rows,
        0 <= p % n < n,
        p == (p / n) * n + p % n,
{
    if n == 0 {
        assert(rows * n == 0) by (nonlinear_arith)
            requires
                n == 0,
        ;
    }
    vstd::arithmetic::div_mod::lemma_fundamental_div_mod(p, n);
    assert((p / n) * n == n * (p / n)) by (nonlinear_arith);
    assert(p / n < rows) by (nonlinear_arith)
        requires
            p < rows * n,
            p == (p / n) * n + p % n,
            0 <= p % n,
            n > 0,
    ;
    assert(0 <= p / n) by (nonlinear_arith)
        requires
            0 <= p,
            n > 0,
    ;
}

/// A flat index of a row and column within bounds is within bounds.
pub proof fn lemma_flat_bound(r: int, rows: int, c: int, n: int)
    requires
        0 <= r < rows,
        0 <= c < n,
    ensures
        0 <= r * n + c < rows * n,
        0 <= r * n <= r * n + c,
        (r + 1) * n <= rows * n,
        (r + 1) * n == r * n + n,
{
    assert((r + 1) * n <= rows * n) by (nonlinear_arith)
        requires
            r + 1 <= rows,
            n > 0,
    ;
    assert((r + 1) * n == r * n + n) by (nonlinear_arith);
    assert(r * n >= 0) by (nonlinear_arith)
        requires
            r >= 0,
            n > 0,
    ;
}

/// A product of natural numbers is natural.
pub proof fn lemma_mul_nonneg(a: int, b: int)
    requires
        0 <= a,
        0 <= b,
    ensures
        0 <= a * b,
{
    assert(0 <= a * b) by (nonlinear_arith)
        requires
            0 <= a,
            0 <= b,
    ;
}

/// Products grow with their factors.
pub proof fn lemma_mul_le(a: int, b: int, c: int, d: int)
    requires
        0 <= a <= b,
        0 <= c <= d,
    ensures
        0 <= a * c <= b * d,
{
    assert(0 <= a * c <= b * d) by (nonlinear_arith)
        requires
            0 <= a <= b,
            0 <= c <= d,
    ;
}

} // verus!
