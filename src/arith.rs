//! Facts about mixed-radix numbering used to order the positions of a box.
use vstd::prelude::*;

verus! {

/// A digit below `n` plus a non-negative multiple of `n` stays below `n * m`
/// when the multiplier is below `m`.
pub proof fn lemma_mixed_bounds(a: int, b: int, n: int, m: int)
    requires
        0 <= a < n,
        0 <= b < m,
    ensures
        0 <= a + b * n < n * m,
{
    assert(0 <= b * n) by (nonlinear_arith)
        requires
            0 <= b,
            0 <= n,
    ;
    assert(b * n <= (m - 1) * n) by (nonlinear_arith)
        requires
            b <= m - 1,
            0 <= n,
    ;
    assert((m - 1) * n == n * m - n) by (nonlinear_arith);
}

/// The digit and the multiplier of a mixed-radix number are unique.
pub proof fn lemma_mixed_unique(a1: int, b1: int, a2: int, b2: int, n: int)
    requires
        0 <= a1 < n,
        0 <= a2 < n,
        a1 + b1 * n == a2 + b2 * n,
    ensures
        a1 == a2,
        b1 == b2,
{
    if b1 < b2 {
        assert(b1 * n + n <= b2 * n) by (nonlinear_arith)
            requires
                b1 + 1 <= b2,
                0 <= n,
        ;
    } else if b2 < b1 {
        assert(b2 * n + n <= b1 * n) by (nonlinear_arith)
            requires
                b2 + 1 <= b1,
                0 <= n,
        ;
    }
}

/// Moving a multiplier up by one adds one radix.
pub proof fn lemma_mul_succ(b: int, n: int)
    ensures
        (b + 1) * n == b * n + n,
{
    assert((b + 1) * n == b * n + n) by (nonlinear_arith);
}

/// A non-negative quotient by a positive divisor is non-negative.
pub proof fn lemma_div_lower(k: int, d: int)
    requires
        0 <= k,
        0 < d,
    ensures
        0 <= k / d,
{
    assert(0 <= k / d) by (nonlinear_arith)
        requires
            0 <= k,
            0 < d,
    ;
}

/// A quotient of a number below `d * m` by `d` is below `m`.
pub proof fn lemma_div_strict_upper(k: int, d: int, m: int)
    requires
        0 <= k < d * m,
        0 < d,
    ensures
        k / d < m,
{
    assert(k / d < m) by (nonlinear_arith)
        requires
            0 <= k < d * m,
            0 < d,
    ;
}

} // verus!
