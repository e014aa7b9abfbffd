//! The selection rule of the search: an edge's mean score plus an exploration bonus
//! that grows with its prior and fades with its visits, all in 65536ths.

use vstd::prelude::*;
use crate::alpha_zero::score::SCORE_ONE;

verus! {

/// Whether `root` is the integer square root of `x`: the largest number whose square
/// does not exceed `x`.
pub open spec fn is_isqrt(x: nat, root: nat) -> bool {
    root * root <= x < (root + 1) * (root + 1)
}

/// The integer square root of `x`.
pub open spec fn isqrt(x: nat) -> nat {
    choose|root: nat| is_isqrt(x, root)
}

/// No number has two integer square roots.
pub proof fn lemma_isqrt_unique(x: nat, a: nat, b: nat)
    requires
        is_isqrt(x, a),
        is_isqrt(x, b),
    ensures
        a == b,
{
    if a < b {
        assert((a + 1) * (a + 1) <= b * b) by (nonlinear_arith)
            requires
                a + 1 <= b,
        ;
    } else if b < a {
        assert((b + 1) * (b + 1) <= a * a) by (nonlinear_arith)
            requires
                b + 1 <= a,
        ;
    }
}

/// Every number has an integer square root, and `isqrt` names it.
pub proof fn lemma_isqrt_exists(x: nat)
    ensures
        is_isqrt(x, isqrt(x)),
    decreases x,
{
    if x == 0 {
        assert(is_isqrt(0, 0)) by (nonlinear_arith);
    } else {
        lemma_isqrt_exists((x - 1) as nat);
        let r = isqrt((x - 1) as nat);
        if (r + 1) * (r + 1) <= x {
            assert((r + 1) * (r + 1) == x);
            assert(x < (r + 2) * (r + 2)) by (nonlinear_arith)
                requires
                    (r + 1) * (r + 1) == x,
            ;
            assert(is_isqrt(x, r + 1));
        } else {
            assert(is_isqrt(x, r));
        }
    }
}

/// Computes the integer square root by bisection.
pub fn integer_sqrt(x: u128) -> (root: u64)
    ensures
        root == isqrt(x as nat),
        is_isqrt(x as nat, root as nat),
{
    let mut low: u128 = 0;
    let mut high: u128 = 0x1_0000_0000_0000_0000;
    assert(x < high * high) by (nonlinear_arith)
        requires
            high == 0x1_0000_0000_0000_0000,
            x <= u128::MAX,
    ;
    while high - low > 1
        invariant
            low < high <= 0x1_0000_0000_0000_0000,
            low * low <= x < high * high,
        decreases high - low,
    {
        let mid: u128 = low + (high - low) / 2;
        assert(mid * mid <= 0xffff_ffff_ffff_ffff * 0xffff_ffff_ffff_ffff) by (nonlinear_arith)
            requires
                mid <= 0xffff_ffff_ffff_ffff,
        ;
        if mid * mid <= x {
            low = mid;
        } else {
            high = mid;
        }
    }
    proof {
        assert(is_isqrt(x as nat, low as nat));
        lemma_isqrt_exists(x as nat);
        lemma_isqrt_unique(x as nat, low as nat, isqrt(x as nat));
    }
    low as u64
}

/// The mean score of an edge, or zero where nothing has passed through it yet.
pub open spec fn mean_score(total_score: nat, visits: nat) -> nat {
    if visits > 0 {
        total_score / visits
    } else {
        0
    }
}

/// The exploration bonus of an edge: `c_puct * prior * sqrt(parent_visits) / (1 +
/// visits)`, with `c_puct` and `prior` given in 65536ths and the result rounded down
/// to 65536ths.
pub open spec fn exploration_bonus(c_puct: nat, prior: nat, visits: nat, parent_visits: nat) -> nat {
    (c_puct * prior * isqrt(parent_visits * SCORE_ONE as nat * SCORE_ONE as nat)) / (
    SCORE_ONE as nat * SCORE_ONE as nat * (1 + visits))
}

/// The score by which the search ranks an edge among its siblings.
pub open spec fn puct_score(
    c_puct: nat,
    prior: nat,
    total_score: nat,
    visits: nat,
    parent_visits: nat,
) -> nat {
    mean_score(total_score, visits) + exploration_bonus(c_puct, prior, visits, parent_visits)
}

/// `sqrt(parent_visits)` in 65536ths, rounded down.
pub fn scaled_sqrt(parent_visits: usize) -> (root: u64)
    ensures
        root == isqrt(parent_visits as nat * SCORE_ONE as nat * SCORE_ONE as nat),
        root <= 0x1_0000_0000_0000,
{
    assert(parent_visits as nat * SCORE_ONE as nat * SCORE_ONE as nat == parent_visits
        * 0x1_0000_0000) by (nonlinear_arith);
    let scaled: u128 = parent_visits as u128 * 0x1_0000_0000;
    let root = integer_sqrt(scaled);
    proof {
        if root > 0x1_0000_0000_0000 {
            assert(root * root >= 0x1_0000_0000_0001 * 0x1_0000_0000_0001) by (nonlinear_arith)
                requires
                    root >= 0x1_0000_0000_0001,
            ;
        }
    }
    root
}

/// Computes the score of one edge from its statistics and the scaled square root of
/// its parent's visits.
pub fn edge_score(c_puct: u32, prior: u32, total_score: u128, visits: usize, root: u64) -> (score:
    u128)
    requires
        prior <= SCORE_ONE,
        total_score <= visits as nat * SCORE_ONE as nat,
        root <= 0x1_0000_0000_0000,
    ensures
        score == mean_score(total_score as nat, visits as nat) + (c_puct as nat * prior as nat
            * root as nat) / (SCORE_ONE as nat * SCORE_ONE as nat * (1 + visits as nat)),
{
    let mean: u128 = if visits != 0 {
        total_score / visits as u128
    } else {
        0
    };
    assert(mean <= SCORE_ONE) by (nonlinear_arith)
        requires
            total_score <= visits as nat * SCORE_ONE as nat,
            mean == mean_score(total_score as nat, visits as nat),
    ;
    assert(c_puct as nat * prior as nat <= 0xffff_ffff * 0x1_0000) by (nonlinear_arith)
        requires
            c_puct <= 0xffff_ffff,
            prior <= 0x1_0000,
    ;
    let weight: u128 = c_puct as u128 * prior as u128;
    assert(weight * root <= 0xffff_ffff * 0x1_0000 * 0x1_0000_0000_0000) by (nonlinear_arith)
        requires
            weight <= 0xffff_ffff * 0x1_0000,
            root <= 0x1_0000_0000_0000,
    ;
    let divisor: u128 = 0x1_0000_0000 * (1 + visits as u128);
    assert(SCORE_ONE as nat * SCORE_ONE as nat * (1 + visits as nat) == divisor) by (nonlinear_arith)
        requires
            divisor == 0x1_0000_0000 * (1 + visits as nat),
    ;
    let bonus: u128 = (weight * root as u128) / divisor;
    assert(bonus <= weight * root) by (nonlinear_arith)
        requires
            bonus == (weight * root) / (divisor as int),
            divisor >= 1,
            weight * root >= 0,
    ;
    mean + bonus
}

} // verus!
