//! From raw move weights to priors: the sum-to-one rule.

use vstd::prelude::*;
use crate::alpha_zero::score::Score;
use crate::alpha_zero::score::SCORE_ONE;

verus! {

/// The sum of the weights.
pub open spec fn sum_weights(weights: Seq<u32>) -> nat
    decreases weights.len(),
{
    if weights.len() == 0 {
        0
    } else {
        sum_weights(weights.drop_last()) + weights.last() as nat
    }
}

/// The prior of a move with the weight `weight` among moves whose weights add up to
/// `total`: its share of the total in 65536ths, rounded down. Where all weights are
/// zero, so are all priors.
pub open spec fn prior_share(weight: nat, total: nat) -> nat {
    if total == 0 {
        0
    } else {
        (weight * SCORE_ONE as nat) / total
    }
}

/// The weights of the first `upto + 1` moves are those of the first `upto` and the
/// weight of the move after them.
pub proof fn lemma_sum_weights_step(weights: Seq<u32>, upto: int)
    requires
        0 <= upto < weights.len(),
    ensures
        sum_weights(weights.take(upto + 1)) == sum_weights(weights.take(upto)) + weights[upto],
{
    assert(weights.take(upto + 1).drop_last() =~= weights.take(upto));
}

/// The sum of the weights is bounded by their number, and no prefix weighs more than
/// the whole.
pub proof fn lemma_sum_weights_bound(weights: Seq<u32>, upto: int)
    requires
        0 <= upto <= weights.len(),
    ensures
        sum_weights(weights.take(upto)) <= upto * 0xffff_ffff,
        sum_weights(weights.take(upto)) <= sum_weights(weights),
    decreases weights.len() - upto,
{
    if upto == 0 {
        assert(weights.take(0) =~= Seq::<u32>::empty());
        lemma_sum_weights_monotone(weights, 0);
    } else {
        lemma_sum_weights_prefix_bound(weights, upto);
        lemma_sum_weights_monotone(weights, upto);
    }
}

proof fn lemma_sum_weights_prefix_bound(weights: Seq<u32>, upto: int)
    requires
        0 <= upto <= weights.len(),
    ensures
        sum_weights(weights.take(upto)) <= upto * 0xffff_ffff,
    decreases upto,
{
    if upto == 0 {
        assert(weights.take(0) =~= Seq::<u32>::empty());
    } else {
        lemma_sum_weights_prefix_bound(weights, upto - 1);
        lemma_sum_weights_step(weights, upto - 1);
    }
}

proof fn lemma_sum_weights_monotone(weights: Seq<u32>, upto: int)
    requires
        0 <= upto <= weights.len(),
    ensures
        sum_weights(weights.take(upto)) <= sum_weights(weights),
    decreases weights.len() - upto,
{
    if upto == weights.len() {
        assert(weights.take(upto) =~= weights);
    } else {
        lemma_sum_weights_step(weights, upto);
        lemma_sum_weights_monotone(weights, upto + 1);
    }
}

/// No weight is more than the sum of all.
pub proof fn lemma_weight_within_sum(weights: Seq<u32>, index: int)
    requires
        0 <= index < weights.len(),
    ensures
        weights[index] <= sum_weights(weights),
{
    lemma_sum_weights_step(weights, index);
    lemma_sum_weights_bound(weights, index + 1);
}

/// A prior is at most one.
pub proof fn lemma_prior_share_in_range(weight: nat, total: nat)
    requires
        weight <= total,
    ensures
        prior_share(weight, total) <= SCORE_ONE,
{
    if total > 0 {
        assert((weight * SCORE_ONE as nat) / total <= SCORE_ONE) by (nonlinear_arith)
            requires
                weight <= total,
                total > 0,
        ;
    }
}

/// The sum of the priors of the first `upto` moves.
pub open spec fn sum_shares(weights: Seq<u32>, upto: int) -> nat
    decreases upto,
{
    if upto <= 0 {
        0
    } else {
        sum_shares(weights, upto - 1) + prior_share(
            weights[upto - 1] as nat,
            sum_weights(weights),
        )
    }
}

/// What rounding down loses: less than one part.
proof fn lemma_share_bounds(weight: nat, total: nat)
    requires
        total > 0,
    ensures
        total * prior_share(weight, total) <= weight * SCORE_ONE as nat,
        (weight * SCORE_ONE as nat) < total * prior_share(weight, total) + total,
{
    let scaled = weight * SCORE_ONE as nat;
    assert(total * (scaled / total) <= scaled < total * (scaled / total) + total) by (nonlinear_arith)
        requires
            total > 0,
            scaled >= 0,
    ;
}

proof fn lemma_sum_shares_bounds(weights: Seq<u32>, upto: int)
    requires
        0 <= upto <= weights.len(),
        sum_weights(weights) > 0,
    ensures
        sum_weights(weights) * sum_shares(weights, upto) <= sum_weights(weights.take(upto))
            * SCORE_ONE as nat,
        upto > 0 ==> (sum_weights(weights.take(upto)) * SCORE_ONE as nat) < sum_weights(weights)
            * sum_shares(weights, upto) + upto * sum_weights(weights),
        upto == 0 ==> sum_weights(weights.take(upto)) * SCORE_ONE as nat == 0,
    decreases upto,
{
    let total = sum_weights(weights);
    if upto == 0 {
        assert(weights.take(0) =~= Seq::<u32>::empty());
        assert(total * 0 == 0) by (nonlinear_arith);
        assert(0 * total == 0) by (nonlinear_arith);
        assert(0 * SCORE_ONE as nat == 0) by (nonlinear_arith);
    } else {
        lemma_sum_shares_bounds(weights, upto - 1);
        lemma_sum_weights_step(weights, upto - 1);
        let weight = weights[upto - 1] as nat;
        let share = prior_share(weight, total);
        let before = sum_shares(weights, upto - 1);
        let prefix = sum_weights(weights.take(upto - 1));
        lemma_share_bounds(weight, total);
        assert(total * (before + share) == total * before + total * share) by (nonlinear_arith);
        assert((prefix + weight) * SCORE_ONE as nat == prefix * SCORE_ONE as nat + weight
            * SCORE_ONE as nat) by (nonlinear_arith);
        assert(upto * total == (upto - 1) * total + total) by (nonlinear_arith);
    }
}

/// The priors add up to one as closely as rounding down allows: to no more than
/// one, and to more than one less one part for each move. This holds where some
/// weight is not zero; where all are zero, so are all priors.
pub proof fn lemma_priors_add_up(weights: Seq<u32>)
    requires
        sum_weights(weights) > 0,
    ensures
        SCORE_ONE - weights.len() < sum_shares(weights, weights.len() as int) <= SCORE_ONE,
{
    let total = sum_weights(weights);
    let n = weights.len() as int;
    let shares = sum_shares(weights, n);
    lemma_sum_shares_bounds(weights, n);
    assert(weights.take(n) =~= weights);
    assert(shares <= SCORE_ONE) by (nonlinear_arith)
        requires
            total * shares <= total * SCORE_ONE as nat,
            total > 0,
    ;
    assert(n > 0) by {
        if n == 0 {
            assert(weights =~= Seq::<u32>::empty());
        }
    }
    assert(SCORE_ONE - n < shares) by (nonlinear_arith)
        requires
            (total * SCORE_ONE as nat) < total * shares + n * total,
            total > 0,
    ;
}

/// Computes the sum of the weights.
pub fn total_weight(weights: &Vec<u32>) -> (total: u128)
    ensures
        total == sum_weights(weights@),
{
    let mut total: u128 = 0;
    let mut i: usize = 0;
    while i < weights.len()
        invariant
            i <= weights.len(),
            total == sum_weights(weights@.take(i as int)),
            total <= i * 0xffff_ffff,
        decreases weights.len() - i,
    {
        proof {
            lemma_sum_weights_step(weights@, i as int);
        }
        total = total + weights[i] as u128;
        i = i + 1;
    }
    assert(weights@.take(i as int) =~= weights@);
    total
}

/// Turns the weights of the legal moves into priors that add up to one, as closely
/// as rounding down allows: each prior is the share of its weight in the sum of the
/// weights.
pub fn normalize_priors(weights: &Vec<u32>) -> (priors: Vec<Score>)
    ensures
        priors@.len() == weights@.len(),
        forall|i: int|
            0 <= i < priors@.len() ==> (#[trigger] priors@[i]).value() == prior_share(
                weights@[i] as nat,
                sum_weights(weights@),
            ),
{
    let total = total_weight(weights);
    let mut priors: Vec<Score> = Vec::new();
    let mut i: usize = 0;
    while i < weights.len()
        invariant
            i <= weights.len(),
            priors@.len() == i,
            total == sum_weights(weights@),
            forall|j: int|
                0 <= j < i ==> (#[trigger] priors@[j]).value() == prior_share(
                    weights@[j] as nat,
                    sum_weights(weights@),
                ),
        decreases weights.len() - i,
    {
        let weight = weights[i];
        proof {
            lemma_weight_within_sum(weights@, i as int);
            lemma_prior_share_in_range(weight as nat, total as nat);
        }
        let parts: u32 = if total == 0 {
            0
        } else {
            assert(weight as u128 * 65536 <= 0xffff_ffff * 65536) by (nonlinear_arith)
                requires
                    weight <= 0xffff_ffff,
            ;
            ((weight as u128 * 65536) / total) as u32
        };
        match Score::new(parts) {
            Some(prior) => {
                priors.push(prior);
            },
            None => {
                priors.push(Score::zero());
            },
        }
        i = i + 1;
    }
    priors
}

} // verus!
