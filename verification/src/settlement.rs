//! Payout rules: what a holder of winning shares, or a winning bettor in a
//! pooled market, receives once the outcome is known.

use vstd::prelude::*;
use crate::fixed_point::MarketError;
use crate::fixed_point::fits;
use crate::fixed_point::trunc_div;
use crate::fixed_point::mul_div_result;
use crate::fixed_point::checked_add;
use crate::fixed_point::mul_div;

verus! {

/// The payout of `shares` winning shares out of `winning_total`, from a
/// pool of `pool`: `pool * shares / winning_total`, and nothing for no
/// shares.
pub open spec fn share_winnings_result(pool: int, shares: int, winning_total: int) -> Result<
    i128,
    MarketError,
> {
    if shares == 0 {
        Ok(0i128)
    } else {
        mul_div_result(pool, shares, winning_total)
    }
}

/// Computes the payout of a holder of winning shares.
pub fn share_winnings(pool: i128, shares: i128, winning_total: i128) -> (r: Result<
    i128,
    MarketError,
>)
    ensures
        r == share_winnings_result(pool as int, shares as int, winning_total as int),
{
    if shares == 0 {
        return Ok(0);
    }
    mul_div(pool, shares, winning_total)
}

/// The payout of a winning stake in a pooled market: the stake itself and
/// its share of the losing pool, `stake + losing_pool * stake / winning_total`.
pub open spec fn pooled_winnings_result(stake: int, losing_pool: int, winning_total: int)
    -> Result<i128, MarketError> {
    match mul_div_result(losing_pool, stake, winning_total) {
        Err(e) => Err(e),
        Ok(cut) => if fits(stake + cut) {
            Ok((stake + cut) as i128)
        } else {
            Err(MarketError::ArithmeticOverflow)
        },
    }
}

/// Computes the payout of a winning stake in a pooled market.
pub fn pooled_winnings(stake: i128, losing_pool: i128, winning_total: i128) -> (r: Result<
    i128,
    MarketError,
>)
    ensures
        r == pooled_winnings_result(stake as int, losing_pool as int, winning_total as int),
{
    let cut: i128 = mul_div(losing_pool, stake, winning_total)?;
    checked_add(stake, cut)
}

/// The sum of a sequence of integers.
pub open spec fn sum(s: Seq<int>) -> int
    decreases s.len(),
{
    if s.len() == 0 {
        0
    } else {
        sum(s.drop_last()) + s.last()
    }
}

/// The sum of the proportional payouts `pool * s[i] / winning_total`.
pub open spec fn payouts_sum(pool: int, s: Seq<int>, winning_total: int) -> int
    decreases s.len(),
{
    if s.len() == 0 {
        0
    } else {
        payouts_sum(pool, s.drop_last(), winning_total) + trunc_div(
            pool * s.last(),
            winning_total,
        )
    }
}

/// One proportional payout, multiplied back by the total of the winning
/// shares, does not exceed the pool times the shares paid.
pub proof fn lemma_payout_share(pool: int, shares: int, winning_total: int)
    requires
        pool >= 0,
        shares >= 0,
        winning_total > 0,
    ensures
        0 <= trunc_div(pool * shares, winning_total),
        trunc_div(pool * shares, winning_total) * winning_total <= pool * shares,
{
    let x = pool * shares;
    assert(x >= 0) by (nonlinear_arith)
        requires
            x == pool * shares,
            pool >= 0,
            shares >= 0,
    ;
    crate::fixed_point::lemma_trunc_div_floor(x, winning_total);
    let q = x / winning_total;
    assert(q * winning_total == winning_total * q) by (nonlinear_arith);
}

/// Proportional payouts conserve the pool: paid to holders whose winning
/// shares together are no more than the total, they add up to no more than
/// the pool.
pub proof fn lemma_payouts_conserve(pool: int, s: Seq<int>, winning_total: int)
    requires
        pool >= 0,
        winning_total > 0,
        forall|i: int| 0 <= i < s.len() ==> #[trigger] s[i] >= 0,
        sum(s) <= winning_total,
    ensures
        0 <= payouts_sum(pool, s, winning_total) <= pool,
        payouts_sum(pool, s, winning_total) * winning_total <= pool * sum(s),
{
    lemma_payouts_scaled(pool, s, winning_total);
    let p = payouts_sum(pool, s, winning_total);
    let t = sum(s);
    assert(p <= pool) by (nonlinear_arith)
        requires
            p * winning_total <= pool * t,
            t <= winning_total,
            winning_total > 0,
            pool >= 0,
            p >= 0,
    ;
}

/// The sum of the payouts, multiplied back by the total of the winning
/// shares, does not exceed the pool times the shares paid.
pub proof fn lemma_payouts_scaled(pool: int, s: Seq<int>, winning_total: int)
    requires
        pool >= 0,
        winning_total > 0,
        forall|i: int| 0 <= i < s.len() ==> #[trigger] s[i] >= 0,
    ensures
        0 <= payouts_sum(pool, s, winning_total),
        0 <= sum(s),
        payouts_sum(pool, s, winning_total) * winning_total <= pool * sum(s),
    decreases s.len(),
{
    if s.len() == 0 {
        assert(pool * 0 == 0) by (nonlinear_arith);
        assert(0 * winning_total == 0) by (nonlinear_arith);
    } else {
        let d = s.drop_last();
        assert forall|i: int| 0 <= i < d.len() implies #[trigger] d[i] >= 0 by {
            assert(d[i] == s[i]);
        }
        lemma_payouts_scaled(pool, d, winning_total);
        assert(s.last() == s[s.len() - 1]);
        lemma_payout_share(pool, s.last(), winning_total);
        let a = payouts_sum(pool, d, winning_total);
        let b = trunc_div(pool * s.last(), winning_total);
        let x = sum(d);
        let y = s.last();
        assert((a + b) * winning_total <= pool * (x + y)) by (nonlinear_arith)
            requires
                a * winning_total <= pool * x,
                b * winning_total <= pool * y,
        ;
    }
}


/// The sum of the pooled payouts `s[i] + losing_pool * s[i] / winning_total`.
pub open spec fn pooled_payouts_sum(s: Seq<int>, losing_pool: int, winning_total: int) -> int {
    sum(s) + payouts_sum(losing_pool, s, winning_total)
}

/// Pooled payouts conserve the pool: paid to winners whose stakes together
/// are no more than the winning total, they add up to no more than what
/// both sides staked.
pub proof fn lemma_pooled_payouts_conserve(s: Seq<int>, losing_pool: int, winning_total: int)
    requires
        losing_pool >= 0,
        winning_total > 0,
        forall|i: int| 0 <= i < s.len() ==> #[trigger] s[i] >= 0,
        sum(s) <= winning_total,
    ensures
        0 <= pooled_payouts_sum(s, losing_pool, winning_total) <= winning_total + losing_pool,
{
    lemma_payouts_conserve(losing_pool, s, winning_total);
    lemma_payouts_scaled(losing_pool, s, winning_total);
}

/// A winner's pooled payout is its stake and no less, and all of both
/// pools when it is the only winner.
pub proof fn lemma_pooled_winner(stake: int, losing_pool: int, winning_total: int)
    requires
        stake >= 0,
        losing_pool >= 0,
        winning_total > 0,
        pooled_winnings_result(stake, losing_pool, winning_total) is Ok,
    ensures
        pooled_winnings_result(stake, losing_pool, winning_total)->Ok_0 >= stake,
        stake == winning_total ==> pooled_winnings_result(stake, losing_pool, winning_total)->Ok_0
            == stake + losing_pool,
{
    lemma_payout_share(losing_pool, stake, winning_total);
    if stake == winning_total {
        let x = losing_pool * stake;
        assert(x == winning_total * losing_pool) by (nonlinear_arith)
            requires
                x == losing_pool * stake,
                stake == winning_total,
        ;
        assert(x >= 0) by (nonlinear_arith)
            requires
                x == losing_pool * stake,
                losing_pool >= 0,
                stake >= 0,
        ;
        crate::fixed_point::lemma_trunc_div_floor(x, winning_total);
        crate::fixed_point::lemma_floor_unique(x, winning_total, losing_pool);
    }
}

} // verus!
