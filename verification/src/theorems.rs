//! What holds of the markets whatever is done to them.

use vstd::prelude::*;
use crate::fixed_point::MarketError;
use crate::ledger::position_of;
use crate::soromarket::MarketView;
use crate::soromarket::Outcome;
use crate::prediction::ContractView;
use crate::prediction::MarketStatus;
use crate::prediction::Stake;
use crate::prediction::pay_winners;
use crate::prediction::winning_total;

verus! {

/// Along the curve, every buy that is accepted issues at least one share,
/// adds the amount to the reserve of the side bought, leaves the opposite
/// reserve positive, and keeps the market's invariant.
pub proof fn lemma_buy_issues_shares(v: MarketView, account: u64, amount: i128, side: bool)
    requires
        v.wf(),
        v.liquidity is None,
        v.buy(account, amount, side) is Ok,
    ensures
        ({
            let (w, shares) = v.buy(account, amount, side)->Ok_0;
            &&& shares > 0
            &&& amount > 0
            &&& w.reserve(!side) > 0
            &&& w.reserve(!side) == v.reserve(!side) - shares
            &&& w.reserve(side) == v.reserve(side) + amount
            &&& w.total_volume == v.total_volume + amount
            &&& w.wf()
        }),
{
    crate::cpmm::lemma_buy_positive(v.reserve(side) as int, v.reserve(!side) as int, amount as int);
    let s = crate::cpmm::buy_result(
        v.reserve(side) as int,
        v.reserve(!side) as int,
        amount as int,
    )->Ok_0;
    let p = position_of(v.positions, account);
    let q = crate::ledger::with_side(
        p,
        side,
        (crate::ledger::side_shares(p, side) + s.amount_out) as i128,
    );
    assert(p.true_shares >= 0 && p.false_shares >= 0 && p.account == account) by {
        if crate::ledger::has_account(v.positions, account) {
            let i = crate::ledger::index_of(v.positions, account);
            assert(0 <= i < v.positions.len() && v.positions[i].account == account);
        }
    }
    crate::ledger::lemma_with_position(v.positions, account, q);
}

/// Along the curve, every sale that is accepted pays at least one unit,
/// takes the shares from the seller, leaves both reserves positive, and
/// keeps the market's invariant.
pub proof fn lemma_sell_pays(v: MarketView, account: u64, shares: i128, side: bool)
    requires
        v.wf(),
        v.liquidity is None,
        v.sell(account, shares, side) is Ok,
    ensures
        ({
            let (w, payout) = v.sell(account, shares, side)->Ok_0;
            &&& payout > 0
            &&& shares > 0
            &&& w.reserve(side) > 0
            &&& w.reserve(side) == v.reserve(side) - payout
            &&& w.reserve(!side) == v.reserve(!side) + shares
            &&& crate::ledger::side_shares(position_of(w.positions, account), side)
                == crate::ledger::side_shares(position_of(v.positions, account), side) - shares
            &&& w.wf()
        }),
{
    crate::cpmm::lemma_sell_positive(
        v.reserve(side) as int,
        v.reserve(!side) as int,
        shares as int,
    );
    let p = position_of(v.positions, account);
    let q = crate::ledger::with_side(
        p,
        side,
        (crate::ledger::side_shares(p, side) - shares) as i128,
    );
    assert(p.true_shares >= 0 && p.false_shares >= 0 && p.account == account) by {
        if crate::ledger::has_account(v.positions, account) {
            let i = crate::ledger::index_of(v.positions, account);
            assert(0 <= i < v.positions.len() && v.positions[i].account == account);
        }
    }
    crate::ledger::lemma_with_position(v.positions, account, q);
}

/// A trade along the curve never raises the product of the reserves, and
/// lowers it by less than the reserve that grew; the product stays
/// positive.
pub proof fn lemma_trade_product_drift(v: MarketView, account: u64, amount: i128, side: bool)
    requires
        v.wf(),
        v.liquidity is None,
    ensures
        v.buy(account, amount, side) is Ok ==> ({
            let w = v.buy(account, amount, side)->Ok_0.0;
            &&& 0 < w.product() <= v.product()
            &&& v.product() - w.product() < w.reserve(side)
        }),
        v.sell(account, amount, side) is Ok ==> ({
            let w = v.sell(account, amount, side)->Ok_0.0;
            &&& 0 < w.product() <= v.product()
            &&& v.product() - w.product() < w.reserve(!side)
        }),
{
    let a = v.reserve(side) as int;
    let b = v.reserve(!side) as int;
    assert(a * b == b * a) by (nonlinear_arith);
    assert(v.product() == a * b);
    if v.buy(account, amount, side) is Ok {
        crate::cpmm::lemma_buy_positive(a, b, amount as int);
        let w = v.buy(account, amount, side)->Ok_0.0;
        let c = w.reserve(side) as int;
        let d = w.reserve(!side) as int;
        assert(c * d == d * c) by (nonlinear_arith);
        assert(w.product() == c * d);
        assert(c * d > 0) by (nonlinear_arith)
            requires
                c > 0,
                d > 0,
        ;
    }
    if v.sell(account, amount, side) is Ok {
        crate::cpmm::lemma_sell_positive(a, b, amount as int);
        let w = v.sell(account, amount, side)->Ok_0.0;
        let c = w.reserve(side) as int;
        let d = w.reserve(!side) as int;
        assert(c * d == d * c) by (nonlinear_arith);
        assert(w.product() == c * d);
        assert(c * d > 0) by (nonlinear_arith)
            requires
                c > 0,
                d > 0,
        ;
    }
}

/// A claim before resolution succeeds, pays nothing and changes nothing.
/// After a claim on a resolved market has succeeded, every further claim
/// of the same account fails with `AlreadyClaimed`.
pub proof fn lemma_claim_once(v: MarketView, account: u64)
    requires
        v.wf(),
    ensures
        v.state == Outcome::Undecided ==> v.claim(account) == Ok::<
            (MarketView, i128),
            MarketError,
        >((v, 0i128)),
        v.state != Outcome::Undecided && v.claim(account) is Ok ==> v.claim(
            account,
        )->Ok_0.0.claim(account) == Err::<(MarketView, i128), MarketError>(
            MarketError::AlreadyClaimed,
        ),
{
    if v.state != Outcome::Undecided && v.claim(account) is Ok {
        crate::ledger::lemma_with_position(
            v.positions,
            account,
            crate::ledger::claimed_position(account),
        );
    }
}

/// A claim leaves the positions of all other accounts as they were, and
/// the claiming account with nothing on either side.
pub proof fn lemma_claim_touches_one(v: MarketView, account: u64, other: u64)
    requires
        v.wf(),
        v.state != Outcome::Undecided,
        v.claim(account) is Ok,
        other != account,
    ensures
        position_of(v.claim(account)->Ok_0.0.positions, other) == position_of(v.positions, other),
        position_of(v.claim(account)->Ok_0.0.positions, account)
            == crate::ledger::claimed_position(account),
{
    crate::ledger::lemma_with_position(
        v.positions,
        account,
        crate::ledger::claimed_position(account),
    );
}

/// On a resolved market an account without winning shares is paid nothing.
pub proof fn lemma_loser_gets_nothing(v: MarketView, account: u64)
    requires
        v.wf(),
        v.state != Outcome::Undecided,
        !position_of(v.positions, account).claimed,
        crate::ledger::side_shares(position_of(v.positions, account), v.winner()) == 0,
    ensures
        v.claim(account) is Ok,
        v.claim(account)->Ok_0.1 == 0,
{
}

/// The market after the accounts of `accounts` have claimed in turn; a
/// claim that fails changes nothing.
pub open spec fn after_claims(v: MarketView, accounts: Seq<u64>) -> MarketView
    decreases accounts.len(),
{
    if accounts.len() == 0 {
        v
    } else {
        let u = after_claims(v, accounts.drop_last());
        match u.claim(accounts.last()) {
            Ok((w, _)) => w,
            Err(_) => u,
        }
    }
}

/// The sum of what the claims of `accounts`, made in turn, pay; a claim
/// that fails pays nothing.
pub open spec fn claims_paid(v: MarketView, accounts: Seq<u64>) -> int
    decreases accounts.len(),
{
    if accounts.len() == 0 {
        0
    } else {
        let u = after_claims(v, accounts.drop_last());
        claims_paid(v, accounts.drop_last()) + match u.claim(accounts.last()) {
            Ok((_, paid)) => paid as int,
            Err(_) => 0,
        }
    }
}

/// What a market has paid never exceeds its pool.
pub proof fn lemma_paid_within_pool(v: MarketView)
    requires
        v.wf(),
    ensures
        0 <= v.paid_out <= v.pool(),
{
    if v.state != Outcome::Undecided && v.winning_total > 0 {
        let paid = v.paid_out as int;
        let total = v.winning_total as int;
        let pool = v.pool();
        let rest = v.unclaimed();
        assert(paid <= pool) by (nonlinear_arith)
            requires
                paid * total <= pool * (total - rest),
                0 <= rest <= total,
                total > 0,
                pool >= 0,
                paid >= 0,
        ;
    }
}

/// Settlement conserves value: whoever claims, in whatever order and
/// however often, the winnings paid add up to no more than the pool that
/// the market collected.
pub proof fn lemma_claims_conserve(v: MarketView, accounts: Seq<u64>)
    requires
        v.wf(),
    ensures
        after_claims(v, accounts).wf(),
        after_claims(v, accounts).pool() == v.pool(),
        after_claims(v, accounts).state == v.state,
        after_claims(v, accounts).paid_out == v.paid_out + claims_paid(v, accounts),
        0 <= claims_paid(v, accounts),
        v.paid_out + claims_paid(v, accounts) <= v.pool(),
    decreases accounts.len(),
{
    if accounts.len() > 0 {
        lemma_claims_conserve(v, accounts.drop_last());
        let u = after_claims(v, accounts.drop_last());
        if u.state != Outcome::Undecided && u.claim(accounts.last()) is Ok {
            crate::soromarket::lemma_claim_wf(u, accounts.last());
        }
    }
    lemma_paid_within_pool(after_claims(v, accounts));
}

/// Resolution is final: once a market is resolved, no operation changes
/// its state, and no trade or second resolution is accepted.
pub proof fn lemma_resolved_is_terminal(
    v: MarketView,
    account: u64,
    amount: i128,
    side: bool,
    description: Seq<char>,
)
    requires
        v.wf(),
        v.state != Outcome::Undecided,
    ensures
        v.buy(account, amount, side) == Err::<(MarketView, i128), MarketError>(
            MarketError::MarketNotLive,
        ),
        v.sell(account, amount, side) == Err::<(MarketView, i128), MarketError>(
            MarketError::MarketNotLive,
        ),
        v.settle(account, side) is Err,
        account == v.oracle ==> v.settle(account, side) == Err::<MarketView, MarketError>(
            MarketError::AlreadySettled,
        ),
        v.setup(account, account, description, amount) == Err::<(MarketView, i128), MarketError>(
            MarketError::AlreadySetup,
        ),
        v.claim(account) is Ok ==> v.claim(account)->Ok_0.0.state == v.state,
{
}

/// A resolution that succeeds makes every later resolution by the oracle
/// fail with `AlreadySettled`.
pub proof fn lemma_settle_once(v: MarketView, outcome: bool, again: bool)
    requires
        v.wf(),
        v.settle(v.oracle, outcome) is Ok,
    ensures
        v.settle(v.oracle, outcome)->Ok_0.state == MarketView::resolved(outcome),
        v.settle(v.oracle, outcome)->Ok_0.settle(v.oracle, again) == Err::<
            MarketView,
            MarketError,
        >(MarketError::AlreadySettled),
{
}


/// Paying winners takes from the liquidity no more than the winners'
/// part of the amount to pay: what is paid, multiplied by the total of the
/// winning shares, is at most the amount to pay times the shares paid.
pub proof fn lemma_pay_winners_bounded(
    balances: Map<u64, i128>,
    liquidity: i128,
    s: Seq<Stake>,
    market_id: u64,
    outcome: u32,
    total_payouts: i128,
    total_winning: i128,
)
    requires
        total_payouts >= 0,
        total_winning >= 0,
        forall|i: int| 0 <= i < s.len() ==> (#[trigger] s[i]).amount >= 0,
        pay_winners(balances, liquidity, s, market_id, outcome, total_payouts, total_winning)
            is Ok,
    ensures
        ({
            let paid = liquidity - pay_winners(
                balances,
                liquidity,
                s,
                market_id,
                outcome,
                total_payouts,
                total_winning,
            )->Ok_0.1;
            &&& paid >= 0
            &&& total_winning > 0 ==> paid * total_winning <= total_payouts * winning_total(
                s,
                market_id,
                outcome,
            )
            &&& total_winning == 0 ==> paid == winning_total(s, market_id, outcome)
        }),
    decreases s.len(),
{
    if s.len() == 0 {
        assert(0 * total_winning == 0) by (nonlinear_arith);
        assert(total_payouts * 0 == 0) by (nonlinear_arith);
    } else {
        let d = s.drop_last();
        assert forall|i: int| 0 <= i < d.len() implies (#[trigger] d[i]).amount >= 0 by {
            assert(d[i] == s[i]);
        }
        lemma_pay_winners_bounded(
            balances,
            liquidity,
            d,
            market_id,
            outcome,
            total_payouts,
            total_winning,
        );
        let stake = s.last();
        assert(stake == s[s.len() - 1]);
        let before = pay_winners(
            balances,
            liquidity,
            d,
            market_id,
            outcome,
            total_payouts,
            total_winning,
        )->Ok_0.1;
        let after = pay_winners(
            balances,
            liquidity,
            s,
            market_id,
            outcome,
            total_payouts,
            total_winning,
        )->Ok_0.1;
        if crate::prediction::is_winner(stake, market_id, outcome) {
            let payout = before - after;
            let a = stake.amount as int;
            let w = total_winning as int;
            let p = total_payouts as int;
            let x = liquidity - before;
            let y = winning_total(d, market_id, outcome);
            if w > 0 {
                assert(a * p == p * a) by (nonlinear_arith);
                crate::settlement::lemma_payout_share(p, a, w);
                assert((x + payout) * w <= p * (y + a)) by (nonlinear_arith)
                    requires
                        x * w <= p * y,
                        payout * w <= p * a,
                ;
            }
        }
    }
}

/// Settling a three-way market conserves value: the winners together are
/// paid no more than the reserve of the winning outcome, and nothing is
/// paid if no winning shares are held.
pub proof fn lemma_settlement_conserves(v: ContractView, admin: u64, market_id: u64, outcome: u32)
    requires
        v.wf(),
        v.settle_market(admin, market_id, outcome) is Ok,
    ensures
        ({
            let w = v.settle_market(admin, market_id, outcome)->Ok_0;
            let paid = v.total_liquidity - w.total_liquidity;
            &&& 0 <= paid <= v.market(market_id).reserve(outcome)
            &&& winning_total(v.stakes, market_id, outcome) == 0 ==> paid == 0
            &&& w.total_liquidity >= 0
        }),
{
    let m = v.market(market_id);
    let total = winning_total(v.stakes, market_id, outcome);
    assert(v.markets[market_id - 1].reserve_home >= 0);
    crate::prediction::lemma_winning_nonnegative(v.stakes, market_id, outcome);
    lemma_pay_winners_bounded(
        v.balances,
        v.total_liquidity,
        v.stakes,
        market_id,
        outcome,
        m.reserve(outcome),
        total as i128,
    );
    let w = v.settle_market(admin, market_id, outcome)->Ok_0;
    let paid = v.total_liquidity - w.total_liquidity;
    let p = m.reserve(outcome) as int;
    if total > 0 {
        assert(paid <= p) by (nonlinear_arith)
            requires
                paid * total <= p * total,
                total > 0,
        ;
    }
}

/// A market that has been settled stays settled: it cannot be settled
/// again or archived, takes no stake and no new prices.
pub proof fn lemma_settled_is_terminal(
    v: ContractView,
    admin: u64,
    market_id: u64,
    outcome: u32,
    again: u32,
    user: u64,
    amount: i128,
)
    requires
        v.wf(),
        v.settle_market(admin, market_id, outcome) is Ok,
    ensures
        ({
            let w = v.settle_market(admin, market_id, outcome)->Ok_0;
            &&& w.market(market_id).status == MarketStatus::Settled
            &&& again <= 2 ==> w.settle_market(admin, market_id, again) == Err::<
                ContractView,
                MarketError,
            >(MarketError::AlreadySettled)
            &&& w.place_stake(user, market_id, again, amount) is Err
            &&& w.archive_market(admin, market_id) == Err::<ContractView, MarketError>(
                MarketError::AlreadySettled,
            )
            &&& w.update_odds(admin, market_id, amount, amount, amount) is Err
            &&& w.wf()
        }),
{
    crate::prediction::lemma_stakes_elsewhere(v.stakes, market_id, v.stake_counter);
    let w = v.settle_market(admin, market_id, outcome)->Ok_0;
    assert(w.markets[market_id - 1] == v.market(market_id).closed_as(MarketStatus::Settled));
}


/// Under weighted pricing, every buy that is accepted issues at least one
/// share, adds the shares to the side's shares outstanding and the amount
/// to its deposits and to the volume, and keeps the market's invariant.
pub proof fn lemma_weighted_buy(v: MarketView, account: u64, amount: i128, side: bool)
    requires
        v.wf(),
        v.liquidity is Some,
        v.buy(account, amount, side) is Ok,
    ensures
        ({
            let (w, shares) = v.buy(account, amount, side)->Ok_0;
            &&& shares > 0
            &&& amount > 0
            &&& w.reserve(side) == v.reserve(side) + shares
            &&& w.reserve(!side) == v.reserve(!side)
            &&& w.deposits(side) == v.deposits(side) + amount
            &&& w.deposits(!side) == v.deposits(!side)
            &&& w.total_volume == v.total_volume + amount
            &&& crate::ledger::side_shares(position_of(w.positions, account), side)
                == crate::ledger::side_shares(position_of(v.positions, account), side) + shares
            &&& w.wf()
        }),
{
    let shares = v.buy(account, amount, side)->Ok_0.1;
    let p = position_of(v.positions, account);
    let q = crate::ledger::with_side(
        p,
        side,
        (crate::ledger::side_shares(p, side) + shares) as i128,
    );
    assert(p.true_shares >= 0 && p.false_shares >= 0 && p.account == account) by {
        if crate::ledger::has_account(v.positions, account) {
            let i = crate::ledger::index_of(v.positions, account);
            assert(0 <= i < v.positions.len() && v.positions[i].account == account);
        }
    }
    crate::ledger::lemma_with_position(v.positions, account, q);
}

/// Under weighted pricing, every sale that is accepted pays what was asked
/// for out of the side's deposits, retires at least one share of the
/// seller, and keeps the market's invariant.
pub proof fn lemma_weighted_sell(v: MarketView, account: u64, payout: i128, side: bool)
    requires
        v.wf(),
        v.liquidity is Some,
        v.sell(account, payout, side) is Ok,
    ensures
        ({
            let (w, paid) = v.sell(account, payout, side)->Ok_0;
            let retired = v.reserve(side) - w.reserve(side);
            &&& paid == payout
            &&& payout > 0
            &&& retired > 0
            &&& w.reserve(!side) == v.reserve(!side)
            &&& w.deposits(side) == v.deposits(side) - payout
            &&& w.deposits(!side) == v.deposits(!side)
            &&& w.total_volume == v.total_volume + payout
            &&& crate::ledger::side_shares(position_of(w.positions, account), side)
                == crate::ledger::side_shares(position_of(v.positions, account), side) - retired
            &&& w.wf()
        }),
{
    let w = v.sell(account, payout, side)->Ok_0.0;
    let retired = v.reserve(side) - w.reserve(side);
    let p = position_of(v.positions, account);
    let q = crate::ledger::with_side(
        p,
        side,
        (crate::ledger::side_shares(p, side) - retired) as i128,
    );
    assert(p.true_shares >= 0 && p.false_shares >= 0 && p.account == account) by {
        if crate::ledger::has_account(v.positions, account) {
            let i = crate::ledger::index_of(v.positions, account);
            assert(0 <= i < v.positions.len() && v.positions[i].account == account);
        }
    }
    crate::ledger::lemma_with_position(v.positions, account, q);
}

/// The probabilities that a well-formed market shows, however it is
/// priced, lie between zero and `SCALE` and add up to `SCALE` or to one
/// less.
pub proof fn lemma_market_probabilities(v: MarketView)
    requires
        v.wf(),
        crate::cpmm::probabilities_result(v.true_reserve as int, v.false_reserve as int) is Ok,
    ensures
        ({
            let (p, q) = crate::cpmm::probabilities_result(
                v.true_reserve as int,
                v.false_reserve as int,
            )->Ok_0;
            &&& 0 <= p <= crate::fixed_point::SCALE
            &&& 0 <= q <= crate::fixed_point::SCALE
            &&& crate::fixed_point::SCALE - 1 <= p + q <= crate::fixed_point::SCALE
        }),
{
    crate::cpmm::lemma_probabilities_sum(v.true_reserve as int, v.false_reserve as int);
}

} // verus!
