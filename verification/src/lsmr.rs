//! Liquidity-weighted probability pricing: the price of a share is the
//! side's observed probability, blended toward one whole unit by a fixed
//! liquidity parameter.

use vstd::prelude::*;
use crate::fixed_point::MarketError;
use crate::fixed_point::SCALE;
use crate::fixed_point::fits;
use crate::fixed_point::mul_div_result;
use crate::fixed_point::checked_add;
use crate::fixed_point::checked_sub;
use crate::fixed_point::mul_div;
use crate::ledger::Position;
use crate::ledger::PositionLedger;
use crate::ledger::position_of;
use crate::ledger::side_shares;
use crate::ledger::credit_result;
use crate::ledger::debit_result;

verus! {

/// The price of one share of a side that has `s_side` shares outstanding
/// against `s_other` on the opposite side:
/// `prob + (SCALE - prob) * liquidity / SCALE`, where
/// `prob = SCALE * s_side / (s_side + s_other)`. An empty market prices a
/// share at one whole unit.
pub open spec fn price_result(s_side: int, s_other: int, liquidity: int) -> Result<
    i128,
    MarketError,
> {
    if !fits(s_side + s_other) {
        Err(MarketError::ArithmeticOverflow)
    } else if s_side + s_other == 0 {
        Ok(SCALE)
    } else {
        match mul_div_result(SCALE as int, s_side, s_side + s_other) {
            Err(e) => Err(e),
            Ok(prob) => if !fits(SCALE - prob) {
                Err(MarketError::ArithmeticOverflow)
            } else {
                match mul_div_result(SCALE - prob, liquidity, SCALE as int) {
                    Err(e) => Err(e),
                    Ok(blend) => if !fits(prob + blend) {
                        Err(MarketError::ArithmeticOverflow)
                    } else {
                        Ok((prob + blend) as i128)
                    },
                }
            },
        }
    }
}

/// Computes the price of one share of a side.
pub fn price(s_side: i128, s_other: i128, liquidity: i128) -> (r: Result<i128, MarketError>)
    ensures
        r == price_result(s_side as int, s_other as int, liquidity as int),
{
    let total: i128 = checked_add(s_side, s_other)?;
    if total == 0 {
        return Ok(SCALE);
    }
    let prob: i128 = mul_div(SCALE, s_side, total)?;
    let rest: i128 = checked_sub(SCALE, prob)?;
    let blend: i128 = mul_div(rest, liquidity, SCALE)?;
    checked_add(prob, blend)
}

/// The shares that `cost` buys: `cost * SCALE / price`, and `cost` itself,
/// one for one, while the market is empty or the price is zero.
pub open spec fn shares_for_cost_result(cost: int, s_side: int, s_other: int, liquidity: int)
    -> Result<i128, MarketError> {
    match price_result(s_side, s_other, liquidity) {
        Err(e) => Err(e),
        Ok(p) => if s_side + s_other == 0 || p == 0 {
            if fits(cost) {
                Ok(cost as i128)
            } else {
                Err(MarketError::ArithmeticOverflow)
            }
        } else {
            mul_div_result(cost, SCALE as int, p as int)
        },
    }
}

/// Computes the shares that `cost` buys on a side.
pub fn shares_for_cost(cost: i128, s_side: i128, s_other: i128, liquidity: i128) -> (r: Result<
    i128,
    MarketError,
>)
    ensures
        r == shares_for_cost_result(cost as int, s_side as int, s_other as int, liquidity as int),
{
    let p: i128 = price(s_side, s_other, liquidity)?;
    let total: i128 = checked_add(s_side, s_other)?;
    if total == 0 || p == 0 {
        return Ok(cost);
    }
    mul_div(cost, SCALE, p)
}

/// The value of `shares` at the current price: `shares * price / SCALE`.
pub open spec fn cost_for_shares_result(shares: int, s_side: int, s_other: int, liquidity: int)
    -> Result<i128, MarketError> {
    match price_result(s_side, s_other, liquidity) {
        Err(e) => Err(e),
        Ok(p) => mul_div_result(shares, p as int, SCALE as int),
    }
}

/// Computes the value of `shares` of a side at the current price.
pub fn cost_for_shares(shares: i128, s_side: i128, s_other: i128, liquidity: i128) -> (r: Result<
    i128,
    MarketError,
>)
    ensures
        r == cost_for_shares_result(shares as int, s_side as int, s_other as int, liquidity as int),
{
    let p: i128 = price(s_side, s_other, liquidity)?;
    mul_div(shares, p, SCALE)
}

/// With share counts that are not negative and a liquidity parameter
/// between zero and `SCALE`, the price lies between the side's probability
/// and `SCALE`.
pub proof fn lemma_price_bounds(s_side: int, s_other: int, liquidity: int)
    requires
        s_side >= 0,
        s_other >= 0,
        0 <= liquidity <= SCALE,
        price_result(s_side, s_other, liquidity) is Ok,
    ensures
        0 <= price_result(s_side, s_other, liquidity)->Ok_0 <= SCALE,
        s_side + s_other > 0 ==> price_result(s_side, s_other, liquidity)->Ok_0 >= (SCALE * s_side)
            / (s_side + s_other),
        liquidity == SCALE ==> price_result(s_side, s_other, liquidity)->Ok_0 == SCALE,
        liquidity == 0 && s_side + s_other > 0 ==> price_result(s_side, s_other, liquidity)->Ok_0
            == (SCALE * s_side) / (s_side + s_other),
{
    let total = s_side + s_other;
    if total != 0 {
        let a = SCALE * s_side;
        assert(0 <= a <= SCALE * total) by (nonlinear_arith)
            requires
                a == SCALE * s_side,
                0 <= s_side <= total,
        ;
        crate::fixed_point::lemma_trunc_div_floor(a, total);
        let prob = a / total;
        assert(prob <= SCALE) by (nonlinear_arith)
            requires
                total * prob <= a,
                a <= SCALE * total,
                total > 0,
        ;
        let rest = SCALE - prob;
        let b = rest * liquidity;
        assert(0 <= b <= rest * SCALE) by (nonlinear_arith)
            requires
                b == rest * liquidity,
                0 <= liquidity <= SCALE,
                rest >= 0,
        ;
        crate::fixed_point::lemma_trunc_div_floor(b, SCALE as int);
        let blend = b / (SCALE as int);
        assert(blend <= rest) by (nonlinear_arith)
            requires
                SCALE * blend <= b,
                b <= rest * SCALE,
        ;
        if liquidity == SCALE {
            assert(b == SCALE * rest) by (nonlinear_arith)
                requires
                    b == rest * liquidity,
                    liquidity == SCALE,
            ;
            crate::fixed_point::lemma_floor_unique(b, SCALE as int, rest);
        }
        if liquidity == 0 {
            assert(b == 0) by (nonlinear_arith)
                requires
                    b == rest * liquidity,
                    liquidity == 0,
            ;
        }
    }
}


/// The pool of a market priced by liquidity-weighted probability: the
/// shares outstanding and the value held on each side, and the liquidity
/// parameter.
#[derive(Clone, Copy, Debug, PartialEq, Eq, Structural)]
pub struct LsmrPool {
    /// Shares outstanding on the true side.
    pub shares_true: i128,
    /// Shares outstanding on the false side.
    pub shares_false: i128,
    /// Value held on the true side.
    pub pool_true: i128,
    /// Value held on the false side.
    pub pool_false: i128,
    /// How far the price is blended toward one whole unit, from zero to
    /// `SCALE`.
    pub liquidity_parameter: i128,
}

impl LsmrPool {
    /// The pool's invariant: nothing is negative, and the liquidity
    /// parameter lies between zero and `SCALE`.
    pub open spec fn wf(self) -> bool {
        &&& self.shares_true >= 0
        &&& self.shares_false >= 0
        &&& self.pool_true >= 0
        &&& self.pool_false >= 0
        &&& 0 <= self.liquidity_parameter <= SCALE
    }

    /// The shares outstanding on a side.
    pub open spec fn shares(self, side: bool) -> i128 {
        if side {
            self.shares_true
        } else {
            self.shares_false
        }
    }

    /// The value held on a side.
    pub open spec fn pool(self, side: bool) -> i128 {
        if side {
            self.pool_true
        } else {
            self.pool_false
        }
    }

    /// The pool with the shares and the value of one side replaced.
    pub open spec fn with_side(self, side: bool, shares: i128, pool: i128) -> LsmrPool {
        if side {
            LsmrPool { shares_true: shares, pool_true: pool, ..self }
        } else {
            LsmrPool { shares_false: shares, pool_false: pool, ..self }
        }
    }

    /// The shares that `amount` buys on `side`.
    pub open spec fn quote_buy_result(self, amount: i128, side: bool) -> Result<i128, MarketError> {
        if amount <= 0 {
            Err(MarketError::InvalidAmount)
        } else {
            shares_for_cost_result(
                amount as int,
                self.shares(side) as int,
                self.shares(!side) as int,
                self.liquidity_parameter as int,
            )
        }
    }

    /// The payout that `shares` of `side` fetch.
    pub open spec fn quote_sell_result(self, shares: i128, side: bool) -> Result<
        i128,
        MarketError,
    > {
        if shares <= 0 {
            Err(MarketError::InvalidAmount)
        } else {
            cost_for_shares_result(
                shares as int,
                self.shares(side) as int,
                self.shares(!side) as int,
                self.liquidity_parameter as int,
            )
        }
    }

    /// A buy of `amount` on `side` by `account`. Gives the pool, the
    /// positions and the shares issued. The amount joins the side's value,
    /// the shares join the side's shares and the account's position.
    pub open spec fn buy_result(
        self,
        positions: Seq<Position>,
        account: u64,
        amount: i128,
        side: bool,
    ) -> Result<(LsmrPool, Seq<Position>, i128), MarketError> {
        match self.quote_buy_result(amount, side) {
            Err(e) => Err(e),
            Ok(issued) => if issued <= 0 {
                Err(MarketError::ZeroSharesReceived)
            } else if !fits(self.shares(side) + issued) || !fits(self.pool(side) + amount) {
                Err(MarketError::ArithmeticOverflow)
            } else {
                match credit_result(positions, account, side, issued as int) {
                    Err(e) => Err(e),
                    Ok(p) => Ok(
                        (
                            self.with_side(
                                side,
                                (self.shares(side) + issued) as i128,
                                (self.pool(side) + amount) as i128,
                            ),
                            p,
                            issued,
                        ),
                    ),
                }
            },
        }
    }

    /// A sale on `side` by `account` for a payout of `payout`. Gives the
    /// pool, the positions and the shares retired: as many as the payout
    /// would buy. The account must hold them and the side must hold the
    /// payout.
    pub open spec fn sell_result(
        self,
        positions: Seq<Position>,
        account: u64,
        payout: i128,
        side: bool,
    ) -> Result<(LsmrPool, Seq<Position>, i128), MarketError> {
        match self.quote_buy_result(payout, side) {
            Err(e) => Err(e),
            Ok(retired) => if retired <= 0 {
                Err(MarketError::ZeroSharesReceived)
            } else if retired > side_shares(position_of(positions, account), side) || retired
                > self.shares(side) {
                Err(MarketError::InsufficientShares)
            } else if payout > self.pool(side) {
                Err(MarketError::InsufficientLiquidity)
            } else {
                match debit_result(positions, account, side, retired as int) {
                    Err(e) => Err(e),
                    Ok(p) => Ok(
                        (
                            self.with_side(
                                side,
                                (self.shares(side) - retired) as i128,
                                (self.pool(side) - payout) as i128,
                            ),
                            p,
                            retired,
                        ),
                    ),
                }
            },
        }
    }

    /// An empty pool with the given liquidity parameter; `InvalidAmount`
    /// unless the parameter lies between zero and `SCALE`.
    pub fn new(liquidity_parameter: i128) -> (r: Result<LsmrPool, MarketError>)
        ensures
            0 <= liquidity_parameter <= SCALE ==> r == Ok::<LsmrPool, MarketError>(
                LsmrPool {
                    shares_true: 0,
                    shares_false: 0,
                    pool_true: 0,
                    pool_false: 0,
                    liquidity_parameter,
                },
            ) && r->Ok_0.wf(),
            !(0 <= liquidity_parameter <= SCALE) ==> r == Err::<LsmrPool, MarketError>(
                MarketError::InvalidAmount,
            ),
    {
        if liquidity_parameter < 0 || liquidity_parameter > SCALE {
            return Err(MarketError::InvalidAmount);
        }
        Ok(
            LsmrPool {
                shares_true: 0,
                shares_false: 0,
                pool_true: 0,
                pool_false: 0,
                liquidity_parameter,
            },
        )
    }

    fn side_state(&self, side: bool) -> (r: (i128, i128, i128))
        ensures
            r == (self.shares(side), self.shares(!side), self.pool(side)),
    {
        if side {
            (self.shares_true, self.shares_false, self.pool_true)
        } else {
            (self.shares_false, self.shares_true, self.pool_false)
        }
    }

    fn set_side(&mut self, side: bool, shares: i128, pool: i128)
        ensures
            *final(self) == old(self).with_side(side, shares, pool),
    {
        if side {
            self.shares_true = shares;
            self.pool_true = pool;
        } else {
            self.shares_false = shares;
            self.pool_false = pool;
        }
    }

    /// The shares that `amount` would buy on `side`; `InvalidAmount`
    /// unless the amount is positive.
    pub fn quote_buy(&self, amount: i128, side: bool) -> (r: Result<i128, MarketError>)
        ensures
            r == self.quote_buy_result(amount, side),
    {
        if amount <= 0 {
            return Err(MarketError::InvalidAmount);
        }
        let (own, other, _) = self.side_state(side);
        shares_for_cost(amount, own, other, self.liquidity_parameter)
    }

    /// The payout that `shares` of `side` would fetch; `InvalidAmount`
    /// unless the share count is positive.
    pub fn quote_sell(&self, shares: i128, side: bool) -> (r: Result<i128, MarketError>)
        ensures
            r == self.quote_sell_result(shares, side),
    {
        if shares <= 0 {
            return Err(MarketError::InvalidAmount);
        }
        let (own, other, _) = self.side_state(side);
        cost_for_shares(shares, own, other, self.liquidity_parameter)
    }

    /// The probabilities of the true and the false outcome that the shares
    /// outstanding imply, scaled by `SCALE`.
    pub fn current_probabilities(&self) -> (r: Result<(i128, i128), MarketError>)
        ensures
            r == crate::cpmm::probabilities_result(
                self.shares_true as int,
                self.shares_false as int,
            ),
    {
        crate::cpmm::probabilities(self.shares_true, self.shares_false)
    }

    /// Buys shares of `side` for `amount` on behalf of `account`, and
    /// returns the shares issued.
    ///
    /// Fails with `InvalidAmount` unless the amount is positive,
    /// `ZeroSharesReceived` if nothing would be issued, and
    /// `ArithmeticOverflow` if a quantity leaves the 128-bit range. A
    /// failed call changes nothing.
    pub fn buy(
        &mut self,
        ledger: &mut PositionLedger,
        account: u64,
        amount: i128,
        side: bool,
    ) -> (r: Result<i128, MarketError>)
        requires
            old(self).wf(),
            old(ledger).wf(),
        ensures
            final(self).wf(),
            final(ledger).wf(),
            match old(self).buy_result(old(ledger)@, account, amount, side) {
                Ok((pool, positions, issued)) => {
                    &&& r == Ok::<i128, MarketError>(issued)
                    &&& *final(self) == pool
                    &&& final(ledger)@ == positions
                },
                Err(e) => {
                    &&& r == Err::<i128, MarketError>(e)
                    &&& *final(self) == *old(self)
                    &&& final(ledger)@ == old(ledger)@
                },
            },
    {
        let issued: i128 = self.quote_buy(amount, side)?;
        if issued <= 0 {
            return Err(MarketError::ZeroSharesReceived);
        }
        let (own, _, held) = self.side_state(side);
        let shares: i128 = checked_add(own, issued)?;
        let pool: i128 = checked_add(held, amount)?;
        ledger.credit(account, side, issued)?;
        self.set_side(side, shares, pool);
        Ok(issued)
    }

    /// Sells on `side` on behalf of `account` for a payout of `payout`,
    /// and returns the shares retired: as many as the payout would buy.
    ///
    /// Fails with `InvalidAmount` unless the payout is positive,
    /// `ZeroSharesReceived` if no share would be retired,
    /// `InsufficientShares` if the account or the side holds fewer shares,
    /// `InsufficientLiquidity` if the side holds less than the payout, and
    /// `ArithmeticOverflow` if a quantity leaves the 128-bit range. A
    /// failed call changes nothing.
    pub fn sell(
        &mut self,
        ledger: &mut PositionLedger,
        account: u64,
        payout: i128,
        side: bool,
    ) -> (r: Result<i128, MarketError>)
        requires
            old(self).wf(),
            old(ledger).wf(),
        ensures
            final(self).wf(),
            final(ledger).wf(),
            match old(self).sell_result(old(ledger)@, account, payout, side) {
                Ok((pool, positions, retired)) => {
                    &&& r == Ok::<i128, MarketError>(retired)
                    &&& *final(self) == pool
                    &&& final(ledger)@ == positions
                },
                Err(e) => {
                    &&& r == Err::<i128, MarketError>(e)
                    &&& *final(self) == *old(self)
                    &&& final(ledger)@ == old(ledger)@
                },
            },
    {
        let retired: i128 = self.quote_buy(payout, side)?;
        if retired <= 0 {
            return Err(MarketError::ZeroSharesReceived);
        }
        let (own, _, held) = self.side_state(side);
        if retired > ledger.shares(account, side) || retired > own {
            return Err(MarketError::InsufficientShares);
        }
        if payout > held {
            return Err(MarketError::InsufficientLiquidity);
        }
        ledger.debit(account, side, retired)?;
        self.set_side(side, own - retired, held - payout);
        Ok(retired)
    }
}

/// The probabilities that a well-formed pool shows add up to `SCALE` or to
/// one less.
pub proof fn lemma_pool_probabilities(pool: LsmrPool)
    requires
        pool.wf(),
        crate::cpmm::probabilities_result(pool.shares_true as int, pool.shares_false as int)
            is Ok,
    ensures
        ({
            let (p, q) = crate::cpmm::probabilities_result(
                pool.shares_true as int,
                pool.shares_false as int,
            )->Ok_0;
            SCALE - 1 <= p + q <= SCALE
        }),
{
    crate::cpmm::lemma_probabilities_sum(pool.shares_true as int, pool.shares_false as int);
}

} // verus!
