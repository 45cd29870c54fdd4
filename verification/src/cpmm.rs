//! Constant-product pricing: trades move along the curve
//! `reserve_true * reserve_false = k`, with the quotient rounded toward zero.

use vstd::prelude::*;
use crate::fixed_point::MarketError;
use crate::fixed_point::SCALE;
use crate::fixed_point::fits;
use crate::fixed_point::div_result;
use crate::fixed_point::mul_div_result;
use crate::fixed_point::checked_add;
use crate::fixed_point::checked_sub;
use crate::fixed_point::checked_mul;
use crate::fixed_point::checked_div;
use crate::fixed_point::mul_div;

verus! {

/// The outcome of moving along the curve: the reserve that grew, the
/// reserve that shrank, and the amount that left the shrinking reserve.
#[derive(Clone, Copy, Debug, PartialEq, Eq, Structural)]
pub struct Swap {
    /// The reserve that received the amount, after the move.
    pub reserve_in: i128,
    /// The opposite reserve, after the move.
    pub reserve_out: i128,
    /// What the opposite reserve gave up.
    pub amount_out: i128,
}

/// Adding `amount` to `r_in` and shrinking `r_out` so that the product stays
/// at `r_in * r_out`, up to rounding.
pub open spec fn swap_result(r_in: int, r_out: int, amount: int) -> Result<Swap, MarketError> {
    if !fits(r_in * r_out) || !fits(r_in + amount) {
        Err(MarketError::ArithmeticOverflow)
    } else {
        match div_result(r_in * r_out, r_in + amount) {
            Err(e) => Err(e),
            Ok(new_out) => if !fits(r_out - new_out) {
                Err(MarketError::ArithmeticOverflow)
            } else {
                Ok(
                    Swap {
                        reserve_in: (r_in + amount) as i128,
                        reserve_out: new_out,
                        amount_out: (r_out - new_out) as i128,
                    },
                )
            },
        }
    }
}

/// Moves along the curve without judging the result.
pub fn swap(r_in: i128, r_out: i128, amount: i128) -> (r: Result<Swap, MarketError>)
    ensures
        r == swap_result(r_in as int, r_out as int, amount as int),
{
    let k: i128 = checked_mul(r_in, r_out)?;
    let new_in: i128 = checked_add(r_in, amount)?;
    let new_out: i128 = checked_div(k, new_in)?;
    let out: i128 = checked_sub(r_out, new_out)?;
    Ok(Swap { reserve_in: new_in, reserve_out: new_out, amount_out: out })
}

/// A buy of `amount` on the side whose reserve is `r_side`: the amount
/// joins that reserve and the shares issued leave the opposite one.
pub open spec fn buy_result(r_side: int, r_other: int, amount: int) -> Result<Swap, MarketError> {
    if amount <= 0 {
        Err(MarketError::InvalidAmount)
    } else {
        match swap_result(r_side, r_other, amount) {
            Err(e) => Err(e),
            Ok(s) => if s.reserve_out <= 0 {
                Err(MarketError::ReserveWouldBeZero)
            } else if s.amount_out <= 0 {
                Err(MarketError::ZeroSharesReceived)
            } else {
                Ok(s)
            },
        }
    }
}

/// A sale of `shares` on the side whose reserve is `r_side`: the shares
/// join the opposite reserve and the payout leaves the side's own.
pub open spec fn sell_result(r_side: int, r_other: int, shares: int) -> Result<Swap, MarketError> {
    if shares <= 0 {
        Err(MarketError::InvalidAmount)
    } else {
        match swap_result(r_other, r_side, shares) {
            Err(e) => Err(e),
            Ok(s) => if s.reserve_out <= 0 {
                Err(MarketError::ReserveWouldBeZero)
            } else if s.amount_out <= 0 {
                Err(MarketError::ZeroPayout)
            } else {
                Ok(s)
            },
        }
    }
}

/// Prices a buy and rejects one that would drain the opposite reserve or
/// issue no shares.
pub fn quote_buy(r_side: i128, r_other: i128, amount: i128) -> (r: Result<Swap, MarketError>)
    ensures
        r == buy_result(r_side as int, r_other as int, amount as int),
{
    if amount <= 0 {
        return Err(MarketError::InvalidAmount);
    }
    let s = swap(r_side, r_other, amount)?;
    if s.reserve_out <= 0 {
        return Err(MarketError::ReserveWouldBeZero);
    }
    if s.amount_out <= 0 {
        return Err(MarketError::ZeroSharesReceived);
    }
    Ok(s)
}

/// Prices a sale and rejects one that would drain the side's reserve or pay
/// nothing.
pub fn quote_sell(r_side: i128, r_other: i128, shares: i128) -> (r: Result<Swap, MarketError>)
    ensures
        r == sell_result(r_side as int, r_other as int, shares as int),
{
    if shares <= 0 {
        return Err(MarketError::InvalidAmount);
    }
    let s = swap(r_other, r_side, shares)?;
    if s.reserve_out <= 0 {
        return Err(MarketError::ReserveWouldBeZero);
    }
    if s.amount_out <= 0 {
        return Err(MarketError::ZeroPayout);
    }
    Ok(s)
}


/// On positive reserves a move along the curve that succeeds adds the
/// amount to one reserve, takes from the other without making it negative,
/// and never raises the product: the product falls by less than the reserve
/// that grew.
pub proof fn lemma_swap_product(r_in: int, r_out: int, amount: int)
    requires
        r_in > 0,
        r_out > 0,
        amount >= 0,
        swap_result(r_in, r_out, amount) is Ok,
    ensures
        ({
            let s = swap_result(r_in, r_out, amount)->Ok_0;
            &&& s.reserve_in == r_in + amount
            &&& s.reserve_out == (r_in * r_out) / (r_in + amount)
            &&& 0 <= s.reserve_out <= r_out
            &&& s.amount_out == r_out - s.reserve_out
            &&& s.reserve_in * s.reserve_out <= r_in * r_out
            &&& r_in * r_out - s.reserve_in * s.reserve_out < s.reserve_in
            &&& amount > 0 ==> s.amount_out > 0
        }),
{
    let k = r_in * r_out;
    let d = r_in + amount;
    assert(k > 0) by (nonlinear_arith)
        requires
            k == r_in * r_out,
            r_in > 0,
            r_out > 0,
    ;
    crate::fixed_point::lemma_trunc_div_floor(k, d);
    let q = k / d;
    assert(q <= r_out) by (nonlinear_arith)
        requires
            d * q <= k,
            k == r_in * r_out,
            d >= r_in,
            r_in > 0,
            r_out > 0,
            q >= 0,
    ;
    if amount > 0 {
        assert(q < r_out) by (nonlinear_arith)
            requires
                d * q <= k,
                k == r_in * r_out,
                d > r_in,
                r_in > 0,
                r_out > 0,
                q >= 0,
        ;
    }
}

/// No buy that is accepted on positive reserves issues nothing or drains
/// the opposite reserve.
pub proof fn lemma_buy_positive(r_side: int, r_other: int, amount: int)
    requires
        r_side > 0,
        r_other > 0,
        buy_result(r_side, r_other, amount) is Ok,
    ensures
        ({
            let s = buy_result(r_side, r_other, amount)->Ok_0;
            &&& s.amount_out > 0
            &&& s.reserve_out > 0
            &&& s.reserve_in == r_side + amount
            &&& s.reserve_in > 0
            &&& s.reserve_out < r_other
            &&& s.reserve_in * s.reserve_out <= r_side * r_other
            &&& r_side * r_other - s.reserve_in * s.reserve_out < s.reserve_in
        }),
{
    lemma_swap_product(r_side, r_other, amount);
}

/// No sale that is accepted on positive reserves pays nothing or drains the
/// side's own reserve.
pub proof fn lemma_sell_positive(r_side: int, r_other: int, shares: int)
    requires
        r_side > 0,
        r_other > 0,
        sell_result(r_side, r_other, shares) is Ok,
    ensures
        ({
            let s = sell_result(r_side, r_other, shares)->Ok_0;
            &&& s.amount_out > 0
            &&& s.reserve_out > 0
            &&& s.reserve_in == r_other + shares
            &&& s.reserve_in > 0
            &&& s.reserve_out < r_side
            &&& s.reserve_in * s.reserve_out <= r_side * r_other
            &&& r_side * r_other - s.reserve_in * s.reserve_out < s.reserve_in
        }),
{
    lemma_swap_product(r_other, r_side, shares);
    assert(r_other * r_side == r_side * r_other) by (nonlinear_arith);
}


/// The probabilities of the two outcomes that reserves `rt` and `rf` imply,
/// each scaled by `SCALE` and rounded toward zero; even odds while both
/// reserves are empty.
pub open spec fn probabilities_result(rt: int, rf: int) -> Result<(i128, i128), MarketError> {
    if !fits(rt + rf) {
        Err(MarketError::ArithmeticOverflow)
    } else if rt + rf == 0 {
        Ok((500_000i128, 500_000i128))
    } else {
        match mul_div_result(SCALE as int, rt, rt + rf) {
            Err(e) => Err(e),
            Ok(p) => match mul_div_result(SCALE as int, rf, rt + rf) {
                Err(e) => Err(e),
                Ok(q) => Ok((p, q)),
            },
        }
    }
}

/// Computes the probabilities of the true and the false outcome.
pub fn probabilities(rt: i128, rf: i128) -> (r: Result<(i128, i128), MarketError>)
    ensures
        r == probabilities_result(rt as int, rf as int),
{
    let total: i128 = checked_add(rt, rf)?;
    if total == 0 {
        return Ok((SCALE / 2, SCALE / 2));
    }
    let p: i128 = mul_div(SCALE, rt, total)?;
    let q: i128 = mul_div(SCALE, rf, total)?;
    Ok((p, q))
}

/// The two probabilities of reserves that are not negative lie between
/// zero and `SCALE`, and add up to `SCALE` or to one less.
pub proof fn lemma_probabilities_sum(rt: int, rf: int)
    requires
        rt >= 0,
        rf >= 0,
        probabilities_result(rt, rf) is Ok,
    ensures
        ({
            let (p, q) = probabilities_result(rt, rf)->Ok_0;
            &&& 0 <= p <= SCALE
            &&& 0 <= q <= SCALE
            &&& SCALE - 1 <= p + q <= SCALE
        }),
{
    let total = rt + rf;
    if total != 0 {
        let a = SCALE * rt;
        let b = SCALE * rf;
        assert(a >= 0 && b >= 0 && a + b == SCALE * total) by (nonlinear_arith)
            requires
                a == SCALE * rt,
                b == SCALE * rf,
                total == rt + rf,
                rt >= 0,
                rf >= 0,
        ;
        crate::fixed_point::lemma_trunc_div_floor(a, total);
        crate::fixed_point::lemma_trunc_div_floor(b, total);
        let p = a / total;
        let q = b / total;
        assert(p + q <= SCALE && p + q >= SCALE - 1) by (nonlinear_arith)
            requires
                total * p <= a < total * p + total,
                total * q <= b < total * q + total,
                a + b == SCALE * total,
                total > 0,
        ;
    }
}

/// A request to trade against the curve.
#[derive(Clone, Copy, Debug, PartialEq, Eq, Structural)]
pub struct Trade {
    /// A buy if set, a sale otherwise.
    pub is_buy: bool,
    /// The side traded: the true outcome if set.
    pub side: bool,
    /// The amount paid in, or the shares sold.
    pub amount: i128,
}

/// The reserves `(true, false)` after one trade; a trade that is rejected
/// leaves them as they were.
pub open spec fn after_trade(rt: int, rf: int, t: Trade) -> (int, int) {
    let (r_side, r_other) = if t.side {
        (rt, rf)
    } else {
        (rf, rt)
    };
    let priced = if t.is_buy {
        buy_result(r_side, r_other, t.amount as int)
    } else {
        sell_result(r_side, r_other, t.amount as int)
    };
    match priced {
        Err(_) => (rt, rf),
        Ok(s) => {
            let (new_side, new_other) = if t.is_buy {
                (s.reserve_in as int, s.reserve_out as int)
            } else {
                (s.reserve_out as int, s.reserve_in as int)
            };
            if t.side {
                (new_side, new_other)
            } else {
                (new_other, new_side)
            }
        },
    }
}

/// The reserves after a sequence of trades, applied in order.
pub open spec fn after_trades(rt: int, rf: int, ts: Seq<Trade>) -> (int, int)
    decreases ts.len(),
{
    if ts.len() == 0 {
        (rt, rf)
    } else {
        let (a, b) = after_trades(rt, rf, ts.drop_last());
        after_trade(a, b, ts.last())
    }
}

/// One trade on positive reserves leaves both positive and does not raise
/// their product.
pub proof fn lemma_trade_product(rt: int, rf: int, t: Trade)
    requires
        rt > 0,
        rf > 0,
    ensures
        ({
            let (a, b) = after_trade(rt, rf, t);
            a > 0 && b > 0 && a * b <= rt * rf
        }),
{
    let (r_side, r_other) = if t.side {
        (rt, rf)
    } else {
        (rf, rt)
    };
    assert(rt * rf == rf * rt) by (nonlinear_arith);
    if t.is_buy {
        if buy_result(r_side, r_other, t.amount as int) is Ok {
            lemma_buy_positive(r_side, r_other, t.amount as int);
            let s = buy_result(r_side, r_other, t.amount as int)->Ok_0;
            assert(s.reserve_in * s.reserve_out == s.reserve_out * s.reserve_in)
                by (nonlinear_arith);
        }
    } else {
        if sell_result(r_side, r_other, t.amount as int) is Ok {
            lemma_sell_positive(r_side, r_other, t.amount as int);
            let s = sell_result(r_side, r_other, t.amount as int)->Ok_0;
            assert(s.reserve_in * s.reserve_out == s.reserve_out * s.reserve_in)
                by (nonlinear_arith);
        }
    }
}

/// However many buys and sales are made, the product of the reserves stays
/// positive and never exceeds the product they started with, so it never
/// drifts from it by as much as that product itself.
pub proof fn lemma_product_bounded(rt: int, rf: int, ts: Seq<Trade>)
    requires
        rt > 0,
        rf > 0,
    ensures
        ({
            let (a, b) = after_trades(rt, rf, ts);
            &&& a > 0
            &&& b > 0
            &&& 0 < a * b <= rt * rf
            &&& 0 <= rt * rf - a * b < rt * rf
        }),
    decreases ts.len(),
{
    if ts.len() == 0 {
        assert(rt * rf > 0) by (nonlinear_arith)
            requires
                rt > 0,
                rf > 0,
        ;
    } else {
        lemma_product_bounded(rt, rf, ts.drop_last());
        let (a, b) = after_trades(rt, rf, ts.drop_last());
        lemma_trade_product(a, b, ts.last());
        let (c, d) = after_trade(a, b, ts.last());
        assert(c * d > 0) by (nonlinear_arith)
            requires
                c > 0,
                d > 0,
        ;
    }
}

} // verus!
