//! Overflow-checked fixed-point arithmetic on signed 128-bit integers.

use vstd::prelude::*;

verus! {

/// The fixed-point unit: one whole unit of price, or a probability of 100%.
pub const SCALE: i128 = 1_000_000;

/// Every way an operation of the engine can fail.
#[derive(Clone, Copy, Debug, PartialEq, Eq, Structural)]
pub enum MarketError {
    /// A result left the 128-bit signed range.
    ArithmeticOverflow,
    /// A divisor was zero.
    DivisionByZero,
    /// A trade would drain the opposite reserve.
    ReserveWouldBeZero,
    /// A buy would issue no shares.
    ZeroSharesReceived,
    /// A sell would pay nothing.
    ZeroPayout,
    /// The seller's position is smaller than the shares sold.
    NotEnoughShares,
    /// A debit exceeds the recorded balance.
    InsufficientShares,
    /// A withdrawal or stake exceeds the account's balance.
    InsufficientBalance,
    /// The pool cannot cover a payout or withdrawal.
    InsufficientLiquidity,
    /// The caller is not the registered authority.
    Unauthorized,
    /// The market has already been resolved.
    AlreadySettled,
    /// The account has already claimed.
    AlreadyClaimed,
    /// Setup was already performed.
    AlreadySetup,
    /// Trading on a market that is not open.
    MarketNotLive,
    /// An amount that must be positive is zero or negative.
    InvalidAmount,
    /// An outcome index outside the market's outcomes.
    InvalidOutcome,
    /// A price is below the minimum price.
    OddsBelowMinimum,
    /// The three prices do not add up to the required total.
    OddsSumMismatch,
    /// No market has the given identifier.
    MarketNotFound,
    /// No stake has the given identifier.
    StakeNotFound,
    /// The market already holds the maximum number of stakes.
    StakerCapReached,
}

/// Whether a mathematical integer is representable as `i128`.
pub open spec fn fits(v: int) -> bool {
    i128::MIN <= v <= i128::MAX
}

/// Integer division rounding toward zero.
pub open spec fn trunc_div(x: int, d: int) -> int
    recommends
        d != 0,
{
    if x >= 0 && d > 0 {
        x / d
    } else if x < 0 && d < 0 {
        (-x) / (-d)
    } else if x < 0 {
        -((-x) / d)
    } else {
        -(x / (-d))
    }
}

/// Addition that reports overflow instead of wrapping.
pub fn checked_add(a: i128, b: i128) -> (r: Result<i128, MarketError>)
    ensures
        fits(a + b) ==> r == Ok::<i128, MarketError>((a + b) as i128),
        !fits(a + b) ==> r == Err::<i128, MarketError>(MarketError::ArithmeticOverflow),
{
    match a.checked_add(b) {
        Some(v) => Ok(v),
        None => Err(MarketError::ArithmeticOverflow),
    }
}

/// Subtraction that reports overflow instead of wrapping.
pub fn checked_sub(a: i128, b: i128) -> (r: Result<i128, MarketError>)
    ensures
        fits(a - b) ==> r == Ok::<i128, MarketError>((a - b) as i128),
        !fits(a - b) ==> r == Err::<i128, MarketError>(MarketError::ArithmeticOverflow),
{
    match a.checked_sub(b) {
        Some(v) => Ok(v),
        None => Err(MarketError::ArithmeticOverflow),
    }
}

/// Multiplication that reports overflow instead of wrapping.
pub fn checked_mul(a: i128, b: i128) -> (r: Result<i128, MarketError>)
    ensures
        fits(a * b) ==> r == Ok::<i128, MarketError>((a * b) as i128),
        !fits(a * b) ==> r == Err::<i128, MarketError>(MarketError::ArithmeticOverflow),
{
    match a.checked_mul(b) {
        Some(v) => Ok(v),
        None => Err(MarketError::ArithmeticOverflow),
    }
}

/// What [`checked_div`] returns: the quotient rounded toward zero, or the
/// reason there is none.
pub open spec fn div_result(a: int, b: int) -> Result<i128, MarketError> {
    if b == 0 {
        Err(MarketError::DivisionByZero)
    } else if !fits(trunc_div(a, b)) {
        Err(MarketError::ArithmeticOverflow)
    } else {
        Ok(trunc_div(a, b) as i128)
    }
}

/// Division rounding toward zero that reports a zero divisor and overflow.
pub fn checked_div(a: i128, b: i128) -> (r: Result<i128, MarketError>)
    ensures
        r == div_result(a as int, b as int),
{
    if b == 0 {
        return Err(MarketError::DivisionByZero);
    }
    match a.checked_div(b) {
        Some(v) => Ok(v),
        None => Err(MarketError::ArithmeticOverflow),
    }
}

/// What [`mul_div`] returns: `a * b / c` with the product checked first.
pub open spec fn mul_div_result(a: int, b: int, c: int) -> Result<i128, MarketError> {
    if !fits(a * b) {
        Err(MarketError::ArithmeticOverflow)
    } else {
        div_result(a * b, c)
    }
}

/// `a * b / c`, rounding toward zero, failing if the product overflows or
/// the divisor is zero.
pub fn mul_div(a: i128, b: i128, c: i128) -> (r: Result<i128, MarketError>)
    ensures
        r == mul_div_result(a as int, b as int, c as int),
{
    let p: i128 = checked_mul(a, b)?;
    checked_div(p, c)
}


/// For a dividend that is not negative and a positive divisor, rounding
/// toward zero is rounding down: the quotient `q` is the one number with
/// `d * q <= x < d * q + d`.
pub proof fn lemma_trunc_div_floor(x: int, d: int)
    requires
        x >= 0,
        d > 0,
    ensures
        trunc_div(x, d) == x / d,
        0 <= x / d <= x,
        d * (x / d) <= x < d * (x / d) + d,
{
    vstd::arithmetic::div_mod::lemma_fundamental_div_mod(x, d);
    vstd::arithmetic::div_mod::lemma_mod_pos_bound(x, d);
    let q = x / d;
    let m = x % d;
    assert(x == d * q + m);
    assert(q >= 0) by (nonlinear_arith)
        requires
            x == d * q + m,
            0 <= m < d,
            x >= 0,
            d > 0,
    ;
    assert(q <= x) by (nonlinear_arith)
        requires
            x == d * q + m,
            0 <= m,
            q >= 0,
            d > 0,
    ;
}

/// The quotient rounded down is the only `q` with `d * q <= x < d * q + d`.
pub proof fn lemma_floor_unique(x: int, d: int, q: int)
    requires
        d > 0,
        d * q <= x < d * q + d,
    ensures
        x / d == q,
{
    let r = x - d * q;
    assert(x == q * d + r) by (nonlinear_arith)
        requires
            r == x - d * q,
    ;
    vstd::arithmetic::div_mod::lemma_fundamental_div_mod_converse(x, d, q, r);
}

} // verus!
