//! A binary market priced by a constant-product curve: setup, trading,
//! resolution by the market's oracle, and one claim per account.

use vstd::prelude::*;
use crate::fixed_point::MarketError;
use crate::fixed_point::SCALE;
use crate::fixed_point::fits;
use crate::lsmr::LsmrPool;
use crate::fixed_point::checked_add;
use crate::fixed_point::checked_mul;
use crate::ledger::Position;
use crate::ledger::PositionLedger;
use crate::ledger::records_wf;
use crate::ledger::position_of;
use crate::ledger::side_shares;
use crate::ledger::total_shares;
use crate::ledger::with_position;
use crate::ledger::with_side;
use crate::ledger::claimed_position;
use crate::ledger::credit_result;
use crate::ledger::debit_result;

verus! {

/// The lifecycle of a binary market: open, or resolved one way for good.
#[derive(Clone, Copy, Debug, PartialEq, Eq, Structural)]
pub enum Outcome {
    /// Not resolved yet: trading is open.
    Undecided,
    /// Resolved: the event happened.
    TrueOutcome,
    /// Resolved: the event did not happen.
    FalseOutcome,
}

/// The state of a binary market as contracts see it.
pub struct MarketView {
    /// Whether setup has been performed.
    pub configured: bool,
    /// The account that may resolve the market.
    pub oracle: u64,
    /// The asset in which the market is paid.
    pub token: u64,
    /// What the market is about.
    pub description: Seq<char>,
    /// Open or resolved.
    pub state: Outcome,
    /// The curve's reserve on the true side.
    pub true_reserve: i128,
    /// The curve's reserve on the false side.
    pub false_reserve: i128,
    /// Value deposited on the true side.
    pub true_deposits: i128,
    /// Value deposited on the false side.
    pub false_deposits: i128,
    /// Gross value moved by trades.
    pub total_volume: i128,
    /// One record per account that has traded or claimed.
    pub positions: Seq<Position>,
    /// All shares of the winning side, counted at resolution.
    pub winning_total: i128,
    /// What claims have paid so far.
    pub paid_out: i128,
    /// How the market is priced: along the constant-product curve if
    /// `None`, by liquidity-weighted probability with this parameter
    /// otherwise. The reserves then count the shares outstanding.
    pub liquidity: Option<i128>,
}

impl MarketView {
    /// The reserve of a side.
    pub open spec fn reserve(self, side: bool) -> i128 {
        if side {
            self.true_reserve
        } else {
            self.false_reserve
        }
    }

    /// The deposits of a side.
    pub open spec fn deposits(self, side: bool) -> i128 {
        if side {
            self.true_deposits
        } else {
            self.false_deposits
        }
    }

    /// The value to be distributed: the deposits of both sides.
    pub open spec fn pool(self) -> int {
        self.true_deposits + self.false_deposits
    }

    /// The product of the two reserves.
    pub open spec fn product(self) -> int {
        self.true_reserve * self.false_reserve
    }

    /// The side that won; meaningful once the market is resolved.
    pub open spec fn winner(self) -> bool {
        self.state == Outcome::TrueOutcome
    }

    /// Whether trading is open.
    pub open spec fn live(self) -> bool {
        self.configured && self.state == Outcome::Undecided
    }

    /// The winning shares that have not been claimed yet.
    pub open spec fn unclaimed(self) -> int {
        total_shares(self.positions, self.winner())
    }

    /// The market's invariant. Positions are well formed; reserves,
    /// deposits and volume are not negative. A market that is set up has
    /// positive reserves if it is priced along the curve; if it is priced
    /// by weighted probability, its parameter lies between zero and
    /// `SCALE`. Once resolved, the pool fits in 128 bits, the unclaimed
    /// winning shares are part of the total counted at resolution, and what
    /// has been paid is no more than the claimed shares' part of the pool.
    pub open spec fn wf(self) -> bool {
        &&& records_wf(self.positions)
        &&& self.true_reserve >= 0
        &&& self.false_reserve >= 0
        &&& self.true_deposits >= 0
        &&& self.false_deposits >= 0
        &&& self.total_volume >= 0
        &&& self.paid_out >= 0
        &&& self.winning_total >= 0
        &&& self.configured && self.liquidity is None ==> self.true_reserve > 0
            && self.false_reserve > 0
        &&& self.liquidity is Some ==> 0 <= self.liquidity->Some_0 <= SCALE
        &&& !self.configured ==> self.state == Outcome::Undecided && self.positions.len() == 0
            && self.liquidity is None
        &&& self.state == Outcome::Undecided ==> self.paid_out == 0 && self.winning_total == 0
        &&& self.state != Outcome::Undecided ==> {
            &&& fits(self.pool())
            &&& 0 <= self.unclaimed() <= self.winning_total
            &&& self.paid_out * self.winning_total <= self.pool() * (self.winning_total
                - self.unclaimed())
            &&& self.winning_total == 0 ==> self.paid_out == 0
        }
    }

    /// The market before setup.
    pub open spec fn blank() -> MarketView {
        MarketView {
            configured: false,
            oracle: 0,
            token: 0,
            description: Seq::empty(),
            state: Outcome::Undecided,
            true_reserve: 0,
            false_reserve: 0,
            true_deposits: 0,
            false_deposits: 0,
            total_volume: 0,
            positions: Seq::empty(),
            winning_total: 0,
            paid_out: 0,
            liquidity: None,
        }
    }

    /// Setup of a market priced along the constant-product curve: allowed
    /// once, with a positive reserve that seeds both sides. Gives the
    /// market that results and the liquidity the deployer owes, twice the
    /// reserve.
    pub open spec fn setup(
        self,
        oracle: u64,
        token: u64,
        description: Seq<char>,
        initial_reserve: i128,
    ) -> Result<(MarketView, i128), MarketError> {
        if self.configured {
            Err(MarketError::AlreadySetup)
        } else if initial_reserve <= 0 {
            Err(MarketError::InvalidAmount)
        } else if !fits(initial_reserve * 2) {
            Err(MarketError::ArithmeticOverflow)
        } else {
            Ok(
                (
                    MarketView {
                        configured: true,
                        oracle,
                        token,
                        description,
                        state: Outcome::Undecided,
                        true_reserve: initial_reserve,
                        false_reserve: initial_reserve,
                        true_deposits: initial_reserve,
                        false_deposits: initial_reserve,
                        total_volume: 0,
                        liquidity: None,
                        ..self
                    },
                    (initial_reserve * 2) as i128,
                ),
            )
        }
    }

    /// Setup of a market priced by liquidity-weighted probability: allowed
    /// once, with a parameter between zero and `SCALE`. The market starts
    /// empty.
    pub open spec fn setup_weighted(
        self,
        oracle: u64,
        token: u64,
        description: Seq<char>,
        liquidity_parameter: i128,
    ) -> Result<MarketView, MarketError> {
        if self.configured {
            Err(MarketError::AlreadySetup)
        } else if liquidity_parameter < 0 || liquidity_parameter > SCALE {
            Err(MarketError::InvalidAmount)
        } else {
            Ok(
                MarketView {
                    configured: true,
                    oracle,
                    token,
                    description,
                    state: Outcome::Undecided,
                    true_reserve: 0,
                    false_reserve: 0,
                    true_deposits: 0,
                    false_deposits: 0,
                    total_volume: 0,
                    liquidity: Some(liquidity_parameter),
                    ..self
                },
            )
        }
    }

    /// The shares that `amount` would buy on `side`.
    pub open spec fn buy_quote(self, amount: i128, side: bool) -> Result<i128, MarketError> {
        match self.liquidity {
            Some(l) => self.weighted_pool(l).quote_buy_result(amount, side),
            None => match crate::cpmm::swap_result(
                self.reserve(side) as int,
                self.reserve(!side) as int,
                amount as int,
            ) {
                Ok(s) => Ok(s.amount_out),
                Err(e) => Err(e),
            },
        }
    }

    /// The payout that `shares` of `side` would fetch.
    pub open spec fn sell_quote(self, shares: i128, side: bool) -> Result<i128, MarketError> {
        match self.liquidity {
            Some(l) => self.weighted_pool(l).quote_sell_result(shares, side),
            None => match crate::cpmm::swap_result(
                self.reserve(!side) as int,
                self.reserve(side) as int,
                shares as int,
            ) {
                Ok(s) => Ok(s.amount_out),
                Err(e) => Err(e),
            },
        }
    }

    /// The shares and the value of both sides as a pool priced with the
    /// parameter `l`.
    pub open spec fn weighted_pool(self, l: i128) -> LsmrPool {
        LsmrPool {
            shares_true: self.true_reserve,
            shares_false: self.false_reserve,
            pool_true: self.true_deposits,
            pool_false: self.false_deposits,
            liquidity_parameter: l,
        }
    }

    /// The market with the shares and the value of a pool, and new
    /// positions and volume.
    pub open spec fn with_pool(self, pool: LsmrPool, positions: Seq<Position>, total_volume: i128)
        -> MarketView {
        MarketView {
            true_reserve: pool.shares_true,
            false_reserve: pool.shares_false,
            true_deposits: pool.pool_true,
            false_deposits: pool.pool_false,
            positions,
            total_volume,
            ..self
        }
    }
}

impl MarketView {
    /// The market after a trade on `side`: new reserves for the side and
    /// its opposite, new deposits for the side, new volume and positions.
    pub open spec fn traded(
        self,
        side: bool,
        side_reserve: i128,
        other_reserve: i128,
        side_deposits: i128,
        total_volume: i128,
        positions: Seq<Position>,
    ) -> MarketView {
        if side {
            MarketView {
                true_reserve: side_reserve,
                false_reserve: other_reserve,
                true_deposits: side_deposits,
                total_volume,
                positions,
                ..self
            }
        } else {
            MarketView {
                true_reserve: other_reserve,
                false_reserve: side_reserve,
                false_deposits: side_deposits,
                total_volume,
                positions,
                ..self
            }
        }
    }

    /// A buy of `amount` on `side` by `account`. Gives the market that
    /// results and the shares issued.
    pub open spec fn buy(self, account: u64, amount: i128, side: bool) -> Result<
        (MarketView, i128),
        MarketError,
    > {
        match self.liquidity {
            None => self.buy_curve(account, amount, side),
            Some(l) => self.buy_weighted(l, account, amount, side),
        }
    }

    /// A sale on `side` by `account`. Along the curve `shares` is the
    /// number of shares sold; under weighted pricing it is the payout
    /// asked for. Gives the market that results and the payout.
    pub open spec fn sell(self, account: u64, shares: i128, side: bool) -> Result<
        (MarketView, i128),
        MarketError,
    > {
        match self.liquidity {
            None => self.sell_curve(account, shares, side),
            Some(l) => self.sell_weighted(l, account, shares, side),
        }
    }

    /// A buy under weighted pricing. The amount joins the side's deposits
    /// and the volume; the shares issued, as many as the amount buys at the
    /// side's price, join the shares outstanding and the account's
    /// position.
    pub open spec fn buy_weighted(self, l: i128, account: u64, amount: i128, side: bool) -> Result<
        (MarketView, i128),
        MarketError,
    > {
        if !self.live() {
            Err(MarketError::MarketNotLive)
        } else if amount <= 0 {
            Err(MarketError::InvalidAmount)
        } else if !fits(self.total_volume + amount) {
            Err(MarketError::ArithmeticOverflow)
        } else {
            match self.weighted_pool(l).buy_result(self.positions, account, amount, side) {
                Err(e) => Err(e),
                Ok((pool, positions, issued)) => Ok(
                    (self.with_pool(pool, positions, (self.total_volume + amount) as i128), issued),
                ),
            }
        }
    }

    /// A sale under weighted pricing for a payout of `payout`. The payout
    /// leaves the side's deposits and joins the volume; the shares
    /// retired, as many as the payout would buy at the side's price, leave
    /// the shares outstanding and the account's position.
    pub open spec fn sell_weighted(self, l: i128, account: u64, payout: i128, side: bool)
        -> Result<(MarketView, i128), MarketError> {
        if !self.live() {
            Err(MarketError::MarketNotLive)
        } else if payout <= 0 {
            Err(MarketError::InvalidAmount)
        } else if !fits(self.total_volume + payout) {
            Err(MarketError::ArithmeticOverflow)
        } else {
            match self.weighted_pool(l).sell_result(self.positions, account, payout, side) {
                Err(e) => Err(e),
                Ok((pool, positions, _)) => Ok(
                    (self.with_pool(pool, positions, (self.total_volume + payout) as i128), payout),
                ),
            }
        }
    }

    /// A buy along the curve. The amount joins the side's reserve,
    /// deposits and the volume; the shares issued leave the opposite
    /// reserve and are credited to the account.
    pub open spec fn buy_curve(self, account: u64, amount: i128, side: bool) -> Result<
        (MarketView, i128),
        MarketError,
    > {
        if !self.live() {
            Err(MarketError::MarketNotLive)
        } else {
            match crate::cpmm::buy_result(
                self.reserve(side) as int,
                self.reserve(!side) as int,
                amount as int,
            ) {
                Err(e) => Err(e),
                Ok(s) => if !fits(self.deposits(side) + amount) || !fits(
                    self.total_volume + amount,
                ) {
                    Err(MarketError::ArithmeticOverflow)
                } else {
                    match credit_result(self.positions, account, side, s.amount_out as int) {
                        Err(e) => Err(e),
                        Ok(positions) => Ok(
                            (
                                self.traded(
                                    side,
                                    s.reserve_in,
                                    s.reserve_out,
                                    (self.deposits(side) + amount) as i128,
                                    (self.total_volume + amount) as i128,
                                    positions,
                                ),
                                s.amount_out,
                            ),
                        ),
                    }
                },
            }
        }
    }

    /// A sale of `shares` along the curve. The shares join the opposite
    /// reserve and leave the account; the payout leaves the side's reserve
    /// and deposits and joins the volume.
    pub open spec fn sell_curve(self, account: u64, shares: i128, side: bool) -> Result<
        (MarketView, i128),
        MarketError,
    > {
        if !self.live() {
            Err(MarketError::MarketNotLive)
        } else if shares <= 0 {
            Err(MarketError::InvalidAmount)
        } else if side_shares(position_of(self.positions, account), side) < shares {
            Err(MarketError::NotEnoughShares)
        } else {
            match crate::cpmm::sell_result(
                self.reserve(side) as int,
                self.reserve(!side) as int,
                shares as int,
            ) {
                Err(e) => Err(e),
                Ok(s) => if s.amount_out > self.deposits(side) {
                    Err(MarketError::InsufficientLiquidity)
                } else if !fits(self.total_volume + s.amount_out) {
                    Err(MarketError::ArithmeticOverflow)
                } else {
                    match debit_result(self.positions, account, side, shares as int) {
                        Err(e) => Err(e),
                        Ok(positions) => Ok(
                            (
                                self.traded(
                                    side,
                                    s.reserve_out,
                                    s.reserve_in,
                                    (self.deposits(side) - s.amount_out) as i128,
                                    (self.total_volume + s.amount_out) as i128,
                                    positions,
                                ),
                                s.amount_out,
                            ),
                        ),
                    }
                },
            }
        }
    }
}

impl MarketView {
    /// The state a market takes when it resolves to `outcome`.
    pub open spec fn resolved(outcome: bool) -> Outcome {
        if outcome {
            Outcome::TrueOutcome
        } else {
            Outcome::FalseOutcome
        }
    }

    /// Resolution by `caller` to `outcome`. Only the oracle may resolve,
    /// and only once. The winning shares are counted as the market
    /// resolves.
    pub open spec fn settle(self, caller: u64, outcome: bool) -> Result<MarketView, MarketError> {
        if !self.configured || caller != self.oracle {
            Err(MarketError::Unauthorized)
        } else if self.state != Outcome::Undecided {
            Err(MarketError::AlreadySettled)
        } else if !fits(self.pool()) || !fits(total_shares(self.positions, outcome)) {
            Err(MarketError::ArithmeticOverflow)
        } else {
            Ok(
                MarketView {
                    state: Self::resolved(outcome),
                    winning_total: total_shares(self.positions, outcome) as i128,
                    paid_out: 0,
                    ..self
                },
            )
        }
    }

    /// A claim by `account`. Gives the market that results and the
    /// winnings. Before resolution nothing happens. After it, an account
    /// claims once: it is paid the part of the pool that its winning shares
    /// are of all winning shares, and its balances are emptied.
    pub open spec fn claim(self, account: u64) -> Result<(MarketView, i128), MarketError> {
        let p = position_of(self.positions, account);
        if self.state == Outcome::Undecided {
            Ok((self, 0i128))
        } else if p.claimed {
            Err(MarketError::AlreadyClaimed)
        } else {
            match crate::settlement::share_winnings_result(
                self.pool(),
                side_shares(p, self.winner()),
                self.winning_total as int,
            ) {
                Err(e) => Err(e),
                Ok(w) => Ok(
                    (
                        MarketView {
                            positions: with_position(
                                self.positions,
                                account,
                                claimed_position(account),
                            ),
                            paid_out: (self.paid_out + w) as i128,
                            ..self
                        },
                        w,
                    ),
                ),
            }
        }
    }
}

/// A claim that succeeds on a resolved market keeps the market's
/// invariant, and what it pays keeps the total paid within the pool.
pub proof fn lemma_claim_wf(v: MarketView, account: u64)
    requires
        v.wf(),
        v.state != Outcome::Undecided,
        v.claim(account) is Ok,
    ensures
        v.claim(account)->Ok_0.0.wf(),
        v.claim(account)->Ok_0.1 >= 0,
        fits(v.paid_out + v.claim(account)->Ok_0.1),
        v.paid_out + v.claim(account)->Ok_0.1 <= v.pool(),
{
    let p = position_of(v.positions, account);
    let side = v.winner();
    let h = side_shares(p, side);
    let w = v.claim(account)->Ok_0.1 as int;
    let total = v.winning_total as int;
    let pool = v.pool();
    let rest = v.unclaimed();
    let q = claimed_position(account);
    let after = with_position(v.positions, account, q);
    crate::ledger::lemma_with_position(v.positions, account, q);
    crate::ledger::lemma_total_with_position(v.positions, account, q, side);
    crate::ledger::lemma_total_bounds(v.positions, side);
    crate::ledger::lemma_total_bounds(after, side);
    assert(h >= 0 && h <= rest) by {
        if crate::ledger::has_account(v.positions, account) {
            let i = crate::ledger::index_of(v.positions, account);
            assert(0 <= i < v.positions.len() && v.positions[i].account == account);
        }
    }
    let rest2 = total_shares(after, side);
    assert(rest2 == rest - h);
    let paid = v.paid_out as int;
    if h == 0 {
        assert(w == 0);
    } else {
        assert(total > 0);
        crate::settlement::lemma_payout_share(pool, h, total);
        assert(w * total <= pool * h);
    }
    assert((paid + w) * total <= pool * (total - rest2)) by (nonlinear_arith)
        requires
            paid * total <= pool * (total - rest),
            w * total <= pool * h,
            rest2 == rest - h,
    ;
    if total == 0 {
        assert(h == 0);
    } else {
        assert(paid + w <= pool) by (nonlinear_arith)
            requires
                (paid + w) * total <= pool * (total - rest2),
                rest2 >= 0,
                total > 0,
                pool >= 0,
                paid + w >= 0,
        ;
    }
}

impl MarketView {
    /// A trade of a signed amount: a buy of the amount if it is positive,
    /// a sale of as many shares as it is below zero if it is negative.
    pub open spec fn trade(self, account: u64, signed_amount: i128, side: bool) -> Result<
        (MarketView, i128),
        MarketError,
    > {
        if !self.live() {
            Err(MarketError::MarketNotLive)
        } else if signed_amount == 0 {
            Err(MarketError::InvalidAmount)
        } else if signed_amount > 0 {
            self.buy(account, signed_amount, side)
        } else if signed_amount == i128::MIN {
            Err(MarketError::ArithmeticOverflow)
        } else {
            self.sell(account, (-signed_amount) as i128, side)
        }
    }
}

/// A binary market and all of its accounts.
pub struct SoroMarket {
    configured: bool,
    oracle: u64,
    token: u64,
    description: String,
    state: Outcome,
    true_reserve: i128,
    false_reserve: i128,
    true_deposits: i128,
    false_deposits: i128,
    total_volume: i128,
    ledger: PositionLedger,
    winning_total: i128,
    paid_out: i128,
    liquidity: Option<i128>,
}

impl View for SoroMarket {
    type V = MarketView;

    closed spec fn view(&self) -> MarketView {
        MarketView {
            configured: self.configured,
            oracle: self.oracle,
            token: self.token,
            description: self.description@,
            state: self.state,
            true_reserve: self.true_reserve,
            false_reserve: self.false_reserve,
            true_deposits: self.true_deposits,
            false_deposits: self.false_deposits,
            total_volume: self.total_volume,
            positions: self.ledger@,
            winning_total: self.winning_total,
            paid_out: self.paid_out,
            liquidity: self.liquidity,
        }
    }
}

impl SoroMarket {
    /// A market that awaits its setup.
    pub fn new() -> (m: Self)
        ensures
            m@ == MarketView::blank(),
            m@.wf(),
    {
        SoroMarket {
            configured: false,
            oracle: 0,
            token: 0,
            description: String::new(),
            state: Outcome::Undecided,
            true_reserve: 0,
            false_reserve: 0,
            true_deposits: 0,
            false_deposits: 0,
            total_volume: 0,
            ledger: PositionLedger::new(),
            winning_total: 0,
            paid_out: 0,
            liquidity: None,
        }
    }

    /// Sets up a market priced along the constant-product curve, with its
    /// oracle, its asset, its description and a reserve that seeds both
    /// sides. Returns the liquidity to collect from the deployer, twice the
    /// reserve.
    ///
    /// Fails with `AlreadySetup` on a second call, `InvalidAmount` unless
    /// the reserve is positive, and `ArithmeticOverflow` if twice the
    /// reserve leaves the 128-bit range. A failed call changes nothing.
    pub fn setup(
        &mut self,
        oracle: u64,
        token: u64,
        description: String,
        initial_reserve: i128,
    ) -> (r: Result<i128, MarketError>)
        requires
            old(self)@.wf(),
        ensures
            final(self)@.wf(),
            match old(self)@.setup(oracle, token, description@, initial_reserve) {
                Ok((v, owed)) => r == Ok::<i128, MarketError>(owed) && final(self)@ == v,
                Err(e) => r == Err::<i128, MarketError>(e) && final(self)@ == old(self)@,
            },
    {
        if self.configured {
            return Err(MarketError::AlreadySetup);
        }
        if initial_reserve <= 0 {
            return Err(MarketError::InvalidAmount);
        }
        let owed: i128 = checked_mul(initial_reserve, 2)?;
        self.configured = true;
        self.oracle = oracle;
        self.token = token;
        self.description = description;
        self.state = Outcome::Undecided;
        self.true_reserve = initial_reserve;
        self.false_reserve = initial_reserve;
        self.true_deposits = initial_reserve;
        self.false_deposits = initial_reserve;
        self.total_volume = 0;
        self.liquidity = None;
        Ok(owed)
    }

    /// Sets up a market priced by liquidity-weighted probability, with its
    /// oracle, its asset, its description and the liquidity parameter. The
    /// market starts empty.
    ///
    /// Fails with `AlreadySetup` on a market that is set up and with
    /// `InvalidAmount` unless the parameter lies between zero and `SCALE`.
    /// A failed call changes nothing.
    pub fn setup_weighted(
        &mut self,
        oracle: u64,
        token: u64,
        description: String,
        liquidity_parameter: i128,
    ) -> (r: Result<(), MarketError>)
        requires
            old(self)@.wf(),
        ensures
            final(self)@.wf(),
            match old(self)@.setup_weighted(oracle, token, description@, liquidity_parameter) {
                Ok(v) => r is Ok && final(self)@ == v,
                Err(e) => r == Err::<(), MarketError>(e) && final(self)@ == old(self)@,
            },
    {
        if self.configured {
            return Err(MarketError::AlreadySetup);
        }
        if liquidity_parameter < 0 || liquidity_parameter > SCALE {
            return Err(MarketError::InvalidAmount);
        }
        self.configured = true;
        self.oracle = oracle;
        self.token = token;
        self.description = description;
        self.state = Outcome::Undecided;
        self.true_reserve = 0;
        self.false_reserve = 0;
        self.true_deposits = 0;
        self.false_deposits = 0;
        self.total_volume = 0;
        self.liquidity = Some(liquidity_parameter);
        Ok(())
    }

    /// The liquidity parameter of a market priced by weighted probability;
    /// `None` for one priced along the curve.
    pub fn get_liquidity_parameter(&self) -> (r: Option<i128>)
        ensures
            r == self@.liquidity,
    {
        self.liquidity
    }

    fn pool(&self, l: i128) -> (r: LsmrPool)
        ensures
            r == self@.weighted_pool(l),
    {
        LsmrPool {
            shares_true: self.true_reserve,
            shares_false: self.false_reserve,
            pool_true: self.true_deposits,
            pool_false: self.false_deposits,
            liquidity_parameter: l,
        }
    }

    fn buy_weighted(&mut self, l: i128, account: u64, amount: i128, side: bool) -> (r: Result<
        i128,
        MarketError,
    >)
        requires
            old(self)@.wf(),
            old(self)@.liquidity == Some(l),
        ensures
            final(self)@.wf(),
            match old(self)@.buy_weighted(l, account, amount, side) {
                Ok((v, shares)) => r == Ok::<i128, MarketError>(shares) && final(self)@ == v,
                Err(e) => r == Err::<i128, MarketError>(e) && final(self)@ == old(self)@,
            },
    {
        if !self.configured || self.state != Outcome::Undecided {
            return Err(MarketError::MarketNotLive);
        }
        if amount <= 0 {
            return Err(MarketError::InvalidAmount);
        }
        let volume: i128 = checked_add(self.total_volume, amount)?;
        let mut pool = self.pool(l);
        let issued: i128 = pool.buy(&mut self.ledger, account, amount, side)?;
        self.true_reserve = pool.shares_true;
        self.false_reserve = pool.shares_false;
        self.true_deposits = pool.pool_true;
        self.false_deposits = pool.pool_false;
        self.total_volume = volume;
        Ok(issued)
    }

    fn sell_weighted(&mut self, l: i128, account: u64, payout: i128, side: bool) -> (r: Result<
        i128,
        MarketError,
    >)
        requires
            old(self)@.wf(),
            old(self)@.liquidity == Some(l),
        ensures
            final(self)@.wf(),
            match old(self)@.sell_weighted(l, account, payout, side) {
                Ok((v, paid)) => r == Ok::<i128, MarketError>(paid) && final(self)@ == v,
                Err(e) => r == Err::<i128, MarketError>(e) && final(self)@ == old(self)@,
            },
    {
        if !self.configured || self.state != Outcome::Undecided {
            return Err(MarketError::MarketNotLive);
        }
        if payout <= 0 {
            return Err(MarketError::InvalidAmount);
        }
        let volume: i128 = checked_add(self.total_volume, payout)?;
        let mut pool = self.pool(l);
        pool.sell(&mut self.ledger, account, payout, side)?;
        self.true_reserve = pool.shares_true;
        self.false_reserve = pool.shares_false;
        self.true_deposits = pool.pool_true;
        self.false_deposits = pool.pool_false;
        self.total_volume = volume;
        Ok(payout)
    }
    /// Buys shares of `side` for `amount` on behalf of `account`, and
    /// returns the shares issued.
    ///
    /// Fails with `MarketNotLive` unless the market is set up and
    /// undecided, `InvalidAmount` unless the amount is positive,
    /// `ReserveWouldBeZero` if the opposite reserve of the curve would be
    /// drained, `ZeroSharesReceived` if nothing would be issued, and
    /// `ArithmeticOverflow` if a quantity leaves the 128-bit range. A
    /// failed call changes nothing.
    pub fn buy(&mut self, account: u64, amount: i128, bet_on_true: bool) -> (r: Result<
        i128,
        MarketError,
    >)
        requires
            old(self)@.wf(),
        ensures
            final(self)@.wf(),
            match old(self)@.buy(account, amount, bet_on_true) {
                Ok((v, shares)) => r == Ok::<i128, MarketError>(shares) && final(self)@ == v,
                Err(e) => r == Err::<i128, MarketError>(e) && final(self)@ == old(self)@,
            },
            r is Ok ==> r->Ok_0 > 0,
            r is Ok && old(self)@.liquidity is None ==> final(self)@.reserve(!bet_on_true) > 0 && 0
                < final(self)@.product() <= old(self)@.product(),
    {
        proof {
            if old(self)@.buy(account, amount, bet_on_true) is Ok {
                if old(self)@.liquidity is None {
                    crate::theorems::lemma_buy_issues_shares(
                        old(self)@,
                        account,
                        amount,
                        bet_on_true,
                    );
                    crate::theorems::lemma_trade_product_drift(
                        old(self)@,
                        account,
                        amount,
                        bet_on_true,
                    );
                } else {
                    crate::theorems::lemma_weighted_buy(old(self)@, account, amount, bet_on_true);
                }
            }
        }
        match self.liquidity {
            Some(l) => {
                return self.buy_weighted(l, account, amount, bet_on_true);
            },
            None => {},
        }
        if !self.configured || self.state != Outcome::Undecided {
            return Err(MarketError::MarketNotLive);
        }
        let (r_side, r_other, d_side) = if bet_on_true {
            (self.true_reserve, self.false_reserve, self.true_deposits)
        } else {
            (self.false_reserve, self.true_reserve, self.false_deposits)
        };
        let s = crate::cpmm::quote_buy(r_side, r_other, amount)?;
        let deposits: i128 = checked_add(d_side, amount)?;
        let volume: i128 = checked_add(self.total_volume, amount)?;
        proof {
            crate::cpmm::lemma_buy_positive(r_side as int, r_other as int, amount as int);
        }
        self.ledger.credit(account, bet_on_true, s.amount_out)?;
        if bet_on_true {
            self.true_reserve = s.reserve_in;
            self.false_reserve = s.reserve_out;
            self.true_deposits = deposits;
        } else {
            self.false_reserve = s.reserve_in;
            self.true_reserve = s.reserve_out;
            self.false_deposits = deposits;
        }
        self.total_volume = volume;
        Ok(s.amount_out)
    }

    /// Sells on `side` on behalf of `account`, and returns the payout.
    /// Along the curve `shares` is the number of shares sold; under
    /// weighted pricing it is the payout asked for, and as many shares are
    /// retired as the payout would buy.
    ///
    /// Fails with `MarketNotLive` unless the market is set up and
    /// undecided, `InvalidAmount` unless `shares` is positive,
    /// `NotEnoughShares` (along the curve) or `InsufficientShares` (under
    /// weighted pricing) if the account holds fewer shares,
    /// `ReserveWouldBeZero` if the side's reserve of the curve would be
    /// drained, `ZeroPayout` if nothing would be paid,
    /// `ZeroSharesReceived` if no share would be retired,
    /// `InsufficientLiquidity` if the payout exceeds the side's deposits,
    /// and `ArithmeticOverflow` if a quantity leaves the 128-bit range. A
    /// failed call changes nothing.
    pub fn sell(&mut self, account: u64, shares: i128, bet_on_true: bool) -> (r: Result<
        i128,
        MarketError,
    >)
        requires
            old(self)@.wf(),
        ensures
            final(self)@.wf(),
            match old(self)@.sell(account, shares, bet_on_true) {
                Ok((v, payout)) => r == Ok::<i128, MarketError>(payout) && final(self)@ == v,
                Err(e) => r == Err::<i128, MarketError>(e) && final(self)@ == old(self)@,
            },
            r is Ok ==> r->Ok_0 > 0,
            r is Ok && old(self)@.liquidity is None ==> final(self)@.reserve(bet_on_true) > 0 && 0
                < final(self)@.product() <= old(self)@.product(),
    {
        proof {
            if old(self)@.sell(account, shares, bet_on_true) is Ok {
                if old(self)@.liquidity is None {
                    crate::theorems::lemma_sell_pays(old(self)@, account, shares, bet_on_true);
                    crate::theorems::lemma_trade_product_drift(
                        old(self)@,
                        account,
                        shares,
                        bet_on_true,
                    );
                } else {
                    crate::theorems::lemma_weighted_sell(old(self)@, account, shares, bet_on_true);
                }
            }
        }
        match self.liquidity {
            Some(l) => {
                return self.sell_weighted(l, account, shares, bet_on_true);
            },
            None => {},
        }
        if !self.configured || self.state != Outcome::Undecided {
            return Err(MarketError::MarketNotLive);
        }
        if shares <= 0 {
            return Err(MarketError::InvalidAmount);
        }
        if self.ledger.shares(account, bet_on_true) < shares {
            return Err(MarketError::NotEnoughShares);
        }
        let (r_side, r_other, d_side) = if bet_on_true {
            (self.true_reserve, self.false_reserve, self.true_deposits)
        } else {
            (self.false_reserve, self.true_reserve, self.false_deposits)
        };
        let s = crate::cpmm::quote_sell(r_side, r_other, shares)?;
        if s.amount_out > d_side {
            return Err(MarketError::InsufficientLiquidity);
        }
        let volume: i128 = checked_add(self.total_volume, s.amount_out)?;
        proof {
            crate::cpmm::lemma_sell_positive(r_side as int, r_other as int, shares as int);
        }
        self.ledger.debit(account, bet_on_true, shares)?;
        let deposits: i128 = d_side - s.amount_out;
        if bet_on_true {
            self.true_reserve = s.reserve_out;
            self.false_reserve = s.reserve_in;
            self.true_deposits = deposits;
        } else {
            self.false_reserve = s.reserve_out;
            self.true_reserve = s.reserve_in;
            self.false_deposits = deposits;
        }
        self.total_volume = volume;
        Ok(s.amount_out)
    }
    /// Trades a signed amount on behalf of `account`: buys for the amount
    /// if it is positive, sells as many shares as it is below zero if it
    /// is negative. Returns the shares issued, or the payout.
    ///
    /// Fails with `MarketNotLive` unless the market is set up and
    /// undecided, `InvalidAmount` for zero, and as `buy` and `sell` do. A
    /// failed call changes nothing.
    pub fn trade(&mut self, account: u64, signed_amount: i128, bet_on_true: bool) -> (r: Result<
        i128,
        MarketError,
    >)
        requires
            old(self)@.wf(),
        ensures
            final(self)@.wf(),
            match old(self)@.trade(account, signed_amount, bet_on_true) {
                Ok((v, moved)) => r == Ok::<i128, MarketError>(moved) && final(self)@ == v,
                Err(e) => r == Err::<i128, MarketError>(e) && final(self)@ == old(self)@,
            },
    {
        if !self.configured || self.state != Outcome::Undecided {
            return Err(MarketError::MarketNotLive);
        }
        if signed_amount == 0 {
            return Err(MarketError::InvalidAmount);
        }
        if signed_amount > 0 {
            return self.buy(account, signed_amount, bet_on_true);
        }
        if signed_amount == i128::MIN {
            return Err(MarketError::ArithmeticOverflow);
        }
        self.sell(account, -signed_amount, bet_on_true)
    }

    /// Resolves the market to `outcome` on the word of `caller`.
    ///
    /// Fails with `Unauthorized` unless the caller is the market's oracle,
    /// `AlreadySettled` if the market is resolved, and
    /// `ArithmeticOverflow` if the pool or the count of winning shares
    /// leaves the 128-bit range. A failed call changes nothing.
    pub fn settle(&mut self, caller: u64, outcome: bool) -> (r: Result<(), MarketError>)
        requires
            old(self)@.wf(),
        ensures
            final(self)@.wf(),
            match old(self)@.settle(caller, outcome) {
                Ok(v) => r is Ok && final(self)@ == v,
                Err(e) => r == Err::<(), MarketError>(e) && final(self)@ == old(self)@,
            },
    {
        if !self.configured || caller != self.oracle {
            return Err(MarketError::Unauthorized);
        }
        if self.state != Outcome::Undecided {
            return Err(MarketError::AlreadySettled);
        }
        let pool: i128 = checked_add(self.true_deposits, self.false_deposits)?;
        let total: i128 = self.ledger.total(outcome)?;
        proof {
            crate::ledger::lemma_total_bounds(self.ledger@, outcome);
            assert(0 * total == 0) by (nonlinear_arith);
            assert(pool * (total - total) == 0) by (nonlinear_arith);
        }
        self.state = if outcome {
            Outcome::TrueOutcome
        } else {
            Outcome::FalseOutcome
        };
        self.winning_total = total;
        self.paid_out = 0;
        Ok(())
    }

    /// Claims on behalf of `account`, and returns the winnings to pay.
    ///
    /// Before resolution the call does nothing and returns zero. After it,
    /// the call fails with `AlreadyClaimed` on an account that has claimed,
    /// and with `ArithmeticOverflow` if the pool times the account's
    /// winning shares leaves the 128-bit range. A failed call changes
    /// nothing.
    pub fn claim(&mut self, account: u64) -> (r: Result<i128, MarketError>)
        requires
            old(self)@.wf(),
        ensures
            final(self)@.wf(),
            match old(self)@.claim(account) {
                Ok((v, winnings)) => r == Ok::<i128, MarketError>(winnings) && final(self)@ == v,
                Err(e) => r == Err::<i128, MarketError>(e) && final(self)@ == old(self)@,
            },
            r is Ok ==> r->Ok_0 >= 0,
            0 <= final(self)@.paid_out <= final(self)@.pool(),
            final(self)@.pool() == old(self)@.pool(),
    {
        proof {
            crate::theorems::lemma_paid_within_pool(old(self)@);
            if old(self)@.state != Outcome::Undecided && old(self)@.claim(account) is Ok {
                lemma_claim_wf(old(self)@, account);
            }
        }
        if self.state == Outcome::Undecided {
            return Ok(0);
        }
        let p = self.ledger.position(account);
        if p.claimed {
            return Err(MarketError::AlreadyClaimed);
        }
        let held: i128 = if self.state == Outcome::TrueOutcome {
            p.true_shares
        } else {
            p.false_shares
        };
        let pool: i128 = self.true_deposits + self.false_deposits;
        let winnings: i128 = crate::settlement::share_winnings(pool, held, self.winning_total)?;
        proof {
            lemma_claim_wf(self@, account);
        }
        self.ledger.close(account);
        self.paid_out = self.paid_out + winnings;
        Ok(winnings)
    }
    /// The shares that `amount` would buy on a side. Along the curve this
    /// is what the opposite reserve gives up as the curve moves, and the
    /// quote is not judged: it may be zero or negative where a buy would
    /// be refused. Under weighted pricing it is what the amount buys at the
    /// side's price.
    pub fn get_buy_price(&self, amount: i128, bet_on_true: bool) -> (r: Result<i128, MarketError>)
        ensures
            r == self@.buy_quote(amount, bet_on_true),
    {
        match self.liquidity {
            Some(l) => {
                return self.pool(l).quote_buy(amount, bet_on_true);
            },
            None => {},
        }
        let s = if bet_on_true {
            crate::cpmm::swap(self.true_reserve, self.false_reserve, amount)?
        } else {
            crate::cpmm::swap(self.false_reserve, self.true_reserve, amount)?
        };
        Ok(s.amount_out)
    }

    /// The payout that `shares` of a side would fetch. Along the curve this
    /// is what the side's reserve gives up as the curve moves, and the
    /// quote is not judged. Under weighted pricing it is the value of the
    /// shares at the side's price.
    pub fn get_sell_price(&self, shares: i128, bet_on_true: bool) -> (r: Result<i128, MarketError>)
        ensures
            r == self@.sell_quote(shares, bet_on_true),
    {
        match self.liquidity {
            Some(l) => {
                return self.pool(l).quote_sell(shares, bet_on_true);
            },
            None => {},
        }
        let s = if bet_on_true {
            crate::cpmm::swap(self.false_reserve, self.true_reserve, shares)?
        } else {
            crate::cpmm::swap(self.true_reserve, self.false_reserve, shares)?
        };
        Ok(s.amount_out)
    }

    /// The true reserve, the false reserve and the volume traded.
    pub fn get_market_info(&self) -> (r: (i128, i128, i128))
        ensures
            r == (self@.true_reserve, self@.false_reserve, self@.total_volume),
    {
        (self.true_reserve, self.false_reserve, self.total_volume)
    }

    /// What the market is about.
    pub fn get_market_description(&self) -> (r: String)
        ensures
            r@ == self@.description,
    {
        self.description.clone()
    }

    /// Whether the market is open, or how it resolved.
    pub fn get_market_state(&self) -> (r: Outcome)
        ensures
            r == self@.state,
    {
        self.state
    }

    /// The shares `account` holds on the true side and on the false side.
    pub fn get_user_shares(&self, account: u64) -> (r: (i128, i128))
        requires
            self@.wf(),
        ensures
            r.0 == position_of(self@.positions, account).true_shares,
            r.1 == position_of(self@.positions, account).false_shares,
            r.0 >= 0,
            r.1 >= 0,
    {
        let p = self.ledger.position(account);
        (p.true_shares, p.false_shares)
    }

    /// Whether `account` has claimed.
    pub fn has_claimed(&self, account: u64) -> (r: bool)
        requires
            self@.wf(),
        ensures
            r == position_of(self@.positions, account).claimed,
    {
        self.ledger.is_claimed(account)
    }

    /// The probabilities of the true and the false outcome that the
    /// reserves imply, scaled by `SCALE`.
    pub fn get_current_probabilities(&self) -> (r: Result<(i128, i128), MarketError>)
        ensures
            r == crate::cpmm::probabilities_result(
                self@.true_reserve as int,
                self@.false_reserve as int,
            ),
            self@.wf() && r is Ok ==> SCALE - 1 <= r->Ok_0.0 + r->Ok_0.1 <= SCALE,
    {
        proof {
            if self@.wf() && crate::cpmm::probabilities_result(
                self@.true_reserve as int,
                self@.false_reserve as int,
            ) is Ok {
                crate::theorems::lemma_market_probabilities(self@);
            }
        }
        crate::cpmm::probabilities(self.true_reserve, self.false_reserve)
    }

    /// The account that may resolve the market, once it is set up.
    pub fn get_oracle(&self) -> (r: Option<u64>)
        ensures
            r == (if self@.configured {
                Some(self@.oracle)
            } else {
                None
            }),
    {
        if self.configured {
            Some(self.oracle)
        } else {
            None
        }
    }

    /// The asset the market is paid in, once it is set up.
    pub fn get_token(&self) -> (r: Option<u64>)
        ensures
            r == (if self@.configured {
                Some(self@.token)
            } else {
                None
            }),
    {
        if self.configured {
            Some(self.token)
        } else {
            None
        }
    }

    /// The true reserve and the false reserve.
    pub fn get_reserves(&self) -> (r: (i128, i128))
        ensures
            r == (self@.true_reserve, self@.false_reserve),
    {
        (self.true_reserve, self.false_reserve)
    }

    /// The product of the two reserves, or `ArithmeticOverflow` if it
    /// leaves the 128-bit range.
    pub fn get_constant_product(&self) -> (r: Result<i128, MarketError>)
        ensures
            fits(self@.product()) ==> r == Ok::<i128, MarketError>(self@.product() as i128),
            !fits(self@.product()) ==> r == Err::<i128, MarketError>(
                MarketError::ArithmeticOverflow,
            ),
    {
        checked_mul(self.true_reserve, self.false_reserve)
    }

    /// The deposits on the true side and on the false side.
    pub fn get_deposits(&self) -> (r: (i128, i128))
        ensures
            r == (self@.true_deposits, self@.false_deposits),
    {
        (self.true_deposits, self.false_deposits)
    }

    /// What claims have paid so far.
    pub fn get_paid_out(&self) -> (r: i128)
        ensures
            r == self@.paid_out,
    {
        self.paid_out
    }
}


/// The state of a binary market as plain values, to be stored and brought
/// back.
#[derive(Debug, PartialEq, Eq)]
pub struct MarketSnapshot {
    /// Whether setup has been performed.
    pub configured: bool,
    /// The account that may resolve the market.
    pub oracle: u64,
    /// The asset in which the market is paid.
    pub token: u64,
    /// What the market is about.
    pub description: String,
    /// Open or resolved.
    pub state: Outcome,
    /// The curve's reserve on the true side.
    pub true_reserve: i128,
    /// The curve's reserve on the false side.
    pub false_reserve: i128,
    /// Value deposited on the true side.
    pub true_deposits: i128,
    /// Value deposited on the false side.
    pub false_deposits: i128,
    /// Gross value moved by trades.
    pub total_volume: i128,
    /// One record per account that has traded or claimed.
    pub positions: Vec<Position>,
    /// All shares of the winning side, counted at resolution.
    pub winning_total: i128,
    /// What claims have paid so far.
    pub paid_out: i128,
    /// The liquidity parameter of a market priced by weighted probability;
    /// `None` for one priced along the curve.
    pub liquidity: Option<i128>,
}

impl View for MarketSnapshot {
    type V = MarketView;

    open spec fn view(&self) -> MarketView {
        MarketView {
            configured: self.configured,
            oracle: self.oracle,
            token: self.token,
            description: self.description@,
            state: self.state,
            true_reserve: self.true_reserve,
            false_reserve: self.false_reserve,
            true_deposits: self.true_deposits,
            false_deposits: self.false_deposits,
            total_volume: self.total_volume,
            positions: self.positions@,
            winning_total: self.winning_total,
            paid_out: self.paid_out,
            liquidity: self.liquidity,
        }
    }
}

impl MarketView {
    /// Whether a stored state can be brought back: it meets the market's
    /// invariant, and on a resolved market the two products that the
    /// invariant compares fit in 128 bits.
    pub open spec fn restorable(self) -> bool {
        &&& self.wf()
        &&& self.state != Outcome::Undecided ==> fits(self.paid_out * self.winning_total) && fits(
            self.pool() * (self.winning_total - self.unclaimed()),
        )
    }
}

impl SoroMarket {
    /// The market's state as plain values.
    pub fn snapshot(&self) -> (r: MarketSnapshot)
        ensures
            r@ == self@,
    {
        MarketSnapshot {
            configured: self.configured,
            oracle: self.oracle,
            token: self.token,
            description: self.description.clone(),
            state: self.state,
            true_reserve: self.true_reserve,
            false_reserve: self.false_reserve,
            true_deposits: self.true_deposits,
            false_deposits: self.false_deposits,
            total_volume: self.total_volume,
            positions: self.ledger.records(),
            winning_total: self.winning_total,
            paid_out: self.paid_out,
            liquidity: self.liquidity,
        }
    }

    /// The market that a stored state describes, if the state can be
    /// brought back.
    pub fn restore(s: MarketSnapshot) -> (r: Option<Self>)
        ensures
            s@.restorable() ==> r is Some && r->Some_0@ == s@,
            !s@.restorable() ==> r is None,
    {
        let ghost v = s@;
        let MarketSnapshot {
            configured,
            oracle,
            token,
            description,
            state,
            true_reserve,
            false_reserve,
            true_deposits,
            false_deposits,
            total_volume,
            positions,
            winning_total,
            paid_out,
            liquidity,
        } = s;
        let n: usize = positions.len();
        let ledger = match PositionLedger::from_records(positions) {
            Some(l) => l,
            None => {
                return None;
            },
        };
        if true_reserve < 0 || false_reserve < 0 || true_deposits < 0 || false_deposits < 0
            || total_volume < 0 || paid_out < 0 || winning_total < 0 {
            return None;
        }
        match liquidity {
            None => {
                if configured && (true_reserve <= 0 || false_reserve <= 0) {
                    return None;
                }
            },
            Some(l) => {
                if !configured || l < 0 || l > SCALE {
                    return None;
                }
            },
        }
        if !configured && (state != Outcome::Undecided || n != 0) {
            return None;
        }
        if state == Outcome::Undecided {
            if paid_out != 0 || winning_total != 0 {
                return None;
            }
        } else {
            let pool: i128 = match true_deposits.checked_add(false_deposits) {
                Some(p) => p,
                None => {
                    return None;
                },
            };
            let unclaimed: i128 = match ledger.total(state == Outcome::TrueOutcome) {
                Ok(u) => u,
                Err(_) => {
                    return None;
                },
            };
            proof {
                crate::ledger::lemma_total_bounds(ledger@, state == Outcome::TrueOutcome);
            }
            if unclaimed > winning_total {
                return None;
            }
            if winning_total == 0 && paid_out != 0 {
                return None;
            }
            let lhs: i128 = match paid_out.checked_mul(winning_total) {
                Some(x) => x,
                None => {
                    return None;
                },
            };
            let rhs: i128 = match pool.checked_mul(winning_total - unclaimed) {
                Some(x) => x,
                None => {
                    return None;
                },
            };
            if lhs > rhs {
                return None;
            }
        }
        let m = SoroMarket {
            configured,
            oracle,
            token,
            description,
            state,
            true_reserve,
            false_reserve,
            true_deposits,
            false_deposits,
            total_volume,
            ledger,
            winning_total,
            paid_out,
            liquidity,
        };
        proof {
            assert(m@ == v);
        }
        Some(m)
    }
}

} // verus!
