//! A three-way market contract: an administrator opens markets on home,
//! draw and away, users stake from deposited balances against per-outcome
//! reserves, and a settled market pays the winning reserve out in
//! proportion to the winning shares.

use vstd::prelude::*;
use crate::fixed_point::MarketError;
use crate::fixed_point::fits;
use crate::fixed_point::mul_div_result;
use crate::fixed_point::checked_add;
use crate::fixed_point::checked_sub;
use crate::fixed_point::mul_div;
use crate::balances::Balances;
use crate::balances::Entry;
use crate::balances::entries_distinct;
use crate::balances::entries_map;
use crate::balances::balance_of;
use crate::balances::credited;

verus! {

/// Prices carry six decimals.
pub const DECIMALS: i128 = 1_000_000;

/// The lowest price an outcome may be given.
pub const MIN_PRICE: i128 = 10_000;

/// What the three prices of a market must add up to.
pub const TOTAL_PRICE_SUM: i128 = 990_000;

/// The most stakes a market holds at a time.
pub const MAX_STAKERS_PER_MARKET: u32 = 1000;

/// The fee on cashing a stake out early, in percent.
pub const CASHOUT_FEE_PERCENT: i128 = 5;

/// The lifecycle of a three-way market.
#[derive(Clone, Copy, Debug, PartialEq, Eq, Structural)]
pub enum MarketStatus {
    /// Open for stakes.
    Active,
    /// Resolved and paid out.
    Settled,
    /// Closed by the administrator.
    Archived,
}

/// The numbers of a market.
#[derive(Clone, Copy, Debug, PartialEq, Eq, Structural)]
pub struct MarketData {
    /// The market's identifier, counted from one.
    pub id: u64,
    /// When the event starts.
    pub start_time: i64,
    /// The quoted price of a home win.
    pub odds_home: i128,
    /// The quoted price of a draw.
    pub odds_draw: i128,
    /// The quoted price of an away win.
    pub odds_away: i128,
    /// Where the market is in its lifecycle.
    pub status: MarketStatus,
    /// The number of stakes placed and still held.
    pub staker_count: u32,
    /// The reserve behind a home win.
    pub reserve_home: i128,
    /// The reserve behind a draw.
    pub reserve_draw: i128,
    /// The reserve behind an away win.
    pub reserve_away: i128,
}

/// A market as it is reported: its numbers and its title.
#[derive(Debug, PartialEq, Eq)]
pub struct Market {
    /// The market's identifier, counted from one.
    pub id: u64,
    /// What the market is about.
    pub title: String,
    /// When the event starts.
    pub start_time: i64,
    /// The quoted price of a home win.
    pub odds_home: i128,
    /// The quoted price of a draw.
    pub odds_draw: i128,
    /// The quoted price of an away win.
    pub odds_away: i128,
    /// Where the market is in its lifecycle.
    pub status: MarketStatus,
    /// The number of stakes placed and still held.
    pub staker_count: u32,
    /// The reserve behind a home win.
    pub reserve_home: i128,
    /// The reserve behind a draw.
    pub reserve_draw: i128,
    /// The reserve behind an away win.
    pub reserve_away: i128,
}

impl Market {
    /// The numbers of the market, without its title.
    pub open spec fn data(self) -> MarketData {
        MarketData {
            id: self.id,
            start_time: self.start_time,
            odds_home: self.odds_home,
            odds_draw: self.odds_draw,
            odds_away: self.odds_away,
            status: self.status,
            staker_count: self.staker_count,
            reserve_home: self.reserve_home,
            reserve_draw: self.reserve_draw,
            reserve_away: self.reserve_away,
        }
    }
}

/// A stake: shares on one outcome of one market.
#[derive(Clone, Copy, Debug, PartialEq, Eq, Structural)]
pub struct Stake {
    /// The stake's identifier, counted from one.
    pub id: u64,
    /// The account that placed it.
    pub staker: u64,
    /// The market it was placed on.
    pub market_id: u64,
    /// 0 for home, 1 for draw, 2 for away.
    pub outcome: u32,
    /// The shares held.
    pub amount: i128,
    /// The price of the outcome when the stake was placed.
    pub price: i128,
}

impl MarketData {
    /// The reserve behind an outcome; zero for an outcome that does not
    /// exist.
    pub open spec fn reserve(self, outcome: u32) -> i128 {
        if outcome == 0 {
            self.reserve_home
        } else if outcome == 1 {
            self.reserve_draw
        } else if outcome == 2 {
            self.reserve_away
        } else {
            0
        }
    }

    /// The market with the reserve behind one outcome replaced.
    pub open spec fn with_reserve(self, outcome: u32, v: i128) -> MarketData {
        if outcome == 0 {
            MarketData { reserve_home: v, ..self }
        } else if outcome == 1 {
            MarketData { reserve_draw: v, ..self }
        } else if outcome == 2 {
            MarketData { reserve_away: v, ..self }
        } else {
            self
        }
    }

    /// The market with all reserves emptied and a new status.
    pub open spec fn closed_as(self, status: MarketStatus) -> MarketData {
        MarketData { reserve_home: 0, reserve_draw: 0, reserve_away: 0, status, ..self }
    }

    fn reserve_of(&self, outcome: u32) -> (r: i128)
        ensures
            r == self.reserve(outcome),
    {
        if outcome == 0 {
            self.reserve_home
        } else if outcome == 1 {
            self.reserve_draw
        } else if outcome == 2 {
            self.reserve_away
        } else {
            0
        }
    }

    fn set_reserve(&mut self, outcome: u32, v: i128)
        ensures
            *final(self) == old(self).with_reserve(outcome, v),
    {
        if outcome == 0 {
            self.reserve_home = v;
        } else if outcome == 1 {
            self.reserve_draw = v;
        } else if outcome == 2 {
            self.reserve_away = v;
        }
    }
}

/// Three prices are valid when none is below the minimum and they add up
/// to the required total.
pub open spec fn validate_odds_result(odds_home: int, odds_draw: int, odds_away: int) -> Result<
    (),
    MarketError,
> {
    if odds_home < MIN_PRICE || odds_draw < MIN_PRICE || odds_away < MIN_PRICE {
        Err(MarketError::OddsBelowMinimum)
    } else if !fits(odds_home + odds_draw) || !fits(odds_home + odds_draw + odds_away) {
        Err(MarketError::ArithmeticOverflow)
    } else if odds_home + odds_draw + odds_away != TOTAL_PRICE_SUM {
        Err(MarketError::OddsSumMismatch)
    } else {
        Ok(())
    }
}

/// The part of `total_reserve` that a price claims:
/// `total_reserve * price / DECIMALS`.
pub open spec fn reserve_from_price_result(total_reserve: int, price: int) -> Result<
    i128,
    MarketError,
> {
    mul_div_result(total_reserve, price, DECIMALS as int)
}

/// The price that a reserve implies: `reserve * DECIMALS / total_reserve`,
/// and zero while the total is zero.
pub open spec fn price_from_reserve_result(reserve: int, total_reserve: int) -> Result<
    i128,
    MarketError,
> {
    if total_reserve == 0 {
        Ok(0i128)
    } else {
        mul_div_result(reserve, DECIMALS as int, total_reserve)
    }
}


/// The state of the contract as contracts see it.
pub struct ContractView {
    /// The administrator, once the contract is initialized.
    pub admin: Option<u64>,
    /// The number of markets created.
    pub market_counter: u64,
    /// The number of stakes ever placed.
    pub stake_counter: u64,
    /// The value the contract holds.
    pub total_liquidity: i128,
    /// The markets, in order of creation.
    pub markets: Seq<MarketData>,
    /// The markets' titles, in the same order.
    pub titles: Seq<Seq<char>>,
    /// The stakes that are held, in order of placement.
    pub stakes: Seq<Stake>,
    /// What each user may stake or withdraw.
    pub balances: Map<u64, i128>,
    /// What each liquidity provider has put in.
    pub lp_balances: Map<u64, i128>,
}

/// Whether a stake of `s` has the identifier `id`.
pub open spec fn has_stake(s: Seq<Stake>, id: u64) -> bool {
    exists|i: int| 0 <= i < s.len() && #[trigger] s[i].id == id
}

/// The index of the stake with identifier `id`, where there is one.
pub open spec fn stake_index(s: Seq<Stake>, id: u64) -> int {
    choose|i: int| 0 <= i < s.len() && #[trigger] s[i].id == id
}

impl ContractView {
    /// The contract before it is initialized.
    pub open spec fn blank() -> ContractView {
        ContractView {
            admin: None,
            market_counter: 0,
            stake_counter: 0,
            total_liquidity: 0,
            markets: Seq::empty(),
            titles: Seq::empty(),
            stakes: Seq::empty(),
            balances: Map::empty(),
            lp_balances: Map::empty(),
        }
    }

    /// The contract's invariant: markets are numbered from one in order of
    /// creation and have a title each, no reserve and no stake is
    /// negative, and stakes carry identifiers that have been issued, in
    /// increasing order.
    pub open spec fn wf(self) -> bool {
        &&& self.markets.len() == self.market_counter
        &&& self.titles.len() == self.market_counter
        &&& forall|i: int|
            0 <= i < self.markets.len() ==> {
                &&& (#[trigger] self.markets[i]).id == i + 1
                &&& self.markets[i].reserve_home >= 0
                &&& self.markets[i].reserve_draw >= 0
                &&& self.markets[i].reserve_away >= 0
            }
        &&& forall|i: int|
            0 <= i < self.stakes.len() ==> (#[trigger] self.stakes[i]).amount >= 0
                && self.stakes[i].id <= self.stake_counter
        &&& forall|i: int, j: int|
            0 <= i < j < self.stakes.len() ==> (#[trigger] self.stakes[i]).id < (
            #[trigger] self.stakes[j]).id
    }

    /// Whether a market has the identifier `market_id`.
    pub open spec fn has_market(self, market_id: u64) -> bool {
        1 <= market_id <= self.markets.len()
    }

    /// The market with identifier `market_id`.
    pub open spec fn market(self, market_id: u64) -> MarketData
        recommends
            self.has_market(market_id),
    {
        self.markets[market_id - 1]
    }

    /// The contract with one market replaced.
    pub open spec fn with_market(self, market_id: u64, m: MarketData) -> ContractView {
        ContractView { markets: self.markets.update(market_id - 1, m), ..self }
    }

    /// Only the administrator passes.
    pub open spec fn require_admin(self, who: u64) -> Result<(), MarketError> {
        if self.admin == Some(who) {
            Ok(())
        } else {
            Err(MarketError::Unauthorized)
        }
    }

    /// Initialization: allowed once; names the administrator.
    pub open spec fn initialize(self, admin: u64) -> Result<ContractView, MarketError> {
        if self.admin is Some {
            Err(MarketError::AlreadySetup)
        } else {
            Ok(ContractView { admin: Some(admin), ..self })
        }
    }

    /// A provider adds `amount` to the contract's liquidity.
    pub open spec fn provide_liquidity(self, provider: u64, amount: i128) -> Result<
        ContractView,
        MarketError,
    > {
        if amount <= 0 {
            Err(MarketError::InvalidAmount)
        } else if !fits(self.total_liquidity + amount) {
            Err(MarketError::ArithmeticOverflow)
        } else {
            match credited(self.lp_balances, provider, amount as int) {
                Err(e) => Err(e),
                Ok(lp) => Ok(
                    ContractView {
                        lp_balances: lp,
                        total_liquidity: (self.total_liquidity + amount) as i128,
                        ..self
                    },
                ),
            }
        }
    }

    /// A provider takes `amount` of what it put in back out.
    pub open spec fn withdraw_liquidity(self, provider: u64, amount: i128) -> Result<
        ContractView,
        MarketError,
    > {
        if amount <= 0 {
            Err(MarketError::InvalidAmount)
        } else if balance_of(self.lp_balances, provider) < amount {
            Err(MarketError::InsufficientBalance)
        } else if self.total_liquidity < amount {
            Err(MarketError::InsufficientLiquidity)
        } else {
            Ok(
                ContractView {
                    lp_balances: self.lp_balances.insert(
                        provider,
                        (balance_of(self.lp_balances, provider) - amount) as i128,
                    ),
                    total_liquidity: (self.total_liquidity - amount) as i128,
                    ..self
                },
            )
        }
    }

    /// A user deposits `amount` into its balance.
    pub open spec fn deposit(self, user: u64, amount: i128) -> Result<ContractView, MarketError> {
        if amount <= 0 {
            Err(MarketError::InvalidAmount)
        } else if !fits(self.total_liquidity + amount) {
            Err(MarketError::ArithmeticOverflow)
        } else {
            match credited(self.balances, user, amount as int) {
                Err(e) => Err(e),
                Ok(b) => Ok(
                    ContractView {
                        balances: b,
                        total_liquidity: (self.total_liquidity + amount) as i128,
                        ..self
                    },
                ),
            }
        }
    }

    /// A user withdraws `amount` from its balance.
    pub open spec fn withdraw(self, user: u64, amount: i128) -> Result<ContractView, MarketError> {
        if amount <= 0 {
            Err(MarketError::InvalidAmount)
        } else if balance_of(self.balances, user) < amount {
            Err(MarketError::InsufficientBalance)
        } else if self.total_liquidity < amount {
            Err(MarketError::InsufficientLiquidity)
        } else {
            Ok(
                ContractView {
                    balances: self.balances.insert(
                        user,
                        (balance_of(self.balances, user) - amount) as i128,
                    ),
                    total_liquidity: (self.total_liquidity - amount) as i128,
                    ..self
                },
            )
        }
    }
}

/// The views of a list of titles.
pub open spec fn title_views(titles: Seq<String>) -> Seq<Seq<char>> {
    Seq::new(titles.len(), |i: int| titles[i]@)
}

/// The contract: its administrator, its markets, the stakes held, and the
/// balances of users and liquidity providers.
pub struct PredictionMarketContract {
    admin: Option<u64>,
    market_counter: u64,
    stake_counter: u64,
    total_liquidity: i128,
    markets: Vec<MarketData>,
    titles: Vec<String>,
    stakes: Vec<Stake>,
    balances: Balances,
    lp_balances: Balances,
}

impl View for PredictionMarketContract {
    type V = ContractView;

    closed spec fn view(&self) -> ContractView {
        ContractView {
            admin: self.admin,
            market_counter: self.market_counter,
            stake_counter: self.stake_counter,
            total_liquidity: self.total_liquidity,
            markets: self.markets@,
            titles: title_views(self.titles@),
            stakes: self.stakes@,
            balances: self.balances@,
            lp_balances: self.lp_balances@,
        }
    }
}

impl PredictionMarketContract {
    /// The invariant of the representation.
    pub closed spec fn repr_wf(&self) -> bool {
        self.balances.wf() && self.lp_balances.wf()
    }

    /// The contract's invariant.
    pub open spec fn wf(&self) -> bool {
        self.repr_wf() && self@.wf()
    }

    /// A contract that awaits its initialization.
    pub fn new() -> (c: Self)
        ensures
            c.wf(),
            c@ == ContractView::blank(),
    {
        let c = PredictionMarketContract {
            admin: None,
            market_counter: 0,
            stake_counter: 0,
            total_liquidity: 0,
            markets: Vec::new(),
            titles: Vec::new(),
            stakes: Vec::new(),
            balances: Balances::new(),
            lp_balances: Balances::new(),
        };
        proof {
            assert(title_views(c.titles@) =~= Seq::<Seq<char>>::empty());
        }
        c
    }

    /// Names the administrator. Fails with `AlreadySetup`, changing
    /// nothing, if the contract has one.
    pub fn initialize(&mut self, admin: u64) -> (r: Result<(), MarketError>)
        requires
            old(self).wf(),
        ensures
            final(self).wf(),
            match old(self)@.initialize(admin) {
                Ok(v) => r is Ok && final(self)@ == v,
                Err(e) => r == Err::<(), MarketError>(e) && final(self)@ == old(self)@,
            },
    {
        if self.admin.is_some() {
            return Err(MarketError::AlreadySetup);
        }
        self.admin = Some(admin);
        Ok(())
    }

    /// The administrator, once the contract is initialized.
    pub fn get_admin(&self) -> (r: Option<u64>)
        ensures
            r == self@.admin,
    {
        self.admin
    }

    fn require_admin(&self, who: u64) -> (r: Result<(), MarketError>)
        ensures
            r == self@.require_admin(who),
    {
        match self.admin {
            Some(a) => if a == who {
                Ok(())
            } else {
                Err(MarketError::Unauthorized)
            },
            None => Err(MarketError::Unauthorized),
        }
    }

    /// Checks three prices: `OddsBelowMinimum` if one is below the minimum
    /// price, `OddsSumMismatch` unless they add up to the required total.
    pub fn validate_odds(odds_home: i128, odds_draw: i128, odds_away: i128) -> (r: Result<
        (),
        MarketError,
    >)
        ensures
            r == validate_odds_result(odds_home as int, odds_draw as int, odds_away as int),
    {
        if odds_home < MIN_PRICE || odds_draw < MIN_PRICE || odds_away < MIN_PRICE {
            return Err(MarketError::OddsBelowMinimum);
        }
        let partial: i128 = checked_add(odds_home, odds_draw)?;
        let sum: i128 = checked_add(partial, odds_away)?;
        if sum != TOTAL_PRICE_SUM {
            return Err(MarketError::OddsSumMismatch);
        }
        Ok(())
    }

    /// The part of `total_reserve` that `price` claims.
    pub fn calculate_reserve_from_price(total_reserve: i128, price: i128) -> (r: Result<
        i128,
        MarketError,
    >)
        ensures
            r == reserve_from_price_result(total_reserve as int, price as int),
    {
        mul_div(total_reserve, price, DECIMALS)
    }

    /// The price that `reserve` implies within `total_reserve`.
    pub fn calculate_price_from_reserve(reserve: i128, total_reserve: i128) -> (r: Result<
        i128,
        MarketError,
    >)
        ensures
            r == price_from_reserve_result(reserve as int, total_reserve as int),
    {
        if total_reserve == 0 {
            return Ok(0);
        }
        mul_div(reserve, DECIMALS, total_reserve)
    }

    /// Adds `amount` to the contract's liquidity on behalf of `provider`.
    ///
    /// Fails with `InvalidAmount` unless the amount is positive and with
    /// `ArithmeticOverflow` if a balance leaves the 128-bit range. A
    /// failed call changes nothing.
    pub fn provide_liquidity(&mut self, provider: u64, amount: i128) -> (r: Result<
        (),
        MarketError,
    >)
        requires
            old(self).wf(),
        ensures
            final(self).wf(),
            match old(self)@.provide_liquidity(provider, amount) {
                Ok(v) => r is Ok && final(self)@ == v,
                Err(e) => r == Err::<(), MarketError>(e) && final(self)@ == old(self)@,
            },
    {
        if amount <= 0 {
            return Err(MarketError::InvalidAmount);
        }
        let total: i128 = checked_add(self.total_liquidity, amount)?;
        self.lp_balances.credit(provider, amount)?;
        self.total_liquidity = total;
        Ok(())
    }

    /// Takes `amount` of what `provider` put in back out.
    ///
    /// Fails with `InvalidAmount` unless the amount is positive,
    /// `InsufficientBalance` if the provider put in less, and
    /// `InsufficientLiquidity` if the contract holds less. A failed call
    /// changes nothing.
    pub fn withdraw_liquidity(&mut self, provider: u64, amount: i128) -> (r: Result<
        (),
        MarketError,
    >)
        requires
            old(self).wf(),
        ensures
            final(self).wf(),
            match old(self)@.withdraw_liquidity(provider, amount) {
                Ok(v) => r is Ok && final(self)@ == v,
                Err(e) => r == Err::<(), MarketError>(e) && final(self)@ == old(self)@,
            },
    {
        if amount <= 0 {
            return Err(MarketError::InvalidAmount);
        }
        let lp: i128 = self.lp_balances.get(provider);
        if lp < amount {
            return Err(MarketError::InsufficientBalance);
        }
        if self.total_liquidity < amount {
            return Err(MarketError::InsufficientLiquidity);
        }
        self.lp_balances.set(provider, lp - amount);
        self.total_liquidity = self.total_liquidity - amount;
        Ok(())
    }

    /// The value the contract holds.
    pub fn total_liquidity(&self) -> (r: i128)
        ensures
            r == self@.total_liquidity,
    {
        self.total_liquidity
    }

    /// Adds `amount` to the balance of `user`.
    ///
    /// Fails with `InvalidAmount` unless the amount is positive and with
    /// `ArithmeticOverflow` if a balance leaves the 128-bit range. A
    /// failed call changes nothing.
    pub fn deposit(&mut self, user: u64, amount: i128) -> (r: Result<(), MarketError>)
        requires
            old(self).wf(),
        ensures
            final(self).wf(),
            match old(self)@.deposit(user, amount) {
                Ok(v) => r is Ok && final(self)@ == v,
                Err(e) => r == Err::<(), MarketError>(e) && final(self)@ == old(self)@,
            },
    {
        if amount <= 0 {
            return Err(MarketError::InvalidAmount);
        }
        let total: i128 = checked_add(self.total_liquidity, amount)?;
        self.balances.credit(user, amount)?;
        self.total_liquidity = total;
        Ok(())
    }

    /// Takes `amount` from the balance of `user`.
    ///
    /// Fails with `InvalidAmount` unless the amount is positive,
    /// `InsufficientBalance` if the user holds less, and
    /// `InsufficientLiquidity` if the contract holds less. A failed call
    /// changes nothing.
    pub fn withdraw(&mut self, user: u64, amount: i128) -> (r: Result<(), MarketError>)
        requires
            old(self).wf(),
        ensures
            final(self).wf(),
            match old(self)@.withdraw(user, amount) {
                Ok(v) => r is Ok && final(self)@ == v,
                Err(e) => r == Err::<(), MarketError>(e) && final(self)@ == old(self)@,
            },
    {
        if amount <= 0 {
            return Err(MarketError::InvalidAmount);
        }
        let bal: i128 = self.balances.get(user);
        if bal < amount {
            return Err(MarketError::InsufficientBalance);
        }
        if self.total_liquidity < amount {
            return Err(MarketError::InsufficientLiquidity);
        }
        self.balances.set(user, bal - amount);
        self.total_liquidity = self.total_liquidity - amount;
        Ok(())
    }

    /// The balance of `user`.
    pub fn get_balance(&self, user: u64) -> (r: i128)
        requires
            self.wf(),
        ensures
            r == balance_of(self@.balances, user),
    {
        self.balances.get(user)
    }
}


/// The market that creation with these parameters opens: its reserves
/// split `initial_liquidity` by the three prices.
pub open spec fn new_market_result(
    id: u64,
    start_time: i64,
    odds_home: i128,
    odds_draw: i128,
    odds_away: i128,
    initial_liquidity: i128,
) -> Result<MarketData, MarketError> {
    match reserve_from_price_result(initial_liquidity as int, odds_home as int) {
        Err(e) => Err(e),
        Ok(reserve_home) => match reserve_from_price_result(
            initial_liquidity as int,
            odds_draw as int,
        ) {
            Err(e) => Err(e),
            Ok(reserve_draw) => match reserve_from_price_result(
                initial_liquidity as int,
                odds_away as int,
            ) {
                Err(e) => Err(e),
                Ok(reserve_away) => Ok(
                    MarketData {
                        id,
                        start_time,
                        odds_home,
                        odds_draw,
                        odds_away,
                        status: MarketStatus::Active,
                        staker_count: 0,
                        reserve_home,
                        reserve_draw,
                        reserve_away,
                    },
                ),
            },
        },
    }
}

/// The prices a market shows: those its reserves imply, and the quoted
/// ones while all reserves are empty.
pub open spec fn current_odds_result(m: MarketData) -> Result<(i128, i128, i128), MarketError> {
    let total = m.reserve_home + m.reserve_draw + m.reserve_away;
    if !fits(m.reserve_home + m.reserve_draw) || !fits(total) {
        Err(MarketError::ArithmeticOverflow)
    } else if total == 0 {
        Ok((m.odds_home, m.odds_draw, m.odds_away))
    } else {
        match price_from_reserve_result(m.reserve_home as int, total) {
            Err(e) => Err(e),
            Ok(home) => match price_from_reserve_result(m.reserve_draw as int, total) {
                Err(e) => Err(e),
                Ok(draw) => match price_from_reserve_result(m.reserve_away as int, total) {
                    Err(e) => Err(e),
                    Ok(away) => Ok((home, draw, away)),
                },
            },
        }
    }
}

impl ContractView {
    /// The administrator opens a market. Gives the contract that results
    /// and the new market's identifier.
    pub open spec fn create_market(
        self,
        admin: u64,
        title: Seq<char>,
        start_time: i64,
        odds_home: i128,
        odds_draw: i128,
        odds_away: i128,
        initial_liquidity: i128,
    ) -> Result<(ContractView, u64), MarketError> {
        if self.require_admin(admin) is Err {
            Err(MarketError::Unauthorized)
        } else if validate_odds_result(odds_home as int, odds_draw as int, odds_away as int)
            is Err {
            Err(validate_odds_result(odds_home as int, odds_draw as int, odds_away as int)->Err_0)
        } else if initial_liquidity < 0 {
            Err(MarketError::InvalidAmount)
        } else if self.market_counter == u64::MAX {
            Err(MarketError::ArithmeticOverflow)
        } else {
            let id = (self.market_counter + 1) as u64;
            match new_market_result(
                id,
                start_time,
                odds_home,
                odds_draw,
                odds_away,
                initial_liquidity,
            ) {
                Err(e) => Err(e),
                Ok(m) => Ok(
                    (
                        ContractView {
                            market_counter: id,
                            markets: self.markets.push(m),
                            titles: self.titles.push(title),
                            ..self
                        },
                        id,
                    ),
                ),
            }
        }
    }

    /// The administrator replaces the quoted prices of a market that is
    /// still active.
    pub open spec fn update_odds(
        self,
        admin: u64,
        market_id: u64,
        odds_home: i128,
        odds_draw: i128,
        odds_away: i128,
    ) -> Result<ContractView, MarketError> {
        if self.require_admin(admin) is Err {
            Err(MarketError::Unauthorized)
        } else if validate_odds_result(odds_home as int, odds_draw as int, odds_away as int)
            is Err {
            Err(validate_odds_result(odds_home as int, odds_draw as int, odds_away as int)->Err_0)
        } else if !self.has_market(market_id) {
            Err(MarketError::MarketNotFound)
        } else if self.market(market_id).status != MarketStatus::Active {
            Err(MarketError::MarketNotLive)
        } else {
            Ok(
                self.with_market(
                    market_id,
                    MarketData { odds_home, odds_draw, odds_away, ..self.market(market_id) },
                ),
            )
        }
    }

    /// The administrator closes a market that has not been settled: its
    /// reserves are emptied and it takes no more stakes.
    pub open spec fn archive_market(self, admin: u64, market_id: u64) -> Result<
        ContractView,
        MarketError,
    > {
        if self.require_admin(admin) is Err {
            Err(MarketError::Unauthorized)
        } else if !self.has_market(market_id) {
            Err(MarketError::MarketNotFound)
        } else if self.market(market_id).status == MarketStatus::Settled {
            Err(MarketError::AlreadySettled)
        } else {
            Ok(
                self.with_market(
                    market_id,
                    self.market(market_id).closed_as(MarketStatus::Archived),
                ),
            )
        }
    }
}

impl PredictionMarketContract {
    fn lookup(&self, market_id: u64) -> (r: Result<(usize, MarketData), MarketError>)
        requires
            self.wf(),
        ensures
            match r {
                Ok((i, m)) => self@.has_market(market_id) && i == market_id - 1 && m
                    == self@.market(market_id),
                Err(e) => !self@.has_market(market_id) && e == MarketError::MarketNotFound,
            },
    {
        if market_id == 0 || market_id > self.market_counter {
            return Err(MarketError::MarketNotFound);
        }
        let n: usize = self.markets.len();
        assert(market_id - 1 < n);
        let i: usize = (market_id - 1) as usize;
        Ok((i, self.markets[i]))
    }

    /// Opens a market with three prices, and returns its identifier. The
    /// reserves split `initial_liquidity` by the prices.
    ///
    /// Fails with `Unauthorized` unless `admin` is the administrator, with
    /// what `validate_odds` finds, `InvalidAmount` for negative liquidity,
    /// and `ArithmeticOverflow` if a reserve or the counter leaves its
    /// range. A failed call changes nothing.
    pub fn create_market(
        &mut self,
        admin: u64,
        title: String,
        start_time: i64,
        odds_home: i128,
        odds_draw: i128,
        odds_away: i128,
        initial_liquidity: i128,
    ) -> (r: Result<u64, MarketError>)
        requires
            old(self).wf(),
        ensures
            final(self).wf(),
            match old(self)@.create_market(
                admin,
                title@,
                start_time,
                odds_home,
                odds_draw,
                odds_away,
                initial_liquidity,
            ) {
                Ok((v, id)) => r == Ok::<u64, MarketError>(id) && final(self)@ == v,
                Err(e) => r == Err::<u64, MarketError>(e) && final(self)@ == old(self)@,
            },
    {
        self.require_admin(admin)?;
        Self::validate_odds(odds_home, odds_draw, odds_away)?;
        if initial_liquidity < 0 {
            return Err(MarketError::InvalidAmount);
        }
        if self.market_counter == u64::MAX {
            return Err(MarketError::ArithmeticOverflow);
        }
        let id: u64 = self.market_counter + 1;
        let reserve_home: i128 = Self::calculate_reserve_from_price(initial_liquidity, odds_home)?;
        let reserve_draw: i128 = Self::calculate_reserve_from_price(initial_liquidity, odds_draw)?;
        let reserve_away: i128 = Self::calculate_reserve_from_price(initial_liquidity, odds_away)?;
        let m = MarketData {
            id,
            start_time,
            odds_home,
            odds_draw,
            odds_away,
            status: MarketStatus::Active,
            staker_count: 0,
            reserve_home,
            reserve_draw,
            reserve_away,
        };
        proof {
            lemma_share_of_reserve(initial_liquidity as int, odds_home as int);
            lemma_share_of_reserve(initial_liquidity as int, odds_draw as int);
            lemma_share_of_reserve(initial_liquidity as int, odds_away as int);
            assert(title_views(self.titles@.push(title)) =~= title_views(self.titles@).push(
                title@,
            ));
        }
        self.market_counter = id;
        self.markets.push(m);
        self.titles.push(title);
        Ok(id)
    }

    /// Replaces the quoted prices of a market.
    ///
    /// Fails with `Unauthorized` unless `admin` is the administrator, with
    /// what `validate_odds` finds, `MarketNotFound` for an unknown market,
    /// and `MarketNotLive` unless the market is active. A failed call
    /// changes nothing.
    pub fn update_odds(
        &mut self,
        admin: u64,
        market_id: u64,
        odds_home: i128,
        odds_draw: i128,
        odds_away: i128,
    ) -> (r: Result<(), MarketError>)
        requires
            old(self).wf(),
        ensures
            final(self).wf(),
            match old(self)@.update_odds(admin, market_id, odds_home, odds_draw, odds_away) {
                Ok(v) => r is Ok && final(self)@ == v,
                Err(e) => r == Err::<(), MarketError>(e) && final(self)@ == old(self)@,
            },
    {
        self.require_admin(admin)?;
        Self::validate_odds(odds_home, odds_draw, odds_away)?;
        let (i, m) = self.lookup(market_id)?;
        if m.status != MarketStatus::Active {
            return Err(MarketError::MarketNotLive);
        }
        let mut m = m;
        m.odds_home = odds_home;
        m.odds_draw = odds_draw;
        m.odds_away = odds_away;
        self.markets.set(i, m);
        Ok(())
    }

    /// Closes a market: empties its reserves and marks it archived.
    ///
    /// Fails with `Unauthorized` unless `admin` is the administrator,
    /// `MarketNotFound` for an unknown market, and `AlreadySettled` for a
    /// settled one. A failed call changes nothing.
    pub fn archive_market(&mut self, admin: u64, market_id: u64) -> (r: Result<(), MarketError>)
        requires
            old(self).wf(),
        ensures
            final(self).wf(),
            match old(self)@.archive_market(admin, market_id) {
                Ok(v) => r is Ok && final(self)@ == v,
                Err(e) => r == Err::<(), MarketError>(e) && final(self)@ == old(self)@,
            },
    {
        self.require_admin(admin)?;
        let (i, m) = self.lookup(market_id)?;
        if m.status == MarketStatus::Settled {
            return Err(MarketError::AlreadySettled);
        }
        let mut m = m;
        m.reserve_home = 0;
        m.reserve_draw = 0;
        m.reserve_away = 0;
        m.status = MarketStatus::Archived;
        self.markets.set(i, m);
        Ok(())
    }

    /// The market with identifier `market_id`, or `MarketNotFound`.
    pub fn get_market(&self, market_id: u64) -> (r: Result<Market, MarketError>)
        requires
            self.wf(),
        ensures
            match r {
                Ok(m) => self@.has_market(market_id) && m.data() == self@.market(market_id)
                    && m.title@ == self@.titles[market_id - 1],
                Err(e) => !self@.has_market(market_id) && e == MarketError::MarketNotFound,
            },
    {
        let (i, m) = self.lookup(market_id)?;
        Ok(
            Market {
                id: m.id,
                title: self.titles[i].clone(),
                start_time: m.start_time,
                odds_home: m.odds_home,
                odds_draw: m.odds_draw,
                odds_away: m.odds_away,
                status: m.status,
                staker_count: m.staker_count,
                reserve_home: m.reserve_home,
                reserve_draw: m.reserve_draw,
                reserve_away: m.reserve_away,
            },
        )
    }

    /// The number of stakes held on a market, or `MarketNotFound`.
    pub fn get_staker_count(&self, market_id: u64) -> (r: Result<u32, MarketError>)
        requires
            self.wf(),
        ensures
            match r {
                Ok(n) => self@.has_market(market_id) && n == self@.market(market_id).staker_count,
                Err(e) => !self@.has_market(market_id) && e == MarketError::MarketNotFound,
            },
    {
        let (_, m) = self.lookup(market_id)?;
        Ok(m.staker_count)
    }

    /// The prices of home, draw and away that a market shows: those its
    /// reserves imply, and the quoted ones while all reserves are empty.
    ///
    /// Fails with `MarketNotFound` for an unknown market and with
    /// `ArithmeticOverflow` if a sum or product leaves the 128-bit range.
    pub fn get_current_odds(&self, market_id: u64) -> (r: Result<(i128, i128, i128), MarketError>)
        requires
            self.wf(),
        ensures
            !self@.has_market(market_id) ==> r == Err::<(i128, i128, i128), MarketError>(
                MarketError::MarketNotFound,
            ),
            self@.has_market(market_id) ==> r == current_odds_result(self@.market(market_id)),
    {
        let (_, m) = self.lookup(market_id)?;
        let partial: i128 = checked_add(m.reserve_home, m.reserve_draw)?;
        let total: i128 = checked_add(partial, m.reserve_away)?;
        if total == 0 {
            return Ok((m.odds_home, m.odds_draw, m.odds_away));
        }
        let home: i128 = Self::calculate_price_from_reserve(m.reserve_home, total)?;
        let draw: i128 = Self::calculate_price_from_reserve(m.reserve_draw, total)?;
        let away: i128 = Self::calculate_price_from_reserve(m.reserve_away, total)?;
        Ok((home, draw, away))
    }
}

/// A price that is not negative claims a part of a total that is not
/// negative which is not negative either.
pub proof fn lemma_share_of_reserve(total_reserve: int, price: int)
    requires
        total_reserve >= 0,
        price >= 0,
        reserve_from_price_result(total_reserve, price) is Ok,
    ensures
        reserve_from_price_result(total_reserve, price)->Ok_0 >= 0,
{
    let x = total_reserve * price;
    assert(x >= 0) by (nonlinear_arith)
        requires
            x == total_reserve * price,
            total_reserve >= 0,
            price >= 0,
    ;
    crate::fixed_point::lemma_trunc_div_floor(x, DECIMALS as int);
}


/// The shares a stake of `amount` receives against `reserve`:
/// `reserve * amount / (reserve + amount)`, and the amount itself, one for
/// one, against an empty reserve.
pub open spec fn stake_shares_result(reserve: int, amount: int) -> Result<i128, MarketError> {
    if reserve == 0 {
        if fits(amount) {
            Ok(amount as i128)
        } else {
            Err(MarketError::ArithmeticOverflow)
        }
    } else if !fits(reserve + amount) {
        Err(MarketError::ArithmeticOverflow)
    } else {
        mul_div_result(reserve, amount, reserve + amount)
    }
}

/// Against a reserve that is not negative, a positive stake receives
/// shares that are not negative and no more than the amount staked.
pub proof fn lemma_stake_shares_bounds(reserve: int, amount: int)
    requires
        reserve >= 0,
        amount > 0,
        stake_shares_result(reserve, amount) is Ok,
    ensures
        0 <= stake_shares_result(reserve, amount)->Ok_0 <= amount,
        stake_shares_result(reserve, amount)->Ok_0 <= reserve || reserve == 0,
{
    if reserve != 0 {
        let x = reserve * amount;
        let d = reserve + amount;
        assert(x >= 0) by (nonlinear_arith)
            requires
                x == reserve * amount,
                reserve >= 0,
                amount > 0,
        ;
        crate::fixed_point::lemma_trunc_div_floor(x, d);
        let q = x / d;
        assert(q <= amount && q <= reserve) by (nonlinear_arith)
            requires
                d * q <= x,
                x == reserve * amount,
                d == reserve + amount,
                reserve > 0,
                amount > 0,
                q >= 0,
        ;
    }
}

impl ContractView {
    /// A user stakes `amount` from its balance on one outcome of a market.
    /// The amount joins the outcome's reserve and the contract's
    /// liquidity; the stake records the shares received and the price at
    /// which it was placed.
    pub open spec fn place_stake(self, user: u64, market_id: u64, outcome: u32, amount: i128)
        -> Result<ContractView, MarketError> {
        if amount <= 0 {
            Err(MarketError::InvalidAmount)
        } else if outcome > 2 {
            Err(MarketError::InvalidOutcome)
        } else if balance_of(self.balances, user) < amount {
            Err(MarketError::InsufficientBalance)
        } else if !self.has_market(market_id) {
            Err(MarketError::MarketNotFound)
        } else {
            let m = self.market(market_id);
            let reserve = m.reserve(outcome);
            let total = m.reserve_home + m.reserve_draw + m.reserve_away;
            if m.status != MarketStatus::Active {
                Err(MarketError::MarketNotLive)
            } else if m.staker_count >= MAX_STAKERS_PER_MARKET {
                Err(MarketError::StakerCapReached)
            } else if !fits(m.reserve_home + m.reserve_draw) || !fits(total) {
                Err(MarketError::ArithmeticOverflow)
            } else {
                match price_from_reserve_result(reserve as int, total) {
                    Err(e) => Err(e),
                    Ok(price) => match stake_shares_result(reserve as int, amount as int) {
                        Err(e) => Err(e),
                        Ok(shares) => if !fits(reserve + amount) || !fits(
                            self.total_liquidity + amount,
                        ) || self.stake_counter == u64::MAX {
                            Err(MarketError::ArithmeticOverflow)
                        } else {
                            let id = (self.stake_counter + 1) as u64;
                            Ok(
                                ContractView {
                                    balances: self.balances.insert(
                                        user,
                                        (balance_of(self.balances, user) - amount) as i128,
                                    ),
                                    total_liquidity: (self.total_liquidity + amount) as i128,
                                    stake_counter: id,
                                    stakes: self.stakes.push(
                                        Stake {
                                            id,
                                            staker: user,
                                            market_id,
                                            outcome,
                                            amount: shares,
                                            price,
                                        },
                                    ),
                                    markets: self.markets.update(
                                        market_id - 1,
                                        MarketData {
                                            staker_count: (m.staker_count + 1) as u32,
                                            ..m.with_reserve(outcome, (reserve + amount) as i128)
                                        },
                                    ),
                                    ..self
                                },
                            )
                        },
                    },
                }
            }
        }
    }
}

impl PredictionMarketContract {
    fn stake_shares(reserve: i128, amount: i128) -> (r: Result<i128, MarketError>)
        ensures
            r == stake_shares_result(reserve as int, amount as int),
    {
        if reserve == 0 {
            return Ok(amount);
        }
        let d: i128 = checked_add(reserve, amount)?;
        mul_div(reserve, amount, d)
    }

    /// Stakes `amount` from the balance of `user` on `outcome` (0 home, 1
    /// draw, 2 away) of a market.
    ///
    /// Fails with `InvalidAmount` unless the amount is positive,
    /// `InvalidOutcome` for an outcome above 2, `InsufficientBalance` if
    /// the user holds less, `MarketNotFound` for an unknown market,
    /// `MarketNotLive` unless the market is active, `StakerCapReached` if
    /// the market holds the maximum number of stakes, and
    /// `ArithmeticOverflow` if a quantity leaves its range. A failed call
    /// changes nothing.
    pub fn place_stake(&mut self, user: u64, market_id: u64, outcome: u32, amount: i128) -> (r:
        Result<(), MarketError>)
        requires
            old(self).wf(),
        ensures
            final(self).wf(),
            match old(self)@.place_stake(user, market_id, outcome, amount) {
                Ok(v) => r is Ok && final(self)@ == v,
                Err(e) => r == Err::<(), MarketError>(e) && final(self)@ == old(self)@,
            },
    {
        if amount <= 0 {
            return Err(MarketError::InvalidAmount);
        }
        if outcome > 2 {
            return Err(MarketError::InvalidOutcome);
        }
        let bal: i128 = self.balances.get(user);
        if bal < amount {
            return Err(MarketError::InsufficientBalance);
        }
        let (i, m) = self.lookup(market_id)?;
        if m.status != MarketStatus::Active {
            return Err(MarketError::MarketNotLive);
        }
        if m.staker_count >= MAX_STAKERS_PER_MARKET {
            return Err(MarketError::StakerCapReached);
        }
        let reserve: i128 = m.reserve_of(outcome);
        let partial: i128 = checked_add(m.reserve_home, m.reserve_draw)?;
        let total: i128 = checked_add(partial, m.reserve_away)?;
        let price: i128 = Self::calculate_price_from_reserve(reserve, total)?;
        let shares: i128 = Self::stake_shares(reserve, amount)?;
        let grown: i128 = checked_add(reserve, amount)?;
        let liquidity: i128 = checked_add(self.total_liquidity, amount)?;
        if self.stake_counter == u64::MAX {
            return Err(MarketError::ArithmeticOverflow);
        }
        let id: u64 = self.stake_counter + 1;
        proof {
            assert(self@.markets[i as int] == m);
            assert(reserve >= 0);
            lemma_stake_shares_bounds(reserve as int, amount as int);
        }
        let mut m = m;
        m.set_reserve(outcome, grown);
        m.staker_count = m.staker_count + 1;
        self.balances.set(user, bal - amount);
        self.total_liquidity = liquidity;
        self.stake_counter = id;
        self.stakes.push(Stake { id, staker: user, market_id, outcome, amount: shares, price });
        self.markets.set(i, m);
        Ok(())
    }
}


/// What cashing out `shares` fetches from `reserve` before the fee:
/// `shares * reserve / (reserve + shares)`, and nothing from an empty
/// reserve.
pub open spec fn cash_out_payout_result(shares: int, reserve: int) -> Result<i128, MarketError> {
    if reserve == 0 {
        Ok(0i128)
    } else if !fits(reserve + shares) {
        Err(MarketError::ArithmeticOverflow)
    } else {
        mul_div_result(shares, reserve, reserve + shares)
    }
}

/// Cashing out shares that are not negative fetches an amount between zero
/// and the reserve, and no more than the shares.
pub proof fn lemma_cash_out_bounds(shares: int, reserve: int)
    requires
        shares >= 0,
        reserve >= 0,
        cash_out_payout_result(shares, reserve) is Ok,
    ensures
        0 <= cash_out_payout_result(shares, reserve)->Ok_0 <= reserve,
        cash_out_payout_result(shares, reserve)->Ok_0 <= shares,
{
    if reserve != 0 {
        let x = shares * reserve;
        let d = reserve + shares;
        assert(x >= 0) by (nonlinear_arith)
            requires
                x == shares * reserve,
                reserve > 0,
                shares >= 0,
        ;
        crate::fixed_point::lemma_trunc_div_floor(x, d);
        let q = x / d;
        assert(q <= reserve && q <= shares) by (nonlinear_arith)
            requires
                d * q <= x,
                x == shares * reserve,
                d == reserve + shares,
                reserve > 0,
                shares >= 0,
                q >= 0,
        ;
    }
}

/// Staking and cashing out at once never pays: what the shares of a stake
/// fetch from the reserve that the stake has just joined is, even before
/// the fee, no more than the amount staked.
pub proof fn lemma_round_trip_bounded(reserve: int, amount: int)
    requires
        reserve >= 0,
        amount > 0,
        stake_shares_result(reserve, amount) is Ok,
        cash_out_payout_result(stake_shares_result(reserve, amount)->Ok_0 as int, reserve + amount)
            is Ok,
    ensures
        0 <= cash_out_payout_result(
            stake_shares_result(reserve, amount)->Ok_0 as int,
            reserve + amount,
        )->Ok_0 <= amount,
{
    lemma_stake_shares_bounds(reserve, amount);
    lemma_cash_out_bounds(stake_shares_result(reserve, amount)->Ok_0 as int, reserve + amount);
}

/// The stakes of `s` that were placed on the market `market_id`, in order.
pub open spec fn stakes_of(s: Seq<Stake>, market_id: u64) -> Seq<Stake>
    decreases s.len(),
{
    if s.len() == 0 {
        Seq::empty()
    } else if s.last().market_id == market_id {
        stakes_of(s.drop_last(), market_id).push(s.last())
    } else {
        stakes_of(s.drop_last(), market_id)
    }
}

/// The stakes of `s` that were placed on other markets than `market_id`,
/// in order.
pub open spec fn stakes_elsewhere(s: Seq<Stake>, market_id: u64) -> Seq<Stake>
    decreases s.len(),
{
    if s.len() == 0 {
        Seq::empty()
    } else if s.last().market_id != market_id {
        stakes_elsewhere(s.drop_last(), market_id).push(s.last())
    } else {
        stakes_elsewhere(s.drop_last(), market_id)
    }
}

impl ContractView {
    /// The owner of a stake cashes it out before the market is settled.
    /// The payout leaves the outcome's reserve; the owner is credited the
    /// payout less the fee, which also leaves the contract's liquidity;
    /// the stake is removed.
    pub open spec fn cash_out(self, user: u64, stake_id: u64) -> Result<ContractView, MarketError> {
        if !has_stake(self.stakes, stake_id) {
            Err(MarketError::StakeNotFound)
        } else {
            let k = stake_index(self.stakes, stake_id);
            let stake = self.stakes[k];
            if stake.staker != user {
                Err(MarketError::Unauthorized)
            } else if !self.has_market(stake.market_id) {
                Err(MarketError::MarketNotFound)
            } else {
                let m = self.market(stake.market_id);
                let reserve = m.reserve(stake.outcome);
                if m.status != MarketStatus::Active {
                    Err(MarketError::MarketNotLive)
                } else if stake.outcome > 2 {
                    Err(MarketError::InvalidOutcome)
                } else {
                    match cash_out_payout_result(stake.amount as int, reserve as int) {
                        Err(e) => Err(e),
                        Ok(before) => match mul_div_result(
                            before as int,
                            CASHOUT_FEE_PERCENT as int,
                            100,
                        ) {
                            Err(e) => Err(e),
                            Ok(fee) => if !fits(before - fee) || !fits(reserve - before) {
                                Err(MarketError::ArithmeticOverflow)
                            } else {
                                match credited(self.balances, user, before - fee) {
                                    Err(e) => Err(e),
                                    Ok(balances) => if !fits(
                                        self.total_liquidity - (before - fee),
                                    ) {
                                        Err(MarketError::ArithmeticOverflow)
                                    } else {
                                        Ok(
                                            ContractView {
                                                balances,
                                                total_liquidity: (self.total_liquidity - (before
                                                    - fee)) as i128,
                                                stakes: self.stakes.remove(k),
                                                markets: self.markets.update(
                                                    stake.market_id - 1,
                                                    MarketData {
                                                        staker_count: if m.staker_count == 0 {
                                                            0u32
                                                        } else {
                                                            (m.staker_count - 1) as u32
                                                        },
                                                        ..m.with_reserve(
                                                            stake.outcome,
                                                            (reserve - before) as i128,
                                                        )
                                                    },
                                                ),
                                                ..self
                                            },
                                        )
                                    },
                                }
                            },
                        },
                    }
                }
            }
        }
    }
}

impl PredictionMarketContract {
    fn find_stake(&self, stake_id: u64) -> (r: Option<usize>)
        requires
            self.wf(),
        ensures
            match r {
                Some(i) => has_stake(self@.stakes, stake_id) && i == stake_index(
                    self@.stakes,
                    stake_id,
                ) && i < self@.stakes.len(),
                None => !has_stake(self@.stakes, stake_id),
            },
    {
        let n: usize = self.stakes.len();
        let mut i: usize = 0;
        while i < n
            invariant
                n == self.stakes@.len(),
                i <= n,
                self.wf(),
                forall|k: int| 0 <= k < i ==> (#[trigger] self.stakes@[k]).id != stake_id,
            decreases n - i,
        {
            if self.stakes[i].id == stake_id {
                proof {
                    let j = stake_index(self@.stakes, stake_id);
                    assert(self@.stakes[i as int].id == stake_id);
                    assert(0 <= j < self@.stakes.len() && self@.stakes[j].id == stake_id);
                    if j < i {
                        assert(self@.stakes[j].id < self@.stakes[i as int].id);
                    }
                    if i < j {
                        assert(self@.stakes[i as int].id < self@.stakes[j].id);
                    }
                }
                return Some(i);
            }
            i += 1;
        }
        None
    }

    fn cash_out_payout(shares: i128, reserve: i128) -> (r: Result<i128, MarketError>)
        ensures
            r == cash_out_payout_result(shares as int, reserve as int),
    {
        if reserve == 0 {
            return Ok(0);
        }
        let d: i128 = checked_add(reserve, shares)?;
        mul_div(shares, reserve, d)
    }

    /// The stake with identifier `stake_id`, or `StakeNotFound`.
    pub fn get_stake(&self, stake_id: u64) -> (r: Result<Stake, MarketError>)
        requires
            self.wf(),
        ensures
            has_stake(self@.stakes, stake_id) ==> r == Ok::<Stake, MarketError>(
                self@.stakes[stake_index(self@.stakes, stake_id)],
            ),
            !has_stake(self@.stakes, stake_id) ==> r == Err::<Stake, MarketError>(
                MarketError::StakeNotFound,
            ),
    {
        match self.find_stake(stake_id) {
            Some(i) => Ok(self.stakes[i]),
            None => Err(MarketError::StakeNotFound),
        }
    }

    /// The stakes held on a market, in order of placement.
    pub fn get_market_stakes(&self, market_id: u64) -> (r: Vec<Stake>)
        ensures
            r@ == stakes_of(self@.stakes, market_id),
    {
        let n: usize = self.stakes.len();
        let mut out: Vec<Stake> = Vec::new();
        let mut i: usize = 0;
        while i < n
            invariant
                n == self.stakes@.len(),
                i <= n,
                out@ == stakes_of(self.stakes@.take(i as int), market_id),
            decreases n - i,
        {
            let stake = self.stakes[i];
            proof {
                let b = self.stakes@.take(i + 1);
                assert(b.drop_last() =~= self.stakes@.take(i as int));
                assert(b.last() == stake);
            }
            if stake.market_id == market_id {
                out.push(stake);
            }
            i += 1;
        }
        proof {
            assert(self.stakes@.take(n as int) =~= self.stakes@);
        }
        out
    }

    /// Cashes the stake `stake_id` out to its owner `user` before the
    /// market is settled, at the fee for early cash-out.
    ///
    /// Fails with `StakeNotFound` for an unknown stake, `Unauthorized`
    /// unless `user` owns it, `MarketNotFound` and `MarketNotLive` unless
    /// its market exists and is active, and `ArithmeticOverflow` if a
    /// quantity leaves the 128-bit range. A failed call changes nothing.
    pub fn cash_out(&mut self, user: u64, stake_id: u64) -> (r: Result<(), MarketError>)
        requires
            old(self).wf(),
        ensures
            final(self).wf(),
            match old(self)@.cash_out(user, stake_id) {
                Ok(v) => r is Ok && final(self)@ == v,
                Err(e) => r == Err::<(), MarketError>(e) && final(self)@ == old(self)@,
            },
    {
        let k: usize = match self.find_stake(stake_id) {
            Some(k) => k,
            None => {
                return Err(MarketError::StakeNotFound);
            },
        };
        let stake = self.stakes[k];
        if stake.staker != user {
            return Err(MarketError::Unauthorized);
        }
        let (i, m) = self.lookup(stake.market_id)?;
        if m.status != MarketStatus::Active {
            return Err(MarketError::MarketNotLive);
        }
        if stake.outcome > 2 {
            return Err(MarketError::InvalidOutcome);
        }
        let reserve: i128 = m.reserve_of(stake.outcome);
        let before: i128 = Self::cash_out_payout(stake.amount, reserve)?;
        let fee: i128 = mul_div(before, CASHOUT_FEE_PERCENT, 100)?;
        let after: i128 = checked_sub(before, fee)?;
        let shrunk: i128 = checked_sub(reserve, before)?;
        let liquidity: i128 = checked_sub(self.total_liquidity, after)?;
        proof {
            assert(self@.markets[i as int] == m);
            assert(self@.stakes[k as int] == stake);
            lemma_cash_out_bounds(stake.amount as int, reserve as int);
            let s = self@.stakes;
            let t = s.remove(k as int);
            assert forall|a: int| 0 <= a < t.len() implies (#[trigger] t[a]) == s[if a < k {
                a
            } else {
                a + 1
            }] by {}
        }
        self.balances.credit(user, after)?;
        let mut m = m;
        m.set_reserve(stake.outcome, shrunk);
        m.staker_count = if m.staker_count == 0 {
            0
        } else {
            m.staker_count - 1
        };
        self.total_liquidity = liquidity;
        self.stakes.remove(k);
        self.markets.set(i, m);
        Ok(())
    }
}


/// Whether a stake wins when `market_id` resolves to `outcome`.
pub open spec fn is_winner(stake: Stake, market_id: u64, outcome: u32) -> bool {
    stake.market_id == market_id && stake.outcome == outcome
}

/// The sum of the shares of the stakes that win when `market_id` resolves
/// to `outcome`.
pub open spec fn winning_total(s: Seq<Stake>, market_id: u64, outcome: u32) -> int
    decreases s.len(),
{
    if s.len() == 0 {
        0
    } else {
        winning_total(s.drop_last(), market_id, outcome) + if is_winner(
            s.last(),
            market_id,
            outcome,
        ) {
            s.last().amount as int
        } else {
            0
        }
    }
}

/// What a winning stake of `amount` shares is paid out of `total_payouts`:
/// `amount * total_payouts / total_winning`, and the amount itself if no
/// winning shares were counted.
pub open spec fn stake_payout_result(amount: int, total_payouts: int, total_winning: int)
    -> Result<i128, MarketError> {
    if total_winning > 0 {
        mul_div_result(amount, total_payouts, total_winning)
    } else if fits(amount) {
        Ok(amount as i128)
    } else {
        Err(MarketError::ArithmeticOverflow)
    }
}

/// Paying the winners among `s` in order: each is credited its payout,
/// which leaves the liquidity. Gives the balances and the liquidity that
/// result, or the first failure.
pub open spec fn pay_winners(
    balances: Map<u64, i128>,
    liquidity: i128,
    s: Seq<Stake>,
    market_id: u64,
    outcome: u32,
    total_payouts: i128,
    total_winning: i128,
) -> Result<(Map<u64, i128>, i128), MarketError>
    decreases s.len(),
{
    if s.len() == 0 {
        Ok((balances, liquidity))
    } else {
        match pay_winners(
            balances,
            liquidity,
            s.drop_last(),
            market_id,
            outcome,
            total_payouts,
            total_winning,
        ) {
            Err(e) => Err(e),
            Ok((b, l)) => pay_one(b, l, s.last(), market_id, outcome, total_payouts, total_winning),
        }
    }
}

/// Paying one stake if it wins; a stake that does not win changes nothing.
pub open spec fn pay_one(
    balances: Map<u64, i128>,
    liquidity: i128,
    stake: Stake,
    market_id: u64,
    outcome: u32,
    total_payouts: i128,
    total_winning: i128,
) -> Result<(Map<u64, i128>, i128), MarketError> {
    if !is_winner(stake, market_id, outcome) {
        Ok((balances, liquidity))
    } else {
        match stake_payout_result(
            stake.amount as int,
            total_payouts as int,
            total_winning as int,
        ) {
            Err(e) => Err(e),
            Ok(payout) => match credited(balances, stake.staker, payout as int) {
                Err(e) => Err(e),
                Ok(b) => if fits(liquidity - payout) {
                    Ok((b, (liquidity - payout) as i128))
                } else {
                    Err(MarketError::ArithmeticOverflow)
                },
            },
        }
    }
}

/// Paying a longer list of stakes fails as soon as paying a prefix of it
/// fails, and with the same error.
pub proof fn lemma_pay_prefix_fails(
    balances: Map<u64, i128>,
    liquidity: i128,
    s: Seq<Stake>,
    n: int,
    market_id: u64,
    outcome: u32,
    total_payouts: i128,
    total_winning: i128,
)
    requires
        0 <= n <= s.len(),
        pay_winners(
            balances,
            liquidity,
            s.take(n),
            market_id,
            outcome,
            total_payouts,
            total_winning,
        ) is Err,
    ensures
        pay_winners(balances, liquidity, s, market_id, outcome, total_payouts, total_winning)
            == pay_winners(
            balances,
            liquidity,
            s.take(n),
            market_id,
            outcome,
            total_payouts,
            total_winning,
        ),
    decreases s.len() - n,
{
    if n == s.len() {
        assert(s.take(n) =~= s);
    } else {
        assert(s.take(n + 1).drop_last() =~= s.take(n));
        lemma_pay_prefix_fails(
            balances,
            liquidity,
            s,
            n + 1,
            market_id,
            outcome,
            total_payouts,
            total_winning,
        );
    }
}

/// With no negative stake, the winning shares of a prefix are part of the
/// winning shares of the whole.
pub proof fn lemma_winning_prefix(s: Seq<Stake>, n: int, market_id: u64, outcome: u32)
    requires
        0 <= n <= s.len(),
        forall|i: int| 0 <= i < s.len() ==> (#[trigger] s[i]).amount >= 0,
    ensures
        0 <= winning_total(s.take(n), market_id, outcome) <= winning_total(s, market_id, outcome),
    decreases s.len() - n,
{
    if n == s.len() {
        assert(s.take(n) =~= s);
        lemma_winning_nonnegative(s, market_id, outcome);
    } else {
        lemma_winning_prefix(s, n + 1, market_id, outcome);
        assert(s.take(n + 1).drop_last() =~= s.take(n));
        assert(s.take(n + 1).last() == s[n]);
        let a = s.take(n);
        assert forall|i: int| 0 <= i < a.len() implies (#[trigger] a[i]).amount >= 0 by {
            assert(a[i] == s[i]);
        }
        lemma_winning_nonnegative(a, market_id, outcome);
    }
}

/// With no negative stake, the winning shares are not negative.
pub proof fn lemma_winning_nonnegative(s: Seq<Stake>, market_id: u64, outcome: u32)
    requires
        forall|i: int| 0 <= i < s.len() ==> (#[trigger] s[i]).amount >= 0,
    ensures
        0 <= winning_total(s, market_id, outcome),
    decreases s.len(),
{
    if s.len() > 0 {
        let d = s.drop_last();
        assert forall|i: int| 0 <= i < d.len() implies (#[trigger] d[i]).amount >= 0 by {
            assert(d[i] == s[i]);
        }
        lemma_winning_nonnegative(d, market_id, outcome);
        assert(s.last() == s[s.len() - 1]);
    }
}

/// The stakes placed on other markets are stakes of the list, in the
/// order of the list: identifiers that increase keep increasing, and what
/// holds of every stake's shares and identifier keeps holding.
pub proof fn lemma_stakes_elsewhere(s: Seq<Stake>, market_id: u64, counter: u64)
    requires
        forall|i: int|
            0 <= i < s.len() ==> (#[trigger] s[i]).amount >= 0 && s[i].id <= counter,
        forall|i: int, j: int| 0 <= i < j < s.len() ==> (#[trigger] s[i]).id < (#[trigger] s[j]).id,
    ensures
        ({
            let t = stakes_elsewhere(s, market_id);
            &&& t.len() <= s.len()
            &&& forall|i: int|
                0 <= i < t.len() ==> (#[trigger] t[i]).amount >= 0 && t[i].id <= counter
                    && t[i].market_id != market_id
            &&& forall|i: int, j: int|
                0 <= i < j < t.len() ==> (#[trigger] t[i]).id < (#[trigger] t[j]).id
            &&& s.len() > 0 ==> forall|i: int|
                0 <= i < t.len() ==> (#[trigger] t[i]).id <= s.last().id
        }),
    decreases s.len(),
{
    if s.len() > 0 {
        let d = s.drop_last();
        assert forall|i: int| 0 <= i < d.len() implies #[trigger] d[i] == s[i] by {}
        lemma_stakes_elsewhere(d, market_id, counter);
        let u = stakes_elsewhere(d, market_id);
        let t = stakes_elsewhere(s, market_id);
        assert(s.last() == s[s.len() - 1]);
        if d.len() > 0 {
            assert(d.last() == s[s.len() - 2]);
            assert(s[s.len() - 2].id < s[s.len() - 1].id);
        }
        assert forall|i: int| 0 <= i < u.len() implies (#[trigger] u[i]).id < s.last().id by {
            assert(d.len() > 0);
            assert(u[i].id <= d.last().id);
        }
        if s.last().market_id != market_id {
            assert(t == u.push(s.last()));
            assert forall|i: int| 0 <= i < u.len() implies #[trigger] t[i] == u[i] by {}
            assert(t[u.len() as int] == s.last());
        }
    }
}

impl ContractView {
    /// The administrator resolves a market to `outcome`. The winning
    /// stakes are paid the outcome's reserve in proportion to their
    /// shares; all stakes of the market are removed, its reserves emptied,
    /// and its status becomes `Settled`.
    pub open spec fn settle_market(self, admin: u64, market_id: u64, outcome: u32) -> Result<
        ContractView,
        MarketError,
    > {
        if self.require_admin(admin) is Err {
            Err(MarketError::Unauthorized)
        } else if outcome > 2 {
            Err(MarketError::InvalidOutcome)
        } else if !self.has_market(market_id) {
            Err(MarketError::MarketNotFound)
        } else {
            let m = self.market(market_id);
            let total_winning = winning_total(self.stakes, market_id, outcome);
            let total_payouts = m.reserve(outcome);
            if m.status == MarketStatus::Settled {
                Err(MarketError::AlreadySettled)
            } else if m.status != MarketStatus::Active {
                Err(MarketError::MarketNotLive)
            } else if !fits(total_winning) {
                Err(MarketError::ArithmeticOverflow)
            } else if self.total_liquidity < total_payouts {
                Err(MarketError::InsufficientLiquidity)
            } else {
                match pay_winners(
                    self.balances,
                    self.total_liquidity,
                    self.stakes,
                    market_id,
                    outcome,
                    total_payouts,
                    total_winning as i128,
                ) {
                    Err(e) => Err(e),
                    Ok((balances, liquidity)) => Ok(
                        ContractView {
                            balances,
                            total_liquidity: liquidity,
                            stakes: stakes_elsewhere(self.stakes, market_id),
                            markets: self.markets.update(
                                market_id - 1,
                                m.closed_as(MarketStatus::Settled),
                            ),
                            ..self
                        },
                    ),
                }
            }
        }
    }
}

impl PredictionMarketContract {
    fn count_winning(&self, market_id: u64, outcome: u32) -> (r: Result<i128, MarketError>)
        requires
            self.wf(),
        ensures
            fits(winning_total(self@.stakes, market_id, outcome)) ==> r == Ok::<
                i128,
                MarketError,
            >(winning_total(self@.stakes, market_id, outcome) as i128),
            !fits(winning_total(self@.stakes, market_id, outcome)) ==> r == Err::<
                i128,
                MarketError,
            >(MarketError::ArithmeticOverflow),
    {
        let n: usize = self.stakes.len();
        let mut total: i128 = 0;
        let mut i: usize = 0;
        while i < n
            invariant
                n == self.stakes@.len(),
                i <= n,
                self.wf(),
                total == winning_total(self.stakes@.take(i as int), market_id, outcome),
            decreases n - i,
        {
            let stake = self.stakes[i];
            proof {
                let b = self.stakes@.take(i + 1);
                assert(b.drop_last() =~= self.stakes@.take(i as int));
                assert(b.last() == stake);
                assert forall|k: int| 0 <= k < self.stakes@.len() implies (
                #[trigger] self.stakes@[k]).amount >= 0 by {
                    assert(self@.stakes[k].amount >= 0);
                }
                lemma_winning_prefix(self.stakes@, i + 1, market_id, outcome);
            }
            if stake.market_id == market_id && stake.outcome == outcome {
                total = checked_add(total, stake.amount)?;
            }
            i += 1;
        }
        proof {
            assert(self.stakes@.take(n as int) =~= self.stakes@);
        }
        Ok(total)
    }

    fn stake_payout(amount: i128, total_payouts: i128, total_winning: i128) -> (r: Result<
        i128,
        MarketError,
    >)
        ensures
            r == stake_payout_result(amount as int, total_payouts as int, total_winning as int),
    {
        if total_winning > 0 {
            mul_div(amount, total_payouts, total_winning)
        } else {
            Ok(amount)
        }
    }

    fn stakes_outside(&self, market_id: u64) -> (r: Vec<Stake>)
        ensures
            r@ == stakes_elsewhere(self@.stakes, market_id),
    {
        let n: usize = self.stakes.len();
        let mut out: Vec<Stake> = Vec::new();
        let mut i: usize = 0;
        while i < n
            invariant
                n == self.stakes@.len(),
                i <= n,
                out@ == stakes_elsewhere(self.stakes@.take(i as int), market_id),
            decreases n - i,
        {
            let stake = self.stakes[i];
            proof {
                let b = self.stakes@.take(i + 1);
                assert(b.drop_last() =~= self.stakes@.take(i as int));
                assert(b.last() == stake);
            }
            if stake.market_id != market_id {
                out.push(stake);
            }
            i += 1;
        }
        proof {
            assert(self.stakes@.take(n as int) =~= self.stakes@);
        }
        out
    }

    /// Resolves a market to `outcome` (0 home, 1 draw, 2 away) and pays
    /// the winning stakes the outcome's reserve in proportion to their
    /// shares.
    ///
    /// Fails with `Unauthorized` unless `admin` is the administrator,
    /// `InvalidOutcome` for an outcome above 2, `MarketNotFound` for an
    /// unknown market, `AlreadySettled` for a settled and `MarketNotLive`
    /// for an archived one, `InsufficientLiquidity` if the contract holds
    /// less than the reserve to pay, and `ArithmeticOverflow` if a
    /// quantity leaves the 128-bit range. A failed call changes nothing.
    pub fn settle_market(&mut self, admin: u64, market_id: u64, outcome: u32) -> (r: Result<
        (),
        MarketError,
    >)
        requires
            old(self).wf(),
        ensures
            final(self).wf(),
            match old(self)@.settle_market(admin, market_id, outcome) {
                Ok(v) => r is Ok && final(self)@ == v,
                Err(e) => r == Err::<(), MarketError>(e) && final(self)@ == old(self)@,
            },
            r is Ok ==> 0 <= old(self)@.total_liquidity - final(self)@.total_liquidity,
            r is Ok ==> old(self)@.total_liquidity - final(self)@.total_liquidity
                <= old(self)@.market(market_id).reserve(outcome),
    {
        proof {
            if old(self)@.settle_market(admin, market_id, outcome) is Ok {
                crate::theorems::lemma_settlement_conserves(old(self)@, admin, market_id, outcome);
            }
        }
        self.require_admin(admin)?;
        if outcome > 2 {
            return Err(MarketError::InvalidOutcome);
        }
        let (idx, m) = self.lookup(market_id)?;
        if m.status == MarketStatus::Settled {
            return Err(MarketError::AlreadySettled);
        }
        if m.status != MarketStatus::Active {
            return Err(MarketError::MarketNotLive);
        }
        let total_winning: i128 = self.count_winning(market_id, outcome)?;
        let total_payouts: i128 = m.reserve_of(outcome);
        if self.total_liquidity < total_payouts {
            return Err(MarketError::InsufficientLiquidity);
        }
        let mut balances = self.balances.copy();
        let mut liquidity: i128 = self.total_liquidity;
        let n: usize = self.stakes.len();
        let mut i: usize = 0;
        while i < n
            invariant
                n == self.stakes@.len(),
                i <= n,
                balances.wf(),
                self.wf(),
                *self == *old(self),
                self@.require_admin(admin) is Ok,
                outcome <= 2,
                self@.has_market(market_id),
                m == self@.market(market_id),
                m.status == MarketStatus::Active,
                total_winning == winning_total(self@.stakes, market_id, outcome),
                total_payouts == m.reserve(outcome),
                self.total_liquidity >= total_payouts,
                pay_winners(
                    self.balances@,
                    self.total_liquidity,
                    self.stakes@.take(i as int),
                    market_id,
                    outcome,
                    total_payouts,
                    total_winning,
                ) == Ok::<(Map<u64, i128>, i128), MarketError>((balances@, liquidity)),
            decreases n - i,
        {
            let stake = self.stakes[i];
            proof {
                let b = self.stakes@.take(i + 1);
                assert(b.drop_last() =~= self.stakes@.take(i as int));
                assert(b.last() == stake);
                if pay_winners(
                    self.balances@,
                    self.total_liquidity,
                    b,
                    market_id,
                    outcome,
                    total_payouts,
                    total_winning,
                ) is Err {
                    lemma_pay_prefix_fails(
                        self.balances@,
                        self.total_liquidity,
                        self.stakes@,
                        i + 1,
                        market_id,
                        outcome,
                        total_payouts,
                        total_winning,
                    );
                }
            }
            if stake.market_id == market_id && stake.outcome == outcome {
                let payout: i128 = Self::stake_payout(stake.amount, total_payouts, total_winning)?;
                let rest: i128 = checked_sub(liquidity, payout)?;
                balances.credit(stake.staker, payout)?;
                liquidity = rest;
            }
            i += 1;
        }
        let remaining = self.stakes_outside(market_id);
        proof {
            assert(self.stakes@.take(n as int) =~= self.stakes@);
            assert(self@.markets[idx as int] == m);
            lemma_stakes_elsewhere(self@.stakes, market_id, self@.stake_counter);
        }
        let mut m = m;
        m.reserve_home = 0;
        m.reserve_draw = 0;
        m.reserve_away = 0;
        m.status = MarketStatus::Settled;
        self.balances = balances;
        self.total_liquidity = liquidity;
        self.stakes = remaining;
        self.markets.set(idx, m);
        Ok(())
    }
}


/// The state of the contract as plain values, to be stored and brought
/// back.
#[derive(Debug, PartialEq, Eq)]
pub struct ContractSnapshot {
    /// The administrator, once the contract is initialized.
    pub admin: Option<u64>,
    /// The number of markets created.
    pub market_counter: u64,
    /// The number of stakes ever placed.
    pub stake_counter: u64,
    /// The value the contract holds.
    pub total_liquidity: i128,
    /// The markets, in order of creation.
    pub markets: Vec<Market>,
    /// The stakes that are held, in order of placement.
    pub stakes: Vec<Stake>,
    /// One entry per user that has a balance.
    pub balances: Vec<Entry>,
    /// One entry per liquidity provider.
    pub lp_balances: Vec<Entry>,
}

/// The numbers of a list of markets.
pub open spec fn market_data(markets: Seq<Market>) -> Seq<MarketData> {
    Seq::new(markets.len(), |i: int| markets[i].data())
}

/// The titles of a list of markets.
pub open spec fn market_titles(markets: Seq<Market>) -> Seq<Seq<char>> {
    Seq::new(markets.len(), |i: int| markets[i].title@)
}

impl View for ContractSnapshot {
    type V = ContractView;

    open spec fn view(&self) -> ContractView {
        ContractView {
            admin: self.admin,
            market_counter: self.market_counter,
            stake_counter: self.stake_counter,
            total_liquidity: self.total_liquidity,
            markets: market_data(self.markets@),
            titles: market_titles(self.markets@),
            stakes: self.stakes@,
            balances: entries_map(self.balances@),
            lp_balances: entries_map(self.lp_balances@),
        }
    }
}

impl ContractSnapshot {
    /// Whether a stored state can be brought back: it meets the contract's
    /// invariant and lists no account twice.
    pub open spec fn restorable(&self) -> bool {
        &&& self@.wf()
        &&& entries_distinct(self.balances@)
        &&& entries_distinct(self.lp_balances@)
    }
}

impl PredictionMarketContract {
    fn report(m: MarketData, title: &String) -> (r: Market)
        ensures
            r.data() == m,
            r.title@ == title@,
    {
        Market {
            id: m.id,
            title: title.clone(),
            start_time: m.start_time,
            odds_home: m.odds_home,
            odds_draw: m.odds_draw,
            odds_away: m.odds_away,
            status: m.status,
            staker_count: m.staker_count,
            reserve_home: m.reserve_home,
            reserve_draw: m.reserve_draw,
            reserve_away: m.reserve_away,
        }
    }

    fn numbers(m: &Market) -> (r: MarketData)
        ensures
            r == m.data(),
    {
        MarketData {
            id: m.id,
            start_time: m.start_time,
            odds_home: m.odds_home,
            odds_draw: m.odds_draw,
            odds_away: m.odds_away,
            status: m.status,
            staker_count: m.staker_count,
            reserve_home: m.reserve_home,
            reserve_draw: m.reserve_draw,
            reserve_away: m.reserve_away,
        }
    }

    fn copy_stakes(stakes: &Vec<Stake>) -> (r: Vec<Stake>)
        ensures
            r@ == stakes@,
    {
        let n: usize = stakes.len();
        let mut out: Vec<Stake> = Vec::new();
        let mut i: usize = 0;
        while i < n
            invariant
                n == stakes@.len(),
                i <= n,
                out@ == stakes@.take(i as int),
            decreases n - i,
        {
            out.push(stakes[i]);
            proof {
                assert(stakes@.take(i + 1) =~= stakes@.take(i as int).push(stakes@[i as int]));
            }
            i += 1;
        }
        proof {
            assert(stakes@.take(n as int) =~= stakes@);
        }
        out
    }

    /// The contract's state as plain values.
    pub fn snapshot(&self) -> (r: ContractSnapshot)
        requires
            self.wf(),
        ensures
            r@ == self@,
            r.restorable(),
    {
        let n: usize = self.markets.len();
        let mut markets: Vec<Market> = Vec::new();
        let mut i: usize = 0;
        while i < n
            invariant
                n == self.markets@.len(),
                n == self.titles@.len(),
                i <= n,
                markets@.len() == i,
                forall|k: int|
                    0 <= k < i ==> (#[trigger] markets@[k]).data() == self.markets@[k]
                        && markets@[k].title@ == self.titles@[k]@,
            decreases n - i,
        {
            let m = Self::report(self.markets[i], &self.titles[i]);
            markets.push(m);
            i += 1;
        }
        let r = ContractSnapshot {
            admin: self.admin,
            market_counter: self.market_counter,
            stake_counter: self.stake_counter,
            total_liquidity: self.total_liquidity,
            markets,
            stakes: Self::copy_stakes(&self.stakes),
            balances: self.balances.entries(),
            lp_balances: self.lp_balances.entries(),
        };
        proof {
            assert(market_data(r.markets@) =~= self.markets@);
            assert(market_titles(r.markets@) =~= title_views(self.titles@));
        }
        r
    }

    /// The contract that a stored state describes, if the state can be
    /// brought back.
    pub fn restore(s: ContractSnapshot) -> (r: Option<Self>)
        ensures
            s.restorable() ==> r is Some && r->Some_0@ == s@ && r->Some_0.wf(),
            !s.restorable() ==> r is None,
    {
        let ghost v = s@;
        let ContractSnapshot {
            admin,
            market_counter,
            stake_counter,
            total_liquidity,
            markets,
            stakes,
            balances,
            lp_balances,
        } = s;
        let n: usize = markets.len();
        if n as u64 != market_counter {
            return None;
        }
        let mut data: Vec<MarketData> = Vec::new();
        let mut titles: Vec<String> = Vec::new();
        let mut i: usize = 0;
        while i < n
            invariant
                n == markets@.len(),
                i <= n,
                data@.len() == i,
                titles@.len() == i,
                s@ == v,
                v.markets == market_data(markets@),
                v.market_counter == n,
                forall|k: int|
                    0 <= k < i ==> (#[trigger] data@[k]) == markets@[k].data() && data@[k].id == k
                        + 1 && data@[k].reserve_home >= 0 && data@[k].reserve_draw >= 0
                        && data@[k].reserve_away >= 0,
                forall|k: int| 0 <= k < i ==> (#[trigger] titles@[k])@ == markets@[k].title@,
            decreases n - i,
        {
            let m = Self::numbers(&markets[i]);
            if m.id != (i as u64) + 1 || m.reserve_home < 0 || m.reserve_draw < 0
                || m.reserve_away < 0 {
                proof {
                    assert(v.markets[i as int] == m);
                }
                return None;
            }
            data.push(m);
            titles.push(markets[i].title.clone());
            i += 1;
        }
        let k: usize = stakes.len();
        let mut j: usize = 0;
        while j < k
            invariant
                k == stakes@.len(),
                j <= k,
                s@ == v,
                v.stakes == stakes@,
                v.stake_counter == stake_counter,
                forall|a: int|
                    0 <= a < j ==> (#[trigger] stakes@[a]).amount >= 0 && stakes@[a].id
                        <= stake_counter,
                forall|a: int, b: int|
                    0 <= a < b < j ==> (#[trigger] stakes@[a]).id < (#[trigger] stakes@[b]).id,
            decreases k - j,
        {
            let stake = stakes[j];
            if stake.amount < 0 || stake.id > stake_counter {
                return None;
            }
            if j > 0 {
                if stakes[j - 1].id >= stake.id {
                    proof {
                        assert(stakes@[j - 1].id >= stakes@[j as int].id);
                    }
                    return None;
                }
                proof {
                    assert forall|a: int| 0 <= a < j implies (#[trigger] stakes@[a]).id
                        < stake.id by {
                        if a < j - 1 {
                            assert(stakes@[a].id < stakes@[j - 1].id);
                        }
                    }
                }
            }
            j += 1;
        }
        let balances = match Balances::from_entries(balances) {
            Some(b) => b,
            None => {
                return None;
            },
        };
        let lp_balances = match Balances::from_entries(lp_balances) {
            Some(b) => b,
            None => {
                return None;
            },
        };
        let c = PredictionMarketContract {
            admin,
            market_counter,
            stake_counter,
            total_liquidity,
            markets: data,
            titles,
            stakes,
            balances,
            lp_balances,
        };
        proof {
            assert(c@.markets =~= v.markets);
            assert(c@.titles =~= v.titles);
            assert(c@ == v);
        }
        Some(c)
    }
}

} // verus!
