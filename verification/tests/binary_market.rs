use prediction_market::fixed_point::MarketError;
use prediction_market::fixed_point::SCALE;
use prediction_market::soromarket::Outcome;
use prediction_market::soromarket::SoroMarket;
use std::collections::HashMap;

const ORACLE: u64 = 1;
const TOKEN: u64 = 2;
const BETTOR1: u64 = 11;
const BETTOR2: u64 = 12;
const BETTOR3: u64 = 13;
const BETTOR4: u64 = 14;

/// A market together with the token balances of its users, moved the way
/// a host would move them around the market's calls.
struct Harness {
    market: SoroMarket,
    wallet: HashMap<u64, i128>,
}

impl Harness {
    fn balance(&self, user: u64) -> i128 {
        *self.wallet.get(&user).unwrap_or(&0)
    }

    fn mint(&mut self, user: u64, amount: i128) {
        *self.wallet.entry(user).or_insert(0) += amount;
    }

    fn buy(&mut self, user: u64, amount: i128, side: bool) -> Result<i128, MarketError> {
        let shares = self.market.buy(user, amount, side)?;
        *self.wallet.entry(user).or_insert(0) -= amount;
        Ok(shares)
    }

    fn sell(&mut self, user: u64, shares: i128, side: bool) -> Result<i128, MarketError> {
        let payout = self.market.sell(user, shares, side)?;
        *self.wallet.entry(user).or_insert(0) += payout;
        Ok(payout)
    }

    fn claim(&mut self, user: u64) -> Result<i128, MarketError> {
        let winnings = self.market.claim(user)?;
        if winnings > 0 {
            *self.wallet.entry(user).or_insert(0) += winnings;
        }
        Ok(winnings)
    }
}

fn setup() -> Harness {
    let mut market = SoroMarket::new();
    let owed = market
        .setup(
            ORACLE,
            TOKEN,
            String::from("James Will Be Next President Of The USA"),
            1000,
        )
        .unwrap();
    assert_eq!(owed, 2000);
    let mut h = Harness { market, wallet: HashMap::new() };
    h.mint(BETTOR1, 1_000);
    h.mint(BETTOR2, 1_000);
    h
}

#[test]
fn test_setup_stores_values() {
    let h = setup();
    assert_eq!(h.market.get_oracle(), Some(ORACLE));
    assert_eq!(h.market.get_token(), Some(TOKEN));
    assert_eq!(h.market.get_market_state(), Outcome::Undecided);
    assert_eq!(
        h.market.get_market_description(),
        String::from("James Will Be Next President Of The USA")
    );
    assert_eq!(h.market.get_deposits(), (1000, 1000));
}

#[test]
fn test_buy_updates_reserves() {
    let mut h = setup();
    h.buy(BETTOR1, 100, true).unwrap();
    let (true_reserve_after_first, false_reserve_after_first) = h.market.get_reserves();
    assert_eq!(true_reserve_after_first, 1100);
    assert!(false_reserve_after_first < 1000);
    assert_eq!(false_reserve_after_first, 909);

    h.buy(BETTOR2, 200, false).unwrap();
    let (true_reserve_final, false_reserve_final) = h.market.get_reserves();
    assert_eq!(false_reserve_final, false_reserve_after_first + 200);
    assert!(true_reserve_final < true_reserve_after_first);
}

#[test]
fn test_buy_after_settle_panics() {
    let mut h = setup();
    h.market.settle(ORACLE, true).unwrap();
    assert_eq!(h.buy(BETTOR1, 10, true), Err(MarketError::MarketNotLive));
}

#[test]
fn test_zero_buy_amount_panics() {
    let mut h = setup();
    assert_eq!(h.buy(BETTOR1, 0, true), Err(MarketError::InvalidAmount));
    assert_eq!(h.buy(BETTOR1, -5, true), Err(MarketError::InvalidAmount));
    assert_eq!(h.market.get_market_info(), (1000, 1000, 0));
}

#[test]
fn test_unauthorized_settle_panics() {
    let mut h = setup();
    assert_eq!(h.market.settle(BETTOR1, false), Err(MarketError::Unauthorized));
    assert_eq!(h.market.get_market_state(), Outcome::Undecided);
}

#[test]
fn test_claim_before_settle_noop() {
    let mut h = setup();
    h.buy(BETTOR1, 100, true).unwrap();
    let before = h.balance(BETTOR1);
    let shares_before = h.market.get_user_shares(BETTOR1);
    assert_eq!(h.claim(BETTOR1), Ok(0));
    let after = h.balance(BETTOR1);
    assert_eq!(before, after);
    assert_eq!(h.market.get_user_shares(BETTOR1), shares_before);
    assert!(!h.market.has_claimed(BETTOR1));
}

#[test]
fn test_claim_winners_and_payouts() {
    let mut h = setup();
    h.buy(BETTOR1, 100, true).unwrap();
    h.buy(BETTOR2, 100, false).unwrap();
    h.market.settle(ORACLE, true).unwrap();
    let before1 = h.balance(BETTOR1);
    let before2 = h.balance(BETTOR2);
    h.claim(BETTOR1).unwrap();
    h.claim(BETTOR2).unwrap();
    let after1 = h.balance(BETTOR1);
    let after2 = h.balance(BETTOR2);
    assert!(after1 > before1);
    assert_eq!(after2, before2);
}

#[test]
fn test_double_claim_panics() {
    let mut h = setup();
    h.buy(BETTOR1, 100, true).unwrap();
    h.market.settle(ORACLE, true).unwrap();
    h.claim(BETTOR1).unwrap();
    assert_eq!(h.claim(BETTOR1), Err(MarketError::AlreadyClaimed));
}

#[test]
fn multiple_bettors_correct_payouts() {
    let mut h = setup();
    h.mint(BETTOR3, 1_000);
    h.mint(BETTOR4, 1_000);
    h.buy(BETTOR1, 100, true).unwrap();
    h.buy(BETTOR2, 200, true).unwrap();
    h.buy(BETTOR3, 50, false).unwrap();
    h.buy(BETTOR4, 100, false).unwrap();
    let user1_shares = h.market.get_user_shares(BETTOR1).0;
    let user2_shares = h.market.get_user_shares(BETTOR2).0;
    let (true_deposits, false_deposits) = h.market.get_deposits();
    let pool = true_deposits + false_deposits;
    assert_eq!(pool, 2450);
    h.market.settle(ORACLE, true).unwrap();
    let before1 = h.balance(BETTOR1);
    let before2 = h.balance(BETTOR2);
    let before3 = h.balance(BETTOR3);
    let before4 = h.balance(BETTOR4);
    h.claim(BETTOR1).unwrap();
    h.claim(BETTOR2).unwrap();
    h.claim(BETTOR3).unwrap();
    h.claim(BETTOR4).unwrap();
    let after1 = h.balance(BETTOR1);
    let after2 = h.balance(BETTOR2);
    let after3 = h.balance(BETTOR3);
    let after4 = h.balance(BETTOR4);
    let winning = user1_shares + user2_shares;
    assert_eq!(after1 - before1, pool * user1_shares / winning);
    assert_eq!(after2 - before2, pool * user2_shares / winning);
    assert_eq!(after3, before3);
    assert_eq!(after4, before4);
    assert!((after1 - before1) + (after2 - before2) <= pool);
    assert_eq!(h.market.get_paid_out(), (after1 - before1) + (after2 - before2));
}

#[test]
fn test_initial_probabilities() {
    let h = setup();
    let probabilities = h.market.get_current_probabilities().unwrap();
    assert_eq!(probabilities, (SCALE / 2, SCALE / 2));
}

#[test]
fn test_amm_initial_market_reserves() {
    let mut h = setup();
    let market_info = h.market.get_market_info();
    assert_eq!(market_info, (1000, 1000, 0));
    h.buy(BETTOR1, 100, true).unwrap();
    let market_info = h.market.get_market_info();
    assert_eq!(market_info.0, 1100);
    assert!(market_info.1 < 1000);
    assert_eq!(market_info.2, 100);
}

#[test]
fn test_balanced_market_probabilities() {
    let mut h = setup();
    h.buy(BETTOR1, 100, true).unwrap();
    h.buy(BETTOR2, 100, false).unwrap();
    let probabilities = h.market.get_current_probabilities().unwrap();
    assert!((probabilities.0 + probabilities.1 - SCALE).abs() <= 1);
    assert!(probabilities.0 >= SCALE / 4);
    assert!(probabilities.0 <= 3 * SCALE / 4);
    assert!(probabilities.1 >= SCALE / 4);
    assert!(probabilities.1 <= 3 * SCALE / 4);
}

#[test]
fn test_imbalanced_market_probabilities() {
    let mut h = setup();
    h.buy(BETTOR1, 300, true).unwrap();
    h.buy(BETTOR2, 100, false).unwrap();
    let probabilities = h.market.get_current_probabilities().unwrap();
    assert!(probabilities.0 > probabilities.1);
}

#[test]
fn test_amm_progressive_pricing() {
    let mut h = setup();
    h.buy(BETTOR1, 100, true).unwrap();
    let shares_first_100 = h.market.get_user_shares(BETTOR1).0;
    h.buy(BETTOR2, 100, true).unwrap();
    let shares_second_100 = h.market.get_user_shares(BETTOR2).0;
    assert!(shares_first_100 > shares_second_100);
}

#[test]
fn test_constant_product_invariant() {
    let mut h = setup();
    let initial_k = h.market.get_constant_product().unwrap();
    h.buy(BETTOR1, 100, true).unwrap();
    let after_buy_k = h.market.get_constant_product().unwrap();
    let diff =
        if initial_k > after_buy_k { initial_k - after_buy_k } else { after_buy_k - initial_k };
    assert!(
        diff <= 1000,
        "Constant product changed by more than tolerance: {} vs {}",
        initial_k,
        after_buy_k
    );
    assert!(after_buy_k <= initial_k);
}

#[test]
fn test_initial_market_equal_pricing() {
    let h = setup();
    let shares_true = h.market.get_buy_price(100, true).unwrap();
    let shares_false = h.market.get_buy_price(100, false).unwrap();
    assert_eq!(shares_true, shares_false);
    assert_eq!(shares_true, 91);
}

#[test]
fn test_minority_advantage_pricing() {
    let mut h = setup();
    h.buy(BETTOR1, 400, true).unwrap();
    let shares_true = h.market.get_buy_price(100, true).unwrap();
    let shares_false = h.market.get_buy_price(100, false).unwrap();
    assert!(shares_false > shares_true);
}

#[test]
fn test_sell_functionality() {
    let mut h = setup();
    h.buy(BETTOR1, 100, true).unwrap();
    let shares = h.market.get_user_shares(BETTOR1).0;
    let initial_balance = h.balance(BETTOR1);
    let shares_to_sell = shares / 2;
    h.sell(BETTOR1, shares_to_sell, true).unwrap();
    let final_balance = h.balance(BETTOR1);
    let remaining_shares = h.market.get_user_shares(BETTOR1).0;
    assert!(final_balance > initial_balance);
    assert_eq!(remaining_shares, shares - shares_to_sell);
}

#[test]
fn setup_twice_is_refused() {
    let mut h = setup();
    assert_eq!(
        h.market.setup(ORACLE, TOKEN, String::from("again"), 500),
        Err(MarketError::AlreadySetup)
    );
    assert_eq!(h.market.get_reserves(), (1000, 1000));
}

#[test]
fn setup_needs_a_positive_reserve_that_doubles() {
    let mut m = SoroMarket::new();
    assert_eq!(m.setup(ORACLE, TOKEN, String::new(), 0), Err(MarketError::InvalidAmount));
    assert_eq!(m.setup(ORACLE, TOKEN, String::new(), -1), Err(MarketError::InvalidAmount));
    assert_eq!(
        m.setup(ORACLE, TOKEN, String::new(), i128::MAX),
        Err(MarketError::ArithmeticOverflow)
    );
    assert_eq!(m.get_oracle(), None);
    assert_eq!(m.get_token(), None);
    assert_eq!(m.setup(ORACLE, TOKEN, String::new(), 7), Ok(14));
}

#[test]
fn trading_before_setup_is_refused() {
    let mut m = SoroMarket::new();
    assert_eq!(m.buy(BETTOR1, 10, true), Err(MarketError::MarketNotLive));
    assert_eq!(m.sell(BETTOR1, 10, true), Err(MarketError::MarketNotLive));
    assert_eq!(m.settle(ORACLE, true), Err(MarketError::Unauthorized));
    assert_eq!(m.claim(BETTOR1), Ok(0));
}

#[test]
fn settle_twice_is_refused() {
    let mut h = setup();
    assert_eq!(h.market.settle(ORACLE, false), Ok(()));
    assert_eq!(h.market.get_market_state(), Outcome::FalseOutcome);
    assert_eq!(h.market.settle(ORACLE, true), Err(MarketError::AlreadySettled));
    assert_eq!(h.market.settle(ORACLE, false), Err(MarketError::AlreadySettled));
    assert_eq!(h.market.get_market_state(), Outcome::FalseOutcome);
}

#[test]
fn selling_more_than_held_is_refused() {
    let mut h = setup();
    let shares = h.buy(BETTOR1, 100, true).unwrap();
    assert_eq!(shares, 91);
    assert_eq!(h.sell(BETTOR1, shares + 1, true), Err(MarketError::NotEnoughShares));
    assert_eq!(h.sell(BETTOR1, 1, false), Err(MarketError::NotEnoughShares));
    assert_eq!(h.sell(BETTOR2, 1, true), Err(MarketError::NotEnoughShares));
    assert_eq!(h.sell(BETTOR1, 0, true), Err(MarketError::InvalidAmount));
    assert_eq!(h.market.get_user_shares(BETTOR1), (91, 0));
    assert_eq!(h.market.get_reserves(), (1100, 909));
}

#[test]
fn sell_moves_reserves_deposits_and_volume() {
    let mut h = setup();
    h.buy(BETTOR1, 100, true).unwrap();
    // reserves (1100, 909), k = 999900; selling 91 true shares:
    // false reserve 1000, true reserve 999900 / 1000 = 999, payout 101.
    assert_eq!(h.market.get_sell_price(91, true), Ok(101));
    assert_eq!(h.sell(BETTOR1, 91, true), Ok(101));
    assert_eq!(h.market.get_reserves(), (999, 1000));
    assert_eq!(h.market.get_deposits(), (999, 1000));
    assert_eq!(h.market.get_market_info().2, 201);
    assert_eq!(h.market.get_user_shares(BETTOR1), (0, 0));
}

#[test]
fn buy_that_overflows_is_refused_and_changes_nothing() {
    let mut m = SoroMarket::new();
    let big: i128 = 1 << 100;
    m.setup(ORACLE, TOKEN, String::new(), big).unwrap();
    assert_eq!(m.buy(BETTOR1, 5, true), Err(MarketError::ArithmeticOverflow));
    assert_eq!(m.get_buy_price(5, true), Err(MarketError::ArithmeticOverflow));
    assert_eq!(m.get_constant_product(), Err(MarketError::ArithmeticOverflow));
    assert_eq!(m.get_market_info(), (big, big, 0));
}

#[test]
fn buy_that_would_drain_the_reserve_is_refused() {
    let mut m = SoroMarket::new();
    m.setup(ORACLE, TOKEN, String::new(), 1).unwrap();
    // k = 1; a buy of 1 leaves 1 / 2 = 0 in the opposite reserve.
    assert_eq!(m.buy(BETTOR1, 1, true), Err(MarketError::ReserveWouldBeZero));
    assert_eq!(m.get_reserves(), (1, 1));
}

#[test]
fn claims_are_paid_in_proportion_and_conserve_the_pool() {
    let mut h = setup();
    h.mint(BETTOR3, 1_000);
    h.buy(BETTOR1, 100, false).unwrap();
    h.buy(BETTOR2, 300, false).unwrap();
    h.buy(BETTOR3, 500, true).unwrap();
    let s1 = h.market.get_user_shares(BETTOR1).1;
    let s2 = h.market.get_user_shares(BETTOR2).1;
    let (t, f) = h.market.get_deposits();
    let pool = t + f;
    h.market.settle(ORACLE, false).unwrap();
    let w2 = h.claim(BETTOR2).unwrap();
    let w3 = h.claim(BETTOR3).unwrap();
    let w1 = h.claim(BETTOR1).unwrap();
    assert_eq!(w1, pool * s1 / (s1 + s2));
    assert_eq!(w2, pool * s2 / (s1 + s2));
    assert_eq!(w3, 0);
    assert!(w1 + w2 + w3 <= pool);
    assert_eq!(h.market.get_paid_out(), w1 + w2);
    assert_eq!(h.market.get_user_shares(BETTOR1), (0, 0));
    assert_eq!(h.market.get_user_shares(BETTOR3), (0, 0));
    assert!(h.market.has_claimed(BETTOR3));
    assert_eq!(h.claim(BETTOR3), Err(MarketError::AlreadyClaimed));
}

#[test]
fn product_never_grows_over_many_trades() {
    let mut h = setup();
    h.mint(BETTOR1, 100_000);
    let k0 = h.market.get_constant_product().unwrap();
    let mut last = k0;
    let mut i: i128 = 1;
    while i <= 40 {
        let side = i % 3 == 0;
        if i % 4 == 0 {
            let held = h.market.get_user_shares(BETTOR1);
            let have = if side { held.0 } else { held.1 };
            if have > 1 {
                let before = h.market.get_reserves();
                if h.sell(BETTOR1, have / 2, side).is_err() {
                    assert_eq!(h.market.get_reserves(), before);
                }
            }
        } else {
            h.buy(BETTOR1, 7 * i, side).unwrap();
        }
        let k = h.market.get_constant_product().unwrap();
        assert!(k > 0);
        assert!(k <= last);
        let (rt, rf) = h.market.get_reserves();
        assert!(last - k < rt.max(rf));
        last = k;
        i += 1;
    }
    assert!(last <= k0);
}

#[test]
fn trade_buys_for_positive_and_sells_for_negative_amounts() {
    let mut h = setup();
    assert_eq!(h.market.trade(BETTOR1, 100, true), Ok(91));
    assert_eq!(h.market.get_reserves(), (1100, 909));
    assert_eq!(h.market.trade(BETTOR1, -91, true), Ok(101));
    assert_eq!(h.market.get_reserves(), (999, 1000));
    assert_eq!(h.market.trade(BETTOR1, 0, true), Err(MarketError::InvalidAmount));
    assert_eq!(h.market.trade(BETTOR1, -1, true), Err(MarketError::NotEnoughShares));
    assert_eq!(h.market.trade(BETTOR1, i128::MIN, true), Err(MarketError::ArithmeticOverflow));
    h.market.settle(ORACLE, true).unwrap();
    assert_eq!(h.market.trade(BETTOR1, 5, true), Err(MarketError::MarketNotLive));
    assert_eq!(h.market.trade(BETTOR1, 0, true), Err(MarketError::MarketNotLive));
}

fn weighted(liquidity_parameter: i128) -> SoroMarket {
    let mut m = SoroMarket::new();
    assert_eq!(m.get_liquidity_parameter(), None);
    m.setup_weighted(ORACLE, TOKEN, String::from("Weighted"), liquidity_parameter).unwrap();
    assert_eq!(m.get_liquidity_parameter(), Some(liquidity_parameter));
    m
}

#[test]
fn weighted_setup_checks_its_parameter() {
    let mut m = SoroMarket::new();
    assert_eq!(m.setup_weighted(ORACLE, TOKEN, String::new(), -1), Err(MarketError::InvalidAmount));
    assert_eq!(
        m.setup_weighted(ORACLE, TOKEN, String::new(), SCALE + 1),
        Err(MarketError::InvalidAmount)
    );
    assert_eq!(m.setup_weighted(ORACLE, TOKEN, String::new(), SCALE), Ok(()));
    assert_eq!(m.setup_weighted(ORACLE, TOKEN, String::new(), 0), Err(MarketError::AlreadySetup));
    assert_eq!(m.setup(ORACLE, TOKEN, String::new(), 5), Err(MarketError::AlreadySetup));
    assert_eq!(m.get_market_info(), (0, 0, 0));
}

#[test]
fn weighted_market_prices_an_empty_market_one_for_one() {
    let m = weighted(200_000);
    assert_eq!(m.get_buy_price(100, true), m.get_buy_price(100, false));
    assert_eq!(m.get_buy_price(100, true), Ok(100));
    assert_eq!(m.get_sell_price(100, true), Ok(100));
    assert_eq!(m.get_buy_price(0, true), Err(MarketError::InvalidAmount));
    assert_eq!(m.get_current_probabilities(), Ok((500_000, 500_000)));
}

#[test]
fn weighted_market_trades_settles_and_pays() {
    let mut m = weighted(200_000);
    assert_eq!(m.buy(BETTOR1, 100, true), Ok(100));
    assert_eq!(m.buy(BETTOR2, 300, false), Ok(1500));
    assert_eq!(m.get_reserves(), (100, 1500));
    assert_eq!(m.get_deposits(), (100, 300));
    assert_eq!(m.get_market_info().2, 400);
    assert_eq!(m.get_current_probabilities(), Ok((62_500, 937_500)));
    // The true side is priced at 250_000: 50 buy 200 shares, 200 shares
    // are worth 50.
    assert_eq!(m.get_buy_price(50, true), Ok(200));
    assert_eq!(m.get_sell_price(200, true), Ok(50));
    // A payout of 20 retires 80 shares.
    assert_eq!(m.sell(BETTOR1, 20, true), Ok(20));
    assert_eq!(m.get_user_shares(BETTOR1), (20, 0));
    assert_eq!(m.get_reserves(), (20, 1500));
    assert_eq!(m.get_deposits(), (80, 300));
    assert_eq!(m.get_market_info().2, 420);
    assert_eq!(m.sell(BETTOR1, 50, true), Err(MarketError::InsufficientShares));
    assert_eq!(m.sell(BETTOR2, 301, false), Err(MarketError::InsufficientLiquidity));
    assert_eq!(m.sell(BETTOR2, 0, false), Err(MarketError::InvalidAmount));
    assert_eq!(m.trade(BETTOR2, -30, false), Ok(30));
    assert_eq!(m.get_deposits(), (80, 270));

    m.settle(ORACLE, true).unwrap();
    assert_eq!(m.buy(BETTOR1, 1, true), Err(MarketError::MarketNotLive));
    // The pool of 350 goes to the holder of all 20 winning shares.
    assert_eq!(m.claim(BETTOR2), Ok(0));
    assert_eq!(m.claim(BETTOR1), Ok(350));
    assert_eq!(m.claim(BETTOR1), Err(MarketError::AlreadyClaimed));
    assert_eq!(m.get_paid_out(), 350);
}

#[test]
fn weighted_market_comes_back_from_its_snapshot() {
    let mut m = weighted(SCALE);
    m.buy(BETTOR1, 100, true).unwrap();
    let s = m.snapshot();
    assert_eq!(s.liquidity, Some(SCALE));
    let back = SoroMarket::restore(s).unwrap();
    assert_eq!(back.get_liquidity_parameter(), Some(SCALE));
    assert_eq!(back.get_user_shares(BETTOR1), (100, 0));
    let mut s = m.snapshot();
    s.liquidity = Some(SCALE + 1);
    assert!(SoroMarket::restore(s).is_none());
    let mut s = SoroMarket::new().snapshot();
    s.liquidity = Some(5);
    assert!(SoroMarket::restore(s).is_none());
}
