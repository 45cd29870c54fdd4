use prediction_market::balances::Balances;
use prediction_market::balances::Entry;
use prediction_market::fixed_point::MarketError;
use prediction_market::fixed_point::SCALE;
use prediction_market::ledger::Position;
use prediction_market::ledger::PositionLedger;
use prediction_market::lsmr::LsmrPool;
use prediction_market::prediction::ContractSnapshot;
use prediction_market::prediction::PredictionMarketContract;
use prediction_market::soromarket::MarketSnapshot;
use prediction_market::soromarket::Outcome;
use prediction_market::soromarket::SoroMarket;

fn traded_market() -> SoroMarket {
    let mut m = SoroMarket::new();
    m.setup(1, 2, String::from("Rain tomorrow"), 1000).unwrap();
    m.buy(11, 100, true).unwrap();
    m.buy(12, 200, false).unwrap();
    m
}

#[test]
fn market_snapshot_round_trip() {
    let m = traded_market();
    let s = m.snapshot();
    assert_eq!(s.positions.len(), 2);
    assert_eq!(
        s.positions[0],
        Position { account: 11, true_shares: 91, false_shares: 0, claimed: false }
    );
    assert_eq!(s.description, String::from("Rain tomorrow"));
    let back = SoroMarket::restore(s).unwrap();
    assert_eq!(back.snapshot(), m.snapshot());
    assert_eq!(back.get_reserves(), m.get_reserves());
    assert_eq!(back.get_user_shares(12), m.get_user_shares(12));
}

#[test]
fn market_snapshot_round_trip_after_claims() {
    let mut m = traded_market();
    m.settle(1, true).unwrap();
    let w = m.claim(11).unwrap();
    assert_eq!(w, 2300);
    let mut back = SoroMarket::restore(m.snapshot()).unwrap();
    assert_eq!(back.get_paid_out(), 2300);
    assert_eq!(back.claim(11), Err(MarketError::AlreadyClaimed));
    assert_eq!(back.claim(12), Ok(0));
    assert_eq!(back.get_market_state(), Outcome::TrueOutcome);
}

#[test]
fn market_restore_refuses_broken_states() {
    let good = || traded_market().snapshot();

    let mut s = good();
    s.positions.push(Position { account: 11, true_shares: 1, false_shares: 0, claimed: false });
    assert!(SoroMarket::restore(s).is_none());

    let mut s = good();
    s.positions[0].false_shares = -1;
    assert!(SoroMarket::restore(s).is_none());

    let mut s = good();
    s.true_reserve = 0;
    assert!(SoroMarket::restore(s).is_none());

    let mut s = good();
    s.true_deposits = -5;
    assert!(SoroMarket::restore(s).is_none());

    let mut s = good();
    s.paid_out = 1;
    assert!(SoroMarket::restore(s).is_none());

    let mut s = good();
    s.configured = false;
    assert!(SoroMarket::restore(s).is_none());

    // Resolved, but more winning shares are held than were counted.
    let mut s = good();
    s.state = Outcome::TrueOutcome;
    s.winning_total = 90;
    assert!(SoroMarket::restore(s).is_none());

    // Resolved, and more has been paid than the claimed shares allow.
    let mut s = good();
    s.state = Outcome::TrueOutcome;
    s.winning_total = 91;
    s.paid_out = 1;
    assert!(SoroMarket::restore(s).is_none());

    let mut s = good();
    s.state = Outcome::TrueOutcome;
    s.winning_total = 91;
    assert!(SoroMarket::restore(s).is_some());
}

#[test]
fn blank_market_round_trip() {
    let m = SoroMarket::new();
    let s: MarketSnapshot = m.snapshot();
    assert!(!s.configured);
    let back = SoroMarket::restore(s).unwrap();
    assert_eq!(back.get_oracle(), None);
}

fn busy_contract() -> PredictionMarketContract {
    let mut c = PredictionMarketContract::new();
    c.initialize(1).unwrap();
    c.provide_liquidity(1, 10_000_000).unwrap();
    c.create_market(1, String::from("Derby"), 77, 400_000, 250_000, 340_000, 10_000_000).unwrap();
    c.create_market(1, String::from("Final"), 78, 400_000, 250_000, 340_000, 0).unwrap();
    c.deposit(5, 1_000_000).unwrap();
    c.deposit(6, 1_000_000).unwrap();
    c.place_stake(5, 1, 0, 100_000).unwrap();
    c.place_stake(6, 2, 1, 100_000).unwrap();
    c.place_stake(5, 1, 2, 100_000).unwrap();
    c
}

#[test]
fn contract_snapshot_round_trip() {
    let c = busy_contract();
    let s = c.snapshot();
    assert_eq!(s.markets.len(), 2);
    assert_eq!(s.markets[1].title, String::from("Final"));
    assert_eq!(s.stakes.len(), 3);
    assert_eq!(s.market_counter, 2);
    assert_eq!(s.stake_counter, 3);
    let mut back = PredictionMarketContract::restore(s).unwrap();
    assert_eq!(back.snapshot(), c.snapshot());
    assert_eq!(back.get_balance(5), 800_000);
    assert_eq!(back.get_market_stakes(1).len(), 2);
    back.settle_market(1, 1, 0).unwrap();
    assert_eq!(back.get_market_stakes(1).len(), 0);
    assert_eq!(back.get_market_stakes(2).len(), 1);
    assert_eq!(back.get_stake(2).unwrap().staker, 6);
}

#[test]
fn contract_restore_refuses_broken_states() {
    let good = || busy_contract().snapshot();

    let mut s: ContractSnapshot = good();
    s.market_counter = 3;
    assert!(PredictionMarketContract::restore(s).is_none());

    let mut s = good();
    s.markets[1].id = 5;
    assert!(PredictionMarketContract::restore(s).is_none());

    let mut s = good();
    s.markets[0].reserve_draw = -1;
    assert!(PredictionMarketContract::restore(s).is_none());

    let mut s = good();
    s.stakes[2].id = 2;
    assert!(PredictionMarketContract::restore(s).is_none());

    let mut s = good();
    s.stakes[0].amount = -1;
    assert!(PredictionMarketContract::restore(s).is_none());

    let mut s = good();
    s.stake_counter = 2;
    assert!(PredictionMarketContract::restore(s).is_none());

    let mut s = good();
    s.balances.push(Entry { account: 5, amount: 1 });
    assert!(PredictionMarketContract::restore(s).is_none());

    let mut s = good();
    s.lp_balances.push(Entry { account: 1, amount: 1 });
    assert!(PredictionMarketContract::restore(s).is_none());

    assert!(PredictionMarketContract::restore(good()).is_some());
}

#[test]
fn ledgers_come_back_from_their_records() {
    let mut ledger = PositionLedger::new();
    ledger.credit(3, true, 5).unwrap();
    ledger.credit(4, false, 6).unwrap();
    let records = ledger.records();
    assert_eq!(records.len(), 2);
    let back = PositionLedger::from_records(records).unwrap();
    assert_eq!(back.shares(4, false), 6);
    assert!(PositionLedger::from_records(vec![
        Position { account: 1, true_shares: 0, false_shares: 0, claimed: false },
        Position { account: 2, true_shares: 0, false_shares: 0, claimed: false },
        Position { account: 1, true_shares: 0, false_shares: 0, claimed: true },
    ])
    .is_none());
    assert!(PositionLedger::from_records(vec![Position {
        account: 1,
        true_shares: -1,
        false_shares: 0,
        claimed: false
    }])
    .is_none());

    let mut b = Balances::new();
    b.set(9, 4);
    b.set(8, -4);
    let entries = b.entries();
    assert_eq!(entries, vec![Entry { account: 9, amount: 4 }, Entry { account: 8, amount: -4 }]);
    let back = Balances::from_entries(entries).unwrap();
    assert_eq!(back.get(8), -4);
    assert!(Balances::from_entries(vec![
        Entry { account: 9, amount: 4 },
        Entry { account: 9, amount: 4 }
    ])
    .is_none());
}

#[test]
fn liquidity_pool_parameter_is_checked() {
    assert!(LsmrPool::new(0).is_ok());
    assert!(LsmrPool::new(SCALE).is_ok());
    assert_eq!(LsmrPool::new(-1), Err(MarketError::InvalidAmount));
    assert_eq!(LsmrPool::new(SCALE + 1), Err(MarketError::InvalidAmount));
}

#[test]
fn liquidity_pool_buys_and_sells() {
    let mut pool = LsmrPool::new(200_000).unwrap();
    let mut ledger = PositionLedger::new();
    // Symmetric and one for one while the market is empty.
    assert_eq!(pool.quote_buy(100, true), pool.quote_buy(100, false));
    assert_eq!(pool.quote_buy(100, true), Ok(100));
    assert_eq!(pool.current_probabilities(), Ok((500_000, 500_000)));
    assert_eq!(pool.buy(&mut ledger, 7, 100, true), Ok(100));
    assert_eq!(pool.buy(&mut ledger, 8, 300, false), Ok(300 * SCALE / 200_000));
    // shares (100, 1500): prob(true) = 62_500, price = 62_500 + 937_500 / 5 = 250_000.
    assert_eq!(pool.shares_true, 100);
    assert_eq!(pool.shares_false, 1500);
    assert_eq!(pool.pool_true, 100);
    assert_eq!(pool.pool_false, 300);
    assert_eq!(pool.current_probabilities(), Ok((62_500, 937_500)));
    assert_eq!(pool.quote_buy(50, true), Ok(200));
    assert_eq!(pool.quote_sell(200, true), Ok(50));
    assert_eq!(pool.quote_buy(0, true), Err(MarketError::InvalidAmount));
    assert_eq!(pool.quote_sell(-1, true), Err(MarketError::InvalidAmount));

    // A payout of 20 retires 80 shares of the true side.
    assert_eq!(pool.sell(&mut ledger, 7, 20, true), Ok(80));
    assert_eq!(ledger.shares(7, true), 20);
    assert_eq!(pool.shares_true, 20);
    assert_eq!(pool.pool_true, 80);

    // More than the account holds, more than the side holds.
    let before = pool;
    assert_eq!(pool.sell(&mut ledger, 7, 50, true), Err(MarketError::InsufficientShares));
    assert_eq!(pool.sell(&mut ledger, 9, 1, false), Err(MarketError::InsufficientShares));
    assert_eq!(pool.sell(&mut ledger, 8, 301, false), Err(MarketError::InsufficientLiquidity));
    assert_eq!(pool.sell(&mut ledger, 8, 0, false), Err(MarketError::InvalidAmount));
    assert_eq!(pool, before);
    assert_eq!(ledger.shares(8, false), 1500);
}
