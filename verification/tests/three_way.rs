use prediction_market::fixed_point::MarketError;
use prediction_market::prediction::MarketStatus;
use prediction_market::prediction::PredictionMarketContract;

const ADMIN: u64 = 1;
const LIQUIDITY: i128 = 10_000_000;

fn create_admin_and_client() -> (u64, PredictionMarketContract) {
    let mut client = PredictionMarketContract::new();
    client.initialize(ADMIN).unwrap();
    (ADMIN, client)
}

fn open_market(client: &mut PredictionMarketContract, admin: u64, title: &str) -> u64 {
    client
        .create_market(admin, String::from(title), 1234567890, 400_000, 250_000, 340_000, LIQUIDITY)
        .unwrap()
}

#[test]
fn test_deposit_withdraw() {
    let (_admin, mut client) = create_admin_and_client();
    let user = 7;
    client.deposit(user, 1_000_000).unwrap();
    assert_eq!(client.get_balance(user), 1_000_000);
    client.withdraw(user, 400_000).unwrap();
    assert_eq!(client.get_balance(user), 600_000);
}

#[test]
fn test_liquidity_provision() {
    let (admin, mut client) = create_admin_and_client();
    client.provide_liquidity(admin, 5_000_000).unwrap();
    assert_eq!(client.total_liquidity(), 5_000_000);
    client.withdraw_liquidity(admin, 2_000_000).unwrap();
    assert_eq!(client.total_liquidity(), 3_000_000);
}

#[test]
fn test_create_market_and_stake() {
    let (admin, mut client) = create_admin_and_client();
    let user = 7;
    client.provide_liquidity(admin, 10_000_000).unwrap();
    client.deposit(user, 1_000_000).unwrap();
    open_market(&mut client, admin, "BrazilEng");
    let market = client.get_market(1).unwrap();
    assert_eq!(market.id, 1);
    assert_eq!(market.title, String::from("BrazilEng"));
    assert_eq!(market.status, MarketStatus::Active);
    assert_eq!(market.start_time, 1234567890);
    assert_eq!(
        (market.reserve_home, market.reserve_draw, market.reserve_away),
        (4_000_000, 2_500_000, 3_400_000)
    );
    client.place_stake(user, 1, 0, 500_000).unwrap();
    assert_eq!(client.get_balance(user), 500_000);
}

#[test]
fn test_settlement() {
    let (admin, mut client) = create_admin_and_client();
    let user1 = 7;
    let user2 = 8;
    client.provide_liquidity(admin, 20_000_000).unwrap();
    client.deposit(user1, 1_000_000).unwrap();
    client.deposit(user2, 1_000_000).unwrap();
    open_market(&mut client, admin, "BrazilEng");
    client.place_stake(user1, 1, 0, 1_000_000).unwrap();
    client.place_stake(user2, 1, 1, 1_000_000).unwrap();
    client.settle_market(admin, 1, 0).unwrap();
    let bal1 = client.get_balance(user1);
    let bal2 = client.get_balance(user2);
    assert!(bal1 > 1_000_000);
    assert_eq!(bal2, 0);
    // The only winner holds all winning shares and takes the home reserve.
    assert_eq!(bal1, 5_000_000);
    assert_eq!(client.total_liquidity(), 24_000_000 - 5_000_000);
    assert_eq!(client.get_market(1).unwrap().status, MarketStatus::Settled);
    assert_eq!(client.get_market_stakes(1).len(), 0);
}

#[test]
fn test_non_admin_create_market() {
    let (_admin, mut client) = create_admin_and_client();
    let attacker = 66;
    assert_eq!(
        client.create_market(
            attacker,
            String::from("Attack"),
            1234567890,
            400_000,
            250_000,
            340_000,
            LIQUIDITY
        ),
        Err(MarketError::Unauthorized)
    );
    assert_eq!(client.get_market(1).err(), Some(MarketError::MarketNotFound));
}

#[test]
fn test_non_admin_settle_market() {
    let (admin, mut client) = create_admin_and_client();
    let attacker = 66;
    open_market(&mut client, admin, "Test");
    assert_eq!(client.settle_market(attacker, 1, 0), Err(MarketError::Unauthorized));
}

#[test]
fn test_non_admin_update_odds() {
    let (admin, mut client) = create_admin_and_client();
    let attacker = 66;
    open_market(&mut client, admin, "Test");
    assert_eq!(
        client.update_odds(attacker, 1, 300_000, 300_000, 390_000),
        Err(MarketError::Unauthorized)
    );
    assert_eq!(client.get_market(1).unwrap().odds_home, 400_000);
}

#[test]
fn test_non_admin_archive_market() {
    let (admin, mut client) = create_admin_and_client();
    let attacker = 66;
    open_market(&mut client, admin, "Test");
    assert_eq!(client.archive_market(attacker, 1), Err(MarketError::Unauthorized));
    assert_eq!(client.get_market(1).unwrap().status, MarketStatus::Active);
}

#[test]
fn test_create_market_odds_too_low() {
    let (admin, mut client) = create_admin_and_client();
    assert_eq!(
        client.create_market(
            admin,
            String::from("Invalid"),
            1234567890,
            5_000,
            250_000,
            735_000,
            LIQUIDITY
        ),
        Err(MarketError::OddsBelowMinimum)
    );
}

#[test]
fn test_create_market_odds_wrong_sum() {
    let (admin, mut client) = create_admin_and_client();
    assert_eq!(
        client.create_market(
            admin,
            String::from("Invalid"),
            1234567890,
            400_000,
            300_000,
            300_000,
            LIQUIDITY
        ),
        Err(MarketError::OddsSumMismatch)
    );
}

#[test]
fn test_deposit_zero_amount() {
    let (_admin, mut client) = create_admin_and_client();
    assert_eq!(client.deposit(7, 0), Err(MarketError::InvalidAmount));
}

#[test]
fn test_deposit_negative_amount() {
    let (_admin, mut client) = create_admin_and_client();
    assert_eq!(client.deposit(7, -100_000), Err(MarketError::InvalidAmount));
    assert_eq!(client.get_balance(7), 0);
}

#[test]
fn test_withdraw_zero_amount() {
    let (_admin, mut client) = create_admin_and_client();
    client.deposit(7, 1_000_000).unwrap();
    assert_eq!(client.withdraw(7, 0), Err(MarketError::InvalidAmount));
}

#[test]
fn test_withdraw_more_than_balance() {
    let (_admin, mut client) = create_admin_and_client();
    client.deposit(7, 500_000).unwrap();
    assert_eq!(client.withdraw(7, 600_000), Err(MarketError::InsufficientBalance));
    assert_eq!(client.get_balance(7), 500_000);
}

#[test]
fn test_stake_more_than_balance() {
    let (admin, mut client) = create_admin_and_client();
    let user = 7;
    client.provide_liquidity(admin, 10_000_000).unwrap();
    client.deposit(user, 500_000).unwrap();
    open_market(&mut client, admin, "Test");
    assert_eq!(client.place_stake(user, 1, 0, 600_000), Err(MarketError::InsufficientBalance));
}

#[test]
fn test_stake_zero_amount() {
    let (admin, mut client) = create_admin_and_client();
    let user = 7;
    client.provide_liquidity(admin, 10_000_000).unwrap();
    client.deposit(user, 1_000_000).unwrap();
    open_market(&mut client, admin, "Test");
    assert_eq!(client.place_stake(user, 1, 0, 0), Err(MarketError::InvalidAmount));
}

#[test]
fn test_stake_invalid_outcome() {
    let (admin, mut client) = create_admin_and_client();
    let user = 7;
    client.provide_liquidity(admin, 10_000_000).unwrap();
    client.deposit(user, 1_000_000).unwrap();
    open_market(&mut client, admin, "Test");
    assert_eq!(client.place_stake(user, 1, 3, 500_000), Err(MarketError::InvalidOutcome));
}

#[test]
fn test_stake_nonexistent_market() {
    let (_admin, mut client) = create_admin_and_client();
    let user = 7;
    client.deposit(user, 1_000_000).unwrap();
    assert_eq!(client.place_stake(user, 999, 0, 500_000), Err(MarketError::MarketNotFound));
}

#[test]
fn test_stake_on_settled_market() {
    let (admin, mut client) = create_admin_and_client();
    let user = 7;
    client.provide_liquidity(admin, 10_000_000).unwrap();
    client.deposit(user, 2_000_000).unwrap();
    open_market(&mut client, admin, "Test");
    client.place_stake(user, 1, 0, 1_000_000).unwrap();
    client.settle_market(admin, 1, 0).unwrap();
    assert_eq!(client.place_stake(user, 1, 0, 500_000), Err(MarketError::MarketNotLive));
}

#[test]
fn test_stake_on_archived_market() {
    let (admin, mut client) = create_admin_and_client();
    let user = 7;
    client.provide_liquidity(admin, 10_000_000).unwrap();
    client.deposit(user, 1_000_000).unwrap();
    open_market(&mut client, admin, "Test");
    client.archive_market(admin, 1).unwrap();
    assert_eq!(client.place_stake(user, 1, 0, 500_000), Err(MarketError::MarketNotLive));
    let market = client.get_market(1).unwrap();
    assert_eq!(market.status, MarketStatus::Archived);
    assert_eq!((market.reserve_home, market.reserve_draw, market.reserve_away), (0, 0, 0));
}

#[test]
fn test_settle_invalid_outcome() {
    let (admin, mut client) = create_admin_and_client();
    open_market(&mut client, admin, "Test");
    assert_eq!(client.settle_market(admin, 1, 3), Err(MarketError::InvalidOutcome));
}

#[test]
fn test_double_settlement() {
    let (admin, mut client) = create_admin_and_client();
    let user = 7;
    client.provide_liquidity(admin, 10_000_000).unwrap();
    client.deposit(user, 1_000_000).unwrap();
    open_market(&mut client, admin, "Test");
    client.place_stake(user, 1, 0, 500_000).unwrap();
    client.settle_market(admin, 1, 0).unwrap();
    let balance = client.get_balance(user);
    assert_eq!(client.settle_market(admin, 1, 0), Err(MarketError::AlreadySettled));
    assert_eq!(client.get_balance(user), balance);
}

#[test]
fn test_provide_liquidity_zero() {
    let (_admin, mut client) = create_admin_and_client();
    assert_eq!(client.provide_liquidity(9, 0), Err(MarketError::InvalidAmount));
}

#[test]
fn test_withdraw_liquidity_zero() {
    let (_admin, mut client) = create_admin_and_client();
    client.provide_liquidity(9, 1_000_000).unwrap();
    assert_eq!(client.withdraw_liquidity(9, 0), Err(MarketError::InvalidAmount));
}

#[test]
fn test_withdraw_more_liquidity_than_provided() {
    let (_admin, mut client) = create_admin_and_client();
    client.provide_liquidity(9, 1_000_000).unwrap();
    assert_eq!(client.withdraw_liquidity(9, 2_000_000), Err(MarketError::InsufficientBalance));
    assert_eq!(client.total_liquidity(), 1_000_000);
}

#[test]
fn test_market_staker_count_tracking() {
    let (admin, mut client) = create_admin_and_client();
    let user1 = 7;
    let user2 = 8;
    client.provide_liquidity(admin, 10_000_000).unwrap();
    client.deposit(user1, 1_000_000).unwrap();
    client.deposit(user2, 1_000_000).unwrap();
    open_market(&mut client, admin, "Test");

    assert_eq!(client.get_staker_count(1), Ok(0));
    client.place_stake(user1, 1, 0, 500_000).unwrap();
    assert_eq!(client.get_staker_count(1), Ok(1));
    client.place_stake(user2, 1, 1, 500_000).unwrap();
    assert_eq!(client.get_staker_count(1), Ok(2));
}

#[test]
fn test_market_staker_count_increments() {
    let (admin, mut client) = create_admin_and_client();
    client.provide_liquidity(admin, 10_000_000).unwrap();
    open_market(&mut client, admin, "Test");
    let mut i: u32 = 0;
    while i < 10 {
        let user = 100 + i as u64;
        client.deposit(user, 100_000).unwrap();
        client.place_stake(user, 1, i % 3, 50_000).unwrap();
        assert_eq!(client.get_staker_count(1), Ok(i + 1));
        i += 1;
    }
}

#[test]
fn test_double_initialization() {
    let mut client = PredictionMarketContract::new();
    assert_eq!(client.get_admin(), None);
    client.initialize(ADMIN).unwrap();
    assert_eq!(client.initialize(ADMIN), Err(MarketError::AlreadySetup));
    assert_eq!(client.initialize(5), Err(MarketError::AlreadySetup));
    assert_eq!(client.get_admin(), Some(ADMIN));
}

#[test]
fn test_balance_consistency_after_multiple_operations() {
    let (admin, mut client) = create_admin_and_client();
    let user1 = 7;
    let user2 = 8;

    client.provide_liquidity(admin, 10_000_000).unwrap();
    client.deposit(user1, 1_000_000).unwrap();
    client.deposit(user2, 2_000_000).unwrap();

    // Deposits are held by the contract beside what providers put in.
    let initial_total_liq = client.total_liquidity();
    assert_eq!(initial_total_liq, 13_000_000);

    open_market(&mut client, admin, "Test");
    client.place_stake(user1, 1, 0, 500_000).unwrap();
    client.place_stake(user2, 1, 1, 1_000_000).unwrap();

    // Staked amounts join the liquidity as they leave the balances.
    assert_eq!(client.total_liquidity(), 14_500_000);
    assert_eq!(client.get_balance(user1), 500_000);
    assert_eq!(client.get_balance(user2), 1_000_000);
}

#[test]
fn test_normal_settlement_works() {
    let (admin, mut client) = create_admin_and_client();
    let user = 7;
    client.provide_liquidity(admin, 10_000_000).unwrap();
    client.deposit(user, 1_000_000).unwrap();
    open_market(&mut client, admin, "Test");
    client.place_stake(user, 1, 0, 500_000).unwrap();
    client.settle_market(admin, 1, 0).unwrap();
    assert!(client.get_balance(user) > 500_000);
}

#[test]
fn test_arithmetic_overflow_protection() {
    let (_admin, mut client) = create_admin_and_client();
    let user = 7;
    let max_amount = i128::MAX;
    client.deposit(user, 1).unwrap();
    assert_eq!(client.deposit(user, max_amount), Err(MarketError::ArithmeticOverflow));
    assert_eq!(client.get_balance(user), 1);
    assert_eq!(client.total_liquidity(), 1);
}

#[test]
fn test_payout_calculation_precision() {
    let (admin, mut client) = create_admin_and_client();
    let user = 7;
    client.provide_liquidity(admin, 10_000_000).unwrap();
    client.deposit(user, 1_000_000).unwrap();
    open_market(&mut client, admin, "Test");
    let stake_amount = 1_000_000i128;
    client.place_stake(user, 1, 0, stake_amount).unwrap();
    client.settle_market(admin, 1, 0).unwrap();
    let balance = client.get_balance(user);
    assert!(balance > 0);
}

#[test]
fn test_get_nonexistent_market() {
    let (_admin, client) = create_admin_and_client();
    assert_eq!(client.get_market(999).err(), Some(MarketError::MarketNotFound));
    assert_eq!(client.get_market(0).err(), Some(MarketError::MarketNotFound));
}

#[test]
fn test_get_staker_count_nonexistent_market() {
    let (_admin, client) = create_admin_and_client();
    assert_eq!(client.get_staker_count(999), Err(MarketError::MarketNotFound));
}

#[test]
fn test_update_odds_nonexistent_market() {
    let (admin, mut client) = create_admin_and_client();
    assert_eq!(
        client.update_odds(admin, 999, 400_000, 250_000, 340_000),
        Err(MarketError::MarketNotFound)
    );
}

#[test]
fn test_settle_nonexistent_market() {
    let (admin, mut client) = create_admin_and_client();
    assert_eq!(client.settle_market(admin, 999, 0), Err(MarketError::MarketNotFound));
}

#[test]
fn test_dynamic_pricing_cpmm() {
    let (admin, mut client) = create_admin_and_client();
    let user1 = 7;
    let user2 = 8;
    client.provide_liquidity(admin, 10_000_000).unwrap();
    client.deposit(user1, 10_000_000).unwrap();
    client.deposit(user2, 10_000_000).unwrap();
    open_market(&mut client, admin, "Test");

    let (odds_home, odds_draw, odds_away) = client.get_current_odds(1).unwrap();
    assert!(odds_home > 390_000 && odds_home < 410_000);
    assert!(odds_draw > 240_000 && odds_draw < 260_000);
    assert!(odds_away > 330_000 && odds_away < 350_000);
    assert_eq!((odds_home, odds_draw, odds_away), (404_040, 252_525, 343_434));

    client.place_stake(user1, 1, 0, 1_000_000).unwrap();

    let (new_odds_home, new_odds_draw, new_odds_away) = client.get_current_odds(1).unwrap();
    assert!(new_odds_home > odds_home);
    assert!(new_odds_draw < odds_draw);
    assert!(new_odds_away < odds_away);

    client.place_stake(user2, 1, 2, 1_000_000).unwrap();

    let (_final_odds_home, _final_odds_draw, final_odds_away) = client.get_current_odds(1).unwrap();
    assert!(final_odds_away > new_odds_away);
}

#[test]
fn test_cash_out_functionality() {
    let (admin, mut client) = create_admin_and_client();
    let user = 7;
    client.provide_liquidity(admin, 10_000_000).unwrap();
    client.deposit(user, 10_000_000).unwrap();
    client
        .create_market(
            admin,
            String::from("Test"),
            1234567890,
            400_000,
            250_000,
            340_000,
            100_000_000,
        )
        .unwrap();

    client.place_stake(user, 1, 0, 1_000_000).unwrap();
    let balance_after_stake = client.get_balance(user);
    assert_eq!(balance_after_stake, 9_000_000);

    client.cash_out(user, 1).unwrap();

    let balance_after_cashout = client.get_balance(user);
    assert!(balance_after_cashout > balance_after_stake);
    assert!(balance_after_cashout >= 9_700_000);
    assert!(balance_after_cashout <= 10_000_000);
    assert_eq!(client.get_staker_count(1), Ok(0));
    assert_eq!(client.get_stake(1), Err(MarketError::StakeNotFound));
}

#[test]
fn test_cash_out_unauthorized() {
    let (admin, mut client) = create_admin_and_client();
    let user1 = 7;
    let user2 = 8;
    client.provide_liquidity(admin, 10_000_000).unwrap();
    client.deposit(user1, 1_000_000).unwrap();
    open_market(&mut client, admin, "Test");
    client.place_stake(user1, 1, 0, 1_000_000).unwrap();
    assert_eq!(client.cash_out(user2, 1), Err(MarketError::Unauthorized));
    assert_eq!(client.get_stake(1).unwrap().staker, user1);
}

#[test]
fn test_cash_out_settled_market() {
    let (admin, mut client) = create_admin_and_client();
    let user = 7;
    client.provide_liquidity(admin, 10_000_000).unwrap();
    client.deposit(user, 1_000_000).unwrap();
    open_market(&mut client, admin, "Test");
    client.place_stake(user, 1, 0, 1_000_000).unwrap();
    client.settle_market(admin, 1, 0).unwrap();
    assert_eq!(client.cash_out(user, 1), Err(MarketError::StakeNotFound));
}

#[test]
fn test_arbitrage_exploit_repeated_cycles() {
    let (admin, mut client) = create_admin_and_client();
    let attacker = 66;
    client.provide_liquidity(admin, 10_000_000).unwrap();
    client.deposit(attacker, 1_000_000).unwrap();
    client
        .create_market(
            admin,
            String::from("Test"),
            1234567890,
            400_000,
            330_000,
            260_000,
            LIQUIDITY,
        )
        .unwrap();

    let initial_balance = client.get_balance(attacker);
    let mut current_balance = initial_balance;

    let mut cycle: u64 = 0;
    while cycle < 5 {
        let balance_before = current_balance;
        let stake_amount = current_balance / 10;
        if stake_amount < 10_000 {
            break;
        }
        client.place_stake(attacker, 1, 0, stake_amount).unwrap();
        let stake_id = cycle + 1;
        client.cash_out(attacker, stake_id).unwrap();
        current_balance = client.get_balance(attacker);
        assert!(current_balance <= balance_before + 100, "Arbitrage exploit detected in cycle!");
        cycle += 1;
    }

    let total_profit = current_balance - initial_balance;
    assert!(total_profit < initial_balance / 1000, "CRITICAL: Arbitrage exploit detected!");
}
