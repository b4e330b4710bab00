use aave_liquidator::address::Address;
use aave_liquidator::collections::AddressMap;
use aave_liquidator::config::Deployment;
use aave_liquidator::liquidation::{
    percent_div, percent_mul, BorrowerBalances, Candidate, LiquidationOpportunity,
    LiquidationTerms, PoolState, StrategyError,
};
use aave_liquidator::numbers::{I256, U256};
use aave_liquidator::opportunity::{OpportunityAction, OpportunityEvent, OpportunityState};
use aave_liquidator::strategy::{AaveStrategy, Config, ReserveConfiguration};

fn account(n: u8) -> Address {
    Address { bytes: [n; 20] }
}

fn number(n: u64) -> U256 {
    U256::from_u64(n)
}

fn minus(n: u64) -> I256 {
    I256 { words: [n.wrapping_neg(), u64::MAX, u64::MAX, u64::MAX] }
}

fn strategy() -> AaveStrategy {
    AaveStrategy::new(
        Config { bid_percentage: 40, chain_id: 999 },
        Deployment::HYFI,
        "0x0B306BF915C4d645ff596e518fAf3F9669b97016".to_string(),
    )
}

fn weth() -> Address {
    account(0x55)
}

fn add_token(strategy: &mut AaveStrategy, token: Address, decimals: u64, bonus: u64) {
    let reserve = ReserveConfiguration {
        decimals: number(decimals),
        ltv: number(8000),
        liquidation_threshold: number(8250),
        liquidation_bonus: number(bonus),
        reserve_factor: number(1000),
    };
    let mut a_token = token;
    a_token.bytes[0] = 0xaa;
    strategy.update_token_config(token, a_token, &reserve, &number(0));
}

fn pool(prices: &[(Address, u64)]) -> PoolState {
    let mut map = AddressMap::new();
    for (token, price) in prices {
        map.insert(*token, number(*price));
    }
    PoolState { prices: map }
}

fn terms(health_factor: U256, bonus: u64) -> LiquidationTerms {
    LiquidationTerms {
        borrower: account(1),
        health_factor,
        collateral: account(2),
        collateral_price: number(2000),
        collateral_decimals: 2,
        liquidation_bonus: bonus,
        a_token: account(4),
        debt: account(3),
        debt_price: number(1000),
        debt_decimals: 2,
    }
}

fn balances(stable: u64, variable: u64, collateral: u64) -> BorrowerBalances {
    BorrowerBalances {
        stable_debt: number(stable),
        variable_debt: number(variable),
        collateral: number(collateral),
    }
}

#[test]
fn shares_are_rounded_to_the_nearest() {
    assert_eq!(percent_mul(number(1000), 10500), number(1050));
    assert_eq!(percent_mul(number(1), 4999), number(0));
    assert_eq!(percent_mul(number(1), 5000), number(1));
    assert_eq!(percent_mul(number(0), 10500), number(0));
}

#[test]
fn wholes_are_rounded_to_the_nearest() {
    assert_eq!(percent_div(number(1050), 10500), number(1000));
    assert_eq!(percent_div(number(7), 3), number(23333));
    assert_eq!(percent_div(number(1), 15000), number(1));
    assert_eq!(percent_div(number(1), 20001), number(0));
}

#[test]
fn all_of_a_number_is_the_number() {
    assert_eq!(percent_mul(number(123), 10000), number(123));
    assert_eq!(percent_div(number(123), 10000), number(123));
}

#[test]
fn shares_and_wholes_undo_one_another() {
    assert_eq!(percent_mul(percent_div(number(777), 3333), 3333), number(777));
    assert_eq!(percent_div(percent_mul(number(777), 10833), 10833), number(777));
}

#[test]
fn liquidation_within_balance() {
    // The debt of 1000 is worth 500 of collateral, and 525 with the bonus.
    let op = terms(number(1), 10500).size(&balances(400, 600, 10_000));
    assert_eq!(op.borrower, account(1));
    assert_eq!(op.collateral, account(2));
    assert_eq!(op.debt, account(3));
    assert_eq!(op.debt_to_cover, number(1000));
    assert_eq!(op.collateral_to_liquidate, number(525));
    assert_eq!(op.profit_eth, I256::from_u64(0));
}

#[test]
fn liquidation_short_of_collateral() {
    // 105 of collateral are good for 2000 * 105 * 100 / 95238 of debt.
    let op = terms(number(1), 10500).size(&balances(400, 600, 105));
    assert_eq!(op.collateral_to_liquidate, number(105));
    assert_eq!(op.debt_to_cover, number(220));
}

#[test]
fn close_factor_below_and_above_the_threshold() {
    let all = |factor| terms(factor, 10000).size(&balances(0, 1000, 10_000)).debt_to_cover;
    assert_eq!(all(number(990_000_000_000_000_000)), number(1000));
    assert_eq!(all(U256 { words: [0, 0x95, 0, 0] }), number(1000));
    assert_eq!(all(U256 { words: [1, 0x95, 0, 0] }), number(500));
}

#[test]
fn sizes_that_do_not_fit() {
    let max = U256 { words: [u64::MAX; 4] };
    assert!(terms(number(1), 10500).can_size(&balances(400, 600, 105)));
    let mut huge = balances(1, 1, 1);
    huge.stable_debt = max;
    assert!(!terms(number(1), 10500).can_size(&huge));
    let mut free = terms(number(1), 10500);
    free.collateral_price = number(0);
    assert!(!free.can_size(&balances(400, 600, 105)));
    let mut fine = terms(number(1), 10500);
    fine.debt_decimals = 78;
    assert!(!fine.can_size(&balances(0, 0, 0)));
    fine.debt_decimals = 77;
    assert!(fine.can_size(&balances(0, 0, 0)));
    // Without a bonus nothing is taken, so nothing is divided by it.
    assert!(terms(number(1), 0).can_size(&balances(400, 600, 0)));
    assert_eq!(terms(number(1), 0).size(&balances(400, 600, 0)).debt_to_cover, number(1000));
}

#[test]
fn price_of_an_asset_in_ether() {
    let strategy = strategy();
    let prices = pool(&[(account(2), 3), (weth(), 2000)]);
    assert_eq!(strategy.get_asset_price_eth(&account(2), &prices).unwrap(), number(150_000));
    assert_eq!(strategy.get_asset_price_eth(&weth(), &prices).unwrap(), number(100_000_000));
    assert_eq!(strategy.get_asset_price_eth(&weth(), &pool(&[])).unwrap(), number(100_000_000));
}

#[test]
fn price_without_prices() {
    let strategy = strategy();
    assert!(matches!(
        strategy.get_asset_price_eth(&account(2), &pool(&[(weth(), 1)])),
        Err(StrategyError::NoAssetPrice(a)) if a == account(2)
    ));
    assert!(matches!(
        strategy.get_asset_price_eth(&account(2), &pool(&[(account(2), 1)])),
        Err(StrategyError::NoAssetPrice(a)) if a == weth()
    ));
}

#[test]
fn profit_is_cut_toward_zero() {
    let strategy = strategy();
    let op = terms(number(1), 10500).size(&balances(400, 600, 105));
    // One unit of collateral costs a quarter of ether.
    let prices = pool(&[(account(2), 500), (weth(), 2000)]);
    let profit = |gain| strategy.price(&op, &gain, &prices).unwrap().profit_eth;
    assert_eq!(profit(I256::from_u64(1003)), I256::from_u64(250));
    assert_eq!(profit(minus(1003)), minus(250));
    assert_eq!(profit(minus(3)), I256::from_u64(0));
    assert_eq!(profit(I256::from_u64(0)), I256::from_u64(0));
}

#[test]
fn wrapped_ether_is_worth_itself() {
    let strategy = strategy();
    let mut op = terms(number(1), 10500).size(&balances(400, 600, 105));
    op.collateral = weth();
    let priced = strategy.price(&op, &minus(12_345), &pool(&[])).unwrap();
    assert_eq!(priced.profit_eth, minus(12_345));
    assert_eq!(priced.debt_to_cover, op.debt_to_cover);
}

#[test]
fn price_beyond_signed_numbers() {
    let strategy = strategy();
    let op = terms(number(1), 10500).size(&balances(400, 600, 105));
    let mut prices = pool(&[(weth(), 1)]);
    prices.prices.insert(account(2), U256 { words: [0, 0, 0, 1 << 37] });
    assert!(strategy.can_price(&op, &I256::from_u64(0), &prices));
    assert!(matches!(
        strategy.price(&op, &I256::from_u64(0), &prices),
        Err(StrategyError::PriceTooLarge)
    ));
}

#[test]
fn profits_that_do_not_fit() {
    let strategy = strategy();
    let op = terms(number(1), 10500).size(&balances(400, 600, 105));
    let prices = pool(&[(account(2), 500), (weth(), 2000)]);
    assert!(strategy.can_price(&op, &I256::from_u64(7), &prices));
    assert!(!strategy.can_price(&op, &I256::min_value(), &prices));
    assert!(!strategy.can_price(&op, &I256::from_u64(7), &pool(&[(account(2), 1), (weth(), 0)])));
}

#[test]
fn pool_prices_follow_the_tokens() {
    let mut strategy = strategy();
    add_token(&mut strategy, account(2), 18, 10500);
    add_token(&mut strategy, account(3), 6, 10400);
    let state = strategy.get_pool_state(&vec![number(70), number(80), number(90)]);
    assert_eq!(*state.prices.get(&account(2)).unwrap(), number(70));
    assert_eq!(*state.prices.get(&account(3)).unwrap(), number(80));
    assert_eq!(state.prices.keys().len(), 2);
    let state = strategy.get_pool_state(&vec![number(70)]);
    assert_eq!(state.prices.keys(), &vec![account(2)]);
}

#[test]
fn opportunity_from_candidate_to_profit() {
    let mut strategy = strategy();
    add_token(&mut strategy, account(2), 2, 10500);
    add_token(&mut strategy, account(3), 2, 10400);
    let prices = pool(&[(account(2), 2000), (account(3), 1000), (weth(), 4000)]);
    let candidate = Candidate {
        borrower: account(1),
        health_factor: number(1),
        collateral: account(2),
        debt: account(3),
    };
    let (state, action) = strategy.begin_opportunity(&candidate, &prices);
    assert!(matches!(
        action,
        OpportunityAction::GetUserReserveData { asset, user } if asset == account(3) && user == account(1)
    ));
    let (state, action) =
        strategy.opportunity_step(&prices, state, OpportunityEvent::Debt(number(400), number(600)));
    let mut a_token = account(2);
    a_token.bytes[0] = 0xaa;
    assert!(matches!(
        action,
        OpportunityAction::GetBalance { token, user } if token == a_token && user == account(1)
    ));
    let event = OpportunityEvent::Balance(number(10_000));
    assert!(strategy.can_step_opportunity(&prices, &state, &event));
    let (state, action) = strategy.opportunity_step(&prices, state, event);
    match action {
        OpportunityAction::Call(call) => {
            assert_eq!(call.liquidator, strategy.liquidator);
            assert_eq!(call.borrower, account(1));
            assert_eq!(call.collateral, account(2));
            assert_eq!(call.debt, account(3));
            assert_eq!(call.debt_to_cover, number(1000));
            assert_eq!(call.swap_venue, "kittenswap");
            assert_eq!(call.swap_path.len(), 66);
        }
        other => panic!("{:?}", other),
    }
    let event = OpportunityEvent::Gain(I256::from_u64(24));
    assert!(strategy.can_step_opportunity(&prices, &state, &event));
    let (state, action) = strategy.opportunity_step(&prices, state, event);
    assert!(matches!(state, OpportunityState::Done));
    match action {
        OpportunityAction::Found(op) => {
            assert_eq!(op.collateral_to_liquidate, number(525));
            assert_eq!(op.profit_eth, I256::from_u64(12));
        }
        other => panic!("{:?}", other),
    }
}

fn first_error(strategy: &AaveStrategy, prices: &PoolState) -> StrategyError {
    let candidate = Candidate {
        borrower: account(1),
        health_factor: number(1),
        collateral: account(2),
        debt: account(3),
    };
    match strategy.begin_opportunity(&candidate, prices) {
        (OpportunityState::Done, OpportunityAction::Fail(error)) => error,
        other => panic!("{:?}", other),
    }
}

#[test]
fn opportunity_without_prices_or_settings() {
    let mut strategy = strategy();
    assert!(matches!(first_error(&strategy, &pool(&[])), StrategyError::NoCollateralPrice));
    assert!(matches!(
        first_error(&strategy, &pool(&[(account(2), 1)])),
        StrategyError::NoDebtPrice
    ));
    let prices = pool(&[(account(2), 1), (account(3), 1)]);
    assert!(matches!(first_error(&strategy, &prices), StrategyError::NoCollateralConfig));
    add_token(&mut strategy, account(2), 18, 10500);
    assert!(matches!(first_error(&strategy, &prices), StrategyError::NoDebtConfig));
}

#[test]
fn opportunity_without_ether_price_fails() {
    let strategy = strategy();
    let op: LiquidationOpportunity = terms(number(1), 10500).size(&balances(400, 600, 105));
    let prices = pool(&[(account(2), 500)]);
    let event = OpportunityEvent::Gain(I256::from_u64(5));
    let (_, action) = strategy.opportunity_step(&prices, OpportunityState::Gain(op), event);
    assert!(matches!(
        action,
        OpportunityAction::Fail(StrategyError::NoAssetPrice(a)) if a == weth()
    ));
}

#[test]
fn steps_that_do_not_fit() {
    let strategy = strategy();
    let max = U256 { words: [u64::MAX; 4] };
    let state = OpportunityState::Collateral(terms(number(1), 10500), max, number(1));
    assert!(!strategy.can_step_opportunity(
        &pool(&[]),
        &state,
        &OpportunityEvent::Balance(number(1)),
    ));
}
