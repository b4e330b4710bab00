use aave_liquidator::address::Address;
use aave_liquidator::config::Deployment;
use aave_liquidator::liquidation::{LiquidationOpportunity, StrategyError};
use aave_liquidator::numbers::{I256, U256};
use aave_liquidator::search::get_best_liquidation_op;
use aave_liquidator::strategy::{AaveStrategy, Config};
use aave_liquidator::update::ReserveLog;

fn account(n: u8) -> Address {
    Address { bytes: [n; 20] }
}

fn strategy() -> AaveStrategy {
    let mut strategy = AaveStrategy::new(
        Config { bid_percentage: 40, chain_id: 999 },
        Deployment::MOCKNET,
        "0x0B306BF915C4d645ff596e518fAf3F9669b97016".to_string(),
    );
    for (user, reserve) in [(1, 10), (1, 11), (2, 12)] {
        strategy.apply_borrow_log(&ReserveLog {
            on_behalf_of: account(user),
            reserve: account(reserve),
        });
    }
    for (user, reserve) in [(1, 11), (1, 20), (2, 12)] {
        strategy.apply_supply_log(&ReserveLog {
            on_behalf_of: account(user),
            reserve: account(reserve),
        });
    }
    strategy
}

fn op(borrower: u8, profit_eth: I256) -> Option<LiquidationOpportunity> {
    Some(LiquidationOpportunity {
        borrower: account(borrower),
        collateral: account(20),
        collateral_to_liquidate: U256::from_u64(1),
        debt: account(10),
        debt_to_cover: U256::from_u64(1),
        profit_eth,
    })
}

#[test]
fn candidates_pair_different_tokens() {
    let underwater = vec![(account(2), U256::from_u64(5)), (account(1), U256::from_u64(7))];
    let candidates = strategy().liquidation_candidates(&underwater).unwrap();
    let pairs: Vec<(Address, Address, Address)> =
        candidates.iter().map(|c| (c.borrower, c.collateral, c.debt)).collect();
    assert_eq!(
        pairs,
        vec![
            (account(1), account(11), account(10)),
            (account(1), account(20), account(10)),
            (account(1), account(20), account(11)),
        ],
    );
    assert!(candidates.iter().all(|c| c.health_factor == U256::from_u64(7)));
}

#[test]
fn no_underwater_borrowers() {
    assert!(matches!(
        strategy().liquidation_candidates(&vec![]),
        Err(StrategyError::NoUnderwaterBorrowers)
    ));
}

#[test]
fn unknown_underwater_borrower() {
    let underwater = vec![(account(1), U256::from_u64(5)), (account(9), U256::from_u64(7))];
    assert!(matches!(
        strategy().liquidation_candidates(&underwater),
        Err(StrategyError::BorrowerNotFound)
    ));
}

#[test]
fn found_underwater_borrowers_are_known() {
    let strategy = strategy();
    let underwater: Vec<(Address, U256)> =
        strategy.borrower_accounts().iter().map(|a| (*a, U256::from_u64(1))).collect();
    assert_eq!(underwater.len(), 2);
    assert!(strategy.liquidation_candidates(&underwater).is_ok());
}

#[test]
fn best_is_the_first_of_the_highest() {
    let outcomes = vec![
        op(1, I256::from_u64(3)),
        None,
        op(2, I256::from_u64(9)),
        op(3, I256::from_u64(9)),
        op(4, I256::min_value()),
    ];
    assert_eq!(get_best_liquidation_op(&outcomes).unwrap().borrower, account(2));
}

#[test]
fn best_may_be_a_loss() {
    let minus_one = I256 { words: [u64::MAX; 4] };
    let outcomes = vec![None, op(5, minus_one)];
    assert_eq!(get_best_liquidation_op(&outcomes).unwrap().borrower, account(5));
}

#[test]
fn nothing_is_best_of_failures() {
    assert!(get_best_liquidation_op(&vec![]).is_none());
    assert!(get_best_liquidation_op(&vec![None, None]).is_none());
    assert!(get_best_liquidation_op(&vec![op(1, I256::min_value())]).is_none());
}

#[test]
fn best_is_of_an_underwater_borrower() {
    let strategy = strategy();
    let underwater = vec![(account(1), U256::from_u64(7))];
    let candidates = strategy.liquidation_candidates(&underwater).unwrap();
    let outcomes: Vec<Option<LiquidationOpportunity>> = candidates
        .iter()
        .enumerate()
        .map(|(i, c)| {
            Some(LiquidationOpportunity {
                borrower: c.borrower,
                collateral: c.collateral,
                collateral_to_liquidate: U256::from_u64(1),
                debt: c.debt,
                debt_to_cover: U256::from_u64(1),
                profit_eth: I256::from_u64(i as u64),
            })
        })
        .collect();
    let best = get_best_liquidation_op(&outcomes).unwrap();
    assert_eq!(best.borrower, account(1));
    let borrower = strategy.borrowers.get(&best.borrower).unwrap();
    assert!(borrower.collateral.contains(&best.collateral));
    assert!(borrower.debt.contains(&best.debt));
    assert_ne!(best.collateral, best.debt);
    assert_eq!(best.profit_eth, I256::from_u64(2));
}

#[test]
fn ties_go_to_the_lowest_health_factor() {
    let mut strategy = strategy();
    strategy.apply_supply_log(&ReserveLog { on_behalf_of: account(2), reserve: account(20) });
    let underwater = vec![(account(2), U256::from_u64(5)), (account(1), U256::from_u64(7))];
    let candidates = strategy.liquidation_candidates(&underwater).unwrap();
    assert_eq!(candidates.len(), 4);
    let outcomes: Vec<Option<LiquidationOpportunity>> =
        candidates.iter().map(|c| op(c.borrower.bytes[0], I256::from_u64(9))).collect();
    assert_eq!(get_best_liquidation_op(&outcomes).unwrap().borrower, account(2));
}
