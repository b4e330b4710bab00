use aave_liquidator::address::Address;
use aave_liquidator::config::Deployment;
use aave_liquidator::liquidation::LiquidationOpportunity;
use aave_liquidator::numbers::{I256, U256};
use aave_liquidator::strategy::{AaveStrategy, Config};

fn account(n: u8) -> Address {
    Address { bytes: [n; 20] }
}

fn strategy() -> AaveStrategy {
    AaveStrategy::new(
        Config { bid_percentage: 40, chain_id: 999 },
        Deployment::HYFI,
        "0x0707070707070707070707070707070707070707".to_string(),
    )
}

#[test]
fn path_through_wrapped_ether() {
    let path = strategy().get_swap_path(&account(2), &account(3)).unwrap();
    let mut expected = vec![3u8; 20];
    expected.extend([0x00, 0x01, 0xf4]);
    expected.extend([0x55; 20]);
    expected.extend([0x00, 0x01, 0xf4]);
    expected.extend([2; 20]);
    assert_eq!(path, expected);
}

#[test]
fn path_from_or_to_wrapped_ether() {
    let weth = account(0x55);
    let mut expected = vec![3u8; 20];
    expected.extend([0x00, 0x01, 0xf4]);
    expected.extend([0x55; 20]);
    assert_eq!(strategy().get_swap_path(&weth, &account(3)).unwrap(), expected);
    let mut expected = vec![0x55u8; 20];
    expected.extend([0x00, 0x01, 0xf4]);
    expected.extend([2; 20]);
    assert_eq!(strategy().get_swap_path(&account(2), &weth).unwrap(), expected);
}

#[test]
fn call_and_transaction() {
    let strategy = strategy();
    let op = LiquidationOpportunity {
        borrower: account(1),
        collateral: account(2),
        collateral_to_liquidate: U256::from_u64(30),
        debt: account(3),
        debt_to_cover: U256::from_u64(20),
        profit_eth: I256::from_u64(4),
    };
    let tx = strategy.build_liquidation(&op).unwrap();
    assert_eq!(tx.chain_id, 999);
    assert_eq!(tx.call.liquidator, account(7));
    assert_eq!(tx.call.collateral, account(2));
    assert_eq!(tx.call.debt, account(3));
    assert_eq!(tx.call.borrower, account(1));
    assert_eq!(tx.call.debt_to_cover, U256::from_u64(20));
    assert_eq!(tx.call.swap_path, strategy.get_swap_path(&account(2), &account(3)).unwrap());
    assert_eq!(tx.call.swap_venue, "kittenswap");
}
