use aave_liquidator::address::Address;
use aave_liquidator::config::Deployment;
use aave_liquidator::numbers::U256;
use aave_liquidator::strategy::{AaveStrategy, Config};
use aave_liquidator::collections::AddressSet;
use aave_liquidator::strategy::Borrower;
use aave_liquidator::underwater::{account_calls, get_underwater_borrowers, AccountReply};
use aave_liquidator::update::ReserveLog;

fn account(n: u8) -> Address {
    Address { bytes: [n; 20] }
}

fn factor(percent: u64) -> U256 {
    U256::from_u64(percent * 10_000_000_000_000_000)
}

#[test]
fn lowest_health_factor_comes_first() {
    let replies = vec![
        AccountReply {
            accounts: vec![account(1), account(2), account(3)],
            health_factors: vec![factor(90), factor(100), factor(50)],
        },
        AccountReply {
            accounts: vec![account(4), account(5)],
            health_factors: vec![factor(150), factor(70)],
        },
    ];
    assert_eq!(
        get_underwater_borrowers(&replies),
        vec![(account(3), factor(50)), (account(5), factor(70)), (account(1), factor(90))],
    );
}

#[test]
fn equal_health_factors_keep_their_order() {
    let replies = vec![
        AccountReply {
            accounts: vec![account(7), account(3)],
            health_factors: vec![factor(80), factor(80)],
        },
        AccountReply {
            accounts: vec![account(5), account(1)],
            health_factors: vec![factor(20), factor(80)],
        },
    ];
    let order: Vec<Address> = get_underwater_borrowers(&replies).iter().map(|a| a.0).collect();
    assert_eq!(order, vec![account(5), account(7), account(3), account(1)]);
}

#[test]
fn one_is_not_underwater() {
    let just_below = U256::from_u64(999_999_999_999_999_999);
    let replies = vec![AccountReply {
        accounts: vec![account(1), account(2)],
        health_factors: vec![factor(100), just_below],
    }];
    assert_eq!(get_underwater_borrowers(&replies), vec![(account(2), just_below)]);
}

#[test]
fn missing_answers_are_passed_over() {
    let replies = vec![
        AccountReply { accounts: vec![account(1), account(2)], health_factors: vec![factor(10)] },
        AccountReply { accounts: vec![], health_factors: vec![factor(10)] },
    ];
    assert_eq!(get_underwater_borrowers(&replies), vec![(account(1), factor(10))]);
    assert_eq!(get_underwater_borrowers(&vec![]), vec![]);
}

#[test]
fn all_known_borrowers_are_asked_for() {
    let mut strategy = AaveStrategy::new(
        Config { bid_percentage: 40, chain_id: 999 },
        Deployment::MOCKNET,
        "0x0B306BF915C4d645ff596e518fAf3F9669b97016".to_string(),
    );
    strategy.apply_borrow_log(&ReserveLog { on_behalf_of: account(4), reserve: account(9) });
    let mut collateral = AddressSet::new();
    collateral.insert(account(9));
    strategy.borrowers.insert(
        account(5),
        Borrower { address: account(5), collateral, debt: AddressSet::new() },
    );
    strategy.apply_borrow_log(&ReserveLog { on_behalf_of: account(2), reserve: account(9) });
    let accounts = strategy.borrower_accounts();
    assert_eq!(accounts, vec![account(4), account(5), account(2)]);
    let replies = vec![AccountReply {
        accounts,
        health_factors: vec![factor(100), factor(50), factor(200)],
    }];
    assert_eq!(get_underwater_borrowers(&replies), vec![(account(5), factor(50))]);
}

#[test]
fn calls_hold_a_hundred_accounts() {
    let accounts: Vec<Address> = (0..250).map(|n| account((n % 256) as u8)).collect();
    let calls = account_calls(&accounts);
    let sizes: Vec<usize> = calls.iter().map(|c| c.len()).collect();
    assert_eq!(sizes, vec![100, 100, 50]);
    assert_eq!(calls.concat(), accounts);
    assert_eq!(calls[213 / 100][213 % 100], accounts[213]);
    assert_eq!(account_calls(&vec![]).len(), 0);
    assert_eq!(account_calls(&accounts[..100].to_vec()).len(), 1);
}
