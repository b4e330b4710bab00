use aave_liquidator::address::Address;
use aave_liquidator::collections::{AddressMap, AddressSet};
use aave_liquidator::config::Deployment;
use aave_liquidator::numbers::U256;
use aave_liquidator::strategy::{
    reserve_pairs, AaveStrategy, Borrower, Config, ReserveConfiguration, StateCache,
};
use aave_liquidator::update::ReserveLog;

fn account(n: u8) -> Address {
    Address { bytes: [n; 20] }
}

fn hyfi() -> AaveStrategy {
    AaveStrategy::new(
        Config { bid_percentage: 40, chain_id: 999 },
        Deployment::HYFI,
        "0x0101010101010101010101010101010101010101".to_string(),
    )
}

#[test]
fn new_strategy_knows_nothing() {
    let strategy = hyfi();
    assert_eq!(strategy.bid_percentage, 40);
    assert_eq!(strategy.chain_id, 999);
    assert_eq!(strategy.last_block_number, 0);
    assert_eq!(strategy.liquidator, account(1));
    assert_eq!(strategy.config.swap_venue, "kittenswap");
    assert_eq!(strategy.borrowers.keys().len(), 0);
    assert_eq!(strategy.tokens.keys().len(), 0);
}

#[test]
fn without_cache_starts_at_creation() {
    let mut strategy = hyfi();
    strategy.apply_borrow_log(&ReserveLog { on_behalf_of: account(2), reserve: account(3) });
    strategy.load_cache(None);
    assert_eq!(strategy.last_block_number, 82245);
    assert!(strategy.borrowers.contains_key(&account(2)));
}

#[test]
fn cache_restores_borrowers() {
    let mut first = hyfi();
    first.apply_borrow_log(&ReserveLog { on_behalf_of: account(2), reserve: account(3) });
    first.apply_supply_log(&ReserveLog { on_behalf_of: account(2), reserve: account(4) });
    let cache = first.cache_at(77);
    first.apply_borrow_log(&ReserveLog { on_behalf_of: account(9), reserve: account(3) });
    let mut second = hyfi();
    second.load_cache(Some(cache));
    assert_eq!(second.last_block_number, 77);
    assert_eq!(second.borrowers.keys(), &vec![account(2)]);
    let borrower = second.borrowers.get(&account(2)).unwrap();
    assert_eq!(borrower.address, account(2));
    assert_eq!(borrower.debt.items(), &vec![account(3)]);
    assert_eq!(borrower.collateral.items(), &vec![account(4)]);
}

#[test]
fn cache_replaces_what_was_known() {
    let mut strategy = hyfi();
    strategy.apply_borrow_log(&ReserveLog { on_behalf_of: account(2), reserve: account(3) });
    strategy.load_cache(Some(StateCache { last_block_number: 5, borrowers: AddressMap::new() }));
    assert_eq!(strategy.last_block_number, 5);
    assert_eq!(strategy.borrowers.keys().len(), 0);
}

#[test]
fn token_settings_are_cut_to_a_word() {
    let mut strategy = hyfi();
    let reserve = ReserveConfiguration {
        decimals: U256::from_u64(18),
        ltv: U256::from_u64(8000),
        liquidation_threshold: U256::from_u64(8250),
        liquidation_bonus: U256 { words: [10500, 1, 0, 0] },
        reserve_factor: U256::from_u64(1500),
    };
    strategy.update_token_config(account(5), account(6), &reserve, &U256::from_u64(1000));
    let token = strategy.tokens.get(&account(5)).unwrap();
    assert_eq!(token.address, account(5));
    assert_eq!(token.a_address, account(6));
    assert_eq!(token.decimals, 18);
    assert_eq!(token.ltv, 8000);
    assert_eq!(token.liquidation_threshold, 8250);
    assert_eq!(token.liquidation_bonus, 10500);
    assert_eq!(token.reserve_factor, 1500);
    assert_eq!(token.protocol_fee, 1000);

    strategy.update_token_config(account(5), account(7), &reserve, &U256::from_u64(1));
    assert_eq!(strategy.tokens.keys(), &vec![account(5)]);
    assert_eq!(strategy.tokens.get(&account(5)).unwrap().a_address, account(7));
}

#[test]
fn settings_of_several_tokens() {
    let mut strategy = hyfi();
    let reserve = |decimals: u64| ReserveConfiguration {
        decimals: U256::from_u64(decimals),
        ltv: U256::from_u64(0),
        liquidation_threshold: U256::from_u64(0),
        liquidation_bonus: U256::from_u64(10500),
        reserve_factor: U256::from_u64(0),
    };
    strategy.update_token_config(account(9), account(19), &reserve(1), &U256::from_u64(0));
    let pairs = reserve_pairs(
        &vec![account(1), account(2), account(1)],
        &vec![account(11), account(12), account(13)],
    );
    for (i, (token, a_token)) in pairs.iter().enumerate() {
        let reserve = reserve(6 + i as u64);
        strategy.update_token_config(*token, *a_token, &reserve, &U256::from_u64(0));
    }
    assert_eq!(strategy.tokens.keys(), &vec![account(9), account(1), account(2)]);
    for (token, a_token, decimals) in [(9, 19, 1), (1, 13, 8), (2, 12, 7)] {
        let config = strategy.tokens.get(&account(token)).unwrap();
        assert_eq!(config.address, account(token));
        assert_eq!(config.a_address, account(a_token));
        assert_eq!(config.decimals, decimals);
    }
}

#[test]
fn pairs_end_with_the_shorter_list() {
    assert_eq!(
        reserve_pairs(&vec![account(1), account(2)], &vec![account(3), account(4), account(5)]),
        vec![(account(1), account(3)), (account(2), account(4))],
    );
    assert_eq!(reserve_pairs(&vec![account(1)], &vec![]), vec![]);
}

#[test]
fn set_holds_each_address_once() {
    let mut set = AddressSet::new();
    assert_eq!(set.items().len(), 0);
    set.insert(account(2));
    set.insert(account(1));
    set.insert(account(2));
    assert_eq!(set.items().len(), 2);
    assert!(set.contains(&account(1)));
    assert!(!set.contains(&account(3)));
    assert_eq!(set.clone().items(), &vec![account(2), account(1)]);
}

#[test]
fn map_keeps_the_last_value() {
    let mut map: AddressMap<Borrower> = AddressMap::new();
    for n in [1, 2, 1] {
        let mut debt = AddressSet::new();
        debt.insert(account(n + 10));
        map.insert(
            account(n),
            Borrower { address: account(n * 3), collateral: AddressSet::new(), debt },
        );
    }
    assert_eq!(map.keys(), &vec![account(1), account(2)]);
    assert_eq!(map.get(&account(1)).unwrap().address, account(3));
    assert_eq!(map.value(1).address, account(6));
    assert!(map.get(&account(3)).is_none());
}
