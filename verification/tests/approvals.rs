use aave_liquidator::address::Address;
use aave_liquidator::config::Deployment;
use aave_liquidator::numbers::U256;
use aave_liquidator::strategy::{AaveStrategy, Config, ReserveConfiguration};

fn account(n: u8) -> Address {
    Address { bytes: [n; 20] }
}

fn strategy() -> AaveStrategy {
    let mut strategy = AaveStrategy::new(
        Config { bid_percentage: 40, chain_id: 999 },
        Deployment::HYFI,
        "0x0707070707070707070707070707070707070707".to_string(),
    );
    let reserve = ReserveConfiguration {
        decimals: U256::from_u64(18),
        ltv: U256::from_u64(0),
        liquidation_threshold: U256::from_u64(0),
        liquidation_bonus: U256::from_u64(10500),
        reserve_factor: U256::from_u64(0),
    };
    for n in [4, 5, 6] {
        strategy.update_token_config(account(n), account(n + 10), &reserve, &U256::from_u64(0));
    }
    strategy
}

#[test]
fn tokens_without_allowance_are_approved_in_turn() {
    let strategy = strategy();
    let mut run = strategy.begin_approvals(U256::from_u64(17));
    let mut approvals = vec![];
    let mut asked = vec![];
    let allowances = [0, 3, 0];
    while let Some(query) = run.query() {
        assert_eq!(query.owner, account(7));
        assert_eq!(query.spender, strategy.config.pool_address);
        let allowance = U256::from_u64(allowances[asked.len()]);
        asked.push(query.token);
        approvals.extend(run.approval(&allowance).map(|a| (a.token, a.nonce)));
        assert!(run.has_next_nonce());
        run = run.answer(&allowance);
    }
    assert_eq!(asked, vec![account(4), account(5), account(6)]);
    assert_eq!(
        approvals,
        vec![(account(4), U256::from_u64(17)), (account(6), U256::from_u64(18))],
    );
}

#[test]
fn last_nonce_has_none_behind_it() {
    let run = strategy().begin_approvals(U256 { words: [u64::MAX; 4] });
    assert!(!run.has_next_nonce());
    assert_eq!(run.approval(&U256::from_u64(0)).unwrap().nonce, U256 { words: [u64::MAX; 4] });
    assert!(run.approval(&U256::from_u64(1)).is_none());
    let run = run.answer(&U256::from_u64(1));
    assert_eq!(run.query().unwrap().token, account(5));
}
