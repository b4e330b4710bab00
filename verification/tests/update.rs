use aave_liquidator::address::Address;
use aave_liquidator::blocks::BlockRange;
use aave_liquidator::config::Deployment;
use aave_liquidator::strategy::{AaveStrategy, Config, StateCache};
use aave_liquidator::update::{ReserveLog, UpdateAction, UpdateEvent};

fn account(n: u8) -> Address {
    Address { bytes: [n; 20] }
}

fn log(user: u8, reserve: u8) -> ReserveLog {
    ReserveLog { on_behalf_of: account(user), reserve: account(reserve) }
}

fn strategy() -> AaveStrategy {
    AaveStrategy::new(
        Config { bid_percentage: 40, chain_id: 999 },
        Deployment::MOCKNET,
        "0x0B306BF915C4d645ff596e518fAf3F9669b97016".to_string(),
    )
}

fn debts(cache: &StateCache, user: u8) -> Vec<Address> {
    match cache.borrowers.get(&account(user)) {
        Some(borrower) => borrower.debt.items().clone(),
        None => vec![],
    }
}

fn collaterals(cache: &StateCache, user: u8) -> Vec<Address> {
    match cache.borrowers.get(&account(user)) {
        Some(borrower) => borrower.collateral.items().clone(),
        None => vec![],
    }
}

/// Runs an update with the given logs for every chunk, and gives back what was asked and written.
fn run(
    strategy: &mut AaveStrategy,
    latest: u64,
    borrows: &[ReserveLog],
    supplies: &[ReserveLog],
) -> (Vec<(bool, BlockRange)>, Vec<StateCache>, StateCache) {
    let mut asked = vec![];
    let mut written = vec![];
    let mut last = None;
    let (mut state, mut action) = strategy.begin_update(latest);
    loop {
        let event = match action {
            UpdateAction::GetBorrowLogs(range) => {
                asked.push((false, range));
                UpdateEvent::Logs(borrows.to_vec())
            }
            UpdateAction::GetSupplyLogs(range) => {
                asked.push((true, range));
                UpdateEvent::Logs(supplies.to_vec())
            }
            UpdateAction::WriteIntermediateCache(cache) => {
                written.push(cache);
                UpdateEvent::Written
            }
            UpdateAction::WriteCache(cache) => {
                last = Some(cache);
                UpdateEvent::Written
            }
            UpdateAction::Finish => break,
        };
        let next = strategy.update_step(state, event);
        state = next.0;
        action = next.1;
    }
    (asked, written, last.unwrap())
}

#[test]
fn borrows_come_before_supplies() {
    let mut strategy = strategy();
    let (asked, written, last) =
        run(&mut strategy, 1_500_000, &[log(1, 10)], &[log(1, 20), log(2, 20)]);
    let chunks = [
        BlockRange { start: 0, end: 1_000_000 },
        BlockRange { start: 1_000_000, end: 1_500_000 },
    ];
    assert_eq!(
        asked,
        vec![(false, chunks[0]), (false, chunks[1]), (true, chunks[0]), (true, chunks[1])],
    );
    assert_eq!(written.len(), 4);
    assert_eq!(written[0].last_block_number, 1_000_000);
    assert_eq!(written[1].last_block_number, 1_500_000);
    assert_eq!(debts(&written[0], 1), vec![account(10)]);
    assert_eq!(last.last_block_number, 1_500_000);
    assert_eq!(debts(&last, 1), vec![account(10)]);
    assert_eq!(collaterals(&last, 1), vec![account(20)]);
    assert_eq!(strategy.last_block_number, 1_500_000);
}

#[test]
fn supply_is_written_before_it_is_applied() {
    let mut strategy = strategy();
    let (_, written, last) = run(&mut strategy, 10, &[log(1, 10)], &[log(1, 20), log(1, 21)]);
    assert_eq!(written.len(), 3);
    assert_eq!(debts(&written[0], 1), vec![account(10)]);
    assert_eq!(collaterals(&written[1], 1), vec![]);
    assert_eq!(collaterals(&written[2], 1), vec![account(20)]);
    assert_eq!(collaterals(&last, 1), vec![account(20), account(21)]);
}

#[test]
fn supply_of_a_stranger_is_passed_over() {
    let mut strategy = strategy();
    let (_, written, last) =
        run(&mut strategy, 10, &[log(1, 10)], &[log(2, 20), log(3, 20), log(1, 20)]);
    assert_eq!(written.len(), 2);
    assert_eq!(last.borrowers.keys(), &vec![account(1)]);
    assert_eq!(collaterals(&last, 1), vec![account(20)]);
}

#[test]
fn reading_again_changes_nothing() {
    let mut strategy = strategy();
    let logs = [log(1, 10), log(1, 11), log(2, 10), log(1, 10)];
    let (_, _, first) = run(&mut strategy, 10, &logs, &[log(1, 20)]);
    let (_, _, second) = run(&mut strategy, 20, &logs, &[log(1, 20)]);
    for user in [1, 2] {
        assert_eq!(debts(&first, user), debts(&second, user));
        assert_eq!(collaterals(&first, user), collaterals(&second, user));
    }
    assert_eq!(debts(&second, 1), vec![account(10), account(11)]);
    assert_eq!(second.borrowers.keys(), &vec![account(1), account(2)]);
}

#[test]
fn no_new_blocks_only_saves() {
    let mut strategy = strategy();
    strategy.last_block_number = 50;
    let (asked, written, last) = run(&mut strategy, 40, &[log(1, 10)], &[]);
    assert_eq!(asked, vec![]);
    assert_eq!(written.len(), 0);
    assert_eq!(last.last_block_number, 40);
    assert_eq!(strategy.last_block_number, 40);
}

#[test]
fn unfinished_update_is_not_recorded() {
    let mut strategy = strategy();
    let (state, _) = strategy.begin_update(2_000_000);
    let (state, action) = strategy.update_step(state, UpdateEvent::Logs(vec![log(1, 10)]));
    assert!(matches!(action, UpdateAction::WriteIntermediateCache(_)));
    let (_, action) = strategy.update_step(state, UpdateEvent::Written);
    assert!(matches!(action, UpdateAction::GetBorrowLogs(_)));
    assert_eq!(strategy.last_block_number, 0);
    assert!(strategy.borrowers.contains_key(&account(1)));
}

#[test]
fn later_updates_forget_nothing() {
    let mut strategy = strategy();
    run(&mut strategy, 10, &[log(1, 10)], &[log(1, 20)]);
    let (_, written, last) = run(&mut strategy, 20, &[log(2, 11), log(1, 12)], &[log(2, 21)]);
    assert!(written.iter().all(|cache| cache.borrowers.contains_key(&account(1))));
    assert_eq!(debts(&last, 1), vec![account(10), account(12)]);
    assert_eq!(collaterals(&last, 1), vec![account(20)]);
    assert_eq!(debts(&last, 2), vec![account(11)]);
    assert_eq!(collaterals(&last, 2), vec![account(21)]);
}
