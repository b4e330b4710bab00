use aave_liquidator::address::Address;
use aave_liquidator::liquidation::LiquidationOpportunity;
use aave_liquidator::numbers::{I256, U256};
use aave_liquidator::tick::{
    begin_sync, begin_tick, sync_step, tick_step, SyncStep, TickAction, TickEvent, TickState,
};

fn op(profit_eth: I256) -> LiquidationOpportunity {
    LiquidationOpportunity {
        borrower: Address { bytes: [1; 20] },
        collateral: Address { bytes: [2; 20] },
        collateral_to_liquidate: U256::from_u64(30),
        debt: Address { bytes: [3; 20] },
        debt_to_cover: U256::from_u64(20),
        profit_eth,
    }
}

fn stops(state: TickState, event: TickEvent) -> bool {
    matches!(tick_step(40, state, event), (TickState::Done, TickAction::Stop))
}

#[test]
fn tick_that_submits() {
    let (state, action) = begin_tick();
    assert!(matches!(action, TickAction::UpdateState));
    let (state, action) = tick_step(40, state, TickEvent::Updated(true));
    assert!(matches!(action, TickAction::FindBestOp));
    let found = op(I256::from_u64(0));
    let (state, action) = tick_step(40, state, TickEvent::Searched(Some(Some(found))));
    assert!(matches!(action, TickAction::CheckBalance(token) if token == found.debt));
    let (state, action) = tick_step(40, state, TickEvent::Balance(Some(U256::from_u64(20))));
    assert!(matches!(action, TickAction::BuildLiquidation(o) if o.borrower == found.borrower));
    let (state, action) = tick_step(40, state, TickEvent::Built(true));
    assert!(matches!(state, TickState::Done));
    match action {
        TickAction::Submit(bid) => {
            assert_eq!(bid.bid_percentage, 40);
            assert_eq!(bid.total_profit, U256::from_u64(205_401_561_654_042));
        }
        other => panic!("{:?}", other),
    }
}

#[test]
fn tick_that_stops() {
    let minus_one = I256 { words: [u64::MAX; 4] };
    let found = op(I256::from_u64(5));
    assert!(stops(TickState::Update, TickEvent::Updated(false)));
    assert!(stops(TickState::Search, TickEvent::Searched(None)));
    assert!(stops(TickState::Search, TickEvent::Searched(Some(None))));
    assert!(stops(TickState::Search, TickEvent::Searched(Some(Some(op(minus_one))))));
    assert!(stops(TickState::Balance(found), TickEvent::Balance(None)));
    assert!(stops(TickState::Balance(found), TickEvent::Balance(Some(U256::from_u64(19)))));
    assert!(stops(TickState::Transaction(found), TickEvent::Built(false)));
}

#[test]
fn sync_in_order() {
    let mut steps = vec![begin_sync()];
    while steps.last() != Some(&SyncStep::Synced) {
        steps.push(sync_step(*steps.last().unwrap(), true));
    }
    assert_eq!(
        steps,
        vec![
            SyncStep::UpdateTokenConfigs,
            SyncStep::ApproveTokens,
            SyncStep::LoadCache,
            SyncStep::UpdateState,
            SyncStep::Synced,
        ],
    );
}

#[test]
fn sync_stops_at_a_failure() {
    for step in [
        SyncStep::UpdateTokenConfigs,
        SyncStep::ApproveTokens,
        SyncStep::LoadCache,
        SyncStep::UpdateState,
        SyncStep::Failed,
    ] {
        assert_eq!(sync_step(step, false), SyncStep::Failed);
    }
    assert_eq!(sync_step(SyncStep::Synced, false), SyncStep::Synced);
}
