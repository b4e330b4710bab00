//! What happens at a tick, and before the first one.
use vstd::prelude::*;

use crate::address::Address;
use crate::liquidation::{BorrowerBalances, Candidate, LiquidationOpportunity, PoolState};
use crate::numbers::{I256, U256};
use crate::opportunity::{law_tried_amount, works_out, OpportunityAction, OpportunityState};
use crate::strategy::AaveStrategy;
use crate::swap::{carries_out, law_call_carries_out, LiquidationCall};

verus! {

/// Profit that gas is bid on.
pub const TOTAL_PROFIT: u64 = 205_401_561_654_042;

/// What to bid in gas.
#[derive(Clone, Copy, Debug)]
pub struct GasBidInfo {
    pub bid_percentage: u64,
    pub total_profit: U256,
}

/// What a tick waits for.
#[derive(Clone, Copy, Debug)]
pub enum TickState {
    /// The update of the borrowers.
    Update,
    /// The search for the best liquidation.
    Search,
    /// The sender's balance of the token to repay with.
    Balance(LiquidationOpportunity),
    /// The transaction of a liquidation.
    Transaction(LiquidationOpportunity),
    Done,
}

/// What has come of the last action. What failed is given as nothing.
#[derive(Clone, Copy, Debug)]
pub enum TickEvent {
    Updated(bool),
    Searched(Option<Option<LiquidationOpportunity>>),
    Balance(Option<U256>),
    Built(bool),
}

/// What to do next.
#[derive(Clone, Copy, Debug)]
pub enum TickAction {
    UpdateState,
    FindBestOp,
    CheckBalance(Address),
    BuildLiquidation(LiquidationOpportunity),
    /// Submit the transaction that was built.
    Submit(GasBidInfo),
    /// End the tick without a transaction.
    Stop,
}

/// Whether a tick waits for what has happened.
pub open spec fn tick_awaits(state: TickState, event: TickEvent) -> bool {
    match state {
        TickState::Update => event is Updated,
        TickState::Search => event is Searched,
        TickState::Balance(_) => event is Balance,
        TickState::Transaction(_) => event is Built,
        TickState::Done => false,
    }
}

/// Whether a state and an action follow on a state and an event: the tick goes on from the update
/// to the search, from there to the balance if a liquidation without loss was found, from there
/// to the transaction if the balance covers the debt to repay, and then submits it. In every
/// other case it stops.
pub open spec fn tick_follows(
    bid_percentage: u64,
    state: TickState,
    event: TickEvent,
    next: TickState,
    action: TickAction,
) -> bool {
    let stops = next == TickState::Done && action == TickAction::Stop;
    match (state, event) {
        (TickState::Update, TickEvent::Updated(true)) => next == TickState::Search && action
            == TickAction::FindBestOp,
        (TickState::Search, TickEvent::Searched(Some(Some(op)))) => if op.profit_eth@ >= 0 {
            next == TickState::Balance(op) && action == TickAction::CheckBalance(op.debt)
        } else {
            stops
        },
        (TickState::Balance(op), TickEvent::Balance(Some(balance))) => if balance@
            >= op.debt_to_cover@ {
            next == TickState::Transaction(op) && action == TickAction::BuildLiquidation(op)
        } else {
            stops
        },
        (TickState::Transaction(_), TickEvent::Built(true)) => next == TickState::Done && (
        action matches TickAction::Submit(bid) && bid.bid_percentage == bid_percentage
            && bid.total_profit@ == TOTAL_PROFIT),
        _ => stops,
    }
}

/// Begins a tick: the borrowers are updated first.
pub fn begin_tick() -> (r: (TickState, TickAction))
    ensures
        r.0 == TickState::Update,
        r.1 == TickAction::UpdateState,
{
    (TickState::Update, TickAction::UpdateState)
}

/// Goes on with a tick once its last action is done.
pub fn tick_step(bid_percentage: u64, state: TickState, event: TickEvent) -> (r: (
    TickState,
    TickAction,
))
    requires
        tick_awaits(state, event),
    ensures
        tick_follows(bid_percentage, state, event, r.0, r.1),
{
    match (state, event) {
        (TickState::Update, TickEvent::Updated(true)) => {
            (TickState::Search, TickAction::FindBestOp)
        },
        (TickState::Search, TickEvent::Searched(Some(Some(op)))) => {
            if op.profit_eth.is_negative() {
                (TickState::Done, TickAction::Stop)
            } else {
                (TickState::Balance(op), TickAction::CheckBalance(op.debt))
            }
        },
        (TickState::Balance(op), TickEvent::Balance(Some(balance))) => {
            if balance.less_than(&op.debt_to_cover) {
                (TickState::Done, TickAction::Stop)
            } else {
                (TickState::Transaction(op), TickAction::BuildLiquidation(op))
            }
        },
        (TickState::Transaction(_), TickEvent::Built(true)) => {
            let bid = GasBidInfo { bid_percentage, total_profit: U256::from_u64(TOTAL_PROFIT) };
            (TickState::Done, TickAction::Submit(bid))
        },
        _ => (TickState::Done, TickAction::Stop),
    }
}

/// Whether a tick goes from its start through some events to an action.
pub open spec fn tick_runs(
    bid_percentage: u64,
    events: Seq<TickEvent>,
    states: Seq<TickState>,
    actions: Seq<TickAction>,
) -> bool {
    &&& states.len() == events.len() + 1
    &&& actions.len() == events.len() + 1
    &&& states[0] == TickState::Update
    &&& actions[0] == TickAction::UpdateState
    &&& forall|i: int|
        0 <= i < events.len() ==> tick_awaits(states[i], #[trigger] events[i]) && tick_follows(
            bid_percentage,
            states[i],
            events[i],
            states[i + 1],
            actions[i + 1],
        )
}

/// Whether everything goes well at a tick: the update succeeds, the search finds a liquidation
/// that brings no loss, the sender's balance of its debt token covers what is to be repaid, and
/// its transaction is built.
pub open spec fn goes_well(events: Seq<TickEvent>, actions: Seq<TickAction>) -> bool {
    &&& events.len() == 4
    &&& actions.len() == 5
    &&& events[0] == TickEvent::Updated(true)
    &&& events[1] matches TickEvent::Searched(Some(Some(op)))
    &&& op.profit_eth@ >= 0
    &&& actions[2] == TickAction::CheckBalance(op.debt)
    &&& events[2] matches TickEvent::Balance(Some(balance))
    &&& balance@ >= op.debt_to_cover@
    &&& actions[3] == TickAction::BuildLiquidation(op)
    &&& events[3] == TickEvent::Built(true)
}

/// A tick submits a transaction exactly if the update succeeds, the search finds a liquidation
/// that brings no loss, the sender's balance covers the debt to repay, and the transaction of that
/// very liquidation is built. It submits one at most, and with the strategy's bid.
pub proof fn law_tick_submits(
    bid_percentage: u64,
    events: Seq<TickEvent>,
    states: Seq<TickState>,
    actions: Seq<TickAction>,
)
    requires
        tick_runs(bid_percentage, events, states, actions),
    ensures
        events.len() <= 4,
        actions.last() is Submit <==> goes_well(events, actions),
        forall|i: int|
            0 <= i < actions.len() && (#[trigger] actions[i]) is Submit ==> i == actions.len() - 1,
        actions.last() matches TickAction::Submit(bid) ==> bid.bid_percentage == bid_percentage
            && bid.total_profit@ == TOTAL_PROFIT,
{
    assert(events.len() > 0 ==> tick_awaits(states[0], events[0]));
    assert(events.len() > 1 ==> tick_awaits(states[1], events[1]));
    assert(events.len() > 2 ==> tick_awaits(states[2], events[2]));
    assert(events.len() > 3 ==> tick_awaits(states[3], events[3]));
    assert(events.len() > 4 ==> tick_awaits(states[4], events[4]));
}

/// What to do before the first tick.
#[derive(Clone, Copy, Debug, PartialEq, Eq, Structural)]
pub enum SyncStep {
    UpdateTokenConfigs,
    ApproveTokens,
    LoadCache,
    UpdateState,
    /// Everything is done.
    Synced,
    /// Something has failed, and nothing more is done.
    Failed,
}

/// The first thing to do before the first tick.
pub fn begin_sync() -> (r: SyncStep)
    ensures
        r == SyncStep::UpdateTokenConfigs,
{
    SyncStep::UpdateTokenConfigs
}

/// What to do after a step of the synchronisation has succeeded or failed.
pub fn sync_step(step: SyncStep, succeeded: bool) -> (r: SyncStep)
    ensures
        r == match step {
            SyncStep::Synced => SyncStep::Synced,
            SyncStep::Failed => SyncStep::Failed,
            _ if !succeeded => SyncStep::Failed,
            SyncStep::UpdateTokenConfigs => SyncStep::ApproveTokens,
            SyncStep::ApproveTokens => SyncStep::LoadCache,
            SyncStep::LoadCache => SyncStep::UpdateState,
            SyncStep::UpdateState => SyncStep::Synced,
        },
{
    match step {
        SyncStep::Synced => SyncStep::Synced,
        SyncStep::Failed => SyncStep::Failed,
        _ if !succeeded => SyncStep::Failed,
        SyncStep::UpdateTokenConfigs => SyncStep::ApproveTokens,
        SyncStep::ApproveTokens => SyncStep::LoadCache,
        SyncStep::LoadCache => SyncStep::UpdateState,
        SyncStep::UpdateState => SyncStep::Synced,
    }
}

/// A step of a tick in detail. The search follows on a successful update only; the balance of a
/// liquidation's debt token is asked for only if the liquidation was found and brings no loss; its
/// transaction is built only if that balance covers its debt to cover; and it is submitted only
/// once it is built. Each of these happens whenever its condition holds, and the tick stops in
/// every other case.
pub proof fn law_tick_step(
    bid_percentage: u64,
    state: TickState,
    event: TickEvent,
    next: TickState,
    action: TickAction,
)
    requires
        tick_awaits(state, event),
        tick_follows(bid_percentage, state, event, next, action),
    ensures
        action != TickAction::UpdateState,
        action == TickAction::FindBestOp <==> event == TickEvent::Updated(true),
        action == TickAction::FindBestOp ==> next == TickState::Search,
        event matches TickEvent::Searched(Some(Some(op))) ==> op.profit_eth@ >= 0 ==> action
            == TickAction::CheckBalance(op.debt) && next == TickState::Balance(op),
        action is CheckBalance ==> {
            &&& event matches TickEvent::Searched(Some(Some(op)))
            &&& op.profit_eth@ >= 0
        },
        state matches TickState::Balance(op) ==> event matches TickEvent::Balance(Some(balance))
            ==> balance@ >= op.debt_to_cover@ ==> action == TickAction::BuildLiquidation(op) && next
            == TickState::Transaction(op),
        action is BuildLiquidation ==> {
            &&& state matches TickState::Balance(op)
            &&& event matches TickEvent::Balance(Some(balance))
            &&& balance@ >= op.debt_to_cover@
        },
        action is Submit <==> event == TickEvent::Built(true),
        action matches TickAction::Submit(bid) ==> bid.bid_percentage == bid_percentage
            && bid.total_profit@ == 205_401_561_654_042 && next == TickState::Done,
        action == TickAction::Stop ==> next == TickState::Done,
{
}

/// A tick waits for the answer to what it has asked for.
pub proof fn law_tick_awaits_its_action(
    bid_percentage: u64,
    state: TickState,
    event: TickEvent,
    next: TickState,
    action: TickAction,
    answer: TickEvent,
)
    requires
        tick_follows(bid_percentage, state, event, next, action),
        tick_awaits(state, event),
    ensures
        tick_awaits(TickState::Update, answer) <==> answer is Updated,
        tick_awaits(next, answer) <==> match action {
            TickAction::UpdateState => answer is Updated,
            TickAction::FindBestOp => answer is Searched,
            TickAction::CheckBalance(_) => answer is Balance,
            TickAction::BuildLiquidation(_) => answer is Built,
            TickAction::Submit(_) => false,
            TickAction::Stop => false,
        },
{
}

/// The amount that is repaid is the same from end to end. Where a liquidation that was worked out
/// is the one that a tick finds, and the tick submits its transaction, the transaction repays the
/// debt to cover of the candidate's terms and the borrower's balances: the very amount of the
/// tried-out call, and one that the sender's balance of the debt token covers.
pub proof fn law_submitted_amount(
    strategy: AaveStrategy,
    pool_state: PoolState,
    candidate: Candidate,
    balances: BorrowerBalances,
    gain: I256,
    op_states: Seq<OpportunityState>,
    op_actions: Seq<OpportunityAction>,
    op: LiquidationOpportunity,
    events: Seq<TickEvent>,
    states: Seq<TickState>,
    actions: Seq<TickAction>,
    call: LiquidationCall,
)
    requires
        works_out(strategy, pool_state, candidate, balances, gain, op_states, op_actions),
        op_actions[3] == OpportunityAction::Found(op),
        tick_runs(strategy.bid_percentage, events, states, actions),
        events.len() > 1,
        events[1] == TickEvent::Searched(Some(Some(op))),
        actions.last() is Submit,
        carries_out(call, strategy, op),
    ensures
        ({
            &&& op_states[0] matches OpportunityState::Debt(terms)
            &&& op_actions[2] matches OpportunityAction::Call(tried)
            &&& tried.debt_to_cover@ == terms.debt_to_cover(balances)
            &&& call.debt_to_cover@ == terms.debt_to_cover(balances)
            &&& call.borrower == candidate.borrower
            &&& call.collateral == candidate.collateral
            &&& call.debt == candidate.debt
            &&& call.swap_path@ == tried.swap_path@
            &&& call.swap_venue@ == tried.swap_venue@
            &&& call.liquidator == tried.liquidator
            &&& actions[2] == TickAction::CheckBalance(candidate.debt)
            &&& actions[3] == TickAction::BuildLiquidation(op)
            &&& events[2] matches TickEvent::Balance(Some(balance))
            &&& balance@ >= terms.debt_to_cover(balances)
            &&& op.profit_eth@ >= 0
        }),
{
    law_tick_submits(strategy.bid_percentage, events, states, actions);
    law_tried_amount(
        strategy,
        pool_state,
        candidate,
        balances,
        gain,
        op_states,
        op_actions,
    );
    law_call_carries_out(call, strategy, op);
}

} // verus!
