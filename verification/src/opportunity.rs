//! Working out one liquidation.
//!
//! The pool is asked for the borrower's debt and collateral, the liquidation is sized, it is tried
//! out with a call that changes nothing, and what it gains is priced. Asking and calling happen
//! outside.
use vstd::prelude::*;

use crate::address::Address;
use crate::liquidation::{
    profit_fits, profit_of, terms_of, BorrowerBalances, Candidate, LiquidationOpportunity,
    LiquidationTerms, PoolState, StrategyError,
};
use crate::numbers::{I256, U256};
use crate::strategy::AaveStrategy;
use crate::swap::{carries_out, LiquidationCall};

verus! {

/// What a liquidation waits for.
#[derive(Clone, Copy, Debug)]
pub enum OpportunityState {
    /// What the borrower owes.
    Debt(LiquidationTerms),
    /// How much collateral the borrower has; the stable and the variable debt are known.
    Collateral(LiquidationTerms, U256, U256),
    /// What trying it out gains.
    Gain(LiquidationOpportunity),
    Done,
}

/// What has come of the last action.
#[derive(Clone, Copy, Debug)]
pub enum OpportunityEvent {
    /// The stable and the variable debt.
    Debt(U256, U256),
    Balance(U256),
    Gain(I256),
}

/// What to do next.
#[derive(Debug)]
pub enum OpportunityAction {
    /// Ask the pool what a user owes of an asset.
    GetUserReserveData { asset: Address, user: Address },
    /// Ask a token for the balance of a user.
    GetBalance { token: Address, user: Address },
    /// Try out the liquidation.
    Call(LiquidationCall),
    Found(LiquidationOpportunity),
    Fail(StrategyError),
}

/// Whether a liquidation waits for what has happened.
pub open spec fn opportunity_awaits(state: OpportunityState, event: OpportunityEvent) -> bool {
    match state {
        OpportunityState::Debt(_) => event is Debt,
        OpportunityState::Collateral(_, _, _) => event is Balance,
        OpportunityState::Gain(_) => event is Gain,
        OpportunityState::Done => false,
    }
}

/// Whether the numbers of the next step can be computed.
pub open spec fn opportunity_fits(
    strategy: AaveStrategy,
    pool_state: PoolState,
    state: OpportunityState,
    event: OpportunityEvent,
) -> bool {
    match (state, event) {
        (
            OpportunityState::Collateral(terms, stable_debt, variable_debt),
            OpportunityEvent::Balance(collateral),
        ) => terms.sizes_fit(BorrowerBalances { stable_debt, variable_debt, collateral }),
        (OpportunityState::Gain(op), OpportunityEvent::Gain(gain)) => profit_fits(
            gain@,
            op.collateral,
            strategy.config.weth_address,
            pool_state.prices@,
        ),
        _ => true,
    }
}

/// Whether a liquidation has the sizes that follow from its terms and the borrower's balances.
pub open spec fn is_sized(
    op: LiquidationOpportunity,
    terms: LiquidationTerms,
    balances: BorrowerBalances,
) -> bool {
    &&& op.borrower == terms.borrower
    &&& op.collateral == terms.collateral
    &&& op.collateral_to_liquidate@ == terms.collateral_to_liquidate(balances)
    &&& op.debt == terms.debt
    &&& op.debt_to_cover@ == terms.debt_to_cover(balances)
    &&& op.profit_eth@ == 0
}

/// Whether a state and an action are those that a candidate starts with.
pub open spec fn opportunity_starts(
    strategy: AaveStrategy,
    pool_state: PoolState,
    candidate: Candidate,
    next: OpportunityState,
    action: OpportunityAction,
) -> bool {
    match next {
        OpportunityState::Debt(terms) => terms_of(strategy, pool_state, Ok(terms), candidate)
            && action == OpportunityAction::GetUserReserveData {
            asset: candidate.debt,
            user: candidate.borrower,
        },
        OpportunityState::Done => action matches OpportunityAction::Fail(error) && terms_of(
            strategy,
            pool_state,
            Err(error),
            candidate,
        ),
        _ => false,
    }
}

/// Whether a state and an action follow on a state and an event.
pub open spec fn opportunity_follows(
    strategy: AaveStrategy,
    pool_state: PoolState,
    state: OpportunityState,
    event: OpportunityEvent,
    next: OpportunityState,
    action: OpportunityAction,
) -> bool {
    match (state, event) {
        (OpportunityState::Debt(terms), OpportunityEvent::Debt(stable_debt, variable_debt)) => {
            &&& next == OpportunityState::Collateral(terms, stable_debt, variable_debt)
            &&& action == OpportunityAction::GetBalance {
                token: terms.a_token,
                user: terms.borrower,
            }
        },
        (
            OpportunityState::Collateral(terms, stable_debt, variable_debt),
            OpportunityEvent::Balance(collateral),
        ) => {
            &&& next matches OpportunityState::Gain(op)
            &&& is_sized(op, terms, BorrowerBalances { stable_debt, variable_debt, collateral })
            &&& action matches OpportunityAction::Call(call)
            &&& carries_out(call, strategy, op)
        },
        (OpportunityState::Gain(op), OpportunityEvent::Gain(gain)) => {
            &&& next == OpportunityState::Done
            &&& match profit_of(
                gain@,
                op.collateral,
                strategy.config.weth_address,
                pool_state.prices@,
            ) {
                Ok(profit) => {
                    &&& action matches OpportunityAction::Found(found)
                    &&& found.profit_eth@ == profit
                    &&& found == LiquidationOpportunity { profit_eth: found.profit_eth, ..op }
                },
                Err(error) => action == OpportunityAction::Fail(error),
            }
        },
        _ => false,
    }
}

impl AaveStrategy {
    /// Begins to work out a liquidation.
    pub fn begin_opportunity(&self, candidate: &Candidate, pool_state: &PoolState) -> (r: (
        OpportunityState,
        OpportunityAction,
    ))
        ensures
            opportunity_starts(*self, *pool_state, *candidate, r.0, r.1),
    {
        match self.liquidation_terms(candidate, pool_state) {
            Ok(terms) => {
                let action = OpportunityAction::GetUserReserveData {
                    asset: candidate.debt,
                    user: candidate.borrower,
                };
                (OpportunityState::Debt(terms), action)
            },
            Err(error) => (OpportunityState::Done, OpportunityAction::Fail(error)),
        }
    }

    /// Whether the numbers of the next step can be computed.
    pub fn can_step_opportunity(
        &self,
        pool_state: &PoolState,
        state: &OpportunityState,
        event: &OpportunityEvent,
    ) -> (r: bool)
        ensures
            r == opportunity_fits(*self, *pool_state, *state, *event),
    {
        match (*state, *event) {
            (
                OpportunityState::Collateral(terms, stable_debt, variable_debt),
                OpportunityEvent::Balance(collateral),
            ) => terms.can_size(&BorrowerBalances { stable_debt, variable_debt, collateral }),
            (OpportunityState::Gain(op), OpportunityEvent::Gain(gain)) => self.can_price(
                &op,
                &gain,
                pool_state,
            ),
            _ => true,
        }
    }

    /// Goes on with a liquidation once its last action is done.
    pub fn opportunity_step(
        &self,
        pool_state: &PoolState,
        state: OpportunityState,
        event: OpportunityEvent,
    ) -> (r: (OpportunityState, OpportunityAction))
        requires
            opportunity_awaits(state, event),
            opportunity_fits(*self, *pool_state, state, event),
        ensures
            opportunity_follows(*self, *pool_state, state, event, r.0, r.1),
    {
        match (state, event) {
            (OpportunityState::Debt(terms), OpportunityEvent::Debt(stable_debt, variable_debt)) => {
                let action = OpportunityAction::GetBalance {
                    token: terms.a_token,
                    user: terms.borrower,
                };
                (OpportunityState::Collateral(terms, stable_debt, variable_debt), action)
            },
            (
                OpportunityState::Collateral(terms, stable_debt, variable_debt),
                OpportunityEvent::Balance(collateral),
            ) => {
                let op = terms.size(
                    &BorrowerBalances { stable_debt, variable_debt, collateral },
                );
                match self.build_liquidation_call(&op) {
                    Ok(call) => (OpportunityState::Gain(op), OpportunityAction::Call(call)),
                    Err(error) => (OpportunityState::Done, OpportunityAction::Fail(error)),
                }
            },
            (OpportunityState::Gain(op), OpportunityEvent::Gain(gain)) => {
                match self.price(&op, &gain, pool_state) {
                    Ok(found) => (OpportunityState::Done, OpportunityAction::Found(found)),
                    Err(error) => (OpportunityState::Done, OpportunityAction::Fail(error)),
                }
            },
            _ => vstd::pervasive::unreached(),
        }
    }
}

/// Whether a liquidation is worked out from its candidate through the borrower's debt, its
/// collateral and the gain, by way of the states and actions in between.
pub open spec fn works_out(
    strategy: AaveStrategy,
    pool_state: PoolState,
    candidate: Candidate,
    balances: BorrowerBalances,
    gain: I256,
    states: Seq<OpportunityState>,
    actions: Seq<OpportunityAction>,
) -> bool {
    let debt = OpportunityEvent::Debt(balances.stable_debt, balances.variable_debt);
    let balance = OpportunityEvent::Balance(balances.collateral);
    &&& states.len() == 4
    &&& actions.len() == 4
    &&& opportunity_starts(strategy, pool_state, candidate, states[0], actions[0])
    &&& opportunity_follows(strategy, pool_state, states[0], debt, states[1], actions[1])
    &&& opportunity_follows(strategy, pool_state, states[1], balance, states[2], actions[2])
    &&& opportunity_follows(
        strategy,
        pool_state,
        states[2],
        OpportunityEvent::Gain(gain),
        states[3],
        actions[3],
    )
}

/// A liquidation that is found is one of its candidate: it takes the candidate's collateral from
/// the candidate's borrower, no more than the borrower has, and its profit is what trying out that
/// very liquidation has gained, at the price of the collateral.
pub proof fn law_found_opportunity(
    strategy: AaveStrategy,
    pool_state: PoolState,
    candidate: Candidate,
    balances: BorrowerBalances,
    gain: I256,
    states: Seq<OpportunityState>,
    actions: Seq<OpportunityAction>,
)
    requires
        works_out(strategy, pool_state, candidate, balances, gain, states, actions),
    ensures
        actions[3] is Found || actions[3] is Fail,
        actions[3] matches OpportunityAction::Found(op) ==> {
            &&& op.borrower == candidate.borrower
            &&& op.collateral == candidate.collateral
            &&& op.debt == candidate.debt
            &&& op.collateral_to_liquidate@ <= balances.collateral@
            &&& profit_of(
                gain@,
                candidate.collateral,
                strategy.config.weth_address,
                pool_state.prices@,
            ) == Ok::<int, StrategyError>(op.profit_eth@)
            &&& actions[2] matches OpportunityAction::Call(call)
            &&& carries_out(call, strategy, op)
        },
{
}

/// What is tried out, and what is found, is sized from the terms of the candidate's own tokens and
/// the balances that were asked for: the debt of the candidate's debt token, and the balance of the
/// interest-bearing token of its collateral, both of its borrower. The amount that the tried-out
/// call repays is the debt to cover of those terms and balances. The search of this candidate fails
/// only for want of a profit.
pub proof fn law_tried_amount(
    strategy: AaveStrategy,
    pool_state: PoolState,
    candidate: Candidate,
    balances: BorrowerBalances,
    gain: I256,
    states: Seq<OpportunityState>,
    actions: Seq<OpportunityAction>,
)
    requires
        works_out(strategy, pool_state, candidate, balances, gain, states, actions),
    ensures
        ({
            &&& states[0] matches OpportunityState::Debt(terms)
            &&& terms_of(strategy, pool_state, Ok(terms), candidate)
            &&& actions[0] == OpportunityAction::GetUserReserveData {
                asset: candidate.debt,
                user: candidate.borrower,
            }
            &&& actions[1] == OpportunityAction::GetBalance {
                token: strategy.tokens@[candidate.collateral].a_address,
                user: candidate.borrower,
            }
            &&& actions[2] matches OpportunityAction::Call(tried)
            &&& tried.liquidator == strategy.liquidator
            &&& tried.borrower == candidate.borrower
            &&& tried.collateral == candidate.collateral
            &&& tried.debt == candidate.debt
            &&& tried.debt_to_cover@ == terms.debt_to_cover(balances)
            &&& actions[3] matches OpportunityAction::Found(op) ==> op.debt_to_cover@
                == terms.debt_to_cover(balances) && op.collateral_to_liquidate@
                == terms.collateral_to_liquidate(balances)
            &&& match profit_of(
                gain@,
                candidate.collateral,
                strategy.config.weth_address,
                pool_state.prices@,
            ) {
                Ok(profit) => actions[3] matches OpportunityAction::Found(op) && op.profit_eth@
                    == profit,
                Err(error) => actions[3] == OpportunityAction::Fail(error),
            }
        }),
{
}

/// A liquidation waits for the answer to what it has asked for: for the debt, the balance and the
/// gain in turn. A candidate without prices or settings has nothing to wait for.
pub proof fn law_opportunity_awaits_its_action(
    strategy: AaveStrategy,
    pool_state: PoolState,
    candidate: Candidate,
    state: OpportunityState,
    event: OpportunityEvent,
    next: OpportunityState,
    action: OpportunityAction,
    answer: OpportunityEvent,
)
    requires
        opportunity_starts(strategy, pool_state, candidate, next, action) || opportunity_follows(
            strategy,
            pool_state,
            state,
            event,
            next,
            action,
        ),
    ensures
        opportunity_awaits(next, answer) <==> match action {
            OpportunityAction::GetUserReserveData { .. } => answer is Debt,
            OpportunityAction::GetBalance { .. } => answer is Balance,
            OpportunityAction::Call(_) => answer is Gain,
            OpportunityAction::Found(_) => false,
            OpportunityAction::Fail(_) => false,
        },
{
}

/// The numbers of a step can be computed unless it sizes or prices a liquidation that cannot be
/// sized or priced.
pub proof fn law_opportunity_fits(
    strategy: AaveStrategy,
    pool_state: PoolState,
    terms: LiquidationTerms,
    op: LiquidationOpportunity,
    balances: BorrowerBalances,
    gain: I256,
)
    ensures
        opportunity_fits(
            strategy,
            pool_state,
            OpportunityState::Debt(terms),
            OpportunityEvent::Debt(balances.stable_debt, balances.variable_debt),
        ),
        opportunity_fits(
            strategy,
            pool_state,
            OpportunityState::Collateral(terms, balances.stable_debt, balances.variable_debt),
            OpportunityEvent::Balance(balances.collateral),
        ) <==> terms.sizes_fit(balances),
        opportunity_fits(
            strategy,
            pool_state,
            OpportunityState::Gain(op),
            OpportunityEvent::Gain(gain),
        ) <==> profit_fits(
            gain@,
            op.collateral,
            strategy.config.weth_address,
            pool_state.prices@,
        ),
{
}

} // verus!
